//! One turn of the visible transcript, with the typing animation that
//! reveals a bot message character by character over time.
use crate::text::{chars_of, string_from_chars};
use vstd::prelude::*;
use vstd::string::StrSliceExecFns;

verus! {

/// Delay before revealing the next character after a non-space character.
pub const BASE_DELAY_MS: u64 = 5;

/// Delay before revealing the next character after a space: the pause at
/// a word boundary is strictly longer than the base pause.
pub const WORD_DELAY_MS: u64 = 45;

/// One message of the transcript. Bot messages start unrevealed and are
/// animated; user messages are created already fully revealed.
pub struct ChatMessage {
    pub text: String,
    pub is_bot: bool,
    pub displayed_chars: usize,
    pub last_char_time: Option<u64>,
    pub complete: bool,
}

impl ChatMessage {
    /// The revealed count never passes the text length, and a complete
    /// message is fully revealed.
    pub open spec fn wf(self) -> bool {
        &&& self.displayed_chars <= self.text@.len()
        &&& (self.complete ==> self.displayed_chars == self.text@.len())
    }

    /// The delay this message must wait before its next reveal: longer
    /// right after a revealed space than after any other character.
    pub open spec fn required_delay(self) -> u64 {
        if self.displayed_chars > 0 && self.text@[self.displayed_chars - 1] == ' ' {
            WORD_DELAY_MS
        } else {
            BASE_DELAY_MS
        }
    }

    /// Whether enough time has passed since the last reveal.
    pub open spec fn reveal_due(self, now_ms: u64) -> bool {
        match self.last_char_time {
            None => true,
            Some(t) => (if now_ms >= t {
                now_ms - t
            } else {
                0
            }) >= self.required_delay(),
        }
    }

    /// Whether a tick at `now_ms` reveals one more character.
    pub open spec fn spec_reveals(self, now_ms: u64) -> bool {
        &&& !self.complete
        &&& self.reveal_due(now_ms)
        &&& self.displayed_chars < self.text@.len()
    }

    /// The message after one animation tick at `now_ms`.
    pub open spec fn spec_step(self, now_ms: u64) -> ChatMessage {
        if self.spec_reveals(now_ms) {
            ChatMessage {
                displayed_chars: (self.displayed_chars + 1) as usize,
                last_char_time: Some(now_ms),
                complete: self.displayed_chars + 1 == self.text@.len(),
                ..self
            }
        } else {
            self
        }
    }

    /// A fresh message: nothing revealed yet, not complete.
    pub fn new(text: String, is_bot: bool) -> (r: ChatMessage)
        ensures
            r.text == text,
            r.is_bot == is_bot,
            r.displayed_chars == 0,
            r.last_char_time is None,
            !r.complete,
            r.wf(),
    {
        ChatMessage { text, is_bot, displayed_chars: 0, last_char_time: None, complete: false }
    }

    /// A message created already fully revealed, as user turns are.
    pub fn new_complete(text: String, is_bot: bool) -> (r: ChatMessage)
        ensures
            r.text == text,
            r.is_bot == is_bot,
            r.displayed_chars == r.text@.len(),
            r.complete,
            r.wf(),
    {
        let n = text.as_str().unicode_len();
        ChatMessage { text, is_bot, displayed_chars: n, last_char_time: None, complete: true }
    }

    /// One animation tick: reveal one more character when the required
    /// delay has elapsed and characters remain; complete the message when
    /// the last character is revealed. Returns whether a reveal happened.
    pub fn update_typing(&mut self, now_ms: u64) -> (r: bool)
        requires
            old(self).wf(),
        ensures
            final(self).wf(),
            *final(self) == old(self).spec_step(now_ms),
            r == old(self).spec_reveals(now_ms),
    {
        if self.complete {
            return false;
        }
        let should_add = match self.last_char_time {
            None => true,
            Some(t) => {
                let elapsed: u64 = if now_ms >= t {
                    now_ms - t
                } else {
                    0
                };
                if self.displayed_chars > 0 {
                    let last_char = self.text.as_str().get_char(self.displayed_chars - 1);
                    if last_char == ' ' {
                        elapsed >= WORD_DELAY_MS
                    } else {
                        elapsed >= BASE_DELAY_MS
                    }
                } else {
                    elapsed >= BASE_DELAY_MS
                }
            },
        };
        let n = self.text.as_str().unicode_len();
        if should_add && self.displayed_chars < n {
            self.displayed_chars = self.displayed_chars + 1;
            self.last_char_time = Some(now_ms);
            if self.displayed_chars >= n {
                self.complete = true;
            }
            true
        } else {
            false
        }
    }

    /// The part of the text revealed so far.
    pub fn get_displayed_text(&self) -> (r: String)
        requires
            self.wf(),
        ensures
            r@ == self.text@.take(self.displayed_chars as int),
    {
        let cs = chars_of(self.text.as_str());
        let mut out: Vec<char> = Vec::new();
        let mut i: usize = 0;
        while i < self.displayed_chars
            invariant
                self.wf(),
                cs@ == self.text@,
                i <= self.displayed_chars,
                out@ == self.text@.take(i as int),
            decreases self.displayed_chars - i,
        {
            out.push(cs[i]);
            proof {
                assert(out@ =~= self.text@.take(i + 1 as int));
            }
            i = i + 1;
        }
        string_from_chars(&out)
    }
}

/// The pause required after a revealed space is strictly longer than the
/// pause after any other character.
pub proof fn lemma_word_boundary_pause(m: ChatMessage)
    requires
        0 < m.displayed_chars <= m.text@.len(),
    ensures
        m.text@[m.displayed_chars - 1] == ' ' ==> m.required_delay() == WORD_DELAY_MS,
        m.text@[m.displayed_chars - 1] != ' ' ==> m.required_delay() == BASE_DELAY_MS,
        WORD_DELAY_MS > BASE_DELAY_MS,
{
}

/// A complete message never changes again: every further tick is a no-op.
pub proof fn lemma_complete_tick_noop(m: ChatMessage, now_ms: u64)
    requires
        m.complete,
    ensures
        !m.spec_reveals(now_ms),
        m.spec_step(now_ms) == m,
{
}

/// The message after a whole sequence of animation ticks, one per time.
pub open spec fn run_typing(m: ChatMessage, times: Seq<u64>) -> ChatMessage
    decreases times.len(),
{
    if times.len() == 0 {
        m
    } else {
        run_typing(m.spec_step(times[0]), times.drop_first())
    }
}

/// Tick times each of which waits out at least the base delay since the
/// previous reveal (`last` being the time of the reveal before them all).
pub open spec fn base_gated(last: Option<u64>, times: Seq<u64>) -> bool {
    &&& (forall|i: int|
        1 <= i < times.len() ==> #[trigger] times[i] >= times[i - 1] + BASE_DELAY_MS)
    &&& (times.len() > 0 ==> match last {
        None => true,
        Some(t) => times[0] >= t + BASE_DELAY_MS,
    })
}

/// For a message whose text holds no spaces, every base-gated tick
/// reveals exactly one character: k such ticks reveal k characters, and
/// the message is complete exactly when all of them are revealed. In
/// particular a text of length N needs exactly N reveal ticks.
pub proof fn lemma_typing_ticks(m: ChatMessage, times: Seq<u64>)
    requires
        m.wf(),
        m.text@.len() <= usize::MAX,
        !m.complete,
        forall|j: int| 0 <= j < m.text@.len() ==> m.text@[j] != ' ',
        m.displayed_chars < m.text@.len(),
        m.displayed_chars + times.len() <= m.text@.len(),
        base_gated(m.last_char_time, times),
    ensures
        run_typing(m, times).displayed_chars == m.displayed_chars + times.len(),
        run_typing(m, times).complete == (m.displayed_chars + times.len() == m.text@.len()),
        run_typing(m, times).text == m.text,
    decreases times.len(),
{
    if times.len() == 0 {
    } else {
        assert(m.required_delay() == BASE_DELAY_MS);
        assert(m.spec_reveals(times[0]));
        let m1 = m.spec_step(times[0]);
        let rest = times.drop_first();
        assert(run_typing(m, times) == run_typing(m1, rest));
        if rest.len() == 0 {
            assert(run_typing(m1, rest) == m1);
            assert(m1.displayed_chars == m.displayed_chars + 1);
            assert(m1.complete == (m.displayed_chars + 1 == m.text@.len()));
        } else {
            assert(m.displayed_chars + 2 <= m.text@.len());
            assert(!m1.complete);
            assert forall|i: int| 1 <= i < rest.len() implies #[trigger] rest[i] >= rest[i - 1]
                + BASE_DELAY_MS by {
                assert(times[i + 1] >= times[i] + BASE_DELAY_MS);
            }
            assert(rest[0] == times[1]);
            assert(times[1] >= times[0] + BASE_DELAY_MS);
            lemma_typing_ticks(m1, rest);
            assert(run_typing(m1, rest).displayed_chars == m1.displayed_chars + rest.len());
        }
    }
}

} // verus!
