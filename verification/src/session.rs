//! One chat session: the dialogue engine, the visible transcript, the
//! pending input buffer and the scroll state, advanced by discrete
//! input events and animation ticks.
use crate::dialogue::{spec_help_message, spec_route_target, DialogueEngine, Phase, SubmitOutcome};
use crate::graph::spec_find_node;
use crate::text::normal_form;
use crate::graph::{ConversationGraph, Style};
use crate::layout::{
    auto_offset, spec_auto_offset, total_content_height, total_height_sat,
};
use crate::message::ChatMessage;
use crate::text::chars_of;
use vstd::prelude::*;

verus! {

/// How many messages must stay reachable below the view when scrolling
/// up by hand.
pub const SCROLL_MIN_VISIBLE: usize = 10;

/// Relies on chrono::Local::now and chrono::Timelike::{hour, minute}:
/// the local hour of day is below 24 and the minute below 60.
#[verifier::external_body]
fn local_hour_minute() -> (r: (u32, u32))
    ensures
        r.0 < 24,
        r.1 < 60,
{
    let now = chrono::Local::now();
    (chrono::Timelike::hour(&now), chrono::Timelike::minute(&now))
}

/// The decimal digit character for `d`.
pub open spec fn digit_char(d: int) -> char {
    ((48 + d) as u8) as char
}

/// Two zero-padded decimal digits.
pub open spec fn two_digits(n: int) -> Seq<char> {
    seq![digit_char(n / 10), digit_char(n % 10)]
}

/// One transcript line: zero-padded hour and minute, the sender tag,
/// then the message text.
pub open spec fn spec_log_line(h: int, m: int, is_bot: bool, text: Seq<char>) -> Seq<char> {
    two_digits(h) + seq![':'] + two_digits(m) + seq![' ', '<'] + (if is_bot {
        "Bot"@
    } else {
        "User"@
    }) + seq!['>', ':', ' '] + text + seq!['\n']
}

fn push_two_digits(out: &mut Vec<char>, n: u32)
    requires
        n < 100,
    ensures
        final(out)@ == old(out)@ + two_digits(n as int),
{
    let tens: u32 = n / 10;
    let ones: u32 = n % 10;
    out.push((48 + tens as u8) as char);
    out.push((48 + ones as u8) as char);
    proof {
        assert(out@ =~= old(out)@ + two_digits(n as int));
    }
}

/// One transcript line for a message, as the transcript sink records
/// it.
pub fn format_log_line(h: u32, m: u32, is_bot: bool, text: &str) -> (r: String)
    requires
        h < 24,
        m < 60,
    ensures
        r@ == spec_log_line(h as int, m as int, is_bot, text@),
{
    let mut out: Vec<char> = Vec::new();
    push_two_digits(&mut out, h);
    out.push(':');
    push_two_digits(&mut out, m);
    out.push(' ');
    out.push('<');
    if is_bot {
        out.push('B');
        out.push('o');
        out.push('t');
        proof {
            reveal_strlit("Bot");
            assert(out@ =~= two_digits(h as int) + seq![':'] + two_digits(m as int) + seq![
                ' ',
                '<',
            ] + "Bot"@);
        }
    } else {
        out.push('U');
        out.push('s');
        out.push('e');
        out.push('r');
        proof {
            reveal_strlit("User");
            assert(out@ =~= two_digits(h as int) + seq![':'] + two_digits(m as int) + seq![
                ' ',
                '<',
            ] + "User"@);
        }
    }
    out.push('>');
    out.push(':');
    out.push(' ');
    let ghost head = out@;
    let cs = chars_of(text);
    let mut i: usize = 0;
    while i < cs.len()
        invariant
            i <= cs@.len(),
            cs@ == text@,
            out@ == head + text@.take(i as int),
        decreases cs@.len() - i,
    {
        out.push(cs[i]);
        proof {
            assert(out@ =~= head + text@.take(i + 1 as int));
        }
        i = i + 1;
    }
    out.push('\n');
    proof {
        assert(out@ =~= spec_log_line(h as int, m as int, is_bot, text@));
    }
    crate::text::string_from_chars(&out)
}

/// A discrete input event, as the input source hands them over.
pub enum InputEvent {
    CharTyped(char),
    Backspace,
    Submit,
    ScrollUp,
    ScrollDown,
    Quit,
}

/// One chat session's whole state.
pub struct Session {
    pub engine: DialogueEngine,
    pub messages: Vec<ChatMessage>,
    pub input: String,
    pub scroll_offset: usize,
    pub auto_scroll: bool,
}

impl Session {
    /// The engine resolves its node while awaiting input, and every
    /// message's revealed count is in range.
    pub open spec fn wf(self) -> bool {
        &&& self.engine.wf()
        &&& forall|i: int| 0 <= i < self.messages@.len() ==> (#[trigger] self.messages@[i]).wf()
    }

    /// A fresh session at the start node, with auto-scroll on.
    pub fn new(graph: ConversationGraph, style: Style) -> (r: Session)
        ensures
            r.wf(),
            r.engine.graph == graph,
            r.engine.style == style,
            r.engine.phase == Phase::Emitting,
            r.engine.current@ == crate::dialogue::start_node_id(),
            r.messages@.len() == 0,
            r.input@.len() == 0,
            r.scroll_offset == 0,
            r.auto_scroll,
    {
        Session {
            engine: DialogueEngine::new(graph, style),
            messages: Vec::new(),
            input: String::new(),
            scroll_offset: 0,
            auto_scroll: true,
        }
    }

    /// Appends a bot turn, to be revealed by animation; the scroll
    /// state is left alone: after a manual scroll the viewport stays
    /// pinned until auto-scroll is explicitly re-enabled. Returns the
    /// transcript line for the sink.
    pub fn add_bot_message(&mut self, text: String) -> (log: String)
        requires
            old(self).wf(),
        ensures
            final(self).wf(),
            final(self).messages@ == old(self).messages@.push(
                (ChatMessage {
                    text: text,
                    is_bot: true,
                    displayed_chars: 0,
                    last_char_time: None,
                    complete: false,
                }),
            ),
            final(self).auto_scroll == old(self).auto_scroll,
            final(self).engine == old(self).engine,
            final(self).input == old(self).input,
            final(self).scroll_offset == old(self).scroll_offset,
            exists|h: int, m: int|
                0 <= h < 24 && 0 <= m < 60 && log@ == spec_log_line(h, m, true, text@),
    {
        let (h, m) = local_hour_minute();
        let log = format_log_line(h, m, true, text.as_str());
        self.messages.push(ChatMessage::new(text, true));
        log
    }

    /// The explicit re-enable of auto-scroll: only this switches the
    /// viewport back to following the newest content after a manual
    /// scroll.
    pub fn enable_auto_scroll(&mut self)
        ensures
            final(self).auto_scroll,
            final(self).scroll_offset == old(self).scroll_offset,
            final(self).engine == old(self).engine,
            final(self).messages == old(self).messages,
            final(self).input == old(self).input,
    {
        self.auto_scroll = true;
    }

    /// Appends a user turn, already fully revealed; the scroll state is
    /// left alone. Returns the transcript line for the sink.
    pub fn push_user_message(&mut self, text: String) -> (log: String)
        requires
            old(self).wf(),
        ensures
            final(self).wf(),
            final(self).messages@.len() == old(self).messages@.len() + 1,
            final(self).messages@.drop_last() == old(self).messages@,
            final(self).messages@.last().text == text,
            !final(self).messages@.last().is_bot,
            final(self).messages@.last().complete,
            final(self).messages@.last().displayed_chars == text@.len(),
            final(self).auto_scroll == old(self).auto_scroll,
            final(self).scroll_offset == old(self).scroll_offset,
            final(self).engine == old(self).engine,
            final(self).input == old(self).input,
            exists|h: int, m: int|
                0 <= h < 24 && 0 <= m < 60 && log@ == spec_log_line(h, m, false, text@),
    {
        let (h, m) = local_hour_minute();
        let log = format_log_line(h, m, false, text.as_str());
        let msg = ChatMessage::new_complete(text, false);
        self.messages.push(msg);
        proof {
            assert(self.messages@.drop_last() =~= old(self).messages@);
        }
        log
    }

    /// Scrolling down by hand: one step toward the tail, never below
    /// zero; auto-scroll is switched off.
    pub fn scroll_down(&mut self)
        ensures
            final(self).scroll_offset == (if old(self).scroll_offset > 0 {
                old(self).scroll_offset - 1
            } else {
                0
            }),
            !final(self).auto_scroll,
            final(self).engine == old(self).engine,
            final(self).messages == old(self).messages,
            final(self).input == old(self).input,
    {
        if self.scroll_offset > 0 {
            self.scroll_offset = self.scroll_offset - 1;
        }
        self.auto_scroll = false;
    }

    /// Scrolling up by hand: one step toward the head, clamped so at
    /// least `max_messages` messages stay reachable; auto-scroll is
    /// switched off.
    pub fn scroll_up(&mut self, max_messages: usize)
        ensures
            final(self).scroll_offset == (if old(self).messages@.len() > max_messages && old(self).scroll_offset < old(self).messages@.len() - max_messages {
                old(self).scroll_offset + 1
            } else {
                old(self).scroll_offset as int
            }),
            !final(self).auto_scroll,
            final(self).engine == old(self).engine,
            final(self).messages == old(self).messages,
            final(self).input == old(self).input,
    {
        if self.messages.len() > max_messages {
            if self.scroll_offset < self.messages.len() - max_messages {
                self.scroll_offset = self.scroll_offset + 1;
            }
        }
        self.auto_scroll = false;
    }

    /// Recomputes the scroll offset so the newest content is visible,
    /// but only while auto-scroll is on: after a manual scroll the
    /// viewport stays where the user put it.
    pub fn update_scroll(&mut self, viewport: usize, max_width: usize)
        requires
            old(self).wf(),
        ensures
            final(self).wf(),
            !old(self).auto_scroll ==> *final(self) == *old(self),
            old(self).auto_scroll ==> final(self).scroll_offset as int == spec_auto_offset(
                total_height_sat(old(self).messages@, max_width as int),
                viewport as int,
            ),
            final(self).engine == old(self).engine,
            final(self).messages == old(self).messages,
            final(self).input == old(self).input,
            final(self).auto_scroll == old(self).auto_scroll,
    {
        if !self.auto_scroll {
            return ;
        }
        let total = total_content_height(&self.messages, max_width);
        self.scroll_offset = auto_offset(total, viewport);
    }

    /// Whether any bot message is still being revealed.
    pub fn typing_in_progress(&self) -> (r: bool)
        ensures
            r == exists|i: int|
                0 <= i < self.messages@.len() && (#[trigger] self.messages@[i]).is_bot
                    && !self.messages@[i].complete,
    {
        let n = self.messages.len();
        let mut i: usize = 0;
        while i < n
            invariant
                i <= n,
                n == self.messages@.len(),
                forall|j: int|
                    0 <= j < i ==> !((#[trigger] self.messages@[j]).is_bot
                        && !self.messages@[j].complete),
            decreases n - i,
        {
            if self.messages[i].is_bot && !self.messages[i].complete {
                return true;
            }
            i = i + 1;
        }
        false
    }

    /// One animation tick over the transcript: each unfinished bot
    /// message takes one typing step; returns whether anything was
    /// revealed.
    pub fn animate(&mut self, now_ms: u64) -> (changed: bool)
        requires
            old(self).wf(),
        ensures
            final(self).wf(),
            final(self).messages@.len() == old(self).messages@.len(),
            forall|i: int|
                0 <= i < old(self).messages@.len() ==> final(self).messages@[i] == (if (
                #[trigger] old(self).messages@[i]).is_bot && !old(self).messages@[i].complete {
                    old(self).messages@[i].spec_step(now_ms)
                } else {
                    old(self).messages@[i]
                }),
            final(self).engine == old(self).engine,
            final(self).input == old(self).input,
            final(self).scroll_offset == old(self).scroll_offset,
            final(self).auto_scroll == old(self).auto_scroll,
            changed == exists|i: int|
                0 <= i < old(self).messages@.len() && (#[trigger] old(self).messages@[i]).is_bot
                    && !old(self).messages@[i].complete && old(self).messages@[i].spec_reveals(
                    now_ms,
                ),
    {
        let n = self.messages.len();
        let mut changed = false;
        let mut i: usize = 0;
        while i < n
            invariant
                i <= n,
                n == self.messages@.len(),
                old(self).wf(),
                self.engine == old(self).engine,
                self.input == old(self).input,
                self.scroll_offset == old(self).scroll_offset,
                self.auto_scroll == old(self).auto_scroll,
                self.messages@.len() == old(self).messages@.len(),
                forall|j: int| 0 <= j < n ==> (#[trigger] self.messages@[j]).wf(),
                forall|j: int|
                    0 <= j < i ==> self.messages@[j] == (if (#[trigger] old(self).messages@[j]).is_bot && !old(self).messages@[j].complete {
                        old(self).messages@[j].spec_step(now_ms)
                    } else {
                        old(self).messages@[j]
                    }),
                forall|j: int|
                    i <= j < n ==> self.messages@[j] == old(self).messages@[j],
                changed == exists|j: int|
                    0 <= j < i && (#[trigger] old(self).messages@[j]).is_bot && !old(
                        self,
                    ).messages@[j].complete && old(self).messages@[j].spec_reveals(now_ms),
            decreases n - i,
        {
            if self.messages[i].is_bot && !self.messages[i].complete {
                proof {
                    assert(old(self).messages@[i as int].wf());
                }
                let b = self.messages[i].update_typing(now_ms);
                if b {
                    changed = true;
                    proof {
                        assert(old(self).messages@[i as int].is_bot && !old(
                            self,
                        ).messages@[i as int].complete && old(self).messages@[i as int].spec_reveals(
                            now_ms,
                        ));
                    }
                }
            }
            i = i + 1;
        }
        changed
    }

    /// If a bot turn is owed, emits it into the transcript; returns the
    /// transcript line to log, if a turn was emitted.
    pub fn tick_emit(&mut self) -> (log: Option<String>)
        requires
            old(self).wf(),
        ensures
            final(self).wf(),
            old(self).engine.phase != Phase::Emitting ==> *final(self) == *old(self) && log
                is None,
            old(self).engine.phase == Phase::Emitting ==> final(self).messages@.len() == old(self).messages@.len() + 1 && final(self).messages@.drop_last() == old(self).messages@
                && final(self).messages@.last().is_bot && !final(self).messages@.last().complete
                && final(self).messages@.last().displayed_chars == 0 && log is Some
                && final(self).auto_scroll == old(self).auto_scroll && (match
                crate::graph::spec_find_node(
                old(self).engine.graph.nodes@,
                old(self).engine.current@,
            ) {
                None => final(self).engine.phase == Phase::Ended && final(self).messages@.last().text@ == crate::dialogue::invalid_node_text(
                    old(self).engine.current@,
                ),
                Some(node) => final(self).engine.phase == (if node.kind
                    == crate::graph::NodeKind::End {
                    Phase::Ended
                } else {
                    Phase::AwaitingInput
                }) && final(self).messages@.last().text@ == node.spec_text_for(
                    old(self).engine.style,
                ),
            }) && (match log {
                Some(l) => exists|h: int, m: int|
                    0 <= h < 24 && 0 <= m < 60 && l@ == spec_log_line(
                        h,
                        m,
                        true,
                        final(self).messages@.last().text@,
                    ),
                None => false,
            }),
    {
        if self.engine.phase != Phase::Emitting {
            return None;
        }
        let text = self.engine.emit_step();
        match text {
            Some(t) => {
                let log = self.add_bot_message(t);
                proof {
                    assert(self.messages@.drop_last() =~= old(self).messages@);
                }
                Some(log)
            },
            None => {
                proof {
                    assert(false);
                }
                None
            },
        }
    }

    /// Applies one input event: typed characters edit the buffer while
    /// the conversation runs, Enter submits the buffer (ignored while a
    /// bot turn is still being revealed; after the conversation has
    /// ended it quits), the scroll events move the viewport by hand,
    /// and Quit ends the session. Returns whether the session should
    /// end, and the transcript lines to hand to the sink.
    pub fn handle_event(&mut self, ev: InputEvent) -> (r: (bool, Vec<String>))
        requires
            old(self).wf(),
        ensures
            final(self).wf(),
            match ev {
                InputEvent::CharTyped(c) => !r.0 && r.1@.len() == 0 && final(self).messages == old(self).messages && final(self).engine == old(self).engine && final(self).scroll_offset
                    == old(self).scroll_offset && final(self).auto_scroll == old(self).auto_scroll
                    && (if old(self).engine.phase != Phase::Ended {
                    final(self).input@ == old(self).input@.push(c)
                } else {
                    final(self).input == old(self).input
                }),
                InputEvent::Backspace => !r.0 && r.1@.len() == 0 && final(self).messages == old(self).messages && final(self).engine == old(self).engine && final(self).scroll_offset
                    == old(self).scroll_offset && final(self).auto_scroll == old(self).auto_scroll
                    && (if old(self).engine.phase != Phase::Ended && old(self).input@.len() > 0 {
                    final(self).input@ == old(self).input@.drop_last()
                } else {
                    final(self).input@ == old(self).input@
                }),
                InputEvent::ScrollUp => !r.0 && r.1@.len() == 0 && !final(self).auto_scroll
                    && final(self).engine == old(self).engine && final(self).messages == old(self).messages && final(self).input == old(self).input && final(self).scroll_offset
                    as int == (if old(self).messages@.len() > SCROLL_MIN_VISIBLE && old(self).scroll_offset < old(self).messages@.len() - SCROLL_MIN_VISIBLE {
                    old(self).scroll_offset + 1
                } else {
                    old(self).scroll_offset as int
                }),
                InputEvent::ScrollDown => !r.0 && r.1@.len() == 0 && !final(self).auto_scroll
                    && final(self).engine == old(self).engine && final(self).messages == old(self).messages && final(self).input == old(self).input && final(self).scroll_offset
                    as int == (if old(self).scroll_offset > 0 {
                    old(self).scroll_offset - 1
                } else {
                    0
                }),
                InputEvent::Quit => r.0 && r.1@.len() == 0 && *final(self) == *old(self),
                InputEvent::Submit => if old(self).engine.phase == Phase::Ended {
                    r.0 && r.1@.len() == 0 && *final(self) == *old(self)
                } else if old(self).engine.phase == Phase::Emitting {
                    !r.0 && r.1@.len() == 0 && *final(self) == *old(self)
                } else if exists|i: int|
                    0 <= i < old(self).messages@.len() && (#[trigger] old(self).messages@[i]).is_bot && !old(self).messages@[i].complete {
                    !r.0 && r.1@.len() == 0 && *final(self) == *old(self)
                } else if old(self).input@.len() == 0 {
                    !r.0 && r.1@.len() == 0 && *final(self) == *old(self)
                } else if normal_form(old(self).input@).len() == 0 {
                    !r.0 && r.1@.len() == 0 && final(self).input@.len() == 0 && final(self).messages
                        == old(self).messages && final(self).engine == old(self).engine && final(self).scroll_offset == old(self).scroll_offset && final(self).auto_scroll == old(self).auto_scroll
                } else {
                    !r.0 && final(self).input@.len() == 0 && match spec_find_node(
                        old(self).engine.graph.nodes@,
                        old(self).engine.current@,
                    ) {
                        Some(node) => match spec_route_target(
                            node,
                            normal_form(old(self).input@),
                        ) {
                            Some(t) => final(self).engine.phase == Phase::Emitting && final(self).engine.current@ == t && final(self).messages@.len() == old(self).messages@.len() + 1 && final(self).messages@.drop_last() == old(self).messages@ && final(self).messages@.last().text == old(self).input
                                && !final(self).messages@.last().is_bot
                                && final(self).messages@.last().complete
                                && final(self).messages@.last().displayed_chars == final(self).messages@.last().text@.len()
                                && r.1@.len() == 1,
                            None => final(self).engine.phase == Phase::AwaitingInput && final(self).engine.current == old(self).engine.current && final(self).messages@.len() == old(self).messages@.len() + 2 && final(self).messages@[old(self).messages@.len() as int].text == old(self).input
                                && !final(self).messages@[old(self).messages@.len() as int].is_bot
                                && final(self).messages@[old(self).messages@.len() as int].complete
                                && final(self).messages@[old(self).messages@.len() as int].displayed_chars == final(self).messages@[old(self).messages@.len() as int].text@.len()
                                && final(self).messages@.last().is_bot
                                && !final(self).messages@.last().complete
                                && final(self).messages@.last().displayed_chars == 0
                                && final(self).messages@.last().text@ == spec_help_message(node)
                                && final(self).auto_scroll == old(self).auto_scroll
                                && r.1@.len() == 2,
                        },
                        None => false,
                    }
                },
            },
    {
        match ev {
            InputEvent::CharTyped(c) => {
                if self.engine.phase != Phase::Ended {
                    crate::text::push_char(&mut self.input, c);
                }
                (false, Vec::new())
            },
            InputEvent::Backspace => {
                if self.engine.phase != Phase::Ended {
                    crate::text::pop_char(&mut self.input);
                }
                (false, Vec::new())
            },
            InputEvent::ScrollUp => {
                self.scroll_up(SCROLL_MIN_VISIBLE);
                (false, Vec::new())
            },
            InputEvent::ScrollDown => {
                self.scroll_down();
                (false, Vec::new())
            },
            InputEvent::Quit => (true, Vec::new()),
            InputEvent::Submit => {
                if self.engine.phase == Phase::Ended {
                    return (true, Vec::new());
                }
                if self.engine.phase != Phase::AwaitingInput {
                    return (false, Vec::new());
                }
                if self.typing_in_progress() {
                    return (false, Vec::new());
                }
                if self.input.as_str().is_empty() {
                    return (false, Vec::new());
                }
                let raw = self.input.clone();
                self.input = String::new();
                let outcome = self.engine.submit(&raw);
                match outcome {
                    SubmitOutcome::Ignored => (false, Vec::new()),
                    SubmitOutcome::Routed => {
                        let log1 = self.push_user_message(raw);
                        let mut logs: Vec<String> = Vec::new();
                        logs.push(log1);
                        (false, logs)
                    },
                    SubmitOutcome::Help(h) => {
                        let log1 = self.push_user_message(raw);
                        let log2 = self.add_bot_message(h);
                        let mut logs: Vec<String> = Vec::new();
                        logs.push(log1);
                        logs.push(log2);
                        (false, logs)
                    },
                }
            },
        }
    }
}

} // verus!
