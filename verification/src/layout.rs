//! The layout engine: greedy word wrapping, per-message heights, gaps
//! between sender turns, scroll offsets, and the placement of message
//! boxes inside a fixed-size viewport.
use crate::message::ChatMessage;
use crate::text::{chars_of, is_space, is_space_char, string_from_chars};
use vstd::prelude::*;

verus! {

/// Extra lines scrolled past the tail while the last message still
/// grows, to avoid abrupt jumps near the viewport bottom.
pub const SCROLL_BUFFER_LINES: usize = 3;

/// Horizontal room reserved around message boxes inside the chat area.
pub const BOX_MARGIN: usize = 10;

// ---------------------------------------------------------------------
// Words of a text.
// ---------------------------------------------------------------------
/// The longest whitespace-free prefix.
pub open spec fn take_word(s: Seq<char>) -> Seq<char>
    decreases s.len(),
{
    if s.len() == 0 || is_space_char(s[0]) {
        Seq::empty()
    } else {
        seq![s[0]] + take_word(s.drop_first())
    }
}

/// The rest after the longest whitespace-free prefix.
pub open spec fn drop_word(s: Seq<char>) -> Seq<char>
    decreases s.len(),
{
    if s.len() == 0 || is_space_char(s[0]) {
        s
    } else {
        drop_word(s.drop_first())
    }
}

pub proof fn lemma_drop_word_len(s: Seq<char>)
    ensures
        drop_word(s).len() <= s.len(),
        s.len() > 0 && !is_space_char(s[0]) ==> drop_word(s).len() < s.len(),
    decreases s.len(),
{
    if s.len() > 0 && !is_space_char(s[0]) {
        lemma_drop_word_len(s.drop_first());
    }
}

/// The whitespace-delimited words of a text, in order.
pub open spec fn words_of(s: Seq<char>) -> Seq<Seq<char>>
    decreases s.len(),
    via words_of_decreases
{
    if s.len() == 0 {
        Seq::empty()
    } else if is_space_char(s[0]) {
        words_of(s.drop_first())
    } else {
        seq![take_word(s)] + words_of(drop_word(s))
    }
}

#[via_fn]
proof fn words_of_decreases(s: Seq<char>) {
    if s.len() > 0 && !is_space_char(s[0]) {
        lemma_drop_word_len(s);
    }
}

proof fn lemma_word_scan(s: Seq<char>, a: int, b: int)
    requires
        0 <= a <= b <= s.len(),
        forall|j: int| a <= j < b ==> !is_space_char(s[j]),
        b == s.len() || is_space_char(s[b]),
    ensures
        take_word(s.skip(a)) == s.subrange(a, b),
        drop_word(s.skip(a)) == s.skip(b),
    decreases b - a,
{
    let t = s.skip(a);
    if a == b {
        if t.len() == 0 {
            assert(take_word(t) =~= s.subrange(a, b));
            assert(drop_word(t) =~= s.skip(b));
        } else {
            assert(t[0] == s[a]);
            assert(is_space_char(s[b]));
            assert(take_word(t) =~= s.subrange(a, b));
            assert(drop_word(t) =~= s.skip(b));
        }
    } else {
        assert(t[0] == s[a]);
        assert(!is_space_char(t[0]));
        lemma_word_scan(s, a + 1, b);
        assert(t.drop_first() =~= s.skip(a + 1));
        assert(take_word(t) == seq![s[a]] + take_word(s.skip(a + 1)));
        assert(seq![s[a]] + s.subrange(a + 1, b) =~= s.subrange(a, b));
    }
}

/// The words of a text, as character vectors.
pub fn split_words(v: &Vec<char>) -> (r: Vec<Vec<char>>)
    ensures
        r@.map_values(|w: Vec<char>| w@) == words_of(v@),
{
    let n: usize = v.len();
    let mut r: Vec<Vec<char>> = Vec::new();
    let mut i: usize = 0;
    proof {
        assert(v@.skip(0) =~= v@);
        assert(r@.map_values(|w: Vec<char>| w@) =~= Seq::<Seq<char>>::empty());
        assert(r@.map_values(|w: Vec<char>| w@) + words_of(v@) =~= words_of(v@));
    }
    while i < n
        invariant
            i <= n,
            n == v@.len(),
            words_of(v@) == r@.map_values(|w: Vec<char>| w@) + words_of(v@.skip(i as int)),
        decreases n - i,
    {
        if is_space(v[i]) {
            proof {
                let t = v@.skip(i as int);
                assert(t[0] == v@[i as int]);
                assert(t.drop_first() =~= v@.skip(i + 1 as int));
            }
            i = i + 1;
        } else {
            let start = i;
            let mut w: Vec<char> = Vec::new();
            while i < n && !is_space(v[i])
                invariant
                    start <= i <= n,
                    n == v@.len(),
                    w@ == v@.subrange(start as int, i as int),
                    forall|j: int| start <= j < i ==> !is_space_char(v@[j]),
                decreases n - i,
            {
                w.push(v[i]);
                proof {
                    assert(w@ =~= v@.subrange(start as int, i + 1 as int));
                }
                i = i + 1;
            }
            proof {
                lemma_word_scan(v@, start as int, i as int);
                let t = v@.skip(start as int);
                assert(t[0] == v@[start as int]);
                assert(words_of(t) == seq![take_word(t)] + words_of(drop_word(t)));
            }
            let ghost prev = r@.map_values(|x: Vec<char>| x@);
            r.push(w);
            proof {
                assert(r@.map_values(|x: Vec<char>| x@) =~= prev + seq![w@]);
                assert(prev + seq![w@] + words_of(v@.skip(i as int)) =~= prev + (seq![w@]
                    + words_of(v@.skip(i as int))));
            }
        }
    }
    proof {
        assert(words_of(v@.skip(n as int)) =~= Seq::<Seq<char>>::empty());
        assert(r@.map_values(|w: Vec<char>| w@) + words_of(v@.skip(n as int)) =~= r@.map_values(
            |w: Vec<char>| w@,
        ));
    }
    r
}

// ---------------------------------------------------------------------
// Greedy wrapping.
// ---------------------------------------------------------------------
/// One greedy packing step: flush the current line when the next word
/// would not fit, then add the word to the line being built.
pub open spec fn wrap_step(
    lines: Seq<Seq<char>>,
    cur: Seq<char>,
    w: Seq<char>,
    max: int,
) -> (Seq<Seq<char>>, Seq<char>) {
    if cur.len() + w.len() + 1 > max && cur.len() > 0 {
        (lines.push(cur), w)
    } else if cur.len() > 0 {
        (lines, cur + seq![' '] + w)
    } else {
        (lines, w)
    }
}

/// Greedy packing of the remaining words, given lines already flushed
/// and the line being built; always yields at least one line.
pub open spec fn wrap_acc(
    lines: Seq<Seq<char>>,
    cur: Seq<char>,
    ws: Seq<Seq<char>>,
    max: int,
) -> Seq<Seq<char>>
    decreases ws.len(),
{
    if ws.len() == 0 {
        let flushed = if cur.len() > 0 {
            lines.push(cur)
        } else {
            lines
        };
        if flushed.len() == 0 {
            seq![Seq::<char>::empty()]
        } else {
            flushed
        }
    } else {
        let st = wrap_step(lines, cur, ws[0], max);
        wrap_acc(st.0, st.1, ws.drop_first(), max)
    }
}

/// The wrapped lines of a word sequence.
pub open spec fn wrap_lines(ws: Seq<Seq<char>>, max: int) -> Seq<Seq<char>> {
    wrap_acc(Seq::empty(), Seq::empty(), ws, max)
}

/// The wrapped lines of a text.
pub open spec fn wrapped_spec(text: Seq<char>, max: int) -> Seq<Seq<char>> {
    wrap_lines(words_of(text), max)
}

pub proof fn lemma_wrap_acc_len(lines: Seq<Seq<char>>, cur: Seq<char>, ws: Seq<Seq<char>>, max: int)
    ensures
        wrap_acc(lines, cur, ws, max).len() >= 1,
        wrap_acc(lines, cur, ws, max).len() >= lines.len(),
    decreases ws.len(),
{
    if ws.len() > 0 {
        let st = wrap_step(lines, cur, ws[0], max);
        lemma_wrap_acc_len(st.0, st.1, ws.drop_first(), max);
    }
}

/// Greedy wrapping of whitespace-separated words into lines of at most
/// `max_width` characters where that is possible; a word longer than the
/// width stands alone on its own line. At least one line always comes
/// back.
pub fn wrap_text(text: &str, max_width: usize) -> (r: Vec<String>)
    ensures
        r@.map_values(|l: String| l@) == wrapped_spec(text@, max_width as int),
        r@.len() >= 1,
{
    let cs = chars_of(text);
    let ws = split_words(&cs);
    let ghost wseq = words_of(text@);
    let mut lines: Vec<String> = Vec::new();
    let ghost mut glines = Seq::<Seq<char>>::empty();
    let mut cur: Vec<char> = Vec::new();
    let mut k: usize = 0;
    proof {
        assert(wseq.skip(0) =~= wseq);
        assert(lines@.map_values(|l: String| l@) =~= glines);
    }
    while k < ws.len()
        invariant
            k <= ws@.len(),
            ws@.map_values(|w: Vec<char>| w@) == wseq,
            lines@.map_values(|l: String| l@) == glines,
            wrap_acc(glines, cur@, wseq.skip(k as int), max_width as int) == wrap_lines(
                wseq,
                max_width as int,
            ),
        decreases ws@.len() - k,
    {
        let w = &ws[k];
        let ghost gw = wseq[k as int];
        let ghost oldlines = glines;
        let ghost oldcur = cur@;
        proof {
            assert(w@ == wseq[k as int]);
            assert(wseq.skip(k as int)[0] == wseq[k as int]);
            assert(wseq.skip(k as int).drop_first() =~= wseq.skip(k + 1 as int));
        }
        let fits_not: bool = (cur.len() as u128) + (w.len() as u128) + 1 > (max_width as u128);
        if fits_not && cur.len() > 0 {
            let flushed = string_from_chars(&cur);
            lines.push(flushed);
            proof {
                glines = glines.push(cur@);
                assert(lines@.map_values(|l: String| l@) =~= glines);
            }
            cur = Vec::new();
            let mut j: usize = 0;
            while j < w.len()
                invariant
                    j <= w@.len(),
                    cur@ == w@.subrange(0, j as int),
                decreases w@.len() - j,
            {
                cur.push(w[j]);
                proof {
                    assert(cur@ =~= w@.subrange(0, j + 1 as int));
                }
                j = j + 1;
            }
            proof {
                assert(cur@ =~= gw);
            }
        } else if cur.len() > 0 {
            cur.push(' ');
            let ghost spaced = cur@;
            let mut j: usize = 0;
            while j < w.len()
                invariant
                    j <= w@.len(),
                    cur@ == spaced + w@.subrange(0, j as int),
                decreases w@.len() - j,
            {
                cur.push(w[j]);
                proof {
                    assert(cur@ =~= spaced + w@.subrange(0, j + 1 as int));
                }
                j = j + 1;
            }
            proof {
                assert(spaced =~= oldcur + seq![' ']);
                assert(cur@ =~= oldcur + seq![' '] + gw);
            }
        } else {
            let mut j: usize = 0;
            while j < w.len()
                invariant
                    j <= w@.len(),
                    cur@ == w@.subrange(0, j as int),
                decreases w@.len() - j,
            {
                cur.push(w[j]);
                proof {
                    assert(cur@ =~= w@.subrange(0, j + 1 as int));
                }
                j = j + 1;
            }
            proof {
                assert(cur@ =~= gw);
            }
        }
        proof {
            assert(wrap_step(oldlines, oldcur, gw, max_width as int) == (glines, cur@));
            assert(wrap_acc(oldlines, oldcur, wseq.skip(k as int), max_width as int) == wrap_acc(
                glines,
                cur@,
                wseq.skip(k + 1 as int),
                max_width as int,
            ));
        }
        k = k + 1;
    }
    proof {
        assert(wseq.skip(k as int) =~= Seq::<Seq<char>>::empty());
    }
    if cur.len() > 0 {
        lines.push(string_from_chars(&cur));
        proof {
            assert(lines@.map_values(|l: String| l@) =~= glines.push(cur@));
        }
    }
    if lines.len() == 0 {
        lines.push(String::new());
        proof {
            assert(lines@.map_values(|l: String| l@) =~= seq![Seq::<char>::empty()]);
        }
    }
    lines
}

// ---------------------------------------------------------------------
// Wrapping never splits or loses a word.
// ---------------------------------------------------------------------
/// A well-formed word: non-empty and free of whitespace.
pub open spec fn word_wf(w: Seq<char>) -> bool {
    w.len() > 0 && forall|j: int| 0 <= j < w.len() ==> !is_space_char(w[j])
}

proof fn lemma_whole_word(w: Seq<char>)
    requires
        forall|j: int| 0 <= j < w.len() ==> !is_space_char(w[j]),
    ensures
        take_word(w) == w,
        drop_word(w) == Seq::<char>::empty(),
    decreases w.len(),
{
    if w.len() == 0 {
        assert(take_word(w) =~= w);
    } else {
        assert(!is_space_char(w[0]));
        lemma_whole_word(w.drop_first());
        assert(seq![w[0]] + w.drop_first() =~= w);
    }
}

proof fn lemma_single_word(w: Seq<char>)
    requires
        word_wf(w),
    ensures
        words_of(w) == seq![w],
{
    lemma_whole_word(w);
    assert(words_of(Seq::<char>::empty()) =~= Seq::<Seq<char>>::empty());
    assert(seq![w] + Seq::<Seq<char>>::empty() =~= seq![w]);
}

proof fn lemma_word_boundary(a: Seq<char>, b: Seq<char>)
    ensures
        take_word(a + seq![' '] + b) == take_word(a),
        drop_word(a + seq![' '] + b) == drop_word(a) + seq![' '] + b,
    decreases a.len(),
{
    let s = a + seq![' '] + b;
    if a.len() == 0 {
        assert(s[0] == ' ');
        assert(take_word(s) =~= take_word(a));
        assert(drop_word(s) == s);
        assert(drop_word(a) =~= a);
    } else if is_space_char(a[0]) {
        assert(s[0] == a[0]);
        assert(take_word(s) =~= Seq::<char>::empty());
        assert(take_word(a) =~= Seq::<char>::empty());
    } else {
        assert(s[0] == a[0]);
        lemma_word_boundary(a.drop_first(), b);
        assert(s.drop_first() =~= a.drop_first() + seq![' '] + b);
        assert(take_word(s) == seq![s[0]] + take_word(s.drop_first()));
        assert(take_word(a) == seq![a[0]] + take_word(a.drop_first()));
    }
}

/// Words split at a space: the words on either side of a space are
/// together the words of the whole.
pub proof fn lemma_words_split(a: Seq<char>, b: Seq<char>)
    ensures
        words_of(a + seq![' '] + b) == words_of(a) + words_of(b),
    decreases a.len(),
{
    let s = a + seq![' '] + b;
    if a.len() == 0 {
        assert(s[0] == ' ');
        assert(s.drop_first() =~= b);
        assert(words_of(a) =~= Seq::<Seq<char>>::empty());
        assert(words_of(a) + words_of(b) =~= words_of(b));
    } else if is_space_char(a[0]) {
        assert(s[0] == a[0]);
        assert(s.drop_first() =~= a.drop_first() + seq![' '] + b);
        lemma_words_split(a.drop_first(), b);
    } else {
        assert(s[0] == a[0]);
        lemma_word_boundary(a, b);
        lemma_drop_word_len(a);
        lemma_words_split(drop_word(a), b);
        assert(words_of(s) == seq![take_word(s)] + words_of(drop_word(s)));
        assert(words_of(s) == seq![take_word(a)] + (words_of(drop_word(a)) + words_of(b)));
        assert(words_of(a) == seq![take_word(a)] + words_of(drop_word(a)));
        assert(seq![take_word(a)] + (words_of(drop_word(a)) + words_of(b)) =~= (seq![take_word(a)]
            + words_of(drop_word(a))) + words_of(b));
    }
}

proof fn lemma_take_word_wf(s: Seq<char>)
    requires
        s.len() > 0,
        !is_space_char(s[0]),
    ensures
        word_wf(take_word(s)),
    decreases s.len(),
{
    let t = s.drop_first();
    if t.len() > 0 && !is_space_char(t[0]) {
        lemma_take_word_wf(t);
    } else {
        assert(take_word(t) =~= Seq::<char>::empty());
    }
    assert forall|j: int| 0 <= j < take_word(s).len() implies !is_space_char(
        take_word(s)[j],
    ) by {
        if j > 0 {
            assert(take_word(s)[j] == take_word(t)[j - 1]);
        }
    }
}

/// Every word of a text is non-empty and free of whitespace.
pub proof fn lemma_words_wf(s: Seq<char>)
    ensures
        forall|i: int| 0 <= i < words_of(s).len() ==> word_wf(#[trigger] words_of(s)[i]),
    decreases s.len(),
{
    if s.len() == 0 {
    } else if is_space_char(s[0]) {
        lemma_words_wf(s.drop_first());
        assert(words_of(s) == words_of(s.drop_first()));
    } else {
        lemma_take_word_wf(s);
        lemma_drop_word_len(s);
        lemma_words_wf(drop_word(s));
        assert forall|i: int| 0 <= i < words_of(s).len() implies word_wf(
            #[trigger] words_of(s)[i],
        ) by {
            assert(words_of(s) == seq![take_word(s)] + words_of(drop_word(s)));
            if i == 0 {
                assert(words_of(s)[0] == take_word(s));
            } else {
                assert(words_of(s)[i] == words_of(drop_word(s))[i - 1]);
            }
        }
    }
}

/// The words of a sequence of lines, in order.
pub open spec fn words_of_lines(ls: Seq<Seq<char>>) -> Seq<Seq<char>>
    decreases ls.len(),
{
    if ls.len() == 0 {
        Seq::empty()
    } else {
        words_of_lines(ls.drop_last()) + words_of(ls.last())
    }
}

proof fn lemma_words_of_lines_push(ls: Seq<Seq<char>>, l: Seq<char>)
    ensures
        words_of_lines(ls.push(l)) == words_of_lines(ls) + words_of(l),
{
    assert(ls.push(l).drop_last() =~= ls);
    assert(ls.push(l).last() == l);
}

proof fn lemma_wrap_acc_words(lines: Seq<Seq<char>>, cur: Seq<char>, ws: Seq<Seq<char>>, max: int)
    requires
        forall|i: int| 0 <= i < ws.len() ==> word_wf(#[trigger] ws[i]),
    ensures
        words_of_lines(wrap_acc(lines, cur, ws, max)) == words_of_lines(lines) + words_of(cur)
            + ws,
    decreases ws.len(),
{
    if ws.len() == 0 {
        if cur.len() > 0 {
            lemma_words_of_lines_push(lines, cur);
            assert(lines.push(cur).len() > 0);
            assert(words_of_lines(lines) + words_of(cur) + ws =~= words_of_lines(lines)
                + words_of(cur));
        } else {
            assert(words_of(cur) =~= Seq::<Seq<char>>::empty());
            if lines.len() == 0 {
                assert(wrap_acc(lines, cur, ws, max) =~= seq![Seq::<char>::empty()]);
                assert(seq![Seq::<char>::empty()].drop_last() =~= Seq::<Seq<char>>::empty());
                assert(words_of_lines(seq![Seq::<char>::empty()]) == words_of_lines(
                    Seq::<Seq<char>>::empty(),
                ) + words_of(Seq::<char>::empty()));
                assert(words_of_lines(seq![Seq::<char>::empty()]) =~= Seq::<Seq<char>>::empty());
                assert(words_of_lines(lines) + words_of(cur) + ws =~= Seq::<Seq<char>>::empty());
            } else {
                assert(words_of_lines(lines) + words_of(cur) + ws =~= words_of_lines(lines));
            }
        }
    } else {
        let w = ws[0];
        assert(word_wf(w));
        lemma_single_word(w);
        let st = wrap_step(lines, cur, w, max);
        assert forall|i: int| 0 <= i < ws.drop_first().len() implies word_wf(
            #[trigger] ws.drop_first()[i],
        ) by {
            assert(ws.drop_first()[i] == ws[i + 1]);
        }
        lemma_wrap_acc_words(st.0, st.1, ws.drop_first(), max);
        if cur.len() + w.len() + 1 > max && cur.len() > 0 {
            lemma_words_of_lines_push(lines, cur);
        } else if cur.len() > 0 {
            lemma_words_split(cur, w);
        } else {
            assert(words_of(cur) =~= Seq::<Seq<char>>::empty());
        }
        assert(words_of_lines(lines) + words_of(cur) + seq![w] + ws.drop_first()
            =~= words_of_lines(lines) + words_of(cur) + ws);
        assert(words_of_lines(st.0) + words_of(st.1) =~= words_of_lines(lines) + words_of(cur)
            + seq![w]);
        assert(words_of_lines(st.0) + words_of(st.1) + ws.drop_first() =~= words_of_lines(lines)
            + words_of(cur) + seq![w] + ws.drop_first());
    }
}

/// Wrapping never splits or loses a word: the words of the wrapped
/// lines, read in order, are exactly the words of the original text.
pub proof fn lemma_wrap_preserves_words(text: Seq<char>, max: int)
    ensures
        words_of_lines(wrapped_spec(text, max)) == words_of(text),
{
    lemma_words_wf(text);
    lemma_wrap_acc_words(Seq::empty(), Seq::empty(), words_of(text), max);
    assert(words_of_lines(Seq::<Seq<char>>::empty()) =~= Seq::<Seq<char>>::empty());
    assert(words_of(Seq::<char>::empty()) =~= Seq::<Seq<char>>::empty());
    assert(words_of_lines(Seq::<Seq<char>>::empty()) + words_of(Seq::<char>::empty()) + words_of(
        text,
    ) =~= words_of(text));
}

/// A line fits the width, or stands alone as one word longer than the
/// width.
pub open spec fn line_fits(l: Seq<char>, max: int) -> bool {
    l.len() <= max || words_of(l).len() == 1
}

proof fn lemma_wrap_acc_fits(lines: Seq<Seq<char>>, cur: Seq<char>, ws: Seq<Seq<char>>, max: int)
    requires
        max >= 0,
        forall|i: int| 0 <= i < ws.len() ==> word_wf(#[trigger] ws[i]),
        forall|i: int| 0 <= i < lines.len() ==> line_fits(#[trigger] lines[i], max),
        line_fits(cur, max),
    ensures
        forall|i: int|
            0 <= i < wrap_acc(lines, cur, ws, max).len() ==> line_fits(
                #[trigger] wrap_acc(lines, cur, ws, max)[i],
                max,
            ),
    decreases ws.len(),
{
    if ws.len() == 0 {
        let flushed = if cur.len() > 0 {
            lines.push(cur)
        } else {
            lines
        };
        let res = wrap_acc(lines, cur, ws, max);
        if flushed.len() == 0 {
            assert(res == seq![Seq::<char>::empty()]);
            assert(res[0].len() == 0);
            assert forall|i: int| 0 <= i < res.len() implies line_fits(#[trigger] res[i], max) by {
                assert(i == 0);
            }
        } else {
            assert(res == flushed);
            assert forall|i: int| 0 <= i < res.len() implies line_fits(#[trigger] res[i], max) by {
                if cur.len() > 0 && i == lines.len() {
                    assert(flushed[i] == cur);
                } else {
                    assert(flushed[i] == lines[i]);
                }
            }
        }
    } else {
        let w = ws[0];
        assert(word_wf(w));
        lemma_single_word(w);
        let st = wrap_step(lines, cur, w, max);
        assert(line_fits(st.1, max));
        assert forall|i: int| 0 <= i < st.0.len() implies line_fits(#[trigger] st.0[i], max) by {
            if cur.len() + w.len() + 1 > max && cur.len() > 0 && i == lines.len() {
                assert(st.0[i] == cur);
            }
        }
        assert forall|i: int| 0 <= i < ws.drop_first().len() implies word_wf(
            #[trigger] ws.drop_first()[i],
        ) by {
            assert(ws.drop_first()[i] == ws[i + 1]);
        }
        lemma_wrap_acc_fits(st.0, st.1, ws.drop_first(), max);
        assert(wrap_acc(lines, cur, ws, max) == wrap_acc(st.0, st.1, ws.drop_first(), max));
    }
}

/// Every wrapped line fits the width, except a single word longer than
/// the width, which stands alone on its own line.
pub proof fn lemma_wrap_fits_width(text: Seq<char>, max: int)
    requires
        max >= 0,
    ensures
        forall|i: int|
            0 <= i < wrapped_spec(text, max).len() ==> line_fits(
                #[trigger] wrapped_spec(text, max)[i],
                max,
            ),
{
    lemma_words_wf(text);
    lemma_wrap_acc_fits(Seq::empty(), Seq::empty(), words_of(text), max);
}

/// The lines joined back into one text with single spaces between them.
pub open spec fn join_lines(ls: Seq<Seq<char>>) -> Seq<char>
    decreases ls.len(),
{
    if ls.len() == 0 {
        Seq::empty()
    } else if ls.len() == 1 {
        ls[0]
    } else {
        join_lines(ls.drop_last()) + seq![' '] + ls.last()
    }
}

proof fn lemma_words_of_join(ls: Seq<Seq<char>>)
    ensures
        words_of(join_lines(ls)) == words_of_lines(ls),
    decreases ls.len(),
{
    if ls.len() == 0 {
    } else if ls.len() == 1 {
        assert(words_of_lines(ls) == words_of_lines(ls.drop_last()) + words_of(ls.last()));
        assert(words_of_lines(ls.drop_last()) =~= Seq::<Seq<char>>::empty());
        assert(words_of_lines(ls) =~= words_of(ls[0]));
    } else {
        lemma_words_of_join(ls.drop_last());
        lemma_words_split(join_lines(ls.drop_last()), ls.last());
    }
}

/// Concatenating the wrapped lines with spaces reproduces the original
/// whitespace-delimited word sequence.
pub proof fn lemma_wrap_round_trip(text: Seq<char>, max: int)
    ensures
        words_of(join_lines(wrapped_spec(text, max))) == words_of(text),
{
    lemma_words_of_join(wrapped_spec(text, max));
    lemma_wrap_preserves_words(text, max);
}

// ---------------------------------------------------------------------
// Heights, gaps and scrolling.
// ---------------------------------------------------------------------
/// The text of a message as currently revealed.
pub open spec fn displayed_text_of(m: ChatMessage) -> Seq<char> {
    m.text@.take(m.displayed_chars as int)
}

/// The wrapped height of one message at the given width.
pub open spec fn msg_height(m: ChatMessage, max: int) -> int {
    wrapped_spec(displayed_text_of(m), max).len() as int
}

/// One blank line between two consecutive turns of different senders.
pub open spec fn sender_gap(a: ChatMessage, b: ChatMessage) -> int {
    if a.is_bot != b.is_bot {
        1
    } else {
        0
    }
}

/// Total content height: all message heights plus all sender gaps.
pub open spec fn total_height(ms: Seq<ChatMessage>, max: int) -> int
    decreases ms.len(),
{
    if ms.len() == 0 {
        0
    } else {
        total_height(ms.drop_last(), max) + (if ms.len() >= 2 {
            sender_gap(ms[ms.len() - 2], ms.last())
        } else {
            0
        }) + msg_height(ms.last(), max)
    }
}

/// The content row where message `i` starts (after its own gap).
pub open spec fn start_row(ms: Seq<ChatMessage>, i: int, max: int) -> int {
    total_height(ms.take(i), max) + (if i > 0 {
        sender_gap(ms[i - 1], ms[i])
    } else {
        0
    })
}

/// Total height capped at the machine word, as the executable
/// computation saturates.
pub open spec fn total_height_sat(ms: Seq<ChatMessage>, max: int) -> int {
    if total_height(ms, max) <= usize::MAX {
        total_height(ms, max)
    } else {
        usize::MAX as int
    }
}

pub proof fn lemma_height_pos(m: ChatMessage, max: int)
    ensures
        msg_height(m, max) >= 1,
{
    lemma_wrap_acc_len(Seq::empty(), Seq::empty(), words_of(displayed_text_of(m)), max);
}

/// Unfolds the total height one message at a time, from the front.
pub proof fn lemma_total_height_step(ms: Seq<ChatMessage>, i: int, max: int)
    requires
        0 <= i < ms.len(),
    ensures
        total_height(ms.take(i + 1), max) == start_row(ms, i, max) + msg_height(ms[i], max),
{
    let t = ms.take(i + 1);
    assert(t.drop_last() =~= ms.take(i));
    assert(t.last() == ms[i]);
    if i > 0 {
        assert(t[i - 1] == ms[i - 1]);
    }
}

pub proof fn lemma_total_height_mono(ms: Seq<ChatMessage>, a: int, b: int, max: int)
    requires
        0 <= a <= b <= ms.len(),
    ensures
        total_height(ms.take(a), max) <= total_height(ms.take(b), max),
    decreases b - a,
{
    if a < b {
        lemma_total_height_mono(ms, a, b - 1, max);
        lemma_total_height_step(ms, b - 1, max);
        lemma_height_pos(ms[b - 1], max);
        assert(start_row(ms, b - 1, max) >= total_height(ms.take(b - 1), max));
    }
}

/// The whole content ends exactly where the last message ends.
pub proof fn lemma_total_is_last_end(ms: Seq<ChatMessage>, max: int)
    requires
        ms.len() > 0,
    ensures
        total_height(ms, max) == start_row(ms, ms.len() - 1, max) + msg_height(
            ms[ms.len() - 1],
            max,
        ),
{
    lemma_total_height_step(ms, ms.len() - 1, max);
    assert(ms.take(ms.len() as int) =~= ms);
}

/// The auto-scroll offset: the excess of the content over the viewport,
/// plus a small buffer near the bottom so the growing tail does not jump.
pub open spec fn spec_auto_offset(total: int, viewport: int) -> int {
    if total > viewport {
        let base = total - viewport;
        if viewport > SCROLL_BUFFER_LINES {
            base + (if base < SCROLL_BUFFER_LINES {
                base
            } else {
                SCROLL_BUFFER_LINES as int
            })
        } else {
            base
        }
    } else {
        0
    }
}

/// The auto-scroll offset for a given content and viewport height.
pub fn auto_offset(total: usize, viewport: usize) -> (r: usize)
    ensures
        r as int == spec_auto_offset(total as int, viewport as int),
{
    if total > viewport {
        let base = total - viewport;
        if viewport > SCROLL_BUFFER_LINES {
            if base < SCROLL_BUFFER_LINES {
                base + base
            } else {
                base + SCROLL_BUFFER_LINES
            }
        } else {
            base
        }
    } else {
        0
    }
}

/// With auto-scroll, the newest content line stays inside the viewport.
pub proof fn lemma_auto_offset_shows_tail(total: int, viewport: int)
    requires
        viewport >= 1,
        total > viewport,
    ensures
        spec_auto_offset(total, viewport) >= total - viewport,
        spec_auto_offset(total, viewport) <= total - 1,
{
}

/// A message is visible when its rows all lie inside the scrolled
/// viewport window.
pub open spec fn msg_visible(
    ms: Seq<ChatMessage>,
    i: int,
    max: int,
    viewport: int,
    offset: int,
) -> bool {
    &&& start_row(ms, i, max) >= offset
    &&& start_row(ms, i, max) + msg_height(ms[i], max) <= offset + viewport
}

/// Appending while auto-scroll is on always leaves the newest message
/// fully visible, provided it fits under the viewport with the scroll
/// buffer to spare.
pub proof fn lemma_auto_scroll_shows_newest(ms: Seq<ChatMessage>, max: int, viewport: int)
    requires
        ms.len() > 0,
        total_height(ms, max) > viewport,
        msg_height(ms[ms.len() - 1], max) + SCROLL_BUFFER_LINES <= viewport,
    ensures
        msg_visible(
            ms,
            ms.len() - 1,
            max,
            viewport,
            spec_auto_offset(total_height(ms, max), viewport),
        ),
{
    let total = total_height(ms, max);
    let h = msg_height(ms[ms.len() - 1], max);
    let off = spec_auto_offset(total, viewport);
    lemma_total_is_last_end(ms, max);
    lemma_height_pos(ms[ms.len() - 1], max);
    lemma_auto_offset_shows_tail(total, viewport);
    assert(start_row(ms, ms.len() - 1, max) == total - h);
    assert(off <= total - viewport + SCROLL_BUFFER_LINES);
    assert(total - viewport + SCROLL_BUFFER_LINES <= total - h);
}

/// The same guarantee through the saturating total that the executable
/// scroll update computes, whenever the true total fits the machine
/// word.
pub proof fn lemma_auto_scroll_sat_shows_newest(ms: Seq<ChatMessage>, max: int, viewport: int)
    requires
        ms.len() > 0,
        total_height(ms, max) <= usize::MAX,
        total_height(ms, max) > viewport,
        msg_height(ms[ms.len() - 1], max) + SCROLL_BUFFER_LINES <= viewport,
    ensures
        msg_visible(
            ms,
            ms.len() - 1,
            max,
            viewport,
            spec_auto_offset(total_height_sat(ms, max), viewport),
        ),
{
    lemma_auto_scroll_shows_newest(ms, max, viewport);
}

// ---------------------------------------------------------------------
// Placement of message boxes in the viewport.
// ---------------------------------------------------------------------
/// The drawn width of a message box: the revealed text plus padding,
/// capped at the wrapping width.
pub open spec fn spec_box_width(dlen: int, maxw: int) -> int {
    if dlen + 4 < maxw {
        dlen + 4
    } else {
        maxw
    }
}

/// Bot boxes sit near the left edge; user boxes are right-aligned.
pub open spec fn spec_box_x(is_bot: bool, width: int, area_w: int) -> int {
    if is_bot {
        2
    } else if width + 2 <= area_w {
        area_w - width - 2
    } else {
        0
    }
}

/// The wrapping width inside a chat area: the area width less the
/// margin reserved around the boxes.
pub open spec fn wrap_width(area_w: int) -> int {
    if area_w >= BOX_MARGIN {
        area_w - BOX_MARGIN
    } else {
        0
    }
}

/// One positioned text block, ready to draw: a message's wrapped lines
/// with their place inside the viewport.
pub struct MsgBlock {
    pub x: usize,
    pub y: usize,
    pub width: usize,
    pub lines: Vec<String>,
    pub is_bot: bool,
}

/// Lays every message out in the scrolled viewport: entry `i` is the
/// block for message `i`, or nothing when the message does not lie fully
/// inside the window (it is silently clipped, never an error).
pub fn layout_messages(
    msgs: &Vec<ChatMessage>,
    area_width: usize,
    viewport: usize,
    offset: usize,
) -> (r: Vec<Option<MsgBlock>>)
    requires
        forall|i: int| 0 <= i < msgs@.len() ==> (#[trigger] msgs@[i]).wf(),
    ensures
        r@.len() == msgs@.len(),
        forall|i: int|
            0 <= i < msgs@.len() ==> ((#[trigger] r@[i]) is Some <==> msg_visible(
                msgs@,
                i,
                wrap_width(area_width as int),
                viewport as int,
                offset as int,
            )),
        forall|i: int|
            0 <= i < msgs@.len() ==> match #[trigger] r@[i] {
                Some(b) => {
                    let maxw = wrap_width(area_width as int);
                    &&& b.y == start_row(msgs@, i, maxw) - offset
                    &&& b.is_bot == msgs@[i].is_bot
                    &&& b.lines@.map_values(|l: String| l@) == wrapped_spec(
                        displayed_text_of(msgs@[i]),
                        maxw,
                    )
                    &&& b.width == spec_box_width(
                        msgs@[i].displayed_chars as int,
                        maxw,
                    )
                    &&& b.x == spec_box_x(msgs@[i].is_bot, b.width as int, area_width as int)
                },
                None => true,
            },
{
    let max_text_width: usize = if area_width >= BOX_MARGIN {
        area_width - BOX_MARGIN
    } else {
        0
    };
    let ghost maxw = wrap_width(area_width as int);
    let limit: u128 = (offset as u128) + (viewport as u128);
    let n = msgs.len();
    let mut r: Vec<Option<MsgBlock>> = Vec::new();
    let mut row: u128 = 0;
    let mut i: usize = 0;
    let mut past_window = false;
    while i < n
        invariant
            i <= n,
            n == msgs@.len(),
            r@.len() == i,
            forall|j: int| 0 <= j < msgs@.len() ==> (#[trigger] msgs@[j]).wf(),
            limit == offset as int + viewport as int,
            max_text_width as int == maxw,
            maxw == wrap_width(area_width as int),
            !past_window ==> row as int == total_height(msgs@.take(i as int), maxw),
            !past_window ==> row < limit || i == 0,
            past_window ==> row >= limit && row as int <= total_height(
                msgs@.take(i as int),
                maxw,
            ),
            forall|j: int|
                0 <= j < i ==> ((#[trigger] r@[j]) is Some <==> msg_visible(
                    msgs@,
                    j,
                    maxw,
                    viewport as int,
                    offset as int,
                )),
            forall|j: int|
                0 <= j < i ==> match #[trigger] r@[j] {
                    Some(b) => {
                        &&& b.y == start_row(msgs@, j, maxw) - offset
                        &&& b.is_bot == msgs@[j].is_bot
                        &&& b.lines@.map_values(|l: String| l@) == wrapped_spec(
                            displayed_text_of(msgs@[j]),
                            maxw,
                        )
                        &&& b.width == spec_box_width(msgs@[j].displayed_chars as int, maxw)
                        &&& b.x == spec_box_x(msgs@[j].is_bot, b.width as int, area_width as int)
                    },
                    None => true,
                },
        decreases n - i,
    {
        if past_window {
            proof {
                lemma_total_height_mono(msgs@, i as int, i + 1 as int, maxw);
                lemma_total_height_step(msgs@, i as int, maxw);
                lemma_height_pos(msgs@[i as int], maxw);
                assert(start_row(msgs@, i as int, maxw) >= total_height(
                    msgs@.take(i as int),
                    maxw,
                ));
                assert(!msg_visible(msgs@, i as int, maxw, viewport as int, offset as int));
            }
            r.push(None);
        } else {
            let g: u128 = if i > 0 {
                if msgs[i - 1].is_bot != msgs[i].is_bot {
                    1
                } else {
                    0
                }
            } else {
                0
            };
            let dtext = msgs[i].get_displayed_text();
            let wl = wrap_text(dtext.as_str(), max_text_width);
            let h: u128 = wl.len() as u128;
            let start: u128 = row + g;
            proof {
                assert(wl@.map_values(|l: String| l@).len() == wl@.len());
                assert(dtext@ == displayed_text_of(msgs@[i as int]));
                assert(h as int == msg_height(msgs@[i as int], maxw));
                assert(start as int == start_row(msgs@, i as int, maxw));
                lemma_total_height_step(msgs@, i as int, maxw);
            }
            if start >= (offset as u128) && start + h <= limit {
                proof {
                    assert(start as int - offset as int <= viewport as int);
                }
                let y: usize = (start - offset as u128) as usize;
                proof {
                    assert(y as int == start as int - offset as int);
                }
                let dlen: usize = msgs[i].displayed_chars;
                let width: usize = if dlen < max_text_width && max_text_width - dlen > 4 {
                    dlen + 4
                } else {
                    max_text_width
                };
                let x: usize = if msgs[i].is_bot {
                    2
                } else if width <= area_width && area_width - width >= 2 {
                    area_width - width - 2
                } else {
                    0
                };
                r.push(
                    Some(MsgBlock { x, y, width, lines: wl, is_bot: msgs[i].is_bot }),
                );
            } else {
                r.push(None);
            }
            row = start + h;
            proof {
                assert(row as int == start_row(msgs@, i as int, maxw) + msg_height(
                    msgs@[i as int],
                    maxw,
                ));
                assert(row as int == total_height(msgs@.take(i + 1 as int), maxw));
            }
            if row >= limit {
                past_window = true;
            }
        }
        i = i + 1;
    }
    r
}

/// Addition capped at the machine word.
fn sat_add(a: usize, b: usize) -> (r: usize)
    ensures
        r as int == if a + b <= usize::MAX {
            a + b
        } else {
            usize::MAX as int
        },
{
    if a <= usize::MAX - b {
        a + b
    } else {
        usize::MAX
    }
}

/// The wrapped height of one message at the given width.
pub fn message_height(m: &ChatMessage, max_width: usize) -> (r: usize)
    requires
        m.wf(),
    ensures
        r as int == msg_height(*m, max_width as int),
{
    let d = m.get_displayed_text();
    let wl = wrap_text(d.as_str(), max_width);
    proof {
        assert(wl@.map_values(|l: String| l@).len() == wl@.len());
    }
    wl.len()
}

/// The total content height of the transcript, capped at the machine
/// word: all message heights plus all sender-switch gaps.
pub fn total_content_height(msgs: &Vec<ChatMessage>, max_width: usize) -> (r: usize)
    requires
        forall|i: int| 0 <= i < msgs@.len() ==> (#[trigger] msgs@[i]).wf(),
    ensures
        r as int == total_height_sat(msgs@, max_width as int),
{
    let n = msgs.len();
    let mut acc: usize = 0;
    let mut i: usize = 0;
    proof {
        assert(msgs@.take(0) =~= Seq::<ChatMessage>::empty());
    }
    while i < n
        invariant
            i <= n,
            n == msgs@.len(),
            forall|j: int| 0 <= j < msgs@.len() ==> (#[trigger] msgs@[j]).wf(),
            acc as int == if total_height(msgs@.take(i as int), max_width as int) <= usize::MAX {
                total_height(msgs@.take(i as int), max_width as int)
            } else {
                usize::MAX as int
            },
        decreases n - i,
    {
        let g: usize = if i > 0 {
            if msgs[i - 1].is_bot != msgs[i].is_bot {
                1
            } else {
                0
            }
        } else {
            0
        };
        let h = message_height(&msgs[i], max_width);
        proof {
            lemma_total_height_step(msgs@, i as int, max_width as int);
            lemma_height_pos(msgs@[i as int], max_width as int);
        }
        acc = sat_add(sat_add(acc, g), h);
        i = i + 1;
    }
    proof {
        assert(msgs@.take(n as int) =~= msgs@);
    }
    acc
}

} // verus!
