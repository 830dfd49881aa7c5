//! Character-level text utilities: case folding, whitespace trimming and
//! prefix tests used by the dialogue engine's input normalization.
//!
//! Folding and trimming are deliberately ASCII: only the letters A to Z
//! are lowered and only space, tab and the two line breaks count as
//! whitespace; every other character passes through unchanged.
use vstd::prelude::*;
use vstd::string::StrSliceExecFns;

verus! {

/// The characters treated as whitespace by trimming and word splitting.
pub open spec fn is_space_char(c: char) -> bool {
    c == ' ' || c == '\t' || c == '\n' || c == '\r'
}

/// ASCII lower-casing of one character; other characters are unchanged.
pub open spec fn lower_char(c: char) -> char {
    if 'A' <= c && c <= 'Z' {
        ((c as u8) + 32) as char
    } else {
        c
    }
}

/// ASCII lower-casing of a character sequence.
pub open spec fn lower_seq(s: Seq<char>) -> Seq<char> {
    s.map_values(|c: char| lower_char(c))
}

/// The sequence without its leading whitespace.
pub open spec fn trim_front(s: Seq<char>) -> Seq<char>
    decreases s.len(),
{
    if s.len() > 0 && is_space_char(s[0]) {
        trim_front(s.drop_first())
    } else {
        s
    }
}

/// The sequence without its trailing whitespace.
pub open spec fn trim_back(s: Seq<char>) -> Seq<char>
    decreases s.len(),
{
    if s.len() > 0 && is_space_char(s[s.len() - 1]) {
        trim_back(s.drop_last())
    } else {
        s
    }
}

/// The sequence without leading or trailing whitespace.
pub open spec fn trim_seq(s: Seq<char>) -> Seq<char> {
    trim_back(trim_front(s))
}

/// The normal form a submitted line is routed by: trimmed, lower-cased.
pub open spec fn normal_form(s: Seq<char>) -> Seq<char> {
    lower_seq(trim_seq(s))
}

/// Relies on String::push: appends exactly one character.
#[verifier::external_body]
pub(crate) fn push_char(s: &mut String, c: char)
    ensures
        final(s)@ == old(s)@.push(c),
{
    s.push(c)
}

/// Relies on String::pop: removes the last character, if any.
#[verifier::external_body]
pub(crate) fn pop_char(s: &mut String)
    ensures
        old(s)@.len() == 0 ==> final(s)@ == old(s)@,
        old(s)@.len() > 0 ==> final(s)@ == old(s)@.drop_last(),
{
    s.pop();
}

/// The characters of a string slice, in order.
pub fn chars_of(s: &str) -> (r: Vec<char>)
    ensures
        r@ == s@,
{
    let n: usize = s.unicode_len();
    let mut r: Vec<char> = Vec::new();
    let mut i: usize = 0;
    while i < n
        invariant
            n == s@.len(),
            i <= n,
            r@ == s@.take(i as int),
        decreases n - i,
    {
        let c = s.get_char(i);
        r.push(c);
        proof {
            assert(r@ =~= s@.take(i + 1 as int));
        }
        i = i + 1;
    }
    proof {
        assert(r@ =~= s@);
    }
    r
}

/// A String holding exactly the given characters.
pub fn string_from_chars(v: &Vec<char>) -> (r: String)
    ensures
        r@ == v@,
{
    let mut r = String::new();
    let mut i: usize = 0;
    while i < v.len()
        invariant
            i <= v@.len(),
            r@ == v@.take(i as int),
        decreases v@.len() - i,
    {
        push_char(&mut r, v[i]);
        proof {
            assert(r@ =~= v@.take(i + 1 as int));
        }
        i = i + 1;
    }
    proof {
        assert(r@ =~= v@);
    }
    r
}

/// Whether the trimming/splitting rules treat `c` as whitespace.
pub fn is_space(c: char) -> (r: bool)
    ensures
        r == is_space_char(c),
{
    c == ' ' || c == '\t' || c == '\n' || c == '\r'
}

/// ASCII lower-casing of one character.
pub fn to_lower(c: char) -> (r: char)
    ensures
        r == lower_char(c),
{
    if 'A' <= c && c <= 'Z' {
        ((c as u8) + 32) as char
    } else {
        c
    }
}

/// Lower-cased copy of a character vector.
pub fn lower_chars(v: &Vec<char>) -> (r: Vec<char>)
    ensures
        r@ == lower_seq(v@),
{
    let mut r: Vec<char> = Vec::new();
    let mut i: usize = 0;
    while i < v.len()
        invariant
            i <= v@.len(),
            r@ == lower_seq(v@.take(i as int)),
        decreases v@.len() - i,
    {
        r.push(to_lower(v[i]));
        proof {
            assert(r@ =~= lower_seq(v@.take(i + 1 as int)));
        }
        i = i + 1;
    }
    proof {
        assert(r@ =~= lower_seq(v@));
    }
    r
}

proof fn lemma_trim_front_skip(s: Seq<char>, k: int)
    requires
        0 <= k <= s.len(),
        forall|j: int| 0 <= j < k ==> is_space_char(s[j]),
    ensures
        trim_front(s) == trim_front(s.skip(k)),
    decreases k,
{
    if k == 0 {
        assert(s.skip(0) =~= s);
    } else {
        assert(is_space_char(s[0]));
        lemma_trim_front_skip(s.drop_first(), k - 1);
        assert(s.drop_first().skip(k - 1) =~= s.skip(k));
    }
}

proof fn lemma_trim_back_take(s: Seq<char>, k: int)
    requires
        0 <= k <= s.len(),
        forall|j: int| k <= j < s.len() ==> is_space_char(s[j]),
    ensures
        trim_back(s) == trim_back(s.take(k)),
    decreases s.len() - k,
{
    if k == s.len() {
        assert(s.take(k) =~= s);
    } else {
        assert(is_space_char(s[s.len() - 1]));
        assert(s.drop_last() =~= s.take(s.len() - 1));
        lemma_trim_back_take(s.take(s.len() - 1), k);
        assert(s.take(s.len() - 1).take(k) =~= s.take(k));
    }
}

/// The vector without leading or trailing whitespace.
pub fn trim_chars(v: &Vec<char>) -> (r: Vec<char>)
    ensures
        r@ == trim_seq(v@),
{
    let n: usize = v.len();
    let mut start: usize = 0;
    while start < n && is_space(v[start])
        invariant
            start <= n,
            n == v@.len(),
            forall|j: int| 0 <= j < start ==> is_space_char(v@[j]),
        decreases n - start,
    {
        start = start + 1;
    }
    let mut end: usize = n;
    while end > start && is_space(v[end - 1])
        invariant
            start <= end <= n,
            n == v@.len(),
            forall|j: int| end <= j < n ==> is_space_char(v@[j]),
        decreases end,
    {
        end = end - 1;
    }
    let mut r: Vec<char> = Vec::new();
    let mut i: usize = start;
    while i < end
        invariant
            start <= i <= end <= n,
            n == v@.len(),
            r@ == v@.subrange(start as int, i as int),
        decreases end - i,
    {
        r.push(v[i]);
        proof {
            assert(r@ =~= v@.subrange(start as int, i + 1 as int));
        }
        i = i + 1;
    }
    proof {
        let front = v@.skip(start as int);
        lemma_trim_front_skip(v@, start as int);
        assert(trim_front(front) == front);
        lemma_trim_back_take(front, end - start as int);
        let kept = front.take(end - start as int);
        assert(trim_back(kept) == kept);
        assert(r@ =~= kept);
    }
    r
}

/// The normal form of a submitted line: trimmed, then ASCII lower-cased.
pub fn normalize_chars(s: &str) -> (r: Vec<char>)
    ensures
        r@ == normal_form(s@),
{
    let cs = chars_of(s);
    let trimmed = trim_chars(&cs);
    lower_chars(&trimmed)
}

/// Whether `p` is a prefix of `u`.
pub fn starts_with(u: &Vec<char>, p: &Vec<char>) -> (r: bool)
    ensures
        r == p@.is_prefix_of(u@),
{
    if p.len() > u.len() {
        return false;
    }
    let mut i: usize = 0;
    while i < p.len()
        invariant
            p@.len() <= u@.len(),
            i <= p@.len(),
            forall|j: int| 0 <= j < i ==> p@[j] == u@[j],
        decreases p@.len() - i,
    {
        if p[i] != u[i] {
            assert(!p@.is_prefix_of(u@)) by {
                assert(p@.subrange(0, p@.len() as int)[i as int] != u@.subrange(
                    0,
                    p@.len() as int,
                )[i as int]);
            }
            return false;
        }
        i = i + 1;
    }
    proof {
        assert(p@ =~= u@.subrange(0, p@.len() as int));
    }
    true
}

/// Two character vectors holding the same characters.
pub fn chars_eq(a: &Vec<char>, b: &Vec<char>) -> (r: bool)
    ensures
        r == (a@ == b@),
{
    if a.len() != b.len() {
        return false;
    }
    let mut i: usize = 0;
    while i < a.len()
        invariant
            a@.len() == b@.len(),
            i <= a@.len(),
            forall|j: int| 0 <= j < i ==> a@[j] == b@[j],
        decreases a@.len() - i,
    {
        if a[i] != b[i] {
            return false;
        }
        i = i + 1;
    }
    proof {
        assert(a@ =~= b@);
    }
    true
}

/// Lower-casing leaves whitespace exactly where it was.
pub proof fn lemma_lower_preserves_space(c: char)
    ensures
        is_space_char(lower_char(c)) == is_space_char(c),
{
}

/// Lower-casing is idempotent on characters.
pub proof fn lemma_lower_char_idempotent(c: char)
    ensures
        lower_char(lower_char(c)) == lower_char(c),
{
}

/// Lower-casing is idempotent on sequences.
pub proof fn lemma_lower_seq_idempotent(s: Seq<char>)
    ensures
        lower_seq(lower_seq(s)) == lower_seq(s),
{
    assert forall|i: int| 0 <= i < s.len() implies lower_seq(lower_seq(s))[i] == lower_seq(s)[i] by {
        lemma_lower_char_idempotent(s[i]);
    }
    assert(lower_seq(lower_seq(s)) =~= lower_seq(s));
}

proof fn lemma_trim_front_case(s1: Seq<char>, s2: Seq<char>)
    requires
        lower_seq(s1) == lower_seq(s2),
    ensures
        lower_seq(trim_front(s1)) == lower_seq(trim_front(s2)),
    decreases s1.len(),
{
    assert(lower_seq(s1).len() == lower_seq(s2).len());
    assert(lower_seq(s1).len() == s1.len());
    assert(lower_seq(s2).len() == s2.len());
    if s1.len() > 0 {
        assert(lower_seq(s1)[0] == lower_seq(s2)[0]);
        assert(lower_seq(s1)[0] == lower_char(s1[0]));
        assert(lower_seq(s2)[0] == lower_char(s2[0]));
        lemma_lower_preserves_space(s1[0]);
        lemma_lower_preserves_space(s2[0]);
        assert(is_space_char(s1[0]) == is_space_char(s2[0]));
        if is_space_char(s1[0]) {
            assert forall|j: int| 0 <= j < s1.len() - 1 implies lower_seq(s1.drop_first())[j]
                == lower_seq(s2.drop_first())[j] by {
                assert(lower_seq(s1)[j + 1] == lower_seq(s2)[j + 1]);
                assert(lower_seq(s1)[j + 1] == lower_char(s1[j + 1]));
                assert(lower_seq(s2)[j + 1] == lower_char(s2[j + 1]));
                assert(s1.drop_first()[j] == s1[j + 1]);
                assert(s2.drop_first()[j] == s2[j + 1]);
                assert(lower_seq(s1.drop_first())[j] == lower_char(s1.drop_first()[j]));
                assert(lower_seq(s2.drop_first())[j] == lower_char(s2.drop_first()[j]));
            }
            assert(lower_seq(s1.drop_first()) =~= lower_seq(s2.drop_first()));
            lemma_trim_front_case(s1.drop_first(), s2.drop_first());
        }
    }
}

proof fn lemma_trim_back_case(s1: Seq<char>, s2: Seq<char>)
    requires
        lower_seq(s1) == lower_seq(s2),
    ensures
        lower_seq(trim_back(s1)) == lower_seq(trim_back(s2)),
    decreases s1.len(),
{
    assert(lower_seq(s1).len() == lower_seq(s2).len());
    assert(lower_seq(s1).len() == s1.len());
    assert(lower_seq(s2).len() == s2.len());
    if s1.len() > 0 {
        let last = s1.len() - 1;
        assert(lower_seq(s1)[last] == lower_seq(s2)[last]);
        assert(lower_seq(s1)[last] == lower_char(s1[last]));
        assert(lower_seq(s2)[last] == lower_char(s2[last]));
        lemma_lower_preserves_space(s1[last]);
        lemma_lower_preserves_space(s2[last]);
        assert(is_space_char(s1[last]) == is_space_char(s2[last]));
        if is_space_char(s1[last]) {
            assert forall|j: int| 0 <= j < s1.len() - 1 implies lower_seq(s1.drop_last())[j]
                == lower_seq(s2.drop_last())[j] by {
                assert(lower_seq(s1)[j] == lower_seq(s2)[j]);
                assert(lower_seq(s1)[j] == lower_char(s1[j]));
                assert(lower_seq(s2)[j] == lower_char(s2[j]));
                assert(s1.drop_last()[j] == s1[j]);
                assert(s2.drop_last()[j] == s2[j]);
                assert(lower_seq(s1.drop_last())[j] == lower_char(s1.drop_last()[j]));
                assert(lower_seq(s2.drop_last())[j] == lower_char(s2.drop_last()[j]));
            }
            assert(lower_seq(s1.drop_last()) =~= lower_seq(s2.drop_last()));
            lemma_trim_back_case(s1.drop_last(), s2.drop_last());
        }
    }
}

/// Two lines that differ only in letter case have the same normal form:
/// routing a submitted line is case-insensitive.
pub proof fn lemma_normal_form_case_insensitive(s1: Seq<char>, s2: Seq<char>)
    requires
        lower_seq(s1) == lower_seq(s2),
    ensures
        normal_form(s1) == normal_form(s2),
{
    lemma_trim_front_case(s1, s2);
    lemma_trim_back_case(trim_front(s1), trim_front(s2));
}

} // verus!
