//! Character-level scanning primitives shared by the tokenizer and the
//! label extractor: first-separator searches, backward run starts, and
//! separator-based splitting with empty pieces discarded.

use vstd::prelude::*;
use vstd::string::StrSliceExecFns;
use crate::is_ws;

verus! {

/// Index of the first character at or after `from` satisfying `p`, or
/// `s.len()` if none does.
pub open spec fn find_from(s: Seq<char>, from: int, p: spec_fn(char) -> bool) -> int
    decreases s.len() - from,
{
    if from < 0 || from >= s.len() {
        s.len() as int
    } else if p(s[from]) {
        from
    } else {
        find_from(s, from + 1, p)
    }
}

pub proof fn lemma_find_from(s: Seq<char>, from: int, p: spec_fn(char) -> bool)
    requires
        0 <= from <= s.len(),
    ensures
        from <= find_from(s, from, p) <= s.len(),
        find_from(s, from, p) < s.len() ==> p(s[find_from(s, from, p)]),
        forall|i: int| from <= i < find_from(s, from, p) ==> !p(s[i]),
    decreases s.len() - from,
{
    if from < s.len() && !p(s[from]) {
        lemma_find_from(s, from + 1, p);
    }
}

/// Splitting `s[from..to]` on separator characters, discarding empty
/// pieces: each result element is a maximal nonempty run of
/// non-separator characters.
pub open spec fn split_pieces(s: Seq<char>, from: int, to: int, sep: spec_fn(char) -> bool) -> Seq<
    Seq<char>,
>
    decreases to - from,
{
    if from < 0 || from >= to || to > s.len() {
        Seq::empty()
    } else if sep(s[from]) {
        split_pieces(s, from + 1, to, sep)
    } else {
        let f = find_from(s, from, sep);
        let run_end = if f <= from + 1 {
            from + 1
        } else if f <= to {
            f
        } else {
            to
        };
        seq![s.subrange(from, run_end)] + split_pieces(s, run_end, to, sep)
    }
}

/// The piece at index `i` produced by `split_pieces` is nonempty.
pub proof fn lemma_split_piece_nonempty(
    s: Seq<char>,
    from: int,
    to: int,
    sep: spec_fn(char) -> bool,
    i: int,
)
    requires
        0 <= i < split_pieces(s, from, to, sep).len(),
    ensures
        split_pieces(s, from, to, sep)[i].len() > 0,
    decreases to - from,
{
    if from < 0 || from >= to || to > s.len() {
    } else if sep(s[from]) {
        lemma_split_piece_nonempty(s, from + 1, to, sep, i);
    } else {
        let f = find_from(s, from, sep);
        let run_end = if f <= from + 1 {
            from + 1
        } else if f <= to {
            f
        } else {
            to
        };
        let rest = split_pieces(s, run_end, to, sep);
        let whole = split_pieces(s, from, to, sep);
        assert(whole == seq![s.subrange(from, run_end)] + rest);
        if i == 0 {
            assert(whole[0] == s.subrange(from, run_end));
        } else {
            assert(whole[i] == rest[i - 1]);
            lemma_split_piece_nonempty(s, run_end, to, sep, i - 1);
        }
    }
}

/// Copy of the characters `s[from..to]`.
pub fn subvec(s: &Vec<char>, from: usize, to: usize) -> (r: Vec<char>)
    requires
        from <= to <= s@.len(),
    ensures
        r@ == s@.subrange(from as int, to as int),
{
    let mut r: Vec<char> = Vec::new();
    let mut i: usize = from;
    while i < to
        invariant
            from <= i <= to <= s@.len(),
            r@ == s@.subrange(from as int, i as int),
        decreases to - i,
    {
        r.push(s[i]);
        assert(r@ =~= s@.subrange(from as int, i + 1 as int));
        i += 1;
    }
    r
}

/// The characters of a string slice, in order.
pub fn str_to_chars(s: &str) -> (r: Vec<char>)
    ensures
        r@ == s@,
{
    let n = s.unicode_len();
    let mut r: Vec<char> = Vec::new();
    let mut i: usize = 0;
    while i < n
        invariant
            i <= n,
            n == s@.len(),
            r@ == s@.subrange(0, i as int),
        decreases n - i,
    {
        r.push(s.get_char(i));
        assert(r@ =~= s@.subrange(0, i + 1 as int));
        i += 1;
    }
    assert(r@ =~= s@);
    r
}

/// Relies on `Iterator::collect` building a `String` from its characters
/// in order: the resulting string's character sequence is the input.
#[verifier::external_body]
pub fn chars_to_string(v: &Vec<char>) -> (r: String)
    ensures
        r@ == v@,
{
    v.iter().collect()
}

/// Exec mirror of `is_ws`.
pub fn is_ws_char(c: char) -> (r: bool)
    ensures
        r == is_ws(c),
{
    c == ' ' || c == '\t' || c == '\r' || c == '\n' || c == '\u{b}' || c == '\u{c}'
}

} // verus!
