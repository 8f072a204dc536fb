//! Comment stripping and whitespace/quote-aware tokenization of one
//! source line.
//!
//! A line is cut at its first `#`, then split on whitespace runs —
//! except that a quoted run (optional non-whitespace characters, a `"`,
//! any non-`"` characters, a closing `"`, optional trailing
//! non-whitespace characters) is emitted as a single token, embedded
//! whitespace included. Quoted runs are found left to right,
//! non-overlapping, leftmost first, each extending as far as preference
//! allows: the opening quote chosen is the last usable quote of the
//! non-whitespace run around the first quote, the closing quote is the
//! next quote after it. Content with no closing quote falls back to
//! plain whitespace splitting.

use vstd::prelude::*;
use crate::is_ws;
use crate::text::{find_from, lemma_find_from, lemma_split_piece_nonempty, split_pieces, subvec};

verus! {

pub open spec fn is_quote(c: char) -> bool {
    c == '"'
}

pub open spec fn is_hash(c: char) -> bool {
    c == '#'
}

pub open spec fn ws_pred() -> spec_fn(char) -> bool {
    |c: char| is_ws(c)
}

pub open spec fn quote_pred() -> spec_fn(char) -> bool {
    |c: char| is_quote(c)
}

pub open spec fn hash_pred() -> spec_fn(char) -> bool {
    |c: char| is_hash(c)
}

/// The comment-stripped form of a line: everything before its first `#`.
pub open spec fn strip_comment(s: Seq<char>) -> Seq<char> {
    let h = find_from(s, 0, hash_pred());
    s.subrange(
        0,
        if 0 <= h <= s.len() {
            h
        } else {
            s.len() as int
        },
    )
}

/// Start of the non-whitespace run that contains position `j`: the
/// smallest index at or above `floor` from which every character up to
/// `j` is non-whitespace.
pub open spec fn run_start(s: Seq<char>, j: int, floor: int) -> int
    decreases j - floor,
{
    if j <= floor || j > s.len() {
        floor
    } else if is_ws(s[j - 1]) {
        j
    } else {
        run_start(s, j - 1, floor)
    }
}

/// A quote at `j` is usable as an opening quote when a closing quote
/// follows it somewhere in the line.
pub open spec fn usable_quote(s: Seq<char>, j: int) -> bool {
    &&& 0 <= j < s.len()
    &&& is_quote(s[j])
    &&& find_from(s, j + 1, quote_pred()) < s.len()
}

/// The largest index in `[i, j]` holding a usable quote, or `i - 1` if
/// there is none.
pub open spec fn last_usable_quote(s: Seq<char>, j: int, i: int) -> int
    decreases j - i + 1,
{
    if j < i {
        i - 1
    } else if usable_quote(s, j) {
        j
    } else {
        last_usable_quote(s, j - 1, i)
    }
}

/// The leftmost quoted-run match at or after `from`, as a half-open
/// index range, or `None` when no quote pair remains.
pub open spec fn quoted_match(s: Seq<char>, from: int) -> Option<(int, int)> {
    let q1 = find_from(s, from, quote_pred());
    let q2 = find_from(s, q1 + 1, quote_pred());
    if 0 <= from <= s.len() && q1 < s.len() && q2 < s.len() {
        let i = run_start(s, q1, from);
        let r = find_from(s, i, ws_pred());
        let qa = last_usable_quote(s, r - 1, i);
        let qb = find_from(s, qa + 1, quote_pred());
        let end = find_from(s, qb + 1, ws_pred());
        if from <= i <= qa && qb < s.len() && i < end && from < end <= s.len() {
            Some((i, end))
        } else {
            None
        }
    } else {
        None
    }
}

/// The token list of a comment-stripped line, scanning from `from`:
/// leftmost quoted runs are single tokens, everything between them is
/// split on whitespace, and empty pieces are discarded.
pub open spec fn tokens_from(s: Seq<char>, from: int) -> Seq<Seq<char>>
    decreases s.len() - from,
{
    if from < 0 || from > s.len() {
        Seq::empty()
    } else {
        match quoted_match(s, from) {
            Option::None => split_pieces(s, from, s.len() as int, ws_pred()),
            Option::Some(m) => split_pieces(s, from, m.0, ws_pred()) + seq![s.subrange(m.0, m.1)]
                + tokens_from(s, m.1),
        }
    }
}

/// The tokens of one raw source line: comment stripped, then tokenized.
pub open spec fn line_tokens(line: Seq<char>) -> Seq<Seq<char>> {
    tokens_from(strip_comment(line), 0)
}

/// First position at or after `from` holding a quote, or the length.
fn find_quote_from(s: &Vec<char>, from: usize) -> (r: usize)
    requires
        from <= s@.len(),
    ensures
        r == find_from(s@, from as int, quote_pred()),
        from <= r <= s@.len(),
{
    let mut i: usize = from;
    while i < s.len()
        invariant
            from <= i <= s@.len(),
            find_from(s@, from as int, quote_pred()) == find_from(s@, i as int, quote_pred()),
        decreases s@.len() - i,
    {
        if s[i] == '"' {
            return i;
        }
        i += 1;
    }
    i
}

/// First position at or after `from` holding whitespace, or the length.
fn find_ws_from(s: &Vec<char>, from: usize) -> (r: usize)
    requires
        from <= s@.len(),
    ensures
        r == find_from(s@, from as int, ws_pred()),
        from <= r <= s@.len(),
{
    let mut i: usize = from;
    while i < s.len()
        invariant
            from <= i <= s@.len(),
            find_from(s@, from as int, ws_pred()) == find_from(s@, i as int, ws_pred()),
        decreases s@.len() - i,
    {
        if crate::text::is_ws_char(s[i]) {
            return i;
        }
        i += 1;
    }
    i
}

/// First position at or after `from` holding `#`, or the length.
fn find_hash_from(s: &Vec<char>, from: usize) -> (r: usize)
    requires
        from <= s@.len(),
    ensures
        r == find_from(s@, from as int, hash_pred()),
        from <= r <= s@.len(),
{
    let mut i: usize = from;
    while i < s.len()
        invariant
            from <= i <= s@.len(),
            find_from(s@, from as int, hash_pred()) == find_from(s@, i as int, hash_pred()),
        decreases s@.len() - i,
    {
        if s[i] == '#' {
            return i;
        }
        i += 1;
    }
    i
}

/// Exec mirror of `run_start`.
fn run_start_exec(s: &Vec<char>, j: usize, floor: usize) -> (r: usize)
    requires
        floor <= j <= s@.len(),
    ensures
        r == run_start(s@, j as int, floor as int),
        floor <= r <= j,
{
    let mut k: usize = j;
    while k > floor
        invariant
            floor <= k <= j <= s@.len(),
            run_start(s@, j as int, floor as int) == run_start(s@, k as int, floor as int),
        decreases k,
    {
        if crate::text::is_ws_char(s[k - 1]) {
            return k;
        }
        k -= 1;
    }
    k
}

/// Exec mirror of `usable_quote`.
fn usable_quote_exec(s: &Vec<char>, j: usize) -> (r: bool)
    requires
        j < s@.len(),
    ensures
        r == usable_quote(s@, j as int),
{
    let n: usize = s.len();
    if s[j] == '"' {
        let q: usize = find_quote_from(s, j + 1);
        q < n
    } else {
        false
    }
}

/// Exec mirror of `last_usable_quote` over the range `[i1 - 1, j1 - 1]`,
/// with both bounds shifted up by one so that the sentinel for "no
/// usable quote" stays in range of `usize`. Returns
/// `last_usable_quote(s, j1 - 1, i1 - 1) + 1`.
fn last_usable_quote_exec(s: &Vec<char>, j1: usize, i1: usize) -> (r: usize)
    requires
        1 <= i1 <= j1 + 1,
        j1 <= s@.len(),
    ensures
        r == last_usable_quote(s@, j1 as int - 1, i1 as int - 1) + 1,
{
    let mut k: usize = j1;
    while k >= i1
        invariant
            1 <= i1,
            i1 - 1 <= k <= j1 <= s@.len(),
            last_usable_quote(s@, j1 as int - 1, i1 as int - 1) == last_usable_quote(
                s@,
                k as int - 1,
                i1 as int - 1,
            ),
        decreases k,
    {
        if usable_quote_exec(s, k - 1) {
            return k;
        }
        k -= 1;
    }
    assert(last_usable_quote(s@, k as int - 1, i1 as int - 1) == i1 as int - 2);
    k
}

/// `run_start` only skips over non-whitespace characters.
proof fn lemma_run_start_nonws(s: Seq<char>, j: int, floor: int)
    requires
        0 <= floor <= j <= s.len(),
    ensures
        floor <= run_start(s, j, floor) <= j,
        forall|k: int| run_start(s, j, floor) <= k < j ==> !is_ws(s[k]),
    decreases j - floor,
{
    if j <= floor || j > s.len() {
    } else if is_ws(s[j - 1]) {
    } else {
        lemma_run_start_nonws(s, j - 1, floor);
    }
}

/// `last_usable_quote` returns a usable quote when it returns an index
/// in range, and no usable quote in the range lies above it.
proof fn lemma_last_usable_quote(s: Seq<char>, j: int, i: int)
    requires
        0 <= i,
        j < s.len(),
    ensures
        i - 1 <= last_usable_quote(s, j, i),
        j >= i ==> last_usable_quote(s, j, i) <= j,
        last_usable_quote(s, j, i) >= i ==> usable_quote(s, last_usable_quote(s, j, i)),
        forall|q: int| i <= q <= j && usable_quote(s, q) ==> q <= last_usable_quote(s, j, i),
    decreases j - i + 1,
{
    if j < i {
    } else if usable_quote(s, j) {
    } else {
        lemma_last_usable_quote(s, j - 1, i);
    }
}

/// Exec mirror of `quoted_match`.
fn find_quoted(s: &Vec<char>, from: usize) -> (r: Option<(usize, usize)>)
    requires
        from <= s@.len(),
    ensures
        match r {
            Option::Some(m) => {
                &&& quoted_match(s@, from as int) == Option::Some((m.0 as int, m.1 as int))
                &&& from <= m.0 < m.1 <= s@.len()
            },
            Option::None => quoted_match(s@, from as int) == Option::None::<(int, int)>,
        },
{
    let ghost qp = quote_pred();
    let ghost wp = ws_pred();
    let q1: usize = find_quote_from(s, from);
    if q1 == s.len() {
        return None;
    }
    let q2: usize = find_quote_from(s, q1 + 1);
    if q2 == s.len() {
        return None;
    }
    let i: usize = run_start_exec(s, q1, from);
    let r: usize = find_ws_from(s, i);
    proof {
        lemma_run_start_nonws(s@, q1 as int, from as int);
        lemma_find_from(s@, i as int, wp);
        lemma_find_from(s@, from as int, qp);
        assert(is_quote(s@[q1 as int]));
        assert(!is_ws(s@[q1 as int]));
        if r <= q1 {
            assert(is_ws(s@[r as int]));
            if r < q1 {
                assert(!is_ws(s@[r as int]));
            }
            assert(false);
        }
        assert(usable_quote(s@, q1 as int));
    }
    let qa1: usize = last_usable_quote_exec(s, r, i + 1);
    proof {
        lemma_last_usable_quote(s@, r as int - 1, i as int);
        assert(i <= q1 as int <= r - 1);
        assert(last_usable_quote(s@, r as int - 1, i as int) >= q1 as int);
    }
    let qa: usize = qa1 - 1;
    proof {
        assert(usable_quote(s@, qa as int));
    }
    let qb: usize = find_quote_from(s, qa + 1);
    assert(qb < s@.len());
    let end: usize = find_ws_from(s, qb + 1);
    proof {
        assert(from <= i as int <= qa as int);
        assert(from < end as int <= s@.len());
    }
    Some((i, end))
}

/// Append every element of `src`, in order, to `dst`.
fn append_all(dst: &mut Vec<Vec<char>>, src: Vec<Vec<char>>)
    ensures
        final(dst).deep_view() == old(dst).deep_view() + src.deep_view(),
{
    let mut k: usize = 0;
    let n: usize = src.len();
    while k < n
        invariant
            k <= n,
            n == src@.len(),
            dst.deep_view() == old(dst).deep_view() + src.deep_view().subrange(0, k as int),
        decreases n - k,
    {
        let ghost prev = dst.deep_view();
        let t = src[k].clone();
        assert(t@ == src.deep_view()[k as int]);
        dst.push(t);
        assert(dst.deep_view() =~~= prev + seq![t@]);
        assert(dst.deep_view() =~~= old(dst).deep_view() + src.deep_view().subrange(0, k + 1));
        k += 1;
    }
    assert(dst.deep_view() =~~= old(dst).deep_view() + src.deep_view());
}

/// Split `s[from..to]` on whitespace runs, empty pieces discarded.
pub fn split_ws_exec(s: &Vec<char>, from: usize, to: usize) -> (r: Vec<Vec<char>>)
    requires
        from <= to <= s@.len(),
    ensures
        r.deep_view() == split_pieces(s@, from as int, to as int, ws_pred()),
{
    let mut r: Vec<Vec<char>> = Vec::new();
    let mut pos: usize = from;
    while pos < to
        invariant
            from <= pos <= to <= s@.len(),
            split_pieces(s@, from as int, to as int, ws_pred()) == r.deep_view() + split_pieces(
                s@,
                pos as int,
                to as int,
                ws_pred(),
            ),
        decreases to - pos,
    {
        if crate::text::is_ws_char(s[pos]) {
            pos += 1;
        } else {
            let f: usize = find_ws_from(s, pos);
            proof {
                lemma_find_from(s@, pos as int, ws_pred());
                if f == pos {
                    assert((f as int) < s@.len());
                    assert(ws_pred()(s@[f as int]));
                    assert(is_ws(s@[pos as int]));
                    assert(false);
                }
            }
            let run_end: usize = if f <= to {
                f
            } else {
                to
            };
            assert(pos < run_end);
            let piece = subvec(s, pos, run_end);
            proof {
                assert(split_pieces(s@, pos as int, to as int, ws_pred()) == seq![
                    s@.subrange(pos as int, run_end as int),
                ] + split_pieces(s@, run_end as int, to as int, ws_pred()));
            }
            let ghost prev = r.deep_view();
            r.push(piece);
            assert(r.deep_view() =~~= prev + seq![piece@]);
            pos = run_end;
        }
    }
    assert(split_pieces(s@, pos as int, to as int, ws_pred()) =~= Seq::<Seq<char>>::empty());
    assert(r.deep_view() =~~= split_pieces(s@, from as int, to as int, ws_pred()));
    r
}

/// Tokenize a comment-stripped line.
pub fn tokenize(s: &Vec<char>) -> (r: Vec<Vec<char>>)
    ensures
        r.deep_view() == tokens_from(s@, 0),
{
    let mut r: Vec<Vec<char>> = Vec::new();
    let mut pos: usize = 0;
    while pos < s.len()
        invariant
            pos <= s@.len(),
            tokens_from(s@, 0) == r.deep_view() + tokens_from(s@, pos as int),
        decreases s@.len() - pos,
    {
        match find_quoted(s, pos) {
            None => {
                let rest = split_ws_exec(s, pos, s.len());
                append_all(&mut r, rest);
                pos = s.len();
            },
            Some((a, b)) => {
                proof {
                    assert(tokens_from(s@, pos as int) == split_pieces(s@, pos as int, a as int, ws_pred())
                        + seq![s@.subrange(a as int, b as int)] + tokens_from(s@, b as int));
                }
                let pre = split_ws_exec(s, pos, a);
                append_all(&mut r, pre);
                let tok = subvec(s, a, b);
                let ghost prev = r.deep_view();
                r.push(tok);
                assert(r.deep_view() =~~= prev + seq![tok@]);
                pos = b;
            },
        }
        assert(tokens_from(s@, 0) =~~= r.deep_view() + tokens_from(s@, pos as int));
    }
    assert(tokens_from(s@, pos as int) =~= Seq::<Seq<char>>::empty());
    assert(r.deep_view() =~~= tokens_from(s@, 0));
    r
}

/// Cut a raw line at its first `#`.
pub fn strip_comment_exec(line: &Vec<char>) -> (r: Vec<char>)
    ensures
        r@ == strip_comment(line@),
{
    let h: usize = find_hash_from(line, 0);
    subvec(line, 0, h)
}

/// Tokenization discards empty pieces: every token of a line is
/// nonempty.
pub proof fn lemma_tokens_nonempty(s: Seq<char>, from: int, i: int)
    requires
        0 <= i < tokens_from(s, from).len(),
    ensures
        tokens_from(s, from)[i].len() > 0,
    decreases s.len() - from, i,
{
    if from < 0 || from > s.len() {
    } else {
        match quoted_match(s, from) {
            Option::None => {
                lemma_split_piece_nonempty(s, from, s.len() as int, ws_pred(), i);
            },
            Option::Some(m) => {
                let pre = split_pieces(s, from, m.0, ws_pred());
                let whole = tokens_from(s, from);
                assert(whole == pre + seq![s.subrange(m.0, m.1)] + tokens_from(s, m.1));
                if i < pre.len() {
                    assert(whole[i] == pre[i]);
                    lemma_split_piece_nonempty(s, from, m.0, ws_pred(), i);
                } else if i == pre.len() {
                    assert(whole[i] == s.subrange(m.0, m.1));
                } else {
                    assert(whole[i] == tokens_from(s, m.1)[i - pre.len() - 1]);
                    lemma_tokens_nonempty(s, m.1, i - pre.len() - 1);
                }
            },
        }
    }
}

/// A quoted run is passed whole: the matched span, embedded whitespace
/// included, is one token of the line, never split.
pub proof fn lemma_quoted_run_is_one_token(s: Seq<char>, from: int, a: int, b: int)
    requires
        quoted_match(s, from) == Some((a, b)),
    ensures
        tokens_from(s, from).contains(s.subrange(a, b)),
{
    let pre = split_pieces(s, from, a, ws_pred());
    assert(tokens_from(s, from) == pre + seq![s.subrange(a, b)] + tokens_from(s, b));
    let idx = pre.len() as int;
    assert(tokens_from(s, from)[idx] == s.subrange(a, b));
    assert(tokens_from(s, from).contains(s.subrange(a, b)));
}

} // verus!
