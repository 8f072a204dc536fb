//! The per-line parse pipeline and the whole-source orchestrator.
//!
//! Each line is comment-stripped and tokenized; a line with no tokens
//! is skipped; a line whose first token starts with `.` declares a
//! label; any other line is an instruction: its first token is resolved
//! in the table and exactly `arity` following tokens are materialized
//! as operands. Parsing is fail-fast: the first error aborts the call.

use vstd::prelude::*;
use crate::code::{Builder, Code, EntryView};
use crate::operand::TokenValue;
use crate::table::{Instruction, InstructionTable, spec_by_name};
use crate::text::{find_from, lemma_find_from, split_pieces, subvec};
use crate::tokenize::{
    strip_comment, strip_comment_exec, tokenize, tokens_from, split_ws_exec, ws_pred,
};

verus! {

/// Characters on which a label line is cut before the name is taken.
pub open spec fn label_sep(c: char) -> bool {
    c == ':' || c == '.'
}

pub open spec fn label_sep_pred() -> spec_fn(char) -> bool {
    |c: char| label_sep(c)
}

pub open spec fn nl_pred() -> spec_fn(char) -> bool {
    |c: char| c == '\n'
}

/// The label name declared by a comment-stripped line: cut the line on
/// `:` and `.`, discard empty pieces, take the first piece, then its
/// first whitespace-delimited word.
pub open spec fn label_of(stripped: Seq<char>) -> Option<Seq<char>> {
    let pieces = split_pieces(stripped, 0, stripped.len() as int, label_sep_pred());
    if pieces.len() == 0 {
        None
    } else {
        let words = split_pieces(pieces[0], 0, pieces[0].len() as int, ws_pred());
        if words.len() == 0 {
            None
        } else {
            Some(words[0])
        }
    }
}

/// Mathematical shape of a parse failure.
pub enum ErrorView {
    UnknownMnemonic(Seq<char>),
    MissingOperand { mnemonic: Seq<char>, expected: int, found: int },
    MalformedLabel(Seq<char>),
}

/// A parse failure: the unknown first token, an instruction with fewer
/// operand tokens than its arity, or a label line without a name.
#[derive(Clone, PartialEq, Eq, Debug)]
pub enum ParseError {
    UnknownMnemonic(Vec<char>),
    MissingOperand { mnemonic: Vec<char>, expected: usize, found: usize },
    MalformedLabel(Vec<char>),
}

impl View for ParseError {
    type V = ErrorView;

    open spec fn view(&self) -> ErrorView {
        match self {
            ParseError::UnknownMnemonic(t) => ErrorView::UnknownMnemonic(t@),
            ParseError::MissingOperand { mnemonic, expected, found } => ErrorView::MissingOperand {
                mnemonic: mnemonic@,
                expected: *expected as int,
                found: *found as int,
            },
            ParseError::MalformedLabel(l) => ErrorView::MalformedLabel(l@),
        }
    }
}

/// Text-level shape of one emitted entry: the label name, or the
/// mnemonic with the operand tokens it consumed.
pub enum EntryText {
    Label(Seq<char>),
    Instr(Seq<char>, Seq<Seq<char>>),
}

/// An accumulated entry realizes a text-level entry: same label name,
/// or same mnemonic with each operand the conversion of its token.
pub open spec fn entry_matches<T: TokenValue>(v: EntryView<T>, t: EntryText) -> bool {
    match v {
        EntryView::Label(n) => t == EntryText::Label(n),
        EntryView::Instr(m, ops) => match t {
            EntryText::Instr(m2, texts) => m == m2 && ops.len() == texts.len() && forall|i: int|
                0 <= i < ops.len() ==> #[trigger] ops[i].is_conversion_of(texts[i]),
            _ => false,
        },
    }
}

pub open spec fn entries_match<T: TokenValue>(vs: Seq<EntryView<T>>, ts: Seq<EntryText>) -> bool {
    vs.len() == ts.len() && forall|i: int|
        0 <= i < vs.len() ==> entry_matches(#[trigger] vs[i], ts[i])
}

pub proof fn lemma_entries_match_concat<T: TokenValue>(
    a1: Seq<EntryView<T>>,
    t1: Seq<EntryText>,
    a2: Seq<EntryView<T>>,
    t2: Seq<EntryText>,
)
    requires
        entries_match(a1, t1),
        entries_match(a2, t2),
    ensures
        entries_match(a1 + a2, t1 + t2),
{
    assert forall|i: int| 0 <= i < (a1 + a2).len() implies entry_matches(
        #[trigger] (a1 + a2)[i],
        (t1 + t2)[i],
    ) by {
        if i < a1.len() {
            assert((a1 + a2)[i] == a1[i]);
            assert((t1 + t2)[i] == t1[i]);
        } else {
            assert((a1 + a2)[i] == a2[i - a1.len()]);
            assert((t1 + t2)[i] == t2[i - t1.len()]);
        }
    }
}

/// What one raw line contributes: nothing, a label, an instruction with
/// exactly `arity` operand tokens — or the first error it raises.
pub open spec fn line_result<H>(line: Seq<char>, tab: Seq<Instruction<H>>) -> Result<
    Seq<EntryText>,
    ErrorView,
> {
    let stripped = strip_comment(line);
    let toks = tokens_from(stripped, 0);
    if toks.len() == 0 {
        Ok(Seq::empty())
    } else if toks[0].len() > 0 && toks[0][0] == '.' {
        match label_of(stripped) {
            None => Err(ErrorView::MalformedLabel(stripped)),
            Some(name) => Ok(seq![EntryText::Label(name)]),
        }
    } else {
        match spec_by_name(tab, toks[0]) {
            None => Err(ErrorView::UnknownMnemonic(toks[0])),
            Some(ins) => {
                if toks.len() < ins.arity + 1 {
                    Err(
                        ErrorView::MissingOperand {
                            mnemonic: toks[0],
                            expected: ins.arity as int,
                            found: toks.len() as int - 1,
                        },
                    )
                } else {
                    Ok(seq![EntryText::Instr(toks[0], toks.subrange(1, ins.arity + 1))])
                }
            },
        }
    }
}

/// What the source from position `from` onward contributes: the
/// entries of its lines in order, or the first error.
pub open spec fn parse_from<H>(s: Seq<char>, from: int, tab: Seq<Instruction<H>>) -> Result<
    Seq<EntryText>,
    ErrorView,
>
    decreases s.len() - from,
{
    if from < 0 || from > s.len() {
        Ok(Seq::empty())
    } else {
        let nl0 = find_from(s, from, nl_pred());
        let nl = if from <= nl0 <= s.len() {
            nl0
        } else {
            s.len() as int
        };
        match line_result(s.subrange(from, nl), tab) {
            Err(e) => Err(e),
            Ok(es) => {
                if nl >= s.len() {
                    Ok(es)
                } else {
                    match parse_from(s, nl + 1, tab) {
                        Err(e) => Err(e),
                        Ok(rest) => Ok(es + rest),
                    }
                }
            },
        }
    }
}

/// The parse of a whole source text against a table.
pub open spec fn parse_result<H>(s: Seq<char>, tab: Seq<Instruction<H>>) -> Result<
    Seq<EntryText>,
    ErrorView,
> {
    parse_from(s, 0, tab)
}

/// Entries already emitted, followed by whatever the rest of the
/// source contributes.
pub open spec fn combine(prefix: Seq<EntryText>, r: Result<Seq<EntryText>, ErrorView>) -> Result<
    Seq<EntryText>,
    ErrorView,
> {
    match r {
        Ok(rest) => Ok(prefix + rest),
        Err(e) => Err(e),
    }
}

/// First `:` or `.` at or after `from`, or the length.
fn find_label_sep_from(s: &Vec<char>, from: usize) -> (r: usize)
    requires
        from <= s@.len(),
    ensures
        r == find_from(s@, from as int, label_sep_pred()),
        from <= r <= s@.len(),
{
    let mut i: usize = from;
    while i < s.len()
        invariant
            from <= i <= s@.len(),
            find_from(s@, from as int, label_sep_pred()) == find_from(
                s@,
                i as int,
                label_sep_pred(),
            ),
        decreases s@.len() - i,
    {
        if s[i] == ':' || s[i] == '.' {
            return i;
        }
        i += 1;
    }
    i
}

/// First `\n` at or after `from`, or the length.
fn find_nl_from(s: &Vec<char>, from: usize) -> (r: usize)
    requires
        from <= s@.len(),
    ensures
        r == find_from(s@, from as int, nl_pred()),
        from <= r <= s@.len(),
{
    let mut i: usize = from;
    while i < s.len()
        invariant
            from <= i <= s@.len(),
            find_from(s@, from as int, nl_pred()) == find_from(s@, i as int, nl_pred()),
        decreases s@.len() - i,
    {
        if s[i] == '\n' {
            return i;
        }
        i += 1;
    }
    i
}

/// Split `s` on `:` and `.`, empty pieces discarded.
fn split_label_exec(s: &Vec<char>) -> (r: Vec<Vec<char>>)
    ensures
        r.deep_view() == split_pieces(s@, 0, s@.len() as int, label_sep_pred()),
{
    let to: usize = s.len();
    let mut r: Vec<Vec<char>> = Vec::new();
    let mut pos: usize = 0;
    while pos < to
        invariant
            pos <= to <= s@.len(),
            to == s@.len(),
            split_pieces(s@, 0, to as int, label_sep_pred()) == r.deep_view() + split_pieces(
                s@,
                pos as int,
                to as int,
                label_sep_pred(),
            ),
        decreases to - pos,
    {
        if s[pos] == ':' || s[pos] == '.' {
            pos += 1;
        } else {
            let f: usize = find_label_sep_from(s, pos);
            proof {
                lemma_find_from(s@, pos as int, label_sep_pred());
                if f == pos {
                    assert((f as int) < s@.len());
                    assert(label_sep_pred()(s@[f as int]));
                    assert(false);
                }
            }
            let run_end: usize = if f <= to {
                f
            } else {
                to
            };
            assert(pos < run_end);
            let piece = subvec(s, pos, run_end);
            proof {
                assert(split_pieces(s@, pos as int, to as int, label_sep_pred()) == seq![
                    s@.subrange(pos as int, run_end as int),
                ] + split_pieces(s@, run_end as int, to as int, label_sep_pred()));
            }
            let ghost prev = r.deep_view();
            r.push(piece);
            assert(r.deep_view() =~~= prev + seq![piece@]);
            pos = run_end;
        }
    }
    assert(split_pieces(s@, pos as int, to as int, label_sep_pred()) =~= Seq::<
        Seq<char>,
    >::empty());
    assert(r.deep_view() =~~= split_pieces(s@, 0, to as int, label_sep_pred()));
    r
}

/// Extract the label name a comment-stripped line declares, if any.
fn extract_label(stripped: &Vec<char>) -> (r: Option<Vec<char>>)
    ensures
        match r {
            Some(name) => label_of(stripped@) == Some(name@),
            None => label_of(stripped@) is None,
        },
{
    let pieces = split_label_exec(stripped);
    if pieces.len() == 0 {
        return None;
    }
    let first: &Vec<char> = &pieces[0];
    assert(first@ == pieces.deep_view()[0]);
    let words = split_ws_exec(first, 0, first.len());
    if words.len() == 0 {
        return None;
    }
    let name = words[0].clone();
    assert(name@ == words.deep_view()[0]);
    Some(name)
}

/// Parse one raw line into the accumulator.
///
/// On success the accumulator has the line's entries appended; on any
/// error it is left exactly as it was.
pub fn parse_line<T: TokenValue, H>(
    line: &Vec<char>,
    table: &InstructionTable<H>,
    builder: &mut Builder<T>,
) -> (r: Result<(), ParseError>)
    ensures
        match r {
            Ok(()) => {
                &&& line_result(line@, table@) is Ok
                &&& old(builder)@.len() <= final(builder)@.len()
                &&& final(builder)@.subrange(0, old(builder)@.len() as int) == old(builder)@
                &&& entries_match(
                    final(builder)@.skip(old(builder)@.len() as int),
                    line_result(line@, table@)->Ok_0,
                )
            },
            Err(e) => {
                &&& line_result(line@, table@) == Err::<Seq<EntryText>, ErrorView>(e@)
                &&& final(builder)@ == old(builder)@
            },
        },
{
    let ghost spec_toks = tokens_from(strip_comment(line@), 0);
    let stripped = strip_comment_exec(line);
    let toks = tokenize(&stripped);
    proof {
        assert(toks.deep_view() == spec_toks);
    }
    if toks.len() == 0 {
        assert(final(builder)@.skip(old(builder)@.len() as int) =~= Seq::<
            EntryView<T>,
        >::empty());
        assert(final(builder)@.subrange(0, old(builder)@.len() as int) =~= old(builder)@);
        return Ok(());
    }
    let first: &Vec<char> = &toks[0];
    proof {
        assert(first@ == toks.deep_view()[0]);
    }
    if first.len() > 0 && first[0] == '.' {
        match extract_label(&stripped) {
            None => Err(ParseError::MalformedLabel(stripped)),
            Some(name) => {
                let ghost prev = builder@;
                builder.label(name);
                proof {
                    assert(builder@.subrange(0, prev.len() as int) =~= prev);
                    assert(builder@.skip(prev.len() as int) =~= seq![
                        EntryView::<T>::Label(name@),
                    ]);
                }
                Ok(())
            },
        }
    } else {
        match table.by_name(first) {
            None => Err(ParseError::UnknownMnemonic(first.clone())),
            Some(ins) => {
                let arity: usize = ins.arity;
                if toks.len() - 1 < arity {
                    Err(
                        ParseError::MissingOperand {
                            mnemonic: first.clone(),
                            expected: arity,
                            found: toks.len() - 1,
                        },
                    )
                } else {
                    let mut operands: Vec<T> = Vec::new();
                    let mut i: usize = 0;
                    while i < arity
                        invariant
                            i <= arity,
                            arity + 1 <= toks@.len(),
                            operands@.len() == i,
                            forall|k: int|
                                0 <= k < i ==> #[trigger] operands@[k].is_conversion_of(
                                    toks.deep_view()[k + 1],
                                ),
                        decreases arity - i,
                    {
                        let tok: &Vec<char> = &toks[i + 1];
                        assert(tok@ == toks.deep_view()[i + 1]);
                        let v = T::from_text(tok);
                        operands.push(v);
                        i += 1;
                    }
                    let mnemonic = first.clone();
                    let ghost prev = builder@;
                    let ghost ops = operands@;
                    builder.push(mnemonic, operands);
                    proof {
                        let texts = spec_toks.subrange(1, ins.arity + 1);
                        assert(ops.len() == texts.len());
                        assert(forall|k: int|
                            0 <= k < ops.len() ==> texts[k] == spec_toks[k + 1]);
                        assert(entry_matches(
                            EntryView::<T>::Instr(first@, ops),
                            EntryText::Instr(spec_toks[0], texts),
                        ));
                        assert(builder@.subrange(0, prev.len() as int) =~= prev);
                        assert(builder@.skip(prev.len() as int) =~= seq![
                            EntryView::<T>::Instr(first@, ops),
                        ]);
                    }
                    Ok(())
                }
            },
        }
    }
}

impl<T: TokenValue> Code<T> {
    /// Parse assembly source against an instruction table, producing
    /// the finalized entry sequence or the first error, line by line in
    /// source order.
    pub fn parse<H>(s: &str, table: &InstructionTable<H>) -> (r: Result<Code<T>, ParseError>)
        ensures
            match r {
                Ok(code) => {
                    &&& parse_result(s@, table@) is Ok
                    &&& entries_match(code@, parse_result(s@, table@)->Ok_0)
                },
                Err(e) => parse_result(s@, table@) == Err::<Seq<EntryText>, ErrorView>(e@),
            },
    {
        let chars = crate::text::str_to_chars(s);
        let mut builder: Builder<T> = Builder::new();
        let ghost mut acc: Seq<EntryText> = Seq::empty();
        let n: usize = chars.len();
        let mut pos: usize = 0;
        let mut done: bool = false;
        proof {
            assert(Seq::<EntryText>::empty() + parse_from(
                chars@,
                0,
                table@,
            )->Ok_0 =~= parse_from(chars@, 0, table@)->Ok_0);
        }
        while !done
            invariant
                pos <= n,
                n == chars@.len(),
                chars@ == s@,
                !done ==> parse_result(s@, table@) == combine(
                    acc,
                    parse_from(chars@, pos as int, table@),
                ),
                !done ==> entries_match(builder@, acc),
                done ==> parse_result(s@, table@) == Ok::<Seq<EntryText>, ErrorView>(acc)
                    && entries_match(builder@, acc),
            decreases n - pos, (if done {
                0int
            } else {
                1int
            }),
        {
            let nl: usize = find_nl_from(&chars, pos);
            let line = subvec(&chars, pos, nl);
            let ghost lr = line_result(line@, table@);
            proof {
                assert(parse_from(chars@, pos as int, table@) == (match lr {
                    Err(e) => Err::<Seq<EntryText>, ErrorView>(e),
                    Ok(es) => {
                        if nl >= n {
                            Ok::<Seq<EntryText>, ErrorView>(es)
                        } else {
                            match parse_from(chars@, nl + 1, table@) {
                                Err(e) => Err::<Seq<EntryText>, ErrorView>(e),
                                Ok(rest) => Ok::<Seq<EntryText>, ErrorView>(es + rest),
                            }
                        }
                    },
                }));
            }
            let ghost prev = builder@;
            match parse_line(&line, table, &mut builder) {
                Err(e) => {
                    return Err(e);
                },
                Ok(()) => {
                    let ghost es = lr->Ok_0;
                    let ghost appended = builder@.skip(prev.len() as int);
                    let ghost acc0 = acc;
                    proof {
                        assert(builder@ =~= prev + appended);
                        lemma_entries_match_concat(prev, acc, appended, es);
                        acc = acc + es;
                        assert(entries_match(builder@, acc));
                    }
                    if nl == n {
                        done = true;
                        proof {
                            assert(parse_from(chars@, pos as int, table@) == Ok::<
                                Seq<EntryText>,
                                ErrorView,
                            >(es));
                        }
                    } else {
                        pos = nl + 1;
                        proof {
                            match parse_from(chars@, pos as int, table@) {
                                Err(e) => {},
                                Ok(rest) => {
                                    assert(acc0 + (es + rest) =~= acc + rest);
                                    assert(combine(
                                        acc,
                                        parse_from(chars@, pos as int, table@),
                                    ) == parse_result(s@, table@));
                                },
                            }
                        }
                    }
                },
            }
        }
        let code = Code::from(builder);
        Ok(code)
    }
}

/// A line reducing to zero tokens after comment-stripping and
/// tokenizing contributes no entries and raises no error.
pub proof fn lemma_blank_line_contributes_nothing<H>(line: Seq<char>, tab: Seq<Instruction<H>>)
    requires
        tokens_from(strip_comment(line), 0).len() == 0,
    ensures
        line_result(line, tab) == Ok::<Seq<EntryText>, ErrorView>(Seq::empty()),
{
}

/// A well-formed instruction line consumes exactly the registered
/// arity of operand tokens, in original left-to-right order.
pub proof fn lemma_instruction_consumes_arity<H>(
    line: Seq<char>,
    tab: Seq<Instruction<H>>,
    ins: Instruction<H>,
)
    requires
        tokens_from(strip_comment(line), 0).len() > 0,
        !(tokens_from(strip_comment(line), 0)[0].len() > 0 && tokens_from(
            strip_comment(line),
            0,
        )[0][0] == '.'),
        spec_by_name(tab, tokens_from(strip_comment(line), 0)[0]) == Some(ins),
        tokens_from(strip_comment(line), 0).len() >= ins.arity + 1,
    ensures
        ({
            let toks = tokens_from(strip_comment(line), 0);
            let texts = toks.subrange(1, ins.arity + 1);
            &&& line_result(line, tab) == Ok::<Seq<EntryText>, ErrorView>(
                seq![EntryText::Instr(toks[0], texts)],
            )
            &&& texts.len() == ins.arity
            &&& forall|k: int| 0 <= k < ins.arity ==> texts[k] == toks[k + 1]
        }),
{
}

/// Stripping a comment is idempotent: the stripped line holds no `#`.
pub proof fn lemma_strip_comment_idempotent(line: Seq<char>)
    ensures
        strip_comment(strip_comment(line)) == strip_comment(line),
{
    lemma_find_from(line, 0, crate::tokenize::hash_pred());
    let h = find_from(line, 0, crate::tokenize::hash_pred());
    let stripped = strip_comment(line);
    assert(stripped == line.subrange(0, h));
    lemma_find_from(stripped, 0, crate::tokenize::hash_pred());
    let h2 = find_from(stripped, 0, crate::tokenize::hash_pred());
    if h2 < stripped.len() {
        assert(crate::tokenize::hash_pred()(stripped[h2]));
        assert(stripped[h2] == line[h2]);
        assert(!crate::tokenize::hash_pred()(line[h2]));
        assert(false);
    }
    assert(strip_comment(stripped) =~= stripped);
}

/// A line parses identically to its comment-stripped form: trailing
/// `# ...` content never changes the outcome.
pub proof fn lemma_comment_equivalence<H>(line: Seq<char>, tab: Seq<Instruction<H>>)
    ensures
        line_result(line, tab) == line_result(strip_comment(line), tab),
{
    lemma_strip_comment_idempotent(line);
}

} // verus!
