//! The accumulated output of a parse: labels and instructions in source
//! order, first in a mutable accumulator, then finalized into an
//! immutable sequence that can be rendered back to text.

use vstd::prelude::*;
use crate::operand::TokenValue;
use crate::text::chars_to_string;

verus! {

/// One accumulated item: a label marker or an instruction with its
/// materialized operands.
#[derive(Clone, PartialEq, Eq, Debug)]
pub enum Entry<T> {
    Label(Vec<char>),
    Instr { mnemonic: Vec<char>, operands: Vec<T> },
}

/// Mathematical shape of one entry: names as character sequences,
/// operands as the materialized values.
pub enum EntryView<T> {
    Label(Seq<char>),
    Instr(Seq<char>, Seq<T>),
}

impl<T> View for Entry<T> {
    type V = EntryView<T>;

    open spec fn view(&self) -> EntryView<T> {
        match self {
            Entry::Label(name) => EntryView::Label(name@),
            Entry::Instr { mnemonic, operands } => EntryView::Instr(mnemonic@, operands@),
        }
    }
}

/// Mutable accumulator, exclusively owned by one parse call: entries
/// are only ever appended, in line order.
pub struct Builder<T> {
    pub entries: Vec<Entry<T>>,
}

impl<T> View for Builder<T> {
    type V = Seq<EntryView<T>>;

    open spec fn view(&self) -> Seq<EntryView<T>> {
        self.entries@.map_values(|e: Entry<T>| e@)
    }
}

impl<T> Builder<T> {
    pub fn new() -> (r: Self)
        ensures
            r@ == Seq::<EntryView<T>>::empty(),
    {
        let b = Builder { entries: Vec::new() };
        assert(b@ =~= Seq::<EntryView<T>>::empty());
        b
    }

    /// Append a label marker.
    pub fn label(&mut self, name: Vec<char>)
        ensures
            final(self)@ == old(self)@.push(EntryView::Label(name@)),
    {
        let ghost prev = self@;
        self.entries.push(Entry::Label(name));
        assert(self@ =~= prev.push(EntryView::Label(name@)));
    }

    /// Append an instruction with its operands.
    pub fn push(&mut self, mnemonic: Vec<char>, operands: Vec<T>)
        ensures
            final(self)@ == old(self)@.push(EntryView::Instr(mnemonic@, operands@)),
    {
        let ghost prev = self@;
        self.entries.push(Entry::Instr { mnemonic, operands });
        assert(self@ =~= prev.push(EntryView::Instr(mnemonic@, operands@)));
    }
}

/// Immutable instruction sequence, finalized once from an accumulator.
#[derive(Debug)]
pub struct Code<T> {
    pub entries: Vec<Entry<T>>,
}

impl<T> View for Code<T> {
    type V = Seq<EntryView<T>>;

    open spec fn view(&self) -> Seq<EntryView<T>> {
        self.entries@.map_values(|e: Entry<T>| e@)
    }
}

/// Rendered text of the operand list: one space before each operand.
pub open spec fn render_ops<T: TokenValue>(ops: Seq<T>) -> Seq<char>
    decreases ops.len(),
{
    if ops.len() == 0 {
        Seq::empty()
    } else {
        render_ops(ops.drop_last()) + seq![' '] + ops.last().render_spec()
    }
}

/// Rendered text of one entry: labels as `\n.name:\n`, instructions as
/// a tab, the mnemonic, the operands, and a newline.
pub open spec fn render_entry<T: TokenValue>(e: EntryView<T>) -> Seq<char> {
    match e {
        EntryView::Label(name) => seq!['\n', '.'] + name + seq![':', '\n'],
        EntryView::Instr(mnemonic, ops) => seq!['\t'] + mnemonic + render_ops(ops) + seq!['\n'],
    }
}

/// Rendered text of a whole entry sequence, in order.
pub open spec fn render_entries<T: TokenValue>(es: Seq<EntryView<T>>) -> Seq<char>
    decreases es.len(),
{
    if es.len() == 0 {
        Seq::empty()
    } else {
        render_entries(es.drop_last()) + render_entry(es.last())
    }
}

/// Append a copy of `src`'s characters to `dst`.
fn push_chars(dst: &mut Vec<char>, src: &Vec<char>)
    ensures
        final(dst)@ == old(dst)@ + src@,
{
    let n: usize = src.len();
    let mut i: usize = 0;
    while i < n
        invariant
            i <= n,
            n == src@.len(),
            dst@ == old(dst)@ + src@.subrange(0, i as int),
        decreases n - i,
    {
        dst.push(src[i]);
        assert(dst@ =~= old(dst)@ + src@.subrange(0, i + 1 as int));
        i += 1;
    }
    assert(dst@ =~= old(dst)@ + src@);
}

impl<T: TokenValue> Code<T> {
    /// Finalize an accumulator into an immutable sequence.
    pub fn from(b: Builder<T>) -> (r: Self)
        ensures
            r@ == b@,
    {
        Code { entries: b.entries }
    }

    /// Render the sequence back to assembly text.
    pub fn render(&self) -> (r: String)
        ensures
            r@ == render_entries(self@),
    {
        let mut out: Vec<char> = Vec::new();
        let n: usize = self.entries.len();
        let mut idx: usize = 0;
        while idx < n
            invariant
                idx <= n,
                n == self.entries@.len(),
                out@ == render_entries(self@.subrange(0, idx as int)),
            decreases n - idx,
        {
            let ghost prev = out@;
            proof {
                assert(self@[idx as int] == self.entries@[idx as int]@);
            }
            match &self.entries[idx] {
                Entry::Label(name) => {
                    out.push('\n');
                    out.push('.');
                    push_chars(&mut out, name);
                    out.push(':');
                    out.push('\n');
                    assert(out@ =~= prev + render_entry(self@[idx as int]));
                },
                Entry::Instr { mnemonic, operands } => {
                    out.push('\t');
                    push_chars(&mut out, mnemonic);
                    let ghost mid = out@;
                    let m: usize = operands.len();
                    let mut j: usize = 0;
                    assert(operands@.subrange(0, 0) =~= Seq::<T>::empty());
                    while j < m
                        invariant
                            j <= m,
                            m == operands@.len(),
                            out@ == mid + render_ops(operands@.subrange(0, j as int)),
                        decreases m - j,
                    {
                        let ghost inner_prev = out@;
                        out.push(' ');
                        let piece = operands[j].render();
                        push_chars(&mut out, &piece);
                        proof {
                            let pre1 = operands@.subrange(0, j + 1 as int);
                            assert(pre1.drop_last() =~= operands@.subrange(0, j as int));
                            assert(pre1.last() == operands@[j as int]);
                            assert(out@ =~= mid + render_ops(pre1));
                        }
                        j += 1;
                    }
                    assert(operands@.subrange(0, m as int) =~= operands@);
                    out.push('\n');
                    assert(out@ =~= prev + render_entry(self@[idx as int]));
                },
            }
            proof {
                let pre1 = self@.subrange(0, idx + 1 as int);
                assert(pre1.drop_last() =~= self@.subrange(0, idx as int));
                assert(pre1.last() == self@[idx as int]);
                assert(out@ =~= render_entries(pre1));
            }
            idx += 1;
        }
        assert(self@.subrange(0, n as int) =~= self@);
        chars_to_string(&out)
    }
}

} // verus!
