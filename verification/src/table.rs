//! Instruction descriptors and the mnemonic lookup table.
//!
//! A descriptor maps a mnemonic to an opcode, an operand arity and a
//! caller-supplied handler value. The handler type is opaque to the
//! assembler: parsing never calls it.

use vstd::prelude::*;
use crate::text::str_to_chars;

verus! {

/// One instruction descriptor: name, opcode, operand arity and handler.
pub struct Instruction<H> {
    pub op_code: usize,
    pub name: Vec<char>,
    pub arity: usize,
    pub handler: H,
}

impl<H> Instruction<H> {
    pub fn new(op_code: usize, name: &str, arity: usize, handler: H) -> (r: Self)
        ensures
            r.op_code == op_code,
            r.name@ == name@,
            r.arity == arity,
            r.handler == handler,
    {
        Instruction { op_code, name: str_to_chars(name), arity, handler }
    }
}

/// First descriptor in `entries` whose name reads as `name`, if any.
pub open spec fn spec_by_name<H>(entries: Seq<Instruction<H>>, name: Seq<char>) -> Option<
    Instruction<H>,
>
    decreases entries.len(),
{
    if entries.len() == 0 {
        None
    } else if entries[0].name@ == name {
        Some(entries[0])
    } else {
        spec_by_name(entries.drop_first(), name)
    }
}

/// Read-only mnemonic lookup table, filled once and then shared by any
/// number of parses.
pub struct InstructionTable<H> {
    entries: Vec<Instruction<H>>,
}

impl<H> View for InstructionTable<H> {
    type V = Seq<Instruction<H>>;

    closed spec fn view(&self) -> Seq<Instruction<H>> {
        self.entries@
    }
}

/// The two character sequences are equal.
pub fn chars_eq(a: &Vec<char>, b: &Vec<char>) -> (r: bool)
    ensures
        r == (a@ == b@),
{
    if a.len() != b.len() {
        return false;
    }
    let n: usize = a.len();
    let mut i: usize = 0;
    while i < n
        invariant
            i <= n,
            n == a@.len() == b@.len(),
            forall|k: int| 0 <= k < i ==> a@[k] == b@[k],
        decreases n - i,
    {
        if a[i] != b[i] {
            return false;
        }
        i += 1;
    }
    assert(a@ =~= b@);
    true
}

impl<H> InstructionTable<H> {
    pub fn new() -> (r: Self)
        ensures
            r@ == Seq::<Instruction<H>>::empty(),
    {
        InstructionTable { entries: Vec::new() }
    }

    /// Register one descriptor, after those already present.
    pub fn insert(&mut self, instr: Instruction<H>)
        ensures
            final(self)@ == old(self)@.push(instr),
    {
        self.entries.push(instr);
    }

    /// Exact-match lookup of a mnemonic.
    pub fn by_name(&self, name: &Vec<char>) -> (r: Option<&Instruction<H>>)
        ensures
            match r {
                Some(ins) => spec_by_name(self@, name@) == Some(*ins),
                None => spec_by_name(self@, name@) is None,
            },
    {
        let n: usize = self.entries.len();
        let mut i: usize = 0;
        assert(self.entries@.skip(0) =~= self.entries@);
        while i < n
            invariant
                i <= n,
                n == self.entries@.len(),
                spec_by_name(self.entries@, name@) == spec_by_name(
                    self.entries@.skip(i as int),
                    name@,
                ),
            decreases n - i,
        {
            proof {
                assert(self.entries@.skip(i as int)[0] == self.entries@[i as int]);
                assert(self.entries@.skip(i as int).drop_first() =~= self.entries@.skip(
                    i as int + 1,
                ));
            }
            if chars_eq(&self.entries[i].name, name) {
                return Some(&self.entries[i]);
            }
            i += 1;
        }
        assert(self.entries@.skip(n as int) =~= Seq::<Instruction<H>>::empty());
        None
    }
}

} // verus!
