//! An assembly listing under construction. The vector instructions are
//! emitted as bytes, the scalar scaffolding as text: the card's assembler
//! has no MVEX mnemonics, and Knights Corner is x86-64 for the rest.
use crate::mvex::encode::{Insn, InsnV};
use crate::mvex::reg::Gpr;
use crate::text;
use vstd::prelude::*;

verus! {

/// The text of a listing.
pub struct Listing {
    pub s: Seq<char>,
}

impl Listing {
    pub open spec fn empty() -> Listing {
        Listing { s: seq![] }
    }

    /// With text appended.
    #[verifier::opaque]
    pub open spec fn lit(self, x: Seq<char>) -> Listing {
        Listing { s: self.s + x }
    }

    /// With a number appended.
    #[verifier::opaque]
    pub open spec fn num(self, n: int) -> Listing {
        self.lit(text::signed(n))
    }

    /// With a register name appended.
    pub open spec fn reg(self, g: Gpr) -> Listing {
        self.lit(g.spec_name())
    }

    /// With a vector instruction appended, on a line of its own.
    #[verifier::opaque]
    pub open spec fn i(self, x: InsnV) -> Listing {
        self.lit(x.gas()).lit("\n"@)
    }

    /// With a line of assembly text appended.
    #[verifier::opaque]
    pub open spec fn t(self, x: Seq<char>) -> Listing {
        self.lit("    "@).lit(x).lit("\n"@)
    }

    /// With a line `op $n, %reg` appended.
    #[verifier::opaque]
    pub open spec fn t_imm(self, op: Seq<char>, n: int, g: Gpr) -> Listing {
        self.lit("    "@).lit(op).lit(" $"@).num(n).lit(", %"@).reg(g).lit("\n"@)
    }

    /// With a line `test %reg, %reg` appended.
    #[verifier::opaque]
    pub open spec fn test_reg(self, g: Gpr) -> Listing {
        self.lit("    test %"@).reg(g).lit(", %"@).reg(g).lit("\n"@)
    }

    /// With a line `dec %reg` appended.
    #[verifier::opaque]
    pub open spec fn dec_reg(self, g: Gpr) -> Listing {
        self.lit("    dec %"@).reg(g).lit("\n"@)
    }

    /// With a line `mov %from, %to` appended.
    #[verifier::opaque]
    pub open spec fn mov_reg(self, from: Gpr, to: Gpr) -> Listing {
        self.lit("    mov %"@).reg(from).lit(", %"@).reg(to).lit("\n"@)
    }

    /// With a jump to a label appended, the next one or the last.
    #[verifier::opaque]
    pub open spec fn jump(self, op: Seq<char>, label: Seq<char>, forward: bool) -> Listing {
        self.lit("    "@).lit(op).lit(" "@).lit(label).lit(
            if forward {
                "f\n"@
            } else {
                "b\n"@
            },
        )
    }

    /// With a label to jump to appended, on a line of its own.
    #[verifier::opaque]
    pub open spec fn mark(self, label: Seq<char>, indented: bool) -> Listing {
        if indented {
            self.lit("    "@).lit(label).lit(":\n"@)
        } else {
            self.lit(label).lit(":\n"@)
        }
    }

    /// With every instruction of `s` appended, in order.
    #[verifier::opaque]
    pub open spec fn all(self, s: Seq<InsnV>) -> Listing
        decreases s.len(),
    {
        if s.len() == 0 {
            self
        } else {
            self.all(s.drop_last()).i(s.last())
        }
    }

    /// The directives and the label a function begins with.
    #[verifier::opaque]
    pub open spec fn label(self, name: Seq<char>) -> Listing {
        self.lit("    .globl "@).lit(name).lit("\n    .type "@).lit(name).lit(
            ", @function\n"@,
        ).lit(name).lit(":\n"@)
    }

    /// The size directive a function ends with.
    #[verifier::opaque]
    pub open spec fn size(self, name: Seq<char>) -> Listing {
        self.lit("    .size "@).lit(name).lit(", .-"@).lit(name).lit("\n\n"@)
    }

    /// One more instruction of a list.
    pub proof fn lemma_take(self, s: Seq<InsnV>, i: int)
        requires
            0 <= i < s.len(),
        ensures
            self.all(s.take(i + 1)) == self.all(s.take(i)).i(s[i]),
    {
        reveal(Listing::all);
        assert(s.take(i + 1).drop_last() =~= s.take(i));
    }

    /// None, or all, of the instructions of a list.
    pub proof fn lemma_ends(self, s: Seq<InsnV>)
        ensures
            self.all(s.take(0)) == self,
            self.all(s.take(s.len() as int)) == self.all(s),
    {
        reveal(Listing::all);
        assert(s.take(0) =~= seq![]);
        assert(s.take(s.len() as int) =~= s);
    }
}

/// A listing under construction.
pub struct Asm(pub String);

impl View for Asm {
    type V = Listing;

    open spec fn view(&self) -> Listing {
        Listing { s: self.0@ }
    }
}

impl Asm {
    /// An empty listing.
    pub fn new() -> (a: Asm)
        ensures
            a@ == Listing::empty(),
    {
        let a = Asm(String::new());
        assert(a.0@ =~= seq![]);
        a
    }

    /// Appends text.
    pub fn lit(&mut self, x: &str)
        ensures
            final(self)@ == old(self)@.lit(x@),
    {
        reveal(Listing::lit);
        self.0.append(x);
    }

    /// Appends a number.
    pub fn num(&mut self, n: i32)
        ensures
            final(self)@ == old(self)@.num(n as int),
    {
        reveal(Listing::num);
        reveal(Listing::lit);
        text::push_signed(&mut self.0, n);
    }

    /// Appends a vector instruction, on a line of its own.
    pub fn i(&mut self, x: &Insn)
        ensures
            final(self)@ == old(self)@.i(x@),
    {
        reveal(Listing::i);
        let g = x.gas();
        self.lit(g.as_str());
        self.lit("\n");
    }

    /// Appends a line of assembly text.
    pub fn t(&mut self, x: &str)
        ensures
            final(self)@ == old(self)@.t(x@),
    {
        reveal(Listing::t);
        self.lit("    ");
        self.lit(x);
        self.lit("\n");
    }

    /// Appends a line `op $n, %reg`.
    pub fn t_imm(&mut self, op: &str, n: i32, g: Gpr)
        ensures
            final(self)@ == old(self)@.t_imm(op@, n as int, g),
    {
        reveal(Listing::t_imm);
        self.lit("    ");
        self.lit(op);
        self.lit(" $");
        self.num(n);
        self.lit(", %");
        self.lit(g.name());
        self.lit("\n");
    }

    /// Appends a line `test %reg, %reg`.
    pub fn test_reg(&mut self, g: Gpr)
        ensures
            final(self)@ == old(self)@.test_reg(g),
    {
        reveal(Listing::test_reg);
        self.lit("    test %");
        self.lit(g.name());
        self.lit(", %");
        self.lit(g.name());
        self.lit("\n");
    }

    /// Appends a line `dec %reg`.
    pub fn dec_reg(&mut self, g: Gpr)
        ensures
            final(self)@ == old(self)@.dec_reg(g),
    {
        reveal(Listing::dec_reg);
        self.lit("    dec %");
        self.lit(g.name());
        self.lit("\n");
    }

    /// Appends a line `mov %from, %to`.
    pub fn mov_reg(&mut self, from: Gpr, to: Gpr)
        ensures
            final(self)@ == old(self)@.mov_reg(from, to),
    {
        reveal(Listing::mov_reg);
        self.lit("    mov %");
        self.lit(from.name());
        self.lit(", %");
        self.lit(to.name());
        self.lit("\n");
    }

    /// Appends a jump to a label, the next one or the last.
    pub fn jump(&mut self, op: &str, label: &str, forward: bool)
        ensures
            final(self)@ == old(self)@.jump(op@, label@, forward),
    {
        reveal(Listing::jump);
        self.lit("    ");
        self.lit(op);
        self.lit(" ");
        self.lit(label);
        self.lit(if forward { "f\n" } else { "b\n" });
    }

    /// Appends a label to jump to, on a line of its own.
    pub fn mark(&mut self, label: &str, indented: bool)
        ensures
            final(self)@ == old(self)@.mark(label@, indented),
    {
        reveal(Listing::mark);
        if indented {
            self.lit("    ");
        }
        self.lit(label);
        self.lit(":\n");
    }

    /// Appends the directives and the label a function begins with.
    pub fn label(&mut self, name: &str)
        ensures
            final(self)@ == old(self)@.label(name@),
    {
        reveal(Listing::label);
        self.lit("    .globl ");
        self.lit(name);
        self.lit("\n    .type ");
        self.lit(name);
        self.lit(", @function\n");
        self.lit(name);
        self.lit(":\n");
    }

    /// Appends the size directive a function ends with.
    pub fn size(&mut self, name: &str)
        ensures
            final(self)@ == old(self)@.size(name@),
    {
        reveal(Listing::size);
        self.lit("    .size ");
        self.lit(name);
        self.lit(", .-");
        self.lit(name);
        self.lit("\n\n");
    }
}

} // verus!
