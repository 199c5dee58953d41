//! The instruction forms the code generator emits, their assembly text,
//! and their meaning.
//!
//! [`Instr`] is the ghost image of one emitted instruction group element;
//! [`instr_text`] is the exact text the generator writes for it. A
//! [`MachineState`] gives the three registers the generator uses their
//! idealized integer semantics: [`run`] executes a straight-line
//! instruction sequence against the data section, so that contracts can
//! speak about the value the destination register holds at runtime.

use vstd::prelude::*;

use crate::compiler::SpecSlot;

verus! {

/// One element of an emitted instruction group. Slot operands carry the
/// slot's name.
pub enum Instr {
    /// `xor rdi, rdi`: zero the destination register.
    ZeroDest,
    /// `mov rdi, <text>`: a direct move of literal text.
    MovDestImm { text: Seq<char> },
    /// `mov rdi, [<slot>]`: move a slot's value into the destination.
    MovDestSlot { slot: Seq<char> },
    /// `add rdi, [<slot>]`: add a slot's value into the destination.
    AddDestSlot { slot: Seq<char> },
    /// `sub rdi, [<slot>]`: subtract a slot's value from the destination.
    SubDestSlot { slot: Seq<char> },
    /// `mov rax, [<slot>]`: load the first factor scratch register.
    MovAxSlot { slot: Seq<char> },
    /// `mov rbx, [<slot>]`: load the second factor scratch register.
    MovBxSlot { slot: Seq<char> },
    /// `imul rbx`: multiply the scratch registers into the first.
    MulAxBx,
    /// `add rdi, rax`: flush a pending product into the destination.
    AddDestAx,
    /// `mov rax, 60` + `syscall`: exit with the destination as status.
    ExitCall,
}

/// The exact text line (or lines) emitted for one instruction.
pub open spec fn instr_text(i: Instr) -> Seq<char> {
    match i {
        Instr::ZeroDest => "    xor rdi, rdi\n"@,
        Instr::MovDestImm { text } => "    mov rdi, "@ + text + "\n"@,
        Instr::MovDestSlot { slot } => "    mov rdi, ["@ + slot + "]\n"@,
        Instr::AddDestSlot { slot } => "    add rdi, ["@ + slot + "]\n"@,
        Instr::SubDestSlot { slot } => "    sub rdi, ["@ + slot + "]\n"@,
        Instr::MovAxSlot { slot } => "    mov rax, ["@ + slot + "]\n"@,
        Instr::MovBxSlot { slot } => "    mov rbx, ["@ + slot + "]\n"@,
        Instr::MulAxBx => "    imul rbx\n"@,
        Instr::AddDestAx => "    add rdi, rax\n"@,
        Instr::ExitCall => "    mov rax, 60\n    syscall\n"@,
    }
}

/// The text of an instruction sequence, in order.
pub open spec fn instrs_text(s: Seq<Instr>) -> Seq<char>
    decreases s.len(),
{
    if s.len() == 0 {
        Seq::empty()
    } else {
        instrs_text(s.drop_last()) + instr_text(s.last())
    }
}

pub proof fn lemma_instrs_text_concat(a: Seq<Instr>, b: Seq<Instr>)
    ensures
        instrs_text(a + b) == instrs_text(a) + instrs_text(b),
    decreases b.len(),
{
    if b.len() == 0 {
        assert(a + b =~= a);
        assert(instrs_text(a) + instrs_text(b) =~= instrs_text(a));
    } else {
        lemma_instrs_text_concat(a, b.drop_last());
        assert((a + b).drop_last() =~= a + b.drop_last());
        assert((a + b).last() == b.last());
        assert(instrs_text(a) + (instrs_text(b.drop_last()) + instr_text(b.last())) =~= (
        instrs_text(a) + instrs_text(b.drop_last())) + instr_text(b.last()));
    }
}

/// The registers the generator uses, with idealized (unbounded) integer
/// contents: the destination register and the two scratch registers.
pub struct MachineState {
    pub rdi: int,
    pub rax: int,
    pub rbx: int,
}

/// The numeric value of one decimal digit; other characters count as 0.
pub open spec fn digit_val(c: char) -> int {
    if '0' <= c && c <= '9' {
        (c as u32) - ('0' as u32)
    } else {
        0
    }
}

/// The numeric value of a decimal literal text.
pub open spec fn lit_val(s: Seq<char>) -> int
    decreases s.len(),
{
    if s.len() == 0 {
        0
    } else {
        lit_val(s.drop_last()) * 10 + digit_val(s.last())
    }
}

/// The data section as a map from slot name to the numeric value stored
/// there; later slots of the same name shadow earlier ones.
pub open spec fn data_map(slots: Seq<SpecSlot>) -> Map<Seq<char>, int>
    decreases slots.len(),
{
    if slots.len() == 0 {
        Map::empty()
    } else {
        data_map(slots.drop_last()).insert(slots.last().name, lit_val(slots.last().value))
    }
}

/// The effect of one instruction on the registers, reading slot operands
/// from the data section.
pub open spec fn step(m: MachineState, i: Instr, data: Map<Seq<char>, int>) -> MachineState {
    match i {
        Instr::ZeroDest => MachineState { rdi: 0, ..m },
        Instr::MovDestImm { text } => MachineState { rdi: lit_val(text), ..m },
        Instr::MovDestSlot { slot } => MachineState { rdi: data[slot], ..m },
        Instr::AddDestSlot { slot } => MachineState { rdi: m.rdi + data[slot], ..m },
        Instr::SubDestSlot { slot } => MachineState { rdi: m.rdi - data[slot], ..m },
        Instr::MovAxSlot { slot } => MachineState { rax: data[slot], ..m },
        Instr::MovBxSlot { slot } => MachineState { rbx: data[slot], ..m },
        Instr::MulAxBx => MachineState { rax: m.rax * m.rbx, ..m },
        Instr::AddDestAx => MachineState { rdi: m.rdi + m.rax, ..m },
        Instr::ExitCall => MachineState { rax: 60, ..m },
    }
}

/// Straight-line execution of an instruction sequence.
pub open spec fn run(m: MachineState, instrs: Seq<Instr>, data: Map<Seq<char>, int>) -> MachineState
    decreases instrs.len(),
{
    if instrs.len() == 0 {
        m
    } else {
        run(step(m, instrs[0], data), instrs.drop_first(), data)
    }
}

/// Execution splits over concatenation.
pub proof fn lemma_run_concat(
    m: MachineState,
    a: Seq<Instr>,
    b: Seq<Instr>,
    data: Map<Seq<char>, int>,
)
    ensures
        run(m, a + b, data) == run(run(m, a, data), b, data),
    decreases a.len(),
{
    if a.len() == 0 {
        assert(a + b =~= b);
    } else {
        assert((a + b)[0] == a[0]);
        assert((a + b).drop_first() =~= a.drop_first() + b);
        lemma_run_concat(step(m, a[0], data), a.drop_first(), b, data);
    }
}

} // verus!
