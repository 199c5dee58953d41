//! Code generation: flattens bindings into uniquely named data slots and
//! resolves `exit` statements into arithmetic reduction sequences.
//!
//! The generator keeps one slot table and one set of naming counters for
//! the whole pass. Lowering a binding walks its expression tree (right
//! operand first, and forcing the multiplication context onto the right
//! operand of a `*` node), allocating one slot per literal leaf under a
//! name that encodes binding, operator kind, occurrence and chain index.
//! Resolving an `exit` of a bound name collects the binding's slots,
//! sorts them lexicographically by name, and reduces them: additive slots
//! accumulate directly into the destination register, multiplicative
//! runs are paired into a product in the scratch registers and flushed
//! when the run ends. The whole pass is mirrored by total spec functions,
//! so [`Compiler::compile`] is a pure function of its input:
//! [`spec_compile`] gives the exact output text.

use vstd::prelude::*;

use crate::lexer::{OperatorType, Token, TokenType};
use crate::machine::{instr_text, instrs_text, lemma_instrs_text_concat, Instr};
use crate::parser::{NodeExprs, NodeRoot, NodeStmt};
use crate::CompileError;

verus! {

/// The mathematical image of a [`Slot`].
pub struct SpecSlot {
    pub name: Seq<char>,
    pub owner: Seq<char>,
    pub value: Seq<char>,
    pub operator: Option<OperatorType>,
    pub width: u64,
}

/// One uniquely named, fixed-width data location holding one literal
/// operand discovered during lowering.
pub struct Slot {
    /// The generated name, globally unique across the pass.
    pub name: String,
    /// The binding this slot belongs to.
    pub owner: String,
    /// The literal text stored in the slot.
    pub value: String,
    /// The operator context the literal was reached under, if any.
    pub operator: Option<OperatorType>,
    /// The slot's width in bits.
    pub width: u64,
}

impl View for Slot {
    type V = SpecSlot;

    open spec fn view(&self) -> SpecSlot {
        SpecSlot {
            name: self.name@,
            owner: self.owner@,
            value: self.value@,
            operator: self.operator,
            width: self.width,
        }
    }
}

impl Clone for Slot {
    fn clone(&self) -> (s: Slot)
        ensures
            s@ == self@,
    {
        Slot {
            name: self.name.clone(),
            owner: self.owner.clone(),
            value: self.value.clone(),
            operator: self.operator,
            width: self.width,
        }
    }
}

/// The views of a sequence of slots.
pub open spec fn slots_view(s: Seq<Slot>) -> Seq<SpecSlot> {
    s.map_values(|x: Slot| x@)
}

pub proof fn lemma_slots_view_push(s: Seq<Slot>, x: Slot)
    ensures
        slots_view(s.push(x)) == slots_view(s).push(x@),
{
    assert(slots_view(s.push(x)) =~= slots_view(s).push(x@));
}

/// The decimal digit character for `n < 10`.
pub open spec fn digit_char(n: nat) -> char {
    if n == 0 {
        '0'
    } else if n == 1 {
        '1'
    } else if n == 2 {
        '2'
    } else if n == 3 {
        '3'
    } else if n == 4 {
        '4'
    } else if n == 5 {
        '5'
    } else if n == 6 {
        '6'
    } else if n == 7 {
        '7'
    } else if n == 8 {
        '8'
    } else {
        '9'
    }
}

/// The decimal rendering of a natural number, most significant digit
/// first.
pub open spec fn spec_dec(n: nat) -> Seq<char>
    decreases n,
{
    if n < 10 {
        seq![digit_char(n)]
    } else {
        spec_dec(n / 10) + seq![digit_char(n % 10)]
    }
}

/// The name of an operator kind, as it appears inside slot names.
pub open spec fn op_name(op: OperatorType) -> Seq<char> {
    match op {
        OperatorType::Plus => "Plus"@,
        OperatorType::Minus => "Minus"@,
        OperatorType::Multiply => "Multiply"@,
        OperatorType::Equals => "Equals"@,
    }
}

/// The size letter of a declaration directive, from the width in bits:
/// `dq` declares a 64-bit quadword.
pub open spec fn width_char(w: u64) -> char {
    if w == 8 {
        'b'
    } else if w == 16 {
        'w'
    } else if w == 32 {
        'd'
    } else if w == 80 {
        't'
    } else if w == 128 {
        'o'
    } else if w == 256 {
        'y'
    } else if w == 512 {
        'z'
    } else {
        'q'
    }
}

/// The declaration line of one slot in the data section.
pub open spec fn slot_line(s: SpecSlot) -> Seq<char> {
    "    "@ + s.name + " d"@ + seq![width_char(s.width)] + " "@ + s.value + "\n"@
}

/// The whole data section body: one declaration line per slot, in
/// allocation order.
pub open spec fn data_text(slots: Seq<SpecSlot>) -> Seq<char>
    decreases slots.len(),
{
    if slots.len() == 0 {
        Seq::empty()
    } else {
        data_text(slots.drop_last()) + slot_line(slots.last())
    }
}

/// The whole text section body: the emitted instruction groups in
/// statement order.
pub open spec fn groups_text(groups: Seq<Seq<Instr>>) -> Seq<char>
    decreases groups.len(),
{
    if groups.len() == 0 {
        Seq::empty()
    } else {
        groups_text(groups.drop_last()) + instrs_text(groups.last())
    }
}

/// The naming counters of the lowering pass: the last operator kind
/// processed, one occurrence counter per operator kind (absent until
/// that kind is left and re-entered), and the chain index inside the
/// current run of same-operator siblings.
pub struct LowerState {
    pub last: OperatorType,
    pub occ_plus: Option<usize>,
    pub occ_minus: Option<usize>,
    pub occ_multiply: Option<usize>,
    pub occ_equals: Option<usize>,
    pub chain: usize,
}

/// The counters at the start of a pass.
pub open spec fn initial_lower_state() -> LowerState {
    LowerState {
        last: OperatorType::Plus,
        occ_plus: None,
        occ_minus: None,
        occ_multiply: None,
        occ_equals: None,
        chain: 0,
    }
}

pub open spec fn occ_get(st: LowerState, op: OperatorType) -> Option<usize> {
    match op {
        OperatorType::Plus => st.occ_plus,
        OperatorType::Minus => st.occ_minus,
        OperatorType::Multiply => st.occ_multiply,
        OperatorType::Equals => st.occ_equals,
    }
}

pub open spec fn occ_with(st: LowerState, op: OperatorType, v: Option<usize>) -> LowerState {
    match op {
        OperatorType::Plus => LowerState { occ_plus: v, ..st },
        OperatorType::Minus => LowerState { occ_minus: v, ..st },
        OperatorType::Multiply => LowerState { occ_multiply: v, ..st },
        OperatorType::Equals => LowerState { occ_equals: v, ..st },
    }
}

/// The occurrence counter read for naming: an absent counter reads as 0.
pub open spec fn occ_read(st: LowerState, op: OperatorType) -> usize {
    match occ_get(st, op) {
        Some(n) => n,
        None => 0,
    }
}

pub open spec fn sat_inc(n: usize) -> usize {
    if n < usize::MAX {
        (n + 1) as usize
    } else {
        n
    }
}

/// The counter update made whenever a leaf or node is reached under an
/// operator context: the same kind as last time extends the chain, a
/// different kind bumps that kind's occurrence counter (first use sets
/// it to 0) and resets the chain.
pub open spec fn spec_note(st: LowerState, op: OperatorType) -> LowerState {
    if op == st.last {
        LowerState { chain: sat_inc(st.chain), last: op, ..st }
    } else {
        let bumped = match occ_get(st, op) {
            Some(n) => occ_with(st, op, Some(sat_inc(n))),
            None => occ_with(st, op, Some(0)),
        };
        LowerState { chain: 0, last: op, ..bumped }
    }
}

/// The generated slot name: binding, operator name, occurrence and chain
/// index, joined by underscores.
pub open spec fn slot_name(binding: Seq<char>, op: OperatorType, occurrence: nat, chain: nat) -> Seq<
    char,
> {
    binding + "_"@ + op_name(op) + "_"@ + spec_dec(occurrence) + "_"@ + spec_dec(chain)
}

/// The whole state of one compile pass: the slot table in allocation
/// order, the naming counters, and the instruction groups emitted so
/// far. The data and text regions are [`data_text`] and [`groups_text`]
/// of it.
pub struct CState {
    pub slots: Seq<SpecSlot>,
    pub lstate: LowerState,
    pub groups: Seq<Seq<Instr>>,
}

pub open spec fn initial_cstate() -> CState {
    CState { slots: Seq::empty(), lstate: initial_lower_state(), groups: Seq::empty() }
}

/// Whether a slot of this name already exists.
pub open spec fn has_name(slots: Seq<SpecSlot>, name: Seq<char>) -> bool {
    exists|i: int| 0 <= i < slots.len() && slots[i].name == name
}

/// Allocation of one slot: fails on a name collision, else appends.
pub open spec fn spec_add_slot(cs: CState, s: SpecSlot) -> Result<CState, CompileError> {
    if has_name(cs.slots, s.name) {
        Err(CompileError::SlotNameCollision)
    } else {
        Ok(CState { slots: cs.slots.push(s), ..cs })
    }
}

/// Lowering of one expression under a binding name and an operator
/// context: counters are noted first, a literal leaf allocates one slot
/// (named after the binding alone when no context exists), and a binary
/// node recurses right first, forcing the multiplication context onto
/// the right operand of a `*` node.
pub open spec fn spec_lower_alloc(
    e: NodeExprs,
    binding: Seq<char>,
    ctx: Option<OperatorType>,
    cs: CState,
) -> Result<CState, CompileError>
    decreases e,
{
    let st1 = match ctx {
        Some(o) => spec_note(cs.lstate, o),
        None => cs.lstate,
    };
    let cs1 = CState { lstate: st1, ..cs };
    match e {
        NodeExprs::Number(t) => {
            let nm = match ctx {
                Some(o) => slot_name(binding, o, occ_read(st1, o) as nat, st1.chain as nat),
                None => binding,
            };
            spec_add_slot(
                cs1,
                SpecSlot { name: nm, owner: binding, value: t.value@, operator: ctx, width: 64 },
            )
        },
        NodeExprs::BinOp(l, opt, r) => match opt.op_type {
            None => Err(CompileError::MissingOperatorKind),
            Some(this_op) => {
                let rctx = match ctx {
                    Some(o) => if this_op == OperatorType::Multiply {
                        Some(this_op)
                    } else {
                        Some(o)
                    },
                    None => None,
                };
                match spec_lower_alloc(*r, binding, rctx, cs1) {
                    Err(err) => Err(err),
                    Ok(cs2) => spec_lower_alloc(*l, binding, Some(this_op), cs2),
                }
            },
        },
        _ => Ok(cs1),
    }
}

/// The slots that belong to a binding, in allocation order.
pub open spec fn binding_slots(slots: Seq<SpecSlot>, owner: Seq<char>) -> Seq<SpecSlot> {
    slots.filter(|s: SpecSlot| s.owner == owner)
}

/// Strict lexicographic order on character sequences, by code point; a
/// proper prefix comes first.
pub open spec fn lex_lt(a: Seq<char>, b: Seq<char>) -> bool
    decreases a.len(),
{
    if b.len() == 0 {
        false
    } else if a.len() == 0 {
        true
    } else if a[0] != b[0] {
        (a[0] as u32) < (b[0] as u32)
    } else {
        lex_lt(a.drop_first(), b.drop_first())
    }
}

/// Stable insertion into a name-sorted slot sequence: the new slot goes
/// before the first strictly greater name.
pub open spec fn spec_insert(s: SpecSlot, sorted: Seq<SpecSlot>) -> Seq<SpecSlot>
    decreases sorted.len(),
{
    if sorted.len() == 0 {
        seq![s]
    } else if lex_lt(s.name, sorted[0].name) {
        seq![s] + sorted
    } else {
        seq![sorted[0]] + spec_insert(s, sorted.drop_first())
    }
}

/// Stable insertion sort of slots, lexicographically by name.
pub open spec fn spec_sort(v: Seq<SpecSlot>) -> Seq<SpecSlot>
    decreases v.len(),
{
    if v.len() == 0 {
        Seq::empty()
    } else {
        spec_insert(v.last(), spec_sort(v.drop_last()))
    }
}

/// The reduction from position `i` of the sorted slots, carrying the
/// last operator kind seen and the chain index within its run:
/// - a slot without an operator moves its value directly into the
///   destination register and stops (the single-slot case);
/// - `Plus` and `Minus` slots accumulate directly;
/// - a `Multiply` slot opening a run pairs with the next slot into a
///   product in the scratch registers, later run members multiply in
///   singly; the pending product is flushed into the destination
///   exactly when the run ends (at a different operator or at the end);
/// - an `Equals` operator here is a fatal internal-consistency failure,
///   as is a run-opening `Multiply` with no slot left to pair with.
pub open spec fn spec_reduce_from(
    slots: Seq<SpecSlot>,
    i: int,
    last: OperatorType,
    chain: usize,
) -> Result<Seq<Instr>, CompileError>
    decreases slots.len() - i,
{
    if i < 0 || i >= slots.len() {
        Ok(Seq::empty())
    } else {
        let s = slots[i];
        match s.operator {
            None => Ok(seq![Instr::MovDestSlot { slot: s.name }]),
            Some(op) => {
                let chain2: usize = if op == last {
                    sat_inc(chain)
                } else {
                    0
                };
                let flush: Seq<Instr> = if op != last && last == OperatorType::Multiply {
                    seq![Instr::AddDestAx]
                } else {
                    Seq::empty()
                };
                match op {
                    OperatorType::Plus => match spec_reduce_from(slots, i + 1, op, chain2) {
                        Err(err) => Err(err),
                        Ok(rest) => Ok(flush + seq![Instr::AddDestSlot { slot: s.name }] + rest),
                    },
                    OperatorType::Minus => match spec_reduce_from(slots, i + 1, op, chain2) {
                        Err(err) => Err(err),
                        Ok(rest) => Ok(flush + seq![Instr::SubDestSlot { slot: s.name }] + rest),
                    },
                    OperatorType::Multiply => {
                        if chain2 == 0 {
                            if i + 1 < slots.len() {
                                let here = flush + seq![
                                    Instr::MovAxSlot { slot: s.name },
                                    Instr::MovBxSlot { slot: slots[i + 1].name },
                                    Instr::MulAxBx,
                                ] + if i + 2 >= slots.len() {
                                    seq![Instr::AddDestAx]
                                } else {
                                    Seq::empty()
                                };
                                match spec_reduce_from(slots, i + 2, op, chain2) {
                                    Err(err) => Err(err),
                                    Ok(rest) => Ok(here + rest),
                                }
                            } else {
                                Err(CompileError::MissingFactor)
                            }
                        } else {
                            let here = seq![Instr::MovBxSlot { slot: s.name }, Instr::MulAxBx] + if i
                                + 1 >= slots.len() {
                                seq![Instr::AddDestAx]
                            } else {
                                Seq::empty()
                            };
                            match spec_reduce_from(slots, i + 1, op, chain2) {
                                Err(err) => Err(err),
                                Ok(rest) => Ok(here + rest),
                            }
                        }
                    },
                    OperatorType::Equals => Err(CompileError::EqualsInReduction),
                }
            },
        }
    }
}

/// The reduction of a sorted slot sequence, from its start.
pub open spec fn spec_reduce(slots: Seq<SpecSlot>) -> Result<Seq<Instr>, CompileError> {
    spec_reduce_from(slots, 0, OperatorType::Plus, 0)
}

/// The instruction group of one `exit` statement: an operand that is a
/// literal, or an identifier with no slots, is moved directly; a bound
/// identifier's slots are sorted by name and reduced, between zeroing
/// the destination and the process-exit call.
pub open spec fn spec_exit(cs: CState, t: Token) -> Result<CState, CompileError> {
    if t.token_type == TokenType::Identifier && binding_slots(cs.slots, t.value@).len() > 0 {
        match spec_reduce(spec_sort(binding_slots(cs.slots, t.value@))) {
            Err(err) => Err(err),
            Ok(instrs) => Ok(
                CState {
                    groups: cs.groups.push(
                        seq![Instr::ZeroDest] + instrs + seq![Instr::ExitCall],
                    ),
                    ..cs
                },
            ),
        }
    } else {
        Ok(
            CState {
                groups: cs.groups.push(
                    seq![Instr::MovDestImm { text: t.value@ }, Instr::ExitCall],
                ),
                ..cs
            },
        )
    }
}

/// The effect of one statement on the pass state: a binding lowers both
/// operands of its top node (or its single literal) into slots, an
/// `exit` emits one instruction group, and anything else is ignored.
#[verifier::opaque]
pub open spec fn spec_stmt(cs: CState, e: NodeExprs) -> Result<CState, CompileError> {
    match e {
        NodeExprs::Exit(t) => spec_exit(cs, t),
        NodeExprs::Let(tok, expr) => match *expr {
            NodeExprs::BinOp(l, opt, r) => match opt.op_type {
                None => Err(CompileError::MissingOperatorKind),
                Some(o) => match spec_lower_alloc(*l, tok.value@, Some(o), cs) {
                    Err(err) => Err(err),
                    Ok(cs2) => spec_lower_alloc(*r, tok.value@, Some(o), cs2),
                },
            },
            NodeExprs::Number(_t) => spec_lower_alloc(*expr, tok.value@, None, cs),
            _ => Ok(cs),
        },
        _ => Ok(cs),
    }
}

/// The pass over the statement list, in source order.
pub open spec fn spec_pass(cs: CState, stmts: Seq<NodeStmt>, i: int) -> Result<
    CState,
    CompileError,
>
    decreases stmts.len() - i,
{
    if i < 0 || i >= stmts.len() {
        Ok(cs)
    } else {
        match spec_stmt(cs, stmts[i].expr) {
            Err(err) => Err(err),
            Ok(cs2) => spec_pass(cs2, stmts, i + 1),
        }
    }
}

/// The final pass state of a program.
pub open spec fn spec_final_state(root: NodeRoot) -> Result<CState, CompileError> {
    spec_pass(initial_cstate(), root.stmts@, 0)
}

/// The exact assembly text of a program: header, data section and text
/// section concatenated, or the fault that aborted the pass.
pub open spec fn spec_compile(root: NodeRoot) -> Result<Seq<char>, CompileError> {
    match spec_final_state(root) {
        Err(err) => Err(err),
        Ok(cs) => Ok(
            "global _start\n"@ + "_start:\n"@ + "section .data\n"@ + data_text(cs.slots)
                + "section .text\n"@ + "_start:\n"@ + groups_text(cs.groups),
        ),
    }
}

/// Appends the decimal rendering of `n`, most significant digit first.
fn push_dec(s: &mut String, n: usize)
    ensures
        final(s)@ == old(s)@ + spec_dec(n as nat),
    decreases n,
{
    if n >= 10 {
        push_dec(s, n / 10);
    }
    let d = n % 10;
    let ds: &'static str = if d == 0 {
        "0"
    } else if d == 1 {
        "1"
    } else if d == 2 {
        "2"
    } else if d == 3 {
        "3"
    } else if d == 4 {
        "4"
    } else if d == 5 {
        "5"
    } else if d == 6 {
        "6"
    } else if d == 7 {
        "7"
    } else if d == 8 {
        "8"
    } else {
        "9"
    };
    proof {
        reveal_strlit("0");
        reveal_strlit("1");
        reveal_strlit("2");
        reveal_strlit("3");
        reveal_strlit("4");
        reveal_strlit("5");
        reveal_strlit("6");
        reveal_strlit("7");
        reveal_strlit("8");
        reveal_strlit("9");
        assert(ds@ =~= seq![digit_char((n % 10) as nat)]);
    }
    s.append(ds);
    proof {
        if n >= 10 {
            assert((n / 10) as nat == (n as nat) / 10);
            assert((n % 10) as nat == (n as nat) % 10);
            assert(s@ =~= old(s)@ + spec_dec(n as nat));
        } else {
            assert(s@ =~= old(s)@ + spec_dec(n as nat));
        }
    }
}

/// The operator's name as used inside slot names.
fn op_name_str(op: OperatorType) -> (r: &'static str)
    ensures
        r@ == op_name(op),
{
    match op {
        OperatorType::Plus => "Plus",
        OperatorType::Minus => "Minus",
        OperatorType::Multiply => "Multiply",
        OperatorType::Equals => "Equals",
    }
}

/// The size letter of a declaration directive, from the width in bits.
fn width_str(w: u64) -> (r: &'static str)
    ensures
        r@ == seq![width_char(w)],
{
    proof {
        reveal_strlit("b");
        reveal_strlit("w");
        reveal_strlit("d");
        reveal_strlit("t");
        reveal_strlit("o");
        reveal_strlit("y");
        reveal_strlit("z");
        reveal_strlit("q");
    }
    let r: &'static str = if w == 8 {
        "b"
    } else if w == 16 {
        "w"
    } else if w == 32 {
        "d"
    } else if w == 80 {
        "t"
    } else if w == 128 {
        "o"
    } else if w == 256 {
        "y"
    } else if w == 512 {
        "z"
    } else {
        "q"
    };
    proof {
        assert(r@ =~= seq![width_char(w)]);
    }
    r
}

/// Strict lexicographic comparison of two strings, by code point.
fn str_lt(a: &str, b: &str) -> (r: bool)
    ensures
        r == lex_lt(a@, b@),
{
    let alen = a.unicode_len();
    let blen = b.unicode_len();
    let mut k: usize = 0;
    proof {
        assert(a@.skip(0) =~= a@);
        assert(b@.skip(0) =~= b@);
    }
    while k < alen && k < blen
        invariant
            k <= alen,
            k <= blen,
            alen == a@.len(),
            blen == b@.len(),
            lex_lt(a@, b@) == lex_lt(a@.skip(k as int), b@.skip(k as int)),
        decreases alen - k,
    {
        let ca = a.get_char(k);
        let cb = b.get_char(k);
        if ca != cb {
            proof {
                assert(a@.skip(k as int)[0] == a@[k as int]);
                assert(b@.skip(k as int)[0] == b@[k as int]);
                assert(lex_lt(a@.skip(k as int), b@.skip(k as int)) == ((ca as u32) < (
                cb as u32)));
            }
            return (ca as u32) < (cb as u32);
        }
        proof {
            assert(a@.skip(k as int).drop_first() =~= a@.skip(k + 1 as int));
            assert(b@.skip(k as int).drop_first() =~= b@.skip(k + 1 as int));
            assert(a@.skip(k as int)[0] == b@.skip(k as int)[0]);
            assert(lex_lt(a@.skip(k as int), b@.skip(k as int)) == lex_lt(
                a@.skip(k + 1 as int),
                b@.skip(k + 1 as int),
            ));
        }
        k = k + 1;
    }
    proof {
        assert(lex_lt(a@.skip(k as int), b@.skip(k as int)) == (alen < blen));
    }
    alen < blen
}

/// The slots belonging to one binding, in allocation order.
fn collect_binding_slots(slots: &Vec<Slot>, owner: &String) -> (r: Vec<Slot>)
    ensures
        slots_view(r@) == binding_slots(slots_view(slots@), owner@),
{
    let ghost pred = |s: SpecSlot| s.owner == owner@;
    let mut out: Vec<Slot> = Vec::new();
    let mut k: usize = 0;
    proof {
        reveal(Seq::filter);
        assert(slots_view(out@) =~= Seq::<SpecSlot>::empty());
        assert(slots_view(slots@).subrange(0, 0) =~= Seq::<SpecSlot>::empty());
        assert(binding_slots(slots_view(slots@).subrange(0, 0), owner@) =~= Seq::<
            SpecSlot,
        >::empty());
    }
    while k < slots.len()
        invariant
            k <= slots@.len(),
            slots_view(out@) == binding_slots(slots_view(slots@).subrange(0, k as int), owner@),
        decreases slots@.len() - k,
    {
        let ghost pre = slots_view(slots@).subrange(0, k as int);
        let ghost post = slots_view(slots@).subrange(0, k + 1 as int);
        proof {
            reveal(Seq::filter);
            assert(post.drop_last() =~= pre);
            assert(post.last() == slots@[k as int]@);
        }
        if slots[k].owner == *owner {
            let c = slots[k].clone();
            proof {
                lemma_slots_view_push(out@, c);
            }
            out.push(c);
        }
        k = k + 1;
    }
    proof {
        assert(slots_view(slots@).subrange(0, slots@.len() as int) =~= slots_view(slots@));
    }
    out
}

/// Stable insertion into a name-sorted slot vector.
pub proof fn lemma_spec_insert_at(s: SpecSlot, v: Seq<SpecSlot>, j: int)
    requires
        0 <= j <= v.len(),
        forall|m: int| 0 <= m < j ==> !lex_lt(s.name, v[m].name),
        j < v.len() ==> lex_lt(s.name, v[j].name),
    ensures
        spec_insert(s, v) == v.insert(j, s),
    decreases v.len(),
{
    if v.len() == 0 {
        assert(spec_insert(s, v) =~= v.insert(0, s));
    } else if j == 0 {
        assert(spec_insert(s, v) =~= v.insert(0, s));
    } else {
        assert(!lex_lt(s.name, v[0].name));
        lemma_spec_insert_at(s, v.drop_first(), j - 1);
        assert(seq![v[0]] + v.drop_first().insert(j - 1, s) =~= v.insert(j, s));
    }
}

/// Inserts a slot into a name-sorted vector, before the first strictly
/// greater name.
fn insert_sorted(out: &mut Vec<Slot>, s: Slot)
    ensures
        slots_view(final(out)@) == spec_insert(s@, slots_view(old(out)@)),
{
    let mut j: usize = 0;
    while j < out.len() && !str_lt(s.name.as_str(), out[j].name.as_str())
        invariant
            j <= out@.len(),
            out@ == old(out)@,
            forall|m: int| 0 <= m < j ==> !lex_lt(s@.name, slots_view(out@)[m].name),
        decreases out@.len() - j,
    {
        j = j + 1;
    }
    proof {
        lemma_spec_insert_at(s@, slots_view(out@), j as int);
        assert(slots_view(out@).insert(j as int, s@) =~= slots_view(
            out@.insert(j as int, s),
        ));
    }
    out.insert(j, s);
}

/// Prefixing every instruction sequence of a reduction result.
pub open spec fn compose_reduce(pre: Seq<Instr>, r: Result<Seq<Instr>, CompileError>) -> Result<
    Seq<Instr>,
    CompileError,
> {
    match r {
        Ok(rest) => Ok(pre + rest),
        Err(err) => Err(err),
    }
}

pub proof fn lemma_compose_assoc(
    pre1: Seq<Instr>,
    pre2: Seq<Instr>,
    r: Result<Seq<Instr>, CompileError>,
)
    ensures
        compose_reduce(pre1, compose_reduce(pre2, r)) == compose_reduce(pre1 + pre2, r),
{
    match r {
        Ok(rest) => {
            assert(pre1 + (pre2 + rest) =~= (pre1 + pre2) + rest);
        },
        Err(_e) => {
        },
    }
}

pub proof fn lemma_instrs_text_push(x: Seq<Instr>, a: Instr)
    ensures
        instrs_text(x.push(a)) == instrs_text(x) + instr_text(a),
{
    assert(x.push(a).drop_last() =~= x);
    assert(x.push(a).last() == a);
}

/// One accepted statement advances the pass.
pub proof fn lemma_pass_step(cs: CState, stmts: Seq<NodeStmt>, i: int, cs2: CState)
    requires
        0 <= i < stmts.len(),
        spec_stmt(cs, stmts[i].expr) == Ok::<CState, CompileError>(cs2),
    ensures
        spec_pass(cs, stmts, i) == spec_pass(cs2, stmts, i + 1),
{
}

/// One refused statement aborts the pass.
pub proof fn lemma_pass_err(cs: CState, stmts: Seq<NodeStmt>, i: int, e: CompileError)
    requires
        0 <= i < stmts.len(),
        spec_stmt(cs, stmts[i].expr) == Err::<CState, CompileError>(e),
    ensures
        spec_pass(cs, stmts, i) == Err::<CState, CompileError>(e),
{
}

/// Sorts slots lexicographically by name, stably.
fn sort_slots(v: Vec<Slot>) -> (r: Vec<Slot>)
    ensures
        slots_view(r@) == spec_sort(slots_view(v@)),
{
    let mut out: Vec<Slot> = Vec::new();
    let mut k: usize = 0;
    proof {
        assert(slots_view(out@) =~= Seq::<SpecSlot>::empty());
        assert(slots_view(v@).subrange(0, 0) =~= Seq::<SpecSlot>::empty());
    }
    while k < v.len()
        invariant
            k <= v@.len(),
            slots_view(out@) == spec_sort(slots_view(v@).subrange(0, k as int)),
        decreases v@.len() - k,
    {
        let ghost pre = slots_view(v@).subrange(0, k as int);
        let ghost post = slots_view(v@).subrange(0, k + 1 as int);
        proof {
            assert(post.drop_last() =~= pre);
            assert(post.last() == v@[k as int]@);
        }
        let c = v[k].clone();
        insert_sorted(&mut out, c);
        k = k + 1;
    }
    proof {
        assert(slots_view(v@).subrange(0, v@.len() as int) =~= slots_view(v@));
    }
    out
}

pub proof fn lemma_instrs_text_one(a: Instr)
    ensures
        instrs_text(seq![a]) == instr_text(a),
{
    assert(seq![a].drop_last() =~= Seq::<Instr>::empty());
    assert(seq![a].last() == a);
    assert(instrs_text(Seq::<Instr>::empty()) == Seq::<char>::empty());
    assert(instrs_text(seq![a]) == instrs_text(Seq::<Instr>::empty()) + instr_text(a));
    assert(Seq::<char>::empty() + instr_text(a) =~= instr_text(a));
}

/// The code generator: one pass over the statement list, building the
/// data section (slot declarations) and the text section (instruction
/// groups) of the output.
pub struct Compiler {
    data_buffer: String,
    text_buffer: String,
    const_vars: Vec<Slot>,
    lstate: LowerState,
    groups: Ghost<Seq<Seq<Instr>>>,
}

impl Compiler {
    /// The abstract pass state the fields represent.
    spec fn abs(&self) -> CState {
        CState { slots: slots_view(self.const_vars@), lstate: self.lstate, groups: self.groups@ }
    }

    /// The buffers hold exactly the text of the abstract state.
    spec fn wf(&self) -> bool {
        self.data_buffer@ == data_text(slots_view(self.const_vars@)) && self.text_buffer@
            == groups_text(self.groups@)
    }

    /// A fresh code generator.
    pub fn new() -> (r: Compiler) {
        Compiler {
            data_buffer: String::new(),
            text_buffer: String::new(),
            const_vars: Vec::new(),
            lstate: LowerState {
                last: OperatorType::Plus,
                occ_plus: None,
                occ_minus: None,
                occ_multiply: None,
                occ_equals: None,
                chain: 0,
            },
            groups: Ghost(Seq::empty()),
        }
    }

    /// Applies [`spec_note`] to the naming counters.
    fn note_operator(&mut self, o: OperatorType)
        ensures
            final(self).lstate == spec_note(old(self).lstate, o),
            final(self).data_buffer@ == old(self).data_buffer@,
            final(self).text_buffer@ == old(self).text_buffer@,
            final(self).const_vars@ == old(self).const_vars@,
            final(self).groups@ == old(self).groups@,
    {
        if o == self.lstate.last {
            let c = self.lstate.chain;
            if c < usize::MAX {
                self.lstate.chain = c + 1;
            }
        } else {
            match o {
                OperatorType::Plus => {
                    self.lstate.occ_plus = match self.lstate.occ_plus {
                        Some(n) => if n < usize::MAX {
                            Some(n + 1)
                        } else {
                            Some(n)
                        },
                        None => Some(0),
                    };
                },
                OperatorType::Minus => {
                    self.lstate.occ_minus = match self.lstate.occ_minus {
                        Some(n) => if n < usize::MAX {
                            Some(n + 1)
                        } else {
                            Some(n)
                        },
                        None => Some(0),
                    };
                },
                OperatorType::Multiply => {
                    self.lstate.occ_multiply = match self.lstate.occ_multiply {
                        Some(n) => if n < usize::MAX {
                            Some(n + 1)
                        } else {
                            Some(n)
                        },
                        None => Some(0),
                    };
                },
                OperatorType::Equals => {
                    self.lstate.occ_equals = match self.lstate.occ_equals {
                        Some(n) => if n < usize::MAX {
                            Some(n + 1)
                        } else {
                            Some(n)
                        },
                        None => Some(0),
                    };
                },
            }
            self.lstate.chain = 0;
        }
        self.lstate.last = o;
    }

    /// The occurrence counter of an operator kind, reading absent as 0.
    fn occurrence_of(&self, o: OperatorType) -> (r: usize)
        ensures
            r == occ_read(self.lstate, o),
    {
        let v = match o {
            OperatorType::Plus => self.lstate.occ_plus,
            OperatorType::Minus => self.lstate.occ_minus,
            OperatorType::Multiply => self.lstate.occ_multiply,
            OperatorType::Equals => self.lstate.occ_equals,
        };
        match v {
            Some(n) => n,
            None => 0,
        }
    }

    /// Allocates one slot: appends its declaration line to the data
    /// section and the slot to the table; a name that already exists is
    /// a fatal internal-consistency failure.
    fn add_const_var(
        &mut self,
        name: String,
        owner: String,
        value: String,
        operator: Option<OperatorType>,
        bit_size: u64,
    ) -> (r: Result<(), CompileError>)
        requires
            old(self).wf(),
        ensures
            final(self).wf(),
            match r {
                Ok(u) => spec_add_slot(
                    old(self).abs(),
                    SpecSlot {
                        name: name@,
                        owner: owner@,
                        value: value@,
                        operator: operator,
                        width: bit_size,
                    },
                ) == Ok::<CState, CompileError>(final(self).abs()),
                Err(e) => spec_add_slot(
                    old(self).abs(),
                    SpecSlot {
                        name: name@,
                        owner: owner@,
                        value: value@,
                        operator: operator,
                        width: bit_size,
                    },
                ) == Err::<CState, CompileError>(e) && final(self).abs() == old(self).abs(),
            },
    {
        let ghost slot_v = SpecSlot {
            name: name@,
            owner: owner@,
            value: value@,
            operator: operator,
            width: bit_size,
        };
        let mut k: usize = 0;
        while k < self.const_vars.len()
            invariant
                self.data_buffer@ == old(self).data_buffer@,
                self.text_buffer@ == old(self).text_buffer@,
                self.const_vars@ == old(self).const_vars@,
                self.lstate == old(self).lstate,
                self.groups@ == old(self).groups@,
                old(self).wf(),
                k <= self.const_vars@.len(),
                forall|m: int| 0 <= m < k ==> slots_view(self.const_vars@)[m].name != name@,
            decreases self.const_vars@.len() - k,
        {
            if self.const_vars[k].name == name {
                proof {
                    assert(slots_view(self.const_vars@)[k as int].name == name@);
                    assert(has_name(slots_view(self.const_vars@), name@));
                }
                return Err(CompileError::SlotNameCollision);
            }
            k = k + 1;
        }
        proof {
            assert(!has_name(slots_view(self.const_vars@), name@));
        }
        self.data_buffer.append("    ");
        self.data_buffer.append(name.as_str());
        self.data_buffer.append(" d");
        self.data_buffer.append(width_str(bit_size));
        self.data_buffer.append(" ");
        self.data_buffer.append(value.as_str());
        self.data_buffer.append("\n");
        let slot = Slot { name, owner, value, operator, width: bit_size };
        proof {
            lemma_slots_view_push(self.const_vars@, slot);
            assert(slots_view(self.const_vars@.push(slot)).drop_last() =~= slots_view(
                self.const_vars@,
            ));
            assert(self.data_buffer@ =~= data_text(slots_view(self.const_vars@)) + slot_line(
                slot_v,
            ));
        }
        self.const_vars.push(slot);
        proof {
            assert(spec_add_slot(old(self).abs(), slot_v) == Ok::<CState, CompileError>(
                self.abs(),
            ));
        }
        Ok(())
    }

    /// Lowers one expression of a binding into slots, exactly as
    /// [`spec_lower_alloc`] describes.
    fn compile_expr_as_var(
        &mut self,
        expr: &NodeExprs,
        var_name: &String,
        operator: Option<OperatorType>,
    ) -> (r: Result<(), CompileError>)
        requires
            old(self).wf(),
        ensures
            final(self).wf(),
            match r {
                Ok(u) => spec_lower_alloc(*expr, var_name@, operator, old(self).abs()) == Ok::<
                    CState,
                    CompileError,
                >(final(self).abs()),
                Err(e) => spec_lower_alloc(*expr, var_name@, operator, old(self).abs()) == Err::<
                    CState,
                    CompileError,
                >(e),
            },
        decreases *expr,
    {
        match operator {
            Some(o) => self.note_operator(o),
            None => {
        },
        }
        let ghost st1 = self.lstate;
        let ghost cs1 = CState {
            slots: old(self).abs().slots,
            lstate: st1,
            groups: old(self).abs().groups,
        };
        proof {
            assert(self.abs() == cs1);
        }
        match expr {
            NodeExprs::Number(t) => {
                let actual_name = match operator {
                    Some(o) => {
                        let mut nm = var_name.clone();
                        nm.append("_");
                        nm.append(op_name_str(o));
                        nm.append("_");
                        let occ = self.occurrence_of(o);
                        push_dec(&mut nm, occ);
                        nm.append("_");
                        push_dec(&mut nm, self.lstate.chain);
                        proof {
                            assert(nm@ =~= slot_name(
                                var_name@,
                                o,
                                occ_read(st1, o) as nat,
                                st1.chain as nat,
                            ));
                        }
                        nm
                    },
                    None => var_name.clone(),
                };
                self.add_const_var(actual_name, var_name.clone(), t.value.clone(), operator, 64)
            },
            NodeExprs::BinOp(l, opt, r) => {
                let this_op = match opt.op_type {
                    Some(o) => o,
                    None => {
                        return Err(CompileError::MissingOperatorKind);
                    },
                };
                let rctx = match operator {
                    Some(o) => if this_op == OperatorType::Multiply {
                        Some(this_op)
                    } else {
                        Some(o)
                    },
                    None => None,
                };
                match self.compile_expr_as_var(r, var_name, rctx) {
                    Err(e) => {
                        return Err(e);
                    },
                    Ok(u) => {
                    },
                }
                self.compile_expr_as_var(l, var_name, Some(this_op))
            },
            _ => Ok(()),
        }
    }

    /// Emits the reduction text of a name-sorted slot sequence,
    /// beginning by zeroing the destination register; the process-exit
    /// instructions are the caller's. Returns the fatal fault instead
    /// when an operator of kind `Equals`, or a run-opening
    /// multiplication with no slot left to pair with, reaches the loop —
    /// then no instruction text is handed out at all.
    #[verifier::rlimit(100)]
    pub fn reduce_slots(slots: &Vec<Slot>) -> (r: Result<String, CompileError>)
        ensures
            match r {
                Ok(t) => spec_reduce(slots_view(slots@)) is Ok && t@ == instr_text(Instr::ZeroDest)
                    + instrs_text(spec_reduce(slots_view(slots@))->Ok_0),
                Err(e) => spec_reduce(slots_view(slots@)) == Err::<Seq<Instr>, CompileError>(e),
            },
    {
        let ghost sv = slots_view(slots@);
        let mut text = String::from_str("    xor rdi, rdi\n");
        let ghost mut done: Seq<Instr> = Seq::empty();
        let mut last: OperatorType = OperatorType::Plus;
        let mut chain: usize = 0;
        let mut i: usize = 0;
        let n = slots.len();
        proof {
            assert(instrs_text(done) =~= Seq::<char>::empty());
            assert(text@ =~= instr_text(Instr::ZeroDest) + instrs_text(done));
            assert(done + spec_reduce_from(sv, 0, OperatorType::Plus, 0)->Ok_0 =~= spec_reduce_from(
                sv,
                0,
                OperatorType::Plus,
                0,
            )->Ok_0);
        }
        while i < n
            invariant
                n == sv.len(),
                sv == slots_view(slots@),
                i <= n,
                text@ == instr_text(Instr::ZeroDest) + instrs_text(done),
                spec_reduce(sv) == compose_reduce(done, spec_reduce_from(sv, i as int, last, chain)),
            decreases n - i,
        {
            let ghost i0 = i as int;
            let ghost last0 = last;
            let ghost chain0 = chain;
            let ghost done0 = done;
            let s_op = slots[i].operator;
            match s_op {
                None => {
                    text.append("    mov rdi, [");
                    text.append(slots[i].name.as_str());
                    text.append("]\n");
                    proof {
                        let one = seq![Instr::MovDestSlot { slot: sv[i0].name }];
                        assert(spec_reduce_from(sv, i0, last0, chain0) == Ok::<
                            Seq<Instr>,
                            CompileError,
                        >(one));
                        assert(spec_reduce(sv) == Ok::<Seq<Instr>, CompileError>(done0 + one));
                        lemma_instrs_text_concat(done0, one);
                        lemma_instrs_text_one(one[0]);
                        assert(instrs_text(seq![one[0]]) =~= instrs_text(one));
                        assert(text@ =~= instr_text(Instr::ZeroDest) + instrs_text(done0 + one));
                    }
                    return Ok(text);
                },
                Some(op) => {
                    let ghost fl: Seq<Instr> = if op != last0 && last0 == OperatorType::Multiply {
                        seq![Instr::AddDestAx]
                    } else {
                        Seq::<Instr>::empty()
                    };
                    if op == last {
                        let c = chain;
                        chain = if c < usize::MAX {
                            c + 1
                        } else {
                            c
                        };
                    } else {
                        if last == OperatorType::Multiply {
                            text.append("    add rdi, rax\n");
                            proof {
                                lemma_instrs_text_push(done, Instr::AddDestAx);
                                done = done.push(Instr::AddDestAx);
                                assert(text@ =~= instr_text(Instr::ZeroDest) + instrs_text(done));
                            }
                        }
                        chain = 0;
                    }
                    last = op;
                    match op {
                        OperatorType::Plus => {
                            text.append("    add rdi, [");
                            text.append(slots[i].name.as_str());
                            text.append("]\n");
                            proof {
                                let x = Instr::AddDestSlot { slot: sv[i0].name };
                                lemma_instrs_text_push(done, x);
                                done = done.push(x);
                                assert(text@ =~= instr_text(Instr::ZeroDest) + instrs_text(done));
                                let here = fl + seq![x];
                                assert(done =~= done0 + here);
                                assert(spec_reduce_from(sv, i0, last0, chain0) == compose_reduce(
                                    here,
                                    spec_reduce_from(sv, i0 + 1, op, chain),
                                ));
                                lemma_compose_assoc(
                                    done0,
                                    here,
                                    spec_reduce_from(sv, i0 + 1, op, chain),
                                );
                            }
                            i = i + 1;
                        },
                        OperatorType::Minus => {
                            text.append("    sub rdi, [");
                            text.append(slots[i].name.as_str());
                            text.append("]\n");
                            proof {
                                let x = Instr::SubDestSlot { slot: sv[i0].name };
                                lemma_instrs_text_push(done, x);
                                done = done.push(x);
                                assert(text@ =~= instr_text(Instr::ZeroDest) + instrs_text(done));
                                let here = fl + seq![x];
                                assert(done =~= done0 + here);
                                assert(spec_reduce_from(sv, i0, last0, chain0) == compose_reduce(
                                    here,
                                    spec_reduce_from(sv, i0 + 1, op, chain),
                                ));
                                lemma_compose_assoc(
                                    done0,
                                    here,
                                    spec_reduce_from(sv, i0 + 1, op, chain),
                                );
                            }
                            i = i + 1;
                        },
                        OperatorType::Multiply => {
                            if chain == 0 {
                                if i + 1 < n {
                                    text.append("    mov rax, [");
                                    text.append(slots[i].name.as_str());
                                    text.append("]\n");
                                    text.append("    mov rbx, [");
                                    text.append(slots[i + 1].name.as_str());
                                    text.append("]\n");
                                    text.append("    imul rbx\n");
                                    proof {
                                        let a = Instr::MovAxSlot { slot: sv[i0].name };
                                        let b = Instr::MovBxSlot { slot: sv[i0 + 1].name };
                                        lemma_instrs_text_push(done, a);
                                        done = done.push(a);
                                        lemma_instrs_text_push(done, b);
                                        done = done.push(b);
                                        lemma_instrs_text_push(done, Instr::MulAxBx);
                                        done = done.push(Instr::MulAxBx);
                                        assert(text@ =~= instr_text(Instr::ZeroDest) + instrs_text(
                                            done,
                                        ));
                                    }
                                    if i + 2 >= n {
                                        text.append("    add rdi, rax\n");
                                        proof {
                                            lemma_instrs_text_push(done, Instr::AddDestAx);
                                            done = done.push(Instr::AddDestAx);
                                            assert(text@ =~= instr_text(Instr::ZeroDest)
                                                + instrs_text(done));
                                        }
                                    }
                                    proof {
                                        let here = fl + seq![
                                            Instr::MovAxSlot { slot: sv[i0].name },
                                            Instr::MovBxSlot { slot: sv[i0 + 1].name },
                                            Instr::MulAxBx,
                                        ] + if i0 + 2 >= sv.len() {
                                            seq![Instr::AddDestAx]
                                        } else {
                                            Seq::<Instr>::empty()
                                        };
                                        assert(done =~= done0 + here);
                                        assert(spec_reduce_from(sv, i0, last0, chain0)
                                            == compose_reduce(
                                            here,
                                            spec_reduce_from(sv, i0 + 2, op, chain),
                                        ));
                                        lemma_compose_assoc(
                                            done0,
                                            here,
                                            spec_reduce_from(sv, i0 + 2, op, chain),
                                        );
                                    }
                                    i = i + 2;
                                } else {
                                    proof {
                                        assert(spec_reduce_from(sv, i0, last0, chain0) == Err::<
                                            Seq<Instr>,
                                            CompileError,
                                        >(CompileError::MissingFactor));
                                    }
                                    return Err(CompileError::MissingFactor);
                                }
                            } else {
                                text.append("    mov rbx, [");
                                text.append(slots[i].name.as_str());
                                text.append("]\n");
                                text.append("    imul rbx\n");
                                proof {
                                    let b = Instr::MovBxSlot { slot: sv[i0].name };
                                    lemma_instrs_text_push(done, b);
                                    done = done.push(b);
                                    lemma_instrs_text_push(done, Instr::MulAxBx);
                                    done = done.push(Instr::MulAxBx);
                                    assert(text@ =~= instr_text(Instr::ZeroDest) + instrs_text(
                                        done,
                                    ));
                                }
                                if i + 1 >= n {
                                    text.append("    add rdi, rax\n");
                                    proof {
                                        lemma_instrs_text_push(done, Instr::AddDestAx);
                                        done = done.push(Instr::AddDestAx);
                                        assert(text@ =~= instr_text(Instr::ZeroDest) + instrs_text(
                                            done,
                                        ));
                                    }
                                }
                                proof {
                                    let here = seq![
                                        Instr::MovBxSlot { slot: sv[i0].name },
                                        Instr::MulAxBx,
                                    ] + if i0 + 1 >= sv.len() {
                                        seq![Instr::AddDestAx]
                                    } else {
                                        Seq::<Instr>::empty()
                                    };
                                    assert(fl =~= Seq::<Instr>::empty());
                                    assert(done =~= done0 + here);
                                    assert(spec_reduce_from(sv, i0, last0, chain0)
                                        == compose_reduce(
                                        here,
                                        spec_reduce_from(sv, i0 + 1, op, chain),
                                    ));
                                    lemma_compose_assoc(
                                        done0,
                                        here,
                                        spec_reduce_from(sv, i0 + 1, op, chain),
                                    );
                                }
                                i = i + 1;
                            }
                        },
                        OperatorType::Equals => {
                            proof {
                                assert(spec_reduce_from(sv, i0, last0, chain0) == Err::<
                                    Seq<Instr>,
                                    CompileError,
                                >(CompileError::EqualsInReduction));
                            }
                            return Err(CompileError::EqualsInReduction);
                        },
                    }
                },
            }
        }
        proof {
            assert(spec_reduce_from(sv, i as int, last, chain) == Ok::<Seq<Instr>, CompileError>(
                Seq::empty(),
            ));
            assert(done + Seq::<Instr>::empty() =~= done);
            assert(spec_reduce(sv) == Ok::<Seq<Instr>, CompileError>(done));
        }
        Ok(text)
    }

    /// Compiles one statement: a binding lowers its operands into slots,
    /// an `exit` emits its instruction group into the text section.
    fn compile_expr(&mut self, expr: &NodeExprs) -> (r: Result<(), CompileError>)
        requires
            old(self).wf(),
        ensures
            final(self).wf(),
            match r {
                Ok(u) => spec_stmt(old(self).abs(), *expr) == Ok::<CState, CompileError>(
                    final(self).abs(),
                ),
                Err(e) => spec_stmt(old(self).abs(), *expr) == Err::<CState, CompileError>(e),
            },
    {
        proof {
            reveal(spec_stmt);
        }
        match expr {
            NodeExprs::Exit(token) => {
                let ghost cs0 = self.abs();
                let is_ident = token.token_type == TokenType::Identifier;
                let matching = collect_binding_slots(&self.const_vars, &token.value);
                if is_ident && matching.len() > 0 {
                    let sorted = sort_slots(matching);
                    let text = match Compiler::reduce_slots(&sorted) {
                        Ok(t) => t,
                        Err(e) => {
                            return Err(e);
                        },
                    };
                    let ghost instrs = spec_reduce(slots_view(sorted@))->Ok_0;
                    let ghost g = seq![Instr::ZeroDest] + instrs + seq![Instr::ExitCall];
                    self.text_buffer.append(text.as_str());
                    self.text_buffer.append("    mov rax, 60\n    syscall\n");
                    proof {
                        self.groups@ = self.groups@.push(g);
                    }
                    proof {
                        lemma_instrs_text_concat(seq![Instr::ZeroDest] + instrs, seq![
                            Instr::ExitCall,
                        ]);
                        lemma_instrs_text_concat(seq![Instr::ZeroDest], instrs);
                        lemma_instrs_text_one(Instr::ZeroDest);
                        lemma_instrs_text_one(Instr::ExitCall);
                        assert(self.groups@.drop_last() =~= cs0.groups);
                        assert(self.text_buffer@ =~= groups_text(cs0.groups) + instrs_text(g));
                        assert(self.wf());
                        assert(spec_exit(cs0, *token) == Ok::<CState, CompileError>(self.abs()));
                    }
                    Ok(())
                } else {
                    let ghost g = seq![
                        Instr::MovDestImm { text: token.value@ },
                        Instr::ExitCall,
                    ];
                    self.text_buffer.append("    mov rdi, ");
                    self.text_buffer.append(token.value.as_str());
                    self.text_buffer.append("\n");
                    self.text_buffer.append("    mov rax, 60\n    syscall\n");
                    proof {
                        self.groups@ = self.groups@.push(g);
                    }
                    proof {
                        assert(g.drop_last() =~= seq![Instr::MovDestImm { text: token.value@ }]);
                        lemma_instrs_text_one(Instr::MovDestImm { text: token.value@ });
                        assert(instrs_text(g) =~= instr_text(
                            Instr::MovDestImm { text: token.value@ },
                        ) + instr_text(Instr::ExitCall));
                        assert(self.groups@.drop_last() =~= cs0.groups);
                        assert(self.text_buffer@ =~= groups_text(cs0.groups) + instrs_text(g));
                        assert(self.wf());
                        assert(spec_exit(cs0, *token) == Ok::<CState, CompileError>(self.abs()));
                    }
                    Ok(())
                }
            },
            NodeExprs::Let(token, inner) => {
                match &**inner {
                    NodeExprs::BinOp(l, opt, r) => {
                        let o = match opt.op_type {
                            Some(o) => o,
                            None => {
                                return Err(CompileError::MissingOperatorKind);
                            },
                        };
                        match self.compile_expr_as_var(l, &token.value, Some(o)) {
                            Err(e) => {
                                return Err(e);
                            },
                            Ok(u) => {
                            },
                        }
                        self.compile_expr_as_var(r, &token.value, Some(o))
                    },
                    NodeExprs::Number(_t) => self.compile_expr_as_var(inner, &token.value, None),
                    _ => Ok(()),
                }
            },
            _ => Ok(()),
        }
    }

    /// Compiles the whole program into its assembly text:
    /// [`spec_compile`] gives the exact output, so equal statement lists
    /// always yield byte-identical text. The faults of §7 — a slot-name
    /// collision, an operator token without a kind, an `Equals` operator
    /// or a missing second factor in the reduction — abort the pass.
    #[verifier::loop_isolation(true)]
    #[verifier::rlimit(100)]
    pub fn compile(self, root: NodeRoot) -> (r: Result<String, CompileError>)
        ensures
            match r {
                Ok(s) => spec_compile(root) == Ok::<Seq<char>, CompileError>(s@),
                Err(e) => spec_compile(root) == Err::<Seq<char>, CompileError>(e),
            },
    {
        let mut this = self;
        this.data_buffer = String::new();
        this.text_buffer = String::new();
        this.const_vars = Vec::new();
        this.lstate = LowerState {
            last: OperatorType::Plus,
            occ_plus: None,
            occ_minus: None,
            occ_multiply: None,
            occ_equals: None,
            chain: 0,
        };
        this.groups = Ghost(Seq::empty());
        proof {
            assert(slots_view(this.const_vars@) =~= Seq::<SpecSlot>::empty());
            assert(this.wf());
            assert(this.abs() == initial_cstate());
        }
        let n = root.stmts.len();
        let mut i: usize = 0;
        while i < n
            invariant
                n == root.stmts@.len(),
                i <= n,
                this.wf(),
                spec_pass(initial_cstate(), root.stmts@, 0) == spec_pass(
                    this.abs(),
                    root.stmts@,
                    i as int,
                ),
            decreases n - i,
        {
            let ghost pre = this.abs();
            match this.compile_expr(&root.stmts[i].expr) {
                Ok(u) => {
                },
                Err(e) => {
                    proof {
                        lemma_pass_err(pre, root.stmts@, i as int, e);
                    }
                    return Err(e);
                },
            }
            proof {
                lemma_pass_step(pre, root.stmts@, i as int, this.abs());
            }
            i = i + 1;
        }
        proof {
            assert(spec_pass(this.abs(), root.stmts@, i as int) == Ok::<CState, CompileError>(
                this.abs(),
            ));
        }
        let mut out = String::from_str("global _start\n");
        out.append("_start:\n");
        out.append("section .data\n");
        out.append(this.data_buffer.as_str());
        out.append("section .text\n");
        out.append("_start:\n");
        out.append(this.text_buffer.as_str());
        proof {
            assert(out@ =~= "global _start\n"@ + "_start:\n"@ + "section .data\n"@ + data_text(
                this.abs().slots,
            ) + "section .text\n"@ + "_start:\n"@ + groups_text(this.abs().groups));
        }
        Ok(out)
    }
}

} // verus!
