//! The properties the code generator guarantees, each proved against the
//! spec functions that [`crate::compiler::Compiler::compile`] is verified
//! to implement.

use vstd::prelude::*;

use crate::compiler::{
    binding_slots, has_name, initial_cstate, lex_lt, occ_read, slot_name, spec_add_slot,
    spec_compile, spec_exit, spec_final_state, spec_lower_alloc, spec_note, spec_pass,
    spec_reduce, spec_reduce_from, spec_sort, spec_stmt, CState, SpecSlot,
};
use crate::lexer::{OperatorType, Token, TokenType};
use crate::machine::{data_map, lemma_run_concat, lit_val, run, step, Instr, MachineState};
use crate::parser::{NodeExprs, NodeRoot, NodeStmt};
use crate::CompileError;

verus! {

/// Compiling a statement list twice yields byte-identical assembly text:
/// by [`crate::compiler::Compiler::compile`]'s contract, every accepted
/// call returns exactly `spec_compile` of its input, which is a pure
/// function of the statement list — no randomness, time or environment
/// enters the pass.
pub proof fn lemma_compile_deterministic(root: NodeRoot, out1: Seq<char>, out2: Seq<char>)
    requires
        spec_compile(root) == Ok::<Seq<char>, CompileError>(out1),
        spec_compile(root) == Ok::<Seq<char>, CompileError>(out2),
    ensures
        out1 == out2,
{
}

/// An exit operand that is a literal, or an identifier no slot belongs
/// to, emits a direct move followed by the exit call: the slot table is
/// untouched (so no data-section entry arises from it) and no reduction
/// loop is entered.
pub proof fn lemma_direct_exit(cs: CState, t: Token, cs2: CState)
    requires
        spec_exit(cs, t) == Ok::<CState, CompileError>(cs2),
        t.token_type != TokenType::Identifier || binding_slots(cs.slots, t.value@).len() == 0,
    ensures
        cs2.slots == cs.slots,
        cs2.lstate == cs.lstate,
        cs2.groups == cs.groups.push(
            seq![Instr::MovDestImm { text: t.value@ }, Instr::ExitCall],
        ),
{
}

/// Exiting an identifier whose binding has exactly one slot, the bare
/// operatorless one, reuses that slot: the group moves its value
/// directly into the destination register, and no arithmetic is
/// emitted.
pub proof fn lemma_single_slot_exit(cs: CState, t: Token, cs2: CState, s: SpecSlot)
    requires
        spec_exit(cs, t) == Ok::<CState, CompileError>(cs2),
        t.token_type == TokenType::Identifier,
        binding_slots(cs.slots, t.value@) == seq![s],
        s.operator is None,
    ensures
        cs2.slots == cs.slots,
        cs2.groups == cs.groups.push(
            seq![Instr::ZeroDest, Instr::MovDestSlot { slot: s.name }, Instr::ExitCall],
        ),
{
    let one = seq![s];
    assert(one.drop_last() =~= Seq::<SpecSlot>::empty());
    assert(spec_sort(Seq::<SpecSlot>::empty()) == Seq::<SpecSlot>::empty());
    assert(spec_sort(one) == seq![s]);
    let instrs = seq![Instr::MovDestSlot { slot: s.name }];
    assert(spec_reduce(seq![s]) == Ok::<Seq<Instr>, CompileError>(instrs));
    assert(seq![Instr::ZeroDest] + instrs + seq![Instr::ExitCall] =~= seq![
        Instr::ZeroDest,
        Instr::MovDestSlot { slot: s.name },
        Instr::ExitCall,
    ]);
}

/// A malformed internal state in which an operator of kind `Equals`
/// heads the sorted slots aborts the reduction with a fatal
/// internal-consistency failure: no instruction sequence is produced.
pub proof fn lemma_equals_aborts(slots: Seq<SpecSlot>)
    requires
        slots.len() > 0,
        slots[0].operator == Some(OperatorType::Equals),
    ensures
        spec_reduce(slots) == Err::<Seq<Instr>, CompileError>(CompileError::EqualsInReduction),
{
}

/// No two slots share a name.
pub open spec fn unique_names(slots: Seq<SpecSlot>) -> bool {
    forall|j: int, k: int|
        0 <= j < k < slots.len() ==> slots[j].name != slots[k].name
}

/// The earlier slot table survives, unchanged and in place, in the
/// later one.
pub open spec fn table_extends(a: Seq<SpecSlot>, b: Seq<SpecSlot>) -> bool {
    a.len() <= b.len() && forall|j: int| 0 <= j < a.len() ==> a[j] == b[j]
}

/// Allocation preserves name uniqueness: it refuses exactly the names
/// that already exist.
pub proof fn lemma_add_slot_props(cs: CState, s: SpecSlot, cs2: CState)
    requires
        spec_add_slot(cs, s) == Ok::<CState, CompileError>(cs2),
        unique_names(cs.slots),
    ensures
        cs2.slots == cs.slots.push(s),
        cs2.groups == cs.groups,
        unique_names(cs2.slots),
        table_extends(cs.slots, cs2.slots),
{
    assert(!has_name(cs.slots, s.name));
    assert forall|j: int, k: int| 0 <= j < k < cs2.slots.len() implies cs2.slots[j].name
        != cs2.slots[k].name by {
        if k == cs.slots.len() as int {
            assert(cs2.slots[j] == cs.slots[j]);
            if cs.slots[j].name == s.name {
                assert(has_name(cs.slots, s.name));
            }
        }
    }
}

/// Lowering preserves name uniqueness and only appends slots.
pub proof fn lemma_lower_props(
    e: NodeExprs,
    binding: Seq<char>,
    ctx: Option<OperatorType>,
    cs: CState,
    cs2: CState,
)
    requires
        spec_lower_alloc(e, binding, ctx, cs) == Ok::<CState, CompileError>(cs2),
        unique_names(cs.slots),
    ensures
        unique_names(cs2.slots),
        table_extends(cs.slots, cs2.slots),
        cs2.groups == cs.groups,
    decreases e,
{
    let st1 = match ctx {
        Some(o) => spec_note(cs.lstate, o),
        None => cs.lstate,
    };
    let cs1 = CState { lstate: st1, ..cs };
    match e {
        NodeExprs::Number(t) => {
            let nm = match ctx {
                Some(o) => slot_name(binding, o, occ_read(st1, o) as nat, st1.chain as nat),
                None => binding,
            };
            let s = SpecSlot {
                name: nm,
                owner: binding,
                value: t.value@,
                operator: ctx,
                width: 64,
            };
            lemma_add_slot_props(cs1, s, cs2);
        },
        NodeExprs::BinOp(l, opt, r) => {
            match opt.op_type {
                None => {
                },
                Some(this_op) => {
                    let rctx = match ctx {
                        Some(o) => if this_op == OperatorType::Multiply {
                            Some(this_op)
                        } else {
                            Some(o)
                        },
                        None => None,
                    };
                    let m = spec_lower_alloc(*r, binding, rctx, cs1);
                    lemma_lower_props(*r, binding, rctx, cs1, m->Ok_0);
                    lemma_lower_props(*l, binding, Some(this_op), m->Ok_0, cs2);
                },
            }
        },
        _ => {
        },
    }
}

/// One accepted statement preserves name uniqueness and only appends
/// slots.
pub proof fn lemma_stmt_props(cs: CState, e: NodeExprs, cs2: CState)
    requires
        spec_stmt(cs, e) == Ok::<CState, CompileError>(cs2),
        unique_names(cs.slots),
    ensures
        unique_names(cs2.slots),
        table_extends(cs.slots, cs2.slots),
{
    reveal(spec_stmt);
    match e {
        NodeExprs::Exit(_t) => {
        },
        NodeExprs::Let(tok, expr) => {
            match *expr {
                NodeExprs::BinOp(_l, opt, _r) => {
                    match opt.op_type {
                        None => {
                        },
                        Some(o) => {
                            let m = spec_lower_alloc(*_l, tok.value@, Some(o), cs);
                            lemma_lower_props(*_l, tok.value@, Some(o), cs, m->Ok_0);
                            lemma_lower_props(*_r, tok.value@, Some(o), m->Ok_0, cs2);
                        },
                    }
                },
                NodeExprs::Number(_t) => {
                    lemma_lower_props(*expr, tok.value@, None, cs, cs2);
                },
                _ => {
                },
            }
        },
        _ => {
        },
    }
}

/// The whole pass preserves name uniqueness and only appends slots.
pub proof fn lemma_pass_props(cs: CState, stmts: Seq<NodeStmt>, i: int, cs2: CState)
    requires
        spec_pass(cs, stmts, i) == Ok::<CState, CompileError>(cs2),
        unique_names(cs.slots),
    ensures
        unique_names(cs2.slots),
        table_extends(cs.slots, cs2.slots),
    decreases stmts.len() - i,
{
    if i < 0 || i >= stmts.len() {
    } else {
        let m = spec_stmt(cs, stmts[i].expr);
        lemma_stmt_props(cs, stmts[i].expr, m->Ok_0);
        lemma_pass_props(m->Ok_0, stmts, i + 1, cs2);
    }
}

/// The pass states around the statement at position `i`: the state it
/// was compiled in and the state it produced.
pub proof fn lemma_pass_at(cs0: CState, stmts: Seq<NodeStmt>, k: int, i: int) -> (r: (
    CState,
    CState,
))
    requires
        spec_pass(cs0, stmts, k) is Ok,
        0 <= k <= i < stmts.len(),
        unique_names(cs0.slots),
    ensures
        spec_stmt(r.0, stmts[i].expr) == Ok::<CState, CompileError>(r.1),
        spec_pass(cs0, stmts, k) == spec_pass(r.1, stmts, i + 1),
        unique_names(r.0.slots),
        table_extends(cs0.slots, r.0.slots),
    decreases i - k,
{
    let m = spec_stmt(cs0, stmts[k].expr);
    if k == i {
        (cs0, m->Ok_0)
    } else {
        lemma_stmt_props(cs0, stmts[k].expr, m->Ok_0);
        lemma_pass_at(m->Ok_0, stmts, k + 1, i)
    }
}

/// Whether `e` binds `name` to the single literal `value`.
pub open spec fn is_literal_binding(e: NodeExprs, name: Seq<char>, value: Seq<char>) -> bool {
    match e {
        NodeExprs::Let(t, inner) => t.value@ == name && (match *inner {
            NodeExprs::Number(lt) => lt.value@ == value,
            _ => false,
        }),
        _ => false,
    }
}

/// A binding of a single literal puts exactly one slot under the bare
/// binding name into the data section: it holds that literal, belongs
/// to that binding, and records no operator — and, the pass having
/// succeeded, no other slot carries the name.
pub proof fn lemma_single_literal_binding(
    root: NodeRoot,
    i: int,
    name: Seq<char>,
    value: Seq<char>,
    cs: CState,
)
    requires
        spec_final_state(root) == Ok::<CState, CompileError>(cs),
        0 <= i < root.stmts@.len(),
        is_literal_binding(root.stmts@[i].expr, name, value),
    ensures
        has_name(cs.slots, name),
        forall|j: int|
            0 <= j < cs.slots.len() && cs.slots[j].name == name ==> cs.slots[j] == (SpecSlot {
                name: name,
                owner: name,
                value: value,
                operator: None,
                width: 64,
            }),
{
    let stmts = root.stmts@;
    let pair = lemma_pass_at(initial_cstate(), stmts, 0, i);
    let csi = pair.0;
    let csi2 = pair.1;
    reveal(spec_stmt);
    let s = SpecSlot { name: name, owner: name, value: value, operator: None, width: 64 };
    match stmts[i].expr {
        NodeExprs::Let(tok, inner) => {
            match *inner {
                NodeExprs::Number(_lt) => {
                    assert(spec_lower_alloc(*inner, tok.value@, None, csi) == Ok::<
                        CState,
                        CompileError,
                    >(csi2));
                    assert(csi2.slots == csi.slots.push(s));
                    assert(csi2.slots[csi.slots.len() as int] == s);
                },
                _ => {
                },
            }
        },
        _ => {
        },
    }
    lemma_stmt_props(csi, stmts[i].expr, csi2);
    lemma_pass_props(csi2, stmts, i + 1, cs);
    assert(cs.slots[csi.slots.len() as int] == s);
    assert(has_name(cs.slots, name));
    assert forall|j: int|
        0 <= j < cs.slots.len() && cs.slots[j].name == name implies cs.slots[j] == s by {
        let j0 = csi.slots.len() as int;
        if j != j0 {
            if j < j0 {
                assert(cs.slots[j0].name == cs.slots[j].name);
            } else {
                assert(cs.slots[j0].name == cs.slots[j].name);
            }
        }
    }
}

/// Lexicographic order ignores a common prefix.
pub proof fn lemma_lex_lt_common_prefix(p: Seq<char>, s1: Seq<char>, s2: Seq<char>)
    ensures
        lex_lt(p + s1, p + s2) == lex_lt(s1, s2),
    decreases p.len(),
{
    if p.len() == 0 {
        assert(p + s1 =~= s1);
        assert(p + s2 =~= s2);
    } else {
        assert((p + s1)[0] == p[0]);
        assert((p + s2)[0] == p[0]);
        assert((p + s1).drop_first() =~= p.drop_first() + s1);
        assert((p + s2).drop_first() =~= p.drop_first() + s2);
        lemma_lex_lt_common_prefix(p.drop_first(), s1, s2);
    }
}

/// Lexicographic order is irreflexive.
pub proof fn lemma_lex_lt_irrefl(s: Seq<char>)
    ensures
        !lex_lt(s, s),
    decreases s.len(),
{
    if s.len() == 0 {
    } else {
        lemma_lex_lt_irrefl(s.drop_first());
    }
}

/// Whether `e` binds `x` to the sum of the two literals `a` and `b`.
pub open spec fn is_sum_binding(e: NodeExprs, x: Seq<char>, a: Seq<char>, b: Seq<char>) -> bool {
    match e {
        NodeExprs::Let(t, inner) => t.value@ == x && (match *inner {
            NodeExprs::BinOp(l, op, r) => op.op_type == Some(OperatorType::Plus) && (match *l {
                NodeExprs::Number(lt) => lt.value@ == a,
                _ => false,
            }) && (match *r {
                NodeExprs::Number(rt) => rt.value@ == b,
                _ => false,
            }),
            _ => false,
        }),
        _ => false,
    }
}

/// Whether `e` is `exit x;` for the identifier `x`.
pub open spec fn is_exit_of(e: NodeExprs, x: Seq<char>) -> bool {
    match e {
        NodeExprs::Exit(t) => t.token_type == TokenType::Identifier && t.value@ == x,
        _ => false,
    }
}

/// Binding a sum of two literals and exiting the binding leaves the sum
/// of the two literals in the destination register at runtime — in
/// either lexical order of the literals, since both slots accumulate by
/// addition after the slots are sorted.
#[verifier::rlimit(100)]
pub proof fn lemma_sum_binding_exit(root: NodeRoot, x: Seq<char>, a: Seq<char>, b: Seq<char>)
    requires
        root.stmts@.len() == 2,
        is_sum_binding(root.stmts@[0].expr, x, a, b),
        is_exit_of(root.stmts@[1].expr, x),
    ensures
        spec_final_state(root) is Ok,
        spec_final_state(root)->Ok_0.groups.len() == 1,
        forall|m0: MachineState|
            run(
                m0,
                spec_final_state(root)->Ok_0.groups[0],
                data_map(spec_final_state(root)->Ok_0.slots),
            ).rdi == lit_val(a) + lit_val(b),
{
    reveal(spec_stmt);
    reveal(Seq::filter);
    let stmts = root.stmts@;
    let cs0 = initial_cstate();
    let nm1 = slot_name(x, OperatorType::Plus, 0, 1);
    let nm2 = slot_name(x, OperatorType::Plus, 0, 2);
    let s1 = SpecSlot { name: nm1, owner: x, value: a, operator: Some(OperatorType::Plus), width: 64 };
    let s2 = SpecSlot { name: nm2, owner: x, value: b, operator: Some(OperatorType::Plus), width: 64 };
    // the two slot names share everything up to the chain index
    let pre = x + "_"@ + "Plus"@ + "_"@ + crate::compiler::spec_dec(0) + "_"@;
    assert(crate::compiler::spec_dec(1) == seq!['1']);
    assert(crate::compiler::spec_dec(2) == seq!['2']);
    assert(nm1 =~= pre + seq!['1']);
    assert(nm2 =~= pre + seq!['2']);
    lemma_lex_lt_common_prefix(pre, seq!['1'], seq!['2']);
    lemma_lex_lt_common_prefix(pre, seq!['2'], seq!['1']);
    assert(lex_lt(seq!['1'], seq!['2']) == (('1' as u32) < ('2' as u32)));
    assert(lex_lt(seq!['2'], seq!['1']) == (('2' as u32) < ('1' as u32)));
    assert(lex_lt(nm1, nm2));
    assert(!lex_lt(nm2, nm1));
    lemma_lex_lt_irrefl(nm1);
    assert(nm1 != nm2);
    // the binding statement allocates exactly the two slots
    match stmts[0].expr {
        NodeExprs::Let(tok, inner) => {
            match *inner {
                NodeExprs::BinOp(l, op, r) => {
                    let st1 = spec_note(cs0.lstate, OperatorType::Plus);
                    assert(st1.chain == 1);
                    assert(occ_read(st1, OperatorType::Plus) == 0);
                    let csa = spec_lower_alloc(*l, x, Some(OperatorType::Plus), cs0);
                    assert(csa == Ok::<CState, CompileError>(
                        CState { slots: seq![s1], lstate: st1, groups: cs0.groups },
                    ));
                    let st2 = spec_note(st1, OperatorType::Plus);
                    assert(st2.chain == 2);
                    assert(occ_read(st2, OperatorType::Plus) == 0);
                    assert(!has_name(seq![s1], nm2));
                    let csb = spec_lower_alloc(*r, x, Some(OperatorType::Plus), csa->Ok_0);
                    assert(seq![s1].push(s2) =~= seq![s1, s2]);
                    assert(csb == Ok::<CState, CompileError>(
                        CState { slots: seq![s1, s2], lstate: st2, groups: cs0.groups },
                    ));
                    assert(spec_stmt(cs0, stmts[0].expr) == csb);
                },
                _ => {
                },
            }
        },
        _ => {
        },
    }
    let csl = CState {
        slots: seq![s1, s2],
        lstate: spec_note(spec_note(cs0.lstate, OperatorType::Plus), OperatorType::Plus),
        groups: Seq::empty(),
    };
    assert(spec_stmt(cs0, stmts[0].expr) == Ok::<CState, CompileError>(csl));
    // the exit statement collects, sorts and reduces them
    assert(seq![s1, s2].drop_last() =~= seq![s1]);
    assert(seq![s1].drop_last() =~= Seq::<SpecSlot>::empty());
    assert(seq![s1].drop_first() =~= Seq::<SpecSlot>::empty());
    let p = |s: SpecSlot| s.owner == x;
    assert(Seq::<SpecSlot>::empty().filter(p) == Seq::<SpecSlot>::empty());
    assert(p(s1) && p(s2));
    assert(seq![s1].filter(p) == Seq::<SpecSlot>::empty().push(s1));
    assert(Seq::<SpecSlot>::empty().push(s1) =~= seq![s1]);
    assert(seq![s1, s2].filter(p) == seq![s1].filter(p).push(s2));
    assert(seq![s1].push(s2) =~= seq![s1, s2]);
    assert(binding_slots(csl.slots, x) == seq![s1, s2]);
    assert(spec_sort(Seq::<SpecSlot>::empty()) == Seq::<SpecSlot>::empty());
    assert(crate::compiler::spec_insert(s1, Seq::<SpecSlot>::empty()) == seq![s1]);
    assert(spec_sort(seq![s1]) == seq![s1]);
    assert(crate::compiler::spec_insert(s2, Seq::<SpecSlot>::empty()) == seq![s2]);
    assert(crate::compiler::spec_insert(s2, seq![s1]) == seq![s1] + crate::compiler::spec_insert(
        s2,
        seq![s1].drop_first(),
    ));
    assert(seq![s1] + seq![s2] =~= seq![s1, s2]);
    assert(spec_sort(seq![s1, s2]) == seq![s1, s2]);
    let sorted = seq![s1, s2];
    assert(spec_reduce_from(sorted, 2, OperatorType::Plus, 2) == Ok::<Seq<Instr>, CompileError>(
        Seq::empty(),
    ));
    let i2 = Instr::AddDestSlot { slot: nm2 };
    let i1 = Instr::AddDestSlot { slot: nm1 };
    assert(spec_reduce_from(sorted, 1, OperatorType::Plus, 1) == Ok::<Seq<Instr>, CompileError>(
        Seq::<Instr>::empty() + seq![i2] + Seq::<Instr>::empty(),
    ));
    assert(Seq::<Instr>::empty() + seq![i2] + Seq::<Instr>::empty() =~= seq![i2]);
    assert(spec_reduce_from(sorted, 0, OperatorType::Plus, 0) == Ok::<Seq<Instr>, CompileError>(
        Seq::<Instr>::empty() + seq![i1] + seq![i2],
    ));
    assert(Seq::<Instr>::empty() + seq![i1] + seq![i2] =~= seq![i1, i2]);
    assert(spec_reduce(sorted) == Ok::<Seq<Instr>, CompileError>(seq![i1, i2]));
    let g = seq![Instr::ZeroDest] + seq![i1, i2] + seq![Instr::ExitCall];
    assert(g =~= seq![Instr::ZeroDest, i1, i2, Instr::ExitCall]);
    match stmts[1].expr {
        NodeExprs::Exit(t) => {
            assert(spec_exit(csl, t) == Ok::<CState, CompileError>(
                CState { slots: csl.slots, lstate: csl.lstate, groups: Seq::empty().push(g) },
            ));
        },
        _ => {
        },
    }
    let csf = CState { slots: csl.slots, lstate: csl.lstate, groups: Seq::empty().push(g) };
    assert(spec_stmt(csl, stmts[1].expr) == Ok::<CState, CompileError>(csf));
    assert(spec_pass(csf, stmts, 2) == Ok::<CState, CompileError>(csf));
    assert(spec_pass(csl, stmts, 1) == Ok::<CState, CompileError>(csf));
    assert(spec_pass(cs0, stmts, 0) == Ok::<CState, CompileError>(csf));
    assert(spec_final_state(root) == Ok::<CState, CompileError>(csf));
    assert(csf.groups.len() == 1);
    assert(csf.groups[0] == g);
    // running the group computes the sum
    let d = data_map(csf.slots);
    assert(seq![s1, s2].drop_last() =~= seq![s1]);
    assert(d == data_map(seq![s1]).insert(nm2, lit_val(b)));
    assert(data_map(seq![s1]) == data_map(Seq::<SpecSlot>::empty()).insert(nm1, lit_val(a)));
    assert(d[nm2] == lit_val(b));
    assert(d[nm1] == lit_val(a));
    assert forall|m0: MachineState| run(m0, csf.groups[0], d).rdi == lit_val(a) + lit_val(b) by {
        let g0 = seq![Instr::ZeroDest, i1, i2, Instr::ExitCall];
        let m1 = step(m0, Instr::ZeroDest, d);
        assert(m1.rdi == 0);
        let m2 = step(m1, i1, d);
        assert(m2.rdi == lit_val(a));
        let m3 = step(m2, i2, d);
        assert(m3.rdi == lit_val(a) + lit_val(b));
        let m4 = step(m3, Instr::ExitCall, d);
        assert(m4.rdi == lit_val(a) + lit_val(b));
        assert(g0.drop_first() =~= seq![i1, i2, Instr::ExitCall]);
        assert(seq![i1, i2, Instr::ExitCall].drop_first() =~= seq![i2, Instr::ExitCall]);
        assert(seq![i2, Instr::ExitCall].drop_first() =~= seq![Instr::ExitCall]);
        assert(seq![Instr::ExitCall].drop_first() =~= Seq::<Instr>::empty());
        assert(run(m0, g0, d) == run(m1, seq![i1, i2, Instr::ExitCall], d));
        assert(run(m1, seq![i1, i2, Instr::ExitCall], d) == run(m2, seq![i2, Instr::ExitCall], d));
        assert(run(m2, seq![i2, Instr::ExitCall], d) == run(m3, seq![Instr::ExitCall], d));
        assert(run(m3, seq![Instr::ExitCall], d) == run(m4, Seq::<Instr>::empty(), d));
        assert(run(m4, Seq::<Instr>::empty(), d) == m4);
        assert(run(m0, g0, d) == m4);
    }
}

/// Whether `e` binds `x` to `a * b + c` over literals, as the parser
/// nests it.
pub open spec fn is_product_sum_binding(
    e: NodeExprs,
    x: Seq<char>,
    a: Seq<char>,
    b: Seq<char>,
    c: Seq<char>,
) -> bool {
    match e {
        NodeExprs::Let(t, inner) => t.value@ == x && (match *inner {
            NodeExprs::BinOp(l, op, r) => op.op_type == Some(OperatorType::Plus) && (match *r {
                NodeExprs::Number(rt) => rt.value@ == c,
                _ => false,
            }) && (match *l {
                NodeExprs::BinOp(ll, lop, lr) => lop.op_type == Some(OperatorType::Multiply) && (
                match *ll {
                    NodeExprs::Number(lt) => lt.value@ == a,
                    _ => false,
                }) && (match *lr {
                    NodeExprs::Number(rt2) => rt2.value@ == b,
                    _ => false,
                }),
                _ => false,
            }),
            _ => false,
        }),
        _ => false,
    }
}


/// The lexicographic facts that order the three slot names of a
/// product-plus-literal binding: both multiplicative names come before
/// the additive one, and all three differ.
pub proof fn lemma_product_sum_names(x: Seq<char>)
    ensures
        lex_lt(
            slot_name(x, OperatorType::Multiply, 0, 0),
            slot_name(x, OperatorType::Multiply, 0, 1),
        ),
        !lex_lt(
            slot_name(x, OperatorType::Multiply, 0, 1),
            slot_name(x, OperatorType::Multiply, 0, 0),
        ),
        !lex_lt(
            slot_name(x, OperatorType::Plus, 0, 0),
            slot_name(x, OperatorType::Multiply, 0, 0),
        ),
        !lex_lt(
            slot_name(x, OperatorType::Plus, 0, 0),
            slot_name(x, OperatorType::Multiply, 0, 1),
        ),
        slot_name(x, OperatorType::Multiply, 0, 0) != slot_name(x, OperatorType::Multiply, 0, 1),
        slot_name(x, OperatorType::Multiply, 0, 0) != slot_name(x, OperatorType::Plus, 0, 0),
        slot_name(x, OperatorType::Multiply, 0, 1) != slot_name(x, OperatorType::Plus, 0, 0),
{
    reveal_strlit("Multiply");
    reveal_strlit("Plus");
    let nm_b = slot_name(x, OperatorType::Multiply, 0, 0);
    let nm_a = slot_name(x, OperatorType::Multiply, 0, 1);
    let nm_c = slot_name(x, OperatorType::Plus, 0, 0);
    assert(crate::compiler::spec_dec(0) == seq!['0']);
    assert(crate::compiler::spec_dec(1) == seq!['1']);
    let pm = x + "_"@ + "Multiply"@ + "_"@ + crate::compiler::spec_dec(0) + "_"@;
    assert(nm_b =~= pm + seq!['0']);
    assert(nm_a =~= pm + seq!['1']);
    lemma_lex_lt_common_prefix(pm, seq!['0'], seq!['1']);
    lemma_lex_lt_common_prefix(pm, seq!['1'], seq!['0']);
    assert(lex_lt(nm_b, nm_a));
    assert(!lex_lt(nm_a, nm_b));
    lemma_lex_lt_irrefl(nm_b);
    assert(nm_b != nm_a);
    let p0 = x + "_"@;
    let t_b = "Multiply"@ + ("_"@ + seq!['0'] + "_"@ + seq!['0']);
    let t_a = "Multiply"@ + ("_"@ + seq!['0'] + "_"@ + seq!['1']);
    let t_c = "Plus"@ + ("_"@ + seq!['0'] + "_"@ + seq!['0']);
    assert(nm_b =~= p0 + t_b);
    assert(nm_a =~= p0 + t_a);
    assert(nm_c =~= p0 + t_c);
    assert(t_b[0] == 'M');
    assert(t_a[0] == 'M');
    assert(t_c[0] == 'P');
    assert(lex_lt(t_c, t_b) == (('P' as u32) < ('M' as u32)));
    assert(lex_lt(t_c, t_a) == (('P' as u32) < ('M' as u32)));
    assert(lex_lt(t_b, t_c) == (('M' as u32) < ('P' as u32)));
    lemma_lex_lt_common_prefix(p0, t_c, t_b);
    lemma_lex_lt_common_prefix(p0, t_c, t_a);
    lemma_lex_lt_common_prefix(p0, t_b, t_c);
    assert(!lex_lt(nm_c, nm_b));
    assert(!lex_lt(nm_c, nm_a));
    assert(lex_lt(nm_b, nm_c));
    lemma_lex_lt_irrefl(nm_b);
    lemma_lex_lt_irrefl(nm_c);
    assert(nm_b != nm_c);
    assert(nm_a != nm_c) by {
        if nm_a == nm_c {
            assert(!lex_lt(nm_c, nm_a));
            assert(lex_lt(nm_a, nm_a) == lex_lt(nm_c, nm_a));
            assert(t_a[0] == t_c[0]);
        }
    }
}

/// Three slots of one owner are exactly what its lookup yields.
pub proof fn lemma_filter_three(s1: SpecSlot, s2: SpecSlot, s3: SpecSlot, x: Seq<char>)
    requires
        s1.owner == x,
        s2.owner == x,
        s3.owner == x,
    ensures
        binding_slots(seq![s1, s2, s3], x) == seq![s1, s2, s3],
{
    reveal(Seq::filter);
    let p = |s: SpecSlot| s.owner == x;
    assert(Seq::<SpecSlot>::empty().filter(p) == Seq::<SpecSlot>::empty());
    assert(seq![s1, s2, s3].drop_last() =~= seq![s1, s2]);
    assert(seq![s1, s2].drop_last() =~= seq![s1]);
    assert(seq![s1].drop_last() =~= Seq::<SpecSlot>::empty());
    assert(seq![s1].filter(p) == Seq::<SpecSlot>::empty().push(s1));
    assert(Seq::<SpecSlot>::empty().push(s1) =~= seq![s1]);
    assert(seq![s1, s2].filter(p) == seq![s1].filter(p).push(s2));
    assert(seq![s1].push(s2) =~= seq![s1, s2]);
    assert(seq![s1, s2, s3].filter(p) == seq![s1, s2].filter(p).push(s3));
    assert(seq![s1, s2].push(s3) =~= seq![s1, s2, s3]);
}

/// Three slots already in name order sort to themselves.
pub proof fn lemma_sort_three(s1: SpecSlot, s2: SpecSlot, s3: SpecSlot)
    requires
        !lex_lt(s2.name, s1.name),
        !lex_lt(s3.name, s1.name),
        !lex_lt(s3.name, s2.name),
    ensures
        spec_sort(seq![s1, s2, s3]) == seq![s1, s2, s3],
{
    assert(seq![s1, s2, s3].drop_last() =~= seq![s1, s2]);
    assert(seq![s1, s2].drop_last() =~= seq![s1]);
    assert(seq![s1].drop_last() =~= Seq::<SpecSlot>::empty());
    assert(spec_sort(Seq::<SpecSlot>::empty()) == Seq::<SpecSlot>::empty());
    assert(crate::compiler::spec_insert(s1, Seq::<SpecSlot>::empty()) == seq![s1]);
    assert(spec_sort(seq![s1]) == seq![s1]);
    assert(seq![s1].drop_first() =~= Seq::<SpecSlot>::empty());
    assert(crate::compiler::spec_insert(s2, Seq::<SpecSlot>::empty()) == seq![s2]);
    assert(crate::compiler::spec_insert(s2, seq![s1]) == seq![s1]
        + crate::compiler::spec_insert(s2, seq![s1].drop_first()));
    assert(seq![s1] + seq![s2] =~= seq![s1, s2]);
    assert(spec_sort(seq![s1, s2]) == seq![s1, s2]);
    assert(seq![s1, s2].drop_first() =~= seq![s2]);
    assert(seq![s2].drop_first() =~= Seq::<SpecSlot>::empty());
    assert(crate::compiler::spec_insert(s3, Seq::<SpecSlot>::empty()) == seq![s3]);
    assert(crate::compiler::spec_insert(s3, seq![s2]) == seq![s2]
        + crate::compiler::spec_insert(s3, seq![s2].drop_first()));
    assert(seq![s2] + seq![s3] =~= seq![s2, s3]);
    assert(crate::compiler::spec_insert(s3, seq![s1, s2]) == seq![s1]
        + crate::compiler::spec_insert(s3, seq![s1, s2].drop_first()));
    assert(seq![s1] + seq![s2, s3] =~= seq![s1, s2, s3]);
}

/// Reducing two multiplicative slots followed by one additive slot:
/// the product is formed in the scratch registers first, flushed once,
/// and only then is the additive slot accumulated.
pub proof fn lemma_reduce_product_sum(s1: SpecSlot, s2: SpecSlot, s3: SpecSlot)
    requires
        s1.operator == Some(OperatorType::Multiply),
        s2.operator == Some(OperatorType::Multiply),
        s3.operator == Some(OperatorType::Plus),
    ensures
        spec_reduce(seq![s1, s2, s3]) == Ok::<Seq<Instr>, CompileError>(
            seq![
                Instr::MovAxSlot { slot: s1.name },
                Instr::MovBxSlot { slot: s2.name },
                Instr::MulAxBx,
                Instr::AddDestAx,
                Instr::AddDestSlot { slot: s3.name },
            ],
        ),
{
    let sorted = seq![s1, s2, s3];
    let i_ax = Instr::MovAxSlot { slot: s1.name };
    let i_bx = Instr::MovBxSlot { slot: s2.name };
    let i_c = Instr::AddDestSlot { slot: s3.name };
    assert(spec_reduce_from(sorted, 3, OperatorType::Plus, 0) == Ok::<Seq<Instr>, CompileError>(
        Seq::empty(),
    ));
    assert(spec_reduce_from(sorted, 2, OperatorType::Multiply, 0) == Ok::<
        Seq<Instr>,
        CompileError,
    >(seq![Instr::AddDestAx] + seq![i_c] + Seq::<Instr>::empty()));
    assert(seq![Instr::AddDestAx] + seq![i_c] + Seq::<Instr>::empty() =~= seq![
        Instr::AddDestAx,
        i_c,
    ]);
    assert(sorted[1] == s2);
    assert(spec_reduce_from(sorted, 0, OperatorType::Plus, 0) == Ok::<Seq<Instr>, CompileError>((
    Seq::<Instr>::empty() + seq![i_ax, i_bx, Instr::MulAxBx] + Seq::<Instr>::empty()) + seq![
        Instr::AddDestAx,
        i_c,
    ]));
    assert((Seq::<Instr>::empty() + seq![i_ax, i_bx, Instr::MulAxBx] + Seq::<Instr>::empty())
        + seq![Instr::AddDestAx, i_c] =~= seq![i_ax, i_bx, Instr::MulAxBx, Instr::AddDestAx, i_c]);
}

/// Running a zero, product, flush, add, exit group leaves the product
/// of the two factor slots plus the additive slot in the destination.
pub proof fn lemma_run_product_sum(
    n1: Seq<char>,
    n2: Seq<char>,
    n3: Seq<char>,
    d: Map<Seq<char>, int>,
    m0: MachineState,
)
    ensures
        run(
            m0,
            seq![
                Instr::ZeroDest,
                Instr::MovAxSlot { slot: n1 },
                Instr::MovBxSlot { slot: n2 },
                Instr::MulAxBx,
                Instr::AddDestAx,
                Instr::AddDestSlot { slot: n3 },
                Instr::ExitCall,
            ],
            d,
        ).rdi == d[n1] * d[n2] + d[n3],
{
    let i_ax = Instr::MovAxSlot { slot: n1 };
    let i_bx = Instr::MovBxSlot { slot: n2 };
    let i_c = Instr::AddDestSlot { slot: n3 };
    let g0 = seq![Instr::ZeroDest, i_ax, i_bx, Instr::MulAxBx, Instr::AddDestAx, i_c, Instr::ExitCall];
    let m1 = step(m0, Instr::ZeroDest, d);
    let m2 = step(m1, i_ax, d);
    let m3 = step(m2, i_bx, d);
    let m4 = step(m3, Instr::MulAxBx, d);
    let m5 = step(m4, Instr::AddDestAx, d);
    let m6 = step(m5, i_c, d);
    let m7 = step(m6, Instr::ExitCall, d);
    assert(m6.rdi == d[n1] * d[n2] + d[n3]);
    let g1 = seq![i_ax, i_bx, Instr::MulAxBx, Instr::AddDestAx, i_c, Instr::ExitCall];
    let g2 = seq![i_bx, Instr::MulAxBx, Instr::AddDestAx, i_c, Instr::ExitCall];
    let g3 = seq![Instr::MulAxBx, Instr::AddDestAx, i_c, Instr::ExitCall];
    let g4 = seq![Instr::AddDestAx, i_c, Instr::ExitCall];
    let g5 = seq![i_c, Instr::ExitCall];
    let g6 = seq![Instr::ExitCall];
    assert(g0.drop_first() =~= g1);
    assert(g1.drop_first() =~= g2);
    assert(g2.drop_first() =~= g3);
    assert(g3.drop_first() =~= g4);
    assert(g4.drop_first() =~= g5);
    assert(g5.drop_first() =~= g6);
    assert(g6.drop_first() =~= Seq::<Instr>::empty());
    assert(run(m0, g0, d) == run(m1, g1, d));
    assert(run(m1, g1, d) == run(m2, g2, d));
    assert(run(m2, g2, d) == run(m3, g3, d));
    assert(run(m3, g3, d) == run(m4, g4, d));
    assert(run(m4, g4, d) == run(m5, g5, d));
    assert(run(m5, g5, d) == run(m6, g6, d));
    assert(run(m6, g6, d) == run(m7, Seq::<Instr>::empty(), d));
    assert(run(m7, Seq::<Instr>::empty(), d) == m7);
}

/// Lowering `let x = a * b + c;` from the initial pass state allocates
/// exactly the slots of `b`, `a` and `c`, in that order: the right
/// operand of the `*` node first (under the forced multiplication
/// context), then its left operand, then the additive literal.
pub proof fn lemma_lower_product_sum(
    e: NodeExprs,
    x: Seq<char>,
    a: Seq<char>,
    b: Seq<char>,
    c: Seq<char>,
)
    requires
        is_product_sum_binding(e, x, a, b, c),
        slot_name(x, OperatorType::Multiply, 0, 0) != slot_name(x, OperatorType::Multiply, 0, 1),
        slot_name(x, OperatorType::Multiply, 0, 0) != slot_name(x, OperatorType::Plus, 0, 0),
        slot_name(x, OperatorType::Multiply, 0, 1) != slot_name(x, OperatorType::Plus, 0, 0),
    ensures
        spec_stmt(initial_cstate(), e) == Ok::<CState, CompileError>(
            CState {
                slots: seq![
                    SpecSlot {
                        name: slot_name(x, OperatorType::Multiply, 0, 0),
                        owner: x,
                        value: b,
                        operator: Some(OperatorType::Multiply),
                        width: 64,
                    },
                    SpecSlot {
                        name: slot_name(x, OperatorType::Multiply, 0, 1),
                        owner: x,
                        value: a,
                        operator: Some(OperatorType::Multiply),
                        width: 64,
                    },
                    SpecSlot {
                        name: slot_name(x, OperatorType::Plus, 0, 0),
                        owner: x,
                        value: c,
                        operator: Some(OperatorType::Plus),
                        width: 64,
                    },
                ],
                lstate: spec_note(
                    spec_note(
                        spec_note(
                            spec_note(initial_cstate().lstate, OperatorType::Plus),
                            OperatorType::Multiply,
                        ),
                        OperatorType::Multiply,
                    ),
                    OperatorType::Plus,
                ),
                groups: Seq::empty(),
            },
        ),
{
    reveal(spec_stmt);
    let cs0 = initial_cstate();
    let nm_b = slot_name(x, OperatorType::Multiply, 0, 0);
    let nm_a = slot_name(x, OperatorType::Multiply, 0, 1);
    let nm_c = slot_name(x, OperatorType::Plus, 0, 0);
    let s_b = SpecSlot {
        name: nm_b,
        owner: x,
        value: b,
        operator: Some(OperatorType::Multiply),
        width: 64,
    };
    let s_a = SpecSlot {
        name: nm_a,
        owner: x,
        value: a,
        operator: Some(OperatorType::Multiply),
        width: 64,
    };
    let s_c = SpecSlot {
        name: nm_c,
        owner: x,
        value: c,
        operator: Some(OperatorType::Plus),
        width: 64,
    };
    match e {
        NodeExprs::Let(tok, inner) => {
            match *inner {
                NodeExprs::BinOp(l, op, r) => {
                    let st1 = spec_note(cs0.lstate, OperatorType::Plus);
                    assert(st1.chain == 1 && st1.last == OperatorType::Plus);
                    match *l {
                        NodeExprs::BinOp(ll, lop, lr) => {
                            let st2 = spec_note(st1, OperatorType::Multiply);
                            assert(st2.chain == 0 && st2.occ_multiply == Some(0usize));
                            assert(occ_read(st2, OperatorType::Multiply) == 0);
                            let cs1 = CState { slots: cs0.slots, lstate: st1, groups: cs0.groups };
                            let mb = spec_lower_alloc(*lr, x, Some(OperatorType::Multiply), cs1);
                            assert(Seq::<SpecSlot>::empty().push(s_b) =~= seq![s_b]);
                            assert(mb == Ok::<CState, CompileError>(
                                CState { slots: seq![s_b], lstate: st2, groups: cs0.groups },
                            ));
                            let st3 = spec_note(st2, OperatorType::Multiply);
                            assert(st3.chain == 1);
                            assert(occ_read(st3, OperatorType::Multiply) == 0);
                            assert(!has_name(seq![s_b], nm_a));
                            let ma = spec_lower_alloc(*ll, x, Some(OperatorType::Multiply), mb->Ok_0);
                            assert(seq![s_b].push(s_a) =~= seq![s_b, s_a]);
                            assert(ma == Ok::<CState, CompileError>(
                                CState { slots: seq![s_b, s_a], lstate: st3, groups: cs0.groups },
                            ));
                            assert(spec_lower_alloc(*l, x, Some(OperatorType::Plus), cs0) == ma);
                            let st4 = spec_note(st3, OperatorType::Plus);
                            assert(st4.chain == 0 && st4.occ_plus == Some(0usize));
                            assert(occ_read(st4, OperatorType::Plus) == 0);
                            assert(!has_name(seq![s_b, s_a], nm_c));
                            let mc = spec_lower_alloc(*r, x, Some(OperatorType::Plus), ma->Ok_0);
                            assert(seq![s_b, s_a].push(s_c) =~= seq![s_b, s_a, s_c]);
                            assert(mc == Ok::<CState, CompileError>(
                                CState {
                                    slots: seq![s_b, s_a, s_c],
                                    lstate: st4,
                                    groups: cs0.groups,
                                },
                            ));
                            assert(spec_stmt(cs0, e) == mc);
                        },
                        _ => {
                        },
                    }
                },
                _ => {
                },
            }
        },
        _ => {
        },
    }
}

/// In a chain that mixes operators, the multiplicative run is grouped
/// into one product in the scratch registers — the two factor loads and
/// the `imul` stand before any additive instruction — and the product
/// is flushed into the destination register exactly once, before the
/// additive slot is accumulated: exiting the binding leaves
/// `a * b + c` in the destination register.
#[verifier::rlimit(100)]
pub proof fn lemma_product_sum_binding_exit(
    root: NodeRoot,
    x: Seq<char>,
    a: Seq<char>,
    b: Seq<char>,
    c: Seq<char>,
)
    requires
        root.stmts@.len() == 2,
        is_product_sum_binding(root.stmts@[0].expr, x, a, b, c),
        is_exit_of(root.stmts@[1].expr, x),
    ensures
        spec_final_state(root) is Ok,
        spec_final_state(root)->Ok_0.groups.len() == 1,
        spec_final_state(root)->Ok_0.groups[0] == seq![
            Instr::ZeroDest,
            Instr::MovAxSlot { slot: slot_name(x, OperatorType::Multiply, 0, 0) },
            Instr::MovBxSlot { slot: slot_name(x, OperatorType::Multiply, 0, 1) },
            Instr::MulAxBx,
            Instr::AddDestAx,
            Instr::AddDestSlot { slot: slot_name(x, OperatorType::Plus, 0, 0) },
            Instr::ExitCall,
        ],
        forall|m0: MachineState|
            run(
                m0,
                spec_final_state(root)->Ok_0.groups[0],
                data_map(spec_final_state(root)->Ok_0.slots),
            ).rdi == lit_val(a) * lit_val(b) + lit_val(c),
{
    reveal(spec_stmt);
    let stmts = root.stmts@;
    let cs0 = initial_cstate();
    let nm_b = slot_name(x, OperatorType::Multiply, 0, 0);
    let nm_a = slot_name(x, OperatorType::Multiply, 0, 1);
    let nm_c = slot_name(x, OperatorType::Plus, 0, 0);
    let s_b = SpecSlot {
        name: nm_b,
        owner: x,
        value: b,
        operator: Some(OperatorType::Multiply),
        width: 64,
    };
    let s_a = SpecSlot {
        name: nm_a,
        owner: x,
        value: a,
        operator: Some(OperatorType::Multiply),
        width: 64,
    };
    let s_c = SpecSlot {
        name: nm_c,
        owner: x,
        value: c,
        operator: Some(OperatorType::Plus),
        width: 64,
    };
    lemma_product_sum_names(x);
    lemma_lower_product_sum(stmts[0].expr, x, a, b, c);
    let csl = CState {
        slots: seq![s_b, s_a, s_c],
        lstate: spec_note(
            spec_note(
                spec_note(spec_note(cs0.lstate, OperatorType::Plus), OperatorType::Multiply),
                OperatorType::Multiply,
            ),
            OperatorType::Plus,
        ),
        groups: Seq::empty(),
    };
    assert(spec_stmt(cs0, stmts[0].expr) == Ok::<CState, CompileError>(csl));
    lemma_filter_three(s_b, s_a, s_c, x);
    lemma_sort_three(s_b, s_a, s_c);
    lemma_reduce_product_sum(s_b, s_a, s_c);
    let instrs = seq![
        Instr::MovAxSlot { slot: nm_b },
        Instr::MovBxSlot { slot: nm_a },
        Instr::MulAxBx,
        Instr::AddDestAx,
        Instr::AddDestSlot { slot: nm_c },
    ];
    let g = seq![Instr::ZeroDest] + instrs + seq![Instr::ExitCall];
    assert(g =~= seq![
        Instr::ZeroDest,
        Instr::MovAxSlot { slot: nm_b },
        Instr::MovBxSlot { slot: nm_a },
        Instr::MulAxBx,
        Instr::AddDestAx,
        Instr::AddDestSlot { slot: nm_c },
        Instr::ExitCall,
    ]);
    match stmts[1].expr {
        NodeExprs::Exit(t) => {
            assert(spec_exit(csl, t) == Ok::<CState, CompileError>(
                CState { slots: csl.slots, lstate: csl.lstate, groups: Seq::empty().push(g) },
            ));
        },
        _ => {
        },
    }
    let csf = CState { slots: csl.slots, lstate: csl.lstate, groups: Seq::empty().push(g) };
    assert(spec_stmt(csl, stmts[1].expr) == Ok::<CState, CompileError>(csf));
    assert(spec_pass(csf, stmts, 2) == Ok::<CState, CompileError>(csf));
    assert(spec_pass(csl, stmts, 1) == Ok::<CState, CompileError>(csf));
    assert(spec_pass(cs0, stmts, 0) == Ok::<CState, CompileError>(csf));
    assert(spec_final_state(root) == Ok::<CState, CompileError>(csf));
    assert(csf.groups[0] == g);
    let d = data_map(csf.slots);
    assert(seq![s_b, s_a, s_c].drop_last() =~= seq![s_b, s_a]);
    assert(seq![s_b, s_a].drop_last() =~= seq![s_b]);
    assert(seq![s_b].drop_last() =~= Seq::<SpecSlot>::empty());
    assert(d == data_map(seq![s_b, s_a]).insert(nm_c, lit_val(c)));
    assert(data_map(seq![s_b, s_a]) == data_map(seq![s_b]).insert(nm_a, lit_val(a)));
    assert(data_map(seq![s_b]) == data_map(Seq::<SpecSlot>::empty()).insert(nm_b, lit_val(b)));
    assert(d[nm_c] == lit_val(c));
    assert(d[nm_a] == lit_val(a));
    assert(d[nm_b] == lit_val(b));
    assert forall|m0: MachineState| run(m0, csf.groups[0], d).rdi == lit_val(a) * lit_val(b)
        + lit_val(c) by {
        lemma_run_product_sum(nm_b, nm_a, nm_c, d, m0);
        assert(run(m0, csf.groups[0], d).rdi == d[nm_b] * d[nm_a] + d[nm_c]);
        assert(lit_val(b) * lit_val(a) == lit_val(a) * lit_val(b)) by (nonlinear_arith);
    }
}

/// The sum of the slots' data-section values, from position `i` on.
pub open spec fn sum_from(slots: Seq<SpecSlot>, i: int, d: Map<Seq<char>, int>) -> int
    decreases slots.len() - i,
{
    if i < 0 || i >= slots.len() {
        0
    } else {
        d[slots[i].name] + sum_from(slots, i + 1, d)
    }
}

/// Reducing slots that all accumulate by addition succeeds and adds
/// every slot's value into the destination register — whatever their
/// number and order, so a sorted sequence contributes the same sum as
/// the allocation-ordered one.
pub proof fn lemma_reduce_additive(
    slots: Seq<SpecSlot>,
    i: int,
    last: OperatorType,
    chain: usize,
    d: Map<Seq<char>, int>,
    m: MachineState,
)
    requires
        forall|j: int| i <= j < slots.len() ==> slots[j].operator == Some(OperatorType::Plus),
        last != OperatorType::Multiply,
    ensures
        spec_reduce_from(slots, i, last, chain) is Ok,
        run(m, spec_reduce_from(slots, i, last, chain)->Ok_0, d).rdi == m.rdi + sum_from(
            slots,
            i,
            d,
        ),
    decreases slots.len() - i,
{
    if i < 0 || i >= slots.len() {
        assert(spec_reduce_from(slots, i, last, chain) == Ok::<Seq<Instr>, CompileError>(
            Seq::empty(),
        ));
    } else {
        let s = slots[i];
        assert(s.operator == Some(OperatorType::Plus));
        let chain2: usize = if OperatorType::Plus == last {
            crate::compiler::sat_inc(chain)
        } else {
            0
        };
        let x = Instr::AddDestSlot { slot: s.name };
        let m1 = step(m, x, d);
        lemma_reduce_additive(slots, i + 1, OperatorType::Plus, chain2, d, m1);
        let rest = spec_reduce_from(slots, i + 1, OperatorType::Plus, chain2)->Ok_0;
        assert(Seq::<Instr>::empty() + seq![x] + rest =~= seq![x] + rest);
        assert(spec_reduce_from(slots, i, last, chain) == Ok::<Seq<Instr>, CompileError>(
            seq![x] + rest,
        ));
        assert((seq![x] + rest)[0] == x);
        assert((seq![x] + rest).drop_first() =~= rest);
        assert(run(m, seq![x] + rest, d) == run(m1, rest, d));
    }
}

/// Exiting a binding whose sorted slots are all additive emits a group
/// that zeroes the destination register, accumulates every slot, and
/// exits with their sum as the status.
pub proof fn lemma_additive_exit(
    cs: CState,
    t: Token,
    cs2: CState,
    d: Map<Seq<char>, int>,
    m0: MachineState,
)
    requires
        spec_exit(cs, t) == Ok::<CState, CompileError>(cs2),
        t.token_type == TokenType::Identifier,
        binding_slots(cs.slots, t.value@).len() > 0,
        forall|j: int|
            0 <= j < spec_sort(binding_slots(cs.slots, t.value@)).len() ==> spec_sort(
                binding_slots(cs.slots, t.value@),
            )[j].operator == Some(OperatorType::Plus),
    ensures
        cs2.groups.len() == cs.groups.len() + 1,
        run(m0, cs2.groups.last(), d).rdi == sum_from(
            spec_sort(binding_slots(cs.slots, t.value@)),
            0,
            d,
        ),
{
    let sorted = spec_sort(binding_slots(cs.slots, t.value@));
    lemma_reduce_additive(sorted, 0, OperatorType::Plus, 0, d, step(m0, Instr::ZeroDest, d));
    let instrs = spec_reduce(sorted)->Ok_0;
    let g = seq![Instr::ZeroDest] + instrs + seq![Instr::ExitCall];
    assert(cs2.groups == cs.groups.push(g));
    assert(cs2.groups.last() == g);
    let m1 = step(m0, Instr::ZeroDest, d);
    assert(m1.rdi == 0);
    assert((seq![Instr::ZeroDest] + instrs)[0] == Instr::ZeroDest);
    assert((seq![Instr::ZeroDest] + instrs).drop_first() =~= instrs);
    assert(run(m0, seq![Instr::ZeroDest] + instrs, d) == run(m1, instrs, d));
    lemma_run_concat(m0, seq![Instr::ZeroDest] + instrs, seq![Instr::ExitCall], d);
    let m2 = run(m1, instrs, d);
    assert(m2.rdi == sum_from(sorted, 0, d));
    assert(seq![Instr::ExitCall].drop_first() =~= Seq::<Instr>::empty());
    assert(run(m2, seq![Instr::ExitCall], d) == run(
        step(m2, Instr::ExitCall, d),
        Seq::<Instr>::empty(),
        d,
    ));
    assert(run(step(m2, Instr::ExitCall, d), Seq::<Instr>::empty(), d) == step(
        m2,
        Instr::ExitCall,
        d,
    ));
    assert(run(m0, g, d).rdi == sum_from(sorted, 0, d));
}

} // verus!
