//! Simplify the argument list carried by a branch instruction.
//!
//! A branch hands its destination block a list of arguments. An argument
//! that is directly forwarded — it is exactly the destination's own
//! parameter at the same position — carries no information, and targets
//! cannot encode it, so it is removed. The rewrite is purely local: it
//! touches only the branch instruction itself, never revisits other
//! instructions, and never fails. For a conditional branch the first
//! operand is the condition, not a carried argument, and is always kept.

use vstd::prelude::*;
use crate::ir::Function;
use crate::ir::InstData;
use crate::ir::Opcode;
use crate::ir::inst_same;
use crate::ir::local_edit;

verus! {

/// Whether operand `j` of a branch is directly forwarded: it is a
/// carried argument (at or after `off`, the number of non-argument
/// operands) and equals the destination's parameter at its position.
pub open spec fn forwarded(args: Seq<usize>, params: Seq<usize>, off: int, j: int) -> bool {
    &&& j >= off
    &&& j - off < params.len()
    &&& args[j] == params[j - off]
}

/// The simplified operand list: every directly forwarded argument
/// removed, everything else kept in order.
pub open spec fn simplified_args(args: Seq<usize>, params: Seq<usize>, off: int) -> Seq<usize>
    decreases args.len(),
{
    if args.len() == 0 {
        Seq::empty()
    } else if forwarded(args, params, off, args.len() - 1) {
        simplified_args(args.drop_last(), params, off)
    } else {
        simplified_args(args.drop_last(), params, off).push(args.last())
    }
}

/// Simplification never grows the list.
pub proof fn lemma_simplified_len(args: Seq<usize>, params: Seq<usize>, off: int)
    ensures
        simplified_args(args, params, off).len() <= args.len(),
    decreases args.len(),
{
    if args.len() > 0 {
        lemma_simplified_len(args.drop_last(), params, off);
    }
}

/// A list that simplification does not shorten is already simplified:
/// it comes back unchanged. This is what makes the rewrite idempotent.
pub proof fn lemma_simplified_full(args: Seq<usize>, params: Seq<usize>, off: int)
    requires
        simplified_args(args, params, off).len() == args.len(),
    ensures
        simplified_args(args, params, off) == args,
    decreases args.len(),
{
    if args.len() > 0 {
        lemma_simplified_len(args.drop_last(), params, off);
        if forwarded(args, params, off, args.len() - 1) {
            assert(simplified_args(args, params, off).len() < args.len());
        } else {
            lemma_simplified_full(args.drop_last(), params, off);
            assert(simplified_args(args, params, off) =~= args);
        }
    } else {
        assert(simplified_args(args, params, off) =~= args);
    }
}

/// One simplification pass: remove every argument that is directly
/// forwarded at its current position.
fn simplify_pass(func: &mut Function, b: usize, i: usize) -> (changed: bool)
    requires
        old(func).wf(),
        b < old(func).layout.num_ebbs(),
        i < old(func).layout.insts_of(b as int).len(),
        old(func).dfg.insts@[old(func).layout.insts_of(b as int)[i as int] as int]
            .opcode.spec_is_branch(),
    ensures
        final(func).wf(),
        final(func).layout == old(func).layout,
        final(func).encodings == old(func).encodings,
        !changed ==> *final(func) == *old(func),
        changed ==> local_edit(*old(func), *final(func), b as int, i as int,
            old(func).layout.insts_of(b as int)[i as int]),
        final(func).signature == old(func).signature,
        final(func).dfg.results == old(func).dfg.results,
        final(func).dfg.value_types == old(func).dfg.value_types,
        final(func).dfg.ebb_params == old(func).dfg.ebb_params,
        final(func).dfg.insts@.len() == old(func).dfg.insts@.len(),
        forall|oid: int|
            0 <= oid < old(func).dfg.insts@.len()
                && oid != old(func).layout.insts_of(b as int)[i as int]
                ==> inst_same(#[trigger] final(func).dfg.insts@[oid], old(func).dfg.insts@[oid]),
        changed ==> ({
            let id = old(func).layout.insts_of(b as int)[i as int] as int;
            let d = old(func).dfg.insts@[id];
            let off: int = if d.opcode is Brz { 1 } else { 0 };
            simplified_args(d.args@, dest_params(*old(func), d.dest as int), off) != d.args@
        }),
        ({
            let id = old(func).layout.insts_of(b as int)[i as int] as int;
            let d = old(func).dfg.insts@[id];
            let off: int = if d.opcode is Brz { 1 } else { 0 };
            &&& final(func).dfg.insts@[id].args@ == simplified_args(d.args@, dest_params(*old(func), d.dest as int), off)
            &&& final(func).dfg.insts@[id].opcode == d.opcode
            &&& final(func).dfg.insts@[id].ty == d.ty
            &&& final(func).dfg.insts@[id].imm == d.imm
            &&& final(func).dfg.insts@[id].dest == d.dest
        }),
{
    let id = func.layout.ebb_insts[b][i];
    let is_brz = matches!(func.dfg.insts[id].opcode, Opcode::Brz);
    let off: usize = if is_brz { 1 } else { 0 };
    let dest = func.dfg.insts[id].dest;
    let ghost gparams = dest_params(*func, dest as int);

    let nargs = func.dfg.insts[id].args.len();
    let mut new_args: Vec<usize> = Vec::new();
    let mut k: usize = 0;
    while k < nargs
        invariant
            func.wf(),
            func == old(func),
            b < func.layout.num_ebbs(),
            i < func.layout.insts_of(b as int).len(),
            id == func.layout.insts_of(b as int)[i as int],
            id < func.dfg.num_insts(),
            k <= nargs,
            nargs == func.dfg.insts@[id as int].args@.len(),
            dest == func.dfg.insts@[id as int].dest,
            off == (if func.dfg.insts@[id as int].opcode is Brz { 1int } else { 0int }),
            gparams == dest_params(*func, dest as int),
            new_args@ == simplified_args(
                func.dfg.insts@[id as int].args@.take(k as int), gparams, off as int),
            forall|j: int| 0 <= j < new_args@.len()
                ==> #[trigger] new_args@[j] < func.dfg.num_values(),
        decreases nargs - k,
    {
        let a = func.dfg.insts[id].args[k];
        let mut keep = true;
        if k >= off {
            if dest < func.dfg.ebb_params.len() {
                let params = &func.dfg.ebb_params[dest];
                if k - off < params.len() && a == params[k - off] {
                    keep = false;
                }
            }
        }
        proof {
            let full = func.dfg.insts@[id as int].args@;
            assert(full.take(k + 1 as int).drop_last() =~= full.take(k as int));
            assert(full.take(k + 1 as int).last() == full[k as int]);
        }
        if keep {
            new_args.push(a);
        }
        k += 1;
    }
    proof {
        let full = func.dfg.insts@[id as int].args@;
        assert(full.take(nargs as int) =~= full);
    }

    if new_args.len() == nargs {
        proof {
            lemma_simplified_full(func.dfg.insts@[id as int].args@, gparams, off as int);
        }
        return false;
    }

    let d = &func.dfg.insts[id];
    let data = InstData {
        opcode: d.opcode,
        ty: d.ty,
        args: new_args,
        imm: d.imm,
        dest: d.dest,
    };
    func.replace_inst(id, data);
    true
}

/// The fully simplified operand list: one pass repeated until nothing
/// more is forwarded. A single pass can expose a new forwarding, because
/// a removal shifts a later argument onto an earlier parameter
/// position, so the encodable form is this closure.
pub open spec fn simplify_closure(args: Seq<usize>, params: Seq<usize>, off: int) -> Seq<usize>
    decreases args.len(),
    via simplify_closure_decreases
{
    if simplified_args(args, params, off).len() == args.len() {
        args
    } else {
        simplify_closure(simplified_args(args, params, off), params, off)
    }
}

#[via_fn]
proof fn simplify_closure_decreases(args: Seq<usize>, params: Seq<usize>, off: int) {
    lemma_simplified_len(args, params, off);
}

/// The closure is a fixed point: one more pass changes nothing.
pub proof fn lemma_closure_fixed(args: Seq<usize>, params: Seq<usize>, off: int)
    ensures
        simplified_args(simplify_closure(args, params, off), params, off)
            == simplify_closure(args, params, off),
    decreases args.len(),
{
    lemma_simplified_len(args, params, off);
    if simplified_args(args, params, off).len() == args.len() {
        lemma_simplified_full(args, params, off);
    } else {
        lemma_closure_fixed(simplified_args(args, params, off), params, off);
    }
}

/// Reduce the argument list of the branch at position `i` of block `b`
/// to the form the target can encode directly, removing directly
/// forwarded arguments until none remains. Reports whether the
/// instruction changed; no instruction is ever inserted, so the driver
/// never rewinds for it, and re-running on the result changes nothing.
pub fn simplify_branch_arguments(func: &mut Function, b: usize, i: usize) -> (changed: bool)
    requires
        old(func).wf(),
        b < old(func).layout.num_ebbs(),
        i < old(func).layout.insts_of(b as int).len(),
        old(func).dfg.insts@[old(func).layout.insts_of(b as int)[i as int] as int]
            .opcode.spec_is_branch(),
    ensures
        final(func).wf(),
        final(func).layout == old(func).layout,
        final(func).encodings == old(func).encodings,
        final(func).signature == old(func).signature,
        final(func).dfg.results == old(func).dfg.results,
        final(func).dfg.value_types == old(func).dfg.value_types,
        final(func).dfg.ebb_params == old(func).dfg.ebb_params,
        final(func).dfg.insts@.len() == old(func).dfg.insts@.len(),
        forall|oid: int|
            0 <= oid < old(func).dfg.insts@.len()
                && oid != old(func).layout.insts_of(b as int)[i as int]
                ==> inst_same(#[trigger] final(func).dfg.insts@[oid], old(func).dfg.insts@[oid]),
        !changed ==> *final(func) == *old(func),
        changed ==> local_edit(*old(func), *final(func), b as int, i as int,
            old(func).layout.insts_of(b as int)[i as int]),
        ({
            let id = old(func).layout.insts_of(b as int)[i as int] as int;
            let d = old(func).dfg.insts@[id];
            let off: int = if d.opcode is Brz { 1 } else { 0 };
            let params = dest_params(*old(func), d.dest as int);
            &&& final(func).dfg.insts@[id].args@ == simplify_closure(d.args@, params, off)
            &&& simplified_args(final(func).dfg.insts@[id].args@, params, off)
                == final(func).dfg.insts@[id].args@
            &&& (changed <==> simplify_closure(d.args@, params, off) != d.args@)
            &&& final(func).dfg.insts@[id].opcode == d.opcode
            &&& final(func).dfg.insts@[id].ty == d.ty
            &&& final(func).dfg.insts@[id].imm == d.imm
            &&& final(func).dfg.insts@[id].dest == d.dest
        }),
{
    let ghost id = old(func).layout.insts_of(b as int)[i as int] as int;
    let ghost d0 = old(func).dfg.insts@[id];
    let ghost off: int = if d0.opcode is Brz { 1int } else { 0int };
    let ghost params = dest_params(*old(func), d0.dest as int);
    let mut changed = false;
    loop
        invariant
            func.wf(),
            b < func.layout.num_ebbs(),
            i < func.layout.insts_of(b as int).len(),
            func.layout == old(func).layout,
            func.encodings == old(func).encodings,
            func.signature == old(func).signature,
            func.dfg.results == old(func).dfg.results,
            func.dfg.value_types == old(func).dfg.value_types,
            func.dfg.ebb_params == old(func).dfg.ebb_params,
            func.dfg.insts@.len() == old(func).dfg.insts@.len(),
            id == old(func).layout.insts_of(b as int)[i as int] as int,
            d0 == old(func).dfg.insts@[id],
            d0.opcode.spec_is_branch(),
            off == (if d0.opcode is Brz { 1int } else { 0int }),
            params == dest_params(*old(func), d0.dest as int),
            forall|oid: int|
                0 <= oid < old(func).dfg.insts@.len() && oid != id
                    ==> inst_same(#[trigger] func.dfg.insts@[oid], old(func).dfg.insts@[oid]),
            func.dfg.insts@[id].opcode == d0.opcode,
            func.dfg.insts@[id].ty == d0.ty,
            func.dfg.insts@[id].imm == d0.imm,
            func.dfg.insts@[id].dest == d0.dest,
            simplify_closure(func.dfg.insts@[id].args@, params, off)
                == simplify_closure(d0.args@, params, off),
            !changed ==> *func == *old(func),
            changed ==> func.dfg.insts@[id].args@.len() < d0.args@.len(),
            changed ==> local_edit(*old(func), *func, b as int, i as int, id as usize),
        ensures
            func.wf(),
            func.layout == old(func).layout,
            func.encodings == old(func).encodings,
            func.signature == old(func).signature,
            func.dfg.results == old(func).dfg.results,
            func.dfg.value_types == old(func).dfg.value_types,
            func.dfg.ebb_params == old(func).dfg.ebb_params,
            func.dfg.insts@.len() == old(func).dfg.insts@.len(),
            forall|oid: int|
                0 <= oid < old(func).dfg.insts@.len() && oid != id
                    ==> inst_same(#[trigger] func.dfg.insts@[oid], old(func).dfg.insts@[oid]),
            func.dfg.insts@[id].opcode == d0.opcode,
            func.dfg.insts@[id].ty == d0.ty,
            func.dfg.insts@[id].imm == d0.imm,
            func.dfg.insts@[id].dest == d0.dest,
            func.dfg.insts@[id].args@ == simplify_closure(d0.args@, params, off),
            simplified_args(func.dfg.insts@[id].args@, params, off) == func.dfg.insts@[id].args@,
            !changed ==> *func == *old(func),
            changed ==> func.dfg.insts@[id].args@.len() < d0.args@.len(),
            changed ==> local_edit(*old(func), *func, b as int, i as int, id as usize),
        decreases func.dfg.insts@[id].args@.len(),
    {
        let ghost before_pass = *func;
        let pass_changed = simplify_pass(func, b, i);
        proof {
            let cur = before_pass.dfg.insts@[id].args@;
            lemma_simplified_len(cur, params, off);
            if pass_changed {
                if simplified_args(cur, params, off).len() == cur.len() {
                    lemma_simplified_full(cur, params, off);
                }
                assert(simplify_closure(cur, params, off)
                    == simplify_closure(simplified_args(cur, params, off), params, off));
            }
        }
        if !pass_changed {
            break;
        }
        changed = true;
    }
    proof {
        if changed {
            assert(simplify_closure(d0.args@, params, off) != d0.args@);
        } else {
            assert(func.dfg.insts@[id].args@ == d0.args@);
        }
    }
    changed
}

/// The parameter values of the destination block, or the empty list when
/// the destination handle has no parameter record.
pub open spec fn dest_params(f: Function, dest: int) -> Seq<usize> {
    if 0 <= dest < f.dfg.ebb_params@.len() {
        f.dfg.ebb_params@[dest]@
    } else {
        Seq::empty()
    }
}

} // verus!
