//! A test-case reduction harness over the legalization pipeline.
//!
//! Given a function on which the pipeline reports a fatal diagnostic,
//! the harness repeatedly tries candidate mutations — removing an
//! instruction, replacing one with a constant load or a trap, removing
//! a block from the layout order — on a copy, resubmits the copy
//! through the structural checks and the full pass, and keeps the copy
//! exactly when the diagnostic survives. It drives the pipeline as a
//! black box and contains no legalization logic of its own; because the
//! pipeline is deterministic, repeated trials are meaningful.

use vstd::prelude::*;
use crate::driver;
use crate::ir::Function;
use crate::ir::InstData;
use crate::ir::Opcode;
use crate::ir::inst_same;
use crate::ir::same_function;
use crate::isa::TargetDesc;

verus! {

/// Which family of candidate mutations a phase tries.
#[derive(Clone, Copy, PartialEq, Eq, Structural, Debug)]
pub enum PhaseKind {
    /// Remove one instruction from the layout.
    RemoveInst,
    /// Replace one single-result instruction with a zero constant.
    ReplaceInstWithIconst,
    /// Replace one instruction with a trap.
    ReplaceInstWithTrap,
    /// Remove one block from the layout order.
    RemoveEbb,
}

/// What a successful shrink step did: the mutation family, the block it
/// hit, the position it hit, and the layout-order index it was found
/// through, so the caller can both report it and resume after it.
#[derive(Clone, Copy, PartialEq, Eq, Structural, Debug)]
pub struct ShrinkInfo {
    pub kind: PhaseKind,
    pub ebb: usize,
    pub pos: usize,
    pub at: usize,
}

/// The outcome of one candidate step.
#[derive(Clone, Copy, PartialEq, Eq, Structural, Debug)]
pub enum PhaseStepResult {
    /// The candidate was mutated as described.
    Shrinked(ShrinkInfo),
    /// The candidate under the cursor cannot be mutated this way.
    NoChange,
    /// The phase is exhausted; the next one begins, over the given
    /// number of entities.
    NextPhase(PhaseKind, usize),
    /// Every phase is exhausted.
    Finished,
}

/// The current thing to reduce: a mutation family plus a cursor, held
/// as a (layout-order index, instruction index) pair.
#[derive(Clone, Copy, PartialEq, Eq, Structural, Debug)]
pub enum Phase {
    Started,
    RemoveInst(usize, usize),
    ReplaceInstWithIconst(usize, usize),
    ReplaceInstWithTrap(usize, usize),
    RemoveEbb(usize),
}

/// Whether the cursor position (`oi`, `pos`) names a mutation
/// candidate: a laid-out block whose instruction at `pos` is not the
/// block's last — terminators are never candidates.
pub open spec fn candidate_at(f: Function, oi: int, pos: int) -> bool {
    &&& 0 <= oi < f.layout.order@.len()
    &&& f.layout.order@[oi] < f.layout.num_ebbs()
    &&& 0 <= pos
    &&& pos + 1 < f.layout.insts_of(f.layout.order@[oi] as int).len()
}

/// The first mutation candidate at or after the cursor: the cursor's
/// own position when it is one, and otherwise the first candidate of a
/// later block, starting from its top. `None` exactly when no candidate
/// remains.
pub open spec fn next_candidate(f: Function, oi: int, pos: int) -> Option<(int, int)>
    decreases f.layout.order@.len() - oi,
{
    if oi < 0 || oi >= f.layout.order@.len() {
        None
    } else if candidate_at(f, oi, pos) {
        Some((oi, pos))
    } else {
        next_candidate(f, oi + 1, 0)
    }
}

/// Advance the reduction cursor past the instruction it rests on,
/// skipping block ends and empty blocks, and return the position it
/// rested on as a (layout-order index, instruction index) pair: exactly
/// the first candidate at or after the starting position, or `None`
/// exactly when none remains. The last instruction of a block — its
/// terminator — is never returned, so no mutation candidate breaks a
/// block's exit.
pub fn next_inst_ret_prev(func: &Function, oi: &mut usize, pos: &mut usize) -> (r: Option<
    (usize, usize)>)
    ensures
        r matches Some(pp) ==> {
            &&& next_candidate(*func, *old(oi) as int, *old(pos) as int)
                == Some((pp.0 as int, pp.1 as int))
            &&& pp.0 < func.layout.order@.len()
            &&& func.layout.order@[pp.0 as int] < func.layout.num_ebbs()
            &&& pp.1 + 1 < func.layout.insts_of(func.layout.order@[pp.0 as int] as int).len()
            &&& *final(oi) == pp.0
            &&& *final(pos) == pp.1 + 1
        },
        (r is None <==> next_candidate(*func, *old(oi) as int, *old(pos) as int) is None),
        r is None ==> *final(oi) >= func.layout.order@.len(),
{
    while *oi < func.layout.order.len()
        invariant
            next_candidate(*func, *old(oi) as int, *old(pos) as int)
                == next_candidate(*func, *oi as int, *pos as int),
            *pos >= 0,
        decreases func.layout.order@.len() - *oi,
    {
        let b = func.layout.order[*oi];
        if b < func.layout.ebb_insts.len() {
            let len = func.layout.ebb_insts[b].len();
            if *pos < len && *pos + 1 < len {
                let prev: (usize, usize) = (*oi, *pos);
                *pos = *pos + 1;
                return Some(prev);
            }
        }
        *oi = *oi + 1;
        *pos = 0;
    }
    None
}

impl Phase {
    /// Try the next candidate mutation of the current phase on `func`,
    /// advancing the cursor, switching phase when one is exhausted, and
    /// reporting exactly what changed. Everything not named by a
    /// `Shrinked` report is left untouched.
    pub fn step(&mut self, func: &mut Function) -> (r: PhaseStepResult)
        requires
            old(func).wf(),
        ensures
            final(func).wf(),
            !(r is Shrinked) ==> *final(func) == *old(func),
            *old(self) is Started ==> (r matches PhaseStepResult::NextPhase(k, n)
                && k is RemoveInst && n == old(func).dfg.num_insts()
                && *final(self) == Phase::RemoveInst(0, 0)),
            r is Finished ==> *old(self) is RemoveEbb && *final(self) == *old(self),
            r is NoChange ==> *old(self) is ReplaceInstWithIconst,
            *old(self) matches Phase::RemoveInst(o, p) ==> {
                if next_candidate(*old(func), o as int, p as int) is Some {
                    r is Shrinked
                } else {
                    &&& (r matches PhaseStepResult::NextPhase(k, n)
                        && k is ReplaceInstWithIconst && n == old(func).dfg.num_insts())
                    &&& *final(self) == Phase::ReplaceInstWithIconst(0, 0)
                }
            },
            *old(self) matches Phase::ReplaceInstWithIconst(o, p) ==> {
                if next_candidate(*old(func), o as int, p as int) is Some {
                    let c = next_candidate(*old(func), o as int, p as int)->Some_0;
                    let cid = old(func).layout.insts_of(
                        old(func).layout.order@[c.0] as int)[c.1] as int;
                    if old(func).dfg.results@[cid]@.len() == 1 {
                        r is Shrinked
                    } else {
                        &&& r is NoChange
                        &&& *final(self) == Phase::ReplaceInstWithIconst(
                            c.0 as usize, (c.1 + 1) as usize)
                    }
                } else {
                    &&& (r matches PhaseStepResult::NextPhase(k, n)
                        && k is ReplaceInstWithTrap && n == old(func).dfg.num_insts())
                    &&& *final(self) == Phase::ReplaceInstWithTrap(0, 0)
                }
            },
            *old(self) matches Phase::ReplaceInstWithTrap(o, p) ==> {
                if next_candidate(*old(func), o as int, p as int) is Some {
                    r is Shrinked
                } else {
                    &&& (r matches PhaseStepResult::NextPhase(k, n)
                        && k is RemoveEbb && n == old(func).layout.order@.len())
                    &&& *final(self) == Phase::RemoveEbb(0)
                }
            },
            *old(self) matches Phase::RemoveEbb(e)
                ==> (if e + 1 < old(func).layout.order@.len() {
                    r is Shrinked
                } else {
                    r is Finished
                }),
            r matches PhaseStepResult::Shrinked(m) ==> match *old(self) {
                Phase::RemoveInst(o, p) => {
                    &&& m.kind is RemoveInst
                    &&& next_candidate(*old(func), o as int, p as int)
                        == Some((m.at as int, m.pos as int))
                    &&& m.ebb == old(func).layout.order@[m.at as int]
                    &&& *final(self) == Phase::RemoveInst(m.at, (m.pos + 1) as usize)
                },
                Phase::ReplaceInstWithIconst(o, p) => {
                    &&& m.kind is ReplaceInstWithIconst
                    &&& next_candidate(*old(func), o as int, p as int)
                        == Some((m.at as int, m.pos as int))
                    &&& m.ebb == old(func).layout.order@[m.at as int]
                    &&& *final(self) == Phase::ReplaceInstWithIconst(m.at, (m.pos + 1) as usize)
                },
                Phase::ReplaceInstWithTrap(o, p) => {
                    &&& m.kind is ReplaceInstWithTrap
                    &&& next_candidate(*old(func), o as int, p as int)
                        == Some((m.at as int, m.pos as int))
                    &&& m.ebb == old(func).layout.order@[m.at as int]
                    &&& *final(self) == Phase::ReplaceInstWithTrap(m.at, (m.pos + 1) as usize)
                },
                Phase::RemoveEbb(e) => {
                    &&& m.kind is RemoveEbb
                    &&& m.at == e + 1
                    &&& *final(self) == Phase::RemoveEbb((e + 1) as usize)
                },
                _ => false,
            },
            r matches PhaseStepResult::Shrinked(m) ==> {
                &&& final(func).signature == old(func).signature
                &&& final(func).encodings == old(func).encodings
                &&& match m.kind {
                    PhaseKind::RemoveInst => {
                        &&& final(func).dfg == old(func).dfg
                        &&& final(func).layout.order == old(func).layout.order
                        &&& final(func).layout.num_ebbs() == old(func).layout.num_ebbs()
                        &&& m.ebb < old(func).layout.num_ebbs()
                        &&& m.pos < old(func).layout.insts_of(m.ebb as int).len()
                        &&& final(func).layout.insts_of(m.ebb as int)
                            == old(func).layout.insts_of(m.ebb as int).remove(m.pos as int)
                        &&& forall|b2: int| 0 <= b2 < old(func).layout.num_ebbs() && b2 != m.ebb
                            ==> #[trigger] final(func).layout.insts_of(b2)
                                == old(func).layout.insts_of(b2)
                    },
                    PhaseKind::RemoveEbb => {
                        &&& final(func).dfg == old(func).dfg
                        &&& final(func).layout.ebb_insts == old(func).layout.ebb_insts
                        &&& m.at < old(func).layout.order@.len()
                        &&& m.ebb == old(func).layout.order@[m.at as int]
                        &&& final(func).layout.order@
                            == old(func).layout.order@.remove(m.at as int)
                    },
                    _ => {
                        &&& final(func).layout == old(func).layout
                        &&& final(func).dfg.results == old(func).dfg.results
                        &&& final(func).dfg.value_types == old(func).dfg.value_types
                        &&& final(func).dfg.ebb_params == old(func).dfg.ebb_params
                        &&& final(func).dfg.insts@.len() == old(func).dfg.insts@.len()
                        &&& m.ebb < old(func).layout.num_ebbs()
                        &&& m.pos < old(func).layout.insts_of(m.ebb as int).len()
                        &&& ({
                            let id = old(func).layout.insts_of(m.ebb as int)[m.pos as int] as int;
                            &&& forall|oid: int|
                                0 <= oid < old(func).dfg.insts@.len() && oid != id
                                    ==> inst_same(#[trigger] final(func).dfg.insts@[oid],
                                        old(func).dfg.insts@[oid])
                            &&& final(func).dfg.insts@[id].args@.len() == 0
                            &&& final(func).dfg.insts@[id].imm == 0
                            &&& (m.kind is ReplaceInstWithIconst
                                ==> final(func).dfg.insts@[id].opcode is Iconst
                                    && old(func).dfg.results@[id]@.len() == 1
                                    && final(func).dfg.insts@[id].ty
                                        == old(func).dfg.value_types@[
                                            old(func).dfg.results@[id]@[0] as int])
                            &&& (m.kind is ReplaceInstWithTrap
                                ==> final(func).dfg.insts@[id].opcode is Trap)
                        })
                    },
                }
            },
    {
        let cur = *self;
        match cur {
            Phase::Started => {
                *self = Phase::RemoveInst(0, 0);
                PhaseStepResult::NextPhase(PhaseKind::RemoveInst, func.dfg.insts.len())
            },
            Phase::RemoveInst(oi0, pos0) => {
                let mut oi = oi0;
                let mut pos = pos0;
                match next_inst_ret_prev(func, &mut oi, &mut pos) {
                    Some((coi, cpos)) => {
                        *self = Phase::RemoveInst(oi, pos);
                        let b = func.layout.order[coi];
                        func.remove_from_ebb(b, cpos);
                        PhaseStepResult::Shrinked(ShrinkInfo {
                            kind: PhaseKind::RemoveInst,
                            ebb: b,
                            pos: cpos,
                            at: coi,
                        })
                    },
                    None => {
                        *self = Phase::ReplaceInstWithIconst(0, 0);
                        PhaseStepResult::NextPhase(
                            PhaseKind::ReplaceInstWithIconst,
                            func.dfg.insts.len(),
                        )
                    },
                }
            },
            Phase::ReplaceInstWithIconst(oi0, pos0) => {
                let mut oi = oi0;
                let mut pos = pos0;
                match next_inst_ret_prev(func, &mut oi, &mut pos) {
                    Some((coi, cpos)) => {
                        *self = Phase::ReplaceInstWithIconst(oi, pos);
                        let b = func.layout.order[coi];
                        let id = func.layout.ebb_insts[b][cpos];
                        if func.dfg.results[id].len() == 1 {
                            let rv = func.dfg.results[id][0];
                            let ty = func.dfg.value_types[rv];
                            func.replace_inst(id, InstData {
                                opcode: Opcode::Iconst,
                                ty,
                                args: Vec::new(),
                                imm: 0,
                                dest: 0,
                            });
                            PhaseStepResult::Shrinked(ShrinkInfo {
                                kind: PhaseKind::ReplaceInstWithIconst,
                                ebb: b,
                                pos: cpos,
                                at: coi,
                            })
                        } else {
                            PhaseStepResult::NoChange
                        }
                    },
                    None => {
                        *self = Phase::ReplaceInstWithTrap(0, 0);
                        PhaseStepResult::NextPhase(
                            PhaseKind::ReplaceInstWithTrap,
                            func.dfg.insts.len(),
                        )
                    },
                }
            },
            Phase::ReplaceInstWithTrap(oi0, pos0) => {
                let mut oi = oi0;
                let mut pos = pos0;
                match next_inst_ret_prev(func, &mut oi, &mut pos) {
                    Some((coi, cpos)) => {
                        *self = Phase::ReplaceInstWithTrap(oi, pos);
                        let b = func.layout.order[coi];
                        let id = func.layout.ebb_insts[b][cpos];
                        let ty = func.dfg.insts[id].ty;
                        func.replace_inst(id, InstData {
                            opcode: Opcode::Trap,
                            ty,
                            args: Vec::new(),
                            imm: 0,
                            dest: 0,
                        });
                        PhaseStepResult::Shrinked(ShrinkInfo {
                            kind: PhaseKind::ReplaceInstWithTrap,
                            ebb: b,
                            pos: cpos,
                            at: coi,
                        })
                    },
                    None => {
                        *self = Phase::RemoveEbb(0);
                        PhaseStepResult::NextPhase(PhaseKind::RemoveEbb, func.layout.order.len())
                    },
                }
            },
            Phase::RemoveEbb(oi0) => {
                if oi0 < func.layout.order.len() && oi0 + 1 < func.layout.order.len() {
                    let b = func.layout.order[oi0 + 1];
                    func.remove_from_order(oi0 + 1);
                    *self = Phase::RemoveEbb(oi0 + 1);
                    PhaseStepResult::Shrinked(ShrinkInfo {
                        kind: PhaseKind::RemoveEbb,
                        ebb: b,
                        pos: 0,
                        at: oi0 + 1,
                    })
                } else {
                    PhaseStepResult::Finished
                }
            },
        }
    }
}

/// Whether an opcode may stand last in a laid-out block.
pub open spec fn spec_is_terminator(op: Opcode) -> bool {
    op is Jump || op is Ret || op is Trap
}

/// The structural facts the upstream verifier insists on before the
/// pipeline runs: there is an entry block, and every laid-out block is
/// non-empty and ends in a terminator.
pub open spec fn structure_ok(f: Function) -> bool {
    &&& f.layout.order@.len() >= 1
    &&& forall|p: int| 0 <= p < f.layout.order@.len() ==> {
        let b = #[trigger] f.layout.order@[p] as int;
        &&& f.layout.insts_of(b).len() >= 1
        &&& spec_is_terminator(
            f.dfg.insts@[f.layout.insts_of(b)[f.layout.insts_of(b).len() - 1] as int].opcode)
    }
}

/// The outcome of submitting one candidate through the pipeline.
#[derive(Clone, Copy, PartialEq, Eq, Structural, Debug)]
pub enum Res {
    /// The pipeline went through: the defect is gone, discard the
    /// candidate.
    Succeed,
    /// The structural checks rejected the candidate: discard it.
    Verifier,
    /// The fatal diagnostic survived: keep the candidate.
    Panic,
}

/// Submit a candidate through the structural checks and, on a copy, the
/// full legalization pass, and classify the outcome. Deterministic: the
/// outcome is a function of the candidate and the target alone. A
/// function already in legalized form is never reported as crashing,
/// since the pass is proven to succeed on it.
pub fn check_for_crash(func: &Function, target: &TargetDesc) -> (r: Res)
    requires
        func.wf(),
    ensures
        r is Verifier <==> !structure_ok(*func),
        r is Panic ==> exists|po: Seq<usize>|
            driver::valid_postorder(*func, po)
                && !driver::is_legalized(*func, *target, po),
{
    let mut p: usize = 0;
    let n = func.layout.order.len();
    if n == 0 {
        return Res::Verifier;
    }
    while p < n
        invariant
            func.wf(),
            n == func.layout.order@.len(),
            p <= n,
            forall|q: int| 0 <= q < p ==> {
                let b = #[trigger] func.layout.order@[q] as int;
                &&& func.layout.insts_of(b).len() >= 1
                &&& spec_is_terminator(func.dfg.insts@[
                    func.layout.insts_of(b)[func.layout.insts_of(b).len() - 1] as int].opcode)
            },
        decreases n - p,
    {
        let b = func.layout.order[p];
        let len = func.layout.ebb_insts[b].len();
        if len == 0 {
            return Res::Verifier;
        }
        let last = func.layout.ebb_insts[b][len - 1];
        let term = matches!(
            func.dfg.insts[last].opcode,
            Opcode::Jump | Opcode::Ret | Opcode::Trap
        );
        if !term {
            return Res::Verifier;
        }
        p += 1;
    }

    let mut copy = func.duplicate();
    let po = reverse_order_unique(func);
    let ghost copy0 = copy;
    match driver::legalize_function(&mut copy, &po, target) {
        Ok(_) => Res::Succeed,
        Err(_) => {
            proof {
                // The pass is proven to succeed on a legalized input, so
                // this copy, and with it the equal candidate, was not in
                // legalized form.
                assert(!driver::is_legalized(copy0, *target, po@));
                if driver::is_legalized(*func, *target, po@) {
                    assert forall|p: int| 0 <= p < po@.len()
                        implies driver::block_settled(copy0, *target,
                            #[trigger] po@[p] as int) by {
                        let b2 = po@[p] as int;
                        assert(copy0.layout.insts_of(b2) == func.layout.insts_of(b2));
                        assert forall|j: int| 0 <= j < copy0.layout.insts_of(b2).len()
                            implies driver::inst_settled(copy0, *target,
                                #[trigger] copy0.layout.insts_of(b2)[j]) by {
                            let id = copy0.layout.insts_of(b2)[j];
                            assert(driver::inst_settled(*func, *target, id));
                            driver::lemma_same_function_keeps_settled(
                                *func, copy0, *target, id);
                        }
                    }
                    assert(driver::is_legalized(copy0, *target, po@));
                    assert(false);
                }
            }
            Res::Panic
        },
    }
}

/// Whether a handle already occurs in a list.
fn vec_contains(v: &Vec<usize>, x: usize) -> (r: bool)
    ensures
        r == exists|i: int| 0 <= i < v@.len() && v@[i] == x,
{
    let mut k: usize = 0;
    while k < v.len()
        invariant
            k <= v@.len(),
            forall|i: int| 0 <= i < k ==> v@[i] != x,
        decreases v@.len() - k,
    {
        if v[k] == x {
            return true;
        }
        k += 1;
    }
    false
}

/// The reverse of the layout order with duplicates dropped: the
/// visitation order the reduction harness feeds the driver, standing in
/// for the reverse dominator-tree postorder of its straight-line
/// candidates.
fn reverse_order_unique(func: &Function) -> (po: Vec<usize>)
    requires
        func.wf(),
    ensures
        driver::valid_postorder(*func, po@),
{
    let mut po: Vec<usize> = Vec::new();
    let mut p = func.layout.order.len();
    while p > 0
        invariant
            func.wf(),
            p <= func.layout.order@.len(),
            forall|i: int| 0 <= i < po@.len() ==> #[trigger] po@[i] < func.layout.num_ebbs(),
            forall|i: int, j: int| 0 <= i < j < po@.len()
                ==> #[trigger] po@[i] != #[trigger] po@[j],
        decreases p,
    {
        p -= 1;
        let b = func.layout.order[p];
        if !vec_contains(&po, b) {
            po.push(b);
        }
    }
    po
}

/// The instructions a layout order reaches, counted through each listed
/// block in turn.
pub open spec fn order_count(f: Function, ord: Seq<usize>) -> int
    decreases ord.len(),
{
    if ord.len() == 0 {
        0
    } else {
        f.layout.insts_of(ord[0] as int).len() + order_count(f, ord.drop_first())
    }
}

/// How many instructions the function's own layout order reaches.
pub open spec fn laid_out_count(f: Function) -> int {
    order_count(f, f.layout.order@)
}

/// Counting the same order over blocks that are nowhere longer gives a
/// count that is no larger.
proof fn lemma_order_count_le(f1: Function, f2: Function, ord: Seq<usize>)
    requires
        forall|q: int| 0 <= q < ord.len()
            ==> f2.layout.insts_of(#[trigger] ord[q] as int).len()
                <= f1.layout.insts_of(ord[q] as int).len(),
    ensures
        order_count(f2, ord) <= order_count(f1, ord),
    decreases ord.len(),
{
    if ord.len() > 0 {
        assert forall|q: int| 0 <= q < ord.drop_first().len()
            implies f2.layout.insts_of(#[trigger] ord.drop_first()[q] as int).len()
                <= f1.layout.insts_of(ord.drop_first()[q] as int).len() by {
            assert(ord.drop_first()[q] == ord[q + 1]);
        }
        lemma_order_count_le(f1, f2, ord.drop_first());
        assert(f2.layout.insts_of(ord[0] as int).len()
            <= f1.layout.insts_of(ord[0] as int).len());
    }
}

/// Dropping one entry from an order cannot raise the count.
proof fn lemma_order_count_remove(f: Function, ord: Seq<usize>, at: int)
    requires
        0 <= at < ord.len(),
    ensures
        order_count(f, ord.remove(at)) <= order_count(f, ord),
    decreases ord.len(),
{
    if at == 0 {
        assert(ord.remove(0) =~= ord.drop_first());
    } else {
        lemma_order_count_remove(f, ord.drop_first(), at - 1);
        assert(ord.remove(at).drop_first() =~= ord.drop_first().remove(at - 1));
        assert(ord.remove(at)[0] == ord[0]);
    }
}

/// A reduced function, and whether any mutation was kept.
pub struct Reduced {
    pub func: Function,
    pub shrunk: bool,
}

/// Reduce a function on which the pipeline reports a fatal diagnostic:
/// run bounded passes of candidate mutations, each tried on a copy and
/// kept exactly when the diagnostic survives, until a whole pass finds
/// nothing more to shrink. Deterministic given the same function and
/// target; when nothing was kept, the function comes back exactly as it
/// went in.
pub fn run(func: Function, target: &TargetDesc) -> (r: Reduced)
    requires
        func.wf(),
    ensures
        r.func.wf(),
        !r.shrunk ==> same_function(r.func, func),
        r.shrunk ==> structure_ok(r.func),
        r.shrunk ==> exists|po: Seq<usize>|
            driver::valid_postorder(r.func, po)
                && !driver::is_legalized(r.func, *target, po),
        laid_out_count(r.func) <= laid_out_count(func),
{
    let mut cur = func;
    let mut any = false;
    let mut pass_idx: usize = 0;
    while pass_idx < 100
        invariant
            cur.wf(),
            !any ==> same_function(cur, func),
            any ==> structure_ok(cur),
            any ==> exists|po: Seq<usize>|
                driver::valid_postorder(cur, po)
                    && !driver::is_legalized(cur, *target, po),
            laid_out_count(cur) <= laid_out_count(func),
        decreases 100 - pass_idx,
    {
        let mut was_reduced = false;
        let mut phase = Phase::Started;
        let mut tries: usize = 0;
        while tries < 10000
            invariant
                cur.wf(),
                !any ==> same_function(cur, func),
                any ==> structure_ok(cur),
                any ==> exists|po: Seq<usize>|
                    driver::valid_postorder(cur, po)
                        && !driver::is_legalized(cur, *target, po),
                laid_out_count(cur) <= laid_out_count(func),
            decreases 10000 - tries,
        {
            tries += 1;
            let mut cand = cur.duplicate();
            let ghost before_step = cand;
            let m = match phase.step(&mut cand) {
                PhaseStepResult::Shrinked(m) => m,
                PhaseStepResult::NoChange => {
                    continue;
                },
                PhaseStepResult::NextPhase(_, _) => {
                    continue;
                },
                PhaseStepResult::Finished => {
                    break;
                },
            };
            match check_for_crash(&cand, target) {
                Res::Succeed => {
                    // The defect is gone: the mutation hid it, discard.
                },
                Res::Verifier => {
                    // The mutation broke the function's structure, discard.
                },
                Res::Panic => {
                    // The defect survived: keep the smaller candidate and
                    // align the cursor with the shifted layout.
                    proof {
                        lemma_order_count_le(cur, before_step, cur.layout.order@);
                        lemma_order_count_le(before_step, cur, cur.layout.order@);
                        match m.kind {
                            PhaseKind::RemoveInst => {
                                lemma_order_count_le(before_step, cand, cand.layout.order@);
                            },
                            PhaseKind::RemoveEbb => {
                                lemma_order_count_le(before_step, cand,
                                    before_step.layout.order@);
                                lemma_order_count_le(cand, before_step,
                                    before_step.layout.order@);
                                lemma_order_count_remove(cand, before_step.layout.order@,
                                    m.at as int);
                            },
                            _ => {
                                lemma_order_count_le(before_step, cand, cand.layout.order@);
                            },
                        }
                    }
                    cur = cand;
                    was_reduced = true;
                    any = true;
                    match m.kind {
                        PhaseKind::RemoveInst => {
                            phase = Phase::RemoveInst(m.at, m.pos);
                        },
                        PhaseKind::RemoveEbb => {
                            if m.at >= 1 {
                                phase = Phase::RemoveEbb(m.at - 1);
                            }
                        },
                        _ => {},
                    }
                },
            }
        }
        if !was_reduced {
            break;
        }
        pass_idx += 1;
    }
    Reduced { func: cur, shrunk: any }
}

} // verus!
