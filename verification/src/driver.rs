//! The legalization driver.
//!
//! Given a function, the reverse of its dominator-tree postorder, and a
//! target description, transform the function in place so that every
//! laid-out instruction of every visited block has a valid encoding
//! recipe recorded, inserting ABI conversions and dispatching expand or
//! narrow rewrites until a fixed point is reached.
//!
//! Blocks are visited in reverse postorder so a block is seen before
//! most of its successors, which minimizes redundant re-splitting.
//! Within a block the cursor remembers the position just before the
//! instruction in hand; when a rewrite inserts replacements, the cursor
//! rewinds exactly there so the fresh instructions are themselves
//! legalized, none skipped and none double-processed.
//!
//! Termination is not structurally guaranteed by the rule table, so the
//! driver spends one unit of a bounded rewrite budget on every rewind
//! and surfaces a fatal diagnostic when the budget is exhausted, naming
//! the offending instruction. A rewrite that reports "unchanged" reveals
//! a gap in the rule table and is surfaced the same way; neither is a
//! recoverable condition for callers.

use vstd::prelude::*;
use crate::boundary;
use crate::cursor::Cursor;
use crate::ir::Encoding;
use crate::ir::Function;
use crate::ir::inst_same;
use crate::ir::local_edit;
use crate::ir::same_function;
use crate::isa::Legalize;
use crate::isa::TargetDesc;
use crate::isa::recipe_of;
use crate::rewrite;
use crate::split;

verus! {

/// A configuration defect that makes legalization impossible: the pass
/// surfaces it as a fatal diagnostic naming the instruction, never as a
/// recoverable value.
#[derive(Clone, Copy, PartialEq, Eq, Structural, Debug)]
pub enum LegalizeError {
    /// No rewrite rule applies to the named instruction: the rule table
    /// is incomplete for this target.
    Unsupported { inst: usize },
    /// The bounded rewrite budget ran out on the named instruction: the
    /// rule table is most likely re-introducing its own trigger.
    RewriteLimit { inst: usize },
}

/// The rewrite budget: how many rewinds the driver will perform over
/// one function before it declares the rule table non-terminating.
pub const REWRITE_FUEL: u64 = 1_000_000;

/// The visitation order is usable: every named block exists and none is
/// named twice.
pub open spec fn valid_postorder(f: Function, po: Seq<usize>) -> bool {
    &&& forall|p: int| 0 <= p < po.len() ==> #[trigger] po[p] < f.layout.num_ebbs()
    &&& forall|p: int, q: int| 0 <= p < q < po.len() ==> #[trigger] po[p] != #[trigger] po[q]
}

/// Decide at run time whether a visitation order is usable, so that a
/// caller holding one from an unverified source can validate it before
/// handing it to the driver.
pub fn postorder_check(func: &Function, postorder: &Vec<usize>) -> (r: bool)
    ensures
        r == valid_postorder(*func, postorder@),
{
    let n = postorder.len();
    let mut p: usize = 0;
    while p < n
        invariant
            n == postorder@.len(),
            p <= n,
            forall|q: int| 0 <= q < p
                ==> #[trigger] postorder@[q] < func.layout.num_ebbs(),
            forall|q1: int, q2: int| 0 <= q1 < q2 < p
                ==> #[trigger] postorder@[q1] != #[trigger] postorder@[q2],
        decreases n - p,
    {
        if postorder[p] >= func.layout.ebb_insts.len() {
            return false;
        }
        let mut q: usize = 0;
        while q < p
            invariant
                n == postorder@.len(),
                p < n,
                q <= p,
                forall|q2: int| 0 <= q2 < q
                    ==> #[trigger] postorder@[q2] != postorder@[p as int],
            decreases p - q,
        {
            if postorder[q] == postorder[p] {
                return false;
            }
            q += 1;
        }
        p += 1;
    }
    true
}

/// Instruction `id` is fully legalized: its encoding table slot holds
/// the recipe the selector chooses for it, and the selector accepts it
/// directly.
pub open spec fn inst_done(f: Function, t: TargetDesc, id: usize) -> bool {
    &&& id < f.dfg.num_insts()
    &&& id < f.encodings@.len()
    &&& f.encodings@[id as int]
        == Some(Encoding { recipe: recipe_of(f.dfg.insts@[id as int].opcode) })
    &&& t.encodable(f.dfg, id as int)
}

/// Every instruction laid out in block `b` is fully legalized.
pub open spec fn block_done(f: Function, t: TargetDesc, b: int) -> bool {
    forall|j: int| 0 <= j < f.layout.insts_of(b).len()
        ==> inst_done(f, t, #[trigger] f.layout.insts_of(b)[j])
}

/// Completeness over a visitation order: every instruction of every
/// block the order reaches is fully legalized.
pub open spec fn all_done(f: Function, t: TargetDesc, po: Seq<usize>) -> bool {
    forall|p: int| 0 <= p < po.len() ==> block_done(f, t, #[trigger] po[p] as int)
}

/// Instruction `id` is settled: fully legalized, and, for a branch, its
/// carried argument list already in simplified form, so that no pass
/// over it would change anything.
pub open spec fn inst_settled(f: Function, t: TargetDesc, id: usize) -> bool {
    &&& inst_done(f, t, id)
    &&& (f.dfg.insts@[id as int].opcode.spec_is_branch() ==> ({
        let d = f.dfg.insts@[id as int];
        let off: int = if d.opcode is Brz { 1 } else { 0 };
        split::simplified_args(d.args@, split::dest_params(f, d.dest as int), off) == d.args@
    }))
}

/// Every instruction laid out in block `b` is settled.
pub open spec fn block_settled(f: Function, t: TargetDesc, b: int) -> bool {
    forall|j: int| 0 <= j < f.layout.insts_of(b).len()
        ==> inst_settled(f, t, #[trigger] f.layout.insts_of(b)[j])
}

/// A function is already legalized for the target: its signature is in
/// lowered form, its encoding table has exactly one slot per
/// instruction, and every instruction of every block the visitation
/// order reaches is settled. Re-running the pass on such a function is
/// a no-op.
pub open spec fn is_legalized(f: Function, t: TargetDesc, po: Seq<usize>) -> bool {
    &&& boundary::all_legal(f.signature.params@, t)
    &&& boundary::all_legal(f.signature.returns@, t)
    &&& f.encodings@.len() == f.dfg.num_insts()
    &&& forall|p: int| 0 <= p < po.len() ==> block_settled(f, t, #[trigger] po[p] as int)
}

/// Whether the rewrite rule table has a rule for instruction `id`: the
/// action the selector reports for it dispatches to a rewrite whose
/// trigger matches. An instruction with no direct encoding and no
/// applicable rule is a rule-table gap.
pub open spec fn rewrite_applies(t: TargetDesc, f: Function, id: usize) -> bool {
    let d = f.dfg.insts@[id as int];
    if t.action_for(f.dfg, id as int) is Expand {
        d.opcode is IaddImm && d.args@.len() >= 1
    } else {
        d.ty.spec_half() is Some && (d.opcode is Iconst || (d.opcode is Iadd
            && d.args@.len() >= 2))
    }
}

/// Being settled depends only on the parts of the function that
/// `same_function` compares, so it carries over to an equal function.
pub proof fn lemma_same_function_keeps_settled(f1: Function, f2: Function, t: TargetDesc, id: usize)
    requires
        f1.wf(),
        same_function(f1, f2),
        id < f1.dfg.num_insts(),
        inst_settled(f1, t, id),
    ensures
        inst_settled(f2, t, id),
{
    let d1 = f1.dfg.insts@[id as int];
    let d2 = f2.dfg.insts@[id as int];
    assert(inst_same(d2, d1));
    assert(f2.encodings@ == f1.encodings@);
    if d1.opcode is Call || d1.opcode is Ret {
        assert forall|k: int| 0 <= k < d2.args@.len()
            implies t.spec_legal_type(
                f2.dfg.value_types@[#[trigger] d2.args@[k] as int]) by {
            assert(t.spec_legal_type(f1.dfg.value_types@[d1.args@[k] as int]));
        }
        assert forall|k: int| 0 <= k < f2.dfg.results@[id as int]@.len()
            implies t.spec_legal_type(
                f2.dfg.value_types@[#[trigger] f2.dfg.results@[id as int]@[k] as int]) by {
            assert(f2.dfg.results@[id as int]@ == f1.dfg.results@[id as int]@);
            assert(t.spec_legal_type(
                f1.dfg.value_types@[f1.dfg.results@[id as int]@[k] as int]));
        }
        assert(t.abi_shape_ok(f2.dfg, id as int));
    }
    assert(t.encodable(f2.dfg, id as int));
    if d1.opcode.spec_is_branch() {
        assert(split::dest_params(f2, d2.dest as int) == split::dest_params(f1, d1.dest as int));
    }
}

/// A local edit cannot undo the legalization of any other instruction:
/// its data, its results, the types of the values they name, and its
/// encoding slot are all untouched, so it stays fully legalized.
proof fn lemma_edit_keeps_inst_done(
    oldf: Function,
    newf: Function,
    t: TargetDesc,
    b: int,
    from: int,
    touched: usize,
    id: usize,
)
    requires
        oldf.wf(),
        local_edit(oldf, newf, b, from, touched),
        inst_done(oldf, t, id),
        id != touched,
    ensures
        inst_done(newf, t, id),
{
    let d_old = oldf.dfg.insts@[id as int];
    let d_new = newf.dfg.insts@[id as int];
    assert(inst_same(d_new, d_old));
    assert(newf.encodings@[id as int] == oldf.encodings@[id as int]);
    if d_old.opcode is Call || d_old.opcode is Ret {
        assert forall|k: int| 0 <= k < d_new.args@.len()
            implies t.spec_legal_type(
                newf.dfg.value_types@[#[trigger] d_new.args@[k] as int]) by {
            assert(d_old.args@[k] < oldf.dfg.num_values());
            assert(t.spec_legal_type(oldf.dfg.value_types@[d_old.args@[k] as int]));
        }
        assert forall|k: int| 0 <= k < newf.dfg.results@[id as int]@.len()
            implies t.spec_legal_type(
                newf.dfg.value_types@[#[trigger] newf.dfg.results@[id as int]@[k] as int]) by {
            assert(newf.dfg.results@[id as int]@ == oldf.dfg.results@[id as int]@);
            assert(oldf.dfg.results@[id as int]@[k] < oldf.dfg.num_values());
            assert(t.spec_legal_type(
                oldf.dfg.value_types@[oldf.dfg.results@[id as int]@[k] as int]));
        }
        assert(t.abi_shape_ok(newf.dfg, id as int));
    }
    assert(t.encodable(newf.dfg, id as int));
}

/// A local edit cannot unsettle any other instruction either: its
/// argument list, destination, and every block's parameter list are
/// untouched, so a simplified branch stays simplified.
proof fn lemma_edit_keeps_inst_settled(
    oldf: Function,
    newf: Function,
    t: TargetDesc,
    b: int,
    from: int,
    touched: usize,
    id: usize,
)
    requires
        oldf.wf(),
        local_edit(oldf, newf, b, from, touched),
        inst_settled(oldf, t, id),
        id != touched,
    ensures
        inst_settled(newf, t, id),
{
    lemma_edit_keeps_inst_done(oldf, newf, t, b, from, touched, id);
    let d_old = oldf.dfg.insts@[id as int];
    let d_new = newf.dfg.insts@[id as int];
    assert(inst_same(d_new, d_old));
    if d_old.opcode.spec_is_branch() {
        assert(split::dest_params(newf, d_new.dest as int)
            == split::dest_params(oldf, d_old.dest as int));
    }
}

/// A local edit at the frontier position of the current block keeps
/// everything already legalized legalized: the instructions before the
/// frontier and every block already visited.
proof fn lemma_edit_keeps_progress(
    oldf: Function,
    newf: Function,
    t: TargetDesc,
    po: Seq<usize>,
    bp: int,
    b: usize,
    cur: int,
    touched: usize,
)
    requires
        oldf.wf(),
        valid_postorder(oldf, po),
        0 <= bp < po.len(),
        b == po[bp],
        0 <= cur < oldf.layout.insts_of(b as int).len(),
        touched == oldf.layout.insts_of(b as int)[cur],
        local_edit(oldf, newf, b as int, cur, touched),
        forall|j: int| 0 <= j < cur
            ==> inst_settled(oldf, t, #[trigger] oldf.layout.insts_of(b as int)[j]),
        forall|p: int| bp < p < po.len() ==> block_settled(oldf, t, #[trigger] po[p] as int),
    ensures
        forall|j: int| 0 <= j < cur
            ==> inst_settled(newf, t, #[trigger] newf.layout.insts_of(b as int)[j]),
        forall|p: int| bp < p < po.len() ==> block_settled(newf, t, #[trigger] po[p] as int),
{
    assert forall|j: int| 0 <= j < cur
        implies inst_settled(newf, t, #[trigger] newf.layout.insts_of(b as int)[j]) by {
        let id = oldf.layout.insts_of(b as int)[j];
        assert(newf.layout.insts_of(b as int)[j] == id);
        assert(id != touched);
        lemma_edit_keeps_inst_settled(oldf, newf, t, b as int, cur, touched, id);
    }
    assert forall|p: int| bp < p < po.len()
        implies block_settled(newf, t, #[trigger] po[p] as int) by {
        let b2 = po[p] as int;
        assert(po[p] != b);
        assert(newf.layout.insts_of(b2) == oldf.layout.insts_of(b2));
        assert forall|j: int| 0 <= j < newf.layout.insts_of(b2).len()
            implies inst_settled(newf, t, #[trigger] newf.layout.insts_of(b2)[j]) by {
            let id = oldf.layout.insts_of(b2)[j];
            assert(inst_settled(oldf, t, id));
            assert(id != touched);
            lemma_edit_keeps_inst_settled(oldf, newf, t, b as int, cur, touched, id);
        }
    }
}

/// Legalize `func` for the target.
///
/// The function's signature is lowered first, then the encoding table is
/// sized, then every block of the visitation order — the reverse of the
/// dominator tree's postorder — is walked top to bottom: ABI boundaries
/// are converted, branch argument lists simplified, and each instruction
/// either encoded or rewritten and revisited. On success every
/// instruction of every visited block is legal and has its recipe in
/// the encoding table, and no table entry names a dead handle, since
/// handles are never reused. An error reports a configuration defect —
/// a rule-table gap or a non-terminating rule — naming the instruction;
/// the function is left well-formed but only partially legalized.
pub fn legalize_function(
    func: &mut Function,
    postorder: &Vec<usize>,
    target: &TargetDesc,
) -> (r: Result<(), LegalizeError>)
    requires
        old(func).wf(),
        valid_postorder(*old(func), postorder@),
    ensures
        final(func).wf(),
        final(func).layout.num_ebbs() == old(func).layout.num_ebbs(),
        boundary::all_legal(final(func).signature.params@, *target),
        boundary::all_legal(final(func).signature.returns@, *target),
        final(func).signature.params@
            == boundary::lowered_types(old(func).signature.params@, *target),
        final(func).signature.returns@
            == boundary::lowered_types(old(func).signature.returns@, *target),
        final(func).encodings@.len() == final(func).dfg.num_insts(),
        r is Ok ==> all_done(*final(func), *target, postorder@),
        r is Ok ==> is_legalized(*final(func), *target, postorder@),
        is_legalized(*old(func), *target, postorder@)
            ==> r is Ok && same_function(*old(func), *final(func)),
        r matches Err(LegalizeError::Unsupported { inst }) ==> {
            &&& inst < final(func).dfg.num_insts()
            &&& exists|p: int, j: int|
                0 <= p < postorder@.len()
                    && 0 <= j < final(func).layout.insts_of(postorder@[p] as int).len()
                    && #[trigger] final(func).layout.insts_of(postorder@[p] as int)[j]
                        == inst
            &&& !target.encodable(final(func).dfg, inst as int)
            &&& !rewrite_applies(*target, *final(func), inst)
        },
        r matches Err(LegalizeError::RewriteLimit { .. })
            ==> final(func).dfg.num_insts()
                >= old(func).dfg.num_insts() + REWRITE_FUEL,
{
    let ghost il = is_legalized(*old(func), *target, postorder@);
    boundary::legalize_signatures(func, target);
    proof {
        if il {
            boundary::lemma_lowered_identity(old(func).signature.params@, *target);
            boundary::lemma_lowered_identity(old(func).signature.returns@, *target);
            assert(same_function(*old(func), *func));
        }
    }
    func.resize_encodings();
    let ghost sig_params = func.signature.params@;
    let ghost sig_returns = func.signature.returns@;
    let mut fuel: u64 = REWRITE_FUEL;
    let npo = postorder.len();
    let mut bp: usize = npo;
    while bp > 0
        invariant
            func.wf(),
            old(func).wf(),
            valid_postorder(*func, postorder@),
            npo == postorder@.len(),
            bp <= npo,
            il == is_legalized(*old(func), *target, postorder@),
            il ==> same_function(*old(func), *func),
            fuel <= REWRITE_FUEL,
            func.dfg.num_insts() >= old(func).dfg.num_insts() + (REWRITE_FUEL - fuel),
            func.layout.num_ebbs() == old(func).layout.num_ebbs(),
            func.signature.params@ == sig_params,
            func.signature.returns@ == sig_returns,
            boundary::all_legal(sig_params, *target),
            boundary::all_legal(sig_returns, *target),
            sig_params == boundary::lowered_types(old(func).signature.params@, *target),
            sig_returns == boundary::lowered_types(old(func).signature.returns@, *target),
            func.encodings@.len() == func.dfg.num_insts(),
            forall|p: int| bp <= p < npo
                ==> block_settled(*func, *target, #[trigger] postorder@[p] as int),
        decreases bp,
    {
        bp -= 1;
        let b = postorder[bp];
        let mut pos = Cursor::new();
        pos.goto_top(b);
        let mut prev_pos = pos.position();
        loop
            invariant
                func.wf(),
                old(func).wf(),
                valid_postorder(*func, postorder@),
                npo == postorder@.len(),
                bp < npo,
                b == postorder@[bp as int],
                b < func.layout.num_ebbs(),
                il == is_legalized(*old(func), *target, postorder@),
                il ==> same_function(*old(func), *func),
                fuel <= REWRITE_FUEL,
                func.dfg.num_insts() >= old(func).dfg.num_insts() + (REWRITE_FUEL - fuel),
                func.layout.num_ebbs() == old(func).layout.num_ebbs(),
                func.signature.params@ == sig_params,
                func.signature.returns@ == sig_returns,
                func.encodings@.len() == func.dfg.num_insts(),
                boundary::all_legal(sig_params, *target),
                boundary::all_legal(sig_returns, *target),
                sig_params == boundary::lowered_types(old(func).signature.params@, *target),
                sig_returns == boundary::lowered_types(old(func).signature.returns@, *target),
                pos.ebb == b,
                prev_pos.ebb == b,
                pos.pos == prev_pos.pos,
                pos.pos <= func.layout.insts_of(b as int).len(),
                forall|j: int| 0 <= j < pos.pos
                    ==> inst_settled(*func, *target,
                        #[trigger] func.layout.insts_of(b as int)[j]),
                forall|p: int| bp < p < npo
                    ==> block_settled(*func, *target, #[trigger] postorder@[p] as int),
            ensures
                func.wf(),
                valid_postorder(*func, postorder@),
                il ==> same_function(*old(func), *func),
                func.layout.num_ebbs() == old(func).layout.num_ebbs(),
                func.signature.params@ == sig_params,
                func.signature.returns@ == sig_returns,
                func.encodings@.len() == func.dfg.num_insts(),
                block_settled(*func, *target, b as int),
                forall|p: int| bp < p < npo
                    ==> block_settled(*func, *target, #[trigger] postorder@[p] as int),
            decreases fuel, func.layout.insts_of(b as int).len() - pos.pos,
        {
            let inst = match pos.next_inst(func) {
                Some(inst) => inst,
                None => {
                    break;
                },
            };
            let cur = prev_pos.pos;
            let ghost before = *func;
            let opcode = func.dfg.insts[inst].opcode;

            // Convert an ABI boundary whose shape does not match the
            // lowered convention, then go back and legalize the freshly
            // inserted conversion instructions.
            if opcode.is_call() {
                if boundary::handle_call_abi(func, target, b, cur) {
                    proof {
                        if il {
                            let oldo = *old(func);
                            assert(block_settled(oldo, *target, postorder@[bp as int] as int));
                            let id0 = oldo.layout.insts_of(b as int)[cur as int];
                            assert(inst_settled(oldo, *target, id0));
                            lemma_same_function_keeps_settled(oldo, before, *target, id0);
                            assert(false);
                        }
                    }
                    if fuel == 0 {
                        return Err(LegalizeError::RewriteLimit { inst });
                    }
                    fuel -= 1;
                    pos.set_position(prev_pos);
                    proof {
                        lemma_edit_keeps_progress(before, *func, *target, postorder@,
                            bp as int, b, cur as int, inst);
                    }
                    continue;
                }
            }
            if opcode.is_return() {
                if boundary::handle_return_abi(func, target, b, cur) {
                    proof {
                        if il {
                            let oldo = *old(func);
                            assert(block_settled(oldo, *target, postorder@[bp as int] as int));
                            let id0 = oldo.layout.insts_of(b as int)[cur as int];
                            assert(inst_settled(oldo, *target, id0));
                            lemma_same_function_keeps_settled(oldo, before, *target, id0);
                            assert(false);
                        }
                    }
                    if fuel == 0 {
                        return Err(LegalizeError::RewriteLimit { inst });
                    }
                    fuel -= 1;
                    pos.set_position(prev_pos);
                    proof {
                        lemma_edit_keeps_progress(before, *func, *target, postorder@,
                            bp as int, b, cur as int, inst);
                    }
                    continue;
                }
            }

            // Reduce a branch's carried argument list; purely local, so
            // the walk never rewinds for it.
            if opcode.is_branch() {
                let simplify_changed = split::simplify_branch_arguments(func, b, cur);
                proof {
                    if il && simplify_changed {
                        let oldo = *old(func);
                        assert(block_settled(oldo, *target, postorder@[bp as int] as int));
                        let id0 = oldo.layout.insts_of(b as int)[cur as int];
                        assert(inst_settled(oldo, *target, id0));
                        lemma_same_function_keeps_settled(oldo, before, *target, id0);
                        assert(false);
                    }
                    if simplify_changed {
                        lemma_edit_keeps_progress(before, *func, *target, postorder@,
                            bp as int, b, cur as int, inst);
                    }
                }
            }

            let ghost before_encode = *func;
            match target.encode(func, inst) {
                Ok(e) => {
                    func.set_encoding(inst, e);
                    proof {
                        assert forall|j: int| 0 <= j < pos.pos
                            implies inst_settled(*func, *target,
                                #[trigger] func.layout.insts_of(b as int)[j]) by {
                            let id = func.layout.insts_of(b as int)[j];
                            if j < cur {
                                assert(id != inst);
                                assert(inst_settled(before_encode, *target, id));
                            } else {
                                assert(id == inst);
                            }
                        }
                        assert forall|p: int| bp < p < npo
                            implies block_settled(*func, *target,
                                #[trigger] postorder@[p] as int) by {
                            let b2 = postorder@[p] as int;
                            assert forall|j: int| 0 <= j < func.layout.insts_of(b2).len()
                                implies inst_settled(*func, *target,
                                    #[trigger] func.layout.insts_of(b2)[j]) by {
                                let id = func.layout.insts_of(b2)[j];
                                assert(postorder@[p] != b);
                                assert(id != inst);
                                assert(inst_settled(before_encode, *target, id));
                            }
                        }
                    }
                    proof {
                        if il {
                            let oldo = *old(func);
                            assert(block_settled(oldo, *target, postorder@[bp as int] as int));
                            let id0 = oldo.layout.insts_of(b as int)[cur as int];
                            assert(inst_settled(oldo, *target, id0));
                            lemma_same_function_keeps_settled(oldo, before_encode, *target, id0);
                            assert(before_encode.encodings@[inst as int] == Some(e));
                            assert(func.encodings@ =~= before_encode.encodings@);
                            assert(same_function(oldo, *func));
                        }
                    }
                    prev_pos = pos.position();
                },
                Err(action) => {
                    proof {
                        if il {
                            let oldo = *old(func);
                            assert(block_settled(oldo, *target, postorder@[bp as int] as int));
                            let id0 = oldo.layout.insts_of(b as int)[cur as int];
                            assert(inst_settled(oldo, *target, id0));
                            lemma_same_function_keeps_settled(oldo, before_encode, *target, id0);
                            assert(false);
                        }
                    }
                    let changed = match action {
                        Legalize::Expand => rewrite::expand(func, b, cur),
                        Legalize::Narrow => rewrite::narrow(func, b, cur),
                    };
                    if changed {
                        if fuel == 0 {
                            return Err(LegalizeError::RewriteLimit { inst });
                        }
                        fuel -= 1;
                        pos.set_position(prev_pos);
                        proof {
                            lemma_edit_keeps_progress(before_encode, *func, *target,
                                postorder@, bp as int, b, cur as int, inst);
                        }
                        continue;
                    } else {
                        proof {
                            assert(0 <= bp < postorder@.len()
                                && 0 <= cur < func.layout.insts_of(
                                    postorder@[bp as int] as int).len()
                                && func.layout.insts_of(
                                    postorder@[bp as int] as int)[cur as int] == inst);
                        }
                        return Err(LegalizeError::Unsupported { inst });
                    }
                },
            }
        }
    }
    func.resize_encodings();
    proof {
        assert forall|p: int| 0 <= p < postorder@.len()
            implies block_done(*func, *target, #[trigger] postorder@[p] as int) by {
            let b2 = postorder@[p] as int;
            assert(block_settled(*func, *target, b2));
            assert forall|j: int| 0 <= j < func.layout.insts_of(b2).len()
                implies inst_done(*func, *target, #[trigger] func.layout.insts_of(b2)[j]) by {
                assert(inst_settled(*func, *target, func.layout.insts_of(b2)[j]));
            }
        }
    }
    Ok(())
}

/// Shape conformance: in a fully legalized function, every call and
/// return instruction of every visited block has operand and result
/// shapes that exactly match the target's lowered calling convention —
/// each operand and each result is of a class the target passes
/// directly.
pub proof fn lemma_shape_conformance(f: Function, t: TargetDesc, po: Seq<usize>, p: int, j: int)
    requires
        all_done(f, t, po),
        0 <= p < po.len(),
        0 <= j < f.layout.insts_of(po[p] as int).len(),
        f.dfg.insts@[f.layout.insts_of(po[p] as int)[j] as int].opcode.spec_is_call()
            || f.dfg.insts@[f.layout.insts_of(po[p] as int)[j] as int].opcode.spec_is_return(),
    ensures
        t.abi_shape_ok(f.dfg, f.layout.insts_of(po[p] as int)[j] as int),
{
    let id = f.layout.insts_of(po[p] as int)[j];
    assert(block_done(f, t, po[p] as int));
    assert(inst_done(f, t, id));
}

/// Branch arity conformance: in a fully legalized function, no branch
/// instruction of any visited block carries more block arguments than
/// the target can encode directly. A conditional branch's first operand
/// is its condition, not a carried argument.
pub proof fn lemma_branch_arity_conformance(
    f: Function,
    t: TargetDesc,
    po: Seq<usize>,
    p: int,
    j: int,
)
    requires
        all_done(f, t, po),
        0 <= p < po.len(),
        0 <= j < f.layout.insts_of(po[p] as int).len(),
        f.dfg.insts@[f.layout.insts_of(po[p] as int)[j] as int].opcode.spec_is_branch(),
    ensures
        ({
            let d = f.dfg.insts@[f.layout.insts_of(po[p] as int)[j] as int];
            if d.opcode is Jump {
                d.args@.len() <= t.max_branch_args
            } else {
                d.args@.len() - 1 <= t.max_branch_args
            }
        }),
{
    let id = f.layout.insts_of(po[p] as int)[j];
    assert(block_done(f, t, po[p] as int));
    assert(inst_done(f, t, id));
}

} // verus!
