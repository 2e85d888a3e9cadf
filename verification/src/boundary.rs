//! Legalize ABI boundaries: the function's own signature, and every call
//! and return instruction whose argument or result shapes do not match
//! the lowered calling convention.
//!
//! Conversion instructions are inserted immediately adjacent to the
//! boundary instruction: a value too wide for a native register is split
//! into halves passed separately, and a too-wide call result is received
//! as halves that are concatenated back right after the call. Both entry
//! points are idempotent: invoking them on an already-lowered boundary
//! changes nothing and reports so.

use vstd::prelude::*;
use crate::ir::Function;
use crate::ir::InstData;
use crate::ir::Opcode;
use crate::ir::ValueType;
use crate::ir::inst_same;
use crate::ir::local_edit;
use crate::isa::TargetDesc;

verus! {

/// How one parameter type is passed by the lowered calling convention:
/// directly when it fits a native register, and otherwise as the list of
/// native-width pieces that together hold its bits.
pub open spec fn lower_one(t: ValueType, td: TargetDesc) -> Seq<ValueType> {
    if td.spec_legal_type(t) {
        seq![t]
    } else {
        Seq::new(t.spec_bits() / td.widest_int.spec_bits(), |k: int| td.widest_int)
    }
}

/// The lowered form of a parameter or return type list: each type
/// replaced by how the convention passes it.
pub open spec fn lowered_types(s: Seq<ValueType>, td: TargetDesc) -> Seq<ValueType>
    decreases s.len(),
{
    if s.len() == 0 {
        Seq::empty()
    } else {
        lowered_types(s.drop_last(), td) + lower_one(s.last(), td)
    }
}

/// Every type in a lowered list fits a native register.
pub open spec fn all_legal(s: Seq<ValueType>, td: TargetDesc) -> bool {
    forall|j: int| 0 <= j < s.len() ==> td.spec_legal_type(#[trigger] s[j])
}

/// Lowering a list whose types are all already legal returns it
/// unchanged, which is what makes signature lowering idempotent.
pub proof fn lemma_lowered_identity(s: Seq<ValueType>, td: TargetDesc)
    requires
        all_legal(s, td),
    ensures
        lowered_types(s, td) == s,
    decreases s.len(),
{
    if s.len() > 0 {
        assert(all_legal(s.drop_last(), td));
        lemma_lowered_identity(s.drop_last(), td);
        assert(td.spec_legal_type(s.last()));
        assert(lowered_types(s, td) =~= s);
    } else {
        assert(lowered_types(s, td) =~= s);
    }
}

/// Build the lowered form of a type list.
fn lower_vec(s: &Vec<ValueType>, td: &TargetDesc) -> (r: Vec<ValueType>)
    ensures
        r@ == lowered_types(s@, *td),
        all_legal(r@, *td),
{
    let mut r: Vec<ValueType> = Vec::new();
    let mut k: usize = 0;
    while k < s.len()
        invariant
            k <= s@.len(),
            r@ == lowered_types(s@.take(k as int), *td),
            all_legal(r@, *td),
        decreases s@.len() - k,
    {
        let t = s[k];
        let ghost prev = r@;
        if td.legal_type(t) {
            r.push(t);
            proof {
                assert(lower_one(t, *td) =~= seq![t]);
                assert(r@ =~= prev + lower_one(t, *td));
            }
        } else {
            let cnt = t.bits() / td.widest_int.bits();
            let mut c: u32 = 0;
            while c < cnt
                invariant
                    c <= cnt,
                    r@ == prev + Seq::new(c as nat, |j: int| td.widest_int),
                    all_legal(r@, *td),
                decreases cnt - c,
            {
                r.push(td.widest_int);
                proof {
                    assert(r@ =~= prev + Seq::new((c + 1) as nat, |j: int| td.widest_int));
                }
                c += 1;
            }
            proof {
                assert(cnt as nat == t.spec_bits() / td.widest_int.spec_bits());
                assert(r@ =~= prev + lower_one(t, *td));
            }
        }
        proof {
            assert(s@.take(k + 1 as int).drop_last() =~= s@.take(k as int));
            assert(s@.take(k + 1 as int).last() == s@[k as int]);
        }
        k += 1;
    }
    proof {
        assert(s@.take(s@.len() as int) =~= s@);
    }
    r
}

/// Rewrite the function's own signature to the lowered calling
/// convention. Run once, before the body traversal, so that per
/// instruction handling can compare boundary shapes against a signature
/// that is already in final form. Idempotent: a lowered signature lowers
/// to itself.
pub fn legalize_signatures(func: &mut Function, target: &TargetDesc)
    requires
        old(func).wf(),
    ensures
        final(func).wf(),
        final(func).signature.params@ == lowered_types(old(func).signature.params@, *target),
        final(func).signature.returns@ == lowered_types(old(func).signature.returns@, *target),
        all_legal(final(func).signature.params@, *target),
        all_legal(final(func).signature.returns@, *target),
        final(func).dfg == old(func).dfg,
        final(func).layout == old(func).layout,
        final(func).encodings == old(func).encodings,
{
    let new_params = lower_vec(&func.signature.params, target);
    let new_returns = lower_vec(&func.signature.returns, target);
    func.signature.params = new_params;
    func.signature.returns = new_returns;
}

/// How many of the listed values are too wide for the convention to
/// pass directly.
pub open spec fn wide_count(f: Function, vals: Seq<usize>, td: TargetDesc) -> int
    decreases vals.len(),
{
    if vals.len() == 0 {
        0
    } else {
        wide_count(f, vals.drop_last(), td)
            + if td.spec_legal_type(f.dfg.value_types@[vals.last() as int]) { 0int } else { 1int }
    }
}

/// The converted form of a boundary value list: a value the convention
/// passes directly is kept as it is; a wide one is replaced by the pair
/// of fresh half-width values allocated for it, two per wide value,
/// numbered from `base` in processing order.
pub open spec fn converted_values(f: Function, vals: Seq<usize>, base: int, td: TargetDesc)
    -> Seq<usize>
    decreases vals.len(),
{
    if vals.len() == 0 {
        Seq::empty()
    } else {
        let prefix = converted_values(f, vals.drop_last(), base, td);
        if td.spec_legal_type(f.dfg.value_types@[vals.last() as int]) {
            prefix.push(vals.last())
        } else {
            let w = wide_count(f, vals.drop_last(), td);
            prefix + seq![(base + 2 * w) as usize, (base + 2 * w + 1) as usize]
        }
    }
}

/// Rewrite one call or return instruction whose argument or result
/// shapes do not match the lowered convention, inserting the conversion
/// instructions immediately adjacent to it, and report whether anything
/// was inserted so the driver can rewind. A boundary that already
/// matches is left untouched.
fn lower_boundary(func: &mut Function, target: &TargetDesc, b: usize, i: usize) -> (changed: bool)
    requires
        old(func).wf(),
        b < old(func).layout.num_ebbs(),
        i < old(func).layout.insts_of(b as int).len(),
    ensures
        final(func).wf(),
        !changed ==> *final(func) == *old(func)
            && target.abi_shape_ok(final(func).dfg, old(func).layout.insts_of(b as int)[i as int] as int),
        changed ==> local_edit(*old(func), *final(func), b as int, i as int,
            old(func).layout.insts_of(b as int)[i as int]),
        changed ==> !target.abi_shape_ok(old(func).dfg,
            old(func).layout.insts_of(b as int)[i as int] as int),
        changed ==> final(func).dfg.num_insts() > old(func).dfg.num_insts(),
        changed ==> ({
            let id = old(func).layout.insts_of(b as int)[i as int] as int;
            let d = old(func).dfg.insts@[id];
            let base = old(func).dfg.num_values() as int;
            let nwa = wide_count(*old(func), d.args@, *target);
            &&& final(func).dfg.insts@[id].opcode == d.opcode
            &&& final(func).dfg.insts@[id].ty == d.ty
            &&& final(func).dfg.insts@[id].imm == d.imm
            &&& final(func).dfg.insts@[id].dest == d.dest
            &&& final(func).dfg.insts@[id].args@
                == converted_values(*old(func), d.args@, base, *target)
            &&& final(func).dfg.results@[id]@
                == converted_values(*old(func), old(func).dfg.results@[id]@,
                    base + 2 * nwa, *target)
        }),
        final(func).encodings@.len() == old(func).encodings@.len()
            + (final(func).dfg.num_insts() - old(func).dfg.num_insts()),
{
    let id = func.layout.ebb_insts[b][i];
    if target.abi_shape_check(func, id) {
        return false;
    }

    let ghost oldf = *old(func);
    let ghost base = oldf.dfg.num_values() as int;
    let ghost oldargs = oldf.dfg.insts@[id as int].args@;
    let ghost oldres = oldf.dfg.results@[id as int]@;
    // Split every over-wide argument into halves passed separately,
    // inserting the splits just before the boundary instruction.
    let nargs = func.dfg.insts[id].args.len();
    let mut new_args: Vec<usize> = Vec::new();
    let mut ins: usize = 0;
    let mut k: usize = 0;
    while k < nargs
        invariant
            oldf.wf(),
            func.wf(),
            b < func.layout.num_ebbs(),
            i < oldf.layout.insts_of(b as int).len(),
            id < func.dfg.num_insts(),
            k <= nargs,
            nargs == func.dfg.insts@[id as int].args@.len(),
            i + ins < func.layout.insts_of(b as int).len(),
            func.layout.insts_of(b as int).len()
                == oldf.layout.insts_of(b as int).len() + ins,
            func.layout.insts_of(b as int)[i + ins as int] == id,
            forall|j: int| 0 <= j < i
                ==> #[trigger] func.layout.insts_of(b as int)[j]
                    == oldf.layout.insts_of(b as int)[j],
            forall|b2: int| 0 <= b2 < oldf.layout.num_ebbs() && b2 != b
                ==> #[trigger] func.layout.insts_of(b2) == oldf.layout.insts_of(b2),
            func.layout.num_ebbs() == oldf.layout.num_ebbs(),
            func.layout.order@ == oldf.layout.order@,
            func.signature == oldf.signature,
            func.dfg.num_insts() == oldf.dfg.num_insts() + ins,
            ins == 0 ==> *func == oldf,
            base == oldf.dfg.num_values() as int,
            oldargs == oldf.dfg.insts@[id as int].args@,
            func.dfg.num_values() == base + 2 * ins,
            ins == wide_count(oldf, oldargs.take(k as int), *target),
            new_args@ == converted_values(oldf, oldargs.take(k as int), base, *target),
            ins == 0 ==> forall|j: int| 0 <= j < k
                ==> target.spec_legal_type(oldf.dfg.value_types@[
                    #[trigger] oldf.dfg.insts@[id as int].args@[j] as int]),
            forall|oid: int| 0 <= oid < oldf.dfg.num_insts()
                ==> inst_same(#[trigger] func.dfg.insts@[oid], oldf.dfg.insts@[oid]),
            forall|oid: int| 0 <= oid < oldf.dfg.num_insts()
                ==> #[trigger] func.dfg.results@[oid]@ == oldf.dfg.results@[oid]@,
            func.dfg.num_values() >= oldf.dfg.num_values(),
            forall|v: int| 0 <= v < oldf.dfg.num_values()
                ==> #[trigger] func.dfg.value_types@[v] == oldf.dfg.value_types@[v],
            func.dfg.ebb_params@.len() == oldf.dfg.ebb_params@.len(),
            forall|p: int| 0 <= p < oldf.dfg.ebb_params@.len()
                ==> #[trigger] func.dfg.ebb_params@[p]@ == oldf.dfg.ebb_params@[p]@,
            forall|j: int| 0 <= j < oldf.encodings@.len()
                ==> #[trigger] func.encodings@[j] == oldf.encodings@[j],
            func.encodings@.len() - oldf.encodings@.len()
                == func.dfg.num_insts() - oldf.dfg.num_insts(),
            forall|j: int| 0 <= j < new_args@.len()
                ==> #[trigger] new_args@[j] < func.dfg.num_values(),
            id == oldf.layout.insts_of(b as int)[i as int],
        decreases nargs - k,
    {
        let a = func.dfg.insts[id].args[k];
        let aty = func.dfg.value_types[a];
        proof {
            assert(a == oldargs[k as int]);
            assert(a < oldf.dfg.num_values());
            assert(aty == oldf.dfg.value_types@[a as int]);
            assert(oldargs.take(k + 1 as int).drop_last() =~= oldargs.take(k as int));
            assert(oldargs.take(k + 1 as int).last() == oldargs[k as int]);
        }
        let mut handled = false;
        if !target.legal_type(aty) {
            proof {
                assert(target.widest_int.spec_bits() >= 8);
                assert(aty.spec_half() is Some);
            }
            if let Some(h) = aty.half() {
                let split_data = InstData {
                    opcode: Opcode::Isplit,
                    ty: aty,
                    args: vec![a],
                    imm: 0,
                    dest: 0,
                };
                let mut rtys: Vec<ValueType> = Vec::new();
                rtys.push(h);
                rtys.push(h);
                let sid = func.create_inst(split_data, &rtys);
                let lo = func.dfg.results[sid][0];
                let hi = func.dfg.results[sid][1];
                let blen = func.layout.ebb_insts[b].len();
                proof {
                    assert(i + ins < blen);
                    assert(ins < blen);
                }
                func.insert_in_ebb(b, i + ins, sid);
                ins += 1;
                new_args.push(lo);
                new_args.push(hi);
                handled = true;
            }
        }
        if !handled {
            new_args.push(a);
        }
        k += 1;
    }

    proof {
        assert(oldargs.take(nargs as int) =~= oldargs);
    }
    // Receive every over-wide result as two halves and concatenate them
    // back together right after the boundary instruction, moving the
    // definition of the original wide value to the concatenation.
    let nres = func.dfg.results[id].len();
    let mut new_results: Vec<usize> = Vec::new();
    let mut post: usize = 0;
    let mut k2: usize = 0;
    while k2 < nres
        invariant
            oldf.wf(),
            func.wf(),
            b < func.layout.num_ebbs(),
            i < oldf.layout.insts_of(b as int).len(),
            id < func.dfg.num_insts(),
            k2 <= nres,
            nres == func.dfg.results@[id as int]@.len(),
            i + ins < func.layout.insts_of(b as int).len(),
            func.layout.insts_of(b as int).len()
                == oldf.layout.insts_of(b as int).len() + ins + post,
            func.layout.insts_of(b as int)[i + ins as int] == id,
            forall|j: int| 0 <= j < i
                ==> #[trigger] func.layout.insts_of(b as int)[j]
                    == oldf.layout.insts_of(b as int)[j],
            forall|b2: int| 0 <= b2 < oldf.layout.num_ebbs() && b2 != b
                ==> #[trigger] func.layout.insts_of(b2) == oldf.layout.insts_of(b2),
            func.layout.num_ebbs() == oldf.layout.num_ebbs(),
            func.layout.order@ == oldf.layout.order@,
            func.signature == oldf.signature,
            func.dfg.num_insts() == oldf.dfg.num_insts() + ins + post,
            ins + post == 0 ==> *func == oldf,
            base == oldf.dfg.num_values() as int,
            oldargs == oldf.dfg.insts@[id as int].args@,
            oldres == oldf.dfg.results@[id as int]@,
            nres == oldres.len(),
            func.dfg.num_values() == base + 2 * ins + 2 * post,
            ins == wide_count(oldf, oldargs, *target),
            post == wide_count(oldf, oldres.take(k2 as int), *target),
            new_args@ == converted_values(oldf, oldargs, base, *target),
            new_results@ == converted_values(oldf, oldres.take(k2 as int),
                base + 2 * ins, *target),
            ins == 0 ==> forall|j: int| 0 <= j < nargs
                ==> target.spec_legal_type(oldf.dfg.value_types@[
                    #[trigger] oldf.dfg.insts@[id as int].args@[j] as int]),
            post == 0 ==> forall|j: int| 0 <= j < k2
                ==> target.spec_legal_type(oldf.dfg.value_types@[
                    #[trigger] oldf.dfg.results@[id as int]@[j] as int]),
            nargs == oldf.dfg.insts@[id as int].args@.len(),
            forall|oid: int| 0 <= oid < oldf.dfg.num_insts()
                ==> inst_same(#[trigger] func.dfg.insts@[oid], oldf.dfg.insts@[oid]),
            forall|oid: int| 0 <= oid < oldf.dfg.num_insts()
                ==> #[trigger] func.dfg.results@[oid]@ == oldf.dfg.results@[oid]@,
            func.dfg.num_values() >= oldf.dfg.num_values(),
            forall|v: int| 0 <= v < oldf.dfg.num_values()
                ==> #[trigger] func.dfg.value_types@[v] == oldf.dfg.value_types@[v],
            func.dfg.ebb_params@.len() == oldf.dfg.ebb_params@.len(),
            forall|p: int| 0 <= p < oldf.dfg.ebb_params@.len()
                ==> #[trigger] func.dfg.ebb_params@[p]@ == oldf.dfg.ebb_params@[p]@,
            forall|j: int| 0 <= j < oldf.encodings@.len()
                ==> #[trigger] func.encodings@[j] == oldf.encodings@[j],
            func.encodings@.len() - oldf.encodings@.len()
                == func.dfg.num_insts() - oldf.dfg.num_insts(),
            forall|j: int| 0 <= j < new_args@.len()
                ==> #[trigger] new_args@[j] < func.dfg.num_values(),
            forall|j: int| 0 <= j < new_results@.len()
                ==> #[trigger] new_results@[j] < func.dfg.num_values(),
            id == oldf.layout.insts_of(b as int)[i as int],
        decreases nres - k2,
    {
        let r = func.dfg.results[id][k2];
        let rty = func.dfg.value_types[r];
        proof {
            assert(r == oldres[k2 as int]);
            assert(r < oldf.dfg.num_values());
            assert(rty == oldf.dfg.value_types@[r as int]);
            assert(oldres.take(k2 + 1 as int).drop_last() =~= oldres.take(k2 as int));
            assert(oldres.take(k2 + 1 as int).last() == oldres[k2 as int]);
        }
        let mut handled = false;
        if !target.legal_type(rty) {
            proof {
                assert(target.widest_int.spec_bits() >= 8);
                assert(rty.spec_half() is Some);
            }
            if let Some(h) = rty.half() {
                let lo = func.new_value(h);
                let hi = func.new_value(h);
                let concat_data = InstData {
                    opcode: Opcode::Iconcat,
                    ty: h,
                    args: vec![lo, hi],
                    imm: 0,
                    dest: 0,
                };
                let empty_tys: Vec<ValueType> = Vec::new();
                let cid = func.create_inst(concat_data, &empty_tys);
                let mut rv: Vec<usize> = Vec::new();
                rv.push(r);
                func.set_results(cid, rv);
                let blen = func.layout.ebb_insts[b].len();
                proof {
                    assert(blen == oldf.layout.insts_of(b as int).len() + ins + post);
                    assert(i + 1 <= oldf.layout.insts_of(b as int).len());
                    assert(i + ins + 1 + post <= blen);
                    assert(post < blen);
                }
                func.insert_in_ebb(b, i + ins + 1 + post, cid);
                post += 1;
                new_results.push(lo);
                new_results.push(hi);
                handled = true;
            }
        }
        if !handled {
            new_results.push(r);
        }
        k2 += 1;
    }

    proof {
        assert(oldres.take(nres as int) =~= oldres);
        if ins + post == 0 {
            assert(*func == oldf);
            assert(target.abi_shape_ok(oldf.dfg, id as int));
            assert(false);
        }
    }
    // Install the converted argument and result lists on the boundary
    // instruction itself; its handle is preserved.
    let old_data = &func.dfg.insts[id];
    let data = InstData {
        opcode: old_data.opcode,
        ty: old_data.ty,
        args: new_args,
        imm: old_data.imm,
        dest: old_data.dest,
    };
    func.replace_inst(id, data);
    func.set_results(id, new_results);
    true
}

/// Check a call instruction against the lowered convention and, when
/// its shapes do not match, insert the argument and result conversions
/// next to it. Returns whether anything was inserted, which tells the
/// driver to rewind and legalize the fresh conversion instructions.
pub fn handle_call_abi(func: &mut Function, target: &TargetDesc, b: usize, i: usize) -> (changed: bool)
    requires
        old(func).wf(),
        b < old(func).layout.num_ebbs(),
        i < old(func).layout.insts_of(b as int).len(),
        old(func).dfg.insts@[old(func).layout.insts_of(b as int)[i as int] as int]
            .opcode.spec_is_call(),
    ensures
        final(func).wf(),
        !changed ==> *final(func) == *old(func)
            && target.abi_shape_ok(final(func).dfg,
                old(func).layout.insts_of(b as int)[i as int] as int),
        changed ==> local_edit(*old(func), *final(func), b as int, i as int,
            old(func).layout.insts_of(b as int)[i as int]),
        changed ==> !target.abi_shape_ok(old(func).dfg,
            old(func).layout.insts_of(b as int)[i as int] as int),
        changed ==> final(func).dfg.num_insts() > old(func).dfg.num_insts(),
        changed ==> ({
            let id = old(func).layout.insts_of(b as int)[i as int] as int;
            let d = old(func).dfg.insts@[id];
            let base = old(func).dfg.num_values() as int;
            let nwa = wide_count(*old(func), d.args@, *target);
            &&& final(func).dfg.insts@[id].opcode == d.opcode
            &&& final(func).dfg.insts@[id].ty == d.ty
            &&& final(func).dfg.insts@[id].imm == d.imm
            &&& final(func).dfg.insts@[id].dest == d.dest
            &&& final(func).dfg.insts@[id].args@
                == converted_values(*old(func), d.args@, base, *target)
            &&& final(func).dfg.results@[id]@
                == converted_values(*old(func), old(func).dfg.results@[id]@,
                    base + 2 * nwa, *target)
        }),
        final(func).encodings@.len() == old(func).encodings@.len()
            + (final(func).dfg.num_insts() - old(func).dfg.num_insts()),
{
    lower_boundary(func, target, b, i)
}

/// Check a return instruction against the function's lowered signature
/// shape and, when its operands do not match, insert the conversions
/// next to it. Returns whether anything was inserted.
pub fn handle_return_abi(func: &mut Function, target: &TargetDesc, b: usize, i: usize) -> (changed: bool)
    requires
        old(func).wf(),
        b < old(func).layout.num_ebbs(),
        i < old(func).layout.insts_of(b as int).len(),
        old(func).dfg.insts@[old(func).layout.insts_of(b as int)[i as int] as int]
            .opcode.spec_is_return(),
    ensures
        final(func).wf(),
        !changed ==> *final(func) == *old(func)
            && target.abi_shape_ok(final(func).dfg,
                old(func).layout.insts_of(b as int)[i as int] as int),
        changed ==> local_edit(*old(func), *final(func), b as int, i as int,
            old(func).layout.insts_of(b as int)[i as int]),
        changed ==> !target.abi_shape_ok(old(func).dfg,
            old(func).layout.insts_of(b as int)[i as int] as int),
        changed ==> final(func).dfg.num_insts() > old(func).dfg.num_insts(),
        changed ==> ({
            let id = old(func).layout.insts_of(b as int)[i as int] as int;
            let d = old(func).dfg.insts@[id];
            let base = old(func).dfg.num_values() as int;
            let nwa = wide_count(*old(func), d.args@, *target);
            &&& final(func).dfg.insts@[id].opcode == d.opcode
            &&& final(func).dfg.insts@[id].ty == d.ty
            &&& final(func).dfg.insts@[id].imm == d.imm
            &&& final(func).dfg.insts@[id].dest == d.dest
            &&& final(func).dfg.insts@[id].args@
                == converted_values(*old(func), d.args@, base, *target)
            &&& final(func).dfg.results@[id]@
                == converted_values(*old(func), old(func).dfg.results@[id]@,
                    base + 2 * nwa, *target)
        }),
        final(func).encodings@.len() == old(func).encodings@.len()
            + (final(func).dfg.num_insts() - old(func).dfg.num_insts()),
{
    lower_boundary(func, target, b, i)
}

} // verus!
