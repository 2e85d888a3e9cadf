//! The expand/narrow rewrite engine.
//!
//! When the encoding selector reports that an instruction has no direct
//! encoding, the driver dispatches here. `expand` replaces an illegal
//! instruction with a semantically equivalent sequence of instructions
//! each closer to primitive form; `narrow` splits the controlling type
//! into a low and a high half processed by two narrower instructions
//! plus split/concatenate glue. Both report whether any change was made;
//! a report of "unchanged" means no rule matched, which the driver
//! treats as a fatal rule-table gap.
//!
//! Rule selection is keyed by opcode and controlling type. The rules are
//! dispatched exhaustively over the closed opcode tag, so adding an
//! opcode without deciding its rewrite is a compile-time error.

use vstd::prelude::*;
use crate::ir::Function;
use crate::ir::InstData;
use crate::ir::Opcode;
use crate::ir::ValueType;
use crate::ir::local_edit;

verus! {

/// Replace an illegal instruction with an equivalent sequence of
/// simpler instructions. The one expansion realized here rewrites
/// add-with-immediate, for targets without that form, into a constant
/// materialization followed by a plain add:
/// the sequence `v := iconst imm; r := iadd x, v` replaces
/// `r := iadd_imm x, imm`, reusing the original result value, so every
/// use of `r` is preserved unchanged.
pub fn expand(func: &mut Function, b: usize, i: usize) -> (changed: bool)
    requires
        old(func).wf(),
        b < old(func).layout.num_ebbs(),
        i < old(func).layout.insts_of(b as int).len(),
    ensures
        final(func).wf(),
        !changed ==> *final(func) == *old(func),
        changed ==> local_edit(*old(func), *final(func), b as int, i as int,
            old(func).layout.insts_of(b as int)[i as int]),
        final(func).encodings@.len() == old(func).encodings@.len()
            + (final(func).dfg.num_insts() - old(func).dfg.num_insts()),
        changed ==> final(func).dfg.num_insts() > old(func).dfg.num_insts(),
        ({
            let d = old(func).dfg.insts@[
                old(func).layout.insts_of(b as int)[i as int] as int];
            changed <==> d.opcode is IaddImm && d.args@.len() >= 1
        }),
        changed ==> ({
            let id = old(func).layout.insts_of(b as int)[i as int];
            let d = old(func).dfg.insts@[id as int];
            let cid = old(func).dfg.num_insts() as int;
            let cv = old(func).dfg.num_values() as int;
            &&& d.opcode is IaddImm
            &&& final(func).layout.insts_of(b as int)
                == old(func).layout.insts_of(b as int).insert(i as int, cid as usize)
            &&& final(func).dfg.insts@[cid].opcode is Iconst
            &&& final(func).dfg.insts@[cid].ty == d.ty
            &&& final(func).dfg.insts@[cid].args@ == Seq::<usize>::empty()
            &&& final(func).dfg.insts@[cid].imm == d.imm
            &&& final(func).dfg.results@[cid]@ == seq![cv as usize]
            &&& final(func).dfg.value_types@[cv] == d.ty
            &&& final(func).dfg.insts@[id as int].opcode is Iadd
            &&& final(func).dfg.insts@[id as int].ty == d.ty
            &&& final(func).dfg.insts@[id as int].args@ == seq![d.args@[0], cv as usize]
            &&& final(func).dfg.results@[id as int]@ == old(func).dfg.results@[id as int]@
        }),
{
    let id = func.layout.ebb_insts[b][i];
    let opcode = func.dfg.insts[id].opcode;
    match opcode {
        Opcode::IaddImm => {
            if func.dfg.insts[id].args.len() < 1 {
                return false;
            }
            let ty = func.dfg.insts[id].ty;
            let imm = func.dfg.insts[id].imm;
            let x = func.dfg.insts[id].args[0];
            let const_data = InstData {
                opcode: Opcode::Iconst,
                ty,
                args: Vec::new(),
                imm,
                dest: 0,
            };
            let mut rtys: Vec<ValueType> = Vec::new();
            rtys.push(ty);
            let cid = func.create_inst(const_data, &rtys);
            let cv = func.dfg.results[cid][0];
            func.insert_in_ebb(b, i, cid);
            let add_data = InstData {
                opcode: Opcode::Iadd,
                ty,
                args: vec![x, cv],
                imm: 0,
                dest: 0,
            };
            func.replace_inst(id, add_data);
            true
        },
        _ => false,
    }
}

/// The low half of a wide immediate: its bits at the half type's width.
pub open spec fn imm_lo(imm: u64, h: ValueType) -> u64 {
    match h {
        ValueType::I8 => imm & 0xff,
        ValueType::I16 => imm & 0xffff,
        ValueType::I32 => imm & 0xffff_ffff,
        ValueType::I64 => imm,
    }
}

/// The high half of a wide immediate: its bits above the half width.
pub open spec fn imm_hi(imm: u64, h: ValueType) -> u64 {
    match h {
        ValueType::I8 => imm >> 8,
        ValueType::I16 => imm >> 16,
        ValueType::I32 => imm >> 32,
        ValueType::I64 => 0,
    }
}

/// Split an instruction whose controlling type is wider than any native
/// register into narrower instructions plus glue. Two narrowings are
/// realized, keyed by opcode on a type that can be halved:
/// an addition becomes the classic carry chain
/// `(xl, xh) := isplit x; (yl, yh) := isplit y;
/// (lo, c) := iadd_cout xl, yl; hi := iadd_carry xh, yh, c;
/// r := iconcat lo, hi`, and a wide constant becomes two narrow
/// constants concatenated. The original instruction becomes the final
/// concatenation in place, reusing its result value, so every use of
/// `r` is preserved unchanged.
pub fn narrow(func: &mut Function, b: usize, i: usize) -> (changed: bool)
    requires
        old(func).wf(),
        b < old(func).layout.num_ebbs(),
        i < old(func).layout.insts_of(b as int).len(),
    ensures
        final(func).wf(),
        !changed ==> *final(func) == *old(func),
        changed ==> local_edit(*old(func), *final(func), b as int, i as int,
            old(func).layout.insts_of(b as int)[i as int]),
        final(func).encodings@.len() == old(func).encodings@.len()
            + (final(func).dfg.num_insts() - old(func).dfg.num_insts()),
        changed ==> final(func).dfg.num_insts() > old(func).dfg.num_insts(),
        ({
            let d = old(func).dfg.insts@[
                old(func).layout.insts_of(b as int)[i as int] as int];
            changed <==> d.ty.spec_half() is Some
                && (d.opcode is Iconst || (d.opcode is Iadd && d.args@.len() >= 2))
        }),
        changed && old(func).dfg.insts@[
            old(func).layout.insts_of(b as int)[i as int] as int].opcode is Iadd ==> ({
            let id = old(func).layout.insts_of(b as int)[i as int];
            let d = old(func).dfg.insts@[id as int];
            let h = d.ty.spec_half()->Some_0;
            let xs = old(func).dfg.num_insts() as int;
            let ys = xs + 1;
            let a1 = xs + 2;
            let a2 = xs + 3;
            let v0 = old(func).dfg.num_values() as int;
            &&& d.ty.spec_half() is Some
            &&& final(func).dfg.num_insts() == old(func).dfg.num_insts() + 4
            &&& final(func).layout.insts_of(b as int).len()
                == old(func).layout.insts_of(b as int).len() + 4
            &&& final(func).layout.insts_of(b as int)[i as int] == xs as usize
            &&& final(func).layout.insts_of(b as int)[i + 1] == ys as usize
            &&& final(func).layout.insts_of(b as int)[i + 2] == a1 as usize
            &&& final(func).layout.insts_of(b as int)[i + 3] == a2 as usize
            &&& final(func).layout.insts_of(b as int)[i + 4] == id
            &&& final(func).dfg.insts@[xs].opcode is Isplit
            &&& final(func).dfg.insts@[xs].ty == d.ty
            &&& final(func).dfg.insts@[xs].args@ == seq![d.args@[0]]
            &&& final(func).dfg.insts@[ys].opcode is Isplit
            &&& final(func).dfg.insts@[ys].ty == d.ty
            &&& final(func).dfg.insts@[ys].args@ == seq![d.args@[1]]
            &&& final(func).dfg.results@[xs]@ == seq![v0 as usize, (v0 + 1) as usize]
            &&& final(func).dfg.results@[ys]@ == seq![(v0 + 2) as usize, (v0 + 3) as usize]
            &&& final(func).dfg.insts@[a1].opcode is IaddCout
            &&& final(func).dfg.insts@[a1].ty == h
            &&& final(func).dfg.insts@[a1].args@ == seq![v0 as usize, (v0 + 2) as usize]
            &&& final(func).dfg.results@[a1]@ == seq![(v0 + 4) as usize, (v0 + 5) as usize]
            &&& final(func).dfg.insts@[a2].opcode is IaddCarry
            &&& final(func).dfg.insts@[a2].ty == h
            &&& final(func).dfg.insts@[a2].args@
                == seq![(v0 + 1) as usize, (v0 + 3) as usize, (v0 + 5) as usize]
            &&& final(func).dfg.results@[a2]@ == seq![(v0 + 6) as usize]
            &&& final(func).dfg.insts@[id as int].opcode is Iconcat
            &&& final(func).dfg.insts@[id as int].ty == h
            &&& final(func).dfg.insts@[id as int].args@
                == seq![(v0 + 4) as usize, (v0 + 6) as usize]
            &&& final(func).dfg.results@[id as int]@ == old(func).dfg.results@[id as int]@
            &&& forall|k: int| v0 <= k < v0 + 7
                ==> #[trigger] final(func).dfg.value_types@[k] == h
        }),
        changed && old(func).dfg.insts@[
            old(func).layout.insts_of(b as int)[i as int] as int].opcode is Iconst ==> ({
            let id = old(func).layout.insts_of(b as int)[i as int];
            let d = old(func).dfg.insts@[id as int];
            let h = d.ty.spec_half()->Some_0;
            let lc = old(func).dfg.num_insts() as int;
            let hc = lc + 1;
            let v0 = old(func).dfg.num_values() as int;
            &&& d.ty.spec_half() is Some
            &&& final(func).dfg.num_insts() == old(func).dfg.num_insts() + 2
            &&& final(func).layout.insts_of(b as int).len()
                == old(func).layout.insts_of(b as int).len() + 2
            &&& final(func).layout.insts_of(b as int)[i as int] == lc as usize
            &&& final(func).layout.insts_of(b as int)[i + 1] == hc as usize
            &&& final(func).layout.insts_of(b as int)[i + 2] == id
            &&& final(func).dfg.insts@[lc].opcode is Iconst
            &&& final(func).dfg.insts@[lc].ty == h
            &&& final(func).dfg.insts@[lc].args@ == Seq::<usize>::empty()
            &&& final(func).dfg.insts@[lc].imm == imm_lo(d.imm, h)
            &&& final(func).dfg.results@[lc]@ == seq![v0 as usize]
            &&& final(func).dfg.insts@[hc].opcode is Iconst
            &&& final(func).dfg.insts@[hc].ty == h
            &&& final(func).dfg.insts@[hc].args@ == Seq::<usize>::empty()
            &&& final(func).dfg.insts@[hc].imm == imm_hi(d.imm, h)
            &&& final(func).dfg.results@[hc]@ == seq![(v0 + 1) as usize]
            &&& final(func).dfg.value_types@[v0] == h
            &&& final(func).dfg.value_types@[v0 + 1] == h
            &&& final(func).dfg.insts@[id as int].opcode is Iconcat
            &&& final(func).dfg.insts@[id as int].ty == h
            &&& final(func).dfg.insts@[id as int].args@
                == seq![v0 as usize, (v0 + 1) as usize]
            &&& final(func).dfg.results@[id as int]@ == old(func).dfg.results@[id as int]@
        }),
{
    let id = func.layout.ebb_insts[b][i];
    let opcode = func.dfg.insts[id].opcode;
    let ty = func.dfg.insts[id].ty;
    let h = match ty.half() {
        Some(h) => h,
        None => {
            return false;
        },
    };
    match opcode {
        Opcode::Iadd => {
            if func.dfg.insts[id].args.len() < 2 {
                return false;
            }
            let x = func.dfg.insts[id].args[0];
            let y = func.dfg.insts[id].args[1];
            let mut halves: Vec<ValueType> = Vec::new();
            halves.push(h);
            halves.push(h);

            let xs = func.create_inst(InstData {
                opcode: Opcode::Isplit, ty, args: vec![x], imm: 0, dest: 0 }, &halves);
            let xl = func.dfg.results[xs][0];
            let xh = func.dfg.results[xs][1];
            let ys = func.create_inst(InstData {
                opcode: Opcode::Isplit, ty, args: vec![y], imm: 0, dest: 0 }, &halves);
            let yl = func.dfg.results[ys][0];
            let yh = func.dfg.results[ys][1];
            let a1 = func.create_inst(InstData {
                opcode: Opcode::IaddCout, ty: h, args: vec![xl, yl], imm: 0, dest: 0 }, &halves);
            let lo = func.dfg.results[a1][0];
            let c = func.dfg.results[a1][1];
            let mut one_half: Vec<ValueType> = Vec::new();
            one_half.push(h);
            let a2 = func.create_inst(InstData {
                opcode: Opcode::IaddCarry, ty: h, args: vec![xh, yh, c], imm: 0, dest: 0 },
                &one_half);
            let hi = func.dfg.results[a2][0];

            func.insert_in_ebb(b, i, xs);
            let l1 = func.layout.ebb_insts[b].len();
            proof {
                assert(i + 1 <= l1);
            }
            func.insert_in_ebb(b, i + 1, ys);
            let l2 = func.layout.ebb_insts[b].len();
            proof {
                assert(i + 2 <= l2);
            }
            func.insert_in_ebb(b, i + 2, a1);
            let l3 = func.layout.ebb_insts[b].len();
            proof {
                assert(i + 3 <= l3);
            }
            func.insert_in_ebb(b, i + 3, a2);
            func.replace_inst(id, InstData {
                opcode: Opcode::Iconcat, ty: h, args: vec![lo, hi], imm: 0, dest: 0 });
            true
        },
        Opcode::Iconst => {
            let imm = func.dfg.insts[id].imm;
            let mask: u64 = match h {
                ValueType::I8 => 0xff,
                ValueType::I16 => 0xffff,
                ValueType::I32 => 0xffff_ffff,
                ValueType::I64 => u64::MAX,
            };
            let lo_imm = imm & mask;
            let hi_imm: u64 = match h {
                ValueType::I8 => imm >> 8,
                ValueType::I16 => imm >> 16,
                ValueType::I32 => imm >> 32,
                ValueType::I64 => 0,
            };
            let mut one_half: Vec<ValueType> = Vec::new();
            one_half.push(h);
            let lc = func.create_inst(InstData {
                opcode: Opcode::Iconst, ty: h, args: Vec::new(), imm: lo_imm, dest: 0 },
                &one_half);
            let lo = func.dfg.results[lc][0];
            let hc = func.create_inst(InstData {
                opcode: Opcode::Iconst, ty: h, args: Vec::new(), imm: hi_imm, dest: 0 },
                &one_half);
            let hi = func.dfg.results[hc][0];
            func.insert_in_ebb(b, i, lc);
            let l1 = func.layout.ebb_insts[b].len();
            proof {
                assert(i + 1 <= l1);
            }
            func.insert_in_ebb(b, i + 1, hc);
            func.replace_inst(id, InstData {
                opcode: Opcode::Iconcat, ty: h, args: vec![lo, hi], imm: 0, dest: 0 });
            true
        },
        _ => false,
    }
}

} // verus!
