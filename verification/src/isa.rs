//! The target instruction-set description and its encoding selector.
//!
//! The selector maps an instruction plus its controlling type to either a
//! concrete encoding recipe or a legalization action. The rest of the
//! pass treats it as an oracle with exactly that two-outcome contract.

use vstd::prelude::*;
use crate::ir::Dfg;
use crate::ir::Encoding;
use crate::ir::Function;
use crate::ir::Opcode;
use crate::ir::ValueType;

verus! {

/// The action the selector reports when no direct encoding exists. The
/// tag is closed: two further strategies (type promotion and library-call
/// substitution) are anticipated but not realized, so the selector never
/// reports them, and adding one makes every dispatch a compile-time
/// error rather than a silent fall-through.
#[derive(Clone, Copy, PartialEq, Eq, Structural, Debug)]
pub enum Legalize {
    /// Replace the instruction with a sequence of simpler instructions.
    Expand,
    /// Split the controlling type into a low and a high half.
    Narrow,
}

/// A target description: what the hardware can realize directly.
///
/// Value-pair glue (`Isplit`, `Iconcat`) is always realizable; it is
/// resolved by register assignment and emits no code of its own.
#[derive(Clone, Copy, Debug)]
pub struct TargetDesc {
    /// The widest integer type with native arithmetic.
    pub widest_int: ValueType,
    /// Whether an add-with-immediate form exists, or the immediate must
    /// be materialized first.
    pub has_iadd_imm: bool,
    /// The largest number of block arguments a branch can encode
    /// directly.
    pub max_branch_args: usize,
}

impl TargetDesc {
    /// Whether a value of type `t` fits a native register.
    pub open spec fn spec_legal_type(self, t: ValueType) -> bool {
        t.spec_bits() <= self.widest_int.spec_bits()
    }

    /// Whether a value of type `t` fits a native register.
    pub fn legal_type(self, t: ValueType) -> (r: bool)
        ensures
            r == self.spec_legal_type(t),
    {
        t.bits() <= self.widest_int.bits()
    }

    /// Whether every operand and result of instruction `id` has a type
    /// the lowered calling convention passes directly: the shape check
    /// for call and return boundaries.
    pub open spec fn abi_shape_ok(self, dfg: Dfg, id: int) -> bool {
        &&& forall|k: int| 0 <= k < dfg.insts@[id].args@.len()
            ==> self.spec_legal_type(dfg.value_types@[#[trigger] dfg.insts@[id].args@[k] as int])
        &&& forall|k: int| 0 <= k < dfg.results@[id]@.len()
            ==> self.spec_legal_type(dfg.value_types@[#[trigger] dfg.results@[id]@[k] as int])
    }

    /// Whether instruction `id` has a direct encoding.
    pub open spec fn encodable(self, dfg: Dfg, id: int) -> bool {
        match dfg.insts@[id].opcode {
            Opcode::Isplit => true,
            Opcode::Iconcat => true,
            Opcode::Call => self.abi_shape_ok(dfg, id),
            Opcode::Ret => self.abi_shape_ok(dfg, id),
            Opcode::Jump => dfg.insts@[id].args@.len() <= self.max_branch_args,
            Opcode::Brz => dfg.insts@[id].args@.len() <= self.max_branch_args + 1,
            Opcode::IaddImm => self.spec_legal_type(dfg.insts@[id].ty) && self.has_iadd_imm,
            _ => self.spec_legal_type(dfg.insts@[id].ty),
        }
    }

    /// The action reported when instruction `id` has no direct encoding:
    /// an over-wide controlling type narrows, anything else expands.
    pub open spec fn action_for(self, dfg: Dfg, id: int) -> Legalize {
        if !self.spec_legal_type(dfg.insts@[id].ty) {
            Legalize::Narrow
        } else {
            Legalize::Expand
        }
    }

    /// The encoding selector: a concrete recipe for a legal instruction,
    /// or the action that should make it legal.
    pub fn encode(&self, func: &Function, id: usize) -> (r: Result<Encoding, Legalize>)
        requires
            func.wf(),
            id < func.dfg.num_insts(),
        ensures
            r is Ok <==> self.encodable(func.dfg, id as int),
            r matches Ok(e) ==> e == (Encoding { recipe: recipe_of(func.dfg.insts@[id as int].opcode) }),
            r matches Err(a) ==> a == self.action_for(func.dfg, id as int),
    {
        let d = &func.dfg.insts[id];
        let ok: bool = match d.opcode {
            Opcode::Isplit => true,
            Opcode::Iconcat => true,
            Opcode::Call => self.abi_shape_check(func, id),
            Opcode::Ret => self.abi_shape_check(func, id),
            Opcode::Jump => d.args.len() <= self.max_branch_args,
            Opcode::Brz => d.args.len() == 0 || d.args.len() - 1 <= self.max_branch_args,
            Opcode::IaddImm => self.legal_type(d.ty) && self.has_iadd_imm,
            _ => self.legal_type(d.ty),
        };
        if ok {
            Ok(Encoding { recipe: recipe_of_exec(d.opcode) })
        } else if !self.legal_type(d.ty) {
            Err(Legalize::Narrow)
        } else {
            Err(Legalize::Expand)
        }
    }

    /// The executable form of the call and return shape check.
    pub fn abi_shape_check(&self, func: &Function, id: usize) -> (r: bool)
        requires
            func.wf(),
            id < func.dfg.num_insts(),
        ensures
            r == self.abi_shape_ok(func.dfg, id as int),
    {
        let d = &func.dfg.insts[id];
        let mut k: usize = 0;
        while k < d.args.len()
            invariant
                func.wf(),
                id < func.dfg.num_insts(),
                d == &func.dfg.insts[id as int],
                k <= d.args@.len(),
                forall|j: int| 0 <= j < k
                    ==> self.spec_legal_type(
                        func.dfg.value_types@[#[trigger] d.args@[j] as int]),
            decreases d.args@.len() - k,
        {
            if !self.legal_type(func.dfg.value_types[d.args[k]]) {
                return false;
            }
            k += 1;
        }
        let rs = &func.dfg.results[id];
        let mut k2: usize = 0;
        while k2 < rs.len()
            invariant
                func.wf(),
                id < func.dfg.num_insts(),
                rs == &func.dfg.results[id as int],
                k2 <= rs@.len(),
                forall|j: int| 0 <= j < k2
                    ==> self.spec_legal_type(
                        func.dfg.value_types@[#[trigger] rs@[j] as int]),
            decreases rs@.len() - k2,
        {
            if !self.legal_type(func.dfg.value_types[rs[k2]]) {
                return false;
            }
            k2 += 1;
        }
        true
    }
}

/// The recipe chosen for each directly encodable opcode. The table is
/// total so that the selector is a function of the instruction alone,
/// which keeps the whole pass deterministic.
pub open spec fn recipe_of(op: Opcode) -> u16 {
    match op {
        Opcode::Iconst => 1,
        Opcode::Iadd => 2,
        Opcode::IaddImm => 3,
        Opcode::IaddCout => 4,
        Opcode::IaddCarry => 5,
        Opcode::Isplit => 6,
        Opcode::Iconcat => 7,
        Opcode::Call => 8,
        Opcode::Ret => 9,
        Opcode::Jump => 10,
        Opcode::Brz => 11,
        Opcode::Trap => 12,
    }
}

/// The executable form of the recipe table.
pub fn recipe_of_exec(op: Opcode) -> (r: u16)
    ensures
        r == recipe_of(op),
{
    match op {
        Opcode::Iconst => 1,
        Opcode::Iadd => 2,
        Opcode::IaddImm => 3,
        Opcode::IaddCout => 4,
        Opcode::IaddCarry => 5,
        Opcode::Isplit => 6,
        Opcode::Iconcat => 7,
        Opcode::Call => 8,
        Opcode::Ret => 9,
        Opcode::Jump => 10,
        Opcode::Brz => 11,
        Opcode::Trap => 12,
    }
}

} // verus!
