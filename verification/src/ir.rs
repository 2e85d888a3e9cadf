//! The intermediate representation operated on by the legalizer.
//!
//! Instructions, values and extended basic blocks are opaque handles:
//! indices into owning arenas held by the [`Function`]. The layout stores
//! only ordering; instruction operands and results live in the data-flow
//! graph. This keeps handles valid and cheaply comparable across rewrites,
//! and lets the encoding table be indexed by instruction handle.

use vstd::prelude::*;

verus! {

/// An SSA value type: an integer of the given bit width. This is the
/// controlling type variable that decides which encoding or rewrite rule
/// applies to a polymorphic instruction.
#[derive(Clone, Copy, PartialEq, Eq, Structural, Debug)]
pub enum ValueType {
    I8,
    I16,
    I32,
    I64,
}

impl ValueType {
    /// The width of the type in bits.
    pub open spec fn spec_bits(self) -> nat {
        match self {
            ValueType::I8 => 8,
            ValueType::I16 => 16,
            ValueType::I32 => 32,
            ValueType::I64 => 64,
        }
    }

    /// The width of the type in bits.
    pub fn bits(self) -> (r: u32)
        ensures
            r == self.spec_bits(),
    {
        match self {
            ValueType::I8 => 8,
            ValueType::I16 => 16,
            ValueType::I32 => 32,
            ValueType::I64 => 64,
        }
    }

    /// The type of half the width, used when narrowing splits a value
    /// into a low and a high part.
    pub open spec fn spec_half(self) -> Option<ValueType> {
        match self {
            ValueType::I8 => None,
            ValueType::I16 => Some(ValueType::I8),
            ValueType::I32 => Some(ValueType::I16),
            ValueType::I64 => Some(ValueType::I32),
        }
    }

    /// The type of half the width, if the type can be halved.
    pub fn half(self) -> (r: Option<ValueType>)
        ensures
            r == self.spec_half(),
    {
        match self {
            ValueType::I8 => None,
            ValueType::I16 => Some(ValueType::I8),
            ValueType::I32 => Some(ValueType::I16),
            ValueType::I64 => Some(ValueType::I32),
        }
    }
}

/// An operation code. The set is closed: every dispatch over opcodes is
/// exhaustive, so growing the instruction set is a compile-time event,
/// never a silent fall-through.
#[derive(Clone, Copy, PartialEq, Eq, Structural, Debug)]
pub enum Opcode {
    /// Materialize an integer constant (the immediate field).
    Iconst,
    /// Integer addition of two operands.
    Iadd,
    /// Integer addition of an operand and the immediate field.
    IaddImm,
    /// Integer addition producing the sum and a carry-out value.
    IaddCout,
    /// Integer addition of two operands and an incoming carry value.
    IaddCarry,
    /// Split a value into a low and a high half.
    Isplit,
    /// Concatenate a low and a high half back into a wide value.
    Iconcat,
    /// Call the function named by the immediate field.
    Call,
    /// Return the operands to the caller.
    Ret,
    /// Unconditional branch to `dest`, carrying the operands as block
    /// arguments.
    Jump,
    /// Branch to `dest` when the first operand is zero, carrying the
    /// remaining operands as block arguments.
    Brz,
    /// Abort execution with the trap code in the immediate field.
    Trap,
}

impl Opcode {
    /// Whether the instruction is a call boundary.
    pub open spec fn spec_is_call(self) -> bool {
        self is Call
    }

    /// Whether the instruction is a call boundary.
    pub fn is_call(self) -> (r: bool)
        ensures
            r == self.spec_is_call(),
    {
        matches!(self, Opcode::Call)
    }

    /// Whether the instruction is a return boundary.
    pub open spec fn spec_is_return(self) -> bool {
        self is Ret
    }

    /// Whether the instruction is a return boundary.
    pub fn is_return(self) -> (r: bool)
        ensures
            r == self.spec_is_return(),
    {
        matches!(self, Opcode::Ret)
    }

    /// Whether the instruction is a branch carrying block arguments.
    pub open spec fn spec_is_branch(self) -> bool {
        self is Jump || self is Brz
    }

    /// Whether the instruction is a branch carrying block arguments.
    pub fn is_branch(self) -> (r: bool)
        ensures
            r == self.spec_is_branch(),
    {
        matches!(self, Opcode::Jump | Opcode::Brz)
    }
}

/// One instruction: its opcode, controlling type, value operands, an
/// immediate, and a destination block for branches. Fields that an opcode
/// does not use are kept at a fixed default so that equal instructions
/// compare equal.
#[derive(Clone, PartialEq, Eq, Debug)]
pub struct InstData {
    pub opcode: Opcode,
    pub ty: ValueType,
    pub args: Vec<usize>,
    pub imm: u64,
    pub dest: usize,
}

/// Whether two instructions carry the same data.
pub open spec fn inst_same(a: InstData, b: InstData) -> bool {
    &&& a.opcode == b.opcode
    &&& a.ty == b.ty
    &&& a.args@ == b.args@
    &&& a.imm == b.imm
    &&& a.dest == b.dest
}

/// A function signature: parameter and return types, after any lowering
/// to the target calling convention.
#[derive(Clone, PartialEq, Eq, Debug)]
pub struct Signature {
    pub params: Vec<ValueType>,
    pub returns: Vec<ValueType>,
}

/// The data-flow graph: the instruction arena, each instruction's result
/// values, the type of every value, and every block's parameter values.
#[derive(PartialEq, Eq, Debug)]
pub struct Dfg {
    pub insts: Vec<InstData>,
    pub results: Vec<Vec<usize>>,
    pub value_types: Vec<ValueType>,
    pub ebb_params: Vec<Vec<usize>>,
}

impl Dfg {
    /// The number of instructions ever created.
    pub open spec fn num_insts(self) -> nat {
        self.insts@.len()
    }

    /// The number of values ever created.
    pub open spec fn num_values(self) -> nat {
        self.value_types@.len()
    }

    /// Every operand and result of every instruction, and every block
    /// parameter, names an existing value, and every instruction has a
    /// result list.
    pub open spec fn wf(self) -> bool {
        &&& self.results@.len() == self.insts@.len()
        &&& forall|i: int, k: int|
            0 <= i < self.insts@.len() && 0 <= k < self.insts@[i].args@.len()
                ==> #[trigger] self.insts@[i].args@[k] < self.num_values()
        &&& forall|i: int, k: int|
            0 <= i < self.results@.len() && 0 <= k < self.results@[i]@.len()
                ==> #[trigger] self.results@[i]@[k] < self.num_values()
        &&& forall|b: int, k: int|
            0 <= b < self.ebb_params@.len() && 0 <= k < self.ebb_params@[b]@.len()
                ==> #[trigger] self.ebb_params@[b]@[k] < self.num_values()
    }
}

/// The layout: an arena of extended basic blocks, each an ordered
/// sequence of instruction handles, plus the order in which the blocks
/// are laid out. Removing a block from the order leaves the arena, and
/// with it every block handle, untouched.
#[derive(PartialEq, Eq, Debug)]
pub struct Layout {
    pub ebb_insts: Vec<Vec<usize>>,
    pub order: Vec<usize>,
}

impl Layout {
    /// The number of blocks ever created.
    pub open spec fn num_ebbs(self) -> nat {
        self.ebb_insts@.len()
    }

    /// The instruction sequence of block `b`.
    pub open spec fn insts_of(self, b: int) -> Seq<usize> {
        self.ebb_insts@[b]@
    }

    /// Every laid-out instruction handle is in range, the block order
    /// names existing blocks, and no instruction is laid out twice.
    pub open spec fn wf(self, ninsts: nat) -> bool {
        &&& forall|b: int, j: int|
            0 <= b < self.num_ebbs() && 0 <= j < self.insts_of(b).len()
                ==> #[trigger] self.insts_of(b)[j] < ninsts
        &&& forall|p: int|
            0 <= p < self.order@.len() ==> #[trigger] self.order@[p] < self.num_ebbs()
        &&& forall|b1: int, j1: int, b2: int, j2: int|
            0 <= b1 < self.num_ebbs() && 0 <= j1 < self.insts_of(b1).len()
                && 0 <= b2 < self.num_ebbs() && 0 <= j2 < self.insts_of(b2).len()
                && (b1 != b2 || j1 != j2)
                ==> #[trigger] self.insts_of(b1)[j1] != #[trigger] self.insts_of(b2)[j2]
    }
}

/// An encoding: the concrete machine-instruction recipe chosen for one
/// instruction.
#[derive(Clone, Copy, PartialEq, Eq, Structural, Debug)]
pub struct Encoding {
    pub recipe: u16,
}

/// The unit of legalization: a signature, a data-flow graph, a layout,
/// and the encoding table filled out by the pass. The function is mutated
/// in place; it is never allocated or freed here.
#[derive(PartialEq, Eq, Debug)]
pub struct Function {
    pub signature: Signature,
    pub dfg: Dfg,
    pub layout: Layout,
    pub encodings: Vec<Option<Encoding>>,
}

impl Function {
    /// The structural well-formedness that every pass over a function
    /// assumes and preserves.
    pub open spec fn wf(self) -> bool {
        &&& self.dfg.wf()
        &&& self.layout.wf(self.dfg.num_insts())
        &&& self.dfg.ebb_params@.len() == self.layout.num_ebbs()
    }

    /// The handle `id` is not laid out in any block, so laying it out
    /// cannot duplicate an existing handle.
    pub open spec fn not_laid_out(self, id: usize) -> bool {
        forall|b: int, j: int|
            0 <= b < self.layout.num_ebbs() && 0 <= j < self.layout.insts_of(b).len()
                ==> #[trigger] self.layout.insts_of(b)[j] != id
    }
}

/// Whether two functions have the same signature.
pub open spec fn same_sig(a: Function, b: Function) -> bool {
    &&& a.signature.params@ == b.signature.params@
    &&& a.signature.returns@ == b.signature.returns@
}

/// Whether two functions have the same layout.
pub open spec fn same_layout(a: Function, b: Function) -> bool {
    &&& a.layout.num_ebbs() == b.layout.num_ebbs()
    &&& forall|b2: int|
        0 <= b2 < a.layout.num_ebbs() ==> #[trigger] a.layout.insts_of(b2) == b.layout.insts_of(b2)
    &&& a.layout.order@ == b.layout.order@
}

/// Whether two functions have the same data-flow graph.
pub open spec fn same_dfg(a: Function, b: Function) -> bool {
    &&& a.dfg.insts@.len() == b.dfg.insts@.len()
    &&& forall|i: int|
        0 <= i < a.dfg.insts@.len() ==> inst_same(#[trigger] a.dfg.insts@[i], b.dfg.insts@[i])
    &&& a.dfg.results@.len() == b.dfg.results@.len()
    &&& forall|i: int|
        0 <= i < a.dfg.results@.len() ==> #[trigger] a.dfg.results@[i]@ == b.dfg.results@[i]@
    &&& a.dfg.value_types@ == b.dfg.value_types@
    &&& a.dfg.ebb_params@.len() == b.dfg.ebb_params@.len()
    &&& forall|p: int|
        0 <= p < a.dfg.ebb_params@.len() ==> #[trigger] a.dfg.ebb_params@[p]@ == b.dfg.ebb_params@[p]@
}

/// What a rewrite step leaves untouched: a rewrite at position `i` of
/// block `b` may replace the instruction `id` standing there, insert
/// fresh instructions at or after `i` in `b`, and create fresh values,
/// but everything laid out before the edit point, every other block, the
/// block order, the signature, every other old instruction, every old
/// value, every block parameter list, and every old encoding slot stay
/// exactly as they were, and the encoding table keeps one slot per
/// instruction.
pub open spec fn local_edit(oldf: Function, newf: Function, b: int, i: int, id: usize) -> bool {
    &&& newf.wf()
    &&& newf.layout.num_ebbs() == oldf.layout.num_ebbs()
    &&& newf.layout.insts_of(b).len() >= oldf.layout.insts_of(b).len()
    &&& forall|j: int| 0 <= j < i
        ==> #[trigger] newf.layout.insts_of(b)[j] == oldf.layout.insts_of(b)[j]
    &&& forall|b2: int| 0 <= b2 < oldf.layout.num_ebbs() && b2 != b
        ==> #[trigger] newf.layout.insts_of(b2) == oldf.layout.insts_of(b2)
    &&& newf.layout.order@ == oldf.layout.order@
    &&& same_sig(oldf, newf)
    &&& newf.dfg.num_insts() >= oldf.dfg.num_insts()
    &&& forall|oid: int| 0 <= oid < oldf.dfg.num_insts() && oid != id
        ==> inst_same(#[trigger] newf.dfg.insts@[oid], oldf.dfg.insts@[oid])
    &&& forall|oid: int| 0 <= oid < oldf.dfg.num_insts() && oid != id
        ==> #[trigger] newf.dfg.results@[oid]@ == oldf.dfg.results@[oid]@
    &&& newf.dfg.num_values() >= oldf.dfg.num_values()
    &&& forall|v: int| 0 <= v < oldf.dfg.num_values()
        ==> #[trigger] newf.dfg.value_types@[v] == oldf.dfg.value_types@[v]
    &&& newf.dfg.ebb_params@.len() == oldf.dfg.ebb_params@.len()
    &&& forall|p: int| 0 <= p < oldf.dfg.ebb_params@.len()
        ==> #[trigger] newf.dfg.ebb_params@[p]@ == oldf.dfg.ebb_params@[p]@
    &&& forall|j: int| 0 <= j < oldf.encodings@.len()
        ==> #[trigger] newf.encodings@[j] == oldf.encodings@[j]
    &&& newf.encodings@.len() - oldf.encodings@.len()
        == newf.dfg.num_insts() - oldf.dfg.num_insts()
}

/// Whether two functions are the same in every observable part.
pub open spec fn same_function(a: Function, b: Function) -> bool {
    &&& same_sig(a, b)
    &&& same_dfg(a, b)
    &&& same_layout(a, b)
    &&& a.encodings@ == b.encodings@
}

impl Function {
    /// Create a fresh value of type `ty` and return its handle.
    pub fn new_value(&mut self, ty: ValueType) -> (v: usize)
        ensures
            v == old(self).dfg.num_values(),
            final(self).dfg.value_types@ == old(self).dfg.value_types@.push(ty),
            final(self).dfg.insts == old(self).dfg.insts,
            final(self).dfg.results == old(self).dfg.results,
            final(self).dfg.ebb_params == old(self).dfg.ebb_params,
            final(self).signature == old(self).signature,
            final(self).layout == old(self).layout,
            final(self).encodings == old(self).encodings,
    {
        let v = self.dfg.value_types.len();
        self.dfg.value_types.push(ty);
        v
    }

    /// Create a new instruction with fresh result values of the given
    /// types and return its handle. The instruction is not laid out yet;
    /// its encoding slot starts empty.
    pub fn create_inst(&mut self, data: InstData, result_tys: &Vec<ValueType>) -> (id: usize)
        requires
            old(self).wf(),
            forall|k: int| 0 <= k < data.args@.len()
                ==> #[trigger] data.args@[k] < old(self).dfg.num_values(),
        ensures
            final(self).wf(),
            id == old(self).dfg.num_insts(),
            final(self).not_laid_out(id),
            final(self).dfg.num_insts() == old(self).dfg.num_insts() + 1,
            inst_same(final(self).dfg.insts@[id as int], data),
            forall|i: int| 0 <= i < old(self).dfg.insts@.len()
                ==> inst_same(#[trigger] final(self).dfg.insts@[i], old(self).dfg.insts@[i]),
            final(self).dfg.results@.len() == old(self).dfg.results@.len() + 1,
            forall|i: int| 0 <= i < old(self).dfg.results@.len()
                ==> #[trigger] final(self).dfg.results@[i]@ == old(self).dfg.results@[i]@,
            final(self).dfg.results@[id as int]@.len() == result_tys@.len(),
            forall|k: int| 0 <= k < result_tys@.len()
                ==> #[trigger] final(self).dfg.results@[id as int]@[k]
                    == old(self).dfg.num_values() + k,
            final(self).dfg.value_types@.len()
                == old(self).dfg.value_types@.len() + result_tys@.len(),
            forall|v: int| 0 <= v < old(self).dfg.value_types@.len()
                ==> #[trigger] final(self).dfg.value_types@[v] == old(self).dfg.value_types@[v],
            forall|k: int| 0 <= k < result_tys@.len()
                ==> #[trigger] final(self).dfg.value_types@[
                    old(self).dfg.value_types@.len() + k] == result_tys@[k],
            final(self).dfg.ebb_params == old(self).dfg.ebb_params,
            final(self).signature == old(self).signature,
            final(self).layout == old(self).layout,
            final(self).encodings@ == old(self).encodings@.push(None::<Encoding>),
    {
        let id = self.dfg.insts.len();
        let ghost base = self.dfg.value_types@.len();
        let mut rvals: Vec<usize> = Vec::new();
        let mut k: usize = 0;
        while k < result_tys.len()
            invariant
                k <= result_tys@.len(),
                rvals@.len() == k,
                self.dfg.value_types@.len() == base + k,
                forall|j: int| 0 <= j < k ==> #[trigger] rvals@[j] == base + j,
                forall|v: int| 0 <= v < base
                    ==> #[trigger] self.dfg.value_types@[v] == old(self).dfg.value_types@[v],
                forall|j: int| 0 <= j < k
                    ==> #[trigger] self.dfg.value_types@[base + j] == result_tys@[j],
                self.dfg.insts == old(self).dfg.insts,
                self.dfg.results == old(self).dfg.results,
                self.dfg.ebb_params == old(self).dfg.ebb_params,
                self.signature == old(self).signature,
                self.layout == old(self).layout,
                self.encodings == old(self).encodings,
            decreases result_tys@.len() - k,
        {
            let v = self.dfg.value_types.len();
            self.dfg.value_types.push(result_tys[k]);
            rvals.push(v);
            k += 1;
        }
        self.dfg.insts.push(data);
        self.dfg.results.push(rvals);
        self.encodings.push(None);
        id
    }

    /// Replace the data of instruction `id` in place. The handle, and
    /// with it the instruction's result identity, is preserved.
    pub fn replace_inst(&mut self, id: usize, data: InstData)
        requires
            old(self).wf(),
            id < old(self).dfg.num_insts(),
            forall|k: int| 0 <= k < data.args@.len()
                ==> #[trigger] data.args@[k] < old(self).dfg.num_values(),
        ensures
            final(self).wf(),
            final(self).dfg.insts@.len() == old(self).dfg.insts@.len(),
            inst_same(final(self).dfg.insts@[id as int], data),
            forall|i: int| 0 <= i < old(self).dfg.insts@.len() && i != id
                ==> inst_same(#[trigger] final(self).dfg.insts@[i], old(self).dfg.insts@[i]),
            final(self).dfg.results == old(self).dfg.results,
            final(self).dfg.value_types == old(self).dfg.value_types,
            final(self).dfg.ebb_params == old(self).dfg.ebb_params,
            final(self).signature == old(self).signature,
            final(self).layout == old(self).layout,
            final(self).encodings == old(self).encodings,
    {
        self.dfg.insts[id] = data;
    }

    /// Replace the result list of instruction `id`.
    pub fn set_results(&mut self, id: usize, rvals: Vec<usize>)
        requires
            old(self).wf(),
            id < old(self).dfg.num_insts(),
            forall|k: int| 0 <= k < rvals@.len()
                ==> #[trigger] rvals@[k] < old(self).dfg.num_values(),
        ensures
            final(self).wf(),
            final(self).dfg.results@.len() == old(self).dfg.results@.len(),
            final(self).dfg.results@[id as int]@ == rvals@,
            forall|i: int| 0 <= i < old(self).dfg.results@.len() && i != id
                ==> #[trigger] final(self).dfg.results@[i]@ == old(self).dfg.results@[i]@,
            final(self).dfg.insts == old(self).dfg.insts,
            final(self).dfg.value_types == old(self).dfg.value_types,
            final(self).dfg.ebb_params == old(self).dfg.ebb_params,
            final(self).signature == old(self).signature,
            final(self).layout == old(self).layout,
            final(self).encodings == old(self).encodings,
    {
        self.dfg.results[id] = rvals;
    }

    /// Lay out instruction `id` in block `b` at position `pos`. The
    /// handle must not already be laid out anywhere.
    pub fn insert_in_ebb(&mut self, b: usize, pos: usize, id: usize)
        requires
            old(self).wf(),
            b < old(self).layout.num_ebbs(),
            pos <= old(self).layout.insts_of(b as int).len(),
            id < old(self).dfg.num_insts(),
            old(self).not_laid_out(id),
        ensures
            final(self).wf(),
            final(self).layout.num_ebbs() == old(self).layout.num_ebbs(),
            final(self).layout.insts_of(b as int)
                == old(self).layout.insts_of(b as int).insert(pos as int, id),
            final(self).layout.insts_of(b as int).len()
                == old(self).layout.insts_of(b as int).len() + 1,
            forall|j: int| 0 <= j < pos
                ==> #[trigger] final(self).layout.insts_of(b as int)[j]
                    == old(self).layout.insts_of(b as int)[j],
            final(self).layout.insts_of(b as int)[pos as int] == id,
            forall|j: int| pos <= j < old(self).layout.insts_of(b as int).len()
                ==> #[trigger] final(self).layout.insts_of(b as int)[j + 1]
                    == old(self).layout.insts_of(b as int)[j],
            forall|b2: int| 0 <= b2 < old(self).layout.num_ebbs() && b2 != b
                ==> #[trigger] final(self).layout.insts_of(b2) == old(self).layout.insts_of(b2),
            final(self).layout.order == old(self).layout.order,
            final(self).dfg == old(self).dfg,
            final(self).signature == old(self).signature,
            final(self).encodings == old(self).encodings,
    {
        self.layout.ebb_insts[b].insert(pos, id);
        proof {
            let newf = *self;
            let oldf = *old(self);
            oldf.layout.insts_of(b as int).insert_ensures(pos as int, id);
            assert forall|b2: int, j2: int|
                0 <= b2 < newf.layout.num_ebbs() && 0 <= j2 < newf.layout.insts_of(b2).len()
                implies newf.layout.insts_of(b2)[j2] < newf.dfg.num_insts() by {
                if b2 == b {
                    let oj: int = if j2 > pos { j2 - 1 } else { j2 };
                    if j2 != pos {
                        assert(newf.layout.insts_of(b2)[j2] == oldf.layout.insts_of(b2)[oj]);
                        assert(oldf.layout.insts_of(b2)[oj] < oldf.dfg.num_insts());
                    }
                } else {
                    assert(newf.layout.insts_of(b2)[j2] == oldf.layout.insts_of(b2)[j2]);
                    assert(oldf.layout.insts_of(b2)[j2] < oldf.dfg.num_insts());
                }
            }
            assert forall|b1: int, j1: int, b2: int, j2: int|
                0 <= b1 < newf.layout.num_ebbs() && 0 <= j1 < newf.layout.insts_of(b1).len()
                    && 0 <= b2 < newf.layout.num_ebbs() && 0 <= j2 < newf.layout.insts_of(b2).len()
                    && (b1 != b2 || j1 != j2)
                implies newf.layout.insts_of(b1)[j1] != newf.layout.insts_of(b2)[j2] by {
                lemma_insert_preserves_distinct(oldf, newf, b as int, pos as int, id, b1, j1, b2, j2);
            }
        }
    }

    /// Remove the instruction at position `pos` of block `b` from the
    /// layout. The data-flow graph keeps the instruction's data; only the
    /// ordering forgets it.
    pub fn remove_from_ebb(&mut self, b: usize, pos: usize)
        requires
            old(self).wf(),
            b < old(self).layout.num_ebbs(),
            pos < old(self).layout.insts_of(b as int).len(),
        ensures
            final(self).wf(),
            final(self).layout.num_ebbs() == old(self).layout.num_ebbs(),
            final(self).layout.insts_of(b as int)
                == old(self).layout.insts_of(b as int).remove(pos as int),
            final(self).layout.insts_of(b as int).len() + 1
                == old(self).layout.insts_of(b as int).len(),
            forall|j: int| 0 <= j < pos
                ==> #[trigger] final(self).layout.insts_of(b as int)[j]
                    == old(self).layout.insts_of(b as int)[j],
            forall|j: int| pos <= j < final(self).layout.insts_of(b as int).len()
                ==> #[trigger] final(self).layout.insts_of(b as int)[j]
                    == old(self).layout.insts_of(b as int)[j + 1],
            forall|b2: int| 0 <= b2 < old(self).layout.num_ebbs() && b2 != b
                ==> #[trigger] final(self).layout.insts_of(b2) == old(self).layout.insts_of(b2),
            final(self).layout.order == old(self).layout.order,
            final(self).dfg == old(self).dfg,
            final(self).signature == old(self).signature,
            final(self).encodings == old(self).encodings,
    {
        self.layout.ebb_insts[b].remove(pos);
        proof {
            let newf = *self;
            let oldf = *old(self);
            oldf.layout.insts_of(b as int).remove_ensures(pos as int);
            assert forall|b2: int, j2: int|
                0 <= b2 < newf.layout.num_ebbs() && 0 <= j2 < newf.layout.insts_of(b2).len()
                implies newf.layout.insts_of(b2)[j2] < newf.dfg.num_insts() by {
                if b2 == b {
                    let oj: int = if j2 >= pos { j2 + 1 } else { j2 };
                    assert(newf.layout.insts_of(b2)[j2] == oldf.layout.insts_of(b2)[oj]);
                    assert(oldf.layout.insts_of(b2)[oj] < oldf.dfg.num_insts());
                } else {
                    assert(newf.layout.insts_of(b2)[j2] == oldf.layout.insts_of(b2)[j2]);
                    assert(oldf.layout.insts_of(b2)[j2] < oldf.dfg.num_insts());
                }
            }
            assert forall|b1: int, j1: int, b2: int, j2: int|
                0 <= b1 < newf.layout.num_ebbs() && 0 <= j1 < newf.layout.insts_of(b1).len()
                    && 0 <= b2 < newf.layout.num_ebbs() && 0 <= j2 < newf.layout.insts_of(b2).len()
                    && (b1 != b2 || j1 != j2)
                implies newf.layout.insts_of(b1)[j1] != newf.layout.insts_of(b2)[j2] by {
                lemma_remove_preserves_distinct(oldf, newf, b as int, pos as int, b1, j1, b2, j2);
            }
        }
    }

    /// Remove the block at position `p` of the layout order. The block
    /// arena keeps the block and its instructions; only the order
    /// forgets them, so block handles held elsewhere stay valid.
    pub fn remove_from_order(&mut self, p: usize)
        requires
            old(self).wf(),
            p < old(self).layout.order@.len(),
        ensures
            final(self).wf(),
            final(self).layout.order@ == old(self).layout.order@.remove(p as int),
            final(self).layout.ebb_insts == old(self).layout.ebb_insts,
            final(self).dfg == old(self).dfg,
            final(self).signature == old(self).signature,
            final(self).encodings == old(self).encodings,
    {
        self.layout.order.remove(p);
        proof {
            let newf = *self;
            let oldf = *old(self);
            oldf.layout.order@.remove_ensures(p as int);
            assert forall|q: int| 0 <= q < newf.layout.order@.len()
                implies newf.layout.order@[q] < newf.layout.num_ebbs() by {
                let oq: int = if q >= p { q + 1 } else { q };
                assert(newf.layout.order@[q] == oldf.layout.order@[oq]);
                assert(oldf.layout.order@[oq] < oldf.layout.num_ebbs());
            }
            assert forall|bb: int, j: int|
                0 <= bb < newf.layout.num_ebbs() && 0 <= j < newf.layout.insts_of(bb).len()
                implies #[trigger] newf.layout.insts_of(bb)[j] < newf.dfg.num_insts() by {
                assert(newf.layout.insts_of(bb) == oldf.layout.insts_of(bb));
                assert(oldf.layout.insts_of(bb)[j] < oldf.dfg.num_insts());
            }
            assert forall|b1: int, j1: int, b2: int, j2: int|
                0 <= b1 < newf.layout.num_ebbs() && 0 <= j1 < newf.layout.insts_of(b1).len()
                    && 0 <= b2 < newf.layout.num_ebbs() && 0 <= j2 < newf.layout.insts_of(b2).len()
                    && (b1 != b2 || j1 != j2)
                implies newf.layout.insts_of(b1)[j1] != newf.layout.insts_of(b2)[j2] by {
                assert(newf.layout.insts_of(b1) == oldf.layout.insts_of(b1));
                assert(newf.layout.insts_of(b2) == oldf.layout.insts_of(b2));
                assert(oldf.layout.insts_of(b1)[j1] != oldf.layout.insts_of(b2)[j2]);
            }
        }
    }

    /// Decide well-formedness at run time, so that a caller holding a
    /// function from an unverified source can validate it before
    /// handing it to the pass.
    pub fn wf_check(&self) -> (r: bool)
        ensures
            r == self.wf(),
    {
        let ni = self.dfg.insts.len();
        let nv = self.dfg.value_types.len();
        let ne = self.layout.ebb_insts.len();
        if self.dfg.results.len() != ni {
            return false;
        }
        if self.dfg.ebb_params.len() != ne {
            return false;
        }

        let mut i: usize = 0;
        while i < ni
            invariant
                ni == self.dfg.insts@.len(),
                ni == self.dfg.results@.len(),
                nv == self.dfg.num_values(),
                i <= ni,
                forall|i2: int, k: int|
                    0 <= i2 < i && 0 <= k < self.dfg.insts@[i2].args@.len()
                        ==> #[trigger] self.dfg.insts@[i2].args@[k] < nv,
                forall|i2: int, k: int|
                    0 <= i2 < i && 0 <= k < self.dfg.results@[i2]@.len()
                        ==> #[trigger] self.dfg.results@[i2]@[k] < nv,
            decreases ni - i,
        {
            let mut k: usize = 0;
            let n_args = self.dfg.insts[i].args.len();
            while k < n_args
                invariant
                    ni == self.dfg.insts@.len(),
                    nv == self.dfg.num_values(),
                    i < ni,
                    k <= n_args,
                    n_args == self.dfg.insts@[i as int].args@.len(),
                    forall|k2: int| 0 <= k2 < k
                        ==> #[trigger] self.dfg.insts@[i as int].args@[k2] < nv,
                decreases n_args - k,
            {
                if self.dfg.insts[i].args[k] >= nv {
                    return false;
                }
                k += 1;
            }
            let mut k2: usize = 0;
            let n_res = self.dfg.results[i].len();
            while k2 < n_res
                invariant
                    ni == self.dfg.results@.len(),
                    nv == self.dfg.num_values(),
                    i < ni,
                    k2 <= n_res,
                    n_res == self.dfg.results@[i as int]@.len(),
                    forall|k3: int| 0 <= k3 < k2
                        ==> #[trigger] self.dfg.results@[i as int]@[k3] < nv,
                decreases n_res - k2,
            {
                if self.dfg.results[i][k2] >= nv {
                    return false;
                }
                k2 += 1;
            }
            i += 1;
        }

        let mut p: usize = 0;
        while p < ne
            invariant
                ne == self.layout.num_ebbs(),
                ne == self.dfg.ebb_params@.len(),
                nv == self.dfg.num_values(),
                p <= ne,
                forall|p2: int, k: int|
                    0 <= p2 < p && 0 <= k < self.dfg.ebb_params@[p2]@.len()
                        ==> #[trigger] self.dfg.ebb_params@[p2]@[k] < nv,
            decreases ne - p,
        {
            let mut k: usize = 0;
            let n_par = self.dfg.ebb_params[p].len();
            while k < n_par
                invariant
                    ne == self.dfg.ebb_params@.len(),
                    nv == self.dfg.num_values(),
                    p < ne,
                    k <= n_par,
                    n_par == self.dfg.ebb_params@[p as int]@.len(),
                    forall|k2: int| 0 <= k2 < k
                        ==> #[trigger] self.dfg.ebb_params@[p as int]@[k2] < nv,
                decreases n_par - k,
            {
                if self.dfg.ebb_params[p][k] >= nv {
                    return false;
                }
                k += 1;
            }
            p += 1;
        }

        let mut q: usize = 0;
        while q < self.layout.order.len()
            invariant
                ne == self.layout.num_ebbs(),
                q <= self.layout.order@.len(),
                forall|q2: int| 0 <= q2 < q ==> #[trigger] self.layout.order@[q2] < ne,
            decreases self.layout.order@.len() - q,
        {
            if self.layout.order[q] >= ne {
                return false;
            }
            q += 1;
        }

        // Laid-out handles are in range and pairwise distinct: mark each
        // handle as it is met; meeting one twice is a duplicate.
        let mut seen: Vec<bool> = Vec::new();
        let mut s: usize = 0;
        while s < ni
            invariant
                s <= ni,
                seen@.len() == s,
                forall|v: int| 0 <= v < s ==> !(#[trigger] seen@[v]),
            decreases ni - s,
        {
            seen.push(false);
            s += 1;
        }
        let mut b: usize = 0;
        while b < ne
            invariant
                ne == self.layout.num_ebbs(),
                ni == self.dfg.num_insts(),
                b <= ne,
                seen@.len() == ni,
                forall|b2: int, j: int|
                    0 <= b2 < b && 0 <= j < self.layout.insts_of(b2).len()
                        ==> #[trigger] self.layout.insts_of(b2)[j] < ni,
                forall|v: int| 0 <= v < ni ==> (#[trigger] seen@[v] <==> exists|b2: int, j: int|
                    0 <= b2 < b && 0 <= j < self.layout.insts_of(b2).len()
                        && self.layout.insts_of(b2)[j] == v),
                forall|b1: int, j1: int, b2: int, j2: int|
                    0 <= b1 < b && 0 <= j1 < self.layout.insts_of(b1).len()
                        && 0 <= b2 < b && 0 <= j2 < self.layout.insts_of(b2).len()
                        && (b1 != b2 || j1 != j2)
                        ==> #[trigger] self.layout.insts_of(b1)[j1]
                            != #[trigger] self.layout.insts_of(b2)[j2],
            decreases ne - b,
        {
            let mut j: usize = 0;
            let blen = self.layout.ebb_insts[b].len();
            while j < blen
                invariant
                    ne == self.layout.num_ebbs(),
                    ni == self.dfg.num_insts(),
                    b < ne,
                    j <= blen,
                    blen == self.layout.insts_of(b as int).len(),
                    seen@.len() == ni,
                    forall|b2: int, j2: int|
                        0 <= b2 < b && 0 <= j2 < self.layout.insts_of(b2).len()
                            ==> #[trigger] self.layout.insts_of(b2)[j2] < ni,
                    forall|j2: int| 0 <= j2 < j
                        ==> #[trigger] self.layout.insts_of(b as int)[j2] < ni,
                    forall|v: int| 0 <= v < ni ==> (#[trigger] seen@[v] <==> exists|b2: int, j2: int|
                        (0 <= b2 < b && 0 <= j2 < self.layout.insts_of(b2).len()
                            || b2 == b && 0 <= j2 < j)
                            && self.layout.insts_of(b2)[j2] == v),
                    forall|b1: int, j1: int, b2: int, j2: int|
                        (0 <= b1 < b && 0 <= j1 < self.layout.insts_of(b1).len()
                            || b1 == b && 0 <= j1 < j)
                            && (0 <= b2 < b && 0 <= j2 < self.layout.insts_of(b2).len()
                                || b2 == b && 0 <= j2 < j)
                            && (b1 != b2 || j1 != j2)
                            ==> #[trigger] self.layout.insts_of(b1)[j1]
                                != #[trigger] self.layout.insts_of(b2)[j2],
                decreases blen - j,
            {
                let id = self.layout.ebb_insts[b][j];
                if id >= ni {
                    return false;
                }
                if seen[id] {
                    return false;
                }
                seen[id] = true;
                j += 1;
            }
            b += 1;
        }
        true
    }

    /// An exact copy: same signature, same instructions, same results,
    /// same values, same layout, same encodings. The reducer mutates
    /// copies and keeps one only when the defect it hunts survives.
    pub fn duplicate(&self) -> (r: Function)
        ensures
            same_function(*self, r),
            self.wf() ==> r.wf(),
    {
        let r = Function {
            signature: Signature {
                params: dup_type_vec(&self.signature.params),
                returns: dup_type_vec(&self.signature.returns),
            },
            dfg: Dfg {
                insts: dup_inst_vec(&self.dfg.insts),
                results: dup_nested_vec(&self.dfg.results),
                value_types: dup_type_vec(&self.dfg.value_types),
                ebb_params: dup_nested_vec(&self.dfg.ebb_params),
            },
            layout: Layout {
                ebb_insts: dup_nested_vec(&self.layout.ebb_insts),
                order: dup_usize_vec(&self.layout.order),
            },
            encodings: dup_enc_vec(&self.encodings),
        };
        proof {
            if self.wf() {
                assert forall|i: int, k: int|
                    0 <= i < r.dfg.insts@.len() && 0 <= k < r.dfg.insts@[i].args@.len()
                    implies #[trigger] r.dfg.insts@[i].args@[k] < r.dfg.num_values() by {
                    assert(inst_same(r.dfg.insts@[i], self.dfg.insts@[i]));
                    assert(self.dfg.insts@[i].args@[k] < self.dfg.num_values());
                }
                assert forall|i: int, k: int|
                    0 <= i < r.dfg.results@.len() && 0 <= k < r.dfg.results@[i]@.len()
                    implies #[trigger] r.dfg.results@[i]@[k] < r.dfg.num_values() by {
                    assert(r.dfg.results@[i]@ == self.dfg.results@[i]@);
                    assert(self.dfg.results@[i]@[k] < self.dfg.num_values());
                }
                assert forall|bb: int, k: int|
                    0 <= bb < r.dfg.ebb_params@.len() && 0 <= k < r.dfg.ebb_params@[bb]@.len()
                    implies #[trigger] r.dfg.ebb_params@[bb]@[k] < r.dfg.num_values() by {
                    assert(r.dfg.ebb_params@[bb]@ == self.dfg.ebb_params@[bb]@);
                    assert(self.dfg.ebb_params@[bb]@[k] < self.dfg.num_values());
                }
                assert forall|bb: int, j: int|
                    0 <= bb < r.layout.num_ebbs() && 0 <= j < r.layout.insts_of(bb).len()
                    implies #[trigger] r.layout.insts_of(bb)[j] < r.dfg.num_insts() by {
                    assert(r.layout.insts_of(bb) == self.layout.insts_of(bb));
                    assert(self.layout.insts_of(bb)[j] < self.dfg.num_insts());
                }
                assert forall|q: int| 0 <= q < r.layout.order@.len()
                    implies #[trigger] r.layout.order@[q] < r.layout.num_ebbs() by {
                    assert(self.layout.order@[q] < self.layout.num_ebbs());
                }
                assert forall|b1: int, j1: int, b2: int, j2: int|
                    0 <= b1 < r.layout.num_ebbs() && 0 <= j1 < r.layout.insts_of(b1).len()
                        && 0 <= b2 < r.layout.num_ebbs() && 0 <= j2 < r.layout.insts_of(b2).len()
                        && (b1 != b2 || j1 != j2)
                    implies #[trigger] r.layout.insts_of(b1)[j1]
                        != #[trigger] r.layout.insts_of(b2)[j2] by {
                    assert(r.layout.insts_of(b1) == self.layout.insts_of(b1));
                    assert(r.layout.insts_of(b2) == self.layout.insts_of(b2));
                    assert(self.layout.insts_of(b1)[j1] != self.layout.insts_of(b2)[j2]);
                }
            }
        }
        r
    }

    /// Record the encoding chosen for instruction `id`.
    pub fn set_encoding(&mut self, id: usize, e: Encoding)
        requires
            id < old(self).encodings@.len(),
        ensures
            final(self).encodings@ == old(self).encodings@.update(id as int, Some(e)),
            final(self).dfg == old(self).dfg,
            final(self).signature == old(self).signature,
            final(self).layout == old(self).layout,
    {
        self.encodings[id] = Some(e);
    }

    /// Size the encoding table to exactly one slot per instruction
    /// created so far. Entries for existing instructions are kept; new
    /// slots start empty; slots beyond the instruction count refer to
    /// no instruction — they are stale by definition — and are dropped.
    pub fn resize_encodings(&mut self)
        ensures
            final(self).encodings@.len() == final(self).dfg.num_insts(),
            forall|i: int| 0 <= i < old(self).encodings@.len() && i < final(self).dfg.num_insts()
                ==> #[trigger] final(self).encodings@[i] == old(self).encodings@[i],
            forall|i: int| old(self).encodings@.len() <= i < final(self).dfg.num_insts()
                ==> #[trigger] final(self).encodings@[i] is None,
            final(self).dfg == old(self).dfg,
            final(self).signature == old(self).signature,
            final(self).layout == old(self).layout,
            old(self).encodings@.len() == old(self).dfg.num_insts()
                ==> *final(self) == *old(self),
    {
        let n = self.dfg.insts.len();
        if self.encodings.len() > n {
            self.encodings.truncate(n);
        }
        while self.encodings.len() < n
            invariant
                self.encodings@.len() <= n,
                old(self).encodings@.len() <= n
                    ==> self.encodings@.len() >= old(self).encodings@.len(),
                old(self).encodings@.len() > n ==> self.encodings@.len() == n,
                forall|i: int| 0 <= i < old(self).encodings@.len() && i < self.encodings@.len()
                    ==> #[trigger] self.encodings@[i] == old(self).encodings@[i],
                forall|i: int| old(self).encodings@.len() <= i < self.encodings@.len()
                    ==> #[trigger] self.encodings@[i] is None,
                self.dfg == old(self).dfg,
                self.signature == old(self).signature,
                self.layout == old(self).layout,
                n == self.dfg.num_insts(),
                old(self).encodings@.len() == n ==> *self == *old(self),
            decreases n - self.encodings@.len(),
        {
            self.encodings.push(None);
        }
    }
}

/// Copy a list of value handles.
fn dup_usize_vec(v: &Vec<usize>) -> (r: Vec<usize>)
    ensures
        r@ == v@,
{
    let mut r: Vec<usize> = Vec::new();
    let mut k: usize = 0;
    while k < v.len()
        invariant
            k <= v@.len(),
            r@ == v@.take(k as int),
        decreases v@.len() - k,
    {
        r.push(v[k]);
        proof {
            assert(r@ =~= v@.take(k + 1 as int));
        }
        k += 1;
    }
    proof {
        assert(v@.take(v@.len() as int) =~= v@);
    }
    r
}

/// Copy a list of types.
fn dup_type_vec(v: &Vec<ValueType>) -> (r: Vec<ValueType>)
    ensures
        r@ == v@,
{
    let mut r: Vec<ValueType> = Vec::new();
    let mut k: usize = 0;
    while k < v.len()
        invariant
            k <= v@.len(),
            r@ == v@.take(k as int),
        decreases v@.len() - k,
    {
        r.push(v[k]);
        proof {
            assert(r@ =~= v@.take(k + 1 as int));
        }
        k += 1;
    }
    proof {
        assert(v@.take(v@.len() as int) =~= v@);
    }
    r
}

/// Copy a list of encoding slots.
fn dup_enc_vec(v: &Vec<Option<Encoding>>) -> (r: Vec<Option<Encoding>>)
    ensures
        r@ == v@,
{
    let mut r: Vec<Option<Encoding>> = Vec::new();
    let mut k: usize = 0;
    while k < v.len()
        invariant
            k <= v@.len(),
            r@ == v@.take(k as int),
        decreases v@.len() - k,
    {
        r.push(v[k]);
        proof {
            assert(r@ =~= v@.take(k + 1 as int));
        }
        k += 1;
    }
    proof {
        assert(v@.take(v@.len() as int) =~= v@);
    }
    r
}

/// Copy a list of handle lists.
fn dup_nested_vec(v: &Vec<Vec<usize>>) -> (r: Vec<Vec<usize>>)
    ensures
        r@.len() == v@.len(),
        forall|i: int| 0 <= i < v@.len() ==> #[trigger] r@[i]@ == v@[i]@,
{
    let mut r: Vec<Vec<usize>> = Vec::new();
    let mut k: usize = 0;
    while k < v.len()
        invariant
            k <= v@.len(),
            r@.len() == k,
            forall|i: int| 0 <= i < k ==> #[trigger] r@[i]@ == v@[i]@,
        decreases v@.len() - k,
    {
        r.push(dup_usize_vec(&v[k]));
        k += 1;
    }
    r
}

/// Copy a list of instructions.
fn dup_inst_vec(v: &Vec<InstData>) -> (r: Vec<InstData>)
    ensures
        r@.len() == v@.len(),
        forall|i: int| 0 <= i < v@.len() ==> inst_same(#[trigger] r@[i], v@[i]),
{
    let mut r: Vec<InstData> = Vec::new();
    let mut k: usize = 0;
    while k < v.len()
        invariant
            k <= v@.len(),
            r@.len() == k,
            forall|i: int| 0 <= i < k ==> inst_same(#[trigger] r@[i], v@[i]),
        decreases v@.len() - k,
    {
        let d = &v[k];
        r.push(InstData {
            opcode: d.opcode,
            ty: d.ty,
            args: dup_usize_vec(&d.args),
            imm: d.imm,
            dest: d.dest,
        });
        k += 1;
    }
    r
}

/// Inserting a handle that is laid out nowhere keeps the laid-out
/// handles pairwise distinct.
proof fn lemma_insert_preserves_distinct(
    oldf: Function,
    newf: Function,
    b: int,
    pos: int,
    id: usize,
    b1: int,
    j1: int,
    b2: int,
    j2: int,
)
    requires
        oldf.wf(),
        oldf.not_laid_out(id),
        0 <= b < oldf.layout.num_ebbs(),
        0 <= pos <= oldf.layout.insts_of(b).len(),
        newf.layout.num_ebbs() == oldf.layout.num_ebbs(),
        newf.layout.insts_of(b) == oldf.layout.insts_of(b).insert(pos, id),
        forall|b3: int| 0 <= b3 < oldf.layout.num_ebbs() && b3 != b
            ==> #[trigger] newf.layout.insts_of(b3) == oldf.layout.insts_of(b3),
        0 <= b1 < newf.layout.num_ebbs(),
        0 <= j1 < newf.layout.insts_of(b1).len(),
        0 <= b2 < newf.layout.num_ebbs(),
        0 <= j2 < newf.layout.insts_of(b2).len(),
        b1 != b2 || j1 != j2,
    ensures
        newf.layout.insts_of(b1)[j1] != newf.layout.insts_of(b2)[j2],
{
    let oj1: int = if b1 == b && j1 > pos { j1 - 1 } else { j1 };
    let oj2: int = if b2 == b && j2 > pos { j2 - 1 } else { j2 };
    if b1 == b && j1 == pos {
        if !(b2 == b && j2 == pos) {
            assert(newf.layout.insts_of(b2)[j2] == oldf.layout.insts_of(b2)[oj2]);
        }
    } else if b2 == b && j2 == pos {
        assert(newf.layout.insts_of(b1)[j1] == oldf.layout.insts_of(b1)[oj1]);
    } else {
        assert(newf.layout.insts_of(b1)[j1] == oldf.layout.insts_of(b1)[oj1]);
        assert(newf.layout.insts_of(b2)[j2] == oldf.layout.insts_of(b2)[oj2]);
        assert(b1 != b2 || oj1 != oj2);
    }
}

/// Removing a laid-out handle keeps the remaining handles pairwise
/// distinct.
proof fn lemma_remove_preserves_distinct(
    oldf: Function,
    newf: Function,
    b: int,
    pos: int,
    b1: int,
    j1: int,
    b2: int,
    j2: int,
)
    requires
        oldf.wf(),
        0 <= b < oldf.layout.num_ebbs(),
        0 <= pos < oldf.layout.insts_of(b).len(),
        newf.layout.num_ebbs() == oldf.layout.num_ebbs(),
        newf.layout.insts_of(b) == oldf.layout.insts_of(b).remove(pos),
        forall|b3: int| 0 <= b3 < oldf.layout.num_ebbs() && b3 != b
            ==> #[trigger] newf.layout.insts_of(b3) == oldf.layout.insts_of(b3),
        0 <= b1 < newf.layout.num_ebbs(),
        0 <= j1 < newf.layout.insts_of(b1).len(),
        0 <= b2 < newf.layout.num_ebbs(),
        0 <= j2 < newf.layout.insts_of(b2).len(),
        b1 != b2 || j1 != j2,
    ensures
        newf.layout.insts_of(b1)[j1] != newf.layout.insts_of(b2)[j2],
{
    let oj1: int = if b1 == b && j1 >= pos { j1 + 1 } else { j1 };
    let oj2: int = if b2 == b && j2 >= pos { j2 + 1 } else { j2 };
    assert(newf.layout.insts_of(b1)[j1] == oldf.layout.insts_of(b1)[oj1]);
    assert(newf.layout.insts_of(b2)[j2] == oldf.layout.insts_of(b2)[oj2]);
}

} // verus!
