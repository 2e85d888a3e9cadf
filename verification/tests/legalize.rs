use legalizer::driver::legalize_function;
use legalizer::driver::LegalizeError;
use legalizer::ir::Dfg;
use legalizer::ir::Function;
use legalizer::ir::InstData;
use legalizer::ir::Layout;
use legalizer::ir::Opcode;
use legalizer::ir::Signature;
use legalizer::ir::ValueType;
use legalizer::isa::TargetDesc;

fn target32() -> TargetDesc {
    TargetDesc { widest_int: ValueType::I32, has_iadd_imm: true, max_branch_args: 4 }
}

fn inst(opcode: Opcode, ty: ValueType, args: Vec<usize>, imm: u64, dest: usize) -> InstData {
    InstData { opcode, ty, args, imm, dest }
}

/// A single block computing a 64-bit addition of its two parameters and
/// returning it.
fn add64_function() -> Function {
    Function {
        signature: Signature {
            params: vec![ValueType::I64, ValueType::I64],
            returns: vec![ValueType::I64],
        },
        dfg: Dfg {
            insts: vec![
                inst(Opcode::Iadd, ValueType::I64, vec![0, 1], 0, 0),
                inst(Opcode::Ret, ValueType::I64, vec![2], 0, 0),
            ],
            results: vec![vec![2], vec![]],
            value_types: vec![ValueType::I64, ValueType::I64, ValueType::I64],
            ebb_params: vec![vec![0, 1]],
        },
        layout: Layout { ebb_insts: vec![vec![0, 1]], order: vec![0] },
        encodings: Vec::new(),
    }
}

fn laid_out(f: &Function) -> Vec<usize> {
    let mut ids = Vec::new();
    for b in &f.layout.order {
        for id in &f.layout.ebb_insts[*b] {
            ids.push(*id);
        }
    }
    ids
}

#[test]
fn add64_on_32_bit_target_is_narrowed() {
    let mut f = add64_function();
    let t = target32();
    let r = legalize_function(&mut f, &vec![0], &t);
    assert!(r.is_ok());

    let ids = laid_out(&f);
    let mut n_cout = 0;
    let mut n_carry = 0;
    for id in &ids {
        let d = &f.dfg.insts[*id];
        assert!(!(d.opcode == Opcode::Iadd && d.ty == ValueType::I64));
        if d.opcode == Opcode::IaddCout {
            n_cout += 1;
            assert_eq!(d.ty, ValueType::I32);
        }
        if d.opcode == Opcode::IaddCarry {
            n_carry += 1;
            assert_eq!(d.ty, ValueType::I32);
        }
    }
    assert_eq!(n_cout, 1);
    assert_eq!(n_carry, 1);
}

#[test]
fn completeness_every_instruction_encoded() {
    let mut f = add64_function();
    let t = target32();
    let r = legalize_function(&mut f, &vec![0], &t);
    assert!(r.is_ok());
    assert!(f.encodings.len() >= f.dfg.insts.len());
    for id in laid_out(&f) {
        assert!(f.encodings[id].is_some(), "instruction {} has no encoding", id);
    }
}

#[test]
fn legalization_is_idempotent() {
    let mut f = add64_function();
    let t = target32();
    assert!(legalize_function(&mut f, &vec![0], &t).is_ok());
    let snapshot = f.duplicate();
    assert!(legalize_function(&mut f, &vec![0], &t).is_ok());
    assert_eq!(f, snapshot);
}

#[test]
fn legalization_is_deterministic() {
    let t = target32();
    let mut f1 = add64_function();
    let mut f2 = add64_function();
    assert!(legalize_function(&mut f1, &vec![0], &t).is_ok());
    assert!(legalize_function(&mut f2, &vec![0], &t).is_ok());
    assert_eq!(f1, f2);
}

/// A call passing one 64-bit argument and receiving one 64-bit result,
/// then returning it.
fn call64_function() -> Function {
    Function {
        signature: Signature { params: vec![ValueType::I64], returns: vec![ValueType::I64] },
        dfg: Dfg {
            insts: vec![
                inst(Opcode::Call, ValueType::I32, vec![0], 7, 0),
                inst(Opcode::Ret, ValueType::I32, vec![1], 0, 0),
            ],
            results: vec![vec![1], vec![]],
            value_types: vec![ValueType::I64, ValueType::I64],
            ebb_params: vec![vec![0]],
        },
        layout: Layout { ebb_insts: vec![vec![0, 1]], order: vec![0] },
        encodings: Vec::new(),
    }
}

#[test]
fn call_and_return_shapes_match_lowered_convention() {
    let mut f = call64_function();
    let t = target32();
    let r = legalize_function(&mut f, &vec![0], &t);
    assert!(r.is_ok());

    // The function's own signature is lowered: each wide type split.
    assert_eq!(f.signature.params, vec![ValueType::I32, ValueType::I32]);
    assert_eq!(f.signature.returns, vec![ValueType::I32, ValueType::I32]);

    for id in laid_out(&f) {
        let d = &f.dfg.insts[id];
        if d.opcode == Opcode::Call || d.opcode == Opcode::Ret {
            for a in &d.args {
                assert!(f.dfg.value_types[*a].bits() <= 32);
            }
            for rv in &f.dfg.results[id] {
                assert!(f.dfg.value_types[*rv].bits() <= 32);
            }
        }
    }
}

#[test]
fn forwarded_branch_arguments_are_removed() {
    // Block 0 ends in a conditional branch to block 1, forwarding block
    // 1's own parameter back to it, then jumps on. The forwarded
    // argument is removable; the condition is kept.
    let mut f = Function {
        signature: Signature { params: vec![ValueType::I32], returns: vec![] },
        dfg: Dfg {
            insts: vec![
                inst(Opcode::Brz, ValueType::I32, vec![0, 1], 0, 1),
                inst(Opcode::Jump, ValueType::I32, vec![], 0, 1),
                inst(Opcode::Ret, ValueType::I32, vec![], 0, 0),
            ],
            results: vec![vec![], vec![], vec![]],
            value_types: vec![ValueType::I32, ValueType::I32],
            ebb_params: vec![vec![0], vec![1]],
        },
        layout: Layout { ebb_insts: vec![vec![0, 1], vec![2]], order: vec![0, 1] },
        encodings: Vec::new(),
    };
    let t = target32();
    let r = legalize_function(&mut f, &vec![1, 0], &t);
    assert!(r.is_ok());
    // args were [condition, forwarded]; only the condition stays.
    assert_eq!(f.dfg.insts[0].args, vec![0]);
    for id in laid_out(&f) {
        let d = &f.dfg.insts[id];
        if d.opcode == Opcode::Brz {
            assert!(d.args.len() - 1 <= t.max_branch_args);
        }
        if d.opcode == Opcode::Jump {
            assert!(d.args.len() <= t.max_branch_args);
        }
    }
}

#[test]
fn add_imm_expands_when_target_lacks_the_form() {
    let mut f = Function {
        signature: Signature { params: vec![ValueType::I32], returns: vec![ValueType::I32] },
        dfg: Dfg {
            insts: vec![
                inst(Opcode::IaddImm, ValueType::I32, vec![0], 41, 0),
                inst(Opcode::Ret, ValueType::I32, vec![1], 0, 0),
            ],
            results: vec![vec![1], vec![]],
            value_types: vec![ValueType::I32, ValueType::I32],
            ebb_params: vec![vec![0]],
        },
        layout: Layout { ebb_insts: vec![vec![0, 1]], order: vec![0] },
        encodings: Vec::new(),
    };
    let t = TargetDesc { widest_int: ValueType::I32, has_iadd_imm: false, max_branch_args: 4 };
    assert!(legalize_function(&mut f, &vec![0], &t).is_ok());
    let ids = laid_out(&f);
    assert!(ids.iter().all(|id| f.dfg.insts[*id].opcode != Opcode::IaddImm));
    // The constant is materialized and added; the original result value
    // is still produced by the instruction that replaced the handle.
    assert!(ids.iter().any(|id| f.dfg.insts[*id].opcode == Opcode::Iconst
        && f.dfg.insts[*id].imm == 41));
    assert!(ids.iter().any(|id| f.dfg.insts[*id].opcode == Opcode::Iadd
        && f.dfg.results[*id] == vec![1]));
}

#[test]
fn rule_table_gap_is_a_fatal_diagnostic() {
    // A 64-bit carry-out addition on a target whose widest type is
    // 8 bits: narrowing it needs a carry-chain rule that the table does
    // not have, so the driver reports the gap instead of looping.
    let mut f = Function {
        signature: Signature { params: vec![], returns: vec![] },
        dfg: Dfg {
            insts: vec![
                inst(Opcode::IaddCout, ValueType::I64, vec![0, 1], 0, 0),
                inst(Opcode::Ret, ValueType::I32, vec![], 0, 0),
            ],
            results: vec![vec![2, 3], vec![]],
            value_types: vec![
                ValueType::I64,
                ValueType::I64,
                ValueType::I64,
                ValueType::I64,
            ],
            ebb_params: vec![vec![0, 1]],
        },
        layout: Layout { ebb_insts: vec![vec![0, 1]], order: vec![0] },
        encodings: Vec::new(),
    };
    let t = target32();
    let r = legalize_function(&mut f, &vec![0], &t);
    assert!(matches!(r, Err(LegalizeError::Unsupported { inst: 0 })));
}

#[test]
fn wide_constant_is_narrowed_into_halves() {
    let mut f = Function {
        signature: Signature { params: vec![], returns: vec![ValueType::I64] },
        dfg: Dfg {
            insts: vec![
                inst(Opcode::Iconst, ValueType::I64, vec![], 0x1234_5678_9abc_def0, 0),
                inst(Opcode::Ret, ValueType::I32, vec![0], 0, 0),
            ],
            results: vec![vec![0], vec![]],
            value_types: vec![ValueType::I64],
            ebb_params: vec![vec![]],
        },
        layout: Layout { ebb_insts: vec![vec![0, 1]], order: vec![0] },
        encodings: Vec::new(),
    };
    let t = target32();
    assert!(legalize_function(&mut f, &vec![0], &t).is_ok());
    let ids = laid_out(&f);
    let consts: Vec<u64> = ids
        .iter()
        .filter(|id| f.dfg.insts[**id].opcode == Opcode::Iconst)
        .map(|id| f.dfg.insts[*id].imm)
        .collect();
    assert_eq!(consts, vec![0x9abc_def0, 0x1234_5678]);
    assert!(ids.iter().any(|id| f.dfg.insts[*id].opcode == Opcode::Iconcat));
}
