use legalizer::driver::legalize_function;
use legalizer::ir::Dfg;
use legalizer::ir::Function;
use legalizer::ir::InstData;
use legalizer::ir::Layout;
use legalizer::ir::Opcode;
use legalizer::ir::Signature;
use legalizer::ir::ValueType;
use legalizer::isa::TargetDesc;
use legalizer::semantics::eval_ebb;
use legalizer::semantics::narrowed_add;

fn check(x: u64, y: u64) {
    assert_eq!(narrowed_add(x, y), x.wrapping_add(y));
}

#[test]
fn narrowed_add_matches_wide_add_on_boundary_values() {
    let boundary: [u64; 8] = [
        0,
        1,
        0xffff_ffff,
        0x1_0000_0000,
        0x8000_0000_0000_0000,
        0xffff_ffff_ffff_ffff,
        i64::MAX as u64,
        i64::MIN as u64,
    ];
    for &x in &boundary {
        for &y in &boundary {
            check(x, y);
        }
    }
}

/// A single block adding two 64-bit values held in values 0 and 1 into
/// value 2.
fn add64_body() -> Function {
    Function {
        signature: Signature {
            params: vec![ValueType::I64, ValueType::I64],
            returns: vec![ValueType::I64],
        },
        dfg: Dfg {
            insts: vec![
                InstData { opcode: Opcode::Iadd, ty: ValueType::I64, args: vec![0, 1], imm: 0, dest: 0 },
                InstData { opcode: Opcode::Ret, ty: ValueType::I64, args: vec![2], imm: 0, dest: 0 },
            ],
            results: vec![vec![2], vec![]],
            value_types: vec![ValueType::I64, ValueType::I64, ValueType::I64],
            ebb_params: vec![vec![0, 1]],
        },
        layout: Layout { ebb_insts: vec![vec![0, 1]], order: vec![0] },
        encodings: Vec::new(),
    }
}

#[test]
fn legalized_block_computes_the_same_sums() {
    // Execute the original block and its legalized replacement on the
    // same operand values: the result value must be bit-identical.
    let t = TargetDesc { widest_int: ValueType::I32, has_iadd_imm: true, max_branch_args: 4 };
    let original = add64_body();
    let mut legalized = add64_body();
    assert!(legalize_function(&mut legalized, &vec![0], &t).is_ok());

    let boundary: [u64; 6] = [
        0,
        1,
        0xffff_ffff,
        0x8000_0000_0000_0000,
        i64::MAX as u64,
        u64::MAX,
    ];
    for &x in &boundary {
        for &y in &boundary {
            let mut env1 = vec![0u64; original.dfg.value_types.len()];
            env1[0] = x;
            env1[1] = y;
            assert!(eval_ebb(&original, 0, &mut env1));

            let mut env2 = vec![0u64; legalized.dfg.value_types.len()];
            env2[0] = x;
            env2[1] = y;
            assert!(eval_ebb(&legalized, 0, &mut env2));

            assert_eq!(env1[2], x.wrapping_add(y));
            assert_eq!(env2[2], env1[2]);
        }
    }
}

#[test]
fn narrowed_add_exact_values() {
    assert_eq!(narrowed_add(0, 0), 0);
    assert_eq!(narrowed_add(0xffff_ffff, 1), 0x1_0000_0000);
    assert_eq!(narrowed_add(u64::MAX, 1), 0);
    assert_eq!(narrowed_add(u64::MAX, u64::MAX), u64::MAX - 1);
    assert_eq!(narrowed_add(0x1234_5678_9abc_def0, 0x1111_1111_1111_1111), 0x2345_6789_abcd_f001);
}
