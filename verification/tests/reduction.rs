use legalizer::backend::narrow_addend;
use legalizer::backend::translate_data_linkage;
use legalizer::backend::translate_function_linkage;
use legalizer::backend::Decl;
use legalizer::backend::Linkage;
use legalizer::ir::Dfg;
use legalizer::ir::Function;
use legalizer::ir::InstData;
use legalizer::ir::Layout;
use legalizer::ir::Opcode;
use legalizer::ir::Signature;
use legalizer::ir::ValueType;
use legalizer::isa::TargetDesc;
use legalizer::reduce::check_for_crash;
use legalizer::reduce::next_inst_ret_prev;
use legalizer::reduce::run;
use legalizer::reduce::Res;

fn inst(opcode: Opcode, ty: ValueType, args: Vec<usize>, imm: u64, dest: usize) -> InstData {
    InstData { opcode, ty, args, imm, dest }
}

fn target8() -> TargetDesc {
    TargetDesc { widest_int: ValueType::I8, has_iadd_imm: true, max_branch_args: 4 }
}

/// A function whose 64-bit addition cannot be legalized for an 8-bit
/// target (narrowing it once still leaves a too-wide carry addition, for
/// which no rule exists), surrounded by removable instructions.
fn crashing_function() -> Function {
    Function {
        signature: Signature { params: vec![], returns: vec![] },
        dfg: Dfg {
            insts: vec![
                inst(Opcode::Iconst, ValueType::I8, vec![], 5, 0),
                inst(Opcode::Iconst, ValueType::I64, vec![], 7, 0),
                inst(Opcode::Iadd, ValueType::I64, vec![1, 1], 0, 0),
                inst(Opcode::Ret, ValueType::I8, vec![], 0, 0),
            ],
            results: vec![vec![0], vec![1], vec![2], vec![]],
            value_types: vec![ValueType::I8, ValueType::I64, ValueType::I64],
            ebb_params: vec![vec![]],
        },
        layout: Layout { ebb_insts: vec![vec![0, 1, 2, 3]], order: vec![0] },
        encodings: Vec::new(),
    }
}

#[test]
fn crashing_input_is_detected() {
    let f = crashing_function();
    assert!(matches!(check_for_crash(&f, &target8()), Res::Panic));
}

#[test]
fn reduction_keeps_the_defect_and_shrinks() {
    let f = crashing_function();
    let before = f.layout.ebb_insts[0].len();
    let reduced = run(f, &target8());
    assert!(reduced.shrunk);
    assert!(matches!(check_for_crash(&reduced.func, &target8()), Res::Panic));
    let after: usize = reduced
        .func
        .layout
        .order
        .iter()
        .map(|b| reduced.func.layout.ebb_insts[*b].len())
        .sum();
    assert!(after < before);
}

#[test]
fn reduction_without_defect_changes_nothing() {
    // A function the pass legalizes cleanly: every mutation either still
    // succeeds or breaks the structure, so nothing is kept.
    let f = Function {
        signature: Signature { params: vec![], returns: vec![] },
        dfg: Dfg {
            insts: vec![
                inst(Opcode::Iconst, ValueType::I8, vec![], 3, 0),
                inst(Opcode::Ret, ValueType::I8, vec![], 0, 0),
            ],
            results: vec![vec![0], vec![]],
            value_types: vec![ValueType::I8],
            ebb_params: vec![vec![]],
        },
        layout: Layout { ebb_insts: vec![vec![0, 1]], order: vec![0] },
        encodings: Vec::new(),
    };
    let snapshot = f.duplicate();
    let reduced = run(f, &target8());
    assert!(!reduced.shrunk);
    assert_eq!(reduced.func, snapshot);
}

#[test]
fn empty_or_unterminated_candidates_are_rejected() {
    let mut f = crashing_function();
    f.layout.order = vec![];
    assert!(matches!(check_for_crash(&f, &target8()), Res::Verifier));

    let mut g = crashing_function();
    g.layout.ebb_insts[0] = vec![0, 1, 2];
    assert!(matches!(check_for_crash(&g, &target8()), Res::Verifier));
}

#[test]
fn legalized_function_is_never_reported_as_crashing() {
    // Legalize a function the 8-bit target fully supports; resubmitting
    // the legalized result must come back clean, per the pass's proven
    // idempotence: a function in legalized form is never a crash.
    let mut f = Function {
        signature: Signature { params: vec![], returns: vec![] },
        dfg: Dfg {
            insts: vec![
                inst(Opcode::Iconst, ValueType::I8, vec![], 3, 0),
                inst(Opcode::Ret, ValueType::I8, vec![], 0, 0),
            ],
            results: vec![vec![0], vec![]],
            value_types: vec![ValueType::I8],
            ebb_params: vec![vec![]],
        },
        layout: Layout { ebb_insts: vec![vec![0, 1]], order: vec![0] },
        encodings: Vec::new(),
    };
    let t = target8();
    assert!(legalizer::driver::legalize_function(&mut f, &vec![0], &t).is_ok());
    assert!(matches!(check_for_crash(&f, &t), Res::Succeed));
}

#[test]
fn reduction_cursor_skips_terminators() {
    let f = crashing_function();
    let mut oi = 0usize;
    let mut pos = 0usize;
    let mut seen = Vec::new();
    while let Some(p) = next_inst_ret_prev(&f, &mut oi, &mut pos) {
        seen.push(p);
    }
    // Four instructions in one block: the last one, the terminator, is
    // never offered as a mutation candidate.
    assert_eq!(seen, vec![(0, 0), (0, 1), (0, 2)]);
}

#[test]
fn function_linkage_translation() {
    assert_eq!(translate_function_linkage(Linkage::Import), Decl::FunctionImport);
    assert_eq!(translate_function_linkage(Linkage::Local), Decl::FunctionDef { global: false });
    assert_eq!(translate_function_linkage(Linkage::Export), Decl::FunctionDef { global: true });
}

#[test]
fn data_linkage_translation() {
    assert_eq!(translate_data_linkage(Linkage::Import, true), Decl::DataImport);
    assert_eq!(
        translate_data_linkage(Linkage::Local, true),
        Decl::DataDef { global: false, writable: true }
    );
    assert_eq!(
        translate_data_linkage(Linkage::Export, false),
        Decl::DataDef { global: true, writable: false }
    );
}

#[test]
fn relocation_addends_narrow_exactly_when_they_fit() {
    assert_eq!(narrow_addend(0), Some(0));
    assert_eq!(narrow_addend(i32::MAX as i64), Some(i32::MAX));
    assert_eq!(narrow_addend(i32::MIN as i64), Some(i32::MIN));
    assert_eq!(narrow_addend(i32::MAX as i64 + 1), None);
    assert_eq!(narrow_addend(i32::MIN as i64 - 1), None);
}
