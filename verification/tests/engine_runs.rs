use bums::access::SatAnswer;
use bums::common::{generate_comparison, AbstractComparison, AbstractExpression, MemoryAccess, RegionType, RegisterKind};
use bums::engine::ExecutionEngineX86;
use bums::run::{check_callee_saved, Action, Explorer};

fn load(src: &str) -> ExecutionEngineX86 {
    let lines: Vec<String> = src.lines().map(|l| l.to_string()).collect();
    ExecutionEngineX86::from_asm_lines_checked(&lines).expect("file loads")
}

// Values of formulas over immediates only, standing in for the solver.
fn eval(e: &AbstractExpression) -> Option<i128> {
    match e {
        AbstractExpression::Immediate(n) => Some(*n as i128),
        AbstractExpression::Expression(op, a, b) => {
            let x = eval(a)?;
            let y = eval(b)?;
            match op.as_str() {
                "+" => Some(x + y),
                "-" => Some(x - y),
                "*" => Some(x * y),
                _ => None,
            }
        }
        _ => None,
    }
}

fn holds(c: &AbstractComparison) -> Option<bool> {
    let l = eval(&c.left)?;
    let r = eval(&c.right)?;
    match c.op.as_str() {
        "<" => Some(l < r),
        ">" => Some(l > r),
        "<=" => Some(l <= r),
        ">=" => Some(l >= r),
        "==" => Some(l == r),
        "!=" => Some(l != r),
        _ => None,
    }
}

fn check(fs: &[AbstractComparison]) -> SatAnswer {
    let mut all = true;
    for f in fs {
        match holds(f) {
            Some(false) => return SatAnswer::Unsat,
            Some(true) => {}
            None => all = false,
        }
    }
    if all {
        SatAnswer::Sat
    } else {
        SatAnswer::Unknown
    }
}

fn answer(fs: &Option<Vec<AbstractComparison>>) -> SatAnswer {
    match fs {
        Some(v) => check(v),
        None => SatAnswer::Unknown,
    }
}

fn run(engine: &mut ExecutionEngineX86) -> Result<(), String> {
    let mut ex = Explorer::new(engine);
    for _ in 0..100_000 {
        match ex.advance(engine) {
            Action::Stepped => {}
            Action::AskBranch => {
                let (assertions, cond) = ex.branch_query(engine);
                let answers = match holds(&cond) {
                    Some(b) => {
                        let base = check(&assertions);
                        if base == SatAnswer::Unsat {
                            Some((SatAnswer::Unsat, SatAnswer::Unsat))
                        } else if b {
                            Some((base, SatAnswer::Unsat))
                        } else {
                            Some((SatAnswer::Unsat, base))
                        }
                    }
                    None => None,
                };
                ex.answer_branch(engine, answers);
            }
            Action::AskRead => {
                let q = ex.read_query();
                let start = (answer(&q.start_low), answer(&q.start_up));
                let end = (answer(&q.end_low), answer(&q.end_up));
                match ex.answer_read(start, end) {
                    Action::Failed(m) => return Err(m),
                    Action::Fault => panic!("read faulted"),
                    _ => {}
                }
            }
            Action::Finished => return Ok(()),
            Action::Failed(m) => return Err(m),
            Action::Fault => panic!("run faulted"),
        }
    }
    panic!("run did not finish")
}

#[test]
fn mov_32bit_to_64bit_zero_extend() {
    let mut engine = load("mov eax, 0x11223344\nmov rbx, eax\n");
    assert!(engine.program.len() >= 2, "program too short");
    let res = run(&mut engine);
    if let Err(e) = &res {
        panic!("engine.start returned error: {}", e);
    }
    let rbx = engine.computer.get_register_value("rbx");
    assert_eq!(rbx.kind, RegisterKind::Immediate);
    assert_eq!(rbx.offset as u64, 0x11223344u64);
}

#[test]
fn mov_64_to_32_truncation_marks_unknown() {
    let mut engine = load("mov rax, 0x1122334455667788\nmov eax, rax\n");
    run(&mut engine).unwrap_or_else(|e| panic!("engine.start error: {}", e));
    let rax = engine.computer.get_register_value("rax");
    assert_eq!(rax.kind, RegisterKind::Number);
}

#[test]
fn vmovdqu_populates_simd_register() {
    let mut content = String::new();
    content.push_str(".L_table:\n");
    content.push_str(".byte ");
    for i in 0..32 {
        content.push_str(&format!("0x{:02x}", i));
        if i != 31 {
            content.push_str(", ");
        }
    }
    content.push_str("\nvmovdqu ymm0, ymmword ptr [.L_table]\n");
    let mut engine = load(&content);
    if let Err(e) = run(&mut engine) {
        panic!("engine.start error: {}", e);
    }
    if let Some(vec) = engine.computer.simd_registers.get("ymm0") {
        let first = &vec[0];
        if let Some(base_expr) = &first.base {
            let abstracts = base_expr.get_abstracts();
            assert!(abstracts.iter().any(|s| s.contains(".L_table")));
        } else {
            panic!("expected base expression for simd element");
        }
    } else {
        panic!("no ymm0 register found");
    }
}

#[test]
fn solver_prunes_infeasible_branch() {
    let content = "mov rcx, 0\ncmp rcx, 1\nje taken\nmov rax, 42\njmp end\ntaken: \nmov rax, 7\nend:\nret\n";
    let mut engine = load(content);
    if let Err(e) = run(&mut engine) {
        panic!("engine.start error: {}", e);
    }
    let rax = engine.computer.get_register_value("rax");
    assert_eq!(rax.kind, RegisterKind::Immediate);
    assert_eq!(rax.offset, 42);
}

#[test]
fn simple_loop_over_table() {
    let mut content = String::new();
    content.push_str(".L_table:\n");
    content.push_str(".byte ");
    for i in 0..64 {
        content.push_str(&format!("0x{:02x}", i));
        if i != 63 {
            content.push_str(", ");
        }
    }
    content.push_str("\n");
    content.push_str("mov rcx, 0\n");
    content.push_str(".loop:\n");
    content.push_str("mov rax, qword ptr [.L_table + rcx*8]\n");
    content.push_str("add rcx, 1\n");
    content.push_str("cmp rcx, 8\n");
    content.push_str("jne .loop\n");
    let mut engine = load(&content);
    if let Err(e) = run(&mut engine) {
        panic!("engine.start error: {}", e);
    }
    let rcx = engine.computer.get_register_value("rcx");
    assert_eq!(rcx.kind, RegisterKind::Immediate);
    assert_eq!(rcx.offset, 8);
}

#[test]
fn evaluate_branch_prefers_history_when_rw_list_matches() {
    let mut engine = load("ret\n");
    let expr = generate_comparison("==", AbstractExpression::Abstract("symx".to_string()), AbstractExpression::Immediate(0));
    let pc = 0usize;
    let rw = vec![MemoryAccess { kind: RegionType::READ, base: "memory".to_string(), offset: 0 }];
    engine.jump_history.push((pc, true, expr.clone(), rw.clone(), engine.computer.clone_shallow()));
    // both sides satisfiable, and the comparison names an abstract value:
    // nothing is decided, both branches are explored
    let decision = engine.evaluate_branch_condition(pc, &expr, &rw, Some((SatAnswer::Sat, SatAnswer::Sat)));
    assert_eq!(decision, None);
}

#[test]
fn history_repeats_decision_for_concrete_comparison() {
    let mut engine = load("ret\n");
    let expr = generate_comparison("==", AbstractExpression::Immediate(1), AbstractExpression::Immediate(0));
    let rw = vec![MemoryAccess { kind: RegionType::READ, base: "memory".to_string(), offset: 0 }];
    engine.jump_history.push((3, true, expr.clone(), rw.clone(), engine.computer.clone_shallow()));
    assert_eq!(engine.evaluate_branch_condition(3, &expr, &rw, None), Some(true));
    // another position, or other reads, find nothing
    assert_eq!(engine.evaluate_branch_condition(4, &expr, &rw, None), None);
    assert_eq!(engine.evaluate_branch_condition(3, &expr, &vec![], None), None);
    // the solver's answers decide first
    assert_eq!(engine.evaluate_branch_condition(3, &expr, &rw, Some((SatAnswer::Unsat, SatAnswer::Sat))), Some(false));
    assert_eq!(engine.evaluate_branch_condition(3, &expr, &rw, Some((SatAnswer::Unknown, SatAnswer::Unknown))), None);
}

#[test]
fn leaving_a_loop_reverses_the_decision_and_asserts() {
    let mut engine = load("ret\n");
    let expr = generate_comparison("==", AbstractExpression::Immediate(1), AbstractExpression::Immediate(1));
    engine.jump_history.push((0, true, expr.clone(), vec![], engine.computer.clone_shallow()));
    engine.in_loop = true;
    assert_eq!(engine.evaluate_branch_condition(0, &expr, &vec![], None), Some(false));
    assert!(!engine.in_loop);
    assert_eq!(engine.computer.assertions.len(), 1);
}

#[test]
fn jump_without_target_fails_with_message() {
    let mut engine = load("je\n");
    let err = run(&mut engine).unwrap_err();
    assert_eq!(err, "Conditional jump with no target: X86Instruction { opcode: \"je\", operands: [] }");
    let mut engine2 = load("jmp\n");
    let err2 = run(&mut engine2).unwrap_err();
    assert_eq!(err2, "jmp with no target: X86Instruction { opcode: \"jmp\", operands: [] }");
}

#[test]
fn unknown_jump_target_drops_path() {
    // the path that jumps nowhere known is dropped; rax keeps its initial value
    let mut engine = load("mov rax, 5\njmp nowhere\nmov rax, 6\n");
    run(&mut engine).unwrap();
    let rax = engine.computer.get_register_value("rax");
    assert_eq!(rax.kind, RegisterKind::RegisterBase);
}

#[test]
fn undecided_branch_merges_terminals() {
    // the comparison names an abstract register, so both sides run and the
    // final machines disagree on rax: it becomes unknown; rbx agrees
    let mut engine = load("cmp rdi, 0\nje other\nmov rax, 1\njmp done\nother:\nmov rax, 2\ndone:\nmov rbx, 3\n");
    run(&mut engine).unwrap();
    let rax = engine.computer.get_register_value("rax");
    assert_eq!(rax.kind, RegisterKind::Number);
    let rbx = engine.computer.get_register_value("rbx");
    assert_eq!(rbx.kind, RegisterKind::Immediate);
    assert_eq!(rbx.offset, 3);
    // vector registers no path touched keep their lanes
    let lanes = engine.computer.simd_registers.get("ymm0").unwrap();
    assert_eq!(lanes.len(), 32);
    assert_eq!(lanes[0].kind, RegisterKind::RegisterBase);
}

#[test]
fn read_outside_regions_fails() {
    // no region is named after rdi's value: the access fails
    let mut engine = load("mov rax, qword ptr [rdx]\n");
    let err = run(&mut engine).unwrap_err();
    assert!(err.starts_with("Memory safety error: start Some("));
}

#[test]
fn add_sub_and_lea_update_registers() {
    let mut engine = load("mov rax, 10\nadd rax, 5\nsub rax, 3\nlea rbx, [rcx + rdx*4 + 8]\n");
    run(&mut engine).unwrap();
    let rax = engine.computer.get_register_value("rax");
    assert_eq!(rax.kind, RegisterKind::Immediate);
    assert_eq!(rax.offset, 12);
    let rbx = engine.computer.get_register_value("rbx");
    assert_eq!(rbx.kind, RegisterKind::RegisterBase);
    let names = rbx.base.as_ref().unwrap().get_abstracts();
    assert_eq!(names, vec!["rcx".to_string(), "rdx".to_string()]);
}

#[test]
fn code_labels_index_the_next_instruction() {
    let engine = load("mov rax, 1\nnext:\n\nadd rax, 2\nend:\n");
    assert_eq!(engine.program.len(), 2);
    assert_eq!(*engine.label_map.get("next").unwrap(), 1);
    assert_eq!(engine.program[1].opcode, "add");
    assert_eq!(*engine.label_map.get("end").unwrap(), 2);
}

#[test]
fn engine_assertions_reach_read_checks() {
    let mut engine = load("mov rax, qword ptr [rdi + rdx]\n");
    engine.computer.add_memory_region("rdi".to_string(), RegionType::RW, AbstractExpression::Immediate(4096));
    let rdx_zero = generate_comparison("==", AbstractExpression::Abstract("rdx".to_string()), AbstractExpression::Immediate(0));
    engine.computer.assertions.push(rdx_zero);
    let mut ex = Explorer::new(&engine);
    loop {
        match ex.advance(&mut engine) {
            Action::Stepped => {}
            Action::AskRead => break,
            _ => panic!("unexpected action"),
        }
    }
    let q = ex.read_query();
    for fs in [&q.start_low, &q.start_up, &q.end_low, &q.end_up] {
        let fs = fs.as_ref().expect("a check");
        assert_eq!(fs[0].op, "==");
        assert!(matches!(&*fs[0].left, AbstractExpression::Abstract(n) if n == "rdx"));
    }
}

#[test]
fn clobbered_callee_saved_register_fails() {
    let mut engine = load("mov rbx, 5\nmov rax, 1\n");
    let entry = engine.computer.clone_shallow();
    run(&mut engine).unwrap();
    assert_eq!(
        check_callee_saved(&entry, &engine.computer),
        Err("callee-saved register rbx is not restored".to_string())
    );
    let mut engine = load("mov rax, 1\nmov rcx, 2\n");
    let entry = engine.computer.clone_shallow();
    run(&mut engine).unwrap();
    assert_eq!(check_callee_saved(&entry, &engine.computer), Ok(()));
}

#[test]
fn solver_isolation_between_clones() {
    let comp = bums::computer::X86Computer::new();
    let mut c1 = comp.clone_shallow();
    let c2 = comp.clone_shallow();
    let sym = AbstractExpression::Abstract("sym".to_string());
    c1.assertions.push(generate_comparison("==", sym, AbstractExpression::Immediate(1)));
    // sym == 2 asked of c1 comes with sym == 1; asked of c2 it comes alone
    let ask = |c: &bums::computer::X86Computer| {
        let mut fs: Vec<AbstractComparison> = c.assertions.clone();
        fs.push(generate_comparison("==", AbstractExpression::Abstract("sym".to_string()), AbstractExpression::Immediate(2)));
        fs
    };
    let one = ask(&c1);
    let two = ask(&c2);
    assert_eq!(one.len(), 2);
    assert_eq!(two.len(), 1);
    // no value of sym is both 1 and 2; sym == 2 alone holds for sym = 2
    let sat = |fs: &Vec<AbstractComparison>, v: i64| {
        fs.iter().all(|f| match (&*f.right, f.op.as_str()) {
            (AbstractExpression::Immediate(n), "==") => *n == v,
            _ => false,
        })
    };
    assert!(!(0..4).any(|v| sat(&one, v)));
    assert!(sat(&two, 2));
}
