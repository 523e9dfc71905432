use bums::common::{AbstractExpression, RegisterKind};
use bums::engine::ExecutionEngineX86;
use bums::harness::{
    invariant_comparisons,
    binary_to_abstract_comparison, calculate_size_of, calculate_size_of_array, eval_usize_expr,
    parse_usize_exec, probe_sample_size, region_length_exec, shape_ok_exec, syn_expr_to_abstract_expression,
    BinOpKind, ExprShape, Param, TypeShape, UnOpKind,
};

fn path(s: &str) -> Box<ExprShape> {
    Box::new(ExprShape::Path(s.to_string()))
}

fn lit(s: &str) -> Box<ExprShape> {
    Box::new(ExprShape::Int(s.to_string()))
}

#[test]
fn type_sizes() {
    assert_eq!(calculate_size_of("u8"), 1);
    assert_eq!(calculate_size_of("i16"), 2);
    assert_eq!(calculate_size_of("u32"), 4);
    assert_eq!(calculate_size_of("u64"), 8);
    assert_eq!(calculate_size_of("u128"), 16);
    // usize is counted as 16 bytes
    assert_eq!(calculate_size_of("usize"), 16);
    assert_eq!(calculate_size_of("isize"), std::mem::size_of::<isize>());
    assert_eq!(calculate_size_of("12"), 12);
    assert_eq!(calculate_size_of_array(&Some("u64".to_string()), &Some("5".to_string())), 40);
}

#[test]
fn usize_literals() {
    assert_eq!(parse_usize_exec("+42"), Some(42));
    assert_eq!(parse_usize_exec("42"), Some(42));
    assert_eq!(parse_usize_exec("-1"), None);
    assert_eq!(parse_usize_exec(""), None);
    assert_eq!(parse_usize_exec("+"), None);
    assert_eq!(parse_usize_exec("99999999999999999999999"), None);
}

#[test]
fn region_lengths_follow_type_shapes() {
    let arr = TypeShape::Array { elem: Some("u32".to_string()), len: Some("8".to_string()) };
    assert_eq!(region_length_exec(&arr), Some(32));
    assert_eq!(region_length_exec(&TypeShape::Reference(Box::new(TypeShape::Path("u64".to_string())))), Some(8));
    assert_eq!(region_length_exec(&TypeShape::Path("u64".to_string())), Some(16));
    assert_eq!(region_length_exec(&TypeShape::Other), Some(4096));
    assert_eq!(region_length_exec(&TypeShape::Path("Foo".to_string())), None);
    let bad = TypeShape::Array { elem: None, len: Some("8".to_string()) };
    assert_eq!(region_length_exec(&bad), None);
}

#[test]
fn parameters_get_regions_and_registers() {
    let lines = vec!["ret".to_string()];
    let mut engine = ExecutionEngineX86::from_asm_lines_checked(&lines).unwrap();
    let params = vec![
        Param { name: Some("buf".to_string()), ty: TypeShape::Other },
        Param { name: None, ty: TypeShape::Other },
        Param { name: Some("buf_len".to_string()), ty: TypeShape::Path("usize".to_string()) },
    ];
    engine.setup_parameters(&params);
    let rdi = engine.computer.get_register_value("rdi");
    assert_eq!(rdi.kind, RegisterKind::RegisterBase);
    assert_eq!(rdi.base.as_ref().unwrap().get_abstracts(), vec!["buf".to_string()]);
    let rsi = engine.computer.get_register_value("rsi");
    assert_eq!(rsi.base.as_ref().unwrap().get_abstracts(), vec!["buf_len".to_string()]);
    assert!(engine.computer.memory.contains_key("buf"));
    match engine.computer.memory.get("buf_len").unwrap().get_length() {
        AbstractExpression::Immediate(n) => assert_eq!(n, 32),
        _ => panic!("expected a concrete length"),
    }
}

#[test]
fn invariants_read_as_comparisons() {
    let c = binary_to_abstract_comparison(BinOpKind::Ge, &ExprShape::Path("buf_len".to_string()), &ExprShape::Int("5".to_string()));
    assert_eq!(c.to_display_string(), "(>= buf_len 5)");
    let e = ExprShape::MethodCall { receiver: Some("input".to_string()), method: "len".to_string() };
    assert!(shape_ok_exec(&e));
    assert_eq!(syn_expr_to_abstract_expression(&e).to_display_string(), "input_len");
    let f = ExprShape::Field { base: Some("s".to_string()), member: "0".to_string() };
    assert_eq!(syn_expr_to_abstract_expression(&f).to_display_string(), "s_field0");
    let neg = ExprShape::Unary(UnOpKind::Neg, lit("3"));
    assert!(shape_ok_exec(&neg));
    assert!(!shape_ok_exec(&ExprShape::Other));
    assert!(!shape_ok_exec(&ExprShape::MethodCall { receiver: Some("x".to_string()), method: "iter".to_string() }));
    let mut engine = ExecutionEngineX86::from_asm_lines_checked(&vec!["ret".to_string()]).unwrap();
    engine.add_invariants(&vec![c]);
    assert_eq!(engine.computer.assertions.len(), 1);
}

#[test]
fn probe_sample_follows_invariant_bounds() {
    let small = ExprShape::Binary(BinOpKind::Ge, path("buf_len"), lit("5"));
    let large = ExprShape::Binary(BinOpKind::Gt, path("buf_len"), Box::new(ExprShape::Binary(BinOpKind::Mul, lit("8"), lit("64"))));
    assert_eq!(probe_sample_size(Some(16), &vec![small]), 16);
    assert_eq!(probe_sample_size(Some(16), &vec![large]), 512);
    assert_eq!(probe_sample_size(None, &vec![]), 4096);
    assert_eq!(eval_usize_expr(&ExprShape::Binary(BinOpKind::Sub, lit("1"), lit("2"))), None);
    assert_eq!(eval_usize_expr(&ExprShape::Binary(BinOpKind::Div, lit("1"), lit("0"))), None);
}

#[test]
fn invariant_list_refuses_non_binary() {
    let invs = vec![
        ExprShape::Binary(BinOpKind::Lt, path("len"), lit("64")),
        ExprShape::Binary(BinOpKind::Ge, path("len"), lit("1")),
    ];
    let cs = invariant_comparisons(&invs).unwrap();
    assert_eq!(cs.len(), 2);
    assert_eq!(cs[0].op, "<");
    assert_eq!(cs[1].op, ">=");
    assert!(matches!(*cs[1].right, AbstractExpression::Immediate(1)));
    let bad = vec![
        ExprShape::Binary(BinOpKind::Lt, path("len"), lit("64")),
        ExprShape::Path("flag".to_string()),
    ];
    assert_eq!(invariant_comparisons(&bad).err(), Some("invariants must be binary expressions".to_string()));
}
