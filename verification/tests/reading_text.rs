use bums::attr::{AttrToken, Delim, MultiAttr};
use bums::harness::{BinOpKind, ExprShape, TypeShape, UnOpKind};
use bums::multiversion::{read_multiversion, READ_DEPTH};
use bums::reading::{attr_tokens_of, invariant_shape_of, signature_of, tokens_text, type_shape_of};

#[test]
fn attribute_text_tokens() {
    let ts = attr_tokens_of(r#"versions = [("a.s", "sym", ["avx2"])], abi_probe_sample_size = 0x10, x = 1.5"#, READ_DEPTH).unwrap();
    assert!(matches!(&ts[0], AttrToken::Ident(n) if n == "versions"));
    assert!(matches!(&ts[1], AttrToken::Punct('=')));
    match &ts[2] {
        AttrToken::Group(Delim::Bracket, inner) => match &inner[0] {
            AttrToken::Group(Delim::Paren, t) => {
                assert!(matches!(&t[0], AttrToken::Str(v) if v == "a.s"));
                assert!(matches!(&t[4], AttrToken::Group(Delim::Bracket, f) if matches!(&f[0], AttrToken::Str(v) if v == "avx2")));
            }
            _ => panic!("unexpected shape"),
        },
        _ => panic!("unexpected shape"),
    }
    // an integer literal by its decimal digits, another literal by its text
    assert!(matches!(&ts[6], AttrToken::Int(d) if d == "16"));
    assert!(matches!(&ts[10], AttrToken::Lit(x) if x == "1.5"));
    assert!(attr_tokens_of("(", READ_DEPTH).is_none());
    let m = MultiAttr::parse(&ts);
    assert!(m.is_err());
}

#[test]
fn invariant_text_shapes() {
    match invariant_shape_of("buf_len >= 8 * 4", READ_DEPTH).unwrap() {
        ExprShape::Binary(BinOpKind::Ge, a, b) => {
            assert!(matches!(*a, ExprShape::Path(ref p) if p == "buf_len"));
            assert!(matches!(*b, ExprShape::Binary(BinOpKind::Mul, _, _)));
        }
        _ => panic!("unexpected shape"),
    }
    match invariant_shape_of("-input.len()", READ_DEPTH).unwrap() {
        ExprShape::Unary(UnOpKind::Neg, e) => {
            assert!(matches!(*e, ExprShape::MethodCall { receiver: Some(ref r), ref method } if r == "input" && method == "len"));
        }
        _ => panic!("unexpected shape"),
    }
    assert!(matches!(invariant_shape_of("s.0", READ_DEPTH).unwrap(), ExprShape::Field { base: Some(ref b), ref member } if b == "s" && member == "0"));
    assert!(matches!(invariant_shape_of("(x)", READ_DEPTH).unwrap(), ExprShape::Other));
    assert!(invariant_shape_of("a <", READ_DEPTH).is_none());
}

#[test]
fn signature_text_params() {
    let (name, ps) = signature_of("fn f(buf: &mut [u8; 32], n: usize, &(a, b): &(u8, u8))", READ_DEPTH).unwrap();
    assert_eq!(name, "f");
    assert_eq!(ps.len(), 3);
    assert_eq!(ps[0].name, Some("buf".to_string()));
    match &ps[0].ty {
        TypeShape::Reference(inner) => {
            assert!(matches!(&**inner, TypeShape::Array { elem: Some(e), len: Some(l) } if e == "u8" && l == "32"))
        }
        _ => panic!("unexpected shape"),
    }
    assert!(matches!(&ps[1].ty, TypeShape::Path(p) if p == "usize"));
    assert_eq!(ps[2].name, None);
    assert!(matches!(type_shape_of("Vec<u8>", READ_DEPTH).unwrap(), TypeShape::Path(ref p) if p == "Vec"));
    assert!(signature_of("not a signature", READ_DEPTH).is_none());
}

#[test]
fn tokens_render_back_to_text() {
    let ts = attr_tokens_of(r#"a <= b + "q\"x", [c]"#, READ_DEPTH).unwrap();
    assert_eq!(tokens_text(&ts), r#"a <= b + "q\"x" , [c]"#);
}

#[test]
fn multiversion_read_from_text() {
    let attr = r#"versions = [("v.s", "sym", ["avx2"]), ("w.s",)], invariants = [buf_len >= 5], fallback = slow"#;
    let plan = read_multiversion(attr, "fn enc(buf: *mut u8, buf_len: usize) -> usize").unwrap().unwrap();
    assert_eq!(plan.fn_name, "enc");
    assert_eq!(plan.entry, "enc");
    assert_eq!(plan.variants.len(), 2);
    assert_eq!(plan.variants[0].symbol, "sym");
    assert_eq!(plan.variants[1].symbol, "enc_v1");
    assert_eq!(plan.params.len(), 2);
    assert_eq!(plan.invariants.len(), 1);
    assert_eq!(plan.invariants[0].op, ">=");
    // refusals
    assert_eq!(
        read_multiversion("versions = [(\"v.s\",)], invariants = [flag]", "fn f()").unwrap().err(),
        Some("invariants must be binary expressions".to_string())
    );
    assert_eq!(
        read_multiversion("bogus = 1", "fn f()").unwrap().err(),
        Some("unknown key 'bogus'".to_string())
    );
    assert_eq!(
        read_multiversion("entry = \"e\"", "not a signature").unwrap().err(),
        Some("cannot read the function signature".to_string())
    );
    // a binary invariant that is no comparison stops the build
    assert!(read_multiversion("versions = [(\"v.s\",)], invariants = [a + b]", "fn f()").is_none());
}
