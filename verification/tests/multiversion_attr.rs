use bums::attr::{AttrError, AttrToken, Delim, MultiAttr};
use bums::multiversion::{entry_label, fallback_of, plan_variants, variant_failure_report};

fn id(s: &str) -> AttrToken {
    AttrToken::Ident(s.to_string())
}

fn p(c: char) -> AttrToken {
    AttrToken::Punct(c)
}

fn st(s: &str) -> AttrToken {
    AttrToken::Str(s.to_string())
}

fn num(s: &str) -> AttrToken {
    AttrToken::Int(s.to_string())
}

fn bracket(v: Vec<AttrToken>) -> AttrToken {
    AttrToken::Group(Delim::Bracket, v)
}

fn paren(v: Vec<AttrToken>) -> AttrToken {
    AttrToken::Group(Delim::Paren, v)
}

fn ok(v: Vec<AttrToken>) -> MultiAttr {
    match MultiAttr::parse(&v) {
        Ok(m) => m,
        Err(e) => panic!("refused: {:?}", e),
    }
}

fn message(v: Vec<AttrToken>) -> String {
    match MultiAttr::parse(&v) {
        Err(AttrError::Invalid(m)) => m,
        other => panic!("expected a message, got {:?}", other),
    }
}

fn is_syntax(v: Vec<AttrToken>) -> bool {
    matches!(MultiAttr::parse(&v), Err(AttrError::Syntax))
}

fn versions(elems: Vec<AttrToken>) -> Vec<AttrToken> {
    vec![id("versions"), p('='), bracket(elems)]
}

#[test]
fn attr_full_settings() {
    // versions = [("a.s", "sym_a", ["avx2", "bmi2"]), ("b.s",)], entry = "start",
    // fallback = rust_impl, invariants = [len < 64, len > 0], abi_probe = true,
    // abi_probe_sample_size = 128
    let v = vec![
        id("versions"),
        p('='),
        bracket(vec![
            paren(vec![st("a.s"), p(','), st("sym_a"), p(','), bracket(vec![st("avx2"), p(','), st("bmi2")])]),
            p(','),
            paren(vec![st("b.s"), p(',')]),
        ]),
        p(','),
        id("entry"),
        p('='),
        st("start"),
        p(','),
        id("fallback"),
        p('='),
        id("rust_impl"),
        p(','),
        id("invariants"),
        p('='),
        bracket(vec![id("len"), p('<'), num("64"), p(','), id("len"), p('>'), num("0")]),
        p(','),
        id("abi_probe"),
        p('='),
        id("true"),
        p(','),
        id("abi_probe_sample_size"),
        p('='),
        num("128"),
    ];
    let m = ok(v);
    assert_eq!(m.versions.len(), 2);
    assert_eq!(m.versions[0].file, "a.s");
    assert_eq!(m.versions[0].symbol, Some("sym_a".to_string()));
    assert_eq!(m.versions[0].features, vec!["avx2".to_string(), "bmi2".to_string()]);
    assert_eq!(m.versions[1].file, "b.s");
    assert_eq!(m.versions[1].symbol, None);
    assert!(m.versions[1].features.is_empty());
    assert_eq!(m.entry, Some("start".to_string()));
    assert_eq!(m.fallback, Some("rust_impl".to_string()));
    assert_eq!(m.invariants.len(), 2);
    assert_eq!(m.invariants[0].len(), 3);
    assert!(matches!(&m.invariants[1][1], AttrToken::Punct('>')));
    assert!(m.abi_probe);
    assert_eq!(m.abi_probe_sample_size, Some(128));
}

#[test]
fn attr_empty_is_defaults() {
    let m = ok(vec![]);
    assert!(m.versions.is_empty());
    assert_eq!(m.entry, None);
    assert_eq!(m.fallback, None);
    assert!(m.invariants.is_empty());
    assert!(!m.abi_probe);
    assert_eq!(m.abi_probe_sample_size, None);
}

#[test]
fn attr_fallback_as_string_and_no_commas() {
    // entry = "e" fallback = "from_string" abi_probe = false
    let m = ok(vec![
        id("entry"),
        p('='),
        st("e"),
        id("fallback"),
        p('='),
        st("from_string"),
        id("abi_probe"),
        p('='),
        id("false"),
    ]);
    assert_eq!(m.entry, Some("e".to_string()));
    assert_eq!(m.fallback, Some("from_string".to_string()));
    assert!(!m.abi_probe);
}

#[test]
fn attr_repeated_keys() {
    // versions = [("a.s",)], entry = "x", versions = [("b.s",)], entry = "y"
    let mut v = versions(vec![paren(vec![st("a.s"), p(',')])]);
    v.extend(vec![p(','), id("entry"), p('='), st("x"), p(',')]);
    v.extend(versions(vec![paren(vec![st("b.s"), p(',')])]));
    v.extend(vec![p(','), id("entry"), p('='), st("y")]);
    let m = ok(v);
    assert_eq!(m.versions.len(), 2);
    assert_eq!(m.versions[1].file, "b.s");
    assert_eq!(m.entry, Some("y".to_string()));
}

#[test]
fn attr_symbol_identifier_is_no_symbol() {
    let m = ok(versions(vec![paren(vec![st("a.s"), p(','), id("sym")])]));
    assert_eq!(m.versions[0].symbol, None);
}

#[test]
fn attr_unknown_key() {
    assert_eq!(message(vec![id("foo"), p('='), num("1")]), "unknown key 'foo'");
}

#[test]
fn attr_fallback_must_be_name() {
    assert_eq!(
        message(vec![id("fallback"), p('='), num("3")]),
        "fallback must be an identifier or string"
    );
    assert_eq!(
        message(vec![id("fallback"), p('='), id("self")]),
        "fallback must be an identifier or string"
    );
    assert_eq!(message(vec![id("fallback"), p('=')]), "fallback must be an identifier or string");
}

#[test]
fn attr_abi_probe_must_be_bool() {
    assert_eq!(message(vec![id("abi_probe"), p('='), num("1")]), "abi_probe must be a boolean literal");
    assert_eq!(
        message(vec![id("abi_probe"), p('='), id("true"), p('+'), num("1")]),
        "abi_probe must be a boolean literal"
    );
    assert!(is_syntax(vec![id("abi_probe"), p('=')]));
}

#[test]
fn attr_version_messages() {
    assert_eq!(
        message(versions(vec![paren(vec![st("a.s")])])),
        "each version entry must be a tuple: (\"file\", \"symbol\", [\"feat\"])"
    );
    assert_eq!(
        message(versions(vec![st("a.s")])),
        "each version entry must be a tuple: (\"file\", \"symbol\", [\"feat\"])"
    );
    assert_eq!(
        message(versions(vec![paren(vec![])])),
        "version tuple must contain at least file string"
    );
    assert_eq!(
        message(versions(vec![paren(vec![num("5"), p(',')])])),
        "version file must be a string literal"
    );
    assert_eq!(
        message(versions(vec![paren(vec![st("a.s"), p(','), num("5")])])),
        "symbol must be a string literal"
    );
    assert_eq!(
        message(versions(vec![paren(vec![st("a.s"), p(','), st("s"), p(','), st("avx")])])),
        "features must be an array of string literals"
    );
    assert_eq!(
        message(versions(vec![paren(vec![
            st("a.s"),
            p(','),
            st("s"),
            p(','),
            bracket(vec![st("avx"), p(','), num("1")]),
        ])])),
        "features array must contain string literals"
    );
}

#[test]
fn attr_first_bad_version_reports() {
    // the second element is bad in one way, the third in another: the second reports
    let m = message(versions(vec![
        paren(vec![st("a.s"), p(',')]),
        p(','),
        paren(vec![num("1"), p(',')]),
        p(','),
        st("c"),
    ]));
    assert_eq!(m, "version file must be a string literal");
}

#[test]
fn attr_syntax_errors() {
    // missing `=`
    assert!(is_syntax(vec![id("entry"), st("x")]));
    // a key that is not an identifier
    assert!(is_syntax(vec![st("entry"), p('='), st("x")]));
    // a keyword as key
    assert!(is_syntax(vec![id("true"), p('='), num("1")]));
    // an empty array element
    assert!(is_syntax(versions(vec![p(',')])));
    // an empty element deep inside the array comes before any message
    assert!(is_syntax(versions(vec![
        st("not a tuple"),
        p(','),
        paren(vec![st("a.s"), p(','), bracket(vec![p(','), st("x")])]),
    ])));
    // entry needs a string
    assert!(is_syntax(vec![id("entry"), p('='), id("e")]));
    // invariants need an array
    assert!(is_syntax(vec![id("invariants"), p('='), paren(vec![id("x")])]));
    // sample size out of range
    assert!(is_syntax(vec![id("abi_probe_sample_size"), p('='), num("99999999999999999999999")]));
    // two commas in a row
    assert!(is_syntax(vec![id("entry"), p('='), st("x"), p(','), p(','), id("abi_probe"), p('='), id("true")]));
}

#[test]
fn attr_trailing_comma_in_array() {
    let m = ok(vec![
        id("invariants"),
        p('='),
        bracket(vec![id("a"), p('<'), num("3"), p(',')]),
        p(','),
    ]);
    assert_eq!(m.invariants.len(), 1);
}

#[test]
fn attr_plan_of_variants() {
    // versions = [("a.s", "sym_a", ["avx2"]), ("b.s",), ("c.s", other)]
    let m = ok(versions(vec![
        paren(vec![st("a.s"), p(','), st("sym_a"), p(','), bracket(vec![st("avx2")])]),
        p(','),
        paren(vec![st("b.s"), p(',')]),
        p(','),
        paren(vec![st("c.s"), p(','), id("other")]),
    ]));
    let vs = plan_variants(&m, "encode");
    assert_eq!(vs.len(), 3);
    assert_eq!(vs[0].symbol, "sym_a");
    assert_eq!(vs[0].features, vec!["avx2".to_string()]);
    assert_eq!(vs[1].symbol, "encode_v1");
    assert!(vs[1].features.is_empty());
    assert_eq!(vs[2].symbol, "encode_v2");
    assert_eq!(entry_label(&m, "encode"), "encode");
    assert_eq!(
        fallback_of(&m),
        Err("memsafe_multiversion: missing fallback identifier (e.g. fallback = my_rust_impl)".to_string())
    );
}

#[test]
fn attr_plan_with_entry_and_fallback() {
    let m = ok(vec![id("entry"), p('='), st("inner_start"), p(','), id("fallback"), p('='), id("slow_path")]);
    assert_eq!(entry_label(&m, "encode"), "inner_start");
    assert_eq!(fallback_of(&m), Ok("slow_path".to_string()));
    assert!(plan_variants(&m, "encode").is_empty());
}

#[test]
fn variant_failure_report_layout() {
    let program = vec!["f:".to_string(), "  ret".to_string()];
    let r = variant_failure_report("f.s", "out of bounds", &program, &vec![], &vec!["tbl: 0".to_string()]);
    assert_eq!(
        r,
        "variant f.s proof failure:\nout of bounds\n-- asm (first 200 lines) --\n    1: f:\n    2:   ret\n-- memory labels --\ntbl: 0\n"
    );
    let long: Vec<String> = (0..250).map(|i| format!("l{}", i)).collect();
    let r = variant_failure_report("g.s", "e", &long, &vec!["r".to_string()], &vec![]);
    assert!(r.contains("  200: l199\n"));
    assert!(!r.contains("l200"));
    assert!(r.ends_with("-- relocations --\nr\n"));
}
