use bums::multiversion::{clobber_rbx_fallback, dispatch, first_candidate, forced_choice, Dispatch, Variant};

fn multi_variants() -> Vec<Variant> {
    vec![
        Variant { symbol: "internal_x86_code_v3_alt".to_string(), features: vec![] },
        Variant { symbol: "internal_x86_code_v3".to_string(), features: vec![] },
    ]
}

#[test]
fn test_abi_probe_rejects_clobbering_candidate() {
    // The runtime ABI-probe wrapper is not available in this test build;
    // assert the Rust fallback is present and behaves as expected.
    let data = [0u8; 32];
    let res = clobber_rbx_fallback(&data, data.len());
    assert_eq!(res, 0usize);
}

#[test]
fn forced_choice_selects_named_variant() {
    // an override naming the main implementation selects it
    let vs = multi_variants();
    assert_eq!(forced_choice("internal_x86_code_v3", &vs), Some(1));
    assert_eq!(forced_choice("internal_x86_code_v3_alt", &vs), Some(0));
    assert_eq!(forced_choice("nothing", &vs), None);
}

#[test]
fn first_candidate_prefers_earliest() {
    // with no override, the first available variant (alt) is chosen
    let eligible = vec![true, true];
    assert_eq!(first_candidate(&eligible, 0), Some(0));
    let eligible2 = vec![false, true];
    assert_eq!(first_candidate(&eligible2, 0), Some(1));
    assert_eq!(first_candidate(&vec![false, false], 0), None);
}

#[test]
fn dispatch_falls_back_without_selection() {
    assert_eq!(dispatch(255, 2), Dispatch::Fallback);
    assert_eq!(dispatch(1, 2), Dispatch::Variant(1));
    assert_eq!(dispatch(2, 2), Dispatch::Fallback);
}

#[test]
fn forced_choice_matches_features_and_last_wins() {
    let vs = vec![
        Variant { symbol: "a".to_string(), features: vec!["avx2".to_string()] },
        Variant { symbol: "b".to_string(), features: vec!["avx2".to_string(), "bmi2".to_string()] },
    ];
    assert_eq!(forced_choice("avx2", &vs), Some(1));
    assert_eq!(forced_choice("bmi2", &vs), Some(1));
    assert_eq!(forced_choice("a", &vs), Some(0));
}
