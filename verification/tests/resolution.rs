use cdsym::config::PeEnvironment;
use cdsym::resolve::{
    AnalysisFunction, AnalysisMacroProfile, AnalysisReject, AnalysisResult, Profile,
    ResolveError, YamlProfile, YamlSymbol, is_valid_rva, merge_macros, resolve_and_merge,
    resolve_symbols,
};

fn func(rva: u64, symbol: &str) -> AnalysisFunction {
    AnalysisFunction { rva, symbol: symbol.to_owned(), ref_count: 0 }
}

fn reject(rva: u64, symbol: &str, ty: &str) -> AnalysisReject {
    AnalysisReject { rva, symbol: symbol.to_owned(), ty: ty.to_owned(), reason: String::new() }
}

fn analysis(
    functions: Vec<AnalysisFunction>,
    rejects: Vec<AnalysisReject>,
    macros: Vec<AnalysisMacroProfile>,
) -> AnalysisResult {
    AnalysisResult { environment: PeEnvironment::UserMode, functions, rejects, macros }
}

fn profile(name: &str, symbols: Vec<u64>) -> Profile<u32> {
    Profile { name: name.to_owned(), passes: vec![], compiler_settings: 7, symbols }
}

fn yaml_profile(name: &str, symbols: Vec<YamlSymbol>) -> YamlProfile<u32> {
    YamlProfile { name: name.to_owned(), passes: vec![], compiler_settings: 7, symbols }
}

#[test]
fn name_found_in_functions_resolves_to_its_address() {
    let a = analysis(vec![func(0x4000, "Init")], vec![], vec![]);
    let r = resolve_symbols(&vec![YamlSymbol::Name("Init".to_owned())], &a).unwrap();
    assert_eq!(r, vec![0x4000]);
}

#[test]
fn name_absent_from_functions_is_force_resolved_from_qualifying_reject() {
    let a = analysis(vec![], vec![reject(0x5000, "Hidden", "ReadWriteToCode")], vec![]);
    let r = resolve_symbols(&vec![YamlSymbol::Name("Hidden".to_owned())], &a).unwrap();
    assert_eq!(r, vec![0x5000]);
}

#[test]
fn name_absent_from_both_is_a_missing_symbol() {
    let a = analysis(vec![func(1, "other")], vec![reject(2, "Hidden", "BadControlFlow")], vec![]);
    let e = resolve_symbols(&vec![YamlSymbol::Name("Hidden".to_owned())], &a).unwrap_err();
    assert!(matches!(e, ResolveError::MissingSymbol(ref n) if n == "Hidden"));
}

#[test]
fn invalid_address_fails_and_produces_nothing() {
    let a = analysis(vec![func(0x1, "f")], vec![reject(0x2, "g", "ReadWriteToCode")], vec![]);
    let e = resolve_symbols(&vec![YamlSymbol::Rva(0x9999)], &a).unwrap_err();
    assert!(matches!(e, ResolveError::InvalidRva(0x9999)));
    let whole = resolve_and_merge(vec![yaml_profile("p", vec![YamlSymbol::Rva(0x9999)])], &a);
    assert!(whole.is_err());
}

#[test]
fn address_of_function_or_qualifying_reject_is_valid() {
    let a = analysis(vec![func(0x1, "f")], vec![
        reject(0x2, "g", "ReadWriteToCode"),
        reject(0x3, "h", "BadControlFlow"),
    ], vec![]);
    assert!(is_valid_rva(0x1, &a));
    assert!(is_valid_rva(0x2, &a));
    assert!(!is_valid_rva(0x3, &a));
    let r = resolve_symbols(&vec![YamlSymbol::Rva(0x1), YamlSymbol::Rva(0x2)], &a).unwrap();
    assert_eq!(r, vec![0x1, 0x2]);
    let e = resolve_symbols(&vec![YamlSymbol::Rva(0x3)], &a).unwrap_err();
    assert!(matches!(e, ResolveError::InvalidRva(0x3)));
}

#[test]
fn first_bad_reference_wins_and_order_is_kept() {
    let a = analysis(vec![func(0x10, "a"), func(0x20, "b")], vec![], vec![]);
    let r = resolve_symbols(
        &vec![
            YamlSymbol::Name("b".to_owned()),
            YamlSymbol::Rva(0x10),
            YamlSymbol::Name("a".to_owned()),
        ],
        &a,
    )
    .unwrap();
    assert_eq!(r, vec![0x20, 0x10, 0x10]);
    let e = resolve_symbols(
        &vec![YamlSymbol::Name("nope".to_owned()), YamlSymbol::Rva(0x9999)],
        &a,
    )
    .unwrap_err();
    assert!(matches!(e, ResolveError::MissingSymbol(_)));
}

#[test]
fn all_sentinel_has_no_resolution() {
    let a = analysis(vec![func(0x10, "a")], vec![], vec![]);
    let e = resolve_symbols(&vec![YamlSymbol::All], &a).unwrap_err();
    assert!(matches!(e, ResolveError::UnresolvableAll));
}

#[test]
fn macro_group_extends_matching_profile_in_order() {
    let a = analysis(vec![func(0x10, "f"), func(0x20, "g"), func(0x30, "h")], vec![], vec![
        AnalysisMacroProfile { name: "main".to_owned(), rvas: vec![0x30, 0x20] },
    ]);
    let merged = merge_macros(vec![profile("main", vec![0x10])], &a).unwrap();
    assert_eq!(merged.len(), 1);
    assert_eq!(merged[0].symbols, vec![0x10, 0x30, 0x20]);
    assert_eq!(merged[0].compiler_settings, 7);
}

#[test]
fn macro_addresses_are_not_deduplicated() {
    let a = analysis(vec![func(0x10, "f")], vec![], vec![
        AnalysisMacroProfile { name: "main".to_owned(), rvas: vec![0x10] },
    ]);
    let merged = merge_macros(vec![profile("main", vec![0x10])], &a).unwrap();
    assert_eq!(merged[0].symbols, vec![0x10, 0x10]);
}

#[test]
fn macro_naming_undefined_profile_fails_the_whole_call() {
    let a = analysis(vec![func(0x10, "f")], vec![], vec![
        AnalysisMacroProfile { name: "ghost".to_owned(), rvas: vec![0x10] },
    ]);
    let e = merge_macros(vec![profile("main", vec![])], &a).unwrap_err();
    assert!(matches!(e, ResolveError::UndefinedProfile(ref n) if n == "ghost"));
}

#[test]
fn one_invalid_macro_address_fails_the_whole_call() {
    let a = analysis(vec![func(0x10, "f"), func(0x20, "g")], vec![], vec![
        AnalysisMacroProfile { name: "main".to_owned(), rvas: vec![0x10, 0x9999, 0x20] },
    ]);
    let e = merge_macros(vec![profile("main", vec![])], &a).unwrap_err();
    assert!(matches!(e, ResolveError::InvalidRva(0x9999)));
}

#[test]
fn resolve_and_merge_runs_both_phases() {
    let a = analysis(
        vec![func(0x4000, "Init"), func(0x100, "x")],
        vec![reject(0x5000, "Hidden", "ReadWriteToCode")],
        vec![AnalysisMacroProfile { name: "hot".to_owned(), rvas: vec![0x100] }],
    );
    let profiles = vec![
        yaml_profile(
            "hot",
            vec![YamlSymbol::Name("Init".to_owned()), YamlSymbol::Name("Hidden".to_owned())],
        ),
        yaml_profile("cold", vec![]),
    ];
    let out = resolve_and_merge(profiles, &a).unwrap();
    assert_eq!(out.len(), 2);
    assert_eq!(out[0].name, "hot");
    assert_eq!(out[0].symbols, vec![0x4000, 0x5000, 0x100]);
    assert_eq!(out[1].name, "cold");
    assert_eq!(out[1].symbols, Vec::<u64>::new());
}

#[test]
fn error_messages_name_the_trigger() {
    let e = ResolveError::MissingSymbol("Foo".to_owned());
    assert_eq!(e.message(), "symbol not found in analysis result: Foo");
    let u = ResolveError::UndefinedProfile("p1".to_owned());
    assert_eq!(u.message(), "macro names a profile that is not defined in the config: p1");
    let a = ResolveError::InvalidRva(0x9999);
    assert_eq!(a.message(), "address not found in analysis: 0x9999");
    let b = ResolveError::InvalidRva(0x1A2B);
    assert_eq!(b.message(), "address not found in analysis: 0x1a2b");
}
