use cdsym::disamb::extract_symbols;
use cdsym::symbols::{DebugSymbolInfo, ProcedureDecl, PublicDecl, build_symbol_table};
use cdsym::text::{str_eq, str_lex_lt};

fn proc_decl(address: u32, name: &str, noreturn: bool) -> ProcedureDecl {
    ProcedureDecl { address, name: name.to_owned(), noreturn }
}

fn public_decl(address: u32, name: &str, is_function: bool) -> PublicDecl {
    PublicDecl { address, name: name.to_owned(), is_function }
}

fn names(out: &[DebugSymbolInfo]) -> Vec<String> {
    out.iter().map(|d| d.name.clone()).collect()
}

#[test]
fn single_procedure_symbol() {
    let out = extract_symbols(&vec![proc_decl(0x1000, "Foo", false)], &vec![]);
    assert_eq!(out.len(), 1);
    assert_eq!(out[0].address, 0x1000);
    assert_eq!(out[0].name, "Foo");
    assert!(!out[0].noreturn);
}

#[test]
fn same_address_keeps_smaller_name_and_ors_noreturn() {
    let out = extract_symbols(
        &vec![proc_decl(0x2000, "Zeta", false), proc_decl(0x2000, "Alpha", true)],
        &vec![],
    );
    assert_eq!(out.len(), 1);
    assert_eq!(out[0].address, 0x2000);
    assert_eq!(out[0].name, "Alpha");
    assert!(out[0].noreturn);
}

#[test]
fn same_address_noreturn_dominates_regardless_of_order() {
    let out = extract_symbols(
        &vec![proc_decl(0x2000, "Alpha", true), proc_decl(0x2000, "Zeta", false)],
        &vec![],
    );
    assert_eq!(out.len(), 1);
    assert_eq!(out[0].name, "Alpha");
    assert!(out[0].noreturn);
}

#[test]
fn duplicate_names_get_hex_suffixes() {
    let out = extract_symbols(
        &vec![proc_decl(0x100, "Dup", false), proc_decl(0x200, "Dup", false)],
        &vec![],
    );
    assert_eq!(out.len(), 2);
    let mut got = names(&out);
    got.sort();
    assert_eq!(got, vec!["Dup".to_owned(), "Dup_1".to_owned()]);
    let mut addrs: Vec<u32> = out.iter().map(|d| d.address).collect();
    addrs.sort();
    assert_eq!(addrs, vec![0x100, 0x200]);
}

#[test]
fn eleventh_duplicate_is_suffixed_in_hex() {
    let decls: Vec<ProcedureDecl> =
        (0..11u32).map(|i| proc_decl(0x100 + i, "f", false)).collect();
    let out = extract_symbols(&decls, &vec![]);
    assert_eq!(out.len(), 11);
    let got = names(&out);
    assert!(got.contains(&"f".to_owned()));
    assert!(got.contains(&"f_1".to_owned()));
    assert!(got.contains(&"f_9".to_owned()));
    assert!(got.contains(&"f_a".to_owned()));
    assert!(!got.contains(&"f_10".to_owned()));
}

#[test]
fn public_only_symbol_is_never_noreturn() {
    let out = extract_symbols(&vec![], &vec![public_decl(0x4000, "glob", true)]);
    assert_eq!(out.len(), 1);
    assert_eq!(out[0].address, 0x4000);
    assert_eq!(out[0].name, "glob");
    assert!(!out[0].noreturn);
}

#[test]
fn public_entry_never_changes_noreturn_but_may_rename() {
    let out = extract_symbols(
        &vec![proc_decl(0x3000, "mmm", true)],
        &vec![public_decl(0x3000, "aaa", true)],
    );
    assert_eq!(out.len(), 1);
    assert_eq!(out[0].name, "aaa");
    assert!(out[0].noreturn);
}

#[test]
fn public_non_function_contributes_nothing() {
    let out = extract_symbols(&vec![], &vec![public_decl(0x5000, "data", false)]);
    assert_eq!(out.len(), 0);
}

#[test]
fn arena_entries_are_deduplicated_by_address() {
    let arena = build_symbol_table(
        &vec![proc_decl(1, "a", false), proc_decl(1, "b", true), proc_decl(2, "c", false)],
        &vec![],
    );
    assert_eq!(arena.entries().len(), 2);
}

#[test]
fn lexicographic_order_on_strings() {
    assert!(str_lex_lt("Alpha", "Zeta"));
    assert!(!str_lex_lt("Zeta", "Alpha"));
    assert!(str_lex_lt("", "a"));
    assert!(str_lex_lt("ab", "b"));
    assert!(str_lex_lt("a", "ab"));
    assert!(!str_lex_lt("a", "a"));
    assert!(str_eq("same", "same"));
    assert!(!str_eq("same", "Same"));
}

#[test]
fn config_version_check() {
    assert!(cdsym::config::config_version_supported("1.0.6"));
    assert!(!cdsym::config::config_version_supported("1.0.5"));
    assert!(!cdsym::config::config_version_supported(""));
}

#[test]
fn suffix_never_collides_with_an_existing_name_text() {
    let out = extract_symbols(
        &vec![
            proc_decl(0x1, "m_1", false),
            proc_decl(0x2, "m", false),
            proc_decl(0x3, "m", false),
        ],
        &vec![],
    );
    // The third record's first suffix candidate `m_1` is already given out,
    // so it moves on to `m_2`.
    assert_eq!(names(&out), vec!["m_1".to_owned(), "m".to_owned(), "m_2".to_owned()]);
}

#[test]
fn bare_name_never_collides_with_a_given_out_suffix() {
    let out = extract_symbols(
        &vec![
            proc_decl(0x1, "m", false),
            proc_decl(0x2, "m", false),
            proc_decl(0x3, "m_1", false),
        ],
        &vec![],
    );
    // `m_1` was already given out as a suffixed form, so the record whose own
    // text is `m_1` is itself suffixed.
    assert_eq!(names(&out), vec!["m".to_owned(), "m_1".to_owned(), "m_1_1".to_owned()]);
}
