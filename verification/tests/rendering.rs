use cdsym::pdbio::{parse_pdb, parse_pdb_impl, render_procedures, render_publics};
use cdsym::symbols::{ProcedureDecl, PublicDecl};

#[test]
fn mangled_names_are_rendered() {
    let raw = vec![ProcedureDecl {
        address: 0x10,
        name: "?foo@@YAXXZ".to_owned(),
        noreturn: false,
    }];
    let rendered = render_procedures(&raw);
    assert_eq!(rendered.len(), 1);
    assert_eq!(rendered[0].address, 0x10);
    assert!(!rendered[0].noreturn);
    // The demangler really ran: the display form differs from the raw text
    // and carries the plain function name.
    assert_ne!(rendered[0].name, "?foo@@YAXXZ");
    assert!(rendered[0].name.contains("foo"));
}

#[test]
fn unmangled_names_pass_through() {
    let raw = vec![PublicDecl { address: 0x20, name: "plain_name".to_owned(), is_function: true }];
    let rendered = render_publics(&raw);
    assert_eq!(rendered.len(), 1);
    assert_eq!(rendered[0].name, "plain_name");
    assert!(rendered[0].is_function);
}

#[test]
fn unreadable_container_yields_no_table() {
    assert!(parse_pdb_impl(b"this is not a debug-info container").is_none());
    assert!(parse_pdb_impl(&[]).is_none());
}

#[test]
fn unreadable_container_yields_no_blob() {
    assert!(parse_pdb(b"garbage bytes").is_none());
}
