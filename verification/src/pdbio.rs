//! Extraction of symbol declarations from a debug-info container, and the
//! full extraction pipeline: container bytes in, canonical symbol table out.
//!
//! The container parsing itself and the name rendering are outside
//! capabilities; the merging, disambiguation and encoding around them are
//! verified.

use vstd::prelude::*;

use pdb::FallibleIterator;

use crate::codec::{compress_of, decompress_of, encode_symbols, serialized};
use crate::disamb::{
    disamb_fold, disambiguate, lemma_disamb_names_unique, lemma_disamb_preserves_structure,
};
use crate::symbols::{
    DebugSymbolInfo, ProcedureDecl, PublicDecl, PublicRec, SymRec, build_symbol_table,
    names_unique, procs_view, pubs_view, spec_build_table, table_wf,
};

verus! {

#[verifier::external_type_specification]
#[verifier::external_body]
#[verifier::reject_recursive_types(S)]
pub struct ExPDB<'s, S>(pdb::PDB<'s, S>);

#[verifier::external_type_specification]
#[verifier::external_body]
pub struct ExPdbError(pdb::Error);

#[verifier::external_type_specification]
#[verifier::external_body]
#[verifier::reject_recursive_types(T)]
pub struct ExCursor<T>(std::io::Cursor<T>);

#[verifier::external_type_specification]
#[verifier::external_body]
pub struct ExAddressMap<'s>(pdb::AddressMap<'s>);

#[verifier::external_type_specification]
#[verifier::external_body]
pub struct ExDebugInformation<'s>(pdb::DebugInformation<'s>);

#[verifier::external_type_specification]
#[verifier::external_body]
pub struct ExModuleIter<'m>(pdb::ModuleIter<'m>);

#[verifier::external_type_specification]
#[verifier::external_body]
pub struct ExModule<'m>(pdb::Module<'m>);

#[verifier::external_type_specification]
#[verifier::external_body]
pub struct ExModuleInfo<'s>(pdb::ModuleInfo<'s>);

#[verifier::external_type_specification]
#[verifier::external_body]
pub struct ExSymbolTable<'s>(pdb::SymbolTable<'s>);

#[verifier::external_type_specification]
#[verifier::external_body]
pub struct ExSymbolIter<'t>(pdb::SymbolIter<'t>);

#[verifier::external_type_specification]
#[verifier::external_body]
pub struct ExSymbol<'t>(pdb::Symbol<'t>);

/// Whether the container's stream table reads: success of the open depends
/// on the byte source alone.
pub uninterp spec fn container_opens(bytes: Seq<u8>) -> bool;

/// Relies on `pdb::PDB::open`: reads the container's stream table from an
/// in-memory byte source; whether that succeeds is a function of the bytes
/// alone.
#[verifier::external_body]
fn open_pdb<'s>(bytes: &'s [u8]) -> (r: Result<
    pdb::PDB<'s, std::io::Cursor<&'s [u8]>>,
    pdb::Error,
>)
    ensures
        r is Ok <==> container_opens(bytes@),
{
    pdb::PDB::open(std::io::Cursor::new(bytes))
}

/// Relies on `pdb::PDB::address_map`: the capability translating internal
/// section offsets to addresses.
#[verifier::external_body]
fn pdb_address_map<'s>(p: &mut pdb::PDB<'s, std::io::Cursor<&'s [u8]>>) -> Result<
    pdb::AddressMap<'s>,
    pdb::Error,
> {
    p.address_map()
}

/// Relies on `pdb::PDB::debug_information`: the module directory stream.
#[verifier::external_body]
fn pdb_debug_information<'s>(p: &mut pdb::PDB<'s, std::io::Cursor<&'s [u8]>>) -> Result<
    pdb::DebugInformation<'s>,
    pdb::Error,
> {
    p.debug_information()
}

/// Relies on `pdb::PDB::global_symbols`: the public/global symbol stream.
#[verifier::external_body]
fn pdb_global_symbols<'s>(p: &mut pdb::PDB<'s, std::io::Cursor<&'s [u8]>>) -> Result<
    pdb::SymbolTable<'s>,
    pdb::Error,
> {
    p.global_symbols()
}

/// Relies on `pdb::DebugInformation::modules`: iterator over the modules.
#[verifier::external_body]
fn di_modules<'a>(di: &'a pdb::DebugInformation) -> Result<pdb::ModuleIter<'a>, pdb::Error> {
    di.modules()
}

/// Relies on `pdb::ModuleIter::next`: the next module, with an iteration
/// error treated as the end of the stream.
#[verifier::external_body]
fn next_module<'m>(it: &mut pdb::ModuleIter<'m>) -> Option<pdb::Module<'m>> {
    match it.next() {
        Ok(m) => m,
        Err(_) => None,
    }
}

/// Relies on `pdb::PDB::module_info`: the per-module symbol information.
#[verifier::external_body]
fn pdb_module_info<'s, 'm>(
    p: &mut pdb::PDB<'s, std::io::Cursor<&'s [u8]>>,
    m: &pdb::Module<'m>,
) -> Result<Option<pdb::ModuleInfo<'s>>, pdb::Error> {
    p.module_info(m)
}

/// Relies on `pdb::ModuleInfo::symbols`: iterator over a module's symbols.
#[verifier::external_body]
fn mi_symbols<'a>(mi: &'a pdb::ModuleInfo) -> Result<pdb::SymbolIter<'a>, pdb::Error> {
    mi.symbols()
}

/// Relies on `pdb::SymbolTable::iter`: iterator over the global symbols.
#[verifier::external_body]
fn st_iter<'a>(st: &'a pdb::SymbolTable) -> pdb::SymbolIter<'a> {
    st.iter()
}

/// Relies on `pdb::SymbolIter::next`: the next symbol, with an iteration
/// error treated as the end of the stream.
#[verifier::external_body]
fn next_symbol<'t>(it: &mut pdb::SymbolIter<'t>) -> Option<pdb::Symbol<'t>> {
    match it.next() {
        Ok(s) => s,
        Err(_) => None,
    }
}

/// Relies on `pdb::Symbol::parse` and `PdbInternalSectionOffset::to_rva`:
/// hands out a procedure symbol's raw name, resolved address and
/// never-returns flag; anything else, or an unmappable address, is skipped.
#[verifier::external_body]
fn parse_procedure(sym: &pdb::Symbol, map: &pdb::AddressMap) -> Option<ProcedureDecl> {
    match sym.parse() {
        Ok(pdb::SymbolData::Procedure(data)) => match data.offset.to_rva(map) {
            Some(rva) => Some(
                ProcedureDecl {
                    address: rva.0,
                    name: data.name.to_string().to_string(),
                    noreturn: data.flags.never,
                },
            ),
            None => None,
        },
        _ => None,
    }
}

/// Relies on `pdb::Symbol::parse` and `PdbInternalSectionOffset::to_rva`:
/// hands out a public symbol's raw name, resolved address and is-function
/// flag; anything else, or an unmappable address, is skipped.
#[verifier::external_body]
fn parse_public(sym: &pdb::Symbol, map: &pdb::AddressMap) -> Option<PublicDecl> {
    match sym.parse() {
        Ok(pdb::SymbolData::Public(data)) => match data.offset.to_rva(map) {
            Some(rva) => Some(
                PublicDecl {
                    address: rva.0,
                    name: data.name.to_string().to_string(),
                    is_function: data.function,
                },
            ),
            None => None,
        },
        _ => None,
    }
}

/// What the name-rendering capability produces for a raw symbol name. The
/// rendering depends on the raw text alone.
pub uninterp spec fn rendered_of(raw: Seq<char>) -> Seq<char>;

/// Procedure declarations with every raw name replaced by its rendering.
pub open spec fn rendered_procs(s: Seq<SymRec>) -> Seq<SymRec> {
    s.map_values(
        |r: SymRec| SymRec { address: r.address, name: rendered_of(r.name), noreturn: r.noreturn },
    )
}

/// Public declarations with every raw name replaced by its rendering.
pub open spec fn rendered_pubs(s: Seq<PublicRec>) -> Seq<PublicRec> {
    s.map_values(
        |r: PublicRec| PublicRec {
            address: r.address,
            name: rendered_of(r.name),
            is_function: r.is_function,
        },
    )
}

/// The whole extraction on given raw declaration lists: render every name,
/// build the deduplicated table from both sources, disambiguate.
pub open spec fn spec_extract(procs: Seq<SymRec>, pubs: Seq<PublicRec>) -> Seq<SymRec> {
    disamb_fold(Set::empty(), spec_build_table(rendered_procs(procs), rendered_pubs(pubs)))
}

/// Relies on symbolic_demangle's `try_demangle` with complete options: the
/// rendered display form of a symbol name is a pure function of the raw name
/// text (the raw text itself where no demangling applies), and the call
/// always returns a string.
#[verifier::external_body]
fn render_name(raw: &str) -> (r: String)
    ensures
        r@ == rendered_of(raw@),
{
    let name = symbolic_common::Name::from(raw);
    let rendered = symbolic_demangle::Demangle::try_demangle(
        &name,
        symbolic_demangle::DemangleOptions::complete(),
    );
    rendered.into_owned()
}

/// Renders every procedure declaration's raw name to its display form,
/// leaving addresses and flags untouched.
pub fn render_procedures(raw: &Vec<ProcedureDecl>) -> (r: Vec<ProcedureDecl>)
    ensures
        r@.len() == raw@.len(),
        forall|i: int|
            0 <= i < raw@.len() ==> (#[trigger] r@[i]).address == raw@[i].address && r@[i].noreturn
                == raw@[i].noreturn && r@[i].name@ == rendered_of(raw@[i].name@),
{
    let n = raw.len();
    let mut out: Vec<ProcedureDecl> = Vec::new();
    let mut i: usize = 0;
    while i < n
        invariant
            i <= n,
            n == raw@.len(),
            out@.len() == i,
            forall|l: int|
                0 <= l < i ==> (#[trigger] out@[l]).address == raw@[l].address && out@[l].noreturn
                    == raw@[l].noreturn && out@[l].name@ == rendered_of(raw@[l].name@),
        decreases n - i,
    {
        let d = &raw[i];
        out.push(
            ProcedureDecl {
                address: d.address,
                name: render_name(d.name.as_str()),
                noreturn: d.noreturn,
            },
        );
        i = i + 1;
    }
    out
}

/// Renders every public declaration's raw name to its display form, leaving
/// addresses and flags untouched.
pub fn render_publics(raw: &Vec<PublicDecl>) -> (r: Vec<PublicDecl>)
    ensures
        r@.len() == raw@.len(),
        forall|i: int|
            0 <= i < raw@.len() ==> (#[trigger] r@[i]).address == raw@[i].address
                && r@[i].is_function == raw@[i].is_function && r@[i].name@ == rendered_of(
                raw@[i].name@,
            ),
{
    let n = raw.len();
    let mut out: Vec<PublicDecl> = Vec::new();
    let mut i: usize = 0;
    while i < n
        invariant
            i <= n,
            n == raw@.len(),
            out@.len() == i,
            forall|l: int|
                0 <= l < i ==> (#[trigger] out@[l]).address == raw@[l].address
                    && out@[l].is_function == raw@[l].is_function && out@[l].name@ == rendered_of(
                    raw@[l].name@,
                ),
        decreases n - i,
    {
        let d = &raw[i];
        out.push(
            PublicDecl {
                address: d.address,
                name: render_name(d.name.as_str()),
                is_function: d.is_function,
            },
        );
        i = i + 1;
    }
    out
}

/// Extracts the canonical symbol table from a debug-info container: walks
/// the per-module procedure symbols and, best-effort, the public table;
/// renders names; merges by address; disambiguates names. A container that
/// cannot be opened or walked yields no table; a failed public-table fetch
/// is an empty contribution only. Addresses in the result are unique.
pub fn parse_pdb_impl(pdb_bytes: &[u8]) -> (r: Option<Vec<DebugSymbolInfo>>)
    ensures
        !container_opens(pdb_bytes@) ==> r is None,
        r matches Some(v) ==> table_wf(v@.map_values(|d: DebugSymbolInfo| d@)),
        r matches Some(v) ==> names_unique(v@.map_values(|d: DebugSymbolInfo| d@)),
        r matches Some(v) ==> exists|procs: Seq<SymRec>, pubs: Seq<PublicRec>|
            v@.map_values(|d: DebugSymbolInfo| d@) == #[trigger] spec_extract(procs, pubs),
{
    let mut container = match open_pdb(pdb_bytes) {
        Ok(p) => p,
        Err(_) => {
            return None;
        },
    };
    let address_map = match pdb_address_map(&mut container) {
        Ok(m) => m,
        Err(_) => {
            return None;
        },
    };
    let debug_info = match pdb_debug_information(&mut container) {
        Ok(d) => d,
        Err(_) => {
            return None;
        },
    };
    let mut procs_raw: Vec<ProcedureDecl> = Vec::new();
    let mut modules = match di_modules(&debug_info) {
        Ok(m) => m,
        Err(_) => {
            return None;
        },
    };
    // The iterators are opaque, so iteration is bounded by the container
    // size; no well-formed stream holds more entries than it has bytes.
    let mut module_fuel: usize = pdb_bytes.len();
    while module_fuel > 0
        decreases module_fuel,
    {
        module_fuel = module_fuel - 1;
        let module = match next_module(&mut modules) {
            Some(m) => m,
            None => {
                break ;
            },
        };
        let info = match pdb_module_info(&mut container, &module) {
            Ok(Some(i)) => i,
            Ok(None) => {
                continue ;
            },
            Err(_) => {
                return None;
            },
        };
        let mut symbols = match mi_symbols(&info) {
            Ok(s) => s,
            Err(_) => {
                return None;
            },
        };
        let mut symbol_fuel: usize = pdb_bytes.len();
        while symbol_fuel > 0
            decreases symbol_fuel,
        {
            symbol_fuel = symbol_fuel - 1;
            let sym = match next_symbol(&mut symbols) {
                Some(s) => s,
                None => {
                    break ;
                },
            };
            match parse_procedure(&sym, &address_map) {
                Some(d) => {
                    procs_raw.push(d);
                },
                None => {},
            }
        }
    }
    // The public/global table is best-effort: for stripped containers a
    // failure here contributes nothing instead of failing the extraction.
    let mut pubs_raw: Vec<PublicDecl> = Vec::new();
    match pdb_global_symbols(&mut container) {
        Ok(st) => {
            let mut it = st_iter(&st);
            let mut public_fuel: usize = pdb_bytes.len();
            while public_fuel > 0
                decreases public_fuel,
            {
                public_fuel = public_fuel - 1;
                let sym = match next_symbol(&mut it) {
                    Some(s) => s,
                    None => {
                        break ;
                    },
                };
                match parse_public(&sym, &address_map) {
                    Some(d) => {
                        pubs_raw.push(d);
                    },
                    None => {},
                }
            }
        },
        Err(_) => {},
    }
    let procedures = render_procedures(&procs_raw);
    let publics = render_publics(&pubs_raw);
    let table = build_symbol_table(&procedures, &publics);
    let out = disambiguate(&table);
    proof {
        lemma_disamb_preserves_structure(Set::empty(), table@);
        lemma_disamb_names_unique(Set::empty(), table@);
        let ov = out@.map_values(|d: DebugSymbolInfo| d@);
        assert(forall|i: int| 0 <= i < out@.len() ==> #[trigger] ov[i] == out@[i]@);
        assert(table_wf(ov)) by {
            assert forall|i: int, j: int| 0 <= i < j < ov.len() implies ov[i].address
                != ov[j].address by {
                assert(ov[i].address == table@[i].address && ov[j].address == table@[j].address);
            }
        }
        assert(names_unique(ov));
        let procs0 = procs_view(procs_raw@);
        let pubs0 = pubs_view(pubs_raw@);
        assert(procs_view(procedures@) =~= rendered_procs(procs0)) by {
            assert forall|i: int| 0 <= i < procedures@.len() implies #[trigger] procs_view(
                procedures@,
            )[i] == rendered_procs(procs0)[i] by {
                assert(procs_view(procedures@)[i] == procedures@[i]@);
                assert(procs0[i] == procs_raw@[i]@);
            }
        }
        assert(pubs_view(publics@) =~= rendered_pubs(pubs0)) by {
            assert forall|i: int| 0 <= i < publics@.len() implies #[trigger] pubs_view(
                publics@,
            )[i] == rendered_pubs(pubs0)[i] by {
                assert(pubs_view(publics@)[i] == publics@[i]@);
                assert(pubs0[i] == pubs_raw@[i]@);
            }
        }
        assert(ov == spec_extract(procs0, pubs0));
    }
    Some(out)
}

/// The full transport pipeline: extract the canonical table from the
/// container bytes, serialize it, and compress it. Failure at any stage
/// collapses to an absent result with no distinguishing diagnostic. A blob,
/// where one comes out, is exactly the compressed serialization of an
/// extracted table with unique addresses and unique names.
pub fn parse_pdb(pdb_bytes: &[u8]) -> (r: Option<Vec<u8>>)
    ensures
        !container_opens(pdb_bytes@) ==> r is None,
        r matches Some(blob) ==> exists|t: Seq<SymRec>|
            {
                &&& Some(blob@) == compress_of(serialized(t))
                &&& decompress_of(blob@) == Some(#[trigger] serialized(t))
                &&& table_wf(t)
                &&& names_unique(t)
                &&& exists|procs: Seq<SymRec>, pubs: Seq<PublicRec>| t == #[trigger] spec_extract(
                    procs,
                    pubs,
                )
            },
{
    match parse_pdb_impl(pdb_bytes) {
        Some(funcs) => {
            let blob = encode_symbols(&funcs);
            proof {
                match &blob {
                    Some(b) => {
                        let t = funcs@.map_values(|d: DebugSymbolInfo| d@);
                        assert(Some(b@) == compress_of(serialized(t)));
                        assert(decompress_of(b@) == Some(serialized(t)));
                        assert(table_wf(t) && names_unique(t));
                    },
                    None => {},
                }
            }
            blob
        },
        None => None,
    }
}

} // verus!
