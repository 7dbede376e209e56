//! Symbol resolution: mapping configured symbol references and server-reported
//! macro groupings to validated per-profile address lists, all or nothing.

use vstd::prelude::*;

use crate::config::{DisassemblySettings, ModuleSettings, ObfuscationPass, PeEnvironment};
use crate::text::{append_hex_u64, hex_seq, str_eq};

verus! {

/// Information about a single function found during analysis.
#[derive(Debug, Clone)]
pub struct AnalysisFunction {
    /// Address of the function.
    pub rva: u64,
    /// Function name.
    pub symbol: String,
    /// Number of references to this function.
    pub ref_count: usize,
}

/// Why a function was declined by the analyzer.
#[derive(Debug, Clone)]
pub struct AnalysisReject {
    /// Address of the rejected function.
    pub rva: u64,
    /// Symbol name.
    pub symbol: String,
    /// Machine-readable reason tag.
    pub ty: String,
    /// Human-readable reason.
    pub reason: String,
}

/// Grouping of addresses under a named macro profile.
#[derive(Debug, Clone)]
pub struct AnalysisMacroProfile {
    /// Name of the profile the group belongs to.
    pub name: String,
    /// Addresses in this group.
    pub rvas: Vec<u64>,
}

/// Mathematical model of a macro group.
pub struct MacroRec {
    pub name: Seq<char>,
    pub rvas: Seq<u64>,
}

impl View for AnalysisMacroProfile {
    type V = MacroRec;

    open spec fn view(&self) -> MacroRec {
        MacroRec { name: self.name@, rvas: self.rvas@ }
    }
}

/// Results from one binary analysis run.
#[derive(Debug, Clone)]
pub struct AnalysisResult {
    /// Environment type of the analyzed module.
    pub environment: PeEnvironment,
    /// Functions found and accepted during analysis.
    pub functions: Vec<AnalysisFunction>,
    /// Rejected functions and reasons.
    pub rejects: Vec<AnalysisReject>,
    /// Macro profiles derived from the analysis.
    pub macros: Vec<AnalysisMacroProfile>,
}

/// A configured symbol reference: by name, by address, or the all sentinel.
#[derive(Debug, Clone)]
pub enum YamlSymbol {
    /// A symbol name.
    Name(String),
    /// A symbol address.
    Rva(u64),
    /// All symbols; no resolution behavior is defined for this reference.
    All,
}

/// Mathematical model of a resolution failure.
pub enum ErrRec {
    MissingSymbol(Seq<char>),
    InvalidRva(u64),
    UndefinedProfile(Seq<char>),
    UnresolvableAll,
}

/// Why resolution failed; each failure names what triggered it, so that the
/// operator can mend the configuration.
#[derive(Debug, Clone)]
pub enum ResolveError {
    /// A by-name reference matched neither an accepted function nor a
    /// qualifying reject.
    MissingSymbol(String),
    /// A by-address reference or a macro-supplied address matched no accepted
    /// function and no qualifying reject.
    InvalidRva(u64),
    /// A macro group named a profile absent from the configuration.
    UndefinedProfile(String),
    /// The all-symbols sentinel was referenced; it has no defined resolution.
    UnresolvableAll,
}

impl View for ResolveError {
    type V = ErrRec;

    open spec fn view(&self) -> ErrRec {
        match self {
            ResolveError::MissingSymbol(n) => ErrRec::MissingSymbol(n@),
            ResolveError::InvalidRva(rva) => ErrRec::InvalidRva(*rva),
            ResolveError::UndefinedProfile(n) => ErrRec::UndefinedProfile(n@),
            ResolveError::UnresolvableAll => ErrRec::UnresolvableAll,
        }
    }
}

impl ResolveError {
    /// A short description of the failure, naming what triggered it.
    pub fn message(&self) -> (r: String)
        ensures
            match self {
                ResolveError::MissingSymbol(n) => r@ == "symbol not found in analysis result: "@
                    + n@,
                ResolveError::InvalidRva(rva) => r@ == "address not found in analysis: 0x"@
                    + hex_seq(*rva as nat),
                ResolveError::UndefinedProfile(n) => r@
                    == "macro names a profile that is not defined in the config: "@ + n@,
                ResolveError::UnresolvableAll => r@
                    == "the all-symbols reference has no defined resolution"@,
            },
    {
        match self {
            ResolveError::MissingSymbol(n) => {
                let mut m = String::from_str("symbol not found in analysis result: ");
                m.append(n.as_str());
                m
            },
            ResolveError::InvalidRva(rva) => {
                let mut m = String::from_str("address not found in analysis: 0x");
                append_hex_u64(&mut m, *rva);
                m
            },
            ResolveError::UndefinedProfile(n) => {
                let mut m = String::from_str(
                    "macro names a profile that is not defined in the config: ",
                );
                m.append(n.as_str());
                m
            },
            ResolveError::UnresolvableAll => String::from_str(
                "the all-symbols reference has no defined resolution",
            ),
        }
    }
}

/// The reject reason tag that may be force-resolved: a function declined only
/// because it reads or writes its own code.
pub open spec fn rwc_tag() -> Seq<char> {
    "ReadWriteToCode"@
}

/// The first accepted function carrying the name, by address.
pub open spec fn spec_find_function(fns: Seq<AnalysisFunction>, name: Seq<char>) -> Option<u64>
    decreases fns.len(),
{
    if fns.len() == 0 {
        None
    } else if fns[0].symbol@ == name {
        Some(fns[0].rva)
    } else {
        spec_find_function(fns.drop_first(), name)
    }
}

/// The first qualifying (read-write-to-code) reject carrying the name.
pub open spec fn spec_find_reject(rejects: Seq<AnalysisReject>, name: Seq<char>) -> Option<u64>
    decreases rejects.len(),
{
    if rejects.len() == 0 {
        None
    } else if rejects[0].symbol@ == name && rejects[0].ty@ == rwc_tag() {
        Some(rejects[0].rva)
    } else {
        spec_find_reject(rejects.drop_first(), name)
    }
}

/// The validity rule: an address may be targeted iff an accepted function
/// carries it, or a reject of kind read-write-to-code carries it.
pub open spec fn spec_is_valid_rva(a: AnalysisResult, rva: u64) -> bool {
    (exists|i: int| 0 <= i < a.functions@.len() && a.functions@[i].rva == rva) || (exists|j: int|
        0 <= j < a.rejects@.len() && a.rejects@[j].rva == rva && a.rejects@[j].ty@ == rwc_tag())
}

/// What a single configured reference resolves to.
pub open spec fn spec_resolve_ref(sym: YamlSymbol, a: AnalysisResult) -> Result<u64, ErrRec> {
    match sym {
        YamlSymbol::Name(n) => match spec_find_function(a.functions@, n@) {
            Some(rva) => Ok(rva),
            None => match spec_find_reject(a.rejects@, n@) {
                Some(rva) => Ok(rva),
                None => Err(ErrRec::MissingSymbol(n@)),
            },
        },
        YamlSymbol::Rva(rva) => if spec_is_valid_rva(a, rva) {
            Ok(rva)
        } else {
            Err(ErrRec::InvalidRva(rva))
        },
        YamlSymbol::All => Err(ErrRec::UnresolvableAll),
    }
}

/// In-order resolution of a reference list: one address per reference, and
/// the first unresolvable reference fails the whole list.
pub open spec fn spec_resolve_symbols(syms: Seq<YamlSymbol>, a: AnalysisResult) -> Result<
    Seq<u64>,
    ErrRec,
>
    decreases syms.len(),
{
    if syms.len() == 0 {
        Ok(Seq::empty())
    } else {
        match spec_resolve_ref(syms[0], a) {
            Ok(rva) => match spec_resolve_symbols(syms.drop_first(), a) {
                Ok(rest) => Ok(seq![rva] + rest),
                Err(e) => Err(e),
            },
            Err(e) => Err(e),
        }
    }
}

/// Finds the first accepted function carrying the name.
fn find_function(functions: &Vec<AnalysisFunction>, name: &String) -> (r: Option<u64>)
    ensures
        r == spec_find_function(functions@, name@),
{
    let n = functions.len();
    let mut i: usize = 0;
    proof {
        assert(functions@.skip(0) =~= functions@);
    }
    while i < n
        invariant
            i <= n,
            n == functions@.len(),
            spec_find_function(functions@, name@) == spec_find_function(
                functions@.skip(i as int),
                name@,
            ),
        decreases n - i,
    {
        proof {
            assert(functions@.skip(i as int)[0] == functions@[i as int]);
            assert(functions@.skip(i as int).drop_first() =~= functions@.skip(i as int + 1));
        }
        if str_eq(functions[i].symbol.as_str(), name.as_str()) {
            return Some(functions[i].rva);
        }
        i = i + 1;
    }
    None
}

/// Finds the first qualifying reject carrying the name.
fn find_reject(rejects: &Vec<AnalysisReject>, name: &String) -> (r: Option<u64>)
    ensures
        r == spec_find_reject(rejects@, name@),
{
    let n = rejects.len();
    let mut i: usize = 0;
    proof {
        assert(rejects@.skip(0) =~= rejects@);
    }
    while i < n
        invariant
            i <= n,
            n == rejects@.len(),
            spec_find_reject(rejects@, name@) == spec_find_reject(rejects@.skip(i as int), name@),
        decreases n - i,
    {
        proof {
            assert(rejects@.skip(i as int)[0] == rejects@[i as int]);
            assert(rejects@.skip(i as int).drop_first() =~= rejects@.skip(i as int + 1));
        }
        if str_eq(rejects[i].symbol.as_str(), name.as_str()) && str_eq(
            rejects[i].ty.as_str(),
            "ReadWriteToCode",
        ) {
            return Some(rejects[i].rva);
        }
        i = i + 1;
    }
    None
}

/// Decides the validity rule for one address.
pub fn is_valid_rva(rva: u64, analysis: &AnalysisResult) -> (r: bool)
    ensures
        r == spec_is_valid_rva(*analysis, rva),
{
    let nf = analysis.functions.len();
    let mut i: usize = 0;
    while i < nf
        invariant
            i <= nf,
            nf == analysis.functions@.len(),
            forall|j: int| 0 <= j < i ==> analysis.functions@[j].rva != rva,
        decreases nf - i,
    {
        if analysis.functions[i].rva == rva {
            return true;
        }
        i = i + 1;
    }
    let nr = analysis.rejects.len();
    let mut k: usize = 0;
    while k < nr
        invariant
            k <= nr,
            nr == analysis.rejects@.len(),
            forall|j: int| 0 <= j < analysis.functions@.len() ==> analysis.functions@[j].rva != rva,
            forall|j: int|
                0 <= j < k ==> !(analysis.rejects@[j].rva == rva && analysis.rejects@[j].ty@
                    == rwc_tag()),
        decreases nr - k,
    {
        if analysis.rejects[k].rva == rva && str_eq(
            analysis.rejects[k].ty.as_str(),
            "ReadWriteToCode",
        ) {
            return true;
        }
        k = k + 1;
    }
    false
}

/// Resolves symbol references to addresses, in configuration order. A name
/// is looked up among the accepted functions, then force-resolved among the
/// read-write-to-code rejects; an address must satisfy the validity rule.
/// The first unresolvable reference fails the whole call.
pub fn resolve_symbols(symbols: &Vec<YamlSymbol>, analysis: &AnalysisResult) -> (r: Result<
    Vec<u64>,
    ResolveError,
>)
    ensures
        match r {
            Ok(v) => spec_resolve_symbols(symbols@, *analysis) == Ok::<Seq<u64>, ErrRec>(v@),
            Err(e) => spec_resolve_symbols(symbols@, *analysis) == Err::<Seq<u64>, ErrRec>(e@),
        },
{
    let n = symbols.len();
    let mut resolved: Vec<u64> = Vec::new();
    let mut i: usize = 0;
    proof {
        assert(symbols@.skip(0) =~= symbols@);
        assert(resolved@ =~= Seq::<u64>::empty());
    }
    while i < n
        invariant
            i <= n,
            n == symbols@.len(),
            spec_resolve_symbols(symbols@, *analysis) == match spec_resolve_symbols(
                symbols@.skip(i as int),
                *analysis,
            ) {
                Ok(rest) => Ok::<Seq<u64>, ErrRec>(resolved@ + rest),
                Err(e) => Err::<Seq<u64>, ErrRec>(e),
            },
        decreases n - i,
    {
        let ghost res0 = resolved@;
        proof {
            assert(symbols@.skip(i as int)[0] == symbols@[i as int]);
            assert(symbols@.skip(i as int).drop_first() =~= symbols@.skip(i as int + 1));
        }
        let rva: u64 = match &symbols[i] {
            YamlSymbol::Name(name) => {
                match find_function(&analysis.functions, name) {
                    Some(rva) => rva,
                    None => {
                        match find_reject(&analysis.rejects, name) {
                            Some(rva) => rva,
                            None => {
                                return Err(ResolveError::MissingSymbol(name.clone()));
                            },
                        }
                    },
                }
            },
            YamlSymbol::Rva(rva) => {
                if !is_valid_rva(*rva, analysis) {
                    return Err(ResolveError::InvalidRva(*rva));
                }
                *rva
            },
            YamlSymbol::All => {
                return Err(ResolveError::UnresolvableAll);
            },
        };
        resolved.push(rva);
        proof {
            assert(spec_resolve_ref(symbols@[i as int], *analysis) == Ok::<u64, ErrRec>(rva));
            let tail = spec_resolve_symbols(symbols@.skip(i as int + 1), *analysis);
            match tail {
                Ok(rest) => {
                    assert(res0 + (seq![rva] + rest) =~= res0.push(rva) + rest);
                },
                Err(_) => {},
            }
        }
        i = i + 1;
    }
    proof {
        assert(symbols@.skip(n as int) =~= Seq::<YamlSymbol>::empty());
        assert(resolved@ + Seq::<u64>::empty() =~= resolved@);
    }
    Ok(resolved)
}

/// The by-name search finds a function iff one carries the name, and then
/// returns the first one's address.
pub proof fn lemma_find_function_characterization(fns: Seq<AnalysisFunction>, name: Seq<char>)
    ensures
        spec_find_function(fns, name) is None <==> forall|i: int|
            0 <= i < fns.len() ==> (#[trigger] fns[i]).symbol@ != name,
        spec_find_function(fns, name) matches Some(rva) ==> exists|i: int|
            0 <= i < fns.len() && fns[i].symbol@ == name && fns[i].rva == rva && (forall|j: int|
                0 <= j < i ==> (#[trigger] fns[j]).symbol@ != name),
    decreases fns.len(),
{
    if fns.len() > 0 {
        lemma_find_function_characterization(fns.drop_first(), name);
        if fns[0].symbol@ == name {
            assert(spec_find_function(fns, name) == Some(fns[0].rva));
            assert(fns[0].symbol@ == name && fns[0].rva == fns[0].rva && (forall|j: int|
                0 <= j < 0 ==> (#[trigger] fns[j]).symbol@ != name));
        } else {
            if spec_find_function(fns.drop_first(), name) is None {
                assert forall|i: int| 0 <= i < fns.len() implies (#[trigger] fns[i]).symbol@
                    != name by {
                    if i > 0 {
                        assert(fns.drop_first()[i - 1] == fns[i]);
                    }
                }
            } else {
                let rva = spec_find_function(fns.drop_first(), name)->Some_0;
                let i = choose|i: int|
                    0 <= i < fns.drop_first().len() && fns.drop_first()[i].symbol@ == name
                        && fns.drop_first()[i].rva == rva && (forall|j: int|
                        0 <= j < i ==> (#[trigger] fns.drop_first()[j]).symbol@ != name);
                assert(fns.drop_first()[i] == fns[i + 1]);
                assert forall|j: int| 0 <= j < i + 1 implies (#[trigger] fns[j]).symbol@
                    != name by {
                    if j > 0 {
                        assert(fns.drop_first()[j - 1] == fns[j]);
                    }
                }
                assert(0 <= i + 1 < fns.len() && fns[i + 1].symbol@ == name && fns[i + 1].rva
                    == rva && (forall|j: int| 0 <= j < i + 1 ==> (#[trigger] fns[j]).symbol@ != name));
            }
        }
        if spec_find_function(fns, name) is None {
            assert(fns[0].symbol@ != name);
            assert forall|i: int| 0 <= i < fns.len() implies (#[trigger] fns[i]).symbol@
                != name by {
                if i > 0 {
                    assert(fns.drop_first()[i - 1] == fns[i]);
                }
            }
        }
    }
}

/// Law: a by-name reference present among the accepted functions resolves to
/// that function's address exactly; one absent there but present among the
/// read-write-to-code rejects resolves to that reject's address; one absent
/// from both is a missing-symbol failure.
pub proof fn lemma_resolve_by_name(n: String, a: AnalysisResult)
    ensures
        ({
            let from_functions = spec_find_function(a.functions@, n@);
            let from_rejects = spec_find_reject(a.rejects@, n@);
            &&& (from_functions matches Some(rva) ==> spec_resolve_ref(YamlSymbol::Name(n), a)
                == Ok::<u64, ErrRec>(rva))
            &&& (from_functions is None ==> (from_rejects matches Some(rva) ==> spec_resolve_ref(
                YamlSymbol::Name(n),
                a,
            ) == Ok::<u64, ErrRec>(rva)))
            &&& (from_functions is None && from_rejects is None ==> spec_resolve_ref(
                YamlSymbol::Name(n),
                a,
            ) == Err::<u64, ErrRec>(ErrRec::MissingSymbol(n@)))
        }),
{
}

/// An obfuscation profile whose symbol references are not yet resolved. The
/// compiler settings are carried through untouched, whatever their type.
#[derive(Debug)]
pub struct YamlProfile<C> {
    /// Profile name (referenced by server-side macro groups).
    pub name: String,
    /// Passes to apply to this profile.
    pub passes: Vec<ObfuscationPass>,
    /// Compiler configuration for this profile, passed through.
    pub compiler_settings: C,
    /// Symbol references targeted by this profile.
    pub symbols: Vec<YamlSymbol>,
}

/// An obfuscation profile with its references resolved to addresses.
#[derive(Debug)]
pub struct Profile<C> {
    /// Profile name.
    pub name: String,
    /// Passes to apply to this profile.
    pub passes: Vec<ObfuscationPass>,
    /// Compiler configuration for this profile, passed through.
    pub compiler_settings: C,
    /// Addresses this profile targets: directly resolved references in
    /// configuration order, then macro-merged addresses in group order.
    pub symbols: Vec<u64>,
}

/// Mathematical model of an unresolved profile.
pub struct YamlProfileRec<C> {
    pub name: Seq<char>,
    pub passes: Seq<ObfuscationPass>,
    pub compiler_settings: C,
    pub symbols: Seq<YamlSymbol>,
}

/// Mathematical model of a resolved profile.
pub struct ProfileRec<C> {
    pub name: Seq<char>,
    pub passes: Seq<ObfuscationPass>,
    pub compiler_settings: C,
    pub symbols: Seq<u64>,
}

impl<C> View for YamlProfile<C> {
    type V = YamlProfileRec<C>;

    open spec fn view(&self) -> YamlProfileRec<C> {
        YamlProfileRec {
            name: self.name@,
            passes: self.passes@,
            compiler_settings: self.compiler_settings,
            symbols: self.symbols@,
        }
    }
}

impl<C> View for Profile<C> {
    type V = ProfileRec<C>;

    open spec fn view(&self) -> ProfileRec<C> {
        ProfileRec {
            name: self.name@,
            passes: self.passes@,
            compiler_settings: self.compiler_settings,
            symbols: self.symbols@,
        }
    }
}

/// Model view of a profile list.
pub open spec fn profiles_view<C>(v: Seq<Profile<C>>) -> Seq<ProfileRec<C>> {
    v.map_values(|p: Profile<C>| p@)
}

/// Model view of an unresolved profile list.
pub open spec fn yaml_profiles_view<C>(v: Seq<YamlProfile<C>>) -> Seq<YamlProfileRec<C>> {
    v.map_values(|p: YamlProfile<C>| p@)
}

/// Model view of a macro group list.
pub open spec fn macros_view(v: Seq<AnalysisMacroProfile>) -> Seq<MacroRec> {
    v.map_values(|m: AnalysisMacroProfile| m@)
}

/// Resolution of one profile: its references resolved in order, everything
/// else passed through.
pub open spec fn spec_resolve_profile<C>(p: YamlProfileRec<C>, a: AnalysisResult) -> Result<
    ProfileRec<C>,
    ErrRec,
> {
    match spec_resolve_symbols(p.symbols, a) {
        Ok(v) => Ok(
            ProfileRec {
                name: p.name,
                passes: p.passes,
                compiler_settings: p.compiler_settings,
                symbols: v,
            },
        ),
        Err(e) => Err(e),
    }
}

/// In-order resolution of all profiles; the first failure anywhere fails the
/// whole list.
pub open spec fn spec_resolve_profiles<C>(ps: Seq<YamlProfileRec<C>>, a: AnalysisResult) -> Result<
    Seq<ProfileRec<C>>,
    ErrRec,
>
    decreases ps.len(),
{
    if ps.len() == 0 {
        Ok(Seq::empty())
    } else {
        match spec_resolve_profile(ps[0], a) {
            Ok(p) => match spec_resolve_profiles(ps.drop_first(), a) {
                Ok(rest) => Ok(seq![p] + rest),
                Err(e) => Err(e),
            },
            Err(e) => Err(e),
        }
    }
}

/// The first profile carrying the name, by index.
pub open spec fn spec_profile_index<C>(ps: Seq<ProfileRec<C>>, name: Seq<char>) -> Option<int>
    decreases ps.len(),
{
    if ps.len() == 0 {
        None
    } else if ps[0].name == name {
        Some(0)
    } else {
        match spec_profile_index(ps.drop_first(), name) {
            Some(i) => Some(i + 1),
            None => None,
        }
    }
}

/// The first address of the group that breaks the validity rule, if any.
pub open spec fn spec_first_invalid(rvas: Seq<u64>, a: AnalysisResult) -> Option<u64>
    decreases rvas.len(),
{
    if rvas.len() == 0 {
        None
    } else if !spec_is_valid_rva(a, rvas[0]) {
        Some(rvas[0])
    } else {
        spec_first_invalid(rvas.drop_first(), a)
    }
}

/// Folding one macro group into the profiles: the named profile must exist
/// and every address of the group must satisfy the validity rule; then the
/// whole group is appended, unfiltered and in order.
pub open spec fn spec_merge_step<C>(ps: Seq<ProfileRec<C>>, m: MacroRec, a: AnalysisResult) -> Result<
    Seq<ProfileRec<C>>,
    ErrRec,
> {
    match spec_profile_index(ps, m.name) {
        Some(i) => match spec_first_invalid(m.rvas, a) {
            Some(rva) => Err(ErrRec::InvalidRva(rva)),
            None => Ok(
                ps.update(
                    i,
                    ProfileRec {
                        name: ps[i].name,
                        passes: ps[i].passes,
                        compiler_settings: ps[i].compiler_settings,
                        symbols: ps[i].symbols + m.rvas,
                    },
                ),
            ),
        },
        None => Err(ErrRec::UndefinedProfile(m.name)),
    }
}

/// Folding all macro groups, in order; the first failure fails everything.
pub open spec fn spec_merge_macros<C>(
    ps: Seq<ProfileRec<C>>,
    ms: Seq<MacroRec>,
    a: AnalysisResult,
) -> Result<Seq<ProfileRec<C>>, ErrRec>
    decreases ms.len(),
{
    if ms.len() == 0 {
        Ok(ps)
    } else {
        match spec_merge_step(ps, ms[0], a) {
            Ok(ps2) => spec_merge_macros(ps2, ms.drop_first(), a),
            Err(e) => Err(e),
        }
    }
}

/// The whole operation: resolve every profile's references, then fold the
/// analysis's macro groups in.
pub open spec fn spec_resolve_and_merge<C>(
    yps: Seq<YamlProfileRec<C>>,
    a: AnalysisResult,
) -> Result<Seq<ProfileRec<C>>, ErrRec> {
    match spec_resolve_profiles(yps, a) {
        Ok(ps) => spec_merge_macros(ps, macros_view(a.macros@), a),
        Err(e) => Err(e),
    }
}

proof fn lemma_profile_index_from_prefix<C>(ps: Seq<ProfileRec<C>>, name: Seq<char>, i: int)
    requires
        0 <= i < ps.len(),
        ps[i].name == name,
        forall|j: int| 0 <= j < i ==> (#[trigger] ps[j]).name != name,
    ensures
        spec_profile_index(ps, name) == Some(i),
    decreases ps.len(),
{
    if i > 0 {
        assert(ps[0].name != name);
        assert(ps.drop_first()[i - 1] == ps[i]);
        assert(forall|j: int| 0 <= j < i - 1 ==> (#[trigger] ps.drop_first()[j]) == ps[j + 1]);
        lemma_profile_index_from_prefix(ps.drop_first(), name, i - 1);
    }
}

proof fn lemma_profile_index_absent<C>(ps: Seq<ProfileRec<C>>, name: Seq<char>)
    requires
        forall|j: int| 0 <= j < ps.len() ==> (#[trigger] ps[j]).name != name,
    ensures
        spec_profile_index(ps, name) is None,
    decreases ps.len(),
{
    if ps.len() > 0 {
        assert(forall|j: int|
            0 <= j < ps.drop_first().len() ==> (#[trigger] ps.drop_first()[j]) == ps[j + 1]);
        lemma_profile_index_absent(ps.drop_first(), name);
    }
}

proof fn lemma_first_invalid_from_prefix(rvas: Seq<u64>, a: AnalysisResult, j: int)
    requires
        0 <= j <= rvas.len(),
        forall|l: int| 0 <= l < j ==> spec_is_valid_rva(a, #[trigger] rvas[l]),
    ensures
        j < rvas.len() && !spec_is_valid_rva(a, rvas[j]) ==> spec_first_invalid(rvas, a) == Some(
            rvas[j],
        ),
        j == rvas.len() ==> spec_first_invalid(rvas, a) is None,
    decreases rvas.len(),
{
    if rvas.len() > 0 {
        if j > 0 {
            assert(spec_is_valid_rva(a, rvas[0]));
            assert(forall|l: int|
                0 <= l < rvas.drop_first().len() ==> (#[trigger] rvas.drop_first()[l]) == rvas[l
                    + 1]);
            lemma_first_invalid_from_prefix(rvas.drop_first(), a, j - 1);
        }
    }
}

/// Finds the first profile carrying the name, if any.
fn find_profile_index<C>(ps: &Vec<Profile<C>>, name: &String) -> (r: Option<usize>)
    ensures
        match r {
            Some(i) => spec_profile_index(profiles_view(ps@), name@) == Some(i as int) && 0 <= i
                < ps@.len(),
            None => spec_profile_index(profiles_view(ps@), name@) is None,
        },
{
    let n = ps.len();
    let mut i: usize = 0;
    while i < n
        invariant
            i <= n,
            n == ps@.len(),
            forall|j: int| 0 <= j < i ==> (#[trigger] profiles_view(ps@)[j]).name != name@,
        decreases n - i,
    {
        proof {
            assert(profiles_view(ps@)[i as int] == ps@[i as int]@);
        }
        if str_eq(ps[i].name.as_str(), name.as_str()) {
            proof {
                lemma_profile_index_from_prefix(profiles_view(ps@), name@, i as int);
            }
            return Some(i);
        }
        i = i + 1;
    }
    proof {
        lemma_profile_index_absent(profiles_view(ps@), name@);
    }
    None
}

/// Resolves every profile's references in order; the first failure anywhere
/// fails the whole call and no profile list is produced.
#[verifier::loop_isolation(false)]
pub fn resolve_profiles<C>(profiles: Vec<YamlProfile<C>>, analysis: &AnalysisResult) -> (r: Result<
    Vec<Profile<C>>,
    ResolveError,
>)
    ensures
        match r {
            Ok(v) => spec_resolve_profiles(yaml_profiles_view(profiles@), *analysis) == Ok::<
                Seq<ProfileRec<C>>,
                ErrRec,
            >(profiles_view(v@)),
            Err(e) => spec_resolve_profiles(yaml_profiles_view(profiles@), *analysis) == Err::<
                Seq<ProfileRec<C>>,
                ErrRec,
            >(e@),
        },
{
    let ghost yv = yaml_profiles_view(profiles@);
    let mut input = profiles;
    let mut out: Vec<Profile<C>> = Vec::new();
    proof {
        assert(profiles_view(out@) =~= Seq::<ProfileRec<C>>::empty());
        assert(yaml_profiles_view(input@) =~= yv);
    }
    while input.len() > 0
        invariant
            spec_resolve_profiles(yv, *analysis) == match spec_resolve_profiles(
                yaml_profiles_view(input@),
                *analysis,
            ) {
                Ok(rest) => Ok::<Seq<ProfileRec<C>>, ErrRec>(profiles_view(out@) + rest),
                Err(e) => Err::<Seq<ProfileRec<C>>, ErrRec>(e),
            },
        decreases input.len(),
    {
        let ghost in0 = input@;
        let ghost out0 = out@;
        let p = input.remove(0);
        proof {
            assert(yaml_profiles_view(in0)[0] == in0[0]@);
            assert(in0[0] == p);
            assert(yaml_profiles_view(in0).drop_first() =~= yaml_profiles_view(input@));
        }
        let YamlProfile { name, passes, compiler_settings, symbols } = p;
        match resolve_symbols(&symbols, analysis) {
            Ok(v) => {
                let ghost vv = v@;
                out.push(Profile { name, passes, compiler_settings, symbols: v });
                proof {
                    let rec = spec_resolve_profile(p@, *analysis)->Ok_0;
                    assert(out@.last()@ == rec);
                    assert(profiles_view(out@) =~= profiles_view(out0).push(rec));
                    let tail = spec_resolve_profiles(yaml_profiles_view(input@), *analysis);
                    match tail {
                        Ok(rest) => {
                            assert(profiles_view(out0) + (seq![rec] + rest) =~= profiles_view(
                                out0,
                            ).push(rec) + rest);
                        },
                        Err(_) => {},
                    }
                }
            },
            Err(e) => {
                return Err(e);
            },
        }
    }
    proof {
        assert(input@.len() == 0);
        assert(yaml_profiles_view(input@) =~= Seq::<YamlProfileRec<C>>::empty());
        assert(profiles_view(out@) + Seq::<ProfileRec<C>>::empty() =~= profiles_view(out@));
    }
    Ok(out)
}

/// Folds the analysis's macro groups into the resolved profiles, in group
/// order: each group must name a declared profile and every address in it
/// must satisfy the validity rule, else the whole call fails with nothing
/// merged; a valid group is appended whole, in order, with no deduplication.
#[verifier::loop_isolation(false)]
pub fn merge_macros<C>(profiles: Vec<Profile<C>>, analysis: &AnalysisResult) -> (r: Result<
    Vec<Profile<C>>,
    ResolveError,
>)
    ensures
        match r {
            Ok(v) => spec_merge_macros(
                profiles_view(profiles@),
                macros_view(analysis.macros@),
                *analysis,
            ) == Ok::<Seq<ProfileRec<C>>, ErrRec>(profiles_view(v@)),
            Err(e) => spec_merge_macros(
                profiles_view(profiles@),
                macros_view(analysis.macros@),
                *analysis,
            ) == Err::<Seq<ProfileRec<C>>, ErrRec>(e@),
        },
{
    let ghost ps0 = profiles_view(profiles@);
    let ghost mv = macros_view(analysis.macros@);
    let mut ps = profiles;
    let nm = analysis.macros.len();
    let mut k: usize = 0;
    proof {
        assert(mv.skip(0) =~= mv);
    }
    while k < nm
        invariant
            k <= nm,
            nm == analysis.macros@.len(),
            mv == macros_view(analysis.macros@),
            spec_merge_macros(ps0, mv, *analysis) == spec_merge_macros(
                profiles_view(ps@),
                mv.skip(k as int),
                *analysis,
            ),
        decreases nm - k,
    {
        let ghost psk = profiles_view(ps@);
        let m = &analysis.macros[k];
        proof {
            assert(macros_view(analysis.macros@)[k as int] == analysis.macros@[k as int]@);
            assert(mv.skip(k as int)[0] == mv[k as int]);
            assert(mv.skip(k as int).drop_first() =~= mv.skip(k as int + 1));
        }
        match find_profile_index(&ps, &m.name) {
            Some(i) => {
                let nr = m.rvas.len();
                let mut j: usize = 0;
                while j < nr
                    invariant
                        j <= nr,
                        nr == m.rvas@.len(),
                        forall|l: int| 0 <= l < j ==> spec_is_valid_rva(*analysis, #[trigger] m.rvas@[l]),
                    decreases nr - j,
                {
                    if !is_valid_rva(m.rvas[j], analysis) {
                        proof {
                            lemma_first_invalid_from_prefix(m.rvas@, *analysis, j as int);
                        }
                        return Err(ResolveError::InvalidRva(m.rvas[j]));
                    }
                    j = j + 1;
                }
                proof {
                    lemma_first_invalid_from_prefix(m.rvas@, *analysis, nr as int);
                }
                let mut target = ps.remove(i);
                let ghost t0 = target;
                let mut l: usize = 0;
                while l < nr
                    invariant
                        l <= nr,
                        nr == m.rvas@.len(),
                        target.name == t0.name,
                        target.passes == t0.passes,
                        target.compiler_settings == t0.compiler_settings,
                        target.symbols@ == t0.symbols@ + m.rvas@.take(l as int),
                    decreases nr - l,
                {
                    target.symbols.push(m.rvas[l]);
                    proof {
                        assert(t0.symbols@ + m.rvas@.take(l as int + 1) =~= (t0.symbols@
                            + m.rvas@.take(l as int)).push(m.rvas@[l as int]));
                    }
                    l = l + 1;
                }
                ps.insert(i, target);
                proof {
                    assert(m.rvas@.take(nr as int) =~= m.rvas@);
                    let merged = ProfileRec {
                        name: psk[i as int].name,
                        passes: psk[i as int].passes,
                        compiler_settings: psk[i as int].compiler_settings,
                        symbols: psk[i as int].symbols + m.rvas@,
                    };
                    assert(psk[i as int] == t0@);
                    assert(target@ == merged);
                    assert(profiles_view(ps@) =~= psk.update(i as int, merged));
                    assert(spec_merge_step(psk, mv[k as int], *analysis) == Ok::<
                        Seq<ProfileRec<C>>,
                        ErrRec,
                    >(psk.update(i as int, merged)));
                }
            },
            None => {
                return Err(ResolveError::UndefinedProfile(m.name.clone()));
            },
        }
        k = k + 1;
    }
    proof {
        assert(mv.skip(nm as int) =~= Seq::<MacroRec>::empty());
    }
    Ok(ps)
}

/// Resolves every profile's configured references against the analysis
/// result and then folds the analysis's macro groups in: the whole operation
/// succeeds as one, or fails as one on the first bad reference, address or
/// group.
pub fn resolve_and_merge<C>(profiles: Vec<YamlProfile<C>>, analysis: &AnalysisResult) -> (r: Result<
    Vec<Profile<C>>,
    ResolveError,
>)
    ensures
        match r {
            Ok(v) => spec_resolve_and_merge(yaml_profiles_view(profiles@), *analysis) == Ok::<
                Seq<ProfileRec<C>>,
                ErrRec,
            >(profiles_view(v@)),
            Err(e) => spec_resolve_and_merge(yaml_profiles_view(profiles@), *analysis) == Err::<
                Seq<ProfileRec<C>>,
                ErrRec,
            >(e@),
        },
{
    match resolve_profiles(profiles, analysis) {
        Ok(resolved) => merge_macros(resolved, analysis),
        Err(e) => Err(e),
    }
}

proof fn lemma_profile_index_props<C>(ps: Seq<ProfileRec<C>>, name: Seq<char>)
    ensures
        spec_profile_index(ps, name) matches Some(i) ==> 0 <= i < ps.len() && ps[i].name == name,
    decreases ps.len(),
{
    if ps.len() > 0 && ps[0].name != name {
        lemma_profile_index_props(ps.drop_first(), name);
    }
}

proof fn lemma_merge_step_preserves_names<C>(ps: Seq<ProfileRec<C>>, m: MacroRec, a: AnalysisResult)
    ensures
        spec_merge_step(ps, m, a) matches Ok(ps2) ==> ps2.len() == ps.len() && (forall|i: int|
            0 <= i < ps.len() ==> (#[trigger] ps2[i]).name == ps[i].name),
{
    lemma_profile_index_props(ps, m.name);
    match spec_merge_step(ps, m, a) {
        Ok(ps2) => {
            let i = spec_profile_index(ps, m.name)->Some_0;
            assert forall|l: int| 0 <= l < ps.len() implies (#[trigger] ps2[l]).name
                == ps[l].name by {
                if l != i {
                    assert(ps2[l] == ps[l]);
                }
            }
        },
        Err(_) => {},
    }
}

proof fn lemma_first_invalid_exists(rvas: Seq<u64>, a: AnalysisResult)
    requires
        exists|j: int| 0 <= j < rvas.len() && !spec_is_valid_rva(a, #[trigger] rvas[j]),
    ensures
        spec_first_invalid(rvas, a) is Some,
    decreases rvas.len(),
{
    if spec_is_valid_rva(a, rvas[0]) {
        let j = choose|j: int| 0 <= j < rvas.len() && !spec_is_valid_rva(a, #[trigger] rvas[j]);
        assert(j > 0);
        assert(rvas.drop_first()[j - 1] == rvas[j]);
        lemma_first_invalid_exists(rvas.drop_first(), a);
    }
}

/// Law: if any macro group names a profile that is not declared, or carries
/// even one address that breaks the validity rule, the whole merge fails;
/// no partial merge is produced.
pub proof fn lemma_merge_all_or_nothing<C>(
    ps: Seq<ProfileRec<C>>,
    ms: Seq<MacroRec>,
    a: AnalysisResult,
    k: int,
)
    requires
        0 <= k < ms.len(),
        (forall|i: int| 0 <= i < ps.len() ==> (#[trigger] ps[i]).name != ms[k].name) || (exists|
            j: int,
        | 0 <= j < ms[k].rvas.len() && !spec_is_valid_rva(a, #[trigger] ms[k].rvas[j])),
    ensures
        spec_merge_macros(ps, ms, a) is Err,
    decreases ms.len(),
{
    if k == 0 {
        match spec_profile_index(ps, ms[0].name) {
            Some(i) => {
                if forall|i2: int| 0 <= i2 < ps.len() ==> (#[trigger] ps[i2]).name != ms[0].name {
                    lemma_profile_index_absent(ps, ms[0].name);
                    assert(false);
                }
                lemma_first_invalid_exists(ms[0].rvas, a);
            },
            None => {},
        }
    } else {
        match spec_merge_step(ps, ms[0], a) {
            Ok(ps2) => {
                lemma_merge_step_preserves_names(ps, ms[0], a);
                assert(ms.drop_first()[k - 1] == ms[k]);
                lemma_merge_all_or_nothing(ps2, ms.drop_first(), a, k - 1);
            },
            Err(_) => {},
        }
    }
}

/// Root of a configuration whose symbol references are not yet resolved.
#[derive(Debug)]
pub struct YamlConfig<C> {
    /// Version tag of the configuration file format.
    pub version: String,
    /// Global disassembly settings, passed through to the analyzer.
    pub disassembly_settings: DisassemblySettings,
    /// Global module-wide obfuscation settings.
    pub module_settings: ModuleSettings,
    /// Obfuscation profiles to apply.
    pub profiles: Vec<YamlProfile<C>>,
}

/// The finished submission: module-wide settings and resolved profiles.
#[derive(Debug)]
pub struct Config<C> {
    /// Module-wide settings, passed through from the configuration.
    pub module_settings: ModuleSettings,
    /// All profiles to apply, with their target addresses resolved.
    pub profiles: Vec<Profile<C>>,
}

/// Builds the finished submission from a configuration and an analysis
/// result: resolves every profile and folds the macro groups in, all or
/// nothing, passing the module-wide settings through untouched.
pub fn resolve_config<C>(config: YamlConfig<C>, analysis: &AnalysisResult) -> (r: Result<
    Config<C>,
    ResolveError,
>)
    ensures
        match r {
            Ok(c) => spec_resolve_and_merge(yaml_profiles_view(config.profiles@), *analysis)
                == Ok::<Seq<ProfileRec<C>>, ErrRec>(profiles_view(c.profiles@))
                && c.module_settings == config.module_settings,
            Err(e) => spec_resolve_and_merge(yaml_profiles_view(config.profiles@), *analysis)
                == Err::<Seq<ProfileRec<C>>, ErrRec>(e@),
        },
{
    let YamlConfig { version: _, disassembly_settings: _, module_settings, profiles } = config;
    match resolve_and_merge(profiles, analysis) {
        Ok(resolved) => Ok(Config { module_settings, profiles: resolved }),
        Err(e) => Err(e),
    }
}

proof fn lemma_find_reject_rva_valid(rejects: Seq<AnalysisReject>, name: Seq<char>)
    ensures
        spec_find_reject(rejects, name) matches Some(rva) ==> exists|i: int|
            0 <= i < rejects.len() && (#[trigger] rejects[i]).rva == rva && rejects[i].ty@
                == rwc_tag(),
    decreases rejects.len(),
{
    if rejects.len() > 0 {
        lemma_find_reject_rva_valid(rejects.drop_first(), name);
        if !(rejects[0].symbol@ == name && rejects[0].ty@ == rwc_tag()) {
            match spec_find_reject(rejects.drop_first(), name) {
                Some(rva) => {
                    let i = choose|i: int|
                        0 <= i < rejects.drop_first().len() && (#[trigger] rejects.drop_first()[i]).rva
                            == rva && rejects.drop_first()[i].ty@ == rwc_tag();
                    assert(rejects[i + 1] == rejects.drop_first()[i]);
                },
                None => {},
            }
        }
    }
}

proof fn lemma_resolve_ref_valid(sym: YamlSymbol, a: AnalysisResult)
    ensures
        spec_resolve_ref(sym, a) matches Ok(rva) ==> spec_is_valid_rva(a, rva),
{
    match sym {
        YamlSymbol::Name(n) => {
            lemma_find_function_characterization(a.functions@, n@);
            lemma_find_reject_rva_valid(a.rejects@, n@);
        },
        YamlSymbol::Rva(_) => {},
        YamlSymbol::All => {},
    }
}

proof fn lemma_resolve_symbols_valid(syms: Seq<YamlSymbol>, a: AnalysisResult)
    ensures
        spec_resolve_symbols(syms, a) matches Ok(v) ==> forall|j: int|
            0 <= j < v.len() ==> spec_is_valid_rva(a, #[trigger] v[j]),
    decreases syms.len(),
{
    if syms.len() > 0 {
        lemma_resolve_ref_valid(syms[0], a);
        lemma_resolve_symbols_valid(syms.drop_first(), a);
        match spec_resolve_ref(syms[0], a) {
            Ok(rva) => {
                match spec_resolve_symbols(syms.drop_first(), a) {
                    Ok(rest) => {
                        assert forall|j: int| 0 <= j < (seq![rva] + rest).len() implies
                            spec_is_valid_rva(a, #[trigger] (seq![rva] + rest)[j]) by {
                            if j > 0 {
                                assert((seq![rva] + rest)[j] == rest[j - 1]);
                            }
                        }
                    },
                    Err(_) => {},
                }
            },
            Err(_) => {},
        }
    }
}

proof fn lemma_resolve_profiles_valid<C>(yps: Seq<YamlProfileRec<C>>, a: AnalysisResult)
    ensures
        spec_resolve_profiles(yps, a) matches Ok(ps) ==> forall|i: int, j: int|
            0 <= i < ps.len() && 0 <= j < (#[trigger] ps[i]).symbols.len() ==> spec_is_valid_rva(
                a,
                #[trigger] ps[i].symbols[j],
            ),
    decreases yps.len(),
{
    if yps.len() > 0 {
        lemma_resolve_symbols_valid(yps[0].symbols, a);
        lemma_resolve_profiles_valid(yps.drop_first(), a);
        match spec_resolve_profile(yps[0], a) {
            Ok(p) => {
                match spec_resolve_profiles(yps.drop_first(), a) {
                    Ok(rest) => {
                        assert forall|i: int, j: int|
                            0 <= i < (seq![p] + rest).len() && 0 <= j < (#[trigger] (seq![p]
                                + rest)[i]).symbols.len() implies spec_is_valid_rva(
                            a,
                            #[trigger] (seq![p] + rest)[i].symbols[j],
                        ) by {
                            if i > 0 {
                                assert((seq![p] + rest)[i] == rest[i - 1]);
                            } else {
                                assert((seq![p] + rest)[0] == p);
                            }
                        }
                    },
                    Err(_) => {},
                }
            },
            Err(_) => {},
        }
    }
}

proof fn lemma_first_invalid_none(rvas: Seq<u64>, a: AnalysisResult)
    ensures
        spec_first_invalid(rvas, a) is None ==> forall|j: int|
            0 <= j < rvas.len() ==> spec_is_valid_rva(a, #[trigger] rvas[j]),
    decreases rvas.len(),
{
    if rvas.len() > 0 && spec_is_valid_rva(a, rvas[0]) {
        lemma_first_invalid_none(rvas.drop_first(), a);
        if spec_first_invalid(rvas, a) is None {
            assert forall|j: int| 0 <= j < rvas.len() implies spec_is_valid_rva(
                a,
                #[trigger] rvas[j],
            ) by {
                if j > 0 {
                    assert(rvas.drop_first()[j - 1] == rvas[j]);
                }
            }
        }
    }
}

proof fn lemma_merge_macros_valid<C>(ps: Seq<ProfileRec<C>>, ms: Seq<MacroRec>, a: AnalysisResult)
    requires
        forall|i: int, j: int|
            0 <= i < ps.len() && 0 <= j < (#[trigger] ps[i]).symbols.len() ==> spec_is_valid_rva(
                a,
                #[trigger] ps[i].symbols[j],
            ),
    ensures
        spec_merge_macros(ps, ms, a) matches Ok(ps2) ==> forall|i: int, j: int|
            0 <= i < ps2.len() && 0 <= j < (#[trigger] ps2[i]).symbols.len() ==> spec_is_valid_rva(
                a,
                #[trigger] ps2[i].symbols[j],
            ),
    decreases ms.len(),
{
    if ms.len() > 0 {
        match spec_merge_step(ps, ms[0], a) {
            Ok(ps1) => {
                lemma_profile_index_props(ps, ms[0].name);
                let ix = spec_profile_index(ps, ms[0].name)->Some_0;
                lemma_first_invalid_none(ms[0].rvas, a);
                assert forall|i: int, j: int|
                    0 <= i < ps1.len() && 0 <= j < (#[trigger] ps1[i]).symbols.len() implies
                    spec_is_valid_rva(a, #[trigger] ps1[i].symbols[j]) by {
                    if i == ix {
                        assert(ps1[i].symbols == ps[ix].symbols + ms[0].rvas);
                        if j < ps[ix].symbols.len() {
                            assert(ps1[i].symbols[j] == ps[ix].symbols[j]);
                        } else {
                            assert(ps1[i].symbols[j] == ms[0].rvas[j - ps[ix].symbols.len()]);
                        }
                    } else {
                        assert(ps1[i] == ps[i]);
                    }
                }
                lemma_merge_macros_valid(ps1, ms.drop_first(), a);
            },
            Err(_) => {},
        }
    }
}

/// Law: every address held by any profile of a successful resolve-and-merge
/// satisfied the validity rule when it was added: it is an accepted
/// function's address, or a read-write-to-code reject's address.
pub proof fn lemma_resolved_addresses_valid<C>(yps: Seq<YamlProfileRec<C>>, a: AnalysisResult)
    ensures
        spec_resolve_and_merge(yps, a) matches Ok(ps) ==> forall|i: int, j: int|
            0 <= i < ps.len() && 0 <= j < (#[trigger] ps[i]).symbols.len() ==> spec_is_valid_rva(
                a,
                #[trigger] ps[i].symbols[j],
            ),
{
    lemma_resolve_profiles_valid(yps, a);
    match spec_resolve_profiles(yps, a) {
        Ok(ps) => {
            lemma_merge_macros_valid(ps, macros_view(a.macros@), a);
        },
        Err(_) => {},
    }
}

} // verus!
