//! The canonical symbol table: merging procedure-scoped and public-scoped
//! symbol declarations into one deduplicated address-keyed table.

use vstd::prelude::*;

use crate::text::{lex_lt, lex_le, str_lex_lt, lemma_lex_total};

verus! {

/// Mathematical model of one record of the canonical symbol table.
pub struct SymRec {
    pub address: u32,
    pub name: Seq<char>,
    pub noreturn: bool,
}

/// One record of the canonical symbol table: a function's address in the
/// virtual mapping, its display name, and whether it never returns.
#[derive(Debug, Clone)]
pub struct DebugSymbolInfo {
    /// Address in the virtual mapping.
    pub address: u32,
    /// Display name of the symbol.
    pub name: String,
    /// Does this function not return?
    pub noreturn: bool,
}

impl View for DebugSymbolInfo {
    type V = SymRec;

    open spec fn view(&self) -> SymRec {
        SymRec { address: self.address, name: self.name@, noreturn: self.noreturn }
    }
}

/// A procedure-scoped symbol declaration: one entry of a module's symbol stream.
#[derive(Debug, Clone)]
pub struct ProcedureDecl {
    /// Resolved address of the procedure.
    pub address: u32,
    /// Display name of the procedure.
    pub name: String,
    /// Whether the procedure is marked as never returning.
    pub noreturn: bool,
}

impl View for ProcedureDecl {
    type V = SymRec;

    open spec fn view(&self) -> SymRec {
        SymRec { address: self.address, name: self.name@, noreturn: self.noreturn }
    }
}

/// Mathematical model of a public-scope symbol declaration.
pub struct PublicRec {
    pub address: u32,
    pub name: Seq<char>,
    pub is_function: bool,
}

/// A public/global-scope symbol declaration.
#[derive(Debug, Clone)]
pub struct PublicDecl {
    /// Resolved address of the symbol.
    pub address: u32,
    /// Display name of the symbol.
    pub name: String,
    /// Whether the symbol refers to a function.
    pub is_function: bool,
}

impl View for PublicDecl {
    type V = PublicRec;

    open spec fn view(&self) -> PublicRec {
        PublicRec { address: self.address, name: self.name@, is_function: self.is_function }
    }
}

/// Whether some record of the table carries the given address.
pub open spec fn table_has_addr(t: Seq<SymRec>, address: u32) -> bool {
    exists|i: int| 0 <= i < t.len() && t[i].address == address
}

/// The record of the table carrying the given address.
pub open spec fn table_entry(t: Seq<SymRec>, address: u32) -> SymRec
    recommends
        table_has_addr(t, address),
{
    t[choose|i: int| 0 <= i < t.len() && t[i].address == address]
}

/// Addresses are unique within the table.
pub open spec fn table_wf(t: Seq<SymRec>) -> bool {
    forall|i: int, j: int| 0 <= i < j < t.len() ==> t[i].address != t[j].address
}

/// Names are unique within the table.
pub open spec fn names_unique(t: Seq<SymRec>) -> bool {
    forall|i: int, j: int| 0 <= i < j < t.len() ==> t[i].name != t[j].name
}

/// The name kept when a second declaration hits an occupied address:
/// the lexicographically smaller of the existing and the new name.
pub open spec fn merge_name(existing: Seq<char>, new: Seq<char>) -> Seq<char> {
    if lex_lt(new, existing) {
        new
    } else {
        existing
    }
}

/// How a procedure declaration merges into an occupied record: smaller name
/// wins, and `noreturn` is the OR of the existing and the new flag.
pub open spec fn proc_merge_rec(r: SymRec, name: Seq<char>, noreturn: bool) -> SymRec {
    SymRec { address: r.address, name: merge_name(r.name, name), noreturn: r.noreturn || noreturn }
}

/// Effect of one procedure-scoped declaration on the table.
pub open spec fn proc_step(t: Seq<SymRec>, address: u32, name: Seq<char>, noreturn: bool) -> Seq<
    SymRec,
> {
    if table_has_addr(t, address) {
        Seq::new(
            t.len(),
            |i: int|
                if t[i].address == address {
                    proc_merge_rec(t[i], name, noreturn)
                } else {
                    t[i]
                },
        )
    } else {
        t.push(SymRec { address, name, noreturn })
    }
}

/// How a public declaration merges into an occupied record: smaller name
/// wins, and the existing `noreturn` is left untouched.
pub open spec fn pub_merge_rec(r: SymRec, name: Seq<char>) -> SymRec {
    SymRec { address: r.address, name: merge_name(r.name, name), noreturn: r.noreturn }
}

/// Effect of one public-scope function declaration on the table: a new
/// address is never assumed never-returning on first sight.
pub open spec fn pub_step(t: Seq<SymRec>, address: u32, name: Seq<char>) -> Seq<SymRec> {
    if table_has_addr(t, address) {
        Seq::new(
            t.len(),
            |i: int|
                if t[i].address == address {
                    pub_merge_rec(t[i], name)
                } else {
                    t[i]
                },
        )
    } else {
        t.push(SymRec { address, name, noreturn: false })
    }
}

/// The canonical address-keyed symbol table, kept as an insertion-ordered
/// arena with unique addresses.
pub struct SymbolArena {
    entries: Vec<DebugSymbolInfo>,
}

impl View for SymbolArena {
    type V = Seq<SymRec>;

    closed spec fn view(&self) -> Seq<SymRec> {
        self.entries@.map_values(|d: DebugSymbolInfo| d@)
    }
}

impl SymbolArena {
    /// The table's invariant: addresses are unique.
    pub open spec fn wf(&self) -> bool {
        table_wf(self@)
    }

    /// Creates an empty table.
    pub fn new() -> (t: Self)
        ensures
            t@ == Seq::<SymRec>::empty(),
            t.wf(),
    {
        let t = SymbolArena { entries: Vec::new() };
        proof {
            assert(t@ =~= Seq::<SymRec>::empty());
        }
        t
    }

    /// Finds the index of the record carrying the given address, if any.
    fn find_addr(&self, address: u32) -> (r: Option<usize>)
        ensures
            match r {
                Some(i) => 0 <= i < self@.len() && self@[i as int].address == address,
                None => !table_has_addr(self@, address),
            },
    {
        let n = self.entries.len();
        let mut i: usize = 0;
        while i < n
            invariant
                n == self.entries.len(),
                i <= n,
                forall|j: int| 0 <= j < i ==> self@[j].address != address,
            decreases n - i,
        {
            if self.entries[i].address == address {
                return Some(i);
            }
            i = i + 1;
        }
        None
    }

    /// Records one procedure-scoped declaration, merging on address collision.
    pub fn add_procedure(&mut self, address: u32, name: String, noreturn: bool)
        requires
            old(self).wf(),
        ensures
            final(self).wf(),
            final(self)@ == proc_step(old(self)@, address, name@, noreturn),
    {
        let ghost t0 = self@;
        match self.find_addr(address) {
            Some(i) => {
                let replace = str_lex_lt(name.as_str(), self.entries[i].name.as_str());
                let e = &mut self.entries[i];
                if replace {
                    e.name = name;
                }
                e.noreturn = e.noreturn || noreturn;
                proof {
                    assert(table_has_addr(t0, address));
                    assert forall|j: int| 0 <= j < t0.len() && j != i implies t0[j].address
                        != address by {}
                    assert(self@ =~= proc_step(t0, address, name@, noreturn));
                }
            },
            None => {
                self.entries.push(DebugSymbolInfo { address, name, noreturn });
                proof {
                    assert(self@ =~= t0.push(SymRec { address, name: name@, noreturn }));
                }
            },
        }
    }

    /// Records one public-scope function declaration; an existing record's
    /// `noreturn` is never changed by it.
    pub fn add_public_function(&mut self, address: u32, name: String)
        requires
            old(self).wf(),
        ensures
            final(self).wf(),
            final(self)@ == pub_step(old(self)@, address, name@),
    {
        let ghost t0 = self@;
        match self.find_addr(address) {
            Some(i) => {
                let replace = str_lex_lt(name.as_str(), self.entries[i].name.as_str());
                if replace {
                    let e = &mut self.entries[i];
                    e.name = name;
                }
                proof {
                    assert(table_has_addr(t0, address));
                    assert forall|j: int| 0 <= j < t0.len() && j != i implies t0[j].address
                        != address by {}
                    assert(self@ =~= pub_step(t0, address, name@));
                }
            },
            None => {
                self.entries.push(DebugSymbolInfo { address, name, noreturn: false });
                proof {
                    assert(self@ =~= t0.push(SymRec { address, name: name@, noreturn: false }));
                }
            },
        }
    }

    /// Hands the table's records out in insertion order.
    pub fn entries(&self) -> (r: &Vec<DebugSymbolInfo>)
        ensures
            r@.map_values(|d: DebugSymbolInfo| d@) == self@,
    {
        &self.entries
    }
}


/// Model view of a sequence of procedure declarations.
pub open spec fn procs_view(v: Seq<ProcedureDecl>) -> Seq<SymRec> {
    v.map_values(|d: ProcedureDecl| d@)
}

/// Model view of a sequence of public declarations.
pub open spec fn pubs_view(v: Seq<PublicDecl>) -> Seq<PublicRec> {
    v.map_values(|d: PublicDecl| d@)
}

/// Effect of a sequence of procedure declarations applied in order.
pub open spec fn proc_fold(t: Seq<SymRec>, decls: Seq<SymRec>) -> Seq<SymRec>
    decreases decls.len(),
{
    if decls.len() == 0 {
        t
    } else {
        proc_fold(
            proc_step(t, decls[0].address, decls[0].name, decls[0].noreturn),
            decls.drop_first(),
        )
    }
}

/// Effect of a sequence of public declarations applied in order; declarations
/// not flagged as functions contribute nothing.
pub open spec fn pub_fold(t: Seq<SymRec>, decls: Seq<PublicRec>) -> Seq<SymRec>
    decreases decls.len(),
{
    if decls.len() == 0 {
        t
    } else {
        pub_fold(
            if decls[0].is_function {
                pub_step(t, decls[0].address, decls[0].name)
            } else {
                t
            },
            decls.drop_first(),
        )
    }
}

/// The canonical table built from both symbol sources: all procedure-scoped
/// declarations first, then all public-scope function declarations.
pub open spec fn spec_build_table(procs: Seq<SymRec>, pubs: Seq<PublicRec>) -> Seq<SymRec> {
    pub_fold(proc_fold(Seq::empty(), procs), pubs)
}

proof fn lemma_proc_fold_snoc(t: Seq<SymRec>, decls: Seq<SymRec>, d: SymRec)
    ensures
        proc_fold(t, decls.push(d)) == proc_step(proc_fold(t, decls), d.address, d.name, d.noreturn),
    decreases decls.len(),
{
    reveal_with_fuel(proc_fold, 2);
    if decls.len() == 0 {
        assert(decls.push(d)[0] == d);
        assert(decls.push(d).drop_first() =~= Seq::<SymRec>::empty());
    } else {
        assert(decls.push(d)[0] == decls[0]);
        assert(decls.push(d).drop_first() =~= decls.drop_first().push(d));
        lemma_proc_fold_snoc(
            proc_step(t, decls[0].address, decls[0].name, decls[0].noreturn),
            decls.drop_first(),
            d,
        );
    }
}

proof fn lemma_pub_fold_snoc(t: Seq<SymRec>, decls: Seq<PublicRec>, d: PublicRec)
    ensures
        pub_fold(t, decls.push(d)) == if d.is_function {
            pub_step(pub_fold(t, decls), d.address, d.name)
        } else {
            pub_fold(t, decls)
        },
    decreases decls.len(),
{
    reveal_with_fuel(pub_fold, 2);
    if decls.len() == 0 {
        assert(decls.push(d)[0] == d);
        assert(decls.push(d).drop_first() =~= Seq::<PublicRec>::empty());
    } else {
        assert(decls.push(d)[0] == decls[0]);
        assert(decls.push(d).drop_first() =~= decls.drop_first().push(d));
        lemma_pub_fold_snoc(
            if decls[0].is_function {
                pub_step(t, decls[0].address, decls[0].name)
            } else {
                t
            },
            decls.drop_first(),
            d,
        );
    }
}

impl SymbolArena {
    /// Records a sequence of procedure-scoped declarations in order.
    pub fn add_procedures(&mut self, decls: &Vec<ProcedureDecl>)
        requires
            old(self).wf(),
        ensures
            final(self).wf(),
            final(self)@ == proc_fold(old(self)@, procs_view(decls@)),
    {
        let ghost t0 = self@;
        let ghost dv = procs_view(decls@);
        let mut i: usize = 0;
        proof {
            assert(dv.take(0) =~= Seq::<SymRec>::empty());
        }
        while i < decls.len()
            invariant
                i <= decls.len(),
                dv == procs_view(decls@),
                self.wf(),
                self@ == proc_fold(t0, dv.take(i as int)),
            decreases decls.len() - i,
        {
            let d = &decls[i];
            proof {
                assert(dv[i as int] == decls@[i as int]@);
                assert(dv.take(i as int + 1) =~= dv.take(i as int).push(dv[i as int]));
                lemma_proc_fold_snoc(t0, dv.take(i as int), dv[i as int]);
            }
            self.add_procedure(d.address, d.name.clone(), d.noreturn);
            i = i + 1;
        }
        proof {
            assert(dv.take(decls@.len() as int) =~= dv);
        }
    }

    /// Records a sequence of public-scope declarations in order; declarations
    /// not flagged as functions are skipped.
    pub fn add_public_functions(&mut self, decls: &Vec<PublicDecl>)
        requires
            old(self).wf(),
        ensures
            final(self).wf(),
            final(self)@ == pub_fold(old(self)@, pubs_view(decls@)),
    {
        let ghost t0 = self@;
        let ghost dv = pubs_view(decls@);
        let mut i: usize = 0;
        proof {
            assert(dv.take(0) =~= Seq::<PublicRec>::empty());
        }
        while i < decls.len()
            invariant
                i <= decls.len(),
                dv == pubs_view(decls@),
                self.wf(),
                self@ == pub_fold(t0, dv.take(i as int)),
            decreases decls.len() - i,
        {
            let d = &decls[i];
            proof {
                assert(dv[i as int] == decls@[i as int]@);
                assert(dv.take(i as int + 1) =~= dv.take(i as int).push(dv[i as int]));
                lemma_pub_fold_snoc(t0, dv.take(i as int), dv[i as int]);
            }
            if d.is_function {
                self.add_public_function(d.address, d.name.clone());
            }
            i = i + 1;
        }
        proof {
            assert(dv.take(decls@.len() as int) =~= dv);
        }
    }
}

/// Law: an empty public-table contribution changes nothing — the canonical
/// table is then exactly the one built from the procedure declarations alone.
pub proof fn lemma_empty_public_contribution(procs: Seq<SymRec>)
    ensures
        spec_build_table(procs, Seq::empty()) == proc_fold(Seq::empty(), procs),
{
}

/// Builds the canonical address-keyed table from the two symbol sources.
pub fn build_symbol_table(procedures: &Vec<ProcedureDecl>, publics: &Vec<PublicDecl>) -> (t:
    SymbolArena)
    ensures
        t.wf(),
        t@ == spec_build_table(procs_view(procedures@), pubs_view(publics@)),
{
    let mut t = SymbolArena::new();
    t.add_procedures(procedures);
    t.add_public_functions(publics);
    t
}

/// Law: when two procedure declarations share an address, the record kept for
/// that address carries the lexicographically smaller (code-point order) of
/// the two names and the OR of both never-returning flags.
pub proof fn lemma_procedure_pair_merge(
    t: Seq<SymRec>,
    a: u32,
    n1: Seq<char>,
    f1: bool,
    n2: Seq<char>,
    f2: bool,
)
    requires
        !table_has_addr(t, a),
    ensures
        ({
            let t2 = proc_step(proc_step(t, a, n1, f1), a, n2, f2);
            &&& table_has_addr(t2, a)
            &&& (table_entry(t2, a).name == n1 || table_entry(t2, a).name == n2)
            &&& lex_le(table_entry(t2, a).name, n1)
            &&& lex_le(table_entry(t2, a).name, n2)
            &&& table_entry(t2, a).noreturn == (f1 || f2)
        }),
{
    let r1 = SymRec { address: a, name: n1, noreturn: f1 };
    let t1 = proc_step(t, a, n1, f1);
    assert(t1 == t.push(r1));
    assert(t1[t.len() as int] == r1);
    assert(table_has_addr(t1, a));
    let t2 = proc_step(t1, a, n2, f2);
    assert(t2[t.len() as int] == proc_merge_rec(r1, n2, f2));
    assert(table_has_addr(t2, a)) by {
        assert(t2[t.len() as int].address == a);
    }
    let i = choose|i: int| 0 <= i < t2.len() && t2[i].address == a;
    if i < t.len() {
        assert(t1[i] == t[i]);
        assert(t2[i].address == t[i].address);
        assert(table_has_addr(t, a));
    }
    assert(i == t.len());
    assert(table_entry(t2, a) == proc_merge_rec(r1, n2, f2));
    lemma_lex_total(n1, n2);
}

/// Law: a public-only declaration yields a record with `noreturn == false`,
/// and a public declaration never changes an existing record's `noreturn`.
pub proof fn lemma_public_noreturn(t: Seq<SymRec>, a: u32, n: Seq<char>)
    requires
        table_wf(t),
    ensures
        !table_has_addr(t, a) ==> table_has_addr(pub_step(t, a, n), a) && table_entry(
            pub_step(t, a, n),
            a,
        ).noreturn == false,
        table_has_addr(t, a) ==> table_entry(pub_step(t, a, n), a).noreturn == table_entry(
            t,
            a,
        ).noreturn,
{
    let t2 = pub_step(t, a, n);
    if table_has_addr(t, a) {
        let j = choose|j: int| 0 <= j < t.len() && t[j].address == a;
        assert(t2[j].address == a);
        assert(table_has_addr(t2, a));
        let i = choose|i: int| 0 <= i < t2.len() && t2[i].address == a;
        assert(t2[i].address == t[i].address);
        assert(i == j);
        assert(table_entry(t2, a) == pub_merge_rec(t[j], n));
        assert(table_entry(t, a) == t[j]);
    } else {
        let r = SymRec { address: a, name: n, noreturn: false };
        assert(t2 == t.push(r));
        assert(t2[t.len() as int] == r);
        assert(table_has_addr(t2, a));
        let i = choose|i: int| 0 <= i < t2.len() && t2[i].address == a;
        if i < t.len() {
            assert(table_has_addr(t, a));
        }
        assert(table_entry(t2, a) == r);
    }
}

} // verus!
