//! Name disambiguation: walking the canonical table in order and giving each
//! record the first name of its candidate ladder — the text itself, then the
//! text suffixed with `_1`, `_2`, ... in unpadded lowercase hexadecimal —
//! that no earlier record was given, so that emitted names are globally
//! unique.

use vstd::prelude::*;

use crate::symbols::{
    DebugSymbolInfo, ProcedureDecl, PublicDecl, SymRec, SymbolArena, build_symbol_table,
    procs_view, pubs_view, spec_build_table,
};
use crate::text::{append_hex, hex_seq, lemma_hex_seq_injective, lemma_hex_seq_len, push_char};

verus! {

broadcast use vstd::set::group_set_axioms;

/// The k-th candidate name for a text: the text itself, then the text with
/// an underscore and the occurrence index in unpadded lowercase hexadecimal.
pub open spec fn nth_candidate(name: Seq<char>, k: nat) -> Seq<char> {
    if k == 0 {
        name
    } else {
        name + seq!['_'] + hex_seq(k)
    }
}

/// Different candidate indices of one text give different names.
proof fn lemma_candidate_injective(name: Seq<char>, k1: nat, k2: nat)
    requires
        nth_candidate(name, k1) == nth_candidate(name, k2),
    ensures
        k1 == k2,
{
    lemma_hex_seq_len(k1);
    lemma_hex_seq_len(k2);
    if k1 == 0 && k2 != 0 {
        assert(nth_candidate(name, k2).len() > name.len());
    } else if k1 != 0 && k2 == 0 {
        assert(nth_candidate(name, k1).len() > name.len());
    } else if k1 != 0 && k2 != 0 {
        let s1 = hex_seq(k1);
        let s2 = hex_seq(k2);
        assert((name + seq!['_'] + s1).len() == (name + seq!['_'] + s2).len());
        assert(s1.len() == s2.len());
        assert forall|l: int| 0 <= l < s1.len() implies s1[l] == s2[l] by {
            assert((name + seq!['_'] + s1)[name.len() + 1 + l] == s1[l]);
            assert((name + seq!['_'] + s2)[name.len() + 1 + l] == s2[l]);
        }
        assert(s1 =~= s2);
        lemma_hex_seq_injective(k1, k2);
    }
}

/// The first free candidate index at or after `k`: every occupied candidate
/// skipped spends one unit of fuel, and the used set can occupy at most
/// `used.len()` of them.
pub open spec fn pick_k(used: Set<Seq<char>>, name: Seq<char>, k: nat, fuel: nat) -> nat
    decreases fuel,
{
    if fuel > 0 && used.contains(nth_candidate(name, k)) {
        pick_k(used, name, k + 1, (fuel - 1) as nat)
    } else {
        k
    }
}

/// The name emitted for a record: the first candidate of its text that no
/// earlier record was given.
pub open spec fn disamb_pick(used: Set<Seq<char>>, name: Seq<char>) -> Seq<char> {
    nth_candidate(name, pick_k(used, name, 0, used.len()))
}

/// Walks the table in order, giving every record the first free candidate of
/// its name text; addresses and flags are untouched.
pub open spec fn disamb_fold(used: Set<Seq<char>>, t: Seq<SymRec>) -> Seq<SymRec>
    decreases t.len(),
{
    if t.len() == 0 {
        t
    } else {
        let nm = disamb_pick(used, t[0].name);
        seq![SymRec { address: t[0].address, name: nm, noreturn: t[0].noreturn }] + disamb_fold(
            used.insert(nm),
            t.drop_first(),
        )
    }
}

proof fn lemma_pick_k_ge(used: Set<Seq<char>>, name: Seq<char>, k: nat, fuel: nat)
    ensures
        pick_k(used, name, k, fuel) >= k,
    decreases fuel,
{
    if fuel > 0 && used.contains(nth_candidate(name, k)) {
        lemma_pick_k_ge(used, name, k + 1, (fuel - 1) as nat);
    }
}

proof fn lemma_pick_k_same(
    a: Set<Seq<char>>,
    b: Set<Seq<char>>,
    name: Seq<char>,
    k: nat,
    fuel: nat,
    x: Seq<char>,
)
    requires
        forall|s: Seq<char>| s != x ==> a.contains(s) == b.contains(s),
        forall|j: nat| j >= k ==> #[trigger] nth_candidate(name, j) != x,
    ensures
        pick_k(a, name, k, fuel) == pick_k(b, name, k, fuel),
    decreases fuel,
{
    if fuel > 0 {
        assert(nth_candidate(name, k) != x);
        if a.contains(nth_candidate(name, k)) {
            lemma_pick_k_same(a, b, name, k + 1, (fuel - 1) as nat, x);
        }
    }
}

/// With fuel at least the size of the finite used set, the picked candidate
/// is free.
proof fn lemma_pick_k_free(used: Set<Seq<char>>, name: Seq<char>, k: nat, fuel: nat)
    requires
        used.finite(),
        used.len() <= fuel,
    ensures
        !used.contains(nth_candidate(name, pick_k(used, name, k, fuel))),
    decreases fuel,
{
    let c = nth_candidate(name, k);
    if fuel > 0 && used.contains(c) {
        let used2 = used.remove(c);
        assert(used2.len() == used.len() - 1);
        assert forall|j: nat| j >= k + 1 implies #[trigger] nth_candidate(name, j) != c by {
            if nth_candidate(name, j) == c {
                lemma_candidate_injective(name, j, k);
            }
        }
        lemma_pick_k_same(used, used2, name, k + 1, (fuel - 1) as nat, c);
        lemma_pick_k_free(used2, name, k + 1, (fuel - 1) as nat);
        let kf = pick_k(used, name, k + 1, (fuel - 1) as nat);
        lemma_pick_k_ge(used2, name, k + 1, (fuel - 1) as nat);
        if nth_candidate(name, kf) == c {
            lemma_candidate_injective(name, kf, k);
        }
    } else if fuel == 0 {
        if used.contains(c) {
            assert(used.remove(c).len() == used.len() - 1);
        }
    }
}

/// The set of names already given out, as the model of the emitted-name list.
pub open spec fn used_view(v: Seq<String>) -> Set<Seq<char>>
    decreases v.len(),
{
    if v.len() == 0 {
        Set::empty()
    } else {
        used_view(v.drop_last()).insert(v.last()@)
    }
}

proof fn lemma_used_view_finite(v: Seq<String>)
    ensures
        used_view(v).finite(),
    decreases v.len(),
{
    if v.len() > 0 {
        lemma_used_view_finite(v.drop_last());
    }
}

proof fn lemma_used_view_membership(v: Seq<String>, s: Seq<char>)
    ensures
        used_view(v).contains(s) <==> exists|j: int| 0 <= j < v.len() && (#[trigger] v[j])@ == s,
    decreases v.len(),
{
    if v.len() > 0 {
        lemma_used_view_membership(v.drop_last(), s);
        assert(forall|j: int| 0 <= j < v.len() - 1 ==> #[trigger] v.drop_last()[j] == v[j]);
        if used_view(v).contains(s) && v.last()@ != s {
            let j = choose|j: int| 0 <= j < v.drop_last().len() && (#[trigger] v.drop_last()[j])@ == s;
            assert(v[j]@ == s);
        }
        if exists|j: int| 0 <= j < v.len() && (#[trigger] v[j])@ == s {
            let j = choose|j: int| 0 <= j < v.len() && (#[trigger] v[j])@ == s;
            if j == v.len() - 1 {
                assert(v.last()@ == s);
            } else {
                assert((v.drop_last()[j])@ == s);
                assert(used_view(v.drop_last()).contains(s));
            }
        }
    }
}

proof fn lemma_used_view_len_distinct(v: Seq<String>)
    requires
        forall|a: int, b: int| 0 <= a < b < v.len() ==> (#[trigger] v[a])@ != (#[trigger] v[b])@,
    ensures
        used_view(v).len() == v.len(),
    decreases v.len(),
{
    lemma_used_view_finite(v);
    if v.len() > 0 {
        let w = v.drop_last();
        assert(forall|j: int| 0 <= j < w.len() ==> #[trigger] w[j] == v[j]);
        lemma_used_view_len_distinct(w);
        lemma_used_view_membership(w, v.last()@);
        assert(!used_view(w).contains(v.last()@));
        lemma_used_view_finite(w);
    }
}

/// Decides whether a name was already given out.
fn name_used(used: &Vec<String>, name: &String) -> (r: bool)
    ensures
        r == used_view(used@).contains(name@),
{
    let n = used.len();
    let mut i: usize = 0;
    while i < n
        invariant
            i <= n,
            n == used@.len(),
            forall|j: int| 0 <= j < i ==> (#[trigger] used@[j])@ != name@,
        decreases n - i,
    {
        if used[i].eq(name) {
            proof {
                lemma_used_view_membership(used@, name@);
            }
            return true;
        }
        i = i + 1;
    }
    proof {
        lemma_used_view_membership(used@, name@);
    }
    false
}

/// Builds the k-th candidate name of a text.
fn make_candidate(name: &String, k: usize) -> (c: String)
    ensures
        c@ == nth_candidate(name@, k as nat),
{
    if k == 0 {
        name.clone()
    } else {
        let mut c = name.clone();
        push_char(&mut c, '_');
        append_hex(&mut c, k);
        proof {
            assert(c@ =~= name@ + seq!['_'] + hex_seq(k as nat));
        }
        c
    }
}

/// Walks the table in iteration order and emits one `DebugSymbolInfo` per
/// record, named by the first free candidate of its text — the text itself
/// where it was not given out yet, else the text suffixed with `_` and an
/// unpadded lowercase hexadecimal index; addresses and flags are untouched.
pub fn disambiguate(table: &SymbolArena) -> (r: Vec<DebugSymbolInfo>)
    ensures
        r@.map_values(|d: DebugSymbolInfo| d@) == disamb_fold(Set::empty(), table@),
{
    let entries = table.entries();
    let ghost t = table@;
    let mut used: Vec<String> = Vec::new();
    let mut out: Vec<DebugSymbolInfo> = Vec::new();
    let mut i: usize = 0;
    proof {
        assert(t.skip(0) =~= t);
        assert(used_view(used@) =~= Set::<Seq<char>>::empty());
        assert(out@.map_values(|d: DebugSymbolInfo| d@) =~= Seq::<SymRec>::empty());
    }
    while i < entries.len()
        invariant
            i <= entries.len(),
            entries@.map_values(|d: DebugSymbolInfo| d@) == t,
            forall|a: int, b: int|
                0 <= a < b < used@.len() ==> (#[trigger] used@[a])@ != (#[trigger] used@[b])@,
            disamb_fold(Set::empty(), t) == out@.map_values(|d: DebugSymbolInfo| d@) + disamb_fold(
                used_view(used@),
                t.skip(i as int),
            ),
        decreases entries.len() - i,
    {
        let ghost uv = used_view(used@);
        let ghost used0 = used@;
        let ghost out0 = out@;
        let e = &entries[i];
        proof {
            assert(entries@.map_values(|d: DebugSymbolInfo| d@)[i as int] == entries@[i as int]@);
            assert(e@ == t[i as int]);
            assert(t.skip(i as int)[0] == t[i as int]);
            assert(t.skip(i as int).drop_first() =~= t.skip(i as int + 1));
            lemma_used_view_finite(used@);
            lemma_used_view_len_distinct(used@);
        }
        let fuel0: usize = used.len();
        let ghost n = e.name@;
        let mut k: usize = 0;
        let mut f: usize = fuel0;
        let mut cand: String = make_candidate(&e.name, 0);
        loop
            invariant
                k + f == fuel0,
                uv == used_view(used@),
                n == e.name@,
                cand@ == nth_candidate(n, k as nat),
                pick_k(uv, n, 0, fuel0 as nat) == pick_k(uv, n, k as nat, f as nat),
            ensures
                cand@ == nth_candidate(n, pick_k(uv, n, 0, fuel0 as nat)),
            decreases f,
        {
            if f == 0 {
                break ;
            }
            if !name_used(&used, &cand) {
                break ;
            }
            k = k + 1;
            f = f - 1;
            cand = make_candidate(&e.name, k);
        }
        proof {
            assert(cand@ == disamb_pick(uv, n));
            lemma_pick_k_free(uv, n, 0, fuel0 as nat);
            assert(!uv.contains(cand@));
        }
        out.push(DebugSymbolInfo { address: e.address, name: cand.clone(), noreturn: e.noreturn });
        used.push(cand);
        proof {
            assert(used@.drop_last() =~= used0);
            assert(used_view(used@) =~= uv.insert(used@.last()@));
            lemma_used_view_membership(used0, used@.last()@);
            assert(forall|a: int| 0 <= a < used0.len() ==> (#[trigger] used0[a]) == used@[a]);
            let rec = SymRec { address: t[i as int].address, name: disamb_pick(uv, n), noreturn: t[i as int].noreturn };
            assert(out@.map_values(|d: DebugSymbolInfo| d@) =~= out0.map_values(
                |d: DebugSymbolInfo| d@,
            ).push(rec));
            assert(disamb_fold(uv, t.skip(i as int)) == seq![rec] + disamb_fold(
                uv.insert(rec.name),
                t.skip(i as int + 1),
            ));
            assert(out@.map_values(|d: DebugSymbolInfo| d@) + disamb_fold(
                used_view(used@),
                t.skip(i as int + 1),
            ) =~= out0.map_values(|d: DebugSymbolInfo| d@) + disamb_fold(uv, t.skip(i as int)));
        }
        i = i + 1;
    }
    proof {
        assert(t.skip(entries@.len() as int) =~= Seq::<SymRec>::empty());
    }
    out
}

/// Law: disambiguation leaves the length, the addresses and the flags of
/// the table untouched.
pub proof fn lemma_disamb_preserves_structure(used: Set<Seq<char>>, t: Seq<SymRec>)
    ensures
        ({
            let r = disamb_fold(used, t);
            &&& r.len() == t.len()
            &&& forall|i: int|
                0 <= i < t.len() ==> (#[trigger] r[i]).address == t[i].address && r[i].noreturn
                    == t[i].noreturn
        }),
    decreases t.len(),
{
    if t.len() > 0 {
        let r = disamb_fold(used, t);
        let nm = disamb_pick(used, t[0].name);
        let rest = disamb_fold(used.insert(nm), t.drop_first());
        lemma_disamb_preserves_structure(used.insert(nm), t.drop_first());
        assert forall|i: int|
            0 <= i < t.len() implies (#[trigger] r[i]).address == t[i].address && r[i].noreturn
            == t[i].noreturn by {
            if i >= 1 {
                assert(r[i] == rest[i - 1]);
                assert(t.drop_first()[i - 1] == t[i]);
            }
        }
    }
}

/// Law: disambiguation emits globally unique names — no two records of the
/// output share a name, and none reuses a name already given out.
pub proof fn lemma_disamb_names_unique(used: Set<Seq<char>>, t: Seq<SymRec>)
    requires
        used.finite(),
    ensures
        ({
            let r = disamb_fold(used, t);
            &&& forall|i: int| 0 <= i < r.len() ==> !used.contains((#[trigger] r[i]).name)
            &&& forall|i: int, j: int| 0 <= i < j < r.len() ==> r[i].name != r[j].name
        }),
    decreases t.len(),
{
    if t.len() > 0 {
        let r = disamb_fold(used, t);
        let nm = disamb_pick(used, t[0].name);
        let rest = disamb_fold(used.insert(nm), t.drop_first());
        lemma_pick_k_free(used, t[0].name, 0, used.len());
        lemma_disamb_preserves_structure(used.insert(nm), t.drop_first());
        lemma_disamb_names_unique(used.insert(nm), t.drop_first());
        assert forall|i: int| 0 <= i < r.len() implies !used.contains((#[trigger] r[i]).name) by {
            if i >= 1 {
                assert(r[i] == rest[i - 1]);
                assert(!used.insert(nm).contains(rest[i - 1].name));
            }
        }
        assert forall|i: int, j: int| 0 <= i < j < r.len() implies r[i].name != r[j].name by {
            assert(r[j] == rest[j - 1]);
            assert(!used.insert(nm).contains(rest[j - 1].name));
            if i >= 1 {
                assert(r[i] == rest[i - 1]);
            } else {
                assert(r[0].name == nm);
            }
        }
    }
}

/// The candidates of a text below index `k`, as a set: exactly the names the
/// fold has given out after `k` same-named records.
pub open spec fn candidate_set(name: Seq<char>, k: nat) -> Set<Seq<char>>
    decreases k,
{
    if k == 0 {
        Set::empty()
    } else {
        candidate_set(name, (k - 1) as nat).insert(nth_candidate(name, (k - 1) as nat))
    }
}

proof fn lemma_candidate_set_props(name: Seq<char>, k: nat)
    ensures
        candidate_set(name, k).finite(),
        candidate_set(name, k).len() == k,
        forall|s: Seq<char>|
            #[trigger] candidate_set(name, k).contains(s) <==> exists|l: nat|
                l < k && s == nth_candidate(name, l),
    decreases k,
{
    if k > 0 {
        let prev = candidate_set(name, (k - 1) as nat);
        lemma_candidate_set_props(name, (k - 1) as nat);
        assert(!prev.contains(nth_candidate(name, (k - 1) as nat))) by {
            if prev.contains(nth_candidate(name, (k - 1) as nat)) {
                let l = choose|l: nat|
                    l < (k - 1) as nat && nth_candidate(name, (k - 1) as nat) == #[trigger] nth_candidate(
                        name,
                        l,
                    );
                lemma_candidate_injective(name, (k - 1) as nat, l);
            }
        }
        assert forall|s: Seq<char>| #[trigger]
            candidate_set(name, k).contains(s) implies exists|l: nat|
            l < k && s == nth_candidate(name, l) by {
            if prev.contains(s) {
                let l = choose|l: nat| l < (k - 1) as nat && s == #[trigger] nth_candidate(name, l);
                assert(l < k && s == nth_candidate(name, l));
            } else {
                assert(s == nth_candidate(name, (k - 1) as nat));
                assert(((k - 1) as nat) < k && s == nth_candidate(name, (k - 1) as nat));
            }
        }
    }
}

proof fn lemma_pick_runs_through(used: Set<Seq<char>>, name: Seq<char>, k: nat, fuel: nat)
    requires
        forall|l: nat| k <= l < k + fuel ==> used.contains(#[trigger] nth_candidate(name, l)),
    ensures
        pick_k(used, name, k, fuel) == k + fuel,
    decreases fuel,
{
    if fuel > 0 {
        assert(used.contains(nth_candidate(name, k)));
        lemma_pick_runs_through(used, name, k + 1, (fuel - 1) as nat);
    }
}

proof fn lemma_same_name_suffixes(t: Seq<SymRec>, name: Seq<char>, k0: nat)
    requires
        forall|i: int| 0 <= i < t.len() ==> (#[trigger] t[i]).name == name,
    ensures
        ({
            let r = disamb_fold(candidate_set(name, k0), t);
            forall|i: int|
                0 <= i < t.len() ==> (#[trigger] r[i]).name == nth_candidate(name, (k0 + i) as nat)
        }),
    decreases t.len(),
{
    if t.len() > 0 {
        let used = candidate_set(name, k0);
        let r = disamb_fold(used, t);
        lemma_candidate_set_props(name, k0);
        assert(forall|l: nat|
            0 <= l < k0 ==> used.contains(#[trigger] nth_candidate(name, l)));
        lemma_pick_runs_through(used, name, 0, k0);
        assert(pick_k(used, name, 0, used.len()) == k0);
        let nm = disamb_pick(used, t[0].name);
        assert(t[0].name == name);
        assert(nm == nth_candidate(name, k0));
        assert(used.insert(nm) == candidate_set(name, (k0 + 1) as nat));
        lemma_same_name_suffixes(t.drop_first(), name, (k0 + 1) as nat);
        let rest = disamb_fold(candidate_set(name, (k0 + 1) as nat), t.drop_first());
        lemma_disamb_preserves_structure(candidate_set(name, (k0 + 1) as nat), t.drop_first());
        assert(rest.len() == t.len() - 1);
        assert(r == seq![SymRec { address: t[0].address, name: nm, noreturn: t[0].noreturn }]
            + rest);
        assert forall|i: int|
            0 <= i < t.len() implies (#[trigger] r[i]).name == nth_candidate(
            name,
            (k0 + i) as nat,
        ) by {
            if i >= 1 {
                assert(r[i] == rest[i - 1]);
                assert(t.drop_first()[i - 1] == t[i]);
                assert(rest[i - 1].name == nth_candidate(name, (k0 + 1 + (i - 1)) as nat));
            }
        }
    }
}

/// Law: when `n` records share one name text, the disambiguated table keeps
/// every address and flag and emits exactly the bare text for the first
/// record and the text suffixed with `_1`, `_2`, ... (unpadded lowercase
/// hexadecimal) for the records after it; all emitted names are distinct.
pub proof fn lemma_same_name_disambiguation(t: Seq<SymRec>, name: Seq<char>)
    requires
        forall|i: int| 0 <= i < t.len() ==> (#[trigger] t[i]).name == name,
    ensures
        ({
            let r = disamb_fold(Set::<Seq<char>>::empty(), t);
            &&& r.len() == t.len()
            &&& forall|i: int|
                0 <= i < t.len() ==> (#[trigger] r[i]).address == t[i].address && r[i].noreturn
                    == t[i].noreturn
            &&& forall|i: int|
                0 <= i < t.len() ==> (#[trigger] r[i]).name == if i == 0 {
                    name
                } else {
                    name + seq!['_'] + hex_seq(i as nat)
                }
            &&& forall|i: int, j: int| 0 <= i < j < t.len() ==> r[i].name != r[j].name
        }),
{
    let used = Set::<Seq<char>>::empty();
    lemma_disamb_preserves_structure(used, t);
    lemma_disamb_names_unique(used, t);
    assert(used =~= candidate_set(name, 0));
    lemma_same_name_suffixes(t, name, 0);
    let r = disamb_fold(used, t);
    assert forall|i: int|
        0 <= i < t.len() implies (#[trigger] r[i]).name == if i == 0 {
        name
    } else {
        name + seq!['_'] + hex_seq(i as nat)
    } by {
        assert(r[i].name == nth_candidate(name, i as nat));
    }
}

/// Runs the table construction on already-rendered declarations: builds the
/// deduplicated address table from both sources, then disambiguates names.
pub fn extract_symbols(procedures: &Vec<ProcedureDecl>, publics: &Vec<PublicDecl>) -> (r: Vec<
    DebugSymbolInfo,
>)
    ensures
        r@.map_values(|d: DebugSymbolInfo| d@) == disamb_fold(
            Set::empty(),
            spec_build_table(procs_view(procedures@), pubs_view(publics@)),
        ),
{
    let t = build_symbol_table(procedures, publics);
    disambiguate(&t)
}

} // verus!
