//! Building the minimal per-user path value from a candidate map.
//!
//! A directory is kept when it can stand as an entry, its case-folded form is
//! not already in the machine scope and does not lie under the reserved
//! system tree. Of several directories with one folded form, the first one
//! met is kept; the kept directories are ordered by their folded forms.
use vstd::prelude::*;
use crate::discovery::{all_dirs, names_sorted, CandidateMap, CandidateMapView};
use crate::pathvalue::{
    entries_of, is_plain_entry, join_strings, join_with, lemma_entries_of_join, lower_of,
    normalize_path, split_entries, views,
};

verus! {

/// Lexicographic order on folded directories, character by character.
pub open spec fn key_lt(a: Seq<char>, b: Seq<char>) -> bool
    decreases a.len(),
{
    if a.len() == 0 {
        b.len() > 0
    } else if b.len() == 0 {
        false
    } else if a[0] != b[0] {
        a[0] < b[0]
    } else {
        key_lt(a.drop_first(), b.drop_first())
    }
}

pub proof fn lemma_key_lt_irreflexive(a: Seq<char>)
    ensures
        !key_lt(a, a),
    decreases a.len(),
{
    if a.len() > 0 {
        lemma_key_lt_irreflexive(a.drop_first());
    }
}

pub proof fn lemma_key_lt_transitive(a: Seq<char>, b: Seq<char>, c: Seq<char>)
    requires
        key_lt(a, b),
        key_lt(b, c),
    ensures
        key_lt(a, c),
    decreases a.len(),
{
    if a.len() > 0 && b.len() > 0 && c.len() > 0 {
        if a[0] == b[0] && b[0] == c[0] {
            lemma_key_lt_transitive(a.drop_first(), b.drop_first(), c.drop_first());
        }
    }
}

pub proof fn lemma_key_lt_total(a: Seq<char>, b: Seq<char>)
    requires
        a != b,
    ensures
        key_lt(a, b) || key_lt(b, a),
    decreases a.len(),
{
    if a.len() == 0 {
        assert(b.len() > 0) by {
            if b.len() == 0 {
                assert(a =~= b);
            }
        }
    } else if b.len() > 0 {
        if a[0] == b[0] {
            if a.drop_first() == b.drop_first() {
                assert(a =~= seq![a[0]] + a.drop_first());
                assert(b =~= seq![b[0]] + b.drop_first());
            }
            lemma_key_lt_total(a.drop_first(), b.drop_first());
        }
    }
}

/// The folded forms of a list of directories.
pub open spec fn keys_of(es: Seq<Seq<char>>) -> Seq<Seq<char>> {
    es.map_values(|e: Seq<char>| lower_of(e))
}

/// The start of the reserved system directory tree, in folded form.
pub open spec fn reserved_prefix() -> Seq<char> {
    seq!['c', ':', '\\', 'w', 'i', 'n', 'd', 'o', 'w', 's']
}

/// A folded directory under the reserved system tree.
pub open spec fn is_reserved(k: Seq<char>) -> bool {
    reserved_prefix().is_prefix_of(k)
}

/// A candidate directory that may enter the user scope, given the machine scope.
pub open spec fn eligible(d: Seq<char>, machine: Seq<char>) -> bool {
    &&& is_plain_entry(d)
    &&& !keys_of(entries_of(machine)).contains(lower_of(d))
    &&& !is_reserved(lower_of(d))
}

/// `ds[j]` is eligible and no earlier eligible directory has its folded form.
pub open spec fn first_of_key(ds: Seq<Seq<char>>, machine: Seq<char>, j: int) -> bool {
    &&& 0 <= j < ds.len()
    &&& eligible(ds[j], machine)
    &&& forall|i: int|
        0 <= i < j && eligible(#[trigger] ds[i], machine) ==> lower_of(ds[i]) != lower_of(ds[j])
}

/// Each element is strictly below the next ones.
pub open spec fn strictly_sorted(ks: Seq<Seq<char>>) -> bool {
    forall|i: int, j: int| 0 <= i < j < ks.len() ==> key_lt(#[trigger] ks[i], #[trigger] ks[j])
}

/// `out` holds, for each folded form among the eligible directories of `ds`,
/// the first directory with that form, ordered by folded form.
pub open spec fn is_minimal_for(ds: Seq<Seq<char>>, machine: Seq<char>, out: Seq<Seq<char>>) -> bool {
    &&& forall|i: int|
        0 <= i < out.len() ==> exists|j: int| first_of_key(ds, machine, j) && ds[j] == #[trigger] out[i]
    &&& forall|j: int|
        0 <= j < ds.len() && eligible(#[trigger] ds[j], machine) ==> keys_of(out).contains(
            lower_of(ds[j]),
        )
    &&& strictly_sorted(keys_of(out))
}

/// `v` is the user-scope value built from the map `m` against the machine scope.
pub open spec fn is_built_value(m: CandidateMapView, machine: Seq<char>, v: Seq<char>) -> bool {
    &&& is_minimal_for(all_dirs(m), machine, entries_of(v))
    &&& v == join_with(entries_of(v), ';')
}

/// Two strictly sorted sequences with the same elements are equal.
pub proof fn lemma_sorted_same_elements(a: Seq<Seq<char>>, b: Seq<Seq<char>>)
    requires
        strictly_sorted(a),
        strictly_sorted(b),
        forall|x: Seq<char>| a.contains(x) <==> b.contains(x),
    ensures
        a == b,
    decreases a.len() + b.len(),
{
    if a.len() == 0 {
        if b.len() > 0 {
            assert(b.contains(b[0]));
        }
        assert(a =~= b);
    } else if b.len() == 0 {
        assert(a.contains(a[0]));
    } else {
        assert(a.contains(a[0]));
        assert(b.contains(b[0]));
        let j = choose|j: int| 0 <= j < b.len() && b[j] == a[0];
        let i = choose|i: int| 0 <= i < a.len() && a[i] == b[0];
        if a[0] != b[0] {
            assert(j > 0 && i > 0);
            assert(key_lt(b[0], b[j]));
            assert(key_lt(a[0], a[i]));
            lemma_key_lt_transitive(a[0], b[0], a[0]);
            lemma_key_lt_irreflexive(a[0]);
        }
        let a1 = a.drop_first();
        let b1 = b.drop_first();
        assert forall|x: Seq<char>| a1.contains(x) <==> b1.contains(x) by {
            if a1.contains(x) {
                let k = choose|k: int| 0 <= k < a1.len() && a1[k] == x;
                assert(a[k + 1] == x);
                assert(key_lt(a[0], a[k + 1]));
                lemma_key_lt_irreflexive(x);
                assert(b.contains(x));
                let l = choose|l: int| 0 <= l < b.len() && b[l] == x;
                assert(l != 0);
                assert(b1[l - 1] == x);
            }
            if b1.contains(x) {
                let k = choose|k: int| 0 <= k < b1.len() && b1[k] == x;
                assert(b[k + 1] == x);
                assert(key_lt(b[0], b[k + 1]));
                lemma_key_lt_irreflexive(x);
                assert(a.contains(x));
                let l = choose|l: int| 0 <= l < a.len() && a[l] == x;
                assert(l != 0);
                assert(a1[l - 1] == x);
            }
        }
        assert forall|p: int, q: int| 0 <= p < q < a1.len() implies key_lt(
            #[trigger] a1[p],
            #[trigger] a1[q],
        ) by {
            assert(a1[p] == a[p + 1] && a1[q] == a[q + 1]);
        }
        assert forall|p: int, q: int| 0 <= p < q < b1.len() implies key_lt(
            #[trigger] b1[p],
            #[trigger] b1[q],
        ) by {
            assert(b1[p] == b[p + 1] && b1[q] == b[q + 1]);
        }
        lemma_sorted_same_elements(a1, b1);
        assert(a =~= seq![a[0]] + a1);
        assert(b =~= seq![b[0]] + b1);
    }
}

/// Two lists that both meet `is_minimal_for` on the same inputs are equal.
proof fn lemma_minimal_unique(ds: Seq<Seq<char>>, machine: Seq<char>, a: Seq<Seq<char>>, b: Seq<Seq<char>>)
    requires
        is_minimal_for(ds, machine, a),
        is_minimal_for(ds, machine, b),
    ensures
        a == b,
{
    let ka = keys_of(a);
    let kb = keys_of(b);
    assert forall|x: Seq<char>| ka.contains(x) <==> kb.contains(x) by {
        if ka.contains(x) {
            let i = choose|i: int| 0 <= i < ka.len() && ka[i] == x;
            let j = choose|j: int| first_of_key(ds, machine, j) && ds[j] == #[trigger] a[i];
            assert(eligible(ds[j], machine));
        }
        if kb.contains(x) {
            let i = choose|i: int| 0 <= i < kb.len() && kb[i] == x;
            let j = choose|j: int| first_of_key(ds, machine, j) && ds[j] == #[trigger] b[i];
            assert(eligible(ds[j], machine));
        }
    }
    lemma_sorted_same_elements(ka, kb);
    assert forall|i: int| 0 <= i < a.len() implies a[i] == b[i] by {
        assert(ka[i] == kb[i]);
        let j1 = choose|j: int| first_of_key(ds, machine, j) && ds[j] == #[trigger] a[i];
        let j2 = choose|j: int| first_of_key(ds, machine, j) && ds[j] == #[trigger] b[i];
        if j1 < j2 {
            assert(eligible(ds[j1], machine));
        } else if j2 < j1 {
            assert(eligible(ds[j2], machine));
        }
    }
    assert(a =~= b);
}

/// Determinism: two values that both meet the contract of
/// `build_minimal_path` for one candidate map and one machine scope are
/// identical, character for character.
pub proof fn lemma_build_is_deterministic(
    m: CandidateMapView,
    machine: Seq<char>,
    v1: Seq<char>,
    v2: Seq<char>,
)
    requires
        is_built_value(m, machine, v1),
        is_built_value(m, machine, v2),
    ensures
        v1 == v2,
{
    lemma_minimal_unique(all_dirs(m), machine, entries_of(v1), entries_of(v2));
}

/// Two maps with names in order that hold the same (name, candidates)
/// entries are the same map.
proof fn lemma_same_entries_same_map(m1: CandidateMapView, m2: CandidateMapView)
    requires
        names_sorted(m1),
        names_sorted(m2),
        forall|e: (Seq<char>, Seq<crate::discovery::CandidateView>)| m1.contains(e) <==> m2.contains(e),
    ensures
        m1 == m2,
{
    let k1 = m1.map_values(|e: (Seq<char>, Seq<crate::discovery::CandidateView>)| e.0);
    let k2 = m2.map_values(|e: (Seq<char>, Seq<crate::discovery::CandidateView>)| e.0);
    assert forall|p: int, q: int| 0 <= p < q < k1.len() implies key_lt(#[trigger] k1[p], #[trigger] k1[q]) by {
        assert(k1[p] == m1[p].0 && k1[q] == m1[q].0);
    }
    assert forall|p: int, q: int| 0 <= p < q < k2.len() implies key_lt(#[trigger] k2[p], #[trigger] k2[q]) by {
        assert(k2[p] == m2[p].0 && k2[q] == m2[q].0);
    }
    assert forall|x: Seq<char>| k1.contains(x) <==> k2.contains(x) by {
        if k1.contains(x) {
            let i = choose|i: int| 0 <= i < k1.len() && k1[i] == x;
            assert(m1.contains(m1[i]));
            let j = choose|j: int| 0 <= j < m2.len() && m2[j] == m1[i];
            assert(k2[j] == x);
        }
        if k2.contains(x) {
            let i = choose|i: int| 0 <= i < k2.len() && k2[i] == x;
            assert(m2.contains(m2[i]));
            let j = choose|j: int| 0 <= j < m1.len() && m1[j] == m2[i];
            assert(k1[j] == x);
        }
    }
    lemma_sorted_same_elements(k1, k2);
    assert forall|i: int| 0 <= i < m1.len() implies m1[i] == m2[i] by {
        assert(m1.contains(m1[i]));
        let j = choose|j: int| 0 <= j < m2.len() && m2[j] == m1[i];
        assert(k1[i] == m1[i].0 && k2[i] == m2[i].0 && k2[j] == m2[j].0);
        if j < i {
            assert(key_lt(m2[j].0, m2[i].0));
            lemma_key_lt_irreflexive(m2[i].0);
        } else if j > i {
            assert(key_lt(m2[i].0, m2[j].0));
            lemma_key_lt_irreflexive(m2[i].0);
        }
    }
    assert(k1.len() == k2.len());
    assert(m1 =~= m2);
}

/// Building depends on the candidate map as a mapping only: two maps that
/// hold the same commands with the same candidate lists, whatever order
/// they were filled in, give byte-identical values against one machine scope.
pub proof fn lemma_build_depends_on_mapping_only(
    m1: CandidateMapView,
    m2: CandidateMapView,
    machine: Seq<char>,
    v1: Seq<char>,
    v2: Seq<char>,
)
    requires
        names_sorted(m1),
        names_sorted(m2),
        forall|e: (Seq<char>, Seq<crate::discovery::CandidateView>)| m1.contains(e) <==> m2.contains(e),
        is_built_value(m1, machine, v1),
        is_built_value(m2, machine, v2),
    ensures
        v1 == v2,
{
    lemma_same_entries_same_map(m1, m2);
    lemma_build_is_deterministic(m1, machine, v1, v2);
}

/// A built user-scope value holds no two entries with the same folded form.
pub proof fn lemma_built_value_has_no_duplicates(m: CandidateMapView, machine: Seq<char>, v: Seq<char>)
    requires
        is_built_value(m, machine, v),
    ensures
        forall|i: int, j: int|
            0 <= i < j < entries_of(v).len() ==> lower_of(#[trigger] entries_of(v)[i]) != lower_of(
                #[trigger] entries_of(v)[j],
            ),
{
    let es = entries_of(v);
    assert forall|i: int, j: int| 0 <= i < j < es.len() implies lower_of(#[trigger] es[i]) != lower_of(
        #[trigger] es[j],
    ) by {
        assert(key_lt(keys_of(es)[i], keys_of(es)[j]));
        lemma_key_lt_irreflexive(lower_of(es[i]));
    }
}

/// No entry of a built user-scope value has the folded form of an entry of
/// the machine scope it was built against.
pub proof fn lemma_built_value_excludes_machine_scope(
    m: CandidateMapView,
    machine: Seq<char>,
    v: Seq<char>,
)
    requires
        is_built_value(m, machine, v),
    ensures
        forall|i: int, k: int|
            0 <= i < entries_of(v).len() && 0 <= k < entries_of(machine).len() ==> lower_of(
                #[trigger] entries_of(v)[i],
            ) != lower_of(#[trigger] entries_of(machine)[k]),
{
    let es = entries_of(v);
    let ms = entries_of(machine);
    let ds = all_dirs(m);
    assert forall|i: int, k: int| 0 <= i < es.len() && 0 <= k < ms.len() implies lower_of(
        #[trigger] es[i],
    ) != lower_of(#[trigger] ms[k]) by {
        let j = choose|j: int| first_of_key(ds, machine, j) && ds[j] == #[trigger] es[i];
        assert(eligible(ds[j], machine));
        assert(keys_of(ms)[k] == lower_of(ms[k]));
    }
}

/// No entry of a built user-scope value lies under the reserved system tree.
pub proof fn lemma_built_value_avoids_reserved_tree(m: CandidateMapView, machine: Seq<char>, v: Seq<char>)
    requires
        is_built_value(m, machine, v),
    ensures
        forall|i: int| 0 <= i < entries_of(v).len() ==> !is_reserved(lower_of(#[trigger] entries_of(v)[i])),
{
    let es = entries_of(v);
    let ds = all_dirs(m);
    assert forall|i: int| 0 <= i < es.len() implies !is_reserved(lower_of(#[trigger] es[i])) by {
        let j = choose|j: int| first_of_key(ds, machine, j) && ds[j] == #[trigger] es[i];
        assert(eligible(ds[j], machine));
    }
}

/// Compares two folded directories.
pub fn key_less(a: &str, b: &str) -> (r: bool)
    ensures
        r == key_lt(a@, b@),
{
    let na = a.unicode_len();
    let nb = b.unicode_len();
    let mut i: usize = 0;
    proof {
        assert(a@.skip(0) =~= a@);
        assert(b@.skip(0) =~= b@);
    }
    while i < na && i < nb
        invariant
            na == a@.len(),
            nb == b@.len(),
            i <= na,
            i <= nb,
            key_lt(a@, b@) == key_lt(a@.skip(i as int), b@.skip(i as int)),
        decreases na - i,
    {
        let ca = a.get_char(i);
        let cb = b.get_char(i);
        proof {
            assert(a@.skip(i as int)[0] == ca);
            assert(b@.skip(i as int)[0] == cb);
        }
        if ca != cb {
            return ca < cb;
        }
        proof {
            assert(a@.skip(i as int).drop_first() =~= a@.skip(i + 1));
            assert(b@.skip(i as int).drop_first() =~= b@.skip(i + 1));
        }
        i = i + 1;
    }
    proof {
        if i == na {
            assert(a@.skip(i as int).len() == 0);
        } else {
            assert(b@.skip(i as int).len() == 0);
        }
    }
    i == na && i < nb
}

/// Whether `s` starts with `p`.
pub fn has_prefix(s: &str, p: &str) -> (r: bool)
    ensures
        r == p@.is_prefix_of(s@),
{
    let ns = s.unicode_len();
    let np = p.unicode_len();
    if np > ns {
        return false;
    }
    let mut i: usize = 0;
    while i < np
        invariant
            ns == s@.len(),
            np == p@.len(),
            np <= ns,
            i <= np,
            forall|k: int| 0 <= k < i ==> p@[k] == s@[k],
        decreases np - i,
    {
        if s.get_char(i) != p.get_char(i) {
            proof {
                assert(s@.subrange(0, np as int)[i as int] != p@[i as int]);
            }
            return false;
        }
        i = i + 1;
    }
    proof {
        assert(p@ =~= s@.subrange(0, np as int));
    }
    true
}

/// Whether `d` can stand as one entry of a path value.
pub fn is_plain(d: &str) -> (r: bool)
    ensures
        r == is_plain_entry(d@),
{
    let n = d.unicode_len();
    if n == 0 {
        return false;
    }
    let mut i: usize = 0;
    while i < n
        invariant
            n == d@.len(),
            i <= n,
            forall|k: int| 0 <= k < i ==> d@[k] != ';',
        decreases n - i,
    {
        if d.get_char(i) == ';' {
            proof {
                assert(d@.contains(';'));
            }
            return false;
        }
        i = i + 1;
    }
    true
}

/// Whether a folded directory lies under the reserved system tree.
pub fn under_reserved_tree(k: &str) -> (r: bool)
    ensures
        r == is_reserved(k@),
{
    let prefix = "c:\\windows";
    proof {
        reveal_strlit("c:\\windows");
        assert(prefix@ =~= reserved_prefix());
    }
    has_prefix(k, prefix)
}

/// Whether `v` holds a string equal to `s`.
pub fn contains_string(v: &Vec<String>, s: &String) -> (r: bool)
    ensures
        r == views(v@).contains(s@),
{
    let mut i: usize = 0;
    while i < v.len()
        invariant
            i <= v@.len(),
            forall|k: int| 0 <= k < i ==> v@[k]@ != s@,
        decreases v@.len() - i,
    {
        if v[i] == *s {
            proof {
                assert(views(v@)[i as int] == s@);
            }
            return true;
        }
        i = i + 1;
    }
    proof {
        if views(v@).contains(s@) {
            let k = choose|k: int| 0 <= k < views(v@).len() && views(v@)[k] == s@;
            assert(v@[k]@ == s@);
        }
    }
    false
}

/// The first index whose key is above `k`, or the length.
fn insertion_point(keys: &Vec<String>, k: &String) -> (p: usize)
    ensures
        p <= keys@.len(),
        forall|q: int| 0 <= q < p ==> !key_lt(k@, #[trigger] keys@[q]@),
        p < keys@.len() ==> key_lt(k@, keys@[p as int]@),
{
    let mut i: usize = 0;
    while i < keys.len()
        invariant
            i <= keys@.len(),
            forall|q: int| 0 <= q < i ==> !key_lt(k@, #[trigger] keys@[q]@),
        decreases keys@.len() - i,
    {
        if key_less(k.as_str(), keys[i].as_str()) {
            return i;
        }
        i = i + 1;
    }
    i
}

pub proof fn lemma_insert_keeps_sorted(ks: Seq<Seq<char>>, k: Seq<char>, p: int)
    requires
        strictly_sorted(ks),
        !ks.contains(k),
        0 <= p <= ks.len(),
        forall|q: int| 0 <= q < p ==> !key_lt(k, #[trigger] ks[q]),
        p < ks.len() ==> key_lt(k, ks[p]),
    ensures
        strictly_sorted(ks.insert(p, k)),
{
    let r = ks.insert(p, k);
    assert forall|i: int, j: int| 0 <= i < j < r.len() implies key_lt(#[trigger] r[i], #[trigger] r[j]) by {
        if i < p && j < p {
            assert(r[i] == ks[i] && r[j] == ks[j]);
        } else if i < p && j == p {
            assert(r[i] == ks[i]);
            assert(ks[i] != k);
            lemma_key_lt_total(k, ks[i]);
        } else if i < p {
            assert(r[i] == ks[i] && r[j] == ks[j - 1]);
        } else if i == p {
            assert(r[j] == ks[j - 1]);
            if j - 1 > p {
                lemma_key_lt_transitive(k, ks[p], ks[j - 1]);
            }
        } else {
            assert(r[i] == ks[i - 1] && r[j] == ks[j - 1]);
        }
    }
}

/// The minimal user-scope value for `map`, given the machine scope's value.
///
/// Directories that cannot stand as an entry (empty, or holding the
/// separator) are left out.
pub fn build_minimal_path(map: &CandidateMap, machine_scope: &str) -> (r: String)
    ensures
        is_built_value(map@, machine_scope@, r@),
{
    let ds = map.directories();
    let ghost dsv = views(ds@);
    let machine_entries = split_entries(machine_scope);
    let ghost ms = entries_of(machine_scope@);
    let mut excluded: Vec<String> = Vec::new();
    let mut i: usize = 0;
    while i < machine_entries.len()
        invariant
            i <= machine_entries@.len(),
            views(machine_entries@) == ms,
            views(excluded@) == keys_of(ms.take(i as int)),
        decreases machine_entries@.len() - i,
    {
        let k = normalize_path(machine_entries[i].as_str());
        let ghost prev = excluded@;
        excluded.push(k);
        proof {
            assert(views(machine_entries@)[i as int] == machine_entries@[i as int]@);
            assert(ms.take(i + 1) =~= ms.take(i as int).push(ms[i as int]));
            assert(keys_of(ms.take(i + 1)) =~= keys_of(ms.take(i as int)).push(lower_of(ms[i as int])));
            assert(views(excluded@) =~= views(prev).push(k@));
            assert(views(excluded@) =~= keys_of(ms.take(i + 1)));
        }
        i = i + 1;
    }
    proof {
        assert(ms.take(ms.len() as int) =~= ms);
    }
    let mut reps: Vec<String> = Vec::new();
    let mut keys: Vec<String> = Vec::new();
    let ghost mut wit: Seq<int> = Seq::empty();
    let mut n: usize = 0;
    while n < ds.len()
        invariant
            n <= ds@.len(),
            dsv == views(ds@),
            dsv == all_dirs(map@),
            views(excluded@) == keys_of(ms),
            ms == entries_of(machine_scope@),
            views(keys@) == keys_of(views(reps@)),
            wit.len() == reps@.len(),
            forall|q: int|
                0 <= q < reps@.len() ==> 0 <= #[trigger] wit[q] < n && first_of_key(
                    dsv,
                    machine_scope@,
                    wit[q],
                ) && dsv[wit[q]] == reps@[q]@,
            forall|j: int|
                0 <= j < n && eligible(#[trigger] dsv[j], machine_scope@) ==> views(keys@).contains(
                    lower_of(dsv[j]),
                ),
            strictly_sorted(views(keys@)),
        decreases ds@.len() - n,
    {
        let d = &ds[n];
        assert(dsv[n as int] == d@);
        if is_plain(d.as_str()) {
            let k = normalize_path(d.as_str());
            if !under_reserved_tree(k.as_str()) && !contains_string(&excluded, &k)
                && !contains_string(&keys, &k) {
                let p = insertion_point(&keys, &k);
                proof {
                    assert forall|q: int| 0 <= q < p implies !key_lt(k@, #[trigger] views(keys@)[q]) by {
                        assert(views(keys@)[q] == keys@[q]@);
                    }
                    if p < keys@.len() {
                        assert(views(keys@)[p as int] == keys@[p as int]@);
                    }
                    lemma_insert_keeps_sorted(views(keys@), k@, p as int);
                    assert(forall|j: int|
                        0 <= j < n && eligible(#[trigger] dsv[j], machine_scope@) ==> lower_of(dsv[j])
                            != k@);
                }
                let ghost old_keys = views(keys@);
                let ghost old_reps = reps@;
                reps.insert(p, d.clone());
                keys.insert(p, k);
                proof {
                    wit = wit.insert(p as int, n as int);
                    assert(views(keys@) =~= old_keys.insert(p as int, k@));
                    assert(views(keys@) =~= keys_of(views(reps@)));
                    assert(first_of_key(dsv, machine_scope@, n as int));
                    assert forall|q: int| 0 <= q < reps@.len() implies 0 <= #[trigger] wit[q] < n + 1
                        && first_of_key(dsv, machine_scope@, wit[q]) && dsv[wit[q]] == reps@[q]@ by {
                        if q < p {
                            assert(reps@[q] == old_reps[q]);
                        } else if q > p {
                            assert(reps@[q] == old_reps[q - 1]);
                        }
                    }
                    assert forall|j: int|
                        0 <= j < n + 1 && eligible(#[trigger] dsv[j], machine_scope@) implies views(
                            keys@,
                        ).contains(lower_of(dsv[j])) by {
                        if j < n {
                            let t = choose|t: int| 0 <= t < old_keys.len() && old_keys[t] == lower_of(dsv[j]);
                            if t < p {
                                assert(views(keys@)[t] == lower_of(dsv[j]));
                            } else {
                                assert(views(keys@)[t + 1] == lower_of(dsv[j]));
                            }
                        } else {
                            assert(views(keys@)[p as int] == k@);
                        }
                    }
                }
            }
        }
        n = n + 1;
    }
    let r = join_strings(&reps, ';');
    proof {
        let out = views(reps@);
        assert forall|q: int| 0 <= q < out.len() implies is_plain_entry(#[trigger] out[q]) by {
            assert(eligible(dsv[wit[q]], machine_scope@));
        }
        lemma_entries_of_join(out);
        assert forall|q: int| 0 <= q < out.len() implies exists|j: int|
            first_of_key(dsv, machine_scope@, j) && dsv[j] == #[trigger] out[q] by {
            assert(first_of_key(dsv, machine_scope@, wit[q]) && dsv[wit[q]] == out[q]);
        }
    }
    r
}

/// `p` occurs in `s` as a contiguous run.
pub open spec fn contains_run(s: Seq<char>, p: Seq<char>) -> bool {
    exists|i: int| 0 <= i && i + p.len() <= s.len() && #[trigger] s.subrange(i, i + p.len()) == p
}

/// A folded directory that looks rooted in a user profile.
pub open spec fn is_user_rooted(k: Seq<char>) -> bool {
    contains_run(k, "users"@) || contains_run(k, "appdata"@) || contains_run(k, ".cargo"@)
}

/// Candidates were found, yet the built value holds no user-profile
/// directory (an empty value included): worth a look, though not an error.
pub open spec fn build_looks_unusual(m: CandidateMapView, v: Seq<char>) -> bool {
    &&& all_dirs(m).len() > 0
    &&& forall|i: int| 0 <= i < entries_of(v).len() ==> !is_user_rooted(lower_of(#[trigger] entries_of(v)[i]))
}

/// Whether `p` occurs in `s`.
pub fn has_run(s: &str, p: &str) -> (r: bool)
    ensures
        r == contains_run(s@, p@),
{
    let ns = s.unicode_len();
    let np = p.unicode_len();
    if np > ns {
        proof {
            assert forall|i: int| 0 <= i && i + p@.len() <= s@.len() implies #[trigger] s@.subrange(i, i + p@.len()) != p@ by {}
        }
        return false;
    }
    let mut i: usize = 0;
    while i <= ns - np
        invariant
            ns == s@.len(),
            np == p@.len(),
            np <= ns,
            i <= ns - np + 1,
            forall|k: int| 0 <= k < i ==> #[trigger] s@.subrange(k, k + np) != p@,
        decreases ns - np + 1 - i,
    {
        let rest = s.substring_char(i, ns);
        if has_prefix(rest, p) {
            proof {
                assert(s@.subrange(i as int, i + np) =~= rest@.subrange(0, np as int));
            }
            return true;
        }
        proof {
            assert(s@.subrange(i as int, i + np) =~= rest@.subrange(0, np as int));
        }
        i = i + 1;
    }
    false
}

/// Whether a build of `map` that gave `built` deserves a warning.
pub fn looks_unusual(map: &CandidateMap, built: &str) -> (r: bool)
    ensures
        r == build_looks_unusual(map@, built@),
{
    let ds = map.directories();
    if ds.len() == 0 {
        return false;
    }
    let parts = split_entries(built);
    let mut i: usize = 0;
    while i < parts.len()
        invariant
            i <= parts@.len(),
            views(parts@) == entries_of(built@),
            forall|k: int| 0 <= k < i ==> !is_user_rooted(lower_of(#[trigger] entries_of(built@)[k])),
        decreases parts@.len() - i,
    {
        let k = normalize_path(parts[i].as_str());
        proof {
            assert(entries_of(built@)[i as int] == parts@[i as int]@);
        }
        if has_run(k.as_str(), "users") || has_run(k.as_str(), "appdata") || has_run(k.as_str(), ".cargo") {
            return false;
        }
        i = i + 1;
    }
    true
}

} // verus!
