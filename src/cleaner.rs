//! Deduplicating a scope, comparing two values, and the texts of the side
//! files (the registry backup and the POSIX mirror).
use vstd::prelude::*;
use crate::minimal::{contains_string, keys_of};
use crate::pathvalue::{
    entries_of, is_plain_entry, join_strings, join_with, lower_of, normalize_path, posix_of,
    push_char, scan, split_entries, views, win_to_posix,
};

verus! {

/// The entries of `es` whose folded form is new when met, first-seen casing kept.
pub open spec fn dedup_first(es: Seq<Seq<char>>) -> Seq<Seq<char>>
    decreases es.len(),
{
    if es.len() == 0 {
        Seq::empty()
    } else {
        let d = dedup_first(es.drop_last());
        if keys_of(d).contains(lower_of(es.last())) {
            d
        } else {
            d.push(es.last())
        }
    }
}

/// The entries of `es` whose folded form is not among `ks`, in order.
pub open spec fn entries_not_in(es: Seq<Seq<char>>, ks: Seq<Seq<char>>) -> Seq<Seq<char>>
    decreases es.len(),
{
    if es.len() == 0 {
        Seq::empty()
    } else {
        let rest = entries_not_in(es.drop_last(), ks);
        if ks.contains(lower_of(es.last())) {
            rest
        } else {
            rest.push(es.last())
        }
    }
}

/// A list in which no two entries have the same folded form.
pub open spec fn no_folded_duplicates(es: Seq<Seq<char>>) -> bool {
    forall|i: int, j: int| 0 <= i < j < es.len() ==> lower_of(#[trigger] es[i]) != lower_of(#[trigger] es[j])
}

proof fn lemma_scan_plain(s: Seq<char>)
    ensures
        forall|i: int| 0 <= i < scan(s).0.len() ==> is_plain_entry(#[trigger] scan(s).0[i]),
        !scan(s).1.contains(';'),
    decreases s.len(),
{
    if s.len() > 0 {
        lemma_scan_plain(s.drop_last());
        let (done, cur) = scan(s.drop_last());
        if s.last() != ';' {
            assert forall|k: int| 0 <= k < cur.push(s.last()).len() implies cur.push(s.last())[k] != ';' by {
                if k < cur.len() {
                    assert(cur.push(s.last())[k] == cur[k]);
                }
            }
        } else {
            assert(Seq::<char>::empty().len() == 0);
        }
    }
}

/// Every entry of a value is non-empty and free of the separator.
pub proof fn lemma_entries_are_plain(s: Seq<char>)
    ensures
        forall|i: int| 0 <= i < entries_of(s).len() ==> is_plain_entry(#[trigger] entries_of(s)[i]),
{
    lemma_scan_plain(s);
}

proof fn lemma_dedup_first_props(es: Seq<Seq<char>>)
    ensures
        no_folded_duplicates(dedup_first(es)),
        forall|i: int| 0 <= i < dedup_first(es).len() ==> es.contains(#[trigger] dedup_first(es)[i]),
    decreases es.len(),
{
    if es.len() > 0 {
        lemma_dedup_first_props(es.drop_last());
        let d = dedup_first(es.drop_last());
        let x = es.last();
        if !keys_of(d).contains(lower_of(x)) {
            let e = d.push(x);
            assert forall|i: int, j: int| 0 <= i < j < e.len() implies lower_of(#[trigger] e[i]) != lower_of(
                #[trigger] e[j],
            ) by {
                if j == d.len() {
                    assert(keys_of(d)[i] == lower_of(d[i]));
                } else {
                    assert(e[i] == d[i] && e[j] == d[j]);
                }
            }
        }
        assert forall|i: int| 0 <= i < dedup_first(es).len() implies es.contains(
            #[trigger] dedup_first(es)[i],
        ) by {
            if i < d.len() {
                assert(es.drop_last().contains(d[i]));
                let k = choose|k: int| 0 <= k < es.drop_last().len() && es.drop_last()[k] == d[i];
                assert(es[k] == d[i]);
            } else {
                assert(es[es.len() - 1] == x);
            }
        }
    }
}

/// A deduplicated scope value holds no two entries with the same folded form,
/// and each of its entries comes from the raw value.
pub proof fn lemma_dedup_scope_is_clean(raw: Seq<char>)
    ensures
        no_folded_duplicates(entries_of(join_with(dedup_first(entries_of(raw)), ';'))),
        forall|i: int|
            0 <= i < dedup_first(entries_of(raw)).len() ==> entries_of(raw).contains(
                #[trigger] dedup_first(entries_of(raw))[i],
            ),
{
    let es = entries_of(raw);
    lemma_dedup_first_props(es);
    lemma_entries_are_plain(raw);
    let d = dedup_first(es);
    assert forall|i: int| 0 <= i < d.len() implies is_plain_entry(#[trigger] d[i]) by {
        let k = choose|k: int| 0 <= k < es.len() && es[k] == d[i];
    }
    crate::pathvalue::lemma_entries_of_join(d);
}

/// The outcome of deduplicating one scope value.
pub struct ScopeCleanup {
    /// The deduplicated value.
    pub value: String,
    /// How many entries the raw value had.
    pub raw_count: usize,
    /// How many entries the deduplicated value has.
    pub deduplicated_count: usize,
}

impl ScopeCleanup {
    /// Whether deduplication removed anything, so that a write is needed.
    pub fn changed(&self) -> (r: bool)
        ensures
            r == (self.raw_count != self.deduplicated_count),
    {
        self.raw_count != self.deduplicated_count
    }
}

/// Removes entries whose folded form was already met, keeping first-seen
/// order and casing; empty segments are dropped.
pub fn dedup_scope(raw: &str) -> (r: ScopeCleanup)
    ensures
        r.value@ == join_with(dedup_first(entries_of(raw@)), ';'),
        r.raw_count == entries_of(raw@).len(),
        r.deduplicated_count == dedup_first(entries_of(raw@)).len(),
{
    let parts = split_entries(raw);
    let ghost es = views(parts@);
    let mut kept: Vec<String> = Vec::new();
    let mut kept_keys: Vec<String> = Vec::new();
    let mut i: usize = 0;
    while i < parts.len()
        invariant
            i <= parts@.len(),
            es == views(parts@),
            views(kept@) == dedup_first(es.take(i as int)),
            views(kept_keys@) == keys_of(views(kept@)),
            kept@.len() <= i,
        decreases parts@.len() - i,
    {
        let k = normalize_path(parts[i].as_str());
        proof {
            assert(es.take(i + 1).drop_last() =~= es.take(i as int));
            assert(es.take(i + 1).last() == parts@[i as int]@);
        }
        if !contains_string(&kept_keys, &k) {
            let ghost pk = kept@;
            let ghost pkk = kept_keys@;
            kept.push(parts[i].clone());
            kept_keys.push(k);
            proof {
                assert(views(kept@) =~= views(pk).push(parts@[i as int]@));
                assert(views(kept_keys@) =~= views(pkk).push(k@));
                assert(keys_of(views(kept@)) =~= keys_of(views(pk)).push(k@));
            }
        }
        i = i + 1;
    }
    proof {
        assert(es.take(parts@.len() as int) =~= es);
    }
    let value = join_strings(&kept, ';');
    ScopeCleanup { value, raw_count: parts.len(), deduplicated_count: kept.len() }
}

/// The folded forms of a list of strings.
fn fold_all(v: &Vec<String>) -> (r: Vec<String>)
    ensures
        views(r@) == keys_of(views(v@)),
{
    let mut out: Vec<String> = Vec::new();
    let mut i: usize = 0;
    while i < v.len()
        invariant
            i <= v@.len(),
            views(out@) == keys_of(views(v@).take(i as int)),
        decreases v@.len() - i,
    {
        let ghost prev = out@;
        out.push(normalize_path(v[i].as_str()));
        proof {
            assert(views(v@).take(i + 1) =~= views(v@).take(i as int).push(v@[i as int]@));
            assert(keys_of(views(v@).take(i + 1)) =~= keys_of(views(v@).take(i as int)).push(
                lower_of(v@[i as int]@),
            ));
            assert(views(out@) =~= views(prev).push(lower_of(v@[i as int]@)));
        }
        i = i + 1;
    }
    proof {
        assert(views(v@).take(v@.len() as int) =~= views(v@));
    }
    out
}

/// The strings of `es` whose folded form is not among `ks`.
fn keep_missing(es: &Vec<String>, ks: &Vec<String>) -> (r: Vec<String>)
    ensures
        views(r@) == entries_not_in(views(es@), views(ks@)),
{
    let mut out: Vec<String> = Vec::new();
    let mut i: usize = 0;
    while i < es.len()
        invariant
            i <= es@.len(),
            views(out@) == entries_not_in(views(es@).take(i as int), views(ks@)),
        decreases es@.len() - i,
    {
        let k = normalize_path(es[i].as_str());
        proof {
            let t = views(es@).take(i + 1);
            assert(t.drop_last() =~= views(es@).take(i as int));
            assert(t.last() == es@[i as int]@);
        }
        if !contains_string(ks, &k) {
            let ghost prev = out@;
            out.push(es[i].clone());
            proof {
                assert(views(out@) =~= views(prev).push(es@[i as int]@));
            }
        }
        i = i + 1;
    }
    proof {
        assert(views(es@).take(es@.len() as int) =~= views(es@));
    }
    out
}

/// The entries of `es` whose folded form is among `ks`, in order.
pub open spec fn entries_in(es: Seq<Seq<char>>, ks: Seq<Seq<char>>) -> Seq<Seq<char>>
    decreases es.len(),
{
    if es.len() == 0 {
        Seq::empty()
    } else {
        let rest = entries_in(es.drop_last(), ks);
        if ks.contains(lower_of(es.last())) {
            rest.push(es.last())
        } else {
            rest
        }
    }
}

/// The entries of the user scope that the machine scope already holds,
/// compared by folded form, in the user scope's order.
pub fn shared_entries(user_value: &str, machine_value: &str) -> (r: Vec<String>)
    ensures
        views(r@) == entries_in(entries_of(user_value@), keys_of(entries_of(machine_value@))),
{
    let user = split_entries(user_value);
    let machine = split_entries(machine_value);
    let machine_keys = fold_all(&machine);
    let mut out: Vec<String> = Vec::new();
    let mut i: usize = 0;
    while i < user.len()
        invariant
            i <= user@.len(),
            views(machine_keys@) == keys_of(entries_of(machine_value@)),
            views(out@) == entries_in(views(user@).take(i as int), views(machine_keys@)),
        decreases user@.len() - i,
    {
        let k = normalize_path(user[i].as_str());
        proof {
            let t = views(user@).take(i + 1);
            assert(t.drop_last() =~= views(user@).take(i as int));
            assert(t.last() == user@[i as int]@);
        }
        if contains_string(&machine_keys, &k) {
            let ghost prev = out@;
            out.push(user[i].clone());
            proof {
                assert(views(out@) =~= views(prev).push(user@[i as int]@));
            }
        }
        i = i + 1;
    }
    proof {
        assert(views(user@).take(user@.len() as int) =~= views(user@));
    }
    out
}

/// The entries that a change from one value to another adds and removes,
/// compared by folded form.
pub struct PathDiff {
    pub adding: Vec<String>,
    pub removing: Vec<String>,
}

/// Entries of `new_value` not in `old_value`, and entries of `old_value` not
/// in `new_value`, each in its value's order.
pub fn compute_diff(old_value: &str, new_value: &str) -> (r: PathDiff)
    ensures
        views(r.adding@) == entries_not_in(entries_of(new_value@), keys_of(entries_of(old_value@))),
        views(r.removing@) == entries_not_in(entries_of(old_value@), keys_of(entries_of(new_value@))),
{
    let old_entries = split_entries(old_value);
    let new_entries = split_entries(new_value);
    let old_keys = fold_all(&old_entries);
    let new_keys = fold_all(&new_entries);
    let adding = keep_missing(&new_entries, &old_keys);
    let removing = keep_missing(&old_entries, &new_keys);
    PathDiff { adding, removing }
}

proof fn lemma_entries_not_in_own_keys(es: Seq<Seq<char>>, ks: Seq<Seq<char>>)
    requires
        forall|i: int| 0 <= i < es.len() ==> ks.contains(lower_of(#[trigger] es[i])),
    ensures
        entries_not_in(es, ks).len() == 0,
    decreases es.len(),
{
    if es.len() > 0 {
        assert forall|i: int| 0 <= i < es.drop_last().len() implies ks.contains(
            lower_of(#[trigger] es.drop_last()[i]),
        ) by {
            assert(es.drop_last()[i] == es[i]);
        }
        lemma_entries_not_in_own_keys(es.drop_last(), ks);
        assert(ks.contains(lower_of(es[es.len() - 1])));
    }
}

/// Comparing a value with itself adds nothing and removes nothing.
pub proof fn lemma_diff_with_itself_is_empty(v: Seq<char>)
    ensures
        entries_not_in(entries_of(v), keys_of(entries_of(v))).len() == 0,
{
    let es = entries_of(v);
    assert forall|i: int| 0 <= i < es.len() implies keys_of(es).contains(lower_of(#[trigger] es[i])) by {
        assert(keys_of(es)[i] == lower_of(es[i]));
    }
    lemma_entries_not_in_own_keys(es, keys_of(es));
}

/// `s` with each `\` and `"` preceded by a `\`.
pub open spec fn reg_escape(s: Seq<char>) -> Seq<char>
    decreases s.len(),
{
    if s.len() == 0 {
        Seq::empty()
    } else {
        let rest = reg_escape(s.drop_last());
        let c = s.last();
        if c == '\\' || c == '"' {
            rest.push('\\').push(c)
        } else {
            rest.push(c)
        }
    }
}

/// The registry-import text that restores the user scope to `old`.
pub open spec fn backup_text(old: Seq<char>) -> Seq<char> {
    "Windows Registry Editor Version 5.00\n\n[HKEY_CURRENT_USER\\Environment]\n\"Path\"=\""@
        + reg_escape(old) + "\"\n"@
}

/// The backup record for a prior user-scope value, in the key=value format
/// that the platform's registry import reads.
pub fn reg_backup_content(old_value: &str) -> (r: String)
    ensures
        r@ == backup_text(old_value@),
{
    let head = "Windows Registry Editor Version 5.00\n\n[HKEY_CURRENT_USER\\Environment]\n\"Path\"=\"";
    let tail = "\"\n";
    let mut out = head.to_owned();
    let n = old_value.unicode_len();
    let mut i: usize = 0;
    while i < n
        invariant
            n == old_value@.len(),
            i <= n,
            out@ == head@ + reg_escape(old_value@.take(i as int)),
        decreases n - i,
    {
        let c = old_value.get_char(i);
        proof {
            assert(old_value@.take(i + 1).drop_last() =~= old_value@.take(i as int));
            assert(old_value@.take(i + 1).last() == c);
        }
        if c == '\\' || c == '"' {
            push_char(&mut out, '\\');
        }
        push_char(&mut out, c);
        proof {
            assert(out@ =~= head@ + reg_escape(old_value@.take(i + 1)));
        }
        i = i + 1;
    }
    proof {
        assert(old_value@.take(n as int) =~= old_value@);
    }
    out.append(tail);
    out
}

/// The POSIX mirror text: machine-scope entries then user-scope entries, each
/// in POSIX form, joined by `:`, with a final newline.
pub open spec fn mirror_text(machine: Seq<char>, user: Seq<char>) -> Seq<char> {
    join_with((entries_of(machine) + entries_of(user)).map_values(|e: Seq<char>| posix_of(e)), ':').push(
        '\n',
    )
}

/// The POSIX mirror of the combined machine and user scopes.
pub fn posix_mirror(machine_value: &str, user_value: &str) -> (r: String)
    ensures
        r@ == mirror_text(machine_value@, user_value@),
{
    let mut all = split_entries(machine_value);
    let mut user = split_entries(user_value);
    let ghost es = entries_of(machine_value@) + entries_of(user_value@);
    proof {
        assert(views(all@) + views(user@) =~= es);
    }
    all.append(&mut user);
    proof {
        assert(views(all@) =~= es);
    }
    let mut converted: Vec<String> = Vec::new();
    let mut i: usize = 0;
    while i < all.len()
        invariant
            i <= all@.len(),
            views(all@) == es,
            views(converted@) == es.take(i as int).map_values(|e: Seq<char>| posix_of(e)),
        decreases all@.len() - i,
    {
        let ghost prev = converted@;
        let c = win_to_posix(all[i].as_str());
        converted.push(c);
        proof {
            assert(es[i as int] == all@[i as int]@);
            assert(views(converted@) =~= views(prev).push(c@));
            assert(es.take(i + 1).map_values(|e: Seq<char>| posix_of(e)) =~= es.take(i as int).map_values(|e: Seq<char>| posix_of(e)).push(posix_of(es[i as int])));
            assert(es.take(i + 1) =~= es.take(i as int).push(es[i as int]));
            assert(views(converted@) =~= es.take(i + 1).map_values(|e: Seq<char>| posix_of(e)));
        }
        i = i + 1;
    }
    proof {
        assert(es.take(all@.len() as int) =~= es);
    }
    let mut out = join_strings(&converted, ':');
    push_char(&mut out, '\n');
    out
}

} // verus!
