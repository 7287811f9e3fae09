//! Candidate tool directories, keyed by command name.
//!
//! Finding the directories (registry, well-known locations, the live search
//! path) is left to the caller, which hands over one `DirListing` per
//! directory it looked into; this module turns listings into a `CandidateMap`.
use vstd::prelude::*;
use crate::minimal::{
    key_less, key_lt, lemma_insert_keeps_sorted, lemma_key_lt_irreflexive, lemma_key_lt_total,
    lemma_key_lt_transitive,
};
use crate::pathvalue::{lower_of, normalize_path, opt_view, views};

verus! {

/// A directory believed to hold runnable tools, with where it was found.
pub struct Candidate {
    /// The directory containing the executable.
    pub path: String,
    /// Where the directory was found (diagnostic only).
    pub source: String,
}

/// The view of a candidate: (directory, origin).
pub type CandidateView = (Seq<char>, Seq<char>);

impl View for Candidate {
    type V = CandidateView;

    open spec fn view(&self) -> CandidateView {
        (self.path@, self.source@)
    }
}

impl Candidate {
    pub fn new(path: &str, source: &str) -> (r: Candidate)
        ensures
            r@ == (path@, source@),
    {
        Candidate { path: path.to_owned(), source: source.to_owned() }
    }
}

/// The view of a candidate map: command names with their candidates, in the
/// order of their names.
pub type CandidateMapView = Seq<(Seq<char>, Seq<CandidateView>)>;

/// Lowercase command name -> candidates. Names are kept in order, so the
/// map depends on its contents only; each list keeps discovery order.
pub struct CandidateMap {
    entries: Vec<(String, Vec<Candidate>)>,
}

/// Command names are in strictly increasing order (so each occurs once).
pub open spec fn names_sorted(m: CandidateMapView) -> bool {
    forall|i: int, j: int| 0 <= i < j < m.len() ==> key_lt(#[trigger] m[i].0, #[trigger] m[j].0)
}

/// How many leading entries have a name below `name`: where `name` stands
/// or would be inserted.
pub open spec fn slot(m: CandidateMapView, name: Seq<char>) -> int
    decreases m.len(),
{
    if m.len() == 0 || !key_lt(m[0].0, name) {
        0
    } else {
        1 + slot(m.drop_first(), name)
    }
}

/// The map after one candidate was added under `name`: appended to that
/// name's list, or as a new entry in name order.
pub open spec fn map_add(m: CandidateMapView, name: Seq<char>, c: CandidateView) -> CandidateMapView {
    let p = slot(m, name);
    if p < m.len() && m[p].0 == name {
        m.update(p, (name, m[p].1.push(c)))
    } else {
        m.insert(p, (name, seq![c]))
    }
}

proof fn lemma_slot_at(m: CandidateMapView, name: Seq<char>, i: int)
    requires
        0 <= i <= m.len(),
        forall|q: int| 0 <= q < i ==> key_lt(#[trigger] m[q].0, name),
        i < m.len() ==> !key_lt(m[i].0, name),
    ensures
        slot(m, name) == i,
    decreases i,
{
    if i > 0 {
        let t = m.drop_first();
        assert forall|q: int| 0 <= q < i - 1 implies key_lt(#[trigger] t[q].0, name) by {
            assert(t[q] == m[q + 1]);
        }
        if i - 1 < t.len() {
            assert(t[i - 1] == m[i]);
        }
        lemma_slot_at(t, name, i - 1);
        assert(key_lt(m[0].0, name));
    }
}

/// Every candidate directory of the map, in order.
pub open spec fn all_dirs(m: CandidateMapView) -> Seq<Seq<char>>
    decreases m.len(),
{
    if m.len() == 0 {
        Seq::empty()
    } else {
        all_dirs(m.drop_last()) + m.last().1.map_values(|c: CandidateView| c.0)
    }
}

proof fn lemma_new_name_keeps_order(m: CandidateMapView, name: Seq<char>, i: int)
    requires
        names_sorted(m),
        0 <= i <= m.len(),
        forall|q: int| 0 <= q < i ==> key_lt(#[trigger] m[q].0, name),
        i < m.len() ==> !key_lt(m[i].0, name) && m[i].0 != name,
    ensures
        forall|c: Seq<CandidateView>| names_sorted(#[trigger] m.insert(i, (name, c))),
{
    let ks = m.map_values(|e: (Seq<char>, Seq<CandidateView>)| e.0);
    assert forall|p: int, q: int| 0 <= p < q < ks.len() implies key_lt(#[trigger] ks[p], #[trigger] ks[q]) by {
        assert(ks[p] == m[p].0 && ks[q] == m[q].0);
    }
    assert forall|q: int| 0 <= q < i implies !key_lt(name, #[trigger] ks[q]) by {
        assert(ks[q] == m[q].0);
        lemma_key_lt_irreflexive(name);
        if key_lt(name, ks[q]) {
            lemma_key_lt_transitive(name, ks[q], name);
        }
    }
    if i < ks.len() {
        assert(ks[i] == m[i].0);
        lemma_key_lt_total(name, ks[i]);
    }
    assert(!ks.contains(name)) by {
        if ks.contains(name) {
            let q = choose|q: int| 0 <= q < ks.len() && ks[q] == name;
            lemma_key_lt_irreflexive(name);
            if q < i {
                assert(key_lt(m[q].0, name));
            } else if q > i {
                assert(key_lt(ks[i], ks[q]));
                lemma_key_lt_transitive(name, ks[i], ks[q]);
            } else {
                assert(ks[i] == m[i].0);
            }
        }
    }
    lemma_insert_keeps_sorted(ks, name, i);
    assert forall|c: Seq<CandidateView>| names_sorted(#[trigger] m.insert(i, (name, c))) by {
        let r = m.insert(i, (name, c));
        assert(r.map_values(|e: (Seq<char>, Seq<CandidateView>)| e.0) =~= ks.insert(i, name));
        assert forall|p: int, q: int| 0 <= p < q < r.len() implies key_lt(#[trigger] r[p].0, #[trigger] r[q].0) by {
            assert(ks.insert(i, name)[p] == r[p].0);
            assert(ks.insert(i, name)[q] == r[q].0);
        }
    }
}

impl View for CandidateMap {
    type V = CandidateMapView;

    closed spec fn view(&self) -> CandidateMapView {
        self.entries@.map_values(
            |e: (String, Vec<Candidate>)| (e.0@, e.1@.map_values(|c: Candidate| c@)),
        )
    }
}

impl CandidateMap {
    /// Names are in increasing order.
    pub open spec fn wf(&self) -> bool {
        names_sorted(self@)
    }

    pub fn new() -> (r: CandidateMap)
        ensures
            r.wf(),
            r@ == Seq::<(Seq<char>, Seq<CandidateView>)>::empty(),
    {
        let r = CandidateMap { entries: Vec::new() };
        assert(r@ =~= Seq::<(Seq<char>, Seq<CandidateView>)>::empty());
        r
    }

    /// The number of command names.
    pub fn len(&self) -> (r: usize)
        ensures
            r == self@.len(),
    {
        self.entries.len()
    }

    /// Appends `candidate` to the list of `command`, starting one (in name
    /// order) if needed.
    pub fn add(&mut self, command: &str, candidate: Candidate)
        requires
            old(self).wf(),
        ensures
            final(self).wf(),
            final(self)@ == map_add(old(self)@, command@, candidate@),
    {
        let ghost before = self@;
        let key = command.to_owned();
        assert(key@ == command@);
        let n = self.entries.len();
        let mut i: usize = 0;
        while i < n && key_less(self.entries[i].0.as_str(), key.as_str())
            invariant
                n == self.entries@.len(),
                n == before.len(),
                self@ == before,
                key@ == command@,
                i <= n,
                forall|q: int| 0 <= q < i ==> key_lt(#[trigger] before[q].0, command@),
            decreases n - i,
        {
            proof {
                assert(before[i as int].0 == self.entries@[i as int].0@);
            }
            i = i + 1;
        }
        proof {
            if i < n {
                assert(before[i as int].0 == self.entries@[i as int].0@);
            }
            lemma_slot_at(before, command@, i as int);
        }
        if i < n && self.entries[i].0 == key {
            proof {
                assert(before[i as int].0 == self.entries@[i as int].0@);
            }
            let mut entry = self.entries.remove(i);
            entry.1.push(candidate);
            self.entries.insert(i, entry);
            proof {
                assert(self.entries@[i as int].1@.map_values(|c: Candidate| c@) =~= before[i as int].1.push(candidate@));
                assert(self@ =~= before.update(i as int, (command@, before[i as int].1.push(candidate@))));
                assert forall|p: int, q: int| 0 <= p < q < self@.len() implies key_lt(
                    #[trigger] self@[p].0,
                    #[trigger] self@[q].0,
                ) by {
                    assert(self@[p].0 == before[p].0 && self@[q].0 == before[q].0);
                }
            }
        } else {
            proof {
                if i < n {
                    assert(before[i as int].0 == self.entries@[i as int].0@);
                }
                lemma_new_name_keeps_order(before, command@, i as int);
            }
            let mut list: Vec<Candidate> = Vec::new();
            list.push(candidate);
            proof {
                assert(list@.map_values(|c: Candidate| c@) =~= seq![candidate@]);
            }
            self.entries.insert(i, (key, list));
            proof {
                assert(self@ =~= before.insert(i as int, (command@, seq![candidate@])));
            }
        }
    }

    /// Every candidate directory, in order.
    pub fn directories(&self) -> (r: Vec<String>)
        ensures
            views(r@) == all_dirs(self@),
    {
        let mut out: Vec<String> = Vec::new();
        let mut i: usize = 0;
        while i < self.entries.len()
            invariant
                i <= self@.len(),
                self.entries@.len() == self@.len(),
                views(out@) == all_dirs(self@.take(i as int)),
            decreases self@.len() - i,
        {
            let list = &self.entries[i].1;
            let mut j: usize = 0;
            while j < list.len()
                invariant
                    i < self@.len(),
                    self.entries@.len() == self@.len(),
                    list@.len() == self@[i as int].1.len(),
                    list == self.entries@[i as int].1,
                    j <= list@.len(),
                    views(out@) == all_dirs(self@.take(i as int)) + self@[i as int].1.take(j as int).map_values(|c: CandidateView| c.0),
                decreases list@.len() - j,
            {
                let ghost prev = out@;
                out.push(list[j].path.clone());
                proof {
                    let cs = self@[i as int].1;
                    assert(cs[j as int] == list@[j as int]@);
                    assert(cs.take(j + 1) =~= cs.take(j as int).push(list@[j as int]@));
                    assert(cs.take(j + 1).map_values(|c: CandidateView| c.0) =~= cs.take(j as int).map_values(|c: CandidateView| c.0).push(list@[j as int].path@));
                    assert(views(out@) =~= views(prev).push(list@[j as int].path@));
                }
                j = j + 1;
            }
            proof {
                assert(self@.take(i + 1).drop_last() =~= self@.take(i as int));
                assert(self@[i as int].1.take(j as int) =~= self@[i as int].1);
            }
            i = i + 1;
        }
        proof {
            assert(self@.take(self@.len() as int) =~= self@);
        }
        out
    }
}

/// What the caller found in one directory: the directory, where it was
/// found, and the names of the regular files directly inside it.
pub struct DirListing {
    pub dir: String,
    pub source: String,
    pub files: Vec<String>,
}

/// The view of a listing: (directory, origin, file names).
pub type DirListingView = (Seq<char>, Seq<char>, Seq<Seq<char>>);

impl View for DirListing {
    type V = DirListingView;

    open spec fn view(&self) -> DirListingView {
        (self.dir@, self.source@, views(self.files@))
    }
}

/// The index of the last `.` of `name`, or -1.
pub open spec fn last_dot(name: Seq<char>) -> int
    decreases name.len(),
{
    if name.len() == 0 {
        -1
    } else if name.last() == '.' {
        name.len() - 1
    } else {
        last_dot(name.drop_last())
    }
}

/// The stem and the extension of a file name: split at the last `.`, where
/// that dot is not the first character and the name is not `..`.
pub open spec fn split_extension(name: Seq<char>) -> Option<(Seq<char>, Seq<char>)> {
    let k = last_dot(name);
    if name == seq!['.', '.'] || k <= 0 {
        None
    } else {
        Some((name.take(k), name.skip(k + 1)))
    }
}

/// A folded extension of a runnable program.
pub open spec fn is_program_extension(e: Seq<char>) -> bool {
    e == "exe"@ || e == "cmd"@ || e == "bat"@ || e == "com"@
}

/// The command a file provides: its folded stem, when its folded extension
/// is that of a runnable program.
pub open spec fn command_of(name: Seq<char>) -> Option<Seq<char>> {
    match split_extension(name) {
        Some((stem, ext)) => if is_program_extension(lower_of(ext)) {
            Some(lower_of(stem))
        } else {
            None
        },
        None => None,
    }
}

/// The map after the files of one directory were added.
pub open spec fn add_listing(
    m: CandidateMapView,
    dir: Seq<char>,
    source: Seq<char>,
    files: Seq<Seq<char>>,
) -> CandidateMapView
    decreases files.len(),
{
    if files.len() == 0 {
        m
    } else {
        let prev = add_listing(m, dir, source, files.drop_last());
        match command_of(files.last()) {
            Some(c) => map_add(prev, c, (dir, source)),
            None => prev,
        }
    }
}

/// The map built from listings, in order.
pub open spec fn discovered(listings: Seq<DirListingView>) -> CandidateMapView
    decreases listings.len(),
{
    if listings.len() == 0 {
        Seq::empty()
    } else {
        let l = listings.last();
        add_listing(discovered(listings.drop_last()), l.0, l.1, l.2)
    }
}

proof fn lemma_last_dot(name: Seq<char>)
    ensures
        -1 <= last_dot(name) < name.len(),
        last_dot(name) >= 0 ==> name[last_dot(name)] == '.',
        forall|k: int| last_dot(name) < k < name.len() ==> name[k] != '.',
    decreases name.len(),
{
    if name.len() > 0 {
        lemma_last_dot(name.drop_last());
        assert forall|k: int| last_dot(name) < k < name.len() implies name[k] != '.' by {
            if k < name.len() - 1 {
                assert(name[k] == name.drop_last()[k]);
            }
        }
    }
}

/// The command a file name provides, if it names a runnable program.
pub fn command_name(file_name: &str) -> (r: Option<String>)
    ensures
        opt_view(r) == command_of(file_name@),
{
    let n = file_name.unicode_len();
    let mut k: usize = n;
    let mut found = false;
    proof {
        lemma_last_dot(file_name@);
    }
    while k > 0
        invariant_except_break
            !found,
        invariant
            n == file_name@.len(),
            k <= n,
            forall|q: int| k <= q < n ==> file_name@[q] != '.',
        ensures
            k <= n,
            found ==> k > 0 && file_name@[k - 1] == '.',
            !found ==> k == 0,
            forall|q: int| k <= q < n ==> file_name@[q] != '.',
        decreases k,
    {
        if file_name.get_char(k - 1) == '.' {
            found = true;
            break;
        }
        k = k - 1;
    }
    let ghost ld = last_dot(file_name@);
    proof {
        if found {
            assert(file_name@[k - 1] == '.');
            assert(ld == k - 1) by {
                if ld < k - 1 {
                } else if ld > k - 1 {
                    assert(file_name@[ld] == '.');
                }
            }
        } else {
            assert(ld == -1) by {
                if ld >= 0 {
                    assert(file_name@[ld] == '.');
                }
            }
        }
    }
    let dotdot = n == 2 && file_name.get_char(0) == '.' && file_name.get_char(1) == '.';
    proof {
        if n == 2 {
            if file_name@[0] == '.' && file_name@[1] == '.' {
                assert(file_name@ =~= seq!['.', '.']);
            } else {
                assert(file_name@ != seq!['.', '.']) by {
                    if file_name@ == seq!['.', '.'] {
                        assert(file_name@[0] == '.');
                    }
                }
            }
        } else {
            assert(file_name@ != seq!['.', '.']) by {
                if file_name@ == seq!['.', '.'] {
                    assert(file_name@.len() == 2);
                }
            }
        }
    }
    if dotdot || !found || k < 2 {
        return None;
    }
    let dot = k - 1;
    let stem = file_name.substring_char(0, dot);
    let ext = file_name.substring_char(dot + 1, n);
    proof {
        assert(stem@ =~= file_name@.take(ld));
        assert(ext@ =~= file_name@.skip(ld + 1));
    }
    let folded = normalize_path(ext);
    if folded == "exe".to_owned() || folded == "cmd".to_owned() || folded == "bat".to_owned()
        || folded == "com".to_owned() {
        Some(normalize_path(stem))
    } else {
        None
    }
}

/// Adds one candidate under each command provided by `files`, the names of
/// the regular files directly inside `dir`.
pub fn add_dir_candidates(map: &mut CandidateMap, dir: &str, files: &Vec<String>, source: &str)
    requires
        old(map).wf(),
    ensures
        final(map).wf(),
        final(map)@ == add_listing(old(map)@, dir@, source@, views(files@)),
{
    let ghost start = map@;
    let mut i: usize = 0;
    while i < files.len()
        invariant
            i <= files@.len(),
            map.wf(),
            map@ == add_listing(start, dir@, source@, views(files@).take(i as int)),
        decreases files@.len() - i,
    {
        proof {
            let t = views(files@).take(i + 1);
            assert(t.drop_last() =~= views(files@).take(i as int));
            assert(t.last() == files@[i as int]@);
        }
        match command_name(files[i].as_str()) {
            Some(cmd) => {
                map.add(cmd.as_str(), Candidate::new(dir, source));
            },
            None => {},
        }
        i = i + 1;
    }
    proof {
        assert(views(files@).take(files@.len() as int) =~= views(files@));
    }
}

/// Builds the candidate map from directory listings, in order.
pub fn discover_candidates(listings: &Vec<DirListing>) -> (r: CandidateMap)
    ensures
        r.wf(),
        r@ == discovered(listings@.map_values(|l: DirListing| l@)),
{
    let ghost ls = listings@.map_values(|l: DirListing| l@);
    let mut map = CandidateMap::new();
    let mut i: usize = 0;
    while i < listings.len()
        invariant
            i <= listings@.len(),
            ls == listings@.map_values(|l: DirListing| l@),
            map.wf(),
            map@ == discovered(ls.take(i as int)),
        decreases listings@.len() - i,
    {
        proof {
            assert(ls.take(i + 1).drop_last() =~= ls.take(i as int));
            assert(ls.take(i + 1).last() == listings@[i as int]@);
        }
        let l = &listings[i];
        add_dir_candidates(&mut map, l.dir.as_str(), &l.files, l.source.as_str());
        i = i + 1;
    }
    proof {
        assert(ls.take(listings@.len() as int) =~= ls);
    }
    map
}

} // verus!
