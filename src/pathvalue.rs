//! Search-path values: a list of directories joined by `;`.
//!
//! The mathematical model of a value is the sequence of its non-empty
//! segments (`entries_of`); the persisted form of a list of entries is
//! `join_with(entries, ';')`.
use vstd::prelude::*;

verus! {

/// What `str::to_lowercase` returns for a string: the case-folded form used
/// to compare directories.
pub uninterp spec fn lower_of(s: Seq<char>) -> Seq<char>;

/// What the first character of `char::to_lowercase` is for a character.
pub uninterp spec fn char_lower_of(c: char) -> char;

/// Relies on `str::to_lowercase`: the lowercase form depends on the
/// characters of the input alone.
#[verifier::external_body]
pub(crate) fn normalize_path(s: &str) -> (r: String)
    ensures
        r@ == lower_of(s@),
{
    s.to_lowercase()
}

/// Relies on `char::to_lowercase`, which yields at least one character; the
/// first of them is kept.
#[verifier::external_body]
fn fold_char(c: char) -> (r: char)
    ensures
        r == char_lower_of(c),
{
    c.to_lowercase().next().unwrap_or(c)
}

/// Relies on `String::push`: appends one character.
#[verifier::external_body]
pub(crate) fn push_char(s: &mut String, c: char)
    ensures
        final(s)@ == old(s)@.push(c),
{
    s.push(c)
}

/// State of a left-to-right scan over `s`: the non-empty segments completed
/// so far and the segment still open.
pub open spec fn scan(s: Seq<char>) -> (Seq<Seq<char>>, Seq<char>)
    decreases s.len(),
{
    if s.len() == 0 {
        (Seq::empty(), Seq::empty())
    } else {
        let (done, cur) = scan(s.drop_last());
        if s.last() == ';' {
            if cur.len() > 0 {
                (done.push(cur), Seq::empty())
            } else {
                (done, Seq::empty())
            }
        } else {
            (done, cur.push(s.last()))
        }
    }
}

/// The entries of a path value: its `;`-separated segments, empty ones left out.
pub open spec fn entries_of(s: Seq<char>) -> Seq<Seq<char>> {
    let (done, cur) = scan(s);
    if cur.len() > 0 {
        done.push(cur)
    } else {
        done
    }
}

/// The entries joined by `sep`.
pub open spec fn join_with(es: Seq<Seq<char>>, sep: char) -> Seq<char>
    decreases es.len(),
{
    if es.len() == 0 {
        Seq::empty()
    } else if es.len() == 1 {
        es[0]
    } else {
        join_with(es.drop_last(), sep).push(sep) + es.last()
    }
}

/// A directory string that can stand as one entry of a path value.
pub open spec fn is_plain_entry(e: Seq<char>) -> bool {
    e.len() > 0 && !e.contains(';')
}

/// The view of an optional string.
pub open spec fn opt_view(o: Option<String>) -> Option<Seq<char>> {
    match o {
        Some(s) => Some(s@),
        None => None,
    }
}

/// The view of an optional `&str`.
pub open spec fn opt_str(o: Option<&str>) -> Option<Seq<char>> {
    match o {
        Some(s) => Some(s@),
        None => None,
    }
}

/// The views of a sequence of strings.
pub open spec fn views(v: Seq<String>) -> Seq<Seq<char>> {
    v.map_values(|s: String| s@)
}

proof fn lemma_scan_plain_suffix(a: Seq<char>, b: Seq<char>)
    requires
        !b.contains(';'),
    ensures
        scan(a + b) == (scan(a).0, scan(a).1 + b),
    decreases b.len(),
{
    if b.len() == 0 {
        assert(a + b =~= a);
        assert(scan(a).1 + b =~= scan(a).1);
    } else {
        let b0 = b.drop_last();
        assert(!b0.contains(';')) by {
            if b0.contains(';') {
                let k = choose|k: int| 0 <= k < b0.len() && b0[k] == ';';
                assert(b[k] == ';');
            }
        }
        lemma_scan_plain_suffix(a, b0);
        assert((a + b).drop_last() =~= a + b0);
        assert((a + b).last() == b.last());
        assert(b.last() != ';') by {
            assert(b[b.len() - 1] == b.last());
        }
        assert(scan(a).1 + b0 + seq![b.last()] =~= scan(a).1 + b);
        assert((scan(a).1 + b0).push(b.last()) =~= scan(a).1 + b);
    }
}

/// Splitting a joined list of plain entries gives the list back.
pub proof fn lemma_entries_of_join(es: Seq<Seq<char>>)
    requires
        forall|i: int| 0 <= i < es.len() ==> is_plain_entry(#[trigger] es[i]),
    ensures
        entries_of(join_with(es, ';')) == es,
    decreases es.len(),
{
    if es.len() == 0 {
        assert(entries_of(Seq::empty()) =~= es);
    } else if es.len() == 1 {
        lemma_scan_plain_suffix(Seq::empty(), es[0]);
        assert(Seq::<char>::empty() + es[0] =~= es[0]);
        assert(scan(Seq::<char>::empty()) == (Seq::<Seq<char>>::empty(), Seq::<char>::empty()));
        assert(entries_of(es[0]) =~= seq![es[0]]);
        assert(es =~= seq![es[0]]);
    } else {
        let prev = es.drop_last();
        assert forall|i: int| 0 <= i < prev.len() implies is_plain_entry(#[trigger] prev[i]) by {
            assert(prev[i] == es[i]);
        }
        lemma_entries_of_join(prev);
        let j = join_with(prev, ';');
        let js = j.push(';');
        assert(js.drop_last() =~= j);
        assert(is_plain_entry(es[es.len() - 1]));
        lemma_scan_plain_suffix(js, es.last());
        assert(scan(js).1 =~= Seq::<char>::empty());
        assert(scan(js).0 == entries_of(j));
        assert(Seq::<char>::empty() + es.last() =~= es.last());
        assert(entries_of(js + es.last()) =~= prev.push(es.last()));
        assert(prev.push(es.last()) =~= es);
    }
}

/// The entries of `s`, in order, without empty segments.
pub fn split_entries(s: &str) -> (r: Vec<String>)
    ensures
        views(r@) == entries_of(s@),
{
    let n = s.unicode_len();
    let mut out: Vec<String> = Vec::new();
    let mut start: usize = 0;
    let mut i: usize = 0;
    while i < n
        invariant
            n == s@.len(),
            start <= i <= n,
            views(out@) == scan(s@.take(i as int)).0,
            s@.subrange(start as int, i as int) == scan(s@.take(i as int)).1,
        decreases n - i,
    {
        let c = s.get_char(i);
        proof {
            assert(s@.take(i + 1).drop_last() =~= s@.take(i as int));
            assert(s@.take(i + 1).last() == c);
        }
        if c == ';' {
            if start < i {
                let part = s.substring_char(start, i);
                let owned = part.to_owned();
                out.push(owned);
                proof {
                    assert(views(out@) =~= scan(s@.take(i as int)).0.push(owned@));
                }
            }
            start = i + 1;
            proof {
                assert(s@.subrange(start as int, i + 1) =~= Seq::<char>::empty());
            }
        } else {
            proof {
                assert(s@.subrange(start as int, i + 1) =~= s@.subrange(start as int, i as int).push(c));
            }
        }
        i = i + 1;
    }
    proof {
        assert(s@.take(n as int) =~= s@);
    }
    if start < n {
        let part = s.substring_char(start, n);
        let owned = part.to_owned();
        out.push(owned);
        proof {
            assert(views(out@) =~= scan(s@).0.push(owned@));
        }
    } else {
        proof {
            assert(scan(s@).1.len() == 0);
        }
    }
    out
}

/// The strings of `parts` joined by `sep`.
pub fn join_strings(parts: &Vec<String>, sep: char) -> (r: String)
    ensures
        r@ == join_with(views(parts@), sep),
{
    let mut out = String::new();
    let mut i: usize = 0;
    while i < parts.len()
        invariant
            i <= parts@.len(),
            out@ == join_with(views(parts@).take(i as int), sep),
        decreases parts@.len() - i,
    {
        proof {
            let t = views(parts@).take(i + 1);
            assert(t.drop_last() =~= views(parts@).take(i as int));
            assert(t.last() == parts@[i as int]@);
        }
        if i > 0 {
            push_char(&mut out, sep);
        }
        out.append(parts[i].as_str());
        proof {
            if i == 0 {
                assert(views(parts@).take(1) =~= seq![parts@[0]@]);
                assert(out@ =~= parts@[0]@);
            }
        }
        i = i + 1;
    }
    proof {
        assert(views(parts@).take(parts@.len() as int) =~= views(parts@));
    }
    out
}

/// A directory in POSIX form: `\` becomes `/`, and a leading drive `X:`
/// becomes the segment `/x`.
pub open spec fn posix_of(p: Seq<char>) -> Seq<char> {
    let t = p.map_values(|c: char| if c == '\\' { '/' } else { c });
    if t.len() >= 2 && t[1] == ':' {
        seq!['/', char_lower_of(t[0])] + t.skip(2)
    } else {
        t
    }
}

/// Converts a native directory to the POSIX form used by MSYS-style shells.
pub fn win_to_posix(path: &str) -> (r: String)
    ensures
        r@ == posix_of(path@),
{
    let n = path.unicode_len();
    let ghost t = path@.map_values(|c: char| if c == '\\' { '/' } else { c });
    let drive = n >= 2 && path.get_char(1) == ':';
    let mut out = String::new();
    let mut i: usize = 0;
    if drive {
        push_char(&mut out, '/');
        let d = path.get_char(0);
        let folded = if d == '\\' { '/' } else { d };
        push_char(&mut out, fold_char(folded));
        i = 2;
    }
    let ghost base = out@;
    proof {
        assert(out@ + t.subrange(i as int, i as int) =~= out@);
    }
    while i < n
        invariant
            n == path@.len(),
            t.len() == n,
            forall|k: int| 0 <= k < n ==> #[trigger] t[k] == (if path@[k] == '\\' { '/' } else { path@[k] }),
            drive ==> i >= 2,
            !drive ==> i >= 0,
            i <= n,
            out@ == base + t.subrange((if drive { 2int } else { 0int }), i as int),
        decreases n - i,
    {
        let c = path.get_char(i);
        let m = if c == '\\' { '/' } else { c };
        push_char(&mut out, m);
        proof {
            let lo = if drive { 2int } else { 0int };
            assert(t.subrange(lo, i + 1) =~= t.subrange(lo, i as int).push(m));
        }
        i = i + 1;
    }
    proof {
        if drive {
            assert(t.skip(2) =~= t.subrange(2, n as int));
            assert(base =~= seq!['/', char_lower_of(t[0])]);
        } else {
            assert(base =~= Seq::<char>::empty());
            assert(t.subrange(0, n as int) =~= t);
            assert(!(t.len() >= 2 && t[1] == ':'));
        }
    }
    out
}

} // verus!
