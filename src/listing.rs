use vstd::prelude::*;

verus! {

/// One entry of a directory as read from the file system.
pub struct EntryInfo {
    pub name: String,
    pub is_directory: bool,
    pub size_bytes: u64,
}

/// One entry of a listing: its name, the path that addresses it in the next
/// request, and its size (0 for a directory).
pub struct DirectoryEntry {
    pub name: String,
    pub relative_path: String,
    pub size_bytes: u64,
    pub is_directory: bool,
}

/// The entries of one directory, folders and files apart, each sorted by name.
pub struct Listing {
    pub folders: Vec<DirectoryEntry>,
    pub files: Vec<DirectoryEntry>,
}

/// `a` comes strictly before `b` in the order of their characters' code points.
pub open spec fn name_lt(a: Seq<char>, b: Seq<char>) -> bool
    decreases a.len(),
{
    if a.len() == 0 {
        b.len() > 0
    } else if b.len() == 0 {
        false
    } else if a[0] != b[0] {
        (a[0] as u32) < (b[0] as u32)
    } else {
        name_lt(a.drop_first(), b.drop_first())
    }
}

pub open spec fn sorted_by_name(s: Seq<DirectoryEntry>) -> bool {
    forall|i: int, j: int| 0 <= i < j < s.len() ==> !name_lt(s[j].name@, s[i].name@)
}

/// The path under which an entry named `name` is addressed: `prefix/name`
/// below a given prefix, the bare name at the root.
pub open spec fn entry_path(prefix: Option<Seq<char>>, name: Seq<char>) -> Seq<char> {
    match prefix {
        Some(p) => p + seq!['/'] + name,
        None => name,
    }
}

/// `d` is the listing entry made of `e`.
#[verifier::opaque]
pub open spec fn entry_made_of(d: DirectoryEntry, e: EntryInfo, prefix: Option<Seq<char>>) -> bool {
    &&& d.name@ == e.name@
    &&& d.relative_path@ == entry_path(prefix, e.name@)
    &&& d.is_directory == e.is_directory
    &&& d.size_bytes == (if e.is_directory {
        0
    } else {
        e.size_bytes
    })
}

proof fn lemma_name_lt_asym(a: Seq<char>, b: Seq<char>)
    ensures
        !(name_lt(a, b) && name_lt(b, a)),
    decreases a.len(),
{
    if a.len() > 0 && b.len() > 0 && a[0] == b[0] {
        lemma_name_lt_asym(a.drop_first(), b.drop_first());
    }
}

proof fn lemma_name_lt_trans(a: Seq<char>, b: Seq<char>, c: Seq<char>)
    requires
        name_lt(a, b),
        name_lt(b, c),
    ensures
        name_lt(a, c),
    decreases a.len(),
{
    if a.len() > 0 && b.len() > 0 && c.len() > 0 && a[0] == b[0] && b[0] == c[0] {
        lemma_name_lt_trans(a.drop_first(), b.drop_first(), c.drop_first());
    }
}

proof fn lemma_name_lt_total(a: Seq<char>, b: Seq<char>)
    ensures
        a != b ==> name_lt(a, b) || name_lt(b, a),
    decreases a.len(),
{
    if a.len() > 0 && b.len() > 0 {
        if a[0] == b[0] {
            lemma_name_lt_total(a.drop_first(), b.drop_first());
            assert(a =~= seq![a[0]] + a.drop_first());
            assert(b =~= seq![b[0]] + b.drop_first());
        } else {
            vstd::utf8::char_u32_cast(a[0], a[0] as u32);
            vstd::utf8::char_u32_cast(b[0], b[0] as u32);
        }
    } else if a.len() == 0 && b.len() == 0 {
        assert(a =~= b);
    }
}

/// Whether `a` sorts strictly before `b`.
fn name_less(a: &str, b: &str) -> (r: bool)
    ensures
        r == name_lt(a@, b@),
{
    let n = a.unicode_len();
    let m = b.unicode_len();
    let mut i: usize = 0;
    assert(a@.skip(0) =~= a@);
    assert(b@.skip(0) =~= b@);
    while i < n && i < m
        invariant
            n == a@.len(),
            m == b@.len(),
            i <= n,
            i <= m,
            name_lt(a@, b@) == name_lt(a@.skip(i as int), b@.skip(i as int)),
        decreases n - i,
    {
        let x = a.get_char(i);
        let y = b.get_char(i);
        if x != y {
            return (x as u32) < (y as u32);
        }
        assert(a@.skip(i as int).drop_first() =~= a@.skip(i + 1));
        assert(b@.skip(i as int).drop_first() =~= b@.skip(i + 1));
        i = i + 1;
    }
    i == n && i < m
}

fn make_entry(e: &EntryInfo, prefix: Option<&str>) -> (r: DirectoryEntry)
    ensures
        entry_made_of(r, *e, prefix_view(prefix)),
        r.is_directory == e.is_directory,
{
    proof {
        reveal(entry_made_of);
    }
    let relative_path = match prefix {
        Some(p) => {
            let mut s = p.to_owned();
            s.append("/");
            s.append(e.name.as_str());
            proof {
                reveal_strlit("/");
            }
            assert(s@ =~= p@ + seq!['/'] + e.name@);
            s
        },
        None => e.name.clone(),
    };
    DirectoryEntry {
        name: e.name.clone(),
        relative_path,
        size_bytes: if e.is_directory {
            0
        } else {
            e.size_bytes
        },
        is_directory: e.is_directory,
    }
}

/// Puts `d` into the sorted `v`, after every entry whose name does not sort
/// after it.
fn insert_sorted(v: &mut Vec<DirectoryEntry>, d: DirectoryEntry)
    requires
        sorted_by_name(old(v)@),
    ensures
        sorted_by_name(final(v)@),
        exists|p: int| 0 <= p <= old(v)@.len() && final(v)@ == old(v)@.insert(p, d),
{
    let mut p: usize = 0;
    let mut found = false;
    while !found && p < v.len()
        invariant
            p <= v@.len(),
            v@ == old(v)@,
            sorted_by_name(v@),
            found ==> p < v@.len() && name_lt(d.name@, v@[p as int].name@),
            forall|k: int| 0 <= k < p ==> !name_lt(d.name@, #[trigger] v@[k].name@),
        decreases v@.len() - p + (if found {
            0int
        } else {
            1int
        }),
    {
        if name_less(d.name.as_str(), v[p].name.as_str()) {
            found = true;
        } else {
            p = p + 1;
        }
    }
    let ghost before = v@;
    proof {
        assert forall|j: int| p <= j < before.len() implies !name_lt(
            #[trigger] before[j].name@,
            d.name@,
        ) by {
            if p < before.len() {
                lemma_name_lt_asym(d.name@, before[p as int].name@);
                if j > p && name_lt(before[j].name@, d.name@) {
                    lemma_name_lt_trans(before[j].name@, d.name@, before[p as int].name@);
                }
            }
        }
    }
    v.insert(p, d);
    proof {
        let s = v@;
        assert(s == before.insert(p as int, d));
        assert(s.len() == before.len() + 1);
        assert forall|i: int, j: int| 0 <= i < j < s.len() implies !name_lt(
            s[j].name@,
            s[i].name@,
        ) by {
            if i < p && j == p {
            } else if i == p {
                assert(s[j] == before.insert(p as int, d)[j]);
                assert(s[j] == before[j - 1]);
            } else if i < p {
                assert(s[i] == before[i]);
                if j < p {
                    assert(s[j] == before[j]);
                } else {
                    assert(s[j] == before[j - 1]);
                }
            } else {
                assert(s[i] == before[i - 1]);
                assert(s[j] == before[j - 1]);
            }
        }
    }
}

/// Every entry of `b` is of the kind `dir` (folders when true).
#[verifier::opaque]
pub open spec fn all_of_kind(b: Seq<DirectoryEntry>, dir: bool) -> bool {
    forall|i: int| 0 <= i < b.len() ==> (#[trigger] b[i]).is_directory == dir
}

/// Every entry of `b` is made of one of the first `k` entries.
#[verifier::opaque]
pub open spec fn all_made_of(
    b: Seq<DirectoryEntry>,
    entries: Seq<EntryInfo>,
    k: int,
    prefix: Option<Seq<char>>,
) -> bool {
    forall|i: int|
        0 <= i < b.len() ==> exists|j: int|
            0 <= j < k && entry_made_of(#[trigger] b[i], entries[j], prefix)
}

/// Each of the first `k` entries of kind `dir` has an entry of `b` made of it.
#[verifier::opaque]
pub open spec fn all_listed(
    b: Seq<DirectoryEntry>,
    entries: Seq<EntryInfo>,
    k: int,
    prefix: Option<Seq<char>>,
    dir: bool,
) -> bool {
    forall|j: int|
        0 <= j < k && (#[trigger] entries[j]).is_directory == dir ==> exists|i: int|
            0 <= i < b.len() && entry_made_of(b[i], entries[j], prefix)
}

/// `b` holds, for the first `k` entries, exactly those whose kind is `dir`
/// (folders when true), each made into a listing entry under `prefix`.
pub open spec fn bucket_of(
    b: Seq<DirectoryEntry>,
    entries: Seq<EntryInfo>,
    k: int,
    prefix: Option<Seq<char>>,
    dir: bool,
) -> bool {
    &&& all_of_kind(b, dir)
    &&& all_made_of(b, entries, k, prefix)
    &&& all_listed(b, entries, k, prefix, dir)
}

proof fn lemma_bucket_skip(
    b: Seq<DirectoryEntry>,
    entries: Seq<EntryInfo>,
    k: int,
    prefix: Option<Seq<char>>,
    dir: bool,
)
    requires
        0 <= k < entries.len(),
        bucket_of(b, entries, k, prefix, dir),
        entries[k].is_directory != dir,
    ensures
        bucket_of(b, entries, k + 1, prefix, dir),
{
    reveal(all_made_of);
    reveal(all_listed);
    assert forall|i: int| 0 <= i < b.len() implies exists|j: int|
        0 <= j < k + 1 && entry_made_of(#[trigger] b[i], entries[j], prefix) by {
        let j = choose|j: int| 0 <= j < k && entry_made_of(b[i], entries[j], prefix);
    }
}

proof fn lemma_bucket_insert(
    b: Seq<DirectoryEntry>,
    nb: Seq<DirectoryEntry>,
    p: int,
    d: DirectoryEntry,
    entries: Seq<EntryInfo>,
    k: int,
    prefix: Option<Seq<char>>,
    dir: bool,
)
    requires
        0 <= k < entries.len(),
        bucket_of(b, entries, k, prefix, dir),
        entries[k].is_directory == dir,
        d.is_directory == dir,
        entry_made_of(d, entries[k], prefix),
        0 <= p <= b.len(),
        nb == b.insert(p, d),
    ensures
        bucket_of(nb, entries, k + 1, prefix, dir),
{
    lemma_insert_kind(b, nb, p, d, dir);
    lemma_insert_sources(b, nb, p, d, entries, k, prefix);
    lemma_insert_covers(b, nb, p, d, entries, k, prefix, dir);
}

proof fn lemma_insert_kind(b: Seq<DirectoryEntry>, nb: Seq<DirectoryEntry>, p: int, d: DirectoryEntry, dir: bool)
    requires
        all_of_kind(b, dir),
        d.is_directory == dir,
        0 <= p <= b.len(),
        nb == b.insert(p, d),
    ensures
        all_of_kind(nb, dir),
{
    reveal(all_of_kind);
    assert forall|i: int| 0 <= i < nb.len() implies (#[trigger] nb[i]).is_directory == dir by {
        if i < p {
            assert(nb[i] == b[i]);
        } else if i > p {
            assert(nb[i] == b[i - 1]);
        }
    }
}

proof fn lemma_insert_sources(
    b: Seq<DirectoryEntry>,
    nb: Seq<DirectoryEntry>,
    p: int,
    d: DirectoryEntry,
    entries: Seq<EntryInfo>,
    k: int,
    prefix: Option<Seq<char>>,
)
    requires
        0 <= k < entries.len(),
        all_made_of(b, entries, k, prefix),
        entry_made_of(d, entries[k], prefix),
        0 <= p <= b.len(),
        nb == b.insert(p, d),
    ensures
        all_made_of(nb, entries, k + 1, prefix),
{
    reveal(all_made_of);
    assert forall|i: int| 0 <= i < nb.len() implies exists|j: int|
        0 <= j < k + 1 && entry_made_of(#[trigger] nb[i], entries[j], prefix) by {
        if i < p {
            assert(nb[i] == b[i]);
            let j = choose|j: int| 0 <= j < k && entry_made_of(b[i], entries[j], prefix);
        } else if i > p {
            assert(nb[i] == b[i - 1]);
            let j = choose|j: int| 0 <= j < k && entry_made_of(b[i - 1], entries[j], prefix);
        } else {
            assert(entry_made_of(nb[i], entries[k], prefix));
        }
    }
}

proof fn lemma_insert_covers(
    b: Seq<DirectoryEntry>,
    nb: Seq<DirectoryEntry>,
    p: int,
    d: DirectoryEntry,
    entries: Seq<EntryInfo>,
    k: int,
    prefix: Option<Seq<char>>,
    dir: bool,
)
    requires
        0 <= k < entries.len(),
        all_listed(b, entries, k, prefix, dir),
        entry_made_of(d, entries[k], prefix),
        0 <= p <= b.len(),
        nb == b.insert(p, d),
    ensures
        all_listed(nb, entries, k + 1, prefix, dir),
{
    reveal(all_listed);
    assert forall|j: int| 0 <= j < k + 1 && (#[trigger] entries[j]).is_directory == dir implies exists|i: int|
        0 <= i < nb.len() && entry_made_of(nb[i], entries[j], prefix) by {
        if j == k {
            assert(entry_made_of(nb[p], entries[j], prefix));
        } else {
            let i0 = choose|i: int| 0 <= i < b.len() && entry_made_of(b[i], entries[j], prefix);
            if i0 < p {
                assert(nb[i0] == b[i0]);
            } else {
                assert(nb[i0 + 1] == b[i0]);
            }
        }
    }
}

/// A listing's two buckets share no entry: whatever stands among the folders
/// is a directory, and nothing among the files is.
pub proof fn lemma_buckets_disjoint(
    folders: Seq<DirectoryEntry>,
    files: Seq<DirectoryEntry>,
    entries: Seq<EntryInfo>,
    k: int,
    prefix: Option<Seq<char>>,
)
    requires
        bucket_of(folders, entries, k, prefix, true),
        bucket_of(files, entries, k, prefix, false),
    ensures
        forall|i: int, j: int|
            0 <= i < folders.len() && 0 <= j < files.len() ==> #[trigger] folders[i] != #[trigger] files[j],
{
    reveal(all_of_kind);
    assert forall|i: int, j: int|
        0 <= i < folders.len() && 0 <= j < files.len() implies #[trigger] folders[i] != #[trigger] files[j] by {
        assert(folders[i].is_directory);
        assert(!files[j].is_directory);
    }
}

/// No two entries share a name, as in one directory.
pub open spec fn names_distinct(entries: Seq<EntryInfo>) -> bool {
    forall|a: int, b: int|
        0 <= a < entries.len() && 0 <= b < entries.len() && a != b ==> (#[trigger] entries[a]).name@
            != (#[trigger] entries[b]).name@
}

pub open spec fn strictly_sorted_by_name(s: Seq<DirectoryEntry>) -> bool {
    forall|i: int, j: int| 0 <= i < j < s.len() ==> name_lt(s[i].name@, s[j].name@)
}

/// No folder shares a name or a path with a file.
pub open spec fn buckets_apart(f: Seq<DirectoryEntry>, g: Seq<DirectoryEntry>) -> bool {
    forall|i: int, j: int|
        0 <= i < f.len() && 0 <= j < g.len() ==> (#[trigger] f[i]).name@ != (#[trigger] g[j]).name@
            && f[i].relative_path@ != g[j].relative_path@
}

/// Each entry of `b` is made of the entry `src[i]`, one of the first `k`, of
/// kind `dir`; no entry is used twice.
spec fn sourced(
    b: Seq<DirectoryEntry>,
    src: Seq<int>,
    entries: Seq<EntryInfo>,
    k: int,
    prefix: Option<Seq<char>>,
    dir: bool,
) -> bool {
    &&& src.len() == b.len()
    &&& forall|i: int|
        0 <= i < b.len() ==> 0 <= #[trigger] src[i] < k && entries[src[i]].is_directory == dir
            && entry_made_of(b[i], entries[src[i]], prefix)
    &&& forall|i: int, j: int| 0 <= i < j < src.len() ==> src[i] != src[j]
}

proof fn lemma_sourced_skip(
    b: Seq<DirectoryEntry>,
    src: Seq<int>,
    entries: Seq<EntryInfo>,
    k: int,
    prefix: Option<Seq<char>>,
    dir: bool,
)
    requires
        sourced(b, src, entries, k, prefix, dir),
    ensures
        sourced(b, src, entries, k + 1, prefix, dir),
{
}

proof fn lemma_sourced_insert(
    b: Seq<DirectoryEntry>,
    nb: Seq<DirectoryEntry>,
    src: Seq<int>,
    p: int,
    d: DirectoryEntry,
    entries: Seq<EntryInfo>,
    k: int,
    prefix: Option<Seq<char>>,
    dir: bool,
)
    requires
        0 <= k < entries.len(),
        sourced(b, src, entries, k, prefix, dir),
        entries[k].is_directory == dir,
        entry_made_of(d, entries[k], prefix),
        0 <= p <= b.len(),
        nb == b.insert(p, d),
    ensures
        sourced(nb, src.insert(p, k), entries, k + 1, prefix, dir),
{
    let ns = src.insert(p, k);
    assert forall|i: int| 0 <= i < nb.len() implies 0 <= #[trigger] ns[i] < k + 1
        && entries[ns[i]].is_directory == dir && entry_made_of(nb[i], entries[ns[i]], prefix) by {
        if i < p {
            assert(nb[i] == b[i] && ns[i] == src[i]);
        } else if i > p {
            assert(nb[i] == b[i - 1] && ns[i] == src[i - 1]);
        }
    }
    assert forall|i: int, j: int| 0 <= i < j < ns.len() implies ns[i] != ns[j] by {
        if i < p {
            assert(ns[i] == src[i]);
        } else if i > p {
            assert(ns[i] == src[i - 1]);
        }
        if j < p {
            assert(ns[j] == src[j]);
        } else if j > p {
            assert(ns[j] == src[j - 1]);
        }
    }
}

proof fn lemma_entry_path_injective(prefix: Option<Seq<char>>, a: Seq<char>, b: Seq<char>)
    requires
        a != b,
    ensures
        entry_path(prefix, a) != entry_path(prefix, b),
{
    if let Some(p) = prefix {
        let x = p + seq!['/'] + a;
        let y = p + seq!['/'] + b;
        assert(x.subrange(p.len() as int + 1, x.len() as int) =~= a);
        assert(y.subrange(p.len() as int + 1, y.len() as int) =~= b);
    }
}

proof fn lemma_distinct_names_apart(
    f: Seq<DirectoryEntry>,
    fs: Seq<int>,
    g: Seq<DirectoryEntry>,
    gs: Seq<int>,
    entries: Seq<EntryInfo>,
    n: int,
    prefix: Option<Seq<char>>,
)
    requires
        n <= entries.len(),
        sourced(f, fs, entries, n, prefix, true),
        sourced(g, gs, entries, n, prefix, false),
        sorted_by_name(f),
        sorted_by_name(g),
        names_distinct(entries),
    ensures
        strictly_sorted_by_name(f),
        strictly_sorted_by_name(g),
        buckets_apart(f, g),
{
    reveal(entry_made_of);
    assert forall|i: int, j: int| 0 <= i < j < f.len() implies name_lt(f[i].name@, f[j].name@) by {
        assert(fs[i] != fs[j]);
        assert(entries[fs[i]].name@ != entries[fs[j]].name@);
        lemma_name_lt_total(f[i].name@, f[j].name@);
    }
    assert forall|i: int, j: int| 0 <= i < j < g.len() implies name_lt(g[i].name@, g[j].name@) by {
        assert(gs[i] != gs[j]);
        assert(entries[gs[i]].name@ != entries[gs[j]].name@);
        lemma_name_lt_total(g[i].name@, g[j].name@);
    }
    assert forall|i: int, j: int| 0 <= i < f.len() && 0 <= j < g.len() implies (#[trigger] f[i]).name@
        != (#[trigger] g[j]).name@ && f[i].relative_path@ != g[j].relative_path@ by {
        assert(fs[i] != gs[j]);
        assert(entries[fs[i]].name@ != entries[gs[j]].name@);
        lemma_entry_path_injective(prefix, f[i].name@, g[j].name@);
    }
}

pub open spec fn prefix_view(prefix: Option<&str>) -> Option<Seq<char>> {
    match prefix {
        Some(p) => Some(p@),
        None => None,
    }
}

/// Splits the entries of a directory into folders and files, each sorted by
/// name, addressing each under `prefix` (or by its bare name at the root).
/// Every entry lands in exactly one of the two.
pub fn build_listing(entries: &Vec<EntryInfo>, prefix: Option<&str>) -> (r: Listing)
    ensures
        sorted_by_name(r.folders@),
        sorted_by_name(r.files@),
        r.folders@.len() + r.files@.len() == entries@.len(),
        bucket_of(r.folders@, entries@, entries@.len() as int, prefix_view(prefix), true),
        bucket_of(r.files@, entries@, entries@.len() as int, prefix_view(prefix), false),
        names_distinct(entries@) ==> strictly_sorted_by_name(r.folders@)
            && strictly_sorted_by_name(r.files@) && buckets_apart(r.folders@, r.files@),
{
    let ghost pre = prefix_view(prefix);
    let mut folders: Vec<DirectoryEntry> = Vec::new();
    let mut files: Vec<DirectoryEntry> = Vec::new();
    let mut k: usize = 0;
    let ghost mut fsrc: Seq<int> = Seq::empty();
    let ghost mut gsrc: Seq<int> = Seq::empty();
    proof {
        reveal(all_of_kind);
        reveal(all_made_of);
        reveal(all_listed);
    }
    while k < entries.len()
        invariant
            k <= entries@.len(),
            pre == prefix_view(prefix),
            sorted_by_name(folders@),
            sorted_by_name(files@),
            folders@.len() + files@.len() == k,
            bucket_of(folders@, entries@, k as int, pre, true),
            bucket_of(files@, entries@, k as int, pre, false),
            sourced(folders@, fsrc, entries@, k as int, pre, true),
            sourced(files@, gsrc, entries@, k as int, pre, false),
        decreases entries@.len() - k,
    {
        let d = make_entry(&entries[k], prefix);
        if d.is_directory {
            let ghost old_b = folders@;
            insert_sorted(&mut folders, d);
            proof {
                let p = choose|p: int| 0 <= p <= old_b.len() && folders@ == old_b.insert(p, d);
                lemma_bucket_insert(old_b, folders@, p, d, entries@, k as int, pre, true);
                lemma_bucket_skip(files@, entries@, k as int, pre, false);
                lemma_sourced_insert(old_b, folders@, fsrc, p, d, entries@, k as int, pre, true);
                lemma_sourced_skip(files@, gsrc, entries@, k as int, pre, false);
                fsrc = fsrc.insert(p, k as int);
            }
        } else {
            let ghost old_b = files@;
            insert_sorted(&mut files, d);
            proof {
                let p = choose|p: int| 0 <= p <= old_b.len() && files@ == old_b.insert(p, d);
                lemma_bucket_insert(old_b, files@, p, d, entries@, k as int, pre, false);
                lemma_bucket_skip(folders@, entries@, k as int, pre, true);
                lemma_sourced_insert(old_b, files@, gsrc, p, d, entries@, k as int, pre, false);
                lemma_sourced_skip(folders@, fsrc, entries@, k as int, pre, true);
                gsrc = gsrc.insert(p, k as int);
            }
        }
        k = k + 1;
    }
    proof {
        if names_distinct(entries@) {
            lemma_distinct_names_apart(folders@, fsrc, files@, gsrc, entries@, k as int, pre);
        }
    }
    Listing { folders, files }
}

} // verus!
