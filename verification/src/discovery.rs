use vstd::prelude::*;

use crate::date::Date;
use crate::date::MAX_BUCKET_SECS;
use crate::date::date_of_timestamp;
use crate::disk::size_on_disk;
use crate::paths::copy_prefix;
use crate::paths::path_eq;
use crate::paths::path_view;

verus! {

/// What a walk of the input tree reports about one entry: its path, whether
/// it is a directory, and the metadata read for it — `None` when the
/// metadata could not be read.
#[derive(Clone, Copy, Debug, PartialEq, Eq)]
pub struct EntryMeta {
    /// Byte length of the entry itself, as its metadata reports it.
    pub len: u64,
    /// Modification time as seconds since the Unix epoch.
    pub mtime_secs: i64,
}

#[derive(Clone, Debug)]
pub struct FsEntry {
    pub path: Vec<Vec<u8>>,
    pub is_dir: bool,
    pub meta: Option<EntryMeta>,
}

impl FsEntry {
    pub open spec fn pathv(self) -> Seq<Seq<u8>> {
        path_view(self.path)
    }
}

/// One unit of archival: a single accepted file, or a whole sidecar
/// directory collapsed into one asset.
#[derive(Clone, Debug)]
pub struct Asset {
    /// Representative path: the file itself, or the sidecar directory.
    pub path: Vec<Vec<u8>>,
    /// Byte size recorded at discovery: the file's length, or the recursive
    /// size of the sidecar directory as read from disk.
    pub size: u64,
    /// Local date of the representative path's modification time.
    pub date: Date,
}

impl Asset {
    pub open spec fn pathv(self) -> Seq<Seq<u8>> {
        path_view(self.path)
    }

    pub open spec fn wf(self) -> bool {
        &&& self.pathv().len() >= 1
        &&& self.date.wf()
    }

    pub fn is_wf(&self) -> (r: bool)
        ensures
            r == self.wf(),
    {
        self.path.len() >= 1 && self.date.is_wf()
    }
}

#[derive(Debug, PartialEq, Eq)]
pub enum DiscoverError {
    /// Metadata of a representative path could not be read.
    Metadata { path: Vec<Vec<u8>> },
    /// The recursive size of a sidecar directory could not be read.
    DirSize { path: Vec<Vec<u8>> },
    /// The modification time does not fall on a date the archive can name.
    Timestamp { path: Vec<Vec<u8>> },
}

pub open spec fn jpg_name() -> Seq<u8> {
    seq![106u8, 112u8, 103u8]  // "jpg"
}

pub open spec fn dng_name() -> Seq<u8> {
    seq![100u8, 110u8, 103u8]  // "dng"
}

pub open spec fn nef_name() -> Seq<u8> {
    seq![110u8, 101u8, 102u8]  // "nef"
}

pub open spec fn dxo_name() -> Seq<u8> {
    seq![68u8, 120u8, 79u8]  // "DxO"
}

pub open spec fn ascii_lower(c: u8) -> u8 {
    if 65 <= c <= 90 {
        (c + 32) as u8
    } else {
        c
    }
}

pub open spec fn lower_view(s: Seq<u8>) -> Seq<u8> {
    s.map_values(|c: u8| ascii_lower(c))
}

/// Index of the last `.` in a name, or `-1` when it has none.
pub open spec fn last_dot(name: Seq<u8>) -> int
    decreases name.len(),
{
    if name.len() == 0 {
        -1
    } else if name.last() == 46u8 {
        name.len() - 1
    } else {
        last_dot(name.drop_last())
    }
}

pub open spec fn extension_view(name: Seq<u8>) -> Seq<u8>
    recommends
        last_dot(name) >= 0,
{
    name.subrange(last_dot(name) + 1, name.len() as int)
}

pub open spec fn accepted_ext(ext: Seq<u8>) -> bool {
    ||| lower_view(ext) == jpg_name()
    ||| lower_view(ext) == dng_name()
    ||| lower_view(ext) == nef_name()
}

/// A name has an accepted extension when it holds a `.` that is not its
/// first byte and what follows the last `.` is `jpg`, `dng` or `nef` up to
/// ASCII case.
pub open spec fn has_accepted_extension(name: Seq<u8>) -> bool {
    last_dot(name) >= 1 && accepted_ext(extension_view(name))
}

/// An entry that discovery considers at all: a file whose name carries an
/// accepted extension.
pub open spec fn is_candidate(e: FsEntry) -> bool {
    &&& !e.is_dir
    &&& e.pathv().len() >= 1
    &&& has_accepted_extension(e.pathv().last())
}

/// A directory with one of these exact names holds derived images and is
/// archived as a single unit.
pub open spec fn collapse_dir_name(name: Seq<u8>) -> bool {
    name == jpg_name() || name == dxo_name()
}

/// A candidate file collapses into its parent directory when that directory
/// carries a sidecar name.
pub open spec fn collapses(path: Seq<Seq<u8>>) -> bool {
    path.len() >= 2 && collapse_dir_name(path[path.len() - 2])
}

/// The representative path of a candidate file: its sidecar parent when it
/// collapses, the file itself otherwise.
pub open spec fn rep_of(path: Seq<Seq<u8>>) -> Seq<Seq<u8>> {
    if collapses(path) {
        path.drop_last()
    } else {
        path
    }
}

/// A representative path stands for a directory exactly when its last
/// component is a sidecar name: a file with such a bare name has no
/// extension and is never a candidate.
pub open spec fn rep_is_dir(rep: Seq<Seq<u8>>) -> bool {
    rep.len() >= 1 && collapse_dir_name(rep.last())
}

/// The representative paths that discovery emits for the first `n` entries,
/// in traversal order, each path at most once.
pub open spec fn emitted_reps_prefix(entries: Seq<FsEntry>, n: int) -> Seq<Seq<Seq<u8>>>
    decreases n,
{
    if n <= 0 {
        Seq::empty()
    } else {
        let prev = emitted_reps_prefix(entries, n - 1);
        let e = entries[n - 1];
        if is_candidate(e) && !prev.contains(rep_of(e.pathv())) {
            prev.push(rep_of(e.pathv()))
        } else {
            prev
        }
    }
}

pub open spec fn emitted_reps(entries: Seq<FsEntry>) -> Seq<Seq<Seq<u8>>> {
    emitted_reps_prefix(entries, entries.len() as int)
}

/// The walk recorded usable metadata for this directory path.
pub open spec fn dir_meta_available(entries: Seq<FsEntry>, rep: Seq<Seq<u8>>) -> bool {
    exists|j: int|
        0 <= j < entries.len() && (#[trigger] entries[j]).is_dir && entries[j].pathv() == rep
            && entries[j].meta is Some
}

/// Index of the first candidate entry at or after `k`; `entries.len()`
/// when there is none.
pub open spec fn first_candidate_from(entries: Seq<FsEntry>, k: int) -> int
    decreases entries.len() - k,
{
    if k < 0 || k >= entries.len() {
        entries.len() as int
    } else if is_candidate(entries[k]) {
        k
    } else {
        first_candidate_from(entries, k + 1)
    }
}

/// The first candidate's representative path has no usable metadata: the
/// plain file's own entry carries none, or no directory entry with
/// metadata was recorded for the sidecar parent. Discovery then owes the
/// metadata error naming that path, before any read of disk or clock.
pub open spec fn first_rep_meta_missing(entries: Seq<FsEntry>) -> bool {
    let f = first_candidate_from(entries, 0);
    f < entries.len() && {
        let rep = rep_of(entries[f].pathv());
        if rep_is_dir(rep) {
            !dir_meta_available(entries, rep)
        } else {
            entries[f].meta is None
        }
    }
}

proof fn lemma_first_candidate_props(entries: Seq<FsEntry>, k: int)
    requires
        0 <= k <= entries.len(),
    ensures
        k <= first_candidate_from(entries, k) <= entries.len(),
        first_candidate_from(entries, k) < entries.len() ==> is_candidate(
            entries[first_candidate_from(entries, k)],
        ),
        forall|j: int|
            k <= j < first_candidate_from(entries, k) ==> !is_candidate(#[trigger] entries[j]),
    decreases entries.len() - k,
{
    if k < entries.len() && !is_candidate(entries[k]) {
        lemma_first_candidate_props(entries, k + 1);
    }
}

proof fn lemma_prefix_empty_when_no_candidates(entries: Seq<FsEntry>, n: int)
    requires
        forall|j: int| 0 <= j < n ==> !is_candidate(#[trigger] entries[j]),
    ensures
        emitted_reps_prefix(entries, n).len() == 0,
    decreases n,
{
    if n > 0 {
        lemma_prefix_empty_when_no_candidates(entries, n - 1);
    }
}

fn ascii_lower_exec(c: u8) -> (r: u8)
    ensures
        r == ascii_lower(c),
{
    if 65 <= c && c <= 90 {
        c + 32
    } else {
        c
    }
}

/// Does the name equal `jpg` or `DxO`, byte for byte?
pub fn name_is_collapse_dir(name: &Vec<u8>) -> (r: bool)
    ensures
        r == collapse_dir_name(name@),
{
    if name.len() != 3 {
        proof {
            assert(name@ != jpg_name() && name@ != dxo_name());
        }
        return false;
    }
    let jpg = name[0] == 106 && name[1] == 112 && name[2] == 103;
    let dxo = name[0] == 68 && name[1] == 120 && name[2] == 79;
    proof {
        if jpg {
            assert(name@ =~= jpg_name());
        } else {
            assert(name@ != jpg_name());
        }
        if dxo {
            assert(name@ =~= dxo_name());
        } else {
            assert(name@ != dxo_name());
        }
    }
    jpg || dxo
}

/// Compares the tail of `name` after position `dot` against one accepted
/// three-byte extension, up to ASCII case.
fn ext_matches(name: &Vec<u8>, dot: usize, l0: u8, l1: u8, l2: u8) -> (r: bool)
    requires
        dot < name@.len(),
    ensures
        r == (lower_view(name@.subrange(dot + 1, name@.len() as int)) == seq![l0, l1, l2]),
{
    let ghost ext = name@.subrange(dot as int + 1, name@.len() as int);
    if name.len() - dot - 1 != 3 {
        proof {
            assert(lower_view(ext).len() != seq![l0, l1, l2].len());
        }
        return false;
    }
    let ok = ascii_lower_exec(name[dot + 1]) == l0 && ascii_lower_exec(name[dot + 2]) == l1
        && ascii_lower_exec(name[dot + 3]) == l2;
    proof {
        if ok {
            assert(lower_view(ext) =~= seq![l0, l1, l2]);
        } else {
            assert(lower_view(ext) != seq![l0, l1, l2]);
        }
    }
    ok
}

proof fn lemma_last_dot_range(name: Seq<u8>)
    ensures
        -1 <= last_dot(name) < name.len(),
    decreases name.len(),
{
    if name.len() > 0 && name.last() != 46u8 {
        lemma_last_dot_range(name.drop_last());
    }
}

/// Finds the last `.` of a name, matching `last_dot`.
fn find_last_dot(name: &Vec<u8>) -> (r: Option<usize>)
    ensures
        r matches Some(d) ==> last_dot(name@) == d,
        r is None ==> last_dot(name@) == -1,
{
    let mut i: usize = name.len();
    proof {
        assert(name@.subrange(0, name@.len() as int) =~= name@);
    }
    while i > 0
        invariant
            i <= name@.len(),
            last_dot(name@) == last_dot(name@.subrange(0, i as int)),
        decreases i,
    {
        if name[i - 1] == 46 {
            proof {
                let sub = name@.subrange(0, i as int);
                assert(sub.last() == 46u8);
                assert(last_dot(sub) == i - 1);
            }
            return Some(i - 1);
        }
        proof {
            let sub = name@.subrange(0, i as int);
            assert(sub.last() != 46u8);
            assert(sub.drop_last() =~= name@.subrange(0, i as int - 1));
        }
        i -= 1;
    }
    proof {
        assert(name@.subrange(0, 0) =~= Seq::<u8>::empty());
    }
    None
}

/// Does the name end in an accepted extension?
pub fn name_has_accepted_extension(name: &Vec<u8>) -> (r: bool)
    ensures
        r == has_accepted_extension(name@),
{
    match find_last_dot(name) {
        Some(d) => {
            proof {
                lemma_last_dot_range(name@);
            }
            if d == 0 {
                return false;
            }
            let r = ext_matches(name, d, 106, 112, 103) || ext_matches(name, d, 100, 110, 103)
                || ext_matches(name, d, 110, 101, 102);
            proof {
                assert(seq![106u8, 112u8, 103u8] =~= jpg_name());
                assert(seq![100u8, 110u8, 103u8] =~= dng_name());
                assert(seq![110u8, 101u8, 102u8] =~= nef_name());
            }
            r
        },
        None => false,
    }
}

/// Is this entry a file whose name carries an accepted extension?
pub fn entry_is_candidate(e: &FsEntry) -> (r: bool)
    ensures
        r == is_candidate(*e),
{
    if e.is_dir {
        return false;
    }
    let n = e.path.len();
    if n == 0 {
        return false;
    }
    name_has_accepted_extension(&e.path[n - 1])
}

proof fn lemma_collapse_name_has_no_dot(name: Seq<u8>)
    requires
        collapse_dir_name(name),
    ensures
        last_dot(name) == -1,
{
    let s2 = name.drop_last();
    let s1 = s2.drop_last();
    let s0 = s1.drop_last();
    if name == jpg_name() {
        assert(s2 =~= seq![106u8, 112u8]);
        assert(s1 =~= seq![106u8]);
        assert(s0 =~= Seq::<u8>::empty());
        assert(last_dot(name) == last_dot(s2));
        assert(last_dot(s2) == last_dot(s1));
        assert(last_dot(s1) == last_dot(s0));
    } else {
        assert(s2 =~= seq![68u8, 120u8]);
        assert(s1 =~= seq![68u8]);
        assert(s0 =~= Seq::<u8>::empty());
        assert(last_dot(name) == last_dot(s2));
        assert(last_dot(s2) == last_dot(s1));
        assert(last_dot(s1) == last_dot(s0));
    }
}

/// A name with an accepted extension is never a sidecar directory name:
/// the sidecar names hold no dot at all.
pub proof fn lemma_accepted_not_collapse_name(name: Seq<u8>)
    requires
        has_accepted_extension(name),
    ensures
        !collapse_dir_name(name),
{
    if collapse_dir_name(name) {
        lemma_collapse_name_has_no_dot(name);
    }
}

/// Emitting is monotone: what the first `n` entries emit stands unchanged,
/// in place and order, in what the first `m` entries emit.
pub proof fn lemma_reps_prefix_extends(entries: Seq<FsEntry>, n: int, m: int)
    requires
        0 <= n <= m,
    ensures
        emitted_reps_prefix(entries, n).len() <= emitted_reps_prefix(entries, m).len(),
        forall|i: int|
            0 <= i < emitted_reps_prefix(entries, n).len() ==> #[trigger] emitted_reps_prefix(
                entries,
                m,
            )[i] == emitted_reps_prefix(entries, n)[i],
    decreases m - n,
{
    if n < m {
        lemma_reps_prefix_extends(entries, n, m - 1);
    }
}

proof fn lemma_reps_contains_extends(entries: Seq<FsEntry>, n: int, m: int, p: Seq<Seq<u8>>)
    requires
        0 <= n <= m,
        emitted_reps_prefix(entries, n).contains(p),
    ensures
        emitted_reps_prefix(entries, m).contains(p),
{
    lemma_reps_prefix_extends(entries, n, m);
    let i = choose|i: int|
        0 <= i < emitted_reps_prefix(entries, n).len() && emitted_reps_prefix(entries, n)[i] == p;
    assert(emitted_reps_prefix(entries, m)[i] == p);
}

/// Deduplication: discovery never emits the same representative path
/// twice, however many entries map to it.
pub proof fn lemma_reps_no_duplicates(entries: Seq<FsEntry>, n: int)
    ensures
        forall|i1: int, i2: int|
            0 <= i1 < i2 < emitted_reps_prefix(entries, n).len() ==> #[trigger] emitted_reps_prefix(
                entries,
                n,
            )[i1] != #[trigger] emitted_reps_prefix(entries, n)[i2],
    decreases n,
{
    if n > 0 {
        lemma_reps_no_duplicates(entries, n - 1);
        let prev = emitted_reps_prefix(entries, n - 1);
        let cur = emitted_reps_prefix(entries, n);
        if cur.len() > prev.len() {
            let x = rep_of(entries[n - 1].pathv());
            assert forall|i1: int, i2: int| 0 <= i1 < i2 < cur.len() implies cur[i1]
                != cur[i2] by {
                if i2 == prev.len() {
                    assert(cur[i1] == prev[i1]);
                    if prev[i1] == x {
                        assert(prev.contains(x));
                    }
                }
            }
        }
    }
}

/// Every candidate entry's representative path is emitted: a plain
/// accepted file always becomes an asset of its own, and a sidecar parent
/// becomes one for its files.
pub proof fn lemma_candidate_rep_emitted(entries: Seq<FsEntry>, j: int)
    requires
        0 <= j < entries.len(),
        is_candidate(entries[j]),
    ensures
        emitted_reps(entries).contains(rep_of(entries[j].pathv())),
{
    let x = rep_of(entries[j].pathv());
    let prev = emitted_reps_prefix(entries, j);
    let cur = emitted_reps_prefix(entries, j + 1);
    if prev.contains(x) {
        lemma_reps_contains_extends(entries, j, entries.len() as int, x);
    } else {
        assert(cur == prev.push(x));
        assert(cur[prev.len() as int] == x);
        assert(cur.contains(x));
        lemma_reps_contains_extends(entries, j + 1, entries.len() as int, x);
    }
}

proof fn lemma_prefix_only_from_candidates(entries: Seq<FsEntry>, n: int, i: int)
    requires
        0 <= n,
        0 <= i < emitted_reps_prefix(entries, n).len(),
    ensures
        exists|j: int|
            0 <= j < n && is_candidate(#[trigger] entries[j]) && rep_of(entries[j].pathv())
                == emitted_reps_prefix(entries, n)[i],
    decreases n,
{
    let prev = emitted_reps_prefix(entries, n - 1);
    let cur = emitted_reps_prefix(entries, n);
    if i < prev.len() {
        lemma_prefix_only_from_candidates(entries, n - 1, i);
        let j = choose|j: int|
            0 <= j < n - 1 && is_candidate(#[trigger] entries[j]) && rep_of(entries[j].pathv())
                == emitted_reps_prefix(entries, n - 1)[i];
        assert(0 <= j < n && is_candidate(entries[j]) && rep_of(entries[j].pathv()) == cur[i]);
    } else {
        assert(is_candidate(entries[n - 1]) && rep_of(entries[n - 1].pathv()) == cur[i]);
    }
}

/// Nothing but candidates produce assets: a file with an unrecognized or
/// absent extension, or a directory entry, never contributes a
/// representative path.
pub proof fn lemma_reps_only_from_candidates(entries: Seq<FsEntry>, i: int)
    requires
        0 <= i < emitted_reps(entries).len(),
    ensures
        exists|j: int|
            0 <= j < entries.len() && is_candidate(#[trigger] entries[j]) && rep_of(
                entries[j].pathv(),
            ) == emitted_reps(entries)[i],
{
    lemma_prefix_only_from_candidates(entries, entries.len() as int, i);
}

/// A file with an accepted extension whose parent is not a sidecar
/// directory is its own representative path: discovery emits it, once, and
/// it never counts as a directory, so its recorded size is its direct file
/// length.
pub proof fn lemma_plain_file_one_asset(entries: Seq<FsEntry>, j: int)
    requires
        0 <= j < entries.len(),
        is_candidate(entries[j]),
        !collapses(entries[j].pathv()),
    ensures
        emitted_reps(entries).contains(entries[j].pathv()),
        !rep_is_dir(entries[j].pathv()),
{
    lemma_candidate_rep_emitted(entries, j);
    lemma_accepted_not_collapse_name(entries[j].pathv().last());
}

/// However many qualifying files a sidecar directory holds, they all share
/// the one representative path — the directory itself — so discovery
/// yields exactly one asset for the whole directory.
pub proof fn lemma_sidecar_one_asset(entries: Seq<FsEntry>, j1: int, j2: int)
    requires
        0 <= j1 < entries.len(),
        0 <= j2 < entries.len(),
        is_candidate(entries[j1]),
        is_candidate(entries[j2]),
        collapses(entries[j1].pathv()),
        collapses(entries[j2].pathv()),
        entries[j1].pathv().drop_last() == entries[j2].pathv().drop_last(),
    ensures
        rep_of(entries[j1].pathv()) == rep_of(entries[j2].pathv()),
        emitted_reps(entries).contains(entries[j1].pathv().drop_last()),
        rep_is_dir(rep_of(entries[j1].pathv())),
{
    lemma_candidate_rep_emitted(entries, j1);
    let p = entries[j1].pathv();
    assert(p.drop_last().last() == p[p.len() - 2]);
}

/// Is this representative path already among the emitted assets? A linear
/// scan over the assets emitted so far: a hash set over byte-component
/// paths would rest on hashing contracts Verus does not supply for such
/// keys, and the set of representatives is small (one per asset).
fn contains_rep(assets: &Vec<Asset>, rep: &Vec<Vec<u8>>) -> (r: bool)
    ensures
        r == assets@.map_values(|a: Asset| a.pathv()).contains(path_view(*rep)),
{
    let ghost m = assets@.map_values(|a: Asset| a.pathv());
    let mut i: usize = 0;
    while i < assets.len()
        invariant
            i <= assets@.len(),
            forall|j: int| 0 <= j < i ==> #[trigger] assets@[j].pathv() != path_view(*rep),
        decreases assets@.len() - i,
    {
        if path_eq(&assets[i].path, rep) {
            proof {
                let m2 = assets@.map_values(|a: Asset| a.pathv());
                assert(m2[i as int] == path_view(*rep));
                assert(m2.contains(path_view(*rep)));
            }
            return true;
        }
        i += 1;
    }
    proof {
        if m.contains(path_view(*rep)) {
            let j = choose|j: int| 0 <= j < m.len() && m[j] == path_view(*rep);
            assert(assets@[j].pathv() == path_view(*rep));
            assert(false);
        }
    }
    false
}

/// Metadata of a directory entry recorded for this representative path,
/// when the walk reported one.
fn find_dir_meta(entries: &Vec<FsEntry>, rep: &Vec<Vec<u8>>) -> (r: Option<EntryMeta>)
    ensures
        r matches Some(m) ==> exists|j: int|
            0 <= j < entries@.len() && (#[trigger] entries@[j]).is_dir && entries@[j].pathv()
                == path_view(*rep) && entries@[j].meta == Some(m),
        r is Some ==> dir_meta_available(entries@, path_view(*rep)),
        r is None ==> !dir_meta_available(entries@, path_view(*rep)),
{
    let mut i: usize = 0;
    while i < entries.len()
        invariant
            i <= entries@.len(),
            forall|j: int|
                0 <= j < i ==> !((#[trigger] entries@[j]).is_dir && entries@[j].pathv()
                    == path_view(*rep) && entries@[j].meta is Some),
        decreases entries@.len() - i,
    {
        let e = &entries[i];
        if e.is_dir && path_eq(&e.path, rep) {
            match e.meta {
                Some(m) => {
                    proof {
                        assert(entries@[i as int].is_dir && entries@[i as int].pathv()
                            == path_view(*rep) && entries@[i as int].meta == Some(m));
                    }
                    return Some(m);
                },
                None => {},
            }
        }
        i += 1;
    }
    proof {
        if dir_meta_available(entries@, path_view(*rep)) {
            let j = choose|j: int|
                0 <= j < entries@.len() && (#[trigger] entries@[j]).is_dir && entries@[j].pathv()
                    == path_view(*rep) && entries@[j].meta is Some;
            assert(false);
        }
    }
    None
}

/// Walks the recorded entries in traversal order and yields one asset per
/// representative path: a file with an accepted extension stands for
/// itself, unless its parent directory carries a sidecar name, in which
/// case the parent directory is the asset, emitted once however many
/// qualifying files it holds. Any entry the walk could not read the
/// metadata of is fatal only when it becomes a representative path, as is a
/// sidecar directory whose recursive size cannot be read from disk, or a
/// modification time whose date the archive layout cannot name.
pub fn discover(entries: &Vec<FsEntry>) -> (r: Result<Vec<Asset>, DiscoverError>)
    ensures
        r matches Ok(assets) ==> {
            &&& assets@.map_values(|a: Asset| a.pathv()) == emitted_reps(entries@)
            &&& forall|i: int| 0 <= i < assets@.len() ==> (#[trigger] assets@[i]).wf()
            &&& forall|i: int|
                0 <= i < assets@.len() && !rep_is_dir((#[trigger] assets@[i]).pathv())
                    ==> exists|j: int|
                    0 <= j < entries@.len() && is_candidate(#[trigger] entries@[j])
                        && entries@[j].pathv() == assets@[i].pathv() && (entries@[j].meta matches
                    Some(m)
                        && m.len == assets@[i].size)
            &&& forall|i: int|
                0 <= i < assets@.len() && rep_is_dir((#[trigger] assets@[i]).pathv())
                    ==> dir_meta_available(entries@, assets@[i].pathv())
        },
        r matches Err(e) ==> match e {
            DiscoverError::Metadata { path } => {
                &&& emitted_reps(entries@).contains(path_view(path))
                &&& rep_is_dir(path_view(path)) ==> !dir_meta_available(
                    entries@,
                    path_view(path),
                )
                &&& !rep_is_dir(path_view(path)) ==> exists|j: int|
                    0 <= j < entries@.len() && is_candidate(#[trigger] entries@[j])
                        && entries@[j].pathv() == path_view(path) && entries@[j].meta is None
            },
            DiscoverError::DirSize { path } => emitted_reps(entries@).contains(path_view(path))
                && rep_is_dir(path_view(path)) && dir_meta_available(entries@, path_view(path)),
            DiscoverError::Timestamp { path } => {
                &&& emitted_reps(entries@).contains(path_view(path))
                &&& exists|j: int|
                    0 <= j < entries@.len() && #[trigger] entries@[j].pathv() == path_view(path)
                        && (if rep_is_dir(path_view(path)) {
                        entries@[j].is_dir
                    } else {
                        is_candidate(entries@[j])
                    }) && (entries@[j].meta matches Some(m) && !(0 <= m.mtime_secs
                        <= MAX_BUCKET_SECS))
            },
        },
        first_rep_meta_missing(entries@) ==> (r matches Err(DiscoverError::Metadata { path })
            && path_view(path) == rep_of(
            entries@[first_candidate_from(entries@, 0)].pathv(),
        )),
{
    let mut assets: Vec<Asset> = Vec::new();
    let mut k: usize = 0;
    proof {
        lemma_first_candidate_props(entries@, 0);
    }
    while k < entries.len()
        invariant
            k <= entries@.len(),
            assets@.map_values(|a: Asset| a.pathv()) == emitted_reps_prefix(entries@, k as int),
            forall|i: int| 0 <= i < assets@.len() ==> (#[trigger] assets@[i]).wf(),
            forall|i: int|
                0 <= i < assets@.len() && !rep_is_dir((#[trigger] assets@[i]).pathv())
                    ==> exists|j: int|
                    0 <= j < entries@.len() && is_candidate(#[trigger] entries@[j])
                        && entries@[j].pathv() == assets@[i].pathv() && (entries@[j].meta matches
                    Some(m)
                        && m.len == assets@[i].size),
            forall|i: int|
                0 <= i < assets@.len() && rep_is_dir((#[trigger] assets@[i]).pathv())
                    ==> dir_meta_available(entries@, assets@[i].pathv()),
            first_rep_meta_missing(entries@) ==> k as int <= first_candidate_from(entries@, 0),
        decreases entries@.len() - k,
    {
        let e = &entries[k];
        if !entry_is_candidate(e) {
            proof {
                if first_rep_meta_missing(entries@) {
                    lemma_first_candidate_props(entries@, 0);
                }
            }
            k += 1;
            continue ;
        }
        let n = e.path.len();
        let collapse = n >= 2 && name_is_collapse_dir(&e.path[n - 2]);
        proof {
            assert(collapse == collapses(e.pathv()));
        }
        let rep: Vec<Vec<u8>> = if collapse {
            copy_prefix(&e.path, n - 1)
        } else {
            copy_prefix(&e.path, n)
        };
        let ghost repv = path_view(rep);
        proof {
            if collapse {
                assert(e.pathv().drop_last() =~= e.pathv().subrange(0, n - 1));
            } else {
                assert(e.pathv() =~= e.pathv().subrange(0, n as int));
            }
            assert(repv == rep_of(e.pathv()));
            if collapse {
                assert(rep_is_dir(repv));
            } else {
                lemma_accepted_not_collapse_name(e.pathv().last());
                assert(!rep_is_dir(repv));
            }
        }
        if contains_rep(&assets, &rep) {
            proof {
                if first_rep_meta_missing(entries@) {
                    lemma_first_candidate_props(entries@, 0);
                    assert(k as int == first_candidate_from(entries@, 0));
                    lemma_prefix_empty_when_no_candidates(entries@, k as int);
                    assert(assets@.map_values(|a: Asset| a.pathv()).len() == 0);
                    assert(false);
                }
            }
            k += 1;
            continue ;
        }
        proof {
            let pk = emitted_reps_prefix(entries@, k as int);
            assert(emitted_reps_prefix(entries@, k as int + 1) == pk.push(repv));
            assert(pk.push(repv)[pk.len() as int] == repv);
            assert(emitted_reps_prefix(entries@, k as int + 1).contains(repv));
            lemma_reps_contains_extends(
                entries@,
                k as int + 1,
                entries@.len() as int,
                repv,
            );
        }
        let meta_opt: Option<EntryMeta> = if collapse {
            find_dir_meta(entries, &rep)
        } else {
            e.meta
        };
        let meta = match meta_opt {
            Some(m) => m,
            None => {
                proof {
                    assert(!collapse ==> (is_candidate(entries@[k as int])
                        && entries@[k as int].pathv() == path_view(rep) && entries@[k as int].meta
                        is None));
                    if first_rep_meta_missing(entries@) {
                        lemma_first_candidate_props(entries@, 0);
                        assert(k as int == first_candidate_from(entries@, 0));
                    }
                }
                return Err(DiscoverError::Metadata { path: rep });
            },
        };
        proof {
            if first_rep_meta_missing(entries@) {
                lemma_first_candidate_props(entries@, 0);
                assert(k as int == first_candidate_from(entries@, 0));
                assert(false);
            }
        }
        let size: u64 = if collapse {
            match size_on_disk(&rep) {
                Ok(s) => s,
                Err(_) => {
                    return Err(DiscoverError::DirSize { path: rep });
                },
            }
        } else {
            meta.len
        };
        let date = match date_of_timestamp(meta.mtime_secs) {
            Some(d) => d,
            None => {
                proof {
                    if collapse {
                        let j = choose|j: int|
                            0 <= j < entries@.len() && (#[trigger] entries@[j]).is_dir
                                && entries@[j].pathv() == path_view(rep) && entries@[j].meta
                                == Some(meta);
                        assert(entries@[j].pathv() == path_view(rep) && entries@[j].is_dir && (
                        entries@[j].meta matches Some(m) && !(0 <= m.mtime_secs
                            <= MAX_BUCKET_SECS)));
                    } else {
                        assert(entries@[k as int].pathv() == path_view(rep) && is_candidate(
                            entries@[k as int],
                        ) && (entries@[k as int].meta matches Some(m) && !(0 <= m.mtime_secs
                            <= MAX_BUCKET_SECS)));
                    }
                }
                return Err(DiscoverError::Timestamp { path: rep });
            },
        };
        let asset = Asset { path: rep, size, date };
        proof {
            assert(asset.pathv() == repv);
            assert(asset.wf());
            assert(rep_is_dir(repv) ==> dir_meta_available(entries@, repv));
        }
        assets.push(asset);
        proof {
            assert(assets@.map_values(|a: Asset| a.pathv()) =~= emitted_reps_prefix(
                entries@,
                k as int,
            ).push(repv));
        }
        k += 1;
    }
    Ok(assets)
}

} // verus!
