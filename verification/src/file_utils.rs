//! File records, enumeration filtering, and the size-then-hash duplicate
//! detector.

use vstd::prelude::*;
use vstd::string::StrSliceExecFns;

verus! {

/// A file discovered by enumeration: its path, its size in bytes, and its
/// content digest once one has been computed.
pub struct FileInfo {
    pub path: String,
    pub size: u64,
    pub hash: Option<Vec<u8>>,
}

/// The mathematical model of a `FileInfo`.
#[verifier::ext_equal]
pub struct FileInfoV {
    pub path: Seq<char>,
    pub size: u64,
    pub hash: Option<Seq<u8>>,
}

impl View for FileInfo {
    type V = FileInfoV;

    open spec fn view(&self) -> FileInfoV {
        FileInfoV {
            path: self.path@,
            size: self.size,
            hash: match self.hash {
                Some(v) => Some(v@),
                None => None,
            },
        }
    }
}

impl DeepView for FileInfo {
    type V = FileInfoV;

    open spec fn deep_view(&self) -> FileInfoV {
        self@
    }
}

impl FileInfo {
    /// A fresh record for a file of known size; no digest yet.
    pub fn new(path: String, size: u64) -> (r: FileInfo)
        ensures
            r@ == (FileInfoV { path: path@, size: size, hash: None::<Seq<u8>> }),
    {
        FileInfo { path, size, hash: None }
    }

    /// Computes and records the digest of this file's contents.
    pub fn calculate_hash(&mut self, contents: &Vec<u8>)
        ensures
            final(self)@ == (FileInfoV {
                path: old(self)@.path,
                size: old(self)@.size,
                hash: Some(digest_of(contents@)),
            }),
    {
        self.hash = Some(sha256_bytes(contents));
    }
}

/// A raw directory entry as enumeration hands it over: a path, a size, and
/// whether the entry is a regular file (directories and symlinks are not).
pub struct FileEntry {
    pub path: String,
    pub size: u64,
    pub is_file: bool,
}

/// The mathematical model of a `FileEntry`.
#[verifier::ext_equal]
pub struct FileEntryV {
    pub path: Seq<char>,
    pub size: u64,
    pub is_file: bool,
}

impl View for FileEntry {
    type V = FileEntryV;

    open spec fn view(&self) -> FileEntryV {
        FileEntryV { path: self.path@, size: self.size, is_file: self.is_file }
    }
}

impl DeepView for FileEntry {
    type V = FileEntryV;

    open spec fn deep_view(&self) -> FileEntryV {
        self@
    }
}

/// Index of the first character of the path's file name, i.e. the position
/// right after the last `/` (0 when the path holds no `/`).
pub open spec fn name_start(p: Seq<char>) -> int
    decreases p.len(),
{
    if p.len() == 0 {
        0
    } else if p[p.len() - 1] == '/' {
        p.len() as int
    } else {
        name_start(p.drop_last())
    }
}

/// Index of the last `.` in the path, or -1 when there is none.
pub open spec fn last_dot(p: Seq<char>) -> int
    decreases p.len(),
{
    if p.len() == 0 {
        -1
    } else if p[p.len() - 1] == '.' {
        p.len() - 1
    } else {
        last_dot(p.drop_last())
    }
}

/// The path's extension: the suffix of the file name after its last `.`,
/// without the dot. A file name without a `.`, or whose only `.` leads it
/// (a hidden file), has no extension.
pub open spec fn extension_of(p: Seq<char>) -> Option<Seq<char>> {
    if last_dot(p) > name_start(p) {
        Some(p.subrange(last_dot(p) + 1, p.len() as int))
    } else {
        None
    }
}

/// A path is ignored exactly when it has an extension that matches one of
/// the filters (case-sensitive, exact).
pub open spec fn spec_should_ignore(p: Seq<char>, filters: Seq<Seq<char>>) -> bool {
    match extension_of(p) {
        Some(e) => exists|i: int| 0 <= i < filters.len() && filters[i] == e,
        None => false,
    }
}

/// Returns whether the file at `path` is excluded by the extension filters.
pub fn should_ignore(path: &str, filters: &Vec<String>) -> (r: bool)
    ensures
        r == spec_should_ignore(path@, filters.deep_view()),
{
    let n: usize = path.unicode_len();
    let mut start: usize = 0;
    let mut dot: usize = 0;
    let mut has_dot: bool = false;
    let mut i: usize = 0;
    while i < n
        invariant
            n == path@.len(),
            i <= n,
            start <= i,
            start == name_start(path@.take(i as int)),
            has_dot ==> dot < i && dot == last_dot(path@.take(i as int)),
            !has_dot ==> last_dot(path@.take(i as int)) == -1,
        decreases n - i,
    {
        let c = path.get_char(i);
        proof {
            let q = path@.take(i + 1);
            assert(q.drop_last() =~= path@.take(i as int));
            assert(q[q.len() - 1] == path@[i as int]);
        }
        if c == '/' {
            start = i + 1;
        }
        if c == '.' {
            dot = i;
            has_dot = true;
        }
        i = i + 1;
    }
    proof {
        assert(path@.take(n as int) =~= path@);
    }
    if has_dot && dot > start {
        let ext = path.substring_char(dot + 1, n);
        let ext_string = ext.to_owned();
        proof {
            assert(ext_string@ =~= extension_of(path@)->0);
        }
        let m = filters.len();
        let mut j: usize = 0;
        while j < m
            invariant
                m == filters.len(),
                j <= m,
                ext_string@ == extension_of(path@)->0,
                extension_of(path@) is Some,
                forall|k: int| 0 <= k < j ==> filters.deep_view()[k] != ext_string@,
            decreases m - j,
        {
            proof {
                assert(filters.deep_view()[j as int] == filters@[j as int]@);
            }
            if filters[j].eq(&ext_string) {
                return true;
            }
            j = j + 1;
        }
        false
    } else {
        false
    }
}

/// Builds the fresh records for the entries that enumeration keeps: regular
/// files whose extension is not filtered out, in discovery order.
pub open spec fn spec_collect(entries: Seq<FileEntryV>, filters: Seq<Seq<char>>) -> Seq<FileInfoV>
    decreases entries.len(),
{
    if entries.len() == 0 {
        Seq::empty()
    } else {
        let rest = spec_collect(entries.drop_last(), filters);
        let e = entries.last();
        if e.is_file && !spec_should_ignore(e.path, filters) {
            rest.push(FileInfoV { path: e.path, size: e.size, hash: None })
        } else {
            rest
        }
    }
}

/// Keeps the regular files whose extension is not filtered out, in discovery
/// order, each as a fresh record without a digest.
pub fn collect_files(entries: &Vec<FileEntry>, filters: &Vec<String>) -> (r: Vec<FileInfo>)
    ensures
        r.deep_view() == spec_collect(entries.deep_view(), filters.deep_view()),
{
    let n = entries.len();
    let mut r: Vec<FileInfo> = Vec::new();
    let mut i: usize = 0;
    while i < n
        invariant
            n == entries@.len(),
            i <= n,
            r.deep_view() =~= spec_collect(entries.deep_view().take(i as int), filters.deep_view()),
        decreases n - i,
    {
        proof {
            let q = entries.deep_view().take(i + 1);
            assert(q.drop_last() =~= entries.deep_view().take(i as int));
            assert(q.last() == entries.deep_view()[i as int]);
        }
        let e = &entries[i];
        if e.is_file && !should_ignore(e.path.as_str(), filters) {
            r.push(FileInfo::new(e.path.clone(), e.size));
        }
        i = i + 1;
    }
    proof {
        assert(entries.deep_view().take(n as int) =~= entries.deep_view());
    }
    r
}

/// A set of byte-identical files: the digest they share and their paths in
/// discovery order.
pub struct DuplicateGroup {
    pub hash: Vec<u8>,
    pub paths: Vec<String>,
}

/// The mathematical model of a `DuplicateGroup`.
#[verifier::ext_equal]
pub struct DuplicateGroupV {
    pub hash: Seq<u8>,
    pub paths: Seq<Seq<char>>,
}

impl View for DuplicateGroup {
    type V = DuplicateGroupV;

    open spec fn view(&self) -> DuplicateGroupV {
        DuplicateGroupV { hash: self.hash@, paths: self.paths.deep_view() }
    }
}

impl DeepView for DuplicateGroup {
    type V = DuplicateGroupV;

    open spec fn deep_view(&self) -> DuplicateGroupV {
        self@
    }
}

/// The content digest of a byte sequence, as the digest routine computes it.
pub uninterp spec fn digest_of(bytes: Seq<u8>) -> Seq<u8>;

/// Relies on sha2::Sha256::digest: a 32-byte digest that is a function of the
/// input bytes alone.
#[verifier::external_body]
fn sha256_bytes(bytes: &Vec<u8>) -> (r: Vec<u8>)
    ensures
        r@ == digest_of(bytes@),
        r@.len() == 32,
{
    <sha2::Sha256 as sha2::Digest>::digest(bytes.as_slice()).to_vec()
}

fn bytes_eq(a: &Vec<u8>, b: &Vec<u8>) -> (r: bool)
    ensures
        r == (a@ == b@),
{
    if a.len() != b.len() {
        return false;
    }
    let n = a.len();
    let mut i: usize = 0;
    while i < n
        invariant
            n == a@.len() == b@.len(),
            i <= n,
            forall|k: int| 0 <= k < i ==> a@[k] == b@[k],
        decreases n - i,
    {
        if a[i] != b[i] {
            return false;
        }
        i = i + 1;
    }
    proof {
        assert(a@ =~= b@);
    }
    true
}

fn clone_bytes(v: &Vec<u8>) -> (r: Vec<u8>)
    ensures
        r@ == v@,
{
    let n = v.len();
    let mut r: Vec<u8> = Vec::new();
    let mut i: usize = 0;
    while i < n
        invariant
            n == v@.len(),
            i <= n,
            r@ =~= v@.take(i as int),
        decreases n - i,
    {
        r.push(v[i]);
        i = i + 1;
    }
    proof {
        assert(v@.take(n as int) =~= v@);
    }
    r
}

fn clone_info(f: &FileInfo) -> (r: FileInfo)
    ensures
        r@ == f@,
{
    let hash = match &f.hash {
        Some(v) => Some(clone_bytes(v)),
        None => None,
    };
    FileInfo { path: f.path.clone(), size: f.size, hash }
}

/// Whether the file at index `i` shares its size with some other file.
pub open spec fn size_collides(files: Seq<FileInfoV>, i: int) -> bool {
    exists|j: int| 0 <= j < files.len() && j != i && files[j].size == files[i].size
}

/// The records after the hashing pass: every file that shares its size with
/// another, and whose content could be read, carries the digest of that
/// content; all others are untouched.
pub open spec fn with_hashes(files: Seq<FileInfoV>, contents: Seq<Option<Seq<u8>>>) -> Seq<
    FileInfoV,
> {
    Seq::new(
        files.len(),
        |i: int|
            if size_collides(files, i) && contents[i] is Some {
                FileInfoV {
                    path: files[i].path,
                    size: files[i].size,
                    hash: Some(digest_of(contents[i]->0)),
                }
            } else {
                files[i]
            },
    )
}

/// The paths of the records whose digest is `h`, in record order.
pub open spec fn paths_with_hash(files: Seq<FileInfoV>, h: Seq<u8>) -> Seq<Seq<char>>
    decreases files.len(),
{
    if files.len() == 0 {
        Seq::empty()
    } else {
        let rest = paths_with_hash(files.drop_last(), h);
        if files.last().hash == Some(h) {
            rest.push(files.last().path)
        } else {
            rest
        }
    }
}

/// The distinct digests among the records, in order of first occurrence.
pub open spec fn hash_list(files: Seq<FileInfoV>) -> Seq<Seq<u8>>
    decreases files.len(),
{
    if files.len() == 0 {
        Seq::empty()
    } else {
        let rest = hash_list(files.drop_last());
        match files.last().hash {
            Some(h) => if rest.contains(h) {
                rest
            } else {
                rest.push(h)
            },
            None => rest,
        }
    }
}

/// One group per distinct digest, in order of first occurrence, each holding
/// the paths of the records that carry that digest.
pub open spec fn all_groups(files: Seq<FileInfoV>) -> Seq<DuplicateGroupV> {
    hash_list(files).map_values(
        |h: Seq<u8>| DuplicateGroupV { hash: h, paths: paths_with_hash(files, h) },
    )
}

/// The groups that hold at least two files.
pub open spec fn groups_of(files: Seq<FileInfoV>) -> Seq<DuplicateGroupV> {
    all_groups(files).filter(|g: DuplicateGroupV| g.paths.len() >= 2)
}

/// What duplicate detection reports for the given records and file contents:
/// hash the size-colliding readable files, group by digest, and keep the
/// groups of two or more.
pub open spec fn spec_detect(files: Seq<FileInfoV>, contents: Seq<Option<Seq<u8>>>) -> Seq<
    DuplicateGroupV,
> {
    groups_of(with_hashes(files, contents))
}

fn size_collides_at(files: &Vec<FileInfo>, i: usize) -> (r: bool)
    requires
        i < files@.len(),
    ensures
        r == size_collides(files.deep_view(), i as int),
{
    let n = files.len();
    let mut collides = false;
    let mut j: usize = 0;
    while j < n
        invariant
            n == files@.len(),
            i < n,
            j <= n,
            collides == exists|k: int|
                0 <= k < j && k != i && files.deep_view()[k].size == files.deep_view()[
                    i as int
                ].size,
        decreases n - j,
    {
        proof {
            assert(files@[j as int]@ == files.deep_view()[j as int]);
            assert(files@[i as int]@ == files.deep_view()[i as int]);
        }
        if j != i && files[j].size == files[i].size {
            collides = true;
            proof {
                assert(files.deep_view()[j as int].size == files.deep_view()[i as int].size);
            }
        }
        j = j + 1;
    }
    collides
}

/// The indices of the files that the detector will hash: those sharing their
/// size with at least one other file, in increasing order.
pub fn files_to_hash(files: &Vec<FileInfo>) -> (r: Vec<usize>)
    ensures
        forall|k: int| 0 <= k < r@.len() ==> r@[k] < files@.len(),
        forall|k: int| 0 <= k < r@.len() ==> size_collides(files.deep_view(), r@[k] as int),
        forall|i: int|
            0 <= i < files@.len() && size_collides(files.deep_view(), i) ==> r@.contains(
                i as usize,
            ),
        forall|k1: int, k2: int| 0 <= k1 < k2 < r@.len() ==> r@[k1] < r@[k2],
    decreases files@.len(),
{
    let n = files.len();
    let mut r: Vec<usize> = Vec::new();
    let mut i: usize = 0;
    while i < n
        invariant
            n == files@.len(),
            i <= n,
            forall|k: int| 0 <= k < r@.len() ==> r@[k] < i,
            forall|k: int| 0 <= k < r@.len() ==> size_collides(files.deep_view(), r@[k] as int),
            forall|m: int|
                0 <= m < i && size_collides(files.deep_view(), m) ==> r@.contains(m as usize),
            forall|k1: int, k2: int| 0 <= k1 < k2 < r@.len() ==> r@[k1] < r@[k2],
        decreases n - i,
    {
        if size_collides_at(files, i) {
            let ghost old_r = r@;
            r.push(i);
            proof {
                assert(r@.last() == i as usize);
                assert forall|m: int|
                    0 <= m < i + 1 && size_collides(files.deep_view(), m) implies r@.contains(
                    m as usize,
                ) by {
                    if m < i {
                        let w = choose|w: int| 0 <= w < old_r.len() && old_r[w] == m as usize;
                        assert(r@[w] == m as usize);
                    } else {
                        assert(r@[r@.len() - 1] == m as usize);
                    }
                }
            }
        }
        i = i + 1;
    }
    r
}

/// Groups the size-colliding readable files by content digest and reports the
/// groups that hold at least two files, each group's paths in discovery
/// order. Also records each computed digest on its file.
pub fn find_duplicates(files: &mut Vec<FileInfo>, contents: &Vec<Option<Vec<u8>>>) -> (groups:
    Vec<DuplicateGroup>)
    requires
        old(files)@.len() == contents@.len(),
    ensures
        final(files).deep_view() == with_hashes(old(files).deep_view(), contents.deep_view()),
        groups.deep_view() == spec_detect(old(files).deep_view(), contents.deep_view()),
{
    let ghost fv = old(files).deep_view();
    let ghost cv = contents.deep_view();
    let n = files.len();
    // Hash every file that shares its size with another and whose content
    // could be read.
    let mut hashed: Vec<FileInfo> = Vec::new();
    let mut i: usize = 0;
    while i < n
        invariant
            files.deep_view() == fv,
            n == files@.len() == contents@.len(),
            fv.len() == n && cv.len() == n,
            cv == contents.deep_view(),
            i <= n,
            hashed.deep_view() =~= with_hashes(fv, cv).take(i as int),
        decreases n - i,
    {
        let collides = size_collides_at(files, i);
        proof {
            assert(contents@[i as int].deep_view() == cv[i as int]);
            assert(files@[i as int]@ == fv[i as int]);
        }
        let new_info: FileInfo = if collides {
            match &contents[i] {
                Some(c) => {
                    proof {
                        assert(c.deep_view() =~= c@);
                        assert(cv[i as int] == Some(c@));
                    }
                    let fi = &files[i];
                    FileInfo { path: fi.path.clone(), size: fi.size, hash: Some(sha256_bytes(c)) }
                },
                None => {
                    proof {
                        assert(cv[i as int] is None);
                    }
                    clone_info(&files[i])
                },
            }
        } else {
            clone_info(&files[i])
        };
        proof {
            assert(new_info@ =~~= with_hashes(fv, cv)[i as int]);
        }
        let ghost old_h = hashed.deep_view();
        hashed.push(new_info);
        proof {
            assert forall|k: int| 0 <= k < old_h.len() implies hashed.deep_view()[k] == old_h[
                k
            ] by {
                assert(hashed@[k]@ == old_h[k]);
            }
            assert(old_h.len() == i);
            assert(hashed@.len() == i + 1);
            assert(hashed.deep_view().len() == hashed@.len());
            assert(hashed.deep_view()[i as int] == hashed@[i as int]@);
            assert(hashed@[i as int]@ == with_hashes(fv, cv)[i as int]);
            assert forall|k: int| 0 <= k < i + 1 implies hashed.deep_view()[k] == with_hashes(
                fv,
                cv,
            ).take(i + 1)[k] by {
                if k < i {
                    assert(hashed.deep_view()[k] == old_h[k]);
                    assert(old_h[k] == with_hashes(fv, cv).take(i as int)[k]);
                }
            }
            assert(hashed.deep_view() =~~= with_hashes(fv, cv).take(i + 1));
        }
        i = i + 1;
    }
    proof {
        assert(with_hashes(fv, cv).take(n as int) =~= with_hashes(fv, cv));
    }
    *files = hashed;
    // Group by digest, then keep the groups with at least two members.
    let gs = group_by_hash(files);
    keep_duplicates(&gs)
}


/// Every digest in `hash_list` is carried by some record, and conversely.
pub proof fn lemma_hash_list_members(files: Seq<FileInfoV>)
    ensures
        forall|h: Seq<u8>|
            #[trigger] hash_list(files).contains(h) <==> exists|k: int|
                0 <= k < files.len() && files[k].hash == Some(h),
    decreases files.len(),
{
    if files.len() > 0 {
        let prev = files.drop_last();
        lemma_hash_list_members(prev);
        let rest = hash_list(prev);
        assert forall|h: Seq<u8>| #[trigger] hash_list(files).contains(h) implies exists|k: int|
            0 <= k < files.len() && files[k].hash == Some(h) by {
            if rest.contains(h) {
                let k = choose|k: int| 0 <= k < prev.len() && prev[k].hash == Some(h);
                assert(files[k].hash == Some(h));
            } else {
                assert(files.last().hash == Some(h));
                assert(files[files.len() - 1].hash == Some(h));
            }
        }
        assert forall|h: Seq<u8>|
            (exists|k: int| 0 <= k < files.len() && files[k].hash == Some(h)) implies #[trigger] hash_list(
            files,
        ).contains(h) by {
            let k = choose|k: int| 0 <= k < files.len() && files[k].hash == Some(h);
            if k < files.len() - 1 {
                assert(prev[k].hash == Some(h));
                assert(rest.contains(h));
                let w = choose|w: int| 0 <= w < rest.len() && rest[w] == h;
                assert(hash_list(files)[w] == h);
            } else {
                match files.last().hash {
                    Some(g) => {
                        if rest.contains(g) {
                            let w = choose|w: int| 0 <= w < rest.len() && rest[w] == g;
                            assert(hash_list(files)[w] == h);
                        } else {
                            assert(hash_list(files).last() == h);
                        }
                    },
                    None => {},
                }
            }
        }
    }
}

/// A path is reported for digest `h` exactly when some record carries both.
pub proof fn lemma_paths_with_hash_members(files: Seq<FileInfoV>)
    ensures
        forall|h: Seq<u8>, p: Seq<char>|
            #[trigger] paths_with_hash(files, h).contains(p) <==> exists|k: int|
                0 <= k < files.len() && files[k].hash == Some(h) && #[trigger] files[k].path == p,
    decreases files.len(),
{
    if files.len() > 0 {
        let prev = files.drop_last();
        lemma_paths_with_hash_members(prev);
        assert forall|h: Seq<u8>, p: Seq<char>| #[trigger] paths_with_hash(files, h).contains(p) implies exists|
            k: int,
        | 0 <= k < files.len() && files[k].hash == Some(h) && #[trigger] files[k].path == p by {
            let ps = paths_with_hash(files, h);
            let w = choose|w: int| 0 <= w < ps.len() && ps[w] == p;
            if w < paths_with_hash(prev, h).len() {
                assert(paths_with_hash(prev, h)[w] == p);
                assert(paths_with_hash(prev, h).contains(p));
                let k = choose|k: int|
                    0 <= k < prev.len() && prev[k].hash == Some(h) && prev[k].path == p;
                assert(files[k].hash == Some(h) && files[k].path == p);
            } else {
                assert(files.last().hash == Some(h) && files.last().path == p);
                assert(files[files.len() - 1].hash == Some(h) && files[files.len() - 1].path == p);
            }
        }
        assert forall|h: Seq<u8>, p: Seq<char>|
            (exists|k: int|
                0 <= k < files.len() && files[k].hash == Some(h) && #[trigger] files[k].path
                    == p) implies #[trigger] paths_with_hash(files, h).contains(p) by {
            let k = choose|k: int|
                0 <= k < files.len() && files[k].hash == Some(h) && files[k].path == p;
            if k < files.len() - 1 {
                assert(prev[k].hash == Some(h) && prev[k].path == p);
                assert(paths_with_hash(prev, h).contains(p));
                let w = choose|w: int|
                    0 <= w < paths_with_hash(prev, h).len() && paths_with_hash(prev, h)[w] == p;
                if files.last().hash == Some(h) {
                    assert(paths_with_hash(files, h)[w] == p);
                } else {
                    assert(paths_with_hash(files, h)[w] == p);
                }
            } else {
                assert(paths_with_hash(files, h).last() == p);
            }
        }
    }
}

fn paths_for_hash(files: &Vec<FileInfo>, h: &Vec<u8>) -> (r: Vec<String>)
    ensures
        r.deep_view() == paths_with_hash(files.deep_view(), h@),
{
    let ghost hv = files.deep_view();
    let n = files.len();
    let mut r: Vec<String> = Vec::new();
    let mut i: usize = 0;
    while i < n
        invariant
            hv == files.deep_view(),
            n == files@.len(),
            i <= n,
            r.deep_view() =~= paths_with_hash(hv.take(i as int), h@),
        decreases n - i,
    {
        proof {
            let q = hv.take(i + 1);
            assert(q.drop_last() =~= hv.take(i as int));
            assert(q.last() == hv[i as int]);
            assert(files@[i as int].deep_view() == hv[i as int]);
        }
        let keep = match &files[i].hash {
            Some(g) => bytes_eq(g, h),
            None => false,
        };
        if keep {
            r.push(files[i].path.clone());
        }
        i = i + 1;
    }
    proof {
        assert(hv.take(n as int) =~= hv);
    }
    r
}

fn hash_seen_before(files: &Vec<FileInfo>, i: usize, h: &Vec<u8>) -> (r: bool)
    requires
        i <= files@.len(),
    ensures
        r == exists|k: int|
            0 <= k < i && files.deep_view()[k].hash == Some(h@),
{
    let mut j: usize = 0;
    let mut seen = false;
    while j < i
        invariant
            i <= files@.len(),
            j <= i,
            seen == exists|k: int| 0 <= k < j && files.deep_view()[k].hash == Some(h@),
        decreases i - j,
    {
        proof {
            assert(files@[j as int].deep_view() == files.deep_view()[j as int]);
        }
        let hit = match &files[j].hash {
            Some(g) => bytes_eq(g, h),
            None => false,
        };
        if hit {
            seen = true;
        }
        j = j + 1;
    }
    seen
}

fn group_by_hash(files: &Vec<FileInfo>) -> (gs: Vec<DuplicateGroup>)
    ensures
        gs.deep_view() == all_groups(files.deep_view()),
{
    let ghost hv = files.deep_view();
    let n = files.len();
    let mut gs: Vec<DuplicateGroup> = Vec::new();
    let mut i: usize = 0;
    while i < n
        invariant
            hv == files.deep_view(),
            n == files@.len(),
            i <= n,
            gs.deep_view().len() == hash_list(hv.take(i as int)).len(),
            forall|k: int|
                0 <= k < gs.deep_view().len() ==> #[trigger] gs.deep_view()[k].hash == hash_list(
                    hv.take(i as int),
                )[k],
            forall|k: int|
                0 <= k < gs.deep_view().len() ==> #[trigger] gs.deep_view()[k].paths
                    == paths_with_hash(hv, gs.deep_view()[k].hash),
        decreases n - i,
    {
        proof {
            let q = hv.take(i + 1);
            assert(q.drop_last() =~= hv.take(i as int));
            assert(q.last() == hv[i as int]);
            assert(files@[i as int].deep_view() == hv[i as int]);
        }
        match &files[i].hash {
            Some(h) => {
                proof {
                    assert(hv[i as int].hash == Some(h@));
                }
                let seen = hash_seen_before(files, i, h);
                proof {
                    lemma_hash_list_members(hv.take(i as int));
                    assert(forall|k: int|
                        0 <= k < i ==> hv.take(i as int)[k] == files.deep_view()[k]);
                    assert(seen == hash_list(hv.take(i as int)).contains(h@));
                }
                if !seen {
                    let hash = clone_bytes(h);
                    let paths = paths_for_hash(files, h);
                    let ghost old_gs = gs.deep_view();
                    gs.push(DuplicateGroup { hash, paths });
                    proof {
                        assert(gs.deep_view() =~= old_gs.push(
                            DuplicateGroupV { hash: h@, paths: paths_with_hash(hv, h@) },
                        ));
                        assert(hash_list(hv.take(i + 1)) == hash_list(hv.take(i as int)).push(h@));
                    }
                } else {
                    proof {
                        assert(hash_list(hv.take(i + 1)) == hash_list(hv.take(i as int)));
                    }
                }
            },
            None => {
                proof {
                    assert(hv[i as int].hash is None);
                    assert(hash_list(hv.take(i + 1)) == hash_list(hv.take(i as int)));
                }
            },
        }
        i = i + 1;
    }
    proof {
        assert(hv.take(n as int) =~= hv);
        assert(all_groups(hv).len() == hash_list(hv).len());
        assert forall|k: int| 0 <= k < gs.deep_view().len() implies gs.deep_view()[k]
            == all_groups(hv)[k] by {
            assert(all_groups(hv)[k] == DuplicateGroupV {
                hash: hash_list(hv)[k],
                paths: paths_with_hash(hv, hash_list(hv)[k]),
            });
            assert(gs.deep_view()[k].hash == hash_list(hv)[k]);
            assert(gs.deep_view()[k].paths == paths_with_hash(hv, hash_list(hv)[k]));
            assert(gs.deep_view()[k] =~~= all_groups(hv)[k]);
        }
        assert(gs.deep_view() =~= all_groups(hv));
    }
    gs
}

fn clone_group(g: &DuplicateGroup) -> (r: DuplicateGroup)
    ensures
        r@ == g@,
{
    let hash = clone_bytes(&g.hash);
    let n = g.paths.len();
    let mut paths: Vec<String> = Vec::new();
    let mut i: usize = 0;
    while i < n
        invariant
            n == g.paths@.len(),
            i <= n,
            paths.deep_view() =~= g.paths.deep_view().take(i as int),
        decreases n - i,
    {
        proof {
            assert(g.paths@[i as int]@ == g.paths.deep_view()[i as int]);
        }
        let ghost old_p = paths.deep_view();
        paths.push(g.paths[i].clone());
        proof {
            assert forall|k: int| 0 <= k < old_p.len() implies paths.deep_view()[k] == old_p[
                k
            ] by {
                assert(paths@[k]@ == old_p[k]);
            }
            assert(paths.deep_view().last() == g.paths.deep_view()[i as int]);
            assert(old_p.len() == i);
            assert(paths@.len() == i + 1);
            assert(paths.deep_view().len() == paths@.len());
            assert(paths.deep_view().len() == i + 1);
            assert forall|k: int| 0 <= k < i + 1 implies paths.deep_view()[k]
                == g.paths.deep_view().take(i as int + 1)[k] by {
                if k < i {
                    assert(paths.deep_view()[k] == old_p[k]);
                    assert(old_p[k] == g.paths.deep_view().take(i as int)[k]);
                } else {
                    assert(paths.deep_view()[k] == paths.deep_view().last());
                }
            }
            assert(paths.deep_view() =~= g.paths.deep_view().take(i + 1));
        }
        i = i + 1;
    }
    proof {
        assert(g.paths.deep_view().take(n as int) =~= g.paths.deep_view());
        assert(paths.deep_view() == g.paths.deep_view());
    }
    DuplicateGroup { hash, paths }
}

fn keep_duplicates(gs: &Vec<DuplicateGroup>) -> (out: Vec<DuplicateGroup>)
    ensures
        out.deep_view() == gs.deep_view().filter(|g: DuplicateGroupV| g.paths.len() >= 2),
{
    let ghost all = gs.deep_view();
    let n = gs.len();
    let mut out: Vec<DuplicateGroup> = Vec::new();
    let mut i: usize = 0;
    while i < n
        invariant
            all == gs.deep_view(),
            n == gs@.len(),
            i <= n,
            out.deep_view() =~= all.take(i as int).filter(|g: DuplicateGroupV| g.paths.len() >= 2),
        decreases n - i,
    {
        proof {
            reveal(Seq::filter);
            let q = all.take(i + 1);
            assert(q.drop_last() =~= all.take(i as int));
            assert(q.last() == all[i as int]);
            assert(gs@[i as int].deep_view() == all[i as int]);
        }
        if gs[i].paths.len() >= 2 {
            out.push(clone_group(&gs[i]));
        }
        i = i + 1;
    }
    proof {
        assert(all.take(n as int) =~= all);
    }
    out
}
/// Any element of a filtered sequence is an element of the sequence it was
/// filtered from.
proof fn lemma_filter_subset<A>(s: Seq<A>, pred: spec_fn(A) -> bool, x: A)
    requires
        s.filter(pred).contains(x),
    ensures
        s.contains(x),
    decreases s.len(),
{
    reveal(Seq::filter);
    if s.len() > 0 {
        if s.drop_last().filter(pred).contains(x) {
            lemma_filter_subset(s.drop_last(), pred, x);
            let k = choose|k: int| 0 <= k < s.drop_last().len() && s.drop_last()[k] == x;
            assert(s[k] == x);
        } else {
            assert(x == s.last());
            assert(s[s.len() - 1] == x);
        }
    }
}

/// Two records carrying the same digest yield at least two reported paths.
proof fn lemma_paths_with_hash_two(s: Seq<FileInfoV>, h: Seq<u8>, i: int, j: int)
    requires
        0 <= i < j < s.len(),
        s[i].hash == Some(h),
        s[j].hash == Some(h),
    ensures
        paths_with_hash(s, h).len() >= 2,
    decreases s.len(),
{
    if j == s.len() - 1 {
        let prev = s.drop_last();
        lemma_paths_with_hash_members(prev);
        assert(prev[i].hash == Some(h) && prev[i].path == s[i].path);
        assert(paths_with_hash(prev, h).contains(s[i].path));
        let w = choose|w: int|
            0 <= w < paths_with_hash(prev, h).len() && paths_with_hash(prev, h)[w] == s[i].path;
        assert(paths_with_hash(prev, h).len() >= 1);
        assert(paths_with_hash(s, h) == paths_with_hash(prev, h).push(s.last().path));
    } else {
        let prev = s.drop_last();
        assert(prev[i].hash == Some(h) && prev[j].hash == Some(h));
        lemma_paths_with_hash_two(prev, h, i, j);
        assert(paths_with_hash(s, h).len() >= paths_with_hash(prev, h).len());
    }
}

/// Law: two files with identical readable content always appear together in
/// one reported group, keyed by the digest of that shared content.
pub proof fn lemma_identical_content_grouped(
    files: Seq<FileInfoV>,
    contents: Seq<Option<Seq<u8>>>,
    i: int,
    j: int,
)
    requires
        files.len() == contents.len(),
        forall|k: int|
            0 <= k < files.len() && contents[k] is Some ==> files[k].size == contents[k]->0.len(),
        0 <= i < files.len(),
        0 <= j < files.len(),
        i != j,
        contents[i] is Some,
        contents[j] is Some,
        contents[i]->0 == contents[j]->0,
    ensures
        exists|g: int|
            #![auto]
            0 <= g < spec_detect(files, contents).len() && spec_detect(files, contents)[g].hash
                == digest_of(contents[i]->0) && spec_detect(files, contents)[g].paths.contains(
                files[i].path,
            ) && spec_detect(files, contents)[g].paths.contains(files[j].path),
{
    broadcast use vstd::seq_lib::group_filter_ensures;

    let s = with_hashes(files, contents);
    let h = digest_of(contents[i]->0);
    assert(files[i].size == files[j].size);
    assert(size_collides(files, i));
    assert(size_collides(files, j));
    assert(s[i].hash == Some(h));
    assert(s[j].hash == Some(h));
    lemma_hash_list_members(s);
    assert(hash_list(s).contains(h));
    let w = choose|w: int| 0 <= w < hash_list(s).len() && hash_list(s)[w] == h;
    assert(all_groups(s)[w] == DuplicateGroupV { hash: h, paths: paths_with_hash(s, h) });
    if i < j {
        lemma_paths_with_hash_two(s, h, i, j);
    } else {
        lemma_paths_with_hash_two(s, h, j, i);
    }
    let pred = |g: DuplicateGroupV| g.paths.len() >= 2;
    assert(pred(all_groups(s)[w]));
    assert(spec_detect(files, contents).contains(all_groups(s)[w]));
    let g = choose|g: int|
        0 <= g < spec_detect(files, contents).len() && spec_detect(files, contents)[g]
            == all_groups(s)[w];
    lemma_paths_with_hash_members(s);
    assert(paths_with_hash(s, h).contains(s[i].path));
    assert(paths_with_hash(s, h).contains(s[j].path));
    assert(s[i].path == files[i].path);
    assert(s[j].path == files[j].path);
}

/// Law: a reported group holds at least two paths, and holds exactly the
/// paths of the records whose digest equals the group's hash — a file whose
/// content digests differently is never included.
pub proof fn lemma_group_membership(
    files: Seq<FileInfoV>,
    contents: Seq<Option<Seq<u8>>>,
    g: int,
)
    requires
        files.len() == contents.len(),
        0 <= g < spec_detect(files, contents).len(),
    ensures
        spec_detect(files, contents)[g].paths.len() >= 2,
        forall|p: Seq<char>|
            #[trigger] spec_detect(files, contents)[g].paths.contains(p) <==> exists|k: int|
                0 <= k < files.len() && with_hashes(files, contents)[k].hash == Some(
                    spec_detect(files, contents)[g].hash,
                ) && with_hashes(files, contents)[k].path == p,
{
    broadcast use vstd::seq_lib::group_filter_ensures;

    let s = with_hashes(files, contents);
    let pred = |gr: DuplicateGroupV| gr.paths.len() >= 2;
    let out = spec_detect(files, contents);
    assert(out == all_groups(s).filter(pred));
    assert(pred(out[g]));
    lemma_filter_subset(all_groups(s), pred, out[g]);
    let w = choose|w: int| 0 <= w < all_groups(s).len() && all_groups(s)[w] == out[g];
    assert(out[g].paths == paths_with_hash(s, out[g].hash));
    lemma_paths_with_hash_members(s);
}

/// Law: when every file's size is unique, no file is hashed and no group is
/// reported.
pub proof fn lemma_distinct_sizes_empty(files: Seq<FileInfoV>, contents: Seq<Option<Seq<u8>>>)
    requires
        files.len() == contents.len(),
        forall|k: int| 0 <= k < files.len() ==> files[k].hash is None,
        forall|i: int, j: int| 0 <= i < j < files.len() ==> files[i].size != files[j].size,
    ensures
        with_hashes(files, contents) == files,
        spec_detect(files, contents).len() == 0,
{
    reveal(Seq::filter);
    let s = with_hashes(files, contents);
    assert forall|k: int| 0 <= k < files.len() implies s[k] == files[k] by {
        if size_collides(files, k) {
            let j = choose|j: int|
                0 <= j < files.len() && j != k && files[j].size == files[k].size;
            if j < k {
                assert(files[j].size != files[k].size);
            } else {
                assert(files[k].size != files[j].size);
            }
        }
    }
    assert(s =~= files);
    lemma_hash_list_members(files);
    if hash_list(files).len() > 0 {
        assert(hash_list(files).contains(hash_list(files)[0]));
    }
    assert(hash_list(files).len() == 0);
    assert(all_groups(files).len() == 0);
    assert(all_groups(files) =~= Seq::<DuplicateGroupV>::empty());
}

/// Law: what detection reports is a function of the records and file contents
/// alone, so two runs over the same unmodified file set report groups with
/// identical membership.
pub proof fn lemma_detect_deterministic(
    files1: Seq<FileInfoV>,
    contents1: Seq<Option<Seq<u8>>>,
    files2: Seq<FileInfoV>,
    contents2: Seq<Option<Seq<u8>>>,
)
    requires
        files1 == files2,
        contents1 == contents2,
    ensures
        spec_detect(files1, contents1) == spec_detect(files2, contents2),
{
}

/// Every record that `spec_collect` builds carries no digest.
pub proof fn lemma_collect_fresh(entries: Seq<FileEntryV>, filters: Seq<Seq<char>>)
    ensures
        forall|i: int|
            0 <= i < spec_collect(entries, filters).len() ==> spec_collect(entries, filters)[i].hash is None,
    decreases entries.len(),
{
    if entries.len() > 0 {
        lemma_collect_fresh(entries.drop_last(), filters);
    }
}

} // verus!
