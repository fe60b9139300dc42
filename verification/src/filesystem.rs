use vstd::prelude::*;
use vstd::string::*;

use crate::error::{answer_view, ErrorView, ProviderError};
use crate::keyed::{
    keyed_map, keys_distinct, keys_of, lemma_keyed_absent, lemma_keyed_dom, lemma_keyed_last,
    lemma_keyed_remove, lemma_keyed_update,
};
use crate::fuzz_data::{bool_draw, string_draw, FuzzData};
use crate::provider::{Fuzz, IOProvider};
use crate::text::strings_view;

verus! {

/// File system operation request; paths are path strings.
#[derive(Debug, Clone)]
pub enum FsRequest {
    Read { path: String },
    Write { path: String, content: String },
    Exists { path: String },
    Remove { path: String },
    ListDir { path: String },
}

/// A `FsRequest` with its text seen as character sequences.
pub enum FsRequestView {
    Read(Seq<char>),
    Write(Seq<char>, Seq<char>),
    Exists(Seq<char>),
    Remove(Seq<char>),
    ListDir(Seq<char>),
}

impl View for FsRequest {
    type V = FsRequestView;

    open spec fn view(&self) -> FsRequestView {
        match self {
            FsRequest::Read { path } => FsRequestView::Read(path@),
            FsRequest::Write { path, content } => FsRequestView::Write(path@, content@),
            FsRequest::Exists { path } => FsRequestView::Exists(path@),
            FsRequest::Remove { path } => FsRequestView::Remove(path@),
            FsRequest::ListDir { path } => FsRequestView::ListDir(path@),
        }
    }
}

/// File system operation result.
#[derive(Debug, Clone, PartialEq)]
pub enum FsResult {
    Content(String),
    Written,
    Exists(bool),
    Removed,
    Entries(Vec<String>),
}

/// A `FsResult` with its text seen as character sequences.
pub enum FsResultView {
    Content(Seq<char>),
    Written,
    Exists(bool),
    Removed,
    Entries(Seq<Seq<char>>),
}

impl View for FsResult {
    type V = FsResultView;

    open spec fn view(&self) -> FsResultView {
        match self {
            FsResult::Content(c) => FsResultView::Content(c@),
            FsResult::Written => FsResultView::Written,
            FsResult::Exists(b) => FsResultView::Exists(*b),
            FsResult::Removed => FsResultView::Removed,
            FsResult::Entries(v) => FsResultView::Entries(strings_view(v@)),
        }
    }
}

/// What `std::path::Path::starts_with` answers for `path` and `base`, both read as paths:
/// whether `base` is a prefix of `path` in whole path components.
pub uninterp spec fn path_starts_with(path: Seq<char>, base: Seq<char>) -> bool;

/// Calls `std::path::Path::starts_with` on the two paths; the contract claims only that the
/// answer is the named one for these two strings.
#[verifier::external_body]
fn starts_with_path(path: &str, base: &str) -> (inside: bool)
    ensures
        inside == path_starts_with(path@, base@),
{
    std::path::Path::new(path).starts_with(base)
}

/// The key under which a path is stored: the text of the `PathBuf` that
/// `std::path::Path::components` of the path collect into. Spellings of one path that differ
/// only in repeated or trailing separators or in `.` components share a key.
pub uninterp spec fn path_key(path: Seq<char>) -> Seq<char>;

/// Collects the components of `path` (`std::path::Path::components`) into a `PathBuf` and
/// returns its text; the contract claims only that this is the named key of the string.
#[verifier::external_body]
fn path_key_of(path: &str) -> (key: String)
    ensures
        key@ == path_key(path@),
{
    std::path::Path::new(path).components().collect::<std::path::PathBuf>().to_string_lossy().into_owned()
}

/// The predicate that holds of the paths under `base`.
pub open spec fn under(base: Seq<char>) -> spec_fn(Seq<char>) -> bool {
    |p: Seq<char>| path_starts_with(p, base)
}

/// The predicate that holds of the paths whose key is not `key`.
pub open spec fn other_key(key: Seq<char>) -> spec_fn(Seq<char>) -> bool {
    |p: Seq<char>| path_key(p) != key
}

/// The keys of a sequence of paths.
pub open spec fn path_keys(paths: Seq<Seq<char>>) -> Seq<Seq<char>> {
    paths.map_values(|p: Seq<char>| path_key(p))
}

/// One stored file: the path as first written, its key, and its content.
struct FileEntry {
    path: String,
    key: String,
    content: String,
}

/// In-memory mock file system.
///
/// Stores files by path. Supports read, write, exists, remove, and list operations.
pub struct MockFileSystem {
    files: Vec<FileEntry>,
}

/// The state of a `MockFileSystem`: the content stored under each path key, and the stored
/// paths, as first written, in the order in which they were first written.
pub struct FileSystemView {
    pub files: Map<Seq<char>, Seq<char>>,
    pub order: Seq<Seq<char>>,
}

/// The (key, content) pairs of a list of file entries.
spec fn file_pairs(entries: Seq<FileEntry>) -> Seq<(Seq<char>, Seq<char>)> {
    entries.map_values(|e: FileEntry| (e.key@, e.content@))
}

/// The paths of a list of file entries, as written.
spec fn spelled(entries: Seq<FileEntry>) -> Seq<Seq<char>> {
    entries.map_values(|e: FileEntry| e.path@)
}

/// Each entry's key is the key of its path.
spec fn keys_match(entries: Seq<FileEntry>) -> bool {
    forall|i: int| 0 <= i < entries.len() ==> #[trigger] entries[i].key@ == path_key(entries[i].path@)
}

impl View for MockFileSystem {
    type V = FileSystemView;

    closed spec fn view(&self) -> FileSystemView {
        fs_view(self.files@)
    }
}

/// The file system state that a list of entries stands for.
spec fn fs_view(entries: Seq<FileEntry>) -> FileSystemView {
    FileSystemView { files: keyed_map(file_pairs(entries)), order: spelled(entries) }
}

/// No two entries share a key, and each entry's key is its path's key.
spec fn wf_entries(entries: Seq<FileEntry>) -> bool {
    &&& keys_distinct(file_pairs(entries))
    &&& keys_match(entries)
}

/// A file system state is consistent: no two stored paths share a key, and the keys of the
/// stored paths are exactly the keys that hold content.
pub open spec fn consistent(s: FileSystemView) -> bool {
    &&& path_keys(s.order).no_duplicates()
    &&& path_keys(s.order).to_set() == s.files.dom()
}

/// What a `MockFileSystem` in state `s` does with request `req`.
pub open spec fn fs_step(s: FileSystemView, req: FsRequestView) -> (
    FileSystemView,
    Result<FsResultView, ErrorView>,
) {
    match req {
        FsRequestView::Read(p) => if s.files.contains_key(path_key(p)) {
            (s, Ok(FsResultView::Content(s.files[path_key(p)])))
        } else {
            (s, Err(ErrorView::FileNotFound(p)))
        },
        FsRequestView::Write(p, c) => (
            FileSystemView {
                files: s.files.insert(path_key(p), c),
                order: if s.files.contains_key(path_key(p)) {
                    s.order
                } else {
                    s.order.push(p)
                },
            },
            Ok(FsResultView::Written),
        ),
        FsRequestView::Exists(p) => (
            s,
            Ok(FsResultView::Exists(s.files.contains_key(path_key(p)))),
        ),
        FsRequestView::Remove(p) => (
            FileSystemView {
                files: s.files.remove(path_key(p)),
                order: s.order.filter(other_key(path_key(p))),
            },
            Ok(FsResultView::Removed),
        ),
        FsRequestView::ListDir(p) => (s, Ok(FsResultView::Entries(s.order.filter(under(p))))),
    }
}

/// Where each entry's key is its path's key, the entry keys are the keys of the paths.
proof fn lemma_keys_of_spelled(entries: Seq<FileEntry>)
    requires
        keys_match(entries),
    ensures
        keys_of(file_pairs(entries)) == path_keys(spelled(entries)),
{
    assert forall|i: int| 0 <= i < entries.len() implies keys_of(file_pairs(entries))[i]
        == path_keys(spelled(entries))[i] by {
        assert(entries[i].key@ == path_key(entries[i].path@));
    }
    assert(keys_of(file_pairs(entries)) =~= path_keys(spelled(entries)));
}

/// Where no entry holds `key`, filtering the paths of key `key` out keeps them all.
proof fn lemma_spelled_all_kept(entries: Seq<FileEntry>, key: Seq<char>)
    requires
        keys_match(entries),
        forall|j: int| 0 <= j < entries.len() ==> entries[j].key@ != key,
    ensures
        spelled(entries).filter(other_key(key)) == spelled(entries),
    decreases entries.len(),
{
    reveal(Seq::filter);
    if entries.len() > 0 {
        let init = entries.drop_last();
        assert(entries.last() == entries[entries.len() - 1]);
        lemma_spelled_all_kept(init, key);
        assert(spelled(entries).drop_last() =~= spelled(init));
        assert(spelled(entries) =~= spelled(init).push(entries.last().path@));
    } else {
        assert(spelled(entries) =~= Seq::<Seq<char>>::empty());
    }
}

/// Where keys are distinct, dropping the entry at `i` drops exactly the paths of its key.
proof fn lemma_spelled_remove(entries: Seq<FileEntry>, i: int)
    requires
        0 <= i < entries.len(),
        keys_match(entries),
        keys_distinct(file_pairs(entries)),
    ensures
        spelled(entries.remove(i)) == spelled(entries).filter(other_key(entries[i].key@)),
    decreases entries.len(),
{
    reveal(Seq::filter);
    let key = entries[i].key@;
    let init = entries.drop_last();
    assert(spelled(entries).drop_last() =~= spelled(init));
    assert forall|a: int, b: int| 0 <= a < b < init.len() implies file_pairs(init)[a].0
        != file_pairs(init)[b].0 by {
        assert(file_pairs(entries)[a].0 != file_pairs(entries)[b].0);
    }
    if i == entries.len() - 1 {
        assert(entries.remove(i) =~= init);
        assert forall|j: int| 0 <= j < init.len() implies init[j].key@ != key by {
            assert(file_pairs(entries)[j].0 != file_pairs(entries)[i].0);
        }
        lemma_spelled_all_kept(init, key);
        assert(entries.last() == entries[i]);
    } else {
        lemma_spelled_remove(init, i);
        assert(init[i] == entries[i]);
        let last = entries.len() - 1;
        assert(file_pairs(entries)[i].0 != file_pairs(entries)[last].0);
        assert(entries.last() == entries[last]);
        assert(path_key(entries.last().path@) != key);
        assert(spelled(entries.remove(i)) =~= spelled(init.remove(i)).push(entries.last().path@));
    }
}

/// The index of the entry with key `key`, if one is stored.
fn find_key(files: &Vec<FileEntry>, key: &String) -> (found: Option<usize>)
    requires
        wf_entries(files@),
    ensures
        match found {
            Some(i) => {
                &&& i < files@.len()
                &&& files@[i as int].key@ == key@
                &&& forall|j: int| i < j < files@.len() ==> files@[j].key@ != key@
            },
            None => forall|j: int| 0 <= j < files@.len() ==> files@[j].key@ != key@,
        },
{
    let mut i: usize = 0;
    while i < files.len()
        invariant
            wf_entries(files@),
            i <= files@.len(),
            forall|j: int| 0 <= j < i ==> files@[j].key@ != key@,
        decreases files@.len() - i,
    {
        if files[i].key == *key {
            assert forall|j: int| i < j < files@.len() implies files@[j].key@
                != key@ by {
                assert(file_pairs(files@)[i as int].0 != file_pairs(files@)[j].0);
            }
            return Some(i);
        }
        i = i + 1;
    }
    None
}

/// Stores `content` under the key of `path` in `files`.
fn write_entry(files: &mut Vec<FileEntry>, path: String, content: String)
    requires
        wf_entries(old(files)@),
    ensures
        wf_entries(final(files)@),
        fs_view(final(files)@) == fs_step(fs_view(old(files)@), FsRequestView::Write(path@, content@)).0,
{
    let ghost entries = files@;
    let ghost pairs = file_pairs(entries);
    let key = path_key_of(path.as_str());
    match find_key(files, &key) {
        Some(i) => {
            proof {
                lemma_keyed_last(pairs, i as int);
                lemma_keyed_update(pairs, i as int, content@);
            }
            let ghost k = key@;
            let ghost c = content@;
            let first_spelling = files[i].path.clone();
            files.set(i, FileEntry { path: first_spelling, key, content });
            proof {
                assert(file_pairs(files@) =~= pairs.update(i as int, (k, c)));
                assert(spelled(files@) =~= spelled(entries));
            }
        },
        None => {
            proof {
                lemma_keyed_absent(pairs, key@);
            }
            let ghost p = path@;
            let ghost k = key@;
            let ghost c = content@;
            files.push(FileEntry { path, key, content });
            proof {
                assert(file_pairs(files@) =~= pairs.push((k, c)));
                assert(file_pairs(files@).drop_last() =~= pairs);
                assert(spelled(files@) =~= spelled(entries).push(p));
            }
        },
    }
}

/// Drops the entry for `path`, where one is stored.
fn delete_entry(files: &mut Vec<FileEntry>, path: &str)
    requires
        wf_entries(old(files)@),
    ensures
        wf_entries(final(files)@),
        fs_view(final(files)@) == fs_step(fs_view(old(files)@), FsRequestView::Remove(path@)).0,
{
    let ghost entries = files@;
    let ghost pairs = file_pairs(entries);
    let key = path_key_of(path);
    match find_key(files, &key) {
        Some(i) => {
            proof {
                lemma_keyed_remove(pairs, i as int);
                lemma_spelled_remove(entries, i as int);
            }
            files.remove(i);
            proof {
                assert(file_pairs(files@) =~= pairs.remove(i as int));
                assert forall|a: int, b: int|
                    0 <= a < b < files@.len() implies file_pairs(files@)[a].0
                    != file_pairs(files@)[b].0 by {
                    assert(file_pairs(files@)[a] == pairs.remove(i as int)[a]);
                    assert(file_pairs(files@)[b] == pairs.remove(i as int)[b]);
                    if a < i {
                        if b < i {
                            assert(pairs[a].0 != pairs[b].0);
                        } else {
                            assert(pairs[a].0 != pairs[b + 1].0);
                        }
                    } else {
                        assert(pairs[a + 1].0 != pairs[b + 1].0);
                    }
                }
                assert forall|j: int| 0 <= j < files@.len() implies #[trigger] files@[j].key@
                    == path_key(files@[j].path@) by {
                    if j < i {
                        assert(files@[j] == entries[j]);
                    } else {
                        assert(files@[j] == entries[j + 1]);
                    }
                }
                assert(spelled(files@) =~= spelled(entries.remove(i as int)));
            }
        },
        None => {
            proof {
                lemma_keyed_absent(pairs, key@);
                assert(keyed_map(pairs).remove(key@) =~= keyed_map(pairs));
                lemma_spelled_all_kept(entries, key@);
            }
        },
    }
}

impl MockFileSystem {
    /// No two entries share a key, and each entry's key is its path's key.
    #[verifier::type_invariant]
    spec fn wf(&self) -> bool {
        wf_entries(self.files@)
    }

    /// The well-formedness of a file system makes its view consistent.
    proof fn lemma_wf_consistent(&self)
        requires
            self.wf(),
        ensures
            consistent(self@),
    {
        let pairs = file_pairs(self.files@);
        lemma_keyed_dom(pairs);
        lemma_keys_of_spelled(self.files@);
        assert forall|i: int, j: int|
            0 <= i < keys_of(pairs).len() && 0 <= j < keys_of(pairs).len() && i != j implies
            keys_of(pairs)[i] != keys_of(pairs)[j] by {
            if i < j {
                assert(pairs[i].0 != pairs[j].0);
            } else {
                assert(pairs[j].0 != pairs[i].0);
            }
        }
    }

    /// An empty file system.
    pub fn new() -> (fs: Self)
        ensures
            consistent(fs@),
            fs@.files == Map::<Seq<char>, Seq<char>>::empty(),
            fs@.order == Seq::<Seq<char>>::empty(),
    {
        let fs = MockFileSystem { files: Vec::new() };
        assert(file_pairs(fs.files@) =~= Seq::empty());
        assert(spelled(fs.files@) =~= Seq::empty());
        assert(path_keys(fs@.order) =~= Seq::empty());
        assert(path_keys(fs@.order).to_set() =~= fs@.files.dom());
        fs
    }

    /// Stores `content` at `path`, replacing what was there.
    pub fn insert(&mut self, path: &str, content: &str)
        ensures
            consistent(final(self)@),
            final(self)@ == fs_step(old(self)@, FsRequestView::Write(path@, content@)).0,
    {
        proof {
            use_type_invariant(&*self);
        }
        self.write(String::from_str(path), String::from_str(content));
        proof {
            use_type_invariant(&*self);
            self.lemma_wf_consistent();
        }
    }

    fn write(&mut self, path: String, content: String)
        ensures
            final(self)@ == fs_step(old(self)@, FsRequestView::Write(path@, content@)).0,
    {
        proof {
            use_type_invariant(&*self);
        }
        let mut files: Vec<FileEntry> = Vec::new();
        std::mem::swap(&mut files, &mut self.files);
        write_entry(&mut files, path, content);
        self.files = files;
    }

    /// The content stored at `path`, if any.
    pub fn get(&self, path: &str) -> (content: Option<String>)
        ensures
            match content {
                Some(c) => self@.files.contains_key(path_key(path@)) && c@ == self@.files[path_key(
                    path@,
                )],
                None => !self@.files.contains_key(path_key(path@)),
            },
    {
        proof {
            use_type_invariant(self);
        }
        let ghost pairs = file_pairs(self.files@);
        let key = path_key_of(path);
        match find_key(&self.files, &key) {
            Some(i) => {
                proof {
                    lemma_keyed_last(pairs, i as int);
                }
                Some(self.files[i].content.clone())
            },
            None => {
                proof {
                    lemma_keyed_absent(pairs, key@);
                }
                None
            },
        }
    }

    /// Drops the file at `path`, where one is stored.
    fn delete(&mut self, path: &str)
        ensures
            final(self)@ == fs_step(old(self)@, FsRequestView::Remove(path@)).0,
    {
        proof {
            use_type_invariant(&*self);
        }
        let mut files: Vec<FileEntry> = Vec::new();
        std::mem::swap(&mut files, &mut self.files);
        delete_entry(&mut files, path);
        self.files = files;
    }

    /// The stored paths under `base`, in storage order.
    fn list(&self, base: &str) -> (entries: Vec<String>)
        ensures
            strings_view(entries@) == self@.order.filter(under(base@)),
    {
        let ghost paths = self@.order;
        let mut entries: Vec<String> = Vec::new();
        let mut i: usize = 0;
        while i < self.files.len()
            invariant
                i <= self.files@.len(),
                paths == spelled(self.files@),
                strings_view(entries@) == paths.take(i as int).filter(under(base@)),
            decreases self.files@.len() - i,
        {
            let ghost before = entries@;
            assert(paths.take(i + 1) =~= paths.take(i as int).push(paths[i as int]));
            proof {
                paths.take(i as int).lemma_filter_push(paths[i as int], under(base@));
            }
            if starts_with_path(self.files[i].path.as_str(), base) {
                entries.push(self.files[i].path.clone());
                assert(strings_view(entries@) =~= strings_view(before).push(paths[i as int]));
            }
            i = i + 1;
        }
        assert(paths.take(self.files@.len() as int) =~= paths);
        entries
    }
}

impl Default for MockFileSystem {
    fn default() -> (fs: Self)
        ensures
            consistent(fs@),
            fs@.files == Map::<Seq<char>, Seq<char>>::empty(),
            fs@.order == Seq::<Seq<char>>::empty(),
    {
        MockFileSystem::new()
    }
}

impl IOProvider<FsRequest, FsResult> for MockFileSystem {
    open spec fn accepts(&self, input: FsRequest) -> bool {
        true
    }

    /// Carries out the operation on the stored files.
    fn invoke(&mut self, input: FsRequest) -> (answer: Result<FsResult, ProviderError>)
        ensures
            consistent(final(self)@),
            (final(self)@, answer_view(answer)) == fs_step(old(self)@, input@),
    {
        proof {
            use_type_invariant(&*self);
            self.lemma_wf_consistent();
            law_steps_keep_consistency(self@, input@);
        }
        match input {
            FsRequest::Read { path } => match self.get(path.as_str()) {
                Some(content) => Ok(FsResult::Content(content)),
                None => Err(ProviderError::FileNotFound { path }),
            },
            FsRequest::Write { path, content } => {
                self.write(path, content);
                Ok(FsResult::Written)
            },
            FsRequest::Exists { path } => {
                let found = self.get(path.as_str());
                Ok(FsResult::Exists(found.is_some()))
            },
            FsRequest::Remove { path } => {
                self.delete(path.as_str());
                Ok(FsResult::Removed)
            },
            FsRequest::ListDir { path } => Ok(FsResult::Entries(self.list(path.as_str()))),
        }
    }
}

/// A key is among the keys of some paths exactly when one of the paths has it.
proof fn lemma_path_keys_contains(paths: Seq<Seq<char>>, key: Seq<char>)
    ensures
        path_keys(paths).contains(key) <==> exists|q: Seq<char>|
            paths.contains(q) && #[trigger] path_key(q) == key,
{
    if path_keys(paths).contains(key) {
        let i = choose|i: int| 0 <= i < path_keys(paths).len() && path_keys(paths)[i] == key;
        assert(paths.contains(paths[i]) && path_key(paths[i]) == key);
    }
    if exists|q: Seq<char>| paths.contains(q) && #[trigger] path_key(q) == key {
        let q = choose|q: Seq<char>| paths.contains(q) && #[trigger] path_key(q) == key;
        let i = choose|i: int| 0 <= i < paths.len() && paths[i] == q;
        assert(path_keys(paths)[i] == key);
    }
}

/// Filtering paths whose keys are distinct leaves paths whose keys are distinct.
proof fn lemma_filter_keeps_keys_distinct(paths: Seq<Seq<char>>, f: spec_fn(Seq<char>) -> bool)
    requires
        path_keys(paths).no_duplicates(),
    ensures
        path_keys(paths.filter(f)).no_duplicates(),
    decreases paths.len(),
{
    reveal(Seq::filter);
    if paths.len() > 0 {
        let init = paths.drop_last();
        let last = paths.last();
        assert(path_keys(init) =~= path_keys(paths).drop_last());
        lemma_filter_keeps_keys_distinct(init, f);
        if f(last) {
            let kept = init.filter(f);
            assert(path_keys(paths.filter(f)) =~= path_keys(kept).push(path_key(last)));
            if path_keys(kept).contains(path_key(last)) {
                lemma_path_keys_contains(kept, path_key(last));
                let q = choose|q: Seq<char>| kept.contains(q) && #[trigger] path_key(q) == path_key(
                    last,
                );
                init.lemma_filter_contains_rev(f, q);
                let j = choose|j: int| 0 <= j < init.len() && init[j] == q;
                assert(path_keys(paths)[j] == path_keys(paths)[paths.len() - 1]);
            }
            let out = path_keys(paths.filter(f));
            assert forall|a: int, b: int|
                0 <= a < out.len() && 0 <= b < out.len() && a != b implies out[a] != out[b] by {
                if a == out.len() - 1 && b < out.len() - 1 {
                    assert(path_keys(kept).contains(out[b]));
                } else if b == out.len() - 1 && a < out.len() - 1 {
                    assert(path_keys(kept).contains(out[a]));
                } else {
                    assert(out[a] == path_keys(kept)[a] && out[b] == path_keys(kept)[b]);
                }
            }
        }
    }
}

/// The longest content a fuzzed read of a missing file gives, in characters.
pub const FUZZ_CONTENT_MAX: usize = 200;

/// What `MockFileSystem::fuzz` answers in state `s` for `req` with the random bytes `data`,
/// and the bytes left. Stored files are read, listed and found as they are; a read of a
/// missing file gives drawn content, an existence check of one a drawn answer; writes and
/// removals are answered as done without touching the files.
pub open spec fn fs_fuzz(s: FileSystemView, req: FsRequestView, data: Seq<u8>) -> (
    FsResultView,
    Seq<u8>,
) {
    match req {
        FsRequestView::Read(p) => if s.files.contains_key(path_key(p)) {
            (FsResultView::Content(s.files[path_key(p)]), data)
        } else {
            (
                FsResultView::Content(string_draw(data, FUZZ_CONTENT_MAX as nat).0),
                string_draw(data, FUZZ_CONTENT_MAX as nat).1,
            )
        },
        FsRequestView::Write(_, _) => (FsResultView::Written, data),
        FsRequestView::Exists(p) => if s.files.contains_key(path_key(p)) {
            (FsResultView::Exists(true), data)
        } else {
            (FsResultView::Exists(bool_draw(data).0), bool_draw(data).1)
        },
        FsRequestView::Remove(_) => (FsResultView::Removed, data),
        FsRequestView::ListDir(p) => (FsResultView::Entries(s.order.filter(under(p))), data),
    }
}

impl Fuzz<FsRequest, FsResult> for MockFileSystem {
    open spec fn fuzz_outcome(
        &self,
        input: FsRequest,
        data: Seq<u8>,
        output: FsResult,
        after: Self,
        data_after: Seq<u8>,
    ) -> bool {
        &&& after@ == self@
        &&& (output@, data_after) == fs_fuzz(self@, input@, data)
    }

    /// Generates a plausible result for the request without changing the stored files.
    fn fuzz(&mut self, input: &FsRequest, data: &mut FuzzData) -> (result: FsResult)
        ensures
            final(self)@ == old(self)@,
            (result@, final(data).rest()) == fs_fuzz(old(self)@, input@, old(data).rest()),
    {
        match input {
            FsRequest::Read { path } => match self.get(path.as_str()) {
                Some(content) => FsResult::Content(content),
                None => FsResult::Content(data.gen_string(FUZZ_CONTENT_MAX)),
            },
            FsRequest::Write { .. } => FsResult::Written,
            FsRequest::Exists { path } => match self.get(path.as_str()) {
                Some(_) => FsResult::Exists(true),
                None => FsResult::Exists(data.gen_bool()),
            },
            FsRequest::Remove { .. } => FsResult::Removed,
            FsRequest::ListDir { path } => FsResult::Entries(self.list(path.as_str())),
        }
    }
}

/// A path is in a filtered sequence exactly when it is in the sequence and passes the filter.
proof fn lemma_filter_membership(s: Seq<Seq<char>>, f: spec_fn(Seq<char>) -> bool, x: Seq<char>)
    ensures
        s.filter(f).contains(x) <==> (s.contains(x) && f(x)),
{
    if s.filter(f).contains(x) {
        s.lemma_filter_contains_rev(f, x);
        let i = choose|i: int| 0 <= i < s.filter(f).len() && s.filter(f)[i] == x;
        s.lemma_filter_pred(f, i);
    }
    if s.contains(x) && f(x) {
        let i = choose|i: int| 0 <= i < s.len() && s[i] == x;
        s.lemma_filter_contains(f, i);
    }
}

/// A read after a write of `content` gives back `content`, under any spelling of the path.
pub proof fn law_read_after_write(
    s: FileSystemView,
    path: Seq<char>,
    content: Seq<char>,
    again: Seq<char>,
)
    requires
        path_key(again) == path_key(path),
    ensures
        fs_step(fs_step(s, FsRequestView::Write(path, content)).0, FsRequestView::Read(again)).1
            == Ok::<FsResultView, ErrorView>(FsResultView::Content(content)),
{
}

/// A write at one path changes neither what another path reads nor whether it exists.
pub proof fn law_write_leaves_other_paths(
    s: FileSystemView,
    path: Seq<char>,
    content: Seq<char>,
    other: Seq<char>,
)
    requires
        path_key(other) != path_key(path),
    ensures
        fs_step(fs_step(s, FsRequestView::Write(path, content)).0, FsRequestView::Read(other)).1
            == fs_step(s, FsRequestView::Read(other)).1,
        fs_step(fs_step(s, FsRequestView::Write(path, content)).0, FsRequestView::Exists(other)).1
            == fs_step(s, FsRequestView::Exists(other)).1,
{
}

/// After a write the path exists; after a removal it neither exists nor can be read.
pub proof fn law_write_then_remove(s: FileSystemView, path: Seq<char>, content: Seq<char>)
    ensures
        fs_step(fs_step(s, FsRequestView::Write(path, content)).0, FsRequestView::Exists(path)).1
            == Ok::<FsResultView, ErrorView>(FsResultView::Exists(true)),
        fs_step(fs_step(s, FsRequestView::Remove(path)).0, FsRequestView::Exists(path)).1
            == Ok::<FsResultView, ErrorView>(FsResultView::Exists(false)),
        fs_step(fs_step(s, FsRequestView::Remove(path)).0, FsRequestView::Read(path)).1
            == Err::<FsResultView, ErrorView>(ErrorView::FileNotFound(path)),
{
}

/// Reads, existence checks and listings leave the file system as it was.
pub proof fn law_queries_change_nothing(s: FileSystemView, path: Seq<char>)
    ensures
        fs_step(s, FsRequestView::Read(path)).0 == s,
        fs_step(s, FsRequestView::Exists(path)).0 == s,
        fs_step(s, FsRequestView::ListDir(path)).0 == s,
{
}

/// Every operation keeps a consistent file system consistent.
pub proof fn law_steps_keep_consistency(s: FileSystemView, req: FsRequestView)
    requires
        consistent(s),
    ensures
        consistent(fs_step(s, req).0),
{
    let next = fs_step(s, req).0;
    match req {
        FsRequestView::Write(p, c) => {
            let k = path_key(p);
            if !s.files.contains_key(k) {
                assert(!path_keys(s.order).contains(k));
                assert(path_keys(next.order) =~= path_keys(s.order).push(k));
                path_keys(s.order).lemma_push_to_set_commute(k);
                assert(path_keys(next.order).to_set() =~= next.files.dom());
                let ks = path_keys(next.order);
                assert forall|i: int, j: int|
                    0 <= i < ks.len() && 0 <= j < ks.len() && i != j implies ks[i] != ks[j] by {
                    if i == s.order.len() {
                        assert(path_keys(s.order).contains(ks[j]));
                    } else if j == s.order.len() {
                        assert(path_keys(s.order).contains(ks[i]));
                    } else {
                        assert(ks[i] == path_keys(s.order)[i] && ks[j] == path_keys(s.order)[j]);
                    }
                }
            } else {
                assert(next.files.dom() =~= s.files.dom());
            }
        },
        FsRequestView::Remove(p) => {
            let k = path_key(p);
            lemma_filter_keeps_keys_distinct(s.order, other_key(k));
            assert forall|x: Seq<char>|
                path_keys(next.order).to_set().contains(x) <==> next.files.dom().contains(x) by {
                lemma_path_keys_contains(next.order, x);
                lemma_path_keys_contains(s.order, x);
                if path_keys(next.order).contains(x) {
                    let q = choose|q: Seq<char>| next.order.contains(q) && #[trigger] path_key(q)
                        == x;
                    lemma_filter_membership(s.order, other_key(k), q);
                }
                if next.files.dom().contains(x) {
                    let q = choose|q: Seq<char>| s.order.contains(q) && #[trigger] path_key(q) == x;
                    lemma_filter_membership(s.order, other_key(k), q);
                }
            }
            assert(path_keys(next.order).to_set() =~= next.files.dom());
        },
        _ => {},
    }
}

/// A listing of a consistent file system names the stored paths under `base`, each once and
/// with no two sharing a key, and nothing else.
pub proof fn law_listing_is_exact(s: FileSystemView, base: Seq<char>, q: Seq<char>)
    requires
        consistent(s),
    ensures
        fs_step(s, FsRequestView::ListDir(base)).1 matches Ok(FsResultView::Entries(entries)) && {
            &&& path_keys(entries).no_duplicates()
            &&& entries.contains(q) <==> (s.order.contains(q) && path_starts_with(q, base))
        },
{
    lemma_filter_keeps_keys_distinct(s.order, under(base));
    lemma_filter_membership(s.order, under(base), q);
}

/// A removal at one path changes neither what a path of another key reads nor whether it
/// exists, and the files are the old ones less that key.
pub proof fn law_remove_leaves_other_paths(s: FileSystemView, path: Seq<char>, other: Seq<char>)
    requires
        path_key(other) != path_key(path),
    ensures
        fs_step(fs_step(s, FsRequestView::Remove(path)).0, FsRequestView::Read(other)).1
            == fs_step(s, FsRequestView::Read(other)).1,
        fs_step(fs_step(s, FsRequestView::Remove(path)).0, FsRequestView::Exists(other)).1
            == fs_step(s, FsRequestView::Exists(other)).1,
        fs_step(s, FsRequestView::Remove(path)).0.files == s.files.remove(path_key(path)),
{
}

/// A fuzzed listing is the real listing: exactly the stored paths under `base`, whatever
/// bytes are at hand, and none drawn.
pub proof fn law_fuzzed_listing_is_real(
    s: FileSystemView,
    base: Seq<char>,
    data: Seq<u8>,
    q: Seq<char>,
)
    requires
        consistent(s),
    ensures
        fs_fuzz(s, FsRequestView::ListDir(base), data).0 == fs_step(
            s,
            FsRequestView::ListDir(base),
        ).1->Ok_0,
        fs_fuzz(s, FsRequestView::ListDir(base), data).1 == data,
        fs_fuzz(s, FsRequestView::ListDir(base), data).0 matches FsResultView::Entries(entries)
            && (entries.contains(q) <==> (s.order.contains(q) && path_starts_with(q, base))),
{
    law_listing_is_exact(s, base, q);
}

/// Fuzzing answers from the store where the store has the answer: a stored file reads as
/// what is stored and exists, as a real request would find, and no byte is drawn for it.
pub proof fn law_fuzz_answers_stored_files(s: FileSystemView, path: Seq<char>, data: Seq<u8>)
    requires
        s.files.contains_key(path_key(path)),
    ensures
        fs_fuzz(s, FsRequestView::Read(path), data) == (
            fs_step(s, FsRequestView::Read(path)).1->Ok_0,
            data,
        ),
        fs_fuzz(s, FsRequestView::Exists(path), data) == (
            fs_step(s, FsRequestView::Exists(path)).1->Ok_0,
            data,
        ),
        fs_step(s, FsRequestView::Read(path)).1 == Ok::<FsResultView, ErrorView>(
            FsResultView::Content(s.files[path_key(path)]),
        ),
{
}

/// Whatever it is asked, fuzzing answers with the kind of result the request calls for:
/// content for a read, `Written` for a write, an answer for an existence check, `Removed`
/// for a removal, entries for a listing.
pub proof fn law_fuzz_answers_in_kind(s: FileSystemView, req: FsRequestView, data: Seq<u8>)
    ensures
        match req {
            FsRequestView::Read(_) => fs_fuzz(s, req, data).0 is Content,
            FsRequestView::Write(_, _) => fs_fuzz(s, req, data).0 is Written && fs_fuzz(
                s,
                req,
                data,
            ).1 == data,
            FsRequestView::Exists(_) => fs_fuzz(s, req, data).0 is Exists,
            FsRequestView::Remove(_) => fs_fuzz(s, req, data).0 is Removed && fs_fuzz(
                s,
                req,
                data,
            ).1 == data,
            FsRequestView::ListDir(_) => fs_fuzz(s, req, data).0 is Entries,
        },
{
}

} // verus!
