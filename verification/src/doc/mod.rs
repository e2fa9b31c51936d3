//! The vault's document: every file and directory, keyed by a stable id,
//! with its current path and timestamps; a deleted entry keeps its id and
//! gains `deleted_at`.
//!
//! The replicated document itself is an Automerge map; the operations here
//! work on its contents as plain values, and the caller writes the entries
//! that changed back into the replicated document.

pub mod directories;
pub mod files;
pub mod history;
pub mod replica;

use crate::codec::{hex_encode, hex_lower, sha256, sha256_digest};
use crate::error::Error;
use crate::path::ancestors;
use crate::path::ancestors_spec;
use crate::text::{chars_of, eq_lit};
use vstd::prelude::*;
use vstd::string::StringSliceAdditionalSpecFns;
use vstd::utf8::encode_utf8;

verus! {

pub const SCHEMA_VERSION: i64 = 1;

pub type FileId = String;

pub type DirId = String;

#[derive(Clone, Copy, Debug, PartialEq, Eq, Structural)]
pub enum FileKind {
    Text,
    Attachment,
}

impl FileKind {
    /// `text` or `attachment`.
    pub fn as_str(&self) -> (r: &'static str)
        ensures
            r@ == kind_name(*self),
    {
        match self {
            FileKind::Text => "text",
            FileKind::Attachment => "attachment",
        }
    }

    /// The kind named `s`; any other name is refused.
    pub fn parse(s: &str) -> (r: Result<FileKind, Error>)
        ensures
            s@ == "text"@ ==> r == Ok::<FileKind, Error>(FileKind::Text),
            s@ == "attachment"@ ==> r == Ok::<FileKind, Error>(FileKind::Attachment),
            s@ != "text"@ && s@ != "attachment"@ ==> r matches Err(Error::Other(_)),
    {
        let c = chars_of(s);
        proof {
            lemma_kind_name_round_trip(FileKind::Text);
        }
        if eq_lit(&c, "text") {
            Ok(FileKind::Text)
        } else if eq_lit(&c, "attachment") {
            Ok(FileKind::Attachment)
        } else {
            Err(Error::Other(String::from_str("unknown file kind")))
        }
    }
}

/// The name a kind is stored under.
pub open spec fn kind_name(k: FileKind) -> Seq<char> {
    match k {
        FileKind::Text => "text"@,
        FileKind::Attachment => "attachment"@,
    }
}

/// A kind's name parses back to the kind.
pub proof fn lemma_kind_name_round_trip(k: FileKind)
    ensures
        (kind_name(k) == "text"@) == (k == FileKind::Text),
        (kind_name(k) == "attachment"@) == (k == FileKind::Attachment),
{
    reveal_strlit("text");
    reveal_strlit("attachment");
    assert("text"@ != "attachment"@) by {
        assert("text"@.len() != "attachment"@.len());
    }
}

#[derive(Clone, Debug)]
pub struct FileMeta {
    pub id: FileId,
    pub path: String,
    pub kind: FileKind,
    pub size: i64,
    pub created_at: i64,
    pub updated_at: i64,
    pub deleted_at: Option<i64>,
    pub binary_hash: Option<String>,
}

#[derive(Clone, Debug)]
pub struct DirectoryMeta {
    pub id: DirId,
    pub path: String,
    pub created_at: i64,
    pub deleted_at: Option<i64>,
}

/// A file entry: its metadata and, for a text file, its content.
#[derive(Clone, Debug)]
pub struct FileEntry {
    pub meta: FileMeta,
    pub content: Option<String>,
}

/// The files and directories of a vault, in the order the document lists
/// their ids.
pub struct DocTree {
    pub files: Vec<FileEntry>,
    pub dirs: Vec<DirectoryMeta>,
}

/// A live file at `p`.
pub open spec fn file_named(f: FileEntry, p: Seq<char>) -> bool {
    f.meta.deleted_at is None && f.meta.path@ == p
}

/// A live directory at `p`.
pub open spec fn dir_named(d: DirectoryMeta, p: Seq<char>) -> bool {
    d.deleted_at is None && d.path@ == p
}

/// Index of the first live file at `p`, or -1.
pub open spec fn first_file(files: Seq<FileEntry>, p: Seq<char>) -> int
    decreases files.len(),
{
    if files.len() == 0 {
        -1
    } else if first_file(files.drop_last(), p) >= 0 {
        first_file(files.drop_last(), p)
    } else if file_named(files.last(), p) {
        files.len() - 1
    } else {
        -1
    }
}

/// Index of the first live directory at `p`, or -1.
pub open spec fn first_dir(dirs: Seq<DirectoryMeta>, p: Seq<char>) -> int
    decreases dirs.len(),
{
    if dirs.len() == 0 {
        -1
    } else if first_dir(dirs.drop_last(), p) >= 0 {
        first_dir(dirs.drop_last(), p)
    } else if dir_named(dirs.last(), p) {
        dirs.len() - 1
    } else {
        -1
    }
}

pub proof fn lemma_first_file(files: Seq<FileEntry>, p: Seq<char>)
    ensures
        -1 <= first_file(files, p) < files.len(),
        first_file(files, p) >= 0 ==> file_named(files[first_file(files, p)], p),
        forall|k: int|
            0 <= k < files.len() && (first_file(files, p) < 0 || k < first_file(files, p))
                ==> !file_named(#[trigger] files[k], p),
    decreases files.len(),
{
    if files.len() > 0 {
        lemma_first_file(files.drop_last(), p);
        assert forall|k: int|
            0 <= k < files.len() && (first_file(files, p) < 0 || k < first_file(files, p))
                implies !file_named(#[trigger] files[k], p) by {
            if k < files.len() - 1 {
                assert(files.drop_last()[k] == files[k]);
            }
        }
    }
}

pub proof fn lemma_first_dir(dirs: Seq<DirectoryMeta>, p: Seq<char>)
    ensures
        -1 <= first_dir(dirs, p) < dirs.len(),
        first_dir(dirs, p) >= 0 ==> dir_named(dirs[first_dir(dirs, p)], p),
        forall|k: int|
            0 <= k < dirs.len() && (first_dir(dirs, p) < 0 || k < first_dir(dirs, p))
                ==> !dir_named(#[trigger] dirs[k], p),
    decreases dirs.len(),
{
    if dirs.len() > 0 {
        lemma_first_dir(dirs.drop_last(), p);
        assert forall|k: int|
            0 <= k < dirs.len() && (first_dir(dirs, p) < 0 || k < first_dir(dirs, p))
                implies !dir_named(#[trigger] dirs[k], p) by {
            if k < dirs.len() - 1 {
                assert(dirs.drop_last()[k] == dirs[k]);
            }
        }
    }
}

/// A first index is pinned by being a match with no match before it.
pub proof fn lemma_first_dir_is(dirs: Seq<DirectoryMeta>, p: Seq<char>, i: int)
    requires
        0 <= i < dirs.len(),
        dir_named(dirs[i], p),
        forall|k: int| 0 <= k < i ==> !dir_named(#[trigger] dirs[k], p),
    ensures
        first_dir(dirs, p) == i,
{
    lemma_first_dir(dirs, p);
}

pub proof fn lemma_first_file_is(files: Seq<FileEntry>, p: Seq<char>, i: int)
    requires
        0 <= i < files.len(),
        file_named(files[i], p),
        forall|k: int| 0 <= k < i ==> !file_named(#[trigger] files[k], p),
    ensures
        first_file(files, p) == i,
{
    lemma_first_file(files, p);
}

/// Whether some live directory is at `p`.
pub open spec fn has_dir(dirs: Seq<DirectoryMeta>, p: Seq<char>) -> bool {
    exists|k: int| 0 <= k < dirs.len() && dir_named(#[trigger] dirs[k], p)
}

/// The ancestors of a path that have no live directory, in order, each
/// once: the directories `ensure_ancestor_directories` adds.
pub open spec fn missing_dirs(dirs: Seq<DirectoryMeta>, ancs: Seq<Seq<char>>) -> Seq<Seq<char>>
    decreases ancs.len(),
{
    if ancs.len() == 0 {
        Seq::empty()
    } else {
        let m = missing_dirs(dirs, ancs.drop_last());
        if has_dir(dirs, ancs.last()) || m.contains(ancs.last()) {
            m
        } else {
            m.push(ancs.last())
        }
    }
}

/// `dirs2` is `dirs` with live directories at `paths` added after it,
/// created at `now`.
pub open spec fn dirs_added(dirs: Seq<DirectoryMeta>, dirs2: Seq<DirectoryMeta>, paths: Seq<Seq<char>>, now: i64) -> bool {
    &&& dirs2.len() == dirs.len() + paths.len()
    &&& dirs2.take(dirs.len() as int) == dirs
    &&& forall|j: int|
        0 <= j < paths.len() ==> {
            let d = #[trigger] dirs2[dirs.len() + j];
            d.path@ == paths[j] && d.deleted_at is None && d.created_at == now
        }
}

/// The SHA-256 digest of `bytes` in lowercase hex.
pub fn content_hash(bytes: &[u8]) -> (r: String)
    ensures
        r@ == hex_lower(sha256(bytes@)),
{
    let d = sha256_digest(bytes);
    hex_encode(d.as_slice())
}

/// `agentsync-genesis-actor-v1`
pub open spec fn genesis_prefix() -> Seq<u8> {
    seq![
        0x61u8, 0x67u8, 0x65u8, 0x6eu8, 0x74u8, 0x73u8, 0x79u8, 0x6eu8, 0x63u8, 0x2du8, 0x67u8,
        0x65u8, 0x6eu8, 0x65u8, 0x73u8, 0x69u8, 0x73u8, 0x2du8, 0x61u8, 0x63u8, 0x74u8, 0x6fu8,
        0x72u8, 0x2du8, 0x76u8, 0x31u8,
    ]
}

/// The actor id every peer uses for the schema-setup change of the vault
/// `vault_id`, so that peers which set the vault up apart make the same
/// change: SHA-256 of `agentsync-genesis-actor-v1` followed by the id.
pub fn genesis_actor(vault_id: &str) -> (r: Vec<u8>)
    ensures
        r@ == sha256(genesis_prefix() + encode_utf8(vault_id@)),
{
    let mut msg: Vec<u8> = vec![
        0x61u8, 0x67u8, 0x65u8, 0x6eu8, 0x74u8, 0x73u8, 0x79u8, 0x6eu8, 0x63u8, 0x2du8, 0x67u8,
        0x65u8, 0x6eu8, 0x65u8, 0x73u8, 0x69u8, 0x73u8, 0x2du8, 0x61u8, 0x63u8, 0x74u8, 0x6fu8,
        0x72u8, 0x2du8, 0x76u8, 0x31u8,
    ];
    assert(msg@ =~= genesis_prefix());
    let b = vault_id.as_bytes();
    let ghost m0 = msg@;
    let mut i: usize = 0;
    while i < b.len()
        invariant
            i <= b@.len(),
            msg@ == m0 + b@.subrange(0, i as int),
        decreases b@.len() - i,
    {
        msg.push(b[i]);
        i = i + 1;
        assert(msg@ =~= m0 + b@.subrange(0, i as int));
    }
    assert(b@.subrange(0, b@.len() as int) =~= b@);
    sha256_digest(msg.as_slice())
}

/// `uuid::Uuid::new_v4()` as text: a fresh random id. Nothing is promised
/// of its value.
#[verifier::external_body]
pub(crate) fn new_id() -> (r: String) {
    uuid::Uuid::new_v4().to_string()
}

fn dup_opt_string(o: &Option<String>) -> (r: Option<String>)
    ensures
        r == *o,
{
    match o {
        Some(s) => Some(s.clone()),
        None => None,
    }
}

impl FileMeta {
    /// A copy of this metadata.
    pub fn duplicate(&self) -> (r: FileMeta)
        ensures
            r == *self,
    {
        FileMeta {
            id: self.id.clone(),
            path: self.path.clone(),
            kind: self.kind,
            size: self.size,
            created_at: self.created_at,
            updated_at: self.updated_at,
            deleted_at: self.deleted_at,
            binary_hash: dup_opt_string(&self.binary_hash),
        }
    }
}

impl DirectoryMeta {
    /// A copy of this metadata.
    pub fn duplicate(&self) -> (r: DirectoryMeta)
        ensures
            r == *self,
    {
        DirectoryMeta {
            id: self.id.clone(),
            path: self.path.clone(),
            created_at: self.created_at,
            deleted_at: self.deleted_at,
        }
    }
}

impl FileEntry {
    /// A copy of this entry.
    pub fn duplicate(&self) -> (r: FileEntry)
        ensures
            r == *self,
    {
        FileEntry { meta: self.meta.duplicate(), content: dup_opt_string(&self.content) }
    }
}

impl DocTree {
    /// An empty vault.
    pub fn new() -> (r: DocTree)
        ensures
            r.files@.len() == 0,
            r.dirs@.len() == 0,
    {
        DocTree { files: Vec::new(), dirs: Vec::new() }
    }

    /// The first live file at the normalized path `path`.
    pub fn find_file_by_path_normalized(&self, path: &str) -> (r: Option<usize>)
        ensures
            match r {
                Some(i) => i == first_file(self.files@, path@),
                None => first_file(self.files@, path@) == -1,
            },
    {
        proof {
            lemma_first_file(self.files@, path@);
        }
        let mut i: usize = 0;
        while i < self.files.len()
            invariant
                i <= self.files@.len(),
                forall|k: int| 0 <= k < i ==> !file_named(#[trigger] self.files@[k], path@),
            decreases self.files@.len() - i,
        {
            if self.files[i].meta.deleted_at.is_none() && self.files[i].meta.path == String::from_str(path) {
                proof {
                    lemma_first_file_is(self.files@, path@, i as int);
                }
                return Some(i);
            }
            i = i + 1;
        }
        None
    }

    /// The first live directory at the normalized path `path`.
    pub fn find_directory_by_path_normalized(&self, path: &str) -> (r: Option<usize>)
        ensures
            match r {
                Some(i) => i == first_dir(self.dirs@, path@),
                None => first_dir(self.dirs@, path@) == -1,
            },
    {
        proof {
            lemma_first_dir(self.dirs@, path@);
        }
        let mut i: usize = 0;
        while i < self.dirs.len()
            invariant
                i <= self.dirs@.len(),
                forall|k: int| 0 <= k < i ==> !dir_named(#[trigger] self.dirs@[k], path@),
            decreases self.dirs@.len() - i,
        {
            if self.dirs[i].deleted_at.is_none() && self.dirs[i].path == String::from_str(path) {
                proof {
                    lemma_first_dir_is(self.dirs@, path@, i as int);
                }
                return Some(i);
            }
            i = i + 1;
        }
        None
    }

    /// Adds a live directory, created at `now`, for every ancestor of
    /// `path` that has none; every ancestor then has one.
    pub fn ensure_ancestor_directories(&mut self, path: &str, now: i64)
        ensures
            final(self).files@ == old(self).files@,
            dirs_added(old(self).dirs@, final(self).dirs@, missing_dirs(old(self).dirs@, ancestors_spec(path@)), now),
            forall|k: int|
                0 <= k < ancestors_spec(path@).len() ==> has_dir(
                    final(self).dirs@,
                    #[trigger] ancestors_spec(path@)[k],
                ),
    {
        let ancs = ancestors(path);
        let ghost av = ancs@.map_values(|x: String| x@);
        let ghost d0 = self.dirs@;
        let mut i: usize = 0;
        proof {
            assert(self.dirs@.take(d0.len() as int) =~= d0);
        }
        while i < ancs.len()
            invariant
                i <= ancs@.len(),
                av == ancs@.map_values(|x: String| x@),
                av == ancestors_spec(path@),
                self.files@ == old(self).files@,
                d0 == old(self).dirs@,
                dirs_added(d0, self.dirs@, missing_dirs(d0, av.take(i as int)), now),
                forall|k: int| 0 <= k < i ==> has_dir(self.dirs@, #[trigger] av[k]),
            decreases ancs@.len() - i,
        {
            let ghost m = missing_dirs(d0, av.take(i as int));
            let ghost a = av[i as int];
            proof {
                let t = av.take(i + 1);
                assert(t.drop_last() =~= av.take(i as int));
                assert(t.last() == a);
                lemma_has_dir_added(d0, self.dirs@, m, now, a);
            }
            let found = self.find_directory_by_path_normalized(ancs[i].as_str());
            proof {
                lemma_first_dir(self.dirs@, a);
            }
            if found.is_none() {
                let ghost before = self.dirs@;
                let d = DirectoryMeta {
                    id: new_id(),
                    path: ancs[i].clone(),
                    created_at: now,
                    deleted_at: None,
                };
                self.dirs.push(d);
                proof {
                    assert(!has_dir(before, a)) by {
                        if has_dir(before, a) {
                            let w = choose|w: int| 0 <= w < before.len() && dir_named(before[w], a);
                            assert(!dir_named(before[w], a));
                        }
                    }
                    assert(!has_dir(d0, a) && !m.contains(a));
                    let m2 = m.push(a);
                    assert(missing_dirs(d0, av.take(i + 1)) == m2);
                    assert(self.dirs@.take(d0.len() as int) =~= before.take(d0.len() as int));
                    assert forall|j: int| 0 <= j < m2.len() implies {
                        let d = #[trigger] self.dirs@[d0.len() + j];
                        d.path@ == m2[j] && d.deleted_at is None && d.created_at == now
                    } by {
                        if j < m.len() {
                            assert(self.dirs@[d0.len() + j] == before[d0.len() + j]);
                        }
                    }
                    assert(dir_named(self.dirs@[self.dirs@.len() - 1], a));
                    assert forall|k: int| 0 <= k <= i implies has_dir(self.dirs@, #[trigger] av[k]) by {
                        if k < i {
                            let w = choose|w: int| 0 <= w < before.len() && dir_named(before[w], av[k]);
                            assert(self.dirs@[w] == before[w]);
                        } else {
                            assert(dir_named(self.dirs@[self.dirs@.len() - 1], av[k]));
                        }
                    }
                }
            } else {
                proof {
                    let w = first_dir(self.dirs@, a);
                    assert(dir_named(self.dirs@[w], a));
                    assert(has_dir(d0, a) || m.contains(a));
                    assert(missing_dirs(d0, av.take(i + 1)) == m);
                }
            }
            i = i + 1;
        }
        proof {
            assert(av.take(av.len() as int) =~= av);
        }
    }
}

/// In a list grown by live directories at `m`, a path has a live directory
/// when it had one before or is among `m`.
proof fn lemma_has_dir_added(d0: Seq<DirectoryMeta>, d1: Seq<DirectoryMeta>, m: Seq<Seq<char>>, now: i64, a: Seq<char>)
    requires
        dirs_added(d0, d1, m, now),
    ensures
        has_dir(d1, a) == (has_dir(d0, a) || m.contains(a)),
{
    if has_dir(d0, a) {
        let w = choose|w: int| 0 <= w < d0.len() && dir_named(d0[w], a);
        assert(d1.take(d0.len() as int)[w] == d0[w]);
        assert(dir_named(d1[w], a));
    }
    if m.contains(a) {
        let j = choose|j: int| 0 <= j < m.len() && m[j] == a;
        assert(dir_named(d1[d0.len() + j], a));
    }
    if has_dir(d1, a) {
        let w = choose|w: int| 0 <= w < d1.len() && dir_named(d1[w], a);
        if w < d0.len() {
            assert(d1.take(d0.len() as int)[w] == d1[w]);
            assert(dir_named(d0[w], a));
        } else {
            let j = w - d0.len();
            assert(d1[d0.len() + j].path@ == m[j]);
            assert(m[j] == a);
        }
    }
}

} // verus!
