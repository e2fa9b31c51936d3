//! File operations on the document.

use crate::codec::{hex_lower, sha256};
use crate::doc::{
    content_hash, dirs_added, file_named, first_file, lemma_first_file, missing_dirs, new_id,
    DirectoryMeta, DocTree, FileEntry, FileId, FileKind, FileMeta,
};
use crate::error::Error;
use crate::path::{ancestors_spec, normalize, normalize_ok, normalize_spec};
use crate::text::{chars_of, lex_greater, lex_le, lemma_lex_total, lemma_lex_trans};
use vstd::prelude::*;
use vstd::string::StringSliceAdditionalSpecFns;
use vstd::utf8::encode_utf8;

verus! {

/// Byte length of a text in UTF-8, as an `i64` size.
pub open spec fn byte_size(s: Seq<char>) -> i64 {
    (encode_utf8(s).len() as usize) as i64
}

/// The metadata of the live files, in document order.
pub open spec fn live_metas(files: Seq<FileEntry>) -> Seq<FileMeta>
    decreases files.len(),
{
    if files.len() == 0 {
        Seq::empty()
    } else if files.last().meta.deleted_at is None {
        live_metas(files.drop_last()).push(files.last().meta)
    } else {
        live_metas(files.drop_last())
    }
}

/// The live directories, in document order.
pub open spec fn live_dirs(dirs: Seq<DirectoryMeta>) -> Seq<DirectoryMeta>
    decreases dirs.len(),
{
    if dirs.len() == 0 {
        Seq::empty()
    } else if dirs.last().deleted_at is None {
        live_dirs(dirs.drop_last()).push(dirs.last())
    } else {
        live_dirs(dirs.drop_last())
    }
}

/// Index of the first entry with id `fid`, deleted or not, or -1.
pub open spec fn first_id(files: Seq<FileEntry>, fid: Seq<char>) -> int
    decreases files.len(),
{
    if files.len() == 0 {
        -1
    } else if first_id(files.drop_last(), fid) >= 0 {
        first_id(files.drop_last(), fid)
    } else if files.last().meta.id@ == fid {
        files.len() - 1
    } else {
        -1
    }
}

pub proof fn lemma_first_id(files: Seq<FileEntry>, fid: Seq<char>)
    ensures
        -1 <= first_id(files, fid) < files.len(),
        first_id(files, fid) >= 0 ==> files[first_id(files, fid)].meta.id@ == fid,
        forall|k: int|
            0 <= k < files.len() && (first_id(files, fid) < 0 || k < first_id(files, fid))
                ==> (#[trigger] files[k]).meta.id@ != fid,
        forall|i: int|
            0 <= i < files.len() && files[i].meta.id@ == fid && (forall|k: int| 0 <= k < i ==> (#[trigger] files[k]).meta.id@ != fid)
                ==> first_id(files, fid) == i,
    decreases files.len(),
{
    if files.len() > 0 {
        lemma_first_id(files.drop_last(), fid);
        assert forall|k: int|
            0 <= k < files.len() && (first_id(files, fid) < 0 || k < first_id(files, fid))
                implies (#[trigger] files[k]).meta.id@ != fid by {
            if k < files.len() - 1 {
                assert(files.drop_last()[k] == files[k]);
            }
        }
        assert forall|i: int|
            0 <= i < files.len() && files[i].meta.id@ == fid && (forall|k: int| 0 <= k < i ==> (#[trigger] files[k]).meta.id@ != fid)
                implies first_id(files, fid) == i by {
            if i < files.len() - 1 {
                assert(files.drop_last()[i] == files[i]);
                assert forall|k: int| 0 <= k < i implies (#[trigger] files.drop_last()[k]).meta.id@ != fid by {
                    assert(files.drop_last()[k] == files[k]);
                }
            } else {
                if first_id(files.drop_last(), fid) >= 0 {
                    let w = first_id(files.drop_last(), fid);
                    assert(files.drop_last()[w] == files[w]);
                }
            }
        }
    }
}

/// Sorted by path.
pub open spec fn metas_sorted(s: Seq<FileMeta>) -> bool {
    forall|i: int, j: int| 0 <= i < j < s.len() ==> lex_le(s[i].path@, s[j].path@)
}

pub open spec fn dirs_sorted(s: Seq<DirectoryMeta>) -> bool {
    forall|i: int, j: int| 0 <= i < j < s.len() ==> lex_le(s[i].path@, s[j].path@)
}

/// Sorts by path, keeping the order of equal paths.
fn sort_metas(v: Vec<FileMeta>) -> (r: Vec<FileMeta>)
    ensures
        metas_sorted(r@),
        r@.to_multiset() == v@.to_multiset(),
{
    let mut sorted: Vec<FileMeta> = Vec::new();
    let mut rest = v;
    let ghost all = rest@;
    proof {
        broadcast use vstd::multiset::group_multiset_axioms;
        broadcast use vstd::seq_lib::group_to_multiset_ensures;
        assert(sorted@.to_multiset() =~= vstd::multiset::Multiset::<FileMeta>::empty());
        assert(sorted@.to_multiset().add(all.to_multiset()) =~= all.to_multiset());
    }
    while rest.len() > 0
        invariant
            metas_sorted(sorted@),
            sorted@.to_multiset().add(rest@.to_multiset()) == all.to_multiset(),
        decreases rest@.len(),
    {
        let ghost s0 = sorted@;
        let ghost r0 = rest@;
        let m = rest.remove(0);
        let key = chars_of(m.path.as_str());
        let mut pos: usize = sorted.len();
        while pos > 0 && lex_greater(&chars_of(sorted[pos - 1].path.as_str()), &key)
            invariant
                pos <= sorted@.len(),
                sorted@ == s0,
                key@ == m.path@,
                forall|k: int| pos <= k < s0.len() ==> !lex_le(#[trigger] s0[k].path@, key@),
            decreases pos,
        {
            pos = pos - 1;
        }
        sorted.insert(pos, m);
        proof {
            broadcast use vstd::multiset::group_multiset_axioms;
            vstd::seq_lib::to_multiset_insert(s0, pos as int, m);
            vstd::seq_lib::to_multiset_remove(r0, 0);
            vstd::seq_lib::to_multiset_contains(r0, m);
            assert(r0[0] == m);
            assert(rest@ =~= r0.remove(0));
            assert(sorted@ =~= s0.insert(pos as int, m));
            assert(sorted@.to_multiset().add(rest@.to_multiset()) =~= s0.to_multiset().add(
                r0.to_multiset(),
            ));
            let s1 = sorted@;
            assert forall|i: int, j: int| 0 <= i < j < s1.len() implies lex_le(s1[i].path@, s1[j].path@) by {
                if i < pos && j == pos {
                    if pos > 0 {
                        lemma_lex_total(s0[pos - 1].path@, key@);
                        if i < pos - 1 {
                            lemma_lex_trans(s0[i].path@, s0[pos - 1].path@, key@);
                        }
                    }
                } else if i == pos && j > pos {
                    lemma_lex_total(s0[j - 1].path@, key@);
                } else if i < pos && j > pos {
                    assert(s1[i] == s0[i] && s1[j] == s0[j - 1]);
                } else if i > pos {
                    assert(s1[i] == s0[i - 1] && s1[j] == s0[j - 1]);
                }
            }
        }
    }
    proof {
        broadcast use vstd::multiset::group_multiset_axioms;
        broadcast use vstd::seq_lib::group_to_multiset_ensures;
        assert(rest@ =~= Seq::<FileMeta>::empty());
        assert(rest@.to_multiset() =~= vstd::multiset::Multiset::<FileMeta>::empty());
        assert(sorted@.to_multiset().add(rest@.to_multiset()) =~= sorted@.to_multiset());
    }
    sorted
}

/// Sorts by path, keeping the order of equal paths.
fn sort_dirs(v: Vec<DirectoryMeta>) -> (r: Vec<DirectoryMeta>)
    ensures
        dirs_sorted(r@),
        r@.to_multiset() == v@.to_multiset(),
{
    let mut sorted: Vec<DirectoryMeta> = Vec::new();
    let mut rest = v;
    let ghost all = rest@;
    proof {
        broadcast use vstd::multiset::group_multiset_axioms;
        broadcast use vstd::seq_lib::group_to_multiset_ensures;
        assert(sorted@.to_multiset() =~= vstd::multiset::Multiset::<DirectoryMeta>::empty());
        assert(sorted@.to_multiset().add(all.to_multiset()) =~= all.to_multiset());
    }
    while rest.len() > 0
        invariant
            dirs_sorted(sorted@),
            sorted@.to_multiset().add(rest@.to_multiset()) == all.to_multiset(),
        decreases rest@.len(),
    {
        let ghost s0 = sorted@;
        let ghost r0 = rest@;
        let m = rest.remove(0);
        let key = chars_of(m.path.as_str());
        let mut pos: usize = sorted.len();
        while pos > 0 && lex_greater(&chars_of(sorted[pos - 1].path.as_str()), &key)
            invariant
                pos <= sorted@.len(),
                sorted@ == s0,
                key@ == m.path@,
                forall|k: int| pos <= k < s0.len() ==> !lex_le(#[trigger] s0[k].path@, key@),
            decreases pos,
        {
            pos = pos - 1;
        }
        sorted.insert(pos, m);
        proof {
            broadcast use vstd::multiset::group_multiset_axioms;
            vstd::seq_lib::to_multiset_insert(s0, pos as int, m);
            vstd::seq_lib::to_multiset_remove(r0, 0);
            vstd::seq_lib::to_multiset_contains(r0, m);
            assert(r0[0] == m);
            assert(rest@ =~= r0.remove(0));
            assert(sorted@ =~= s0.insert(pos as int, m));
            assert(sorted@.to_multiset().add(rest@.to_multiset()) =~= s0.to_multiset().add(
                r0.to_multiset(),
            ));
            let s1 = sorted@;
            assert forall|i: int, j: int| 0 <= i < j < s1.len() implies lex_le(s1[i].path@, s1[j].path@) by {
                if i < pos && j == pos {
                    if pos > 0 {
                        lemma_lex_total(s0[pos - 1].path@, key@);
                        if i < pos - 1 {
                            lemma_lex_trans(s0[i].path@, s0[pos - 1].path@, key@);
                        }
                    }
                } else if i == pos && j > pos {
                    lemma_lex_total(s0[j - 1].path@, key@);
                } else if i < pos && j > pos {
                    assert(s1[i] == s0[i] && s1[j] == s0[j - 1]);
                } else if i > pos {
                    assert(s1[i] == s0[i - 1] && s1[j] == s0[j - 1]);
                }
            }
        }
    }
    proof {
        broadcast use vstd::multiset::group_multiset_axioms;
        broadcast use vstd::seq_lib::group_to_multiset_ensures;
        assert(rest@ =~= Seq::<DirectoryMeta>::empty());
        assert(rest@.to_multiset() =~= vstd::multiset::Multiset::<DirectoryMeta>::empty());
        assert(sorted@.to_multiset().add(rest@.to_multiset()) =~= sorted@.to_multiset());
    }
    sorted
}

impl DocTree {
    /// The id of the first live file at `path`, once normalized.
    pub fn find_file_by_path(&self, path: &str) -> (r: Result<Option<FileId>, Error>)
        ensures
            !normalize_ok(path@) ==> r matches Err(Error::InvalidPath(_)),
            normalize_ok(path@) ==> match r {
                Ok(Some(id)) => {
                    let i = first_file(self.files@, normalize_spec(path@));
                    i >= 0 && id == self.files@[i].meta.id
                },
                Ok(None) => first_file(self.files@, normalize_spec(path@)) == -1,
                Err(_) => false,
            },
    {
        let n = normalize(path)?;
        proof {
            lemma_first_file(self.files@, n@);
        }
        match self.find_file_by_path_normalized(n.as_str()) {
            Some(i) => Ok(Some(self.files[i].meta.id.clone())),
            None => Ok(None),
        }
    }

    /// Whether a live file is at `path`; a path `normalize` refuses has none.
    pub fn file_exists(&self, path: &str) -> (r: bool)
        ensures
            r == (normalize_ok(path@) && first_file(self.files@, normalize_spec(path@)) >= 0),
    {
        match self.find_file_by_path(path) {
            Ok(Some(_)) => true,
            _ => false,
        }
    }

    /// The text of the live text file at `path`.
    pub fn read_file(&self, path: &str) -> (r: Result<String, Error>)
        ensures
            !normalize_ok(path@) ==> r matches Err(Error::InvalidPath(_)),
            normalize_ok(path@) ==> ({
                let i = first_file(self.files@, normalize_spec(path@));
                if i < 0 {
                    r matches Err(Error::NotFound(_))
                } else {
                    match self.files@[i].content {
                        Some(t) => r == Ok::<String, Error>(t),
                        None => r matches Err(Error::Other(_)),
                    }
                }
            }),
    {
        let n = normalize(path)?;
        proof {
            lemma_first_file(self.files@, n@);
        }
        let i = match self.find_file_by_path_normalized(n.as_str()) {
            Some(i) => i,
            None => return Err(Error::NotFound(n)),
        };
        match &self.files[i].content {
            Some(t) => Ok(t.clone()),
            None => Err(Error::Other(String::from_str("file is not a text file"))),
        }
    }

    /// The content hash of the live file at `path`: an attachment's stored
    /// hash, else the SHA-256 hex of the text.
    pub fn file_hash(&self, path: &str) -> (r: Result<String, Error>)
        ensures
            !normalize_ok(path@) ==> r matches Err(Error::InvalidPath(_)),
            normalize_ok(path@) ==> ({
                let i = first_file(self.files@, normalize_spec(path@));
                if i < 0 {
                    r matches Err(Error::NotFound(_))
                } else {
                    let e = self.files@[i];
                    if e.meta.kind == FileKind::Attachment && e.meta.binary_hash is Some {
                        r == Ok::<String, Error>(e.meta.binary_hash->0)
                    } else {
                        match e.content {
                            Some(t) => r matches Ok(h) && h@ == hex_lower(sha256(encode_utf8(t@))),
                            None => r matches Err(Error::Other(_)),
                        }
                    }
                }
            }),
    {
        let n = normalize(path)?;
        proof {
            lemma_first_file(self.files@, n@);
        }
        let i = match self.find_file_by_path_normalized(n.as_str()) {
            Some(i) => i,
            None => return Err(Error::NotFound(n)),
        };
        let e = &self.files[i];
        if e.meta.kind == FileKind::Attachment {
            if let Some(h) = &e.meta.binary_hash {
                return Ok(h.clone());
            }
        }
        match &e.content {
            Some(t) => Ok(content_hash(t.as_str().as_bytes())),
            None => Err(Error::Other(String::from_str("cannot hash file"))),
        }
    }

    /// The metadata of the file with id `fid`, deleted or not.
    pub fn read_file_meta(&self, fid: &str) -> (r: Option<FileMeta>)
        ensures
            match r {
                Some(m) => first_id(self.files@, fid@) >= 0 && m == self.files@[first_id(self.files@, fid@)].meta,
                None => first_id(self.files@, fid@) == -1,
            },
    {
        match self.index_of_id(fid) {
            Some(i) => Some(self.files[i].meta.duplicate()),
            None => None,
        }
    }

    /// The text of the file with id `fid`, if it is a text file.
    pub fn read_file_id(&self, fid: &str) -> (r: Option<String>)
        ensures
            first_id(self.files@, fid@) == -1 ==> r is None,
            first_id(self.files@, fid@) >= 0 ==> r == self.files@[first_id(self.files@, fid@)].content,
    {
        match self.index_of_id(fid) {
            Some(i) => match &self.files[i].content {
                Some(t) => Some(t.clone()),
                None => None,
            },
            None => None,
        }
    }

    pub(crate) fn index_of_id(&self, fid: &str) -> (r: Option<usize>)
        ensures
            match r {
                Some(i) => i == first_id(self.files@, fid@) && i < self.files@.len(),
                None => first_id(self.files@, fid@) == -1,
            },
    {
        proof {
            lemma_first_id(self.files@, fid@);
        }
        let mut i: usize = 0;
        while i < self.files.len()
            invariant
                i <= self.files@.len(),
                forall|k: int| 0 <= k < i ==> (#[trigger] self.files@[k]).meta.id@ != fid@,
            decreases self.files@.len() - i,
        {
            if self.files[i].meta.id == String::from_str(fid) {
                proof {
                    lemma_first_id(self.files@, fid@);
                }
                return Some(i);
            }
            i = i + 1;
        }
        None
    }

    /// The live files' metadata, sorted by path.
    pub fn list_files(&self) -> (r: Vec<FileMeta>)
        ensures
            metas_sorted(r@),
            r@.to_multiset() == live_metas(self.files@).to_multiset(),
    {
        let mut out: Vec<FileMeta> = Vec::new();
        let mut i: usize = 0;
        while i < self.files.len()
            invariant
                i <= self.files@.len(),
                out@ == live_metas(self.files@.take(i as int)),
            decreases self.files@.len() - i,
        {
            proof {
                let t = self.files@.take(i + 1);
                assert(t.drop_last() =~= self.files@.take(i as int));
                assert(t.last() == self.files@[i as int]);
            }
            if self.files[i].meta.deleted_at.is_none() {
                out.push(self.files[i].meta.duplicate());
            }
            i = i + 1;
        }
        assert(self.files@.take(self.files@.len() as int) =~= self.files@);
        sort_metas(out)
    }

    /// The live directories, sorted by path.
    pub fn list_directories(&self) -> (r: Vec<DirectoryMeta>)
        ensures
            dirs_sorted(r@),
            r@.to_multiset() == live_dirs(self.dirs@).to_multiset(),
    {
        let mut out: Vec<DirectoryMeta> = Vec::new();
        let mut i: usize = 0;
        while i < self.dirs.len()
            invariant
                i <= self.dirs@.len(),
                out@ == live_dirs(self.dirs@.take(i as int)),
            decreases self.dirs@.len() - i,
        {
            proof {
                let t = self.dirs@.take(i + 1);
                assert(t.drop_last() =~= self.dirs@.take(i as int));
                assert(t.last() == self.dirs@[i as int]);
            }
            if self.dirs[i].deleted_at.is_none() {
                out.push(self.dirs[i].duplicate());
            }
            i = i + 1;
        }
        assert(self.dirs@.take(self.dirs@.len() as int) =~= self.dirs@);
        sort_dirs(out)
    }

    /// The live files' paths, sorted.
    pub fn list_file_paths(&self) -> (r: Vec<String>)
        ensures
            exists|metas: Seq<FileMeta>|
                metas_sorted(metas) && metas.to_multiset() == live_metas(self.files@).to_multiset()
                    && r@ == metas.map_values(|m: FileMeta| m.path),
    {
        let metas = self.list_files();
        let mut out: Vec<String> = Vec::new();
        let mut i: usize = 0;
        while i < metas.len()
            invariant
                i <= metas@.len(),
                out@ == metas@.take(i as int).map_values(|m: FileMeta| m.path),
            decreases metas@.len() - i,
        {
            out.push(metas[i].path.clone());
            i = i + 1;
            assert(out@ =~= metas@.take(i as int).map_values(|m: FileMeta| m.path));
        }
        assert(metas@.take(metas@.len() as int) =~= metas@);
        out
    }

    /// Writes `content` as the text of the file at `path` (normalized): an
    /// existing live file keeps its id and becomes a live text file with
    /// that content; otherwise a new file is made, with its missing
    /// ancestor directories.
    pub fn write_text_file(&mut self, path: &str, content: &str, now: i64) -> (r: Result<FileId, Error>)
        ensures
            !normalize_ok(path@) ==> (r matches Err(Error::InvalidPath(_)) && *final(self) == *old(self)),
            normalize_ok(path@) ==> ({
                let n = normalize_spec(path@);
                let i = first_file(old(self).files@, n);
                &&& r is Ok
                &&& i >= 0 ==> ({
                    let e = old(self).files@[i];
                    let e2 = final(self).files@[i];
                    &&& final(self).dirs@ == old(self).dirs@
                    &&& final(self).files@ == old(self).files@.update(i, e2)
                    &&& (r matches Ok(id) && id == e.meta.id)
                    &&& e2.meta.id == e.meta.id && e2.meta.path == e.meta.path
                    &&& e2.meta.created_at == e.meta.created_at && e2.meta.binary_hash == e.meta.binary_hash
                    &&& e2.meta.kind == FileKind::Text && e2.meta.deleted_at is None
                    &&& e2.meta.size == byte_size(content@) && e2.meta.updated_at == now
                    &&& (e2.content matches Some(t) && t@ == content@)
                })
                &&& ({
                    let j = first_file(final(self).files@, n);
                    &&& j >= 0
                    &&& (final(self).files@[j].content matches Some(t) && t@ == content@)
                    &&& (r matches Ok(id) && id == final(self).files@[j].meta.id)
                })
                &&& i < 0 ==> ({
                    let k = old(self).files@.len() as int;
                    let e2 = final(self).files@[k];
                    &&& final(self).files@ == old(self).files@.push(e2)
                    &&& (r matches Ok(id) && id == e2.meta.id)
                    &&& e2.meta.path@ == n && e2.meta.kind == FileKind::Text
                    &&& e2.meta.deleted_at is None && e2.meta.binary_hash is None
                    &&& e2.meta.created_at == now && e2.meta.updated_at == now
                    &&& e2.meta.size == byte_size(content@)
                    &&& (e2.content matches Some(t) && t@ == content@)
                    &&& dirs_added(old(self).dirs@, final(self).dirs@, missing_dirs(old(self).dirs@, ancestors_spec(n)), now)
                })
            }),
    {
        let n = match normalize(path) {
            Ok(n) => n,
            Err(e) => return Err(e),
        };
        let size = #[verifier::truncate] (content.len() as i64);
        proof {
            lemma_first_file(self.files@, n@);
        }
        if let Some(i) = self.find_file_by_path_normalized(n.as_str()) {
            self.files[i].content = Some(String::from_str(content));
            self.files[i].meta.size = size;
            self.files[i].meta.updated_at = now;
            self.files[i].meta.kind = FileKind::Text;
            self.files[i].meta.deleted_at = None;
            proof {
                lemma_first_file(self.files@, n@);
                assert(file_named(self.files@[i as int], n@));
                assert forall|k: int| 0 <= k < i implies !file_named(#[trigger] self.files@[k], n@) by {
                    assert(self.files@[k] == old(self).files@[k]);
                }
                crate::doc::lemma_first_file_is(self.files@, n@, i as int);
            }
            return Ok(self.files[i].meta.id.clone());
        }
        let fid = new_id();
        let ghost old_files = self.files@;
        let e = FileEntry {
            meta: FileMeta {
                id: fid.clone(),
                path: n.clone(),
                kind: FileKind::Text,
                size,
                created_at: now,
                updated_at: now,
                deleted_at: None,
                binary_hash: None,
            },
            content: Some(String::from_str(content)),
        };
        self.files.push(e);
        proof {
            let k = old_files.len() as int;
            assert(file_named(self.files@[k], n@));
            assert forall|j: int| 0 <= j < k implies !file_named(#[trigger] self.files@[j], n@) by {
                assert(self.files@[j] == old_files[j]);
            }
            crate::doc::lemma_first_file_is(self.files@, n@, k);
        }
        self.ensure_ancestor_directories(n.as_str(), now);
        Ok(fid)
    }

    /// Records the attachment with content hash `hash` and `size` bytes at
    /// `path` (normalized): an existing live file keeps its id and its
    /// text; otherwise a new file is made, with its missing ancestors.
    pub fn write_attachment(&mut self, path: &str, hash: &str, size: i64, now: i64) -> (r: Result<FileId, Error>)
        ensures
            !normalize_ok(path@) ==> (r matches Err(Error::InvalidPath(_)) && *final(self) == *old(self)),
            normalize_ok(path@) ==> ({
                let n = normalize_spec(path@);
                let i = first_file(old(self).files@, n);
                &&& r is Ok
                &&& i >= 0 ==> ({
                    let e = old(self).files@[i];
                    let e2 = final(self).files@[i];
                    &&& final(self).dirs@ == old(self).dirs@
                    &&& final(self).files@ == old(self).files@.update(i, e2)
                    &&& (r matches Ok(id) && id == e.meta.id)
                    &&& e2.meta.id == e.meta.id && e2.meta.path == e.meta.path
                    &&& e2.meta.created_at == e.meta.created_at && e2.content == e.content
                    &&& e2.meta.kind == FileKind::Attachment && e2.meta.deleted_at is None
                    &&& e2.meta.size == size && e2.meta.updated_at == now
                    &&& (e2.meta.binary_hash matches Some(h) && h@ == hash@)
                })
                &&& i < 0 ==> ({
                    let k = old(self).files@.len() as int;
                    let e2 = final(self).files@[k];
                    &&& final(self).files@ == old(self).files@.push(e2)
                    &&& (r matches Ok(id) && id == e2.meta.id)
                    &&& e2.meta.path@ == n && e2.meta.kind == FileKind::Attachment
                    &&& e2.meta.deleted_at is None && e2.content is None
                    &&& e2.meta.created_at == now && e2.meta.updated_at == now
                    &&& e2.meta.size == size
                    &&& (e2.meta.binary_hash matches Some(h) && h@ == hash@)
                    &&& dirs_added(old(self).dirs@, final(self).dirs@, missing_dirs(old(self).dirs@, ancestors_spec(n)), now)
                })
            }),
    {
        let n = match normalize(path) {
            Ok(n) => n,
            Err(e) => return Err(e),
        };
        proof {
            lemma_first_file(self.files@, n@);
        }
        if let Some(i) = self.find_file_by_path_normalized(n.as_str()) {
            self.files[i].meta.binary_hash = Some(String::from_str(hash));
            self.files[i].meta.kind = FileKind::Attachment;
            self.files[i].meta.size = size;
            self.files[i].meta.updated_at = now;
            self.files[i].meta.deleted_at = None;
            return Ok(self.files[i].meta.id.clone());
        }
        let fid = new_id();
        let e = FileEntry {
            meta: FileMeta {
                id: fid.clone(),
                path: n.clone(),
                kind: FileKind::Attachment,
                size,
                created_at: now,
                updated_at: now,
                deleted_at: None,
                binary_hash: Some(String::from_str(hash)),
            },
            content: None,
        };
        self.files.push(e);
        self.ensure_ancestor_directories(n.as_str(), now);
        Ok(fid)
    }

    /// Deletes the live file at `path` (normalized).
    pub fn delete_file(&mut self, path: &str, now: i64) -> (r: Result<(), Error>)
        ensures
            !normalize_ok(path@) ==> r matches Err(Error::InvalidPath(_)),
            normalize_ok(path@) && first_file(old(self).files@, normalize_spec(path@)) < 0 ==> r matches Err(Error::NotFound(_)),
            r is Err ==> *final(self) == *old(self),
            normalize_ok(path@) && first_file(old(self).files@, normalize_spec(path@)) >= 0 ==> ({
                let i = first_file(old(self).files@, normalize_spec(path@));
                let e = old(self).files@[i];
                &&& r is Ok
                &&& final(self).dirs@ == old(self).dirs@
                &&& final(self).files@ == old(self).files@.update(
                    i,
                    FileEntry { meta: FileMeta { deleted_at: Some(now), ..e.meta }, ..e },
                )
            }),
    {
        let n = normalize(path)?;
        proof {
            lemma_first_file(self.files@, n@);
        }
        let i = match self.find_file_by_path_normalized(n.as_str()) {
            Some(i) => i,
            None => return Err(Error::NotFound(n)),
        };
        self.files[i].meta.deleted_at = Some(now);
        Ok(())
    }

    /// Moves the live file at `from` to `to` (both normalized); refused
    /// when nothing is at `from` or a live file is already at `to`.
    pub fn rename_file(&mut self, from: &str, to: &str, now: i64) -> (r: Result<(), Error>)
        ensures
            !normalize_ok(from@) || !normalize_ok(to@) ==> r matches Err(Error::InvalidPath(_)),
            r is Err ==> *final(self) == *old(self),
            normalize_ok(from@) && normalize_ok(to@) ==> ({
                let f = normalize_spec(from@);
                let t = normalize_spec(to@);
                let i = first_file(old(self).files@, f);
                if f == t {
                    r is Ok && *final(self) == *old(self)
                } else if i < 0 {
                    r matches Err(Error::NotFound(_))
                } else if first_file(old(self).files@, t) >= 0 {
                    r matches Err(Error::AlreadyExists(_))
                } else {
                    let e = old(self).files@[i];
                    let e2 = final(self).files@[i];
                    &&& r is Ok
                    &&& final(self).files@ == old(self).files@.update(i, e2)
                    &&& e2.meta.path@ == t && e2.meta.updated_at == now
                    &&& e2 == FileEntry { meta: FileMeta { path: e2.meta.path, updated_at: now, ..e.meta }, ..e }
                    &&& first_file(final(self).files@, t) == i
                    &&& dirs_added(old(self).dirs@, final(self).dirs@, missing_dirs(old(self).dirs@, ancestors_spec(t)), now)
                }
            }),
    {
        let f = normalize(from)?;
        let t = normalize(to)?;
        if f == t {
            return Ok(());
        }
        proof {
            lemma_first_file(self.files@, f@);
        }
        let i = match self.find_file_by_path_normalized(f.as_str()) {
            Some(i) => i,
            None => return Err(Error::NotFound(f)),
        };
        if self.find_file_by_path_normalized(t.as_str()).is_some() {
            return Err(Error::AlreadyExists(t));
        }
        proof {
            lemma_first_file(self.files@, t@);
        }
        self.files[i].meta.path = t.clone();
        self.files[i].meta.updated_at = now;
        proof {
            assert(file_named(self.files@[i as int], t@));
            assert forall|k: int| 0 <= k < i implies !file_named(#[trigger] self.files@[k], t@) by {
                assert(self.files@[k] == old(self).files@[k]);
            }
            crate::doc::lemma_first_file_is(self.files@, t@, i as int);
        }
        self.ensure_ancestor_directories(t.as_str(), now);
        Ok(())
    }
}

} // verus!
