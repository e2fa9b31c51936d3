//! Directory operations on the document.

use crate::doc::{
    dir_named, dirs_added, file_named, first_dir, lemma_first_dir, missing_dirs, new_id, DirId,
    DirectoryMeta, DocTree, FileEntry,
};
use crate::error::Error;
use crate::path::{ancestors_spec, normalize, normalize_ok, normalize_spec, under, under_spec};
use crate::text::{chars_of, decimal, extend_chars, extend_decimal, extend_lit, string_of};
use vstd::prelude::*;

verus! {

/// `p` lies strictly below `n`.
pub open spec fn strictly_under(n: Seq<char>, p: Seq<char>) -> bool {
    under_spec(n, p) && p != n
}

/// `p` moved from below `from` to the same place below `to`.
pub open spec fn rebase(p: Seq<char>, from: Seq<char>, to: Seq<char>) -> Seq<char> {
    to + p.subrange(from.len() as int, p.len() as int)
}

/// `d2` is `d` at `path`.
pub open spec fn dir_moved(d: DirectoryMeta, d2: DirectoryMeta, path: Seq<char>) -> bool {
    d2.id == d.id && d2.path@ == path && d2.created_at == d.created_at && d2.deleted_at
        == d.deleted_at
}

/// `d2` is `d` deleted at `now`.
pub open spec fn dir_deleted(d: DirectoryMeta, d2: DirectoryMeta, now: i64) -> bool {
    d2 == DirectoryMeta { deleted_at: Some(now), ..d }
}

/// `f2` is `f` deleted at `now`.
pub open spec fn file_deleted(f: FileEntry, f2: FileEntry, now: i64) -> bool {
    f2 == FileEntry { meta: crate::doc::FileMeta { deleted_at: Some(now), ..f.meta }, ..f }
}

/// `f2` is `f` at `path`, updated at `now`.
pub open spec fn file_moved(f: FileEntry, f2: FileEntry, path: Seq<char>, now: i64) -> bool {
    &&& f2.meta.path@ == path
    &&& f2.meta.updated_at == now
    &&& f2.meta.id == f.meta.id
    &&& f2.meta.kind == f.meta.kind
    &&& f2.meta.size == f.meta.size
    &&& f2.meta.created_at == f.meta.created_at
    &&& f2.meta.deleted_at == f.meta.deleted_at
    &&& f2.meta.binary_hash == f.meta.binary_hash
    &&& f2.content == f.content
}

/// A live file strictly below `n`.
pub open spec fn child_file(f: FileEntry, n: Seq<char>) -> bool {
    f.meta.deleted_at is None && strictly_under(n, f.meta.path@)
}

/// A live directory strictly below `n`.
pub open spec fn child_dir(d: DirectoryMeta, n: Seq<char>) -> bool {
    d.deleted_at is None && strictly_under(n, d.path@)
}

/// Whether some live file lies strictly below `n`.
pub open spec fn has_child_file(files: Seq<FileEntry>, n: Seq<char>) -> bool {
    exists|k: int| 0 <= k < files.len() && child_file(#[trigger] files[k], n)
}

/// How many live files lie strictly below `n`.
pub open spec fn child_file_count(files: Seq<FileEntry>, n: Seq<char>) -> nat
    decreases files.len(),
{
    if files.len() == 0 {
        0
    } else {
        child_file_count(files.drop_last(), n) + if child_file(files.last(), n) {
            1nat
        } else {
            0nat
        }
    }
}

/// The refusal to delete a directory `n` that still holds `count` live
/// files.
pub open spec fn not_empty_message(n: Seq<char>, count: nat) -> Seq<char> {
    "directory not empty: "@ + n + " ("@ + decimal(count) + " child files)"@
}

proof fn lemma_child_count(files: Seq<FileEntry>, n: Seq<char>)
    ensures
        child_file_count(files, n) <= files.len(),
        child_file_count(files, n) > 0 <==> has_child_file(files, n),
    decreases files.len(),
{
    if files.len() > 0 {
        let d = files.drop_last();
        lemma_child_count(d, n);
        if has_child_file(d, n) {
            let k = choose|k: int| 0 <= k < d.len() && child_file(#[trigger] d[k], n);
            assert(files[k] == d[k]);
        }
        if has_child_file(files, n) && !child_file(files.last(), n) {
            let k = choose|k: int| 0 <= k < files.len() && child_file(#[trigger] files[k], n);
            assert(k < files.len() - 1);
            assert(d[k] == files[k]);
        }
        if child_file(files.last(), n) {
            assert(child_file(files[files.len() - 1], n));
        }
    }
}

fn rebased(p: &String, from_len: usize, to: &String) -> (r: String)
    requires
        from_len <= p@.len(),
    ensures
        r@ == to@ + p@.subrange(from_len as int, p@.len() as int),
{
    let cs = chars_of(p.as_str());
    let mut out = chars_of(to.as_str());
    let mut k: usize = from_len;
    let ghost base = out@;
    while k < cs.len()
        invariant
            from_len <= k <= cs@.len(),
            cs@ == p@,
            out@ == base + cs@.subrange(from_len as int, k as int),
        decreases cs@.len() - k,
    {
        out.push(cs[k]);
        k = k + 1;
        assert(out@ =~= base + cs@.subrange(from_len as int, k as int));
    }
    string_of(out.as_slice())
}

impl DocTree {
    /// The id of the first live directory at `path`, once normalized.
    pub fn find_directory_by_path(&self, path: &str) -> (r: Result<Option<DirId>, Error>)
        ensures
            !normalize_ok(path@) ==> r matches Err(Error::InvalidPath(_)),
            normalize_ok(path@) ==> match r {
                Ok(Some(id)) => {
                    let i = first_dir(self.dirs@, normalize_spec(path@));
                    i >= 0 && id == self.dirs@[i].id
                },
                Ok(None) => first_dir(self.dirs@, normalize_spec(path@)) == -1,
                Err(_) => false,
            },
    {
        let n = normalize(path)?;
        proof {
            lemma_first_dir(self.dirs@, n@);
        }
        match self.find_directory_by_path_normalized(n.as_str()) {
            Some(i) => Ok(Some(self.dirs[i].id.clone())),
            None => Ok(None),
        }
    }

    /// Creates the directory at `path` (normalized) unless a live one is
    /// there, and its missing ancestors; returns the directory's id.
    pub fn create_directory(&mut self, path: &str, now: i64) -> (r: Result<DirId, Error>)
        ensures
            !normalize_ok(path@) ==> (r matches Err(Error::InvalidPath(_)) && *final(self) == *old(self)),
            normalize_ok(path@) ==> r is Ok,
            normalize_ok(path@) && first_dir(old(self).dirs@, normalize_spec(path@)) >= 0 ==> (
            r matches Ok(id) && id == old(self).dirs@[first_dir(old(self).dirs@, normalize_spec(path@))].id
                && *final(self) == *old(self)),
            normalize_ok(path@) && first_dir(old(self).dirs@, normalize_spec(path@)) < 0 ==> ({
                let n = normalize_spec(path@);
                let d1 = old(self).dirs@.len();
                &&& final(self).files@ == old(self).files@
                &&& final(self).dirs@.len() > d1
                &&& final(self).dirs@.take(d1 as int) == old(self).dirs@
                &&& dir_named(final(self).dirs@[d1 as int], n)
                &&& (r matches Ok(id) && id == final(self).dirs@[d1 as int].id)
                &&& final(self).dirs@[d1 as int].created_at == now
                &&& dirs_added(
                    old(self).dirs@.push(final(self).dirs@[d1 as int]),
                    final(self).dirs@,
                    missing_dirs(old(self).dirs@.push(final(self).dirs@[d1 as int]), ancestors_spec(n)),
                    now,
                )
            }),
    {
        let n = match normalize(path) {
            Ok(n) => n,
            Err(e) => return Err(e),
        };
        proof {
            lemma_first_dir(self.dirs@, n@);
        }
        if let Some(i) = self.find_directory_by_path_normalized(n.as_str()) {
            return Ok(self.dirs[i].id.clone());
        }
        let did = new_id();
        let d = DirectoryMeta { id: did.clone(), path: n.clone(), created_at: now, deleted_at: None };
        let ghost d1 = self.dirs@.len();
        let ghost old_dirs = self.dirs@;
        self.dirs.push(d);
        let ghost mid = self.dirs@;
        self.ensure_ancestor_directories(n.as_str(), now);
        proof {
            assert(mid == old_dirs.push(mid[d1 as int]));
            assert(self.dirs@.take(mid.len() as int)[d1 as int] == mid[d1 as int]);
            assert(self.dirs@.take(d1 as int) =~= self.dirs@.take(mid.len() as int).take(d1 as int));
            assert(mid.take(d1 as int) =~= old_dirs);
        }
        Ok(did)
    }

    /// Deletes the directory at `path` (normalized). The live files and
    /// directories strictly below it go too when `recursive`; without it, a
    /// live file below refuses the deletion.
    pub fn delete_directory(&mut self, path: &str, recursive: bool, now: i64) -> (r: Result<(), Error>)
        ensures
            !normalize_ok(path@) ==> r matches Err(Error::InvalidPath(_)),
            normalize_ok(path@) && !recursive && has_child_file(old(self).files@, normalize_spec(path@))
                ==> (r matches Err(Error::Other(m)) && m@ == not_empty_message(
                normalize_spec(path@),
                child_file_count(old(self).files@, normalize_spec(path@)),
            )),
            r is Err ==> *final(self) == *old(self),
            normalize_ok(path@) && (recursive || !has_child_file(old(self).files@, normalize_spec(path@)))
                ==> r is Ok,
            r is Ok ==> ({
                let n = normalize_spec(path@);
                let fd = first_dir(old(self).dirs@, n);
                &&& final(self).files@.len() == old(self).files@.len()
                &&& final(self).dirs@.len() == old(self).dirs@.len()
                &&& forall|k: int|
                    0 <= k < old(self).files@.len() ==> if recursive && child_file(
                        old(self).files@[k],
                        n,
                    ) {
                        file_deleted(old(self).files@[k], #[trigger] final(self).files@[k], now)
                    } else {
                        final(self).files@[k] == old(self).files@[k]
                    }
                &&& forall|k: int|
                    0 <= k < old(self).dirs@.len() ==> if (recursive && child_dir(
                        old(self).dirs@[k],
                        n,
                    )) || k == fd {
                        dir_deleted(old(self).dirs@[k], #[trigger] final(self).dirs@[k], now)
                    } else {
                        final(self).dirs@[k] == old(self).dirs@[k]
                    }
            }),
    {
        let n = normalize(path)?;
        let ghost nv = n@;
        let mut count: u64 = 0;
        let mut i: usize = 0;
        while i < self.files.len()
            invariant
                i <= self.files@.len(),
                count == child_file_count(self.files@.take(i as int), nv),
                n@ == nv,
            decreases self.files@.len() - i,
        {
            proof {
                assert(self.files@.take(i + 1).drop_last() =~= self.files@.take(i as int));
                lemma_child_count(self.files@.take(i as int), nv);
            }
            if self.files[i].meta.deleted_at.is_none() && under(n.as_str(), self.files[i].meta.path.as_str())
                && self.files[i].meta.path != n {
                assert(child_file(self.files@[i as int], nv));
                count = count + 1;
            } else {
                assert(!child_file(self.files@[i as int], nv));
            }
            i = i + 1;
        }
        proof {
            assert(self.files@.take(self.files@.len() as int) =~= self.files@);
            lemma_child_count(self.files@, nv);
        }
        if count > 0 && !recursive {
            let mut m: Vec<char> = Vec::new();
            extend_lit(&mut m, "directory not empty: ");
            extend_chars(&mut m, &chars_of(n.as_str()));
            extend_lit(&mut m, " (");
            extend_decimal(&mut m, count);
            extend_lit(&mut m, " child files)");
            return Err(Error::Other(string_of(m.as_slice())));
        }
        proof {
            lemma_first_dir(self.dirs@, nv);
        }
        let fd = self.find_directory_by_path_normalized(n.as_str());
        let ghost f0 = self.files@;
        let ghost d0 = self.dirs@;
        let ghost fdi = first_dir(d0, nv);
        if recursive {
            let mut k: usize = 0;
            while k < self.files.len()
                invariant
                    k <= self.files@.len(),
                    self.files@.len() == f0.len(),
                    self.dirs@ == d0,
                    n@ == nv,
                    forall|j: int|
                        0 <= j < f0.len() ==> if j < k && child_file(f0[j], nv) {
                            file_deleted(f0[j], #[trigger] self.files@[j], now)
                        } else {
                            self.files@[j] == f0[j]
                        },
                decreases self.files@.len() - k,
            {
                if self.files[k].meta.deleted_at.is_none() && under(
                    n.as_str(),
                    self.files[k].meta.path.as_str(),
                ) && self.files[k].meta.path != n {
                    self.files[k].meta.deleted_at = Some(now);
                }
                k = k + 1;
            }
            let mut k: usize = 0;
            while k < self.dirs.len()
                invariant
                    k <= self.dirs@.len(),
                    self.dirs@.len() == d0.len(),
                    n@ == nv,
                    forall|j: int|
                        0 <= j < f0.len() ==> if child_file(f0[j], nv) {
                            file_deleted(f0[j], #[trigger] self.files@[j], now)
                        } else {
                            self.files@[j] == f0[j]
                        },
                    self.files@.len() == f0.len(),
                    forall|j: int|
                        0 <= j < d0.len() ==> if j < k && child_dir(d0[j], nv) {
                            dir_deleted(d0[j], #[trigger] self.dirs@[j], now)
                        } else {
                            self.dirs@[j] == d0[j]
                        },
                decreases self.dirs@.len() - k,
            {
                if self.dirs[k].deleted_at.is_none() && under(n.as_str(), self.dirs[k].path.as_str())
                    && self.dirs[k].path != n {
                    self.dirs[k].deleted_at = Some(now);
                }
                k = k + 1;
            }
        }
        if let Some(j) = fd {
            self.dirs[j].deleted_at = Some(now);
            proof {
                assert(dir_named(d0[j as int], nv));
                assert(!child_dir(d0[j as int], nv));
            }
        }
        Ok(())
    }

    /// Moves the directory at `from` to `to` (both normalized), with
    /// everything live below it; `to`'s missing ancestors are created.
    pub fn rename_directory(&mut self, from: &str, to: &str, now: i64) -> (r: Result<(), Error>)
        ensures
            !normalize_ok(from@) || !normalize_ok(to@) ==> r matches Err(Error::InvalidPath(_)),
            normalize_ok(from@) && normalize_ok(to@) ==> r is Ok,
            r is Err ==> *final(self) == *old(self),
            r is Ok && normalize_spec(from@) == normalize_spec(to@) ==> *final(self) == *old(self),
            r is Ok && normalize_spec(from@) != normalize_spec(to@) ==> ({
                let f = normalize_spec(from@);
                let t = normalize_spec(to@);
                let fd = first_dir(old(self).dirs@, f);
                let d0 = old(self).dirs@;
                &&& final(self).files@.len() == old(self).files@.len()
                &&& final(self).dirs@.len() >= d0.len()
                &&& dirs_added(
                    final(self).dirs@.take(d0.len() as int),
                    final(self).dirs@,
                    missing_dirs(final(self).dirs@.take(d0.len() as int), ancestors_spec(t)),
                    now,
                )
                &&& forall|k: int|
                    0 <= k < old(self).files@.len() ==> if old(self).files@[k].meta.deleted_at is None
                        && under_spec(f, old(self).files@[k].meta.path@) {
                        file_moved(
                            old(self).files@[k],
                            #[trigger] final(self).files@[k],
                            rebase(old(self).files@[k].meta.path@, f, t),
                            now,
                        )
                    } else {
                        final(self).files@[k] == old(self).files@[k]
                    }
                &&& forall|k: int|
                    0 <= k < d0.len() ==> {
                        let p1 = if k == fd {
                            t
                        } else {
                            d0[k].path@
                        };
                        if d0[k].deleted_at is None && strictly_under(f, p1) {
                            dir_moved(d0[k], #[trigger] final(self).dirs@[k], rebase(p1, f, t))
                        } else {
                            dir_moved(d0[k], final(self).dirs@[k], p1)
                        }
                    }
            }),
    {
        let f = normalize(from)?;
        let t = normalize(to)?;
        if f == t {
            return Ok(());
        }
        let ghost fv = f@;
        let ghost tv = t@;
        let ghost d0 = self.dirs@;
        let ghost f0 = self.files@;
        proof {
            lemma_first_dir(d0, fv);
        }
        let fd = self.find_directory_by_path_normalized(f.as_str());
        let ghost fdi: int = match fd {
            Some(x) => x as int,
            None => -1,
        };
        if let Some(j) = fd {
            self.dirs[j].path = t.clone();
        }
        let ghost d1 = self.dirs@;
        assert(self.files@ == f0);
        let fchars = chars_of(f.as_str());
        let mut k: usize = 0;
        while k < self.dirs.len()
            invariant
                k <= self.dirs@.len(),
                self.dirs@.len() == d1.len(),
                d1.len() == d0.len(),
                f@ == fv,
                t@ == tv,
                fchars@ == fv,
                fdi == first_dir(d0, fv),
                self.files@ == f0,
                forall|j: int|
                    0 <= j < d0.len() ==> dir_moved(d0[j], #[trigger] d1[j], if j == fdi {
                        tv
                    } else {
                        d0[j].path@
                    }),
                forall|j: int|
                    0 <= j < d1.len() ==> if j < k && d1[j].deleted_at is None && strictly_under(
                        fv,
                        d1[j].path@,
                    ) {
                        dir_moved(d1[j], #[trigger] self.dirs@[j], rebase(d1[j].path@, fv, tv))
                    } else {
                        self.dirs@[j] == d1[j]
                    },
            decreases self.dirs@.len() - k,
        {
            if self.dirs[k].deleted_at.is_none() && under(f.as_str(), self.dirs[k].path.as_str())
                && self.dirs[k].path != f {
                let p = chars_of(self.dirs[k].path.as_str());
                assert(fchars@.len() <= p@.len());
                let np = rebased(&self.dirs[k].path, fchars.len(), &t);
                self.dirs[k].path = np;
            }
            k = k + 1;
        }
        let ghost d2 = self.dirs@;
        let mut k: usize = 0;
        while k < self.files.len()
            invariant
                k <= self.files@.len(),
                self.files@.len() == f0.len(),
                self.dirs@ == d2,
                f@ == fv,
                t@ == tv,
                fchars@ == fv,
                forall|j: int|
                    0 <= j < f0.len() ==> if j < k && f0[j].meta.deleted_at is None && under_spec(
                        fv,
                        f0[j].meta.path@,
                    ) {
                        file_moved(f0[j], #[trigger] self.files@[j], rebase(f0[j].meta.path@, fv, tv), now)
                    } else {
                        self.files@[j] == f0[j]
                    },
            decreases self.files@.len() - k,
        {
            if self.files[k].meta.deleted_at.is_none() && under(
                f.as_str(),
                self.files[k].meta.path.as_str(),
            ) {
                let np = rebased(&self.files[k].meta.path, fchars.len(), &t);
                self.files[k].meta.path = np;
                self.files[k].meta.updated_at = now;
            }
            k = k + 1;
        }
        self.ensure_ancestor_directories(t.as_str(), now);
        proof {
            assert(self.dirs@.take(d0.len() as int) == d2);
            assert forall|j: int| 0 <= j < d0.len() implies {
                let p1 = if j == first_dir(d0, fv) {
                    tv
                } else {
                    d0[j].path@
                };
                if d0[j].deleted_at is None && strictly_under(fv, p1) {
                    dir_moved(d0[j], #[trigger] self.dirs@[j], rebase(p1, fv, tv))
                } else {
                    dir_moved(d0[j], self.dirs@[j], p1)
                }
            } by {
                assert(self.dirs@.take(d2.len() as int)[j] == d2[j]);
                assert(dir_moved(d0[j], d1[j], if j == fdi { tv } else { d0[j].path@ }));
            }
        }
        Ok(())
    }
}

/// Everything below the old name of a renamed directory lands below the
/// new name, keeping its place.
pub proof fn lemma_rebase_under(p: Seq<char>, from: Seq<char>, to: Seq<char>)
    requires
        from.len() > 0,
        under_spec(from, p),
    ensures
        under_spec(to, rebase(p, from, to)),
        p == from ==> rebase(p, from, to) == to,
{
    let r = rebase(p, from, to);
    if p == from {
        assert(p.subrange(from.len() as int, p.len() as int) =~= Seq::<char>::empty());
        assert(r =~= to);
    } else {
        assert(r.subrange(0, to.len() as int) =~= to);
        assert(r[to.len() as int] == p[from.len() as int]);
    }
}

} // verus!
