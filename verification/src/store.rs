//! Where a vault keeps its state on disk: the document, the blobs and the
//! snapshot index. Reading and writing the files is the caller's.

use crate::codec::{hex_lower, sha256};
use crate::doc::content_hash;
use crate::error::Error;
use crate::fs::binding::push_piece;
use crate::text::{chars_of, extend_chars, string_of};
use crate::codec::b64_encode;
use crate::doc::history::{b64_heads, heads_bytes, Label};
use vstd::prelude::*;
use vstd::utf8::encode_utf8;

verus! {

/// `base` joined with `piece`, as `Path::join` does for a relative piece.
pub fn join_path(base: &str, piece: &str) -> (r: String)
    ensures
        r@ == push_piece(base@, piece@),
{
    let mut p = chars_of(base);
    let t = chars_of(piece);
    if p.len() > 0 && p[p.len() - 1] != '/' {
        p.push('/');
    }
    extend_chars(&mut p, &t);
    string_of(p.as_slice())
}

/// Content-addressed blobs under `<storage>/blobs/<sha256 hex>`.
pub struct BlobStore {
    root: String,
}

impl BlobStore {
    pub closed spec fn root_spec(&self) -> Seq<char> {
        self.root@
    }

    pub fn new(storage_root: &str) -> (r: BlobStore)
        ensures
            r.root_spec() == push_piece(storage_root@, "blobs"@),
    {
        BlobStore { root: join_path(storage_root, "blobs") }
    }

    /// The blobs directory.
    pub fn root(&self) -> (r: &str)
        ensures
            r@ == self.root_spec(),
    {
        self.root.as_str()
    }

    /// Where the blob with `hash` is kept.
    pub fn blob_path(&self, hash: &str) -> (r: String)
        ensures
            r@ == push_piece(self.root_spec(), hash@),
    {
        join_path(self.root.as_str(), hash)
    }

    /// The temporary file a blob is written to before it is renamed.
    pub fn tmp_path(&self, hash: &str) -> (r: String)
        ensures
            r@ == push_piece(self.root_spec(), ".tmp."@ + hash@),
    {
        let mut name = chars_of(".tmp.");
        let h = chars_of(hash);
        extend_chars(&mut name, &h);
        let n = string_of(name.as_slice());
        join_path(self.root.as_str(), n.as_str())
    }
}

/// Checks that `bytes` hash to `hash` before a blob is stored under it.
pub fn check_blob_hash(hash: &str, bytes: &[u8]) -> (r: Result<(), Error>)
    ensures
        r is Ok <==> hash@ == hex_lower(sha256(bytes@)),
        r is Err ==> r matches Err(Error::Other(_)),
{
    let computed = content_hash(bytes);
    if computed == String::from_str(hash) {
        Ok(())
    } else {
        Err(Error::Other(String::from_str("blob hash mismatch")))
    }
}

/// The document, saved to `<root>/doc.bin` through `doc.bin.tmp`.
pub struct DocStore {
    root: String,
}

impl DocStore {
    pub closed spec fn root_spec(&self) -> Seq<char> {
        self.root@
    }

    pub fn new(root: &str) -> (r: DocStore)
        ensures
            r.root_spec() == root@,
    {
        DocStore { root: String::from_str(root) }
    }

    pub fn root(&self) -> (r: &str)
        ensures
            r@ == self.root_spec(),
    {
        self.root.as_str()
    }

    pub fn doc_path(&self) -> (r: String)
        ensures
            r@ == push_piece(self.root_spec(), "doc.bin"@),
    {
        join_path(self.root.as_str(), "doc.bin")
    }

    pub fn tmp_path(&self) -> (r: String)
        ensures
            r@ == push_piece(self.root_spec(), "doc.bin.tmp"@),
    {
        join_path(self.root.as_str(), "doc.bin.tmp")
    }
}

/// One label as the snapshot index stores it.
#[derive(Clone, Debug)]
pub struct SnapshotEntry {
    pub label: String,
    /// The label's heads, unpadded base64.
    pub heads: String,
    pub created_at: i64,
}

/// The local cache of the document's labels, `<storage>/snapshots/index.json`.
pub struct SnapshotIndex {
    root: String,
}

impl SnapshotIndex {
    pub closed spec fn root_spec(&self) -> Seq<char> {
        self.root@
    }

    pub fn new(storage_root: &str) -> (r: SnapshotIndex)
        ensures
            r.root_spec() == push_piece(storage_root@, "snapshots"@),
    {
        SnapshotIndex { root: join_path(storage_root, "snapshots") }
    }

    pub fn root(&self) -> (r: &str)
        ensures
            r@ == self.root_spec(),
    {
        self.root.as_str()
    }

    pub fn path(&self) -> (r: String)
        ensures
            r@ == push_piece(self.root_spec(), "index.json"@),
    {
        join_path(self.root.as_str(), "index.json")
    }

    pub fn tmp_path(&self) -> (r: String)
        ensures
            r@ == push_piece(self.root_spec(), ".index.json.tmp"@),
    {
        join_path(self.root.as_str(), ".index.json.tmp")
    }
}

/// The index entries for `labels`, one each, in order: name, heads as
/// unpadded base64, creation time.
pub fn snapshot_entries(labels: &[Label]) -> (r: Vec<SnapshotEntry>)
    ensures
        r@.len() == labels@.len(),
        forall|i: int|
            0 <= i < labels@.len() ==> {
                &&& (#[trigger] r@[i]).label@ == labels@[i].name@
                &&& r@[i].heads@ == b64_encode(heads_bytes(labels@[i].heads@), false)
                &&& r@[i].created_at == labels@[i].created_at
            },
{
    let mut out: Vec<SnapshotEntry> = Vec::new();
    let mut i: usize = 0;
    while i < labels.len()
        invariant
            i <= labels@.len(),
            out@.len() == i,
            forall|k: int|
                0 <= k < i ==> {
                    &&& (#[trigger] out@[k]).label@ == labels@[k].name@
                    &&& out@[k].heads@ == b64_encode(heads_bytes(labels@[k].heads@), false)
                    &&& out@[k].created_at == labels@[k].created_at
                },
        decreases labels@.len() - i,
    {
        let l = &labels[i];
        out.push(
            SnapshotEntry {
                label: l.name.clone(),
                heads: b64_heads(l.heads.as_slice()),
                created_at: l.created_at,
            },
        );
        i = i + 1;
    }
    out
}

} // verus!
