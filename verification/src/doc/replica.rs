//! The replicated document: an Automerge map holding the vault's files,
//! directories and labels. The calls into Automerge are the small trusted
//! items below; reading the library's `DocTree` out of the document,
//! writing a changed tree back and taking peers' sync messages are verified
//! code over them.
//!
//! Layout:
//! ```text
//! root: { schema_version, vault_id,
//!         directories: { <id>: { path, created_at, deleted_at? } },
//!         files:       { <id>: { meta: { path, kind, size, created_at,
//!                                        updated_at, deleted_at? },
//!                               content: Text?, binary_hash? } },
//!         labels:      { <name>: { heads: bytes, created_at } } }
//! ```
//!
//! What a document holds is not modelled: the contracts here say what the
//! code decides for every value the document gives back.

use crate::doc::history::{Change, ChangeHash, LabelTime, LabelValue};
use crate::doc::history::{encode_heads, heads_at_time, list_labels, Label};
use crate::doc::{genesis_actor, kind_name, DirectoryMeta, DocTree, FileEntry, FileKind, FileMeta, SCHEMA_VERSION};
use crate::vault::check_doc_vault_id;
use crate::error::Error;
use crate::text::{chars_eq, chars_of, extend_lit, string_of};
use automerge::sync::SyncDoc;
use automerge::transaction::{CommitOptions, Transactable};
use automerge::{ReadDoc, ScalarValue, Value};
use vstd::prelude::*;

verus! {

#[verifier::external_type_specification]
#[verifier::external_body]
pub struct ExAutoCommit(automerge::AutoCommit);

#[verifier::external_type_specification]
#[verifier::external_body]
pub struct ExObjId(automerge::ObjId);

#[verifier::external_type_specification]
#[verifier::external_body]
pub struct ExSyncState(automerge::sync::State);

#[verifier::external_type_specification]
#[verifier::external_body]
pub struct ExSyncMessage(automerge::sync::Message);

/// A scalar the document holds under a key, as plain values.
#[derive(Clone, Debug)]
pub enum AmScalar {
    Str(String),
    Int(i64),
    Uint(u64),
    Null,
    Bytes(Vec<u8>),
    /// Any other scalar.
    Other,
}

/// Whether `AutoCommit::load` accepts `bytes`.
pub uninterp spec fn doc_loads(bytes: Seq<u8>) -> bool;

/// Whether `sync::Message::decode` accepts `bytes`.
pub uninterp spec fn sync_decodes(bytes: Seq<u8>) -> bool;

/// `AutoCommit::new()`: an empty document.
#[verifier::external_body]
pub(crate) fn am_new() -> (r: automerge::AutoCommit) {
    automerge::AutoCommit::new()
}

/// `AutoCommit::load`, with the error as its text. Whether it succeeds is
/// named: `doc_loads` of the bytes.
#[verifier::external_body]
pub(crate) fn am_load(bytes: &[u8]) -> (r: Result<automerge::AutoCommit, String>)
    ensures
        r is Ok <==> doc_loads(bytes@),
{
    automerge::AutoCommit::load(bytes).map_err(|e| e.to_string())
}

/// `AutoCommit::save`: the document's bytes. Nothing is stated of them.
#[verifier::external_body]
pub(crate) fn am_save(d: &mut automerge::AutoCommit) -> (r: Vec<u8>) {
    d.save()
}

/// `automerge::ROOT`, the root map's id.
#[verifier::external_body]
pub(crate) fn am_root() -> (r: automerge::ObjId) {
    automerge::ROOT
}

/// `set_actor` with the actor id made from `bytes`.
#[verifier::external_body]
pub(crate) fn am_set_actor(d: &mut automerge::AutoCommit, bytes: Vec<u8>) {
    d.set_actor(automerge::ActorId::from(bytes));
}

/// `set_actor` with `ActorId::random()`.
#[verifier::external_body]
pub(crate) fn am_set_random_actor(d: &mut automerge::AutoCommit) {
    d.set_actor(automerge::ActorId::random());
}

/// `ReadDoc::get` of `key` in `obj`, when the value is an object: its id,
/// and whether it is a text object. `None` for a scalar or no value.
#[verifier::external_body]
pub(crate) fn am_get_object(d: &automerge::AutoCommit, obj: &automerge::ObjId, key: &str) -> (r: Result<
    Option<(automerge::ObjId, bool)>,
    String,
>) {
    match d.get(obj, key) {
        Err(e) => Err(e.to_string()),
        Ok(Some((Value::Object(automerge::ObjType::Text), id))) => Ok(Some((id, true))),
        Ok(Some((Value::Object(_), id))) => Ok(Some((id, false))),
        Ok(_) => Ok(None),
    }
}

/// `ReadDoc::get` of `key` in `obj`, when the value is a scalar: the value
/// as plain values, and its debug text. `None` for an object or no value.
#[verifier::external_body]
pub(crate) fn am_get_scalar(d: &automerge::AutoCommit, obj: &automerge::ObjId, key: &str) -> (r: Result<
    Option<(AmScalar, String)>,
    String,
>) {
    match d.get(obj, key) {
        Err(e) => Err(e.to_string()),
        Ok(Some((Value::Scalar(s), _))) => Ok(Some((match s.as_ref() {
            ScalarValue::Str(v) => AmScalar::Str(v.to_string()),
            ScalarValue::Int(v) => AmScalar::Int(*v),
            ScalarValue::Uint(v) => AmScalar::Uint(*v),
            ScalarValue::Null => AmScalar::Null,
            ScalarValue::Bytes(b) => AmScalar::Bytes(b.clone()),
            _ => AmScalar::Other,
        }, format!("{:?}", s.as_ref())))),
        Ok(_) => Ok(None),
    }
}

/// `ReadDoc::keys` of `obj`.
#[verifier::external_body]
pub(crate) fn am_keys(d: &automerge::AutoCommit, obj: &automerge::ObjId) -> (r: Vec<String>) {
    d.keys(obj).collect()
}

/// `ReadDoc::text` of `obj`, with the error as its text.
#[verifier::external_body]
pub(crate) fn am_text(d: &automerge::AutoCommit, obj: &automerge::ObjId) -> (r: Result<String, String>) {
    d.text(obj).map_err(|e| e.to_string())
}

/// `Transactable::put` of a string.
#[verifier::external_body]
pub(crate) fn am_put_str(d: &mut automerge::AutoCommit, obj: &automerge::ObjId, key: &str, v: &str) -> (r: Result<(), String>) {
    d.put(obj, key, v).map_err(|e| e.to_string())
}

/// `Transactable::put` of an integer.
#[verifier::external_body]
pub(crate) fn am_put_int(d: &mut automerge::AutoCommit, obj: &automerge::ObjId, key: &str, v: i64) -> (r: Result<(), String>) {
    d.put(obj, key, v).map_err(|e| e.to_string())
}

/// `Transactable::put` of bytes.
#[verifier::external_body]
pub(crate) fn am_put_bytes(d: &mut automerge::AutoCommit, obj: &automerge::ObjId, key: &str, v: Vec<u8>) -> (r: Result<(), String>) {
    d.put(obj, key, ScalarValue::Bytes(v)).map_err(|e| e.to_string())
}

/// `Transactable::put_object` of a new map.
#[verifier::external_body]
pub(crate) fn am_put_map(d: &mut automerge::AutoCommit, obj: &automerge::ObjId, key: &str) -> (r: Result<
    automerge::ObjId,
    String,
>) {
    d.put_object(obj, key, automerge::ObjType::Map).map_err(|e| e.to_string())
}

/// `Transactable::put_object` of a new text.
#[verifier::external_body]
pub(crate) fn am_put_text(d: &mut automerge::AutoCommit, obj: &automerge::ObjId, key: &str) -> (r: Result<
    automerge::ObjId,
    String,
>) {
    d.put_object(obj, key, automerge::ObjType::Text).map_err(|e| e.to_string())
}

/// `Transactable::delete`.
#[verifier::external_body]
pub(crate) fn am_delete(d: &mut automerge::AutoCommit, obj: &automerge::ObjId, key: &str) -> (r: Result<(), String>) {
    d.delete(obj, key).map_err(|e| e.to_string())
}

/// `Transactable::update_text`.
#[verifier::external_body]
pub(crate) fn am_update_text(d: &mut automerge::AutoCommit, obj: &automerge::ObjId, text: &str) -> (r: Result<(), String>) {
    d.update_text(obj, text).map_err(|e| e.to_string())
}

/// `Transactable::pending_ops`: operations made since the last commit.
#[verifier::external_body]
pub(crate) fn am_pending_ops(d: &automerge::AutoCommit) -> (r: usize) {
    d.pending_ops()
}

/// `commit_with` the time `time`.
#[verifier::external_body]
pub(crate) fn am_commit(d: &mut automerge::AutoCommit, time: i64) {
    d.commit_with(CommitOptions::default().with_time(time));
}

/// `get_heads`, each head as its 32 bytes.
#[verifier::external_body]
pub(crate) fn am_heads(d: &mut automerge::AutoCommit) -> (r: Vec<[u8; 32]>) {
    d.get_heads().iter().map(|h| h.0).collect()
}

/// `fork_at` the heads given as bytes, with the error as its text.
#[verifier::external_body]
pub(crate) fn am_fork_at(d: &mut automerge::AutoCommit, heads: &[[u8; 32]]) -> (r: Result<automerge::AutoCommit, String>) {
    let hashes: Vec<automerge::ChangeHash> = heads.iter().map(|h| automerge::ChangeHash(*h)).collect();
    d.fork_at(&hashes).map_err(|e| e.to_string())
}

/// `get_changes(&[])`: every change, as its hash, time and dependencies.
#[verifier::external_body]
pub(crate) fn am_changes(d: &mut automerge::AutoCommit) -> (r: Vec<Change>) {
    d.get_changes(&[])
        .into_iter()
        .map(|c| Change { hash: c.hash().0, timestamp: c.timestamp(), deps: c.deps().iter().map(|h| h.0).collect() })
        .collect()
}

/// `sync::Message::decode`, with the error as its text. Whether it
/// succeeds is named: `sync_decodes` of the bytes.
#[verifier::external_body]
pub(crate) fn am_decode_sync(bytes: &[u8]) -> (r: Result<automerge::sync::Message, String>)
    ensures
        r is Ok <==> sync_decodes(bytes@),
{
    automerge::sync::Message::decode(bytes).map_err(|e| e.to_string())
}

/// `SyncDoc::receive_sync_message`, with the error as its text.
#[verifier::external_body]
pub(crate) fn am_receive_sync(d: &mut automerge::AutoCommit, state: &mut automerge::sync::State, msg: automerge::sync::Message) -> (r: Result<(), String>) {
    d.sync().receive_sync_message(state, msg).map_err(|e| e.to_string())
}

/// `SyncDoc::generate_sync_message`, encoded.
#[verifier::external_body]
pub(crate) fn am_generate_sync(d: &mut automerge::AutoCommit, state: &mut automerge::sync::State) -> (r: Option<Vec<u8>>) {
    d.sync().generate_sync_message(state).map(|m| m.encode())
}

/// What a read of a string field gives: `None` when the read failed or
/// found another kind of scalar; `Some(None)` when nothing or null is
/// there.
pub open spec fn str_read(v: Result<Option<(AmScalar, String)>, String>) -> Option<Option<Seq<char>>> {
    match v {
        Err(_) => None,
        Ok(None) => Some(None),
        Ok(Some((AmScalar::Str(t), _))) => Some(Some(t@)),
        Ok(Some((AmScalar::Null, _))) => Some(None),
        Ok(Some(_)) => None,
    }
}

/// What a read of an integer field gives, an unsigned value taken as
/// `u64 as i64` does.
pub open spec fn int_read(v: Result<Option<(AmScalar, String)>, String>) -> Option<Option<i64>> {
    match v {
        Err(_) => None,
        Ok(None) => Some(None),
        Ok(Some((AmScalar::Int(i), _))) => Some(Some(i)),
        Ok(Some((AmScalar::Uint(u), _))) => Some(Some(u as i64)),
        Ok(Some((AmScalar::Null, _))) => Some(None),
        Ok(Some(_)) => None,
    }
}

/// A document call's result, its error as the library's.
fn am_result<T>(r: Result<T, String>) -> (o: Result<T, Error>)
    ensures
        match r {
            Ok(v) => o == Ok::<T, Error>(v),
            Err(e) => o == Err::<T, Error>(Error::Automerge(e)),
        },
{
    match r {
        Ok(v) => Ok(v),
        Err(e) => Err(Error::Automerge(e)),
    }
}

fn text3(a: &str, b: &str, c: &str) -> (r: String)
    ensures
        r@ == a@ + b@ + c@,
{
    let mut m: Vec<char> = Vec::new();
    extend_lit(&mut m, a);
    extend_lit(&mut m, b);
    extend_lit(&mut m, c);
    string_of(m.as_slice())
}

/// The string field `key` from what a read of it gave: the document's
/// error, the string, nothing for no value or null, and an error naming
/// the key and the value for another scalar.
pub fn str_field(key: &str, v: Result<Option<(AmScalar, String)>, String>) -> (r: Result<Option<String>, Error>)
    ensures
        match v {
            Err(e) => r == Err::<Option<String>, Error>(Error::Automerge(e)),
            Ok(Some((AmScalar::Str(t), _))) => r == Ok::<Option<String>, Error>(Some(t)),
            Ok(Some((AmScalar::Null, _))) => r == Ok::<Option<String>, Error>(None),
            Ok(None) => r == Ok::<Option<String>, Error>(None),
            Ok(Some((_, dbg))) => r matches Err(Error::Other(m)) && m@ == "expected string at "@ + key@ + ", got "@
                + dbg@,
        },
        str_read(v) matches Some(x) ==> (r matches Ok(y) && x == match y {
            Some(t) => Some(t@),
            None => None::<Seq<char>>,
        }),
        str_read(v) is None ==> r is Err,
{
    match v {
        Err(e) => Err(Error::Automerge(e)),
        Ok(None) => Ok(None),
        Ok(Some((AmScalar::Str(t), _))) => Ok(Some(t)),
        Ok(Some((AmScalar::Null, _))) => Ok(None),
        Ok(Some((_, dbg))) => {
            let mut m: Vec<char> = Vec::new();
            extend_lit(&mut m, "expected string at ");
            extend_lit(&mut m, key);
            extend_lit(&mut m, ", got ");
            extend_lit(&mut m, dbg.as_str());
            Err(Error::Other(string_of(m.as_slice())))
        },
    }
}

/// The integer field `key` from what a read of it gave: the document's
/// error, the integer (an unsigned one as `u64 as i64`), nothing for no
/// value or null, and an error naming the key and the value otherwise.
pub fn int_field(key: &str, v: Result<Option<(AmScalar, String)>, String>) -> (r: Result<Option<i64>, Error>)
    ensures
        match v {
            Err(e) => r == Err::<Option<i64>, Error>(Error::Automerge(e)),
            Ok(Some((AmScalar::Int(_), _))) | Ok(Some((AmScalar::Uint(_), _))) | Ok(Some((AmScalar::Null, _)))
            | Ok(None) => r == Ok::<Option<i64>, Error>(int_read(v)->0),
            Ok(Some((_, dbg))) => r matches Err(Error::Other(m)) && m@ == "expected int at "@ + key@ + ", got "@
                + dbg@,
        },
        int_read(v) matches Some(x) ==> r == Ok::<Option<i64>, Error>(x),
        int_read(v) is None ==> r is Err,
{
    match v {
        Err(e) => Err(Error::Automerge(e)),
        Ok(None) => Ok(None),
        Ok(Some((AmScalar::Int(i), _))) => Ok(Some(i)),
        Ok(Some((AmScalar::Uint(u), _))) => Ok(Some(u as i64)),
        Ok(Some((AmScalar::Null, _))) => Ok(None),
        Ok(Some((_, dbg))) => {
            let mut m: Vec<char> = Vec::new();
            extend_lit(&mut m, "expected int at ");
            extend_lit(&mut m, key);
            extend_lit(&mut m, ", got ");
            extend_lit(&mut m, dbg.as_str());
            Err(Error::Other(string_of(m.as_slice())))
        },
    }
}

/// The map `key` of the root: the schema's `files`, `directories` or
/// `labels`.
fn root_map(d: &automerge::AutoCommit, key: &str) -> (r: Result<automerge::ObjId, Error>)
    ensures
        r matches Err(e) ==> e is Automerge || e is Other,
{
    let root = am_root();
    match am_get_object(d, &root, key) {
        Err(e) => Err(Error::Automerge(e)),
        Ok(Some((id, _))) => Ok(id),
        Ok(None) => Err(Error::Other(text3("schema missing root.", key, ""))),
    }
}

/// The object at `key` in `obj`, if there is one.
fn get_object(d: &automerge::AutoCommit, obj: &automerge::ObjId, key: &str) -> (r: Result<Option<automerge::ObjId>, Error>)
    ensures
        r matches Err(e) ==> e is Automerge,
{
    match am_get_object(d, obj, key) {
        Err(e) => Err(Error::Automerge(e)),
        Ok(Some((id, _))) => Ok(Some(id)),
        Ok(None) => Ok(None),
    }
}

/// The text at `key` in `obj`, if a text object is there.
fn get_text(d: &automerge::AutoCommit, obj: &automerge::ObjId, key: &str) -> (r: Result<Option<String>, Error>)
    ensures
        r matches Err(e) ==> e is Automerge,
{
    match am_get_object(d, obj, key) {
        Err(e) => Err(Error::Automerge(e)),
        Ok(Some((id, true))) => match am_text(d, &id) {
            Ok(t) => Ok(Some(t)),
            Err(e) => Err(Error::Automerge(e)),
        },
        Ok(_) => Ok(None),
    }
}

/// The file entry `id` from the reads of its fields: its path and kind
/// must be there and the kind named `text` or `attachment`; a missing
/// size or creation time is 0, a missing update time is the creation
/// time.
pub fn file_entry_from(
    id: String,
    path: Result<Option<(AmScalar, String)>, String>,
    kind: Result<Option<(AmScalar, String)>, String>,
    created: Result<Option<(AmScalar, String)>, String>,
    content: Result<Option<String>, Error>,
    size: Result<Option<(AmScalar, String)>, String>,
    updated: Result<Option<(AmScalar, String)>, String>,
    deleted: Result<Option<(AmScalar, String)>, String>,
    hash: Result<Option<(AmScalar, String)>, String>,
) -> (r: Result<FileEntry, Error>)
    ensures
        r is Ok <==> ({
            &&& str_read(path) matches Some(Some(_))
            &&& str_read(kind) matches Some(Some(k)) && (k == "text"@ || k == "attachment"@)
            &&& int_read(created) is Some
            &&& content is Ok
            &&& int_read(size) is Some
            &&& int_read(updated) is Some
            &&& int_read(deleted) is Some
            &&& str_read(hash) is Some
        }),
        r matches Ok(f) ==> ({
            let c = match int_read(created)->0 {
                Some(c) => c,
                None => 0,
            };
            &&& f.meta.id == id
            &&& str_read(path) == Some(Some(f.meta.path@))
            &&& str_read(kind) == Some(Some(kind_name(f.meta.kind)))
            &&& f.meta.created_at == c
            &&& f.meta.size == match int_read(size)->0 {
                Some(x) => x,
                None => 0,
            }
            &&& f.meta.updated_at == match int_read(updated)->0 {
                Some(x) => x,
                None => c,
            }
            &&& int_read(deleted) == Some(f.meta.deleted_at)
            &&& str_read(hash) == Some(match f.meta.binary_hash {
                Some(h) => Some(h@),
                None => None::<Seq<char>>,
            })
            &&& content == Ok::<Option<String>, Error>(f.content)
        }),
{
    let p = match str_field("path", path)? {
        Some(p) => p,
        None => {
            return Err(Error::Other(text3("file ", id.as_str(), " missing path")));
        },
    };
    let k = match str_field("kind", kind)? {
        Some(k) => k,
        None => {
            return Err(Error::Other(text3("file ", id.as_str(), " missing kind")));
        },
    };
    let fk = FileKind::parse(k.as_str())?;
    proof {
        reveal_strlit("text");
        reveal_strlit("attachment");
    }
    let created_at = match int_field("created_at", created)? {
        Some(c) => c,
        None => 0,
    };
    let text = content?;
    let sz = match int_field("size", size)? {
        Some(x) => x,
        None => 0,
    };
    let up = match int_field("updated_at", updated)? {
        Some(x) => x,
        None => created_at,
    };
    let del = int_field("deleted_at", deleted)?;
    let bh = str_field("binary_hash", hash)?;
    Ok(
        FileEntry {
            meta: FileMeta {
                id,
                path: p,
                kind: fk,
                size: sz,
                created_at,
                updated_at: up,
                deleted_at: del,
                binary_hash: bh,
            },
            content: text,
        },
    )
}

/// The directory entry `id` from the reads of its fields, or `None` when
/// it has no path; a missing creation time is 0.
pub fn dir_entry_from(
    id: String,
    path: Result<Option<(AmScalar, String)>, String>,
    created: Result<Option<(AmScalar, String)>, String>,
    deleted: Result<Option<(AmScalar, String)>, String>,
) -> (r: Result<Option<DirectoryMeta>, Error>)
    ensures
        r is Ok <==> (str_read(path) matches Some(p) && (p is Some ==> int_read(created) is Some && int_read(
            deleted,
        ) is Some)),
        r matches Ok(None) ==> str_read(path) == Some(None::<Seq<char>>),
        r matches Ok(Some(m)) ==> ({
            &&& m.id == id
            &&& str_read(path) == Some(Some(m.path@))
            &&& m.created_at == match int_read(created)->0 {
                Some(x) => x,
                None => 0,
            }
            &&& int_read(deleted) == Some(m.deleted_at)
        }),
{
    let p = match str_field("path", path)? {
        Some(p) => p,
        None => {
            return Ok(None);
        },
    };
    let c = match int_field("created_at", created)? {
        Some(x) => x,
        None => 0,
    };
    let del = int_field("deleted_at", deleted)?;
    Ok(Some(DirectoryMeta { id, path: p, created_at: c, deleted_at: del }))
}

/// The files and directories the document holds, in the order of their
/// ids: a file entry without a `meta` map, and a directory without a path,
/// are passed over.
pub fn read_tree(d: &automerge::AutoCommit) -> (r: Result<DocTree, Error>) {
    let files = root_map(d, "files")?;
    let dirs = root_map(d, "directories")?;
    let mut tree = DocTree::new();
    let ids = am_keys(d, &files);
    let mut i: usize = 0;
    while i < ids.len()
        decreases ids@.len() - i,
    {
        let fid = ids[i].clone();
        i = i + 1;
        let entry = match get_object(d, &files, fid.as_str())? {
            Some(e) => e,
            None => {
                continue;
            },
        };
        let meta = match get_object(d, &entry, "meta")? {
            Some(m) => m,
            None => {
                continue;
            },
        };
        let path = am_get_scalar(d, &meta, "path");
        let kind = am_get_scalar(d, &meta, "kind");
        let created = am_get_scalar(d, &meta, "created_at");
        let content = get_text(d, &entry, "content");
        let size = am_get_scalar(d, &meta, "size");
        let updated = am_get_scalar(d, &meta, "updated_at");
        let deleted = am_get_scalar(d, &meta, "deleted_at");
        let hash = am_get_scalar(d, &entry, "binary_hash");
        let f = file_entry_from(fid, path, kind, created, content, size, updated, deleted, hash)?;
        tree.files.push(f);
    }
    let dids = am_keys(d, &dirs);
    let mut j: usize = 0;
    while j < dids.len()
        decreases dids@.len() - j,
    {
        let did = dids[j].clone();
        j = j + 1;
        let meta = match get_object(d, &dirs, did.as_str())? {
            Some(m) => m,
            None => {
                continue;
            },
        };
        let path = am_get_scalar(d, &meta, "path");
        let created = am_get_scalar(d, &meta, "created_at");
        let deleted = am_get_scalar(d, &meta, "deleted_at");
        if let Some(m) = dir_entry_from(did, path, created, deleted)? {
            tree.dirs.push(m);
        }
    }
    Ok(tree)
}

/// The optional texts are equal.
pub open spec fn opt_text_eq(a: Option<String>, b: Option<String>) -> bool {
    match (a, b) {
        (Some(x), Some(y)) => x@ == y@,
        (None, None) => true,
        _ => false,
    }
}

fn opt_str_eq(a: &Option<String>, b: &Option<String>) -> (r: bool)
    ensures
        r == opt_text_eq(*a, *b),
{
    match (a, b) {
        (Some(x), Some(y)) => chars_eq(&chars_of(x.as_str()), &chars_of(y.as_str())),
        (None, None) => true,
        _ => false,
    }
}

fn opt_int_eq(a: Option<i64>, b: Option<i64>) -> (r: bool)
    ensures
        r == (a == b),
{
    match (a, b) {
        (Some(x), Some(y)) => x == y,
        (None, None) => true,
        _ => false,
    }
}

/// Which fields of a file entry are written to the document: all of them
/// for a new entry, else those that differ from the entry read before.
pub struct FileChanges {
    pub path: bool,
    pub kind: bool,
    pub size: bool,
    pub created_at: bool,
    pub updated_at: bool,
    pub deleted_at: bool,
    pub binary_hash: bool,
    pub content: bool,
}

impl FileChanges {
    pub open spec fn any(self) -> bool {
        self.path || self.kind || self.size || self.created_at || self.updated_at || self.deleted_at
            || self.binary_hash || self.content
    }
}

/// The fields of `f` to write, given the entry with its id read before.
pub fn file_changes(prev: Option<&FileEntry>, f: &FileEntry) -> (r: FileChanges)
    ensures
        match prev {
            None => r.path && r.kind && r.size && r.created_at && r.updated_at && r.deleted_at && r.binary_hash
                && r.content,
            Some(p) => {
                &&& r.path == (p.meta.path@ != f.meta.path@)
                &&& r.kind == (p.meta.kind != f.meta.kind)
                &&& r.size == (p.meta.size != f.meta.size)
                &&& r.created_at == (p.meta.created_at != f.meta.created_at)
                &&& r.updated_at == (p.meta.updated_at != f.meta.updated_at)
                &&& r.deleted_at == (p.meta.deleted_at != f.meta.deleted_at)
                &&& r.binary_hash == !opt_text_eq(p.meta.binary_hash, f.meta.binary_hash)
                &&& r.content == !opt_text_eq(p.content, f.content)
            },
        },
{
    match prev {
        None => FileChanges {
            path: true,
            kind: true,
            size: true,
            created_at: true,
            updated_at: true,
            deleted_at: true,
            binary_hash: true,
            content: true,
        },
        Some(p) => FileChanges {
            path: !(p.meta.path == f.meta.path),
            kind: p.meta.kind != f.meta.kind,
            size: p.meta.size != f.meta.size,
            created_at: p.meta.created_at != f.meta.created_at,
            updated_at: p.meta.updated_at != f.meta.updated_at,
            deleted_at: !opt_int_eq(p.meta.deleted_at, f.meta.deleted_at),
            binary_hash: !opt_str_eq(&p.meta.binary_hash, &f.meta.binary_hash),
            content: !opt_str_eq(&p.content, &f.content),
        },
    }
}

/// Which fields of a directory entry are written.
pub struct DirChanges {
    pub path: bool,
    pub created_at: bool,
    pub deleted_at: bool,
}

/// The fields of `d` to write, given the entry with its id read before.
pub fn dir_changes(prev: Option<&DirectoryMeta>, d: &DirectoryMeta) -> (r: DirChanges)
    ensures
        match prev {
            None => r.path && r.created_at && r.deleted_at,
            Some(p) => r.path == (p.path@ != d.path@) && r.created_at == (p.created_at != d.created_at)
                && r.deleted_at == (p.deleted_at != d.deleted_at),
        },
{
    match prev {
        None => DirChanges { path: true, created_at: true, deleted_at: true },
        Some(p) => DirChanges {
            path: !(p.path == d.path),
            created_at: p.created_at != d.created_at,
            deleted_at: !opt_int_eq(p.deleted_at, d.deleted_at),
        },
    }
}

/// The index of the first file entry with id `id`, if any.
pub fn file_with_id(files: &Vec<FileEntry>, id: &String) -> (r: Option<usize>)
    ensures
        match r {
            Some(i) => i < files@.len() && files@[i as int].meta.id@ == id@ && forall|k: int|
                0 <= k < i ==> (#[trigger] files@[k]).meta.id@ != id@,
            None => forall|k: int| 0 <= k < files@.len() ==> (#[trigger] files@[k]).meta.id@ != id@,
        },
{
    let mut i: usize = 0;
    while i < files.len()
        invariant
            i <= files@.len(),
            forall|k: int| 0 <= k < i ==> (#[trigger] files@[k]).meta.id@ != id@,
        decreases files@.len() - i,
    {
        if files[i].meta.id == *id {
            return Some(i);
        }
        i = i + 1;
    }
    None
}

/// The index of the first directory entry with id `id`, if any.
pub fn dir_with_id(dirs: &Vec<DirectoryMeta>, id: &String) -> (r: Option<usize>)
    ensures
        match r {
            Some(i) => i < dirs@.len() && dirs@[i as int].id@ == id@ && forall|k: int|
                0 <= k < i ==> (#[trigger] dirs@[k]).id@ != id@,
            None => forall|k: int| 0 <= k < dirs@.len() ==> (#[trigger] dirs@[k]).id@ != id@,
        },
{
    let mut i: usize = 0;
    while i < dirs.len()
        invariant
            i <= dirs@.len(),
            forall|k: int| 0 <= k < i ==> (#[trigger] dirs@[k]).id@ != id@,
        decreases dirs@.len() - i,
    {
        if dirs[i].id == *id {
            return Some(i);
        }
        i = i + 1;
    }
    None
}

fn put_opt_int(d: &mut automerge::AutoCommit, obj: &automerge::ObjId, key: &str, v: Option<i64>) -> (r: Result<(), Error>) {
    match v {
        Some(x) => match am_put_int(d, obj, key, x) {
            Ok(()) => Ok(()),
            Err(e) => Err(Error::Automerge(e)),
        },
        None => clear_key(d, obj, key),
    }
}

fn put_opt_str(d: &mut automerge::AutoCommit, obj: &automerge::ObjId, key: &str, v: &Option<String>) -> (r: Result<(), Error>) {
    match v {
        Some(x) => am_result(am_put_str(d, obj, key, x.as_str())),
        None => clear_key(d, obj, key),
    }
}

/// Deletes `key` from `obj` when something is there.
fn clear_key(d: &mut automerge::AutoCommit, obj: &automerge::ObjId, key: &str) -> (r: Result<(), Error>) {
    let there = match am_get_object(d, obj, key) {
        Err(e) => {
            return Err(Error::Automerge(e));
        },
        Ok(Some(_)) => true,
        Ok(None) => match am_get_scalar(d, obj, key) {
            Err(e) => {
                return Err(Error::Automerge(e));
            },
            Ok(x) => x.is_some(),
        },
    };
    if there {
        if let Err(e) = am_delete(d, obj, key) {
            return Err(Error::Automerge(e));
        }
    }
    Ok(())
}

fn object_or_new_map(d: &mut automerge::AutoCommit, obj: &automerge::ObjId, key: &str) -> (r: Result<automerge::ObjId, Error>) {
    match get_object(d, obj, key)? {
        Some(o) => Ok(o),
        None => am_result(am_put_map(d, obj, key)),
    }
}

fn write_file(d: &mut automerge::AutoCommit, files: &automerge::ObjId, prev: Option<&FileEntry>, f: &FileEntry) -> (r: Result<(), Error>) {
    let entry = object_or_new_map(d, files, f.meta.id.as_str())?;
    let meta = object_or_new_map(d, &entry, "meta")?;
    let c = file_changes(prev, f);
    if c.path {
        am_result(am_put_str(d, &meta, "path", f.meta.path.as_str()))?;
    }
    if c.kind {
        am_result(am_put_str(d, &meta, "kind", f.meta.kind.as_str()))?;
    }
    if c.size {
        am_result(am_put_int(d, &meta, "size", f.meta.size))?;
    }
    if c.created_at {
        am_result(am_put_int(d, &meta, "created_at", f.meta.created_at))?;
    }
    if c.updated_at {
        am_result(am_put_int(d, &meta, "updated_at", f.meta.updated_at))?;
    }
    if c.deleted_at {
        put_opt_int(d, &meta, "deleted_at", f.meta.deleted_at)?;
    }
    if c.binary_hash {
        put_opt_str(d, &entry, "binary_hash", &f.meta.binary_hash)?;
    }
    if c.content {
        match &f.content {
            Some(text) => {
                let existing = match am_get_object(d, &entry, "content") {
                    Err(e) => {
                        return Err(Error::Automerge(e));
                    },
                    Ok(Some((id, true))) => Some(id),
                    Ok(_) => None,
                };
                let text_id = match existing {
                    Some(id) => id,
                    None => am_result(am_put_text(d, &entry, "content"))?,
                };
                am_result(am_update_text(d, &text_id, text.as_str()))?;
            },
            None => {
                clear_key(d, &entry, "content")?;
            },
        }
    }
    Ok(())
}

fn write_dir(d: &mut automerge::AutoCommit, dirs: &automerge::ObjId, prev: Option<&DirectoryMeta>, m: &DirectoryMeta) -> (r: Result<(), Error>) {
    let meta = object_or_new_map(d, dirs, m.id.as_str())?;
    let c = dir_changes(prev, m);
    if c.path {
        am_result(am_put_str(d, &meta, "path", m.path.as_str()))?;
    }
    if c.created_at {
        am_result(am_put_int(d, &meta, "created_at", m.created_at))?;
    }
    if c.deleted_at {
        put_opt_int(d, &meta, "deleted_at", m.deleted_at)?;
    }
    Ok(())
}

/// Writes the entries of `after` that differ from those of `before` (what
/// [`read_tree`] gave) into the document, as one change stamped `now`.
/// Returns whether anything was written. An entry is matched with the
/// first entry of `before` that has its id; one equal to it is left alone.
pub fn write_tree(d: &mut automerge::AutoCommit, before: &DocTree, after: &DocTree, now: i64) -> (r: Result<
    bool,
    Error,
>) {
    let files = root_map(d, "files")?;
    let dirs = root_map(d, "directories")?;
    let mut i: usize = 0;
    while i < after.files.len()
        decreases after.files@.len() - i,
    {
        let f = &after.files[i];
        let prev = match file_with_id(&before.files, &f.meta.id) {
            Some(k) => Some(&before.files[k]),
            None => None,
        };
        let c = file_changes(prev, f);
        if c.path || c.kind || c.size || c.created_at || c.updated_at || c.deleted_at || c.binary_hash
            || c.content {
            write_file(d, &files, prev, f)?;
        }
        i = i + 1;
    }
    let mut j: usize = 0;
    while j < after.dirs.len()
        decreases after.dirs@.len() - j,
    {
        let m = &after.dirs[j];
        let prev = match dir_with_id(&before.dirs, &m.id) {
            Some(k) => Some(&before.dirs[k]),
            None => None,
        };
        let c = dir_changes(prev, m);
        if c.path || c.created_at || c.deleted_at {
            write_dir(d, &dirs, prev, m)?;
        }
        j = j + 1;
    }
    let changed = am_pending_ops(d) > 0;
    if changed {
        am_commit(d, now);
    }
    Ok(changed)
}

/// A fresh vault document for `vault_id`. The schema change is made with
/// an actor and a time (0) that depend on the vault id alone, so every peer
/// makes the same change; later changes get a random actor.
pub fn new_doc(vault_id: &str) -> (r: Result<automerge::AutoCommit, Error>)
    ensures
        r matches Err(e) ==> e is Automerge,
{
    let mut d = am_new();
    am_set_actor(&mut d, genesis_actor(vault_id));
    let root = am_root();
    am_result(am_put_int(&mut d, &root, "schema_version", SCHEMA_VERSION))?;
    am_result(am_put_str(&mut d, &root, "vault_id", vault_id))?;
    am_result(am_put_map(&mut d, &root, "directories"))?;
    am_result(am_put_map(&mut d, &root, "files"))?;
    am_result(am_put_map(&mut d, &root, "labels"))?;
    am_commit(&mut d, 0);
    am_set_random_actor(&mut d);
    Ok(d)
}

/// The vault id the document names, from the read of its root field: an
/// error when there is none or it is not a string.
pub fn vault_id_from(v: Result<Option<(AmScalar, String)>, String>) -> (r: Result<String, Error>)
    ensures
        match v {
            Err(e) => r == Err::<String, Error>(Error::Automerge(e)),
            Ok(Some((AmScalar::Str(t), _))) => r == Ok::<String, Error>(t),
            Ok(Some((_, dbg))) => r matches Err(Error::Other(m)) && m@ == "vault_id is not a string: "@ + dbg@,
            Ok(None) => r matches Err(Error::Other(m)) && m@ == "vault_id missing"@,
        },
{
    match v {
        Err(e) => Err(Error::Automerge(e)),
        Ok(Some((AmScalar::Str(t), _))) => Ok(t),
        Ok(Some((_, dbg))) => {
            proof {
                reveal_strlit("");
                assert("vault_id is not a string: "@ + dbg@ + ""@ =~= "vault_id is not a string: "@ + dbg@);
            }
            Err(Error::Other(text3("vault_id is not a string: ", dbg.as_str(), "")))
        },
        Ok(None) => Err(Error::Other(String::from_str("vault_id missing"))),
    }
}

/// The vault id the document names.
pub fn vault_id_of(d: &automerge::AutoCommit) -> (r: Result<String, Error>)
    ensures
        r matches Err(e) ==> e is Automerge || e is Other,
{
    let root = am_root();
    vault_id_from(am_get_scalar(d, &root, "vault_id"))
}

/// Opens the stored document `bytes` as vault `vault_id`: bytes Automerge
/// does not load are refused; a document naming another vault is refused
/// as [`check_doc_vault_id`] says (one naming none is taken); then its tree
/// is read.
pub fn open_doc(bytes: &[u8], vault_id: &str) -> (r: Result<(automerge::AutoCommit, DocTree), Error>)
    ensures
        !doc_loads(bytes@) ==> r matches Err(Error::Automerge(_)),
        r is Ok ==> doc_loads(bytes@),
{
    let d = match am_load(bytes) {
        Ok(d) => d,
        Err(e) => {
            return Err(Error::Automerge(e));
        },
    };
    let stored = vault_id_of(&d);
    match &stored {
        Ok(s) => check_doc_vault_id(Some(s.as_str()), vault_id)?,
        Err(_) => check_doc_vault_id(None, vault_id)?,
    }
    let t = read_tree(&d)?;
    Ok((d, t))
}

/// The tree as the document held it at `heads`.
pub fn tree_at(d: &mut automerge::AutoCommit, heads: &[ChangeHash]) -> (r: Result<DocTree, Error>) {
    let past = match am_fork_at(d, heads) {
        Ok(p) => p,
        Err(e) => {
            return Err(Error::Automerge(e));
        },
    };
    read_tree(&past)
}

/// The heads in force at `target_ms`, from the document's changes.
pub fn heads_at(d: &mut automerge::AutoCommit, target_ms: i64) -> (r: Vec<ChangeHash>)
    ensures
        r@.no_duplicates(),
{
    let changes = am_changes(d);
    heads_at_time(changes.as_slice(), target_ms)
}

/// Takes a peer's sync message: bytes that do not decode are refused as a
/// protocol error; a message the document refuses gives its error.
pub fn receive_sync(d: &mut automerge::AutoCommit, state: &mut automerge::sync::State, bytes: &[u8]) -> (r: Result<
    (),
    Error,
>)
    ensures
        !sync_decodes(bytes@) ==> (r matches Err(Error::Protocol(m)) && m@.len() >= 13 && m@.subrange(0, 13)
            == "sync decode: "@),
        sync_decodes(bytes@) ==> (r is Ok || r matches Err(Error::Automerge(_))),
{
    let msg = match am_decode_sync(bytes) {
        Ok(m) => m,
        Err(e) => {
            let m = text3("sync decode: ", e.as_str(), "");
            proof {
                reveal_strlit("sync decode: ");
                assert(m@.subrange(0, 13) =~= "sync decode: "@);
            }
            return Err(Error::Protocol(m));
        },
    };
    match am_receive_sync(d, state, msg) {
        Ok(()) => Ok(()),
        Err(e) => Err(Error::Automerge(e)),
    }
}

/// What the document holds under label `name`, from the reads of it: a
/// map (with the `heads` and `created_at` reads), or a scalar.
pub fn label_value_from(
    object: bool,
    heads: Result<Option<(AmScalar, String)>, String>,
    created: Result<Option<(AmScalar, String)>, String>,
    scalar: Result<Option<(AmScalar, String)>, String>,
) -> (r: Result<LabelValue, Error>)
    ensures
        object ==> (match (heads, created) {
            (Err(e), _) => r == Err::<LabelValue, Error>(Error::Automerge(e)),
            (_, Err(e)) => r == Err::<LabelValue, Error>(Error::Automerge(e)),
            (Ok(h), Ok(c)) => r matches Ok(LabelValue::Record { heads: rh, created_at: rc }) && rh == match h {
                Some((AmScalar::Bytes(b), _)) => Some(b),
                _ => None::<Vec<u8>>,
            } && rc == match c {
                Some((AmScalar::Int(i), _)) => LabelTime::At(i),
                Some((AmScalar::Uint(u), _)) => LabelTime::At(u as i64),
                Some((AmScalar::Null, _)) => LabelTime::Missing,
                Some(_) => LabelTime::WrongType,
                None => LabelTime::Missing,
            },
        }),
        !object ==> (match scalar {
            Err(e) => r == Err::<LabelValue, Error>(Error::Automerge(e)),
            Ok(Some((AmScalar::Bytes(b), _))) => r matches Ok(LabelValue::Legacy(lb)) && lb == b,
            Ok(_) => r matches Ok(LabelValue::Other),
        }),
{
    if object {
        let h = match heads {
            Err(e) => {
                return Err(Error::Automerge(e));
            },
            Ok(h) => h,
        };
        let c = match created {
            Err(e) => {
                return Err(Error::Automerge(e));
            },
            Ok(c) => c,
        };
        let hb = match h {
            Some((AmScalar::Bytes(b), _)) => Some(b),
            _ => None,
        };
        let t = match c {
            Some((AmScalar::Int(i), _)) => LabelTime::At(i),
            Some((AmScalar::Uint(u), _)) => LabelTime::At(u as i64),
            Some((AmScalar::Null, _)) => LabelTime::Missing,
            Some(_) => LabelTime::WrongType,
            None => LabelTime::Missing,
        };
        Ok(LabelValue::Record { heads: hb, created_at: t })
    } else {
        match scalar {
            Err(e) => Err(Error::Automerge(e)),
            Ok(Some((AmScalar::Bytes(b), _))) => Ok(LabelValue::Legacy(b)),
            Ok(_) => Ok(LabelValue::Other),
        }
    }
}

/// What the document holds under each label name.
pub fn label_entries(d: &automerge::AutoCommit) -> (r: Result<Vec<(String, LabelValue)>, Error>) {
    let labels = root_map(d, "labels")?;
    let names = am_keys(d, &labels);
    let mut out: Vec<(String, LabelValue)> = Vec::new();
    let mut i: usize = 0;
    while i < names.len()
        decreases names@.len() - i,
    {
        let name = names[i].clone();
        i = i + 1;
        let v = match am_get_object(d, &labels, name.as_str()) {
            Err(e) => {
                return Err(Error::Automerge(e));
            },
            Ok(Some((id, _))) => label_value_from(
                true,
                am_get_scalar(d, &id, "heads"),
                am_get_scalar(d, &id, "created_at"),
                Ok(None),
            )?,
            Ok(None) => label_value_from(false, Ok(None), Ok(None), am_get_scalar(d, &labels, name.as_str()))?,
        };
        out.push((name, v));
    }
    Ok(out)
}

/// The document's labels, as [`list_labels`] reads them.
pub fn doc_labels(d: &automerge::AutoCommit) -> (r: Result<Vec<Label>, Error>) {
    let entries = label_entries(d)?;
    list_labels(entries.as_slice())
}

/// Records label `name` at the document's current heads, stamped `now`.
pub fn create_label(d: &mut automerge::AutoCommit, name: &str, now: i64) -> (r: Result<(), Error>) {
    let labels = root_map(d, "labels")?;
    let heads = am_heads(d);
    let encoded = encode_heads(heads.as_slice());
    let entry = am_result(am_put_map(d, &labels, name))?;
    am_result(am_put_bytes(d, &entry, "heads", encoded))?;
    am_result(am_put_int(d, &entry, "created_at", now))?;
    am_commit(d, now);
    Ok(())
}

/// Removes label `name`, stamped `now`.
pub fn delete_label(d: &mut automerge::AutoCommit, name: &str, now: i64) -> (r: Result<(), Error>) {
    let labels = root_map(d, "labels")?;
    am_result(am_delete(d, &labels, name))?;
    am_commit(d, now);
    Ok(())
}

/// The sync message to send the peer whose state is `state`, encoded;
/// `None` when there is nothing to send.
pub fn sync_message_for(d: &mut automerge::AutoCommit, state: &mut automerge::sync::State) -> (r: Option<Vec<u8>>) {
    am_generate_sync(d, state)
}

} // verus!
