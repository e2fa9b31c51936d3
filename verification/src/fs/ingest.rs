//! Turning what is on disk into document changes: which change a watcher
//! event or a file's bytes call for.

use crate::constants::AUTHORIZED_KEYS_FILE;
use crate::codec::{hex_lower, sha256};
use crate::doc::{content_hash, first_dir, first_file, DocTree};
use crate::fs::adapter::FsEvent;
use crate::fs::binding::{
    authorized_keys_name, dir_path_allowed_spec, file_name_spec, is_text_extension_spec,
    path_allowed_spec, vault_path_candidate, Binding,
};
use crate::fs::suppression::{consume_hit, consume_spec, DirtySet};
use crate::fs::sync_ignore::{is_syncignore, sync_ignore_name};
use crate::identity::utf8_text;
use crate::path::{normalize_ok, normalize_spec};
use crate::text::{chars_of, eq_lit};
use vstd::prelude::*;
use vstd::utf8::{decode_utf8, valid_utf8};

verus! {

/// Whether the event concerns a `.syncignore` file, so the ignore rules
/// must be rebuilt.
pub fn touches_syncignore(event: &FsEvent) -> (r: bool)
    ensures
        r == match event {
            FsEvent::Touched(p) => file_name_spec(p@) == Some(sync_ignore_name()),
            FsEvent::Removed(p) => file_name_spec(p@) == Some(sync_ignore_name()),
            FsEvent::Renamed { from, to } => file_name_spec(from@) == Some(sync_ignore_name())
                || file_name_spec(to@) == Some(sync_ignore_name()),
        },
{
    match event {
        FsEvent::Touched(p) => is_syncignore(p.as_str()),
        FsEvent::Removed(p) => is_syncignore(p.as_str()),
        FsEvent::Renamed { from, to } => is_syncignore(from.as_str()) || is_syncignore(to.as_str()),
    }
}

/// Whether an empty read should be tried again after a pause: the file
/// reads empty while the document still holds text for it, the mark of an
/// editor caught between truncating and writing.
pub fn should_reread(bytes_len: usize, doc_text: Option<&str>) -> (r: bool)
    ensures
        r == (bytes_len == 0 && match doc_text {
            Some(t) => t@.len() > 0,
            None => false,
        }),
{
    bytes_len == 0 && match doc_text {
        Some(t) => !t.is_empty(),
        None => false,
    }
}

/// What to do with the bytes read for a vault path.
pub enum IngestStep {
    /// Nothing: too large, or an echo of our own write.
    Skip,
    /// The document already holds this text; remember the hash as
    /// materialized and ingested.
    Record { hash: String },
    /// Write this text to the document and remember the hash.
    WriteText { text: String, hash: String },
    /// Store the bytes as a blob, record the attachment, remember the hash.
    WriteAttachment { hash: String },
}

/// The step for `bytes` read at `vault_path`, given the document's text
/// for it (if any). An oversize file is skipped; a file whose hash matches
/// a recent write of ours is skipped and that mark used up; a text file
/// that is valid UTF-8 is written as text unless the document already
/// holds exactly that text; anything else becomes an attachment.
pub fn plan_ingest(
    binding: &Binding,
    dirty: &mut DirtySet,
    vault_path: &str,
    bytes: &[u8],
    doc_text: Option<&str>,
    now: i64,
) -> (r: IngestStep)
    ensures
        ({
            let opts = binding.opts_spec();
            let over = if is_text_extension_spec(opts, vault_path@) {
                bytes@.len() > opts.text_file_max_bytes
            } else {
                bytes@.len() > opts.attachment_max_bytes
            };
            let h = hex_lower(sha256(bytes@));
            if over {
                r is Skip && final(dirty)@ == old(dirty)@
            } else if consume_hit(old(dirty)@, vault_path@, h, now) {
                r is Skip && final(dirty)@ == consume_spec(old(dirty)@, vault_path@, h, now)
            } else {
                &&& final(dirty)@ == consume_spec(old(dirty)@, vault_path@, h, now)
                &&& if is_text_extension_spec(opts, vault_path@) && valid_utf8(bytes@) {
                    let text = decode_utf8(bytes@);
                    if (match doc_text {
                        Some(t) => t@ == text,
                        None => false,
                    }) {
                        r matches IngestStep::Record { hash } && hash@ == h
                    } else {
                        r matches IngestStep::WriteText { text: t, hash } && t@ == text && hash@ == h
                    }
                } else {
                    r matches IngestStep::WriteAttachment { hash } && hash@ == h
                }
            }
        }),
{
    let size = bytes.len() as u64;
    if binding.over_size(vault_path, size) {
        return IngestStep::Skip;
    }
    let hash = content_hash(bytes);
    if dirty.check_and_consume_at(vault_path, hash.as_str(), now) {
        return IngestStep::Skip;
    }
    if binding.is_text_extension(vault_path) {
        match utf8_text(bytes) {
            Some(s) => {
                let same = match doc_text {
                    Some(t) => s == String::from_str(t),
                    None => false,
                };
                if same {
                    IngestStep::Record { hash }
                } else {
                    IngestStep::WriteText { text: s, hash }
                }
            },
            None => IngestStep::WriteAttachment { hash },
        }
    } else {
        IngestStep::WriteAttachment { hash }
    }
}

/// What a removal seen on disk does to the document.
pub enum RemovedStep {
    /// Nothing: the path is back, is the authorized-keys file, or is not in
    /// the document.
    Nothing,
    /// Delete the file at this vault path.
    DeleteFile(String),
    /// Delete the directory at this vault path, with everything below.
    DeleteDirectory(String),
}

/// The step for a removal of `abs`; `still_exists` says whether something
/// is at `abs` again (an atomic save races the event). The deletion of the
/// authorized-keys file is never passed on: without it every peer would be
/// locked out.
pub fn removed_step(binding: &Binding, tree: &DocTree, abs: &str, still_exists: bool) -> (r: RemovedStep)
    ensures
        still_exists ==> r is Nothing,
        !still_exists ==> match vault_path_candidate(binding.root_spec(), abs@) {
            None => r is Nothing,
            Some(v) => if path_allowed_spec(binding.opts_spec(), v) && v == authorized_keys_name() {
                r is Nothing
            } else if path_allowed_spec(binding.opts_spec(), v) && normalize_ok(v) && first_file(
                tree.files@,
                normalize_spec(v),
            ) >= 0 {
                r matches RemovedStep::DeleteFile(p) && p@ == v
            } else if dir_path_allowed_spec(binding.opts_spec(), v) && first_dir(tree.dirs@, normalize_spec(v)) >= 0
                && normalize_ok(v) {
                r matches RemovedStep::DeleteDirectory(p) && p@ == v
            } else {
                r is Nothing
            },
        },
        vault_path_candidate(binding.root_spec(), abs@) == Some(authorized_keys_name()) && path_allowed_spec(
            binding.opts_spec(),
            authorized_keys_name(),
        ) ==> r is Nothing,
{
    if still_exists {
        return RemovedStep::Nothing;
    }
    proof {
        reveal_strlit("authorized_keys");
        assert(AUTHORIZED_KEYS_FILE@ =~= authorized_keys_name());
    }
    if let Some(v) = binding.fs_path_to_vault_path(abs) {
        let vc = chars_of(v.as_str());
        if eq_lit(&vc, AUTHORIZED_KEYS_FILE) {
            return RemovedStep::Nothing;
        }
        if tree.file_exists(v.as_str()) {
            return RemovedStep::DeleteFile(v);
        }
    }
    if let Some(d) = binding.fs_path_to_vault_dir_path(abs) {
        if let Ok(Some(_)) = tree.find_directory_by_path(d.as_str()) {
            return RemovedStep::DeleteDirectory(d);
        }
    }
    RemovedStep::Nothing
}

/// What a rename seen on disk does to the document.
pub enum RenameStep {
    Nothing,
    /// Move the file in the document.
    RenameFile { from: String, to: String },
    /// The file left the synced set: delete it.
    DeleteFile(String),
    /// The file entered the synced set: ingest it.
    Ingest(String),
}

/// The step for a rename of `from` to `to` on disk.
pub fn rename_step(binding: &Binding, tree: &DocTree, from: &str, to: &str) -> (r: RenameStep)
    ensures
        ({
            let fv = match vault_path_candidate(binding.root_spec(), from@) {
                Some(v) => if path_allowed_spec(binding.opts_spec(), v) { Some(v) } else { None },
                None => None,
            };
            let tv = match vault_path_candidate(binding.root_spec(), to@) {
                Some(v) => if path_allowed_spec(binding.opts_spec(), v) { Some(v) } else { None },
                None => None,
            };
            let present = |p: Seq<char>| normalize_ok(p) && first_file(tree.files@, normalize_spec(p)) >= 0;
            match (fv, tv) {
                (Some(f), Some(t)) => if present(f) && !present(t) {
                    r matches RenameStep::RenameFile { from: a, to: b } && a@ == f && b@ == t
                } else {
                    r is Nothing
                },
                (Some(f), None) => if f != authorized_keys_name() && present(f) {
                    r matches RenameStep::DeleteFile(a) && a@ == f
                } else {
                    r is Nothing
                },
                (None, Some(t)) => r matches RenameStep::Ingest(b) && b@ == t,
                (None, None) => r is Nothing,
            }
        }),
        vault_path_candidate(binding.root_spec(), from@) == Some(authorized_keys_name()) && match vault_path_candidate(
            binding.root_spec(),
            to@,
        ) {
            Some(v) => !path_allowed_spec(binding.opts_spec(), v),
            None => true,
        } ==> r is Nothing,
{
    proof {
        reveal_strlit("authorized_keys");
        assert(AUTHORIZED_KEYS_FILE@ =~= authorized_keys_name());
    }
    let fv = binding.fs_path_to_vault_path(from);
    let tv = binding.fs_path_to_vault_path(to);
    match (fv, tv) {
        (Some(f), Some(t)) => {
            if tree.file_exists(f.as_str()) && !tree.file_exists(t.as_str()) {
                RenameStep::RenameFile { from: f, to: t }
            } else {
                RenameStep::Nothing
            }
        },
        (Some(f), None) => {
            let fc = chars_of(f.as_str());
            if eq_lit(&fc, AUTHORIZED_KEYS_FILE) {
                return RenameStep::Nothing;
            }
            if tree.file_exists(f.as_str()) {
                RenameStep::DeleteFile(f)
            } else {
                RenameStep::Nothing
            }
        },
        (None, Some(t)) => RenameStep::Ingest(t),
        (None, None) => RenameStep::Nothing,
    }
}

} // verus!
