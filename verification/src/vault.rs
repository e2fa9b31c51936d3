//! What the vault reports, and the decisions of the materializer, which
//! writes the document's state to disk without clobbering local edits.

use crate::constants::AUTHORIZED_KEYS_FILE;
use crate::doc::{first_file, DocTree};
use crate::fs::binding::authorized_keys_name;
use crate::identity::Pubkey;
use crate::path::{normalize_ok, normalize_spec};
use crate::peers_md::{parse_authorized, parse_authorized_keys, AuthorizedPeer};
use crate::error::Error;
use crate::text::{
    chars_eq, chars_of, extend_chars, extend_lit, lex_greater, lex_le, lemma_lex_total, lemma_lex_trans,
    string_of,
};
use vstd::prelude::*;

verus! {

#[derive(Clone, Debug)]
pub struct VaultEvent {
    pub kind: VaultEventKind,
}

#[derive(Clone, Debug)]
pub enum VaultEventKind {
    Connected,
    Disconnected,
    FileChanged { path: String },
    SyncProgress { percent: u8 },
    Error(String),
}

/// The hash last recorded for a path, as a plain text.
pub open spec fn opt_text(o: Option<&String>) -> Option<Seq<char>> {
    match o {
        Some(s) => Some(s@),
        None => None,
    }
}

/// Whether the file on disk (with hash `disk_hash`) may be overwritten or
/// deleted: it is what we last wrote there or what we last ingested from
/// there, so no local edit would be lost.
pub fn is_safe_to_overwrite(disk_hash: &str, last_materialized: Option<&String>, last_ingested: Option<&String>) -> (r: bool)
    ensures
        r == (opt_text(last_materialized) == Some(disk_hash@) || opt_text(last_ingested) == Some(
            disk_hash@,
        )),
{
    let d = String::from_str(disk_hash);
    let a = match last_materialized {
        Some(m) => *m == d,
        None => false,
    };
    let b = match last_ingested {
        Some(m) => *m == d,
        None => false,
    };
    a || b
}

/// What the materializer does for one live file.
#[derive(Clone, Copy, Debug, PartialEq, Eq, Structural)]
pub enum WriteStep {
    /// What we last wrote is what the document holds: nothing to do.
    UpToDate,
    /// The disk already holds the document's content: record it.
    Record,
    /// The disk holds local edits not yet ingested: leave it for now.
    Defer,
    /// Write the document's content (marking the write as our own first).
    Write,
}

/// The step for a file whose document content hashes to `target`, given
/// the hash last written there, the hash of what is on disk (if it could be
/// read) and the hash last ingested from there.
pub fn write_step(target: &str, last_materialized: Option<&String>, disk_hash: Option<&String>, last_ingested: Option<&String>) -> (r: WriteStep)
    ensures
        opt_text(last_materialized) == Some(target@) ==> r == WriteStep::UpToDate,
        opt_text(last_materialized) != Some(target@) ==> match disk_hash {
            None => r == WriteStep::Write,
            Some(d) => if d@ == target@ {
                r == WriteStep::Record
            } else if !(opt_text(last_materialized) == Some(d@) || opt_text(last_ingested) == Some(d@)) {
                r == WriteStep::Defer
            } else {
                r == WriteStep::Write
            },
        },
{
    let t = String::from_str(target);
    if let Some(m) = last_materialized {
        if *m == t {
            return WriteStep::UpToDate;
        }
    }
    match disk_hash {
        None => WriteStep::Write,
        Some(d) => {
            if *d == t {
                WriteStep::Record
            } else if !is_safe_to_overwrite(d.as_str(), last_materialized, last_ingested) {
                WriteStep::Defer
            } else {
                WriteStep::Write
            }
        },
    }
}

/// Whether a file that left the document may be deleted from disk: it
/// may unless the disk holds edits of its own.
pub fn may_delete(last_materialized: Option<&String>, disk_hash: Option<&String>, last_ingested: Option<&String>) -> (r: bool)
    ensures
        r == match disk_hash {
            None => true,
            Some(d) => opt_text(last_materialized) == Some(d@) || opt_text(last_ingested) == Some(d@),
        },
{
    match disk_hash {
        None => true,
        Some(d) => is_safe_to_overwrite(d.as_str(), last_materialized, last_ingested),
    }
}

/// Number of `/` in a path: its depth.
pub open spec fn depth(p: Seq<char>) -> nat
    decreases p.len(),
{
    if p.len() == 0 {
        0
    } else {
        depth(p.drop_last()) + if p.last() == '/' { 1nat } else { 0nat }
    }
}

fn depth_of(p: &String) -> (r: usize)
    ensures
        r == depth(p@),
{
    let cs = chars_of(p.as_str());
    let mut n: usize = 0;
    let mut i: usize = 0;
    while i < cs.len()
        invariant
            i <= cs@.len(),
            n == depth(cs@.subrange(0, i as int)),
            n <= i,
        decreases cs@.len() - i,
    {
        assert(cs@.subrange(0, i + 1).drop_last() =~= cs@.subrange(0, i as int));
        if cs[i] == '/' {
            n = n + 1;
        }
        i = i + 1;
    }
    assert(cs@.subrange(0, cs@.len() as int) =~= cs@);
    n
}

/// Directories come before deeper ones; at equal depth, by path.
pub open spec fn dir_order_le(a: Seq<char>, b: Seq<char>) -> bool {
    depth(a) < depth(b) || (depth(a) == depth(b) && lex_le(a, b))
}

proof fn lemma_dir_order_total(a: Seq<char>, b: Seq<char>)
    ensures
        dir_order_le(a, b) || dir_order_le(b, a),
{
    lemma_lex_total(a, b);
}

proof fn lemma_dir_order_trans(a: Seq<char>, b: Seq<char>, c: Seq<char>)
    requires
        dir_order_le(a, b),
        dir_order_le(b, c),
    ensures
        dir_order_le(a, c),
{
    if depth(a) == depth(b) && depth(b) == depth(c) {
        lemma_lex_trans(a, b, c);
    }
}

pub open spec fn texts_of(v: Seq<String>) -> Seq<Seq<char>> {
    v.map_values(|s: String| s@)
}

/// Whether `a` goes after the path `key` (of depth `kd`) in directory order.
fn comes_after(a: &String, kd: usize, key: &Vec<char>) -> (r: bool)
    requires
        kd == depth(key@),
    ensures
        r == !dir_order_le(a@, key@),
{
    let ad = depth_of(a);
    ad > kd || (ad == kd && lex_greater(&chars_of(a.as_str()), key))
}

/// The live directories not yet made on disk, parents before children:
/// by depth, then by path.
pub fn dirs_to_create(live: &[String], materialized: &[String]) -> (r: Vec<String>)
    ensures
        forall|i: int, j: int| 0 <= i < j < r@.len() ==> dir_order_le(r@[i]@, r@[j]@),
        forall|p: Seq<char>|
            texts_of(r@).contains(p) <==> (texts_of(live@).contains(p) && !texts_of(materialized@).contains(p)),
{
    let mut out: Vec<String> = Vec::new();
    let mut i: usize = 0;
    while i < live.len()
        invariant
            i <= live@.len(),
            forall|a: int, b: int| 0 <= a < b < out@.len() ==> dir_order_le(out@[a]@, out@[b]@),
            forall|p: Seq<char>|
                texts_of(out@).contains(p) <==> (texts_of(live@.take(i as int)).contains(p)
                    && !texts_of(materialized@).contains(p)),
        decreases live@.len() - i,
    {
        let p = &live[i];
        let mut seen = false;
        let mut k: usize = 0;
        while k < materialized.len()
            invariant
                k <= materialized@.len(),
                seen == texts_of(materialized@.take(k as int)).contains(p@),
            decreases materialized@.len() - k,
        {
            proof {
                let t = texts_of(materialized@.take(k + 1));
                assert(t =~= texts_of(materialized@.take(k as int)).push(materialized@[k as int]@));
            }
            if materialized[k] == *p {
                seen = true;
            }
            proof {
                let t = texts_of(materialized@.take(k + 1));
                let t0 = texts_of(materialized@.take(k as int));
                if t.contains(p@) && !t0.contains(p@) {
                    let w = choose|w: int| 0 <= w < t.len() && t[w] == p@;
                    if w < t0.len() {
                        assert(t0[w] == p@);
                    }
                }
                if t0.contains(p@) {
                    let w = choose|w: int| 0 <= w < t0.len() && t0[w] == p@;
                    assert(t[w] == p@);
                }
                if materialized@[k as int]@ == p@ {
                    assert(t[k as int] == p@);
                }
            }
            k = k + 1;
        }
        assert(materialized@.take(materialized@.len() as int) =~= materialized@);
        assert(seen == texts_of(materialized@).contains(p@));
        let ghost before = texts_of(out@);
        let ghost o0 = out@;
        if !seen {
            let key = p.clone();
            let kd = depth_of(&key);
            let kc = chars_of(key.as_str());
            let mut pos: usize = out.len();
            while pos > 0 && comes_after(&out[pos - 1], kd, &kc)
                invariant
                    pos <= out@.len(),
                    out@ == o0,
                    kd == depth(key@),
                    kc@ == key@,
                    forall|m: int| pos <= m < o0.len() ==> !dir_order_le(#[trigger] o0[m]@, key@),
                decreases pos,
            {
                pos = pos - 1;
            }
            proof {
                if pos > 0 {
                    assert(dir_order_le(o0[pos - 1]@, key@));
                }
            }
            out.insert(pos, key);
            proof {
                let s1 = out@;
                assert(s1 =~= o0.insert(pos as int, s1[pos as int]));
                assert forall|a: int, b: int| 0 <= a < b < s1.len() implies dir_order_le(s1[a]@, s1[b]@) by {
                    if a < pos && b == pos {
                        if a < pos - 1 {
                            lemma_dir_order_trans(o0[a]@, o0[pos - 1]@, key@);
                        }
                    } else if a == pos && b > pos {
                        lemma_dir_order_total(o0[b - 1]@, key@);
                    } else if a < pos && b > pos {
                        assert(s1[a] == o0[a] && s1[b] == o0[b - 1]);
                    } else if a > pos {
                        assert(s1[a] == o0[a - 1] && s1[b] == o0[b - 1]);
                    }
                }
                assert forall|q: Seq<char>| texts_of(s1).contains(q) <==> before.contains(q) || q == key@ by {
                    if texts_of(s1).contains(q) {
                        let w = choose|w: int| 0 <= w < texts_of(s1).len() && texts_of(s1)[w] == q;
                        if w < pos {
                            assert(before[w] == q);
                        } else if w > pos {
                            assert(before[w - 1] == q);
                        }
                    }
                    if before.contains(q) {
                        let w = choose|w: int| 0 <= w < before.len() && before[w] == q;
                        if w < pos {
                            assert(texts_of(s1)[w] == q);
                        } else {
                            assert(texts_of(s1)[w + 1] == q);
                        }
                    }
                    if q == key@ {
                        assert(texts_of(s1)[pos as int] == q);
                    }
                }
            }
        }
        proof {
            let t = texts_of(live@.take(i + 1));
            let t0 = texts_of(live@.take(i as int));
            assert(t =~= t0.push(p@));
            assert forall|q: Seq<char>| t.contains(q) <==> t0.contains(q) || q == p@ by {
                if t.contains(q) {
                    let w = choose|w: int| 0 <= w < t.len() && t[w] == q;
                    if w < t0.len() {
                        assert(t0[w] == q);
                    }
                }
                if t0.contains(q) {
                    let w = choose|w: int| 0 <= w < t0.len() && t0[w] == q;
                    assert(t[w] == q);
                }
                if q == p@ {
                    assert(t[i as int] == q);
                }
            }
            assert forall|q: Seq<char>|
                texts_of(out@).contains(q) <==> (t.contains(q) && !texts_of(materialized@).contains(q)) by {
                if !seen {
                    assert(texts_of(out@).contains(q) <==> before.contains(q) || q == p@);
                } else {
                    assert(out@ == o0);
                }
            }
        }
        i = i + 1;
    }
    assert(live@.take(live@.len() as int) =~= live@);
    out
}

/// The directories made on disk that are no longer live, children before
/// parents: by depth, deepest first (then by path, last first).
pub fn dirs_to_remove(live: &[String], materialized: &[String]) -> (r: Vec<String>)
    ensures
        forall|i: int, j: int| 0 <= i < j < r@.len() ==> dir_order_le(r@[j]@, r@[i]@),
        forall|p: Seq<char>|
            texts_of(r@).contains(p) <==> (texts_of(materialized@).contains(p) && !texts_of(live@).contains(p)),
{
    let up = dirs_to_create(materialized, live);
    let n = up.len();
    let mut out: Vec<String> = Vec::new();
    let mut k: usize = n;
    while k > 0
        invariant
            k <= n,
            n == up@.len(),
            out@.len() == n - k,
            forall|m: int| 0 <= m < out@.len() ==> (#[trigger] out@[m])@ == up@[n - 1 - m]@,
        decreases k,
    {
        k = k - 1;
        out.push(up[k].clone());
    }
    proof {
        assert forall|i: int, j: int| 0 <= i < j < out@.len() implies dir_order_le(out@[j]@, out@[i]@) by {
            assert(out@[j]@ == up@[n - 1 - j]@);
            assert(out@[i]@ == up@[n - 1 - i]@);
        }
        assert forall|p: Seq<char>| texts_of(out@).contains(p) <==> texts_of(up@).contains(p) by {
            if texts_of(out@).contains(p) {
                let w = choose|w: int| 0 <= w < texts_of(out@).len() && texts_of(out@)[w] == p;
                assert(texts_of(up@)[n - 1 - w] == p);
            }
            if texts_of(up@).contains(p) {
                let w = choose|w: int| 0 <= w < texts_of(up@).len() && texts_of(up@)[w] == p;
                assert(out@[n - 1 - w]@ == up@[w]@);
                assert(texts_of(out@)[n - 1 - w] == p);
            }
        }
    }
    out
}

/// The text of the authorized-keys file in the document, if it is a live
/// text file.
pub open spec fn authorized_text(tree: DocTree) -> Option<Seq<char>> {
    let i = first_file(tree.files@, normalize_spec(authorized_keys_name()));
    if !normalize_ok(authorized_keys_name()) || i < 0 {
        None
    } else {
        match tree.files@[i].content {
            Some(t) => Some(t@),
            None => None,
        }
    }
}

/// The peers the document's `authorized_keys` lists; none when the file
/// is missing or not text.
pub fn authorized_peers_in(tree: &DocTree) -> (r: Vec<AuthorizedPeer>)
    ensures
        match authorized_text(*tree) {
            Some(t) => crate::peers_md::peer_entries(r@) == parse_authorized(t),
            None => r@.len() == 0,
        },
{
    proof {
        reveal_strlit("authorized_keys");
        assert(AUTHORIZED_KEYS_FILE@ =~= authorized_keys_name());
    }
    match tree.read_file(AUTHORIZED_KEYS_FILE) {
        Ok(content) => parse_authorized_keys(content.as_str()),
        Err(_) => Vec::new(),
    }
}

/// The bytes of each key.
pub open spec fn key_bytes(v: Seq<Pubkey>) -> Seq<Seq<u8>> {
    v.map_values(|p: Pubkey| p.0@)
}

/// The keys of authorized-keys entries.
pub open spec fn entry_keys(v: Seq<(Seq<u8>, Seq<char>)>) -> Seq<Seq<u8>> {
    v.map_values(|e: (Seq<u8>, Seq<char>)| e.0)
}

/// The keys the document's `authorized_keys` lists.
pub fn authorized_pubkeys_in(tree: &DocTree) -> (r: Vec<Pubkey>)
    ensures
        match authorized_text(*tree) {
            Some(t) => key_bytes(r@) == entry_keys(parse_authorized(t)),
            None => r@.len() == 0,
        },
{
    let peers = authorized_peers_in(tree);
    let ghost es = crate::peers_md::peer_entries(peers@);
    let mut out: Vec<Pubkey> = Vec::new();
    let mut i: usize = 0;
    while i < peers.len()
        invariant
            i <= peers@.len(),
            es == crate::peers_md::peer_entries(peers@),
            key_bytes(out@) == entry_keys(es.take(i as int)),
        decreases peers@.len() - i,
    {
        let ghost before = out@;
        let pk = peers[i].pubkey;
        out.push(pk);
        proof {
            assert(es[i as int].0 == pk.0@);
            assert(es.take(i + 1) =~= es.take(i as int).push(es[i as int]));
            assert(key_bytes(out@) =~= key_bytes(before).push(pk.0@));
            assert(entry_keys(es.take(i + 1)) =~= entry_keys(es.take(i as int)).push(es[i as int].0));
        }
        i = i + 1;
    }
    assert(es.take(peers@.len() as int) =~= es);
    out
}

/// A stored document belongs to the vault it is opened as: one that names
/// another vault is refused; one that names none is taken as this vault's.
pub fn check_doc_vault_id(stored: Option<&str>, expected: &str) -> (r: Result<(), Error>)
    ensures
        r is Ok <==> match stored {
            Some(s) => s@ == expected@,
            None => true,
        },
        r is Err ==> r matches Err(Error::Vault(_)),
{
    match stored {
        None => Ok(()),
        Some(s) => {
            if chars_eq(&chars_of(s), &chars_of(expected)) {
                Ok(())
            } else {
                let mut msg = Vec::new();
                extend_lit(&mut msg, "doc.bin vault_id mismatch: doc has ");
                extend_chars(&mut msg, &chars_of(s));
                extend_lit(&mut msg, ", opts has ");
                extend_chars(&mut msg, &chars_of(expected));
                Err(Error::Vault(string_of(msg.as_slice())))
            }
        },
    }
}

} // verus!
