//! Where the hub keeps its self-signed TLS certificate, and the
//! certificate's fingerprint that the handshake binds to.

use crate::codec::{sha256, sha256_digest};
use crate::fs::binding::push_piece;
use crate::identity::strip_path_tail;
use crate::path::{last_slash};
use crate::store::join_path;
use crate::text::{chars_of, slice_vec};
use vstd::prelude::*;

verus! {

/// Directory, beside the vault's `.agentsync`, that holds the certificate.
pub const TLS_DIR: &'static str = ".agentsync-server";

pub const CERT_FILE: &'static str = "tls.crt";

pub const KEY_FILE: &'static str = "tls.key";

/// `Path::parent`: the path without its last component, where trailing
/// `/` and `/.` pieces are no components (as `Path::components` reads
/// them); `/` for a top-level absolute path; nothing for `/` or the empty
/// path.
pub open spec fn path_parent(p: Seq<char>) -> Option<Seq<char>> {
    let t = strip_path_tail(p);
    if t.len() == 0 {
        None
    } else if last_slash(t) < 0 {
        Some(Seq::empty())
    } else {
        let pre = strip_path_tail(t.subrange(0, last_slash(t)));
        if pre.len() == 0 && t[0] == '/' {
            Some(seq!['/'])
        } else {
            Some(pre)
        }
    }
}

/// `<parent of storage_path>/.agentsync-server`, or `./.agentsync-server`
/// when the storage path has no parent.
pub open spec fn tls_dir_spec(storage_path: Seq<char>) -> Seq<char> {
    let parent = match path_parent(storage_path) {
        Some(p) => p,
        None => seq!['.'],
    };
    push_piece(parent, ".agentsync-server"@)
}

fn strip_tail(p: &Vec<char>) -> (r: Vec<char>)
    ensures
        r@ == strip_path_tail(p@),
{
    let mut e = p.len();
    assert(p@.subrange(0, p@.len() as int) =~= p@);
    while (e > 0 && p[e - 1] == '/') || (e >= 2 && p[e - 1] == '.' && p[e - 2] == '/')
        invariant
            e <= p@.len(),
            strip_path_tail(p@.subrange(0, e as int)) == strip_path_tail(p@),
        decreases e,
    {
        proof {
            if e > 0 && p@[e - 1] == '/' {
                assert(p@.subrange(0, e as int).drop_last() =~= p@.subrange(0, e - 1));
            } else {
                assert(p@.subrange(0, e as int).subrange(0, e - 2) =~= p@.subrange(0, e - 2));
            }
        }
        if e > 0 && p[e - 1] == '/' {
            e = e - 1;
        } else {
            e = e - 2;
        }
    }
    slice_vec(p, 0, e)
}

/// The certificate directory for a vault whose state is at `storage_path`.
pub fn tls_dir_for_storage(storage_path: &str) -> (r: String)
    ensures
        r@ == tls_dir_spec(storage_path@),
{
    let s = chars_of(storage_path);
    let t = strip_tail(&s);
    let mut k: usize = t.len();
    assert(t@.subrange(0, k as int) =~= t@);
    while k > 0 && t[k - 1] != '/'
        invariant
            k <= t@.len(),
            last_slash(t@) == last_slash(t@.subrange(0, k as int)),
        decreases k,
    {
        assert(t@.subrange(0, k as int).drop_last() =~= t@.subrange(0, k - 1));
        k = k - 1;
    }
    proof {
        if k > 0 {
            assert(t@.subrange(0, k as int).last() == '/');
        }
    }
    let parent: Vec<char> = if t.len() == 0 {
        let mut d: Vec<char> = Vec::new();
        d.push('.');
        d
    } else if k == 0 {
        Vec::new()
    } else {
        let pre = strip_tail(&slice_vec(&t, 0, k - 1));
        if pre.len() == 0 && t[0] == '/' {
            let mut d: Vec<char> = Vec::new();
            d.push('/');
            d
        } else {
            pre
        }
    };
    proof {
        if t.len() == 0 {
            assert(parent@ =~= seq!['.']);
        } else if k == 0 {
            assert(parent@ =~= Seq::<char>::empty());
        } else {
            assert(last_slash(t@) == k - 1);
            let pre = strip_path_tail(t@.subrange(0, k - 1));
            if pre.len() == 0 && t@[0] == '/' {
                assert(parent@ =~= seq!['/']);
            }
        }
    }
    let ps = crate::text::string_of(parent.as_slice());
    join_path(ps.as_str(), TLS_DIR)
}

/// The SHA-256 of a DER certificate: what the handshake binds to.
pub fn cert_fingerprint(cert_der: &[u8]) -> (r: [u8; 32])
    ensures
        r@ == sha256(cert_der@),
{
    let d = sha256_digest(cert_der);
    crate::codec::array32_of(&d)
}

} // verus!
