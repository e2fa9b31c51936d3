//! Decisions the setup commands make: the default vault name, adding a line
//! to an ignore file, where a clone goes, and reading a public-key argument.

use crate::error::Error;
use crate::fs::binding::{file_name_of, file_name_spec};
use crate::net::endpoint::{parsed_url, url_host};
use crate::peers_md::{first_nl, lemma_first_nl_is, lemma_lines_concat, lines, strip_cr};
use crate::text::{
    chars_eq, chars_of, eq_lit, extend_chars, extend_lit, slice_vec, starts_with_lit, string_of,
    is_ws, lemma_trim_edges, trim, trim_vec,
};
use vstd::prelude::*;

verus! {

/// The default vault name for a directory: the last component of `path`,
/// unless there is none or it is empty, `.` or `..`.
pub open spec fn default_name_spec(path: Seq<char>) -> Option<Seq<char>> {
    match file_name_spec(path) {
        Some(n) => if n.len() == 0 || n == seq!['.'] || n == seq!['.', '.'] {
            None
        } else {
            Some(n)
        },
        None => None,
    }
}

/// Default vault name derived from the basename of `path`; `None` for the
/// root, an empty path and the `.`/`..` literals.
pub fn default_name_from_path(path: &str) -> (r: Option<String>)
    ensures
        match default_name_spec(path@) {
            Some(n) => r matches Some(s) && s@ == n,
            None => r is None,
        },
{
    let p = chars_of(path);
    match file_name_of(&p) {
        Some(n) => {
            if n.len() == 0 || eq_lit(&n, ".") || eq_lit(&n, "..") {
                proof {
                    reveal_strlit(".");
                    reveal_strlit("..");
                    assert("."@ =~= seq!['.']);
                    assert(".."@ =~= seq!['.', '.']);
                }
                None
            } else {
                proof {
                    reveal_strlit(".");
                    reveal_strlit("..");
                    assert("."@ =~= seq!['.']);
                    assert(".."@ =~= seq!['.', '.']);
                }
                Some(string_of(n.as_slice()))
            }
        },
        None => None,
    }
}

/// Whether some line of the list, trimmed, equals `entry`.
pub open spec fn any_line_is(ls: Seq<Seq<char>>, entry: Seq<char>) -> bool
    decreases ls.len(),
{
    if ls.len() == 0 {
        false
    } else {
        trim(ls[0]) == entry || any_line_is(ls.drop_first(), entry)
    }
}

/// The ignore file after making sure `entry` stands on a line of its own:
/// `None` when some line, trimmed, already is `entry` (nothing to write);
/// otherwise the old content (none counts as empty), a line break if it
/// does not end in one, then `entry` and a line break.
pub open spec fn with_entry_spec(existing: Option<Seq<char>>, entry: Seq<char>) -> Option<Seq<char>> {
    let body = match existing {
        Some(s) => s,
        None => Seq::empty(),
    };
    if existing is Some && any_line_is(lines(body), entry) {
        None
    } else {
        let sep = if body.len() > 0 && body.last() != '\n' {
            seq!['\n']
        } else {
            Seq::empty()
        };
        Some(body + sep + entry + seq!['\n'])
    }
}

proof fn lemma_lines_step(s: Seq<char>, i: int, e: int, n: int)
    requires
        n == s.len(),
        0 <= i < n,
        i <= e <= n,
        forall|k: int| i <= k < e ==> s[k] != '\n',
        e == n || s[e] == '\n',
    ensures
        e < n ==> lines(s.subrange(i, n)) == seq![strip_cr(s.subrange(i, e))] + lines(
            s.subrange(e + 1, n),
        ),
        e == n ==> lines(s.subrange(i, n)) == seq![s.subrange(i, n)],
{
    let t = s.subrange(i, n);
    lemma_first_nl_is(t, 0, e - i);
    if e < n {
        assert(t.subrange(0, e - i) =~= s.subrange(i, e));
        assert(t.subrange(e - i + 1, t.len() as int) =~= s.subrange(e + 1, n));
    }
}

/// Whether some line of `content`, trimmed, equals `entry`.
fn has_line(content: &Vec<char>, entry: &Vec<char>) -> (r: bool)
    ensures
        r == any_line_is(lines(content@), entry@),
{
    let n = content.len();
    let mut i: usize = 0;
    assert(content@.subrange(0, n as int) =~= content@);
    while i < n
        invariant
            n == content@.len(),
            i <= n,
            any_line_is(lines(content@.subrange(i as int, n as int)), entry@) == any_line_is(
                lines(content@),
                entry@,
            ),
        decreases n - i,
    {
        let mut e = i;
        while e < n && content[e] != '\n'
            invariant
                i <= e <= n,
                n == content@.len(),
                forall|k: int| i <= k < e ==> content@[k] != '\n',
            decreases n - e,
        {
            e = e + 1;
        }
        let line = if e < n && e > i && content[e - 1] == '\r' {
            slice_vec(content, i, e - 1)
        } else {
            slice_vec(content, i, e)
        };
        proof {
            lemma_lines_step(content@, i as int, e as int, n as int);
        }
        let ghost ls = lines(content@.subrange(i as int, n as int));
        let t = trim_vec(&line);
        if e < n {
            assert(line@ == strip_cr(content@.subrange(i as int, e as int)));
            assert(ls[0] == line@);
            assert(ls.drop_first() =~= lines(content@.subrange(e + 1, n as int)));
        } else {
            assert(line@ =~= content@.subrange(i as int, n as int));
            assert(ls[0] == line@);
            assert(ls.drop_first() =~= Seq::<Seq<char>>::empty());
        }
        if chars_eq(&t, entry) {
            return true;
        }
        if e < n {
            i = e + 1;
        } else {
            assert(lines(content@.subrange(n as int, n as int)) =~= Seq::<Seq<char>>::empty()) by {
                assert(content@.subrange(n as int, n as int) =~= Seq::<char>::empty());
            }
            i = n;
        }
    }
    assert(content@.subrange(n as int, n as int) =~= Seq::<char>::empty());
    false
}

/// What the ignore file at some path should become so that it holds
/// `entry` on a line of its own, given what it holds now (`None` when it
/// cannot be read); `None` back means it already does and nothing is to
/// be written.
pub fn ensure_ignore_entry(existing: Option<&str>, entry: &str) -> (r: Option<String>)
    ensures
        match with_entry_spec(
            match existing {
                Some(s) => Some(s@),
                None => None,
            },
            entry@,
        ) {
            Some(b) => r matches Some(s) && s@ == b,
            None => r is None,
        },
{
    let e = chars_of(entry);
    let mut body: Vec<char> = match existing {
        Some(s) => chars_of(s),
        None => Vec::new(),
    };
    if existing.is_some() && has_line(&body, &e) {
        return None;
    }
    let ghost b0 = body@;
    if body.len() > 0 && body[body.len() - 1] != '\n' {
        body.push('\n');
    }
    extend_chars(&mut body, &e);
    body.push('\n');
    let out = string_of(body.as_slice());
    proof {
        let sep = if b0.len() > 0 && b0.last() != '\n' {
            seq!['\n']
        } else {
            Seq::<char>::empty()
        };
        assert(out@ =~= b0 + sep + entry@ + seq!['\n']);
    }
    Some(out)
}

/// `first_nl` finds the first line break at or after `i`, if any.
proof fn lemma_first_nl_props(s: Seq<char>, i: int)
    requires
        0 <= i <= s.len(),
    ensures
        i <= first_nl(s, i) <= s.len(),
        forall|k: int| i <= k < first_nl(s, i) ==> s[k] != '\n',
        first_nl(s, i) < s.len() ==> s[first_nl(s, i)] == '\n',
    decreases s.len() - i,
{
    if i < s.len() && s[i] != '\n' {
        lemma_first_nl_props(s, i + 1);
    }
}

proof fn lemma_any_line_append(x: Seq<Seq<char>>, y: Seq<Seq<char>>, e: Seq<char>)
    ensures
        any_line_is(x + y, e) == (any_line_is(x, e) || any_line_is(y, e)),
    decreases x.len(),
{
    if x.len() == 0 {
        assert(x + y =~= y);
    } else {
        assert((x + y)[0] == x[0]);
        assert((x + y).drop_first() =~= x.drop_first() + y);
        lemma_any_line_append(x.drop_first(), y, e);
    }
}

/// After `ensure_ignore_entry` writes the file, a second call finds the
/// entry and writes nothing: the entry is added at most once. (An entry
/// that holds a line break, or white space at either end, can never be
/// found on a trimmed line, so it is left out.)
pub proof fn lemma_ignore_entry_idempotent(existing: Option<Seq<char>>, entry: Seq<char>)
    requires
        !entry.contains('\n'),
        trim(entry) == entry,
    ensures
        match with_entry_spec(existing, entry) {
            Some(b) => with_entry_spec(Some(b), entry) is None,
            None => true,
        },
{
    let body = match existing {
        Some(s) => s,
        None => Seq::<char>::empty(),
    };
    if !(existing is Some && any_line_is(lines(body), entry)) {
        let sep = if body.len() > 0 && body.last() != '\n' {
            seq!['\n']
        } else {
            Seq::<char>::empty()
        };
        let a = body + sep;
        let tail = entry + seq!['\n'];
        let b = body + sep + entry + seq!['\n'];
        assert(b =~= a + tail);
        // The entry, then a line break, is one line: the entry itself.
        lemma_first_nl_props(tail, 0);
        assert forall|k: int| 0 <= k < entry.len() implies tail[k] != '\n' by {
            assert(tail[k] == entry[k]);
            if tail[k] == '\n' {
                assert(entry.contains('\n'));
            }
        }
        lemma_first_nl_is(tail, 0, entry.len() as int);
        assert(tail.subrange(0, entry.len() as int) =~= entry);
        assert(tail.subrange(entry.len() as int + 1, tail.len() as int) =~= Seq::<char>::empty());
        assert(lines(Seq::<char>::empty()) =~= Seq::<Seq<char>>::empty());
        assert(lines(tail) =~= seq![strip_cr(entry)]);
        if entry.len() > 0 {
            lemma_trim_edges(entry);
            assert(entry[entry.len() - 1] != '\r') by {
                assert(is_ws('\r'));
            }
        }
        assert(strip_cr(entry) == entry);
        assert(any_line_is(seq![entry], entry)) by {
            reveal_with_fuel(any_line_is, 2);
        }
        if a.len() == 0 {
            assert(b =~= tail);
        } else {
            assert(a.last() == '\n');
            lemma_lines_concat(a, tail);
            lemma_any_line_append(lines(a), lines(tail), entry);
        }
    }
}

/// The local directory a clone goes into: the remote vault's name,
/// trimmed, when that is not empty; else the rendezvous URL's host name,
/// when it has a non-empty one; else none.
pub open spec fn target_dir_spec(remote_name: Option<Seq<char>>, host: Option<Seq<char>>) -> Option<
    Seq<char>,
> {
    if remote_name is Some && trim(remote_name->0).len() > 0 {
        Some(trim(remote_name->0))
    } else if host is Some && host->0.len() > 0 {
        Some(host->0)
    } else {
        None
    }
}

fn no_target_dir() -> (e: Error)
    ensures
        e is Config,
{
    Error::Config(
        String::from_str(
            "remote vault has no name and URL host is unavailable; pass an explicit local directory: agentsync clone <url> <dir>",
        ),
    )
}

/// The clone's local directory from the remote vault's name and the host
/// found in the rendezvous URL; an error when neither gives one.
pub fn target_dir_from(remote_name: Option<&str>, host: Option<&str>) -> (r: Result<String, Error>)
    ensures
        match target_dir_spec(
            match remote_name {
                Some(n) => Some(n@),
                None => None,
            },
            match host {
                Some(h) => Some(h@),
                None => None,
            },
        ) {
            Some(d) => r matches Ok(s) && s@ == d,
            None => r matches Err(Error::Config(_)),
        },
{
    match remote_name {
        Some(n) => {
            let t = trim_vec(&chars_of(n));
            if t.len() > 0 {
                return Ok(string_of(t.as_slice()));
            }
        },
        None => {},
    }
    match host {
        Some(h) => {
            let hc = chars_of(h);
            if hc.len() > 0 {
                return Ok(string_of(hc.as_slice()));
            }
        },
        None => {},
    }
    Err(no_target_dir())
}

/// Picks the local directory for a clone: the remote vault's name, else
/// the host of the rendezvous URL; an error when neither is available.
pub fn default_target_dir(rendezvous: &str, remote_name: Option<&str>) -> (r: Result<String, Error>)
    ensures
        match target_dir_spec(
            match remote_name {
                Some(n) => Some(n@),
                None => None,
            },
            url_host(rendezvous@),
        ) {
            Some(d) => r matches Ok(s) && s@ == d,
            None => r matches Err(Error::Config(_)),
        },
{
    match remote_name {
        Some(n) => {
            let t = trim_vec(&chars_of(n));
            if t.len() > 0 {
                return Ok(string_of(t.as_slice()));
            }
        },
        None => {},
    }
    match parsed_url(rendezvous) {
        Ok((_, Some(h), _)) => target_dir_from(None, Some(h.as_str())),
        _ => target_dir_from(None, None),
    }
}

/// Whether a public-key argument is the key itself (`ssh-...`) rather than
/// the path of a file holding it.
pub fn pubkey_arg_is_literal(arg: &str) -> (r: bool)
    ensures
        r == (arg@.len() >= 4 && arg@.subrange(0, 4) == "ssh-"@),
{
    let a = chars_of(arg);
    proof {
        reveal_strlit("ssh-");
    }
    starts_with_lit(&a, "ssh-")
}

/// The public key read from the content of a key file given on the
/// command line: its first line, trimmed; an error naming `path` when the
/// file has no line at all.
pub fn pubkey_from_file_text(path: &str, text: &str) -> (r: Result<String, Error>)
    ensures
        lines(text@).len() == 0 ==> r matches Err(Error::Config(_)),
        lines(text@).len() > 0 ==> (r matches Ok(s) && s@ == trim(lines(text@)[0])),
{
    let cs = chars_of(text);
    let n = cs.len();
    if n == 0 {
        assert(lines(text@) =~= Seq::<Seq<char>>::empty());
        let mut msg = Vec::new();
        extend_lit(&mut msg, "empty pubkey file at ");
        extend_chars(&mut msg, &chars_of(path));
        return Err(Error::Config(string_of(msg.as_slice())));
    }
    let mut e: usize = 0;
    while e < n && cs[e] != '\n'
        invariant
            e <= n,
            n == cs@.len(),
            forall|k: int| 0 <= k < e ==> cs@[k] != '\n',
        decreases n - e,
    {
        e = e + 1;
    }
    let line = if e < n && e > 0 && cs[e - 1] == '\r' {
        slice_vec(&cs, 0, e - 1)
    } else {
        slice_vec(&cs, 0, e)
    };
    proof {
        lemma_lines_step(cs@, 0, e as int, n as int);
        assert(cs@.subrange(0, n as int) =~= cs@);
        if e < n {
            assert(line@ == strip_cr(cs@.subrange(0, e as int)));
        } else {
            assert(line@ =~= cs@);
        }
    }
    Ok(string_of(trim_vec(&line).as_slice()))
}

/// Whether a directory with these entries can take a clone: it holds
/// nothing but (perhaps) `.agentsync`.
pub fn clone_target_usable(entries: &[String]) -> (r: bool)
    ensures
        r == forall|i: int| 0 <= i < entries@.len() ==> (#[trigger] entries@[i])@ == ".agentsync"@,
{
    let mut i: usize = 0;
    while i < entries.len()
        invariant
            i <= entries@.len(),
            forall|k: int| 0 <= k < i ==> (#[trigger] entries@[k])@ == ".agentsync"@,
        decreases entries@.len() - i,
    {
        if !eq_lit(&chars_of(entries[i].as_str()), ".agentsync") {
            return false;
        }
        i = i + 1;
    }
    true
}

} // verus!
