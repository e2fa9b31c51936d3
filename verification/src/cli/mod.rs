//! The command line: its commands and options as plain data, and the
//! rewriting of the raw arguments before they are parsed.

pub mod config;
pub mod restore;
pub mod setup;

use crate::error::Error;
use crate::text::{chars_of, eq_lit, starts_with_lit};
use vstd::prelude::*;

verus! {

/// The parsed command line.
#[derive(Clone, Debug)]
pub struct Cli {
    /// The vault directory every command but `clone` works on.
    pub cwd: String,
    pub command: Command,
}

#[derive(Clone, Debug)]
pub enum Command {
    /// Initialize a new vault in the working directory.
    Init(InitArgs),
    /// Watch and sync the vault (the default).
    Watch(WatchArgs),
    /// Clone an existing vault into a local directory.
    Clone(CloneArgs),
    /// Print connection state and counts.
    Status,
    /// One-shot scan and push.
    Push,
    /// One-shot pull.
    Pull,
    /// Restore the vault to a wall-clock timestamp.
    RestoreAt(RestoreAtArgs),
    /// Manage named recovery points.
    Snapshot(SnapshotArgs),
    /// Show changes between two points in history.
    Diff(DiffArgs),
    /// Run a compaction pass.
    Compact,
    /// Manage vault keys.
    Key(KeyArgs),
    /// Manage the pinned hub identity.
    Hub(HubArgs),
    /// Generate or install shell completions.
    Completions(CompletionsArgs),
    /// Print the version.
    Version,
}

#[derive(Clone, Debug)]
pub struct CompletionsArgs {
    pub shell: ShellKind,
    /// Write the script to the shell's conventional location.
    pub install: bool,
}

#[derive(Clone, Copy, Debug, PartialEq, Eq, Structural)]
pub enum ShellKind {
    Bash,
    Zsh,
    Fish,
    PowerShell,
    Elvish,
}

#[derive(Clone, Debug)]
pub struct HubArgs {
    pub op: HubOp,
}

#[derive(Clone, Debug)]
pub enum HubOp {
    /// Pin (or replace) the hub identity, given as `ssh-ed25519 <base64>`.
    Trust { pubkey: String },
    /// Clear the pinned hub identity.
    Forget,
    /// Show the pinned hub identity.
    Show,
}

#[derive(Clone, Debug)]
pub struct InitArgs {
    pub rendezvous: Option<String>,
    /// Display name of the vault; defaults to the directory's name.
    pub name: Option<String>,
    /// Identity-secret path override.
    pub identity: Option<String>,
    /// Leave `.gitignore` and `.agentsignore` alone.
    pub no_ignore_files: bool,
}

#[derive(Clone, Debug)]
pub struct WatchArgs {
    /// Address to accept peers on; the flag alone means the default
    /// listen address.
    pub listen: Option<String>,
    pub rendezvous: Option<String>,
    pub offline: bool,
    pub identity_agent: Option<String>,
    pub identity_agent_pubkey: Option<String>,
    /// Extra keys to merge into `authorized_keys` on startup.
    pub authorized_keys: Option<String>,
}

#[derive(Clone, Debug)]
pub struct CloneArgs {
    pub remote_url: String,
    pub local_path: Option<String>,
    pub identity: Option<String>,
    pub vault_id: Option<String>,
    pub accept_hub_key: Option<String>,
}

#[derive(Clone, Debug)]
pub struct RestoreAtArgs {
    /// Epoch milliseconds or a relative offset such as `5m`.
    pub timestamp: String,
}

#[derive(Clone, Debug)]
pub struct SnapshotArgs {
    pub op: SnapshotOp,
}

#[derive(Clone, Debug)]
pub enum SnapshotOp {
    Create { label: String },
    List,
    Restore { label: String },
    Delete { label: String },
}

#[derive(Clone, Debug)]
pub struct DiffArgs {
    pub from: String,
    pub to: Option<String>,
}

#[derive(Clone, Debug)]
pub struct KeyArgs {
    pub op: KeyOp,
}

#[derive(Clone, Debug)]
pub enum KeyOp {
    /// Generate a fresh identity; never overwrites one.
    Generate { identity: Option<String> },
    /// Print the local public key.
    Show,
}

/// The subcommand names, `help` included.
pub open spec fn is_known_subcommand_spec(t: Seq<char>) -> bool {
    t == "init"@ || t == "watch"@ || t == "clone"@ || t == "status"@ || t == "push"@ || t
        == "pull"@ || t == "restore-at"@ || t == "snapshot"@ || t == "diff"@ || t == "compact"@
        || t == "key"@ || t == "hub"@ || t == "completions"@ || t == "version"@ || t == "help"@
}

/// `prefix` begins `s`.
pub open spec fn begins(s: Seq<char>, prefix: Seq<char>) -> bool {
    prefix.len() <= s.len() && s.subrange(0, prefix.len() as int) == prefix
}

/// Whether `t` names a subcommand.
pub fn is_known_subcommand(t: &str) -> (r: bool)
    ensures
        r == is_known_subcommand_spec(t@),
{
    let c = chars_of(t);
    eq_lit(&c, "init") || eq_lit(&c, "watch") || eq_lit(&c, "clone") || eq_lit(&c, "status")
        || eq_lit(&c, "push") || eq_lit(&c, "pull") || eq_lit(&c, "restore-at") || eq_lit(
        &c,
        "snapshot",
    ) || eq_lit(&c, "diff") || eq_lit(&c, "compact") || eq_lit(&c, "key") || eq_lit(&c, "hub")
        || eq_lit(&c, "completions") || eq_lit(&c, "version") || eq_lit(&c, "help")
}

/// Whether `args[i..]` names a subcommand before anything else that is
/// not a flag: `--cwd <value>`, `--cwd=<value>` and single flags are
/// skipped.
pub open spec fn explicit_subcommand_from(args: Seq<Seq<char>>, i: int) -> bool
    decreases args.len() + 2 - i,
{
    if i < 0 || i >= args.len() {
        false
    } else if args[i] == "--cwd"@ {
        explicit_subcommand_from(args, i + 2)
    } else if begins(args[i], "--cwd="@) || begins(args[i], "-"@) {
        explicit_subcommand_from(args, i + 1)
    } else {
        is_known_subcommand_spec(args[i])
    }
}

/// The text of each argument.
pub open spec fn arg_texts(v: Seq<String>) -> Seq<Seq<char>> {
    v.map_values(|s: String| s@)
}

/// Whether some argument, before any positional one, is a subcommand;
/// `--cwd <value>` and `--cwd=<value>` are stepped over.
pub fn has_explicit_subcommand(args: &[String]) -> (r: bool)
    ensures
        r == explicit_subcommand_from(arg_texts(args@), 0),
{
    let ghost a = arg_texts(args@);
    let mut i: usize = 0;
    while i < args.len()
        invariant
            i <= args@.len(),
            a == arg_texts(args@),
            explicit_subcommand_from(a, 0) == explicit_subcommand_from(a, i as int),
        decreases args@.len() - i,
    {
        let t = chars_of(args[i].as_str());
        assert(t@ == a[i as int]);
        if eq_lit(&t, "--cwd") {
            if args.len() - i <= 2 {
                assert(!explicit_subcommand_from(a, i + 2));
                return false;
            }
            i = i + 2;
        } else if starts_with_lit(&t, "--cwd=") || starts_with_lit(&t, "-") {
            i = i + 1;
        } else {
            return is_known_subcommand(args[i].as_str());
        }
    }
    false
}

/// Top-level help and version flags, which pass through untouched.
pub open spec fn is_passthrough_flag(t: Seq<char>) -> bool {
    t == "--help"@ || t == "-h"@ || t == "--version"@ || t == "-V"@
}

/// Whether the first argument is a bare path that moves into `--cwd`:
/// not a flag, not a subcommand, and starting with `/`, `.` or `~`, or
/// naming something that exists.
pub open spec fn lifts_path(t: Seq<char>, exists_on_disk: bool) -> bool {
    &&& !begins(t, "-"@)
    &&& !is_known_subcommand_spec(t)
    &&& (begins(t, "/"@) || begins(t, "."@) || begins(t, "~"@) || exists_on_disk)
}

/// Whether the outcome for `raw` depends on the disk: only when the first
/// argument is neither a flag, nor a subcommand, nor a path by its shape.
pub open spec fn needs_disk(raw: Seq<Seq<char>>) -> bool {
    &&& raw.len() > 0
    &&& !is_passthrough_flag(raw[0])
    &&& !begins(raw[0], "-"@)
    &&& !is_known_subcommand_spec(raw[0])
    &&& !(begins(raw[0], "/"@) || begins(raw[0], "."@) || begins(raw[0], "~"@))
}

/// The arguments handed to the parser, given whether the first argument
/// names something on disk.
pub open spec fn resolve_spec(raw: Seq<Seq<char>>, exists_on_disk: bool) -> Seq<Seq<char>> {
    if raw.len() == 0 {
        seq!["watch"@]
    } else if is_passthrough_flag(raw[0]) {
        raw
    } else {
        let lift = lifts_path(raw[0], exists_on_disk);
        let head = if lift {
            seq!["--cwd"@, raw[0]]
        } else {
            Seq::empty()
        };
        let tail = raw.subrange(if lift { 1int } else { 0int }, raw.len() as int);
        if explicit_subcommand_from(tail, 0) {
            head + tail
        } else {
            head + seq!["watch"@] + tail
        }
    }
}

/// `Path::exists`: whether something is at `p` on disk. What comes back
/// depends on the disk, so nothing is promised of it.
#[verifier::external_body]
fn path_exists(p: &str) -> (r: bool) {
    std::path::Path::new(p).exists()
}

fn push_all(out: &mut Vec<String>, v: &[String], from: usize)
    requires
        from <= v@.len(),
    ensures
        arg_texts(final(out)@) == arg_texts(old(out)@) + arg_texts(v@).subrange(from as int, v@.len() as int),
{
    let ghost o0 = arg_texts(out@);
    let mut k: usize = from;
    while k < v.len()
        invariant
            from <= k <= v@.len(),
            arg_texts(out@) == o0 + arg_texts(v@).subrange(from as int, k as int),
        decreases v@.len() - k,
    {
        let s = v[k].clone();
        let ghost before = arg_texts(out@);
        out.push(s);
        k = k + 1;
        assert(arg_texts(out@) =~= before.push(v@[k - 1]@));
        assert(arg_texts(v@).subrange(from as int, k as int) =~= arg_texts(v@).subrange(
            from as int,
            k - 1,
        ).push(v@[k - 1]@));
    }
}

/// Rewrites the raw arguments (program name excluded) given whether the
/// first one names something on disk: a leading bare path becomes
/// `--cwd <path>`, and `watch` is put in when no subcommand is named.
pub fn resolve_args_with(raw: &[String], exists_on_disk: bool) -> (r: Vec<String>)
    ensures
        arg_texts(r@) == resolve_spec(arg_texts(raw@), exists_on_disk),
{
    let ghost a = arg_texts(raw@);
    let mut out: Vec<String> = Vec::new();
    if raw.len() == 0 {
        out.push(String::from_str("watch"));
        assert(arg_texts(out@) =~= resolve_spec(a, exists_on_disk));
        return out;
    }
    let first = chars_of(raw[0].as_str());
    if eq_lit(&first, "--help") || eq_lit(&first, "-h") || eq_lit(&first, "--version") || eq_lit(
        &first,
        "-V",
    ) {
        push_all(&mut out, raw, 0);
        assert(arg_texts(out@) =~= a);
        return out;
    }
    let lift = !starts_with_lit(&first, "-") && !is_known_subcommand(raw[0].as_str()) && (
    starts_with_lit(&first, "/") || starts_with_lit(&first, ".") || starts_with_lit(&first, "~")
        || exists_on_disk);
    let mut tail_start: usize = 0;
    if lift {
        out.push(String::from_str("--cwd"));
        out.push(raw[0].clone());
        tail_start = 1;
    }
    let ghost head = arg_texts(out@);
    let ghost tail = a.subrange(tail_start as int, a.len() as int);
    let tail_slice = slice_from(raw, tail_start);
    assert(arg_texts(tail_slice@) =~= tail);
    if !has_explicit_subcommand(tail_slice.as_slice()) {
        out.push(String::from_str("watch"));
    }
    push_all(&mut out, raw, tail_start);
    proof {
        if lift {
            assert(head =~= seq!["--cwd"@, a[0]]);
        } else {
            assert(head =~= Seq::<Seq<char>>::empty());
        }
        assert(arg_texts(out@) =~= resolve_spec(a, exists_on_disk));
    }
    out
}

fn slice_from(v: &[String], from: usize) -> (r: Vec<String>)
    requires
        from <= v@.len(),
    ensures
        arg_texts(r@) == arg_texts(v@).subrange(from as int, v@.len() as int),
{
    let mut out: Vec<String> = Vec::new();
    push_all(&mut out, v, from);
    assert(arg_texts(Seq::<String>::empty()) =~= Seq::<Seq<char>>::empty());
    out
}

/// Rewrites the raw arguments (program name excluded) into what the
/// parser is given; whether a bare first argument is a path is asked of
/// the disk only when its shape does not tell.
pub fn resolve_args(raw: &[String]) -> (r: Vec<String>)
    ensures
        !needs_disk(arg_texts(raw@)) ==> arg_texts(r@) == resolve_spec(arg_texts(raw@), false),
        arg_texts(r@) == resolve_spec(arg_texts(raw@), false) || arg_texts(r@) == resolve_spec(
            arg_texts(raw@),
            true,
        ),
{
    let mut exists_on_disk = false;
    if raw.len() > 0 {
        let first = chars_of(raw[0].as_str());
        let passthrough = eq_lit(&first, "--help") || eq_lit(&first, "-h") || eq_lit(
            &first,
            "--version",
        ) || eq_lit(&first, "-V");
        let shaped = starts_with_lit(&first, "-") || is_known_subcommand(raw[0].as_str())
            || starts_with_lit(&first, "/") || starts_with_lit(&first, ".") || starts_with_lit(
            &first,
            "~",
        );
        if !passthrough && !shaped {
            exists_on_disk = path_exists(raw[0].as_str());
        }
    }
    let r = resolve_args_with(raw, exists_on_disk);
    proof {
        let a = arg_texts(raw@);
        if !needs_disk(a) && exists_on_disk {
            assert(a.len() > 0);
        }
        if !needs_disk(a) {
            assert(resolve_spec(a, exists_on_disk) == resolve_spec(a, false));
        }
    }
    r
}

} // verus!
