//! The per-vault configuration file `.agentsync/config.toml`, as plain
//! data, and what is derived from it. Reading and writing the file is the
//! caller's.

use crate::auth::{decode_key, decode_key_spec, VaultKey};
use crate::error::Error;
use crate::identity::{parse_ssh_pubkey_text, Pubkey};
use crate::fs::binding::{
    default_exclude_patterns, default_excludes, ext_norm, include_prefix, push_piece, texts,
    BindOptions,
};
use crate::text::{chars_of, extend_chars, string_of};
use vstd::prelude::*;

verus! {

#[derive(Clone, Debug)]
pub struct ConfigFile {
    pub vault: VaultSection,
    pub key: KeySection,
    pub sync: SyncSection,
}

#[derive(Clone, Debug)]
pub struct VaultSection {
    pub id: Option<String>,
    pub rendezvous_url: Option<String>,
    /// Display name of the vault.
    pub name: Option<String>,
    /// The pinned hub identity, as `ssh-ed25519 <base64>`.
    pub hub_pubkey: Option<String>,
}

#[derive(Clone, Debug)]
pub struct KeySection {
    /// `keyring`, `env` or `file`.
    pub source: Option<String>,
    pub keyring_name: Option<String>,
    /// Inline base64 key, used when the source is `file`.
    pub key_b64: Option<String>,
    pub env_var: Option<String>,
}

#[derive(Clone, Debug)]
pub struct SyncSection {
    /// Extensions (without the dot) synced as text.
    pub extensions: Vec<String>,
    pub exclude: Vec<String>,
    /// Extra inclusion patterns beyond those the extensions give.
    pub includes: Vec<String>,
    pub attachment_max_bytes: u64,
    pub text_file_max_bytes: u64,
    pub log_retention_days: u32,
}

/// `md` and `markdown`.
pub fn default_extensions() -> (r: Vec<String>)
    ensures
        texts(r@) == seq!["md"@, "markdown"@],
{
    let mut r: Vec<String> = Vec::new();
    r.push(String::from_str("md"));
    r.push(String::from_str("markdown"));
    assert(texts(r@) =~= seq!["md"@, "markdown"@]);
    r
}

/// The exclude patterns of a fresh configuration.
pub fn default_exclude() -> (r: Vec<String>)
    ensures
        texts(r@) == default_excludes(),
{
    default_exclude_patterns()
}

/// 10 MiB.
pub fn default_attachment_max() -> (r: u64)
    ensures
        r == 10485760,
{
    10485760
}

/// 1 MiB.
pub fn default_text_max() -> (r: u64)
    ensures
        r == 1048576,
{
    1048576
}

/// 30 days.
pub fn default_retention() -> (r: u32)
    ensures
        r == 30,
{
    30
}

impl Default for VaultSection {
    fn default() -> (r: VaultSection)
        ensures
            r.id is None,
            r.rendezvous_url is None,
            r.name is None,
            r.hub_pubkey is None,
    {
        VaultSection { id: None, rendezvous_url: None, name: None, hub_pubkey: None }
    }
}

impl Default for KeySection {
    fn default() -> (r: KeySection)
        ensures
            r.source is None,
            r.keyring_name is None,
            r.key_b64 is None,
            r.env_var is None,
    {
        KeySection { source: None, keyring_name: None, key_b64: None, env_var: None }
    }
}

impl Default for SyncSection {
    fn default() -> (r: SyncSection)
        ensures
            texts(r.extensions@) == seq!["md"@, "markdown"@],
            texts(r.exclude@) == default_excludes(),
            r.includes@.len() == 0,
            r.attachment_max_bytes == 10485760,
            r.text_file_max_bytes == 1048576,
            r.log_retention_days == 30,
    {
        SyncSection {
            extensions: default_extensions(),
            exclude: default_exclude(),
            includes: Vec::new(),
            attachment_max_bytes: default_attachment_max(),
            text_file_max_bytes: default_text_max(),
            log_retention_days: default_retention(),
        }
    }
}

impl Default for ConfigFile {
    fn default() -> (r: ConfigFile)
        ensures
            r.vault.id is None,
            r.vault.rendezvous_url is None,
            r.key.source is None,
            r.key.env_var is None,
            r.key.key_b64 is None,
            texts(r.sync.extensions@) == seq!["md"@, "markdown"@],
            r.sync.includes@.len() == 0,
    {
        ConfigFile {
            vault: VaultSection::default(),
            key: KeySection::default(),
            sync: SyncSection::default(),
        }
    }
}

/// `acc` with each of `extra` appended unless already there.
pub open spec fn append_new(acc: Seq<Seq<char>>, extra: Seq<Seq<char>>) -> Seq<Seq<char>>
    decreases extra.len(),
{
    if extra.len() == 0 {
        acc
    } else {
        let a = append_new(acc, extra.drop_last());
        if a.contains(extra.last()) {
            a
        } else {
            a.push(extra.last())
        }
    }
}

impl SyncSection {
    /// The binding options this section asks for: each extension (leading
    /// dots stripped, lowercased) is synced as text through `**/*.<ext>`,
    /// the extra inclusion patterns follow unless already there, and the
    /// exclude list and size limits are taken as they are.
    pub fn to_bind_options(&self) -> (r: BindOptions)
        ensures
            texts(r.text_extensions@) == self.extensions@.map_values(|s: String| ext_norm(s@)),
            texts(r.include_patterns@) == append_new(
                self.extensions@.map_values(|s: String| include_prefix() + ext_norm(s@)),
                texts(self.includes@),
            ),
            texts(r.exclude_patterns@) == texts(self.exclude@),
            r.attachment_max_bytes == self.attachment_max_bytes,
            r.text_file_max_bytes == self.text_file_max_bytes,
    {
        let base = BindOptions::for_extensions(self.extensions.as_slice());
        let mut inc = base.include_patterns;
        let ghost start = texts(inc@);
        let mut i: usize = 0;
        while i < self.includes.len()
            invariant
                i <= self.includes@.len(),
                texts(inc@) == append_new(start, texts(self.includes@).take(i as int)),
            decreases self.includes@.len() - i,
        {
            let extra = &self.includes[i];
            let mut found = false;
            let mut j: usize = 0;
            while j < inc.len()
                invariant
                    j <= inc@.len(),
                    found == exists|k: int| 0 <= k < j && inc@[k]@ == extra@,
                decreases inc@.len() - j,
            {
                if inc[j] == *extra {
                    found = true;
                }
                j = j + 1;
            }
            proof {
                let t = texts(self.includes@).take(i + 1);
                assert(t.drop_last() =~= texts(self.includes@).take(i as int));
                assert(t.last() == extra@);
                let a = texts(inc@);
                if found {
                    let k = choose|k: int| 0 <= k < inc@.len() && inc@[k]@ == extra@;
                    assert(a[k] == extra@);
                } else {
                    assert forall|k: int| 0 <= k < a.len() implies a[k] != extra@ by {
                        assert(a[k] == inc@[k]@);
                    }
                }
            }
            if !found {
                let ghost before = texts(inc@);
                inc.push(extra.clone());
                assert(texts(inc@) =~= before.push(extra@));
            }
            i = i + 1;
        }
        assert(texts(self.includes@).take(self.includes@.len() as int) =~= texts(self.includes@));
        BindOptions {
            exclude_patterns: self.exclude.clone(),
            include_patterns: inc,
            text_extensions: base.text_extensions,
            attachment_max_bytes: self.attachment_max_bytes,
            text_file_max_bytes: self.text_file_max_bytes,
        }
    }
}

fn join_piece(base: &str, piece: &str) -> (r: String)
    ensures
        r@ == push_piece(base@, piece@),
{
    let mut p = chars_of(base);
    let t = chars_of(piece);
    if p.len() > 0 && p[p.len() - 1] != '/' {
        p.push('/');
    }
    extend_chars(&mut p, &t);
    string_of(p.as_slice())
}

/// `<vault_root>/.agentsync/config.toml`.
pub fn config_path(vault_root: &str) -> (r: String)
    ensures
        r@ == push_piece(push_piece(vault_root@, ".agentsync"@), "config.toml"@),
{
    let d = join_piece(vault_root, ".agentsync");
    join_piece(d.as_str(), "config.toml")
}

/// `<working_dir>/.agentsync`, where a vault keeps its state.
pub fn default_storage_path(working_dir: &str) -> (r: String)
    ensures
        r@ == push_piece(working_dir@, ".agentsync"@),
{
    join_piece(working_dir, ".agentsync")
}

/// The message `require_config` refuses with for the vault at `path`.
pub open spec fn no_vault_message(path: Seq<char>) -> Seq<char> {
    "no vault configured at "@ + path + " \u{2014} run `agentsync init` or `agentsync clone` first"@
}

/// The configuration read at `path`, refused, naming the path, when it
/// names no vault.
pub fn require_config(path: &str, cfg: ConfigFile) -> (r: Result<ConfigFile, Error>)
    ensures
        cfg.vault.id is Some ==> r == Ok::<ConfigFile, Error>(cfg),
        cfg.vault.id is None ==> (r matches Err(Error::Config(m)) && m@ == no_vault_message(path@)),
{
    if cfg.vault.id.is_none() {
        let mut msg = String::from_str("no vault configured at ");
        msg.append(path);
        msg.append(" \u{2014} run `agentsync init` or `agentsync clone` first");
        return Err(Error::Config(msg));
    }
    Ok(cfg)
}

/// The environment variable a key is read from: `[key] env_var`, or
/// `AGENTSYNC_KEY`.
pub open spec fn key_env_var_spec(cfg: ConfigFile) -> Seq<char> {
    match cfg.key.env_var {
        Some(v) => v@,
        None => "AGENTSYNC_KEY"@,
    }
}

pub fn key_env_var(cfg: &ConfigFile) -> (r: String)
    ensures
        r@ == key_env_var_spec(*cfg),
{
    match &cfg.key.env_var {
        Some(v) => v.clone(),
        None => String::from_str("AGENTSYNC_KEY"),
    }
}

/// Where the vault key comes from, given an override and the value of the
/// variable `key_env_var` names: the override wins; otherwise the `[key]
/// source` decides (`env` by default, `keyring` falls back to the
/// variable, `file` reads `key_b64`).
pub enum KeyText {
    /// The text to decode.
    Found(Seq<char>),
    /// Nothing to decode; why.
    Missing,
    /// A source that is not `env`, `file` or `keyring`.
    UnknownSource,
}

pub open spec fn key_text_spec(cfg: ConfigFile, env_override: Option<Seq<char>>, env_value: Option<Seq<char>>) -> KeyText {
    match env_override {
        Some(t) => KeyText::Found(t),
        None => {
            let source = match cfg.key.source {
                Some(s) => s@,
                None => "env"@,
            };
            if source == "env"@ || source == "keyring"@ {
                match env_value {
                    Some(v) => KeyText::Found(v),
                    None => KeyText::Missing,
                }
            } else if source == "file"@ {
                match cfg.key.key_b64 {
                    Some(b) => KeyText::Found(b@),
                    None => KeyText::Missing,
                }
            } else {
                KeyText::UnknownSource
            }
        }
    }
}

/// The vault key the configuration leads to. `env_value` is the value of
/// the variable [`key_env_var`] names, if set.
pub fn resolve_key(cfg: &ConfigFile, env_override: Option<&str>, env_value: Option<&str>) -> (r: Result<VaultKey, Error>)
    ensures
        match key_text_spec(
            *cfg,
            match env_override {
                Some(t) => Some(t@),
                None => None,
            },
            match env_value {
                Some(t) => Some(t@),
                None => None,
            },
        ) {
            KeyText::Found(t) => match decode_key_spec(t) {
                Some(k) => r matches Ok(x) && x@ == k,
                None => r is Err,
            },
            KeyText::Missing => r matches Err(Error::Config(_)),
            KeyText::UnknownSource => r matches Err(Error::Config(_)),
        },
{
    if let Some(b64) = env_override {
        return decode_key(b64);
    }
    let env_src = String::from_str("env");
    let source: String = match &cfg.key.source {
        Some(s) => s.clone(),
        None => env_src,
    };
    let src = chars_of(source.as_str());
    if crate::text::eq_lit(&src, "env") || crate::text::eq_lit(&src, "keyring") {
        match env_value {
            Some(v) => decode_key(v),
            None => Err(Error::Config(String::from_str("the key's environment variable is not set"))),
        }
    } else if crate::text::eq_lit(&src, "file") {
        match &cfg.key.key_b64 {
            Some(b) => decode_key(b.as_str()),
            None => Err(Error::Config(String::from_str("config.toml [key] missing key_b64 for file source"))),
        }
    } else {
        Err(Error::Config(String::from_str("unknown key source, expected env|file|keyring")))
    }
}

/// The pinned hub identity of the configuration: none when nothing is
/// pinned; an error when what is pinned does not read as a key.
pub fn resolve_hub_pubkey(cfg: &ConfigFile) -> (r: Result<Option<Pubkey>, Error>)
    ensures
        match cfg.vault.hub_pubkey {
            None => r matches Ok(None),
            Some(s) => match parse_ssh_pubkey_text(s@) {
                None => r matches Err(Error::Auth(_)),
                Some(pk) => r matches Ok(Some(p)) && p.0@ == pk,
            },
        },
{
    match &cfg.vault.hub_pubkey {
        None => Ok(None),
        Some(s) => match Pubkey::from_ssh_string(s.as_str()) {
            Ok(pk) => Ok(Some(pk)),
            Err(e) => Err(e),
        },
    }
}

} // verus!
