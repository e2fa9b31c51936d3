//! `.syncignore` files: gitignore-format rules that keep paths out of the
//! sync. Each file's rules are anchored to its own directory; where nested
//! files disagree, the deepest one that has a verdict wins.
//!
//! Matching a path against one file's rules is the `ignore` crate's work;
//! which files apply and how their verdicts combine is decided here.

use crate::fs::binding::{file_name_of, file_name_spec, push_piece};
use crate::path::under_spec;
use crate::text::{chars_of, eq_lit, extend_chars, slice_vec, starts_with, string_of};
use vstd::multiset::Multiset;
use vstd::prelude::*;

verus! {

/// File name looked for in every directory under the vault root.
pub const SYNC_IGNORE_FILENAME: &'static str = ".syncignore";

#[verifier::external_type_specification]
#[verifier::external_body]
pub struct ExGitignore(ignore::gitignore::Gitignore);

/// One file's verdict on a path.
#[derive(Clone, Copy, Debug, PartialEq, Eq, Structural)]
pub enum Verdict {
    /// A rule says the path is ignored.
    Ignore,
    /// A `!` rule says the path is kept.
    Whitelist,
    /// No rule of the file speaks of the path.
    Unmatched,
}

/// Whether the `ignore` crate builds a matcher from the lines of `content`
/// as rules anchored at `dir` (every line a valid rule).
pub uninterp spec fn gitignore_builds(dir: Seq<char>, content: Seq<char>) -> bool;

/// The verdict the `ignore` crate gives on `path` (or, failing that, on its
/// nearest parent that has one) under the rules of `content` anchored at
/// `dir`: `Some(true)` ignored, `Some(false)` kept by a `!` rule, `None` no
/// rule speaks of it.
pub uninterp spec fn gitignore_verdict_of(dir: Seq<char>, content: Seq<char>, path: Seq<char>, is_dir: bool) -> Option<bool>;

/// A verdict as the `Verdict` it stands for.
pub open spec fn verdict_of(v: Option<bool>) -> Verdict {
    match v {
        Some(true) => Verdict::Ignore,
        Some(false) => Verdict::Whitelist,
        None => Verdict::Unmatched,
    }
}

/// The rules of one `.syncignore` file, with the matcher built from them.
pub struct DirMatcher {
    /// The directory that holds the file; its rules are anchored there.
    dir: String,
    /// Components from the vault root to `dir`.
    depth: usize,
    /// The file's content.
    content: String,
    /// Built from `content` with `dir` as its root.
    matcher: ignore::gitignore::Gitignore,
}

impl DirMatcher {
    pub closed spec fn dir_spec(&self) -> Seq<char> {
        self.dir@
    }

    pub closed spec fn depth_spec(&self) -> usize {
        self.depth
    }

    pub closed spec fn content_spec(&self) -> Seq<char> {
        self.content@
    }

    /// The matcher as plain values: depth, directory, rules.
    pub open spec fn view_triple(&self) -> (usize, Seq<char>, Seq<char>) {
        (self.depth_spec(), self.dir_spec(), self.content_spec())
    }

    pub fn dir(&self) -> (r: &str)
        ensures
            r@ == self.dir_spec(),
    {
        self.dir.as_str()
    }

    pub fn depth(&self) -> (r: usize)
        ensures
            r == self.depth_spec(),
    {
        self.depth
    }

}

/// `GitignoreBuilder::new(dir)`, `add_line` for each line of `content`,
/// then `build`: the matcher of one `.syncignore` whose directory is `dir`,
/// `depth` components below the vault root. `None` when the crate refuses
/// a line; whether it does is named, not stated. Its caller,
/// `SyncIgnoreSet::from_files`, first strips a leading byte order mark, as
/// `GitignoreBuilder::add` does for a file.
#[verifier::external_body]
fn build_matcher(dir: &str, depth: usize, content: &str) -> (r: Option<DirMatcher>)
    ensures
        r is Some <==> gitignore_builds(dir@, content@),
        r matches Some(m) ==> m.dir_spec() == dir@ && m.depth_spec() == depth && m.content_spec()
            == content@,
{
    let mut builder = ignore::gitignore::GitignoreBuilder::new(dir);
    for line in content.lines() {
        builder.add_line(None, line).ok()?;
    }
    let matcher = builder.build().ok()?;
    Some(DirMatcher { dir: dir.to_string(), depth, content: content.to_string(), matcher })
}

/// `s` without a leading `./`.
pub open spec fn strip_dot_slash(s: Seq<char>) -> Seq<char> {
    if s.len() >= 2 && s[0] == '.' && s[1] == '/' {
        s.subrange(2, s.len() as int)
    } else {
        s
    }
}

/// The path the `ignore` crate's matcher rooted at `dir` goes on with for
/// `abs`: both lose a leading `./`; unless the root is `.` or the path has
/// no `/`, a leading copy of the root is cut off, then one `/`.
pub open spec fn gitignore_stripped(dir: Seq<char>, abs: Seq<char>) -> Seq<char> {
    let root = strip_dot_slash(dir);
    let p = strip_dot_slash(abs);
    if root != seq!['.'] && p.contains('/') && root.len() <= p.len() && p.subrange(0, root.len() as int)
        == root {
        let q = p.subrange(root.len() as int, p.len() as int);
        if q.len() > 0 && q[0] == '/' {
            q.subrange(1, q.len() as int)
        } else {
            q
        }
    } else {
        p
    }
}

/// Whether the matcher rooted at `dir` takes `abs`: what is left after
/// the strip does not start with `/` (the crate asserts it does not).
pub open spec fn strips_clean(dir: Seq<char>, abs: Seq<char>) -> bool {
    let q = gitignore_stripped(dir, abs);
    !(q.len() > 0 && q[0] == '/')
}

fn strip_dot_slash_vec(s: &Vec<char>) -> (r: Vec<char>)
    ensures
        r@ == strip_dot_slash(s@),
{
    if s.len() >= 2 && s[0] == '.' && s[1] == '/' {
        slice_vec(s, 2, s.len())
    } else {
        slice_vec(s, 0, s.len())
    }
}

/// Executable `strips_clean`.
fn takes_path(dir: &str, abs: &str) -> (r: bool)
    ensures
        r == strips_clean(dir@, abs@),
{
    let root = strip_dot_slash_vec(&chars_of(dir));
    let p = strip_dot_slash_vec(&chars_of(abs));
    let mut has_slash = false;
    let mut k: usize = 0;
    while k < p.len()
        invariant
            k <= p@.len(),
            has_slash == exists|j: int| 0 <= j < k && p@[j] == '/',
        decreases p@.len() - k,
    {
        if p[k] == '/' {
            has_slash = true;
        }
        k = k + 1;
    }
    assert(has_slash == p@.contains('/'));
    proof {
        assert(seq!['.'] =~= "."@) by {
            reveal_strlit(".");
        }
    }
    let q = if !eq_lit(&root, ".") && has_slash && starts_with(&p, &root) {
        let q0 = slice_vec(&p, root.len(), p.len());
        if q0.len() > 0 && q0[0] == '/' {
            slice_vec(&q0, 1, q0.len())
        } else {
            q0
        }
    } else {
        p
    };
    !(q.len() > 0 && q[0] == '/')
}

/// `Gitignore::matched_path_or_any_parents` on the matcher of `m`, which
/// was built with `m`'s directory as its root. The crate strips that root
/// off `abs` and panics when the rest still starts with `/`; `strips_clean`
/// is exactly the inputs it takes.
#[verifier::external_body]
fn gitignore_verdict(m: &DirMatcher, abs: &str, is_dir: bool) -> (r: Verdict)
    requires
        strips_clean(m.dir_spec(), abs@),
    ensures
        r == verdict_of(gitignore_verdict_of(m.dir_spec(), m.content_spec(), abs@, is_dir)),
{
    match m.matcher.matched_path_or_any_parents(std::path::Path::new(abs), is_dir) {
        ignore::Match::Ignore(_) => Verdict::Ignore,
        ignore::Match::Whitelist(_) => Verdict::Whitelist,
        ignore::Match::None => Verdict::Unmatched,
    }
}

/// The outcome of verdicts taken shallowest first: the last one that is
/// not `Unmatched` decides, and nothing ignores by default.
pub open spec fn resolve_spec(v: Seq<Verdict>) -> bool
    decreases v.len(),
{
    if v.len() == 0 {
        false
    } else {
        match v.last() {
            Verdict::Ignore => true,
            Verdict::Whitelist => false,
            Verdict::Unmatched => resolve_spec(v.drop_last()),
        }
    }
}

/// How a further, deeper verdict changes the outcome: one that says
/// nothing leaves it as it was, an ignore rule ignores, a `!` rule keeps;
/// with no verdict at all nothing is ignored.
pub proof fn lemma_resolve_steps(v: Seq<Verdict>)
    ensures
        resolve_spec(v.push(Verdict::Unmatched)) == resolve_spec(v),
        resolve_spec(v.push(Verdict::Ignore)),
        !resolve_spec(v.push(Verdict::Whitelist)),
        !resolve_spec(Seq::<Verdict>::empty()),
{
    assert(v.push(Verdict::Unmatched).drop_last() =~= v);
}

/// Verdict `i` ignores the path and no deeper verdict says anything.
pub open spec fn deepest_says_ignore(v: Seq<Verdict>, i: int) -> bool {
    &&& 0 <= i < v.len()
    &&& v[i] == Verdict::Ignore
    &&& forall|j: int| i < j < v.len() ==> #[trigger] v[j] == Verdict::Unmatched
}

/// A path is ignored exactly when its deepest verdict that says anything
/// is an ignore rule.
pub proof fn lemma_resolve_deepest(v: Seq<Verdict>)
    ensures
        resolve_spec(v) <==> exists|i: int| #[trigger] deepest_says_ignore(v, i),
    decreases v.len(),
{
    if v.len() > 0 {
        let d = v.drop_last();
        let n = v.len() - 1;
        lemma_resolve_deepest(d);
        match v[n] {
            Verdict::Unmatched => {
                if resolve_spec(d) {
                    let i = choose|i: int| #[trigger] deepest_says_ignore(d, i);
                    assert forall|j: int| i < j < v.len() implies #[trigger] v[j] == Verdict::Unmatched by {
                        if j < n {
                            assert(d[j] == v[j]);
                            assert(d[j] == Verdict::Unmatched);
                        }
                    }
                    assert(deepest_says_ignore(v, i));
                }
                if exists|i: int| #[trigger] deepest_says_ignore(v, i) {
                    let i = choose|i: int| #[trigger] deepest_says_ignore(v, i);
                    assert(i != n);
                    assert forall|j: int| i < j < d.len() implies #[trigger] d[j] == Verdict::Unmatched by {
                        assert(v[j] == Verdict::Unmatched);
                    }
                    assert(deepest_says_ignore(d, i));
                }
            },
            Verdict::Ignore => {
                assert(deepest_says_ignore(v, n));
            },
            Verdict::Whitelist => {
                if exists|i: int| #[trigger] deepest_says_ignore(v, i) {
                    let i = choose|i: int| #[trigger] deepest_says_ignore(v, i);
                    assert(i != n);
                    assert(v[n] == Verdict::Unmatched);
                }
            },
        }
    }
}

/// Combines verdicts taken shallowest first.
pub fn resolve_verdicts(v: &[Verdict]) -> (r: bool)
    ensures
        r == resolve_spec(v@),
{
    let mut ignored = false;
    let mut i: usize = 0;
    while i < v.len()
        invariant
            i <= v@.len(),
            ignored == resolve_spec(v@.take(i as int)),
        decreases v@.len() - i,
    {
        assert(v@.take(i + 1).drop_last() =~= v@.take(i as int));
        match v[i] {
            Verdict::Ignore => {
                ignored = true;
            },
            Verdict::Whitelist => {
                ignored = false;
            },
            Verdict::Unmatched => {},
        }
        i = i + 1;
    }
    assert(v@.take(v@.len() as int) =~= v@);
    ignored
}

/// Whether `s` is sorted by depth, shallowest first.
pub open spec fn depth_sorted(s: Seq<usize>) -> bool {
    forall|i: int, j: int| 0 <= i < j < s.len() ==> s[i] <= s[j]
}

/// The `.syncignore` matchers under a vault root, shallowest first.
pub struct SyncIgnoreSet {
    vault_root: String,
    matchers: Vec<DirMatcher>,
}

/// The matchers as plain values, in order.
pub open spec fn triples_of(s: Seq<DirMatcher>) -> Seq<(usize, Seq<char>, Seq<char>)> {
    s.map_values(|m: DirMatcher| m.view_triple())
}

/// `s` without a leading byte-order mark, which, as in git, is not part of
/// the first rule.
pub open spec fn strip_bom(s: Seq<char>) -> Seq<char> {
    if s.len() > 0 && s[0] == '\u{feff}' {
        s.subrange(1, s.len() as int)
    } else {
        s
    }
}

fn strip_bom_text(s: &str) -> (r: String)
    ensures
        r@ == strip_bom(s@),
{
    let cs = chars_of(s);
    if cs.len() > 0 && cs[0] == '\u{feff}' {
        string_of(slice_vec(&cs, 1, cs.len()).as_slice())
    } else {
        string_of(cs.as_slice())
    }
}

/// The `.syncignore` files (directory, depth, content) whose rules the
/// crate builds, as (depth, directory, content less a byte-order mark),
/// in order.
pub open spec fn built_files(files: Seq<(String, usize, String)>) -> Seq<(usize, Seq<char>, Seq<char>)>
    decreases files.len(),
{
    if files.len() == 0 {
        Seq::empty()
    } else {
        let prev = built_files(files.drop_last());
        let f = files.last();
        if gitignore_builds(f.0@, strip_bom(f.2@)) {
            prev.push((f.1, f.0@, strip_bom(f.2@)))
        } else {
            prev
        }
    }
}

/// The verdicts of the matchers whose directory holds `abs`, in order; a
/// matcher that cannot take the path (see `strips_clean`) gives none.
pub open spec fn applicable_verdicts(t: Seq<(usize, Seq<char>, Seq<char>)>, abs: Seq<char>, is_dir: bool) -> Seq<Verdict>
    decreases t.len(),
{
    if t.len() == 0 {
        Seq::empty()
    } else {
        let prev = applicable_verdicts(t.drop_last(), abs, is_dir);
        let m = t.last();
        if under_spec(m.1, abs) && strips_clean(m.1, abs) {
            prev.push(verdict_of(gitignore_verdict_of(m.1, m.2, abs, is_dir)))
        } else {
            prev
        }
    }
}

/// Sorts by depth, shallowest first, keeping the order of equal depths.
fn sort_by_depth(matchers: Vec<DirMatcher>) -> (r: Vec<DirMatcher>)
    ensures
        depth_sorted(triples_of(r@).map_values(|t: (usize, Seq<char>, Seq<char>)| t.0)),
        triples_of(r@).to_multiset() == triples_of(matchers@).to_multiset(),
{
    let mut sorted: Vec<DirMatcher> = Vec::new();
    let mut rest = matchers;
    let ghost all = triples_of(rest@);
    proof {
        broadcast use vstd::multiset::group_multiset_axioms;
        broadcast use vstd::seq_lib::group_to_multiset_ensures;
        assert(triples_of(sorted@) =~= Seq::<(usize, Seq<char>, Seq<char>)>::empty());
        assert(triples_of(sorted@).to_multiset() =~= Multiset::<(usize, Seq<char>, Seq<char>)>::empty());
        assert(Multiset::<(usize, Seq<char>, Seq<char>)>::empty().add(all.to_multiset()) =~= all.to_multiset());
    }
    while rest.len() > 0
        invariant
            forall|i: int, j: int|
                0 <= i < j < sorted@.len() ==> (#[trigger] sorted@[i]).depth_spec() <= (#[trigger] sorted@[j]).depth_spec(),
            triples_of(sorted@).to_multiset().add(triples_of(rest@).to_multiset()) == all.to_multiset(),
        decreases rest@.len(),
    {
        let ghost s0 = sorted@;
        let ghost r0 = rest@;
        let m = rest.remove(0);
        let d = m.depth();
        let mut pos: usize = sorted.len();
        while pos > 0 && sorted[pos - 1].depth() > d
            invariant
                pos <= sorted@.len(),
                sorted@ == s0,
                forall|k: int| pos <= k < s0.len() ==> (#[trigger] s0[k]).depth_spec() > d,
            decreases pos,
        {
            pos = pos - 1;
        }
        let ghost t = m.view_triple();
        sorted.insert(pos, m);
        proof {
            broadcast use vstd::multiset::group_multiset_axioms;
            assert(sorted@ =~= s0.insert(pos as int, m));
            assert(rest@ =~= r0.remove(0));
            assert(triples_of(sorted@) =~= triples_of(s0).insert(pos as int, t));
            assert(triples_of(rest@) =~= triples_of(r0).remove(0));
            vstd::seq_lib::to_multiset_insert(triples_of(s0), pos as int, t);
            vstd::seq_lib::to_multiset_remove(triples_of(r0), 0);
            assert(r0[0] == m);
            assert(triples_of(r0)[0] == t);
            vstd::seq_lib::to_multiset_contains(triples_of(r0), t);
            assert(triples_of(sorted@).to_multiset().add(triples_of(rest@).to_multiset()) =~= triples_of(
                s0,
            ).to_multiset().add(triples_of(r0).to_multiset()));
            let s1 = sorted@;
            assert forall|i: int, j: int| 0 <= i < j < s1.len() implies (#[trigger] s1[i]).depth_spec()
                <= (#[trigger] s1[j]).depth_spec() by {
                if i < pos && j == pos {
                    if pos > 0 {
                        assert(s0[pos - 1].depth_spec() <= d);
                        assert(s1[i] == s0[i]);
                    }
                } else if i == pos && j > pos {
                    assert(s1[j] == s0[j - 1]);
                } else if i < pos && j > pos {
                    assert(s1[i] == s0[i] && s1[j] == s0[j - 1]);
                } else if i > pos {
                    assert(s1[i] == s0[i - 1] && s1[j] == s0[j - 1]);
                } else {
                    assert(s1[i] == s0[i] && s1[j] == s0[j]);
                }
            }
        }
    }
    proof {
        broadcast use vstd::multiset::group_multiset_axioms;
        assert(triples_of(rest@) =~= Seq::<(usize, Seq<char>, Seq<char>)>::empty());
        assert(triples_of(rest@).to_multiset() =~= Multiset::<(usize, Seq<char>, Seq<char>)>::empty());
        assert(triples_of(sorted@).to_multiset().add(Multiset::empty()) =~= triples_of(sorted@).to_multiset());
        let ds = triples_of(sorted@).map_values(|t: (usize, Seq<char>, Seq<char>)| t.0);
        assert forall|i: int, j: int| 0 <= i < j < ds.len() implies ds[i] <= ds[j] by {
            assert(ds[i] == sorted@[i].depth_spec());
            assert(ds[j] == sorted@[j].depth_spec());
        }
    }
    sorted
}

impl SyncIgnoreSet {
    pub closed spec fn root_spec(&self) -> Seq<char> {
        self.vault_root@
    }

    /// The matchers as plain values, in the order they are applied.
    pub closed spec fn triples(&self) -> Seq<(usize, Seq<char>, Seq<char>)> {
        triples_of(self.matchers@)
    }

    /// The depths of the matchers, in the order they are applied.
    pub open spec fn depths(&self) -> Seq<usize> {
        self.triples().map_values(|t: (usize, Seq<char>, Seq<char>)| t.0)
    }

    pub open spec fn matcher_count(&self) -> nat {
        self.triples().len()
    }

    /// A set with no matchers under `vault_root`.
    pub fn empty(vault_root: &str) -> (r: SyncIgnoreSet)
        ensures
            r.root_spec() == vault_root@,
            r.matcher_count() == 0,
    {
        let r = SyncIgnoreSet { vault_root: String::from_str(vault_root), matchers: Vec::new() };
        assert(r.triples() =~= Seq::<(usize, Seq<char>, Seq<char>)>::empty());
        r
    }

    /// The rules of the `.syncignore` files under `vault_root`, given as
    /// (directory, depth below the root, content): a leading byte-order mark
    /// is dropped; a file whose rules the crate refuses is skipped; the rest are put in order of depth,
    /// shallowest first.
    pub fn from_files(vault_root: &str, files: &[(String, usize, String)]) -> (r: SyncIgnoreSet)
        ensures
            r.root_spec() == vault_root@,
            depth_sorted(r.depths()),
            r.triples().to_multiset() == built_files(files@).to_multiset(),
    {
        let mut built: Vec<DirMatcher> = Vec::new();
        let mut i: usize = 0;
        assert(files@.take(0) =~= Seq::<(String, usize, String)>::empty());
        while i < files.len()
            invariant
                i <= files@.len(),
                triples_of(built@) == built_files(files@.take(i as int)),
            decreases files@.len() - i,
        {
            let f = &files[i];
            assert(files@.take(i + 1).drop_last() =~= files@.take(i as int));
            assert(files@.take(i + 1).last() == files@[i as int]);
            let ghost before = triples_of(built@);
            let content = strip_bom_text(f.2.as_str());
            match build_matcher(f.0.as_str(), f.1, content.as_str()) {
                Some(m) => {
                    built.push(m);
                    assert(triples_of(built@) =~= before.push((f.1, f.0@, strip_bom(f.2@))));
                },
                None => {},
            }
            i = i + 1;
        }
        assert(files@.take(files@.len() as int) =~= files@);
        let sorted = sort_by_depth(built);
        SyncIgnoreSet { vault_root: String::from_str(vault_root), matchers: sorted }
    }

    /// True if no `.syncignore` file was found.
    pub fn is_empty(&self) -> (r: bool)
        ensures
            r == (self.matcher_count() == 0),
    {
        self.matchers.len() == 0
    }

    /// Whether the vault path `vault_relative` is ignored: the matchers
    /// whose directory holds the path are asked in order of depth and the
    /// last verdict that is not `Unmatched` decides.
    pub fn matches(&self, vault_relative: &str, is_dir: bool) -> (r: bool)
        ensures
            self.matcher_count() == 0 ==> !r,
            r == resolve_spec(
                applicable_verdicts(self.triples(), joined_path(self.root_spec(), vault_relative@), is_dir),
            ),
    {
        let abs = join_under(self.vault_root.as_str(), vault_relative);
        if self.matchers.len() == 0 {
            assert(applicable_verdicts(self.triples(), abs@, is_dir) =~= Seq::<Verdict>::empty());
            return false;
        }
        let mut verdicts: Vec<Verdict> = Vec::new();
        let mut i: usize = 0;
        assert(self.matchers@.take(0) =~= Seq::<DirMatcher>::empty());
        assert(triples_of(self.matchers@.take(0)) =~= Seq::<(usize, Seq<char>, Seq<char>)>::empty());
        while i < self.matchers.len()
            invariant
                i <= self.matchers@.len(),
                verdicts@ == applicable_verdicts(triples_of(self.matchers@.take(i as int)), abs@, is_dir),
            decreases self.matchers@.len() - i,
        {
            let m = &self.matchers[i];
            assert(triples_of(self.matchers@.take(i + 1)).drop_last() =~= triples_of(self.matchers@.take(i as int)));
            assert(triples_of(self.matchers@.take(i + 1)).last() == m.view_triple());
            if crate::path::under(m.dir(), abs.as_str()) && takes_path(m.dir(), abs.as_str()) {
                verdicts.push(gitignore_verdict(m, abs.as_str(), is_dir));
            }
            i = i + 1;
        }
        assert(self.matchers@.take(self.matchers@.len() as int) =~= self.matchers@);
        resolve_verdicts(verdicts.as_slice())
    }
}

/// `Path::join`: `rel` under `root`, or `rel` itself when it is absolute.
pub open spec fn joined_path(root: Seq<char>, rel: Seq<char>) -> Seq<char> {
    if rel.len() > 0 && rel[0] == '/' {
        rel
    } else {
        push_piece(root, rel)
    }
}

/// `root.join(rel)`.
fn join_under(root: &str, rel: &str) -> (r: String)
    ensures
        r@ == joined_path(root@, rel@),
{
    let t = chars_of(rel);
    if t.len() > 0 && t[0] == '/' {
        return string_of(t.as_slice());
    }
    let mut p = chars_of(root);
    if p.len() > 0 && p[p.len() - 1] != '/' {
        p.push('/');
    }
    extend_chars(&mut p, &t);
    string_of(p.as_slice())
}

/// `.syncignore`
pub open spec fn sync_ignore_name() -> Seq<char> {
    seq!['.', 's', 'y', 'n', 'c', 'i', 'g', 'n', 'o', 'r', 'e']
}

/// Whether the file name of `path` is `.syncignore`.
pub fn is_syncignore(path: &str) -> (r: bool)
    ensures
        r == (file_name_spec(path@) == Some(sync_ignore_name())),
{
    let cs = chars_of(path);
    proof {
        reveal_strlit(".syncignore");
        assert(SYNC_IGNORE_FILENAME@ =~= sync_ignore_name());
    }
    match file_name_of(&cs) {
        Some(n) => eq_lit(&n, SYNC_IGNORE_FILENAME),
        None => false,
    }
}

/// The directory names never searched for `.syncignore` files.
pub open spec fn is_skipped_name(n: Seq<char>) -> bool {
    n == seq!['.', 'g', 'i', 't'] || n == seq!['.', 'a', 'g', 'e', 'n', 't', 's', 'y', 'n', 'c']
        || n == seq!['n', 'o', 'd', 'e', '_', 'm', 'o', 'd', 'u', 'l', 'e', 's']
}

/// Whether the walk for `.syncignore` files skips the directory `path`:
/// never the root itself, always `.git`, `.agentsync` and `node_modules`.
pub fn is_skipped_dir(path: &str, vault_root: &str) -> (r: bool)
    ensures
        r == (path@ != vault_root@ && match file_name_spec(path@) {
            Some(n) => is_skipped_name(n),
            None => false,
        }),
{
    let cs = chars_of(path);
    let root = chars_of(vault_root);
    if crate::text::chars_eq(&cs, &root) {
        return false;
    }
    proof {
        reveal_strlit(".git");
        reveal_strlit(".agentsync");
        reveal_strlit("node_modules");
        assert(".git"@ =~= seq!['.', 'g', 'i', 't']);
        assert(".agentsync"@ =~= seq!['.', 'a', 'g', 'e', 'n', 't', 's', 'y', 'n', 'c']);
        assert("node_modules"@ =~= seq!['n', 'o', 'd', 'e', '_', 'm', 'o', 'd', 'u', 'l', 'e', 's']);
    }
    match file_name_of(&cs) {
        Some(n) => eq_lit(&n, ".git") || eq_lit(&n, ".agentsync") || eq_lit(&n, "node_modules"),
        None => false,
    }
}

} // verus!
