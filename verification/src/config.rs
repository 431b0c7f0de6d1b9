//! The sandbox policy model and its compiler: every policy structure
//! maps to a flat, deterministically ordered sequence of argument
//! tokens for the isolation primitive, and a configuration document
//! resolves a target program to the first applicable profile.

use vstd::prelude::*;

use crate::strutil::{
    dec_seq, lemma_str_lt_asymmetric, lemma_str_lt_connected, lemma_str_lt_irreflexive,
    lemma_str_lt_transitive, str_eq, str_lt, str_lt_exec, u32_to_dec,
};

verus! {

/// An OS isolation domain that can be kept shared with the host or
/// unshared for the sandboxed process.
#[derive(Clone, Copy, Debug, PartialEq, Eq, Structural)]
pub enum Namespace {
    User,
    Ipc,
    Pid,
    Network,
    Uts,
    CGroup,
}

/// How a bound host path behaves inside the sandbox.
#[derive(Clone, Copy, Debug, PartialEq, Eq, Structural)]
pub enum BindKind {
    ReadWrite,
    ReadOnly,
    Device,
}

/// What kind of synthetic directory entry to create in the sandbox.
#[derive(Clone, Copy, Debug, PartialEq, Eq, Structural)]
pub enum DirectoryKind {
    Directory,
    Proc,
    Dev,
    TmpFs,
}

/// A request to make a host path visible inside the sandbox.
#[derive(Debug)]
pub struct Bind {
    pub kind: BindKind,
    pub src: String,
    pub dest: String,
}

/// A symbolic link to create inside the sandbox.
#[derive(Debug)]
pub struct Link {
    pub src: String,
    pub dest: String,
}

/// A directory or mount point to create inside the sandbox.
#[derive(Debug)]
pub struct Directory {
    pub kind: DirectoryKind,
    pub path: String,
}

/// One environment variable binding.
#[derive(Debug)]
pub struct EnvVar {
    pub key: String,
    pub value: String,
}

/// The environment sub-policy: an optional clear-all, variables to
/// unset, and variables to set. `vars` is kept strictly sorted by key
/// (see [`Environment::wf`]) so that compilation is deterministic no
/// matter in which order the bindings were added.
#[derive(Debug)]
pub struct Environment {
    pub unset_all: bool,
    pub unset: Vec<String>,
    pub vars: Vec<EnvVar>,
}

/// A complete sandbox policy.
#[derive(Debug)]
pub struct SandboxConfig {
    /// Namespace kinds left shared with the host; empty means
    /// "isolate everything".
    pub shared_namespaces: Vec<Namespace>,
    pub uid: Option<u32>,
    pub gid: Option<u32>,
    pub env: Environment,
    pub binds: Vec<Bind>,
    pub symlinks: Vec<Link>,
    pub dirs: Vec<Directory>,
    /// User names to resolve and inject as a synthetic `/etc/passwd`;
    /// absent means no lookup at all.
    pub users: Option<Vec<String>>,
    /// Group names to resolve and inject as a synthetic `/etc/group`.
    pub groups: Option<Vec<String>>,
}

/// A named, reusable sandbox policy, optionally auto-selected by the
/// target program's name.
#[derive(Debug)]
pub struct Profile {
    pub name: String,
    pub programs: Vec<String>,
    pub config: SandboxConfig,
}

/// A configuration document: profiles in document order plus an
/// optional default profile name.
#[derive(Debug)]
pub struct Configuration {
    pub default_profile: Option<String>,
    pub profiles: Vec<Profile>,
}

// ---------------------------------------------------------------------
// Token specifications
// ---------------------------------------------------------------------

/// The token that isolates one namespace kind.
pub open spec fn ns_token(ns: Namespace) -> Seq<char> {
    match ns {
        Namespace::User => "--unshare-user"@,
        Namespace::Ipc => "--unshare-ipc"@,
        Namespace::Pid => "--unshare-pid"@,
        Namespace::Network => "--unshare-net"@,
        Namespace::Uts => "--unshare-uts"@,
        Namespace::CGroup => "--unshare-cgroup"@,
    }
}

/// The isolation token for `ns`, or nothing if `ns` stays shared.
pub open spec fn opt_ns_token(shared: Seq<Namespace>, ns: Namespace) -> Seq<Seq<char>> {
    if shared.contains(ns) {
        Seq::empty()
    } else {
        seq![ns_token(ns)]
    }
}

/// Namespace tokens: the single "isolate everything" token when
/// nothing is shared, else one isolation token per absent kind, in
/// fixed declaration order.
pub open spec fn spec_namespace_tokens(shared: Seq<Namespace>) -> Seq<Seq<char>> {
    if shared.len() == 0 {
        seq!["--unshare-all"@]
    } else {
        opt_ns_token(shared, Namespace::User) + opt_ns_token(shared, Namespace::Ipc)
            + opt_ns_token(shared, Namespace::Pid) + opt_ns_token(shared, Namespace::Network)
            + opt_ns_token(shared, Namespace::Uts) + opt_ns_token(shared, Namespace::CGroup)
    }
}

/// The flag that selects a bind's semantics.
pub open spec fn bind_kind_token(kind: BindKind) -> Seq<char> {
    match kind {
        BindKind::ReadWrite => "--bind"@,
        BindKind::ReadOnly => "--ro-bind"@,
        BindKind::Device => "--dev-bind"@,
    }
}

/// The flag that selects a directory entry's kind.
pub open spec fn dir_kind_token(kind: DirectoryKind) -> Seq<char> {
    match kind {
        DirectoryKind::Directory => "--dir"@,
        DirectoryKind::Proc => "--proc"@,
        DirectoryKind::Dev => "--dev"@,
        DirectoryKind::TmpFs => "--tmpfs"@,
    }
}

/// One bind compiles to flag, source, destination.
pub open spec fn spec_bind_tokens(b: Bind) -> Seq<Seq<char>> {
    seq![bind_kind_token(b.kind), b.src@, b.dest@]
}

/// One symlink compiles to flag, source, destination.
pub open spec fn spec_link_tokens(l: Link) -> Seq<Seq<char>> {
    seq!["--symlink"@, l.src@, l.dest@]
}

/// One directory entry compiles to flag, path — for every kind,
/// including the mount kinds.
pub open spec fn spec_dir_tokens(d: Directory) -> Seq<Seq<char>> {
    seq![dir_kind_token(d.kind), d.path@]
}

pub open spec fn spec_binds_tokens(binds: Seq<Bind>) -> Seq<Seq<char>>
    decreases binds.len(),
{
    if binds.len() == 0 {
        Seq::empty()
    } else {
        spec_binds_tokens(binds.drop_last()) + spec_bind_tokens(binds.last())
    }
}

pub open spec fn spec_links_tokens(links: Seq<Link>) -> Seq<Seq<char>>
    decreases links.len(),
{
    if links.len() == 0 {
        Seq::empty()
    } else {
        spec_links_tokens(links.drop_last()) + spec_link_tokens(links.last())
    }
}

pub open spec fn spec_dirs_tokens(dirs: Seq<Directory>) -> Seq<Seq<char>>
    decreases dirs.len(),
{
    if dirs.len() == 0 {
        Seq::empty()
    } else {
        spec_dirs_tokens(dirs.drop_last()) + spec_dir_tokens(dirs.last())
    }
}

/// Unset tokens: an "--unsetenv name" pair per name, in list order.
pub open spec fn spec_unset_tokens(names: Seq<Seq<char>>) -> Seq<Seq<char>>
    decreases names.len(),
{
    if names.len() == 0 {
        Seq::empty()
    } else {
        spec_unset_tokens(names.drop_last()) + seq!["--unsetenv"@, names.last()]
    }
}

/// The view of the variable list: each binding as a pair of key and
/// value character sequences.
pub open spec fn env_kvs(vars: Seq<EnvVar>) -> Seq<(Seq<char>, Seq<char>)> {
    vars.map_values(|v: EnvVar| (v.key@, v.value@))
}

/// Set tokens: a "--setenv key value" triple per binding, in list
/// order (the list itself is kept sorted by key).
pub open spec fn spec_var_tokens(kvs: Seq<(Seq<char>, Seq<char>)>) -> Seq<Seq<char>>
    decreases kvs.len(),
{
    if kvs.len() == 0 {
        Seq::empty()
    } else {
        spec_var_tokens(kvs.drop_last()) + seq!["--setenv"@, kvs.last().0, kvs.last().1]
    }
}

/// The environment sub-policy's tokens: clear-all, then unsets in
/// list order, then sets in key order.
pub open spec fn spec_env_tokens(e: Environment) -> Seq<Seq<char>> {
    (if e.unset_all {
        seq!["--clearenv"@]
    } else {
        Seq::empty()
    }) + spec_unset_tokens(e.unset.deep_view()) + spec_var_tokens(env_kvs(e.vars@))
}

/// The uid or gid selection pair, or nothing.
pub open spec fn spec_id_tokens(flag: Seq<char>, id: Option<u32>) -> Seq<Seq<char>> {
    match id {
        Some(v) => seq![flag, dec_seq(v as nat)],
        None => Seq::empty(),
    }
}

/// The whole policy's tokens, in fixed field order: namespaces, uid,
/// gid, environment, binds, symlinks, directories.
pub open spec fn spec_sandbox_tokens(c: SandboxConfig) -> Seq<Seq<char>> {
    spec_namespace_tokens(c.shared_namespaces@) + spec_id_tokens("--uid"@, c.uid)
        + spec_id_tokens("--gid"@, c.gid) + spec_env_tokens(c.env)
        + spec_binds_tokens(c.binds@) + spec_links_tokens(c.symlinks@)
        + spec_dirs_tokens(c.dirs@)
}

// ---------------------------------------------------------------------
// The environment variable map: a strictly key-sorted list
// ---------------------------------------------------------------------

/// Strictly sorted by key: every earlier binding's key is below every
/// later one's, so each key appears at most once.
pub open spec fn kvs_sorted(kvs: Seq<(Seq<char>, Seq<char>)>) -> bool {
    forall|i: int, j: int| 0 <= i < j < kvs.len() ==> str_lt(#[trigger] kvs[i].0, #[trigger] kvs[j].0)
}

/// Binding `k` to `v` in a key-sorted list: replaces the binding of
/// `k` if one is there, else inserts at the unique order-preserving
/// position.
pub open spec fn spec_insert_sorted(
    kvs: Seq<(Seq<char>, Seq<char>)>,
    k: Seq<char>,
    v: Seq<char>,
) -> Seq<(Seq<char>, Seq<char>)>
    decreases kvs.len(),
{
    if kvs.len() == 0 {
        seq![(k, v)]
    } else if str_lt(k, kvs[0].0) {
        seq![(k, v)] + kvs
    } else if k == kvs[0].0 {
        seq![(k, v)] + kvs.skip(1)
    } else {
        seq![kvs[0]] + spec_insert_sorted(kvs.skip(1), k, v)
    }
}

impl Environment {
    /// Well-formed: the variable bindings are strictly sorted by key,
    /// which makes compilation order canonical.
    pub open spec fn wf(&self) -> bool {
        kvs_sorted(env_kvs(self.vars@))
    }

    /// An empty environment policy: nothing cleared, nothing unset,
    /// nothing set.
    pub fn empty() -> (r: Environment)
        ensures
            r.unset_all == false,
            r.unset@ == Seq::<String>::empty(),
            r.vars@ == Seq::<EnvVar>::empty(),
            r.wf(),
    {
        let r = Environment { unset_all: false, unset: Vec::new(), vars: Vec::new() };
        proof {
            assert(env_kvs(r.vars@) =~= Seq::<(Seq<char>, Seq<char>)>::empty());
        }
        r
    }

    /// Binds `key` to `value`, replacing any earlier binding of the
    /// same key and keeping the list sorted: where the bindings came
    /// from in any order, the stored list is the same.
    pub fn set_var(&mut self, key: String, value: String)
        requires
            old(self).wf(),
        ensures
            final(self).wf(),
            final(self).unset_all == old(self).unset_all,
            final(self).unset == old(self).unset,
            env_kvs(final(self).vars@) == spec_insert_sorted(
                env_kvs(old(self).vars@),
                key@,
                value@,
            ),
    {
        let ghost kvs = env_kvs(old(self).vars@);
        let idx = find_insert_pos(&self.vars, key.as_str());
        proof {
            lemma_insert_sorted_at(kvs, key@, value@, idx as int);
            lemma_insert_sorted_preserves_sorted(kvs, key@, value@);
        }
        if idx < self.vars.len() && str_eq(self.vars[idx].key.as_str(), key.as_str()) {
            self.vars.remove(idx);
            self.vars.insert(idx, EnvVar { key, value });
            proof {
                assert(env_kvs(self.vars@) =~= kvs.take(idx as int) + seq![(key@, value@)]
                    + kvs.skip(idx as int + 1));
            }
        } else {
            self.vars.insert(idx, EnvVar { key, value });
            proof {
                assert(env_kvs(self.vars@) =~= kvs.take(idx as int) + seq![(key@, value@)]
                    + kvs.skip(idx as int));
            }
        }
    }
}

fn find_insert_pos(vars: &Vec<EnvVar>, key: &str) -> (idx: usize)
    ensures
        0 <= idx <= vars@.len(),
        forall|j: int| 0 <= j < idx ==> str_lt(#[trigger] env_kvs(vars@)[j].0, key@),
        idx < vars@.len() ==> !str_lt(env_kvs(vars@)[idx as int].0, key@),
{
    let mut idx: usize = 0;
    while idx < vars.len()
        invariant
            0 <= idx <= vars@.len(),
            forall|j: int| 0 <= j < idx ==> str_lt(#[trigger] env_kvs(vars@)[j].0, key@),
        decreases vars@.len() - idx,
    {
        if !str_lt_exec(vars[idx].key.as_str(), key) {
            proof {
                assert(env_kvs(vars@)[idx as int].0 == vars@[idx as int].key@);
            }
            return idx;
        }
        proof {
            assert(env_kvs(vars@)[idx as int].0 == vars@[idx as int].key@);
        }
        idx += 1;
    }
    idx
}

/// Where the scan stopped tells exactly what the sorted insert is:
/// the prefix strictly below `k`, then the new binding, then the rest
/// (minus the replaced binding when the key was already bound).
pub proof fn lemma_insert_sorted_at(
    kvs: Seq<(Seq<char>, Seq<char>)>,
    k: Seq<char>,
    v: Seq<char>,
    idx: int,
)
    requires
        0 <= idx <= kvs.len(),
        forall|j: int| 0 <= j < idx ==> str_lt(#[trigger] kvs[j].0, k),
        idx < kvs.len() ==> !str_lt(kvs[idx].0, k),
    ensures
        idx < kvs.len() && kvs[idx].0 == k ==> spec_insert_sorted(kvs, k, v) == kvs.take(idx)
            + seq![(k, v)] + kvs.skip(idx + 1),
        !(idx < kvs.len() && kvs[idx].0 == k) ==> spec_insert_sorted(kvs, k, v) == kvs.take(idx)
            + seq![(k, v)] + kvs.skip(idx),
    decreases idx,
{
    if idx == 0 {
        if kvs.len() == 0 {
            assert(spec_insert_sorted(kvs, k, v) =~= kvs.take(0) + seq![(k, v)] + kvs.skip(0));
        } else if kvs[0].0 == k {
            lemma_str_lt_irreflexive(k);
            assert(spec_insert_sorted(kvs, k, v) =~= kvs.take(0) + seq![(k, v)] + kvs.skip(1));
        } else {
            lemma_str_lt_connected(k, kvs[0].0);
            assert(str_lt(k, kvs[0].0));
            assert(spec_insert_sorted(kvs, k, v) =~= kvs.take(0) + seq![(k, v)] + kvs.skip(0));
        }
    } else {
        lemma_str_lt_asymmetric(kvs[0].0, k);
        lemma_str_lt_irreflexive(k);
        assert(!str_lt(k, kvs[0].0));
        assert(kvs[0].0 != k);
        let rest = kvs.skip(1);
        assert forall|j: int| 0 <= j < idx - 1 implies str_lt(#[trigger] rest[j].0, k) by {
            assert(rest[j] == kvs[j + 1]);
        }
        assert(idx - 1 < rest.len() ==> !str_lt(rest[idx - 1].0, k));
        lemma_insert_sorted_at(rest, k, v, idx - 1);
        if idx < kvs.len() && kvs[idx].0 == k {
            assert(rest[idx - 1] == kvs[idx]);
            assert(seq![kvs[0]] + (rest.take(idx - 1) + seq![(k, v)] + rest.skip(idx))
                =~= kvs.take(idx) + seq![(k, v)] + kvs.skip(idx + 1));
        } else {
            assert(seq![kvs[0]] + (rest.take(idx - 1) + seq![(k, v)] + rest.skip(idx - 1))
                =~= kvs.take(idx) + seq![(k, v)] + kvs.skip(idx));
        }
    }
}

/// Every element of the inserted list is the new binding or one of
/// the old ones.
pub proof fn lemma_insert_sorted_elems(kvs: Seq<(Seq<char>, Seq<char>)>, k: Seq<char>, v: Seq<char>)
    ensures
        forall|j: int|
            0 <= j < spec_insert_sorted(kvs, k, v).len() ==> (#[trigger] spec_insert_sorted(
                kvs,
                k,
                v,
            )[j] == (k, v) || kvs.contains(spec_insert_sorted(kvs, k, v)[j])),
    decreases kvs.len(),
{
    if kvs.len() == 0 {
    } else if str_lt(k, kvs[0].0) {
    } else if k == kvs[0].0 {
        assert forall|j: int|
            0 <= j < spec_insert_sorted(kvs, k, v).len() implies (#[trigger] spec_insert_sorted(
            kvs,
            k,
            v,
        )[j] == (k, v) || kvs.contains(spec_insert_sorted(kvs, k, v)[j])) by {
            if j > 0 {
                assert(spec_insert_sorted(kvs, k, v)[j] == kvs[j]);
            }
        }
    } else {
        lemma_insert_sorted_elems(kvs.skip(1), k, v);
        let rec = spec_insert_sorted(kvs.skip(1), k, v);
        assert forall|j: int|
            0 <= j < spec_insert_sorted(kvs, k, v).len() implies (#[trigger] spec_insert_sorted(
            kvs,
            k,
            v,
        )[j] == (k, v) || kvs.contains(spec_insert_sorted(kvs, k, v)[j])) by {
            if j == 0 {
                assert(kvs.contains(kvs[0]));
            } else {
                assert(spec_insert_sorted(kvs, k, v)[j] == rec[j - 1]);
                if rec[j - 1] != (k, v) {
                    let m = choose|m: int| 0 <= m < kvs.skip(1).len() && kvs.skip(1)[m] == rec[j
                        - 1];
                    assert(kvs[m + 1] == rec[j - 1]);
                    assert(kvs.contains(kvs[m + 1]));
                }
            }
        }
    }
}

/// Sorted insertion keeps the list sorted.
pub proof fn lemma_insert_sorted_preserves_sorted(
    kvs: Seq<(Seq<char>, Seq<char>)>,
    k: Seq<char>,
    v: Seq<char>,
)
    requires
        kvs_sorted(kvs),
    ensures
        kvs_sorted(spec_insert_sorted(kvs, k, v)),
    decreases kvs.len(),
{
    let out = spec_insert_sorted(kvs, k, v);
    if kvs.len() == 0 {
    } else if str_lt(k, kvs[0].0) {
        assert forall|i: int, j: int| 0 <= i < j < out.len() implies str_lt(
            #[trigger] out[i].0,
            #[trigger] out[j].0,
        ) by {
            if i == 0 {
                if j > 1 {
                    lemma_str_lt_transitive(k, kvs[0].0, kvs[j - 1].0);
                }
            } else {
                assert(out[i] == kvs[i - 1]);
                assert(out[j] == kvs[j - 1]);
            }
        }
    } else if k == kvs[0].0 {
        assert forall|i: int, j: int| 0 <= i < j < out.len() implies str_lt(
            #[trigger] out[i].0,
            #[trigger] out[j].0,
        ) by {
            if i == 0 {
                assert(out[j] == kvs[j]);
            } else {
                assert(out[i] == kvs[i]);
                assert(out[j] == kvs[j]);
            }
        }
    } else {
        lemma_str_lt_connected(k, kvs[0].0);
        assert(str_lt(kvs[0].0, k));
        assert forall|i: int, j: int| 0 <= i < j < kvs.skip(1).len() implies str_lt(
            #[trigger] kvs.skip(1)[i].0,
            #[trigger] kvs.skip(1)[j].0,
        ) by {
            assert(kvs.skip(1)[i] == kvs[i + 1]);
            assert(kvs.skip(1)[j] == kvs[j + 1]);
        }
        lemma_insert_sorted_preserves_sorted(kvs.skip(1), k, v);
        lemma_insert_sorted_elems(kvs.skip(1), k, v);
        let rec = spec_insert_sorted(kvs.skip(1), k, v);
        assert forall|i: int, j: int| 0 <= i < j < out.len() implies str_lt(
            #[trigger] out[i].0,
            #[trigger] out[j].0,
        ) by {
            if i == 0 {
                assert(out[j] == rec[j - 1]);
                if rec[j - 1] == (k, v) {
                    assert(str_lt(kvs[0].0, k));
                } else {
                    let m = choose|m: int| 0 <= m < kvs.skip(1).len() && kvs.skip(1)[m] == rec[j
                        - 1];
                    assert(kvs[m + 1] == rec[j - 1]);
                    assert(str_lt(kvs[0].0, kvs[m + 1].0));
                }
            } else {
                assert(out[i] == rec[i - 1]);
                assert(out[j] == rec[j - 1]);
            }
        }
    }
}

// ---------------------------------------------------------------------
// Profile resolution
// ---------------------------------------------------------------------

/// Whether profile `p` is associated with the program named `prog`.
pub open spec fn profile_matches_program(p: Profile, prog: Seq<char>) -> bool {
    p.programs.deep_view().contains(prog)
}

/// The least index of a profile associated with `prog`, scanning in
/// document order.
pub open spec fn spec_first_program_match(profiles: Seq<Profile>, prog: Seq<char>) -> Option<int>
    decreases profiles.len(),
{
    if profiles.len() == 0 {
        None
    } else if profile_matches_program(profiles[0], prog) {
        Some(0int)
    } else {
        match spec_first_program_match(profiles.skip(1), prog) {
            Some(i) => Some(i + 1),
            None => None,
        }
    }
}

/// The least index of a profile named `name`, scanning in document
/// order.
pub open spec fn spec_first_name_match(profiles: Seq<Profile>, name: Seq<char>) -> Option<int>
    decreases profiles.len(),
{
    if profiles.len() == 0 {
        None
    } else if profiles[0].name@ == name {
        Some(0int)
    } else {
        match spec_first_name_match(profiles.skip(1), name) {
            Some(i) => Some(i + 1),
            None => None,
        }
    }
}

/// The index of the profile named by `default_profile`, if both are
/// there.
pub open spec fn spec_default_match(c: Configuration) -> Option<int> {
    match c.default_profile {
        Some(d) => spec_first_name_match(c.profiles@, d@),
        None => None,
    }
}

/// Which profile a launch of `prog` uses: the first profile
/// associated with `prog`, else the first profile carrying the
/// configured default name; `None` when neither exists. First match
/// wins in document order, both for program association and for name
/// lookup.
pub open spec fn spec_resolve(c: Configuration, prog: Seq<char>) -> Option<int> {
    match spec_first_program_match(c.profiles@, prog) {
        Some(i) => Some(i),
        None => spec_default_match(c),
    }
}

/// A name match at `i` with no earlier match pins the scan's result.
pub proof fn lemma_first_name_match_some(profiles: Seq<Profile>, name: Seq<char>, i: int)
    requires
        0 <= i < profiles.len(),
        profiles[i].name@ == name,
        forall|j: int| 0 <= j < i ==> profiles[j].name@ != name,
    ensures
        spec_first_name_match(profiles, name) == Some(i),
    decreases i,
{
    if i > 0 {
        assert(profiles[0].name@ != name);
        assert(profiles.skip(1)[i - 1] == profiles[i]);
        assert forall|j: int| 0 <= j < i - 1 implies profiles.skip(1)[j].name@ != name by {
            assert(profiles.skip(1)[j] == profiles[j + 1]);
        }
        lemma_first_name_match_some(profiles.skip(1), name, i - 1);
    }
}

/// With no match anywhere the scan comes up empty.
pub proof fn lemma_first_name_match_none(profiles: Seq<Profile>, name: Seq<char>)
    requires
        forall|j: int| 0 <= j < profiles.len() ==> profiles[j].name@ != name,
    ensures
        spec_first_name_match(profiles, name) is None,
    decreases profiles.len(),
{
    if profiles.len() > 0 {
        assert forall|j: int| 0 <= j < profiles.skip(1).len() implies profiles.skip(1)[j].name@
            != name by {
            assert(profiles.skip(1)[j] == profiles[j + 1]);
        }
        lemma_first_name_match_none(profiles.skip(1), name);
    }
}

/// A program association at `i` with no earlier association pins the
/// scan's result.
pub proof fn lemma_first_program_match_some(profiles: Seq<Profile>, prog: Seq<char>, i: int)
    requires
        0 <= i < profiles.len(),
        profile_matches_program(profiles[i], prog),
        forall|j: int| 0 <= j < i ==> !profile_matches_program(profiles[j], prog),
    ensures
        spec_first_program_match(profiles, prog) == Some(i),
    decreases i,
{
    if i > 0 {
        assert(!profile_matches_program(profiles[0], prog));
        assert(profiles.skip(1)[i - 1] == profiles[i]);
        assert forall|j: int| 0 <= j < i - 1 implies !profile_matches_program(
            profiles.skip(1)[j],
            prog,
        ) by {
            assert(profiles.skip(1)[j] == profiles[j + 1]);
        }
        lemma_first_program_match_some(profiles.skip(1), prog, i - 1);
    }
}

/// With no association anywhere the scan comes up empty.
pub proof fn lemma_first_program_match_none(profiles: Seq<Profile>, prog: Seq<char>)
    requires
        forall|j: int| 0 <= j < profiles.len() ==> !profile_matches_program(profiles[j], prog),
    ensures
        spec_first_program_match(profiles, prog) is None,
    decreases profiles.len(),
{
    if profiles.len() > 0 {
        assert forall|j: int| 0 <= j < profiles.skip(1).len() implies !profile_matches_program(
            profiles.skip(1)[j],
            prog,
        ) by {
            assert(profiles.skip(1)[j] == profiles[j + 1]);
        }
        lemma_first_program_match_none(profiles.skip(1), prog);
    }
}

fn programs_contain(programs: &Vec<String>, program: &str) -> (r: bool)
    ensures
        r == programs.deep_view().contains(program@),
{
    let mut i: usize = 0;
    while i < programs.len()
        invariant
            0 <= i <= programs@.len(),
            forall|j: int| 0 <= j < i ==> programs.deep_view()[j] != program@,
        decreases programs@.len() - i,
    {
        if str_eq(programs[i].as_str(), program) {
            proof {
                assert(programs.deep_view()[i as int] == program@);
            }
            return true;
        }
        i += 1;
    }
    false
}

impl Configuration {
    /// The first profile named `name`, in document order.
    pub fn get_profile(&self, name: &str) -> (r: Option<&Profile>)
        ensures
            (r is Some) == (spec_first_name_match(self.profiles@, name@) is Some),
            r is Some ==> *r->0 == self.profiles@[spec_first_name_match(
                self.profiles@,
                name@,
            )->0],
    {
        let mut i: usize = 0;
        while i < self.profiles.len()
            invariant
                0 <= i <= self.profiles@.len(),
                forall|j: int| 0 <= j < i ==> self.profiles@[j].name@ != name@,
            decreases self.profiles@.len() - i,
        {
            if str_eq(self.profiles[i].name.as_str(), name) {
                proof {
                    lemma_first_name_match_some(self.profiles@, name@, i as int);
                }
                return Some(&self.profiles[i]);
            }
            i += 1;
        }
        proof {
            lemma_first_name_match_none(self.profiles@, name@);
        }
        None
    }

    /// The profile named by `default_profile`, if both the setting
    /// and such a profile exist.
    pub fn get_default_profile(&self) -> (r: Option<&Profile>)
        ensures
            (r is Some) == (spec_default_match(*self) is Some),
            r is Some ==> *r->0 == self.profiles@[spec_default_match(*self)->0],
    {
        match &self.default_profile {
            Some(default_profile) => self.get_profile(default_profile.as_str()),
            None => None,
        }
    }

    /// Resolves the profile a launch of `program` uses: the first
    /// profile associated with the program, else the default profile.
    /// `None` means the launch must be refused — there is no
    /// "no sandbox" fallback.
    pub fn get_profile_for_program(&self, program: &str) -> (r: Option<&Profile>)
        ensures
            (r is Some) == (spec_resolve(*self, program@) is Some),
            r is Some ==> *r->0 == self.profiles@[spec_resolve(*self, program@)->0],
    {
        let mut i: usize = 0;
        while i < self.profiles.len()
            invariant
                0 <= i <= self.profiles@.len(),
                forall|j: int| 0 <= j < i ==> !profile_matches_program(self.profiles@[j], program@),
            decreases self.profiles@.len() - i,
        {
            if programs_contain(&self.profiles[i].programs, program) {
                proof {
                    lemma_first_program_match_some(self.profiles@, program@, i as int);
                }
                return Some(&self.profiles[i]);
            }
            i += 1;
        }
        proof {
            lemma_first_program_match_none(self.profiles@, program@);
        }
        self.get_default_profile()
    }
}

// ---------------------------------------------------------------------
// Compilation to executable token vectors
// ---------------------------------------------------------------------

fn contains_ns(v: &Vec<Namespace>, ns: Namespace) -> (r: bool)
    ensures
        r == v@.contains(ns),
{
    let mut i: usize = 0;
    while i < v.len()
        invariant
            0 <= i <= v@.len(),
            forall|j: int| 0 <= j < i ==> v@[j] != ns,
        decreases v@.len() - i,
    {
        if v[i] == ns {
            return true;
        }
        i += 1;
    }
    false
}

fn push_ns_if_isolated(args: &mut Vec<String>, shared: &Vec<Namespace>, ns: Namespace)
    ensures
        final(args).deep_view() == old(args).deep_view() + opt_ns_token(shared@, ns),
{
    if !contains_ns(shared, ns) {
        let tok: &'static str = match ns {
            Namespace::User => "--unshare-user",
            Namespace::Ipc => "--unshare-ipc",
            Namespace::Pid => "--unshare-pid",
            Namespace::Network => "--unshare-net",
            Namespace::Uts => "--unshare-uts",
            Namespace::CGroup => "--unshare-cgroup",
        };
        args.push(tok.to_owned());
        proof {
            assert(args.deep_view() =~= old(args).deep_view() + opt_ns_token(shared@, ns));
        }
    } else {
        proof {
            assert(args.deep_view() =~= old(args).deep_view() + opt_ns_token(shared@, ns));
        }
    }
}

impl Environment {
    /// Compiles the environment sub-policy: optional clear-all token,
    /// then unset pairs in list order, then set triples in list order
    /// — which is sorted key order for a well-formed environment.
    pub fn bwrap_args(&self) -> (r: Vec<String>)
        ensures
            r.deep_view() == spec_env_tokens(*self),
    {
        let mut args: Vec<String> = Vec::new();
        if self.unset_all {
            args.push("--clearenv".to_owned());
        }
        let ghost pre: Seq<Seq<char>> = if self.unset_all {
            seq!["--clearenv"@]
        } else {
            Seq::empty()
        };
        proof {
            assert(args.deep_view() =~= pre);
        }
        let mut i: usize = 0;
        while i < self.unset.len()
            invariant
                0 <= i <= self.unset@.len(),
                args.deep_view() == pre + spec_unset_tokens(self.unset.deep_view().take(i as int)),
            decreases self.unset@.len() - i,
        {
            args.push("--unsetenv".to_owned());
            args.push(self.unset[i].clone());
            proof {
                let names = self.unset.deep_view();
                let step: Seq<Seq<char>> = seq!["--unsetenv"@, names[i as int]];
                assert(names.take(i + 1).drop_last() =~= names.take(i as int));
                assert(names.take(i + 1).last() == names[i as int]);
                assert(args.deep_view() =~= (pre + spec_unset_tokens(names.take(i as int)))
                    + step);
                assert((pre + spec_unset_tokens(names.take(i as int))) + step =~= pre + (
                spec_unset_tokens(names.take(i as int)) + step));
                assert(args.deep_view() == pre + spec_unset_tokens(names.take(i + 1)));
            }
            i += 1;
        }
        proof {
            assert(self.unset.deep_view().take(self.unset@.len() as int)
                =~= self.unset.deep_view());
        }
        let ghost pre2: Seq<Seq<char>> = pre + spec_unset_tokens(self.unset.deep_view());
        let mut j: usize = 0;
        while j < self.vars.len()
            invariant
                0 <= j <= self.vars@.len(),
                args.deep_view() == pre2 + spec_var_tokens(env_kvs(self.vars@.take(j as int))),
            decreases self.vars@.len() - j,
        {
            args.push("--setenv".to_owned());
            args.push(self.vars[j].key.clone());
            args.push(self.vars[j].value.clone());
            proof {
                let kvs_j = env_kvs(self.vars@.take(j as int));
                let step: Seq<Seq<char>> = seq![
                    "--setenv"@,
                    self.vars@[j as int].key@,
                    self.vars@[j as int].value@,
                ];
                assert(env_kvs(self.vars@.take(j + 1)).drop_last() =~= kvs_j);
                assert(env_kvs(self.vars@.take(j + 1)).last() == (
                    self.vars@[j as int].key@,
                    self.vars@[j as int].value@,
                ));
                assert(args.deep_view() =~= (pre2 + spec_var_tokens(kvs_j)) + step);
                assert((pre2 + spec_var_tokens(kvs_j)) + step =~= pre2 + (spec_var_tokens(kvs_j)
                    + step));
                assert(args.deep_view() == pre2 + spec_var_tokens(env_kvs(self.vars@.take(j + 1))));
            }
            j += 1;
        }
        proof {
            assert(self.vars@.take(self.vars@.len() as int) =~= self.vars@);
            assert(args.deep_view() =~= spec_env_tokens(*self));
        }
        args
    }
}

impl SandboxConfig {
    /// Compiles the whole policy to its flat token sequence, in fixed
    /// field order: namespaces, uid, gid, environment, binds,
    /// symlinks, directories.
    pub fn bwrap_args(&self) -> (r: Vec<String>)
        ensures
            r.deep_view() == spec_sandbox_tokens(*self),
    {
        let mut args: Vec<String> = Vec::new();

        if self.shared_namespaces.len() == 0 {
            args.push("--unshare-all".to_owned());
        } else {
            push_ns_if_isolated(&mut args, &self.shared_namespaces, Namespace::User);
            push_ns_if_isolated(&mut args, &self.shared_namespaces, Namespace::Ipc);
            push_ns_if_isolated(&mut args, &self.shared_namespaces, Namespace::Pid);
            push_ns_if_isolated(&mut args, &self.shared_namespaces, Namespace::Network);
            push_ns_if_isolated(&mut args, &self.shared_namespaces, Namespace::Uts);
            push_ns_if_isolated(&mut args, &self.shared_namespaces, Namespace::CGroup);
        }
        let ghost mut expected: Seq<Seq<char>> =
            spec_namespace_tokens(self.shared_namespaces@);
        proof {
            assert(args.deep_view() =~= expected);
        }

        match self.uid {
            Some(v) => {
                args.push("--uid".to_owned());
                args.push(u32_to_dec(v));
            },
            None => {},
        }
        proof {
            expected = expected + spec_id_tokens("--uid"@, self.uid);
            assert(args.deep_view() =~= expected);
        }

        match self.gid {
            Some(v) => {
                args.push("--gid".to_owned());
                args.push(u32_to_dec(v));
            },
            None => {},
        }
        proof {
            expected = expected + spec_id_tokens("--gid"@, self.gid);
            assert(args.deep_view() =~= expected);
        }

        let mut env_args = self.env.bwrap_args();
        args.append(&mut env_args);
        proof {
            expected = expected + spec_env_tokens(self.env);
            assert(args.deep_view() =~= expected);
        }

        let mut i: usize = 0;
        while i < self.binds.len()
            invariant
                0 <= i <= self.binds@.len(),
                args.deep_view() == expected + spec_binds_tokens(self.binds@.take(i as int)),
            decreases self.binds@.len() - i,
        {
            let mut t = self.binds[i].bwrap_args();
            args.append(&mut t);
            proof {
                let step = spec_bind_tokens(self.binds@[i as int]);
                assert(self.binds@.take(i + 1).drop_last() =~= self.binds@.take(i as int));
                assert(self.binds@.take(i + 1).last() == self.binds@[i as int]);
                assert(args.deep_view() =~= (expected + spec_binds_tokens(
                    self.binds@.take(i as int),
                )) + step);
                assert((expected + spec_binds_tokens(self.binds@.take(i as int))) + step
                    =~= expected + (spec_binds_tokens(self.binds@.take(i as int)) + step));
                assert(args.deep_view() == expected + spec_binds_tokens(self.binds@.take(i + 1)));
            }
            i += 1;
        }
        proof {
            assert(self.binds@.take(self.binds@.len() as int) =~= self.binds@);
            expected = expected + spec_binds_tokens(self.binds@);
            assert(args.deep_view() =~= expected);
        }

        let mut i: usize = 0;
        while i < self.symlinks.len()
            invariant
                0 <= i <= self.symlinks@.len(),
                args.deep_view() == expected + spec_links_tokens(self.symlinks@.take(i as int)),
            decreases self.symlinks@.len() - i,
        {
            let mut t = self.symlinks[i].bwrap_args();
            args.append(&mut t);
            proof {
                let step = spec_link_tokens(self.symlinks@[i as int]);
                assert(self.symlinks@.take(i + 1).drop_last() =~= self.symlinks@.take(i as int));
                assert(self.symlinks@.take(i + 1).last() == self.symlinks@[i as int]);
                assert(args.deep_view() =~= (expected + spec_links_tokens(
                    self.symlinks@.take(i as int),
                )) + step);
                assert((expected + spec_links_tokens(self.symlinks@.take(i as int))) + step
                    =~= expected + (spec_links_tokens(self.symlinks@.take(i as int)) + step));
                assert(args.deep_view() == expected + spec_links_tokens(
                    self.symlinks@.take(i + 1),
                ));
            }
            i += 1;
        }
        proof {
            assert(self.symlinks@.take(self.symlinks@.len() as int) =~= self.symlinks@);
            expected = expected + spec_links_tokens(self.symlinks@);
            assert(args.deep_view() =~= expected);
        }

        let mut i: usize = 0;
        while i < self.dirs.len()
            invariant
                0 <= i <= self.dirs@.len(),
                args.deep_view() == expected + spec_dirs_tokens(self.dirs@.take(i as int)),
            decreases self.dirs@.len() - i,
        {
            let mut t = self.dirs[i].bwrap_args();
            args.append(&mut t);
            proof {
                let step = spec_dir_tokens(self.dirs@[i as int]);
                assert(self.dirs@.take(i + 1).drop_last() =~= self.dirs@.take(i as int));
                assert(self.dirs@.take(i + 1).last() == self.dirs@[i as int]);
                assert(args.deep_view() =~= (expected + spec_dirs_tokens(
                    self.dirs@.take(i as int),
                )) + step);
                assert((expected + spec_dirs_tokens(self.dirs@.take(i as int))) + step
                    =~= expected + (spec_dirs_tokens(self.dirs@.take(i as int)) + step));
                assert(args.deep_view() == expected + spec_dirs_tokens(self.dirs@.take(i + 1)));
            }
            i += 1;
        }
        proof {
            assert(self.dirs@.take(self.dirs@.len() as int) =~= self.dirs@);
            assert(args.deep_view() =~= spec_sandbox_tokens(*self));
        }

        args
    }
}

impl Bind {
    /// Compiles this bind to its token triple.
    pub fn bwrap_args(&self) -> (r: Vec<String>)
        ensures
            r.deep_view() == spec_bind_tokens(*self),
    {
        let mut r: Vec<String> = Vec::new();
        let flag: &'static str = match self.kind {
            BindKind::ReadWrite => "--bind",
            BindKind::ReadOnly => "--ro-bind",
            BindKind::Device => "--dev-bind",
        };
        r.push(flag.to_owned());
        r.push(self.src.clone());
        r.push(self.dest.clone());
        proof {
            assert(r.deep_view() =~= spec_bind_tokens(*self));
        }
        r
    }
}

impl Link {
    /// Compiles this symlink to its token triple.
    pub fn bwrap_args(&self) -> (r: Vec<String>)
        ensures
            r.deep_view() == spec_link_tokens(*self),
    {
        let mut r: Vec<String> = Vec::new();
        r.push("--symlink".to_owned());
        r.push(self.src.clone());
        r.push(self.dest.clone());
        proof {
            assert(r.deep_view() =~= spec_link_tokens(*self));
        }
        r
    }
}

impl Directory {
    /// Compiles this directory entry to its flag and path pair.
    pub fn bwrap_args(&self) -> (r: Vec<String>)
        ensures
            r.deep_view() == spec_dir_tokens(*self),
    {
        let mut r: Vec<String> = Vec::new();
        let flag: &'static str = match self.kind {
            DirectoryKind::Directory => "--dir",
            DirectoryKind::Proc => "--proc",
            DirectoryKind::Dev => "--dev",
            DirectoryKind::TmpFs => "--tmpfs",
        };
        r.push(flag.to_owned());
        r.push(self.path.clone());
        proof {
            assert(r.deep_view() =~= spec_dir_tokens(*self));
        }
        r
    }
}

} // verus!
