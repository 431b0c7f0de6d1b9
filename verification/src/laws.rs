//! The library's laws, proved once and for all: exact namespace token
//! emission, and determinism of environment compilation — the stored
//! variable list, and with it the compiled output, depends only on
//! which keys are bound to which values, never on binding order.

use vstd::prelude::*;

use crate::config::{
    env_kvs, kvs_sorted, lemma_insert_sorted_preserves_sorted, ns_token, opt_ns_token,
    spec_insert_sorted, spec_env_tokens, spec_namespace_tokens, spec_sandbox_tokens, Environment,
    Namespace, SandboxConfig,
};
use crate::strutil::{lemma_str_lt_asymmetric, lemma_str_lt_irreflexive, str_lt};

verus! {

/// How many times token `t` occurs in `ts`.
pub open spec fn count_token(ts: Seq<Seq<char>>, t: Seq<char>) -> nat
    decreases ts.len(),
{
    if ts.len() == 0 {
        0
    } else {
        count_token(ts.drop_last(), t) + (if ts.last() == t {
            1nat
        } else {
            0nat
        })
    }
}

proof fn lemma_count_token_singleton(x: Seq<char>, t: Seq<char>)
    ensures
        count_token(seq![x], t) == (if x == t {
            1nat
        } else {
            0nat
        }),
{
    assert(seq![x].drop_last() =~= Seq::<Seq<char>>::empty());
    assert(count_token(Seq::<Seq<char>>::empty(), t) == 0);
}

proof fn lemma_count_token_add(a: Seq<Seq<char>>, b: Seq<Seq<char>>, t: Seq<char>)
    ensures
        count_token(a + b, t) == count_token(a, t) + count_token(b, t),
    decreases b.len(),
{
    if b.len() == 0 {
        assert(a + b =~= a);
        assert(count_token(b, t) == 0);
    } else {
        assert((a + b).drop_last() =~= a + b.drop_last());
        assert((a + b).last() == b.last());
        lemma_count_token_add(a, b.drop_last(), t);
    }
}

/// The six per-namespace isolation tokens and the catch-all token are
/// pairwise distinct.
proof fn lemma_ns_tokens_distinct()
    ensures
        forall|n1: Namespace, n2: Namespace|
            n1 != n2 ==> #[trigger] ns_token(n1) != #[trigger] ns_token(n2),
        forall|n: Namespace| #[trigger] ns_token(n) != "--unshare-all"@,
{
    reveal_strlit("--unshare-all");
    reveal_strlit("--unshare-user");
    reveal_strlit("--unshare-ipc");
    reveal_strlit("--unshare-pid");
    reveal_strlit("--unshare-net");
    reveal_strlit("--unshare-uts");
    reveal_strlit("--unshare-cgroup");
    assert("--unshare-all"@.len() == 13);
    assert("--unshare-user"@.len() == 14);
    assert("--unshare-ipc"@.len() == 13);
    assert("--unshare-pid"@.len() == 13);
    assert("--unshare-net"@.len() == 13);
    assert("--unshare-uts"@.len() == 13);
    assert("--unshare-cgroup"@.len() == 16);
    assert("--unshare-all"@[10] == 'a');
    assert("--unshare-ipc"@[10] == 'i');
    assert("--unshare-pid"@[10] == 'p');
    assert("--unshare-net"@[10] == 'n');
    assert("--unshare-uts"@[10] == 'u');
    assert(ns_token(Namespace::User) != ns_token(Namespace::Ipc));
    assert(ns_token(Namespace::User) != ns_token(Namespace::Pid));
    assert(ns_token(Namespace::User) != ns_token(Namespace::Network));
    assert(ns_token(Namespace::User) != ns_token(Namespace::Uts));
    assert(ns_token(Namespace::User) != ns_token(Namespace::CGroup));
    assert(ns_token(Namespace::Ipc) != ns_token(Namespace::Pid));
    assert(ns_token(Namespace::Ipc) != ns_token(Namespace::Network));
    assert(ns_token(Namespace::Ipc) != ns_token(Namespace::Uts));
    assert(ns_token(Namespace::Ipc) != ns_token(Namespace::CGroup));
    assert(ns_token(Namespace::Pid) != ns_token(Namespace::Network));
    assert(ns_token(Namespace::Pid) != ns_token(Namespace::Uts));
    assert(ns_token(Namespace::Pid) != ns_token(Namespace::CGroup));
    assert(ns_token(Namespace::Network) != ns_token(Namespace::Uts));
    assert(ns_token(Namespace::Network) != ns_token(Namespace::CGroup));
    assert(ns_token(Namespace::Uts) != ns_token(Namespace::CGroup));
    assert(ns_token(Namespace::User) != "--unshare-all"@);
    assert(ns_token(Namespace::Ipc) != "--unshare-all"@);
    assert(ns_token(Namespace::Pid) != "--unshare-all"@);
    assert(ns_token(Namespace::Network) != "--unshare-all"@);
    assert(ns_token(Namespace::Uts) != "--unshare-all"@);
    assert(ns_token(Namespace::CGroup) != "--unshare-all"@);
}

proof fn lemma_count_opt(shared: Seq<Namespace>, k: Namespace, t: Seq<char>)
    ensures
        count_token(opt_ns_token(shared, k), t) == (if !shared.contains(k) && ns_token(k) == t {
            1nat
        } else {
            0nat
        }),
{
    if shared.contains(k) {
        assert(count_token(opt_ns_token(shared, k), t) == 0);
    } else {
        lemma_count_token_singleton(ns_token(k), t);
    }
}

/// An empty `shared_namespaces` compiles to exactly the single
/// "isolate everything" token: no per-namespace token occurs.
pub proof fn lemma_isolate_everything(shared: Seq<Namespace>)
    requires
        shared.len() == 0,
    ensures
        spec_namespace_tokens(shared) == seq!["--unshare-all"@],
        forall|ns: Namespace| count_token(spec_namespace_tokens(shared), ns_token(ns)) == 0,
{
    lemma_ns_tokens_distinct();
    assert forall|ns: Namespace| count_token(spec_namespace_tokens(shared), ns_token(ns)) == 0 by {
        lemma_count_token_singleton("--unshare-all"@, ns_token(ns));
    }
}

/// A non-empty `shared_namespaces` compiles to exactly one isolation
/// token for every kind absent from it, none for a kind present in
/// it, and never the catch-all token. The order of the emitted tokens
/// is the fixed declaration order, by the definition of
/// [`spec_namespace_tokens`].
pub proof fn lemma_namespace_token_counts(shared: Seq<Namespace>, ns: Namespace)
    requires
        shared.len() > 0,
    ensures
        count_token(spec_namespace_tokens(shared), ns_token(ns)) == (if shared.contains(ns) {
            0nat
        } else {
            1nat
        }),
        count_token(spec_namespace_tokens(shared), "--unshare-all"@) == 0,
{
    lemma_ns_tokens_distinct();
    lemma_count_ns_total(shared, ns_token(ns));
    lemma_count_ns_total(shared, "--unshare-all"@);
    assert(ns == Namespace::User || ns == Namespace::Ipc || ns == Namespace::Pid || ns
        == Namespace::Network || ns == Namespace::Uts || ns == Namespace::CGroup);
}

proof fn lemma_count_ns_total(shared: Seq<Namespace>, t: Seq<char>)
    requires
        shared.len() > 0,
    ensures
        count_token(spec_namespace_tokens(shared), t) == count_token(
            opt_ns_token(shared, Namespace::User),
            t,
        ) + count_token(opt_ns_token(shared, Namespace::Ipc), t) + count_token(
            opt_ns_token(shared, Namespace::Pid),
            t,
        ) + count_token(opt_ns_token(shared, Namespace::Network), t) + count_token(
            opt_ns_token(shared, Namespace::Uts),
            t,
        ) + count_token(opt_ns_token(shared, Namespace::CGroup), t),
        forall|k: Namespace|
            count_token(#[trigger] opt_ns_token(shared, k), t) == (if !shared.contains(k)
                && ns_token(k) == t {
                1nat
            } else {
                0nat
            }),
{
    let o1 = opt_ns_token(shared, Namespace::User);
    let o2 = opt_ns_token(shared, Namespace::Ipc);
    let o3 = opt_ns_token(shared, Namespace::Pid);
    let o4 = opt_ns_token(shared, Namespace::Network);
    let o5 = opt_ns_token(shared, Namespace::Uts);
    let o6 = opt_ns_token(shared, Namespace::CGroup);
    assert(spec_namespace_tokens(shared) == o1 + o2 + o3 + o4 + o5 + o6);
    lemma_count_token_add(o1, o2, t);
    lemma_count_token_add(o1 + o2, o3, t);
    lemma_count_token_add(o1 + o2 + o3, o4, t);
    lemma_count_token_add(o1 + o2 + o3 + o4, o5, t);
    lemma_count_token_add(o1 + o2 + o3 + o4 + o5, o6, t);
    assert forall|k: Namespace|
        count_token(#[trigger] opt_ns_token(shared, k), t) == (if !shared.contains(k) && ns_token(
            k,
        ) == t {
            1nat
        } else {
            0nat
        }) by {
        lemma_count_opt(shared, k, t);
    }
}

// ---------------------------------------------------------------------
// Determinism of environment compilation
// ---------------------------------------------------------------------

/// The key-to-value map a binding list holds (an earlier entry wins,
/// which is immaterial once keys are unique).
pub open spec fn kvs_map(kvs: Seq<(Seq<char>, Seq<char>)>) -> Map<Seq<char>, Seq<char>>
    decreases kvs.len(),
{
    if kvs.len() == 0 {
        Map::empty()
    } else {
        kvs_map(kvs.skip(1)).insert(kvs[0].0, kvs[0].1)
    }
}

/// A key is bound in the map exactly when some entry carries it.
proof fn lemma_kvs_map_dom(kvs: Seq<(Seq<char>, Seq<char>)>)
    ensures
        forall|x: Seq<char>|
            #[trigger] kvs_map(kvs).contains_key(x) <==> (exists|i: int|
                0 <= i < kvs.len() && (#[trigger] kvs[i]).0 == x),
    decreases kvs.len(),
{
    if kvs.len() > 0 {
        lemma_kvs_map_dom(kvs.skip(1));
        assert forall|x: Seq<char>|
            #[trigger] kvs_map(kvs).contains_key(x) <==> (exists|i: int|
                0 <= i < kvs.len() && (#[trigger] kvs[i]).0 == x) by {
            if kvs_map(kvs).contains_key(x) {
                if x == kvs[0].0 {
                    assert(kvs[0].0 == x);
                } else {
                    assert(kvs_map(kvs.skip(1)).contains_key(x));
                    let i = choose|i: int|
                        0 <= i < kvs.skip(1).len() && (#[trigger] kvs.skip(1)[i]).0 == x;
                    assert(kvs[i + 1] == kvs.skip(1)[i]);
                }
            }
            if exists|i: int| 0 <= i < kvs.len() && (#[trigger] kvs[i]).0 == x {
                let i = choose|i: int| 0 <= i < kvs.len() && kvs[i].0 == x;
                if i > 0 {
                    assert(kvs.skip(1)[i - 1] == kvs[i]);
                    assert(kvs_map(kvs.skip(1)).contains_key(x));
                }
            }
        }
    }
}

proof fn lemma_sorted_skip(kvs: Seq<(Seq<char>, Seq<char>)>)
    requires
        kvs_sorted(kvs),
        kvs.len() > 0,
    ensures
        kvs_sorted(kvs.skip(1)),
        forall|i: int| 1 <= i < kvs.len() ==> str_lt(kvs[0].0, (#[trigger] kvs[i]).0),
{
    assert forall|i: int, j: int| 0 <= i < j < kvs.skip(1).len() implies str_lt(
        (#[trigger] kvs.skip(1)[i]).0,
        (#[trigger] kvs.skip(1)[j]).0,
    ) by {
        assert(kvs.skip(1)[i] == kvs[i + 1]);
        assert(kvs.skip(1)[j] == kvs[j + 1]);
    }
}

/// A strictly key-sorted binding list is the canonical form of the
/// map it holds: two sorted lists with the same map are the same
/// list. This is why compilation cannot depend on binding order.
pub proof fn lemma_sorted_kvs_canonical(
    s1: Seq<(Seq<char>, Seq<char>)>,
    s2: Seq<(Seq<char>, Seq<char>)>,
)
    requires
        kvs_sorted(s1),
        kvs_sorted(s2),
        kvs_map(s1) == kvs_map(s2),
    ensures
        s1 == s2,
    decreases s1.len(),
{
    lemma_kvs_map_dom(s1);
    lemma_kvs_map_dom(s2);
    if s1.len() == 0 {
        if s2.len() > 0 {
            assert(kvs_map(s2).contains_key(s2[0].0));
            assert(false);
        }
        assert(s1 =~= s2);
    } else if s2.len() == 0 {
        assert(kvs_map(s1).contains_key(s1[0].0));
        assert(false);
    } else {
        lemma_sorted_skip(s1);
        lemma_sorted_skip(s2);
        if s1[0].0 != s2[0].0 {
            assert(kvs_map(s1).contains_key(s1[0].0));
            let i = choose|i: int| 0 <= i < s2.len() && s2[i].0 == s1[0].0;
            assert(i > 0);
            assert(str_lt(s2[0].0, s2[i].0));
            assert(kvs_map(s2).contains_key(s2[0].0));
            let j = choose|j: int| 0 <= j < s1.len() && s1[j].0 == s2[0].0;
            assert(j > 0);
            assert(str_lt(s1[0].0, s1[j].0));
            lemma_str_lt_asymmetric(s1[0].0, s2[0].0);
            assert(false);
        }
        assert(kvs_map(s1)[s1[0].0] == s1[0].1);
        assert(kvs_map(s2)[s2[0].0] == s2[0].1);
        assert(s1[0] == s2[0]);
        lemma_kvs_map_dom(s1.skip(1));
        lemma_kvs_map_dom(s2.skip(1));
        assert forall|i: int| 1 <= i < s1.len() implies (#[trigger] s1[i]).0 != s1[0].0 by {
            lemma_str_lt_irreflexive(s1[0].0);
            if s1[i].0 == s1[0].0 {
                assert(str_lt(s1[0].0, s1[i].0));
            }
        }
        assert forall|i: int| 1 <= i < s2.len() implies (#[trigger] s2[i]).0 != s2[0].0 by {
            lemma_str_lt_irreflexive(s2[0].0);
            if s2[i].0 == s2[0].0 {
                assert(str_lt(s2[0].0, s2[i].0));
            }
        }
        assert(kvs_map(s1.skip(1)) =~= kvs_map(s2.skip(1))) by {
            assert forall|x: Seq<char>|
                kvs_map(s1.skip(1)).contains_key(x) <==> kvs_map(s2.skip(1)).contains_key(
                    x,
                ) by {
                if kvs_map(s1.skip(1)).contains_key(x) {
                    let i = choose|i: int| 0 <= i < s1.skip(1).len() && s1.skip(1)[i].0 == x;
                    assert(s1[i + 1] == s1.skip(1)[i]);
                    assert(x != s1[0].0);
                    assert(kvs_map(s1).contains_key(x));
                    assert(kvs_map(s2).contains_key(x));
                    let m = choose|m: int| 0 <= m < s2.len() && s2[m].0 == x;
                    assert(m > 0);
                    assert(s2.skip(1)[m - 1] == s2[m]);
                    assert(kvs_map(s2.skip(1)).contains_key(x));
                }
                if kvs_map(s2.skip(1)).contains_key(x) {
                    let i = choose|i: int| 0 <= i < s2.skip(1).len() && s2.skip(1)[i].0 == x;
                    assert(s2[i + 1] == s2.skip(1)[i]);
                    assert(x != s2[0].0);
                    assert(kvs_map(s2).contains_key(x));
                    assert(kvs_map(s1).contains_key(x));
                    let m = choose|m: int| 0 <= m < s1.len() && s1[m].0 == x;
                    assert(m > 0);
                    assert(s1.skip(1)[m - 1] == s1[m]);
                    assert(kvs_map(s1.skip(1)).contains_key(x));
                }
            }
            assert forall|x: Seq<char>|
                kvs_map(s1.skip(1)).contains_key(x) implies kvs_map(s1.skip(1))[x] == kvs_map(
                s2.skip(1),
            )[x] by {
                let i = choose|i: int| 0 <= i < s1.skip(1).len() && s1.skip(1)[i].0 == x;
                assert(s1[i + 1] == s1.skip(1)[i]);
                assert(x != s1[0].0);
                assert(kvs_map(s1)[x] == kvs_map(s1.skip(1))[x]);
                assert(kvs_map(s2)[x] == kvs_map(s2.skip(1))[x]);
            }
        }
        lemma_sorted_kvs_canonical(s1.skip(1), s2.skip(1));
        assert(s1.skip(1).len() == s1.len() - 1);
        assert(s2.skip(1).len() == s2.len() - 1);
        assert forall|i: int| 0 <= i < s1.len() implies s1[i] == s2[i] by {
            if i > 0 {
                assert(s1[i] == s1.skip(1)[i - 1]);
                assert(s2[i] == s2.skip(1)[i - 1]);
            }
        }
        assert(s1 =~= s2);
    }
}

/// Sorted insertion is, at the level of the held map, exactly a map
/// update.
pub proof fn lemma_insert_sorted_map(kvs: Seq<(Seq<char>, Seq<char>)>, k: Seq<char>, v: Seq<char>)
    requires
        kvs_sorted(kvs),
    ensures
        kvs_map(spec_insert_sorted(kvs, k, v)) == kvs_map(kvs).insert(k, v),
    decreases kvs.len(),
{
    let out = spec_insert_sorted(kvs, k, v);
    if kvs.len() == 0 {
        assert(out =~= seq![(k, v)]);
        assert(out.skip(1) =~= Seq::<(Seq<char>, Seq<char>)>::empty());
        assert(kvs_map(Seq::<(Seq<char>, Seq<char>)>::empty())
            == Map::<Seq<char>, Seq<char>>::empty());
        assert(out[0] == (k, v));
        assert(kvs_map(out) == Map::<Seq<char>, Seq<char>>::empty().insert(k, v));
    } else if str_lt(k, kvs[0].0) {
        assert(out == seq![(k, v)] + kvs);
        assert(out.skip(1) =~= kvs);
        assert(out[0] == (k, v));
    } else if k == kvs[0].0 {
        assert(out == seq![(k, v)] + kvs.skip(1));
        assert(out.skip(1) =~= kvs.skip(1));
        assert(out[0] == (k, v));
        assert(kvs_map(out) == kvs_map(kvs.skip(1)).insert(k, v));
        assert(kvs_map(kvs) == kvs_map(kvs.skip(1)).insert(k, kvs[0].1));
        assert(kvs_map(kvs.skip(1)).insert(k, kvs[0].1).insert(k, v) =~= kvs_map(
            kvs.skip(1),
        ).insert(k, v));
    } else {
        lemma_str_lt_irreflexive(k);
        lemma_sorted_skip(kvs);
        lemma_insert_sorted_map(kvs.skip(1), k, v);
        let rec = spec_insert_sorted(kvs.skip(1), k, v);
        assert(out == seq![kvs[0]] + rec);
        assert(out.skip(1) =~= rec);
        assert(out[0] == kvs[0]);
        assert(kvs_map(out) == kvs_map(kvs.skip(1)).insert(k, v).insert(kvs[0].0, kvs[0].1));
        assert(k != kvs[0].0);
        assert(kvs_map(kvs.skip(1)).insert(k, v).insert(kvs[0].0, kvs[0].1) =~= kvs_map(
            kvs.skip(1),
        ).insert(kvs[0].0, kvs[0].1).insert(k, v));
    }
}

/// Binding order is irrelevant: two bindings of distinct keys land in
/// the same sorted list whichever is made first.
pub proof fn lemma_bindings_commute(
    kvs: Seq<(Seq<char>, Seq<char>)>,
    k1: Seq<char>,
    v1: Seq<char>,
    k2: Seq<char>,
    v2: Seq<char>,
)
    requires
        kvs_sorted(kvs),
        k1 != k2,
    ensures
        spec_insert_sorted(spec_insert_sorted(kvs, k1, v1), k2, v2) == spec_insert_sorted(
            spec_insert_sorted(kvs, k2, v2),
            k1,
            v1,
        ),
{
    lemma_insert_sorted_preserves_sorted(kvs, k1, v1);
    lemma_insert_sorted_preserves_sorted(kvs, k2, v2);
    lemma_insert_sorted_preserves_sorted(spec_insert_sorted(kvs, k1, v1), k2, v2);
    lemma_insert_sorted_preserves_sorted(spec_insert_sorted(kvs, k2, v2), k1, v1);
    lemma_insert_sorted_map(kvs, k1, v1);
    lemma_insert_sorted_map(kvs, k2, v2);
    lemma_insert_sorted_map(spec_insert_sorted(kvs, k1, v1), k2, v2);
    lemma_insert_sorted_map(spec_insert_sorted(kvs, k2, v2), k1, v1);
    assert(kvs_map(kvs).insert(k1, v1).insert(k2, v2) =~= kvs_map(kvs).insert(k2, v2).insert(
        k1,
        v1,
    ));
    lemma_sorted_kvs_canonical(
        spec_insert_sorted(spec_insert_sorted(kvs, k1, v1), k2, v2),
        spec_insert_sorted(spec_insert_sorted(kvs, k2, v2), k1, v1),
    );
}

/// Determinism of environment compilation: two well-formed
/// environments that agree on the clear-all flag, the unset list and
/// the variable map compile to the same tokens — whatever order their
/// variables were bound in.
pub proof fn lemma_env_tokens_canonical(e1: Environment, e2: Environment)
    requires
        e1.wf(),
        e2.wf(),
        e1.unset_all == e2.unset_all,
        e1.unset.deep_view() == e2.unset.deep_view(),
        kvs_map(env_kvs(e1.vars@)) == kvs_map(env_kvs(e2.vars@)),
    ensures
        spec_env_tokens(e1) == spec_env_tokens(e2),
{
    lemma_sorted_kvs_canonical(env_kvs(e1.vars@), env_kvs(e2.vars@));
}

/// Determinism of the whole compiler: the compiled token sequence is
/// a function of the policy's contents alone. Two well-formed
/// policies with the same fields — the variable bindings compared as
/// a map, not as a list — compile identically, so compiling one
/// policy twice, or policies whose variables were bound in different
/// orders, yields identical token sequences.
pub proof fn lemma_sandbox_tokens_canonical(c1: SandboxConfig, c2: SandboxConfig)
    requires
        c1.env.wf(),
        c2.env.wf(),
        c1.shared_namespaces@ == c2.shared_namespaces@,
        c1.uid == c2.uid,
        c1.gid == c2.gid,
        c1.env.unset_all == c2.env.unset_all,
        c1.env.unset.deep_view() == c2.env.unset.deep_view(),
        kvs_map(env_kvs(c1.env.vars@)) == kvs_map(env_kvs(c2.env.vars@)),
        c1.binds@ == c2.binds@,
        c1.symlinks@ == c2.symlinks@,
        c1.dirs@ == c2.dirs@,
    ensures
        spec_sandbox_tokens(c1) == spec_sandbox_tokens(c2),
{
    lemma_env_tokens_canonical(c1.env, c2.env);
}

} // verus!
