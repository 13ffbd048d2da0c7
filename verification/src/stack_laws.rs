//! What the root module of a stack promises: the newest locked provider versions, and inputs
//! wired to other claims left out of its variables.
use vstd::prelude::*;
use crate::preview::{
    claim_shapes, default_hcl, dep_lookup, full_module, head_keys, kept_shapes, last_of_key, latest_locks, lock_list, lock_step,
    named_providers, req_list, source_from, variable_block, variable_blocks, VarHead,
};
use crate::stack::ClaimModule;
use crate::versions::semver_newer;

verus! {

proof fn lemma_source_from(acc: Seq<(Seq<char>, Seq<char>)>, src: Seq<char>, j: int)
    requires
        0 <= j,
    ensures
        match source_from(acc, src, j) {
            Some(k) => j <= k < acc.len() && acc[k].0 == src,
            None => forall|k: int| j <= k < acc.len() ==> acc[k].0 != src,
        },
    decreases acc.len() - j,
{
    if j < acc.len() && acc[j].0 != src {
        lemma_source_from(acc, src, j + 1);
    }
}

/// The versions of the locks are ordered by `semver_newer` as a strict order: none is newer
/// than itself, and newer than a newer one is newer.
pub open spec fn strict_order_on(locks: Seq<(Seq<char>, Seq<char>)>) -> bool {
    &&& forall|i: int| 0 <= i < locks.len() ==> !semver_newer(#[trigger] locks[i].1, locks[i].1)
    &&& forall|i: int, j: int, k: int|
        0 <= i < locks.len() && 0 <= j < locks.len() && 0 <= k < locks.len() && #[trigger] semver_newer(locks[i].1, locks[j].1)
            && #[trigger] semver_newer(locks[j].1, locks[k].1) ==> semver_newer(locks[i].1, locks[k].1)
}

/// Some kept entry has the lock's source at a version that the lock's is not newer than.
pub open spec fn covers(acc: Seq<(Seq<char>, Seq<char>)>, p: (Seq<char>, Seq<char>)) -> bool {
    exists|k: int| 0 <= k < acc.len() && (#[trigger] acc[k]).0 == p.0 && !semver_newer(p.1, acc[k].1)
}

/// The newest locks kept from `locks`: every lock's source is kept with a version that is not
/// older than the lock's, each kept entry is one of the locks, and no source is kept twice.
pub open spec fn keeps_newest(locks: Seq<(Seq<char>, Seq<char>)>, acc: Seq<(Seq<char>, Seq<char>)>) -> bool {
    &&& forall|i: int| 0 <= i < locks.len() ==> #[trigger] covers(acc, locks[i])
    &&& forall|k: int| 0 <= k < acc.len() ==> locks.contains(#[trigger] acc[k])
    &&& forall|k1: int, k2: int| 0 <= k1 < k2 < acc.len() ==> (#[trigger] acc[k1]).0 != (#[trigger] acc[k2]).0
}

proof fn lemma_step_new(pre: Seq<(Seq<char>, Seq<char>)>, p: (Seq<char>, Seq<char>), acc: Seq<(Seq<char>, Seq<char>)>)
    requires
        keeps_newest(pre, acc),
        forall|k: int| 0 <= k < acc.len() ==> (#[trigger] acc[k]).0 != p.0,
        !semver_newer(p.1, p.1),
    ensures
        keeps_newest(pre.push(p), acc.push(p)),
{
    let locks = pre.push(p);
    let res = acc.push(p);
    let n = pre.len() as int;
    assert forall|i: int| 0 <= i < locks.len() implies #[trigger] covers(res, locks[i]) by {
        if i < n {
            assert(locks[i] == pre[i]);
            assert(covers(acc, pre[i]));
            let k = choose|k: int| 0 <= k < acc.len() && (#[trigger] acc[k]).0 == pre[i].0 && !semver_newer(pre[i].1, acc[k].1);
            assert(res[k] == acc[k]);
        } else {
            assert(res[acc.len() as int] == p);
            assert(locks[i] == p);
        }
    }
    assert forall|k: int| 0 <= k < res.len() implies locks.contains(#[trigger] res[k]) by {
        if k < acc.len() {
            assert(res[k] == acc[k]);
            assert(pre.contains(acc[k]));
            let i = choose|i: int| 0 <= i < pre.len() && pre[i] == acc[k];
            assert(locks[i] == pre[i]);
        } else {
            assert(locks[n] == res[k]);
        }
    }
    assert forall|k1: int, k2: int| 0 <= k1 < k2 < res.len() implies (#[trigger] res[k1]).0 != (#[trigger] res[k2]).0 by {
        assert(res[k1] == acc[k1]);
        if k2 < acc.len() {
            assert(res[k2] == acc[k2]);
        }
    }
}

proof fn lemma_step_replace(
    pre: Seq<(Seq<char>, Seq<char>)>,
    p: (Seq<char>, Seq<char>),
    acc: Seq<(Seq<char>, Seq<char>)>,
    k0: int,
)
    requires
        keeps_newest(pre, acc),
        0 <= k0 < acc.len(),
        acc[k0].0 == p.0,
        !semver_newer(p.1, p.1),
        forall|i: int| 0 <= i < pre.len() && #[trigger] semver_newer(pre[i].1, p.1) ==> semver_newer(pre[i].1, acc[k0].1),
    ensures
        keeps_newest(pre.push(p), acc.update(k0, p)),
{
    let locks = pre.push(p);
    let res = acc.update(k0, p);
    let n = pre.len() as int;
    assert forall|i: int| 0 <= i < locks.len() implies #[trigger] covers(res, locks[i]) by {
        if i < n {
            assert(locks[i] == pre[i]);
            assert(covers(acc, pre[i]));
            let k = choose|k: int| 0 <= k < acc.len() && (#[trigger] acc[k]).0 == pre[i].0 && !semver_newer(pre[i].1, acc[k].1);
            if k == k0 {
                assert(res[k0] == p);
                if semver_newer(pre[i].1, p.1) {
                    assert(semver_newer(pre[i].1, acc[k0].1));
                }
            } else {
                assert(res[k] == acc[k]);
            }
        } else {
            assert(res[k0] == p);
            assert(locks[i] == p);
        }
    }
    assert forall|k: int| 0 <= k < res.len() implies locks.contains(#[trigger] res[k]) by {
        if k == k0 {
            assert(locks[n] == res[k]);
        } else {
            assert(res[k] == acc[k]);
            assert(pre.contains(acc[k]));
            let i = choose|i: int| 0 <= i < pre.len() && pre[i] == acc[k];
            assert(locks[i] == pre[i]);
        }
    }
    assert forall|k1: int, k2: int| 0 <= k1 < k2 < res.len() implies (#[trigger] res[k1]).0 != (#[trigger] res[k2]).0 by {
        assert(res[k1].0 == acc[k1].0 && res[k2].0 == acc[k2].0);
    }
}

proof fn lemma_step_keep(
    pre: Seq<(Seq<char>, Seq<char>)>,
    p: (Seq<char>, Seq<char>),
    acc: Seq<(Seq<char>, Seq<char>)>,
    k0: int,
)
    requires
        keeps_newest(pre, acc),
        0 <= k0 < acc.len(),
        acc[k0].0 == p.0,
        !semver_newer(p.1, acc[k0].1),
    ensures
        keeps_newest(pre.push(p), acc),
{
    let locks = pre.push(p);
    let n = pre.len() as int;
    assert forall|i: int| 0 <= i < locks.len() implies #[trigger] covers(acc, locks[i]) by {
        if i < n {
            assert(locks[i] == pre[i]);
        } else {
            assert(locks[i] == p);
            assert(acc[k0].0 == p.0);
        }
    }
    assert forall|k: int| 0 <= k < acc.len() implies locks.contains(#[trigger] acc[k]) by {
        assert(pre.contains(acc[k]));
        let i = choose|i: int| 0 <= i < pre.len() && pre[i] == acc[k];
        assert(locks[i] == pre[i]);
    }
}

proof fn lemma_newest_upto(locks: Seq<(Seq<char>, Seq<char>)>, n: int)
    requires
        0 <= n <= locks.len(),
        latest_locks(locks.take(n)) is Ok,
        strict_order_on(locks),
    ensures
        keeps_newest(locks.take(n), latest_locks(locks.take(n))->Ok_0),
    decreases n,
{
    if n == 0 {
        assert(latest_locks(locks.take(0)) == Ok::<Seq<(Seq<char>, Seq<char>)>, crate::manifest::ErrorView>(Seq::empty()));
        return;
    }
    let pre = locks.take(n - 1);
    let p = locks[n - 1];
    assert(locks.take(n).drop_last() =~= pre);
    assert(locks.take(n).last() == p);
    assert(locks.take(n) =~= pre.push(p));
    lemma_newest_upto(locks, n - 1);
    let acc = latest_locks(pre)->Ok_0;
    assert(latest_locks(locks.take(n)) == lock_step(acc, p));
    assert(!semver_newer(locks[n - 1].1, locks[n - 1].1));
    lemma_source_from(acc, p.0, 0);
    match source_from(acc, p.0, 0) {
        None => {
            lemma_step_new(pre, p, acc);
        },
        Some(k0) => {
            assert(pre.contains(acc[k0]));
            let j0 = choose|i: int| 0 <= i < pre.len() && pre[i] == acc[k0];
            assert(locks[j0] == acc[k0]);
            if semver_newer(p.1, acc[k0].1) {
                assert forall|i: int| 0 <= i < pre.len() && #[trigger] semver_newer(pre[i].1, p.1) implies semver_newer(pre[i].1, acc[k0].1) by {
                    assert(pre[i] == locks[i]);
                    assert(semver_newer(locks[i].1, locks[n - 1].1));
                    assert(semver_newer(locks[n - 1].1, locks[j0].1));
                }
                lemma_step_replace(pre, p, acc, k0);
            } else {
                lemma_step_keep(pre, p, acc, k0);
            }
        },
    }
}

/// Where the locked versions are strictly ordered (as `semver::Version`'s `>` orders them),
/// the provider versions that a stack requires are the newest that its modules lock: every
/// locked source is required, at a version that no lock of that source is newer than, each
/// required entry is one of the locks, and no source is required twice.
pub proof fn law_newest_lock_is_kept(locks: Seq<(Seq<char>, Seq<char>)>)
    requires
        latest_locks(locks) is Ok,
        strict_order_on(locks),
    ensures
        keeps_newest(locks, latest_locks(locks)->Ok_0),
{
    assert(locks.take(locks.len() as int) =~= locks);
    lemma_newest_upto(locks, locks.len() as int);
}

/// A stack input that the dependency map wires to another claim gets no `variable` block:
/// every block of the first `n` variables is that of a variable whose key the map leaves alone,
/// and the last variable with its key.
pub proof fn law_wired_inputs_get_no_variable_block(
    hs: Seq<VarHead>,
    dep: Seq<(Seq<char>, Seq<char>)>,
    n: int,
)
    requires
        0 <= n <= hs.len(),
    ensures
        forall|j: int| 0 <= j < variable_blocks(hs, dep, n).len() ==> exists|i: int|
            0 <= i < n && #[trigger] variable_blocks(hs, dep, n)[j] == variable_block(hs[i], default_hcl(hs[i]))
                && dep_lookup(dep, hs[i].key) is None && last_of_key(head_keys(hs), i),
    decreases n,
{
    if n > 0 {
        law_wired_inputs_get_no_variable_block(hs, dep, n - 1);
        let prev = variable_blocks(hs, dep, n - 1);
        let cur = variable_blocks(hs, dep, n);
        assert forall|j: int| 0 <= j < cur.len() implies exists|i: int|
            0 <= i < n && #[trigger] cur[j] == variable_block(hs[i], default_hcl(hs[i])) && dep_lookup(dep, hs[i].key) is None
                && last_of_key(head_keys(hs), i) by {
            if j < prev.len() {
                assert(cur[j] == prev[j]);
                let i = choose|i: int|
                    0 <= i < n - 1 && #[trigger] prev[j] == variable_block(hs[i], default_hcl(hs[i])) && dep_lookup(dep, hs[i].key) is None
                        && last_of_key(head_keys(hs), i);
                assert(cur[j] == variable_block(hs[i], default_hcl(hs[i])));
            } else {
                assert(cur[j] == variable_block(hs[n - 1], default_hcl(hs[n - 1])));
            }
        }
    }
}

proof fn lemma_named_providers_keep_locks(latest: Seq<(Seq<char>, Seq<char>)>, reqs: Seq<(Seq<char>, Seq<char>)>)
    requires
        named_providers(latest, reqs) is Ok,
    ensures
        named_providers(latest, reqs)->Ok_0.map_values(|p: (Seq<char>, Seq<char>, Seq<char>)| (p.1, p.2)) == latest,
    decreases latest.len(),
{
    if latest.len() > 0 {
        lemma_named_providers_keep_locks(latest.drop_last(), reqs);
        let prev = named_providers(latest.drop_last(), reqs)->Ok_0;
        let ps = named_providers(latest, reqs)->Ok_0;
        assert(ps == prev.push((dep_lookup(reqs, latest.last().0)->Some_0, latest.last().0, latest.last().1)));
        assert(ps.map_values(|p: (Seq<char>, Seq<char>, Seq<char>)| (p.1, p.2)) =~= prev.map_values(
            |p: (Seq<char>, Seq<char>, Seq<char>)| (p.1, p.2),
        ).push(latest.last()));
        assert(latest.drop_last().push(latest.last()) =~= latest);
    }
}

/// The provider locks of the modules that a stack keeps, in order.
pub open spec fn stack_locks(cms: Seq<ClaimModule>) -> Seq<(Seq<char>, Seq<char>)> {
    lock_list(kept_shapes(claim_shapes(cms), claim_shapes(cms).len() as int))
}

/// The generated root module of a stack requires the newest locked version of each provider:
/// where its code is generated (see `full_module`, which `generate_full_terraform_module`
/// returns) and the locked versions are strictly ordered, the (source, version) of its required
/// providers keep the newest lock of every source that its modules lock (see `keeps_newest`).
pub proof fn law_stack_code_keeps_newest_lock(cms: Seq<ClaimModule>)
    requires
        full_module(cms) is Ok,
        strict_order_on(stack_locks(cms)),
    ensures
        keeps_newest(
            stack_locks(cms),
            full_module(cms)->Ok_0.3.map_values(|p: (Seq<char>, Seq<char>, Seq<char>)| (p.1, p.2)),
        ),
{
    let ms = claim_shapes(cms);
    let kept = kept_shapes(ms, ms.len() as int);
    let latest = latest_locks(lock_list(kept))->Ok_0;
    lemma_named_providers_keep_locks(latest, req_list(kept));
    law_newest_lock_is_kept(stack_locks(cms));
}

} // verus!
