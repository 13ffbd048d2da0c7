//! Cycles in a dependency graph whose nodes are names.
use vstd::prelude::*;

verus! {

/// The graph has an edge from `a` to `b`: some entry for `a` lists `b` among its neighbours.
pub open spec fn has_edge(g: Seq<(String, Vec<String>)>, a: Seq<char>, b: Seq<char>) -> bool {
    exists|i: int, j: int|
        0 <= i < g.len() && 0 <= j < g[i].1@.len() && #[trigger] g[i].0@ == a && (#[trigger] g[i].1@[j])@
            == b
}

pub open spec fn next_of(len: int, k: int) -> int {
    if k + 1 < len {
        k + 1
    } else {
        0
    }
}

/// `c` is a cycle of the graph: it is not empty, and each name has an edge to the next one,
/// the last to the first.
pub open spec fn is_cycle(g: Seq<(String, Vec<String>)>, c: Seq<Seq<char>>) -> bool {
    c.len() > 0 && forall|k: int| 0 <= k < c.len() ==> has_edge(g, #[trigger] c[k], c[next_of(c.len() as int, k)])
}

/// No name occurs twice.
pub open spec fn distinct_names(c: Seq<Seq<char>>) -> bool {
    forall|a: int, b: int| 0 <= a < b < c.len() ==> #[trigger] c[a] != #[trigger] c[b]
}

/// No node occurs twice.
pub open spec fn distinct_nodes(c: Seq<usize>) -> bool {
    forall|a: int, b: int| 0 <= a < b < c.len() ==> #[trigger] c[a] != #[trigger] c[b]
}

pub open spec fn names_view(v: Seq<String>) -> Seq<Seq<char>> {
    v.map_values(|s: String| s@)
}

// ---------------------------------------------------------------------------------------
// The graph over node indices.

pub open spec fn int_edge(adj: Seq<Vec<usize>>, u: int, v: int) -> bool {
    0 <= u < adj.len() && exists|j: int| 0 <= j < adj[u]@.len() && (#[trigger] adj[u]@[j]) as int == v
}

pub open spec fn keys_distinct(keys: Seq<String>) -> bool {
    forall|a: int, b: int| 0 <= a < b < keys.len() ==> (#[trigger] keys[a])@ != (#[trigger] keys[b])@
}

/// The graph has an entry for the name.
pub open spec fn has_entry(g: Seq<(String, Vec<String>)>, name: Seq<char>) -> bool {
    exists|i: int| 0 <= i < g.len() && (#[trigger] g[i]).0@ == name
}

pub open spec fn is_key(keys: Seq<String>, name: Seq<char>) -> bool {
    exists|u: int| 0 <= u < keys.len() && (#[trigger] keys[u])@ == name
}

/// The index graph `adj` over `keys` has exactly the edges of `g` between keys.
pub open spec fn adj_matches(g: Seq<(String, Vec<String>)>, keys: Seq<String>, adj: Seq<Vec<usize>>) -> bool {
    &&& adj.len() == keys.len()
    &&& forall|u: int, j: int| 0 <= u < adj.len() && 0 <= j < adj[u]@.len() ==> (#[trigger] adj[u]@[j]) < keys.len()
    &&& forall|u: int, v: int| 0 <= u < keys.len() && 0 <= v < keys.len() ==> (int_edge(adj, u, v) <==> has_edge(g, #[trigger] keys[u]@, #[trigger] keys[v]@))
}

fn index_of(keys: &Vec<String>, name: &String) -> (r: Option<usize>)
    ensures
        match r {
            Some(u) => u < keys@.len() && keys@[u as int]@ == name@,
            None => !is_key(keys@, name@),
        },
{
    let mut u: usize = 0;
    while u < keys.len()
        invariant
            u <= keys@.len(),
            forall|w: int| 0 <= w < u ==> (#[trigger] keys@[w])@ != name@,
        decreases keys.len() - u,
    {
        if keys[u] == *name {
            return Some(u);
        }
        u = u + 1;
    }
    None
}

/// The distinct names that have entries in the graph, in order of first entry.
fn graph_keys(g: &Vec<(String, Vec<String>)>) -> (keys: Vec<String>)
    ensures
        keys_distinct(keys@),
        forall|i: int| 0 <= i < g@.len() ==> is_key(keys@, #[trigger] g@[i].0@),
        forall|u: int| 0 <= u < keys@.len() ==> has_entry(g@, (#[trigger] keys@[u])@),
{
    let mut keys: Vec<String> = Vec::new();
    let mut i: usize = 0;
    while i < g.len()
        invariant
            i <= g@.len(),
            keys_distinct(keys@),
            forall|k: int| 0 <= k < i ==> is_key(keys@, #[trigger] g@[k].0@),
            forall|u: int| 0 <= u < keys@.len() ==> has_entry(g@, (#[trigger] keys@[u])@),
        decreases g.len() - i,
    {
        match index_of(&keys, &g[i].0) {
            Some(_) => {},
            None => {
                let ghost k0 = keys@;
                keys.push(g[i].0.clone());
                assert(keys@[keys@.len() - 1]@ == g@[i as int].0@);
                assert forall|k: int| 0 <= k < i implies is_key(keys@, #[trigger] g@[k].0@) by {
                    let w = choose|w: int| 0 <= w < k0.len() && (#[trigger] k0[w])@ == g@[k].0@;
                    assert(keys@[w] == k0[w]);
                }
                assert forall|u: int| 0 <= u < keys@.len() implies has_entry(g@, (#[trigger] keys@[u])@) by {
                    if u < k0.len() {
                        assert(keys@[u] == k0[u]);
                    } else {
                        assert(g@[i as int].0@ == keys@[u]@);
                    }
                }
            },
        }
        proof {
            assert(is_key(keys@, g@[i as int].0@));
        }
        i = i + 1;
    }
    keys
}

/// The neighbours of key `u` that are keys, as key indices.
fn key_neighbours(g: &Vec<(String, Vec<String>)>, keys: &Vec<String>, u: usize) -> (r: Vec<usize>)
    requires
        u < keys@.len(),
        keys_distinct(keys@),
    ensures
        forall|j: int| 0 <= j < r@.len() ==> (#[trigger] r@[j]) < keys@.len() && has_edge(g@, keys@[u as int]@, keys@[r@[j] as int]@),
        forall|v: int| 0 <= v < keys@.len() && has_edge(g@, keys@[u as int]@, #[trigger] keys@[v]@) ==> exists|j: int| 0 <= j < r@.len() && r@[j] as int == v,
{
    let mut r: Vec<usize> = Vec::new();
    let mut i: usize = 0;
    while i < g.len()
        invariant
            u < keys@.len(),
            keys_distinct(keys@),
            i <= g@.len(),
            forall|j: int| 0 <= j < r@.len() ==> (#[trigger] r@[j]) < keys@.len() && has_edge(g@, keys@[u as int]@, keys@[r@[j] as int]@),
            forall|v: int, i2: int, j2: int| 0 <= v < keys@.len() && 0 <= i2 < i && 0 <= j2 < g@[i2].1@.len() && g@[i2].0@ == keys@[u as int]@ && (#[trigger] g@[i2].1@[j2])@ == (#[trigger] keys@[v])@ ==> exists|j: int| 0 <= j < r@.len() && r@[j] as int == v,
        decreases g.len() - i,
    {
        if g[i].0 == keys[u] {
            let ns = &g[i].1;
            let mut j: usize = 0;
            while j < ns.len()
                invariant
                    u < keys@.len(),
                    keys_distinct(keys@),
                    i < g@.len(),
                    ns@ == g@[i as int].1@,
                    g@[i as int].0@ == keys@[u as int]@,
                    j <= ns@.len(),
                    forall|k: int| 0 <= k < r@.len() ==> (#[trigger] r@[k]) < keys@.len() && has_edge(g@, keys@[u as int]@, keys@[r@[k] as int]@),
                    forall|v: int, i2: int, j2: int| 0 <= v < keys@.len() && 0 <= i2 < i && 0 <= j2 < g@[i2].1@.len() && g@[i2].0@ == keys@[u as int]@ && (#[trigger] g@[i2].1@[j2])@ == (#[trigger] keys@[v])@ ==> exists|k: int| 0 <= k < r@.len() && r@[k] as int == v,
                    forall|v: int, j2: int| 0 <= v < keys@.len() && 0 <= j2 < j && (#[trigger] ns@[j2])@ == (#[trigger] keys@[v])@ ==> exists|k: int| 0 <= k < r@.len() && r@[k] as int == v,
                decreases ns.len() - j,
            {
                match index_of(keys, &ns[j]) {
                    Some(v) => {
                        let ghost r0 = r@;
                        r.push(v);
                        assert(has_edge(g@, keys@[u as int]@, keys@[v as int]@)) by {
                            assert(g@[i as int].1@[j as int]@ == keys@[v as int]@);
                        }
                        assert forall|k: int| 0 <= k < r@.len() implies (#[trigger] r@[k]) < keys@.len() && has_edge(g@, keys@[u as int]@, keys@[r@[k] as int]@) by {
                            if k < r0.len() {
                                assert(r@[k] == r0[k]);
                            }
                        }
                        assert forall|w: int, i2: int, j2: int| 0 <= w < keys@.len() && 0 <= i2 < i && 0 <= j2 < g@[i2].1@.len() && g@[i2].0@ == keys@[u as int]@ && (#[trigger] g@[i2].1@[j2])@ == (#[trigger] keys@[w])@ implies exists|k: int| 0 <= k < r@.len() && r@[k] as int == w by {
                            let k = choose|k: int| 0 <= k < r0.len() && r0[k] as int == w;
                            assert(r@[k] == r0[k]);
                        }
                        assert forall|w: int, j2: int| 0 <= w < keys@.len() && 0 <= j2 < j + 1 && (#[trigger] ns@[j2])@ == (#[trigger] keys@[w])@ implies exists|k: int| 0 <= k < r@.len() && r@[k] as int == w by {
                            if j2 < j {
                                let k = choose|k: int| 0 <= k < r0.len() && r0[k] as int == w;
                                assert(r@[k] == r0[k]);
                            } else {
                                if w != v {
                                    assert(keys@[w]@ == keys@[v as int]@);
                                    if w < v {
                                        assert(keys@[w]@ != keys@[v as int]@);
                                    } else {
                                        assert(keys@[v as int]@ != keys@[w]@);
                                    }
                                }
                                assert(r@[r0.len() as int] as int == w);
                            }
                        }
                    },
                    None => {
                        assert forall|w: int, j2: int| 0 <= w < keys@.len() && 0 <= j2 < j + 1 && (#[trigger] ns@[j2])@ == (#[trigger] keys@[w])@ implies exists|k: int| 0 <= k < r@.len() && r@[k] as int == w by {
                            if j2 == j {
                                assert(is_key(keys@, ns@[j as int]@));
                            }
                        }
                    },
                }
                j = j + 1;
            }
        }
        i = i + 1;
    }
    proof {
        assert forall|v: int| 0 <= v < keys@.len() && has_edge(g@, keys@[u as int]@, #[trigger] keys@[v]@) implies exists|j: int| 0 <= j < r@.len() && r@[j] as int == v by {
            let (i2, j2) = choose|i2: int, j2: int| 0 <= i2 < g@.len() && 0 <= j2 < g@[i2].1@.len() && #[trigger] g@[i2].0@ == keys@[u as int]@ && (#[trigger] g@[i2].1@[j2])@ == keys@[v]@;
        }
    }
    r
}

/// The graph over key indices.
fn index_graph(g: &Vec<(String, Vec<String>)>, keys: &Vec<String>) -> (adj: Vec<Vec<usize>>)
    requires
        keys_distinct(keys@),
    ensures
        adj_matches(g@, keys@, adj@),
{
    let mut adj: Vec<Vec<usize>> = Vec::new();
    let mut u: usize = 0;
    while u < keys.len()
        invariant
            keys_distinct(keys@),
            u <= keys@.len(),
            adj@.len() == u,
            forall|w: int, j: int| 0 <= w < u && 0 <= j < adj@[w]@.len() ==> (#[trigger] adj@[w]@[j]) < keys@.len() && has_edge(g@, keys@[w]@, keys@[adj@[w]@[j] as int]@),
            forall|w: int, v: int| 0 <= w < u && 0 <= v < keys@.len() && has_edge(g@, #[trigger] keys@[w]@, #[trigger] keys@[v]@) ==> exists|j: int| 0 <= j < adj@[w]@.len() && adj@[w]@[j] as int == v,
        decreases keys.len() - u,
    {
        let ns = key_neighbours(g, keys, u);
        let ghost a0 = adj@;
        let ghost nsv = ns@;
        adj.push(ns);
        assert(adj@[u as int]@ == nsv);
        assert forall|w: int, j: int| 0 <= w < u + 1 && 0 <= j < adj@[w]@.len() implies (#[trigger] adj@[w]@[j]) < keys@.len() && has_edge(g@, keys@[w]@, keys@[adj@[w]@[j] as int]@) by {
            if w < u {
                assert(adj@[w] == a0[w]);
            }
        }
        assert forall|w: int, v: int| 0 <= w < u + 1 && 0 <= v < keys@.len() && has_edge(g@, #[trigger] keys@[w]@, #[trigger] keys@[v]@) implies exists|j: int| 0 <= j < adj@[w]@.len() && adj@[w]@[j] as int == v by {
            if w < u {
                assert(adj@[w] == a0[w]);
            } else {
                let j = choose|j: int| 0 <= j < nsv.len() && nsv[j] as int == v;
                assert(adj@[w]@[j] as int == v);
            }
        }
        u = u + 1;
    }
    proof {
        assert forall|u: int, v: int| 0 <= u < keys@.len() && 0 <= v < keys@.len() implies (int_edge(adj@, u, v) <==> has_edge(g@, #[trigger] keys@[u]@, #[trigger] keys@[v]@)) by {
            if int_edge(adj@, u, v) {
                let j = choose|j: int| 0 <= j < adj@[u]@.len() && (#[trigger] adj@[u]@[j]) as int == v;
            }
            if has_edge(g@, keys@[u]@, keys@[v]@) {
                let j = choose|j: int| 0 <= j < adj@[u]@.len() && adj@[u]@[j] as int == v;
                assert(adj@[u]@[j] as int == v);
            }
        }
    }
    adj
}


pub open spec fn count_true(s: Seq<bool>) -> nat
    decreases s.len(),
{
    if s.len() == 0 {
        0
    } else {
        count_true(s.drop_last()) + if s.last() {
            1nat
        } else {
            0nat
        }
    }
}

proof fn lemma_count_true_bound(s: Seq<bool>, i: int)
    ensures
        count_true(s) <= s.len(),
        0 <= i < s.len() && !s[i] ==> count_true(s) < s.len(),
    decreases s.len(),
{
    if s.len() > 0 {
        lemma_count_true_bound(s.drop_last(), i);
        if 0 <= i < s.len() - 1 {
            assert(s.drop_last()[i] == s[i]);
        }
    }
}

proof fn lemma_count_true_set(s: Seq<bool>, i: int)
    requires
        0 <= i < s.len(),
        !s[i],
    ensures
        count_true(s.update(i, true)) == count_true(s) + 1,
    decreases s.len(),
{
    let t = s.update(i, true);
    if i == s.len() - 1 {
        assert(t.drop_last() =~= s.drop_last());
    } else {
        assert(t.drop_last() =~= s.drop_last().update(i, true));
        lemma_count_true_set(s.drop_last(), i);
    }
}

/// `c` is a cycle of the index graph.
pub open spec fn int_cycle(adj: Seq<Vec<usize>>, c: Seq<int>) -> bool {
    c.len() > 0 && forall|k: int| 0 <= k < c.len() ==> int_edge(adj, #[trigger] c[k], c[next_of(c.len() as int, k)])
}

pub open spec fn adj_closed(adj: Seq<Vec<usize>>) -> bool {
    forall|u: int, j: int| 0 <= u < adj.len() && 0 <= j < adj[u]@.len() ==> (#[trigger] adj[u]@[j]) < adj.len()
}

/// Every edge out of a removed node leads to a node removed before it.
pub open spec fn ranked(adj: Seq<Vec<usize>>, removed: Seq<bool>, rank: Seq<usize>) -> bool {
    forall|u: int, v: int| 0 <= u < adj.len() && #[trigger] removed[u] && #[trigger] int_edge(adj, u, v) ==> removed[v] && rank[v] < rank[u]
}

proof fn lemma_rank_descends(adj: Seq<Vec<usize>>, removed: Seq<bool>, rank: Seq<usize>, c: Seq<int>, k: int)
    requires
        0 <= k < c.len(),
        int_cycle(adj, c),
        forall|q: int| 0 <= q < c.len() ==> 0 <= #[trigger] c[q] < adj.len(),
        forall|u: int| 0 <= u < adj.len() ==> #[trigger] removed[u],
        ranked(adj, removed, rank),
    ensures
        rank[c[k]] + k <= rank[c[0]],
    decreases k,
{
    if k > 0 {
        lemma_rank_descends(adj, removed, rank, c, k - 1);
        assert(int_edge(adj, c[k - 1], c[next_of(c.len() as int, k - 1)]));
        assert(removed[c[k - 1]]);
    }
}

proof fn lemma_ranked_acyclic(adj: Seq<Vec<usize>>, removed: Seq<bool>, rank: Seq<usize>, c: Seq<int>)
    requires
        adj_closed(adj),
        removed.len() == adj.len(),
        rank.len() == adj.len(),
        forall|u: int| 0 <= u < adj.len() ==> #[trigger] removed[u],
        ranked(adj, removed, rank),
    ensures
        !int_cycle(adj, c),
{
    if int_cycle(adj, c) {
        assert forall|k: int| 0 <= k < c.len() implies 0 <= #[trigger] c[k] < adj.len() by {
            assert(int_edge(adj, c[k], c[next_of(c.len() as int, k)]));
        }
        let k = c.len() - 1;
        lemma_rank_descends(adj, removed, rank, c, k);
        assert(int_edge(adj, c[k], c[next_of(c.len() as int, k)]));
        assert(removed[c[k]]);
        assert(false);
    }
}

fn all_false(n: usize) -> (v: Vec<bool>)
    ensures
        v@.len() == n,
        forall|i: int| 0 <= i < n ==> !(#[trigger] v@[i]),
        count_true(v@) == 0,
{
    let mut v: Vec<bool> = Vec::new();
    while v.len() < n
        invariant
            v@.len() <= n,
            forall|i: int| 0 <= i < v@.len() ==> !(#[trigger] v@[i]),
            count_true(v@) == 0,
        decreases n - v.len(),
    {
        let ghost v0 = v@;
        v.push(false);
        assert(v@.drop_last() =~= v0);
    }
    v
}

fn all_zero(n: usize) -> (v: Vec<usize>)
    ensures
        v@.len() == n,
{
    let mut v: Vec<usize> = Vec::new();
    while v.len() < n
        invariant
            v@.len() <= n,
        decreases n - v.len(),
    {
        v.push(0);
    }
    v
}

/// A node that is not removed and whose neighbours are all removed, if there is one.
fn find_removable(adj: &Vec<Vec<usize>>, removed: &Vec<bool>) -> (r: Option<usize>)
    requires
        adj_closed(adj@),
        removed@.len() == adj@.len(),
    ensures
        match r {
            Some(u) => u < adj@.len() && !removed@[u as int] && forall|v: int| #[trigger] int_edge(adj@, u as int, v) ==> removed@[v],
            None => forall|u: int| 0 <= u < adj@.len() && !(#[trigger] removed@[u]) ==> exists|v: int| int_edge(adj@, u, v) && !removed@[v],
        },
{
    let mut u: usize = 0;
    while u < adj.len()
        invariant
            adj_closed(adj@),
            removed@.len() == adj@.len(),
            u <= adj@.len(),
            forall|w: int| 0 <= w < u && !(#[trigger] removed@[w]) ==> exists|v: int| int_edge(adj@, w, v) && !removed@[v],
        decreases adj.len() - u,
    {
        if !removed[u] {
            let ns = &adj[u];
            let mut j: usize = 0;
            let mut blocked = false;
            while j < ns.len()
                invariant
                    adj_closed(adj@),
                    removed@.len() == adj@.len(),
                    u < adj@.len(),
                    ns@ == adj@[u as int]@,
                    j <= ns@.len(),
                    blocked ==> exists|v: int| int_edge(adj@, u as int, v) && !removed@[v],
                    !blocked ==> forall|k: int| 0 <= k < j ==> removed@[(#[trigger] ns@[k]) as int],
                decreases ns.len() - j,
            {
                if !removed[ns[j]] {
                    assert(int_edge(adj@, u as int, ns@[j as int] as int));
                    blocked = true;
                }
                j = j + 1;
            }
            if !blocked {
                assert forall|v: int| #[trigger] int_edge(adj@, u as int, v) implies removed@[v] by {
                    let k = choose|k: int| 0 <= k < adj@[u as int]@.len() && (#[trigger] adj@[u as int]@[k]) as int == v;
                    assert(removed@[(ns@[k]) as int]);
                }
                return Some(u);
            }
        }
        u = u + 1;
    }
    None
}

/// A cycle of the index graph, or `None` when it has none.
#[verifier::rlimit(50)]
pub fn find_index_cycle(adj: &Vec<Vec<usize>>) -> (r: Option<Vec<usize>>)
    requires
        adj_closed(adj@),
    ensures
        match r {
            Some(c) => int_cycle(adj@, c@.map_values(|x: usize| x as int)) && distinct_nodes(c@),
            None => forall|c: Seq<int>| !int_cycle(adj@, c),
        },
{
    let n = adj.len();
    let mut removed = all_false(n);
    let mut rank = all_zero(n);
    let mut count: usize = 0;
    let mut stuck = false;
    while !stuck
        invariant
            adj_closed(adj@),
            n == adj@.len(),
            removed@.len() == n,
            rank@.len() == n,
            count_true(removed@) == count,
            count <= n,
            ranked(adj@, removed@, rank@),
            forall|u: int| 0 <= u < n && #[trigger] removed@[u] ==> rank@[u] < count,
            stuck ==> forall|u: int| 0 <= u < n && !(#[trigger] removed@[u]) ==> exists|v: int| int_edge(adj@, u, v) && !removed@[v],
        decreases n - count + if stuck { 0int } else { 1int },
    {
        match find_removable(adj, &removed) {
            Some(u) => {
                let ghost r0 = removed@;
                let ghost k0 = rank@;
                proof {
                    lemma_count_true_bound(removed@, u as int);
                    lemma_count_true_set(removed@, u as int);
                }
                removed.set(u, true);
                rank.set(u, count);
                assert forall|w: int, v: int| 0 <= w < adj@.len() && #[trigger] removed@[w] && #[trigger] int_edge(adj@, w, v) implies removed@[v] && rank@[v] < rank@[w] by {
                    if w == u {
                        assert(r0[v]);
                        assert(v != u);
                    } else {
                        assert(r0[w]);
                        assert(r0[v] && k0[v] < k0[w]);
                        if v == u {
                            assert(false);
                        }
                    }
                }
                count = count + 1;
            },
            None => {
                stuck = true;
            },
        }
    }
    // Find a node that is still present.
    let mut start: usize = 0;
    while start < n && removed[start]
        invariant
            n == removed@.len(),
            start <= n,
            forall|u: int| 0 <= u < start ==> #[trigger] removed@[u],
        decreases n - start,
    {
        start = start + 1;
    }
    if start == n {
        proof {
            assert forall|c: Seq<int>| !int_cycle(adj@, c) by {
                lemma_ranked_acyclic(adj@, removed@, rank@, c);
            }
        }
        return None;
    }
    Some(walk_to_cycle(adj, &removed, start))
}

/// A neighbour of `u` that is not removed.
fn present_neighbour(adj: &Vec<Vec<usize>>, removed: &Vec<bool>, u: usize) -> (v: usize)
    requires
        adj_closed(adj@),
        removed@.len() == adj@.len(),
        u < adj@.len(),
        exists|v: int| int_edge(adj@, u as int, v) && !removed@[v],
    ensures
        int_edge(adj@, u as int, v as int),
        v < adj@.len(),
        !removed@[v as int],
{
    let ns = &adj[u];
    let mut j: usize = 0;
    while j < ns.len() && removed[ns[j]]
        invariant
            adj_closed(adj@),
            u < adj@.len(),
            removed@.len() == adj@.len(),
            ns@ == adj@[u as int]@,
            j <= ns@.len(),
            forall|k: int| 0 <= k < j ==> removed@[(#[trigger] ns@[k]) as int],
        decreases ns.len() - j,
    {
        j = j + 1;
    }
    if j == ns.len() {
        proof {
            let v = choose|v: int| int_edge(adj@, u as int, v) && !removed@[v];
            let k = choose|k: int| 0 <= k < adj@[u as int]@.len() && (#[trigger] adj@[u as int]@[k]) as int == v;
            assert(removed@[(ns@[k]) as int]);
            assert(false);
        }
    }
    let v = ns[j];
    assert(int_edge(adj@, u as int, v as int));
    v
}

pub open spec fn is_walk(adj: Seq<Vec<usize>>, path: Seq<usize>) -> bool {
    forall|k: int| 0 <= k < path.len() - 1 ==> int_edge(adj, (#[trigger] path[k]) as int, path[k + 1] as int)
}

/// The part of a walk from position `s` on, when its last node has an edge back to `path[s]`.
fn close_cycle(adj: &Vec<Vec<usize>>, path: &Vec<usize>, s: usize) -> (c: Vec<usize>)
    requires
        s < path@.len(),
        is_walk(adj@, path@),
        int_edge(adj@, path@[path@.len() - 1] as int, path@[s as int] as int),
        distinct_nodes(path@),
    ensures
        int_cycle(adj@, c@.map_values(|x: usize| x as int)),
        distinct_nodes(c@),
{
    let mut c: Vec<usize> = Vec::new();
    let mut k = s;
    while k < path.len()
        invariant
            s <= k <= path@.len(),
            c@ == path@.subrange(s as int, k as int),
        decreases path.len() - k,
    {
        c.push(path[k]);
        assert(c@ =~= path@.subrange(s as int, k + 1));
        k = k + 1;
    }
    assert forall|a: int, b: int| 0 <= a < b < c@.len() implies #[trigger] c@[a] != #[trigger] c@[b] by {
        assert(c@[a] == path@[s + a] && c@[b] == path@[s + b]);
    }
    proof {
        let ci = c@.map_values(|x: usize| x as int);
        assert forall|q: int| 0 <= q < ci.len() implies int_edge(adj@, #[trigger] ci[q], ci[next_of(ci.len() as int, q)]) by {
            if q + 1 < ci.len() {
                assert(ci[q] == path@[s + q] as int);
                assert(ci[q + 1] == path@[s + q + 1] as int);
                assert(int_edge(adj@, path@[s + q] as int, path@[s + q + 1] as int));
            } else {
                assert(ci[q] == path@[path@.len() - 1] as int);
                assert(ci[0] == path@[s as int] as int);
            }
        }
    }
    c
}

pub open spec fn walk_state(
    adj: Seq<Vec<usize>>,
    removed: Seq<bool>,
    path: Seq<usize>,
    on: Seq<bool>,
    pos: Seq<usize>,
) -> bool {
    let n = adj.len();
    &&& on.len() == n
    &&& pos.len() == n
    &&& path.len() > 0
    &&& count_true(on) == path.len()
    &&& forall|k: int| 0 <= k < path.len() ==> (#[trigger] path[k]) < n && !removed[path[k] as int] && on[path[k] as int] && pos[path[k] as int] == k
    &&& forall|u: int| 0 <= u < n && #[trigger] on[u] ==> pos[u] < path.len() && path[pos[u] as int] == u
    &&& is_walk(adj, path)
}

proof fn lemma_walk_extend(
    adj: Seq<Vec<usize>>,
    removed: Seq<bool>,
    path: Seq<usize>,
    on: Seq<bool>,
    pos: Seq<usize>,
    v: usize,
)
    requires
        walk_state(adj, removed, path, on, pos),
        v < adj.len(),
        !removed[v as int],
        !on[v as int],
        int_edge(adj, path[path.len() - 1] as int, v as int),
        path.len() < usize::MAX,
    ensures
        walk_state(adj, removed, path.push(v), on.update(v as int, true), pos.update(v as int, path.len() as usize)),
{
    let n = adj.len();
    let p1 = path.push(v);
    let o1 = on.update(v as int, true);
    let q1 = pos.update(v as int, path.len() as usize);
    lemma_count_true_set(on, v as int);
    assert forall|k: int| 0 <= k < p1.len() implies (#[trigger] p1[k]) < n && !removed[p1[k] as int] && o1[p1[k] as int] && q1[p1[k] as int] == k by {
        if k < path.len() {
            assert(p1[k] == path[k]);
            assert(path[k] != v);
        }
    }
    assert forall|w: int| 0 <= w < n && #[trigger] o1[w] implies q1[w] < p1.len() && p1[q1[w] as int] == w by {
        if w != v {
            assert(on[w]);
            assert(p1[pos[w] as int] == path[pos[w] as int]);
        }
    }
    assert forall|k: int| 0 <= k < p1.len() - 1 implies int_edge(adj, (#[trigger] p1[k]) as int, p1[k + 1] as int) by {
        if k < path.len() - 1 {
            assert(p1[k] == path[k] && p1[k + 1] == path[k + 1]);
        } else {
            assert(p1[k] == path[path.len() - 1] && p1[k + 1] == v);
        }
    }
}

/// Where every present node has a present neighbour, a walk from a present node repeats a
/// node; the part of the walk from that node's first visit is a cycle.
fn walk_to_cycle(adj: &Vec<Vec<usize>>, removed: &Vec<bool>, start: usize) -> (c: Vec<usize>)
    requires
        adj_closed(adj@),
        removed@.len() == adj@.len(),
        start < adj@.len(),
        !removed@[start as int],
        forall|u: int| 0 <= u < adj@.len() && !(#[trigger] removed@[u]) ==> exists|v: int| int_edge(adj@, u, v) && !removed@[v],
    ensures
        int_cycle(adj@, c@.map_values(|x: usize| x as int)),
        distinct_nodes(c@),
{
    let n = adj.len();
    let mut path: Vec<usize> = Vec::new();
    path.push(start);
    let mut on = all_false(n);
    let mut pos = all_zero(n);
    proof {
        lemma_count_true_set(on@, start as int);
    }
    on.set(start, true);
    pos.set(start, 0);
    loop
        invariant
            adj_closed(adj@),
            n == adj@.len(),
            removed@.len() == n,
            forall|u: int| 0 <= u < n && !(#[trigger] removed@[u]) ==> exists|v: int| int_edge(adj@, u, v) && !removed@[v],
            walk_state(adj@, removed@, path@, on@, pos@),
        decreases n - path.len(),
    {
        let u = path[path.len() - 1];
        let v = present_neighbour(adj, removed, u);
        if on[v] {
            assert forall|a: int, b: int| 0 <= a < b < path@.len() implies #[trigger] path@[a] != #[trigger] path@[b] by {
                if path@[a] == path@[b] {
                    assert(pos@[path@[a] as int] == a);
                    assert(pos@[path@[b] as int] == b);
                }
            }
            let s = pos[v];
            return close_cycle(adj, &path, s);
        }
        proof {
            lemma_count_true_bound(on@, v as int);
            lemma_walk_extend(adj@, removed@, path@, on@, pos@, v);
        }
        let len = path.len();
        path.push(v);
        on.set(v, true);
        pos.set(v, len);
    }
}

pub open spec fn key_index(keys: Seq<String>, name: Seq<char>) -> int {
    choose|u: int| 0 <= u < keys.len() && (#[trigger] keys[u])@ == name
}

proof fn lemma_edge_source_is_key(g: Seq<(String, Vec<String>)>, keys: Seq<String>, a: Seq<char>, b: Seq<char>)
    requires
        forall|i: int| 0 <= i < g.len() ==> is_key(keys, #[trigger] g[i].0@),
        has_edge(g, a, b),
    ensures
        is_key(keys, a),
{
    let (i, j) = choose|i: int, j: int|
        0 <= i < g.len() && 0 <= j < g[i].1@.len() && #[trigger] g[i].0@ == a && (#[trigger] g[i].1@[j])@ == b;
    assert(is_key(keys, g[i].0@));
}

/// A cycle of the dependency graph, no name in it twice, or `None` when the graph has no cycle.
pub fn detect_cycle(dependency_graph: &Vec<(String, Vec<String>)>) -> (r: Option<Vec<String>>)
    ensures
        match r {
            Some(c) => is_cycle(dependency_graph@, names_view(c@)) && distinct_names(names_view(c@)),
            None => forall|c: Seq<Seq<char>>| !is_cycle(dependency_graph@, c),
        },
{
    let ghost g = dependency_graph@;
    let keys = graph_keys(dependency_graph);
    let adj = index_graph(dependency_graph, &keys);
    match find_index_cycle(&adj) {
        Some(ci) => {
            let mut names: Vec<String> = Vec::new();
            let mut k: usize = 0;
            while k < ci.len()
                invariant
                    adj_matches(g, keys@, adj@),
                    int_cycle(adj@, ci@.map_values(|x: usize| x as int)),
                    distinct_nodes(ci@),
                    keys_distinct(keys@),
                    k <= ci@.len(),
                    names@.len() == k,
                    forall|q: int| 0 <= q < k ==> (#[trigger] names@[q])@ == keys@[ci@[q] as int]@,
                decreases ci.len() - k,
            {
                let ghost cm = ci@.map_values(|x: usize| x as int);
                assert(int_edge(adj@, cm[k as int], cm[next_of(cm.len() as int, k as int)]));
                names.push(keys[ci[k]].clone());
                k = k + 1;
            }
            proof {
                let cm = ci@.map_values(|x: usize| x as int);
                let nv = names_view(names@);
                assert forall|q: int| 0 <= q < nv.len() implies has_edge(g, #[trigger] nv[q], nv[next_of(nv.len() as int, q)]) by {
                    let q2 = next_of(nv.len() as int, q);
                    assert(int_edge(adj@, cm[q], cm[q2]));
                    assert(0 <= cm[q2] < keys@.len());
                    assert(keys@[cm[q]]@ == nv[q]);
                    assert(keys@[cm[q2]]@ == nv[q2]);
                }
                assert forall|a: int, b: int| 0 <= a < b < nv.len() implies #[trigger] nv[a] != #[trigger] nv[b] by {
                    assert(nv[a] == keys@[ci@[a] as int]@ && nv[b] == keys@[ci@[b] as int]@);
                    assert(ci@[a] != ci@[b]);
                    assert(int_edge(adj@, cm[a], cm[next_of(cm.len() as int, a)]));
                    assert(int_edge(adj@, cm[b], cm[next_of(cm.len() as int, b)]));
                    if ci@[a] < ci@[b] {
                        assert(keys@[ci@[a] as int]@ != keys@[ci@[b] as int]@);
                    } else {
                        assert(keys@[ci@[b] as int]@ != keys@[ci@[a] as int]@);
                    }
                }
            }
            Some(names)
        },
        None => {
            proof {
                assert forall|c: Seq<Seq<char>>| !is_cycle(g, c) by {
                    if is_cycle(g, c) {
                        let ci = c.map_values(|name: Seq<char>| key_index(keys@, name));
                        assert forall|q: int| 0 <= q < c.len() implies is_key(keys@, #[trigger] c[q]) by {
                            lemma_edge_source_is_key(g, keys@, c[q], c[next_of(c.len() as int, q)]);
                        }
                        assert forall|q: int| 0 <= q < ci.len() implies int_edge(adj@, #[trigger] ci[q], ci[next_of(ci.len() as int, q)]) by {
                            let q2 = next_of(c.len() as int, q);
                            assert(is_key(keys@, c[q]));
                            assert(is_key(keys@, c[q2]));
                            let u = ci[q];
                            let v = ci[q2];
                            assert(keys@[u]@ == c[q]);
                            assert(keys@[v]@ == c[q2]);
                            assert(has_edge(g, c[q], c[q2]));
                        }
                        assert(int_cycle(adj@, ci));
                    }
                }
            }
            None
        },
    }
}

} // verus!
