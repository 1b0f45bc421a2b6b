//! The transaction DAG: each transaction names the transactions it builds on
//! (its parents).

use rayon::iter::IntoParallelRefIterator;
use rayon::iter::ParallelIterator;
use std::collections::HashMap;
use vstd::prelude::*;
use vstd::std_specs::iter::IteratorSpec;

verus! {

broadcast use vstd::std_specs::hash::group_hash_axioms;

/// A DAG of transactions: transaction id to the ids of its parents.
pub struct Dag {
    nodes: HashMap<u128, Vec<u128>>,
}

impl View for Dag {
    type V = Map<u128, Seq<u128>>;

    closed spec fn view(&self) -> Map<u128, Seq<u128>> {
        Map::new(|k: u128| self.nodes@.contains_key(k), |k: u128| self.nodes@[k]@)
    }
}

/// The transactions whose parents include `p`.
pub open spec fn spec_children(g: Map<u128, Seq<u128>>, p: u128) -> Set<u128> {
    Set::new(|c: u128| g.contains_key(c) && g[c].contains(p))
}

/// `w` follows parent links: each element but the last is a transaction
/// whose parents include the next element.
pub open spec fn is_walk(g: Map<u128, Seq<u128>>, w: Seq<u128>) -> bool {
    &&& w.len() >= 1
    &&& forall|i: int| 0 <= i < w.len() - 1 ==> #[trigger] g.contains_key(w[i]) && g[w[i]].contains(w[i + 1])
}

/// `c` is a cycle: a walk of at least one link that ends where it starts.
pub open spec fn is_cycle(g: Map<u128, Seq<u128>>, c: Seq<u128>) -> bool {
    &&& c.len() >= 2
    &&& is_walk(g, c)
    &&& c[0] == c[c.len() - 1]
}

/// Some transaction is, through parent links, its own ancestor.
pub open spec fn spec_has_cycle(g: Map<u128, Seq<u128>>) -> bool {
    exists|c: Seq<u128>| is_cycle(g, c)
}

/// There is a walk of `k` links starting at `v`.
pub open spec fn has_walk(g: Map<u128, Seq<u128>>, v: u128, k: nat) -> bool {
    exists|w: Seq<u128>| #[trigger] is_walk(g, w) && w.len() == k + 1 && w[0] == v
}

/// The length (number of transactions) of the longest path of parent links
/// from `v` that repeats no transaction and avoids `visited`.
pub open spec fn longest_from(g: Map<u128, Seq<u128>>, v: u128, visited: Set<u128>) -> nat
    decreases g.dom().difference(visited).len(), 0nat, 0nat,
{
    if !g.dom().finite() || visited.contains(v) {
        0
    } else if !g.contains_key(v) || g[v].len() == 0 {
        1
    } else {
        proof {
            lemma_unvisited_shrinks(g.dom(), visited, v);
        }
        1 + longest_over(g, g[v], visited.insert(v))
    }
}

/// The largest [`longest_from`] over the transactions in `ps` (0 for none).
pub open spec fn longest_over(g: Map<u128, Seq<u128>>, ps: Seq<u128>, visited: Set<u128>) -> nat
    decreases g.dom().difference(visited).len(), 1nat, ps.len(),
{
    if ps.len() == 0 {
        0
    } else {
        let a = longest_over(g, ps.drop_last(), visited);
        let b = longest_from(g, ps.last(), visited);
        if a >= b {
            a
        } else {
            b
        }
    }
}

/// Marking a transaction of the DAG as visited leaves fewer unvisited ones.
pub proof fn lemma_unvisited_shrinks(dom: Set<u128>, visited: Set<u128>, v: u128)
    requires
        dom.finite(),
        dom.contains(v),
        !visited.contains(v),
    ensures
        dom.difference(visited.insert(v)).len() < dom.difference(visited).len(),
{
    assert(dom.difference(visited.insert(v)) =~= dom.difference(visited).remove(v));
}

impl Dag {
    /// An empty DAG.
    pub fn new() -> (r: Self)
        ensures
            r@ == Map::<u128, Seq<u128>>::empty(),
    {
        let r = Dag { nodes: HashMap::new() };
        assert(r@ =~= Map::<u128, Seq<u128>>::empty());
        r
    }

    /// Records a transaction with its parents (replacing an earlier record of the same id).
    pub fn add_transaction(&mut self, tx_id: u128, parents: Vec<u128>)
        ensures
            final(self)@ == old(self)@.insert(tx_id, parents@),
    {
        self.nodes.insert(tx_id, parents);
        assert(self@ =~= old(self)@.insert(tx_id, parents@));
    }

    /// All transaction ids, each once, in no particular order.
    pub fn all_tx_ids(&self) -> (r: Vec<u128>)
        ensures
            r@.to_set() == self@.dom(),
            r@.no_duplicates(),
            r@.len() == self@.dom().len(),
    {
        let mut out: Vec<u128> = Vec::new();
        let ghost ks = vstd::std_specs::hash::spec_keys_iter(&self.nodes).remaining();
        for k in it: self.nodes.keys()
            invariant
                it.seq() == ks,
                out@ == ks.take(it.index() as int).map_values(|k: &u128| *k),
        {
            out.push(*k);
        }
        proof {
            assert(out@ =~= ks.unref());
            assert(self@.dom() =~= self.nodes@.dom());
        }
        out
    }
}

/// Whether `ids` holds `x`.
fn vec_contains(ids: &Vec<u128>, x: u128) -> (r: bool)
    ensures
        r == ids@.contains(x),
{
    let mut i: usize = 0;
    while i < ids.len()
        invariant
            i <= ids.len(),
            forall|j: int| 0 <= j < i ==> ids@[j] != x,
        decreases ids.len() - i,
    {
        if ids[i] == x {
            return true;
        }
        i = i + 1;
    }
    false
}

/// The DAG after recording each (id, parents) pair of `txs` in order.
pub open spec fn after_batch(g: Map<u128, Seq<u128>>, txs: Seq<(u128, Vec<u128>)>) -> Map<u128, Seq<u128>>
    decreases txs.len(),
{
    if txs.len() == 0 {
        g
    } else {
        after_batch(g, txs.drop_last()).insert(txs.last().0, txs.last().1@)
    }
}

/// Validates several transactions in parallel (`rayon`'s `par_iter().map(..).collect()`),
/// each with [`Dag::validate`]. Claimed: one result per id, in the order of the ids,
/// each what `validate` returns (which is `true`).
#[verifier::external_body]
fn validate_all_parallel(dag: &Dag, tx_ids: &[u128]) -> (r: Vec<bool>)
    ensures
        r@ == Seq::new(tx_ids@.len(), |i: int| true),
{
    tx_ids.par_iter().map(|id| dag.validate(id)).collect()
}

impl Dag {
    /// The DAG's view is that of a finite map.
    proof fn lemma_finite(&self)
        ensures
            self@.dom().finite(),
            self@.dom() == self.nodes@.dom(),
    {
        assert(self@.dom() =~= self.nodes@.dom());
    }

    /// Records each (id, parents) pair in order.
    pub fn batch_add_transactions(&mut self, txs: &[(u128, Vec<u128>)])
        ensures
            final(self)@ == after_batch(old(self)@, txs@),
    {
        let mut i: usize = 0;
        while i < txs.len()
            invariant
                i <= txs.len(),
                self@ == after_batch(old(self)@, txs@.take(i as int)),
            decreases txs.len() - i,
        {
            let (id, parents) = &txs[i];
            let copy = parents.clone();
            assert(copy@ == parents@);
            self.add_transaction(*id, copy);
            assert(txs@.take(i + 1).drop_last() =~= txs@.take(i as int));
            i = i + 1;
        }
        assert(txs@.take(txs.len() as int) =~= txs@);
    }

    /// Checks a transaction (every transaction passes).
    pub fn validate(&self, _tx_id: &u128) -> (r: bool)
        ensures
            r,
    {
        true
    }

    /// Validates the transactions in parallel; one result per id, in order.
    pub fn validate_parallel(&self, tx_ids: &[u128]) -> (r: Vec<bool>)
        ensures
            r@.len() == tx_ids@.len(),
            forall|i: int| 0 <= i < r@.len() ==> r@[i],
    {
        validate_all_parallel(self, tx_ids)
    }

    /// The parents of a transaction, if it is recorded.
    pub fn parents(&self, tx_id: &u128) -> (r: Option<&Vec<u128>>)
        ensures
            match r {
                Some(v) => self@.contains_key(*tx_id) && v@ == self@[*tx_id],
                None => !self@.contains_key(*tx_id),
            },
    {
        self.nodes.get(tx_id)
    }

    /// The transactions that name `tx_id` among their parents, each once,
    /// in no particular order.
    pub fn children(&self, tx_id: &u128) -> (r: Vec<u128>)
        ensures
            r@.to_set() == spec_children(self@, *tx_id),
            r@.no_duplicates(),
    {
        let keys = self.all_tx_ids();
        let mut out: Vec<u128> = Vec::new();
        let mut i: usize = 0;
        while i < keys.len()
            invariant
                i <= keys.len(),
                keys@.to_set() == self@.dom(),
                keys@.no_duplicates(),
                out@.no_duplicates(),
                forall|c: u128| out@.contains(c) <==> (exists|j: int| 0 <= j < i && keys@[j] == c) && self@.contains_key(c)
                    && self@[c].contains(*tx_id),
            decreases keys.len() - i,
        {
            let c = keys[i];
            assert(keys@.to_set().contains(c));
            assert forall|j: int| 0 <= j < i implies keys@[j] != c by {
                assert(keys@[j] != keys@[i as int]);
            }
            assert(!out@.contains(c));
            let ghost prev = out@;
            let ghost mut added = false;
            match self.nodes.get(&c) {
                Some(ps) => {
                    assert(self@[c] == ps@);
                    if vec_contains(ps, *tx_id) {
                        out.push(c);
                        proof {
                            added = true;
                        }
                        assert forall|x: u128| out@.contains(x) <==> prev.contains(x) || x == c by {
                            if out@.contains(x) {
                                let k = choose|k: int| 0 <= k < out@.len() && out@[k] == x;
                                if k < prev.len() {
                                    assert(prev[k] == x);
                                }
                            }
                            if prev.contains(x) {
                                let k = choose|k: int| 0 <= k < prev.len() && prev[k] == x;
                                assert(out@[k] == x);
                            }
                            if x == c {
                                assert(out@[prev.len() as int] == c);
                            }
                        }
                        assert(out@.no_duplicates()) by {
                            assert forall|a: int, b: int| 0 <= a < out@.len() && 0 <= b < out@.len() && a != b implies out@[a]
                                != out@[b] by {
                                if a < prev.len() && b < prev.len() {
                                } else if a < prev.len() {
                                    assert(prev.contains(out@[a]));
                                } else if b < prev.len() {
                                    assert(prev.contains(out@[b]));
                                }
                            }
                        }
                    }
                },
                None => {
                    assert(self@.dom().contains(c));
                },
            }
            assert(added <==> self@.contains_key(c) && self@[c].contains(*tx_id));
            assert(forall|x: u128| out@.contains(x) <==> prev.contains(x) || (added && x == c));
            assert forall|x: u128| out@.contains(x) <==> (exists|j: int| 0 <= j < i + 1 && keys@[j] == x)
                && self@.contains_key(x) && self@[x].contains(*tx_id) by {
                let in_prefix = exists|j: int| 0 <= j < i && keys@[j] == x;
                let in_next = exists|j: int| 0 <= j < i + 1 && keys@[j] == x;
                if x == c {
                    assert(keys@[i as int] == x);
                    assert(in_next);
                    assert(!in_prefix);
                } else {
                    if in_next {
                        let j = choose|j: int| 0 <= j < i + 1 && keys@[j] == x;
                        assert(j < i);
                        assert(in_prefix);
                    }
                    if in_prefix {
                        let j = choose|j: int| 0 <= j < i && keys@[j] == x;
                        assert(0 <= j < i + 1 && keys@[j] == x);
                    }
                    assert(in_next == in_prefix);
                    assert(out@.contains(x) == prev.contains(x));
                    assert(prev.contains(x) == (in_prefix && self@.contains_key(x) && self@[x].contains(*tx_id)));
                }
            }
            i = i + 1;
        }
        assert(out@.to_set() =~= spec_children(self@, *tx_id)) by {
            assert forall|c: u128| spec_children(self@, *tx_id).contains(c) implies out@.to_set().contains(c) by {
                assert(keys@.to_set().contains(c));
                let j = choose|j: int| 0 <= j < keys@.len() && keys@[j] == c;
            }
        }
        out
    }
}

/// A longest path from `v` is at most one longer than the number of
/// transactions not yet visited.
pub proof fn lemma_longest_from_bound(g: Map<u128, Seq<u128>>, v: u128, visited: Set<u128>)
    requires
        g.dom().finite(),
    ensures
        longest_from(g, v, visited) <= g.dom().difference(visited).len() + 1,
    decreases g.dom().difference(visited).len(), 0nat, 0nat,
{
    if visited.contains(v) {
    } else if !g.contains_key(v) || g[v].len() == 0 {
    } else {
        lemma_unvisited_shrinks(g.dom(), visited, v);
        lemma_longest_over_bound(g, g[v], visited.insert(v));
    }
}

/// The bound of [`lemma_longest_from_bound`] over a list of starting points.
pub proof fn lemma_longest_over_bound(g: Map<u128, Seq<u128>>, ps: Seq<u128>, visited: Set<u128>)
    requires
        g.dom().finite(),
    ensures
        longest_over(g, ps, visited) <= g.dom().difference(visited).len() + 1,
    decreases g.dom().difference(visited).len(), 1nat, ps.len(),
{
    if ps.len() > 0 {
        lemma_longest_over_bound(g, ps.drop_last(), visited);
        lemma_longest_from_bound(g, ps.last(), visited);
    }
}

impl Dag {
    /// The longest path from `v` that avoids the transactions on `path`
    /// (explored by backtracking: `path` is restored on return).
    fn longest_from_exec(&self, v: u128, path: &mut Vec<u128>) -> (r: usize)
        requires
            self@.dom().len() < usize::MAX,
        ensures
            final(path)@ == old(path)@,
            r == longest_from(self@, v, old(path)@.to_set()),
        decreases self@.dom().difference(old(path)@.to_set()).len(),
    {
        proof {
            self.lemma_finite();
        }
        if vec_contains(path, v) {
            return 0;
        }
        let ghost vis = path@.to_set();
        match self.nodes.get(&v) {
            None => 1,
            Some(ps) => {
                assert(self@[v] == ps@);
                if ps.len() == 0 {
                    return 1;
                }
                path.push(v);
                proof {
                    old(path)@.lemma_push_to_set_commute(v);
                }
                assert(path@.to_set() =~= vis.insert(v));
                proof {
                    lemma_unvisited_shrinks(self@.dom(), vis, v);
                    lemma_longest_over_bound(self@, ps@, vis.insert(v));
                    vstd::set_lib::lemma_len_subset(self@.dom().difference(vis), self@.dom());
                }
                let mut best: usize = 0;
                let mut i: usize = 0;
                while i < ps.len()
                    invariant
                        self@.dom().len() < usize::MAX,
                        self@.dom().finite(),
                        self@[v] == ps@,
                        i <= ps.len(),
                        path@ == old(path)@.push(v),
                        path@.to_set() == vis.insert(v),
                        vis == old(path)@.to_set(),
                        best == longest_over(self@, ps@.take(i as int), vis.insert(v)),
                        self@.dom().difference(vis.insert(v)).len() < self@.dom().difference(vis).len(),
                    decreases ps.len() - i,
                {
                    let d = self.longest_from_exec(ps[i], path);
                    assert(ps@.take(i + 1).drop_last() =~= ps@.take(i as int));
                    assert(ps@.take(i + 1).last() == ps@[i as int]);
                    if d > best {
                        best = d;
                    }
                    i = i + 1;
                }
                assert(ps@.take(ps.len() as int) =~= ps@);
                path.pop();
                assert(path@ =~= old(path)@);
                1 + best
            },
        }
    }

    /// Depth of the DAG: the number of transactions on the longest path of
    /// parent links that repeats no transaction (0 for an empty DAG).
    pub fn depth(&self) -> (r: usize)
        requires
            self@.dom().len() < usize::MAX,
        ensures
            forall|k: u128| self@.contains_key(k) ==> longest_from(self@, k, Set::empty()) <= r,
            (self@.dom().len() == 0 && r == 0) || exists|k: u128|
                self@.contains_key(k) && r == longest_from(self@, k, Set::empty()),
    {
        let keys = self.all_tx_ids();
        let mut best: usize = 0;
        let mut i: usize = 0;
        while i < keys.len()
            invariant
                self@.dom().len() < usize::MAX,
                i <= keys.len(),
                keys@.to_set() == self@.dom(),
                keys@.len() == self@.dom().len(),
                forall|j: int| 0 <= j < i ==> longest_from(self@, keys@[j], Set::empty()) <= best,
                (i == 0 && best == 0) || exists|j: int| 0 <= j < i && best == longest_from(self@, keys@[j], Set::empty()),
            decreases keys.len() - i,
        {
            let mut path: Vec<u128> = Vec::new();
            assert(path@.to_set() =~= Set::<u128>::empty());
            let d = self.longest_from_exec(keys[i], &mut path);
            if d > best {
                best = d;
            }
            i = i + 1;
        }
        proof {
            assert forall|k: u128| self@.contains_key(k) implies longest_from(self@, k, Set::empty()) <= best by {
                assert(keys@.to_set().contains(k));
                let j = choose|j: int| 0 <= j < keys@.len() && keys@[j] == k;
            }
            if keys.len() > 0 {
                let j = choose|j: int| 0 <= j < keys.len() && best == longest_from(self@, keys@[j], Set::empty());
                assert(keys@.to_set().contains(keys@[j]));
            }
        }
        best
    }
}

/// A walk of `k > 0` links from `v` continues from one of its parents.
pub proof fn lemma_walk_step_forward(g: Map<u128, Seq<u128>>, v: u128, k: nat)
    requires
        k > 0,
        has_walk(g, v, k),
    ensures
        g.contains_key(v),
        exists|j: int| 0 <= j < g[v].len() && #[trigger] has_walk(g, g[v][j], (k - 1) as nat),
{
    let w = choose|w: Seq<u128>| #[trigger] is_walk(g, w) && w.len() == k + 1 && w[0] == v;
    assert(g.contains_key(w[0]) && g[w[0]].contains(w[1]));
    let j = choose|j: int| 0 <= j < g[v].len() && g[v][j] == w[1];
    let rest = w.drop_first();
    assert forall|i: int| 0 <= i < rest.len() - 1 implies #[trigger] g.contains_key(rest[i]) && g[rest[i]].contains(rest[i + 1]) by {
        assert(rest[i] == w[i + 1]);
        assert(g.contains_key(w[i + 1]));
    }
    assert(is_walk(g, rest));
    assert(has_walk(g, g[v][j], (k - 1) as nat));
}

/// A walk from a parent of `v` extends to a walk from `v`.
pub proof fn lemma_walk_step_back(g: Map<u128, Seq<u128>>, v: u128, j: int, k: nat)
    requires
        g.contains_key(v),
        0 <= j < g[v].len(),
        has_walk(g, g[v][j], k),
    ensures
        has_walk(g, v, k + 1),
{
    let rest = choose|w: Seq<u128>| #[trigger] is_walk(g, w) && w.len() == k + 1 && w[0] == g[v][j];
    let w = seq![v] + rest;
    assert forall|i: int| 0 <= i < w.len() - 1 implies #[trigger] g.contains_key(w[i]) && g[w[i]].contains(w[i + 1]) by {
        if i == 0 {
            assert(w[1] == rest[0]);
            assert(g[v][j] == rest[0]);
        } else {
            assert(w[i] == rest[i - 1]);
            assert(w[i + 1] == rest[i]);
            assert(g.contains_key(rest[i - 1]));
        }
    }
    assert(is_walk(g, w));
}

/// A walk of at least one link starts at a recorded transaction.
pub proof fn lemma_walk_starts_recorded(g: Map<u128, Seq<u128>>, v: u128, k: nat)
    requires
        k > 0,
        has_walk(g, v, k),
    ensures
        g.contains_key(v),
{
    let w = choose|w: Seq<u128>| #[trigger] is_walk(g, w) && w.len() == k + 1 && w[0] == v;
    assert(g.contains_key(w[0]));
}

/// Every transaction on a cycle starts walks of every length.
pub proof fn lemma_cycle_walks(g: Map<u128, Seq<u128>>, c: Seq<u128>, k: nat)
    requires
        is_cycle(g, c),
    ensures
        forall|i: int| 0 <= i < c.len() - 1 ==> #[trigger] has_walk(g, c[i], k),
    decreases k,
{
    assert(is_walk(g, c));
    if k == 0 {
        assert forall|i: int| 0 <= i < c.len() - 1 implies #[trigger] has_walk(g, c[i], k) by {
            let w = seq![c[i]];
            assert(is_walk(g, w));
        }
    } else {
        lemma_cycle_walks(g, c, (k - 1) as nat);
        assert forall|i: int| 0 <= i < c.len() - 1 implies #[trigger] has_walk(g, c[i], k) by {
            assert(g.contains_key(c[i]) && g[c[i]].contains(c[i + 1]));
            let j = choose|j: int| 0 <= j < g[c[i]].len() && g[c[i]][j] == c[i + 1];
            let next = if i + 1 < c.len() - 1 { i + 1 } else { 0 };
            assert(c[next] == c[i + 1]);
            assert(has_walk(g, c[next], (k - 1) as nat));
            lemma_walk_step_back(g, c[i], j, (k - 1) as nat);
        }
    }
}

/// A walk longer than the number of transactions passes some transaction
/// twice, so the DAG has a cycle.
pub proof fn lemma_long_walk_has_cycle(g: Map<u128, Seq<u128>>, w: Seq<u128>)
    requires
        g.dom().finite(),
        is_walk(g, w),
        w.len() > g.dom().len() + 1,
    ensures
        spec_has_cycle(g),
{
    let n = g.dom().len();
    let u = w.take(n + 1 as int);
    assert forall|x: u128| u.to_set().contains(x) implies g.dom().contains(x) by {
        let t = choose|t: int| 0 <= t < u.len() && u[t] == x;
        assert(g.contains_key(w[t]));
    }
    if u.no_duplicates() {
        u.unique_seq_to_set();
        vstd::set_lib::lemma_len_subset(u.to_set(), g.dom());
        assert(false);
    }
    let (a, b) = choose|a: int, b: int| 0 <= a < u.len() && 0 <= b < u.len() && a != b && u[a] == u[b];
    let i = if a < b { a } else { b };
    let j = if a < b { b } else { a };
    let c = w.subrange(i, j + 1);
    assert(c[0] == w[i] && c[c.len() - 1] == w[j]);
    assert forall|t: int| 0 <= t < c.len() - 1 implies #[trigger] g.contains_key(c[t]) && g[c[t]].contains(c[t + 1]) by {
        assert(c[t] == w[i + t]);
        assert(c[t + 1] == w[i + t + 1]);
        assert(g.contains_key(w[i + t]));
    }
    assert(is_cycle(g, c));
}

/// A DAG with finitely many transactions has a cycle exactly when some
/// transaction starts a walk with one more link than there are transactions.
pub proof fn lemma_cycle_iff_long_walk(g: Map<u128, Seq<u128>>)
    requires
        g.dom().finite(),
    ensures
        spec_has_cycle(g) <==> exists|v: u128| g.contains_key(v) && has_walk(g, v, g.dom().len() + 1),
{
    let n = g.dom().len();
    if spec_has_cycle(g) {
        let c = choose|c: Seq<u128>| is_cycle(g, c);
        lemma_cycle_walks(g, c, n + 1);
        assert(has_walk(g, c[0], n + 1));
        assert(g.contains_key(c[0]));
    }
    if exists|v: u128| g.contains_key(v) && has_walk(g, v, g.dom().len() + 1) {
        let v = choose|v: u128| g.contains_key(v) && has_walk(g, v, g.dom().len() + 1);
        let w = choose|w: Seq<u128>| #[trigger] is_walk(g, w) && w.len() == n + 2 && w[0] == v;
        lemma_long_walk_has_cycle(g, w);
    }
}

impl Dag {
    /// Whether some transaction is, through parent links, its own ancestor
    /// (a DAG must have no such cycle).
    pub fn has_cycle(&self) -> (r: bool)
        ensures
            r == spec_has_cycle(self@),
    {
        proof {
            self.lemma_finite();
        }
        let keys = self.all_tx_ids();
        let n = keys.len();
        let ghost g = self@;
        // Position of each transaction in `keys`.
        let mut index: HashMap<u128, usize> = HashMap::new();
        let mut i: usize = 0;
        while i < n
            invariant
                n == keys.len(),
                i <= n,
                keys@.no_duplicates(),
                forall|x: u128| #[trigger] index@.contains_key(x) <==> exists|t: int| 0 <= t < i && keys@[t] == x,
                forall|x: u128| #[trigger] index@.contains_key(x) ==> index@[x] < i && keys@[index@[x] as int] == x,
            decreases n - i,
        {
            proof {
                assert forall|t: int| 0 <= t < i implies keys@[t] != keys@[i as int] by {}
            }
            index.insert(keys[i], i);
            proof {
                assert forall|x: u128| #[trigger] index@.contains_key(x) <==> exists|t: int| 0 <= t < i + 1 && keys@[t] == x by {
                    if x == keys@[i as int] {
                        assert(keys@[i as int] == x);
                    } else if exists|t: int| 0 <= t < i + 1 && keys@[t] == x {
                        let t = choose|t: int| 0 <= t < i + 1 && keys@[t] == x;
                        assert(t < i);
                    }
                }
            }
            i = i + 1;
        }
        // cur[t]: whether keys[t] starts a walk of `rounds + 1` links.
        let mut cur: Vec<bool> = Vec::new();
        let mut t: usize = 0;
        while t < n
            invariant
                n == keys.len(),
                t <= n,
                g == self@,
                keys@.to_set() == g.dom(),
                cur@.len() == t,
                forall|s: int| 0 <= s < t ==> cur@[s] == has_walk(g, #[trigger] keys@[s], 1),
            decreases n - t,
        {
            let v = keys[t];
            assert(keys@.to_set().contains(v));
            let has_parent = match self.nodes.get(&v) {
                Some(ps) => {
                    assert(g[v] == ps@);
                    if ps.len() > 0 {
                        proof {
                            let w = seq![v, ps@[0]];
                            assert(is_walk(g, w));
                        }
                        true
                    } else {
                        proof {
                            if has_walk(g, v, 1) {
                                lemma_walk_step_forward(g, v, 1);
                            }
                        }
                        false
                    }
                },
                None => false,
            };
            cur.push(has_parent);
            t = t + 1;
        }
        let mut rounds: usize = 0;
        while rounds < n
            invariant
                n == keys.len(),
                rounds <= n,
                g == self@,
                keys@.to_set() == g.dom(),
                cur@.len() == n,
                forall|s: int| 0 <= s < n ==> cur@[s] == has_walk(g, #[trigger] keys@[s], (rounds + 1) as nat),
                forall|x: u128| #[trigger] index@.contains_key(x) <==> exists|t: int| 0 <= t < n && keys@[t] == x,
                forall|x: u128| #[trigger] index@.contains_key(x) ==> index@[x] < n && keys@[index@[x] as int] == x,
            decreases n - rounds,
        {
            let ghost k: nat = (rounds + 1) as nat;
            let mut next: Vec<bool> = Vec::new();
            let mut t: usize = 0;
            while t < n
                invariant
                    n == keys.len(),
                    t <= n,
                    g == self@,
                    keys@.to_set() == g.dom(),
                    k >= 1,
                    cur@.len() == n,
                    forall|s: int| 0 <= s < n ==> cur@[s] == has_walk(g, #[trigger] keys@[s], k),
                    forall|x: u128| #[trigger] index@.contains_key(x) <==> exists|t: int| 0 <= t < n && keys@[t] == x,
                    forall|x: u128| #[trigger] index@.contains_key(x) ==> index@[x] < n && keys@[index@[x] as int] == x,
                    next@.len() == t,
                    forall|s: int| 0 <= s < t ==> next@[s] == has_walk(g, #[trigger] keys@[s], k + 1),
                decreases n - t,
            {
                let v = keys[t];
                assert(keys@.to_set().contains(v));
                let mut found = false;
                match self.nodes.get(&v) {
                    Some(ps) => {
                        assert(g[v] == ps@);
                        let mut j: usize = 0;
                        while j < ps.len()
                            invariant
                                j <= ps.len(),
                                g == self@,
                                g.contains_key(v),
                                g[v] == ps@,
                                k >= 1,
                                keys@.to_set() == g.dom(),
                                cur@.len() == n,
                                n == keys.len(),
                                forall|s: int| 0 <= s < n ==> cur@[s] == has_walk(g, #[trigger] keys@[s], k),
                                forall|x: u128| #[trigger] index@.contains_key(x) <==> exists|t: int| 0 <= t < n && keys@[t] == x,
                                forall|x: u128| #[trigger] index@.contains_key(x) ==> index@[x] < n && keys@[index@[x] as int] == x,
                                found == exists|q: int| 0 <= q < j && #[trigger] has_walk(g, g[v][q], k),
                            decreases ps.len() - j,
                        {
                            let p = ps[j];
                            let hit = match index.get(&p) {
                                Some(pos) => {
                                    assert(keys@[*pos as int] == p);
                                    cur[*pos]
                                },
                                None => {
                                    proof {
                                        if has_walk(g, p, k) {
                                            lemma_walk_starts_recorded(g, p, k);
                                            assert(keys@.to_set().contains(p));
                                            let t2 = choose|t2: int| 0 <= t2 < keys@.len() && keys@[t2] == p;
                                            assert(index@.contains_key(p));
                                        }
                                    }
                                    false
                                },
                            };
                            assert(hit == has_walk(g, g[v][j as int], k));
                            if hit {
                                found = true;
                            }
                            j = j + 1;
                        }
                        proof {
                            if found {
                                let q = choose|q: int| 0 <= q < ps@.len() && #[trigger] has_walk(g, g[v][q], k);
                                lemma_walk_step_back(g, v, q, k);
                            } else if has_walk(g, v, k + 1) {
                                lemma_walk_step_forward(g, v, k + 1);
                            }
                        }
                    },
                    None => {},
                }
                next.push(found);
                t = t + 1;
            }
            cur = next;
            rounds = rounds + 1;
        }
        let mut any = false;
        let mut s: usize = 0;
        while s < n
            invariant
                n == keys.len(),
                s <= n,
                cur@.len() == n,
                any == exists|q: int| 0 <= q < s && cur@[q],
            decreases n - s,
        {
            if cur[s] {
                any = true;
            }
            s = s + 1;
        }
        proof {
            lemma_cycle_iff_long_walk(g);
            assert(keys@.len() == g.dom().len());
            if any {
                let q = choose|q: int| 0 <= q < n && cur@[q];
                assert(keys@.to_set().contains(keys@[q]));
                assert(has_walk(g, keys@[q], (n + 1) as nat));
            } else if exists|v: u128| g.contains_key(v) && has_walk(g, v, g.dom().len() + 1) {
                let v = choose|v: u128| g.contains_key(v) && has_walk(g, v, g.dom().len() + 1);
                assert(keys@.to_set().contains(v));
                let q = choose|q: int| 0 <= q < keys@.len() && keys@[q] == v;
                assert(cur@[q]);
            }
        }
        any
    }
}

/// A transaction is a child of `p` exactly when `p` is among its recorded parents.
pub proof fn lemma_children_match_parents(g: Map<u128, Seq<u128>>, c: u128, p: u128)
    ensures
        spec_children(g, p).contains(c) <==> (g.contains_key(c) && g[c].contains(p)),
{
}

/// Recording a transaction makes its parents readable back, and leaves
/// every other transaction's parents as they were.
pub proof fn lemma_parents_after_add(g: Map<u128, Seq<u128>>, id: u128, parents: Seq<u128>, other: u128)
    ensures
        g.insert(id, parents).contains_key(id),
        g.insert(id, parents)[id] == parents,
        other != id ==> (g.insert(id, parents).contains_key(other) == g.contains_key(other)),
        other != id && g.contains_key(other) ==> g.insert(id, parents)[other] == g[other],
{
}

/// Every recorded transaction lies on a path of at least one and at most
/// (number of transactions + 1) transactions; so the depth of a non-empty
/// DAG is between 1 and that bound.
pub proof fn lemma_depth_range(g: Map<u128, Seq<u128>>, k: u128)
    requires
        g.dom().finite(),
        g.contains_key(k),
    ensures
        1 <= longest_from(g, k, Set::empty()) <= g.dom().len() + 1,
{
    lemma_longest_from_bound(g, k, Set::empty());
    assert(g.dom().difference(Set::empty()) =~= g.dom());
}

/// The longest path over a list of starting points is at least as long as
/// the one from any of them.
pub proof fn lemma_longest_over_each(g: Map<u128, Seq<u128>>, ps: Seq<u128>, visited: Set<u128>, p: u128)
    requires
        ps.contains(p),
    ensures
        longest_over(g, ps, visited) >= longest_from(g, p, visited),
    decreases ps.len(),
{
    if ps.last() != p {
        let i = choose|i: int| 0 <= i < ps.len() && ps[i] == p;
        assert(ps.drop_last()[i] == p);
        lemma_longest_over_each(g, ps.drop_last(), visited, p);
    }
}

/// A transaction's longest path is at least one longer than that of each of
/// its parents, whichever parent it is (the path may continue through any).
pub proof fn lemma_parent_step(g: Map<u128, Seq<u128>>, v: u128, p: u128, visited: Set<u128>)
    requires
        g.dom().finite(),
        g.contains_key(v),
        g[v].contains(p),
        !visited.contains(v),
    ensures
        longest_from(g, v, visited) >= 1 + longest_from(g, p, visited.insert(v)),
{
    lemma_longest_over_each(g, g[v], visited.insert(v), p);
}

/// Every walk of parent links that repeats no transaction and avoids
/// `visited` is no longer (in transactions) than the longest path from its
/// start: the depth counts every such walk.
pub proof fn lemma_walk_within_longest(g: Map<u128, Seq<u128>>, w: Seq<u128>, visited: Set<u128>)
    requires
        g.dom().finite(),
        is_walk(g, w),
        w.no_duplicates(),
        forall|i: int| 0 <= i < w.len() ==> !visited.contains(#[trigger] w[i]),
    ensures
        longest_from(g, w[0], visited) >= w.len(),
    decreases w.len(),
{
    if w.len() > 1 {
        let v = w[0];
        let rest = w.drop_first();
        assert(is_walk(g, w));
        assert(g.contains_key(w[0]));
        assert(g[w[0]].contains(w[1]));
        assert forall|i: int| 0 <= i < rest.len() - 1 implies #[trigger] g.contains_key(rest[i]) && g[rest[i]].contains(rest[i + 1]) by {
            assert(rest[i] == w[i + 1] && rest[i + 1] == w[i + 2]);
            assert(g.contains_key(w[i + 1]) && g[w[i + 1]].contains(w[i + 1 + 1]));
        }
        assert forall|i: int| 0 <= i < rest.len() implies !visited.insert(v).contains(#[trigger] rest[i]) by {
            assert(rest[i] == w[i + 1]);
            assert(w[i + 1] != w[0]);
            assert(!visited.contains(w[i + 1]));
        }
        assert(rest.no_duplicates()) by {
            assert forall|i: int, j: int| 0 <= i < rest.len() && 0 <= j < rest.len() && i != j implies rest[i] != rest[j] by {
                assert(rest[i] == w[i + 1] && rest[j] == w[j + 1]);
            }
        }
        lemma_walk_within_longest(g, rest, visited.insert(v));
        assert(!visited.contains(w[0]));
        lemma_parent_step(g, v, w[1], visited);
    } else {
        assert(!visited.contains(w[0]));
    }
}

/// The longest path over a non-empty list of starting points is that of
/// one of them.
proof fn lemma_longest_over_attained(g: Map<u128, Seq<u128>>, ps: Seq<u128>, visited: Set<u128>)
    requires
        ps.len() > 0,
    ensures
        exists|i: int| 0 <= i < ps.len() && longest_over(g, ps, visited) == longest_from(g, #[trigger] ps[i], visited),
    decreases ps.len(),
{
    let n = ps.len() as int;
    if ps.len() == 1 {
        assert(longest_over(g, ps.drop_last(), visited) == 0);
        assert(longest_over(g, ps, visited) == longest_from(g, ps[0], visited));
    } else {
        lemma_longest_over_attained(g, ps.drop_last(), visited);
        let j = choose|j: int|
            0 <= j < n - 1 && longest_over(g, ps.drop_last(), visited) == longest_from(g, #[trigger] ps.drop_last()[j], visited);
        assert(ps.drop_last()[j] == ps[j]);
        if longest_over(g, ps, visited) == longest_from(g, ps[n - 1], visited) {
        } else {
            assert(longest_over(g, ps, visited) == longest_from(g, ps[j], visited));
        }
    }
}

/// The longest path from a transaction not yet visited is the length of an
/// actual walk of parent links from it that repeats no transaction and
/// avoids `visited`; with [`lemma_walk_within_longest`], it is the length of
/// the longest such walk.
pub proof fn lemma_longest_attained(g: Map<u128, Seq<u128>>, v: u128, visited: Set<u128>)
    requires
        g.dom().finite(),
        !visited.contains(v),
    ensures
        exists|w: Seq<u128>|
            #[trigger] is_walk(g, w) && w[0] == v && w.no_duplicates() && (forall|i: int|
                0 <= i < w.len() ==> !visited.contains(#[trigger] w[i])) && w.len() == longest_from(g, v, visited),
    decreases g.dom().difference(visited).len(),
{
    if !g.contains_key(v) || g[v].len() == 0 {
        let w = seq![v];
        assert(is_walk(g, w));
        assert(w.no_duplicates());
    } else {
        let vis2 = visited.insert(v);
        lemma_unvisited_shrinks(g.dom(), visited, v);
        lemma_longest_over_attained(g, g[v], vis2);
        let i = choose|i: int| 0 <= i < g[v].len() && longest_over(g, g[v], vis2) == longest_from(g, #[trigger] g[v][i], vis2);
        let p = g[v][i];
        assert(g[v].contains(p));
        if vis2.contains(p) {
            let w = seq![v];
            assert(is_walk(g, w));
            assert(w.no_duplicates());
            assert(longest_from(g, p, vis2) == 0);
        } else {
            lemma_longest_attained(g, p, vis2);
            let w2 = choose|w2: Seq<u128>|
                #[trigger] is_walk(g, w2) && w2[0] == p && w2.no_duplicates() && (forall|i: int|
                    0 <= i < w2.len() ==> !vis2.contains(#[trigger] w2[i])) && w2.len() == longest_from(g, p, vis2);
            let w = seq![v] + w2;
            assert(is_walk(g, w2));
            assert forall|k: int| 0 <= k < w.len() - 1 implies #[trigger] g.contains_key(w[k]) && g[w[k]].contains(w[k + 1]) by {
                if k > 0 {
                    assert(w[k] == w2[k - 1] && w[k + 1] == w2[k]);
                    let j = k - 1;
                    assert(0 <= j < w2.len() - 1);
                    assert(g.contains_key(w2[j]) && g[w2[j]].contains(w2[j + 1]));
                } else {
                    assert(w[1] == w2[0]);
                }
            }
            assert(is_walk(g, w));
            assert forall|a: int, b: int| 0 <= a < w.len() && 0 <= b < w.len() && a != b implies w[a] != w[b] by {
                if a > 0 && b > 0 {
                    assert(w[a] == w2[a - 1] && w[b] == w2[b - 1]);
                } else if a == 0 {
                    assert(w[b] == w2[b - 1]);
                    assert(!vis2.contains(w2[b - 1]));
                } else {
                    assert(w[a] == w2[a - 1]);
                    assert(!vis2.contains(w2[a - 1]));
                }
            }
            assert forall|k: int| 0 <= k < w.len() implies !visited.contains(#[trigger] w[k]) by {
                if k > 0 {
                    assert(w[k] == w2[k - 1]);
                    assert(!vis2.contains(w2[k - 1]));
                }
            }
            assert(w[0] == v);
        }
    }
}

/// An empty DAG has no cycle.
pub proof fn lemma_empty_has_no_cycle()
    ensures
        !spec_has_cycle(Map::<u128, Seq<u128>>::empty()),
{
    let g = Map::<u128, Seq<u128>>::empty();
    if spec_has_cycle(g) {
        let c = choose|c: Seq<u128>| is_cycle(g, c);
        assert(g.contains_key(c[0]));
    }
}

} // verus!
