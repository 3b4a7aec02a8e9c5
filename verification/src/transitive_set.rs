//! The shared, deduplicated transitive output-set DAG and its projection
//! engine.
//!
//! Nodes live in an arena owned by [`TransitiveSetStore`]; a node references
//! its children by [`TransitiveSetKey`], and a new node may only reference
//! already-inserted nodes, so a child edge always points strictly below its
//! parent in insertion order and the graph is acyclic by construction.
//! Evaluating a projection flattens the node's aggregate (own artifacts
//! first, then each child's aggregate in child-list order, duplicate handles
//! collapsed to their first occurrence) and applies the declared
//! transformation; the store memoizes one result per
//! [`TransitiveSetProjectionKey`], so repeated demands share one computation.

use vstd::prelude::*;

use crate::artifact::Artifact;

verus! {

/// Identifies one node of the transitive-set DAG: the arena index at which
/// the node was inserted into its store.
#[derive(Clone, Copy, Debug, PartialEq, Eq, Hash, Structural)]
pub struct TransitiveSetKey {
    pub index: usize,
}

/// A deterministic transformation of a node's flattened aggregate, declared
/// at node construction and applied at projection-evaluation time.
#[derive(Clone, Copy, Debug, PartialEq, Eq, Hash, Structural)]
pub enum ProjectionKind {
    /// The flattened aggregate itself, as an ordered list of handles.
    Flatten,
    /// The flattened aggregate in reverse order, so that contributions of
    /// deeper dependencies come first.
    FlattenReversed,
}

/// One node of the DAG: an ordered list of directly-owned artifact handles,
/// an ordered list of child-node references, and the fixed list of declared
/// projections. Immutable once inserted into a store.
pub struct TransitiveSetNode {
    pub artifacts: Vec<Artifact>,
    pub children: Vec<TransitiveSetKey>,
    pub projections: Vec<ProjectionKind>,
}

/// Composite key of one memoized projection computation: the owning node
/// and the index into that node's declared projection list. The same key
/// always recomputes to the same value, which is what makes the memoized
/// result safe to share across unrelated consumers.
#[derive(Clone, Copy, Debug, PartialEq, Eq, Hash, Structural)]
pub struct TransitiveSetProjectionKey {
    pub key: TransitiveSetKey,
    pub projection: usize,
}

/// Rejection of a node under construction: it referenced a child that does
/// not exist yet. Since nodes can only reference already-inserted nodes,
/// this is also what a would-be self- or forward-reference reports.
#[derive(Clone, Copy, Debug, PartialEq, Eq, Structural)]
pub enum TransitiveSetError {
    UnknownChild { child: TransitiveSetKey },
}

/// Structural acyclicity: every child reference points strictly below its
/// parent in insertion order.
pub open spec fn store_wf(nodes: Seq<TransitiveSetNode>) -> bool {
    forall|i: int, j: int|
        0 <= i < nodes.len() && 0 <= j < nodes[i].children@.len() ==> (#[trigger] nodes[i].children@[j]).index
            < i
}

/// The full (not yet deduplicated) aggregate of node `i`: its own artifacts
/// first, then each child's aggregate in child-list order.
pub open spec fn flatten_all(nodes: Seq<TransitiveSetNode>, i: int) -> Seq<Artifact>
    decreases i, 1int, 0int,
{
    if 0 <= i < nodes.len() {
        nodes[i].artifacts@ + flatten_refs(nodes, nodes[i].children@, i)
    } else {
        Seq::empty()
    }
}

/// The concatenated aggregates of the nodes in `refs`, in order. Only
/// references below `bound` contribute; in a well-formed store every child
/// of node `bound` is below `bound`, so nothing is skipped.
pub open spec fn flatten_refs(
    nodes: Seq<TransitiveSetNode>,
    refs: Seq<TransitiveSetKey>,
    bound: int,
) -> Seq<Artifact>
    decreases bound, 0int, refs.len(),
{
    if refs.len() == 0 {
        Seq::empty()
    } else if (refs[0].index as int) < bound {
        flatten_all(nodes, refs[0].index as int) + flatten_refs(nodes, refs.skip(1), bound)
    } else {
        flatten_refs(nodes, refs.skip(1), bound)
    }
}

/// Collapses duplicate handles to their first occurrence, keeping order.
pub open spec fn dedup(s: Seq<Artifact>) -> Seq<Artifact>
    decreases s.len(),
{
    if s.len() == 0 {
        Seq::empty()
    } else {
        let rest = dedup(s.drop_last());
        if rest.contains(s.last()) {
            rest
        } else {
            rest.push(s.last())
        }
    }
}

/// The flattened aggregate of node `i`: own artifacts first, then each
/// child's aggregate in child-list order, duplicates collapsed to their
/// first occurrence.
pub open spec fn flattened(nodes: Seq<TransitiveSetNode>, i: int) -> Seq<Artifact> {
    dedup(flatten_all(nodes, i))
}

/// The projection key addresses an existing node and one of its declared
/// projections. Requesting anything else is a programming error, excluded
/// before any computation is issued.
pub open spec fn valid_projection(nodes: Seq<TransitiveSetNode>, k: TransitiveSetProjectionKey) -> bool {
    (k.key.index as int) < nodes.len() && (k.projection as int) < nodes[k.key.index as int].projections@.len()
}

/// What a projection evaluates to: a pure function of the immutable node
/// contents, which is what makes memoized results stable.
pub open spec fn projection_spec(nodes: Seq<TransitiveSetNode>, k: TransitiveSetProjectionKey) -> Seq<
    Artifact,
> {
    match nodes[k.key.index as int].projections@[k.projection as int] {
        ProjectionKind::Flatten => flattened(nodes, k.key.index as int),
        ProjectionKind::FlattenReversed => flattened(nodes, k.key.index as int).reverse(),
    }
}

/// Node `i` has a direct child edge to node index `j`.
pub open spec fn has_child(nodes: Seq<TransitiveSetNode>, i: int, j: int) -> bool {
    0 <= i < nodes.len() && exists|c: int|
        0 <= c < nodes[i].children@.len() && (#[trigger] nodes[i].children@[c]).index == j
}

/// `p` is a chain of child edges: each element has the next as a direct
/// child.
pub open spec fn is_child_path(nodes: Seq<TransitiveSetNode>, p: Seq<int>) -> bool {
    forall|t: int| 0 <= t < p.len() - 1 ==> has_child(nodes, #[trigger] p[t], p[t + 1])
}

/// Node `i` reaches node index `j` through one or more child edges.
pub open spec fn reaches(nodes: Seq<TransitiveSetNode>, i: int, j: int) -> bool {
    exists|p: Seq<int>|
        p.len() >= 2 && p[0] == i && p[p.len() - 1] == j && #[trigger] is_child_path(nodes, p)
}

/// In a well-formed store every child edge points strictly downward, so a
/// chain of `t` edges descends by at least `t`.
proof fn lemma_path_descends(nodes: Seq<TransitiveSetNode>, p: Seq<int>, t: int)
    requires
        store_wf(nodes),
        is_child_path(nodes, p),
        0 <= t < p.len(),
    ensures
        p[t] + t <= p[0],
    decreases t,
{
    if t > 0 {
        lemma_path_descends(nodes, p, t - 1);
        assert(has_child(nodes, p[t - 1], p[t]));
        let c = choose|c: int|
            0 <= c < nodes[p[t - 1]].children@.len() && (#[trigger] nodes[p[t
                - 1]].children@[c]).index == p[t];
        assert(nodes[p[t - 1]].children@[c].index < p[t - 1]);
    }
}

/// A well-formed store is acyclic: no node reaches itself through child
/// edges, directly or transitively.
pub proof fn lemma_no_node_reaches_itself(nodes: Seq<TransitiveSetNode>, i: int)
    requires
        store_wf(nodes),
    ensures
        !reaches(nodes, i, i),
{
    if reaches(nodes, i, i) {
        let p = choose|p: Seq<int>|
            p.len() >= 2 && p[0] == i && p[p.len() - 1] == i && #[trigger] is_child_path(nodes, p);
        lemma_path_descends(nodes, p, p.len() - 1);
    }
}

/// Deduplication keeps membership: the collapsed sequence holds exactly the
/// handles of the original.
pub proof fn lemma_dedup_contains(s: Seq<Artifact>, x: Artifact)
    ensures
        dedup(s).contains(x) <==> s.contains(x),
    decreases s.len(),
{
    if s.len() > 0 {
        let rest = dedup(s.drop_last());
        lemma_dedup_contains(s.drop_last(), x);
        assert(s.contains(x) <==> (s.drop_last().contains(x) || s.last() == x)) by {
            if s.contains(x) {
                let w = choose|w: int| 0 <= w < s.len() && s[w] == x;
                if w < s.len() - 1 {
                    assert(s.drop_last()[w] == x);
                }
            }
            if s.drop_last().contains(x) {
                let w = choose|w: int| 0 <= w < s.drop_last().len() && s.drop_last()[w] == x;
                assert(s[w] == x);
            }
            if s.last() == x {
                assert(s[s.len() - 1] == x);
            }
        }
        if rest.contains(s.last()) {
            assert(dedup(s) == rest);
        } else {
            assert(dedup(s) == rest.push(s.last()));
            assert(rest.push(s.last()).contains(x) <==> (rest.contains(x) || s.last() == x)) by {
                if rest.contains(x) {
                    let w = choose|w: int| 0 <= w < rest.len() && rest[w] == x;
                    assert(rest.push(s.last())[w] == x);
                }
                if s.last() == x {
                    assert(rest.push(s.last())[rest.len() as int] == x);
                }
                if rest.push(s.last()).contains(x) {
                    let w = choose|w: int|
                        0 <= w < rest.push(s.last()).len() && rest.push(s.last())[w] == x;
                    if w < rest.len() {
                        assert(rest[w] == x);
                    }
                }
            }
        }
    }
}

/// A deduplicated sequence never holds a handle more than once.
pub proof fn lemma_dedup_distinct(s: Seq<Artifact>)
    ensures
        forall|p: int, q: int|
            0 <= p < q < dedup(s).len() ==> dedup(s)[p] != dedup(s)[q],
    decreases s.len(),
{
    if s.len() > 0 {
        let rest = dedup(s.drop_last());
        lemma_dedup_distinct(s.drop_last());
        if !rest.contains(s.last()) {
            assert forall|p: int, q: int|
                0 <= p < q < dedup(s).len() implies dedup(s)[p] != dedup(s)[q] by {
                if q == dedup(s).len() - 1 {
                    assert(dedup(s)[p] == rest[p]);
                    assert(rest.contains(rest[p]));
                }
            }
        }
    }
}

/// Flattening collapses duplicates but loses nothing: the flattened
/// aggregate holds exactly the handles the full aggregate holds.
pub proof fn lemma_flattened_complete(nodes: Seq<TransitiveSetNode>, i: int, x: Artifact)
    ensures
        flattened(nodes, i).contains(x) <==> flatten_all(nodes, i).contains(x),
{
    lemma_dedup_contains(flatten_all(nodes, i), x);
}

/// Flattening never includes an artifact handle more than once, however
/// many paths reach it.
pub proof fn lemma_flattened_distinct(nodes: Seq<TransitiveSetNode>, i: int)
    ensures
        forall|p: int, q: int|
            0 <= p < q < flattened(nodes, i).len() ==> flattened(nodes, i)[p] != flattened(
                nodes,
                i,
            )[q],
{
    lemma_dedup_distinct(flatten_all(nodes, i));
}

/// Appending one reference to a reference list appends that node's
/// aggregate (or nothing, if the reference is not below the bound).
proof fn lemma_flatten_refs_push(
    nodes: Seq<TransitiveSetNode>,
    refs: Seq<TransitiveSetKey>,
    k: TransitiveSetKey,
    bound: int,
)
    ensures
        flatten_refs(nodes, refs.push(k), bound) == if (k.index as int) < bound {
            flatten_refs(nodes, refs, bound) + flatten_all(nodes, k.index as int)
        } else {
            flatten_refs(nodes, refs, bound)
        },
    decreases refs.len(),
{
    if refs.len() == 0 {
        assert(refs.push(k).skip(1) =~= Seq::<TransitiveSetKey>::empty());
        assert(refs.push(k)[0] == k);
        assert(flatten_refs(nodes, Seq::<TransitiveSetKey>::empty(), bound) == Seq::<
            Artifact,
        >::empty());
        assert(refs =~= Seq::<TransitiveSetKey>::empty());
        if (k.index as int) < bound {
            assert(flatten_refs(nodes, refs.push(k), bound) == flatten_all(nodes, k.index as int)
                + Seq::<Artifact>::empty());
            assert(flatten_refs(nodes, refs.push(k), bound) =~= flatten_refs(nodes, refs, bound)
                + flatten_all(nodes, k.index as int));
        } else {
            assert(flatten_refs(nodes, refs.push(k), bound) == Seq::<Artifact>::empty());
        }
    } else {
        assert(refs.push(k).skip(1) =~= refs.skip(1).push(k));
        assert(refs.push(k)[0] == refs[0]);
        lemma_flatten_refs_push(nodes, refs.skip(1), k, bound);
        if (k.index as int) < bound {
            assert(flatten_refs(nodes, refs.push(k), bound) =~= flatten_refs(nodes, refs, bound)
                + flatten_all(nodes, k.index as int));
        } else {
            assert(flatten_refs(nodes, refs.push(k), bound) =~= flatten_refs(nodes, refs, bound));
        }
    }
}

/// Inserting a new node on top of the arena leaves the aggregate of every
/// existing node untouched: a node's aggregate depends only on the prefix
/// below it.
proof fn lemma_flatten_all_stable(nodes: Seq<TransitiveSetNode>, node: TransitiveSetNode, i: int)
    requires
        i < nodes.len(),
    ensures
        flatten_all(nodes.push(node), i) == flatten_all(nodes, i),
    decreases i, 1int, 0int,
{
    if 0 <= i {
        assert(nodes.push(node)[i] == nodes[i]);
        lemma_flatten_refs_stable(nodes, node, nodes[i].children@, i);
    }
}

/// Companion of [`lemma_flatten_all_stable`] for reference lists bounded
/// below the old arena length.
proof fn lemma_flatten_refs_stable(
    nodes: Seq<TransitiveSetNode>,
    node: TransitiveSetNode,
    refs: Seq<TransitiveSetKey>,
    bound: int,
)
    requires
        bound <= nodes.len(),
    ensures
        flatten_refs(nodes.push(node), refs, bound) == flatten_refs(nodes, refs, bound),
    decreases bound, 0int, refs.len(),
{
    if refs.len() > 0 {
        lemma_flatten_refs_stable(nodes, node, refs.skip(1), bound);
        if (refs[0].index as int) < bound {
            lemma_flatten_all_stable(nodes, node, refs[0].index as int);
        }
    }
}

/// Searches a handle list for one handle.
fn contains_artifact(v: &Vec<Artifact>, x: Artifact) -> (r: bool)
    ensures
        r == v@.contains(x),
{
    let mut i: usize = 0;
    while i < v.len()
        invariant
            i <= v.len(),
            forall|j: int| 0 <= j < i ==> v@[j] != x,
        decreases v.len() - i,
    {
        if v[i] == x {
            return true;
        }
        i += 1;
    }
    assert(!v@.contains(x));
    false
}

/// Copies a handle list element by element.
fn copy_artifacts(v: &Vec<Artifact>) -> (r: Vec<Artifact>)
    ensures
        r@ == v@,
{
    let mut out: Vec<Artifact> = Vec::new();
    let mut i: usize = 0;
    while i < v.len()
        invariant
            i <= v.len(),
            out@ == v@.take(i as int),
        decreases v.len() - i,
    {
        out.push(v[i]);
        i += 1;
        assert(out@ =~= v@.take(i as int));
    }
    assert(out@ =~= v@);
    out
}

/// Reverses a handle list.
fn reverse_artifacts(v: &Vec<Artifact>) -> (r: Vec<Artifact>)
    ensures
        r@ == v@.reverse(),
{
    let mut out: Vec<Artifact> = Vec::new();
    let mut i: usize = v.len();
    while i > 0
        invariant
            i <= v.len(),
            out@.len() == v@.len() - i,
            forall|j: int| 0 <= j < out@.len() ==> out@[j] == v@[v@.len() - 1 - j],
        decreases i,
    {
        i -= 1;
        out.push(v[i]);
    }
    assert(out@ =~= v@.reverse());
    out
}

/// Collapses duplicate handles to their first occurrence, keeping order.
fn dedup_artifacts(v: &Vec<Artifact>) -> (r: Vec<Artifact>)
    ensures
        r@ == dedup(v@),
{
    let mut out: Vec<Artifact> = Vec::new();
    let mut i: usize = 0;
    while i < v.len()
        invariant
            i <= v.len(),
            out@ == dedup(v@.take(i as int)),
        decreases v.len() - i,
    {
        let x = v[i];
        proof {
            assert(v@.take(i as int + 1).drop_last() =~= v@.take(i as int));
            assert(v@.take(i as int + 1).last() == v@[i as int]);
        }
        if !contains_artifact(&out, x) {
            out.push(x);
        }
        i += 1;
    }
    assert(v@.take(v@.len() as int) =~= v@);
    out
}

/// The memo table holds an entry for key `k`.
pub open spec fn cache_has(
    cache: Seq<(TransitiveSetProjectionKey, Vec<Artifact>)>,
    k: TransitiveSetProjectionKey,
) -> bool {
    exists|i: int| 0 <= i < cache.len() && (#[trigger] cache[i]).0 == k
}

/// Adding one memo entry makes exactly its key cached and no other.
proof fn lemma_cache_has_push(
    cache: Seq<(TransitiveSetProjectionKey, Vec<Artifact>)>,
    entry: (TransitiveSetProjectionKey, Vec<Artifact>),
    k: TransitiveSetProjectionKey,
)
    ensures
        k == entry.0 ==> cache_has(cache.push(entry), k),
        k != entry.0 ==> (cache_has(cache.push(entry), k) <==> cache_has(cache, k)),
{
    if k == entry.0 {
        assert(cache.push(entry)[cache.len() as int].0 == k);
    } else {
        if cache_has(cache, k) {
            let w = choose|w: int| 0 <= w < cache.len() && (#[trigger] cache[w]).0 == k;
            assert(cache.push(entry)[w].0 == k);
        }
        if cache_has(cache.push(entry), k) {
            let w = choose|w: int|
                0 <= w < cache.push(entry).len() && (#[trigger] cache.push(entry)[w]).0 == k;
            if w < cache.len() {
                assert(cache[w].0 == k);
            }
        }
    }
}

/// The arena of transitive-set nodes together with the memoized projection
/// results. Nodes are immutable once inserted; the cache holds at most one
/// entry per projection key, so each projection is computed at most once.
pub struct TransitiveSetStore {
    nodes: Vec<TransitiveSetNode>,
    cache: Vec<(TransitiveSetProjectionKey, Vec<Artifact>)>,
}

impl TransitiveSetStore {
    /// The inserted nodes, in insertion order.
    pub closed spec fn nodes_seq(&self) -> Seq<TransitiveSetNode> {
        self.nodes@
    }

    /// Whether the projection keyed by `k` has already been computed (and
    /// memoized).
    pub closed spec fn is_cached_spec(&self, k: TransitiveSetProjectionKey) -> bool {
        cache_has(self.cache@, k)
    }

    /// How many distinct projection computations have run so far.
    pub closed spec fn computation_count(&self) -> nat {
        self.cache@.len()
    }

    /// The store's invariant: the node graph is structurally acyclic, and
    /// every memoized entry is the exact value its key recomputes to, with
    /// at most one entry per key.
    pub closed spec fn wf(&self) -> bool {
        &&& store_wf(self.nodes@)
        &&& forall|i: int|
            0 <= i < self.cache@.len() ==> valid_projection(self.nodes@, (#[trigger] self.cache@[i]).0)
                && self.cache@[i].1@ == projection_spec(self.nodes@, self.cache@[i].0)
        &&& forall|i: int, j: int|
            0 <= i < j < self.cache@.len() ==> (#[trigger] self.cache@[i]).0 != (#[trigger] self.cache@[j]).0
    }

    /// An empty store: no nodes, nothing computed.
    pub fn new() -> (r: TransitiveSetStore)
        ensures
            r.wf(),
            r.nodes_seq().len() == 0,
            r.computation_count() == 0,
    {
        TransitiveSetStore { nodes: Vec::new(), cache: Vec::new() }
    }

    /// How many nodes the store holds.
    pub fn node_count(&self) -> (r: usize)
        ensures
            r == self.nodes_seq().len(),
    {
        self.nodes.len()
    }

    /// How many projections node `key` declares.
    pub fn projection_count(&self, key: TransitiveSetKey) -> (r: usize)
        requires
            (key.index as int) < self.nodes_seq().len(),
        ensures
            r == self.nodes_seq()[key.index as int].projections@.len(),
    {
        self.nodes[key.index].projections.len()
    }

    /// Inserts a node. Succeeds exactly when every child reference names an
    /// already-inserted node; the new node's key is the next arena index,
    /// so no node can ever reference itself or a later node.
    pub fn insert(&mut self, node: TransitiveSetNode) -> (r: Result<
        TransitiveSetKey,
        TransitiveSetError,
    >)
        requires
            old(self).wf(),
        ensures
            final(self).wf(),
            match r {
                Ok(k) => {
                    &&& forall|j: int|
                        0 <= j < node.children@.len() ==> (#[trigger] node.children@[j]).index
                            < old(self).nodes_seq().len()
                    &&& k.index == old(self).nodes_seq().len()
                    &&& final(self).nodes_seq() == old(self).nodes_seq().push(node)
                    &&& final(self).computation_count() == old(self).computation_count()
                    &&& forall|k2: TransitiveSetProjectionKey|
                        final(self).is_cached_spec(k2) <==> old(self).is_cached_spec(k2)
                },
                Err(TransitiveSetError::UnknownChild { child }) => {
                    &&& node.children@.contains(child)
                    &&& (child.index as int) >= old(self).nodes_seq().len()
                    &&& *final(self) == *old(self)
                },
            },
    {
        let mut j: usize = 0;
        while j < node.children.len()
            invariant
                old(self).wf(),
                j <= node.children.len(),
                forall|q: int|
                    0 <= q < j ==> (#[trigger] node.children@[q]).index < self.nodes@.len(),
                *self == *old(self),
            decreases node.children.len() - j,
        {
            if node.children[j].index >= self.nodes.len() {
                proof {
                    assert(node.children@.contains(node.children@[j as int]));
                }
                return Err(TransitiveSetError::UnknownChild { child: node.children[j] });
            }
            j += 1;
        }
        let key = TransitiveSetKey { index: self.nodes.len() };
        proof {
            let nodes2 = self.nodes@.push(node);
            assert forall|i: int, j2: int|
                0 <= i < nodes2.len() && 0 <= j2 < nodes2[i].children@.len() implies (
            #[trigger] nodes2[i].children@[j2]).index < i by {
                if i < self.nodes@.len() {
                    assert(nodes2[i] == self.nodes@[i]);
                } else {
                    assert(nodes2[i] == node);
                }
            }
            assert forall|i: int| 0 <= i < self.cache@.len() implies valid_projection(
                nodes2,
                (#[trigger] self.cache@[i]).0,
            ) && self.cache@[i].1@ == projection_spec(nodes2, self.cache@[i].0) by {
                let k2 = self.cache@[i].0;
                assert(nodes2[k2.key.index as int] == self.nodes@[k2.key.index as int]);
                lemma_flatten_all_stable(self.nodes@, node, k2.key.index as int);
            }
        }
        self.nodes.push(node);
        Ok(key)
    }

    /// The full aggregate of node `i`, before deduplication.
    fn flatten_node(&self, i: usize) -> (r: Vec<Artifact>)
        requires
            store_wf(self.nodes@),
            (i as int) < self.nodes@.len(),
        ensures
            r@ == flatten_all(self.nodes@, i as int),
        decreases i,
    {
        let mut out = copy_artifacts(&self.nodes[i].artifacts);
        let children_len = self.nodes[i].children.len();
        let mut c: usize = 0;
        while c < children_len
            invariant
                store_wf(self.nodes@),
                (i as int) < self.nodes@.len(),
                children_len == self.nodes@[i as int].children@.len(),
                c <= children_len,
                out@ == self.nodes@[i as int].artifacts@ + flatten_refs(
                    self.nodes@,
                    self.nodes@[i as int].children@.take(c as int),
                    i as int,
                ),
            decreases children_len - c,
        {
            let child = self.nodes[i].children[c];
            assert(child.index < i);
            let mut sub = self.flatten_node(child.index);
            out.append(&mut sub);
            proof {
                let refs = self.nodes@[i as int].children@;
                assert(refs.take(c as int + 1) =~= refs.take(c as int).push(refs[c as int]));
                lemma_flatten_refs_push(self.nodes@, refs.take(c as int), refs[c as int], i as int);
            }
            c += 1;
        }
        proof {
            let refs = self.nodes@[i as int].children@;
            assert(refs.take(refs.len() as int) =~= refs);
        }
        out
    }

    /// The flattened aggregate of the node named by `key`: own artifacts
    /// first, then each child's aggregate in child-list order, duplicates
    /// collapsed to their first occurrence.
    pub fn flatten(&self, key: TransitiveSetKey) -> (r: Vec<Artifact>)
        requires
            self.wf(),
            (key.index as int) < self.nodes_seq().len(),
        ensures
            r@ == flattened(self.nodes_seq(), key.index as int),
    {
        let full = self.flatten_node(key.index);
        dedup_artifacts(&full)
    }

    /// Whether the projection keyed by `key` has already been computed.
    pub fn is_cached(&self, key: TransitiveSetProjectionKey) -> (r: bool)
        ensures
            r == self.is_cached_spec(key),
    {
        let mut i: usize = 0;
        while i < self.cache.len()
            invariant
                i <= self.cache@.len(),
                forall|j: int| 0 <= j < i ==> (#[trigger] self.cache@[j]).0 != key,
            decreases self.cache@.len() - i,
        {
            if self.cache[i].0 == key {
                return true;
            }
            i += 1;
        }
        false
    }

    /// How many distinct projection computations have run so far.
    pub fn computations(&self) -> (r: usize)
        ensures
            r == self.computation_count(),
    {
        self.cache.len()
    }

    /// Evaluates the projection keyed by `key`, memoized: the first demand
    /// computes the value, every later demand for an equal key returns the
    /// memoized value and leaves the store untouched, so concurrent or
    /// repeated identical demands share exactly one computation. The result
    /// is a pure function of the immutable node contents, so equal keys
    /// always yield equal values.
    pub fn ensure_projection(&mut self, key: TransitiveSetProjectionKey) -> (r: Vec<Artifact>)
        requires
            old(self).wf(),
            valid_projection(old(self).nodes_seq(), key),
        ensures
            final(self).wf(),
            final(self).nodes_seq() == old(self).nodes_seq(),
            r@ == projection_spec(old(self).nodes_seq(), key),
            final(self).is_cached_spec(key),
            old(self).is_cached_spec(key) ==> *final(self) == *old(self),
            !old(self).is_cached_spec(key) ==> final(self).computation_count() == old(
                self,
            ).computation_count() + 1,
            forall|k2: TransitiveSetProjectionKey|
                k2 != key ==> (final(self).is_cached_spec(k2) <==> old(self).is_cached_spec(k2)),
    {
        let mut i: usize = 0;
        while i < self.cache.len()
            invariant
                old(self).wf(),
                valid_projection(old(self).nodes_seq(), key),
                *self == *old(self),
                i <= self.cache@.len(),
                forall|j: int| 0 <= j < i ==> (#[trigger] self.cache@[j]).0 != key,
            decreases self.cache@.len() - i,
        {
            if self.cache[i].0 == key {
                let r = copy_artifacts(&self.cache[i].1);
                return r;
            }
            i += 1;
        }
        assert(!old(self).is_cached_spec(key));
        let flat = self.flatten(key.key);
        let kind = self.nodes[key.key.index].projections[key.projection];
        let value = match kind {
            ProjectionKind::Flatten => flat,
            ProjectionKind::FlattenReversed => reverse_artifacts(&flat),
        };
        let result = copy_artifacts(&value);
        proof {
            let cache2 = self.cache@.push((key, value));
            assert forall|p: int| 0 <= p < cache2.len() implies valid_projection(
                self.nodes@,
                (#[trigger] cache2[p]).0,
            ) && cache2[p].1@ == projection_spec(self.nodes@, cache2[p].0) by {
                if p < self.cache@.len() {
                    assert(cache2[p] == self.cache@[p]);
                }
            }
            assert forall|p: int, q: int| 0 <= p < q < cache2.len() implies (
            #[trigger] cache2[p]).0 != (#[trigger] cache2[q]).0 by {
                assert(cache2[p] == self.cache@[p]);
                if q < cache2.len() - 1 {
                    assert(cache2[q] == self.cache@[q]);
                }
            }
        }
        let ghost pre_cache = self.cache@;
        let ghost entry: (TransitiveSetProjectionKey, Vec<Artifact>) = (key, value);
        self.cache.push((key, value));
        proof {
            assert(self.cache@ == pre_cache.push(entry));
            lemma_cache_has_push(pre_cache, entry, key);
            assert forall|k2: TransitiveSetProjectionKey| k2 != key implies (cache_has(
                self.cache@,
                k2,
            ) <==> cache_has(pre_cache, k2)) by {
                lemma_cache_has_push(pre_cache, entry, k2);
            }
        }
        result
    }
}

} // verus!
