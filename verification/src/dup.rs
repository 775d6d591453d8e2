//! Grouping of perceptual hashes that lie close together.

use rayon::iter::{IntoParallelIterator, ParallelIterator};
use vstd::prelude::*;

verus! {

// ---------------------------------------------------------------------------
// Distances and chains
// ---------------------------------------------------------------------------

/// The number of ones in the binary form of `x`.
pub open spec fn ones(x: u64) -> nat
    decreases x,
{
    if x == 0 {
        0
    } else {
        (x % 2) as nat + ones(x / 2)
    }
}

/// `i64::count_ones` counts the ones in the two's complement form.
pub assume_specification[ i64::count_ones ](x: i64) -> (r: u32)
    ensures
        r == ones(x as u64),
;

/// The number of bits in which two hashes differ.
pub open spec fn distance(a: i64, b: i64) -> nat {
    ones((a ^ b) as u64)
}

/// Whether two different hashes of the list differ in at most `max` bits.
pub open spec fn near(h: Seq<i64>, max: u32, i: int, j: int) -> bool {
    &&& 0 <= i < h.len()
    &&& 0 <= j < h.len()
    &&& i != j
    &&& distance(h[i], h[j]) <= max
}

/// Whether each index of the path is near the next.
pub open spec fn is_chain(h: Seq<i64>, max: u32, path: Seq<int>) -> bool {
    &&& path.len() > 0
    &&& forall|k: int| 0 <= k < path.len() ==> 0 <= #[trigger] path[k] < h.len()
    &&& forall|k: int| #![trigger path[k]] 0 <= k < path.len() - 1 ==> near(h, max, path[k], path[k + 1])
}

/// Whether a chain of near hashes leads from `i` to `j`.
pub open spec fn linked(h: Seq<i64>, max: u32, i: int, j: int) -> bool {
    exists|path: Seq<int>| #[trigger] is_chain(h, max, path) && path[0] == i && path.last() == j
}

/// Whether `d` is the distance from the hash `i` to the closest other.
pub open spec fn is_closest(h: Seq<i64>, i: int, d: u32) -> bool {
    &&& exists|j: int| 0 <= j < h.len() && j != i && #[trigger] distance(h[i], h[j]) == d
    &&& forall|j: int| 0 <= j < h.len() && j != i ==> d <= #[trigger] distance(h[i], h[j])
}

/// Distance does not depend on the order.
pub proof fn lemma_distance_symmetric(a: i64, b: i64)
    ensures
        distance(a, b) == distance(b, a),
{
    assert(a ^ b == b ^ a) by (bit_vector);
}

proof fn lemma_near_symmetric(h: Seq<i64>, max: u32, i: int, j: int)
    requires
        near(h, max, i, j),
    ensures
        near(h, max, j, i),
{
    lemma_distance_symmetric(h[i], h[j]);
}

/// Every hash is linked to itself.
pub proof fn law_linked_reflexive(h: Seq<i64>, max: u32, i: int)
    requires
        0 <= i < h.len(),
    ensures
        linked(h, max, i, i),
{
    assert(is_chain(h, max, seq![i]));
}

/// A link can be followed back.
pub proof fn law_linked_symmetric(h: Seq<i64>, max: u32, i: int, j: int)
    requires
        linked(h, max, i, j),
    ensures
        linked(h, max, j, i),
{
    let path = choose|path: Seq<int>| #[trigger] is_chain(h, max, path) && path[0] == i && path.last() == j;
    let back = path.reverse();
    assert forall|k: int| #![trigger back[k]] 0 <= k < back.len() - 1 implies near(
        h,
        max,
        back[k],
        back[k + 1],
    ) by {
        let m = path.len() - 2 - k;
        assert(back[k] == path[m + 1] && back[k + 1] == path[m]);
        lemma_near_symmetric(h, max, path[m], path[m + 1]);
    }
    assert(is_chain(h, max, back));
}

/// Grouping is transitive: two hashes linked to a third are linked, however far
/// apart they are.
pub proof fn law_linked_transitive(h: Seq<i64>, max: u32, i: int, j: int, k: int)
    requires
        linked(h, max, i, j),
        linked(h, max, j, k),
    ensures
        linked(h, max, i, k),
{
    let p = choose|path: Seq<int>| #[trigger] is_chain(h, max, path) && path[0] == i && path.last() == j;
    let q = choose|path: Seq<int>| #[trigger] is_chain(h, max, path) && path[0] == j && path.last() == k;
    let both = p + q.skip(1);
    assert forall|n: int| #![trigger both[n]] 0 <= n < both.len() - 1 implies near(
        h,
        max,
        both[n],
        both[n + 1],
    ) by {
        if n < p.len() - 1 {
            assert(both[n] == p[n] && both[n + 1] == p[n + 1]);
        } else {
            let m = n - (p.len() - 1);
            assert(both[n] == q[m] && both[n + 1] == q[m + 1]);
        }
    }
    assert forall|n: int| 0 <= n < both.len() implies 0 <= #[trigger] both[n] < h.len() by {
        if n < p.len() {
            assert(both[n] == p[n]);
        } else {
            assert(both[n] == q[n - p.len() + 1]);
        }
    }
    assert(is_chain(h, max, both));
    if q.len() == 1 {
        assert(both == p);
    }
}

pub proof fn lemma_near_linked(h: Seq<i64>, max: u32, i: int, j: int)
    requires
        near(h, max, i, j),
    ensures
        linked(h, max, i, j),
{
    let path = seq![i, j];
    assert(is_chain(h, max, path)) by {
        assert(path[0] == i && path[1] == j);
    }
}

// ---------------------------------------------------------------------------
// Near pairs
// ---------------------------------------------------------------------------

/// The near pairs of the hash `i` with those after it and before `end`.
pub open spec fn row_pairs(h: Seq<i64>, max: u32, i: int, end: int) -> Seq<(usize, usize, u32)>
    decreases end - i,
{
    if end <= i + 1 {
        Seq::empty()
    } else {
        let before = row_pairs(h, max, i, end - 1);
        let d = distance(h[i], h[end - 1]);
        if d <= max {
            before.push((i as usize, (end - 1) as usize, d as u32))
        } else {
            before
        }
    }
}

/// The near pairs of the first `rows` hashes with those after them.
pub open spec fn all_pairs(h: Seq<i64>, max: u32, rows: int) -> Seq<(usize, usize, u32)>
    decreases rows,
{
    if rows <= 0 {
        Seq::empty()
    } else {
        all_pairs(h, max, rows - 1) + row_pairs(h, max, rows - 1, h.len() as int)
    }
}

/// The near pairs of the hash `i` with those after it.
fn near_pairs_of(hashes: &[i64], max: u32, i: usize) -> (r: Vec<(usize, usize, u32)>)
    requires
        i < hashes@.len(),
    ensures
        r@ == row_pairs(hashes@, max, i as int, hashes@.len() as int),
{
    let hi = hashes[i];
    let mut out: Vec<(usize, usize, u32)> = Vec::new();
    let mut j: usize = i + 1;
    while j < hashes.len()
        invariant
            i < j <= hashes@.len(),
            hi == hashes@[i as int],
            out@ == row_pairs(hashes@, max, i as int, j as int),
        decreases hashes@.len() - j,
    {
        let d = (hi ^ hashes[j]).count_ones();
        if d <= max {
            out.push((i, j, d));
        }
        j += 1;
    }
    out
}

/// The near pairs of every hash with those after it. Each row comes from
/// `near_pairs_of`; rayon's `flat_map_iter` hands the rows to its threads, and
/// `collect` puts them together in the order of their indices.
#[verifier::external_body]
fn near_pairs(hashes: &[i64], max: u32) -> (r: Vec<(usize, usize, u32)>)
    ensures
        r@ == all_pairs(hashes@, max, hashes@.len() as int),
{
    (0..hashes.len()).into_par_iter().flat_map_iter(|i| near_pairs_of(hashes, max, i)).collect()
}

/// What every listed pair is.
pub open spec fn is_pair(h: Seq<i64>, max: u32, e: (usize, usize, u32)) -> bool {
    &&& e.0 < e.1 < h.len()
    &&& e.2 == distance(h[e.0 as int], h[e.1 as int])
    &&& e.2 <= max
}

proof fn lemma_row_sound(h: Seq<i64>, max: u32, i: int, end: int)
    requires
        0 <= i,
        end <= h.len() <= usize::MAX,
    ensures
        forall|k: int|
            0 <= k < row_pairs(h, max, i, end).len() ==> is_pair(
                h,
                max,
                #[trigger] row_pairs(h, max, i, end)[k],
            ),
    decreases end,
{
    if end > i + 1 {
        lemma_row_sound(h, max, i, end - 1);
        let before = row_pairs(h, max, i, end - 1);
        let now = row_pairs(h, max, i, end);
        assert forall|k: int| 0 <= k < now.len() implies is_pair(h, max, #[trigger] now[k]) by {
            if k < before.len() {
                assert(now[k] == before[k]);
            }
        }
    }
}

proof fn lemma_row_complete(h: Seq<i64>, max: u32, i: int, end: int, j: int)
    requires
        0 <= i < j < end <= h.len() <= usize::MAX,
        near(h, max, i, j),
    ensures
        exists|k: int|
            0 <= k < row_pairs(h, max, i, end).len() && (#[trigger] row_pairs(h, max, i, end)[k]).0
                == i && row_pairs(h, max, i, end)[k].1 == j,
    decreases end,
{
    let now = row_pairs(h, max, i, end);
    if j == end - 1 {
        let k = now.len() - 1;
        assert(now[k].0 == i && now[k].1 == j);
    } else {
        lemma_row_complete(h, max, i, end - 1, j);
        let before = row_pairs(h, max, i, end - 1);
        let k = choose|k: int| 0 <= k < before.len() && (#[trigger] before[k]).0 == i && before[k].1 == j;
        assert(now[k] == before[k]);
    }
}

proof fn lemma_pairs_sound(h: Seq<i64>, max: u32, rows: int)
    requires
        rows <= h.len() <= usize::MAX,
    ensures
        forall|k: int|
            0 <= k < all_pairs(h, max, rows).len() ==> is_pair(
                h,
                max,
                #[trigger] all_pairs(h, max, rows)[k],
            ),
    decreases rows,
{
    if rows > 0 {
        lemma_pairs_sound(h, max, rows - 1);
        lemma_row_sound(h, max, rows - 1, h.len() as int);
        let before = all_pairs(h, max, rows - 1);
        let row = row_pairs(h, max, rows - 1, h.len() as int);
        assert forall|k: int| 0 <= k < all_pairs(h, max, rows).len() implies is_pair(
            h,
            max,
            #[trigger] all_pairs(h, max, rows)[k],
        ) by {
            if k < before.len() {
                assert(all_pairs(h, max, rows)[k] == before[k]);
            } else {
                assert(all_pairs(h, max, rows)[k] == row[k - before.len()]);
            }
        }
    }
}

proof fn lemma_pairs_complete(h: Seq<i64>, max: u32, rows: int, i: int, j: int)
    requires
        0 <= i < rows <= h.len() <= usize::MAX,
        i < j < h.len(),
        near(h, max, i, j),
    ensures
        exists|k: int|
            0 <= k < all_pairs(h, max, rows).len() && (#[trigger] all_pairs(h, max, rows)[k]).0 == i
                && all_pairs(h, max, rows)[k].1 == j,
    decreases rows,
{
    let before = all_pairs(h, max, rows - 1);
    let row = row_pairs(h, max, rows - 1, h.len() as int);
    let now = all_pairs(h, max, rows);
    if i == rows - 1 {
        lemma_row_complete(h, max, i, h.len() as int, j);
        let k = choose|k: int| 0 <= k < row.len() && (#[trigger] row[k]).0 == i && row[k].1 == j;
        assert(now[before.len() + k] == row[k]);
    } else {
        lemma_pairs_complete(h, max, rows - 1, i, j);
        let k = choose|k: int| 0 <= k < before.len() && (#[trigger] before[k]).0 == i && before[k].1 == j;
        assert(now[k] == before[k]);
    }
}

// ---------------------------------------------------------------------------
// Disjoint sets
// ---------------------------------------------------------------------------

/// Disjoint sets of indices, each with a root that its members point to.
struct Forest {
    parent: Vec<usize>,
    /// The root of each index.
    root: Ghost<Seq<usize>>,
    /// A number for each index that grows on the way to its root.
    height: Ghost<Seq<nat>>,
    /// A number above all of those.
    limit: Ghost<nat>,
}

impl Forest {
    spec fn node_ok(self, x: int) -> bool {
        let n = self.parent@.len();
        let p = self.parent@[x] as int;
        let r = self.root@[x] as int;
        &&& p < n
        &&& r < n
        &&& self.height@[x] < self.limit@
        &&& p != x ==> self.height@[x] < self.height@[p]
        &&& self.root@[p] == r
        &&& p == x ==> r == x
        &&& self.parent@[r] == r
    }

    spec fn wf(self) -> bool {
        let n = self.parent@.len();
        &&& self.root@.len() == n
        &&& self.height@.len() == n
        &&& forall|x: int| 0 <= x < n ==> #[trigger] self.node_ok(x)
    }

    /// One set for each of the indices below `n`.
    fn new(n: usize) -> (r: Forest)
        ensures
            r.wf(),
            r.parent@.len() == n,
            forall|x: int| 0 <= x < n ==> r.root@[x] == x,
    {
        let mut parent: Vec<usize> = Vec::new();
        let mut i: usize = 0;
        while i < n
            invariant
                i <= n,
                parent@.len() == i,
                forall|x: int| 0 <= x < i ==> parent@[x] == x,
            decreases n - i,
        {
            parent.push(i);
            i += 1;
        }
        let r = Forest {
            parent,
            root: Ghost(Seq::new(n as nat, |x: int| x as usize)),
            height: Ghost(Seq::new(n as nat, |x: int| 0nat)),
            limit: Ghost(1nat),
        };
        assert forall|x: int| 0 <= x < n implies #[trigger] r.node_ok(x) by {}
        r
    }

    /// The root of `x`. Shortens the way to it.
    fn find(&mut self, x: usize) -> (r: usize)
        requires
            old(self).wf(),
            x < old(self).parent@.len(),
        ensures
            final(self).wf(),
            final(self).parent@.len() == old(self).parent@.len(),
            final(self).root == old(self).root,
            r == old(self).root@[x as int],
    {
        let mut x: usize = x;
        let ghost start = x;
        assert(self.node_ok(x as int));
        while self.parent[x] != x
            invariant
                self.wf(),
                x < self.parent@.len(),
                self.node_ok(x as int),
                self.parent@.len() == old(self).parent@.len(),
                self.root == old(self).root,
                start < self.parent@.len(),
                self.root@[x as int] == self.root@[start as int],
            decreases self.limit@ - self.height@[x as int],
        {
            let ghost before = *self;
            let p = self.parent[x];
            assert(before.node_ok(p as int));
            let g = self.parent[p];
            assert(before.node_ok(g as int));
            self.parent.set(x, g);
            assert forall|y: int| 0 <= y < self.parent@.len() implies #[trigger] self.node_ok(y) by {
                assert(before.node_ok(y));
            }
            x = g;
        }
        x
    }

    /// Makes one set of those of `a` and `b`.
    fn union(&mut self, a: usize, b: usize)
        requires
            old(self).wf(),
            a < old(self).parent@.len(),
            b < old(self).parent@.len(),
        ensures
            final(self).wf(),
            final(self).parent@.len() == old(self).parent@.len(),
            forall|x: int|
                0 <= x < old(self).parent@.len() ==> (#[trigger] final(self).root@[x]) == (if old(
                    self,
                ).root@[x] == old(self).root@[a as int] {
                    old(self).root@[b as int]
                } else {
                    old(self).root@[x]
                }),
    {
        let ghost start = *self;
        let ra = self.find(a);
        let rb = self.find(b);
        proof {
            assert(start.node_ok(a as int) && start.node_ok(b as int));
        }
        if ra != rb {
            let ghost before = *self;
            self.parent.set(ra, rb);
            proof {
                let n = before.parent@.len();
                self.root@ = Seq::new(
                    n,
                    |x: int|
                        if before.root@[x] == ra {
                            rb
                        } else {
                            before.root@[x]
                        },
                );
                let top = if before.height@[rb as int] > before.height@[ra as int] {
                    before.height@[rb as int]
                } else {
                    before.height@[ra as int] + 1
                };
                self.height@ = before.height@.update(rb as int, top);
                self.limit@ = before.limit@ + 1;
                assert(before.node_ok(a as int) && before.node_ok(b as int));
                assert(before.node_ok(ra as int) && before.node_ok(rb as int));
                assert forall|x: int| 0 <= x < n implies #[trigger] self.node_ok(x) by {
                    assert(before.node_ok(x));
                    assert(before.node_ok(before.parent@[x] as int));
                }
            }
        }
    }
}

// ---------------------------------------------------------------------------
// Groups
// ---------------------------------------------------------------------------

/// Whether the group lists the index `i`.
pub open spec fn lists(group: Seq<(usize, u32)>, i: int) -> bool {
    exists|k: int| 0 <= k < group.len() && (#[trigger] group[k]).0 == i
}

/// Whether the groups are the sets of linked hashes that have more than one
/// member, each member with the distance to the closest other hash.
pub open spec fn is_grouping(h: Seq<i64>, max: u32, groups: Seq<Seq<(usize, u32)>>) -> bool {
    // each group lists at least two hashes, in their order
    &&& forall|g: int| 0 <= g < groups.len() ==> (#[trigger] groups[g]).len() >= 2
    &&& forall|g: int, k: int|
        0 <= g < groups.len() && 0 <= k < groups[g].len() ==> (#[trigger] groups[g][k]).0 < h.len()
    &&& forall|g: int, k: int, l: int|
        0 <= g < groups.len() && 0 <= k < l < groups[g].len() ==> (#[trigger] groups[g][k]).0 < (
        #[trigger] groups[g][l]).0
    // with the distance to the closest other
    &&& forall|g: int, k: int|
        0 <= g < groups.len() && 0 <= k < groups[g].len() ==> is_closest(
            h,
            (#[trigger] groups[g][k]).0 as int,
            groups[g][k].1,
        )
    // two listed hashes are in one group exactly where they are linked
    &&& forall|g: int, k: int, f: int, l: int|
        0 <= g < groups.len() && 0 <= k < groups[g].len() && 0 <= f < groups.len() && 0 <= l
            < groups[f].len() ==> (g == f <==> linked(
            h,
            max,
            (#[trigger] groups[g][k]).0 as int,
            (#[trigger] groups[f][l]).0 as int,
        ))
    // and a hash is listed where it is near another
    &&& forall|i: int, j: int|
        #[trigger] near(h, max, i, j) ==> exists|g: int|
            0 <= g < groups.len() && lists(#[trigger] groups[g], i)
}

/// The groups as sequences.
pub open spec fn group_views(v: Seq<Vec<(usize, u32)>>) -> Seq<Seq<(usize, u32)>> {
    v.map_values(|g: Vec<(usize, u32)>| g@)
}

/// Whether a pair has the given index at one of its ends.
spec fn touches(e: (usize, usize, u32), x: int) -> bool {
    e.0 == x || e.1 == x
}

/// Whether `m` is the least distance of the pairs that touch `x`.
spec fn is_least(edges: Seq<(usize, usize, u32)>, x: int, m: Option<u32>) -> bool {
    match m {
        None => forall|e: int| 0 <= e < edges.len() ==> !touches(#[trigger] edges[e], x),
        Some(d) => {
            &&& exists|e: int| 0 <= e < edges.len() && touches(#[trigger] edges[e], x) && edges[e].2 == d
            &&& forall|e: int| 0 <= e < edges.len() && touches(#[trigger] edges[e], x) ==> d <= edges[e].2
        },
    }
}

proof fn lemma_least_step(
    edges: Seq<(usize, usize, u32)>,
    e: (usize, usize, u32),
    x: int,
    m: Option<u32>,
    next: Option<u32>,
)
    requires
        is_least(edges, x, m),
        next == (if !touches(e, x) {
            m
        } else {
            match m {
                None => Some(e.2),
                Some(d) => Some(
                    if e.2 < d {
                        e.2
                    } else {
                        d
                    },
                ),
            }
        }),
    ensures
        is_least(edges.push(e), x, next),
{
    let all = edges.push(e);
    assert(all[edges.len() as int] == e);
    assert forall|k: int| 0 <= k < edges.len() implies all[k] == edges[k] by {}
    if let Some(d) = m {
        let k = choose|k: int| 0 <= k < edges.len() && touches(#[trigger] edges[k], x) && edges[k].2 == d;
        assert(touches(all[k], x));
    }
    match next {
        None => {},
        Some(d) => {
            assert(exists|k: int| 0 <= k < all.len() && touches(#[trigger] all[k], x) && all[k].2 == d) by {
                if touches(e, x) && (m is None || e.2 < m->0) {
                    assert(touches(all[edges.len() as int], x));
                } else {
                    let k = choose|k: int| 0 <= k < edges.len() && touches(#[trigger] edges[k], x)
                        && edges[k].2 == m->0;
                    assert(touches(all[k], x) && all[k].2 == d);
                }
            }
        },
    }
}

/// With all near pairs known, the least distance is that to the closest other.
proof fn lemma_least_closest(h: Seq<i64>, max: u32, x: int, m: Option<u32>)
    requires
        0 <= x < h.len() <= usize::MAX,
        is_least(all_pairs(h, max, h.len() as int), x, m),
    ensures
        m matches Some(d) ==> is_closest(h, x, d),
        m is None ==> forall|j: int| !#[trigger] near(h, max, x, j),
{
    let edges = all_pairs(h, max, h.len() as int);
    lemma_pairs_sound(h, max, h.len() as int);
    assert forall|j: int| #[trigger] near(h, max, x, j) implies exists|e: int|
        0 <= e < edges.len() && touches(#[trigger] edges[e], x) && edges[e].2 == distance(h[x], h[j]) by {
        lemma_near_symmetric(h, max, x, j);
        lemma_distance_symmetric(h[x], h[j]);
        let (lo, hi) = if x < j {
            (x, j)
        } else {
            (j, x)
        };
        lemma_pairs_complete(h, max, h.len() as int, lo, hi);
        let e = choose|e: int| 0 <= e < edges.len() && (#[trigger] edges[e]).0 == lo && edges[e].1 == hi;
        assert(is_pair(h, max, edges[e]));
        assert(touches(edges[e], x));
    }
    if let Some(d) = m {
        let e = choose|e: int| 0 <= e < edges.len() && touches(#[trigger] edges[e], x) && edges[e].2 == d;
        assert(is_pair(h, max, edges[e]));
        let j = if edges[e].0 == x {
            edges[e].1 as int
        } else {
            edges[e].0 as int
        };
        lemma_distance_symmetric(h[x], h[j]);
        assert(distance(h[x], h[j]) == d);
        assert forall|k: int| 0 <= k < h.len() && k != x implies d <= #[trigger] distance(h[x], h[k]) by {
            if distance(h[x], h[k]) <= max {
                assert(near(h, max, x, k));
            }
        }
    }
}

/// Hashes on a chain whose near pairs all have one root have one root.
proof fn lemma_chain_root(h: Seq<i64>, max: u32, root: Seq<usize>, path: Seq<int>)
    requires
        is_chain(h, max, path),
        forall|i: int, j: int| #[trigger] near(h, max, i, j) ==> root[i] == root[j],
    ensures
        root[path[0]] == root[path.last()],
    decreases path.len(),
{
    if path.len() > 1 {
        let before = path.drop_last();
        assert(is_chain(h, max, before)) by {
            assert forall|k: int| #![trigger before[k]] 0 <= k < before.len() - 1 implies near(
                h,
                max,
                before[k],
                before[k + 1],
            ) by {
                assert(before[k] == path[k] && before[k + 1] == path[k + 1]);
            }
        }
        lemma_chain_root(h, max, root, before);
        let k = path.len() - 2;
        assert(near(h, max, path[k], path[k + 1]));
    }
}

/// One class of the forest for each set of linked hashes.
spec fn classes(h: Seq<i64>, max: u32, root: Seq<usize>) -> bool {
    forall|x: int, y: int|
        0 <= x < h.len() && 0 <= y < h.len() ==> ((#[trigger] root[x] == #[trigger] root[y]) <==> linked(
            h,
            max,
            x,
            y,
        ))
}

/// Joins the ends of every near pair and notes the least distances.
fn join_pairs(hashes: &[i64], max: u32) -> (r: (Forest, Vec<Option<u32>>))
    ensures
        r.0.wf(),
        r.0.parent@.len() == hashes@.len(),
        r.1@.len() == hashes@.len(),
        classes(hashes@, max, r.0.root@),
        forall|x: int|
            0 <= x < hashes@.len() ==> is_least(
                all_pairs(hashes@, max, hashes@.len() as int),
                x,
                #[trigger] r.1@[x],
            ),
{
    let n = hashes.len();
    let ghost h = hashes@;
    let edges = near_pairs(hashes, max);
    let mut forest = Forest::new(n);
    let mut least: Vec<Option<u32>> = Vec::new();
    let mut i: usize = 0;
    while i < n
        invariant
            i <= n,
            least@.len() == i,
            forall|x: int| 0 <= x < i ==> (#[trigger] least@[x]) is None,
        decreases n - i,
    {
        least.push(None);
        i += 1;
    }
    proof {
        lemma_pairs_sound(h, max, h.len() as int);
        assert forall|x: int, y: int|
            0 <= x < h.len() && 0 <= y < h.len() && #[trigger] forest.root@[x]
                == #[trigger] forest.root@[y] implies linked(h, max, x, y) by {
            law_linked_reflexive(h, max, x);
        }
    }
    let mut k: usize = 0;
    while k < edges.len()
        invariant
            k <= edges@.len(),
            n == hashes@.len(),
            h == hashes@,
            edges@ == all_pairs(h, max, h.len() as int),
            forall|e: int| 0 <= e < edges@.len() ==> is_pair(h, max, #[trigger] edges@[e]),
            forest.wf(),
            forest.parent@.len() == n,
            least@.len() == n,
            forall|x: int, y: int|
                0 <= x < n && 0 <= y < n && #[trigger] forest.root@[x] == #[trigger] forest.root@[y]
                    ==> linked(h, max, x, y),
            forall|e: int|
                0 <= e < k ==> forest.root@[(#[trigger] edges@[e]).0 as int]
                    == forest.root@[edges@[e].1 as int],
            forall|x: int| 0 <= x < n ==> is_least(edges@.take(k as int), x, #[trigger] least@[x]),
        decreases edges@.len() - k,
    {
        let (a, b, d) = edges[k];
        assert(is_pair(h, max, edges@[k as int]));
        let ghost before = forest.root@;
        let ghost old_least = least@;
        forest.union(a, b);
        let da = match least[a] {
            None => d,
            Some(m) => if d < m {
                d
            } else {
                m
            },
        };
        let db = match least[b] {
            None => d,
            Some(m) => if d < m {
                d
            } else {
                m
            },
        };
        least.set(a, Some(da));
        least.set(b, Some(db));
        k += 1;
        proof {
            let e = edges@[k - 1];
            assert(edges@.take(k as int) == edges@.take(k - 1).push(e));
            assert forall|x: int| 0 <= x < n implies is_least(
                edges@.take(k as int),
                x,
                #[trigger] least@[x],
            ) by {
                lemma_least_step(edges@.take(k - 1), e, x, old_least[x], least@[x]);
            }
            assert(near(h, max, a as int, b as int));
            lemma_near_linked(h, max, a as int, b as int);
            law_linked_symmetric(h, max, a as int, b as int);
            assert forall|x: int, y: int|
                0 <= x < n && 0 <= y < n && #[trigger] forest.root@[x]
                    == #[trigger] forest.root@[y] implies linked(h, max, x, y) by {
                if before[x] == before[y] {
                } else if before[x] == before[a as int] {
                    assert(before[y] == before[b as int]);
                    law_linked_transitive(h, max, x, a as int, b as int);
                    law_linked_transitive(h, max, x, b as int, y);
                } else {
                    assert(before[x] == before[b as int] && before[y] == before[a as int]);
                    law_linked_transitive(h, max, x, b as int, a as int);
                    law_linked_transitive(h, max, x, a as int, y);
                }
            }
            assert forall|e: int| 0 <= e < k implies forest.root@[(#[trigger] edges@[e]).0 as int]
                == forest.root@[edges@[e].1 as int] by {
                assert(is_pair(h, max, edges@[e]));
            }
        }
    }
    proof {
        assert(edges@.take(edges@.len() as int) == edges@);
        let root = forest.root@;
        assert forall|i: int, j: int| #[trigger] near(h, max, i, j) implies root[i] == root[j] by {
            lemma_near_symmetric(h, max, i, j);
            let (lo, hi) = if i < j {
                (i, j)
            } else {
                (j, i)
            };
            lemma_pairs_complete(h, max, h.len() as int, lo, hi);
            let e = choose|e: int|
                0 <= e < edges@.len() && (#[trigger] edges@[e]).0 == lo && edges@[e].1 == hi;
            assert(root[edges@[e].0 as int] == root[edges@[e].1 as int]);
        }
        assert forall|x: int, y: int|
            0 <= x < h.len() && 0 <= y < h.len() implies ((#[trigger] root[x] == #[trigger] root[y])
            <==> linked(h, max, x, y)) by {
            if linked(h, max, x, y) {
                let path = choose|path: Seq<int>| #[trigger] is_chain(h, max, path) && path[0] == x
                    && path.last() == y;
                lemma_chain_root(h, max, root, path);
            }
        }
    }
    (forest, least)
}

/// Whether the buckets hold, under each root, the indices below `i` with that
/// root that are near another, in their order and with their least distances.
spec fn filled(
    buckets: Seq<Vec<(usize, u32)>>,
    root: Seq<usize>,
    least: Seq<Option<u32>>,
    i: int,
) -> bool {
    &&& buckets.len() == root.len()
    &&& forall|r: int, k: int|
        0 <= r < buckets.len() && 0 <= k < buckets[r]@.len() ==> {
            let (x, d) = #[trigger] buckets[r]@[k];
            x < i && root[x as int] == r && least[x as int] == Some(d)
        }
    &&& forall|r: int, k: int, l: int|
        0 <= r < buckets.len() && 0 <= k < l < buckets[r]@.len() ==> (#[trigger] buckets[r]@[k]).0 < (
        #[trigger] buckets[r]@[l]).0
    &&& forall|x: int|
        0 <= x < i && (#[trigger] least[x]) is Some ==> lists(buckets[root[x] as int]@, x)
}

/// Collects the indices that are near another under their roots.
fn fill_buckets(forest: &mut Forest, least: &Vec<Option<u32>>) -> (r: Vec<Vec<(usize, u32)>>)
    requires
        old(forest).wf(),
        least@.len() == old(forest).parent@.len(),
    ensures
        final(forest).root == old(forest).root,
        filled(r@, old(forest).root@, least@, least@.len() as int),
{
    let n = least.len();
    let ghost root = forest.root@;
    let mut buckets: Vec<Vec<(usize, u32)>> = Vec::new();
    let mut i: usize = 0;
    while i < n
        invariant
            i <= n,
            buckets@.len() == i,
            forall|r: int| 0 <= r < i ==> (#[trigger] buckets@[r])@.len() == 0,
        decreases n - i,
    {
        buckets.push(Vec::new());
        i += 1;
    }
    let mut x: usize = 0;
    while x < n
        invariant
            x <= n,
            n == least@.len(),
            forest.wf(),
            forest.parent@.len() == n,
            forest.root@ == root,
            forest.root == old(forest).root,
            filled(buckets@, root, least@, x as int),
        decreases n - x,
    {
        let ghost before = buckets@;
        if let Some(d) = least[x] {
            assert(forest.node_ok(x as int));
            let r = forest.find(x);
            buckets[r].push((x, d));
            proof {
                assert(buckets@ == before.update(r as int, buckets@[r as int]));
                assert(buckets@[r as int]@ == before[r as int]@.push((x, d)));
                assert(filled(buckets@, root, least@, x + 1)) by {
                    assert forall|q: int, k: int|
                        0 <= q < buckets@.len() && 0 <= k < buckets@[q]@.len() implies {
                        let (y, e) = #[trigger] buckets@[q]@[k];
                        y < x + 1 && root[y as int] == q && least@[y as int] == Some(e)
                    } by {
                        if q == r && k == before[q]@.len() {
                        } else {
                            assert(buckets@[q]@[k] == before[q]@[k]);
                        }
                    }
                    assert forall|q: int, k: int, l: int|
                        0 <= q < buckets@.len() && 0 <= k < l < buckets@[q]@.len() implies (
                    #[trigger] buckets@[q]@[k]).0 < (#[trigger] buckets@[q]@[l]).0 by {
                        assert(buckets@[q]@[k] == before[q]@[k]);
                        if l < before[q]@.len() {
                            assert(buckets@[q]@[l] == before[q]@[l]);
                        }
                    }
                    assert forall|y: int| 0 <= y < x + 1 && (#[trigger] least@[y]) is Some implies lists(
                        buckets@[root[y] as int]@,
                        y,
                    ) by {
                        let q = root[y] as int;
                        assert(forest.node_ok(y));
                        if y == x {
                            assert(buckets@[q]@[before[q]@.len() as int].0 == y);
                        } else {
                            let k = choose|k: int|
                                0 <= k < before[q]@.len() && (#[trigger] before[q]@[k]).0 == y;
                            assert(buckets@[q]@[k] == before[q]@[k]);
                        }
                    }
                }
            }
        }
        x += 1;
    }
    buckets
}

/// Groups of hashes within `max_distance` of each other: the sets of linked
/// hashes, with the distance from each member to the closest other. A hash that
/// is near no other is in no group.
pub fn group_hashes(hashes: &[i64], max_distance: u32) -> (r: Vec<Vec<(usize, u32)>>)
    ensures
        is_grouping(hashes@, max_distance, group_views(r@)),
{
    let ghost h = hashes@;
    let n = hashes.len();
    let (mut forest, least) = join_pairs(hashes, max_distance);
    let ghost root = forest.root@;
    assert forall|x: int| 0 <= x < n implies (#[trigger] root[x]) < n by {
        assert(forest.node_ok(x));
    }
    let buckets = fill_buckets(&mut forest, &least);
    let ghost all = buckets@;
    let mut out: Vec<Vec<(usize, u32)>> = Vec::new();
    let ghost mut from: Seq<int> = Seq::empty();
    for bucket in it: buckets
        invariant
            it.seq() == all,
            from.len() == out@.len(),
            forall|g: int|
                0 <= g < from.len() ==> 0 <= #[trigger] from[g] < it.index() && out@[g] == all[from[g]]
                    && all[from[g]]@.len() >= 2,
            forall|g: int, f: int| 0 <= g < f < from.len() ==> #[trigger] from[g] < #[trigger] from[f],
            forall|r: int|
                0 <= r < it.index() && (#[trigger] all[r])@.len() >= 2 ==> from.contains(r),
    {
        let ghost before = from;
        let ghost at = it.index();
        if bucket.len() >= 2 {
            out.push(bucket);
            proof {
                from = from.push(at);
                assert(from[before.len() as int] == at);
                assert forall|r: int| 0 <= r < at + 1 && (#[trigger] all[r])@.len() >= 2 implies from.contains(
                    r,
                ) by {
                    if r < at {
                        let g = choose|g: int| 0 <= g < before.len() && before[g] == r;
                        assert(from[g] == r);
                    }
                }
            }
        }
    }
    proof {
        lemma_groups_of_buckets(h, max_distance, root, least@, all, from, group_views(out@));
    }
    out
}

/// The buckets with at least two members are the groups.
proof fn lemma_groups_of_buckets(
    h: Seq<i64>,
    max: u32,
    root: Seq<usize>,
    least: Seq<Option<u32>>,
    buckets: Seq<Vec<(usize, u32)>>,
    from: Seq<int>,
    groups: Seq<Seq<(usize, u32)>>,
)
    requires
        root.len() == h.len() <= usize::MAX,
        least.len() == h.len(),
        classes(h, max, root),
        forall|x: int| 0 <= x < root.len() ==> (#[trigger] root[x]) < root.len(),
        forall|x: int|
            0 <= x < h.len() ==> is_least(
                all_pairs(h, max, h.len() as int),
                x,
                #[trigger] least[x],
            ),
        filled(buckets, root, least, h.len() as int),
        from.len() == groups.len(),
        forall|g: int|
            0 <= g < from.len() ==> 0 <= #[trigger] from[g] < buckets.len() && groups[g]
                == buckets[from[g]]@ && buckets[from[g]]@.len() >= 2,
        forall|g: int, f: int| 0 <= g < f < from.len() ==> #[trigger] from[g] < #[trigger] from[f],
        forall|r: int| 0 <= r < buckets.len() && (#[trigger] buckets[r])@.len() >= 2 ==> from.contains(r),
    ensures
        is_grouping(h, max, groups),
{
    assert forall|g: int| 0 <= g < groups.len() implies (#[trigger] groups[g]).len() >= 2 by {
        assert(0 <= from[g]);
    }
    assert forall|g: int, k: int| 0 <= g < groups.len() && 0 <= k < groups[g].len() implies {
        let (x, d) = #[trigger] groups[g][k];
        x < h.len() && root[x as int] == from[g] && least[x as int] == Some(d) && is_closest(h, x as int, d)
    } by {
        assert(0 <= from[g]);
        let (x, d) = buckets[from[g]]@[k];
        assert(is_least(all_pairs(h, max, h.len() as int), x as int, least[x as int]));
        lemma_least_closest(h, max, x as int, least[x as int]);
    }
    assert forall|g: int, k: int, l: int|
        0 <= g < groups.len() && 0 <= k < l < groups[g].len() implies (#[trigger] groups[g][k]).0 < (
    #[trigger] groups[g][l]).0 by {
        assert(0 <= from[g]);
        assert(buckets[from[g]]@[k].0 < buckets[from[g]]@[l].0);
    }
    assert forall|g: int, k: int, f: int, l: int|
        0 <= g < groups.len() && 0 <= k < groups[g].len() && 0 <= f < groups.len() && 0 <= l
            < groups[f].len() implies (g == f <==> linked(
        h,
        max,
        (#[trigger] groups[g][k]).0 as int,
        (#[trigger] groups[f][l]).0 as int,
    )) by {
        let x = groups[g][k].0 as int;
        let y = groups[f][l].0 as int;
        assert(root[x] == from[g] && root[y] == from[f]);
        assert(root[x] == root[y] <==> linked(h, max, x, y));
        if g < f {
            assert(from[g] < from[f]);
        } else if f < g {
            assert(from[f] < from[g]);
        }
    }
    assert forall|i: int, j: int| #[trigger] near(h, max, i, j) implies exists|g: int|
        0 <= g < groups.len() && lists(#[trigger] groups[g], i) by {
        lemma_near_symmetric(h, max, i, j);
        lemma_near_linked(h, max, i, j);
        assert(is_least(all_pairs(h, max, h.len() as int), i, least[i]));
        assert(is_least(all_pairs(h, max, h.len() as int), j, least[j]));
        lemma_least_closest(h, max, i, least[i]);
        lemma_least_closest(h, max, j, least[j]);
        assert(root[i] == root[j]);
        let r = root[i] as int;
        assert(lists(buckets[r]@, i) && lists(buckets[r]@, j));
        let k = choose|k: int| 0 <= k < buckets[r]@.len() && (#[trigger] buckets[r]@[k]).0 == i;
        let l = choose|l: int| 0 <= l < buckets[r]@.len() && (#[trigger] buckets[r]@[l]).0 == j;
        assert(k != l);
        assert(from.contains(r));
        let g = choose|g: int| 0 <= g < from.len() && from[g] == r;
        assert(lists(groups[g], i));
    }
}

/// The distance that a member of a group is listed with is its distance to another
/// member, and no member is closer.
pub proof fn law_closest_is_a_member(
    h: Seq<i64>,
    max: u32,
    groups: Seq<Seq<(usize, u32)>>,
    g: int,
    k: int,
)
    requires
        is_grouping(h, max, groups),
        0 <= g < groups.len(),
        0 <= k < groups[g].len(),
    ensures
        exists|l: int|
            0 <= l < groups[g].len() && l != k && #[trigger] distance(
                h[groups[g][k].0 as int],
                h[groups[g][l].0 as int],
            ) == groups[g][k].1,
        forall|l: int|
            0 <= l < groups[g].len() && l != k ==> groups[g][k].1 <= #[trigger] distance(
                h[groups[g][k].0 as int],
                h[groups[g][l].0 as int],
            ),
{
    let group = groups[g];
    let i = group[k].0 as int;
    let d = group[k].1;
    assert(is_closest(h, i, d));
    // another member is linked to it, so that some hash is near it
    let o = if k == 0 {
        1int
    } else {
        0int
    };
    let other = groups[g][o].0 as int;
    assert(i != other);
    assert(linked(h, max, groups[g][k].0 as int, groups[g][o].0 as int));
    let path = choose|path: Seq<int>| #[trigger]
        is_chain(h, max, path) && path[0] == i && path.last() == other;
    assert(path.len() > 1);
    assert(near(h, max, path[0], path[1]));
    assert(d <= distance(h[i], h[path[1]]));
    // the closest is near it too, and thus listed in its group
    let j = choose|j: int| 0 <= j < h.len() && j != i && #[trigger] distance(h[i], h[j]) == d;
    assert(near(h, max, i, j));
    lemma_near_symmetric(h, max, i, j);
    let f = choose|f: int| 0 <= f < groups.len() && lists(#[trigger] groups[f], j);
    let l = choose|l: int| 0 <= l < groups[f].len() && (#[trigger] groups[f][l]).0 == j;
    lemma_near_linked(h, max, i, j);
    assert(linked(h, max, groups[g][k].0 as int, groups[f][l].0 as int));
    assert(f == g);
    assert(distance(h[groups[g][k].0 as int], h[groups[g][l].0 as int]) == d);
    assert forall|l: int| 0 <= l < groups[g].len() && l != k implies groups[g][k].1
        <= #[trigger] distance(h[groups[g][k].0 as int], h[groups[g][l].0 as int]) by {
        let m = groups[g][l].0 as int;
        assert(m != i);
        assert(d <= distance(h[i], h[m]));
    }
}

// ---------------------------------------------------------------------------
// Distances
// ---------------------------------------------------------------------------

proof fn lemma_no_ones(x: u64)
    ensures
        ones(x) == 0 <==> x == 0,
    decreases x,
{
    if x != 0 {
        lemma_no_ones(x / 2);
    }
}

proof fn lemma_power_halves(k: u64)
    by (bit_vector)
    requires
        k < 64,
    ensures
        1u64 << 0u64 == 1u64,
        (1u64 << k) != 0,
        k > 0 ==> (1u64 << k) % 2 == 0 && (1u64 << k) / 2 == 1u64 << ((k - 1) as u64),
{
}

proof fn lemma_one_of_power(k: u64)
    requires
        k < 64,
    ensures
        ones(1u64 << k) == 1,
    decreases k,
{
    lemma_power_halves(k);
    if k > 0 {
        lemma_one_of_power((k - 1) as u64);
    } else {
        reveal_with_fuel(ones, 2);
    }
}

/// Only a hash itself lies at no distance from it.
pub proof fn law_equal_hashes_have_no_distance(a: i64, b: i64)
    ensures
        distance(a, b) == 0 <==> a == b,
{
    lemma_no_ones((a ^ b) as u64);
    assert((a ^ b) as u64 == 0u64 <==> a == b) by (bit_vector);
}

/// Turning over one bit of a hash, whichever it is, leads to distance one.
pub proof fn law_one_bit_is_distance_one(a: i64, k: u64)
    requires
        k < 64,
    ensures
        distance(a, a ^ ((1u64 << k) as i64)) == 1,
{
    lemma_one_of_power(k);
    let p = 1u64 << k;
    assert((a ^ (a ^ (p as i64))) as u64 == p) by (bit_vector);
}

} // verus!
