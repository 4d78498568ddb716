//! The matchmaking engine: compatibility of two entries, the graph of all
//! compatible pairs, and the groups that the greedy matching makes of it.

use crate::entry::{MatchGroup, QueueEntry};
use crate::graph::{
    edges_within, first_free, greedy_pairs, greedy_upto, is_disjoint, joined, neighbors_in, paired,
    touches, CompatibilityGraph,
};
use vstd::prelude::*;

verus! {

/// Two skill ratings are compatible when they differ by less than this.
pub const MMR_WINDOW: i64 = 100;

/// Why no matches could be made.
#[derive(Debug, Clone, Copy, PartialEq, Eq)]
pub enum MatchError {
    /// The table of verdicts is not as large as the list of entries.
    TableSize,
}

/// A verdict for every unordered pair of positions below `size`: the
/// answers of a compatibility predicate, or of one part of it.
pub struct PairTable {
    rows: Vec<Vec<bool>>,
}

impl PairTable {
    /// The table is square and symmetric.
    pub closed spec fn wf(self) -> bool {
        &&& forall|a: int|
            0 <= a < self.rows@.len() ==> (#[trigger] self.rows@[a])@.len() == self.rows@.len()
        &&& forall|a: int, b: int|
            0 <= a < self.rows@.len() && 0 <= b < self.rows@.len() ==> self.rows@[a]@[b]
                == self.rows@[b]@[a]
    }

    /// The number of positions.
    pub closed spec fn positions(self) -> nat {
        self.rows@.len()
    }

    /// The verdict on the pair of `a` and `b`; `false` where either is no
    /// position of the table.
    pub closed spec fn holds(self, a: int, b: int) -> bool {
        0 <= a < self.rows@.len() && 0 <= b < self.rows@.len() && self.rows@[a]@[b]
    }

    /// The verdicts as a relation.
    pub open spec fn relation(self) -> spec_fn(int, int) -> bool {
        |a: int, b: int| self.holds(a, b)
    }

    /// The verdict on a pair is the same in either order.
    pub proof fn lemma_symmetric(self, a: int, b: int)
        requires
            self.wf(),
        ensures
            self.holds(a, b) == self.holds(b, a),
    {
    }

    /// A table for `size` positions whose verdicts are all `false`.
    pub fn new(size: usize) -> (t: Self)
        ensures
            t.wf(),
            t.positions() == size,
            forall|a: int, b: int| !t.holds(a, b),
    {
        let mut rows: Vec<Vec<bool>> = Vec::new();
        let mut i: usize = 0;
        while i < size
            invariant
                i <= size,
                rows@.len() == i,
                forall|a: int| 0 <= a < i ==> (#[trigger] rows@[a])@.len() == size,
                forall|a: int, b: int| 0 <= a < i && 0 <= b < size ==> !rows@[a]@[b],
            decreases size - i,
        {
            let mut row: Vec<bool> = Vec::new();
            let mut j: usize = 0;
            while j < size
                invariant
                    j <= size,
                    row@.len() == j,
                    forall|b: int| 0 <= b < j ==> !row@[b],
                decreases size - j,
            {
                row.push(false);
                j = j + 1;
            }
            rows.push(row);
            i = i + 1;
        }
        PairTable { rows }
    }

    /// The number of positions.
    pub fn size(&self) -> (n: usize)
        requires
            self.wf(),
        ensures
            n == self.positions(),
    {
        self.rows.len()
    }

    /// The verdict on the pair of `a` and `b`.
    pub fn get(&self, a: usize, b: usize) -> (v: bool)
        requires
            self.wf(),
        ensures
            v == self.holds(a as int, b as int),
    {
        if a < self.rows.len() && b < self.rows.len() {
            self.rows[a][b]
        } else {
            false
        }
    }

    /// Records `verdict` for the pair of `a` and `b`. Nothing is recorded,
    /// and the answer is `false`, where either is no position of the table.
    pub fn set(&mut self, a: usize, b: usize, verdict: bool) -> (done: bool)
        requires
            old(self).wf(),
        ensures
            final(self).wf(),
            final(self).positions() == old(self).positions(),
            done == (a < old(self).positions() && b < old(self).positions()),
            forall|x: int, y: int|
                #![trigger final(self).holds(x, y)]
                final(self).holds(x, y) == if done && ((x == a && y == b) || (x == b && y == a)) {
                    verdict
                } else {
                    old(self).holds(x, y)
                },
    {
        let n = self.rows.len();
        if a >= n || b >= n {
            return false;
        }
        let ghost before = self.rows@;
        let mut row_a = self.rows[a].clone();
        row_a.set(b, verdict);
        self.rows.set(a, row_a);
        let mut row_b = self.rows[b].clone();
        row_b.set(a, verdict);
        self.rows.set(b, row_b);
        proof {
            let after = self.rows@;
            assert forall|x: int, y: int| 0 <= x < n && 0 <= y < n implies after[x]@[y] == if (x
                == a && y == b) || (x == b && y == a) {
                verdict
            } else {
                before[x]@[y]
            } by {
                assert(before[x]@.len() == n);
            }
        }
        true
    }
}

/// Whether two skill ratings differ by less than the window.
pub open spec fn mmr_close(a: int, b: int) -> bool {
    (if a >= b {
        a - b
    } else {
        b - a
    }) < MMR_WINDOW
}

/// All predicates on two entries: close in skill, within range of each
/// other (`near`, decided by the caller), and from different addresses.
pub open spec fn compatible_spec(a: QueueEntry, b: QueueEntry, near: bool) -> bool {
    mmr_close(a.mmr as int, b.mmr as int) && near && a.ip@ != b.ip@
}

/// Whether the skill ratings of `a` and `b` differ by less than the window.
pub fn compatible_mmr(a: &QueueEntry, b: &QueueEntry) -> (r: bool)
    ensures
        r == mmr_close(a.mmr as int, b.mmr as int),
{
    let x: i128 = a.mmr as i128;
    let y: i128 = b.mmr as i128;
    let d: i128 = if x >= y {
        x - y
    } else {
        y - x
    };
    d < MMR_WINDOW as i128
}

/// Whether `a` and `b` enrolled from different addresses.
pub fn compatible_ip(a: &QueueEntry, b: &QueueEntry) -> (r: bool)
    ensures
        r == (a.ip@ != b.ip@),
{
    !(a.ip == b.ip)
}

/// Whether `a` and `b` may be matched, `near` being the verdict on their
/// distance.
pub fn compatible(a: &QueueEntry, b: &QueueEntry, near: bool) -> (r: bool)
    ensures
        r == compatible_spec(*a, *b, near),
{
    compatible_mmr(a, b) && near && compatible_ip(a, b)
}

/// The pairs `(i, k)` with `i < k < j` that `rel` accepts, `k` ascending.
pub open spec fn row_edges(rel: spec_fn(int, int) -> bool, i: int, j: int) -> Seq<(usize, usize)>
    decreases j - i,
{
    if j <= i + 1 {
        Seq::empty()
    } else {
        let rest = row_edges(rel, i, j - 1);
        if rel(i, j - 1) {
            rest.push((i as usize, (j - 1) as usize))
        } else {
            rest
        }
    }
}

/// The accepted pairs `(a, b)` with `a < i` and `a < b < n`: first by `a`,
/// then by `b`.
pub open spec fn edges_of_rows(rel: spec_fn(int, int) -> bool, n: int, i: int) -> Seq<
    (usize, usize),
>
    decreases i,
{
    if i <= 0 {
        Seq::empty()
    } else {
        edges_of_rows(rel, n, i - 1) + row_edges(rel, i - 1, n)
    }
}

/// The edges of the graph of `rel` on `n` positions, in the order in which
/// they are added: every unordered pair that `rel` accepts, once.
pub open spec fn relation_edges(rel: spec_fn(int, int) -> bool, n: nat) -> Seq<(usize, usize)> {
    edges_of_rows(rel, n as int, n as int)
}

/// The compatibility of the entries at two positions, given the verdicts
/// on their distance.
pub open spec fn compatibility(entries: Seq<QueueEntry>, near: PairTable) -> spec_fn(
    int,
    int,
) -> bool {
    |a: int, b: int|
        0 <= a < entries.len() && 0 <= b < entries.len() && compatible_spec(
            entries[a],
            entries[b],
            near.holds(a, b),
        )
}

/// The pairs of positions that are matched.
pub open spec fn matched_pairs(entries: Seq<QueueEntry>, near: PairTable) -> Seq<(usize, usize)> {
    greedy_pairs(entries.len(), relation_edges(compatibility(entries, near), entries.len()))
}

/// `groups` holds, pair for pair, the two entries at the positions of
/// `pairs`.
pub open spec fn groups_of_pairs(
    groups: Seq<MatchGroup>,
    entries: Seq<QueueEntry>,
    pairs: Seq<(usize, usize)>,
) -> bool {
    &&& groups.len() == pairs.len()
    &&& forall|k: int|
        0 <= k < groups.len() ==> (#[trigger] groups[k]).players@ == seq![
            entries[pairs[k].0 as int],
            entries[pairs[k].1 as int],
        ]
}

proof fn lemma_row_edges_within(rel: spec_fn(int, int) -> bool, i: int, j: int, n: nat)
    requires
        0 <= i,
        j <= n,
        n <= usize::MAX,
    ensures
        edges_within(row_edges(rel, i, j), n),
        forall|k: int|
            0 <= k < row_edges(rel, i, j).len() ==> {
                &&& (#[trigger] row_edges(rel, i, j)[k]).0 == i
                &&& i < row_edges(rel, i, j)[k].1 < j
                &&& rel(i, row_edges(rel, i, j)[k].1 as int)
            },
        forall|b: int|
            i < b < j && #[trigger] rel(i, b) ==> row_edges(rel, i, j).contains(
                (i as usize, b as usize),
            ),
    decreases j - i,
{
    if j > i + 1 {
        let rest = row_edges(rel, i, j - 1);
        lemma_row_edges_within(rel, i, j - 1, n);
        let all = row_edges(rel, i, j);
        assert forall|b: int| i < b < j && #[trigger] rel(i, b) implies all.contains(
            (i as usize, b as usize),
        ) by {
            if b < j - 1 {
                let k = choose|k: int| 0 <= k < rest.len() && rest[k] == (i as usize, b as usize);
                assert(all[k] == (i as usize, b as usize));
            } else {
                assert(all[all.len() - 1] == (i as usize, b as usize));
            }
        }
    }
}

/// The edges of the graph of `rel` join different positions below `n`, the
/// smaller first, and a pair is an edge if and only if `rel` accepts it.
pub proof fn lemma_relation_edges(rel: spec_fn(int, int) -> bool, n: nat)
    requires
        n <= usize::MAX,
    ensures
        edges_within(relation_edges(rel, n), n),
        forall|k: int|
            0 <= k < relation_edges(rel, n).len() ==> {
                &&& (#[trigger] relation_edges(rel, n)[k]).0 < relation_edges(rel, n)[k].1
                &&& rel(
                    relation_edges(rel, n)[k].0 as int,
                    relation_edges(rel, n)[k].1 as int,
                )
            },
        forall|a: int, b: int|
            0 <= a < b < n && #[trigger] rel(a, b) ==> relation_edges(rel, n).contains(
                (a as usize, b as usize),
            ),
{
    lemma_rows_edges(rel, n, n as int);
}

proof fn lemma_rows_edges(rel: spec_fn(int, int) -> bool, n: nat, i: int)
    requires
        0 <= i <= n,
        n <= usize::MAX,
    ensures
        edges_within(edges_of_rows(rel, n as int, i), n),
        forall|k: int|
            0 <= k < edges_of_rows(rel, n as int, i).len() ==> {
                &&& (#[trigger] edges_of_rows(rel, n as int, i)[k]).0 < edges_of_rows(
                    rel,
                    n as int,
                    i,
                )[k].1
                &&& edges_of_rows(rel, n as int, i)[k].0 < i
                &&& rel(
                    edges_of_rows(rel, n as int, i)[k].0 as int,
                    edges_of_rows(rel, n as int, i)[k].1 as int,
                )
            },
        forall|a: int, b: int|
            0 <= a < i && a < b < n && #[trigger] rel(a, b) ==> edges_of_rows(
                rel,
                n as int,
                i,
            ).contains(
                (a as usize, b as usize),
            ),
    decreases i,
{
    if i > 0 {
        let head = edges_of_rows(rel, n as int, i - 1);
        let row = row_edges(rel, i - 1, n as int);
        let all = edges_of_rows(rel, n as int, i);
        lemma_rows_edges(rel, n, i - 1);
        lemma_row_edges_within(rel, i - 1, n as int, n);
        assert forall|k: int| 0 <= k < all.len() implies {
            &&& (#[trigger] all[k]).0 < all[k].1
            &&& all[k].0 < i
            &&& all[k].0 != all[k].1
            &&& all[k].1 < n
            &&& rel(all[k].0 as int, all[k].1 as int)
        } by {
            if k < head.len() {
                assert(all[k] == head[k]);
            } else {
                assert(all[k] == row[k - head.len()]);
            }
        }
        assert forall|a: int, b: int| 0 <= a < i && a < b < n && #[trigger] rel(
            a,
            b,
        ) implies all.contains(
            (a as usize, b as usize),
        ) by {
            let e = (a as usize, b as usize);
            if a < i - 1 {
                let k = choose|k: int| 0 <= k < head.len() && head[k] == e;
                assert(all[k] == e);
            } else {
                let k = choose|k: int| 0 <= k < row.len() && row[k] == e;
                assert(all[head.len() + k] == e);
            }
        }
    }
}

/// The graph of all pairs that `table` accepts: the edge between `a` and
/// `b`, `a < b`, is added after every edge of a smaller `a`, and after the
/// edges of `a` with a smaller `b`.
pub fn graph_of(table: &PairTable) -> (g: CompatibilityGraph)
    requires
        table.wf(),
    ensures
        g.wf(),
        g.nodes() == table.positions(),
        g.edge_list() == relation_edges(table.relation(), table.positions()),
{
    let n = table.size();
    let mut g = CompatibilityGraph::new(n);
    let ghost rel = table.relation();
    let mut i: usize = 0;
    while i < n
        invariant
            i <= n,
            n == table.positions(),
            table.wf(),
            rel == table.relation(),
            g.wf(),
            g.nodes() == n,
            g.edge_list() == edges_of_rows(rel, n as int, i as int),
        decreases n - i,
    {
        let mut j: usize = i + 1;
        assert(g.edge_list() + row_edges(rel, i as int, j as int) == g.edge_list());
        while j < n
            invariant
                i < n,
                i < j <= n,
                n == table.positions(),
                table.wf(),
                rel == table.relation(),
                g.wf(),
                g.nodes() == n,
                g.edge_list() == edges_of_rows(rel, n as int, i as int) + row_edges(
                    rel,
                    i as int,
                    j as int,
                ),
            decreases n - j,
        {
            let ghost head = edges_of_rows(rel, n as int, i as int);
            let ghost row = row_edges(rel, i as int, j as int);
            if table.get(i, j) {
                g.add_edge(i, j);
                assert(head + row.push((i, j)) == (head + row).push((i, j)));
            }
            j = j + 1;
        }
        i = i + 1;
    }
    g
}

/// The groups that the greedy matching makes of `entries`: the entries are
/// the nodes, in their order; two of them are joined when `compatible`
/// accepts them, `near` holding the verdicts on their distance; each
/// matched pair becomes a group of two, in the order in which the pairs
/// are made. Fails when `near` is not a table for exactly these entries.
pub fn make_matches(entries: &Vec<QueueEntry>, near: &PairTable) -> (out: Result<
    Vec<MatchGroup>,
    MatchError,
>)
    requires
        near.wf(),
    ensures
        out is Ok <==> near.positions() == entries@.len(),
        out matches Ok(groups) ==> groups_of_pairs(
            groups@,
            entries@,
            matched_pairs(entries@, *near),
        ),
{
    match match_positions(entries, near) {
        Err(e) => Err(e),
        Ok(pairs) => {
            let mut groups: Vec<MatchGroup> = Vec::new();
            let mut k: usize = 0;
            while k < pairs.len()
                invariant
                    k <= pairs.len(),
                    pairs@ == matched_pairs(entries@, *near),
                    forall|i: int|
                        0 <= i < pairs.len() ==> (#[trigger] pairs[i]).0 < entries.len()
                            && pairs[i].1 < entries.len(),
                    groups@.len() == k,
                    forall|i: int|
                        0 <= i < k ==> (#[trigger] groups@[i]).players@ == seq![
                            entries@[pairs@[i].0 as int],
                            entries@[pairs@[i].1 as int],
                        ],
                decreases pairs.len() - k,
            {
                let (a, b) = pairs[k];
                let mut players: Vec<QueueEntry> = Vec::new();
                players.push(entries[a].duplicate());
                players.push(entries[b].duplicate());
                assert(players@ == seq![entries@[a as int], entries@[b as int]]);
                groups.push(MatchGroup { players });
                k = k + 1;
            }
            Ok(groups)
        },
    }
}

/// The positions that the greedy matching pairs: what `make_matches` makes
/// groups of. Each pair holds two different positions of `entries` whose
/// entries are compatible, the smaller position first; no position is in
/// two pairs; and no two compatible entries are both left out.
pub fn match_positions(entries: &Vec<QueueEntry>, near: &PairTable) -> (out: Result<
    Vec<(usize, usize)>,
    MatchError,
>)
    requires
        near.wf(),
    ensures
        out is Ok <==> near.positions() == entries@.len(),
        out matches Ok(pairs) ==> {
            &&& pairs@ == matched_pairs(entries@, *near)
            &&& forall|i: int|
                0 <= i < pairs@.len() ==> {
                    &&& (#[trigger] pairs@[i]).0 < pairs@[i].1 < entries@.len()
                    &&& compatibility(entries@, *near)(pairs@[i].0 as int, pairs@[i].1 as int)
                }
            &&& is_disjoint(pairs@)
            &&& forall|a: usize, b: usize|
                a < b < entries@.len() && compatibility(entries@, *near)(a as int, b as int)
                    ==> #[trigger] paired(pairs@, a) || #[trigger] paired(pairs@, b)
        },
{
    let n = entries.len();
    if near.size() != n {
        return Err(MatchError::TableSize);
    }
    let mut verdicts = PairTable::new(n);
    let ghost rel = compatibility(entries@, *near);
    let mut i: usize = 0;
    while i < n
        invariant
            i <= n,
            n == entries@.len(),
            near.wf(),
            near.positions() == n,
            verdicts.wf(),
            verdicts.positions() == n,
            rel == compatibility(entries@, *near),
            forall|a: int, b: int|
                #![trigger verdicts.holds(a, b)]
                0 <= a < b < n ==> verdicts.holds(a, b) == (a < i && rel(a, b)),
        decreases n - i,
    {
        let mut j: usize = i + 1;
        while j < n
            invariant
                i < n,
                i < j <= n,
                n == entries@.len(),
                near.wf(),
                near.positions() == n,
                verdicts.wf(),
                verdicts.positions() == n,
                rel == compatibility(entries@, *near),
                forall|a: int, b: int|
                    #![trigger verdicts.holds(a, b)]
                    0 <= a < b < n ==> verdicts.holds(a, b) == ((a < i || (a == i && b < j))
                        && rel(a, b)),
            decreases n - j,
        {
            let v = compatible(&entries[i], &entries[j], near.get(i, j));
            verdicts.set(i, j, v);
            j = j + 1;
        }
        i = i + 1;
    }
    let g = graph_of(&verdicts);
    let pairs = g.greedy_matching();
    proof {
        let mine = verdicts.relation();
        lemma_same_edges(mine, rel, n as nat, n as int);
        lemma_relation_edges(rel, n as nat);
        let edges = relation_edges(rel, n as nat);
        assert forall|i: int| 0 <= i < pairs@.len() implies {
            &&& (#[trigger] pairs@[i]).0 < pairs@[i].1 < n
            &&& rel(pairs@[i].0 as int, pairs@[i].1 as int)
        } by {
            let p = pairs@[i];
            assert(joined(edges, p.0, p.1));
            let k = choose|k: int|
                0 <= k < edges.len() && (#[trigger] edges[k] == (p.0, p.1) || edges[k] == (
                    p.1,
                    p.0,
                ));
        }
        assert forall|a: usize, b: usize| a < b < n && rel(a as int, b as int) implies #[trigger]
            paired(pairs@, a) || #[trigger] paired(pairs@, b) by {
            let e = (a, b);
            let k = choose|k: int| 0 <= k < edges.len() && edges[k] == e;
            assert(paired(pairs@, edges[k].0) || paired(pairs@, edges[k].1));
        }
    }
    Ok(pairs)
}

/// Two relations that agree on every pair of positions give the same
/// edges: the graph depends on the verdicts alone.
pub proof fn lemma_same_edges(
    r1: spec_fn(int, int) -> bool,
    r2: spec_fn(int, int) -> bool,
    n: nat,
    i: int,
)
    requires
        0 <= i <= n,
        forall|a: int, b: int| 0 <= a < b < n ==> #[trigger] r1(a, b) == r2(a, b),
    ensures
        edges_of_rows(r1, n as int, i) == edges_of_rows(r2, n as int, i),
    decreases i,
{
    if i > 0 {
        lemma_same_edges(r1, r2, n, i - 1);
        lemma_same_row(r1, r2, i - 1, n as int);
    }
}

proof fn lemma_same_row(r1: spec_fn(int, int) -> bool, r2: spec_fn(int, int) -> bool, i: int, j: int)
    requires
        0 <= i,
        forall|b: int| i < b < j ==> #[trigger] r1(i, b) == r2(i, b),
    ensures
        row_edges(r1, i, j) == row_edges(r2, i, j),
    decreases j - i,
{
    if j > i + 1 {
        lemma_same_row(r1, r2, i, j - 1);
    }
}

/// The matching is determined by the order of the entries and by which
/// pairs are compatible: two lists of the same length with the same
/// compatible pairs of positions are matched alike.
pub proof fn lemma_matching_is_determined(
    e1: Seq<QueueEntry>,
    t1: PairTable,
    e2: Seq<QueueEntry>,
    t2: PairTable,
)
    requires
        e1.len() == e2.len(),
        forall|a: int, b: int|
            0 <= a < b < e1.len() ==> #[trigger] compatibility(e1, t1)(a, b) == compatibility(
                e2,
                t2,
            )(a, b),
    ensures
        matched_pairs(e1, t1) == matched_pairs(e2, t2),
{
    let n = e1.len();
    lemma_same_edges(compatibility(e1, t1), compatibility(e2, t2), n, n as int);
}

/// Two entries that are compatible are matched with each other.
pub proof fn lemma_compatible_pair_is_matched(entries: Seq<QueueEntry>, near: PairTable)
    requires
        entries.len() == 2,
        compatible_spec(entries[0], entries[1], near.holds(0, 1)),
    ensures
        matched_pairs(entries, near) == seq![(0usize, 1usize)],
{
    let rel = compatibility(entries, near);
    assert(rel(0, 1));
    let edges = relation_edges(rel, 2);
    assert(edges_of_rows(rel, 2, 0) == Seq::<(usize, usize)>::empty());
    assert(row_edges(rel, 0, 1) == Seq::<(usize, usize)>::empty());
    assert(row_edges(rel, 0, 2) == seq![(0usize, 1usize)]);
    assert(row_edges(rel, 1, 2) == Seq::<(usize, usize)>::empty());
    assert(edges_of_rows(rel, 2, 1) == seq![(0usize, 1usize)]);
    assert(edges == seq![(0usize, 1usize)]);
    assert(edges.drop_last() == Seq::<(usize, usize)>::empty());
    assert(neighbors_in(edges.drop_last(), 0) == Seq::<usize>::empty());
    assert(neighbors_in(edges, 0) == seq![1usize]);
    let none = Seq::<(usize, usize)>::empty();
    assert(greedy_upto(edges, 0) == none);
    assert(!paired(none, 0));
    assert(!paired(none, 1));
    assert(first_free(seq![1usize], none) == Some(1usize));
    let one = none.push((0usize, 1usize));
    assert(greedy_upto(edges, 1) == one);
    assert(touches(one[0], 1));
    assert(paired(one, 1));
    assert(greedy_upto(edges, 2) == one);
    assert(one == seq![(0usize, 1usize)]);
}

/// Whether the positions of `s` ascend.
pub open spec fn ascending(s: Seq<usize>) -> bool {
    forall|i: int, j: int| 0 <= i < j < s.len() ==> s[i] < s[j]
}

/// Whether `rel` accepts the pair of `a` and `b`, the smaller named first.
pub open spec fn accepts(rel: spec_fn(int, int) -> bool, a: int, b: int) -> bool {
    if a < b {
        rel(a, b)
    } else {
        rel(b, a)
    }
}

proof fn lemma_neighbors_concat(x: Seq<(usize, usize)>, y: Seq<(usize, usize)>, a: usize)
    ensures
        neighbors_in(x + y, a) == neighbors_in(x, a) + neighbors_in(y, a),
    decreases y.len(),
{
    if y.len() == 0 {
        assert(x + y == x);
        assert(neighbors_in(x, a) + Seq::<usize>::empty() == neighbors_in(x, a));
    } else {
        lemma_neighbors_concat(x, y.drop_last(), a);
        assert((x + y).drop_last() == x + y.drop_last());
        assert((x + y).last() == y.last());
        let left = neighbors_in(x, a);
        let part = neighbors_in(y.drop_last(), a);
        assert(forall|v: usize| (left + part).push(v) == left + part.push(v));
    }
}

proof fn lemma_row_neighbors(rel: spec_fn(int, int) -> bool, i: int, j: int, a: usize)
    requires
        0 <= i,
        j <= usize::MAX + 1,
    ensures
        a != i ==> neighbors_in(row_edges(rel, i, j), a) == if i < a < j && rel(i, a as int) {
            seq![i as usize]
        } else {
            Seq::<usize>::empty()
        },
        a == i ==> {
            &&& ascending(neighbors_in(row_edges(rel, i, j), a))
            &&& forall|b: usize|
                neighbors_in(row_edges(rel, i, j), a).contains(b) <==> i < b < j && rel(
                    i,
                    b as int,
                )
        },
    decreases j - i,
{
    let row = row_edges(rel, i, j);
    let nbrs = neighbors_in(row, a);
    if j <= i + 1 {
        assert(nbrs == Seq::<usize>::empty());
    } else {
        let init = row_edges(rel, i, j - 1);
        let rest = neighbors_in(init, a);
        lemma_row_neighbors(rel, i, j - 1, a);
        if rel(i, j - 1) {
            let e = (i as usize, (j - 1) as usize);
            assert(row == init.push(e));
            assert(row.drop_last() == init);
            assert(row.last() == e);
            if a == i {
                assert(nbrs == rest.push((j - 1) as usize));
                assert forall|x: int, y: int| 0 <= x < y < nbrs.len() implies nbrs[x]
                    < nbrs[y] by {
                    if y == rest.len() {
                        assert(rest.contains(rest[x]));
                    }
                }
                assert forall|b: usize| nbrs.contains(b) <==> i < b < j && rel(
                    i,
                    b as int,
                ) by {
                    if nbrs.contains(b) {
                        let k = choose|k: int| 0 <= k < nbrs.len() && nbrs[k] == b;
                        if k < rest.len() {
                            assert(rest[k] == b);
                            assert(rest.contains(b));
                        }
                    }
                    if i < b < j && rel(i, b as int) {
                        if b < j - 1 {
                            assert(rest.contains(b));
                            let k = choose|k: int| 0 <= k < rest.len() && rest[k] == b;
                            assert(nbrs[k] == b);
                        } else {
                            assert(nbrs[rest.len() as int] == b);
                        }
                    }
                }
            } else if a == j - 1 {
                assert(nbrs == rest.push(i as usize));
                assert(rest == Seq::<usize>::empty());
                assert(nbrs == seq![i as usize]);
            } else {
                assert(nbrs == rest);
            }
        } else {
            assert(row == init);
        }
    }
}

proof fn lemma_rows_neighbors(rel: spec_fn(int, int) -> bool, n: nat, i: int, a: usize)
    requires
        0 <= i <= n,
        n <= usize::MAX,
        a < n,
    ensures
        ascending(neighbors_in(edges_of_rows(rel, n as int, i), a)),
        forall|b: usize|
            neighbors_in(edges_of_rows(rel, n as int, i), a).contains(b) <==> (b < a && b < i
                && rel(b as int, a as int)) || (a < i && a < b < n && rel(a as int, b as int)),
    decreases i,
{
    let all = neighbors_in(edges_of_rows(rel, n as int, i), a);
    if i <= 0 {
        assert(all == Seq::<usize>::empty());
    } else {
        let head = edges_of_rows(rel, n as int, i - 1);
        let row = row_edges(rel, i - 1, n as int);
        let left = neighbors_in(head, a);
        let right = neighbors_in(row, a);
        lemma_rows_neighbors(rel, n, i - 1, a);
        lemma_row_neighbors(rel, i - 1, n as int, a);
        lemma_neighbors_concat(head, row, a);
        assert(all == left + right);
        assert forall|b: usize| all.contains(b) <==> (b < a && b < i && rel(b as int, a as int))
            || (a < i && a < b < n && rel(a as int, b as int)) by {
            if all.contains(b) {
                let k = choose|k: int| 0 <= k < all.len() && all[k] == b;
                if k < left.len() {
                    assert(left[k] == b);
                    assert(left.contains(b));
                } else {
                    assert(right[k - left.len()] == b);
                    assert(right.contains(b));
                }
            }
            if left.contains(b) {
                let k = choose|k: int| 0 <= k < left.len() && left[k] == b;
                assert(all[k] == b);
            }
            if right.contains(b) {
                let k = choose|k: int| 0 <= k < right.len() && right[k] == b;
                assert(all[left.len() + k] == b);
            }
            if a != i - 1 && i - 1 < a && rel(i - 1, a as int) {
                assert(right[0] == (i - 1) as usize);
                assert(right.contains((i - 1) as usize));
            }
        }
        assert forall|x: int, y: int| 0 <= x < y < all.len() implies all[x] < all[y] by {
            if y < left.len() {
                assert(all[x] == left[x] && all[y] == left[y]);
            } else if x >= left.len() {
                assert(all[x] == right[x - left.len()] && all[y] == right[y - left.len()]);
            } else {
                assert(all[x] == left[x]);
                assert(all[y] == right[y - left.len()]);
                assert(left.contains(left[x]));
                assert(right.contains(right[y - left.len()]));
            }
        }
    }
}

/// In the graph of a relation the neighbours of a position come in
/// ascending order: the first free neighbour of an entry is the first
/// entry of the list that is free and compatible with it.
pub proof fn lemma_neighbors_ascend(rel: spec_fn(int, int) -> bool, n: nat, a: usize)
    requires
        n <= usize::MAX,
        a < n,
    ensures
        ascending(neighbors_in(relation_edges(rel, n), a)),
        forall|b: usize|
            neighbors_in(relation_edges(rel, n), a).contains(b) <==> b < n && b != a && accepts(
                rel,
                a as int,
                b as int,
            ),
{
    lemma_rows_neighbors(rel, n, n as int, a);
}

} // verus!
