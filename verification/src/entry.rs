//! Queue entries, match groups and the match identifier.

use crate::text::{
    join, join_with, lemma_lex_le_total, lemma_lex_le_transitive, lemma_lex_order_is_total_ordering,
    lex_le, lex_order, str_le, views_of,
};
use vstd::prelude::*;
use vstd::seq_lib::*;
use vstd::string::*;

verus! {

/// Something that has a textual identifier.
pub trait Identifiable {
    /// The identifier, as a character sequence.
    spec fn id_spec(&self) -> Seq<char>;

    /// The identifier.
    fn id(&self) -> (s: String)
        ensures
            s@ == self.id_spec(),
    ;
}

/// A participant's ticket in the queue. Where the participant is, the
/// ticket does not say here: the caller keeps the coordinates, and tells
/// the matching which entries are within range of each other.
#[derive(Debug, Clone, PartialEq, Eq)]
pub struct QueueEntry {
    /// The participant, unique in the queue.
    pub user: String,
    /// The network address the participant enrolled from.
    pub ip: String,
    /// The region the participant enrolled in.
    pub region: String,
    /// The skill rating.
    pub mmr: i64,
    /// When the participant joined, in seconds.
    pub join_time: i64,
    /// The queue the ticket belongs to.
    pub queue: String,
    /// How many cycles went by without a match.
    pub wait_count: i64,
}

impl QueueEntry {
    /// A copy of the entry.
    pub fn duplicate(&self) -> (out: QueueEntry)
        ensures
            out == *self,
    {
        QueueEntry {
            user: self.user.clone(),
            ip: self.ip.clone(),
            region: self.region.clone(),
            mmr: self.mmr,
            join_time: self.join_time,
            queue: self.queue.clone(),
            wait_count: self.wait_count,
        }
    }
}

impl Identifiable for QueueEntry {
    open spec fn id_spec(&self) -> Seq<char> {
        self.user@
    }

    fn id(&self) -> (s: String) {
        self.user.clone()
    }
}

/// The entries proposed as one match, in the order in which they were found.
#[derive(Debug, Clone, PartialEq, Eq)]
pub struct MatchGroup {
    /// The members of the group.
    pub players: Vec<QueueEntry>,
}

impl MatchGroup {
    /// The identifier of the group: see `match_id`.
    pub fn id(&self) -> (s: String)
        ensures
            s@ == match_id_of(ids_of(self.players@)),
    {
        match_id(&self.players)
    }
}

/// What stands between two identifiers in a match identifier.
pub open spec fn id_separator() -> Seq<char> {
    seq![':', ':']
}

/// The identifiers of `players`, in their order.
pub open spec fn ids_of<T: Identifiable>(players: Seq<T>) -> Seq<Seq<char>> {
    Seq::new(players.len(), |i: int| players[i].id_spec())
}

/// The match identifier of a list of identifiers: the identifiers in
/// lexicographic order, joined by `::`.
pub open spec fn match_id_of(ids: Seq<Seq<char>>) -> Seq<char> {
    join_with(ids.sort_by(lex_order()), id_separator())
}

/// The match identifier does not depend on the order of the identifiers:
/// two lists that hold the same identifiers, each as often as the other,
/// have the same match identifier.
pub proof fn lemma_match_id_ignores_order(x: Seq<Seq<char>>, y: Seq<Seq<char>>)
    requires
        x.to_multiset() == y.to_multiset(),
    ensures
        match_id_of(x) == match_id_of(y),
{
    lemma_lex_order_is_total_ordering();
    x.lemma_sort_by_ensures(lex_order());
    y.lemma_sort_by_ensures(lex_order());
    lemma_sorted_unique(x.sort_by(lex_order()), y.sort_by(lex_order()), lex_order());
}

/// The match identifier of a pair is the same whichever member comes first.
pub proof fn lemma_match_id_symmetric(a: Seq<char>, b: Seq<char>)
    ensures
        match_id_of(seq![a, b]) == match_id_of(seq![b, a]),
{
    assert(seq![a, b] =~= seq![a] + seq![b]);
    assert(seq![b, a] =~= seq![b] + seq![a]);
    lemma_seq_union_to_multiset_commutative(seq![a], seq![b]);
    lemma_match_id_ignores_order(seq![a, b], seq![b, a]);
}

/// The match identifier of a pair: the smaller identifier, `::`, the other.
pub proof fn lemma_match_id_of_pair(a: Seq<char>, b: Seq<char>)
    ensures
        match_id_of(seq![a, b]) == if lex_le(a, b) {
            a + id_separator() + b
        } else {
            b + id_separator() + a
        },
{
    lemma_lex_order_is_total_ordering();
    let lo = if lex_le(a, b) { a } else { b };
    let hi = if lex_le(a, b) { b } else { a };
    let want = seq![lo, hi];
    let got = seq![a, b].sort_by(lex_order());
    seq![a, b].lemma_sort_by_ensures(lex_order());
    lemma_lex_le_total(a, b);
    assert(vstd::relations::sorted_by(want, lex_order())) by {
        assert forall|i: int, j: int| 0 <= i < j < want.len() implies #[trigger] lex_order()(
            want[i],
            want[j],
        ) by {
            assert(i == 0 && j == 1);
        }
    }
    lemma_match_id_symmetric(a, b);
    if lex_le(a, b) {
        assert(want =~= seq![a, b]);
    } else {
        assert(want =~= seq![b, a]);
        seq![b, a].lemma_sort_by_ensures(lex_order());
        assert(seq![a, b] =~= seq![a] + seq![b]);
        assert(seq![b, a] =~= seq![b] + seq![a]);
        lemma_seq_union_to_multiset_commutative(seq![a], seq![b]);
    }
    lemma_sorted_unique(got, want, lex_order());
    assert(want.drop_last() =~= seq![lo]);
    assert(join_with(seq![lo], id_separator()) == lo);
}

/// The match identifier of `players`: their identifiers in lexicographic
/// order, joined by `::`.
pub fn match_id<T: Identifiable>(players: &Vec<T>) -> (id: String)
    ensures
        id@ == match_id_of(ids_of(players@)),
{
    let ghost ids = ids_of(players@);
    let mut sorted: Vec<String> = Vec::new();
    let mut i: usize = 0;
    proof {
        lemma_lex_order_is_total_ordering();
        assert(views_of(sorted@) =~= ids.take(0));
    }
    while i < players.len()
        invariant
            i <= players.len(),
            ids == ids_of(players@),
            vstd::relations::total_ordering(lex_order()),
            vstd::relations::sorted_by(views_of(sorted@), lex_order()),
            views_of(sorted@).to_multiset() == ids.take(i as int).to_multiset(),
        decreases players.len() - i,
    {
        let s = players[i].id();
        let mut p: usize = 0;
        while p < sorted.len() && str_le(sorted[p].as_str(), s.as_str())
            invariant
                p <= sorted.len(),
                forall|q: int| 0 <= q < p ==> lex_le(#[trigger] views_of(sorted@)[q], s@),
            decreases sorted.len() - p,
        {
            p = p + 1;
        }
        let ghost before = views_of(sorted@);
        sorted.insert(p, s);
        proof {
            let after = views_of(sorted@);
            assert(after =~= before.insert(p as int, s@));
            to_multiset_insert(before, p as int, s@);
            assert(ids.take(i + 1) =~= ids.take(i as int).push(s@));
            to_multiset_build(ids.take(i as int), s@);
            assert forall|x: int, y: int| 0 <= x < y < after.len() implies #[trigger] lex_order()(
                after[x],
                after[y],
            ) by {
                if y < p {
                    assert(lex_order()(before[x], before[y]));
                } else if y == p {
                    assert(lex_le(before[x], s@));
                } else if x == p {
                    let first = before[p as int];
                    assert(!lex_le(first, s@));
                    lemma_lex_le_total(first, s@);
                    if y - 1 > p {
                        assert(lex_order()(first, before[y - 1]));
                        lemma_lex_le_transitive(s@, first, before[y - 1]);
                    }
                } else if x < p {
                    assert(lex_order()(before[x], before[y - 1]));
                } else {
                    assert(lex_order()(before[x - 1], before[y - 1]));
                }
            }
        }
        i = i + 1;
    }
    proof {
        assert(ids.take(players.len() as int) =~= ids);
        ids.lemma_sort_by_ensures(lex_order());
        lemma_sorted_unique(views_of(sorted@), ids.sort_by(lex_order()), lex_order());
        reveal_strlit("::");
        assert("::"@ =~= id_separator());
    }
    join(&sorted, "::")
}

} // verus!
