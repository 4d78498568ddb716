//! Batches of change records: which records concern this region, and which
//! of them are reported back as failed.

use crate::text::{str_eq, views_of};
use vstd::prelude::*;
use vstd::string::*;

verus! {

/// The characters of `INSERT`.
pub open spec fn insert_name() -> Seq<char> {
    seq!['I', 'N', 'S', 'E', 'R', 'T']
}

/// The characters of `MODIFY`.
pub open spec fn modify_name() -> Seq<char> {
    seq!['M', 'O', 'D', 'I', 'F', 'Y']
}

/// Whether a change of this name puts a new image in place: an insert or a
/// modification, but no removal.
pub fn is_upsert(event_name: &str) -> (r: bool)
    ensures
        r == (event_name@ == insert_name() || event_name@ == modify_name()),
{
    proof {
        reveal_strlit("INSERT");
        reveal_strlit("MODIFY");
        assert("INSERT"@ =~= insert_name());
        assert("MODIFY"@ =~= modify_name());
    }
    str_eq(event_name, "INSERT") || str_eq(event_name, "MODIFY")
}

/// Whether a change of this name is an insert.
pub fn is_insert(event_name: &str) -> (r: bool)
    ensures
        r == (event_name@ == insert_name()),
{
    proof {
        reveal_strlit("INSERT");
        assert("INSERT"@ =~= insert_name());
    }
    str_eq(event_name, "INSERT")
}

/// Whether one of `regions` is `region`: whether a match whose players
/// enrolled in `regions` has a player of this region.
pub fn concerns_region(regions: &Vec<String>, region: &str) -> (r: bool)
    ensures
        r == views_of(regions@).contains(region@),
{
    let mut i: usize = 0;
    while i < regions.len()
        invariant
            i <= regions.len(),
            forall|k: int| 0 <= k < i ==> views_of(regions@)[k] != region@,
        decreases regions.len() - i,
    {
        if str_eq(regions[i].as_str(), region) {
            assert(views_of(regions@)[i as int] == region@);
            return true;
        }
        i = i + 1;
    }
    false
}

/// The items of `ids` that are not among `done`, in their order.
pub open spec fn without(ids: Seq<Seq<char>>, done: Seq<Seq<char>>) -> Seq<Seq<char>>
    decreases ids.len(),
{
    if ids.len() == 0 {
        Seq::empty()
    } else {
        let rest = without(ids.drop_last(), done);
        if done.contains(ids.last()) {
            rest
        } else {
            rest.push(ids.last())
        }
    }
}

/// The records of a batch that are reported as failed: those of
/// `event_ids` that are not among `succeeded`, in the order of the batch.
pub fn item_failures(event_ids: &Vec<String>, succeeded: &Vec<String>) -> (failed: Vec<String>)
    ensures
        views_of(failed@) == without(views_of(event_ids@), views_of(succeeded@)),
{
    let mut failed: Vec<String> = Vec::new();
    let mut i: usize = 0;
    assert(views_of(event_ids@).take(0) =~= Seq::<Seq<char>>::empty());
    while i < event_ids.len()
        invariant
            i <= event_ids.len(),
            views_of(failed@) == without(
                views_of(event_ids@).take(i as int),
                views_of(succeeded@),
            ),
        decreases event_ids.len() - i,
    {
        let ghost before = views_of(failed@);
        let ghost seen = views_of(event_ids@).take(i + 1);
        proof {
            assert(seen.drop_last() =~= views_of(event_ids@).take(i as int));
            assert(seen.last() == event_ids@[i as int]@);
        }
        if !concerns_region(succeeded, event_ids[i].as_str()) {
            failed.push(event_ids[i].clone());
            assert(views_of(failed@) =~= before.push(event_ids@[i as int]@));
        }
        i = i + 1;
    }
    assert(views_of(event_ids@).take(event_ids.len() as int) =~= views_of(event_ids@));
    failed
}

/// A record is reported as failed exactly when it is in the batch and not
/// among the successes.
pub proof fn lemma_without_contains(ids: Seq<Seq<char>>, done: Seq<Seq<char>>, id: Seq<char>)
    ensures
        without(ids, done).contains(id) <==> ids.contains(id) && !done.contains(id),
    decreases ids.len(),
{
    if ids.len() > 0 {
        let init = ids.drop_last();
        let rest = without(init, done);
        let all = without(ids, done);
        lemma_without_contains(init, done, id);
        if ids.contains(id) {
            let k = choose|k: int| 0 <= k < ids.len() && ids[k] == id;
            if k < init.len() {
                assert(init[k] == id);
            }
        }
        if init.contains(id) {
            let k = choose|k: int| 0 <= k < init.len() && init[k] == id;
            assert(ids[k] == id);
        }
        if rest.contains(id) && !done.contains(ids.last()) {
            let k = choose|k: int| 0 <= k < rest.len() && rest[k] == id;
            assert(all[k] == id);
        }
        if all.contains(id) && !done.contains(ids.last()) {
            let k = choose|k: int| 0 <= k < all.len() && all[k] == id;
            if k < rest.len() {
                assert(rest[k] == id);
            } else {
                assert(ids[ids.len() - 1] == id);
            }
        }
        if !done.contains(ids.last()) && ids.last() == id {
            assert(all[all.len() - 1] == id);
        }
    }
}

} // verus!
