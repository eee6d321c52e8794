use crate::aggregate::{absorbed, bucket, sum_subscribers, CategoryList};
use crate::model::{
    activity_outcome, agrees, statistics_outcome, Channel, ChannelError, ChannelView,
};
use crate::youtube::{ActivitiesResponseItem, ChannelResponseItem, Response};
use vstd::prelude::*;

verus! {

/// What the two lookups of one channel answered; an `Err` holds why the
/// lookup failed.
#[derive(Debug)]
pub struct Lookup {
    pub statistics: Result<Response<ChannelResponseItem>, String>,
    pub activity: Result<Response<ActivitiesResponseItem>, String>,
}

/// What the statistics lookup makes of a channel, a failed lookup included.
pub open spec fn fetched_statistics(res: Result<Response<ChannelResponseItem>, String>) -> Result<
    ChannelView,
    ChannelError,
> {
    match res {
        Ok(r) => statistics_outcome(r),
        Err(e) => Err(ChannelError::Fetch(e)),
    }
}

/// What the activity lookup makes of a partial record, a failed lookup
/// included.
pub open spec fn fetched_activity(
    partial: ChannelView,
    listed: ChannelView,
    res: Result<Response<ActivitiesResponseItem>, String>,
) -> Result<ChannelView, ChannelError> {
    match res {
        Ok(r) => activity_outcome(partial, listed, r),
        Err(e) => Err(ChannelError::Fetch(e)),
    }
}

/// The record that both lookups make of the listed channel, or why it is
/// left out. The activity is consulted only for a channel that passed the
/// statistics step.
pub open spec fn channel_outcome(listed: ChannelView, l: Lookup) -> Result<ChannelView, ChannelError> {
    match fetched_statistics(l.statistics) {
        Ok(partial) => fetched_activity(partial, listed, l.activity),
        Err(e) => Err(e),
    }
}

/// Whether a record's subscribers can be added to its category's total.
pub open spec fn fits(m: Map<Seq<char>, Seq<ChannelView>>, r: ChannelView) -> bool {
    i64::MIN <= sum_subscribers(bucket(m, r.category)) + r.subscriber_count <= i64::MAX
}

/// The buckets after a record, or a reason to leave a channel out, has come in.
pub open spec fn taken_in(
    m: Map<Seq<char>, Seq<ChannelView>>,
    outcome: Result<ChannelView, ChannelError>,
) -> Map<Seq<char>, Seq<ChannelView>> {
    match outcome {
        Ok(r) => if fits(m, r) {
            absorbed(m, r)
        } else {
            m
        },
        Err(_) => m,
    }
}

/// The buckets after the listed channels have been looked up one by one.
pub open spec fn gathered(listed: Seq<ChannelView>, lookups: Seq<Lookup>) -> Map<
    Seq<char>,
    Seq<ChannelView>,
>
    decreases lookups.len(),
{
    if lookups.len() == 0 || listed.len() == 0 {
        Map::empty()
    } else {
        taken_in(
            gathered(listed.drop_last(), lookups.drop_last()),
            channel_outcome(listed.last(), lookups.last()),
        )
    }
}

/// First step for one channel: reads its statistics lookup. An `Ok` is a
/// partial record, and the activity lookup comes next.
pub fn after_statistics(res: Result<Response<ChannelResponseItem>, String>) -> (r: Result<
    Channel,
    ChannelError,
>)
    ensures
        agrees(r, fetched_statistics(res)),
{
    match res {
        Ok(response) => Channel::try_from(response),
        Err(e) => Err(ChannelError::Fetch(e)),
    }
}

/// Second step for one channel: reads its activity lookup, completes the
/// record with the listing's name and category, and adds it to its bucket.
/// `Ok` says that the record was added.
pub fn after_activity(
    list: &mut CategoryList,
    partial: Channel,
    listed: &Channel,
    res: Result<Response<ActivitiesResponseItem>, String>,
) -> (r: Result<(), ChannelError>)
    requires
        old(list).wf(),
    ensures
        final(list).wf(),
        final(list)@ == taken_in(old(list)@, fetched_activity(partial@, listed@, res)),
        r is Ok <==> (fetched_activity(partial@, listed@, res) matches Ok(v) && fits(
            old(list)@,
            v,
        )),
        r matches Err(e) ==> match fetched_activity(partial@, listed@, res) {
            Ok(_) => e == ChannelError::TotalOverflow,
            Err(f) => e == f,
        },
{
    let ch = match res {
        Ok(response) => partial.with_activity(listed, response),
        Err(e) => Err(ChannelError::Fetch(e)),
    };
    match ch {
        Ok(ch) => {
            let total = list.total_of(&ch.category);
            let count = ch.subscriber_count as i64;
            if (count >= 0 && total > i64::MAX - count) || (count < 0 && total < i64::MIN - count) {
                return Err(ChannelError::TotalOverflow);
            }
            list.absorb(ch);
            Ok(())
        },
        Err(e) => Err(e),
    }
}

/// Runs both steps over every listed channel, in order, with lookups that
/// were made beforehand (`lookups[i]` belongs to `listed[i]`).
pub fn gather(listed: &Vec<Channel>, lookups: Vec<Lookup>) -> (r: CategoryList)
    requires
        listed.len() == lookups.len(),
    ensures
        r.wf(),
        r@ == gathered(listed@.map_values(|c: Channel| c@), lookups@),
{
    let ghost all = lookups@;
    let ghost views = listed@.map_values(|c: Channel| c@);
    let mut lookups = lookups;
    let mut list = CategoryList::new();
    let mut i: usize = 0;
    while i < listed.len()
        invariant
            i <= listed.len() == all.len(),
            lookups@ == all.skip(i as int),
            views == listed@.map_values(|c: Channel| c@),
            list.wf(),
            list@ == gathered(views.take(i as int), all.take(i as int)),
        decreases listed.len() - i,
    {
        let lookup = lookups.remove(0);
        proof {
            assert(lookup == all[i as int]);
            assert(lookups@ =~= all.skip(i + 1));
            assert(views.take(i + 1).drop_last() =~= views.take(i as int));
            assert(all.take(i + 1).drop_last() =~= all.take(i as int));
        }
        let Lookup { statistics, activity } = lookup;
        match after_statistics(statistics) {
            Ok(partial) => {
                let _ = after_activity(&mut list, partial, &listed[i], activity);
            },
            Err(_) => {},
        }
        i = i + 1;
    }
    proof {
        assert(views.take(i as int) =~= views);
        assert(all.take(i as int) =~= all);
    }
    list
}

/// A channel that ends up left out, for whatever reason, changes no bucket:
/// the buckets are those of the same run without it.
pub proof fn lemma_left_out_changes_nothing(listed: Seq<ChannelView>, lookups: Seq<Lookup>, i: int)
    requires
        listed.len() == lookups.len(),
        0 <= i < lookups.len(),
        channel_outcome(listed[i], lookups[i]) is Err,
    ensures
        gathered(listed, lookups) == gathered(listed.remove(i), lookups.remove(i)),
    decreases lookups.len(),
{
    let n = lookups.len() - 1;
    if i == n {
        assert(listed.remove(i) =~= listed.drop_last());
        assert(lookups.remove(i) =~= lookups.drop_last());
    } else {
        lemma_left_out_changes_nothing(listed.drop_last(), lookups.drop_last(), i);
        assert(listed.remove(i).drop_last() =~= listed.drop_last().remove(i));
        assert(lookups.remove(i).drop_last() =~= lookups.drop_last().remove(i));
        assert(listed.remove(i).last() == listed.last());
        assert(lookups.remove(i).last() == lookups.last());
    }
}

/// A channel whose statistics lookup finds no channel is in no bucket and
/// adds to no total: the buckets are those of the same run without it.
pub proof fn lemma_unknown_channel_left_out(listed: Seq<ChannelView>, lookups: Seq<Lookup>, i: int)
    requires
        listed.len() == lookups.len(),
        0 <= i < lookups.len(),
        lookups[i].statistics matches Ok(res) && res.items.len() == 0,
    ensures
        gathered(listed, lookups) == gathered(listed.remove(i), lookups.remove(i)),
{
    lemma_left_out_changes_nothing(listed, lookups, i);
}

/// A channel that passes the statistics step but whose activity lookup
/// finds nothing is in no bucket and adds to no total.
pub proof fn lemma_inactive_channel_left_out(listed: Seq<ChannelView>, lookups: Seq<Lookup>, i: int)
    requires
        listed.len() == lookups.len(),
        0 <= i < lookups.len(),
        fetched_statistics(lookups[i].statistics) is Ok,
        lookups[i].activity matches Ok(res) && res.items.len() == 0,
    ensures
        gathered(listed, lookups) == gathered(listed.remove(i), lookups.remove(i)),
{
    lemma_left_out_changes_nothing(listed, lookups, i);
}

/// A channel with too few subscribers or videos is in no bucket and adds to
/// no total, so neither it nor a category that only it would fill is listed:
/// the buckets are those of the same run without it.
pub proof fn lemma_ineligible_channel_left_out(listed: Seq<ChannelView>, lookups: Seq<Lookup>, i: int)
    requires
        listed.len() == lookups.len(),
        0 <= i < lookups.len(),
        lookups[i].statistics matches Ok(res) && statistics_outcome(res) == Err::<
            ChannelView,
            ChannelError,
        >(ChannelError::Ineligible),
    ensures
        gathered(listed, lookups) == gathered(listed.remove(i), lookups.remove(i)),
{
    lemma_left_out_changes_nothing(listed, lookups, i);
}

} // verus!
