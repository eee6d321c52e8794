use crate::model::{CategoryListItem, Channel, ChannelView};
use vstd::prelude::*;

verus! {

/// The sum of the subscribers of some channels.
pub open spec fn sum_subscribers(s: Seq<ChannelView>) -> int
    decreases s.len(),
{
    if s.len() == 0 {
        0
    } else {
        sum_subscribers(s.drop_last()) + s.last().subscriber_count
    }
}

/// The channels gathered under category `id`; none where it has no bucket.
pub open spec fn bucket(m: Map<Seq<char>, Seq<ChannelView>>, id: Seq<char>) -> Seq<ChannelView> {
    if m.contains_key(id) {
        m[id]
    } else {
        Seq::empty()
    }
}

/// The buckets after one more record has come in.
pub open spec fn absorbed(m: Map<Seq<char>, Seq<ChannelView>>, r: ChannelView) -> Map<
    Seq<char>,
    Seq<ChannelView>,
> {
    m.insert(r.category, bucket(m, r.category).push(r))
}

/// The buckets after a run of records has come in, one by one.
pub open spec fn absorbed_all(m: Map<Seq<char>, Seq<ChannelView>>, rs: Seq<ChannelView>) -> Map<
    Seq<char>,
    Seq<ChannelView>,
>
    decreases rs.len(),
{
    if rs.len() == 0 {
        m
    } else {
        absorbed(absorbed_all(m, rs.drop_last()), rs.last())
    }
}

/// The records of `rs` that belong to category `id`, in their order.
pub open spec fn records_in(rs: Seq<ChannelView>, id: Seq<char>) -> Seq<ChannelView>
    decreases rs.len(),
{
    if rs.len() == 0 {
        Seq::empty()
    } else if rs.last().category == id {
        records_in(rs.drop_last(), id).push(rs.last())
    } else {
        records_in(rs.drop_last(), id)
    }
}

pub open spec fn views_of(s: Seq<Channel>) -> Seq<ChannelView> {
    s.map_values(|c: Channel| c@)
}

/// However records of different categories interleave, each bucket holds
/// exactly the records of its category, in the order they came in, so its
/// total is the sum of their subscribers.
pub proof fn lemma_bucket_holds_its_records(rs: Seq<ChannelView>, id: Seq<char>)
    ensures
        bucket(absorbed_all(Map::empty(), rs), id) == records_in(rs, id),
        sum_subscribers(bucket(absorbed_all(Map::empty(), rs), id)) == sum_subscribers(
            records_in(rs, id),
        ),
    decreases rs.len(),
{
    if rs.len() > 0 {
        lemma_bucket_holds_its_records(rs.drop_last(), id);
    }
}

/// The channels of the buckets named by `ids`, bucket after bucket.
pub open spec fn concat_buckets(m: Map<Seq<char>, Seq<ChannelView>>, ids: Seq<Seq<char>>) -> Seq<
    ChannelView,
>
    decreases ids.len(),
{
    if ids.len() == 0 {
        Seq::empty()
    } else {
        concat_buckets(m, ids.drop_last()) + bucket(m, ids.last())
    }
}

/// A bucket holds a channel, and its total is the sum of its subscribers.
pub open spec fn entry_wf(e: CategoryEntry) -> bool {
    &&& e.item.channels@.len() > 0
    &&& e.item.total_subscribers == sum_subscribers(views_of(e.item.channels@))
}

/// One bucket: a category id and what was gathered under it.
#[derive(Debug)]
pub struct CategoryEntry {
    pub id: String,
    pub item: CategoryListItem,
}

/// The channels gathered so far, bucket by bucket, in the order in which
/// the buckets were opened.
#[derive(Debug)]
pub struct CategoryList {
    entries: Vec<CategoryEntry>,
}

impl View for CategoryList {
    type V = Map<Seq<char>, Seq<ChannelView>>;

    closed spec fn view(&self) -> Map<Seq<char>, Seq<ChannelView>> {
        Map::new(
            |k: Seq<char>| exists|i: int| 0 <= i < self.entries.len() && self.entries[i].id@ == k,
            |k: Seq<char>|
                views_of(
                    self.entries[choose|i: int|
                        0 <= i < self.entries.len() && self.entries[i].id@ == k].item.channels@,
                ),
        )
    }
}

impl CategoryList {
    /// Ids are distinct, every bucket holds a channel, and every total is the
    /// sum of its bucket's subscribers.
    pub closed spec fn wf(&self) -> bool {
        &&& forall|i: int, j: int|
            0 <= i < j < self.entries.len() ==> self.entries[i].id@ != self.entries[j].id@
        &&& forall|i: int|
            0 <= i < self.entries.len() ==> entry_wf(#[trigger] self.entries[i])
    }

    /// The category ids in the order in which their buckets were opened.
    pub closed spec fn order(&self) -> Seq<Seq<char>> {
        self.entries@.map_values(|e: CategoryEntry| e.id@)
    }

    /// Every bucket holds at least one channel.
    pub proof fn lemma_buckets_not_empty(&self)
        requires
            self.wf(),
        ensures
            forall|id: Seq<char>| #[trigger] self@.contains_key(id) ==> self@[id].len() > 0,
    {
        assert forall|id: Seq<char>| #[trigger] self@.contains_key(id) implies self@[id].len() > 0 by {
            let j = choose|j: int| 0 <= j < self.entries.len() && self.entries[j].id@ == id;
            self.lemma_view_at(j);
            assert(entry_wf(self.entries[j]));
        }
    }

    proof fn lemma_view_at(&self, i: int)
        requires
            self.wf(),
            0 <= i < self.entries.len(),
        ensures
            self@.contains_key(self.entries[i].id@),
            self@[self.entries[i].id@] == views_of(self.entries[i].item.channels@),
    {
        let k = self.entries[i].id@;
        assert(exists|j: int| 0 <= j < self.entries.len() && self.entries[j].id@ == k);
        let j = choose|j: int| 0 <= j < self.entries.len() && self.entries[j].id@ == k;
        assert(i == j);
    }

    pub fn new() -> (r: Self)
        ensures
            r.wf(),
            r@ == Map::<Seq<char>, Seq<ChannelView>>::empty(),
            r.order() == Seq::<Seq<char>>::empty(),
    {
        let r = CategoryList { entries: Vec::new() };
        assert(r@ =~= Map::<Seq<char>, Seq<ChannelView>>::empty());
        assert(r.order() =~= Seq::<Seq<char>>::empty());
        r
    }

    fn find(&self, id: &String) -> (r: Option<usize>)
        requires
            self.wf(),
        ensures
            match r {
                Some(i) => i < self.entries.len() && self.entries[i as int].id@ == id@,
                None => !self@.contains_key(id@),
            },
    {
        let mut i: usize = 0;
        while i < self.entries.len()
            invariant
                i <= self.entries.len(),
                forall|j: int| 0 <= j < i ==> self.entries[j].id@ != id@,
            decreases self.entries.len() - i,
        {
            if self.entries[i].id == *id {
                return Some(i);
            }
            i = i + 1;
        }
        None
    }

    /// The bucket of category `id`, where it has one.
    pub fn get(&self, id: &String) -> (r: Option<&CategoryListItem>)
        requires
            self.wf(),
        ensures
            r is Some <==> self@.contains_key(id@),
            r matches Some(item) ==> {
                &&& views_of(item.channels@) == self@[id@]
                &&& item.total_subscribers == sum_subscribers(self@[id@])
            },
    {
        match self.find(id) {
            Some(i) => {
                proof {
                    self.lemma_view_at(i as int);
                }
                Some(&self.entries[i].item)
            },
            None => None,
        }
    }

    /// The sum of the subscribers gathered under category `id`.
    pub fn total_of(&self, id: &String) -> (r: i64)
        requires
            self.wf(),
        ensures
            r == sum_subscribers(bucket(self@, id@)),
    {
        match self.get(id) {
            Some(item) => item.total_subscribers,
            None => 0,
        }
    }

    /// Copies of all gathered channels, bucket after bucket in the order in
    /// which the buckets were opened, each in the order the channels came in.
    pub fn channels(&self) -> (r: Vec<Channel>)
        requires
            self.wf(),
        ensures
            views_of(r@) == concat_buckets(self@, self.order()),
    {
        let mut out: Vec<Channel> = Vec::new();
        let mut i: usize = 0;
        while i < self.entries.len()
            invariant
                self.wf(),
                i <= self.entries.len(),
                views_of(out@) == concat_buckets(self@, self.order().take(i as int)),
            decreases self.entries.len() - i,
        {
            let channels = &self.entries[i].item.channels;
            proof {
                self.lemma_view_at(i as int);
                assert(self.order().take(i + 1).drop_last() =~= self.order().take(i as int));
                assert(self.order().take(i + 1).last() == self.entries[i as int].id@);
            }
            let ghost before = views_of(out@);
            let mut j: usize = 0;
            while j < channels.len()
                invariant
                    j <= channels.len(),
                    views_of(out@) == before + views_of(channels@).take(j as int),
                decreases channels.len() - j,
            {
                let ghost prev = out@;
                let copy = channels[j].duplicate();
                out.push(copy);
                proof {
                    assert(views_of(out@) =~= views_of(prev).push(channels@[j as int]@));
                    assert(views_of(channels@).take(j + 1) =~= views_of(channels@).take(j as int).push(
                        channels@[j as int]@));
                    assert(views_of(out@) =~= before + views_of(channels@).take(j + 1));
                }
                j = j + 1;
            }
            proof {
                assert(views_of(channels@).take(j as int) =~= views_of(channels@));
            }
            i = i + 1;
        }
        proof {
            assert(self.order().take(i as int) =~= self.order());
        }
        out
    }

    /// Adds a record to the bucket of its category, opening the bucket where
    /// there is none yet, and adds its subscribers to the bucket's total.
    pub fn absorb(&mut self, ch: Channel)
        requires
            old(self).wf(),
            sum_subscribers(bucket(old(self)@, ch.category@)) + ch.subscriber_count <= i64::MAX,
            sum_subscribers(bucket(old(self)@, ch.category@)) + ch.subscriber_count >= i64::MIN,
        ensures
            final(self).wf(),
            final(self)@ == absorbed(old(self)@, ch@),
            final(self).order() == if old(self)@.contains_key(ch@.category) {
                old(self).order()
            } else {
                old(self).order().push(ch@.category)
            },
    {
        let ghost old_self = *self;
        let ghost v = ch@;
        match self.find(&ch.category) {
            Some(i) => {
                proof {
                    old_self.lemma_view_at(i as int);
                }
                let mut entry = self.entries.remove(i);
                let ghost old_channels = views_of(entry.item.channels@);
                entry.item.total_subscribers = entry.item.total_subscribers + ch.subscriber_count as i64;
                entry.item.channels.push(ch);
                proof {
                    assert(views_of(entry.item.channels@) =~= old_channels.push(v));
                    assert(views_of(entry.item.channels@).drop_last() =~= old_channels);
                }
                self.entries.insert(i, entry);
                proof {
                    assert forall|j: int| 0 <= j < self.entries.len() && j != i implies self.entries[j]
                        == old_self.entries[j] by {}
                    assert forall|j: int| 0 <= j < self.entries.len() implies #[trigger] self.entries[j].id@
                        == old_self.entries[j].id@ by {}
                    assert(self.entries[i as int] == entry);
                    assert(sum_subscribers(views_of(entry.item.channels@)) == sum_subscribers(old_channels) + v.subscriber_count);
                    assert forall|a: int| 0 <= a < self.entries.len() implies entry_wf(
                        #[trigger] self.entries[a]) by {
                        if a != i {
                            assert(self.entries[a] == old_self.entries[a]);
                            assert(entry_wf(old_self.entries[a]));
                        }
                    }
                    assert forall|a: int, b: int| 0 <= a < b < self.entries.len() implies
                        self.entries[a].id@ != self.entries[b].id@ by {
                        assert(self.entries[a].id@ == old_self.entries[a].id@);
                        assert(self.entries[b].id@ == old_self.entries[b].id@);
                    }
                    assert(self.wf());
                    assert forall|k: Seq<char>| #[trigger]
                        self@.contains_key(k) <==> absorbed(old_self@, v).contains_key(k) by {
                        if self@.contains_key(k) {
                            let j = choose|j: int| 0 <= j < self.entries.len() && self.entries[j].id@ == k;
                            old_self.lemma_view_at(j);
                        }
                        if absorbed(old_self@, v).contains_key(k) && k != v.category {
                            let j = choose|j: int| 0 <= j < old_self.entries.len() && old_self.entries[j].id@ == k;
                            assert(self.entries[j].id@ == k);
                        }
                    }
                    assert forall|k: Seq<char>| #[trigger] self@.contains_key(k) implies self@[k]
                        == absorbed(old_self@, v)[k] by {
                        let j = choose|j: int| 0 <= j < self.entries.len() && self.entries[j].id@ == k;
                        self.lemma_view_at(j);
                        old_self.lemma_view_at(j);
                    }
                    assert(self@ =~= absorbed(old_self@, v));
                    assert(self.order() =~= old_self.order());
                }
            },
            None => {
                let id = ch.category.clone();
                let total = ch.subscriber_count as i64;
                let mut channels = Vec::new();
                channels.push(ch);
                proof {
                    assert(views_of(channels@) =~= seq![v]);
                    assert(views_of(channels@).drop_last() =~= Seq::<ChannelView>::empty());
                }
                self.entries.push(CategoryEntry { id, item: CategoryListItem { channels, total_subscribers: total } });
                proof {
                    let n = old_self.entries.len() as int;
                    assert forall|j: int| 0 <= j < n implies self.entries[j] == old_self.entries[j] by {}
                    assert forall|a: int| 0 <= a < self.entries.len() implies entry_wf(
                        #[trigger] self.entries[a]) by {
                        if a < n {
                            assert(self.entries[a] == old_self.entries[a]);
                            assert(entry_wf(old_self.entries[a]));
                        } else {
                            assert(sum_subscribers(Seq::<ChannelView>::empty()) == 0);
                        }
                    }
                    assert forall|a: int, b: int| 0 <= a < b < self.entries.len() implies
                        self.entries[a].id@ != self.entries[b].id@ by {
                        if b == n {
                            old_self.lemma_view_at(a);
                        }
                    }
                    assert(self.wf());
                    assert forall|k: Seq<char>| #[trigger]
                        self@.contains_key(k) <==> absorbed(old_self@, v).contains_key(k) by {
                        if self@.contains_key(k) && k != v.category {
                            let j = choose|j: int| 0 <= j < self.entries.len() && self.entries[j].id@ == k;
                            assert(j < n);
                        }
                        if absorbed(old_self@, v).contains_key(k) && k != v.category {
                            let j = choose|j: int| 0 <= j < n && old_self.entries[j].id@ == k;
                            assert(self.entries[j].id@ == k);
                        }
                        if k == v.category {
                            assert(self.entries[n].id@ == k);
                        }
                    }
                    assert forall|k: Seq<char>| #[trigger] self@.contains_key(k) implies self@[k]
                        == absorbed(old_self@, v)[k] by {
                        let j = choose|j: int| 0 <= j < self.entries.len() && self.entries[j].id@ == k;
                        self.lemma_view_at(j);
                        if j < n {
                            old_self.lemma_view_at(j);
                        }
                    }
                    assert(self@ =~= absorbed(old_self@, v));
                    assert(self.order() =~= old_self.order().push(v.category));
                }
            },
        }
    }
}

} // verus!
