use crate::aggregate::{sum_subscribers, views_of, CategoryList};
use crate::model::{Category, CategoryListItem, Channel, ChannelView};
use vstd::prelude::*;

verus! {

/// `p` lists each index below `n` exactly once.
pub open spec fn is_permutation(p: Seq<int>, n: int) -> bool {
    &&& p.len() == n
    &&& forall|k: int| 0 <= k < n ==> 0 <= #[trigger] p[k] < n
    &&& forall|a: int, b: int| 0 <= a < b < n ==> p[a] != p[b]
}

/// Taking positions in the order `p` gives, keys never grow, and equal keys
/// keep the order they had.
pub open spec fn stable_desc(p: Seq<int>, keys: Seq<int>) -> bool {
    forall|a: int, b: int|
        0 <= a < b < p.len() ==> keys[p[a]] > keys[p[b]] || (keys[p[a]] == keys[p[b]] && p[a] < p[b])
}

/// `out` is `orig` rearranged by `p`, which sorts `keys` stably from the
/// largest down.
pub open spec fn arranged_by<T>(orig: Seq<T>, keys: Seq<int>, out: Seq<T>, p: Seq<int>) -> bool {
    &&& keys.len() == orig.len()
    &&& is_permutation(p, orig.len() as int)
    &&& stable_desc(p, keys)
    &&& out.len() == orig.len()
    &&& forall|k: int| 0 <= k < out.len() ==> out[k] == orig[#[trigger] p[k]]
}

/// `out` is `orig` sorted stably by `keys` from the largest down.
pub open spec fn stably_ranked<T>(orig: Seq<T>, keys: Seq<int>, out: Seq<T>) -> bool {
    exists|p: Seq<int>| arranged_by(orig, keys, out, p)
}

pub open spec fn subscriber_counts(s: Seq<ChannelView>) -> Seq<int> {
    s.map_values(|c: ChannelView| c.subscriber_count)
}

pub open spec fn keys_of(s: Seq<i64>) -> Seq<int> {
    s.map_values(|k: i64| k as int)
}

/// Sorts `v` stably by `keys`, largest first, moving each key with its item.
fn sort_stable_desc<T>(v: &mut Vec<T>, keys: &mut Vec<i64>) -> (p: Ghost<Seq<int>>)
    requires
        old(v).len() == old(keys).len(),
    ensures
        arranged_by(old(v)@, keys_of(old(keys)@), final(v)@, p@),
        arranged_by(keys_of(old(keys)@), keys_of(old(keys)@), keys_of(final(keys)@), p@),
{
    let ghost ov = v@;
    let ghost ok = keys_of(keys@);
    let n = v.len();
    let ghost mut p: Seq<int> = Seq::empty();
    let mut i: usize = 0;
    while i < n
        invariant
            n == v.len() == keys.len() == ov.len() == ok.len(),
            i <= n,
            p.len() == i,
            forall|k: int| 0 <= k < i ==> 0 <= #[trigger] p[k] < i,
            forall|a: int, b: int| 0 <= a < b < i ==> p[a] != p[b],
            forall|k: int| 0 <= k < i ==> v@[k] == ov[#[trigger] p[k]] && keys@[k] as int == ok[p[k]],
            forall|k: int| i <= k < n ==> v@[k] == ov[k],
            forall|k: int| i <= k < n ==> keys@[k] as int == ok[k],
            stable_desc(p, ok),
        decreases n - i,
    {
        let x = keys[i];
        let mut pos: usize = 0;
        while pos < i && keys[pos] >= x
            invariant
                pos <= i < n == keys.len(),
                forall|k: int| 0 <= k < pos ==> keys@[k] >= x,
            decreases i - pos,
        {
            pos = pos + 1;
        }
        proof {
            // the sorted part is ordered, so everything from `pos` on is below `x`
            assert forall|k: int| pos <= k < i implies keys@[k] < x by {
                if k > pos {
                    assert(ok[p[pos as int]] >= ok[p[k]]);
                }
            }
        }
        let ghost pv = v@;
        let ghost pk = keys@;
        let item = v.remove(i);
        v.insert(pos, item);
        let key = keys.remove(i);
        keys.insert(pos, key);
        let ghost old_p = p;
        proof {
            p = old_p.insert(pos as int, i as int);
            assert forall|a: int, b: int| 0 <= a < b < p.len() implies ok[p[a]] > ok[p[b]] || (
            ok[p[a]] == ok[p[b]] && p[a] < p[b]) by {
                if a < pos && b < pos {
                } else if a < pos && b == pos {
                } else if a < pos && b > pos {
                    assert(p[b] == old_p[b - 1]);
                } else if a == pos {
                    assert(p[b] == old_p[b - 1]);
                } else {
                    assert(p[a] == old_p[a - 1]);
                    assert(p[b] == old_p[b - 1]);
                }
            }
            assert forall|a: int, b: int| 0 <= a < b < i + 1 implies p[a] != p[b] by {
                if a < pos && b > pos {
                    assert(p[b] == old_p[b - 1]);
                } else if a > pos {
                    assert(p[a] == old_p[a - 1]);
                    assert(p[b] == old_p[b - 1]);
                } else if a == pos {
                    assert(p[b] == old_p[b - 1]);
                }
            }
            assert forall|k: int| 0 <= k < i + 1 implies 0 <= #[trigger] p[k] < i + 1 by {
                if k > pos {
                    assert(p[k] == old_p[k - 1]);
                }
            }
            assert forall|k: int| 0 <= k < i + 1 implies v@[k] == ov[#[trigger] p[k]] && keys@[k] as int
                == ok[p[k]] by {
                if k > pos {
                    assert(p[k] == old_p[k - 1]);
                }
            }
            assert forall|k: int| i + 1 <= k < n implies v@[k] == ov[k] && keys@[k] as int
                == ok[k] by {
                assert(v@[k] == pv[k]);
                assert(keys@[k] == pk[k]);
            }
        }
        i = i + 1;
    }
    proof {
        assert forall|k: int| 0 <= k < n implies keys_of(keys@)[k] == ok[#[trigger] p[k]] by {}
    }
    Ghost(p)
}

/// A category with what was gathered under it, ready to be listed.
#[derive(Debug)]
pub struct RankedCategory {
    pub category: Category,
    pub item: CategoryListItem,
}

/// A configured category that has a bucket: its id, its title and its
/// channels in the order in which they came in.
pub ghost struct Populated {
    pub id: Seq<char>,
    pub title: Seq<char>,
    pub channels: Seq<ChannelView>,
}

/// The categories of `cats` that have a bucket in `m`, in the order of `cats`.
pub open spec fn populated(cats: Seq<Category>, m: Map<Seq<char>, Seq<ChannelView>>) -> Seq<
    Populated,
>
    decreases cats.len(),
{
    if cats.len() == 0 {
        Seq::empty()
    } else {
        let rest = populated(cats.drop_last(), m);
        let c = cats.last();
        if m.contains_key(c.id@) {
            rest.push(Populated { id: c.id@, title: c.title@, channels: m[c.id@] })
        } else {
            rest
        }
    }
}

pub open spec fn totals(s: Seq<Populated>) -> Seq<int> {
    s.map_values(|e: Populated| sum_subscribers(e.channels))
}

/// `r` lists category `e`: its id and title, its total on both the category
/// and the bucket, and its channels ranked by subscribers.
pub open spec fn lists(e: Populated, r: RankedCategory) -> bool {
    &&& r.category.id@ == e.id
    &&& r.category.title@ == e.title
    &&& r.category.total_subscribers == sum_subscribers(e.channels)
    &&& r.item.total_subscribers == sum_subscribers(e.channels)
    &&& stably_ranked(e.channels, subscriber_counts(e.channels), views_of(r.item.channels@))
}

/// `out` lists the categories of `pop` in the order `p`, which ranks them
/// stably by total.
pub open spec fn ranked_by(pop: Seq<Populated>, out: Seq<RankedCategory>, p: Seq<int>) -> bool {
    &&& is_permutation(p, pop.len() as int)
    &&& stable_desc(p, totals(pop))
    &&& out.len() == pop.len()
    &&& forall|k: int| 0 <= k < out.len() ==> lists(pop[#[trigger] p[k]], out[k])
}

proof fn lemma_arranged_views(orig: Seq<Channel>, keys: Seq<int>, out: Seq<Channel>, p: Seq<int>)
    requires
        arranged_by(orig, keys, out, p),
    ensures
        arranged_by(views_of(orig), keys, views_of(out), p),
{
    assert forall|k: int| 0 <= k < out.len() implies views_of(out)[k] == views_of(orig)[
        #[trigger] p[k]] by {}
}

/// Copies the channels of a bucket and ranks them by subscribers.
fn ranked_channels(channels: &Vec<Channel>) -> (r: Vec<Channel>)
    ensures
        stably_ranked(
            views_of(channels@),
            subscriber_counts(views_of(channels@)),
            views_of(r@),
        ),
{
    let mut out: Vec<Channel> = Vec::new();
    let mut keys: Vec<i64> = Vec::new();
    let mut j: usize = 0;
    while j < channels.len()
        invariant
            j <= channels.len(),
            out.len() == j,
            keys.len() == j,
            forall|k: int| 0 <= k < j ==> #[trigger] out@[k]@ == channels@[k]@,
            forall|k: int| 0 <= k < j ==> #[trigger] keys@[k] == channels@[k].subscriber_count,
        decreases channels.len() - j,
    {
        out.push(channels[j].duplicate());
        keys.push(channels[j].subscriber_count as i64);
        j = j + 1;
    }
    let ghost copied = out@;
    let ghost ck = keys_of(keys@);
    let p = sort_stable_desc(&mut out, &mut keys);
    proof {
        lemma_arranged_views(copied, ck, out@, p@);
        assert(views_of(copied) =~= views_of(channels@));
        assert(ck =~= subscriber_counts(views_of(channels@)));
    }
    out
}

/// Ranks the configured categories that have a bucket by their totals, from
/// the largest down, keeping the configured order where totals are equal;
/// within each, ranks the channels by subscribers in the same way, keeping
/// the order in which they came in where counts are equal. Categories
/// without a bucket are left out.
pub fn rank(categories: &Vec<Category>, list: &CategoryList) -> (r: Vec<RankedCategory>)
    requires
        list.wf(),
    ensures
        exists|p: Seq<int>| ranked_by(populated(categories@, list@), r@, p),
{
    let mut items: Vec<RankedCategory> = Vec::new();
    let mut keys: Vec<i64> = Vec::new();
    let mut i: usize = 0;
    while i < categories.len()
        invariant
            i <= categories.len(),
            list.wf(),
            items.len() == keys.len() == populated(categories@.take(i as int), list@).len(),
            forall|k: int|
                0 <= k < items.len() ==> lists(
                    populated(categories@.take(i as int), list@)[k],
                    #[trigger] items@[k],
                ),
            forall|k: int|
                0 <= k < items.len() ==> #[trigger] keys@[k] == items@[k].item.total_subscribers,
        decreases categories.len() - i,
    {
        let c = &categories[i];
        proof {
            assert(categories@.take(i + 1).drop_last() =~= categories@.take(i as int));
        }
        match list.get(&c.id) {
            Some(bucket) => {
                let channels = ranked_channels(&bucket.channels);
                let total = bucket.total_subscribers;
                let ranked = RankedCategory {
                    category: Category { id: c.id.clone(), title: c.title.clone(), total_subscribers: total },
                    item: CategoryListItem { channels, total_subscribers: total },
                };
                items.push(ranked);
                keys.push(total);
            },
            None => {},
        }
        i = i + 1;
    }
    proof {
        assert(categories@.take(categories.len() as int) =~= categories@);
    }
    let ghost pop = populated(categories@, list@);
    let ghost unsorted = items@;
    let ghost uk = keys_of(keys@);
    let p = sort_stable_desc(&mut items, &mut keys);
    proof {
        assert(uk =~= totals(pop));
        assert forall|k: int| 0 <= k < items.len() implies lists(pop[#[trigger] p@[k]], items@[k]) by {
            assert(items@[k] == unsorted[p@[k]]);
        }
        assert(ranked_by(pop, items@, p@));
    }
    items
}

proof fn lemma_populated_from(cats: Seq<Category>, m: Map<Seq<char>, Seq<ChannelView>>, k: int)
    requires
        0 <= k < populated(cats, m).len(),
    ensures
        m.contains_key(populated(cats, m)[k].id),
        populated(cats, m)[k].channels == m[populated(cats, m)[k].id],
    decreases cats.len(),
{
    if cats.len() > 0 {
        let rest = populated(cats.drop_last(), m);
        if k < rest.len() {
            lemma_populated_from(cats.drop_last(), m, k);
        }
    }
}

/// Ties keep their order: of two listed categories with equal totals, the
/// one that comes first among the configured categories comes first; of two
/// channels of a category with equal subscriber counts, the one that came in
/// first comes first.
pub proof fn lemma_ranking_is_stable(
    pop: Seq<Populated>,
    out: Seq<RankedCategory>,
    p: Seq<int>,
    a: int,
    b: int,
)
    requires
        ranked_by(pop, out, p),
        0 <= a < b < out.len(),
        out[a].category.total_subscribers == out[b].category.total_subscribers,
    ensures
        p[a] < p[b],
{
    assert(lists(pop[p[a]], out[a]));
    assert(lists(pop[p[b]], out[b]));
}

/// See `lemma_ranking_is_stable`: the same holds within a bucket.
pub proof fn lemma_channel_ranking_is_stable(
    orig: Seq<ChannelView>,
    out: Seq<ChannelView>,
    q: Seq<int>,
    a: int,
    b: int,
)
    requires
        arranged_by(orig, subscriber_counts(orig), out, q),
        0 <= a < b < out.len(),
        out[a].subscriber_count == out[b].subscriber_count,
    ensures
        q[a] < q[b],
{
    assert(out[a] == orig[q[a]]);
    assert(out[b] == orig[q[b]]);
}

/// A category under which no channel was gathered is never listed, even
/// where it is configured; every listed category holds at least one channel.
pub proof fn lemma_empty_categories_not_listed(
    categories: Seq<Category>,
    list: CategoryList,
    out: Seq<RankedCategory>,
    p: Seq<int>,
    id: Seq<char>,
)
    requires
        list.wf(),
        ranked_by(populated(categories, list@), out, p),
        !list@.contains_key(id),
    ensures
        forall|k: int| 0 <= k < out.len() ==> (#[trigger] out[k]).category.id@ != id,
        forall|k: int| 0 <= k < out.len() ==> (#[trigger] out[k]).item.channels@.len() > 0,
{
    let pop = populated(categories, list@);
    list.lemma_buckets_not_empty();
    assert forall|k: int| 0 <= k < out.len() implies (#[trigger] out[k]).category.id@ != id
        && out[k].item.channels@.len() > 0 by {
        assert(lists(pop[p[k]], out[k]));
        lemma_populated_from(categories, list@, p[k]);
        let e = pop[p[k]];
        assert(list@.contains_key(e.id));
        let q = choose|q: Seq<int>|
            arranged_by(e.channels, subscriber_counts(e.channels), views_of(out[k].item.channels@), q);
        assert(views_of(out[k].item.channels@).len() == e.channels.len());
    }
}

} // verus!
