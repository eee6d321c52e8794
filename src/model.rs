use crate::count::{count_value, parse_count};
use crate::youtube::{ActivitiesResponseItem, ChannelResponseItem, Response};
use vstd::prelude::*;
use vstd::string::StringExecFns;

verus! {

/// Fewest subscribers that a listed channel has.
pub const MIN_SUBSCRIBERS: i32 = 10;

/// Fewest videos that a listed channel has.
pub const MIN_VIDEOS: i32 = 5;

/// Where a channel's page is, before its id.
pub const CHANNEL_LINK_PREFIX: &'static str = "https://www.youtube.com/channel/";

/// An instant in UTC: seconds since 1970-01-01T00:00:00Z and the nanoseconds
/// within that second.
#[derive(Clone, Copy, Debug, PartialEq, Eq, Structural)]
pub struct Timestamp {
    pub secs: i64,
    pub nanos: u32,
}

/// A category of channels; `total_subscribers` is filled in by ranking.
#[derive(Debug)]
pub struct Category {
    pub id: String,
    pub title: String,
    pub total_subscribers: i64,
}

/// A channel: in the channel list only `id`, `name` and `category` are set;
/// a listed record has every field.
#[derive(Debug)]
pub struct Channel {
    pub id: String,
    pub name: String,
    pub category: String,
    pub title: String,
    pub description: String,
    pub thumbnail: String,
    pub link: String,
    pub subscriber_count: i32,
    pub video_count: i32,
    pub created_at: Option<Timestamp>,
    pub updated_at: Option<Timestamp>,
}

pub ghost struct ChannelView {
    pub id: Seq<char>,
    pub name: Seq<char>,
    pub category: Seq<char>,
    pub title: Seq<char>,
    pub description: Seq<char>,
    pub thumbnail: Seq<char>,
    pub link: Seq<char>,
    pub subscriber_count: int,
    pub video_count: int,
    pub created_at: Option<Timestamp>,
    pub updated_at: Option<Timestamp>,
}

impl View for Channel {
    type V = ChannelView;

    open spec fn view(&self) -> ChannelView {
        ChannelView {
            id: self.id@,
            name: self.name@,
            category: self.category@,
            title: self.title@,
            description: self.description@,
            thumbnail: self.thumbnail@,
            link: self.link@,
            subscriber_count: self.subscriber_count as int,
            video_count: self.video_count as int,
            created_at: self.created_at,
            updated_at: self.updated_at,
        }
    }
}

/// The channels of one category and the sum of their subscribers.
#[derive(Debug)]
pub struct CategoryListItem {
    pub channels: Vec<Channel>,
    pub total_subscribers: i64,
}

/// Why a channel is left out of the listing.
#[derive(Debug)]
pub enum ChannelError {
    /// A lookup could not be sent or its answer could not be read.
    Fetch(String),
    /// The statistics lookup found no channel.
    NotFound,
    /// A count in the statistics is no decimal number that fits.
    InvalidCount,
    /// Too few subscribers or too few videos.
    Ineligible,
    /// The activity lookup found nothing.
    NoActivity,
    /// Adding the channel would overflow its category's total.
    TotalOverflow,
}

/// Whether a channel with these counts is popular enough to be listed.
pub open spec fn admitted(subscriber_count: int, video_count: int) -> bool {
    subscriber_count >= MIN_SUBSCRIBERS && video_count >= MIN_VIDEOS
}

pub fn is_eligible(subscriber_count: i32, video_count: i32) -> (r: bool)
    ensures
        r == admitted(subscriber_count as int, video_count as int),
{
    subscriber_count >= MIN_SUBSCRIBERS && video_count >= MIN_VIDEOS
}

pub open spec fn link_of(id: Seq<char>) -> Seq<char> {
    CHANNEL_LINK_PREFIX@ + id
}

/// What the statistics lookup makes of a channel: its record with everything
/// but the listing's name, category and latest activity, or why it is left out.
pub open spec fn statistics_outcome(res: Response<ChannelResponseItem>) -> Result<
    ChannelView,
    ChannelError,
> {
    if res.items.len() == 0 {
        Err(ChannelError::NotFound)
    } else {
        let item = res.items[0];
        let subs = count_value(item.statistics.subscriber_count@);
        let videos = count_value(item.statistics.video_count@);
        if subs is None || videos is None {
            Err(ChannelError::InvalidCount)
        } else if !admitted(subs->0 as int, videos->0 as int) {
            Err(ChannelError::Ineligible)
        } else {
            Ok(
                ChannelView {
                    id: item.id@,
                    name: Seq::empty(),
                    category: Seq::empty(),
                    title: item.snippet.title@,
                    description: item.snippet.description@,
                    thumbnail: item.snippet.thumbnails.default.url@,
                    link: link_of(item.id@),
                    subscriber_count: subs->0 as int,
                    video_count: videos->0 as int,
                    created_at: Some(item.snippet.published_at),
                    updated_at: None,
                },
            )
        }
    }
}

/// The record that the activity lookup completes, with the listing's name and
/// category, or why it is left out.
pub open spec fn activity_outcome(
    partial: ChannelView,
    listed: ChannelView,
    res: Response<ActivitiesResponseItem>,
) -> Result<ChannelView, ChannelError> {
    if res.items.len() == 0 {
        Err(ChannelError::NoActivity)
    } else {
        Ok(
            ChannelView {
                name: listed.name,
                category: listed.category,
                updated_at: Some(res.items[0].snippet.published_at),
                ..partial
            },
        )
    }
}

/// An outcome of building a record, seen through the record's view.
pub open spec fn agrees(r: Result<Channel, ChannelError>, s: Result<ChannelView, ChannelError>) -> bool {
    match (r, s) {
        (Ok(ch), Ok(v)) => ch@ == v,
        (Err(e), Err(f)) => e == f,
        _ => false,
    }
}

impl Channel {
    /// Builds a record from the statistics lookup. Parses both counts and
    /// keeps the channel only where it is eligible.
    pub fn try_from(res: Response<ChannelResponseItem>) -> (r: Result<Channel, ChannelError>)
        ensures
            agrees(r, statistics_outcome(res)),
    {
        let ghost res0 = res;
        let mut items = res.items;
        if items.len() == 0 {
            return Err(ChannelError::NotFound);
        }
        let item = items.swap_remove(0);
        assert(item == res0.items[0]);
        let subscriber_count = match parse_count(item.statistics.subscriber_count.as_str()) {
            Some(v) => v,
            None => return Err(ChannelError::InvalidCount),
        };
        let video_count = match parse_count(item.statistics.video_count.as_str()) {
            Some(v) => v,
            None => return Err(ChannelError::InvalidCount),
        };
        if !is_eligible(subscriber_count, video_count) {
            return Err(ChannelError::Ineligible);
        }
        let mut link = String::from_str(CHANNEL_LINK_PREFIX);
        link.append(item.id.as_str());
        let snippet = item.snippet;
        Ok(
            Channel {
                id: item.id,
                name: String::new(),
                category: String::new(),
                title: snippet.title,
                description: snippet.description,
                thumbnail: snippet.thumbnails.default.url,
                link,
                subscriber_count,
                video_count,
                created_at: Some(snippet.published_at),
                updated_at: None,
            },
        )
    }

    /// Completes a record with its latest activity and with the name and
    /// category that the channel list gives it.
    pub fn with_activity(self, listed: &Channel, res: Response<ActivitiesResponseItem>) -> (r: Result<
        Channel,
        ChannelError,
    >)
        ensures
            agrees(r, activity_outcome(self@, listed@, res)),
    {
        if res.items.len() == 0 {
            return Err(ChannelError::NoActivity);
        }
        let published_at = res.items[0].snippet.published_at;
        let mut ch = self;
        ch.updated_at = Some(published_at);
        ch.name = listed.name.clone();
        ch.category = listed.category.clone();
        Ok(ch)
    }

    /// A field-by-field copy.
    pub fn duplicate(&self) -> (r: Channel)
        ensures
            r@ == self@,
    {
        Channel {
            id: self.id.clone(),
            name: self.name.clone(),
            category: self.category.clone(),
            title: self.title.clone(),
            description: self.description.clone(),
            thumbnail: self.thumbnail.clone(),
            link: self.link.clone(),
            subscriber_count: self.subscriber_count,
            video_count: self.video_count,
            created_at: self.created_at,
            updated_at: self.updated_at,
        }
    }
}

} // verus!
