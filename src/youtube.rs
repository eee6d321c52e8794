use crate::model::Timestamp;
use vstd::prelude::*;
use vstd::string::StringExecFns;

verus! {

/// Where the video platform's data API is served.
pub const API_BASE: &'static str = "https://www.googleapis.com/youtube/v3";

/// The envelope of every answer of the data API.
#[derive(Debug)]
pub struct Response<T> {
    pub items: Vec<T>,
}

/// One channel, as the channel endpoint describes it.
#[derive(Debug)]
pub struct ChannelResponseItem {
    pub id: String,
    pub snippet: ChannelResponseItemSnippet,
    pub statistics: ChannelResponseItemStatistics,
}

#[derive(Debug)]
pub struct ChannelResponseItemSnippet {
    pub title: String,
    pub description: String,
    pub thumbnails: ChannelResponseItemThumbnail,
    pub published_at: Timestamp,
}

#[derive(Debug)]
pub struct ChannelResponseItemThumbnail {
    pub default: ChannelResponseItemThumbnailItem,
}

#[derive(Debug)]
pub struct ChannelResponseItemThumbnailItem {
    pub url: String,
}

/// The counts of a channel, written in decimal as the API sends them.
#[derive(Debug)]
pub struct ChannelResponseItemStatistics {
    pub subscriber_count: String,
    pub video_count: String,
    pub view_count: String,
}

/// The latest activity of a channel, as the activity endpoint describes it.
#[derive(Debug)]
pub struct ActivitiesResponseItem {
    pub id: String,
    pub snippet: ActivitiesResponseItemSnippet,
}

#[derive(Debug)]
pub struct ActivitiesResponseItemSnippet {
    pub published_at: Timestamp,
}

/// The two lookups of one channel: where they are sent and with which key.
#[derive(Debug)]
pub struct Request {
    url_prefix: String,
    id: String,
    key: String,
}

impl Request {
    pub closed spec fn prefix_view(&self) -> Seq<char> {
        self.url_prefix@
    }

    pub closed spec fn id_view(&self) -> Seq<char> {
        self.id@
    }

    pub closed spec fn key_view(&self) -> Seq<char> {
        self.key@
    }

    pub fn new(id: &str, key: &str) -> (r: Self)
        ensures
            r.prefix_view() == API_BASE@,
            r.id_view() == id@,
            r.key_view() == key@,
    {
        Self { url_prefix: String::from_str(API_BASE), id: String::from_str(id), key: String::from_str(key) }
    }

    /// The address of the lookup of the channel's snippet and statistics.
    pub fn channel_url(&self) -> (r: String)
        ensures
            r@ == self.prefix_view() + "/channels?part=snippet,statistics&id="@ + self.id_view()
                + "&key="@ + self.key_view(),
    {
        let mut url = self.url_prefix.clone();
        url.append("/channels?part=snippet,statistics&id=");
        url.append(self.id.as_str());
        url.append("&key=");
        url.append(self.key.as_str());
        url
    }

    /// The address of the lookup of the channel's latest activity.
    pub fn activities_url(&self) -> (r: String)
        ensures
            r@ == self.prefix_view() + "/activities?part=snippet&channelId="@ + self.id_view()
                + "&maxResults=1&key="@ + self.key_view(),
    {
        let mut url = self.url_prefix.clone();
        url.append("/activities?part=snippet&channelId=");
        url.append(self.id.as_str());
        url.append("&maxResults=1&key=");
        url.append(self.key.as_str());
        url
    }
}

} // verus!
