use channel_digest::aggregate::CategoryList;
use channel_digest::count::parse_count;
use channel_digest::model::{is_eligible, Category, Channel, ChannelError, Timestamp};
use channel_digest::pipeline::{after_activity, after_statistics, gather, Lookup};
use channel_digest::rank::rank;
use channel_digest::render::generate_readme;
use channel_digest::youtube::{
    ActivitiesResponseItem, ActivitiesResponseItemSnippet, ChannelResponseItem,
    ChannelResponseItemSnippet, ChannelResponseItemStatistics, ChannelResponseItemThumbnail,
    ChannelResponseItemThumbnailItem, Request, Response,
};

fn listed(id: &str, name: &str, category: &str) -> Channel {
    Channel {
        id: id.to_string(),
        name: name.to_string(),
        category: category.to_string(),
        title: String::new(),
        description: String::new(),
        thumbnail: String::new(),
        link: String::new(),
        subscriber_count: 0,
        video_count: 0,
        created_at: None,
        updated_at: None,
    }
}

fn stats(id: &str, subscribers: &str, videos: &str) -> Response<ChannelResponseItem> {
    Response {
        items: vec![ChannelResponseItem {
            id: id.to_string(),
            snippet: ChannelResponseItemSnippet {
                title: format!("{} title", id),
                description: format!("{} description", id),
                thumbnails: ChannelResponseItemThumbnail {
                    default: ChannelResponseItemThumbnailItem { url: format!("https://img/{}", id) },
                },
                published_at: Timestamp { secs: 1_000, nanos: 0 },
            },
            statistics: ChannelResponseItemStatistics {
                subscriber_count: subscribers.to_string(),
                video_count: videos.to_string(),
                view_count: "0".to_string(),
            },
        }],
    }
}

fn activity(id: &str, secs: i64) -> Response<ActivitiesResponseItem> {
    Response {
        items: vec![ActivitiesResponseItem {
            id: id.to_string(),
            snippet: ActivitiesResponseItemSnippet { published_at: Timestamp { secs, nanos: 0 } },
        }],
    }
}

fn lookup(id: &str, subscribers: &str, videos: &str) -> Lookup {
    Lookup { statistics: Ok(stats(id, subscribers, videos)), activity: Ok(activity(id, 2_000)) }
}

fn category(id: &str, title: &str) -> Category {
    Category { id: id.to_string(), title: title.to_string(), total_subscribers: 0 }
}

#[test]
fn eligibility_thresholds() {
    assert!(!is_eligible(9, 100));
    assert!(!is_eligible(100, 4));
    assert!(!is_eligible(9, 4));
    assert!(is_eligible(10, 5));
    assert!(is_eligible(11, 6));
}

#[test]
fn parse_count_values() {
    assert_eq!(parse_count("0"), Some(0));
    assert_eq!(parse_count("150"), Some(150));
    assert_eq!(parse_count("+7"), Some(7));
    assert_eq!(parse_count("-7"), Some(-7));
    assert_eq!(parse_count("2147483647"), Some(i32::MAX));
    assert_eq!(parse_count("-2147483648"), Some(i32::MIN));
    assert_eq!(parse_count("2147483648"), None);
    assert_eq!(parse_count("99999999999"), None);
    assert_eq!(parse_count(""), None);
    assert_eq!(parse_count("-"), None);
    assert_eq!(parse_count("12a"), None);
    assert_eq!(parse_count(" 12"), None);
}

#[test]
fn record_built_from_statistics() {
    let ch = Channel::try_from(stats("a", "100", "10")).unwrap();
    assert_eq!(ch.id, "a");
    assert_eq!(ch.link, "https://www.youtube.com/channel/a");
    assert_eq!(ch.subscriber_count, 100);
    assert_eq!(ch.video_count, 10);
    assert_eq!(ch.title, "a title");
    assert_eq!(ch.thumbnail, "https://img/a");
    assert_eq!(ch.created_at, Some(Timestamp { secs: 1_000, nanos: 0 }));
    assert_eq!(ch.updated_at, None);
}

#[test]
fn statistics_errors() {
    assert!(matches!(Channel::try_from(Response { items: vec![] }), Err(ChannelError::NotFound)));
    assert!(matches!(Channel::try_from(stats("a", "many", "10")), Err(ChannelError::InvalidCount)));
    assert!(matches!(Channel::try_from(stats("a", "100", "")), Err(ChannelError::InvalidCount)));
    assert!(matches!(Channel::try_from(stats("a", "9", "10")), Err(ChannelError::Ineligible)));
    assert!(matches!(Channel::try_from(stats("a", "10", "4")), Err(ChannelError::Ineligible)));
    assert!(Channel::try_from(stats("a", "10", "5")).is_ok());
    assert!(matches!(after_statistics(Err("timeout".to_string())), Err(ChannelError::Fetch(e)) if e == "timeout"));
}

#[test]
fn activity_completes_record() {
    let mut list = CategoryList::new();
    let partial = after_statistics(Ok(stats("a", "100", "10"))).unwrap();
    let r = after_activity(&mut list, partial, &listed("a", "Alice", "c1"), Ok(activity("a", 5_000)));
    assert!(r.is_ok());
    let item = list.get(&"c1".to_string()).unwrap();
    assert_eq!(item.channels.len(), 1);
    assert_eq!(item.channels[0].name, "Alice");
    assert_eq!(item.channels[0].category, "c1");
    assert_eq!(item.channels[0].updated_at, Some(Timestamp { secs: 5_000, nanos: 0 }));
    assert_eq!(item.total_subscribers, 100);
}

#[test]
fn activity_errors() {
    let mut list = CategoryList::new();
    let partial = after_statistics(Ok(stats("a", "100", "10"))).unwrap();
    let r = after_activity(&mut list, partial, &listed("a", "Alice", "c1"), Ok(Response { items: vec![] }));
    assert!(matches!(r, Err(ChannelError::NoActivity)));
    let partial = after_statistics(Ok(stats("a", "100", "10"))).unwrap();
    let r = after_activity(&mut list, partial, &listed("a", "Alice", "c1"), Err("refused".to_string()));
    assert!(matches!(r, Err(ChannelError::Fetch(_))));
    assert!(list.get(&"c1".to_string()).is_none());
    assert_eq!(list.total_of(&"c1".to_string()), 0);
}

#[test]
fn totals_follow_interleaved_categories() {
    let configs = vec![
        listed("a", "A", "c1"),
        listed("b", "B", "c2"),
        listed("c", "C", "c1"),
        listed("d", "D", "c2"),
        listed("e", "E", "c1"),
    ];
    let lookups = vec![
        lookup("a", "10", "5"),
        lookup("b", "20", "5"),
        lookup("c", "30", "5"),
        lookup("d", "40", "5"),
        lookup("e", "50", "5"),
    ];
    let list = gather(&configs, lookups);
    assert_eq!(list.total_of(&"c1".to_string()), 90);
    assert_eq!(list.total_of(&"c2".to_string()), 60);
    let c1 = list.get(&"c1".to_string()).unwrap();
    let ids: Vec<&str> = c1.channels.iter().map(|c| c.id.as_str()).collect();
    assert_eq!(ids, vec!["a", "c", "e"]);
}

#[test]
fn end_to_end_two_channels() {
    let categories = vec![category("c1", "Tech")];
    let configs = vec![listed("a", "A", "c1"), listed("b", "B", "c1")];
    let lookups = vec![lookup("a", "100", "10"), lookup("b", "50", "10")];
    let list = gather(&configs, lookups);
    assert_eq!(list.total_of(&"c1".to_string()), 150);
    let ranked = rank(&categories, &list);
    assert_eq!(ranked.len(), 1);
    assert_eq!(ranked[0].category.id, "c1");
    assert_eq!(ranked[0].category.title, "Tech");
    assert_eq!(ranked[0].category.total_subscribers, 150);
    assert_eq!(ranked[0].item.total_subscribers, 150);
    let ids: Vec<&str> = ranked[0].item.channels.iter().map(|c| c.id.as_str()).collect();
    assert_eq!(ids, vec!["a", "b"]);
}

#[test]
fn end_to_end_below_threshold_absent() {
    let categories = vec![category("c1", "Tech"), category("c2", "Games")];
    let configs = vec![listed("x", "X", "c2"), listed("a", "A", "c1")];
    let lookups = vec![lookup("x", "5", "10"), lookup("a", "100", "10")];
    let list = gather(&configs, lookups);
    assert!(list.get(&"c2".to_string()).is_none());
    let ranked = rank(&categories, &list);
    assert_eq!(ranked.len(), 1);
    assert_eq!(ranked[0].category.id, "c1");
    assert!(ranked.iter().all(|r| r.item.channels.iter().all(|c| c.id != "x")));
    let all = list.channels();
    assert_eq!(all.len(), 1);
    assert_eq!(all[0].id, "a");
    let doc = generate_readme(&ranked, "{TOC}{TABLES}", Timestamp { secs: 3_000, nanos: 0 }).unwrap();
    assert!(doc.starts_with("- [Tech](#Tech)\n## Tech"));
    assert!(!doc.contains("Games"));
    assert!(!doc.contains("channel/x"));
}

#[test]
fn unknown_channel_left_out() {
    let configs = vec![listed("a", "A", "c1"), listed("z", "Z", "c1")];
    let lookups = vec![
        lookup("a", "100", "10"),
        Lookup { statistics: Ok(Response { items: vec![] }), activity: Ok(activity("z", 1)) },
    ];
    let list = gather(&configs, lookups);
    assert_eq!(list.total_of(&"c1".to_string()), 100);
    assert_eq!(list.get(&"c1".to_string()).unwrap().channels.len(), 1);
}

#[test]
fn inactive_channel_left_out() {
    let configs = vec![listed("a", "A", "c1"), listed("z", "Z", "c1")];
    let lookups = vec![
        lookup("a", "100", "10"),
        Lookup { statistics: Ok(stats("z", "500", "50")), activity: Ok(Response { items: vec![] }) },
    ];
    let list = gather(&configs, lookups);
    assert_eq!(list.total_of(&"c1".to_string()), 100);
    assert_eq!(list.get(&"c1".to_string()).unwrap().channels.len(), 1);
}

#[test]
fn failed_lookups_skip_and_continue() {
    let configs = vec![listed("a", "A", "c1"), listed("b", "B", "c1"), listed("c", "C", "c1")];
    let lookups = vec![
        Lookup { statistics: Err("dns".to_string()), activity: Ok(activity("a", 1)) },
        Lookup { statistics: Ok(stats("b", "100", "10")), activity: Err("reset".to_string()) },
        lookup("c", "30", "10"),
    ];
    let list = gather(&configs, lookups);
    assert_eq!(list.total_of(&"c1".to_string()), 30);
}

#[test]
fn ranking_is_stable() {
    let categories = vec![category("c1", "One"), category("c2", "Two"), category("c3", "Three"), category("c4", "Four")];
    let configs = vec![
        listed("a", "A", "c3"),
        listed("b", "B", "c1"),
        listed("c", "C", "c2"),
        listed("d", "D", "c2"),
        listed("e", "E", "c2"),
    ];
    let lookups = vec![
        lookup("a", "60", "5"),
        lookup("b", "60", "5"),
        lookup("c", "20", "5"),
        lookup("d", "40", "5"),
        lookup("e", "20", "5"),
    ];
    let list = gather(&configs, lookups);
    let ranked = rank(&categories, &list);
    let ids: Vec<&str> = ranked.iter().map(|r| r.category.id.as_str()).collect();
    // c2 = 80 first; c1 and c3 tie at 60 and keep the configured order; c4 has no bucket
    assert_eq!(ids, vec!["c2", "c1", "c3"]);
    let c2: Vec<&str> = ranked[0].item.channels.iter().map(|c| c.id.as_str()).collect();
    assert_eq!(c2, vec!["d", "c", "e"]);
}

#[test]
fn urls_of_request() {
    let req = Request::new("UC1", "k3y");
    assert_eq!(
        req.channel_url(),
        "https://www.googleapis.com/youtube/v3/channels?part=snippet,statistics&id=UC1&key=k3y"
    );
    assert_eq!(
        req.activities_url(),
        "https://www.googleapis.com/youtube/v3/activities?part=snippet&channelId=UC1&maxResults=1&key=k3y"
    );
}
