use channel_digest::model::{Category, Channel, CategoryListItem, Timestamp};
use channel_digest::rank::RankedCategory;
use channel_digest::render::{
    decimal_text, generate_readme, generate_table, is_recently_active, render_row, toc_anchor,
    toc_entry,
};

// 2023-03-21T00:00:00Z, the first day of the Persian year 1402
const NOWRUZ_1402: i64 = 1_679_356_800;
const DAY: i64 = 86_400;

fn record(id: &str, subscribers: i32, videos: i32, updated: Option<Timestamp>) -> Channel {
    Channel {
        id: id.to_string(),
        name: id.to_uppercase(),
        category: "c1".to_string(),
        title: format!("T{}", id),
        description: format!("  about {}\n", id),
        thumbnail: format!("img/{}", id),
        link: format!("https://www.youtube.com/channel/{}", id),
        subscriber_count: subscribers,
        video_count: videos,
        created_at: Some(Timestamp { secs: 0, nanos: 0 }),
        updated_at: updated,
    }
}

fn expected_row(id: &str, subs: &str, videos: &str, mood: &str, date: &str) -> String {
    format!(
        "<tr><td style=\"text-align: center; padding: 5px; vertical-align: top;\">\
<img src=\"img/{id}\" alt=\"T{id}\"/><br/><span title=\"تعداد اعضا\">:thumbsup:<span> {subs}<br/>\
<span title=\"تعداد ویدیو\">:arrow_forward:<span> {videos}<br/>\
<span title=\"آخرین فعالیت\">:{mood}:<span> {date}</td>\
<td style=\"vertical-align: top; padding: 5px;\"><a href=\"https://www.youtube.com/channel/{id}\">:link: <b>T{id}</b></a><br/>about {id}</td></tr>"
    )
}

#[test]
fn decimal_text_values() {
    assert_eq!(decimal_text(0), "0");
    assert_eq!(decimal_text(7), "7");
    assert_eq!(decimal_text(150), "150");
    assert_eq!(decimal_text(-42), "-42");
    assert_eq!(decimal_text(i32::MAX), "2147483647");
    assert_eq!(decimal_text(i32::MIN), "-2147483648");
}

#[test]
fn recently_active_boundary() {
    let now = Timestamp { secs: NOWRUZ_1402, nanos: 0 };
    assert!(is_recently_active(Timestamp { secs: NOWRUZ_1402 - 179 * DAY, nanos: 0 }, now));
    assert!(is_recently_active(Timestamp { secs: NOWRUZ_1402 - 180 * DAY, nanos: 1 }, now));
    assert!(!is_recently_active(Timestamp { secs: NOWRUZ_1402 - 180 * DAY, nanos: 0 }, now));
    assert!(!is_recently_active(Timestamp { secs: NOWRUZ_1402 - 400 * DAY, nanos: 0 }, now));
}

#[test]
fn anchors_and_toc() {
    assert_eq!(toc_anchor("Web Design"), "Web-Design");
    assert_eq!(toc_anchor("برنامه\u{200c}نویسی وب"), "برنامهنویسی-وب");
    assert_eq!(toc_anchor(""), "");
    assert_eq!(toc_entry("Web Design"), "- [Web Design](#Web-Design)\n");
}

#[test]
fn row_of_active_channel() {
    let now = Timestamp { secs: NOWRUZ_1402 + 10 * DAY, nanos: 0 };
    let ch = record("a", 1234, 56, Some(Timestamp { secs: NOWRUZ_1402 + 3600, nanos: 0 }));
    let row = render_row(&ch, now).unwrap();
    assert_eq!(row, expected_row("a", "۱۲۳۴", "۵۶", "blush", "۱۴۰۲/۰۱/۰۱"));
}

#[test]
fn row_of_idle_channel() {
    let now = Timestamp { secs: NOWRUZ_1402 + 400 * DAY, nanos: 0 };
    let ch = record("b", 10, 5, Some(Timestamp { secs: NOWRUZ_1402, nanos: 0 }));
    let row = render_row(&ch, now).unwrap();
    assert_eq!(row, expected_row("b", "۱۰", "۵", "unamused", "۱۴۰۲/۰۱/۰۱"));
}

#[test]
fn row_with_unwritable_date() {
    let now = Timestamp { secs: NOWRUZ_1402, nanos: 0 };
    let far = Timestamp { secs: i64::MAX, nanos: 0 };
    assert!(render_row(&record("c", 10, 5, Some(far)), now).is_none());
    // 1096-01-01 lies before the first year whose dates are written
    let early = Timestamp { secs: -27_580_780_800, nanos: 0 };
    assert!(render_row(&record("c", 10, 5, Some(early)), now).is_none());
    // 1097-01-01 is the first day that is written
    let first = Timestamp { secs: -27_549_158_400, nanos: 0 };
    assert!(render_row(&record("c", 10, 5, Some(first)), now).is_some());
}

#[test]
fn table_of_category() {
    let now = Timestamp { secs: NOWRUZ_1402, nanos: 0 };
    let at = Some(Timestamp { secs: NOWRUZ_1402, nanos: 0 });
    let chs = vec![record("a", 100, 10, at), record("b", 50, 10, at)];
    let table = generate_table("Tech", &chs, now).unwrap();
    let expected = format!(
        "## Tech\n<table><tbody>{}{}</tbody></table>\n\n",
        expected_row("a", "۱۰۰", "۱۰", "blush", "۱۴۰۲/۰۱/۰۱"),
        expected_row("b", "۵۰", "۱۰", "blush", "۱۴۰۲/۰۱/۰۱")
    );
    assert_eq!(table, expected);
    assert_eq!(generate_table("Empty", &vec![], now).unwrap(), "## Empty\n<table><tbody></tbody></table>\n\n");
}

#[test]
fn readme_fills_template() {
    let now = Timestamp { secs: NOWRUZ_1402, nanos: 0 };
    let at = Some(Timestamp { secs: NOWRUZ_1402, nanos: 0 });
    let ranked = vec![RankedCategory {
        category: Category { id: "c1".to_string(), title: "Web Tech".to_string(), total_subscribers: 100 },
        item: CategoryListItem { channels: vec![record("a", 100, 10, at)], total_subscribers: 100 },
    }];
    let doc = generate_readme(&ranked, "# List\n{TOC}\n---\n{TABLES}end", now).unwrap();
    let table = generate_table("Web Tech", &ranked[0].item.channels, now).unwrap();
    assert_eq!(doc, format!("# List\n- [Web Tech](#Web-Tech)\n\n---\n{}end", table));
    let empty = generate_readme(&vec![], "{TOC}|{TABLES}", now).unwrap();
    assert_eq!(empty, "|");
}
