use crate::aggregate::views_of;
use crate::model::{Channel, ChannelView, Timestamp};
use crate::rank::RankedCategory;
use chrono::Datelike;
use vstd::prelude::*;
use vstd::string::{StrSliceExecFns, StringExecFns};

verus! {

/// What `{TOC}` in the document template is replaced with.
pub const TOC_MARK: &'static str = "{TOC}";

/// What `{TABLES}` in the document template is replaced with.
pub const TABLES_MARK: &'static str = "{TABLES}";

/// How long a channel counts as active after its latest activity: 180 days.
pub const ACTIVE_SECS: i64 = 15552000;

pub const ROW_START: &'static str = "<tr><td style=\"text-align: center; padding: 5px; vertical-align: top;\"><img src=\"";
pub const ROW_ALT: &'static str = "\" alt=\"";
pub const ROW_SUBSCRIBERS: &'static str = "\"/><br/><span title=\"تعداد اعضا\">:thumbsup:<span> ";
pub const ROW_VIDEOS: &'static str = "<br/><span title=\"تعداد ویدیو\">:arrow_forward:<span> ";
pub const ROW_MOOD: &'static str = "<br/><span title=\"آخرین فعالیت\">:";
pub const ROW_DATE: &'static str = ":<span> ";
pub const ROW_LINK: &'static str = "</td><td style=\"vertical-align: top; padding: 5px;\"><a href=\"";
pub const ROW_TITLE: &'static str = "\">:link: <b>";
pub const ROW_DESCRIPTION: &'static str = "</b></a><br/>";
pub const ROW_END: &'static str = "</td></tr>";
pub const TABLE_START: &'static str = "## ";
pub const TABLE_BODY: &'static str = "\n<table><tbody>";
pub const TABLE_END: &'static str = "</tbody></table>\n\n";
pub const MOOD_ACTIVE: &'static str = "blush";
pub const MOOD_IDLE: &'static str = "unamused";

/// The UTC calendar date (year, month, day) of an instant, where chrono can
/// represent it.
pub uninterp spec fn civil_date_of(secs: i64, nanos: u32) -> Option<(int, int, int)>;

/// The Persian calendar date of a Gregorian one (month counted from 0),
/// written in `format` as ptime writes it, where ptime accepts the date.
pub uninterp spec fn persian_date_of(year: int, month0: int, day: int, format: Seq<char>) -> Option<
    Seq<char>,
>;

/// How the date of the latest activity is written, in ptime's notation.
pub const DATE_FORMAT: &'static str = "yyyy/MM/dd";

/// The first Gregorian year from which on ptime converts every valid date
/// without panicking: its day count starts at 1 Farvardin 475, in March 1096.
pub const FIRST_DATE_YEAR: i32 = 1097;

/// The last Gregorian year whose dates are written.
pub const LAST_DATE_YEAR: i32 = 9999;

/// `s` without leading and trailing white space.
pub uninterp spec fn trimmed(s: Seq<char>) -> Seq<char>;

/// `s` with every occurrence of `from` replaced by `to`.
pub uninterp spec fn replaced(s: Seq<char>, from: Seq<char>, to: Seq<char>) -> Seq<char>;

/// Relies on chrono's `DateTime::from_timestamp` and `Datelike`'s `year`,
/// `month` and `day`: the UTC date of an instant, `None` where it is out of
/// chrono's range; months run from 1 to 12 and days from 1 to 31.
#[verifier::external_body]
fn utc_date(ts: Timestamp) -> (r: Option<(i32, u32, u32)>)
    ensures
        r matches Some((y, m, d)) ==> civil_date_of(ts.secs, ts.nanos) == Some(
            (y as int, m as int, d as int),
        ) && 1 <= m <= 12 && 1 <= d <= 31,
        r is None ==> civil_date_of(ts.secs, ts.nanos) is None,
{
    match chrono::DateTime::from_timestamp(ts.secs, ts.nanos) {
        Some(t) => Some((t.year(), t.month(), t.day())),
        None => None,
    }
}

/// Relies on ptime's `from_gregorian_date` and `Tm::to_string`: the Persian
/// date of a Gregorian date (month counted from 0) written in `format`, `None`
/// where ptime finds the date invalid. Before March 1096 ptime's day count
/// goes negative and it indexes out of bounds; years from 1097 to 9999 stay
/// clear of that and of overflow in its `i32` arithmetic.
#[verifier::external_body]
fn persian_date(year: i32, month0: i32, day: i32, format: &str) -> (r: Option<String>)
    requires
        FIRST_DATE_YEAR <= year <= LAST_DATE_YEAR,
        0 <= month0 <= 11,
        1 <= day <= 31,
    ensures
        r matches Some(s) ==> persian_date_of(year as int, month0 as int, day as int, format@)
            == Some(s@),
        r is None ==> persian_date_of(year as int, month0 as int, day as int, format@) is None,
{
    match ptime::from_gregorian_date(year, month0, day) {
        Some(t) => Some(t.to_string(format)),
        None => None,
    }
}

/// The Persian form of an ASCII digit; any other character is kept.
pub open spec fn persian_digit(c: char) -> char {
    if c == '0' { '۰' }
    else if c == '1' { '۱' }
    else if c == '2' { '۲' }
    else if c == '3' { '۳' }
    else if c == '4' { '۴' }
    else if c == '5' { '۵' }
    else if c == '6' { '۶' }
    else if c == '7' { '۷' }
    else if c == '8' { '۸' }
    else if c == '9' { '۹' }
    else { c }
}

pub open spec fn persian_digits(s: Seq<char>) -> Seq<char> {
    s.map_values(|c: char| persian_digit(c))
}

/// Relies on persian's `english_to_persian_digits`: each ASCII digit becomes
/// the Persian digit of the same value; other characters stay as they are.
#[verifier::external_body]
fn to_persian_digits(s: &str) -> (r: String)
    ensures
        r@ == persian_digits(s@),
{
    persian::english_to_persian_digits(s)
}

/// Relies on `str::trim`: the text without leading and trailing white space.
#[verifier::external_body]
fn trim(s: &str) -> (r: &str)
    ensures
        r@ == trimmed(s@),
{
    s.trim()
}

/// Relies on `str::replace`: every occurrence of `from` replaced by `to`.
#[verifier::external_body]
fn replace(s: &str, from: &str, to: &str) -> (r: String)
    ensures
        r@ == replaced(s@, from@, to@),
{
    s.replace(from, to)
}

pub open spec fn digit_char(d: int) -> char {
    if d == 0 { '0' }
    else if d == 1 { '1' }
    else if d == 2 { '2' }
    else if d == 3 { '3' }
    else if d == 4 { '4' }
    else if d == 5 { '5' }
    else if d == 6 { '6' }
    else if d == 7 { '7' }
    else if d == 8 { '8' }
    else { '9' }
}

/// The decimal digits of `n`, without leading zeros.
pub open spec fn digits_of(n: nat) -> Seq<char>
    decreases n,
{
    if n < 10 {
        seq![digit_char(n as int)]
    } else {
        digits_of(n / 10).push(digit_char(n as int % 10))
    }
}

/// `n` in decimal, with a leading `-` where it is negative.
pub open spec fn decimal_of(n: int) -> Seq<char> {
    if n < 0 {
        seq!['-'] + digits_of((-n) as nat)
    } else {
        digits_of(n as nat)
    }
}

fn digit_str(d: u32) -> (r: &'static str)
    requires
        d < 10,
    ensures
        r@ == seq![digit_char(d as int)],
{
    proof {
        reveal_strlit("0");
        reveal_strlit("1");
        reveal_strlit("2");
        reveal_strlit("3");
        reveal_strlit("4");
        reveal_strlit("5");
        reveal_strlit("6");
        reveal_strlit("7");
        reveal_strlit("8");
        reveal_strlit("9");
    }
    if d == 0 { "0" }
    else if d == 1 { "1" }
    else if d == 2 { "2" }
    else if d == 3 { "3" }
    else if d == 4 { "4" }
    else if d == 5 { "5" }
    else if d == 6 { "6" }
    else if d == 7 { "7" }
    else if d == 8 { "8" }
    else { "9" }
}

fn push_digits(out: &mut String, n: u32)
    ensures
        final(out)@ == old(out)@ + digits_of(n as nat),
    decreases n,
{
    if n >= 10 {
        push_digits(out, n / 10);
        out.append(digit_str(n % 10));
        proof {
            assert(digits_of(n as nat) == digits_of((n / 10) as nat).push(digit_char(n as int % 10)));
        }
    } else {
        out.append(digit_str(n));
    }
}

/// Writes `n` in decimal.
pub fn decimal_text(n: i32) -> (r: String)
    ensures
        r@ == decimal_of(n as int),
{
    proof {
        reveal_strlit("-");
    }
    let mut out = String::new();
    if n < 0 {
        out.append("-");
        let m: u32 = if n == i32::MIN { 2147483648u32 } else { (-n) as u32 };
        push_digits(&mut out, m);
    } else {
        push_digits(&mut out, n as u32);
    }
    out
}

/// Nanoseconds since 1970-01-01T00:00:00Z.
pub open spec fn instant(t: Timestamp) -> int {
    t.secs * 1_000_000_000 + t.nanos
}

/// Whether the latest activity lies within the last 180 days before `now`.
pub open spec fn recently_active(updated: Timestamp, now: Timestamp) -> bool {
    instant(updated) > instant(now) - ACTIVE_SECS * 1_000_000_000
}

pub fn is_recently_active(updated: Timestamp, now: Timestamp) -> (r: bool)
    ensures
        r == recently_active(updated, now),
{
    let u = updated.secs as i128 * 1_000_000_000 + updated.nanos as i128;
    let t = (now.secs as i128 - ACTIVE_SECS as i128) * 1_000_000_000 + now.nanos as i128;
    u > t
}

pub open spec fn mood(updated: Timestamp, now: Timestamp) -> Seq<char> {
    if recently_active(updated, now) {
        MOOD_ACTIVE@
    } else {
        MOOD_IDLE@
    }
}

/// The date of the latest activity, in the Persian calendar, where it can be
/// written.
pub open spec fn activity_date(updated: Timestamp) -> Option<Seq<char>> {
    match civil_date_of(updated.secs, updated.nanos) {
        Some((y, m, d)) => if FIRST_DATE_YEAR <= y <= LAST_DATE_YEAR && 1 <= m <= 12 && 1 <= d
            <= 31 {
            persian_date_of(y, m - 1, d, DATE_FORMAT@)
        } else {
            None
        },
        None => None,
    }
}

/// The table row of one channel, where its latest activity has a date that
/// can be written.
pub open spec fn row_of(ch: ChannelView, now: Timestamp) -> Option<Seq<char>> {
    match ch.updated_at {
        Some(updated) => match activity_date(updated) {
            Some(date) => Some(
                ROW_START@ + ch.thumbnail + ROW_ALT@ + ch.title + ROW_SUBSCRIBERS@ + persian_digits(
                    decimal_of(ch.subscriber_count),
                ) + ROW_VIDEOS@ + persian_digits(decimal_of(ch.video_count)) + ROW_MOOD@ + mood(
                    updated,
                    now,
                ) + ROW_DATE@ + persian_digits(date) + ROW_LINK@ + ch.link + ROW_TITLE@ + ch.title
                    + ROW_DESCRIPTION@ + trimmed(ch.description) + ROW_END@,
            ),
            None => None,
        },
        None => None,
    }
}

/// The rows of some channels, one after another.
pub open spec fn rows_of(chs: Seq<ChannelView>, now: Timestamp) -> Option<Seq<char>>
    decreases chs.len(),
{
    if chs.len() == 0 {
        Some(Seq::empty())
    } else {
        match (rows_of(chs.drop_last(), now), row_of(chs.last(), now)) {
            (Some(rows), Some(row)) => Some(rows + row),
            _ => None,
        }
    }
}

/// The table of one category.
pub open spec fn table_of(title: Seq<char>, chs: Seq<ChannelView>, now: Timestamp) -> Option<
    Seq<char>,
> {
    match rows_of(chs, now) {
        Some(rows) => Some(TABLE_START@ + title + TABLE_BODY@ + rows + TABLE_END@),
        None => None,
    }
}

/// Renders the row of one channel; `None` where the date of its latest
/// activity cannot be written.
pub fn render_row(ch: &Channel, now: Timestamp) -> (r: Option<String>)
    requires
        ch.updated_at is Some,
    ensures
        r matches Some(s) ==> row_of(ch@, now) == Some(s@),
        r is None ==> row_of(ch@, now) is None,
{
    let updated = ch.updated_at.unwrap();
    let (y, m, d) = match utc_date(updated) {
        Some(date) => date,
        None => return None,
    };
    if !(FIRST_DATE_YEAR <= y && y <= LAST_DATE_YEAR) {
        return None;
    }
    let date = match persian_date(y, m as i32 - 1, d as i32, DATE_FORMAT) {
        Some(s) => s,
        None => return None,
    };
    let mut row = String::from_str(ROW_START);
    row.append(ch.thumbnail.as_str());
    row.append(ROW_ALT);
    row.append(ch.title.as_str());
    row.append(ROW_SUBSCRIBERS);
    row.append(to_persian_digits(decimal_text(ch.subscriber_count).as_str()).as_str());
    row.append(ROW_VIDEOS);
    row.append(to_persian_digits(decimal_text(ch.video_count).as_str()).as_str());
    row.append(ROW_MOOD);
    if is_recently_active(updated, now) {
        row.append(MOOD_ACTIVE);
    } else {
        row.append(MOOD_IDLE);
    }
    row.append(ROW_DATE);
    row.append(to_persian_digits(date.as_str()).as_str());
    row.append(ROW_LINK);
    row.append(ch.link.as_str());
    row.append(ROW_TITLE);
    row.append(ch.title.as_str());
    row.append(ROW_DESCRIPTION);
    row.append(trim(ch.description.as_str()));
    row.append(ROW_END);
    Some(row)
}

proof fn lemma_rows_stay_none(chs: Seq<ChannelView>, k: int, now: Timestamp)
    requires
        0 <= k <= chs.len(),
        rows_of(chs.take(k), now) is None,
    ensures
        rows_of(chs, now) is None,
    decreases chs.len(),
{
    if k < chs.len() {
        assert(chs.drop_last().take(k) =~= chs.take(k));
        lemma_rows_stay_none(chs.drop_last(), k, now);
    } else {
        assert(chs.take(k) =~= chs);
    }
}

proof fn lemma_tables_stay_none(rs: Seq<RankedCategory>, k: int, now: Timestamp)
    requires
        0 <= k <= rs.len(),
        tables_of(rs.take(k), now) is None,
    ensures
        tables_of(rs, now) is None,
    decreases rs.len(),
{
    if k < rs.len() {
        assert(rs.drop_last().take(k) =~= rs.take(k));
        lemma_tables_stay_none(rs.drop_last(), k, now);
    } else {
        assert(rs.take(k) =~= rs);
    }
}

/// Renders the table of one category: a heading with its title, then one
/// row per channel in the given order; `None` where a row cannot be rendered.
pub fn generate_table(title: &str, channels: &Vec<Channel>, now: Timestamp) -> (r: Option<String>)
    requires
        forall|i: int| 0 <= i < channels.len() ==> (#[trigger] channels@[i]).updated_at is Some,
    ensures
        r matches Some(s) ==> table_of(title@, views_of(channels@), now) == Some(s@),
        r is None ==> table_of(title@, views_of(channels@), now) is None,
{
    let ghost views = views_of(channels@);
    let mut rows = String::new();
    let mut i: usize = 0;
    while i < channels.len()
        invariant
            i <= channels.len(),
            views == views_of(channels@),
            forall|j: int| 0 <= j < channels.len() ==> (#[trigger] channels@[j]).updated_at is Some,
            rows_of(views.take(i as int), now) == Some(rows@),
        decreases channels.len() - i,
    {
        proof {
            assert(views.take(i + 1).drop_last() =~= views.take(i as int));
            assert(views.take(i + 1).last() == channels@[i as int]@);
        }
        match render_row(&channels[i], now) {
            Some(row) => rows.append(row.as_str()),
            None => {
                proof {
                    lemma_rows_stay_none(views, i + 1, now);
                }
                return None;
            },
        }
        i = i + 1;
    }
    proof {
        assert(views.take(i as int) =~= views);
    }
    let mut table = String::from_str(TABLE_START);
    table.append(title);
    table.append(TABLE_BODY);
    table.append(rows.as_str());
    table.append(TABLE_END);
    Some(table)
}

pub const ZERO_WIDTH_NON_JOINER: char = '\u{200c}';

/// The anchor of a heading: spaces become `-` and zero-width non-joiners
/// are dropped.
pub open spec fn anchor_of(title: Seq<char>) -> Seq<char>
    decreases title.len(),
{
    if title.len() == 0 {
        Seq::empty()
    } else {
        let c = title.last();
        let rest = anchor_of(title.drop_last());
        if c == ' ' {
            rest.push('-')
        } else if c == ZERO_WIDTH_NON_JOINER {
            rest
        } else {
            rest.push(c)
        }
    }
}

pub fn toc_anchor(title: &str) -> (r: String)
    ensures
        r@ == anchor_of(title@),
{
    proof {
        reveal_strlit("-");
    }
    let n = title.unicode_len();
    let mut out = String::new();
    let mut i: usize = 0;
    while i < n
        invariant
            i <= n == title@.len(),
            out@ == anchor_of(title@.take(i as int)),
        decreases n - i,
    {
        let c = title.get_char(i);
        proof {
            assert(title@.take(i + 1).drop_last() =~= title@.take(i as int));
            assert(title@.take(i + 1).last() == c);
        }
        let ghost before = out@;
        if c == ' ' {
            proof {
                reveal_strlit("-");
            }
            out.append("-");
            assert(out@ =~= before.push('-'));
        } else if c != ZERO_WIDTH_NON_JOINER {
            let one = title.substring_char(i, i + 1);
            assert(one@ =~= seq![c]);
            out.append(one);
            assert(out@ =~= before.push(c));
        }
        i = i + 1;
    }
    proof {
        assert(title@.take(n as int) =~= title@);
    }
    out
}

pub const TOC_ITEM_START: &'static str = "- [";
pub const TOC_ITEM_LINK: &'static str = "](#";
pub const TOC_ITEM_END: &'static str = ")\n";

/// The table-of-contents line of a category.
pub open spec fn toc_entry_of(title: Seq<char>) -> Seq<char> {
    TOC_ITEM_START@ + title + TOC_ITEM_LINK@ + anchor_of(title) + TOC_ITEM_END@
}

pub fn toc_entry(title: &str) -> (r: String)
    ensures
        r@ == toc_entry_of(title@),
{
    let anchor = toc_anchor(title);
    let mut line = String::from_str(TOC_ITEM_START);
    line.append(title);
    line.append(TOC_ITEM_LINK);
    line.append(anchor.as_str());
    line.append(TOC_ITEM_END);
    line
}

/// The table of contents: one line per listed category, in order.
pub open spec fn toc_of(rs: Seq<RankedCategory>) -> Seq<char>
    decreases rs.len(),
{
    if rs.len() == 0 {
        Seq::empty()
    } else {
        toc_of(rs.drop_last()) + toc_entry_of(rs.last().category.title@)
    }
}

/// The tables of the listed categories, one after another.
pub open spec fn tables_of(rs: Seq<RankedCategory>, now: Timestamp) -> Option<Seq<char>>
    decreases rs.len(),
{
    if rs.len() == 0 {
        Some(Seq::empty())
    } else {
        let last = rs.last();
        match (
            tables_of(rs.drop_last(), now),
            table_of(last.category.title@, views_of(last.item.channels@), now),
        ) {
            (Some(tables), Some(table)) => Some(tables + table),
            _ => None,
        }
    }
}

/// The document: the template with its table-of-contents mark and then its
/// tables mark replaced.
pub open spec fn document_of(template: Seq<char>, rs: Seq<RankedCategory>, now: Timestamp) -> Option<
    Seq<char>,
> {
    match tables_of(rs, now) {
        Some(tables) => Some(replaced(replaced(template, TOC_MARK@, toc_of(rs)), TABLES_MARK@, tables)),
        None => None,
    }
}

/// Every channel of every listed category has a latest activity.
pub open spec fn all_dated(ranked: Seq<RankedCategory>) -> bool {
    forall|k: int, i: int|
        0 <= k < ranked.len() && 0 <= i < ranked[k].item.channels.len() ==> (#[trigger] ranked[
            k
        ].item.channels@[i]).updated_at is Some
}

/// Renders the document of the ranked categories into `template`; `None`
/// where the date of some latest activity cannot be written.
pub fn generate_readme(ranked: &Vec<RankedCategory>, template: &str, now: Timestamp) -> (r: Option<
    String,
>)
    requires
        all_dated(ranked@),
    ensures
        r matches Some(s) ==> document_of(template@, ranked@, now) == Some(s@),
        r is None ==> document_of(template@, ranked@, now) is None,
{
    let mut toc = String::new();
    let mut tables = String::new();
    let mut i: usize = 0;
    while i < ranked.len()
        invariant
            i <= ranked.len(),
            all_dated(ranked@),
            toc@ == toc_of(ranked@.take(i as int)),
            tables_of(ranked@.take(i as int), now) == Some(tables@),
        decreases ranked.len() - i,
    {
        let c = &ranked[i];
        proof {
            assert(ranked@.take(i + 1).drop_last() =~= ranked@.take(i as int));
        }
        toc.append(toc_entry(c.category.title.as_str()).as_str());
        match generate_table(c.category.title.as_str(), &c.item.channels, now) {
            Some(table) => tables.append(table.as_str()),
            None => {
                proof {
                    lemma_tables_stay_none(ranked@, i + 1, now);
                }
                return None;
            },
        }
        i = i + 1;
    }
    proof {
        assert(ranked@.take(i as int) =~= ranked@);
    }
    let with_toc = replace(template, TOC_MARK, toc.as_str());
    Some(replace(with_toc.as_str(), TABLES_MARK, tables.as_str()))
}

} // verus!
