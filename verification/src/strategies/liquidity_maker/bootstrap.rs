//! Bootstrap LightPool markets from top-N Polymarket markets in an event.

use vstd::prelude::*;

use crate::collections::TextMap;
use crate::common::instrument_meta;
use crate::http::bootstrap::BootstrappedMarket;
use crate::http::models::Market;
use crate::params;
use crate::text;

verus! {

/// One Polymarket condition paired with a LightPool market slug.
#[derive(Debug)]
pub struct MarketPair {
    pub condition_id: String,
    pub question: String,
    pub lightpool_slug: String,
    pub market_address: String,
}

/// Which markets are bootstrapped, and how.
#[derive(Debug)]
pub struct BootstrapConfig {
    pub polymarket_event_slugs: Vec<String>,
    pub max_markets: u32,
    pub mint_amount: u64,
    pub order_field: String,
}

impl BootstrapConfig {
    /// Five markets by liquidity, 1e9 tokens at 6 decimals minted of each.
    pub fn default() -> (r: BootstrapConfig)
        ensures
            r.polymarket_event_slugs@.len() == 0,
            r.max_markets == 5,
            r.mint_amount == 1_000_000_000_000_000,
            r.order_field@ == "liquidity"@,
    {
        BootstrapConfig {
            polymarket_event_slugs: Vec::new(),
            max_markets: 5,
            mint_amount: 1_000_000_000_000_000,
            order_field: "liquidity".to_owned(),
        }
    }
}

/// A Polymarket market, as far as a rule asks.
#[derive(Debug)]
pub struct GammaMarket {
    pub condition_id: String,
    pub question: String,
    pub end_date: Option<String>,
    pub closed: Option<bool>,
    pub enable_order_book: Option<bool>,
    pub accepting_orders: Option<bool>,
    pub has_best_bid: bool,
    pub has_best_ask: bool,
    /// Every outcome price is below the limit of the bootstrap.
    pub still_active: bool,
}

/// A Polymarket event, as far as a rule asks.
#[derive(Debug)]
pub struct GammaEvent {
    pub slug: Option<String>,
    pub end_date: Option<String>,
    pub closed: Option<bool>,
    pub archived: Option<bool>,
    pub markets: Vec<GammaMarket>,
}

fn copy_text(text: &Option<String>) -> (r: Option<String>)
    ensures
        r == *text,
{
    match text {
        Some(text) => Some(text.clone()),
        None => None,
    }
}

impl Clone for GammaMarket {
    fn clone(&self) -> (r: GammaMarket)
        ensures
            r == *self,
    {
        GammaMarket {
            condition_id: self.condition_id.clone(),
            question: self.question.clone(),
            end_date: copy_text(&self.end_date),
            closed: self.closed,
            enable_order_book: self.enable_order_book,
            accepting_orders: self.accepting_orders,
            has_best_bid: self.has_best_bid,
            has_best_ask: self.has_best_ask,
            still_active: self.still_active,
        }
    }
}

/// Unix seconds of the date and time that `chrono` reads by a format, taken as UTC, or nothing.
pub uninterp spec fn datetime_seconds(text: Seq<char>, format: Seq<char>) -> Option<i64>;

/// Unix seconds of a time of the day of the date that `chrono` reads by a format, taken as UTC, or
/// nothing.
pub uninterp spec fn date_seconds(
    text: Seq<char>,
    format: Seq<char>,
    hour: u32,
    minute: u32,
    second: u32,
) -> Option<i64>;

/// `chrono::NaiveDateTime::parse_from_str`, and the timestamp of what it reads as UTC.
///
/// The result depends on text and format alone.
#[verifier::external_body]
fn datetime_outside(text: &str, format: &str) -> (r: Option<i64>)
    ensures
        r == datetime_seconds(text@, format@),
{
    chrono::NaiveDateTime::parse_from_str(text, format).ok().map(|dt| dt.and_utc().timestamp())
}

/// `chrono::NaiveDate::parse_from_str`, and the timestamp of a time of that day as UTC.
///
/// The result depends on text, format and time alone.
#[verifier::external_body]
fn date_outside(text: &str, format: &str, hour: u32, minute: u32, second: u32) -> (r: Option<i64>)
    ensures
        r == date_seconds(text@, format@, hour, minute, second),
{
    let date = chrono::NaiveDate::parse_from_str(text, format).ok()?;
    date.and_hms_opt(hour, minute, second).map(|dt| dt.and_utc().timestamp())
}

/// A date and time without `Z` and fraction of a second.
pub open spec fn without_fraction(raw: Seq<char>) -> Seq<char> {
    let cleaned = text::trim_end_char(raw, 'Z');
    cleaned.take(text::first_index(cleaned, '.'))
}

/// Seconds, none of them before 1970.
pub open spec fn not_before_epoch(seconds: Option<i64>) -> Option<u64> {
    match seconds {
        Some(n) => Some(
            if n > 0 {
                n as u64
            } else {
                0
            },
        ),
        None => None,
    }
}

/// The deadline that a text writes: a date and time, or the end of a day.
pub open spec fn deadline_read(
    by_datetime: Option<i64>,
    by_date: Option<i64>,
) -> Option<u64> {
    match not_before_epoch(by_datetime) {
        Some(seconds) => Some(seconds),
        None => not_before_epoch(by_date),
    }
}

/// The deadline that a text writes, as `chrono` reads it.
pub open spec fn deadline_of(raw: Seq<char>) -> Option<u64> {
    deadline_read(
        datetime_seconds(without_fraction(raw), "%Y-%m-%dT%H:%M:%S"@),
        date_seconds(raw, "%Y-%m-%d"@, 23, 59, 59),
    )
}

/// The deadline of two readings: the date and time goes first.
pub fn deadline_from(by_datetime: Option<i64>, by_date: Option<i64>) -> (r: Option<u64>)
    ensures
        r == deadline_read(by_datetime, by_date),
        by_datetime is None && by_date is None <==> r is None,
        by_datetime matches Some(n) ==> (r matches Some(seconds) && (n >= 0 ==> seconds == n) && (n
            < 0 ==> seconds == 0)),
        by_datetime is None ==> (by_date matches Some(n) ==> (r matches Some(seconds) && (n >= 0
            ==> seconds == n) && (n < 0 ==> seconds == 0))),
{
    let seconds: i64 = match by_datetime {
        Some(seconds) => seconds,
        None => match by_date {
            Some(seconds) => seconds,
            None => {
                return None;
            },
        },
    };
    if seconds > 0 {
        Some(seconds as u64)
    } else {
        Some(0)
    }
}

/// Reads a deadline: `2026-12-31T23:59:59Z`, also with a fraction of a second, or `2026-12-31`.
pub fn parse_deadline_unix(raw: &str) -> (r: Option<u64>)
    ensures
        r == deadline_of(raw@),
{
    let cleaned: String = text::trim_end_matches(raw, 'Z');
    let head: String = match text::split_once(cleaned.as_str(), '.') {
        Some((head, _)) => head,
        None => cleaned.clone(),
    };
    proof {
        if text::first_index(cleaned@, '.') == cleaned@.len() {
            assert(cleaned@.take(cleaned@.len() as int) =~= cleaned@);
        }
    }
    let by_datetime: Option<i64> = datetime_outside(head.as_str(), "%Y-%m-%dT%H:%M:%S");
    if by_datetime.is_some() {
        return deadline_from(by_datetime, None);
    }
    deadline_from(None, date_outside(raw, "%Y-%m-%d", 23, 59, 59))
}

/// The deadline of a market that names none: the end of 2026.
pub const FALLBACK_DEADLINE: u64 = 1_798_761_599;

/// The deadline that an end date writes, where it writes one.
pub open spec fn end_date_deadline(end_date: Option<Seq<char>>) -> Option<u64> {
    match instrument_meta::filled(end_date) {
        Some(text) => deadline_of(text),
        None => None,
    }
}

/// The deadline that an end date writes, where it writes one.
fn deadline_of_end_date(end_date: Option<&str>) -> (r: Option<u64>)
    ensures
        r == end_date_deadline(params::text_view(end_date)),
{
    match end_date {
        Some(text) => {
            let trimmed: String = text::trim(text);
            if trimmed.as_str().unicode_len() == 0 {
                None
            } else {
                parse_deadline_unix(trimmed.as_str())
            }
        },
        None => None,
    }
}

/// The resolution deadline of a new market: that of the end date, else the end of 2026.
pub fn parse_resolution_deadline(end_date: Option<&str>) -> (r: u64)
    ensures
        r == match end_date_deadline(params::text_view(end_date)) {
            Some(deadline) => deadline,
            None => FALLBACK_DEADLINE,
        },
{
    match deadline_of_end_date(end_date) {
        Some(deadline) => deadline,
        None => FALLBACK_DEADLINE,
    }
}

/// Seven days.
pub const MIN_DEADLINE_HORIZON_SECS: u64 = 604_800;

/// A deadline is more than seven days ahead.
pub open spec fn is_ahead(deadline: Option<u64>, now: u64) -> bool {
    deadline matches Some(deadline) && deadline > now + MIN_DEADLINE_HORIZON_SECS
}

/// Whether a deadline is more than seven days ahead.
pub fn deadline_ahead(deadline: Option<u64>, now: u64) -> (r: bool)
    ensures
        r == is_ahead(deadline, now),
        r <==> (deadline matches Some(seconds) && seconds - now > 7 * 24 * 3_600),
{
    match deadline {
        Some(deadline) => {
            let horizon: u64 = if now <= u64::MAX - MIN_DEADLINE_HORIZON_SECS {
                now + MIN_DEADLINE_HORIZON_SECS
            } else {
                u64::MAX
            };
            deadline > horizon
        },
        None => false,
    }
}

/// Whether an end date is more than seven days ahead. `now` is in unix seconds.
pub fn deadline_still_open(end_date: Option<&str>, now: u64) -> (r: bool)
    ensures
        r == is_ahead(end_date_deadline(params::text_view(end_date)), now),
{
    deadline_ahead(deadline_of_end_date(end_date), now)
}

/// Closed markets and markets with no CLOB book cannot be mirrored.
pub open spec fn mirrorable(market: GammaMarket) -> bool {
    &&& market.closed != Some(true)
    &&& market.enable_order_book != Some(false)
    &&& market.accepting_orders != Some(false)
    &&& market.has_best_bid || market.has_best_ask
}

/// Closed markets and markets with no CLOB book cannot be mirrored.
pub fn has_order_book(market: &GammaMarket) -> (r: bool)
    ensures
        r == mirrorable(*market),
        market.closed == Some(true) || market.enable_order_book == Some(false)
            || market.accepting_orders == Some(false) ==> !r,
        market.closed != Some(true) && market.enable_order_book != Some(false)
            && market.accepting_orders != Some(false) ==> {
            &&& market.has_best_bid ==> r
            &&& market.has_best_ask ==> r
            &&& !market.has_best_bid && !market.has_best_ask ==> !r
        },
{
    if let Some(closed) = market.closed {
        if closed {
            return false;
        }
    }
    if let Some(enabled) = market.enable_order_book {
        if !enabled {
            return false;
        }
    }
    if let Some(accepting) = market.accepting_orders {
        if !accepting {
            return false;
        }
    }
    market.has_best_bid || market.has_best_ask
}

/// The texts between the brackets of a list, without white space and quotes around them.
pub open spec fn price_token(part: Seq<char>) -> Seq<char> {
    let bare = text::trimmed(part);
    let plain = text::trim_end_char(text::trim_start_char(bare, '"'), '"');
    text::trim_end_char(text::trim_start_char(plain, '\''), '\'')
}

/// The body of a bracketed list, where there is one and it is not blank.
pub open spec fn list_body(raw: Seq<char>) -> Option<Seq<char>> {
    let list = text::trimmed(raw);
    if list.len() >= 2 && list[0] == '[' && list.last() == ']' {
        let body = text::trimmed(list.subrange(1, list.len() - 1));
        if body.len() > 0 {
            Some(body)
        } else {
            None
        }
    } else {
        None
    }
}

/// The texts of the outcome prices: `["0.4", "0.6"]`.
pub fn outcome_price_tokens(raw: &str) -> (r: Option<Vec<String>>)
    ensures
        match list_body(raw@) {
            None => r is None,
            Some(body) => r is Some && text::texts(r->Some_0@) == text::pieces(
                body,
                ',',
            ).map_values(|part: Seq<char>| price_token(part)),
        },
{
    let list: String = text::trim(raw);
    proof {
        reveal_strlit("[");
        reveal_strlit("]");
    }
    let rest: String = match text::strip_prefix(list.as_str(), "[") {
        Some(rest) => rest,
        None => {
            return None;
        },
    };
    let inner: String = match text::strip_suffix(rest.as_str(), "]") {
        Some(inner) => inner,
        None => {
            return None;
        },
    };
    proof {
        assert(list@ =~= seq!['['] + inner@ + seq![']']);
        assert(list@.subrange(1, list@.len() - 1) =~= inner@);
    }
    let body: String = text::trim(inner.as_str());
    if body.as_str().unicode_len() == 0 {
        return None;
    }
    let parts: Vec<String> = text::split(body.as_str(), ',');
    let mut tokens: Vec<String> = Vec::new();
    let ghost wanted = text::pieces(body@, ',').map_values(|part: Seq<char>| price_token(part));
    let mut i: usize = 0;
    while i < parts.len()
        invariant
            i <= parts@.len(),
            text::texts(parts@) == text::pieces(body@, ','),
            wanted == text::pieces(body@, ',').map_values(|part: Seq<char>| price_token(part)),
            text::texts(tokens@) == wanted.take(i as int),
        decreases parts@.len() - i,
    {
        let bare: String = text::trim(parts[i].as_str());
        let plain: String = text::trim_matches(bare.as_str(), '"');
        let token: String = text::trim_matches(plain.as_str(), '\'');
        let ghost before = text::texts(tokens@);
        tokens.push(token);
        proof {
            assert(text::texts(parts@).len() == parts@.len());
            assert(text::texts(parts@)[i as int] == parts@[i as int]@);
            assert(wanted[i as int] == price_token(parts@[i as int]@));
            assert(text::texts(tokens@) =~= before.push(token@));
            assert(text::texts(tokens@) =~= wanted.take(i + 1));
        }
        i += 1;
    }
    assert(text::texts(tokens@) =~= wanted) by {
        assert(text::texts(parts@).len() == parts@.len());
    }
    Some(tokens)
}

/// Some market of a list has a deadline ahead.
pub open spec fn any_ahead(markets: Seq<GammaMarket>, now: u64) -> bool {
    exists|i: int|
        0 <= i < markets.len() && is_ahead(
            end_date_deadline(params::string_view((#[trigger] markets[i]).end_date)),
            now,
        )
}

/// Some market of a list can be mirrored.
pub open spec fn any_mirrorable(markets: Seq<GammaMarket>) -> bool {
    exists|i: int| 0 <= i < markets.len() && mirrorable(#[trigger] markets[i])
}

/// The slug of an event that can be mirrored: it is open, its deadline or that of one of its
/// markets is ahead, and one of its markets has a book.
pub open spec fn hot_slug(event: GammaEvent, now: u64) -> Option<Seq<char>> {
    let open = if event.markets@.len() == 0 {
        is_ahead(end_date_deadline(params::string_view(event.end_date)), now)
    } else {
        any_ahead(event.markets@, now) && any_mirrorable(event.markets@)
    };
    if event.closed == Some(true) || event.archived == Some(true) || !open {
        None
    } else {
        instrument_meta::filled(params::string_view(event.slug))
    }
}

/// The slugs of the events that can be mirrored, in order.
pub open spec fn hot_slugs(events: Seq<GammaEvent>, now: u64) -> Seq<Seq<char>>
    decreases events.len(),
{
    if events.len() == 0 {
        Seq::empty()
    } else {
        let before = hot_slugs(events.drop_last(), now);
        match hot_slug(events.last(), now) {
            Some(slug) => before.push(slug),
            None => before,
        }
    }
}

/// At most the first `n` of a list.
pub open spec fn first_of<T>(items: Seq<T>, n: int) -> Seq<T> {
    if items.len() <= n {
        items
    } else {
        items.take(n)
    }
}

/// More events only add slugs behind.
proof fn lemma_hot_slugs_grow(events: Seq<GammaEvent>, now: u64, i: int)
    requires
        0 <= i <= events.len(),
    ensures
        hot_slugs(events.take(i), now).len() <= hot_slugs(events, now).len(),
        hot_slugs(events, now).take(hot_slugs(events.take(i), now).len() as int) == hot_slugs(
            events.take(i),
            now,
        ),
    decreases events.len(),
{
    let some = hot_slugs(events.take(i), now);
    if i == events.len() {
        assert(events.take(i) =~= events);
        assert(some.take(some.len() as int) =~= some);
    } else {
        assert(events.drop_last().take(i) =~= events.take(i));
        lemma_hot_slugs_grow(events.drop_last(), now, i);
        let before = hot_slugs(events.drop_last(), now);
        let all = hot_slugs(events, now);
        assert(all.take(some.len() as int) =~= before.take(some.len() as int));
    }
}

fn opt_text(text: &Option<String>) -> (r: Option<&str>)
    ensures
        params::text_view(r) == params::string_view(*text),
{
    match text {
        Some(text) => Some(text.as_str()),
        None => None,
    }
}

fn some_ahead(markets: &Vec<GammaMarket>, now: u64) -> (r: bool)
    ensures
        r == any_ahead(markets@, now),
{
    let mut i: usize = 0;
    while i < markets.len()
        invariant
            i <= markets@.len(),
            forall|k: int|
                0 <= k < i ==> !is_ahead(
                    end_date_deadline(params::string_view((#[trigger] markets@[k]).end_date)),
                    now,
                ),
        decreases markets@.len() - i,
    {
        if deadline_still_open(opt_text(&markets[i].end_date), now) {
            return true;
        }
        i += 1;
    }
    false
}

fn some_mirrorable(markets: &Vec<GammaMarket>) -> (r: bool)
    ensures
        r == any_mirrorable(markets@),
{
    let mut i: usize = 0;
    while i < markets.len()
        invariant
            i <= markets@.len(),
            forall|k: int| 0 <= k < i ==> !mirrorable(#[trigger] markets@[k]),
        decreases markets@.len() - i,
    {
        if has_order_book(&markets[i]) {
            return true;
        }
        i += 1;
    }
    false
}

fn hot_slug_of(event: &GammaEvent, now: u64) -> (r: Option<String>)
    ensures
        params::string_view(r) == hot_slug(*event, now),
{
    if let Some(closed) = event.closed {
        if closed {
            return None;
        }
    }
    if let Some(archived) = event.archived {
        if archived {
            return None;
        }
    }
    let open: bool = if event.markets.len() == 0 {
        deadline_still_open(opt_text(&event.end_date), now)
    } else {
        some_ahead(&event.markets, now)
    };
    if !open {
        return None;
    }
    if event.markets.len() > 0 && !some_mirrorable(&event.markets) {
        return None;
    }
    match &event.slug {
        Some(slug) => {
            let trimmed: String = text::trim(slug.as_str());
            if trimmed.as_str().unicode_len() > 0 {
                Some(trimmed)
            } else {
                None
            }
        },
        None => None,
    }
}

/// How many events to ask for, so that enough are left: five times as many as wanted.
pub fn event_request_limit(limit: u32) -> (r: u32)
    ensures
        r == if limit == 0 {
            5
        } else if limit * 5 <= u32::MAX {
            limit * 5
        } else {
            u32::MAX as int
        },
{
    if limit == 0 {
        5
    } else if limit <= u32::MAX / 5 {
        limit * 5
    } else {
        u32::MAX
    }
}

/// No event can be mirrored.
#[derive(Clone, Copy, Debug, PartialEq, Eq, Structural)]
pub struct NoHotEvents;

impl NoHotEvents {
    /// The refusal in words.
    pub fn message(&self) -> (r: &'static str)
        ensures
            r@ == "no active Polymarket events returned for volume24hr ranking"@,
    {
        "no active Polymarket events returned for volume24hr ranking"
    }
}

/// The first slugs of the events that can be mirrored, at most `limit` of them and at least one.
pub fn fetch_hottest_event_slugs(events: &[GammaEvent], limit: u32, now: u64) -> (r: Result<
    Vec<String>,
    NoHotEvents,
>)
    ensures
        if hot_slugs(events@, now).len() == 0 {
            r is Err
        } else {
            r is Ok && text::texts(r->Ok_0@) == first_of(
                hot_slugs(events@, now),
                if limit == 0 {
                    1
                } else {
                    limit as int
                },
            )
        },
{
    let wanted: usize = if limit == 0 {
        1
    } else {
        limit as usize
    };
    let mut slugs: Vec<String> = Vec::new();
    assert(text::texts(slugs@) =~= Seq::<Seq<char>>::empty());
    let mut i: usize = 0;
    while i < events.len()
        invariant
            i <= events@.len(),
            wanted == if limit == 0 {
                1
            } else {
                limit as int
            },
            slugs@.len() < wanted,
            text::texts(slugs@) == hot_slugs(events@.take(i as int), now),
        decreases events@.len() - i,
    {
        proof {
            assert(events@.take(i + 1).drop_last() =~= events@.take(i as int));
            assert(text::texts(slugs@).len() == slugs@.len());
        }
        if let Some(slug) = hot_slug_of(&events[i], now) {
            let ghost before = text::texts(slugs@);
            slugs.push(slug);
            assert(text::texts(slugs@) =~= before.push(slug@));
            if slugs.len() >= wanted {
                proof {
                    lemma_hot_slugs_grow(events@, now, i + 1);
                    let all = hot_slugs(events@, now);
                    assert(text::texts(slugs@).len() == slugs@.len());
                    assert(all.take(all.len() as int) =~= all);
                }
                return Ok(slugs);
            }
        }
        i += 1;
    }
    assert(events@.take(i as int) =~= events@);
    assert(text::texts(slugs@).len() == slugs@.len());
    if slugs.len() == 0 {
        return Err(NoHotEvents);
    }
    Ok(slugs)
}

/// A market can be mirrored: its deadline is ahead and it has a book.
pub open spec fn is_candidate(market: GammaMarket, now: u64) -> bool {
    is_ahead(end_date_deadline(params::string_view(market.end_date)), now) && mirrorable(market)
}

/// The markets that can be mirrored and are still open in price, in order.
pub open spec fn open_markets(markets: Seq<GammaMarket>, now: u64) -> Seq<GammaMarket>
    decreases markets.len(),
{
    if markets.len() == 0 {
        Seq::empty()
    } else {
        let before = open_markets(markets.drop_last(), now);
        if is_candidate(markets.last(), now) && markets.last().still_active {
            before.push(markets.last())
        } else {
            before
        }
    }
}

proof fn lemma_open_markets_grow(markets: Seq<GammaMarket>, now: u64, i: int)
    requires
        0 <= i <= markets.len(),
    ensures
        open_markets(markets.take(i), now).len() <= open_markets(markets, now).len(),
        open_markets(markets, now).take(open_markets(markets.take(i), now).len() as int)
            == open_markets(markets.take(i), now),
    decreases markets.len(),
{
    let some = open_markets(markets.take(i), now);
    if i == markets.len() {
        assert(markets.take(i) =~= markets);
        assert(some.take(some.len() as int) =~= some);
    } else {
        assert(markets.drop_last().take(i) =~= markets.take(i));
        lemma_open_markets_grow(markets.drop_last(), now, i);
        let before = open_markets(markets.drop_last(), now);
        let all = open_markets(markets, now);
        assert(all.take(some.len() as int) =~= before.take(some.len() as int));
    }
}

/// The markets of an event to mirror: the first `max_markets` that are open, in the order in which
/// the venue ranks them.
pub fn fetch_top_polymarket_markets(markets: &[GammaMarket], max_markets: u32, now: u64) -> (r: Vec<
    GammaMarket,
>)
    ensures
        r@ == first_of(open_markets(markets@, now), max_markets as int),
        r@.len() <= max_markets,
        forall|k: int| 0 <= k < r@.len() ==> markets@.contains(#[trigger] r@[k]),
        forall|i: int|
            0 <= i < markets@.len() && r@.len() < max_markets && is_choosable(
                #[trigger] markets@[i],
                now,
            ) ==> r@.contains(markets@[i]),
        forall|k: int| 0 <= k < r@.len() ==> is_choosable(#[trigger] r@[k], now),
{
    let mut active: Vec<GammaMarket> = Vec::new();
    assert(active@ =~= open_markets(markets@.take(0), now));
    let mut i: usize = 0;
    while i < markets.len() && active.len() < max_markets as usize
        invariant
            i <= markets@.len(),
            active@ == open_markets(markets@.take(i as int), now),
            active@.len() <= max_markets,
        decreases markets@.len() - i,
    {
        let market: &GammaMarket = &markets[i];
        proof {
            assert(markets@.take(i + 1).drop_last() =~= markets@.take(i as int));
        }
        if deadline_still_open(opt_text(&market.end_date), now) && has_order_book(market)
            && market.still_active {
            active.push(market.clone());
        }
        i += 1;
    }
    proof {
        let all = open_markets(markets@, now);
        lemma_open_markets_grow(markets@, now, i as int);
        law_top_markets_are_the_first_open(markets@, max_markets as nat, now);
        assert(markets@.take(markets@.len() as int) =~= markets@);
        assert(all.take(all.len() as int) =~= all);
    }
    active
}

/// Slug and address of a LightPool market.
#[derive(Debug)]
pub struct MarketRef {
    pub slug: String,
    pub market_address: String,
}

impl Clone for MarketRef {
    fn clone(&self) -> (r: MarketRef)
        ensures
            r == *self,
    {
        MarketRef { slug: self.slug.clone(), market_address: self.market_address.clone() }
    }
}

/// The markets that are there, by question without white space around it. Of two with one question
/// the first counts.
pub open spec fn markets_by_question(markets: Seq<Market>) -> Map<Seq<char>, MarketRef>
    decreases markets.len(),
{
    if markets.len() == 0 {
        Map::empty()
    } else {
        let before = markets_by_question(markets.drop_last());
        let question = text::trimmed(markets.last().question@);
        if before.dom().contains(question) {
            before
        } else {
            before.insert(
                question,
                MarketRef {
                    slug: markets.last().slug,
                    market_address: markets.last().market_address,
                },
            )
        }
    }
}

/// The texts of a pair: condition, question, slug and address.
pub open spec fn pair_view(pair: MarketPair) -> (Seq<char>, Seq<char>, Seq<char>, Seq<char>) {
    (pair.condition_id@, pair.question@, pair.lightpool_slug@, pair.market_address@)
}

pub open spec fn pair_views(pairs: Seq<MarketPair>) -> Seq<
    (Seq<char>, Seq<char>, Seq<char>, Seq<char>),
> {
    pairs.map_values(|pair: MarketPair| pair_view(pair))
}

/// A LightPool market has to be created for a Polymarket market.
pub open spec fn needs_creation(
    market: GammaMarket,
    existing: Map<Seq<char>, MarketRef>,
    capped: bool,
) -> bool {
    let question = text::trimmed(market.question@);
    question.len() > 0 && !existing.dom().contains(question) && !capped
}

/// The pairs of the markets whose question has a LightPool market.
pub open spec fn reused_pairs(
    markets: Seq<GammaMarket>,
    existing: Map<Seq<char>, MarketRef>,
) -> Seq<(Seq<char>, Seq<char>, Seq<char>, Seq<char>)>
    decreases markets.len(),
{
    if markets.len() == 0 {
        Seq::empty()
    } else {
        let before = reused_pairs(markets.drop_last(), existing);
        let question = text::trimmed(markets.last().question@);
        if question.len() > 0 && existing.dom().contains(question) {
            before.push(
                (
                    markets.last().condition_id@,
                    question,
                    existing[question].slug@,
                    existing[question].market_address@,
                ),
            )
        } else {
            before
        }
    }
}

/// What a bootstrap does next.
#[derive(Debug)]
pub enum BootstrapStep {
    /// Creates, mints and waits for a market.
    Create { question: String, resolution_deadline: u64, mint_amount: u64 },
    Done,
}

/// Why a bootstrap failed.
#[derive(Debug)]
pub enum BootstrapError {
    NoEventSlugs,
    /// The market of this condition could not be created.
    Market { condition_id: String, cause: String },
    NoMarkets,
}

impl BootstrapError {
    pub open spec fn text(self) -> Seq<char> {
        match self {
            BootstrapError::NoEventSlugs =>
            "bootstrap requires at least one Polymarket event slug"@,
            BootstrapError::Market { condition_id, cause } =>
            "bootstrap LightPool market for condition="@ + condition_id@ + ": "@ + cause@,
            BootstrapError::NoMarkets => "bootstrap produced zero LightPool markets"@,
        }
    }

    /// The failure in words.
    pub fn message(&self) -> (r: String)
        ensures
            r@ == self.text(),
    {
        match self {
            BootstrapError::NoEventSlugs =>
            "bootstrap requires at least one Polymarket event slug".to_owned(),
            BootstrapError::Market { condition_id, cause } => {
                let mut r: String = text::append(
                    "bootstrap LightPool market for condition=",
                    condition_id.as_str(),
                );
                r.append(": ");
                r.append(cause.as_str());
                r
            },
            BootstrapError::NoMarkets => "bootstrap produced zero LightPool markets".to_owned(),
        }
    }
}

/// A bootstrap needs an event.
pub fn check_event_slugs(config: &BootstrapConfig) -> (r: Result<(), BootstrapError>)
    ensures
        r == if config.polymarket_event_slugs@.len() == 0 {
            Err::<(), BootstrapError>(BootstrapError::NoEventSlugs)
        } else {
            Ok(())
        },
{
    if config.polymarket_event_slugs.len() == 0 {
        Err(BootstrapError::NoEventSlugs)
    } else {
        Ok(())
    }
}

/// The chain has no room for more tokens.
pub open spec fn is_token_cap(error: Seq<char>) -> bool {
    text::has_part(error, "MAX_MODULE_INDEX"@) || text::has_part(
        error,
        "Cannot create more tokens"@,
    )
}

/// A bootstrap of LightPool markets for Polymarket markets.
#[derive(Debug)]
pub struct Bootstrapper {
    pub markets: Vec<GammaMarket>,
    pub existing: TextMap<MarketRef>,
    pub pairs: Vec<MarketPair>,
    pub next: usize,
    pub token_cap_reached: bool,
    pub mint_amount: u64,
}

impl Bootstrapper {
    /// Each pair has the market that is there for its question, and no market has two pairs.
    pub open spec fn wf(self) -> bool {
        &&& self.next <= self.markets@.len()
        &&& self.pairs@.len() <= self.next
        &&& forall|i: int|
            0 <= i < self.pairs@.len() ==> self.has_market_of(#[trigger] self.pairs@[i])
    }

    pub open spec fn has_market_of(self, pair: MarketPair) -> bool {
        &&& self.existing@.dom().contains(pair.question@)
        &&& self.existing@[pair.question@].slug@ == pair.lightpool_slug@
        &&& self.existing@[pair.question@].market_address@ == pair.market_address@
    }

    /// The market at hand has to be created.
    pub open spec fn creating(self) -> bool {
        self.next < self.markets@.len() && needs_creation(
            self.markets@[self.next as int],
            self.existing@,
            self.token_cap_reached,
        )
    }

    /// A bootstrap before its first market.
    pub fn new(markets: Vec<GammaMarket>, existing: Vec<Market>, mint_amount: u64) -> (r:
        Bootstrapper)
        ensures
            r.wf(),
            r.markets == markets,
            r.existing@ == markets_by_question(existing@),
            r.pairs@.len() == 0,
            r.next == 0,
            !r.token_cap_reached,
            r.mint_amount == mint_amount,
    {
        let mut by_question: TextMap<MarketRef> = TextMap::new();
        assert(by_question@ =~= markets_by_question(existing@.take(0)));
        let mut i: usize = 0;
        while i < existing.len()
            invariant
                i <= existing@.len(),
                by_question@ == markets_by_question(existing@.take(i as int)),
            decreases existing@.len() - i,
        {
            proof {
                assert(existing@.take(i + 1).drop_last() =~= existing@.take(i as int));
            }
            let question: String = text::trim(existing[i].question.as_str());
            if !by_question.contains(question.as_str()) {
                let _ = by_question.insert(
                    question.as_str(),
                    MarketRef {
                        slug: existing[i].slug.clone(),
                        market_address: existing[i].market_address.clone(),
                    },
                );
            }
            i += 1;
        }
        assert(existing@.take(i as int) =~= existing@);
        Bootstrapper {
            markets,
            existing: by_question,
            pairs: Vec::new(),
            next: 0,
            token_cap_reached: false,
            mint_amount,
        }
    }

    /// Goes on to the next market that has to be created, pairing those that are there. Markets
    /// without a question, and new ones behind the token cap, are left out.
    pub fn next_step(&mut self) -> (r: BootstrapStep)
        requires
            old(self).wf(),
        ensures
            final(self).wf(),
            final(self).markets == old(self).markets,
            final(self).existing == old(self).existing,
            final(self).token_cap_reached == old(self).token_cap_reached,
            final(self).mint_amount == old(self).mint_amount,
            old(self).next <= final(self).next,
            forall|i: int|
                old(self).next <= i < final(self).next ==> !needs_creation(
                    #[trigger] old(self).markets@[i],
                    old(self).existing@,
                    old(self).token_cap_reached,
                ),
            pair_views(final(self).pairs@) == pair_views(old(self).pairs@) + reused_pairs(
                old(self).markets@.subrange(old(self).next as int, final(self).next as int),
                old(self).existing@,
            ),
            match r {
                BootstrapStep::Create { question, resolution_deadline, mint_amount } => {
                    let market = old(self).markets@[final(self).next as int];
                    &&& final(self).creating()
                    &&& question@ == text::trimmed(market.question@)
                    &&& resolution_deadline == (match end_date_deadline(
                        params::string_view(market.end_date),
                    ) {
                        Some(deadline) => deadline,
                        None => FALLBACK_DEADLINE,
                    })
                    &&& mint_amount == old(self).mint_amount
                },
                BootstrapStep::Done => final(self).next == old(self).markets@.len(),
            },
    {
        let ghost from = self.next as int;
        let ghost first = pair_views(self.pairs@);
        proof {
            assert(self.markets@.subrange(from, from) =~= Seq::<GammaMarket>::empty());
            assert(first + Seq::empty() =~= first);
        }
        while self.next < self.markets.len()
            invariant
                self.wf(),
                self.markets == old(self).markets,
                self.existing == old(self).existing,
                self.token_cap_reached == old(self).token_cap_reached,
                self.mint_amount == old(self).mint_amount,
                from == old(self).next,
                first == pair_views(old(self).pairs@),
                from <= self.next,
                forall|i: int|
                    from <= i < self.next ==> !needs_creation(
                        #[trigger] old(self).markets@[i],
                        old(self).existing@,
                        old(self).token_cap_reached,
                    ),
                pair_views(self.pairs@) == first + reused_pairs(
                    self.markets@.subrange(from, self.next as int),
                    self.existing@,
                ),
            decreases self.markets@.len() - self.next,
        {
            let n: usize = self.next;
            let question: String = text::trim(self.markets[n].question.as_str());
            proof {
                let longer = self.markets@.subrange(from, n + 1);
                assert(longer.drop_last() =~= self.markets@.subrange(from, n as int));
                assert(longer.last() == self.markets@[n as int]);
            }
            if question.as_str().unicode_len() > 0 {
                match self.existing.get(question.as_str()) {
                    Some(found) => {
                        let pair: MarketPair = MarketPair {
                            condition_id: self.markets[n].condition_id.clone(),
                            question,
                            lightpool_slug: found.slug.clone(),
                            market_address: found.market_address.clone(),
                        };
                        let ghost before = self.pairs@;
                        let ghost reused = reused_pairs(
                            self.markets@.subrange(from, n as int),
                            self.existing@,
                        );
                        self.pairs.push(pair);
                        proof {
                            assert(pair_views(self.pairs@) =~= pair_views(before).push(
                                pair_view(pair),
                            ));
                            assert((first + reused).push(pair_view(pair)) =~= first + reused.push(
                                pair_view(pair),
                            ));
                            assert forall|i: int| 0 <= i < self.pairs@.len() implies (*self).has_market_of(
                                #[trigger] self.pairs@[i],
                            ) by {
                                if i < before.len() {
                                    assert(self.pairs@[i] == before[i]);
                                }
                            }
                        }
                    },
                    None => {
                        if !self.token_cap_reached {
                            let resolution_deadline: u64 = parse_resolution_deadline(
                                opt_text(&self.markets[n].end_date),
                            );
                            return BootstrapStep::Create {
                                question,
                                resolution_deadline,
                                mint_amount: self.mint_amount,
                            };
                        }
                    },
                }
            }
            self.next = n + 1;
        }
        BootstrapStep::Done
    }

    /// Takes the outcome of creating the market at hand. The token cap ends creating; any other
    /// failure ends the bootstrap.
    pub fn created(&mut self, outcome: Result<BootstrappedMarket, String>) -> (r: Result<
        (),
        BootstrapError,
    >)
        requires
            old(self).wf(),
            old(self).creating(),
        ensures
            final(self).wf(),
            final(self).markets == old(self).markets,
            final(self).mint_amount == old(self).mint_amount,
            match outcome {
                Ok(market) => {
                    let question = text::trimmed(old(self).markets@[old(self).next as int].question@);
                    &&& r is Ok
                    &&& final(self).next == old(self).next + 1
                    &&& final(self).token_cap_reached == old(self).token_cap_reached
                    &&& final(self).existing@ == old(self).existing@.insert(
                        question,
                        MarketRef { slug: market.slug, market_address: market.market_address },
                    )
                    &&& pair_views(final(self).pairs@) == pair_views(old(self).pairs@).push(
                        (
                            old(self).markets@[old(self).next as int].condition_id@,
                            question,
                            market.slug@,
                            market.market_address@,
                        ),
                    )
                },
                Err(error) => {
                    &&& final(self).existing == old(self).existing
                    &&& final(self).pairs == old(self).pairs
                    &&& if is_token_cap(error@) {
                        r is Ok && final(self).token_cap_reached && final(self).next == old(
                            self,
                        ).next + 1
                    } else {
                        r == Err::<(), BootstrapError>(
                            BootstrapError::Market {
                                condition_id: old(
                                    self,
                                ).markets@[old(self).next as int].condition_id,
                                cause: error,
                            },
                        ) && final(self).next == old(self).next
                            && final(self).token_cap_reached == old(self).token_cap_reached
                    }
                },
            },
    {
        let n: usize = self.next;
        assert(n < self.markets.len());
        match outcome {
            Ok(market) => {
                let question: String = text::trim(self.markets[n].question.as_str());
                let ghost before = *self;
                let found: MarketRef = MarketRef {
                    slug: market.slug.clone(),
                    market_address: market.market_address.clone(),
                };
                let _ = self.existing.insert(question.as_str(), found);
                let pair: MarketPair = MarketPair {
                    condition_id: self.markets[n].condition_id.clone(),
                    question,
                    lightpool_slug: market.slug,
                    market_address: market.market_address,
                };
                self.pairs.push(pair);
                self.next = n + 1;
                proof {
                    assert(pair_views(self.pairs@) =~= pair_views(before.pairs@).push(
                        pair_view(pair),
                    ));
                    assert forall|i: int| 0 <= i < self.pairs@.len() implies (*self).has_market_of(
                        #[trigger] self.pairs@[i],
                    ) by {
                        if i < before.pairs@.len() {
                            assert(self.pairs@[i] == before.pairs@[i]);
                            assert(before.has_market_of(before.pairs@[i]));
                        }
                    }
                }
                Ok(())
            },
            Err(error) => {
                if text::contains(error.as_str(), "MAX_MODULE_INDEX") || text::contains(
                    error.as_str(),
                    "Cannot create more tokens",
                ) {
                    self.token_cap_reached = true;
                    self.next = n + 1;
                    Ok(())
                } else {
                    Err(
                        BootstrapError::Market {
                            condition_id: self.markets[n].condition_id.clone(),
                            cause: error,
                        },
                    )
                }
            },
        }
    }

    /// The pairs of a bootstrap that is through.
    pub fn finish(self) -> (r: Result<Vec<MarketPair>, BootstrapError>)
        ensures
            r == if self.pairs@.len() == 0 {
                Err::<Vec<MarketPair>, BootstrapError>(BootstrapError::NoMarkets)
            } else {
                Ok(self.pairs)
            },
    {
        if self.pairs.len() == 0 {
            Err(BootstrapError::NoMarkets)
        } else {
            Ok(self.pairs)
        }
    }
}

/// Once a market is there for a question, none is created for that question again.
pub proof fn law_one_market_per_question(
    existing: Map<Seq<char>, MarketRef>,
    created: GammaMarket,
    found: MarketRef,
    later: GammaMarket,
    capped: bool,
)
    requires
        text::trimmed(later.question@) == text::trimmed(created.question@),
    ensures
        !needs_creation(
            later,
            existing.insert(text::trimmed(created.question@), found),
            capped,
        ),
{
}

/// A market that is not closed, whose book is not disabled and which does not refuse orders can be
/// mirrored as soon as it has a best bid, whatever its asks, and as soon as it has a best ask,
/// whatever its bids. A market without a quote, and one that is closed, disabled or refusing, cannot.
pub proof fn law_one_quote_is_enough(market: GammaMarket)
    ensures
        market.closed != Some(true) && market.enable_order_book != Some(false)
            && market.accepting_orders != Some(false) ==> {
            &&& market.has_best_bid ==> mirrorable(market)
            &&& market.has_best_ask ==> mirrorable(market)
        },
        !market.has_best_bid && !market.has_best_ask ==> !mirrorable(market),
        market.closed == Some(true) ==> !mirrorable(market),
        market.enable_order_book == Some(false) ==> !mirrorable(market),
        market.accepting_orders == Some(false) ==> !mirrorable(market),
{
}

/// A market that can be mirrored still can once it gains a quote.
pub proof fn law_more_quotes_do_no_harm(market: GammaMarket, later: GammaMarket)
    requires
        mirrorable(market),
        later.closed == market.closed,
        later.enable_order_book == market.enable_order_book,
        later.accepting_orders == market.accepting_orders,
        market.has_best_bid ==> later.has_best_bid,
        market.has_best_ask ==> later.has_best_ask,
    ensures
        mirrorable(later),
{
}

/// The market is open for orders, has a quote, ends more than seven days from now and is not decided.
pub open spec fn is_choosable(market: GammaMarket, now: u64) -> bool {
    &&& market.closed != Some(true)
    &&& market.enable_order_book != Some(false)
    &&& market.accepting_orders != Some(false)
    &&& !(market.has_best_bid == false && market.has_best_ask == false)
    &&& market.still_active
    &&& end_date_deadline(params::string_view(market.end_date)) matches Some(deadline) && deadline
        - now > 604_800
}

/// Markets that can be chosen, in the order in which they are ranked: one that is chosen stands
/// ahead of one behind it.
proof fn lemma_open_markets(markets: Seq<GammaMarket>, now: u64)
    ensures
        open_markets(markets, now).len() <= markets.len(),
        forall|k: int|
            0 <= k < open_markets(markets, now).len() ==> markets.contains(
                #[trigger] open_markets(markets, now)[k],
            ) && is_choosable(open_markets(markets, now)[k], now),
        forall|i: int|
            0 <= i < markets.len() && is_choosable(#[trigger] markets[i], now) ==> open_markets(
                markets,
                now,
            ).contains(markets[i]),
    decreases markets.len(),
{
    if markets.len() > 0 {
        let head = markets.drop_last();
        let before = open_markets(head, now);
        let all = open_markets(markets, now);
        lemma_open_markets(head, now);
        assert forall|k: int| 0 <= k < all.len() implies markets.contains(#[trigger] all[k])
            && is_choosable(all[k], now) by {
            if k < before.len() {
                assert(all[k] == before[k]);
                let j = choose|j: int| 0 <= j < head.len() && head[j] == before[k];
                assert(markets[j] == all[k]);
            } else {
                assert(markets[markets.len() - 1] == all[k]);
            }
        }
        assert forall|i: int|
            0 <= i < markets.len() && is_choosable(#[trigger] markets[i], now) implies all.contains(
            markets[i],
        ) by {
            if i < head.len() {
                assert(head[i] == markets[i]);
                let k = choose|k: int| 0 <= k < before.len() && before[k] == head[i];
                assert(all[k] == markets[i]);
            } else {
                assert(all[before.len() as int] == markets[i]);
            }
        }
    }
}

/// The chosen markets are markets of the event that can be chosen, at most `max_markets` of them,
/// and a market that can be chosen is left out only where that many are chosen.
pub proof fn law_top_markets_are_the_first_open(
    markets: Seq<GammaMarket>,
    max_markets: nat,
    now: u64,
)
    ensures
        ({
            let chosen = first_of(open_markets(markets, now), max_markets as int);
            &&& chosen.len() <= max_markets
            &&& forall|k: int|
                0 <= k < chosen.len() ==> markets.contains(#[trigger] chosen[k]) && is_choosable(
                    chosen[k],
                    now,
                )
            &&& chosen.len() < max_markets ==> forall|i: int|
                0 <= i < markets.len() && is_choosable(#[trigger] markets[i], now)
                    ==> chosen.contains(markets[i])
        }),
{
    lemma_open_markets(markets, now);
    let all = open_markets(markets, now);
    let chosen = first_of(all, max_markets as int);
    assert forall|k: int| 0 <= k < chosen.len() implies markets.contains(#[trigger] chosen[k])
        && is_choosable(chosen[k], now) by {
        assert(chosen[k] == all[k]);
    }
}

/// Markets are chosen by rank: a market behind others changes nothing about what is chosen of them,
/// and is chosen last.
pub proof fn law_ranking_decides(markets: Seq<GammaMarket>, later: GammaMarket, max_markets: nat, now: u64)
    ensures
        ({
            let chosen = first_of(open_markets(markets, now), max_markets as int);
            let more = first_of(open_markets(markets.push(later), now), max_markets as int);
            more == if is_choosable(later, now) && chosen.len() < max_markets {
                chosen.push(later)
            } else {
                chosen
            }
        }),
{
    assert(markets.push(later).drop_last() =~= markets);
    let all = open_markets(markets, now);
    let more = open_markets(markets.push(later), now);
    if all.len() >= max_markets {
        assert(more.take(max_markets as int) =~= all.take(max_markets as int));
        assert(all.take(all.len() as int) =~= all);
    }
}

/// A time that is read as date and time goes ahead of the end of a day, and no deadline is before
/// 1970.
pub proof fn law_deadlines(by_datetime: i64, by_date: Option<i64>)
    ensures
        deadline_read(Some(by_datetime), by_date) matches Some(seconds) && (by_datetime >= 0 ==> seconds
            == by_datetime) && (by_datetime < 0 ==> seconds == 0),
        deadline_read(None, Some(by_datetime)) == deadline_read(Some(by_datetime), None),
        deadline_read(None, None) is None,
{
}

/// Time only closes a window: a deadline that is ahead was ahead before, and a later deadline is
/// ahead too.
pub proof fn law_windows_close(deadline: u64, later: u64, now: u64, before: u64)
    requires
        deadline <= later,
        before <= now,
        is_ahead(Some(deadline), now),
    ensures
        is_ahead(Some(later), before),
        deadline > now,
        !is_ahead(Some(deadline), deadline),
        !is_ahead(None, now),
{
}

/// An event is mirrored under its slug where it is open, its slug is not blank, one of its markets
/// ends more than seven days from now and one has a quote; an event without markets where it ends
/// so itself.
pub proof fn law_hot_events(event: GammaEvent, now: u64)
    ensures
        event.closed == Some(true) ==> hot_slug(event, now) is None,
        event.archived == Some(true) ==> hot_slug(event, now) is None,
        hot_slug(event, now) matches Some(slug) ==> event.slug is Some && slug == text::trimmed(
            event.slug->Some_0@,
        ) && slug.len() > 0,
        forall|i: int, j: int|
            #![trigger event.markets@[i], event.markets@[j]]
            0 <= i < event.markets@.len() && 0 <= j < event.markets@.len() && event.closed != Some(
                true,
            ) && event.archived != Some(true) && event.slug is Some && text::trimmed(
                event.slug->Some_0@,
            ).len() > 0 && (end_date_deadline(params::string_view(event.markets@[i].end_date))
                matches Some(deadline) && deadline - now > 604_800) && event.markets@[j].closed
                != Some(true) && event.markets@[j].enable_order_book != Some(false)
                && event.markets@[j].accepting_orders != Some(false) && (
            event.markets@[j].has_best_bid || event.markets@[j].has_best_ask) ==> hot_slug(
                event,
                now,
            ) == Some(text::trimmed(event.slug->Some_0@)),
{
    assert forall|i: int, j: int|
        #![trigger event.markets@[i], event.markets@[j]]
        0 <= i < event.markets@.len() && 0 <= j < event.markets@.len() && event.closed != Some(true)
            && event.archived != Some(true) && event.slug is Some && text::trimmed(
            event.slug->Some_0@,
        ).len() > 0 && (end_date_deadline(params::string_view(event.markets@[i].end_date))
            matches Some(deadline) && deadline - now > 604_800) && event.markets@[j].closed != Some(
            true,
        ) && event.markets@[j].enable_order_book != Some(false)
            && event.markets@[j].accepting_orders != Some(false) && (event.markets@[j].has_best_bid
            || event.markets@[j].has_best_ask) implies hot_slug(event, now) == Some(
        text::trimmed(event.slug->Some_0@),
    ) by {
        assert(mirrorable(event.markets@[j]));
        assert(any_mirrorable(event.markets@));
        assert(is_ahead(
            end_date_deadline(params::string_view(event.markets@[i].end_date)),
            now,
        ));
        assert(any_ahead(event.markets@, now));
    }
}

/// Of markets with one question, white space around it aside, the first counts, and every question
/// leads to a market that asks it.
pub proof fn law_first_market_of_a_question_counts(markets: Seq<Market>, i: int)
    requires
        0 <= i < markets.len(),
        forall|j: int|
            0 <= j < i ==> text::trimmed((#[trigger] markets[j]).question@) != text::trimmed(
                markets[i].question@,
            ),
    ensures
        ({
            let known = markets_by_question(markets);
            let question = text::trimmed(markets[i].question@);
            &&& known.dom().contains(question)
            &&& known[question].slug == markets[i].slug
            &&& known[question].market_address == markets[i].market_address
        }),
    decreases markets.len(),
{
    let head = markets.drop_last();
    if i < head.len() {
        assert forall|j: int| 0 <= j < i implies text::trimmed((#[trigger] head[j]).question@)
            != text::trimmed(head[i].question@) by {
            assert(head[j] == markets[j]);
        }
        law_first_market_of_a_question_counts(head, i);
    } else if markets_by_question(head).dom().contains(text::trimmed(markets[i].question@)) {
        lemma_questions_are_asked(head, text::trimmed(markets[i].question@));
        let j = choose|j: int|
            0 <= j < head.len() && text::trimmed((#[trigger] head[j]).question@) == text::trimmed(
                markets[i].question@,
            );
        assert(head[j] == markets[j]);
    }
}

proof fn lemma_questions_are_asked(markets: Seq<Market>, question: Seq<char>)
    requires
        markets_by_question(markets).dom().contains(question),
    ensures
        exists|j: int|
            0 <= j < markets.len() && text::trimmed((#[trigger] markets[j]).question@) == question,
    decreases markets.len(),
{
    if markets.len() > 0 {
        let head = markets.drop_last();
        if markets_by_question(head).dom().contains(question) {
            lemma_questions_are_asked(head, question);
            let j = choose|j: int|
                0 <= j < head.len() && text::trimmed((#[trigger] head[j]).question@) == question;
            assert(head[j] == markets[j]);
        } else {
            assert(text::trimmed(markets[markets.len() - 1].question@) == question);
        }
    }
}

/// A market is created exactly for a question that is not blank and has no market yet, as long as
/// the chain has room.
pub proof fn law_markets_are_created_where_missing(
    market: GammaMarket,
    existing: Map<Seq<char>, MarketRef>,
)
    ensures
        !needs_creation(market, existing, true),
        text::trimmed(market.question@).len() == 0 ==> !needs_creation(market, existing, false),
        existing.dom().contains(text::trimmed(market.question@)) ==> !needs_creation(
            market,
            existing,
            false,
        ),
        text::trimmed(market.question@).len() > 0 && !existing.dom().contains(
            text::trimmed(market.question@),
        ) ==> needs_creation(market, existing, false),
{
}

/// Every market whose question has a LightPool market is paired with it, in order, and no other.
pub proof fn law_existing_markets_are_reused(
    markets: Seq<GammaMarket>,
    later: GammaMarket,
    existing: Map<Seq<char>, MarketRef>,
)
    ensures
        ({
            let question = text::trimmed(later.question@);
            let before = reused_pairs(markets, existing);
            let after = reused_pairs(markets.push(later), existing);
            if question.len() > 0 && existing.dom().contains(question) {
                &&& after.len() == before.len() + 1
                &&& after.drop_last() == before
                &&& after.last().0 == later.condition_id@
                &&& after.last().1 == question
                &&& after.last().2 == existing[question].slug@
                &&& after.last().3 == existing[question].market_address@
            } else {
                after == before
            }
        }),
        reused_pairs(Seq::empty(), existing).len() == 0,
{
    assert(markets.push(later).drop_last() =~= markets);
    let before = reused_pairs(markets, existing);
    let after = reused_pairs(markets.push(later), existing);
    if after.len() > before.len() {
        assert(after.drop_last() =~= before);
    }
}

/// A failure that says that the chain has no room for more tokens is that of the token cap, whatever
/// else it says.
pub proof fn law_token_cap_failures(before: Seq<char>, after: Seq<char>, other: Seq<char>)
    ensures
        is_token_cap(before + "MAX_MODULE_INDEX"@ + after),
        is_token_cap(before + "Cannot create more tokens"@ + after),
        !text::has_part(other, "MAX_MODULE_INDEX"@) && !text::has_part(
            other,
            "Cannot create more tokens"@,
        ) ==> !is_token_cap(other),
{
    text::lemma_part_in_the_middle(before, "MAX_MODULE_INDEX"@, after);
    text::lemma_part_in_the_middle(before, "Cannot create more tokens"@, after);
}

/// A date and time is read up to its seconds: a fraction and the `Z` at the end are cut.
pub proof fn law_fractions_are_cut(time: Seq<char>, fraction: Seq<char>)
    requires
        !time.contains('.'),
        time.len() > 0,
        time.last() != 'Z',
        fraction.len() > 0,
        fraction.last() != 'Z',
    ensures
        without_fraction(time) == time,
        without_fraction(time.push('Z')) == time,
        without_fraction(time.push('.') + fraction) == time,
        without_fraction((time.push('.') + fraction).push('Z')) == time,
{
    let long = time.push('.') + fraction;
    assert(time.push('Z').drop_last() =~= time);
    assert(long.push('Z').drop_last() =~= long);
    assert(long.last() == fraction.last());
    reveal_with_fuel(text::trim_end_char, 3);
    assert(text::trim_end_char(long, 'Z') == long);
    assert(text::trim_end_char(long.push('Z'), 'Z') == long);
    assert(text::trim_end_char(time, 'Z') == time);
    assert(text::trim_end_char(time.push('Z'), 'Z') == time);
    text::law_first_index(long, '.');
    text::law_first_index(time, '.');
    let i = text::first_index(long, '.');
    assert(long[time.len() as int] == '.');
    if i < time.len() {
        assert(long[i] == time[i]);
        assert(time.contains('.'));
    }
    assert(i == time.len());
    assert(long.take(i) =~= time);
    let k = text::first_index(time, '.');
    if k < time.len() {
        assert(time.contains(time[k]));
    }
    assert(time.take(time.len() as int) =~= time);
}

/// The deadline of an end date: none where it is missing or blank, and white space around it does
/// not matter.
pub proof fn law_end_dates(end_date: Seq<char>)
    ensures
        end_date_deadline(None) is None,
        text::trimmed(end_date).len() == 0 ==> end_date_deadline(Some(end_date)) is None,
        text::trimmed(end_date).len() > 0 ==> end_date_deadline(Some(end_date)) == deadline_of(
            text::trimmed(end_date),
        ),
        end_date_deadline(Some(text::trimmed(end_date))) == end_date_deadline(Some(end_date)),
{
    text::lemma_trim_twice(end_date);
}

/// Events are taken by rank: an event behind others changes nothing about the slugs of those, and
/// adds at most its own.
pub proof fn law_event_ranking_decides(events: Seq<GammaEvent>, later: GammaEvent, now: u64)
    ensures
        hot_slugs(Seq::empty(), now).len() == 0,
        hot_slug(later, now) matches Some(slug) ==> hot_slugs(events.push(later), now) == hot_slugs(
            events,
            now,
        ).push(slug),
        hot_slug(later, now) is None ==> hot_slugs(events.push(later), now) == hot_slugs(
            events,
            now,
        ),
{
    assert(events.push(later).drop_last() =~= events);
}

/// What is taken of a list are its first items: all of them where there are few enough.
pub proof fn law_first_items<T>(items: Seq<T>, n: nat)
    ensures
        first_of(items, n as int).len() == if items.len() <= n {
            items.len()
        } else {
            n
        },
        forall|i: int|
            0 <= i < items.len() && i < n ==> #[trigger] first_of(items, n as int)[i] == items[i],
{
}

/// A list is what stands between its brackets, without white space around it. A text without
/// brackets, or with nothing between them, is none.
pub proof fn law_lists_stand_in_brackets(body: Seq<char>)
    requires
        text::trimmed(body).len() > 0,
    ensures
        list_body(seq!['['] + body + seq![']']) == Some(text::trimmed(body)),
        text::trimmed(body)[0] != '[' || text::trimmed(body).last() != ']' ==> list_body(body)
            is None,
        text::trimmed(body).len() == 1 ==> list_body(body) is None,
{
    let list = seq!['['] + body + seq![']'];
    text::lemma_already_trimmed(list);
    assert(list.subrange(1, list.len() - 1) =~= body);
}

/// A price token has neither white space nor quotes around it.
pub proof fn law_price_tokens_are_bare(part: Seq<char>)
    ensures
        price_token(part).len() <= part.len(),
        price_token(part).len() > 0 ==> price_token(part)[0] != '\'' && price_token(part).last()
            != '\'',
        (text::trimmed(part) == part && part.len() > 0 && part[0] != '"' && part[0] != '\''
            && part.last() != '"' && part.last() != '\'') ==> price_token(part) == part,
{
    text::law_trim_cuts_white_space(part);
    let bare = text::trimmed(part);
    let cut = text::trim_start_char(bare, '"');
    let plain = text::trim_end_char(cut, '"');
    let open = text::trim_start_char(plain, '\'');
    text::law_starts_are_cut(bare, '"');
    text::law_ends_are_cut(cut, '"');
    text::law_starts_are_cut(plain, '\'');
    text::law_ends_are_cut(open, '\'');
    if price_token(part).len() > 0 {
        assert(price_token(part)[0] == open[0]);
    }
    if text::trimmed(part) == part && part.len() > 0 && part[0] != '"' && part[0] != '\''
        && part.last() != '"' && part.last() != '\'' {
        assert(cut =~= part);
        assert(plain =~= part);
        assert(open =~= part);
        assert(price_token(part) =~= part);
    }
}

} // verus!
