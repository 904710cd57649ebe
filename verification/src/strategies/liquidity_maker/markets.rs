//! Slug-to-market id mapping built from Polymarket and LightPool instrument caches.

use vstd::prelude::*;

use crate::collections;
use crate::collections::{TextMap, TextSet};
use crate::decimal;
use crate::decimal::Decimal;
use crate::model;
use crate::model::{Instrument, InstrumentId, InstrumentKind};
use crate::params;
use crate::params::Params;
use crate::text;

verus! {

/// YES/NO instrument ids for a single prediction market.
#[derive(Debug)]
pub struct SlugMarketIds {
    /// Polymarket condition id or LightPool market slug.
    pub condition_id: String,
    pub yes_id: InstrumentId,
    pub no_id: InstrumentId,
}

impl Clone for SlugMarketIds {
    fn clone(&self) -> (r: SlugMarketIds)
        ensures
            r == *self,
    {
        SlugMarketIds {
            condition_id: self.condition_id.clone(),
            yes_id: self.yes_id.clone(),
            no_id: self.no_id.clone(),
        }
    }
}

/// Where markets are discovered: the venues name them differently.
#[derive(Clone, Copy, Debug, PartialEq, Eq, Structural)]
pub enum MarketVenue {
    Polymarket,
    Lightpool,
}

/// The slug in a symbol: without its `-YES` or `-NO`.
pub open spec fn slug_of_symbol(symbol: Seq<char>) -> Seq<char> {
    if "-YES"@.is_suffix_of(symbol) {
        symbol.take(symbol.len() - "-YES"@.len())
    } else if "-NO"@.is_suffix_of(symbol) {
        symbol.take(symbol.len() - "-NO"@.len())
    } else {
        symbol
    }
}

/// The market that an instrument belongs to: on Polymarket the condition id, which stands before
/// the first dash of the symbol; on LightPool the slug of its parameters, or that of its symbol.
pub open spec fn market_key(venue: MarketVenue, instrument: Instrument) -> Option<Seq<char>> {
    let symbol = instrument.id.symbol@;
    if instrument.kind != InstrumentKind::BinaryOption {
        None
    } else {
        match venue {
            MarketVenue::Polymarket => if instrument.id.venue@ == "POLYMARKET"@
                && text::first_index(symbol, '-') < symbol.len() {
                Some(symbol.take(text::first_index(symbol, '-')))
            } else {
                None
            },
            MarketVenue::Lightpool => if instrument.id.venue@ == "LIGHTPOOL"@ {
                match params::param_text(instrument.info, "market_slug"@) {
                    Some(slug) => Some(slug),
                    None => Some(slug_of_symbol(symbol)),
                }
            } else {
                None
            },
        }
    }
}

/// The lower-case outcome label of an instrument, empty where it has none.
pub open spec fn outcome_label(instrument: Instrument) -> Seq<char> {
    match instrument.outcome {
        Some(outcome) => text::lower(outcome@),
        None => Seq::<char>::empty(),
    }
}

/// The side that a label names in a market of the venue.
pub open spec fn slot_of(venue: MarketVenue, label: Seq<char>) -> OutcomeSide {
    if label == "yes"@ || (venue == MarketVenue::Polymarket && label == "up"@) {
        OutcomeSide::Yes
    } else if label == "no"@ || (venue == MarketVenue::Polymarket && label == "down"@) {
        OutcomeSide::No
    } else {
        OutcomeSide::Unknown
    }
}

/// The last instrument of a market's side.
pub open spec fn side_id(
    instruments: Seq<Instrument>,
    venue: MarketVenue,
    key: Seq<char>,
    side: OutcomeSide,
) -> Option<(Seq<char>, Seq<char>)>
    decreases instruments.len(),
{
    if instruments.len() == 0 {
        None
    } else {
        let last = instruments.last();
        if market_key(venue, last) == Some(key) && slot_of(venue, outcome_label(last)) == side {
            Some(last.id@)
        } else {
            side_id(instruments.drop_last(), venue, key, side)
        }
    }
}

/// `markets` holds each market with both sides, and nothing else.
pub open spec fn are_markets(
    markets: Map<Seq<char>, SlugMarketIds>,
    instruments: Seq<Instrument>,
    venue: MarketVenue,
) -> bool {
    forall|key: Seq<char>|
        {
            let yes = side_id(instruments, venue, key, OutcomeSide::Yes);
            let no = side_id(instruments, venue, key, OutcomeSide::No);
            &&& #[trigger] markets.dom().contains(key) <==> yes is Some && no is Some
            &&& markets.dom().contains(key) ==> {
                &&& markets[key].condition_id@ == key
                &&& Some(markets[key].yes_id@) == yes
                &&& Some(markets[key].no_id@) == no
            }
        }
}

#[derive(Clone, Copy, Debug, PartialEq, Eq, Structural)]
pub enum OutcomeSide {
    Yes,
    No,
    Unknown,
}

impl OutcomeSide {
    pub open spec fn of_label(label: Seq<char>) -> OutcomeSide {
        if label == "yes"@ || label == "up"@ {
            OutcomeSide::Yes
        } else if label == "no"@ || label == "down"@ {
            OutcomeSide::No
        } else {
            OutcomeSide::Unknown
        }
    }

    pub fn from_label(label: &str) -> (r: OutcomeSide)
        ensures
            r == OutcomeSide::of_label(label@),
    {
        if text::same(label, "yes") || text::same(label, "up") {
            OutcomeSide::Yes
        } else if text::same(label, "no") || text::same(label, "down") {
            OutcomeSide::No
        } else {
            OutcomeSide::Unknown
        }
    }

    pub open spec fn label(self) -> Seq<char> {
        match self {
            OutcomeSide::Yes => "yes"@,
            OutcomeSide::No => "no"@,
            OutcomeSide::Unknown => "unknown"@,
        }
    }

    pub fn as_str(self) -> (r: &'static str)
        ensures
            r@ == self.label(),
    {
        match self {
            OutcomeSide::Yes => "yes",
            OutcomeSide::No => "no",
            OutcomeSide::Unknown => "unknown",
        }
    }
}

/// The slug in a symbol.
pub fn market_slug_from_symbol(symbol: &str) -> (r: String)
    ensures
        r@ == slug_of_symbol(symbol@),
{
    match text::strip_suffix(symbol, "-YES") {
        Some(slug) => {
            assert(slug@ =~= symbol@.take(symbol@.len() - "-YES"@.len()));
            slug
        },
        None => match text::strip_suffix(symbol, "-NO") {
            Some(slug) => {
                assert(slug@ =~= symbol@.take(symbol@.len() - "-NO"@.len()));
                slug
            },
            None => symbol.to_owned(),
        },
    }
}

/// A reference to the parameters, where there are any.
fn info_of(info: &Option<Params>) -> (r: Option<&Params>)
    ensures
        params::owned(r) == *info,
{
    match info {
        Some(params) => Some(params),
        None => None,
    }
}

/// The market that an instrument belongs to.
fn key_of(venue: MarketVenue, instrument: &Instrument) -> (r: Option<String>)
    ensures
        params::string_view(r) == market_key(venue, *instrument),
{
    if instrument.kind != InstrumentKind::BinaryOption {
        return None;
    }
    match venue {
        MarketVenue::Polymarket => {
            if !text::same(instrument.id.venue.as_str(), "POLYMARKET") {
                return None;
            }
            match text::split_once(instrument.id.symbol.as_str(), '-') {
                Some((condition_id, _token_id)) => Some(condition_id),
                None => None,
            }
        },
        MarketVenue::Lightpool => {
            if !text::same(instrument.id.venue.as_str(), "LIGHTPOOL") {
                return None;
            }
            match params::text_param(info_of(&instrument.info), "market_slug") {
                Some(slug) => Some(slug.to_owned()),
                None => Some(market_slug_from_symbol(instrument.id.symbol.as_str())),
            }
        },
    }
}

/// The lower-case outcome label of an instrument.
fn label_of(instrument: &Instrument) -> (r: String)
    ensures
        r@ == outcome_label(*instrument),
{
    match &instrument.outcome {
        Some(outcome) => text::to_ascii_lowercase(outcome.as_str()),
        None => String::new(),
    }
}

fn slot_for(venue: MarketVenue, label: &str) -> (r: OutcomeSide)
    ensures
        r == slot_of(venue, label@),
{
    if text::same(label, "yes") || (venue == MarketVenue::Polymarket && text::same(label, "up")) {
        OutcomeSide::Yes
    } else if text::same(label, "no") || (venue == MarketVenue::Polymarket && text::same(
        label,
        "down",
    )) {
        OutcomeSide::No
    } else {
        OutcomeSide::Unknown
    }
}

/// Symbol and venue of an optional id.
pub open spec fn id_view(id: Option<InstrumentId>) -> Option<(Seq<char>, Seq<char>)> {
    match id {
        Some(id) => Some(id@),
        None => None,
    }
}

/// The sides found so far: both of a market without instruments are missing.
spec fn found_sides(
    found: Map<Seq<char>, (Option<InstrumentId>, Option<InstrumentId>)>,
    key: Seq<char>,
) -> (Option<(Seq<char>, Seq<char>)>, Option<(Seq<char>, Seq<char>)>) {
    if found.dom().contains(key) {
        (id_view(found[key].0), id_view(found[key].1))
    } else {
        (None, None)
    }
}

/// Pairs the YES and NO instruments of each market of a venue.
fn discover(instruments: &[Instrument], venue: MarketVenue) -> (r: TextMap<SlugMarketIds>)
    ensures
        are_markets(r@, instruments@, venue),
{
    let mut found: TextMap<(Option<InstrumentId>, Option<InstrumentId>)> = TextMap::new();
    let mut k: usize = 0;
    assert(instruments@.take(0) =~= Seq::<Instrument>::empty());
    while k < instruments.len()
        invariant
            k <= instruments.len(),
            forall|key: Seq<char>| #[trigger]
                found_sides(found@, key) == (
                    side_id(instruments@.take(k as int), venue, key, OutcomeSide::Yes),
                    side_id(instruments@.take(k as int), venue, key, OutcomeSide::No),
                ),
        decreases instruments.len() - k,
    {
        let instrument: &Instrument = &instruments[k];
        let ghost done = instruments@.take(k as int);
        let ghost next = instruments@.take(k + 1);
        let ghost before = found@;
        proof {
            assert(next.drop_last() =~= done);
            assert(next.last() == *instrument);
        }
        if let Some(key) = key_of(venue, instrument) {
            let label: String = label_of(instrument);
            let slot: OutcomeSide = slot_for(venue, label.as_str());
            assert(found_sides(before, key@) == (
                side_id(done, venue, key@, OutcomeSide::Yes),
                side_id(done, venue, key@, OutcomeSide::No),
            ));
            let sides: (Option<InstrumentId>, Option<InstrumentId>) = match found.get(
                key.as_str(),
            ) {
                Some(sides) => copy_sides(sides),
                None => (None, None),
            };
            let updated: (Option<InstrumentId>, Option<InstrumentId>) = match slot {
                OutcomeSide::Yes => (Some(instrument.id.clone()), sides.1),
                OutcomeSide::No => (sides.0, Some(instrument.id.clone())),
                OutcomeSide::Unknown => sides,
            };
            let _ = found.insert(key.as_str(), updated);
            proof {
                assert forall|other: Seq<char>| #[trigger] found_sides(found@, other) == (
                    side_id(next, venue, other, OutcomeSide::Yes),
                    side_id(next, venue, other, OutcomeSide::No),
                ) by {
                    assert(found_sides(before, other) == (
                        side_id(done, venue, other, OutcomeSide::Yes),
                        side_id(done, venue, other, OutcomeSide::No),
                    ));
                }
            }
        } else {
            proof {
                assert forall|other: Seq<char>| #[trigger] found_sides(found@, other) == (
                    side_id(next, venue, other, OutcomeSide::Yes),
                    side_id(next, venue, other, OutcomeSide::No),
                ) by {
                    assert(found_sides(before, other) == (
                        side_id(done, venue, other, OutcomeSide::Yes),
                        side_id(done, venue, other, OutcomeSide::No),
                    ));
                }
            }
        }
        k += 1;
    }
    assert(instruments@.take(instruments@.len() as int) =~= instruments@);
    let list: &Vec<(String, (Option<InstrumentId>, Option<InstrumentId>))> = found.entries();
    let ghost views = collections::text_entries(list@);
    let mut markets: TextMap<SlugMarketIds> = TextMap::new();
    let mut i: usize = 0;
    while i < list.len()
        invariant
            i <= list.len(),
            views == collections::text_entries(list@),
            collections::distinct_keys(views),
            collections::map_of(views) == found@,
            forall|key: Seq<char>| #[trigger]
                markets@.dom().contains(key) <==> (exists|j: int|
                    0 <= j < i && #[trigger] views[j].0 == key && views[j].1.0 is Some
                        && views[j].1.1 is Some),
            forall|key: Seq<char>| #[trigger]
                markets@.dom().contains(key) ==> market_matches(markets@[key], key, found@),
        decreases list.len() - i,
    {
        let ghost before = markets@;
        let ghost key = views[i as int].0;
        proof {
            collections::lemma_key_position(views, i as int);
        }
        let entry: &(String, (Option<InstrumentId>, Option<InstrumentId>)) = &list[i];
        if let Some(yes_id) = &entry.1.0 {
            if let Some(no_id) = &entry.1.1 {
                let market: SlugMarketIds = SlugMarketIds {
                    condition_id: entry.0.clone(),
                    yes_id: yes_id.clone(),
                    no_id: no_id.clone(),
                };
                let _ = markets.insert(entry.0.as_str(), market);
                assert(views[i as int].0 == key && views[i as int].1.0 is Some
                    && views[i as int].1.1 is Some);
                assert(market_matches(markets@[key], key, found@));
            }
        }
        proof {
            assert forall|other: Seq<char>| #[trigger]
                markets@.dom().contains(other) <==> (exists|j: int|
                    0 <= j < i + 1 && #[trigger] views[j].0 == other && views[j].1.0 is Some
                        && views[j].1.1 is Some) by {
                if before.dom().contains(other) {
                    let j = choose|j: int|
                        0 <= j < i && #[trigger] views[j].0 == other && views[j].1.0 is Some
                            && views[j].1.1 is Some;
                    assert(views[j].0 == other);
                }
                if exists|j: int|
                    0 <= j < i + 1 && #[trigger] views[j].0 == other && views[j].1.0 is Some
                        && views[j].1.1 is Some {
                    let j = choose|j: int|
                        0 <= j < i + 1 && #[trigger] views[j].0 == other && views[j].1.0 is Some
                            && views[j].1.1 is Some;
                    if j < i {
                        assert(views[j].0 == other);
                        assert(before.dom().contains(other));
                    }
                }
            }
        }
        i += 1;
    }
    proof {
        assert forall|key: Seq<char>|
            {
                let yes = side_id(instruments@, venue, key, OutcomeSide::Yes);
                let no = side_id(instruments@, venue, key, OutcomeSide::No);
                &&& #[trigger] markets@.dom().contains(key) <==> yes is Some && no is Some
                &&& markets@.dom().contains(key) ==> {
                    &&& markets@[key].condition_id@ == key
                    &&& Some(markets@[key].yes_id@) == yes
                    &&& Some(markets@[key].no_id@) == no
                }
            } by {
            let yes = side_id(instruments@, venue, key, OutcomeSide::Yes);
            let no = side_id(instruments@, venue, key, OutcomeSide::No);
            assert(found_sides(found@, key) == (yes, no));
            if markets@.dom().contains(key) {
                assert(market_matches(markets@[key], key, found@));
            }
            if yes is Some && no is Some {
                assert(found@.dom().contains(key));
                assert(collections::has_key(views, key));
                let j = collections::key_position(views, key);
                assert(views[j].0 == key);
                collections::lemma_key_position(views, j);
            }
        }
    }
    markets
}

/// A market has the key and both sides found for it.
spec fn market_matches(
    market: SlugMarketIds,
    key: Seq<char>,
    found: Map<Seq<char>, (Option<InstrumentId>, Option<InstrumentId>)>,
) -> bool {
    &&& found.dom().contains(key)
    &&& market.condition_id@ == key
    &&& id_view(found[key].0) == Some(market.yes_id@)
    &&& id_view(found[key].1) == Some(market.no_id@)
}

fn copy_sides(sides: &(Option<InstrumentId>, Option<InstrumentId>)) -> (r: (
    Option<InstrumentId>,
    Option<InstrumentId>,
))
    ensures
        r == *sides,
{
    let yes: Option<InstrumentId> = match &sides.0 {
        Some(id) => Some(id.clone()),
        None => None,
    };
    let no: Option<InstrumentId> = match &sides.1 {
        Some(id) => Some(id.clone()),
        None => None,
    };
    (yes, no)
}

/// Builds paired YES/NO markets from Polymarket binary options in cache.
pub fn discover_markets_from_cache(cache: &[Instrument]) -> (r: TextMap<SlugMarketIds>)
    ensures
        are_markets(r@, cache@, MarketVenue::Polymarket),
{
    discover(cache, MarketVenue::Polymarket)
}

/// Builds paired YES/NO markets from LightPool binary options in cache.
pub fn discover_lightpool_markets_from_cache(cache: &[Instrument]) -> (r: TextMap<SlugMarketIds>)
    ensures
        are_markets(r@, cache@, MarketVenue::Lightpool),
{
    discover(cache, MarketVenue::Lightpool)
}

/// The texts of a list.
pub open spec fn text_set(slugs: Seq<String>) -> Set<Seq<char>> {
    Set::new(|s: Seq<char>| exists|i: int| 0 <= i < slugs.len() && (#[trigger] slugs[i])@ == s)
}

/// Assigns discovered LightPool markets to configured slugs.
///
/// Returns the number of slugs that had no market before.
pub fn assign_lightpool_markets_to_slugs(
    slugs: &[String],
    discovered: &TextMap<SlugMarketIds>,
    slug_markets: &mut TextMap<SlugMarketIds>,
) -> (r: usize)
    ensures
        final(slug_markets)@ == old(slug_markets)@.union_prefer_right(
            discovered@.restrict(text_set(slugs@)),
        ),
        r == final(slug_markets)@.dom().len() - old(slug_markets)@.dom().len(),
{
    let mut new_count: usize = 0;
    let mut i: usize = 0;
    let ghost start = slug_markets@;
    let before_len: usize = slug_markets.len();
    assert(text_set(slugs@.take(0)) =~= Set::<Seq<char>>::empty());
    assert(slug_markets@ =~= start.union_prefer_right(
        discovered@.restrict(text_set(slugs@.take(0))),
    ));
    while i < slugs.len()
        invariant
            i <= slugs.len(),
            new_count <= i,
            before_len == start.dom().len(),
            slug_markets@ == start.union_prefer_right(
                discovered@.restrict(text_set(slugs@.take(i as int))),
            ),
            slug_markets@.dom().finite(),
            slug_markets@.dom().len() == before_len + new_count,
        decreases slugs.len() - i,
    {
        let slug: &String = &slugs[i];
        let ghost seen = text_set(slugs@.take(i as int));
        proof {
            lemma_text_set_next(slugs@, i as int);
        }
        if let Some(market) = discovered.get(slug.as_str()) {
            let ghost here = slug_markets@;
            if slug_markets.insert(slug.as_str(), market.clone()).is_none() {
                new_count += 1;
            }
            proof {
                assert(slug_markets@ =~= start.union_prefer_right(
                    discovered@.restrict(seen.insert(slug@)),
                ));
                assert(slug_markets@.dom() =~= here.dom().insert(slug@));
            }
        } else {
            assert(discovered@.restrict(seen.insert(slug@)) =~= discovered@.restrict(seen));
        }
        i += 1;
    }
    assert(slugs@.take(slugs@.len() as int) =~= slugs@);
    new_count
}

proof fn lemma_text_set_next(slugs: Seq<String>, i: int)
    requires
        0 <= i < slugs.len(),
    ensures
        text_set(slugs.take(i + 1)) == text_set(slugs.take(i)).insert(slugs[i]@),
{
    let a = slugs.take(i + 1);
    let b = slugs.take(i);
    assert forall|s: Seq<char>| #[trigger] text_set(a).contains(s) <==> text_set(b).insert(
        slugs[i]@,
    ).contains(s) by {
        if text_set(a).contains(s) {
            let j = choose|j: int| 0 <= j < a.len() && (#[trigger] a[j])@ == s;
            if j < i {
                assert(b[j]@ == s);
            }
        }
        if text_set(b).contains(s) {
            let j = choose|j: int| 0 <= j < b.len() && (#[trigger] b[j])@ == s;
            assert(a[j]@ == s);
        }
        assert(a[i] == slugs[i]);
    }
    assert(text_set(a) =~= text_set(b).insert(slugs[i]@));
}

/// The markets of a slug: none where the slug is unknown.
pub open spec fn markets_of(
    slug_markets: Map<Seq<char>, TextMap<SlugMarketIds>>,
    slug: Seq<char>,
) -> Map<Seq<char>, SlugMarketIds> {
    if slug_markets.dom().contains(slug) {
        slug_markets[slug]@
    } else {
        Map::empty()
    }
}

/// The condition ids of a slug: none where the slug is unknown.
pub open spec fn conditions_of(
    slug_to_conditions: Map<Seq<char>, TextSet>,
    slug: Seq<char>,
) -> Set<Seq<char>> {
    if slug_to_conditions.dom().contains(slug) {
        slug_to_conditions[slug]@
    } else {
        Set::empty()
    }
}

/// Only the entry of `slug` may differ.
pub open spec fn only_slug_changed<V>(
    before: Map<Seq<char>, V>,
    after: Map<Seq<char>, V>,
    slug: Seq<char>,
) -> bool {
    &&& after.dom() == before.dom().insert(slug)
    &&& forall|s: Seq<char>| s != slug && #[trigger] before.dom().contains(s) ==> after[s] == before[s]
}

/// Assigns discovered markets to configured event slugs: all of them to the first slug.
///
/// Returns the number of markets that the slug did not have before.
pub fn assign_markets_to_slugs(
    slugs: &[String],
    discovered: &TextMap<SlugMarketIds>,
    slug_markets: &mut TextMap<TextMap<SlugMarketIds>>,
    slug_to_conditions: &mut TextMap<TextSet>,
) -> (r: usize)
    ensures
        slugs.len() == 0 ==> r == 0 && *final(slug_markets) == *old(slug_markets)
            && *final(slug_to_conditions) == *old(slug_to_conditions),
        slugs.len() > 0 ==> {
            let slug = slugs@[0]@;
            let had = markets_of(old(slug_markets)@, slug);
            &&& only_slug_changed(old(slug_markets)@, final(slug_markets)@, slug)
            &&& final(slug_markets)@[slug]@ == had.union_prefer_right(discovered@)
            &&& only_slug_changed(old(slug_to_conditions)@, final(slug_to_conditions)@, slug)
            &&& final(slug_to_conditions)@[slug]@ == conditions_of(
                old(slug_to_conditions)@,
                slug,
            ).union(discovered@.dom().difference(had.dom()))
            &&& r == discovered@.dom().difference(had.dom()).len()
        },
{
    if slugs.len() == 0 {
        return 0;
    }
    let slug: &String = &slugs[0];
    let ghost had = markets_of(slug_markets@, slug@);
    let ghost knew = conditions_of(slug_to_conditions@, slug@);
    let mut conditions: TextSet = match slug_to_conditions.insert(slug.as_str(), TextSet::new()) {
        Some(conditions) => conditions,
        None => TextSet::new(),
    };
    let mut markets_for_slug: TextMap<SlugMarketIds> = match slug_markets.insert(
        slug.as_str(),
        TextMap::new(),
    ) {
        Some(markets) => markets,
        None => TextMap::new(),
    };
    let list: &Vec<(String, SlugMarketIds)> = discovered.entries();
    let ghost views = collections::text_entries(list@);
    let mut new_count: usize = 0;
    let mut i: usize = 0;
    proof {
        lemma_keys_next(views, 0);
        assert(keys_before(views, 0) =~= Set::<Seq<char>>::empty());
        assert(markets_for_slug@ =~= had.union_prefer_right(
            discovered@.restrict(keys_before(views, 0)),
        ));
        assert(conditions@ =~= knew.union(keys_before(views, 0).difference(had.dom())));
        assert(keys_before(views, 0).difference(had.dom()) =~= Set::<Seq<char>>::empty());
    }
    while i < list.len()
        invariant
            i <= list.len(),
            new_count <= i,
            views == collections::text_entries(list@),
            collections::distinct_keys(views),
            collections::map_of(views) == discovered@,
            markets_for_slug@ == had.union_prefer_right(
                discovered@.restrict(keys_before(views, i as int)),
            ),
            conditions@ == knew.union(keys_before(views, i as int).difference(had.dom())),
            keys_before(views, i as int).difference(had.dom()).finite(),
            new_count == keys_before(views, i as int).difference(had.dom()).len(),
        decreases list.len() - i,
    {
        let entry: &(String, SlugMarketIds) = &list[i];
        let ghost key = views[i as int].0;
        let ghost before = keys_before(views, i as int);
        proof {
            collections::lemma_key_position(views, i as int);
            lemma_keys_next(views, i as int);
        }
        let ghost was = markets_for_slug@;
        let fresh: bool = markets_for_slug.insert(
            entry.0.as_str(),
            entry.1.clone(),
        ).is_none();
        proof {
            assert(was.dom().contains(key) <==> had.dom().contains(key)) by {
                assert(!before.contains(key)) by {
                    if before.contains(key) {
                        let j = choose|j: int| 0 <= j < i && (#[trigger] views[j]).0 == key;
                        assert(views[j].0 != views[i as int].0);
                    }
                }
            }
            assert(markets_for_slug@ =~= had.union_prefer_right(
                discovered@.restrict(before.insert(key)),
            ));
        }
        if fresh {
            let _ = conditions.insert(entry.0.as_str());
            new_count += 1;
            proof {
                assert(before.insert(key).difference(had.dom()) =~= before.difference(
                    had.dom(),
                ).insert(key));
                assert(!before.difference(had.dom()).contains(key)) by {
                    if before.contains(key) {
                        let j = choose|j: int| 0 <= j < i && (#[trigger] views[j]).0 == key;
                        assert(views[j].0 != views[i as int].0);
                    }
                }
                assert(conditions@ =~= knew.union(before.insert(key).difference(had.dom())));
            }
        } else {
            assert(before.insert(key).difference(had.dom()) =~= before.difference(had.dom()));
        }
        i += 1;
    }
    proof {
        assert(keys_before(views, views.len() as int) =~= discovered@.dom()) by {
            assert forall|key: Seq<char>| #[trigger]
                keys_before(views, views.len() as int).contains(key)
                    <==> discovered@.dom().contains(key) by {
                assert(discovered@.dom().contains(key) <==> collections::has_key(views, key));
            }
        }
        assert(discovered@.restrict(discovered@.dom()) =~= discovered@);
    }
    let _ = slug_markets.insert(slug.as_str(), markets_for_slug);
    let _ = slug_to_conditions.insert(slug.as_str(), conditions);
    proof {
        assert(final(slug_markets)@.dom() =~= old(slug_markets)@.dom().insert(slug@));
        assert(final(slug_to_conditions)@.dom() =~= old(slug_to_conditions)@.dom().insert(slug@));
    }
    new_count
}

/// The keys of the first `n` entries.
spec fn keys_before<V>(entries: Seq<(Seq<char>, V)>, n: int) -> Set<Seq<char>> {
    Set::new(|s: Seq<char>| exists|i: int| 0 <= i < n && (#[trigger] entries[i]).0 == s)
}

proof fn lemma_keys_next<V>(entries: Seq<(Seq<char>, V)>, n: int)
    ensures
        0 <= n < entries.len() ==> keys_before(entries, n + 1) == keys_before(entries, n).insert(
            entries[n].0,
        ),
{
    if 0 <= n < entries.len() {
        let a = keys_before(entries, n + 1);
        let b = keys_before(entries, n);
        assert forall|s: Seq<char>| #[trigger] a.contains(s) <==> b.insert(entries[n].0).contains(
            s,
        ) by {
            assert(entries[n].0 == entries[n].0);
        }
        assert(a =~= b.insert(entries[n].0));
    }
}

/// The side that the live instrument's outcome label names.
pub open spec fn outcome_side(
    cache: Seq<Instrument>,
    id: (Seq<char>, Seq<char>),
) -> OutcomeSide {
    match model::cached(cache, id) {
        Some(instrument) => if instrument.kind == InstrumentKind::BinaryOption {
            OutcomeSide::of_label(outcome_label(instrument))
        } else {
            OutcomeSide::Unknown
        },
        None => OutcomeSide::Unknown,
    }
}

pub fn instrument_outcome_side(cache: &[Instrument], instrument_id: &InstrumentId) -> (r:
    OutcomeSide)
    ensures
        r == outcome_side(cache@, instrument_id@),
{
    match model::find_instrument(cache, instrument_id) {
        Some(instrument) => if instrument.kind == InstrumentKind::BinaryOption {
            OutcomeSide::from_label(label_of(instrument).as_str())
        } else {
            OutcomeSide::Unknown
        },
        None => OutcomeSide::Unknown,
    }
}

/// The spot market of a cached instrument: its raw symbol.
pub fn instrument_spot_market(cache: &[Instrument], instrument_id: &InstrumentId) -> (r: Option<
    String,
>)
    ensures
        params::string_view(r) == (match model::cached(cache@, instrument_id@) {
            Some(instrument) => Some(instrument.raw_symbol@),
            None => None,
        }),
{
    match model::find_instrument(cache, instrument_id) {
        Some(instrument) => Some(instrument.raw_symbol.clone()),
        None => None,
    }
}

/// The live labels say NO for the yes slot and YES for the no slot.
pub open spec fn labels_swapped(cache: Seq<Instrument>, pair: SlugMarketIds) -> bool {
    outcome_side(cache, pair.yes_id@) == OutcomeSide::No && outcome_side(cache, pair.no_id@)
        == OutcomeSide::Yes
}

/// The YES and NO ids of a pair: its slots, or the other way round where the live labels say so.
pub open spec fn resolved_pair(cache: Seq<Instrument>, pair: SlugMarketIds) -> (
    InstrumentId,
    InstrumentId,
) {
    if labels_swapped(cache, pair) {
        (pair.no_id, pair.yes_id)
    } else {
        (pair.yes_id, pair.no_id)
    }
}

/// Resolve YES/NO ids using live instrument outcome labels (not slot names alone).
pub fn resolve_yes_no_pair(cache: &[Instrument], pair: &SlugMarketIds) -> (r: Option<
    (InstrumentId, InstrumentId),
>)
    ensures
        r == Some(resolved_pair(cache@, *pair)),
{
    let yes_slot: OutcomeSide = instrument_outcome_side(cache, &pair.yes_id);
    let no_slot: OutcomeSide = instrument_outcome_side(cache, &pair.no_id);
    match (yes_slot, no_slot) {
        (OutcomeSide::Yes, OutcomeSide::No) => Some((pair.yes_id.clone(), pair.no_id.clone())),
        (OutcomeSide::No, OutcomeSide::Yes) => Some((pair.no_id.clone(), pair.yes_id.clone())),
        _ => Some((pair.yes_id.clone(), pair.no_id.clone())),
    }
}

/// YES prices are expected at 0.55 or below, NO prices at 0.55 or above.
pub fn price_matches_outcome(outcome: OutcomeSide, price: Decimal) -> (r: bool)
    requires
        price.valid(),
    ensures
        r == match outcome {
            OutcomeSide::Yes => price.mantissa * 100 <= 55 * decimal::pow10(price.scale as nat),
            OutcomeSide::No => price.mantissa * 100 >= 55 * decimal::pow10(price.scale as nat),
            OutcomeSide::Unknown => true,
        },
{
    proof {
        decimal::lemma_pow10_values();
    }
    let split: Decimal = Decimal { mantissa: 55, scale: 2 };
    match outcome {
        OutcomeSide::Yes => !split.less_than(price),
        OutcomeSide::No => !price.less_than(split),
        OutcomeSide::Unknown => true,
    }
}

/// `size@price`.
pub open spec fn level_text(level: (Decimal, Decimal)) -> Seq<char> {
    decimal::decimal_display(level.1.mantissa, level.1.scale).push('@')
        + decimal::decimal_display(level.0.mantissa, level.0.scale)
}

/// The first levels of a side, prices and sizes, as `size@price, size@price`.
pub fn format_decimal_levels(levels: &[(Decimal, Decimal)], limit: usize) -> (r: String)
    requires
        forall|i: int|
            0 <= i < levels.len() ==> (#[trigger] levels@[i]).0.valid() && levels@[i].1.valid(),
    ensures
        r@ == text::joined(
            Seq::new(
                if limit < levels.len() {
                    limit as nat
                } else {
                    levels@.len()
                },
                |i: int| level_text(levels@[i]),
            ),
            ", "@,
        ),
{
    let n: usize = if limit < levels.len() {
        limit
    } else {
        levels.len()
    };
    let mut parts: Vec<String> = Vec::new();
    let mut i: usize = 0;
    while i < n
        invariant
            i <= n <= levels.len(),
            forall|k: int|
                0 <= k < levels.len() ==> (#[trigger] levels@[k]).0.valid()
                    && levels@[k].1.valid(),
            text::texts(parts@) == Seq::new(i as nat, |k: int| level_text(levels@[k])),
        decreases n - i,
    {
        let mut part: String = levels[i].1.text();
        part.push('@');
        part.append(levels[i].0.text().as_str());
        assert(part@ == level_text(levels@[i as int]));
        let ghost before = text::texts(parts@);
        let ghost added = part@;
        parts.push(part);
        assert(text::texts(parts@) =~= before.push(added));
        assert(text::texts(parts@) =~= Seq::new((i + 1) as nat, |k: int| level_text(levels@[k])));
        i += 1;
    }
    text::join(&parts, ", ")
}

/// The labels of outcomes: `yes` and `up` are YES, `no` and `down` are NO, and LightPool has the
/// first of each alone.
pub proof fn law_outcome_labels()
    ensures
        OutcomeSide::of_label("yes"@) == OutcomeSide::Yes,
        OutcomeSide::of_label("up"@) == OutcomeSide::Yes,
        OutcomeSide::of_label("no"@) == OutcomeSide::No,
        OutcomeSide::of_label("down"@) == OutcomeSide::No,
        slot_of(MarketVenue::Polymarket, "yes"@) == OutcomeSide::Yes,
        slot_of(MarketVenue::Polymarket, "up"@) == OutcomeSide::Yes,
        slot_of(MarketVenue::Polymarket, "no"@) == OutcomeSide::No,
        slot_of(MarketVenue::Polymarket, "down"@) == OutcomeSide::No,
        slot_of(MarketVenue::Lightpool, "yes"@) == OutcomeSide::Yes,
        slot_of(MarketVenue::Lightpool, "no"@) == OutcomeSide::No,
        slot_of(MarketVenue::Lightpool, "up"@) == OutcomeSide::Unknown,
        slot_of(MarketVenue::Lightpool, "down"@) == OutcomeSide::Unknown,
{
    reveal_strlit("yes");
    reveal_strlit("up");
    reveal_strlit("no");
    reveal_strlit("down");
    assert("yes"@.len() == 3 && "up"@.len() == 2 && "no"@.len() == 2 && "down"@.len() == 4);
    assert("up"@[0] == 'u' && "no"@[0] == 'n');
}

/// The instrument of an outcome is one of the venue's options with the key of the market and the
/// label of the outcome: the last of them, and there is one where there is such an option.
pub proof fn law_outcome_instruments(
    instruments: Seq<Instrument>,
    venue: MarketVenue,
    key: Seq<char>,
    side: OutcomeSide,
)
    ensures
        side_id(instruments, venue, key, side) matches Some(id) ==> exists|i: int|
            0 <= i < instruments.len() && (#[trigger] instruments[i]).id@ == id && market_key(
                venue,
                instruments[i],
            ) == Some(key) && slot_of(venue, outcome_label(instruments[i])) == side,
        forall|i: int|
            0 <= i < instruments.len() && market_key(venue, #[trigger] instruments[i]) == Some(key)
                && slot_of(venue, outcome_label(instruments[i])) == side ==> side_id(
                instruments,
                venue,
                key,
                side,
            ) is Some,
    decreases instruments.len(),
{
    if instruments.len() > 0 {
        let head = instruments.drop_last();
        let n = instruments.len() - 1;
        law_outcome_instruments(head, venue, key, side);
        assert(instruments[n] == instruments.last());
        if market_key(venue, instruments.last()) == Some(key) && slot_of(
            venue,
            outcome_label(instruments.last()),
        ) == side {
            assert(instruments[n].id@ == instruments.last().id@);
        } else {
            if let Some(id) = side_id(head, venue, key, side) {
                let i = choose|i: int|
                    0 <= i < head.len() && (#[trigger] head[i]).id@ == id && market_key(
                        venue,
                        head[i],
                    ) == Some(key) && slot_of(venue, outcome_label(head[i])) == side;
                assert(instruments[i] == head[i]);
            }
            assert forall|i: int|
                0 <= i < instruments.len() && market_key(venue, #[trigger] instruments[i]) == Some(
                    key,
                ) && slot_of(venue, outcome_label(instruments[i])) == side implies side_id(
                instruments,
                venue,
                key,
                side,
            ) is Some by {
                assert(head[i] == instruments[i]);
            }
        }
    }
}

/// The key of a market: only options have one, a Polymarket option the text ahead of the first
/// hyphen of its symbol, a LightPool option its slug, or its symbol without the outcome.
pub proof fn law_market_keys(instrument: Instrument, condition: Seq<char>, token: Seq<char>)
    requires
        !condition.contains('-'),
        instrument.id.symbol@ == condition.push('-') + token,
    ensures
        instrument.kind != InstrumentKind::BinaryOption ==> market_key(
            MarketVenue::Polymarket,
            instrument,
        ) is None && market_key(MarketVenue::Lightpool, instrument) is None,
        instrument.kind == InstrumentKind::BinaryOption && instrument.id.venue@ == "POLYMARKET"@
            ==> market_key(MarketVenue::Polymarket, instrument) == Some(condition),
        instrument.id.venue@ != "POLYMARKET"@ ==> market_key(MarketVenue::Polymarket, instrument)
            is None,
        instrument.id.venue@ != "LIGHTPOOL"@ ==> market_key(MarketVenue::Lightpool, instrument)
            is None,
        instrument.kind == InstrumentKind::BinaryOption && instrument.id.venue@ == "LIGHTPOOL"@ && (
        params::param_text(instrument.info, "market_slug"@) is Some) ==> market_key(
            MarketVenue::Lightpool,
            instrument,
        ) == params::param_text(instrument.info, "market_slug"@),
{
    let symbol = instrument.id.symbol@;
    lemma_first_hyphen(condition, token);
    assert(symbol.take(condition.len() as int) =~= condition);
}

proof fn lemma_first_hyphen(condition: Seq<char>, token: Seq<char>)
    requires
        !condition.contains('-'),
    ensures
        text::first_index(condition.push('-') + token, '-') == condition.len(),
    decreases condition.len(),
{
    let symbol = condition.push('-') + token;
    if condition.len() > 0 {
        assert(symbol[0] == condition[0]);
        assert(condition.contains(condition[0]));
        let rest = condition.skip(1);
        assert(!rest.contains('-')) by {
            if rest.contains('-') {
                let i = choose|i: int| 0 <= i < rest.len() && rest[i] == '-';
                assert(condition[i + 1] == '-');
            }
        }
        lemma_first_hyphen(rest, token);
        assert(symbol.skip(1) =~= rest.push('-') + token);
    } else {
        assert(symbol[0] == '-');
    }
}

/// The slug of a LightPool symbol is the symbol without its outcome.
pub proof fn law_slugs_of_symbols(slug: Seq<char>)
    ensures
        slug_of_symbol(slug + "-YES"@) == slug,
        slug_of_symbol(slug + "-NO"@) == slug,
{
    reveal_strlit("-YES");
    reveal_strlit("-NO");
    let yes = slug + "-YES"@;
    let no = slug + "-NO"@;
    assert("-YES"@.len() == 4 && "-NO"@.len() == 3);
    assert(yes.subrange(yes.len() - 4, yes.len() as int) =~= "-YES"@);
    assert("-YES"@.is_suffix_of(yes));
    assert(yes.take(yes.len() - 4) =~= slug);
    assert(no.last() == 'O');
    assert("-YES"@.last() == 'S');
    if "-YES"@.is_suffix_of(no) {
        assert(no.subrange(no.len() - 4, no.len() as int)[3] == no[no.len() - 1]);
    }
    assert(no.subrange(no.len() - 3, no.len() as int) =~= "-NO"@);
    assert("-NO"@.is_suffix_of(no));
    assert(no.take(no.len() - 3) =~= slug);
}

/// YES and NO of a market are exchanged exactly where the cache labels them the other way round.
pub proof fn law_labels_decide_the_pair(cache: Seq<Instrument>, pair: SlugMarketIds)
    ensures
        outcome_side(cache, pair.yes_id@) == OutcomeSide::No && outcome_side(cache, pair.no_id@)
            == OutcomeSide::Yes ==> resolved_pair(cache, pair) == (pair.no_id, pair.yes_id),
        outcome_side(cache, pair.yes_id@) != OutcomeSide::No ==> resolved_pair(cache, pair) == (
            pair.yes_id,
            pair.no_id,
        ),
        outcome_side(cache, pair.no_id@) != OutcomeSide::Yes ==> resolved_pair(cache, pair) == (
            pair.yes_id,
            pair.no_id,
        ),
{
}

} // verus!
