//! What the command lines of the live runners ask for.

use vstd::prelude::*;

use crate::config::SpotMarketBootstrap;
use crate::params;
use crate::strategies::equity_liquidity_maker::config::EquityMarketPair;
use crate::strategies::liquidity_maker::bootstrap::MarketPair;
use crate::text;

verus! {

/// A market of the tokenized-stocks registry.
#[derive(Debug)]
pub struct RegistryMarket {
    pub symbol: String,
    pub base_token: String,
    pub quote_token: String,
    pub spot_market: String,
}

/// The tokenized-stocks registry.
#[derive(Debug)]
pub struct RegistryFile {
    pub markets: Vec<RegistryMarket>,
}

/// The pieces of a list without white space around them, blank ones left out.
pub open spec fn filled_pieces(parts: Seq<Seq<char>>) -> Seq<Seq<char>>
    decreases parts.len(),
{
    if parts.len() == 0 {
        Seq::empty()
    } else {
        let before = filled_pieces(parts.drop_last());
        let last = text::trimmed(parts.last());
        if last.len() > 0 {
            before.push(last)
        } else {
            before
        }
    }
}

/// The items of a comma-separated list.
pub open spec fn csv_items(raw: Seq<char>) -> Seq<Seq<char>> {
    filled_pieces(text::pieces(raw, ','))
}

/// The items of a comma-separated list.
pub fn parse_csv_list(raw: &str) -> (r: Vec<String>)
    ensures
        text::texts(r@) == csv_items(raw@),
{
    let parts: Vec<String> = text::split(raw, ',');
    let ghost views = text::texts(parts@);
    let mut items: Vec<String> = Vec::new();
    assert(text::texts(items@) =~= filled_pieces(views.take(0)));
    let mut i: usize = 0;
    while i < parts.len()
        invariant
            i <= parts@.len(),
            views == text::texts(parts@),
            views == text::pieces(raw@, ','),
            text::texts(items@) == filled_pieces(views.take(i as int)),
        decreases parts@.len() - i,
    {
        proof {
            assert(views.take(i + 1).drop_last() =~= views.take(i as int));
            assert(views.take(i + 1).last() == parts@[i as int]@);
        }
        let trimmed: String = text::trim(parts[i].as_str());
        if trimmed.as_str().unicode_len() > 0 {
            let ghost before = text::texts(items@);
            items.push(trimmed);
            assert(text::texts(items@) =~= before.push(trimmed@));
        }
        i += 1;
    }
    assert(views.take(i as int) =~= views);
    items
}

/// The tickers of `--symbol`, in upper case.
pub fn parse_symbols(raw: &str) -> (r: Vec<String>)
    ensures
        text::texts(r@) == csv_items(raw@).map_values(|item: Seq<char>| text::upper(item)),
{
    let items: Vec<String> = parse_csv_list(raw);
    let mut symbols: Vec<String> = Vec::new();
    let ghost wanted = csv_items(raw@).map_values(|item: Seq<char>| text::upper(item));
    let mut i: usize = 0;
    while i < items.len()
        invariant
            i <= items@.len(),
            text::texts(items@) == csv_items(raw@),
            wanted == csv_items(raw@).map_values(|item: Seq<char>| text::upper(item)),
            text::texts(symbols@) == wanted.take(i as int),
        decreases items@.len() - i,
    {
        let symbol: String = text::to_ascii_uppercase(items[i].as_str());
        let ghost before = text::texts(symbols@);
        symbols.push(symbol);
        proof {
            assert(text::texts(items@).len() == items@.len());
            assert(text::texts(items@)[i as int] == items@[i as int]@);
            assert(text::texts(symbols@) =~= before.push(symbol@));
            assert(text::texts(symbols@) =~= wanted.take(i + 1));
        }
        i += 1;
    }
    assert(text::texts(items@).len() == items@.len());
    assert(wanted.take(i as int) =~= wanted);
    symbols
}

/// Position of the first market of a symbol, or the number of markets.
pub open spec fn registry_index(markets: Seq<RegistryMarket>, symbol: Seq<char>) -> int
    decreases markets.len(),
{
    if markets.len() == 0 || text::same_ignoring_case(markets[0].symbol@, symbol) {
        0
    } else {
        1 + registry_index(markets.skip(1), symbol)
    }
}

/// The first market of a symbol, up to case.
pub open spec fn registry_market(markets: Seq<RegistryMarket>, symbol: Seq<char>) -> Option<
    RegistryMarket,
> {
    let i = registry_index(markets, symbol);
    if i < markets.len() {
        Some(markets[i])
    } else {
        None
    }
}

proof fn lemma_registry_index(markets: Seq<RegistryMarket>, symbol: Seq<char>, i: int)
    requires
        0 <= i <= markets.len(),
        forall|k: int|
            0 <= k < i ==> !text::same_ignoring_case((#[trigger] markets[k]).symbol@, symbol),
        i == markets.len() || text::same_ignoring_case(markets[i].symbol@, symbol),
    ensures
        registry_index(markets, symbol) == i,
    decreases i,
{
    if i > 0 {
        assert(!text::same_ignoring_case(markets[0].symbol@, symbol));
        lemma_registry_index(markets.skip(1), symbol, i - 1);
    }
}

/// The first market of a symbol, up to case.
pub fn find_registry_market<'a>(registry: &'a RegistryFile, symbol: &str) -> (r: Option<
    &'a RegistryMarket,
>)
    ensures
        params::owned(r) == registry_market(registry.markets@, symbol@),
{
    let mut i: usize = 0;
    while i < registry.markets.len()
        invariant
            i <= registry.markets@.len(),
            forall|k: int|
                0 <= k < i ==> !text::same_ignoring_case(
                    (#[trigger] registry.markets@[k]).symbol@,
                    symbol@,
                ),
        decreases registry.markets@.len() - i,
    {
        if text::eq_ignore_ascii_case(registry.markets[i].symbol.as_str(), symbol) {
            proof {
                lemma_registry_index(registry.markets@, symbol@, i as int);
            }
            return Some(&registry.markets[i]);
        }
        i += 1;
    }
    proof {
        lemma_registry_index(registry.markets@, symbol@, i as int);
    }
    None
}

/// Where the registry may be: where the environment says, then next to the usual directories.
pub fn registry_candidates(env_path: Option<&str>, manifest_dir: &str) -> (r: Vec<String>)
    ensures
        text::texts(r@) == (match params::text_view(env_path) {
            Some(path) => if text::trimmed(path).len() > 0 {
                seq![text::trimmed(path)]
            } else {
                Seq::empty()
            },
            None => Seq::empty(),
        }) + seq![
            "../data/tokenized-stocks/registry.json"@,
            "../../data/tokenized-stocks/registry.json"@,
            manifest_dir@ + "/../../../data/tokenized-stocks/registry.json"@,
        ],
{
    let mut paths: Vec<String> = Vec::new();
    if let Some(path) = env_path {
        let trimmed: String = text::trim(path);
        if trimmed.as_str().unicode_len() > 0 {
            paths.push(trimmed);
        }
    }
    paths.push("../data/tokenized-stocks/registry.json".to_owned());
    paths.push("../../data/tokenized-stocks/registry.json".to_owned());
    paths.push(text::append(manifest_dir, "/../../../data/tokenized-stocks/registry.json"));
    proof {
        let first: Seq<Seq<char>> = match params::text_view(env_path) {
            Some(path) => if text::trimmed(path).len() > 0 {
                seq![text::trimmed(path)]
            } else {
                Seq::empty()
            },
            None => Seq::empty(),
        };
        assert(text::texts(paths@) =~= first + seq![
            "../data/tokenized-stocks/registry.json"@,
            "../../data/tokenized-stocks/registry.json"@,
            manifest_dir@ + "/../../../data/tokenized-stocks/registry.json"@,
        ]);
    }
    paths
}

/// Why the markets of some symbols are not known.
#[derive(Debug)]
pub enum ResolveError {
    /// There are not as many spot markets as symbols.
    CountMismatch { spots: usize, symbols: usize },
    /// Neither the command line nor the registry has the spot market of the symbol.
    MissingSpotMarket(String),
    /// The registry does not have the symbol.
    MissingTokens(String),
}

impl ResolveError {
    pub open spec fn text(self) -> Seq<char> {
        match self {
            ResolveError::CountMismatch { spots, symbols } => "--spot-market count ("@
                + text::decimal_text(spots as nat) + ") must match --symbol count ("@
                + text::decimal_text(symbols as nat) + ")"@,
            ResolveError::MissingSpotMarket(symbol) => "missing spot_market for "@ + symbol@
                + ": pass --spot-market or provide registry (TOKENIZED_STOCKS_REGISTRY / $LABS/data/tokenized-stocks/registry.json)"@,
            ResolveError::MissingTokens(symbol) => "missing base_token/quote_token for "@ + symbol@
                + ": registry entry required (TOKENIZED_STOCKS_REGISTRY or $LABS/data/tokenized-stocks/registry.json)"@,
        }
    }

    /// The refusal in words.
    pub fn message(&self) -> (r: String)
        ensures
            r@ == self.text(),
    {
        match self {
            ResolveError::CountMismatch { spots, symbols } => {
                let mut r: String = text::append(
                    "--spot-market count (",
                    text::u64_text(*spots as u64).as_str(),
                );
                r.append(") must match --symbol count (");
                r.append(text::u64_text(*symbols as u64).as_str());
                r.append(")");
                r
            },
            ResolveError::MissingSpotMarket(symbol) => {
                let mut r: String = text::append("missing spot_market for ", symbol.as_str());
                r.append(
                    ": pass --spot-market or provide registry (TOKENIZED_STOCKS_REGISTRY / $LABS/data/tokenized-stocks/registry.json)",
                );
                r
            },
            ResolveError::MissingTokens(symbol) => {
                let mut r: String = text::append(
                    "missing base_token/quote_token for ",
                    symbol.as_str(),
                );
                r.append(
                    ": registry entry required (TOKENIZED_STOCKS_REGISTRY or $LABS/data/tokenized-stocks/registry.json)",
                );
                r
            },
        }
    }
}

/// The market that the registry has for a symbol.
pub open spec fn known_market(registry: Option<RegistryFile>, symbol: Seq<char>) -> Option<
    RegistryMarket,
> {
    match registry {
        Some(registry) => registry_market(registry.markets@, symbol),
        None => None,
    }
}

/// `pair` is the market of `symbol`: at the spot market of the command line, else at that of the
/// registry, with the registry's tokens.
pub open spec fn is_pair_of(
    pair: EquityMarketPair,
    symbol: Seq<char>,
    spot: Option<Seq<char>>,
    market: RegistryMarket,
) -> bool {
    &&& pair.symbol@ == symbol
    &&& pair.hl_coin@ == "xyz:"@ + symbol
    &&& pair.spot.symbol@ == symbol
    &&& pair.spot.spot_market@ == match spot {
        Some(spot) => spot,
        None => market.spot_market@,
    }
    &&& pair.spot.base_token@ == market.base_token@
    &&& pair.spot.quote_token@ == market.quote_token@
}

/// The spot market that the command line gives symbol `i`.
pub open spec fn spot_at(spots: Option<Vec<String>>, i: int) -> Option<Seq<char>> {
    match spots {
        Some(spots) => Some(spots@[i]@),
        None => None,
    }
}

/// Why symbol `i` cannot be resolved, where it cannot: without a registry entry a spot market of the
/// command line is not enough.
pub open spec fn refuses(
    e: ResolveError,
    symbol: Seq<char>,
    has_spot: bool,
) -> bool {
    match e {
        ResolveError::MissingSpotMarket(name) => !has_spot && name@ == symbol,
        ResolveError::MissingTokens(name) => has_spot && name@ == symbol,
        ResolveError::CountMismatch { .. } => false,
    }
}

/// The counts of spot markets and symbols differ.
pub open spec fn counts_differ(spots: Option<Vec<String>>, symbols: Seq<String>) -> bool {
    spots matches Some(spots) && spots@.len() != symbols.len()
}

/// The markets of some symbols: all of them, or why the first that is not known is not.
pub fn resolve_markets(
    symbols: &Vec<String>,
    spot_markets: &Option<Vec<String>>,
    registry: Option<&RegistryFile>,
) -> (r: Result<Vec<EquityMarketPair>, ResolveError>)
    ensures
        counts_differ(*spot_markets, symbols@) ==> r == Err::<Vec<EquityMarketPair>, ResolveError>(
            ResolveError::CountMismatch {
                spots: spot_markets->Some_0@.len() as usize,
                symbols: symbols@.len() as usize,
            },
        ),
        !counts_differ(*spot_markets, symbols@) ==> match r {
            Ok(pairs) => {
                &&& pairs@.len() == symbols@.len()
                &&& forall|i: int|
                    0 <= i < symbols@.len() ==> {
                        &&& known_market(params::owned(registry), symbols@[i]@) is Some
                        &&& is_pair_of(
                            #[trigger] pairs@[i],
                            symbols@[i]@,
                            spot_at(*spot_markets, i),
                            known_market(params::owned(registry), symbols@[i]@)->Some_0,
                        )
                    }
            },
            Err(e) => exists|i: int|
                {
                    &&& 0 <= i < symbols@.len()
                    &&& #[trigger] known_market(params::owned(registry), symbols@[i]@) is None
                    &&& forall|k: int|
                        0 <= k < i ==> known_market(
                            params::owned(registry),
                            (#[trigger] symbols@[k])@,
                        ) is Some
                    &&& refuses(e, symbols@[i]@, spot_markets is Some)
                },
        },
{
    if let Some(spots) = spot_markets {
        if spots.len() != symbols.len() {
            return Err(
                ResolveError::CountMismatch { spots: spots.len(), symbols: symbols.len() },
            );
        }
    }
    let mut pairs: Vec<EquityMarketPair> = Vec::new();
    let mut i: usize = 0;
    while i < symbols.len()
        invariant
            i <= symbols@.len(),
            !counts_differ(*spot_markets, symbols@),
            pairs@.len() == i,
            forall|k: int|
                0 <= k < i ==> known_market(
                    params::owned(registry),
                    (#[trigger] symbols@[k])@,
                ) is Some,
            forall|k: int|
                0 <= k < i ==> is_pair_of(
                    #[trigger] pairs@[k],
                    symbols@[k]@,
                    spot_at(*spot_markets, k),
                    known_market(params::owned(registry), symbols@[k]@)->Some_0,
                ),
        decreases symbols@.len() - i,
    {
        let symbol: &String = &symbols[i];
        let found: Option<&RegistryMarket> = match registry {
            Some(registry) => find_registry_market(registry, symbol.as_str()),
            None => None,
        };
        let spot: Option<String> = match spot_markets {
            Some(spots) => Some(spots[i].clone()),
            None => None,
        };
        match found {
            Some(market) => {
                let spot_market: String = match spot {
                    Some(spot) => spot,
                    None => market.spot_market.clone(),
                };
                pairs.push(
                    EquityMarketPair {
                        symbol: symbol.clone(),
                        hl_coin: text::append("xyz:", symbol.as_str()),
                        spot: SpotMarketBootstrap {
                            symbol: symbol.clone(),
                            spot_market,
                            base_token: market.base_token.clone(),
                            quote_token: market.quote_token.clone(),
                        },
                    },
                );
            },
            None => {
                assert(known_market(params::owned(registry), symbols@[i as int]@) is None);
                let e: ResolveError = if spot.is_none() {
                    ResolveError::MissingSpotMarket(symbol.clone())
                } else {
                    ResolveError::MissingTokens(symbol.clone())
                };
                return Err(e);
            },
        }
        i += 1;
    }
    Ok(pairs)
}

/// An argument that must not be blank.
pub fn require_non_empty(name: &str, value: &str) -> (r: Result<String, String>)
    ensures
        if text::trimmed(value@).len() == 0 {
            r is Err && r->Err_0@ == name@ + " must be non-empty"@
        } else {
            r is Ok && r->Ok_0@ == text::trimmed(value@)
        },
{
    let trimmed: String = text::trim(value);
    if trimmed.as_str().unicode_len() == 0 {
        Err(text::append(name, " must be non-empty"))
    } else {
        Ok(trimmed)
    }
}

/// Levels to ask for: ten where the number does not fit.
pub fn book_depth(depth: usize) -> (r: u32)
    ensures
        r == if depth <= u32::MAX {
            depth as u32
        } else {
            10
        },
{
    if depth <= u32::MAX as usize {
        depth as u32
    } else {
        10
    }
}

/// The runner cannot both create LightPool markets and do without LightPool.
pub fn check_bootstrap(bootstrap_markets: bool, polymarket_only: bool) -> (r: Result<(), String>)
    ensures
        r is Err <==> bootstrap_markets && polymarket_only,
        r is Err ==> r->Err_0@ == "--bootstrap-markets cannot be used with --polymarket-only"@,
{
    if bootstrap_markets && polymarket_only {
        Err("--bootstrap-markets cannot be used with --polymarket-only".to_owned())
    } else {
        Ok(())
    }
}

/// The slugs of some pairs.
pub open spec fn pair_slugs(pairs: Seq<MarketPair>) -> Seq<Seq<char>> {
    pairs.map_values(|pair: MarketPair| pair.lightpool_slug@)
}

/// The LightPool markets to mirror onto: those that were bootstrapped, else the one of
/// `--lightpool-slug`; none without LightPool.
pub fn lightpool_slugs(
    pairs: &Vec<MarketPair>,
    lightpool_enabled: bool,
    lightpool_slug: Option<&str>,
) -> (r: Result<Vec<String>, String>)
    ensures
        if pairs@.len() > 0 {
            r is Ok && text::texts(r->Ok_0@) == pair_slugs(pairs@)
        } else if !lightpool_enabled {
            r is Ok && r->Ok_0@.len() == 0
        } else {
            match params::text_view(lightpool_slug) {
                None => r is Err && r->Err_0@
                    == "--lightpool-slug is required unless --bootstrap-markets or --polymarket-only"@,
                Some(slug) => if text::trimmed(slug).len() == 0 {
                    r is Err && r->Err_0@ == "--lightpool-slug"@ + " must be non-empty"@
                } else {
                    r is Ok && text::texts(r->Ok_0@) == seq![text::trimmed(slug)]
                },
            }
        },
{
    let mut slugs: Vec<String> = Vec::new();
    if pairs.len() > 0 {
        let ghost wanted = pair_slugs(pairs@);
        let mut i: usize = 0;
        while i < pairs.len()
            invariant
                i <= pairs@.len(),
                wanted == pair_slugs(pairs@),
                text::texts(slugs@) == wanted.take(i as int),
            decreases pairs@.len() - i,
        {
            let ghost before = text::texts(slugs@);
            slugs.push(pairs[i].lightpool_slug.clone());
            proof {
                assert(text::texts(slugs@) =~= before.push(pairs@[i as int].lightpool_slug@));
                assert(text::texts(slugs@) =~= wanted.take(i + 1));
            }
            i += 1;
        }
        assert(wanted.take(i as int) =~= wanted);
        return Ok(slugs);
    }
    if !lightpool_enabled {
        return Ok(slugs);
    }
    match lightpool_slug {
        Some(slug) => match require_non_empty("--lightpool-slug", slug) {
            Ok(slug) => {
                slugs.push(slug);
                assert(text::texts(slugs@) =~= seq![slug@]);
                Ok(slugs)
            },
            Err(e) => Err(e),
        },
        None => Err(
            "--lightpool-slug is required unless --bootstrap-markets or --polymarket-only".to_owned(),
        ),
    }
}

/// A registry market is found by its symbol, in whatever case: the first one that has it.
pub proof fn law_registry_markets_are_found_by_symbol(items: Seq<RegistryMarket>, key: Seq<char>)
    ensures
        0 <= registry_index(items, key) <= items.len(),
        registry_index(items, key) < items.len() ==> text::lower(items[registry_index(items, key)].symbol@)
            == text::lower(key),
        forall|i: int|
            0 <= i < registry_index(items, key) ==> text::lower((#[trigger] items[i]).symbol@)
                != text::lower(key),
    decreases items.len(),
{
    if items.len() > 0 && !text::same_ignoring_case(items[0].symbol@, key) {
        let rest = items.skip(1);
        law_registry_markets_are_found_by_symbol(rest, key);
        assert forall|i: int| 0 <= i < registry_index(items, key) implies text::lower(
            (#[trigger] items[i]).symbol@,
        ) != text::lower(key) by {
            if i > 0 {
                assert(rest[i - 1] == items[i]);
            }
        }
    }
}

/// The items of a list are not blank and have no white space around them.
pub proof fn law_items_are_filled(parts: Seq<Seq<char>>)
    ensures
        filled_pieces(parts).len() <= parts.len(),
        forall|k: int|
            0 <= k < filled_pieces(parts).len() ==> (#[trigger] filled_pieces(parts)[k]).len() > 0
                && exists|i: int|
                0 <= i < parts.len() && text::trimmed(#[trigger] parts[i]) == filled_pieces(
                    parts,
                )[k],
        forall|i: int|
            0 <= i < parts.len() && text::trimmed(#[trigger] parts[i]).len() > 0 ==> filled_pieces(
                parts,
            ).contains(text::trimmed(parts[i])),
    decreases parts.len(),
{
    if parts.len() > 0 {
        let head = parts.drop_last();
        let before = filled_pieces(head);
        let all = filled_pieces(parts);
        law_items_are_filled(head);
        assert forall|k: int| 0 <= k < all.len() implies (#[trigger] all[k]).len() > 0 && exists|
            i: int,
        |
            0 <= i < parts.len() && text::trimmed(#[trigger] parts[i]) == all[k] by {
            if k < before.len() {
                assert(all[k] == before[k]);
                let i = choose|i: int|
                    0 <= i < head.len() && text::trimmed(#[trigger] head[i]) == before[k];
                assert(parts[i] == head[i]);
            } else {
                assert(text::trimmed(parts[parts.len() - 1]) == all[k]);
            }
        }
        assert forall|i: int|
            0 <= i < parts.len() && text::trimmed(
                #[trigger] parts[i],
            ).len() > 0 implies all.contains(text::trimmed(parts[i])) by {
            if i < head.len() {
                assert(head[i] == parts[i]);
                let k = choose|k: int| 0 <= k < before.len() && before[k] == text::trimmed(head[i]);
                assert(all[k] == text::trimmed(parts[i]));
            } else {
                assert(all[before.len() as int] == text::trimmed(parts[i]));
            }
        }
    }
}

/// A pair is for its symbol, takes the tokens of the registry, and the given spot market ahead of
/// that of the registry.
pub proof fn law_pairs_of_symbols(
    pair: EquityMarketPair,
    symbol: Seq<char>,
    spot: Option<Seq<char>>,
    market: RegistryMarket,
)
    requires
        is_pair_of(pair, symbol, spot, market),
    ensures
        pair.symbol@ == symbol && pair.spot.symbol@ == symbol,
        pair.hl_coin@ == "xyz:"@ + symbol,
        spot matches Some(given) ==> pair.spot.spot_market@ == given,
        spot is None ==> pair.spot.spot_market@ == market.spot_market@,
        pair.spot.base_token@ == market.base_token@,
        pair.spot.quote_token@ == market.quote_token@,
{
}

/// The items of two lists, one behind the other, are those of the first and then those of the second.
pub proof fn law_items_keep_their_order(a: Seq<Seq<char>>, b: Seq<Seq<char>>)
    ensures
        filled_pieces(a + b) == filled_pieces(a) + filled_pieces(b),
        a.len() == 1 && text::trimmed(a[0]).len() > 0 ==> filled_pieces(a) == seq![
            text::trimmed(a[0]),
        ],
    decreases b.len(),
{
    if b.len() > 0 {
        law_items_keep_their_order(a, b.drop_last());
        assert((a + b).drop_last() =~= a + b.drop_last());
        assert((a + b).last() == b.last());
    } else {
        assert(a + b =~= a);
        assert(filled_pieces(a) + filled_pieces(b) =~= filled_pieces(a));
    }
    if a.len() == 1 {
        assert(filled_pieces(a.drop_last()) =~= Seq::<Seq<char>>::empty());
        assert(filled_pieces(a) =~= seq![text::trimmed(a[0])] || text::trimmed(a[0]).len() == 0);
    }
}

/// Spot markets go with symbols one by one: a list of another length is refused.
pub proof fn law_spot_markets_go_with_symbols(spots: Option<Vec<String>>, symbols: Seq<String>)
    ensures
        spots is None ==> !counts_differ(spots, symbols),
        spots is Some ==> (counts_differ(spots, symbols) <==> spots->Some_0@.len() != symbols.len()),
        forall|i: int|
            spots is Some && 0 <= i < symbols.len() ==> #[trigger] spot_at(spots, i) == Some(
                spots->Some_0@[i]@,
            ),
{
}

} // verus!
