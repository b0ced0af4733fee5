//! Fetching Switchboard prices.
//!
//! Prices come from the price API where one is configured, and from Crossbar where it is not or
//! fails.

use vstd::prelude::*;

use crate::cache::swb_prices::{SwbPrice, SwbPricesCache};
use crate::fixed_point::I80F48;
use crate::keyed::{with_all, KeyMap};
use crate::pubkey::{base58_key, key_spelled, Pubkey};
use crate::text::{copy, law_slashes_are_taken_off, trim_end_slashes, trim_slashes};

verus! {

/// How long to wait between two fetches.
pub const FETCH_INTERVAL_SECS: u64 = 30;

/// The Crossbar that is used where none is configured.
pub const FALLBACK_CROSSBAR_URL: &'static str = "https://crossbar.switchboard.xyz";

/// Where the API serves its prices, below its URL.
pub const REALPRICE_PATH: &'static str = "/v0/realprice";

// ── Where prices come from ───────────────────────────────────────────────────

/// The URL of the API's prices.
pub fn realprice_url(api_url: &str) -> (url: String)
    ensures
        url@ == trim_end_slashes(api_url@) + REALPRICE_PATH@,
{
    let mut url = trim_slashes(api_url);
    url.append(REALPRICE_PATH);
    url
}

/// The URL of the Crossbar.
pub fn crossbar_url(configured: Option<&str>) -> (url: String)
    ensures
        url@ == match configured {
            Some(url) => url@,
            None => FALLBACK_CROSSBAR_URL@,
        },
{
    match configured {
        Some(url) => copy(url),
        None => copy(FALLBACK_CROSSBAR_URL),
    }
}

/// Where a fetch of prices stands. It ends with the number of banks that were updated.
#[derive(Debug)]
pub enum PriceFetch<E> {
    /// The API is asked.
    Api,
    /// Crossbar is asked.
    Crossbar,
    /// Nothing is left to do.
    Done(Result<usize, E>),
}

/// The fetch after its source was asked. A failure of the API leads to Crossbar.
pub open spec fn after_fetch<E>(fetch: PriceFetch<E>, result: Result<usize, E>) -> PriceFetch<E> {
    match (fetch, result) {
        (PriceFetch::Api, Ok(count)) => PriceFetch::Done(Ok(count)),
        (PriceFetch::Api, Err(_)) => PriceFetch::Crossbar,
        (PriceFetch::Crossbar, result) => PriceFetch::Done(result),
        (PriceFetch::Done(known), _) => PriceFetch::Done(known),
    }
}

impl<E> PriceFetch<E> {
    /// Starts with the API where one is configured, otherwise with Crossbar.
    pub fn start(api_configured: bool) -> (fetch: PriceFetch<E>)
        ensures
            fetch == if api_configured {
                PriceFetch::<E>::Api
            } else {
                PriceFetch::<E>::Crossbar
            },
    {
        if api_configured {
            PriceFetch::Api
        } else {
            PriceFetch::Crossbar
        }
    }

    /// Takes in what came of asking the source.
    pub fn step(self, result: Result<usize, E>) -> (next: PriceFetch<E>)
        ensures
            next == after_fetch(self, result),
    {
        match (self, result) {
            (PriceFetch::Api, Ok(count)) => PriceFetch::Done(Ok(count)),
            (PriceFetch::Api, Err(_)) => PriceFetch::Crossbar,
            (PriceFetch::Crossbar, result) => PriceFetch::Done(result),
            (PriceFetch::Done(known), _) => PriceFetch::Done(known),
        }
    }
}

// ── Taking prices in ─────────────────────────────────────────────────────────

/// A price of the API: the bank's address as text, and the price, or what the number parser says
/// where a number could not be read.
#[derive(Debug)]
pub struct ApiPrice {
    pub bank: String,
    pub price: Result<SwbPrice, String>,
}

/// A Crossbar simulation: the feed's address as text, and what its result gives.
#[derive(Debug)]
pub struct FeedPrice {
    pub feed: String,
    pub result: FeedResult,
}

/// What the result of a Crossbar simulation gives.
#[derive(Debug)]
pub enum FeedResult {
    /// There is no result.
    Missing,
    /// The result is not a number, and what the number parser says.
    Unreadable(String),
    /// The price and its confidence.
    Price { price: I80F48, conf: I80F48 },
}

/// Why prices could not be taken in. Those before the entry at `at` are in.
#[derive(Debug)]
pub enum PricesError {
    /// The entry at this place names no address, and what the parser says.
    InvalidAddress { at: usize, error: String },
    /// The entry at this place holds no price, and what the parser says.
    InvalidPrice { at: usize, error: String },
}

/// The price of a source that does not tell the current price from the weighted one.
pub open spec fn one_price(price: I80F48, conf: I80F48) -> SwbPrice {
    SwbPrice {
        price_realtime: price,
        conf_realtime: conf,
        price_weighted: price,
        conf_weighted: conf,
    }
}

/// The cached prices after the first entries of the API were taken in.
pub open spec fn with_api_prices(
    prices: Map<Pubkey, SwbPrice>,
    entries: Seq<ApiPrice>,
) -> Map<Pubkey, SwbPrice>
    decreases entries.len(),
{
    if entries.len() == 0 {
        prices
    } else {
        with_api_prices(prices, entries.drop_last()).insert(
            key_spelled(entries.last().bank@)->0,
            entries.last().price->Ok_0,
        )
    }
}

/// The entry names an address and holds a price.
pub open spec fn api_price_ok(entry: ApiPrice) -> bool {
    key_spelled(entry.bank@) is Some && entry.price is Ok
}

/// The first entries are all in order.
pub open spec fn api_prices_ok(entries: Seq<ApiPrice>) -> bool {
    forall|i: int| 0 <= i < entries.len() ==> api_price_ok(#[trigger] entries[i])
}

/// The error is the parser's on a text.
pub open spec fn parse_error(text: Seq<char>, error: Seq<char>) -> bool {
    base58_key(text) matches Err(known) && known == error
}

/// Takes the prices of the API in, up to the first entry that is not in order, and counts them.
pub fn apply_api_prices(cache: &mut SwbPricesCache, entries: &Vec<ApiPrice>) -> (r: Result<
    usize,
    PricesError,
>)
    requires
        old(cache).wf(),
    ensures
        final(cache).wf(),
        match r {
            Ok(count) => api_prices_ok(entries@) && count == entries@.len() && final(cache)@
                == with_api_prices(old(cache)@, entries@),
            Err(PricesError::InvalidAddress { at, error }) => at < entries@.len() && api_prices_ok(
                entries@.take(at as int),
            ) && parse_error(entries@[at as int].bank@, error@) && final(cache)@
                == with_api_prices(old(cache)@, entries@.take(at as int)),
            Err(PricesError::InvalidPrice { at, error }) => at < entries@.len() && api_prices_ok(
                entries@.take(at as int),
            ) && key_spelled(entries@[at as int].bank@) is Some && (
            entries@[at as int].price matches Err(known) && known@ == error@) && final(cache)@
                == with_api_prices(old(cache)@, entries@.take(at as int)),
        },
{
    let mut i: usize = 0;
    assert(cache@ == with_api_prices(old(cache)@, entries@.take(0)));
    while i < entries.len()
        invariant
            cache.wf(),
            i <= entries@.len(),
            api_prices_ok(entries@.take(i as int)),
            cache@ == with_api_prices(old(cache)@, entries@.take(i as int)),
        decreases entries@.len() - i,
    {
        let bank = match Pubkey::from_text(entries[i].bank.as_str()) {
            Ok(bank) => bank,
            Err(error) => {
                return Err(PricesError::InvalidAddress { at: i, error });
            },
        };
        let price = match &entries[i].price {
            Ok(price) => *price,
            Err(error) => {
                return Err(PricesError::InvalidPrice { at: i, error: copy(error.as_str()) });
            },
        };
        cache.upsert(bank, price);
        proof {
            let done = entries@.take(i as int);
            let next = entries@.take(i + 1);
            assert(next.drop_last() =~= done);
            assert(next.last() == entries@[i as int]);
            assert forall|j: int| 0 <= j < next.len() implies api_price_ok(#[trigger] next[j]) by {
                if j < i {
                    assert(next[j] == done[j]);
                }
            }
        }
        i += 1;
    }
    assert(entries@.take(i as int) =~= entries@);
    Ok(i)
}

/// The banks that a Crossbar response prices: those of its feed, where there is a result.
pub open spec fn banks_priced(feeds: Map<Pubkey, Vec<Pubkey>>, response: FeedPrice) -> Seq<Pubkey> {
    let feed = key_spelled(response.feed@)->0;
    if feeds.contains_key(feed) && response.result is Price {
        feeds[feed]@
    } else {
        Seq::empty()
    }
}

/// The prices after Crossbar responses were taken in.
pub open spec fn with_feed_prices(
    prices: Map<Pubkey, SwbPrice>,
    feeds: Map<Pubkey, Vec<Pubkey>>,
    responses: Seq<FeedPrice>,
) -> Map<Pubkey, SwbPrice>
    decreases responses.len(),
{
    if responses.len() == 0 {
        prices
    } else {
        let before = with_feed_prices(prices, feeds, responses.drop_last());
        let last = responses.last();
        match last.result {
            FeedResult::Price { price, conf } => with_all(
                before,
                banks_priced(feeds, last),
                one_price(price, conf),
            ),
            _ => before,
        }
    }
}

/// How many banks Crossbar responses price.
pub open spec fn banks_counted(feeds: Map<Pubkey, Vec<Pubkey>>, responses: Seq<FeedPrice>) -> nat
    decreases responses.len(),
{
    if responses.len() == 0 {
        0
    } else {
        banks_counted(feeds, responses.drop_last()) + banks_priced(feeds, responses.last()).len()
    }
}

/// The response names an address, and its result can be read where the feed is a known one.
pub open spec fn feed_price_ok(feeds: Map<Pubkey, Vec<Pubkey>>, response: FeedPrice) -> bool {
    &&& key_spelled(response.feed@) is Some
    &&& feeds.contains_key(key_spelled(response.feed@)->0) ==> !(response.result is Unreadable)
}

/// The first responses are all in order.
pub open spec fn feed_prices_ok(
    feeds: Map<Pubkey, Vec<Pubkey>>,
    responses: Seq<FeedPrice>,
) -> bool {
    forall|i: int| 0 <= i < responses.len() ==> feed_price_ok(feeds, #[trigger] responses[i])
}

/// The feeds to ask Crossbar for. Where there are none, Crossbar is not asked.
pub fn feeds_to_simulate(feeds: &KeyMap<Vec<Pubkey>>) -> (keys: Vec<Pubkey>)
    requires
        feeds.wf(),
    ensures
        keys@.no_duplicates(),
        keys@.to_set() == feeds@.dom(),
{
    let n: usize = feeds.len();
    let ghost pairs = feeds.pairs();
    proof {
        feeds.lemma_pairs();
    }
    let mut keys: Vec<Pubkey> = Vec::new();
    let mut i: usize = 0;
    while i < n
        invariant
            i <= n == pairs.len(),
            pairs == feeds.pairs(),
            keys@.len() == i,
            forall|j: int| 0 <= j < i ==> keys@[j] == (#[trigger] pairs[j]).0,
        decreases n - i,
    {
        let (key, _) = feeds.entry(i);
        keys.push(*key);
        i += 1;
    }
    proof {
        assert forall|a: int, b: int| 0 <= a < b < keys@.len() implies keys@[a] != keys@[b] by {
            assert(pairs[a].0 != pairs[b].0);
        }
        assert forall|k: Pubkey| keys@.to_set().contains(k) <==> feeds@.dom().contains(k) by {
            if keys@.contains(k) {
                let j = choose|j: int| 0 <= j < keys@.len() && keys@[j] == k;
                assert(pairs[j].0 == k);
            }
            if feeds@.contains_key(k) {
                let j = choose|j: int| 0 <= j < pairs.len() && (#[trigger] pairs[j]).0 == k;
                assert(keys@[j] == k);
            }
        }
        assert(keys@.to_set() =~= feeds@.dom());
    }
    keys
}

/// Takes Crossbar responses in, up to the first that is not in order, and counts the banks that
/// they price. Several banks can share a feed. The count stops at the largest number.
pub fn apply_crossbar_prices(
    cache: &mut SwbPricesCache,
    feeds: &KeyMap<Vec<Pubkey>>,
    responses: &Vec<FeedPrice>,
) -> (r: Result<usize, PricesError>)
    requires
        old(cache).wf(),
        feeds.wf(),
    ensures
        final(cache).wf(),
        match r {
            Ok(count) => feed_prices_ok(feeds@, responses@) && final(cache)@ == with_feed_prices(
                old(cache)@,
                feeds@,
                responses@,
            ) && count == if banks_counted(feeds@, responses@) <= usize::MAX {
                banks_counted(feeds@, responses@)
            } else {
                usize::MAX as nat
            },
            Err(PricesError::InvalidAddress { at, error }) => at < responses@.len()
                && feed_prices_ok(feeds@, responses@.take(at as int)) && parse_error(
                responses@[at as int].feed@,
                error@,
            ) && final(cache)@ == with_feed_prices(
                old(cache)@,
                feeds@,
                responses@.take(at as int),
            ),
            Err(PricesError::InvalidPrice { at, error }) => at < responses@.len() && feed_prices_ok(
                feeds@,
                responses@.take(at as int),
            ) && (responses@[at as int].result matches FeedResult::Unreadable(known) && known@
                == error@) && key_spelled(
                responses@[at as int].feed@,
            ) is Some && feeds@.contains_key(key_spelled(responses@[at as int].feed@)->0)
                && final(cache)@ == with_feed_prices(
                old(cache)@,
                feeds@,
                responses@.take(at as int),
            ),
        },
{
    let mut count: usize = 0;
    let mut i: usize = 0;
    while i < responses.len()
        invariant
            cache.wf(),
            feeds.wf(),
            i <= responses@.len(),
            feed_prices_ok(feeds@, responses@.take(i as int)),
            cache@ == with_feed_prices(old(cache)@, feeds@, responses@.take(i as int)),
            count == if banks_counted(feeds@, responses@.take(i as int)) <= usize::MAX {
                banks_counted(feeds@, responses@.take(i as int))
            } else {
                usize::MAX as nat
            },
        decreases responses@.len() - i,
    {
        let ghost before = cache@;
        proof {
            let done = responses@.take(i as int);
            let next = responses@.take(i + 1);
            assert(next.drop_last() =~= done);
            assert(next.last() == responses@[i as int]);
        }
        let feed = match Pubkey::from_text(responses[i].feed.as_str()) {
            Ok(feed) => feed,
            Err(error) => {
                return Err(PricesError::InvalidAddress { at: i, error });
            },
        };
        if let Some(banks) = feeds.get(&feed) {
            match &responses[i].result {
                FeedResult::Missing => {},
                FeedResult::Unreadable(error) => {
                    return Err(PricesError::InvalidPrice { at: i, error: copy(error.as_str()) });
                },
                FeedResult::Price { price, conf } => {
                    cache.upsert_all(
                        banks,
                        SwbPrice {
                            price_realtime: *price,
                            conf_realtime: *conf,
                            price_weighted: *price,
                            conf_weighted: *conf,
                        },
                    );
                    count = count.saturating_add(banks.len());
                },
            }
        } else {
            assert(forall|price: SwbPrice|
                #[trigger] with_all(before, Seq::empty(), price) =~= before);
        }
        proof {
            let done = responses@.take(i as int);
            let next = responses@.take(i + 1);
            assert forall|j: int| 0 <= j < next.len() implies feed_price_ok(
                feeds@,
                #[trigger] next[j],
            ) by {
                if j < i {
                    assert(next[j] == done[j]);
                }
            }
        }
        i += 1;
    }
    assert(responses@.take(i as int) =~= responses@);
    Ok(count)
}

// ── Laws ─────────────────────────────────────────────────────────────────────

/// Crossbar is asked exactly where the API is not configured or fails.
pub proof fn law_crossbar_is_the_fallback<E>(result: Result<usize, E>)
    ensures
        after_fetch(PriceFetch::<E>::Api, result) is Crossbar <==> result is Err,
        after_fetch(PriceFetch::<E>::Crossbar, result) == PriceFetch::<E>::Done(result),
{
}

/// A response for a feed that several banks share prices each of them, and no other.
pub proof fn law_a_shared_feed_prices_all_its_banks(
    prices: Map<Pubkey, SwbPrice>,
    feeds: Map<Pubkey, Vec<Pubkey>>,
    response: FeedPrice,
    bank: Pubkey,
)
    requires
        feed_price_ok(feeds, response),
        feeds.contains_key(key_spelled(response.feed@)->0),
        response.result is Price,
    ensures
        ({
            let banks = feeds[key_spelled(response.feed@)->0]@;
            let after = with_feed_prices(prices, feeds, seq![response]);
            &&& banks.contains(bank) ==> after.contains_key(bank) && after[bank] == one_price(
                response.result->price,
                response.result->conf,
            )
            &&& !banks.contains(bank) ==> after.get(bank) == prices.get(bank)
        }),
{
    reveal_with_fuel(with_feed_prices, 2);
    assert(seq![response].drop_last() =~= Seq::empty());
}

/// Prices are fetched from the API first where one is configured, and a count that it gives is the
/// result. What Crossbar gives is the result in any case.
pub proof fn law_a_fetch_ends_with_its_source<E>(
    api_configured: bool,
    start: PriceFetch<E>,
    result: Result<usize, E>,
    later: Result<usize, E>,
    next: PriceFetch<E>,
)
    requires
        call_ensures(PriceFetch::<E>::start, (api_configured,), start),
        call_ensures(PriceFetch::<E>::step, (start, result), next),
    ensures
        api_configured <==> start is Api,
        !api_configured <==> start is Crossbar,
        match (api_configured, result) {
            (true, Ok(count)) => next == PriceFetch::<E>::Done(Ok(count)),
            (true, Err(_)) => next is Crossbar,
            (false, result) => next == PriceFetch::<E>::Done(result),
        },
        next is Done ==> after_fetch(next, later) == next,
{
}

/// The latest entry for a bank gives its price, and a bank without an entry keeps the one that it
/// had.
pub proof fn law_the_latest_price_counts(
    prices: Map<Pubkey, SwbPrice>,
    entries: Seq<ApiPrice>,
    k: Pubkey,
    at: int,
)
    requires
        api_prices_ok(entries),
        0 <= at <= entries.len(),
        at < entries.len() ==> base58_key(entries[at].bank@) == Ok::<Pubkey, Seq<char>>(k),
        forall|i: int|
            (at < i < entries.len() || at == entries.len() && 0 <= i < entries.len())
                ==> base58_key((#[trigger] entries[i]).bank@) != Ok::<Pubkey, Seq<char>>(k),
    ensures
        at < entries.len() ==> with_api_prices(prices, entries).contains_key(k)
            && entries[at].price == Ok::<SwbPrice, String>(with_api_prices(prices, entries)[k]),
        at == entries.len() ==> with_api_prices(prices, entries).get(k) == prices.get(k),
    decreases entries.len(),
{
    if entries.len() > 0 {
        let front = entries.drop_last();
        let last = entries.len() - 1;
        assert(api_price_ok(entries[last]));
        assert(entries.last() == entries[last]);
        assert forall|i: int| 0 <= i < front.len() implies api_price_ok(#[trigger] front[i]) by {
            assert(front[i] == entries[i]);
        }
        if at < last {
            assert forall|i: int|
                (at < i < front.len() || at == front.len() && 0 <= i < front.len()) implies base58_key(
                (#[trigger] front[i]).bank@,
            ) != Ok::<Pubkey, Seq<char>>(k) by {
                assert(front[i] == entries[i]);
            }
            law_the_latest_price_counts(prices, front, k, at);
        } else if at == entries.len() {
            assert forall|i: int| 0 <= i < front.len() implies base58_key(
                (#[trigger] front[i]).bank@,
            ) != Ok::<Pubkey, Seq<char>>(k) by {
                assert(front[i] == entries[i]);
            }
            law_the_latest_price_counts(prices, front, k, front.len() as int);
        }
    }
}

/// A further response gives each bank of its feed the price, which counts for both kinds, and
/// counts each of them; one without a result, or for a feed that is not known, changes nothing.
pub proof fn law_responses_are_taken_in_one_by_one(
    prices: Map<Pubkey, SwbPrice>,
    feeds: Map<Pubkey, Vec<Pubkey>>,
    responses: Seq<FeedPrice>,
    response: FeedPrice,
    feed: Pubkey,
    bank: Pubkey,
)
    requires
        base58_key(response.feed@) == Ok::<Pubkey, Seq<char>>(feed),
    ensures
        ({
            let before = with_feed_prices(prices, feeds, responses);
            let after = with_feed_prices(prices, feeds, responses.push(response));
            let counted = banks_counted(feeds, responses.push(response)) - banks_counted(
                feeds,
                responses,
            );
            match response.result {
                FeedResult::Price { price, conf } if feeds.contains_key(feed) => {
                    &&& counted == feeds[feed]@.len()
                    &&& feeds[feed]@.contains(bank) ==> after.contains_key(bank)
                        && after[bank].price_realtime == price && after[bank].conf_realtime == conf
                        && after[bank].price_weighted == price && after[bank].conf_weighted == conf
                    &&& !feeds[feed]@.contains(bank) ==> after.get(bank) == before.get(bank)
                },
                _ => counted == 0 && after.get(bank) == before.get(bank),
            }
        }),
        with_feed_prices(prices, feeds, Seq::empty()) == prices,
        banks_counted(feeds, Seq::empty()) == 0,
{
    assert(responses.push(response).drop_last() =~= responses);
}

/// A response is in order where its feed is an address and, if the feed is one that was asked for,
/// its result is missing or a number.
pub proof fn law_responses_in_order(feeds: Map<Pubkey, Vec<Pubkey>>, response: FeedPrice)
    ensures
        feed_price_ok(feeds, response) <==> match base58_key(response.feed@) {
            Ok(feed) => feeds.contains_key(feed) ==> response.result is Missing
                || response.result is Price,
            Err(_) => false,
        },
{
}

/// Prices are taken in up to the first entry that is not in order, which the error names; without
/// one, all are, and are counted.
pub proof fn law_prices_are_taken_in_up_to_an_error(
    cache: &mut SwbPricesCache,
    entries: &Vec<ApiPrice>,
    r: Result<usize, PricesError>,
)
    requires
        call_ensures(apply_api_prices, (cache, entries), r),
    ensures
        match r {
            Ok(count) => {
                &&& count == entries@.len()
                &&& final(cache)@ == with_api_prices(old(cache)@, entries@)
                &&& forall|i: int|
                    0 <= i < entries@.len() ==> base58_key((#[trigger] entries@[i]).bank@) is Ok
                        && entries@[i].price is Ok
            },
            Err(e) => {
                let at = match e {
                    PricesError::InvalidAddress { at, .. } => at as int,
                    PricesError::InvalidPrice { at, .. } => at as int,
                };
                &&& 0 <= at < entries@.len()
                &&& final(cache)@ == with_api_prices(old(cache)@, entries@.take(at))
                &&& forall|i: int|
                    0 <= i < at ==> base58_key((#[trigger] entries@[i]).bank@) is Ok
                        && entries@[i].price is Ok
                &&& match e {
                    PricesError::InvalidAddress { error, .. } => base58_key(entries@[at].bank@)
                        == Err::<Pubkey, Seq<char>>(error@),
                    PricesError::InvalidPrice { error, .. } => base58_key(entries@[at].bank@) is Ok
                        && (entries@[at].price matches Err(why) && why@ == error@),
                }
            },
        },
{
    if let Ok(count) = r {
        assert forall|i: int| 0 <= i < entries@.len() implies base58_key(
            (#[trigger] entries@[i]).bank@,
        ) is Ok && entries@[i].price is Ok by {
            assert(api_price_ok(entries@[i]));
        }
    } else {
        let at = match r->Err_0 {
            PricesError::InvalidAddress { at, .. } => at as int,
            PricesError::InvalidPrice { at, .. } => at as int,
        };
        assert forall|i: int| 0 <= i < at implies base58_key((#[trigger] entries@[i]).bank@) is Ok
            && entries@[i].price is Ok by {
            assert(entries@.take(at)[i] == entries@[i]);
            assert(api_price_ok(entries@.take(at)[i]));
        }
    }
}

/// Responses are taken in up to the first that is not in order, which the error names; without
/// one, all are, and the banks that they price are counted.
pub proof fn law_responses_are_taken_in_up_to_an_error(
    cache: &mut SwbPricesCache,
    feeds: &KeyMap<Vec<Pubkey>>,
    responses: &Vec<FeedPrice>,
    r: Result<usize, PricesError>,
)
    requires
        call_ensures(apply_crossbar_prices, (cache, feeds, responses), r),
    ensures
        match r {
            Ok(count) => feed_prices_ok(feeds@, responses@) && final(cache)@ == with_feed_prices(
                old(cache)@,
                feeds@,
                responses@,
            ) && (banks_counted(feeds@, responses@) <= usize::MAX ==> count == banks_counted(
                feeds@,
                responses@,
            )),
            Err(e) => {
                let at = match e {
                    PricesError::InvalidAddress { at, .. } => at as int,
                    PricesError::InvalidPrice { at, .. } => at as int,
                };
                &&& 0 <= at < responses@.len()
                &&& feed_prices_ok(feeds@, responses@.take(at))
                &&& final(cache)@ == with_feed_prices(old(cache)@, feeds@, responses@.take(at))
                &&& match e {
                    PricesError::InvalidAddress { error, .. } => base58_key(responses@[at].feed@)
                        == Err::<Pubkey, Seq<char>>(error@),
                    PricesError::InvalidPrice { error, .. } => {
                        &&& base58_key(responses@[at].feed@) matches Ok(feed)
                            && feeds@.contains_key(feed)
                        &&& responses@[at].result matches FeedResult::Unreadable(why) && why@
                            == error@
                    },
                }
            },
        },
{
}

/// Every feed with a bank is asked for, each once, at the addresses of the sources.
pub proof fn law_every_feed_is_asked_for(
    feeds: &KeyMap<Vec<Pubkey>>,
    keys: Vec<Pubkey>,
    k: Pubkey,
    api_url: &str,
    url: Seq<char>,
    slashes: nat,
    prices_url: String,
    configured: Option<&str>,
    crossbar: String,
)
    requires
        call_ensures(feeds_to_simulate, (feeds,), keys),
        call_ensures(realprice_url, (api_url,), prices_url),
        call_ensures(crossbar_url, (configured,), crossbar),
        url.len() > 0 ==> url.last() != '/',
        api_url@ == url + Seq::new(slashes, |i: int| '/'),
    ensures
        keys@.no_duplicates(),
        keys@.contains(k) <==> feeds@.contains_key(k),
        prices_url@ == url + "/v0/realprice"@,
        match configured {
            Some(known) => crossbar@ == known@,
            None => crossbar@ == "https://crossbar.switchboard.xyz"@,
        },
{
    law_slashes_are_taken_off(url, slashes);
    assert(keys@.to_set().contains(k) <==> keys@.contains(k));
    assert(feeds@.dom().contains(k) <==> feeds@.contains_key(k));
}

}
