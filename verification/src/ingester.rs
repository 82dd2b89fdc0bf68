//! The rate feeds: which quotes of a provider's answer become which writes.

use vstd::prelude::*;
use crate::text::{concat, str_equal};

verus! {

/// The settings an ingester starts with.
#[derive(Debug, Clone)]
pub struct Config {
    /// which source to pull from
    pub source: String,
    /// which node to write to
    pub target_node: String,
    /// how often to fetch, in seconds
    pub fetch_interval: u64,
}

/// The rate providers an ingester can pull from.
#[derive(Debug, Clone, Copy, PartialEq, Eq, Structural)]
pub enum FeedSource {
    Frankfurter,
    CoinGecko,
}

/// The provider that a configured source name selects: "frankfurter" or
/// "coingecko"; `None` for any other name.
pub fn feed_source(name: &str) -> (r: Option<FeedSource>)
    ensures
        r == if name@ == "frankfurter"@ {
            Some(FeedSource::Frankfurter)
        } else if name@ == "coingecko"@ {
            Some(FeedSource::CoinGecko)
        } else {
            None::<FeedSource>
        },
{
    if str_equal(name, "frankfurter") {
        Some(FeedSource::Frankfurter)
    } else if str_equal(name, "coingecko") {
        Some(FeedSource::CoinGecko)
    } else {
        None
    }
}

/// One named quote from a provider's answer, its value already as text.
#[derive(Debug, Clone)]
pub struct Quote {
    pub name: String,
    pub value: String,
}

/// One write to send to the cluster.
#[derive(Debug, Clone)]
pub struct RateWrite {
    pub key: String,
    pub value: String,
}

pub struct QuoteView {
    pub name: Seq<char>,
    pub value: Seq<char>,
}

pub struct RateWriteView {
    pub key: Seq<char>,
    pub value: Seq<char>,
}

impl View for Quote {
    type V = QuoteView;

    open spec fn view(&self) -> QuoteView {
        QuoteView { name: self.name@, value: self.value@ }
    }
}

impl View for RateWrite {
    type V = RateWriteView;

    open spec fn view(&self) -> RateWriteView {
        RateWriteView { key: self.key@, value: self.value@ }
    }
}

/// The key under which a fiat pair such as "USD/EUR" is stored.
pub fn fiat_rate_key(pair: &str) -> (key: String)
    ensures
        key@ == "rates:fiat:"@ + pair@,
{
    concat("rates:fiat:", pair)
}

/// The key under which a crypto asset's dollar price is stored, e.g.
/// "rates:crypto:BTC/USD".
pub fn crypto_rate_key(ticker: &str) -> (key: String)
    ensures
        key@ == "rates:crypto:"@ + ticker@ + "/USD"@,
{
    let head = concat("rates:crypto:", ticker);
    concat(head.as_str(), "/USD")
}

/// The ticker of a CoinCap asset id that the feed follows.
pub open spec fn ticker_of(id: Seq<char>) -> Option<Seq<char>> {
    if id == "bitcoin"@ {
        Some("BTC"@)
    } else if id == "ethereum"@ {
        Some("ETH"@)
    } else if id == "solana"@ {
        Some("SOL"@)
    } else {
        None
    }
}

/// The ticker of an asset id: bitcoin BTC, ethereum ETH, solana SOL.
pub fn coin_ticker(asset_id: &str) -> (r: Option<&'static str>)
    ensures
        match ticker_of(asset_id@) {
            Some(t) => r is Some && r->0@ == t,
            None => r is None,
        },
{
    if str_equal(asset_id, "bitcoin") {
        Some("BTC")
    } else if str_equal(asset_id, "ethereum") {
        Some("ETH")
    } else if str_equal(asset_id, "solana") {
        Some("SOL")
    } else {
        None
    }
}

/// The writes for a CoinCap answer: one per followed asset, in the answer's order.
pub open spec fn coincap_plan(assets: Seq<QuoteView>) -> Seq<RateWriteView>
    decreases assets.len(),
{
    if assets.len() == 0 {
        Seq::empty()
    } else {
        let a = assets.last();
        coincap_plan(assets.drop_last()) + match ticker_of(a.name) {
            Some(t) => seq![RateWriteView { key: "rates:crypto:"@ + t + "/USD"@, value: a.value }],
            None => Seq::empty(),
        }
    }
}

/// The write for one CoinCap quote: bitcoin, ethereum and solana quotes are
/// stored under their ticker's dollar key with the quoted value; any other
/// asset gives no write.
pub open spec fn followed_coin_write(q: QuoteView) -> Seq<RateWriteView> {
    if q.name == "bitcoin"@ {
        seq![RateWriteView { key: "rates:crypto:"@ + "BTC"@ + "/USD"@, value: q.value }]
    } else if q.name == "ethereum"@ {
        seq![RateWriteView { key: "rates:crypto:"@ + "ETH"@ + "/USD"@, value: q.value }]
    } else if q.name == "solana"@ {
        seq![RateWriteView { key: "rates:crypto:"@ + "SOL"@ + "/USD"@, value: q.value }]
    } else {
        Seq::empty()
    }
}

/// One more quote at the end of a CoinCap answer adds exactly its own write at
/// the end of the plan: bitcoin, ethereum and solana quotes under
/// `rates:crypto:BTC/USD`, `rates:crypto:ETH/USD` and `rates:crypto:SOL/USD`
/// with their value, anything else nothing; the earlier writes stay as they were.
pub proof fn lemma_coincap_quote_adds_its_write(assets: Seq<QuoteView>, q: QuoteView)
    ensures
        coincap_plan(assets.push(q)) == coincap_plan(assets) + followed_coin_write(q),
{
    assert(assets.push(q).drop_last() =~= assets);
}

/// Every followed asset of a CoinCap answer yields its write, and every write
/// comes from a followed asset of the answer with that asset's value.
pub proof fn lemma_coincap_writes_cover_followed(assets: Seq<QuoteView>)
    ensures
        forall|i: int|
            0 <= i < assets.len() ==> #[trigger] followed_coin_write(assets[i]).len() == 1
                ==> coincap_plan(assets).contains(followed_coin_write(assets[i])[0]),
        forall|w: RateWriteView|
            #[trigger] coincap_plan(assets).contains(w) ==> exists|i: int|
                0 <= i < assets.len() && followed_coin_write(#[trigger] assets[i]) == seq![w],
    decreases assets.len(),
{
    if assets.len() > 0 {
        let p = assets.drop_last();
        let q = assets.last();
        lemma_coincap_writes_cover_followed(p);
        lemma_coincap_quote_adds_its_write(p, q);
        assert(p.push(q) =~= assets);
        let pp = coincap_plan(p);
        let fw = followed_coin_write(q);
        let plan = coincap_plan(assets);
        assert(plan == pp + fw);
        assert forall|i: int|
            0 <= i < assets.len() && #[trigger] followed_coin_write(assets[i]).len() == 1 implies plan.contains(
            followed_coin_write(assets[i])[0],
        ) by {
            if i == assets.len() - 1 {
                assert(plan[pp.len() as int] == fw[0]);
            } else {
                assert(assets[i] == p[i]);
                let j = choose|j: int| 0 <= j < pp.len() && pp[j] == followed_coin_write(p[i])[0];
                assert(plan[j] == pp[j]);
            }
        }
        assert forall|w: RateWriteView| #[trigger] plan.contains(w) implies exists|i: int|
            0 <= i < assets.len() && followed_coin_write(#[trigger] assets[i]) == seq![w] by {
            let j = choose|j: int| 0 <= j < plan.len() && plan[j] == w;
            if j < pp.len() {
                assert(pp[j] == w);
                assert(pp.contains(w));
                let i = choose|i: int| 0 <= i < p.len() && followed_coin_write(#[trigger] p[i]) == seq![w];
                assert(assets[i] == p[i]);
            } else {
                assert(fw.len() == 1);
                assert(fw[0] == w);
                assert(fw =~= seq![w]);
                assert(assets[assets.len() - 1] == q);
            }
        }
    }
}

/// The views of a sequence of quotes.
pub open spec fn quotes_view(qs: Seq<Quote>) -> Seq<QuoteView> {
    qs.map_values(|q: Quote| q@)
}

/// The views of a sequence of writes.
pub open spec fn writes_view(ws: Seq<RateWrite>) -> Seq<RateWriteView> {
    ws.map_values(|w: RateWrite| w@)
}

/// The writes that a CoinCap answer yields.
pub fn coincap_writes(assets: &[Quote]) -> (r: Vec<RateWrite>)
    ensures
        writes_view(r@) == coincap_plan(quotes_view(assets@)),
{
    let mut r: Vec<RateWrite> = Vec::new();
    let mut i: usize = 0;
    let ghost qv = quotes_view(assets@);
    while i < assets.len()
        invariant
            i <= assets.len(),
            qv == quotes_view(assets@),
            writes_view(r@) == coincap_plan(qv.take(i as int)),
        decreases assets.len() - i,
    {
        assert(qv.take(i + 1).drop_last() =~= qv.take(i as int));
        assert(qv.take(i + 1).last() == assets@[i as int]@);
        let ghost before = writes_view(r@);
        match coin_ticker(assets[i].name.as_str()) {
            Some(t) => {
                r.push(RateWrite { key: crypto_rate_key(t), value: assets[i].value.clone() });
            },
            None => {},
        }
        assert(writes_view(r@) =~= coincap_plan(qv.take(i + 1)));
        i = i + 1;
    }
    assert(qv.take(assets.len() as int) =~= qv);
    r
}

/// The currencies that the Frankfurter feed follows against the dollar, in order.
pub open spec fn fiat_currencies() -> Seq<Seq<char>> {
    seq!["EUR"@, "GBP"@, "JPY"@, "NGN"@, "CAD"@, "AUD"@]
}

fn fiat_currency(k: usize) -> (c: &'static str)
    requires
        k < 6,
    ensures
        c@ == fiat_currencies()[k as int],
{
    if k == 0 {
        "EUR"
    } else if k == 1 {
        "GBP"
    } else if k == 2 {
        "JPY"
    } else if k == 3 {
        "NGN"
    } else if k == 4 {
        "CAD"
    } else {
        "AUD"
    }
}

/// The value of the first quote named `name`.
pub open spec fn quote_for(quotes: Seq<QuoteView>, name: Seq<char>) -> Option<Seq<char>>
    decreases quotes.len(),
{
    if quotes.len() == 0 {
        None
    } else if quotes[0].name == name {
        Some(quotes[0].value)
    } else {
        quote_for(quotes.drop_first(), name)
    }
}

fn find_quote<'a>(quotes: &'a [Quote], name: &str) -> (r: Option<&'a String>)
    ensures
        match quote_for(quotes_view(quotes@), name@) {
            Some(v) => r is Some && r->0@ == v,
            None => r is None,
        },
{
    let mut i: usize = 0;
    let ghost qv = quotes_view(quotes@);
    assert(qv.skip(0) =~= qv);
    while i < quotes.len()
        invariant
            i <= quotes.len(),
            qv == quotes_view(quotes@),
            quote_for(qv, name@) == quote_for(qv.skip(i as int), name@),
        decreases quotes.len() - i,
    {
        assert(qv.skip(i as int)[0] == quotes@[i as int]@);
        if str_equal(quotes[i].name.as_str(), name) {
            return Some(&quotes[i].value);
        }
        assert(qv.skip(i as int).drop_first() =~= qv.skip(i + 1));
        i = i + 1;
    }
    None
}

/// The writes for the first `n` followed currencies, in order, for those the
/// answer quotes.
pub open spec fn frankfurter_plan(quotes: Seq<QuoteView>, n: int) -> Seq<RateWriteView>
    decreases n,
{
    if n <= 0 {
        Seq::empty()
    } else {
        let c = fiat_currencies()[n - 1];
        frankfurter_plan(quotes, n - 1) + match quote_for(quotes, c) {
            Some(v) => seq![RateWriteView { key: "rates:fiat:"@ + "USD/"@ + c, value: v }],
            None => Seq::empty(),
        }
    }
}

/// The currency that a Frankfurter quote names is one of the followed ones:
/// EUR, GBP, JPY, NGN, CAD, AUD.
pub open spec fn is_followed_fiat(c: Seq<char>) -> bool {
    c == "EUR"@ || c == "GBP"@ || c == "JPY"@ || c == "NGN"@ || c == "CAD"@ || c == "AUD"@
}

/// A quote of an answer whose names are distinct is the one `quote_for` finds.
proof fn lemma_quote_for_unique(quotes: Seq<QuoteView>, i: int)
    requires
        0 <= i < quotes.len(),
        forall|a: int, b: int|
            0 <= a < quotes.len() && 0 <= b < quotes.len() && a != b ==> #[trigger] quotes[a].name
                != #[trigger] quotes[b].name,
    ensures
        quote_for(quotes, quotes[i].name) == Some(quotes[i].value),
    decreases i,
{
    if i > 0 {
        let d = quotes.drop_first();
        assert forall|a: int, b: int|
            0 <= a < d.len() && 0 <= b < d.len() && a != b implies #[trigger] d[a].name
            != #[trigger] d[b].name by {
            assert(d[a] == quotes[a + 1]);
            assert(d[b] == quotes[b + 1]);
        }
        assert(quotes[0].name != quotes[i].name);
        assert(d[i - 1] == quotes[i]);
        lemma_quote_for_unique(d, i - 1);
    }
}

/// The value `quote_for` finds is the value of some quote with that name.
proof fn lemma_quote_for_found(quotes: Seq<QuoteView>, c: Seq<char>)
    ensures
        quote_for(quotes, c) matches Some(v) ==> exists|i: int|
            0 <= i < quotes.len() && #[trigger] quotes[i].name == c && quotes[i].value == v,
    decreases quotes.len(),
{
    if quotes.len() > 0 && quotes[0].name != c {
        let d = quotes.drop_first();
        lemma_quote_for_found(d, c);
        if quote_for(quotes, c) is Some {
            let v = quote_for(quotes, c)->0;
            let i = choose|i: int| 0 <= i < d.len() && #[trigger] d[i].name == c && d[i].value == v;
            assert(quotes[i + 1] == d[i]);
        }
    }
}

proof fn lemma_frankfurter_plan_members(quotes: Seq<QuoteView>, n: int)
    requires
        0 <= n <= 6,
    ensures
        forall|k: int|
            0 <= k < n && (#[trigger] quote_for(quotes, fiat_currencies()[k])) is Some
                ==> frankfurter_plan(quotes, n).contains(
                RateWriteView {
                    key: "rates:fiat:"@ + "USD/"@ + fiat_currencies()[k],
                    value: quote_for(quotes, fiat_currencies()[k])->0,
                },
            ),
        forall|w: RateWriteView|
            #[trigger] frankfurter_plan(quotes, n).contains(w) ==> exists|k: int|
                0 <= k < n && quote_for(quotes, #[trigger] fiat_currencies()[k]) == Some(w.value)
                    && w.key == "rates:fiat:"@ + "USD/"@ + fiat_currencies()[k],
    decreases n,
{
    if n > 0 {
        lemma_frankfurter_plan_members(quotes, n - 1);
        let pp = frankfurter_plan(quotes, n - 1);
        let plan = frankfurter_plan(quotes, n);
        let c = fiat_currencies()[n - 1];
        assert forall|k: int|
            0 <= k < n && (#[trigger] quote_for(quotes, fiat_currencies()[k])) is Some implies plan.contains(
            RateWriteView {
                key: "rates:fiat:"@ + "USD/"@ + fiat_currencies()[k],
                value: quote_for(quotes, fiat_currencies()[k])->0,
            },
        ) by {
            let v = quote_for(quotes, fiat_currencies()[k])->0;
            let w = RateWriteView { key: "rates:fiat:"@ + "USD/"@ + fiat_currencies()[k], value: v };
            if k == n - 1 {
                assert(plan[pp.len() as int] == w);
            } else {
                let j = choose|j: int| 0 <= j < pp.len() && pp[j] == w;
                assert(plan[j] == w);
            }
        }
        assert forall|w: RateWriteView| #[trigger] plan.contains(w) implies exists|k: int|
            0 <= k < n && quote_for(quotes, #[trigger] fiat_currencies()[k]) == Some(w.value) && w.key
                == "rates:fiat:"@ + "USD/"@ + fiat_currencies()[k] by {
            let j = choose|j: int| 0 <= j < plan.len() && plan[j] == w;
            if j < pp.len() {
                assert(pp[j] == w);
                assert(pp.contains(w));
            } else {
                assert(quote_for(quotes, c) is Some);
                assert(w.value == quote_for(quotes, c)->0);
            }
        }
    }
}

/// A Frankfurter answer, whose currency names are distinct, yields a write
/// `rates:fiat:USD/<currency>` with the quoted value for every followed currency
/// it quotes (EUR, GBP, JPY, NGN, CAD, AUD); and every write is for a followed
/// currency of the answer, with that quote's value.
pub proof fn lemma_frankfurter_writes_cover_followed(quotes: Seq<QuoteView>)
    ensures
        (forall|a: int, b: int|
            0 <= a < quotes.len() && 0 <= b < quotes.len() && a != b ==> #[trigger] quotes[a].name
                != #[trigger] quotes[b].name) ==> forall|i: int|
            0 <= i < quotes.len() && is_followed_fiat(#[trigger] quotes[i].name)
                ==> frankfurter_plan(quotes, 6).contains(
                RateWriteView { key: "rates:fiat:"@ + "USD/"@ + quotes[i].name, value: quotes[i].value },
            ),
        forall|w: RateWriteView|
            #[trigger] frankfurter_plan(quotes, 6).contains(w) ==> exists|i: int|
                0 <= i < quotes.len() && is_followed_fiat(#[trigger] quotes[i].name) && w.value
                    == quotes[i].value && w.key == "rates:fiat:"@ + "USD/"@ + quotes[i].name,
{
    lemma_frankfurter_plan_members(quotes, 6);
    let fc = fiat_currencies();
    assert(fc[0] == "EUR"@ && fc[1] == "GBP"@ && fc[2] == "JPY"@ && fc[3] == "NGN"@ && fc[4]
        == "CAD"@ && fc[5] == "AUD"@);
    if forall|a: int, b: int|
        0 <= a < quotes.len() && 0 <= b < quotes.len() && a != b ==> #[trigger] quotes[a].name
            != #[trigger] quotes[b].name {
        assert forall|i: int|
            0 <= i < quotes.len() && is_followed_fiat(#[trigger] quotes[i].name) implies frankfurter_plan(
            quotes,
            6,
        ).contains(
            RateWriteView { key: "rates:fiat:"@ + "USD/"@ + quotes[i].name, value: quotes[i].value },
        ) by {
            lemma_quote_for_unique(quotes, i);
            let c = quotes[i].name;
            let k: int = if c == fc[0] {
                0
            } else if c == fc[1] {
                1
            } else if c == fc[2] {
                2
            } else if c == fc[3] {
                3
            } else if c == fc[4] {
                4
            } else {
                5
            };
            assert(fc[k] == c);
            assert(quote_for(quotes, fc[k]) == Some(quotes[i].value));
        }
    }
    assert forall|w: RateWriteView| #[trigger] frankfurter_plan(quotes, 6).contains(w) implies exists|i: int|
        0 <= i < quotes.len() && is_followed_fiat(#[trigger] quotes[i].name) && w.value
            == quotes[i].value && w.key == "rates:fiat:"@ + "USD/"@ + quotes[i].name by {
        let k = choose|k: int|
            0 <= k < 6 && quote_for(quotes, #[trigger] fc[k]) == Some(w.value) && w.key == "rates:fiat:"@
                + "USD/"@ + fc[k];
        lemma_quote_for_found(quotes, fc[k]);
        let i = choose|i: int| 0 <= i < quotes.len() && #[trigger] quotes[i].name == fc[k] && quotes[i].value == w.value;
        assert(is_followed_fiat(quotes[i].name));
    }
}

/// The writes that a Frankfurter answer yields: for each followed currency in
/// order, the quote for it under `rates:fiat:USD/<currency>`.
pub fn frankfurter_writes(rates: &[Quote]) -> (r: Vec<RateWrite>)
    ensures
        writes_view(r@) == frankfurter_plan(quotes_view(rates@), 6),
{
    let mut r: Vec<RateWrite> = Vec::new();
    let mut k: usize = 0;
    while k < 6
        invariant
            k <= 6,
            writes_view(r@) == frankfurter_plan(quotes_view(rates@), k as int),
        decreases 6 - k,
    {
        let c = fiat_currency(k);
        let ghost before = writes_view(r@);
        match find_quote(rates, c) {
            Some(v) => {
                let pair = concat("USD/", c);
                let key = fiat_rate_key(pair.as_str());
                r.push(RateWrite { key, value: v.clone() });
                assert(key@ == "rates:fiat:"@ + "USD/"@ + c@);
            },
            None => {},
        }
        assert(writes_view(r@) =~= frankfurter_plan(quotes_view(rates@), k + 1));
        k = k + 1;
    }
    r
}

} // verus!
