use crdt_store::ingester::{
    coin_ticker, coincap_writes, crypto_rate_key, feed_source, fiat_rate_key, frankfurter_writes,
    FeedSource, Quote,
};

fn quote(name: &str, value: &str) -> Quote {
    Quote { name: name.to_string(), value: value.to_string() }
}

#[test]
fn keys_follow_the_naming_scheme() {
    assert_eq!(fiat_rate_key("USD/EUR"), "rates:fiat:USD/EUR");
    assert_eq!(crypto_rate_key("BTC"), "rates:crypto:BTC/USD");
}

#[test]
fn coin_tickers() {
    assert_eq!(coin_ticker("bitcoin"), Some("BTC"));
    assert_eq!(coin_ticker("ethereum"), Some("ETH"));
    assert_eq!(coin_ticker("solana"), Some("SOL"));
    assert_eq!(coin_ticker("dogecoin"), None);
}

#[test]
fn coincap_answer_becomes_writes() {
    let w = coincap_writes(&[
        quote("solana", "150.5"),
        quote("dogecoin", "0.1"),
        quote("bitcoin", "64000.1"),
    ]);
    assert_eq!(w.len(), 2);
    assert_eq!(w[0].key, "rates:crypto:SOL/USD");
    assert_eq!(w[0].value, "150.5");
    assert_eq!(w[1].key, "rates:crypto:BTC/USD");
    assert_eq!(w[1].value, "64000.1");
}

#[test]
fn frankfurter_answer_becomes_writes_in_currency_order() {
    let w = frankfurter_writes(&[
        quote("JPY", "155.2"),
        quote("CHF", "0.9"),
        quote("EUR", "0.921"),
        quote("AUD", "1.5"),
    ]);
    let got: Vec<(String, String)> = w.into_iter().map(|w| (w.key, w.value)).collect();
    assert_eq!(
        got,
        vec![
            ("rates:fiat:USD/EUR".to_string(), "0.921".to_string()),
            ("rates:fiat:USD/JPY".to_string(), "155.2".to_string()),
            ("rates:fiat:USD/AUD".to_string(), "1.5".to_string()),
        ]
    );
    assert!(frankfurter_writes(&[]).is_empty());
}

#[test]
fn feed_sources() {
    assert_eq!(feed_source("frankfurter"), Some(FeedSource::Frankfurter));
    assert_eq!(feed_source("coingecko"), Some(FeedSource::CoinGecko));
    assert_eq!(feed_source("coincap"), None);
}
