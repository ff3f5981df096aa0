use serde_json::Value;
use tempest::binance::{
    check_api_error, format_decimal, format_price, format_quantity, parse_account, parse_candle,
    parse_klines, parse_oco, parse_open_order, parse_open_orders, parse_order_outcome,
    parse_price, parse_stop, parse_symbol_filters, BinanceClient, FilterCache, HistoryRun,
    HttpMethod, WireError,
};
use tempest::config::{log_filter, Config, ConfigError, Environment};
use tempest::exchange::{protective_levels, Balance, Candle, OpenOrder, OrderKind, Side};
use tempest::json::Json;
use tempest::market;
use tempest::notify::Notifier;
use tempest::number::Number;
use tempest::risk::{Position, RiskLimits};
use tempest::signing::sign;
use tempest::strategy::{EntryConditions, IndicatorSnapshot};
use tempest::venue::Interval;

/// Machine floats.
#[derive(Debug, Clone, Copy, PartialEq)]
struct F(f64);

impl Number for F {
    fn ratio(num: i64, den: u64) -> Self {
        F(num as f64 / den as f64)
    }
    fn count(n: u64) -> Self {
        F(n as f64)
    }
    fn nan() -> Self {
        F(f64::NAN)
    }
    fn min_value() -> Self {
        F(f64::MIN)
    }
    fn max_value() -> Self {
        F(f64::MAX)
    }
    fn plus(self, other: Self) -> Self {
        F(self.0 + other.0)
    }
    fn minus(self, other: Self) -> Self {
        F(self.0 - other.0)
    }
    fn times(self, other: Self) -> Self {
        F(self.0 * other.0)
    }
    fn over(self, other: Self) -> Self {
        F(self.0 / other.0)
    }
    fn neg(self) -> Self {
        F(-self.0)
    }
    fn abs(self) -> Self {
        F(self.0.abs())
    }
    fn floor(self) -> Self {
        F(self.0.floor())
    }
    fn ceil(self) -> Self {
        F(self.0.ceil())
    }
    fn round(self) -> Self {
        F(self.0.round())
    }
    fn is_nan(self) -> bool {
        self.0.is_nan()
    }
    fn is_finite(self) -> bool {
        self.0.is_finite()
    }
    fn below(self, other: Self) -> bool {
        self.0 < other.0
    }
    fn at_most(self, other: Self) -> bool {
        self.0 <= other.0
    }
    fn equals(self, other: Self) -> bool {
        self.0 == other.0
    }
    fn ranked(self, other: Self) -> bool {
        self.0.total_cmp(&other.0).is_le()
    }
    fn to_index(self) -> usize {
        self.0 as usize
    }
    fn to_fixed(self, decimals: usize) -> String {
        format!("{:.*}", decimals, self.0)
    }
    fn to_fixed_signed(self, decimals: usize) -> String {
        format!("{:+.*}", decimals, self.0)
    }
    fn to_shortest(self) -> String {
        format!("{}", self.0)
    }
    fn parse(text: &str) -> Option<Self> {
        text.parse().ok().map(F)
    }
}

fn env(vars: &[(&str, &str)]) -> Environment {
    Environment {
        vars: vars
            .iter()
            .map(|(k, v)| (k.to_string(), v.to_string()))
            .collect(),
    }
}

fn f(v: f64) -> F {
    F(v)
}

fn convert(value: Value) -> Json {
    match value {
        Value::Null => Json::Null,
        Value::Bool(b) => Json::Bool(b),
        Value::Number(n) => match (n.as_u64(), n.as_i64()) {
            (Some(count), _) => Json::Count(count),
            (None, Some(negative)) => Json::Negative(negative),
            (None, None) => Json::Fraction,
        },
        Value::String(text) => Json::Text(text),
        Value::Array(items) => Json::List(items.into_iter().map(convert).collect()),
        Value::Object(fields) => {
            Json::Record(fields.into_iter().map(|(k, v)| (k, convert(v))).collect())
        }
    }
}

fn json(text: &str) -> Json {
    convert(serde_json::from_str(text).expect("test body is JSON"))
}

fn config() -> Config<F> {
    Config {
        base_url: "https://testnet.binance.vision".to_string(),
        api_key: "test_key".to_string(),
        api_secret: "test_secret".to_string(),
        quote_asset: "USDT".to_string(),
        trading_pairs: vec![],
        poll_interval_secs: 300,
        backtest_mode: false,
        risk: Default::default(),
    }
}

fn test_client() -> BinanceClient {
    BinanceClient::new(&config())
}

// ----- signing -----

#[test]
fn sign_is_deterministic() {
    let client = test_client();
    assert_eq!(
        client.sign("timestamp=1234567890"),
        client.sign("timestamp=1234567890")
    );
}

#[test]
fn sign_produces_64_hex_chars() {
    let sig = test_client().sign("timestamp=1234567890");
    assert_eq!(sig.len(), 64);
    assert!(sig.chars().all(|c| c.is_ascii_hexdigit()));
}

#[test]
fn sign_differs_for_different_inputs() {
    let client = test_client();
    assert_ne!(
        client.sign("timestamp=1111111111"),
        client.sign("timestamp=2222222222")
    );
}

#[test]
fn sign_is_hmac_sha256_in_hex() {
    assert_eq!(
        sign("my secret and secure key", "input message"),
        "97d2a569059bbcd8ead4444ff99071f4c01d005bcefe0d3567e1be628e5fdcd9"
    );
}

#[test]
fn timestamp_is_in_milliseconds() {
    let ts = test_client().timestamp_ms();
    // After 2020, before 2100.
    assert!(ts > 1_577_836_800_000);
    assert!(ts < 4_102_444_800_000);
}

// ----- formatting -----

#[test]
fn quantity_formatting_trims_trailing_zeros() {
    assert_eq!(format_quantity(f(0.15)), "0.15");
    assert_eq!(format_quantity(f(1.0)), "1");
    assert_eq!(format_quantity(f(0.001234)), "0.001234");
    assert_eq!(format_quantity(f(0.100000)), "0.1");
}

#[test]
fn quantity_formatting_keeps_eight_decimals() {
    // A 1e-5 step size needs five decimals; sub-satoshi assets need the full
    // eight.
    assert_eq!(format_quantity(f(0.00012)), "0.00012");
    assert_eq!(format_quantity(f(0.00000001)), "0.00000001");
}

#[test]
fn price_formatting_preserves_sub_cent_assets() {
    assert_eq!(format_price(f(50000.0)), "50000");
    assert_eq!(format_price(f(77_214.24)), "77214.24");
    // Two-decimal formatting would have rendered this as "0.00".
    assert_eq!(format_price(f(0.00001234)), "0.00001234");
}

#[test]
fn whole_numbers_keep_their_own_zeros() {
    assert_eq!(format_decimal(f(100.0)), "100");
    assert_eq!(format_decimal(f(-2.5)), "-2.5");
}

// ----- exchange filters -----

#[test]
fn symbol_filters_parse_from_exchange_info() {
    let resp = json(
        r#"{"symbols": [{
            "symbol": "BTCUSDC",
            "baseAsset": "BTC",
            "quoteAsset": "USDC",
            "filters": [
                {"filterType": "PRICE_FILTER", "minPrice": "0.01000000",
                 "maxPrice": "1000000.00000000", "tickSize": "0.01000000"},
                {"filterType": "LOT_SIZE", "minQty": "0.00001000",
                 "maxQty": "9000.00000000", "stepSize": "0.00001000"},
                {"filterType": "NOTIONAL", "minNotional": "5.00000000",
                 "maxNotional": "9000000.00000000"}
            ]
        }]}"#,
    );

    let filters = parse_symbol_filters::<F>(&resp, "BTCUSDC").unwrap();
    assert_eq!(filters.base_asset, "BTC");
    assert_eq!(filters.quote_asset, "USDC");
    assert_eq!(filters.step_size.0, 0.00001);
    assert_eq!(filters.min_qty.0, 0.00001);
    assert_eq!(filters.tick_size.0, 0.01);
    assert_eq!(filters.min_notional.0, 5.0);
}

#[test]
fn symbol_filters_accept_the_legacy_min_notional_filter() {
    let resp = json(
        r#"{"symbols": [{
            "symbol": "BTCUSDT", "baseAsset": "BTC", "quoteAsset": "USDT",
            "filters": [
                {"filterType": "PRICE_FILTER", "tickSize": "0.01000000"},
                {"filterType": "LOT_SIZE", "minQty": "0.00001000",
                 "maxQty": "9000.00000000", "stepSize": "0.00001000"},
                {"filterType": "MIN_NOTIONAL", "minNotional": "10.00000000"}
            ]
        }]}"#,
    );
    assert_eq!(
        parse_symbol_filters::<F>(&resp, "BTCUSDT")
            .unwrap()
            .min_notional
            .0,
        10.0
    );
}

#[test]
fn symbol_filters_error_when_symbol_absent() {
    let resp = json(r#"{"symbols": []}"#);
    assert!(parse_symbol_filters::<F>(&resp, "BTCUSDC").is_err());
    assert!(matches!(
        parse_symbol_filters::<F>(&resp, "BTCUSDC"),
        Err(WireError::NoSymbol { .. })
    ));
}

#[test]
fn symbol_filters_need_a_lot_size_and_a_price_filter() {
    let no_lot = json(
        r#"{"symbols": [{"symbol": "BTCUSDC", "baseAsset": "BTC", "quoteAsset": "USDC",
            "filters": [{"filterType": "PRICE_FILTER", "tickSize": "0.01"}]}]}"#,
    );
    assert!(matches!(
        parse_symbol_filters::<F>(&no_lot, "BTCUSDC"),
        Err(WireError::NoLotSize { .. })
    ));
    let no_price = json(
        r#"{"symbols": [{"symbol": "BTCUSDC", "baseAsset": "BTC", "quoteAsset": "USDC",
            "filters": [{"filterType": "LOT_SIZE", "stepSize": "0.1", "minQty": "0.1",
                         "maxQty": "9"}]}]}"#,
    );
    assert!(matches!(
        parse_symbol_filters::<F>(&no_price, "BTCUSDC"),
        Err(WireError::NoPriceFilter { .. })
    ));
}

#[test]
fn filters_are_kept_per_symbol() {
    let resp = json(
        r#"{"symbols": [{
            "symbol": "BTCUSDC", "baseAsset": "BTC", "quoteAsset": "USDC",
            "filters": [
                {"filterType": "PRICE_FILTER", "tickSize": "0.01"},
                {"filterType": "LOT_SIZE", "minQty": "0.1", "maxQty": "9", "stepSize": "0.1"}
            ]
        }]}"#,
    );
    let filters = parse_symbol_filters::<F>(&resp, "BTCUSDC").unwrap();
    let mut cache = FilterCache::new();
    assert!(cache.get("BTCUSDC").is_none());
    cache.keep("BTCUSDC".to_string(), filters.clone());
    assert_eq!(cache.get("BTCUSDC"), Some(&filters));
    assert!(cache.get("ETHUSDC").is_none());
}

#[test]
fn fills_carry_commission_and_asset() {
    let resp = json(
        r#"{
        "executedQty": "0.00012",
        "fills": [{"price": "77214.24", "qty": "0.00012",
                   "commission": "0.00000012", "commissionAsset": "BTC"}]
    }"#,
    );
    let out = parse_order_outcome(&resp, "BTCUSDC", Side::Buy, f(0.00012));
    // Binance takes the spot BUY fee out of the base asset, so only
    // 0.00011988 BTC is actually sellable afterwards.
    assert!((out.commission_paid_in("BTC").0 - 0.00000012).abs() < 1e-12);
}

// ----- error detection -----

#[test]
fn api_error_body_is_detected() {
    let err = check_api_error(&json(
        r#"{"code": -1013, "msg": "Filter failure: MIN_NOTIONAL"}"#,
    ));
    assert!(err.unwrap_err().describe("").contains("MIN_NOTIONAL"));
}

#[test]
fn successful_body_is_not_an_error() {
    assert!(check_api_error(&json(r#"{"orderId": 123, "status": "FILLED"}"#)).is_ok());
    // code == 0 is Binance's success sentinel on some endpoints.
    assert!(check_api_error(&json(r#"{"code": 0}"#)).is_ok());
}

// ----- candles -----

#[test]
fn candle_parses_positional_row() {
    let row = json(
        r#"[
        1700000000000,
        "42000.00",
        "42500.00",
        "41800.00",
        "42300.00",
        "123.45",
        1700086399999,
        "5215000.0",
        900,
        "60.0",
        "2500000.0",
        "0"
    ]"#,
    );
    let c = parse_candle::<F>(&row).expect("row parses");
    assert_eq!(c.open_time, 1_700_000_000_000);
    assert_eq!(c.open.0, 42_000.0);
    assert_eq!(c.high.0, 42_500.0);
    assert_eq!(c.low.0, 41_800.0);
    assert_eq!(c.close.0, 42_300.0);
    assert_eq!(c.volume.0, 123.45);
    assert_eq!(c.close_time, 1_700_086_399_999);
}

#[test]
fn truncated_candle_row_is_skipped() {
    assert!(parse_candle::<F>(&json(r#"[1700000000000, "42000.00"]"#)).is_none());
}

#[test]
fn klines_that_are_no_list_are_an_error() {
    let err = parse_klines::<F>(&json(r#"{"code": -1121, "msg": "Invalid symbol."}"#)).unwrap_err();
    assert!(matches!(err, WireError::KlinesFailed));
    assert_eq!(err.describe("{}"), "klines request failed: {}");
    assert_eq!(parse_klines::<F>(&json("[]")).unwrap().len(), 0);
}

// ----- account -----

#[test]
fn account_splits_quote_from_holdings() {
    let resp = json(
        r#"{"balances": [
        {"asset": "USDC", "free": "19.42", "locked": "0.00"},
        {"asset": "BTC",  "free": "0.001",  "locked": "0.002"},
        {"asset": "ETH",  "free": "0.00",   "locked": "0.00"}
    ]}"#,
    );
    let snap = parse_account::<F>(&resp, "USDC").unwrap();
    assert_eq!(snap.free_quote.0, 19.42);
    // BTC counts free + locked; zero-balance ETH is dropped.
    assert_eq!(
        snap.assets,
        vec![Balance {
            asset: "BTC".into(),
            quantity: f(0.003)
        }]
    );
}

#[test]
fn account_honours_configured_quote_asset() {
    // The same payload read as a USDT account must not pick up the USDC row
    // as the quote balance.
    let resp = json(
        r#"{"balances": [
        {"asset": "USDC", "free": "19.42", "locked": "0.00"},
        {"asset": "USDT", "free": "5.00",  "locked": "0.00"}
    ]}"#,
    );
    let snap = parse_account::<F>(&resp, "USDT").unwrap();
    assert_eq!(snap.free_quote.0, 5.00);
    assert_eq!(
        snap.assets,
        vec![Balance {
            asset: "USDC".into(),
            quantity: f(19.42)
        }]
    );
}

#[test]
fn account_without_balances_is_an_error() {
    assert!(parse_account::<F>(
        &json(r#"{"code": -2015, "msg": "Invalid API-key"}"#),
        "USDC"
    )
    .is_err());
}

// ----- order outcomes -----

#[test]
fn order_outcome_uses_vwap_of_fills() {
    let resp = json(
        r#"{
        "executedQty": "0.004",
        "cummulativeQuoteQty": "169.00",
        "fills": [
            {"price": "42000.00", "qty": "0.001"},
            {"price": "42500.00", "qty": "0.003"}
        ]
    }"#,
    );
    let out = parse_order_outcome(&resp, "BTCUSDC", Side::Buy, f(0.004));
    assert_eq!(out.filled_quantity.0, 0.004);
    // (42000*0.001 + 42500*0.003) / 0.004 = 42375
    assert!((out.average_price.0 - 42_375.0).abs() < 1e-6);
    assert_eq!(out.fills.len(), 2);
}

#[test]
fn order_outcome_falls_back_to_aggregate_quote_qty() {
    let resp = json(r#"{"executedQty": "0.004", "cummulativeQuoteQty": "169.50"}"#);
    let out = parse_order_outcome(&resp, "BTCUSDC", Side::Buy, f(0.004));
    assert!((out.average_price.0 - 42_375.0).abs() < 1e-6);
}

#[test]
fn order_outcome_reports_zero_price_when_unknowable() {
    // Nothing filled: the caller must supply its own reference price rather
    // than trusting a fabricated one.
    let out = parse_order_outcome(
        &json(r#"{"executedQty": "0"}"#),
        "BTCUSDC",
        Side::Buy,
        f(0.004),
    );
    assert_eq!(out.average_price.0, 0.0);
    assert_eq!(out.filled_quantity.0, 0.0);
}

#[test]
fn order_outcome_falls_back_to_requested_quantity() {
    let out = parse_order_outcome(&json("{}"), "BTCUSDC", Side::Sell, f(0.25));
    assert_eq!(out.filled_quantity.0, 0.25);
    assert_eq!(out.side, Side::Sell);
}

// ----- open orders -----

#[test]
fn open_orders_normalise_into_protective_levels() {
    let rows = [
        json(
            r#"{
            "orderId": 11, "symbol": "BTCUSDC", "side": "SELL",
            "type": "LIMIT_MAKER", "price": "62000.00", "stopPrice": "0.00",
            "origQty": "0.001"
        }"#,
        ),
        json(
            r#"{
            "orderId": 12, "symbol": "BTCUSDC", "side": "SELL",
            "type": "STOP_LOSS_LIMIT", "price": "56888.00",
            "stopPrice": "57000.00", "origQty": "0.001"
        }"#,
        ),
    ];
    let orders: Vec<OpenOrder<F>> = rows.iter().filter_map(parse_open_order).collect();
    assert_eq!(orders.len(), 2);
    assert_eq!(orders[0].kind, OrderKind::LimitMaker);
    assert_eq!(orders[1].stop_price.0, 57_000.0);

    let (sl, tp) = protective_levels(&orders);
    assert_eq!(sl.0, 57_000.0);
    assert_eq!(tp.0, 62_000.0);
}

#[test]
fn open_order_with_unknown_side_is_skipped() {
    assert!(parse_open_order::<F>(&json(
        r#"{"symbol": "BTCUSDC", "side": "SIDEWAYS"}"#
    ))
    .is_none());
    assert!(matches!(
        parse_open_orders::<F>(&json(r#"{"rows": 3}"#)),
        Err(WireError::OrdersShape)
    ));
}

#[test]
fn placements_need_the_venues_confirmation() {
    let oco = parse_oco(&json(r#"{"orderListId": 7}"#), f(90.0), f(120.0)).unwrap();
    assert_eq!(oco.order_list_id, 7);
    assert_eq!(oco.stop_price.0, 90.0);
    assert_eq!(oco.take_profit_price.0, 120.0);
    assert!(matches!(
        parse_oco(&json("{}"), f(90.0), f(120.0)),
        Err(WireError::OcoUnconfirmed)
    ));
    assert_eq!(
        parse_stop(&json(r#"{"orderId": 9}"#), f(90.0))
            .unwrap()
            .order_id,
        9
    );
    assert!(matches!(
        parse_stop(&json("{}"), f(90.0)),
        Err(WireError::StopUnconfirmed)
    ));
}

#[test]
fn a_price_is_read_or_missing() {
    assert_eq!(
        parse_price::<F>(&json(r#"{"price": "42.5"}"#), "BTCUSDC")
            .unwrap()
            .0,
        42.5
    );
    assert!(matches!(
        parse_price::<F>(&json("{}"), "BTCUSDC"),
        Err(WireError::NoPrice { .. })
    ));
}

// ----- calls -----

#[test]
fn calls_carry_what_the_venue_asks_for() {
    let client = test_client();
    let klines = client.klines("BTCUSDC", Interval::FourHour, 100);
    assert_eq!(
        klines.url,
        "https://testnet.binance.vision/api/v3/klines?symbol=BTCUSDC&interval=4h&limit=100"
    );
    assert!(!klines.signed);
    let order = client.market_order("BTCUSDC", Side::Buy, f(0.00012), 1_700_000_000_000);
    assert_eq!(order.method, HttpMethod::Post);
    let query =
        "symbol=BTCUSDC&side=BUY&type=MARKET&quantity=0.00012&newOrderRespType=FULL&timestamp=1700000000000";
    let body = order.body.unwrap();
    assert_eq!(
        body,
        format!("{query}&signature={}", sign("test_secret", query))
    );
}

fn bars(from: u64, n: u64) -> Vec<Candle<F>> {
    (from..from + n)
        .map(|t| Candle {
            open_time: t,
            open: f(1.0),
            high: f(1.0),
            low: f(1.0),
            close: f(1.0),
            volume: f(1.0),
            close_time: t,
        })
        .collect()
}

#[test]
fn history_is_fetched_backwards_in_pages() {
    let mut run: HistoryRun<F> = HistoryRun::begin(2_500);
    let first = run.next_page().unwrap();
    assert_eq!((first.limit, first.end_time), (1_000, None));
    run.take(bars(9_000, 1_000));
    let second = run.next_page().unwrap();
    assert_eq!((second.limit, second.end_time), (1_000, Some(8_999)));
    run.take(bars(8_000, 1_000));
    assert_eq!(run.next_page().unwrap().limit, 500);
    run.take(bars(7_500, 500));
    assert!(run.next_page().is_none());
    assert_eq!(run.candles.len(), 2_500);
    assert_eq!(run.candles[0].open_time, 7_500);
    assert_eq!(run.candles[2_499].open_time, 9_999);
}

#[test]
fn history_ends_where_the_venue_has_no_more() {
    let mut run: HistoryRun<F> = HistoryRun::begin(2_500);
    run.take(vec![]);
    assert!(run.next_page().is_none());
}

// ----- the market client -----

fn market_client() -> market::BinanceClient {
    market::BinanceClient::new(&config())
}

#[test]
fn test_sign_deterministic() {
    let client = market_client();
    let sig1 = client.sign("timestamp=1234567890");
    let sig2 = client.sign("timestamp=1234567890");
    assert_eq!(sig1, sig2);
}

#[test]
fn test_sign_produces_64_hex_chars() {
    let client = market_client();
    let sig = client.sign("timestamp=1234567890");
    assert_eq!(sig.len(), 64);
    assert!(sig.chars().all(|c| c.is_ascii_hexdigit()));
}

#[test]
fn test_sign_different_inputs() {
    let client = market_client();
    let sig1 = client.sign("timestamp=1111111111");
    let sig2 = client.sign("timestamp=2222222222");
    assert_ne!(sig1, sig2);
}

#[test]
fn test_timestamp_ms_is_milliseconds() {
    let client = market_client();
    let ts = client.timestamp_ms();
    // Should be in milliseconds: after 2020, before 2100
    let year_2020_ms: u64 = 1_577_836_800_000;
    let year_2100_ms: u64 = 4_102_444_800_000;
    assert!(ts > year_2020_ms);
    assert!(ts < year_2100_ms);
}

#[test]
fn test_format_quantity() {
    assert_eq!(market::format_quantity(f(0.15)), "0.15");
    assert_eq!(market::format_quantity(f(1.0)), "1");
    assert_eq!(market::format_quantity(f(0.001234)), "0.001234");
    assert_eq!(market::format_quantity(f(0.100000)), "0.1");
}

#[test]
fn test_format_price() {
    assert_eq!(market::format_price(f(50000.0)), "50000.00");
    assert_eq!(market::format_price(f(123.456)), "123.46");
}

#[test]
fn balances_are_read_by_asset() {
    let resp = json(
        r#"{"balances": [
        {"asset": "USDT", "free": "12.5", "locked": "1.0"},
        {"asset": "BTC", "free": "0.5", "locked": "0.25"},
        {"asset": "ETH", "free": "0", "locked": "0"}
    ]}"#,
    );
    assert_eq!(market::read_usdt_balance::<F>(&resp).unwrap().0, 12.5);
    let held = market::read_nonzero_balances::<F>(&resp).unwrap();
    assert!(held.iter().any(|(asset, qty)| asset == "BTC" && qty.0 == 0.75));
    assert!(!held.iter().any(|(asset, _)| asset == "ETH"));
    // Without a USDT row nothing is free; one that does not read is an error.
    assert_eq!(
        market::read_usdt_balance::<F>(&json(r#"{"balances": []}"#))
            .unwrap()
            .0,
        0.0
    );
    assert!(matches!(
        market::read_usdt_balance::<F>(&json(
            r#"{"balances": [{"asset": "USDT", "free": "much"}]}"#
        )),
        Err(market::ReadError::NoUsdtBalance)
    ));
    assert!(matches!(
        market::read_nonzero_balances::<F>(&json("{}")),
        Err(market::ReadError::NoBalances)
    ));
    assert!(matches!(
        market::read_price::<F>(&json("{}")),
        Err(market::ReadError::NoPrice)
    ));
    assert!(matches!(
        market::read_klines::<F>(&json("{}")),
        Err(market::ReadError::NotRows)
    ));
}

#[test]
fn plain_client_errors_read_as_they_should() {
    let cause = "invalid type: map, expected a sequence";
    assert_eq!(
        market::ReadError::NotRows.describe("{}", cause),
        "JSON parse error: invalid type: map, expected a sequence"
    );
    assert_eq!(
        market::ReadError::NoBalances.describe("{}", cause),
        "No balances array in response: {}"
    );
    assert_eq!(
        market::ReadError::NoPrice.describe("{}", cause),
        "Failed to parse price"
    );
    assert_eq!(
        market::ReadError::NoUsdtBalance.describe("{}", cause),
        "Failed to parse USDT balance"
    );
}

// ----- configuration -----

#[test]
fn configuration_is_read_from_the_environment() {
    let config: Config<F> = Config::from_env(
        &env(&[
            ("BINANCE_API_KEY", "key"),
            ("BINANCE_API_SECRET", "SECRET-REDACTED"),
            ("QUOTE_ASSET", "USDC"),
            ("TRADING_PAIRS", " btcusdc , ETHUSDC,"),
            ("POLL_INTERVAL_SECONDS", "60"),
        ]),
        &vec!["tempest".to_string(), "--backtest".to_string()],
    )
    .unwrap();
    assert_eq!(config.quote_asset, "USDC");
    assert_eq!(config.trading_pairs, vec!["BTCUSDC", "ETHUSDC"]);
    assert_eq!(config.poll_interval_secs, 60);
    assert!(config.backtest_mode);
    assert_eq!(config.pair_of("BTC").map(|p| p.as_str()), Some("BTCUSDC"));
    assert_eq!(config.pair_of("SOL"), None);
}

#[test]
fn configuration_errors_are_told_apart() {
    let none: Vec<String> = vec![];
    assert!(matches!(
        Config::<F>::from_env(&env(&[]), &none),
        Err(ConfigError::MissingApiKey)
    ));
    assert!(matches!(
        Config::<F>::from_env(&env(&[("BINANCE_API_KEY", "k")]), &none),
        Err(ConfigError::MissingApiSecret)
    ));
    let keys = [("BINANCE_API_KEY", "k"), ("BINANCE_API_SECRET", "SECRET-REDACTED")];
    let mut bad_pairs = keys.to_vec();
    bad_pairs.push(("QUOTE_ASSET", "USDC"));
    bad_pairs.push(("TRADING_PAIRS", "BTCUSDT"));
    assert!(matches!(
        Config::<F>::from_env(&env(&bad_pairs), &none),
        Err(ConfigError::InvalidPairs(_))
    ));
    let mut bad_poll = keys.to_vec();
    bad_poll.push(("POLL_INTERVAL_SECONDS", "soon"));
    assert!(matches!(
        Config::<F>::from_env(&env(&bad_poll), &none),
        Err(ConfigError::PollIntervalNotANumber)
    ));
}

#[test]
fn the_log_filter_has_a_default() {
    assert_eq!(log_filter(&env(&[("RUST_LOG", "debug")])), "debug");
    assert!(!log_filter(&env(&[])).is_empty());
}

// ----- notifications -----

#[test]
fn a_notifier_without_credentials_sends_nothing() {
    let off = Notifier::from_env(&env(&[("TELEGRAM_BOT_TOKEN", "t")]));
    assert!(!off.is_enabled());
    assert!(off.send("hello").is_none());
    assert!(!Notifier::disabled("USDC").is_enabled());
    assert_eq!(Notifier::disabled("USDC").quote_asset(), "USDC");
}

#[test]
fn a_notifier_addresses_its_chat() {
    let on = Notifier::from_env(&env(&[
        ("TELEGRAM_BOT_TOKEN", "t0"),
        ("TELEGRAM_CHAT_ID", "42"),
    ]));
    let out = on.send("hello").unwrap();
    assert_eq!(out.url, "https://api.telegram.org/bott0/sendMessage");
    assert_eq!(out.chat_id, "42");
    assert!(out.text.contains("hello"));
}

#[test]
fn a_quiet_reconciliation_is_not_announced() {
    let off = Notifier::disabled("USDC");
    assert!(off.notify_reconcile(0, 0, 0).is_none());
    assert!(off.notify_reconcile(1, 0, 0).is_some());
}

#[test]
fn a_status_shows_the_checklist_or_the_position() {
    let off = Notifier::disabled("USDC");
    let snap = IndicatorSnapshot {
        ema_50: f(60_000.0),
        ema_200: f(55_000.0),
        rsi_14: f(45.0),
        macd_histogram: f(5.0),
        macd_above_signal: true,
        macd_bars_since_cross: Some(1),
        current_price: f(62_000.0),
        swing_low: f(59_000.0),
        atr_14: f(1_000.0),
    };
    let conditions = EntryConditions {
        trend_bullish: true,
        rsi_ok: false,
        macd_crossed: true,
        stop_valid: true,
    };
    let flat = off.notify_status("BTCUSDC", &snap, &conditions, None);
    assert!(flat.contains("BTCUSDC"));
    assert!(flat.contains("3/4"));
    let position = Position {
        symbol: "BTCUSDC".into(),
        entry_price: f(60_000.0),
        quantity: f(0.5),
        stop_loss: f(59_000.0),
        take_profit: f(64_000.0),
        entry_time: 0,
        protected: true,
        highest_high: f(62_000.0),
        atr_at_entry: f(0.0),
    };
    let long = off.notify_status("BTCUSDC", &snap, &conditions, Some(&position));
    assert!(long.contains("BTCUSDC"));
    assert_ne!(flat, long);
}

#[test]
fn default_limits_are_the_documented_ones() {
    let limits: RiskLimits<F> = RiskLimits::default();
    assert_eq!(limits.risk_per_trade.0, 0.015);
    assert_eq!(limits.max_open_positions, 4);
    assert_eq!(limits.daily_drawdown.0, 0.05);
}
