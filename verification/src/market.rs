//! A plain client for accounts quoted in USDT, with quantities of six decimals
//! and prices of two.

use vstd::prelude::*;
use crate::binance;
use crate::binance::{
    candles_of, held_in, klines_address, klines_url, open_get, symbol_query, HistoryRun, HttpCall,
    HttpMethod,
};
use crate::config::Config;
use crate::exchange::{trim_end, trimmed_end, Candle};
use crate::json::{find_item, item_with, Json};
use crate::number::{zero, Number};
use crate::signing::{is_hex_digit, signature_of};
use crate::text::{chars_of, decimal, same_text, text_of, text_of_count};

verus! {

// ---------------------------------------------------------------------------
// Formatting
// ---------------------------------------------------------------------------

/// A quantity with up to six decimals, without trailing zeros.
pub open spec fn quantity_text<S: Number>(qty: S) -> Seq<char> {
    trimmed_end(trimmed_end(qty.fixed(6), '0'), '.')
}

/// Formats a quantity with up to six decimals, trimming trailing zeros.
pub fn format_quantity<S: Number>(qty: S) -> (r: String)
    ensures
        r@ == quantity_text(qty),
{
    let mut chars: Vec<char> = chars_of(qty.to_fixed(6).as_str());
    trim_end(&mut chars, '0');
    trim_end(&mut chars, '.');
    let text = text_of(&chars, 0, chars.len());
    assert(text@ =~= chars@);
    text
}

/// Formats a price with two decimals.
pub fn format_price<S: Number>(price: S) -> (r: String)
    ensures
        r@ == price.fixed(2),
{
    price.to_fixed(2)
}

// ---------------------------------------------------------------------------
// Replies
// ---------------------------------------------------------------------------

/// Why a reply cannot be read.
#[derive(Debug, Clone, Copy, PartialEq, Eq, Structural)]
pub enum ReadError {
    /// The reply is not a list of rows.
    NotRows,
    NoPrice,
    NoBalances,
    NoUsdtBalance,
}

impl ReadError {
    /// The error in words: with the body of the reply where it helps, and for a reply
    /// that is not a list of rows with what its decoder says of it.
    pub open spec fn message(self, body: Seq<char>, cause: Seq<char>) -> Seq<char> {
        match self {
            ReadError::NotRows => "JSON parse error: "@ + cause,
            ReadError::NoPrice => "Failed to parse price"@,
            ReadError::NoBalances => "No balances array in response: "@ + body,
            ReadError::NoUsdtBalance => "Failed to parse USDT balance"@,
        }
    }

    pub fn describe(self, body: &str, cause: &str) -> (r: String)
        ensures
            r@ == self.message(body@, cause@),
    {
        match self {
            ReadError::NotRows => "JSON parse error: ".to_owned().concat(cause),
            ReadError::NoPrice => "Failed to parse price".to_owned(),
            ReadError::NoBalances => "No balances array in response: ".to_owned().concat(body),
            ReadError::NoUsdtBalance => "Failed to parse USDT balance".to_owned(),
        }
    }
}

/// Whether every item is itself a list.
pub open spec fn all_rows(items: Seq<Json>) -> bool {
    forall|i: int| 0 <= i < items.len() ==> (#[trigger] items[i]).as_list() is Some
}

/// Reads a klines reply. Rows that are no candle are skipped.
pub fn read_klines<S: Number>(resp: &Json) -> (r: Result<Vec<Candle<S>>, ReadError>)
    ensures
        match r {
            Ok(candles) => resp.as_list() matches Some(rows) && all_rows(rows) && candles@
                == candles_of::<S>(rows),
            Err(error) => error == ReadError::NotRows && !(resp.as_list() matches Some(rows)
                && all_rows(rows)),
        },
{
    let rows = match resp.list() {
        Some(rows) => rows,
        None => return Err(ReadError::NotRows),
    };
    let mut i: usize = 0;
    while i < rows.len()
        invariant
            i <= rows@.len(),
            resp.as_list() == Some(rows@),
            forall|j: int| 0 <= j < i ==> (#[trigger] rows@[j]).as_list() is Some,
        decreases rows@.len() - i,
    {
        if rows[i].list().is_none() {
            assert(rows@[i as int].as_list() is None);
            return Err(ReadError::NotRows);
        }
        i = i + 1;
    }
    match binance::parse_klines::<S>(resp) {
        Ok(candles) => Ok(candles),
        Err(_) => Err(ReadError::NotRows),
    }
}

/// Reads a ticker reply.
pub fn read_price<S: Number>(resp: &Json) -> (r: Result<S, ReadError>)
    ensures
        r == match resp.number_at::<S>("price"@) {
            Some(price) => Ok::<S, ReadError>(price),
            None => Err(ReadError::NoPrice),
        },
{
    match resp.get_number::<S>("price") {
        Some(price) => Ok(price),
        None => Err(ReadError::NoPrice),
    }
}

/// The free USDT in an account reply: that of the first USDT row, zero where there
/// is none.
pub open spec fn usdt_balance_of<S: Number>(resp: Json) -> Result<S, ReadError> {
    match resp.list_at("balances"@) {
        None => Err(ReadError::NoBalances),
        Some(rows) => match item_with(rows, "asset"@, "USDT"@) {
            None => Ok(zero::<S>()),
            Some(row) => match row.number_at::<S>("free"@) {
                Some(free) => Ok(free),
                None => Err(ReadError::NoUsdtBalance),
            },
        },
    }
}

/// Reads the free USDT out of an account reply.
pub fn read_usdt_balance<S: Number>(resp: &Json) -> (r: Result<S, ReadError>)
    ensures
        r == usdt_balance_of::<S>(*resp),
{
    let rows = match resp.get_list("balances") {
        Some(rows) => rows,
        None => return Err(ReadError::NoBalances),
    };
    match find_item(rows, "asset", "USDT") {
        None => Ok(S::ratio(0, 1)),
        Some(row) => match row.get_number::<S>("free") {
            Some(free) => Ok(free),
            None => Err(ReadError::NoUsdtBalance),
        },
    }
}

/// The assets other than USDT of which anything is held, in order, with what is
/// held.
pub open spec fn nonzero_in<S: Number>(rows: Seq<Json>) -> Seq<(Seq<char>, S)>
    decreases rows.len(),
{
    if rows.len() == 0 {
        Seq::empty()
    } else {
        let before = nonzero_in::<S>(rows.drop_last());
        let asset = rows.last().text_or_empty("asset"@);
        if zero::<S>().lt(held_in::<S>(rows.last())) && asset != "USDT"@ {
            before.push((asset, held_in::<S>(rows.last())))
        } else {
            before
        }
    }
}

pub open spec fn holdings<S>(assets: Seq<(String, S)>) -> Seq<(Seq<char>, S)> {
    assets.map_values(|b: (String, S)| (b.0@, b.1))
}

/// Reads all non-zero balances out of an account reply.
pub fn read_nonzero_balances<S: Number>(resp: &Json) -> (r: Result<Vec<(String, S)>, ReadError>)
    ensures
        match r {
            Ok(assets) => resp.list_at("balances"@) matches Some(rows) && holdings(assets@)
                == nonzero_in::<S>(rows),
            Err(error) => error == ReadError::NoBalances && resp.list_at("balances"@) is None,
        },
{
    let rows = match resp.get_list("balances") {
        Some(rows) => rows,
        None => return Err(ReadError::NoBalances),
    };
    let mut assets: Vec<(String, S)> = Vec::new();
    let mut i: usize = 0;
    assert(holdings(assets@) =~= nonzero_in::<S>(rows@.take(0)));
    while i < rows.len()
        invariant
            i <= rows@.len(),
            holdings(assets@) == nonzero_in::<S>(rows@.take(i as int)),
        decreases rows@.len() - i,
    {
        proof {
            assert(rows@.take(i + 1).drop_last() =~= rows@.take(i as int));
        }
        let asset = rows[i].get_text_or_empty("asset");
        let held = rows[i].get_number_or_zero::<S>("free").plus(
            rows[i].get_number_or_zero::<S>("locked"),
        );
        if S::ratio(0, 1).below(held) && !same_text(asset.as_str(), "USDT") {
            let ghost before = assets@;
            let ghost name = asset@;
            assets.push((asset, held));
            assert(holdings(assets@) =~= holdings(before).push((name, held)));
        }
        i = i + 1;
    }
    assert(rows@.take(i as int) =~= rows@);
    Ok(assets)
}

// ---------------------------------------------------------------------------
// Requests
// ---------------------------------------------------------------------------

#[derive(Debug, Clone, PartialEq)]
pub struct BinanceClient {
    pub client: binance::BinanceClient,
}

pub open spec fn plain_order_query<S: Number>(
    symbol: Seq<char>,
    side: Seq<char>,
    quantity: S,
    ts: u64,
) -> Seq<char> {
    "symbol="@ + symbol + "&side="@ + side + "&type=MARKET&quantity="@ + quantity_text(quantity)
        + "&timestamp="@ + decimal(ts as nat)
}

pub open spec fn plain_oco_query<S: Number>(
    symbol: Seq<char>,
    quantity: S,
    take_profit: S,
    stop: S,
    stop_limit: S,
    ts: u64,
) -> Seq<char> {
    "symbol="@ + symbol + "&side=SELL&quantity="@ + quantity_text(quantity)
        + "&aboveType=LIMIT_MAKER&abovePrice="@ + take_profit.fixed(2)
        + "&belowType=STOP_LOSS_LIMIT&belowPrice="@ + stop_limit.fixed(2) + "&belowStopPrice="@
        + stop.fixed(2) + "&belowTimeInForce=GTC&timestamp="@ + decimal(ts as nat)
}

fn open_read(url: String) -> (r: HttpCall)
    ensures
        r@ == open_get(url@),
{
    HttpCall { method: HttpMethod::Get, url, body: None, signed: false }
}

impl BinanceClient {
    pub fn new<S: Number>(config: &Config<S>) -> (r: Self)
        ensures
            r.client.base_url == config.base_url,
            r.client.api_key == config.api_key,
            r.client.api_secret == config.api_secret,
    {
        BinanceClient { client: binance::BinanceClient::new(config) }
    }

    /// The time that requests are stamped with, in epoch milliseconds. Which time
    /// that is, the system's clock decides.
    pub fn timestamp_ms(&self) -> (r: u64) {
        self.client.timestamp_ms()
    }

    pub fn sign(&self, query: &str) -> (r: String)
        ensures
            r@ == signature_of(self.client.api_secret@, query@),
            r@.len() == 64,
            forall|i: int| 0 <= i < 64 ==> is_hex_digit(#[trigger] r@[i]),
    {
        self.client.sign(query)
    }

    /// Klines of any interval ("1h", "4h", "1d"), from the configured endpoint.
    pub fn get_klines(&self, symbol: &str, interval: &str, limit: u32) -> (r: HttpCall)
        ensures
            r@ == open_get(
                klines_address(self.client.base_url@, symbol@, interval@, limit, None),
            ),
    {
        open_read(klines_url(self.client.base_url.as_str(), symbol, interval, limit, None))
    }

    /// Klines from the public production endpoint, for history that a testnet does
    /// not have.
    pub fn get_klines_public(&self, symbol: &str, interval: &str, limit: u32) -> (r: HttpCall)
        ensures
            r@ == open_get(
                klines_address("https://api.binance.com"@, symbol@, interval@, limit, None),
            ),
    {
        open_read(klines_url(binance::history_base_url(), symbol, interval, limit, None))
    }

    /// The next page of an extended history, from the public production endpoint,
    /// if any is still wanted.
    pub fn get_klines_extended<S: Number>(
        &self,
        symbol: &str,
        interval: &str,
        run: &HistoryRun<S>,
    ) -> (r: Option<HttpCall>)
        ensures
            match r {
                Some(call) => run.wanted() matches Some(page) && call@ == open_get(
                    klines_address(
                        "https://api.binance.com"@,
                        symbol@,
                        interval@,
                        page.limit,
                        page.end_time,
                    ),
                ),
                None => run.wanted() is None,
            },
    {
        match run.next_page() {
            Some(page) => Some(
                open_read(
                    klines_url(
                        binance::history_base_url(),
                        symbol,
                        interval,
                        page.limit,
                        page.end_time,
                    ),
                ),
            ),
            None => None,
        }
    }

    pub fn get_price(&self, symbol: &str) -> (r: HttpCall)
        ensures
            r@ == open_get(self.client.base_url@ + "/api/v3/ticker/price?symbol="@ + symbol@),
    {
        self.client.price(symbol)
    }

    /// The account, of which [`read_usdt_balance`] reads the free USDT.
    pub fn get_usdt_balance(&self, ts: u64) -> (r: HttpCall)
        ensures
            r@ == self.client.signed_get_view(
                "/api/v3/account"@,
                "timestamp="@ + decimal(ts as nat),
            ),
    {
        self.client.account(ts)
    }

    /// The account, of which [`read_nonzero_balances`] reads what is held.
    pub fn get_nonzero_balances(&self, ts: u64) -> (r: HttpCall)
        ensures
            r@ == self.client.signed_get_view(
                "/api/v3/account"@,
                "timestamp="@ + decimal(ts as nat),
            ),
    {
        self.client.account(ts)
    }

    /// A market order, BUY or SELL.
    pub fn market_order<S: Number>(&self, symbol: &str, side: &str, quantity: S, ts: u64) -> (r:
        HttpCall)
        ensures
            r@ == self.client.signed_form_view(
                HttpMethod::Post,
                "/api/v3/order"@,
                plain_order_query(symbol@, side@, quantity, ts),
            ),
    {
        let mut query = "symbol=".to_owned();
        query.append(symbol);
        query.append("&side=");
        query.append(side);
        query.append("&type=MARKET&quantity=");
        query.append(format_quantity(quantity).as_str());
        query.append("&timestamp=");
        query.append(text_of_count(ts).as_str());
        self.client.signed_form(HttpMethod::Post, "/api/v3/order", query.as_str())
    }

    /// An OCO sell: a take-profit limit and a stop-loss limit.
    pub fn oco_sell<S: Number>(
        &self,
        symbol: &str,
        quantity: S,
        take_profit_price: S,
        stop_price: S,
        stop_limit_price: S,
        ts: u64,
    ) -> (r: HttpCall)
        ensures
            r@ == self.client.signed_form_view(
                HttpMethod::Post,
                "/api/v3/orderList/oco"@,
                plain_oco_query(
                    symbol@,
                    quantity,
                    take_profit_price,
                    stop_price,
                    stop_limit_price,
                    ts,
                ),
            ),
    {
        let mut query = "symbol=".to_owned();
        query.append(symbol);
        query.append("&side=SELL&quantity=");
        query.append(format_quantity(quantity).as_str());
        query.append("&aboveType=LIMIT_MAKER&abovePrice=");
        query.append(format_price(take_profit_price).as_str());
        query.append("&belowType=STOP_LOSS_LIMIT&belowPrice=");
        query.append(format_price(stop_limit_price).as_str());
        query.append("&belowStopPrice=");
        query.append(format_price(stop_price).as_str());
        query.append("&belowTimeInForce=GTC&timestamp=");
        query.append(text_of_count(ts).as_str());
        self.client.signed_form(HttpMethod::Post, "/api/v3/orderList/oco", query.as_str())
    }

    pub fn cancel_open_orders(&self, symbol: &str, ts: u64) -> (r: HttpCall)
        ensures
            r@ == self.client.signed_form_view(
                HttpMethod::Delete,
                "/api/v3/openOrders"@,
                symbol_query(symbol@, ts),
            ),
    {
        self.client.cancel_open_orders(symbol, ts)
    }

    pub fn get_open_orders(&self, symbol: &str, ts: u64) -> (r: HttpCall)
        ensures
            r@ == self.client.signed_get_view("/api/v3/openOrders"@, symbol_query(symbol@, ts)),
    {
        self.client.open_orders(symbol, ts)
    }
}

// ---------------------------------------------------------------------------
// Laws
// ---------------------------------------------------------------------------

/// The free USDT is that of the first USDT row: nothing without such a row, and an error
/// where it cannot be read or there are no balances.
pub proof fn law_the_free_usdt<S: Number>(resp: Json)
    ensures
        resp.list_at("balances"@) is None ==> usdt_balance_of::<S>(resp) == Err::<S, ReadError>(
            ReadError::NoBalances,
        ),
        resp.list_at("balances"@) matches Some(rows) ==> {
            &&& item_with(rows, "asset"@, "USDT"@) is None ==> usdt_balance_of::<S>(resp) == Ok::<
                S,
                ReadError,
            >(S::of_ratio(0, 1))
            &&& item_with(rows, "asset"@, "USDT"@) matches Some(row) ==> {
                &&& row.number_at::<S>("free"@) matches Some(free) ==> usdt_balance_of::<S>(resp)
                    == Ok::<S, ReadError>(free)
                &&& row.number_at::<S>("free"@) is None ==> usdt_balance_of::<S>(resp) == Err::<
                    S,
                    ReadError,
                >(ReadError::NoUsdtBalance)
            }
        },
{
}

/// One more balance row adds its asset, with what is free and what is locked together, where
/// that is above zero and the asset is not USDT.
pub proof fn law_balances_are_read_in_order<S: Number>(rows: Seq<Json>, row: Json)
    ensures
        nonzero_in::<S>(Seq::<Json>::empty()).len() == 0,
        ({
            let asset = row.text_or_empty("asset"@);
            let held = row.number_or_zero::<S>("free"@).sum(row.number_or_zero::<S>("locked"@));
            nonzero_in::<S>(rows.push(row)) == if asset != "USDT"@ && S::of_ratio(0, 1).lt(held) {
                nonzero_in::<S>(rows).push((asset, held))
            } else {
                nonzero_in::<S>(rows)
            }
        }),
{
    assert(rows.push(row).drop_last() =~= rows);
}

/// Quantities go out with up to six decimals and prices with two. A bracket names its target
/// as the upper price, its stop as the lower trigger and its limit as the lower price.
pub proof fn law_plain_queries_name_what_they_ask<S: Number>(
    symbol: Seq<char>,
    side: Seq<char>,
    quantity: S,
    target: S,
    stop: S,
    limit: S,
    ts: u64,
)
    ensures
        quantity_text(quantity) == trimmed_end(trimmed_end(quantity.fixed(6), '0'), '.'),
        plain_order_query(symbol, side, quantity, ts) == "symbol="@ + symbol + "&side="@ + side
            + "&type=MARKET&quantity="@ + quantity_text(quantity) + "&timestamp="@ + decimal(
            ts as nat,
        ),
        plain_oco_query(symbol, quantity, target, stop, limit, ts) == "symbol="@ + symbol
            + "&side=SELL&quantity="@ + quantity_text(quantity)
            + "&aboveType=LIMIT_MAKER&abovePrice="@ + target.fixed(2)
            + "&belowType=STOP_LOSS_LIMIT&belowPrice="@ + limit.fixed(2) + "&belowStopPrice="@
            + stop.fixed(2) + "&belowTimeInForce=GTC&timestamp="@ + decimal(ts as nat),
{
}

/// What each error says.
pub proof fn law_read_errors_in_words(body: Seq<char>, cause: Seq<char>)
    ensures
        ReadError::NotRows.message(body, cause) == "JSON parse error: "@ + cause,
        ReadError::NoPrice.message(body, cause) == "Failed to parse price"@,
        ReadError::NoBalances.message(body, cause) == "No balances array in response: "@ + body,
        ReadError::NoUsdtBalance.message(body, cause) == "Failed to parse USDT balance"@,
{
}

/// A reply is rows where each of its items is a list, and one item that is none spoils it.
pub proof fn law_every_row_is_a_list(items: Seq<Json>, item: Json)
    ensures
        all_rows(Seq::<Json>::empty()),
        all_rows(items.push(item)) <==> all_rows(items) && item is List,
{
    let longer = items.push(item);
    if all_rows(longer) {
        assert(longer[items.len() as int] == item);
        assert(item.as_list() is Some);
        assert forall|i: int| 0 <= i < items.len() implies (#[trigger] items[i]).as_list()
            is Some by {
            assert(longer[i] == items[i]);
        }
    }
}

} // verus!
