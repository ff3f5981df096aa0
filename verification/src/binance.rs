//! The Binance spot REST interface: what is sent, and how replies are read.
//!
//! Owns every detail of the wire format: signing, numbers encoded as texts,
//! order-list semantics. No request is sent from here; a [`HttpCall`] says what
//! to send.

use vstd::prelude::*;
use crate::align::in_order;
use crate::clock::now_ms;
use crate::config::Config;
use crate::exchange::{
    average_of, trim_end, trimmed_end, weighted_average_price, AccountSnapshot, Balance, Candle, Fill,
    OcoPlacement, OpenOrder, OrderKind, OrderOutcome, Side, StopPlacement, SymbolFilters,
};
use crate::json::{find_item, item_with, Json};
use crate::number::{zero, Number};
use crate::signing::{is_hex_digit, sign, signature_of};
use crate::text::{
    chars_of, decimal, same_text, signed_decimal, text_of, text_of_count, text_of_integer,
};
use crate::venue::Interval;

verus! {

/// Public endpoint for historical klines. The configured one may be a testnet,
/// which carries far too little history to warm up an EMA200.
pub fn history_base_url() -> (r: &'static str)
    ensures
        r@ == "https://api.binance.com"@,
{
    "https://api.binance.com"
}

/// Largest page the klines endpoint returns.
pub const MAX_KLINES_PER_REQUEST: usize = 1000;

// ---------------------------------------------------------------------------
// Formatting
// ---------------------------------------------------------------------------

/// A number at eight decimals, without trailing zeros.
pub open spec fn decimal_text<S: Number>(value: S) -> Seq<char> {
    trimmed_end(trimmed_end(value.fixed(8), '0'), '.')
}

/// Renders a number at the venue's full base precision, trimming trailing zeros.
///
/// Callers have already rounded to the symbol's step or tick; this only has to
/// avoid losing that precision.
pub fn format_decimal<S: Number>(value: S) -> (r: String)
    ensures
        r@ == decimal_text(value),
{
    let mut chars: Vec<char> = chars_of(value.to_fixed(8).as_str());
    trim_end(&mut chars, '0');
    trim_end(&mut chars, '.');
    let text = text_of(&chars, 0, chars.len());
    assert(text@ =~= chars@);
    text
}

pub fn format_quantity<S: Number>(qty: S) -> (r: String)
    ensures
        r@ == decimal_text(qty),
{
    format_decimal(qty)
}

pub fn format_price<S: Number>(price: S) -> (r: String)
    ensures
        r@ == decimal_text(price),
{
    format_decimal(price)
}

// ---------------------------------------------------------------------------
// What can be wrong with a reply
// ---------------------------------------------------------------------------

#[derive(Debug, Clone, PartialEq, Eq)]
pub enum WireError {
    /// The venue reports a failure.
    Api { code: i64, message: String },
    KlinesFailed,
    NoBalances,
    NoPrice { symbol: String },
    OcoUnconfirmed,
    StopUnconfirmed,
    OrdersShape,
    NoSymbol { symbol: String },
    NoLotSize { symbol: String },
    NoPriceFilter { symbol: String },
}

impl WireError {
    /// The error in words, with the body of the reply where it helps.
    pub open spec fn message(self, body: Seq<char>) -> Seq<char> {
        match self {
            WireError::Api { code, message } => "Binance API error "@ + signed_decimal(code as int)
                + ": "@ + message@,
            WireError::KlinesFailed => "klines request failed: "@ + body,
            WireError::NoBalances => "No balances array in response: "@ + body,
            WireError::NoPrice { symbol } => "Failed to parse price for "@ + symbol@ + ": "@ + body,
            WireError::OcoUnconfirmed => "OCO not confirmed by exchange: "@ + body,
            WireError::StopUnconfirmed => "stop not confirmed by exchange: "@ + body,
            WireError::OrdersShape => "openOrders returned unexpected shape: "@ + body,
            WireError::NoSymbol { symbol } => "exchangeInfo has no entry for "@ + symbol@,
            WireError::NoLotSize { symbol } => symbol@ + ": exchangeInfo has no LOT_SIZE filter"@,
            WireError::NoPriceFilter { symbol } => symbol@ + ": exchangeInfo has no PRICE_FILTER"@,
        }
    }

    pub fn describe(&self, body: &str) -> (r: String)
        ensures
            r@ == self.message(body@),
    {
        match self {
            WireError::Api { code, message } => {
                let mut text = "Binance API error ".to_owned();
                text.append(text_of_integer(*code).as_str());
                text.append(": ");
                text.append(message.as_str());
                text
            },
            WireError::KlinesFailed => "klines request failed: ".to_owned().concat(body),
            WireError::NoBalances => "No balances array in response: ".to_owned().concat(body),
            WireError::NoPrice { symbol } => {
                let mut text = "Failed to parse price for ".to_owned();
                text.append(symbol.as_str());
                text.append(": ");
                text.append(body);
                text
            },
            WireError::OcoUnconfirmed => "OCO not confirmed by exchange: ".to_owned().concat(body),
            WireError::StopUnconfirmed => "stop not confirmed by exchange: ".to_owned().concat(body),
            WireError::OrdersShape => {
                "openOrders returned unexpected shape: ".to_owned().concat(body)
            },
            WireError::NoSymbol { symbol } => "exchangeInfo has no entry for ".to_owned().concat(
                symbol.as_str(),
            ),
            WireError::NoLotSize { symbol } => symbol.clone().concat(
                ": exchangeInfo has no LOT_SIZE filter",
            ),
            WireError::NoPriceFilter { symbol } => symbol.clone().concat(
                ": exchangeInfo has no PRICE_FILTER",
            ),
        }
    }
}

/// The failure a reply reports, if it reports one: its code and message.
pub open spec fn api_failure(resp: Json) -> Option<(i64, Seq<char>)> {
    match resp.integer_at("code"@) {
        Some(code) => if code != 0 {
            Some(
                (
                    code,
                    match resp.text_at("msg"@) {
                        Some(message) => message,
                        None => "unknown error"@,
                    },
                ),
            )
        } else {
            None
        },
        None => None,
    }
}

/// Failures come as `{"code": .., "msg": ..}`, on some paths with a status of
/// success, so the body is inspected.
pub fn check_api_error(resp: &Json) -> (r: Result<(), WireError>)
    ensures
        match r {
            Ok(_) => api_failure(*resp) is None,
            Err(error) => error matches WireError::Api { code, message } && api_failure(*resp)
                == Some((code, message@)),
        },
{
    match resp.get_integer("code") {
        Some(code) => {
            if code == 0 {
                return Ok(());
            }
            let message = match resp.get_text("msg") {
                Some(message) => message.clone(),
                None => "unknown error".to_owned(),
            };
            Err(WireError::Api { code, message })
        },
        None => Ok(()),
    }
}

// ---------------------------------------------------------------------------
// Candles and prices
// ---------------------------------------------------------------------------

/// A kline row is a positional list: `[openTime, o, h, l, c, v, closeTime, ..]`.
pub open spec fn candle_of<S: Number>(row: Json) -> Option<Candle<S>> {
    match row.as_list() {
        None => None,
        Some(k) => if k.len() < 7 {
            None
        } else {
            match (
                k[0].as_count(),
                k[1].as_number::<S>(),
                k[2].as_number::<S>(),
                k[3].as_number::<S>(),
                k[4].as_number::<S>(),
                k[5].as_number::<S>(),
                k[6].as_count(),
            ) {
                (
                    Some(open_time),
                    Some(open),
                    Some(high),
                    Some(low),
                    Some(close),
                    Some(volume),
                    Some(close_time),
                ) => Some(Candle { open_time, open, high, low, close, volume, close_time }),
                _ => None,
            }
        },
    }
}

pub fn parse_candle<S: Number>(row: &Json) -> (r: Option<Candle<S>>)
    ensures
        r == candle_of::<S>(*row),
{
    let k = match row.list() {
        Some(k) => k,
        None => return None,
    };
    if k.len() < 7 {
        return None;
    }
    match (
        k[0].count(),
        k[1].number::<S>(),
        k[2].number::<S>(),
        k[3].number::<S>(),
        k[4].number::<S>(),
        k[5].number::<S>(),
        k[6].count(),
    ) {
        (
            Some(open_time),
            Some(open),
            Some(high),
            Some(low),
            Some(close),
            Some(volume),
            Some(close_time),
        ) => Some(Candle { open_time, open, high, low, close, volume, close_time }),
        _ => None,
    }
}

/// The candles among the rows, in order. Rows that are none are skipped.
pub open spec fn candles_of<S: Number>(rows: Seq<Json>) -> Seq<Candle<S>>
    decreases rows.len(),
{
    if rows.len() == 0 {
        Seq::empty()
    } else {
        match candle_of::<S>(rows.last()) {
            Some(candle) => candles_of::<S>(rows.drop_last()).push(candle),
            None => candles_of::<S>(rows.drop_last()),
        }
    }
}

/// Reads a klines reply. An error comes back as a record, not the expected list.
pub fn parse_klines<S: Number>(resp: &Json) -> (r: Result<Vec<Candle<S>>, WireError>)
    ensures
        match r {
            Ok(candles) => resp.as_list() matches Some(rows) && candles@ == candles_of::<S>(rows),
            Err(error) => resp.as_list() is None && error is KlinesFailed,
        },
{
    let rows = match resp.list() {
        Some(rows) => rows,
        None => return Err(WireError::KlinesFailed),
    };
    let mut candles: Vec<Candle<S>> = Vec::new();
    let mut i: usize = 0;
    while i < rows.len()
        invariant
            i <= rows@.len(),
            candles@ == candles_of::<S>(rows@.take(i as int)),
        decreases rows@.len() - i,
    {
        proof {
            assert(rows@.take(i + 1).drop_last() =~= rows@.take(i as int));
        }
        if let Some(candle) = parse_candle::<S>(&rows[i]) {
            candles.push(candle);
        }
        i = i + 1;
    }
    assert(rows@.take(i as int) =~= rows@);
    Ok(candles)
}

/// Reads a ticker reply.
pub fn parse_price<S: Number>(resp: &Json, symbol: &str) -> (r: Result<S, WireError>)
    ensures
        match r {
            Ok(price) => resp.number_at::<S>("price"@) == Some(price),
            Err(error) => resp.number_at::<S>("price"@) is None && (error matches WireError::NoPrice {
                symbol: named,
            } && named@ == symbol@),
        },
{
    match resp.get_number::<S>("price") {
        Some(price) => Ok(price),
        None => Err(WireError::NoPrice { symbol: symbol.to_owned() }),
    }
}

// ---------------------------------------------------------------------------
// The account
// ---------------------------------------------------------------------------

/// What is held of an asset in a balance row: free and locked together, since an
/// asset reserved by a resting order is still ours.
pub open spec fn held_in<S: Number>(row: Json) -> S {
    row.number_or_zero::<S>("free"@).sum(row.number_or_zero::<S>("locked"@))
}

/// The free amount of the last row for `quote_asset`, zero where there is none.
pub open spec fn free_quote_in<S: Number>(rows: Seq<Json>, quote_asset: Seq<char>) -> S
    decreases rows.len(),
{
    if rows.len() == 0 {
        zero::<S>()
    } else if rows.last().text_or_empty("asset"@) == quote_asset {
        rows.last().number_or_zero::<S>("free"@)
    } else {
        free_quote_in::<S>(rows.drop_last(), quote_asset)
    }
}

/// The other assets of which anything is held, in order, with what is held.
pub open spec fn holdings_in<S: Number>(rows: Seq<Json>, quote_asset: Seq<char>) -> Seq<
    (Seq<char>, S),
>
    decreases rows.len(),
{
    if rows.len() == 0 {
        Seq::empty()
    } else {
        let before = holdings_in::<S>(rows.drop_last(), quote_asset);
        let asset = rows.last().text_or_empty("asset"@);
        if asset != quote_asset && zero::<S>().lt(held_in::<S>(rows.last())) {
            before.push((asset, held_in::<S>(rows.last())))
        } else {
            before
        }
    }
}

pub open spec fn balances<S>(assets: Seq<Balance<S>>) -> Seq<(Seq<char>, S)> {
    assets.map_values(|b: Balance<S>| (b.asset@, b.quantity))
}

/// Reads an account reply.
pub fn parse_account<S: Number>(resp: &Json, quote_asset: &str) -> (r: Result<
    AccountSnapshot<S>,
    WireError,
>)
    ensures
        match r {
            Ok(account) => resp.list_at("balances"@) matches Some(rows) && account.free_quote
                == free_quote_in::<S>(rows, quote_asset@) && balances(account.assets@)
                == holdings_in::<S>(rows, quote_asset@),
            Err(error) => resp.list_at("balances"@) is None && error is NoBalances,
        },
{
    let rows = match resp.get_list("balances") {
        Some(rows) => rows,
        None => return Err(WireError::NoBalances),
    };
    let mut free_quote = S::ratio(0, 1);
    let mut assets: Vec<Balance<S>> = Vec::new();
    let mut i: usize = 0;
    assert(balances(assets@) =~= holdings_in::<S>(rows@.take(0), quote_asset@));
    while i < rows.len()
        invariant
            i <= rows@.len(),
            free_quote == free_quote_in::<S>(rows@.take(i as int), quote_asset@),
            balances(assets@) == holdings_in::<S>(rows@.take(i as int), quote_asset@),
        decreases rows@.len() - i,
    {
        proof {
            assert(rows@.take(i + 1).drop_last() =~= rows@.take(i as int));
        }
        let asset = rows[i].get_text_or_empty("asset");
        let free = rows[i].get_number_or_zero::<S>("free");
        let locked = rows[i].get_number_or_zero::<S>("locked");
        let held = free.plus(locked);
        if same_text(asset.as_str(), quote_asset) {
            free_quote = free;
        } else if S::ratio(0, 1).below(held) {
            let ghost before = assets@;
            let balance = Balance { asset, quantity: held };
            assets.push(balance);
            assert(balances(assets@) =~= balances(before).push((balance.asset@, held)));
        }
        i = i + 1;
    }
    assert(rows@.take(i as int) =~= rows@);
    Ok(AccountSnapshot { free_quote, assets })
}

// ---------------------------------------------------------------------------
// Orders
// ---------------------------------------------------------------------------

/// A fill as its parts: price, quantity, commission and the commission's asset.
pub open spec fn fill_parts<S>(fill: Fill<S>) -> (S, S, S, Seq<char>) {
    (fill.price, fill.quantity, fill.commission, fill.commission_asset@)
}

pub open spec fn fill_in<S: Number>(row: Json) -> Option<(S, S, S, Seq<char>)> {
    match (row.number_at::<S>("price"@), row.number_at::<S>("qty"@)) {
        (Some(price), Some(quantity)) => Some(
            (
                price,
                quantity,
                row.number_or_zero::<S>("commission"@),
                row.text_or_empty("commissionAsset"@),
            ),
        ),
        _ => None,
    }
}

/// The fills among the rows, in order. Rows without price or quantity are skipped.
pub open spec fn fills_in<S: Number>(rows: Seq<Json>) -> Seq<(S, S, S, Seq<char>)>
    decreases rows.len(),
{
    if rows.len() == 0 {
        Seq::empty()
    } else {
        match fill_in::<S>(rows.last()) {
            Some(fill) => fills_in::<S>(rows.drop_last()).push(fill),
            None => fills_in::<S>(rows.drop_last()),
        }
    }
}

/// The fills a reply lists, if it lists any.
pub open spec fn fills_of<S: Number>(resp: Json) -> Seq<(S, S, S, Seq<char>)> {
    match resp.list_at("fills"@) {
        Some(rows) => fills_in::<S>(rows),
        None => Seq::empty(),
    }
}

/// The price from the aggregate that the venue reports, zero where it cannot be
/// known.
pub open spec fn aggregate_price<S: Number>(resp: Json) -> S {
    let filled = resp.number_or_zero::<S>("executedQty"@);
    if zero::<S>().lt(filled) {
        resp.number_or_zero::<S>("cummulativeQuoteQty"@).quotient(filled)
    } else {
        zero::<S>()
    }
}

fn parse_fill<S: Number>(row: &Json) -> (r: Option<Fill<S>>)
    ensures
        match r {
            Some(fill) => fill_in::<S>(*row) == Some(fill_parts(fill)),
            None => fill_in::<S>(*row) is None,
        },
{
    match (row.get_number::<S>("price"), row.get_number::<S>("qty")) {
        (Some(price), Some(quantity)) => Some(
            Fill {
                price,
                quantity,
                commission: row.get_number_or_zero::<S>("commission"),
                commission_asset: row.get_text_or_empty("commissionAsset"),
            },
        ),
        _ => None,
    }
}

fn parse_fills<S: Number>(resp: &Json) -> (r: Vec<Fill<S>>)
    ensures
        r@.map_values(|f: Fill<S>| fill_parts(f)) == fills_of::<S>(*resp),
{
    let ghost parts = |f: Fill<S>| fill_parts(f);
    let mut fills: Vec<Fill<S>> = Vec::new();
    let rows = match resp.get_list("fills") {
        Some(rows) => rows,
        None => {
            assert(fills@.map_values(parts) =~= Seq::empty());
            return fills;
        },
    };
    let mut i: usize = 0;
    assert(fills@.map_values(parts) =~= fills_in::<S>(rows@.take(0)));
    while i < rows.len()
        invariant
            i <= rows@.len(),
            parts == (|f: Fill<S>| fill_parts(f)),
            fills@.map_values(parts) == fills_in::<S>(rows@.take(i as int)),
        decreases rows@.len() - i,
    {
        proof {
            assert(rows@.take(i + 1).drop_last() =~= rows@.take(i as int));
        }
        if let Some(fill) = parse_fill::<S>(&rows[i]) {
            let ghost before = fills@;
            fills.push(fill);
            assert(fills@.map_values(parts) =~= before.map_values(parts).push(fill_parts(fill)));
        }
        i = i + 1;
    }
    assert(rows@.take(i as int) =~= rows@);
    fills
}

/// Reads the reply to a market order.
///
/// `requested_quantity` stands in where the venue leaves out what it executed. The
/// average price is that of the fills, else from the aggregate, else zero: callers
/// decide what to substitute rather than being handed a fabricated price.
pub fn parse_order_outcome<S: Number>(
    resp: &Json,
    symbol: &str,
    side: Side,
    requested_quantity: S,
) -> (r: OrderOutcome<S>)
    ensures
        r.symbol@ == symbol@,
        r.side == side,
        r.filled_quantity == match resp.number_at::<S>("executedQty"@) {
            Some(filled) => filled,
            None => requested_quantity,
        },
        r.fills@.map_values(|f: Fill<S>| fill_parts(f)) == fills_of::<S>(*resp),
        r.average_price == match average_of(r.fills@) {
            Some(price) => price,
            None => aggregate_price::<S>(*resp),
        },
{
    let fills = parse_fills::<S>(resp);
    let filled_quantity = match resp.get_number::<S>("executedQty") {
        Some(filled) => filled,
        None => requested_quantity,
    };
    let average_price = match weighted_average_price(fills.as_slice()) {
        Some(price) => price,
        None => {
            let quote_qty = resp.get_number_or_zero::<S>("cummulativeQuoteQty");
            let exec_qty = resp.get_number_or_zero::<S>("executedQty");
            if S::ratio(0, 1).below(exec_qty) {
                quote_qty.over(exec_qty)
            } else {
                S::ratio(0, 1)
            }
        },
    };
    OrderOutcome { symbol: symbol.to_owned(), side, filled_quantity, average_price, fills }
}

/// Reads the reply to an OCO. A position is only protected once the venue hands
/// back an order-list id: anything else leaves the stop unplaced.
pub fn parse_oco<S: Number>(resp: &Json, stop_price: S, take_profit_price: S) -> (r: Result<
    OcoPlacement<S>,
    WireError,
>)
    ensures
        match r {
            Ok(placement) => api_failure(*resp) is None && resp.integer_at("orderListId"@) == Some(
                placement.order_list_id,
            ) && placement.stop_price == stop_price && placement.take_profit_price
                == take_profit_price,
            Err(WireError::Api { code, message }) => api_failure(*resp) == Some((code, message@)),
            Err(error) => error is OcoUnconfirmed && api_failure(*resp) is None && resp.integer_at(
                "orderListId"@,
            ) is None,
        },
{
    match check_api_error(resp) {
        Ok(_) => {},
        Err(error) => return Err(error),
    }
    match resp.get_integer("orderListId") {
        Some(order_list_id) => Ok(OcoPlacement { order_list_id, stop_price, take_profit_price }),
        None => Err(WireError::OcoUnconfirmed),
    }
}

/// Reads the reply to a standalone stop. As with an OCO, only an id that the venue
/// issued counts as protection.
pub fn parse_stop<S: Number>(resp: &Json, stop_price: S) -> (r: Result<StopPlacement<S>, WireError>)
    ensures
        match r {
            Ok(placement) => api_failure(*resp) is None && resp.count_at("orderId"@) == Some(
                placement.order_id,
            ) && placement.stop_price == stop_price,
            Err(WireError::Api { code, message }) => api_failure(*resp) == Some((code, message@)),
            Err(error) => error is StopUnconfirmed && api_failure(*resp) is None && resp.count_at(
                "orderId"@,
            ) is None,
        },
{
    match check_api_error(resp) {
        Ok(_) => {},
        Err(error) => return Err(error),
    }
    match resp.get_count("orderId") {
        Some(order_id) => Ok(StopPlacement { order_id, stop_price }),
        None => Err(WireError::StopUnconfirmed),
    }
}

/// The side that a row names.
pub open spec fn side_in(row: Json) -> Option<Side> {
    match row.text_at("side"@) {
        Some(text) => if text == "BUY"@ {
            Some(Side::Buy)
        } else if text == "SELL"@ {
            Some(Side::Sell)
        } else {
            None
        },
        None => None,
    }
}

/// Whether a row is an order: it names a symbol and a side.
pub open spec fn is_order(row: Json) -> bool {
    row.text_at("symbol"@) is Some && side_in(row) is Some
}

/// Whether `order` is what an order row says.
pub open spec fn reads_as<S: Number>(row: Json, order: OpenOrder<S>) -> bool {
    &&& order.order_id == match row.count_at("orderId"@) {
        Some(id) => id,
        None => 0,
    }
    &&& row.text_at("symbol"@) == Some(order.symbol@)
    &&& side_in(row) == Some(order.side)
    &&& order.kind.wire_name() == row.text_or_empty("type"@)
    &&& order.kind.is_canonical()
    &&& order.price == row.number_or_zero::<S>("price"@)
    &&& order.stop_price == row.number_or_zero::<S>("stopPrice"@)
    &&& order.quantity == row.number_or_zero::<S>("origQty"@)
}

pub fn parse_open_order<S: Number>(row: &Json) -> (r: Option<OpenOrder<S>>)
    ensures
        r is Some <==> is_order(*row),
        r matches Some(order) ==> reads_as(*row, order),
{
    let symbol = match row.get_text("symbol") {
        Some(symbol) => symbol.clone(),
        None => return None,
    };
    let side = match row.get_text("side") {
        Some(text) => match Side::from_wire(text.as_str()) {
            Some(side) => side,
            None => return None,
        },
        None => return None,
    };
    let order_id: u64 = match row.get_count("orderId") {
        Some(id) => id,
        None => 0,
    };
    Some(
        OpenOrder {
            order_id,
            symbol,
            side,
            kind: OrderKind::from_wire(row.get_text_or_empty("type").as_str()),
            price: row.get_number_or_zero::<S>("price"),
            stop_price: row.get_number_or_zero::<S>("stopPrice"),
            quantity: row.get_number_or_zero::<S>("origQty"),
        },
    )
}

/// Whether `orders` are the order rows in order, each read right.
pub open spec fn read_as_orders<S: Number>(rows: Seq<Json>, orders: Seq<OpenOrder<S>>) -> bool
    decreases rows.len(),
{
    if rows.len() == 0 {
        orders.len() == 0
    } else if is_order(rows.last()) {
        &&& orders.len() > 0
        &&& reads_as(rows.last(), orders.last())
        &&& read_as_orders(rows.drop_last(), orders.drop_last())
    } else {
        read_as_orders(rows.drop_last(), orders)
    }
}

/// Reads an open-orders reply. Rows that are no order are skipped.
pub fn parse_open_orders<S: Number>(resp: &Json) -> (r: Result<Vec<OpenOrder<S>>, WireError>)
    ensures
        match r {
            Ok(orders) => api_failure(*resp) is None && (resp.as_list() matches Some(rows)
                && read_as_orders(rows, orders@)),
            Err(WireError::Api { code, message }) => api_failure(*resp) == Some((code, message@)),
            Err(error) => error is OrdersShape && api_failure(*resp) is None && resp.as_list()
                is None,
        },
{
    match check_api_error(resp) {
        Ok(_) => {},
        Err(error) => return Err(error),
    }
    let rows = match resp.list() {
        Some(rows) => rows,
        None => return Err(WireError::OrdersShape),
    };
    let mut orders: Vec<OpenOrder<S>> = Vec::new();
    let mut i: usize = 0;
    while i < rows.len()
        invariant
            i <= rows@.len(),
            read_as_orders(rows@.take(i as int), orders@),
        decreases rows@.len() - i,
    {
        proof {
            assert(rows@.take(i + 1).drop_last() =~= rows@.take(i as int));
        }
        if let Some(order) = parse_open_order::<S>(&rows[i]) {
            let ghost before = orders@;
            orders.push(order);
            assert(orders@.drop_last() =~= before);
        }
        i = i + 1;
    }
    assert(rows@.take(i as int) =~= rows@);
    Ok(orders)
}

// ---------------------------------------------------------------------------
// Filters
// ---------------------------------------------------------------------------

/// The entry for `symbol` in an exchange-info reply.
pub open spec fn entry_for(resp: Json, symbol: Seq<char>) -> Option<Json> {
    match resp.list_at("symbols"@) {
        Some(entries) => item_with(entries, "symbol"@, symbol),
        None => None,
    }
}

/// The filter of a type in a symbol's entry.
pub open spec fn filter_in(entry: Json, kind: Seq<char>) -> Option<Json> {
    match entry.list_at("filters"@) {
        Some(filters) => item_with(filters, "filterType"@, kind),
        None => None,
    }
}

/// The notional filter: older symbols expose `MIN_NOTIONAL`, newer ones
/// `NOTIONAL`.
pub open spec fn notional_filter_in(entry: Json) -> Option<Json> {
    match filter_in(entry, "NOTIONAL"@) {
        Some(filter) => Some(filter),
        None => filter_in(entry, "MIN_NOTIONAL"@),
    }
}

fn find_filter<'a>(entry: &'a Json, kind: &str) -> (r: Option<&'a Json>)
    ensures
        match r {
            Some(filter) => filter_in(*entry, kind@) == Some(*filter),
            None => filter_in(*entry, kind@) is None,
        },
{
    match entry.get_list("filters") {
        Some(filters) => find_item(filters, "filterType", kind),
        None => None,
    }
}

/// Pulls the lot, price and notional rules out of an exchange-info reply.
pub fn parse_symbol_filters<S: Number>(resp: &Json, symbol: &str) -> (r: Result<
    SymbolFilters<S>,
    WireError,
>)
    ensures
        match r {
            Ok(filters) => {
                &&& entry_for(*resp, symbol@) matches Some(entry)
                &&& filter_in(entry, "LOT_SIZE"@) matches Some(lot)
                &&& filter_in(entry, "PRICE_FILTER"@) matches Some(price)
                &&& filters.symbol@ == symbol@
                &&& filters.base_asset@ == entry.text_or_empty("baseAsset"@)
                &&& filters.quote_asset@ == entry.text_or_empty("quoteAsset"@)
                &&& filters.step_size == lot.number_or_zero::<S>("stepSize"@)
                &&& filters.min_qty == lot.number_or_zero::<S>("minQty"@)
                &&& filters.max_qty == lot.number_or_zero::<S>("maxQty"@)
                &&& filters.tick_size == price.number_or_zero::<S>("tickSize"@)
                &&& filters.min_notional == match notional_filter_in(entry) {
                    Some(notional) => notional.number_or_zero::<S>("minNotional"@),
                    None => zero::<S>(),
                }
            },
            Err(WireError::NoSymbol { symbol: named }) => named@ == symbol@ && entry_for(
                *resp,
                symbol@,
            ) is None,
            Err(WireError::NoLotSize { symbol: named }) => named@ == symbol@ && (entry_for(
                *resp,
                symbol@,
            ) matches Some(entry) && filter_in(entry, "LOT_SIZE"@) is None),
            Err(WireError::NoPriceFilter { symbol: named }) => named@ == symbol@ && (entry_for(
                *resp,
                symbol@,
            ) matches Some(entry) && filter_in(entry, "LOT_SIZE"@) is Some && filter_in(
                entry,
                "PRICE_FILTER"@,
            ) is None),
            Err(_) => false,
        },
{
    let entries = match resp.get_list("symbols") {
        Some(entries) => entries,
        None => return Err(WireError::NoSymbol { symbol: symbol.to_owned() }),
    };
    let entry = match find_item(entries, "symbol", symbol) {
        Some(entry) => entry,
        None => return Err(WireError::NoSymbol { symbol: symbol.to_owned() }),
    };
    let lot = match find_filter(entry, "LOT_SIZE") {
        Some(lot) => lot,
        None => return Err(WireError::NoLotSize { symbol: symbol.to_owned() }),
    };
    let price = match find_filter(entry, "PRICE_FILTER") {
        Some(price) => price,
        None => return Err(WireError::NoPriceFilter { symbol: symbol.to_owned() }),
    };
    let notional = match find_filter(entry, "NOTIONAL") {
        Some(filter) => Some(filter),
        None => find_filter(entry, "MIN_NOTIONAL"),
    };
    let min_notional = match notional {
        Some(filter) => filter.get_number_or_zero::<S>("minNotional"),
        None => S::ratio(0, 1),
    };
    Ok(
        SymbolFilters {
            symbol: symbol.to_owned(),
            base_asset: entry.get_text_or_empty("baseAsset"),
            quote_asset: entry.get_text_or_empty("quoteAsset"),
            step_size: lot.get_number_or_zero::<S>("stepSize"),
            min_qty: lot.get_number_or_zero::<S>("minQty"),
            max_qty: lot.get_number_or_zero::<S>("maxQty"),
            tick_size: price.get_number_or_zero::<S>("tickSize"),
            min_notional,
        },
    )
}

/// The filters kept under `symbol`, the newest where several are.
pub open spec fn kept_under<S>(
    entries: Seq<(String, SymbolFilters<S>)>,
    symbol: Seq<char>,
) -> Option<SymbolFilters<S>>
    decreases entries.len(),
{
    if entries.len() == 0 {
        None
    } else if entries.last().0@ == symbol {
        Some(entries.last().1)
    } else {
        kept_under(entries.drop_last(), symbol)
    }
}

/// Trading rules by symbol. They are effectively static, and every order needs them,
/// so they are fetched once per symbol and kept.
#[derive(Debug)]
pub struct FilterCache<S> {
    entries: Vec<(String, SymbolFilters<S>)>,
}

impl<S: Number> FilterCache<S> {
    /// What is kept under `symbol`.
    pub closed spec fn kept(self, symbol: Seq<char>) -> Option<SymbolFilters<S>> {
        kept_under(self.entries@, symbol)
    }

    pub fn new() -> (r: Self)
        ensures
            forall|symbol: Seq<char>| #[trigger] r.kept(symbol) is None,
    {
        FilterCache { entries: Vec::new() }
    }

    pub fn get(&self, symbol: &str) -> (r: Option<&SymbolFilters<S>>)
        ensures
            match r {
                Some(filters) => self.kept(symbol@) == Some(*filters),
                None => self.kept(symbol@) is None,
            },
    {
        let mut n: usize = self.entries.len();
        assert(self.entries@.take(n as int) =~= self.entries@);
        while n > 0
            invariant
                n <= self.entries@.len(),
                kept_under(self.entries@, symbol@) == kept_under(
                    self.entries@.take(n as int),
                    symbol@,
                ),
            decreases n,
        {
            assert(self.entries@.take(n as int).drop_last() =~= self.entries@.take(n - 1));
            let entry = &self.entries[n - 1];
            if same_text(entry.0.as_str(), symbol) {
                return Some(&entry.1);
            }
            n = n - 1;
        }
        None
    }

    /// Keeps filters under `symbol`, and leaves what is kept under others.
    pub fn keep(&mut self, symbol: String, filters: SymbolFilters<S>)
        ensures
            final(self).kept(symbol@) == Some(filters),
            forall|other: Seq<char>|
                other != symbol@ ==> #[trigger] final(self).kept(other) == old(self).kept(other),
    {
        self.entries.push((symbol, filters));
        assert(self.entries@.drop_last() =~= old(self).entries@);
    }
}

// ---------------------------------------------------------------------------
// Requests
// ---------------------------------------------------------------------------

#[derive(Debug, Clone, Copy, PartialEq, Eq, Structural)]
pub enum HttpMethod {
    Get,
    Post,
    Delete,
}

/// A request to send. A signed one carries the API key in its header.
#[derive(Debug, Clone, PartialEq)]
pub struct HttpCall {
    pub method: HttpMethod,
    pub url: String,
    /// A form-encoded body.
    pub body: Option<String>,
    pub signed: bool,
}

/// What a request is made of.
pub struct CallView {
    pub method: HttpMethod,
    pub url: Seq<char>,
    pub body: Option<Seq<char>>,
    pub signed: bool,
}

impl View for HttpCall {
    type V = CallView;

    open spec fn view(&self) -> CallView {
        CallView {
            method: self.method,
            url: self.url@,
            body: match self.body {
                Some(body) => Some(body@),
                None => None,
            },
            signed: self.signed,
        }
    }
}

/// What a client sends with: where to, and on whose behalf.
#[derive(Debug, Clone, PartialEq)]
pub struct BinanceClient {
    pub base_url: String,
    pub api_key: String,
    pub api_secret: String,
}

pub open spec fn open_get(url: Seq<char>) -> CallView {
    CallView { method: HttpMethod::Get, url, body: None, signed: false }
}

/// A query with its signature.
pub open spec fn signed_query(secret: Seq<char>, query: Seq<char>) -> Seq<char> {
    query + "&signature="@ + signature_of(secret, query)
}

pub open spec fn klines_address(
    base_url: Seq<char>,
    symbol: Seq<char>,
    interval: Seq<char>,
    limit: u32,
    end_time: Option<u64>,
) -> Seq<char> {
    let url = base_url + "/api/v3/klines?symbol="@ + symbol + "&interval="@ + interval + "&limit="@
        + decimal(limit as nat);
    match end_time {
        Some(end) => url + "&endTime="@ + decimal(end as nat),
        None => url,
    }
}

pub open spec fn market_order_query<S: Number>(symbol: Seq<char>, side: Side, quantity: S, ts: u64) -> Seq<
    char,
> {
    "symbol="@ + symbol + "&side="@ + side.wire_name() + "&type=MARKET&quantity="@ + decimal_text(
        quantity,
    ) + "&newOrderRespType=FULL&timestamp="@ + decimal(ts as nat)
}

pub open spec fn oco_query<S: Number>(
    symbol: Seq<char>,
    quantity: S,
    take_profit: S,
    stop: S,
    stop_limit: S,
    ts: u64,
) -> Seq<char> {
    "symbol="@ + symbol + "&side=SELL&quantity="@ + decimal_text(quantity)
        + "&aboveType=LIMIT_MAKER&abovePrice="@ + decimal_text(take_profit)
        + "&belowType=STOP_LOSS_LIMIT&belowPrice="@ + decimal_text(stop_limit)
        + "&belowStopPrice="@ + decimal_text(stop) + "&belowTimeInForce=GTC&timestamp="@ + decimal(
        ts as nat,
    )
}

pub open spec fn stop_query<S: Number>(
    symbol: Seq<char>,
    quantity: S,
    stop: S,
    stop_limit: S,
    ts: u64,
) -> Seq<char> {
    "symbol="@ + symbol + "&side=SELL&type=STOP_LOSS_LIMIT&quantity="@ + decimal_text(quantity)
        + "&price="@ + decimal_text(stop_limit) + "&stopPrice="@ + decimal_text(stop)
        + "&timeInForce=GTC&timestamp="@ + decimal(ts as nat)
}

pub open spec fn symbol_query(symbol: Seq<char>, ts: u64) -> Seq<char> {
    "symbol="@ + symbol + "&timestamp="@ + decimal(ts as nat)
}

/// The address of a page of klines.
pub fn klines_url(
    base_url: &str,
    symbol: &str,
    interval: &str,
    limit: u32,
    end_time: Option<u64>,
) -> (r: String)
    ensures
        r@ == klines_address(base_url@, symbol@, interval@, limit, end_time),
{
    let mut url = base_url.to_owned();
    url.append("/api/v3/klines?symbol=");
    url.append(symbol);
    url.append("&interval=");
    url.append(interval);
    url.append("&limit=");
    url.append(text_of_count(limit as u64).as_str());
    if let Some(end) = end_time {
        url.append("&endTime=");
        url.append(text_of_count(end).as_str());
    }
    url
}

fn open_call(url: String) -> (r: HttpCall)
    ensures
        r@ == open_get(url@),
{
    HttpCall { method: HttpMethod::Get, url, body: None, signed: false }
}

impl BinanceClient {
    pub fn new<S: Number>(config: &Config<S>) -> (r: Self)
        ensures
            r.base_url == config.base_url,
            r.api_key == config.api_key,
            r.api_secret == config.api_secret,
    {
        BinanceClient {
            base_url: config.base_url.clone(),
            api_key: config.api_key.clone(),
            api_secret: config.api_secret.clone(),
        }
    }

    /// The time that requests are stamped with, in epoch milliseconds. Which time
    /// that is, the system's clock decides.
    pub fn timestamp_ms(&self) -> (r: u64) {
        now_ms()
    }

    /// The signature of a query: 64 hexadecimal digits that depend on the secret
    /// and the query alone.
    pub fn sign(&self, query: &str) -> (r: String)
        ensures
            r@ == signature_of(self.api_secret@, query@),
            r@.len() == 64,
            forall|i: int| 0 <= i < 64 ==> is_hex_digit(#[trigger] r@[i]),
    {
        sign(self.api_secret.as_str(), query)
    }

    pub open spec fn signed_get_view(self, path: Seq<char>, query: Seq<char>) -> CallView {
        CallView {
            method: HttpMethod::Get,
            url: self.base_url@ + path + "?"@ + signed_query(self.api_secret@, query),
            body: None,
            signed: true,
        }
    }

    pub open spec fn signed_form_view(
        self,
        method: HttpMethod,
        path: Seq<char>,
        query: Seq<char>,
    ) -> CallView {
        CallView {
            method,
            url: self.base_url@ + path,
            body: Some(signed_query(self.api_secret@, query)),
            signed: true,
        }
    }

    fn with_signature(&self, query: &str) -> (r: String)
        ensures
            r@ == signed_query(self.api_secret@, query@),
    {
        let mut text = query.to_owned();
        text.append("&signature=");
        text.append(self.sign(query).as_str());
        text
    }

    /// A signed read.
    pub fn signed_get(&self, path: &str, query: &str) -> (r: HttpCall)
        ensures
            r@ == self.signed_get_view(path@, query@),
    {
        let mut url = self.base_url.clone();
        url.append(path);
        url.append("?");
        url.append(self.with_signature(query).as_str());
        HttpCall { method: HttpMethod::Get, url, body: None, signed: true }
    }

    /// A signed form.
    pub fn signed_form(&self, method: HttpMethod, path: &str, query: &str) -> (r: HttpCall)
        ensures
            r@ == self.signed_form_view(method, path@, query@),
    {
        let mut url = self.base_url.clone();
        url.append(path);
        HttpCall { method, url, body: Some(self.with_signature(query)), signed: true }
    }

    pub fn klines(&self, symbol: &str, interval: Interval, limit: u32) -> (r: HttpCall)
        ensures
            r@ == open_get(
                klines_address(self.base_url@, symbol@, interval.wire_name(), limit, None),
            ),
    {
        open_call(klines_url(self.base_url.as_str(), symbol, interval.as_str(), limit, None))
    }

    pub fn price(&self, symbol: &str) -> (r: HttpCall)
        ensures
            r@ == open_get(self.base_url@ + "/api/v3/ticker/price?symbol="@ + symbol@),
    {
        let mut url = self.base_url.clone();
        url.append("/api/v3/ticker/price?symbol=");
        url.append(symbol);
        open_call(url)
    }

    pub fn filters(&self, symbol: &str) -> (r: HttpCall)
        ensures
            r@ == open_get(self.base_url@ + "/api/v3/exchangeInfo?symbol="@ + symbol@),
    {
        let mut url = self.base_url.clone();
        url.append("/api/v3/exchangeInfo?symbol=");
        url.append(symbol);
        open_call(url)
    }

    pub fn account(&self, ts: u64) -> (r: HttpCall)
        ensures
            r@ == self.signed_get_view("/api/v3/account"@, "timestamp="@ + decimal(ts as nat)),
    {
        let query = "timestamp=".to_owned().concat(text_of_count(ts).as_str());
        self.signed_get("/api/v3/account", query.as_str())
    }

    pub fn market_order<S: Number>(&self, symbol: &str, side: Side, quantity: S, ts: u64) -> (r:
        HttpCall)
        ensures
            r@ == self.signed_form_view(
                HttpMethod::Post,
                "/api/v3/order"@,
                market_order_query(symbol@, side, quantity, ts),
            ),
    {
        let mut query = "symbol=".to_owned();
        query.append(symbol);
        query.append("&side=");
        query.append(side.as_str());
        query.append("&type=MARKET&quantity=");
        query.append(format_quantity(quantity).as_str());
        query.append("&newOrderRespType=FULL&timestamp=");
        query.append(text_of_count(ts).as_str());
        self.signed_form(HttpMethod::Post, "/api/v3/order", query.as_str())
    }

    pub fn place_oco_sell<S: Number>(
        &self,
        symbol: &str,
        quantity: S,
        take_profit_price: S,
        stop_price: S,
        stop_limit_price: S,
        ts: u64,
    ) -> (r: HttpCall)
        ensures
            r@ == self.signed_form_view(
                HttpMethod::Post,
                "/api/v3/orderList/oco"@,
                oco_query(
                    symbol@,
                    quantity,
                    take_profit_price,
                    stop_price,
                    stop_limit_price,
                    ts,
                ),
            ),
    {
        let mut query = "symbol=".to_owned();
        query.append(symbol);
        query.append("&side=SELL&quantity=");
        query.append(format_quantity(quantity).as_str());
        query.append("&aboveType=LIMIT_MAKER&abovePrice=");
        query.append(format_price(take_profit_price).as_str());
        query.append("&belowType=STOP_LOSS_LIMIT&belowPrice=");
        query.append(format_price(stop_limit_price).as_str());
        query.append("&belowStopPrice=");
        query.append(format_price(stop_price).as_str());
        query.append("&belowTimeInForce=GTC&timestamp=");
        query.append(text_of_count(ts).as_str());
        self.signed_form(HttpMethod::Post, "/api/v3/orderList/oco", query.as_str())
    }

    pub fn place_stop_loss<S: Number>(
        &self,
        symbol: &str,
        quantity: S,
        stop_price: S,
        stop_limit_price: S,
        ts: u64,
    ) -> (r: HttpCall)
        ensures
            r@ == self.signed_form_view(
                HttpMethod::Post,
                "/api/v3/order"@,
                stop_query(symbol@, quantity, stop_price, stop_limit_price, ts),
            ),
    {
        let mut query = "symbol=".to_owned();
        query.append(symbol);
        query.append("&side=SELL&type=STOP_LOSS_LIMIT&quantity=");
        query.append(format_quantity(quantity).as_str());
        query.append("&price=");
        query.append(format_price(stop_limit_price).as_str());
        query.append("&stopPrice=");
        query.append(format_price(stop_price).as_str());
        query.append("&timeInForce=GTC&timestamp=");
        query.append(text_of_count(ts).as_str());
        self.signed_form(HttpMethod::Post, "/api/v3/order", query.as_str())
    }

    fn about_symbol(symbol: &str, ts: u64) -> (r: String)
        ensures
            r@ == symbol_query(symbol@, ts),
    {
        let mut query = "symbol=".to_owned();
        query.append(symbol);
        query.append("&timestamp=");
        query.append(text_of_count(ts).as_str());
        query
    }

    pub fn cancel_open_orders(&self, symbol: &str, ts: u64) -> (r: HttpCall)
        ensures
            r@ == self.signed_form_view(
                HttpMethod::Delete,
                "/api/v3/openOrders"@,
                symbol_query(symbol@, ts),
            ),
    {
        let query = Self::about_symbol(symbol, ts);
        self.signed_form(HttpMethod::Delete, "/api/v3/openOrders", query.as_str())
    }

    pub fn open_orders(&self, symbol: &str, ts: u64) -> (r: HttpCall)
        ensures
            r@ == self.signed_get_view("/api/v3/openOrders"@, symbol_query(symbol@, ts)),
    {
        let query = Self::about_symbol(symbol, ts);
        self.signed_get("/api/v3/openOrders", query.as_str())
    }
}

// ---------------------------------------------------------------------------
// Extended history
// ---------------------------------------------------------------------------

/// A page of klines to fetch.
#[derive(Debug, Clone, Copy, PartialEq, Eq, Structural)]
pub struct Page {
    pub limit: u32,
    /// The latest time the page may reach to.
    pub end_time: Option<u64>,
}

/// Walks backwards from the present, one page at a time, until enough candles are
/// collected or the venue stops returning data.
#[derive(Debug)]
pub struct HistoryRun<S> {
    pub total: usize,
    pub candles: Vec<Candle<S>>,
    pub end_time: Option<u64>,
    /// The venue has no more.
    pub exhausted: bool,
}

impl<S: Number> HistoryRun<S> {
    pub fn begin(total: usize) -> (r: Self)
        ensures
            r.total == total,
            r.candles@.len() == 0,
            r.end_time is None,
            !r.exhausted,
    {
        HistoryRun { total, candles: Vec::new(), end_time: None, exhausted: false }
    }

    /// The next page to fetch, if any is still wanted.
    pub open spec fn wanted(self) -> Option<Page> {
        if self.exhausted || self.candles@.len() >= self.total {
            None
        } else {
            let missing = self.total - self.candles@.len();
            Some(
                Page {
                    limit: if missing < MAX_KLINES_PER_REQUEST {
                        missing as u32
                    } else {
                        MAX_KLINES_PER_REQUEST as u32
                    },
                    end_time: self.end_time,
                },
            )
        }
    }

    pub fn next_page(&self) -> (r: Option<Page>)
        ensures
            r == self.wanted(),
    {
        if self.exhausted || self.candles.len() >= self.total {
            return None;
        }
        let missing: usize = self.total - self.candles.len();
        let limit: u32 = if missing < MAX_KLINES_PER_REQUEST {
            missing as u32
        } else {
            MAX_KLINES_PER_REQUEST as u32
        };
        Some(Page { limit, end_time: self.end_time })
    }

    /// The candles, the latest time to ask for and whether the venue has no more, once a
    /// page was taken.
    pub open spec fn taken(self, page: Seq<Candle<S>>) -> (Seq<Candle<S>>, Option<u64>, bool) {
        (
            page + self.candles@,
            if page.len() == 0 {
                self.end_time
            } else if page[0].open_time == 0 {
                Some(0)
            } else {
                Some((page[0].open_time - 1) as u64)
            },
            self.exhausted || page.len() == 0,
        )
    }

    /// Takes the page that was wanted: it goes in front of what was collected, and
    /// the next one ends just before its earliest candle. An empty page ends the
    /// walk.
    pub fn take(&mut self, page: Vec<Candle<S>>)
        ensures
            final(self).total == old(self).total,
            final(self).candles@ == page@ + old(self).candles@,
            page@.len() == 0 ==> final(self).exhausted && final(self).end_time == old(
                self,
            ).end_time,
            page@.len() > 0 ==> final(self).exhausted == old(self).exhausted && final(self).end_time
                == Some(
                if page@[0].open_time == 0 {
                    0
                } else {
                    (page@[0].open_time - 1) as u64
                },
            ),
            (final(self).candles@, final(self).end_time, final(self).exhausted) == old(self).taken(
                page@,
            ),
    {
        if page.len() == 0 {
            self.exhausted = true;
            assert(self.candles@ =~= page@ + old(self).candles@);
            return;
        }
        let earliest: u64 = page[0].open_time;
        self.end_time = Some(
            if earliest == 0 {
                0
            } else {
                earliest - 1
            },
        );
        let mut combined = page;
        combined.append(&mut self.candles);
        self.candles = combined;
    }
}

/// As long as no page is longer than was asked for, no more candles are collected
/// than were wanted in total, and an unfinished walk always asks for at least one.
pub proof fn law_history_stays_within_its_total<S: Number>(run: HistoryRun<S>, page_len: nat)
    requires
        run.candles@.len() <= run.total,
        run.wanted() matches Some(page) ==> page_len <= page.limit,
    ensures
        run.wanted() matches Some(page) ==> {
            &&& 1 <= page.limit <= MAX_KLINES_PER_REQUEST
            &&& page_len + run.candles@.len() <= run.total
        },
{
}

/// As long as each page stands in order and reaches no later than was asked for, the
/// whole history stands in order, the oldest candle first.
pub proof fn law_history_is_in_order<S: Number>(run: HistoryRun<S>, page: Seq<Candle<S>>)
    requires
        in_order(run.candles@),
        run.candles@.len() > 0 ==> run.candles@[0].open_time > 0 && run.end_time == Some(
            (run.candles@[0].open_time - 1) as u64,
        ),
        in_order(page),
        run.end_time matches Some(end) ==> forall|i: int|
            0 <= i < page.len() ==> (#[trigger] page[i]).open_time <= end,
    ensures
        in_order(page + run.candles@),
{
    let n = page.len();
    let all = page + run.candles@;
    assert forall|i: int, k: int| 0 <= i < k < all.len() implies (#[trigger] all[i]).open_time < (
    #[trigger] all[k]).open_time by {
        if k < n {
            assert(page[i].open_time < page[k].open_time);
        } else if i < n {
            assert(page[i].open_time < run.candles@[0].open_time);
            if k > n {
                assert(run.candles@[0].open_time < run.candles@[k - n].open_time);
            }
        } else {
            assert(run.candles@[i - n].open_time < run.candles@[k - n].open_time);
        }
    }
}

/// A kline row holds its candle by place: the open time, the open, the high, the low, the
/// close, the volume and the close time. A row that is shorter, or where one of them cannot
/// be read, is none.
pub proof fn law_a_row_holds_its_candle_by_place<S: Number>(row: Json)
    ensures
        candle_of::<S>(row) matches Some(candle) ==> (row.as_list() matches Some(k) && {
            &&& k.len() >= 7
            &&& k[0].as_count() == Some(candle.open_time)
            &&& k[1].as_number::<S>() == Some(candle.open)
            &&& k[2].as_number::<S>() == Some(candle.high)
            &&& k[3].as_number::<S>() == Some(candle.low)
            &&& k[4].as_number::<S>() == Some(candle.close)
            &&& k[5].as_number::<S>() == Some(candle.volume)
            &&& k[6].as_count() == Some(candle.close_time)
        }),
        candle_of::<S>(row) is None ==> (row.as_list() matches Some(k) ==> k.len() < 7
            || k[0].as_count() is None || k[6].as_count() is None || exists|i: int|
            1 <= i <= 5 && (#[trigger] k[i]).as_number::<S>() is None),
{
    if let Some(k) = row.as_list() {
        if k.len() >= 7 && candle_of::<S>(row) is None && k[0].as_count() is Some
            && k[6].as_count() is Some {
            assert(k[1].as_number::<S>() is None || k[2].as_number::<S>() is None
                || k[3].as_number::<S>() is None || k[4].as_number::<S>() is None
                || k[5].as_number::<S>() is None);
        }
    }
}

/// One more row adds its candle or its fill behind those before it, where it
/// has one.
pub proof fn law_rows_are_read_in_order<S: Number>(rows: Seq<Json>, row: Json)
    ensures
        candles_of::<S>(Seq::<Json>::empty()).len() == 0,
        candle_of::<S>(row) is None ==> candles_of::<S>(rows.push(row)) == candles_of::<S>(rows),
        candle_of::<S>(row) matches Some(candle) ==> candles_of::<S>(rows.push(row))
            == candles_of::<S>(rows).push(candle),
        fills_in::<S>(Seq::<Json>::empty()).len() == 0,
        fill_in::<S>(row) is None ==> fills_in::<S>(rows.push(row)) == fills_in::<S>(rows),
        fill_in::<S>(row) matches Some(fill) ==> fills_in::<S>(rows.push(row)) == fills_in::<S>(
            rows,
        ).push(fill),
{
    assert(rows.push(row).drop_last() =~= rows);
}

/// What an account holds. The free amount of the quote asset is what can be spent. Of any
/// other asset what is free and what is locked count together, and only where that is
/// above zero.
pub proof fn law_an_account_is_read_row_by_row<S: Number>(
    rows: Seq<Json>,
    row: Json,
    quote_asset: Seq<char>,
)
    ensures
        free_quote_in::<S>(Seq::<Json>::empty(), quote_asset) == S::of_ratio(0, 1),
        holdings_in::<S>(Seq::<Json>::empty(), quote_asset).len() == 0,
        ({
            let asset = row.text_or_empty("asset"@);
            let free = row.number_or_zero::<S>("free"@);
            let held = free.sum(row.number_or_zero::<S>("locked"@));
            let longer = rows.push(row);
            &&& asset == quote_asset ==> free_quote_in::<S>(longer, quote_asset) == free
                && holdings_in::<S>(longer, quote_asset) == holdings_in::<S>(rows, quote_asset)
            &&& asset != quote_asset ==> free_quote_in::<S>(longer, quote_asset)
                == free_quote_in::<S>(rows, quote_asset)
            &&& asset != quote_asset && S::of_ratio(0, 1).lt(held) ==> holdings_in::<S>(
                longer,
                quote_asset,
            ) == holdings_in::<S>(rows, quote_asset).push((asset, held))
            &&& !S::of_ratio(0, 1).lt(held) ==> holdings_in::<S>(longer, quote_asset)
                == holdings_in::<S>(rows, quote_asset)
        }),
{
    assert(rows.push(row).drop_last() =~= rows);
}

/// A fill has a price and a quantity, and a commission in some asset where the row says so.
/// Without fills the price of an order is what was paid in all over what was filled.
pub proof fn law_fills_and_the_aggregate<S: Number>(row: Json, resp: Json)
    ensures
        fill_in::<S>(row) is Some <==> row.number_at::<S>("price"@) is Some && row.number_at::<S>(
            "qty"@,
        ) is Some,
        fill_in::<S>(row) matches Some(fill) ==> {
            &&& row.number_at::<S>("price"@) == Some(fill.0)
            &&& row.number_at::<S>("qty"@) == Some(fill.1)
            &&& fill.2 == row.number_or_zero::<S>("commission"@)
            &&& fill.3 == row.text_or_empty("commissionAsset"@)
        },
        resp.list_at("fills"@) is None ==> fills_of::<S>(resp).len() == 0,
        resp.list_at("fills"@) matches Some(rows) ==> fills_of::<S>(resp) == fills_in::<S>(rows),
        ({
            let filled = resp.number_or_zero::<S>("executedQty"@);
            let paid = resp.number_or_zero::<S>("cummulativeQuoteQty"@);
            &&& S::of_ratio(0, 1).lt(filled) ==> aggregate_price::<S>(resp) == paid.quotient(
                filled,
            )
            &&& !S::of_ratio(0, 1).lt(filled) ==> aggregate_price::<S>(resp) == S::of_ratio(0, 1)
        }),
{
}

/// A reply reports a failure where it holds a code that is not zero, and says what it was
/// where it says so.
pub proof fn law_failures_have_a_code(resp: Json)
    ensures
        api_failure(resp) is Some <==> (resp.integer_at("code"@) matches Some(code) && code != 0),
        api_failure(resp) matches Some(failure) ==> {
            &&& resp.integer_at("code"@) == Some(failure.0)
            &&& resp.text_at("msg"@) matches Some(message) ==> failure.1 == message
            &&& resp.text_at("msg"@) is None ==> failure.1 == "unknown error"@
        },
{
}

/// What an order row says: its id, its symbol, its side, its kind, its price, its trigger
/// and its quantity, each under its own name.
pub proof fn law_an_order_row_is_read_by_name<S: Number>(row: Json, order: OpenOrder<S>)
    requires
        reads_as(row, order),
    ensures
        row.text_at("symbol"@) == Some(order.symbol@),
        order.side == Side::Buy <==> row.text_at("side"@) == Some("BUY"@),
        order.side == Side::Sell <==> row.text_at("side"@) == Some("SELL"@),
        order.kind.wire_name() == row.text_or_empty("type"@),
        order.price == row.number_or_zero::<S>("price"@),
        order.stop_price == row.number_or_zero::<S>("stopPrice"@),
        order.quantity == row.number_or_zero::<S>("origQty"@),
        row.count_at("orderId"@) matches Some(id) ==> order.order_id == id,
        row.count_at("orderId"@) is None ==> order.order_id == 0,
{
    reveal_strlit("BUY");
    reveal_strlit("SELL");
    assert("BUY"@.len() == 3 && "SELL"@.len() == 4);
}

/// Which rows are orders: those that name a symbol and a side that the venue knows. They
/// are read in their order.
pub proof fn law_orders_are_read_in_order<S: Number>(
    rows: Seq<Json>,
    row: Json,
    orders: Seq<OpenOrder<S>>,
)
    requires
        read_as_orders(rows.push(row), orders),
    ensures
        is_order(row) <==> row.text_at("symbol"@) is Some && (row.text_at("side"@) == Some("BUY"@)
            || row.text_at("side"@) == Some("SELL"@)),
        is_order(row) ==> orders.len() > 0 && reads_as(row, orders.last()) && read_as_orders(
            rows,
            orders.drop_last(),
        ),
        !is_order(row) ==> read_as_orders(rows, orders),
        rows.len() == 0 && !is_order(row) ==> orders.len() == 0,
{
    reveal_with_fuel(read_as_orders, 2);
    assert(rows.push(row).drop_last() =~= rows);
}

/// Where trading rules are found: under the symbol among the symbols, and there under the
/// type of the filter. The notional rule goes by its newer name first.
pub proof fn law_filters_are_found_by_name(resp: Json, entry: Json, symbol: Seq<char>, kind: Seq<char>)
    ensures
        resp.list_at("symbols"@) is None ==> entry_for(resp, symbol) is None,
        resp.list_at("symbols"@) matches Some(all) ==> entry_for(resp, symbol) == item_with(
            all,
            "symbol"@,
            symbol,
        ),
        entry.list_at("filters"@) is None ==> filter_in(entry, kind) is None,
        entry.list_at("filters"@) matches Some(all) ==> filter_in(entry, kind) == item_with(
            all,
            "filterType"@,
            kind,
        ),
        filter_in(entry, "NOTIONAL"@) is Some ==> notional_filter_in(entry) == filter_in(
            entry,
            "NOTIONAL"@,
        ),
        filter_in(entry, "NOTIONAL"@) is None ==> notional_filter_in(entry) == filter_in(
            entry,
            "MIN_NOTIONAL"@,
        ),
{
}

/// What is kept under a symbol is what was kept there last.
pub proof fn law_the_newest_filters_are_kept<S>(
    entries: Seq<(String, SymbolFilters<S>)>,
    entry: (String, SymbolFilters<S>),
    symbol: Seq<char>,
)
    ensures
        entry.0@ == symbol ==> kept_under(entries.push(entry), symbol) == Some(entry.1),
        entry.0@ != symbol ==> kept_under(entries.push(entry), symbol) == kept_under(
            entries,
            symbol,
        ),
        kept_under(Seq::<(String, SymbolFilters<S>)>::empty(), symbol) is None,
{
    assert(entries.push(entry).drop_last() =~= entries);
}

/// The queries that orders are sent with. A market order names its side and asks for its
/// fills. The target of a bracket is its upper price and the stop its lower trigger, with
/// the limit below that; a stop alone has the same trigger and limit under other names.
pub proof fn law_queries_name_what_they_ask<S: Number>(
    symbol: Seq<char>,
    side: Side,
    quantity: S,
    target: S,
    stop: S,
    limit: S,
    ts: u64,
)
    ensures
        market_order_query(symbol, side, quantity, ts) == "symbol="@ + symbol + "&side="@
            + side.wire_name() + "&type=MARKET&quantity="@ + decimal_text(quantity)
            + "&newOrderRespType=FULL&timestamp="@ + decimal(ts as nat),
        oco_query(symbol, quantity, target, stop, limit, ts) == "symbol="@ + symbol
            + "&side=SELL&quantity="@ + decimal_text(quantity)
            + "&aboveType=LIMIT_MAKER&abovePrice="@ + decimal_text(target)
            + "&belowType=STOP_LOSS_LIMIT&belowPrice="@ + decimal_text(limit)
            + "&belowStopPrice="@ + decimal_text(stop) + "&belowTimeInForce=GTC&timestamp="@
            + decimal(ts as nat),
        stop_query(symbol, quantity, stop, limit, ts) == "symbol="@ + symbol
            + "&side=SELL&type=STOP_LOSS_LIMIT&quantity="@ + decimal_text(quantity) + "&price="@
            + decimal_text(limit) + "&stopPrice="@ + decimal_text(stop)
            + "&timeInForce=GTC&timestamp="@ + decimal(ts as nat),
        symbol_query(symbol, ts) == "symbol="@ + symbol + "&timestamp="@ + decimal(ts as nat),
{
}

/// How a request is signed: the signature under the secret stands at the end of the very
/// query that it signs, in the address of a read and in the body of a form. An open read
/// has none, and no body.
pub proof fn law_requests_are_signed_whole(
    client: BinanceClient,
    method: HttpMethod,
    path: Seq<char>,
    query: Seq<char>,
)
    ensures
        ({
            let signed = query + "&signature="@ + signature_of(client.api_secret@, query);
            let read = client.signed_get_view(path, query);
            let form = client.signed_form_view(method, path, query);
            &&& read.method is Get
            &&& read.url == client.base_url@ + path + "?"@ + signed
            &&& read.body is None
            &&& read.signed
            &&& form.method == method
            &&& form.url == client.base_url@ + path
            &&& form.body == Some(signed)
            &&& form.signed
            &&& open_get(path).method is Get
            &&& open_get(path).url == path
            &&& open_get(path).body is None
            &&& !open_get(path).signed
        }),
{
}

/// The address of a page of klines: the symbol, the interval and the limit, and the latest
/// time where there is one.
pub proof fn law_the_address_of_a_page(
    base_url: Seq<char>,
    symbol: Seq<char>,
    interval: Seq<char>,
    limit: u32,
    end: u64,
)
    ensures
        klines_address(base_url, symbol, interval, limit, None) == base_url
            + "/api/v3/klines?symbol="@ + symbol + "&interval="@ + interval + "&limit="@ + decimal(
            limit as nat,
        ),
        klines_address(base_url, symbol, interval, limit, Some(end)) == klines_address(
            base_url,
            symbol,
            interval,
            limit,
            None,
        ) + "&endTime="@ + decimal(end as nat),
{
}

/// Which page is wanted next: as many candles as are missing, up to a thousand, that end
/// where the collected ones begin. None once there are enough, or the venue has no more.
pub proof fn law_the_next_page<S: Number>(run: HistoryRun<S>)
    ensures
        run.wanted() is None <==> run.exhausted || run.candles@.len() >= run.total,
        run.wanted() matches Some(page) ==> {
            &&& page.end_time == run.end_time
            &&& page.limit <= 1000
            &&& page.limit <= run.total - run.candles@.len()
            &&& page.limit == 1000 || page.limit == run.total - run.candles@.len()
        },
{
}

/// What each error says.
pub proof fn law_wire_errors_in_words(code: i64, message: String, symbol: String, body: Seq<char>)
    ensures
        (WireError::Api { code, message }).message(body) == "Binance API error "@ + signed_decimal(
            code as int,
        ) + ": "@ + message@,
        WireError::KlinesFailed.message(body) == "klines request failed: "@ + body,
        WireError::NoBalances.message(body) == "No balances array in response: "@ + body,
        (WireError::NoPrice { symbol }).message(body) == "Failed to parse price for "@ + symbol@
            + ": "@ + body,
        WireError::OcoUnconfirmed.message(body) == "OCO not confirmed by exchange: "@ + body,
        WireError::StopUnconfirmed.message(body) == "stop not confirmed by exchange: "@ + body,
        WireError::OrdersShape.message(body) == "openOrders returned unexpected shape: "@ + body,
        (WireError::NoSymbol { symbol }).message(body) == "exchangeInfo has no entry for "@
            + symbol@,
        (WireError::NoLotSize { symbol }).message(body) == symbol@
            + ": exchangeInfo has no LOT_SIZE filter"@,
        (WireError::NoPriceFilter { symbol }).message(body) == symbol@
            + ": exchangeInfo has no PRICE_FILTER"@,
{
}

/// A page goes in front of what was collected, and the next one ends just before its
/// earliest candle: pages that stand in order, each no later than was asked for, make a
/// history in order with its oldest candle first. An empty page ends the walk.
pub proof fn law_pages_are_put_in_front<S: Number>(run: HistoryRun<S>, page: Seq<Candle<S>>)
    ensures
        ({
            let (candles, end_time, exhausted) = run.taken(page);
            let n = page.len();
            &&& candles.len() == n + run.candles@.len()
            &&& forall|i: int| 0 <= i < n ==> #[trigger] candles[i] == page[i]
            &&& forall|i: int|
                n <= i < candles.len() ==> #[trigger] candles[i] == run.candles@[i - n]
            &&& exhausted <==> run.exhausted || n == 0
            &&& n == 0 ==> end_time == run.end_time
            &&& n > 0 && page[0].open_time > 0 ==> (end_time matches Some(end) && end + 1
                == page[0].open_time)
            &&& n > 0 && page[0].open_time == 0 ==> end_time == Some(0u64)
            &&& in_order(run.candles@) && in_order(page) && (run.candles@.len() > 0
                ==> run.candles@[0].open_time > 0 && run.end_time == Some(
                (run.candles@[0].open_time - 1) as u64,
            )) && (run.end_time matches Some(end) ==> forall|i: int|
                0 <= i < page.len() ==> (#[trigger] page[i]).open_time <= end) ==> in_order(candles)
        }),
{
    if in_order(run.candles@) && in_order(page) && (run.candles@.len() > 0
        ==> run.candles@[0].open_time > 0 && run.end_time == Some(
        (run.candles@[0].open_time - 1) as u64,
    )) && (run.end_time matches Some(end) ==> forall|i: int|
        0 <= i < page.len() ==> (#[trigger] page[i]).open_time <= end) {
        law_history_is_in_order(run, page);
    }
}

} // verus!
