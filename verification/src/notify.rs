//! What the operator is told, in words.

use vstd::prelude::*;
use crate::config::Environment;
use crate::number::{zero, Number};
use crate::risk::Position;
use crate::strategy::{EntryConditions, IndicatorSnapshot};
use crate::text::{decimal, join, joined, text_of_count, texts};
use crate::venue::Notice;

verus! {

/// Telegram notifier. Where the bot token or the chat is not set, nothing is ever
/// sent: the bot runs fine without notifications.
#[derive(Debug, Clone, PartialEq)]
pub struct Notifier {
    pub token: Option<String>,
    pub chat_id: Option<String>,
    pub quote_asset: String,
}

/// A message on its way out.
#[derive(Debug, PartialEq)]
pub struct Outgoing {
    pub url: String,
    pub chat_id: String,
    pub text: String,
}

pub open spec fn text_or_none(text: Option<String>) -> Option<Seq<char>> {
    match text {
        Some(value) => Some(value@),
        None => None,
    }
}

fn cloned_value(value: Option<&String>) -> (r: Option<String>)
    ensures
        match value {
            Some(v) => r == Some(*v),
            None => r is None,
        },
{
    match value {
        Some(v) => Some(v.clone()),
        None => None,
    }
}

pub open spec fn buy_message<S: Number>(
    symbol: Seq<char>,
    price: S,
    qty: S,
    stop_loss: S,
    take_profit: S,
    confidence: Seq<char>,
    reasoning: Seq<char>,
) -> Seq<char> {
    "\u{1f7e2} *BUY "@ + symbol + "*\nPrice: `"@ + price.fixed(2) + "`\nQty: `"@ + qty.fixed(6)
        + "`\nSL: `"@ + stop_loss.fixed(2) + "` | TP: `"@ + take_profit.fixed(2)
        + "`\nConfidence: *"@ + confidence + "*\n_"@ + reasoning + "_"@
}

pub open spec fn sell_message<S: Number>(
    symbol: Seq<char>,
    price: S,
    pnl: S,
    pnl_pct: S,
    quote_asset: Seq<char>,
) -> Seq<char> {
    (if zero::<S>().le(pnl) {
        "\u{1f7e2}"@
    } else {
        "\u{1f534}"@
    }) + " *SELL "@ + symbol + "*\nPrice: `"@ + price.fixed(2) + "`\nPnL: `"@ + pnl.fixed_signed(2)
        + "` "@ + quote_asset + " (`"@ + pnl_pct.fixed_signed(2) + "%`)"@
}

pub open spec fn halt_message<S: Number>(
    drawdown_pct: S,
    equity: S,
    quote_asset: Seq<char>,
) -> Seq<char> {
    "\u{1f6d1} *HALT — Daily Drawdown Limit*\nDrawdown: `"@ + drawdown_pct.fixed(2)
        + "%`\nEquity: `"@ + equity.fixed(2) + "` "@ + quote_asset
        + "\n_No new trades until next UTC midnight._"@
}

/// The outcome of a reconciliation, one line per count that is not zero.
pub open spec fn reconcile_message(restored: u32, emergency: u32, failed: u32) -> Seq<char> {
    "\u{1f504} *Startup Reconciliation*\n"@ + (if restored > 0 {
        "Restored: "@ + decimal(restored as nat) + " position(s)\n"@
    } else {
        Seq::empty()
    }) + (if emergency > 0 {
        "Emergency OCO: "@ + decimal(emergency as nat) + " order(s) placed\n"@
    } else {
        Seq::empty()
    }) + (if failed > 0 {
        "\u{26a0}\u{fe0f} *Failed: "@ + decimal(failed as nat) + "* — check exchange manually!"@
    } else {
        Seq::empty()
    })
}

pub open spec fn error_message(context: Seq<char>, error: Seq<char>) -> Seq<char> {
    "\u{26a0}\u{fe0f} *Error: "@ + context + "*\n`"@ + error + "`"@
}

pub open spec fn startup_message<S: Number>(
    equity: S,
    free: S,
    pairs: Seq<Seq<char>>,
    risk_per_trade: S,
    poll_interval_secs: u64,
    quote_asset: Seq<char>,
) -> Seq<char> {
    "\u{1f680} *Tempest Started*\nEquity: `"@ + equity.fixed(2) + "` "@ + quote_asset + " (`"@
        + free.fixed(2) + "` free)\nPairs: "@ + joined(pairs, ", "@) + "\nRisk/trade: `"@
        + risk_per_trade.product(S::of_ratio(100, 1)).fixed(2) + "%` \u{b7} Poll: every `"@
        + S::of_ratio(poll_interval_secs as int, 1).quotient(S::of_ratio(3600, 1)).fixed(0)
        + "h`"@
}

pub open spec fn checklist_line(label: Seq<char>, met: bool) -> Seq<char> {
    (if met {
        "\u{2705}"@
    } else {
        "\u{274c}"@
    }) + " "@ + label + "\n"@
}

/// How close the setup in a symbol is.
pub open spec fn entry_status_message<S: Number>(
    symbol: Seq<char>,
    snap: IndicatorSnapshot<S>,
    conditions: EntryConditions,
) -> Seq<char> {
    "\u{1f440} *"@ + symbol + "* \u{2014} flat\nPrice `"@ + snap.current_price.fixed(2)
        + "` \u{b7} RSI `"@ + snap.rsi_14.fixed(1) + "`\nEMA50 `"@ + snap.ema_50.fixed(2)
        + "` \u{b7} EMA200 `"@ + snap.ema_200.fixed(2) + "`\n\n"@ + checklist_line(
        "Trend  price > EMA50 > EMA200"@,
        conditions.trend_bullish,
    ) + checklist_line("RSI    within band"@, conditions.rsi_ok) + checklist_line(
        "MACD   bullish momentum"@,
        conditions.macd_crossed,
    ) + checklist_line("Stop   swing low below price"@, conditions.stop_valid) + "\n*"@ + decimal(
        conditions.count(),
    ) + "/4* conditions met"@
}

/// A level and its distance from the price in percent.
pub open spec fn level_text<S: Number>(level: S, price: S) -> Seq<char> {
    if zero::<S>().lt(level) && zero::<S>().lt(price) {
        "`"@ + level.fixed(2) + "` ("@ + level.difference(price).quotient(price).product(
            S::of_ratio(100, 1),
        ).fixed_signed(1) + "%)"@
    } else {
        "_unset_"@
    }
}

/// How an open position is doing.
pub open spec fn position_status_message<S: Number>(
    symbol: Seq<char>,
    snap: IndicatorSnapshot<S>,
    pos: Position<S>,
) -> Seq<char> {
    let price = snap.current_price;
    let pnl_pct = if zero::<S>().lt(pos.entry_price) {
        price.difference(pos.entry_price).quotient(pos.entry_price).product(S::of_ratio(100, 1))
    } else {
        zero::<S>()
    };
    "\u{1f4c8} *"@ + symbol + "* \u{2014} long\nEntry `"@ + pos.entry_price.fixed(2)
        + "` \u{b7} Now `"@ + price.fixed(2) + "` (`"@ + pnl_pct.fixed_signed(2) + "%`)\nQty `"@
        + pos.quantity.fixed(8) + "`\nSL "@ + level_text(pos.stop_loss, price) + "\nTP "@
        + level_text(pos.take_profit, price) + "\nBracket: "@ + (if pos.protected {
        "\u{2705} confirmed on exchange"@
    } else {
        "\u{26a0}\u{fe0f} *UNPROTECTED*"@
    })
}

/// What a notice reads as, if there is anything to say.
pub open spec fn notice_message<S: Number>(notice: Notice<S>, quote_asset: Seq<char>) -> Option<
    Seq<char>,
> {
    match notice {
        Notice::Buy { symbol, price, quantity, stop_loss, take_profit, confidence, reasoning } => {
            Some(
                buy_message(
                    symbol@,
                    price,
                    quantity,
                    stop_loss,
                    take_profit,
                    confidence@,
                    reasoning@,
                ),
            )
        },
        Notice::Sell { symbol, price, pnl, pnl_pct } => Some(
            sell_message(symbol@, price, pnl, pnl_pct, quote_asset),
        ),
        Notice::Halt { drawdown_pct, equity } => Some(
            halt_message(drawdown_pct, equity, quote_asset),
        ),
        Notice::Reconcile { restored, emergency, failed } => if restored == 0 && emergency == 0
            && failed == 0 {
            None
        } else {
            Some(reconcile_message(restored, emergency, failed))
        },
        Notice::Error(trouble) => Some(error_message(trouble.context(), trouble.detail())),
    }
}

fn append_line(text: &mut String, label: &str, met: bool)
    ensures
        final(text)@ == old(text)@ + checklist_line(label@, met),
{
    if met {
        text.append("\u{2705}");
    } else {
        text.append("\u{274c}");
    }
    text.append(" ");
    text.append(label);
    text.append("\n");
    assert(text@ =~= old(text)@ + checklist_line(label@, met));
}

fn level_of<S: Number>(level: S, price: S) -> (r: String)
    ensures
        r@ == level_text(level, price),
{
    if S::ratio(0, 1).below(level) && S::ratio(0, 1).below(price) {
        let distance = level.minus(price).over(price).times(S::ratio(100, 1));
        let mut text = "`".to_owned();
        text.append(level.to_fixed(2).as_str());
        text.append("` (");
        text.append(distance.to_fixed_signed(1).as_str());
        text.append("%)");
        text
    } else {
        "_unset_".to_owned()
    }
}

impl Notifier {
    pub open spec fn enabled(self) -> bool {
        self.token is Some && self.chat_id is Some
    }

    pub fn from_env(env: &Environment) -> (r: Self)
        ensures
            text_or_none(r.token) == env.value("TELEGRAM_BOT_TOKEN"@),
            text_or_none(r.chat_id) == env.value("TELEGRAM_CHAT_ID"@),
            r.quote_asset@ == env.value_or("QUOTE_ASSET"@, "USDT"@),
    {
        Notifier {
            token: cloned_value(env.get("TELEGRAM_BOT_TOKEN")),
            chat_id: cloned_value(env.get("TELEGRAM_CHAT_ID")),
            quote_asset: env.get_or("QUOTE_ASSET", "USDT"),
        }
    }

    /// A notifier that never sends.
    pub fn disabled(quote_asset: &str) -> (r: Self)
        ensures
            r.token is None,
            r.chat_id is None,
            r.quote_asset@ == quote_asset@,
    {
        Notifier { token: None, chat_id: None, quote_asset: quote_asset.to_owned() }
    }

    pub fn quote_asset(&self) -> (r: &str)
        ensures
            r@ == self.quote_asset@,
    {
        self.quote_asset.as_str()
    }

    pub fn is_enabled(&self) -> (r: bool)
        ensures
            r == self.enabled(),
    {
        self.token.is_some() && self.chat_id.is_some()
    }

    /// Where a message goes, if anywhere.
    pub fn send(&self, text: &str) -> (r: Option<Outgoing>)
        ensures
            r is Some <==> self.enabled(),
            r matches Some(out) ==> {
                &&& self.token matches Some(token) && out.url@ == "https://api.telegram.org/bot"@
                    + token@ + "/sendMessage"@
                &&& self.chat_id == Some(out.chat_id)
                &&& out.text@ == text@
            },
    {
        match (&self.token, &self.chat_id) {
            (Some(token), Some(chat_id)) => {
                let mut url = "https://api.telegram.org/bot".to_owned();
                url.append(token.as_str());
                url.append("/sendMessage");
                Some(Outgoing { url, chat_id: chat_id.clone(), text: text.to_owned() })
            },
            _ => None,
        }
    }

    pub fn notify_buy<S: Number>(
        &self,
        symbol: &str,
        price: S,
        qty: S,
        stop_loss: S,
        take_profit: S,
        confidence: &str,
        reasoning: &str,
    ) -> (r: String)
        ensures
            r@ == buy_message(
                symbol@,
                price,
                qty,
                stop_loss,
                take_profit,
                confidence@,
                reasoning@,
            ),
    {
        let mut text = "\u{1f7e2} *BUY ".to_owned();
        text.append(symbol);
        text.append("*\nPrice: `");
        text.append(price.to_fixed(2).as_str());
        text.append("`\nQty: `");
        text.append(qty.to_fixed(6).as_str());
        text.append("`\nSL: `");
        text.append(stop_loss.to_fixed(2).as_str());
        text.append("` | TP: `");
        text.append(take_profit.to_fixed(2).as_str());
        text.append("`\nConfidence: *");
        text.append(confidence);
        text.append("*\n_");
        text.append(reasoning);
        text.append("_");
        text
    }

    pub fn notify_sell<S: Number>(&self, symbol: &str, price: S, pnl: S, pnl_pct: S) -> (r: String)
        ensures
            r@ == sell_message(symbol@, price, pnl, pnl_pct, self.quote_asset@),
    {
        let mut text = if S::ratio(0, 1).at_most(pnl) {
            "\u{1f7e2}".to_owned()
        } else {
            "\u{1f534}".to_owned()
        };
        text.append(" *SELL ");
        text.append(symbol);
        text.append("*\nPrice: `");
        text.append(price.to_fixed(2).as_str());
        text.append("`\nPnL: `");
        text.append(pnl.to_fixed_signed(2).as_str());
        text.append("` ");
        text.append(self.quote_asset.as_str());
        text.append(" (`");
        text.append(pnl_pct.to_fixed_signed(2).as_str());
        text.append("%`)");
        text
    }

    pub fn notify_halt<S: Number>(&self, drawdown_pct: S, equity: S) -> (r: String)
        ensures
            r@ == halt_message(drawdown_pct, equity, self.quote_asset@),
    {
        let mut text = "\u{1f6d1} *HALT — Daily Drawdown Limit*\nDrawdown: `".to_owned();
        text.append(drawdown_pct.to_fixed(2).as_str());
        text.append("%`\nEquity: `");
        text.append(equity.to_fixed(2).as_str());
        text.append("` ");
        text.append(self.quote_asset.as_str());
        text.append("\n_No new trades until next UTC midnight._");
        text
    }

    /// Nothing to say where nothing was found.
    pub fn notify_reconcile(&self, restored: u32, emergency: u32, failed: u32) -> (r: Option<String>)
        ensures
            r is None <==> restored == 0 && emergency == 0 && failed == 0,
            r matches Some(text) ==> text@ == reconcile_message(restored, emergency, failed),
    {
        if restored == 0 && emergency == 0 && failed == 0 {
            return None;
        }
        let mut text = "\u{1f504} *Startup Reconciliation*\n".to_owned();
        let ghost head = text@;
        let mut part = String::new();
        assert(part@ =~= Seq::empty());
        if restored > 0 {
            part = "Restored: ".to_owned();
            part.append(text_of_count(restored as u64).as_str());
            part.append(" position(s)\n");
        }
        text.append(part.as_str());
        let mut part = String::new();
        assert(part@ =~= Seq::empty());
        if emergency > 0 {
            part = "Emergency OCO: ".to_owned();
            part.append(text_of_count(emergency as u64).as_str());
            part.append(" order(s) placed\n");
        }
        text.append(part.as_str());
        let mut part = String::new();
        assert(part@ =~= Seq::empty());
        if failed > 0 {
            part = "\u{26a0}\u{fe0f} *Failed: ".to_owned();
            part.append(text_of_count(failed as u64).as_str());
            part.append("* — check exchange manually!");
        }
        text.append(part.as_str());
        Some(text)
    }

    pub fn notify_error(&self, context: &str, error: &str) -> (r: String)
        ensures
            r@ == error_message(context@, error@),
    {
        let mut text = "\u{26a0}\u{fe0f} *Error: ".to_owned();
        text.append(context);
        text.append("*\n`");
        text.append(error);
        text.append("`");
        text
    }

    pub fn notify_startup<S: Number>(
        &self,
        equity: S,
        free: S,
        pairs: &Vec<String>,
        risk_per_trade: S,
        poll_interval_secs: u64,
    ) -> (r: String)
        ensures
            r@ == startup_message(
                equity,
                free,
                texts(pairs@),
                risk_per_trade,
                poll_interval_secs,
                self.quote_asset@,
            ),
    {
        let risk = risk_per_trade.times(S::ratio(100, 1));
        let hours = S::count(poll_interval_secs).over(S::ratio(3600, 1));
        let mut text = "\u{1f680} *Tempest Started*\nEquity: `".to_owned();
        text.append(equity.to_fixed(2).as_str());
        text.append("` ");
        text.append(self.quote_asset.as_str());
        text.append(" (`");
        text.append(free.to_fixed(2).as_str());
        text.append("` free)\nPairs: ");
        text.append(join(pairs, ", ").as_str());
        text.append("\nRisk/trade: `");
        text.append(risk.to_fixed(2).as_str());
        text.append("%` \u{b7} Poll: every `");
        text.append(hours.to_fixed(0).as_str());
        text.append("h`");
        text
    }

    /// Per-symbol state: how close the setup is, or how an open position is
    /// doing.
    ///
    /// Signals are rare. Without this there is no way to tell "waiting
    /// correctly" from "wedged".
    pub fn notify_status<S: Number>(
        &self,
        symbol: &str,
        snap: &IndicatorSnapshot<S>,
        conditions: &EntryConditions,
        position: Option<&Position<S>>,
    ) -> (r: String)
        ensures
            r@ == match position {
                Some(pos) => position_status_message(symbol@, *snap, *pos),
                None => entry_status_message(symbol@, *snap, *conditions),
            },
    {
        match position {
            Some(pos) => Self::position_status(symbol, snap, pos),
            None => Self::entry_status(symbol, snap, conditions),
        }
    }

    fn entry_status<S: Number>(
        symbol: &str,
        snap: &IndicatorSnapshot<S>,
        conditions: &EntryConditions,
    ) -> (r: String)
        ensures
            r@ == entry_status_message(symbol@, *snap, *conditions),
    {
        let mut text = "\u{1f440} *".to_owned();
        text.append(symbol);
        text.append("* \u{2014} flat\nPrice `");
        text.append(snap.current_price.to_fixed(2).as_str());
        text.append("` \u{b7} RSI `");
        text.append(snap.rsi_14.to_fixed(1).as_str());
        text.append("`\nEMA50 `");
        text.append(snap.ema_50.to_fixed(2).as_str());
        text.append("` \u{b7} EMA200 `");
        text.append(snap.ema_200.to_fixed(2).as_str());
        text.append("`\n\n");
        let rows = conditions.checklist();
        append_line(&mut text, rows[0].0, rows[0].1);
        append_line(&mut text, rows[1].0, rows[1].1);
        append_line(&mut text, rows[2].0, rows[2].1);
        append_line(&mut text, rows[3].0, rows[3].1);
        proof {
            let flags = rows@.map_values(|row: (&'static str, bool)| row.1);
            assert(flags[0] == rows@[0].1 && flags[1] == rows@[1].1 && flags[2] == rows@[2].1
                && flags[3] == rows@[3].1);
        }
        text.append("\n*");
        text.append(text_of_count(conditions.met_count() as u64).as_str());
        text.append("/4* conditions met");
        text
    }

    fn position_status<S: Number>(
        symbol: &str,
        snap: &IndicatorSnapshot<S>,
        pos: &Position<S>,
    ) -> (r: String)
        ensures
            r@ == position_status_message(symbol@, *snap, *pos),
    {
        let price = snap.current_price;
        let pnl_pct = if S::ratio(0, 1).below(pos.entry_price) {
            price.minus(pos.entry_price).over(pos.entry_price).times(S::ratio(100, 1))
        } else {
            S::ratio(0, 1)
        };
        let mut text = "\u{1f4c8} *".to_owned();
        text.append(symbol);
        text.append("* \u{2014} long\nEntry `");
        text.append(pos.entry_price.to_fixed(2).as_str());
        text.append("` \u{b7} Now `");
        text.append(price.to_fixed(2).as_str());
        text.append("` (`");
        text.append(pnl_pct.to_fixed_signed(2).as_str());
        text.append("%`)\nQty `");
        text.append(pos.quantity.to_fixed(8).as_str());
        text.append("`\nSL ");
        text.append(level_of(pos.stop_loss, price).as_str());
        text.append("\nTP ");
        text.append(level_of(pos.take_profit, price).as_str());
        text.append("\nBracket: ");
        if pos.protected {
            text.append("\u{2705} confirmed on exchange");
        } else {
            text.append("\u{26a0}\u{fe0f} *UNPROTECTED*");
        }
        text
    }

    /// The words for a notice, if there is anything to say.
    pub fn render<S: Number>(&self, notice: &Notice<S>) -> (r: Option<String>)
        ensures
            match r {
                Some(text) => notice_message(*notice, self.quote_asset@) == Some(text@),
                None => notice_message(*notice, self.quote_asset@) is None,
            },
    {
        match notice {
            Notice::Buy { symbol, price, quantity, stop_loss, take_profit, confidence, reasoning }
            => Some(
                self.notify_buy(
                    symbol.as_str(),
                    *price,
                    *quantity,
                    *stop_loss,
                    *take_profit,
                    confidence.as_str(),
                    reasoning.as_str(),
                ),
            ),
            Notice::Sell { symbol, price, pnl, pnl_pct } => Some(
                self.notify_sell(symbol.as_str(), *price, *pnl, *pnl_pct),
            ),
            Notice::Halt { drawdown_pct, equity } => Some(self.notify_halt(*drawdown_pct, *equity)),
            Notice::Reconcile { restored, emergency, failed } => self.notify_reconcile(
                *restored,
                *emergency,
                *failed,
            ),
            Notice::Error(trouble) => Some(
                self.notify_error(
                    trouble.context_text().as_str(),
                    trouble.detail_text().as_str(),
                ),
            ),
        }
    }
}

// ---------------------------------------------------------------------------
// Laws
// ---------------------------------------------------------------------------

/// A sale is shown green where it did not lose, and red where it did.
pub proof fn law_a_sale_is_shown_by_its_profit<S: Number>(
    symbol: Seq<char>,
    price: S,
    pnl: S,
    pnl_pct: S,
    quote_asset: Seq<char>,
)
    ensures
        ({
            let told = " *SELL "@ + symbol + "*\nPrice: `"@ + price.fixed(2) + "`\nPnL: `"@
                + pnl.fixed_signed(2) + "` "@ + quote_asset + " (`"@ + pnl_pct.fixed_signed(2)
                + "%`)"@;
            &&& S::of_ratio(0, 1).le(pnl) ==> sell_message(
                symbol,
                price,
                pnl,
                pnl_pct,
                quote_asset,
            ) == "\u{1f7e2}"@ + told
            &&& !S::of_ratio(0, 1).le(pnl) ==> sell_message(
                symbol,
                price,
                pnl,
                pnl_pct,
                quote_asset,
            ) == "\u{1f534}"@ + told
        }),
{
    let told = " *SELL "@ + symbol + "*\nPrice: `"@ + price.fixed(2) + "`\nPnL: `"@
        + pnl.fixed_signed(2) + "` "@ + quote_asset + " (`"@ + pnl_pct.fixed_signed(2) + "%`)"@;
    let mark = if S::of_ratio(0, 1).le(pnl) {
        "\u{1f7e2}"@
    } else {
        "\u{1f534}"@
    };
    assert(sell_message(symbol, price, pnl, pnl_pct, quote_asset) =~= mark + told);
}

/// A level is shown with its distance from the price, in percent of the price, and as unset
/// where there is no level or no price.
pub proof fn law_a_level_is_shown_with_its_distance<S: Number>(level: S, price: S)
    ensures
        S::of_ratio(0, 1).lt(level) && S::of_ratio(0, 1).lt(price) ==> level_text(level, price)
            == "`"@ + level.fixed(2) + "` ("@ + level.difference(price).quotient(price).product(
            S::of_ratio(100, 1),
        ).fixed_signed(1) + "%)"@,
        !S::of_ratio(0, 1).lt(level) || !S::of_ratio(0, 1).lt(price) ==> level_text(level, price)
            == "_unset_"@,
{
}

/// A reconciliation tells each count that is not zero, and nothing of the others.
pub proof fn law_a_reconciliation_tells_its_counts(restored: u32, emergency: u32, failed: u32)
    ensures
        ({
            let head = "\u{1f504} *Startup Reconciliation*\n"@;
            let first = "Restored: "@ + decimal(restored as nat) + " position(s)\n"@;
            let second = "Emergency OCO: "@ + decimal(emergency as nat) + " order(s) placed\n"@;
            let third = "\u{26a0}\u{fe0f} *Failed: "@ + decimal(failed as nat)
                + "* — check exchange manually!"@;
            &&& restored > 0 && emergency > 0 && failed > 0 ==> reconcile_message(
                restored,
                emergency,
                failed,
            ) == head + first + second + third
            &&& restored > 0 ==> reconcile_message(restored, 0, 0) == head + first
            &&& emergency > 0 ==> reconcile_message(0, emergency, 0) == head + second
            &&& failed > 0 ==> reconcile_message(0, 0, failed) == head + third
            &&& restored > 0 && emergency > 0 ==> reconcile_message(restored, emergency, 0) == head
                + first + second
            &&& restored > 0 && failed > 0 ==> reconcile_message(restored, 0, failed) == head
                + first + third
            &&& emergency > 0 && failed > 0 ==> reconcile_message(0, emergency, failed) == head
                + second + third
        }),
{
    let head = "\u{1f504} *Startup Reconciliation*\n"@;
    let first = "Restored: "@ + decimal(restored as nat) + " position(s)\n"@;
    let second = "Emergency OCO: "@ + decimal(emergency as nat) + " order(s) placed\n"@;
    let third = "\u{26a0}\u{fe0f} *Failed: "@ + decimal(failed as nat)
        + "* — check exchange manually!"@;
    if restored > 0 {
        assert(reconcile_message(restored, 0, 0) =~= head + first);
    }
    if emergency > 0 {
        assert(reconcile_message(0, emergency, 0) =~= head + second);
    }
    if failed > 0 {
        assert(reconcile_message(0, 0, failed) =~= head + third);
    }
    if restored > 0 && emergency > 0 {
        assert(reconcile_message(restored, emergency, 0) =~= head + first + second);
    }
    if restored > 0 && failed > 0 {
        assert(reconcile_message(restored, 0, failed) =~= head + first + third);
    }
    if emergency > 0 && failed > 0 {
        assert(reconcile_message(0, emergency, failed) =~= head + second + third);
    }
}

/// What a notice is told as: a purchase with its levels, a sale with its profit, a halt with
/// the loss and the equity, trouble with its context, and a reconciliation only where it
/// found something.
pub proof fn law_every_notice_is_told<S: Number>(notice: Notice<S>, quote_asset: Seq<char>)
    ensures
        notice matches Notice::Buy {
            symbol,
            price,
            quantity,
            stop_loss,
            take_profit,
            confidence,
            reasoning,
        } ==> notice_message(notice, quote_asset) == Some(
            "\u{1f7e2} *BUY "@ + symbol@ + "*\nPrice: `"@ + price.fixed(2) + "`\nQty: `"@
                + quantity.fixed(6) + "`\nSL: `"@ + stop_loss.fixed(2) + "` | TP: `"@
                + take_profit.fixed(2) + "`\nConfidence: *"@ + confidence@ + "*\n_"@ + reasoning@
                + "_"@,
        ),
        notice matches Notice::Sell { symbol, price, pnl, pnl_pct } ==> notice_message(
            notice,
            quote_asset,
        ) == Some(sell_message(symbol@, price, pnl, pnl_pct, quote_asset)),
        notice matches Notice::Halt { drawdown_pct, equity } ==> notice_message(notice, quote_asset)
            == Some(
            "\u{1f6d1} *HALT — Daily Drawdown Limit*\nDrawdown: `"@ + drawdown_pct.fixed(2)
                + "%`\nEquity: `"@ + equity.fixed(2) + "` "@ + quote_asset
                + "\n_No new trades until next UTC midnight._"@,
        ),
        notice matches Notice::Error(trouble) ==> notice_message(notice, quote_asset) == Some(
            "\u{26a0}\u{fe0f} *Error: "@ + trouble.context() + "*\n`"@ + trouble.detail() + "`"@,
        ),
        notice matches Notice::Reconcile { restored, emergency, failed } ==> {
            &&& notice_message(notice, quote_asset) is None <==> restored == 0 && emergency == 0
                && failed == 0
            &&& notice_message(notice, quote_asset) matches Some(text) ==> text
                == reconcile_message(restored, emergency, failed)
        },
{
}

/// How a position is shown: with what it has gained or lost on its entry in percent, its
/// stop and its target with their distances, and whether it is protected.
pub proof fn law_a_position_is_shown_as_it_stands<S: Number>(
    symbol: Seq<char>,
    snap: IndicatorSnapshot<S>,
    pos: Position<S>,
)
    ensures
        ({
            let price = snap.current_price;
            let gain = if S::of_ratio(0, 1).lt(pos.entry_price) {
                price.difference(pos.entry_price).quotient(pos.entry_price).product(
                    S::of_ratio(100, 1),
                )
            } else {
                S::of_ratio(0, 1)
            };
            let shown = "\u{1f4c8} *"@ + symbol + "* \u{2014} long\nEntry `"@
                + pos.entry_price.fixed(2) + "` \u{b7} Now `"@ + price.fixed(2) + "` (`"@
                + gain.fixed_signed(2) + "%`)\nQty `"@ + pos.quantity.fixed(8) + "`\nSL "@
                + level_text(pos.stop_loss, price) + "\nTP "@ + level_text(pos.take_profit, price)
                + "\nBracket: "@;
            &&& pos.protected ==> position_status_message(symbol, snap, pos) == shown
                + "\u{2705} confirmed on exchange"@
            &&& !pos.protected ==> position_status_message(symbol, snap, pos) == shown
                + "\u{26a0}\u{fe0f} *UNPROTECTED*"@
        }),
{
}

/// How a setup is shown: each condition ticked or crossed on its own line, under its own
/// name, and how many of the four are met.
pub proof fn law_a_setup_is_shown_by_condition<S: Number>(
    symbol: Seq<char>,
    snap: IndicatorSnapshot<S>,
    conditions: EntryConditions,
    label: Seq<char>,
)
    ensures
        checklist_line(label, true) == "\u{2705}"@ + " "@ + label + "\n"@,
        checklist_line(label, false) == "\u{274c}"@ + " "@ + label + "\n"@,
        entry_status_message(symbol, snap, conditions) == "\u{1f440} *"@ + symbol
            + "* \u{2014} flat\nPrice `"@ + snap.current_price.fixed(2) + "` \u{b7} RSI `"@
            + snap.rsi_14.fixed(1) + "`\nEMA50 `"@ + snap.ema_50.fixed(2) + "` \u{b7} EMA200 `"@
            + snap.ema_200.fixed(2) + "`\n\n"@ + checklist_line(
            "Trend  price > EMA50 > EMA200"@,
            conditions.trend_bullish,
        ) + checklist_line("RSI    within band"@, conditions.rsi_ok) + checklist_line(
            "MACD   bullish momentum"@,
            conditions.macd_crossed,
        ) + checklist_line("Stop   swing low below price"@, conditions.stop_valid) + "\n*"@
            + decimal(conditions.count()) + "/4* conditions met"@,
{
}

/// What is told at the start: the stake in percent and the interval in hours.
pub proof fn law_the_start_is_told_in_percent_and_hours<S: Number>(
    equity: S,
    free: S,
    pairs: Seq<Seq<char>>,
    risk_per_trade: S,
    seconds: u64,
    quote_asset: Seq<char>,
)
    ensures
        startup_message(equity, free, pairs, risk_per_trade, seconds, quote_asset)
            == "\u{1f680} *Tempest Started*\nEquity: `"@ + equity.fixed(2) + "` "@ + quote_asset
            + " (`"@ + free.fixed(2) + "` free)\nPairs: "@ + joined(pairs, ", "@)
            + "\nRisk/trade: `"@ + risk_per_trade.product(S::of_ratio(100, 1)).fixed(2)
            + "%` \u{b7} Poll: every `"@ + S::of_ratio(seconds as int, 1).quotient(
            S::of_ratio(3600, 1),
        ).fixed(0) + "h`"@,
{
}

/// Messages go out only where there is both a token and a chat to send them to.
pub proof fn law_who_is_told(notifier: Notifier)
    ensures
        notifier.enabled() <==> notifier.token is Some && notifier.chat_id is Some,
{
}

} // verus!
