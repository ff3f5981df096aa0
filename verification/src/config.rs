//! Settings: what the environment says, and what follows from it.

use vstd::prelude::*;
use crate::number::Number;
use crate::risk::{default_daily_drawdown, default_risk_per_trade, RiskLimits, DEFAULT_MAX_OPEN_POSITIONS};
use crate::text::{
    count_reading, ends_with, join, joined, lemma_texts_push, parse_count, pieces, same_text, split,
    texts, trim, trimmed,
};

verus! {

// ---------------------------------------------------------------------------
// The environment
// ---------------------------------------------------------------------------

/// The process environment: names and values.
#[derive(Debug, Clone, PartialEq)]
pub struct Environment {
    pub vars: Vec<(String, String)>,
}

/// The value of the first variable named `key`.
pub open spec fn lookup(vars: Seq<(String, String)>, key: Seq<char>) -> Option<Seq<char>>
    decreases vars.len(),
{
    if vars.len() == 0 {
        None
    } else if vars[0].0@ == key {
        Some(vars[0].1@)
    } else {
        lookup(vars.drop_first(), key)
    }
}

impl Environment {
    pub open spec fn value(self, key: Seq<char>) -> Option<Seq<char>> {
        lookup(self.vars@, key)
    }

    /// The value of `key`, or `fallback` where it is not set.
    pub open spec fn value_or(self, key: Seq<char>, fallback: Seq<char>) -> Seq<char> {
        match self.value(key) {
            Some(value) => value,
            None => fallback,
        }
    }

    /// The number that `key` is set to, where it is set to one.
    pub open spec fn number<S: Number>(self, key: Seq<char>) -> Option<S> {
        match self.value(key) {
            Some(value) => S::reading(value),
            None => None,
        }
    }

    /// The count that `key` is set to, where it is set to one.
    pub open spec fn whole(self, key: Seq<char>) -> Option<u64> {
        match self.value(key) {
            Some(value) => count_reading(value),
            None => None,
        }
    }

    pub fn get(&self, key: &str) -> (r: Option<&String>)
        ensures
            match r {
                Some(value) => self.value(key@) == Some(value@),
                None => self.value(key@) is None,
            },
    {
        let mut i: usize = 0;
        assert(self.vars@.skip(0) =~= self.vars@);
        while i < self.vars.len()
            invariant
                i <= self.vars@.len(),
                self.value(key@) == lookup(self.vars@.skip(i as int), key@),
            decreases self.vars@.len() - i,
        {
            assert(self.vars@.skip(i as int).drop_first() =~= self.vars@.skip(i + 1));
            if same_text(self.vars[i].0.as_str(), key) {
                return Some(&self.vars[i].1);
            }
            i = i + 1;
        }
        None
    }

    pub fn get_or(&self, key: &str, fallback: &str) -> (r: String)
        ensures
            r@ == self.value_or(key@, fallback@),
    {
        match self.get(key) {
            Some(value) => value.clone(),
            None => fallback.to_owned(),
        }
    }

    pub fn get_number<S: Number>(&self, key: &str) -> (r: Option<S>)
        ensures
            r == self.number::<S>(key@),
    {
        match self.get(key) {
            Some(value) => S::parse(value.as_str()),
            None => None,
        }
    }

    pub fn get_count(&self, key: &str) -> (r: Option<u64>)
        ensures
            r == self.whole(key@),
    {
        match self.get(key) {
            Some(value) => parse_count(value.as_str()),
            None => None,
        }
    }
}

// ---------------------------------------------------------------------------
// Trading pairs
// ---------------------------------------------------------------------------

/// What `str::to_uppercase` makes of a text.
pub uninterp spec fn uppercase_of(text: Seq<char>) -> Seq<char>;

/// What the `Debug` rendering of a `str` is.
pub uninterp spec fn debug_text(text: Seq<char>) -> Seq<char>;

/// A character with an ASCII small letter turned into its capital.
pub open spec fn raised(c: char) -> char {
    if 'a' <= c <= 'z' {
        (c as u32 - 32) as char
    } else {
        c
    }
}

pub open spec fn is_ascii_text(text: Seq<char>) -> bool {
    forall|i: int| 0 <= i < text.len() ==> (#[trigger] text[i] as u32) < 128
}

pub open spec fn is_plain_text(text: Seq<char>) -> bool {
    forall|i: int|
        0 <= i < text.len() ==> ('a' <= #[trigger] text[i] <= 'z' || 'A' <= text[i] <= 'Z' || '0'
            <= text[i] <= '9')
}

/// Calls `str::to_uppercase`. On ASCII texts the call raises each small letter
/// and keeps every other character. What it makes of other texts follows
/// Unicode's case mapping and is only named.
#[verifier::external_body]
pub(crate) fn uppercase(text: &str) -> (r: String)
    ensures
        r@ == uppercase_of(text@),
        is_ascii_text(text@) ==> r@ == text@.map_values(|c: char| raised(c)),
{
    text.to_uppercase()
}

/// Renders a `str` with its `Debug` format. Letters and digits of ASCII stand
/// as they are between two quotation marks. How other characters are escaped is
/// only named.
#[verifier::external_body]
fn quoted(text: &str) -> (r: String)
    ensures
        r@ == debug_text(text@),
        is_plain_text(text@) ==> r@ == seq!['"'] + text@ + seq!['"'],
{
    format!("{text:?}")
}

/// Whether `symbol` names a base asset and is quoted in `quote_asset`.
pub open spec fn is_quoted_in(symbol: Seq<char>, quote_asset: Seq<char>) -> bool {
    quote_asset.is_suffix_of(symbol) && symbol.len() > quote_asset.len()
}

/// The symbols that are not quoted in `quote_asset`, in order.
pub open spec fn misquoted(quote_asset: Seq<char>, pairs: Seq<Seq<char>>) -> Seq<Seq<char>> {
    pairs.filter(|symbol: Seq<char>| !is_quoted_in(symbol, quote_asset))
}

/// Why a set of symbols cannot be traded against `quote_asset`, if it cannot.
pub open spec fn pairs_flaw(quote_asset: Seq<char>, pairs: Seq<Seq<char>>) -> Option<Seq<char>> {
    if quote_asset.len() == 0 {
        Some("QUOTE_ASSET must not be empty"@)
    } else if pairs.len() == 0 {
        Some("TRADING_PAIRS must list at least one symbol"@)
    } else if misquoted(quote_asset, pairs).len() == 0 {
        None
    } else {
        Some(
            "QUOTE_ASSET is "@ + quote_asset + ", but these symbols are not quoted in it: ["@
                + joined(
                misquoted(quote_asset, pairs).map_values(|symbol: Seq<char>| debug_text(symbol)),
                ", "@,
            ) + "]. Either change QUOTE_ASSET or fix TRADING_PAIRS."@,
        )
    }
}

/// Every configured symbol must be quoted in `quote_asset`.
///
/// Trading a USDT pair from a USDC account is not an error anywhere else: the
/// bot reads a zero balance, sizes nothing, and looks merely idle. The message
/// names each symbol that is wrong, a symbol of plain text between quotation
/// marks.
pub fn validate_pairs(quote_asset: &str, pairs: &[String]) -> (r: Result<(), String>)
    ensures
        match r {
            Ok(_) => pairs_flaw(quote_asset@, texts(pairs@)) is None,
            Err(message) => pairs_flaw(quote_asset@, texts(pairs@)) == Some(message@),
        },
        r is Ok <==> quote_asset@.len() > 0 && pairs@.len() > 0 && forall|i: int|
            0 <= i < pairs@.len() ==> is_quoted_in(#[trigger] pairs@[i]@, quote_asset@),
        r is Err && quote_asset@.len() > 0 ==> forall|i: int|
            0 <= i < pairs@.len() && !is_quoted_in(#[trigger] pairs@[i]@, quote_asset@)
                && is_plain_text(pairs@[i]@) ==> debug_text(pairs@[i]@) == seq!['"'] + pairs@[i]@
                + seq!['"'],
{
    let ghost listed = texts(pairs@);
    if quote_asset.unicode_len() == 0 {
        return Err("QUOTE_ASSET must not be empty".to_owned());
    }
    if pairs.len() == 0 {
        return Err("TRADING_PAIRS must list at least one symbol".to_owned());
    }
    let ghost bad = |symbol: Seq<char>| !is_quoted_in(symbol, quote_asset@);
    let ghost shown = |symbol: Seq<char>| debug_text(symbol);
    let mut mismatched: Vec<String> = Vec::new();
    let mut i: usize = 0;
    proof {
        reveal(Seq::filter);
        assert(texts(mismatched@) =~= listed.take(0).filter(bad).map_values(shown));
    }
    while i < pairs.len()
        invariant
            i <= pairs@.len(),
            listed == texts(pairs@),
            bad == (|symbol: Seq<char>| !is_quoted_in(symbol, quote_asset@)),
            shown == (|symbol: Seq<char>| debug_text(symbol)),
            texts(mismatched@) == listed.take(i as int).filter(bad).map_values(shown),
            listed.take(i as int).filter(bad).len() == 0 <==> forall|j: int|
                0 <= j < i ==> is_quoted_in(#[trigger] pairs@[j]@, quote_asset@),
            forall|j: int|
                0 <= j < i && !is_quoted_in(#[trigger] pairs@[j]@, quote_asset@)
                    && is_plain_text(pairs@[j]@) ==> debug_text(pairs@[j]@) == seq!['"']
                    + pairs@[j]@ + seq!['"'],
        decreases pairs@.len() - i,
    {
        let ghost before = listed.take(i as int).filter(bad);
        proof {
            reveal(Seq::filter);
            assert(listed.take(i + 1).drop_last() =~= listed.take(i as int));
            assert(listed.take(i + 1).last() == pairs@[i as int]@);
        }
        let quoted_right = ends_with(pairs[i].as_str(), quote_asset) && pairs[i].as_str().unicode_len()
            > quote_asset.unicode_len();
        if !quoted_right {
            let name = quoted(pairs[i].as_str());
            proof {
                lemma_texts_push(mismatched@, name);
                assert(before.push(pairs@[i as int]@).map_values(shown) =~= before.map_values(
                    shown,
                ).push(debug_text(pairs@[i as int]@)));
            }
            mismatched.push(name);
        }
        i = i + 1;
    }
    proof {
        assert(listed.take(i as int) =~= listed);
        assert(texts(mismatched@).len() == listed.filter(bad).len());
    }
    if mismatched.len() == 0 {
        Ok(())
    } else {
        let mut message = "QUOTE_ASSET is ".to_owned();
        message.append(quote_asset);
        message.append(", but these symbols are not quoted in it: [");
        message.append(join(&mismatched, ", ").as_str());
        message.append("]. Either change QUOTE_ASSET or fix TRADING_PAIRS.");
        Err(message)
    }
}

/// The symbols a comma-separated list names: trimmed, in capitals, without
/// empty ones.
pub open spec fn listed_pairs(list: Seq<char>) -> Seq<Seq<char>> {
    pieces(list, ',').map_values(|piece: Seq<char>| uppercase_of(trimmed(piece))).filter(
        |symbol: Seq<char>| symbol.len() > 0,
    )
}

/// Reads a comma-separated list of symbols.
pub fn read_pairs(list: &str) -> (r: Vec<String>)
    ensures
        texts(r@) == listed_pairs(list@),
{
    let parts: Vec<String> = split(list, ',');
    let ghost mapped = pieces(list@, ',').map_values(|piece: Seq<char>| uppercase_of(trimmed(piece)));
    let ghost named = |symbol: Seq<char>| symbol.len() > 0;
    let mut out: Vec<String> = Vec::new();
    let mut i: usize = 0;
    proof {
        reveal(Seq::filter);
        assert(texts(out@) =~= mapped.take(0).filter(named));
        assert(texts(parts@).len() == parts@.len());
    }
    while i < parts.len()
        invariant
            i <= parts@.len() == mapped.len(),
            texts(parts@) == pieces(list@, ','),
            mapped == pieces(list@, ',').map_values(
                |piece: Seq<char>| uppercase_of(trimmed(piece)),
            ),
            named == (|symbol: Seq<char>| symbol.len() > 0),
            texts(out@) == mapped.take(i as int).filter(named),
        decreases parts@.len() - i,
    {
        let symbol = uppercase(trim(parts[i].as_str()).as_str());
        proof {
            reveal(Seq::filter);
            assert(mapped.take(i + 1).drop_last() =~= mapped.take(i as int));
            assert(texts(parts@)[i as int] == parts@[i as int]@);
            assert(mapped.take(i + 1).last() == symbol@);
            lemma_texts_push(out@, symbol);
        }
        if symbol.as_str().unicode_len() > 0 {
            out.push(symbol);
        }
        i = i + 1;
    }
    assert(mapped.take(i as int) =~= mapped);
    out
}

// ---------------------------------------------------------------------------
// The configuration
// ---------------------------------------------------------------------------

#[derive(Debug, Clone, PartialEq)]
pub struct Config<S> {
    pub base_url: String,
    pub api_key: String,
    pub api_secret: String,
    pub quote_asset: String,
    pub trading_pairs: Vec<String>,
    pub poll_interval_secs: u64,
    pub backtest_mode: bool,
    pub risk: RiskLimits<S>,
}

/// Why the environment does not make a configuration.
#[derive(Debug, Clone, PartialEq, Eq)]
pub enum ConfigError {
    MissingApiKey,
    MissingApiSecret,
    /// The symbols do not fit the quote asset, in words.
    InvalidPairs(String),
    PollIntervalNotANumber,
}

impl ConfigError {
    pub open spec fn message(self) -> Seq<char> {
        match self {
            ConfigError::MissingApiKey => "BINANCE_API_KEY must be set"@,
            ConfigError::MissingApiSecret => "BINANCE_API_SECRET must be set"@,
            ConfigError::InvalidPairs(flaw) => "Invalid configuration: "@ + flaw@,
            ConfigError::PollIntervalNotANumber => "POLL_INTERVAL_SECONDS must be a number"@,
        }
    }

    /// The error in words.
    pub fn describe(&self) -> (r: String)
        ensures
            r@ == self.message(),
    {
        match self {
            ConfigError::MissingApiKey => "BINANCE_API_KEY must be set".to_owned(),
            ConfigError::MissingApiSecret => "BINANCE_API_SECRET must be set".to_owned(),
            ConfigError::InvalidPairs(flaw) => "Invalid configuration: ".to_owned().concat(
                flaw.as_str(),
            ),
            ConfigError::PollIntervalNotANumber => {
                "POLL_INTERVAL_SECONDS must be a number".to_owned()
            },
        }
    }
}

pub open spec fn quote_setting(env: Environment) -> Seq<char> {
    env.value_or("QUOTE_ASSET"@, "USDT"@)
}

pub open spec fn pairs_setting(env: Environment) -> Seq<Seq<char>> {
    listed_pairs(env.value_or("TRADING_PAIRS"@, "BTC"@ + quote_setting(env)))
}

pub open spec fn poll_setting(env: Environment) -> Option<u64> {
    count_reading(env.value_or("POLL_INTERVAL_SECONDS"@, "300"@))
}

/// A percentage as a fraction, or `fallback` where none is set.
pub open spec fn fraction_setting<S: Number>(env: Environment, key: Seq<char>, fallback: S) -> S {
    match env.number::<S>(key) {
        Some(percent) => percent.quotient(S::of_ratio(100, 1)),
        None => fallback,
    }
}

pub open spec fn open_positions_setting(env: Environment) -> usize {
    match env.whole("MAX_OPEN_POSITIONS"@) {
        Some(n) => if n <= usize::MAX {
            n as usize
        } else {
            DEFAULT_MAX_OPEN_POSITIONS
        },
        None => DEFAULT_MAX_OPEN_POSITIONS,
    }
}

/// The limits that the environment sets.
pub open spec fn limits_setting<S: Number>(env: Environment) -> RiskLimits<S> {
    RiskLimits {
        risk_per_trade: fraction_setting(
            env,
            "RISK_PER_TRADE_PCT"@,
            default_risk_per_trade::<S>(),
        ),
        max_open_positions: open_positions_setting(env),
        daily_drawdown: fraction_setting(
            env,
            "DAILY_DRAWDOWN_PCT"@,
            default_daily_drawdown::<S>(),
        ),
    }
}

/// Whether a backtest is asked for, by the `MODE` variable or by an argument.
pub open spec fn backtest_asked(env: Environment, args: Seq<Seq<char>>) -> bool {
    env.value("MODE"@) == Some("backtest"@) || args.contains("--backtest"@)
}

fn fraction_of<S: Number>(env: &Environment, key: &str, fallback: S) -> (r: S)
    ensures
        r == fraction_setting(*env, key@, fallback),
{
    match env.get_number::<S>(key) {
        Some(percent) => percent.over(S::ratio(100, 1)),
        None => fallback,
    }
}

/// The limits that the environment sets: percentages for what is risked per trade
/// and for the daily drawdown, and a count of positions.
fn read_limits<S: Number>(env: &Environment) -> (r: RiskLimits<S>)
    ensures
        r == limits_setting::<S>(*env),
{
    let max_open_positions: usize = match env.get_count("MAX_OPEN_POSITIONS") {
        Some(n) => if n <= usize::MAX as u64 {
            n as usize
        } else {
            DEFAULT_MAX_OPEN_POSITIONS
        },
        None => DEFAULT_MAX_OPEN_POSITIONS,
    };
    let defaults = RiskLimits::<S>::default();
    RiskLimits {
        risk_per_trade: fraction_of(env, "RISK_PER_TRADE_PCT", defaults.risk_per_trade),
        max_open_positions,
        daily_drawdown: fraction_of(env, "DAILY_DRAWDOWN_PCT", defaults.daily_drawdown),
    }
}

fn names_backtest(args: &Vec<String>) -> (r: bool)
    ensures
        r == texts(args@).contains("--backtest"@),
{
    let mut i: usize = 0;
    while i < args.len()
        invariant
            i <= args@.len(),
            forall|j: int| 0 <= j < i ==> args@[j]@ != "--backtest"@,
        decreases args@.len() - i,
    {
        if same_text(args[i].as_str(), "--backtest") {
            assert(texts(args@)[i as int] == "--backtest"@);
            return true;
        }
        i = i + 1;
    }
    proof {
        assert forall|j: int| 0 <= j < args@.len() implies texts(args@)[j] != "--backtest"@ by {
            assert(args@[j]@ != "--backtest"@);
        }
    }
    false
}

/// The filter that log lines pass: `RUST_LOG`, else `LOG_LEVEL`, else `info`.
pub fn log_filter(env: &Environment) -> (r: String)
    ensures
        r@ == env.value_or("RUST_LOG"@, env.value_or("LOG_LEVEL"@, "info"@)),
{
    let level = env.get_or("LOG_LEVEL", "info");
    env.get_or("RUST_LOG", level.as_str())
}

impl<S: Number> Config<S> {
    /// Reads the configuration from the environment and the program's arguments.
    pub fn from_env(env: &Environment, args: &Vec<String>) -> (r: Result<Self, ConfigError>)
        ensures
            r matches Err(ConfigError::MissingApiKey) <==> env.value("BINANCE_API_KEY"@) is None,
            r matches Err(ConfigError::MissingApiSecret) <==> env.value(
                "BINANCE_API_KEY"@,
            ) is Some && env.value("BINANCE_API_SECRET"@) is None,
            r matches Err(ConfigError::InvalidPairs(_)) <==> env.value(
                "BINANCE_API_KEY"@,
            ) is Some && env.value("BINANCE_API_SECRET"@) is Some && pairs_flaw(
                quote_setting(*env),
                pairs_setting(*env),
            ) is Some,
            r matches Err(ConfigError::InvalidPairs(flaw)) ==> pairs_flaw(
                quote_setting(*env),
                pairs_setting(*env),
            ) == Some(flaw@),
            r matches Err(ConfigError::PollIntervalNotANumber) <==> env.value(
                "BINANCE_API_KEY"@,
            ) is Some && env.value("BINANCE_API_SECRET"@) is Some && pairs_flaw(
                quote_setting(*env),
                pairs_setting(*env),
            ) is None && poll_setting(*env) is None,
            r matches Ok(config) ==> {
                &&& config.base_url@ == env.value_or(
                    "BINANCE_BASE_URL"@,
                    "https://testnet.binance.vision"@,
                )
                &&& Some(config.api_key@) == env.value("BINANCE_API_KEY"@)
                &&& Some(config.api_secret@) == env.value("BINANCE_API_SECRET"@)
                &&& config.quote_asset@ == quote_setting(*env)
                &&& texts(config.trading_pairs@) == pairs_setting(*env)
                &&& Some(config.poll_interval_secs) == poll_setting(*env)
                &&& config.backtest_mode == backtest_asked(*env, texts(args@))
                &&& config.risk == limits_setting::<S>(*env)
            },
    {
        let base_url = env.get_or("BINANCE_BASE_URL", "https://testnet.binance.vision");
        let api_key = match env.get("BINANCE_API_KEY") {
            Some(key) => key.clone(),
            None => return Err(ConfigError::MissingApiKey),
        };
        let api_secret = match env.get("BINANCE_API_SECRET") {
            Some(secret) => secret.clone(),
            None => return Err(ConfigError::MissingApiSecret),
        };
        let quote_asset = env.get_or("QUOTE_ASSET", "USDT");
        let default_pair = "BTC".to_owned().concat(quote_asset.as_str());
        let list = env.get_or("TRADING_PAIRS", default_pair.as_str());
        let trading_pairs = read_pairs(list.as_str());
        match validate_pairs(quote_asset.as_str(), trading_pairs.as_slice()) {
            Ok(_) => {},
            Err(flaw) => return Err(ConfigError::InvalidPairs(flaw)),
        }
        let interval = env.get_or("POLL_INTERVAL_SECONDS", "300");
        let poll_interval_secs: u64 = match parse_count(interval.as_str()) {
            Some(seconds) => seconds,
            None => return Err(ConfigError::PollIntervalNotANumber),
        };
        let mode_asks = match env.get("MODE") {
            Some(mode) => same_text(mode.as_str(), "backtest"),
            None => false,
        };
        let backtest_mode = mode_asks || names_backtest(args);
        Ok(
            Config {
                base_url,
                api_key,
                api_secret,
                quote_asset,
                trading_pairs,
                poll_interval_secs,
                backtest_mode,
                risk: read_limits(env),
            },
        )
    }

    /// The configured pair of `asset` and the quote asset, if there is one.
    pub fn pair_of(&self, asset: &str) -> (r: Option<&String>)
        ensures
            match r {
                Some(pair) => pair_of(self.trading_pairs@, self.quote_asset@, asset@) == Some(*pair)
                    && pair@ == asset@ + self.quote_asset@,
                None => pair_of(self.trading_pairs@, self.quote_asset@, asset@) is None
                    && !texts(self.trading_pairs@).contains(asset@ + self.quote_asset@),
            },
    {
        let name = asset.to_owned().concat(self.quote_asset.as_str());
        let mut i: usize = 0;
        while i < self.trading_pairs.len()
            invariant
                i <= self.trading_pairs@.len(),
                name@ == asset@ + self.quote_asset@,
                pair_of(self.trading_pairs@, self.quote_asset@, asset@) == pair_from(
                    self.trading_pairs@,
                    name@,
                    i as int,
                ),
                forall|j: int| 0 <= j < i ==> (#[trigger] self.trading_pairs@[j])@ != name@,
            decreases self.trading_pairs@.len() - i,
        {
            if same_text(self.trading_pairs[i].as_str(), name.as_str()) {
                return Some(&self.trading_pairs[i]);
            }
            i = i + 1;
        }
        proof {
            assert forall|j: int| 0 <= j < self.trading_pairs@.len() implies texts(
                self.trading_pairs@,
            )[j] != name@ by {
                assert(self.trading_pairs@[j]@ != name@);
            }
        }
        None
    }
}

/// The first pair from `from` on that reads `name`.
pub open spec fn pair_from(pairs: Seq<String>, name: Seq<char>, from: int) -> Option<String>
    decreases pairs.len() - from,
{
    if from < 0 || from >= pairs.len() {
        None
    } else if pairs[from]@ == name {
        Some(pairs[from])
    } else {
        pair_from(pairs, name, from + 1)
    }
}

/// The configured pair of a base asset.
pub open spec fn pair_of(pairs: Seq<String>, quote_asset: Seq<char>, asset: Seq<char>) -> Option<
    String,
> {
    pair_from(pairs, asset + quote_asset, 0)
}

/// A configuration that was read successfully trades at least one symbol, and
/// only symbols quoted in its quote asset.
pub proof fn law_configured_pairs_are_quoted(env: Environment, i: int)
    requires
        pairs_flaw(quote_setting(env), pairs_setting(env)) is None,
    ensures
        pairs_setting(env).len() > 0,
        0 <= i < pairs_setting(env).len() ==> is_quoted_in(pairs_setting(env)[i], quote_setting(env)),
{
    let quote = quote_setting(env);
    let pairs = pairs_setting(env);
    let bad = |symbol: Seq<char>| !is_quoted_in(symbol, quote);
    if 0 <= i < pairs.len() && bad(pairs[i]) {
        broadcast use vstd::seq_lib::group_filter_ensures;

        assert(pairs.filter(bad).contains(pairs[i]));
    }
}

/// The first variable of a name counts: one that stands before it under another name does
/// not matter, nor does anything that stands behind it. A name that no variable bears has
/// no value.
pub proof fn law_the_first_variable_counts(vars: Seq<(String, String)>, key: Seq<char>)
    ensures
        match lookup(vars, key) {
            Some(value) => exists|i: int|
                {
                    &&& 0 <= i < vars.len()
                    &&& (#[trigger] vars[i]).0@ == key
                    &&& vars[i].1@ == value
                    &&& forall|j: int| 0 <= j < i ==> (#[trigger] vars[j]).0@ != key
                },
            None => forall|j: int| 0 <= j < vars.len() ==> (#[trigger] vars[j]).0@ != key,
        },
    decreases vars.len(),
{
    if vars.len() > 0 && vars[0].0@ != key {
        let rest = vars.drop_first();
        law_the_first_variable_counts(rest, key);
        match lookup(rest, key) {
            Some(value) => {
                let i = choose|i: int|
                    {
                        &&& 0 <= i < rest.len()
                        &&& (#[trigger] rest[i]).0@ == key
                        &&& rest[i].1@ == value
                        &&& forall|j: int| 0 <= j < i ==> (#[trigger] rest[j]).0@ != key
                    };
                assert(vars[i + 1] == rest[i]);
                assert forall|j: int| 0 <= j < i + 1 implies (#[trigger] vars[j]).0@ != key by {
                    if j > 0 {
                        assert(rest[j - 1] == vars[j]);
                    }
                }
            },
            None => {
                assert forall|j: int| 0 <= j < vars.len() implies (#[trigger] vars[j]).0@
                    != key by {
                    if j > 0 {
                        assert(rest[j - 1] == vars[j]);
                    }
                }
            },
        }
    } else if vars.len() > 0 {
        assert(vars[0].0@ == key);
    }
}

/// A setting has the value that it is set to, and what stands in for it where it is not
/// set. One that is read as a number has none where its value is not one.
pub proof fn law_settings_are_read_or_stood_in_for<S: Number>(
    env: Environment,
    key: Seq<char>,
    fallback: Seq<char>,
)
    ensures
        env.value(key) == lookup(env.vars@, key),
        env.value(key) is None ==> env.value_or(key, fallback) == fallback
            && env.number::<S>(key) is None && env.whole(key) is None,
        env.value(key) matches Some(value) ==> env.value_or(key, fallback) == value && env.number::<
            S,
        >(key) == S::reading(value) && env.whole(key) == count_reading(value),
{
}

/// What each setting is where it is not set, and under which name it is looked for.
pub proof fn law_settings_that_are_not_set<S: Number>(env: Environment, args: Seq<Seq<char>>)
    ensures
        env.value("QUOTE_ASSET"@) is None ==> quote_setting(env) == "USDT"@,
        env.value("QUOTE_ASSET"@) matches Some(quote) ==> quote_setting(env) == quote,
        env.value("TRADING_PAIRS"@) is None ==> pairs_setting(env) == listed_pairs(
            "BTC"@ + quote_setting(env),
        ),
        env.value("TRADING_PAIRS"@) matches Some(list) ==> pairs_setting(env) == listed_pairs(
            list,
        ),
        env.value("POLL_INTERVAL_SECONDS"@) is None ==> poll_setting(env) == count_reading("300"@),
        env.value("POLL_INTERVAL_SECONDS"@) matches Some(seconds) ==> poll_setting(env)
            == count_reading(seconds),
        env.value("RISK_PER_TRADE_PCT"@) is None ==> limits_setting::<S>(env).risk_per_trade
            == S::of_ratio(15, 1000),
        env.value("DAILY_DRAWDOWN_PCT"@) is None ==> limits_setting::<S>(env).daily_drawdown
            == S::of_ratio(5, 100),
        env.value("MAX_OPEN_POSITIONS"@) is None ==> limits_setting::<S>(env).max_open_positions
            == 4,
        backtest_asked(env, args) <==> env.value("MODE"@) == Some("backtest"@) || exists|i: int|
            0 <= i < args.len() && #[trigger] args[i] == "--backtest"@,
{
}

/// Limits are set in percent and kept as fractions, each under its own name; a count of
/// positions is taken as it is.
pub proof fn law_limits_are_set_in_percent<S: Number>(env: Environment, percent: S)
    ensures
        env.number::<S>("RISK_PER_TRADE_PCT"@) == Some(percent) ==> limits_setting::<S>(
            env,
        ).risk_per_trade == percent.quotient(S::of_ratio(100, 1)),
        env.number::<S>("DAILY_DRAWDOWN_PCT"@) == Some(percent) ==> limits_setting::<S>(
            env,
        ).daily_drawdown == percent.quotient(S::of_ratio(100, 1)),
        env.whole("MAX_OPEN_POSITIONS"@) matches Some(n) ==> n <= usize::MAX ==> limits_setting::<
            S,
        >(env).max_open_positions == n,
{
}

/// A symbol belongs to a quote asset where it is a base asset and then the quote asset.
/// The base may be anything but nothing.
pub proof fn law_a_pair_is_base_and_quote(base: Seq<char>, quote_asset: Seq<char>, symbol: Seq<char>)
    ensures
        is_quoted_in(base + quote_asset, quote_asset) <==> base.len() > 0,
        is_quoted_in(symbol, quote_asset) ==> exists|front: Seq<char>|
            front.len() > 0 && symbol == #[trigger] (front + quote_asset),
{
    let whole = base + quote_asset;
    assert(whole.subrange(whole.len() - quote_asset.len(), whole.len() as int) =~= quote_asset);
    if is_quoted_in(symbol, quote_asset) {
        let cut = symbol.len() - quote_asset.len();
        let front = symbol.take(cut);
        assert(symbol.subrange(cut, symbol.len() as int) =~= quote_asset);
        assert(symbol =~= front + quote_asset);
    }
}

/// What is wrong with a set of symbols: no quote asset, or no symbol, or those symbols that
/// are not quoted in it, of which each is named in its place.
pub proof fn law_a_flaw_is_named(quote_asset: Seq<char>, pairs: Seq<Seq<char>>)
    ensures
        quote_asset.len() == 0 ==> pairs_flaw(quote_asset, pairs) == Some(
            "QUOTE_ASSET must not be empty"@,
        ),
        quote_asset.len() > 0 && pairs.len() == 0 ==> pairs_flaw(quote_asset, pairs) == Some(
            "TRADING_PAIRS must list at least one symbol"@,
        ),
        quote_asset.len() > 0 && pairs.len() > 0 ==> (pairs_flaw(quote_asset, pairs) is None
            <==> forall|i: int|
            0 <= i < pairs.len() ==> is_quoted_in(#[trigger] pairs[i], quote_asset)),
        quote_asset.len() > 0 && pairs.len() > 0 ==> (pairs_flaw(quote_asset, pairs) matches Some(
            flaw,
        ) ==> flaw == "QUOTE_ASSET is "@ + quote_asset
            + ", but these symbols are not quoted in it: ["@ + joined(
            misquoted(quote_asset, pairs).map_values(|symbol: Seq<char>| debug_text(symbol)),
            ", "@,
        ) + "]. Either change QUOTE_ASSET or fix TRADING_PAIRS."@),
        forall|symbol: Seq<char>|
            misquoted(quote_asset, pairs).contains(symbol) <==> #[trigger] pairs.contains(symbol)
                && !is_quoted_in(symbol, quote_asset),
{
    let wrong = |symbol: Seq<char>| !is_quoted_in(symbol, quote_asset);
    let bad = misquoted(quote_asset, pairs);
    assert forall|symbol: Seq<char>| bad.contains(symbol) <==> #[trigger] pairs.contains(symbol)
        && !is_quoted_in(symbol, quote_asset) by {
        lemma_filtered(pairs, wrong, symbol);
    }
    if bad.len() > 0 {
        assert(bad.contains(bad[0]));
        lemma_filtered(pairs, wrong, bad[0]);
        let i = choose|i: int| 0 <= i < pairs.len() && pairs[i] == bad[0];
        assert(!is_quoted_in(pairs[i], quote_asset));
    } else {
        assert forall|i: int| 0 <= i < pairs.len() implies is_quoted_in(
            #[trigger] pairs[i],
            quote_asset,
        ) by {
            lemma_filtered(pairs, wrong, pairs[i]);
        }
    }
}

proof fn lemma_filtered<A>(all: Seq<A>, keep: spec_fn(A) -> bool, item: A)
    ensures
        all.filter(keep).contains(item) <==> all.contains(item) && keep(item),
    decreases all.len(),
{
    reveal(Seq::filter);
    if all.len() > 0 {
        let before = all.drop_last();
        let kept = before.filter(keep);
        lemma_filtered(before, keep, item);
        if before.contains(item) {
            let i = choose|i: int| 0 <= i < before.len() && before[i] == item;
            assert(all[i] == item);
        }
        if all.contains(item) && !before.contains(item) {
            let i = choose|i: int| 0 <= i < all.len() && all[i] == item;
            assert(i == all.len() - 1) by {
                if i < before.len() {
                    assert(before[i] == item);
                }
            }
        }
        if all.last() == item {
            assert(all[all.len() - 1] == item);
        }
        if keep(all.last()) {
            let longer = kept.push(all.last());
            assert(all.filter(keep) == longer);
            if kept.contains(item) {
                let i = choose|i: int| 0 <= i < kept.len() && kept[i] == item;
                assert(longer[i] == item);
            }
            if longer.contains(item) && !kept.contains(item) {
                let i = choose|i: int| 0 <= i < longer.len() && longer[i] == item;
                if i < kept.len() {
                    assert(kept[i] == item);
                }
            }
            assert(longer[kept.len() as int] == all.last());
        }
    }
}

/// The pair of an asset is a configured one, made of the asset and the quote asset; without
/// one there is no configured pair of that name.
pub proof fn law_the_pair_of_an_asset(
    pairs: Seq<String>,
    quote_asset: Seq<char>,
    asset: Seq<char>,
)
    ensures
        match pair_of(pairs, quote_asset, asset) {
            Some(pair) => pairs.contains(pair) && pair@ == asset + quote_asset,
            None => forall|i: int|
                0 <= i < pairs.len() ==> (#[trigger] pairs[i])@ != asset + quote_asset,
        },
{
    lemma_pair_from(pairs, asset + quote_asset, 0);
}

proof fn lemma_pair_from(pairs: Seq<String>, name: Seq<char>, from: int)
    requires
        0 <= from,
    ensures
        match pair_from(pairs, name, from) {
            Some(pair) => pairs.contains(pair) && pair@ == name,
            None => forall|i: int| from <= i < pairs.len() ==> (#[trigger] pairs[i])@ != name,
        },
    decreases pairs.len() - from,
{
    if from < pairs.len() && pairs[from]@ != name {
        lemma_pair_from(pairs, name, from + 1);
    }
}

/// A list names its symbols between commas, without the blanks round them and in capitals;
/// nothing between two commas names nothing.
pub proof fn law_a_list_names_its_symbols(list: Seq<char>, symbol: Seq<char>)
    ensures
        listed_pairs(list).contains(symbol) <==> symbol.len() > 0 && exists|i: int|
            0 <= i < pieces(list, ',').len() && uppercase_of(
                trimmed(#[trigger] pieces(list, ',')[i]),
            ) == symbol,
{
    let read = |piece: Seq<char>| uppercase_of(trimmed(piece));
    let named = |s: Seq<char>| s.len() > 0;
    let all = pieces(list, ',').map_values(read);
    lemma_filtered(all, named, symbol);
    if all.contains(symbol) {
        let i = choose|i: int| 0 <= i < all.len() && all[i] == symbol;
        assert(uppercase_of(trimmed(pieces(list, ',')[i])) == symbol);
    }
    if exists|i: int|
        0 <= i < pieces(list, ',').len() && uppercase_of(trimmed(#[trigger] pieces(list, ',')[i]))
            == symbol {
        let i = choose|i: int|
            0 <= i < pieces(list, ',').len() && uppercase_of(
                trimmed(#[trigger] pieces(list, ',')[i]),
            ) == symbol;
        assert(all[i] == symbol);
    }
}

/// What each error says.
pub proof fn law_configuration_errors_in_words(flaw: String)
    ensures
        ConfigError::MissingApiKey.message() == "BINANCE_API_KEY must be set"@,
        ConfigError::MissingApiSecret.message() == "BINANCE_API_SECRET must be set"@,
        ConfigError::InvalidPairs(flaw).message() == "Invalid configuration: "@ + flaw@,
        ConfigError::PollIntervalNotANumber.message() == "POLL_INTERVAL_SECONDS must be a number"@,
{
}

} // verus!
