use tempest::config::validate_pairs;

fn pairs(list: &[&str]) -> Vec<String> {
    list.iter().map(|s| s.to_string()).collect()
}

#[test]
fn matching_quote_asset_is_accepted() {
    assert!(validate_pairs("USDC", &pairs(&["BTCUSDC", "ETHUSDC"])).is_ok());
    assert!(validate_pairs("USDT", &pairs(&["BTCUSDT"])).is_ok());
}

#[test]
fn mismatched_quote_asset_is_rejected() {
    let err = validate_pairs("USDC", &pairs(&["BTCUSDT"])).unwrap_err();
    assert!(err.contains("BTCUSDT"), "got: {err}");
    assert!(err.contains("USDC"), "got: {err}");
}

#[test]
fn one_bad_symbol_fails_the_whole_set() {
    let err = validate_pairs("USDC", &pairs(&["BTCUSDC", "ETHUSDT"])).unwrap_err();
    assert!(err.contains("ETHUSDT"));
    assert!(!err.contains("BTCUSDC"), "should only name the offender");
}

#[test]
fn a_bare_quote_asset_is_not_a_symbol() {
    // "USDC" ends with "USDC" but names no base asset.
    assert!(validate_pairs("USDC", &pairs(&["USDC"])).is_err());
}

#[test]
fn empty_configuration_is_rejected() {
    assert!(validate_pairs("USDC", &[]).is_err());
    assert!(validate_pairs("", &pairs(&["BTCUSDC"])).is_err());
}

#[test]
fn quote_asset_must_be_a_suffix_not_a_substring() {
    // USDC appears in the symbol but is not what it is quoted in.
    assert!(validate_pairs("USDC", &pairs(&["USDCBTC"])).is_err());
}
