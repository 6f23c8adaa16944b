use quote_ingest::naming::{instrument_of_key, Field, KeyScheme, FIELD_COUNT};

#[test]
fn standard_scheme_names_the_market_namespaces() {
    let scheme = KeyScheme::standard();
    assert_eq!(scheme.series_namespace, "MARKET");
    assert_eq!(scheme.metadata_namespace, "MARKET:METADATA:STOCKS");
    assert_eq!(scheme.active_attribute, "attivo");
}

#[test]
fn series_key_joins_namespace_instrument_and_field() {
    let scheme = KeyScheme::standard();
    assert_eq!(scheme.series_key("AAPL", Field::Open), "MARKET:AAPL:open");
    assert_eq!(scheme.series_key("AAPL", Field::Close), "MARKET:AAPL:close");
    assert_eq!(scheme.series_key("AAPL", Field::High), "MARKET:AAPL:high");
    assert_eq!(scheme.series_key("AAPL", Field::Low), "MARKET:AAPL:low");
    assert_eq!(scheme.series_key("AAPL", Field::AdjClose), "MARKET:AAPL:adj_close");
}

#[test]
fn series_key_follows_the_scheme() {
    let scheme = KeyScheme {
        series_namespace: "TEST".to_string(),
        metadata_namespace: "TEST:META".to_string(),
        active_attribute: "active".to_string(),
    };
    assert_eq!(scheme.series_key("BRK.B", Field::High), "TEST:BRK.B:high");
    assert_eq!(scheme.metadata_pattern(), "TEST:META:*");
}

#[test]
fn series_key_is_the_same_for_the_same_instrument_and_field() {
    let scheme = KeyScheme::standard();
    assert_eq!(scheme.series_key("MSFT", Field::Low), scheme.series_key("MSFT", Field::Low));
}

#[test]
fn series_keys_differ_by_instrument_and_field() {
    let scheme = KeyScheme::standard();
    let mut keys = Vec::new();
    for instrument in ["A", "A:open", "B", ""] {
        for k in 0..FIELD_COUNT {
            keys.push(scheme.series_key(instrument, Field::at(k).unwrap()));
        }
    }
    for i in 0..keys.len() {
        for j in 0..keys.len() {
            assert_eq!(keys[i] == keys[j], i == j, "{} against {}", keys[i], keys[j]);
        }
    }
}

#[test]
fn metadata_pattern_matches_every_instrument() {
    assert_eq!(KeyScheme::standard().metadata_pattern(), "MARKET:METADATA:STOCKS:*");
}

#[test]
fn fields_come_in_write_order() {
    assert_eq!(FIELD_COUNT, 5);
    assert_eq!(Field::at(0), Some(Field::Open));
    assert_eq!(Field::at(1), Some(Field::Close));
    assert_eq!(Field::at(2), Some(Field::High));
    assert_eq!(Field::at(3), Some(Field::Low));
    assert_eq!(Field::at(4), Some(Field::AdjClose));
    assert_eq!(Field::at(5), None);
    assert_eq!(Field::at(usize::MAX), None);
}

#[test]
fn field_labels_are_the_series_names() {
    assert_eq!(Field::Open.label(), "open");
    assert_eq!(Field::Close.label(), "close");
    assert_eq!(Field::High.label(), "high");
    assert_eq!(Field::Low.label(), "low");
    assert_eq!(Field::AdjClose.label(), "adj_close");
}

#[test]
fn instrument_of_key_is_the_last_segment() {
    assert_eq!(instrument_of_key("MARKET:METADATA:STOCKS:AAPL"), "AAPL");
    assert_eq!(instrument_of_key("MARKET:METADATA:STOCKS:BRK.B"), "BRK.B");
    assert_eq!(instrument_of_key("a:b"), "b");
}

#[test]
fn instrument_of_key_without_separator_is_the_key() {
    assert_eq!(instrument_of_key("AAPL"), "AAPL");
    assert_eq!(instrument_of_key(""), "");
}

#[test]
fn instrument_of_key_ending_in_a_separator_is_empty() {
    assert_eq!(instrument_of_key("MARKET:METADATA:STOCKS:"), "");
    assert_eq!(instrument_of_key(":"), "");
}

#[test]
fn instrument_of_key_reads_back_what_the_pattern_admits() {
    let scheme = KeyScheme::standard();
    let pattern = scheme.metadata_pattern();
    let prefix = pattern.strip_suffix('*').unwrap();
    for instrument in ["AAPL", "MSFT", "é€", "^GSPC"] {
        assert_eq!(instrument_of_key(&format!("{}{}", prefix, instrument)), instrument);
    }
}
