use savings::decode::{decode_all_coins, decode_asset_details, decode_deposit_address};
use savings::errors::Error;
use savings::json::{parse_json, Json};
use savings::params::ParamSet;
use savings::text::{str_eq, str_lex_lt};

#[test]
fn param_set_starts_empty() {
    let ps = ParamSet::new();
    assert_eq!(ps.len(), 0);
    assert!(!ps.contains_key("asset"));
    assert!(ps.get("asset").is_none());
}

#[test]
fn param_set_keeps_inserted_value_under_its_key() {
    let mut ps = ParamSet::new();
    ps.insert("coin".to_string(), "ETH".to_string());
    ps.insert("network".to_string(), "BSC".to_string());
    assert_eq!(ps.len(), 2);
    assert!(ps.contains_key("coin"));
    assert!(ps.contains_key("network"));
    assert!(!ps.contains_key("asset"));
    assert_eq!(ps.get("coin").unwrap().as_str(), "ETH");
    assert_eq!(ps.get("network").unwrap().as_str(), "BSC");
    let (k, v) = ps.pair_at(0);
    assert_eq!(k.as_str(), "coin");
    assert_eq!(v.as_str(), "ETH");
}

#[test]
fn string_helpers_compare_by_characters() {
    assert!(str_eq("abc", "abc"));
    assert!(!str_eq("abc", "abd"));
    assert!(!str_eq("abc", "ab"));
    assert!(str_lex_lt("ABC", "ABD"));
    assert!(str_lex_lt("AB", "ABC"));
    assert!(!str_lex_lt("ABC", "ABC"));
    assert!(!str_lex_lt("B", "ABC"));
}

#[test]
fn parser_reads_the_subset() {
    assert!(matches!(parse_json("null"), Some(Json::Null)));
    assert!(matches!(parse_json(" true "), Some(Json::Bool(true))));
    assert!(matches!(parse_json("false"), Some(Json::Bool(false))));
    match parse_json("\"hey\"") {
        Some(Json::Str(s)) => assert_eq!(s.as_str(), "hey"),
        _ => panic!("expected a string"),
    }
    match parse_json("-127") {
        Some(Json::Num(s)) => assert_eq!(s.as_str(), "-127"),
        _ => panic!("expected a number"),
    }
    match parse_json(" [ \"a\" , \"b\" ] ") {
        Some(Json::Arr(items)) => assert_eq!(items.len(), 2),
        _ => panic!("expected an array"),
    }
    match parse_json("{\"a\": {\"b\": []}}") {
        Some(Json::Obj(fields)) => {
            assert_eq!(fields.len(), 1);
            assert_eq!(fields[0].0.as_str(), "a");
        },
        _ => panic!("expected an object"),
    }
    assert!(parse_json("[true] []").is_none());
    assert!(parse_json("\"unterminated").is_none());
    assert!(parse_json("\"back\\\\slash\"").is_none());
    assert!(parse_json("01e5").is_none());
    assert!(parse_json("-").is_none());
    assert!(parse_json("{\"a\" \"b\"}").is_none());
}

#[test]
fn empty_coin_listing_decodes_to_no_coins() {
    assert_eq!(decode_all_coins(" [ ] ").unwrap().len(), 0);
}

#[test]
fn coin_listing_rejects_ill_shaped_entries() {
    assert_eq!(
        decode_all_coins("[{\"coin\":\"BTC\"}]").unwrap_err(),
        Error::Decode
    );
    assert_eq!(
        decode_all_coins("[\"BTC\"]").unwrap_err(),
        Error::Decode
    );
    let body = "[{\"coin\":\"BTC\",\"name\":\"Bitcoin\",\"depositAllEnable\":true,\"withdrawAllEnable\":false,\"networkList\":[\"BTC\",7],\"withdrawFee\":\"0.0005\",\"precision\":8}]";
    assert_eq!(decode_all_coins(body).unwrap_err(), Error::Decode);
}

#[test]
fn empty_asset_detail_body_decodes_to_empty_mapping() {
    let m = decode_asset_details("{}").unwrap();
    assert_eq!(m.len(), 0);
}

#[test]
fn deposit_address_keeps_a_present_tag() {
    let body = "{\"address\":\"r3Adr\",\"coin\":\"XRP\",\"network\":\"XRP\",\"tag\":\"10002\"}";
    let d = decode_deposit_address(body).unwrap();
    assert_eq!(d.tag.as_deref(), Some("10002"));
}

#[test]
fn deposit_address_rejects_non_string_required_fields() {
    let body = "{\"address\":true,\"coin\":\"ETH\",\"network\":\"ETH\"}";
    assert_eq!(decode_deposit_address(body).unwrap_err(), Error::Decode);
}

#[test]
fn unicode_string_content_survives_decoding() {
    let body = "{\"address\":\"адрес-α\",\"coin\":\"ETH\",\"network\":\"ETH\"}";
    let d = decode_deposit_address(body).unwrap();
    assert_eq!(d.address.as_str(), "адрес-α");
}

#[test]
fn lexicographic_order_follows_code_points() {
    assert!(str_lex_lt("z", "é"));
    assert!(!str_lex_lt("é", "z"));
}
