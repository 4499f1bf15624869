use savings::errors::{Error, TransportReply};
use savings::savings::{Client, Savings};
use savings::sign::Endpoint;

fn client() -> Savings {
    Savings::new(
        Client::new("api-key".to_string(), "secret".to_string()),
        5,
    )
}

fn keyless() -> Savings {
    Savings::new(Client::new("api-key".to_string(), String::new()), 5)
}

#[test]
fn all_coins_request_payload() {
    let s = client();
    let r = s.get_all_coins_request(123).unwrap();
    assert_eq!(r.endpoint, Endpoint::AllCoins);
    assert_eq!(r.timestamp, 123);
    assert_eq!(r.payload.as_str(), "recvWindow=5&timestamp=123");
}

#[test]
fn asset_detail_request_omits_absent_filter() {
    let s = client();
    let r = s.asset_detail_request(None, 7).unwrap();
    assert_eq!(r.endpoint, Endpoint::AssetDetail);
    assert_eq!(r.payload.as_str(), "recvWindow=5&timestamp=7");
    assert!(!r.payload.contains("asset"));
}

#[test]
fn asset_detail_request_carries_present_filter() {
    let s = client();
    let r = s.asset_detail_request(Some("BTC".to_string()), 7).unwrap();
    assert_eq!(r.payload.as_str(), "asset=BTC&recvWindow=5&timestamp=7");
}

#[test]
fn deposit_address_request_omits_absent_network() {
    let s = client();
    let r = s.deposit_address_request("ETH".to_string(), None, 9).unwrap();
    assert_eq!(r.endpoint, Endpoint::DepositAddress);
    assert_eq!(r.payload.as_str(), "coin=ETH&recvWindow=5&timestamp=9");
    assert!(!r.payload.contains("network"));
}

#[test]
fn deposit_address_request_carries_present_network() {
    let s = client();
    let r = s
        .deposit_address_request("ETH".to_string(), Some("BSC".to_string()), 9)
        .unwrap();
    assert_eq!(r.payload.as_str(), "coin=ETH&network=BSC&recvWindow=5&timestamp=9");
}

#[test]
fn distinct_timestamps_give_distinct_requests() {
    let s = client();
    let r1 = s.get_all_coins_request(1000).unwrap();
    let r2 = s.get_all_coins_request(1001).unwrap();
    assert_ne!(r1.timestamp, r2.timestamp);
    assert_ne!(r1.payload, r2.payload);
    let d1 = s
        .deposit_address_request("ETH".to_string(), None, 42)
        .unwrap();
    let d2 = s
        .deposit_address_request("ETH".to_string(), None, 43)
        .unwrap();
    assert_ne!(d1.payload, d2.payload);
}

#[test]
fn missing_secret_is_an_auth_error() {
    let s = keyless();
    assert_eq!(s.get_all_coins_request(1).unwrap_err(), Error::Auth);
    assert_eq!(s.asset_detail_request(None, 1).unwrap_err(), Error::Auth);
    assert_eq!(
        s.deposit_address_request("ETH".to_string(), None, 1).unwrap_err(),
        Error::Auth
    );
    let reply = TransportReply::Body("[]".to_string());
    assert_eq!(s.get_all_coins(1, &reply).unwrap_err(), Error::Auth);
    assert_eq!(s.asset_detail(None, 1, &reply).unwrap_err(), Error::Auth);
    assert_eq!(
        s.deposit_address("ETH".to_string(), None, 1, &reply).unwrap_err(),
        Error::Auth
    );
}

#[test]
fn failed_transport_is_propagated() {
    let s = client();
    let reply = TransportReply::Failed;
    assert_eq!(s.get_all_coins(1, &reply).unwrap_err(), Error::Transport);
    assert_eq!(s.asset_detail(None, 1, &reply).unwrap_err(), Error::Transport);
    assert_eq!(
        s.deposit_address("ETH".to_string(), None, 1, &reply).unwrap_err(),
        Error::Transport
    );
}

#[test]
fn endpoint_paths_are_fixed() {
    assert_eq!(Endpoint::AllCoins.path(), "/sapi/v1/capital/config/getall");
    assert_eq!(Endpoint::AssetDetail.path(), "/sapi/v1/asset/assetDetail");
    assert_eq!(
        Endpoint::DepositAddress.path(),
        "/sapi/v1/capital/deposit/address"
    );
}

#[test]
fn get_all_coins_decodes_known_body() {
    let s = client();
    let body = "[{\"coin\":\"BTC\",\"name\":\"Bitcoin\",\"depositAllEnable\":true,\"withdrawAllEnable\":false,\"networkList\":[\"BTC\",\"BSC\"],\"withdrawFee\":\"0.0005\",\"precision\":8}]";
    let reply = TransportReply::Body(body.to_string());
    let coins = s.get_all_coins(1, &reply).unwrap();
    assert_eq!(coins.len(), 1);
    assert_eq!(coins[0].coin.as_str(), "BTC");
    assert_eq!(coins[0].name.as_str(), "Bitcoin");
    assert!(coins[0].deposit_all_enable);
    assert!(!coins[0].withdraw_all_enable);
    assert_eq!(coins[0].network_list, vec!["BTC".to_string(), "BSC".to_string()]);
    assert_eq!(coins[0].withdraw_fee.as_str(), "0.0005");
    assert_eq!(coins[0].precision.as_str(), "8");
}

#[test]
fn deposit_address_decodes_known_body() {
    let s = client();
    let reply = TransportReply::Body(
        "{\"address\":\"0xabc\",\"coin\":\"ETH\",\"network\":\"ETH\"}".to_string(),
    );
    let addr = s
        .deposit_address("ETH".to_string(), None, 1, &reply)
        .unwrap();
    assert_eq!(addr.address.as_str(), "0xabc");
    assert_eq!(addr.coin.as_str(), "ETH");
    assert_eq!(addr.network.as_str(), "ETH");
    assert_eq!(addr.tag, None);
}

#[test]
fn deposit_address_error_envelope_is_not_found() {
    let s = client();
    let reply =
        TransportReply::Body("{\"code\":-9106,\"msg\":\"no such coin\"}".to_string());
    assert_eq!(
        s.deposit_address("NOPE".to_string(), None, 1, &reply).unwrap_err(),
        Error::NotFound
    );
}

#[test]
fn malformed_body_is_a_decode_error() {
    let s = client();
    for bad in [
        "",
        "{",
        "[1,]",
        "tru",
        "{\"a\":}",
        "{} trailing",
        "[\"a\\\"b\"]",
        "{\"address\":\"x\"}",
    ] {
        let reply = TransportReply::Body(bad.to_string());
        assert_eq!(
            s.deposit_address("ETH".to_string(), None, 1, &reply).unwrap_err(),
            Error::Decode,
            "body {:?} should fail to decode",
            bad
        );
    }
    let reply = TransportReply::Body("{}".to_string());
    assert_eq!(s.get_all_coins(1, &reply).unwrap_err(), Error::Decode);
    let reply = TransportReply::Body("[]".to_string());
    assert_eq!(s.asset_detail(None, 1, &reply).unwrap_err(), Error::Decode);
}

#[test]
fn asset_detail_sorts_by_symbol_regardless_of_response_order() {
    let s = client();
    let detail = |sym: &str| {
        format!(
            "\"{}\":{{\"minWithdrawAmount\":\"0.1\",\"depositStatus\":true,\"withdrawFee\":\"0.01\",\"withdrawStatus\":true}}",
            sym
        )
    };
    let body1 = format!("{{{},{},{}}}", detail("CTC"), detail("ATC"), detail("BTC"));
    let body2 = format!("{{{},{},{}}}", detail("BTC"), detail("CTC"), detail("ATC"));
    let m1 = s
        .asset_detail(None, 1, &TransportReply::Body(body1))
        .unwrap();
    let m2 = s
        .asset_detail(None, 1, &TransportReply::Body(body2))
        .unwrap();
    assert_eq!(m1.len(), 3);
    assert_eq!(m1.entry_at(0).0.as_str(), "ATC");
    assert_eq!(m1.entry_at(1).0.as_str(), "BTC");
    assert_eq!(m1.entry_at(2).0.as_str(), "CTC");
    for i in 0..3 {
        assert_eq!(m1.entry_at(i).0, m2.entry_at(i).0);
        assert_eq!(m1.entry_at(i).1, m2.entry_at(i).1);
    }
}

#[test]
fn asset_detail_decodes_fields_and_optional_tip() {
    let s = client();
    let body = "{\"BTC\":{\"minWithdrawAmount\":\"0.001\",\"depositStatus\":false,\"withdrawFee\":\"0.0005\",\"withdrawStatus\":true,\"depositTip\":\"wallet maintenance\"},\"ETH\":{\"minWithdrawAmount\":\"0.02\",\"depositStatus\":true,\"withdrawFee\":\"0.003\",\"withdrawStatus\":false,\"depositTip\":null}}";
    let m = s
        .asset_detail(None, 1, &TransportReply::Body(body.to_string()))
        .unwrap();
    let btc = m.get("BTC").unwrap();
    assert_eq!(btc.min_withdraw_amount.as_str(), "0.001");
    assert!(!btc.deposit_status);
    assert_eq!(btc.withdraw_fee.as_str(), "0.0005");
    assert!(btc.withdraw_status);
    assert_eq!(btc.deposit_tip.as_deref(), Some("wallet maintenance"));
    let eth = m.get("ETH").unwrap();
    assert_eq!(eth.deposit_tip, None);
    assert!(m.get("DOGE").is_none());
}

#[test]
fn asset_detail_duplicate_symbol_last_wins() {
    let s = client();
    let body = "{\"BTC\":{\"minWithdrawAmount\":\"0.1\",\"depositStatus\":true,\"withdrawFee\":\"0.1\",\"withdrawStatus\":true},\"BTC\":{\"minWithdrawAmount\":\"0.2\",\"depositStatus\":false,\"withdrawFee\":\"0.2\",\"withdrawStatus\":false}}";
    let m = s
        .asset_detail(None, 1, &TransportReply::Body(body.to_string()))
        .unwrap();
    assert_eq!(m.len(), 1);
    assert_eq!(m.get("BTC").unwrap().min_withdraw_amount.as_str(), "0.2");
}

#[test]
fn extreme_timestamps_render_in_full() {
    let s = Savings::new(Client::new("k".to_string(), "s".to_string()), 0);
    let r = s.get_all_coins_request(0).unwrap();
    assert_eq!(r.payload.as_str(), "recvWindow=0&timestamp=0");
    let r = s.get_all_coins_request(u64::MAX).unwrap();
    assert_eq!(
        r.payload.as_str(),
        "recvWindow=0&timestamp=18446744073709551615"
    );
}
