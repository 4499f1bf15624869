//! The endpoint client: one method per wallet endpoint. Each call
//! assembles its parameter set, has it signed with the configured
//! receive window and the caller's timestamp, and decodes what the
//! transport collaborator handed back.
//!
//! Timestamps and transport replies come in as arguments: the clock
//! and the network are the collaborators' business, and every
//! decision this client takes is a function of plain values.

use vstd::prelude::*;
use vstd::string::StringExecFns;
use crate::decode::decode_all_coins;
use crate::decode::decode_asset_details;
use crate::decode::decode_deposit_address;
use crate::decode::spec_decode_all_coins;
use crate::decode::spec_decode_asset_detail;
use crate::decode::spec_decode_deposit_address;
use crate::errors::Error;
use crate::errors::TransportReply;
use crate::model::AssetDetailMap;
use crate::model::AssetDetailV;
use crate::model::CoinInfo;
use crate::model::CoinInfoV;
use crate::model::DepositAddress;
use crate::model::DepositAddressV;
use crate::model::sorted_by_symbol;
use crate::model::symbol_map;
use crate::params::ParamSet;
use crate::params::ps_contains_key;
use crate::params::ps_get;
use crate::sign::Endpoint;
use crate::sign::SignedRequest;
use crate::sign::build_signed_request;
use crate::sign::signed_payload;

verus! {

/// Shared connection and authentication configuration: the API key
/// presented to the service and the secret the signer signs with.
#[derive(Clone)]
pub struct Client {
    pub api_key: String,
    pub secret_key: String,
}

impl Client {
    /// Signing needs a secret: with none configured, every signing
    /// attempt is a credential failure.
    pub open spec fn can_sign(self) -> bool {
        self.secret_key@.len() > 0
    }

    pub fn new(api_key: String, secret_key: String) -> (r: Client)
        ensures
            r.api_key == api_key,
            r.secret_key == secret_key,
    {
        Client { api_key, secret_key }
    }
}

/// The parameter set of the coin-listing call: empty.
pub open spec fn spec_all_coins_params() -> Seq<(Seq<char>, Seq<char>)> {
    Seq::empty()
}

/// The parameter set of the asset-detail call: the optional asset
/// filter under its fixed key, or nothing at all.
pub open spec fn spec_asset_detail_params(asset: Option<Seq<char>>) -> Seq<
    (Seq<char>, Seq<char>),
> {
    match asset {
        None => Seq::empty(),
        Some(a) => seq![("asset"@, a)],
    }
}

/// The parameter set of the deposit-address call: the coin always,
/// the network only when one is named.
pub open spec fn spec_deposit_address_params(coin: Seq<char>, network: Option<Seq<char>>) -> Seq<
    (Seq<char>, Seq<char>),
> {
    match network {
        None => seq![("coin"@, coin)],
        Some(n) => seq![("coin"@, coin), ("network"@, n)],
    }
}

/// An omitted optional parameter leaves no trace: no key, no empty
/// entry.
pub proof fn lemma_omitted_optional_absent(coin: Seq<char>)
    ensures
        !ps_contains_key(spec_asset_detail_params(None), "asset"@),
        !ps_contains_key(spec_deposit_address_params(coin, None), "network"@),
{
    reveal_strlit("asset");
    reveal_strlit("coin");
    reveal_strlit("network");
    let s = spec_deposit_address_params(coin, None);
    assert(s.len() == 1);
    assert(s[0].0 == "coin"@);
    assert("coin"@.len() == 4 && "network"@.len() == 7);
}

/// A present optional parameter is carried exactly as given, under
/// its fixed key; so are the required ones.
pub proof fn lemma_present_optional_kept(
    asset: Seq<char>,
    coin: Seq<char>,
    network: Seq<char>,
)
    ensures
        ps_get(spec_asset_detail_params(Some(asset)), "asset"@) == Some(asset),
        ps_get(spec_deposit_address_params(coin, Some(network)), "network"@) == Some(network),
        ps_get(spec_deposit_address_params(coin, Some(network)), "coin"@) == Some(coin),
        ps_get(spec_deposit_address_params(coin, None), "coin"@) == Some(coin),
        ps_contains_key(spec_asset_detail_params(Some(asset)), "asset"@),
        ps_contains_key(spec_deposit_address_params(coin, Some(network)), "network"@),
{
    reveal_strlit("asset");
    reveal_strlit("coin");
    reveal_strlit("network");
    crate::params::lemma_ps_get_some(spec_asset_detail_params(Some(asset)), "asset"@);
    crate::params::lemma_ps_get_some(
        spec_deposit_address_params(coin, Some(network)),
        "network"@,
    );
    assert("coin"@.len() == 4 && "network"@.len() == 7);
    let s1 = spec_asset_detail_params(Some(asset));
    assert(s1[0].0 == "asset"@ && s1[0].1 == asset);
    let s2 = spec_deposit_address_params(coin, Some(network));
    assert(s2[0] == ("coin"@, coin) && s2[1] == ("network"@, network));
    let d = s2.drop_first();
    assert(d.len() == 1);
    assert(d[0] == ("network"@, network));
    assert(ps_get(d, "network"@) == Some(network));
    let s3 = spec_deposit_address_params(coin, None);
    assert(s3[0] == ("coin"@, coin));
}

/// Keys used by the calls never collide with the two the signer
/// appends.
proof fn lemma_params_leave_signing_keys_free(s: Seq<(Seq<char>, Seq<char>)>)
    requires
        forall|i: int| 0 <= i < s.len() ==> (#[trigger] s[i].0).len() < 9,
    ensures
        !ps_contains_key(s, "recvWindow"@),
        !ps_contains_key(s, "timestamp"@),
{
    reveal_strlit("recvWindow");
    reveal_strlit("timestamp");
    assert("recvWindow"@.len() == 10 && "timestamp"@.len() == 9);
}

/// The savings/wallet endpoint client.
#[derive(Clone)]
pub struct Savings {
    pub client: Client,
    pub recv_window: u64,
}

impl Savings {
    pub fn new(client: Client, recv_window: u64) -> (r: Savings)
        ensures
            r.client == client,
            r.recv_window == recv_window,
    {
        Savings { client, recv_window }
    }

    /// The signed request of a coin-listing call made at `timestamp`.
    pub fn get_all_coins_request(&self, timestamp: u64) -> (r: Result<SignedRequest, Error>)
        ensures
            match r {
                Ok(sr) => self.client.can_sign() && sr.endpoint == Endpoint::AllCoins
                    && sr.timestamp == timestamp && sr.payload@ == signed_payload(
                    spec_all_coins_params(),
                    self.recv_window,
                    timestamp,
                ),
                Err(e) => !self.client.can_sign() && e == Error::Auth,
            },
    {
        if self.client.secret_key.as_str().is_empty() {
            return Err(Error::Auth);
        }
        let params = ParamSet::new();
        proof {
            lemma_params_leave_signing_keys_free(params@);
        }
        Ok(build_signed_request(Endpoint::AllCoins, &params, self.recv_window, timestamp))
    }

    /// Lists every asset available for deposit and withdrawal, as
    /// decoded from the transport collaborator's reply to the signed
    /// request of `get_all_coins_request`.
    pub fn get_all_coins(&self, timestamp: u64, reply: &TransportReply) -> (r: Result<
        Vec<CoinInfo>,
        Error,
    >)
        ensures
            !self.client.can_sign() ==> r == Err::<Vec<CoinInfo>, Error>(Error::Auth),
            self.client.can_sign() ==> match reply {
                TransportReply::Failed => r == Err::<Vec<CoinInfo>, Error>(Error::Transport),
                TransportReply::Body(b) => match r {
                    Ok(v) => spec_decode_all_coins(b@) == Ok::<Seq<CoinInfoV>, Error>(
                        Seq::new(v@.len(), |i: int| v@[i]@),
                    ),
                    Err(e) => spec_decode_all_coins(b@) == Err::<Seq<CoinInfoV>, Error>(e),
                },
            },
    {
        match self.get_all_coins_request(timestamp) {
            Err(e) => Err(e),
            Ok(_request) => match reply {
                TransportReply::Failed => Err(Error::Transport),
                TransportReply::Body(b) => decode_all_coins(b.as_str()),
            },
        }
    }

    /// The signed request of an asset-detail call made at `timestamp`,
    /// with the optional single-asset filter.
    pub fn asset_detail_request(&self, asset: Option<String>, timestamp: u64) -> (r: Result<
        SignedRequest,
        Error,
    >)
        ensures
            match r {
                Ok(sr) => self.client.can_sign() && sr.endpoint == Endpoint::AssetDetail
                    && sr.timestamp == timestamp && sr.payload@ == signed_payload(
                    spec_asset_detail_params(
                        match asset {
                            Some(a) => Some(a@),
                            None => None,
                        },
                    ),
                    self.recv_window,
                    timestamp,
                ),
                Err(e) => !self.client.can_sign() && e == Error::Auth,
            },
    {
        if self.client.secret_key.as_str().is_empty() {
            return Err(Error::Auth);
        }
        let mut params = ParamSet::new();
        match asset {
            Some(a) => {
                params.insert(String::from_str("asset"), a);
                proof {
                    reveal_strlit("asset");
                    assert("asset"@.len() == 5);
                }
            },
            None => (),
        }
        proof {
            lemma_params_leave_signing_keys_free(params@);
            assert(params@ =~= spec_asset_detail_params(
                match asset {
                    Some(a) => Some(a@),
                    None => None,
                },
            ));
        }
        Ok(build_signed_request(Endpoint::AssetDetail, &params, self.recv_window, timestamp))
    }

    /// Fetches details of supported assets, sorted by symbol, as
    /// decoded from the reply to the signed request of
    /// `asset_detail_request`.
    pub fn asset_detail(&self, asset: Option<String>, timestamp: u64, reply: &TransportReply) -> (r:
        Result<AssetDetailMap, Error>)
        ensures
            !self.client.can_sign() ==> r == Err::<AssetDetailMap, Error>(Error::Auth),
            self.client.can_sign() ==> match reply {
                TransportReply::Failed => r == Err::<AssetDetailMap, Error>(Error::Transport),
                TransportReply::Body(b) => match r {
                    Ok(m) => sorted_by_symbol(m@) && spec_decode_asset_detail(b@) == Ok::<
                        Map<Seq<char>, AssetDetailV>,
                        Error,
                    >(symbol_map(m@)),
                    Err(e) => spec_decode_asset_detail(b@) == Err::<
                        Map<Seq<char>, AssetDetailV>,
                        Error,
                    >(e),
                },
            },
    {
        match self.asset_detail_request(asset, timestamp) {
            Err(e) => Err(e),
            Ok(_request) => match reply {
                TransportReply::Failed => Err(Error::Transport),
                TransportReply::Body(b) => decode_asset_details(b.as_str()),
            },
        }
    }

    /// The signed request of a deposit-address call made at
    /// `timestamp`: the coin always, the network only when named.
    pub fn deposit_address_request(
        &self,
        coin: String,
        network: Option<String>,
        timestamp: u64,
    ) -> (r: Result<SignedRequest, Error>)
        ensures
            match r {
                Ok(sr) => self.client.can_sign() && sr.endpoint == Endpoint::DepositAddress
                    && sr.timestamp == timestamp && sr.payload@ == signed_payload(
                    spec_deposit_address_params(
                        coin@,
                        match network {
                            Some(n) => Some(n@),
                            None => None,
                        },
                    ),
                    self.recv_window,
                    timestamp,
                ),
                Err(e) => !self.client.can_sign() && e == Error::Auth,
            },
    {
        if self.client.secret_key.as_str().is_empty() {
            return Err(Error::Auth);
        }
        let mut params = ParamSet::new();
        params.insert(String::from_str("coin"), coin);
        proof {
            reveal_strlit("coin");
            reveal_strlit("network");
            assert("coin"@.len() == 4 && "network"@.len() == 7);
        }
        match network {
            Some(n) => {
                params.insert(String::from_str("network"), n);
            },
            None => (),
        }
        proof {
            lemma_params_leave_signing_keys_free(params@);
            assert(params@ =~= spec_deposit_address_params(
                coin@,
                match network {
                    Some(n) => Some(n@),
                    None => None,
                },
            ));
        }
        Ok(build_signed_request(Endpoint::DepositAddress, &params, self.recv_window, timestamp))
    }

    /// Fetches the deposit address of a coin, on the named network or
    /// the default one, as decoded from the reply to the signed
    /// request of `deposit_address_request`.
    pub fn deposit_address(
        &self,
        coin: String,
        network: Option<String>,
        timestamp: u64,
        reply: &TransportReply,
    ) -> (r: Result<DepositAddress, Error>)
        ensures
            !self.client.can_sign() ==> r == Err::<DepositAddress, Error>(Error::Auth),
            self.client.can_sign() ==> match reply {
                TransportReply::Failed => r == Err::<DepositAddress, Error>(Error::Transport),
                TransportReply::Body(b) => match r {
                    Ok(d) => spec_decode_deposit_address(b@) == Ok::<DepositAddressV, Error>(d@),
                    Err(e) => spec_decode_deposit_address(b@) == Err::<DepositAddressV, Error>(e),
                },
            },
    {
        match self.deposit_address_request(coin, network, timestamp) {
            Err(e) => Err(e),
            Ok(_request) => match reply {
                TransportReply::Failed => Err(Error::Transport),
                TransportReply::Body(b) => decode_deposit_address(b.as_str()),
            },
        }
    }
}

} // verus!
