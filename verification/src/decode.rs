//! Decoding of the endpoints' JSON response bodies into typed
//! records. A body outside the expected schema is a `Decode` failure;
//! no field is ever silently defaulted.

use vstd::prelude::*;
use crate::errors::Error;
use crate::json::Json;
use crate::json::JsonV;
use crate::json::fields_view;
use crate::json::items_view;
use crate::json::parse_json;
use crate::json::spec_parse_json;
use crate::model::AssetDetail;
use crate::model::AssetDetailV;
use crate::model::AssetDetailMap;
use crate::model::CoinInfo;
use crate::model::CoinInfoV;
use crate::model::DepositAddress;
use crate::model::DepositAddressV;
use crate::model::sorted_by_symbol;
use crate::model::symbol_map;
use crate::text::str_eq;

verus! {

/// The value under the first field named `k`.
pub open spec fn spec_obj_get(fs: Seq<(Seq<char>, JsonV)>, k: Seq<char>) -> Option<JsonV>
    decreases fs.len(),
{
    if fs.len() == 0 {
        None
    } else if fs[0].0 == k {
        Some(fs[0].1)
    } else {
        spec_obj_get(fs.drop_first(), k)
    }
}

/// A required string field.
pub open spec fn str_field(fs: Seq<(Seq<char>, JsonV)>, k: Seq<char>) -> Option<Seq<char>> {
    match spec_obj_get(fs, k) {
        Some(JsonV::Str(t)) => Some(t),
        _ => None,
    }
}

/// A required boolean field.
pub open spec fn bool_field(fs: Seq<(Seq<char>, JsonV)>, k: Seq<char>) -> Option<bool> {
    match spec_obj_get(fs, k) {
        Some(JsonV::Bool(b)) => Some(b),
        _ => None,
    }
}

/// A required number field, kept as its literal text.
pub open spec fn num_field(fs: Seq<(Seq<char>, JsonV)>, k: Seq<char>) -> Option<Seq<char>> {
    match spec_obj_get(fs, k) {
        Some(JsonV::Num(t)) => Some(t),
        _ => None,
    }
}

/// An optional string field: absent or `null` is an absent value,
/// any other non-string shape is a schema mismatch (the outer
/// `Option` is `None`).
pub open spec fn opt_str_field(fs: Seq<(Seq<char>, JsonV)>, k: Seq<char>) -> Option<
    Option<Seq<char>>,
> {
    match spec_obj_get(fs, k) {
        None => Some(None),
        Some(JsonV::Null) => Some(None),
        Some(JsonV::Str(t)) => Some(Some(t)),
        Some(_) => None,
    }
}

/// The contents of an array of strings.
pub open spec fn str_items(items: Seq<JsonV>) -> Option<Seq<Seq<char>>>
    decreases items.len(),
{
    if items.len() == 0 {
        Some(Seq::empty())
    } else {
        match items[0] {
            JsonV::Str(t) => match str_items(items.drop_first()) {
                Some(r) => Some(seq![t] + r),
                None => None,
            },
            _ => None,
        }
    }
}

/// A required field holding an array of strings.
pub open spec fn str_arr_field(fs: Seq<(Seq<char>, JsonV)>, k: Seq<char>) -> Option<
    Seq<Seq<char>>,
> {
    match spec_obj_get(fs, k) {
        Some(JsonV::Arr(items)) => str_items(items),
        _ => None,
    }
}

/// The coin record an object denotes, if it fits the schema.
pub open spec fn spec_coin_info(v: JsonV) -> Option<CoinInfoV> {
    match v {
        JsonV::Obj(fs) => match (
            str_field(fs, "coin"@),
            str_field(fs, "name"@),
            bool_field(fs, "depositAllEnable"@),
            bool_field(fs, "withdrawAllEnable"@),
            str_arr_field(fs, "networkList"@),
            str_field(fs, "withdrawFee"@),
            num_field(fs, "precision"@),
        ) {
            (Some(coin), Some(name), Some(de), Some(we), Some(nl), Some(wf), Some(pr)) => Some(
                CoinInfoV {
                    coin: coin,
                    name: name,
                    deposit_all_enable: de,
                    withdraw_all_enable: we,
                    network_list: nl,
                    withdraw_fee: wf,
                    precision: pr,
                },
            ),
            _ => None,
        },
        _ => None,
    }
}

/// The asset-detail record an object denotes, if it fits the schema.
pub open spec fn spec_asset_detail(v: JsonV) -> Option<AssetDetailV> {
    match v {
        JsonV::Obj(fs) => match (
            str_field(fs, "minWithdrawAmount"@),
            bool_field(fs, "depositStatus"@),
            str_field(fs, "withdrawFee"@),
            bool_field(fs, "withdrawStatus"@),
            opt_str_field(fs, "depositTip"@),
        ) {
            (Some(mwa), Some(ds), Some(wf), Some(ws), Some(tip)) => Some(
                AssetDetailV {
                    min_withdraw_amount: mwa,
                    deposit_status: ds,
                    withdraw_fee: wf,
                    withdraw_status: ws,
                    deposit_tip: tip,
                },
            ),
            _ => None,
        },
        _ => None,
    }
}

/// The deposit-address record an object denotes, if it fits the
/// schema.
pub open spec fn spec_deposit_address_record(v: JsonV) -> Option<DepositAddressV> {
    match v {
        JsonV::Obj(fs) => match (
            str_field(fs, "address"@),
            str_field(fs, "coin"@),
            str_field(fs, "network"@),
            opt_str_field(fs, "tag"@),
        ) {
            (Some(address), Some(coin), Some(network), Some(tag)) => Some(
                DepositAddressV { address: address, coin: coin, network: network, tag: tag },
            ),
            _ => None,
        },
        _ => None,
    }
}

/// The coin records an array denotes, in response order.
pub open spec fn spec_coin_list(items: Seq<JsonV>) -> Option<Seq<CoinInfoV>>
    decreases items.len(),
{
    if items.len() == 0 {
        Some(Seq::empty())
    } else {
        match (spec_coin_info(items[0]), spec_coin_list(items.drop_first())) {
            (Some(c), Some(r)) => Some(seq![c] + r),
            _ => None,
        }
    }
}

/// The symbol-to-detail mapping an object's fields denote, a later
/// duplicate winning; nothing when some field is not a detail record.
pub open spec fn spec_asset_details_map(fields: Seq<(Seq<char>, JsonV)>) -> Option<
    Map<Seq<char>, AssetDetailV>,
>
    decreases fields.len(),
{
    if fields.len() == 0 {
        Some(Map::empty())
    } else {
        match (spec_asset_details_map(fields.drop_last()), spec_asset_detail(
            fields.last().1,
        )) {
            (Some(m), Some(d)) => Some(m.insert(fields.last().0, d)),
            _ => None,
        }
    }
}

/// What the coin-listing body decodes to.
pub open spec fn spec_decode_all_coins(body: Seq<char>) -> Result<Seq<CoinInfoV>, Error> {
    match spec_parse_json(body) {
        Some(JsonV::Arr(items)) => match spec_coin_list(items) {
            Some(cs) => Ok(cs),
            None => Err(Error::Decode),
        },
        _ => Err(Error::Decode),
    }
}

/// What the asset-detail body decodes to.
pub open spec fn spec_decode_asset_detail(body: Seq<char>) -> Result<
    Map<Seq<char>, AssetDetailV>,
    Error,
> {
    match spec_parse_json(body) {
        Some(JsonV::Obj(fields)) => match spec_asset_details_map(fields) {
            Some(m) => Ok(m),
            None => Err(Error::Decode),
        },
        _ => Err(Error::Decode),
    }
}

/// What the deposit-address body decodes to. A body carrying the
/// service's error envelope (a `code` field) means the coin/network
/// pair named no resource.
pub open spec fn spec_decode_deposit_address(body: Seq<char>) -> Result<DepositAddressV, Error> {
    match spec_parse_json(body) {
        Some(JsonV::Obj(fields)) => if spec_obj_get(fields, "code"@) is Some {
            Err(Error::NotFound)
        } else {
            match spec_deposit_address_record(JsonV::Obj(fields)) {
                Some(d) => Ok(d),
                None => Err(Error::Decode),
            }
        },
        _ => Err(Error::Decode),
    }
}

fn obj_get<'a>(fields: &'a Vec<(String, Json)>, key: &str) -> (r: Option<&'a Json>)
    ensures
        match r {
            Some(j) => spec_obj_get(fields_view(*fields), key@) == Some(j@),
            None => spec_obj_get(fields_view(*fields), key@) is None,
        },
{
    let ghost fv = fields_view(*fields);
    let n: usize = fields.len();
    let mut i: usize = 0;
    proof {
        assert(fv.skip(0) =~= fv);
    }
    while i < n
        invariant
            0 <= i <= n,
            n == fields@.len(),
            fv == fields_view(*fields),
            spec_obj_get(fv, key@) == spec_obj_get(fv.skip(i as int), key@),
        decreases n - i,
    {
        proof {
            assert(fv.skip(i as int)[0] == fv[i as int]);
            assert(fv.skip(i as int).drop_first() =~= fv.skip(i as int + 1));
        }
        if str_eq(fields[i].0.as_str(), key) {
            return Some(&fields[i].1);
        }
        i = i + 1;
    }
    proof {
        assert(fv.skip(n as int).len() == 0);
    }
    None
}

fn get_str(fields: &Vec<(String, Json)>, key: &str) -> (r: Option<String>)
    ensures
        match r {
            Some(t) => str_field(fields_view(*fields), key@) == Some(t@),
            None => str_field(fields_view(*fields), key@) is None,
        },
{
    match obj_get(fields, key) {
        Some(Json::Str(t)) => Some(t.clone()),
        _ => None,
    }
}

fn get_bool(fields: &Vec<(String, Json)>, key: &str) -> (r: Option<bool>)
    ensures
        match r {
            Some(b) => bool_field(fields_view(*fields), key@) == Some(b),
            None => bool_field(fields_view(*fields), key@) is None,
        },
{
    match obj_get(fields, key) {
        Some(Json::Bool(b)) => Some(*b),
        _ => None,
    }
}

fn get_num_text(fields: &Vec<(String, Json)>, key: &str) -> (r: Option<String>)
    ensures
        match r {
            Some(t) => num_field(fields_view(*fields), key@) == Some(t@),
            None => num_field(fields_view(*fields), key@) is None,
        },
{
    match obj_get(fields, key) {
        Some(Json::Num(t)) => Some(t.clone()),
        _ => None,
    }
}

fn get_opt_str(fields: &Vec<(String, Json)>, key: &str) -> (r: Option<Option<String>>)
    ensures
        match r {
            Some(Some(t)) => opt_str_field(fields_view(*fields), key@) == Some(Some(t@)),
            Some(None) => opt_str_field(fields_view(*fields), key@) == Some(
                None::<Seq<char>>,
            ),
            None => opt_str_field(fields_view(*fields), key@) is None,
        },
{
    match obj_get(fields, key) {
        None => Some(None),
        Some(Json::Null) => Some(None),
        Some(Json::Str(t)) => Some(Some(t.clone())),
        Some(_) => None,
    }
}

/// Every element a string, or nothing.
proof fn lemma_str_items(items: Seq<JsonV>)
    ensures
        (str_items(items) is Some) == (forall|i: int|
            0 <= i < items.len() ==> (#[trigger] items[i]) is Str),
        str_items(items) is Some ==> {
            let r = str_items(items)->Some_0;
            r.len() == items.len() && forall|i: int|
                0 <= i < items.len() ==> r[i] == (#[trigger] items[i])->Str_0
        },
    decreases items.len(),
{
    if items.len() == 0 {
    } else {
        let tail = items.drop_first();
        lemma_str_items(tail);
        assert forall|i: int| 1 <= i < items.len() implies items[i] == tail[i - 1] by {
            assert(tail[i - 1] == items[i]);
        }
        if str_items(items) is Some {
            let r0 = str_items(tail)->Some_0;
            let r = str_items(items)->Some_0;
            assert(r == seq![items[0]->Str_0] + r0);
            assert forall|i: int| 0 <= i < items.len() implies items[i] is Str && r[i] == (
            items[i])->Str_0 by {
                if i >= 1 {
                    assert(tail[i - 1] is Str);
                    assert(r[i] == r0[i - 1]);
                    assert(r0[i - 1] == tail[i - 1]->Str_0);
                }
            }
        } else {
            if items[0] is Str {
                assert(str_items(tail) is None);
                let w = choose|i: int| 0 <= i < tail.len() && !((#[trigger] tail[i]) is Str);
                assert(items[w + 1] == tail[w]);
                assert(!(items[w + 1] is Str));
            }
        }
    }
}

fn get_str_list(fields: &Vec<(String, Json)>, key: &str) -> (r: Option<Vec<String>>)
    ensures
        match r {
            Some(v) => str_arr_field(fields_view(*fields), key@) == Some(
                Seq::new(v@.len(), |i: int| v@[i]@),
            ),
            None => str_arr_field(fields_view(*fields), key@) is None,
        },
{
    match obj_get(fields, key) {
        Some(j) => match j {
            Json::Arr(items) => {
                let ghost iv = items_view(*items);
                proof {
                    assert(j@ == JsonV::Arr(iv));
                    lemma_str_items(iv);
                }
                let n: usize = items.len();
                let mut out: Vec<String> = Vec::new();
                let mut i: usize = 0;
                while i < n
                    invariant
                        0 <= i <= n,
                        n == items@.len(),
                        iv == items_view(*items),
                        str_arr_field(fields_view(*fields), key@) == str_items(iv),
                        out@.len() == i,
                        forall|t: int| 0 <= t < i ==> iv[t] is Str && out@[t]@ == iv[t]->Str_0,
                    decreases n - i,
                {
                    proof {
                        assert(iv[i as int] == items[i as int]@);
                    }
                    match &items[i] {
                        Json::Str(t) => {
                            out.push(t.clone());
                        },
                        _ => {
                            proof {
                                lemma_str_items(iv);
                            }
                            return None;
                        },
                    }
                    i = i + 1;
                }
                proof {
                    assert forall|t: int| 0 <= t < iv.len() implies (#[trigger] iv[t]) is Str by {}
                    lemma_str_items(iv);
                    let r = str_items(iv)->Some_0;
                    assert forall|t: int| 0 <= t < out@.len() implies r[t] == out@[t]@ by {
                        assert(r[t] == iv[t]->Str_0);
                    }
                    assert(r =~= Seq::new(out@.len(), |t: int| out@[t]@));
                }
                Some(out)
            },
            _ => None,
        },
        None => None,
    }
}

/// Decodes one coin record.
pub fn decode_coin_info(j: &Json) -> (r: Option<CoinInfo>)
    ensures
        match r {
            Some(c) => spec_coin_info(j@) == Some(c@),
            None => spec_coin_info(j@) is None,
        },
{
    match j {
        Json::Obj(fields) => {
            proof {
                assert(j@ == JsonV::Obj(fields_view(*fields)));
            }
            let coin = get_str(fields, "coin");
            let name = get_str(fields, "name");
            let de = get_bool(fields, "depositAllEnable");
            let we = get_bool(fields, "withdrawAllEnable");
            let nl = get_str_list(fields, "networkList");
            let wf = get_str(fields, "withdrawFee");
            let pr = get_num_text(fields, "precision");
            match (coin, name, de, we, nl, wf, pr) {
                (Some(coin), Some(name), Some(de), Some(we), Some(nl), Some(wf), Some(pr)) => {
                    let c = CoinInfo {
                        coin,
                        name,
                        deposit_all_enable: de,
                        withdraw_all_enable: we,
                        network_list: nl,
                        withdraw_fee: wf,
                        precision: pr,
                    };
                    proof {
                        assert(c@.network_list =~= spec_coin_info(j@)->Some_0.network_list);
                    }
                    Some(c)
                },
                _ => None,
            }
        },
        _ => None,
    }
}

/// Decodes one asset-detail record.
pub fn decode_asset_detail_record(j: &Json) -> (r: Option<AssetDetail>)
    ensures
        match r {
            Some(d) => spec_asset_detail(j@) == Some(d@),
            None => spec_asset_detail(j@) is None,
        },
{
    match j {
        Json::Obj(fields) => {
            proof {
                assert(j@ == JsonV::Obj(fields_view(*fields)));
            }
            let mwa = get_str(fields, "minWithdrawAmount");
            let ds = get_bool(fields, "depositStatus");
            let wf = get_str(fields, "withdrawFee");
            let ws = get_bool(fields, "withdrawStatus");
            let tip = get_opt_str(fields, "depositTip");
            match (mwa, ds, wf, ws, tip) {
                (Some(mwa), Some(ds), Some(wf), Some(ws), Some(tip)) => Some(
                    AssetDetail {
                        min_withdraw_amount: mwa,
                        deposit_status: ds,
                        withdraw_fee: wf,
                        withdraw_status: ws,
                        deposit_tip: tip,
                    },
                ),
                _ => None,
            }
        },
        _ => None,
    }
}

/// Decodes the whole coin-listing body.
pub fn decode_all_coins(body: &str) -> (r: Result<Vec<CoinInfo>, Error>)
    ensures
        match r {
            Ok(v) => spec_decode_all_coins(body@) == Ok::<Seq<CoinInfoV>, Error>(
                Seq::new(v@.len(), |i: int| v@[i]@),
            ),
            Err(e) => spec_decode_all_coins(body@) == Err::<Seq<CoinInfoV>, Error>(e),
        },
{
    match parse_json(body) {
        None => Err(Error::Decode),
        Some(doc) => match &doc {
            Json::Arr(items) => {
                let ghost iv = items_view(*items);
                proof {
                    assert(doc@ == JsonV::Arr(iv));
                }
                let n: usize = items.len();
                let mut out: Vec<CoinInfo> = Vec::new();
                let mut i: usize = 0;
                while i < n
                    invariant
                        0 <= i <= n,
                        n == items@.len(),
                        iv == items_view(*items),
                        spec_parse_json(body@) == Some(JsonV::Arr(iv)),
                        out@.len() == i,
                        forall|t: int|
                            0 <= t < i ==> spec_coin_info(iv[t]) == Some(#[trigger] out@[t]@),
                    decreases n - i,
                {
                    proof {
                        assert(iv[i as int] == items[i as int]@);
                    }
                    match decode_coin_info(&items[i]) {
                        Some(c) => {
                            out.push(c);
                        },
                        None => {
                            proof {
                                lemma_coin_list(iv);
                            }
                            return Err(Error::Decode);
                        },
                    }
                    i = i + 1;
                }
                proof {
                    assert forall|t: int| 0 <= t < iv.len() implies spec_coin_info(
                        #[trigger] iv[t],
                    ) is Some by {
                        assert(spec_coin_info(iv[t]) == Some(out@[t]@));
                    }
                    lemma_coin_list(iv);
                    let r = spec_coin_list(iv)->Some_0;
                    assert forall|t: int| 0 <= t < out@.len() implies r[t] == out@[t]@ by {
                        assert(Some(r[t]) == spec_coin_info(iv[t]));
                        assert(spec_coin_info(iv[t]) == Some(out@[t]@));
                    }
                    assert(r =~= Seq::new(out@.len(), |t: int| out@[t]@));
                }
                Ok(out)
            },
            _ => Err(Error::Decode),
        },
    }
}

/// Every element a coin record, or nothing.
proof fn lemma_coin_list(items: Seq<JsonV>)
    ensures
        (spec_coin_list(items) is Some) == (forall|i: int|
            0 <= i < items.len() ==> spec_coin_info(#[trigger] items[i]) is Some),
        spec_coin_list(items) is Some ==> {
            let r = spec_coin_list(items)->Some_0;
            r.len() == items.len() && forall|i: int|
                0 <= i < items.len() ==> Some(r[i]) == spec_coin_info(#[trigger] items[i])
        },
    decreases items.len(),
{
    if items.len() == 0 {
    } else {
        let tail = items.drop_first();
        lemma_coin_list(tail);
        assert forall|i: int| 1 <= i < items.len() implies items[i] == tail[i - 1] by {
            assert(tail[i - 1] == items[i]);
        }
        if spec_coin_list(items) is Some {
            let r0 = spec_coin_list(tail)->Some_0;
            let r = spec_coin_list(items)->Some_0;
            assert(r == seq![spec_coin_info(items[0])->Some_0] + r0);
            assert forall|i: int| 0 <= i < items.len() implies spec_coin_info(items[i]) is Some
                && Some(r[i]) == spec_coin_info(items[i]) by {
                if i >= 1 {
                    assert(spec_coin_info(tail[i - 1]) is Some);
                    assert(r[i] == r0[i - 1]);
                    assert(Some(r0[i - 1]) == spec_coin_info(tail[i - 1]));
                }
            }
        } else {
            if spec_coin_info(items[0]) is Some {
                assert(spec_coin_list(tail) is None);
                let w = choose|i: int|
                    0 <= i < tail.len() && !(spec_coin_info(#[trigger] tail[i]) is Some);
                assert(items[w + 1] == tail[w]);
                assert(!(spec_coin_info(items[w + 1]) is Some));
            }
        }
    }
}

/// Decodes the whole asset-detail body into the sorted mapping.
pub fn decode_asset_details(body: &str) -> (r: Result<AssetDetailMap, Error>)
    ensures
        match r {
            Ok(m) => sorted_by_symbol(m@) && spec_decode_asset_detail(body@) == Ok::<
                Map<Seq<char>, AssetDetailV>,
                Error,
            >(symbol_map(m@)),
            Err(e) => spec_decode_asset_detail(body@) == Err::<
                Map<Seq<char>, AssetDetailV>,
                Error,
            >(e),
        },
{
    match parse_json(body) {
        None => Err(Error::Decode),
        Some(doc) => match &doc {
            Json::Obj(fields) => {
                let ghost fv = fields_view(*fields);
                proof {
                    assert(doc@ == JsonV::Obj(fv));
                }
                let n: usize = fields.len();
                let mut out = AssetDetailMap::new();
                let mut i: usize = 0;
                proof {
                    assert(fv.subrange(0, 0) =~= Seq::<(Seq<char>, JsonV)>::empty());
                }
                while i < n
                    invariant
                        0 <= i <= n,
                        n == fields@.len(),
                        fv == fields_view(*fields),
                        spec_parse_json(body@) == Some(JsonV::Obj(fv)),
                        sorted_by_symbol(out@),
                        spec_asset_details_map(fv.subrange(0, i as int)) == Some(symbol_map(out@)),
                    decreases n - i,
                {
                    proof {
                        assert(fv[i as int] == (fields[i as int].0@, fields[i as int].1@));
                        assert(fv.subrange(0, i as int + 1).drop_last() =~= fv.subrange(
                            0,
                            i as int,
                        ));
                        assert(fv.subrange(0, i as int + 1).last() == fv[i as int]);
                    }
                    match decode_asset_detail_record(&fields[i].1) {
                        Some(d) => {
                            out.insert(fields[i].0.clone(), d);
                        },
                        None => {
                            proof {
                                lemma_details_map_fails(fv, i as int);
                            }
                            return Err(Error::Decode);
                        },
                    }
                    i = i + 1;
                }
                proof {
                    assert(fv.subrange(0, n as int) =~= fv);
                }
                Ok(out)
            },
            _ => Err(Error::Decode),
        },
    }
}

/// One ill-shaped field spoils the whole mapping.
proof fn lemma_details_map_fails(fields: Seq<(Seq<char>, JsonV)>, i: int)
    requires
        0 <= i < fields.len(),
        spec_asset_detail(fields[i].1) is None,
    ensures
        spec_asset_details_map(fields) is None,
    decreases fields.len(),
{
    if fields.len() > 0 {
        if i == fields.len() - 1 {
        } else {
            assert(fields.drop_last()[i] == fields[i]);
            lemma_details_map_fails(fields.drop_last(), i);
        }
    }
}

/// Decodes the deposit-address body.
pub fn decode_deposit_address(body: &str) -> (r: Result<DepositAddress, Error>)
    ensures
        match r {
            Ok(d) => spec_decode_deposit_address(body@) == Ok::<DepositAddressV, Error>(d@),
            Err(e) => spec_decode_deposit_address(body@) == Err::<DepositAddressV, Error>(e),
        },
{
    match parse_json(body) {
        None => Err(Error::Decode),
        Some(doc) => match &doc {
            Json::Obj(fields) => {
                proof {
                    assert(doc@ == JsonV::Obj(fields_view(*fields)));
                }
                match obj_get(fields, "code") {
                    Some(_) => Err(Error::NotFound),
                    None => {
                        let address = get_str(fields, "address");
                        let coin = get_str(fields, "coin");
                        let network = get_str(fields, "network");
                        let tag = get_opt_str(fields, "tag");
                        match (address, coin, network, tag) {
                            (Some(address), Some(coin), Some(network), Some(tag)) => Ok(
                                DepositAddress { address, coin, network, tag },
                            ),
                            _ => Err(Error::Decode),
                        }
                    },
                }
            },
            _ => Err(Error::Decode),
        },
    }
}

} // verus!
