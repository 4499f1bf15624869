//! Signed-request construction: the canonical query text of a
//! parameter set, the appended receive-window and timestamp
//! parameters, and the payload a signing collaborator authenticates.

use vstd::prelude::*;
use vstd::string::StringExecFns;
use crate::params::ParamSet;
use crate::params::ps_contains_key;
use crate::text::spec_dec;
use crate::text::u64_dec;
use crate::text::lemma_dec_injective;
use crate::text::lemma_concat_cancel;

verus! {

/// One parameter rendered as `name=value`.
pub open spec fn pair_text(p: (Seq<char>, Seq<char>)) -> Seq<char> {
    p.0 + seq!['='] + p.1
}

/// A whole parameter set rendered as `a=1&b=2&...`, in insertion
/// order; empty when no parameter is set.
pub open spec fn query_of(s: Seq<(Seq<char>, Seq<char>)>) -> Seq<char>
    decreases s.len(),
{
    if s.len() == 0 {
        Seq::empty()
    } else if s.len() == 1 {
        pair_text(s[0])
    } else {
        query_of(s.drop_last()) + seq!['&'] + pair_text(s.last())
    }
}

/// Renders a parameter set as its canonical query text.
pub fn build_query(params: &ParamSet) -> (r: String)
    ensures
        r@ == query_of(params@),
{
    proof {
        reveal_strlit("&");
        reveal_strlit("=");
    }
    let n: usize = params.len();
    let mut out = String::new();
    let mut i: usize = 0;
    proof {
        assert(params@.subrange(0, 0) =~= Seq::<(Seq<char>, Seq<char>)>::empty());
    }
    while i < n
        invariant
            0 <= i <= n,
            n == params@.len(),
            out@ == query_of(params@.subrange(0, i as int)),
        decreases n - i,
    {
        let ghost prefix = params@.subrange(0, i as int);
        let ghost prefix1 = params@.subrange(0, i as int + 1);
        if i > 0 {
            out.append("&");
        }
        let (key, value) = params.pair_at(i);
        out.append(key.as_str());
        out.append("=");
        out.append(value.as_str());
        proof {
            reveal_strlit("&");
            reveal_strlit("=");
            assert("&"@ =~= seq!['&']);
            assert("="@ =~= seq!['=']);
            assert(prefix1.last() == params@[i as int]);
            assert(prefix1.drop_last() =~= prefix);
            if i == 0 {
                assert(out@ =~= pair_text(params@[0]));
            } else {
                assert(out@ =~= query_of(prefix) + seq!['&'] + pair_text(params@[i as int]));
            }
        }
        i = i + 1;
    }
    proof {
        assert(params@.subrange(0, n as int) =~= params@);
    }
    out
}

/// The remote endpoints this client speaks to.
#[derive(Clone, Copy, PartialEq, Eq, Structural, Debug)]
pub enum Endpoint {
    AllCoins,
    AssetDetail,
    DepositAddress,
}

impl Endpoint {
    /// The fixed request path of this endpoint.
    pub open spec fn spec_path(self) -> Seq<char> {
        match self {
            Endpoint::AllCoins => "/sapi/v1/capital/config/getall"@,
            Endpoint::AssetDetail => "/sapi/v1/asset/assetDetail"@,
            Endpoint::DepositAddress => "/sapi/v1/capital/deposit/address"@,
        }
    }

    /// The fixed request path of this endpoint.
    pub fn path(&self) -> (r: &'static str)
        ensures
            r@ == self.spec_path(),
    {
        match self {
            Endpoint::AllCoins => "/sapi/v1/capital/config/getall",
            Endpoint::AssetDetail => "/sapi/v1/asset/assetDetail",
            Endpoint::DepositAddress => "/sapi/v1/capital/deposit/address",
        }
    }
}

/// The parameter set of a signed request: the caller's parameters with
/// the receive window and the timestamp appended under their fixed
/// keys.
pub open spec fn signed_params(
    s: Seq<(Seq<char>, Seq<char>)>,
    recv_window: u64,
    timestamp: u64,
) -> Seq<(Seq<char>, Seq<char>)> {
    s.push(("recvWindow"@, spec_dec(recv_window as nat))).push(
        ("timestamp"@, spec_dec(timestamp as nat)),
    )
}

/// The exact text a signing collaborator authenticates.
pub open spec fn signed_payload(
    s: Seq<(Seq<char>, Seq<char>)>,
    recv_window: u64,
    timestamp: u64,
) -> Seq<char> {
    query_of(signed_params(s, recv_window, timestamp))
}

/// The caller's parameters survive unchanged, in order, at the front
/// of the signed parameter set; only the two fixed keys follow.
pub proof fn lemma_signed_params_keep_input(
    s: Seq<(Seq<char>, Seq<char>)>,
    recv_window: u64,
    timestamp: u64,
)
    ensures
        signed_params(s, recv_window, timestamp).len() == s.len() + 2,
        signed_params(s, recv_window, timestamp).subrange(0, s.len() as int) == s,
        signed_params(s, recv_window, timestamp)[s.len() as int] == ("recvWindow"@, spec_dec(
            recv_window as nat,
        )),
        signed_params(s, recv_window, timestamp)[s.len() as int + 1] == ("timestamp"@, spec_dec(
            timestamp as nat,
        )),
{
    assert(signed_params(s, recv_window, timestamp).subrange(0, s.len() as int) =~= s);
}

/// A signed parameter set keeps keys pairwise distinct whenever the
/// caller's set had them so and used neither fixed key.
pub proof fn lemma_signed_params_keys_unique(
    s: Seq<(Seq<char>, Seq<char>)>,
    recv_window: u64,
    timestamp: u64,
)
    requires
        crate::params::ps_keys_unique(s),
        !ps_contains_key(s, "recvWindow"@),
        !ps_contains_key(s, "timestamp"@),
    ensures
        crate::params::ps_keys_unique(signed_params(s, recv_window, timestamp)),
{
    reveal_strlit("recvWindow");
    reveal_strlit("timestamp");
    assert("recvWindow"@.len() == 10 && "timestamp"@.len() == 9);
    let a = ("recvWindow"@, spec_dec(recv_window as nat));
    crate::params::lemma_push_keeps_keys_unique(s, "recvWindow"@, spec_dec(recv_window as nat));
    assert(!ps_contains_key(s.push(a), "timestamp"@)) by {
        if ps_contains_key(s.push(a), "timestamp"@) {
            let i = choose|i: int| 0 <= i < s.push(a).len() && s.push(a)[i].0 == "timestamp"@;
            if i < s.len() {
                assert(s[i].0 == "timestamp"@);
                assert(ps_contains_key(s, "timestamp"@));
            }
        }
    }
    crate::params::lemma_push_keeps_keys_unique(
        s.push(a),
        "timestamp"@,
        spec_dec(timestamp as nat),
    );
}

/// A request ready for the transport collaborator: the endpoint it is
/// addressed to, the full query payload to be authenticated, and the
/// timestamp the payload carries.
#[derive(Debug)]
pub struct SignedRequest {
    pub endpoint: Endpoint,
    pub payload: String,
    pub timestamp: u64,
}

/// Builds the signed-request descriptor for one call: renders the
/// parameters, then appends `recvWindow` and `timestamp`.
pub fn build_signed_request(
    endpoint: Endpoint,
    params: &ParamSet,
    recv_window: u64,
    timestamp: u64,
) -> (r: SignedRequest)
    requires
        !ps_contains_key(params@, "recvWindow"@),
        !ps_contains_key(params@, "timestamp"@),
    ensures
        r.endpoint == endpoint,
        r.timestamp == timestamp,
        r.payload@ == signed_payload(params@, recv_window, timestamp),
{
    proof {
        reveal_strlit("&");
        reveal_strlit("=");
        reveal_strlit("recvWindow");
        reveal_strlit("recvWindow=");
        reveal_strlit("timestamp");
        reveal_strlit("&timestamp=");
    }
    let mut payload = build_query(params);
    if params.len() > 0 {
        payload.append("&");
    }
    payload.append("recvWindow=");
    let rw = u64_dec(recv_window);
    payload.append(rw.as_str());
    payload.append("&timestamp=");
    let ts = u64_dec(timestamp);
    payload.append(ts.as_str());
    proof {
        let s = params@;
        let a = ("recvWindow"@, spec_dec(recv_window as nat));
        let b = ("timestamp"@, spec_dec(timestamp as nat));
        let sp = signed_params(s, recv_window, timestamp);
        assert(sp.len() == s.len() + 2);
        assert(sp.drop_last() =~= s.push(a));
        assert(sp.last() == b);
        assert(query_of(sp) == query_of(s.push(a)) + seq!['&'] + pair_text(b));
        if s.len() == 0 {
            assert(s.push(a).len() == 1);
            assert(s.push(a)[0] == a);
            assert(query_of(s.push(a)) == pair_text(a));
        } else {
            assert(s.push(a).drop_last() =~= s);
            assert(s.push(a).last() == a);
            assert(query_of(s.push(a)) == query_of(s) + seq!['&'] + pair_text(a));
        }
        assert("recvWindow="@ =~= "recvWindow"@ + seq!['=']);
        assert("&timestamp="@ =~= seq!['&'] + ("timestamp"@ + seq!['=']));
        assert("&"@ =~= seq!['&']);
        assert(payload@ =~= signed_payload(s, recv_window, timestamp));
    }
    SignedRequest { endpoint, payload, timestamp }
}

/// Distinct timestamps give distinct signed payloads: no two calls
/// ever share a signed request, however equal their inputs.
pub proof fn lemma_signed_payloads_differ(
    s: Seq<(Seq<char>, Seq<char>)>,
    recv_window: u64,
    t1: u64,
    t2: u64,
)
    requires
        t1 != t2,
    ensures
        signed_payload(s, recv_window, t1) != signed_payload(s, recv_window, t2),
{
    let a = ("recvWindow"@, spec_dec(recv_window as nat));
    let sp1 = signed_params(s, recv_window, t1);
    let sp2 = signed_params(s, recv_window, t2);
    let head = query_of(s.push(a)) + seq!['&'] + "timestamp"@ + seq!['='];
    assert(sp1.drop_last() =~= s.push(a));
    assert(sp2.drop_last() =~= s.push(a));
    assert(sp1.len() == s.len() + 2);
    assert(sp2.len() == s.len() + 2);
    assert(query_of(sp1) == query_of(s.push(a)) + seq!['&'] + pair_text(sp1.last()));
    assert(query_of(sp2) == query_of(s.push(a)) + seq!['&'] + pair_text(sp2.last()));
    assert(query_of(sp1) =~= head + spec_dec(t1 as nat));
    assert(query_of(sp2) =~= head + spec_dec(t2 as nat));
    if signed_payload(s, recv_window, t1) == signed_payload(s, recv_window, t2) {
        lemma_concat_cancel(head, spec_dec(t1 as nat), spec_dec(t2 as nat));
        lemma_dec_injective(t1 as nat, t2 as nat);
        assert(false);
    }
}

/// Two signed requests built over one parameter set at distinct
/// timestamps are distinct, payloads included: repeating a call never
/// reuses a request.
pub proof fn lemma_requests_independent(
    r1: SignedRequest,
    r2: SignedRequest,
    s: Seq<(Seq<char>, Seq<char>)>,
    recv_window: u64,
)
    requires
        r1.payload@ == signed_payload(s, recv_window, r1.timestamp),
        r2.payload@ == signed_payload(s, recv_window, r2.timestamp),
        r1.timestamp != r2.timestamp,
    ensures
        r1.payload@ != r2.payload@,
        r1 != r2,
{
    lemma_signed_payloads_differ(s, recv_window, r1.timestamp, r2.timestamp);
}

} // verus!
