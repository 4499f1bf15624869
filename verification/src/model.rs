//! The typed records the endpoints answer with, and the sorted
//! symbol-keyed mapping that asset details are returned in.

use vstd::prelude::*;
use crate::text::lex_lt;
use crate::text::str_eq;
use crate::text::str_lex_lt;
use crate::text::lemma_lex_irreflexive;
use crate::text::lemma_lex_connected;
use crate::text::lemma_lex_transitive;

verus! {

/// Shape of one tradable asset's description.
pub struct CoinInfoV {
    pub coin: Seq<char>,
    pub name: Seq<char>,
    pub deposit_all_enable: bool,
    pub withdraw_all_enable: bool,
    pub network_list: Seq<Seq<char>>,
    pub withdraw_fee: Seq<char>,
    pub precision: Seq<char>,
}

/// One tradable asset as the coin-listing endpoint describes it:
/// symbol, display name, deposit/withdrawal enablement, the networks
/// it moves on, and its fee and precision rendered as decimal text.
#[derive(Clone, Debug, PartialEq, Eq)]
pub struct CoinInfo {
    pub coin: String,
    pub name: String,
    pub deposit_all_enable: bool,
    pub withdraw_all_enable: bool,
    pub network_list: Vec<String>,
    pub withdraw_fee: String,
    pub precision: String,
}

impl View for CoinInfo {
    type V = CoinInfoV;

    open spec fn view(&self) -> CoinInfoV {
        CoinInfoV {
            coin: self.coin@,
            name: self.name@,
            deposit_all_enable: self.deposit_all_enable,
            withdraw_all_enable: self.withdraw_all_enable,
            network_list: Seq::new(self.network_list@.len(), |i: int| self.network_list@[i]@),
            withdraw_fee: self.withdraw_fee@,
            precision: self.precision@,
        }
    }
}

/// Shape of one asset's detail record.
pub struct AssetDetailV {
    pub min_withdraw_amount: Seq<char>,
    pub deposit_status: bool,
    pub withdraw_fee: Seq<char>,
    pub withdraw_status: bool,
    pub deposit_tip: Option<Seq<char>>,
}

/// Per-asset metadata: minimum withdrawal amount and withdrawal fee as
/// decimal text, deposit/withdrawal status, and an optional note shown
/// when deposits are suspended.
#[derive(Clone, Debug, PartialEq, Eq)]
pub struct AssetDetail {
    pub min_withdraw_amount: String,
    pub deposit_status: bool,
    pub withdraw_fee: String,
    pub withdraw_status: bool,
    pub deposit_tip: Option<String>,
}

impl View for AssetDetail {
    type V = AssetDetailV;

    open spec fn view(&self) -> AssetDetailV {
        AssetDetailV {
            min_withdraw_amount: self.min_withdraw_amount@,
            deposit_status: self.deposit_status,
            withdraw_fee: self.withdraw_fee@,
            withdraw_status: self.withdraw_status,
            deposit_tip: match self.deposit_tip {
                Some(t) => Some(t@),
                None => None,
            },
        }
    }
}

/// Shape of a deposit address record.
pub struct DepositAddressV {
    pub address: Seq<char>,
    pub coin: Seq<char>,
    pub network: Seq<char>,
    pub tag: Option<Seq<char>>,
}

/// A deposit address: the address text, the coin it belongs to, the
/// network it is valid on, and an optional memo/tag.
#[derive(Clone, Debug, PartialEq, Eq)]
pub struct DepositAddress {
    pub address: String,
    pub coin: String,
    pub network: String,
    pub tag: Option<String>,
}

impl View for DepositAddress {
    type V = DepositAddressV;

    open spec fn view(&self) -> DepositAddressV {
        DepositAddressV {
            address: self.address@,
            coin: self.coin@,
            network: self.network@,
            tag: match self.tag {
                Some(t) => Some(t@),
                None => None,
            },
        }
    }
}

/// Entries strictly ascending by symbol: iteration order is the
/// sorted order, and keys are pairwise distinct.
pub open spec fn sorted_by_symbol(s: Seq<(Seq<char>, AssetDetailV)>) -> bool {
    forall|i: int, j: int| 0 <= i < j < s.len() ==> lex_lt(s[i].0, s[j].0)
}

/// The mapping an entry sequence denotes, later entries winning.
pub open spec fn symbol_map(s: Seq<(Seq<char>, AssetDetailV)>) -> Map<Seq<char>, AssetDetailV>
    decreases s.len(),
{
    if s.len() == 0 {
        Map::empty()
    } else {
        symbol_map(s.drop_last()).insert(s.last().0, s.last().1)
    }
}

/// A key is in the mapping exactly when some entry carries it, and
/// under sortedness the value is that entry's.
pub proof fn lemma_symbol_map_entries(s: Seq<(Seq<char>, AssetDetailV)>, k: Seq<char>)
    ensures
        symbol_map(s).contains_key(k) == (exists|i: int| 0 <= i < s.len() && s[i].0 == k),
        sorted_by_symbol(s) ==> forall|i: int|
            0 <= i < s.len() && s[i].0 == k ==> symbol_map(s)[k] == s[i].1,
    decreases s.len(),
{
    if s.len() == 0 {
    } else {
        let dl = s.drop_last();
        lemma_symbol_map_entries(dl, k);
        assert(forall|i: int| 0 <= i < dl.len() ==> dl[i] == s[i]);
        if s.last().0 == k {
            assert(s[s.len() - 1].0 == k);
            assert(symbol_map(s).contains_key(k));
        } else {
            if symbol_map(s).contains_key(k) {
                assert(symbol_map(dl).contains_key(k));
            }
            if exists|i: int| 0 <= i < s.len() && s[i].0 == k {
                let i = choose|i: int| 0 <= i < s.len() && s[i].0 == k;
                assert(i < s.len() - 1);
                assert(dl[i].0 == k);
            }
        }
        if sorted_by_symbol(s) {
            assert(sorted_by_symbol(dl));
            assert forall|i: int| 0 <= i < s.len() && s[i].0 == k implies symbol_map(s)[k]
                == s[i].1 by {
                if i == s.len() - 1 {
                } else {
                    assert(lex_lt(s[i].0, s.last().0));
                    lemma_lex_irreflexive(k);
                    assert(s.last().0 != k);
                    assert(dl[i].0 == k);
                    assert(symbol_map(dl)[k] == dl[i].1);
                }
            }
        }
    }
}

/// Under sortedness the entry sequence is determined by the mapping:
/// two sorted sequences denoting one mapping are one sequence. Hence
/// results iterate in sorted-by-symbol order regardless of the order
/// the response listed them in.
pub proof fn lemma_sorted_map_canonical(
    s1: Seq<(Seq<char>, AssetDetailV)>,
    s2: Seq<(Seq<char>, AssetDetailV)>,
)
    requires
        sorted_by_symbol(s1),
        sorted_by_symbol(s2),
        symbol_map(s1) == symbol_map(s2),
    ensures
        s1 == s2,
    decreases s1.len(),
{
    if s1.len() == 0 {
        if s2.len() > 0 {
            lemma_symbol_map_entries(s2, s2.last().0);
            assert(s2[s2.len() - 1].0 == s2.last().0);
            assert(symbol_map(s2).contains_key(s2.last().0));
            lemma_symbol_map_entries(s1, s2.last().0);
            assert(false);
        }
        assert(s1 =~= s2);
    } else if s2.len() == 0 {
        lemma_symbol_map_entries(s1, s1.last().0);
        assert(s1[s1.len() - 1].0 == s1.last().0);
        assert(symbol_map(s1).contains_key(s1.last().0));
        lemma_symbol_map_entries(s2, s1.last().0);
        assert(false);
    } else {
        let k1 = s1.last().0;
        let k2 = s2.last().0;
        lemma_symbol_map_entries(s1, k1);
        lemma_symbol_map_entries(s1, k2);
        lemma_symbol_map_entries(s2, k1);
        lemma_symbol_map_entries(s2, k2);
        assert(s1[s1.len() - 1].0 == k1);
        assert(s2[s2.len() - 1].0 == k2);
        assert(symbol_map(s2).contains_key(k1));
        assert(symbol_map(s1).contains_key(k2));
        let i1 = choose|i: int| 0 <= i < s2.len() && s2[i].0 == k1;
        let i2 = choose|i: int| 0 <= i < s1.len() && s1[i].0 == k2;
        if k1 != k2 {
            assert(i1 < s2.len() - 1);
            assert(lex_lt(k1, k2));
            assert(i2 < s1.len() - 1);
            assert(lex_lt(k2, k1));
            lemma_lex_transitive(k1, k2, k1);
            lemma_lex_irreflexive(k1);
            assert(false);
        }
        assert(symbol_map(s1)[k1] == s1.last().1);
        assert(symbol_map(s2)[k1] == s2.last().1);
        assert(s1.last().1 == s2.last().1);
        let d1 = s1.drop_last();
        let d2 = s2.drop_last();
        assert(forall|i: int| 0 <= i < d1.len() ==> d1[i] == s1[i]);
        assert(forall|i: int| 0 <= i < d2.len() ==> d2[i] == s2[i]);
        assert(sorted_by_symbol(d1));
        assert(sorted_by_symbol(d2));
        lemma_drop_last_map(s1);
        lemma_drop_last_map(s2);
        assert(symbol_map(d1) =~= symbol_map(s1).remove(k1));
        assert(symbol_map(d2) =~= symbol_map(s2).remove(k1));
        lemma_sorted_map_canonical(d1, d2);
        assert(s1 =~= s2);
    }
}

/// Dropping the last entry of a sorted sequence removes exactly its
/// key from the mapping.
proof fn lemma_drop_last_map(s: Seq<(Seq<char>, AssetDetailV)>)
    requires
        sorted_by_symbol(s),
        s.len() > 0,
    ensures
        symbol_map(s.drop_last()) == symbol_map(s).remove(s.last().0),
{
    let dl = s.drop_last();
    let k = s.last().0;
    lemma_symbol_map_entries(dl, k);
    if symbol_map(dl).contains_key(k) {
        let i = choose|i: int| 0 <= i < dl.len() && dl[i].0 == k;
        assert(dl[i] == s[i]);
        assert(lex_lt(s[i].0, k));
        lemma_lex_irreflexive(k);
        assert(false);
    }
    assert(symbol_map(dl) =~= symbol_map(s).remove(k));
}

/// A mapping from asset symbol to detail record whose iteration order
/// is strictly ascending by symbol.
#[derive(Debug)]
pub struct AssetDetailMap {
    entries: Vec<(String, AssetDetail)>,
}

impl View for AssetDetailMap {
    type V = Seq<(Seq<char>, AssetDetailV)>;

    closed spec fn view(&self) -> Seq<(Seq<char>, AssetDetailV)> {
        Seq::new(self.entries@.len(), |i: int| (self.entries[i].0@, self.entries[i].1@))
    }
}

impl AssetDetailMap {
    /// A mapping with no entries.
    pub fn new() -> (r: AssetDetailMap)
        ensures
            r@ == Seq::<(Seq<char>, AssetDetailV)>::empty(),
            sorted_by_symbol(r@),
            symbol_map(r@) == Map::<Seq<char>, AssetDetailV>::empty(),
    {
        let r = AssetDetailMap { entries: Vec::new() };
        proof {
            assert(r@ =~= Seq::<(Seq<char>, AssetDetailV)>::empty());
        }
        r
    }

    /// How many assets are described.
    pub fn len(&self) -> (r: usize)
        ensures
            r == self@.len(),
    {
        self.entries.len()
    }

    /// The entry at one position of the sorted order, symbol first.
    pub fn entry_at(&self, i: usize) -> (r: (&String, &AssetDetail))
        requires
            i < self@.len(),
        ensures
            r.0@ == self@[i as int].0,
            r.1@ == self@[i as int].1,
    {
        let p = &self.entries[i];
        (&p.0, &p.1)
    }

    /// Sets the detail record under one symbol, keeping the order
    /// strictly ascending.
    pub fn insert(&mut self, symbol: String, detail: AssetDetail)
        requires
            sorted_by_symbol(old(self)@),
        ensures
            sorted_by_symbol(final(self)@),
            symbol_map(final(self)@) == symbol_map(old(self)@).insert(symbol@, detail@),
    {
        let ghost s0 = self@;
        let n: usize = self.entries.len();
        let mut idx: usize = n;
        while idx > 0 && str_lex_lt(symbol.as_str(), self.entries[idx - 1].0.as_str())
            invariant
                0 <= idx <= n,
                n == self@.len(),
                self@ == s0,
                forall|t: int| idx <= t < n ==> lex_lt(symbol@, self@[t].0),
            decreases idx,
        {
            idx = idx - 1;
        }
        if idx > 0 && str_eq(self.entries[idx - 1].0.as_str(), symbol.as_str()) {
            proof {
                assert(s0[idx - 1].0 == symbol@);
            }
            self.entries[idx - 1] = (symbol, detail);
            proof {
                let s1 = self@;
                assert(s1 =~= s0.update(idx - 1, (symbol@, detail@)));
                assert forall|i: int, j: int| 0 <= i < j < s1.len() implies lex_lt(
                    s1[i].0,
                    s1[j].0,
                ) by {
                    assert(s1[i].0 == s0[i].0);
                    assert(s1[j].0 == s0[j].0);
                }
                lemma_update_map(s0, idx - 1 as int, symbol@, detail@);
            }
        } else {
            proof {
                if idx > 0 {
                    assert(s0[idx - 1].0 != symbol@);
                    assert(!lex_lt(symbol@, s0[idx - 1].0));
                    lemma_lex_connected(s0[idx - 1].0, symbol@);
                    assert(lex_lt(s0[idx - 1].0, symbol@));
                }
            }
            self.entries.insert(idx, (symbol, detail));
            proof {
                let s1 = self@;
                assert(s1 =~= s0.insert(idx as int, (symbol@, detail@)));
                assert forall|i: int, j: int| 0 <= i < j < s1.len() implies lex_lt(
                    s1[i].0,
                    s1[j].0,
                ) by {
                    let ii = if i < idx {
                        i
                    } else {
                        i - 1
                    };
                    let jj = if j < idx {
                        j
                    } else {
                        j - 1
                    };
                    if i == idx {
                        assert(s1[i].0 == symbol@);
                        assert(s1[j] == s0[j - 1]);
                        assert(lex_lt(symbol@, s0[j - 1].0));
                    } else if j == idx {
                        assert(s1[j].0 == symbol@);
                        assert(s1[i] == s0[i]);
                        assert(i < idx);
                        if i < idx - 1 {
                            assert(lex_lt(s0[i].0, s0[idx - 1].0));
                            lemma_lex_transitive(s0[i].0, s0[idx - 1].0, symbol@);
                        }
                    } else {
                        assert(s1[i] == s0[ii]);
                        assert(s1[j] == s0[jj]);
                        if i < idx && j > idx {
                            if ii < idx - 1 {
                                assert(lex_lt(s0[ii].0, s0[idx - 1].0));
                                lemma_lex_transitive(s0[ii].0, s0[idx - 1].0, symbol@);
                            }
                            assert(lex_lt(s0[ii].0, symbol@));
                            assert(lex_lt(symbol@, s0[jj].0));
                            lemma_lex_transitive(s0[ii].0, symbol@, s0[jj].0);
                        } else {
                            assert(ii < jj);
                            assert(lex_lt(s0[ii].0, s0[jj].0));
                        }
                    }
                }
                assert forall|t: int| idx <= t < s0.len() implies s0[t].0 != symbol@ by {
                    lemma_lex_irreflexive(s0[t].0);
                }
                lemma_insert_map(s0, idx as int, symbol@, detail@);
            }
        }
    }

    /// The detail record under one symbol, if any.
    pub fn get(&self, symbol: &str) -> (r: Option<&AssetDetail>)
        requires
            sorted_by_symbol(self@),
        ensures
            match r {
                Some(d) => symbol_map(self@).contains_key(symbol@) && symbol_map(self@)[symbol@]
                    == d@,
                None => !symbol_map(self@).contains_key(symbol@),
            },
    {
        let n: usize = self.entries.len();
        let mut i: usize = 0;
        while i < n
            invariant
                0 <= i <= n,
                n == self@.len(),
                sorted_by_symbol(self@),
                forall|j: int| 0 <= j < i ==> self@[j].0 != symbol@,
            decreases n - i,
        {
            if str_eq(self.entries[i].0.as_str(), symbol) {
                proof {
                    assert(self@[i as int].0 == symbol@);
                    lemma_symbol_map_entries(self@, symbol@);
                }
                return Some(&self.entries[i].1);
            }
            i = i + 1;
        }
        proof {
            lemma_symbol_map_entries(self@, symbol@);
            if symbol_map(self@).contains_key(symbol@) {
                let j = choose|j: int| 0 <= j < self@.len() && self@[j].0 == symbol@;
                assert(false);
            }
        }
        None
    }
}

/// Overwriting the entry that carries `k` leaves the mapping with
/// `k` bound to the new value.
proof fn lemma_update_map(s: Seq<(Seq<char>, AssetDetailV)>, p: int, k: Seq<char>, v: AssetDetailV)
    requires
        sorted_by_symbol(s),
        0 <= p < s.len(),
        s[p].0 == k,
    ensures
        symbol_map(s.update(p, (k, v))) == symbol_map(s).insert(k, v),
    decreases s.len(),
{
    let t = s.update(p, (k, v));
    if p == s.len() - 1 {
        assert(t.drop_last() =~= s.drop_last());
        assert(t.last() == (k, v));
        assert(symbol_map(t) == symbol_map(s.drop_last()).insert(k, v));
        assert(symbol_map(s.drop_last()).insert(k, s.last().1).insert(k, v) =~= symbol_map(
            s.drop_last(),
        ).insert(k, v));
        assert(s.last().0 == k);
    } else {
        let dl = s.drop_last();
        assert(forall|i: int| 0 <= i < dl.len() ==> dl[i] == s[i]);
        assert(sorted_by_symbol(dl));
        assert(t.drop_last() =~= dl.update(p, (k, v)));
        assert(t.last() == s.last());
        lemma_update_map(dl, p, k, v);
        assert(symbol_map(t) == symbol_map(dl).insert(k, v).insert(s.last().0, s.last().1));
        assert(lex_lt(s[p].0, s.last().0));
        lemma_lex_irreflexive(s.last().0);
        assert(s.last().0 != k);
        assert(symbol_map(dl).insert(k, v).insert(s.last().0, s.last().1) =~= symbol_map(dl).insert(
            s.last().0,
            s.last().1,
        ).insert(k, v));
    }
}

/// Inserting a fresh key binds it and touches nothing else.
proof fn lemma_insert_map(s: Seq<(Seq<char>, AssetDetailV)>, p: int, k: Seq<char>, v: AssetDetailV)
    requires
        0 <= p <= s.len(),
        forall|t: int| p <= t < s.len() ==> s[t].0 != k,
    ensures
        symbol_map(s.insert(p, (k, v))) == symbol_map(s).insert(k, v),
    decreases s.len(),
{
    let t = s.insert(p, (k, v));
    if p == s.len() {
        assert(t =~= s.push((k, v)));
        assert(t.drop_last() =~= s);
        assert(t.last() == (k, v));
    } else {
        let dl = s.drop_last();
        assert(forall|i: int| 0 <= i < dl.len() ==> dl[i] == s[i]);
        assert(t.len() == s.len() + 1);
        assert(t.last() == s.last());
        assert(t.drop_last() =~= dl.insert(p, (k, v)));
        lemma_insert_map(dl, p, k, v);
        assert(symbol_map(t) == symbol_map(dl).insert(k, v).insert(s.last().0, s.last().1));
        assert(s[s.len() - 1].0 != k);
        assert(symbol_map(dl).insert(k, v).insert(s.last().0, s.last().1) =~= symbol_map(dl).insert(
            s.last().0,
            s.last().1,
        ).insert(k, v));
    }
}

} // verus!
