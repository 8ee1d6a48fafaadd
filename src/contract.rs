//! The protocol state: the four books, the positions and their indices, the
//! QD ledger, and the update crank.
use vstd::prelude::*;
use near_contract_standards::fungible_token::FungibleToken;
use crate::crank::Crank;
use crate::error::QuidError;
use crate::index::{lemma_id_bytes_injective, PledgesTreeMap};
use crate::math::{cr_ok, cr_spec, ONE};
use crate::pledge::{id_bytes, Pledge, PledgeView, Sort};
use crate::pool::{Pod, Pool, PoolStats};
use crate::token::{balance, balance_of, token_new, register};

verus! {

/// No two positions belong to the same account.
pub open spec fn ids_unique(s: Seq<Pledge>) -> bool {
    forall|i: int, j: int| 0 <= i < s.len() && 0 <= j < s.len() && i != j ==> (#[trigger] s[i]).id@ != (#[trigger] s[j]).id@
}

/// How saving `p` changes the store `s` into `t`: an account's entry is
/// replaced, or removed (the last entry taking its place) once it is empty; a
/// new account's entry is appended unless it is empty.
pub open spec fn store_step(s: Seq<Pledge>, t: Seq<Pledge>, p: Pledge) -> bool {
    if exists|i: int| 0 <= i < s.len() && (#[trigger] s[i]).id@ == p.id@ {
        let i = choose|i: int| 0 <= i < s.len() && (#[trigger] s[i]).id@ == p.id@;
        if p.is_empty() {
            t == s.update(i, s.last()).drop_last()
        } else {
            t == s.update(i, p)
        }
    } else if p.is_empty() {
        t == s
    } else {
        t == s.push(p)
    }
}

/// Re-keying account `id` leaves every other account's presence alone.
proof fn lemma_other_holds(before: PledgesTreeMap, after: PledgesTreeMap, id: String)
    requires
        forall|k: (int, int, Seq<u8>)| k.2 != id_bytes(id) ==> (after.keys().to_set().contains(k) == before.keys().to_set().contains(k)),
    ensures
        forall|other: String| other@ != id@ ==> after.holds(other) == before.holds(other),
{
    assert forall|other: String| other@ != id@ implies after.holds(other) == before.holds(other) by {
        lemma_id_bytes_injective(other, id);
        let ob = id_bytes(other);
        if after.holds(other) {
            let k = choose|k: (int, int, Seq<u8>)| #[trigger] after.keys().to_set().contains(k) && k.2 == ob;
            assert(before.keys().to_set().contains(k));
        }
        if before.holds(other) {
            let k = choose|k: (int, int, Seq<u8>)| #[trigger] before.keys().to_set().contains(k) && k.2 == ob;
            assert(after.keys().to_set().contains(k));
        }
    }
}

/// Two states with the same store have the same positions.
pub proof fn lemma_same_store(a: Contract, b: Contract)
    requires
        a.pledges == b.pledges,
        a.wf(),
    ensures
        forall|o: String| #[trigger] a.has(o@) == b.has(o@) && a.position_of(o) == b.position_of(o),
{
    assert forall|o: String| #[trigger] a.has(o@) == b.has(o@) && a.position_of(o) == b.position_of(o) by {
        if a.has(o@) {
            let i = choose|i: int| #[trigger] a.place(o@, i);
            assert(b.place(o@, i));
            let j = choose|i: int| #[trigger] b.place(o@, i);
            assert(a.place(o@, j));
            assert(i == j);
        }
        if b.has(o@) {
            let i = choose|i: int| #[trigger] b.place(o@, i);
            assert(a.place(o@, i));
        }
    }
}

/// Changes only to in-band positions carry over states that differ from the
/// ends of the change in everything but the store and the price.
pub proof fn lemma_band_frame(s0: Contract, a: Contract, b: Contract, c: Contract, short: bool)
    requires
        s0.wf(),
        b.wf(),
        a.pledges == s0.pledges && a.price == s0.price,
        c.pledges == b.pledges,
        b.changed_only_in_band(a, short),
    ensures
        c.changed_only_in_band(s0, short),
{
    lemma_same_store(s0, a);
    lemma_same_store(b, c);
    assert forall|o: String| (#[trigger] c.has(o@) != s0.has(o@) || c.position_of(o) != s0.position_of(o))
        implies s0.in_band(o, short) by {
        assert(c.has(o@) == b.has(o@) && c.position_of(o) == b.position_of(o));
        assert(a.has(o@) == s0.has(o@) && a.position_of(o) == s0.position_of(o));
        assert(a.in_band(o, short));
    }
}

/// Saving a position leaves every other account's position as it was.
proof fn lemma_others_kept(before: Contract, after: Contract, pledge: Pledge)
    requires
        before.wf(),
        after.wf(),
        forall|j: int| 0 <= j < after.pledges@.len() && (#[trigger] after.pledges@[j]).id@ != pledge.id@
            ==> exists|i: int| 0 <= i < before.pledges@.len() && before.pledges@[i] == after.pledges@[j],
        forall|i: int| 0 <= i < before.pledges@.len() && (#[trigger] before.pledges@[i]).id@ != pledge.id@
            ==> exists|j: int| 0 <= j < after.pledges@.len() && after.pledges@[j] == before.pledges@[i],
    ensures
        after.same_except(before, pledge.id@),
{
    assert forall|o: String| o@ != pledge.id@ implies #[trigger] after.has(o@) == before.has(o@)
        && after.position_of(o) == before.position_of(o) by {
        if after.has(o@) {
            let j = choose|j: int| #[trigger] after.place(o@, j);
            let i = choose|i: int| 0 <= i < before.pledges@.len() && before.pledges@[i] == after.pledges@[j];
            assert(before.place(o@, i));
            let i2 = choose|i: int| #[trigger] before.place(o@, i);
            assert(i2 == i);
        }
        if before.has(o@) {
            let i = choose|i: int| #[trigger] before.place(o@, i);
            let j = choose|j: int| 0 <= j < after.pledges@.len() && after.pledges@[j] == before.pledges@[i];
            assert(after.place(o@, j));
            let j2 = choose|j: int| #[trigger] after.place(o@, j);
            assert(j2 == j);
        }
    }
}

/// Saving a position keeps the state invariant.
proof fn lemma_save_keeps_inv(before: Contract, after: Contract, pledge: Pledge, old_long: PledgesTreeMap, old_short: PledgesTreeMap)
    requires
        before.inv(),
        after.wf(),
        old_long == before.long_crs,
        old_short == before.short_crs,
        after.has(pledge.id@) == !pledge.is_empty(),
        forall|i: int| #[trigger] after.place(pledge.id@, i) ==> after.pledges@[i] == pledge,
        after.long_crs.holds(pledge.id) == pledge.side_active(false),
        after.short_crs.holds(pledge.id) == pledge.side_active(true),
        forall|other: String| other@ != pledge.id@ ==> {
            &&& after.long_crs.holds(other) == before.long_crs.holds(other)
            &&& after.short_crs.holds(other) == before.short_crs.holds(other)
        },
        forall|k: (int, int, Seq<u8>)| k.2 != id_bytes(pledge.id) ==> (after.long_crs.keys().to_set().contains(k) ==> before.long_crs.keys().to_set().contains(k)),
        forall|k: (int, int, Seq<u8>)| k.2 != id_bytes(pledge.id) ==> (after.short_crs.keys().to_set().contains(k) ==> before.short_crs.keys().to_set().contains(k)),
        forall|j: int| 0 <= j < after.pledges@.len() && (#[trigger] after.pledges@[j]).id@ != pledge.id@
            ==> exists|i: int| 0 <= i < before.pledges@.len() && before.pledges@[i] == after.pledges@[j],
        forall|i: int| 0 <= i < before.pledges@.len() && (#[trigger] before.pledges@[i]).id@ != pledge.id@
            ==> exists|j: int| 0 <= j < after.pledges@.len() && after.pledges@[j] == before.pledges@[i],
    ensures
        after.inv(),
{
    let s = before.pledges@;
    let idb = id_bytes(pledge.id);
    assert forall|j: int| 0 <= j < after.pledges@.len() implies {
        &&& after.long_crs.holds((#[trigger] after.pledges@[j]).id) == after.pledges@[j].side_active(false)
        &&& after.short_crs.holds(after.pledges@[j].id) == after.pledges@[j].side_active(true)
    } by {
        if after.pledges@[j].id@ == pledge.id@ {
            assert(after.place(pledge.id@, j));
        } else {
            let i = choose|i: int| 0 <= i < s.len() && s[i] == after.pledges@[j];
        }
    }
    assert forall|j: int| 0 <= j < after.pledges@.len() implies !(#[trigger] after.pledges@[j]).is_empty() by {
        if after.pledges@[j].id@ == pledge.id@ {
            assert(after.place(pledge.id@, j));
        } else {
            let i = choose|i: int| 0 <= i < s.len() && s[i] == after.pledges@[j];
        }
    }
    assert forall|k: (int, int, Seq<u8>)|
        (after.long_crs.keys().to_set().contains(k) || after.short_crs.keys().to_set().contains(k))
        implies exists|i: int| 0 <= i < after.pledges@.len() && id_bytes((#[trigger] after.pledges@[i]).id) == k.2 by {
        if k.2 == idb {
            assert(after.long_crs.holds(pledge.id) || after.short_crs.holds(pledge.id));
            assert(!pledge.is_empty());
            let j = choose|j: int| #[trigger] after.place(pledge.id@, j);
            assert(id_bytes(after.pledges@[j].id) == k.2);
        } else {
            assert(before.long_crs.keys().to_set().contains(k) || before.short_crs.keys().to_set().contains(k));
            let i = choose|i: int| 0 <= i < s.len() && id_bytes((#[trigger] s[i]).id) == k.2;
            assert(s[i].id@ != pledge.id@);
            let j = choose|j: int| 0 <= j < after.pledges@.len() && after.pledges@[j] == s[i];
            assert(id_bytes(after.pledges@[j].id) == k.2);
        }
    }
}

/// The invariant only looks at the positions and the indices.
pub proof fn lemma_inv_frame(a: Contract, b: Contract)
    requires
        a.inv(),
        b.pledges == a.pledges,
        b.long_crs == a.long_crs,
        b.short_crs == a.short_crs,
    ensures
        b.inv(),
{
    assert(b.indexed()) by {
        assert forall|i: int| 0 <= i < b.pledges@.len() implies {
            &&& b.long_crs.holds((#[trigger] b.pledges@[i]).id) == b.pledges@[i].side_active(false)
            &&& b.short_crs.holds(b.pledges@[i].id) == b.pledges@[i].side_active(true)
        } by {
            assert(a.pledges@[i] == b.pledges@[i]);
        }
    }
    assert(b.index_ids_stored()) by {
        assert forall|k: (int, int, Seq<u8>)|
            (b.long_crs.keys().to_set().contains(k) || b.short_crs.keys().to_set().contains(k))
            implies exists|i: int| 0 <= i < b.pledges@.len() && id_bytes((#[trigger] b.pledges@[i]).id) == k.2 by {
            assert(a.long_crs.keys().to_set().contains(k) || a.short_crs.keys().to_set().contains(k));
            let i = choose|i: int| 0 <= i < a.pledges@.len() && id_bytes((#[trigger] a.pledges@[i]).id) == k.2;
            assert(b.pledges@[i] == a.pledges@[i]);
        }
    }
    assert(b.no_empty()) by {
        assert forall|i: int| 0 <= i < b.pledges@.len() implies !(#[trigger] b.pledges@[i]).is_empty() by {
            assert(a.pledges@[i] == b.pledges@[i]);
        }
    }
}

/// In any state that the operations keep (each of them ensures `inv`): a
/// position is in the long index exactly when its long side has both debt
/// and collateral, and likewise for the short side; every index entry
/// belongs to a stored position; and a position is stored only while one of
/// its long side, short side, QD deposit or NEAR deposit is non-zero.
pub proof fn lemma_index_matches_positions(c: Contract)
    requires
        c.inv(),
    ensures
        forall|i: int| 0 <= i < c.pledges@.len() ==> {
            &&& c.long_crs.holds(#[trigger] c.pledges@[i].id) <==> (c.pledges@[i].long.debit > 0 && c.pledges@[i].long.credit > 0)
            &&& c.short_crs.holds(c.pledges@[i].id) <==> (c.pledges@[i].short.debit > 0 && c.pledges@[i].short.credit > 0)
            &&& (c.pledges@[i].long.credit > 0 || c.pledges@[i].long.debit > 0 || c.pledges@[i].short.credit > 0
                || c.pledges@[i].short.debit > 0 || c.pledges@[i].quid > 0 || c.pledges@[i].near > 0)
        },
        forall|id: String| (c.long_crs.holds(id) || c.short_crs.holds(id)) ==> exists|i: int|
            0 <= i < c.pledges@.len() && id_bytes(#[trigger] c.pledges@[i].id) == id_bytes(id),
{
    assert forall|id: String| (c.long_crs.holds(id) || c.short_crs.holds(id)) implies exists|i: int|
        0 <= i < c.pledges@.len() && id_bytes(#[trigger] c.pledges@[i].id) == id_bytes(id) by {
        if c.long_crs.holds(id) {
            let k = choose|k: (int, int, Seq<u8>)| #[trigger] c.long_crs.keys().to_set().contains(k) && k.2 == id_bytes(id);
        } else {
            let k = choose|k: (int, int, Seq<u8>)| #[trigger] c.short_crs.keys().to_set().contains(k) && k.2 == id_bytes(id);
        }
    }
}

/// The protocol state.
pub struct Contract {
    /// The QD ledger.
    pub token: FungibleToken,
    /// The protocol's own account on the ledger.
    pub self_id: String,
    /// NEAR held by the protocol's account, as the host reports it.
    pub native_balance: u128,
    pub price: u128,
    pub vol: u128,
    pub crank: Crank,
    /// Every position, in order of creation (a removal moves the last one
    /// into the freed place).
    pub pledges: Vec<Pledge>,
    pub short_crs: PledgesTreeMap,
    pub long_crs: PledgesTreeMap,
    /// Solvency pool: `credit` holds QD deposits, `debit` NEAR deposits.
    pub blood: Pod,
    /// Guarantee fund.
    pub gfund: Pool,
    /// Collateral and debt of the active borrowers.
    pub live: Pool,
    /// Collateral and debt taken over from liquidated borrowers.
    pub dead: Pool,
}

impl Contract {
    /// The index of one side.
    pub open spec fn crs(&self, short: bool) -> PledgesTreeMap {
        if short {
            self.short_crs
        } else {
            self.long_crs
        }
    }

    /// Structural well-formedness: the indices are ordered and there is one
    /// position per account.
    pub open spec fn wf(&self) -> bool {
        &&& self.long_crs.wf()
        &&& !self.long_crs.short
        &&& self.short_crs.wf()
        &&& self.short_crs.short
        &&& ids_unique(self.pledges@)
    }

    /// A position is indexed on a side exactly when that side has both debt
    /// and collateral.
    pub open spec fn indexed(&self) -> bool {
        forall|i: int|
            0 <= i < self.pledges@.len() ==> {
                &&& self.long_crs.holds((#[trigger] self.pledges@[i]).id) == self.pledges@[i].side_active(false)
                &&& self.short_crs.holds(self.pledges@[i].id) == self.pledges@[i].side_active(true)
            }
    }

    /// Every key of an index belongs to a stored position.
    pub open spec fn index_ids_stored(&self) -> bool {
        forall|k: (int, int, Seq<u8>)|
            #![trigger self.long_crs.keys().to_set().contains(k)]
            #![trigger self.short_crs.keys().to_set().contains(k)]
            (self.long_crs.keys().to_set().contains(k) || self.short_crs.keys().to_set().contains(k))
            ==> exists|i: int| 0 <= i < self.pledges@.len() && id_bytes((#[trigger] self.pledges@[i]).id) == k.2
    }

    /// The state invariant: well-formed, indices agree with the positions,
    /// and no empty position is kept.
    pub open spec fn inv(&self) -> bool {
        &&& self.wf()
        &&& self.indexed()
        &&& self.index_ids_stored()
        &&& self.no_empty()
    }

    /// What an operation leaves alone: price, volatility, crank, host figures
    /// and the protocol's account.
    pub open spec fn same_settings(&self, before: Contract) -> bool {
        &&& self.price == before.price
        &&& self.vol == before.vol
        &&& self.crank == before.crank
        &&& self.native_balance == before.native_balance
        &&& self.self_id == before.self_id
    }

    /// No stored position is empty.
    pub open spec fn no_empty(&self) -> bool {
        forall|i: int| 0 <= i < self.pledges@.len() ==> !(#[trigger] self.pledges@[i]).is_empty()
    }

    /// The stored position of account `id`, if any: its place in the store.
    pub open spec fn place(&self, id: Seq<char>, i: int) -> bool {
        0 <= i < self.pledges@.len() && self.pledges@[i].id@ == id
    }

    /// `p` is exactly the stored position of its account.
    pub open spec fn stores(&self, p: Pledge) -> bool {
        exists|i: int| #[trigger] self.place(p.id@, i) && self.pledges@[i] == p
    }

    /// Every account other than `id` has the same stored position (or none)
    /// in `self` as in `before`.
    pub open spec fn same_except(&self, before: Contract, id: Seq<char>) -> bool {
        forall|o: String| o@ != id ==> #[trigger] self.has(o@) == before.has(o@) && self.position_of(o) == before.position_of(o)
    }

    /// The side `short` of the stored position of `o` has debt and a ratio in
    /// `[KILL_CR, MIN_CR)` at the price of `self`.
    pub open spec fn in_band(&self, o: String, short: bool) -> bool {
        let p = self.position_of(o);
        &&& self.has(o@)
        &&& cr_ok(self.price, p.side(short).credit, p.side(short).debit, short)
        &&& crate::math::KILL_CR <= cr_spec(self.price, p.side(short).credit, p.side(short).debit, short) < crate::math::MIN_CR
    }

    /// From `before` to `self`, only positions whose side `short` was in
    /// `[KILL_CR, MIN_CR)` in `before` changed.
    pub open spec fn changed_only_in_band(&self, before: Contract, short: bool) -> bool {
        forall|o: String| (#[trigger] self.has(o@) != before.has(o@) || self.position_of(o) != before.position_of(o))
            ==> before.in_band(o, short)
    }

    /// The stored position of account `id`, or an empty one.
    pub open spec fn position_of(&self, id: String) -> Pledge {
        if self.has(id@) {
            self.pledges@[choose|i: int| #[trigger] self.place(id@, i)]
        } else {
            Pledge::spec_empty(id, crate::math::MIN_CR)
        }
    }

    /// Account `id` has a stored position.
    pub open spec fn has(&self, id: Seq<char>) -> bool {
        exists|i: int| #[trigger] self.place(id, i)
    }

    /// A new state: empty books, no positions, price `ONE`; `owner` and the
    /// protocol's own account are registered on the ledger.
    pub fn new(owner_id: String, self_id: String) -> (r: Self)
        ensures
            r.inv(),
            r.balanced(),
            r.pledges@.len() == 0,
            r.price == ONE,
            r.crank == Crank::new_spec(),
            r.blood.is_empty(),
            r.live.long.is_empty() && r.live.short.is_empty(),
            r.dead.long.is_empty() && r.dead.short.is_empty(),
            r.gfund.long.is_empty() && r.gfund.short.is_empty(),
            r.self_id@ == self_id@,
    {
        let mut prefix: Vec<u8> = Vec::new();
        prefix.push(113u8);
        let mut token = token_new(prefix);
        register(&mut token, &owner_id);
        register(&mut token, &self_id);
        Contract {
            token,
            self_id,
            native_balance: 0,
            price: ONE,
            vol: 4666066,
            crank: Crank::new(),
            pledges: Vec::new(),
            short_crs: PledgesTreeMap::new(Sort::Composite, true),
            long_crs: PledgesTreeMap::new(Sort::Composite, false),
            blood: Pod::new(0, 0),
            gfund: Pool::new(),
            live: Pool::new(),
            dead: Pool::new(),
        }
    }

    pub fn get_price(&self) -> (r: u128)
        ensures
            r == self.price,
    {
        self.price
    }

    pub fn get_vol(&self) -> (r: u128)
        ensures
            r == self.vol,
    {
        self.vol
    }

    pub fn set_price(&mut self, _price: u128)
        ensures
            *final(self) == (Contract { price: _price, ..*old(self) }),
    {
        self.price = _price;
    }

    pub fn set_vol(&mut self, _vol: u128)
        ensures
            *final(self) == (Contract { vol: _vol, ..*old(self) }),
    {
        self.vol = _vol;
    }

    pub fn get_pool_stats(&self) -> (r: PoolStats)
        ensures
            r == PoolStats::spec_of(self.blood, self.gfund, self.live, self.dead),
    {
        PoolStats::new(&self.blood, &self.gfund, &self.live, &self.dead)
    }

    /// QD balance of `account` on the ledger.
    pub fn get_qd_balance(&self, account: &String) -> (r: u128)
        ensures
            r == balance(self.token, account@),
    {
        balance_of(&self.token, account)
    }

    /// Place of the position of `id` in the store.
    pub fn find(&self, id: &String) -> (r: Option<usize>)
        requires
            self.wf(),
        ensures
            r.is_some() == self.has(id@),
            r.is_some() ==> self.place(id@, r.unwrap() as int),
    {
        let mut i: usize = 0;
        while i < self.pledges.len()
            invariant
                i <= self.pledges@.len(),
                forall|j: int| 0 <= j < i ==> (#[trigger] self.pledges@[j]).id@ != id@,
            decreases self.pledges@.len() - i,
        {
            if self.pledges[i].id == *id {
                assert(self.place(id@, i as int));
                return Some(i);
            }
            i = i + 1;
        }
        assert(!self.has(id@)) by {
            if self.has(id@) {
                let j = choose|j: int| #[trigger] self.place(id@, j);
                assert(self.pledges@[j].id@ != id@);
            }
        }
        None
    }

    /// The figures of the position of `account`, if it has one.
    pub fn get_pledge(&self, account: &String) -> (r: Option<PledgeView>)
        requires
            self.wf(),
        ensures
            r.is_some() == self.has(account@),
            r.is_some() ==> exists|i: int|
                #[trigger] self.place(account@, i) && r.unwrap() == PledgeView::spec_from(self.pledges@[i]),
    {
        match self.find(account) {
            Some(i) => Some(PledgeView::from(&self.pledges[i])),
            None => None,
        }
    }

    /// Stores `pledge` and re-keys both of its sides at the current price; an
    /// empty position is deleted and leaves both indices. Refused, with
    /// nothing changed, where an active side has no computable ratio.
    pub fn save_pledge(&mut self, pledge: Pledge) -> (r: Result<(), QuidError>)
        requires
            old(self).inv(),
        ensures
            r.is_ok() == ((pledge.side_active(false) ==> old(self).long_crs.can_key(pledge, old(self).price))
                && (pledge.side_active(true) ==> old(self).short_crs.can_key(pledge, old(self).price))),
            r.is_err() ==> *final(self) == *old(self) && r == Err::<(), QuidError>(QuidError::DivisionOverflow),
            r.is_ok() ==> final(self).inv(),
            r.is_ok() ==> store_step(old(self).pledges@, final(self).pledges@, pledge),
            r.is_ok() ==> final(self).has(pledge.id@) == !pledge.is_empty(),
            r.is_ok() ==> forall|i: int| #[trigger] final(self).place(pledge.id@, i) ==> final(self).pledges@[i] == pledge,
            r.is_ok() ==> final(self).long_crs.keys().to_set().filter(|k: (int, int, Seq<u8>)| k.2 == id_bytes(pledge.id))
                == (if pledge.side_active(false) { set![old(self).long_crs.key_of(pledge, old(self).price)] } else { Set::empty() }),
            r.is_ok() ==> final(self).short_crs.keys().to_set().filter(|k: (int, int, Seq<u8>)| k.2 == id_bytes(pledge.id))
                == (if pledge.side_active(true) { set![old(self).short_crs.key_of(pledge, old(self).price)] } else { Set::empty() }),
            r.is_ok() ==> final(self).same_except(*old(self), pledge.id@),
            r.is_ok() ==> final(self).long_crs.holds(pledge.id) == pledge.side_active(false),
            r.is_ok() ==> final(self).short_crs.holds(pledge.id) == pledge.side_active(true),
            r.is_ok() ==> forall|other: String| other@ != pledge.id@ ==> {
                &&& final(self).long_crs.holds(other) == old(self).long_crs.holds(other)
                &&& final(self).short_crs.holds(other) == old(self).short_crs.holds(other)
            },
            r.is_ok() ==> forall|j: int| 0 <= j < final(self).pledges@.len() && (#[trigger] final(self).pledges@[j]).id@ != pledge.id@
                ==> exists|i: int| 0 <= i < old(self).pledges@.len() && old(self).pledges@[i] == final(self).pledges@[j],
            r.is_ok() ==> forall|i: int| 0 <= i < old(self).pledges@.len() && (#[trigger] old(self).pledges@[i]).id@ != pledge.id@
                ==> exists|j: int| 0 <= j < final(self).pledges@.len() && final(self).pledges@[j] == old(self).pledges@[i],
            r.is_ok() ==> final(self).token == old(self).token && final(self).price == old(self).price
                && final(self).vol == old(self).vol
                && final(self).blood == old(self).blood && final(self).gfund == old(self).gfund
                && final(self).live == old(self).live && final(self).dead == old(self).dead
                && final(self).crank == old(self).crank && final(self).native_balance == old(self).native_balance
                && final(self).self_id == old(self).self_id,
    {
        let price = self.price;
        let long_active = pledge.long.debit > 0 && pledge.long.credit > 0;
        let short_active = pledge.short.debit > 0 && pledge.short.credit > 0;
        if long_active && crate::math::checked_cr(price, pledge.long.credit, pledge.long.debit, false).is_none() {
            return Err(QuidError::DivisionOverflow);
        }
        if short_active && crate::math::checked_cr(price, pledge.short.credit, pledge.short.debit, true).is_none() {
            return Err(QuidError::DivisionOverflow);
        }
        let empty = pledge.long.credit == 0 && pledge.long.debit == 0 && pledge.short.credit == 0
            && pledge.short.debit == 0 && pledge.quid == 0 && pledge.near == 0;
        let ghost idb = id_bytes(pledge.id);
        let ghost old_long = self.long_crs;
        let ghost old_short = self.short_crs;
        self.short_crs.remove_id(&pledge.id);
        if short_active {
            self.short_crs.insert(&pledge, price);
        }
        self.long_crs.remove_id(&pledge.id);
        if long_active {
            self.long_crs.insert(&pledge, price);
        }
        proof {
            let f = |k: (int, int, Seq<u8>)| k.2 == idb;
            assert(self.long_crs.keys().to_set().filter(f) =~= (if long_active { set![old_long.key_of(pledge, price)] } else { Set::empty() }));
            assert(self.short_crs.keys().to_set().filter(f) =~= (if short_active { set![old_short.key_of(pledge, price)] } else { Set::empty() }));
        }
        proof {
            lemma_other_holds(old_long, self.long_crs, pledge.id);
            lemma_other_holds(old_short, self.short_crs, pledge.id);
            if short_active {
                assert(self.short_crs.keys().to_set().contains(old_short.key_of(pledge, price)));
            } else {
                assert(!self.short_crs.holds(pledge.id));
            }
            if long_active {
                assert(self.long_crs.keys().to_set().contains(old_long.key_of(pledge, price)));
            } else {
                assert(!self.long_crs.holds(pledge.id));
            }
        }
        let ghost s = self.pledges@;
        match self.find(&pledge.id) {
            Some(i) => {
                proof {
                    assert(exists|i: int| 0 <= i < s.len() && (#[trigger] s[i]).id@ == pledge.id@);
                    let c = choose|c: int| 0 <= c < s.len() && (#[trigger] s[c]).id@ == pledge.id@;
                    assert(c == i);
                }
                if empty {
                    self.pledges.swap_remove(i);
                    proof {
                        assert(self.pledges@ =~= s.update(i as int, s.last()).drop_last());
                        assert forall|j: int| 0 <= j < self.pledges@.len() && (#[trigger] self.pledges@[j]).id@ != pledge.id@
                            implies exists|i: int| 0 <= i < s.len() && s[i] == self.pledges@[j] by {
                            if j == i {
                                assert(s[s.len() - 1] == self.pledges@[j]);
                            } else {
                                assert(s[j] == self.pledges@[j]);
                            }
                        }
                        assert forall|k: int| 0 <= k < s.len() && (#[trigger] s[k]).id@ != pledge.id@
                            implies exists|j: int| 0 <= j < self.pledges@.len() && self.pledges@[j] == s[k] by {
                            if k == s.len() - 1 {
                                assert(self.pledges@[i as int] == s[k]);
                            } else {
                                assert(self.pledges@[k] == s[k]);
                            }
                        }
                        assert(!self.has(pledge.id@)) by {
                            if self.has(pledge.id@) {
                                let j = choose|j: int| #[trigger] self.place(pledge.id@, j);
                                if j == i {
                                    assert(s[s.len() - 1].id@ == pledge.id@);
                                } else {
                                    assert(s[j].id@ == pledge.id@);
                                }
                            }
                        }
                    }
                } else {
                    self.pledges.set(i, pledge);
                    proof {
                        assert(self.pledges@ =~= s.update(i as int, pledge));
                        assert forall|j: int| 0 <= j < self.pledges@.len() && (#[trigger] self.pledges@[j]).id@ != pledge.id@
                            implies exists|i: int| 0 <= i < s.len() && s[i] == self.pledges@[j] by {
                            assert(s[j] == self.pledges@[j]);
                        }
                        assert forall|k: int| 0 <= k < s.len() && (#[trigger] s[k]).id@ != pledge.id@
                            implies exists|j: int| 0 <= j < self.pledges@.len() && self.pledges@[j] == s[k] by {
                            assert(self.pledges@[k] == s[k]);
                        }
                        assert(self.place(pledge.id@, i as int));
                    }
                }
            },
            None => {
                proof {
                    assert(!exists|i: int| 0 <= i < s.len() && (#[trigger] s[i]).id@ == pledge.id@) by {
                        if exists|i: int| 0 <= i < s.len() && (#[trigger] s[i]).id@ == pledge.id@ {
                            let c = choose|c: int| 0 <= c < s.len() && (#[trigger] s[c]).id@ == pledge.id@;
                            assert(self.place(pledge.id@, c));
                        }
                    }
                }
                if !empty {
                    self.pledges.push(pledge);
                    proof {
                        assert forall|j: int| 0 <= j < self.pledges@.len() && (#[trigger] self.pledges@[j]).id@ != pledge.id@
                            implies exists|i: int| 0 <= i < s.len() && s[i] == self.pledges@[j] by {
                            assert(s[j] == self.pledges@[j]);
                        }
                        assert forall|k: int| 0 <= k < s.len() && (#[trigger] s[k]).id@ != pledge.id@
                            implies exists|j: int| 0 <= j < self.pledges@.len() && self.pledges@[j] == s[k] by {
                            assert(self.pledges@[k] == s[k]);
                        }
                        assert(self.place(pledge.id@, s.len() as int));
                    }
                } else {
                    proof {
                        assert forall|j: int| 0 <= j < self.pledges@.len() && (#[trigger] self.pledges@[j]).id@ != pledge.id@
                            implies exists|i: int| 0 <= i < s.len() && s[i] == self.pledges@[j] by {
                            assert(s[j] == self.pledges@[j]);
                        }
                        assert forall|k: int| 0 <= k < s.len() && (#[trigger] s[k]).id@ != pledge.id@
                            implies exists|j: int| 0 <= j < self.pledges@.len() && self.pledges@[j] == s[k] by {
                            assert(self.pledges@[k] == s[k]);
                        }
                    }
                }
            },
        }
        proof {
            lemma_save_keeps_inv(*old(self), *self, pledge, old_long, old_short);
            lemma_others_kept(*old(self), *self, pledge);
        }
        Ok(())
    }

    /// `id` is the account of a long index entry at place `from` or later.
    pub open spec fn in_long_tree(&self, id: Seq<char>, from: int) -> bool {
        exists|i: int| from <= i < self.long_crs.value@.len() && id == #[trigger] self.long_crs.snapshots()[i].id@
    }

    /// Accounts of the long index in key order, skipping the first
    /// `from_index` of them, at most `limit` of them.
    pub fn get_pledge_tree(&self, from_index: u64, limit: u64) -> (r: Vec<String>)
        ensures
            r@.len() <= limit,
            forall|k: int| 0 <= k < r@.len() ==> self.in_long_tree((#[trigger] r@[k])@, from_index as int),
    {
        let all = self.long_crs.to_vec();
        let mut r: Vec<String> = Vec::new();
        let mut j: usize = 0;
        while j < all.len()
            invariant
                all@ == self.long_crs.snapshots(),
                all@.len() == self.long_crs.value@.len(),
                j <= all@.len(),
                r@.len() <= limit,
                forall|k: int| 0 <= k < r@.len() ==> self.in_long_tree((#[trigger] r@[k])@, from_index as int),
            decreases all@.len() - j,
        {
            if (j as u64) >= from_index && (r.len() as u64) < limit {
                let ghost before = r@;
                r.push(all[j].id.clone());
                assert forall|k: int| 0 <= k < r@.len() implies self.in_long_tree((#[trigger] r@[k])@, from_index as int) by {
                    if k < before.len() {
                        assert(r@[k] == before[k]);
                    } else {
                        assert(r@[k]@ == self.long_crs.snapshots()[j as int].id@);
                        assert(from_index <= j);
                    }
                }
            }
            j = j + 1;
        }
        r
    }

    /// Up to `limit` stored positions, from place `from_index` on.
    pub fn get_pledges(&self, from_index: u64, limit: u64) -> (r: Vec<(String, PledgeView)>)
        ensures
            forall|k: int|
                0 <= k < r@.len() ==> {
                    let i = from_index + k;
                    &&& 0 <= i < self.pledges@.len()
                    &&& (#[trigger] r@[k]).0@ == self.pledges@[i].id@
                    &&& r@[k].1 == PledgeView::spec_from(self.pledges@[i])
                },
            r@.len() == (if from_index >= self.pledges@.len() {
                0
            } else if from_index + limit <= self.pledges@.len() {
                limit as int
            } else {
                self.pledges@.len() - from_index
            }),
    {
        let n = self.pledges.len() as u64;
        let end: u64 = if limit <= n && from_index <= n - limit {
            from_index + limit
        } else {
            n
        };
        let mut r: Vec<(String, PledgeView)> = Vec::new();
        if from_index >= n {
            return r;
        }
        let mut j: usize = 0;
        while j < self.pledges.len()
            invariant
                n == self.pledges@.len(),
                end <= n,
                from_index < n,
                j <= n,
                end == (if from_index + limit <= n { from_index + limit } else { n as int }),
                r@.len() == (if j <= from_index { 0 } else if j <= end { j - from_index } else { end - from_index }),
                forall|k: int|
                    0 <= k < r@.len() ==> {
                        let i = from_index + k;
                        &&& 0 <= i < self.pledges@.len()
                        &&& (#[trigger] r@[k]).0@ == self.pledges@[i].id@
                        &&& r@[k].1 == PledgeView::spec_from(self.pledges@[i])
                    },
            decreases self.pledges@.len() - j,
        {
            let jj = j as u64;
            if jj >= from_index && jj < end {
                let p = &self.pledges[j];
                let ghost before = r@;
                r.push((p.id.clone(), PledgeView::from(p)));
                assert forall|k: int|
                    0 <= k < r@.len() implies {
                        let i = from_index + k;
                        &&& 0 <= i < self.pledges@.len()
                        &&& (#[trigger] r@[k]).0@ == self.pledges@[i].id@
                        &&& r@[k].1 == PledgeView::spec_from(self.pledges@[i])
                    } by {
                    if k < before.len() {
                        assert(r@[k] == before[k]);
                    }
                }
            }
            j = j + 1;
        }
        r
    }
}

} // verus!
