//! Burning debt against positions, and the redemption (QD to NEAR) and
//! inversion (NEAR to QD) paths that fall back on the dead pool and the
//! solvency pool.
use vstd::prelude::*;
use crate::books::{lemma_save_keeps_balance, moved_alike};
use crate::contract::{lemma_inv_frame, Contract};
use crate::error::{cr_checked, minus, plus, ratio_checked, QuidError};
use crate::math::{ratio_spec, KILL_CR, MIN_CR, ONE};
use crate::pledge::Pledge;
use crate::pool::{Pod, Pool};
use crate::token::{balance, balance_of, burn, mint};

verus! {

/// Positions visited per redemption or inversion.
pub const HOPS: usize = 10;

/// What `turn` burns: the smaller of `amt` and the side's debt.
pub open spec fn burnt(p: Pledge, amt: u128, short: bool) -> int {
    if p.side(short).debit < amt { p.side(short).debit as int } else { amt as int }
}

/// The collateral `turn` releases with `m` burnt: at the liquidation ratio for
/// a long side, at the price for a short side.
pub open spec fn released(m: int, short: bool, price: u128) -> int {
    if short { ratio_spec(price as int, m, ONE as int) } else { ratio_spec(KILL_CR as int, m, price as int) }
}

/// `turn` succeeds: nothing is burnt, or the live pool covers what leaves,
/// the release is computable and covered, and the position can be re-keyed.
pub open spec fn turn_ok(c: Contract, p: Pledge, amt: u128, repay: bool, short: bool) -> bool {
    let m = burnt(p, amt, short);
    let rel = if repay { 0 } else { released(m, short, c.price) };
    let d = (p.side(short).debit - m) as u128;
    let cr = (p.side(short).credit - rel) as u128;
    let after = if short {
        Pledge { short: Pod { credit: cr, debit: d }, ..p }
    } else {
        Pledge { long: Pod { credit: cr, debit: d }, ..p }
    };
    m == 0 || {
        &&& m <= c.live.side(short).debit
        &&& !repay ==> (if short { crate::math::ratio_ok(c.price, m as u128, ONE) } else {
            crate::math::ratio_ok(KILL_CR, m as u128, c.price)
        })
        &&& rel <= p.side(short).credit
        &&& rel <= c.live.side(short).credit
        &&& after.side_active(false) ==> c.long_crs.can_key(after, c.price)
        &&& after.side_active(true) ==> c.short_crs.can_key(after, c.price)
    }
}

impl Contract {
    /// Burns up to `amt` of the debt of one side of `pledge` and returns how
    /// much was burnt, the smaller of `amt` and that debt. Unless `repay`,
    /// collateral is released with it: for a long side at the liquidation
    /// ratio (`burnt * KILL_CR / price` NEAR), for a short side at the price
    /// (`burnt * price / ONE` QD). The live pool follows, and a touched
    /// position is saved.
    #[verifier::rlimit(100)]
    pub fn turn(&mut self, amt: u128, repay: bool, short: bool, pledge: &mut Pledge) -> (r: Result<u128, QuidError>)
        requires
            old(self).inv(),
        ensures
            r.is_ok() ==> final(self).inv() && final(self).same_settings(*old(self)),
            r.is_err() ==> crate::error::is_arith(r->Err_0),
            r.is_ok() == turn_ok(*old(self), *old(pledge), amt, repay, short),
            r.is_ok() ==> r.unwrap() == (if old(pledge).side(short).debit < amt {
                old(pledge).side(short).debit
            } else {
                amt
            }),
            r.is_ok() ==> final(pledge).side(short).debit == old(pledge).side(short).debit - r.unwrap(),
            r.is_ok() ==> final(self).live.side(short).debit == old(self).live.side(short).debit - r.unwrap(),
            r.is_ok() && (repay || r.unwrap() == 0) ==> final(pledge).side(short).credit == old(pledge).side(short).credit
                && final(self).live.side(short).credit == old(self).live.side(short).credit,
            r.is_ok() && !repay && !short && r.unwrap() > 0 ==> final(pledge).long.credit == old(pledge).long.credit
                - ratio_spec(KILL_CR as int, r.unwrap() as int, old(self).price as int),
            r.is_ok() && !repay && short && r.unwrap() > 0 ==> final(pledge).short.credit == old(pledge).short.credit
                - ratio_spec(old(self).price as int, r.unwrap() as int, ONE as int),
            r.is_ok() && !repay ==> old(pledge).side(short).credit - final(pledge).side(short).credit
                == old(self).live.side(short).credit - final(self).live.side(short).credit,
            r.is_ok() ==> final(pledge).side(!short) == old(pledge).side(!short) && final(pledge).id == old(pledge).id
                && final(pledge).quid == old(pledge).quid && final(pledge).near == old(pledge).near,
            r.is_ok() ==> final(self).live.side(!short) == old(self).live.side(!short) && final(self).blood == old(self).blood
                && final(self).gfund == old(self).gfund && final(self).dead == old(self).dead && final(self).token == old(self).token,
            r.is_ok() && old(self).balanced() && old(self).stores(*old(pledge)) ==> final(self).balanced(),
            r.is_ok() && old(self).balanced_live() && old(self).stores(*old(pledge)) ==> final(self).balanced_live(),
            r.is_ok() && old(self).balanced_sp() && old(self).stores(*old(pledge)) ==> final(self).balanced_sp(),
            r.is_ok() && r.unwrap() == 0 ==> *final(self) == *old(self) && *final(pledge) == *old(pledge),
            r.is_ok() ==> final(self).same_except(*old(self), old(pledge).id@),
            r.is_ok() && r.unwrap() > 0 ==> final(self).has(final(pledge).id@) == !final(pledge).is_empty()
                && forall|i: int| #[trigger] final(self).place(final(pledge).id@, i) ==> final(self).pledges@[i] == *final(pledge),
    {
        let price = self.price;
        let ghost books = *self;
        let ghost before = *pledge;
        let min: u128;
        if !short {
            min = if pledge.long.debit < amt { pledge.long.debit } else { amt };
            if min > 0 {
                let live_debit = minus(self.live.long.debit, min)?;
                self.live.long.debit = live_debit;
                pledge.long.debit = pledge.long.debit - min;
            }
        } else {
            min = if pledge.short.debit < amt { pledge.short.debit } else { amt };
            if min > 0 {
                let live_debit = minus(self.live.short.debit, min)?;
                self.live.short.debit = live_debit;
                pledge.short.debit = pledge.short.debit - min;
            }
        }
        proof {
            if min == 0 {
                assert forall|o: String| o@ != before.id@ implies #[trigger] self.has(o@) == books.has(o@)
                    && self.position_of(o) == books.position_of(o) by {}
            }
        }
        if min > 0 {
            if !repay {
                if !short {
                    let redempt = ratio_checked(KILL_CR, min, price)?;
                    pledge.long.credit = minus(pledge.long.credit, redempt)?;
                    self.live.long.credit = minus(self.live.long.credit, redempt)?;
                } else {
                    let redempt = ratio_checked(price, min, ONE)?;
                    pledge.short.credit = minus(pledge.short.credit, redempt)?;
                    self.live.short.credit = minus(self.live.short.credit, redempt)?;
                }
            }
            proof {
                assert(moved_alike(books, *self, before, *pledge));
                lemma_inv_frame(books, *self);
            }
            let ghost mid = *self;
            self.save_pledge(pledge.clone())?;
            proof {
                crate::contract::lemma_same_store(mid, books);
                assert forall|o: String| o@ != before.id@ implies #[trigger] self.has(o@) == books.has(o@)
                    && self.position_of(o) == books.position_of(o) by {
                    assert(mid.has(o@) == books.has(o@));
                    assert(self.has(o@) == mid.has(o@) && self.position_of(o) == mid.position_of(o));
                }
                if old(self).stores(before) {
                    let i = choose|i: int| #[trigger] books.place(before.id@, i) && books.pledges@[i] == before;
                    assert(books.has(before.id@));
                    if old(self).balanced() {
                        lemma_save_keeps_balance(books, mid, *self, before, *pledge);
                    }
                    if old(self).balanced_live() {
                        crate::books::lemma_save_keeps_books(books, mid, *self, before, *pledge, 0, 4);
                    }
                    if old(self).balanced_sp() {
                        crate::books::lemma_save_keeps_books(books, mid, *self, before, *pledge, 4, 6);
                    }
                }
            }
        }
        Ok(min)
    }
}

/// What is left of a redemption's residual `left` once the dead pool's long
/// side has cleared what it can.
pub open spec fn redeem_after_dead(left: int, price: u128, dead: Pool) -> int {
    let val = ratio_spec(price as int, dead.long.debit as int, ONE as int);
    let val_collat = if val > dead.long.credit { dead.long.credit as int } else { val };
    if val_collat >= left { 0 } else { left - val_collat }
}

/// The dead pool and solvency pool after the part `left` of a redemption
/// that the live positions did not take: QD debt of the dead pool's long
/// side is cleared against its NEAR first, then the solvency pool sells
/// NEAR for the QD, and NEAR it lacks becomes dead-pool short entries.
pub open spec fn redeem_rest_spec(left: int, price: u128, dead: Pool, blood: Pod) -> (Pool, Pod) {
    let val = ratio_spec(price as int, dead.long.debit as int, ONE as int);
    let val_collat = if val > dead.long.credit { dead.long.credit as int } else { val };
    let redempt = if val_collat >= left { left } else { val_collat };
    let amt = left - redempt;
    let dead1 = if redempt > 0 {
        Pool { long: Pod { credit: (dead.long.credit - redempt) as u128, debit: (dead.long.debit - ratio_spec(ONE as int, redempt, price as int)) as u128 }, ..dead }
    } else {
        dead
    };
    if amt > 0 {
        let near = ratio_spec(ONE as int, amt, price as int);
        let m = if blood.debit < near { blood.debit as int } else { near };
        let blood1 = Pod { credit: (blood.credit + amt) as u128, debit: (blood.debit - m) as u128 };
        let rest = near - m;
        if rest > 0 {
            let qd = ratio_spec(price as int, rest, ONE as int);
            (Pool { short: Pod { credit: (dead1.short.credit + rest) as u128, debit: (dead1.short.debit + qd) as u128 }, ..dead1 }, blood1)
        } else {
            (dead1, blood1)
        }
    } else {
        (dead1, blood)
    }
}

/// The dead pool after the part `left` of an inversion that the live
/// positions did not take clears NEAR debt of its short side against its QD,
/// and the NEAR still to buy.
pub open spec fn invert_dead_spec(left: int, price: u128, dead: Pool) -> (Pool, int) {
    let capped = if left < dead.short.credit { left } else { dead.short.credit as int };
    let val = ratio_spec(price as int, capped, ONE as int);
    let redempt = if val > 0 && dead.short.debit >= val {
        capped
    } else if dead.short.debit > 0 && dead.short.credit > 0 {
        let nv = ratio_spec(ONE as int, dead.short.debit as int, price as int);
        if 0 <= nv < capped { nv } else { capped }
    } else {
        0
    };
    let bought = if val > 0 && dead.short.debit >= val { val } else { dead.short.debit as int };
    if redempt > 0 {
        (Pool { short: Pod { credit: (dead.short.credit - redempt) as u128, debit: (dead.short.debit - bought) as u128 }, ..dead }, left - redempt)
    } else {
        (dead, left - redempt)
    }
}

/// The dead pool and solvency pool once the solvency pool sells QD for the
/// NEAR `amt` still to buy, and QD it lacks becomes dead-pool long entries.
pub open spec fn invert_pool_spec(amt: int, price: u128, dead: Pool, blood: Pod) -> (Pool, Pod) {
    if amt > 0 {
        let quid = ratio_spec(price as int, amt, ONE as int);
        let m = if quid < blood.credit { quid } else { blood.credit as int };
        let m_near = ratio_spec(ONE as int, m, price as int);
        let blood1 = Pod { credit: (blood.credit - m) as u128, debit: (blood.debit + m_near) as u128 };
        if quid - m > 0 {
            (Pool { long: Pod { credit: (dead.long.credit + (quid - m)) as u128, debit: (dead.long.debit + (amt - m_near)) as u128 }, ..dead }, blood1)
        } else {
            (dead, blood1)
        }
    } else {
        (dead, blood)
    }
}

/// The dead pool and solvency pool after the part `left` of an inversion
/// that the live positions did not take.
pub open spec fn invert_rest_spec(left: int, price: u128, dead: Pool, blood: Pod) -> (Pool, Pod) {
    invert_pool_spec(invert_dead_spec(left, price, dead).1, price, invert_dead_spec(left, price, dead).0, blood)
}

impl Contract {
    /// Walks the first `many` positions of one side's index in key order and
    /// burns debt of those whose ratio lies in `[KILL_CR, MIN_CR)`, releasing
    /// collateral to the caller's benefit. Stops at the first position at or
    /// above `MIN_CR`, skips those below `KILL_CR` (they are for liquidation),
    /// and returns what is left of `amt`. The stored position is used, not the
    /// index's snapshot of it.
    pub fn turnFrom(&mut self, amt: u128, short: bool, many: usize) -> (r: Result<u128, QuidError>)
        requires
            old(self).inv(),
        ensures
            r.is_ok() ==> final(self).inv() && final(self).same_settings(*old(self)),
            r.is_ok() ==> r.unwrap() <= amt,
            r.is_err() ==> crate::error::is_arith(r->Err_0),
            r.is_ok() ==> final(self).blood == old(self).blood && final(self).gfund == old(self).gfund
                && final(self).dead == old(self).dead && final(self).token == old(self).token,
            r.is_ok() ==> final(self).live.side(!short) == old(self).live.side(!short),
            r.is_ok() ==> amt - r.unwrap() == old(self).live.side(short).debit - final(self).live.side(short).debit,
            r.is_ok() ==> final(self).changed_only_in_band(*old(self), short),
    {
        let top = if short { self.short_crs.get_top(many) } else { self.long_crs.get_top(many) };
        let price = self.price;
        let mut left = amt;
        let mut i: usize = 0;
        while i < top.len()
            invariant
                self.inv(),
                self.same_settings(*old(self)),
                price == self.price,
                left <= amt,
                self.blood == old(self).blood && self.gfund == old(self).gfund
                    && self.dead == old(self).dead && self.token == old(self).token,
                self.live.side(!short) == old(self).live.side(!short),
                amt - left == old(self).live.side(short).debit - self.live.side(short).debit,
                self.changed_only_in_band(*old(self), short),
            decreases top@.len() - i,
        {
            if left == 0 {
                break;
            }
            match self.find(&top[i].id) {
                None => {},
                Some(j) => {
                    let mut p = self.pledges[j].clone();
                    let cr = if short {
                        cr_checked(price, p.short.credit, p.short.debit, true)?
                    } else {
                        cr_checked(price, p.long.credit, p.long.debit, false)?
                    };
                    if cr >= MIN_CR {
                        break;
                    }
                    if cr >= KILL_CR {
                        let ghost before = *self;
                        let ghost x = p.id;
                        proof {
                            assert(self.place(x@, j as int));
                            let k = choose|k: int| #[trigger] self.place(x@, k);
                            assert(k == j);
                            assert(self.in_band(x, short));
                            if !(old(self).in_band(x, short)) {
                                assert(self.has(x@) == old(self).has(x@) && self.position_of(x) == old(self).position_of(x));
                            }
                        }
                        let burnt = self.turn(left, false, short, &mut p)?;
                        proof {
                            assert forall|o: String| (#[trigger] self.has(o@) != old(self).has(o@)
                                || self.position_of(o) != old(self).position_of(o)) implies old(self).in_band(o, short) by {
                                if o@ != x@ {
                                    assert(self.has(o@) == before.has(o@) && self.position_of(o) == before.position_of(o));
                                } else {
                                    assert(old(self).in_band(x, short));
                                    assert(old(self).position_of(o) == old(self).position_of(x));
                                    assert(old(self).has(o@) == old(self).has(x@));
                                }
                            }
                        }
                        left = left - burnt;
                    }
                },
            }
            i = i + 1;
        }
        Ok(left)
    }

    /// Sells `quid` QD for NEAR: first by burning debt of long positions in
    /// `[KILL_CR, MIN_CR)`, then against the dead pool's long side (QD debt
    /// cleared against its NEAR), then from the solvency pool's NEAR (which is
    /// credited the QD), and what is still missing becomes NEAR debt and QD
    /// collateral of the dead pool's short side. Refused where the protocol
    /// holds too little NEAR for the part the solvency pool is to pay.
    pub fn redeem(&mut self, quid: u128) -> (r: Result<(), QuidError>)
        requires
            old(self).inv(),
        ensures
            r.is_ok() ==> final(self).inv() && final(self).same_settings(*old(self)),
            r.is_ok() ==> final(self).gfund == old(self).gfund,
            r.is_ok() ==> final(self).live.short == old(self).live.short,
            r.is_ok() ==> final(self).changed_only_in_band(*old(self), false),
            r.is_err() ==> crate::error::is_arith(r->Err_0) || r == Err::<(), QuidError>(QuidError::InsufficientNear),
            r.is_ok() ==> forall|a: Seq<char>| a != old(self).self_id@ ==> balance(final(self).token, a) == balance(old(self).token, a),
            r.is_ok() ==> exists|left: int| 0 <= left <= quid && #[trigger] redeem_rest_spec(left, old(self).price, old(self).dead, old(self).blood)
                == (final(self).dead, final(self).blood)
                && quid - left == old(self).live.long.debit - final(self).live.long.debit
                && (redeem_after_dead(left, old(self).price, old(self).dead) > 0 ==> old(self).native_balance
                    > ratio_spec(ONE as int, redeem_after_dead(left, old(self).price, old(self).dead), old(self).price as int)),
            r == Err::<(), QuidError>(QuidError::InsufficientNear) ==> exists|left: int| 0 <= left <= quid && {
                let rest = #[trigger] redeem_after_dead(left, old(self).price, old(self).dead);
                rest > 0 && old(self).native_balance <= ratio_spec(ONE as int, rest, old(self).price as int)
            },
    {
        let price = self.price;
        let mut amt = self.turnFrom(quid, false, HOPS)?;
        let ghost left = amt as int;
        let ghost mid = *self;
        if amt > 0 {
            let mut val_collat = ratio_checked(price, self.dead.long.debit, ONE)?;
            if val_collat > self.dead.long.credit {
                val_collat = self.dead.long.credit;
            }
            let redempt: u128;
            if val_collat >= amt {
                redempt = amt;
                amt = 0;
            } else {
                redempt = val_collat;
                amt = amt - redempt;
            }
            if redempt > 0 {
                let bought = ratio_checked(ONE, redempt, price)?;
                self.dead.long.credit = minus(self.dead.long.credit, redempt)?;
                self.dead.long.debit = minus(self.dead.long.debit, bought)?;
            }
            if amt > 0 {
                let mut near = ratio_checked(ONE, amt, price)?;
                if !(self.native_balance > near) {
                    assert(redeem_after_dead(left, price, old(self).dead) == amt);
                    return Err(QuidError::InsufficientNear);
                }
                let min = if self.blood.debit < near { self.blood.debit } else { near };
                let self_id = self.self_id.clone();
                mint(&mut self.token, &self_id, amt)?;
                self.blood.credit = plus(self.blood.credit, amt)?;
                self.blood.debit = self.blood.debit - min;
                near = near - min;
                if near > 0 {
                    let qd = ratio_checked(price, near, ONE)?;
                    mint(&mut self.token, &self_id, qd)?;
                    self.dead.short.debit = plus(self.dead.short.debit, qd)?;
                    self.dead.short.credit = plus(self.dead.short.credit, near)?;
                }
            }
        }
        proof {
            crate::contract::lemma_inv_frame(mid, *self);
            crate::contract::lemma_same_store(*self, mid);
            assert(redeem_rest_spec(left, old(self).price, old(self).dead, old(self).blood) == (self.dead, self.blood));
        }
        Ok(())
    }

    /// Buys QD with `near` NEAR: first by burning debt of short positions in
    /// `[KILL_CR, MIN_CR)`, then against the dead pool's short side (NEAR
    /// debt cleared against its QD, as far as it holds both), then from the solvency pool's QD (which
    /// is credited the NEAR), and what is still missing becomes QD debt and
    /// NEAR collateral of the dead pool's long side. Refused where the
    /// protocol's own QD balance does not exceed the QD the solvency pool is
    /// to pay.
    pub fn invert(&mut self, near: u128) -> (r: Result<(), QuidError>)
        requires
            old(self).inv(),
        ensures
            r.is_ok() ==> final(self).inv() && final(self).same_settings(*old(self)),
            r.is_ok() ==> final(self).gfund == old(self).gfund,
            r.is_ok() ==> final(self).live.long == old(self).live.long,
            r.is_ok() ==> final(self).changed_only_in_band(*old(self), true),
            r.is_err() ==> crate::error::is_arith(r->Err_0) || r == Err::<(), QuidError>(QuidError::InsufficientQd),
            r.is_ok() ==> forall|a: Seq<char>| a != old(self).self_id@ ==> balance(final(self).token, a) == balance(old(self).token, a),
            r.is_ok() ==> exists|left: int| 0 <= left <= near && #[trigger] invert_rest_spec(left, old(self).price, old(self).dead, old(self).blood)
                == (final(self).dead, final(self).blood)
                && near - left == old(self).live.short.debit - final(self).live.short.debit
                && (invert_dead_spec(left, old(self).price, old(self).dead).1 > 0 ==> balance(old(self).token, old(self).self_id@)
                    > ratio_spec(old(self).price as int, invert_dead_spec(left, old(self).price, old(self).dead).1, ONE as int)),
            r == Err::<(), QuidError>(QuidError::InsufficientQd) ==> exists|left: int| 0 <= left <= near && {
                let rest = (#[trigger] invert_dead_spec(left, old(self).price, old(self).dead)).1;
                rest > 0 && balance(old(self).token, old(self).self_id@) <= ratio_spec(old(self).price as int, rest, ONE as int)
            },
    {
        let price = self.price;
        let mut amt = self.turnFrom(near, true, HOPS)?;
        let ghost left = amt as int;
        let ghost mid = *self;
        if amt > 0 {
            // no more NEAR debt can be cleared than the dead pool holds
            let capped = if amt < self.dead.short.credit { amt } else { self.dead.short.credit };
            let val = ratio_checked(price, capped, ONE)?;
            let mut redempt: u128 = 0;
            let mut bought: u128 = 0;
            if val > 0 && self.dead.short.debit >= val {
                redempt = capped;
                bought = val;
                amt = amt - capped;
            } else if self.dead.short.debit > 0 && self.dead.short.credit > 0 {
                bought = self.dead.short.debit;
                let near_value = ratio_checked(ONE, bought, price)?;
                redempt = if near_value < capped { near_value } else { capped };
                amt = amt - redempt;
            }
            if redempt > 0 {
                self.dead.short.credit = minus(self.dead.short.credit, redempt)?;
                self.dead.short.debit = minus(self.dead.short.debit, bought)?;
            }
            assert((self.dead, amt as int) == invert_dead_spec(left, price, old(self).dead));
            let ghost dead1 = self.dead;
            let ghost amt1 = amt as int;
            if amt > 0 {
                let mut quid = ratio_checked(price, amt, ONE)?;
                let self_id = self.self_id.clone();
                let liq_qd = balance_of(&self.token, &self_id);
                if !(liq_qd > quid) {
                    assert(invert_dead_spec(left, price, old(self).dead).1 == amt);
                    return Err(QuidError::InsufficientQd);
                }
                let min = if quid < self.blood.credit { quid } else { self.blood.credit };
                let min_near = ratio_checked(ONE, min, price)?;
                burn(&mut self.token, &self_id, min)?;
                self.blood.debit = plus(self.blood.debit, min_near)?;
                self.blood.credit = self.blood.credit - min;
                amt = minus(amt, min_near)?;
                quid = quid - min;
                if quid > 0 {
                    self.dead.long.debit = plus(self.dead.long.debit, amt)?;
                    self.dead.long.credit = plus(self.dead.long.credit, quid)?;
                }
            }
            assert((self.dead, self.blood) == invert_pool_spec(amt1, price, dead1, old(self).blood));
        }
        proof {
            crate::contract::lemma_inv_frame(mid, *self);
            crate::contract::lemma_same_store(*self, mid);
            if left == 0 {
                assert(ratio_spec(price as int, 0, ONE as int) == 0);
                assert(invert_dead_spec(left, price, old(self).dead) == (old(self).dead, 0int));
            }
            assert(invert_rest_spec(left, old(self).price, old(self).dead, old(self).blood) == (self.dead, self.blood));
        }
        Ok(())
    }
}

} // verus!
