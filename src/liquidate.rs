//! Rescue and liquidation of positions under the minimum ratio.
use vstd::prelude::*;
use crate::contract::Contract;
use crate::error::{cr_checked, minus, plus, ratio_checked, times, QuidError};
use crate::math::{cr_ok, cr_spec, ratio_spec, KILL_CR, MIN_CR, ONE};
use crate::pledge::Pledge;
use crate::pool::Pod;
use crate::token::{balance, balance_of, burn, mint};

verus! {

/// What `shrink` does to a side of `credit` and `debit` at `price`: the
/// amount `x` sold in QD, and the new credit and debit.
pub open spec fn shrink_spec(price: u128, credit: u128, debit: u128, short: bool) -> (int, int, int) {
    let coll = if short { credit as int } else { ratio_spec(price as int, credit as int, KILL_CR as int) };
    let debt = if short { ratio_spec(price as int, debit as int, KILL_CR as int) } else { debit as int };
    let x = 10 * (ratio_spec(MIN_CR as int, debt, KILL_CR as int) - coll);
    if short {
        (x, coll - x, ratio_spec(KILL_CR as int, debt - x, price as int))
    } else {
        (x, ratio_spec(KILL_CR as int, coll - x, price as int), debt - x)
    }
}

pub open spec fn min_of(a: int, b: int) -> int {
    if a < b { a } else { b }
}

/// What `long_save` returns for position `p`, liquid QD `available` and
/// `price`: `(near, credit, quid, debit)`.
pub open spec fn long_save_spec(p: Pledge, available: u128, price: u128) -> (int, int, int, int) {
    let delta = ratio_spec(MIN_CR as int, p.long.debit as int, price as int) - p.long.credit;
    let m1 = min_of(p.near as int, delta);
    let near = p.near - m1;
    let credit = p.long.credit + m1;
    if delta > m1 {
        let delta2 = p.long.debit - ratio_spec(price as int, credit, MIN_CR as int);
        let m2 = min_of(available as int, delta2);
        let rest = delta2 - m2;
        let m3 = if rest > 0 { min_of(p.quid as int, rest) } else { 0 };
        (near, credit, p.quid - m3, p.long.debit - m2 - m3)
    } else {
        (near, credit, p.quid as int, p.long.debit as int)
    }
}

/// What `short_save` returns for position `p`, liquid QD `available` and
/// `price`: `(quid, credit, near, debit)`.
pub open spec fn short_save_spec(p: Pledge, available: u128, price: u128) -> (int, int, int, int) {
    let val_debt = ratio_spec(price as int, p.short.debit as int, ONE as int);
    let final_qd = ratio_spec(MIN_CR as int, val_debt, KILL_CR as int);
    let delta = final_qd - p.short.credit;
    let m1 = min_of(available as int, delta);
    let credit1 = p.short.credit + m1;
    let rest1 = delta - m1;
    if rest1 > 0 {
        let m2 = min_of(p.quid as int, rest1);
        let credit2 = credit1 + m2;
        let rest2 = rest1 - m2;
        if rest2 > 0 {
            let delta3 = val_debt - ratio_spec(ONE as int, credit2, MIN_CR as int);
            let m3 = min_of(p.near as int, delta3);
            (p.quid - m2, credit2, p.near - m3, p.short.debit - m3)
        } else {
            (p.quid - m2, credit2, p.near as int, p.short.debit as int)
        }
    } else {
        (p.quid as int, credit1, p.near as int, p.short.debit as int)
    }
}

/// The books `c1` after `c0`'s side (`debt`, `collat`) was moved to the dead
/// pool: the live cell loses both, the dead cell gains the collateral and the
/// part of the debt it covers, and the guarantee fund takes the rest.
pub open spec fn snatched_books(c0: Contract, c1: Contract, debt: u128, collat: u128, short: bool) -> bool {
    let price = c0.price;
    &&& c1.blood == c0.blood
    &&& if short {
        let val_debt = ratio_spec(price as int, debt as int, ONE as int);
        let delta_debt = ratio_spec(ONE as int, val_debt - collat, price as int);
        &&& c1.live.short.credit == c0.live.short.credit - collat && c1.live.short.debit == c0.live.short.debit - debt
        &&& c1.dead.short.credit == c0.dead.short.credit + collat && c1.dead.short.debit == c0.dead.short.debit + (debt - delta_debt)
        &&& c1.gfund.short.debit == c0.gfund.short.debit + delta_debt
        &&& c1.live.long == c0.live.long && c1.dead.long == c0.dead.long && c1.gfund.long == c0.gfund.long
        &&& c1.gfund.short.credit == c0.gfund.short.credit
    } else {
        let val_coll = ratio_spec(price as int, collat as int, ONE as int);
        &&& c1.live.long.credit == c0.live.long.credit - collat && c1.live.long.debit == c0.live.long.debit - debt
        &&& c1.dead.long.credit == c0.dead.long.credit + collat && c1.dead.long.debit == c0.dead.long.debit + val_coll
        &&& c1.gfund.long.debit == c0.gfund.long.debit + (debt - val_coll)
        &&& c1.live.short == c0.live.short && c1.dead.short == c0.dead.short && c1.gfund.short == c0.gfund.short
        &&& c1.gfund.long.credit == c0.gfund.long.credit
    }
}

/// The books `c1` after the owner's rescue of side `short` of `p` produced
/// `(a, credit, b, debit)` (NEAR and QD deposits in the order of the side's
/// rescue): the solvency pool pays what the deposits gave and the live cell
/// follows the side.
pub open spec fn saved_books(c0: Contract, c1: Contract, p: Pledge, a: u128, credit: u128, b: u128, debit: u128, short: bool) -> bool {
    let (near, quid) = if short { (b, a) } else { (a, b) };
    &&& c1.blood.debit == c0.blood.debit - (p.near - near)
    &&& c1.blood.credit == c0.blood.credit - (p.quid - quid)
    &&& c1.live.side(short).credit == c0.live.side(short).credit + (credit - p.side(short).credit)
    &&& c1.live.side(short).debit == c0.live.side(short).debit - (p.side(short).debit - debit)
    &&& c1.live.side(!short) == c0.live.side(!short)
}

/// `snatch` can move `debt` and `collat` of a side: the collateral does not
/// cover the debt, and every book entry it touches stays within range.
pub open spec fn snatch_ok(c: Contract, debt: u128, collat: u128, short: bool) -> bool {
    let price = c.price;
    if short {
        let val_debt = ratio_spec(price as int, debt as int, ONE as int);
        let delta_debt = ratio_spec(ONE as int, val_debt - collat, price as int);
        &&& crate::math::ratio_ok(price, debt, ONE)
        &&& collat < val_debt
        &&& crate::math::ratio_ok(ONE, (val_debt - collat) as u128, price)
        &&& delta_debt <= debt
        &&& collat <= c.live.short.credit
        &&& c.dead.short.credit + collat <= u128::MAX
        &&& debt <= c.live.short.debit
        &&& c.dead.short.debit + (debt - delta_debt) <= u128::MAX
        &&& c.gfund.short.debit + delta_debt <= u128::MAX
    } else {
        let val_coll = ratio_spec(price as int, collat as int, ONE as int);
        &&& crate::math::ratio_ok(price, collat, ONE)
        &&& val_coll < debt
        &&& collat <= c.live.long.credit
        &&& c.dead.long.credit + collat <= u128::MAX
        &&& debt <= c.live.long.debit
        &&& c.dead.long.debit + val_coll <= u128::MAX
        &&& c.gfund.long.debit + (debt - val_coll) <= u128::MAX
    }
}

/// `long_save` succeeds: the amounts it moves are computable and covered
/// by the books and the owner's ledger balance.
pub open spec fn long_save_ok(c: Contract, p: Pledge, available: u128) -> bool {
    let price = c.price;
    let need = ratio_spec(MIN_CR as int, p.long.debit as int, price as int);
    let delta = need - p.long.credit;
    let m1 = min_of(p.near as int, delta);
    let credit = p.long.credit + m1;
    let delta2 = p.long.debit - ratio_spec(price as int, credit, MIN_CR as int);
    let m2 = min_of(available as int, delta2);
    let rest = delta2 - m2;
    let m3 = if rest > 0 { min_of(p.quid as int, rest) } else { 0 };
    &&& crate::math::ratio_ok(MIN_CR, p.long.debit, price) && need >= p.long.credit
    &&& credit <= u128::MAX && c.live.long.credit + m1 <= u128::MAX && m1 <= c.blood.debit
    &&& delta > m1 ==> {
        &&& crate::math::ratio_ok(price, credit as u128, MIN_CR) && delta2 >= 0
        &&& m2 + m3 <= c.live.long.debit
        &&& m2 > 0 ==> m2 <= balance(c.token, p.id@) && m2 <= crate::token::ft_supply(c.token)
        &&& m3 <= c.blood.credit
    }
}

/// `short_save` succeeds: the amounts it moves are computable and covered
/// by the books and the ledger, for an owner other than the protocol.
pub open spec fn short_save_ok(c: Contract, p: Pledge, available: u128) -> bool {
    let price = c.price;
    let val_debt = ratio_spec(price as int, p.short.debit as int, ONE as int);
    let final_qd = ratio_spec(MIN_CR as int, val_debt, KILL_CR as int);
    let delta = final_qd - p.short.credit;
    let m1 = min_of(available as int, delta);
    let credit1 = p.short.credit + m1;
    let rest1 = delta - m1;
    let m2 = min_of(p.quid as int, rest1);
    let credit2 = credit1 + m2;
    let delta3 = val_debt - ratio_spec(ONE as int, credit2, MIN_CR as int);
    let m3 = min_of(p.near as int, delta3);
    &&& crate::math::ratio_ok(price, p.short.debit, ONE) && crate::math::ratio_ok(MIN_CR, val_debt as u128, KILL_CR)
    &&& final_qd >= p.short.credit
    &&& credit1 <= u128::MAX && c.live.short.credit + m1 <= u128::MAX
    &&& m1 > 0 ==> p.id@ != c.self_id@ && m1 <= balance(c.token, p.id@) && m1 <= crate::token::ft_supply(c.token)
        && balance(c.token, c.self_id@) + m1 <= u128::MAX
    &&& rest1 > 0 ==> {
        &&& credit2 <= u128::MAX && c.live.short.credit + m1 + m2 <= u128::MAX && m2 <= c.blood.credit
        &&& rest1 - m2 > 0 ==> crate::math::ratio_ok(ONE, credit2 as u128, MIN_CR) && delta3 >= 0
            && m3 <= p.short.debit && m3 <= c.blood.debit && m3 <= c.live.short.debit
    }
}

/// `try_kill_pledge` succeeds without shrinking: the owner's rescue can run,
/// and it either brings the side to `MIN_CR` or leaves it under `KILL_CR` with
/// a liquidation that fits the books.
pub open spec fn try_kill_ok(c: Contract, p: Pledge, short: bool) -> bool {
    let price = c.price;
    let avail = balance(c.token, p.id@) as u128;
    let save = if short { short_save_spec(p, avail, price) } else { long_save_spec(p, avail, price) };
    let cr = cr_spec(price, save.1 as u128, save.3 as u128, short);
    &&& p.id@ != c.self_id@
    &&& if short { short_save_ok(c, p, avail) } else { long_save_ok(c, p, avail) }
    &&& cr_ok(price, save.1 as u128, save.3 as u128, short)
    &&& cr >= MIN_CR || (cr < KILL_CR && snatch_ok(c, p.side(short).debit, p.side(short).credit, short))
}

/// The owner's rescue leaves side `short` of `p` under `KILL_CR`, so the side
/// is moved to the dead pool.
pub open spec fn clip_snatches(c: Contract, p: Pledge, short: bool) -> bool {
    let avail = balance(c.token, p.id@) as u128;
    let save = if short { short_save_spec(p, avail, c.price) } else { long_save_spec(p, avail, c.price) };
    cr_spec(c.price, save.1 as u128, save.3 as u128, short) < KILL_CR
}

/// Position `p` after `clip` rescued its short side alone in state `c`:
/// zeroed with the deposits kept where the rescue left it under `KILL_CR`,
/// shrunk where it left it under `MIN_CR`, else as rescued.
pub open spec fn clip_short_spec(c: Contract, p: Pledge) -> Pledge {
    let price = c.price;
    let save = short_save_spec(p, balance(c.token, p.id@) as u128, price);
    let cr = cr_spec(price, save.1 as u128, save.3 as u128, true);
    let sh = shrink_spec(price, save.1 as u128, save.3 as u128, true);
    if cr < KILL_CR {
        Pledge { short: Pod { credit: 0, debit: 0 }, ..p }
    } else if cr < MIN_CR {
        Pledge { short: Pod { credit: sh.1 as u128, debit: sh.2 as u128 }, quid: save.0 as u128, near: save.2 as u128, ..p }
    } else {
        Pledge { short: Pod { credit: save.1 as u128, debit: save.3 as u128 }, quid: save.0 as u128, near: save.2 as u128, ..p }
    }
}

/// The long side and deposits of position `p` after `clip` rescued its long
/// side in state `c`: zeroed with the deposits kept where the rescue left it
/// under `KILL_CR`, shrunk where it left it under `MIN_CR`, else as rescued.
pub open spec fn clip_long_spec(c: Contract, p: Pledge) -> Pledge {
    let price = c.price;
    let save = long_save_spec(p, balance(c.token, p.id@) as u128, price);
    let cr = cr_spec(price, save.1 as u128, save.3 as u128, false);
    let sh = shrink_spec(price, save.1 as u128, save.3 as u128, false);
    if cr < KILL_CR {
        Pledge { long: Pod { credit: 0, debit: 0 }, ..p }
    } else if cr < MIN_CR {
        Pledge { long: Pod { credit: sh.1 as u128, debit: sh.2 as u128 }, near: save.0 as u128, quid: save.2 as u128, ..p }
    } else {
        Pledge { long: Pod { credit: save.1 as u128, debit: save.3 as u128 }, near: save.0 as u128, quid: save.2 as u128, ..p }
    }
}

impl Contract {
    /// Moves a liquidated side (`debt`, `collat`) from the live pool to the
    /// dead pool. The part of the debt that the collateral does not cover at
    /// the price is booked to the guarantee fund instead of the dead pool.
    /// Refused where the collateral covers the debt.
    pub fn snatch(&mut self, debt: u128, collat: u128, short: bool) -> (r: Result<(), QuidError>)
        requires
            old(self).inv(),
        ensures
            r.is_ok() ==> final(self).inv() && final(self).same_settings(*old(self)),
            r.is_ok() ==> final(self).pledges == old(self).pledges && final(self).blood == old(self).blood
                && final(self).token == old(self).token,
            r.is_ok() == snatch_ok(*old(self), debt, collat, short),
            crate::math::ratio_ok(old(self).price, if short { debt } else { collat }, ONE) && (if short {
                ratio_spec(old(self).price as int, debt as int, ONE as int) <= collat
            } else {
                ratio_spec(old(self).price as int, collat as int, ONE as int) >= debt
            }) ==> r == Err::<(), QuidError>(QuidError::NotLiquidatable),
            r.is_ok() && !short ==> {
                let val_coll = ratio_spec(old(self).price as int, collat as int, ONE as int);
                &&& val_coll < debt
                &&& final(self).live.long.credit == old(self).live.long.credit - collat
                &&& final(self).live.long.debit == old(self).live.long.debit - debt
                &&& final(self).dead.long.credit == old(self).dead.long.credit + collat
                &&& final(self).dead.long.debit == old(self).dead.long.debit + val_coll
                &&& final(self).gfund.long.debit == old(self).gfund.long.debit + (debt - val_coll)
                &&& final(self).live.short == old(self).live.short && final(self).dead.short == old(self).dead.short
                &&& final(self).gfund.short == old(self).gfund.short && final(self).gfund.long.credit == old(self).gfund.long.credit
            },
            r.is_ok() && short ==> {
                let val_debt = ratio_spec(old(self).price as int, debt as int, ONE as int);
                let delta_debt = ratio_spec(ONE as int, val_debt - collat, old(self).price as int);
                &&& collat < val_debt
                &&& final(self).live.short.credit == old(self).live.short.credit - collat
                &&& final(self).live.short.debit == old(self).live.short.debit - debt
                &&& final(self).dead.short.credit == old(self).dead.short.credit + collat
                &&& final(self).dead.short.debit == old(self).dead.short.debit + (debt - delta_debt)
                &&& final(self).gfund.short.debit == old(self).gfund.short.debit + delta_debt
                &&& final(self).live.long == old(self).live.long && final(self).dead.long == old(self).dead.long
                &&& final(self).gfund.long == old(self).gfund.long && final(self).gfund.short.credit == old(self).gfund.short.credit
            },
    {
        let price = self.price;
        if short {
            let val_debt = ratio_checked(price, debt, ONE)?;
            if val_debt <= collat {
                return Err(QuidError::NotLiquidatable);
            }
            let delta = val_debt - collat;
            let delta_debt = ratio_checked(ONE, delta, price)?;
            let debt_minus_delta = minus(debt, delta_debt)?;
            let live_credit = minus(self.live.short.credit, collat)?;
            let dead_credit = plus(self.dead.short.credit, collat)?;
            let live_debit = minus(self.live.short.debit, debt)?;
            let dead_debit = plus(self.dead.short.debit, debt_minus_delta)?;
            let gfund_debit = plus(self.gfund.short.debit, delta_debt)?;
            self.live.short.credit = live_credit;
            self.dead.short.credit = dead_credit;
            self.live.short.debit = live_debit;
            self.dead.short.debit = dead_debit;
            self.gfund.short.debit = gfund_debit;
        } else {
            let val_coll = ratio_checked(price, collat, ONE)?;
            if debt <= val_coll {
                return Err(QuidError::NotLiquidatable);
            }
            let delta = debt - val_coll;
            let live_credit = minus(self.live.long.credit, collat)?;
            let dead_credit = plus(self.dead.long.credit, collat)?;
            let live_debit = minus(self.live.long.debit, debt)?;
            let dead_debit = plus(self.dead.long.debit, val_coll)?;
            let gfund_debit = plus(self.gfund.long.debit, delta)?;
            self.live.long.credit = live_credit;
            self.dead.long.credit = dead_credit;
            self.live.long.debit = live_debit;
            self.dead.long.debit = dead_debit;
            self.gfund.long.debit = gfund_debit;
        }
        Ok(())
    }

    /// Tries to bring a long side back to `MIN_CR` from the owner's own funds:
    /// NEAR from its solvency deposit into collateral first, then burning debt
    /// with its liquid QD (`available`), then with its QD deposit. Returns the
    /// new `(near, credit, quid, debit)`; the ratio reached is not promised.
    pub fn long_save(&mut self, pledge: &Pledge, available: u128) -> (r: Result<(u128, u128, u128, u128), QuidError>)
        requires
            old(self).inv(),
        ensures
            r.is_ok() ==> final(self).inv() && final(self).same_settings(*old(self)),
            r.is_ok() ==> final(self).pledges == old(self).pledges && final(self).dead == old(self).dead
                && final(self).gfund == old(self).gfund && final(self).live.short == old(self).live.short,
            r.is_ok() ==> {
                let (near, credit, quid, debit) = r.unwrap();
                (near as int, credit as int, quid as int, debit as int) == long_save_spec(*pledge, available, old(self).price)
            },
            long_save_ok(*old(self), *pledge, available) ==> r.is_ok(),
            r.is_ok() ==> {
                let (near, credit, quid, debit) = r.unwrap();
                &&& final(self).blood.debit == old(self).blood.debit - (pledge.near - near)
                &&& final(self).blood.credit == old(self).blood.credit - (pledge.quid - quid)
                &&& final(self).live.long.credit == old(self).live.long.credit + (credit - pledge.long.credit)
                &&& final(self).live.long.debit == old(self).live.long.debit - (pledge.long.debit - debit)
                &&& forall|a: Seq<char>| balance(final(self).token, a) == balance(old(self).token, a) - (if a == pledge.id@ {
                    (pledge.long.debit - debit) - (pledge.quid - quid)
                } else {
                    0
                })
                &&& crate::token::ft_supply(final(self).token) == crate::token::ft_supply(old(self).token)
                    - ((pledge.long.debit - debit) - (pledge.quid - quid))
                &&& (pledge.long.debit - debit) >= (pledge.quid - quid)
            },
    {
        let price = self.price;
        let ghost start = *self;
        let mut near = pledge.near;
        let mut quid = pledge.quid;
        let mut credit = pledge.long.credit;
        let mut debit = pledge.long.debit;
        let mut delta = minus(ratio_checked(MIN_CR, debit, price)?, credit)?;
        let mut min = if near < delta { near } else { delta };
        near = near - min;
        credit = plus(credit, min)?;
        self.live.long.credit = plus(self.live.long.credit, min)?;
        self.blood.debit = minus(self.blood.debit, min)?;
        if delta > min {
            delta = minus(debit, ratio_checked(price, credit, MIN_CR)?)?;
            min = if available < delta { available } else { delta };
            delta = delta - min;
            debit = debit - min;
            self.live.long.debit = minus(self.live.long.debit, min)?;
            burn(&mut self.token, &pledge.id, min)?;
            if delta > 0 {
                min = if quid < delta { quid } else { delta };
                quid = quid - min;
                debit = minus(debit, min)?;
                self.live.long.debit = minus(self.live.long.debit, min)?;
                self.blood.credit = minus(self.blood.credit, min)?;
            }
        }
        proof {
            crate::contract::lemma_inv_frame(start, *self);
        }
        Ok((near, credit, quid, debit))
    }

    /// Tries to bring a short side back to `MIN_CR` from the owner's own
    /// funds: liquid QD (`available`) into collateral first, then its QD
    /// deposit, then burning NEAR debt with its NEAR deposit. Returns the new
    /// `(quid, credit, near, debit)`; the ratio reached is not promised.
    pub fn short_save(&mut self, pledge: &Pledge, available: u128) -> (r: Result<(u128, u128, u128, u128), QuidError>)
        requires
            old(self).inv(),
        ensures
            r.is_ok() ==> final(self).inv() && final(self).same_settings(*old(self)),
            r.is_ok() ==> final(self).pledges == old(self).pledges && final(self).dead == old(self).dead
                && final(self).gfund == old(self).gfund && final(self).live.long == old(self).live.long,
            r.is_ok() ==> {
                let (quid, credit, near, debit) = r.unwrap();
                (quid as int, credit as int, near as int, debit as int) == short_save_spec(*pledge, available, old(self).price)
            },
            short_save_ok(*old(self), *pledge, available) ==> r.is_ok(),
            r.is_ok() ==> {
                let (quid, credit, near, debit) = r.unwrap();
                &&& final(self).blood.credit == old(self).blood.credit - (pledge.quid - quid)
                &&& final(self).blood.debit == old(self).blood.debit - (pledge.near - near)
                &&& final(self).live.short.credit == old(self).live.short.credit + (credit - pledge.short.credit)
                &&& final(self).live.short.debit == old(self).live.short.debit - (pledge.short.debit - debit)
                &&& pledge.id@ != old(self).self_id@ ==> forall|a: Seq<char>| balance(final(self).token, a) == balance(old(self).token, a)
                    - (if a == pledge.id@ { (credit - pledge.short.credit) - (pledge.quid - quid) } else { 0 })
                    + (if a == old(self).self_id@ { (credit - pledge.short.credit) - (pledge.quid - quid) } else { 0 })
                &&& crate::token::ft_supply(final(self).token) == crate::token::ft_supply(old(self).token)
                &&& (credit - pledge.short.credit) - (pledge.quid - quid) <= crate::token::ft_supply(old(self).token)
                &&& (credit - pledge.short.credit) >= (pledge.quid - quid)
            },
    {
        let price = self.price;
        let ghost start = *self;
        let mut near = pledge.near;
        let mut quid = pledge.quid;
        let mut credit = pledge.short.credit;
        let mut debit = pledge.short.debit;
        let val_debt = ratio_checked(price, debit, ONE)?;
        let final_qd = ratio_checked(MIN_CR, val_debt, KILL_CR)?;
        let mut delta = minus(final_qd, credit)?;
        let mut min = if available < delta { available } else { delta };
        delta = delta - min;
        credit = plus(credit, min)?;
        burn(&mut self.token, &pledge.id, min)?;
        let self_id = self.self_id.clone();
        mint(&mut self.token, &self_id, min)?;
        self.live.short.credit = plus(self.live.short.credit, min)?;
        if delta > 0 {
            min = if quid < delta { quid } else { delta };
            credit = plus(credit, min)?;
            self.live.short.credit = plus(self.live.short.credit, min)?;
            delta = delta - min;
            quid = quid - min;
            self.blood.credit = minus(self.blood.credit, min)?;
            if delta > 0 {
                delta = minus(val_debt, ratio_checked(ONE, credit, MIN_CR)?)?;
                min = if near < delta { near } else { delta };
                near = near - min;
                debit = minus(debit, min)?;
                self.blood.debit = minus(self.blood.debit, min)?;
                self.live.short.debit = minus(self.live.short.debit, min)?;
            }
        }
        proof {
            crate::contract::lemma_inv_frame(start, *self);
        }
        Ok((quid, credit, near, debit))
    }

    /// Partial liquidation: sells collateral to repay debt so that the ratio
    /// returns to about `MIN_CR`. With both in common units, the amount sold
    /// is `x = 10 * (MIN_CR * debt - coll)`; the sale goes through `redeem`
    /// for a short side and `invert` for a long one. Returns the new
    /// `(credit, debit)`.
    pub fn shrink(&mut self, credit: u128, debit: u128, short: bool) -> (r: Result<(u128, u128), QuidError>)
        requires
            old(self).inv(),
        ensures
            r.is_ok() ==> final(self).inv() && final(self).same_settings(*old(self)),
            r.is_ok() ==> {
                let (x, c, d) = shrink_spec(old(self).price, credit, debit, short);
                let x_near = ratio_spec(KILL_CR as int, x, old(self).price as int);
                &&& r.unwrap().0 == c && r.unwrap().1 == d
                &&& if short {
                    final(self).live.short.credit == old(self).live.short.credit - x
                        && final(self).live.short.debit == old(self).live.short.debit - x_near
                } else {
                    final(self).live.long.debit == old(self).live.long.debit - x
                        && final(self).live.long.credit == old(self).live.long.credit - x_near
                }
            },
            r.is_ok() ==> final(self).changed_only_in_band(*old(self), !short),
    {
        let price = self.price;
        let mut coll: u128;
        let mut debt: u128;
        if short {
            coll = credit;
            debt = ratio_checked(price, debit, KILL_CR)?;
        } else {
            coll = ratio_checked(price, credit, KILL_CR)?;
            debt = debit;
        }
        let cr_x_debt = ratio_checked(MIN_CR, debt, KILL_CR)?;
        let delta = times(10, minus(cr_x_debt, coll)?)?;
        coll = minus(coll, delta)?;
        debt = minus(debt, delta)?;
        if short {
            let ghost a = *self;
            self.redeem(delta)?;
            let ghost b = *self;
            self.live.short.credit = minus(self.live.short.credit, delta)?;
            let delta_near = ratio_checked(KILL_CR, delta, price)?;
            self.live.short.debit = minus(self.live.short.debit, delta_near)?;
            proof {
                crate::contract::lemma_band_frame(*old(self), a, b, *self, false);
            }
            Ok((coll, ratio_checked(KILL_CR, debt, price)?))
        } else {
            self.live.long.debit = minus(self.live.long.debit, delta)?;
            let delta_near = ratio_checked(KILL_CR, delta, price)?;
            let ghost a = *self;
            self.invert(delta_near)?;
            let ghost b = *self;
            self.live.long.credit = minus(self.live.long.credit, delta_near)?;
            proof {
                crate::contract::lemma_band_frame(*old(self), a, b, *self, true);
            }
            Ok((ratio_checked(KILL_CR, coll, price)?, debt))
        }
    }
}

/// How `try_kill_pledge` dealt with a side.
#[derive(Clone, Copy, Debug, PartialEq, Eq, Structural)]
pub enum Rescue {
    /// The owner's funds brought it to `MIN_CR`.
    Saved,
    /// It was between `KILL_CR` and `MIN_CR` after the rescue, and was shrunk.
    Shrunk,
    /// It was under `KILL_CR` after the rescue, and went to the dead pool.
    Snatched,
}

impl Contract {
    /// Rescue or liquidation of one side of `pledge`, whose ratio is under
    /// `MIN_CR`. The owner's own funds are tried first (`long_save` or
    /// `short_save`). Where the ratio is then still under `KILL_CR`, the rescue
    /// is undone (liquid QD handed back, the books restored) and the side is
    /// moved to the dead pool: the side is zeroed and the deposits are kept.
    /// Where it is in `[KILL_CR, MIN_CR)`, the side is shrunk. Returns, for a
    /// long side, `(near, credit, quid, debit)`, for a short side
    /// `(quid, credit, near, debit)`, and what was done. A side that was not
    /// shrunk ends zeroed or at or above `MIN_CR`.
    pub fn try_kill_pledge(&mut self, pledge: &Pledge, short: bool) -> (r: Result<(u128, u128, u128, u128, Rescue), QuidError>)
        requires
            old(self).inv(),
        ensures
            r.is_ok() ==> final(self).inv() && final(self).same_settings(*old(self)),
            r.is_ok() && r.unwrap().4 == Rescue::Snatched ==> r.unwrap().1 == 0 && r.unwrap().3 == 0 && if short {
                r.unwrap().0 == pledge.quid && r.unwrap().2 == pledge.near
            } else {
                r.unwrap().0 == pledge.near && r.unwrap().2 == pledge.quid
            },
            r.is_ok() && r.unwrap().4 == Rescue::Saved ==> cr_ok(old(self).price, r.unwrap().1, r.unwrap().3, short)
                && cr_spec(old(self).price, r.unwrap().1, r.unwrap().3, short) >= MIN_CR,
            r.is_ok() ==> {
                let price = old(self).price;
                let save = if short {
                    short_save_spec(*pledge, balance(old(self).token, pledge.id@) as u128, price)
                } else {
                    long_save_spec(*pledge, balance(old(self).token, pledge.id@) as u128, price)
                };
                let cr = cr_spec(price, save.1 as u128, save.3 as u128, short);
                let shrunk = shrink_spec(price, save.1 as u128, save.3 as u128, short);
                let (a, b, c, d, outcome) = r.unwrap();
                &&& cr_ok(price, save.1 as u128, save.3 as u128, short)
                &&& (outcome == Rescue::Snatched) == (cr < KILL_CR)
                &&& (outcome == Rescue::Saved) == (cr >= MIN_CR)
                &&& outcome == Rescue::Saved ==> (a as int, b as int, c as int, d as int) == save
                &&& outcome == Rescue::Shrunk ==> a == save.0 && c == save.2 && b == shrunk.1 && d == shrunk.2
            },
            try_kill_ok(*old(self), *pledge, short) ==> r.is_ok(),
            r.is_ok() ==> final(self).changed_only_in_band(*old(self), !short),
            r.is_ok() && r.unwrap().4 != Rescue::Shrunk ==> final(self).pledges == old(self).pledges,
            r.is_ok() && r.unwrap().4 == Rescue::Saved ==> saved_books(*old(self), *final(self), *pledge,
                r.unwrap().0, r.unwrap().1, r.unwrap().2, r.unwrap().3, short),
            r.is_ok() && r.unwrap().4 == Rescue::Snatched ==> snatched_books(*old(self), *final(self),
                pledge.side(short).debit, pledge.side(short).credit, short),
            r.is_ok() && r.unwrap().4 == Rescue::Snatched && pledge.id@ != old(self).self_id@ ==> {
                &&& balance(final(self).token, pledge.id@) == balance(old(self).token, pledge.id@)
                &&& balance(final(self).token, old(self).self_id@) == balance(old(self).token, old(self).self_id@)
            },
    {
        let price = self.price;
        let available = balance_of(&self.token, &pledge.id);
        let saved_blood = self.blood;
        let saved_live = self.live;
        let nums = if short {
            self.short_save(pledge, available)?
        } else {
            self.long_save(pledge, available)?
        };
        let ghost saved_state = *self;
        let cr = cr_checked(price, nums.1, nums.3, short)?;
        if cr < KILL_CR {
            let now_available = balance_of(&self.token, &pledge.id);
            if available > now_available {
                let back = available - now_available;
                if short {
                    let self_id = self.self_id.clone();
                    burn(&mut self.token, &self_id, back)?;
                }
                mint(&mut self.token, &pledge.id, back)?;
            }
            assert(pledge.id@ != old(self).self_id@ ==> balance(self.token, pledge.id@) == balance(old(self).token, pledge.id@)
                && balance(self.token, old(self).self_id@) == balance(old(self).token, old(self).self_id@));
            self.blood = saved_blood;
            self.live = saved_live;
            proof {
                crate::contract::lemma_inv_frame(saved_state, *self);
            }
            if short {
                self.snatch(pledge.short.debit, pledge.short.credit, true)?;
                proof {
                    crate::contract::lemma_same_store(*old(self), *self);
                }
                Ok((pledge.quid, 0, pledge.near, 0, Rescue::Snatched))
            } else {
                self.snatch(pledge.long.debit, pledge.long.credit, false)?;
                proof {
                    crate::contract::lemma_same_store(*old(self), *self);
                }
                Ok((pledge.near, 0, pledge.quid, 0, Rescue::Snatched))
            }
        } else if cr < MIN_CR {
            let ghost a = *self;
            let (credit, debit) = self.shrink(nums.1, nums.3, short)?;
            proof {
                crate::contract::lemma_band_frame(*old(self), a, *self, *self, !short);
            }
            Ok((nums.0, credit, nums.2, debit, Rescue::Shrunk))
        } else {
            proof {
                crate::contract::lemma_same_store(*old(self), *self);
            }
            Ok((nums.0, nums.1, nums.2, nums.3, Rescue::Saved))
        }
    }

    /// Liquidation entry point, open to anyone: each side of the position of
    /// `account` that has debt and a ratio under `MIN_CR` goes through
    /// `try_kill_pledge`, and the position is saved. Both sides are judged on
    /// the position as it stood. An account without a position is left alone.
    #[verifier::rlimit(100)]
    pub fn clip(&mut self, account: &String) -> (r: Result<(), QuidError>)
        requires
            old(self).inv(),
        ensures
            r.is_ok() ==> final(self).inv() && final(self).same_settings(*old(self)),
            r.is_ok() && !old(self).has(account@) ==> *final(self) == *old(self),
            !old(self).has(account@) ==> r.is_ok(),
            r.is_ok() && old(self).has(account@) ==> {
                let p = old(self).position_of(*account);
                let e = clip_long_spec(*old(self), p);
                p.long.debit > 0 && p.short.debit == 0 && cr_ok(old(self).price, p.long.credit, p.long.debit, false)
                    && cr_spec(old(self).price, p.long.credit, p.long.debit, false) < MIN_CR ==> {
                    &&& final(self).has(account@) == !e.is_empty()
                    &&& !e.is_empty() ==> final(self).position_of(*account) == e
                    &&& clip_snatches(*old(self), p, false) ==> snatched_books(*old(self), *final(self), p.long.debit, p.long.credit, false)
                }
            },
            r.is_ok() && old(self).has(account@) ==> {
                let p = old(self).position_of(*account);
                let e = clip_short_spec(*old(self), p);
                p.short.debit > 0 && p.long.debit == 0 && cr_ok(old(self).price, p.short.credit, p.short.debit, true)
                    && cr_spec(old(self).price, p.short.credit, p.short.debit, true) < MIN_CR ==> {
                    &&& final(self).has(account@) == !e.is_empty()
                    &&& !e.is_empty() ==> final(self).position_of(*account) == e
                    &&& clip_snatches(*old(self), p, true) ==> snatched_books(*old(self), *final(self), p.short.debit, p.short.credit, true)
                }
            },
    {
        let price = self.price;
        let found = self.find(account);
        match found {
            None => Ok(()),
            Some(i) => {
                let mut pledge = self.pledges[i].clone();
                let p0 = self.pledges[i].clone();
                proof {
                    let j = choose|j: int| #[trigger] old(self).place(account@, j);
                    assert(old(self).pledges@[j].id@ == old(self).pledges@[i as int].id@);
                }
                if p0.long.debit > 0 {
                    let cr = cr_checked(price, p0.long.credit, p0.long.debit, false)?;
                    if cr < MIN_CR {
                        let nums = self.try_kill_pledge(&pledge, false)?;
                        proof {
                            if p0.short.debit == 0 {
                                assert(!old(self).in_band(*account, true));
                                assert(self.has(account@) == old(self).has(account@)
                                    && self.position_of(*account) == old(self).position_of(*account));
                            }
                        }
                        pledge = self.current(pledge);
                        pledge.near = nums.0;
                        pledge.long.credit = nums.1;
                        pledge.quid = nums.2;
                        pledge.long.debit = nums.3;
                        proof {
                            assert(pledge.long == clip_long_spec(*old(self), p0).long);
                        }
                        // stored before the other side's rescue can trade against it
                        let ghost saved = pledge;
                        self.save_pledge(pledge.clone())?;
                        pledge = self.current(pledge);
                        proof {
                            if self.has(account@) {
                                let j = choose|j: int| #[trigger] self.place(account@, j) && pledge == self.pledges@[j];
                                assert(self.pledges@[j] == saved);
                            }
                        }
                    }
                }
                if p0.short.debit > 0 {
                    let cr = cr_checked(price, p0.short.credit, p0.short.debit, true)?;
                    if cr < MIN_CR {
                        let ghost before_kill = *self;
                        let nums = self.try_kill_pledge(&pledge, true)?;
                        proof {
                            if p0.long.debit == 0 {
                                assert(!before_kill.in_band(*account, false));
                                assert(self.has(account@) == before_kill.has(account@)
                                    && self.position_of(*account) == before_kill.position_of(*account));
                            }
                        }
                        pledge = self.current(pledge);
                        pledge.quid = nums.0;
                        pledge.short.credit = nums.1;
                        pledge.near = nums.2;
                        pledge.short.debit = nums.3;
                    }
                }
                let ghost last = pledge;
                let r = self.save_pledge(pledge);
                proof {
                    if r.is_ok() && self.has(account@) {
                        let j = choose|j: int| #[trigger] self.place(account@, j);
                        assert(self.pledges@[j] == last);
                    }
                }
                r
            },
        }
    }

    /// The stored version of `pledge`, which a nested operation may have
    /// changed; `pledge` itself where it is no longer stored.
    pub fn current(&self, pledge: Pledge) -> (r: Pledge)
        requires
            self.wf(),
        ensures
            r.id@ == pledge.id@,
            self.has(pledge.id@) ==> exists|i: int| #[trigger] self.place(pledge.id@, i) && r == self.pledges@[i],
            !self.has(pledge.id@) ==> r == pledge,
    {
        match self.find(&pledge.id) {
            Some(i) => self.pledges[i].clone(),
            None => pledge,
        }
    }
}

} // verus!
