//! What the update crank and the solvency providers settle: absorbing the
//! dead pool into solvency deposits, liquidating during a stress pass, and
//! charging premiums.
use vstd::prelude::*;
use crate::books::{lemma_save_keeps_balance, moved_alike};
use crate::contract::Contract;
use crate::crank::UpdateStep;
use crate::error::{cr_checked, minus, plus, ratio_checked, QuidError};
use crate::math::{cr_ok, cr_spec, ratio_spec, KILL_CR, ONE};
use crate::pledge::Pledge;

verus! {

/// A position's share of the dead pool, as amounts: NEAR it gains
/// (`near`), NEAR debt it takes on (`near_debt`), QD debt it takes on
/// (`qd_debt`) and QD it gains (`qd`).
#[derive(Clone, Copy, Debug, PartialEq, Eq, Structural)]
pub struct DeadShares {
    pub near: u128,
    pub near_debt: u128,
    pub qd_debt: u128,
    pub qd: u128,
}

/// The position `b` after absorbing `shares`: per asset the gain and the debt
/// are netted; a net gain is added to the deposit, a net loss taken from it as
/// far as it goes.
pub open spec fn absorb_spec(b: Pledge, shares: DeadShares) -> Pledge {
    let near = if shares.near_debt >= shares.near {
        let loss = shares.near_debt - shares.near;
        if b.near < loss { 0 } else { b.near - loss }
    } else {
        b.near + (shares.near - shares.near_debt)
    };
    let quid = if shares.qd_debt >= shares.qd {
        let loss = shares.qd_debt - shares.qd;
        if b.quid < loss { 0 } else { b.quid - loss }
    } else {
        b.quid + (shares.qd - shares.qd_debt)
    };
    Pledge { near: near as u128, quid: quid as u128, ..b }
}

/// `charge_premium` can take `due` from side `short` of `p`: the collateral,
/// the live pool and the funds it pays into stay within range.
pub open spec fn premium_ok(c: Contract, p: Pledge, short: bool, due: u128) -> bool {
    let taken = if short { due as int } else { ratio_spec(ONE as int, due as int, c.price as int) };
    let rest = taken - taken / 11;
    &&& !short ==> crate::math::ratio_ok(ONE, due, c.price)
    &&& taken <= p.side(short).credit
    &&& taken <= c.live.side(short).credit
    &&& c.gfund.side(short).credit + taken / 11 <= u128::MAX
    &&& if short {
        c.dead.long.credit > rest || c.dead.short.debit + (rest - c.dead.long.credit) <= u128::MAX
    } else {
        c.dead.short.credit > rest || c.dead.long.debit + (rest - c.dead.short.credit) <= u128::MAX
    }
}

/// `absorb` succeeds on position `p`: the dead pool holds the shares that
/// leave it, the deposit, the solvency pool and the guarantee fund cover the
/// losses, the gains fit, and the position can be re-keyed.
pub open spec fn absorb_ok(c: Contract, p: Pledge, sh: DeadShares) -> bool {
    let after = absorb_spec(p, sh);
    &&& if sh.near_debt >= sh.near {
        let loss = sh.near_debt - sh.near;
        let m = if p.near < loss { p.near as int } else { loss };
        sh.near <= c.dead.long.debit && m <= c.dead.short.credit && m <= c.blood.debit && loss - m <= c.gfund.long.credit
    } else {
        let gain = sh.near - sh.near_debt;
        sh.near_debt <= c.dead.short.credit && sh.near <= c.dead.long.debit && p.near + gain <= u128::MAX
            && c.blood.debit + gain <= u128::MAX
    }
    &&& if sh.qd_debt >= sh.qd {
        let loss = sh.qd_debt - sh.qd;
        let m = if p.quid < loss { p.quid as int } else { loss };
        sh.qd <= c.dead.short.debit && m <= c.dead.long.credit && m <= c.blood.credit && loss - m <= c.gfund.short.credit
    } else {
        let gain = sh.qd - sh.qd_debt;
        sh.qd_debt <= c.dead.long.credit && sh.qd <= c.dead.short.debit && p.quid + gain <= u128::MAX
            && c.blood.credit + gain <= u128::MAX
    }
    &&& after.side_active(false) ==> c.long_crs.can_key(after, c.price)
    &&& after.side_active(true) ==> c.short_crs.can_key(after, c.price)
}

impl Contract {
    /// Absorbs a share of the dead pool into the solvency deposits of the
    /// position of `id`. Per asset the share is netted: a net gain is added
    /// to the deposit (and to the solvency pool); a net loss is taken from
    /// the deposit as far as it goes and the rest from the guarantee fund.
    /// An account without a position is left alone.
    pub fn absorb(&mut self, id: &String, shares: DeadShares) -> (r: Result<(), QuidError>)
        requires
            old(self).inv(),
        ensures
            r.is_ok() ==> final(self).inv() && final(self).same_settings(*old(self)),
            r.is_ok() ==> final(self).live == old(self).live,
            r.is_ok() && old(self).balanced() ==> final(self).balanced(),
            r.is_ok() && old(self).balanced_live() ==> final(self).balanced_live(),
            r.is_ok() && old(self).balanced_sp() ==> final(self).balanced_sp(),
            r.is_ok() && !old(self).has(id@) ==> *final(self) == *old(self),
            !old(self).has(id@) ==> r.is_ok(),
            old(self).has(id@) && absorb_ok(*old(self), old(self).position_of(*id), shares) ==> r.is_ok(),
            r.is_ok() && old(self).has(id@) ==> {
                let after = absorb_spec(old(self).position_of(*id), shares);
                &&& final(self).has(id@) == !after.is_empty()
                &&& !after.is_empty() ==> final(self).position_of(*id) == after
            },
    {
        let mut pledge = match self.find(id) {
            Some(i) => self.pledges[i].clone(),
            None => {
                return Ok(());
            },
        };
        let ghost before = pledge;
        let ghost books = *self;
        let near = shares.near;
        let near_debt = shares.near_debt;
        let qd_debt = shares.qd_debt;
        let qd = shares.qd;
        if near_debt >= near {
            let mut delta = near_debt - near;
            self.dead.long.debit = minus(self.dead.long.debit, near)?;
            if delta > 0 {
                let min = if pledge.near < delta { pledge.near } else { delta };
                self.dead.short.credit = minus(self.dead.short.credit, min)?;
                pledge.near = pledge.near - min;
                self.blood.debit = minus(self.blood.debit, min)?;
                delta = delta - min;
                if delta > 0 {
                    self.gfund.long.credit = minus(self.gfund.long.credit, delta)?;
                }
            }
        } else {
            self.dead.short.credit = minus(self.dead.short.credit, near_debt)?;
            self.dead.long.debit = minus(self.dead.long.debit, near)?;
            let gain = near - near_debt;
            pledge.near = plus(pledge.near, gain)?;
            self.blood.debit = plus(self.blood.debit, gain)?;
        }
        if qd_debt >= qd {
            let mut delta = qd_debt - qd;
            self.dead.short.debit = minus(self.dead.short.debit, qd)?;
            if delta > 0 {
                let min = if pledge.quid < delta { pledge.quid } else { delta };
                self.dead.long.credit = minus(self.dead.long.credit, min)?;
                pledge.quid = pledge.quid - min;
                self.blood.credit = minus(self.blood.credit, min)?;
                delta = delta - min;
                if delta > 0 {
                    self.gfund.short.credit = minus(self.gfund.short.credit, delta)?;
                }
            }
        } else {
            self.dead.long.credit = minus(self.dead.long.credit, qd_debt)?;
            self.dead.short.debit = minus(self.dead.short.debit, qd)?;
            let gain = qd - qd_debt;
            pledge.quid = plus(pledge.quid, gain)?;
            self.blood.credit = plus(self.blood.credit, gain)?;
        }
        proof {
            assert(moved_alike(books, *self, before, pledge));
            assert(self.pledges == books.pledges && self.long_crs == books.long_crs && self.short_crs == books.short_crs);
            assert(self.inv());
            assert(books.place(id@, choose|i: int| #[trigger] books.place(id@, i)));
        }
        let ghost mid = *self;
        let ghost saved = pledge;
        proof {
            let j = choose|j: int| #[trigger] books.place(id@, j);
            assert(books.pledges@[j] == before);
            assert(saved == absorb_spec(old(self).position_of(*id), shares));
        }
        self.save_pledge(pledge)?;
        proof {
            if old(self).balanced() {
                lemma_save_keeps_balance(books, mid, *self, before, saved);
            }
            if old(self).balanced_live() {
                crate::books::lemma_save_keeps_books(books, mid, *self, before, saved, 0, 4);
            }
            if old(self).balanced_sp() {
                crate::books::lemma_save_keeps_books(books, mid, *self, before, saved, 4, 6);
            }
            if !saved.is_empty() {
                let i = choose|i: int| #[trigger] self.place(id@, i);
                assert(self.pledges@[i] == saved);
            }
        }
        Ok(())
    }

    /// Liquidation during a stress pass: where one side of `p` is under
    /// `KILL_CR`, it goes through `try_kill_pledge` and `p` takes the result.
    /// Returns whether the side was touched.
    pub fn stress_kill(&mut self, p: &mut Pledge, short: bool) -> (r: Result<bool, QuidError>)
        requires
            old(self).inv(),
        ensures
            r.is_ok() ==> final(self).inv() && final(self).same_settings(*old(self)),
            r.is_ok() && !r.unwrap() ==> *final(self) == *old(self) && *final(p) == *old(p),
            r.is_ok() ==> final(p).id == old(p).id,
            r.is_ok() ==> cr_ok(old(self).price, old(p).side(short).credit, old(p).side(short).debit, short)
                && r.unwrap() == (cr_spec(old(self).price, old(p).side(short).credit, old(p).side(short).debit, short) < KILL_CR),
            cr_ok(old(self).price, old(p).side(short).credit, old(p).side(short).debit, short)
                && cr_spec(old(self).price, old(p).side(short).credit, old(p).side(short).debit, short) >= KILL_CR
                ==> r == Ok::<bool, QuidError>(false),
            !cr_ok(old(self).price, old(p).side(short).credit, old(p).side(short).debit, short)
                ==> r == Err::<bool, QuidError>(QuidError::DivisionOverflow),
            cr_ok(old(self).price, old(p).side(short).credit, old(p).side(short).debit, short)
                && crate::liquidate::try_kill_ok(*old(self), *old(p), short) ==> r.is_ok(),
    {
        let price = self.price;
        if short {
            let cr = cr_checked(price, p.short.credit, p.short.debit, true)?;
            if cr < KILL_CR {
                let nums = self.try_kill_pledge(p, true)?;
                p.quid = nums.0;
                p.short.credit = nums.1;
                p.near = nums.2;
                p.short.debit = nums.3;
                return Ok(true);
            }
        } else {
            let cr = cr_checked(price, p.long.credit, p.long.debit, false)?;
            if cr < KILL_CR {
                let nums = self.try_kill_pledge(p, false)?;
                p.near = nums.0;
                p.long.credit = nums.1;
                p.quid = nums.2;
                p.long.debit = nums.3;
                return Ok(true);
            }
        }
        Ok(false)
    }

    /// Charges a premium of `due` (in QD value) to one side of `p`, taken
    /// from its collateral (for a long side converted to NEAR at the price)
    /// and from the live pool. Of what is taken, 1/11 goes to the guarantee
    /// fund; the rest first reduces what the solvency providers are owed
    /// from the dead pool, and what exceeds that is added to the dead pool's
    /// other side.
    pub fn charge_premium(&mut self, p: &mut Pledge, short: bool, due: u128) -> (r: Result<(), QuidError>)
        requires
            old(self).inv(),
        ensures
            r.is_ok() ==> final(self).inv() && final(self).same_settings(*old(self)),
            r.is_ok() ==> final(self).pledges == old(self).pledges && final(self).token == old(self).token
                && final(self).blood == old(self).blood,
            r.is_ok() == premium_ok(*old(self), *old(p), short, due),
            r.is_ok() ==> {
                let taken = if short { due as int } else { ratio_spec(ONE as int, due as int, old(self).price as int) };
                let gf = taken / 11;
                let rest = taken - gf;
                &&& final(p).side(short).credit == old(p).side(short).credit - taken
                &&& final(self).live.side(short).credit == old(self).live.side(short).credit - taken
                &&& final(self).gfund.side(short).credit == old(self).gfund.side(short).credit + gf
                &&& final(p).side(short).debit == old(p).side(short).debit
                &&& final(p).side(!short) == old(p).side(!short)
                &&& final(p).id == old(p).id && final(p).quid == old(p).quid && final(p).near == old(p).near
                &&& if short {
                    if old(self).dead.long.credit > rest {
                        final(self).dead.long.credit == old(self).dead.long.credit - rest
                            && final(self).dead.short.debit == old(self).dead.short.debit
                    } else {
                        final(self).dead.long.credit == 0 && final(self).dead.short.debit
                            == old(self).dead.short.debit + (rest - old(self).dead.long.credit)
                    }
                } else {
                    if old(self).dead.short.credit > rest {
                        final(self).dead.short.credit == old(self).dead.short.credit - rest
                            && final(self).dead.long.debit == old(self).dead.long.debit
                    } else {
                        final(self).dead.short.credit == 0 && final(self).dead.long.debit
                            == old(self).dead.long.debit + (rest - old(self).dead.short.credit)
                    }
                }
            },
    {
        let price = self.price;
        if short {
            p.short.credit = minus(p.short.credit, due)?;
            self.live.short.credit = minus(self.live.short.credit, due)?;
            let gf = due / 11;
            let mut rest = due - gf;
            self.gfund.short.credit = plus(self.gfund.short.credit, gf)?;
            if self.dead.long.credit > rest {
                self.dead.long.credit = self.dead.long.credit - rest;
            } else {
                rest = rest - self.dead.long.credit;
                self.dead.long.credit = 0;
                self.dead.short.debit = plus(self.dead.short.debit, rest)?;
            }
        } else {
            let due_in_near = ratio_checked(ONE, due, price)?;
            p.long.credit = minus(p.long.credit, due_in_near)?;
            self.live.long.credit = minus(self.live.long.credit, due_in_near)?;
            let gf = due_in_near / 11;
            let mut rest = due_in_near - gf;
            self.gfund.long.credit = plus(self.gfund.long.credit, gf)?;
            if self.dead.short.credit > rest {
                self.dead.short.credit = self.dead.short.credit - rest;
            } else {
                rest = rest - self.dead.short.credit;
                self.dead.short.credit = 0;
                self.dead.long.debit = plus(self.dead.long.debit, rest)?;
            }
        }
        Ok(())
    }

    /// One call of the update crank at time `now` over the stored positions.
    pub fn update(&mut self, now: u64) -> (r: Result<UpdateStep, QuidError>)
        requires
            old(self).inv(),
        ensures
            final(self).inv(),
            *final(self) == (Contract { crank: final(self).crank, ..*old(self) }),
            (r, final(self).crank) == old(self).crank.step(now, old(self).pledges@.len() as usize),
    {
        let len = self.pledges.len();
        let r = self.crank.update(now, len);
        proof {
            crate::contract::lemma_inv_frame(*old(self), *self);
        }
        r
    }
}

} // verus!
