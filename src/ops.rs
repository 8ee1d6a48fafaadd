//! The user-facing operations: borrowing, swapping, depositing, withdrawing
//! and closing a position.
use vstd::prelude::*;
use crate::books::{lemma_save_keeps_balance, moved_alike};
use crate::contract::Contract;
use crate::error::{cr_checked, minus, plus, ratio_checked, times, QuidError};
use crate::math::{cr_ok, cr_spec, ratio_spec, DOT_OH_NINE, FEE, KILL_CR, MIN_CR, ONE};
use crate::pledge::Pledge;
use crate::pool::{Pod, Pool};
use crate::token::{balance, balance_of, burn, mint};

verus! {

/// The figures of `valve` for a side `pledge` at `price`, with `liquid` QD
/// held by its owner and a debt of `new_debt_in_qd` asked for:
/// `(fee, qd_to_buy, end_coll_in_qd, final_debt)`, all in QD.
pub open spec fn valve_spec(price: u128, liquid: int, pledge: Pod, new_debt_in_qd: u128, short: bool) -> (int, int, int, int) {
    let coll = if short { pledge.credit as int } else { ratio_spec(price as int, pledge.credit as int, ONE as int) };
    let debt = if short { ratio_spec(price as int, pledge.debit as int, ONE as int) } else { pledge.debit as int };
    let net = liquid + coll - debt;
    let fee0 = (net - ratio_spec(DOT_OH_NINE as int, coll, ONE as int)) / 11;
    let buy0 = fee0 * 110;
    let end0 = buy0 + coll;
    let max_debt = ratio_spec(ONE as int, end0, MIN_CR as int);
    if new_debt_in_qd >= max_debt {
        (fee0, buy0, end0, max_debt)
    } else {
        let end1 = ratio_spec(MIN_CR as int, new_debt_in_qd as int, ONE as int);
        let buy1 = end1 - coll;
        (ratio_spec(FEE as int, buy1, ONE as int), buy1, end1, new_debt_in_qd as int)
    }
}

/// The dead pool and solvency pool after a redemption with residual `l1`
/// followed by an inversion with residual `l2`.
pub open spec fn redeem_then_invert(l1: int, l2: int, price: u128, dead: Pool, blood: Pod) -> (Pool, Pod) {
    let after = crate::swap::redeem_rest_spec(l1, price, dead, blood);
    crate::swap::invert_rest_spec(l2, price, after.0, after.1)
}

/// The closing figures of `valve` (see `valve_spec`): whether the debt was
/// capped at what the net value carries, the share of the net value that must
/// stay collateral, and the liquid QD the owner ends with.
pub open spec fn valve_end(price: u128, liquid: int, pledge: Pod, new_debt_in_qd: u128, short: bool) -> (bool, int, int) {
    let coll = if short { pledge.credit as int } else { ratio_spec(price as int, pledge.credit as int, ONE as int) };
    let debt = if short { ratio_spec(price as int, pledge.debit as int, ONE as int) } else { pledge.debit as int };
    let net = liquid + coll - debt;
    let fee0 = (net - ratio_spec(DOT_OH_NINE as int, coll, ONE as int)) / 11;
    let max_debt = ratio_spec(ONE as int, fee0 * 110 + coll, MIN_CR as int);
    let (fee, buy, end_coll, final_debt) = valve_spec(price, liquid, pledge, new_debt_in_qd, short);
    let net2 = net - fee;
    let share = ratio_spec(ONE as int, MIN_CR as int, ratio_spec(ONE as int, net2, final_debt) + ONE);
    let end_liq = ratio_spec(ONE - share, final_debt + net2, ONE as int);
    (new_debt_in_qd >= max_debt, share, end_liq)
}

impl Contract {
    /// The stored position of `id`; a new empty one where there is none and
    /// `create` is set.
    pub fn fetch_pledge(&self, id: &String, create: bool) -> (r: Result<Pledge, QuidError>)
        requires
            self.wf(),
        ensures
            r.is_ok() == (self.has(id@) || create),
            r.is_err() ==> r == Err::<Pledge, QuidError>(QuidError::PledgeMissing),
            r.is_ok() ==> r.unwrap().id@ == id@,
            r.is_ok() && self.has(id@) ==> exists|i: int| #[trigger] self.place(id@, i) && r.unwrap() == self.pledges@[i],
            r.is_ok() && !self.has(id@) ==> r.unwrap().is_empty() && r.unwrap().target == MIN_CR,
            r.is_ok() ==> r.unwrap() == self.position_of(*id),
    {
        match self.find(id) {
            Some(i) => {
                proof {
                    let j = choose|j: int| #[trigger] self.place(id@, j);
                    assert(self.pledges@[j].id@ == self.pledges@[i as int].id@);
                }
                Ok(self.pledges[i].clone())
            },
            None => {
                if create {
                    Ok(Pledge::empty(id.clone(), MIN_CR))
                } else {
                    Err(QuidError::PledgeMissing)
                }
            },
        }
    }

    /// Mints `amt` QD to `id`, registering it on the ledger where needed.
    pub fn mint(&mut self, id: &String, amt: u128) -> (r: Result<(), QuidError>)
        ensures
            r.is_ok() ==> forall|a: Seq<char>| balance(final(self).token, a) == balance(old(self).token, a) + (if a == id@ {
                amt as int
            } else {
                0
            }),
            r.is_ok() ==> *final(self) == (Contract { token: final(self).token, ..*old(self) }),
            r.is_err() ==> *final(self) == *old(self),
            r.is_ok() == (balance(old(self).token, id@) + amt <= u128::MAX && crate::token::ft_supply(old(self).token) + amt
                <= u128::MAX),
    {
        mint(&mut self.token, id, amt)
    }

    /// Opens or grows a side of the caller's position to a debt of
    /// `new_debt_in_qd` (in QD) beyond what its collateral carries, by
    /// buying collateral with protocol-minted QD (`redeem`, and for a short
    /// side `invert`). A fee is charged and split 1/11 to the guarantee fund
    /// and the rest to the dead pool's short debit; the caller's liquid QD is
    /// set to what remains of its net value. Returns the new live cell and
    /// position cell of the side; refused unless the side ends at or above
    /// `MIN_CR`.
    #[verifier::rlimit(100)]
    pub fn valve(&mut self, id: &String, short: bool, new_debt_in_qd: u128, live: Pod, pledge: Pod) -> (r: Result<(Pod, Pod), QuidError>)
        requires
            old(self).inv(),
        ensures
            r.is_ok() ==> final(self).inv() && final(self).same_settings(*old(self)),
            r.is_ok() ==> cr_ok(old(self).price, r.unwrap().1.credit, r.unwrap().1.debit, short)
                && cr_spec(old(self).price, r.unwrap().1.credit, r.unwrap().1.debit, short) >= MIN_CR,
            r == Err::<(Pod, Pod), QuidError>(QuidError::IllegalBorrow) ==> {
                let (capped, share, end_liq) = valve_end(old(self).price, balance(old(self).token, id@), pledge, new_debt_in_qd, short);
                share > ONE || (capped && end_liq != 0)
            },
            r == Err::<(Pod, Pod), QuidError>(QuidError::BelowMinCr) ==> {
                let price = old(self).price;
                let (fee, buy, end_coll, final_debt) = valve_spec(price, balance(old(self).token, id@), pledge, new_debt_in_qd, short);
                let credit = if short { end_coll } else { ratio_spec(ONE as int, end_coll, price as int) };
                let debit = if short { ratio_spec(ONE as int, final_debt, price as int) } else { final_debt };
                cr_spec(price, credit as u128, debit as u128, short) < MIN_CR
            },
            r.is_ok() ==> {
                let price = old(self).price;
                let (fee, buy, end_coll, final_debt) = valve_spec(price, balance(old(self).token, id@), pledge, new_debt_in_qd, short);
                let (new_live, new_pledge) = r.unwrap();
                let dead_fee = Pool { short: Pod { debit: (old(self).dead.short.debit + (fee - fee / 11)) as u128, ..old(self).dead.short }, ..old(self).dead };
                &&& final(self).gfund.short.credit == old(self).gfund.short.credit + fee / 11
                &&& !short ==> exists|l: int| #[trigger] crate::swap::redeem_rest_spec(l, price, dead_fee, old(self).blood).0 == final(self).dead
                &&& short ==> exists|l1: int, l2: int| #[trigger] redeem_then_invert(l1, l2, price, dead_fee, old(self).blood)
                    == (final(self).dead, final(self).blood)
                &&& if short {
                    &&& new_pledge.credit == end_coll
                    &&& new_pledge.debit == ratio_spec(ONE as int, final_debt, price as int)
                    &&& new_live.credit == live.credit + buy
                    &&& new_live.debit == live.debit + ratio_spec(ONE as int, buy, price as int)
                } else {
                    &&& new_pledge.credit == ratio_spec(ONE as int, end_coll, price as int)
                    &&& new_pledge.debit == final_debt
                    &&& new_live.credit == live.credit
                    &&& new_live.debit == live.debit + buy
                }
            },
    {
        let price = self.price;
        let mut live = live;
        let mut pledge = pledge;
        let mut check_zero = false;
        let now_liq_qd = balance_of(&self.token, id);
        let now_coll_in_qd: u128;
        let now_debt_in_qd: u128;
        if short {
            now_debt_in_qd = ratio_checked(price, pledge.debit, ONE)?;
            now_coll_in_qd = pledge.credit;
        } else {
            now_coll_in_qd = ratio_checked(price, pledge.credit, ONE)?;
            now_debt_in_qd = pledge.debit;
        }
        let mut net_val = minus(plus(now_liq_qd, now_coll_in_qd)?, now_debt_in_qd)?;
        let mut fee_amt = minus(net_val, ratio_checked(DOT_OH_NINE, now_coll_in_qd, ONE)?)? / 11;
        let mut qd_to_buy = times(fee_amt, 110)?;
        let mut end_coll_in_qd = plus(qd_to_buy, now_coll_in_qd)?;
        let max_debt = ratio_checked(ONE, end_coll_in_qd, MIN_CR)?;
        let final_debt: u128;
        if new_debt_in_qd >= max_debt {
            final_debt = max_debt;
            check_zero = true;
        } else {
            final_debt = new_debt_in_qd;
            end_coll_in_qd = ratio_checked(MIN_CR, final_debt, ONE)?;
            qd_to_buy = minus(end_coll_in_qd, now_coll_in_qd)?;
            fee_amt = ratio_checked(FEE, qd_to_buy, ONE)?;
        }
        net_val = minus(net_val, fee_amt)?;
        let self_id = self.self_id.clone();
        mint(&mut self.token, &self_id, fee_amt)?;
        let eleventh = fee_amt / 11;
        let rest = fee_amt - eleventh;
        self.dead.short.debit = plus(self.dead.short.debit, rest)?;
        self.gfund.short.credit = plus(self.gfund.short.credit, eleventh)?;
        let ghost dead_fee = self.dead;
        let ghost blood0 = self.blood;
        if short {
            pledge.credit = end_coll_in_qd;
            pledge.debit = ratio_checked(ONE, final_debt, price)?;
            live.credit = plus(live.credit, qd_to_buy)?;
            let near_to_sell = ratio_checked(ONE, qd_to_buy, price)?;
            live.debit = plus(live.debit, near_to_sell)?;
            self.redeem(qd_to_buy)?;
            let ghost mid_dead = self.dead;
            let ghost mid_blood = self.blood;
            self.invert(near_to_sell)?;
            proof {
                let l1 = choose|l: int| #[trigger] crate::swap::redeem_rest_spec(l, price, dead_fee, blood0) == (mid_dead, mid_blood);
                let l2 = choose|l: int| #[trigger] crate::swap::invert_rest_spec(l, price, mid_dead, mid_blood) == (self.dead, self.blood);
                assert(redeem_then_invert(l1, l2, price, dead_fee, blood0) == (self.dead, self.blood));
            }
        } else {
            let end_coll = ratio_checked(ONE, end_coll_in_qd, price)?;
            pledge.credit = end_coll;
            pledge.debit = final_debt;
            // the collateral was set just above, so this adds nothing
            let delta_coll = minus(end_coll, pledge.credit)?;
            live.credit = plus(live.credit, delta_coll)?;
            live.debit = plus(live.debit, qd_to_buy)?;
            self.redeem(qd_to_buy)?;
            proof {
                let l = choose|l: int| #[trigger] crate::swap::redeem_rest_spec(l, price, dead_fee, blood0) == (self.dead, self.blood);
                assert(crate::swap::redeem_rest_spec(l, price, dead_fee, blood0).0 == self.dead);
            }
        }
        let ghost mid = *self;
        let net_div_debt = plus(ratio_checked(ONE, net_val, final_debt)?, ONE)?;
        let share = ratio_checked(ONE, MIN_CR, net_div_debt)?;
        if share > ONE {
            return Err(QuidError::IllegalBorrow);
        }
        let between = ONE - share;
        let end_liq_qd = ratio_checked(between, plus(final_debt, net_val)?, ONE)?;
        if check_zero && end_liq_qd != 0 {
            return Err(QuidError::IllegalBorrow);
        }
        if end_liq_qd > now_liq_qd {
            mint(&mut self.token, id, end_liq_qd - now_liq_qd)?;
        } else if end_liq_qd < now_liq_qd {
            burn(&mut self.token, id, now_liq_qd - end_liq_qd)?;
        }
        let cr = cr_checked(price, pledge.credit, pledge.debit, short)?;
        if cr < MIN_CR {
            return Err(QuidError::BelowMinCr);
        }
        proof {
            crate::contract::lemma_inv_frame(mid, *self);
        }
        Ok((live, pledge))
    }
}

/// A long borrow of `amount` with `deposit` attached stays within what the
/// collateral of `b` carries at `price`, so no position has to be grown.
pub open spec fn within_long(b: Pledge, price: u128, deposit: u128, amount: u128) -> bool {
    let credit = if deposit >= ONE { b.long.credit + deposit } else { b.long.credit as int };
    let debt = b.long.debit + amount;
    &&& credit <= u128::MAX && debt <= u128::MAX
    &&& cr_ok(price, credit as u128, debt as u128, false)
    &&& cr_spec(price, credit as u128, debt as u128, false) >= MIN_CR
}

/// A long borrow succeeds without growing the position: the crank is idle,
/// NEAR is attached, the side is empty or at or above `MIN_CR`, the new debt
/// stays within the collateral, and the books, the ledger and the index can
/// take it.
pub open spec fn borrow_long_ok(c: Contract, caller: String, deposit: u128, amount: u128) -> bool {
    let b = c.position_of(caller);
    let cr = cr_spec(c.price, b.long.credit, b.long.debit, false);
    &&& c.crank.done && deposit > 0 && amount > 0
    &&& cr_ok(c.price, b.long.credit, b.long.debit, false) && (cr == 0 || cr >= MIN_CR)
    &&& within_long(b, c.price, deposit, amount)
    &&& deposit >= ONE ==> c.live.long.credit + deposit <= u128::MAX
    &&& c.live.long.debit + amount <= u128::MAX
    &&& balance(c.token, caller@) + amount <= u128::MAX && crate::token::ft_supply(c.token) + amount <= u128::MAX
    &&& b.side_active(true) ==> c.short_crs.can_key(b, c.price)
}

/// A short borrow with no NEAR to invert (one base unit attached) succeeds
/// without growing the position: the crank is idle, the side is empty or at
/// or above `MIN_CR`, the new debt stays within the collateral, and the books
/// and the index can take it.
pub open spec fn borrow_short_ok(c: Contract, caller: String, amount: u128) -> bool {
    let b = c.position_of(caller);
    let cr = cr_spec(c.price, b.short.credit, b.short.debit, true);
    let debt = b.short.debit + amount;
    &&& c.crank.done && amount > 0
    &&& cr_ok(c.price, b.short.credit, b.short.debit, true) && (cr == 0 || cr >= MIN_CR)
    &&& debt <= u128::MAX
    &&& b.short.credit > 0
    &&& cr_ok(c.price, b.short.credit, debt as u128, true) && cr_spec(c.price, b.short.credit, debt as u128, true) >= MIN_CR
    &&& c.live.short.debit + amount <= u128::MAX
    &&& b.side_active(false) ==> c.long_crs.can_key(b, c.price)
}

impl Contract {
    /// Borrows `amount`: QD against NEAR collateral (long), or NEAR against QD
    /// collateral (short). `deposit` is the NEAR attached by the caller: on a
    /// long side it is added to the collateral (from one whole unit on); on a
    /// short side it is inverted and its QD value added to the collateral.
    /// A side under `MIN_CR` (other than empty) cannot borrow. Within the
    /// collateral's reach the debt is recorded and, long, the QD minted to the
    /// caller, short, `Some(amount)` NEAR is to be sent to the caller; beyond
    /// it, `valve` grows the position. On success the side ends at or above
    /// `MIN_CR`.
    #[verifier::rlimit(100)]
    pub fn borrow(&mut self, caller: &String, deposit: u128, amount: u128, short: bool) -> (r: Result<Option<u128>, QuidError>)
        requires
            old(self).inv(),
        ensures
            !old(self).crank.done ==> r == Err::<Option<u128>, QuidError>(QuidError::UpdateInProgress) && *final(self) == *old(self),
            old(self).crank.done && !(deposit > 0 && amount > 0) ==> r == Err::<Option<u128>, QuidError>(QuidError::AmountTooLow)
                && *final(self) == *old(self),
            r.is_ok() ==> final(self).inv() && final(self).same_settings(*old(self)),
            r.is_ok() ==> exists|i: int| #[trigger] final(self).place(caller@, i) && {
                let side = final(self).pledges@[i].side(short);
                cr_ok(final(self).price, side.credit, side.debit, short) && cr_spec(final(self).price, side.credit, side.debit, short) >= MIN_CR
            },
            r.is_ok() && !short && old(self).balanced() && within_long(old(self).position_of(*caller), old(self).price, deposit, amount)
                ==> final(self).balanced() && r == Ok::<Option<u128>, QuidError>(None)
                && balance(final(self).token, caller@) == balance(old(self).token, caller@) + amount,
            !short && borrow_long_ok(*old(self), *caller, deposit, amount) ==> r == Ok::<Option<u128>, QuidError>(None),
            r.is_ok() && !short && within_long(old(self).position_of(*caller), old(self).price, deposit, amount) ==> {
                let b = old(self).position_of(*caller);
                let added = if deposit >= ONE { deposit as int } else { 0 };
                &&& final(self).position_of(*caller).long == (Pod { credit: (b.long.credit + added) as u128, debit: (b.long.debit + amount) as u128 })
                &&& final(self).live.long.credit == old(self).live.long.credit + added
                &&& final(self).live.long.debit == old(self).live.long.debit + amount
                &&& final(self).live.short == old(self).live.short
            },
            r.is_ok() && short && deposit == 1 && borrow_short_ok(*old(self), *caller, amount) ==> {
                let b = old(self).position_of(*caller);
                &&& final(self).position_of(*caller).short == (Pod { credit: b.short.credit, debit: (b.short.debit + amount) as u128 })
                &&& final(self).live.short.debit == old(self).live.short.debit + amount
                &&& final(self).live.short.credit == old(self).live.short.credit
                &&& final(self).live.long == old(self).live.long
            },
            short && deposit == 1 && borrow_short_ok(*old(self), *caller, amount)
                ==> r == Ok::<Option<u128>, QuidError>(Some(amount)),
            r.is_ok() && short && deposit == 1 && old(self).balanced() && borrow_short_ok(*old(self), *caller, amount)
                ==> final(self).balanced(),
    {
        if !self.crank.done {
            return Err(QuidError::UpdateInProgress);
        }
        if !(deposit > 0 && amount > 0) {
            return Err(QuidError::AmountTooLow);
        }
        let price = self.price;
        let amt = amount;
        let mut transfer: Option<u128> = None;
        let mut pledge = self.fetch_pledge(caller, true)?;
        let ghost before = pledge;
        let ghost books = *self;
        if !short {
            let cr = cr_checked(price, pledge.long.credit, pledge.long.debit, false)?;
            if !(cr == 0 || cr >= MIN_CR) {
                return Err(QuidError::BorrowBelowMinCr);
            }
            if deposit >= ONE {
                pledge.long.credit = plus(pledge.long.credit, deposit)?;
                self.live.long.credit = plus(self.live.long.credit, deposit)?;
            }
            let new_debt = plus(pledge.long.debit, amt)?;
            let cr = cr_checked(price, pledge.long.credit, new_debt, false)?;
            if cr >= MIN_CR {
                let live_debit = plus(self.live.long.debit, amt)?;
                mint(&mut self.token, caller, amt)?;
                self.live.long.debit = live_debit;
                pledge.long.debit = new_debt;
            } else {
                let before = self.live.long;
                let (live, pod) = self.valve(caller, false, new_debt, before, pledge.long)?;
                // what the nested swaps did to the live pool stays booked
                self.live.long.credit = plus(self.live.long.credit, minus(live.credit, before.credit)?)?;
                self.live.long.debit = plus(self.live.long.debit, minus(live.debit, before.debit)?)?;
                pledge.long = pod;
            }
        } else {
            if deposit > 1 {
                self.invert(deposit)?;
                pledge = self.current(pledge);
                let value = ratio_checked(price, deposit, ONE)?;
                pledge.short.credit = plus(pledge.short.credit, value)?;
                self.live.short.credit = plus(self.live.short.credit, value)?;
            }
            let cr = cr_checked(price, pledge.short.credit, pledge.short.debit, true)?;
            if !(cr == 0 || cr >= MIN_CR) {
                return Err(QuidError::BorrowBelowMinCr);
            }
            let new_debt = plus(pledge.short.debit, amt)?;
            let new_debt_in_qd = ratio_checked(price, new_debt, ONE)?;
            let cr = ratio_checked(ONE, pledge.short.credit, new_debt_in_qd)?;
            if cr >= MIN_CR {
                assert(cr == cr_spec(price, pledge.short.credit, new_debt, true));
                self.live.short.debit = plus(self.live.short.debit, amt)?;
                pledge.short.debit = new_debt;
                transfer = Some(amt);
            } else {
                let before = self.live.short;
                let (live, pod) = self.valve(caller, true, new_debt_in_qd, before, pledge.short)?;
                // what the nested swaps did to the live pool stays booked
                self.live.short.credit = plus(self.live.short.credit, minus(live.credit, before.credit)?)?;
                self.live.short.debit = plus(self.live.short.debit, minus(live.debit, before.debit)?)?;
                pledge.short = pod;
            }
        }
        let ghost saved = pledge;
        let ghost mid = *self;
        proof {
            if !short && within_long(before, price, deposit, amount) {
                assert(moved_alike(books, mid, before, saved));
                assert(mid.pledges == books.pledges);
            }
            if short && deposit == 1 && borrow_short_ok(books, *caller, amount) {
                assert(moved_alike(books, mid, before, saved));
                assert(mid.pledges == books.pledges);
            }
        }
        self.save_pledge(pledge)?;
        proof {
            assert(!saved.is_empty());
            let i = choose|i: int| #[trigger] self.place(caller@, i);
            assert(self.pledges@[i] == saved);
            assert(self.position_of(*caller) == saved);
            if !short && books.balanced() && within_long(before, price, deposit, amount) {
                lemma_save_keeps_balance(books, mid, *self, before, saved);
            }
            if short && deposit == 1 && books.balanced() && borrow_short_ok(books, *caller, amount) {
                lemma_save_keeps_balance(books, mid, *self, before, saved);
            }
        }
        Ok(transfer)
    }
}

impl Contract {
    /// Swaps with the protocol. Without `repay`: short, the attached NEAR
    /// (`deposit`, at least one unit) is inverted and its QD value, less the
    /// fee, minted to the caller (the fee, 1/110, goes 1/11 to the guarantee
    /// fund and the rest to the dead pool); long, `amount` QD (at least one
    /// unit) is redeemed and burnt from the caller, and its full NEAR value is
    /// returned as `Some(near)` to be sent. With `repay`, the
    /// caller's own debt is burnt: QD debt with `amount` of its QD (long), or
    /// NEAR debt with the attached NEAR (short), without releasing collateral.
    pub fn swap(&mut self, caller: &String, deposit: u128, amount: u128, repay: bool, short: bool) -> (r: Result<Option<u128>, QuidError>)
        requires
            old(self).inv(),
        ensures
            !old(self).crank.done ==> r == Err::<Option<u128>, QuidError>(QuidError::UpdateInProgress) && *final(self) == *old(self),
            old(self).crank.done && deposit == 0 ==> r == Err::<Option<u128>, QuidError>(QuidError::AmountTooLow)
                && *final(self) == *old(self),
            r.is_ok() ==> final(self).inv() && final(self).same_settings(*old(self)),
            r.is_ok() && r.unwrap().is_some() ==> !repay && !short,
            r.is_ok() && !repay && !short ==> {
                let near = ratio_spec(ONE as int, amount as int, old(self).price as int);
                &&& r == Ok::<Option<u128>, QuidError>(Some(near as u128))
                &&& final(self).gfund == old(self).gfund
                &&& exists|left: int| 0 <= left <= amount && #[trigger] crate::swap::redeem_rest_spec(left, old(self).price, old(self).dead, old(self).blood)
                    == (final(self).dead, final(self).blood)
                    && amount - left == old(self).live.long.debit - final(self).live.long.debit
                &&& caller@ != old(self).self_id@ ==> balance(final(self).token, caller@) == balance(old(self).token, caller@) - amount
            },
            r.is_ok() && !repay && short ==> {
                let quid = ratio_spec(old(self).price as int, deposit as int, ONE as int);
                let fee = ratio_spec(FEE as int, quid, ONE as int);
                &&& exists|left: int| 0 <= left <= deposit && {
                    let after = #[trigger] crate::swap::invert_rest_spec(left, old(self).price, old(self).dead, old(self).blood);
                    &&& final(self).blood == after.1
                    &&& final(self).dead == Pool { short: Pod { debit: (after.0.short.debit + (fee - fee / 11)) as u128, ..after.0.short }, ..after.0 }
                    &&& deposit - left == old(self).live.short.debit - final(self).live.short.debit
                }
                &&& caller@ != old(self).self_id@ ==> balance(final(self).token, caller@) == balance(old(self).token, caller@) + (quid - fee)
            },
            r.is_ok() && repay && old(self).balanced() ==> final(self).balanced(),
            old(self).crank.done && deposit > 0 && repay && !short && old(self).has(caller@)
                && amount <= balance(old(self).token, caller@) && amount <= crate::token::ft_supply(old(self).token)
                && crate::swap::turn_ok(*old(self), old(self).position_of(*caller), amount, true, false) ==> r.is_ok(),
            old(self).crank.done && deposit > 1 && repay && short && old(self).has(caller@)
                && crate::swap::turn_ok(*old(self), old(self).position_of(*caller), deposit, true, true) ==> r.is_ok(),
            r.is_ok() && !repay && short ==> {
                let quid = ratio_spec(old(self).price as int, deposit as int, ONE as int);
                let fee = ratio_spec(FEE as int, quid, ONE as int);
                &&& r == Ok::<Option<u128>, QuidError>(None)
                &&& final(self).gfund.short.credit == old(self).gfund.short.credit + fee / 11
            },
    {
        if !self.crank.done {
            return Err(QuidError::UpdateInProgress);
        }
        if deposit == 0 {
            return Err(QuidError::AmountTooLow);
        }
        let price = self.price;
        let amt = amount;
        if !repay {
            if short {
                if deposit < ONE {
                    return Err(QuidError::AmountTooLow);
                }
                self.invert(deposit)?;
                let ghost mid = *self;
                let mut quid = ratio_checked(price, deposit, ONE)?;
                let mut fee_amt = ratio_checked(FEE, quid, ONE)?;
                let gf_cut = fee_amt / 11;
                self.gfund.short.credit = plus(self.gfund.short.credit, gf_cut)?;
                quid = minus(quid, fee_amt)?;
                fee_amt = fee_amt - gf_cut;
                self.dead.short.debit = plus(self.dead.short.debit, fee_amt)?;
                mint(&mut self.token, caller, quid)?;
                proof {
                    crate::contract::lemma_inv_frame(mid, *self);
                }
                Ok(None)
            } else {
                if amt < ONE {
                    return Err(QuidError::AmountTooLow);
                }
                self.redeem(amt)?;
                let ghost mid = *self;
                burn(&mut self.token, caller, amt)?;
                let near = ratio_checked(ONE, amt, price)?;
                proof {
                    crate::contract::lemma_inv_frame(mid, *self);
                }
                Ok(Some(near))
            }
        } else {
            let mut pledge = self.fetch_pledge(caller, false)?;
            proof {
                let i = choose|i: int| #[trigger] self.place(caller@, i) && self.pledges@[i] == pledge;
                assert(self.stores(pledge));
            }
            if !short {
                burn(&mut self.token, caller, amt)?;
                proof {
                    crate::contract::lemma_inv_frame(*old(self), *self);
                    let i = choose|i: int| #[trigger] old(self).place(caller@, i) && old(self).pledges@[i] == pledge;
                    assert(self.place(caller@, i));
                    assert(self.stores(pledge));
                }
                self.turn(amt, true, false, &mut pledge)?;
            } else {
                if deposit <= 1 {
                    return Err(QuidError::AmountTooLow);
                }
                self.turn(deposit, true, true, &mut pledge)?;
            }
            Ok(None)
        }
    }

    /// Closes one side of the caller's position with its own collateral: the
    /// debt's value is bought (`redeem` for a short side, `invert` for a long
    /// one) and the debt burnt with `turn`. Nothing happens unless the side's
    /// ratio is above `KILL_CR`.
    pub fn fold(&mut self, caller: &String, short: bool) -> (r: Result<(), QuidError>)
        requires
            old(self).inv(),
        ensures
            r.is_ok() ==> final(self).inv() && final(self).same_settings(*old(self)),
            !old(self).has(caller@) ==> r == Err::<(), QuidError>(QuidError::PledgeMissing),
            r.is_ok() && cr_spec(old(self).price, old(self).position_of(*caller).side(short).credit,
                old(self).position_of(*caller).side(short).debit, short) > KILL_CR
                ==> final(self).position_of(*caller).side(short).debit == 0,
    {
        let price = self.price;
        let pledge = self.fetch_pledge(caller, false)?;
        if short {
            let cr = cr_checked(price, pledge.short.credit, pledge.short.debit, true)?;
            if cr > KILL_CR {
                let qd = ratio_checked(price, pledge.short.debit, ONE)?;
                self.redeem(qd)?;
                let mut pledge = self.current(pledge);
                let debt = pledge.short.debit;
                let ghost before = pledge;
                self.turn(debt, false, true, &mut pledge)?;
                proof {
                    if self.has(caller@) {
                        let j = choose|j: int| #[trigger] self.place(caller@, j);
                        assert(self.pledges@[j] == pledge);
                    }
                    lemma_folded(*old(self), *self, *caller, before, pledge, true);
                }
            }
        } else {
            let cr = cr_checked(price, pledge.long.credit, pledge.long.debit, false)?;
            if cr > KILL_CR {
                let near = ratio_checked(ONE, pledge.long.debit, price)?;
                self.invert(near)?;
                let mut pledge = self.current(pledge);
                let debt = pledge.long.debit;
                let ghost before = pledge;
                self.turn(debt, false, false, &mut pledge)?;
                proof {
                    if self.has(caller@) {
                        let j = choose|j: int| #[trigger] self.place(caller@, j);
                        assert(self.pledges@[j] == pledge);
                    }
                    lemma_folded(*old(self), *self, *caller, before, pledge, false);
                }
            }
        }
        Ok(())
    }
}

/// After `turn` burnt all of a side's debt, the stored position of the
/// account has no debt on that side.
proof fn lemma_folded(start: Contract, c: Contract, id: String, before: Pledge, after: Pledge, short: bool)
    requires
        c.wf(),
        after.id@ == id@,
        after.side(short).debit == 0,
        c.has(id@) ==> exists|i: int| #[trigger] c.place(id@, i) && c.pledges@[i] == after,
    ensures
        c.position_of(id).side(short).debit == 0,
{
    if c.has(id@) {
        let i = choose|i: int| #[trigger] c.place(id@, i) && c.pledges@[i] == after;
        let j = choose|j: int| #[trigger] c.place(id@, j);
        assert(i == j);
    }
}

/// The moves of a deposit on position `b` stay within range: `c`'s books,
/// the ledger (the QD taken from an owner other than the protocol) and the
/// position.
pub open spec fn deposit_moves_ok(c: Contract, b: Pledge, caller: String, near: u128, qd: u128, live: bool) -> bool {
    let liquid = balance(c.token, caller@);
    let from_liq = if liquid < qd { liquid } else { qd as int };
    let rest = qd - from_liq;
    let from_sp = if rest < b.quid { rest } else { b.quid as int };
    let added = from_liq + from_sp;
    &&& near > 1 ==> if live {
        b.long.credit + near <= u128::MAX && c.live.long.credit + near <= u128::MAX
    } else {
        b.near + near <= u128::MAX && c.blood.debit + near <= u128::MAX
    }
    &&& from_liq > 0 ==> caller@ != c.self_id@ && from_liq <= crate::token::ft_supply(c.token)
        && balance(c.token, c.self_id@) + from_liq <= u128::MAX
    &&& from_sp <= c.blood.credit
    &&& added > 0 ==> if live {
        b.short.credit + added <= u128::MAX && c.live.short.credit + added <= u128::MAX
    } else {
        b.quid - from_sp + added <= u128::MAX && c.blood.credit - from_sp + added <= u128::MAX
    }
}

/// A deposit succeeds: the crank is idle, NEAR is attached, its moves stay
/// within range and the position can be re-keyed.
pub open spec fn deposit_ok(c: Contract, caller: String, near: u128, qd: u128, live: bool) -> bool {
    let b = c.position_of(caller);
    let after = deposit_spec(b, balance(c.token, caller@), near, qd, live);
    &&& c.crank.done
    &&& near > 0
    &&& deposit_moves_ok(c, b, caller, near, qd, live)
    &&& after.side_active(false) ==> c.long_crs.can_key(after, c.price)
    &&& after.side_active(true) ==> c.short_crs.can_key(after, c.price)
}

/// The position `b` after a deposit of `near` attached NEAR and `qd` QD by
/// an owner holding `liquid` QD: the NEAR (from two base units on) goes to
/// the long collateral (`live`) or the NEAR deposit; the QD comes from the
/// liquid QD, then from the QD deposit, and goes to the short collateral
/// (`live`) or the QD deposit.
pub open spec fn deposit_spec(b: Pledge, liquid: int, near: u128, qd: u128, live: bool) -> Pledge {
    let from_liq = if liquid < qd { liquid } else { qd as int };
    let rest = qd - from_liq;
    let from_sp = if rest < b.quid { rest } else { b.quid as int };
    let added = from_liq + from_sp;
    let b1 = if near > 1 {
        if live {
            Pledge { long: Pod { credit: (b.long.credit + near) as u128, ..b.long }, ..b }
        } else {
            Pledge { near: (b.near + near) as u128, ..b }
        }
    } else {
        b
    };
    let b2 = Pledge { quid: (b1.quid - from_sp) as u128, ..b1 };
    if added > 0 {
        if live {
            Pledge { short: Pod { credit: (b2.short.credit + added) as u128, ..b2.short }, ..b2 }
        } else {
            Pledge { quid: (b2.quid + added) as u128, ..b2 }
        }
    } else {
        b2
    }
}

/// The field `renege` draws `amount` from: short or long collateral, or QD or
/// NEAR deposit.
pub open spec fn renege_field(b: Pledge, sp: bool, qd: bool) -> int {
    if !sp {
        b.side(qd).credit as int
    } else if qd {
        b.quid as int
    } else {
        b.near as int
    }
}

/// The moves of a withdrawal of `amt` from position `p` stay within range
/// and, from collateral, leave the side at or above `MIN_CR`.
pub open spec fn renege_moves_ok(c: Contract, p: Pledge, caller: String, amt: u128, sp: bool, qd: bool) -> bool {
    let price = c.price;
    let fee = ratio_spec(FEE as int, amt as int, ONE as int);
    let net = amt - fee;
    let gf = fee / 11;
    let rest = fee - gf;
    let after = renege_spec(p, amt, sp, qd);
    let all = balance(c.token, c.self_id@);
    let own = balance(c.token, caller@);
    let supply = crate::token::ft_supply(c.token);
    &&& fee <= amt
    &&& amt <= renege_field(p, sp, qd)
    &&& caller@ != c.self_id@
    &&& !sp ==> cr_ok(price, after.side(qd).credit, after.side(qd).debit, qd)
        && cr_spec(price, after.side(qd).credit, after.side(qd).debit, qd) >= MIN_CR
    &&& if !sp && qd {
        let min = if all < net { all } else { net };
        &&& net > min ==> c.gfund.long.debit + (net - min) <= u128::MAX
        &&& min <= supply && own + net <= u128::MAX && supply - min + net <= u128::MAX
        &&& amt <= c.live.short.credit
        &&& c.dead.short.debit + rest <= u128::MAX && c.gfund.short.credit + gf <= u128::MAX
    } else if !sp {
        let nb = c.native_balance as int;
        let inq = ratio_spec(price as int, net - nb, ONE as int);
        &&& net > nb ==> crate::math::ratio_ok(price, (net - nb) as u128, ONE) && own + inq <= u128::MAX
            && supply + inq <= u128::MAX && c.gfund.long.debit + inq <= u128::MAX
        &&& amt <= c.live.long.credit
        &&& c.dead.long.debit + rest <= u128::MAX && c.gfund.long.credit + gf <= u128::MAX
    } else if qd {
        let m = if c.blood.credit < amt { c.blood.credit as int } else { amt as int };
        let rem = amt - m;
        let m2 = if c.gfund.short.credit < rem { c.gfund.short.credit as int } else { rem };
        &&& rem > m2 ==> c.gfund.long.debit + (rem - m2) <= u128::MAX
        &&& net <= all && net <= supply && own + net <= u128::MAX
        &&& c.dead.short.debit + rest <= u128::MAX && c.gfund.short.credit - m2 + gf <= u128::MAX
    } else {
        let m = if c.blood.debit < amt { c.blood.debit as int } else { amt as int };
        let rem = amt - m;
        let m2 = if c.gfund.long.credit < rem { c.gfund.long.credit as int } else { rem };
        let inq = ratio_spec(price as int, rem - m2, ONE as int);
        &&& rem > m2 ==> rem - m2 <= net && crate::math::ratio_ok(price, (rem - m2) as u128, ONE)
            && own + inq <= u128::MAX && supply + inq <= u128::MAX && c.gfund.long.debit + inq <= u128::MAX
        &&& c.dead.long.debit + rest <= u128::MAX && c.gfund.long.credit - m2 + gf <= u128::MAX
    }
}

/// What a withdrawal of `amt` does to the books, from `c0` to `c1`: the live
/// pool loses the collateral taken (nothing for a deposit), the solvency pool
/// pays what it holds of a deposit, and of the fee (1/110 of `amt`) 1/11
/// goes to the guarantee fund and the rest to the dead pool.
pub open spec fn renege_books(c0: Contract, c1: Contract, amt: u128, sp: bool, qd: bool) -> bool {
    let fee = ratio_spec(FEE as int, amt as int, ONE as int);
    let gf = fee / 11;
    let rest = fee - gf;
    &&& if !sp {
        &&& c1.live.side(qd).credit == c0.live.side(qd).credit - amt
        &&& c1.live.side(qd).debit == c0.live.side(qd).debit
        &&& c1.live.side(!qd) == c0.live.side(!qd)
        &&& c1.blood == c0.blood
        &&& c1.gfund.side(qd).credit == c0.gfund.side(qd).credit + gf
    } else {
        &&& c1.live == c0.live
        &&& qd ==> c1.blood.credit == c0.blood.credit - (if c0.blood.credit < amt { c0.blood.credit as int } else { amt as int })
            && c1.blood.debit == c0.blood.debit
        &&& !qd ==> c1.blood.debit == c0.blood.debit - (if c0.blood.debit < amt { c0.blood.debit as int } else { amt as int })
            && c1.blood.credit == c0.blood.credit
        &&& c0.blood.side_amount(qd) >= amt ==> c1.gfund.side(qd).credit == c0.gfund.side(qd).credit + gf
    }
    &&& qd ==> c1.dead.short.debit == c0.dead.short.debit + rest && c1.dead.short.credit == c0.dead.short.credit
        && c1.dead.long == c0.dead.long
    &&& !qd ==> c1.dead.long.debit == c0.dead.long.debit + rest && c1.dead.long.credit == c0.dead.long.credit
        && c1.dead.short == c0.dead.short
}

/// The position `b` after `amount` is withdrawn: from the short (`qd`) or
/// long collateral, or, with `sp`, from the QD (`qd`) or NEAR deposit.
pub open spec fn renege_spec(b: Pledge, amount: u128, sp: bool, qd: bool) -> Pledge {
    if !sp {
        if qd {
            Pledge { short: Pod { credit: (b.short.credit - amount) as u128, ..b.short }, ..b }
        } else {
            Pledge { long: Pod { credit: (b.long.credit - amount) as u128, ..b.long }, ..b }
        }
    } else if qd {
        Pledge { quid: (b.quid - amount) as u128, ..b }
    } else {
        Pledge { near: (b.near - amount) as u128, ..b }
    }
}

impl Contract {
    /// Adds to the caller's position: the attached NEAR (`deposit`, counted
    /// from two base units on) to its long collateral (`live`) or to its
    /// solvency deposit; and `qd_amt` QD, taken from its liquid QD first and
    /// then from its QD solvency deposit, to its short collateral (`live`) or
    /// to its solvency deposit.
    #[verifier::rlimit(100)]
    pub fn deposit(&mut self, caller: &String, deposit: u128, qd_amt: u128, live: bool) -> (r: Result<(), QuidError>)
        requires
            old(self).inv(),
        ensures
            !old(self).crank.done ==> r == Err::<(), QuidError>(QuidError::UpdateInProgress) && *final(self) == *old(self),
            old(self).crank.done && deposit == 0 ==> r == Err::<(), QuidError>(QuidError::AmountTooLow)
                && *final(self) == *old(self),
            r.is_ok() ==> final(self).inv() && final(self).same_settings(*old(self)),
            r.is_ok() ==> final(self).dead == old(self).dead && final(self).gfund == old(self).gfund,
            r.is_ok() && old(self).balanced() ==> final(self).balanced(),
            r.is_ok() && old(self).balanced_live() ==> final(self).balanced_live(),
            r.is_ok() && old(self).balanced_sp() ==> final(self).balanced_sp(),
            r.is_ok() ==> final(self).position_of(*caller) == deposit_spec(old(self).position_of(*caller),
                balance(old(self).token, caller@), deposit, qd_amt, live),
            deposit_ok(*old(self), *caller, deposit, qd_amt, live) ==> r.is_ok(),
    {
        if !self.crank.done {
            return Err(QuidError::UpdateInProgress);
        }
        if deposit == 0 {
            return Err(QuidError::AmountTooLow);
        }
        let mut pledge = self.fetch_pledge(caller, true)?;
        let ghost before = pledge;
        let ghost books = *self;
        self.deposit_into(&mut pledge, caller, deposit, qd_amt, live)?;
        proof {
            assert(moved_alike(books, *self, before, pledge));
            assert(self.pledges == books.pledges && self.long_crs == books.long_crs && self.short_crs == books.short_crs);
            crate::contract::lemma_inv_frame(books, *self);
        }
        let ghost mid = *self;
        let ghost saved = pledge;
        assert(saved == deposit_spec(old(self).position_of(*caller), balance(old(self).token, caller@), deposit, qd_amt, live));
        self.save_pledge(pledge)?;
        proof {
            if old(self).balanced() {
                lemma_save_keeps_balance(books, mid, *self, before, saved);
            }
            if old(self).balanced_live() {
                crate::books::lemma_save_keeps_books(books, mid, *self, before, saved, 0, 4);
            }
            if old(self).balanced_sp() {
                crate::books::lemma_save_keeps_books(books, mid, *self, before, saved, 4, 6);
            }
            if saved.is_empty() {
                assert(!books.has(caller@)) by {
                    if books.has(caller@) {
                        let i = choose|i: int| #[trigger] books.place(caller@, i) && books.pledges@[i] == before;
                        assert(!books.pledges@[i].is_empty());
                    }
                }
                assert(saved == Pledge::spec_empty(*caller, MIN_CR));
            } else {
                let i = choose|i: int| #[trigger] self.place(caller@, i);
                assert(self.pledges@[i] == saved);
            }
        }
        Ok(())
    }

    /// The moves of `deposit` on `pledge` and the books, before saving.
    #[verifier::rlimit(100)]
    fn deposit_into(&mut self, pledge: &mut Pledge, caller: &String, deposit: u128, qd_amt: u128, live: bool) -> (r: Result<(), QuidError>)
        requires
            old(pledge).id@ == caller@,
        ensures
            r.is_ok() ==> *final(pledge) == deposit_spec(*old(pledge), balance(old(self).token, caller@), deposit, qd_amt, live),
            r.is_ok() ==> moved_alike(*old(self), *final(self), *old(pledge), *final(pledge)),
            r.is_ok() && !old(pledge).is_empty() ==> !final(pledge).is_empty(),
            deposit_moves_ok(*old(self), *old(pledge), *caller, deposit, qd_amt, live) ==> r.is_ok(),
            r.is_ok() ==> final(self).pledges == old(self).pledges && final(self).long_crs == old(self).long_crs
                && final(self).short_crs == old(self).short_crs && final(self).same_settings(*old(self))
                && final(self).dead == old(self).dead && final(self).gfund == old(self).gfund,
    {
        let mut amt = qd_amt;
        let mut left = amt;
        if deposit > 1 {
            if live {
                pledge.long.credit = plus(pledge.long.credit, deposit)?;
                self.live.long.credit = plus(self.live.long.credit, deposit)?;
            } else {
                pledge.near = plus(pledge.near, deposit)?;
                self.blood.debit = plus(self.blood.debit, deposit)?;
            }
        }
        if amt > 0 {
            let liq_qd = balance_of(&self.token, caller);
            let min = if liq_qd < amt { liq_qd } else { amt };
            if min > 0 {
                burn(&mut self.token, caller, min)?;
                let self_id = self.self_id.clone();
                mint(&mut self.token, &self_id, min)?;
                left = left - min;
            }
            if left > 0 {
                let from_sp = if left < pledge.quid { left } else { pledge.quid };
                self.blood.credit = minus(self.blood.credit, from_sp)?;
                left = left - from_sp;
                pledge.quid = pledge.quid - from_sp;
            }
            amt = amt - left;
            if amt > 0 {
                if live {
                    pledge.short.credit = plus(pledge.short.credit, amt)?;
                    self.live.short.credit = plus(self.live.short.credit, amt)?;
                } else {
                    pledge.quid = plus(pledge.quid, amt)?;
                    self.blood.credit = plus(self.blood.credit, amt)?;
                }
            }
        }
        Ok(())
    }

    /// The moves of `renege` on `pledge` and the books, before saving.
    #[verifier::rlimit(100)]
    fn renege_moves(&mut self, pledge: &mut Pledge, caller: &String, amt: u128, sp: bool, qd: bool) -> (r: Result<Option<u128>, QuidError>)
        requires
            amt > 0,
        ensures
            renege_moves_ok(*old(self), *old(pledge), *caller, amt, sp, qd) ==> r.is_ok(),
            r.is_ok() ==> amt <= renege_field(*old(pledge), sp, qd),
            r.is_ok() && !sp ==> cr_ok(old(self).price, final(pledge).side(qd).credit, final(pledge).side(qd).debit, qd)
                && cr_spec(old(self).price, final(pledge).side(qd).credit, final(pledge).side(qd).debit, qd) >= MIN_CR,
            r.is_ok() ==> *final(pledge) == renege_spec(*old(pledge), amt, sp, qd),
            r.is_ok() ==> renege_books(*old(self), *final(self), amt, sp, qd),
            r.is_ok() ==> (r.unwrap().is_some() == !qd),
            r.is_ok() && qd && caller@ != old(self).self_id@ ==> balance(final(self).token, caller@) == balance(old(self).token, caller@)
                + (amt - ratio_spec(FEE as int, amt as int, ONE as int)),
            r.is_ok() && !qd && (if sp { old(self).blood.debit >= amt } else {
                old(self).native_balance >= amt - ratio_spec(FEE as int, amt as int, ONE as int)
            }) ==> r.unwrap() == Some((amt - ratio_spec(FEE as int, amt as int, ONE as int)) as u128),
            r.is_ok() ==> final(self).pledges == old(self).pledges && final(self).long_crs == old(self).long_crs
                && final(self).short_crs == old(self).short_crs && final(self).same_settings(*old(self)),
    {
        let price = self.price;
        let self_id = self.self_id.clone();
        let all_qd = balance_of(&self.token, &self_id);
        let mut fee = ratio_checked(FEE, amt, ONE)?;
        let mut amt_sub_fee = minus(amt, fee)?;
        let gf_cut = fee / 11;
        fee = fee - gf_cut;
        let mut transfer: Option<u128> = None;
        if !sp {
            if qd {
                pledge.short.credit = minus(pledge.short.credit, amt)?;
                let cr = cr_checked(price, pledge.short.credit, pledge.short.debit, true)?;
                if cr < MIN_CR {
                    return Err(QuidError::BelowMinCr);
                }
                // the protocol pays what QD it holds; the rest is minted as protocol debt
                let min = if all_qd < amt_sub_fee { all_qd } else { amt_sub_fee };
                if amt_sub_fee > min {
                    self.gfund.long.debit = plus(self.gfund.long.debit, amt_sub_fee - min)?;
                }
                burn(&mut self.token, &self_id, min)?;
                mint(&mut self.token, caller, amt_sub_fee)?;
                self.live.short.credit = minus(self.live.short.credit, amt)?;
                self.dead.short.debit = plus(self.dead.short.debit, fee)?;
                self.gfund.short.credit = plus(self.gfund.short.credit, gf_cut)?;
            } else {
                pledge.long.credit = minus(pledge.long.credit, amt)?;
                let cr = cr_checked(price, pledge.long.credit, pledge.long.debit, false)?;
                if cr < MIN_CR {
                    return Err(QuidError::BelowMinCr);
                }
                let near = self.native_balance;
                if amt_sub_fee > near {
                    let in_qd = ratio_checked(price, amt_sub_fee - near, ONE)?;
                    amt_sub_fee = near;
                    mint(&mut self.token, caller, in_qd)?;
                    self.gfund.long.debit = plus(self.gfund.long.debit, in_qd)?;
                }
                self.live.long.credit = minus(self.live.long.credit, amt)?;
                self.dead.long.debit = plus(self.dead.long.debit, fee)?;
                self.gfund.long.credit = plus(self.gfund.long.credit, gf_cut)?;
                transfer = Some(amt_sub_fee);
            }
        } else {
            if qd {
                pledge.quid = minus(pledge.quid, amt)?;
                let min = if self.blood.credit < amt { self.blood.credit } else { amt };
                self.blood.credit = self.blood.credit - min;
                let mut remainder = amt - min;
                if remainder > 0 {
                    let min2 = if self.gfund.short.credit < remainder { self.gfund.short.credit } else { remainder };
                    self.gfund.short.credit = self.gfund.short.credit - min2;
                    if remainder > min2 {
                        remainder = remainder - min2;
                        self.gfund.long.debit = plus(self.gfund.long.debit, remainder)?;
                    }
                }
                burn(&mut self.token, &self_id, amt_sub_fee)?;
                mint(&mut self.token, caller, amt_sub_fee)?;
                self.dead.short.debit = plus(self.dead.short.debit, fee)?;
                self.gfund.short.credit = plus(self.gfund.short.credit, gf_cut)?;
            } else {
                pledge.near = minus(pledge.near, amt)?;
                let min = if self.blood.debit < amt { self.blood.debit } else { amt };
                self.blood.debit = self.blood.debit - min;
                let mut remainder = amt - min;
                if remainder > 0 {
                    let min2 = if self.gfund.long.credit < remainder { self.gfund.long.credit } else { remainder };
                    self.gfund.long.credit = self.gfund.long.credit - min2;
                    if remainder > min2 {
                        remainder = remainder - min2;
                        amt_sub_fee = minus(amt_sub_fee, remainder)?;
                        let in_qd = ratio_checked(price, remainder, ONE)?;
                        mint(&mut self.token, caller, in_qd)?;
                        self.gfund.long.debit = plus(self.gfund.long.debit, in_qd)?;
                    }
                }
                self.dead.long.debit = plus(self.dead.long.debit, fee)?;
                self.gfund.long.credit = plus(self.gfund.long.credit, gf_cut)?;
                transfer = Some(amt_sub_fee);
            }
        }
        Ok(transfer)
    }

    /// Withdraws `amount` from the caller's position, less the fee (1/110,
    /// 1/11 of it to the guarantee fund, the rest to the dead pool): from its
    /// collateral (`!sp`), which must stay at or above `MIN_CR`, or from its
    /// solvency deposit (`sp`), drawn from the solvency pool, then the
    /// guarantee fund, then minted as protocol debt. `qd` picks QD (paid on
    /// the ledger) or NEAR (returned as `Some(near)` to be sent; what the
    /// protocol cannot pay in NEAR is paid in QD).
    pub fn renege(&mut self, caller: &String, amount: u128, sp: bool, qd: bool) -> (r: Result<Option<u128>, QuidError>)
        requires
            old(self).inv(),
        ensures
            !old(self).crank.done ==> r == Err::<Option<u128>, QuidError>(QuidError::UpdateInProgress) && *final(self) == *old(self),
            old(self).crank.done && amount == 0 ==> r == Err::<Option<u128>, QuidError>(QuidError::AmountTooLow)
                && *final(self) == *old(self),
            r.is_ok() ==> final(self).inv() && final(self).same_settings(*old(self)),
            r.is_ok() && !sp ==> exists|i: int| #[trigger] final(self).place(caller@, i) && {
                let side = final(self).pledges@[i].side(qd);
                cr_ok(final(self).price, side.credit, side.debit, qd) && cr_spec(final(self).price, side.credit, side.debit, qd) >= MIN_CR
            },
            r.is_ok() ==> (r.unwrap().is_some() == !qd),
            r.is_ok() && qd && caller@ != old(self).self_id@ ==> balance(final(self).token, caller@) == balance(old(self).token, caller@)
                + (amount - ratio_spec(FEE as int, amount as int, ONE as int)),
            r.is_ok() && old(self).balanced() ==> final(self).balanced(),
            r.is_ok() && old(self).balanced_live() ==> final(self).balanced_live(),
            r.is_ok() && old(self).balanced_sp() ==> final(self).balanced_sp(),
            r.is_ok() ==> {
                let after = renege_spec(old(self).position_of(*caller), amount, sp, qd);
                &&& final(self).has(caller@) == !after.is_empty()
                &&& !after.is_empty() ==> final(self).position_of(*caller) == after
            },
            r.is_ok() ==> amount <= renege_field(old(self).position_of(*caller), sp, qd),
            r.is_ok() ==> renege_books(*old(self), *final(self), amount, sp, qd),
            r.is_ok() && !qd && (if sp { old(self).blood.debit >= amount } else {
                old(self).native_balance >= amount - ratio_spec(FEE as int, amount as int, ONE as int)
            }) ==> r.unwrap() == Some((amount - ratio_spec(FEE as int, amount as int, ONE as int)) as u128),
            ({
                let after = renege_spec(old(self).position_of(*caller), amount, sp, qd);
                &&& old(self).crank.done && amount > 0 && old(self).has(caller@)
                &&& renege_moves_ok(*old(self), old(self).position_of(*caller), *caller, amount, sp, qd)
                &&& after.side_active(false) ==> old(self).long_crs.can_key(after, old(self).price)
                &&& after.side_active(true) ==> old(self).short_crs.can_key(after, old(self).price)
            }) ==> r.is_ok(),
    {
        if !self.crank.done {
            return Err(QuidError::UpdateInProgress);
        }
        let amt = amount;
        if amt == 0 {
            return Err(QuidError::AmountTooLow);
        }
        let price = self.price;
        let mut pledge = self.fetch_pledge(caller, false)?;
        let ghost books = *self;
        let ghost before = pledge;
        proof {
            if books.balanced_sp() {
                let i = choose|i: int| #[trigger] books.place(caller@, i) && books.pledges@[i] == before;
                crate::books::lemma_field_le_sum(books.pledges@, i, 4);
                crate::books::lemma_field_le_sum(books.pledges@, i, 5);
                assert(crate::books::field(before, 4) <= books.book(4));
                assert(crate::books::field(before, 5) <= books.book(5));
            }
        }
        let transfer = self.renege_moves(&mut pledge, caller, amt, sp, qd)?;
        let ghost saved = pledge;
        proof {
            assert(saved == renege_spec(old(self).position_of(*caller), amount, sp, qd));
            assert(books.balanced() ==> moved_alike(books, *self, before, saved));
            assert(crate::books::moved_alike_in(books, *self, before, saved, 0, 4));
            assert(books.balanced_sp() ==> crate::books::moved_alike_in(books, *self, before, saved, 4, 6));
            crate::contract::lemma_inv_frame(books, *self);
        }
        let ghost mid = *self;
        self.save_pledge(pledge)?;
        proof {
            if !sp {
                assert(!saved.is_empty());
                let i = choose|i: int| #[trigger] self.place(caller@, i);
                assert(self.pledges@[i] == saved);
            }
            if books.balanced() {
                lemma_save_keeps_balance(books, mid, *self, before, saved);
            }
            if books.balanced_live() {
                crate::books::lemma_save_keeps_books(books, mid, *self, before, saved, 0, 4);
            }
            if books.balanced_sp() {
                crate::books::lemma_save_keeps_books(books, mid, *self, before, saved, 4, 6);
            }
            if !saved.is_empty() {
                let i = choose|i: int| #[trigger] self.place(caller@, i);
                assert(self.pledges@[i] == saved);
            }
        }
        Ok(transfer)
    }
}

} // verus!
