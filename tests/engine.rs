use quid::contract::Contract;
use quid::crank::UpdateStep;
use quid::error::QuidError;
use quid::liquidate::Rescue;
use quid::math::{computeCR, ratio, EIGHT_HOURS, FEE, MIN_CR, ONE};
use quid::settle::DeadShares;

fn fresh() -> Contract {
    near_sdk::test_utils::test_env::setup_free();
    let mut c = Contract::new("owner.near".to_string(), "quid.near".to_string());
    c.set_price(5 * ONE);
    c.native_balance = 1000 * ONE;
    c
}

fn id(s: &str) -> String {
    s.to_string()
}

fn long_cr(c: &Contract, who: &str) -> u128 {
    let v = c.get_pledge(&id(who)).unwrap();
    computeCR(c.get_price(), v.credit, v.debit, false)
}

#[test]
fn borrow_long_within_collateral() {
    let mut c = fresh();
    let out = c.borrow(&id("a.near"), 2 * ONE, 5 * ONE, false);
    assert_eq!(out, Ok(None));
    assert_eq!(c.get_qd_balance(&id("a.near")), 5 * ONE);
    assert_eq!(c.live.long.credit, 2 * ONE);
    assert_eq!(c.live.long.debit, 5 * ONE);
    assert_eq!(long_cr(&c, "a.near"), 2 * ONE);
    let v = c.get_pledge(&id("a.near")).unwrap();
    assert_eq!((v.credit, v.debit), (2 * ONE, 5 * ONE));
    assert_eq!(c.long_crs.len(), 1);
    assert_eq!(c.short_crs.len(), 0);
}

#[test]
fn borrow_refusals() {
    let mut c = fresh();
    assert_eq!(c.borrow(&id("a.near"), 0, 5 * ONE, false), Err(QuidError::AmountTooLow));
    assert_eq!(c.borrow(&id("a.near"), ONE, 0, false), Err(QuidError::AmountTooLow));
    assert_eq!(c.get_pledge(&id("a.near")), None);
}

#[test]
fn borrow_during_update_is_refused() {
    let mut c = fresh();
    c.borrow(&id("a.near"), 2 * ONE, 5 * ONE, false).unwrap();
    assert_eq!(c.update(EIGHT_HOURS), Ok(UpdateStep::Begin));
    let before = c.get_pool_stats();
    assert_eq!(c.borrow(&id("b.near"), 2 * ONE, 5 * ONE, false), Err(QuidError::UpdateInProgress));
    assert_eq!(c.deposit(&id("b.near"), 2 * ONE, 0, true), Err(QuidError::UpdateInProgress));
    assert_eq!(c.get_pool_stats(), before);
    assert_eq!(c.get_pledge(&id("b.near")), None);
}

#[test]
fn clip_snatches_underwater_long() {
    let mut c = fresh();
    c.borrow(&id("a.near"), 2 * ONE, 5 * ONE, false).unwrap();
    // the borrower spends its QD, so nothing is left to rescue it with
    let sent = c.swap(&id("a.near"), 1, 5 * ONE, false, false).unwrap();
    assert!(sent.is_some());
    assert_eq!(c.get_qd_balance(&id("a.near")), 0);
    let dead_before = c.dead;
    let gfund_before = c.gfund;
    c.set_price(24 * ONE / 10);
    assert_eq!(long_cr(&c, "a.near"), 96 * ONE / 100);
    assert_eq!(c.clip(&id("a.near")), Ok(()));
    assert_eq!(c.live.long.credit, 0);
    assert_eq!(c.live.long.debit, 0);
    assert_eq!(c.dead.long.credit, dead_before.long.credit + 2 * ONE);
    assert_eq!(c.dead.long.debit, dead_before.long.debit + 48 * ONE / 10);
    assert_eq!(c.gfund.long.debit, gfund_before.long.debit + 2 * ONE / 10);
    assert_eq!(c.get_pledge(&id("a.near")), None);
    assert_eq!(c.long_crs.len(), 0);
}

#[test]
fn clip_rescues_with_liquid_qd() {
    let mut c = fresh();
    c.borrow(&id("a.near"), 2 * ONE, 5 * ONE, false).unwrap();
    c.set_price(24 * ONE / 10);
    assert_eq!(c.clip(&id("a.near")), Ok(()));
    let v = c.get_pledge(&id("a.near")).unwrap();
    assert_eq!(v.credit, 2 * ONE);
    assert!(v.debit < 5 * ONE);
    assert!(c.get_qd_balance(&id("a.near")) < 5 * ONE);
    assert_eq!(c.live.long.debit, v.debit);
}

#[test]
fn clip_without_position_changes_nothing() {
    let mut c = fresh();
    let before = c.get_pool_stats();
    assert_eq!(c.clip(&id("nobody.near")), Ok(()));
    assert_eq!(c.get_pool_stats(), before);
}

#[test]
fn redeem_against_solvency_pool() {
    let mut c = fresh();
    // B funds the solvency pool with 10 QD and 1 NEAR
    c.borrow(&id("b.near"), 20 * ONE, 10 * ONE, false).unwrap();
    c.deposit(&id("b.near"), ONE, 10 * ONE, false).unwrap();
    assert_eq!(c.blood.credit, 10 * ONE);
    assert_eq!(c.blood.debit, ONE);
    assert_eq!(c.get_pledge(&id("b.near")).unwrap().quid_sp, 10 * ONE);
    // C borrows 3 QD against 1 NEAR, D holds QD to redeem
    c.borrow(&id("c.near"), ONE, 3 * ONE, false).unwrap();
    c.borrow(&id("d.near"), ONE, 2 * ONE, false).unwrap();
    let sent = c.swap(&id("d.near"), 1, ONE, false, false).unwrap();
    assert_eq!(c.blood.debit, ONE - 2 * ONE / 10);
    assert_eq!(c.blood.credit, 11 * ONE);
    assert_eq!(sent, Some(2 * ONE / 10));
    assert_eq!(c.gfund.long.credit, 0);
    assert_eq!(c.dead.long.debit, 0);
    assert_eq!(c.get_qd_balance(&id("d.near")), ONE);
    // C's position was not touched
    assert_eq!(c.get_pledge(&id("c.near")).unwrap().debit, 3 * ONE);
}

#[test]
fn redeem_needs_native_liquidity() {
    let mut c = fresh();
    c.borrow(&id("d.near"), ONE, 2 * ONE, false).unwrap();
    c.native_balance = 0;
    assert_eq!(c.swap(&id("d.near"), 1, ONE, false, false), Err(QuidError::InsufficientNear));
}

#[test]
fn borrow_short_through_valve() {
    let mut c = fresh();
    c.borrow(&id("b.near"), 20 * ONE, 10 * ONE, false).unwrap();
    c.deposit(&id("b.near"), ONE, 10 * ONE, false).unwrap();
    let out = c.borrow(&id("e.near"), ONE, ONE, true);
    assert_eq!(out, Ok(None));
    let v = c.get_pledge(&id("e.near")).unwrap();
    assert_eq!(v.s_debit, ONE);
    assert_eq!(v.s_credit, 55 * ONE / 10);
    assert!(computeCR(c.get_price(), v.s_credit, v.s_debit, true) >= MIN_CR);
    assert_eq!(c.short_crs.len(), 1);
}

#[test]
fn borrow_short_within_collateral_sends_near() {
    let mut c = fresh();
    c.borrow(&id("b.near"), 20 * ONE, 20 * ONE, false).unwrap();
    c.deposit(&id("b.near"), ONE, 20 * ONE, false).unwrap();
    let out = c.borrow(&id("e.near"), 2 * ONE, 15 * ONE / 10, true);
    assert_eq!(out, Ok(Some(15 * ONE / 10)));
    let v = c.get_pledge(&id("e.near")).unwrap();
    assert_eq!(v.s_credit, 10 * ONE);
    assert_eq!(v.s_debit, 15 * ONE / 10);
}

#[test]
fn short_inversion_needs_protocol_qd() {
    let mut c = fresh();
    assert_eq!(c.borrow(&id("e.near"), ONE, ONE, true), Err(QuidError::InsufficientQd));
}

#[test]
fn deposit_and_renege_keep_books() {
    let mut c = fresh();
    c.borrow(&id("a.near"), 10 * ONE, 5 * ONE, false).unwrap();
    c.deposit(&id("a.near"), 3 * ONE, 2 * ONE, false).unwrap();
    let v = c.get_pledge(&id("a.near")).unwrap();
    assert_eq!(v.near_sp, 3 * ONE);
    assert_eq!(v.quid_sp, 2 * ONE);
    assert_eq!(c.blood.debit, 3 * ONE);
    assert_eq!(c.blood.credit, 2 * ONE);
    assert_eq!(c.get_qd_balance(&id("a.near")), 3 * ONE);
    let sent = c.renege(&id("a.near"), 2 * ONE, true, false).unwrap();
    let fee = ratio(FEE, 2 * ONE, ONE);
    assert_eq!(sent, Some(2 * ONE - fee));
    assert_eq!(c.get_pledge(&id("a.near")).unwrap().near_sp, ONE);
    assert_eq!(c.blood.debit, ONE);
    assert_eq!(c.gfund.long.credit, fee / 11);
    assert_eq!(c.dead.long.debit, fee - fee / 11);
}

#[test]
fn renege_collateral_below_min_is_refused() {
    let mut c = fresh();
    c.borrow(&id("a.near"), 2 * ONE, 5 * ONE, false).unwrap();
    assert_eq!(c.renege(&id("a.near"), 15 * ONE / 10, false, false), Err(QuidError::BelowMinCr));
    assert_eq!(c.renege(&id("z.near"), 2 * ONE, false, false), Err(QuidError::PledgeMissing));
    assert_eq!(c.renege(&id("a.near"), 0, false, false), Err(QuidError::AmountTooLow));
}

#[test]
fn deposit_collateral_and_close() {
    let mut c = fresh();
    c.deposit(&id("a.near"), 2 * ONE, 0, true).unwrap();
    let v = c.get_pledge(&id("a.near")).unwrap();
    assert_eq!(v.credit, 2 * ONE);
    assert_eq!(c.live.long.credit, 2 * ONE);
    // collateral alone is not indexed
    assert_eq!(c.long_crs.len(), 0);
    // withdrawing everything leaves a ratio of zero, under the minimum
    assert_eq!(c.renege(&id("a.near"), 2 * ONE, false, false), Err(QuidError::BelowMinCr));
    let sent = c.renege(&id("a.near"), 15 * ONE / 10, false, false).unwrap();
    assert_eq!(sent, Some(15 * ONE / 10 - ratio(FEE, 15 * ONE / 10, ONE)));
    assert_eq!(c.get_pledge(&id("a.near")).unwrap().credit, ONE / 2);
    assert_eq!(c.live.long.credit, ONE / 2);
}

#[test]
fn repay_long_debt() {
    let mut c = fresh();
    c.borrow(&id("a.near"), 2 * ONE, 5 * ONE, false).unwrap();
    c.swap(&id("a.near"), 1, 2 * ONE, true, false).unwrap();
    let v = c.get_pledge(&id("a.near")).unwrap();
    assert_eq!(v.debit, 3 * ONE);
    assert_eq!(v.credit, 2 * ONE);
    assert_eq!(c.live.long.debit, 3 * ONE);
    assert_eq!(c.get_qd_balance(&id("a.near")), 3 * ONE);
}

#[test]
fn absorb_nets_dead_pool_shares() {
    let mut c = fresh();
    c.borrow(&id("a.near"), 10 * ONE, 5 * ONE, false).unwrap();
    c.deposit(&id("a.near"), 3 * ONE, 2 * ONE, false).unwrap();
    c.dead.long.debit = 4 * ONE;
    c.dead.short.credit = ONE;
    c.dead.short.debit = 0;
    c.dead.long.credit = ONE;
    let shares = DeadShares { near: 2 * ONE, near_debt: ONE, qd_debt: ONE, qd: 0 };
    c.absorb(&id("a.near"), shares).unwrap();
    let v = c.get_pledge(&id("a.near")).unwrap();
    assert_eq!(v.near_sp, 4 * ONE);
    assert_eq!(c.blood.debit, 4 * ONE);
    assert_eq!(v.quid_sp, ONE);
    assert_eq!(c.blood.credit, ONE);
    assert_eq!(c.dead.long.debit, 2 * ONE);
    assert_eq!(c.dead.short.credit, 0);
    assert_eq!(c.dead.long.credit, 0);
}

#[test]
fn premium_moves_collateral_to_funds() {
    let mut c = fresh();
    c.borrow(&id("a.near"), 10 * ONE, 5 * ONE, false).unwrap();
    let mut p = c.fetch_pledge(&id("a.near"), false).unwrap();
    c.dead.short.credit = 0;
    let due = 11 * ONE / 10;
    c.charge_premium(&mut p, false, due).unwrap();
    let taken = ratio(ONE, due, c.get_price());
    assert_eq!(p.long.credit, 10 * ONE - taken);
    assert_eq!(c.live.long.credit, 10 * ONE - taken);
    assert_eq!(c.gfund.long.credit, taken / 11);
    assert_eq!(c.dead.long.debit, taken - taken / 11);
    c.save_pledge(p).unwrap();
    assert_eq!(c.get_pledge(&id("a.near")).unwrap().credit, 10 * ONE - taken);
}

#[test]
fn update_cycle_over_positions() {
    let mut c = fresh();
    c.borrow(&id("a.near"), 2 * ONE, 5 * ONE, false).unwrap();
    c.borrow(&id("b.near"), 2 * ONE, 5 * ONE, false).unwrap();
    assert_eq!(c.update(EIGHT_HOURS - 1), Err(QuidError::TooEarly));
    assert_eq!(c.update(EIGHT_HOURS), Ok(UpdateStep::Begin));
    assert_eq!(c.update(EIGHT_HOURS + 1), Ok(UpdateStep::Stress { start: 0, stop: 2 }));
    assert!(c.crank.done);
    assert_eq!(c.crank.last, EIGHT_HOURS + 1);
}

#[test]
fn pledges_listing() {
    let mut c = fresh();
    c.borrow(&id("a.near"), 2 * ONE, 5 * ONE, false).unwrap();
    c.borrow(&id("b.near"), 3 * ONE, 5 * ONE, false).unwrap();
    let all = c.get_pledges(0, 10);
    assert_eq!(all.len(), 2);
    assert_eq!(all[0].0, "a.near".to_string());
    assert_eq!(all[1].1.credit, 3 * ONE);
    assert_eq!(c.get_pledges(1, 10).len(), 1);
    assert_eq!(c.get_pledges(5, 10).len(), 0);
    let top = c.long_crs.get_top(1);
    assert_eq!(top.len(), 1);
    assert_eq!(top[0].id, "a.near".to_string());
}

#[test]
fn snatch_refuses_covered_debt() {
    let mut c = fresh();
    assert_eq!(c.snatch(ONE, ONE, false), Err(QuidError::NotLiquidatable));
}

fn sums(c: &Contract) -> [u128; 6] {
    let mut s = [0u128; 6];
    for v in c.get_pledges(0, 1000) {
        let v = v.1;
        s[0] += v.credit;
        s[1] += v.debit;
        s[2] += v.s_credit;
        s[3] += v.s_debit;
        s[4] += v.quid_sp;
        s[5] += v.near_sp;
    }
    s
}

fn books(c: &Contract) -> [u128; 6] {
    [c.live.long.credit, c.live.long.debit, c.live.short.credit, c.live.short.debit, c.blood.credit, c.blood.debit]
}

#[test]
fn books_balance_after_sequence() {
    let mut c = fresh();
    c.borrow(&id("a.near"), 10 * ONE, 5 * ONE, false).unwrap();
    c.borrow(&id("b.near"), 4 * ONE, 3 * ONE, false).unwrap();
    c.deposit(&id("a.near"), 3 * ONE, 2 * ONE, false).unwrap();
    c.deposit(&id("b.near"), 2 * ONE, ONE, true).unwrap();
    c.swap(&id("b.near"), 1, ONE, true, false).unwrap();
    c.renege(&id("a.near"), 2 * ONE, true, false).unwrap();
    c.renege(&id("a.near"), 2 * ONE, false, false).unwrap();
    assert_eq!(sums(&c), books(&c));
    let b = c.get_pledge(&id("b.near")).unwrap();
    assert_eq!((b.credit, b.debit, b.s_credit), (6 * ONE, 2 * ONE, ONE));
}

#[test]
fn index_follows_activity() {
    let mut c = fresh();
    c.deposit(&id("a.near"), 2 * ONE, 0, true).unwrap();
    assert_eq!(c.long_crs.len(), 0);
    c.borrow(&id("a.near"), 1, 2 * ONE, false).unwrap();
    assert_eq!(c.long_crs.len(), 1);
    c.swap(&id("a.near"), 1, 2 * ONE, true, false).unwrap();
    assert_eq!(c.get_pledge(&id("a.near")).unwrap().debit, 0);
    assert_eq!(c.long_crs.len(), 0);
    assert_eq!(c.get_pledge_tree(0, 10).len(), 0);
}

#[test]
fn borrow_under_water_is_refused() {
    let mut c = fresh();
    c.borrow(&id("a.near"), 2 * ONE, 5 * ONE, false).unwrap();
    c.set_price(25 * ONE / 10);
    assert_eq!(c.borrow(&id("a.near"), 2 * ONE, 2 * ONE, false), Err(QuidError::BorrowBelowMinCr));
}

#[test]
fn repay_without_qd_is_refused() {
    let mut c = fresh();
    c.deposit(&id("a.near"), 2 * ONE, 0, true).unwrap();
    assert_eq!(c.swap(&id("a.near"), 1, ONE, true, false), Err(QuidError::NotEnoughBalance));
    assert_eq!(c.swap(&id("z.near"), 1, ONE, true, false), Err(QuidError::PledgeMissing));
}

#[test]
fn short_debt_at_zero_price_is_refused() {
    let mut c = fresh();
    c.borrow(&id("b.near"), 20 * ONE, 20 * ONE, false).unwrap();
    c.deposit(&id("b.near"), ONE, 20 * ONE, false).unwrap();
    c.set_price(0);
    assert_eq!(c.borrow(&id("e.near"), 1, 2 * ONE, true), Err(QuidError::DivisionOverflow));
}

#[test]
fn error_messages() {
    assert_eq!(QuidError::UpdateInProgress.message(), "Update in progress");
    assert_eq!(QuidError::AmountTooLow.message(), "Amount must be larger than 0");
    assert_eq!(QuidError::AdditionOverflow.message(), "Addition overflow");
}

#[test]
fn rescue_outcomes() {
    let mut c = fresh();
    c.borrow(&id("a.near"), 2 * ONE, 5 * ONE, false).unwrap();
    c.swap(&id("a.near"), 1, 5 * ONE, false, false).unwrap();
    c.set_price(24 * ONE / 10);
    let p = c.fetch_pledge(&id("a.near"), false).unwrap();
    let out = c.try_kill_pledge(&p, false).unwrap();
    assert_eq!(out, (0, 0, 0, 0, Rescue::Snatched));

    let mut c = fresh();
    c.borrow(&id("b.near"), 2 * ONE, 5 * ONE, false).unwrap();
    c.deposit(&id("b.near"), ONE, 0, false).unwrap();
    c.set_price(25 * ONE / 10);
    let p = c.fetch_pledge(&id("b.near"), false).unwrap();
    let out = c.try_kill_pledge(&p, false).unwrap();
    assert_eq!(out.4, Rescue::Saved);
    assert!(computeCR(c.get_price(), out.1, out.3, false) >= MIN_CR);
    assert_eq!(out.0, 8 * ONE / 10);
    assert_eq!(out.1, 22 * ONE / 10);
}

#[test]
fn fold_closes_long_side() {
    let mut c = fresh();
    c.borrow(&id("b.near"), 20 * ONE, 20 * ONE, false).unwrap();
    c.deposit(&id("b.near"), ONE, 20 * ONE, false).unwrap();
    c.borrow(&id("a.near"), 2 * ONE, 5 * ONE, false).unwrap();
    assert_eq!(c.fold(&id("a.near"), false), Ok(()));
    let v = c.get_pledge(&id("a.near")).unwrap();
    assert_eq!(v.debit, 0);
    assert_eq!(v.credit, ONE);
    assert_eq!(c.blood.debit, ONE + ONE);
    assert_eq!(c.blood.credit, 15 * ONE);
    assert_eq!(c.fold(&id("z.near"), false), Err(QuidError::PledgeMissing));
}

#[test]
fn borrow_one_unit() {
    let mut c = fresh();
    assert_eq!(c.borrow(&id("a.near"), 2 * ONE, ONE, false), Ok(None));
    assert_eq!(c.get_qd_balance(&id("a.near")), ONE);
    assert_eq!(c.renege(&id("a.near"), ONE / 2, false, false).map(|x| x.is_some()), Ok(true));
}

#[test]
fn renege_qd_collateral_pays_amount_less_fee() {
    let mut c = fresh();
    c.borrow(&id("a.near"), 10 * ONE, 5 * ONE, false).unwrap();
    c.deposit(&id("a.near"), 1, 3 * ONE, true).unwrap();
    assert_eq!(c.get_qd_balance(&id("a.near")), 2 * ONE);
    assert_eq!(c.renege(&id("a.near"), 2 * ONE, false, true), Ok(None));
    let fee = ratio(FEE, 2 * ONE, ONE);
    assert_eq!(c.get_qd_balance(&id("a.near")), 2 * ONE + 2 * ONE - fee);
    assert_eq!(c.get_pledge(&id("a.near")).unwrap().s_credit, ONE);
    assert_eq!(c.live.short.credit, ONE);
    assert_eq!(c.gfund.short.credit, fee / 11);
    assert_eq!(c.dead.short.debit, fee - fee / 11);
}
