//! The double-entry cells and the four books of the protocol.
use vstd::prelude::*;

verus! {

/// A double-entry cell. In a long context `credit` is NEAR collateral and
/// `debit` QD debt; in a short context `credit` is QD collateral and `debit`
/// NEAR debt.
#[derive(Clone, Copy, Debug, PartialEq, Eq, Structural)]
pub struct Pod {
    pub credit: u128,
    pub debit: u128,
}

impl Pod {
    pub fn new(ins: u128, outs: u128) -> (r: Self)
        ensures
            r.credit == ins,
            r.debit == outs,
    {
        Pod { credit: ins, debit: outs }
    }

    /// The entry that holds QD in the solvency pool (`credit`) or NEAR (`debit`).
    pub open spec fn side_amount(&self, qd: bool) -> int {
        if qd {
            self.credit as int
        } else {
            self.debit as int
        }
    }

    /// Whether both entries are zero.
    pub open spec fn is_empty(&self) -> bool {
        self.credit == 0 && self.debit == 0
    }
}

/// A book with a long and a short cell.
#[derive(Clone, Copy, Debug, PartialEq, Eq, Structural)]
pub struct Pool {
    pub long: Pod,
    pub short: Pod,
}

impl Pool {
    pub fn new() -> (r: Self)
        ensures
            r.long.is_empty(),
            r.short.is_empty(),
    {
        Pool { long: Pod::new(0, 0), short: Pod::new(0, 0) }
    }

    /// The cell of one side.
    pub open spec fn side(&self, short: bool) -> Pod {
        if short {
            self.short
        } else {
            self.long
        }
    }
}

/// Every entry of the four books, as one flat record.
#[derive(Clone, Copy, Debug, PartialEq, Eq, Structural)]
pub struct PoolStats {
    pub blood_credit: u128,
    pub blood_debit: u128,
    pub gfund_long_credit: u128,
    pub gfund_long_debit: u128,
    pub gfund_short_credit: u128,
    pub gfund_short_debit: u128,
    pub live_short_credit: u128,
    pub live_short_debit: u128,
    pub live_long_credit: u128,
    pub live_long_debit: u128,
    pub dead_short_credit: u128,
    pub dead_short_debit: u128,
    pub dead_long_credit: u128,
    pub dead_long_debit: u128,
}

impl PoolStats {
    /// The record of the books `blood`, `gfund`, `live` and `dead`.
    pub open spec fn spec_of(blood: Pod, gfund: Pool, live: Pool, dead: Pool) -> PoolStats {
        PoolStats {
            blood_credit: blood.credit,
            blood_debit: blood.debit,
            gfund_long_credit: gfund.long.credit,
            gfund_long_debit: gfund.long.debit,
            gfund_short_credit: gfund.short.credit,
            gfund_short_debit: gfund.short.debit,
            live_short_credit: live.short.credit,
            live_short_debit: live.short.debit,
            live_long_credit: live.long.credit,
            live_long_debit: live.long.debit,
            dead_short_credit: dead.short.credit,
            dead_short_debit: dead.short.debit,
            dead_long_credit: dead.long.credit,
            dead_long_debit: dead.long.debit,
        }
    }

    /// The record of the books `blood`, `gfund`, `live` and `dead`.
    pub fn new(blood: &Pod, gfund: &Pool, live: &Pool, dead: &Pool) -> (r: Self)
        ensures
            r == Self::spec_of(*blood, *gfund, *live, *dead),
    {
        PoolStats {
            blood_credit: blood.credit,
            blood_debit: blood.debit,
            gfund_long_credit: gfund.long.credit,
            gfund_long_debit: gfund.long.debit,
            gfund_short_credit: gfund.short.credit,
            gfund_short_debit: gfund.short.debit,
            live_short_credit: live.short.credit,
            live_short_debit: live.short.debit,
            live_long_credit: live.long.credit,
            live_long_debit: live.long.debit,
            dead_short_credit: dead.short.credit,
            dead_short_debit: dead.short.debit,
            dead_long_credit: dead.long.credit,
            dead_long_debit: dead.long.debit,
        }
    }
}

} // verus!
