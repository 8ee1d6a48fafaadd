//! Conservation of the books: the positions' sums against the live pool and
//! the solvency pool.
use vstd::prelude::*;
use crate::contract::{ids_unique, store_step, Contract};
use crate::pledge::Pledge;

verus! {

/// One amount of a position: 0 long credit, 1 long debit, 2 short credit,
/// 3 short debit, 4 QD deposit, 5 NEAR deposit.
pub open spec fn field(p: Pledge, k: int) -> int {
    if k == 0 {
        p.long.credit as int
    } else if k == 1 {
        p.long.debit as int
    } else if k == 2 {
        p.short.credit as int
    } else if k == 3 {
        p.short.debit as int
    } else if k == 4 {
        p.quid as int
    } else {
        p.near as int
    }
}

/// The sum of amount `k` over the positions `s`.
pub open spec fn sum_field(s: Seq<Pledge>, k: int) -> int
    decreases s.len(),
{
    if s.len() == 0 {
        0
    } else {
        sum_field(s.drop_last(), k) + field(s.last(), k)
    }
}

impl Contract {
    /// The book entry that amount `k` of all positions adds up to: the live
    /// pool's cells for 0 to 3, the solvency pool's QD and NEAR for 4 and 5.
    pub open spec fn book(&self, k: int) -> int {
        if k == 0 {
            self.live.long.credit as int
        } else if k == 1 {
            self.live.long.debit as int
        } else if k == 2 {
            self.live.short.credit as int
        } else if k == 3 {
            self.live.short.debit as int
        } else if k == 4 {
            self.blood.credit as int
        } else {
            self.blood.debit as int
        }
    }

    /// Each of the six amounts, summed over the positions, equals its book.
    pub open spec fn balanced(&self) -> bool {
        forall|k: int| 0 <= k < 6 ==> #[trigger] sum_field(self.pledges@, k) == self.book(k)
    }

    /// The amounts `lo` up to `hi`, summed over the positions, equal their books.
    pub open spec fn balanced_in(&self, lo: int, hi: int) -> bool {
        forall|k: int| lo <= k < hi ==> #[trigger] sum_field(self.pledges@, k) == self.book(k)
    }

    /// The collateral and debt of all positions add up to the live pool.
    pub open spec fn balanced_live(&self) -> bool {
        self.balanced_in(0, 4)
    }

    /// The solvency deposits of all positions add up to the solvency pool.
    pub open spec fn balanced_sp(&self) -> bool {
        self.balanced_in(4, 6)
    }
}

/// The books moved from `b0` to `b1` exactly as the position moved from `p0`
/// to `p1`.
pub open spec fn moved_alike(b0: Contract, b1: Contract, p0: Pledge, p1: Pledge) -> bool {
    forall|k: int| 0 <= k < 6 ==> #[trigger] b1.book(k) - b0.book(k) == field(p1, k) - field(p0, k)
}

pub proof fn lemma_sum_push(s: Seq<Pledge>, x: Pledge, k: int)
    ensures
        sum_field(s.push(x), k) == sum_field(s, k) + field(x, k),
{
    assert(s.push(x).drop_last() =~= s);
}

pub proof fn lemma_sum_update(s: Seq<Pledge>, i: int, x: Pledge, k: int)
    requires
        0 <= i < s.len(),
    ensures
        sum_field(s.update(i, x), k) == sum_field(s, k) - field(s[i], k) + field(x, k),
    decreases s.len(),
{
    let t = s.update(i, x);
    if i == s.len() - 1 {
        assert(t.drop_last() =~= s.drop_last());
    } else {
        assert(t.drop_last() =~= s.drop_last().update(i, x));
        lemma_sum_update(s.drop_last(), i, x, k);
    }
}

pub proof fn lemma_sum_swap_remove(s: Seq<Pledge>, i: int, k: int)
    requires
        0 <= i < s.len(),
    ensures
        sum_field(s.update(i, s.last()).drop_last(), k) == sum_field(s, k) - field(s[i], k),
{
    let t = s.update(i, s.last());
    lemma_sum_update(s, i, s.last(), k);
    assert(t.last() == s.last());
}

/// Every amount of a position is at most its sum over the positions.
pub proof fn lemma_field_le_sum(s: Seq<Pledge>, i: int, k: int)
    requires
        0 <= i < s.len(),
    ensures
        field(s[i], k) <= sum_field(s, k),
    decreases s.len(),
{
    lemma_sum_nonneg(s.drop_last(), k);
    if i < s.len() - 1 {
        lemma_field_le_sum(s.drop_last(), i, k);
    }
}

pub proof fn lemma_sum_nonneg(s: Seq<Pledge>, k: int)
    ensures
        sum_field(s, k) >= 0,
    decreases s.len(),
{
    if s.len() > 0 {
        lemma_sum_nonneg(s.drop_last(), k);
    }
}

/// Saving `p`, whose stored version was `p0` (or none, `p0` then being
/// empty), changes each sum by what `p` changed.
pub proof fn lemma_store_step_sum(s: Seq<Pledge>, t: Seq<Pledge>, p0: Pledge, p: Pledge, k: int)
    requires
        ids_unique(s),
        store_step(s, t, p),
        p0.id@ == p.id@,
        forall|i: int| 0 <= i < s.len() && (#[trigger] s[i]).id@ == p.id@ ==> s[i] == p0,
        !(exists|i: int| 0 <= i < s.len() && (#[trigger] s[i]).id@ == p.id@) ==> p0.is_empty(),
    ensures
        sum_field(t, k) == sum_field(s, k) - field(p0, k) + field(p, k),
{
    if exists|i: int| 0 <= i < s.len() && (#[trigger] s[i]).id@ == p.id@ {
        let i = choose|i: int| 0 <= i < s.len() && (#[trigger] s[i]).id@ == p.id@;
        if p.is_empty() {
            lemma_sum_swap_remove(s, i, k);
        } else {
            lemma_sum_update(s, i, p, k);
        }
    } else if !p.is_empty() {
        lemma_sum_push(s, p, k);
    }
}

/// The books moved from `b0` to `b1` as the position moved from `p0` to
/// `p1`, for the amounts `lo` up to `hi`.
pub open spec fn moved_alike_in(b0: Contract, b1: Contract, p0: Pledge, p1: Pledge, lo: int, hi: int) -> bool {
    forall|k: int| lo <= k < hi ==> #[trigger] b1.book(k) - b0.book(k) == field(p1, k) - field(p0, k)
}

/// An operation that moves one position and the books of amounts `lo` up to
/// `hi` alike, then saves the position, keeps those books balanced.
pub proof fn lemma_save_keeps_books(b0: Contract, b1: Contract, b2: Contract, p0: Pledge, p1: Pledge, lo: int, hi: int)
    requires
        b0.balanced_in(lo, hi),
        b0.wf(),
        p0.id@ == p1.id@,
        b0.has(p1.id@) ==> exists|i: int| #[trigger] b0.place(p1.id@, i) && b0.pledges@[i] == p0,
        !b0.has(p1.id@) ==> p0.is_empty(),
        moved_alike_in(b0, b1, p0, p1, lo, hi),
        b1.pledges@ == b0.pledges@,
        store_step(b1.pledges@, b2.pledges@, p1),
        b2.live == b1.live,
        b2.blood == b1.blood,
    ensures
        b2.balanced_in(lo, hi),
{
    let s = b0.pledges@;
    assert forall|i: int| 0 <= i < s.len() && (#[trigger] s[i]).id@ == p1.id@ implies s[i] == p0 by {
        assert(b0.place(p1.id@, i));
        let j = choose|j: int| #[trigger] b0.place(p1.id@, j) && b0.pledges@[j] == p0;
    }
    assert(!(exists|i: int| 0 <= i < s.len() && (#[trigger] s[i]).id@ == p1.id@) ==> p0.is_empty()) by {
        if !(exists|i: int| 0 <= i < s.len() && (#[trigger] s[i]).id@ == p1.id@) {
            if b0.has(p1.id@) {
                let j = choose|j: int| #[trigger] b0.place(p1.id@, j);
                assert(s[j].id@ == p1.id@);
            }
        }
    }
    assert forall|k: int| lo <= k < hi implies #[trigger] sum_field(b2.pledges@, k) == b2.book(k) by {
        lemma_store_step_sum(s, b2.pledges@, p0, p1, k);
        assert(b2.book(k) == b1.book(k));
    }
}

/// An operation that moves one position and its books alike, then saves the
/// position, keeps the books balanced.
pub proof fn lemma_save_keeps_balance(b0: Contract, b1: Contract, b2: Contract, p0: Pledge, p1: Pledge)
    requires
        b0.balanced(),
        b0.wf(),
        p0.id@ == p1.id@,
        b0.has(p1.id@) ==> exists|i: int| #[trigger] b0.place(p1.id@, i) && b0.pledges@[i] == p0,
        !b0.has(p1.id@) ==> p0.is_empty(),
        moved_alike(b0, b1, p0, p1),
        b1.pledges@ == b0.pledges@,
        store_step(b1.pledges@, b2.pledges@, p1),
        b2.live == b1.live,
        b2.blood == b1.blood,
    ensures
        b2.balanced(),
{
    let s = b0.pledges@;
    assert forall|i: int| 0 <= i < s.len() && (#[trigger] s[i]).id@ == p1.id@ implies s[i] == p0 by {
        assert(b0.place(p1.id@, i));
        let j = choose|j: int| #[trigger] b0.place(p1.id@, j) && b0.pledges@[j] == p0;
    }
    assert(!(exists|i: int| 0 <= i < s.len() && (#[trigger] s[i]).id@ == p1.id@) ==> p0.is_empty()) by {
        if !(exists|i: int| 0 <= i < s.len() && (#[trigger] s[i]).id@ == p1.id@) {
            if b0.has(p1.id@) {
                let j = choose|j: int| #[trigger] b0.place(p1.id@, j);
                assert(s[j].id@ == p1.id@);
            }
        }
    }
    assert forall|k: int| 0 <= k < 6 implies #[trigger] sum_field(b2.pledges@, k) == b2.book(k) by {
        lemma_store_step_sum(s, b2.pledges@, p0, p1, k);
        assert(b2.book(k) == b1.book(k));
    }
}

} // verus!
