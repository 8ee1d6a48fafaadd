//! A participant's position, and the keys that order positions in the index.
use vstd::prelude::*;
use crate::math::{computeCR, cr_ok, cr_spec};
use crate::pool::Pod;

verus! {

/// One account's complete position: a long and a short borrowing side and its
/// deposits (`quid`, `near`) in the solvency pool.
#[derive(Debug)]
pub struct Pledge {
    /// Debt in QD, collateral in NEAR.
    pub long: Pod,
    /// Debt in NEAR, collateral in QD.
    pub short: Pod,
    /// Solvency pool deposit of NEAR.
    pub near: u128,
    /// Solvency pool deposit of QD.
    pub quid: u128,
    pub id: String,
    /// Vote for the solvency target.
    pub target: u128,
}

impl Pledge {
    /// A position with nothing in it, as a value.
    pub open spec fn spec_empty(id: String, target: u128) -> Pledge {
        Pledge { long: Pod { credit: 0, debit: 0 }, short: Pod { credit: 0, debit: 0 }, near: 0, quid: 0, id, target }
    }

    /// A position with nothing in it.
    pub fn empty(id: String, target: u128) -> (r: Pledge)
        ensures
            r == Self::spec_empty(id, target),
    {
        Pledge { long: Pod::new(0, 0), short: Pod::new(0, 0), near: 0, quid: 0, id, target }
    }

    pub fn clone(&self) -> (r: Pledge)
        ensures
            r == *self,
    {
        Pledge {
            long: self.long,
            short: self.short,
            near: self.near,
            quid: self.quid,
            id: self.id.clone(),
            target: self.target,
        }
    }

    /// No debt, no collateral and no deposit on either side.
    pub open spec fn is_empty(&self) -> bool {
        self.long.is_empty() && self.short.is_empty() && self.quid == 0 && self.near == 0
    }

    /// The cell of one side.
    pub open spec fn side(&self, short: bool) -> Pod {
        if short {
            self.short
        } else {
            self.long
        }
    }

    /// The side is a live borrowing position: it has debt and collateral.
    pub open spec fn side_active(&self, short: bool) -> bool {
        self.side(short).debit > 0 && self.side(short).credit > 0
    }

    pub fn get_id(&self) -> (r: String)
        ensures
            r@ == self.id@,
    {
        self.id.clone()
    }

    pub fn get_debt_amt(&self, short: bool) -> (r: u128)
        ensures
            r == self.side(short).debit,
    {
        if short {
            self.short.debit
        } else {
            self.long.debit
        }
    }

    pub fn get_coll_val(&self, short: bool) -> (r: u128)
        ensures
            r == self.side(short).credit,
    {
        if short {
            self.short.credit
        } else {
            self.long.credit
        }
    }

    /// Collateralisation ratio of one side at `price`.
    pub fn get_CR(&self, short: bool, price: u128) -> (r: u128)
        requires
            cr_ok(price, self.side(short).credit, self.side(short).debit, short),
        ensures
            r == cr_spec(price, self.side(short).credit, self.side(short).debit, short),
    {
        if short {
            computeCR(price, self.short.credit, self.short.debit, true)
        } else {
            computeCR(price, self.long.credit, self.long.debit, false)
        }
    }
}

/// The figures of a position that readers are shown.
#[derive(Clone, Copy, Debug, PartialEq, Eq, Structural)]
pub struct PledgeView {
    pub debit: u128,
    pub s_debit: u128,
    pub credit: u128,
    pub s_credit: u128,
    pub quid_sp: u128,
    pub near_sp: u128,
}

impl PledgeView {
    /// The figures of `p`.
    pub open spec fn spec_from(p: Pledge) -> PledgeView {
        PledgeView {
            debit: p.long.debit,
            s_debit: p.short.debit,
            credit: p.long.credit,
            s_credit: p.short.credit,
            quid_sp: p.quid,
            near_sp: p.near,
        }
    }

    pub fn from(p: &Pledge) -> (r: Self)
        ensures
            r == Self::spec_from(*p),
    {
        PledgeView {
            debit: p.long.debit,
            s_debit: p.short.debit,
            credit: p.long.credit,
            s_credit: p.short.credit,
            near_sp: p.near,
            quid_sp: p.quid,
        }
    }
}

/// How an index orders its positions.
#[derive(Clone, Copy, Debug, PartialEq, Eq, Structural)]
pub enum Sort {
    Composite,
    CollaterlizationRatio,
}

/// Number of decimal digits of `x` minus one (`⌊log10 x⌋`), and 0 for 0.
pub open spec fn magnitude(x: nat) -> nat
    decreases x,
{
    if x / 10 == 0 {
        0
    } else {
        1 + magnitude(x / 10)
    }
}

proof fn lemma_magnitude_bound(x: nat)
    ensures
        magnitude(x) <= x,
        magnitude(x) <= x / 10,
    decreases x,
{
    if x / 10 != 0 {
        lemma_magnitude_bound(x / 10);
    }
}

/// `⌊log10 x⌋` of a debt, by repeated division.
pub fn magnitude_of(x: u128) -> (r: u128)
    ensures
        r == magnitude(x as nat),
{
    let mut deb = x;
    let mut i: u128 = 0;
    proof {
        lemma_magnitude_bound(x as nat);
    }
    while deb / 10 != 0
        invariant
            i + magnitude(deb as nat) == magnitude(x as nat),
            magnitude(x as nat) <= x,
        decreases deb,
    {
        deb = deb / 10;
        i = i + 1;
    }
    i
}

/// The bytes of an account id, in which accounts are ordered.
pub open spec fn id_bytes(id: String) -> Seq<u8> {
    vstd::utf8::encode_utf8(id@)
}

/// Lexicographic order of byte strings (a proper prefix comes first).
pub open spec fn bytes_lt(a: Seq<u8>, b: Seq<u8>) -> bool
    decreases a.len(),
{
    if b.len() == 0 {
        false
    } else if a.len() == 0 {
        true
    } else if a[0] != b[0] {
        a[0] < b[0]
    } else {
        bytes_lt(a.drop_first(), b.drop_first())
    }
}

pub proof fn lemma_bytes_lt_transitive(a: Seq<u8>, b: Seq<u8>, c: Seq<u8>)
    requires
        bytes_lt(a, b),
        bytes_lt(b, c),
    ensures
        bytes_lt(a, c),
    decreases a.len(),
{
    if a.len() > 0 && a[0] == b[0] && b[0] == c[0] {
        lemma_bytes_lt_transitive(a.drop_first(), b.drop_first(), c.drop_first());
    }
}

pub proof fn lemma_bytes_lt_irreflexive(a: Seq<u8>)
    ensures
        !bytes_lt(a, a),
    decreases a.len(),
{
    if a.len() > 0 {
        lemma_bytes_lt_irreflexive(a.drop_first());
    }
}

/// How two byte strings compare.
pub fn compare_bytes(a: &[u8], b: &[u8]) -> (r: std::cmp::Ordering)
    ensures
        r == std::cmp::Ordering::Less ==> bytes_lt(a@, b@),
        r == std::cmp::Ordering::Greater ==> bytes_lt(b@, a@),
        r == std::cmp::Ordering::Equal ==> a@ == b@,
{
    let mut i: usize = 0;
    assert(a@.skip(0) =~= a@);
    assert(b@.skip(0) =~= b@);
    while i < a.len() && i < b.len() && a[i] == b[i]
        invariant
            i <= a@.len(),
            i <= b@.len(),
            a@.subrange(0, i as int) == b@.subrange(0, i as int),
            bytes_lt(a@, b@) == bytes_lt(a@.skip(i as int), b@.skip(i as int)),
            bytes_lt(b@, a@) == bytes_lt(b@.skip(i as int), a@.skip(i as int)),
        decreases a@.len() - i,
    {
        proof {
            assert(a@.skip(i as int).drop_first() =~= a@.skip(i + 1));
            assert(b@.skip(i as int).drop_first() =~= b@.skip(i + 1));
            assert(a@.subrange(0, i + 1) =~= a@.subrange(0, i as int).push(a@[i as int]));
            assert(b@.subrange(0, i + 1) =~= b@.subrange(0, i as int).push(b@[i as int]));
        }
        i = i + 1;
    }
    if i < a.len() && i < b.len() {
        if a[i] < b[i] {
            std::cmp::Ordering::Less
        } else {
            std::cmp::Ordering::Greater
        }
    } else if i < b.len() {
        std::cmp::Ordering::Less
    } else if i < a.len() {
        std::cmp::Ordering::Greater
    } else {
        assert(a@ =~= a@.subrange(0, i as int));
        assert(b@ =~= b@.subrange(0, i as int));
        std::cmp::Ordering::Equal
    }
}

/// Whether two accounts have the same bytes.
pub fn compare_eq(a: &String, b: &String) -> (r: bool)
    ensures
        r == (id_bytes(*a) == id_bytes(*b)),
{
    let o = compare_bytes(a.as_str().as_bytes(), b.as_str().as_bytes());
    proof {
        lemma_bytes_lt_irreflexive(id_bytes(*a));
        lemma_bytes_lt_irreflexive(id_bytes(*b));
    }
    match o {
        std::cmp::Ordering::Equal => true,
        _ => false,
    }
}

/// The key under which an index holds a position, with a snapshot of the
/// position taken when the key was made.
#[derive(Debug)]
#[allow(inconsistent_fields)]
pub enum SortKeys {
    /// Ordered by ratio, then account.
    CRKey { pledge: Pledge, key: (u128, String) },
    /// Ordered by descending debt magnitude, then ratio, then account.
    CompositeKey { pledge: Pledge, key: (i128, u128, String) },
}

/// The order of keys, as a triple of (negated magnitude, ratio, account bytes).
pub open spec fn key_lt(a: (int, int, Seq<u8>), b: (int, int, Seq<u8>)) -> bool {
    a.0 < b.0 || (a.0 == b.0 && (a.1 < b.1 || (a.1 == b.1 && bytes_lt(a.2, b.2))))
}

pub proof fn lemma_key_lt_transitive(a: (int, int, Seq<u8>), b: (int, int, Seq<u8>), c: (int, int, Seq<u8>))
    requires
        key_lt(a, b),
        key_lt(b, c),
    ensures
        key_lt(a, c),
{
    if a.0 == b.0 && b.0 == c.0 && a.1 == b.1 && b.1 == c.1 {
        lemma_bytes_lt_transitive(a.2, b.2, c.2);
    }
}

pub proof fn lemma_key_lt_irreflexive(a: (int, int, Seq<u8>))
    ensures
        !key_lt(a, a),
{
    lemma_bytes_lt_irreflexive(a.2);
}

impl SortKeys {
    /// The triple this key is ordered by.
    pub open spec fn tuple(&self) -> (int, int, Seq<u8>) {
        match self {
            SortKeys::CRKey { key, .. } => (0, key.0 as int, id_bytes(key.1)),
            SortKeys::CompositeKey { key, .. } => (key.0 as int, key.1 as int, id_bytes(key.2)),
        }
    }

    /// The position the key was made from.
    pub open spec fn snapshot(&self) -> Pledge {
        match self {
            SortKeys::CRKey { pledge, .. } => *pledge,
            SortKeys::CompositeKey { pledge, .. } => *pledge,
        }
    }

    pub open spec fn is_composite(&self) -> bool {
        self is CompositeKey
    }

    /// The key of `pledge` under `sort`, for one side, at `price`.
    pub open spec fn spec_key(pledge: Pledge, id: String, sort: Sort, short: bool, price: u128) -> (
        int,
        int,
        Seq<u8>,
    ) {
        let cr = cr_spec(price, pledge.side(short).credit, pledge.side(short).debit, short);
        match sort {
            Sort::Composite => (-magnitude(pledge.side(short).debit as nat), cr, id_bytes(id)),
            Sort::CollaterlizationRatio => (0, cr, id_bytes(id)),
        }
    }

    /// Makes the key; the ratio of the side must be computable.
    pub fn new(pledge: &Pledge, id: String, sort: &Sort, short: bool, price: u128) -> (r: Self)
        requires
            cr_ok(price, pledge.side(short).credit, pledge.side(short).debit, short),
        ensures
            r.tuple() == Self::spec_key(*pledge, id, *sort, short, price),
            r.snapshot() == *pledge,
            r.is_composite() == (*sort == Sort::Composite),
    {
        match sort {
            Sort::Composite => {
                let deb = pledge.get_debt_amt(short);
                let magnitude = magnitude_of(deb);
                proof {
                    lemma_magnitude_bound(deb as nat);
                }
                assert(magnitude <= i128::MAX);
                let neg: i128 = 0i128 - (magnitude as i128);
                SortKeys::CompositeKey {
                    pledge: pledge.clone(),
                    key: (neg, pledge.get_CR(short, price), id),
                }
            },
            Sort::CollaterlizationRatio => SortKeys::CRKey {
                pledge: pledge.clone(),
                key: (pledge.get_CR(short, price), id),
            },
        }
    }

    /// Whether the key belongs to account `id`.
    pub fn same_id(&self, id: &String) -> (r: bool)
        ensures
            r == (self.tuple().2 == id_bytes(*id)),
    {
        match self {
            SortKeys::CRKey { key, .. } => compare_eq(&key.1, id),
            SortKeys::CompositeKey { key, .. } => compare_eq(&key.2, id),
        }
    }

    pub fn get_pledge(&self) -> (r: Pledge)
        ensures
            r == self.snapshot(),
    {
        match self {
            SortKeys::CRKey { pledge, .. } => pledge.clone(),
            SortKeys::CompositeKey { pledge, .. } => pledge.clone(),
        }
    }

    /// How two keys compare, by their triples.
    pub fn cmp(&self, other: &Self) -> (r: std::cmp::Ordering)
        ensures
            r == std::cmp::Ordering::Less ==> key_lt(self.tuple(), other.tuple()),
            r == std::cmp::Ordering::Greater ==> key_lt(other.tuple(), self.tuple()),
            r == std::cmp::Ordering::Equal ==> self.tuple() == other.tuple(),
    {
        let (a0, a1, a2): (i128, u128, &String) = match self {
            SortKeys::CRKey { key, .. } => (0, key.0, &key.1),
            SortKeys::CompositeKey { key, .. } => (key.0, key.1, &key.2),
        };
        let (b0, b1, b2): (i128, u128, &String) = match other {
            SortKeys::CRKey { key, .. } => (0, key.0, &key.1),
            SortKeys::CompositeKey { key, .. } => (key.0, key.1, &key.2),
        };
        if a0 < b0 {
            std::cmp::Ordering::Less
        } else if a0 > b0 {
            std::cmp::Ordering::Greater
        } else if a1 < b1 {
            std::cmp::Ordering::Less
        } else if a1 > b1 {
            std::cmp::Ordering::Greater
        } else {
            compare_bytes(a2.as_str().as_bytes(), b2.as_str().as_bytes())
        }
    }

    /// Whether two keys are equal.
    pub fn eq(&self, other: &Self) -> (r: bool)
        ensures
            r == (self.tuple() == other.tuple()),
    {
        let o = self.cmp(other);
        proof {
            lemma_key_lt_irreflexive(self.tuple());
        }
        match o {
            std::cmp::Ordering::Equal => true,
            _ => false,
        }
    }
}

} // verus!
