//! Ordered index of positions by composite key (debt magnitude first, then
//! ratio, then account), held as a strictly ascending vector of keys.
use vstd::prelude::*;
use crate::math::cr_ok;
use crate::pledge::{key_lt, lemma_key_lt_irreflexive, lemma_key_lt_transitive, Pledge, Sort, SortKeys};

verus! {

/// Key triples in strictly ascending order.
pub open spec fn sorted(s: Seq<(int, int, Seq<u8>)>) -> bool {
    forall|i: int, j: int| 0 <= i < j < s.len() ==> key_lt(#[trigger] s[i], #[trigger] s[j])
}

proof fn lemma_sorted_insert(s: Seq<(int, int, Seq<u8>)>, i: int, k: (int, int, Seq<u8>))
    requires
        sorted(s),
        0 <= i <= s.len(),
        forall|j: int| 0 <= j < i ==> key_lt(#[trigger] s[j], k),
        i < s.len() ==> key_lt(k, s[i]),
    ensures
        sorted(s.insert(i, k)),
{
    let t = s.insert(i, k);
    assert forall|a: int, b: int| 0 <= a < b < t.len() implies key_lt(#[trigger] t[a], #[trigger] t[b]) by {
        if b < i {
        } else if b == i {
        } else if a < i {
            lemma_key_lt_transitive(s[a], k, s[i]);
            if b - 1 > i {
                lemma_key_lt_transitive(s[a], s[i], s[b - 1]);
            }
        } else if a == i {
            if b - 1 > i {
                lemma_key_lt_transitive(k, s[i], s[b - 1]);
            }
        } else {
        }
    }
}

/// The positions of one side, ordered by key.
pub struct PledgesTreeMap {
    pub value: Vec<SortKeys>,
    pub type_of_sort: Sort,
    pub short: bool,
}

/// Distinct accounts have distinct bytes.
pub proof fn lemma_id_bytes_injective(a: String, b: String)
    requires
        a@ != b@,
    ensures
        crate::pledge::id_bytes(a) != crate::pledge::id_bytes(b),
{
    vstd::utf8::encode_utf8_decode_utf8(a@);
    vstd::utf8::encode_utf8_decode_utf8(b@);
}

impl PledgesTreeMap {
    /// Some key of the index belongs to account `id`.
    pub open spec fn holds(&self, id: String) -> bool {
        exists|k: (int, int, Seq<u8>)| #[trigger] self.keys().to_set().contains(k) && k.2 == crate::pledge::id_bytes(id)
    }

    /// Removes every key of account `id`.
    pub fn remove_id(&mut self, id: &String)
        requires
            old(self).wf(),
        ensures
            final(self).wf(),
            final(self).type_of_sort == old(self).type_of_sort,
            final(self).short == old(self).short,
            final(self).keys().to_set() == old(self).keys().to_set().filter(
                |k: (int, int, Seq<u8>)| k.2 != crate::pledge::id_bytes(*id),
            ),
    {
        let ghost idb = crate::pledge::id_bytes(*id);
        let ghost old_set = self.keys().to_set();
        let ghost f = |k: (int, int, Seq<u8>)| k.2 != idb;
        let mut i: usize = 0;
        assert(self.keys().subrange(0, 0).to_set() =~= Set::<(int, int, Seq<u8>)>::empty());
        while i < self.value.len()
            invariant
                self.wf(),
                idb == crate::pledge::id_bytes(*id),
                f == (|k: (int, int, Seq<u8>)| k.2 != idb),
                self.type_of_sort == old(self).type_of_sort,
                self.short == old(self).short,
                i <= self.value@.len(),
                forall|j: int| 0 <= j < i ==> (#[trigger] self.keys()[j]).2 != idb,
                self.keys().to_set().filter(f) == old_set.filter(f),
                self.keys().to_set().subset_of(old_set),
            decreases self.value@.len() + self.value@.len() - i,
        {
            let same = self.value[i].same_id(id);
            assert(self.keys()[i as int] == self.value@[i as int].tuple());
            if same {
                let ghost before = self.keys();
                assert(before[i as int].2 == idb);
                self.value.remove(i);
                proof {
                    assert forall|j: int| 0 <= j < i implies #[trigger] self.keys()[j] == before[j] by {}
                    assert(self.keys() =~= before.remove(i as int));
                    assert forall|x| self.keys().to_set().contains(x) implies before.to_set().contains(x) by {
                        let j = choose|j: int| 0 <= j < self.keys().len() && self.keys()[j] == x;
                        if j < i {
                            assert(before[j] == x);
                        } else {
                            assert(before[j + 1] == x);
                        }
                    }
                    assert forall|x| #[trigger] before.to_set().filter(f).contains(x) implies self.keys().to_set().filter(f).contains(x) by {
                        let j = choose|j: int| 0 <= j < before.len() && before[j] == x;
                        if j < i {
                            assert(self.keys()[j] == x);
                        } else if j > i {
                            assert(self.keys()[j - 1] == x);
                        }
                    }
                    assert(self.keys().to_set().filter(f) =~= before.to_set().filter(f));
                    assert forall|a: int, b: int| 0 <= a < b < self.keys().len() implies key_lt(#[trigger] self.keys()[a], #[trigger] self.keys()[b]) by {
                        if a < i && b >= i {
                            assert(before[b + 1] == self.keys()[b]);
                        } else if a >= i {
                            assert(before[a + 1] == self.keys()[a]);
                            assert(before[b + 1] == self.keys()[b]);
                        }
                    }
                }
            } else {
                i = i + 1;
            }
        }
        proof {
            assert forall|x| #[trigger] self.keys().to_set().contains(x) implies x.2 != idb by {
                let j = choose|j: int| 0 <= j < self.keys().len() && self.keys()[j] == x;
            }
            assert(self.keys().to_set() =~= self.keys().to_set().filter(f));
            assert(old_set.filter(f) =~= old(self).keys().to_set().filter(
                |k: (int, int, Seq<u8>)| k.2 != crate::pledge::id_bytes(*id),
            ));
        }
    }

    /// The key triples, in order.
    pub open spec fn keys(&self) -> Seq<(int, int, Seq<u8>)> {
        self.value@.map_values(|k: SortKeys| k.tuple())
    }

    /// The snapshots of the positions, in key order.
    pub open spec fn snapshots(&self) -> Seq<Pledge> {
        self.value@.map_values(|k: SortKeys| k.snapshot())
    }

    /// Keys strictly ascending, all made under this index's sort.
    pub open spec fn wf(&self) -> bool {
        &&& sorted(self.keys())
        &&& forall|i: int|
            0 <= i < self.value@.len() ==> (#[trigger] self.value@[i]).is_composite() == (
            self.type_of_sort == Sort::Composite)
    }

    /// The key this index gives `pledge` at `price`.
    pub open spec fn key_of(&self, pledge: Pledge, price: u128) -> (int, int, Seq<u8>) {
        SortKeys::spec_key(pledge, pledge.id, self.type_of_sort, self.short, price)
    }

    /// Whether this index can compute the key of `pledge` at `price`.
    pub open spec fn can_key(&self, pledge: Pledge, price: u128) -> bool {
        cr_ok(price, pledge.side(self.short).credit, pledge.side(self.short).debit, self.short)
    }

    pub fn new(type_of_sort: Sort, short: bool) -> (r: Self)
        ensures
            r.wf(),
            r.value@.len() == 0,
            r.type_of_sort == type_of_sort,
            r.short == short,
    {
        PledgesTreeMap { value: Vec::new(), type_of_sort, short }
    }

    pub fn len(&self) -> (r: u64)
        ensures
            r == self.value@.len(),
    {
        self.value.len() as u64
    }

    pub fn clear(&mut self)
        ensures
            final(self).value@.len() == 0,
            final(self).type_of_sort == old(self).type_of_sort,
            final(self).short == old(self).short,
            final(self).wf(),
    {
        self.value.clear();
    }

    fn make_key(&self, pledge: &Pledge, price: u128) -> (r: SortKeys)
        requires
            self.can_key(*pledge, price),
        ensures
            r.tuple() == self.key_of(*pledge, price),
            r.snapshot() == *pledge,
            r.is_composite() == (self.type_of_sort == Sort::Composite),
    {
        SortKeys::new(pledge, pledge.get_id(), &self.type_of_sort, self.short, price)
    }

    /// Where `key` stands or would stand, and whether it is there.
    fn position(&self, key: &SortKeys) -> (res: (usize, bool))
        requires
            self.wf(),
        ensures
            res.0 <= self.value@.len(),
            forall|j: int| 0 <= j < res.0 ==> key_lt(#[trigger] self.keys()[j], key.tuple()),
            res.1 ==> res.0 < self.value@.len() && self.keys()[res.0 as int] == key.tuple(),
            !res.1 ==> forall|j: int|
                res.0 <= j < self.value@.len() ==> key_lt(key.tuple(), #[trigger] self.keys()[j]),
    {
        let mut i: usize = 0;
        while i < self.value.len()
            invariant
                self.wf(),
                i <= self.value@.len(),
                forall|j: int| 0 <= j < i ==> key_lt(#[trigger] self.keys()[j], key.tuple()),
            decreases self.value@.len() - i,
        {
            match self.value[i].cmp(key) {
                std::cmp::Ordering::Less => {
                    i = i + 1;
                },
                std::cmp::Ordering::Equal => {
                    return (i, true);
                },
                std::cmp::Ordering::Greater => {
                    assert forall|j: int| i <= j < self.value@.len() implies key_lt(
                        key.tuple(),
                        #[trigger] self.keys()[j],
                    ) by {
                        if j > i {
                            lemma_key_lt_transitive(key.tuple(), self.keys()[i as int], self.keys()[j]);
                        }
                    }
                    return (i, false);
                },
            }
        }
        (i, false)
    }

    /// Whether the key of `pledge` at `price` is in the index.
    pub fn contains_key(&self, pledge: &Pledge, price: u128) -> (r: bool)
        requires
            self.wf(),
            self.can_key(*pledge, price),
        ensures
            r == self.keys().contains(self.key_of(*pledge, price)),
    {
        let k = self.make_key(pledge, price);
        let (i, found) = self.position(&k);
        proof {
            if found {
                assert(self.keys()[i as int] == k.tuple());
            } else {
                assert forall|j: int| 0 <= j < self.keys().len() implies self.keys()[j] != k.tuple() by {
                    lemma_key_lt_irreflexive(k.tuple());
                    if j < i {
                        assert(key_lt(self.keys()[j], k.tuple()));
                    } else {
                        assert(key_lt(k.tuple(), self.keys()[j]));
                    }
                }
            }
        }
        found
    }

    /// `Some(())` where the key of `pledge` at `price` is in the index.
    pub fn get(&self, pledge: &Pledge, price: u128) -> (r: Option<()>)
        requires
            self.wf(),
            self.can_key(*pledge, price),
        ensures
            r.is_some() == self.keys().contains(self.key_of(*pledge, price)),
    {
        if self.contains_key(pledge, price) {
            Some(())
        } else {
            None
        }
    }

    /// Adds the key of `pledge` at `price`; `Some(())` where it was there already
    /// (its snapshot is then replaced).
    pub fn insert(&mut self, pledge: &Pledge, price: u128) -> (r: Option<()>)
        requires
            old(self).wf(),
            old(self).can_key(*pledge, price),
        ensures
            final(self).wf(),
            final(self).type_of_sort == old(self).type_of_sort,
            final(self).short == old(self).short,
            r.is_some() == old(self).keys().contains(old(self).key_of(*pledge, price)),
            final(self).keys().to_set() == old(self).keys().to_set().insert(
                old(self).key_of(*pledge, price),
            ),
    {
        let k = self.make_key(pledge, price);
        let ghost kt = k.tuple();
        let (i, found) = self.position(&k);
        let ghost old_keys = self.keys();
        proof {
            if !found {
                assert forall|j: int| 0 <= j < old_keys.len() implies old_keys[j] != kt by {
                    lemma_key_lt_irreflexive(kt);
                    if j < i {
                        assert(key_lt(old_keys[j], kt));
                    } else {
                        assert(key_lt(kt, old_keys[j]));
                    }
                }
            }
        }
        if found {
            self.value.set(i, k);
            proof {
                assert(self.keys() =~= old_keys);
                assert(old_keys.contains(kt));
                assert(old_keys.to_set().insert(kt) =~= old_keys.to_set());
            }
            Some(())
        } else {
            self.value.insert(i, k);
            proof {
                assert(self.keys() =~= old_keys.insert(i as int, kt));
                lemma_sorted_insert(old_keys, i as int, kt);
                assert forall|x| self.keys().to_set().contains(x) <==> old_keys.to_set().insert(kt).contains(x) by {
                    if self.keys().contains(x) {
                        let j = choose|j: int| 0 <= j < self.keys().len() && self.keys()[j] == x;
                        if j < i {
                            assert(old_keys[j] == x);
                        } else if j > i {
                            assert(old_keys[j - 1] == x);
                        }
                    }
                    if old_keys.contains(x) {
                        let j = choose|j: int| 0 <= j < old_keys.len() && old_keys[j] == x;
                        if j < i {
                            assert(self.keys()[j] == x);
                        } else {
                            assert(self.keys()[j + 1] == x);
                        }
                    }
                    if x == kt {
                        assert(self.keys()[i as int] == x);
                    }
                }
                assert(self.keys().to_set() =~= old_keys.to_set().insert(kt));
            }
            None
        }
    }

    /// Removes the key of `pledge` at `price`; `Some(())` where it was there.
    pub fn remove(&mut self, pledge: &Pledge, price: u128) -> (r: Option<()>)
        requires
            old(self).wf(),
            old(self).can_key(*pledge, price),
        ensures
            final(self).wf(),
            final(self).type_of_sort == old(self).type_of_sort,
            final(self).short == old(self).short,
            r.is_some() == old(self).keys().contains(old(self).key_of(*pledge, price)),
            final(self).keys().to_set() == old(self).keys().to_set().remove(
                old(self).key_of(*pledge, price),
            ),
    {
        let k = self.make_key(pledge, price);
        let ghost kt = k.tuple();
        let (i, found) = self.position(&k);
        let ghost old_keys = self.keys();
        proof {
            lemma_key_lt_irreflexive(kt);
            assert forall|j: int| 0 <= j < old_keys.len() && j != i implies old_keys[j] != kt by {
                if j < i {
                    assert(key_lt(old_keys[j], kt));
                } else if found {
                    assert(key_lt(old_keys[i as int], old_keys[j]));
                } else {
                    assert(key_lt(kt, old_keys[j]));
                }
            }
        }
        if found {
            self.value.remove(i);
            proof {
                assert(self.keys() =~= old_keys.remove(i as int));
                assert forall|x| self.keys().to_set().contains(x) <==> old_keys.to_set().remove(kt).contains(x) by {
                    if self.keys().contains(x) {
                        let j = choose|j: int| 0 <= j < self.keys().len() && self.keys()[j] == x;
                        if j < i {
                            assert(old_keys[j] == x);
                        } else {
                            assert(old_keys[j + 1] == x);
                        }
                    }
                    if old_keys.contains(x) && x != kt {
                        let j = choose|j: int| 0 <= j < old_keys.len() && old_keys[j] == x;
                        if j < i {
                            assert(self.keys()[j] == x);
                        } else {
                            assert(self.keys()[j - 1] == x);
                        }
                    }
                }
                assert(self.keys().to_set() =~= old_keys.to_set().remove(kt));
            }
            Some(())
        } else {
            proof {
                assert(!old_keys.contains(kt)) by {
                    if old_keys.contains(kt) {
                        let j = choose|j: int| 0 <= j < old_keys.len() && old_keys[j] == kt;
                        if j < i {
                            assert(key_lt(old_keys[j], kt));
                        } else {
                            assert(key_lt(kt, old_keys[j]));
                        }
                    }
                }
                assert(old_keys.to_set().remove(kt) =~= old_keys.to_set());
            }
            None
        }
    }
}

/// `i` splits `keys` at `k`: the keys before `i` are below `k` (or, with
/// `inclusive`, below or equal), the others are not.
pub open spec fn splits(keys: Seq<(int, int, Seq<u8>)>, i: int, k: (int, int, Seq<u8>), inclusive: bool) -> bool {
    &&& 0 <= i <= keys.len()
    &&& forall|j: int| 0 <= j < i ==> key_lt(#[trigger] keys[j], k) || (inclusive && keys[j] == k)
    &&& forall|j: int| i <= j < keys.len() ==> !key_lt(#[trigger] keys[j], k) && !(inclusive && keys[j] == k)
}

/// `i` is where a range that starts at `k` begins: the keys before it are
/// below `k`, or, where `k` is not included, below or equal to it.
pub open spec fn lower_splits(keys: Seq<(int, int, Seq<u8>)>, i: int, k: (int, int, Seq<u8>), included: bool) -> bool {
    splits(keys, i, k, !included)
}

impl PledgesTreeMap {
    /// Where the keys below `k` end (`inclusive`: below or equal).
    fn split(&self, pledge: &Pledge, price: u128, inclusive: bool) -> (i: usize)
        requires
            self.wf(),
            self.can_key(*pledge, price),
        ensures
            splits(self.keys(), i as int, self.key_of(*pledge, price), inclusive),
    {
        let k = self.make_key(pledge, price);
        let n = self.value.len();
        let (i, found) = self.position(&k);
        proof {
            lemma_key_lt_irreflexive(k.tuple());
        }
        if found && inclusive {
            assert(i < n);
            assert forall|j: int| i + 1 <= j < self.keys().len() implies !key_lt(#[trigger] self.keys()[j], k.tuple()) && !(inclusive && self.keys()[j] == k.tuple()) by {
                assert(key_lt(self.keys()[i as int], self.keys()[j]));
                if key_lt(self.keys()[j], k.tuple()) {
                    lemma_key_lt_transitive(self.keys()[j], k.tuple(), self.keys()[j]);
                    lemma_key_lt_irreflexive(self.keys()[j]);
                }
            }
            i + 1
        } else {
            assert forall|j: int| i <= j < self.keys().len() implies !key_lt(#[trigger] self.keys()[j], k.tuple()) && !(inclusive && self.keys()[j] == k.tuple()) by {
                if found {
                    if j > i {
                        assert(key_lt(self.keys()[i as int], self.keys()[j]));
                    }
                } else {
                    assert(key_lt(k.tuple(), self.keys()[j]));
                }
                if key_lt(self.keys()[j], k.tuple()) {
                    if found {
                        if j > i {
                            lemma_key_lt_transitive(self.keys()[j], k.tuple(), self.keys()[j]);
                        }
                    } else {
                        lemma_key_lt_transitive(self.keys()[j], k.tuple(), self.keys()[j]);
                    }
                    lemma_key_lt_irreflexive(self.keys()[j]);
                }
            }
            i
        }
    }

    /// The snapshots from `from` up to `to`, in order.
    fn slice(&self, from: usize, to: usize) -> (r: Vec<Pledge>)
        requires
            from <= to <= self.value@.len(),
        ensures
            r@ == self.snapshots().subrange(from as int, to as int),
    {
        let mut r: Vec<Pledge> = Vec::new();
        let mut i = from;
        while i < to
            invariant
                from <= i <= to <= self.value@.len(),
                r@ == self.snapshots().subrange(from as int, i as int),
            decreases to - i,
        {
            r.push(self.value[i].get_pledge());
            proof {
                assert(r@ =~= self.snapshots().subrange(from as int, i + 1));
            }
            i = i + 1;
        }
        r
    }

    /// The snapshots below `to`, from the highest down.
    fn slice_rev(&self, to: usize) -> (r: Vec<Pledge>)
        requires
            to <= self.value@.len(),
        ensures
            r@ == self.snapshots().subrange(0, to as int).reverse(),
    {
        let mut r: Vec<Pledge> = Vec::new();
        let mut i = to;
        while i > 0
            invariant
                i <= to <= self.value@.len(),
                r@ == self.snapshots().subrange(i as int, to as int).reverse(),
            decreases i,
        {
            i = i - 1;
            r.push(self.value[i].get_pledge());
            proof {
                assert(r@ =~= self.snapshots().subrange(i as int, to as int).reverse());
            }
        }
        r
    }

    /// The position with the lowest key.
    pub fn min(&self) -> (r: Option<Pledge>)
        ensures
            r == (if self.value@.len() == 0 { None } else { Some(self.snapshots()[0]) }),
    {
        if self.value.len() == 0 {
            None
        } else {
            Some(self.value[0].get_pledge())
        }
    }

    /// The position with the highest key.
    pub fn max(&self) -> (r: Option<Pledge>)
        ensures
            r == (if self.value@.len() == 0 {
                None
            } else {
                Some(self.snapshots()[self.value@.len() - 1])
            }),
    {
        let n = self.value.len();
        if n == 0 {
            None
        } else {
            Some(self.value[n - 1].get_pledge())
        }
    }

    /// The first position whose key is above that of `pledge`.
    pub fn higher(&self, pledge: &Pledge, price: u128) -> (r: Option<Pledge>)
        requires
            self.wf(),
            self.can_key(*pledge, price),
        ensures
            exists|i: int|
                splits(self.keys(), i, self.key_of(*pledge, price), true) && r == (if i
                    < self.value@.len() {
                    Some(self.snapshots()[i])
                } else {
                    None
                }),
    {
        let i = self.split(pledge, price, true);
        if i < self.value.len() {
            Some(self.value[i].get_pledge())
        } else {
            None
        }
    }

    /// The first position whose key is at or above that of `pledge`.
    pub fn ceil_key(&self, pledge: &Pledge, price: u128) -> (r: Option<Pledge>)
        requires
            self.wf(),
            self.can_key(*pledge, price),
        ensures
            exists|i: int|
                splits(self.keys(), i, self.key_of(*pledge, price), false) && r == (if i
                    < self.value@.len() {
                    Some(self.snapshots()[i])
                } else {
                    None
                }),
    {
        let i = self.split(pledge, price, false);
        if i < self.value.len() {
            Some(self.value[i].get_pledge())
        } else {
            None
        }
    }

    /// The last position whose key is below that of `pledge`.
    pub fn lower(&self, pledge: &Pledge, price: u128) -> (r: Option<Pledge>)
        requires
            self.wf(),
            self.can_key(*pledge, price),
        ensures
            exists|i: int|
                splits(self.keys(), i, self.key_of(*pledge, price), false) && r == (if i > 0 {
                    Some(self.snapshots()[i - 1])
                } else {
                    None
                }),
    {
        let i = self.split(pledge, price, false);
        if i > 0 {
            Some(self.value[i - 1].get_pledge())
        } else {
            None
        }
    }

    /// The last position whose key is at or below that of `pledge`.
    pub fn floor_key(&self, pledge: &Pledge, price: u128) -> (r: Option<Pledge>)
        requires
            self.wf(),
            self.can_key(*pledge, price),
        ensures
            exists|i: int|
                splits(self.keys(), i, self.key_of(*pledge, price), true) && r == (if i > 0 {
                    Some(self.snapshots()[i - 1])
                } else {
                    None
                }),
    {
        let i = self.split(pledge, price, true);
        if i > 0 {
            Some(self.value[i - 1].get_pledge())
        } else {
            None
        }
    }

    /// All positions in key order.
    pub fn iter(&self) -> (r: Vec<Pledge>)
        ensures
            r@ == self.snapshots(),
    {
        let r = self.slice(0, self.value.len());
        assert(self.snapshots().subrange(0, self.value@.len() as int) =~= self.snapshots());
        r
    }

    /// All positions in key order.
    pub fn to_vec(&self) -> (r: Vec<Pledge>)
        ensures
            r@ == self.snapshots(),
    {
        self.iter()
    }

    /// The first `n` positions in key order.
    pub fn get_top(&self, n: usize) -> (r: Vec<Pledge>)
        ensures
            r@ == self.snapshots().take(if n < self.value@.len() { n as int } else { self.value@.len() as int }),
    {
        let to = if n < self.value.len() { n } else { self.value.len() };
        self.slice(0, to)
    }

    /// The positions from the key of `pledge` upwards.
    pub fn iter_from(&self, pledge: &Pledge, price: u128) -> (r: Vec<Pledge>)
        requires
            self.wf(),
            self.can_key(*pledge, price),
        ensures
            exists|i: int|
                splits(self.keys(), i, self.key_of(*pledge, price), false) && r@ == self.snapshots().skip(i),
    {
        let i = self.split(pledge, price, false);
        let r = self.slice(i, self.value.len());
        assert(self.snapshots().subrange(i as int, self.value@.len() as int) =~= self.snapshots().skip(i as int));
        r
    }

    /// All positions from the highest key down.
    pub fn iter_rev(&self) -> (r: Vec<Pledge>)
        ensures
            r@ == self.snapshots().reverse(),
    {
        let r = self.slice_rev(self.value.len());
        assert(self.snapshots().subrange(0, self.value@.len() as int) =~= self.snapshots());
        r
    }

    /// The positions from the key of `pledge` downwards.
    pub fn iter_rev_from(&self, pledge: &Pledge, price: u128) -> (r: Vec<Pledge>)
        requires
            self.wf(),
            self.can_key(*pledge, price),
        ensures
            exists|i: int|
                splits(self.keys(), i, self.key_of(*pledge, price), true) && r@ == self.snapshots().take(i).reverse(),
    {
        let i = self.split(pledge, price, true);
        self.slice_rev(i)
    }

    /// The positions whose keys lie between those of `lo` and `hi`; each end is
    /// included where its flag says so.
    pub fn range(&self, lo: &Pledge, lo_included: bool, hi: &Pledge, hi_included: bool, price: u128) -> (r: Vec<Pledge>)
        requires
            self.wf(),
            self.can_key(*lo, price),
            self.can_key(*hi, price),
        ensures
            exists|i: int|
                #[trigger] lower_splits(self.keys(), i, self.key_of(*lo, price), lo_included) && exists|j: int|
                    #[trigger] splits(self.keys(), j, self.key_of(*hi, price), hi_included) && r@ == (if i
                        <= j {
                        self.snapshots().subrange(i, j)
                    } else {
                        Seq::empty()
                    }),
    {
        let i = self.split(lo, price, !lo_included);
        let j = self.split(hi, price, hi_included);
        let r = if i <= j {
            self.slice(i, j)
        } else {
            let r: Vec<Pledge> = Vec::new();
            assert(r@ =~= Seq::<Pledge>::empty());
            r
        };
        assert(lower_splits(self.keys(), i as int, self.key_of(*lo, price), lo_included) && splits(
            self.keys(),
            j as int,
            self.key_of(*hi, price),
            hi_included,
        ) && r@ == (if i <= j { self.snapshots().subrange(i as int, j as int) } else { Seq::empty() }));
        r
    }
}

} // verus!
