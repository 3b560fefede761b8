//! The broker's order table (keyed by order id) and price table
//! (keyed by asset pair).

use vstd::prelude::*;
use vstd::string::StringExecFns;

use crate::assets::AssetPair;
use crate::common::Order;
use crate::rational::Rational;

verus! {

/// First `(pair, order)` stored under order id `k` at or after `i`.
pub open spec fn find_order_from(
    s: Seq<(String, AssetPair, Order)>,
    k: Seq<char>,
    i: int,
) -> Option<(AssetPair, Order)>
    decreases s.len() - i,
{
    if i < 0 || i >= s.len() {
        None
    } else if s[i].0@ == k {
        Some((s[i].1, s[i].2))
    } else {
        find_order_from(s, k, i + 1)
    }
}

/// All orders ever placed, keyed by their generated id.
#[derive(Debug)]
pub struct OrderTable {
    entries: Vec<(String, AssetPair, Order)>,
}

impl OrderTable {
    /// Each id occurs once.
    pub closed spec fn wf(&self) -> bool {
        forall|i: int, j: int|
            0 <= i < j < self.entries@.len() ==> (#[trigger] self.entries@[i]).0@ != (
            #[trigger] self.entries@[j]).0@
    }

    /// The stored entries in storage order: id, pair, order.
    pub closed spec fn model(&self) -> Seq<(Seq<char>, AssetPair, Order)> {
        self.entries@.map(|i: int, e: (String, AssetPair, Order)| (e.0@, e.1, e.2))
    }

    /// The pair and order stored under `k`, if any.
    pub closed spec fn lookup(&self, k: Seq<char>) -> Option<(AssetPair, Order)> {
        find_order_from(self.entries@, k, 0)
    }

    pub fn new() -> (r: OrderTable)
        ensures
            r.wf(),
            forall|k: Seq<char>| #[trigger] r.lookup(k) is None,
            r.model() == Seq::<(Seq<char>, AssetPair, Order)>::empty(),
    {
        let r = OrderTable { entries: Vec::new() };
        proof {
            assert(r.model() =~= Seq::<(Seq<char>, AssetPair, Order)>::empty());
        }
        r
    }

    pub fn len(&self) -> (r: usize)
        ensures
            r == self.model().len(),
    {
        self.entries.len()
    }

    /// The pair and order at position `i` of the table.
    pub fn entry_at(&self, i: usize) -> (r: (AssetPair, Order))
        requires
            i < self.model().len(),
        ensures
            r.0 == self.model()[i as int].1,
            r.1 == self.model()[i as int].2,
    {
        (self.entries[i].1.duplicate(), self.entries[i].2.duplicate())
    }

    /// The first entry for the id of position `i` is position `i`.
    pub proof fn lemma_entry_lookup(&self, i: int)
        requires
            self.wf(),
            0 <= i < self.model().len(),
        ensures
            self.lookup(self.model()[i].0) == Some(
                (self.model()[i].1, self.model()[i].2),
            ),
    {
        lemma_order_find_unique(self.entries@, self.model()[i].0, i, 0);
    }

    /// A successful lookup comes from some stored entry.
    pub proof fn lemma_lookup_in_model(&self, k: Seq<char>)
        requires
            self.wf(),
            self.lookup(k) is Some,
        ensures
            exists|m: int|
                0 <= m < self.model().len() && #[trigger] self.model()[m] == (
                    k,
                    self.lookup(k).unwrap().0,
                    self.lookup(k).unwrap().1,
                ),
    {
        lemma_order_find_some_exists(self.entries@, k, 0);
        let m = choose|m: int|
            0 <= m < self.entries@.len() && (#[trigger] self.entries@[m]).0@ == k && Some(
                (self.entries@[m].1, self.entries@[m].2),
            ) == find_order_from(self.entries@, k, 0);
        assert(self.model()[m] == (k, self.lookup(k).unwrap().0, self.lookup(k).unwrap().1));
    }

    /// The pair and order stored under `order_id`.
    pub fn get(&self, order_id: &str) -> (r: Option<(AssetPair, Order)>)
        requires
            self.wf(),
        ensures
            r == self.lookup(order_id@),
    {
        let needle = String::from_str(order_id);
        let n = self.entries.len();
        let mut i: usize = 0;
        while i < n
            invariant
                0 <= i <= n,
                n == self.entries@.len(),
                needle@ == order_id@,
                self.wf(),
                find_order_from(self.entries@, order_id@, 0) == find_order_from(
                    self.entries@,
                    order_id@,
                    i as int,
                ),
            decreases n - i,
        {
            if self.entries[i].0 == needle {
                return Some((self.entries[i].1.duplicate(), self.entries[i].2.duplicate()));
            }
            i = i + 1;
        }
        None
    }

    /// Stores `order` under its own id, replacing any entry with that
    /// id; a replaced entry keeps its position, a new one is appended.
    pub fn upsert(&mut self, pair: AssetPair, order: Order)
        requires
            old(self).wf(),
        ensures
            final(self).wf(),
            final(self).lookup(order.order_id@) == Some((pair, order)),
            forall|k: Seq<char>|
                k != order.order_id@ ==> #[trigger] final(self).lookup(k) == old(self).lookup(k),
            old(self).lookup(order.order_id@) is None ==> final(self).model() == old(
                self,
            ).model().push((order.order_id@, pair, order)),
            old(self).lookup(order.order_id@) is Some ==> final(self).model().len() == old(
                self,
            ).model().len(),
            forall|j: int|
                0 <= j < old(self).model().len() ==> (if (#[trigger] old(self).model()[j]).0
                    == order.order_id@ {
                    final(self).model()[j] == (order.order_id@, pair, order)
                } else {
                    final(self).model()[j] == old(self).model()[j]
                }),
    {
        let needle = order.order_id.clone();
        let n = self.entries.len();
        let mut i: usize = 0;
        while i < n
            invariant
                0 <= i <= n,
                n == self.entries@.len(),
                needle@ == order.order_id@,
                self.wf(),
                *self == *old(self),
                forall|j: int| 0 <= j < i ==> (#[trigger] self.entries@[j]).0@ != order.order_id@,
            decreases n - i,
        {
            if self.entries[i].0 == needle {
                proof {
                    lemma_order_find_prefix_skip(old(self).entries@, order.order_id@, 0, i as int);
                }
                self.entries[i] = (needle, pair, order);
                proof {
                    lemma_order_find_prefix_skip(self.entries@, order.order_id@, 0, i as int);
                    assert forall|k: Seq<char>| k != order.order_id@ implies #[trigger] find_order_from(
                        self.entries@,
                        k,
                        0,
                    ) == find_order_from(old(self).entries@, k, 0) by {
                        lemma_order_find_other_keys(
                            old(self).entries@,
                            self.entries@,
                            order.order_id@,
                            k,
                            0,
                        );
                    }
                }
                return ;
            }
            i = i + 1;
        }
        self.entries.push((needle, pair, order));
        proof {
            lemma_order_find_none(old(self).entries@, order.order_id@, 0);
            lemma_order_find_prefix_skip(self.entries@, order.order_id@, 0, n as int);
            assert forall|k: Seq<char>| k != order.order_id@ implies #[trigger] find_order_from(
                self.entries@,
                k,
                0,
            ) == find_order_from(old(self).entries@, k, 0) by {
                lemma_order_find_push_other(old(self).entries@, self.entries@, k, 0);
            }
            assert(self.model() =~= old(self).model().push((order.order_id@, pair, order)));
        }
    }

    /// Replaces the order at position `i`; the id and pair stay.
    pub fn replace_at(&mut self, i: usize, order: Order)
        requires
            old(self).wf(),
            i < old(self).model().len(),
            order.order_id@ == old(self).model()[i as int].0,
        ensures
            final(self).wf(),
            final(self).model() == old(self).model().update(
                i as int,
                (old(self).model()[i as int].0, old(self).model()[i as int].1, order),
            ),
            final(self).lookup(order.order_id@) == Some(
                (old(self).model()[i as int].1, order),
            ),
            forall|k: Seq<char>|
                k != order.order_id@ ==> #[trigger] final(self).lookup(k) == old(self).lookup(k),
    {
        let id = self.entries[i].0.clone();
        let pair = self.entries[i].1.duplicate();
        self.entries[i] = (id, pair, order);
        proof {
            assert(self.model() =~= old(self).model().update(
                i as int,
                (old(self).model()[i as int].0, old(self).model()[i as int].1, order),
            ));
            lemma_order_find_unique(self.entries@, order.order_id@, i as int, 0);
            assert forall|k: Seq<char>| k != order.order_id@ implies #[trigger] find_order_from(
                self.entries@,
                k,
                0,
            ) == find_order_from(old(self).entries@, k, 0) by {
                lemma_order_find_other_keys(
                    old(self).entries@,
                    self.entries@,
                    order.order_id@,
                    k,
                    0,
                );
            }
        }
    }

    /// A copy that holds the same entries.
    pub fn duplicate(&self) -> (r: OrderTable)
        requires
            self.wf(),
        ensures
            r.wf(),
            r.model() == self.model(),
            forall|k: Seq<char>| #[trigger] r.lookup(k) == self.lookup(k),
    {
        let n = self.entries.len();
        let mut entries: Vec<(String, AssetPair, Order)> = Vec::new();
        let mut i: usize = 0;
        while i < n
            invariant
                0 <= i <= n,
                n == self.entries@.len(),
                entries@.len() == i,
                forall|j: int| 0 <= j < i ==> entries@[j] == self.entries@[j],
            decreases n - i,
        {
            let id = self.entries[i].0.clone();
            let pair = self.entries[i].1.duplicate();
            let order = self.entries[i].2.duplicate();
            entries.push((id, pair, order));
            i = i + 1;
        }
        let r = OrderTable { entries };
        proof {
            assert(r.entries@ =~= self.entries@);
            assert(r.model() =~= self.model());
        }
        r
    }
}

proof fn lemma_order_find_some_exists(s: Seq<(String, AssetPair, Order)>, k: Seq<char>, i: int)
    requires
        0 <= i,
        find_order_from(s, k, i) is Some,
    ensures
        exists|m: int|
            i <= m < s.len() && (#[trigger] s[m]).0@ == k && Some((s[m].1, s[m].2))
                == find_order_from(s, k, i),
    decreases s.len() - i,
{
    if i < s.len() && s[i].0@ != k {
        lemma_order_find_some_exists(s, k, i + 1);
    }
}

proof fn lemma_order_find_unique(s: Seq<(String, AssetPair, Order)>, k: Seq<char>, i: int, from: int)
    requires
        0 <= from <= i < s.len(),
        s[i].0@ == k,
        forall|a: int, b: int|
            0 <= a < b < s.len() ==> (#[trigger] s[a]).0@ != (#[trigger] s[b]).0@,
    ensures
        find_order_from(s, k, from) == Some((s[i].1, s[i].2)),
    decreases i - from,
{
    if from < i {
        assert(s[from].0@ != s[i].0@);
        lemma_order_find_unique(s, k, i, from + 1);
    }
}

proof fn lemma_order_find_none(s: Seq<(String, AssetPair, Order)>, k: Seq<char>, i: int)
    requires
        0 <= i,
        forall|j: int| 0 <= j < s.len() ==> (#[trigger] s[j]).0@ != k,
    ensures
        find_order_from(s, k, i) is None,
    decreases s.len() - i,
{
    if i < s.len() {
        lemma_order_find_none(s, k, i + 1);
    }
}

proof fn lemma_order_find_prefix_skip(s: Seq<(String, AssetPair, Order)>, k: Seq<char>, from: int, m: int)
    requires
        0 <= from <= m < s.len(),
        s[m].0@ == k,
        forall|j: int| 0 <= j < m ==> (#[trigger] s[j]).0@ != k,
    ensures
        find_order_from(s, k, from) == Some((s[m].1, s[m].2)),
    decreases m - from,
{
    if from < m {
        lemma_order_find_prefix_skip(s, k, from + 1, m);
    }
}

proof fn lemma_order_find_other_keys(
    s0: Seq<(String, AssetPair, Order)>,
    s1: Seq<(String, AssetPair, Order)>,
    kc: Seq<char>,
    k2: Seq<char>,
    i: int,
)
    requires
        s1.len() == s0.len(),
        forall|j: int|
            0 <= j < s0.len() ==> (#[trigger] s1[j]).0@ == s0[j].0@ && (s0[j].0@ != kc ==> s1[j]
                == s0[j]),
        k2 != kc,
        0 <= i,
    ensures
        find_order_from(s1, k2, i) == find_order_from(s0, k2, i),
    decreases s0.len() - i,
{
    if i < s0.len() {
        lemma_order_find_other_keys(s0, s1, kc, k2, i + 1);
    }
}

proof fn lemma_order_find_push_other(
    s0: Seq<(String, AssetPair, Order)>,
    s1: Seq<(String, AssetPair, Order)>,
    k2: Seq<char>,
    i: int,
)
    requires
        s1.len() == s0.len() + 1,
        forall|j: int| 0 <= j < s0.len() ==> #[trigger] s1[j] == s0[j],
        s1[s0.len() as int].0@ != k2,
        0 <= i,
    ensures
        find_order_from(s1, k2, i) == find_order_from(s0, k2, i),
    decreases s1.len() - i,
{
    if i < s1.len() {
        if i < s0.len() {
            lemma_order_find_push_other(s0, s1, k2, i + 1);
        } else {
            assert(find_order_from(s1, k2, i + 1) is None);
        }
    }
}

/// First price stored under pair key `k` at or after `i`.
pub open spec fn find_price_from(
    s: Seq<(AssetPair, Rational)>,
    k: (Seq<char>, Seq<char>),
    i: int,
) -> Option<Rational>
    decreases s.len() - i,
{
    if i < 0 || i >= s.len() {
        None
    } else if (s[i].0.quantity_asset@, s[i].0.notional_asset@) == k {
        Some(s[i].1)
    } else {
        find_price_from(s, k, i + 1)
    }
}

/// The last stored price of each asset pair.
#[derive(Debug)]
pub struct PriceTable {
    entries: Vec<(AssetPair, Rational)>,
}

impl PriceTable {
    pub closed spec fn wf(&self) -> bool {
        &&& forall|i: int|
            0 <= i < self.entries@.len() ==> (#[trigger] self.entries@[i]).1.wf()
        &&& forall|i: int, j: int|
            0 <= i < j < self.entries@.len() ==> ((#[trigger] self.entries@[i]).0.quantity_asset@,
            self.entries@[i].0.notional_asset@) != ((#[trigger] self.entries@[j]).0.quantity_asset@,
            self.entries@[j].0.notional_asset@)
    }

    /// The price stored for a pair, if any.
    pub closed spec fn lookup(&self, k: (Seq<char>, Seq<char>)) -> Option<Rational> {
        find_price_from(self.entries@, k, 0)
    }

    pub fn new() -> (r: PriceTable)
        ensures
            r.wf(),
            forall|k: (Seq<char>, Seq<char>)| #[trigger] r.lookup(k) is None,
    {
        PriceTable { entries: Vec::new() }
    }

    pub fn get(&self, pair: &AssetPair) -> (r: Option<Rational>)
        requires
            self.wf(),
        ensures
            r == self.lookup((pair.quantity_asset@, pair.notional_asset@)),
            r matches Some(v) ==> v.wf(),
    {
        let ghost k = (pair.quantity_asset@, pair.notional_asset@);
        let n = self.entries.len();
        let mut i: usize = 0;
        while i < n
            invariant
                0 <= i <= n,
                n == self.entries@.len(),
                self.wf(),
                k == (pair.quantity_asset@, pair.notional_asset@),
                find_price_from(self.entries@, k, 0) == find_price_from(self.entries@, k, i as int),
            decreases n - i,
        {
            if self.entries[i].0 == *pair {
                return Some(self.entries[i].1);
            }
            i = i + 1;
        }
        None
    }

    /// Stores `value` for `pair`, replacing any previous price.
    pub fn set(&mut self, pair: AssetPair, value: Rational)
        requires
            old(self).wf(),
            value.wf(),
        ensures
            final(self).wf(),
            final(self).lookup((pair.quantity_asset@, pair.notional_asset@)) == Some(value),
            forall|k: (Seq<char>, Seq<char>)|
                k != (pair.quantity_asset@, pair.notional_asset@) ==> #[trigger] final(self).lookup(
                    k,
                ) == old(self).lookup(k),
    {
        let ghost kc = (pair.quantity_asset@, pair.notional_asset@);
        let n = self.entries.len();
        let mut i: usize = 0;
        while i < n
            invariant
                0 <= i <= n,
                n == self.entries@.len(),
                self.wf(),
                value.wf(),
                *self == *old(self),
                kc == (pair.quantity_asset@, pair.notional_asset@),
                forall|j: int|
                    0 <= j < i ==> ((#[trigger] self.entries@[j]).0.quantity_asset@,
                    self.entries@[j].0.notional_asset@) != kc,
            decreases n - i,
        {
            if self.entries[i].0 == pair {
                self.entries[i] = (pair, value);
                proof {
                    lemma_price_find_prefix_skip(self.entries@, kc, 0, i as int);
                    assert forall|k: (Seq<char>, Seq<char>)| k != kc implies #[trigger] find_price_from(
                        self.entries@,
                        k,
                        0,
                    ) == find_price_from(old(self).entries@, k, 0) by {
                        lemma_price_find_other_keys(old(self).entries@, self.entries@, kc, k, 0);
                    }
                }
                return ;
            }
            i = i + 1;
        }
        self.entries.push((pair, value));
        proof {
            lemma_price_find_prefix_skip(self.entries@, kc, 0, n as int);
            assert forall|k: (Seq<char>, Seq<char>)| k != kc implies #[trigger] find_price_from(
                self.entries@,
                k,
                0,
            ) == find_price_from(old(self).entries@, k, 0) by {
                lemma_price_find_push_other(old(self).entries@, self.entries@, k, 0);
            }
        }
    }

    /// A copy that holds the same prices.
    pub fn duplicate(&self) -> (r: PriceTable)
        requires
            self.wf(),
        ensures
            r.wf(),
            forall|k: (Seq<char>, Seq<char>)| #[trigger] r.lookup(k) == self.lookup(k),
    {
        let n = self.entries.len();
        let mut entries: Vec<(AssetPair, Rational)> = Vec::new();
        let mut i: usize = 0;
        while i < n
            invariant
                0 <= i <= n,
                n == self.entries@.len(),
                entries@.len() == i,
                forall|j: int| 0 <= j < i ==> entries@[j] == self.entries@[j],
            decreases n - i,
        {
            let pair = self.entries[i].0.duplicate();
            entries.push((pair, self.entries[i].1));
            i = i + 1;
        }
        let r = PriceTable { entries };
        proof {
            assert(r.entries@ =~= self.entries@);
        }
        r
    }
}

proof fn lemma_price_find_prefix_skip(
    s: Seq<(AssetPair, Rational)>,
    k: (Seq<char>, Seq<char>),
    from: int,
    m: int,
)
    requires
        0 <= from <= m < s.len(),
        (s[m].0.quantity_asset@, s[m].0.notional_asset@) == k,
        forall|j: int|
            0 <= j < m ==> ((#[trigger] s[j]).0.quantity_asset@, s[j].0.notional_asset@) != k,
    ensures
        find_price_from(s, k, from) == Some(s[m].1),
    decreases m - from,
{
    if from < m {
        lemma_price_find_prefix_skip(s, k, from + 1, m);
    }
}

proof fn lemma_price_find_other_keys(
    s0: Seq<(AssetPair, Rational)>,
    s1: Seq<(AssetPair, Rational)>,
    kc: (Seq<char>, Seq<char>),
    k2: (Seq<char>, Seq<char>),
    i: int,
)
    requires
        s1.len() == s0.len(),
        forall|j: int|
            0 <= j < s0.len() ==> ((#[trigger] s1[j]).0.quantity_asset@, s1[j].0.notional_asset@)
                == ((#[trigger] s0[j]).0.quantity_asset@, s0[j].0.notional_asset@) && ((
            s0[j].0.quantity_asset@,
            s0[j].0.notional_asset@,
            ) != kc ==> s1[j] == s0[j]),
        k2 != kc,
        0 <= i,
    ensures
        find_price_from(s1, k2, i) == find_price_from(s0, k2, i),
    decreases s0.len() - i,
{
    if i < s0.len() {
        lemma_price_find_other_keys(s0, s1, kc, k2, i + 1);
    }
}

proof fn lemma_price_find_push_other(
    s0: Seq<(AssetPair, Rational)>,
    s1: Seq<(AssetPair, Rational)>,
    k2: (Seq<char>, Seq<char>),
    i: int,
)
    requires
        s1.len() == s0.len() + 1,
        forall|j: int| 0 <= j < s0.len() ==> #[trigger] s1[j] == s0[j],
        (s1[s0.len() as int].0.quantity_asset@, s1[s0.len() as int].0.notional_asset@) != k2,
        0 <= i,
    ensures
        find_price_from(s1, k2, i) == find_price_from(s0, k2, i),
    decreases s1.len() - i,
{
    if i < s1.len() {
        if i < s0.len() {
            lemma_price_find_push_other(s0, s1, k2, i + 1);
        } else {
            assert(find_price_from(s1, k2, i + 1) is None);
        }
    }
}

} // verus!
