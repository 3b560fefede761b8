//! A per-asset table of exact rational values with a default of zero.
//!
//! Backs both the settled balances and the buying-power reservations of
//! the simulated broker.  Lookups default to zero for unseen assets and
//! additive updates create the entry on first write.

use vstd::prelude::*;
use vstd::string::StringExecFns;

use crate::rational::{rat_add, rat_eq, rat_fits, rat_int, rat_norm, Rat, Rational};

verus! {

/// First value stored under key `k` at or after position `i`.
pub open spec fn find_from(s: Seq<(String, Rational)>, k: Seq<char>, i: int) -> Option<Rational>
    decreases s.len() - i,
{
    if i < 0 || i >= s.len() {
        None
    } else if s[i].0@ == k {
        Some(s[i].1)
    } else {
        find_from(s, k, i + 1)
    }
}

/// Maps each asset to a signed exact value, zero when absent.
#[derive(Debug)]
pub struct Ledger {
    entries: Vec<(String, Rational)>,
}

impl Ledger {
    /// Every stored value is well-formed and every key occurs once.
    pub closed spec fn wf(&self) -> bool {
        &&& forall|i: int|
            0 <= i < self.entries@.len() ==> (#[trigger] self.entries@[i]).1.wf()
        &&& forall|i: int, j: int|
            0 <= i < j < self.entries@.len() ==> (#[trigger] self.entries@[i]).0@ != (
            #[trigger] self.entries@[j]).0@
    }

    /// The value held for `k`: the stored entry, or zero.
    pub closed spec fn val(&self, k: Seq<char>) -> Rat {
        match find_from(self.entries@, k, 0) {
            Some(v) => v@,
            None => rat_int(0),
        }
    }

    /// The stored table: each asset name with its value, in storage
    /// order, each name at most once.
    pub closed spec fn model(&self) -> Seq<(Seq<char>, Rat)> {
        self.entries@.map(|i: int, e: (String, Rational)| (e.0@, e.1@))
    }

    pub fn new() -> (r: Ledger)
        ensures
            r.wf(),
            forall|k: Seq<char>| #[trigger] r.val(k) == rat_int(0),
            r.model() == Seq::<(Seq<char>, Rat)>::empty(),
    {
        let r = Ledger { entries: Vec::new() };
        proof {
            assert(r.model() =~= Seq::<(Seq<char>, Rat)>::empty());
        }
        r
    }

    pub fn len(&self) -> (r: usize)
        ensures
            r == self.model().len(),
    {
        self.entries.len()
    }

    /// The entry at position `i` of the stored table.
    pub fn entry_at(&self, i: usize) -> (r: (String, Rational))
        requires
            self.wf(),
            i < self.model().len(),
        ensures
            (r.0@, r.1@) == self.model()[i as int],
            r.1.wf(),
    {
        (self.entries[i].0.clone(), self.entries[i].1)
    }

    /// Every entry of the table holds the value that `val` reports for
    /// its name.
    pub proof fn lemma_entry_val(&self, i: int)
        requires
            self.wf(),
            0 <= i < self.model().len(),
        ensures
            self.val(self.model()[i].0) == self.model()[i].1,
    {
        lemma_find_unique(self.entries@, self.model()[i].0, i, 0);
    }

    /// No asset name occurs twice in the table.
    pub proof fn lemma_model_keys_unique(&self)
        requires
            self.wf(),
        ensures
            forall|i: int, j: int|
                0 <= i < j < self.model().len() ==> (#[trigger] self.model()[i]).0 != (
                #[trigger] self.model()[j]).0,
    {
        assert forall|i: int, j: int| 0 <= i < j < self.model().len() implies (
        #[trigger] self.model()[i]).0 != (#[trigger] self.model()[j]).0 by {
            assert(self.model()[i].0 == self.entries@[i].0@);
            assert(self.model()[j].0 == self.entries@[j].0@);
        }
    }

    /// A key whose value is not the default zero sits in the table,
    /// with that value.
    pub proof fn lemma_val_in_model(&self, k: Seq<char>)
        requires
            self.wf(),
            self.val(k).n != 0,
        ensures
            exists|m: int|
                0 <= m < self.model().len() && (#[trigger] self.model()[m]).0 == k
                    && self.model()[m].1 == self.val(k),
    {
        lemma_find_some_exists(self.entries@, k, 0);
        let m = choose|m: int|
            0 <= m < self.entries@.len() && (#[trigger] self.entries@[m]).0@ == k && Some(
                self.entries@[m].1,
            ) == find_from(self.entries@, k, 0);
        assert(self.model()[m].0 == k && self.model()[m].1 == self.val(k));
    }

    /// The stored value, or zero for an unseen asset.
    pub fn get(&self, asset: &str) -> (r: Rational)
        requires
            self.wf(),
        ensures
            r.wf(),
            r@ == self.val(asset@),
    {
        let needle = String::from_str(asset);
        let n = self.entries.len();
        let mut i: usize = 0;
        while i < n
            invariant
                0 <= i <= n,
                n == self.entries@.len(),
                needle@ == asset@,
                self.wf(),
                find_from(self.entries@, asset@, 0) == find_from(self.entries@, asset@, i as int),
            decreases n - i,
        {
            if self.entries[i].0 == needle {
                return self.entries[i].1;
            }
            i = i + 1;
        }
        Rational::zero()
    }

    /// Stores `value` for `asset`, replacing any previous value.
    pub fn set(&mut self, asset: &str, value: Rational)
        requires
            old(self).wf(),
            value.wf(),
        ensures
            final(self).wf(),
            final(self).val(asset@) == value@,
            forall|k: Seq<char>|
                k != asset@ ==> #[trigger] final(self).val(k) == old(self).val(k),
    {
        let needle = String::from_str(asset);
        let n = self.entries.len();
        let mut i: usize = 0;
        while i < n
            invariant
                0 <= i <= n,
                n == self.entries@.len(),
                needle@ == asset@,
                self.wf(),
                value.wf(),
                *self == *old(self),
                forall|j: int| 0 <= j < i ==> (#[trigger] self.entries@[j]).0@ != asset@,
            decreases n - i,
        {
            if self.entries[i].0 == needle {
                let key = self.entries[i].0.clone();
                self.entries[i] = (key, value);
                proof {
                    lemma_find_update(old(self).entries@, self.entries@, i as int, asset@);
                }
                return ;
            }
            i = i + 1;
        }
        self.entries.push((needle, value));
        proof {
            lemma_find_push(old(self).entries@, self.entries@, asset@);
        }
    }

    /// Adds `delta` to the value held for `asset`, creating the entry
    /// on first write.  Reports `false`, changing nothing, exactly
    /// when the sum does not fit.
    pub fn checked_update(&mut self, asset: &str, delta: Rational) -> (ok: bool)
        requires
            old(self).wf(),
            delta.wf(),
        ensures
            final(self).wf(),
            ok <==> rat_fits(rat_add(old(self).val(asset@), delta@)),
            ok ==> rat_eq(final(self).val(asset@), rat_add(old(self).val(asset@), delta@)),
            ok ==> final(self).val(asset@) == rat_norm(rat_add(old(self).val(asset@), delta@)),
            ok ==> forall|k: Seq<char>|
                k != asset@ ==> #[trigger] final(self).val(k) == old(self).val(k),
            !ok ==> *final(self) == *old(self),
    {
        let previous = self.get(asset);
        match previous.checked_add(&delta) {
            Some(sum) => {
                self.set(asset, sum);
                true
            },
            None => false,
        }
    }

    /// A copy that holds the same table.
    pub fn duplicate(&self) -> (r: Ledger)
        requires
            self.wf(),
        ensures
            r.wf(),
            forall|k: Seq<char>| #[trigger] r.val(k) == self.val(k),
            r.model() == self.model(),
    {
        let n = self.entries.len();
        let mut entries: Vec<(String, Rational)> = Vec::new();
        let mut i: usize = 0;
        while i < n
            invariant
                0 <= i <= n,
                n == self.entries@.len(),
                entries@.len() == i,
                forall|j: int| 0 <= j < i ==> entries@[j] == self.entries@[j],
            decreases n - i,
        {
            let key = self.entries[i].0.clone();
            entries.push((key, self.entries[i].1));
            i = i + 1;
        }
        let r = Ledger { entries };
        proof {
            assert(r.entries@ =~= self.entries@);
            assert(r.model() =~= self.model());
        }
        r
    }
}

/// A successful lookup comes from some stored entry.
proof fn lemma_find_some_exists(s: Seq<(String, Rational)>, k: Seq<char>, i: int)
    requires
        0 <= i,
        find_from(s, k, i) is Some,
    ensures
        exists|m: int|
            i <= m < s.len() && (#[trigger] s[m]).0@ == k && Some(s[m].1) == find_from(s, k, i),
    decreases s.len() - i,
{
    if i < s.len() && s[i].0@ != k {
        lemma_find_some_exists(s, k, i + 1);
    }
}

/// With unique keys, the first match for the key of entry `i` is entry
/// `i` itself.
proof fn lemma_find_unique(s: Seq<(String, Rational)>, k: Seq<char>, i: int, from: int)
    requires
        0 <= from <= i < s.len(),
        s[i].0@ == k,
        forall|a: int, b: int|
            0 <= a < b < s.len() ==> (#[trigger] s[a]).0@ != (#[trigger] s[b]).0@,
    ensures
        find_from(s, k, from) == Some(s[i].1),
    decreases i - from,
{
    if from < i {
        assert(s[from].0@ != s[i].0@);
        lemma_find_unique(s, k, i, from + 1);
    }
}

/// Replacing the value at the first match of `k` moves `val(k)` to the
/// new value and nothing else.
proof fn lemma_find_update(s0: Seq<(String, Rational)>, s1: Seq<(String, Rational)>, m: int, k: Seq<
    char,
>)
    requires
        0 <= m < s0.len(),
        s1.len() == s0.len(),
        s0[m].0@ == k,
        s1[m].0@ == k,
        forall|j: int| 0 <= j < s0.len() && j != m ==> s1[j] == s0[j],
        forall|j: int| 0 <= j < m ==> (#[trigger] s0[j]).0@ != k,
    ensures
        find_from(s1, k, 0) == Some(s1[m].1),
        forall|k2: Seq<char>, i: int|
            k2 != k && 0 <= i ==> #[trigger] find_from(s1, k2, i) == find_from(s0, k2, i),
{
    lemma_find_prefix_skip(s1, k, 0, m);
    assert forall|k2: Seq<char>, i: int| k2 != k && 0 <= i implies #[trigger] find_from(s1, k2, i)
        == find_from(s0, k2, i) by {
        lemma_find_other_keys(s0, s1, k, k2, i);
    }
}

/// A walk over entries whose keys differ from `k` reaches the match.
proof fn lemma_find_prefix_skip(s: Seq<(String, Rational)>, k: Seq<char>, from: int, m: int)
    requires
        0 <= from <= m < s.len(),
        s[m].0@ == k,
        forall|j: int| 0 <= j < m ==> (#[trigger] s[j]).0@ != k,
    ensures
        find_from(s, k, from) == Some(s[m].1),
    decreases m - from,
{
    if from < m {
        lemma_find_prefix_skip(s, k, from + 1, m);
    }
}

/// Lookups for `k2` agree on two tables that differ only in the value
/// stored under another key `kc`.
proof fn lemma_find_other_keys(s0: Seq<(String, Rational)>, s1: Seq<(String, Rational)>, kc: Seq<
    char,
>, k2: Seq<char>, i: int)
    requires
        s1.len() == s0.len(),
        forall|j: int|
            0 <= j < s0.len() ==> (#[trigger] s1[j]).0@ == s0[j].0@ && (s0[j].0@ != kc ==> s1[j]
                == s0[j]),
        k2 != kc,
        0 <= i,
    ensures
        find_from(s1, k2, i) == find_from(s0, k2, i),
    decreases s0.len() - i,
{
    if i < s0.len() {
        lemma_find_other_keys(s0, s1, kc, k2, i + 1);
    }
}

/// Appending a new key: its lookup finds the appended value, every
/// other lookup is unchanged.
proof fn lemma_find_push(s0: Seq<(String, Rational)>, s1: Seq<(String, Rational)>, k: Seq<char>)
    requires
        s1.len() == s0.len() + 1,
        forall|j: int| 0 <= j < s0.len() ==> #[trigger] s1[j] == s0[j],
        s1[s0.len() as int].0@ == k,
        forall|j: int| 0 <= j < s0.len() ==> (#[trigger] s0[j]).0@ != k,
    ensures
        find_from(s1, k, 0) == Some(s1[s0.len() as int].1),
        forall|k2: Seq<char>, i: int|
            k2 != k && 0 <= i ==> #[trigger] find_from(s1, k2, i) == find_from(s0, k2, i),
{
    lemma_find_prefix_skip(s1, k, 0, s0.len() as int);
    assert forall|k2: Seq<char>, i: int| k2 != k && 0 <= i implies #[trigger] find_from(s1, k2, i)
        == find_from(s0, k2, i) by {
        lemma_find_push_other(s0, s1, k2, i);
    }
}

proof fn lemma_find_push_other(s0: Seq<(String, Rational)>, s1: Seq<(String, Rational)>, k2: Seq<
    char,
>, i: int)
    requires
        s1.len() == s0.len() + 1,
        forall|j: int| 0 <= j < s0.len() ==> #[trigger] s1[j] == s0[j],
        s1[s0.len() as int].0@ != k2,
        0 <= i,
    ensures
        find_from(s1, k2, i) == find_from(s0, k2, i),
    decreases s1.len() - i,
{
    if i < s1.len() {
        if i < s0.len() {
            lemma_find_push_other(s0, s1, k2, i + 1);
        }
    }
}

} // verus!
