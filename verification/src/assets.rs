//! Asset pairs: the traded asset and the asset it settles in.

use vstd::prelude::*;
use vstd::string::{StrSliceExecFns, StringExecFns};

verus! {

/// A pair of assets, written `"QUANTITY/NOTIONAL"`: `quantity_asset` is
/// the traded (base) asset and `notional_asset` the settlement (quote)
/// asset, so `GBP/USD` trades GBP priced in USD.
#[derive(Clone, Debug)]
pub struct AssetPair {
    pub quantity_asset: String,
    pub notional_asset: String,
}

/// The first position of `'/'` in `s` at or after `i`, or `-1`.
pub open spec fn first_slash_from(s: Seq<char>, i: int) -> int
    decreases s.len() - i,
{
    if i < 0 || i >= s.len() {
        -1
    } else if s[i] == '/' {
        i
    } else {
        first_slash_from(s, i + 1)
    }
}

/// The string form of a pair with the given legs.
pub open spec fn spec_pair_string(quantity: Seq<char>, notional: Seq<char>) -> Seq<char> {
    quantity + "/"@ + notional
}

impl AssetPair {
    pub open spec fn view_pair(&self) -> (Seq<char>, Seq<char>) {
        (self.quantity_asset@, self.notional_asset@)
    }

    /// Parses `"QUANTITY/NOTIONAL"`, splitting at the first `'/'`.
    /// `None` exactly when the string has no `'/'` at all.
    pub fn from_str(s: &str) -> (r: Option<AssetPair>)
        ensures
            r is Some <==> first_slash_from(s@, 0) >= 0,
            r matches Some(p) ==> {
                let i = first_slash_from(s@, 0);
                &&& p.quantity_asset@ == s@.subrange(0, i)
                &&& p.notional_asset@ == s@.subrange(i + 1, s@.len() as int)
            },
    {
        let n = s.unicode_len();
        let mut i: usize = 0;
        while i < n
            invariant
                0 <= i <= n,
                n == s@.len(),
                first_slash_from(s@, 0) == first_slash_from(s@, i as int),
                forall|j: int| 0 <= j < i ==> s@[j] != '/',
            decreases n - i,
        {
            let c = s.get_char(i);
            if c == '/' {
                let quantity = s.substring_char(0, i);
                let notional = s.substring_char(i + 1, n);
                return Some(
                    AssetPair {
                        quantity_asset: quantity.to_owned(),
                        notional_asset: notional.to_owned(),
                    },
                );
            }
            i = i + 1;
        }
        None
    }

    /// A copy that is equal to the original, field for field.
    pub fn duplicate(&self) -> (r: AssetPair)
        ensures
            r == *self,
    {
        AssetPair {
            quantity_asset: self.quantity_asset.clone(),
            notional_asset: self.notional_asset.clone(),
        }
    }

    /// The `"QUANTITY/NOTIONAL"` string form of the pair.
    pub fn to_string(&self) -> (r: String)
        ensures
            r@ == spec_pair_string(self.quantity_asset@, self.notional_asset@),
    {
        let mut s = self.quantity_asset.clone();
        s.append("/");
        s.append(self.notional_asset.as_str());
        s
    }
}

impl PartialEq for AssetPair {
    fn eq(&self, other: &Self) -> (r: bool) {
        self.quantity_asset == other.quantity_asset && self.notional_asset == other.notional_asset
    }
}

impl vstd::std_specs::cmp::PartialEqSpecImpl for AssetPair {
    open spec fn obeys_eq_spec() -> bool {
        true
    }

    open spec fn eq_spec(&self, other: &Self) -> bool {
        self.quantity_asset@ == other.quantity_asset@ && self.notional_asset@
            == other.notional_asset@
    }
}

/// The position that `first_slash_from` reports really holds a slash,
/// and nothing before it does.
proof fn lemma_first_slash_found(s: Seq<char>, i: int)
    requires
        0 <= i <= s.len(),
        first_slash_from(s, i) >= 0,
    ensures
        i <= first_slash_from(s, i) < s.len(),
        s[first_slash_from(s, i)] == '/',
    decreases s.len() - i,
{
    if i < s.len() && s[i] != '/' {
        lemma_first_slash_found(s, i + 1);
    }
}

/// Printing a parsed well-formed pair string gives the string back:
/// splitting at the first slash and rejoining with `'/'` is the
/// identity on every string that contains a slash.
pub proof fn lemma_pair_round_trip(s: Seq<char>)
    requires
        first_slash_from(s, 0) >= 0,
    ensures
        spec_pair_string(
            s.subrange(0, first_slash_from(s, 0)),
            s.subrange(first_slash_from(s, 0) + 1, s.len() as int),
        ) == s,
{
    let i = first_slash_from(s, 0);
    lemma_first_slash_found(s, 0);
    reveal_strlit("/");
    assert(spec_pair_string(s.subrange(0, i), s.subrange(i + 1, s.len() as int)) =~= s);
}

} // verus!
