use vstd::prelude::*;
use std::collections::HashMap;

verus! {

broadcast use vstd::std_specs::hash::group_hash_axioms;

/// A price level and how often the series touched it.
#[derive(Clone, Copy, Debug)]
pub struct SupportResistanceLevel {
    price: i32,
    occurrences: usize,
}

/// A price series whose recurring levels are sought.
pub struct SupportResistance {
    prices: Vec<i32>,
}

/// How often `v` occurs among the first `n` prices.
pub open spec fn occurrences_of(s: Seq<i32>, v: i32, n: int) -> int
    decreases n,
{
    if n <= 0 {
        0
    } else {
        occurrences_of(s, v, n - 1) + if s[n - 1] == v {
            1int
        } else {
            0int
        }
    }
}

/// Whether the price at `i` occurs there for the first time.
pub open spec fn is_first(s: Seq<i32>, i: int) -> bool {
    forall|j: int| 0 <= j < i ==> s[j] != s[i]
}

/// The levels found among the first `n` prices: every distinct price that the
/// whole series holds at least `threshold` times, with that count, in the
/// order in which the prices first occur.
pub open spec fn frequent_levels(s: Seq<i32>, threshold: int, n: int) -> Seq<(i32, int)>
    decreases n,
{
    if n <= 0 {
        Seq::empty()
    } else {
        let rest = frequent_levels(s, threshold, n - 1);
        let v = s[n - 1];
        let count = occurrences_of(s, v, s.len() as int);
        if is_first(s, n - 1) && count >= threshold {
            rest.push((v, count))
        } else {
            rest
        }
    }
}

/// A price occurs no more often than there are prices, and at least once
/// where it is one of them.
pub proof fn lemma_occurrences_bounds(s: Seq<i32>, v: i32, n: int)
    requires
        0 <= n <= s.len(),
    ensures
        0 <= occurrences_of(s, v, n) <= n,
        (exists|j: int| 0 <= j < n && s[j] == v) <==> occurrences_of(s, v, n) > 0,
    decreases n,
{
    if n > 0 {
        lemma_occurrences_bounds(s, v, n - 1);
        if s[n - 1] == v {
            assert(0 <= n - 1 < n && s[n - 1] == v);
        } else if occurrences_of(s, v, n) > 0 {
            let j = choose|j: int| 0 <= j < n - 1 && s[j] == v;
            assert(0 <= j < n && s[j] == v);
        }
    }
}

impl View for SupportResistanceLevel {
    type V = (i32, int);

    closed spec fn view(&self) -> (i32, int) {
        (self.price, self.occurrences as int)
    }
}

impl SupportResistanceLevel {
    /// The price of the level.
    pub fn price(&self) -> (r: i32)
        ensures
            r == self@.0,
    {
        self.price
    }

    /// How often the series holds the price.
    pub fn occurrences(&self) -> (r: usize)
        ensures
            r == self@.1,
    {
        self.occurrences
    }
}

impl View for SupportResistance {
    type V = Seq<i32>;

    closed spec fn view(&self) -> Seq<i32> {
        self.prices@
    }
}

impl SupportResistance {
    /// Takes the prices to search.
    pub fn new(prices: Vec<i32>) -> (r: Self)
        ensures
            r@ == prices@,
    {
        SupportResistance { prices }
    }

    /// The levels that the series holds at least `threshold` times, see
    /// [`frequent_levels`].
    pub fn calculate(&self, threshold: usize) -> (out: Vec<SupportResistanceLevel>)
        ensures
            out@.len() == frequent_levels(self@, threshold as int, self@.len() as int).len(),
            forall|k: int|
                0 <= k < out@.len() ==> (#[trigger] out@[k])@ == frequent_levels(
                    self@,
                    threshold as int,
                    self@.len() as int,
                )[k],
    {
        let n: usize = self.prices.len();
        let ghost s = self.prices@;
        let mut counts: HashMap<i32, usize> = HashMap::new();
        let mut i: usize = 0;
        while i < n
            invariant
                i <= n,
                n == s.len(),
                s == self.prices@,
                forall|v: i32| counts@.contains_key(v) <==> occurrences_of(s, v, i as int) > 0,
                forall|v: i32| counts@.contains_key(v) ==> counts@[v] == occurrences_of(s, v, i as int),
            decreases n - i,
        {
            let price: i32 = self.prices[i];
            proof {
                lemma_occurrences_bounds(s, price, i as int);
            }
            let seen: usize = match counts.get(&price) {
                Some(c) => *c,
                None => 0,
            };
            counts.insert(price, seen + 1);
            i = i + 1;
        }
        let mut out: Vec<SupportResistanceLevel> = Vec::new();
        let mut done: HashMap<i32, bool> = HashMap::new();
        let mut k: usize = 0;
        while k < n
            invariant
                k <= n,
                n == s.len(),
                s == self.prices@,
                s == self@,
                forall|v: i32| counts@.contains_key(v) <==> occurrences_of(s, v, n as int) > 0,
                forall|v: i32| counts@.contains_key(v) ==> counts@[v] == occurrences_of(s, v, n as int),
                forall|v: i32| done@.contains_key(v) <==> exists|j: int| 0 <= j < k && s[j] == v,
                out@.len() == frequent_levels(s, threshold as int, k as int).len(),
                forall|m: int|
                    0 <= m < out@.len() ==> (#[trigger] out@[m])@ == frequent_levels(
                        s,
                        threshold as int,
                        k as int,
                    )[m],
            decreases n - k,
        {
            let price: i32 = self.prices[k];
            let first: bool = !done.contains_key(&price);
            proof {
                lemma_occurrences_bounds(s, price, n as int);
                assert(0 <= k < n && s[k as int] == price);
                if first {
                    assert forall|j: int| 0 <= j < k implies s[j] != s[k as int] by {
                        if s[j] == s[k as int] {
                            assert(0 <= j < k && s[j] == price);
                        }
                    }
                } else {
                    let j = choose|j: int| 0 <= j < k && s[j] == price;
                    assert(s[j] == s[k as int]);
                }
                assert(first == is_first(s, k as int));
            }
            if first {
                let count: usize = match counts.get(&price) {
                    Some(c) => *c,
                    None => 0,
                };
                if count >= threshold {
                    out.push(SupportResistanceLevel { price, occurrences: count });
                }
                done.insert(price, true);
                proof {
                    assert forall|v: i32| done@.contains_key(v) <==> exists|j: int|
                        0 <= j < k + 1 && s[j] == v by {
                        if done@.contains_key(v) {
                            if v == price {
                                assert(0 <= k < k + 1 && s[k as int] == v);
                            } else {
                                let j = choose|j: int| 0 <= j < k && s[j] == v;
                                assert(0 <= j < k + 1 && s[j] == v);
                            }
                        }
                        if exists|j: int| 0 <= j < k + 1 && s[j] == v {
                            let j = choose|j: int| 0 <= j < k + 1 && s[j] == v;
                            if j < k {
                                assert(0 <= j < k && s[j] == v);
                            }
                        }
                    }
                }
            } else {
                proof {
                    assert forall|v: i32| done@.contains_key(v) <==> exists|j: int|
                        0 <= j < k + 1 && s[j] == v by {
                        if done@.contains_key(v) {
                            let j = choose|j: int| 0 <= j < k && s[j] == v;
                            assert(0 <= j < k + 1 && s[j] == v);
                        }
                        if exists|j: int| 0 <= j < k + 1 && s[j] == v {
                            let j = choose|j: int| 0 <= j < k + 1 && s[j] == v;
                            if j < k {
                                assert(0 <= j < k && s[j] == v);
                            } else {
                                assert(v == price);
                            }
                        }
                    }
                }
            }
            k = k + 1;
        }
        out
    }
}

} // verus!
