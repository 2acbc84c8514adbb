//! One side of an order book: a price ladder.
//!
//! A ladder is a vector of `(price, quantity)` pairs kept strictly
//! ascending by price, every quantity strictly positive. Its mathematical
//! reading is the function `spec_level_qty`, giving the aggregate quantity
//! resting at each price (0 where no level exists); every mutating
//! operation here is specified pointwise over that function.

use vstd::prelude::*;

verus! {

/// Saturating addition on mathematical integers, capped at `u32::MAX`.
pub open spec fn spec_sat_add(a: int, b: int) -> int {
    if a + b > u32::MAX {
        u32::MAX as int
    } else {
        a + b
    }
}

/// Saturating subtraction on mathematical integers, floored at 0.
pub open spec fn spec_sat_sub(a: int, b: int) -> int {
    if a - b < 0 {
        0
    } else {
        a - b
    }
}

/// Prices strictly ascending.
pub open spec fn spec_levels_sorted(s: Seq<(u64, u32)>) -> bool {
    forall|i: int, j: int|
        0 <= i < j < s.len() ==> (#[trigger] s[i]).0 < (#[trigger] s[j]).0
}

/// Every stored quantity strictly positive.
pub open spec fn spec_levels_positive(s: Seq<(u64, u32)>) -> bool {
    forall|i: int| 0 <= i < s.len() ==> (#[trigger] s[i]).1 > 0
}

/// A well-formed ladder: strictly ascending prices, positive quantities.
pub open spec fn spec_levels_wf(s: Seq<(u64, u32)>) -> bool {
    spec_levels_sorted(s) && spec_levels_positive(s)
}

/// Some entry carries price `p`.
pub open spec fn spec_has_price(s: Seq<(u64, u32)>, p: u64) -> bool {
    exists|i: int| 0 <= i < s.len() && (#[trigger] s[i]).0 == p
}

/// Aggregate quantity at price `p`: the sum of the quantities of all
/// entries carrying that price (in a well-formed ladder, the single
/// entry's quantity, or 0 where there is none).
pub open spec fn spec_level_qty(s: Seq<(u64, u32)>, p: u64) -> int
    decreases s.len(),
{
    if s.len() == 0 {
        0
    } else {
        (if s[0].0 == p {
            s[0].1 as int
        } else {
            0
        }) + spec_level_qty(s.drop_first(), p)
    }
}

/// Quantity sums split over concatenation.
pub proof fn lemma_level_qty_split(a: Seq<(u64, u32)>, b: Seq<(u64, u32)>, p: u64)
    ensures
        spec_level_qty(a + b, p) == spec_level_qty(a, p) + spec_level_qty(b, p),
    decreases a.len(),
{
    if a.len() == 0 {
        assert(a + b =~= b);
    } else {
        assert((a + b).drop_first() =~= a.drop_first() + b);
        lemma_level_qty_split(a.drop_first(), b, p);
    }
}

/// A ladder with no entry at `p` holds quantity 0 there.
pub proof fn lemma_level_qty_absent(s: Seq<(u64, u32)>, p: u64)
    requires
        forall|i: int| 0 <= i < s.len() ==> (#[trigger] s[i]).0 != p,
    ensures
        spec_level_qty(s, p) == 0,
    decreases s.len(),
{
    if s.len() > 0 {
        lemma_level_qty_absent(s.drop_first(), p);
    }
}

/// Quantity sums are never negative.
pub proof fn lemma_level_qty_nonneg(s: Seq<(u64, u32)>, p: u64)
    ensures
        spec_level_qty(s, p) >= 0,
    decreases s.len(),
{
    if s.len() > 0 {
        lemma_level_qty_nonneg(s.drop_first(), p);
    }
}

/// The quantity at any price splits around an index: the part before it,
/// the entry itself, and the part after it.
pub proof fn lemma_level_qty_decompose(s: Seq<(u64, u32)>, i: int, p: u64)
    requires
        0 <= i < s.len(),
    ensures
        spec_level_qty(s, p) == spec_level_qty(s.subrange(0, i), p) + (if s[i].0 == p {
            s[i].1 as int
        } else {
            0
        }) + spec_level_qty(s.subrange(i + 1, s.len() as int), p),
{
    let pre = s.subrange(0, i);
    let mid = seq![s[i]];
    let post = s.subrange(i + 1, s.len() as int);
    assert(s =~= pre + mid + post);
    lemma_level_qty_split(pre + mid, post, p);
    lemma_level_qty_split(pre, mid, p);
    assert(spec_level_qty(mid.drop_first(), p) == 0);
    assert(spec_level_qty(mid, p) == (if s[i].0 == p {
        s[i].1 as int
    } else {
        0
    }));
}

/// In a sorted ladder, the entry at index `i` carries the whole quantity
/// at its price.
pub proof fn lemma_level_qty_at(s: Seq<(u64, u32)>, i: int)
    requires
        spec_levels_sorted(s),
        0 <= i < s.len(),
    ensures
        spec_level_qty(s, s[i].0) == s[i].1,
{
    lemma_level_qty_decompose(s, i, s[i].0);
    lemma_level_qty_absent(s.subrange(0, i), s[i].0);
    lemma_level_qty_absent(s.subrange(i + 1, s.len() as int), s[i].0);
}

/// In a well-formed ladder the quantity at a price is in `0..=u32::MAX`,
/// and is nonzero exactly where an entry exists.
pub proof fn lemma_level_qty_bounds(s: Seq<(u64, u32)>, p: u64)
    requires
        spec_levels_wf(s),
    ensures
        0 <= spec_level_qty(s, p) <= u32::MAX,
        spec_level_qty(s, p) > 0 <==> spec_has_price(s, p),
{
    if spec_has_price(s, p) {
        let i = choose|i: int| 0 <= i < s.len() && (#[trigger] s[i]).0 == p;
        lemma_level_qty_at(s, i);
    } else {
        assert(forall|i: int| 0 <= i < s.len() ==> (#[trigger] s[i]).0 != p);
        lemma_level_qty_absent(s, p);
    }
}

/// Replacing the quantity of entry `i` changes the quantity at that
/// entry's price alone.
pub proof fn lemma_level_qty_update(s: Seq<(u64, u32)>, i: int, v: u32)
    requires
        spec_levels_sorted(s),
        0 <= i < s.len(),
    ensures
        spec_levels_sorted(s.update(i, (s[i].0, v))),
        forall|x: u64|
            #[trigger] spec_level_qty(s.update(i, (s[i].0, v)), x) == (if x == s[i].0 {
                v as int
            } else {
                spec_level_qty(s, x)
            }),
{
    let t = s.update(i, (s[i].0, v));
    assert(forall|k: int| 0 <= k < s.len() ==> (#[trigger] t[k]).0 == s[k].0);
    assert forall|x: u64|
        #[trigger] spec_level_qty(t, x) == (if x == s[i].0 {
            v as int
        } else {
            spec_level_qty(s, x)
        }) by {
        lemma_level_qty_decompose(s, i, x);
        lemma_level_qty_decompose(t, i, x);
        assert(t.subrange(0, i) =~= s.subrange(0, i));
        assert(t.subrange(i + 1, t.len() as int) =~= s.subrange(i + 1, s.len() as int));
        if x == s[i].0 {
            lemma_level_qty_absent(s.subrange(0, i), x);
            lemma_level_qty_absent(s.subrange(i + 1, s.len() as int), x);
        }
    }
}

/// Inserting a fresh entry `(p, q)` at its sorted position changes the
/// quantity at `p` alone, and keeps the ladder sorted.
pub proof fn lemma_level_qty_insert(s: Seq<(u64, u32)>, i: int, p: u64, q: u32)
    requires
        spec_levels_sorted(s),
        0 <= i <= s.len(),
        forall|j: int| 0 <= j < i ==> (#[trigger] s[j]).0 < p,
        forall|j: int| i <= j < s.len() ==> (#[trigger] s[j]).0 > p,
    ensures
        spec_levels_sorted(s.insert(i, (p, q))),
        forall|x: u64|
            #[trigger] spec_level_qty(s.insert(i, (p, q)), x) == (if x == p {
                q as int
            } else {
                spec_level_qty(s, x)
            }),
{
    let t = s.insert(i, (p, q));
    assert forall|k: int, l: int| 0 <= k < l < t.len() implies (#[trigger] t[k]).0
        < (#[trigger] t[l]).0 by {
        if k < i && l > i {
            assert(s[k].0 < p && s[l - 1].0 > p);
        }
    }
    assert forall|x: u64|
        #[trigger] spec_level_qty(t, x) == (if x == p {
            q as int
        } else {
            spec_level_qty(s, x)
        }) by {
        lemma_level_qty_decompose(t, i, x);
        assert(t.subrange(0, i) =~= s.subrange(0, i));
        assert(t.subrange(i + 1, t.len() as int) =~= s.subrange(i, s.len() as int));
        assert(s =~= s.subrange(0, i) + s.subrange(i, s.len() as int));
        lemma_level_qty_split(s.subrange(0, i), s.subrange(i, s.len() as int), x);
        if x == p {
            lemma_level_qty_absent(s.subrange(0, i), x);
            lemma_level_qty_absent(s.subrange(i, s.len() as int), x);
        }
    }
}

/// Removing the entry at `i` zeroes the quantity at its price alone, and
/// keeps the ladder sorted.
pub proof fn lemma_level_qty_remove(s: Seq<(u64, u32)>, i: int)
    requires
        spec_levels_sorted(s),
        0 <= i < s.len(),
    ensures
        spec_levels_sorted(s.remove(i)),
        forall|x: u64|
            #[trigger] spec_level_qty(s.remove(i), x) == (if x == s[i].0 {
                0
            } else {
                spec_level_qty(s, x)
            }),
{
    let t = s.remove(i);
    assert forall|x: u64|
        #[trigger] spec_level_qty(t, x) == (if x == s[i].0 {
            0
        } else {
            spec_level_qty(s, x)
        }) by {
        lemma_level_qty_decompose(s, i, x);
        assert(t =~= s.subrange(0, i) + s.subrange(i + 1, s.len() as int));
        lemma_level_qty_split(s.subrange(0, i), s.subrange(i + 1, s.len() as int), x);
        if x == s[i].0 {
            lemma_level_qty_absent(s.subrange(0, i), x);
            lemma_level_qty_absent(s.subrange(i + 1, s.len() as int), x);
        }
    }
}

/// Position of the first entry whose price is `>= p`; `levels.len()` when
/// every price is smaller.
fn levels_position(levels: &Vec<(u64, u32)>, p: u64) -> (i: usize)
    requires
        spec_levels_sorted(levels@),
    ensures
        0 <= i <= levels@.len(),
        forall|j: int| 0 <= j < i ==> (#[trigger] levels@[j]).0 < p,
        forall|j: int| i <= j < levels@.len() ==> (#[trigger] levels@[j]).0 >= p,
{
    let n = levels.len();
    let mut i: usize = 0;
    while i < n && levels[i].0 < p
        invariant
            0 <= i <= n,
            n == levels@.len(),
            spec_levels_sorted(levels@),
            forall|j: int| 0 <= j < i ==> (#[trigger] levels@[j]).0 < p,
        decreases n - i,
    {
        i = i + 1;
    }
    i
}

/// A well-formed ladder is pinned by its quantity function: two ladders
/// holding the same quantity at every price are equal. The pointwise
/// contracts of the operations below therefore pin the ladder exactly.
pub proof fn lemma_levels_unique(s1: Seq<(u64, u32)>, s2: Seq<(u64, u32)>)
    requires
        spec_levels_wf(s1),
        spec_levels_wf(s2),
        forall|p: u64| #[trigger] spec_level_qty(s1, p) == spec_level_qty(s2, p),
    ensures
        s1 == s2,
    decreases s1.len(),
{
    if s1.len() == 0 && s2.len() == 0 {
        assert(s1 =~= s2);
    } else if s1.len() == 0 {
        lemma_level_qty_at(s2, 0);
        lemma_level_qty_bounds(s1, s2[0].0);
    } else if s2.len() == 0 {
        lemma_level_qty_at(s1, 0);
        lemma_level_qty_bounds(s2, s1[0].0);
    } else {
        lemma_level_qty_at(s1, 0);
        lemma_level_qty_at(s2, 0);
        assert(s1[0].0 == s2[0].0) by {
            if s1[0].0 < s2[0].0 {
                assert forall|j: int| 0 <= j < s2.len() implies (#[trigger] s2[j]).0
                    != s1[0].0 by {
                    assert(s2[0].0 <= s2[j].0);
                }
                lemma_level_qty_absent(s2, s1[0].0);
                assert(s1[0].1 > 0);
            } else if s1[0].0 > s2[0].0 {
                assert forall|j: int| 0 <= j < s1.len() implies (#[trigger] s1[j]).0
                    != s2[0].0 by {
                    assert(s1[0].0 <= s1[j].0);
                }
                lemma_level_qty_absent(s1, s2[0].0);
                assert(s2[0].1 > 0);
            }
        }
        assert(s1[0] == s2[0]);
        let head = s1[0].0;
        let t1 = s1.drop_first();
        let t2 = s2.drop_first();
        assert forall|i: int| 0 <= i < t1.len() implies #[trigger] t1[i] == s1[i + 1] by {}
        assert forall|i: int| 0 <= i < t2.len() implies #[trigger] t2[i] == s2[i + 1] by {}
        assert forall|i: int, j: int| 0 <= i < j < t1.len() implies (#[trigger] t1[i]).0 < (
        #[trigger] t1[j]).0 by {
            assert(s1[i + 1].0 < s1[j + 1].0);
        }
        assert forall|i: int, j: int| 0 <= i < j < t2.len() implies (#[trigger] t2[i]).0 < (
        #[trigger] t2[j]).0 by {
            assert(s2[i + 1].0 < s2[j + 1].0);
        }
        assert forall|i: int| 0 <= i < t1.len() implies (#[trigger] t1[i]).1 > 0 by {
            assert(s1[i + 1].1 > 0);
        }
        assert forall|i: int| 0 <= i < t2.len() implies (#[trigger] t2[i]).1 > 0 by {
            assert(s2[i + 1].1 > 0);
        }
        assert forall|p: u64| #[trigger] spec_level_qty(t1, p) == spec_level_qty(
            t2,
            p,
        ) by {
            assert(spec_level_qty(s1, p) == (if s1[0].0 == p {
                s1[0].1 as int
            } else {
                0
            }) + spec_level_qty(t1, p));
            assert(spec_level_qty(s2, p) == (if s2[0].0 == p {
                s2[0].1 as int
            } else {
                0
            }) + spec_level_qty(t2, p));
        }
        lemma_levels_unique(t1, t2);
        assert forall|k: int| 0 <= k < s1.len() implies s1[k] == s2[k] by {
            if k > 0 {
                assert(s1[k] == t1[k - 1]);
                assert(s2[k] == t2[k - 1]);
            }
        }
        assert(s1 =~= s2);
    }
}

/// Add `q` to the level at `p`, creating the level when missing;
/// the stored quantity saturates at `u32::MAX`.
pub fn levels_add(levels: &mut Vec<(u64, u32)>, p: u64, q: u32)
    requires
        spec_levels_wf(old(levels)@),
    ensures
        spec_levels_wf(final(levels)@),
        forall|x: u64|
            #[trigger] spec_level_qty(final(levels)@, x) == (if x == p {
                spec_sat_add(spec_level_qty(old(levels)@, x), q as int)
            } else {
                spec_level_qty(old(levels)@, x)
            }),
{
    let ghost s = levels@;
    let i = levels_position(levels, p);
    if i < levels.len() && levels[i].0 == p {
        let v = levels[i].1.saturating_add(q);
        proof {
            lemma_level_qty_at(s, i as int);
            lemma_level_qty_update(s, i as int, v);
        }
        levels.set(i, (p, v));
    } else if q > 0 {
        proof {
            lemma_level_qty_insert(s, i as int, p, q);
            lemma_level_qty_bounds(s, p);
            assert(forall|j: int|
                0 <= j < s.len() ==> (#[trigger] s[j]).0 != p);
            lemma_level_qty_absent(s, p);
        }
        levels.insert(i, (p, q));
    } else {
        proof {
            assert(forall|j: int|
                0 <= j < s.len() ==> (#[trigger] s[j]).0 != p);
            lemma_level_qty_absent(s, p);
        }
    }
}

/// Subtract `q` from the level at `p` (saturating at 0), removing the
/// level when it reaches 0; a missing level stays missing.
pub fn levels_sub(levels: &mut Vec<(u64, u32)>, p: u64, q: u32)
    requires
        spec_levels_wf(old(levels)@),
    ensures
        spec_levels_wf(final(levels)@),
        forall|x: u64|
            #[trigger] spec_level_qty(final(levels)@, x) == (if x == p {
                spec_sat_sub(spec_level_qty(old(levels)@, x), q as int)
            } else {
                spec_level_qty(old(levels)@, x)
            }),
{
    let ghost s = levels@;
    let i = levels_position(levels, p);
    if i < levels.len() && levels[i].0 == p {
        let v = levels[i].1.saturating_sub(q);
        proof {
            lemma_level_qty_at(s, i as int);
        }
        if v == 0 {
            proof {
                lemma_level_qty_remove(s, i as int);
            }
            levels.remove(i);
        } else {
            proof {
                lemma_level_qty_update(s, i as int, v);
            }
            levels.set(i, (p, v));
        }
    } else {
        proof {
            assert(forall|j: int|
                0 <= j < s.len() ==> (#[trigger] s[j]).0 != p);
            lemma_level_qty_absent(s, p);
        }
    }
}

/// Replace the quantity at `p` by `level - old_q + new_q` (each step
/// saturating, a missing level counting as 0); the key is kept, created
/// or removed so that it is present exactly while the value is positive.
pub fn levels_retune(levels: &mut Vec<(u64, u32)>, p: u64, old_q: u32, new_q: u32)
    requires
        spec_levels_wf(old(levels)@),
    ensures
        spec_levels_wf(final(levels)@),
        forall|x: u64|
            #[trigger] spec_level_qty(final(levels)@, x) == (if x == p {
                spec_sat_add(
                    spec_sat_sub(spec_level_qty(old(levels)@, x), old_q as int),
                    new_q as int,
                )
            } else {
                spec_level_qty(old(levels)@, x)
            }),
{
    let ghost s = levels@;
    let i = levels_position(levels, p);
    if i < levels.len() && levels[i].0 == p {
        let v = levels[i].1.saturating_sub(old_q).saturating_add(new_q);
        proof {
            lemma_level_qty_at(s, i as int);
        }
        if v == 0 {
            proof {
                lemma_level_qty_remove(s, i as int);
            }
            levels.remove(i);
        } else {
            proof {
                lemma_level_qty_update(s, i as int, v);
            }
            levels.set(i, (p, v));
        }
    } else {
        let v = 0u32.saturating_sub(old_q).saturating_add(new_q);
        proof {
            assert(forall|j: int|
                0 <= j < s.len() ==> (#[trigger] s[j]).0 != p);
            lemma_level_qty_absent(s, p);
        }
        if v > 0 {
            proof {
                lemma_level_qty_insert(s, i as int, p, v);
            }
            levels.insert(i, (p, v));
        }
    }
}

/// Set the quantity at `p` to `q`, creating or replacing the level.
pub fn levels_set(levels: &mut Vec<(u64, u32)>, p: u64, q: u32)
    requires
        spec_levels_wf(old(levels)@),
        q > 0,
    ensures
        spec_levels_wf(final(levels)@),
        forall|x: u64|
            #[trigger] spec_level_qty(final(levels)@, x) == (if x == p {
                q as int
            } else {
                spec_level_qty(old(levels)@, x)
            }),
{
    let ghost s = levels@;
    let i = levels_position(levels, p);
    if i < levels.len() && levels[i].0 == p {
        proof {
            lemma_level_qty_at(s, i as int);
            lemma_level_qty_update(s, i as int, q);
        }
        levels.set(i, (p, q));
    } else {
        proof {
            lemma_level_qty_insert(s, i as int, p, q);
        }
        levels.insert(i, (p, q));
    }
}

} // verus!
