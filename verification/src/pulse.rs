//! Pulse sequences and the toggle function they induce.
//!
//! A pulse sequence is a set of discrete time indices, held sorted strictly
//! increasing and strictly inside `(0, steps)`; the toggle function is the
//! alternating sign that flips at every pulse. Normalization (sort, drop
//! duplicates, clamp) is pinned down exactly: a strictly increasing sequence
//! is determined by the set of its members (`lemma_sorted_unique`), so any
//! two inputs holding the same set of indices normalize to the same sequence.

use vstd::prelude::*;
use crate::fp::{FP_ONE, sclamp, smul, sdivi, fmul, fp_from_int, fp_clamp_wide};
use crate::trig::{PI_FP, ssin, sin_fp};

verus! {

/// A pulse timing sequence: discrete toggle times, kept sorted and unique.
pub type PulseSequence = Vec<u64>;

/// Sorted with no duplicates.
pub open spec fn strictly_increasing(s: Seq<u64>) -> bool {
    forall|i: int, j: int| 0 <= i < j < s.len() ==> s[i] < s[j]
}

/// Every index strictly inside `(0, steps)`.
pub open spec fn in_range(s: Seq<u64>, steps: u64) -> bool {
    forall|i: int| 0 <= i < s.len() ==> 0 < #[trigger] s[i] < steps
}

/// How many leading entries are at most `t` (on a sorted sequence: how many
/// pulses have fired by time `t`).
pub open spec fn count_le(s: Seq<u64>, t: int) -> nat
    decreases s.len(),
{
    if s.len() == 0 {
        0
    } else if s[0] <= t {
        1 + count_le(s.subrange(1, s.len() as int), t)
    } else {
        0
    }
}

/// The toggle sign at time `t`: positive when an even number of pulses has
/// fired.
pub open spec fn toggle_up(s: Seq<u64>, t: int) -> bool {
    count_le(s, t) % 2 == 0
}

/// A forward scan that stopped at `idx` has counted exactly the entries at
/// most `t`.
proof fn lemma_count_prefix(s: Seq<u64>, t: int, idx: int)
    requires
        strictly_increasing(s),
        0 <= idx <= s.len(),
        forall|k: int| 0 <= k < idx ==> s[k] <= t,
        idx < s.len() ==> s[idx] > t,
    ensures
        count_le(s, t) == idx,
    decreases s.len(),
{
    if s.len() == 0 {
    } else if idx == 0 {
        assert(s[0] > t);
    } else {
        let rest = s.subrange(1, s.len() as int);
        assert(s[0] <= t);
        assert(strictly_increasing(rest)) by {
            assert(forall|i: int, j: int|
                0 <= i < j < rest.len() ==> rest[i] == s[i + 1] && rest[j] == s[j + 1]);
        }
        assert(forall|k: int| 0 <= k < idx - 1 ==> rest[k] == s[k + 1] && s[k + 1] <= t);
        if idx - 1 < rest.len() {
            assert(rest[idx - 1] == s[idx]);
        }
        lemma_count_prefix(rest, t, idx - 1);
    }
}

/// A strictly increasing sequence is determined by the set of its members.
pub proof fn lemma_sorted_unique(a: Seq<u64>, b: Seq<u64>)
    requires
        strictly_increasing(a),
        strictly_increasing(b),
        forall|y: u64| a.contains(y) <==> b.contains(y),
    ensures
        a == b,
    decreases a.len(),
{
    if a.len() == 0 {
        if b.len() > 0 {
            assert(b.contains(b[0]));
            assert(a.contains(b[0]));
        }
        assert(a =~= b);
    } else {
        assert(a.contains(a[0]));
        assert(b.contains(a[0]));
        let jb = choose|j: int| 0 <= j < b.len() && b[j] == a[0];
        assert(b.contains(b[0]));
        assert(a.contains(b[0]));
        let ja = choose|j: int| 0 <= j < a.len() && a[j] == b[0];
        // each head is the strict minimum of its sequence, so the heads agree
        assert(a[0] <= a[ja] && b[0] <= b[jb]);
        assert(a[0] == b[0]);
        let ta = a.subrange(1, a.len() as int);
        let tb = b.subrange(1, b.len() as int);
        assert(strictly_increasing(ta)) by {
            assert(forall|i: int, j: int|
                0 <= i < j < ta.len() ==> ta[i] == a[i + 1] && ta[j] == a[j + 1]);
        }
        assert(strictly_increasing(tb)) by {
            assert(forall|i: int, j: int|
                0 <= i < j < tb.len() ==> tb[i] == b[i + 1] && tb[j] == b[j + 1]);
        }
        assert forall|y: u64| ta.contains(y) implies tb.contains(y) by {
            let i = choose|i: int| 0 <= i < ta.len() && ta[i] == y;
            assert(a[i + 1] == y);
            assert(a.contains(y));
            assert(b.contains(y));
            let j = choose|j: int| 0 <= j < b.len() && b[j] == y;
            assert(y > a[0]);
            assert(j > 0);
            assert(tb[j - 1] == y);
        }
        assert forall|y: u64| tb.contains(y) implies ta.contains(y) by {
            let i = choose|i: int| 0 <= i < tb.len() && tb[i] == y;
            assert(b[i + 1] == y);
            assert(b.contains(y));
            assert(a.contains(y));
            let j = choose|j: int| 0 <= j < a.len() && a[j] == y;
            assert(y > b[0]);
            assert(j > 0);
            assert(ta[j - 1] == y);
        }
        lemma_sorted_unique(ta, tb);
        assert(a =~= b) by {
            assert(forall|i: int| 1 <= i < a.len() ==> a[i] == ta[i - 1]);
            assert(forall|i: int| 1 <= i < b.len() ==> b[i] == tb[i - 1]);
        }
    }
}

/// Membership after a positional insert, at one point: the new member
/// joins, the rest stay.
proof fn lemma_insert_contains_one(s: Seq<u64>, j: int, x: u64, y: u64)
    requires
        0 <= j <= s.len(),
    ensures
        s.insert(j, x).contains(y) <==> (s.contains(y) || y == x),
{
    s.insert_ensures(j, x);
    let sn = s.insert(j, x);
    if sn.contains(y) {
        let i = choose|i: int| 0 <= i < sn.len() && sn[i] == y;
        if i < j {
            assert(s[i] == y);
        } else if i > j {
            assert(sn[(i - 1) + 1] == s[i - 1]);
        }
    }
    if y == x {
        assert(sn[j] == y);
    } else if s.contains(y) {
        let i = choose|i: int| 0 <= i < s.len() && s[i] == y;
        if i < j {
            assert(sn[i] == y);
        } else {
            assert(sn[i + 1] == y);
        }
    }
}

/// Inserting at the position found by a forward scan keeps the sequence
/// strictly increasing.
proof fn lemma_insert_sorted(s: Seq<u64>, j: int, x: u64)
    requires
        strictly_increasing(s),
        0 <= j <= s.len(),
        forall|k: int| 0 <= k < j ==> s[k] < x,
        j < s.len() ==> s[j] > x,
    ensures
        strictly_increasing(s.insert(j, x)),
{
    s.insert_ensures(j, x);
    let sn = s.insert(j, x);
    assert forall|i1: int, i2: int| 0 <= i1 < i2 < sn.len() implies sn[i1] < sn[i2] by {
        if i2 < j {
        } else if i1 < j && i2 == j {
        } else if i1 < j && i2 > j {
            assert(sn[(i2 - 1) + 1] == s[i2 - 1]);
            if i2 - 1 == j {
                assert(s[j] > x);
            } else {
                assert(s[j] < s[i2 - 1] || j == s.len());
                if j < s.len() {
                } else {
                    assert(i2 - 1 < s.len());
                }
            }
            assert(s[i1] < x);
            assert(x <= sn[i2] || s[i1] < sn[i2]);
            if j < s.len() {
                assert(x < s[j]);
                if i2 - 1 > j {
                    assert(s[j] < s[i2 - 1]);
                }
            }
        } else if i1 == j {
            assert(sn[(i2 - 1) + 1] == s[i2 - 1]);
            assert(j < s.len() && x < s[j]);
            if i2 - 1 > j {
                assert(s[j] < s[i2 - 1]);
            }
        } else {
            assert(sn[(i1 - 1) + 1] == s[i1 - 1]);
            assert(sn[(i2 - 1) + 1] == s[i2 - 1]);
        }
    }
}

/// Insert a value into a sorted sequence, keeping it sorted and dropping a
/// duplicate.
pub open spec fn sinsert(ns: Seq<u64>, x: u64) -> Seq<u64>
    decreases ns.len(),
{
    if ns.len() == 0 {
        seq![x]
    } else if x < ns[0] {
        seq![x] + ns
    } else if x == ns[0] {
        ns
    } else {
        seq![ns[0]] + sinsert(ns.subrange(1, ns.len() as int), x)
    }
}

/// The normalization of a raw index sequence: sorted, duplicate-free, and
/// clamped to `(0, steps)`; built by inserting the members one by one.
pub open spec fn norm_spec(s: Seq<u64>, steps: u64) -> Seq<u64>
    decreases s.len(),
{
    if s.len() == 0 {
        Seq::empty()
    } else {
        let rest = norm_spec(s.drop_last(), steps);
        if 0 < s.last() < steps {
            sinsert(rest, s.last())
        } else {
            rest
        }
    }
}

/// `sinsert` keeps the sequence strictly increasing and adds exactly its
/// argument to the members.
proof fn lemma_sinsert_props(ns: Seq<u64>, x: u64)
    requires
        strictly_increasing(ns),
    ensures
        strictly_increasing(sinsert(ns, x)),
        forall|y: u64|
            (#[trigger] sinsert(ns, x).contains(y)) <==> (ns.contains(y) || y == x),
    decreases ns.len(),
{
    let sn = sinsert(ns, x);
    if ns.len() == 0 {
        assert forall|y: u64| sn.contains(y) implies (ns.contains(y) || y == x) by {
            let i = choose|i: int| 0 <= i < sn.len() && sn[i] == y;
        }
        assert(sn[0] == x);
    } else if x < ns[0] {
        assert(sn == seq![x] + ns);
        assert forall|i1: int, i2: int| 0 <= i1 < i2 < sn.len() implies sn[i1] < sn[i2] by {
            if i1 > 0 {
                assert(sn[i1] == ns[i1 - 1] && sn[i2] == ns[i2 - 1]);
            } else {
                assert(sn[i2] == ns[i2 - 1]);
                assert(ns[0] <= ns[i2 - 1]);
            }
        }
        assert forall|y: u64| sn.contains(y) implies (ns.contains(y) || y == x) by {
            let i = choose|i: int| 0 <= i < sn.len() && sn[i] == y;
            if i > 0 {
                assert(ns[i - 1] == y);
            }
        }
        assert forall|y: u64| (ns.contains(y) || y == x) implies sn.contains(y) by {
            if y == x {
                assert(sn[0] == y);
            } else {
                let i = choose|i: int| 0 <= i < ns.len() && ns[i] == y;
                assert(sn[i + 1] == y);
            }
        }
    } else if x == ns[0] {
        assert(ns.contains(x)) by {
            assert(ns[0] == x);
        }
    } else {
        let rest = ns.subrange(1, ns.len() as int);
        assert(strictly_increasing(rest)) by {
            assert(forall|i: int, j: int|
                0 <= i < j < rest.len() ==> rest[i] == ns[i + 1] && rest[j] == ns[j + 1]);
        }
        lemma_sinsert_props(rest, x);
        let si = sinsert(rest, x);
        assert(sn == seq![ns[0]] + si);
        // the head is below every member of the inserted tail
        assert(forall|k: int| 0 <= k < rest.len() ==> ns[0] < #[trigger] rest[k]);
        assert forall|k: int| 0 <= k < si.len() implies ns[0] < #[trigger] si[k] by {
            assert(si.contains(si[k]));
            assert(rest.contains(si[k]) || si[k] == x);
            if rest.contains(si[k]) {
                let m = choose|m: int| 0 <= m < rest.len() && rest[m] == si[k];
            }
        }
        assert forall|i1: int, i2: int| 0 <= i1 < i2 < sn.len() implies sn[i1] < sn[i2] by {
            if i1 > 0 {
                assert(sn[i1] == si[i1 - 1] && sn[i2] == si[i2 - 1]);
            } else {
                assert(sn[i2] == si[i2 - 1]);
            }
        }
        assert forall|y: u64| sn.contains(y) implies (ns.contains(y) || y == x) by {
            let i = choose|i: int| 0 <= i < sn.len() && sn[i] == y;
            if i == 0 {
                assert(ns[0] == y);
            } else {
                assert(si[i - 1] == y);
                assert(si.contains(y));
                if rest.contains(y) {
                    let m = choose|m: int| 0 <= m < rest.len() && rest[m] == y;
                    assert(ns[m + 1] == y);
                }
            }
        }
        assert forall|y: u64| (ns.contains(y) || y == x) implies sn.contains(y) by {
            if y == x {
                assert(sinsert(rest, x).contains(x));
                let m = choose|m: int| 0 <= m < si.len() && si[m] == x;
                assert(sn[m + 1] == x);
            } else {
                let i = choose|i: int| 0 <= i < ns.len() && ns[i] == y;
                if i == 0 {
                    assert(sn[0] == y);
                } else {
                    assert(rest[i - 1] == y);
                    assert(rest.contains(y));
                    assert(si.contains(y));
                    let m = choose|m: int| 0 <= m < si.len() && si[m] == y;
                    assert(sn[m + 1] == y);
                }
            }
        }
    }
}

/// The normalization is strictly increasing, in range, and holds exactly
/// the in-range members of its input.
pub proof fn lemma_norm_spec_props(s: Seq<u64>, steps: u64)
    ensures
        strictly_increasing(norm_spec(s, steps)),
        in_range(norm_spec(s, steps), steps),
        forall|y: u64|
            (#[trigger] norm_spec(s, steps).contains(y)) <==> (s.contains(y) && 0 < y < steps),
    decreases s.len(),
{
    let ns = norm_spec(s, steps);
    if s.len() == 0 {
        assert forall|y: u64| ns.contains(y) implies (s.contains(y) && 0 < y < steps) by {
            let i = choose|i: int| 0 <= i < ns.len() && ns[i] == y;
        }
    } else {
        let pre = s.drop_last();
        let x = s.last();
        lemma_norm_spec_props(pre, steps);
        let rest = norm_spec(pre, steps);
        if 0 < x < steps {
            lemma_sinsert_props(rest, x);
        }
        assert forall|y: u64| ns.contains(y) implies (s.contains(y) && 0 < y < steps) by {
            if 0 < x < steps {
                assert(rest.contains(y) || y == x);
            }
            if rest.contains(y) {
                assert(pre.contains(y) && 0 < y < steps);
                let i = choose|i: int| 0 <= i < pre.len() && pre[i] == y;
                assert(s[i] == y);
            } else {
                assert(y == x);
                assert(s[s.len() - 1] == y);
            }
        }
        assert forall|y: u64| (s.contains(y) && 0 < y < steps) implies ns.contains(y) by {
            let i = choose|i: int| 0 <= i < s.len() && s[i] == y;
            if i < s.len() - 1 {
                assert(pre[i] == y);
                assert(pre.contains(y));
                assert(rest.contains(y));
            } else {
                assert(y == x);
            }
        }
        assert forall|i: int| 0 <= i < ns.len() implies 0 < #[trigger] ns[i] < steps by {
            assert(ns.contains(ns[i]));
        }
    }
}

/// Two inputs holding the same in-range members normalize to the same
/// sequence.
pub proof fn lemma_norm_spec_same_set(s1: Seq<u64>, s2: Seq<u64>, steps: u64)
    requires
        forall|y: u64| s1.contains(y) <==> s2.contains(y),
    ensures
        norm_spec(s1, steps) == norm_spec(s2, steps),
{
    lemma_norm_spec_props(s1, steps);
    lemma_norm_spec_props(s2, steps);
    assert forall|y: u64|
        norm_spec(s1, steps).contains(y) <==> norm_spec(s2, steps).contains(y) by {
        assert(norm_spec(s1, steps).contains(y) <==> (s1.contains(y) && 0 < y < steps));
        assert(norm_spec(s2, steps).contains(y) <==> (s2.contains(y) && 0 < y < steps));
    }
    lemma_sorted_unique(norm_spec(s1, steps), norm_spec(s2, steps));
}

/// Two inputs holding the same members inside `(0, steps)` normalize to
/// the same sequence (members outside the range are dropped either way).
pub proof fn lemma_norm_spec_same_inrange(s1: Seq<u64>, s2: Seq<u64>, steps: u64)
    requires
        forall|y: u64| (s1.contains(y) && 0 < y < steps) <==> (s2.contains(y) && 0 < y < steps),
    ensures
        norm_spec(s1, steps) == norm_spec(s2, steps),
{
    lemma_norm_spec_props(s1, steps);
    lemma_norm_spec_props(s2, steps);
    assert forall|y: u64|
        norm_spec(s1, steps).contains(y) <==> norm_spec(s2, steps).contains(y) by {
        assert(norm_spec(s1, steps).contains(y) <==> (s1.contains(y) && 0 < y < steps));
        assert(norm_spec(s2, steps).contains(y) <==> (s2.contains(y) && 0 < y < steps));
    }
    lemma_sorted_unique(norm_spec(s1, steps), norm_spec(s2, steps));
}

/// Normalization is idempotent: a sequence that is already strictly
/// increasing and in range is its own normalization.
pub proof fn lemma_norm_spec_idempotent(s: Seq<u64>, steps: u64)
    requires
        strictly_increasing(s),
        in_range(s, steps),
    ensures
        norm_spec(s, steps) == s,
{
    lemma_norm_spec_props(s, steps);
    assert forall|y: u64| norm_spec(s, steps).contains(y) <==> s.contains(y) by {
        assert(norm_spec(s, steps).contains(y) <==> (s.contains(y) && 0 < y < steps));
        if s.contains(y) {
            let i = choose|i: int| 0 <= i < s.len() && s[i] == y;
            assert(0 < s[i] < steps);
        }
    }
    lemma_sorted_unique(norm_spec(s, steps), s);
}

/// Membership in a pushed sequence, at one point.
proof fn lemma_push_contains_one(s: Seq<u64>, x: u64, y: u64)
    ensures
        s.push(x).contains(y) <==> (s.contains(y) || y == x),
{
    if s.push(x).contains(y) {
        let k = choose|k: int| 0 <= k < s.push(x).len() && s.push(x)[k] == y;
        if k < s.len() {
            assert(s[k] == y);
        }
    }
    if s.contains(y) {
        let k = choose|k: int| 0 <= k < s.len() && s[k] == y;
        assert(s.push(x)[k] == y);
    }
    if y == x {
        assert(s.push(x)[s.len() as int] == y);
    }
}

/// The position of the first entry not below `x` in a sorted vector.
fn lower_bound(acc: &Vec<u64>, x: u64) -> (j: usize)
    ensures
        j <= acc@.len(),
        forall|k: int| 0 <= k < j ==> acc@[k] < x,
        j < acc@.len() ==> acc@[j as int] >= x,
{
    let mut j: usize = 0;
    while j < acc.len() && acc[j] < x
        invariant
            j <= acc@.len(),
            forall|k: int| 0 <= k < j ==> acc@[k] < x,
        decreases acc@.len() - j,
    {
        j = j + 1;
    }
    j
}

/// In a strictly increasing in-range sequence, entry `i` is at least
/// `i + 1`.
proof fn lemma_increasing_lower(s: Seq<u64>, steps: u64, i: int)
    requires
        strictly_increasing(s),
        in_range(s, steps),
        0 <= i < s.len(),
    ensures
        s[i] >= i + 1,
    decreases i,
{
    if i > 0 {
        lemma_increasing_lower(s, steps, i - 1);
        assert(s[i] > s[i - 1]);
    }
}

/// A strictly increasing sequence inside `(0, steps)` has fewer than
/// `steps` members.
pub proof fn lemma_pulse_len_bound(s: Seq<u64>, steps: u64)
    requires
        strictly_increasing(s),
        in_range(s, steps),
    ensures
        s.len() <= steps,
{
    if s.len() > 0 {
        lemma_increasing_lower(s, steps, s.len() - 1);
    }
}

/// Sort the given pulse indices, drop duplicates, and keep only indices
/// strictly inside `(0, steps)`. The result is the one strictly increasing
/// sequence holding exactly the in-range members of the input.
pub fn normalize_pulses(v: &Vec<u64>, steps: u64) -> (r: Vec<u64>)
    ensures
        strictly_increasing(r@),
        in_range(r@, steps),
        forall|y: u64| r@.contains(y) <==> (v@.contains(y) && 0 < y < steps),
        r@ == norm_spec(v@, steps),
{
    let mut acc: Vec<u64> = Vec::new();
    let mut i: usize = 0;
    while i < v.len()
        invariant
            i <= v.len(),
            strictly_increasing(acc@),
            in_range(acc@, steps),
            forall|y: u64|
                acc@.contains(y) <==> (v@.subrange(0, i as int).contains(y) && 0 < y < steps),
        decreases v.len() - i,
    {
        let x = v[i];
        if x == 0 || x >= steps {
            proof {
                assert forall|y: u64|
                    acc@.contains(y)
                    <==> (v@.subrange(0, i as int + 1).contains(y) && 0 < y < steps) by {
                    let pre = v@.subrange(0, i as int);
                    assert(v@.subrange(0, i as int + 1) =~= pre.push(x));
                    lemma_push_contains_one(pre, x, y);
                }
            }
            i = i + 1;
            continue;
        }
        let j = lower_bound(&acc, x);
        if j < acc.len() && acc[j] == x {
            // already present: membership is unchanged
            proof {
                assert(acc@.contains(x));
                assert forall|y: u64|
                    acc@.contains(y)
                    <==> (v@.subrange(0, i as int + 1).contains(y) && 0 < y < steps) by {
                    let pre = v@.subrange(0, i as int);
                    assert(v@.subrange(0, i as int + 1) =~= pre.push(x));
                    lemma_push_contains_one(pre, x, y);
                    assert(acc@.contains(y) <==> (pre.contains(y) && 0 < y < steps));
                }
            }
        } else {
            let ghost acc0 = acc@;
            proof {
                lemma_insert_sorted(acc0, j as int, x);
                acc0.insert_ensures(j as int, x);
            }
            acc.insert(j, x);
            proof {
                assert(acc@ == acc0.insert(j as int, x));
                assert forall|y: u64|
                    acc@.contains(y)
                    <==> (v@.subrange(0, i as int + 1).contains(y) && 0 < y < steps) by {
                    let pre = v@.subrange(0, i as int);
                    assert(v@.subrange(0, i as int + 1) =~= pre.push(x));
                    lemma_push_contains_one(pre, x, y);
                    lemma_insert_contains_one(acc0, j as int, x, y);
                    assert(acc0.contains(y) <==> (pre.contains(y) && 0 < y < steps));
                }
            }
        }
        i = i + 1;
    }
    proof {
        assert(v@.subrange(0, v.len() as int) == v@);
        lemma_norm_spec_props(v@, steps);
        lemma_sorted_unique(acc@, norm_spec(v@, steps));
    }
    acc
}

/// The toggle function over `[0, steps)` induced by a sorted pulse
/// sequence: entry `t` is `true` where the sign is positive, that is where
/// an even number of pulses has fired by time `t`.
pub fn build_toggle(pulses: &Vec<u64>, steps: u64) -> (r: Vec<bool>)
    requires
        strictly_increasing(pulses@),
        steps <= 0x400000,
    ensures
        r@.len() == steps,
        forall|t: int| 0 <= t < steps ==> r@[t] == toggle_up(pulses@, t),
{
    let mut out: Vec<bool> = Vec::new();
    let mut up = true;
    let mut idx: usize = 0;
    let mut t: u64 = 0;
    while t < steps
        invariant
            t <= steps,
            out@.len() == t,
            idx <= pulses@.len(),
            strictly_increasing(pulses@),
            forall|k: int| 0 <= k < idx ==> pulses@[k] < t,
            idx < pulses@.len() ==> pulses@[idx as int] >= t,
            up == (idx % 2 == 0),
            forall|u: int| 0 <= u < t ==> out@[u] == toggle_up(pulses@, u),
        decreases steps - t,
    {
        if idx < pulses.len() && pulses[idx] == t {
            up = !up;
            idx = idx + 1;
        }
        proof {
            assert(forall|k: int| 0 <= k < idx ==> pulses@[k] <= t as int);
            if idx < pulses@.len() {
                assert(pulses@[idx as int] > t as int);
            }
            lemma_count_prefix(pulses@, t as int, idx as int);
        }
        out.push(up);
        t = t + 1;
    }
    out
}

/// The Uhrig baseline time, normalized into `[0, FP_ONE]`:
/// `sin^2((j+1) * pi / (2n + 2))` for slot `j` of `n`.
pub open spec fn suhrig(n: int, j: int) -> int {
    let arg = sdivi(sclamp((j + 1) * (PI_FP as int)), 2 * n + 2);
    smul(ssin(arg), ssin(arg))
}

/// The Uhrig baseline as normalized times.
pub fn uhrig_norm(n: u64) -> (r: Vec<i64>)
    requires
        n <= 0x100000,
    ensures
        r@.len() == n,
        forall|j: int| 0 <= j < n ==> r@[j] == suhrig(n as int, j),
{
    let mut out: Vec<i64> = Vec::new();
    let mut j: u64 = 0;
    while j < n
        invariant
            j <= n <= 0x100000,
            out@.len() == j,
            forall|k: int| 0 <= k < j ==> out@[k] == suhrig(n as int, k),
        decreases n - j,
    {
        let num = fp_clamp_wide(((j + 1) as i128) * (PI_FP as i128));
        let arg = crate::fp::fdivi(num, 2 * n + 2);
        let s = sin_fp(arg);
        let v = fmul(s, s);
        proof {
            assert(arg == sdivi(sclamp((j as int + 1) * (PI_FP as int)), 2 * (n as int) + 2));
        }
        out.push(v);
        j = j + 1;
    }
    out
}

/// Every Uhrig time is a squared sine: it lies in `[0, FP_ONE]`.
pub proof fn lemma_suhrig_range(n: int, j: int)
    ensures
        0 <= suhrig(n, j) <= FP_ONE as int,
{
    let arg = sdivi(sclamp((j + 1) * (PI_FP as int)), 2 * n + 2);
    let s = ssin(arg);
    crate::trig::lemma_trig_range(arg);
    crate::fp::lemma_smul_nonneg(s, s);
    crate::fp::lemma_smul_bound(s, s, FP_ONE as int, FP_ONE as int);
    vstd::arithmetic::div_mod::lemma_div_multiples_vanish(FP_ONE as int, FP_ONE as int);
}

/// One Uhrig time as a discrete index: the normalized time scaled by the
/// duration, truncated.
pub open spec fn suhrig_idx(steps: int, n: int, j: int) -> int {
    smul(suhrig(n, j), sclamp(steps * (FP_ONE as int))) / (FP_ONE as int)
}

/// The Uhrig baseline pulse sequence over `steps` time steps: the strictly
/// increasing sequence holding exactly the in-range Uhrig indices.
pub fn uhrig_indices(steps: u64, n: u64) -> (r: Vec<u64>)
    requires
        n <= 0x100000,
        steps <= 0x400000,
    ensures
        strictly_increasing(r@),
        in_range(r@, steps),
        forall|y: u64|
            r@.contains(y)
            <==> ((exists|j: int| 0 <= j < n && y == suhrig_idx(steps as int, n as int, j))
                && 0 < y < steps),
{
    let times = uhrig_norm(n);
    let sfp = fp_from_int(steps as i64);
    let mut raw: Vec<u64> = Vec::new();
    let mut j: usize = 0;
    while j < times.len()
        invariant
            j <= times@.len(),
            times@.len() == n,
            n <= 0x100000,
            steps <= 0x400000,
            sfp == sclamp(steps as int * (FP_ONE as int)),
            forall|k: int| 0 <= k < n ==> times@[k] == suhrig(n as int, k),
            raw@.len() == j,
            forall|k: int| 0 <= k < j ==> raw@[k] == suhrig_idx(steps as int, n as int, k),
        decreases times@.len() - j,
    {
        proof {
            let a = times@[j as int] as int;
            let s = ssin(sdivi(sclamp((j as int + 1) * (PI_FP as int)), 2 * (n as int) + 2));
            assert(a == suhrig(n as int, j as int));
            assert(suhrig(n as int, j as int) == smul(s, s));
            crate::fp::lemma_smul_nonneg(s, s);
            crate::fp::lemma_smul_nonneg(a, sfp as int);
        }
        let scaled = fmul(times[j], sfp);
        let idx: u64 = (scaled as u64) / (FP_ONE as u64);
        proof {
            assert(idx == suhrig_idx(steps as int, n as int, j as int));
        }
        raw.push(idx);
        j = j + 1;
    }
    let r = normalize_pulses(&raw, steps);
    proof {
        assert forall|y: u64|
            raw@.contains(y)
            <==> (exists|k: int| 0 <= k < n && y == suhrig_idx(steps as int, n as int, k)) by {
            if raw@.contains(y) {
                let k = choose|k: int| 0 <= k < raw@.len() && raw@[k] == y;
                assert(y == suhrig_idx(steps as int, n as int, k));
            }
            if exists|k: int| 0 <= k < n && y == suhrig_idx(steps as int, n as int, k) {
                let k = choose|k: int| 0 <= k < n && y == suhrig_idx(steps as int, n as int, k);
                assert(raw@[k] == y);
            }
        }
    }
    r
}

} // verus!
