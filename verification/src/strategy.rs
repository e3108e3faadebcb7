//! Selection strategies over a fixed backend pool: round robin, uniform
//! random, smooth weighted round robin, and weighted random sampling.
use rand::distributions::Distribution;
use vstd::arithmetic::div_mod::lemma_fundamental_div_mod;
use vstd::arithmetic::div_mod::lemma_fundamental_div_mod_converse_mod;
use vstd::arithmetic::div_mod::lemma_div_is_ordered;
use vstd::arithmetic::div_mod::lemma_div_pos_is_pos;
use vstd::arithmetic::div_mod::lemma_add_mod_noop;
use vstd::arithmetic::div_mod::lemma_div_by_multiple;
use vstd::arithmetic::div_mod::lemma_mod_division_less_than_divisor;
use vstd::arithmetic::div_mod::lemma_mod_multiples_basic;
use vstd::arithmetic::div_mod::lemma_mod_self_0;
use vstd::arithmetic::div_mod::lemma_small_mod;
use vstd::prelude::*;

use crate::backend::Backend;

verus! {

/// A selection discipline over an immutable backend pool, built once from the
/// pool and then asked repeatedly for the next candidate. Strategies do not
/// consider health; health filtering is layered on top by the load balancer.
pub trait Strategy: Sized {
    /// The pool this strategy selects from.
    spec fn pool(&self) -> Seq<Backend>;

    /// Whether selection is a function of the strategy's state alone. A
    /// deterministic strategy's every call returns [`Self::next_candidate`]
    /// and leaves the state [`Self::stepped`]; a randomized one promises
    /// only the clauses below.
    spec fn deterministic() -> bool;

    /// The candidate the next call returns, for a deterministic strategy.
    spec fn next_candidate(&self) -> Option<Backend>;

    /// The state the next call leaves behind, for a deterministic strategy.
    spec fn stepped(&self) -> Self;

    /// What a freshly built strategy's state looks like over its pool.
    spec fn freshly_built(&self, pool: Seq<Backend>) -> bool;

    /// Build the strategy over a fixed pool.
    fn build(backends: &Vec<Backend>) -> (s: Self)
        ensures
            s.pool() == backends@,
            s.freshly_built(backends@),
    ;

    /// The next candidate: always a member of the pool, `None` on an empty
    /// pool, and for a deterministic strategy exactly the candidate and
    /// state transition its specification dictates.
    fn get_next(&mut self) -> (r: Option<Backend>)
        ensures
            final(self).pool() == old(self).pool(),
            r matches Some(b) ==> exists|i: int|
                0 <= i < old(self).pool().len() && b == old(self).pool()[i],
            old(self).pool().len() == 0 ==> r is None,
            Self::deterministic() ==> r == old(self).next_candidate() && *final(self) == old(
                self,
            ).stepped(),
    ;
}

/// Clone a pool; the clone holds the same backends.
fn clone_pool(backends: &Vec<Backend>) -> (r: Vec<Backend>)
    ensures
        r@ == backends@,
{
    let r = backends.clone();
    proof {
        assert(r@ =~= backends@);
    }
    r
}

/// The pool slot round robin selects when its cursor stands at `cursor`.
pub open spec fn rr_slot(cursor: nat, n: nat) -> nat
    recommends
        n > 0,
{
    cursor % n
}

/// Law: within any window of `n` consecutive round-robin selections over a
/// pool of `n` backends, no slot is selected twice — together with
/// [`lemma_round_robin_window_covers`], each backend is returned exactly once
/// per `n` consecutive calls.
pub proof fn lemma_round_robin_window_distinct(cursor: nat, n: nat, i: nat, j: nat)
    requires
        n > 0,
        i < n,
        j < n,
        rr_slot(cursor + i, n) == rr_slot(cursor + j, n),
    ensures
        i == j,
{
    lemma_fundamental_div_mod(cursor as int, n as int);
    lemma_slot_of_offset(cursor, n, i);
    lemma_slot_of_offset(cursor, n, j);
}

/// Law: within any window of `n` consecutive round-robin selections over a
/// pool of `n` backends, every slot is selected at least once.
pub proof fn lemma_round_robin_window_covers(cursor: nat, n: nat, slot: nat)
    requires
        n > 0,
        slot < n,
    ensures
        exists|c: nat| cursor <= c < cursor + n && #[trigger] rr_slot(c, n) == slot,
{
    let a = cursor % n;
    let k: nat = if slot >= a {
        (slot - a) as nat
    } else {
        (slot + n - a) as nat
    };
    lemma_fundamental_div_mod(cursor as int, n as int);
    lemma_slot_of_offset(cursor, n, k);
    assert(rr_slot((cursor + k) as nat, n) == slot);
}

/// Law: a freshly built round robin walks the pool in order — its `k`-th
/// selection is slot `k` for every `k` below the pool size, and the walk
/// repeats cyclically ever after.
pub proof fn lemma_round_robin_pool_order(k: nat, n: nat)
    requires
        n > 0,
        k < n,
    ensures
        rr_slot(k, n) == k,
        rr_slot(k + n, n) == k,
{
    lemma_fundamental_div_mod_converse_mod(k as int, n as int, 0int, k as int);
    lemma_fundamental_div_mod_converse_mod((k + n) as int, n as int, 1int, k as int);
}

/// The slot selected `k` calls after the cursor stood at `cursor`, written
/// without an outer modulus.
proof fn lemma_slot_of_offset(cursor: nat, n: nat, k: nat)
    requires
        n > 0,
        k < n,
    ensures
        rr_slot(cursor + k, n) == if cursor % n + k < n {
            (cursor % n + k) as int
        } else {
            cursor % n + k - n
        },
{
    let a = cursor % n;
    let q = cursor as int / n as int;
    lemma_fundamental_div_mod(cursor as int, n as int);
    lemma_mod_division_less_than_divisor(cursor as int, n as int);
    if a + k < n {
        lemma_fundamental_div_mod_converse_mod((cursor + k) as int, n as int, q, a + k as int);
    } else {
        assert((q + 1) * (n as int) == q * (n as int) + n) by (nonlinear_arith);
        lemma_fundamental_div_mod_converse_mod((cursor + k) as int, n as int, q + 1, a + k - n);
    }
}

/// Round robin: an incrementing cursor walks the pool in order, wrapping at
/// the end.
pub struct RoundRobin {
    backends: Vec<Backend>,
    current: usize,
}

impl RoundRobin {
    /// Where the cursor stands: the next call selects slot
    /// `rr_slot(self.cursor(), self.pool().len())`.
    pub closed spec fn cursor(&self) -> nat {
        self.current as nat
    }
}

impl Strategy for RoundRobin {
    closed spec fn pool(&self) -> Seq<Backend> {
        self.backends@
    }

    open spec fn deterministic() -> bool {
        true
    }

    open spec fn next_candidate(&self) -> Option<Backend> {
        if self.pool().len() == 0 {
            None
        } else {
            Some(self.pool()[rr_slot(self.cursor(), self.pool().len()) as int])
        }
    }

    closed spec fn stepped(&self) -> Self {
        if self.backends@.len() == 0 {
            *self
        } else {
            RoundRobin { backends: self.backends, current: self.current.wrapping_add(1) }
        }
    }

    open spec fn freshly_built(&self, pool: Seq<Backend>) -> bool {
        self.cursor() == 0
    }

    fn build(backends: &Vec<Backend>) -> (s: Self) {
        RoundRobin { backends: clone_pool(backends), current: 0 }
    }

    fn get_next(&mut self) -> (r: Option<Backend>) {
        if self.backends.is_empty() {
            return None;
        }
        let idx = self.current % self.backends.len();
        self.current = self.current.wrapping_add(1);
        let b = self.backends[idx].clone();
        proof {
            assert(b == old(self).pool()[idx as int]);
        }
        Some(b)
    }
}

/// How one round-robin call moves the cursor: one slot forward, wrapping
/// with the machine word; an empty pool leaves the state untouched.
pub proof fn lemma_round_robin_stepped(s: RoundRobin)
    ensures
        s.stepped().pool() == s.pool(),
        s.pool().len() == 0 ==> s.stepped() == s,
        s.pool().len() > 0 ==> s.stepped().cursor() == if s.cursor() == usize::MAX as nat {
            0nat
        } else {
            s.cursor() + 1
        },
{
}

/// Uniform random selection: every call independently picks one pool slot,
/// each with equal probability; no state is kept between calls.
pub struct Random {
    backends: Vec<Backend>,
}

/// Relies on rand::random: it returns some value of the asked type; nothing
/// is assumed about which.
pub assume_specification<T>[ rand::random::<T> ]() -> (r: T)
    where
        rand::distributions::Standard: rand::distributions::Distribution<T>,
;

impl Strategy for Random {
    closed spec fn pool(&self) -> Seq<Backend> {
        self.backends@
    }

    open spec fn deterministic() -> bool {
        false
    }

    /// Unused: selection is randomized.
    open spec fn next_candidate(&self) -> Option<Backend> {
        None
    }

    /// Unused: selection is randomized and keeps no state.
    open spec fn stepped(&self) -> Self {
        *self
    }

    open spec fn freshly_built(&self, pool: Seq<Backend>) -> bool {
        true
    }

    fn build(backends: &Vec<Backend>) -> (s: Self) {
        Random { backends: clone_pool(backends) }
    }

    fn get_next(&mut self) -> (r: Option<Backend>)
        ensures
            *final(self) == *old(self),
            old(self).pool().len() > 0 ==> r is Some,
    {
        if self.backends.is_empty() {
            return None;
        }
        let idx = rand::random::<usize>() % self.backends.len();
        let b = self.backends[idx].clone();
        proof {
            assert(b == old(self).pool()[idx as int]);
        }
        Some(b)
    }
}

/// The weights of a pool, in pool order.
pub open spec fn spec_weights(pool: Seq<Backend>) -> Seq<u16> {
    pool.map_values(|b: Backend| b.weight)
}

/// The largest weight in a pool; 0 for an empty pool.
pub open spec fn spec_max_weight(ws: Seq<u16>) -> u16
    decreases ws.len(),
{
    if ws.len() == 0 {
        0u16
    } else {
        let m = spec_max_weight(ws.drop_last());
        if ws.last() > m {
            ws.last()
        } else {
            m
        }
    }
}

/// The greatest common divisor, by Euclid's recursion.
pub open spec fn spec_gcd(a: nat, b: nat) -> nat
    decreases b,
{
    if b == 0 {
        a
    } else {
        spec_gcd(b, a % b)
    }
}

/// The greatest common divisor of all weights, folded left as the weights are
/// walked; 0 for an empty pool.
pub open spec fn spec_gcd_weights(ws: Seq<u16>) -> nat
    decreases ws.len(),
{
    if ws.len() == 0 {
        0nat
    } else {
        spec_gcd(spec_gcd_weights(ws.drop_last()), ws.last() as nat)
    }
}

proof fn lemma_gcd_zero(a: nat, b: nat)
    requires
        spec_gcd(a, b) == 0,
    ensures
        a == 0 && b == 0,
    decreases b,
{
    if b != 0 {
        lemma_gcd_zero(b, a % b);
    }
}

proof fn lemma_gcd_weights_zero(ws: Seq<u16>)
    requires
        spec_gcd_weights(ws) == 0,
    ensures
        forall|i: int| 0 <= i < ws.len() ==> ws[i] == 0,
    decreases ws.len(),
{
    if ws.len() > 0 {
        lemma_gcd_zero(spec_gcd_weights(ws.drop_last()), ws.last() as nat);
        lemma_gcd_weights_zero(ws.drop_last());
        assert forall|i: int| 0 <= i < ws.len() implies ws[i] == 0 by {
            if i < ws.len() - 1 {
                assert(ws.drop_last()[i] == 0);
            }
        }
    }
}

proof fn lemma_max_of_constant_seq(ws: Seq<u16>)
    requires
        ws.len() >= 1,
        forall|i: int| 0 <= i < ws.len() ==> #[trigger] ws[i] == ws[0],
    ensures
        spec_max_weight(ws) == ws[0],
    decreases ws.len(),
{
    if ws.len() > 1 {
        assert forall|i: int| 0 <= i < ws.drop_last().len() implies #[trigger] ws.drop_last()[i]
            == ws.drop_last()[0] by {
            assert(ws.drop_last()[i] == ws[i]);
        }
        lemma_max_of_constant_seq(ws.drop_last());
        assert(ws.drop_last()[0] == ws[0]);
        assert(ws.last() == ws[ws.len() - 1]);
        assert(ws[ws.len() - 1] == ws[0]);
    } else {
        reveal_with_fuel(spec_max_weight, 2);
        assert(ws.last() == ws[0]);
        assert(ws.drop_last().len() == 0);
    }
}

/// No weight exceeds the pool's largest weight.
proof fn lemma_max_is_bound(ws: Seq<u16>)
    ensures
        forall|i: int| 0 <= i < ws.len() ==> #[trigger] ws[i] <= spec_max_weight(ws),
    decreases ws.len(),
{
    if ws.len() > 0 {
        lemma_max_is_bound(ws.drop_last());
        assert forall|i: int| 0 <= i < ws.len() implies #[trigger] ws[i] <= spec_max_weight(ws) by {
            if i < ws.len() - 1 {
                assert(ws.drop_last()[i] == ws[i]);
            } else {
                assert(ws.last() == ws[i]);
            }
        }
    }
}

/// The slots emitted by the smooth-weighting walk from the state where the
/// cursor stands on slot `ci` with current weight level `cw`: the walk first
/// advances the cursor cyclically, lowers the level by `g` on each wrap and
/// stops when the level reaches 0, and emits every slot whose weight is at
/// least the level at which it is visited.
pub open spec fn spec_wrr_from(ws: Seq<u16>, g: u16, ci: int, cw: u16) -> Seq<usize>
    decreases cw, ws.len() - ci,
{
    if g == 0 || !(0 <= ci < ws.len()) {
        Seq::empty()
    } else if ci + 1 < ws.len() {
        (if ws[ci + 1] >= cw {
            seq![(ci + 1) as usize]
        } else {
            Seq::empty()
        }) + spec_wrr_from(ws, g, ci + 1, cw)
    } else {
        let cw2: u16 = if cw <= g {
            0u16
        } else {
            (cw - g) as u16
        };
        if cw2 == 0 {
            Seq::empty()
        } else {
            (if ws[0] >= cw2 {
                seq![0usize]
            } else {
                Seq::empty()
            }) + spec_wrr_from(ws, g, 0, cw2)
        }
    }
}

/// The precomputed selection table of smooth weighted round robin: with all
/// weights equal it is every slot once, in pool order; otherwise it is the
/// smooth-weighting walk starting above the highest weight level.
pub open spec fn spec_wrr_table(ws: Seq<u16>) -> Seq<usize> {
    if forall|i: int| 0 <= i < ws.len() ==> ws[i] == spec_max_weight(ws) {
        Seq::new(ws.len(), |i: int| i as usize)
    } else {
        spec_wrr_from(ws, spec_gcd_weights(ws) as u16, 0, spec_max_weight(ws))
    }
}

proof fn lemma_wrr_from_bounds(ws: Seq<u16>, g: u16, ci: int, cw: u16)
    ensures
        forall|k: int|
            0 <= k < spec_wrr_from(ws, g, ci, cw).len() ==> (#[trigger] spec_wrr_from(
                ws,
                g,
                ci,
                cw,
            )[k]) < ws.len(),
    decreases cw, ws.len() - ci,
{
    if g == 0 || !(0 <= ci < ws.len()) {
    } else if ci + 1 < ws.len() {
        lemma_wrr_from_bounds(ws, g, ci + 1, cw);
        let pushed: Seq<usize> = if ws[ci + 1] >= cw {
            seq![(ci + 1) as usize]
        } else {
            Seq::empty()
        };
        let rest = spec_wrr_from(ws, g, ci + 1, cw);
        assert forall|k: int| 0 <= k < spec_wrr_from(ws, g, ci, cw).len() implies (
        #[trigger] spec_wrr_from(ws, g, ci, cw)[k]) < ws.len() by {
            if k >= pushed.len() {
                assert((pushed + rest)[k] == rest[k - pushed.len()]);
            }
        }
    } else {
        let cw2: u16 = if cw <= g {
            0u16
        } else {
            (cw - g) as u16
        };
        if cw2 != 0 {
            lemma_wrr_from_bounds(ws, g, 0, cw2);
            let pushed: Seq<usize> = if ws[0] >= cw2 {
                seq![0usize]
            } else {
                Seq::empty()
            };
            let rest = spec_wrr_from(ws, g, 0, cw2);
            assert forall|k: int| 0 <= k < spec_wrr_from(ws, g, ci, cw).len() implies (
            #[trigger] spec_wrr_from(ws, g, ci, cw)[k]) < ws.len() by {
                if k >= pushed.len() {
                    assert((pushed + rest)[k] == rest[k - pushed.len()]);
                }
            }
        }
    }
}

/// Every slot in the weighted round-robin table lies inside the pool.
pub proof fn lemma_wrr_table_bounds(ws: Seq<u16>)
    ensures
        forall|k: int|
            0 <= k < spec_wrr_table(ws).len() ==> (#[trigger] spec_wrr_table(ws)[k]) < ws.len(),
{
    lemma_wrr_from_bounds(ws, spec_gcd_weights(ws) as u16, 0, spec_max_weight(ws));
}

proof fn lemma_wrr_from_positive_weights(ws: Seq<u16>, g: u16, ci: int, cw: u16)
    requires
        cw >= 1,
        ws.len() <= usize::MAX,
    ensures
        forall|k: int|
            0 <= k < spec_wrr_from(ws, g, ci, cw).len() ==> ws[(#[trigger] spec_wrr_from(
                ws,
                g,
                ci,
                cw,
            )[k]) as int] >= 1,
    decreases cw, ws.len() - ci,
{
    if g == 0 || !(0 <= ci < ws.len()) {
    } else if ci + 1 < ws.len() {
        lemma_wrr_from_positive_weights(ws, g, ci + 1, cw);
        let pushed: Seq<usize> = if ws[ci + 1] >= cw {
            seq![(ci + 1) as usize]
        } else {
            Seq::empty()
        };
        let rest = spec_wrr_from(ws, g, ci + 1, cw);
        assert forall|k: int| 0 <= k < spec_wrr_from(ws, g, ci, cw).len() implies ws[(
        #[trigger] spec_wrr_from(ws, g, ci, cw)[k]) as int] >= 1 by {
            if k >= pushed.len() {
                assert((pushed + rest)[k] == rest[k - pushed.len()]);
            } else {
                assert((pushed + rest)[k] == pushed[k]);
            }
        }
    } else {
        let cw2: u16 = if cw <= g {
            0u16
        } else {
            (cw - g) as u16
        };
        if cw2 != 0 {
            lemma_wrr_from_positive_weights(ws, g, 0, cw2);
            let pushed: Seq<usize> = if ws[0] >= cw2 {
                seq![0usize]
            } else {
                Seq::empty()
            };
            let rest = spec_wrr_from(ws, g, 0, cw2);
            assert forall|k: int| 0 <= k < spec_wrr_from(ws, g, ci, cw).len() implies ws[(
            #[trigger] spec_wrr_from(ws, g, ci, cw)[k]) as int] >= 1 by {
                if k >= pushed.len() {
                    assert((pushed + rest)[k] == rest[k - pushed.len()]);
                } else {
                    assert((pushed + rest)[k] == pushed[k]);
                }
            }
        }
    }
}

/// Law: weighted round robin never selects a zero-weight backend, as long as
/// some backend carries weight at all — every slot in its table has positive
/// weight.
pub proof fn lemma_wrr_zero_weight_never_selected(ws: Seq<u16>)
    requires
        spec_max_weight(ws) > 0,
        ws.len() <= usize::MAX,
    ensures
        forall|k: int|
            0 <= k < spec_wrr_table(ws).len() ==> ws[(#[trigger] spec_wrr_table(ws)[k]) as int]
                >= 1,
{
    if forall|i: int| 0 <= i < ws.len() ==> ws[i] == spec_max_weight(ws) {
        assert forall|k: int| 0 <= k < spec_wrr_table(ws).len() implies ws[(
        #[trigger] spec_wrr_table(ws)[k]) as int] >= 1 by {
            assert(spec_wrr_table(ws)[k] == k as usize);
        }
    } else {
        lemma_wrr_from_positive_weights(ws, spec_gcd_weights(ws) as u16, 0, spec_max_weight(ws));
    }
}

/// Law: when every backend carries the same weight, the weighted round-robin
/// table is every pool slot exactly once, in pool order.
pub proof fn lemma_equal_weights_identity_table(ws: Seq<u16>)
    requires
        ws.len() >= 1,
        forall|i: int| 0 <= i < ws.len() ==> #[trigger] ws[i] == ws[0],
    ensures
        spec_wrr_table(ws) == Seq::new(ws.len(), |i: int| i as usize),
{
    lemma_max_of_constant_seq(ws);
    assert(spec_wrr_table(ws) =~= Seq::new(ws.len(), |i: int| i as usize));
}

/// Law: when every backend carries the same weight, weighted round robin
/// degenerates to plain round robin — its table is the pool walked in order,
/// so at every cursor the two disciplines select the same slot.
pub proof fn lemma_equal_weights_degenerate(ws: Seq<u16>, cursor: nat)
    requires
        1 <= ws.len() <= usize::MAX,
        forall|i: int| 0 <= i < ws.len() ==> #[trigger] ws[i] == ws[0],
    ensures
        spec_wrr_table(ws).len() == ws.len(),
        spec_wrr_table(ws)[rr_slot(cursor, spec_wrr_table(ws).len()) as int] == rr_slot(
            cursor,
            ws.len(),
        ),
{
    lemma_max_of_constant_seq(ws);
    assert(spec_wrr_table(ws) =~= Seq::new(ws.len(), |i: int| i as usize));
    lemma_mod_division_less_than_divisor(cursor as int, ws.len() as int);
    let slot = rr_slot(cursor, ws.len());
    assert(spec_wrr_table(ws)[slot as int] == slot as usize);
}

/// How many table slots select backend `s`.
pub open spec fn spec_count(t: Seq<usize>, s: int) -> int
    decreases t.len(),
{
    if t.len() == 0 {
        0int
    } else {
        (if t.first() as int == s {
            1int
        } else {
            0int
        }) + spec_count(t.drop_first(), s)
    }
}

proof fn lemma_count_prepend(x: usize, rest: Seq<usize>, s: int)
    ensures
        spec_count(seq![x] + rest, s) == (if x as int == s {
            1int
        } else {
            0int
        }) + spec_count(rest, s),
        spec_count(Seq::<usize>::empty() + rest, s) == spec_count(rest, s),
{
    assert((seq![x] + rest).first() == x);
    assert((seq![x] + rest).drop_first() =~= rest);
    assert(Seq::<usize>::empty() + rest =~= rest);
}

/// How many weight levels, walking down from `top` in steps of `g`, a backend
/// of weight `w` clears: the levels are the positive multiples of `g` up to
/// `top`, and the backend clears those that do not exceed its weight.
pub open spec fn spec_levels(w: int, top: int, g: int) -> int
    recommends
        g >= 1,
{
    if top <= 0 || w <= 0 {
        0int
    } else {
        (if w < top {
            w
        } else {
            top
        }) / g
    }
}

/// Lowering the top level by one step removes exactly the levels that only a
/// weight of at least `top` clears.
proof fn lemma_levels_step(w: int, top: int, g: int)
    requires
        g >= 1,
        top >= 1,
        w % g == 0,
        top % g == 0,
        w >= 0,
    ensures
        spec_levels(w, top, g) == spec_levels(w, top - g, g) + if w >= top {
            1int
        } else {
            0int
        },
{
    lemma_fundamental_div_mod(top as int, g as int);
    lemma_fundamental_div_mod(w as int, g as int);
    let m = top / g;
    let a = w / g;
    assert(top == g * m);
    assert(w == g * a);
    lemma_div_pos_is_pos(top, g);
    if w == 0 {
        assert(spec_levels(w, top, g) == 0);
        assert(spec_levels(w, top - g, g) == 0);
        assert(w < top);
    } else if w >= top {
        assert(spec_levels(w, top, g) == top / g);
        if top - g <= 0 {
            assert(m * g == g * m) by (nonlinear_arith);
            lemma_div_by_multiple(m, g);
            assert(m == 1) by {
                assert(g * m >= 1);
                assert(g * m <= g);
                if m <= 0 {
                    assert(g * m <= 0) by (nonlinear_arith)
                        requires
                            g >= 1,
                            m <= 0,
                    ;
                }
                if m >= 2 {
                    assert(g * m >= 2 * g) by (nonlinear_arith)
                        requires
                            g >= 1,
                            m >= 2,
                    ;
                }
            }
            assert(spec_levels(w, top - g, g) == 0);
        } else {
            assert(spec_levels(w, top - g, g) == (top - g) / g);
            assert(top - g == g * (m - 1)) by (nonlinear_arith)
                requires
                    top == g * m,
            ;
            assert((m - 1) * g == g * (m - 1)) by (nonlinear_arith);
            assert(m * g == g * m) by (nonlinear_arith);
            assert(m - 1 >= 0) by {
                if m <= 0 {
                    assert(g * m <= 0) by (nonlinear_arith)
                        requires
                            g >= 1,
                            m <= 0,
                    ;
                }
            }
            lemma_div_by_multiple(m - 1, g);
            lemma_div_by_multiple(m, g);
        }
    } else {
        // w < top, both multiples of g, so w clears no level above top - g.
        assert(w <= top - g) by {
            assert(a < m) by {
                if a >= m {
                    assert(g * a >= g * m) by (nonlinear_arith)
                        requires
                            g >= 1,
                            a >= m,
                    ;
                }
            }
            assert(g * a <= g * (m - 1)) by (nonlinear_arith)
                requires
                    g >= 1,
                    a <= m - 1,
            ;
            assert(g * (m - 1) == g * m - g) by (nonlinear_arith);
        }
        assert(spec_levels(w, top, g) == w / g);
        assert(spec_levels(w, top - g, g) == w / g);
    }
}

/// A positive greatest common divisor divides both of its arguments.
proof fn lemma_gcd_divides(a: nat, b: nat)
    requires
        spec_gcd(a, b) > 0,
    ensures
        a as int % spec_gcd(a, b) as int == 0,
        b as int % spec_gcd(a, b) as int == 0,
    decreases b,
{
    let g = spec_gcd(a, b) as int;
    if b == 0 {
        lemma_mod_self_0(g);
        lemma_small_mod(0nat, g as nat);
    } else {
        lemma_mod_division_less_than_divisor(a as int, b as int);
        lemma_gcd_divides(b, a % b);
        lemma_fundamental_div_mod(a as int, b as int);
        let q = a as int / b as int;
        lemma_fundamental_div_mod(b as int, g);
        let k = b as int / g;
        assert(b as int == g * k);
        assert(b as int * q == (k * q) * g) by (nonlinear_arith)
            requires
                b as int == g * k,
        ;
        lemma_mod_multiples_basic(k * q, g);
        lemma_add_mod_noop(b as int * q, a as int % b as int, g);
        lemma_small_mod(0nat, g as nat);
    }
}

/// A positive greatest common divisor of a pool's weights divides every one
/// of them.
proof fn lemma_gcd_weights_divide_all(ws: Seq<u16>)
    requires
        spec_gcd_weights(ws) > 0,
    ensures
        forall|i: int|
            0 <= i < ws.len() ==> (#[trigger] ws[i]) as int % spec_gcd_weights(ws) as int == 0,
    decreases ws.len(),
{
    if ws.len() > 0 {
        let g = spec_gcd_weights(ws);
        let inner = spec_gcd_weights(ws.drop_last());
        lemma_gcd_divides(inner, ws.last() as nat);
        assert forall|i: int| 0 <= i < ws.len() implies (#[trigger] ws[i]) as int % g as int
            == 0 by {
            if i == ws.len() - 1 {
                assert(ws.last() == ws[i]);
            } else {
                if inner == 0 {
                    lemma_gcd_weights_zero(ws.drop_last());
                    assert(ws.drop_last()[i] == 0);
                    lemma_small_mod(0nat, g);
                } else {
                    lemma_gcd_weights_divide_all(ws.drop_last());
                    assert(ws.drop_last()[i] as int % inner as int == 0);
                    lemma_fundamental_div_mod(ws[i] as int, inner as int);
                    lemma_fundamental_div_mod(inner as int, g as int);
                    let q = ws[i] as int / inner as int;
                    let k = inner as int / g as int;
                    assert(ws[i] as int == (k * q) * g) by (nonlinear_arith)
                        requires
                            ws[i] as int == inner as int * q,
                            inner as int == g as int * k,
                    ;
                    lemma_mod_multiples_basic(k * q, g as int);
                }
            }
        }
    }
}

/// A nonempty pool's largest weight is one of its weights.
proof fn lemma_max_weight_is_element(ws: Seq<u16>)
    requires
        ws.len() >= 1,
    ensures
        exists|i: int| 0 <= i < ws.len() && (#[trigger] ws[i]) == spec_max_weight(ws),
    decreases ws.len(),
{
    if ws.len() == 1 {
        reveal_with_fuel(spec_max_weight, 2);
        assert(ws.last() == ws[0]);
        if spec_max_weight(ws) != ws[0] {
            assert(spec_max_weight(ws.drop_last()) == 0 && ws[0] == 0);
        }
    } else {
        lemma_max_weight_is_element(ws.drop_last());
        if ws.last() > spec_max_weight(ws.drop_last()) {
            assert(ws[ws.len() - 1] == spec_max_weight(ws));
        } else {
            let i = choose|i: int|
                0 <= i < ws.drop_last().len() && (#[trigger] ws.drop_last()[i])
                    == spec_max_weight(ws.drop_last());
            assert(ws[i] == spec_max_weight(ws));
        }
    }
}

proof fn lemma_gcd_le(a: nat, b: nat)
    ensures
        b > 0 ==> spec_gcd(a, b) <= b,
        b == 0 ==> spec_gcd(a, b) == a,
    decreases b,
{
    if b > 0 {
        lemma_mod_division_less_than_divisor(a as int, b as int);
        lemma_gcd_le(b, a % b);
    }
}

proof fn lemma_gcd_weights_le(ws: Seq<u16>)
    ensures
        spec_gcd_weights(ws) <= u16::MAX,
    decreases ws.len(),
{
    if ws.len() > 0 {
        lemma_gcd_weights_le(ws.drop_last());
        lemma_gcd_le(spec_gcd_weights(ws.drop_last()), ws.last() as nat);
    }
}

/// The count of slot `s` in the walk from state (ci, cw): one appearance per
/// weight level the backend clears, starting at level `cw` for the slots the
/// walk has not yet passed this cycle and one level lower for the rest.
proof fn lemma_wrr_from_count(ws: Seq<u16>, g: u16, ci: int, cw: u16, s: int)
    requires
        1 <= g,
        0 <= ci < ws.len(),
        ws.len() <= usize::MAX,
        0 <= s < ws.len(),
        1 <= cw,
        cw as int % g as int == 0,
        forall|i: int| 0 <= i < ws.len() ==> (#[trigger] ws[i]) as int % g as int == 0,
    ensures
        spec_count(spec_wrr_from(ws, g, ci, cw), s) == spec_levels(
            ws[s] as int,
            if s > ci {
                cw as int
            } else {
                cw as int - g as int
            },
            g as int,
        ),
    decreases cw, ws.len() - ci,
{
    let table = spec_wrr_from(ws, g, ci, cw);
    if ci + 1 < ws.len() {
        let rest = spec_wrr_from(ws, g, ci + 1, cw);
        lemma_wrr_from_count(ws, g, ci + 1, cw, s);
        if ws[ci + 1] >= cw {
            lemma_count_prepend((ci + 1) as usize, rest, s);
            assert(table == seq![(ci + 1) as usize] + rest);
        } else {
            lemma_count_prepend(0usize, rest, s);
            assert(table == Seq::<usize>::empty() + rest);
        }
        if s == ci + 1 {
            lemma_levels_step(ws[s] as int, cw as int, g as int);
        }
    } else {
        let cw2: u16 = if cw <= g {
            0u16
        } else {
            (cw - g) as u16
        };
        if cw2 == 0 {
            assert(table == Seq::<usize>::empty());
            assert(cw as int - g as int <= 0);
        } else {
            vstd::arithmetic::div_mod::lemma_mod_sub_multiples_vanish(cw as int, g as int);
            let rest = spec_wrr_from(ws, g, 0, cw2);
            lemma_wrr_from_count(ws, g, 0, cw2, s);
            if ws[0] >= cw2 {
                lemma_count_prepend(0usize, rest, s);
                assert(table == seq![0usize] + rest);
            } else {
                lemma_count_prepend(0usize, rest, s);
                assert(table == Seq::<usize>::empty() + rest);
            }
            if s == 0 {
                lemma_levels_step(ws[0] as int, cw2 as int, g as int);
            }
        }
    }
}

/// Law: weighted round robin distributes traffic in proportion to weight.
/// Over one full cycle of its table, the backend in any slot after the first
/// appears exactly `weight / g` times, where `g` is the greatest common
/// divisor of the weights — so a backend with twice the weight of another is
/// selected exactly twice as often. The walk visits the first slot from the
/// second weight level down, so that slot appears `weight / g` times as well
/// unless it carries the largest weight, in which case it cedes exactly one
/// appearance.
pub proof fn lemma_wrr_table_proportional(ws: Seq<u16>, s: int)
    requires
        1 <= ws.len() <= usize::MAX,
        0 <= s < ws.len(),
        exists|i: int| 0 <= i < ws.len() && (#[trigger] ws[i]) != spec_max_weight(ws),
    ensures
        s >= 1 ==> spec_count(spec_wrr_table(ws), s) == ws[s] as int / spec_gcd_weights(
            ws,
        ) as int,
        s == 0 ==> spec_count(spec_wrr_table(ws), 0) == spec_levels(
            ws[0] as int,
            spec_max_weight(ws) as int - spec_gcd_weights(ws) as int,
            spec_gcd_weights(ws) as int,
        ),
{
    let g = spec_gcd_weights(ws);
    let max = spec_max_weight(ws);
    let j = choose|i: int| 0 <= i < ws.len() && (#[trigger] ws[i]) != max;
    if g == 0 {
        lemma_gcd_weights_zero(ws);
        lemma_max_of_constant_seq(ws);
        assert(false);
    }
    lemma_gcd_weights_le(ws);
    lemma_gcd_weights_divide_all(ws);
    lemma_max_weight_is_element(ws);
    lemma_max_is_bound(ws);
    let m = choose|i: int| 0 <= i < ws.len() && (#[trigger] ws[i]) == max;
    assert(max as int % g as int == 0);
    assert(spec_wrr_table(ws) == spec_wrr_from(ws, g as u16, 0, max));
    lemma_wrr_from_count(ws, g as u16, 0, max, s);
    if s >= 1 {
        assert(spec_levels(ws[s] as int, max as int, g as int) == ws[s] as int / g as int) by {
            if ws[s] == 0 {
                vstd::arithmetic::div_mod::lemma_div_of0(g as int);
            }
        }
    }
}

/// Law: among the backends in slots after the first, a heavier backend is
/// selected at least as often as a lighter one over one full cycle of the
/// weighted round-robin table.
pub proof fn lemma_wrr_heavier_selected_more(ws: Seq<u16>, i: int, j: int)
    requires
        1 <= ws.len() <= usize::MAX,
        1 <= i < ws.len(),
        1 <= j < ws.len(),
        ws[i] <= ws[j],
        exists|k: int| 0 <= k < ws.len() && (#[trigger] ws[k]) != spec_max_weight(ws),
    ensures
        spec_count(spec_wrr_table(ws), i) <= spec_count(spec_wrr_table(ws), j),
{
    lemma_wrr_table_proportional(ws, i);
    lemma_wrr_table_proportional(ws, j);
    let g = spec_gcd_weights(ws);
    if g == 0 {
        lemma_gcd_weights_zero(ws);
        lemma_max_of_constant_seq(ws);
        assert(false);
    }
    lemma_div_is_ordered(ws[i] as int, ws[j] as int, g as int);
}

/// Relies on num_integer::gcd: it computes the greatest common divisor of its
/// two arguments.
#[verifier::external_body]
fn gcd_u16(a: u16, b: u16) -> (r: u16)
    ensures
        r as nat == spec_gcd(a as nat, b as nat),
{
    num_integer::gcd(a, b)
}

/// Smooth weighted round robin: a table of pool slots, precomputed so that
/// each backend appears in proportion to its weight with high- and low-weight
/// backends interleaved, walked by an incrementing cursor.
pub struct WeightedRoundRobin {
    backends: Vec<Backend>,
    weighted: Vec<usize>,
    current: usize,
}

impl WeightedRoundRobin {
    /// Every table entry is a valid pool slot.
    #[verifier::type_invariant]
    closed spec fn wf(self) -> bool {
        forall|k: int|
            0 <= k < self.weighted@.len() ==> (#[trigger] self.weighted@[k])
                < self.backends@.len()
    }

    /// The precomputed selection table.
    pub closed spec fn table(&self) -> Seq<usize> {
        self.weighted@
    }

    /// Where the cursor stands: the next call selects the table entry
    /// `rr_slot(self.cursor(), self.table().len())`.
    pub closed spec fn cursor(&self) -> nat {
        self.current as nat
    }

    /// The selection table over a pool: the smooth-weighting walk of the
    /// weights.
    fn compute_weighted(backends: &Vec<Backend>) -> (r: Vec<usize>)
        ensures
            r@ == spec_wrr_table(spec_weights(backends@)),
            forall|k: int| 0 <= k < r@.len() ==> (#[trigger] r@[k]) < backends@.len(),
    {
        let n = backends.len();
        let ghost ws = spec_weights(backends@);
        let mut weights: Vec<u16> = Vec::new();
        let mut max_weight: u16 = 0;
        let mut g: u16 = 0;
        for i in 0..n
            invariant
                n == backends@.len(),
                weights@ == ws.take(i as int),
                max_weight == spec_max_weight(weights@),
                g as nat == spec_gcd_weights(weights@),
                ws == spec_weights(backends@),
        {
            let w = backends[i].weight;
            weights.push(w);
            if w > max_weight {
                max_weight = w;
            }
            g = gcd_u16(g, w);
            proof {
                assert(weights@ =~= ws.take(i as int + 1));
                assert(weights@.drop_last() =~= ws.take(i as int));
            }
        }
        proof {
            assert(weights@ =~= ws);
        }

        let mut all_equal = true;
        for i in 0..n
            invariant
                n == weights@.len(),
                all_equal <==> (forall|j: int| 0 <= j < i ==> weights@[j] == max_weight),
        {
            if weights[i] != max_weight {
                all_equal = false;
            }
        }

        if all_equal {
            let mut r: Vec<usize> = Vec::new();
            for i in 0..n
                invariant
                    r@ == Seq::new(i as nat, |k: int| k as usize),
            {
                r.push(i);
                proof {
                    assert(r@ =~= Seq::new((i + 1) as nat, |k: int| k as usize));
                }
            }
            proof {
                assert(r@ =~= spec_wrr_table(ws));
            }
            return r;
        }

        proof {
            if g == 0 {
                lemma_gcd_weights_zero(ws);
                lemma_max_of_constant_seq(ws);
                assert(false);
            }
            lemma_max_is_bound(ws);
            let j = choose|j: int| 0 <= j < n && ws[j] != max_weight;
            assert(ws[j] <= max_weight);
        }

        let mut ci: usize = 0;
        let mut cw: u16 = max_weight;
        let mut weighted: Vec<usize> = Vec::new();
        proof {
            assert(weighted@ + spec_wrr_from(ws, g, 0int, max_weight) =~= spec_wrr_from(
                ws,
                g,
                0int,
                max_weight,
            ));
        }
        loop
            invariant_except_break
                1 <= g,
                1 <= cw <= max_weight,
                0 <= ci < n,
                n == ws.len(),
                n >= 1,
                weights@ == ws,
                weighted@ + spec_wrr_from(ws, g, ci as int, cw) == spec_wrr_from(
                    ws,
                    g,
                    0int,
                    max_weight,
                ),
            ensures
                weighted@ == spec_wrr_from(ws, g, 0int, max_weight),
            decreases cw, n - ci,
        {
            let ghost pre_ci = ci as int;
            let ghost pre_cw = cw;
            ci = ci + 1;
            if ci == n {
                ci = 0;
                cw = cw.saturating_sub(g);
                if cw == 0 {
                    proof {
                        assert(spec_wrr_from(ws, g, pre_ci, pre_cw) =~= Seq::<usize>::empty());
                        assert(weighted@ =~= spec_wrr_from(ws, g, 0int, max_weight));
                    }
                    break ;
                }
            }
            if weights[ci] >= cw {
                weighted.push(ci);
            }
            proof {
                let pushed: Seq<usize> = if ws[ci as int] >= cw {
                    seq![ci]
                } else {
                    Seq::empty()
                };
                assert(spec_wrr_from(ws, g, pre_ci, pre_cw) == pushed + spec_wrr_from(
                    ws,
                    g,
                    ci as int,
                    cw,
                ));
                assert(weighted@ + spec_wrr_from(ws, g, ci as int, cw) =~= spec_wrr_from(
                    ws,
                    g,
                    0int,
                    max_weight,
                ));
            }
        }
        proof {
            assert(weighted@ =~= spec_wrr_table(ws));
            lemma_wrr_table_bounds(ws);
        }
        weighted
    }
}

impl Strategy for WeightedRoundRobin {
    closed spec fn pool(&self) -> Seq<Backend> {
        self.backends@
    }

    open spec fn deterministic() -> bool {
        true
    }

    open spec fn next_candidate(&self) -> Option<Backend> {
        if self.pool().len() == 0 || self.table().len() == 0 {
            None
        } else {
            Some(
                self.pool()[self.table()[rr_slot(self.cursor(), self.table().len()) as int] as int],
            )
        }
    }

    closed spec fn stepped(&self) -> Self {
        if self.backends@.len() == 0 || self.weighted@.len() == 0 {
            *self
        } else {
            WeightedRoundRobin {
                backends: self.backends,
                weighted: self.weighted,
                current: self.current.wrapping_add(1),
            }
        }
    }

    open spec fn freshly_built(&self, pool: Seq<Backend>) -> bool {
        self.table() == spec_wrr_table(spec_weights(pool)) && self.cursor() == 0
    }

    fn build(backends: &Vec<Backend>) -> (s: Self) {
        let weighted = Self::compute_weighted(backends);
        WeightedRoundRobin { backends: clone_pool(backends), weighted, current: 0 }
    }

    fn get_next(&mut self) -> (r: Option<Backend>) {
        proof {
            use_type_invariant(&*self);
        }
        if self.backends.is_empty() || self.weighted.is_empty() {
            return None;
        }
        let idx = self.current % self.weighted.len();
        self.current = self.current.wrapping_add(1);
        let slot = self.weighted[idx];
        let b = self.backends[slot].clone();
        proof {
            assert(b == old(self).pool()[slot as int]);
        }
        Some(b)
    }
}

/// How one weighted round-robin call moves the cursor: one table entry
/// forward, wrapping with the machine word; an empty pool or table leaves
/// the state untouched.
pub proof fn lemma_weighted_round_robin_stepped(s: WeightedRoundRobin)
    ensures
        s.stepped().pool() == s.pool(),
        s.stepped().table() == s.table(),
        s.pool().len() == 0 || s.table().len() == 0 ==> s.stepped() == s,
        s.pool().len() > 0 && s.table().len() > 0 ==> s.stepped().cursor() == if s.cursor()
            == usize::MAX as nat {
            0nat
        } else {
            s.cursor() + 1
        },
{
}

#[verifier::external_type_specification]
#[verifier::external_body]
pub struct ExWeightedError(rand::distributions::WeightedError);

/// A weighted sampling table of rand_distr, held opaquely; Verus sees it
/// only through [`alias_table_weights`] and the functions below.
#[verifier::external_body]
pub struct AliasTable {
    inner: rand_distr::WeightedAliasIndex<u16>,
}

/// The weights a sampling table was built over.
pub uninterp spec fn alias_table_weights(t: AliasTable) -> Seq<u16>;

/// The sum of a weight vector.
pub open spec fn spec_weight_sum(ws: Seq<u16>) -> int
    decreases ws.len(),
{
    if ws.len() == 0 {
        0int
    } else {
        spec_weight_sum(ws.drop_last()) + ws.last()
    }
}

/// The weight vectors a sampling table can be built over: nonempty, no weight
/// above the table's per-slot cap, and not all weights zero.
pub open spec fn spec_alias_weights_ok(ws: Seq<u16>) -> bool {
    &&& 1 <= ws.len() <= u16::MAX
    &&& forall|i: int| 0 <= i < ws.len() ==> (#[trigger] ws[i]) as int <= u16::MAX as int / (
    ws.len() as int)
    &&& spec_weight_sum(ws) > 0
}

/// Relies on rand_distr::WeightedAliasIndex::new: it accepts exactly the
/// weight vectors that are nonempty, within the per-slot cap and not all
/// zero, and builds a sampling table over those weights.
#[verifier::external_body]
fn alias_table_new(weights: Vec<u16>) -> (r: Result<
    AliasTable,
    rand::distributions::WeightedError,
>)
    ensures
        r is Ok <==> spec_alias_weights_ok(weights@),
        r matches Ok(t) ==> alias_table_weights(t) == weights@,
{
    match rand_distr::WeightedAliasIndex::new(weights) {
        Ok(inner) => Ok(AliasTable { inner }),
        Err(e) => Err(e),
    }
}

/// Relies on rand_distr::WeightedAliasIndex sampling through
/// rand::thread_rng: every draw is a slot of the weight vector the table was
/// built over, drawn with probability proportional to its weight, so a
/// zero-weight slot is never drawn.
#[verifier::external_body]
fn alias_table_sample(t: &AliasTable) -> (r: usize)
    ensures
        r < alias_table_weights(*t).len(),
        alias_table_weights(*t)[r as int] > 0,
{
    t.inner.sample(&mut rand::thread_rng())
}

/// Weighted random selection: every call independently draws one pool slot
/// with probability proportional to its weight, from a sampling table built
/// at construction. A pool whose weights the table refuses (all zero, or
/// overflowing the table's cap) has no table and selects nothing.
pub struct WeightedRandom {
    backends: Vec<Backend>,
    table: Option<AliasTable>,
}

impl WeightedRandom {
    /// The table, when there is one, was built over exactly the pool's
    /// weights.
    #[verifier::type_invariant]
    closed spec fn wf(self) -> bool {
        self.table matches Some(t) ==> alias_table_weights(t) == spec_weights(self.backends@)
    }

    /// Whether a sampling table could be built over the pool's weights.
    pub closed spec fn has_table(&self) -> bool {
        self.table is Some
    }
}

impl Strategy for WeightedRandom {
    closed spec fn pool(&self) -> Seq<Backend> {
        self.backends@
    }

    open spec fn deterministic() -> bool {
        false
    }

    /// Unused: selection is randomized.
    open spec fn next_candidate(&self) -> Option<Backend> {
        None
    }

    /// Unused: selection is randomized and keeps no state.
    open spec fn stepped(&self) -> Self {
        *self
    }

    open spec fn freshly_built(&self, pool: Seq<Backend>) -> bool {
        self.has_table() <==> spec_alias_weights_ok(spec_weights(pool))
    }

    fn build(backends: &Vec<Backend>) -> (s: Self) {
        let n = backends.len();
        let ghost ws = spec_weights(backends@);
        let mut weights: Vec<u16> = Vec::new();
        for i in 0..n
            invariant
                n == backends@.len(),
                weights@ == ws.take(i as int),
                ws == spec_weights(backends@),
        {
            weights.push(backends[i].weight);
            proof {
                assert(weights@ =~= ws.take(i as int + 1));
            }
        }
        proof {
            assert(weights@ =~= ws);
        }
        let table = match alias_table_new(weights) {
            Ok(t) => Some(t),
            Err(_) => None,
        };
        WeightedRandom { backends: clone_pool(backends), table }
    }

    fn get_next(&mut self) -> (r: Option<Backend>)
        ensures
            *final(self) == *old(self),
            r matches Some(b) ==> exists|i: int|
                0 <= i < old(self).pool().len() && b == old(self).pool()[i] && (
                #[trigger] old(self).pool()[i]).weight > 0,
            old(self).pool().len() > 0 && old(self).has_table() ==> r is Some,
            !old(self).has_table() ==> r is None,
    {
        proof {
            use_type_invariant(&*self);
        }
        if self.backends.is_empty() {
            return None;
        }
        match &self.table {
            None => None,
            Some(t) => {
                let idx = alias_table_sample(t);
                let b = self.backends[idx].clone();
                proof {
                    assert(spec_weights(self.backends@)[idx as int] == b.weight);
                    assert(b == old(self).pool()[idx as int]);
                }
                Some(b)
            },
        }
    }
}

} // verus!
