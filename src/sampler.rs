//! Choice of distinct card positions for a spread, driven by a
//! linear-congruential generator.
use vstd::prelude::*;

use vstd::arithmetic::div_mod::lemma_add_mod_noop;
use vstd::seq_lib::seq_to_set_is_finite;
use vstd::set_lib::{lemma_int_range, lemma_len_subset, set_int_range};

verus! {

/// Multiplier of the generator.
pub const LCG_MULTIPLIER: u64 = 1103515245;

/// Increment of the generator.
pub const LCG_INCREMENT: u64 = 12345;

/// Draws tried before the lowest unused positions complete the selection: one
/// less than the number of 64-bit states. The generator has full period (its
/// increment is odd and its multiplier is one more than a multiple of four),
/// so in practice the draws always finish long before; that is not proved
/// here, and the bound only makes the loop finite.
pub const MAX_DRAWS: u64 = 18446744073709551615;

/// One step of the generator: `state * 1103515245 + 12345`, modulo 2^64.
pub open spec fn lcg_next(state: u64) -> u64 {
    ((state as int * LCG_MULTIPLIER as int + LCG_INCREMENT as int) % 0x1_0000_0000_0000_0000) as u64
}

/// `s` followed by `x`, unless `s` holds `x` already.
pub open spec fn add_new(s: Seq<usize>, x: usize) -> Seq<usize> {
    if s.contains(x) {
        s
    } else {
        s.push(x)
    }
}

/// `acc` completed up to `n` positions with the lowest positions from `j` on
/// that it does not hold yet.
pub open spec fn fill_lowest(acc: Seq<usize>, j: int, m: usize, n: usize) -> Seq<usize>
    decreases m - j,
{
    if acc.len() >= n || j >= m || j < 0 {
        acc
    } else {
        fill_lowest(add_new(acc, j as usize), j + 1, m, n)
    }
}

/// The rest of a draw: from generator state `state`, after `k` draws that
/// collected `acc`, each draw takes the next state modulo `m` and keeps it if
/// it is new, until `n` positions are held; past `MAX_DRAWS` draws the lowest
/// unused positions complete the selection.
pub open spec fn draw_from(state: u64, m: usize, n: usize, k: nat, acc: Seq<usize>) -> Seq<usize>
    decreases MAX_DRAWS - k,
{
    if acc.len() >= n {
        acc
    } else if k >= MAX_DRAWS || m == 0 {
        fill_lowest(acc, 0, m, n)
    } else {
        let next = lcg_next(state);
        draw_from(next, m, n, k + 1, add_new(acc, (next % m as u64) as usize))
    }
}

/// The generator's state after `k` steps from `seed`.
pub open spec fn lcg_iter(seed: u64, k: nat) -> u64
    decreases k,
{
    if k == 0 {
        seed
    } else {
        lcg_next(lcg_iter(seed, (k - 1) as nat))
    }
}

/// The distinct positions among the first `k` draws, in the order they first
/// came up; draw `i` (from one) is the `i`-th state modulo `m`.
pub open spec fn distinct_draws(seed: u64, m: usize, k: nat) -> Seq<usize>
    decreases k,
{
    if k == 0 || m == 0 {
        Seq::empty()
    } else {
        add_new(distinct_draws(seed, m, (k - 1) as nat), (lcg_iter(seed, k) % m as u64) as usize)
    }
}

/// The positions that `sample` picks for seed `seed`.
pub open spec fn sample_of(n: usize, m: usize, seed: u64) -> Seq<usize> {
    draw_from(seed, m, n, 0, Seq::empty())
}

/// All elements lie in `[0, m)`.
pub open spec fn below(s: Seq<usize>, m: usize) -> bool {
    forall|i: int| 0 <= i < s.len() ==> #[trigger] s[i] < m
}

proof fn lemma_add_new(s: Seq<usize>, x: usize, m: usize)
    requires
        s.no_duplicates(),
        below(s, m),
        x < m,
    ensures
        add_new(s, x).no_duplicates(),
        below(add_new(s, x), m),
        add_new(s, x).len() <= s.len() + 1,
        add_new(s, x).len() >= s.len(),
{
    if !s.contains(x) {
        let t = s.push(x);
        assert forall|a: int, b: int| 0 <= a < t.len() && 0 <= b < t.len() && a != b implies t[a]
            != t[b] by {
            if a == s.len() {
                assert(t[b] == s[b]);
                assert(s.contains(s[b]));
            } else if b == s.len() {
                assert(t[a] == s[a]);
                assert(s.contains(s[a]));
            }
        }
    }
}

/// A duplicate-free sequence of positions below `m` that holds every position
/// below `j` has at least `j` elements.
proof fn lemma_covering_len(s: Seq<usize>, j: int)
    requires
        s.no_duplicates(),
        0 <= j <= usize::MAX,
        forall|x: int| 0 <= x < j ==> #[trigger] s.contains(x as usize),
    ensures
        s.len() >= j,
{
    let ints = s.map_values(|x: usize| x as int);
    assert(ints.no_duplicates()) by {
        assert forall|a: int, b: int| 0 <= a < ints.len() && 0 <= b < ints.len() && a != b implies ints[a]
            != ints[b] by {
            assert(s[a] != s[b]);
        }
    }
    ints.unique_seq_to_set();
    lemma_int_range(0, j);
    assert(set_int_range(0, j).subset_of(ints.to_set())) by {
        assert forall|x: int| set_int_range(0, j).contains(x) implies ints.to_set().contains(x) by {
            assert(s.contains(x as usize));
            let k = choose|k: int| 0 <= k < s.len() && s[k] == x as usize;
            assert(ints[k] == x);
        }
    }
    seq_to_set_is_finite(ints);
    lemma_len_subset(set_int_range(0, j), ints.to_set());
}

proof fn lemma_fill_lowest(acc: Seq<usize>, j: int, m: usize, n: usize)
    requires
        acc.no_duplicates(),
        below(acc, m),
        0 <= j <= m,
        n <= m,
        acc.len() <= n,
        forall|x: int| 0 <= x < j ==> #[trigger] acc.contains(x as usize),
    ensures
        fill_lowest(acc, j, m, n).len() == n,
        fill_lowest(acc, j, m, n).no_duplicates(),
        below(fill_lowest(acc, j, m, n), m),
    decreases m - j,
{
    if acc.len() >= n {
    } else if j >= m {
        lemma_covering_len(acc, m as int);
    } else {
        let next = add_new(acc, j as usize);
        lemma_add_new(acc, j as usize, m);
        assert forall|x: int| 0 <= x < j + 1 implies #[trigger] next.contains(x as usize) by {
            if x < j {
                assert(acc.contains(x as usize));
                let k = choose|k: int| 0 <= k < acc.len() && acc[k] == x as usize;
                assert(next[k] == x as usize);
            } else if !acc.contains(j as usize) {
                assert(next[acc.len() as int] == j as usize);
            }
        }
        lemma_fill_lowest(next, j + 1, m, n);
    }
}

proof fn lemma_draw_from(state: u64, m: usize, n: usize, k: nat, acc: Seq<usize>)
    requires
        1 <= n <= m,
        acc.no_duplicates(),
        below(acc, m),
        acc.len() <= n,
        k <= MAX_DRAWS,
    ensures
        draw_from(state, m, n, k, acc).len() == n,
        draw_from(state, m, n, k, acc).no_duplicates(),
        below(draw_from(state, m, n, k, acc), m),
    decreases MAX_DRAWS - k,
{
    if acc.len() >= n {
    } else if k >= MAX_DRAWS {
        lemma_fill_lowest(acc, 0, m, n);
    } else {
        let next = lcg_next(state);
        let x = (next % m as u64) as usize;
        lemma_add_new(acc, x, m);
        lemma_draw_from(next, m, n, k + 1, add_new(acc, x));
    }
}

/// The selection holds exactly `n` distinct positions, each below `m`.
pub proof fn lemma_sample_distinct(n: usize, m: usize, seed: u64)
    requires
        1 <= n <= m,
    ensures
        sample_of(n, m, seed).len() == n,
        sample_of(n, m, seed).no_duplicates(),
        below(sample_of(n, m, seed), m),
{
    lemma_draw_from(seed, m, n, 0, Seq::empty());
}

proof fn lemma_distinct_draws_prefix(seed: u64, m: usize, k1: nat, k2: nat)
    requires
        k1 <= k2,
    ensures
        distinct_draws(seed, m, k1).len() <= distinct_draws(seed, m, k2).len(),
        distinct_draws(seed, m, k2).take(distinct_draws(seed, m, k1).len() as int)
            == distinct_draws(seed, m, k1),
    decreases k2 - k1,
{
    if k1 < k2 {
        lemma_distinct_draws_prefix(seed, m, k1, (k2 - 1) as nat);
        let a = distinct_draws(seed, m, k1);
        let b = distinct_draws(seed, m, (k2 - 1) as nat);
        let c = distinct_draws(seed, m, k2);
        if m != 0 {
            assert(c.take(b.len() as int) =~= b);
            assert(c.take(a.len() as int) =~= b.take(a.len() as int));
        }
    } else {
        let a = distinct_draws(seed, m, k1);
        assert(a.take(a.len() as int) =~= a);
    }
}

proof fn lemma_draw_from_first_n(seed: u64, m: usize, n: usize, k: nat, big: nat)
    requires
        1 <= n <= m,
        k <= big <= MAX_DRAWS,
        distinct_draws(seed, m, k).len() <= n,
        distinct_draws(seed, m, big).len() >= n,
    ensures
        draw_from(lcg_iter(seed, k), m, n, k, distinct_draws(seed, m, k)) == distinct_draws(
            seed,
            m,
            big,
        ).take(n as int),
    decreases MAX_DRAWS - k,
{
    let acc = distinct_draws(seed, m, k);
    lemma_distinct_draws_prefix(seed, m, k, big);
    if acc.len() >= n {
    } else if k >= MAX_DRAWS {
    } else {
        if k == big {
        } else {
            assert(lcg_iter(seed, k + 1) == lcg_next(lcg_iter(seed, k)));
            assert(distinct_draws(seed, m, k + 1) == add_new(
                acc,
                (lcg_next(lcg_iter(seed, k)) % m as u64) as usize,
            ));
            lemma_draw_from_first_n(seed, m, n, k + 1, big);
        }
    }
}

/// The selection is the first `n` distinct positions that the draws bring up,
/// in that order.
pub proof fn lemma_sample_first_distinct(n: usize, m: usize, seed: u64, k: nat)
    requires
        1 <= n <= m,
        k <= MAX_DRAWS,
        distinct_draws(seed, m, k).len() >= n,
    ensures
        sample_of(n, m, seed) == distinct_draws(seed, m, k).take(n as int),
{
    assert(distinct_draws(seed, m, 0) =~= Seq::<usize>::empty());
    lemma_draw_from_first_n(seed, m, n, 0, k);
}

fn step(state: u64) -> (r: u64)
    ensures
        r == lcg_next(state),
{
    let r = state.wrapping_mul(LCG_MULTIPLIER).wrapping_add(LCG_INCREMENT);
    proof {
        let p = state as int * LCG_MULTIPLIER as int;
        lemma_add_mod_noop(p, LCG_INCREMENT as int, 0x1_0000_0000_0000_0000);
    }
    r
}

fn holds(v: &Vec<usize>, x: usize) -> (r: bool)
    ensures
        r == v@.contains(x),
{
    let n = v.len();
    let mut i: usize = 0;
    while i < n
        invariant
            n == v@.len(),
            i <= n,
            forall|k: int| 0 <= k < i ==> v@[k] != x,
        decreases n - i,
    {
        if v[i] == x {
            return true;
        }
        i = i + 1;
    }
    false
}

fn push_new(v: &mut Vec<usize>, x: usize)
    ensures
        final(v)@ == add_new(old(v)@, x),
{
    if !holds(v, x) {
        v.push(x);
    }
}

/// Picks `n` distinct positions in `[0, m)` by rejection sampling, in draw
/// order. The generator starts from `seed`; each draw advances it and takes
/// the new state modulo `m`.
pub fn sample(n: usize, m: usize, seed: u64) -> (r: Vec<usize>)
    requires
        1 <= n <= m,
    ensures
        r@ == sample_of(n, m, seed),
        forall|k: nat|
            k <= MAX_DRAWS && #[trigger] distinct_draws(seed, m, k).len() >= n ==> r@
                == distinct_draws(seed, m, k).take(n as int),
        r@.len() == n,
        r@.no_duplicates(),
        below(r@, m),
{
    proof {
        lemma_sample_distinct(n, m, seed);
        assert forall|k: nat|
            k <= MAX_DRAWS && #[trigger] distinct_draws(seed, m, k).len() >= n implies sample_of(
            n,
            m,
            seed,
        ) == distinct_draws(seed, m, k).take(n as int) by {
            lemma_sample_first_distinct(n, m, seed, k);
        }
    }
    let mut acc: Vec<usize> = Vec::new();
    let mut state = seed;
    let mut k: u64 = 0;
    while acc.len() < n && k < MAX_DRAWS
        invariant
            1 <= n <= m,
            k <= MAX_DRAWS,
            draw_from(state, m, n, k as nat, acc@) == sample_of(n, m, seed),
        decreases MAX_DRAWS - k,
    {
        state = step(state);
        let x = (state % (m as u64)) as usize;
        push_new(&mut acc, x);
        k = k + 1;
    }
    if acc.len() < n {
        let mut j: usize = 0;
        while acc.len() < n && j < m
            invariant
                1 <= n <= m,
                j <= m,
                k == MAX_DRAWS,
                fill_lowest(acc@, j as int, m, n) == sample_of(n, m, seed),
            decreases m - j,
        {
            push_new(&mut acc, j);
            j = j + 1;
        }
    }
    acc
}

} // verus!
