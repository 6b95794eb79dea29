use vstd::prelude::*;

verus! {

/// Bytes in one MiB.
pub const MIB: usize = 1048576;

/// Whether `k` workers are within the corpus curve `0.0818598 * n^(1/3)`.
pub open spec fn worker_fits(k: int, n: int) -> bool {
    k * k * k * 1_000_000_000_000_000_000_000 <= 818598 * 818598 * 818598 * n
}

/// Whether `m` MiB per worker are within the corpus curve
/// `0.41268 * n^(2/3)`, with corpora above 2^32 counted as 2^32.
pub open spec fn mem_fits(m: int, n: int) -> bool {
    let c = if n > 0x1_0000_0000 {
        0x1_0000_0000
    } else {
        n
    };
    m * m * m * 1_000_000_000_000_000 <= 41268 * 41268 * 41268 * (c * c)
}

/// Whether `k` workers fit and one more would not.
pub open spec fn is_worker_curve(k: int, n: int) -> bool {
    0 <= k && worker_fits(k, n) && !worker_fits(k + 1, n)
}

/// Whether `m` MiB fit and one more would not, or `m` is the ceiling.
pub open spec fn is_mem_curve(m: int, n: int) -> bool {
    0 <= m <= 2000 && mem_fits(m, n) && (m == 2000 || !mem_fits(m + 1, n))
}

/// The worker curve: the most workers that fit.
pub open spec fn worker_curve(n: int) -> int {
    choose|k: int| #[trigger] is_worker_curve(k, n)
}

/// The memory curve in MiB, at most 2000: the most that fits.
pub open spec fn mem_curve(n: int) -> int {
    choose|m: int| #[trigger] is_mem_curve(m, n)
}

/// How many workers index a corpus of `n` messages on `cpus` logical
/// processors: the corpus curve, capped at `cpus / 1.5`, and at least one.
pub open spec fn workers_for(n: int, cpus: int) -> int {
    let cap = (2 * cpus) / 3;
    let w = if worker_curve(n) < cap {
        worker_curve(n)
    } else {
        cap
    };
    if w < 1 {
        1
    } else {
        w
    }
}

/// The memory budget of one worker, in bytes: without memory facts a fixed
/// 400 MiB; otherwise the least of a fair share of the available memory, the
/// corpus curve (at least 200 MiB) and 2000 MiB.
pub open spec fn mem_for(n: int, available_kib: Option<u64>, workers: int) -> int {
    match available_kib {
        None => 400 * MIB,
        Some(kib) => {
            let share = (kib * 1024) / (workers + 1);
            let curve = if mem_curve(n) < 200 {
                200 * MIB
            } else {
                mem_curve(n) * MIB
            };
            let a = if share < curve {
                share
            } else {
                curve
            };
            if a < 2000 * MIB {
                a
            } else {
                2000 * MIB
            }
        },
    }
}

proof fn lemma_cube_monotone(a: int, b: int)
    requires
        0 <= a <= b,
    ensures
        a * a * a <= b * b * b,
{
    assert(a * a <= b * b) by (nonlinear_arith)
        requires
            0 <= a <= b,
    ;
    assert(a * a * a <= b * b * b) by (nonlinear_arith)
        requires
            0 <= a <= b,
            a * a <= b * b,
    ;
}

proof fn lemma_worker_fits_down(a: int, b: int, n: int)
    requires
        0 <= a <= b,
        worker_fits(b, n),
    ensures
        worker_fits(a, n),
{
    lemma_cube_monotone(a, b);
    assert(a * a * a * 1_000_000_000_000_000_000_000 <= b * b * b * 1_000_000_000_000_000_000_000)
        by (nonlinear_arith)
        requires
            a * a * a <= b * b * b,
    ;
}

proof fn lemma_worker_curve_exists_from(k: int, n: int)
    requires
        0 <= k <= 262144,
        0 <= n < 0x1_0000_0000_0000_0000,
        worker_fits(k, n),
    ensures
        exists|j: int| #[trigger] is_worker_curve(j, n),
    decreases 262144 - k,
{
    if !worker_fits(k + 1, n) {
        assert(is_worker_curve(k, n));
    } else if k == 262144 {
        assert(262145int * 262145 * 262145 * 1_000_000_000_000_000_000_000 > 818598int * 818598
            * 818598 * 0x1_0000_0000_0000_0000);
        assert(818598int * 818598 * 818598 * n <= 818598int * 818598 * 818598
            * 0x1_0000_0000_0000_0000) by (nonlinear_arith)
            requires
                n < 0x1_0000_0000_0000_0000,
        ;
    } else {
        lemma_worker_curve_exists_from(k + 1, n);
    }
}

/// The worker curve is the one count that fits while one more does not.
proof fn lemma_worker_curve(n: int, k: int)
    requires
        0 <= n < 0x1_0000_0000_0000_0000,
        0 <= k,
        worker_fits(k, n),
        !worker_fits(k + 1, n),
    ensures
        worker_curve(n) == k,
{
    lemma_worker_curve_exists_from(0, n);
    assert(is_worker_curve(k, n));
    let c = worker_curve(n);
    if c < k {
        lemma_worker_fits_down(c + 1, k, n);
    } else if c > k {
        lemma_worker_fits_down(k + 1, c, n);
    }
}

proof fn lemma_mem_fits_down(a: int, b: int, n: int)
    requires
        0 <= a <= b,
        mem_fits(b, n),
    ensures
        mem_fits(a, n),
{
    lemma_cube_monotone(a, b);
    assert(a * a * a * 1_000_000_000_000_000 <= b * b * b * 1_000_000_000_000_000) by (nonlinear_arith)
        requires
            a * a * a <= b * b * b,
    ;
}

/// The memory curve is the one amount that fits while one more does not, or
/// the ceiling.
proof fn lemma_mem_curve(n: int, m: int)
    requires
        0 <= m <= 2000,
        mem_fits(m, n),
        m == 2000 || !mem_fits(m + 1, n),
    ensures
        mem_curve(n) == m,
{
    assert(is_mem_curve(m, n));
    let c = mem_curve(n);
    if c < m {
        if c != 2000 {
            lemma_mem_fits_down(c + 1, m, n);
        }
    } else if c > m {
        lemma_mem_fits_down(m + 1, c, n);
    }
}

/// The worker curve never falls as the corpus grows.
proof fn lemma_worker_curve_monotone(n1: int, n2: int)
    requires
        0 <= n1 <= n2 < 0x1_0000_0000_0000_0000,
    ensures
        0 <= worker_curve(n1) <= worker_curve(n2),
{
    lemma_worker_curve_exists_from(0, n1);
    lemma_worker_curve_exists_from(0, n2);
    let c1 = worker_curve(n1);
    let c2 = worker_curve(n2);
    assert(is_worker_curve(c1, n1));
    assert(is_worker_curve(c2, n2));
    assert(818598int * 818598 * 818598 * n1 <= 818598int * 818598 * 818598 * n2) by (nonlinear_arith)
        requires
            n1 <= n2,
    ;
    assert(worker_fits(c1, n2));
    if c1 > c2 {
        lemma_worker_fits_down(c2 + 1, c1, n2);
    }
}

/// Worker counts never fall as the corpus grows, for the same host; and where
/// `cpus / 1.5` allows at least one worker, they never exceed it.
pub proof fn lemma_workers_monotone(n1: int, n2: int, cpus: int)
    requires
        0 <= n1 < n2 < 0x1_0000_0000_0000_0000,
        0 <= cpus,
    ensures
        workers_for(n1, cpus) <= workers_for(n2, cpus),
        (2 * cpus) / 3 >= 1 ==> workers_for(n1, cpus) <= (2 * cpus) / 3,
        (2 * cpus) / 3 >= 1 ==> workers_for(n2, cpus) <= (2 * cpus) / 3,
{
    lemma_worker_curve_monotone(n1, n2);
}

/// The worker curve, found by bisection.
fn curve_workers(n: usize) -> (r: usize)
    ensures
        r as int == worker_curve(n as int),
{
    let nn = n as u128;
    let mut lo: u128 = 0;
    let mut hi: u128 = 262144;
    assert(818598u128 * 818598 * 818598 * nn <= 818598u128 * 818598 * 818598
        * 0xffff_ffff_ffff_ffff) by (nonlinear_arith)
        requires
            nn <= 0xffff_ffff_ffff_ffff,
    ;
    assert(!worker_fits(262144, n as int));
    while hi - lo > 1
        invariant
            lo < hi <= 262144,
            nn == n,
            worker_fits(lo as int, n as int),
            !worker_fits(hi as int, n as int),
            818598u128 * 818598 * 818598 * nn <= 818598u128 * 818598 * 818598 * 0xffff_ffff_ffff_ffff,
        decreases hi - lo,
    {
        let mid = lo + (hi - lo) / 2;
        assert(mid * mid <= 262144u128 * 262144 && mid * mid * mid <= 262144u128 * 262144 * 262144)
            by (nonlinear_arith)
            requires
                mid <= 262144,
        ;
        let fits = mid * mid * mid * 1_000_000_000_000_000_000_000u128 <= 818598u128 * 818598 * 818598
            * nn;
        if fits {
            lo = mid;
        } else {
            hi = mid;
        }
    }
    proof {
        lemma_worker_curve(n as int, lo as int);
    }
    lo as usize
}

/// The memory curve in MiB, found by bisection.
fn curve_mem_mib(n: usize) -> (r: usize)
    ensures
        r as int == mem_curve(n as int),
        r <= 2000,
{
    let c: u128 = if n as u128 > 0x1_0000_0000 {
        0x1_0000_0000
    } else {
        n as u128
    };
    assert(c * c <= 0x1_0000_0000u128 * 0x1_0000_0000) by (nonlinear_arith)
        requires
            c <= 0x1_0000_0000,
    ;
    assert(41268u128 * 41268 * 41268 * (c * c) <= 41268u128 * 41268 * 41268 * (0x1_0000_0000u128
        * 0x1_0000_0000)) by (nonlinear_arith)
        requires
            c * c <= 0x1_0000_0000u128 * 0x1_0000_0000,
    ;
    let rhs: u128 = 41268u128 * 41268 * 41268 * (c * c);
    if 2000u128 * 2000 * 2000 * 1_000_000_000_000_000u128 <= rhs {
        proof {
            lemma_mem_curve(n as int, 2000);
        }
        return 2000;
    }
    let mut lo: u128 = 0;
    let mut hi: u128 = 2000;
    while hi - lo > 1
        invariant
            lo < hi <= 2000,
            rhs == 41268 * 41268 * 41268 * (c * c),
            c == if n > 0x1_0000_0000 {
                0x1_0000_0000
            } else {
                n as u128
            },
            mem_fits(lo as int, n as int),
            !mem_fits(hi as int, n as int),
        decreases hi - lo,
    {
        let mid = lo + (hi - lo) / 2;
        assert(mid * mid <= 2000u128 * 2000 && mid * mid * mid <= 2000u128 * 2000 * 2000)
            by (nonlinear_arith)
            requires
                mid <= 2000,
        ;
        if mid * mid * mid * 1_000_000_000_000_000u128 <= rhs {
            lo = mid;
        } else {
            hi = mid;
        }
    }
    proof {
        lemma_mem_curve(n as int, lo as int);
    }
    lo as usize
}

/// The size of an indexing writer: how many workers, and how many bytes of
/// memory each.
#[derive(Debug, PartialEq, Eq, Structural, Clone, Copy)]
pub struct Sizing {
    pub workers: usize,
    pub mem_per_worker: usize,
}

/// Sizes the indexing writer for a corpus of `corpus_hint` messages, given
/// the available memory in KiB (when known) and the logical processors.
pub fn size(corpus_hint: usize, available_memory_kib: Option<u64>, logical_cpus: usize) -> (r: Sizing)
    ensures
        r.workers as int == workers_for(corpus_hint as int, logical_cpus as int),
        r.mem_per_worker as int == mem_for(corpus_hint as int, available_memory_kib, r.workers as int),
{
    let cap: usize = ((logical_cpus as u128 * 2) / 3) as usize;
    let curve = curve_workers(corpus_hint);
    let w0 = if curve < cap {
        curve
    } else {
        cap
    };
    let workers = if w0 < 1 {
        1
    } else {
        w0
    };
    let mem = match available_memory_kib {
        None => 400 * MIB,
        Some(kib) => {
            let share: u128 = (kib as u128 * 1024) / (workers as u128 + 1);
            let m = curve_mem_mib(corpus_hint);
            let curve_bytes: u128 = if m < 200 {
                200 * MIB as u128
            } else {
                m as u128 * MIB as u128
            };
            let a = if share < curve_bytes {
                share
            } else {
                curve_bytes
            };
            let b = if a < 2000 * MIB as u128 {
                a
            } else {
                2000 * MIB as u128
            };
            b as usize
        },
    };
    Sizing { workers, mem_per_worker: mem }
}

/// Relies on num_cpus::get: the logical processors this process may use,
/// never fewer than one.
#[verifier::external_body]
pub(crate) fn logical_cpus() -> (r: usize)
    ensures
        r >= 1,
{
    num_cpus::get()
}

/// Relies on sys_info::mem_info: the memory available now, in KiB, when the
/// host reports it.
#[verifier::external_body]
pub(crate) fn available_memory_kib() -> (r: Option<u64>) {
    sys_info::mem_info().ok().map(|m| m.avail)
}

} // verus!
