//! How the nonce space is walked by CPU threads and GPUs, and which solver
//! runs for a given mode.

use vstd::prelude::*;
use vstd::arithmetic::div_mod::{lemma_fundamental_div_mod, lemma_fundamental_div_mod_converse};
use crate::difficulty::{meets_difficulty, hash_structure_good};

verus! {

/// Number of CPU threads that search side by side.
pub const NUM_THREADS: u64 = 5;

/// Default number of nonces hashed per GPU batch.
pub const OPTIMAL_BATCH_PER_GPU: usize = 131072;

/// Distance between the nonce ranges handed to the CPU threads and to
/// the GPUs of the mixed solver.
pub const MIXED_RANGE_STEP: u64 = 1_000_000;

/// Offset of the CPU threads' nonces in the mixed solver, per GPU plus one.
pub const MIXED_CPU_RANGE_STEP: u64 = 1_000_000_000;

/// A searcher's position in the nonce space: the next nonce (or first
/// nonce of the next batch) it tests, and how far it moves after a miss.
#[derive(Clone, Copy, PartialEq, Eq, Structural, Debug)]
pub struct NonceWalk {
    pub next_nonce: u64,
    pub stride: u64,
}

/// What a searcher does after the hash of its current nonce (or batch) is
/// known.
#[derive(Clone, Copy, PartialEq, Eq, Structural, Debug)]
pub enum WalkStep {
    /// The nonce whose hash meets the difficulty.
    Found(u64),
    /// No hash met the difficulty; the searcher moves on.
    Continue(NonceWalk),
}

/// The walk of CPU thread `thread_id` when the threads start at
/// `start_nonce`: it tests `start_nonce + thread_id`, then every
/// `NUM_THREADS`-th nonce after it.
pub fn cpu_walk(start_nonce: u64, thread_id: u64) -> (walk: NonceWalk)
    requires
        start_nonce + thread_id <= u64::MAX,
    ensures
        walk.next_nonce == start_nonce + thread_id,
        walk.stride == NUM_THREADS,
{
    NonceWalk { next_nonce: start_nonce + thread_id, stride: NUM_THREADS }
}

/// The first nonce of the CPU threads of the mixed solver with `gpu_count`
/// GPUs: `(gpu_count + 1) * 10^9`.
pub fn mixed_cpu_start_nonce(gpu_count: u64) -> (start: u64)
    requires
        (gpu_count + 1) * MIXED_CPU_RANGE_STEP <= u64::MAX,
    ensures
        start == (gpu_count + 1) * MIXED_CPU_RANGE_STEP,
{
    (gpu_count + 1) * MIXED_CPU_RANGE_STEP
}

/// The walk of GPU `gpu_id` out of `gpu_count` when each hashes batches of
/// `batch_size` nonces: batch `r` of GPU `g` starts at
/// `g * batch_size + r * batch_size * gpu_count`.
pub fn gpu_walk(gpu_id: u64, gpu_count: u64, batch_size: u64) -> (walk: NonceWalk)
    requires
        gpu_id * batch_size <= u64::MAX,
        batch_size * gpu_count <= u64::MAX,
    ensures
        walk.next_nonce == gpu_id * batch_size,
        walk.stride == batch_size * gpu_count,
{
    NonceWalk { next_nonce: gpu_id * batch_size, stride: batch_size * gpu_count }
}

/// The walk of GPU `gpu_id` in the mixed solver with pre-allocated buffers:
/// it starts at `(gpu_id + 1) * 10^6` and moves one batch at a time.
pub fn mixed_gpu_walk(gpu_id: u64, batch_size: u64) -> (walk: NonceWalk)
    requires
        (gpu_id + 1) * MIXED_RANGE_STEP <= u64::MAX,
    ensures
        walk.next_nonce == (gpu_id + 1) * MIXED_RANGE_STEP,
        walk.stride == batch_size,
{
    NonceWalk { next_nonce: (gpu_id + 1) * MIXED_RANGE_STEP, stride: batch_size }
}

/// Advances a single-nonce walk once the hash of `walk.next_nonce` is
/// known: the nonce is found when the hash meets the difficulty, and the
/// walk moves one stride on otherwise.
pub fn walk_step(walk: &NonceWalk, hash: &[u8], difficulty_mask: u32) -> (step: WalkStep)
    requires
        meets_difficulty(hash@, difficulty_mask) || walk.next_nonce + walk.stride <= u64::MAX,
    ensures
        meets_difficulty(hash@, difficulty_mask) ==> step == WalkStep::Found(walk.next_nonce),
        !meets_difficulty(hash@, difficulty_mask) ==> step == WalkStep::Continue(
            NonceWalk { next_nonce: (walk.next_nonce + walk.stride) as u64, stride: walk.stride },
        ),
{
    if hash_structure_good(hash, difficulty_mask) {
        WalkStep::Found(walk.next_nonce)
    } else {
        WalkStep::Continue(NonceWalk { next_nonce: walk.next_nonce + walk.stride, stride: walk.stride })
    }
}

/// Moves a walk one stride on without a result, as after a failed batch.
pub fn advance(walk: &NonceWalk) -> (next: NonceWalk)
    requires
        walk.next_nonce + walk.stride <= u64::MAX,
    ensures
        next == (NonceWalk { next_nonce: (walk.next_nonce + walk.stride) as u64, stride: walk.stride }),
{
    NonceWalk { next_nonce: walk.next_nonce + walk.stride, stride: walk.stride }
}

/// The number of GPUs to drive, given whether the driver could be
/// initialised and the device count it reported (`None` when counting
/// failed); `None` means falling back to the CPU.
pub fn usable_gpu_count(driver_ready: bool, device_count: Option<usize>) -> (n: Option<usize>)
    ensures
        n == (match device_count {
            Some(c) => if driver_ready && c > 0 {
                Some(c)
            } else {
                None
            },
            None => None,
        }),
{
    match device_count {
        Some(c) => {
            if driver_ready && c > 0 {
                Some(c)
            } else {
                None
            }
        },
        None => None,
    }
}

/// `i` is the first position of `hashes` whose hash meets the difficulty.
pub open spec fn is_first_good(hashes: Seq<[u8; 64]>, difficulty_mask: u32, i: int) -> bool {
    &&& 0 <= i < hashes.len()
    &&& meets_difficulty(hashes[i]@, difficulty_mask)
    &&& forall|j: int| 0 <= j < i ==> !meets_difficulty(#[trigger] hashes[j]@, difficulty_mask)
}

/// No hash of `hashes` meets the difficulty.
pub open spec fn none_good(hashes: Seq<[u8; 64]>, difficulty_mask: u32) -> bool {
    forall|j: int| 0 <= j < hashes.len() ==> !meets_difficulty(#[trigger] hashes[j]@, difficulty_mask)
}

/// The position of the first hash of a batch that meets the difficulty.
pub fn first_good_hash(hashes: &Vec<[u8; 64]>, difficulty_mask: u32) -> (found: Option<usize>)
    ensures
        match found {
            Some(i) => is_first_good(hashes@, difficulty_mask, i as int),
            None => none_good(hashes@, difficulty_mask),
        },
        found is None <==> forall|j: int|
            0 <= j < hashes.len() ==> !meets_difficulty(#[trigger] hashes@[j]@, difficulty_mask),
        found matches Some(i) ==> i < hashes.len() && meets_difficulty(hashes@[i as int]@, difficulty_mask)
            && forall|j: int| 0 <= j < i ==> !meets_difficulty(#[trigger] hashes@[j]@, difficulty_mask),
{
    let mut i: usize = 0;
    while i < hashes.len()
        invariant
            i <= hashes.len(),
            forall|j: int| 0 <= j < i ==> !meets_difficulty(#[trigger] hashes@[j]@, difficulty_mask),
        decreases hashes.len() - i,
    {
        if hash_structure_good(hashes[i].as_slice(), difficulty_mask) {
            return Some(i);
        }
        i = i + 1;
    }
    None
}

/// Advances a batch walk once the hashes of the batch starting at
/// `walk.next_nonce` are known (`hashes[i]` being that of
/// `walk.next_nonce + i`): the first nonce of the batch whose hash meets the
/// difficulty is found, and the walk moves one stride on when there is none.
pub fn batch_step(walk: &NonceWalk, hashes: &Vec<[u8; 64]>, difficulty_mask: u32) -> (step: WalkStep)
    requires
        forall|i: int| is_first_good(hashes@, difficulty_mask, i) ==> walk.next_nonce + i <= u64::MAX,
        none_good(hashes@, difficulty_mask) ==> walk.next_nonce + walk.stride <= u64::MAX,
    ensures
        forall|i: int|
            is_first_good(hashes@, difficulty_mask, i) ==> step == WalkStep::Found(
                (walk.next_nonce + i) as u64,
            ),
        none_good(hashes@, difficulty_mask) ==> step == WalkStep::Continue(
            NonceWalk { next_nonce: (walk.next_nonce + walk.stride) as u64, stride: walk.stride },
        ),
        step matches WalkStep::Found(n) ==> walk.next_nonce <= n < walk.next_nonce + hashes.len()
            && meets_difficulty(hashes@[n - walk.next_nonce]@, difficulty_mask)
            && forall|j: int| 0 <= j < n - walk.next_nonce ==> !meets_difficulty(#[trigger] hashes@[j]@, difficulty_mask),
        step matches WalkStep::Continue(_) ==> forall|j: int|
            0 <= j < hashes.len() ==> !meets_difficulty(#[trigger] hashes@[j]@, difficulty_mask),
{
    match first_good_hash(hashes, difficulty_mask) {
        Some(i) => {
            assert(is_first_good(hashes@, difficulty_mask, i as int));
            proof {
                assert forall|k: int| is_first_good(hashes@, difficulty_mask, k) implies k == i by {
                    if k < i {
                        assert(!meets_difficulty(hashes@[k]@, difficulty_mask));
                    } else if k > i {
                        assert(!meets_difficulty(hashes@[i as int]@, difficulty_mask));
                    }
                }
            }
            WalkStep::Found(walk.next_nonce + i as u64)
        },
        None => {
            WalkStep::Continue(NonceWalk { next_nonce: walk.next_nonce + walk.stride, stride: walk.stride })
        },
    }
}

/// Appending a hash to a batch: the extended batch has no winner exactly
/// when the batch had none and the new hash misses too.
pub proof fn lemma_none_good_push(hashes: Seq<[u8; 64]>, h: [u8; 64], difficulty_mask: u32)
    ensures
        none_good(hashes.push(h), difficulty_mask) <==> (none_good(hashes, difficulty_mask)
            && !meets_difficulty(h@, difficulty_mask)),
{
    let ext = hashes.push(h);
    assert(ext[hashes.len() as int] == h);
    if none_good(hashes, difficulty_mask) && !meets_difficulty(h@, difficulty_mask) {
        assert forall|j: int| 0 <= j < ext.len() implies !meets_difficulty(
            #[trigger] ext[j]@,
            difficulty_mask,
        ) by {
            if j < hashes.len() {
                assert(ext[j] == hashes[j]);
            }
        }
    }
    if none_good(ext, difficulty_mask) {
        assert forall|j: int| 0 <= j < hashes.len() implies !meets_difficulty(
            #[trigger] hashes[j]@,
            difficulty_mask,
        ) by {
            assert(ext[j] == hashes[j]);
        }
    }
}

/// Appending a hash to a batch: the appended hash is the first winner of
/// the extended batch exactly when it meets the difficulty and the batch
/// before it had no winner; earlier first winners stay first winners.
pub proof fn lemma_first_good_push(hashes: Seq<[u8; 64]>, h: [u8; 64], difficulty_mask: u32, i: int)
    ensures
        is_first_good(hashes.push(h), difficulty_mask, hashes.len() as int) <==> (none_good(
            hashes,
            difficulty_mask,
        ) && meets_difficulty(h@, difficulty_mask)),
        0 <= i < hashes.len() ==> (is_first_good(hashes.push(h), difficulty_mask, i)
            <==> is_first_good(hashes, difficulty_mask, i)),
{
    let ext = hashes.push(h);
    let n = hashes.len() as int;
    assert(ext[n] == h);
    assert forall|j: int| 0 <= j < n implies (meets_difficulty(#[trigger] ext[j]@, difficulty_mask)
        <==> meets_difficulty(hashes[j]@, difficulty_mask)) by {
        assert(ext[j] == hashes[j]);
    }
    if none_good(hashes, difficulty_mask) && meets_difficulty(h@, difficulty_mask) {
        assert forall|j: int| 0 <= j < n implies !meets_difficulty(#[trigger] ext[j]@, difficulty_mask) by {
            assert(!meets_difficulty(hashes[j]@, difficulty_mask));
        }
    }
    if is_first_good(ext, difficulty_mask, n) {
        assert forall|j: int| 0 <= j < n implies !meets_difficulty(#[trigger] hashes[j]@, difficulty_mask) by {
            assert(!meets_difficulty(ext[j]@, difficulty_mask));
        }
    }
    if 0 <= i < n {
        if is_first_good(ext, difficulty_mask, i) {
            assert(meets_difficulty(hashes[i]@, difficulty_mask));
            assert forall|j: int| 0 <= j < i implies !meets_difficulty(#[trigger] hashes[j]@, difficulty_mask) by {
                assert(!meets_difficulty(ext[j]@, difficulty_mask));
            }
        }
        if is_first_good(hashes, difficulty_mask, i) {
            assert(meets_difficulty(ext[i]@, difficulty_mask));
            assert forall|j: int| 0 <= j < i implies !meets_difficulty(#[trigger] ext[j]@, difficulty_mask) by {
                assert(!meets_difficulty(hashes[j]@, difficulty_mask));
            }
        }
    }
}

/// The last hash of a batch is its first winner when it meets the
/// difficulty and no hash before it does.
pub proof fn lemma_last_hash_can_win(hashes: Seq<[u8; 64]>, difficulty_mask: u32)
    requires
        hashes.len() > 0,
        meets_difficulty(hashes[hashes.len() - 1]@, difficulty_mask),
        forall|j: int| 0 <= j < hashes.len() - 1 ==> !meets_difficulty(#[trigger] hashes[j]@, difficulty_mask),
    ensures
        is_first_good(hashes, difficulty_mask, hashes.len() - 1),
        !none_good(hashes, difficulty_mask),
{
}

/// Every batch has either no winner or exactly one first winner.
pub proof fn lemma_first_good_unique(hashes: Seq<[u8; 64]>, difficulty_mask: u32, i: int, k: int)
    ensures
        is_first_good(hashes, difficulty_mask, i) && is_first_good(hashes, difficulty_mask, k) ==> i == k,
        is_first_good(hashes, difficulty_mask, i) ==> !none_good(hashes, difficulty_mask),
{
    if is_first_good(hashes, difficulty_mask, i) && is_first_good(hashes, difficulty_mask, k) {
        if i < k {
            assert(!meets_difficulty(hashes[i]@, difficulty_mask));
        } else if k < i {
            assert(!meets_difficulty(hashes[k]@, difficulty_mask));
        }
    }
}

/// The `k`-th nonce tested by CPU thread `t` when the threads start at `start`.
pub open spec fn cpu_thread_nonce(start: nat, t: nat, k: nat) -> nat {
    start + t + NUM_THREADS as nat * k
}

/// The CPU threads split the nonces from `start` on between them: each such
/// nonce is tested by exactly one thread, at exactly one step.
pub proof fn lemma_cpu_threads_partition(start: nat, n: nat, t: nat, k: nat)
    requires
        n >= start,
    ensures
        (n - start) % (NUM_THREADS as int) < NUM_THREADS,
        n == cpu_thread_nonce(
            start,
            ((n - start) % (NUM_THREADS as int)) as nat,
            ((n - start) / (NUM_THREADS as int)) as nat,
        ),
        t < NUM_THREADS && n == cpu_thread_nonce(start, t, k) ==> t == (n - start) % (
        NUM_THREADS as int) && k == (n - start) / (NUM_THREADS as int),
{
    let m = n - start;
    lemma_fundamental_div_mod(m, NUM_THREADS as int);
    if t < NUM_THREADS && n == cpu_thread_nonce(start, t, k) {
        lemma_fundamental_div_mod_converse(m, NUM_THREADS as int, k as int, t as int);
    }
}

/// The nonce tested at position `i` of batch `r` by GPU `g` out of
/// `gpu_count`, with batches of `batch_size` nonces.
pub open spec fn gpu_batch_nonce(batch_size: nat, gpu_count: nat, g: nat, r: nat, i: nat) -> nat {
    g * batch_size + r * (batch_size * gpu_count) + i
}

/// The GPUs split the nonce space between them: every nonce is tested by
/// exactly one GPU, in exactly one batch, at exactly one position.
pub proof fn lemma_gpu_batches_partition(
    batch_size: nat,
    gpu_count: nat,
    n: nat,
    g: nat,
    r: nat,
    i: nat,
)
    requires
        batch_size > 0,
        gpu_count > 0,
    ensures
        n == gpu_batch_nonce(
            batch_size,
            gpu_count,
            ((n / batch_size) % gpu_count) as nat,
            ((n / batch_size) / gpu_count) as nat,
            n % batch_size,
        ),
        g < gpu_count && i < batch_size && n == gpu_batch_nonce(batch_size, gpu_count, g, r, i)
            ==> g == (n / batch_size) % gpu_count && r == (n / batch_size) / gpu_count && i == n
            % batch_size,
{
    let b = batch_size as int;
    let c = gpu_count as int;
    let q = n as int / b;
    lemma_fundamental_div_mod(n as int, b);
    lemma_fundamental_div_mod(q, c);
    assert(q >= 0) by (nonlinear_arith)
        requires
            q == n as int / b,
            b > 0,
            n >= 0,
    ;
    let g0 = q % c;
    let r0 = q / c;
    assert(gpu_batch_nonce(batch_size, gpu_count, g0 as nat, r0 as nat, n % batch_size)
        == g0 * b + r0 * (b * c) + n as int % b);
    assert(g0 * b + r0 * (b * c) == (c * r0 + g0) * b) by (nonlinear_arith);
    assert(q == c * r0 + g0);
    assert(n == b * q + n as int % b);
    assert(b * q == q * b) by (nonlinear_arith);
    if g < gpu_count && i < batch_size && n == gpu_batch_nonce(batch_size, gpu_count, g, r, i) {
        assert(g * b + r * (b * c) + i == (r * c + g) * b + i) by (nonlinear_arith);
        lemma_fundamental_div_mod_converse(n as int, b, (r * c + g) as int, i as int);
        lemma_fundamental_div_mod_converse(q, c, r as int, g as int);
    }
}

/// The solver modes offered on the command line.
#[derive(Clone, Copy, PartialEq, Eq, Structural, Debug)]
pub enum SolverMode {
    Cpu,
    Gpu,
    Auto,
    Mixed,
}

/// The solver that runs.
#[derive(Clone, Copy, PartialEq, Eq, Structural, Debug)]
pub enum SolverPlan {
    /// CPU threads only.
    Cpu,
    /// All GPUs, allocating buffers for every batch.
    Gpu,
    /// All GPUs, with buffers allocated once.
    GpuOptimized,
    /// CPU threads and all GPUs, allocating buffers for every batch.
    Mixed,
    /// CPU threads and all GPUs, with buffers allocated once.
    MixedOptimized,
}

/// The mode in effect: the `use_gpu` flag forces GPU mode.
pub fn effective_mode(mode: SolverMode, use_gpu: bool) -> (m: SolverMode)
    ensures
        m == (if use_gpu { SolverMode::Gpu } else { mode }),
{
    if use_gpu {
        SolverMode::Gpu
    } else {
        mode
    }
}

/// The GPU solver chosen by the `optimized` flag.
pub open spec fn gpu_plan(optimized: bool) -> SolverPlan {
    if optimized {
        SolverPlan::GpuOptimized
    } else {
        SolverPlan::Gpu
    }
}

/// Chooses the solver for `mode`. `gpu_available` (a GPU could be
/// initialised and at least one device was counted) is only consulted in
/// automatic mode, which falls back to the CPU without one.
pub fn plan_solver(mode: SolverMode, optimized: bool, gpu_available: bool) -> (plan: SolverPlan)
    ensures
        plan == match mode {
            SolverMode::Cpu => SolverPlan::Cpu,
            SolverMode::Gpu => gpu_plan(optimized),
            SolverMode::Auto => if gpu_available {
                gpu_plan(optimized)
            } else {
                SolverPlan::Cpu
            },
            SolverMode::Mixed => if optimized {
                SolverPlan::MixedOptimized
            } else {
                SolverPlan::Mixed
            },
        },
{
    let gpu = if optimized {
        SolverPlan::GpuOptimized
    } else {
        SolverPlan::Gpu
    };
    match mode {
        SolverMode::Cpu => SolverPlan::Cpu,
        SolverMode::Gpu => gpu,
        SolverMode::Auto => {
            if gpu_available {
                gpu
            } else {
                SolverPlan::Cpu
            }
        },
        SolverMode::Mixed => {
            if optimized {
                SolverPlan::MixedOptimized
            } else {
                SolverPlan::Mixed
            }
        },
    }
}

} // verus!
