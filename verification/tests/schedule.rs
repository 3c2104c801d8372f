use ashmaize_solver::schedule::{
    advance, usable_gpu_count, batch_step, cpu_walk, effective_mode, first_good_hash, gpu_walk, mixed_cpu_start_nonce,
    mixed_gpu_walk, plan_solver, walk_step, NonceWalk, SolverMode, SolverPlan, WalkStep,
    NUM_THREADS,
};

#[test]
fn cpu_walks_start_at_thread_offset() {
    assert_eq!(cpu_walk(0, 3), NonceWalk { next_nonce: 3, stride: NUM_THREADS });
    assert_eq!(mixed_cpu_start_nonce(2), 3_000_000_000);
    assert_eq!(cpu_walk(mixed_cpu_start_nonce(1), 4).next_nonce, 2_000_000_004);
}

#[test]
fn cpu_threads_cover_every_nonce_once() {
    let mut seen = vec![0u32; 100];
    for t in 0..NUM_THREADS {
        let mut w = cpu_walk(0, t);
        while w.next_nonce < 100 {
            seen[w.next_nonce as usize] += 1;
            match walk_step(&w, &[0xff, 0xff, 0xff, 0xff], 0) {
                WalkStep::Continue(next) => w = next,
                WalkStep::Found(_) => panic!("no hash can meet the empty mask"),
            }
        }
    }
    assert!(seen.iter().all(|&c| c == 1));
}

#[test]
fn gpu_walks_partition_nonces() {
    let (gpus, batch) = (3u64, 4u64);
    let mut seen = vec![0u32; 120];
    for g in 0..gpus {
        let mut w = gpu_walk(g, gpus, batch);
        while w.next_nonce < 120 {
            for i in 0..batch {
                seen[(w.next_nonce + i) as usize] += 1;
            }
            w = NonceWalk { next_nonce: w.next_nonce + w.stride, stride: w.stride };
        }
    }
    assert!(seen.iter().all(|&c| c == 1));
    assert_eq!(gpu_walk(2, 3, 4), NonceWalk { next_nonce: 8, stride: 12 });
    assert_eq!(mixed_gpu_walk(1, 1024), NonceWalk { next_nonce: 2_000_000, stride: 1024 });
}

#[test]
fn walk_step_finds_or_moves_on() {
    let w = NonceWalk { next_nonce: 10, stride: 5 };
    assert_eq!(walk_step(&w, &[0, 0, 0, 1], 0xff), WalkStep::Found(10));
    assert_eq!(
        walk_step(&w, &[1, 0, 0, 0], 0xff),
        WalkStep::Continue(NonceWalk { next_nonce: 15, stride: 5 })
    );
}

#[test]
fn batch_step_reports_first_winner() {
    let mut hashes = vec![[0xffu8; 64]; 6];
    hashes[3] = [0u8; 64];
    hashes[5] = [0u8; 64];
    assert_eq!(first_good_hash(&hashes, 0x00ff_ffff), Some(3));
    let w = NonceWalk { next_nonce: 1000, stride: 600 };
    assert_eq!(batch_step(&w, &hashes, 0x00ff_ffff), WalkStep::Found(1003));
    let misses = vec![[0xffu8; 64]; 6];
    assert_eq!(first_good_hash(&misses, 0x00ff_ffff), None);
    assert_eq!(
        batch_step(&w, &misses, 0x00ff_ffff),
        WalkStep::Continue(NonceWalk { next_nonce: 1600, stride: 600 })
    );
}

#[test]
fn solver_plans() {
    assert_eq!(effective_mode(SolverMode::Cpu, true), SolverMode::Gpu);
    assert_eq!(effective_mode(SolverMode::Mixed, false), SolverMode::Mixed);
    assert_eq!(plan_solver(SolverMode::Cpu, true, true), SolverPlan::Cpu);
    assert_eq!(plan_solver(SolverMode::Gpu, true, false), SolverPlan::GpuOptimized);
    assert_eq!(plan_solver(SolverMode::Gpu, false, false), SolverPlan::Gpu);
    assert_eq!(plan_solver(SolverMode::Auto, true, false), SolverPlan::Cpu);
    assert_eq!(plan_solver(SolverMode::Auto, true, true), SolverPlan::GpuOptimized);
    assert_eq!(plan_solver(SolverMode::Auto, false, true), SolverPlan::Gpu);
    assert_eq!(plan_solver(SolverMode::Mixed, true, false), SolverPlan::MixedOptimized);
    assert_eq!(plan_solver(SolverMode::Mixed, false, false), SolverPlan::Mixed);
}

#[test]
fn gpu_fallback_and_advance() {
    assert_eq!(usable_gpu_count(true, Some(2)), Some(2));
    assert_eq!(usable_gpu_count(true, Some(0)), None);
    assert_eq!(usable_gpu_count(false, Some(2)), None);
    assert_eq!(usable_gpu_count(true, None), None);
    assert_eq!(advance(&NonceWalk { next_nonce: 7, stride: 9 }), NonceWalk { next_nonce: 16, stride: 9 });
}
