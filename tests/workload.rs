use best_fit::driver::{all_agree, execution_order, same_answer, Strategy};
use best_fit::location::Location;
use best_fit::rng::SplitMix64;
use best_fit::selection::{first_solution, fourth_solution, second_solution, third_solution};
use best_fit::workload::{allocation_target, block_length, create_free_blocks, FREE_BLOCKS_SIZE};

#[test]
fn splitmix_known_outputs() {
    let mut rng = SplitMix64::new(0);
    assert_eq!(rng.next_u64(), 0xE220_A839_7B1D_CDAF);
    assert_eq!(rng.next_u64(), 0x6E78_9E6A_A1B9_65F4);
    assert_eq!(rng.next_u64(), 0x06C4_5D18_8009_454F);
    assert_eq!(rng.state, 0x9E37_79B9_7F4A_7C15u64.wrapping_mul(3));
}

#[test]
fn same_seed_same_workload() {
    let (a, ma) = create_free_blocks(&mut SplitMix64::new(99));
    let (b, mb) = create_free_blocks(&mut SplitMix64::new(99));
    assert_eq!(a, b);
    assert_eq!(ma, mb);
}

#[test]
fn block_length_values() {
    assert_eq!(block_length(0), 2);
    assert_eq!(block_length(1), 4);
    assert_eq!(block_length(3), 16);
    assert_eq!(block_length(7), 256);
    assert_eq!(block_length(8), 2);
    assert_eq!(block_length(15), 256);
    assert_eq!(block_length(u64::MAX), 256);
}

#[test]
fn generated_workloads_are_packed() {
    for seed in 0..1000u64 {
        let mut rng = SplitMix64::new(seed.wrapping_mul(0x1234_5678_9ABC_DEF1));
        let (blocks, max_length) = create_free_blocks(&mut rng);
        assert!(blocks.len() >= 10);
        assert!((blocks.len() as u64) < 10 + FREE_BLOCKS_SIZE);
        let mut addr = 0u64;
        let mut seen_max = 0u64;
        for b in &blocks {
            assert_eq!(b.address, addr);
            assert!(b.length.is_power_of_two() && (2..=256).contains(&b.length));
            addr += b.length;
            seen_max = seen_max.max(b.length);
        }
        assert_eq!(seen_max, max_length);
    }
}

#[test]
fn workload_count_follows_first_draw() {
    let seed = 7u64;
    let first = SplitMix64::new(seed).next_u64();
    let mut rng = SplitMix64::new(seed);
    let (blocks, _) = create_free_blocks(&mut rng);
    assert_eq!(blocks.len() as u64, first % FREE_BLOCKS_SIZE + 10);
    let mut replay = SplitMix64::new(seed);
    replay.next_u64();
    for b in &blocks {
        assert_eq!(b.length, block_length(replay.next_u64()));
    }
    assert_eq!(replay, rng);
}

#[test]
fn allocation_target_is_below_max() {
    let mut rng = SplitMix64::new(5);
    for max in [1u64, 2, 3, 100, 256] {
        let expected = rng.clone().next_u64() % max;
        let t = allocation_target(&mut rng, max);
        assert_eq!(t, expected);
        assert!(t < max);
    }
}

#[test]
fn strategies_agree_on_generated_workloads() {
    let mut rng = SplitMix64::new(2024);
    for _ in 0..200 {
        let (blocks, max_length) = create_free_blocks(&mut rng);
        let alloc = allocation_target(&mut rng, max_length);
        let mut answers = Vec::new();
        for f in [first_solution, second_solution, third_solution, fourth_solution] {
            let mut work = blocks.clone();
            let r = f(&mut work, alloc);
            let b = r.expect("a block fits");
            assert!(b.length >= alloc);
            assert_eq!(work.len(), blocks.len() - 1);
            assert!(work.iter().all(|w| w.address != b.address));
            answers.push(r);
        }
        assert!(all_agree(&answers));
        let min_fit = blocks.iter().filter(|b| b.length >= alloc).map(|b| b.length).min();
        assert_eq!(answers[0].map(|b| b.length), min_fit);
    }
}

#[test]
fn execution_order_is_a_permutation() {
    let mut rng = SplitMix64::new(11);
    let mut firsts = [0u32; 4];
    for _ in 0..400 {
        let order = execution_order(&mut rng);
        assert_eq!(order.len(), 4);
        let mut idx: Vec<usize> = order.iter().map(|s| s.index()).collect();
        firsts[idx[0]] += 1;
        idx.sort();
        assert_eq!(idx, vec![0, 1, 2, 3]);
    }
    assert!(firsts.iter().all(|&n| n > 0));
    let a = execution_order(&mut SplitMix64::new(3));
    let b = execution_order(&mut SplitMix64::new(3));
    assert_eq!(a, b);
    assert!(a.contains(&Strategy::Fold));
}

#[test]
fn execution_order_follows_the_draws() {
    for seed in [0u64, 1, 42, 0xDEAD_BEEF] {
        let mut draws = SplitMix64::new(seed);
        let mut expected = vec![
            Strategy::First,
            Strategy::FilterSwapRemove,
            Strategy::Fold,
            Strategy::ForLoop,
        ];
        for i in (1..4usize).rev() {
            let j = (draws.next_u64() % (i as u64 + 1)) as usize;
            expected.swap(i, j);
        }
        let mut rng = SplitMix64::new(seed);
        assert_eq!(execution_order(&mut rng), expected);
        assert_eq!(rng, draws);
    }
}

#[test]
fn agreement_checks() {
    let x = Some(Location::new(0, 2));
    let y = Some(Location::new(2, 2));
    assert!(same_answer(x, x));
    assert!(!same_answer(x, y));
    assert!(!same_answer(x, None));
    assert!(same_answer(None, None));
    assert!(all_agree(&vec![x, x, x, x]));
    assert!(!all_agree(&vec![x, x, y, x]));
    assert!(!all_agree(&vec![x, None]));
    assert!(all_agree(&Vec::new()));
}
