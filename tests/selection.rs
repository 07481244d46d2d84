use best_fit::driver::Strategy;
use best_fit::location::Location;
use best_fit::selection::{first_solution, fourth_solution, second_solution, third_solution};

type StrategyFn = fn(&mut Vec<Location>, u64) -> Option<Location>;

const ALL: [(&str, StrategyFn); 4] = [
    ("first", first_solution),
    ("second", second_solution),
    ("third", third_solution),
    ("fourth", fourth_solution),
];

fn sorted(mut v: Vec<Location>) -> Vec<(u64, u64)> {
    v.sort_by_key(|b| b.address);
    v.into_iter().map(|b| (b.address, b.length)).collect()
}

#[test]
fn location_new_keeps_fields() {
    let b = Location::new(12, 34);
    assert_eq!(b.address, 12);
    assert_eq!(b.length, 34);
    assert_eq!(b, Location { address: 12, length: 34 });
}

#[test]
fn three_block_scenario_picks_first_minimal() {
    let list = vec![Location::new(0, 2), Location::new(2, 4), Location::new(6, 2)];
    for (name, f) in ALL {
        let mut work = list.clone();
        let r = f(&mut work, 2);
        assert_eq!(r, Some(Location::new(0, 2)), "{name}");
        assert_eq!(sorted(work), vec![(2, 4), (6, 2)], "{name}");
    }
}

#[test]
fn target_above_every_block_is_not_found() {
    let list = vec![Location::new(0, 2), Location::new(2, 4), Location::new(6, 2)];
    for (name, f) in ALL {
        let mut work = list.clone();
        assert_eq!(f(&mut work, 5), None, "{name}");
        assert_eq!(work, list, "{name}");
    }
}

#[test]
fn empty_list_is_not_found() {
    for (name, f) in ALL {
        let mut work: Vec<Location> = Vec::new();
        assert_eq!(f(&mut work, 0), None, "{name}");
        assert!(work.is_empty());
    }
}

#[test]
fn equal_minimal_lengths_go_to_the_first() {
    let list = vec![
        Location::new(0, 8),
        Location::new(8, 4),
        Location::new(12, 2),
        Location::new(14, 16),
        Location::new(30, 4),
        Location::new(34, 4),
    ];
    for (name, f) in ALL {
        let mut work = list.clone();
        let r = f(&mut work, 3);
        assert_eq!(r, Some(Location::new(8, 4)), "{name}");
        assert_eq!(
            sorted(work),
            vec![(0, 8), (12, 2), (14, 16), (30, 4), (34, 4)],
            "{name}"
        );
    }
}

#[test]
fn smallest_fitting_block_wins_over_earlier_larger_ones() {
    let list = vec![
        Location::new(0, 256),
        Location::new(256, 32),
        Location::new(288, 2),
        Location::new(290, 16),
        Location::new(306, 64),
    ];
    for (name, f) in ALL {
        let mut work = list.clone();
        assert_eq!(f(&mut work, 10), Some(Location::new(290, 16)), "{name}");
        assert_eq!(work.len(), 4, "{name}");
    }
}

#[test]
fn swap_remove_strategies_move_the_last_block_into_the_gap() {
    let list = vec![
        Location::new(0, 8),
        Location::new(8, 2),
        Location::new(10, 4),
        Location::new(14, 32),
    ];
    for f in [second_solution as StrategyFn, third_solution, fourth_solution] {
        let mut work = list.clone();
        assert_eq!(f(&mut work, 3), Some(Location::new(10, 4)));
        assert_eq!(
            work,
            vec![Location::new(0, 8), Location::new(8, 2), Location::new(14, 32)]
        );
    }
    let mut work = list.clone();
    assert_eq!(first_solution(&mut work, 1), Some(Location::new(8, 2)));
    assert_eq!(
        work,
        vec![Location::new(0, 8), Location::new(10, 4), Location::new(14, 32)]
    );
}

#[test]
fn first_solution_removes_only_the_winner_at_a_shared_address() {
    let list = vec![Location::new(4, 8), Location::new(0, 2), Location::new(4, 16)];
    let mut work = list.clone();
    assert_eq!(first_solution(&mut work, 3), Some(Location::new(4, 8)));
    assert_eq!(work, vec![Location::new(0, 2), Location::new(4, 16)]);
}

#[test]
fn repeated_address_loses_exactly_one_block() {
    let list = vec![Location::new(0, 2), Location::new(0, 4)];
    for (name, f) in ALL {
        let mut work = list.clone();
        assert_eq!(f(&mut work, 1), Some(Location::new(0, 2)), "{name}");
        assert_eq!(work, vec![Location::new(0, 4)], "{name}");
    }
}

#[test]
fn zero_target_takes_the_shortest_block() {
    let list = vec![Location::new(0, 4), Location::new(4, 2), Location::new(6, 8)];
    for (name, f) in ALL {
        let mut work = list.clone();
        assert_eq!(f(&mut work, 0), Some(Location::new(4, 2)), "{name}");
    }
}

#[test]
fn largest_lengths_are_selected() {
    let list = vec![Location::new(0, u64::MAX), Location::new(1, u64::MAX - 1)];
    for (name, f) in ALL {
        let mut work = list.clone();
        assert_eq!(f(&mut work, u64::MAX), Some(Location::new(0, u64::MAX)), "{name}");
        assert_eq!(work, vec![Location::new(1, u64::MAX - 1)], "{name}");
    }
}

#[test]
fn strategy_run_dispatches_to_each_strategy() {
    let list = vec![Location::new(0, 2), Location::new(2, 4), Location::new(6, 2)];
    for st in [
        Strategy::First,
        Strategy::FilterSwapRemove,
        Strategy::Fold,
        Strategy::ForLoop,
    ] {
        let mut work = list.clone();
        assert_eq!(st.run(&mut work, 3), Some(Location::new(2, 4)));
        assert_eq!(sorted(work), vec![(0, 2), (6, 2)]);
    }
    assert_eq!(Strategy::First.index(), 0);
    assert_eq!(Strategy::FilterSwapRemove.index(), 1);
    assert_eq!(Strategy::Fold.index(), 2);
    assert_eq!(Strategy::ForLoop.index(), 3);
}
