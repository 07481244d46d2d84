use vstd::prelude::*;
use crate::location::Location;
use crate::rng::{SplitMix64, state_after, nth_draw, lemma_next_draw};
use crate::selection::{
    selects, is_best_fit, swap_removed, first_solution, second_solution,
    third_solution, fourth_solution,
};

verus! {

/// Number of competing strategies.
pub const NUM_STRATEGIES: usize = 4;

/// The four best-fit strategies under comparison.
#[derive(Debug, Clone, Copy, PartialEq, Eq, Structural)]
pub enum Strategy {
    First,
    FilterSwapRemove,
    Fold,
    ForLoop,
}

/// Position of a strategy in the order First, FilterSwapRemove, Fold, ForLoop.
pub open spec fn strategy_index(st: Strategy) -> int {
    match st {
        Strategy::First => 0,
        Strategy::FilterSwapRemove => 1,
        Strategy::Fold => 2,
        Strategy::ForLoop => 3,
    }
}

impl Strategy {
    /// Position of the strategy, as `strategy_index` gives it.
    pub fn index(self) -> (r: usize)
        ensures
            r == strategy_index(self),
    {
        match self {
            Strategy::First => 0,
            Strategy::FilterSwapRemove => 1,
            Strategy::Fold => 2,
            Strategy::ForLoop => 3,
        }
    }

    /// Runs this strategy on `free_blocks`. Every strategy selects the best
    /// fit; `First` rebuilds the list without the winner, order kept, the
    /// others swap-remove the winner.
    pub fn run(self, free_blocks: &mut Vec<Location>, alloc: u64) -> (r: Option<Location>)
        ensures
            selects(old(free_blocks)@, alloc, r),
            r is None ==> final(free_blocks)@ == old(free_blocks)@,
            self is First ==> (r is Some ==> exists|i: int|
                #[trigger] is_best_fit(old(free_blocks)@, alloc, i) && final(free_blocks)@
                    == old(free_blocks)@.remove(i)),
            self !is First ==> (r is Some ==> exists|i: int|
                #[trigger] is_best_fit(old(free_blocks)@, alloc, i) && final(free_blocks)@
                    == swap_removed(old(free_blocks)@, i)),
    {
        match self {
            Strategy::First => first_solution(free_blocks, alloc),
            Strategy::FilterSwapRemove => second_solution(free_blocks, alloc),
            Strategy::Fold => third_solution(free_blocks, alloc),
            Strategy::ForLoop => fourth_solution(free_blocks, alloc),
        }
    }
}

/// Every strategy appears in `order` exactly once.
pub open spec fn is_strategy_order(order: Seq<Strategy>) -> bool {
    &&& order.len() == NUM_STRATEGIES
    &&& forall|j: int, k: int| 0 <= j < k < order.len() ==> order[j] != order[k]
    &&& forall|st: Strategy| #[trigger] order.contains(st)
}

/// The strategies in their fixed order.
pub open spec fn initial_order() -> Seq<Strategy> {
    seq![Strategy::First, Strategy::FilterSwapRemove, Strategy::Fold, Strategy::ForLoop]
}

/// `s` with the entries at `i` and `j` exchanged.
pub open spec fn swapped(s: Seq<Strategy>, i: int, j: int) -> Seq<Strategy> {
    s.update(i, s[j]).update(j, s[i])
}

/// The order after `n` steps of the shuffle from `seed`: step `t` exchanges
/// position `3 - t` with position `nth_draw(seed, t) % (4 - t)`.
pub open spec fn shuffle_steps(seed: u64, n: nat) -> Seq<Strategy>
    decreases n,
{
    if n == 0 {
        initial_order()
    } else {
        let t = (n - 1) as nat;
        let i = NUM_STRATEGIES - 1 - t;
        swapped(shuffle_steps(seed, t), i, (nth_draw(seed, t) % ((i + 1) as u64)) as int)
    }
}

/// The order that `execution_order` gives from a generator in state `seed`.
pub open spec fn shuffled(seed: u64) -> Seq<Strategy> {
    shuffle_steps(seed, (NUM_STRATEGIES - 1) as nat)
}

/// A shuffled order in which to run the strategies (Fisher-Yates, three
/// draws of `rng`), so that no strategy always runs first.
pub fn execution_order(rng: &mut SplitMix64) -> (r: Vec<Strategy>)
    ensures
        r@ == shuffled(old(rng).state),
        is_strategy_order(r@),
        final(rng).state == state_after(old(rng).state, 3),
{
    let ghost seed = rng.state;
    let mut order: Vec<Strategy> = vec![
        Strategy::First,
        Strategy::FilterSwapRemove,
        Strategy::Fold,
        Strategy::ForLoop,
    ];
    proof {
        assert(order@ =~= initial_order());
        assert forall|st: Strategy| #[trigger] order@.contains(st) by {
            let k = strategy_index(st);
            assert(order@[k] == st);
        }
    }
    let mut i: usize = NUM_STRATEGIES - 1;
    while i > 0
        invariant
            i < NUM_STRATEGIES,
            order@ == shuffle_steps(seed, (NUM_STRATEGIES - 1 - i) as nat),
            is_strategy_order(order@),
            rng.state == state_after(seed, (NUM_STRATEGIES - 1 - i) as nat),
        decreases i,
    {
        proof {
            reveal_with_fuel(state_after, 2);
            lemma_next_draw(seed, (NUM_STRATEGIES - 1 - i) as nat);
        }
        let j: usize = (rng.next_u64() % (i as u64 + 1)) as usize;
        let a = order[i];
        let b = order[j];
        let ghost before = order@;
        order[i] = b;
        order[j] = a;
        proof {
            assert(order@ == before.update(i as int, b).update(j as int, a));
            assert(order@ == swapped(before, i as int, j as int));
            assert forall|st: Strategy| #[trigger] order@.contains(st) by {
                assert(before.contains(st));
                let p = choose|p: int| 0 <= p < before.len() && before[p] == st;
                if p == i {
                    assert(order@[j as int] == st);
                } else if p == j {
                    assert(order@[i as int] == st);
                } else {
                    assert(order@[p] == st);
                }
            }
        }
        i -= 1;
    }
    order
}

/// Whether two results are the same block, or both absent.
pub fn same_answer(a: Option<Location>, b: Option<Location>) -> (r: bool)
    ensures
        r == (a == b),
{
    match (a, b) {
        (Some(x), Some(y)) => x == y,
        (None, None) => true,
        _ => false,
    }
}

/// Whether all results equal the first one.
pub fn all_agree(answers: &Vec<Option<Location>>) -> (r: bool)
    ensures
        r == forall|k: int| 0 <= k < answers@.len() ==> #[trigger] answers@[k] == answers@[0],
{
    let mut k: usize = 1;
    while k < answers.len()
        invariant
            1 <= k,
            answers@.len() > 0 ==> k <= answers@.len(),
            forall|m: int| 0 <= m < k && m < answers@.len() ==> #[trigger] answers@[m] == answers@[0],
        decreases answers@.len() - k,
    {
        if !same_answer(answers[k], answers[0]) {
            return false;
        }
        k += 1;
    }
    true
}

} // verus!
