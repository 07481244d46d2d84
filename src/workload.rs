use vstd::prelude::*;
use vstd::arithmetic::power2::{pow2, lemma_pow2_unfold, lemma_pow2_strictly_increases, lemma2_to64};
use crate::location::Location;
use crate::selection::addresses_distinct;
use crate::rng::{SplitMix64, state_after, nth_draw, lemma_next_draw};

verus! {

/// Block lengths are `2^e` with `1 <= e <= MAX_POW2_FREE_SIZE`.
pub const MAX_POW2_FREE_SIZE: u64 = 8;

/// Bound on the number of blocks of a workload, beyond the ten it always has.
pub const FREE_BLOCKS_SIZE: u64 = 16384;

/// How many blocks a workload whose first draw is `draw` holds.
pub open spec fn block_count_of(draw: u64) -> int {
    draw % FREE_BLOCKS_SIZE + 10
}

/// The length of the block that `draw` picks.
pub open spec fn block_length_of(draw: u64) -> int {
    pow2((draw % MAX_POW2_FREE_SIZE + 1) as nat) as int
}

/// Sum of the lengths of the first `n` blocks of `s`.
pub open spec fn total_length(s: Seq<Location>, n: int) -> int
    decreases n,
{
    if n <= 0 || n > s.len() {
        0
    } else {
        total_length(s, n - 1) + s[n - 1].length
    }
}

/// Every block starts where the blocks before it end: no gaps, no overlap.
pub open spec fn is_packed(s: Seq<Location>) -> bool {
    forall|i: int| 0 <= i < s.len() ==> (#[trigger] s[i]).address == total_length(s, i)
}

/// The length of the block that `draw` picks: a power of two from 2 to 256.
pub fn block_length(draw: u64) -> (r: u64)
    ensures
        r == block_length_of(draw),
        2 <= r <= 256,
{
    let e: u64 = draw % MAX_POW2_FREE_SIZE + 1;
    let mut p: u64 = 1;
    let mut j: u64 = 0;
    proof {
        lemma2_to64();
    }
    while j < e
        invariant
            j <= e <= 8,
            p == pow2(j as nat),
        decreases e - j,
    {
        proof {
            lemma_pow2_strictly_increases(j as nat, 8);
            lemma2_to64();
            lemma_pow2_unfold((j + 1) as nat);
        }
        p = p * 2;
        j += 1;
    }
    proof {
        lemma2_to64();
        if e < 8 {
            lemma_pow2_strictly_increases(e as nat, 8);
        }
        lemma_pow2_strictly_increases(0, e as nat);
    }
    p
}

/// Builds a packed free list from draws of `rng`: the first draw fixes how
/// many blocks there are, each further draw the length of the next block.
/// Returns the list and its largest block length.
pub fn create_free_blocks(rng: &mut SplitMix64) -> (r: (Vec<Location>, u64))
    ensures
        ({
            let seed = old(rng).state;
            let s = r.0@;
            &&& s.len() == block_count_of(nth_draw(seed, 0))
            &&& 10 <= s.len() < 10 + FREE_BLOCKS_SIZE
            &&& forall|i: int| 0 <= i < s.len() ==> (#[trigger] s[i]).length == block_length_of(nth_draw(seed, (i + 1) as nat))
            &&& is_packed(s)
            &&& forall|i: int| 0 <= i < s.len() ==> (#[trigger] s[i]).length <= r.1
            &&& exists|i: int| 0 <= i < s.len() && (#[trigger] s[i]).length == r.1
            &&& final(rng).state == state_after(seed, (s.len() + 1) as nat)
        }),
{
    let ghost seed = rng.state;
    proof {
        lemma_next_draw(seed, 0);
    }
    let count: u64 = rng.next_u64() % FREE_BLOCKS_SIZE + 10;
    let mut result: Vec<Location> = Vec::new();
    let mut curr_addr: u64 = 0;
    let mut max_alloc: u64 = 0;
    let mut i: u64 = 0;
    while i < count
        invariant
            count == block_count_of(nth_draw(seed, 0)),
            count < 10 + FREE_BLOCKS_SIZE,
            i <= count,
            result@.len() == i,
            rng.state == state_after(seed, (i + 1) as nat),
            forall|k: int| 0 <= k < i ==> (#[trigger] result@[k]).length == block_length_of(nth_draw(seed, (k + 1) as nat)),
            is_packed(result@),
            curr_addr == total_length(result@, i as int),
            curr_addr <= 256 * i,
            forall|k: int| 0 <= k < i ==> (#[trigger] result@[k]).length <= max_alloc,
            i == 0 ==> max_alloc == 0,
            i > 0 ==> exists|k: int| 0 <= k < i && (#[trigger] result@[k]).length == max_alloc,
        decreases count - i,
    {
        proof {
            lemma_next_draw(seed, (i + 1) as nat);
        }
        let next_size = block_length(rng.next_u64());
        if next_size > max_alloc {
            max_alloc = next_size;
        }
        let ghost before = result@;
        result.push(Location::new(curr_addr, next_size));
        proof {
            lemma_total_length_prefix(before, result@, i as int);
            assert forall|k: int| 0 <= k < i + 1 implies (#[trigger] result@[k]).address == total_length(result@, k) by {
                if k < i {
                    lemma_total_length_prefix(before, result@, k);
                }
            }
            if i > 0 && next_size < max_alloc {
                let k = choose|k: int| 0 <= k < i && (#[trigger] before[k]).length == max_alloc;
                assert(result@[k] == before[k]);
            } else {
                assert(result@[i as int].length == max_alloc);
            }
        }
        curr_addr = curr_addr + next_size;
        i += 1;
    }
    (result, max_alloc)
}

/// Extending a list leaves the sums of its prefixes as they were.
proof fn lemma_total_length_prefix(s: Seq<Location>, t: Seq<Location>, n: int)
    requires
        0 <= n <= s.len() <= t.len(),
        forall|k: int| 0 <= k < s.len() ==> s[k] == t[k],
    ensures
        total_length(s, n) == total_length(t, n),
    decreases n,
{
    if n > 0 {
        lemma_total_length_prefix(s, t, n - 1);
    }
}

/// A request size below `max_length`, taken from the next draw of `rng`:
/// some block of a list whose largest length is `max_length` fits it.
pub fn allocation_target(rng: &mut SplitMix64, max_length: u64) -> (r: u64)
    requires
        max_length > 0,
    ensures
        r == nth_draw(old(rng).state, 0) % max_length,
        r < max_length,
        final(rng).state == state_after(old(rng).state, 1),
{
    rng.next_u64() % max_length
}

/// Sums of longer prefixes are larger when every length is positive.
proof fn lemma_total_length_grows(s: Seq<Location>, j: int, k: int)
    requires
        0 <= j < k <= s.len(),
        forall|i: int| 0 <= i < s.len() ==> (#[trigger] s[i]).length > 0,
    ensures
        total_length(s, j) < total_length(s, k),
    decreases k - j,
{
    if j < k - 1 {
        lemma_total_length_grows(s, j, k - 1);
    }
    assert(s[k - 1].length > 0);
}

/// In a packed list of non-empty blocks, addresses strictly increase, so no
/// two blocks share one.
pub proof fn lemma_packed_addresses_distinct(s: Seq<Location>)
    requires
        is_packed(s),
        forall|i: int| 0 <= i < s.len() ==> (#[trigger] s[i]).length > 0,
    ensures
        addresses_distinct(s),
        forall|j: int, k: int| 0 <= j < k < s.len() ==> (#[trigger] s[j]).address < (#[trigger] s[k]).address,
{
    assert forall|j: int, k: int| 0 <= j < k < s.len() implies (#[trigger] s[j]).address < (#[trigger] s[k]).address by {
        lemma_total_length_grows(s, j, k);
    }
}

} // verus!
