use vstd::prelude::*;
use crate::location::Location;

verus! {

/// A block fits a request when it is at least as long as the request.
pub open spec fn fits(b: Location, alloc: u64) -> bool {
    b.length >= alloc
}

/// Some block among the first `n` of `s` fits.
pub open spec fn has_fit_in(s: Seq<Location>, alloc: u64, n: int) -> bool {
    exists|j: int| 0 <= j < n && #[trigger] fits(s[j], alloc)
}

/// Some block of `s` fits.
pub open spec fn has_fit(s: Seq<Location>, alloc: u64) -> bool {
    has_fit_in(s, alloc, s.len() as int)
}

/// Among the first `n` blocks, index `i` holds a fitting block of the
/// smallest fitting length, and every earlier fitting block is strictly
/// longer: ties go to the first one met.
pub open spec fn is_best_fit_in(s: Seq<Location>, alloc: u64, n: int, i: int) -> bool {
    &&& 0 <= i < n <= s.len()
    &&& fits(s[i], alloc)
    &&& forall|j: int| 0 <= j < n && #[trigger] fits(s[j], alloc) ==> s[i].length <= s[j].length
    &&& forall|j: int| 0 <= j < i && #[trigger] fits(s[j], alloc) ==> s[i].length < s[j].length
}

/// Index `i` is the best fit of the whole list.
pub open spec fn is_best_fit(s: Seq<Location>, alloc: u64, i: int) -> bool {
    is_best_fit_in(s, alloc, s.len() as int, i)
}

/// `r` is what a best-fit selection owes on `s`: nothing when no block fits,
/// else the block at the best-fit index.
pub open spec fn selects(s: Seq<Location>, alloc: u64, r: Option<Location>) -> bool {
    match r {
        None => !has_fit(s, alloc),
        Some(b) => exists|i: int| #[trigger] is_best_fit(s, alloc, i) && s[i] == b,
    }
}

/// The list after removing index `i` by moving the last block into its slot.
pub open spec fn swap_removed(s: Seq<Location>, i: int) -> Seq<Location> {
    s.update(i, s.last()).drop_last()
}

/// Best fit by an explicit scan that keeps the best index and its length,
/// then swap-removes the winner.
pub fn fourth_solution(free_blocks: &mut Vec<Location>, alloc: u64) -> (r: Option<Location>)
    ensures
        selects(old(free_blocks)@, alloc, r),
        r is None ==> final(free_blocks)@ == old(free_blocks)@,
        r is Some ==> exists|i: int|
            #[trigger] is_best_fit(old(free_blocks)@, alloc, i) && final(free_blocks)@
                == swap_removed(old(free_blocks)@, i),
{
    let ghost s = free_blocks@;
    let mut smallest_length: u64 = u64::MAX;
    let mut best_index: Option<usize> = None;
    let mut i: usize = 0;
    while i < free_blocks.len()
        invariant
            free_blocks@ == s,
            0 <= i <= s.len(),
            best_index is None ==> !has_fit_in(s, alloc, i as int),
            best_index matches Some(k) ==> is_best_fit_in(s, alloc, i as int, k as int)
                && smallest_length == s[k as int].length,
        decreases s.len() - i,
    {
        let length = free_blocks[i].length;
        if length >= alloc && (best_index.is_none() || length < smallest_length) {
            smallest_length = length;
            best_index = Some(i);
        }
        proof {
            assert(fits(s[i as int], alloc) <==> length >= alloc);
        }
        i += 1;
    }
    match best_index {
        Some(k) => {
            proof {
                assert(is_best_fit(s, alloc, k as int));
            }
            Some(free_blocks.swap_remove(k))
        },
        None => None,
    }
}

/// One step of the left-to-right reduction: a fitting block replaces the
/// running best only when it is strictly shorter.
fn fold_step(acc: Option<(usize, Location)>, idx: usize, val: Location, alloc: u64) -> (r: Option<(usize, Location)>)
    ensures
        r == match acc {
            None => if fits(val, alloc) { Some((idx, val)) } else { None },
            Some((k, b)) => if fits(val, alloc) && val.length < b.length { Some((idx, val)) } else { acc },
        },
{
    match acc {
        None => {
            if val.length >= alloc {
                Some((idx, val))
            } else {
                None
            }
        },
        Some((min_idx, min_val)) => {
            if val.length >= alloc && val.length < min_val.length {
                Some((idx, val))
            } else {
                Some((min_idx, min_val))
            }
        },
    }
}

/// Best fit as a single reduction over the enumerated blocks, then a
/// swap-remove at the winning index.
pub fn third_solution(free_blocks: &mut Vec<Location>, alloc: u64) -> (r: Option<Location>)
    ensures
        selects(old(free_blocks)@, alloc, r),
        r is None ==> final(free_blocks)@ == old(free_blocks)@,
        r is Some ==> exists|i: int|
            #[trigger] is_best_fit(old(free_blocks)@, alloc, i) && final(free_blocks)@
                == swap_removed(old(free_blocks)@, i),
{
    let ghost s = free_blocks@;
    let mut acc: Option<(usize, Location)> = None;
    let mut i: usize = 0;
    while i < free_blocks.len()
        invariant
            free_blocks@ == s,
            0 <= i <= s.len(),
            acc is None ==> !has_fit_in(s, alloc, i as int),
            acc matches Some((k, b)) ==> is_best_fit_in(s, alloc, i as int, k as int)
                && b == s[k as int],
        decreases s.len() - i,
    {
        acc = fold_step(acc, i, free_blocks[i], alloc);
        i += 1;
    }
    match acc {
        Some((k, _)) => {
            proof {
                assert(is_best_fit(s, alloc, k as int));
            }
            Some(free_blocks.swap_remove(k))
        },
        None => None,
    }
}

/// Best fit by enumerating the blocks, keeping the fitting ones with their
/// indices, taking the first of minimal length, then swap-removing it.
pub fn second_solution(free_blocks: &mut Vec<Location>, alloc: u64) -> (r: Option<Location>)
    ensures
        selects(old(free_blocks)@, alloc, r),
        r is None ==> final(free_blocks)@ == old(free_blocks)@,
        r is Some ==> exists|i: int|
            #[trigger] is_best_fit(old(free_blocks)@, alloc, i) && final(free_blocks)@
                == swap_removed(old(free_blocks)@, i),
{
    let ghost s = free_blocks@;
    let candidates = fitting_with_index(free_blocks, alloc);
    let best = first_min_candidate(&candidates);
    match best {
        Some(m) => {
            let k = candidates[m].0;
            proof {
                lemma_first_min_candidate_is_best_fit(s, alloc, candidates@, m as int);
            }
            Some(free_blocks.swap_remove(k))
        },
        None => {
            proof {
                lemma_no_candidates_no_fit(s, alloc, candidates@);
            }
            None
        },
    }
}

/// `cands` lists, by strictly increasing index, exactly the fitting blocks of
/// `s`, each with its index.
pub open spec fn candidates_of(s: Seq<Location>, alloc: u64, cands: Seq<(usize, Location)>) -> bool {
    candidates_upto(s, alloc, cands, s.len() as int)
}

/// `cands` lists, by strictly increasing index, exactly the fitting blocks
/// among the first `n` of `s`, each with its index.
pub open spec fn candidates_upto(s: Seq<Location>, alloc: u64, cands: Seq<(usize, Location)>, n: int) -> bool {
    &&& 0 <= n <= s.len()
    &&& forall|d: int| 0 <= d < cands.len() ==> {
        let (k, b) = #[trigger] cands[d];
        0 <= k < n && s[k as int] == b && fits(b, alloc)
    }
    &&& forall|d: int, e: int| 0 <= d < e < cands.len() ==> (#[trigger] cands[d]).0 < (#[trigger] cands[e]).0
    &&& forall|j: int| 0 <= j < n && #[trigger] fits(s[j], alloc) ==> exists|d: int|
        0 <= d < cands.len() && (#[trigger] cands[d]).0 == j
}

/// The fitting blocks of `blocks` with their indices, in list order.
fn fitting_with_index(blocks: &Vec<Location>, alloc: u64) -> (r: Vec<(usize, Location)>)
    ensures
        candidates_of(blocks@, alloc, r@),
{
    let mut r: Vec<(usize, Location)> = Vec::new();
    let mut i: usize = 0;
    while i < blocks.len()
        invariant
            0 <= i <= blocks.len(),
            candidates_upto(blocks@, alloc, r@, i as int),
        decreases blocks.len() - i,
    {
        if blocks[i].length >= alloc {
            let ghost old_r = r@;
            r.push((i, blocks[i]));
            proof {
                assert forall|j: int| 0 <= j < i + 1 && #[trigger] fits(blocks@[j], alloc) implies exists|d: int|
                    0 <= d < r@.len() && (#[trigger] r@[d]).0 == j by {
                    if j < i {
                        let d = choose|d: int| 0 <= d < old_r.len() && (#[trigger] old_r[d]).0 == j;
                        assert(r@[d] == old_r[d]);
                    } else {
                        assert(r@[old_r.len() as int].0 == j);
                    }
                }
            }
        }
        i += 1;
    }
    r
}

proof fn lemma_no_candidates_no_fit(s: Seq<Location>, alloc: u64, cands: Seq<(usize, Location)>)
    requires
        candidates_of(s, alloc, cands),
        cands.len() == 0,
    ensures
        !has_fit(s, alloc),
{
}

/// The first candidate of minimal length sits at the best-fit index.
proof fn lemma_first_min_candidate_is_best_fit(
    s: Seq<Location>,
    alloc: u64,
    cands: Seq<(usize, Location)>,
    m: int,
)
    requires
        candidates_of(s, alloc, cands),
        is_first_min(cands, m),
    ensures
        is_best_fit(s, alloc, cands[m].0 as int),
        s[cands[m].0 as int] == cands[m].1,
{
    let k = cands[m].0 as int;
    assert(0 <= k < s.len() && s[k] == cands[m].1);
    assert forall|j: int| 0 <= j < s.len() && #[trigger] fits(s[j], alloc) implies s[k].length <= s[j].length by {
        let d = choose|d: int| 0 <= d < cands.len() && (#[trigger] cands[d]).0 == j;
        assert(s[cands[d].0 as int] == cands[d].1);
    }
    assert forall|j: int| 0 <= j < k && #[trigger] fits(s[j], alloc) implies s[k].length < s[j].length by {
        let d = choose|d: int| 0 <= d < cands.len() && (#[trigger] cands[d]).0 == j;
        assert(s[cands[d].0 as int] == cands[d].1);
        if d >= m {
            if d > m {
                assert(cands[m].0 < cands[d].0);
            }
        }
    }
}

/// Index of the first candidate of minimal length, if there is any candidate.
fn first_min_candidate(candidates: &Vec<(usize, Location)>) -> (r: Option<usize>)
    ensures
        r is None <==> candidates@.len() == 0,
        r matches Some(m) ==> is_first_min(candidates@, m as int),
{
    let mut best: Option<usize> = None;
    let mut c: usize = 0;
    while c < candidates.len()
        invariant
            0 <= c <= candidates.len(),
            best is None ==> c == 0,
            best matches Some(m) ==> m < c && is_first_min(candidates@.take(c as int), m as int),
        decreases candidates.len() - c,
    {
        match best {
            None => {
                best = Some(c);
            },
            Some(m) => {
                if candidates[c].1.length < candidates[m].1.length {
                    best = Some(c);
                }
            },
        }
        c += 1;
    }
    proof {
        assert(candidates@.take(c as int) == candidates@);
    }
    best
}

/// Entry `m` has the smallest length of `cands`, and every earlier entry is
/// strictly longer.
pub open spec fn is_first_min(cands: Seq<(usize, Location)>, m: int) -> bool {
    &&& 0 <= m < cands.len()
    &&& forall|d: int| 0 <= d < cands.len() ==> cands[m].1.length <= #[trigger] cands[d].1.length
    &&& forall|d: int| 0 <= d < m ==> cands[m].1.length < #[trigger] cands[d].1.length
}

/// Best fit by filtering the fitting blocks, taking the first of minimal
/// length, then rebuilding the list without the winner, order kept.
pub fn first_solution(free_blocks: &mut Vec<Location>, alloc: u64) -> (r: Option<Location>)
    ensures
        selects(old(free_blocks)@, alloc, r),
        r is None ==> final(free_blocks)@ == old(free_blocks)@,
        r is Some ==> exists|i: int|
            #[trigger] is_best_fit(old(free_blocks)@, alloc, i) && final(free_blocks)@
                == old(free_blocks)@.remove(i),
{
    let ghost s = free_blocks@;
    let candidates = fitting_with_index(free_blocks, alloc);
    match first_min_candidate(&candidates) {
        Some(m) => {
            let (index, next_block) = candidates[m];
            proof {
                lemma_first_min_candidate_is_best_fit(s, alloc, candidates@, m as int);
            }
            let rest = all_but(free_blocks, index);
            *free_blocks = rest;
            Some(next_block)
        },
        None => {
            proof {
                lemma_no_candidates_no_fit(s, alloc, candidates@);
            }
            None
        },
    }
}

/// A new list of the blocks of `blocks` but the one at `index`, order kept.
fn all_but(blocks: &Vec<Location>, index: usize) -> (r: Vec<Location>)
    requires
        index < blocks@.len(),
    ensures
        r@ == blocks@.remove(index as int),
{
    let ghost s = blocks@;
    let ghost k = index as int;
    let mut r: Vec<Location> = Vec::new();
    let mut i: usize = 0;
    while i < blocks.len()
        invariant
            blocks@ == s,
            k == index,
            0 <= k < s.len(),
            0 <= i <= s.len(),
            i <= k ==> r@ == s.take(i as int),
            i > k ==> r@ == s.take(k) + s.subrange(k + 1, i as int),
        decreases s.len() - i,
    {
        if i != index {
            let b = blocks[i];
            let ghost before = r@;
            r.push(b);
            proof {
                assert(r@ == before.push(s[i as int]));
                if i < k {
                    assert(r@ =~= s.take(i + 1));
                } else {
                    assert(s.subrange(k + 1, i + 1) =~= s.subrange(k + 1, i as int).push(s[i as int]));
                    assert(r@ =~= s.take(k) + s.subrange(k + 1, i + 1));
                }
            }
        } else {
            proof {
                assert(r@ =~= s.take(k) + s.subrange(k + 1, k + 1));
            }
        }
        i += 1;
    }
    proof {
        assert(r@ =~= s.remove(k));
    }
    r
}

/// At most one index is the best fit: the tie-break leaves no choice.
pub proof fn lemma_best_fit_index_unique(s: Seq<Location>, alloc: u64, i: int, j: int)
    requires
        is_best_fit(s, alloc, i),
        is_best_fit(s, alloc, j),
    ensures
        i == j,
{
    if i < j {
        assert(fits(s[i], alloc));
    } else if j < i {
        assert(fits(s[j], alloc));
    }
}

/// Two results that both meet the best-fit contract on the same list and
/// request are the same block, or both absent: every strategy whose result
/// meets that contract returns the same thing on copies of one list.
pub proof fn lemma_selection_unique(s: Seq<Location>, alloc: u64, r1: Option<Location>, r2: Option<Location>)
    requires
        selects(s, alloc, r1),
        selects(s, alloc, r2),
    ensures
        r1 == r2,
{
    match (r1, r2) {
        (Some(b1), Some(b2)) => {
            let i = choose|i: int| #[trigger] is_best_fit(s, alloc, i) && s[i] == b1;
            let j = choose|j: int| #[trigger] is_best_fit(s, alloc, j) && s[j] == b2;
            lemma_best_fit_index_unique(s, alloc, i, j);
        },
        (Some(b1), None) => {
            let i = choose|i: int| #[trigger] is_best_fit(s, alloc, i) && s[i] == b1;
            assert(fits(s[i], alloc));
        },
        (None, Some(b2)) => {
            let j = choose|j: int| #[trigger] is_best_fit(s, alloc, j) && s[j] == b2;
            assert(fits(s[j], alloc));
        },
        (None, None) => {},
    }
}

/// When the request is below the length of some block, a result that meets
/// the best-fit contract is present and at least as long as the request.
pub proof fn lemma_selection_fits(s: Seq<Location>, alloc: u64, r: Option<Location>)
    requires
        selects(s, alloc, r),
        exists|i: int| 0 <= i < s.len() && alloc < #[trigger] s[i].length,
    ensures
        r matches Some(b) && b.length >= alloc,
{
    let i = choose|i: int| 0 <= i < s.len() && alloc < #[trigger] s[i].length;
    assert(fits(s[i], alloc));
    if let Some(b) = r {
        let k = choose|k: int| #[trigger] is_best_fit(s, alloc, k) && s[k] == b;
    }
}

/// No two blocks of `s` share an address.
pub open spec fn addresses_distinct(s: Seq<Location>) -> bool {
    forall|j: int, k: int| 0 <= j < k < s.len() ==> (#[trigger] s[j]).address != (#[trigger] s[k]).address
}

/// On a list whose addresses are distinct, each way of removing the block
/// at `i` leaves one block fewer, and none at its address.
pub proof fn lemma_removal_takes_one(s: Seq<Location>, i: int)
    requires
        addresses_distinct(s),
        0 <= i < s.len(),
    ensures
        swap_removed(s, i).len() == s.len() - 1,
        forall|k: int| 0 <= k < s.len() - 1 ==> (#[trigger] swap_removed(s, i)[k]).address != s[i].address,
        s.remove(i).len() == s.len() - 1,
        forall|k: int| 0 <= k < s.len() - 1 ==> (#[trigger] s.remove(i)[k]).address != s[i].address,
{
    let a = s[i].address;
    assert forall|k: int| 0 <= k < s.len() - 1 implies (#[trigger] swap_removed(s, i)[k]).address != a by {
        if k != i {
            assert(s[k].address != a);
        } else {
            assert(s[s.len() - 1].address != a);
        }
    }
    assert forall|k: int| 0 <= k < s.len() - 1 implies (#[trigger] s.remove(i)[k]).address != a by {
        if k < i {
            assert(s.remove(i)[k] == s[k]);
        } else {
            assert(s.remove(i)[k] == s[k + 1]);
        }
    }
}

} // verus!
