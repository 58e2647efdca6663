use vstd::prelude::*;
use crate::tiles::{bag_total, color_of, color_of_idx, CeramicTile, TileBag};

verus! {

/// Sum of an arbitrary-length sequence of weights.
pub open spec fn weights_total(s: Seq<u32>) -> int
    decreases s.len(),
{
    if s.len() == 0 {
        0
    } else {
        weights_total(s.drop_last()) + s.last()
    }
}

proof fn lemma_weights_total_nonneg(s: Seq<u32>)
    ensures
        weights_total(s) >= 0,
    decreases s.len(),
{
    if s.len() > 0 {
        lemma_weights_total_nonneg(s.drop_last());
    }
}

/// A prefix of the weights never sums to more than the whole.
proof fn lemma_weights_total_take_le(s: Seq<u32>, k: int)
    requires
        0 <= k <= s.len(),
    ensures
        weights_total(s.take(k)) <= weights_total(s),
    decreases s.len() - k,
{
    if k == s.len() {
        assert(s.take(k) =~= s);
    } else {
        assert(s.take(k + 1).drop_last() =~= s.take(k));
        assert(s.take(k + 1).last() == s[k]);
        lemma_weights_total_take_le(s, k + 1);
    }
}

/// Relies on `rand::RngExt::random_range` over `0..bound` on the thread-local
/// generator: it returns a value of the (non-empty) range, uniformly at random.
#[verifier::external_body]
fn sample_below(bound: u64) -> (r: u64)
    requires
        bound > 0,
    ensures
        r < bound,
{
    rand::RngExt::random_range(&mut rand::rng(), 0..bound)
}

/// Picks one entry of `list`, each entry drawn with probability proportional
/// to its weight, by inverting the prefix sums of the weights at a random
/// point. The picked entry always has a positive weight.
pub fn random_pick_list<'a, T>(list: &'a Vec<T>, weights: &Vec<u32>) -> (r: &'a T)
    requires
        list@.len() == weights@.len(),
        weights_total(weights@) > 0,
        weights_total(weights@) <= u64::MAX,
    ensures
        exists|i: int| 0 <= i < list@.len() && weights@[i] > 0 && *r == list@[i],
{
    let mut pre_sum: Vec<u64> = Vec::new();
    let mut sum: u64 = 0;
    let mut k: usize = 0;
    while k < weights.len()
        invariant
            list@.len() == weights@.len(),
            weights_total(weights@) <= u64::MAX,
            k <= weights@.len(),
            pre_sum@.len() == k,
            sum == weights_total(weights@.take(k as int)),
            forall|q: int| 0 <= q < k ==> pre_sum@[q] == weights_total(weights@.take(q + 1)),
        decreases weights@.len() - k,
    {
        proof {
            assert(weights@.take(k + 1).drop_last() =~= weights@.take(k as int));
            assert(weights@.take(k + 1).last() == weights@[k as int]);
            lemma_weights_total_take_le(weights@, k + 1);
            lemma_weights_total_nonneg(weights@.take(k as int));
        }
        sum = sum + weights[k] as u64;
        pre_sum.push(sum);
        k = k + 1;
    }
    proof {
        assert(weights@.take(weights@.len() as int) =~= weights@);
    }
    let r = sample_below(sum);
    let mut i: usize = 0;
    while i < pre_sum.len()
        invariant
            list@.len() == weights@.len(),
            pre_sum@.len() == weights@.len(),
            i <= pre_sum@.len(),
            forall|q: int| 0 <= q < pre_sum@.len() ==> pre_sum@[q] == weights_total(weights@.take(q + 1)),
            r < weights_total(weights@),
            i > 0 ==> r >= pre_sum@[i - 1],
        decreases pre_sum@.len() - i,
    {
        if r < pre_sum[i] {
            proof {
                assert(weights@.take(i + 1).drop_last() =~= weights@.take(i as int));
                assert(weights@.take(i + 1).last() == weights@[i as int]);
                if i > 0 {
                    assert(pre_sum@[i - 1] == weights_total(weights@.take(i as int)));
                } else {
                    assert(weights@.take(0) =~= Seq::<u32>::empty());
                    assert(weights_total(weights@.take(0)) == 0);
                }
                assert(r >= weights_total(weights@.take(i as int)));
                assert(weights_total(weights@.take(i + 1)) == weights_total(weights@.take(i as int)) + weights@[i as int]);
                assert(weights@[i as int] > 0);
            }
            return &list[i];
        }
        i = i + 1;
    }
    proof {
        assert(weights@.take(weights@.len() as int) =~= weights@);
        assert(pre_sum@[weights@.len() - 1] == weights_total(weights@));
        assert(false);
    }
    &list[0]
}

/// Picks one color of the bag, each color drawn with probability proportional
/// to its count. The picked color always has at least one tile in the bag.
pub fn random_pick_map(bag: &TileBag) -> (c: CeramicTile)
    requires
        bag.wf(),
        bag.total() > 0,
    ensures
        bag.count_of(c) > 0,
{
    let list: Vec<CeramicTile> = vec![
        color_of(0),
        color_of(1),
        color_of(2),
        color_of(3),
        color_of(4),
    ];
    let weights: Vec<u32> = vec![
        bag.counts[0],
        bag.counts[1],
        bag.counts[2],
        bag.counts[3],
        bag.counts[4],
    ];
    proof {
        assert(weights@.take(1).drop_last() =~= weights@.take(0));
        assert(weights@.take(2).drop_last() =~= weights@.take(1));
        assert(weights@.take(3).drop_last() =~= weights@.take(2));
        assert(weights@.take(4).drop_last() =~= weights@.take(3));
        assert(weights@.take(5).drop_last() =~= weights@.take(4));
        assert(weights_total(weights@.take(0)) == 0);
        assert(weights_total(weights@.take(1)) == weights@[0]);
        assert(weights_total(weights@.take(2)) == weights@[0] + weights@[1]);
        assert(weights_total(weights@.take(3)) == weights@[0] + weights@[1] + weights@[2]);
        assert(weights_total(weights@.take(4)) == weights@[0] + weights@[1] + weights@[2] + weights@[3]);
        assert(weights@.take(5) =~= weights@);
        assert(weights_total(weights@) == bag_total(bag@));
    }
    let picked = random_pick_list(&list, &weights);
    let c = *picked;
    proof {
        let i = choose|i: int| 0 <= i < list@.len() && weights@[i] > 0 && c == list@[i];
        assert(c == color_of_idx(i));
        assert(bag.count_of(c) == bag@[i]);
    }
    c
}

} // verus!
