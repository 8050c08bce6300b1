use crate::average::{holds_value, lemma_mean_at_most_some_value, mean_length, mean_of};
use crate::chance::{chance_of, draw_at_most, happens, thread_source};
use vstd::prelude::*;

verus! {

/// How many strands a new head of hair has.
pub const STRAND_COUNT: usize = 50;

/// The length of every strand of a new head of hair.
pub const INITIAL_LENGTH: usize = 1;

/// A strand breaks in a call of `break_strands` with probability
/// `BREAK_NUMERATOR / BREAK_DENOMINATOR`.
pub const BREAK_NUMERATOR: u32 = 3;

/// See `BREAK_NUMERATOR`.
pub const BREAK_DENOMINATOR: u32 = 1000;

/// The length `s` has after a cut to `target`.
pub open spec fn cut_length(s: usize, target: usize) -> usize {
    if s > target {
        target
    } else {
        s
    }
}

/// Every strand of `s` cut to `target`.
pub open spec fn cut_all(s: Seq<usize>, target: usize) -> Seq<usize> {
    Seq::new(s.len(), |i: int| cut_length(s[i], target))
}

/// `a + b`, held at the largest `usize`.
pub open spec fn saturating_sum(a: usize, b: usize) -> usize {
    if a + b > usize::MAX {
        usize::MAX
    } else {
        (a + b) as usize
    }
}

/// Each strand of `s` grown by the amount at its position in `growth`; a
/// strand with no amount keeps its length.
pub open spec fn grown(s: Seq<usize>, growth: Seq<usize>) -> Seq<usize> {
    Seq::new(
        s.len(),
        |i: int|
            if i < growth.len() {
                saturating_sum(s[i], growth[i])
            } else {
                s[i]
            },
    )
}

/// Each strand of `s` shortened by the amount at its position in `losses`,
/// down to zero at most; a strand with no amount keeps its length.
pub open spec fn shortened(s: Seq<usize>, losses: Seq<usize>) -> Seq<usize> {
    Seq::new(
        s.len(),
        |i: int|
            if i < losses.len() {
                if losses[i] >= s[i] {
                    0usize
                } else {
                    (s[i] - losses[i]) as usize
                }
            } else {
                s[i]
            },
    )
}

/// The length that `cut_to_average_of` cuts to: the mean of the strands that
/// outlier filtering kept, or of all strands where it kept none.
pub open spec fn average_target(lengths: Seq<usize>, inliers: Seq<usize>) -> int {
    if inliers.len() > 0 {
        mean_of(inliers)
    } else {
        mean_of(lengths)
    }
}

/// Every value of `inliers` is the length of some strand of `lengths`, as
/// holds of what outlier filtering keeps of them.
pub open spec fn drawn_from(lengths: Seq<usize>, inliers: Seq<usize>) -> bool {
    forall|j: int| 0 <= j < inliers.len() ==> holds_value(lengths, #[trigger] inliers[j])
}

/// A cut leaves every strand at most the target, and a strand that was
/// already no longer than the target keeps its length.
pub proof fn lemma_cut_bounds(s: Seq<usize>, target: usize)
    ensures
        cut_all(s, target).len() == s.len(),
        forall|i: int| 0 <= i < s.len() ==> #[trigger] cut_all(s, target)[i] <= target,
        forall|i: int|
            0 <= i < s.len() && s[i] <= target ==> #[trigger] cut_all(s, target)[i] == s[i],
{
}

/// Cutting twice to the same target is the same as cutting once.
pub proof fn lemma_cut_idempotent(s: Seq<usize>, target: usize)
    ensures
        cut_all(cut_all(s, target), target) == cut_all(s, target),
{
    assert(cut_all(cut_all(s, target), target) =~= cut_all(s, target));
}

/// Growth by amounts of at most `limit` leaves each strand no shorter than
/// before and at most `limit` longer.
pub proof fn lemma_growth_bounds(s: Seq<usize>, growth: Seq<usize>, limit: usize)
    requires
        forall|i: int| 0 <= i < growth.len() ==> growth[i] <= limit,
    ensures
        grown(s, growth).len() == s.len(),
        forall|i: int|
            0 <= i < s.len() ==> s[i] <= #[trigger] grown(s, growth)[i] <= s[i] + limit,
{
}

/// Shortening never makes a strand longer.
pub proof fn lemma_shortening_bounds(s: Seq<usize>, losses: Seq<usize>)
    ensures
        shortened(s, losses).len() == s.len(),
        forall|i: int| 0 <= i < s.len() ==> #[trigger] shortened(s, losses)[i] <= s[i],
{
}

/// The target of a cut to the average is at most the length of some strand
/// where the averaged values are drawn from the strands, and the cut leaves no
/// strand longer than it.
pub proof fn lemma_average_target_bounded(lengths: Seq<usize>, inliers: Seq<usize>)
    requires
        lengths.len() > 0,
        drawn_from(lengths, inliers),
    ensures
        0 <= average_target(lengths, inliers) <= usize::MAX,
        exists|i: int| 0 <= i < lengths.len() && average_target(lengths, inliers) <= lengths[i],
        forall|i: int|
            0 <= i < lengths.len() ==> #[trigger] cut_all(
                lengths,
                average_target(lengths, inliers) as usize,
            )[i] <= average_target(lengths, inliers),
{
    if inliers.len() > 0 {
        lemma_mean_at_most_some_value(inliers);
        let k = choose|k: int| 0 <= k < inliers.len() && mean_of(inliers) <= inliers[k];
        assert(holds_value(lengths, inliers[k]));
    } else {
        lemma_mean_at_most_some_value(lengths);
    }
}

/// A head of hair: the length of each strand, in a fixed order, and the
/// random source that drives growth and breakage.
pub struct Hair {
    strand_lengths: Vec<usize>,
    rng: rand::rngs::ThreadRng,
}

impl View for Hair {
    type V = Seq<usize>;

    closed spec fn view(&self) -> Seq<usize> {
        self.strand_lengths@
    }
}

impl Hair {
    /// A new head of `STRAND_COUNT` strands, each `INITIAL_LENGTH` long.
    pub fn new() -> (r: Hair)
        ensures
            r@ == Seq::new(STRAND_COUNT as nat, |i: int| INITIAL_LENGTH),
    {
        let v = vec![INITIAL_LENGTH; STRAND_COUNT];
        assert(v@ =~= Seq::new(STRAND_COUNT as nat, |i: int| INITIAL_LENGTH));
        Hair { strand_lengths: v, rng: thread_source() }
    }

    /// A head of hair with the given strand lengths.
    pub fn from_lengths(strand_lengths: Vec<usize>) -> (r: Hair)
        ensures
            r@ == strand_lengths@,
    {
        Hair { strand_lengths, rng: thread_source() }
    }

    /// The length of each strand.
    pub fn strand_lengths(&self) -> (r: &Vec<usize>)
        ensures
            r@ == self@,
    {
        &self.strand_lengths
    }

    /// Grows each strand by the amount at its position in `growth`.
    pub fn grow_by(&mut self, growth: &Vec<usize>)
        ensures
            final(self)@ == grown(old(self)@, growth@),
    {
        let n = self.strand_lengths.len();
        let mut i: usize = 0;
        while i < n
            invariant
                n == old(self)@.len(),
                self@.len() == n,
                0 <= i <= n,
                forall|j: int| 0 <= j < i ==> self@[j] == grown(old(self)@, growth@)[j],
                forall|j: int| i <= j < n ==> self@[j] == old(self)@[j],
            decreases n - i,
        {
            if i < growth.len() {
                let s = self.strand_lengths[i].saturating_add(growth[i]);
                self.strand_lengths.set(i, s);
            }
            i = i + 1;
        }
        assert(self@ =~= grown(old(self)@, growth@));
    }

    /// Grows each strand by a random amount from zero to `growth_limit`.
    pub fn grow(&mut self, growth_limit: usize)
        ensures
            final(self)@.len() == old(self)@.len(),
            forall|i: int|
                0 <= i < old(self)@.len() ==> old(self)@[i] <= #[trigger] final(self)@[i]
                    <= old(self)@[i] + growth_limit,
    {
        let n = self.strand_lengths.len();
        let mut growth: Vec<usize> = Vec::new();
        let mut i: usize = 0;
        while i < n
            invariant
                n == old(self)@.len(),
                self@ == old(self)@,
                0 <= i <= n,
                growth@.len() == i,
                forall|j: int| 0 <= j < i ==> growth@[j] <= growth_limit,
            decreases n - i,
        {
            let amount = draw_at_most(&mut self.rng, growth_limit);
            growth.push(amount);
            i = i + 1;
        }
        proof {
            lemma_growth_bounds(self@, growth@, growth_limit);
        }
        self.grow_by(&growth);
    }

    /// Shortens each strand by the amount at its position in `losses`, down
    /// to zero at most.
    pub fn shorten_by(&mut self, losses: &Vec<usize>)
        ensures
            final(self)@ == shortened(old(self)@, losses@),
    {
        let n = self.strand_lengths.len();
        let mut i: usize = 0;
        while i < n
            invariant
                n == old(self)@.len(),
                self@.len() == n,
                0 <= i <= n,
                forall|j: int| 0 <= j < i ==> self@[j] == shortened(old(self)@, losses@)[j],
                forall|j: int| i <= j < n ==> self@[j] == old(self)@[j],
            decreases n - i,
        {
            if i < losses.len() {
                let s = self.strand_lengths[i].saturating_sub(losses[i]);
                self.strand_lengths.set(i, s);
            }
            i = i + 1;
        }
        assert(self@ =~= shortened(old(self)@, losses@));
    }

    /// Breaks each strand, independently and with a fixed small probability,
    /// by a random amount from zero to its whole length.
    pub fn break_strands(&mut self)
        ensures
            final(self)@.len() == old(self)@.len(),
            forall|i: int|
                0 <= i < old(self)@.len() ==> #[trigger] final(self)@[i] <= old(self)@[i],
    {
        let chance = match chance_of(BREAK_NUMERATOR, BREAK_DENOMINATOR) {
            Ok(c) => c,
            Err(_) => {
                return;
            },
        };
        let n = self.strand_lengths.len();
        let mut losses: Vec<usize> = Vec::new();
        let mut i: usize = 0;
        while i < n
            invariant
                n == self@.len(),
                self@ == old(self)@,
                0 <= i <= n,
                losses@.len() == i,
            decreases n - i,
        {
            let loss = if happens(&chance, &mut self.rng) {
                draw_at_most(&mut self.rng, self.strand_lengths[i])
            } else {
                0
            };
            losses.push(loss);
            i = i + 1;
        }
        proof {
            lemma_shortening_bounds(self@, losses@);
        }
        self.shorten_by(&losses);
    }

    /// Cuts every strand longer than `target_strand_length` down to it.
    pub fn cut(&mut self, target_strand_length: usize)
        ensures
            final(self)@ == cut_all(old(self)@, target_strand_length),
            forall|i: int|
                0 <= i < final(self)@.len() ==> #[trigger] final(self)@[i] <= target_strand_length,
            forall|i: int|
                0 <= i < old(self)@.len() && old(self)@[i] <= target_strand_length
                    ==> #[trigger] final(self)@[i] == old(self)@[i],
    {
        let n = self.strand_lengths.len();
        let mut i: usize = 0;
        while i < n
            invariant
                n == old(self)@.len(),
                self@.len() == n,
                0 <= i <= n,
                forall|j: int|
                    0 <= j < i ==> self@[j] == cut_length(old(self)@[j], target_strand_length),
                forall|j: int| i <= j < n ==> self@[j] == old(self)@[j],
            decreases n - i,
        {
            if self.strand_lengths[i] > target_strand_length {
                self.strand_lengths.set(i, target_strand_length);
            }
            i = i + 1;
        }
        assert(self@ =~= cut_all(old(self)@, target_strand_length));
        proof {
            lemma_cut_bounds(old(self)@, target_strand_length);
        }
    }

    /// Cuts every strand to the mean of `inliers`, the strand lengths that
    /// outlier filtering kept; where it kept none, to the mean of all
    /// strands. Returns the length cut to.
    pub fn cut_to_average_of(&mut self, inliers: &Vec<usize>) -> (target: usize)
        ensures
            target == average_target(old(self)@, inliers@),
            final(self)@ == cut_all(old(self)@, target),
            forall|i: int| 0 <= i < final(self)@.len() ==> #[trigger] final(self)@[i] <= target,
            old(self)@.len() > 0 && drawn_from(old(self)@, inliers@) ==> exists|i: int|
                0 <= i < old(self)@.len() && target <= old(self)@[i],
    {
        let target = if inliers.len() > 0 {
            mean_length(inliers)
        } else {
            mean_length(&self.strand_lengths)
        };
        proof {
            if old(self)@.len() > 0 && drawn_from(old(self)@, inliers@) {
                lemma_average_target_bounded(old(self)@, inliers@);
            }
        }
        self.cut(target);
        target
    }
}

} // verus!
