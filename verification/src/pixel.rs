//! The animated pixel set: which pixels of a display are lit, moved towards
//! a wanted share of the whole by random activation, deactivation and decay.

use crate::random::gen_range;
use crate::random::gen_ratio;
use crate::random::thread_rng;
use rand::rngs::ThreadRng;
use vstd::prelude::*;

verus! {

/// A share of a whole, `numerator / denominator`, as a telemetry source
/// reports it. The denominator of a valid share is positive.
#[derive(Debug, Clone, Copy)]
pub struct Fraction {
    numerator: u64,
    denominator: u64,
}

impl Fraction {
    pub closed spec fn numerator(&self) -> nat {
        self.numerator as nat
    }

    pub closed spec fn denominator(&self) -> nat {
        self.denominator as nat
    }

    pub open spec fn valid(&self) -> bool {
        self.denominator() > 0
    }

    /// This share of `count`, rounded down.
    pub open spec fn share_of(&self, count: nat) -> nat {
        (count * self.numerator()) / self.denominator()
    }

    /// The number of pixels to light on a display of `count` pixels: this
    /// share of them, rounded down, and no more than a machine word holds.
    pub open spec fn target(&self, count: nat) -> nat {
        if self.share_of(count) <= usize::MAX {
            self.share_of(count)
        } else {
            usize::MAX as nat
        }
    }

    /// The share `numerator / denominator`, if the denominator is not zero.
    pub fn new(numerator: u64, denominator: u64) -> (share: Option<Fraction>)
        ensures
            share is None <==> denominator == 0,
            share matches Some(f) ==> f.valid() && f.numerator() == numerator && f.denominator()
                == denominator,
    {
        if denominator == 0 {
            None
        } else {
            Some(Fraction { numerator, denominator })
        }
    }

    /// This share of `count`, rounded down and held to a machine word.
    pub fn scale(&self, count: usize) -> (scaled: usize)
        requires
            self.valid(),
        ensures
            scaled == self.target(count as nat),
    {
        assert(count * self.numerator <= u64::MAX * u64::MAX) by (nonlinear_arith)
            requires
                0 <= count <= u64::MAX,
                0 <= self.numerator <= u64::MAX,
        ;
        let product: u128 = (count as u128) * (self.numerator as u128);
        let share: u128 = product / (self.denominator as u128);
        if share > usize::MAX as u128 {
            usize::MAX
        } else {
            share as usize
        }
    }

    /// A share of nothing asks for no pixel.
    pub proof fn lemma_target_of_none(&self, count: nat)
        requires
            self.valid(),
            self.numerator() == 0,
        ensures
            self.target(count) == 0,
    {
        assert(count * self.numerator() == 0) by (nonlinear_arith)
            requires
                self.numerator() == 0,
        ;
    }

    /// The whole asks for every pixel.
    pub proof fn lemma_target_of_all(&self, count: nat)
        requires
            self.valid(),
            self.numerator() == self.denominator(),
            count <= usize::MAX,
        ensures
            self.target(count) == count,
    {
        vstd::arithmetic::div_mod::lemma_div_multiples_vanish(
            count as int,
            self.denominator() as int,
        );
        assert(count * self.denominator() == self.denominator() * count) by (nonlinear_arith);
    }

    /// A share of no more than the whole asks for no more pixels than there
    /// are.
    pub proof fn lemma_target_within_whole(&self, count: nat)
        requires
            self.valid(),
            self.numerator() <= self.denominator(),
            count <= usize::MAX,
        ensures
            self.target(count) <= count,
    {
        let d = self.denominator() as int;
        assert(count * self.numerator() <= count * d) by (nonlinear_arith)
            requires
                self.numerator() <= d,
        ;
        vstd::arithmetic::div_mod::lemma_div_is_ordered(
            (count * self.numerator()) as int,
            count * d,
            d,
        );
        vstd::arithmetic::div_mod::lemma_div_multiples_vanish(count as int, d);
        assert(count * d == d * count) by (nonlinear_arith);
    }
}

/// A request to move more pixels than the set they come from holds.
#[derive(Debug, Clone, Copy, PartialEq, Eq, Structural)]
pub enum GridError {
    /// `requested` pixels were to be turned off, and only `active` are on.
    Deactivate { requested: usize, active: usize },
    /// `requested` pixels were to be turned on, and only `inactive` are off.
    Activate { requested: usize, inactive: usize },
}

/// `active` and `inactive` hold each of the indices below `total` once, in
/// one of the two.
pub open spec fn is_partition(active: Seq<usize>, inactive: Seq<usize>, total: nat) -> bool {
    &&& active.len() + inactive.len() == total
    &&& active.no_duplicates()
    &&& inactive.no_duplicates()
    &&& forall|i: int, j: int|
        0 <= i < active.len() && 0 <= j < inactive.len() ==> active[i] != inactive[j]
    &&& forall|i: int| 0 <= i < active.len() ==> active[i] < total
    &&& forall|j: int| 0 <= j < inactive.len() ==> inactive[j] < total
}

/// Of every hundred lit pixels, about this many go out at each refresh, to be
/// replaced by others.
pub const DECAY_NUMERATOR: u32 = 1;

pub const DECAY_DENOMINATOR: u32 = 100;

/// The items whose flag is `wanted`, in their order. The flag of an item is
/// the one at the item's position.
pub open spec fn select(items: Seq<usize>, flags: Seq<bool>, wanted: bool) -> Seq<usize>
    decreases items.len(),
{
    if items.len() == 0 {
        Seq::empty()
    } else {
        let rest = select(items.drop_last(), flags, wanted);
        if flags[items.len() - 1] == wanted {
            rest.push(items.last())
        } else {
            rest
        }
    }
}

/// Splitting a sequence by flags loses nothing and doubles nothing: each
/// item lands on one side, and a sequence without repeats gives two sides
/// without repeats that share no item.
pub proof fn lemma_select_splits(items: Seq<usize>, flags: Seq<bool>)
    requires
        items.no_duplicates(),
    ensures
        select(items, flags, true).len() + select(items, flags, false).len() == items.len(),
        select(items, flags, true).no_duplicates(),
        select(items, flags, false).no_duplicates(),
        forall|px: usize| select(items, flags, true).contains(px) ==> items.contains(px),
        forall|px: usize| select(items, flags, false).contains(px) ==> items.contains(px),
        forall|i: int, j: int|
            0 <= i < select(items, flags, true).len() && 0 <= j < select(items, flags, false).len()
                ==> select(items, flags, true)[i] != select(items, flags, false)[j],
    decreases items.len(),
{
    if items.len() > 0 {
        let rest = items.drop_last();
        let last = items.last();
        lemma_select_splits(rest, flags);
        let lost = select(rest, flags, true);
        let kept = select(rest, flags, false);
        assert forall|px: usize| rest.contains(px) implies items.contains(px) && px != last by {
            let k = choose|k: int| 0 <= k < rest.len() && rest[k] == px;
            assert(items[k] == px);
        }
        assert(!lost.contains(last)) by {
            if lost.contains(last) {
                assert(rest.contains(last));
            }
        }
        assert(!kept.contains(last)) by {
            if kept.contains(last) {
                assert(rest.contains(last));
            }
        }
        assert(items.contains(last)) by {
            assert(items[items.len() - 1] == last);
        }
        assert forall|px: usize| select(items, flags, true).contains(px) implies items.contains(
            px,
        ) by {
            if px != last {
                let k = choose|k: int|
                    0 <= k < select(items, flags, true).len() && select(items, flags, true)[k]
                        == px;
                assert(lost[k] == px);
            }
        }
        assert forall|px: usize| select(items, flags, false).contains(px) implies items.contains(
            px,
        ) by {
            if px != last {
                let k = choose|k: int|
                    0 <= k < select(items, flags, false).len() && select(items, flags, false)[k]
                        == px;
                assert(kept[k] == px);
            }
        }
    }
}

/// The number of `true` entries of a sequence.
pub open spec fn count_true(flags: Seq<bool>) -> nat
    decreases flags.len(),
{
    if flags.len() == 0 {
        0
    } else {
        count_true(flags.drop_last()) + if flags.last() {
            1nat
        } else {
            0nat
        }
    }
}

/// The positions at which a sequence holds `true`.
pub open spec fn true_positions(flags: Seq<bool>) -> Set<usize> {
    Set::new(|px: usize| px < flags.len() && flags[px as int])
}

/// A sequence has as many `true` entries as positions that hold `true`.
pub proof fn lemma_count_true_positions(flags: Seq<bool>)
    requires
        flags.len() <= usize::MAX,
    ensures
        true_positions(flags).finite(),
        true_positions(flags).len() == count_true(flags),
    decreases flags.len(),
{
    if flags.len() == 0 {
        assert(true_positions(flags) =~= Set::<usize>::empty());
    } else {
        let rest = flags.drop_last();
        let last = (flags.len() - 1) as usize;
        lemma_count_true_positions(rest);
        if flags.last() {
            assert(true_positions(flags) =~= true_positions(rest).insert(last));
        } else {
            assert(true_positions(flags) =~= true_positions(rest));
        }
    }
}

/// Whether `first` stands before `second` somewhere in `whole`.
pub open spec fn in_order(whole: Seq<usize>, first: usize, second: usize) -> bool {
    exists|a: int, b: int| 0 <= a < b < whole.len() && whole[a] == first && whole[b] == second
}

/// Whether `part` holds items of `whole` in the order they have there: of
/// any two items of `part`, the earlier one stands before the later one in
/// `whole`.
pub open spec fn keeps_order(part: Seq<usize>, whole: Seq<usize>) -> bool {
    forall|i: int, j: int| 0 <= i < j < part.len() ==> #[trigger] in_order(whole, part[i], part[j])
}

/// A sequence keeps its own order.
pub proof fn lemma_keeps_own_order(items: Seq<usize>)
    ensures
        keeps_order(items, items),
{
    assert forall|i: int, j: int| 0 <= i < j < items.len() implies #[trigger] in_order(
        items,
        items[i],
        items[j],
    ) by {
        assert(0 <= i < j < items.len() && items[i] == items[i] && items[j] == items[j]);
    }
}

/// Taking one item out of a sequence keeps the order of the rest.
pub proof fn lemma_remove_keeps_order(items: Seq<usize>, index: int)
    requires
        0 <= index < items.len(),
    ensures
        keeps_order(items.remove(index), items),
{
    let rest = items.remove(index);
    assert forall|i: int, j: int| 0 <= i < j < rest.len() implies #[trigger] in_order(
        items,
        rest[i],
        rest[j],
    ) by {
        let a = if i < index {
            i
        } else {
            i + 1
        };
        let b = if j < index {
            j
        } else {
            j + 1
        };
        assert(0 <= a < b < items.len() && items[a] == rest[i] && items[b] == rest[j]);
    }
}

/// What keeps the order of a part of a sequence keeps the order of the
/// sequence.
pub proof fn lemma_keeps_order_twice(part: Seq<usize>, middle: Seq<usize>, whole: Seq<usize>)
    requires
        keeps_order(part, middle),
        keeps_order(middle, whole),
    ensures
        keeps_order(part, whole),
{
    assert forall|i: int, j: int| 0 <= i < j < part.len() implies #[trigger] in_order(
        whole,
        part[i],
        part[j],
    ) by {
        assert(in_order(middle, part[i], part[j]));
        let (m, n) = choose|m: int, n: int|
            0 <= m < n < middle.len() && middle[m] == part[i] && middle[n] == part[j];
        assert(in_order(whole, middle[m], middle[n]));
    }
}

/// What is left of a sequence after one item is taken out was in it before.
pub proof fn lemma_remove_contains(items: Seq<usize>, index: int)
    requires
        0 <= index < items.len(),
    ensures
        forall|px: usize| items.remove(index).contains(px) ==> items.contains(px),
{
    assert forall|px: usize| items.remove(index).contains(px) implies items.contains(px) by {
        let k = choose|k: int| 0 <= k < items.remove(index).len() && items.remove(index)[k] == px;
        if k < index {
            assert(items[k] == px);
        } else {
            assert(items[k + 1] == px);
        }
    }
}

/// Whether one decay can lead from the lit pixels `active` and the unlit
/// pixels `inactive` to `active_after` and `inactive_after`, where `lost`
/// flags the lit pixels that go out. Those that stay lit keep their places
/// at the front. Those that go out join the unlit ones at the end, and as
/// many of that larger pool come on instead: they follow the lit ones, and
/// the rest of the pool keeps its order.
pub open spec fn decays_to(
    active: Seq<usize>,
    inactive: Seq<usize>,
    lost: Seq<bool>,
    active_after: Seq<usize>,
    inactive_after: Seq<usize>,
) -> bool {
    let kept = select(active, lost, false);
    let gone = select(active, lost, true);
    &&& lost.len() == active.len()
    &&& active_after.len() == active.len()
    &&& inactive_after.len() == inactive.len()
    &&& active_after.take(kept.len() as int) == kept
    &&& keeps_order(inactive_after, inactive + gone)
}

/// The lit and unlit pixels of a display of `total` pixels.
pub struct PixelGrid {
    active: Vec<usize>,
    inactive: Vec<usize>,
    num_px: usize,
    rng: ThreadRng,
}

impl PixelGrid {
    /// The lit pixels, in the order in which they were lit.
    pub closed spec fn active(&self) -> Seq<usize> {
        self.active@
    }

    /// The unlit pixels, in the order in which they went out.
    pub closed spec fn inactive(&self) -> Seq<usize> {
        self.inactive@
    }

    /// The number of pixels of the display.
    pub closed spec fn total(&self) -> nat {
        self.num_px as nat
    }

    /// Every pixel of the display is either lit or unlit, and none is both.
    pub open spec fn valid(&self) -> bool {
        is_partition(self.active(), self.inactive(), self.total())
    }

    /// A grid of `num` pixels, all unlit.
    pub fn new(num: usize) -> (grid: PixelGrid)
        ensures
            grid.valid(),
            grid.total() == num,
            grid.active() == Seq::<usize>::empty(),
            grid.inactive() == Seq::new(num as nat, |i: int| i as usize),
    {
        let mut inactive: Vec<usize> = Vec::new();
        for px in 0..num
            invariant
                inactive@ == Seq::new(px as nat, |i: int| i as usize),
        {
            inactive.push(px);
            assert(inactive@ =~= Seq::new((px + 1) as nat, |i: int| i as usize));
        }
        PixelGrid { active: Vec::new(), inactive, num_px: num, rng: thread_rng() }
    }

    /// Turns off the lit pixel at position `index` of the lit ones.
    pub fn deactivate_at(&mut self, index: usize)
        requires
            old(self).valid(),
            index < old(self).active().len(),
        ensures
            final(self).valid(),
            final(self).total() == old(self).total(),
            final(self).active() == old(self).active().remove(index as int),
            final(self).inactive() == old(self).inactive().push(old(self).active()[index as int]),
    {
        let px = self.active.remove(index);
        self.inactive.push(px);
    }

    /// Turns on the unlit pixel at position `index` of the unlit ones.
    pub fn activate_at(&mut self, index: usize)
        requires
            old(self).valid(),
            index < old(self).inactive().len(),
        ensures
            final(self).valid(),
            final(self).total() == old(self).total(),
            final(self).inactive() == old(self).inactive().remove(index as int),
            final(self).active() == old(self).active().push(old(self).inactive()[index as int]),
    {
        let px = self.inactive.remove(index);
        self.active.push(px);
    }

    /// Turns off `n` of the lit pixels, each picked at random among those
    /// still lit. Asked for more than are lit, it reports that and moves
    /// nothing. The pixels that go out join the unlit ones at the end; those
    /// that stay lit keep their order.
    pub fn deactivate(&mut self, n: usize) -> (result: Result<(), GridError>)
        requires
            old(self).valid(),
        ensures
            final(self).valid(),
            final(self).total() == old(self).total(),
            n > old(self).active().len() ==> {
                &&& result == Err::<(), GridError>(
                    GridError::Deactivate { requested: n, active: old(self).active().len() as usize },
                )
                &&& final(self).active() == old(self).active()
                &&& final(self).inactive() == old(self).inactive()
            },
            n <= old(self).active().len() ==> {
                &&& result is Ok
                &&& final(self).active().len() == old(self).active().len() - n
                &&& final(self).inactive().len() == old(self).inactive().len() + n
                &&& final(self).inactive().take(old(self).inactive().len() as int) == old(
                    self,
                ).inactive()
                &&& forall|px: usize|
                    final(self).active().contains(px) ==> old(self).active().contains(px)
                &&& keeps_order(final(self).active(), old(self).active())
            },
    {
        if n > self.active.len() {
            return Err(GridError::Deactivate { requested: n, active: self.active.len() });
        }
        let ghost active0 = self.active();
        let ghost inactive0 = self.inactive();
        proof {
            lemma_keeps_own_order(active0);
            lemma_keeps_own_order(inactive0);
        }
        let mut moved: usize = 0;
        while moved < n
            invariant
                self.valid(),
                self.total() == old(self).total(),
                moved <= n <= active0.len(),
                self.active().len() == active0.len() - moved,
                self.inactive().len() == inactive0.len() + moved,
                self.inactive().take(inactive0.len() as int) == inactive0,
                forall|px: usize| self.active().contains(px) ==> active0.contains(px),
                keeps_order(self.active(), active0),
            decreases n - moved,
        {
            let ghost active1 = self.active();
            let ghost inactive1 = self.inactive();
            let len = self.active.len();
            let index = gen_range(&mut self.rng, 0, len);
            self.deactivate_at(index);
            moved += 1;
            proof {
                lemma_remove_contains(active1, index as int);
                lemma_remove_keeps_order(active1, index as int);
                lemma_keeps_order_twice(self.active(), active1, active0);
                assert(self.inactive().take(inactive0.len() as int) =~= inactive1.take(
                    inactive0.len() as int,
                ));
            }
        }
        assert(self.inactive().take(inactive0.len() as int) == inactive0);
        Ok(())
    }

    /// Turns on `n` of the unlit pixels, each picked at random among those
    /// still unlit. Asked for more than are unlit, it reports that and moves
    /// nothing. The pixels that come on join the lit ones at the end; those
    /// that stay unlit keep their order.
    pub fn activate(&mut self, n: usize) -> (result: Result<(), GridError>)
        requires
            old(self).valid(),
        ensures
            final(self).valid(),
            final(self).total() == old(self).total(),
            n > old(self).inactive().len() ==> {
                &&& result == Err::<(), GridError>(
                    GridError::Activate {
                        requested: n,
                        inactive: old(self).inactive().len() as usize,
                    },
                )
                &&& final(self).active() == old(self).active()
                &&& final(self).inactive() == old(self).inactive()
            },
            n <= old(self).inactive().len() ==> {
                &&& result is Ok
                &&& final(self).inactive().len() == old(self).inactive().len() - n
                &&& final(self).active().len() == old(self).active().len() + n
                &&& final(self).active().take(old(self).active().len() as int) == old(
                    self,
                ).active()
                &&& forall|px: usize|
                    final(self).inactive().contains(px) ==> old(self).inactive().contains(px)
                &&& keeps_order(final(self).inactive(), old(self).inactive())
            },
    {
        if n > self.inactive.len() {
            return Err(GridError::Activate { requested: n, inactive: self.inactive.len() });
        }
        let ghost active0 = self.active();
        let ghost inactive0 = self.inactive();
        proof {
            lemma_keeps_own_order(active0);
            lemma_keeps_own_order(inactive0);
        }
        let mut moved: usize = 0;
        while moved < n
            invariant
                self.valid(),
                self.total() == old(self).total(),
                moved <= n <= inactive0.len(),
                self.inactive().len() == inactive0.len() - moved,
                self.active().len() == active0.len() + moved,
                self.active().take(active0.len() as int) == active0,
                forall|px: usize| self.inactive().contains(px) ==> inactive0.contains(px),
                keeps_order(self.inactive(), inactive0),
            decreases n - moved,
        {
            let ghost active1 = self.active();
            let ghost inactive1 = self.inactive();
            let len = self.inactive.len();
            let index = gen_range(&mut self.rng, 0, len);
            self.activate_at(index);
            moved += 1;
            proof {
                lemma_remove_contains(inactive1, index as int);
                lemma_remove_keeps_order(inactive1, index as int);
                lemma_keeps_order_twice(self.inactive(), inactive1, inactive0);
                assert(self.active().take(active0.len() as int) =~= active1.take(
                    active0.len() as int,
                ));
            }
        }
        assert(self.active().take(active0.len() as int) == active0);
        Ok(())
    }

    /// Turns off the lit pixels that `lost` flags, one flag for each lit
    /// pixel in order, and says how many went out. They join the unlit ones
    /// at the end, in the order they had.
    pub fn retire(&mut self, lost: &Vec<bool>) -> (count: usize)
        requires
            old(self).valid(),
            lost@.len() == old(self).active().len(),
        ensures
            final(self).valid(),
            final(self).total() == old(self).total(),
            final(self).active() == select(old(self).active(), lost@, false),
            final(self).inactive() == old(self).inactive() + select(
                old(self).active(),
                lost@,
                true,
            ),
            count == select(old(self).active(), lost@, true).len(),
    {
        let ghost active0 = self.active();
        let ghost inactive0 = self.inactive();
        let mut keeping: Vec<usize> = Vec::new();
        let len = self.active.len();
        for index in 0..len
            invariant
                len == active0.len(),
                lost@.len() == len,
                self.active@ == active0,
                self.num_px == old(self).num_px,
                keeping@ == select(active0.take(index as int), lost@, false),
                self.inactive@ == inactive0 + select(active0.take(index as int), lost@, true),
        {
            assert(active0.take(index + 1).drop_last() =~= active0.take(index as int));
            let px = self.active[index];
            if lost[index] {
                self.inactive.push(px);
                assert(self.inactive@ =~= inactive0 + select(active0.take(index + 1), lost@, true));
            } else {
                keeping.push(px);
            }
        }
        proof {
            assert(active0.take(len as int) =~= active0);
            lemma_select_splits(active0, lost@);
        }
        let num_lost = self.active.len() - keeping.len();
        self.active = keeping;
        proof {
            let gone = select(active0, lost@, true);
            assert forall|j: int| 0 <= j < gone.len() implies active0.contains(#[trigger] gone[j]) by {
                assert(gone.contains(gone[j]));
            }
            assert forall|i: int| 0 <= i < self.active().len() implies active0.contains(
                #[trigger] self.active()[i],
            ) by {
                assert(self.active().contains(self.active()[i]));
            }
            vstd::seq_lib::lemma_no_dup_in_concat(inactive0, gone);
        }
        num_lost
    }

    /// Decay: each lit pixel goes out with a small fixed chance, and as many
    /// unlit pixels, picked at random among the unlit ones and those that
    /// just went out, come on in their place. Which pixels are lit may
    /// change; how many are lit does not. Whatever the draws, the pixels
    /// that stay lit keep their places at the front of the lit ones, the new
    /// ones follow them, and the unlit ones keep their order.
    pub fn refresh(&mut self) -> (result: Result<(), GridError>)
        requires
            old(self).valid(),
        ensures
            final(self).valid(),
            final(self).total() == old(self).total(),
            result is Ok,
            final(self).active().len() == old(self).active().len(),
            final(self).inactive().len() == old(self).inactive().len(),
            exists|lost: Seq<bool>|
                #[trigger] decays_to(
                    old(self).active(),
                    old(self).inactive(),
                    lost,
                    final(self).active(),
                    final(self).inactive(),
                ),
    {
        let ghost active0 = self.active();
        let ghost inactive0 = self.inactive();
        if !self.active.is_empty() {
            let len = self.active.len();
            let mut lost: Vec<bool> = Vec::new();
            for index in 0..len
                invariant
                    lost@.len() == index,
                    self.active == old(self).active,
                    self.inactive == old(self).inactive,
                    self.num_px == old(self).num_px,
            {
                let hit = gen_ratio(&mut self.rng, DECAY_NUMERATOR, DECAY_DENOMINATOR);
                lost.push(hit);
            }
            proof {
                lemma_select_splits(self.active(), lost@);
            }
            let num_lost = self.retire(&lost);
            let result = self.activate(num_lost);
            proof {
                assert(decays_to(active0, inactive0, lost@, self.active(), self.inactive()));
            }
            result
        } else {
            proof {
                let lost = Seq::<bool>::empty();
                lemma_keeps_own_order(inactive0);
                assert(inactive0 + select(active0, lost, true) =~= inactive0);
                assert(self.active().take(0) =~= select(active0, lost, false));
                assert(decays_to(active0, inactive0, lost, self.active(), self.inactive()));
            }
            Ok(())
        }
    }

    /// Moves the number of lit pixels to the wanted share of the display,
    /// rounded down, and lets the lit set decay. With too many lit, the
    /// surplus goes out and the rest decays; with too few, the lit ones decay
    /// and then the missing ones come on. So a share of nothing puts every
    /// pixel out and the whole lights them all, in one step, and the same
    /// share again leaves the number as it is. No share up to the whole
    /// fails. A share above the whole cannot be met: the lit set decays, and
    /// the error says how many pixels were missing for it.
    pub fn update_percentage(&mut self, percentage: Fraction) -> (result: Result<(), GridError>)
        requires
            old(self).valid(),
            percentage.valid(),
        ensures
            final(self).valid(),
            final(self).total() == old(self).total(),
            percentage.target(old(self).total()) <= old(self).total() ==> {
                &&& result is Ok
                &&& final(self).active().len() == percentage.target(old(self).total())
            },
            percentage.target(old(self).total()) > old(self).total() ==> {
                &&& result == Err::<(), GridError>(
                    GridError::Activate {
                        requested: (percentage.target(old(self).total()) - old(
                            self,
                        ).active().len()) as usize,
                        inactive: old(self).inactive().len() as usize,
                    },
                )
                &&& final(self).active().len() == old(self).active().len()
            },
            percentage.numerator() <= percentage.denominator() ==> result is Ok,
            percentage.numerator() == 0 ==> {
                &&& result is Ok
                &&& final(self).active().len() == 0
            },
            percentage.numerator() == percentage.denominator() ==> {
                &&& result is Ok
                &&& final(self).active().len() == old(self).total()
            },
    {
        proof {
            if percentage.numerator() <= percentage.denominator() {
                percentage.lemma_target_within_whole(self.total());
            }
            if percentage.numerator() == 0 {
                percentage.lemma_target_of_none(self.total());
            }
            if percentage.numerator() == percentage.denominator() {
                percentage.lemma_target_of_all(self.total());
            }
        }
        let num_px_required = percentage.scale(self.num_px);
        let lit = self.active.len();
        if num_px_required == lit {
            self.refresh()
        } else if num_px_required < lit {
            match self.deactivate(lit - num_px_required) {
                Ok(()) => self.refresh(),
                Err(e) => Err(e),
            }
        } else {
            match self.refresh() {
                Ok(()) => self.activate(num_px_required - lit),
                Err(e) => Err(e),
            }
        }
    }

    /// For each pixel of the display, whether it is lit.
    pub fn get_status(&self) -> (status: Vec<bool>)
        requires
            self.valid(),
        ensures
            status@.len() == self.total(),
            forall|px: int|
                0 <= px < self.total() ==> status@[px] == self.active().contains(px as usize),
            count_true(status@) == self.active().len(),
    {
        let mut result = vec![false; self.num_px];
        let len = self.active.len();
        for index in 0..len
            invariant
                len == self.active@.len(),
                self.valid(),
                result@.len() == self.num_px,
                forall|px: int|
                    0 <= px < self.num_px ==> result@[px] == self.active@.take(
                        index as int,
                    ).contains(px as usize),
        {
            let px = self.active[index];
            result[px] = true;
            proof {
                let before = self.active@.take(index as int);
                let after = self.active@.take(index + 1);
                assert(after =~= before.push(px));
                assert forall|q: int| 0 <= q < self.num_px implies result@[q] == after.contains(
                    q as usize,
                ) by {
                    if q == px {
                        assert(after[index as int] == px);
                    } else if before.contains(q as usize) {
                        let k = choose|k: int| 0 <= k < before.len() && before[k] == q as usize;
                        assert(after[k] == q as usize);
                    } else if after.contains(q as usize) {
                        let k = choose|k: int| 0 <= k < after.len() && after[k] == q as usize;
                        assert(before[k] == q as usize);
                    }
                }
            }
        }
        proof {
            assert(self.active@.take(len as int) =~= self.active@);
            self.lemma_status_count(result@);
        }
        result
    }

    /// At every moment the lit and the unlit pixels share no pixel, together
    /// they are the pixels of the display, and their numbers add up to its
    /// size.
    pub proof fn lemma_partition(&self)
        requires
            self.valid(),
        ensures
            self.active().len() + self.inactive().len() == self.total(),
            self.active().to_set().disjoint(self.inactive().to_set()),
            self.active().to_set().union(self.inactive().to_set()) == Set::<usize>::range(
                0,
                self.total() as usize,
            ),
            self.active().to_set().len() == self.active().len(),
            self.inactive().to_set().len() == self.inactive().len(),
    {
        let lit = self.active().to_set();
        let unlit = self.inactive().to_set();
        let all = Set::<usize>::range(0, self.total() as usize);
        self.active().unique_seq_to_set();
        self.inactive().unique_seq_to_set();
        vstd::seq_lib::seq_to_set_is_finite(self.active());
        vstd::seq_lib::seq_to_set_is_finite(self.inactive());
        assert(lit.disjoint(unlit)) by {
            assert forall|px: usize| !(lit.contains(px) && unlit.contains(px)) by {
                if lit.contains(px) && unlit.contains(px) {
                    let i = choose|i: int| 0 <= i < self.active().len() && self.active()[i] == px;
                    let j = choose|j: int|
                        0 <= j < self.inactive().len() && self.inactive()[j] == px;
                    assert(self.active()[i] != self.inactive()[j]);
                }
            }
        }
        vstd::set_lib::lemma_set_disjoint_lens(lit, unlit);
        vstd::set_lib::range_set_properties::<usize>(0, self.total() as usize);
        assert(lit.union(unlit).subset_of(all)) by {
            assert forall|px: usize| lit.union(unlit).contains(px) implies all.contains(px) by {
                if lit.contains(px) {
                    let i = choose|i: int| 0 <= i < self.active().len() && self.active()[i] == px;
                    assert(self.active()[i] < self.total());
                } else {
                    let j = choose|j: int|
                        0 <= j < self.inactive().len() && self.inactive()[j] == px;
                    assert(self.inactive()[j] < self.total());
                }
            }
        }
        vstd::set_lib::lemma_subset_equality(lit.union(unlit), all);
    }

    /// A status vector has exactly as many `true` entries as pixels are lit.
    pub proof fn lemma_status_count(&self, status: Seq<bool>)
        requires
            self.valid(),
            status.len() == self.total(),
            forall|px: int|
                0 <= px < self.total() ==> status[px] == self.active().contains(px as usize),
        ensures
            count_true(status) == self.active().len(),
            true_positions(status) == self.active().to_set(),
    {
        lemma_count_true_positions(status);
        self.active().unique_seq_to_set();
        assert(true_positions(status) =~= self.active().to_set()) by {
            assert forall|px: usize| self.active().to_set().contains(px) implies true_positions(
                status,
            ).contains(px) by {
                let i = choose|i: int| 0 <= i < self.active().len() && self.active()[i] == px;
                assert(self.active()[i] < self.total());
                assert(status[px as int] == self.active().contains(px));
            }
            assert forall|px: usize| true_positions(status).contains(px) implies self.active().to_set().contains(
                px,
            ) by {
                assert(status[px as int] == self.active().contains(px));
            }
        }
    }
}

} // verus!
