//! Food items: where they lie, what they do, and how long they last.

use vstd::prelude::*;
use crate::geometry::{Position, Size};

verus! {

/// What eating a food does to the snake.
#[derive(Clone, Copy, PartialEq, Eq, Debug, Structural)]
pub enum FoodGroup {
    /// Adds a segment.
    Grow,
    /// Removes two segments, keeping at least one.
    Shrink,
    /// Kills the snake.
    Poison,
}

/// A food on the board. `lifetime` is the number of further ticks it
/// survives uneaten; `None` means it never rots. Two foods are equal when
/// they share position and group.
#[derive(Clone, Copy, Debug)]
pub struct Food {
    pub group: FoodGroup,
    pub pos: Position,
    pub lifetime: Option<usize>,
}

impl PartialEq for Food {
    fn eq(&self, o: &Food) -> (r: bool)
        ensures
            r == self.same_kind(*o),
    {
        self.pos == o.pos && self.group == o.group
    }
}

impl vstd::std_specs::cmp::PartialEqSpecImpl for Food {
    open spec fn obeys_eq_spec() -> bool {
        true
    }

    open spec fn eq_spec(&self, o: &Food) -> bool {
        self.same_kind(*o)
    }
}

impl Food {
    /// Same position and same group.
    pub open spec fn same_kind(self, o: Food) -> bool {
        self.pos == o.pos && self.group == o.group
    }

    /// What is left of this food after one aging pass: a finite lifetime
    /// counts down by one, and a food whose lifetime is already 0 is gone.
    pub open spec fn spec_aged(self) -> Option<Food> {
        match self.lifetime {
            Some(n) => if n == 0 {
                None
            } else {
                Some(Food { lifetime: Some((n - 1) as usize), ..self })
            },
            None => Some(self),
        }
    }

    /// A food that never rots.
    pub fn new(pos: Position, group: FoodGroup) -> (r: Food)
        ensures
            r == (Food { pos, group, lifetime: None }),
    {
        Food { pos, group, lifetime: None }
    }

    /// A food that survives `lifetime` more ticks.
    pub fn new_with_lifetime(pos: Position, group: FoodGroup, lifetime: usize) -> (r: Food)
        ensures
            r == (Food { pos, group, lifetime: Some(lifetime) }),
    {
        Food { pos, group, lifetime: Some(lifetime) }
    }

    /// One aging pass on this food.
    pub fn aged(&self) -> (r: Option<Food>)
        ensures
            r == self.spec_aged(),
    {
        match self.lifetime {
            Some(n) => if n == 0 {
                None
            } else {
                Some(Food { group: self.group, pos: self.pos, lifetime: Some(n - 1) })
            },
            None => Some(*self),
        }
    }
}

/// The foods that remain after one aging pass, in their order.
pub open spec fn aged_foods(s: Seq<Food>) -> Seq<Food>
    decreases s.len(),
{
    if s.len() == 0 {
        Seq::empty()
    } else {
        let rest = aged_foods(s.drop_last());
        match s.last().spec_aged() {
            Some(f) => rest.push(f),
            None => rest,
        }
    }
}

/// The foods that remain after `n` aging passes.
pub open spec fn aged_foods_times(s: Seq<Food>, n: nat) -> Seq<Food>
    decreases n,
{
    if n == 0 {
        s
    } else {
        aged_foods(aged_foods_times(s, (n - 1) as nat))
    }
}

/// Applies one aging pass to every food.
pub fn age_foods(foods: &Vec<Food>) -> (r: Vec<Food>)
    ensures
        r@ == aged_foods(foods@),
{
    let mut r: Vec<Food> = Vec::new();
    let mut i: usize = 0;
    while i < foods.len()
        invariant
            i <= foods@.len(),
            r@ == aged_foods(foods@.subrange(0, i as int)),
        decreases foods@.len() - i,
    {
        let ghost prefix = foods@.subrange(0, i + 1);
        assert(prefix.drop_last() == foods@.subrange(0, i as int));
        match foods[i].aged() {
            Some(f) => r.push(f),
            None => {},
        }
        i = i + 1;
    }
    assert(foods@.subrange(0, foods@.len() as int) == foods@);
    r
}

/// A food with lifetime `k` is still there, with lifetime `k - n`, after
/// `n <= k` aging passes, and gone after any more; a food without a lifetime
/// is never removed by aging.
pub proof fn lemma_food_expiry(f: Food, n: nat)
    ensures
        f.lifetime is None ==> aged_foods_times(seq![f], n) == seq![f],
        f.lifetime is Some && n <= f.lifetime->0 ==> aged_foods_times(seq![f], n) == seq![
            Food { lifetime: Some((f.lifetime->0 - n) as usize), ..f },
        ],
        f.lifetime is Some && n > f.lifetime->0 ==> aged_foods_times(seq![f], n).len() == 0,
    decreases n,
{
    if n > 0 {
        lemma_food_expiry(f, (n - 1) as nat);
        let prev = aged_foods_times(seq![f], (n - 1) as nat);
        reveal_with_fuel(aged_foods, 2);
        if prev.len() == 1 {
            assert(prev.drop_last() == Seq::<Food>::empty());
        }
        if prev.len() == 0 {
            assert(aged_foods(prev) == Seq::<Food>::empty());
        }
    }
}

/// Aging keeps every food on a board that held them all.
pub proof fn lemma_aged_foods_within(s: Seq<Food>, size: Size)
    requires
        forall|i: int| 0 <= i < s.len() ==> size.holds(#[trigger] s[i].pos),
    ensures
        forall|i: int|
            0 <= i < aged_foods(s).len() ==> size.holds(#[trigger] aged_foods(s)[i].pos),
    decreases s.len(),
{
    if s.len() > 0 {
        let init = s.drop_last();
        assert forall|i: int| 0 <= i < init.len() implies size.holds(#[trigger] init[i].pos) by {
            assert(init[i] == s[i]);
        }
        lemma_aged_foods_within(init, size);
        assert(size.holds(s[s.len() - 1].pos));
    }
}

/// Aging a sequence keeps what each of its foods ages into.
pub proof fn lemma_aged_foods_keeps(s: Seq<Food>, i: int)
    requires
        0 <= i < s.len(),
        s[i].spec_aged() is Some,
    ensures
        aged_foods(s).contains(s[i].spec_aged()->0),
    decreases s.len(),
{
    let init = s.drop_last();
    if i < s.len() - 1 {
        assert(init[i] == s[i]);
        lemma_aged_foods_keeps(init, i);
        let k = choose|k: int| 0 <= k < aged_foods(init).len() && aged_foods(init)[k] == s[i].spec_aged()->0;
        assert(aged_foods(s)[k] == aged_foods(init)[k]);
    } else {
        assert(aged_foods(s)[aged_foods(s).len() - 1] == s[i].spec_aged()->0);
    }
}

/// No two foods share position and group.
pub open spec fn distinct_kinds(s: Seq<Food>) -> bool {
    forall|i: int, j: int| 0 <= i < j < s.len() ==> !(#[trigger] s[i].same_kind(s[j]))
}

/// Every food left after aging is what one food before it aged into, and
/// aging keeps kinds distinct.
pub proof fn lemma_aged_foods_kinds(s: Seq<Food>)
    ensures
        forall|k: int|
            0 <= k < aged_foods(s).len() ==> exists|j: int|
                0 <= j < s.len() && s[j].spec_aged() == Some(#[trigger] aged_foods(s)[k]),
        distinct_kinds(s) ==> distinct_kinds(aged_foods(s)),
    decreases s.len(),
{
    if s.len() > 0 {
        let init = s.drop_last();
        lemma_aged_foods_kinds(init);
        let prev = aged_foods(init);
        let a = aged_foods(s);
        assert forall|k: int| 0 <= k < a.len() implies exists|j: int|
            0 <= j < s.len() && s[j].spec_aged() == Some(#[trigger] a[k]) by {
            if k < prev.len() {
                assert(a[k] == prev[k]);
                let j = choose|j: int| 0 <= j < init.len() && init[j].spec_aged() == Some(prev[k]);
                assert(init[j] == s[j]);
            } else {
                assert(s[s.len() - 1].spec_aged() == Some(a[k]));
            }
        }
        if distinct_kinds(s) {
            assert forall|i: int, j: int| 0 <= i < j < init.len() implies !(#[trigger] init[i].same_kind(init[j])) by {
                assert(init[i] == s[i] && init[j] == s[j]);
            }
            assert forall|i: int, j: int| 0 <= i < j < a.len() implies !(#[trigger] a[i].same_kind(a[j])) by {
                if j < prev.len() {
                    assert(a[i] == prev[i] && a[j] == prev[j]);
                } else {
                    assert(a[i] == prev[i]);
                    let m = choose|m: int| 0 <= m < init.len() && init[m].spec_aged() == Some(prev[i]);
                    assert(init[m] == s[m]);
                    assert(!s[m].same_kind(s[s.len() - 1]));
                }
            }
        }
    }
}

} // verus!
