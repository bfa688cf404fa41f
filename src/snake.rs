//! The snake: its body, its direction, and how it moves, grows and shrinks.

use vstd::prelude::*;
use std::collections::VecDeque;
use std::collections::vec_deque::Iter;
use crate::geometry::{Direction, Position, Size, at_edge, wrapped_step, lemma_wrapped_step};
use crate::food::FoodGroup;

verus! {

broadcast use vstd::std_specs::vecdeque::group_vec_dequeue_axioms;

/// One cell of the snake's body.
#[derive(Clone, Copy, PartialEq, Eq, Debug, Structural)]
pub struct Segment {
    pub pos: Position,
}

impl Segment {
    pub fn new(pos: Position) -> (r: Segment)
        ensures
            r.pos == pos,
    {
        Segment { pos }
    }
}

impl From<[usize; 2]> for Segment {
    fn from(d: [usize; 2]) -> (r: Segment)
        ensures
            r == (Segment { pos: Position { x: d@[0], y: d@[1] } }),
    {
        Segment { pos: Position { x: d[0], y: d[1] } }
    }
}

impl vstd::std_specs::convert::FromSpecImpl<[usize; 2]> for Segment {
    open spec fn obeys_from_spec() -> bool {
        true
    }

    open spec fn from_spec(d: [usize; 2]) -> Segment {
        Segment { pos: Position { x: d@[0], y: d@[1] } }
    }
}

/// Whether the snake lives on after a move, and if not, why.
#[derive(PartialEq, Eq, Debug, Structural)]
pub enum SnakeState {
    Alive,
    Dead(Reason),
}

#[derive(PartialEq, Eq, Debug, Structural)]
pub enum Reason {
    /// The head ran into the body.
    Collision,
    /// The snake ate poison.
    Poison,
}

/// The snake. `segments` runs from the head (index 0) to the tail;
/// `travel_dir` is the direction asked for the next move and
/// `travelled_dir` the direction of the last move made.
pub struct Snake {
    pub segments: VecDeque<Segment>,
    pub travel_dir: Direction,
    pub travelled_dir: Direction,
    pub map_size: Size,
}

/// The snake as a mathematical value.
pub struct SnakeView {
    pub segments: Seq<Segment>,
    pub travel_dir: Direction,
    pub travelled_dir: Direction,
    pub map_size: Size,
}

/// `s` without its last segment, unless that would leave it empty.
pub open spec fn drop_tail(s: Seq<Segment>) -> Seq<Segment> {
    if s.len() > 1 {
        s.drop_last()
    } else {
        s
    }
}

impl SnakeView {
    /// At least one segment, a board of at least one cell, every segment
    /// on the board.
    pub open spec fn is_valid(self) -> bool {
        &&& self.segments.len() >= 1
        &&& self.map_size.is_valid()
        &&& forall|i: int|
            0 <= i < self.segments.len() ==> self.map_size.holds(#[trigger] self.segments[i].pos)
    }

    pub open spec fn head(self) -> Position {
        self.segments[0].pos
    }

    /// Where the head goes on the next move.
    pub open spec fn next_head(self) -> Position {
        wrapped_step(self.head(), self.travel_dir, self.map_size)
    }

    /// Some segment lies on `p`.
    pub open spec fn occupies(self, p: Position) -> bool {
        exists|i: int| 0 <= i < self.segments.len() && #[trigger] self.segments[i].pos == p
    }

    /// The snake after asking to go towards `d`: a request to reverse the
    /// last move is ignored.
    pub open spec fn with_dir(self, d: Direction) -> SnakeView {
        if d == self.travelled_dir.spec_opposite() {
            self
        } else {
            SnakeView { travel_dir: d, ..self }
        }
    }

    /// How the next move, eating `food`, ends.
    pub open spec fn outcome(self, food: Option<FoodGroup>) -> SnakeState {
        if self.occupies(self.next_head()) {
            SnakeState::Dead(Reason::Collision)
        } else if food == Some(FoodGroup::Poison) {
            SnakeState::Dead(Reason::Poison)
        } else {
            SnakeState::Alive
        }
    }

    /// The snake after the next move, eating `food`; unchanged when the move kills it.
    pub open spec fn slithered(self, food: Option<FoodGroup>) -> SnakeView {
        if !(self.outcome(food) is Alive) {
            self
        } else {
            let kept = match food {
                Some(FoodGroup::Grow) => self.segments,
                Some(FoodGroup::Shrink) => drop_tail(drop_tail(self.segments)).drop_last(),
                _ => self.segments.drop_last(),
            };
            SnakeView {
                segments: seq![Segment { pos: self.next_head() }] + kept,
                travelled_dir: self.travel_dir,
                ..self
            }
        }
    }
}

impl View for Snake {
    type V = SnakeView;

    open spec fn view(&self) -> SnakeView {
        SnakeView {
            segments: self.segments@,
            travel_dir: self.travel_dir,
            travelled_dir: self.travelled_dir,
            map_size: self.map_size,
        }
    }
}

impl Snake {
    /// A one-segment snake at `pos`, heading up.
    pub fn new(pos: Position, map_size: Size) -> (r: Snake)
        requires
            map_size.is_valid(),
            map_size.holds(pos),
        ensures
            r@ == (SnakeView {
                segments: seq![Segment { pos }],
                travel_dir: Direction::Up,
                travelled_dir: Direction::Up,
                map_size,
            }),
            r@.is_valid(),
    {
        let mut segments: VecDeque<Segment> = VecDeque::new();
        segments.push_back(Segment::new(pos));
        Snake { segments, travel_dir: Direction::Up, travelled_dir: Direction::Up, map_size }
    }

    /// Asks to go towards `dir` on the next move, unless that reverses the last move.
    pub fn set_dir(&mut self, dir: Direction)
        ensures
            final(self)@ == old(self)@.with_dir(dir),
            dir != old(self).travelled_dir.spec_opposite() ==> final(self).travel_dir == dir,
            dir == old(self).travelled_dir.spec_opposite() ==> final(self).travel_dir
                == old(self).travel_dir,
    {
        if dir != self.travelled_dir.opposite() {
            self.travel_dir = dir;
        }
    }

    /// Where the head goes on the next move, wrapping at the edges.
    pub fn get_next_head_pos(&self) -> (r: Position)
        requires
            self@.is_valid(),
        ensures
            r == self@.next_head(),
            self.map_size.holds(r),
    {
        let head = self.segments[0].pos;
        let size = self.map_size;
        proof {
            lemma_wrapped_step(head, self.travel_dir, size);
        }
        match self.travel_dir {
            Direction::Up => if head.y == size.y - 1 {
                Position { x: head.x, y: 0 }
            } else {
                head.shifted(Direction::Up)
            },
            Direction::Down => if head.y == 0 {
                Position { x: head.x, y: size.y - 1 }
            } else {
                head.shifted(Direction::Down)
            },
            Direction::Right => if head.x == size.x - 1 {
                Position { x: 0, y: head.y }
            } else {
                head.shifted(Direction::Right)
            },
            Direction::Left => if head.x == 0 {
                Position { x: size.x - 1, y: head.y }
            } else {
                head.shifted(Direction::Left)
            },
        }
    }

    /// The next move would run the head into the body.
    pub fn next_head_pos_in_body(&self) -> (r: bool)
        requires
            self@.is_valid(),
        ensures
            r == self@.occupies(self@.next_head()),
    {
        let next = self.get_next_head_pos();
        self.is_in_snake(next)
    }

    /// Some segment lies on `pos`.
    pub fn is_in_snake(&self, pos: Position) -> (r: bool)
        ensures
            r == self@.occupies(pos),
    {
        let n = self.segments.len();
        let mut i: usize = 0;
        while i < n
            invariant
                n == self.segments@.len(),
                i <= n,
                forall|j: int| 0 <= j < i ==> self.segments@[j].pos != pos,
            decreases n - i,
        {
            if self.segments[i].pos == pos {
                assert(self@.segments[i as int].pos == pos);
                return true;
            }
            i = i + 1;
        }
        false
    }

    /// Puts `seg` in front of the head, as the new head.
    pub fn add_front_segment(&mut self, seg: Segment)
        requires
            old(self)@.is_valid(),
            old(self).map_size.holds(seg.pos),
        ensures
            final(self)@ == (SnakeView { segments: seq![seg] + old(self)@.segments, ..old(self)@ }),
            final(self)@.is_valid(),
    {
        self.segments.push_front(seg);
        proof {
            let s = self@.segments;
            assert forall|i: int| 0 <= i < s.len() implies self.map_size.holds(#[trigger] s[i].pos) by {
                if i > 0 {
                    assert(s[i] == old(self)@.segments[i - 1]);
                }
            }
        }
    }

    /// Removes the tail segment, unless it is the only one.
    pub fn drop_last_segment(&mut self)
        requires
            old(self)@.is_valid(),
        ensures
            final(self)@ == (SnakeView { segments: drop_tail(old(self)@.segments), ..old(self)@ }),
            final(self)@.is_valid(),
    {
        if self.segments.len() > 1 {
            self.segments.pop_back();
            assert(self@.segments == old(self)@.segments.drop_last());
        }
    }

    /// Makes one move, eating `food` on the way. A move into the body, or
    /// onto poison, kills the snake and changes nothing. Otherwise the head
    /// advances one cell and the length changes by the food: unchanged with
    /// none, one more with `Grow`, two fewer (keeping one) with `Shrink`.
    /// A plain move takes the tail cell away and adds the new head, so a
    /// one-segment snake moves to the new cell.
    pub fn slither(&mut self, food: Option<FoodGroup>) -> (r: SnakeState)
        requires
            old(self)@.is_valid(),
        ensures
            r == old(self)@.outcome(food),
            final(self)@ == old(self)@.slithered(food),
            final(self)@.is_valid(),
            r is Alive ==> final(self)@.head() == old(self)@.next_head(),
            r is Alive ==> final(self).travelled_dir == old(self).travel_dir,
            !(r is Alive) ==> final(self)@ == old(self)@,
            food is None ==> final(self)@.segments.len() == old(self)@.segments.len(),
            food == Some(FoodGroup::Poison) ==> final(self)@ == old(self)@ && r == SnakeState::Dead(
                Reason::Poison,
            ) || r == SnakeState::Dead(Reason::Collision),
            r is Alive && food == Some(FoodGroup::Grow) ==> final(self)@.segments.len()
                == old(self)@.segments.len() + 1,
            r is Alive && food == Some(FoodGroup::Shrink) ==> final(self)@.segments.len() == if old(
                self,
            )@.segments.len() > 2 {
                old(self)@.segments.len() - 2
            } else {
                1
            },
    {
        if self.next_head_pos_in_body() {
            return SnakeState::Dead(Reason::Collision);
        }
        let next_pos = self.get_next_head_pos();
        match food {
            Some(FoodGroup::Grow) => {},
            Some(FoodGroup::Poison) => {
                return SnakeState::Dead(Reason::Poison);
            },
            Some(FoodGroup::Shrink) => {
                self.drop_last_segment();
                self.drop_last_segment();
                self.segments.pop_back();
            },
            None => {
                self.segments.pop_back();
            },
        }
        self.segments.push_front(Segment::new(next_pos));
        proof {
            let s = self@.segments;
            assert forall|i: int| 0 <= i < s.len() implies self.map_size.holds(#[trigger] s[i].pos) by {
                if i > 0 {
                    assert(s[i] == s.subrange(1, s.len() as int)[i - 1]);
                }
            }
        }
        self.travelled_dir = self.travel_dir;
        SnakeState::Alive
    }

    /// The segments, head first.
    pub fn iter_segments(&self) -> (r: Iter<'_, Segment>)
        ensures
            r == self.segments.iter(),
    {
        self.segments.iter()
    }
}

/// On a board at least two cells wide and high, a head on the edge that it
/// is heading off moves to the opposite edge, the other coordinate unchanged.
pub proof fn lemma_next_head_wraps(s: SnakeView)
    requires
        s.is_valid(),
        s.map_size.x >= 2,
        s.map_size.y >= 2,
        at_edge(s.head(), s.travel_dir, s.map_size),
    ensures
        s.travel_dir == Direction::Up ==> s.next_head() == (Position { x: s.head().x, y: 0 }),
        s.travel_dir == Direction::Down ==> s.next_head() == (Position {
            x: s.head().x,
            y: (s.map_size.y - 1) as usize,
        }),
        s.travel_dir == Direction::Right ==> s.next_head() == (Position { x: 0, y: s.head().y }),
        s.travel_dir == Direction::Left ==> s.next_head() == (Position {
            x: (s.map_size.x - 1) as usize,
            y: s.head().y,
        }),
{
    assert(s.map_size.holds(s.segments[0].pos));
    lemma_wrapped_step(s.head(), s.travel_dir, s.map_size);
}

/// A plain move keeps the length. A move that does not hit the body grows
/// the snake by one on `Grow` and shrinks it by two, keeping at least one
/// segment, on `Shrink`; poison kills it and leaves it as it was.
pub proof fn lemma_slither_lengths(s: SnakeView)
    requires
        s.is_valid(),
    ensures
        s.slithered(None).segments.len() == s.segments.len(),
        !s.occupies(s.next_head()) ==> s.slithered(Some(FoodGroup::Grow)).segments.len()
            == s.segments.len() + 1,
        !s.occupies(s.next_head()) ==> s.slithered(Some(FoodGroup::Shrink)).segments.len() == if s.segments.len() > 2 {
            s.segments.len() - 2
        } else {
            1
        },
        !s.occupies(s.next_head()) ==> s.slithered(Some(FoodGroup::Poison)) == s && s.outcome(
            Some(FoodGroup::Poison),
        ) == SnakeState::Dead(Reason::Poison),
{
}

/// A one-segment snake that does not run into itself moves whole to the
/// cell ahead.
pub proof fn lemma_single_segment_move(s: SnakeView)
    requires
        s.is_valid(),
        s.segments.len() == 1,
        s.next_head() != s.head(),
    ensures
        s.outcome(None) == SnakeState::Alive,
        s.slithered(None).segments == seq![Segment { pos: s.next_head() }],
{
    if s.occupies(s.next_head()) {
        let i = choose|i: int| 0 <= i < s.segments.len() && #[trigger] s.segments[i].pos == s.next_head();
        assert(i == 0);
    }
    assert(s.segments.drop_last() == Seq::<Segment>::empty());
    assert(seq![Segment { pos: s.next_head() }] + Seq::<Segment>::empty() == seq![Segment { pos: s.next_head() }]);
}

} // verus!
