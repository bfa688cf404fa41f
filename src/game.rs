//! The game state: one snake, the foods on the board, the score, and the
//! per-tick update that ties them together.

use vstd::prelude::*;
use vstd::string::StringExecFns;
use rand::rngs::StdRng;
use crate::geometry::{Direction, Position, Size};
use crate::food::{Food, FoodGroup, aged_foods, age_foods, distinct_kinds, lemma_aged_foods_kinds};
use crate::snake::{Snake, SnakeState, SnakeView};

verus! {

/// Chance of a spawn attempt producing a food is one in this many.
pub const SPAWN_ODDS: usize = 4;

/// Number of equally likely outcomes of the roll that picks a food's group.
pub const FOOD_KINDS: usize = 10;

/// Ticks that a poison or shrink food stays on the board uneaten.
pub const FOOD_LIFETIME: usize = 10;

/// The seed of the generator of a game made by `GameState::new`.
pub const DEFAULT_SEED: u64 = 0;

/// What the player asks the snake to do on a tick.
#[derive(Clone, Copy, PartialEq, Eq, Debug, Structural)]
pub enum SnakeControl {
    Up,
    Down,
    Left,
    Right,
    /// No request: the snake keeps its course.
    Idle,
}

/// What a cell of the board shows.
#[derive(Clone, Copy, PartialEq, Eq, Debug, Structural)]
pub enum Item {
    Snake,
    SnakeHead,
    Food(FoodGroup),
    Nothing,
}

/// The board, row by row: `rm[y][x]` is the cell at `(x, y)`.
pub type RenderMap = Vec<Vec<Item>>;

/// A picture of the game for a renderer.
pub struct RenderData {
    pub rm: RenderMap,
    pub score: usize,
    pub log_data: [Option<String>; 4],
}

pub struct GameState {
    pub snake: Snake,
    pub foods: Vec<Food>,
    pub map_size: Size,
    pub score: usize,
    /// The generator that food spawns draw from.
    pub rng: StdRng,
}

#[verifier::external_type_specification]
#[verifier::external_body]
pub struct ExStdRng(StdRng);

/// Relies on rand's `SeedableRng::seed_from_u64`: a generator whose draws
/// depend on `seed` alone.
#[verifier::external_body]
fn seeded_rng(seed: u64) -> (r: StdRng) {
    <StdRng as rand::SeedableRng>::seed_from_u64(seed)
}

/// Relies on rand's `Rng::gen_range` over `0..n`, which returns a value of
/// that range and panics only when it is empty.
#[verifier::external_body]
fn draw_below(rng: &mut StdRng, n: usize) -> (r: usize)
    requires
        n > 0,
    ensures
        r < n,
{
    rand::Rng::gen_range(rng, 0..n)
}

/// The decimal digits of `n`.
pub open spec fn decimal(n: nat) -> Seq<char>
    decreases n,
{
    let d = ((n % 10) + ('0' as nat)) as char;
    if n < 10 {
        seq![d]
    } else {
        decimal(n / 10).push(d)
    }
}

/// The status line that reports `score`.
pub open spec fn score_text(score: nat) -> Seq<char> {
    seq!['>', ' ', 's', 'c', 'o', 'r', 'e', ':', ' '] + decimal(score) + seq!['\n']
}

/// Relies on `ToString` through the `Display` of `usize`, which writes the
/// number in decimal.
#[verifier::external_body]
fn decimal_string(n: usize) -> (r: String)
    ensures
        r@ == decimal(n as nat),
{
    n.to_string()
}

/// The status line that reports `score`.
fn score_line(score: usize) -> (r: String)
    ensures
        r@ == score_text(score as nat),
{
    let digits = decimal_string(score);
    let mut line = <String as StringExecFns>::from_str("> score: ");
    line.append(digits.as_str());
    line.append("\n");
    proof {
        reveal_strlit("> score: ");
        reveal_strlit("\n");
    }
    line
}

impl SnakeControl {
    pub open spec fn spec_direction(self) -> Direction {
        match self {
            SnakeControl::Up => Direction::Up,
            SnakeControl::Down => Direction::Down,
            SnakeControl::Left => Direction::Left,
            _ => Direction::Right,
        }
    }

    /// The direction that a control other than `Idle` asks for.
    pub fn to_direction(&self) -> (r: Direction)
        requires
            !(*self is Idle),
        ensures
            r == self.spec_direction(),
    {
        match self {
            SnakeControl::Up => Direction::Up,
            SnakeControl::Down => Direction::Down,
            SnakeControl::Left => Direction::Left,
            _ => Direction::Right,
        }
    }
}

/// The snake after `control` is applied to it.
pub open spec fn steered(s: SnakeView, control: SnakeControl) -> SnakeView {
    if control is Idle {
        s
    } else {
        s.with_dir(control.spec_direction())
    }
}

/// Some food lies on `p`.
pub open spec fn has_food_at(foods: Seq<Food>, p: Position) -> bool {
    exists|i: int| 0 <= i < foods.len() && #[trigger] foods[i].pos == p
}

/// `i` is the first index of a food on `p`.
pub open spec fn is_first_food_at(foods: Seq<Food>, p: Position, i: int) -> bool {
    &&& 0 <= i < foods.len()
    &&& foods[i].pos == p
    &&& forall|j: int| 0 <= j < i ==> #[trigger] foods[j].pos != p
}

/// The index of the first food on `p`, if there is one.
pub open spec fn food_eaten(foods: Seq<Food>, p: Position) -> Option<int> {
    if has_food_at(foods, p) {
        Some(choose|i: int| is_first_food_at(foods, p, i))
    } else {
        None
    }
}

/// `foods` with `f` added, unless a food of the same position and group is there.
pub open spec fn with_food(foods: Seq<Food>, f: Food) -> Seq<Food> {
    if exists|j: int| 0 <= j < foods.len() && #[trigger] foods[j].same_kind(f) {
        foods
    } else {
        foods.push(f)
    }
}

/// The food that the group roll `roll` gives on `pos`: six in ten grow and
/// never rot, two in ten poison and two in ten shrink, both for a while.
pub open spec fn spec_food_for_roll(pos: Position, roll: usize) -> Food {
    if roll <= 5 {
        Food { pos, group: FoodGroup::Grow, lifetime: None }
    } else if roll <= 7 {
        Food { pos, group: FoodGroup::Poison, lifetime: Some(FOOD_LIFETIME) }
    } else {
        Food { pos, group: FoodGroup::Shrink, lifetime: Some(FOOD_LIFETIME) }
    }
}

/// `f` is a food that a spawn may add: on the board, off the snake, and of
/// one of the kinds that the group roll gives.
pub open spec fn spawnable(f: Food, snake: SnakeView, size: Size) -> bool {
    &&& size.holds(f.pos)
    &&& !snake.occupies(f.pos)
    &&& exists|roll: usize| roll < FOOD_KINDS && f == #[trigger] spec_food_for_roll(f.pos, roll)
}

/// The foods after a spawn attempt on `foods`: unchanged, or with one
/// spawnable food added.
pub open spec fn spawn_result(foods: Seq<Food>, after: Seq<Food>, snake: SnakeView, size: Size) -> bool {
    after == foods || exists|f: Food| spawnable(f, snake, size) && after == with_food(foods, f)
}

/// The group of the last food on `p`, if any.
pub open spec fn food_item_at(foods: Seq<Food>, p: Position) -> Option<FoodGroup>
    decreases foods.len(),
{
    if foods.len() == 0 {
        None
    } else if foods.last().pos == p {
        Some(foods.last().group)
    } else {
        food_item_at(foods.drop_last(), p)
    }
}

/// The cells `(x, y)` of row `y` with `x < n` that no segment covers, left to right.
pub open spec fn free_in_row(snake: SnakeView, y: usize, n: nat) -> Seq<Position>
    decreases n,
{
    if n == 0 {
        Seq::empty()
    } else {
        let p = Position { x: (n - 1) as usize, y };
        let before = free_in_row(snake, y, (n - 1) as nat);
        if snake.occupies(p) {
            before
        } else {
            before.push(p)
        }
    }
}

/// The free cells of the rows below `n` of a board `width` wide, row by row.
pub open spec fn free_in_rows(snake: SnakeView, width: usize, n: nat) -> Seq<Position>
    decreases n,
{
    if n == 0 {
        Seq::empty()
    } else {
        free_in_rows(snake, width, (n - 1) as nat) + free_in_row(snake, (n - 1) as usize, width as nat)
    }
}

/// The cells of the board that no segment covers, row by row from `y = 0`,
/// each row from `x = 0`.
pub open spec fn free_cells_of(gs: GameState) -> Seq<Position> {
    free_in_rows(gs.snake@, gs.map_size.x, gs.map_size.y as nat)
}

/// What `update` does: `pre` becomes `post` and the tick ends in `r`.
/// The control steers the snake; the first food on the cell ahead is
/// eaten and scores one; the snake moves; when `spawn` holds, a food may
/// appear; then every food ages.
pub open spec fn tick(
    pre: GameState,
    post: GameState,
    control: SnakeControl,
    spawn: bool,
    r: SnakeState,
) -> bool {
    let steered = steered(pre.snake@, control);
    let next = steered.next_head();
    let eaten = food_eaten(pre.foods@, next);
    let food = match eaten {
        Some(i) => Some(pre.foods@[i].group),
        None => None,
    };
    let left = match eaten {
        Some(i) => pre.foods@.remove(i),
        None => pre.foods@,
    };
    &&& post.snake@ == steered.slithered(food)
    &&& r == steered.outcome(food)
    &&& post.score == pre.score + if eaten is Some { 1int } else { 0int }
    &&& post.map_size == pre.map_size
    &&& !spawn ==> post.foods@ == aged_foods(left)
    &&& spawn ==> exists|spawned: Seq<Food>|
        spawn_result(left, spawned, post.snake@, pre.map_size) && post.foods@ == aged_foods(
            spawned,
        )
}

impl GameState {
    /// The snake fits the board, every food lies on it, and no two foods
    /// share position and group.
    pub open spec fn is_valid(&self) -> bool {
        &&& self.snake@.is_valid()
        &&& self.snake.map_size == self.map_size
        &&& forall|i: int| 0 <= i < self.foods@.len() ==> self.map_size.holds(#[trigger] self.foods@[i].pos)
        &&& distinct_kinds(self.foods@)
    }

    /// What the cell `p` shows: the last food on it, else a body segment,
    /// else the head, else nothing.
    pub open spec fn item_at(&self, p: Position) -> Item {
        let segs = self.snake@.segments;
        match food_item_at(self.foods@, p) {
            Some(g) => Item::Food(g),
            None => if exists|i: int| 1 <= i < segs.len() && #[trigger] segs[i].pos == p {
                Item::Snake
            } else if segs[0].pos == p {
                Item::SnakeHead
            } else {
                Item::Nothing
            },
        }
    }

    /// `rd` shows this game: every cell, the score, and a status line with the score.
    pub open spec fn renders_as(&self, rd: &RenderData) -> bool {
        &&& rd.rm@.len() == self.map_size.y
        &&& forall|y: int| 0 <= y < self.map_size.y ==> (#[trigger] rd.rm@[y])@.len() == self.map_size.x
        &&& forall|y: int, x: int|
            0 <= y < self.map_size.y && 0 <= x < self.map_size.x ==> #[trigger] rd.rm@[y]@[x]
                == self.item_at(Position { x: x as usize, y: y as usize })
        &&& rd.score == self.score
        &&& rd.log_data@[0] is Some && rd.log_data@[0]->0@ == score_text(self.score as nat)
        &&& rd.log_data@[1] is None && rd.log_data@[2] is None && rd.log_data@[3] is None
    }
}

/// The first food on `p`, if any.
fn find_food_at(foods: &Vec<Food>, p: Position) -> (r: Option<usize>)
    ensures
        match r {
            Some(i) => is_first_food_at(foods@, p, i as int),
            None => !has_food_at(foods@, p),
        },
{
    let mut i: usize = 0;
    while i < foods.len()
        invariant
            i <= foods@.len(),
            forall|j: int| 0 <= j < i ==> #[trigger] foods@[j].pos != p,
        decreases foods@.len() - i,
    {
        if foods[i].pos == p {
            return Some(i);
        }
        i = i + 1;
    }
    None
}

/// The food that the group roll `roll` gives on `pos`.
pub fn food_for_roll(pos: Position, roll: usize) -> (r: Food)
    requires
        roll < FOOD_KINDS,
    ensures
        r == spec_food_for_roll(pos, roll),
{
    if roll <= 5 {
        Food::new(pos, FoodGroup::Grow)
    } else if roll <= 7 {
        Food::new_with_lifetime(pos, FoodGroup::Poison, FOOD_LIFETIME)
    } else {
        Food::new_with_lifetime(pos, FoodGroup::Shrink, FOOD_LIFETIME)
    }
}

/// Eating a grow food that lies ahead, on a move that does not hit the
/// body, scores exactly one and makes the snake one segment longer.
pub proof fn lemma_eating_grow(
    pre: GameState,
    post: GameState,
    control: SnakeControl,
    spawn: bool,
    r: SnakeState,
)
    requires
        pre.is_valid(),
        tick(pre, post, control, spawn, r),
        has_food_at(pre.foods@, steered(pre.snake@, control).next_head()),
        pre.foods@[food_eaten(pre.foods@, steered(pre.snake@, control).next_head())->0].group
            == FoodGroup::Grow,
        !steered(pre.snake@, control).occupies(steered(pre.snake@, control).next_head()),
    ensures
        r is Alive,
        post.score == pre.score + 1,
        post.snake@.segments.len() == pre.snake@.segments.len() + 1,
{
}

/// Where some food lies on `p`, a first one does, and it is the one eaten.
pub proof fn lemma_first_food_exists(foods: Seq<Food>, p: Position)
    requires
        has_food_at(foods, p),
    ensures
        exists|i: int| is_first_food_at(foods, p, i),
        is_first_food_at(foods, p, food_eaten(foods, p)->0),
    decreases foods.len(),
{
    if foods[0].pos == p {
        assert(is_first_food_at(foods, p, 0));
    } else {
        let rest = foods.drop_first();
        let j = choose|j: int| 0 <= j < foods.len() && #[trigger] foods[j].pos == p;
        assert(rest[j - 1].pos == p);
        lemma_first_food_exists(rest, p);
        let i = choose|i: int| is_first_food_at(rest, p, i);
        assert forall|k: int| 0 <= k < i + 1 implies #[trigger] foods[k].pos != p by {
            if k > 0 {
                assert(foods[k] == rest[k - 1]);
            }
        }
        assert(is_first_food_at(foods, p, i + 1));
    }
}

/// A food that the snake does not reach on a tick without spawning ages by
/// one pass: what it ages into is still there, and a food that rots leaves
/// no food of its position and group behind.
pub proof fn lemma_tick_ages_food(
    pre: GameState,
    post: GameState,
    control: SnakeControl,
    r: SnakeState,
    i: int,
)
    requires
        pre.is_valid(),
        tick(pre, post, control, false, r),
        0 <= i < pre.foods@.len(),
        pre.foods@[i].pos != steered(pre.snake@, control).next_head(),
    ensures
        pre.foods@[i].spec_aged() is Some ==> post.foods@.contains(pre.foods@[i].spec_aged()->0),
        pre.foods@[i].spec_aged() is None ==> forall|k: int|
            0 <= k < post.foods@.len() ==> !(#[trigger] post.foods@[k]).same_kind(pre.foods@[i]),
{
    let f = pre.foods@[i];
    let next = steered(pre.snake@, control).next_head();
    let eaten = food_eaten(pre.foods@, next);
    let left = match eaten {
        Some(e) => pre.foods@.remove(e),
        None => pre.foods@,
    };
    let li = match eaten {
        Some(e) => if i < e { i } else { i - 1 },
        None => i,
    };
    if let Some(e) = eaten {
        lemma_first_food_exists(pre.foods@, next);
        assert(e != i);
    }
    assert(left[li] == f);
    assert(distinct_kinds(left)) by {
        assert forall|a: int, b: int| 0 <= a < b < left.len() implies !(#[trigger] left[a].same_kind(left[b])) by {
            match eaten {
                Some(e) => {
                    let a0 = if a < e { a } else { a + 1 };
                    let b0 = if b < e { b } else { b + 1 };
                    assert(left[a] == pre.foods@[a0] && left[b] == pre.foods@[b0]);
                },
                None => {},
            }
        }
    }
    if f.spec_aged() is Some {
        crate::food::lemma_aged_foods_keeps(left, li);
    } else {
        lemma_aged_foods_kinds(left);
        assert forall|k: int| 0 <= k < post.foods@.len() implies !(#[trigger] post.foods@[k]).same_kind(f) by {
            let j = choose|j: int| 0 <= j < left.len() && left[j].spec_aged() == Some(aged_foods(left)[k]);
            if j != li {
                if j < li {
                    assert(!left[j].same_kind(left[li]));
                } else {
                    assert(!left[li].same_kind(left[j]));
                }
            }
        }
    }
}

/// A tick without spawning brings in no food of a kind that was not there.
pub proof fn lemma_tick_adds_no_kind(
    pre: GameState,
    post: GameState,
    control: SnakeControl,
    r: SnakeState,
    g: Food,
)
    requires
        tick(pre, post, control, false, r),
        forall|k: int| 0 <= k < pre.foods@.len() ==> !(#[trigger] pre.foods@[k]).same_kind(g),
    ensures
        forall|k: int| 0 <= k < post.foods@.len() ==> !(#[trigger] post.foods@[k]).same_kind(g),
{
    let next = steered(pre.snake@, control).next_head();
    let eaten = food_eaten(pre.foods@, next);
    if eaten is Some {
        lemma_first_food_exists(pre.foods@, next);
    }
    let left = match eaten {
        Some(e) => pre.foods@.remove(e),
        None => pre.foods@,
    };
    lemma_aged_foods_kinds(left);
    assert forall|k: int| 0 <= k < post.foods@.len() implies !(#[trigger] post.foods@[k]).same_kind(g) by {
        let j = choose|j: int| 0 <= j < left.len() && left[j].spec_aged() == Some(aged_foods(left)[k]);
        match eaten {
            Some(e) => {
                let j0 = if j < e { j } else { j + 1 };
                assert(left[j] == pre.foods@[j0]);
            },
            None => {},
        }
    }
}

/// Over ticks without spawning in which the snake never reaches it, a food
/// with lifetime `L` is still there, with lifetime `L - n`, after `n <= L`
/// ticks, and after `L + 1` or more no food of its position and group is left.
pub proof fn lemma_food_lasts_its_lifetime(
    states: Seq<GameState>,
    controls: Seq<SnakeControl>,
    results: Seq<SnakeState>,
    f: Food,
    n: nat,
)
    requires
        states.len() == n + 1,
        controls.len() == n,
        results.len() == n,
        forall|k: int| 0 <= k <= n ==> (#[trigger] states[k]).is_valid(),
        forall|k: int|
            0 <= k < n ==> tick(
                #[trigger] states[k],
                states[k + 1],
                controls[k],
                false,
                results[k],
            ),
        forall|k: int|
            0 <= k < n ==> f.pos != steered((#[trigger] states[k]).snake@, controls[k]).next_head(),
        states[0].foods@.contains(f),
        f.lifetime is Some,
    ensures
        n <= f.lifetime->0 ==> states[n as int].foods@.contains(
            Food { lifetime: Some((f.lifetime->0 - n) as usize), ..f },
        ),
        n > f.lifetime->0 ==> forall|k: int|
            0 <= k < states[n as int].foods@.len() ==> !(#[trigger] states[n as int].foods@[k]).same_kind(f),
    decreases n,
{
    if n > 0 {
        let m = (n - 1) as nat;
        let ps = states.take(n as int);
        let pc = controls.take(m as int);
        let pr = results.take(m as int);
        assert forall|k: int| 0 <= k <= m implies (#[trigger] ps[k]).is_valid() by {
            assert(ps[k] == states[k]);
        }
        assert forall|k: int| 0 <= k < m implies tick(#[trigger] ps[k], ps[k + 1], pc[k], false, pr[k]) by {
            assert(ps[k] == states[k] && ps[k + 1] == states[k + 1]);
            assert(tick(states[k], states[k + 1], controls[k], false, results[k]));
        }
        assert forall|k: int| 0 <= k < m implies f.pos != steered((#[trigger] ps[k]).snake@, pc[k]).next_head() by {
            assert(ps[k] == states[k]);
            assert(f.pos != steered(states[k].snake@, controls[k]).next_head());
        }
        lemma_food_lasts_its_lifetime(ps, pc, pr, f, m);
        assert(ps[m as int] == states[m as int]);
        let pre = states[m as int];
        let post = states[n as int];
        assert(tick(pre, post, controls[m as int], false, results[m as int]));
        assert(f.pos != steered(pre.snake@, controls[m as int]).next_head());
        let l = f.lifetime->0;
        if m <= l {
            let g = Food { lifetime: Some((l - m) as usize), ..f };
            let i = choose|i: int| 0 <= i < pre.foods@.len() && pre.foods@[i] == g;
            lemma_tick_ages_food(pre, post, controls[m as int], results[m as int], i);
            if m < l {
                assert(g.spec_aged() == Some(Food { lifetime: Some((l - n) as usize), ..f }));
            }
        } else {
            lemma_tick_adds_no_kind(pre, post, controls[m as int], results[m as int], f);
        }
    }
}

/// No food on `p` gives no food item there.
proof fn lemma_no_food_item(foods: Seq<Food>, p: Position)
    requires
        forall|k: int| 0 <= k < foods.len() ==> (#[trigger] foods[k]).pos != p,
    ensures
        food_item_at(foods, p) is None,
    decreases foods.len(),
{
    if foods.len() > 0 {
        let init = foods.drop_last();
        assert forall|k: int| 0 <= k < init.len() implies (#[trigger] init[k]).pos != p by {
            assert(init[k] == foods[k]);
        }
        lemma_no_food_item(init, p);
    }
}

/// Segments lie on pairwise different cells.
pub open spec fn distinct_cells(s: Seq<crate::snake::Segment>) -> bool {
    forall|i: int, j: int| 0 <= i < s.len() && 0 <= j < s.len() && i != j ==> #[trigger] s[i].pos != #[trigger] s[j].pos
}

/// On a tick that eats the only food on the cell ahead, a grow food, without
/// hitting the body, of a snake on distinct cells with no food on them: the
/// snake grows by one segment onto distinct cells, and the picture of the
/// game after the tick shows a snake cell exactly where a segment lies, with
/// the head on the cell that was ahead.
pub proof fn lemma_render_after_grow(
    pre: GameState,
    post: GameState,
    control: SnakeControl,
    spawn: bool,
    r: SnakeState,
    rd: RenderData,
)
    requires
        pre.is_valid(),
        post.is_valid(),
        tick(pre, post, control, spawn, r),
        post.renders_as(&rd),
        distinct_cells(pre.snake@.segments),
        forall|k: int| 0 <= k < pre.foods@.len() ==> !pre.snake@.occupies((#[trigger] pre.foods@[k]).pos),
        has_food_at(pre.foods@, steered(pre.snake@, control).next_head()),
        forall|j: int, k: int|
            0 <= j < pre.foods@.len() && 0 <= k < pre.foods@.len() && (#[trigger] pre.foods@[j]).pos
                == steered(pre.snake@, control).next_head() && (#[trigger] pre.foods@[k]).pos
                == steered(pre.snake@, control).next_head() ==> j == k,
        pre.foods@[food_eaten(pre.foods@, steered(pre.snake@, control).next_head())->0].group
            == FoodGroup::Grow,
        !steered(pre.snake@, control).occupies(steered(pre.snake@, control).next_head()),
    ensures
        r is Alive,
        post.score == pre.score + 1,
        rd.score == pre.score + 1,
        post.snake@.segments.len() == pre.snake@.segments.len() + 1,
        distinct_cells(post.snake@.segments),
        forall|x: usize, y: usize|
            x < post.map_size.x && y < post.map_size.y ==> ((#[trigger] rd.rm@[y as int]@[x as int]
                is Snake || rd.rm@[y as int]@[x as int] is SnakeHead) <==> post.snake@.occupies(
                Position { x, y },
            )),
        ({
            let n = steered(pre.snake@, control).next_head();
            rd.rm@[n.y as int]@[n.x as int] == Item::SnakeHead
        }),
{
    let st = steered(pre.snake@, control);
    let n = st.next_head();
    lemma_first_food_exists(pre.foods@, n);
    let e = food_eaten(pre.foods@, n)->0;
    let left = pre.foods@.remove(e);
    let segs = post.snake@.segments;
    let old_segs = pre.snake@.segments;
    assert(segs == seq![crate::snake::Segment { pos: n }] + old_segs);
    assert forall|i: int, j: int| 0 <= i < segs.len() && 0 <= j < segs.len() && i != j implies #[trigger] segs[i].pos != #[trigger] segs[j].pos by {
        if i > 0 && j > 0 {
            assert(segs[i] == old_segs[i - 1] && segs[j] == old_segs[j - 1]);
        } else if i == 0 {
            assert(segs[j] == old_segs[j - 1]);
        } else {
            assert(segs[i] == old_segs[i - 1]);
        }
    }
    // no food of what is left lies on the grown snake
    assert forall|k: int| 0 <= k < left.len() implies !post.snake@.occupies((#[trigger] left[k]).pos) by {
        let k0 = if k < e { k } else { k + 1 };
        assert(left[k] == pre.foods@[k0]);
        assert(k0 != e);
        if post.snake@.occupies(left[k].pos) {
            let i = choose|i: int| 0 <= i < segs.len() && #[trigger] segs[i].pos == left[k].pos;
            if i > 0 {
                assert(segs[i] == old_segs[i - 1]);
                assert(pre.snake@.occupies(pre.foods@[k0].pos));
            }
        }
    }
    let spawned = choose|spawned: Seq<Food>|
        spawn_result(left, spawned, post.snake@, pre.map_size) && post.foods@ == aged_foods(spawned);
    let sp = if spawn { spawned } else { left };
    assert(post.foods@ == aged_foods(sp));
    assert forall|k: int| 0 <= k < sp.len() implies !post.snake@.occupies((#[trigger] sp[k]).pos) by {
        if sp != left {
            let f = choose|f: Food| spawnable(f, post.snake@, pre.map_size) && sp == with_food(left, f);
            if k < left.len() {
                assert(sp[k] == left[k]);
            }
        }
    }
    lemma_aged_foods_kinds(sp);
    assert forall|x: usize, y: usize|
        x < post.map_size.x && y < post.map_size.y implies ((#[trigger] rd.rm@[y as int]@[x as int]
            is Snake || rd.rm@[y as int]@[x as int] is SnakeHead) <==> post.snake@.occupies(
            Position { x, y },
        )) by {
        let p = Position { x, y };
        assert(rd.rm@[y as int]@[x as int] == post.item_at(p));
        if post.snake@.occupies(p) {
            assert forall|k: int| 0 <= k < post.foods@.len() implies (#[trigger] post.foods@[k]).pos != p by {
                let j = choose|j: int| 0 <= j < sp.len() && sp[j].spec_aged() == Some(aged_foods(sp)[k]);
                assert(!post.snake@.occupies(sp[j].pos));
            }
            lemma_no_food_item(post.foods@, p);
            let i = choose|i: int| 0 <= i < segs.len() && #[trigger] segs[i].pos == p;
            if i > 0 {
                assert(exists|i: int| 1 <= i < segs.len() && #[trigger] segs[i].pos == p);
            }
        } else {
            if exists|i: int| 1 <= i < segs.len() && #[trigger] segs[i].pos == p {
                let i = choose|i: int| 1 <= i < segs.len() && #[trigger] segs[i].pos == p;
                assert(post.snake@.occupies(p));
            }
            if segs[0].pos == p {
                assert(post.snake@.occupies(p));
            }
        }
    }
    assert(post.snake@.occupies(n)) by {
        assert(segs[0].pos == n);
    }
    assert(post.map_size.holds(n)) by {
        assert(post.snake@.is_valid());
        assert(post.map_size.holds(segs[0].pos));
    }
    assert forall|k: int| 0 <= k < post.foods@.len() implies (#[trigger] post.foods@[k]).pos != n by {
        let j = choose|j: int| 0 <= j < sp.len() && sp[j].spec_aged() == Some(aged_foods(sp)[k]);
        assert(!post.snake@.occupies(sp[j].pos));
    }
    lemma_no_food_item(post.foods@, n);
    assert(rd.rm@[n.y as int]@[n.x as int] == post.item_at(n));
    assert(!exists|i: int| 1 <= i < segs.len() && #[trigger] segs[i].pos == n);
}

impl GameState {
    /// A game on a board of `map_size` with a one-segment snake at
    /// `snake_position`, no food and no score, drawing from a generator
    /// seeded by `DEFAULT_SEED`.
    pub fn new(map_size: Size, snake_position: Position) -> (r: GameState)
        requires
            map_size.is_valid(),
            map_size.holds(snake_position),
        ensures
            r.is_valid(),
            r.snake@ == (SnakeView {
                segments: seq![crate::snake::Segment { pos: snake_position }],
                travel_dir: Direction::Up,
                travelled_dir: Direction::Up,
                map_size,
            }),
            r.foods@.len() == 0,
            r.map_size == map_size,
            r.score == 0,
    {
        let rng = seeded_rng(DEFAULT_SEED);
        GameState { snake: Snake::new(snake_position, map_size), foods: Vec::new(), map_size, score: 0, rng }
    }

    /// As `new`, with a generator seeded by `seed`, so that the same seed
    /// and the same controls give the same game.
    pub fn with_seed(map_size: Size, snake_position: Position, seed: u64) -> (r: GameState)
        requires
            map_size.is_valid(),
            map_size.holds(snake_position),
        ensures
            r.is_valid(),
            r.snake@ == (SnakeView {
                segments: seq![crate::snake::Segment { pos: snake_position }],
                travel_dir: Direction::Up,
                travelled_dir: Direction::Up,
                map_size,
            }),
            r.foods@.len() == 0,
            r.map_size == map_size,
            r.score == 0,
    {
        let rng = seeded_rng(seed);
        GameState { snake: Snake::new(snake_position, map_size), foods: Vec::new(), map_size, score: 0, rng }
    }

    /// Runs one tick and pictures the game after it.
    pub fn update_and_render(&mut self, control: SnakeControl, gen_new_food: bool) -> (r: (
        SnakeState,
        RenderData,
    ))
        requires
            old(self).is_valid(),
            old(self).score < usize::MAX,
        ensures
            tick(*old(self), *final(self), control, gen_new_food, r.0),
            final(self).is_valid(),
            final(self).renders_as(&r.1),
    {
        let ss = self.update(control, gen_new_food);
        let rd = self.get_render_map();
        (ss, rd)
    }

    /// Runs one tick: steers the snake by `control`, lets it eat the first
    /// food on the cell ahead (scoring one), moves it, tries a spawn when
    /// `gen_new_food` holds, and ages the foods. Returns how the move ended.
    pub fn update(&mut self, control: SnakeControl, gen_new_food: bool) -> (r: SnakeState)
        requires
            old(self).is_valid(),
            old(self).score < usize::MAX,
        ensures
            tick(*old(self), *final(self), control, gen_new_food, r),
            final(self).is_valid(),
    {
        match control {
            SnakeControl::Idle => {},
            _ => {
                let d = control.to_direction();
                self.snake.set_dir(d);
            },
        }
        let next = self.snake.get_next_head_pos();
        let ghost pre_foods = self.foods@;
        let eaten = find_food_at(&self.foods, next);
        let mut food_to_eat: Option<FoodGroup> = None;
        match eaten {
            Some(i) => {
                let food = self.foods.remove(i);
                food_to_eat = Some(food.group);
                self.score = self.score + 1;
            },
            None => {},
        }
        proof {
            match eaten {
                Some(i) => {
                    assert(pre_foods[i as int].pos == next);
                    let c = choose|k: int| is_first_food_at(pre_foods, next, k);
                    assert(is_first_food_at(pre_foods, next, c));
                    assert(c == i as int);
                    assert forall|k: int| 0 <= k < self.foods@.len() implies self.map_size.holds(
                        #[trigger] self.foods@[k].pos,
                    ) by {
                        if k < i {
                            assert(self.foods@[k] == pre_foods[k]);
                        } else {
                            assert(self.foods@[k] == pre_foods[k + 1]);
                        }
                    }
                    let f = self.foods@;
                    assert forall|a: int, b: int| 0 <= a < b < f.len() implies !(#[trigger] f[a].same_kind(f[b])) by {
                        let a0 = if a < i { a } else { a + 1 };
                        let b0 = if b < i { b } else { b + 1 };
                        assert(f[a] == pre_foods[a0] && f[b] == pre_foods[b0]);
                        assert(!pre_foods[a0].same_kind(pre_foods[b0]));
                    }
                },
                None => {},
            }
        }
        let state = self.snake.slither(food_to_eat);
        let ghost left = self.foods@;
        if gen_new_food {
            self.gen_food();
        }
        let ghost spawned = self.foods@;
        self.foods = age_foods(&self.foods);
        proof {
            crate::food::lemma_aged_foods_within(spawned, self.map_size);
            lemma_aged_foods_kinds(spawned);
            if gen_new_food {
                assert(spawn_result(left, spawned, self.snake@, self.map_size));
            }
        }
        state
    }

    /// One spawn attempt: with a chance of one in `SPAWN_ODDS`, a food of a
    /// rolled group is put on a cell drawn uniformly among those off the
    /// snake, unless a food of that group is already there. Nothing is
    /// added when the snake covers the board.
    pub fn gen_food(&mut self)
        requires
            old(self).is_valid(),
        ensures
            spawn_result(old(self).foods@, final(self).foods@, old(self).snake@, old(self).map_size),
            (forall|p: Position| old(self).map_size.holds(p) ==> old(self).snake@.occupies(p))
                ==> final(self).foods@ == old(self).foods@,
            final(self).snake@ == old(self).snake@,
            final(self).score == old(self).score,
            final(self).map_size == old(self).map_size,
            final(self).is_valid(),
    {
        let spawn_roll = draw_below(&mut self.rng, SPAWN_ODDS);
        if spawn_roll == 0 {
            let free = self.free_cells();
            if free.len() > 0 {
                let cell = draw_below(&mut self.rng, free.len());
                let group_roll = draw_below(&mut self.rng, FOOD_KINDS);
                self.spawn_with(spawn_roll, cell, group_roll);
                proof {
                    let food = spec_food_for_roll(free@[cell as int], group_roll);
                    assert(spawnable(food, self.snake@, self.map_size));
                }
            }
        }
    }

    /// A spawn attempt with its draws given: `spawn_roll` 0 spawns, `cell`
    /// picks among the free cells in row order, and `group_roll` picks the
    /// group. A food of the same position and group already there is kept
    /// instead.
    pub fn spawn_with(&mut self, spawn_roll: usize, cell: usize, group_roll: usize)
        requires
            old(self).is_valid(),
            group_roll < FOOD_KINDS,
        ensures
            spawn_roll != 0 ==> final(self).foods@ == old(self).foods@,
            spawn_roll == 0 && cell < free_cells_of(*old(self)).len() ==> final(self).foods@
                == with_food(
                old(self).foods@,
                spec_food_for_roll(free_cells_of(*old(self))[cell as int], group_roll),
            ),
            spawn_roll == 0 && cell >= free_cells_of(*old(self)).len() ==> final(self).foods@
                == old(self).foods@,
            final(self).snake@ == old(self).snake@,
            final(self).score == old(self).score,
            final(self).map_size == old(self).map_size,
            final(self).is_valid(),
    {
        if spawn_roll == 0 {
            let free = self.free_cells();
            if cell < free.len() {
                let food = food_for_roll(free[cell], group_roll);
                self.add_food(food);
            }
        }
    }

    /// Adds `new_food` unless a food of the same position and group is there.
    pub fn add_food(&mut self, new_food: Food)
        ensures
            final(self).foods@ == with_food(old(self).foods@, new_food),
            final(self).snake@ == old(self).snake@,
            final(self).score == old(self).score,
            final(self).map_size == old(self).map_size,
            old(self).is_valid() && old(self).map_size.holds(new_food.pos) ==> final(self).is_valid(),
    {
        let mut present = false;
        let mut i: usize = 0;
        while i < self.foods.len()
            invariant
                i <= self.foods@.len(),
                present <==> exists|j: int| 0 <= j < i && #[trigger] self.foods@[j].same_kind(new_food),
            decreases self.foods@.len() - i,
        {
            if self.foods[i] == new_food {
                present = true;
            }
            i = i + 1;
        }
        if !present {
            self.foods.push(new_food);
            assert(self.foods@[self.foods@.len() - 1] == new_food);
        }
    }

    /// The cells of the board that no segment covers, row by row, each once.
    pub fn free_cells(&self) -> (r: Vec<Position>)
        requires
            self.is_valid(),
        ensures
            r@ == free_cells_of(*self),
            r@.no_duplicates(),
            forall|k: int|
                0 <= k < r@.len() ==> self.map_size.holds(#[trigger] r@[k]) && !self.snake@.occupies(
                    r@[k],
                ),
            forall|p: Position|
                self.map_size.holds(p) && !self.snake@.occupies(p) ==> #[trigger] r@.contains(p),
    {
        let ghost sv = self.snake@;
        let ghost w = self.map_size.x;
        let mut r: Vec<Position> = Vec::new();
        let mut y: usize = 0;
        while y < self.map_size.y
            invariant
                y <= self.map_size.y,
                sv == self.snake@,
                w == self.map_size.x,
                r@ == free_in_rows(sv, w, y as nat),
                r@.no_duplicates(),
                forall|k: int|
                    0 <= k < r@.len() ==> self.map_size.holds(#[trigger] r@[k])
                        && !self.snake@.occupies(r@[k]) && r@[k].y < y,
                forall|p: Position|
                    self.map_size.holds(p) && !self.snake@.occupies(p) && p.y < y
                        ==> #[trigger] r@.contains(p),
            decreases self.map_size.y - y,
        {
            let mut x: usize = 0;
            let ghost rows = r@;
            while x < self.map_size.x
                invariant
                    y < self.map_size.y,
                    x <= self.map_size.x,
                    sv == self.snake@,
                    w == self.map_size.x,
                    rows == free_in_rows(sv, w, y as nat),
                    r@ == rows + free_in_row(sv, y, x as nat),
                    r@.no_duplicates(),
                    forall|k: int|
                        0 <= k < r@.len() ==> self.map_size.holds(#[trigger] r@[k])
                            && !self.snake@.occupies(r@[k]) && (r@[k].y < y || (r@[k].y == y
                            && r@[k].x < x)),
                    forall|p: Position|
                        self.map_size.holds(p) && !self.snake@.occupies(p) && (p.y < y || (p.y
                            == y && p.x < x)) ==> #[trigger] r@.contains(p),
                decreases self.map_size.x - x,
            {
                let p = Position { x, y };
                let ghost before = r@;
                if !self.snake.is_in_snake(p) {
                    r.push(p);
                    assert(r@[r@.len() - 1] == p);
                    assert(r@ == rows + free_in_row(sv, y, (x + 1) as nat));
                    assert forall|i: int, j: int| 0 <= i < r@.len() && 0 <= j < r@.len() && i != j implies r@[i] != r@[j] by {
                        if i < before.len() && j < before.len() {
                            assert(before[i] != before[j]);
                        } else if i < before.len() {
                            assert(r@[i] == before[i]);
                        } else {
                            assert(r@[j] == before[j]);
                        }
                    }
                }
                assert forall|q: Position|
                    self.map_size.holds(q) && !self.snake@.occupies(q) && (q.y < y || (q.y == y
                        && q.x < x + 1)) implies #[trigger] r@.contains(q) by {
                    if q != p {
                        assert(before.contains(q));
                        let k = choose|k: int| 0 <= k < before.len() && before[k] == q;
                        assert(r@[k] == q);
                    }
                }
                x = x + 1;
            }
            y = y + 1;
        }
        r
    }

    /// What the cell `p` shows.
    fn cell_item(&self, p: Position) -> (r: Item)
        requires
            self.is_valid(),
        ensures
            r == self.item_at(p),
    {
        let mut i: usize = self.foods.len();
        assert(self.foods@.subrange(0, i as int) == self.foods@);
        while i > 0
            invariant
                i <= self.foods@.len(),
                food_item_at(self.foods@, p) == food_item_at(self.foods@.subrange(0, i as int), p),
            decreases i,
        {
            let ghost before = self.foods@.subrange(0, i as int);
            assert(before.drop_last() == self.foods@.subrange(0, i - 1));
            i = i - 1;
            if self.foods[i].pos == p {
                return Item::Food(self.foods[i].group);
            }
        }
        assert(self.foods@.subrange(0, 0) == Seq::<Food>::empty());
        let segs = &self.snake.segments;
        let mut j: usize = 1;
        while j < segs.len()
            invariant
                1 <= j <= segs@.len(),
                segs@ == self.snake@.segments,
                food_item_at(self.foods@, p) is None,
                forall|k: int| 1 <= k < j ==> #[trigger] segs@[k].pos != p,
            decreases segs@.len() - j,
        {
            if segs[j].pos == p {
                assert(self.snake@.segments[j as int].pos == p);
                return Item::Snake;
            }
            j = j + 1;
        }
        if segs[0].pos == p {
            Item::SnakeHead
        } else {
            Item::Nothing
        }
    }

    /// Pictures the game: the board row by row, the score, and a status
    /// line with the score.
    pub fn get_render_map(&self) -> (r: RenderData)
        requires
            self.is_valid(),
        ensures
            self.renders_as(&r),
    {
        let mut rm: Vec<Vec<Item>> = Vec::new();
        let mut y: usize = 0;
        while y < self.map_size.y
            invariant
                self.is_valid(),
                y <= self.map_size.y,
                rm@.len() == y,
                forall|yy: int| 0 <= yy < y ==> (#[trigger] rm@[yy])@.len() == self.map_size.x,
                forall|yy: int, xx: int|
                    0 <= yy < y && 0 <= xx < self.map_size.x ==> #[trigger] rm@[yy]@[xx]
                        == self.item_at(Position { x: xx as usize, y: yy as usize }),
            decreases self.map_size.y - y,
        {
            let mut row: Vec<Item> = Vec::new();
            let mut x: usize = 0;
            while x < self.map_size.x
                invariant
                    self.is_valid(),
                    x <= self.map_size.x,
                    y < self.map_size.y,
                    row@.len() == x,
                    forall|xx: int|
                        0 <= xx < x ==> #[trigger] row@[xx] == self.item_at(
                            Position { x: xx as usize, y },
                        ),
                decreases self.map_size.x - x,
            {
                row.push(self.cell_item(Position { x, y }));
                x = x + 1;
            }
            rm.push(row);
            y = y + 1;
        }
        let line = score_line(self.score);
        RenderData { rm, score: self.score, log_data: [Some(line), None, None, None] }
    }
}

} // verus!
