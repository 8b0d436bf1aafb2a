//! The grid game that an agent plays: a snake that moves one cell per tick,
//! grows on food and dies on a wall or on its own body.

use crate::nn::SCALE;
use crate::random::random_between;
use vstd::prelude::*;

verus! {

/// Side of the square board, in cells.
pub const BOARD_SIDE: i32 = 20;

/// Largest board side that the game accepts.
pub const MAX_SIDE: i32 = 1000;

/// A cell of the board; `y` grows downwards.
#[derive(Clone, Copy, Debug, PartialEq, Eq, Structural)]
pub struct Point {
    pub x: i32,
    pub y: i32,
}

impl Point {
    pub fn new(x: i32, y: i32) -> (r: Point)
        ensures
            r.x == x,
            r.y == y,
    {
        Point { x, y }
    }
}

/// The four moves, in the order that breaks ties between equal network outputs.
#[derive(Clone, Copy, Debug, PartialEq, Eq, Structural)]
pub enum FourDirs {
    Left,
    Right,
    Bottom,
    Top,
}

/// The move at position `i` of the enumeration order.
pub open spec fn dir_at(i: int) -> FourDirs {
    if i == 0 {
        FourDirs::Left
    } else if i == 1 {
        FourDirs::Right
    } else if i == 2 {
        FourDirs::Bottom
    } else {
        FourDirs::Top
    }
}

/// Four entries, `SCALE` at position `i` and zero elsewhere.
pub open spec fn one_hot(i: int) -> Seq<i64> {
    Seq::new(4, |k: int| if k == i { SCALE } else { 0 })
}

impl FourDirs {
    pub open spec fn index(self) -> int {
        match self {
            FourDirs::Left => 0,
            FourDirs::Right => 1,
            FourDirs::Bottom => 2,
            FourDirs::Top => 3,
        }
    }

    pub open spec fn dx(self) -> int {
        match self {
            FourDirs::Left => -1,
            FourDirs::Right => 1,
            _ => 0,
        }
    }

    pub open spec fn dy(self) -> int {
        match self {
            FourDirs::Bottom => 1,
            FourDirs::Top => -1,
            _ => 0,
        }
    }

    pub fn from_index(i: usize) -> (r: FourDirs)
        requires
            i < 4,
        ensures
            r == dir_at(i as int),
            r.index() == i,
    {
        if i == 0 {
            FourDirs::Left
        } else if i == 1 {
            FourDirs::Right
        } else if i == 2 {
            FourDirs::Bottom
        } else {
            FourDirs::Top
        }
    }

    /// The unit step of this move.
    pub fn delta(&self) -> (r: (i32, i32))
        ensures
            r.0 == self.dx(),
            r.1 == self.dy(),
    {
        match self {
            FourDirs::Left => (-1, 0),
            FourDirs::Right => (1, 0),
            FourDirs::Bottom => (0, 1),
            FourDirs::Top => (0, -1),
        }
    }

    /// The direction as a one-hot vector in the order Left, Right, Bottom, Top.
    pub fn get_one_hot_dir(&self) -> (r: Vec<i64>)
        ensures
            r@ == one_hot(self.index()),
    {
        let i = match self {
            FourDirs::Left => 0usize,
            FourDirs::Right => 1usize,
            FourDirs::Bottom => 2usize,
            FourDirs::Top => 3usize,
        };
        let mut r: Vec<i64> = Vec::new();
        let mut k: usize = 0;
        while k < 4
            invariant
                k <= 4,
                i == self.index(),
                r@.len() == k,
                forall|q: int| 0 <= q < k ==> #[trigger] r@[q] == (if q == i { SCALE } else { 0 }),
            decreases 4 - k,
        {
            r.push(if k == i { SCALE } else { 0 });
            k += 1;
        }
        assert(r@ =~= one_hot(self.index()));
        r
    }
}

/// Adds one to a counter, staying at `usize::MAX`.
pub open spec fn bump(n: usize) -> usize {
    if n < usize::MAX {
        (n + 1) as usize
    } else {
        n
    }
}

/// `n` is `o` after one tick with the move `a`. A dead game stays as it is.
/// Otherwise the move becomes the direction and the tick is counted; a
/// blocked target cell ends the game with the snake in place; the food cell
/// grows the snake by the new head, resets the hunger count and puts new
/// food somewhere on the board; any other cell moves the head there and
/// drops the last segment.
pub open spec fn game_step(o: Game, a: FourDirs, n: Game) -> bool {
    if o.is_dead {
        n == o
    } else {
        let nx = o.head.x + a.dx();
        let ny = o.head.y + a.dy();
        let nh = Point { x: nx as i32, y: ny as i32 };
        &&& n.dir == a
        &&& n.width == o.width
        &&& n.height == o.height
        &&& n.total_steps == bump(o.total_steps)
        &&& n.is_dead == o.blocked(nx, ny)
        &&& if o.blocked(nx, ny) {
            &&& n.head == o.head
            &&& n.body@ == o.body@
            &&& n.food == o.food
            &&& n.no_food_steps == o.no_food_steps
        } else if nx == o.food.x && ny == o.food.y {
            &&& n.head == nh
            &&& n.body@ == seq![nh] + o.body@
            &&& n.no_food_steps == 0
            &&& n.in_board(n.food.x as int, n.food.y as int)
        } else {
            &&& n.head == nh
            &&& n.body@ == seq![nh] + o.body@.drop_last()
            &&& n.food == o.food
            &&& n.no_food_steps == bump(o.no_food_steps)
        }
    }
}

/// State of one game.
pub struct Game {
    pub width: i32,
    pub height: i32,
    pub head: Point,
    /// The snake's cells, head first.
    pub body: Vec<Point>,
    pub food: Point,
    pub dir: FourDirs,
    pub is_dead: bool,
    /// Ticks since the snake last ate.
    pub no_food_steps: usize,
    /// Ticks played.
    pub total_steps: usize,
}

impl Game {
    pub open spec fn in_board(&self, x: int, y: int) -> bool {
        0 <= x < self.width && 0 <= y < self.height
    }

    /// The cell `(x, y)` holds a segment of the body other than the head.
    pub open spec fn on_body(&self, x: int, y: int) -> bool {
        exists|k: int| 1 <= k < self.body@.len() && #[trigger] self.body@[k].x == x && self.body@[k].y == y
    }

    pub open spec fn blocked(&self, x: int, y: int) -> bool {
        !self.in_board(x, y) || self.on_body(x, y)
    }

    pub open spec fn wf(&self) -> bool {
        &&& 1 <= self.width <= MAX_SIDE
        &&& 1 <= self.height <= MAX_SIDE
        &&& self.body@.len() >= 1
        &&& self.body@[0] == self.head
        &&& self.in_board(self.head.x as int, self.head.y as int)
        &&& self.in_board(self.food.x as int, self.food.y as int)
    }

    /// Body length.
    pub fn score(&self) -> (r: usize)
        ensures
            r == self.body@.len(),
    {
        self.body.len()
    }

    pub fn is_wall(&self, p: Point) -> (r: bool)
        ensures
            r == !self.in_board(p.x as int, p.y as int),
    {
        !(0 <= p.x && p.x < self.width && 0 <= p.y && p.y < self.height)
    }

    pub fn is_snake_body(&self, p: Point) -> (r: bool)
        ensures
            r == self.on_body(p.x as int, p.y as int),
    {
        let mut k: usize = 1;
        while k < self.body.len()
            invariant
                1 <= k <= self.body@.len() || self.body@.len() == 0,
                forall|q: int| 1 <= q < k ==> !(#[trigger] self.body@[q].x == p.x && self.body@[q].y == p.y),
            decreases self.body@.len() - k,
        {
            if self.body[k].x == p.x && self.body[k].y == p.y {
                return true;
            }
            k += 1;
        }
        false
    }

    /// A fresh game: a one-cell snake in the middle of the board heading
    /// right, food on a random cell.
    pub fn new() -> (r: Game)
        ensures
            r.wf(),
            !r.is_dead,
            r.body@.len() == 1,
            r.no_food_steps == 0,
            r.total_steps == 0,
    {
        let head = Point::new(BOARD_SIDE / 2, BOARD_SIDE / 2);
        let food = Game::random_cell(BOARD_SIDE, BOARD_SIDE);
        let mut body: Vec<Point> = Vec::new();
        body.push(head);
        Game {
            width: BOARD_SIDE,
            height: BOARD_SIDE,
            head,
            body,
            food,
            dir: FourDirs::Right,
            is_dead: false,
            no_food_steps: 0,
            total_steps: 0,
        }
    }

    fn random_cell(width: i32, height: i32) -> (r: Point)
        requires
            1 <= width,
            1 <= height,
        ensures
            0 <= r.x < width,
            0 <= r.y < height,
    {
        let x = random_between(0, width as i64 - 1);
        let y = random_between(0, height as i64 - 1);
        Point::new(x as i32, y as i32)
    }

    /// Advances one tick with the move `action`. A dead game stays as it is.
    /// The head moves one cell; on a wall or on the body the game ends and
    /// the snake stays where it was; on food the snake grows and new food
    /// appears, else the tail follows.
    pub fn update(&mut self, action: FourDirs)
        requires
            old(self).wf(),
        ensures
            final(self).wf(),
            game_step(*old(self), action, *final(self)),
    {
        if self.is_dead {
            return;
        }
        self.dir = action;
        let (dx, dy) = action.delta();
        let next = Point::new(self.head.x + dx, self.head.y + dy);
        if self.total_steps < usize::MAX {
            self.total_steps = self.total_steps + 1;
        }
        if self.is_wall(next) || self.is_snake_body(next) {
            self.is_dead = true;
            return;
        }
        let ate = next.x == self.food.x && next.y == self.food.y;
        if !ate && self.no_food_steps < usize::MAX {
            self.no_food_steps = self.no_food_steps + 1;
        }
        let ghost before = self.body@;
        self.body.insert(0, next);
        self.head = next;
        if ate {
            self.no_food_steps = 0;
            self.food = Game::random_cell(self.width, self.height);
            assert(self.body@ =~= seq![next] + before);
        } else {
            self.body.pop();
            assert(self.body@ =~= seq![next] + before.drop_last());
        }
    }
}

} // verus!
