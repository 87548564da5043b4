//! The Game of Life on a board without edges: the last column is next to the
//! first, and the last row next to the first.

use crate::bitmap::{BitImage, Bitmap};
use crate::protocol::Command;
use crate::random::random_bool;
use rand::rngs::StdRng;
use vstd::prelude::*;

verus! {

/// The rule of the game: a cell lives in the next generation if it has exactly
/// three live neighbours, or is alive and has exactly two.
pub open spec fn lives_on(alive: bool, neighbors: nat) -> bool {
    neighbors == 3 || (alive && neighbors == 2)
}

/// The place `d` steps away from place `a` on a ring of `n` places, which are
/// numbered from zero: `a + d` modulo `n`.
#[verifier::opaque]
pub open spec fn ring_step(a: int, d: int, n: int) -> int {
    (a + d) % n
}

impl Bitmap {
    /// How many live cells (none or one) lie `(dx, dy)` away from `(x, y)`, going
    /// around the edges of the board.
    pub open spec fn live_at_offset(self, x: int, y: int, dx: int, dy: int) -> nat {
        if self.cell(ring_step(x, dx, self.width as int), ring_step(y, dy, self.height as int)) {
            1
        } else {
            0
        }
    }

    /// The live cells among the eight that surround `(x, y)`. On a board that is
    /// less than three wide or high one cell stands at several of the eight
    /// places, and counts once for each.
    pub open spec fn live_neighbors(self, x: int, y: int) -> nat {
        self.live_at_offset(x, y, -1, -1) + self.live_at_offset(x, y, -1, 0)
            + self.live_at_offset(x, y, -1, 1) + self.live_at_offset(x, y, 0, -1)
            + self.live_at_offset(x, y, 0, 1) + self.live_at_offset(x, y, 1, -1)
            + self.live_at_offset(x, y, 1, 0) + self.live_at_offset(x, y, 1, 1)
    }

    /// Whether `command` can be carried out on this board: a command that writes
    /// a cell names a cell of the board.
    pub open spec fn accepts(self, command: Command) -> bool {
        match command {
            Command::Set0 { x, y } => self.in_bounds(x as int, y as int),
            Command::Set1 { x, y } => self.in_bounds(x as int, y as int),
            Command::StepGOL => true,
            Command::FillRandom => true,
        }
    }

    /// Whether the cells of the board are the values `draws`, laid out row after
    /// row: cell `(x, y)` is the value at `y * width + x`.
    pub open spec fn is_filled_from(self, draws: Seq<bool>) -> bool {
        &&& draws.len() == self.width * self.height
        &&& forall|x: int, y: int|
            self.in_bounds(x, y) ==> #[trigger] self.cell(x, y) == draws[y * self.width + x]
    }

    /// `next` is the generation that follows `self`: a board of the same size
    /// whose every cell is what the rule makes of that cell and its neighbours in `self`.
    pub open spec fn steps_to(self, next: Bitmap) -> bool {
        &&& next.wf()
        &&& next.width == self.width
        &&& next.height == self.height
        &&& forall|x: int, y: int|
            self.in_bounds(x, y) ==> #[trigger] next.cell(x, y) == lives_on(
                self.cell(x, y),
                self.live_neighbors(x, y),
            )
    }
}

/// The place before and the place after `a` on a ring of `n` places.
pub proof fn lemma_ring_neighbors(a: int, n: int)
    requires
        0 <= a < n,
    ensures
        ring_step(a, -1, n) == (if a == 0 {
            n - 1
        } else {
            a - 1
        }),
        ring_step(a, 0, n) == a,
        ring_step(a, 1, n) == (if a == n - 1 {
            0
        } else {
            a + 1
        }),
{
    reveal(ring_step);
    vstd::arithmetic::div_mod::lemma_small_mod(a as nat, n as nat);
    if a == 0 {
        vstd::arithmetic::div_mod::lemma_small_mod((n - 1) as nat, n as nat);
        vstd::arithmetic::div_mod::lemma_mod_add_multiples_vanish(-1, n);
    } else {
        vstd::arithmetic::div_mod::lemma_small_mod((a - 1) as nat, n as nat);
    }
    if a == n - 1 {
        vstd::arithmetic::div_mod::lemma_mod_self_0(n);
    } else {
        vstd::arithmetic::div_mod::lemma_small_mod((a + 1) as nat, n as nat);
    }
}

/// Whether `command` can be carried out on `image`.
pub fn accepts(image: &BitImage, command: &Command) -> (accepted: bool)
    ensures
        accepted == image@.accepts(*command),
{
    match command {
        Command::Set0 { x, y } => (*x as usize) < image.width() && (*y as usize) < image.height(),
        Command::Set1 { x, y } => (*x as usize) < image.width() && (*y as usize) < image.height(),
        Command::StepGOL => true,
        Command::FillRandom => true,
    }
}

/// Carries `command` out on `image`.
pub fn apply(image: &mut BitImage, command: Command, rng: &mut StdRng)
    requires
        old(image)@.wf(),
        old(image)@.accepts(command),
    ensures
        final(image)@.wf(),
        final(image)@.width == old(image)@.width,
        final(image)@.height == old(image)@.height,
        match command {
            Command::Set0 { x, y } => final(image)@ == old(image)@.with_cell(
                x as int,
                y as int,
                false,
            ),
            Command::Set1 { x, y } => final(image)@ == old(image)@.with_cell(
                x as int,
                y as int,
                true,
            ),
            Command::StepGOL => old(image)@.steps_to(final(image)@),
            Command::FillRandom => true,
        },
{
    match command {
        Command::Set0 { x, y } => { image.set(x as usize, y as usize, false) },
        Command::Set1 { x, y } => { image.set(x as usize, y as usize, true) },
        Command::StepGOL => {
            *image = step_game_of_life(image);
        },
        Command::FillRandom => {
            fill_random(image, rng);
        },
    }
}

/// Gives every cell of `image` a state drawn from `rng`.
///
/// One value is drawn for each cell, row after row, and [`fill_from`] writes
/// them to the board. Which values come lies with the generator alone, so of
/// the board after the call only its size is stated; what the board is for
/// given values is stated by `fill_from`.
pub fn fill_random(image: &mut BitImage, rng: &mut StdRng)
    requires
        old(image)@.wf(),
    ensures
        final(image)@.wf(),
        final(image)@.width == old(image)@.width,
        final(image)@.height == old(image)@.height,
{
    let width = image.width();
    let height = image.height();
    let mut draws: Vec<bool> = Vec::new();
    assert(0 * width == 0 && width * height == height * width) by (nonlinear_arith);
    for y in 0..height
        invariant
            draws@.len() == y * width,
    {
        for x in 0..width
            invariant
                draws@.len() == y * width + x,
        {
            draws.push(random_bool(rng));
        }
        assert((y + 1) * width == y * width + width) by (nonlinear_arith);
    }
    fill_from(image, draws.as_slice());
}

/// Gives the cells of `image` the states that `draws` holds, row after row:
/// cell `(x, y)` gets the value at `y * width + x`, whatever the board held.
pub fn fill_from(image: &mut BitImage, draws: &[bool])
    requires
        old(image)@.wf(),
        draws@.len() == old(image)@.width * old(image)@.height,
    ensures
        final(image)@.wf(),
        final(image)@.width == old(image)@.width,
        final(image)@.height == old(image)@.height,
        final(image)@.is_filled_from(draws@),
{
    let width = image.width();
    let height = image.height();
    for y in 0..height
        invariant
            image@.wf(),
            image@.width == width,
            image@.height == height,
            draws@.len() == width * height,
            forall|i: int, j: int|
                image@.in_bounds(i, j) && j < y ==> #[trigger] image@.cell(i, j) == draws@[j * width
                    + i],
    {
        for x in 0..width
            invariant
                image@.wf(),
                image@.width == width,
                image@.height == height,
                draws@.len() == width * height,
                y < height,
                forall|i: int, j: int|
                    image@.in_bounds(i, j) && (j < y || (j == y && i < x))
                        ==> #[trigger] image@.cell(i, j) == draws@[j * width + i],
        {
            proof {
                lemma_row_major_index(x as int, y as int, width as int, height as int);
                assert(draws.len() <= usize::MAX);
            }
            image.set(x, y, draws[y * width + x]);
        }
    }
}

/// Cell `(x, y)` of a board of `width` by `height` cells has a place among
/// `width * height` values that are laid out row after row.
proof fn lemma_row_major_index(x: int, y: int, width: int, height: int)
    requires
        0 <= x < width,
        0 <= y < height,
    ensures
        0 <= y * width,
        0 <= y * width + x < width * height,
{
    assert(0 <= y * width && (y + 1) * width <= height * width && (y + 1) * width == y * width
        + width && height * width == width * height) by (nonlinear_arith)
        requires
            0 <= y < height,
            0 <= width,
    ;
}

/// Goes one place back (`d < 0`), none (`d == 0`) or one forth (`d > 0`) from
/// place `a` on a ring of `n` places.
fn step_on_ring(a: usize, d: i8, n: usize) -> (place: usize)
    requires
        a < n,
        -1 <= d <= 1,
    ensures
        place == ring_step(a as int, d as int, n as int),
        place < n,
{
    proof {
        lemma_ring_neighbors(a as int, n as int);
    }
    if d < 0 {
        if a == 0 {
            n - 1
        } else {
            a - 1
        }
    } else if d > 0 {
        if a == n - 1 {
            0
        } else {
            a + 1
        }
    } else {
        a
    }
}

/// One if the cell `(dx, dy)` away from `(x, y)` is alive, else zero.
fn live_at_offset(image: &BitImage, x: usize, y: usize, dx: i8, dy: i8) -> (count: usize)
    requires
        image@.wf(),
        image@.in_bounds(x as int, y as int),
        -1 <= dx <= 1,
        -1 <= dy <= 1,
    ensures
        count == image@.live_at_offset(x as int, y as int, dx as int, dy as int),
        count <= 1,
{
    let x_neighbor = step_on_ring(x, dx, image.width());
    let y_neighbor = step_on_ring(y, dy, image.height());
    if image.get(x_neighbor, y_neighbor) {
        1
    } else {
        0
    }
}

/// Counts the live cells around `(x, y)`.
fn count_live_neighbors(image: &BitImage, x: usize, y: usize) -> (count: usize)
    requires
        image@.wf(),
        image@.in_bounds(x as int, y as int),
    ensures
        count == image@.live_neighbors(x as int, y as int),
        count <= 8,
{
    live_at_offset(image, x, y, -1, -1) + live_at_offset(image, x, y, -1, 0) + live_at_offset(
        image,
        x,
        y,
        -1,
        1,
    ) + live_at_offset(image, x, y, 0, -1) + live_at_offset(image, x, y, 0, 1) + live_at_offset(
        image,
        x,
        y,
        1,
        -1,
    ) + live_at_offset(image, x, y, 1, 0) + live_at_offset(image, x, y, 1, 1)
}

/// The generation that follows `current`, computed from `current` alone.
pub fn step_game_of_life(current: &BitImage) -> (next: BitImage)
    requires
        current@.wf(),
    ensures
        current@.steps_to(next@),
{
    let width = current.width();
    let height = current.height();
    let mut next = current.clone();
    for y in 0..height
        invariant
            current@.wf(),
            next@.wf(),
            next@.width == current@.width == width,
            next@.height == current@.height == height,
            forall|i: int, j: int|
                current@.in_bounds(i, j) ==> #[trigger] next@.cell(i, j) == (if j < y {
                    lives_on(current@.cell(i, j), current@.live_neighbors(i, j))
                } else {
                    current@.cell(i, j)
                }),
    {
        for x in 0..width
            invariant
                current@.wf(),
                next@.wf(),
                next@.width == current@.width == width,
                next@.height == current@.height == height,
                y < height,
                forall|i: int, j: int|
                    current@.in_bounds(i, j) ==> #[trigger] next@.cell(i, j) == (if j < y || (j
                        == y && i < x) {
                        lives_on(current@.cell(i, j), current@.live_neighbors(i, j))
                    } else {
                        current@.cell(i, j)
                    }),
        {
            let alive = current.get(x, y);
            let count = count_live_neighbors(current, x, y);
            let next_alive = match (alive, count) {
                (true, 2 | 3) => true,
                (false, 3) => true,
                (_, _) => false,
            };
            next.set(x, y, next_alive);
        }
    }
    next
}

impl Bitmap {
    /// Whether the live cells of the board are the four of the square whose
    /// corner with the lowest coordinates is `(x, y)`; the square may lie across an edge.
    pub open spec fn is_block_at(self, x: int, y: int) -> bool {
        forall|i: int, j: int|
            self.in_bounds(i, j) ==> (#[trigger] self.cell(i, j) <==> (i == x || i == ring_step(
                x,
                1,
                self.width as int,
            )) && (j == y || j == ring_step(y, 1, self.height as int)))
    }

    /// Whether `(x, y)` is the only live cell of the board.
    pub open spec fn is_single_cell_at(self, x: int, y: int) -> bool {
        forall|i: int, j: int|
            self.in_bounds(i, j) ==> (#[trigger] self.cell(i, j) <==> i == x && j == y)
    }

    /// Boards of one size that were filled from the same values are the same
    /// board, whatever each held before.
    pub proof fn lemma_filled_board_is_determined(self, other: Bitmap, draws: Seq<bool>)
        requires
            self.wf(),
            other.wf(),
            self.width == other.width,
            self.height == other.height,
            self.is_filled_from(draws),
            other.is_filled_from(draws),
        ensures
            self == other,
    {
        self.lemma_cells_decide_bitmap(other);
    }

    /// The generation that follows a board is determined by the board.
    pub proof fn lemma_step_is_deterministic(self, next: Bitmap, other: Bitmap)
        requires
            self.wf(),
            self.steps_to(next),
            self.steps_to(other),
        ensures
            next == other,
    {
        next.lemma_cells_decide_bitmap(other);
    }

    /// A board without live cells is followed by itself.
    pub proof fn lemma_empty_board_is_fixed(self, next: Bitmap)
        requires
            self.wf(),
            self.is_empty(),
            self.steps_to(next),
        ensures
            next == self,
    {
        assert forall|x: int, y: int| self.in_bounds(x, y) implies next.cell(x, y) == self.cell(
            x,
            y,
        ) by {
            lemma_ring_neighbors(x, self.width as int);
            lemma_ring_neighbors(y, self.height as int);
            assert(self.live_neighbors(x, y) == 0);
        }
        next.lemma_cells_decide_bitmap(self);
    }

    /// A live cell without live neighbours is dead in the next generation.
    pub proof fn lemma_lonely_cell_dies(self, next: Bitmap, x: int, y: int)
        requires
            self.wf(),
            self.steps_to(next),
            self.in_bounds(x, y),
            self.cell(x, y),
            self.live_neighbors(x, y) == 0,
        ensures
            !next.cell(x, y),
    {
    }

    /// On a board at least two wide and two high, a live cell that is the only
    /// one has no live neighbour, and the next generation has no live cell at all.
    pub proof fn lemma_single_cell_dies_out(self, next: Bitmap, x: int, y: int)
        requires
            self.wf(),
            self.width >= 2,
            self.height >= 2,
            self.in_bounds(x, y),
            self.is_single_cell_at(x, y),
            self.steps_to(next),
        ensures
            self.live_neighbors(x, y) == 0,
            next.is_empty(),
    {
        assert forall|i: int, j: int| self.in_bounds(i, j) implies self.live_neighbors(i, j)
            != 3 && (i == x && j == y ==> self.live_neighbors(i, j) == 0) by {
            lemma_ring_neighbors(i, self.width as int);
            lemma_ring_neighbors(j, self.height as int);
        }
        assert forall|i: int, j: int| self.in_bounds(i, j) implies !next.cell(i, j) by {
            assert(self.live_neighbors(i, j) != 3);
        }
    }

    /// On a board at least four wide and four high, a square of four live cells
    /// with no other live cell is followed by itself.
    pub proof fn lemma_block_is_fixed(self, next: Bitmap, x: int, y: int)
        requires
            self.wf(),
            self.width >= 4,
            self.height >= 4,
            self.in_bounds(x, y),
            self.is_block_at(x, y),
            self.steps_to(next),
        ensures
            forall|i: int, j: int|
                self.in_bounds(i, j) && self.cell(i, j) ==> self.live_neighbors(i, j) == 3,
            next == self,
    {
        lemma_ring_neighbors(x, self.width as int);
        lemma_ring_neighbors(y, self.height as int);
        assert forall|i: int, j: int| self.in_bounds(i, j) implies (self.cell(i, j)
            ==> self.live_neighbors(i, j) == 3) && (!self.cell(i, j) ==> self.live_neighbors(i, j)
            < 3) by {
            lemma_ring_neighbors(i, self.width as int);
            lemma_ring_neighbors(j, self.height as int);
        }
        assert forall|i: int, j: int| self.in_bounds(i, j) implies next.cell(i, j) == self.cell(
            i,
            j,
        ) by {
            assert(self.cell(i, j) ==> self.live_neighbors(i, j) == 3);
            assert(!self.cell(i, j) ==> self.live_neighbors(i, j) < 3);
        }
        next.lemma_cells_decide_bitmap(self);
    }

    /// The board has no edges: the first and the last cell of a row are
    /// neighbours, and so are the first and the last cell of a column.
    pub proof fn lemma_edges_are_adjacent(self, x: int, y: int)
        requires
            self.wf(),
            self.in_bounds(x, y),
        ensures
            self.cell(self.width - 1, y) ==> self.live_neighbors(0, y) >= 1,
            self.cell(0, y) ==> self.live_neighbors(self.width - 1, y) >= 1,
            self.cell(x, self.height - 1) ==> self.live_neighbors(x, 0) >= 1,
            self.cell(x, 0) ==> self.live_neighbors(x, self.height - 1) >= 1,
    {
        lemma_ring_neighbors(0, self.width as int);
        lemma_ring_neighbors(self.width - 1, self.width as int);
        lemma_ring_neighbors(0, self.height as int);
        lemma_ring_neighbors(self.height - 1, self.height as int);
        lemma_ring_neighbors(x, self.width as int);
        lemma_ring_neighbors(y, self.height as int);
    }
}

} // verus!
