use rand::rngs::ThreadRng;
use rand::seq::SliceRandom;
use vstd::prelude::*;
use vstd::string::StringExecFns;

use crate::block::{
    catalogue, default_blocks, lemma_index_in_grid, none, none_shape, Block, Shape, EMPTY, FILLED,
};

verus! {

#[verifier::external_type_specification]
#[verifier::external_body]
pub struct ExThreadRng(ThreadRng);

/// Relies on rand's `SliceRandom::choose` for slices: `None` on an empty
/// slice, else a reference to one of its items, picked at random.
#[verifier::external_body]
fn choose_block<'a>(blocks: &'a Vec<Block>, rng: &mut ThreadRng) -> (r: Option<&'a Block>)
    ensures
        r is None <==> blocks@.len() == 0,
        r matches Some(b) ==> exists|k: int| 0 <= k < blocks@.len() && *b == blocks@[k],
{
    blocks.as_slice().choose(rng)
}

/// Mathematical model of a grid: `width` x `height` cells stored row by row,
/// origin at the top left. A cell is filled when its byte is `FILLED`.
pub struct Grid {
    pub width: nat,
    pub height: nat,
    pub cells: Seq<u8>,
}

/// Mathematical model of a playfield: the grid, the active block with the
/// top-left corner of its bounding box at `(x, y)`, the score, and the shapes
/// that random spawns draw from.
pub struct Field {
    pub grid: Grid,
    pub x: nat,
    pub y: nat,
    pub block: Shape,
    pub score: nat,
    pub blocks: Seq<Shape>,
}

/// A new playfield: every cell empty, the empty block at `(0, 0)`, score 0.
pub open spec fn initial_field(width: nat, height: nat) -> Field {
    Field {
        grid: Grid { width, height, cells: Seq::new(width * height, |k: int| EMPTY) },
        x: 0,
        y: 0,
        block: none_shape(),
        score: 0,
        blocks: catalogue(),
    }
}

/// `y1 * w + x1 == y2 * w + x2` with both columns below `w` only for the same cell.
pub proof fn lemma_index_unique(x1: int, y1: int, x2: int, y2: int, w: int)
    requires
        0 <= x1 < w,
        0 <= x2 < w,
        0 <= y1,
        0 <= y2,
        y1 * w + x1 == y2 * w + x2,
    ensures
        x1 == x2,
        y1 == y2,
{
    if y1 < y2 {
        assert(y1 * w + w <= y2 * w) by (nonlinear_arith)
            requires
                y1 < y2,
                0 <= w,
        ;
    } else if y2 < y1 {
        assert(y2 * w + w <= y1 * w) by (nonlinear_arith)
            requires
                y2 < y1,
                0 <= w,
        ;
    }
}

impl Grid {
    pub open spec fn wf(self) -> bool {
        self.cells.len() == self.width * self.height
    }

    /// The cell at column `x`, row `y`.
    pub open spec fn at(self, x: int, y: int) -> u8 {
        self.cells[y * self.width + x]
    }

    pub open spec fn filled(self, x: int, y: int) -> bool {
        self.at(x, y) == FILLED
    }

    /// Shape `b` with its corner at `(x, y)` sticks out of the grid or covers
    /// a filled cell with one of its own filled cells.
    pub open spec fn collides(self, b: Shape, x: int, y: int) -> bool {
        ||| x + b.width > self.width
        ||| y + b.height > self.height
        ||| exists|i: int, j: int|
            0 <= i < b.width && 0 <= j < b.height && b.filled(i, j) && #[trigger] self.filled(
                x + i,
                y + j,
            )
    }

    pub open spec fn with_cells(self, cells: Seq<u8>) -> Grid {
        Grid { cells, ..self }
    }

    /// Row `y` as text: `'#'` for a filled cell, `'.'` for any other.
    pub open spec fn row_text(self, y: int) -> Seq<char> {
        Seq::new(self.width, |x: int| if self.filled(x, y) { '#' } else { '.' })
    }

    /// The first `rows` rows as text, each row followed by a line break.
    pub open spec fn text(self, rows: nat) -> Seq<char>
        decreases rows,
    {
        if rows == 0 {
            Seq::empty()
        } else {
            self.text((rows - 1) as nat) + self.row_text(rows - 1) + seq!['\n']
        }
    }

    /// No cell is filled.
    pub open spec fn is_clear(self) -> bool {
        forall|k: int| 0 <= k < self.cells.len() ==> self.cells[k] != FILLED
    }
}

impl Field {
    /// The active block, placed at the anchor, fills grid cell `(x, y)`.
    pub open spec fn covers(self, x: int, y: int) -> bool {
        &&& self.x <= x < self.x + self.block.width
        &&& self.y <= y < self.y + self.block.height
        &&& self.block.filled(x - self.x, y - self.y)
    }

    /// The grid has `width * height` cells, the active block is well formed
    /// and sits at its anchor without colliding.
    pub open spec fn wf(self) -> bool {
        &&& self.grid.wf()
        &&& self.block.wf()
        &&& !self.grid.collides(self.block, self.x as int, self.y as int)
    }

    pub open spec fn with_anchor(self, x: nat, y: nat) -> Field {
        Field { x, y, ..self }
    }

    pub open spec fn with_block(self, b: Shape) -> Field {
        Field { block: b, ..self }
    }

    /// The field after the active block moves one column left, if it may.
    pub open spec fn left_move(self) -> Option<Field> {
        if self.x > 0 && !self.grid.collides(self.block, self.x - 1, self.y as int) {
            Some(self.with_anchor((self.x - 1) as nat, self.y))
        } else {
            None
        }
    }

    /// The field after the active block moves one column right, if it may.
    pub open spec fn right_move(self) -> Option<Field> {
        if !self.grid.collides(self.block, self.x + 1int, self.y as int) {
            Some(self.with_anchor(self.x + 1, self.y))
        } else {
            None
        }
    }

    /// The field after the active block moves one row down, if it may.
    pub open spec fn down_move(self) -> Option<Field> {
        if !self.grid.collides(self.block, self.x as int, self.y + 1int) {
            Some(self.with_anchor(self.x, self.y + 1))
        } else {
            None
        }
    }

    /// The field after the active block turns a quarter in place, if it may.
    pub open spec fn rotate_move(self) -> Option<Field> {
        if !self.grid.collides(self.block.rotated(), self.x as int, self.y as int) {
            Some(self.with_block(self.block.rotated()))
        } else {
            None
        }
    }

    /// The field with `b` as its active block at the current anchor, if it fits there.
    pub open spec fn placed(self, b: Shape) -> Option<Field> {
        if !self.grid.collides(b, self.x as int, self.y as int) {
            Some(self.with_block(b))
        } else {
            None
        }
    }

    /// The field with `b` spawned at the top, in column `width / 2`, if it fits there.
    pub open spec fn spawned(self, b: Shape) -> Option<Field> {
        if !self.grid.collides(b, self.grid.width as int / 2, 0) {
            Some(self.with_block(b).with_anchor(self.grid.width / 2, 0))
        } else {
            None
        }
    }

    /// Row `y2` is where the active block comes to rest when it drops from
    /// its row: it fits in every row below its own down to `y2`, and not in
    /// the row after.
    pub open spec fn lands_at(self, y2: int) -> bool {
        &&& self.y < y2
        &&& forall|k: int| self.y < k <= y2 ==> !#[trigger] self.grid.collides(self.block, self.x as int, k)
        &&& self.grid.collides(self.block, self.x as int, y2 + 1)
    }

    /// The field after `n` moves to the right, or `None` once one is rejected.
    pub open spec fn right_moves(self, n: nat) -> Option<Field>
        decreases n,
    {
        if n == 0 {
            Some(self)
        } else {
            match self.right_moves((n - 1) as nat) {
                Some(g) => g.right_move(),
                None => None,
            }
        }
    }

    /// The field after `n` moves to the left, or `None` once one is rejected.
    pub open spec fn left_moves(self, n: nat) -> Option<Field>
        decreases n,
    {
        if n == 0 {
            Some(self)
        } else {
            match self.left_moves((n - 1) as nat) {
                Some(g) => g.left_move(),
                None => None,
            }
        }
    }
}

/// On a clear grid a shape that fits the grid's height fits in every column
/// from `0` to `width - b.width`, and not one column further right.
pub proof fn lemma_clear_fits(g: Grid, b: Shape, y: int)
    requires
        g.wf(),
        g.is_clear(),
        0 <= y,
        y + b.height <= g.height,
    ensures
        forall|x: int| 0 <= x && x + b.width <= g.width ==> !g.collides(b, x, y),
        g.collides(b, g.width - b.width + 1, y),
{
    assert forall|x: int| 0 <= x && x + b.width <= g.width implies !g.collides(b, x, y) by {
        assert forall|i: int, j: int|
            0 <= i < b.width && 0 <= j < b.height && b.filled(i, j) implies !#[trigger] g.filled(
            x + i,
            y + j,
        ) by {
            lemma_index_in_grid(x + i, y + j, g.width as int, g.height as int);
        }
    }
}

/// On a clear grid, a block of width `w` anchored at column `x` moves right
/// exactly `width - w - x` times before a move is rejected, and left exactly
/// `x` times.
pub proof fn lemma_boundary_exact(f: Field)
    requires
        f.wf(),
        f.grid.is_clear(),
    ensures
        f.right_moves((f.grid.width - f.block.width - f.x) as nat) == Some(
            f.with_anchor((f.grid.width - f.block.width) as nat, f.y),
        ),
        f.right_moves((f.grid.width - f.block.width - f.x + 1) as nat) is None,
        f.left_moves(f.x) == Some(f.with_anchor(0, f.y)),
        f.left_moves(f.x + 1) is None,
{
    let m = (f.grid.width - f.block.width - f.x) as nat;
    lemma_clear_fits(f.grid, f.block, f.y as int);
    assert forall|n: nat| n <= m implies #[trigger] f.right_moves(n) == Some(
        f.with_anchor(f.x + n, f.y),
    ) by {
        lemma_right_moves(f, n);
    }
    assert(f.right_moves(m) == Some(f.with_anchor((f.grid.width - f.block.width) as nat, f.y)));
    assert forall|n: nat| n <= f.x implies #[trigger] f.left_moves(n) == Some(
        f.with_anchor((f.x - n) as nat, f.y),
    ) by {
        lemma_left_moves(f, n);
    }
    assert(f.left_moves(f.x) == Some(f.with_anchor(0, f.y)));
}

proof fn lemma_right_moves(f: Field, n: nat)
    requires
        f.wf(),
        f.grid.is_clear(),
        f.x + n + f.block.width <= f.grid.width,
    ensures
        f.right_moves(n) == Some(f.with_anchor(f.x + n, f.y)),
    decreases n,
{
    lemma_clear_fits(f.grid, f.block, f.y as int);
    if n > 0 {
        lemma_right_moves(f, (n - 1) as nat);
    }
}

proof fn lemma_left_moves(f: Field, n: nat)
    requires
        f.wf(),
        f.grid.is_clear(),
        n <= f.x,
    ensures
        f.left_moves(n) == Some(f.with_anchor((f.x - n) as nat, f.y)),
    decreases n,
{
    lemma_clear_fits(f.grid, f.block, f.y as int);
    if n > 0 {
        lemma_left_moves(f, (n - 1) as nat);
    }
}

/// A playfield: a fixed-size grid of cells and the active block, with every
/// move checked for collisions.
#[derive(Debug)]
pub struct Board {
    width: usize,
    height: usize,
    cells: Vec<u8>,
    score: usize,
    block_pos: (usize, usize),
    block: Block,
    blocks: Vec<Block>,
}

impl View for Board {
    type V = Field;

    closed spec fn view(&self) -> Field {
        Field {
            grid: Grid { width: self.width as nat, height: self.height as nat, cells: self.cells@ },
            x: self.block_pos.0 as nat,
            y: self.block_pos.1 as nat,
            block: self.block@,
            score: self.score as nat,
            blocks: self.blocks@.map_values(|b: Block| b@),
        }
    }
}

impl Board {
    /// The model is well formed and random spawns draw from the catalogue.
    #[verifier::type_invariant]
    pub open spec fn inv(self) -> bool {
        &&& self@.wf()
        &&& self@.blocks == catalogue()
    }

    /// An empty `width` x `height` grid with no active block.
    pub fn new(width: usize, height: usize) -> (r: Board)
        requires
            width * height <= usize::MAX,
        ensures
            r@ == initial_field(width as nat, height as nat),
    {
        let cells = vec![EMPTY; width * height];
        let blocks = default_blocks();
        let block = none();
        proof {
            assert(cells@ =~= Seq::new((width * height) as nat, |k: int| EMPTY));
            assert(blocks@.map_values(|b: Block| b@) =~= catalogue());
        }
        Board { width, height, cells, score: 0, block, block_pos: (0, 0), blocks }
    }

    /// Whether `block` placed with its corner at `pos` collides: `Err` when it does.
    pub fn check_collide(&self, block: &Block, pos: (usize, usize)) -> (r: Result<(), ()>)
        ensures
            r is Err <==> self@.grid.collides(block@, pos.0 as int, pos.1 as int),
    {
        proof {
            use_type_invariant(self);
            use_type_invariant(block);
            assert(self.cells@.len() == self.cells.len());
        }
        let bw = block.width();
        let bh = block.height();
        if pos.0 > self.width || bw > self.width - pos.0 {
            return Err(());
        }
        if pos.1 > self.height || bh > self.height - pos.1 {
            return Err(());
        }
        let ghost f = self@.grid;
        let ghost b = block@;
        let mut j: usize = 0;
        while j < bh
            invariant
                f == self@.grid,
                b == block@,
                f.cells.len() == f.width * f.height,
                f.cells.len() == self.cells.len(),
                bw == b.width,
                bh == b.height,
                pos.0 + bw <= f.width,
                pos.1 + bh <= f.height,
                j <= bh,
                forall|i2: int, j2: int|
                    0 <= i2 < bw && 0 <= j2 < j && b.filled(i2, j2) ==> !#[trigger] f.filled(
                        pos.0 + i2,
                        pos.1 + j2,
                    ),
            decreases bh - j,
        {
            let mut i: usize = 0;
            while i < bw
                invariant
                    f == self@.grid,
                    b == block@,
                    f.cells.len() == f.width * f.height,
                    f.cells.len() == self.cells.len(),
                    bw == b.width,
                    bh == b.height,
                    pos.0 + bw <= f.width,
                    pos.1 + bh <= f.height,
                    j < bh,
                    i <= bw,
                    forall|i2: int, j2: int|
                        0 <= i2 < bw && 0 <= j2 < j && b.filled(i2, j2) ==> !#[trigger] f.filled(
                            pos.0 + i2,
                            pos.1 + j2,
                        ),
                    forall|i2: int|
                        0 <= i2 < i && b.filled(i2, j as int) ==> !#[trigger] f.filled(
                            pos.0 + i2,
                            pos.1 + j,
                        ),
                decreases bw - i,
            {
                proof {
                    lemma_index_in_grid(
                        pos.0 + i,
                        pos.1 + j,
                        self.width as int,
                        self.height as int,
                    );
                }
                if block.is_filled(i, j) && self.cells[(pos.1 + j) * self.width + (pos.0 + i)]
                    == FILLED {
                    proof {
                        assert(b.filled(i as int, j as int));
                        assert(f.filled(pos.0 + i, pos.1 + j));
                    }
                    return Err(());
                }
                i += 1;
            }
            j += 1;
        }
        Ok(())
    }

    pub fn move_left(&mut self) -> (r: Result<(), ()>)
        ensures
            r is Ok <==> old(self)@.left_move() is Some,
            r is Ok ==> final(self)@ == old(self)@.left_move()->0,
            r is Err ==> final(self)@ == old(self)@,
    {
        proof {
            use_type_invariant(&*self);
        }
        if self.block_pos.0 == 0 {
            return Err(());
        }
        let new_block_pos = (self.block_pos.0 - 1, self.block_pos.1);
        if self.check_collide(&self.block, new_block_pos).is_err() {
            return Err(());
        }
        self.block_pos = new_block_pos;
        Ok(())
    }

    pub fn move_right(&mut self) -> (r: Result<(), ()>)
        ensures
            r is Ok <==> old(self)@.right_move() is Some,
            r is Ok ==> final(self)@ == old(self)@.right_move()->0,
            r is Err ==> final(self)@ == old(self)@,
    {
        proof {
            use_type_invariant(&*self);
        }
        if self.block_pos.0 == usize::MAX {
            return Err(());
        }
        let new_block_pos = (self.block_pos.0 + 1, self.block_pos.1);
        if self.check_collide(&self.block, new_block_pos).is_err() {
            return Err(());
        }
        self.block_pos = new_block_pos;
        Ok(())
    }

    pub fn move_down(&mut self) -> (r: Result<(), ()>)
        ensures
            r is Ok <==> old(self)@.down_move() is Some,
            r is Ok ==> final(self)@ == old(self)@.down_move()->0,
            r is Err ==> final(self)@ == old(self)@,
    {
        proof {
            use_type_invariant(&*self);
        }
        if self.block_pos.1 == usize::MAX {
            return Err(());
        }
        let new_block_pos = (self.block_pos.0, self.block_pos.1 + 1);
        if self.check_collide(&self.block, new_block_pos).is_err() {
            return Err(());
        }
        self.block_pos = new_block_pos;
        Ok(())
    }

    /// Turns the active block a quarter in place, with no wall kick.
    pub fn rotate(&mut self) -> (r: Result<(), ()>)
        ensures
            r is Ok <==> old(self)@.rotate_move() is Some,
            r is Ok ==> final(self)@ == old(self)@.rotate_move()->0,
            r is Err ==> final(self)@ == old(self)@,
    {
        proof {
            use_type_invariant(&*self);
        }
        let new_block = self.block.rotate();
        proof {
            use_type_invariant(&new_block);
        }
        if self.check_collide(&new_block, self.block_pos).is_err() {
            return Err(());
        }
        self.block = new_block;
        Ok(())
    }
}


/// Puts `block` at `pos` in the two slots of the active block at once.
fn put_active(
    block_slot: &mut Block,
    pos_slot: &mut (usize, usize),
    block: Block,
    pos: (usize, usize),
)
    ensures
        *final(block_slot) == block,
        *final(pos_slot) == pos,
    no_unwind
{
    *block_slot = block;
    *pos_slot = pos;
}

impl Board {
    /// Drops the active block row by row until the next row would collide.
    /// Rejected, with nothing changed, when it cannot move down even once.
    pub fn land(&mut self) -> (r: Result<(), ()>)
        ensures
            r is Ok <==> old(self)@.down_move() is Some,
            r is Ok ==> old(self)@.lands_at(final(self)@.y as int) && final(self)@ == old(
                self,
            )@.with_anchor(old(self)@.x, final(self)@.y),
            r is Err ==> final(self)@ == old(self)@,
    {
        if self.move_down().is_err() {
            return Err(());
        }
        proof {
            use_type_invariant(&*self);
        }
        loop
            invariant
                self@ == old(self)@.with_anchor(old(self)@.x, self@.y),
                old(self)@.y < self@.y,
                self@.y <= self@.grid.height,
                forall|k: int|
                    old(self)@.y < k <= self@.y ==> !#[trigger] old(self)@.grid.collides(
                        old(self)@.block,
                        old(self)@.x as int,
                        k,
                    ),
            ensures
                self@ == old(self)@.with_anchor(old(self)@.x, self@.y),
                old(self)@.lands_at(self@.y as int),
            decreases self@.grid.height - self@.y,
        {
            if self.move_down().is_err() {
                break;
            }
            proof {
                use_type_invariant(&*self);
            }
        }
        Ok(())
    }

    /// Makes `block` the active block at the top of the grid, in column
    /// `width / 2`. Rejected, with nothing changed, when it does not fit
    /// there: the grid is topped out.
    pub fn spawn_block(&mut self, block: Block) -> (r: Result<(), ()>)
        ensures
            r is Ok <==> old(self)@.spawned(block@) is Some,
            r is Ok ==> final(self)@ == old(self)@.spawned(block@)->0,
            r is Err ==> final(self)@ == old(self)@,
    {
        proof {
            use_type_invariant(&*self);
            use_type_invariant(&block);
        }
        let block_pos = (self.width / 2, 0);
        if self.check_collide(&block, block_pos).is_err() {
            return Err(());
        }
        put_active(&mut self.block, &mut self.block_pos, block, block_pos);
        Ok(())
    }

    /// Spawns a block drawn at random from the catalogue, as `spawn_block` does.
    pub fn spawn_random_block(&mut self, rng: &mut ThreadRng) -> (r: Result<(), ()>)
        ensures
            exists|k: int|
                0 <= k < catalogue().len() && {
                    let b = #[trigger] catalogue()[k];
                    &&& r is Ok <==> old(self)@.spawned(b) is Some
                    &&& r is Ok ==> final(self)@ == old(self)@.spawned(b)->0
                    &&& r is Err ==> final(self)@ == old(self)@
                },
    {
        proof {
            use_type_invariant(&*self);
        }
        let chosen = choose_block(&self.blocks, rng);
        match chosen {
            Some(b) => {
                let ghost k = choose|k: int| 0 <= k < self.blocks@.len() && *b == self.blocks@[k];
                let block = b.duplicate();
                proof {
                    assert(self@.blocks[k] == block@);
                }
                self.spawn_block(block)
            },
            None => {
                proof {
                    assert(self@.blocks.len() == 7);
                }
                Err(())
            },
        }
    }

    /// Writes every filled cell of the active block into the grid at the
    /// anchor, then retires the block: the empty block takes its place. The
    /// anchor and every other cell stay as they were.
    pub fn settle_block(&mut self)
        ensures
            final(self)@.grid.width == old(self)@.grid.width,
            final(self)@.grid.height == old(self)@.grid.height,
            final(self)@.grid.cells.len() == old(self)@.grid.cells.len(),
            final(self)@.x == old(self)@.x,
            final(self)@.y == old(self)@.y,
            final(self)@.block == none_shape(),
            final(self)@.score == old(self)@.score,
            final(self)@.blocks == old(self)@.blocks,
            forall|x: int, y: int|
                0 <= x < old(self)@.grid.width && 0 <= y < old(self)@.grid.height
                    ==> #[trigger] final(self)@.grid.at(x, y) == if old(self)@.covers(x, y) {
                    FILLED
                } else {
                    old(self)@.grid.at(x, y)
                },
    {
        proof {
            use_type_invariant(&*self);
        }
        let ghost f0 = self@;
        let block = self.block.duplicate();
        let empty = none();
        proof {
            assert(!f0.grid.collides(empty@, f0.x as int, f0.y as int));
        }
        self.block = empty;
        let x0 = self.block_pos.0;
        let y0 = self.block_pos.1;
        let bw = block.width();
        let bh = block.height();
        let w = self.width;
        let mut cells = self.cells.clone();
        proof {
            assert(cells@ =~= f0.grid.cells);
            assert(self.cells@.len() == self.cells.len());
        }
        let mut j: usize = 0;
        while j < bh
            invariant
                block@ == f0.block,
                bw == f0.block.width,
                bh == f0.block.height,
                x0 == f0.x,
                y0 == f0.y,
                w == f0.grid.width,
                f0.wf(),
                f0.grid.cells.len() <= usize::MAX,
                f0.grid.height <= usize::MAX,
                cells@.len() == f0.grid.cells.len(),
                j <= bh,
                forall|x: int, y: int|
                    0 <= x < f0.grid.width && 0 <= y < f0.grid.height
                        ==> #[trigger] f0.grid.with_cells(cells@).at(x, y) == if f0.covers(x, y)
                        && y - y0 < j {
                        FILLED
                    } else {
                        f0.grid.at(x, y)
                    },
            decreases bh - j,
        {
            let mut i: usize = 0;
            while i < bw
                invariant
                    block@ == f0.block,
                    bw == f0.block.width,
                    bh == f0.block.height,
                    x0 == f0.x,
                    y0 == f0.y,
                    w == f0.grid.width,
                    f0.wf(),
                    f0.grid.cells.len() <= usize::MAX,
                    f0.grid.height <= usize::MAX,
                f0.grid.height <= usize::MAX,
                    cells@.len() == f0.grid.cells.len(),
                    j < bh,
                    i <= bw,
                    forall|x: int, y: int|
                        0 <= x < f0.grid.width && 0 <= y < f0.grid.height
                            ==> #[trigger] f0.grid.with_cells(cells@).at(x, y) == if f0.covers(
                            x,
                            y,
                        ) && (y - y0 < j || (y - y0 == j && x - x0 < i)) {
                            FILLED
                        } else {
                            f0.grid.at(x, y)
                        },
                decreases bw - i,
            {
                if block.is_filled(i, j) {
                    proof {
                        lemma_index_in_grid(
                            x0 + i,
                            y0 + j,
                            f0.grid.width as int,
                            f0.grid.height as int,
                        );
                    }
                    let offset = (y0 + j) * w + (x0 + i);
                    let ghost before = f0.grid.with_cells(cells@);
                    cells.set(offset, FILLED);
                    proof {
                        let after = f0.grid.with_cells(cells@);
                        assert forall|x: int, y: int|
                            0 <= x < f0.grid.width && 0 <= y < f0.grid.height && (x != x0 + i
                                || y != y0 + j) implies #[trigger] after.at(x, y) == before.at(
                            x,
                            y,
                        ) by {
                            lemma_index_in_grid(x, y, f0.grid.width as int, f0.grid.height as int);
                            if y * w + x == offset {
                                lemma_index_unique(x, y, x0 + i, y0 + j, w as int);
                            }
                        }
                        assert(after.at(x0 + i, y0 + j) == FILLED);
                    }
                }
                i += 1;
            }
            j += 1;
        }
        std::mem::swap(&mut self.cells, &mut cells);
        proof {
            assert(self@.grid == f0.grid.with_cells(self.cells@));
        }
    }
}


impl Board {
    /// Makes `block` the active block at the current anchor. Rejected, with
    /// nothing changed, when it does not fit there.
    pub fn set_block(&mut self, block: Block) -> (r: Result<(), ()>)
        ensures
            r is Ok <==> old(self)@.placed(block@) is Some,
            r is Ok ==> final(self)@ == old(self)@.placed(block@)->0,
            r is Err ==> final(self)@ == old(self)@,
    {
        proof {
            use_type_invariant(&*self);
            use_type_invariant(&block);
        }
        if self.check_collide(&block, self.block_pos).is_err() {
            return Err(());
        }
        self.block = block;
        Ok(())
    }

    /// The grid cell at column `pos.0`, row `pos.1`, as the character of its byte.
    pub fn cell(&self, pos: (usize, usize)) -> (r: char)
        requires
            pos.0 < self@.grid.width,
            pos.1 < self@.grid.height,
        ensures
            r == self@.grid.at(pos.0 as int, pos.1 as int) as char,
    {
        proof {
            use_type_invariant(self);
            assert(self.cells@.len() == self.cells.len());
            lemma_index_in_grid(pos.0 as int, pos.1 as int, self.width as int, self.height as int);
        }
        self.cells[pos.1 * self.width + pos.0] as char
    }

    pub fn width(&self) -> (r: usize)
        ensures
            r == self@.grid.width,
    {
        self.width
    }

    pub fn height(&self) -> (r: usize)
        ensures
            r == self@.grid.height,
    {
        self.height
    }

    /// The grid cells, row by row.
    pub fn cells(&self) -> (r: &Vec<u8>)
        ensures
            r@ == self@.grid.cells,
    {
        &self.cells
    }

    /// The column and row of the active block's top-left corner.
    pub fn anchor(&self) -> (r: (usize, usize))
        ensures
            r.0 == self@.x,
            r.1 == self@.y,
    {
        self.block_pos
    }

    pub fn block(&self) -> (r: &Block)
        ensures
            r@ == self@.block,
    {
        &self.block
    }

    pub fn score(&self) -> (r: usize)
        ensures
            r == self@.score,
    {
        self.score
    }

    /// The grid as text, one line per row from the top: `'#'` for a filled
    /// cell, `'.'` for an empty one.
    pub fn render(&self) -> (r: String)
        ensures
            r@ == self@.grid.text(self@.grid.height),
    {
        proof {
            use_type_invariant(self);
            assert(self.cells@.len() == self.cells.len());
        }
        let ghost g = self@.grid;
        let mut s = String::new();
        let mut y: usize = 0;
        while y < self.height
            invariant
                g == self@.grid,
                g.wf(),
                g.cells.len() <= usize::MAX,
                y <= g.height,
                s@ == g.text(y as nat),
            decreases g.height - y,
        {
            let mut x: usize = 0;
            while x < self.width
                invariant
                    g == self@.grid,
                    g.wf(),
                    g.cells.len() <= usize::MAX,
                    y < g.height,
                    x <= g.width,
                    s@ == g.text(y as nat) + g.row_text(y as int).subrange(0, x as int),
                decreases g.width - x,
            {
                proof {
                    lemma_index_in_grid(x as int, y as int, g.width as int, g.height as int);
                }
                let ghost before = s@;
                if self.cells[y * self.width + x] == FILLED {
                    s.append("#");
                    proof {
                        reveal_strlit("#");
                    }
                } else {
                    s.append(".");
                    proof {
                        reveal_strlit(".");
                    }
                }
                proof {
                    assert(g.row_text(y as int).subrange(0, x + 1) =~= g.row_text(
                        y as int,
                    ).subrange(0, x as int).push(g.row_text(y as int)[x as int]));
                    assert(s@ =~= g.text(y as nat) + g.row_text(y as int).subrange(0, x + 1));
                }
                x += 1;
            }
            s.append("\n");
            proof {
                reveal_strlit("\n");
                assert(g.row_text(y as int).subrange(0, x as int) =~= g.row_text(y as int));
                assert(s@ =~= g.text((y + 1) as nat));
            }
            y += 1;
        }
        s
    }
}

} // verus!
