use vstd::arithmetic::div_mod::lemma_fundamental_div_mod_converse;
use vstd::prelude::*;

verus! {

/// The byte of a filled cell.
pub const FILLED: u8 = 0x23;

/// The byte of an empty cell.
pub const EMPTY: u8 = 0x2e;

/// Mathematical model of a block: a `width` x `height` bitmap stored row by
/// row, origin at the top left. A cell is filled when its byte is `FILLED`.
pub struct Shape {
    pub width: nat,
    pub height: nat,
    pub cells: Seq<u8>,
}

impl Shape {
    pub open spec fn wf(self) -> bool {
        self.cells.len() == self.width * self.height
    }

    /// The byte at column `i`, row `j`.
    pub open spec fn at(self, i: int, j: int) -> u8 {
        self.cells[j * self.width + i]
    }

    pub open spec fn filled(self, i: int, j: int) -> bool {
        self.at(i, j) == FILLED
    }

    /// A quarter turn: the result is `height` wide and `width` high, and its
    /// cell at column `c`, row `r` is this shape's cell at column
    /// `width - 1 - r`, row `c` (the last column becomes the first row).
    pub open spec fn rotated(self) -> Shape {
        Shape {
            width: self.height,
            height: self.width,
            cells: Seq::new(
                self.width * self.height,
                |k: int| self.at(self.width - 1 - k / (self.height as int), k % (self.height as int)),
            ),
        }
    }
}

/// A rectangular block of cells. Blocks never change: rotating one makes a new one.
#[derive(Debug)]
pub struct Block {
    width: usize,
    height: usize,
    cells: Vec<u8>,
}

impl View for Block {
    type V = Shape;

    closed spec fn view(&self) -> Shape {
        Shape { width: self.width as nat, height: self.height as nat, cells: self.cells@ }
    }
}

/// `j * w + i` addresses a cell inside a `w` x `h` row-major grid.
pub proof fn lemma_index_in_grid(i: int, j: int, w: int, h: int)
    requires
        0 <= i < w,
        0 <= j < h,
    ensures
        0 <= j * w + i < w * h,
        w * h == h * w,
{
    assert(0 <= j * w + i < w * h) by (nonlinear_arith)
        requires
            0 <= i < w,
            0 <= j < h,
    ;
    assert(w * h == h * w) by (nonlinear_arith);
}

/// Every index of a `w` x `h` row-major grid is `row * w + column` for one
/// row below `h` and one column below `w`.
pub proof fn lemma_split_index(k: int, w: int, h: int)
    requires
        0 <= w,
        0 <= h,
        0 <= k < w * h,
    ensures
        w > 0,
        0 <= k / w < h,
        0 <= k % w < w,
        k == (k / w) * w + k % w,
{
    assert(w > 0) by (nonlinear_arith)
        requires
            0 <= w,
            0 <= h,
            0 <= k < w * h,
    ;
    vstd::arithmetic::div_mod::lemma_fundamental_div_mod(k, w);
    vstd::arithmetic::div_mod::lemma_mod_pos_bound(k, w);
    let q = k / w;
    let r = k % w;
    assert(k == q * w + r) by (nonlinear_arith)
        requires
            k == w * q + r,
    ;
    assert(0 <= q < h) by (nonlinear_arith)
        requires
            w > 0,
            0 <= r < w,
            k == q * w + r,
            0 <= k < w * h,
    ;
}

/// Cell `(c, r)` of a rotated shape is cell `(width - 1 - r, c)` of the unrotated one.
pub proof fn lemma_rotated_at(p: Shape)
    requires
        p.wf(),
    ensures
        p.rotated().wf(),
        forall|c: int, r: int|
            0 <= c < p.height && 0 <= r < p.width ==> #[trigger] p.rotated().at(c, r) == p.at(
                p.width - 1 - r,
                c,
            ),
{
    let q = p.rotated();
    assert((p.width * p.height) as int == (p.height * p.width) as int) by (nonlinear_arith);
    assert forall|c: int, r: int| 0 <= c < p.height && 0 <= r < p.width implies #[trigger] q.at(
        c,
        r,
    ) == p.at(p.width - 1 - r, c) by {
        lemma_index_in_grid(c, r, p.height as int, p.width as int);
        lemma_fundamental_div_mod_converse(r * p.height + c, p.height as int, r, c);
    }
}

/// Two well-formed shapes of the same size that agree on every cell are equal.
pub proof fn lemma_shape_ext(a: Shape, b: Shape)
    requires
        a.wf(),
        b.wf(),
        a.width == b.width,
        a.height == b.height,
        forall|i: int, j: int| 0 <= i < a.width && 0 <= j < a.height ==> a.at(i, j) == b.at(i, j),
    ensures
        a == b,
{
    assert forall|k: int| 0 <= k < a.cells.len() implies a.cells[k] == b.cells[k] by {
        lemma_split_index(k, a.width as int, a.height as int);
        let i = k % (a.width as int);
        let j = k / (a.width as int);
        assert(a.at(i, j) == b.at(i, j));
    }
    assert(a.cells =~= b.cells);
}

impl Block {
    /// Every block's model is well formed.
    #[verifier::type_invariant]
    pub open spec fn inv(self) -> bool {
        self@.wf()
    }

    /// A `width` x `height` block with the given cells, row by row.
    pub fn new(width: usize, height: usize, cells: Vec<u8>) -> (r: Block)
        requires
            cells@.len() == width * height,
        ensures
            r@ == (Shape { width: width as nat, height: height as nat, cells: cells@ }),
    {
        Block { width, height, cells }
    }

    pub fn width(&self) -> (r: usize)
        ensures
            r == self@.width,
    {
        self.width
    }

    pub fn height(&self) -> (r: usize)
        ensures
            r == self@.height,
    {
        self.height
    }

    /// A quarter turn of this block, as a new block.
    pub fn rotate(&self) -> (r: Block)
        ensures
            r@ == self@.rotated(),
    {
        proof {
            use_type_invariant(self);
        }
        let w = self.width;
        let h = self.height;
        let len = self.cells.len();
        let ghost target = self@.rotated();
        let mut cells: Vec<u8> = Vec::with_capacity(w * h);
        let mut n: usize = 0;
        while n < w
            invariant
                w == self.width,
                h == self.height,
                self@.wf(),
                len == w * h,
                target == self@.rotated(),
                n <= w,
                cells@.len() == n * h,
                forall|k: int| 0 <= k < n * h ==> cells@[k] == target.cells[k],
            decreases w - n,
        {
            let i = w - 1 - n;
            let mut j: usize = 0;
            while j < h
                invariant
                    w == self.width,
                    h == self.height,
                    self@.wf(),
                    len == w * h,
                    target == self@.rotated(),
                    n < w,
                    i == w - 1 - n,
                    j <= h,
                    cells@.len() == n * h + j,
                    forall|k: int| 0 <= k < n * h + j ==> cells@[k] == target.cells[k],
                decreases h - j,
            {
                proof {
                    lemma_index_in_grid(i as int, j as int, w as int, h as int);
                    lemma_index_in_grid(j as int, n as int, h as int, w as int);
                    lemma_fundamental_div_mod_converse(n * h + j, h as int, n as int, j as int);
                }
                cells.push(self.cells[j * w + i]);
                j += 1;
            }
            proof {
                assert((n + 1) * h == n * h + h) by (nonlinear_arith);
            }
            n += 1;
        }
        proof {
            assert(w * h == h * w) by (nonlinear_arith);
            assert(cells@ =~= target.cells);
        }
        Block { width: h, height: w, cells }
    }
}


impl Block {
    /// The cell at column `i`, row `j`, as the character of its byte.
    pub fn cell(&self, i: usize, j: usize) -> (r: char)
        requires
            i < self@.width,
            j < self@.height,
        ensures
            r == self@.at(i as int, j as int) as char,
    {
        proof {
            use_type_invariant(self);
            assert(self.cells@.len() == self.cells.len());
            lemma_index_in_grid(i as int, j as int, self.width as int, self.height as int);
        }
        self.cells[j * self.width + i] as char
    }

    /// Whether the cell at column `i`, row `j` is filled.
    pub fn is_filled(&self, i: usize, j: usize) -> (r: bool)
        requires
            i < self@.width,
            j < self@.height,
        ensures
            r == self@.filled(i as int, j as int),
    {
        proof {
            use_type_invariant(self);
            assert(self.cells@.len() == self.cells.len());
            lemma_index_in_grid(i as int, j as int, self.width as int, self.height as int);
        }
        self.cells[j * self.width + i] == FILLED
    }

    /// A new block with the same cells.
    pub fn duplicate(&self) -> (r: Block)
        ensures
            r@ == self@,
    {
        proof {
            use_type_invariant(self);
        }
        let cells = self.cells.clone();
        proof {
            assert(cells@ =~= self.cells@);
        }
        Block { width: self.width, height: self.height, cells }
    }
}


impl PartialEq for Block {
    fn eq(&self, other: &Block) -> (r: bool) {
        if self.width != other.width || self.height != other.height || self.cells.len()
            != other.cells.len() {
            return false;
        }
        let mut k: usize = 0;
        while k < self.cells.len()
            invariant
                self.cells@.len() == other.cells@.len(),
                k <= self.cells@.len(),
                forall|m: int| 0 <= m < k ==> self.cells@[m] == other.cells@[m],
            decreases self.cells@.len() - k,
        {
            if self.cells[k] != other.cells[k] {
                return false;
            }
            k += 1;
        }
        proof {
            assert(self.cells@ =~= other.cells@);
        }
        true
    }
}

impl vstd::std_specs::cmp::PartialEqSpecImpl for Block {
    open spec fn obeys_eq_spec() -> bool {
        true
    }

    open spec fn eq_spec(&self, other: &Block) -> bool {
        self@ == other@
    }
}

/// The empty 0 x 0 block that stands before the first block is spawned.
pub open spec fn none_shape() -> Shape {
    Shape { width: 0, height: 0, cells: Seq::empty() }
}

/// `##`
/// `##`
pub open spec fn o_shape() -> Shape {
    Shape { width: 2, height: 2, cells: seq![FILLED, FILLED, FILLED, FILLED] }
}

/// A vertical bar, one cell wide and four high.
pub open spec fn i_shape() -> Shape {
    Shape { width: 1, height: 4, cells: seq![FILLED, FILLED, FILLED, FILLED] }
}

/// `.##`
/// `##.`
pub open spec fn s_shape() -> Shape {
    Shape { width: 3, height: 2, cells: seq![EMPTY, FILLED, FILLED, FILLED, FILLED, EMPTY] }
}

/// `##.`
/// `.##`
pub open spec fn z_shape() -> Shape {
    Shape { width: 3, height: 2, cells: seq![FILLED, FILLED, EMPTY, EMPTY, FILLED, FILLED] }
}

/// `###`
/// `#..`
pub open spec fn l_shape() -> Shape {
    Shape { width: 3, height: 2, cells: seq![FILLED, FILLED, FILLED, FILLED, EMPTY, EMPTY] }
}

/// `###`
/// `..#`
pub open spec fn j_shape() -> Shape {
    Shape { width: 3, height: 2, cells: seq![FILLED, FILLED, FILLED, EMPTY, EMPTY, FILLED] }
}

/// `###`
/// `.#.`
pub open spec fn t_shape() -> Shape {
    Shape { width: 3, height: 2, cells: seq![FILLED, FILLED, FILLED, EMPTY, FILLED, EMPTY] }
}

/// The seven shapes that blocks are spawned from, in catalogue order.
pub open spec fn catalogue() -> Seq<Shape> {
    seq![o_shape(), i_shape(), s_shape(), z_shape(), l_shape(), j_shape(), t_shape()]
}

pub fn none() -> (r: Block)
    ensures
        r@ == none_shape(),
{
    let r = Block { width: 0, height: 0, cells: Vec::new() };
    proof {
        assert(r@.cells =~= none_shape().cells);
    }
    r
}

pub fn o() -> (r: Block)
    ensures
        r@ == o_shape(),
{
    let cells = vec![FILLED, FILLED, FILLED, FILLED];
    proof {
        assert(cells@ =~= o_shape().cells);
    }
    Block::new(2, 2, cells)
}

pub fn i() -> (r: Block)
    ensures
        r@ == i_shape(),
{
    let cells = vec![FILLED, FILLED, FILLED, FILLED];
    proof {
        assert(cells@ =~= i_shape().cells);
    }
    Block::new(1, 4, cells)
}

pub fn s() -> (r: Block)
    ensures
        r@ == s_shape(),
{
    let cells = vec![EMPTY, FILLED, FILLED, FILLED, FILLED, EMPTY];
    proof {
        assert(cells@ =~= s_shape().cells);
    }
    Block::new(3, 2, cells)
}

pub fn z() -> (r: Block)
    ensures
        r@ == z_shape(),
{
    let cells = vec![FILLED, FILLED, EMPTY, EMPTY, FILLED, FILLED];
    proof {
        assert(cells@ =~= z_shape().cells);
    }
    Block::new(3, 2, cells)
}

pub fn l() -> (r: Block)
    ensures
        r@ == l_shape(),
{
    let cells = vec![FILLED, FILLED, FILLED, FILLED, EMPTY, EMPTY];
    proof {
        assert(cells@ =~= l_shape().cells);
    }
    Block::new(3, 2, cells)
}

pub fn j() -> (r: Block)
    ensures
        r@ == j_shape(),
{
    let cells = vec![FILLED, FILLED, FILLED, EMPTY, EMPTY, FILLED];
    proof {
        assert(cells@ =~= j_shape().cells);
    }
    Block::new(3, 2, cells)
}

pub fn t() -> (r: Block)
    ensures
        r@ == t_shape(),
{
    let cells = vec![FILLED, FILLED, FILLED, EMPTY, FILLED, EMPTY];
    proof {
        assert(cells@ =~= t_shape().cells);
    }
    Block::new(3, 2, cells)
}

/// The catalogue as blocks, one of each shape.
pub fn default_blocks() -> (r: Vec<Block>)
    ensures
        r@.len() == catalogue().len(),
        forall|k: int| 0 <= k < r@.len() ==> #[trigger] r@[k]@ == catalogue()[k],
{
    let r = vec![o(), i(), s(), z(), l(), j(), t()];
    proof {
        assert(r@.len() == 7);
    }
    r
}

/// Four quarter turns give back the shape they started from: its width, its
/// height and every cell.
pub proof fn lemma_rotate_four_times(p: Shape)
    requires
        p.wf(),
    ensures
        p.rotated().rotated().rotated().rotated() == p,
{
    let q1 = p.rotated();
    lemma_rotated_at(p);
    let q2 = q1.rotated();
    lemma_rotated_at(q1);
    let q3 = q2.rotated();
    lemma_rotated_at(q2);
    let q4 = q3.rotated();
    lemma_rotated_at(q3);
    assert forall|i: int, j: int| 0 <= i < p.width && 0 <= j < p.height implies q4.at(i, j)
        == p.at(i, j) by {
        assert(q4.at(i, j) == q3.at(p.height - 1 - j, i));
        assert(q3.at(p.height - 1 - j, i) == q2.at(p.width - 1 - i, p.height - 1 - j));
        assert(q2.at(p.width - 1 - i, p.height - 1 - j) == q1.at(j, p.width - 1 - i));
        assert(q1.at(j, p.width - 1 - i) == p.at(i, j));
    }
    lemma_shape_ext(q4, p);
}

/// A quarter turn leaves the square O-shape as it is.
pub proof fn lemma_o_rotation_fixed()
    ensures
        o_shape().rotated() == o_shape(),
{
    let p = o_shape();
    assert(p.width * p.height == 4) by (nonlinear_arith)
        requires
            p.width == 2,
            p.height == 2,
    ;
    lemma_rotated_at(p);
    assert forall|i: int, j: int| 0 <= i < 2 && 0 <= j < 2 implies p.rotated().at(i, j) == p.at(
        i,
        j,
    ) by {
        assert(p.rotated().at(i, j) == p.at(1 - j, i));
    }
    lemma_shape_ext(p.rotated(), p);
}

} // verus!
