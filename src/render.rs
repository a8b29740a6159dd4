use vstd::prelude::*;

verus! {

/// A finished image: `height` rows of `width` colours, row by row.
pub struct Framebuffer<C> {
    pub width: usize,
    pub height: usize,
    pub cells: Vec<C>,
}

/// One rendered pixel: its column, its row and its colour.
pub type PixResult<C> = (usize, usize, C);

/// A point of the image plane at `(x_num / den, y_num / den)`, in units in
/// which the shorter side of the image measures 1.
#[derive(Clone, Copy, Debug, PartialEq, Eq, Structural)]
pub struct Sample {
    pub x_num: u64,
    pub y_num: u64,
    pub den: u64,
}

/// Sample `(ax, ay)` of pixel `(x, y)` on an `aac` by `aac` grid: the centre
/// of cell `(ax, ay)` when the pixel is cut into `aac` columns and rows.
pub open spec fn grid_sample(x: int, y: int, ax: int, ay: int, aac: int, short_side: int) -> Sample {
    Sample {
        x_num: (2 * aac * x + 2 * ax + 1) as u64,
        y_num: (2 * aac * y + 2 * ay + 1) as u64,
        den: (2 * aac * short_side) as u64,
    }
}

/// The supersampling points of pixel `(x, y)`, column of the grid by column:
/// sample `(ax, ay)` stands at index `ax * aac + ay`.
pub fn pixel_samples(x: u32, y: u32, aac: u32, short_side: u32) -> (r: Vec<Sample>)
    requires
        1 <= aac <= 0xffff,
        1 <= short_side,
    ensures
        r@.len() == aac * aac,
        forall|ax: int, ay: int| 0 <= ax < aac && 0 <= ay < aac
            ==> #[trigger] r@[ax * aac + ay] == grid_sample(x as int, y as int, ax, ay, aac as int, short_side as int),
{
    let a: u64 = aac as u64;
    proof {
        assert(2 * a * x <= 2 * 0xffff * 0xffff_ffff) by (nonlinear_arith)
            requires
                a <= 0xffff,
                x <= 0xffff_ffff,
        ;
        assert(2 * a * y <= 2 * 0xffff * 0xffff_ffff) by (nonlinear_arith)
            requires
                a <= 0xffff,
                y <= 0xffff_ffff,
        ;
        assert(2 * a * short_side <= 2 * 0xffff * 0xffff_ffff) by (nonlinear_arith)
            requires
                a <= 0xffff,
                short_side <= 0xffff_ffff,
        ;
    }
    let base_x: u64 = 2 * a * x as u64;
    let base_y: u64 = 2 * a * y as u64;
    let den: u64 = 2 * a * short_side as u64;
    let mut r: Vec<Sample> = Vec::new();
    let mut ax: u64 = 0;
    while ax < a
        invariant
            ax <= a,
            a == aac,
            1 <= a <= 0xffff,
            base_x == 2 * a * x,
            base_y == 2 * a * y,
            den == 2 * a * short_side,
            base_x <= 2 * 0xffff * 0xffff_ffffu64,
            base_y <= 2 * 0xffff * 0xffff_ffffu64,
            r@.len() == ax * a,
            forall|i: int, j: int| 0 <= i < ax && 0 <= j < a
                ==> #[trigger] r@[i * a + j] == grid_sample(x as int, y as int, i, j, a as int, short_side as int),
        decreases a - ax,
    {
        let mut ay: u64 = 0;
        while ay < a
            invariant
                ax < a,
                ay <= a,
                a == aac,
                1 <= a <= 0xffff,
                base_x == 2 * a * x,
                base_y == 2 * a * y,
                den == 2 * a * short_side,
                base_x <= 2 * 0xffff * 0xffff_ffffu64,
                base_y <= 2 * 0xffff * 0xffff_ffffu64,
                r@.len() == ax * a + ay,
                forall|i: int, j: int| 0 <= i < ax && 0 <= j < a
                    ==> #[trigger] r@[i * a + j] == grid_sample(x as int, y as int, i, j, a as int, short_side as int),
                forall|j: int| 0 <= j < ay
                    ==> #[trigger] r@[ax * a + j] == grid_sample(x as int, y as int, ax as int, j, a as int, short_side as int),
            decreases a - ay,
        {
            let ghost before = r@;
            r.push(Sample { x_num: base_x + 2 * ax + 1, y_num: base_y + 2 * ay + 1, den });
            proof {
                assert forall|i: int, j: int| 0 <= i < ax && 0 <= j < a
                    implies #[trigger] r@[i * a + j] == grid_sample(x as int, y as int, i, j, a as int, short_side as int) by {
                    assert(i * a + j < ax * a) by (nonlinear_arith)
                        requires
                            0 <= i < ax,
                            0 <= j < a,
                    ;
                    assert(r@[i * a + j] == before[i * a + j]);
                }
                assert forall|j: int| 0 <= j < ay + 1
                    implies #[trigger] r@[ax * a + j] == grid_sample(x as int, y as int, ax as int, j, a as int, short_side as int) by {
                    if j < ay {
                        assert(r@[ax * a + j] == before[ax * a + j]);
                    }
                }
            }
            ay = ay + 1;
        }
        proof {
            assert((ax + 1) * a == ax * a + a) by (nonlinear_arith);
            assert forall|i: int, j: int| 0 <= i < ax + 1 && 0 <= j < a
                implies #[trigger] r@[i * a + j] == grid_sample(x as int, y as int, i, j, a as int, short_side as int) by {
                if i == ax {
                }
            }
        }
        ax = ax + 1;
    }
    r
}

/// The colour that a list of results gives the pixel `(x, y)`: that of the
/// last result for the pixel, or `fill` where there is none.
pub open spec fn cell_of<C>(results: Seq<PixResult<C>>, x: usize, y: usize, fill: C) -> C
    decreases results.len(),
{
    if results.len() == 0 {
        fill
    } else if results.last().0 == x && results.last().1 == y {
        results.last().2
    } else {
        cell_of(results.drop_last(), x, y, fill)
    }
}

/// No two results are for the same pixel.
pub open spec fn distinct_pixels<C>(results: Seq<PixResult<C>>) -> bool {
    forall|i: int, j: int|
        0 <= i < results.len() && 0 <= j < results.len() && i != j
        ==> !((#[trigger] results[i]).0 == (#[trigger] results[j]).0 && results[i].1 == results[j].1)
}

proof fn lemma_index_unique(x1: int, y1: int, x2: int, y2: int, w: int)
    requires
        0 <= x1 < w,
        0 <= x2 < w,
        0 <= y1,
        0 <= y2,
        y1 * w + x1 == y2 * w + x2,
    ensures
        x1 == x2 && y1 == y2,
{
    if y1 < y2 {
        assert(y1 * w + w <= y2 * w) by (nonlinear_arith)
            requires
                y1 < y2,
                w > 0,
        ;
    } else if y2 < y1 {
        assert(y2 * w + w <= y1 * w) by (nonlinear_arith)
            requires
                y2 < y1,
                w > 0,
        ;
    }
}

proof fn lemma_index_bound(x: int, y: int, w: int, h: int)
    requires
        0 <= x < w,
        0 <= y < h,
    ensures
        0 <= y * w + x < w * h,
{
    assert(0 <= y * w + x < w * h) by (nonlinear_arith)
        requires
            0 <= x < w,
            0 <= y < h,
    ;
}

/// Where the results are for distinct pixels, each pixel takes the colour of
/// the one result for it, if there is one, and `fill` otherwise.
pub proof fn lemma_cell_of_unique<C>(results: Seq<PixResult<C>>, x: usize, y: usize, fill: C)
    requires
        distinct_pixels(results),
    ensures
        forall|k: int| 0 <= k < results.len() && (#[trigger] results[k]).0 == x && results[k].1 == y
            ==> cell_of(results, x, y, fill) == results[k].2,
        (forall|k: int| 0 <= k < results.len() ==> !((#[trigger] results[k]).0 == x && results[k].1 == y))
            ==> cell_of(results, x, y, fill) == fill,
    decreases results.len(),
{
    if results.len() > 0 {
        let front = results.drop_last();
        assert forall|i: int, j: int|
            0 <= i < front.len() && 0 <= j < front.len() && i != j
            implies !((#[trigger] front[i]).0 == (#[trigger] front[j]).0 && front[i].1 == front[j].1) by {
            assert(front[i] == results[i]);
            assert(front[j] == results[j]);
        }
        lemma_cell_of_unique(front, x, y, fill);
        assert forall|k: int| 0 <= k < results.len() && (#[trigger] results[k]).0 == x && results[k].1 == y
            implies cell_of(results, x, y, fill) == results[k].2 by {
            if k < results.len() - 1 {
                assert(front[k] == results[k]);
            }
        }
        if forall|k: int| 0 <= k < results.len() ==> !((#[trigger] results[k]).0 == x && results[k].1 == y) {
            assert forall|k: int| 0 <= k < front.len() implies !((#[trigger] front[k]).0 == x && front[k].1 == y) by {
                assert(front[k] == results[k]);
            }
            assert(!(results[results.len() - 1].0 == x && results[results.len() - 1].1 == y));
        }
    }
}

/// The order in which results arrive does not change the image: two lists
/// that hold the same results, each with no two for one pixel, give every
/// pixel the same colour.
pub proof fn lemma_arrival_order_irrelevant<C>(
    first: Seq<PixResult<C>>,
    second: Seq<PixResult<C>>,
    x: usize,
    y: usize,
    fill: C,
)
    requires
        distinct_pixels(first),
        distinct_pixels(second),
        forall|e: PixResult<C>| first.contains(e) <==> second.contains(e),
    ensures
        cell_of(first, x, y, fill) == cell_of(second, x, y, fill),
{
    lemma_cell_of_unique(first, x, y, fill);
    lemma_cell_of_unique(second, x, y, fill);
    if exists|k: int| 0 <= k < first.len() && (#[trigger] first[k]).0 == x && first[k].1 == y {
        let k = choose|k: int| 0 <= k < first.len() && (#[trigger] first[k]).0 == x && first[k].1 == y;
        assert(first.contains(first[k]));
        assert(second.contains(first[k]));
        let j = choose|j: int| 0 <= j < second.len() && second[j] == first[k];
        assert(second[j].0 == x && second[j].1 == y);
    } else if exists|k: int| 0 <= k < second.len() && (#[trigger] second[k]).0 == x && second[k].1 == y {
        let k = choose|k: int| 0 <= k < second.len() && (#[trigger] second[k]).0 == x && second[k].1 == y;
        assert(second.contains(second[k]));
        assert(first.contains(second[k]));
        let j = choose|j: int| 0 <= j < first.len() && first[j] == second[k];
        assert(first[j].0 == x && first[j].1 == y);
    }
}

impl<C: Copy> Framebuffer<C> {
    /// The colour of pixel `(x, y)`.
    pub open spec fn pixel(self, x: int, y: int) -> C {
        self.cells@[y * self.width + x]
    }

    /// Places each result at the pixel that it carries, over an image filled
    /// with `fill`; the result that comes last for a pixel wins.
    pub fn assemble(width: usize, height: usize, fill: C, results: &Vec<PixResult<C>>) -> (r: Framebuffer<C>)
        requires
            width * height <= usize::MAX,
            forall|k: int| 0 <= k < results@.len() ==> (#[trigger] results@[k]).0 < width && results@[k].1 < height,
        ensures
            r.width == width,
            r.height == height,
            r.cells@.len() == width * height,
            forall|x: int, y: int| 0 <= x < width && 0 <= y < height
                ==> #[trigger] r.pixel(x, y) == cell_of(results@, x as usize, y as usize, fill),
    {
        let n: usize = width * height;
        let mut cells: Vec<C> = Vec::new();
        let mut i: usize = 0;
        while i < n
            invariant
                i <= n,
                n == width * height,
                cells@.len() == i,
                forall|j: int| 0 <= j < i ==> cells@[j] == fill,
            decreases n - i,
        {
            cells.push(fill);
            i = i + 1;
        }
        proof {
            assert forall|x: int, y: int| 0 <= x < width && 0 <= y < height
                implies #[trigger] cells@[y * width + x] == cell_of(results@.subrange(0, 0), x as usize, y as usize, fill) by {
                lemma_index_bound(x, y, width as int, height as int);
            }
        }
        let mut k: usize = 0;
        while k < results.len()
            invariant
                k <= results@.len(),
                n == width * height,
                cells@.len() == n,
                forall|m: int| 0 <= m < results@.len() ==> (#[trigger] results@[m]).0 < width && results@[m].1 < height,
                forall|x: int, y: int| 0 <= x < width && 0 <= y < height
                    ==> #[trigger] cells@[y * width + x] == cell_of(results@.subrange(0, k as int), x as usize, y as usize, fill),
            decreases results@.len() - k,
        {
            let (x, y, c) = results[k];
            proof {
                lemma_index_bound(x as int, y as int, width as int, height as int);
            }
            let idx: usize = y * width + x;
            let ghost before = cells@;
            cells.set(idx, c);
            proof {
                let done = results@.subrange(0, k + 1);
                assert(done.drop_last() =~= results@.subrange(0, k as int));
                assert(done.last() == results@[k as int]);
                assert forall|px: int, py: int| 0 <= px < width && 0 <= py < height
                    implies #[trigger] cells@[py * width + px] == cell_of(done, px as usize, py as usize, fill) by {
                    lemma_index_bound(px, py, width as int, height as int);
                    if px == x && py == y {
                    } else {
                        if py * width + px == idx {
                            lemma_index_unique(px, py, x as int, y as int, width as int);
                        }
                        assert(cells@[py * width + px] == before[py * width + px]);
                    }
                }
            }
            k = k + 1;
        }
        proof {
            assert(results@.subrange(0, k as int) =~= results@);
        }
        Framebuffer { width, height, cells }
    }
}

} // verus!
