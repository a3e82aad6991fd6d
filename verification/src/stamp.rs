//! Point stamps: a filled square of pixels offered to the framebuffer with one
//! colour and one depth key.

use vstd::prelude::*;
use vstd::arithmetic::div_mod::lemma_fundamental_div_mod_converse;
use crate::object::Node;
use crate::render::color::Color;
use crate::render::screen::{merge, Pixel, Screen, ScreenView};

verus! {

/// Whether the stamp of radius `r` around `(x, y)` covers the pixel `(px, py)`:
/// the stamp is the square whose half-width is a tenth of the radius, rounded
/// down.
pub open spec fn covers(x: int, y: int, r: int, px: int, py: int) -> bool {
    &&& x - r / 10 <= px <= x + r / 10
    &&& y - r / 10 <= py <= y + r / 10
}

/// Whether the pixel `(px, py)` comes before `(cx, cy)` when a square is
/// walked column by column.
pub open spec fn walked(px: int, py: int, cx: int, cy: int) -> bool {
    px < cx || (px == cx && py < cy)
}

impl ScreenView {
    /// The framebuffer after the covered pixels that come before `(cx, cy)`
    /// have been offered the colour and the depth key.
    pub open spec fn stamp_upto(
        self,
        x: int,
        y: int,
        r: int,
        rgba: Seq<u8>,
        depth: i32,
        cx: int,
        cy: int,
    ) -> ScreenView {
        ScreenView {
            pixels: Seq::new(
                self.pixels.len(),
                |i: int|
                    if covers(x, y, r, i % (self.width as int), i / (self.width as int)) && walked(
                        i % (self.width as int),
                        i / (self.width as int),
                        cx,
                        cy,
                    ) {
                        merge(self.pixels[i], rgba, depth)
                    } else {
                        self.pixels[i]
                    },
            ),
            ..self
        }
    }

    /// The framebuffer after a stamp of radius `r` around `(x, y)`: every pixel
    /// of the framebuffer that the stamp covers is offered the colour and the
    /// depth key, and every other pixel is left as it is.
    pub open spec fn stamp(self, x: int, y: int, r: int, rgba: Seq<u8>, depth: i32) -> ScreenView {
        ScreenView {
            pixels: Seq::new(
                self.pixels.len(),
                |i: int|
                    if covers(x, y, r, i % (self.width as int), i / (self.width as int)) {
                        merge(self.pixels[i], rgba, depth)
                    } else {
                        self.pixels[i]
                    },
            ),
            ..self
        }
    }
}

/// One point stamp of a batch: where it goes, how large it is, and what it
/// offers to the pixels that it covers.
#[derive(Clone, Copy, Debug, PartialEq, Eq)]
pub struct Stamp {
    pub x: usize,
    pub y: usize,
    pub r: usize,
    pub color: Color,
    pub depth: i32,
}

impl Stamp {
    /// Whether the stamp covers the pixel at the row-major index `i` of a
    /// framebuffer that is `width` pixels wide.
    pub open spec fn touches(self, width: int, i: int) -> bool {
        covers(self.x as int, self.y as int, self.r as int, i % width, i / width)
    }

    /// The pixel that the stamp leaves where it wins.
    pub open spec fn pixel(self) -> Pixel {
        Pixel { rgba: self.color.rgba(), depth: Some(self.depth) }
    }
}

impl ScreenView {
    /// The framebuffer after one stamp of a batch.
    pub open spec fn stamp_one(self, stamp: Stamp) -> ScreenView {
        self.stamp(stamp.x as int, stamp.y as int, stamp.r as int, stamp.color.rgba(), stamp.depth)
    }

    /// The framebuffer after the stamps of a batch, applied in order.
    pub open spec fn stamp_all(self, stamps: Seq<Stamp>) -> ScreenView
        decreases stamps.len(),
    {
        if stamps.len() == 0 {
            self
        } else {
            self.stamp_all(stamps.drop_last()).stamp_one(stamps.last())
        }
    }
}

impl<T> Node<T> {
    /// What the vertex emits once it is projected to the pixel `(x, y)` with
    /// the depth key `depth`: one stamp of its radius and colour, or nothing
    /// if its radius is zero.
    pub fn draw_at(&self, x: usize, y: usize, depth: i32) -> (stamps: Vec<Stamp>)
        ensures
            stamps@ == if self.r == 0 {
                Seq::<Stamp>::empty()
            } else {
                seq![Stamp { x, y, r: self.r, color: self.color, depth }]
            },
    {
        let mut stamps: Vec<Stamp> = Vec::new();
        if self.r == 0 {
            return stamps;
        }
        stamps.push(Stamp { x, y, r: self.r, color: self.color, depth });
        assert(stamps@ =~= seq![Stamp { x, y, r: self.r, color: self.color, depth }]);
        stamps
    }
}

/// The column and the row of a row-major index.
pub proof fn lemma_index_column_row(width: int, height: int, i: int)
    requires
        0 < width,
        0 <= i < width * height,
    ensures
        0 <= i % width < width,
        0 <= i / width < height,
        i == i % width + width * (i / width),
{
    vstd::arithmetic::div_mod::lemma_fundamental_div_mod(i, width);
    vstd::arithmetic::div_mod::lemma_mod_bound(i, width);
    let q = i / width;
    if q < 0 {
        assert(width * q <= -width) by (nonlinear_arith)
            requires
                q < 0,
                0 < width,
        ;
    }
    if q >= height {
        assert(width * q >= width * height) by (nonlinear_arith)
            requires
                q >= height,
                0 < width,
        ;
    }
}

/// Stamps a filled square around `(x, y)` into the framebuffer.
///
/// The half-width of the square is a tenth of `r`, rounded down. Each pixel of
/// the square that lies in the framebuffer is offered `color` and `depth`; the
/// part of the square outside the framebuffer is dropped.
pub fn print_point(x: usize, y: usize, r: usize, screen: &mut Screen, color: Color, depth: i32)
    ensures
        final(screen)@ == old(screen)@.stamp(x as int, y as int, r as int, color.rgba(), depth),
{
    let (width, height) = screen.size();
    let ghost before = screen@;
    let ghost rgba = color.rgba();
    if width == 0 || height == 0 {
        assert(before.stamp(x as int, y as int, r as int, rgba, depth).pixels =~= before.pixels) by {
            assert(before.pixels.len() == 0) by (nonlinear_arith)
                requires
                    before.pixels.len() == before.width * before.height,
                    before.width == 0 || before.height == 0,
            ;
        }
        return ;
    }
    let half: usize = r / 10;
    let x_lo: usize = if x >= half { x - half } else { 0 };
    let y_lo: usize = if y >= half { y - half } else { 0 };
    let x_far: usize = if x > usize::MAX - half { usize::MAX } else { x + half };
    let y_far: usize = if y > usize::MAX - half { usize::MAX } else { y + half };
    let x_hi: usize = if x_far < width - 1 { x_far } else { width - 1 };
    let y_hi: usize = if y_far < height - 1 { y_far } else { height - 1 };

    proof {
        let start = before.stamp_upto(
            x as int,
            y as int,
            r as int,
            rgba,
            depth,
            x_lo as int,
            y_lo as int,
        );
        assert forall|i: int| 0 <= i < before.pixels.len() implies start.pixels[i]
            == before.pixels[i] by {
            lemma_index_column_row(width as int, height as int, i);
        }
        assert(start.pixels =~= before.pixels);
    }

    let mut px: usize = x_lo;
    while px <= x_hi
        invariant
            0 < width == before.width,
            0 < height == before.height,
            before.wf(),
            rgba == color.rgba(),
            half == r / 10,
            x_lo <= px,
            x_hi < width,
            y_hi < height,
            x_lo as int == if x >= half { x - half } else { 0 },
            y_lo as int == if y >= half { y - half } else { 0 },
            x_hi as int == if x + half < width - 1 { x + half } else { width - 1 },
            y_hi as int == if y + half < height - 1 { y + half } else { height - 1 },
            screen@ == before.stamp_upto(
                x as int,
                y as int,
                r as int,
                rgba,
                depth,
                px as int,
                y_lo as int,
            ),
        decreases x_hi + 1 - px,
    {
        let mut py: usize = y_lo;
        while py <= y_hi
            invariant
                0 < width == before.width,
                0 < height == before.height,
                before.wf(),
                rgba == color.rgba(),
                half == r / 10,
                x_lo <= px <= x_hi < width,
                y_lo <= py,
                y_hi < height,
                x_lo as int == if x >= half { x - half } else { 0 },
                y_lo as int == if y >= half { y - half } else { 0 },
                x_hi as int == if x + half < width - 1 { x + half } else { width - 1 },
                y_hi as int == if y + half < height - 1 { y + half } else { height - 1 },
                screen@ == before.stamp_upto(
                    x as int,
                    y as int,
                    r as int,
                    rgba,
                    depth,
                    px as int,
                    py as int,
                ),
            decreases y_hi + 1 - py,
        {
            let ghost current = screen@;
            let _ = screen.write(px, py, color, depth);
            proof {
                let target = before.stamp_upto(
                    x as int,
                    y as int,
                    r as int,
                    rgba,
                    depth,
                    px as int,
                    py + 1,
                );
                let w = width as int;
                let at = px + w * py;
                crate::render::screen::lemma_index_in_range(px as int, py as int, w, height as int);
                assert(w * py == py * w) by (nonlinear_arith);
                lemma_fundamental_div_mod_converse(at, w, py as int, px as int);
                assert forall|i: int| 0 <= i < target.pixels.len() implies screen@.pixels[i]
                    == target.pixels[i] by {
                    lemma_index_column_row(w, height as int, i);
                }
                assert(screen@.pixels =~= target.pixels);
            }
            py = py + 1;
        }
        proof {
            let done = before.stamp_upto(
                x as int,
                y as int,
                r as int,
                rgba,
                depth,
                px as int,
                py as int,
            );
            let next = before.stamp_upto(
                x as int,
                y as int,
                r as int,
                rgba,
                depth,
                px + 1,
                y_lo as int,
            );
            assert forall|i: int| 0 <= i < done.pixels.len() implies done.pixels[i]
                == next.pixels[i] by {
                lemma_index_column_row(width as int, height as int, i);
            }
            assert(done.pixels =~= next.pixels);
        }
        px = px + 1;
    }
    proof {
        let done = before.stamp_upto(x as int, y as int, r as int, rgba, depth, px as int, y_lo as int);
        let whole = before.stamp(x as int, y as int, r as int, rgba, depth);
        assert forall|i: int| 0 <= i < done.pixels.len() implies done.pixels[i]
            == whole.pixels[i] by {
            lemma_index_column_row(width as int, height as int, i);
        }
        assert(done.pixels =~= whole.pixels);
    }
}

/// Stamps a batch of points into the framebuffer, in the order of the batch.
pub fn print_points(screen: &mut Screen, stamps: &Vec<Stamp>)
    ensures
        final(screen)@ == old(screen)@.stamp_all(stamps@),
{
    let ghost before = screen@;
    let mut k: usize = 0;
    while k < stamps.len()
        invariant
            k <= stamps.len(),
            screen@ == before.stamp_all(stamps@.take(k as int)),
        decreases stamps.len() - k,
    {
        let stamp = stamps[k];
        print_point(stamp.x, stamp.y, stamp.r, screen, stamp.color, stamp.depth);
        proof {
            assert(stamps@.take(k + 1).drop_last() =~= stamps@.take(k as int));
        }
        k = k + 1;
    }
    proof {
        assert(stamps@.take(k as int) =~= stamps@);
    }
}

/// Stamping one batch and then another leaves what stamping both as one
/// batch leaves.
pub proof fn lemma_stamp_all_concat(screen: ScreenView, first: Seq<Stamp>, second: Seq<Stamp>)
    ensures
        screen.stamp_all(first + second) == screen.stamp_all(first).stamp_all(second),
    decreases second.len(),
{
    if second.len() == 0 {
        assert(first + second =~= first);
    } else {
        assert((first + second).drop_last() =~= first + second.drop_last());
        assert((first + second).last() == second.last());
        lemma_stamp_all_concat(screen, first, second.drop_last());
    }
}

/// What a batch leaves at one pixel: `after` is what the pixel held `before`,
/// or what a stamp that covers the pixel and beats `before` offers; its depth
/// key is at least that of every stamp that covers the pixel, and at least
/// what the pixel held.
pub open spec fn settled(before: Pixel, after: Pixel, stamps: Seq<Stamp>, width: int, i: int) -> bool {
    &&& after == before || exists|k: int|
        0 <= k < stamps.len() && #[trigger] stamps[k].touches(width, i) && after
            == stamps[k].pixel() && (before.depth matches Some(held) ==> held < stamps[k].depth)
    &&& forall|k: int|
        0 <= k < stamps.len() && #[trigger] stamps[k].touches(width, i) ==> (after.depth matches Some(
            top,
        ) && top >= stamps[k].depth)
    &&& before.depth matches Some(held) ==> (after.depth matches Some(top) && top >= held)
}

/// No two stamps of the batch offer the same depth key with different colours
/// to one pixel of a framebuffer of `count` pixels that is `width` wide.
pub open spec fn tie_free(stamps: Seq<Stamp>, width: int, count: int) -> bool {
    forall|j: int, k: int, i: int|
        0 <= j < stamps.len() && 0 <= k < stamps.len() && 0 <= i < count && #[trigger] stamps[j].touches(
            width,
            i,
        ) && #[trigger] stamps[k].touches(width, i) && stamps[j].depth == stamps[k].depth
            ==> stamps[j].color.rgba() == stamps[k].color.rgba()
}

/// A batch keeps the dimensions of the framebuffer, and settles every pixel.
pub proof fn lemma_stamp_all_settles(screen: ScreenView, stamps: Seq<Stamp>)
    ensures
        screen.stamp_all(stamps).width == screen.width,
        screen.stamp_all(stamps).height == screen.height,
        screen.stamp_all(stamps).pixels.len() == screen.pixels.len(),
        forall|i: int|
            0 <= i < screen.pixels.len() ==> settled(
                screen.pixels[i],
                #[trigger] screen.stamp_all(stamps).pixels[i],
                stamps,
                screen.width as int,
                i,
            ),
    decreases stamps.len(),
{
    if stamps.len() > 0 {
        let front = stamps.drop_last();
        let last = stamps.last();
        let middle = screen.stamp_all(front);
        let after = screen.stamp_all(stamps);
        let width = screen.width as int;
        lemma_stamp_all_settles(screen, front);
        assert forall|i: int| 0 <= i < screen.pixels.len() implies settled(
            screen.pixels[i],
            #[trigger] after.pixels[i],
            stamps,
            width,
            i,
        ) by {
            let before = screen.pixels[i];
            assert(settled(before, middle.pixels[i], front, width, i));
            assert(stamps[stamps.len() - 1] == last);
            assert forall|k: int| 0 <= k < front.len() implies front[k] == stamps[k] by {}
            if last.touches(width, i) {
                assert(after.pixels[i] == merge(middle.pixels[i], last.color.rgba(), last.depth));
            } else {
                assert(after.pixels[i] == middle.pixels[i]);
            }
            if after.pixels[i] != before && after.pixels[i] == middle.pixels[i] {
                let k = choose|k: int|
                    0 <= k < front.len() && #[trigger] front[k].touches(width, i)
                        && middle.pixels[i] == front[k].pixel() && (before.depth matches Some(held)
                        ==> held < front[k].depth);
                assert(stamps[k].touches(width, i));
            }
            assert forall|k: int|
                0 <= k < stamps.len() && #[trigger] stamps[k].touches(width, i) implies (
            after.pixels[i].depth matches Some(top) && top >= stamps[k].depth) by {
                if k < front.len() {
                    assert(front[k].touches(width, i));
                }
            }
        }
    }
}

/// Two batches that hold the same stamps leave the same framebuffer, whatever
/// the order of each, as long as no two stamps tie on the depth key with
/// different colours at a pixel.
pub proof fn lemma_stamp_all_order_independent(
    screen: ScreenView,
    first: Seq<Stamp>,
    second: Seq<Stamp>,
)
    requires
        forall|k: int| 0 <= k < first.len() ==> second.contains(#[trigger] first[k]),
        forall|k: int| 0 <= k < second.len() ==> first.contains(#[trigger] second[k]),
        tie_free(first, screen.width as int, screen.pixels.len() as int),
    ensures
        screen.stamp_all(first) == screen.stamp_all(second),
{
    let one = screen.stamp_all(first);
    let two = screen.stamp_all(second);
    let width = screen.width as int;
    lemma_stamp_all_settles(screen, first);
    lemma_stamp_all_settles(screen, second);
    assert forall|i: int| 0 <= i < screen.pixels.len() implies one.pixels[i] == two.pixels[i] by {
        let before = screen.pixels[i];
        let a = one.pixels[i];
        let b = two.pixels[i];
        assert(settled(before, a, first, width, i));
        assert(settled(before, b, second, width, i));
        if a != before {
            let j = choose|j: int|
                0 <= j < first.len() && #[trigger] first[j].touches(width, i) && a
                    == first[j].pixel() && (before.depth matches Some(held) ==> held
                    < first[j].depth);
            assert(second.contains(first[j]));
            let j2 = choose|j2: int| 0 <= j2 < second.len() && second[j2] == first[j];
            assert(second[j2].touches(width, i));
            if b != before {
                let k = choose|k: int|
                    0 <= k < second.len() && #[trigger] second[k].touches(width, i) && b
                        == second[k].pixel() && (before.depth matches Some(held) ==> held
                        < second[k].depth);
                assert(first.contains(second[k]));
                let k1 = choose|k1: int| 0 <= k1 < first.len() && first[k1] == second[k];
                assert(first[k1].touches(width, i));
                assert(first[j].depth == first[k1].depth);
                assert(first[j].color.rgba() == first[k1].color.rgba());
            }
        } else if b != before {
            let k = choose|k: int|
                0 <= k < second.len() && #[trigger] second[k].touches(width, i) && b
                    == second[k].pixel() && (before.depth matches Some(held) ==> held
                    < second[k].depth);
            assert(first.contains(second[k]));
            let k1 = choose|k1: int| 0 <= k1 < first.len() && first[k1] == second[k];
            assert(first[k1].touches(width, i));
        }
    }
    assert(one.pixels =~= two.pixels);
}

} // verus!
