//! The framebuffer: a row-major store of RGBA pixels with a depth key per
//! pixel, and the single rule by which a write is merged into it.
//!
//! A depth is held as an integer key whose order is the order of depths. Of two
//! writes to one pixel the one with the larger key is nearer to the viewer and
//! wins; on equal keys the pixel keeps what it holds.

use vstd::prelude::*;
use crate::render::color::Color;

verus! {

/// One pixel of the mathematical model of a framebuffer.
pub struct Pixel {
    /// The four colour bytes, in the order red, green, blue, alpha.
    pub rgba: Seq<u8>,
    /// The depth key of the last write that won, if the pixel was written.
    pub depth: Option<i32>,
}

/// The mathematical model of a framebuffer.
pub struct ScreenView {
    pub width: nat,
    pub height: nat,
    /// The pixels in row-major order: pixel `(x, y)` stands at `x + width * y`.
    pub pixels: Seq<Pixel>,
}

/// The pixel that results from offering a colour and a depth key to `pixel`.
pub open spec fn merge(pixel: Pixel, rgba: Seq<u8>, depth: i32) -> Pixel {
    match pixel.depth {
        Some(held) if held >= depth => pixel,
        _ => Pixel { rgba, depth: Some(depth) },
    }
}

/// A pixel that no write has reached.
pub open spec fn blank_pixel() -> Pixel {
    Pixel { rgba: seq![0u8, 0u8, 0u8, 0u8], depth: None }
}

impl ScreenView {
    /// The pixel count matches the dimensions and every pixel has four bytes.
    pub open spec fn wf(self) -> bool {
        &&& self.pixels.len() == self.width * self.height
        &&& forall|i: int| 0 <= i < self.pixels.len() ==> (#[trigger] self.pixels[i]).rgba.len() == 4
    }

    /// A framebuffer of the given dimensions that holds no write.
    pub open spec fn blank(width: nat, height: nat) -> ScreenView {
        ScreenView { width, height, pixels: Seq::new(width * height, |i: int| blank_pixel()) }
    }

    pub open spec fn in_bounds(self, x: int, y: int) -> bool {
        0 <= x < self.width && 0 <= y < self.height
    }

    pub open spec fn index(self, x: int, y: int) -> int {
        x + self.width * y
    }

    /// The framebuffer after a write of `rgba` with key `depth` at `(x, y)`:
    /// the pixel is merged when the position is in bounds, and nothing changes
    /// when it is not.
    pub open spec fn write(self, x: int, y: int, rgba: Seq<u8>, depth: i32) -> ScreenView {
        if self.in_bounds(x, y) {
            ScreenView {
                pixels: self.pixels.update(
                    self.index(x, y),
                    merge(self.pixels[self.index(x, y)], rgba, depth),
                ),
                ..self
            }
        } else {
            self
        }
    }

    /// The colour bytes of all pixels, flattened in order.
    pub open spec fn bytes(self) -> Seq<u8> {
        Seq::new(4 * self.pixels.len(), |k: int| self.pixels[k / 4].rgba[k % 4])
    }
}

/// The message of the error that an out-of-bounds position yields.
pub open spec fn out_of_bounds_message() -> Seq<char> {
    "Trying to draw pixel outside screen buffer"@
}

/// A framebuffer.
pub struct Screen {
    color: Vec<u8>,
    depth: Vec<Option<i32>>,
    width: usize,
    height: usize,
}

impl View for Screen {
    type V = ScreenView;

    closed spec fn view(&self) -> ScreenView {
        ScreenView {
            width: self.width as nat,
            height: self.height as nat,
            pixels: Seq::new(
                self.depth@.len(),
                |i: int| Pixel { rgba: self.color@.subrange(4 * i, 4 * i + 4), depth: self.depth@[i] },
            ),
        }
    }
}

impl Screen {
    #[verifier::type_invariant]
    spec fn inv(self) -> bool {
        &&& self.depth.len() == self.width * self.height
        &&& self.color.len() == 4 * self.depth.len()
    }

    /// A framebuffer of the given dimensions that holds no write.
    pub fn new(width: usize, height: usize) -> (screen: Screen)
        requires
            4 * (width * height) <= usize::MAX,
        ensures
            screen@ == ScreenView::blank(width as nat, height as nat),
    {
        let count: usize = width * height;
        let color: Vec<u8> = vec![0u8; 4 * count];
        let depth: Vec<Option<i32>> = vec![None; count];
        let screen = Screen { color, depth, width, height };
        assert(screen@.pixels =~= ScreenView::blank(width as nat, height as nat).pixels) by {
            assert forall|i: int| 0 <= i < count implies screen@.pixels[i] == blank_pixel() by {
                assert(screen.color@.subrange(4 * i, 4 * i + 4) =~= seq![0u8, 0u8, 0u8, 0u8]);
            }
        }
        screen
    }

    /// Forgets every write: all pixels become blank again.
    pub fn clear(&mut self)
        ensures
            final(self)@ == ScreenView::blank(old(self)@.width, old(self)@.height),
    {
        proof {
            use_type_invariant(&*self);
        }
        let count: usize = self.depth.len();
        self.color = vec![0u8; 4 * count];
        self.depth = vec![None; count];
        assert(self@.pixels =~= ScreenView::blank(self@.width, self@.height).pixels) by {
            assert forall|i: int| 0 <= i < count implies self@.pixels[i] == blank_pixel() by {
                assert(self.color@.subrange(4 * i, 4 * i + 4) =~= seq![0u8, 0u8, 0u8, 0u8]);
            }
        }
    }

    /// The width and the height, in pixels.
    pub fn size(&self) -> (dims: (usize, usize))
        ensures
            dims.0 == self@.width,
            dims.1 == self@.height,
            self@.wf(),
    {
        proof {
            use_type_invariant(self);
        }
        (self.width, self.height)
    }

    /// The place of pixel `(x, y)` in the row-major order, if it is in bounds.
    fn coord_to_index(&self, x: usize, y: usize) -> (r: Result<usize, &'static str>)
        ensures
            self@.wf(),
            match r {
                Ok(index) => self@.in_bounds(x as int, y as int) && index == self@.index(
                    x as int,
                    y as int,
                ) && index < self@.pixels.len(),
                Err(message) => !self@.in_bounds(x as int, y as int) && message@
                    == out_of_bounds_message(),
            },
    {
        proof {
            use_type_invariant(self);
        }
        if x >= self.width || y >= self.height {
            return Err("Trying to draw pixel outside screen buffer");
        }
        proof {
            lemma_index_in_range(x as int, y as int, self.width as int, self.height as int);
        }
        Ok(x + self.width * y)
    }

    /// The colour bytes held at `(x, y)`.
    pub fn get_color(&self, x: usize, y: usize) -> (r: Result<[u8; 4], &'static str>)
        ensures
            self@.wf(),
            match r {
                Ok(rgba) => self@.in_bounds(x as int, y as int) && rgba@ == self@.pixels[self@.index(
                    x as int,
                    y as int,
                )].rgba,
                Err(message) => !self@.in_bounds(x as int, y as int) && message@
                    == out_of_bounds_message(),
            },
    {
        proof {
            use_type_invariant(self);
        }
        match self.coord_to_index(x, y) {
            Ok(index) => {
                let rgba: [u8; 4] = [
                    self.color[4 * index],
                    self.color[4 * index + 1],
                    self.color[4 * index + 2],
                    self.color[4 * index + 3],
                ];
                assert(rgba@ =~= self@.pixels[index as int].rgba);
                Ok(rgba)
            },
            Err(message) => Err(message),
        }
    }

    /// The depth key held at `(x, y)`, or `None` where no write has reached it.
    pub fn get_depth(&self, x: usize, y: usize) -> (r: Result<Option<i32>, &'static str>)
        ensures
            self@.wf(),
            match r {
                Ok(depth) => self@.in_bounds(x as int, y as int) && depth == self@.pixels[self@.index(
                    x as int,
                    y as int,
                )].depth,
                Err(message) => !self@.in_bounds(x as int, y as int) && message@
                    == out_of_bounds_message(),
            },
    {
        proof {
            use_type_invariant(self);
        }
        match self.coord_to_index(x, y) {
            Ok(index) => Ok(self.depth[index]),
            Err(message) => Err(message),
        }
    }

    /// Stores a colour and a depth key at `(x, y)` without any depth test.
    fn put(&mut self, x: usize, y: usize, color: [u8; 4], depth: i32) -> (r: Result<
        (),
        &'static str,
    >)
        ensures
            match r {
                Ok(_) => old(self)@.in_bounds(x as int, y as int) && final(self)@ == (ScreenView {
                    pixels: old(self)@.pixels.update(
                        old(self)@.index(x as int, y as int),
                        Pixel { rgba: color@, depth: Some(depth) },
                    ),
                    ..old(self)@
                }),
                Err(message) => !old(self)@.in_bounds(x as int, y as int) && final(self)@ == old(
                    self,
                )@ && message@ == out_of_bounds_message(),
            },
    {
        proof {
            use_type_invariant(&*self);
        }
        match self.coord_to_index(x, y) {
            Ok(index) => {
                self.color[4 * index] = color[0];
                self.color[4 * index + 1] = color[1];
                self.color[4 * index + 2] = color[2];
                self.color[4 * index + 3] = color[3];
                self.depth[index] = Some(depth);
                proof {
                    let target = old(self)@.pixels.update(
                        index as int,
                        Pixel { rgba: color@, depth: Some(depth) },
                    );
                    assert forall|i: int| 0 <= i < target.len() implies self@.pixels[i]
                        == target[i] by {
                        if i == index {
                            assert(self.color@.subrange(4 * i, 4 * i + 4) =~= color@);
                        } else {
                            assert(self.color@.subrange(4 * i, 4 * i + 4) =~= old(
                                self,
                            ).color@.subrange(4 * i, 4 * i + 4));
                        }
                    }
                    assert(self@.pixels =~= target);
                }
                Ok(())
            },
            Err(message) => Err(message),
        }
    }

    /// Offers a colour and a depth key to the pixel at `(x, y)`.
    ///
    /// The pixel takes both when it is unwritten or when the new key is
    /// strictly larger than the one it holds, and keeps what it holds
    /// otherwise. A position outside the framebuffer changes nothing and is
    /// reported as an error.
    pub fn write(&mut self, x: usize, y: usize, new_color: Color, new_depth: i32) -> (r: Result<
        (),
        &'static str,
    >)
        ensures
            final(self)@ == old(self)@.write(x as int, y as int, new_color.rgba(), new_depth),
            r is Ok <==> old(self)@.in_bounds(x as int, y as int),
            r matches Err(message) ==> message@ == out_of_bounds_message(),
    {
        let held = match self.get_depth(x, y) {
            Ok(held) => held,
            Err(message) => {
                return Err(message);
            },
        };
        let replace: bool = match held {
            Some(held_depth) => held_depth < new_depth,
            None => true,
        };
        if replace {
            let _ = self.put(x, y, new_color.get_rgba(), new_depth);
        } else {
            proof {
                let index = self@.index(x as int, y as int);
                lemma_index_in_range(x as int, y as int, self@.width as int, self@.height as int);
                assert(self@.pixels.update(index, self@.pixels[index]) =~= self@.pixels);
            }
        }
        Ok(())
    }

    /// The colour bytes of the whole framebuffer, four per pixel, row by row.
    pub fn get_slice(&self) -> (bytes: &[u8])
        ensures
            bytes@ == self@.bytes(),
    {
        proof {
            use_type_invariant(self);
            assert(self.color@ =~= self@.bytes());
        }
        self.color.as_slice()
    }
}

/// The larger of two depth keys: the nearer of two depths.
pub open spec fn nearer(a: i32, b: i32) -> i32 {
    if a >= b {
        a
    } else {
        b
    }
}

/// Writing the same colour and depth key to a pixel twice leaves the
/// framebuffer as one such write leaves it.
pub proof fn lemma_write_idempotent(screen: ScreenView, x: int, y: int, rgba: Seq<u8>, depth: i32)
    requires
        screen.wf(),
    ensures
        screen.write(x, y, rgba, depth).write(x, y, rgba, depth) == screen.write(x, y, rgba, depth),
{
    if screen.in_bounds(x, y) {
        lemma_index_in_range(x, y, screen.width as int, screen.height as int);
        let once = screen.write(x, y, rgba, depth);
        assert(once.write(x, y, rgba, depth).pixels =~= once.pixels);
    }
}

/// Two writes to one pixel leave the same framebuffer in either order, unless
/// they tie on the depth key with different colours. On a pixel that was
/// unwritten the write with the larger key is the one that stays.
pub proof fn lemma_write_order(
    screen: ScreenView,
    x: int,
    y: int,
    rgba1: Seq<u8>,
    depth1: i32,
    rgba2: Seq<u8>,
    depth2: i32,
)
    requires
        screen.wf(),
        depth1 != depth2 || rgba1 == rgba2,
    ensures
        screen.write(x, y, rgba1, depth1).write(x, y, rgba2, depth2) == screen.write(
            x,
            y,
            rgba2,
            depth2,
        ).write(x, y, rgba1, depth1),
        screen.in_bounds(x, y) && screen.pixels[screen.index(x, y)].depth is None ==> screen.write(
            x,
            y,
            rgba1,
            depth1,
        ).write(x, y, rgba2, depth2).pixels[screen.index(x, y)] == (Pixel {
            rgba: if depth1 >= depth2 {
                rgba1
            } else {
                rgba2
            },
            depth: Some(nearer(depth1, depth2)),
        }),
{
    if screen.in_bounds(x, y) {
        lemma_index_in_range(x, y, screen.width as int, screen.height as int);
        let first = screen.write(x, y, rgba1, depth1).write(x, y, rgba2, depth2);
        let second = screen.write(x, y, rgba2, depth2).write(x, y, rgba1, depth1);
        assert(first.pixels =~= second.pixels);
    }
}

/// Writes to two different positions leave the same framebuffer in either order.
pub proof fn lemma_write_elsewhere_commutes(
    screen: ScreenView,
    x1: int,
    y1: int,
    rgba1: Seq<u8>,
    depth1: i32,
    x2: int,
    y2: int,
    rgba2: Seq<u8>,
    depth2: i32,
)
    requires
        screen.wf(),
        x1 != x2 || y1 != y2,
    ensures
        screen.write(x1, y1, rgba1, depth1).write(x2, y2, rgba2, depth2) == screen.write(
            x2,
            y2,
            rgba2,
            depth2,
        ).write(x1, y1, rgba1, depth1),
{
    if screen.in_bounds(x1, y1) && screen.in_bounds(x2, y2) {
        lemma_index_in_range(x1, y1, screen.width as int, screen.height as int);
        lemma_index_in_range(x2, y2, screen.width as int, screen.height as int);
        if screen.index(x1, y1) == screen.index(x2, y2) {
            lemma_index_injective(x1, y1, x2, y2, screen.width as int);
        }
        let first = screen.write(x1, y1, rgba1, depth1).write(x2, y2, rgba2, depth2);
        let second = screen.write(x2, y2, rgba2, depth2).write(x1, y1, rgba1, depth1);
        assert(first.pixels =~= second.pixels);
    }
}

/// Two positions of one grid that share a row-major index are the same position.
pub proof fn lemma_index_injective(x1: int, y1: int, x2: int, y2: int, width: int)
    requires
        0 <= x1 < width,
        0 <= x2 < width,
        x1 + width * y1 == x2 + width * y2,
    ensures
        x1 == x2,
        y1 == y2,
{
    if y1 < y2 {
        assert(width * y2 >= width * y1 + width) by (nonlinear_arith)
            requires
                y1 < y2,
                0 < width,
        ;
    } else if y2 < y1 {
        assert(width * y1 >= width * y2 + width) by (nonlinear_arith)
            requires
                y2 < y1,
                0 < width,
        ;
    }
}

/// A position inside a `width` by `height` grid has a row-major index inside it.
pub proof fn lemma_index_in_range(x: int, y: int, width: int, height: int)
    requires
        0 <= x < width,
        0 <= y < height,
    ensures
        0 <= width * y,
        0 <= x + width * y < width * height,
{
    assert(width * y + width <= width * height) by (nonlinear_arith)
        requires
            0 <= y < height,
            0 < width,
    ;
    assert(0 <= width * y) by (nonlinear_arith)
        requires
            0 <= y,
            0 < width,
    ;
}

} // verus!
