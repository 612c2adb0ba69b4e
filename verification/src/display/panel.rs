//! The 64×64 picture the panel shows, and how drawing changes it.
//!
//! A [`Panel`] holds one frame. What a drawer paints is described by a [`Layer`]: a colour for
//! each point it paints and nothing for the points it leaves alone. Layers hold colours at full
//! strength; the frame's brightness is applied where a pixel is written, so the whole palette
//! dims uniformly.

use vstd::prelude::*;

verus! {

/// Rows of the panel.
pub const ROWS: usize = 64;

/// Columns of the panel.
pub const COLS: usize = 64;

/// A colour, eight bits per channel.
#[derive(Clone, Copy, Debug, PartialEq, Eq, Structural)]
pub struct Color {
    pub r: u8,
    pub g: u8,
    pub b: u8,
}

/// The colour `0xRRGGBB`; the bits above the lowest 24 are ignored.
#[verifier::allow_in_spec]
pub fn rgb(hex: u32) -> Color
    returns
        (Color { r: (hex / 65_536 % 256) as u8, g: (hex / 256 % 256) as u8, b: (hex % 256) as u8 }),
{
    let r: u8 = (hex / 65_536 % 256) as u8;
    let g: u8 = (hex / 256 % 256) as u8;
    let b: u8 = (hex % 256) as u8;
    Color { r, g, b }
}

/// One frame: a colour for each point, and the brightness percent it is drawn at.
#[derive(Debug)]
pub struct Panel {
    px: Vec<Color>,
    brightness: u32,
}

/// What a drawer paints: at each point a colour, or nothing.
pub type Layer = spec_fn(int, int) -> Option<Color>;

/// Whether `(x, y)` is a point of the panel.
pub open spec fn on_panel(x: int, y: int) -> bool {
    0 <= x < 64 && 0 <= y < 64
}

/// The layer that paints nothing.
pub open spec fn clear() -> Layer {
    |x: int, y: int| None::<Color>
}

/// `bottom` painted first, then `top` over it.
pub open spec fn over(top: Layer, bottom: Layer) -> Layer {
    |x: int, y: int|
        match top(x, y) {
            Some(c) => Some(c),
            None => bottom(x, y),
        }
}

/// The part of `layer` in columns `left..right` of rows `top..bottom`.
pub open spec fn clip(layer: Layer, left: int, top: int, right: int, bottom: int) -> Layer {
    |x: int, y: int|
        if left <= x < right && top <= y < bottom {
            layer(x, y)
        } else {
            None
        }
}

/// The layer of a single point.
pub open spec fn dot(x: int, y: int, c: Color) -> Layer {
    |px: int, py: int|
        if px == x && py == y {
            Some(c)
        } else {
            None
        }
}

/// The layer of a filled rectangle, `w` columns by `h` rows from `(x, y)`.
pub open spec fn block(x: int, y: int, w: int, h: int, c: Color) -> Layer {
    |px: int, py: int|
        if x <= px < x + w && y <= py < y + h {
            Some(c)
        } else {
            None
        }
}

/// The part of `layer` that comes before the point `(x, y)` in reading order.
pub open spec fn before(layer: Layer, x: int, y: int) -> Layer {
    |px: int, py: int|
        if py < y || (py == y && px < x) {
            layer(px, py)
        } else {
            None
        }
}

/// Whether two layers paint the same on the panel.
pub open spec fn same(one: Layer, two: Layer) -> bool {
    forall|x: int, y: int| on_panel(x, y) ==> #[trigger] one(x, y) == two(x, y)
}

/// One channel at `pct` percent.
pub open spec fn scale_channel(ch: u8, pct: u32) -> u8 {
    (ch as int * pct as int / 100) as u8
}

/// A colour at `pct` percent brightness.
pub open spec fn scale_color(c: Color, pct: u32) -> Color {
    Color { r: scale_channel(c.r, pct), g: scale_channel(c.g, pct), b: scale_channel(c.b, pct) }
}

/// What a point shows once `paint` has been put on a point that showed `below`.
pub open spec fn lit(paint: Option<Color>, pct: u32, below: Color) -> Color {
    match paint {
        Some(c) => scale_color(c, pct),
        None => below,
    }
}

/// A colour at full brightness is the palette's own, and at 0 % every colour is black.
pub proof fn lemma_scale_ends(c: Color)
    ensures
        scale_color(c, 100) == c,
        scale_color(c, 0) == (Color { r: 0, g: 0, b: 0 }),
{
}

/// A channel at `pct` percent is that share of it, rounded down: never brighter than at a higher
/// percentage, and a brighter channel stays at least as bright.
pub proof fn lemma_scale_share(a: u8, b: u8, low: u32, high: u32)
    requires
        a <= b,
        low <= high <= 100,
    ensures
        100 * scale_channel(a, low) <= a * low < 100 * scale_channel(a, low) + 100,
        scale_channel(a, low) <= scale_channel(a, high),
        scale_channel(a, low) <= scale_channel(b, low),
{
    assert(0 <= a * low <= a * high <= 25_500 && a * low <= b * low <= 25_500) by (nonlinear_arith)
        requires
            a <= b <= 255,
            low <= high <= 100,
    ;
}

/// The three channels of a colour are the three pairs of digits of its code.
pub proof fn lemma_rgb(r: u8, g: u8, b: u8, high: u8)
    ensures
        rgb((high * 16_777_216 + r * 65_536 + g * 256 + b) as u32) == (Color { r, g, b }),
{
}

/// Scale a full-strength palette colour down to `pct` percent.
pub fn scaled(c: Color, pct: u32) -> (r: Color)
    requires
        pct <= 100,
    ensures
        r == scale_color(c, pct),
{
    assert forall|ch: u8| 0 <= #[trigger] (ch as int * pct as int) / 100 <= 255 by {
        assert(0 <= ch as int * pct as int <= 25_500) by (nonlinear_arith)
            requires
                0 <= pct <= 100,
                0 <= ch <= 255,
        ;
    }
    let r: u8 = (c.r as u32 * pct / 100) as u8;
    let g: u8 = (c.g as u32 * pct / 100) as u8;
    let b: u8 = (c.b as u32 * pct / 100) as u8;
    Color { r, g, b }
}

impl Panel {
    /// The colour at `(x, y)`.
    pub closed spec fn at(self, x: int, y: int) -> Color {
        self.px@[y * 64 + x]
    }

    /// The brightness percent of this frame.
    pub closed spec fn pct(self) -> u32 {
        self.brightness
    }

    /// A frame has a colour for every point, and a brightness of at most 100 percent.
    pub closed spec fn wf(self) -> bool {
        self.px@.len() == 4096 && self.brightness <= 100
    }

    /// `self` is `before` with `layer` painted on it at `pct` percent brightness.
    pub open spec fn drawn(self, before: Panel, pct: u32, layer: Layer) -> bool {
        &&& self.wf()
        &&& self.pct() == pct
        &&& forall|x: int, y: int|
            on_panel(x, y) ==> #[trigger] self.at(x, y) == lit(layer(x, y), pct, before.at(x, y))
    }

    /// `self` is `before` with `layer` painted on it.
    pub open spec fn painted(self, before: Panel, layer: Layer) -> bool {
        self.drawn(before, before.pct(), layer)
    }

    /// An unlit frame at `brightness` percent.
    pub fn new(brightness: u32) -> (r: Panel)
        requires
            brightness <= 100,
        ensures
            r.wf(),
            r.pct() == brightness,
            forall|x: int, y: int|
                on_panel(x, y) ==> #[trigger] r.at(x, y) == (Color { r: 0, g: 0, b: 0 }),
    {
        let mut px: Vec<Color> = Vec::new();
        let mut i: usize = 0;
        while i < 4096
            invariant
                i <= 4096,
                px@.len() == i,
                forall|j: int| 0 <= j < i ==> px@[j] == (Color { r: 0, g: 0, b: 0 }),
            decreases 4096 - i,
        {
            px.push(Color { r: 0, g: 0, b: 0 });
            i = i + 1;
        }
        Panel { px, brightness }
    }

    /// Clear every pixel.
    pub fn erase(&mut self)
        requires
            old(self).wf(),
        ensures
            final(self).wf(),
            final(self).pct() == old(self).pct(),
            forall|x: int, y: int|
                on_panel(x, y) ==> #[trigger] final(self).at(x, y) == (Color { r: 0, g: 0, b: 0 }),
    {
        let blank = Panel::new(self.brightness);
        *self = blank;
    }

    /// Set the brightness percent of what is drawn from now on.
    pub fn set_brightness(&mut self, pct: u32)
        requires
            old(self).wf(),
            pct <= 100,
        ensures
            final(self).drawn(*old(self), pct, clear()),
    {
        self.brightness = pct;
    }

    /// Read the pixel at `(x, y)`.
    pub fn get(&self, x: usize, y: usize) -> (r: Color)
        requires
            self.wf(),
            x < COLS,
            y < ROWS,
        ensures
            r == self.at(x as int, y as int),
    {
        self.px[y * 64 + x]
    }
}

/// Painting one layer and then another is painting the second over the first.
pub proof fn lemma_paint_over(a: Panel, b: Panel, c: Panel, first: Layer, second: Layer)
    requires
        b.painted(a, first),
        c.painted(b, second),
    ensures
        c.painted(a, over(second, first)),
{
    lemma_draw_over(a, b, c, a.pct(), first, second);
}

/// Painting one layer and then another is painting the second over the first, also where the
/// brightness was set before the first.
pub proof fn lemma_draw_over(a: Panel, b: Panel, c: Panel, pct: u32, first: Layer, second: Layer)
    requires
        b.drawn(a, pct, first),
        c.painted(b, second),
    ensures
        c.drawn(a, pct, over(second, first)),
{
    assert forall|x: int, y: int| on_panel(x, y) implies #[trigger] c.at(x, y) == lit(
        over(second, first)(x, y),
        pct,
        a.at(x, y),
    ) by {
        assert(b.at(x, y) == lit(first(x, y), pct, a.at(x, y)));
    }
}

/// Layers that agree on the panel paint the same.
pub proof fn lemma_draw_same(a: Panel, b: Panel, pct: u32, one: Layer, two: Layer)
    requires
        b.drawn(a, pct, one),
        same(one, two),
    ensures
        b.drawn(a, pct, two),
{
    assert forall|x: int, y: int| on_panel(x, y) implies #[trigger] b.at(x, y) == lit(
        two(x, y),
        pct,
        a.at(x, y),
    ) by {
        assert(one(x, y) == two(x, y));
    }
}

/// Layers that agree on the panel paint the same.
pub proof fn lemma_paint_same(a: Panel, b: Panel, one: Layer, two: Layer)
    requires
        b.painted(a, one),
        same(one, two),
    ensures
        b.painted(a, two),
{
    lemma_draw_same(a, b, a.pct(), one, two);
}

/// Painting nothing changes nothing.
pub proof fn lemma_paint_nothing(a: Panel, none: Layer)
    requires
        a.wf(),
        same(none, clear()),
    ensures
        a.painted(a, none),
{
    assert forall|x: int, y: int| on_panel(x, y) implies #[trigger] a.at(x, y) == lit(
        none(x, y),
        a.pct(),
        a.at(x, y),
    ) by {
        assert(none(x, y) == clear()(x, y));
    }
}

/// What is painted over is gone: painting the same layer twice is painting it once.
pub proof fn lemma_over_idempotent(layer: Layer)
    ensures
        same(over(layer, layer), layer),
{
}

/// Set a single pixel, clipped to the panel.
pub fn pset(fb: &mut Panel, x: i32, y: i32, c: Color)
    requires
        old(fb).wf(),
    ensures
        final(fb).painted(*old(fb), dot(x as int, y as int, c)),
{
    if x >= 0 && y >= 0 && x < COLS as i32 && y < ROWS as i32 {
        let lit: Color = scaled(c, fb.brightness);
        let i: usize = y as usize * 64 + x as usize;
        fb.px.set(i, lit);
    }
}

/// Larger of two coordinates.
pub fn max(a: i32, b: i32) -> (r: i32)
    ensures
        r == (if a >= b {
            a
        } else {
            b
        }),
{
    if a >= b {
        a
    } else {
        b
    }
}

/// Smaller of two coordinates.
pub fn min(a: i32, b: i32) -> (r: i32)
    ensures
        r == (if a <= b {
            a
        } else {
            b
        }),
{
    if a <= b {
        a
    } else {
        b
    }
}

/// Fill the columns `left..right` of the rows `top..bottom` in `c`, clipped to the panel.
pub fn fill_span(fb: &mut Panel, left: i32, top: i32, right: i32, bottom: i32, c: Color)
    requires
        old(fb).wf(),
    ensures
        final(fb).painted(
            *old(fb),
            block(left as int, top as int, right - left, bottom - top, c),
        ),
{
    let ghost f0 = *fb;
    let ghost whole = block(left as int, top as int, right - left, bottom - top, c);
    let x0: i32 = max(left, 0);
    let x1: i32 = min(right, COLS as i32);
    let y0: i32 = max(top, 0);
    let y1: i32 = min(bottom, ROWS as i32);
    let mut y: i32 = y0;
    proof {
        lemma_paint_nothing(f0, before(whole, 0, y0 as int));
    }
    while y < y1
        invariant
            f0.wf(),
            x0 == (if left >= 0 {
                left
            } else {
                0
            }),
            x1 == (if right <= 64 {
                right
            } else {
                64
            }),
            0 <= y0 <= y,
            top <= y,
            y1 <= 64,
            y1 <= bottom,
            whole == block(left as int, top as int, right - left, bottom - top, c),
            fb.painted(f0, before(whole, 0, y as int)),
        decreases y1 - y,
    {
        let mut x: i32 = x0;
        proof {
            lemma_paint_same(
                f0,
                *fb,
                before(whole, 0, y as int),
                before(whole, x0 as int, y as int),
            );
        }
        while x < x1
            invariant
                f0.wf(),
                0 <= x0 <= x,
                left <= x0,
                x1 <= 64,
                x1 <= right,
                0 <= y < 64,
                top <= y < bottom,
                whole == block(left as int, top as int, right - left, bottom - top, c),
                fb.painted(f0, before(whole, x as int, y as int)),
            decreases x1 - x,
        {
            let ghost f1 = *fb;
            pset(fb, x, y, c);
            proof {
                lemma_paint_over(
                    f0,
                    f1,
                    *fb,
                    before(whole, x as int, y as int),
                    dot(x as int, y as int, c),
                );
                lemma_paint_same(
                    f0,
                    *fb,
                    over(dot(x as int, y as int, c), before(whole, x as int, y as int)),
                    before(whole, x + 1, y as int),
                );
            }
            x = x + 1;
        }
        proof {
            lemma_paint_same(
                f0,
                *fb,
                before(whole, x as int, y as int),
                before(whole, 0, y + 1),
            );
        }
        y = y + 1;
    }
    proof {
        lemma_paint_same(f0, *fb, before(whole, 0, y as int), whole);
    }
}

/// The layer of a picture of the panel's size, a byte per point row by row: `c` where the byte
/// is not zero.
pub open spec fn stencil(picture: Seq<u8>, c: Color) -> Layer {
    |x: int, y: int|
        if on_panel(x, y) && picture[y * 64 + x] != 0 {
            Some(c)
        } else {
            None
        }
}

/// Paint `c` through `picture`, within the columns `left..right` of the rows `top..bottom`.
pub fn stamp(
    fb: &mut Panel,
    picture: &Vec<u8>,
    left: i32,
    top: i32,
    right: i32,
    bottom: i32,
    c: Color,
)
    requires
        old(fb).wf(),
        picture@.len() == 4096,
    ensures
        final(fb).painted(
            *old(fb),
            clip(
                stencil(picture@, c),
                left as int,
                top as int,
                right as int,
                bottom as int,
            ),
        ),
{
    let ghost f0 = *fb;
    let ghost whole = clip(
        stencil(picture@, c),
        left as int,
        top as int,
        right as int,
        bottom as int,
    );
    proof {
        lemma_paint_nothing(f0, before(whole, 0, 0));
    }
    let mut y: i32 = 0;
    while y < ROWS as i32
        invariant
            f0.wf(),
            0 <= y <= 64,
            picture@.len() == 4096,
            whole == clip(
                stencil(picture@, c),
                left as int,
                top as int,
                right as int,
                bottom as int,
            ),
            fb.painted(f0, before(whole, 0, y as int)),
        decreases 64 - y,
    {
        let mut x: i32 = 0;
        while x < COLS as i32
            invariant
                f0.wf(),
                0 <= x <= 64,
                0 <= y < 64,
                picture@.len() == 4096,
                whole == clip(
                    stencil(picture@, c),
                    left as int,
                    top as int,
                    right as int,
                    bottom as int,
                ),
                fb.painted(f0, before(whole, x as int, y as int)),
            decreases 64 - x,
        {
            let ghost f1 = *fb;
            let i: usize = y as usize * 64 + x as usize;
            if left <= x && x < right && top <= y && y < bottom && picture[i] != 0 {
                pset(fb, x, y, c);
                proof {
                    lemma_paint_over(
                        f0,
                        f1,
                        *fb,
                        before(whole, x as int, y as int),
                        dot(x as int, y as int, c),
                    );
                    lemma_paint_same(
                        f0,
                        *fb,
                        over(dot(x as int, y as int, c), before(whole, x as int, y as int)),
                        before(whole, x + 1, y as int),
                    );
                }
            } else {
                proof {
                    lemma_paint_same(
                        f0,
                        *fb,
                        before(whole, x as int, y as int),
                        before(whole, x + 1, y as int),
                    );
                }
            }
            x = x + 1;
        }
        proof {
            lemma_paint_same(f0, *fb, before(whole, 64, y as int), before(whole, 0, y + 1));
        }
        y = y + 1;
    }
    proof {
        lemma_paint_same(f0, *fb, before(whole, 0, 64), whole);
    }
}

} // verus!
