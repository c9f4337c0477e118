//! The tray icon: read from a picture file and trimmed to what can be seen of it.
use crate::picture::Picture;
use vstd::prelude::*;

verus! {

/// An opacity above this makes a pixel visible.
pub const VISIBLE_OPACITY: u8 = 10;

/// The width and height of the fallback icon.
pub const FALLBACK_SIZE: u32 = 16;

/// A rectangle of pixels, bounds included.
#[derive(Debug, PartialEq, Eq, Structural, Clone, Copy)]
pub struct Bounds {
    pub min_x: u32,
    pub max_x: u32,
    pub min_y: u32,
    pub max_y: u32,
}

/// The place of a byte of the pixel at `x` and `y` in a picture of the given width.
pub open spec fn offset(width: int, x: int, y: int, c: int) -> int {
    (y * width + x) * 4 + c
}

impl Picture {
    /// There is a pixel at `x` and `y`, and it can be seen.
    pub open spec fn visible(self, x: int, y: int) -> bool {
        &&& 0 <= x < self.width
        &&& 0 <= y < self.height
        &&& self.data@[offset(self.width as int, x, y, 3)] > VISIBLE_OPACITY
    }

    /// The rectangle lies in the picture.
    pub open spec fn has_area(self, b: Bounds) -> bool {
        &&& b.min_x <= b.max_x < self.width
        &&& b.min_y <= b.max_y < self.height
    }

    /// The smallest rectangle around all visible pixels.
    pub open spec fn visible_bounds(self, b: Bounds) -> bool {
        &&& self.has_area(b)
        &&& forall|x: int, y: int| #[trigger]
            self.visible(x, y) ==> b.min_x <= x <= b.max_x && b.min_y <= y <= b.max_y
        &&& exists|y: int| #[trigger] self.visible(b.min_x as int, y)
        &&& exists|y: int| #[trigger] self.visible(b.max_x as int, y)
        &&& exists|x: int| #[trigger] self.visible(x, b.min_y as int)
        &&& exists|x: int| #[trigger] self.visible(x, b.max_y as int)
    }

    /// This picture is the part of `from` inside `b`.
    pub open spec fn is_part(self, from: Picture, b: Bounds) -> bool {
        &&& self.wf()
        &&& self.width == b.max_x - b.min_x + 1
        &&& self.height == b.max_y - b.min_y + 1
        &&& forall|x: int, y: int, c: int|
            0 <= x < self.width && 0 <= y < self.height && 0 <= c < 4 ==> self.data@[
                #[trigger] offset(self.width as int, x, y, c)
            ] == from.data@[offset(from.width as int, x + b.min_x, y + b.min_y, c)]
    }
}

proof fn lemma_offset(width: int, height: int, x: int, y: int, c: int)
    requires
        0 <= x < width,
        0 <= y < height,
        0 <= c < 4,
    ensures
        0 <= offset(width, x, y, c) < width * height * 4,
        offset(width, x, y, c) == offset(width, 0, y, 0) + x * 4 + c,
        offset(width, 0, y, 0) == y * width * 4,
{
    assert(0 <= y * width && y * width + width <= width * height) by (nonlinear_arith)
        requires
            0 <= x < width,
            0 <= y < height,
    ;
    assert((y * width + x) * 4 + c == y * width * 4 + x * 4 + c) by (nonlinear_arith);
}

/// A pixel can be seen exactly if its fourth byte is above 10; pixels have four bytes and come row
/// by row.
pub proof fn opacity_above_ten_is_visible(p: Picture, x: int, y: int)
    ensures
        0 <= x < p.width && 0 <= y < p.height ==> p.visible(x, y) == (p.data@[4 * (p.width * y + x)
            + 3] > 10),
        !(0 <= x < p.width && 0 <= y < p.height) ==> !p.visible(x, y),
{
    assert((y * p.width + x) * 4 + 3 == 4 * (p.width * y + x) + 3) by (nonlinear_arith);
}

/// A part of a picture has the pixels of the picture, moved by the left and the top edge of the
/// part.
pub proof fn parts_keep_their_pixels(r: Picture, p: Picture, b: Bounds, x: int, y: int, c: int)
    requires
        r.is_part(p, b),
        0 <= x,
        0 <= y,
        0 <= c < 4,
        x <= b.max_x - b.min_x,
        y <= b.max_y - b.min_y,
    ensures
        r.width == b.max_x - b.min_x + 1,
        r.height == b.max_y - b.min_y + 1,
        r.data@.len() == 4 * (r.width * r.height),
        r.data@[4 * (r.width * y + x) + c] == p.data@[4 * (p.width * (b.min_y + y) + b.min_x + x)
            + c],
{
    assert(r.width * r.height * 4 == 4 * (r.width * r.height)) by (nonlinear_arith);
    assert(offset(r.width as int, x, y, c) == 4 * (r.width * y + x) + c) by (nonlinear_arith)
        requires
            offset(r.width as int, x, y, c) == (y * r.width + x) * 4 + c,
    ;
    assert(offset(p.width as int, x + b.min_x, y + b.min_y, c) == 4 * (p.width * (b.min_y + y)
        + b.min_x + x) + c) by (nonlinear_arith)
        requires
            offset(p.width as int, x + b.min_x, y + b.min_y, c) == ((y + b.min_y) * p.width + (x
                + b.min_x)) * 4 + c,
    ;
}

/// The bounds hold every visible pixel, and a visible pixel stands at each edge of them.
pub proof fn bounds_touch_visible_pixels(p: Picture, b: Bounds, x: int, y: int)
    requires
        p.visible_bounds(b),
    ensures
        p.visible(x, y) ==> b.min_x <= x <= b.max_x && b.min_y <= y <= b.max_y,
        b.max_x < p.width && b.max_y < p.height,
        exists|v: int| #[trigger] p.visible(b.min_x as int, v),
        exists|v: int| #[trigger] p.visible(b.max_x as int, v),
        exists|u: int| #[trigger] p.visible(u, b.min_y as int),
        exists|u: int| #[trigger] p.visible(u, b.max_y as int),
{
}

/// `found` is the smallest rectangle around the visible pixels above row `y`, and around those
/// left of `x` in that row.
spec fn bounds_so_far(p: Picture, found: Option<Bounds>, x: int, y: int) -> bool {
    match found {
        Some(b) => {
            &&& p.has_area(b)
            &&& forall|u: int, v: int| #[trigger]
                p.visible(u, v) && (v < y || (v == y && u < x)) ==> b.min_x <= u <= b.max_x
                    && b.min_y <= v <= b.max_y
            &&& exists|v: int| #[trigger] p.visible(b.min_x as int, v)
            &&& exists|v: int| #[trigger] p.visible(b.max_x as int, v)
            &&& exists|u: int| #[trigger] p.visible(u, b.min_y as int)
            &&& exists|u: int| #[trigger] p.visible(u, b.max_y as int)
        },
        None => forall|u: int, v: int| #[trigger] p.visible(u, v) ==> v > y || (v == y && u >= x),
    }
}

/// The smallest rectangle around `found` and one more pixel.
fn widen(found: Option<Bounds>, x: u32, y: u32) -> (r: Bounds)
    ensures
        match found {
            Some(b) => {
                &&& r.min_x == (if x < b.min_x { x } else { b.min_x })
                &&& r.max_x == (if x > b.max_x { x } else { b.max_x })
                &&& r.min_y == (if y < b.min_y { y } else { b.min_y })
                &&& r.max_y == (if y > b.max_y { y } else { b.max_y })
            },
            None => r == (Bounds { min_x: x, max_x: x, min_y: y, max_y: y }),
        },
{
    match found {
        None => Bounds { min_x: x, max_x: x, min_y: y, max_y: y },
        Some(b) => {
            let mut r: Bounds = b;
            if x < r.min_x {
                r.min_x = x;
            }
            if x > r.max_x {
                r.max_x = x;
            }
            if y < r.min_y {
                r.min_y = y;
            }
            if y > r.max_y {
                r.max_y = y;
            }
            r
        },
    }
}

/// Finds the smallest rectangle around all visible pixels, if there is one.
pub fn find_bounds(p: &Picture) -> (r: Option<Bounds>)
    requires
        p.wf(),
    ensures
        match r {
            Some(b) => p.visible_bounds(b),
            None => forall|x: int, y: int| !#[trigger] p.visible(x, y),
        },
{
    let mut found: Option<Bounds> = None;
    let mut y: u32 = 0;
    let mut at: usize = 0;
    while y < p.height
        invariant
            p.wf(),
            0 <= y <= p.height,
            at == y * p.width * 4,
            bounds_so_far(*p, found, 0, y as int),
        decreases p.height - y,
    {
        let mut x: u32 = 0;
        while x < p.width
            invariant
                p.wf(),
                0 <= x <= p.width,
                0 <= y < p.height,
                at == y * p.width * 4 + x * 4,
                bounds_so_far(*p, found, x as int, y as int),
            decreases p.width - x,
        {
            proof {
                lemma_offset(p.width as int, p.height as int, x as int, y as int, 3);
            }
            let seen: bool = p.data[at + 3] > VISIBLE_OPACITY;
            assert(seen == p.visible(x as int, y as int));
            assert(at + 4 <= p.data.len());
            if seen {
                let ghost before = found;
                let wide: Bounds = widen(found, x, y);
                found = Some(wide);
                assert(p.has_area(wide));
                assert forall|u: int, v: int| #[trigger]
                    p.visible(u, v) && (v < y || (v == y && u < x + 1)) implies wide.min_x <= u
                    <= wide.max_x && wide.min_y <= v <= wide.max_y by {
                    if !(u == x && v == y) {
                        assert(v < y || (v == y && u < x));
                        assert(before is Some);
                    }
                }
                assert(bounds_so_far(*p, found, x + 1, y as int)) by {
                    assert(p.visible(x as int, y as int));
                    if before is Some {
                        let b = before->0;
                        let v0 = choose|v: int| #[trigger] p.visible(b.min_x as int, v);
                        let v1 = choose|v: int| #[trigger] p.visible(b.max_x as int, v);
                        let u0 = choose|u: int| #[trigger] p.visible(u, b.min_y as int);
                        let u1 = choose|u: int| #[trigger] p.visible(u, b.max_y as int);
                        assert(p.visible(b.min_x as int, v0));
                        assert(p.visible(b.max_x as int, v1));
                        assert(p.visible(u0, b.min_y as int));
                        assert(p.visible(u1, b.max_y as int));
                        assert(p.visible(
                            wide.min_x as int,
                            if wide.min_x == x {
                                y as int
                            } else {
                                v0
                            },
                        ));
                        assert(p.visible(
                            wide.max_x as int,
                            if wide.max_x == x {
                                y as int
                            } else {
                                v1
                            },
                        ));
                        assert(p.visible(
                            if wide.min_y == y {
                                x as int
                            } else {
                                u0
                            },
                            wide.min_y as int,
                        ));
                        assert(p.visible(
                            if wide.max_y == y {
                                x as int
                            } else {
                                u1
                            },
                            wide.max_y as int,
                        ));
                    }
                }
            }
            at = at + 4;
            x = x + 1;
        }
        assert(at == (y + 1) * p.width * 4) by (nonlinear_arith)
            requires
                at == y * p.width * 4 + x * 4,
                x == p.width,
        ;
        y = y + 1;
    }
    found
}

/// Cuts the rectangle out of a picture.
pub fn crop(p: &Picture, b: Bounds) -> (r: Picture)
    requires
        p.wf(),
        p.has_area(b),
    ensures
        r.is_part(*p, b),
{
    let w: u32 = b.max_x - b.min_x + 1;
    let h: u32 = b.max_y - b.min_y + 1;
    let mut data: Vec<u8> = Vec::new();
    let mut y: u32 = 0;
    while y < h
        invariant
            p.wf(),
            p.has_area(b),
            w == b.max_x - b.min_x + 1,
            h == b.max_y - b.min_y + 1,
            0 <= y <= h,
            data@.len() == y * w * 4,
            forall|u: int, v: int, c: int|
                0 <= u < w && 0 <= v < y && 0 <= c < 4 ==> data@[#[trigger] offset(w as int, u, v, c)]
                    == p.data@[offset(p.width as int, u + b.min_x, v + b.min_y, c)],
        decreases h - y,
    {
        let mut x: u32 = 0;
        while x < w
            invariant
                p.wf(),
                p.has_area(b),
                w == b.max_x - b.min_x + 1,
                h == b.max_y - b.min_y + 1,
                0 <= x <= w,
                0 <= y < h,
                data@.len() == y * w * 4 + x * 4,
                forall|u: int, v: int, c: int|
                    0 <= u < w && 0 <= v && (v < y || (v == y && u < x)) && 0 <= c < 4
                        ==> data@[#[trigger] offset(w as int, u, v, c)] == p.data@[offset(
                        p.width as int,
                        u + b.min_x,
                        v + b.min_y,
                        c,
                    )],
            decreases w - x,
        {
            let ghost before = data@;
            proof {
                lemma_offset(
                    p.width as int,
                    p.height as int,
                    x + b.min_x,
                    y + b.min_y,
                    3,
                );
                lemma_offset(
                    p.width as int,
                    p.height as int,
                    x + b.min_x,
                    y + b.min_y,
                    0,
                );
                assert(p.data@.len() == p.data.len());
                assert((y + b.min_y) * p.width <= (y + b.min_y) * p.width * 4);
            }
            let at: usize = ((y as usize + b.min_y as usize) * p.width as usize + (x as usize
                + b.min_x as usize)) * 4;
            assert(at == offset(p.width as int, x + b.min_x, y + b.min_y, 0));
            data.push(p.data[at]);
            data.push(p.data[at + 1]);
            data.push(p.data[at + 2]);
            data.push(p.data[at + 3]);
            proof {
                assert forall|u: int, v: int, c: int|
                    0 <= u < w && 0 <= v && (v < y || (v == y && u < x + 1)) && 0 <= c
                        < 4 implies data@[#[trigger] offset(w as int, u, v, c)] == p.data@[offset(
                    p.width as int,
                    u + b.min_x,
                    v + b.min_y,
                    c,
                )] by {
                    lemma_offset(w as int, h as int, u, v, c);
                    if v < y {
                        lemma_offset(w as int, y as int, u, v, c);
                        assert(w * y == y * w) by (nonlinear_arith);
                        assert(data@[offset(w as int, u, v, c)] == before[offset(
                            w as int,
                            u,
                            v,
                            c,
                        )]);
                    } else if u < x {
                        assert(data@[offset(w as int, u, v, c)] == before[offset(
                            w as int,
                            u,
                            v,
                            c,
                        )]);
                    } else {
                        assert(offset(w as int, u, v, c) == before.len() + c);
                    }
                }
            }
            x = x + 1;
        }
        assert(data@.len() == (y + 1) * w * 4) by (nonlinear_arith)
            requires
                data@.len() == y * w * 4 + x * 4,
                x == w,
        ;
        y = y + 1;
    }
    assert(y * w * 4 == w * h * 4) by (nonlinear_arith)
        requires
            y == h,
    ;
    Picture { width: w, height: h, data }
}

/// Trims a picture to the smallest rectangle around its visible pixels; one without any visible
/// pixel stays as it is.
pub fn trim_transparency(p: Picture) -> (r: Picture)
    requires
        p.wf(),
    ensures
        r.wf(),
        (exists|b: Bounds| #[trigger] p.visible_bounds(b) && r.is_part(p, b)) || (r == p && forall|
            x: int,
            y: int,
        | !#[trigger] p.visible(x, y)),
{
    match find_bounds(&p) {
        Some(b) => crop(&p, b),
        None => p,
    }
}

/// Trimming hides nothing: each visible pixel of the picture is, moved, a visible pixel of the
/// part inside its bounds, and the other way round.
pub proof fn trimming_keeps_visible_pixels(p: Picture, b: Bounds, r: Picture, x: int, y: int)
    requires
        p.wf(),
        p.visible_bounds(b),
        r.is_part(p, b),
    ensures
        p.visible(x, y) <==> r.visible(x - b.min_x, y - b.min_y),
{
    if r.visible(x - b.min_x, y - b.min_y) || p.visible(x, y) {
        assert(r.data@[offset(r.width as int, x - b.min_x, y - b.min_y, 3)] == p.data@[offset(
            p.width as int,
            x,
            y,
            3,
        )]);
    }
}

/// What is left after trimming is tight: visible pixels touch all four edges, so that trimming
/// again cuts off nothing.
pub proof fn trimmed_picture_is_tight(p: Picture, b: Bounds, r: Picture)
    requires
        p.wf(),
        p.visible_bounds(b),
        r.is_part(p, b),
    ensures
        r.visible_bounds(
            Bounds {
                min_x: 0,
                max_x: (b.max_x - b.min_x) as u32,
                min_y: 0,
                max_y: (b.max_y - b.min_y) as u32,
            },
        ),
{
    let v0 = choose|v: int| #[trigger] p.visible(b.min_x as int, v);
    let v1 = choose|v: int| #[trigger] p.visible(b.max_x as int, v);
    let u0 = choose|u: int| #[trigger] p.visible(u, b.min_y as int);
    let u1 = choose|u: int| #[trigger] p.visible(u, b.max_y as int);
    trimming_keeps_visible_pixels(p, b, r, b.min_x as int, v0);
    trimming_keeps_visible_pixels(p, b, r, b.max_x as int, v1);
    trimming_keeps_visible_pixels(p, b, r, u0, b.min_y as int);
    trimming_keeps_visible_pixels(p, b, r, u1, b.max_y as int);
    let all = Bounds {
        min_x: 0,
        max_x: (b.max_x - b.min_x) as u32,
        min_y: 0,
        max_y: (b.max_y - b.min_y) as u32,
    };
    assert(r.visible(all.min_x as int, v0 - b.min_y));
    assert(r.visible(all.max_x as int, v1 - b.min_y));
    assert(r.visible(u0 - b.min_x, all.min_y as int));
    assert(r.visible(u1 - b.min_x, all.max_y as int));
    assert(r.visible_bounds(all));
}

/// A picture has one smallest rectangle around its visible pixels.
pub proof fn visible_bounds_are_unique(p: Picture, a: Bounds, b: Bounds)
    requires
        p.visible_bounds(a),
        p.visible_bounds(b),
    ensures
        a == b,
{
}

/// The picture that `image` decodes from a file: its width, height and bytes, if it can.
pub uninterp spec fn decoded_picture(file: Seq<u8>) -> Option<(u32, u32, Seq<u8>)>;

/// Decodes a picture file with `image::load_from_memory`, and has it as red, green, blue and
/// opacity with `DynamicImage::to_rgba8`, which makes four bytes for each pixel.
#[verifier::external_body]
fn read_picture(file: &[u8]) -> (r: Option<Picture>)
    ensures
        r is Some <==> decoded_picture(file@) is Some,
        r is Some ==> decoded_picture(file@)->0 == (r->0.width, r->0.height, r->0.data@),
        r is Some ==> r->0.wf(),
{
    let rgba = image::load_from_memory(file).ok()?.to_rgba8();
    Some(Picture { width: rgba.width(), height: rgba.height(), data: rgba.into_raw() })
}

/// The fallback icon: a square of one colour.
pub fn fallback_icon() -> (r: Picture)
    ensures
        r.wf(),
        r.width == FALLBACK_SIZE,
        r.height == FALLBACK_SIZE,
        forall|i: int|
            0 <= i < r.data@.len() ==> #[trigger] r.data@[i] == seq![205u8, 132, 255, 255][i % 4],
{
    let mut data: Vec<u8> = Vec::new();
    let mut i: usize = 0;
    while i < 256
        invariant
            0 <= i <= 256,
            data@.len() == i * 4,
            forall|j: int|
                0 <= j < data@.len() ==> #[trigger] data@[j] == seq![205u8, 132, 255, 255][j % 4],
        decreases 256 - i,
    {
        data.push(205);
        data.push(132);
        data.push(255);
        data.push(255);
        i = i + 1;
    }
    Picture { width: FALLBACK_SIZE, height: FALLBACK_SIZE, data }
}

/// The icon made of what was decoded: trimmed, or the fallback if nothing was.
pub fn icon_of(decoded: Option<Picture>) -> (r: Picture)
    requires
        decoded is Some ==> decoded->0.wf(),
    ensures
        is_icon(decoded, r),
{
    match decoded {
        Some(p) => trim_transparency(p),
        None => fallback_icon(),
    }
}

/// `r` is the icon made of what was decoded.
pub open spec fn is_icon(decoded: Option<Picture>, r: Picture) -> bool {
    &&& r.wf()
    &&& match decoded {
        Some(p) => {
            ||| exists|b: Bounds| #[trigger] p.visible_bounds(b) && r.is_part(p, b)
            ||| r == p && forall|x: int, y: int| !#[trigger] p.visible(x, y)
        },
        None => {
            &&& r.width == FALLBACK_SIZE
            &&& r.height == FALLBACK_SIZE
            &&& forall|i: int|
                0 <= i < r.data@.len() ==> #[trigger] r.data@[i] == seq![205u8, 132, 255, 255][i
                    % 4]
        },
    }
}

/// The icon of a picture with a visible pixel is the part inside the bounds of its visible pixels;
/// a picture without one is its own icon; without a picture the icon is 16 by 16 pixels of one
/// colour.
pub proof fn icons_are_trimmed_or_plain(decoded: Option<Picture>, r: Picture, x: int, y: int)
    requires
        is_icon(decoded, r),
    ensures
        decoded is Some && decoded->0.visible(x, y) ==> exists|b: Bounds| #[trigger]
            decoded->0.visible_bounds(b) && r.is_part(decoded->0, b),
        decoded is Some && (forall|u: int, v: int| !#[trigger] decoded->0.visible(u, v)) ==> r
            == decoded->0,
        decoded is None ==> r.width == 16 && r.height == 16 && r.data@.len() == 1024,
        decoded is None ==> forall|i: int|
            0 <= i < 256 ==> {
                &&& #[trigger] r.data@[4 * i] == 205
                &&& r.data@[4 * i + 1] == 132
                &&& r.data@[4 * i + 2] == 255
                &&& r.data@[4 * i + 3] == 255
            },
{
    if decoded is None {
        assert(r.width * r.height * 4 == 1024) by (nonlinear_arith)
            requires
                r.width == 16,
                r.height == 16,
        ;
        assert forall|i: int| 0 <= i < 256 implies {
            &&& #[trigger] r.data@[4 * i] == 205
            &&& r.data@[4 * i + 1] == 132
            &&& r.data@[4 * i + 2] == 255
            &&& r.data@[4 * i + 3] == 255
        } by {
            assert((4 * i) % 4 == 0 && (4 * i + 1) % 4 == 1 && (4 * i + 2) % 4 == 2 && (4 * i + 3)
                % 4 == 3);
        }
    }
    if decoded is Some && (forall|u: int, v: int| !#[trigger] decoded->0.visible(u, v)) {
        let p = decoded->0;
        assert forall|b: Bounds| !#[trigger] p.visible_bounds(b) by {
            if p.visible_bounds(b) {
                let v = choose|v: int| #[trigger] p.visible(b.min_x as int, v);
                assert(p.visible(b.min_x as int, v));
            }
        }
    }
}

/// Makes the tray icon from a picture file.
pub fn load_icon(file: &[u8]) -> (r: Picture)
    ensures
        match decoded_picture(file@) {
            Some((width, height, data)) => exists|p: Picture|
                {
                    &&& p.width == width
                    &&& p.height == height
                    &&& p.data@ == data
                    &&& p.wf()
                    &&& #[trigger] is_icon(Some(p), r)
                },
            None => is_icon(None, r),
        },
{
    let decoded: Option<Picture> = read_picture(file);
    let ghost d = decoded;
    let r: Picture = icon_of(decoded);
    assert(is_icon(d, r));
    r
}

} // verus!
