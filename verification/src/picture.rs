//! Pictures of four bytes a pixel: screen captures and the tray icon.
use vstd::prelude::*;

verus! {

/// A picture: rows from the top, pixels from the left, each as red, green, blue and opacity.
#[derive(Debug)]
pub struct Picture {
    pub width: u32,
    pub height: u32,
    pub data: Vec<u8>,
}

/// The number of bytes of a picture.
pub open spec fn picture_len(width: u32, height: u32) -> int {
    width * height * 4
}

/// A picture without rows or columns has no bytes, and each further row has four for each column.
pub proof fn each_pixel_has_four_bytes(width: u32, height: u32)
    ensures
        picture_len(width, 0) == 0,
        picture_len(0, height) == 0,
        picture_len(1, 1) == 4,
        height < u32::MAX ==> picture_len(width, (height + 1) as u32) == picture_len(width, height)
            + 4 * width,
{
    assert(width * 0 * 4 == 0 && 0 * height * 4 == 0) by (nonlinear_arith);
    assert(width * (height + 1) * 4 == width * height * 4 + 4 * width) by (nonlinear_arith);
}

impl Picture {
    /// There are as many bytes as the pixels need.
    pub open spec fn wf(self) -> bool {
        self.data@.len() == picture_len(self.width, self.height)
    }

    /// A picture made of bytes, if they are enough for its pixels.
    pub fn from_raw(width: u32, height: u32, data: Vec<u8>) -> (r: Option<Picture>)
        ensures
            match r {
                Some(p) => {
                    &&& data@.len() >= picture_len(width, height)
                    &&& p.width == width
                    &&& p.height == height
                    &&& p.data == data
                },
                None => data@.len() < picture_len(width, height),
            },
    {
        assert(0 <= width * height <= 0xffff_ffff * 0xffff_ffff) by (nonlinear_arith)
            requires
                0 <= width <= 0xffff_ffff,
                0 <= height <= 0xffff_ffff,
        ;
        if data.len() as u128 >= width as u128 * height as u128 * 4 {
            Some(Picture { width, height, data })
        } else {
            None
        }
    }
}

/// The bytes with the colours of each whole pixel dimmed to two fifths.
pub open spec fn dimmed(s: Seq<u8>) -> Seq<u8> {
    Seq::new(
        s.len(),
        |i: int|
            if i < s.len() as int / 4 * 4 && i % 4 != 3 {
                (s[i] * 2 / 5) as u8
            } else {
                s[i]
            },
    )
}

/// Each colour of a whole pixel is dimmed to two fifths, rounded down; opacity and what does not
/// make a whole pixel stay.
pub proof fn colours_are_dimmed_to_two_fifths(s: Seq<u8>, p: int, c: int)
    requires
        0 <= p,
        0 <= c < 4,
        4 * p + c < s.len(),
    ensures
        dimmed(s).len() == s.len(),
        4 * p + 3 < s.len() && c < 3 ==> 5 * dimmed(s)[4 * p + c] <= 2 * s[4 * p + c] < 5 * dimmed(
            s,
        )[4 * p + c] + 5,
        c == 3 ==> dimmed(s)[4 * p + c] == s[4 * p + c],
        4 * p + 3 >= s.len() ==> dimmed(s)[4 * p + c] == s[4 * p + c],
{
}

/// Dims the colours of each whole pixel to two fifths; opacity stays.
pub fn darken(pixels: &Vec<u8>) -> (r: Vec<u8>)
    ensures
        r@ == dimmed(pixels@),
{
    let mut r: Vec<u8> = Vec::new();
    let whole: usize = pixels.len() / 4 * 4;
    let mut i: usize = 0;
    while i < pixels.len()
        invariant
            0 <= i <= pixels@.len(),
            whole == pixels@.len() as int / 4 * 4,
            r@ == dimmed(pixels@).take(i as int),
        decreases pixels@.len() - i,
    {
        let b: u8 = if i < whole && i % 4 != 3 {
            (pixels[i] as u16 * 2 / 5) as u8
        } else {
            pixels[i]
        };
        r.push(b);
        assert(dimmed(pixels@).take(i + 1) =~= dimmed(pixels@).take(i as int).push(b));
        i = i + 1;
    }
    assert(dimmed(pixels@).take(i as int) =~= dimmed(pixels@));
    r
}

/// The bytes with red and blue of each whole pixel exchanged and the pixel made opaque.
pub open spec fn recoloured(s: Seq<u8>) -> Seq<u8> {
    Seq::new(
        s.len(),
        |i: int|
            if i >= s.len() as int / 4 * 4 {
                s[i]
            } else if i % 4 == 0 {
                s[i + 2]
            } else if i % 4 == 2 {
                s[i - 2]
            } else if i % 4 == 3 {
                255
            } else {
                s[i]
            },
    )
}

/// Turns pixels of blue, green, red and anything into opaque pixels of red, green and blue.
pub fn bgra_to_rgba(pixels: &Vec<u8>) -> (r: Vec<u8>)
    ensures
        r@ == recoloured(pixels@),
{
    let mut r: Vec<u8> = Vec::new();
    let whole: usize = pixels.len() / 4 * 4;
    let mut i: usize = 0;
    while i < pixels.len()
        invariant
            0 <= i <= pixels.len(),
            whole == pixels.len() as int / 4 * 4,
            r@ == recoloured(pixels@).take(i as int),
        decreases pixels@.len() - i,
    {
        let b: u8 = if i >= whole {
            pixels[i]
        } else if i % 4 == 0 {
            pixels[i + 2]
        } else if i % 4 == 2 {
            pixels[i - 2]
        } else if i % 4 == 3 {
            255
        } else {
            pixels[i]
        };
        r.push(b);
        assert(recoloured(pixels@).take(i + 1) =~= recoloured(pixels@).take(i as int).push(b));
        i = i + 1;
    }
    assert(recoloured(pixels@).take(i as int) =~= recoloured(pixels@));
    r
}

/// In each whole pixel the first and the third byte change places, the second stays and the fourth
/// becomes 255; what does not make a whole pixel stays.
pub proof fn first_and_third_bytes_change_places(s: Seq<u8>, p: int, c: int)
    requires
        0 <= p,
        0 <= c < 4,
        4 * p + c < s.len(),
    ensures
        recoloured(s).len() == s.len(),
        4 * p + 3 < s.len() ==> {
            &&& recoloured(s)[4 * p] == s[4 * p + 2]
            &&& recoloured(s)[4 * p + 1] == s[4 * p + 1]
            &&& recoloured(s)[4 * p + 2] == s[4 * p]
            &&& recoloured(s)[4 * p + 3] == 255
        },
        4 * p + 3 >= s.len() ==> recoloured(s)[4 * p + c] == s[4 * p + c],
{
}

/// Exchanging red and blue twice gives the colours back, on opaque pixels.
pub proof fn recolouring_twice_restores_colours(s: Seq<u8>)
    ensures
        recoloured(s).len() == s.len(),
        forall|i: int|
            0 <= i < s.len() && (i % 4 != 3 || i >= s.len() as int / 4 * 4)
                ==> #[trigger] recoloured(recoloured(s))[i] == s[i],
        forall|i: int|
            0 <= i < s.len() as int / 4 * 4 && i % 4 == 3 ==> #[trigger] recoloured(s)[i] == 255,
{
}

/// The PNG file that `image` writes for a picture, or the text of its error.
pub uninterp spec fn png_file(width: u32, height: u32, data: Seq<u8>) -> Result<
    Seq<u8>,
    Seq<char>,
>;

/// Encodes pixels of red, green, blue and opacity as PNG with `image::write_buffer_with_format`,
/// which asserts that the bytes are as many as the size says.
#[verifier::external_body]
fn write_png(width: u32, height: u32, data: &Vec<u8>) -> (r: Result<Vec<u8>, String>)
    requires
        data@.len() == picture_len(width, height),
    ensures
        r is Ok <==> png_file(width, height, data@) is Ok,
        r is Ok ==> png_file(width, height, data@)->Ok_0 == r->Ok_0@,
        r is Err ==> png_file(width, height, data@)->Err_0 == r->Err_0@,
{
    let mut cursor = std::io::Cursor::new(Vec::new());
    let color = image::ColorType::Rgba8;
    let format = image::ImageFormat::Png;
    image::write_buffer_with_format(&mut cursor, data, width, height, color, format)
        .map_err(|e| e.to_string())?;
    Ok(cursor.into_inner())
}

/// What becomes of the outcome of encoding a capture: its error is named as such.
pub fn encode_outcome(outcome: Result<Vec<u8>, String>) -> (r: Result<Vec<u8>, String>)
    ensures
        match (outcome, r) {
            (Ok(a), Ok(b)) => a == b,
            (Err(e), Err(m)) => m@ == "Encode error: "@ + e@,
            _ => false,
        },
{
    match outcome {
        Ok(png) => Ok(png),
        Err(e) => {
            let mut m: String = "Encode error: ".to_owned();
            m.append(e.as_str());
            Err(m)
        },
    }
}

/// Encodes a capture as PNG.
pub fn encode_png(picture: &Picture) -> (r: Result<Vec<u8>, String>)
    requires
        picture.wf(),
    ensures
        match (png_file(picture.width, picture.height, picture.data@), r) {
            (Ok(png), Ok(b)) => b@ == png,
            (Err(e), Err(m)) => m@ == "Encode error: "@ + e,
            _ => false,
        },
{
    encode_outcome(write_png(picture.width, picture.height, &picture.data))
}

} // verus!
