//! The screen capture overlay: the selection that the mouse drags out, and the picture of it.
use crate::picture::{bgra_to_rgba, picture_len, recoloured, Picture};
use vstd::prelude::*;

verus! {

pub const MY_WM_PAINT: u32 = 0x000F;

pub const MY_WM_ERASEBKGND: u32 = 0x0014;

pub const MY_WM_SETCURSOR: u32 = 0x0020;

pub const MY_WM_KEYDOWN: u32 = 0x0100;

pub const MY_WM_MOUSEMOVE: u32 = 0x0200;

pub const MY_WM_LBUTTONDOWN: u32 = 0x0201;

pub const MY_WM_LBUTTONUP: u32 = 0x0202;

pub const VK_ESCAPE_CODE: usize = 0x1B;

/// A selection must be wider and higher than this.
pub const MIN_SELECTION: i32 = 5;

/// A status message for the user and the time it was set.
pub struct OcrState {
    pub status_message: Option<(String, u128)>,
}

impl Default for OcrState {
    fn default() -> (r: Self)
        ensures
            r.status_message is None,
    {
        OcrState { status_message: None }
    }
}

/// A rectangle: its left and top edge, its width and its height.
#[derive(Debug, PartialEq, Eq, Structural, Clone, Copy)]
pub struct Area {
    pub left: i32,
    pub top: i32,
    pub width: i32,
    pub height: i32,
}

/// What the window procedure is to do.
#[derive(Debug, PartialEq, Eq, Structural, Clone, Copy)]
pub enum OverlayAction {
    /// Say that the background is painted.
    KeepBackground,
    /// Paint the overlay.
    Paint,
    /// Capture the mouse.
    CaptureMouse,
    /// Have the overlay painted anew.
    Repaint,
    /// Release the mouse and end the overlay.
    Release,
    /// End the overlay.
    Quit,
    /// Show the cross-hair cursor.
    ShowCursor,
    /// Nothing.
    Nothing,
    /// Leave the message to the system.
    Default,
}

/// The selection on the overlay.
pub struct OverlayData {
    pub is_dragging: bool,
    pub start: (i32, i32),
    pub end: (i32, i32),
    pub selection: Option<Area>,
}

/// The lowest 16 bits of a number, as a signed number.
pub open spec fn signed_word(n: int) -> i32 {
    let w = n % 0x10000;
    if w >= 0x8000 {
        (w - 0x10000) as i32
    } else {
        w as i32
    }
}

/// The horizontal position in a mouse message: its lowest 16 bits.
pub open spec fn mouse_x(lparam: isize) -> i32 {
    signed_word(lparam as int)
}

/// The vertical position in a mouse message: the 16 bits above those.
pub open spec fn mouse_y(lparam: isize) -> i32 {
    signed_word(lparam as int / 0x10000)
}

/// Reads the position in a mouse message.
fn mouse_position(lparam: isize) -> (r: (i32, i32))
    ensures
        r == (mouse_x(lparam), mouse_y(lparam)),
{
    let low: isize = lparam & 0xFFFF;
    let shifted: isize = lparam >> 16;
    let high: isize = shifted & 0xFFFF;
    assert(lparam & 0xFFFF == lparam % 0x10000) by (bit_vector);
    assert(lparam >> 16 == lparam / 0x10000) by (bit_vector);
    assert(shifted & 0xFFFF == shifted % 0x10000) by (bit_vector);
    (signed(low), signed(high))
}

/// Takes 16 bits as a signed number.
fn signed(w: isize) -> (r: i32)
    requires
        0 <= w < 0x10000,
    ensures
        r == signed_word(w as int),
{
    if w >= 0x8000 {
        (w - 0x10000) as i32
    } else {
        w as i32
    }
}

/// A position that a mouse message can hold.
pub open spec fn is_position(p: (i32, i32)) -> bool {
    &&& -0x8000 <= p.0 <= 0x7fff
    &&& -0x8000 <= p.1 <= 0x7fff
}

/// The smaller of two numbers.
pub open spec fn smaller(a: int, b: int) -> int {
    if a < b {
        a
    } else {
        b
    }
}

/// The distance between two numbers.
pub open spec fn distance(a: int, b: int) -> int {
    if a < b {
        b - a
    } else {
        a - b
    }
}

/// The rectangle with two opposite corners.
pub open spec fn area_between(a: (i32, i32), b: (i32, i32)) -> Area {
    Area {
        left: smaller(a.0 as int, b.0 as int) as i32,
        top: smaller(a.1 as int, b.1 as int) as i32,
        width: distance(a.0 as int, b.0 as int) as i32,
        height: distance(a.1 as int, b.1 as int) as i32,
    }
}

/// The rectangle is large enough to be meant.
pub open spec fn is_meant(a: Area) -> bool {
    a.width > MIN_SELECTION && a.height > MIN_SELECTION
}

/// What a message asks of the window procedure.
pub open spec fn overlay_action(dragging: bool, msg: u32, wparam: usize) -> OverlayAction {
    if msg == MY_WM_ERASEBKGND {
        OverlayAction::KeepBackground
    } else if msg == MY_WM_PAINT {
        OverlayAction::Paint
    } else if msg == MY_WM_LBUTTONDOWN {
        OverlayAction::CaptureMouse
    } else if msg == MY_WM_MOUSEMOVE {
        if dragging {
            OverlayAction::Repaint
        } else {
            OverlayAction::Nothing
        }
    } else if msg == MY_WM_LBUTTONUP {
        OverlayAction::Release
    } else if msg == MY_WM_KEYDOWN {
        if wparam == VK_ESCAPE_CODE {
            OverlayAction::Quit
        } else {
            OverlayAction::Nothing
        }
    } else if msg == MY_WM_SETCURSOR {
        OverlayAction::ShowCursor
    } else {
        OverlayAction::Default
    }
}

impl OverlayData {
    /// The corners are positions of the mouse.
    pub open spec fn wf(self) -> bool {
        is_position(self.start) && is_position(self.end)
    }

    /// The overlay after a message.
    pub open spec fn after_message(self, msg: u32, lparam: isize) -> OverlayData {
        let at = (mouse_x(lparam), mouse_y(lparam));
        if msg == MY_WM_LBUTTONDOWN {
            OverlayData { is_dragging: true, start: at, end: at, ..self }
        } else if msg == MY_WM_MOUSEMOVE && self.is_dragging {
            OverlayData { end: at, ..self }
        } else if msg == MY_WM_LBUTTONUP {
            OverlayData {
                is_dragging: false,
                end: at,
                selection: if is_meant(area_between(self.start, at)) {
                    Some(area_between(self.start, at))
                } else {
                    self.selection
                },
                ..self
            }
        } else {
            self
        }
    }

    /// Nothing selected yet.
    pub fn new() -> (r: OverlayData)
        ensures
            r.wf(),
            r == (OverlayData { is_dragging: false, start: (0, 0), end: (0, 0), selection: None }),
    {
        OverlayData { is_dragging: false, start: (0, 0), end: (0, 0), selection: None }
    }

    /// Takes a window message.
    pub fn message(&mut self, msg: u32, wparam: usize, lparam: isize) -> (r: OverlayAction)
        requires
            old(self).wf(),
        ensures
            final(self).wf(),
            *final(self) == old(self).after_message(msg, lparam),
            r == overlay_action(old(self).is_dragging, msg, wparam),
            final(self).selection != old(self).selection ==> msg == 0x0202
                && final(self).selection is Some && final(self).selection->0.width > 5
                && final(self).selection->0.height > 5,
    {
        let (x, y): (i32, i32) = mouse_position(lparam);
        if msg == MY_WM_ERASEBKGND {
            OverlayAction::KeepBackground
        } else if msg == MY_WM_PAINT {
            OverlayAction::Paint
        } else if msg == MY_WM_LBUTTONDOWN {
            self.is_dragging = true;
            self.start = (x, y);
            self.end = (x, y);
            OverlayAction::CaptureMouse
        } else if msg == MY_WM_MOUSEMOVE {
            if self.is_dragging {
                self.end = (x, y);
                OverlayAction::Repaint
            } else {
                OverlayAction::Nothing
            }
        } else if msg == MY_WM_LBUTTONUP {
            self.end = (x, y);
            self.is_dragging = false;
            let area: Area = between(self.start, self.end);
            if area.width > MIN_SELECTION && area.height > MIN_SELECTION {
                self.selection = Some(area);
            }
            OverlayAction::Release
        } else if msg == MY_WM_KEYDOWN {
            if wparam == VK_ESCAPE_CODE {
                OverlayAction::Quit
            } else {
                OverlayAction::Nothing
            }
        } else if msg == MY_WM_SETCURSOR {
            OverlayAction::ShowCursor
        } else {
            OverlayAction::Default
        }
    }

    /// The area to paint bright: what is being dragged out, unless it is empty.
    pub fn bright_area(&self) -> (r: Option<Area>)
        requires
            self.wf(),
        ensures
            ({
                let area = area_between(self.start, self.end);
                r == (if self.is_dragging && area.width > 0 && area.height > 0 {
                    Some(area)
                } else {
                    None
                })
            }),
    {
        if !self.is_dragging {
            return None;
        }
        let area: Area = between(self.start, self.end);
        if area.width > 0 && area.height > 0 {
            Some(area)
        } else {
            None
        }
    }
}

/// The rectangle with two opposite corners.
fn between(a: (i32, i32), b: (i32, i32)) -> (r: Area)
    requires
        is_position(a),
        is_position(b),
    ensures
        r == area_between(a, b),
        r.left <= a.0 && r.left <= b.0,
        r.top <= a.1 && r.top <= b.1,
        r.width == a.0 - b.0 || r.width == b.0 - a.0,
        r.height == a.1 - b.1 || r.height == b.1 - a.1,
        r.width >= 0 && r.height >= 0,
{
    Area {
        left: if a.0 < b.0 {
            a.0
        } else {
            b.0
        },
        top: if a.1 < b.1 {
            a.1
        } else {
            b.1
        },
        width: if a.0 < b.0 {
            b.0 - a.0
        } else {
            a.0 - b.0
        },
        height: if a.1 < b.1 {
            b.1 - a.1
        } else {
            a.1 - b.1
        },
    }
}

/// A mouse message holds the position that was packed into it.
pub proof fn mouse_position_survives(x: i16, y: i16, lparam: isize)
    requires
        lparam == y * 0x10000 + (if x < 0 {
            x + 0x10000
        } else {
            x as int
        }),
    ensures
        mouse_x(lparam) == x,
        mouse_y(lparam) == y,
{
}

/// The position in a message is the two signed 16-bit numbers at its low end, whatever stands
/// above them.
pub proof fn mouse_positions_are_the_low_words(lparam: isize)
    ensures
        -0x8000 <= mouse_x(lparam) < 0x8000,
        -0x8000 <= mouse_y(lparam) < 0x8000,
        exists|rest: int| #[trigger]
            (rest * 0x1_0000_0000) + mouse_y(lparam) * 0x10000 + mouse_x(lparam) + (if mouse_x(
                lparam,
            ) < 0 {
                0x10000int
            } else {
                0
            }) == lparam,
{
    let n = lparam as int;
    let high = n / 0x10000;
    let rest = if mouse_y(lparam) < 0 {
        high / 0x10000 + 1
    } else {
        high / 0x10000
    };
    assert(n == high * 0x10000 + n % 0x10000);
    assert(high == (high / 0x10000) * 0x10000 + high % 0x10000);
    assert((rest * 0x1_0000_0000) + mouse_y(lparam) * 0x10000 + mouse_x(lparam) + (if mouse_x(
        lparam,
    ) < 0 {
        0x10000int
    } else {
        0
    }) == lparam);
}

/// The rectangle reaches from one corner to the other: its left edge is the smaller and its right
/// edge the larger horizontal position, and likewise for top and bottom.
pub proof fn area_reaches_both_corners(a: (i32, i32), b: (i32, i32))
    requires
        is_position(a),
        is_position(b),
    ensures
        ({
            let r = area_between(a, b);
            &&& r.left <= a.0 && r.left <= b.0 && (r.left == a.0 || r.left == b.0)
            &&& r.top <= a.1 && r.top <= b.1 && (r.top == a.1 || r.top == b.1)
            &&& r.left + r.width >= a.0 && r.left + r.width >= b.0
            &&& r.left + r.width == a.0 || r.left + r.width == b.0
            &&& r.top + r.height >= a.1 && r.top + r.height >= b.1
            &&& r.top + r.height == a.1 || r.top + r.height == b.1
        }),
{
}

/// Pressing the button at one place, moving anywhere and releasing it at another selects what lies
/// between the two, if they are more than 5 pixels apart both ways; else what was selected before
/// stays.
pub proof fn dragging_selects_what_lies_between(
    d: OverlayData,
    press: isize,
    moved: isize,
    release: isize,
)
    ensures
        ({
            let down = d.after_message(0x0201, press);
            let dragged = down.after_message(0x0200, moved);
            let up = dragged.after_message(0x0202, release);
            let (x0, y0) = (mouse_x(press) as int, mouse_y(press) as int);
            let (x1, y1) = (mouse_x(release) as int, mouse_y(release) as int);
            let wide = x1 - x0 > 5 || x0 - x1 > 5;
            let high = y1 - y0 > 5 || y0 - y1 > 5;
            &&& down.is_dragging && dragged.is_dragging && !up.is_dragging
            &&& down.start == (mouse_x(press), mouse_y(press)) && down.end == down.start
            &&& dragged.start == down.start && dragged.end == (mouse_x(moved), mouse_y(moved))
            &&& down.selection == d.selection && dragged.selection == d.selection
            &&& up.start == down.start && up.end == (mouse_x(release), mouse_y(release))
            &&& !(wide && high) ==> up.selection == d.selection
            &&& wide && high ==> {
                let area = up.selection->0;
                &&& up.selection is Some
                &&& (area.left == x0 && area.left + area.width == x1) || (area.left == x1
                    && area.left + area.width == x0)
                &&& (area.top == y0 && area.top + area.height == y1) || (area.top == y1 && area.top
                    + area.height == y0)
                &&& area.width > 5 && area.height > 5
            }
        }),
{
    mouse_positions_are_the_low_words(press);
    mouse_positions_are_the_low_words(release);
}

/// Only the mouse changes the selection: without the button held a move changes nothing, and no
/// other message changes anything.
pub proof fn other_messages_change_nothing(d: OverlayData, msg: u32, lparam: isize)
    requires
        msg != 0x0201,
        msg != 0x0202,
        msg != 0x0200 || !d.is_dragging,
    ensures
        d.after_message(msg, lparam) == d,
{
}

/// What each message asks for, by its number.
pub proof fn messages_ask_for(dragging: bool, msg: u32, wparam: usize)
    ensures
        overlay_action(dragging, 0x0014, wparam) == OverlayAction::KeepBackground,
        overlay_action(dragging, 0x000F, wparam) == OverlayAction::Paint,
        overlay_action(dragging, 0x0020, wparam) == OverlayAction::ShowCursor,
        overlay_action(dragging, 0x0201, wparam) == OverlayAction::CaptureMouse,
        overlay_action(dragging, 0x0202, wparam) == OverlayAction::Release,
        overlay_action(true, 0x0200, wparam) == OverlayAction::Repaint,
        overlay_action(false, 0x0200, wparam) == OverlayAction::Nothing,
        overlay_action(dragging, 0x0100, 0x1B) == OverlayAction::Quit,
        wparam != 0x1B ==> overlay_action(dragging, 0x0100, wparam) == OverlayAction::Nothing,
        overlay_action(dragging, msg, wparam) == OverlayAction::Default <==> msg != 0x0014 && msg
            != 0x000F && msg != 0x0020 && msg != 0x0201 && msg != 0x0202 && msg != 0x0200 && msg
            != 0x0100,
{
}

/// The direction of dragging does not matter.
pub proof fn selection_has_no_direction(a: (i32, i32), b: (i32, i32))
    ensures
        area_between(a, b) == area_between(b, a),
{
}

/// Whatever was selected is larger than an accidental click.
pub proof fn selections_are_meant(d: OverlayData, msg: u32, lparam: isize)
    requires
        d.selection is Some ==> is_meant(d.selection->0),
    ensures
        ({
            let next = d.after_message(msg, lparam);
            next.selection is Some ==> is_meant(next.selection->0)
        }),
{
}

/// What is bright while dragging is what a release at that point selects, if it is large enough.
pub proof fn bright_area_is_selected(d: OverlayData, lparam: isize)
    requires
        d.is_dragging,
        d.end == (mouse_x(lparam), mouse_y(lparam)),
        is_meant(area_between(d.start, d.end)),
    ensures
        d.after_message(MY_WM_LBUTTONUP, lparam).selection == Some(area_between(d.start, d.end)),
{
}

/// The number of bytes of a bitmap of four bytes a pixel; none if it has no pixels.
pub fn bitmap_len(width: i32, height: i32) -> (r: Option<usize>)
    requires
        width > 0 && height > 0 ==> width * height * 4 <= i32::MAX,
    ensures
        match r {
            Some(n) => width > 0 && height > 0 && n == width * height * 4,
            None => width <= 0 || height <= 0,
        },
{
    if width <= 0 || height <= 0 {
        None
    } else {
        assert(0 < width * height) by (nonlinear_arith)
            requires
                0 < width,
                0 < height,
        ;
        Some((width * height * 4) as usize)
    }
}

/// The number of bytes of a bitmap header.
pub const BITMAP_HEADER_SIZE: u32 = 40;

/// The compression of a bitmap that is not compressed.
pub const UNCOMPRESSED: u32 = 0;

/// The header of a bitmap, with the fields that the system knows.
#[derive(Debug, PartialEq, Eq, Structural, Clone, Copy)]
pub struct BitmapFormat {
    /// The number of bytes of the header.
    pub size: u32,
    pub width: i32,
    /// Negative: the rows run from the top.
    pub height: i32,
    pub planes: u16,
    pub bit_count: u16,
    pub compression: u32,
    /// Zero: as many bytes as the pixels need.
    pub size_image: u32,
    pub x_pels_per_meter: i32,
    pub y_pels_per_meter: i32,
    /// Zero: there is no table of colours.
    pub clr_used: u32,
    pub clr_important: u32,
}

/// Describes an uncompressed bitmap of 32 bits a pixel whose rows run from the top.
pub fn make_bmi(width: i32, height: i32) -> (r: BitmapFormat)
    requires
        height > i32::MIN,
    ensures
        r.size == 40,
        r.width == width,
        r.height == -height,
        r.planes == 1,
        r.bit_count == 32,
        r.compression == 0,
        r.size_image == 0,
        r.x_pels_per_meter == 0,
        r.y_pels_per_meter == 0,
        r.clr_used == 0,
        r.clr_important == 0,
{
    BitmapFormat {
        size: BITMAP_HEADER_SIZE,
        width,
        height: -height,
        planes: 1,
        bit_count: 32,
        compression: UNCOMPRESSED,
        size_image: 0,
        x_pels_per_meter: 0,
        y_pels_per_meter: 0,
        clr_used: 0,
        clr_important: 0,
    }
}

/// Makes a picture of the pixels of a selection, which come as blue, green and red.
pub fn selection_picture(area: Area, pixels: &Vec<u8>) -> (r: Option<Picture>)
    ensures
        match r {
            Some(p) => {
                &&& area.width > 0
                &&& area.height > 0
                &&& p.width == area.width
                &&& p.height == area.height
                &&& p.data@ == recoloured(pixels@)
                &&& pixels@.len() >= picture_len(p.width, p.height)
            },
            None => area.width <= 0 || area.height <= 0 || pixels@.len() < picture_len(
                area.width as u32,
                area.height as u32,
            ),
        },
{
    if area.width <= 0 || area.height <= 0 {
        return None;
    }
    Picture::from_raw(area.width as u32, area.height as u32, bgra_to_rgba(pixels))
}

} // verus!
