//! Geometry of the viewer window: its size, the grid, and which bytes of which planes
//! the frame view and the zoomed macroblock view show.
use vstd::prelude::*;
use crate::yuv::{spec_buf_size, spec_buf_size_pad, buf_size, buf_size_pad};
use crate::ui::{Channel, UiSettings, Button, UserInput, default_settings, buttons_within, lemma_inputs_keep_mblock_within};

verus! {

/// Side of the zoomed macroblock view, in window pixels.
pub const ZOOMED: u32 = 256;

/// A plane of a frame.
#[derive(Debug, Clone, Copy, PartialEq, Eq, Structural)]
pub enum Plane {
    Y,
    U,
    V,
}

/// Which bytes the zoomed view of the selected macroblock shows.
#[derive(Debug, Clone, Copy, PartialEq, Eq, Structural)]
pub struct ZoomLayout {
    /// Range of the shown (padded) luma-position plane.
    pub y_start: usize,
    pub y_end: usize,
    /// Range of the two (padded) chroma-position planes.
    pub uv_start: usize,
    pub uv_end: usize,
    /// Row length of the shown plane; the chroma rows are half as long.
    pub pitch: usize,
    /// Size of the zoomed texture.
    pub zoom_w: usize,
    pub zoom_h: usize,
}

/// What the window shows for the current settings.
#[derive(Debug, Clone, Copy, PartialEq, Eq, Structural)]
pub struct ViewLayout {
    /// The plane shown in the luma position.
    pub luma: Plane,
    /// The chroma positions show neutral grey, not the frame's chroma planes.
    pub neutral_chroma: bool,
    /// Size of the frame texture.
    pub tex_w: usize,
    pub tex_h: usize,
    /// Length of the grey chroma planes handed to the frame texture.
    pub neutral_len: usize,
    pub zoom: ZoomLayout,
}

/// Size of the window: the frame with the zoomed view at its right.
pub open spec fn spec_window_size(width: u32, height: u32) -> (u32, u32) {
    ((width + ZOOMED) as u32, if ZOOMED > height { ZOOMED } else { height })
}

/// Length of a visible chroma plane of a `width` x `height` frame.
pub open spec fn spec_uv_len(width: u32, height: u32) -> nat {
    spec_buf_size((width / 2) as nat, (height / 2) as nat)
}

/// Number of positive multiples of `size` below `limit`.
pub open spec fn grid_count(size: int, limit: int) -> nat {
    if limit <= 0 {
        0
    } else {
        ((limit - 1) / size) as nat
    }
}

/// Corner, row length and height of the macroblock in the plane shown in the luma
/// position.
pub open spec fn zoom_block(s: UiSettings, width: u32) -> (nat, nat, nat, nat) {
    match s.channel {
        Channel::YUV | Channel::Y => (s.mblock_x as nat, s.mblock_y as nat, width as nat, s.mblock_size as nat),
        Channel::U | Channel::V => (
            (s.mblock_x / 2) as nat,
            (s.mblock_y / 2) as nat,
            (width / 2) as nat,
            (s.mblock_size / 2) as nat,
        ),
    }
}

/// The arithmetic of the zoomed view stays within `usize`.
pub open spec fn zoom_fits(s: UiSettings, width: u32) -> bool {
    let (x, y, w, h) = zoom_block(s, width);
    x + y * w + h * w <= usize::MAX
}

/// The bytes the zoomed view shows.
pub open spec fn spec_zoom_layout(s: UiSettings, width: u32) -> ZoomLayout {
    let (x, y, w, h) = zoom_block(s, width);
    let zs = match s.channel {
        Channel::YUV | Channel::Y => s.mblock_size as nat,
        Channel::U | Channel::V => (s.mblock_size / 2) as nat,
    };
    ZoomLayout {
        y_start: (x + y * w) as usize,
        y_end: (x + y * w + h * w) as usize,
        uv_start: (x / 2 + (y / 2) * w / 2) as usize,
        uv_end: (x / 2 + (y / 2) * w / 2 + (h / 2) * w / 2) as usize,
        pitch: w as usize,
        zoom_w: zs as usize,
        zoom_h: zs as usize,
    }
}

/// What the window shows for settings `s`, in a `width` x `height` window showing a
/// `frame_w` x `frame_h` frame.
pub open spec fn spec_view_layout(s: UiSettings, width: u32, height: u32, frame_w: usize, frame_h: usize) -> ViewLayout {
    let whole = s.channel == Channel::YUV || s.channel == Channel::Y;
    ViewLayout {
        luma: match s.channel {
            Channel::YUV | Channel::Y => Plane::Y,
            Channel::U => Plane::U,
            Channel::V => Plane::V,
        },
        neutral_chroma: s.channel != Channel::YUV,
        tex_w: if whole { frame_w } else { (frame_w / 2) as usize },
        tex_h: if whole { frame_h } else { (frame_h / 2) as usize },
        neutral_len: if whole { spec_uv_len(width, height) as usize } else { (spec_uv_len(width, height) / 4) as usize },
        zoom: spec_zoom_layout(s, width),
    }
}

/// Size of the window for a `width` x `height` frame: the frame, and at its right the
/// zoomed view, at least as high as the zoomed view.
pub fn window_size(width: u32, height: u32) -> (r: (u32, u32))
    requires
        width + ZOOMED <= u32::MAX,
    ensures
        r == spec_window_size(width, height),
{
    let w = width + ZOOMED;
    let h = if ZOOMED > height { ZOOMED } else { height };
    (w, h)
}

/// Length of a visible chroma plane of a `width` x `height` frame.
pub fn uv_len(width: u32, height: u32) -> (r: usize)
    requires
        spec_uv_len(width, height) <= usize::MAX,
    ensures
        r == spec_uv_len(width, height),
{
    buf_size(width as usize / 2, height as usize / 2)
}

/// A quarter of the length of a visible chroma plane: the chroma length of a frame
/// of half the size.
pub fn uv_len_half(width: u32, height: u32) -> (r: usize)
    requires
        spec_uv_len(width, height) <= usize::MAX,
    ensures
        r == spec_uv_len(width, height) / 4,
{
    uv_len(width, height) / 4
}

/// A chroma plane of a `width` x `height` frame, padding included, in neutral grey.
pub fn neutral_chroma_plane(width: usize, height: usize) -> (r: Vec<u8>)
    requires
        spec_buf_size_pad((width / 2) as nat, (height / 2) as nat) <= usize::MAX,
    ensures
        r@ == Seq::new(spec_buf_size_pad((width / 2) as nat, (height / 2) as nat), |i: int| 128u8),
{
    let n = buf_size_pad(width / 2, height / 2);
    let mut r: Vec<u8> = Vec::new();
    while r.len() < n
        invariant
            r.len() <= n,
            forall|i: int| 0 <= i < r.len() ==> r@[i] == 128u8,
        decreases n - r.len(),
    {
        r.push(128u8);
    }
    assert(r@ =~= Seq::new(n as nat, |i: int| 128u8));
    r
}

proof fn lemma_grid_count(size: int, limit: int, k: int)
    by (nonlinear_arith)
    requires
        size > 0,
        k >= 0,
        k * size < limit,
        limit <= (k + 1) * size,
    ensures
        grid_count(size, limit) == k,
{
}

/// The positions of the grid lines along a side of length `limit`: the positive
/// multiples of `size` below `limit`, in increasing order.
pub fn grid_lines(size: i32, limit: i32) -> (r: Vec<i32>)
    requires
        size > 0,
        (grid_count(size as int, limit as int) + 1) * size <= i32::MAX,
    ensures
        r@.len() == grid_count(size as int, limit as int),
        forall|i: int| 0 <= i < r@.len() ==> r@[i] == (i + 1) * size,
{
    let mut r: Vec<i32> = Vec::new();
    let mut xx: i32 = size;
    assert((0 + 1) * size == size) by (nonlinear_arith);
    while xx < limit
        invariant
            size > 0,
            (grid_count(size as int, limit as int) + 1) * size <= i32::MAX,
            xx == (r@.len() + 1) * size,
            r@.len() * size < limit || r@.len() == 0,
            forall|i: int| 0 <= i < r@.len() ==> r@[i] == (i + 1) * size,
        decreases (limit as int) - (xx as int) + (size as int),
    {
        let ghost n = r@.len() as int;
        proof {
            // xx = (n + 1) * size < limit, so n + 1 <= grid_count
            assert((n + 1) * size <= limit - 1);
            assert(n + 1 <= (limit - 1) / (size as int)) by (nonlinear_arith)
                requires
                    (n + 1) * size <= limit - 1,
                    size > 0,
                    n + 1 >= 1,
            ;
            assert((n + 2) * (size as int) <= (grid_count(size as int, limit as int) + 1) * size)
                by (nonlinear_arith)
                requires
                    n + 1 <= grid_count(size as int, limit as int),
                    size > 0,
            ;
            assert((n + 2) * size == (n + 1) * size + size) by (nonlinear_arith);
        }
        r.push(xx);
        xx = xx + size;
    }
    proof {
        let n = r@.len() as int;
        if limit <= 0 {
            assert(n == 0) by {
                if n > 0 {
                    assert(n * size > 0) by (nonlinear_arith)
                        requires
                            n > 0,
                            size > 0,
                    ;
                }
            }
        } else {
            if n == 0 {
                lemma_grid_count(size as int, limit as int, 0);
            } else {
                lemma_grid_count(size as int, limit as int, n);
            }
        }
    }
    r
}

/// Whether the arithmetic of the zoomed view stays within `usize`.
pub fn zoom_fits_in_usize(s: &UiSettings, width: u32) -> (r: bool)
    ensures
        r == zoom_fits(*s, width),
{
    let w_full = width as usize;
    let (x, y, w, h) = match s.channel {
        Channel::YUV | Channel::Y => (s.mblock_x, s.mblock_y, w_full, s.mblock_size),
        Channel::U | Channel::V => (s.mblock_x / 2, s.mblock_y / 2, w_full / 2, s.mblock_size / 2),
    };
    let yw = match y.checked_mul(w) {
        Some(v) => v,
        None => return false,
    };
    let hw = match h.checked_mul(w) {
        Some(v) => v,
        None => return false,
    };
    let a = match x.checked_add(yw) {
        Some(v) => v,
        None => return false,
    };
    a.checked_add(hw).is_some()
}

/// The bytes the zoomed view of the selected macroblock shows, in a window
/// `width` samples wide.
pub fn zoom_layout(s: &UiSettings, width: u32) -> (r: ZoomLayout)
    requires
        zoom_fits(*s, width),
    ensures
        r == spec_zoom_layout(*s, width),
{
    let w_full = width as usize;
    let (x, y, w, h) = match s.channel {
        Channel::YUV | Channel::Y => (s.mblock_x, s.mblock_y, w_full, s.mblock_size),
        Channel::U | Channel::V => (s.mblock_x / 2, s.mblock_y / 2, w_full / 2, s.mblock_size / 2),
    };
    proof {
        assert(y * w <= x + y * w + h * w);
        assert((y / 2) * w <= y * w) by (nonlinear_arith);
        assert((h / 2) * w <= h * w) by (nonlinear_arith);
        assert(x / 2 + (y / 2) * w / 2 + (h / 2) * w / 2 <= x + y * w + h * w) by (nonlinear_arith)
            requires
                (y / 2) * w <= y * w,
                (h / 2) * w <= h * w,
        ;
    }
    let y_start = x + (y * w);
    let y_end = y_start + (h * w);
    let uv_start = (x / 2) + ((y / 2) * w / 2);
    let uv_end = uv_start + ((h / 2) * w / 2);
    let (zoom_w, zoom_h) = match s.channel {
        Channel::YUV | Channel::Y => (s.mblock_size, s.mblock_size),
        Channel::U | Channel::V => (s.mblock_size / 2, s.mblock_size / 2),
    };
    ZoomLayout { y_start, y_end, uv_start, uv_end, pitch: w, zoom_w, zoom_h }
}

/// What the window shows for the settings `s`, in a `width` x `height` window showing
/// a `frame_w` x `frame_h` frame: the plane in the luma position, whether the chroma
/// positions are grey, the texture size and the zoomed bytes.
pub fn view_layout(s: &UiSettings, width: u32, height: u32, frame_w: usize, frame_h: usize) -> (r: ViewLayout)
    requires
        zoom_fits(*s, width),
        spec_uv_len(width, height) <= usize::MAX,
    ensures
        r == spec_view_layout(*s, width, height, frame_w, frame_h),
{
    let whole = match s.channel {
        Channel::YUV | Channel::Y => true,
        Channel::U | Channel::V => false,
    };
    let luma = match s.channel {
        Channel::YUV | Channel::Y => Plane::Y,
        Channel::U => Plane::U,
        Channel::V => Plane::V,
    };
    let neutral_chroma = match s.channel {
        Channel::YUV => false,
        _ => true,
    };
    let (tex_w, tex_h) = if whole { (frame_w, frame_h) } else { (frame_w / 2, frame_h / 2) };
    let neutral_len = if whole { uv_len(width, height) } else { uv_len_half(width, height) };
    ViewLayout { luma, neutral_chroma, tex_w, tex_h, neutral_len, zoom: zoom_layout(s, width) }
}

/// Length of the padded plane shown in the luma position of the zoomed view.
pub open spec fn luma_pad_len(s: UiSettings, width: u32, height: u32) -> nat {
    match s.channel {
        Channel::YUV | Channel::Y => spec_buf_size_pad(width as nat, height as nat),
        Channel::U | Channel::V => spec_buf_size_pad((width / 2) as nat, (height / 2) as nat),
    }
}

proof fn lemma_block_bound(x: int, y: int, a: int, h: int, hh: int, hmax: int)
    by (nonlinear_arith)
    requires
        0 <= x < a,
        0 <= y <= hh,
        0 <= h <= hmax,
        a >= 1,
    ensures
        x + y * a + h * a < a * (hh + 1 + hmax),
        x + y * a + h * a >= x + y * a,
        x + y * a >= 0,
{
}

proof fn lemma_halves(x: int, y: int, w: int, h: int)
    by (nonlinear_arith)
    requires
        x >= 0,
        y >= 0,
        w >= 0,
        h >= 0,
    ensures
        x / 2 + (y / 2) * w / 2 <= x / 2 + (y / 2) * w / 2 + (h / 2) * w / 2,
        x / 2 + (y / 2) * w / 2 + (h / 2) * w / 2 <= x + y * w + h * w,
{
}

proof fn lemma_half_rows(x: int, y: int, a: int, h: int)
    by (nonlinear_arith)
    requires
        x >= 0,
        y >= 0,
        a >= 1,
        h >= 0,
    ensures
        x / 2 + (y / 2) * (2 * a) / 2 + (h / 2) * (2 * a) / 2 == x / 2 + (y / 2) * a + (h / 2) * a,
{
}

/// When the selected macroblock lies within a frame of even width and the macroblock is
/// at most sixteen samples on a side, the bytes the zoomed view shows lie within the
/// padded planes: the plane in the luma position and the two chroma planes (or the
/// grey plane, of the same length). The view then never reads past a plane.
pub proof fn lemma_zoom_within_planes(s: UiSettings, width: u32, height: u32)
    requires
        width % 2 == 0,
        width >= 2,
        s.mblock_x < width,
        s.mblock_y < height,
        s.mblock_size <= 16,
        spec_buf_size_pad(width as nat, height as nat) <= usize::MAX,
    ensures
        zoom_fits(s, width),
        spec_zoom_layout(s, width).y_start <= spec_zoom_layout(s, width).y_end,
        spec_zoom_layout(s, width).y_end <= luma_pad_len(s, width, height),
        spec_zoom_layout(s, width).uv_start <= spec_zoom_layout(s, width).uv_end,
        spec_zoom_layout(s, width).uv_end <= spec_buf_size_pad((width / 2) as nat, (height / 2) as nat),
{
    let wf = width as int;
    let hf = height as int;
    let a = wf / 2;
    let mx = s.mblock_x as int;
    let my = s.mblock_y as int;
    let ms = s.mblock_size as int;
    assert(wf == 2 * a);
    let (x, y, w, h) = zoom_block(s, width);
    match s.channel {
        Channel::YUV | Channel::Y => {
            assert(x == mx && y == my && w == wf && h == ms);
            lemma_block_bound(mx, my, wf, ms, hf - 1, 16);
            assert(wf * (hf - 1 + 1 + 16) == wf * hf + wf * 16) by (nonlinear_arith);
            lemma_halves(mx, my, wf, ms);
            lemma_half_rows(mx, my, a, ms);
            lemma_block_bound(mx / 2, my / 2, a, ms / 2, hf / 2, 8);
            assert(a * (hf / 2 + 1 + 8) <= a * (hf / 2) + a * 16) by (nonlinear_arith)
                requires
                    a >= 1,
                    hf >= 0,
            ;
        },
        Channel::U | Channel::V => {
            assert(x == mx / 2 && y == my / 2 && w == a && h == ms / 2);
            lemma_block_bound(mx / 2, my / 2, a, ms / 2, hf / 2, 8);
            assert(a * (hf / 2 + 1 + 8) <= a * (hf / 2) + a * 16) by (nonlinear_arith)
                requires
                    a >= 1,
                    hf >= 0,
            ;
            lemma_halves(mx / 2, my / 2, a, ms / 2);
            assert(a * (hf / 2) + a * 16 <= wf * hf + wf * 16) by (nonlinear_arith)
                requires
                    wf == 2 * a,
                    a >= 1,
                    hf >= 0,
            ;
        },
    }
}

/// Whatever requests the user makes, the zoomed view of a frame of even width never
/// reads past a plane, as long as the buttons lie within the frame: the settings start
/// at their defaults and every click selects a macroblock inside the frame.
pub proof fn lemma_view_stays_within_planes(
    buttons: Seq<Button>,
    inputs: Seq<UserInput>,
    width: u32,
    height: u32,
)
    requires
        width % 2 == 0,
        width >= 2,
        height >= 1,
        buttons_within(buttons, width as int, height as int),
        spec_buf_size_pad(width as nat, height as nat) <= usize::MAX,
    ensures
        ({
            let s = default_settings().after_inputs(buttons, inputs);
            let z = spec_zoom_layout(s, width);
            &&& zoom_fits(s, width)
            &&& z.y_start <= z.y_end <= luma_pad_len(s, width, height)
            &&& z.uv_start <= z.uv_end <= spec_buf_size_pad((width / 2) as nat, (height / 2) as nat)
        }),
{
    lemma_inputs_keep_mblock_within(default_settings(), buttons, inputs, width as int, height as int);
    lemma_zoom_within_planes(default_settings().after_inputs(buttons, inputs), width, height);
}

/// The zoomed view shows a square block of whole rows of the plane in the luma
/// position: the zoom texture has as many rows as the byte range holds rows of `pitch`
/// samples, and as many columns as rows. When that plane is the full luma plane (colour
/// and luma channels) its rows are `width` samples long, the block is the selected
/// macroblock, of `mblock_size` samples a side, and it starts at the macroblock's
/// corner; for a chroma plane everything is halved.
pub proof fn lemma_zoom_shape(s: UiSettings, width: u32, height: u32, frame_w: usize, frame_h: usize)
    requires
        zoom_fits(s, width),
    ensures
        ({
            let z = spec_zoom_layout(s, width);
            let luma = spec_view_layout(s, width, height, frame_w, frame_h).luma;
            &&& z.zoom_w == z.zoom_h
            &&& z.y_start <= z.y_end
            &&& z.zoom_h * z.pitch == z.y_end - z.y_start
            &&& z.uv_start <= z.uv_end
            &&& z.uv_end - z.uv_start == ((z.zoom_h / 2) * z.pitch) / 2
            &&& luma == Plane::Y ==> {
                &&& z.pitch == width
                &&& z.zoom_w == s.mblock_size
                &&& z.y_start == s.mblock_x + s.mblock_y * width
            }
            &&& luma != Plane::Y ==> {
                &&& z.pitch == width / 2
                &&& z.zoom_w == s.mblock_size / 2
                &&& z.y_start == s.mblock_x / 2 + (s.mblock_y / 2) * (width / 2)
            }
        }),
{
    let (x, y, w, h) = zoom_block(s, width);
    assert(x + y * w <= x + y * w + h * w) by (nonlinear_arith)
        requires
            h >= 0,
            w >= 0,
    ;
    lemma_halves(x as int, y as int, w as int, h as int);
    assert(y * w <= x + y * w + h * w) by (nonlinear_arith)
        requires
            h >= 0,
            w >= 0,
            x >= 0,
    ;
}

/// The frame texture has the size of the plane shown in the luma position: the whole
/// frame when the luma plane is shown (colour and luma channels), a chroma plane (half
/// the width and height) when a chroma plane is shown; it then holds exactly the samples
/// of that visible plane. The chroma positions are grey unless the colour channel is
/// shown, and the grey planes are those of a texture of that size.
pub proof fn lemma_frame_texture_matches_plane(
    s: UiSettings,
    width: u32,
    height: u32,
    frame_w: usize,
    frame_h: usize,
)
    requires
        spec_uv_len(width, height) <= usize::MAX,
    ensures
        ({
            let l = spec_view_layout(s, width, height, frame_w, frame_h);
            &&& (s.channel == Channel::YUV || s.channel == Channel::Y) <==> l.luma == Plane::Y
            &&& s.channel == Channel::U <==> l.luma == Plane::U
            &&& s.channel == Channel::V <==> l.luma == Plane::V
            &&& l.neutral_chroma <==> s.channel != Channel::YUV
            &&& l.luma == Plane::Y ==> l.tex_w == frame_w && l.tex_h == frame_h
            &&& l.luma != Plane::Y ==> l.tex_w == frame_w / 2 && l.tex_h == frame_h / 2
            &&& l.luma == Plane::Y ==> l.tex_w * l.tex_h == spec_buf_size(frame_w as nat, frame_h as nat)
            &&& l.luma != Plane::Y ==> l.tex_w * l.tex_h == spec_buf_size(
                (frame_w / 2) as nat,
                (frame_h / 2) as nat,
            )
            &&& l.luma == Plane::Y ==> l.neutral_len == spec_buf_size((width / 2) as nat, (height / 2) as nat)
            &&& l.luma != Plane::Y ==> l.neutral_len == spec_buf_size((width / 2) as nat, (height / 2) as nat) / 4
        }),
{
}

/// The window holds the frame and the zoomed view side by side, and is as high as the
/// higher of the two.
pub proof fn lemma_window_holds_both(width: u32, height: u32)
    requires
        width + ZOOMED <= u32::MAX,
    ensures
        spec_window_size(width, height).0 == width + ZOOMED,
        spec_window_size(width, height).1 >= height,
        spec_window_size(width, height).1 >= ZOOMED,
        spec_window_size(width, height).1 == height || spec_window_size(width, height).1 == ZOOMED,
{
}

/// The grid lines are all the positive multiples of `size` below `limit`: the last line
/// lies below `limit` and the next multiple does not.
pub proof fn lemma_grid_covers(size: int, limit: int)
    requires
        size > 0,
    ensures
        grid_count(size, limit) * size < limit || grid_count(size, limit) == 0,
        (grid_count(size, limit) + 1) * size >= limit,
{
    if limit > 0 {
        let c = (limit - 1) / size;
        assert(c * size <= limit - 1 && (c + 1) * size >= limit) by (nonlinear_arith)
            requires
                size > 0,
                limit >= 1,
                c == (limit - 1) / size,
        ;
    } else {
        assert(1 * size >= limit);
    }
}

} // verus!
