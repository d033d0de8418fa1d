//! Planar YUV 4:2:0 frames: buffer sizes, plane access, differences and scaling.
use vstd::prelude::*;
use vstd::slice::slice_subrange;

verus! {

/// Number of bytes of a `w` x `h` plane.
pub open spec fn spec_buf_size(w: nat, h: nat) -> nat {
    w * h
}

/// Number of bytes of a `w` x `h` plane followed by sixteen extra rows.
pub open spec fn spec_buf_size_pad(w: nat, h: nat) -> nat {
    w * h + w * 16
}

/// The three padded planes of a `w` x `h` frame fit in the address space together.
pub open spec fn dims_fit(w: nat, h: nat) -> bool {
    spec_buf_size_pad(w, h) + 2 * spec_buf_size_pad(w / 2, h / 2) <= usize::MAX
}

/// Size of a plane padded with sixteen extra rows.
pub fn buf_size_pad(w: usize, h: usize) -> (r: usize)
    requires
        spec_buf_size_pad(w as nat, h as nat) <= usize::MAX,
    ensures
        r == spec_buf_size_pad(w as nat, h as nat),
{
    (w * h) + w * 16
}

/// Size of a plane.
pub fn buf_size(w: usize, h: usize) -> (r: usize)
    requires
        spec_buf_size(w as nat, h as nat) <= usize::MAX,
    ensures
        r == spec_buf_size(w as nat, h as nat),
{
    w * h
}

/// Number of bytes one `w` x `h` frame takes in a file: the visible luma plane and
/// the two visible chroma planes.
pub open spec fn spec_frame_size(w: nat, h: nat) -> nat {
    spec_buf_size(w, h) + 2 * spec_buf_size(w / 2, h / 2)
}

/// Whether frames of `w` x `h` samples can be held: their three padded planes fit in
/// the address space together, and a frame's size in a file fits a file offset.
pub fn frame_dims_supported(w: usize, h: usize) -> (r: bool)
    ensures
        r == (dims_fit(w as nat, h as nat) && spec_frame_size(w as nat, h as nat) <= i64::MAX),
{
    let hw = w / 2;
    let hh = h / 2;
    proof {
        assert(w * 16 <= w * h + w * 16);
        assert(hw * hh <= hw * hh + hw * 16);
        assert(spec_buf_size(w as nat, h as nat) <= spec_buf_size_pad(w as nat, h as nat));
    }
    let wh = match w.checked_mul(h) {
        Some(v) => v,
        None => return false,
    };
    let w16 = match w.checked_mul(16) {
        Some(v) => v,
        None => return false,
    };
    let y_pad = match wh.checked_add(w16) {
        Some(v) => v,
        None => return false,
    };
    let uv = match hw.checked_mul(hh) {
        Some(v) => v,
        None => return false,
    };
    let hw16 = match hw.checked_mul(16) {
        Some(v) => v,
        None => return false,
    };
    let uv_pad = match uv.checked_add(hw16) {
        Some(v) => v,
        None => return false,
    };
    let two_uv_pad = match uv_pad.checked_mul(2) {
        Some(v) => v,
        None => return false,
    };
    if y_pad.checked_add(two_uv_pad).is_none() {
        return false;
    }
    let fsize = wh + 2 * uv;
    (fsize as u64) <= (i64::MAX as u64)
}

/// Absolute difference of two samples.
pub open spec fn abs_diff(a: u8, b: u8) -> u8 {
    if a >= b {
        (a - b) as u8
    } else {
        (b - a) as u8
    }
}

/// Pairwise absolute differences, as long as the shorter of the two planes.
pub open spec fn diff_seq(a: Seq<u8>, b: Seq<u8>) -> Seq<u8> {
    Seq::new(
        if a.len() <= b.len() { a.len() } else { b.len() },
        |i: int| abs_diff(a[i], b[i]),
    )
}

/// A sample multiplied by `m`, saturated at 255.
pub open spec fn scale_px(p: u8, m: u32) -> u8 {
    if p * m >= 255 {
        255u8
    } else {
        (p * m) as u8
    }
}

/// Every sample of a plane multiplied by `m`, saturated at 255.
pub open spec fn scale_seq(s: Seq<u8>, m: u32) -> Seq<u8> {
    Seq::new(s.len(), |i: int| scale_px(s[i], m))
}

/// `p * m` does not overflow a `u32` for any sample `p` of the plane.
pub open spec fn seq_fits_multiplier(s: Seq<u8>, m: u32) -> bool {
    forall|i: int| 0 <= i < s.len() ==> #[trigger] s[i] * m <= u32::MAX
}

/// `d` laid over the start of `s`; the rest of `s` is kept.
pub open spec fn overlay(s: Seq<u8>, d: Seq<u8>) -> Seq<u8> {
    d + s.skip(d.len() as int)
}

/// Why a frame could not be loaded.
#[derive(Debug, Clone, Copy, PartialEq, Eq, Structural)]
pub enum FrameError {
    /// Frames are numbered from one.
    FrameNumberZero,
    /// The file holds no complete frame at the requested place.
    NotEnoughData,
    /// The bytes handed over ended before a plane was complete.
    ShortRead,
}

impl FrameError {
    /// The text that describes the error.
    pub fn message(&self) -> (r: &'static str)
        ensures
            *self == FrameError::FrameNumberZero ==> r@ == "Frame number needs to be >0"@,
            *self == FrameError::NotEnoughData ==> r@ == "Not enough data in file"@,
            *self == FrameError::ShortRead ==> r@ == "failed to fill whole buffer"@,
    {
        match self {
            FrameError::FrameNumberZero => "Frame number needs to be >0",
            FrameError::NotEnoughData => "Not enough data in file",
            FrameError::ShortRead => "failed to fill whole buffer",
        }
    }
}

/// The mathematical content of a frame: its size and its three padded planes.
pub struct YuvView {
    pub width: nat,
    pub height: nat,
    pub y: Seq<u8>,
    pub u: Seq<u8>,
    pub v: Seq<u8>,
}

impl YuvView {
    /// Length of the visible luma plane.
    pub open spec fn y_len(self) -> nat {
        spec_buf_size(self.width, self.height)
    }

    /// Length of a visible chroma plane.
    pub open spec fn uv_len(self) -> nat {
        spec_buf_size(self.width / 2, self.height / 2)
    }

    /// Number of bytes one frame takes in a file.
    pub open spec fn frame_size(self) -> nat {
        spec_frame_size(self.width, self.height)
    }

    /// The planes have their padded lengths.
    pub open spec fn valid(self) -> bool {
        &&& dims_fit(self.width, self.height)
        &&& self.y.len() == spec_buf_size_pad(self.width, self.height)
        &&& self.u.len() == spec_buf_size_pad(self.width / 2, self.height / 2)
        &&& self.v.len() == spec_buf_size_pad(self.width / 2, self.height / 2)
    }

    pub open spec fn same_size(self, other: YuvView) -> bool {
        self.width == other.width && self.height == other.height
    }

    /// No sample of any plane overflows a `u32` when multiplied by `m`.
    pub open spec fn fits_multiplier(self, m: u32) -> bool {
        &&& seq_fits_multiplier(self.y, m)
        &&& seq_fits_multiplier(self.u, m)
        &&& seq_fits_multiplier(self.v, m)
    }

    /// Samplewise absolute difference with `other`.
    pub open spec fn abs_diff(self, other: YuvView) -> YuvView {
        YuvView {
            width: self.width,
            height: self.height,
            y: diff_seq(self.y, other.y),
            u: diff_seq(self.u, other.u),
            v: diff_seq(self.v, other.v),
        }
    }

    /// Every sample multiplied by `m`, saturated at 255.
    pub open spec fn scaled(self, m: u32) -> YuvView {
        YuvView {
            width: self.width,
            height: self.height,
            y: scale_seq(self.y, m),
            u: scale_seq(self.u, m),
            v: scale_seq(self.v, m),
        }
    }

    /// The frame after loading from the bytes `data`: the visible luma plane first, then
    /// the two visible chroma planes. A plane is only written when `data` holds all of it,
    /// and loading stops at the first plane that it does not hold.
    pub open spec fn loaded(self, data: Seq<u8>) -> YuvView {
        let yl = self.y_len() as int;
        let ul = self.uv_len() as int;
        if data.len() < yl {
            self
        } else if data.len() < yl + ul {
            YuvView { y: overlay(self.y, data.take(yl)), ..self }
        } else if data.len() < yl + 2 * ul {
            YuvView {
                y: overlay(self.y, data.take(yl)),
                u: overlay(self.u, data.subrange(yl, yl + ul)),
                ..self
            }
        } else {
            YuvView {
                y: overlay(self.y, data.take(yl)),
                u: overlay(self.u, data.subrange(yl, yl + ul)),
                v: overlay(self.v, data.subrange(yl + ul, yl + 2 * ul)),
                ..self
            }
        }
    }

    /// Loading from `data` succeeds exactly when it holds a whole frame.
    pub open spec fn load_succeeds(self, data: Seq<u8>) -> bool {
        data.len() >= self.frame_size()
    }
}

/// A planar YUV 4:2:0 frame. Every plane carries sixteen rows of padding after its
/// visible part.
pub struct Yuv {
    width: usize,
    height: usize,
    pix_y: Vec<u8>,
    pix_u: Vec<u8>,
    pix_v: Vec<u8>,
}

impl View for Yuv {
    type V = YuvView;

    closed spec fn view(&self) -> YuvView {
        YuvView {
            width: self.width as nat,
            height: self.height as nat,
            y: self.pix_y@,
            u: self.pix_u@,
            v: self.pix_v@,
        }
    }
}

/// A plane of `n` zero samples.
fn zero_plane(n: usize) -> (r: Vec<u8>)
    ensures
        r@ == Seq::new(n as nat, |i: int| 0u8),
{
    let mut r: Vec<u8> = Vec::new();
    while r.len() < n
        invariant
            r.len() <= n,
            forall|i: int| 0 <= i < r.len() ==> r@[i] == 0u8,
        decreases n - r.len(),
    {
        r.push(0u8);
    }
    assert(r@ =~= Seq::new(n as nat, |i: int| 0u8));
    r
}

/// Pairwise absolute difference of two planes, as long as the shorter one.
fn diff_plane(a: &Vec<u8>, b: &Vec<u8>) -> (r: Vec<u8>)
    ensures
        r@ == diff_seq(a@, b@),
{
    let n: usize = if a.len() <= b.len() { a.len() } else { b.len() };
    let mut r: Vec<u8> = Vec::new();
    let mut i: usize = 0;
    while i < n
        invariant
            n <= a.len(),
            n <= b.len(),
            n == if a@.len() <= b@.len() { a@.len() } else { b@.len() },
            i <= n,
            r@.len() == i,
            forall|k: int| 0 <= k < i ==> r@[k] == abs_diff(a@[k], b@[k]),
        decreases n - i,
    {
        let x: u8 = a[i];
        let y: u8 = b[i];
        let d: u8 = if x >= y { x - y } else { y - x };
        r.push(d);
        i = i + 1;
    }
    assert(r@ =~= diff_seq(a@, b@));
    r
}

/// Every sample of a plane multiplied by `m`, saturated at 255.
fn scale_plane(s: &Vec<u8>, m: u32) -> (r: Vec<u8>)
    requires
        seq_fits_multiplier(s@, m),
    ensures
        r@ == scale_seq(s@, m),
{
    let mut r: Vec<u8> = Vec::new();
    let mut i: usize = 0;
    while i < s.len()
        invariant
            seq_fits_multiplier(s@, m),
            i <= s.len(),
            r@.len() == i,
            forall|k: int| 0 <= k < i ==> r@[k] == scale_px(s@[k], m),
        decreases s.len() - i,
    {
        let p: u8 = s[i];
        assert(s@[i as int] * m <= u32::MAX);
        let v: u32 = (p as u32) * m;
        let q: u8 = if v >= 255 { 255u8 } else { v as u8 };
        r.push(q);
        i = i + 1;
    }
    assert(r@ =~= scale_seq(s@, m));
    r
}

/// Whether some sample of the plane overflows a `u32` when multiplied by `m`.
fn plane_overflows(s: &Vec<u8>, m: u32) -> (r: bool)
    ensures
        r == !seq_fits_multiplier(s@, m),
{
    let mut i: usize = 0;
    while i < s.len()
        invariant
            i <= s.len(),
            forall|k: int| 0 <= k < i ==> #[trigger] s@[k] * m <= u32::MAX,
        decreases s.len() - i,
    {
        let p: u64 = s[i] as u64;
        assert(p * (m as u64) <= 255 * 0xffff_ffffu64) by (nonlinear_arith)
            requires
                p <= 255,
        ;
        if p * (m as u64) > (u32::MAX as u64) {
            return true;
        }
        i = i + 1;
    }
    false
}

/// The plane `s` with its first `n` samples replaced by `data[start..start + n]`.
fn overlay_plane(s: &Vec<u8>, data: &[u8], start: usize, n: usize) -> (r: Vec<u8>)
    requires
        n <= s@.len(),
        start + n <= data@.len(),
    ensures
        r@ == overlay(s@, data@.subrange(start as int, start + n)),
{
    let mut r: Vec<u8> = Vec::new();
    let mut i: usize = 0;
    while i < s.len()
        invariant
            n <= s@.len(),
            start + n <= data@.len(),
            i <= s.len(),
            r@.len() == i,
            forall|k: int| 0 <= k < i && k < n ==> r@[k] == data@[start + k],
            forall|k: int| 0 <= k < i && n <= k ==> r@[k] == s@[k],
        decreases s.len() - i,
    {
        if i < n {
            assert(start + i < data.len());
            r.push(data[start + i]);
        } else {
            r.push(s[i]);
        }
        i = i + 1;
    }
    assert(r@ =~= overlay(s@, data@.subrange(start as int, start + n)));
    r
}

impl Yuv {
    #[verifier::type_invariant]
    spec fn inv(self) -> bool {
        self@.valid()
    }

    /// A black-and-zero frame of the given size: all three planes hold zeros.
    pub fn new(w: usize, h: usize) -> (r: Yuv)
        requires
            dims_fit(w as nat, h as nat),
        ensures
            r@.valid(),
            r@.width == w,
            r@.height == h,
            r@.y == Seq::new(spec_buf_size_pad(w as nat, h as nat), |i: int| 0u8),
            r@.u == Seq::new(spec_buf_size_pad((w / 2) as nat, (h / 2) as nat), |i: int| 0u8),
            r@.v == Seq::new(spec_buf_size_pad((w / 2) as nat, (h / 2) as nat), |i: int| 0u8),
    {
        let y_size = buf_size_pad(w, h);
        let uv_size = buf_size_pad(w / 2, h / 2);
        Yuv {
            width: w,
            height: h,
            pix_y: zero_plane(y_size),
            pix_u: zero_plane(uv_size),
            pix_v: zero_plane(uv_size),
        }
    }

    proof fn lemma_sizes(&self)
        requires
            self@.valid(),
        ensures
            self@.y_len() <= self@.y.len(),
            self@.uv_len() <= self@.u.len(),
            self@.uv_len() <= self@.v.len(),
            self@.frame_size() <= usize::MAX,
    {
    }

    fn frame_size(&self) -> (r: usize)
        ensures
            r == self@.frame_size(),
    {
        proof {
            use_type_invariant(self);
            self.lemma_sizes();
        }
        self.y_buf_size() + 2 * self.uv_buf_size()
    }

    fn y_buf_size(&self) -> (r: usize)
        ensures
            r == self@.y_len(),
    {
        proof {
            use_type_invariant(self);
            self.lemma_sizes();
        }
        buf_size(self.width, self.height)
    }

    fn uv_buf_size(&self) -> (r: usize)
        ensures
            r == self@.uv_len(),
    {
        proof {
            use_type_invariant(self);
            self.lemma_sizes();
        }
        buf_size(self.width / 2, self.height / 2)
    }

    /// Number of bytes one frame takes in a file: the visible parts of the three planes.
    pub fn file_frame_size(&self) -> (r: usize)
        ensures
            r == self@.frame_size(),
            self@.valid(),
    {
        proof {
            use_type_invariant(self);
        }
        self.frame_size()
    }

    /// The visible luma plane.
    pub fn y_frame(&self) -> (r: &[u8])
        ensures
            r@ == self@.y.take(self@.y_len() as int),
            self@.valid(),
    {
        proof {
            use_type_invariant(self);
            self.lemma_sizes();
        }
        let len = self.y_buf_size();
        slice_subrange(self.pix_y.as_slice(), 0, len)
    }

    /// The whole luma plane, padding included.
    pub fn y_frame_pad(&self) -> (r: &[u8])
        ensures
            r@ == self@.y,
            self@.valid(),
    {
        proof {
            use_type_invariant(self);
        }
        self.pix_y.as_slice()
    }

    /// The visible first chroma plane.
    pub fn u_frame(&self) -> (r: &[u8])
        ensures
            r@ == self@.u.take(self@.uv_len() as int),
            self@.valid(),
    {
        proof {
            use_type_invariant(self);
            self.lemma_sizes();
        }
        let len = self.uv_buf_size();
        slice_subrange(self.pix_u.as_slice(), 0, len)
    }

    /// The whole first chroma plane, padding included.
    pub fn u_frame_pad(&self) -> (r: &[u8])
        ensures
            r@ == self@.u,
            self@.valid(),
    {
        proof {
            use_type_invariant(self);
        }
        self.pix_u.as_slice()
    }

    /// The visible second chroma plane.
    pub fn v_frame(&self) -> (r: &[u8])
        ensures
            r@ == self@.v.take(self@.uv_len() as int),
            self@.valid(),
    {
        proof {
            use_type_invariant(self);
            self.lemma_sizes();
        }
        let len = self.uv_buf_size();
        slice_subrange(self.pix_v.as_slice(), 0, len)
    }

    /// The whole second chroma plane, padding included.
    pub fn v_frame_pad(&self) -> (r: &[u8])
        ensures
            r@ == self@.v,
            self@.valid(),
    {
        proof {
            use_type_invariant(self);
        }
        self.pix_v.as_slice()
    }

    /// The samplewise absolute difference of two frames of the same size, padding
    /// included; frames of different sizes are refused.
    pub fn from_abs_diff(frame_a: &Yuv, frame_b: &Yuv) -> (r: Result<Yuv, &'static str>)
        ensures
            r is Ok <==> frame_a@.same_size(frame_b@),
            r matches Ok(d) ==> d@ == frame_a@.abs_diff(frame_b@) && d@.valid(),
            r matches Err(e) ==> e@ == "Sizes differ"@,
    {
        proof {
            use_type_invariant(frame_a);
            use_type_invariant(frame_b);
        }
        if !frame_a.same_size(frame_b) {
            return Err("Sizes differ");
        }
        let pix_y = diff_plane(&frame_a.pix_y, &frame_b.pix_y);
        let pix_u = diff_plane(&frame_a.pix_u, &frame_b.pix_u);
        let pix_v = diff_plane(&frame_a.pix_v, &frame_b.pix_v);
        Ok(Yuv { width: frame_a.width, height: frame_a.height, pix_y, pix_u, pix_v })
    }

    /// Whether some sample, padding included, overflows a `u32` when multiplied by `m`.
    pub fn multiplier_overflows(&self, m: u32) -> (r: bool)
        ensures
            r == !self@.fits_multiplier(m),
    {
        plane_overflows(&self.pix_y, m) || plane_overflows(&self.pix_u, m)
            || plane_overflows(&self.pix_v, m)
    }

    /// The frame with every sample, padding included, multiplied by `m` and saturated
    /// at 255.
    pub fn multiplied(self, m: u32) -> (r: Yuv)
        requires
            self@.fits_multiplier(m),
        ensures
            r@ == self@.scaled(m),
            r@.valid(),
    {
        proof {
            use_type_invariant(&self);
        }
        let pix_y = scale_plane(&self.pix_y, m);
        let pix_u = scale_plane(&self.pix_u, m);
        let pix_v = scale_plane(&self.pix_v, m);
        Yuv { width: self.width, height: self.height, pix_y, pix_u, pix_v }
    }

    /// Loads a frame from `data`, the bytes that follow in the file: the visible luma
    /// plane, then the two visible chroma planes. Fails when `data` ends before the
    /// frame does; the planes that it held in full are then already written.
    pub fn read(&mut self, data: &[u8]) -> (r: Result<(), FrameError>)
        ensures
            final(self)@ == old(self)@.loaded(data@),
            final(self)@.valid(),
            r is Ok <==> old(self)@.load_succeeds(data@),
            r matches Err(e) ==> e == FrameError::ShortRead,
    {
        proof {
            use_type_invariant(&*self);
            self.lemma_sizes();
        }
        let yl = self.y_buf_size();
        let ul = self.uv_buf_size();
        if data.len() < yl {
            return Err(FrameError::ShortRead);
        }
        let new_y = overlay_plane(&self.pix_y, data, 0, yl);
        self.pix_y = new_y;
        if data.len() - yl < ul {
            return Err(FrameError::ShortRead);
        }
        let new_u = overlay_plane(&self.pix_u, data, yl, ul);
        self.pix_u = new_u;
        if data.len() - yl - ul < ul {
            return Err(FrameError::ShortRead);
        }
        let new_v = overlay_plane(&self.pix_v, data, yl + ul, ul);
        self.pix_v = new_v;
        Ok(())
    }

    pub fn same_size(&self, other: &Yuv) -> (r: bool)
        ensures
            r == self@.same_size(other@),
    {
        self.width == other.width && self.height == other.height
    }

    pub fn width(&self) -> (r: usize)
        ensures
            r == self@.width,
    {
        self.width
    }

    pub fn height(&self) -> (r: usize)
        ensures
            r == self@.height,
    {
        self.height
    }

    /// Width of the chroma planes.
    pub fn width_uv(&self) -> (r: usize)
        ensures
            r == self@.width / 2,
    {
        self.width / 2
    }

    /// Height of the chroma planes.
    pub fn height_uv(&self) -> (r: usize)
        ensures
            r == self@.height / 2,
    {
        self.height / 2
    }
}

/// The difference of two frames of the same size does not depend on their order.
pub proof fn lemma_abs_diff_symmetric(a: YuvView, b: YuvView)
    requires
        a.same_size(b),
    ensures
        a.abs_diff(b) == b.abs_diff(a),
{
    assert(diff_seq(a.y, b.y) =~= diff_seq(b.y, a.y));
    assert(diff_seq(a.u, b.u) =~= diff_seq(b.u, a.u));
    assert(diff_seq(a.v, b.v) =~= diff_seq(b.v, a.v));
}

/// A frame differs from itself nowhere: every sample of the difference is zero, and
/// the difference is a valid frame of the same size.
pub proof fn lemma_abs_diff_self_zero(a: YuvView)
    requires
        a.valid(),
    ensures
        a.abs_diff(a).valid(),
        a.abs_diff(a).same_size(a),
        a.abs_diff(a).y == Seq::new(a.y.len(), |i: int| 0u8),
        a.abs_diff(a).u == Seq::new(a.u.len(), |i: int| 0u8),
        a.abs_diff(a).v == Seq::new(a.v.len(), |i: int| 0u8),
{
    assert(diff_seq(a.y, a.y) =~= Seq::new(a.y.len(), |i: int| 0u8));
    assert(diff_seq(a.u, a.u) =~= Seq::new(a.u.len(), |i: int| 0u8));
    assert(diff_seq(a.v, a.v) =~= Seq::new(a.v.len(), |i: int| 0u8));
}

/// The difference of two valid frames of the same size is a valid frame of that size.
pub proof fn lemma_abs_diff_valid(a: YuvView, b: YuvView)
    requires
        a.valid(),
        b.valid(),
        a.same_size(b),
    ensures
        a.abs_diff(b).valid(),
        a.abs_diff(b).same_size(a),
{
}

/// Multiplying by one changes nothing, and never overflows.
pub proof fn lemma_scaled_by_one(a: YuvView)
    ensures
        a.fits_multiplier(1),
        a.scaled(1) == a,
{
    assert(scale_seq(a.y, 1) =~= a.y);
    assert(scale_seq(a.u, 1) =~= a.u);
    assert(scale_seq(a.v, 1) =~= a.v);
}

/// Multiplying by zero blanks every sample, and never overflows.
pub proof fn lemma_scaled_by_zero(a: YuvView)
    ensures
        a.fits_multiplier(0),
        a.scaled(0).y == Seq::new(a.y.len(), |i: int| 0u8),
        a.scaled(0).u == Seq::new(a.u.len(), |i: int| 0u8),
        a.scaled(0).v == Seq::new(a.v.len(), |i: int| 0u8),
{
    assert(scale_seq(a.y, 0) =~= Seq::new(a.y.len(), |i: int| 0u8));
    assert(scale_seq(a.u, 0) =~= Seq::new(a.u.len(), |i: int| 0u8));
    assert(scale_seq(a.v, 0) =~= Seq::new(a.v.len(), |i: int| 0u8));
}

/// Loading a whole frame gives back the bytes loaded: the visible luma plane is the
/// first `y_len` bytes, the chroma planes the two following runs of `uv_len` bytes;
/// the padding, the size and the validity of the frame are kept.
pub proof fn lemma_load_round_trip(f: YuvView, data: Seq<u8>)
    requires
        f.valid(),
        f.load_succeeds(data),
    ensures
        f.loaded(data).valid(),
        f.loaded(data).same_size(f),
        f.loaded(data).y.take(f.y_len() as int) == data.take(f.y_len() as int),
        f.loaded(data).u.take(f.uv_len() as int) == data.subrange(f.y_len() as int, (f.y_len() + f.uv_len()) as int),
        f.loaded(data).v.take(f.uv_len() as int) == data.subrange(
            (f.y_len() + f.uv_len()) as int,
            (f.y_len() + 2 * f.uv_len()) as int,
        ),
        f.loaded(data).y.skip(f.y_len() as int) == f.y.skip(f.y_len() as int),
        f.loaded(data).u.skip(f.uv_len() as int) == f.u.skip(f.uv_len() as int),
        f.loaded(data).v.skip(f.uv_len() as int) == f.v.skip(f.uv_len() as int),
{
    let yl = f.y_len() as int;
    let ul = f.uv_len() as int;
    let g = f.loaded(data);
    assert(yl <= f.y.len() && ul <= f.u.len() && ul <= f.v.len()) by (nonlinear_arith)
        requires
            f.valid(),
            yl == f.width * f.height,
            ul == (f.width / 2) * (f.height / 2),
    ;
    assert(g.y.take(yl) =~= data.take(yl));
    assert(g.u.take(ul) =~= data.subrange(yl, yl + ul));
    assert(g.v.take(ul) =~= data.subrange(yl + ul, yl + 2 * ul));
    assert(g.y.skip(yl) =~= f.y.skip(yl));
    assert(g.u.skip(ul) =~= f.u.skip(ul));
    assert(g.v.skip(ul) =~= f.v.skip(ul));
}

/// The difference of two samples is what the smaller lacks to reach the larger.
pub proof fn lemma_abs_diff_sample(a: u8, b: u8)
    ensures
        abs_diff(a, b) == abs_diff(b, a),
        a <= b ==> a + abs_diff(a, b) == b,
        b <= a ==> b + abs_diff(a, b) == a,
{
}

/// A scaled sample is the product when it fits below 255 and 255 otherwise; scaling
/// never lowers a sample for a multiplier of at least one, and is monotone in the sample.
pub proof fn lemma_scale_px_saturates(p: u8, q: u8, m: u32)
    ensures
        p * m < 255 ==> scale_px(p, m) == p * m,
        p * m >= 255 ==> scale_px(p, m) == 255,
        m >= 1 ==> scale_px(p, m) >= p,
        p <= q ==> scale_px(p, m) <= scale_px(q, m),
{
    assert(m >= 1 ==> p * m >= p) by (nonlinear_arith);
    assert(p <= q ==> p * m <= q * m) by (nonlinear_arith);
}

/// Every sample of the difference of two frames of the same size is the difference of
/// the samples at the same place.
pub proof fn lemma_abs_diff_samplewise(a: YuvView, b: YuvView, i: int)
    requires
        a.valid(),
        b.valid(),
        a.same_size(b),
    ensures
        0 <= i < a.y.len() ==> a.abs_diff(b).y[i] == abs_diff(a.y[i], b.y[i]) && a.abs_diff(b).y.len() == a.y.len(),
        0 <= i < a.u.len() ==> a.abs_diff(b).u[i] == abs_diff(a.u[i], b.u[i]) && a.abs_diff(b).u.len() == a.u.len(),
        0 <= i < a.v.len() ==> a.abs_diff(b).v[i] == abs_diff(a.v[i], b.v[i]) && a.abs_diff(b).v.len() == a.v.len(),
{
}

} // verus!
