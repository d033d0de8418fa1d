//! Where a reader of a raw YUV file stands: the frame it holds, the number of that frame
//! and the byte offset after it. The file itself stays with the caller, who hands over
//! its length and the bytes that follow the offset.
use vstd::prelude::*;
use crate::yuv::{Yuv, YuvView, FrameError};

verus! {

/// The position of a reader in a file of frames.
pub struct ReaderView {
    pub frame: YuvView,
    /// Number of the frame held, counted from one; zero before the first frame is read.
    pub frame_cnt: nat,
    /// Byte offset in the file just after the frame held.
    pub cursor: nat,
}

impl ReaderView {
    pub open spec fn fsize(self) -> nat {
        self.frame.frame_size()
    }

    /// The offset is always that of the end of the frame held, and stays within what
    /// a file offset can express.
    pub open spec fn consistent(self) -> bool {
        &&& self.frame.valid()
        &&& self.cursor == self.frame_cnt * self.fsize()
        &&& self.cursor <= i64::MAX
        &&& self.fsize() <= i64::MAX
    }

    /// A whole frame follows the offset in a file of `len` bytes.
    pub open spec fn has_next(self, len: int) -> bool {
        len - self.cursor >= self.fsize()
    }

    /// Reading the frame that follows the offset, from the bytes `data` found there.
    pub open spec fn next_outcome(self, len: int, data: Seq<u8>) -> (ReaderView, Result<(), FrameError>) {
        if !self.has_next(len) {
            (self, Err(FrameError::NotEnoughData))
        } else if self.frame.load_succeeds(data) {
            (
                ReaderView {
                    frame: self.frame.loaded(data),
                    frame_cnt: self.frame_cnt + 1,
                    cursor: self.cursor + self.fsize(),
                },
                Ok(()),
            )
        } else {
            (ReaderView { frame: self.frame.loaded(data), ..self }, Err(FrameError::ShortRead))
        }
    }

    /// Where frame number `n` starts, when the file of `len` bytes holds more than a
    /// frame's worth of bytes from there on.
    pub open spec fn nth_offset(self, n: nat, len: int) -> Result<nat, FrameError> {
        if n == 0 {
            Err(FrameError::FrameNumberZero)
        } else if len - self.fsize() * (n - 1) > self.fsize() {
            Ok(self.fsize() * (n - 1) as nat)
        } else {
            Err(FrameError::NotEnoughData)
        }
    }

    /// Going to frame number `n` and reading it from the bytes `data` found at its start.
    pub open spec fn nth_outcome(self, n: nat, len: int, data: Seq<u8>) -> (ReaderView, Result<(), FrameError>) {
        match self.nth_offset(n, len) {
            Err(e) => (self, Err(e)),
            Ok(loc) => ReaderView { cursor: loc, frame_cnt: (n - 1) as nat, ..self }.next_outcome(len, data),
        }
    }
}

/// A reader's position in a raw YUV file, with the frame it last read.
pub struct YuvReader {
    frame: Yuv,
    frame_cnt: u64,
    cursor: u64,
}

impl View for YuvReader {
    type V = ReaderView;

    closed spec fn view(&self) -> ReaderView {
        ReaderView { frame: self.frame@, frame_cnt: self.frame_cnt as nat, cursor: self.cursor as nat }
    }
}

proof fn lemma_mul_le(a: nat, b: nat, c: nat)
    by (nonlinear_arith)
    requires
        a <= b,
    ensures
        a * c <= b * c,
{
}

proof fn lemma_mul_succ(a: nat, c: nat)
    by (nonlinear_arith)
    ensures
        (a + 1) * c == a * c + c,
{
}

impl YuvReader {
    /// A reader before the first frame of a file of `w` x `h` frames.
    pub fn new(w: usize, h: usize) -> (r: YuvReader)
        requires
            crate::yuv::dims_fit(w as nat, h as nat),
            crate::yuv::spec_frame_size(w as nat, h as nat) <= i64::MAX,
        ensures
            r@.consistent(),
            r@.frame_cnt == 0,
            r@.cursor == 0,
            r@.frame.width == w,
            r@.frame.height == h,
            r@.frame.y == Seq::new(crate::yuv::spec_buf_size_pad(w as nat, h as nat), |i: int| 0u8),
            r@.frame.u == Seq::new(crate::yuv::spec_buf_size_pad((w / 2) as nat, (h / 2) as nat), |i: int| 0u8),
            r@.frame.v == Seq::new(crate::yuv::spec_buf_size_pad((w / 2) as nat, (h / 2) as nat), |i: int| 0u8),
    {
        let frame = Yuv::new(w, h);
        assert(0 * frame@.frame_size() == 0) by (nonlinear_arith);
        YuvReader { frame, frame_cnt: 0, cursor: 0 }
    }

    fn fsize(&self) -> (r: u64)
        requires
            self@.consistent(),
        ensures
            r == self@.fsize(),
    {
        self.frame.file_frame_size() as u64
    }

    /// Whether a whole frame follows the current offset in a file of `file_len` bytes.
    pub fn has_next(&self, file_len: u64) -> (r: bool)
        requires
            self@.consistent(),
            file_len <= i64::MAX,
        ensures
            r == self@.has_next(file_len as int),
    {
        let fsize = self.fsize();
        self.cursor <= file_len && file_len - self.cursor >= fsize
    }

    /// Reads the frame that follows the current offset from `data`, the bytes found
    /// there in a file of `file_len` bytes. Refused when the file holds no whole frame
    /// there; on success the offset and the frame number advance by one frame.
    pub fn next_frame(&mut self, file_len: u64, data: &[u8]) -> (r: Result<(), FrameError>)
        requires
            old(self)@.consistent(),
            file_len <= i64::MAX,
            old(self)@.has_next(file_len as int) ==> old(self)@.frame_cnt < u64::MAX,
        ensures
            (final(self)@, r) == old(self)@.next_outcome(file_len as int, data@),
            final(self)@.consistent(),
    {
        if !self.has_next(file_len) {
            return Err(FrameError::NotEnoughData);
        }
        let fsize = self.fsize();
        let res = self.frame.read(data);
        match res {
            Ok(()) => {
                proof {
                    lemma_mul_succ(self.frame_cnt as nat, fsize as nat);
                }
                self.cursor = self.cursor + fsize;
                self.frame_cnt = self.frame_cnt + 1;
                Ok(())
            },
            Err(e) => Err(e),
        }
    }

    /// The offset at which frame number `n` starts, when a file of `file_len` bytes
    /// holds more than a frame's worth of bytes from there on.
    pub fn seek_position(&self, n: u64, file_len: u64) -> (r: Result<u64, FrameError>)
        requires
            self@.consistent(),
            file_len <= i64::MAX,
            n >= 1 ==> self@.fsize() * (n - 1) <= i64::MAX,
        ensures
            r matches Ok(p) ==> self@.nth_offset(n as nat, file_len as int) == Ok::<nat, FrameError>(p as nat),
            r matches Err(e) ==> self@.nth_offset(n as nat, file_len as int) == Err::<nat, FrameError>(e),
    {
        if n == 0 {
            return Err(FrameError::FrameNumberZero);
        }
        let fsize = self.fsize();
        let loc: u64 = fsize * (n - 1);
        if file_len > loc && file_len - loc > fsize {
            Ok(loc)
        } else {
            Err(FrameError::NotEnoughData)
        }
    }

    /// Goes to frame number `n` of a file of `file_len` bytes and reads it from `data`,
    /// the bytes found where it starts.
    pub fn nth_frame(&mut self, n: u64, file_len: u64, data: &[u8]) -> (r: Result<(), FrameError>)
        requires
            old(self)@.consistent(),
            file_len <= i64::MAX,
            n >= 1 ==> old(self)@.fsize() * (n - 1) <= i64::MAX,
        ensures
            (final(self)@, r) == old(self)@.nth_outcome(n as nat, file_len as int, data@),
            final(self)@.consistent(),
    {
        match self.seek_position(n, file_len) {
            Err(e) => Err(e),
            Ok(loc) => {
                let ghost before = self@;
                proof {
                    let f = before.fsize();
                    let m = (n - 1) as nat;
                    assert(f * m == m * f) by (nonlinear_arith);
                }
                let mut frame = Yuv::new(0, 0);
                std::mem::swap(&mut frame, &mut self.frame);
                *self = YuvReader { frame, frame_cnt: n - 1, cursor: loc };
                assert(self@ == ReaderView { cursor: loc as nat, frame_cnt: (n - 1) as nat, ..before });
                self.next_frame(file_len, data)
            },
        }
    }

    /// Goes back one frame.
    pub fn prev_frame(&mut self, file_len: u64, data: &[u8]) -> (r: Result<(), FrameError>)
        requires
            old(self)@.consistent(),
            file_len <= i64::MAX,
            old(self)@.frame_cnt >= 1,
        ensures
            (final(self)@, r) == old(self)@.nth_outcome((old(self)@.frame_cnt - 1) as nat, file_len as int, data@),
            final(self)@.consistent(),
    {
        let n = self.frame_cnt - 1;
        proof {
            if n >= 1 {
                lemma_mul_le((n - 1) as nat, self.frame_cnt as nat, self@.fsize());
                let f = self@.fsize();
                let m = (n - 1) as nat;
                assert(f * m == m * f) by (nonlinear_arith);
            }
        }
        self.nth_frame(n, file_len, data)
    }

    /// Goes back to the first frame.
    pub fn reset(&mut self, file_len: u64, data: &[u8]) -> (r: Result<(), FrameError>)
        requires
            old(self)@.consistent(),
            file_len <= i64::MAX,
        ensures
            (final(self)@, r) == old(self)@.nth_outcome(1, file_len as int, data@),
            final(self)@.consistent(),
    {
        proof {
            let f = self@.fsize();
            assert(f * (1 - 1) == 0) by (nonlinear_arith);
        }
        self.nth_frame(1, file_len, data)
    }

    /// The frame last read.
    pub fn cur_frame(&self) -> (r: &Yuv)
        ensures
            r@ == self@.frame,
    {
        &self.frame
    }

    /// Number of the frame held, counted from one; zero before the first read.
    pub fn frame_count(&self) -> (r: u64)
        ensures
            r == self@.frame_cnt,
    {
        self.frame_cnt
    }
}

/// Whether both readers have a whole frame ahead, so that the two files can step
/// forward together.
pub fn both_have_next(a: &YuvReader, len_a: u64, b: &YuvReader, len_b: u64) -> (r: bool)
    requires
        a@.consistent(),
        b@.consistent(),
        len_a <= i64::MAX,
        len_b <= i64::MAX,
    ensures
        r == (a@.has_next(len_a as int) && b@.has_next(len_b as int)),
{
    a.has_next(len_a) && b.has_next(len_b)
}

/// Going to frame `n`, when the file holds it and the bytes found there make a whole
/// frame, leaves the reader on frame `n`, with the offset at the end of that frame.
pub proof fn lemma_nth_frame_lands(r: ReaderView, n: nat, len: int, data: Seq<u8>)
    requires
        r.consistent(),
        r.nth_offset(n, len) is Ok,
        r.frame.load_succeeds(data),
    ensures
        r.nth_outcome(n, len, data).1 is Ok,
        r.nth_outcome(n, len, data).0.frame_cnt == n,
        r.nth_outcome(n, len, data).0.cursor == n * r.fsize(),
        r.nth_outcome(n, len, data).0.frame == r.frame.loaded(data),
{
    let f = r.fsize();
    assert(f * (n - 1) + f == n * f) by (nonlinear_arith)
        requires
            n >= 1,
    ;
}

/// Going back to the first frame works exactly when the file holds more than one frame's
/// worth of bytes and the bytes found at its start make a whole frame; the reader is
/// then on frame one, with the offset at the end of it.
pub proof fn lemma_reset_first_frame(r: ReaderView, len: int, data: Seq<u8>)
    requires
        r.consistent(),
    ensures
        r.nth_outcome(1, len, data).1 is Ok <==> len > r.fsize() && r.frame.load_succeeds(data),
        r.nth_outcome(1, len, data).1 is Ok ==> r.nth_outcome(1, len, data).0.frame_cnt == 1
            && r.nth_outcome(1, len, data).0.cursor == r.fsize(),
{
    let f = r.fsize();
    assert(f * (1 - 1) == 0) by (nonlinear_arith);
}

/// Going back one frame after a successful step forward returns the reader to the
/// frame number and offset it had before the step, when frames are not empty and the
/// bytes found at the start of that frame make a whole frame.
pub proof fn lemma_prev_undoes_next(r: ReaderView, len: int, d1: Seq<u8>, d2: Seq<u8>)
    requires
        r.consistent(),
        r.frame_cnt >= 1,
        r.fsize() > 0,
        r.next_outcome(len, d1).1 is Ok,
        r.frame.load_succeeds(d2),
    ensures
        ({
            let r1 = r.next_outcome(len, d1).0;
            let back = r1.nth_outcome((r1.frame_cnt - 1) as nat, len, d2);
            &&& back.1 is Ok
            &&& back.0.frame_cnt == r.frame_cnt
            &&& back.0.cursor == r.cursor
        }),
{
    let f = r.fsize();
    let c = r.frame_cnt;
    assert(f * (c - 1) + f == c * f) by (nonlinear_arith)
        requires
            c >= 1,
    ;
    assert(f * (c - 1) + 2 * f == (c + 1) * f) by (nonlinear_arith)
        requires
            c >= 1,
    ;
}

/// Stepping forward works exactly when a whole frame follows the offset in the file and
/// the bytes handed over hold a whole frame; it then moves on by one frame, to the end of
/// the frame read. When it fails the frame number and offset stay as they were.
pub proof fn lemma_next_steps_one_frame(r: ReaderView, len: int, data: Seq<u8>)
    requires
        r.consistent(),
    ensures
        r.next_outcome(len, data).1 is Ok <==> len >= r.cursor + r.fsize() && data.len() >= r.fsize(),
        r.next_outcome(len, data).1 is Ok ==> {
            &&& r.next_outcome(len, data).0.frame_cnt == r.frame_cnt + 1
            &&& r.next_outcome(len, data).0.cursor == r.cursor + r.fsize()
            &&& r.next_outcome(len, data).0.cursor == (r.frame_cnt + 1) * r.fsize()
        },
        !(r.next_outcome(len, data).1 is Ok) ==> {
            &&& r.next_outcome(len, data).0.frame_cnt == r.frame_cnt
            &&& r.next_outcome(len, data).0.cursor == r.cursor
        },
        r.next_outcome(len, data).0.frame.same_size(r.frame),
{
    lemma_mul_succ(r.frame_cnt, r.fsize());
}

} // verus!
