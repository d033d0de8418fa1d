use yuvdiff::reader::{both_have_next, YuvReader};
use yuvdiff::yuv::FrameError;

/// A file of `n` frames of 4 x 2 samples (12 bytes each); every byte of frame `k`
/// (counted from one) is `k`.
fn file_of(n: u8) -> Vec<u8> {
    let mut v = Vec::new();
    for k in 1..=n {
        v.extend(std::iter::repeat(k).take(12));
    }
    v
}

fn at(file: &[u8], pos: u64) -> &[u8] {
    &file[(pos as usize).min(file.len())..]
}

#[test]
fn new_reader_is_before_the_first_frame() {
    let r = YuvReader::new(4, 2);
    assert_eq!(r.frame_count(), 0);
    assert_eq!(r.cur_frame().width(), 4);
    assert_eq!(r.cur_frame().height(), 2);
    assert!(r.cur_frame().y_frame().iter().all(|p| *p == 0));
}

#[test]
fn has_next_needs_a_whole_frame() {
    let r = YuvReader::new(4, 2);
    assert!(r.has_next(12));
    assert!(r.has_next(13));
    assert!(!r.has_next(11));
    assert!(!r.has_next(0));
}

#[test]
fn next_frame_steps_through_the_file() {
    let file = file_of(3);
    let len = file.len() as u64;
    let mut r = YuvReader::new(4, 2);
    assert_eq!(r.next_frame(len, at(&file, 0)), Ok(()));
    assert_eq!(r.frame_count(), 1);
    assert_eq!(r.cur_frame().y_frame(), &[1u8; 8][..]);
    assert_eq!(r.next_frame(len, at(&file, 12)), Ok(()));
    assert_eq!(r.frame_count(), 2);
    assert_eq!(r.cur_frame().v_frame(), &[2u8; 2][..]);
    assert_eq!(r.next_frame(len, at(&file, 24)), Ok(()));
    assert_eq!(r.frame_count(), 3);
    assert!(!r.has_next(len));
    assert_eq!(r.next_frame(len, at(&file, 36)), Err(FrameError::NotEnoughData));
    assert_eq!(r.frame_count(), 3);
    assert_eq!(r.cur_frame().y_frame(), &[3u8; 8][..]);
}

#[test]
fn next_frame_short_read_keeps_position() {
    let mut r = YuvReader::new(4, 2);
    assert_eq!(r.next_frame(12, &[9u8; 10]), Err(FrameError::ShortRead));
    assert_eq!(r.frame_count(), 0);
    assert!(r.has_next(12));
    assert_eq!(r.cur_frame().y_frame(), &[9u8; 8][..]);
}

#[test]
fn seek_positions() {
    let r = YuvReader::new(4, 2);
    assert_eq!(r.seek_position(0, 36), Err(FrameError::FrameNumberZero));
    assert_eq!(r.seek_position(1, 36), Ok(0));
    assert_eq!(r.seek_position(2, 36), Ok(12));
    // the last frame of the file is out of reach: more than a frame must follow
    assert_eq!(r.seek_position(3, 36), Err(FrameError::NotEnoughData));
    assert_eq!(r.seek_position(3, 37), Ok(24));
    assert_eq!(r.seek_position(4, 36), Err(FrameError::NotEnoughData));
}

#[test]
fn nth_frame_lands_on_the_frame() {
    let file = file_of(3);
    let len = file.len() as u64;
    let mut r = YuvReader::new(4, 2);
    assert_eq!(r.nth_frame(2, len, at(&file, 12)), Ok(()));
    assert_eq!(r.frame_count(), 2);
    assert_eq!(r.cur_frame().u_frame(), &[2u8; 2][..]);
    assert!(r.has_next(len));
    assert_eq!(r.nth_frame(0, len, at(&file, 0)), Err(FrameError::FrameNumberZero));
    assert_eq!(r.frame_count(), 2);
    assert_eq!(r.nth_frame(3, len, at(&file, 24)), Err(FrameError::NotEnoughData));
    assert_eq!(r.frame_count(), 2);
}

#[test]
fn nth_frame_short_read_moves_before_the_frame() {
    let file = file_of(3);
    let mut r = YuvReader::new(4, 2);
    assert_eq!(r.nth_frame(2, 36, &file[12..15]), Err(FrameError::ShortRead));
    assert_eq!(r.frame_count(), 1);
    assert!(r.has_next(36));
}

#[test]
fn prev_undoes_next() {
    let file = file_of(3);
    let len = file.len() as u64;
    let mut r = YuvReader::new(4, 2);
    assert_eq!(r.next_frame(len, at(&file, 0)), Ok(()));
    assert_eq!(r.next_frame(len, at(&file, 12)), Ok(()));
    assert_eq!(r.frame_count(), 2);
    assert_eq!(r.prev_frame(len, at(&file, 0)), Ok(()));
    assert_eq!(r.frame_count(), 1);
    assert_eq!(r.cur_frame().y_frame(), &[1u8; 8][..]);
    assert!(r.has_next(len));
}

#[test]
fn prev_from_first_frame_is_refused() {
    let file = file_of(3);
    let len = file.len() as u64;
    let mut r = YuvReader::new(4, 2);
    assert_eq!(r.next_frame(len, at(&file, 0)), Ok(()));
    assert_eq!(r.prev_frame(len, at(&file, 0)), Err(FrameError::FrameNumberZero));
    assert_eq!(r.frame_count(), 1);
}

#[test]
fn reset_goes_to_the_first_frame() {
    let file = file_of(3);
    let len = file.len() as u64;
    let mut r = YuvReader::new(4, 2);
    assert_eq!(r.next_frame(len, at(&file, 0)), Ok(()));
    assert_eq!(r.next_frame(len, at(&file, 12)), Ok(()));
    assert_eq!(r.next_frame(len, at(&file, 24)), Ok(()));
    assert_eq!(r.reset(len, at(&file, 0)), Ok(()));
    assert_eq!(r.frame_count(), 1);
    assert_eq!(r.cur_frame().y_frame(), &[1u8; 8][..]);
    // a file of a single frame cannot be reset to
    let one = file_of(1);
    let mut s = YuvReader::new(4, 2);
    assert_eq!(s.reset(12, &one), Err(FrameError::NotEnoughData));
    assert_eq!(s.frame_count(), 0);
}

#[test]
fn both_readers_must_have_a_frame() {
    let a = YuvReader::new(4, 2);
    let b = YuvReader::new(4, 2);
    assert!(both_have_next(&a, 12, &b, 24));
    assert!(!both_have_next(&a, 12, &b, 11));
    assert!(!both_have_next(&a, 5, &b, 24));
}
