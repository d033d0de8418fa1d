use yuvdiff::yuv::{buf_size, buf_size_pad, FrameError, Yuv};

fn frame_from(w: usize, h: usize, bytes: &[u8]) -> Yuv {
    let mut f = Yuv::new(w, h);
    assert!(f.read(bytes).is_ok());
    f
}

#[test]
fn buf_sizes() {
    assert_eq!(buf_size(4, 2), 8);
    assert_eq!(buf_size_pad(4, 2), 8 + 64);
    assert_eq!(buf_size_pad(0, 7), 0);
    assert_eq!(buf_size(352, 288), 101376);
    assert_eq!(buf_size_pad(176, 144), 176 * 144 + 176 * 16);
}

#[test]
fn new_frame_is_zero_and_padded() {
    let f = Yuv::new(4, 2);
    assert_eq!(f.width(), 4);
    assert_eq!(f.height(), 2);
    assert_eq!(f.width_uv(), 2);
    assert_eq!(f.height_uv(), 1);
    assert_eq!(f.y_frame_pad().len(), 4 * 2 + 4 * 16);
    assert_eq!(f.u_frame_pad().len(), 2 * 1 + 2 * 16);
    assert_eq!(f.v_frame_pad().len(), 2 * 1 + 2 * 16);
    assert_eq!(f.y_frame(), &[0u8; 8][..]);
    assert_eq!(f.u_frame(), &[0u8; 2][..]);
    assert_eq!(f.v_frame(), &[0u8; 2][..]);
    assert!(f.y_frame_pad().iter().all(|p| *p == 0));
    assert_eq!(f.file_frame_size(), 12);
}

#[test]
fn odd_sizes_round_chroma_down() {
    let f = Yuv::new(5, 3);
    assert_eq!(f.width_uv(), 2);
    assert_eq!(f.height_uv(), 1);
    assert_eq!(f.file_frame_size(), 15 + 2 * 2);
    assert_eq!(f.u_frame().len(), 2);
}

#[test]
fn read_fills_visible_planes_in_order() {
    let data: Vec<u8> = (1..=12).collect();
    let f = frame_from(4, 2, &data);
    assert_eq!(f.y_frame(), &data[0..8]);
    assert_eq!(f.u_frame(), &data[8..10]);
    assert_eq!(f.v_frame(), &data[10..12]);
    // the padding is left as it was
    assert!(f.y_frame_pad()[8..].iter().all(|p| *p == 0));
    assert!(f.u_frame_pad()[2..].iter().all(|p| *p == 0));
}

#[test]
fn read_ignores_bytes_after_the_frame() {
    let data: Vec<u8> = (1..=20).collect();
    let f = frame_from(4, 2, &data);
    assert_eq!(f.v_frame(), &[11u8, 12][..]);
}

#[test]
fn short_read_keeps_the_planes_read_so_far() {
    let mut f = Yuv::new(4, 2);
    let data: Vec<u8> = (1..=9).collect();
    assert_eq!(f.read(&data), Err(FrameError::ShortRead));
    assert_eq!(f.y_frame(), &data[0..8]);
    assert_eq!(f.u_frame(), &[0u8, 0][..]);
    let mut g = Yuv::new(4, 2);
    assert_eq!(g.read(&data[0..5]), Err(FrameError::ShortRead));
    assert_eq!(g.y_frame(), &[0u8; 8][..]);
    let mut h = Yuv::new(4, 2);
    assert_eq!(h.read(&[7u8; 11]), Err(FrameError::ShortRead));
    assert_eq!(h.u_frame(), &[7u8, 7][..]);
    assert_eq!(h.v_frame(), &[0u8, 0][..]);
}

#[test]
fn abs_diff_of_frames() {
    let a = frame_from(4, 2, &[10, 20, 30, 40, 50, 60, 70, 80, 1, 2, 3, 255]);
    let b = frame_from(4, 2, &[15, 20, 25, 0, 255, 60, 71, 79, 2, 1, 3, 0]);
    let d = Yuv::from_abs_diff(&a, &b).unwrap();
    assert_eq!(d.y_frame(), &[5u8, 0, 5, 40, 205, 0, 1, 1][..]);
    assert_eq!(d.u_frame(), &[1u8, 1][..]);
    assert_eq!(d.v_frame(), &[0u8, 255][..]);
    assert_eq!(d.width(), 4);
    assert_eq!(d.height(), 2);
    assert_eq!(d.y_frame_pad().len(), a.y_frame_pad().len());
}

#[test]
fn abs_diff_is_symmetric() {
    let a = frame_from(4, 2, &[10, 20, 30, 40, 50, 60, 70, 80, 1, 2, 3, 255]);
    let b = frame_from(4, 2, &[15, 20, 25, 0, 255, 60, 71, 79, 2, 1, 3, 0]);
    let d1 = Yuv::from_abs_diff(&a, &b).unwrap();
    let d2 = Yuv::from_abs_diff(&b, &a).unwrap();
    assert_eq!(d1.y_frame_pad(), d2.y_frame_pad());
    assert_eq!(d1.u_frame_pad(), d2.u_frame_pad());
    assert_eq!(d1.v_frame_pad(), d2.v_frame_pad());
}

#[test]
fn abs_diff_with_itself_is_zero() {
    let a = frame_from(4, 2, &[10, 20, 30, 40, 50, 60, 70, 80, 1, 2, 3, 255]);
    let d = Yuv::from_abs_diff(&a, &a).unwrap();
    assert!(d.y_frame_pad().iter().all(|p| *p == 0));
    assert!(d.u_frame_pad().iter().all(|p| *p == 0));
    assert!(d.v_frame_pad().iter().all(|p| *p == 0));
}

#[test]
fn abs_diff_refuses_other_sizes() {
    let a = Yuv::new(4, 2);
    let b = Yuv::new(2, 4);
    let c = Yuv::new(4, 4);
    assert_eq!(Yuv::from_abs_diff(&a, &b).err(), Some("Sizes differ"));
    assert_eq!(Yuv::from_abs_diff(&a, &c).err(), Some("Sizes differ"));
    assert!(!a.same_size(&b));
    assert!(a.same_size(&Yuv::new(4, 2)));
}

#[test]
fn multiplied_saturates() {
    let a = frame_from(4, 2, &[0, 1, 2, 50, 51, 52, 100, 255, 3, 60, 0, 10]);
    let m = a.multiplied(5);
    assert_eq!(m.y_frame(), &[0u8, 5, 10, 250, 255, 255, 255, 255][..]);
    assert_eq!(m.u_frame(), &[15u8, 255][..]);
    assert_eq!(m.v_frame(), &[0u8, 50][..]);
}

#[test]
fn multiplied_by_one_and_zero() {
    let data = [0u8, 1, 2, 50, 51, 52, 100, 255, 3, 60, 0, 10];
    let one = frame_from(4, 2, &data).multiplied(1);
    assert_eq!(one.y_frame(), &data[0..8]);
    assert_eq!(one.v_frame(), &data[10..12]);
    let zero = frame_from(4, 2, &data).multiplied(0);
    assert!(zero.y_frame_pad().iter().all(|p| *p == 0));
    assert!(zero.u_frame_pad().iter().all(|p| *p == 0));
}

#[test]
fn multiplier_overflow_detection() {
    let a = frame_from(4, 2, &[0, 1, 2, 50, 51, 52, 100, 255, 3, 60, 0, 10]);
    assert!(!a.multiplier_overflows(5));
    assert!(!a.multiplier_overflows(u32::MAX / 255));
    assert!(a.multiplier_overflows(u32::MAX / 255 + 1));
    let z = Yuv::new(4, 2);
    assert!(!z.multiplier_overflows(u32::MAX));
    let big = z.multiplied(u32::MAX);
    assert!(big.y_frame_pad().iter().all(|p| *p == 0));
}

#[test]
fn frame_error_messages() {
    assert_eq!(FrameError::FrameNumberZero.message(), "Frame number needs to be >0");
    assert_eq!(FrameError::NotEnoughData.message(), "Not enough data in file");
    assert_eq!(FrameError::ShortRead.message(), "failed to fill whole buffer");
}
