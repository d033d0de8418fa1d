use yuvdiff::layout::{
    grid_lines, neutral_chroma_plane, uv_len, uv_len_half, view_layout, window_size, zoom_layout, Plane,
    ZOOMED,
};
use yuvdiff::ui::{Channel, UiSettings};
use yuvdiff::yuv::{buf_size_pad, Yuv};

#[test]
fn window_is_frame_plus_zoom() {
    assert_eq!(ZOOMED, 256);
    assert_eq!(window_size(352, 288), (608, 288));
    assert_eq!(window_size(176, 144), (432, 256));
    assert_eq!(window_size(0, 256), (256, 256));
}

#[test]
fn chroma_lengths() {
    assert_eq!(uv_len(352, 288), 176 * 144);
    assert_eq!(uv_len_half(352, 288), 176 * 144 / 4);
    assert_eq!(uv_len(5, 3), 2);
    assert_eq!(uv_len_half(5, 3), 0);
}

#[test]
fn neutral_plane_is_grey_and_padded() {
    let p = neutral_chroma_plane(352, 288);
    assert_eq!(p.len(), buf_size_pad(176, 144));
    assert!(p.iter().all(|b| *b == 128));
}

#[test]
fn grid_lines_are_multiples_below_the_limit() {
    assert_eq!(grid_lines(16, 64), vec![16, 32, 48]);
    assert_eq!(grid_lines(16, 65), vec![16, 32, 48, 64]);
    assert_eq!(grid_lines(16, 16), Vec::<i32>::new());
    assert_eq!(grid_lines(16, 0), Vec::<i32>::new());
    assert_eq!(grid_lines(16, -5), Vec::<i32>::new());
    assert_eq!(grid_lines(7, 22), vec![7, 14, 21]);
}

#[test]
fn zoom_of_luma_channels() {
    let mut s = UiSettings::defaults();
    s.mblock_set(40, 20);
    let z = zoom_layout(&s, 352);
    assert_eq!((z.y_start, z.y_end), (32 + 16 * 352, 32 + 16 * 352 + 16 * 352));
    assert_eq!((z.uv_start, z.uv_end), (16 + 8 * 176, 16 + 8 * 176 + 8 * 176));
    assert_eq!(z.pitch, 352);
    assert_eq!((z.zoom_w, z.zoom_h), (16, 16));
}

#[test]
fn zoom_of_chroma_channels() {
    let mut s = UiSettings::defaults();
    s.show_channel(Channel::V);
    s.mblock_set(40, 20);
    let z = zoom_layout(&s, 352);
    assert_eq!((z.y_start, z.y_end), (16 + 8 * 176, 16 + 8 * 176 + 8 * 176));
    assert_eq!((z.uv_start, z.uv_end), (8 + 4 * 88, 8 + 4 * 88 + 4 * 88));
    assert_eq!(z.pitch, 176);
    assert_eq!((z.zoom_w, z.zoom_h), (8, 8));
}

#[test]
fn view_layout_per_channel() {
    let mut s = UiSettings::defaults();
    let l = view_layout(&s, 352, 288, 352, 288);
    assert_eq!(l.luma, Plane::Y);
    assert!(l.neutral_chroma);
    assert_eq!((l.tex_w, l.tex_h), (352, 288));
    assert_eq!(l.neutral_len, 176 * 144);
    s.show_channel(Channel::YUV);
    let l = view_layout(&s, 352, 288, 352, 288);
    assert_eq!(l.luma, Plane::Y);
    assert!(!l.neutral_chroma);
    s.show_channel(Channel::U);
    let l = view_layout(&s, 352, 288, 352, 288);
    assert_eq!(l.luma, Plane::U);
    assert!(l.neutral_chroma);
    assert_eq!((l.tex_w, l.tex_h), (176, 144));
    assert_eq!(l.neutral_len, 176 * 144 / 4);
    s.show_channel(Channel::V);
    assert_eq!(view_layout(&s, 352, 288, 352, 288).luma, Plane::V);
}

#[test]
fn zoom_of_the_last_macroblock_fits_the_planes() {
    let f = Yuv::new(352, 288);
    let grey = neutral_chroma_plane(352, 288);
    for ch in [Channel::YUV, Channel::Y, Channel::U, Channel::V] {
        let mut s = UiSettings::defaults();
        s.show_channel(ch);
        s.mblock_set(351, 287);
        let z = zoom_layout(&s, 352);
        let luma_len = match ch {
            Channel::YUV | Channel::Y => f.y_frame_pad().len(),
            _ => f.u_frame_pad().len(),
        };
        assert!(z.y_end <= luma_len);
        assert!(z.uv_end <= f.u_frame_pad().len());
        assert!(z.uv_end <= grey.len());
    }
}
