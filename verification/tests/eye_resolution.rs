use jc3vrs::eye_resolution::{
    align_up, aligned_eye_size, engine_render_resolution, native_eye_resolution,
    EYE_WIDTH_ALIGNMENT,
};

#[test]
fn align_up_rounds_upward_and_saturates() {
    assert_eq!(align_up(1, 64), 64);
    assert_eq!(align_up(64, 64), 64);
    assert_eq!(align_up(65, 64), 128);
    assert_eq!(align_up(u32::MAX, 64), u32::MAX);
}

#[test]
fn aligned_width_doubles_to_whole_tile_columns() {
    for recommended in [1u32, 2015, 2016, 2048, 1080, 1440, 4095] {
        let (width, height) = aligned_eye_size(recommended, 1000);
        assert_eq!((width * 2) % (2 * EYE_WIDTH_ALIGNMENT), 0);
        assert!(width >= recommended);
        assert_eq!(height, 1000);
    }
    assert_eq!(aligned_eye_size(2015, 0), (2048, 1));
    assert_eq!(aligned_eye_size(0, 7), (64, 7));
}

#[test]
fn native_resolution_only_while_running() {
    assert_eq!(native_eye_resolution(false, Some((2048, 2000))), None);
    assert_eq!(native_eye_resolution(true, Some((2048, 2000))), Some((2048, 2000)));
    assert_eq!(native_eye_resolution(true, None), None);
}

#[test]
fn double_wide_doubles_the_width_and_saturates() {
    assert_eq!(engine_render_resolution(Some((2048, 2000)), true), Some((4096, 2000)));
    assert_eq!(engine_render_resolution(Some((2048, 2000)), false), Some((2048, 2000)));
    assert_eq!(engine_render_resolution(Some((u32::MAX - 1, 5)), true), Some((u32::MAX, 5)));
    assert_eq!(engine_render_resolution(None, true), None);
}
