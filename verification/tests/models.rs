use why_do_you_bot::engine::default_images::get_rand_image;
use why_do_you_bot::models::content_model::ContentModel;
use why_do_you_bot::models::error::HandlerError;
use why_do_you_bot::models::run_options::RunOptions;
use why_do_you_bot::models::text_size_box::{measure_boxes, GlyphBox};
use why_do_you_bot::models::v_data::VData;
use why_do_you_bot::utils::size_utils::aspect_resize;

#[test]
fn handler_error_forms() {
    assert!(HandlerError::empty().message.is_none());
    assert_eq!(
        HandlerError::new(String::from("boom")).message.as_deref(),
        Some("boom")
    );
    assert_eq!(
        HandlerError::from_str("boom").message.as_deref(),
        Some("boom")
    );
    assert!(HandlerError::empty().is_empty());
    assert!(!HandlerError::from_str("x").is_empty());
}

#[test]
fn handler_error_equality() {
    assert_eq!(HandlerError::empty(), HandlerError::empty());
    assert_eq!(HandlerError::from_str("a"), HandlerError::new(String::from("a")));
    assert_ne!(HandlerError::empty(), HandlerError::from_str("a"));
    assert_ne!(HandlerError::from_str("a"), HandlerError::from_str("b"));
}

#[test]
fn content_model_normalizes_its_fields() {
    let item = ContentModel::from(
        7,
        true,
        String::from("Rock,, Roll, "),
        String::from(" My File Name "),
        vec![1, 2, 3],
    );
    assert_eq!(item.id, 0);
    assert_eq!(item.chat_id, 7);
    assert!(item.is_image);
    assert_eq!(item.words, "rock,roll");
    assert_eq!(item.name, "_my_file_name_");
    assert_eq!(item.data, vec![1, 2, 3]);
}

#[test]
fn run_options_carry_the_flag() {
    assert!(RunOptions::new(true).debug);
    assert!(!RunOptions::new(false).debug);
}

#[test]
fn vdata_bytes_reach_the_payload() {
    assert_eq!(VData::Image(vec![1, 2]).bytes(), &vec![1u8, 2]);
    assert_eq!(VData::Video(vec![3]).bytes(), &vec![3u8]);
}

#[test]
fn aspect_resize_picks_the_limiting_axis() {
    // wide source: width limits
    assert_eq!(aspect_resize(2048, 1024, 768, 512), (768, 384));
    // square source into a wide target: height limits
    assert_eq!(aspect_resize(1000, 1000, 768, 512), (512, 512));
    // already fitting ratios scale up as well
    assert_eq!(aspect_resize(10, 10, 768, 512), (512, 512));
}

#[test]
fn aspect_resize_fits_inside_the_target() {
    let (w, h) = aspect_resize(12345, 991, 768, 512);
    assert!(w <= 768 && h <= 512);
    let (w, h) = aspect_resize(3, 4000, 768, 512);
    assert!(w <= 768 && h <= 512);
}

#[test]
fn measure_boxes_accumulates_the_row_geometry() {
    // two glyphs: the row width runs to the right edge of the last box,
    // the height is the tallest max_y + height seen
    let boxes = vec![
        GlyphBox { min_x: 2, min_y: 0, max_x: 10, max_y: 20 },
        GlyphBox { min_x: 12, min_y: 5, max_x: 30, max_y: 18 },
    ];
    let t = measure_boxes(&boxes);
    assert_eq!(t.w, 30);
    assert_eq!(t.h, 40);
}

#[test]
fn measure_boxes_of_nothing_is_zero() {
    let t = measure_boxes(&Vec::new());
    assert_eq!((t.w, t.h), (0, 0));
}

#[test]
fn measure_boxes_clamps_negative_width() {
    let boxes = vec![GlyphBox { min_x: -50, min_y: 0, max_x: -40, max_y: 1 }];
    let t = measure_boxes(&boxes);
    assert_eq!(t.w, 0);
}

#[test]
fn random_default_image_comes_from_the_set() {
    let set = vec![vec![1u8], vec![2u8], vec![3u8]];
    for _ in 0..20 {
        let picked = get_rand_image(&set);
        assert!(set.contains(&picked));
    }
}
