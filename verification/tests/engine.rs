use why_do_you_bot::engine::engine::{
    build_message, choose_encoder, create_image, evaluate_trigger, finish_render,
    remote_encode_plan, EncoderKind, EngineConfig,
};
use why_do_you_bot::models::error::HandlerError;
use image::GenericImageView;
use why_do_you_bot::models::v_data::VData;

fn sample_jpeg(w: u32, h: u32) -> Vec<u8> {
    let img = image::RgbImage::from_pixel(w, h, image::Rgb([40u8, 90u8, 160u8]));
    let mut out: Vec<u8> = Vec::new();
    let mut enc = image::codecs::jpeg::JpegEncoder::new(&mut out);
    enc.encode(img.as_raw(), w, h, image::ColorType::Rgb8)
        .expect("jpeg encoding failed");
    out
}

fn test_config() -> EngineConfig {
    EngineConfig {
        trigger_words: Vec::new(),
        default_images: vec![sample_jpeg(320, 200)],
        font_bytes: ttf_noto_sans::REGULAR.to_vec(),
        scale: rusttype::Scale::uniform(64.0),
    }
}

#[test]
fn engine_not_match() {
    let words: Option<String> = Some(String::from("test"));
    let image_handler = || None;
    let audio_handler = || None;
    let encoder = |_frame: Vec<u8>, _audio: Option<Vec<u8>>| Err(HandlerError::empty());
    let cfg = test_config();
    match build_message("wow", words, image_handler, audio_handler, encoder, &cfg) {
        Ok(_) => {
            panic!("Can't be Ok(_)")
        }
        Err(err) => {
            assert_eq!(err, HandlerError::empty())
        }
    }
}

#[test]
fn engine_match() {
    let words: Option<String> = Some(String::from("test"));

    let mut image_handler_called = false;
    let mut audio_handler_called = false;
    let image_handler = || {
        image_handler_called = true;
        None
    };
    let audio_handler = || {
        audio_handler_called = true;
        None
    };
    // both encoders failing is modelled by an encoding step that errors out
    let encoder = |_frame: Vec<u8>, _audio: Option<Vec<u8>>| Err(HandlerError::empty());

    let cfg = test_config();
    match build_message("test", words, image_handler, audio_handler, encoder, &cfg) {
        Ok(v_data) => match v_data {
            VData::Image(c) => {
                assert!(c.len() > 0, "Image is empty");
            }
            VData::Video(_) => {
                panic!("Can't be Video(_)")
            }
        },
        Err(_) => {
            panic!("Can't be Err(_)")
        }
    }
    assert!(image_handler_called, "Image handler was not called");
    assert!(audio_handler_called, "Audio handler was not called");
}

#[test]
fn lookups_are_skipped_when_no_trigger_matches() {
    let mut image_handler_called = false;
    let mut audio_handler_called = false;
    let cfg = test_config();
    let r = build_message(
        "nothing here",
        Some(String::from("qqq")),
        || {
            image_handler_called = true;
            None
        },
        || {
            audio_handler_called = true;
            None
        },
        |_f: Vec<u8>, _a: Option<Vec<u8>>| Err(HandlerError::empty()),
        &cfg,
    );
    assert!(r.is_err());
    assert!(!image_handler_called, "image lookup must be deferred");
    assert!(!audio_handler_called, "audio lookup must be deferred");
}

#[test]
fn audio_lookup_is_skipped_when_compose_fails() {
    let mut audio_handler_called = false;
    let cfg = test_config();
    // the custom image cannot be decoded, so composing fails before any
    // audio is fetched
    let r = build_message(
        "test",
        Some(String::from("test")),
        || Some(vec![0u8, 1, 2, 3]),
        || {
            audio_handler_called = true;
            None
        },
        |_f: Vec<u8>, _a: Option<Vec<u8>>| Err(HandlerError::empty()),
        &cfg,
    );
    let err = r.unwrap_err();
    assert!(err.message.is_some());
    assert!(!audio_handler_called, "audio lookup must follow a successful compose");
}

#[test]
fn composed_frame_has_the_canvas_dimensions() {
    let cfg = test_config();
    let out = create_image(
        "round trip",
        sample_jpeg(640, 360),
        &cfg.font_bytes,
        cfg.scale,
    )
    .expect("compose failed");
    let decoded = image::load_from_memory(&out).expect("output is not a decodable image");
    assert_eq!(decoded.dimensions(), (1024, 1024));
    // the dimensions sit big-endian at their fixed header offsets
    assert_eq!(&out[16..20], &[0u8, 0, 4, 0]);
    assert_eq!(&out[20..24], &[0u8, 0, 4, 0]);
}

#[test]
fn oversized_text_geometry_is_the_pinned_error() {
    // at an absurd text scale the measured rows no longer fit the canvas,
    // and the compose fails with the coordinate-conversion message
    let cfg = test_config();
    let err = create_image(
        "WWWW WWWW WWWW",
        sample_jpeg(64, 64),
        &cfg.font_bytes,
        rusttype::Scale::uniform(5000.0),
    )
    .unwrap_err();
    assert_eq!(err.message.as_deref(), Some("Can not convert value to int!!"));
}

#[test]
fn composed_frame_places_the_resized_image() {
    // a wide red source must be scaled down to 768x384 and centered:
    // x in [128, 896), y in [192, 576) on the canvas
    let w = 2048u32;
    let h = 1024u32;
    let img = image::RgbImage::from_pixel(w, h, image::Rgb([255u8, 0u8, 0u8]));
    let mut red_jpeg: Vec<u8> = Vec::new();
    let mut enc = image::codecs::jpeg::JpegEncoder::new(&mut red_jpeg);
    enc.encode(img.as_raw(), w, h, image::ColorType::Rgb8)
        .expect("jpeg encoding failed");

    let cfg = test_config();
    let out = create_image("", red_jpeg, &cfg.font_bytes, cfg.scale).expect("compose failed");
    let decoded = image::load_from_memory(&out).unwrap().to_rgb8();
    // inside the resized image band: red
    assert!(decoded.get_pixel(500, 300)[0] > 200);
    assert!(decoded.get_pixel(160, 210)[0] > 200);
    // below the band: still the blank canvas
    assert!(decoded.get_pixel(950, 600)[0] < 50);
    assert!(decoded.get_pixel(500, 100)[0] < 50);
}

#[test]
fn compose_handles_long_texts_and_line_breaks() {
    let cfg = test_config();
    let long_text = "one two three four five six seven eight nine ten \
                     eleven twelve thirteen fourteen fifteen sixteen seventeen";
    let out = create_image(long_text, sample_jpeg(100, 100), &cfg.font_bytes, cfg.scale)
        .expect("compose failed");
    let decoded = image::load_from_memory(&out).unwrap();
    assert_eq!(decoded.dimensions(), (1024, 1024));

    let out = create_image("first\nsecond\nthird", sample_jpeg(100, 100), &cfg.font_bytes, cfg.scale)
        .expect("compose failed");
    let decoded = image::load_from_memory(&out).unwrap();
    assert_eq!(decoded.dimensions(), (1024, 1024));
}

#[test]
fn compose_rejects_unusable_font() {
    let err = create_image(
        "text",
        sample_jpeg(64, 64),
        &vec![1u8, 2, 3],
        rusttype::Scale::uniform(64.0),
    )
    .unwrap_err();
    assert_eq!(err.message.as_deref(), Some("Can not instantiate font"));
}

#[test]
fn compose_rejects_undecodable_image() {
    let err = create_image(
        "text",
        vec![0u8, 1, 2, 3],
        &ttf_noto_sans::REGULAR.to_vec(),
        rusttype::Scale::uniform(64.0),
    )
    .unwrap_err();
    assert!(err.message.is_some());
}

#[test]
fn scope_words_match_is_case_insensitive() {
    let custom = Some(String::from("Test"));
    let none_words: Vec<String> = Vec::new();
    let r = evaluate_trigger("a test here", &custom, &none_words);
    assert_eq!(r.unwrap(), "a test here");
    let custom = Some(String::from("Test"));
    let r = evaluate_trigger("ALL CAPS TEST", &custom, &none_words);
    assert_eq!(r.unwrap(), "ALL CAPS TEST");
}

#[test]
fn scope_words_payload_is_the_full_message() {
    let custom = Some(String::from("qqq,www"));
    let none_words: Vec<String> = Vec::new();
    let r = evaluate_trigger("a message with qqq inside", &custom, &none_words);
    assert_eq!(r.unwrap(), "a message with qqq inside");
}

#[test]
fn scope_words_no_match_is_silent() {
    let custom = Some(String::from("qqq,www"));
    let none_words: Vec<String> = Vec::new();
    let err = evaluate_trigger("nothing to see", &custom, &none_words).unwrap_err();
    assert!(err.message.is_none());
}

#[test]
fn blank_scope_list_falls_through_to_the_static_list() {
    let custom = Some(String::from(",,"));
    let words = vec![String::from("funky")];
    let r = evaluate_trigger("such a funky day", &custom, &words);
    assert_eq!(r.unwrap(), "such a funky day");
}

#[test]
fn blank_scope_and_static_lists_reach_the_command_mode() {
    let custom = Some(String::from(""));
    let none_words: Vec<String> = Vec::new();
    let r = evaluate_trigger("/gen hi", &custom, &none_words);
    assert_eq!(r.unwrap(), "hi");
    let custom = Some(String::from(""));
    let err = evaluate_trigger("hello", &custom, &none_words).unwrap_err();
    assert_eq!(err.message.as_deref(), Some("Invalid command"));
}

#[test]
fn blank_static_list_reaches_the_command_mode() {
    let words = vec![String::from(""), String::from("")];
    let r = evaluate_trigger("/gen x", &None, &words);
    assert_eq!(r.unwrap(), "x");
}

#[test]
fn static_words_match_the_message() {
    let words = vec![String::from("FuNkY"), String::from("beat")];
    let r = evaluate_trigger("such a funky day", &None, &words);
    assert_eq!(r.unwrap(), "such a funky day");
    let err = evaluate_trigger("a plain day", &None, &words).unwrap_err();
    assert!(err.message.is_none());
}

#[test]
fn gen_command_extracts_payload() {
    let none_words: Vec<String> = Vec::new();
    let r = evaluate_trigger("/gen hello world", &None, &none_words);
    assert_eq!(r.unwrap(), "hello world");
}

#[test]
fn gen_command_allows_empty_payload() {
    let none_words: Vec<String> = Vec::new();
    let r = evaluate_trigger("/gen ", &None, &none_words);
    assert_eq!(r.unwrap(), "");
}

#[test]
fn gen_command_payload_stops_at_line_end() {
    let none_words: Vec<String> = Vec::new();
    let r = evaluate_trigger("/gen first line\nsecond", &None, &none_words);
    assert_eq!(r.unwrap(), "first line");
}

#[test]
fn missing_gen_command_is_malformed_input() {
    let none_words: Vec<String> = Vec::new();
    let err = evaluate_trigger("hello", &None, &none_words).unwrap_err();
    assert_eq!(err.message.as_deref(), Some("Invalid command"));
}

#[test]
fn encoder_failure_degrades_to_the_still_image() {
    let frame = vec![9u8, 8, 7];
    let v = finish_render(frame.clone(), Err(HandlerError::empty()));
    match v {
        VData::Image(b) => assert_eq!(b, frame),
        VData::Video(_) => panic!("Can't be Video(_)"),
    }
}

#[test]
fn encoder_success_yields_video() {
    let frame = vec![9u8, 8, 7];
    let video = vec![1u8, 2, 3];
    let v = finish_render(frame, Ok(video.clone()));
    match v {
        VData::Video(b) => assert_eq!(b, video),
        VData::Image(_) => panic!("Can't be Image(_)"),
    }
}

#[test]
fn local_encoder_is_preferred() {
    assert!(matches!(choose_encoder(true), EncoderKind::Local));
    assert!(matches!(choose_encoder(false), EncoderKind::Remote));
}

#[test]
fn remote_plan_names_the_multipart_fields() {
    let p = remote_encode_plan(true);
    assert_eq!(p.image_part_name, "data");
    assert_eq!(p.image_file_name, "data.png");
    let (part, file) = p.audio_part.unwrap();
    assert_eq!(part, "audio");
    assert_eq!(file, "audio.mp3");
    assert_eq!(p.timeout_secs, 300);
    let p = remote_encode_plan(false);
    assert!(p.audio_part.is_none());
}
