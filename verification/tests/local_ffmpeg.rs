use why_do_you_bot::engine::local_ffmpeg::{encode_video_local_plan, new_render_id};

#[test]
fn plan_without_audio_uses_the_bundled_track() {
    let p = encode_video_local_plan("job", false);
    assert_eq!(p.image_file, "job.jpg");
    assert_eq!(p.output_file, "job.mp4");
    assert!(p.audio_file.is_none());
    let expected: Vec<&str> = vec![
        "ffmpeg",
        "-loop",
        "1",
        "-i",
        "job.jpg",
        "-i",
        "assets/input.mp3",
        "-c:v",
        "libx264",
        "-tune",
        "stillimage",
        "-c:a",
        "aac",
        "-b:a",
        "192k",
        "-pix_fmt",
        "yuv420p",
        "-shortest",
        "-t",
        "30",
        "job.mp4",
    ];
    assert_eq!(p.args, expected);
}

#[test]
fn plan_with_audio_writes_and_muxes_the_audio_file() {
    let p = encode_video_local_plan("job", true);
    assert_eq!(p.audio_file.as_deref(), Some("job.mp3"));
    assert_eq!(p.args[5], "-i");
    assert_eq!(p.args[6], "job.mp3");
}

#[test]
fn cleanup_covers_every_written_file_and_the_output() {
    let with_audio = encode_video_local_plan("xyz", true);
    assert!(with_audio.cleanup.contains(&with_audio.image_file));
    assert!(with_audio.cleanup.contains(&with_audio.output_file));
    assert!(with_audio
        .cleanup
        .contains(with_audio.audio_file.as_ref().unwrap()));
    let without_audio = encode_video_local_plan("xyz", false);
    assert!(without_audio.cleanup.contains(&without_audio.image_file));
    assert!(without_audio.cleanup.contains(&without_audio.output_file));
}

#[test]
fn render_ids_have_the_hyphenated_shape() {
    let id = new_render_id();
    assert_eq!(id.chars().count(), 36);
    let other = new_render_id();
    assert_ne!(id, other);
}
