//! The local media-encoding plan: per-invocation temporary file names, the
//! exact encoder command line, and the cleanup list.
//!
//! Running the encoder process and touching the disk is the binary's work;
//! everything the run needs — which files to write, which arguments to pass,
//! which files to remove on every exit path — is computed and pinned down
//! here.

use vstd::prelude::*;

verus! {

/// Relies on `uuid::Uuid::new_v4` and its hyphenated encoding: a fresh
/// random identifier of exactly 36 characters; nothing else is promised of
/// the outcome.
#[verifier::external_body]
pub fn new_render_id() -> (r: String)
    ensures
        r@.len() == 36,
{
    uuid::Uuid::new_v4().hyphenated().to_string()
}

/// The name of the temporary image file for this invocation.
pub open spec fn image_file_of(id: Seq<char>) -> Seq<char> {
    id + ".jpg"@
}

/// The name of the output video file for this invocation.
pub open spec fn output_file_of(id: Seq<char>) -> Seq<char> {
    id + ".mp4"@
}

/// The name of the temporary audio file for this invocation.
pub open spec fn audio_file_of(id: Seq<char>) -> Seq<char> {
    id + ".mp3"@
}

/// The exact encoder command line: loop one image for the fixed duration,
/// mux with the written audio or the bundled default track, H.264 video
/// tuned for a still image, AAC audio at a fixed bitrate, a widely
/// compatible pixel format.
pub open spec fn encoder_args_of(id: Seq<char>, has_audio: bool) -> Seq<Seq<char>> {
    seq!["ffmpeg"@, "-loop"@, "1"@, "-i"@, image_file_of(id)] + (if has_audio {
        seq!["-i"@, audio_file_of(id)]
    } else {
        seq!["-i"@, "assets/input.mp3"@]
    }) + seq![
        "-c:v"@,
        "libx264"@,
        "-tune"@,
        "stillimage"@,
        "-c:a"@,
        "aac"@,
        "-b:a"@,
        "192k"@,
        "-pix_fmt"@,
        "yuv420p"@,
        "-shortest"@,
        "-t"@,
        "30"@,
        output_file_of(id),
    ]
}

/// One local encoder invocation, fully planned: the files it writes, the
/// command it runs, and the files it removes before returning.
pub struct LocalEncodePlan {
    pub image_file: String,
    pub audio_file: Option<String>,
    pub output_file: String,
    pub args: Vec<String>,
    pub cleanup: Vec<String>,
}

fn concat_id(id: &str, suffix: &str) -> (r: String)
    ensures
        r@ == id@ + suffix@,
{
    let mut s = String::from_str(id);
    s.append(suffix);
    s
}

/// Plan one local encoder invocation from a per-invocation identifier.
///
/// Every temporary file that the plan writes — the frame, the audio if one
/// was supplied — and the output file appear in the cleanup list, so a run
/// that removes the cleanup list on every exit path leaves no file of this
/// invocation behind.
pub fn encode_video_local_plan(id: &str, has_audio: bool) -> (p: LocalEncodePlan)
    ensures
        p.image_file@ == image_file_of(id@),
        p.output_file@ == output_file_of(id@),
        has_audio ==> p.audio_file is Some && p.audio_file.unwrap()@ == audio_file_of(id@),
        !has_audio ==> p.audio_file is None,
        p.args.deep_view() == encoder_args_of(id@, has_audio),
        p.cleanup.deep_view().contains(p.image_file@),
        p.cleanup.deep_view().contains(p.output_file@),
        p.audio_file is Some ==> p.cleanup.deep_view().contains(p.audio_file.unwrap()@),
{
    let jpg_file = concat_id(id, ".jpg");
    let mp4_file = concat_id(id, ".mp4");
    let mp3_file = concat_id(id, ".mp3");

    let mut args: Vec<String> = Vec::new();
    args.push(String::from_str("ffmpeg"));
    args.push(String::from_str("-loop"));
    args.push(String::from_str("1"));
    args.push(String::from_str("-i"));
    args.push(jpg_file.clone());
    args.push(String::from_str("-i"));
    if has_audio {
        args.push(mp3_file.clone());
    } else {
        args.push(String::from_str("assets/input.mp3"));
    }
    args.push(String::from_str("-c:v"));
    args.push(String::from_str("libx264"));
    args.push(String::from_str("-tune"));
    args.push(String::from_str("stillimage"));
    args.push(String::from_str("-c:a"));
    args.push(String::from_str("aac"));
    args.push(String::from_str("-b:a"));
    args.push(String::from_str("192k"));
    args.push(String::from_str("-pix_fmt"));
    args.push(String::from_str("yuv420p"));
    args.push(String::from_str("-shortest"));
    args.push(String::from_str("-t"));
    args.push(String::from_str("30"));
    args.push(mp4_file.clone());
    proof {
        assert(args.deep_view() =~= encoder_args_of(id@, has_audio));
    }

    let mut cleanup: Vec<String> = Vec::new();
    cleanup.push(jpg_file.clone());
    cleanup.push(mp4_file.clone());
    let audio_file: Option<String> = if has_audio {
        cleanup.push(mp3_file.clone());
        Some(mp3_file)
    } else {
        None
    };
    proof {
        assert(cleanup.deep_view()[0] == jpg_file@);
        assert(cleanup.deep_view()[1] == mp4_file@);
        if has_audio {
            assert(cleanup.deep_view()[2] == mp3_file@);
        }
    }

    LocalEncodePlan { image_file: jpg_file, audio_file, output_file: mp4_file, args, cleanup }
}

/// Plan one local encoder invocation under a fresh per-invocation
/// identifier, so that concurrent runs never collide on file names.
pub fn plan_local_encode(has_audio: bool) -> (p: LocalEncodePlan)
    ensures
        exists|id: Seq<char>|
            #![auto]
            id.len() == 36 && p.image_file@ == image_file_of(id) && p.output_file@
                == output_file_of(id) && p.args.deep_view() == encoder_args_of(id, has_audio) && (
            has_audio ==> p.audio_file is Some && p.audio_file.unwrap()@ == audio_file_of(id)) && (
            !has_audio ==> p.audio_file is None),
        p.cleanup.deep_view().contains(p.image_file@),
        p.cleanup.deep_view().contains(p.output_file@),
        p.audio_file is Some ==> p.cleanup.deep_view().contains(p.audio_file.unwrap()@),
{
    let id = new_render_id();
    let p = encode_video_local_plan(id.as_str(), has_audio);
    proof {
        assert(id@.len() == 36 && p.image_file@ == image_file_of(id@) && p.output_file@
            == output_file_of(id@) && p.args.deep_view() == encoder_args_of(id@, has_audio) && (
        has_audio ==> p.audio_file is Some && p.audio_file.unwrap()@ == audio_file_of(id@)) && (
        !has_audio ==> p.audio_file is None));
    }
    p
}

} // verus!
