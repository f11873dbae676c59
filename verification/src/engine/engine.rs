//! Engine
//!
//! Checking text for finding trigger words and creating a meme quote from a
//! custom (or random) image and sound.

use vstd::prelude::*;

use crate::engine::default_images::get_rand_image;
use crate::engine::raster::{
    decode_jpeg, draw_row, encode_png, font_loads, jpeg_rgb_dims_of, load_font, new_canvas,
    overlay_frame, png_height_of, png_width_of, resize_frame,
};
use crate::models::error::HandlerError;
use crate::models::text_size_box::TextSizeBox;
use crate::models::v_data::VData;
use crate::utils::size_utils::aspect_resize;
use crate::utils::string_utils::{
    batch, batch_budget_ok, batch_spec, contains_in, find_first, find_line_end, first_occurrence,
    lemma_first_occurrence_props, line_end_from, lower_of, matched_words, seq_contains,
    split_chars, split_str, str_contains, to_lower,
};

verus! {

pub const IMAGE_SIZE: u32 = 1024;

pub const PHOTO_W: u32 = 768;

pub const PHOTO_H: u32 = 512;

pub const PADDING: u32 = 128;

pub const STRING_BATCH_SIZE: usize = 30;

pub const MAX_ROWS: usize = 6;

pub const FONT_H: u32 = 50;

/// The process-wide read-only configuration: static trigger words, bundled
/// default images, the font asset, and the text scale.
pub struct EngineConfig {
    pub trigger_words: Vec<String>,
    pub default_images: Vec<Vec<u8>>,
    pub font_bytes: Vec<u8>,
    pub scale: rusttype::Scale,
}

// ---------------------------------------------------------------------------
// Trigger evaluation
// ---------------------------------------------------------------------------
/// A scope-specific comma-separated word list matches the message: some
/// non-empty word of it occurs, case-insensitively, in the message.
pub open spec fn custom_matches(words: Seq<char>, message: Seq<char>) -> bool {
    matched_words(words, message).len() > 0
}

/// The static trigger-word list matches the message: some word of it is
/// non-empty after case folding and occurs in the case-folded message.
pub open spec fn static_matches(trigger_words: Seq<Seq<char>>, message: Seq<char>) -> bool {
    exists|i: int|
        0 <= i < trigger_words.len() && lower_of(#[trigger] trigger_words[i]).len() > 0
            && seq_contains(lower_of(message), lower_of(trigger_words[i]))
}

proof fn lemma_filter_nonempty_iff_exists<A>(s: Seq<A>, pred: spec_fn(A) -> bool)
    ensures
        (s.filter(pred).len() > 0) == (exists|i: int| 0 <= i < s.len() && pred(#[trigger] s[i])),
    decreases s.len(),
{
    reveal(Seq::filter);
    if s.len() > 0 {
        lemma_filter_nonempty_iff_exists(s.drop_last(), pred);
        if pred(s.last()) {
            assert(pred(s[s.len() - 1]));
        } else {
            assert forall|i: int| 0 <= i < s.len() && pred(#[trigger] s[i]) implies exists|j: int|
                0 <= j < s.drop_last().len() && pred(#[trigger] s.drop_last()[j]) by {
                assert(s.drop_last()[i] == s[i]);
            }
            assert forall|j: int|
                0 <= j < s.drop_last().len() && pred(#[trigger] s.drop_last()[j]) implies exists|
                i: int,
            | 0 <= i < s.len() && pred(#[trigger] s[i]) by {
                assert(s[j] == s.drop_last()[j]);
            }
        }
    }
}

/// Trigger matching is case-insensitive: whether a word list matches a
/// message depends only on the message's case-folded form, for the
/// scope-specific list and the static list alike.
pub proof fn lemma_trigger_case_insensitive(
    words: Seq<char>,
    trigger_words: Seq<Seq<char>>,
    m1: Seq<char>,
    m2: Seq<char>,
)
    requires
        lower_of(m1) == lower_of(m2),
    ensures
        custom_matches(words, m1) == custom_matches(words, m2),
        static_matches(trigger_words, m1) == static_matches(trigger_words, m2),
{
    let parts = split_chars(lower_of(words), ',');
    lemma_filter_nonempty_iff_exists(
        parts,
        |w: Seq<char>| w.len() > 0 && seq_contains(lower_of(m1), w),
    );
    lemma_filter_nonempty_iff_exists(
        parts,
        |w: Seq<char>| w.len() > 0 && seq_contains(lower_of(m2), w),
    );
}

/// The payload of an explicit command: everything after the first
/// `"/gen "` up to the end of that line, or nothing when the command
/// shape is absent.
pub open spec fn gen_payload(message: Seq<char>) -> Option<Seq<char>> {
    match first_occurrence(message, "/gen "@, 0) {
        Option::None => Option::None,
        Option::Some(i) => Option::Some(
            message.subrange(
                i + "/gen "@.len(),
                line_end_from(message, i + "/gen "@.len() as int),
            ),
        ),
    }
}

/// The scope list is effectively supplied: after case folding it holds at
/// least one non-empty word. A list of nothing but separators and blanks
/// counts as absent and falls through to the next layer.
pub open spec fn scope_words_present(words: Seq<char>) -> bool {
    exists|k: int|
        0 <= k < split_chars(lower_of(words), ',').len() && (#[trigger] split_chars(
            lower_of(words),
            ',',
        )[k]).len() > 0
}

/// The static list is effectively non-empty: some word of it is non-empty
/// after case folding. A list of blanks counts as empty and yields the
/// explicit-command layer.
pub open spec fn static_words_present(trigger_words: Seq<Seq<char>>) -> bool {
    exists|i: int| 0 <= i < trigger_words.len() && lower_of(#[trigger] trigger_words[i]).len() > 0
}

/// The scope layer applies: a scope list was supplied and is effectively
/// non-empty.
pub open spec fn scope_applies(custom: Option<Seq<char>>) -> bool {
    custom matches Some(w) && scope_words_present(w)
}

/// What the last two layers decide when no scope list applies: the static
/// word list when it is effectively non-empty, else the explicit command.
pub open spec fn fallback_payload(message: Seq<char>, trigger_words: Seq<Seq<char>>) -> Option<
    Seq<char>,
> {
    if static_words_present(trigger_words) {
        if static_matches(trigger_words, message) {
            Option::Some(message)
        } else {
            Option::None
        }
    } else {
        gen_payload(message)
    }
}

/// The trigger policy found nothing to render: the applying word-list layer
/// did not match.
pub open spec fn no_trigger_match(
    message: Seq<char>,
    custom: Option<Seq<char>>,
    trigger_words: Seq<Seq<char>>,
) -> bool {
    if scope_applies(custom) {
        !custom_matches(custom.unwrap(), message)
    } else {
        static_words_present(trigger_words) && !static_matches(trigger_words, message)
    }
}

/// With no effective word list on either layer, the message lacked the
/// explicit command shape: a hard error, distinct from a silent no-match.
pub open spec fn malformed_command(
    message: Seq<char>,
    custom: Option<Seq<char>>,
    trigger_words: Seq<Seq<char>>,
) -> bool {
    !scope_applies(custom) && !static_words_present(trigger_words) && gen_payload(message) is None
}

/// The text to render, when the trigger policy accepts the message: the full
/// message for word-list matches, the captured text for an explicit command.
pub open spec fn trigger_payload(
    message: Seq<char>,
    custom: Option<Seq<char>>,
    trigger_words: Seq<Seq<char>>,
) -> Option<Seq<char>> {
    if scope_applies(custom) {
        if custom_matches(custom.unwrap(), message) {
            Option::Some(message)
        } else {
            Option::None
        }
    } else {
        fallback_payload(message, trigger_words)
    }
}

/// Decide whether the message should be rendered at all and what literal
/// text to render, under the three-layer policy: scope words first, then the
/// static word list, then the explicit `/gen` command.
pub fn evaluate_trigger(
    res: &str,
    custom_words: &Option<String>,
    trigger_words: &Vec<String>,
) -> (r: Result<String, HandlerError>)
    ensures
        (r is Ok) == (trigger_payload(res@, custom_words.deep_view(), trigger_words.deep_view())
            is Some),
        r is Ok ==> r->Ok_0@ == trigger_payload(
            res@,
            custom_words.deep_view(),
            trigger_words.deep_view(),
        ).unwrap(),
        r is Err ==> ((r->Err_0.message is None) == no_trigger_match(
            res@,
            custom_words.deep_view(),
            trigger_words.deep_view(),
        )),
        r is Err && r->Err_0.message is Some ==> malformed_command(
            res@,
            custom_words.deep_view(),
            trigger_words.deep_view(),
        ) && r->Err_0.message.unwrap()@ == "Invalid command"@,
{
    match custom_words {
        Some(words) => {
            if scope_list_present(words) {
                let found = contains_in(words.clone(), String::from_str(res));
                if found.len() == 0 {
                    proof {
                        assert(found.deep_view().len() == 0);
                    }
                    Err(HandlerError::empty())
                } else {
                    Ok(String::from_str(res))
                }
            } else {
                evaluate_fallback(res, trigger_words)
            }
        },
        None => evaluate_fallback(res, trigger_words),
    }
}

/// Does the scope list hold any word that is non-empty after case folding?
fn scope_list_present(words: &String) -> (present: bool)
    ensures
        present == scope_words_present(words@),
{
    let l_words = to_lower(words.as_str());
    let parts = split_str(l_words.as_str(), ',');
    let ghost gp = parts.deep_view();
    let mut i: usize = 0;
    while i < parts.len()
        invariant_except_break
            gp == parts.deep_view(),
            gp == split_chars(lower_of(words@), ','),
            0 <= i <= parts.len(),
            forall|t: int| 0 <= t < i ==> (#[trigger] gp[t]).len() == 0,
        ensures
            gp == split_chars(lower_of(words@), ','),
            i < parts.len() ==> gp[i as int].len() > 0,
            i >= parts.len() ==> forall|t: int| 0 <= t < gp.len() ==> (#[trigger] gp[t]).len()
                == 0,
        decreases parts.len() - i,
    {
        if !parts[i].as_str().is_empty() {
            proof {
                assert(gp[i as int].len() > 0);
            }
            break ;
        }
        i += 1;
    }
    if i < parts.len() {
        proof {
            assert(scope_words_present(words@));
        }
        true
    } else {
        proof {
            assert(!scope_words_present(words@));
        }
        false
    }
}

/// The last two layers of the policy: the static word list when it holds a
/// non-empty word, else the explicit `/gen` command.
fn evaluate_fallback(res: &str, trigger_words: &Vec<String>) -> (r: Result<String, HandlerError>)
    ensures
        (r is Ok) == (fallback_payload(res@, trigger_words.deep_view()) is Some),
        r is Ok ==> r->Ok_0@ == fallback_payload(res@, trigger_words.deep_view()).unwrap(),
        r is Err ==> ((r->Err_0.message is None) == (static_words_present(
            trigger_words.deep_view(),
        ) && !static_matches(trigger_words.deep_view(), res@))),
        r is Err && r->Err_0.message is Some ==> !static_words_present(trigger_words.deep_view())
            && gen_payload(res@) is None && r->Err_0.message.unwrap()@ == "Invalid command"@,
{
    let ghost tws = trigger_words.deep_view();
    let l_msg = to_lower(res);
    let n = trigger_words.len();
    let mut present = false;
    let mut k: usize = 0;
    while k < n
        invariant
            tws == trigger_words.deep_view(),
            n == trigger_words.len(),
            l_msg@ == lower_of(res@),
            0 <= k <= n,
            present == (exists|t: int| 0 <= t < k && lower_of(#[trigger] tws[t]).len() > 0),
            forall|t: int|
                0 <= t < k ==> !(lower_of(#[trigger] tws[t]).len() > 0 && seq_contains(
                    lower_of(res@),
                    lower_of(tws[t]),
                )),
        decreases n - k,
    {
        proof {
            assert(tws[k as int] == trigger_words[k as int]@);
        }
        let lw = to_lower(trigger_words[k].as_str());
        if !lw.as_str().is_empty() {
            if str_contains(l_msg.as_str(), lw.as_str()) {
                proof {
                    assert(static_matches(tws, res@));
                    assert(static_words_present(tws));
                }
                return Ok(String::from_str(res));
            }
            proof {
                assert(lower_of(tws[k as int]).len() > 0);
            }
            present = true;
        }
        k += 1;
    }
    if present {
        proof {
            assert(static_words_present(tws));
            assert(!static_matches(tws, res@));
        }
        Err(HandlerError::empty())
    } else {
        proof {
            assert(!static_words_present(tws));
        }
        match find_first(res, "/gen ") {
            None => Err(HandlerError::new(String::from_str("Invalid command"))),
            Some(i) => {
                proof {
                    lemma_first_occurrence_props(res@, "/gen "@, 0);
                }
                let n_chars = res.unicode_len();
                let plen = "/gen ".unicode_len();
                let start = i + plen;
                let end = find_line_end(res, start);
                Ok(String::from_str(res.substring_char(start, end)))
            },
        }
    }
}

// ---------------------------------------------------------------------------
// Text layout over lines
// ---------------------------------------------------------------------------
/// The rows of each line in order, each line laid out independently.
pub open spec fn rows_of_lines(lines: Seq<Seq<char>>, max: int) -> Seq<Seq<char>>
    decreases lines.len(),
{
    if lines.len() == 0 {
        Seq::empty()
    } else {
        rows_of_lines(lines.drop_last(), max) + batch_spec(lines.last(), max)
    }
}

/// The rows the compositor draws: explicit line breaks are never merged
/// across, and each line is packed under the row budget.
pub open spec fn layout_rows_spec(message: Seq<char>) -> Seq<Seq<char>> {
    rows_of_lines(split_chars(message, '\n'), STRING_BATCH_SIZE as int)
}

proof fn lemma_rows_of_lines_bounded(lines: Seq<Seq<char>>, max: int)
    requires
        max >= 3,
    ensures
        forall|k: int|
            0 <= k < rows_of_lines(lines, max).len() ==> (#[trigger] rows_of_lines(
                lines,
                max,
            )[k]).len() <= max,
    decreases lines.len(),
{
    if lines.len() > 0 {
        lemma_rows_of_lines_bounded(lines.drop_last(), max);
        crate::utils::string_utils::lemma_batch_rows_bounded(lines.last(), max);
        let prev = rows_of_lines(lines.drop_last(), max);
        let tail = batch_spec(lines.last(), max);
        assert forall|k: int|
            0 <= k < rows_of_lines(lines, max).len() implies (#[trigger] rows_of_lines(
            lines,
            max,
        )[k]).len() <= max by {
            if k < prev.len() {
                assert(rows_of_lines(lines, max)[k] == prev[k]);
            } else {
                assert(rows_of_lines(lines, max)[k] == tail[k - prev.len()]);
            }
        }
    }
}

/// No row the compositor draws exceeds the row budget, whatever the
/// message: a word beyond the budget is shortened, never carried in full.
pub proof fn lemma_layout_rows_bounded(message: Seq<char>)
    ensures
        forall|k: int|
            0 <= k < layout_rows_spec(message).len() ==> (#[trigger] layout_rows_spec(
                message,
            )[k]).len() <= STRING_BATCH_SIZE as int,
{
    lemma_rows_of_lines_bounded(split_chars(message, '\n'), STRING_BATCH_SIZE as int);
}

/// Split the message on explicit line breaks and pack each line into rows.
pub fn layout_rows(message: &str) -> (rows: Vec<String>)
    ensures
        rows.deep_view() == layout_rows_spec(message@),
{
    let lines = split_str(message, '\n');
    let ghost gl = lines.deep_view();
    let mut rows: Vec<String> = Vec::new();
    let mut i: usize = 0;
    while i < lines.len()
        invariant
            gl == lines.deep_view(),
            0 <= i <= lines.len(),
            rows.deep_view() == rows_of_lines(gl.take(i as int), STRING_BATCH_SIZE as int),
        decreases lines.len() - i,
    {
        proof {
            assert(gl.take(i + 1).drop_last() =~= gl.take(i as int));
            assert(gl.take(i + 1).last() == gl[i as int]);
            assert(gl[i as int] == lines[i as int]@);
            assert(batch_budget_ok(lines[i as int]@, STRING_BATCH_SIZE as int));
        }
        let mut sub = batch(lines[i].as_str(), STRING_BATCH_SIZE);
        rows.append(&mut sub);
        proof {
            assert(rows.deep_view() =~= rows_of_lines(gl.take(i + 1), STRING_BATCH_SIZE as int));
        }
        i += 1;
    }
    proof {
        assert(gl.take(lines.len() as int) =~= gl);
    }
    rows
}

// ---------------------------------------------------------------------------
// Image composition
// ---------------------------------------------------------------------------
/// The bytes decode as an RGB JPEG with non-zero dimensions: the inputs on
/// which composing is owed to go beyond the text-geometry guard.
pub open spec fn decodes_nonzero(bytes: Seq<u8>) -> bool {
    jpeg_rgb_dims_of(bytes) is Some && jpeg_rgb_dims_of(bytes).unwrap().0 > 0 && jpeg_rgb_dims_of(
        bytes,
    ).unwrap().1 > 0
}

/// Compose the fixed-size square frame: the message wrapped and centered
/// above the source image, which is resized preserving its aspect ratio.
/// On success the output is a non-empty PNG of exactly the canvas
/// dimensions. Unusable font bytes, an input that does not decode as an RGB
/// JPEG, and zero-sized decoded geometry are always fatal; on a usable font
/// and source, the only possible failure is the text-geometry guard, whose
/// message is pinned.
pub fn create_image(
    message: &str,
    input: Vec<u8>,
    font_bytes: &Vec<u8>,
    scale: rusttype::Scale,
) -> (r: Result<Vec<u8>, HandlerError>)
    ensures
        r is Ok ==> png_width_of(r->Ok_0@) == IMAGE_SIZE as int && png_height_of(r->Ok_0@)
            == IMAGE_SIZE as int && r->Ok_0@.len() > 0,
        r is Err ==> r->Err_0.message is Some,
        !font_loads(font_bytes@) ==> r is Err,
        jpeg_rgb_dims_of(input@) is None ==> r is Err,
        jpeg_rgb_dims_of(input@) is Some && (jpeg_rgb_dims_of(input@).unwrap().0 == 0
            || jpeg_rgb_dims_of(input@).unwrap().1 == 0) ==> r is Err,
        font_loads(font_bytes@) && decodes_nonzero(input@) ==> r is Ok || (r is Err
            && r->Err_0.message.unwrap()@ == "Can not convert value to int!!"@),
{
    let font = match load_font(font_bytes.clone()) {
        None => {
            return Err(HandlerError::new(String::from_str("Can not instantiate font")));
        },
        Some(data) => data,
    };
    let start_image = match decode_jpeg(&input) {
        Ok(f) => f,
        Err(e) => {
            return Err(e);
        },
    };
    if start_image.width() == 0 || start_image.height() == 0 {
        return Err(HandlerError::new(String::from_str("Image error: empty image")));
    }
    let (new_w, new_h) = aspect_resize(start_image.width(), start_image.height(), PHOTO_W, PHOTO_H);
    let res = resize_frame(&start_image, new_w, new_h);

    let subs = layout_rows(message);

    let mut rect_list: Vec<TextSizeBox> = Vec::new();
    let mut m: usize = 0;
    while m < subs.len()
        invariant
            0 <= m <= subs.len(),
            rect_list.len() == m,
        decreases subs.len() - m,
    {
        rect_list.push(TextSizeBox::from(subs[m].as_str(), &font, scale));
        m += 1;
    }

    let shown = if subs.len() < MAX_ROWS {
        subs.len()
    } else {
        MAX_ROWS
    };

    let mut y: u32 = PHOTO_H + PADDING;
    if shown < MAX_ROWS {
        // centre the text block vertically in its band
        let mut hsum: u64 = 0;
        let mut k: usize = 0;
        while k < rect_list.len()
            invariant
                rect_list.len() == subs.len(),
                subs.len() < MAX_ROWS,
                0 <= k <= rect_list.len(),
                hsum <= (k as u64) * 0x1_0000_000a,
            decreases rect_list.len() - k,
        {
            if hsum > 0 {
                hsum = hsum + (rect_list[k].h as u64) + 10;
            } else {
                hsum = hsum + (rect_list[k].h as u64);
            }
            k += 1;
        }
        if hsum > ((IMAGE_SIZE - y) as u64) {
            return Err(HandlerError::new(String::from_str("Can not convert value to int!!")));
        }
        let h: u32 = hsum as u32;
        y += ((IMAGE_SIZE - y) - h) / 2 + 10;
    }

    let mut image = new_canvas(IMAGE_SIZE, IMAGE_SIZE);
    let mut ind: usize = 0;
    while ind < shown
        invariant
            shown <= subs.len(),
            shown <= MAX_ROWS,
            rect_list.len() == subs.len(),
            0 <= ind <= shown,
            y <= 842 + 60 * ind,
            image.width_spec() == IMAGE_SIZE,
            image.height_spec() == IMAGE_SIZE,
        decreases shown - ind,
    {
        let rect = rect_list[ind];
        if rect.w > IMAGE_SIZE {
            return Err(HandlerError::new(String::from_str("Can not convert value to int!!")));
        }
        draw_row(&mut image, (IMAGE_SIZE - rect.w) / 2, y, &font, scale, subs[ind].as_str());
        y += FONT_H + 10;
        ind += 1;
    }

    let x_offset = (IMAGE_SIZE - res.width()) / 2;
    let y_offset: u32 = if res.height() < PHOTO_H {
        PADDING + (PHOTO_H - res.height()) / 2
    } else {
        PADDING
    };
    proof {
        assert((IMAGE_SIZE - new_w) / 2 + new_w <= IMAGE_SIZE);
    }
    overlay_frame(&mut image, &res, x_offset, y_offset);

    match encode_png(&image) {
        Ok(out) => Ok(out),
        Err(e) => Err(e),
    }
}

// ---------------------------------------------------------------------------
// Encoder choice and degradation
// ---------------------------------------------------------------------------
/// Which encoder a render should use.
pub enum EncoderKind {
    Local,
    Remote,
}

/// The tie-break of the media encoder: the local tool is always preferred
/// when it is available; the remote endpoint is only the fallback.
pub fn choose_encoder(local_available: bool) -> (k: EncoderKind)
    ensures
        (k is Local) == local_available,
{
    if local_available {
        EncoderKind::Local
    } else {
        EncoderKind::Remote
    }
}

/// One remote encoder invocation, fully planned: the multipart field and
/// file names and the request timeout. Sending the request is the binary's
/// work.
pub struct RemoteEncodePlan {
    pub image_part_name: String,
    pub image_file_name: String,
    pub audio_part: Option<(String, String)>,
    pub timeout_secs: u64,
}

/// Plan the remote encoding request: the frame travels as field `data` with
/// file name `data.png`; supplied audio as field `audio` with file name
/// `audio.mp3`; the call gets a generous fixed timeout.
pub fn remote_encode_plan(has_audio: bool) -> (p: RemoteEncodePlan)
    ensures
        p.image_part_name@ == "data"@,
        p.image_file_name@ == "data.png"@,
        has_audio ==> p.audio_part is Some && p.audio_part.unwrap().0@ == "audio"@
            && p.audio_part.unwrap().1@ == "audio.mp3"@,
        !has_audio ==> p.audio_part is None,
        p.timeout_secs == 300,
{
    RemoteEncodePlan {
        image_part_name: String::from_str("data"),
        image_file_name: String::from_str("data.png"),
        audio_part: if has_audio {
            Some((String::from_str("audio"), String::from_str("audio.mp3")))
        } else {
            None
        },
        timeout_secs: 300,
    }
}

/// The degradation policy: a video when encoding succeeded, and the still
/// image when it failed — an encoding failure is never surfaced as an error
/// once a valid frame exists.
pub fn finish_render(image: Vec<u8>, encoded: Result<Vec<u8>, HandlerError>) -> (v: VData)
    ensures
        encoded matches Ok(b) ==> v == VData::Video(b),
        encoded is Err ==> v == VData::Image(image),
{
    match encoded {
        Ok(video) => VData::Video(video),
        Err(_) => VData::Image(image),
    }
}

// ---------------------------------------------------------------------------
// Orchestration
// ---------------------------------------------------------------------------
/// Create meme-quote if needs with optional image and audio
///
/// Parameters:
///  - res:             text of message
///  - custom_words:    optional trigger words
///  - image_handler:   deferred lookup returning an optional binary image
///  - audio_handler:   deferred lookup returning optional binary audio
///  - video_encoder:   deferred media encoding of the composed frame
///  - cfg:             process-wide read-only configuration
///
/// Return: Result with VData or HandlerError
pub fn build_message<FI: FnOnce() -> Option<Vec<u8>>, FA: FnOnce() -> Option<
    Vec<u8>,
>, FE: FnOnce(Vec<u8>, Option<Vec<u8>>) -> Result<Vec<u8>, HandlerError>>(
    res: &str,
    custom_words: Option<String>,
    image_handler: FI,
    audio_handler: FA,
    video_encoder: FE,
    cfg: &EngineConfig,
) -> (r: Result<VData, HandlerError>)
    requires
        cfg.default_images.len() > 0,
        call_requires(image_handler, ()),
        call_requires(audio_handler, ()),
        forall|args: (Vec<u8>, Option<Vec<u8>>)| call_requires(video_encoder, args),
    ensures
        no_trigger_match(res@, custom_words.deep_view(), cfg.trigger_words.deep_view()) ==> r
            is Err && r->Err_0.message is None,
        malformed_command(res@, custom_words.deep_view(), cfg.trigger_words.deep_view()) ==> r
            is Err && r->Err_0.message is Some && r->Err_0.message.unwrap()@
            == "Invalid command"@,
        r is Err && r->Err_0.message is None ==> no_trigger_match(
            res@,
            custom_words.deep_view(),
            cfg.trigger_words.deep_view(),
        ),
        // on a matched trigger with a usable font and sources that decode,
        // the render is owed: the only failure left is the pinned
        // text-geometry guard
        trigger_payload(res@, custom_words.deep_view(), cfg.trigger_words.deep_view()) is Some
            && font_loads(cfg.font_bytes@) && (forall|i: int|
            0 <= i < cfg.default_images.len() ==> decodes_nonzero(
                (#[trigger] cfg.default_images[i])@,
            )) && (forall|b: Vec<u8>| #[trigger]
            call_ensures(image_handler, (), Some(b)) ==> decodes_nonzero(b@)) ==> r is Ok || (r
            is Err && r->Err_0.message.unwrap()@ == "Can not convert value to int!!"@),
        // the image lookup ran, and the frame's source obeyed the choice
        // rule: the lookup's yield when present, else a bundled default
        // (pixel content is beyond the model)
        r is Ok ==> exists|yld: Option<Vec<u8>>, src: Vec<u8>|
            #![trigger call_ensures(image_handler, (), yld), src@]
            call_ensures(image_handler, (), yld) && (match yld {
                Some(b) => src == b,
                None => exists|i: int|
                    0 <= i < cfg.default_images.len() && src@ == (
                    #[trigger] cfg.default_images[i])@,
            }),
        r is Ok ==> trigger_payload(res@, custom_words.deep_view(), cfg.trigger_words.deep_view())
            is Some,
        r is Ok && r->Ok_0 is Image ==> png_width_of(r->Ok_0->Image_0@) == IMAGE_SIZE as int
            && png_height_of(r->Ok_0->Image_0@) == IMAGE_SIZE as int && r->Ok_0->Image_0@.len()
            > 0,
        // a video result is exactly what the encoder returned, for some
        // frame and the audio that the audio lookup yielded
        r is Ok && r->Ok_0 is Video ==> exists|args: (Vec<u8>, Option<Vec<u8>>)|
            #![auto]
            call_ensures(video_encoder, args, Ok(r->Ok_0->Video_0)) && call_ensures(
                audio_handler,
                (),
                args.1,
            ),
        // an image result means the encoder was called and failed
        r is Ok && r->Ok_0 is Image ==> exists|args: (Vec<u8>, Option<Vec<u8>>), e: HandlerError|
            #![auto]
            call_ensures(video_encoder, args, Err(e)) && call_ensures(audio_handler, (), args.1),
{
    let message = match evaluate_trigger(res, &custom_words, &cfg.trigger_words) {
        Ok(m) => m,
        Err(e) => {
            return Err(e);
        },
    };
    let ghost lookup = image_handler;
    let picked = get_rand_image(&cfg.default_images);
    let ghost default_pick = picked;
    let mut input_image: Vec<u8> = picked;
    let fetched_image = image_handler();
    let ghost image_yield = fetched_image;
    if let Some(user_image) = fetched_image {
        input_image = user_image;
    }
    proof {
        assert(call_ensures(lookup, (), image_yield));
        if image_yield is Some {
            assert(input_image == image_yield.unwrap());
        } else {
            assert(input_image == default_pick);
        }
        if forall|b: Vec<u8>| #[trigger]
            call_ensures(lookup, (), Some(b)) ==> decodes_nonzero(b@) {
            if image_yield is Some {
                assert(call_ensures(lookup, (), Some(image_yield.unwrap())));
            } else if forall|i: int|
                0 <= i < cfg.default_images.len() ==> decodes_nonzero(
                    (#[trigger] cfg.default_images[i])@,
                ) {
                let i = choose|i: int|
                    0 <= i < cfg.default_images.len() && default_pick@
                        == cfg.default_images[i as int]@;
                assert(decodes_nonzero(cfg.default_images[i as int]@));
            }
        }
    }
    let ghost source_image = input_image;
    let image = match create_image(message.as_str(), input_image, &cfg.font_bytes, cfg.scale) {
        Ok(data) => data,
        Err(e) => {
            return Err(e);
        },
    };
    let custom_audio = audio_handler();
    let ghost fetched_audio = custom_audio;
    let frame_copy = image.clone();
    let ghost handed_frame = frame_copy;
    let encoded = video_encoder(frame_copy, custom_audio);
    let ghost encoder_outcome = encoded;
    let v = finish_render(image, encoded);
    proof {
        let args = (handed_frame, fetched_audio);
        assert(call_ensures(video_encoder, args, encoder_outcome));
        assert(call_ensures(audio_handler, (), args.1));
        if encoder_outcome is Ok {
            assert(v == VData::Video(encoder_outcome->Ok_0));
            assert(call_ensures(video_encoder, args, Ok(v->Video_0)) && call_ensures(
                audio_handler,
                (),
                args.1,
            ));
        } else {
            let e = encoder_outcome->Err_0;
            assert(call_ensures(video_encoder, args, Err(e)) && call_ensures(
                audio_handler,
                (),
                args.1,
            ));
        }
        assert(call_ensures(lookup, (), image_yield) && (match image_yield {
            Some(b) => source_image == b,
            None => exists|i: int|
                0 <= i < cfg.default_images.len() && source_image@ == (
                #[trigger] cfg.default_images[i])@,
        }));
    }
    Ok(v)
}

// ---------------------------------------------------------------------------
// The shape of a finished render
// ---------------------------------------------------------------------------
/// The silent outcome: no trigger matched, nothing to render, no error.
pub open spec fn is_no_match_outcome(r: Result<VData, HandlerError>) -> bool {
    r is Err && r->Err_0.message is None
}

/// A surfaced failure: malformed input or a fatal decode/compose error.
pub open spec fn is_fatal_outcome(r: Result<VData, HandlerError>) -> bool {
    r is Err && r->Err_0.message is Some
}

/// A finished render carrying a still image.
pub open spec fn is_image_outcome(r: Result<VData, HandlerError>) -> bool {
    r is Ok && r->Ok_0 is Image
}

/// A finished render carrying a video.
pub open spec fn is_video_outcome(r: Result<VData, HandlerError>) -> bool {
    r is Ok && r->Ok_0 is Video
}

/// Every finished render is exactly one of: silent no-match, surfaced
/// failure, still image, video — never more than one at once.
pub proof fn lemma_render_outcome_exclusive(r: Result<VData, HandlerError>)
    ensures
        is_no_match_outcome(r) || is_fatal_outcome(r) || is_image_outcome(r) || is_video_outcome(
            r,
        ),
        !(is_no_match_outcome(r) && is_fatal_outcome(r)),
        !(is_no_match_outcome(r) && is_image_outcome(r)),
        !(is_no_match_outcome(r) && is_video_outcome(r)),
        !(is_fatal_outcome(r) && is_image_outcome(r)),
        !(is_fatal_outcome(r) && is_video_outcome(r)),
        !(is_image_outcome(r) && is_video_outcome(r)),
{
}

} // verus!
