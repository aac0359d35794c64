//! Encoding captured pictures: the arguments of the external encoder, the formats
//! of the native one, and the course of an encoding run.
use vstd::prelude::*;
use vstd::string::*;
use crate::cli::EncodeSmokeOptions;
use crate::h264::{h264_nal_unit_count, nal_units};
use crate::pixels::DxgiDuplicationFormat;
use crate::text::{decimal, decimal_text, lower, optional_text, same_text_ignoring_case, texts};

verus! {

// ---------------------------------------------------------------------------
// Arguments of the external encoder
// ---------------------------------------------------------------------------
/// The encoder is one of Intel's.
pub open spec fn is_qsv(encoder: Seq<char>) -> bool {
    lower(encoder) == lower("h264_qsv"@) || lower(encoder) == lower("qsv"@)
}

/// Whether the encoder is one of Intel's.
pub fn uses_qsv(encoder: &str) -> (qsv: bool)
    ensures
        qsv == is_qsv(encoder@),
{
    same_text_ignoring_case(encoder, "h264_qsv") || same_text_ignoring_case(encoder, "qsv")
}

/// The name by which the external program knows an encoder.
pub open spec fn encoder_name(encoder: Seq<char>) -> Seq<char> {
    if lower(encoder) == lower("qsv"@) {
        "h264_qsv"@
    } else {
        encoder
    }
}

/// The name by which the external program knows an encoder.
pub fn ffmpeg_encoder_name(encoder: &str) -> (name: &str)
    ensures
        name@ == encoder_name(encoder@),
{
    if same_text_ignoring_case(encoder, "qsv") {
        "h264_qsv"
    } else {
        encoder
    }
}

/// The filter that makes the size even and the format one that the encoder takes.
pub open spec fn filter_text(encoder: Seq<char>) -> Seq<char> {
    if is_qsv(encoder) {
        "scale=trunc(iw/2)*2:trunc(ih/2)*2,format=nv12,hwupload=extra_hw_frames=64"@
    } else {
        "scale=trunc(iw/2)*2:trunc(ih/2)*2,format=yuv420p"@
    }
}

/// The filter that makes the size even and the format one that the encoder takes.
pub fn encoder_filter(encoder: &str) -> (filter: &'static str)
    ensures
        filter@ == filter_text(encoder@),
{
    if uses_qsv(encoder) {
        "scale=trunc(iw/2)*2:trunc(ih/2)*2,format=nv12,hwupload=extra_hw_frames=64"
    } else {
        "scale=trunc(iw/2)*2:trunc(ih/2)*2,format=yuv420p"
    }
}

/// The characters of each text.
pub open spec fn str_views(list: Seq<&str>) -> Seq<Seq<char>> {
    list.map_values(|s: &str| s@)
}

/// Appends arguments.
fn push_args(args: &mut Vec<String>, more: &[&str])
    ensures
        texts(final(args)@) == texts(old(args)@) + str_views(more@),
{
    let ghost before = texts(args@);
    let ghost all = str_views(more@);
    let mut i: usize = 0;
    assert(before + all.take(0) =~= before);
    while i < more.len()
        invariant
            i <= more@.len(),
            all == str_views(more@),
            texts(args@) == before + all.take(i as int),
        decreases more@.len() - i,
    {
        let ghost so_far = args@;
        args.push(more[i].to_owned());
        assert(texts(args@) =~= texts(so_far).push(all[i as int]));
        assert(before + all.take(i + 1) =~= (before + all.take(i as int)).push(all[i as int]));
        i += 1;
    }
    assert(all.take(i as int) =~= all);
}

/// The arguments that describe the input: raw pictures on the standard input.
pub open spec fn input_args(encoder: Seq<char>, width: u32, height: u32, fps: u32) -> Seq<
    Seq<char>,
> {
    (if is_qsv(encoder) {
        seq!["-init_hw_device"@, "qsv=hw"@, "-filter_hw_device"@, "hw"@]
    } else {
        Seq::empty()
    }) + seq![
        "-hide_banner"@,
        "-loglevel"@,
        "error"@,
        "-y"@,
        "-f"@,
        "rawvideo"@,
        "-pixel_format"@,
        "bgra"@,
        "-video_size"@,
        decimal(width as nat) + "x"@ + decimal(height as nat),
        "-framerate"@,
        decimal(fps as nat),
        "-i"@,
        "pipe:0"@,
        "-an"@,
    ]
}

/// The arguments that describe the input.
pub fn ffmpeg_input_args(encoder: &str, width: u32, height: u32, fps: u32) -> (args: Vec<String>)
    ensures
        texts(args@) == input_args(encoder@, width, height, fps),
{
    let mut args: Vec<String> = Vec::new();
    assert(texts(args@) =~= Seq::<Seq<char>>::empty());
    if uses_qsv(encoder) {
        let device: [&str; 4] = ["-init_hw_device", "qsv=hw", "-filter_hw_device", "hw"];
        push_args(&mut args, &device);
        assert(str_views(device@) =~= seq![
            "-init_hw_device"@,
            "qsv=hw"@,
            "-filter_hw_device"@,
            "hw"@,
        ]);
        assert(texts(args@) =~= str_views(device@));
    }
    let mut size = decimal_text(width as u64);
    let rows = decimal_text(height as u64);
    size.append("x");
    size.append(rows.as_str());
    let rate = decimal_text(fps as u64);
    let input: [&str; 15] = [
        "-hide_banner",
        "-loglevel",
        "error",
        "-y",
        "-f",
        "rawvideo",
        "-pixel_format",
        "bgra",
        "-video_size",
        size.as_str(),
        "-framerate",
        rate.as_str(),
        "-i",
        "pipe:0",
        "-an",
    ];
    push_args(&mut args, &input);
    assert(str_views(input@) =~= seq![
        "-hide_banner"@,
        "-loglevel"@,
        "error"@,
        "-y"@,
        "-f"@,
        "rawvideo"@,
        "-pixel_format"@,
        "bgra"@,
        "-video_size"@,
        decimal(width as nat) + "x"@ + decimal(height as nat),
        "-framerate"@,
        decimal(fps as nat),
        "-i"@,
        "pipe:0"@,
        "-an"@,
    ]);
    args
}

/// The arguments that choose and tune the encoder.
pub open spec fn encoder_args(encoder: Seq<char>, fps: u32) -> Seq<Seq<char>> {
    seq!["-c:v"@, encoder_name(encoder)] + (if lower(encoder) == lower("h264_nvenc"@) {
        seq![
            "-preset"@,
            "p1"@,
            "-tune"@,
            "ll"@,
            "-rc"@,
            "constqp"@,
            "-qp"@,
            "24"@,
            "-bf"@,
            "0"@,
            "-g"@,
            decimal(fps as nat),
        ]
    } else if lower(encoder) == lower("libx264"@) {
        seq![
            "-preset"@,
            "ultrafast"@,
            "-tune"@,
            "zerolatency"@,
            "-x264-params"@,
            "keyint="@ + decimal(fps as nat) + ":min-keyint="@ + decimal(fps as nat)
                + ":scenecut=0"@,
        ]
    } else if is_qsv(encoder) {
        seq![
            "-preset"@,
            "veryfast"@,
            "-look_ahead"@,
            "0"@,
            "-bf"@,
            "0"@,
            "-g"@,
            decimal(fps as nat),
        ]
    } else {
        Seq::empty()
    })
}

/// Appends the arguments that choose and tune the encoder.
pub fn append_encoder_args(args: &mut Vec<String>, encoder: &str, fps: u32)
    ensures
        texts(final(args)@) == texts(old(args)@) + encoder_args(encoder@, fps),
{
    let ghost before = texts(args@);
    let codec: [&str; 2] = ["-c:v", ffmpeg_encoder_name(encoder)];
    let rate = decimal_text(fps as u64);
    push_args(args, &codec);
    assert(str_views(codec@) =~= seq!["-c:v"@, encoder_name(encoder@)]);
    if same_text_ignoring_case(encoder, "h264_nvenc") {
        let tuning: [&str; 12] = [
            "-preset",
            "p1",
            "-tune",
            "ll",
            "-rc",
            "constqp",
            "-qp",
            "24",
            "-bf",
            "0",
            "-g",
            rate.as_str(),
        ];
        push_args(args, &tuning);
        assert(texts(args@) =~= before + encoder_args(encoder@, fps));
    } else if same_text_ignoring_case(encoder, "libx264") {
        let mut keys = "keyint=".to_owned();
        keys.append(rate.as_str());
        keys.append(":min-keyint=");
        keys.append(rate.as_str());
        keys.append(":scenecut=0");
        let tuning: [&str; 6] = [
            "-preset",
            "ultrafast",
            "-tune",
            "zerolatency",
            "-x264-params",
            keys.as_str(),
        ];
        push_args(args, &tuning);
        assert(texts(args@) =~= before + encoder_args(encoder@, fps));
    } else if uses_qsv(encoder) {
        let tuning: [&str; 8] = [
            "-preset",
            "veryfast",
            "-look_ahead",
            "0",
            "-bf",
            "0",
            "-g",
            rate.as_str(),
        ];
        push_args(args, &tuning);
        assert(texts(args@) =~= before + encoder_args(encoder@, fps));
    } else {
        assert(texts(args@) =~= before + encoder_args(encoder@, fps));
    }
}

/// All arguments, for an output at the given place.
pub open spec fn all_args(encoder: Seq<char>, width: u32, height: u32, fps: u32, output: Seq<char>) -> Seq<
    Seq<char>,
> {
    input_args(encoder, width, height, fps) + encoder_args(encoder, fps) + seq![
        "-vf"@,
        filter_text(encoder),
        "-f"@,
        "h264"@,
        output,
    ]
}

/// All arguments, for an output at the given place.
fn ffmpeg_args(encoder: &str, width: u32, height: u32, fps: u32, output: &str) -> (args: Vec<String>)
    ensures
        texts(args@) == all_args(encoder@, width, height, fps, output@),
{
    let mut args = ffmpeg_input_args(encoder, width, height, fps);
    append_encoder_args(&mut args, encoder, fps);
    let tail: [&str; 5] = ["-vf", encoder_filter(encoder), "-f", "h264", output];
    push_args(&mut args, &tail);
    assert(str_views(tail@) =~= seq!["-vf"@, filter_text(encoder@), "-f"@, "h264"@, output@]);
    args
}

/// The arguments to encode into a file.
pub fn ffmpeg_file_args(options: &EncodeSmokeOptions, width: u32, height: u32, fps: u32) -> (args:
    Vec<String>)
    ensures
        texts(args@) == all_args(options.encoder@, width, height, fps, options.output_path@),
{
    ffmpeg_args(options.encoder.as_str(), width, height, fps, options.output_path.as_str())
}

/// The arguments to encode to the standard output.
pub fn ffmpeg_pipe_args(encoder: &str, width: u32, height: u32, fps: u32) -> (args: Vec<String>)
    ensures
        texts(args@) == all_args(encoder@, width, height, fps, "pipe:1"@),
{
    ffmpeg_args(encoder, width, height, fps, "pipe:1")
}

/// The encoders to try, in order: the automatic choice is a hardware encoder
/// first and a software encoder if that fails.
pub open spec fn encoder_order(encoder: Seq<char>) -> Seq<Seq<char>> {
    if lower(encoder) == lower("auto"@) {
        seq!["h264_nvenc"@, "libx264"@]
    } else {
        seq![encoder]
    }
}

/// The encoder to try first.
pub fn first_encoder(encoder: &str) -> (first: String)
    ensures
        first@ == encoder_order(encoder@)[0],
{
    if same_text_ignoring_case(encoder, "auto") {
        "h264_nvenc".to_owned()
    } else {
        encoder.to_owned()
    }
}

/// The encoder to try after the given number of attempts, where there is one: a
/// success ends the attempts, and so does a failure of the last encoder.
pub open spec fn next_encoder(encoder: Seq<char>, tried: int, succeeded: bool) -> Option<Seq<char>> {
    if !succeeded && 1 <= tried < encoder_order(encoder).len() {
        Some(encoder_order(encoder)[tried])
    } else {
        None
    }
}

/// The encoder to try after the given number of attempts, the last of which has
/// just succeeded or failed. Where there is none, the outcome of the last attempt
/// is the result. Only the automatic choice has a second encoder.
pub fn after_encode_attempt(encoder: &str, tried: usize, succeeded: bool) -> (next: Option<String>)
    ensures
        optional_text(next) == next_encoder(encoder@, tried as int, succeeded),
        succeeded ==> next is None,
        next is Some <==> !succeeded && tried == 1 && lower(encoder@) == lower("auto"@),
        next matches Some(n) ==> n@ == "libx264"@,
{
    if !succeeded && tried == 1 && same_text_ignoring_case(encoder, "auto") {
        Some("libx264".to_owned())
    } else {
        None
    }
}

/// The number of attempts made in all, where `tried` have been made and
/// `outcomes[k]` says whether the `k`-th encoder in order succeeds.
pub open spec fn attempts_made(encoder: Seq<char>, outcomes: Seq<bool>, tried: int) -> int
    decreases outcomes.len() - tried,
{
    if 1 <= tried < outcomes.len() && next_encoder(encoder, tried, outcomes[tried - 1]) is Some {
        attempts_made(encoder, outcomes, tried + 1)
    } else {
        tried
    }
}

/// Encoders are tried in order until one succeeds or none is left: all attempts but
/// the last have failed, and the last succeeds exactly when some encoder would.
pub proof fn encoders_are_tried_until_one_succeeds(encoder: Seq<char>, outcomes: Seq<bool>)
    requires
        outcomes.len() == encoder_order(encoder).len(),
    ensures
        ({
            let made = attempts_made(encoder, outcomes, 1);
            &&& 1 <= made <= outcomes.len()
            &&& forall|k: int| 0 <= k < made - 1 ==> !#[trigger] outcomes[k]
            &&& outcomes[made - 1] || made == outcomes.len()
            &&& outcomes[made - 1] <==> outcomes.contains(true)
        }),
{
    lemma_attempts_made(encoder, outcomes, 1);
    let made = attempts_made(encoder, outcomes, 1);
    if outcomes.contains(true) {
        let k = choose|k: int| 0 <= k < outcomes.len() && outcomes[k] == true;
        assert(outcomes[k]);
    }
}

proof fn lemma_attempts_made(encoder: Seq<char>, outcomes: Seq<bool>, tried: int)
    requires
        outcomes.len() == encoder_order(encoder).len(),
        1 <= tried <= outcomes.len(),
        forall|k: int| 0 <= k < tried - 1 ==> !#[trigger] outcomes[k],
    ensures
        ({
            let made = attempts_made(encoder, outcomes, tried);
            &&& tried <= made <= outcomes.len()
            &&& forall|k: int| 0 <= k < made - 1 ==> !#[trigger] outcomes[k]
            &&& outcomes[made - 1] || made == outcomes.len()
        }),
    decreases outcomes.len() - tried,
{
    if tried < outcomes.len() && !outcomes[tried - 1] {
        lemma_attempts_made(encoder, outcomes, tried + 1);
    }
}

// ---------------------------------------------------------------------------
// Formats of the native encoder
// ---------------------------------------------------------------------------
/// The formats that the native encoder takes.
#[derive(Clone, Copy, Debug, PartialEq, Eq, Structural)]
pub enum NvencFormat {
    Argb,
    Abgr,
}

/// The formats of textures that pictures are copied into.
#[derive(Clone, Copy, Debug, PartialEq, Eq, Structural)]
pub enum TextureFormat {
    Bgra8Unorm,
    Bgra8UnormSrgb,
    Rgba8Unorm,
    Rgba8UnormSrgb,
}

/// The picture has more than eight bits per channel.
#[derive(Clone, Copy, Debug, PartialEq, Eq, Structural)]
pub struct NeedsConversion {
    pub format: DxgiDuplicationFormat,
}

/// The picture has more than eight bits per channel and is converted first.
pub open spec fn is_deep(format: DxgiDuplicationFormat) -> bool {
    format is Rgba16F || format is Rgb10A2 || format is Rgb10XrA2
}

/// Whether a picture has to be converted before the native encoder can take it.
pub fn needs_bgra_gpu_conversion(format: DxgiDuplicationFormat) -> (needed: bool)
    ensures
        needed == is_deep(format),
{
    match format {
        DxgiDuplicationFormat::Rgba16F
        | DxgiDuplicationFormat::Rgb10A2
        | DxgiDuplicationFormat::Rgb10XrA2 => true,
        _ => false,
    }
}

/// The format under which the native encoder takes a picture as it is.
pub fn nvenc_format_for_dxgi(format: DxgiDuplicationFormat) -> (result: Result<
    NvencFormat,
    NeedsConversion,
>)
    ensures
        result == if is_deep(format) {
            Err(NeedsConversion { format })
        } else if format is Bgra8 || format is Bgra8Srgb {
            Ok(NvencFormat::Argb)
        } else {
            Ok(NvencFormat::Abgr)
        },
{
    match format {
        DxgiDuplicationFormat::Bgra8 | DxgiDuplicationFormat::Bgra8Srgb => Ok(NvencFormat::Argb),
        DxgiDuplicationFormat::Rgba8 | DxgiDuplicationFormat::Rgba8Srgb => Ok(NvencFormat::Abgr),
        _ => Err(NeedsConversion { format }),
    }
}

/// The format of the texture that a picture is copied into as it is.
pub fn copy_texture_format(format: DxgiDuplicationFormat) -> (result: Result<
    TextureFormat,
    NeedsConversion,
>)
    ensures
        result == match format {
            DxgiDuplicationFormat::Bgra8 => Ok(TextureFormat::Bgra8Unorm),
            DxgiDuplicationFormat::Bgra8Srgb => Ok(TextureFormat::Bgra8UnormSrgb),
            DxgiDuplicationFormat::Rgba8 => Ok(TextureFormat::Rgba8Unorm),
            DxgiDuplicationFormat::Rgba8Srgb => Ok(TextureFormat::Rgba8UnormSrgb),
            _ => Err(NeedsConversion { format }),
        },
{
    match format {
        DxgiDuplicationFormat::Bgra8 => Ok(TextureFormat::Bgra8Unorm),
        DxgiDuplicationFormat::Bgra8Srgb => Ok(TextureFormat::Bgra8UnormSrgb),
        DxgiDuplicationFormat::Rgba8 => Ok(TextureFormat::Rgba8Unorm),
        DxgiDuplicationFormat::Rgba8Srgb => Ok(TextureFormat::Rgba8UnormSrgb),
        _ => Err(NeedsConversion { format }),
    }
}

/// What the format under which the native encoder takes a picture is called.
pub fn nvenc_format_name(format: DxgiDuplicationFormat, using_gpu_converter: bool) -> (name: Result<
    &'static str,
    NeedsConversion,
>)
    ensures
        match name {
            Ok(text) => text@ == if using_gpu_converter {
                "ARGB via GPU BGRA8 conversion"@
            } else if format is Bgra8 || format is Bgra8Srgb {
                "ARGB"@
            } else {
                "ABGR"@
            } && (using_gpu_converter || !is_deep(format)),
            Err(e) => !using_gpu_converter && is_deep(format) && e.format == format,
        },
{
    if using_gpu_converter {
        return Ok("ARGB via GPU BGRA8 conversion");
    }
    match nvenc_format_for_dxgi(format) {
        Ok(NvencFormat::Argb) => Ok("ARGB"),
        Ok(NvencFormat::Abgr) => Ok("ABGR"),
        Err(e) => Err(e),
    }
}

// ---------------------------------------------------------------------------
// The course of an encoding run
// ---------------------------------------------------------------------------
/// What asking for a picture gave.
#[derive(Clone, Copy, Debug, PartialEq, Eq, Structural)]
pub enum CaptureEvent {
    Frame { width: u32, height: u32 },
    /// Nothing new was shown in time.
    Timeout,
    Failed,
}

/// Whether the last picture is shown again after asking for one gave this.
pub fn should_reuse_last_frame(event: CaptureEvent) -> (reuse: bool)
    ensures
        reuse == (event is Timeout),
{
    match event {
        CaptureEvent::Timeout => true,
        _ => false,
    }
}

/// What to do with the picture that the encoder shows.
#[derive(Clone, Copy, Debug, PartialEq, Eq, Structural)]
pub enum RefreshStep {
    /// Take in the new picture.
    TakeNew,
    /// Go on with the last picture.
    KeepLast,
    /// Give up: the size of the pictures has changed.
    SizeChanged { width: u32, height: u32 },
    /// Give up: there are no pictures.
    CaptureFailed,
}

/// What to do with the picture that the encoder shows, when pictures have the
/// given size and a new one was asked for.
pub open spec fn refresh_of(width: u32, height: u32, may_reuse: bool, event: CaptureEvent) -> RefreshStep {
    match event {
        CaptureEvent::Frame { width: w, height: h } => if w == width && h == height {
            RefreshStep::TakeNew
        } else {
            RefreshStep::SizeChanged { width: w, height: h }
        },
        CaptureEvent::Timeout => if may_reuse {
            RefreshStep::KeepLast
        } else {
            RefreshStep::CaptureFailed
        },
        CaptureEvent::Failed => RefreshStep::CaptureFailed,
    }
}

/// What to do with the picture that the encoder shows.
pub fn refresh_step(width: u32, height: u32, may_reuse: bool, event: CaptureEvent) -> (step:
    RefreshStep)
    ensures
        step == refresh_of(width, height, may_reuse, event),
{
    match event {
        CaptureEvent::Frame { width: w, height: h } => if w == width && h == height {
            RefreshStep::TakeNew
        } else {
            RefreshStep::SizeChanged { width: w, height: h }
        },
        CaptureEvent::Timeout => if may_reuse {
            RefreshStep::KeepLast
        } else {
            RefreshStep::CaptureFailed
        },
        CaptureEvent::Failed => RefreshStep::CaptureFailed,
    }
}

/// An encoding run: how many pictures of which size are wanted, and how many have
/// been encoded.
#[derive(Debug, PartialEq, Eq)]
pub struct EncodeRun {
    pub width: u32,
    pub height: u32,
    pub frame_count: u32,
    /// How many have been encoded. The next picture has this number.
    pub encoded: u32,
    /// How many of those were shown again.
    pub reused: u32,
    /// Whether pictures may be shown again at all.
    pub may_reuse: bool,
}

impl EncodeRun {
    /// The counts are consistent.
    pub open spec fn wf(self) -> bool {
        &&& self.frame_count >= 1
        &&& self.reused <= self.encoded <= self.frame_count
    }

    /// What to do after asking for a picture. Before the first picture there is
    /// none to show again.
    pub open spec fn step_for(self, event: CaptureEvent) -> RefreshStep {
        refresh_of(self.width, self.height, self.may_reuse && self.encoded > 0, event)
    }

    /// The run after asking for a picture: one more has been encoded, unless the
    /// run was given up.
    pub open spec fn after(self, event: CaptureEvent) -> Self {
        match self.step_for(event) {
            RefreshStep::TakeNew => EncodeRun { encoded: (self.encoded + 1) as u32, ..self },
            RefreshStep::KeepLast => EncodeRun {
                encoded: (self.encoded + 1) as u32,
                reused: (self.reused + 1) as u32,
                ..self
            },
            _ => self,
        }
    }

    /// A run for `frame_count` pictures, one at least, of the given size.
    pub fn new(width: u32, height: u32, frame_count: u32, may_reuse: bool) -> (run: Self)
        ensures
            run.wf(),
            run.width == width,
            run.height == height,
            run.frame_count == if frame_count < 1 {
                1
            } else {
                frame_count
            },
            run.encoded == 0,
            run.reused == 0,
            run.may_reuse == may_reuse,
    {
        let frame_count: u32 = if frame_count < 1 {
            1
        } else {
            frame_count
        };
        EncodeRun { width, height, frame_count, encoded: 0, reused: 0, may_reuse }
    }

    /// Whether all pictures have been encoded.
    pub fn is_done(&self) -> (done: bool)
        ensures
            done == (self.encoded >= self.frame_count),
    {
        self.encoded >= self.frame_count
    }

    /// What to do with what asking for a picture gave; where that is not to give
    /// up, the picture is encoded under the number that the run had before.
    pub fn step(&mut self, event: CaptureEvent) -> (step: RefreshStep)
        requires
            old(self).wf(),
            old(self).encoded < old(self).frame_count,
        ensures
            step == old(self).step_for(event),
            *final(self) == old(self).after(event),
            final(self).wf(),
    {
        let step = refresh_step(
            self.width,
            self.height,
            self.may_reuse && self.encoded > 0,
            event,
        );
        match step {
            RefreshStep::TakeNew => {
                self.encoded = self.encoded + 1;
            },
            RefreshStep::KeepLast => {
                self.encoded = self.encoded + 1;
                self.reused = self.reused + 1;
            },
            _ => {},
        }
        step
    }
}

/// The run after asking for a picture several times.
pub open spec fn run_after(run: EncodeRun, events: Seq<CaptureEvent>) -> EncodeRun
    decreases events.len(),
{
    if events.len() == 0 {
        run
    } else {
        run_after(run, events.drop_last()).after(events.last())
    }
}

/// A desktop that shows nothing new still gives the wanted number of pictures:
/// after the first picture of the right size, each further picture or lack of one
/// in time counts.
pub proof fn static_desktops_give_all_pictures(run: EncodeRun, events: Seq<CaptureEvent>)
    requires
        run.wf(),
        run.encoded == 0,
        run.may_reuse,
        0 < events.len() <= run.frame_count,
        events[0] == (CaptureEvent::Frame { width: run.width, height: run.height }),
        forall|i: int|
            0 < i < events.len() ==> #[trigger] events[i] is Timeout || events[i] == (
            CaptureEvent::Frame { width: run.width, height: run.height }),
    ensures
        run_after(run, events).encoded == events.len(),
        run_after(run, events).wf(),
        run_after(run, events).width == run.width,
        run_after(run, events).height == run.height,
        run_after(run, events).frame_count == run.frame_count,
        run_after(run, events).may_reuse,
        events.len() == run.frame_count ==> run_after(run, events).encoded == run.frame_count,
    decreases events.len(),
{
    let shorter = events.drop_last();
    if events.len() == 1 {
        assert(run_after(run, shorter) == run);
    } else {
        assert forall|i: int| 0 < i < shorter.len() implies #[trigger] shorter[i] is Timeout
            || shorter[i] == (CaptureEvent::Frame { width: run.width, height: run.height }) by {
            assert(shorter[i] == events[i]);
        }
        static_desktops_give_all_pictures(run, shorter);
        let last = events.len() - 1;
        assert(events[last] is Timeout || events[last] == (CaptureEvent::Frame {
            width: run.width,
            height: run.height,
        }));
    }
}

/// Whether the picture with the given number is one that decoding can begin with:
/// only the first is.
pub fn is_idr_picture(index: u32) -> (idr: bool)
    ensures
        idr == (index == 0),
{
    index == 0
}

/// The size of the pictures has changed.
pub open spec fn size_change_text(
    width: u32,
    height: u32,
    new_width: u32,
    new_height: u32,
) -> Seq<char> {
    "capture frame size changed from "@ + decimal(width as nat) + "x"@ + decimal(height as nat)
        + " to "@ + decimal(new_width as nat) + "x"@ + decimal(new_height as nat)
}

/// What to tell when the size of the pictures has changed.
pub fn size_change_message(width: u32, height: u32, new_width: u32, new_height: u32) -> (text:
    String)
    ensures
        text@ == size_change_text(width, height, new_width, new_height),
{
    let mut text = "capture frame size changed from ".to_owned();
    let w = decimal_text(width as u64);
    let h = decimal_text(height as u64);
    let nw = decimal_text(new_width as u64);
    let nh = decimal_text(new_height as u64);
    text.append(w.as_str());
    text.append("x");
    text.append(h.as_str());
    text.append(" to ");
    text.append(nw.as_str());
    text.append("x");
    text.append(nh.as_str());
    text
}

/// What an encoding run gave.
#[derive(Clone, Copy, Debug, PartialEq, Eq, Structural)]
pub struct EncodedSummary {
    pub bytes_written: usize,
    pub nal_units: usize,
}

/// The output holds no start code.
#[derive(Clone, Copy, Debug, PartialEq, Eq, Structural)]
pub struct NoStartCodes;

/// Measures the output of an encoding run; one without any start code is no
/// success.
pub fn summarize_output(encoded: &[u8]) -> (summary: Result<EncodedSummary, NoStartCodes>)
    ensures
        match summary {
            Ok(s) => {
                &&& nal_units(encoded@).len() > 0
                &&& s.nal_units == nal_units(encoded@).len()
                &&& s.bytes_written == encoded@.len()
            },
            Err(_) => nal_units(encoded@).len() == 0,
        },
{
    let count: usize = h264_nal_unit_count(encoded);
    if count == 0 {
        return Err(NoStartCodes);
    }
    Ok(EncodedSummary { bytes_written: encoded.len(), nal_units: count })
}

/// How long to wait for the external encoder, in milliseconds, before another
/// picture is fed to it; none once it has given nothing for two seconds.
pub fn output_wait_ms(elapsed_ms: u64, frame_interval_ms: u64) -> (wait: Option<u64>)
    ensures
        wait == if elapsed_ms >= 2000 {
            None
        } else if frame_interval_ms <= 2000 - elapsed_ms {
            Some(frame_interval_ms)
        } else {
            Some((2000 - elapsed_ms) as u64)
        },
{
    if elapsed_ms >= 2000 {
        None
    } else if frame_interval_ms <= 2000 - elapsed_ms {
        Some(frame_interval_ms)
    } else {
        Some(2000 - elapsed_ms)
    }
}

/// How the native encoder is set up.
#[derive(Clone, Copy, Debug, PartialEq, Eq, Structural)]
pub struct NvencParameters {
    pub width: u32,
    pub height: u32,
    /// Pictures a second.
    pub fps: u32,
    /// Pictures from one that decoding can begin with to the next.
    pub gop_len: u32,
    /// Pictures from one that others refer to to the next.
    pub frame_interval_p: u32,
    pub average_bit_rate: u32,
}

/// How the native encoder is set up: every second can be decoded on its own, every
/// picture is referred to, and a second takes twenty million bits.
pub fn nvenc_parameters(width: u32, height: u32, fps: u32) -> (parameters: NvencParameters)
    ensures
        parameters == (NvencParameters {
            width,
            height,
            fps,
            gop_len: fps,
            frame_interval_p: 1,
            average_bit_rate: 20_000_000,
        }),
{
    NvencParameters {
        width,
        height,
        fps,
        gop_len: fps,
        frame_interval_p: 1,
        average_bit_rate: 20_000_000,
    }
}

/// The size of pictures and what happens to them.
pub open spec fn live_text(
    kind: Seq<char>,
    width: u32,
    height: u32,
    source_format: Seq<char>,
    target: Seq<char>,
) -> Seq<char> {
    kind + " live capture "@ + decimal(width as nat) + "x"@ + decimal(height as nat) + " "@
        + source_format + " -> "@ + target
}

/// What a live source is called: `kind` tells how it encodes, `target` what it
/// encodes to.
pub fn live_source_description(
    kind: &str,
    width: u32,
    height: u32,
    source_format: &str,
    target: &str,
) -> (text: String)
    ensures
        text@ == live_text(kind@, width, height, source_format@, target@),
{
    let mut text = kind.to_owned();
    let w = decimal_text(width as u64);
    let h = decimal_text(height as u64);
    text.append(" live capture ");
    text.append(w.as_str());
    text.append("x");
    text.append(h.as_str());
    text.append(" ");
    text.append(source_format);
    text.append(" -> ");
    text.append(target);
    text
}

// ---------------------------------------------------------------------------
// What the external program is told
// ---------------------------------------------------------------------------
/// The whole command line that encodes into a file: raw pictures of the given size and
/// rate on the standard input, the encoder by its own name with the settings that it
/// needs for short delays and one picture to begin with in every second, a filter that
/// makes the size even, and the place of the output at the end.
pub proof fn encoders_get_their_arguments(
    options: &EncodeSmokeOptions,
    width: u32,
    height: u32,
    fps: u32,
    args: Vec<String>,
)
    requires
        call_ensures(ffmpeg_file_args, (options, width, height, fps), args),
    ensures
        ({
            let e = lower(options.encoder@);
            let rate = decimal(fps as nat);
            let size = decimal(width as nat) + "x"@ + decimal(height as nat);
            let qsv = e == lower("h264_qsv"@) || e == lower("qsv"@);
            let device = if qsv {
                seq!["-init_hw_device"@, "qsv=hw"@, "-filter_hw_device"@, "hw"@]
            } else {
                Seq::empty()
            };
            let input = seq![
                "-hide_banner"@, "-loglevel"@, "error"@, "-y"@, "-f"@, "rawvideo"@,
                "-pixel_format"@, "bgra"@, "-video_size"@, size, "-framerate"@, rate, "-i"@,
                "pipe:0"@, "-an"@,
            ];
            let codec = seq![
                "-c:v"@,
                if e == lower("qsv"@) {
                    "h264_qsv"@
                } else {
                    options.encoder@
                },
            ];
            let tuning = if e == lower("h264_nvenc"@) {
                seq![
                    "-preset"@, "p1"@, "-tune"@, "ll"@, "-rc"@, "constqp"@, "-qp"@, "24"@, "-bf"@,
                    "0"@, "-g"@, rate,
                ]
            } else if e == lower("libx264"@) {
                seq![
                    "-preset"@, "ultrafast"@, "-tune"@, "zerolatency"@, "-x264-params"@,
                    "keyint="@ + rate + ":min-keyint="@ + rate + ":scenecut=0"@,
                ]
            } else if qsv {
                seq![
                    "-preset"@, "veryfast"@, "-look_ahead"@, "0"@, "-bf"@, "0"@, "-g"@, rate,
                ]
            } else {
                Seq::empty()
            };
            let tail = seq![
                "-vf"@,
                if qsv {
                    "scale=trunc(iw/2)*2:trunc(ih/2)*2,format=nv12,hwupload=extra_hw_frames=64"@
                } else {
                    "scale=trunc(iw/2)*2:trunc(ih/2)*2,format=yuv420p"@
                },
                "-f"@,
                "h264"@,
                options.output_path@,
            ];
            texts(args@) == device + input + (codec + tuning) + tail
        }),
{
}

/// Encoding to the standard output takes the same arguments as encoding into a file, but
/// for the place at the end.
pub proof fn pipes_are_the_only_difference(
    options: &EncodeSmokeOptions,
    encoder: &str,
    width: u32,
    height: u32,
    fps: u32,
    into_file: Vec<String>,
    piped: Vec<String>,
)
    requires
        call_ensures(ffmpeg_file_args, (options, width, height, fps), into_file),
        call_ensures(ffmpeg_pipe_args, (encoder, width, height, fps), piped),
        encoder@ == options.encoder@,
    ensures
        texts(piped@).drop_last() == texts(into_file@).drop_last(),
        texts(piped@).last() == "pipe:1"@,
        texts(into_file@).last() == options.output_path@,
{
    assert(texts(piped@).drop_last() =~= texts(into_file@).drop_last());
}

/// Pictures with eight bits per channel go to the native encoder as they are: those that
/// begin with blue as ARGB, those that begin with red as ABGR, each copied into a texture
/// of its own format. Deeper pictures are converted first.
pub proof fn pictures_go_to_the_native_encoder(
    format: DxgiDuplicationFormat,
    deep: bool,
    taken: Result<NvencFormat, NeedsConversion>,
    copied: Result<TextureFormat, NeedsConversion>,
)
    requires
        call_ensures(needs_bgra_gpu_conversion, (format,), deep),
        call_ensures(nvenc_format_for_dxgi, (format,), taken),
        call_ensures(copy_texture_format, (format,), copied),
    ensures
        deep <==> format is Rgba16F || format is Rgb10A2 || format is Rgb10XrA2,
        deep <==> taken is Err,
        deep <==> copied is Err,
        format is Bgra8 ==> taken == Ok::<_, NeedsConversion>(NvencFormat::Argb) && copied == Ok::<
            _,
            NeedsConversion,
        >(TextureFormat::Bgra8Unorm),
        format is Bgra8Srgb ==> taken == Ok::<_, NeedsConversion>(NvencFormat::Argb) && copied
            == Ok::<_, NeedsConversion>(TextureFormat::Bgra8UnormSrgb),
        format is Rgba8 ==> taken == Ok::<_, NeedsConversion>(NvencFormat::Abgr) && copied == Ok::<
            _,
            NeedsConversion,
        >(TextureFormat::Rgba8Unorm),
        format is Rgba8Srgb ==> taken == Ok::<_, NeedsConversion>(NvencFormat::Abgr) && copied
            == Ok::<_, NeedsConversion>(TextureFormat::Rgba8UnormSrgb),
{
}

/// What becomes of what capturing gave: a picture of the right size is encoded, one of
/// another size ends the run, and where nothing new came in time the last picture is
/// shown again, if there is one and the run may do so.
pub proof fn runs_go_on_with_the_last_picture(
    run: &mut EncodeRun,
    event: CaptureEvent,
    step: RefreshStep,
)
    requires
        old(run).wf(),
        old(run).encoded < old(run).frame_count,
        call_ensures(EncodeRun::step, (run, event), step),
    ensures
        event == (CaptureEvent::Frame { width: old(run).width, height: old(run).height }) ==> step
            is TakeNew && final(run).encoded == old(run).encoded + 1 && final(run).reused == old(run).reused,
        event matches CaptureEvent::Frame { width, height } ==> (width != old(run).width || height
            != old(run).height ==> step == (RefreshStep::SizeChanged { width, height })
            && *final(run) == *old(run)),
        event is Timeout && old(run).may_reuse && old(run).encoded > 0 ==> step is KeepLast && final(run).encoded == old(run).encoded + 1 && final(run).reused == old(run).reused + 1,
        event is Timeout && !(old(run).may_reuse && old(run).encoded > 0) ==> step is CaptureFailed
            && *final(run) == *old(run),
        event is Failed ==> step is CaptureFailed && *final(run) == *old(run),
        final(run).frame_count == old(run).frame_count,
{
}

/// A run encodes as many pictures as asked for, one at least, and begins with none; only
/// its first picture is one to begin decoding with.
pub proof fn runs_begin_empty(
    width: u32,
    height: u32,
    frame_count: u32,
    may_reuse: bool,
    run: EncodeRun,
    same: &EncodeRun,
    done: bool,
    index: u32,
    idr: bool,
)
    requires
        call_ensures(EncodeRun::new, (width, height, frame_count, may_reuse), run),
        *same == run,
        call_ensures(EncodeRun::is_done, (same,), done),
        call_ensures(is_idr_picture, (index,), idr),
    ensures
        run.encoded == 0 && run.reused == 0,
        run.width == width && run.height == height && run.may_reuse == may_reuse,
        frame_count > 0 ==> run.frame_count == frame_count,
        frame_count == 0 ==> run.frame_count == 1,
        !done,
        idr <==> index == 0,
{
}

/// The native encoder gets the size and the rate of the pictures, a picture to begin with
/// every second, no pictures out of order, and twenty million bits a second.
pub proof fn native_encoders_get_their_settings(
    width: u32,
    height: u32,
    fps: u32,
    parameters: NvencParameters,
)
    requires
        call_ensures(nvenc_parameters, (width, height, fps), parameters),
    ensures
        parameters.width == width && parameters.height == height && parameters.fps == fps,
        parameters.gop_len == fps,
        parameters.frame_interval_p == 1,
        parameters.average_bit_rate == 20_000_000,
{
}

/// The output of a run is measured in bytes and start codes; one without start codes is a
/// failure.
pub proof fn outputs_are_measured(
    encoded: &[u8],
    summary: Result<EncodedSummary, NoStartCodes>,
    count: usize,
)
    requires
        call_ensures(summarize_output, (encoded,), summary),
        call_ensures(h264_nal_unit_count, (encoded,), count),
    ensures
        summary is Ok <==> count > 0,
        summary matches Ok(s) ==> s.nal_units == count && s.bytes_written == encoded@.len(),
{
}

/// The external encoder is waited for no longer than a frame lasts, and two seconds in
/// all.
pub proof fn waiting_ends_after_two_seconds(elapsed_ms: u64, interval_ms: u64, wait: Option<u64>)
    requires
        call_ensures(output_wait_ms, (elapsed_ms, interval_ms), wait),
    ensures
        wait is None <==> elapsed_ms >= 2000,
        wait matches Some(ms) ==> {
            &&& ms <= interval_ms
            &&& elapsed_ms + ms <= 2000
            &&& ms == interval_ms || elapsed_ms + ms == 2000
        },
{
}

/// The names of the encoders: the automatic choice is a hardware encoder first and a
/// software encoder if that fails, any other name stands for itself.
pub proof fn automatic_encoders_fall_back(
    encoder: &str,
    first: String,
    tried: usize,
    succeeded: bool,
    next: Option<String>,
)
    requires
        call_ensures(first_encoder, (encoder,), first),
        call_ensures(after_encode_attempt, (encoder, tried, succeeded), next),
    ensures
        lower(encoder@) == lower("auto"@) ==> first@ == "h264_nvenc"@,
        lower(encoder@) != lower("auto"@) ==> first@ == encoder@ && next is None,
        lower(encoder@) == lower("auto"@) && tried == 1 && !succeeded ==> next is Some && next->0@
            == "libx264"@,
        succeeded || tried != 1 ==> next is None,
{
}

/// What is told of sizes, sources and formats.
pub proof fn messages_name_sizes_and_formats(
    width: u32,
    height: u32,
    new_width: u32,
    new_height: u32,
    changed: String,
    kind: &str,
    source: &str,
    target: &str,
    live: String,
    format: DxgiDuplicationFormat,
    converted: bool,
    name: Result<&'static str, NeedsConversion>,
)
    requires
        call_ensures(size_change_message, (width, height, new_width, new_height), changed),
        call_ensures(live_source_description, (kind, width, height, source, target), live),
        call_ensures(nvenc_format_name, (format, converted), name),
    ensures
        changed@ == "capture frame size changed from "@ + decimal(width as nat) + "x"@ + decimal(
            height as nat,
        ) + " to "@ + decimal(new_width as nat) + "x"@ + decimal(new_height as nat),
        live@ == kind@ + " live capture "@ + decimal(width as nat) + "x"@ + decimal(height as nat)
            + " "@ + source@ + " -> "@ + target@,
        converted ==> name is Ok && name->Ok_0@ == "ARGB via GPU BGRA8 conversion"@,
        !converted && (format is Bgra8 || format is Bgra8Srgb) ==> name is Ok && name->Ok_0@
            == "ARGB"@,
        !converted && (format is Rgba8 || format is Rgba8Srgb) ==> name is Ok && name->Ok_0@
            == "ABGR"@,
        !converted && (format is Rgba16F || format is Rgb10A2 || format is Rgb10XrA2) ==> name
            is Err,
{
}

/// Only where nothing new came in time is the last picture shown again.
pub proof fn only_timeouts_show_the_last_picture(
    event: CaptureEvent,
    reuse: bool,
    width: u32,
    height: u32,
    may_reuse: bool,
    step: RefreshStep,
)
    requires
        call_ensures(should_reuse_last_frame, (event,), reuse),
        call_ensures(refresh_step, (width, height, may_reuse, event), step),
    ensures
        reuse <==> event is Timeout,
        step is KeepLast <==> event is Timeout && may_reuse,
        step is TakeNew <==> event == (CaptureEvent::Frame { width, height }),
        event is Failed ==> step is CaptureFailed,
        event is Timeout && !may_reuse ==> step is CaptureFailed,
        event matches CaptureEvent::Frame { width: w, height: h } ==> (w != width || h != height
            ==> step == (RefreshStep::SizeChanged { width: w, height: h })),
{
}

} // verus!
