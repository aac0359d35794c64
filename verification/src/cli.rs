//! The command line.
use vstd::prelude::*;
use vstd::string::*;
use crate::config::{default_config_path, DEFAULT_CONFIG_FILE};
use crate::text::{optional_text, parse_number, parse_unsigned, same_text, split_on, texts};

verus! {

/// What to capture.
#[derive(Clone, Copy, Debug, PartialEq, Eq, Structural)]
pub struct CaptureSourceOptions {
    /// The number of a monitor, counted from one.
    pub monitor_index: Option<usize>,
    pub timeout_ms: u32,
}

/// Settings for capturing one picture.
#[derive(Debug, PartialEq, Eq)]
pub struct CaptureSmokeOptions {
    pub output_path: String,
    pub source: CaptureSourceOptions,
}

/// Settings for capturing many pictures.
#[derive(Debug, PartialEq, Eq)]
pub struct CaptureLoopOptions {
    pub source: CaptureSourceOptions,
    pub frame_count: u32,
}

/// Settings for encoding captured pictures with an external program.
#[derive(Debug, PartialEq, Eq)]
pub struct EncodeSmokeOptions {
    pub source: CaptureSourceOptions,
    pub output_path: String,
    pub ffmpeg_path: String,
    pub encoder: String,
    pub frame_count: u32,
    pub fps: u32,
}

/// Settings for encoding captured pictures natively.
#[derive(Debug, PartialEq, Eq)]
pub struct NativeNvencSmokeOptions {
    pub source: CaptureSourceOptions,
    pub output_path: String,
    pub frame_count: u32,
    pub fps: u32,
}

/// What to do.
#[derive(Debug, PartialEq, Eq)]
pub enum Command {
    Serve { config_path: String },
    CaptureSmoke(CaptureSmokeOptions),
    WgcSmoke(CaptureSmokeOptions),
    CaptureLoop(CaptureLoopOptions),
    CaptureList,
    EncodeSmoke(EncodeSmokeOptions),
    QsvSmoke(EncodeSmokeOptions),
    NativeNvencSmoke(NativeNvencSmokeOptions),
}

/// The options that take a value.
#[derive(Clone, Copy, Debug, PartialEq, Eq, Structural)]
pub enum Flag {
    Output,
    Ffmpeg,
    Encoder,
    Frames,
    Fps,
    Monitor,
    TimeoutMs,
}

/// Why the command line cannot be followed.
#[derive(Clone, Copy, Debug, PartialEq, Eq, Structural)]
pub enum CliError {
    /// `--config` stands last.
    MissingConfigPath,
    /// An option stands last.
    MissingValue(Flag),
    /// The value of an option is no number that fits it.
    InvalidNumber(Flag),
    /// Anything else; the usage text says what is possible.
    Usage,
}

/// The options that a command knows besides `--monitor` and `--timeout-ms`.
#[derive(Clone, Copy, Debug, PartialEq, Eq, Structural)]
pub struct KnownFlags {
    pub output: bool,
    pub ffmpeg: bool,
    pub encoder: bool,
    pub frames: bool,
    pub fps: bool,
}

/// The values given for the options.
#[derive(Debug, PartialEq, Eq)]
pub struct GivenOptions {
    pub output: Option<String>,
    pub ffmpeg: Option<String>,
    pub encoder: Option<String>,
    pub frames: Option<u32>,
    pub fps: Option<u32>,
    pub monitor: Option<usize>,
    pub timeout_ms: Option<u32>,
}

/// The values given for the options, as plain values.
pub struct OptionsModel {
    pub output: Option<Seq<char>>,
    pub ffmpeg: Option<Seq<char>>,
    pub encoder: Option<Seq<char>>,
    pub frames: Option<u32>,
    pub fps: Option<u32>,
    pub monitor: Option<usize>,
    pub timeout_ms: Option<u32>,
}

impl View for GivenOptions {
    type V = OptionsModel;

    open spec fn view(&self) -> OptionsModel {
        OptionsModel {
            output: optional_text(self.output),
            ffmpeg: optional_text(self.ffmpeg),
            encoder: optional_text(self.encoder),
            frames: self.frames,
            fps: self.fps,
            monitor: self.monitor,
            timeout_ms: self.timeout_ms,
        }
    }
}

/// No values at all.
pub open spec fn no_options() -> OptionsModel {
    OptionsModel {
        output: None,
        ffmpeg: None,
        encoder: None,
        frames: None,
        fps: None,
        monitor: None,
        timeout_ms: None,
    }
}

/// The option that an argument names, among those that the command knows.
pub open spec fn flag_of(arg: Seq<char>, known: KnownFlags) -> Option<Flag> {
    if arg == "--output"@ && known.output {
        Some(Flag::Output)
    } else if arg == "--ffmpeg"@ && known.ffmpeg {
        Some(Flag::Ffmpeg)
    } else if arg == "--encoder"@ && known.encoder {
        Some(Flag::Encoder)
    } else if arg == "--frames"@ && known.frames {
        Some(Flag::Frames)
    } else if arg == "--fps"@ && known.fps {
        Some(Flag::Fps)
    } else if arg == "--monitor"@ {
        Some(Flag::Monitor)
    } else if arg == "--timeout-ms"@ {
        Some(Flag::TimeoutMs)
    } else {
        None
    }
}

/// The number that a value writes, as one of 32 bits.
pub open spec fn number32(value: Seq<char>) -> Option<u32> {
    match parse_unsigned(value, u32::MAX as nat) {
        Some(n) => Some(n as u32),
        None => None,
    }
}

/// The number that a value writes, as a `usize`.
pub open spec fn number_size(value: Seq<char>) -> Option<usize> {
    match parse_unsigned(value, usize::MAX as nat) {
        Some(n) => Some(n as usize),
        None => None,
    }
}

/// The values once one more has been given; a later one replaces an earlier one.
pub open spec fn with_value(given: OptionsModel, flag: Flag, value: Seq<char>) -> Result<
    OptionsModel,
    CliError,
> {
    match flag {
        Flag::Output => Ok(OptionsModel { output: Some(value), ..given }),
        Flag::Ffmpeg => Ok(OptionsModel { ffmpeg: Some(value), ..given }),
        Flag::Encoder => Ok(OptionsModel { encoder: Some(value), ..given }),
        Flag::Frames => match number32(value) {
            Some(n) => Ok(OptionsModel { frames: Some(n), ..given }),
            None => Err(CliError::InvalidNumber(flag)),
        },
        Flag::Fps => match number32(value) {
            Some(n) => Ok(OptionsModel { fps: Some(n), ..given }),
            None => Err(CliError::InvalidNumber(flag)),
        },
        Flag::Monitor => match number_size(value) {
            Some(n) => Ok(OptionsModel { monitor: Some(n), ..given }),
            None => Err(CliError::InvalidNumber(flag)),
        },
        Flag::TimeoutMs => match number32(value) {
            Some(n) => Ok(OptionsModel { timeout_ms: Some(n), ..given }),
            None => Err(CliError::InvalidNumber(flag)),
        },
    }
}

/// The values that a list of options and values gives on top of `given`.
pub open spec fn options_of(args: Seq<Seq<char>>, known: KnownFlags, given: OptionsModel) -> Result<
    OptionsModel,
    CliError,
>
    decreases args.len(),
{
    if args.len() == 0 {
        Ok(given)
    } else {
        match flag_of(args[0], known) {
            None => Err(CliError::Usage),
            Some(flag) => if args.len() < 2 {
                Err(CliError::MissingValue(flag))
            } else {
                match with_value(given, flag, args[1]) {
                    Err(e) => Err(e),
                    Ok(next) => options_of(args.skip(2), known, next),
                }
            },
        }
    }
}

/// The option that an argument names.
fn read_flag(arg: &str, known: KnownFlags) -> (flag: Option<Flag>)
    ensures
        flag == flag_of(arg@, known),
{
    if known.output && same_text(arg, "--output") {
        Some(Flag::Output)
    } else if known.ffmpeg && same_text(arg, "--ffmpeg") {
        Some(Flag::Ffmpeg)
    } else if known.encoder && same_text(arg, "--encoder") {
        Some(Flag::Encoder)
    } else if known.frames && same_text(arg, "--frames") {
        Some(Flag::Frames)
    } else if known.fps && same_text(arg, "--fps") {
        Some(Flag::Fps)
    } else if same_text(arg, "--monitor") {
        Some(Flag::Monitor)
    } else if same_text(arg, "--timeout-ms") {
        Some(Flag::TimeoutMs)
    } else {
        None
    }
}

/// The number that a value writes, as one of 32 bits.
pub fn parse_u32(value: &str) -> (number: Option<u32>)
    ensures
        number == number32(value@),
{
    match parse_number(value, 0xffff_ffff) {
        Some(n) => Some(n as u32),
        None => None,
    }
}

/// The number that a value writes, as a `usize`.
pub fn parse_usize(value: &str) -> (number: Option<usize>)
    ensures
        number == number_size(value@),
{
    let most: u64 = usize::MAX as u64;
    assert(most as nat == usize::MAX as nat);
    match parse_number(value, most) {
        Some(n) => Some(n as usize),
        None => None,
    }
}

/// Takes in one more value.
fn store_value(given: &mut GivenOptions, flag: Flag, value: &str) -> (stored: Result<(), CliError>)
    ensures
        match stored {
            Ok(()) => with_value(old(given)@, flag, value@) == Ok::<_, CliError>(final(given)@),
            Err(e) => with_value(old(given)@, flag, value@) == Err::<OptionsModel, _>(e),
        },
{
    match flag {
        Flag::Output => {
            given.output = Some(value.to_owned());
        },
        Flag::Ffmpeg => {
            given.ffmpeg = Some(value.to_owned());
        },
        Flag::Encoder => {
            given.encoder = Some(value.to_owned());
        },
        Flag::Frames => match parse_u32(value) {
            Some(n) => {
                given.frames = Some(n);
            },
            None => {
                return Err(CliError::InvalidNumber(flag));
            },
        },
        Flag::Fps => match parse_u32(value) {
            Some(n) => {
                given.fps = Some(n);
            },
            None => {
                return Err(CliError::InvalidNumber(flag));
            },
        },
        Flag::Monitor => match parse_usize(value) {
            Some(n) => {
                given.monitor = Some(n);
            },
            None => {
                return Err(CliError::InvalidNumber(flag));
            },
        },
        Flag::TimeoutMs => match parse_u32(value) {
            Some(n) => {
                given.timeout_ms = Some(n);
            },
            None => {
                return Err(CliError::InvalidNumber(flag));
            },
        },
    }
    Ok(())
}

/// Reads a list of options and values.
fn parse_options(args: &[String], known: KnownFlags) -> (options: Result<GivenOptions, CliError>)
    ensures
        match options {
            Ok(given) => options_of(texts(args@), known, no_options()) == Ok::<_, CliError>(given@),
            Err(e) => options_of(texts(args@), known, no_options()) == Err::<OptionsModel, _>(e),
        },
{
    let mut given = GivenOptions {
        output: None,
        ffmpeg: None,
        encoder: None,
        frames: None,
        fps: None,
        monitor: None,
        timeout_ms: None,
    };
    let ghost all = texts(args@);
    let total: usize = args.len();
    let mut i: usize = 0;
    assert(all.skip(0) =~= all);
    while i < total
        invariant
            all == texts(args@),
            i <= total == args@.len(),
            options_of(all, known, no_options()) == options_of(all.skip(i as int), known, given@),
        decreases total - i,
    {
        let ghost rest = all.skip(i as int);
        assert(rest[0] == args@[i as int]@);
        match read_flag(args[i].as_str(), known) {
            None => {
                return Err(CliError::Usage);
            },
            Some(flag) => {
                if total - i < 2 {
                    return Err(CliError::MissingValue(flag));
                }
                assert(rest[1] == args@[i + 1]@);
                match store_value(&mut given, flag, args[i + 1].as_str()) {
                    Err(e) => {
                        return Err(e);
                    },
                    Ok(()) => {},
                }
                assert(rest.skip(2) =~= all.skip(i + 2));
                i += 2;
            },
        }
    }
    Ok(given)
}

// ---------------------------------------------------------------------------
// Commands
// ---------------------------------------------------------------------------
/// A given value, or the default.
pub open spec fn or_default<T>(given: Option<T>, default: T) -> T {
    match given {
        Some(value) => value,
        None => default,
    }
}

/// A given text, or the default.
fn text_or(given: Option<String>, default: &str) -> (text: String)
    ensures
        text@ == or_default(optional_text(given), default@),
{
    match given {
        Some(text) => text,
        None => default.to_owned(),
    }
}

/// A given number, or the default.
fn number_or(given: Option<u32>, default: u32) -> (number: u32)
    ensures
        number == or_default(given, default),
{
    match given {
        Some(number) => number,
        None => default,
    }
}

/// What to capture, by the given values.
pub open spec fn source_of(given: OptionsModel) -> CaptureSourceOptions {
    CaptureSourceOptions {
        monitor_index: given.monitor,
        timeout_ms: or_default(given.timeout_ms, 33),
    }
}

/// The options of `capture-smoke` and `wgc-smoke`.
pub open spec fn capture_smoke_flags() -> KnownFlags {
    KnownFlags { output: true, ffmpeg: false, encoder: false, frames: false, fps: false }
}

/// The settings are those that the given values and the defaults make.
pub open spec fn is_capture_smoke(options: CaptureSmokeOptions, given: OptionsModel) -> bool {
    &&& options.output_path@ == or_default(given.output, "target/capture-smoke/frame.bmp"@)
    &&& options.source == source_of(given)
}

/// Reads the options of `capture-smoke` and `wgc-smoke`.
pub fn parse_capture_smoke(args: &[String]) -> (options: Result<CaptureSmokeOptions, CliError>)
    ensures
        match options_of(texts(args@), capture_smoke_flags(), no_options()) {
            Ok(given) => options matches Ok(o) && is_capture_smoke(o, given),
            Err(e) => options matches Err(r) && r == e,
        },
{
    let known = KnownFlags {
        output: true,
        ffmpeg: false,
        encoder: false,
        frames: false,
        fps: false,
    };
    match parse_options(args, known) {
        Err(e) => Err(e),
        Ok(given) => Ok(
            CaptureSmokeOptions {
                source: CaptureSourceOptions {
                    monitor_index: given.monitor,
                    timeout_ms: number_or(given.timeout_ms, 33),
                },
                output_path: text_or(given.output, "target/capture-smoke/frame.bmp"),
            },
        ),
    }
}

/// The options of `capture-loop`.
pub open spec fn capture_loop_flags() -> KnownFlags {
    KnownFlags { output: false, ffmpeg: false, encoder: false, frames: true, fps: false }
}

/// The settings are those that the given values and the defaults make.
pub open spec fn is_capture_loop(options: CaptureLoopOptions, given: OptionsModel) -> bool {
    &&& options.frame_count == or_default(given.frames, 120u32)
    &&& options.source == source_of(given)
}

/// Reads the options of `capture-loop`.
pub fn parse_capture_loop(args: &[String]) -> (options: Result<CaptureLoopOptions, CliError>)
    ensures
        match options_of(texts(args@), capture_loop_flags(), no_options()) {
            Ok(given) => options matches Ok(o) && is_capture_loop(o, given),
            Err(e) => options matches Err(r) && r == e,
        },
{
    let known = KnownFlags {
        output: false,
        ffmpeg: false,
        encoder: false,
        frames: true,
        fps: false,
    };
    match parse_options(args, known) {
        Err(e) => Err(e),
        Ok(given) => Ok(
            CaptureLoopOptions {
                source: CaptureSourceOptions {
                    monitor_index: given.monitor,
                    timeout_ms: number_or(given.timeout_ms, 33),
                },
                frame_count: number_or(given.frames, 120),
            },
        ),
    }
}

/// The options of `encode-smoke` and `qsv-smoke`.
pub open spec fn encode_smoke_flags() -> KnownFlags {
    KnownFlags { output: true, ffmpeg: true, encoder: true, frames: true, fps: true }
}

/// Where `encode-smoke` writes unless told otherwise.
pub const ENCODE_SMOKE_OUTPUT: &'static str = "target/capture-smoke/capture.h264";

/// Where `qsv-smoke` writes unless told otherwise.
pub const QSV_SMOKE_OUTPUT: &'static str = "target/capture-smoke/qsv.h264";

/// The settings are those that the given values and the defaults make.
pub open spec fn is_encode_smoke(options: EncodeSmokeOptions, given: OptionsModel) -> bool {
    &&& options.output_path@ == or_default(given.output, ENCODE_SMOKE_OUTPUT@)
    &&& options.ffmpeg_path@ == or_default(given.ffmpeg, "ffmpeg.exe"@)
    &&& options.encoder@ == or_default(given.encoder, "auto"@)
    &&& options.frame_count == or_default(given.frames, 120u32)
    &&& options.fps == or_default(given.fps, 30u32)
    &&& options.source == source_of(given)
}

/// Reads the options of `encode-smoke`.
pub fn parse_encode_smoke(args: &[String]) -> (options: Result<EncodeSmokeOptions, CliError>)
    ensures
        match options_of(texts(args@), encode_smoke_flags(), no_options()) {
            Ok(given) => options matches Ok(o) && is_encode_smoke(o, given),
            Err(e) => options matches Err(r) && r == e,
        },
{
    let known = KnownFlags { output: true, ffmpeg: true, encoder: true, frames: true, fps: true };
    match parse_options(args, known) {
        Err(e) => Err(e),
        Ok(given) => Ok(
            EncodeSmokeOptions {
                source: CaptureSourceOptions {
                    monitor_index: given.monitor,
                    timeout_ms: number_or(given.timeout_ms, 33),
                },
                output_path: text_or(given.output, ENCODE_SMOKE_OUTPUT),
                ffmpeg_path: text_or(given.ffmpeg, "ffmpeg.exe"),
                encoder: text_or(given.encoder, "auto"),
                frame_count: number_or(given.frames, 120),
                fps: number_or(given.fps, 30),
            },
        ),
    }
}

/// The pieces of a path that count: not the empty ones, nor a `.` but at the start.
pub open spec fn path_names(pieces: Seq<Seq<char>>) -> Seq<Seq<char>>
    decreases pieces.len(),
{
    if pieces.len() == 0 {
        Seq::empty()
    } else {
        let before = path_names(pieces.drop_last());
        let piece = pieces.last();
        if piece.len() == 0 || (piece == seq!['.'] && pieces.len() > 1) {
            before
        } else {
            before.push(piece)
        }
    }
}

/// Whether a path begins at the root, and the names on it, where `/` separates them.
pub open spec fn path_components(path: Seq<char>) -> (bool, Seq<Seq<char>>) {
    (path.len() > 0 && path[0] == '/', path_names(split_on(path, seq!['/'])))
}

/// The path with `/` for each `\`.
pub open spec fn with_slashes(path: Seq<char>) -> Seq<char> {
    path.map_values(
        |c: char|
            if c == '\\' {
                '/'
            } else {
                c
            },
    )
}

/// The path does not begin at a root, and names no drive, on any platform.
pub open spec fn is_plain_path(path: Seq<char>) -> bool {
    &&& path.len() > 0 ==> path[0] != '/'
    &&& !path.contains('\\')
    &&& !path.contains(':')
}

/// `std::path::Path`'s `==`: whether two texts name the same path, compared
/// component by component, with repeated separators, a separator at the end and
/// each `.` but one at the start left out. Trusted: equal texts are the same path.
/// And, where the second path begins at no root and names no drive: texts with the
/// same components at `/` are the same path, and texts that are the same path have
/// the same components where `\` counts as `/`, down to the case of letters. Whether
/// `\` separates depends on the platform and is left unsaid, and so is more of a
/// second path with a root or a drive.
#[verifier::external_body]
fn same_path(a: &str, b: &str) -> (same: bool)
    ensures
        a@ == b@ ==> same,
        is_plain_path(b@) && path_components(a@) == path_components(b@) ==> same,
        is_plain_path(b@) && same ==> path_components(with_slashes(a@)) == path_components(b@),
{
    std::path::Path::new(a) == std::path::Path::new(b)
}

/// The settings of `qsv-smoke`: those of `encode-smoke` with the encoder fixed,
/// and with an output of its own in place of the default one.
pub fn qsv_options(options: EncodeSmokeOptions, output_is_default: bool) -> (qsv: EncodeSmokeOptions)
    ensures
        qsv.encoder@ == "h264_qsv"@,
        qsv.output_path@ == if output_is_default {
            QSV_SMOKE_OUTPUT@
        } else {
            options.output_path@
        },
        qsv.ffmpeg_path@ == options.ffmpeg_path@,
        qsv.frame_count == options.frame_count,
        qsv.fps == options.fps,
        qsv.source == options.source,
{
    let mut qsv = options;
    qsv.encoder = "h264_qsv".to_owned();
    if output_is_default {
        qsv.output_path = QSV_SMOKE_OUTPUT.to_owned();
    }
    qsv
}

/// The settings are those of `qsv-smoke`. A given output is replaced where it names
/// the same path as the default of `encode-smoke`, and else kept. Only of one that
/// does so with `\` for some `/` it is left open, since platforms differ there.
pub open spec fn is_qsv_smoke(options: EncodeSmokeOptions, given: OptionsModel) -> bool {
    let output = or_default(given.output, ENCODE_SMOKE_OUTPUT@);
    &&& options.encoder@ == "h264_qsv"@
    &&& options.output_path@ == QSV_SMOKE_OUTPUT@ || options.output_path@ == output
    &&& path_components(output) == path_components(ENCODE_SMOKE_OUTPUT@)
        ==> options.output_path@ == QSV_SMOKE_OUTPUT@
    &&& path_components(with_slashes(output)) != path_components(ENCODE_SMOKE_OUTPUT@)
        ==> options.output_path@ == output
    &&& options.ffmpeg_path@ == or_default(given.ffmpeg, "ffmpeg.exe"@)
    &&& options.frame_count == or_default(given.frames, 120u32)
    &&& options.fps == or_default(given.fps, 30u32)
    &&& options.source == source_of(given)
}

/// Reads the options of `qsv-smoke`.
pub fn parse_qsv_smoke(args: &[String]) -> (options: Result<EncodeSmokeOptions, CliError>)
    ensures
        match options_of(texts(args@), encode_smoke_flags(), no_options()) {
            Ok(given) => options matches Ok(o) && is_qsv_smoke(o, given),
            Err(e) => options matches Err(r) && r == e,
        },
{
    match parse_encode_smoke(args) {
        Err(e) => Err(e),
        Ok(options) => {
            proof {
                reveal_strlit("target/capture-smoke/capture.h264");
                assert(is_plain_path(ENCODE_SMOKE_OUTPUT@));
            }
            let output_is_default = same_path(options.output_path.as_str(), ENCODE_SMOKE_OUTPUT);
            Ok(qsv_options(options, output_is_default))
        },
    }
}

/// The options of `native-nvenc-smoke`.
pub open spec fn native_smoke_flags() -> KnownFlags {
    KnownFlags { output: true, ffmpeg: false, encoder: false, frames: true, fps: true }
}

/// The settings are those that the given values and the defaults make.
pub open spec fn is_native_smoke(options: NativeNvencSmokeOptions, given: OptionsModel) -> bool {
    &&& options.output_path@ == or_default(given.output, "target/capture-smoke/native-nvenc.h264"@)
    &&& options.frame_count == or_default(given.frames, 120u32)
    &&& options.fps == or_default(given.fps, 30u32)
    &&& options.source == source_of(given)
}

/// Reads the options of `native-nvenc-smoke`.
pub fn parse_native_nvenc_smoke(args: &[String]) -> (options: Result<
    NativeNvencSmokeOptions,
    CliError,
>)
    ensures
        match options_of(texts(args@), native_smoke_flags(), no_options()) {
            Ok(given) => options matches Ok(o) && is_native_smoke(o, given),
            Err(e) => options matches Err(r) && r == e,
        },
{
    let known = KnownFlags { output: true, ffmpeg: false, encoder: false, frames: true, fps: true };
    match parse_options(args, known) {
        Err(e) => Err(e),
        Ok(given) => Ok(
            NativeNvencSmokeOptions {
                source: CaptureSourceOptions {
                    monitor_index: given.monitor,
                    timeout_ms: number_or(given.timeout_ms, 33),
                },
                output_path: text_or(given.output, "target/capture-smoke/native-nvenc.h264"),
                frame_count: number_or(given.frames, 120),
                fps: number_or(given.fps, 30),
            },
        ),
    }
}

/// The command is the one that the arguments ask for.
pub open spec fn is_command(command: Result<Command, CliError>, args: Seq<Seq<char>>) -> bool {
    let rest = args.skip(1);
    if args.len() == 0 {
        command matches Ok(Command::Serve { config_path }) && config_path@ == DEFAULT_CONFIG_FILE@
    } else if args[0] == "--config"@ {
        if args.len() == 1 {
            command matches Err(e) && e is MissingConfigPath
        } else if args.len() == 2 {
            command matches Ok(Command::Serve { config_path }) && config_path@ == args[1]
        } else {
            command matches Err(e) && e is Usage
        }
    } else if args[0] == "capture-smoke"@ {
        match options_of(rest, capture_smoke_flags(), no_options()) {
            Ok(given) => command matches Ok(Command::CaptureSmoke(o)) && is_capture_smoke(o, given),
            Err(e) => command matches Err(r) && r == e,
        }
    } else if args[0] == "wgc-smoke"@ {
        match options_of(rest, capture_smoke_flags(), no_options()) {
            Ok(given) => command matches Ok(Command::WgcSmoke(o)) && is_capture_smoke(o, given),
            Err(e) => command matches Err(r) && r == e,
        }
    } else if args[0] == "capture-loop"@ {
        match options_of(rest, capture_loop_flags(), no_options()) {
            Ok(given) => command matches Ok(Command::CaptureLoop(o)) && is_capture_loop(o, given),
            Err(e) => command matches Err(r) && r == e,
        }
    } else if args[0] == "capture-list"@ {
        if args.len() == 1 {
            command matches Ok(Command::CaptureList)
        } else {
            command matches Err(e) && e is Usage
        }
    } else if args[0] == "encode-smoke"@ {
        match options_of(rest, encode_smoke_flags(), no_options()) {
            Ok(given) => command matches Ok(Command::EncodeSmoke(o)) && is_encode_smoke(o, given),
            Err(e) => command matches Err(r) && r == e,
        }
    } else if args[0] == "qsv-smoke"@ {
        match options_of(rest, encode_smoke_flags(), no_options()) {
            Ok(given) => command matches Ok(Command::QsvSmoke(o)) && is_qsv_smoke(o, given),
            Err(e) => command matches Err(r) && r == e,
        }
    } else if args[0] == "native-nvenc-smoke"@ {
        match options_of(rest, native_smoke_flags(), no_options()) {
            Ok(given) => command matches Ok(Command::NativeNvencSmoke(o)) && is_native_smoke(
                o,
                given,
            ),
            Err(e) => command matches Err(r) && r == e,
        }
    } else {
        command matches Err(e) && e is Usage
    }
}

/// Reads the command line; `args` are the arguments after the program's name.
pub fn parse_command(args: &[String]) -> (command: Result<Command, CliError>)
    ensures
        is_command(command, texts(args@)),
{
    let total: usize = args.len();
    if total == 0 {
        return Ok(Command::Serve { config_path: default_config_path().to_owned() });
    }
    assert(texts(args@)[0] == args@[0]@);
    let first = args[0].as_str();
    let rest = &args[1..total];
    assert(texts(rest@) =~= texts(args@).skip(1));
    if same_text(first, "--config") {
        if total == 1 {
            return Err(CliError::MissingConfigPath);
        }
        if total > 2 {
            return Err(CliError::Usage);
        }
        assert(texts(args@)[1] == args@[1]@);
        return Ok(Command::Serve { config_path: args[1].as_str().to_owned() });
    }
    if same_text(first, "capture-smoke") {
        return match parse_capture_smoke(rest) {
            Ok(options) => Ok(Command::CaptureSmoke(options)),
            Err(e) => Err(e),
        };
    }
    if same_text(first, "wgc-smoke") {
        return match parse_capture_smoke(rest) {
            Ok(options) => Ok(Command::WgcSmoke(options)),
            Err(e) => Err(e),
        };
    }
    if same_text(first, "capture-loop") {
        return match parse_capture_loop(rest) {
            Ok(options) => Ok(Command::CaptureLoop(options)),
            Err(e) => Err(e),
        };
    }
    if same_text(first, "capture-list") {
        if total > 1 {
            return Err(CliError::Usage);
        }
        return Ok(Command::CaptureList);
    }
    if same_text(first, "encode-smoke") {
        return match parse_encode_smoke(rest) {
            Ok(options) => Ok(Command::EncodeSmoke(options)),
            Err(e) => Err(e),
        };
    }
    if same_text(first, "qsv-smoke") {
        return match parse_qsv_smoke(rest) {
            Ok(options) => Ok(Command::QsvSmoke(options)),
            Err(e) => Err(e),
        };
    }
    if same_text(first, "native-nvenc-smoke") {
        return match parse_native_nvenc_smoke(rest) {
            Ok(options) => Ok(Command::NativeNvencSmoke(options)),
            Err(e) => Err(e),
        };
    }
    Err(CliError::Usage)
}

/// A value given twice counts as it was given last.
pub proof fn last_value_counts(given: OptionsModel, flag: Flag, first: Seq<char>, last: Seq<char>)
    requires
        with_value(given, flag, first) is Ok,
    ensures
        with_value(with_value(given, flag, first)->Ok_0, flag, last) == with_value(
            given,
            flag,
            last,
        ),
{
}

/// Values for different options do not disturb each other: their order does not
/// matter.
pub proof fn order_of_options_does_not_matter(
    given: OptionsModel,
    first: Flag,
    a: Seq<char>,
    second: Flag,
    b: Seq<char>,
)
    requires
        first != second,
        with_value(given, first, a) is Ok,
        with_value(given, second, b) is Ok,
    ensures
        with_value(with_value(given, first, a)->Ok_0, second, b) == with_value(
            with_value(given, second, b)->Ok_0,
            first,
            a,
        ),
{
}

// ---------------------------------------------------------------------------
// Messages
// ---------------------------------------------------------------------------
pub const USAGE: &'static str =
    "usage: cargo run -p sunrise-daemon -- [--config path/to/sunrise.toml]\n       cargo run -p sunrise-daemon --features capture-windows -- capture-list\n       cargo run -p sunrise-daemon --features capture-windows -- capture-smoke [--monitor 1] [--output target/capture-smoke/frame.bmp] [--timeout-ms 33]\n       cargo run -p sunrise-daemon --features capture-windows -- wgc-smoke [--monitor 1] [--output target/capture-smoke/frame.bmp] [--timeout-ms 1000]\n       cargo run -p sunrise-daemon --features capture-windows -- capture-loop [--monitor 1] [--frames 120] [--timeout-ms 33]\n       cargo run -p sunrise-daemon --features capture-windows -- encode-smoke [--monitor 1] [--frames 120] [--fps 30] [--encoder auto|h264_nvenc|h264_qsv|libx264] [--ffmpeg ffmpeg.exe] [--output target/capture-smoke/capture.h264]\n       cargo run -p sunrise-daemon --features capture-windows -- qsv-smoke [--monitor 1] [--frames 120] [--fps 30] [--ffmpeg ffmpeg.exe] [--output target/capture-smoke/qsv.h264]\n       cargo run -p sunrise-daemon --features native-nvenc -- native-nvenc-smoke [--monitor 1] [--frames 120] [--fps 30] [--output target/capture-smoke/native-nvenc.h264]";

/// How the program is used.
pub fn usage() -> (text: &'static str)
    ensures
        text@ == USAGE@,
{
    USAGE
}

impl Flag {
    /// The option as it is written.
    pub open spec fn text(self) -> Seq<char> {
        match self {
            Flag::Output => "--output"@,
            Flag::Ffmpeg => "--ffmpeg"@,
            Flag::Encoder => "--encoder"@,
            Flag::Frames => "--frames"@,
            Flag::Fps => "--fps"@,
            Flag::Monitor => "--monitor"@,
            Flag::TimeoutMs => "--timeout-ms"@,
        }
    }

    /// The option as it is written.
    pub fn name(self) -> (name: &'static str)
        ensures
            name@ == self.text(),
    {
        match self {
            Flag::Output => "--output",
            Flag::Ffmpeg => "--ffmpeg",
            Flag::Encoder => "--encoder",
            Flag::Frames => "--frames",
            Flag::Fps => "--fps",
            Flag::Monitor => "--monitor",
            Flag::TimeoutMs => "--timeout-ms",
        }
    }
}

impl CliError {
    /// What to tell the user.
    pub open spec fn text(self) -> Seq<char> {
        match self {
            CliError::MissingConfigPath => "missing path after --config"@,
            CliError::MissingValue(flag) => "missing value after "@ + flag.text(),
            CliError::InvalidNumber(Flag::Monitor) =>
                "failed to parse --monitor as a one-based monitor index"@,
            CliError::InvalidNumber(Flag::Frames) => "failed to parse --frames as a frame count"@,
            CliError::InvalidNumber(Flag::TimeoutMs) =>
                "failed to parse --timeout-ms as milliseconds"@,
            CliError::InvalidNumber(flag) => "failed to parse "@ + flag.text(),
            CliError::Usage => USAGE@,
        }
    }

    /// What to tell the user.
    pub fn message(self) -> (text: String)
        ensures
            text@ == self.text(),
    {
        match self {
            CliError::MissingConfigPath => "missing path after --config".to_owned(),
            CliError::MissingValue(flag) => {
                let mut text = "missing value after ".to_owned();
                text.append(flag.name());
                text
            },
            CliError::InvalidNumber(flag) => match flag {
                Flag::Monitor => "failed to parse --monitor as a one-based monitor index".to_owned(),
                Flag::Frames => "failed to parse --frames as a frame count".to_owned(),
                Flag::TimeoutMs => "failed to parse --timeout-ms as milliseconds".to_owned(),
                _ => {
                    let mut text = "failed to parse ".to_owned();
                    text.append(flag.name());
                    text
                },
            },
            CliError::Usage => usage().to_owned(),
        }
    }
}

// ---------------------------------------------------------------------------
// What the command line leads to
// ---------------------------------------------------------------------------
proof fn lemma_flags_differ()
    ensures
        "--output"@.len() == 8,
        "--ffmpeg"@.len() == 8,
        "--output"@ != "--ffmpeg"@,
        "--output"@ != "--frames"@,
        "--ffmpeg"@ != "--frames"@,
        "--encoder"@.len() == 9,
        "--monitor"@.len() == 9,
        "--encoder"@ != "--monitor"@,
        "--frames"@.len() == 8,
        "--fps"@.len() == 5,
        "--timeout-ms"@.len() == 12,
{
    reveal_strlit("--output");
    reveal_strlit("--ffmpeg");
    reveal_strlit("--encoder");
    reveal_strlit("--monitor");
    reveal_strlit("--frames");
    reveal_strlit("--fps");
    reveal_strlit("--timeout-ms");
    assert("--output"@[2] == 'o' && "--ffmpeg"@[3] == 'f' && "--frames"@[3] == 'r');
    assert("--ffmpeg"@[2] == 'f' && "--frames"@[2] == 'f');
    assert("--encoder"@[2] == 'e' && "--monitor"@[2] == 'm');
}

proof fn lemma_one_option(args: Seq<Seq<char>>, known: KnownFlags)
    ensures
        args.len() == 0 ==> options_of(args, known, no_options()) == Ok::<_, CliError>(
            no_options(),
        ),
        args.len() == 1 ==> options_of(args, known, no_options()) == Err::<OptionsModel, _>(
            match flag_of(args[0], known) {
                None => CliError::Usage,
                Some(flag) => CliError::MissingValue(flag),
            },
        ),
        args.len() == 2 ==> options_of(args, known, no_options()) == match flag_of(args[0], known) {
            None => Err(CliError::Usage),
            Some(flag) => with_value(no_options(), flag, args[1]),
        },
{
    reveal_with_fuel(options_of, 2);
    if args.len() == 2 {
        assert(args.skip(2).len() == 0);
    }
}

/// `encode-smoke` without options captures 120 pictures at 30 a second, waits 33
/// milliseconds for each, and encodes them with `ffmpeg.exe` and the automatic choice of
/// an encoder. Each option changes its own setting and no other.
pub proof fn encode_options_set_what_they_name(
    args: &[String],
    options: Result<EncodeSmokeOptions, CliError>,
)
    requires
        call_ensures(parse_encode_smoke, (args,), options),
        args@.len() == 0 || args@.len() == 2,
    ensures
        ({
            let flag = if args@.len() == 2 {
                args@[0]@
            } else {
                Seq::empty()
            };
            let value = args@[1]@;
            let number = parse_unsigned(value, u32::MAX as nat);
            let index = parse_unsigned(value, usize::MAX as nat);
            let known = flag == "--output"@ || flag == "--ffmpeg"@ || flag == "--encoder"@;
            let counted = flag == "--frames"@ || flag == "--fps"@ || flag == "--timeout-ms"@;
            &&& args@.len() == 0 || known ==> options is Ok
            &&& counted ==> (options is Ok <==> number is Some)
            &&& flag == "--monitor"@ ==> (options is Ok <==> index is Some)
            &&& args@.len() == 2 && !known && !counted && flag != "--monitor"@ ==> options == Err::<
                EncodeSmokeOptions,
                _,
            >(CliError::Usage)
            &&& options is Ok ==> {
                let o = options->Ok_0;
                &&& o.output_path@ == if flag == "--output"@ {
                    value
                } else {
                    "target/capture-smoke/capture.h264"@
                }
                &&& o.ffmpeg_path@ == if flag == "--ffmpeg"@ {
                    value
                } else {
                    "ffmpeg.exe"@
                }
                &&& o.encoder@ == if flag == "--encoder"@ {
                    value
                } else {
                    "auto"@
                }
                &&& o.frame_count == if flag == "--frames"@ {
                    number->0
                } else {
                    120
                }
                &&& o.fps == if flag == "--fps"@ {
                    number->0
                } else {
                    30
                }
                &&& o.source.timeout_ms == if flag == "--timeout-ms"@ {
                    number->0
                } else {
                    33
                }
                &&& o.source.monitor_index == if flag == "--monitor"@ {
                    Some(index->0 as usize)
                } else {
                    None
                }
            }
        }),
{
    lemma_flags_differ();
    let all = texts(args@);
    assert(all.len() == args@.len());
    lemma_one_option(all, encode_smoke_flags());
    if args@.len() == 2 {
        assert(all[0] == args@[0]@ && all[1] == args@[1]@);
    }
}

/// `capture-smoke` and `wgc-smoke` write one picture to a bitmap file, `capture-loop`
/// captures 120 pictures, and `native-nvenc-smoke` encodes 120 pictures at 30 a second;
/// all wait 33 milliseconds for a picture unless told otherwise.
pub proof fn other_commands_have_their_defaults(
    args: &[String],
    smoke: Result<CaptureSmokeOptions, CliError>,
    looped: Result<CaptureLoopOptions, CliError>,
    native: Result<NativeNvencSmokeOptions, CliError>,
)
    requires
        call_ensures(parse_capture_smoke, (args,), smoke),
        call_ensures(parse_capture_loop, (args,), looped),
        call_ensures(parse_native_nvenc_smoke, (args,), native),
        args@.len() == 0,
    ensures
        smoke matches Ok(o) && o.output_path@ == "target/capture-smoke/frame.bmp"@
            && o.source.timeout_ms == 33 && o.source.monitor_index is None,
        looped matches Ok(o) && o.frame_count == 120 && o.source.timeout_ms == 33
            && o.source.monitor_index is None,
        native matches Ok(o) && o.output_path@ == "target/capture-smoke/native-nvenc.h264"@
            && o.frame_count == 120 && o.fps == 30 && o.source.timeout_ms == 33
            && o.source.monitor_index is None,
{
    assert(texts(args@).len() == 0);
    lemma_one_option(texts(args@), capture_smoke_flags());
    lemma_one_option(texts(args@), capture_loop_flags());
    lemma_one_option(texts(args@), native_smoke_flags());
}

/// One option of the other commands changes its own setting and no other; options that a
/// command does not know are refused.
pub proof fn other_commands_set_what_is_named(
    args: &[String],
    smoke: Result<CaptureSmokeOptions, CliError>,
    looped: Result<CaptureLoopOptions, CliError>,
    native: Result<NativeNvencSmokeOptions, CliError>,
)
    requires
        call_ensures(parse_capture_smoke, (args,), smoke),
        call_ensures(parse_capture_loop, (args,), looped),
        call_ensures(parse_native_nvenc_smoke, (args,), native),
        args@.len() == 2,
    ensures
        ({
            let flag = args@[0]@;
            let value = args@[1]@;
            let number = parse_unsigned(value, u32::MAX as nat);
            let index = parse_unsigned(value, usize::MAX as nat);
            let timed = flag == "--timeout-ms"@ && number is Some;
            let chosen = flag == "--monitor"@ && index is Some;
            &&& smoke is Ok <==> flag == "--output"@ || timed || chosen
            &&& smoke matches Ok(o) ==> {
                &&& o.output_path@ == if flag == "--output"@ {
                    value
                } else {
                    "target/capture-smoke/frame.bmp"@
                }
                &&& o.source.timeout_ms == if timed {
                    number->0
                } else {
                    33
                }
                &&& o.source.monitor_index == if chosen {
                    Some(index->0 as usize)
                } else {
                    None
                }
            }
            &&& looped is Ok <==> flag == "--frames"@ && number is Some || timed || chosen
            &&& looped matches Ok(o) ==> {
                &&& o.frame_count == if flag == "--frames"@ {
                    number->0
                } else {
                    120
                }
                &&& o.source.timeout_ms == if timed {
                    number->0
                } else {
                    33
                }
                &&& o.source.monitor_index == if chosen {
                    Some(index->0 as usize)
                } else {
                    None
                }
            }
            &&& native is Ok <==> flag == "--output"@ || (flag == "--frames"@ || flag == "--fps"@)
                && number is Some || timed || chosen
            &&& native matches Ok(o) ==> {
                &&& o.output_path@ == if flag == "--output"@ {
                    value
                } else {
                    "target/capture-smoke/native-nvenc.h264"@
                }
                &&& o.frame_count == if flag == "--frames"@ {
                    number->0
                } else {
                    120
                }
                &&& o.fps == if flag == "--fps"@ {
                    number->0
                } else {
                    30
                }
                &&& o.source.timeout_ms == if timed {
                    number->0
                } else {
                    33
                }
            }
        }),
{
    lemma_flags_differ();
    let all = texts(args@);
    assert(all.len() == 2 && all[0] == args@[0]@ && all[1] == args@[1]@);
    lemma_one_option(all, capture_smoke_flags());
    lemma_one_option(all, capture_loop_flags());
    lemma_one_option(all, native_smoke_flags());
}

/// The first word of the command line chooses the command, and what follows are its
/// options; without any word the host serves with the settings in `sunrise.toml`, and
/// `--config` names another place for them.
pub proof fn the_first_word_chooses_the_command(
    args: &[String],
    command: Result<Command, CliError>,
    rest: &[String],
    smoke: Result<CaptureSmokeOptions, CliError>,
    looped: Result<CaptureLoopOptions, CliError>,
    encode: Result<EncodeSmokeOptions, CliError>,
    native: Result<NativeNvencSmokeOptions, CliError>,
)
    requires
        call_ensures(parse_command, (args,), command),
        args@.len() > 0 ==> texts(rest@) == texts(args@).skip(1),
        call_ensures(parse_capture_smoke, (rest,), smoke),
        call_ensures(parse_capture_loop, (rest,), looped),
        call_ensures(parse_encode_smoke, (rest,), encode),
        call_ensures(parse_native_nvenc_smoke, (rest,), native),
    ensures
        args@.len() == 0 ==> (command matches Ok(Command::Serve { config_path }) && config_path@
            == "sunrise.toml"@),
        args@.len() > 0 ==> {
            let word = args@[0]@;
            &&& word == "--config"@ && args@.len() == 2 ==> (command matches Ok(
                Command::Serve { config_path },
            ) && config_path@ == args@[1]@)
            &&& word == "--config"@ && args@.len() == 1 ==> command == Err::<Command, _>(
                CliError::MissingConfigPath,
            )
            &&& word == "capture-list"@ && args@.len() == 1 ==> command == Ok::<_, CliError>(
                Command::CaptureList,
            )
            &&& word == "capture-smoke"@ ==> match smoke {
                Ok(o) => command matches Ok(Command::CaptureSmoke(c)) && c.source == o.source
                    && c.output_path@ == o.output_path@,
                Err(e) => command == Err::<Command, _>(e),
            }
            &&& word == "wgc-smoke"@ ==> match smoke {
                Ok(o) => command matches Ok(Command::WgcSmoke(c)) && c.source == o.source
                    && c.output_path@ == o.output_path@,
                Err(e) => command == Err::<Command, _>(e),
            }
            &&& word == "capture-loop"@ ==> match looped {
                Ok(o) => command matches Ok(Command::CaptureLoop(c)) && c == o,
                Err(e) => command == Err::<Command, _>(e),
            }
            &&& word == "encode-smoke"@ ==> match encode {
                Ok(o) => command matches Ok(Command::EncodeSmoke(c)) && c.source == o.source
                    && c.output_path@ == o.output_path@ && c.encoder@ == o.encoder@ && c.fps == o.fps
                    && c.frame_count == o.frame_count && c.ffmpeg_path@ == o.ffmpeg_path@,
                Err(e) => command == Err::<Command, _>(e),
            }
            &&& word == "qsv-smoke"@ ==> match encode {
                Ok(o) => command matches Ok(Command::QsvSmoke(c)) && c.source == o.source
                    && c.encoder@ == "h264_qsv"@ && c.fps == o.fps && c.frame_count == o.frame_count
                    && c.ffmpeg_path@ == o.ffmpeg_path@ && (c.output_path@ == o.output_path@
                    || c.output_path@ == "target/capture-smoke/qsv.h264"@),
                Err(e) => command == Err::<Command, _>(e),
            }
            &&& word == "native-nvenc-smoke"@ ==> match native {
                Ok(o) => command matches Ok(Command::NativeNvencSmoke(c)) && c.source == o.source
                    && c.output_path@ == o.output_path@ && c.fps == o.fps && c.frame_count
                    == o.frame_count,
                Err(e) => command == Err::<Command, _>(e),
            }
            &&& word != "--config"@ && word != "capture-list"@ && word != "capture-smoke"@ && word
                != "wgc-smoke"@ && word != "capture-loop"@ && word != "encode-smoke"@ && word
                != "qsv-smoke"@ && word != "native-nvenc-smoke"@ ==> command == Err::<Command, _>(
                CliError::Usage,
            )
        },
{
    lemma_commands_differ();
    assert(texts(args@).len() == args@.len());
    if args@.len() > 0 {
        assert(texts(args@)[0] == args@[0]@);
    }
    if args@.len() > 1 {
        assert(texts(args@)[1] == args@[1]@);
    }
}

proof fn lemma_commands_differ()
    ensures
        "--config"@.len() == 8,
        "capture-list"@.len() == 12,
        "capture-loop"@.len() == 12,
        "encode-smoke"@.len() == 12,
        "capture-list"@ != "capture-loop"@,
        "capture-list"@ != "encode-smoke"@,
        "capture-loop"@ != "encode-smoke"@,
        "capture-smoke"@.len() == 13,
        "wgc-smoke"@.len() == 9,
        "qsv-smoke"@.len() == 9,
        "wgc-smoke"@ != "qsv-smoke"@,
        "native-nvenc-smoke"@.len() == 18,
{
    reveal_strlit("--config");
    reveal_strlit("capture-list");
    reveal_strlit("capture-loop");
    reveal_strlit("encode-smoke");
    reveal_strlit("capture-smoke");
    reveal_strlit("wgc-smoke");
    reveal_strlit("qsv-smoke");
    reveal_strlit("native-nvenc-smoke");
    assert("capture-list"@[9] == 'i' && "capture-loop"@[9] == 'o' && "encode-smoke"@[0] == 'e');
    assert("capture-list"@[0] == 'c' && "capture-loop"@[0] == 'c');
    assert("wgc-smoke"@[0] == 'w' && "qsv-smoke"@[0] == 'q');
}

/// `qsv-smoke` has an output of its own in place of the default one of `encode-smoke`,
/// and keeps any other, such as one in another directory.
pub proof fn qsv_has_its_own_default(
    args: &[String],
    options: Result<EncodeSmokeOptions, CliError>,
)
    requires
        call_ensures(parse_qsv_smoke, (args,), options),
        args@.len() == 0,
    ensures
        options matches Ok(o) && o.output_path@ == "target/capture-smoke/qsv.h264"@ && o.encoder@
            == "h264_qsv"@ && o.frame_count == 120 && o.fps == 30 && o.ffmpeg_path@
            == "ffmpeg.exe"@ && o.source.timeout_ms == 33 && o.source.monitor_index is None,
{
    assert(texts(args@).len() == 0);
    lemma_one_option(texts(args@), encode_smoke_flags());
}

/// Errors of the command line are told in words that name the option as it is written.
pub proof fn errors_name_the_option(flag: Flag, name: &'static str, text: String, error: CliError)
    requires
        call_ensures(Flag::name, (flag,), name),
        call_ensures(CliError::message, (error,), text),
    ensures
        flag is Output ==> name@ == "--output"@,
        flag is Ffmpeg ==> name@ == "--ffmpeg"@,
        flag is Encoder ==> name@ == "--encoder"@,
        flag is Frames ==> name@ == "--frames"@,
        flag is Fps ==> name@ == "--fps"@,
        flag is Monitor ==> name@ == "--monitor"@,
        flag is TimeoutMs ==> name@ == "--timeout-ms"@,
        error == CliError::MissingValue(flag) ==> text@ == "missing value after "@ + name@,
        error == CliError::InvalidNumber(Flag::Fps) ==> text@ == "failed to parse "@ + "--fps"@,
        error == CliError::InvalidNumber(Flag::Monitor) ==> text@
            == "failed to parse --monitor as a one-based monitor index"@,
        error == CliError::InvalidNumber(Flag::Frames) ==> text@
            == "failed to parse --frames as a frame count"@,
        error == CliError::InvalidNumber(Flag::TimeoutMs) ==> text@
            == "failed to parse --timeout-ms as milliseconds"@,
        error == CliError::MissingConfigPath ==> text@ == "missing path after --config"@,
{
}

/// An option that stands last lacks its value, and a value that is no number is told with
/// its option.
pub proof fn incomplete_options_are_refused(
    args: &[String],
    options: Result<EncodeSmokeOptions, CliError>,
)
    requires
        call_ensures(parse_encode_smoke, (args,), options),
        args@.len() == 1 || args@.len() == 2,
    ensures
        ({
            let flag = args@[0]@;
            let named = if flag == "--output"@ {
                Some(Flag::Output)
            } else if flag == "--ffmpeg"@ {
                Some(Flag::Ffmpeg)
            } else if flag == "--encoder"@ {
                Some(Flag::Encoder)
            } else if flag == "--frames"@ {
                Some(Flag::Frames)
            } else if flag == "--fps"@ {
                Some(Flag::Fps)
            } else if flag == "--monitor"@ {
                Some(Flag::Monitor)
            } else if flag == "--timeout-ms"@ {
                Some(Flag::TimeoutMs)
            } else {
                None
            };
            &&& args@.len() == 1 && named is Some ==> options == Err::<EncodeSmokeOptions, _>(
                CliError::MissingValue(named->0),
            )
            &&& args@.len() == 2 && named is Some && options is Err ==> options == Err::<
                EncodeSmokeOptions,
                _,
            >(CliError::InvalidNumber(named->0))
            &&& named is None ==> options == Err::<EncodeSmokeOptions, _>(CliError::Usage)
        }),
{
    lemma_flags_differ();
    let all = texts(args@);
    assert(all.len() == args@.len() && all[0] == args@[0]@);
    lemma_one_option(all, encode_smoke_flags());
}

} // verus!
