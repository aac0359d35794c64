use sunrise::capture::{
    after_capture_attempt, after_failed_acquire, candidate_monitors, effective_timeout_ms,
    first_capture_backend,
    live_capture_settings, monitor_failure, parse_capture_backend, AcquireStep, CaptureBackend,
    MonitorProbe, NoActiveMonitors,
};
use sunrise::cli::{CaptureSourceOptions, EncodeSmokeOptions};
use sunrise::encoder::{
    copy_texture_format, after_encode_attempt, ffmpeg_encoder_name, ffmpeg_file_args, ffmpeg_pipe_args, first_encoder,
    is_idr_picture, live_source_description, needs_bgra_gpu_conversion, nvenc_format_for_dxgi,
    nvenc_format_name, nvenc_parameters, output_wait_ms, refresh_step, should_reuse_last_frame,
    size_change_message, summarize_output, CaptureEvent, EncodeRun, NeedsConversion, NoStartCodes,
    NvencFormat, RefreshStep, TextureFormat,
};
use sunrise::pixels::{
    bgra_bmp, capture_pixels_to_bgra8, f16_to_f32_bits, rgba_to_bgra, wgc_pixels_to_bgra8,
    ColorFormat, DxgiDuplicationFormat, PixelError,
};

fn linear_float_to_srgb8(bits: u32) -> u8 {
    let value = f32::from_bits(bits);
    if !value.is_finite() {
        return 0;
    }
    let value = value.clamp(0.0, 1.0);
    let encoded = if value <= 0.003_130_8 {
        value * 12.92
    } else {
        1.055 * value.powf(1.0 / 2.4) - 0.055
    };
    (encoded * 255.0).round().clamp(0.0, 255.0) as u8
}

fn float_alpha_to_u8(bits: u32) -> u8 {
    let value = f32::from_bits(bits);
    if !value.is_finite() {
        return 255;
    }
    (value.clamp(0.0, 1.0) * 255.0).round().clamp(0.0, 255.0) as u8
}

fn convert(
    width: u32,
    height: u32,
    format: DxgiDuplicationFormat,
    pixels: &[u8],
) -> Result<Vec<u8>, PixelError> {
    capture_pixels_to_bgra8(
        width,
        height,
        format,
        pixels,
        &linear_float_to_srgb8,
        &float_alpha_to_u8,
    )
}

fn half(bits: u16) -> f32 {
    f32::from_bits(f16_to_f32_bits(bits))
}

#[test]
fn writes_top_down_bgra_bmp() {
    let pixels = [1, 2, 3, 255, 4, 5, 6, 255];

    let bmp = bgra_bmp(2, 1, &pixels).unwrap();

    assert_eq!(bmp.len(), 54 + pixels.len());
    assert_eq!(&bmp[0..2], b"BM");
    assert_eq!(i32::from_le_bytes(bmp[22..26].try_into().unwrap()), -1);
    assert_eq!(&bmp[54..], &pixels);
}

#[test]
fn converts_rgba_bmp_pixels_to_bgra() {
    let pixels = [10, 20, 30, 255];

    let converted = convert(1, 1, DxgiDuplicationFormat::Rgba8, &pixels).unwrap();

    assert_eq!(converted, [30, 20, 10, 255]);
}

#[test]
fn converts_rgba16f_bmp_pixels_to_bgra8() {
    let pixels = [
        0x00, 0x3c, // R = 1.0
        0x00, 0x38, // G = 0.5
        0x00, 0x00, // B = 0.0
        0x00, 0x3c, // A = 1.0
    ];

    let converted = convert(1, 1, DxgiDuplicationFormat::Rgba16F, &pixels).unwrap();

    assert_eq!(converted, [0, 188, 255, 255]);
}

#[test]
fn converts_half_float_bits_to_f32() {
    assert_eq!(half(0x0000), 0.0);
    assert_eq!(half(0x3c00), 1.0);
    assert_eq!(half(0x3800), 0.5);
    assert_eq!(half(0xc000), -2.0);
}

#[test]
fn converts_every_finite_half_exactly() {
    for bits in 0..=u16::MAX {
        let sign = if bits >> 15 == 1 { -1.0 } else { 1.0 };
        let exponent = i32::from((bits >> 10) & 0x1f);
        let fraction = f64::from(bits & 0x3ff);
        if exponent == 31 {
            assert_eq!(half(bits).is_nan(), bits & 0x3ff != 0);
            assert_eq!(half(bits).is_infinite(), bits & 0x3ff == 0);
            continue;
        }
        let value = if exponent == 0 {
            fraction * 2_f64.powi(-24)
        } else {
            (1024.0 + fraction) * 2_f64.powi(exponent - 25)
        };
        assert_eq!(f64::from(half(bits)), sign * value);
        assert_eq!(half(bits).is_sign_negative(), sign < 0.0);
    }
}

#[test]
fn lays_out_bitmap_headers() {
    let bmp = bgra_bmp(1, 2, &[9; 9]).unwrap();
    assert_eq!(&bmp[2..6], &62_u32.to_le_bytes());
    assert_eq!(&bmp[10..14], &54_u32.to_le_bytes());
    assert_eq!(&bmp[14..18], &40_u32.to_le_bytes());
    assert_eq!(&bmp[18..22], &1_u32.to_le_bytes());
    assert_eq!(&bmp[22..26], &(-2_i32).to_le_bytes());
    assert_eq!(&bmp[26..30], &[1, 0, 32, 0]);
    assert_eq!(&bmp[34..38], &8_u32.to_le_bytes());
    assert_eq!(bmp.len(), 62);
    assert_eq!(
        bgra_bmp(1, 2, &[9; 7]).unwrap_err(),
        PixelError::BufferTooSmall { got: 7, expected: 8 }
    );
}

#[test]
fn refuses_pictures_it_cannot_convert() {
    assert_eq!(
        convert(1, 1, DxgiDuplicationFormat::Rgb10A2, &[0; 4]).unwrap_err(),
        PixelError::UnsupportedFormat(DxgiDuplicationFormat::Rgb10A2)
    );
    assert_eq!(
        convert(2, 2, DxgiDuplicationFormat::Rgba16F, &[0; 31]).unwrap_err(),
        PixelError::BufferTooSmall { got: 31, expected: 32 }
    );
    assert_eq!(
        wgc_pixels_to_bgra8(
            1,
            1,
            ColorFormat::Bgra8,
            &[1, 2, 3],
            &linear_float_to_srgb8,
            &float_alpha_to_u8
        )
        .unwrap_err(),
        PixelError::BufferTooSmall { got: 3, expected: 4 }
    );
}

#[test]
fn swapping_red_and_blue_twice_changes_nothing() {
    let pixels = [1, 2, 3, 4, 5, 6, 7, 8, 9, 10];
    assert_eq!(rgba_to_bgra(&pixels), [3, 2, 1, 4, 7, 6, 5, 8, 9, 10]);
    assert_eq!(rgba_to_bgra(&rgba_to_bgra(&pixels)), pixels);
    let same = wgc_pixels_to_bgra8(
        1,
        1,
        ColorFormat::Rgba8,
        &pixels,
        &linear_float_to_srgb8,
        &float_alpha_to_u8,
    );
    assert_eq!(same.unwrap(), [3, 2, 1, 4]);
}

fn options(monitor_index: Option<usize>, encoder: &str, output: &str, fps: u32) -> EncodeSmokeOptions {
    EncodeSmokeOptions {
        source: CaptureSourceOptions {
            monitor_index,
            timeout_ms: 33,
        },
        output_path: output.to_string(),
        ffmpeg_path: "ffmpeg.exe".to_string(),
        encoder: encoder.to_string(),
        frame_count: 2,
        fps,
    }
}

#[test]
fn builds_nvenc_ffmpeg_rawvideo_args() {
    let args = ffmpeg_file_args(&options(None, "h264_nvenc", "out.h264", 30), 1280, 720, 30);

    assert!(args
        .windows(2)
        .any(|pair| pair == ["-pixel_format", "bgra"]));
    assert!(args
        .windows(2)
        .any(|pair| pair == ["-video_size", "1280x720"]));
    assert!(args.windows(2).any(|pair| pair == ["-c:v", "h264_nvenc"]));
    assert!(args.contains(&"scale=trunc(iw/2)*2:trunc(ih/2)*2,format=yuv420p".to_string()));
    assert_eq!(args.last().map(String::as_str), Some("out.h264"));
}

#[test]
fn builds_qsv_ffmpeg_rawvideo_args() {
    let args = ffmpeg_file_args(&options(Some(2), "h264_qsv", "qsv.h264", 60), 1920, 1080, 60);

    assert!(args
        .windows(2)
        .any(|pair| pair == ["-init_hw_device", "qsv=hw"]));
    assert!(args
        .windows(2)
        .any(|pair| pair == ["-filter_hw_device", "hw"]));
    assert!(args.windows(2).any(|pair| pair == ["-c:v", "h264_qsv"]));
    assert!(args.contains(
        &"scale=trunc(iw/2)*2:trunc(ih/2)*2,format=nv12,hwupload=extra_hw_frames=64".to_string()
    ));
    assert!(args.windows(2).any(|pair| pair == ["-g", "60"]));
    assert_eq!(args.last().map(String::as_str), Some("qsv.h264"));
}

#[test]
fn builds_all_arguments_in_order() {
    let expected = "-hide_banner -loglevel error -y -f rawvideo -pixel_format bgra -video_size 64x48 -framerate 25 -i pipe:0 -an -c:v LIBX264 -preset ultrafast -tune zerolatency -x264-params keyint=25:min-keyint=25:scenecut=0 -vf scale=trunc(iw/2)*2:trunc(ih/2)*2,format=yuv420p -f h264 pipe:1";
    assert_eq!(ffmpeg_pipe_args("LIBX264", 64, 48, 25).join(" "), expected);
    assert_eq!(ffmpeg_encoder_name("QSV"), "h264_qsv");
    assert!(ffmpeg_pipe_args("other", 1, 1, 1)
        .join(" ")
        .contains("-an -c:v other -vf "));
}

#[test]
fn encoders_are_tried_until_one_succeeds() {
    assert_eq!(first_encoder("Auto"), "h264_nvenc");
    assert_eq!(after_encode_attempt("Auto", 1, true), None);
    assert_eq!(after_encode_attempt("Auto", 1, false), Some("libx264".to_string()));
    assert_eq!(after_encode_attempt("auto", 2, false), None);
    assert_eq!(first_encoder("qsv"), "qsv");
    assert_eq!(after_encode_attempt("qsv", 1, false), None);
}

#[test]
fn maps_dxgi_bgra_to_nvenc_argb() {
    assert_eq!(
        nvenc_format_name(DxgiDuplicationFormat::Bgra8, false).unwrap(),
        "ARGB"
    );
}

#[test]
fn maps_dxgi_rgba_to_nvenc_abgr() {
    assert_eq!(
        nvenc_format_name(DxgiDuplicationFormat::Rgba8, false).unwrap(),
        "ABGR"
    );
}

#[test]
fn routes_hdr_formats_through_gpu_converter() {
    assert!(needs_bgra_gpu_conversion(DxgiDuplicationFormat::Rgba16F));
    assert_eq!(
        nvenc_format_name(DxgiDuplicationFormat::Rgba16F, true).unwrap(),
        "ARGB via GPU BGRA8 conversion"
    );
}

#[test]
fn reuses_last_frame_when_dxgi_times_out() {
    assert!(should_reuse_last_frame(CaptureEvent::Timeout));
    assert!(!should_reuse_last_frame(CaptureEvent::Failed));
}

#[test]
fn formats_are_copied_or_converted() {
    let format = DxgiDuplicationFormat::Rgb10XrA2;
    assert_eq!(nvenc_format_for_dxgi(format), Err(NeedsConversion { format }));
    assert_eq!(copy_texture_format(format), Err(NeedsConversion { format }));
    assert_eq!(nvenc_format_name(format, false), Err(NeedsConversion { format }));
    assert_eq!(
        copy_texture_format(DxgiDuplicationFormat::Bgra8Srgb),
        Ok(TextureFormat::Bgra8UnormSrgb)
    );
    assert_eq!(
        nvenc_format_for_dxgi(DxgiDuplicationFormat::Rgba8Srgb),
        Ok(NvencFormat::Abgr)
    );
}

#[test]
fn encoding_runs_count_their_pictures() {
    let frame = CaptureEvent::Frame { width: 4, height: 2 };
    let mut run = EncodeRun::new(4, 2, 3, true);
    assert_eq!(run.step(CaptureEvent::Timeout), RefreshStep::CaptureFailed);
    assert_eq!(run.step(frame), RefreshStep::TakeNew);
    assert_eq!(run.step(CaptureEvent::Timeout), RefreshStep::KeepLast);
    assert_eq!(
        run.step(CaptureEvent::Frame { width: 4, height: 3 }),
        RefreshStep::SizeChanged { width: 4, height: 3 }
    );
    assert_eq!(run.step(CaptureEvent::Failed), RefreshStep::CaptureFailed);
    assert!(!run.is_done());
    assert_eq!(run.step(frame), RefreshStep::TakeNew);
    assert!(run.is_done());
    assert_eq!((run.encoded, run.reused), (3, 1));
    assert_eq!(EncodeRun::new(1, 1, 0, false).frame_count, 1);
    assert!(is_idr_picture(0) && !is_idr_picture(1));
    assert_eq!(
        size_change_message(4, 2, 4, 3),
        "capture frame size changed from 4x2 to 4x3"
    );
}

#[test]
fn static_desktops_give_all_pictures() {
    let mut run = EncodeRun::new(4, 2, 120, true);
    run.step(CaptureEvent::Frame { width: 4, height: 2 });
    while !run.is_done() {
        assert_eq!(run.step(CaptureEvent::Timeout), RefreshStep::KeepLast);
    }
    assert_eq!((run.encoded, run.reused), (120, 119));
    assert_eq!(
        refresh_step(4, 2, false, CaptureEvent::Timeout),
        RefreshStep::CaptureFailed
    );
}

#[test]
fn native_encoder_is_set_up_for_the_stream() {
    let parameters = nvenc_parameters(64, 48, 60);
    assert_eq!((parameters.width, parameters.height, parameters.fps), (64, 48, 60));
    assert_eq!((parameters.gop_len, parameters.frame_interval_p), (60, 1));
    assert_eq!(parameters.average_bit_rate, 20_000_000);
}

#[test]
fn live_sources_wait_and_describe_themselves() {
    assert_eq!(output_wait_ms(0, 33), Some(33));
    assert_eq!(output_wait_ms(1990, 33), Some(10));
    assert_eq!(output_wait_ms(2000, 33), None);
    assert_eq!(
        live_source_description("FFmpeg", 64, 48, "Bgra8", "h264_qsv"),
        "FFmpeg live capture 64x48 Bgra8 -> h264_qsv"
    );
}

#[test]
fn output_without_start_codes_is_no_success() {
    assert_eq!(summarize_output(&[1, 2, 3]), Err(NoStartCodes));
    let summary = summarize_output(&[0, 0, 1, 9, 0, 0, 1]).unwrap();
    assert_eq!((summary.bytes_written, summary.nal_units), (7, 2));
}

#[test]
fn reads_capture_settings() {
    let settings = live_capture_settings(Some("60"), Some("2"), Some("0"));
    assert_eq!(settings.fps, 60);
    assert_eq!(settings.source.monitor_index, Some(2));
    assert_eq!(settings.source.timeout_ms, 1);
    let settings = live_capture_settings(Some("fast"), Some("left"), None);
    assert_eq!((settings.fps, settings.source.timeout_ms), (30, 33));
    assert_eq!(settings.source.monitor_index, None);
}

#[test]
fn reads_capture_backends() {
    assert_eq!(parse_capture_backend(" DXGI "), Ok(CaptureBackend::Dxgi));
    assert_eq!(parse_capture_backend(""), Ok(CaptureBackend::Auto));
    assert_eq!(parse_capture_backend("graphics-capture"), Ok(CaptureBackend::Wgc));
    assert_eq!(parse_capture_backend(" Magic ").unwrap_err().value, "magic");
    assert_eq!(first_capture_backend(CaptureBackend::Auto), CaptureBackend::Dxgi);
    assert_eq!(first_capture_backend(CaptureBackend::Wgc), CaptureBackend::Wgc);
    assert_eq!(after_capture_attempt(CaptureBackend::Auto, 1, true), None);
    assert_eq!(after_capture_attempt(CaptureBackend::Auto, 1, false), Some(CaptureBackend::Wgc));
    assert_eq!(after_capture_attempt(CaptureBackend::Auto, 2, false), None);
    assert_eq!(after_capture_attempt(CaptureBackend::Dxgi, 1, false), None);
    assert_eq!(effective_timeout_ms(CaptureBackend::Wgc, 33), 1000);
    assert_eq!(effective_timeout_ms(CaptureBackend::Dxgi, 0), 1);
    assert_eq!(after_failed_acquire(29), AcquireStep::RetryAfter { ms: 16 });
    assert_eq!(after_failed_acquire(30), AcquireStep::GiveUpAfter { ms: 16 });
}

#[test]
fn monitors_are_tried_once_with_the_primary_first() {
    assert_eq!(candidate_monitors(Some(7), &vec![3, 7, 3, 9]), Ok(vec![7, 3, 9]));
    assert_eq!(candidate_monitors(None, &vec![3]), Ok(vec![3]));
    assert_eq!(candidate_monitors(None, &Vec::new()), Err(NoActiveMonitors));
    let failure = monitor_failure(2, "DISPLAY2", Some("GPU"), "denied");
    assert_eq!(failure, "#2 DISPLAY2 GPU: denied");
    assert_eq!(monitor_failure(1, "D", None, "e"), "#1 D: e");
    let mut probe = MonitorProbe::new(vec![7, 3]);
    assert_eq!(probe.current(), Some(7));
    assert_eq!(probe.last_failure(), "no active monitors found");
    probe.reject(failure);
    assert_eq!(probe.current(), Some(3));
    probe.reject("x".to_string());
    assert_eq!(probe.current(), None);
    assert_eq!(probe.all_failures(), "#2 DISPLAY2 GPU: denied; x");
    assert_eq!(probe.last_failure(), "x");
}
