use sunrise::rtsp::{
    accept_bytes, complete_request_len, connection_closed, content_length, parse_rtsp_request,
    rtsp_response, take_request, MediaKind, RtspError, RtspRequest,
};
use sunrise::session::{
    attempt_after_failure, drain_video_control_events, first_attempt, queue_ends, select_video_source,
    session_step, should_close, source_ip, ControlEvent, ControlSessionKey, EventPoll, RtspState,
    SessionStep, SourceAttempt, VideoSourceChoice,
};

fn request(raw: &[u8]) -> RtspRequest {
    match parse_rtsp_request(raw) {
        Ok(request) => request,
        Err(error) => panic!("{error:?}"),
    }
}

fn refused(raw: &[u8]) -> RtspError {
    match parse_rtsp_request(raw) {
        Ok(_) => panic!("request was accepted"),
        Err(error) => error,
    }
}

#[test]
fn parses_rtsp_request_with_headers_and_payload() {
    let request = request(
        b"ANNOUNCE streamid=control/13/0 RTSP/1.0\r\nCSeq: 4\r\nContent-Length: 5\r\n\r\nhello",
    );

    assert_eq!(request.method, "ANNOUNCE");
    assert_eq!(request.target, "streamid=control/13/0");
    assert_eq!(request.cseq(), "4");
    assert_eq!(request.payload, "hello");
}

#[test]
fn describe_response_includes_sdp_payload() {
    let request = request(b"DESCRIBE rtsp://127.0.0.1:48010 RTSP/1.0\r\nCSeq: 2\r\n\r\n");

    let response = rtsp_response(&request, "127.0.0.1", false);

    assert!(response.starts_with("RTSP/1.0 200 OK\r\n"));
    assert!(response.contains("CSeq: 2\r\n"));
    assert!(response.contains("Content-Type: application/sdp\r\n"));
    assert!(response.contains("a=rtpmap:96 H264/90000"));
}

#[test]
fn setup_response_advertises_expected_ports() {
    let request = request(b"SETUP streamid=audio RTSP/1.0\r\nCSeq: 3\r\n\r\n");

    let response = rtsp_response(&request, "192.0.2.10", false);

    assert!(response.contains("Session: DEADBEEFCAFE;timeout=90\r\n"));
    assert!(response.contains("Transport: unicast;server_port=48000-48001;source=192.0.2.10\r\n"));
}

#[test]
fn detects_complete_pipelined_request_without_consuming_followup() {
    let buffer = b"OPTIONS rtsp://127.0.0.1:48010 RTSP/1.0\r\nCSeq: 1\r\n\r\nDESCRIBE rtsp://127.0.0.1:48010 RTSP/1.0\r\nCSeq: 2\r\n\r\n";

    let request_len = complete_request_len(buffer).unwrap().unwrap();

    assert_eq!(
        std::str::from_utf8(&buffer[..request_len]).unwrap(),
        "OPTIONS rtsp://127.0.0.1:48010 RTSP/1.0\r\nCSeq: 1\r\n\r\n"
    );
    assert!(std::str::from_utf8(&buffer[request_len..])
        .unwrap()
        .starts_with("DESCRIBE"));
}

#[test]
fn close_is_default_for_moonlight_tcp_rtsp_responses() {
    let request = request(b"OPTIONS rtsp://127.0.0.1:48010 RTSP/1.0\r\nCSeq: 1\r\n\r\n");

    let response = rtsp_response(&request, "127.0.0.1", true);

    assert!(response.contains("Connection: close\r\n"));
}

#[test]
fn native_nvenc_video_source_is_selected_strictly() {
    for available in [false, true] {
        assert_eq!(
            select_video_source(Some("native-nvenc"), None, Some("sample.h264"), available)
                .unwrap(),
            VideoSourceChoice::NativeNvenc
        );
        assert_eq!(
            select_video_source(Some("NATIVE-NVENC"), None, None, available).unwrap(),
            VideoSourceChoice::NativeNvenc
        );
        assert_eq!(
            select_video_source(None, Some("1"), Some("sample.h264"), available).unwrap(),
            VideoSourceChoice::NativeNvenc
        );
        assert_eq!(
            select_video_source(Some("annex-b"), Some("0"), None, available).unwrap(),
            VideoSourceChoice::AnnexB
        );
        assert_eq!(
            select_video_source(Some("qsv"), None, Some("sample.h264"), available).unwrap(),
            VideoSourceChoice::Qsv
        );
    }
}

#[test]
fn default_video_source_prefers_live_capture_when_compiled_in() {
    for available in [false, true] {
        let expected = if available {
            VideoSourceChoice::NativeNvenc
        } else {
            VideoSourceChoice::AnnexB
        };
        assert_eq!(
            select_video_source(None, None, Some("sample.h264"), available).unwrap(),
            expected
        );
        assert_eq!(
            select_video_source(Some("  "), None, None, available).unwrap(),
            expected
        );
    }
}

#[test]
fn invalid_video_source_is_rejected() {
    assert!(select_video_source(Some("surprise"), None, None, false).is_err());
    assert_eq!(
        select_video_source(Some(" surprise "), None, None, true)
            .unwrap_err()
            .value,
        "surprise"
    );
}

fn drain(rx: &mut tokio::sync::broadcast::Receiver<ControlEvent>) -> bool {
    let mut polls = Vec::new();
    loop {
        let poll = match rx.try_recv() {
            Ok(event) => EventPoll::Received(event),
            Err(tokio::sync::broadcast::error::TryRecvError::Empty) => EventPoll::Empty,
            Err(tokio::sync::broadcast::error::TryRecvError::Closed) => EventPoll::Closed,
            Err(tokio::sync::broadcast::error::TryRecvError::Lagged(n)) => EventPoll::Lagged(n),
        };
        polls.push(poll);
        if queue_ends(poll) {
            return drain_video_control_events(&polls);
        }
    }
}

#[test]
fn drains_video_control_events_and_reports_idr_requests() {
    let (tx, mut rx) = tokio::sync::broadcast::channel(8);
    tx.send(ControlEvent::StartA).unwrap();
    tx.send(ControlEvent::IdrFrameRequested).unwrap();

    assert!(drain(&mut rx));
    assert!(!drain(&mut rx));
}

#[test]
fn lost_control_events_count_as_an_idr_request() {
    assert!(drain_video_control_events(&vec![EventPoll::Lagged(3), EventPoll::Empty]));
    assert!(!drain_video_control_events(&vec![
        EventPoll::Closed,
        EventPoll::Received(ControlEvent::IdrFrameRequested),
    ]));
}

#[test]
fn tells_why_a_request_is_refused() {
    assert_eq!(refused(b"PLAY x RTSP/1.0\r\n"), RtspError::HeadersIncomplete);
    assert_eq!(refused(b"PLAY \xff RTSP/1.0\r\n\r\n"), RtspError::HeadersNotUtf8);
    assert_eq!(
        refused(b"PLAY x RTSP/1.0\r\nContent-Length: x\r\n\r\n"),
        RtspError::InvalidContentLength
    );
    assert_eq!(
        refused(b"PLAY x RTSP/1.0\r\ncontent-length : 4\r\n\r\nabc"),
        RtspError::PayloadTooShort
    );
    assert_eq!(refused(b"\r\n\r\n"), RtspError::MissingMethod);
    assert_eq!(refused(b"PLAY\r\n\r\n"), RtspError::MissingTarget);
    assert_eq!(refused(b"PLAY x\r\n\r\n"), RtspError::MissingProtocol);
    assert_eq!(refused(b"PLAY x RTSP/2.0\r\n\r\n"), RtspError::UnsupportedProtocol);
}

#[test]
fn reads_headers_in_any_case_and_keeps_the_last() {
    let request = request(
        b"OPTIONS \t x  RTSP/1.0\r\nCSEQ: 1\r\nmalformed\r\ncseq :\t7 \r\nConnection: Keep-Alive\r\n\r\n",
    );
    assert_eq!(request.cseq(), "7");
    assert!(request.requested_keep_alive());
    assert!(!should_close(&request));
}

#[test]
fn payload_is_read_with_replacement_characters() {
    let request = request(b"ANNOUNCE x RTSP/1.0\r\nContent-Length: 3\r\n\r\na\xffb");
    assert_eq!(request.payload, "a\u{fffd}b");
}

#[test]
fn first_content_length_counts() {
    assert_eq!(content_length("PLAY x RTSP/1.0\r\nContent-Length: +5\r\nContent-Length: 9"), Ok(5));
    assert_eq!(content_length("Content-Length: 9"), Ok(0));
    assert_eq!(
        content_length("a\r\nContent-Length: 99999999999999999999"),
        Err(RtspError::InvalidContentLength)
    );
}

#[test]
fn takes_requests_out_of_the_buffer_one_by_one() {
    let mut buffer = Vec::new();
    accept_bytes(&mut buffer, b"OPTIONS a RTSP/1.0\r\nCSeq: 1\r\n").unwrap();
    assert!(matches!(take_request(&mut buffer), Ok(None)));
    accept_bytes(&mut buffer, b"\r\nPLAY b RTSP/1.0\r\nContent-Length: 2\r\n\r\nhi!").unwrap();
    let first = take_request(&mut buffer).ok().flatten().unwrap();
    assert_eq!(first.method, "OPTIONS");
    let second = take_request(&mut buffer).ok().flatten().unwrap();
    assert_eq!((second.method.as_str(), second.payload.as_str()), ("PLAY", "hi"));
    assert_eq!(buffer, b"!");
    assert_eq!(
        connection_closed(&buffer),
        Err(RtspError::ClosedWithIncompleteRequest)
    );
    assert_eq!(connection_closed(&Vec::new()), Ok(()));
}

#[test]
fn gives_up_requests_that_cannot_fit() {
    let mut buffer = b"PLAY x RTSP/1.0\r\nContent-Length: 18446744073709551615\r\n\r\n".to_vec();
    assert!(matches!(take_request(&mut buffer), Err(RtspError::LengthOverflow)));
    let mut buffer = vec![0; 1_048_575];
    assert_eq!(accept_bytes(&mut buffer, &[0]), Ok(()));
    assert_eq!(accept_bytes(&mut buffer, &[0]), Err(RtspError::RequestTooLarge));
}

#[test]
fn describe_declares_the_length_of_its_payload() {
    let request = request(b"DESCRIBE x RTSP/1.0\r\n\r\n");
    let response = rtsp_response(&request, "10.0.0.1", false);
    let (head, payload) = response.split_once("\r\n\r\n").unwrap();
    assert_eq!(content_length(head), Ok(payload.len()));
    assert_eq!(
        head,
        format!(
            "RTSP/1.0 200 OK\r\nCSeq: 1\r\nContent-Type: application/sdp\r\nSession: DEADBEEFCAFE\r\nContent-Length: {}\r\nConnection: keep-alive",
            payload.len()
        )
    );
    assert!(payload.starts_with("v=0\r\no=sunrise 0 0 IN IP4 10.0.0.1\r\n"));
    assert!(payload.ends_with("a=control:streamid=audio\r\n"));
}

#[test]
fn answers_unknown_methods_with_an_error() {
    let unknown = request(b"RECORD x RTSP/1.0\r\nCSeq: 9\r\n\r\n");
    assert_eq!(
        rtsp_response(&unknown, "a", false),
        "RTSP/1.0 405 Method Not Allowed\r\nCSeq: 9\r\n\r\n"
    );
    let play = request(b"PLAY x RTSP/1.0\r\nCSeq: 9\r\n\r\n");
    assert_eq!(
        rtsp_response(&play, "a", true),
        "RTSP/1.0 200 OK\r\nCSeq: 9\r\nSession: DEADBEEFCAFE;timeout=90\r\nConnection: close\r\n\r\n"
    );
}

#[test]
fn targets_name_their_streams() {
    let setup = |target: &str| {
        session_step(&request(format!("SETUP {target} RTSP/1.0\r\n\r\n").as_bytes()))
    };
    assert_eq!(setup("streamid=AUDIO/0/0"), SessionStep::Setup(MediaKind::Audio));
    assert_eq!(setup("streamid=control/13/0"), SessionStep::Setup(MediaKind::Control));
    assert_eq!(setup("streamid=0"), SessionStep::Setup(MediaKind::Video));
    assert_eq!(setup("RTSP://host"), SessionStep::Setup(MediaKind::Video));
    assert_eq!(setup("*"), SessionStep::Nothing);
    assert_eq!(session_step(&request(b"PLAY x RTSP/1.0\r\n\r\n")), SessionStep::Start);
    let teardown = request(b"TEARDOWN x RTSP/1.0\r\nConnection: keep-alive\r\n\r\n");
    assert_eq!(session_step(&teardown), SessionStep::Stop);
    assert!(should_close(&teardown));
}

#[test]
fn sessions_start_once_and_stop_completely() {
    let mut session = RtspState::new();
    assert_eq!(session.setup_udp(MediaKind::Video), Some(47998));
    session.mark_ready(MediaKind::Video);
    assert_eq!(session.setup_udp(MediaKind::Video), None);
    assert_eq!(session.setup_udp(MediaKind::Audio), Some(48000));
    session.mark_ready(MediaKind::Audio);
    assert_eq!(session.setup_udp(MediaKind::Control), Some(47999));
    let key = ControlSessionKey { key_id: 4, key: [9; 16] };
    session.set_control_key(key);
    let start = session.start_streams();
    assert!(start.video && start.audio);
    let audio_key = start.audio_key.unwrap();
    assert_eq!((audio_key.key_id, audio_key.key), (key.key_id_u32(), key.key_bytes()));
    let again = session.start_streams();
    assert!(!again.video && !again.audio && again.audio_key.is_none());
    let stop = session.stop_streams();
    assert!(stop.streams && !stop.control);
    assert_eq!(session, RtspState::new());
    session.set_control_key(key);
    session.clear_control_key();
    assert_eq!(session, RtspState::new());
}

#[test]
fn streams_are_made_ready_in_any_order() {
    let mut one = RtspState::new();
    let mut other = RtspState::new();
    one.mark_ready(MediaKind::Control);
    one.mark_ready(MediaKind::Video);
    other.mark_ready(MediaKind::Video);
    other.mark_ready(MediaKind::Control);
    other.mark_ready(MediaKind::Video);
    assert_eq!(one, other);
    assert_eq!(one.setup_udp(MediaKind::Audio), Some(48000));
    assert!(one.stop_streams().control);
}

#[test]
fn leftover_paths_never_select_the_file() {
    for (name, choice) in [
        ("annex-b", VideoSourceChoice::AnnexB),
        (" FILE ", VideoSourceChoice::AnnexB),
        ("h264", VideoSourceChoice::AnnexB),
        ("capture", VideoSourceChoice::NativeNvenc),
        ("h264_qsv", VideoSourceChoice::Qsv),
    ] {
        assert_eq!(select_video_source(Some(name), None, Some("x"), true).unwrap(), choice);
    }
    assert_eq!(
        select_video_source(None, Some("0"), Some("x"), true).unwrap(),
        VideoSourceChoice::NativeNvenc
    );
}

#[test]
fn only_the_native_encoder_has_a_substitute() {
    assert_eq!(first_attempt(VideoSourceChoice::Qsv), SourceAttempt::FfmpegQsv);
    assert_eq!(first_attempt(VideoSourceChoice::AnnexB), SourceAttempt::AnnexBFile);
    let native = first_attempt(VideoSourceChoice::NativeNvenc);
    assert_eq!(attempt_after_failure(native), Some(SourceAttempt::FfmpegNvenc));
    assert_eq!(attempt_after_failure(SourceAttempt::FfmpegNvenc), None);
}

#[test]
fn local_clients_see_their_own_address() {
    assert_eq!(source_ip(true, "127.0.0.1", "10.0.0.2"), "127.0.0.1");
    assert_eq!(source_ip(false, "10.0.0.9", "10.0.0.2"), "10.0.0.2");
}
