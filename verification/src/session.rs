//! The state of a streaming session and the decisions that change it.
use vstd::prelude::*;
use vstd::string::*;
use crate::audio::AudioEncryptionKey;
use crate::rtsp::{
    closing_lines, media_kind_for_target, media_of, media_port, methods_lead_to_their_answers,
    rtsp_response, setup_port_for_target, MediaKind, RequestModel, RtspRequest,
    AUDIO_PORT, CONTROL_PORT, VIDEO_PORT,
};
use crate::text::{
    decimal, lower, same_text, same_text_ignoring_case, trim, trim_text,
};

verus! {

// ---------------------------------------------------------------------------
// What a request asks of the session
// ---------------------------------------------------------------------------
/// What a request asks of the session.
#[derive(Clone, Copy, Debug, PartialEq, Eq, Structural)]
pub enum SessionStep {
    /// Make a stream ready.
    Setup(MediaKind),
    /// Start the streams that are ready.
    Start,
    /// Stop everything.
    Stop,
    /// Leave the session as it is.
    Nothing,
}

/// What a request asks of the session.
pub open spec fn step_of(request: RequestModel) -> SessionStep {
    if request.method == "SETUP"@ {
        match media_of(request.target) {
            Some(media) => SessionStep::Setup(media),
            None => SessionStep::Nothing,
        }
    } else if request.method == "PLAY"@ {
        SessionStep::Start
    } else if request.method == "TEARDOWN"@ {
        SessionStep::Stop
    } else {
        SessionStep::Nothing
    }
}

/// What a request asks of the session.
pub fn session_step(request: &RtspRequest) -> (step: SessionStep)
    ensures
        step == step_of(request@),
{
    let method = request.method.as_str();
    if same_text(method, "SETUP") {
        match media_kind_for_target(request.target.as_str()) {
            Some(media) => SessionStep::Setup(media),
            None => SessionStep::Nothing,
        }
    } else if same_text(method, "PLAY") {
        SessionStep::Start
    } else if same_text(method, "TEARDOWN") {
        SessionStep::Stop
    } else {
        SessionStep::Nothing
    }
}

/// The connection is closed after the answer, unless the peer asked for it to
/// stay open and does not tear the session down.
pub fn should_close(request: &RtspRequest) -> (close: bool)
    ensures
        close == (!request@.keep_alive() || request@.method == "TEARDOWN"@),
{
    !request.requested_keep_alive() || same_text(request.method.as_str(), "TEARDOWN")
}

/// The address that answers name as the source of the streams: that of the peer
/// where it is on this machine, else that of this host.
pub fn source_ip(peer_is_loopback: bool, peer_ip: &str, local_ip: &str) -> (ip: String)
    ensures
        ip@ == if peer_is_loopback {
            peer_ip@
        } else {
            local_ip@
        },
{
    if peer_is_loopback {
        peer_ip.to_owned()
    } else {
        local_ip.to_owned()
    }
}

// ---------------------------------------------------------------------------
// The session
// ---------------------------------------------------------------------------
/// The key that a client and the host share for one session.
#[derive(Clone, Copy, Debug, PartialEq, Eq)]
pub struct ControlSessionKey {
    pub key_id: u32,
    pub key: [u8; 16],
}

impl ControlSessionKey {
    /// The number of the key.
    pub fn key_id_u32(&self) -> (id: u32)
        ensures
            id == self.key_id,
    {
        self.key_id
    }

    /// The bytes of the key.
    pub fn key_bytes(&self) -> (bytes: [u8; 16])
        ensures
            bytes == self.key,
    {
        self.key
    }
}

/// Which streams of a session are ready, and whether they run.
#[derive(Debug, PartialEq, Eq)]
pub struct RtspState {
    pub video_ready: bool,
    pub audio_ready: bool,
    pub control_running: bool,
    pub streams_started: bool,
    pub control_key: Option<ControlSessionKey>,
}

/// The streams to start.
#[derive(Debug, PartialEq, Eq)]
pub struct StreamStart {
    pub video: bool,
    pub audio: bool,
    /// The key for the audio stream, where there is one.
    pub audio_key: Option<AudioEncryptionKey>,
}

/// The parts of a session to shut down.
#[derive(Clone, Copy, Debug, PartialEq, Eq, Structural)]
pub struct StreamStop {
    pub streams: bool,
    pub control: bool,
}

impl RtspState {
    /// A stream is ready.
    pub open spec fn ready(self, media: MediaKind) -> bool {
        match media {
            MediaKind::Video => self.video_ready,
            MediaKind::Audio => self.audio_ready,
            MediaKind::Control => self.control_running,
        }
    }

    /// The session with nothing ready and no key.
    pub open spec fn idle() -> Self {
        RtspState {
            video_ready: false,
            audio_ready: false,
            control_running: false,
            streams_started: false,
            control_key: None,
        }
    }

    /// The session once a stream has been made ready.
    pub open spec fn with_ready(self, media: MediaKind) -> Self {
        match media {
            MediaKind::Video => RtspState { video_ready: true, ..self },
            MediaKind::Audio => RtspState { audio_ready: true, ..self },
            MediaKind::Control => RtspState { control_running: true, ..self },
        }
    }

    /// The session once its streams have been started.
    pub open spec fn with_streams(self) -> Self {
        RtspState { streams_started: true, ..self }
    }

    /// The session with nothing ready and no key.
    pub fn new() -> (session: Self)
        ensures
            session == Self::idle(),
    {
        RtspState {
            video_ready: false,
            audio_ready: false,
            control_running: false,
            streams_started: false,
            control_key: None,
        }
    }

    /// Keeps the key of a session that a client has launched.
    pub fn set_control_key(&mut self, key: ControlSessionKey)
        ensures
            *final(self) == (RtspState { control_key: Some(key), ..*old(self) }),
    {
        self.control_key = Some(key);
    }

    /// Forgets the key.
    pub fn clear_control_key(&mut self)
        ensures
            *final(self) == (RtspState { control_key: None, ..*old(self) }),
    {
        self.control_key = None;
    }

    /// The port to open for a stream, or none where the stream is ready already.
    pub fn setup_udp(&self, media: MediaKind) -> (port: Option<u16>)
        ensures
            port == if self.ready(media) {
                None
            } else {
                Some(media_port(media))
            },
    {
        match media {
            MediaKind::Video => if self.video_ready {
                None
            } else {
                Some(VIDEO_PORT)
            },
            MediaKind::Audio => if self.audio_ready {
                None
            } else {
                Some(AUDIO_PORT)
            },
            MediaKind::Control => if self.control_running {
                None
            } else {
                Some(CONTROL_PORT)
            },
        }
    }

    /// Takes note that the port of a stream has been opened.
    pub fn mark_ready(&mut self, media: MediaKind)
        ensures
            *final(self) == old(self).with_ready(media),
    {
        match media {
            MediaKind::Video => {
                self.video_ready = true;
            },
            MediaKind::Audio => {
                self.audio_ready = true;
            },
            MediaKind::Control => {
                self.control_running = true;
            },
        }
    }

    /// Starts the streams that are ready, unless streams have been started
    /// already. The audio stream gets the key of the session.
    pub fn start_streams(&mut self) -> (start: StreamStart)
        ensures
            *final(self) == old(self).with_streams(),
            start.video == (!old(self).streams_started && old(self).video_ready),
            start.audio == (!old(self).streams_started && old(self).audio_ready),
            match start.audio_key {
                Some(key) => {
                    &&& start.audio
                    &&& old(self).control_key matches Some(k) && key.key_id == k.key_id && key.key
                        == k.key
                },
                None => !start.audio || old(self).control_key is None,
            },
    {
        if self.streams_started {
            return StreamStart { video: false, audio: false, audio_key: None };
        }
        self.streams_started = true;
        let audio_key = if self.audio_ready {
            match self.control_key {
                Some(key) => Some(AudioEncryptionKey::new(key.key_id_u32(), key.key_bytes())),
                None => None,
            }
        } else {
            None
        };
        StreamStart { video: self.video_ready, audio: self.audio_ready, audio_key }
    }

    /// Ends the session: running streams and the control server stop, all ports
    /// are given up and the key is forgotten.
    pub fn stop_streams(&mut self) -> (stop: StreamStop)
        ensures
            *final(self) == Self::idle(),
            stop.streams == old(self).streams_started,
            stop.control == old(self).control_running,
    {
        let stop = StreamStop { streams: self.streams_started, control: self.control_running };
        self.video_ready = false;
        self.audio_ready = false;
        self.control_running = false;
        self.streams_started = false;
        self.control_key = None;
        stop
    }
}

/// Making a stream ready leaves the other streams and the key alone, and is done
/// once: a second request for it opens nothing.
pub proof fn setup_is_done_once(session: RtspState, media: MediaKind, other: MediaKind)
    ensures
        session.with_ready(media).ready(media),
        session.with_ready(media).with_ready(media) == session.with_ready(media),
        other != media ==> session.with_ready(media).ready(other) == session.ready(other),
        session.with_ready(media).control_key == session.control_key,
        session.with_ready(media).streams_started == session.streams_started,
{
}

/// The order in which streams are made ready does not matter.
pub proof fn setup_order_does_not_matter(session: RtspState, first: MediaKind, second: MediaKind)
    ensures
        session.with_ready(first).with_ready(second) == session.with_ready(second).with_ready(
            first,
        ),
{
}

// ---------------------------------------------------------------------------
// Control events
// ---------------------------------------------------------------------------
/// What the control channel tells the streams.
#[derive(Clone, Copy, Debug, PartialEq, Eq, Structural)]
pub enum ControlEvent {
    StartA,
    /// The client asks for a frame that it can begin to decode from.
    IdrFrameRequested,
}

/// One look at the queue of control events.
#[derive(Clone, Copy, Debug, PartialEq, Eq, Structural)]
pub enum EventPoll {
    Received(ControlEvent),
    /// Nothing waits.
    Empty,
    /// Nothing will come any more.
    Closed,
    /// Events were lost.
    Lagged(u64),
}

/// The queue holds nothing more for now.
pub open spec fn ends_queue(poll: EventPoll) -> bool {
    poll is Empty || poll is Closed
}

/// Whether the queue holds nothing more for now.
pub fn queue_ends(poll: EventPoll) -> (ends: bool)
    ensures
        ends == ends_queue(poll),
{
    match poll {
        EventPoll::Empty => true,
        EventPoll::Closed => true,
        _ => false,
    }
}

/// The poll asks for an IDR frame; lost events might have.
pub open spec fn asks_for_idr(poll: EventPoll) -> bool {
    poll == EventPoll::Received(ControlEvent::IdrFrameRequested) || poll is Lagged
}

/// A poll up to the end of the queue asks for an IDR frame.
pub open spec fn asks_before_end(polls: Seq<EventPoll>) -> bool {
    exists|i: int|
        {
            &&& 0 <= i < polls.len()
            &&& asks_for_idr(#[trigger] polls[i])
            &&& forall|j: int| 0 <= j < i ==> !ends_queue(#[trigger] polls[j])
        }
}

/// Whether the events up to the end of the queue ask for an IDR frame.
pub fn drain_video_control_events(polls: &Vec<EventPoll>) -> (idr_requested: bool)
    ensures
        idr_requested == exists|i: int|
            {
                &&& 0 <= i < polls@.len()
                &&& asks_for_idr(#[trigger] polls@[i])
                &&& forall|j: int| 0 <= j < i ==> !ends_queue(#[trigger] polls@[j])
            },
        idr_requested == asks_before_end(polls@),
{
    let mut idr_requested = false;
    let mut i: usize = 0;
    let ghost mut witness: int = 0;
    while i < polls.len()
        invariant
            i <= polls@.len(),
            forall|j: int| 0 <= j < i ==> !ends_queue(#[trigger] polls@[j]),
            idr_requested ==> 0 <= witness < i && asks_for_idr(polls@[witness]),
            !idr_requested ==> forall|j: int| 0 <= j < i ==> !asks_for_idr(#[trigger] polls@[j]),
        decreases polls@.len() - i,
    {
        match polls[i] {
            EventPoll::Received(ControlEvent::IdrFrameRequested) => {
                idr_requested = true;
                proof {
                    witness = i as int;
                }
            },
            EventPoll::Received(_) => {},
            EventPoll::Empty => {
                assert(ends_queue(polls@[i as int]));
                return idr_requested;
            },
            EventPoll::Closed => {
                assert(ends_queue(polls@[i as int]));
                return idr_requested;
            },
            EventPoll::Lagged(_) => {
                idr_requested = true;
                proof {
                    witness = i as int;
                }
            },
        }
        i += 1;
    }
    idr_requested
}

// ---------------------------------------------------------------------------
// The source of the video
// ---------------------------------------------------------------------------
/// Where the video of a session comes from.
#[derive(Clone, Copy, Debug, PartialEq, Eq, Structural)]
pub enum VideoSourceChoice {
    NativeNvenc,
    Qsv,
    AnnexB,
}

/// The setting that names no known video source.
#[derive(Debug, PartialEq, Eq)]
pub struct UnsupportedVideoSource {
    pub value: String,
}

/// The source that a trimmed, non-empty setting names, in any letter case.
pub open spec fn named_source(value: Seq<char>) -> Option<VideoSourceChoice> {
    let v = lower(value);
    if v == lower("native-nvenc"@) || v == lower("capture"@) {
        Some(VideoSourceChoice::NativeNvenc)
    } else if v == lower("qsv"@) || v == lower("h264_qsv"@) {
        Some(VideoSourceChoice::Qsv)
    } else if v == lower("annex-b"@) || v == lower("file"@) || v == lower("h264"@) {
        Some(VideoSourceChoice::AnnexB)
    } else {
        None
    }
}

/// The source that the settings select; none where they name an unknown one.
pub open spec fn selected_source(
    video_source: Option<&str>,
    live_nvenc: Option<&str>,
    native_available: bool,
) -> Option<VideoSourceChoice> {
    if live_nvenc matches Some(value) && value@ == "1"@ {
        Some(VideoSourceChoice::NativeNvenc)
    } else if video_source matches Some(value) && trim(value@).len() > 0 {
        named_source(trim(video_source->0@))
    } else if native_available {
        Some(VideoSourceChoice::NativeNvenc)
    } else {
        Some(VideoSourceChoice::AnnexB)
    }
}

/// Selects the source of the video from the settings. `native_available` tells
/// whether live capture with the native encoder is part of this build.
pub fn select_video_source(
    video_source: Option<&str>,
    live_nvenc: Option<&str>,
    h264_path: Option<&str>,
    native_available: bool,
) -> (choice: Result<VideoSourceChoice, UnsupportedVideoSource>)
    ensures
        match choice {
            Ok(c) => selected_source(video_source, live_nvenc, native_available) == Some(c),
            Err(e) => {
                &&& selected_source(video_source, live_nvenc, native_available) is None
                &&& video_source matches Some(value) && e.value@ == trim(value@)
            },
        },
{
    if let Some(value) = live_nvenc {
        if same_text(value, "1") {
            return Ok(VideoSourceChoice::NativeNvenc);
        }
    }
    if let Some(value) = video_source {
        let value = trim_text(value);
        let v = value.as_str();
        if !v.is_empty() {
            if same_text_ignoring_case(v, "native-nvenc") || same_text_ignoring_case(v, "capture") {
                return Ok(VideoSourceChoice::NativeNvenc);
            }
            if same_text_ignoring_case(v, "qsv") || same_text_ignoring_case(v, "h264_qsv") {
                return Ok(VideoSourceChoice::Qsv);
            }
            if same_text_ignoring_case(v, "annex-b") || same_text_ignoring_case(v, "file")
                || same_text_ignoring_case(v, "h264") {
                return Ok(VideoSourceChoice::AnnexB);
            }
            return Err(UnsupportedVideoSource { value });
        }
    }
    if native_available {
        Ok(VideoSourceChoice::NativeNvenc)
    } else {
        Ok(VideoSourceChoice::AnnexB)
    }
}

/// A build with live capture plays a file only where the setting names the file
/// source; a path that was left over from before never selects it.
pub proof fn files_are_played_only_when_named(video_source: Option<&str>, live_nvenc: Option<&str>)
    requires
        selected_source(video_source, live_nvenc, true) == Some(VideoSourceChoice::AnnexB),
    ensures
        video_source matches Some(value) && {
            ||| lower(trim(value@)) == lower("annex-b"@)
            ||| lower(trim(value@)) == lower("file"@)
            ||| lower(trim(value@)) == lower("h264"@)
        },
{
}

/// A way to get video.
#[derive(Clone, Copy, Debug, PartialEq, Eq, Structural)]
pub enum SourceAttempt {
    NativeNvenc,
    FfmpegNvenc,
    FfmpegQsv,
    AnnexBFile,
}

/// What to try first for a choice.
pub fn first_attempt(choice: VideoSourceChoice) -> (attempt: SourceAttempt)
    ensures
        attempt == match choice {
            VideoSourceChoice::NativeNvenc => SourceAttempt::NativeNvenc,
            VideoSourceChoice::Qsv => SourceAttempt::FfmpegQsv,
            VideoSourceChoice::AnnexB => SourceAttempt::AnnexBFile,
        },
{
    match choice {
        VideoSourceChoice::NativeNvenc => SourceAttempt::NativeNvenc,
        VideoSourceChoice::Qsv => SourceAttempt::FfmpegQsv,
        VideoSourceChoice::AnnexB => SourceAttempt::AnnexBFile,
    }
}

/// What to try after an attempt has failed: only the native encoder has a
/// substitute.
pub fn attempt_after_failure(attempt: SourceAttempt) -> (next: Option<SourceAttempt>)
    ensures
        next == if attempt is NativeNvenc {
            Some(SourceAttempt::FfmpegNvenc)
        } else {
            None
        },
{
    match attempt {
        SourceAttempt::NativeNvenc => Some(SourceAttempt::FfmpegNvenc),
        _ => None,
    }
}

// ---------------------------------------------------------------------------
// How requests, answers and the session go together
// ---------------------------------------------------------------------------
/// A `SETUP` is answered with the port that the host opens for it: for each request that
/// makes a stream ready, the first port in the answer is the one to open for the stream
/// on a session where it is not ready yet. That is 47998 for video, 48000 for audio and
/// 47999 for control.
pub proof fn setup_answers_name_the_open_port(
    request: &RtspRequest,
    step: SessionStep,
    media: MediaKind,
    idle: RtspState,
    session: &RtspState,
    port: Option<u16>,
    source_ip: &str,
    close: bool,
    cseq: &str,
    target: &str,
    told: u16,
    out: String,
)
    requires
        call_ensures(session_step, (request,), step),
        step == SessionStep::Setup(media),
        call_ensures(RtspState::new, (), idle),
        *session == idle,
        call_ensures(RtspState::setup_udp, (session, media), port),
        call_ensures(rtsp_response, (request, source_ip, close), out),
        call_ensures(RtspRequest::cseq, (request,), cseq),
        call_ensures(setup_port_for_target, (target,), told),
        target@ == request@.target,
    ensures
        port == Some(told),
        media is Video ==> port == Some(47998u16),
        media is Audio ==> port == Some(48000u16),
        media is Control ==> port == Some(47999u16),
        ({
            let ports = match media {
                MediaKind::Video => "47998-47999"@,
                MediaKind::Audio => "48000-48001"@,
                MediaKind::Control => "47999-48000"@,
            };
            out@ == "RTSP/1.0 200 OK\r\nCSeq: "@ + cseq@
                + "\r\nSession: DEADBEEFCAFE;timeout=90\r\nTransport: unicast;server_port="@ + ports
                + ";source="@ + source_ip@ + "\r\n"@ + closing_lines(close)
        }),
{
    methods_lead_to_their_answers(request, source_ip, close, cseq, target, told, out);
    lemma_port_texts();
    let ports = match media {
        MediaKind::Video => "47998-47999"@,
        MediaKind::Audio => "48000-48001"@,
        MediaKind::Control => "47999-48000"@,
    };
    assert(ports == decimal(told as nat) + "-"@ + decimal((told + 1) as nat));
    lemma_regroup_ports(
        "RTSP/1.0 200 OK\r\nCSeq: "@ + cseq@
            + "\r\nSession: DEADBEEFCAFE;timeout=90\r\nTransport: unicast;server_port="@,
        decimal(told as nat),
        "-"@,
        decimal((told + 1) as nat),
        ";source="@,
        source_ip@,
        "\r\n"@,
        closing_lines(close),
    );
}

proof fn lemma_regroup_ports(
    start: Seq<char>,
    low: Seq<char>,
    dash: Seq<char>,
    high: Seq<char>,
    source: Seq<char>,
    ip: Seq<char>,
    end: Seq<char>,
    closing: Seq<char>,
)
    ensures
        start + low + dash + high + source + ip + end + closing == start + (low + dash + high)
            + source + ip + end + closing,
{
    assert(start + low + dash + high + source + ip + end + closing =~= start + (low + dash + high)
        + source + ip + end + closing);
}

proof fn lemma_port_texts()
    ensures
        decimal(47998) + "-"@ + decimal(47999) == "47998-47999"@,
        decimal(48000) + "-"@ + decimal(48001) == "48000-48001"@,
        decimal(47999) + "-"@ + decimal(48000) == "47999-48000"@,
{
    reveal_strlit("-");
    reveal_strlit("47998-47999");
    reveal_strlit("48000-48001");
    reveal_strlit("47999-48000");
    reveal_with_fuel(decimal, 6);
    assert(decimal(47998) =~= seq!['4', '7', '9', '9', '8']);
    assert(decimal(47999) =~= seq!['4', '7', '9', '9', '9']);
    assert(decimal(48000) =~= seq!['4', '8', '0', '0', '0']);
    assert(decimal(48001) =~= seq!['4', '8', '0', '0', '1']);
    assert(decimal(47998) + "-"@ + decimal(47999) =~= "47998-47999"@);
    assert(decimal(48000) + "-"@ + decimal(48001) =~= "48000-48001"@);
    assert(decimal(47999) + "-"@ + decimal(48000) =~= "47999-48000"@);
}

/// What a request asks of the session: a `SETUP` makes the stream ready that its target
/// names, `PLAY` starts the streams, `TEARDOWN` stops them, and nothing else does
/// anything.
pub proof fn methods_move_the_session(
    request: &RtspRequest,
    target: &str,
    media: Option<MediaKind>,
    step: SessionStep,
)
    requires
        call_ensures(session_step, (request,), step),
        call_ensures(media_kind_for_target, (target,), media),
        target@ == request@.target,
    ensures
        step == SessionStep::Start <==> request@.method == "PLAY"@,
        step == SessionStep::Stop <==> request@.method == "TEARDOWN"@,
        step is Setup <==> request@.method == "SETUP"@ && media is Some,
        step matches SessionStep::Setup(m) ==> media == Some(m),
{
    reveal_strlit("SETUP");
    reveal_strlit("PLAY");
    reveal_strlit("TEARDOWN");
    assert("SETUP"@.len() == 5 && "PLAY"@.len() == 4 && "TEARDOWN"@.len() == 8);
}

/// After a stream has been made ready it is not opened again, the others are as before,
/// and starting the streams starts it.
pub proof fn ready_streams_are_started(
    before: &mut RtspState,
    media: MediaKind,
    again: &RtspState,
    port: Option<u16>,
    after: &mut RtspState,
    start: StreamStart,
)
    requires
        call_ensures(RtspState::mark_ready, (before, media), ()),
        *again == *final(before),
        call_ensures(RtspState::setup_udp, (again, media), port),
        *old(after) == *final(before),
        call_ensures(RtspState::start_streams, (after,), start),
    ensures
        port is None,
        final(before).streams_started == old(before).streams_started,
        final(before).control_key == old(before).control_key,
        final(before).video_ready == (old(before).video_ready || media is Video),
        final(before).audio_ready == (old(before).audio_ready || media is Audio),
        final(before).control_running == (old(before).control_running || media is Control),
        media is Video && !old(before).streams_started ==> start.video,
        media is Audio && !old(before).streams_started ==> start.audio,
        final(after).streams_started,
{
}

/// Streams are started once: the second time nothing is started. What is started is
/// what is ready, and the audio goes out under the key of the session.
pub proof fn streams_are_started_once(
    session: &mut RtspState,
    first: StreamStart,
    later: &mut RtspState,
    second: StreamStart,
)
    requires
        call_ensures(RtspState::start_streams, (session,), first),
        *old(later) == *final(session),
        call_ensures(RtspState::start_streams, (later,), second),
    ensures
        !second.video && !second.audio && second.audio_key is None,
        !old(session).streams_started ==> {
            &&& first.video == old(session).video_ready
            &&& first.audio == old(session).audio_ready
        },
        first.audio && old(session).control_key is Some ==> {
            &&& first.audio_key is Some
            &&& first.audio_key->0.key_id == old(session).control_key->0.key_id
            &&& first.audio_key->0.key == old(session).control_key->0.key
        },
        first.audio && old(session).control_key is None ==> first.audio_key is None,
        final(session).video_ready == old(session).video_ready,
        final(session).audio_ready == old(session).audio_ready,
        final(session).control_running == old(session).control_running,
        final(session).control_key == old(session).control_key,
{
}

/// A session that has been stopped is like a new one: nothing is ready, nothing runs, the
/// key is gone, and every stream would be opened again. What ran is told, to be shut
/// down.
pub proof fn stopped_sessions_are_new(
    session: &mut RtspState,
    stop: StreamStop,
    new: RtspState,
    later: &RtspState,
    media: MediaKind,
    port: Option<u16>,
)
    requires
        call_ensures(RtspState::stop_streams, (session,), stop),
        call_ensures(RtspState::new, (), new),
        *later == *final(session),
        call_ensures(RtspState::setup_udp, (later, media), port),
    ensures
        *final(session) == new,
        !new.video_ready && !new.audio_ready && !new.control_running && !new.streams_started,
        new.control_key is None,
        port is Some,
        stop.streams == old(session).streams_started,
        stop.control == old(session).control_running,
{
}

/// The connection is closed after a `TEARDOWN`, and after any request that does not ask
/// for it to stay open.
pub proof fn connections_are_closed(request: &RtspRequest, keep: bool, close: bool)
    requires
        call_ensures(RtspRequest::requested_keep_alive, (request,), keep),
        call_ensures(should_close, (request,), close),
    ensures
        request@.method == "TEARDOWN"@ ==> close,
        !keep ==> close,
        keep && request@.method != "TEARDOWN"@ ==> !close,
{
}

/// A lost event or a request for an IDR frame before the end of the queue asks for one;
/// other events, and whatever comes after the end, do not.
pub proof fn lost_events_ask_for_a_frame(polls: &Vec<EventPoll>, idr: bool, k: int)
    requires
        call_ensures(drain_video_control_events, (polls,), idr),
        0 <= k < polls@.len(),
        forall|j: int| 0 <= j < k ==> !(#[trigger] polls@[j] is Empty) && !(polls@[j] is Closed),
    ensures
        polls@[k] == EventPoll::Received(ControlEvent::IdrFrameRequested) ==> idr,
        polls@[k] is Lagged ==> idr,
        (polls@[k] is Empty || polls@[k] is Closed) && (forall|j: int|
            0 <= j < k ==> #[trigger] polls@[j] == EventPoll::Received(ControlEvent::StartA)) ==> !idr,
{
    assert forall|j: int| 0 <= j < k implies !ends_queue(#[trigger] polls@[j]) by {
        assert(!(polls@[j] is Empty));
    }
    if asks_for_idr(polls@[k]) {
        assert(asks_before_end(polls@));
    }
    if (polls@[k] is Empty || polls@[k] is Closed) && (forall|j: int|
        0 <= j < k ==> #[trigger] polls@[j] == EventPoll::Received(ControlEvent::StartA)) {
        assert(ends_queue(polls@[k]));
        assert forall|i: int|
            0 <= i < polls@.len() && asks_for_idr(#[trigger] polls@[i]) implies !(forall|j: int|
            0 <= j < i ==> !ends_queue(#[trigger] polls@[j])) by {
            if i < k {
                assert(polls@[i] == EventPoll::Received(ControlEvent::StartA));
            }
        }
    }
}

/// Which source the video comes from: the switch for live capture counts first, then the
/// name of a source in any letter case and with white space around it, and then what the
/// build has. An unknown name is refused.
pub proof fn settings_select_the_video_source(
    video_source: Option<&str>,
    live_nvenc: Option<&str>,
    h264_path: Option<&str>,
    native: bool,
    choice: Result<VideoSourceChoice, UnsupportedVideoSource>,
)
    requires
        call_ensures(select_video_source, (video_source, live_nvenc, h264_path, native), choice),
    ensures
        live_nvenc matches Some(v) && v@ == "1"@ ==> choice == Ok::<_, UnsupportedVideoSource>(
            VideoSourceChoice::NativeNvenc,
        ),
        !(live_nvenc matches Some(v) && v@ == "1"@) ==> match video_source {
            Some(value) if trim(value@).len() > 0 => {
                let v = lower(trim(value@));
                &&& v == lower("native-nvenc"@) || v == lower("capture"@) ==> choice == Ok::<
                    _,
                    UnsupportedVideoSource,
                >(VideoSourceChoice::NativeNvenc)
                &&& v == lower("qsv"@) || v == lower("h264_qsv"@) ==> choice == Ok::<
                    _,
                    UnsupportedVideoSource,
                >(VideoSourceChoice::Qsv)
                &&& v == lower("annex-b"@) || v == lower("file"@) || v == lower("h264"@) ==> choice
                    == Ok::<_, UnsupportedVideoSource>(VideoSourceChoice::AnnexB)
                &&& choice matches Err(e) ==> e.value@ == trim(value@)
                &&& v != lower("native-nvenc"@) && v != lower("capture"@) && v != lower("qsv"@) && v
                    != lower("h264_qsv"@) && v != lower("annex-b"@) && v != lower("file"@) && v
                    != lower("h264"@) ==> choice is Err
            },
            _ => choice == Ok::<_, UnsupportedVideoSource>(
                if native {
                    VideoSourceChoice::NativeNvenc
                } else {
                    VideoSourceChoice::AnnexB
                },
            ),
        },
{
    lemma_source_names();
}

proof fn lemma_source_names()
    ensures
        lower("native-nvenc"@).len() == 12,
        lower("capture"@).len() == 7,
        lower("qsv"@).len() == 3,
        lower("h264_qsv"@).len() == 8,
        lower("annex-b"@).len() == 7,
        lower("annex-b"@) != lower("capture"@),
        lower("file"@).len() == 4,
        lower("h264"@).len() == 4,
{
    reveal_strlit("native-nvenc");
    reveal_strlit("capture");
    reveal_strlit("qsv");
    reveal_strlit("h264_qsv");
    reveal_strlit("annex-b");
    reveal_strlit("file");
    reveal_strlit("h264");
    assert(lower("annex-b"@)[0] == 'a');
    assert(lower("capture"@)[0] == 'c');
}

/// Each choice of a video source is tried in its own way first; only live capture with
/// the native encoder has a substitute, which is the external encoder.
pub proof fn video_sources_are_tried_in_their_way(
    choice: VideoSourceChoice,
    first: SourceAttempt,
    next: Option<SourceAttempt>,
)
    requires
        call_ensures(first_attempt, (choice,), first),
        call_ensures(attempt_after_failure, (first,), next),
    ensures
        choice is NativeNvenc ==> first is NativeNvenc && next == Some(SourceAttempt::FfmpegNvenc),
        choice is Qsv ==> first is FfmpegQsv && next is None,
        choice is AnnexB ==> first is AnnexBFile && next is None,
{
}

/// A client on this machine is told its own address as the source of the streams, any
/// other client the address of the host.
pub proof fn sources_are_reachable(loopback: bool, peer: &str, local: &str, ip: String)
    requires
        call_ensures(source_ip, (loopback, peer, local), ip),
    ensures
        loopback ==> ip@ == peer@,
        !loopback ==> ip@ == local@,
{
}

/// The key of a launched session is the one that its audio goes out under; once it is
/// cleared, the audio goes out in the clear.
pub proof fn launched_keys_reach_the_audio(
    session: &mut RtspState,
    key: ControlSessionKey,
    started: &mut RtspState,
    start: StreamStart,
    cleared: &mut RtspState,
    open: &mut RtspState,
    plain: StreamStart,
)
    requires
        call_ensures(RtspState::set_control_key, (session, key), ()),
        *old(started) == *final(session),
        call_ensures(RtspState::start_streams, (started,), start),
        call_ensures(RtspState::clear_control_key, (cleared,), ()),
        *old(open) == *final(cleared),
        call_ensures(RtspState::start_streams, (open,), plain),
    ensures
        start.audio ==> start.audio_key is Some && start.audio_key->0.key_id == key.key_id
            && start.audio_key->0.key == key.key,
        plain.audio_key is None,
        final(session).video_ready == old(session).video_ready,
        final(session).audio_ready == old(session).audio_ready,
        final(session).control_running == old(session).control_running,
        final(cleared).audio_ready == old(cleared).audio_ready,
{
}

} // verus!
