use sunrise::cli::{
    parse_capture_loop, parse_capture_smoke, parse_command, parse_encode_smoke,
    parse_native_nvenc_smoke, parse_qsv_smoke, usage, CliError, Command, Flag,
};
use sunrise::config::{
    default_config_path, default_host_name, load_or_generate, mac_address_from, unique_id_from,
    PairedClient, StoredConfig, SunriseConfig, DEFAULT_HTTPS_PORT, DEFAULT_HTTP_PORT, DEFAULT_RTSP_PORT,
};
use sunrise::http::{
    advertised_local_ip, format_rtsp_host, handle_https_request, http_response, parse_bind_ip,
    parse_request, query_value, render_serverinfo, rtsp_session_url, AnswerBody, BindIp,
    BindIpError, HttpsAnswer,
};
use sunrise::identity::ServerIdentity;
use sunrise::pairing::PairingState;
use sunrise::protocol::{applist_xml, escape_xml, pair_xml, serverinfo_xml, ServerInfo};

fn test_config() -> SunriseConfig {
    SunriseConfig {
        host_name: "test-host".to_string(),
        http_port: 47989,
        https_port: 47984,
        rtsp_port: 48010,
        unique_id: "ABCDEF0123456789".to_string(),
        uuid: "550e8400-e29b-41d4-a716-446655440000".to_string(),
        mac_address: "02:AA:BB:CC:DD:EE".to_string(),
        server_cert_pem: None,
        server_private_key_pem: None,
        paired_clients: Vec::new(),
    }
}

#[test]
fn serverinfo_xml_contains_required_fields() {
    let info = ServerInfo::from_config(&test_config(), "192.0.2.10", false);
    let xml = serverinfo_xml(&info);

    for field in [
        "hostname",
        "uniqueid",
        "uuid",
        "LocalIP",
        "ExternalIP",
        "PairStatus",
        "currentgame",
        "state",
        "appversion",
        "GfeVersion",
        "serverCodecModeSupport",
        "supportedDisplayMode",
        "mac",
        "HTTPSPort",
        "HTTPPort",
        "RTSPPort",
    ] {
        assert!(xml.contains(&format!("<{field}>")), "missing {field}");
        assert!(xml.contains(&format!("</{field}>")), "missing {field}");
    }
}

#[test]
fn serverinfo_uses_stable_ids_from_config() {
    let info = ServerInfo::from_config(&test_config(), "192.0.2.10", false);
    let xml = serverinfo_xml(&info);

    assert!(xml.contains("<uniqueid>ABCDEF0123456789</uniqueid>"));
    assert!(xml.contains("<uuid>550e8400-e29b-41d4-a716-446655440000</uuid>"));
}

#[test]
fn serverinfo_advertises_gen_7_pairing_version() {
    let info = ServerInfo::from_config(&test_config(), "192.0.2.10", false);
    let xml = serverinfo_xml(&info);

    assert!(xml.contains("<appversion>7.1.431.-1</appversion>"));
}

#[test]
fn applist_contains_desktop_app() {
    let xml = applist_xml();

    assert!(xml.contains("<ID>1</ID>"));
    assert!(xml.contains("<AppTitle>Desktop</AppTitle>"));
    assert!(xml.contains("<IsHdrSupported>0</IsHdrSupported>"));
    assert!(xml.contains("<ShortName>desktop</ShortName>"));
    assert!(xml.contains("<SupportedSOPS>"));
}

#[test]
fn pair_xml_contains_supplied_fields() {
    let xml = pair_xml([("paired", "1"), ("plaincert", "ABCD")]);

    assert!(xml.contains("<paired>1</paired>"));
    assert!(xml.contains("<plaincert>ABCD</plaincert>"));
}

#[test]
fn generates_config_on_first_load() {
    let (config, created) = load_or_generate(None, None, None);

    assert!(created);
    assert_eq!(config.http_port, DEFAULT_HTTP_PORT);
    assert_eq!(config.https_port, DEFAULT_HTTPS_PORT);
    assert_eq!(config.rtsp_port, DEFAULT_RTSP_PORT);
    assert!(!config.unique_id.is_empty());
    assert!(!config.uuid.is_empty());
    assert!(!config.mac_address.is_empty());
    assert!(config.server_cert_pem.is_none());
    assert!(config.server_private_key_pem.is_none());
    assert!(config.paired_clients.is_empty());
    assert_eq!(config.host_name, "sunrise-host");
    assert_eq!(default_config_path(), "sunrise.toml");
}

#[test]
fn loads_stable_unique_id_and_uuid_from_config() {
    let config = SunriseConfig {
        server_cert_pem: Some("cert".to_string()),
        server_private_key_pem: Some("key".to_string()),
        paired_clients: vec![PairedClient {
            unique_id: "client-1".to_string(),
            client_cert_pem: "client-cert".to_string(),
        }],
        ..test_config()
    };

    let (loaded, created) = load_or_generate(Some(config), None, None);

    assert!(!created);
    assert_eq!(loaded.unique_id, "ABCDEF0123456789");
    assert_eq!(loaded.uuid, "550e8400-e29b-41d4-a716-446655440000");
    assert_eq!(loaded.mac_address, "02:AA:BB:CC:DD:EE");
    assert_eq!(loaded.server_cert_pem.as_deref(), Some("cert"));
    assert_eq!(loaded.server_private_key_pem.as_deref(), Some("key"));
    assert_eq!(loaded.paired_clients[0].unique_id, "client-1");
}

#[test]
fn missing_new_fields_default_when_loading_old_config() {
    let stored = StoredConfig {
        host_name: "old".to_string(),
        http_port: Some(47989),
        https_port: Some(47984),
        rtsp_port: Some(48010),
        unique_id: "ABCDEF0123456789".to_string(),
        uuid: "550e8400-e29b-41d4-a716-446655440000".to_string(),
        mac_address: "02:AA:BB:CC:DD:EE".to_string(),
        server_cert_pem: None,
        server_private_key_pem: None,
        paired_clients: None,
    };

    let loaded = SunriseConfig::from_stored(stored);

    assert!(loaded.server_cert_pem.is_none());
    assert!(loaded.server_private_key_pem.is_none());
    assert!(loaded.paired_clients.is_empty());
    assert_eq!(loaded.host_name, "old");
}

#[test]
fn missing_ports_are_the_usual_ones() {
    let stored = StoredConfig {
        host_name: "h".to_string(),
        http_port: None,
        https_port: Some(1),
        rtsp_port: None,
        unique_id: "u".to_string(),
        uuid: "v".to_string(),
        mac_address: "m".to_string(),
        server_cert_pem: Some("c".to_string()),
        server_private_key_pem: None,
        paired_clients: Some(vec![PairedClient {
            unique_id: "a".to_string(),
            client_cert_pem: "b".to_string(),
        }]),
    };
    let config = SunriseConfig::from_stored(stored);
    assert_eq!((config.http_port, config.https_port, config.rtsp_port), (47989, 1, 48010));
    assert_eq!(config.server_cert_pem.as_deref(), Some("c"));
    assert_eq!(config.paired_clients.len(), 1);
}

#[test]
fn fresh_identifiers_have_their_shapes() {
    let bytes: [u8; 16] = [
        0x55, 0x0e, 0x84, 0x00, 0xe2, 0x9b, 0x41, 0xd4, 0xa7, 0x16, 0x44, 0x66, 0x55, 0x44, 0x00,
        0x00,
    ];
    let config = SunriseConfig::from_random_bytes("h".to_string(), &bytes, &bytes, &bytes);
    assert_eq!(config.uuid, "550e8400-e29b-41d4-a716-446655440000");
    assert_eq!(config.unique_id, "550E8400E29B41D4");
    assert_eq!(unique_id_from(&bytes), "550E8400E29B41D4");
    assert_eq!(config.mac_address, "56:0E:84:00:E2:9B");
    assert_eq!(mac_address_from(&[0xff; 16]), "FE:FF:FF:FF:FF:FF");
    assert_eq!(mac_address_from(&[0; 16]), "02:00:00:00:00:00");

    let generated = SunriseConfig::generate(None, Some("box"));
    assert_eq!(generated.host_name, "box");
    let uuid: Vec<char> = generated.uuid.chars().collect();
    assert_eq!(uuid.len(), 36);
    assert_eq!(uuid[14], '4');
    assert!(matches!(uuid[19], '8' | '9' | 'a' | 'b'));
    assert_ne!(generated.uuid, SunriseConfig::generate(None, None).uuid);
}

#[test]
fn host_names_come_from_the_first_variable_that_is_set() {
    assert_eq!(default_host_name(Some("PC"), Some("box")), "PC");
    assert_eq!(default_host_name(None, Some("box")), "box");
    assert_eq!(default_host_name(Some(" "), Some("box")), "sunrise-host");
    assert_eq!(default_host_name(None, None), "sunrise-host");
}

#[test]
fn values_are_escaped() {
    assert_eq!(escape_xml("a<b>&\"'c"), "a&lt;b&gt;&amp;&quot;&apos;c");
    assert_eq!(escape_xml("&amp;"), "&amp;amp;");
    assert_eq!(
        pair_xml([("x", "<")]),
        "<?xml version=\"1.0\" encoding=\"UTF-8\"?>\n<root status_code=\"200\">\n  <x>&lt;</x>\n</root>\n"
    );
    assert!(applist_xml().ends_with("  </App>\n</root>\n"));
}

fn identity() -> ServerIdentity {
    ServerIdentity {
        cert_der: vec![1],
        cert_pem: "cert".to_string(),
        cert_signature: vec![2],
        key_der: vec![3],
        key_pem: "key".to_string(),
    }
}

fn pairing() -> PairingState {
    PairingState::new(identity(), vec!["friend".to_string()])
}

fn answer(raw: &str, game: &mut u32) -> HttpsAnswer {
    handle_https_request(
        &parse_request(raw.as_bytes()),
        &test_config(),
        &pairing(),
        "10.0.0.2",
        "fe80::1",
        true,
        game,
    )
}

#[test]
fn routes_requests() {
    let mut game = 0;
    let info = answer("GET /serverinfo?uniqueid=friend HTTP/1.1\r\n\r\n", &mut game);
    assert_eq!(info.status, "200 OK");
    assert_eq!(
        info.body,
        AnswerBody::Document(render_serverinfo(&test_config(), "10.0.0.2", true, 0))
    );
    let stranger = answer("GET /serverinfo?uniqueid=stranger HTTP/1.1\r\n", &mut game);
    assert_eq!(
        stranger.body,
        AnswerBody::Document(render_serverinfo(&test_config(), "10.0.0.2", false, 0))
    );
    assert_eq!(answer("GET /applist", &mut game).body, AnswerBody::Document(applist_xml()));
    assert_eq!(
        answer("GET /pair?phrase=pairchallenge HTTP/1.1", &mut game).body,
        AnswerBody::Document(pair_xml([("paired", "1")]))
    );
    for raw in ["POST /applist HTTP/1.1", "GET /pair HTTP/1.1", "", "GET /other"] {
        let missing = answer(raw, &mut game);
        assert_eq!(missing.status, "404 Not Found");
        assert_eq!(
            missing.body,
            AnswerBody::Document(
                "<?xml version=\"1.0\" encoding=\"UTF-8\"?>\n<root status_code=\"404\" />\n"
                    .to_string()
            )
        );
    }
    assert_eq!(game, 0);
}

#[test]
fn launching_makes_busy_until_cancelled() {
    let mut game = 0;
    let launched = answer("GET /launch?appid=7&x=1 HTTP/1.1", &mut game);
    assert_eq!(
        launched.body,
        AnswerBody::Launched { rtsp_url: "rtsp://[fe80::1]:48010".to_string() }
    );
    assert_eq!(game, 7);
    let busy = render_serverinfo(&test_config(), "10.0.0.2", true, game);
    assert!(busy.contains("<currentgame>7</currentgame>"));
    assert!(busy.contains("<state>SUNSHINE_SERVER_BUSY</state>"));
    assert!(busy.contains("<PairStatus>1</PairStatus>"));
    answer("GET /resume?appid=no HTTP/1.1", &mut game);
    assert_eq!(game, 1);
    assert_eq!(answer("GET /cancel HTTP/1.1", &mut game).body, AnswerBody::Cancelled);
    assert_eq!(game, 0);
    let idle = render_serverinfo(&test_config(), "10.0.0.2", false, game);
    assert!(idle.contains("<state>ONLINE</state>"));
}

#[test]
fn reads_queries_and_addresses() {
    assert_eq!(query_value("a=1&b=2&a=3", "a").as_deref(), Some("1"));
    assert_eq!(query_value("a&b=2=3", "b").as_deref(), Some("2=3"));
    assert_eq!(query_value("a&b=2", "a"), None);
    assert_eq!(format_rtsp_host("10.0.0.2", false), "10.0.0.2");
    assert_eq!(rtsp_session_url("10.0.0.2", false, 1), "rtsp://10.0.0.2:1");
    let request = parse_request(b"GET /a?b?c HTTP/1.1\r\nx y z");
    assert_eq!(
        (request.method.as_str(), request.path.as_str(), request.query.as_str()),
        ("GET", "/a", "b?c")
    );
    assert_eq!(parse_request(b"GET /\xff").path, "/\u{fffd}");
    assert_eq!(
        http_response("200 OK", "\u{e9}"),
        "HTTP/1.1 200 OK\r\nContent-Type: application/xml; charset=utf-8\r\nContent-Length: 2\r\nConnection: close\r\n\r\n\u{e9}"
    );
}

#[test]
fn default_bind_ip_is_all_interfaces() {
    assert_eq!(parse_bind_ip(None).unwrap(), BindIp::Unspecified);
}

#[test]
fn parses_explicit_bind_ip() {
    assert_eq!(
        parse_bind_ip(Some("192.168.2.10")).unwrap(),
        BindIp::Text("192.168.2.10".to_string())
    );
}

#[test]
fn rejects_empty_bind_ip() {
    assert!(parse_bind_ip(Some(" ")).is_err());
    assert_eq!(parse_bind_ip(Some("")).unwrap_err(), BindIpError::Empty);
}

#[test]
fn advertises_the_address_it_listens_on() {
    assert_eq!(advertised_local_ip(false, "10.0.0.2", Some("10.0.0.3")), "10.0.0.2");
    assert_eq!(advertised_local_ip(true, "0.0.0.0", Some("10.0.0.3")), "10.0.0.3");
    assert_eq!(advertised_local_ip(true, "0.0.0.0", None), "127.0.0.1");
}

fn words(line: &str) -> Vec<String> {
    line.split_whitespace().map(str::to_string).collect()
}

#[test]
fn reads_commands() {
    assert_eq!(
        parse_command(&[]),
        Ok(Command::Serve { config_path: "sunrise.toml".to_string() })
    );
    assert_eq!(
        parse_command(&words("--config a.toml")),
        Ok(Command::Serve { config_path: "a.toml".to_string() })
    );
    assert_eq!(parse_command(&words("--config")), Err(CliError::MissingConfigPath));
    assert_eq!(parse_command(&words("--config a b")), Err(CliError::Usage));
    assert_eq!(parse_command(&words("capture-list")), Ok(Command::CaptureList));
    assert_eq!(parse_command(&words("capture-list x")), Err(CliError::Usage));
    assert_eq!(parse_command(&words("dance")), Err(CliError::Usage));
    assert!(matches!(parse_command(&words("capture-smoke")), Ok(Command::CaptureSmoke(_))));
    assert!(matches!(parse_command(&words("wgc-smoke")), Ok(Command::WgcSmoke(_))));
    assert!(matches!(parse_command(&words("capture-loop")), Ok(Command::CaptureLoop(_))));
    assert!(matches!(parse_command(&words("encode-smoke")), Ok(Command::EncodeSmoke(_))));
    assert!(matches!(parse_command(&words("qsv-smoke")), Ok(Command::QsvSmoke(_))));
    assert!(matches!(
        parse_command(&words("native-nvenc-smoke --fps 60")),
        Ok(Command::NativeNvencSmoke(_))
    ));
}

#[test]
fn reads_options_and_keeps_the_last_value() {
    let options = parse_encode_smoke(&words(
        "--frames 5 --encoder libx264 --monitor 2 --frames 6 --ffmpeg f --fps 24 --timeout-ms 9 --output o",
    ))
    .unwrap();
    assert_eq!(options.frame_count, 6);
    assert_eq!(options.encoder, "libx264");
    assert_eq!(options.source.monitor_index, Some(2));
    assert_eq!(options.source.timeout_ms, 9);
    assert_eq!((options.ffmpeg_path.as_str(), options.output_path.as_str()), ("f", "o"));
    assert_eq!(options.fps, 24);

    let smoke = parse_capture_smoke(&[]).unwrap();
    assert_eq!(smoke.output_path, "target/capture-smoke/frame.bmp");
    assert_eq!((smoke.source.monitor_index, smoke.source.timeout_ms), (None, 33));
    assert_eq!(parse_capture_loop(&[]).unwrap().frame_count, 120);
    let native = parse_native_nvenc_smoke(&[]).unwrap();
    assert_eq!(native.output_path, "target/capture-smoke/native-nvenc.h264");
    assert_eq!((native.frame_count, native.fps), (120, 30));
    let encode = parse_encode_smoke(&[]).unwrap();
    assert_eq!(encode.output_path, "target/capture-smoke/capture.h264");
    assert_eq!((encode.ffmpeg_path.as_str(), encode.encoder.as_str()), ("ffmpeg.exe", "auto"));
}

#[test]
fn qsv_writes_to_its_own_place() {
    let qsv = parse_qsv_smoke(&words("--encoder libx264")).unwrap();
    assert_eq!(qsv.encoder, "h264_qsv");
    assert_eq!(qsv.output_path, "target/capture-smoke/qsv.h264");
    for same in ["target//capture-smoke/capture.h264", "target/./capture-smoke/capture.h264/."] {
        let same = parse_qsv_smoke(&words(&format!("--output {same}"))).unwrap();
        assert_eq!(same.output_path, "target/capture-smoke/qsv.h264");
    }
    for other in [
        "./target/capture-smoke/capture.h264",
        "/target/capture-smoke/capture.h264",
        "target/x/../capture-smoke/capture.h264",
        "Target/capture-smoke/capture.h264",
        "targetcapture-smoke/capture.h264",
    ] {
        let kept = parse_qsv_smoke(&words(&format!("--output {other}"))).unwrap();
        assert_eq!(kept.output_path, other);
    }
    let other = parse_qsv_smoke(&words("--output capture.h264")).unwrap();
    assert_eq!(other.output_path, "capture.h264");
    let kept = parse_qsv_smoke(&words("--output target/capture-smoke/other.h264")).unwrap();
    assert_eq!(kept.output_path, "target/capture-smoke/other.h264");
}

#[test]
fn tells_why_options_are_refused() {
    let error = parse_capture_smoke(&words("--frames 5")).unwrap_err();
    assert_eq!(error, CliError::Usage);
    assert_eq!(error.message(), usage());
    let error = parse_capture_smoke(&words("--output")).unwrap_err();
    assert_eq!(error, CliError::MissingValue(Flag::Output));
    assert_eq!(error.message(), "missing value after --output");
    let error = parse_capture_loop(&words("--monitor -1")).unwrap_err();
    assert_eq!(error, CliError::InvalidNumber(Flag::Monitor));
    assert_eq!(error.message(), "failed to parse --monitor as a one-based monitor index");
    let error = parse_capture_loop(&words("--frames 4294967296")).unwrap_err();
    assert_eq!(error.message(), "failed to parse --frames as a frame count");
    let error = parse_capture_loop(&words("--timeout-ms x")).unwrap_err();
    assert_eq!(error.message(), "failed to parse --timeout-ms as milliseconds");
    let error = parse_encode_smoke(&words("--fps x")).unwrap_err();
    assert_eq!(error.message(), "failed to parse --fps");
    assert_eq!(CliError::MissingConfigPath.message(), "missing path after --config");
    assert!(usage().starts_with("usage: cargo run -p sunrise-daemon -- [--config path/to/sunrise.toml]\n"));
}
