use omabeam::cast::{
    check_fields, discover_command, event_len, push_log, read_event, stop_command, write_frame,
    write_json, Endpoint, Error, Helper, Receiver, Recovery, VideoConfig, MAX_FRAME, MAX_HEADER,
    MAX_LOG,
};
use omabeam::desktop::DesktopConfig;
use omabeam::destination::{render_cast_settings, Cast};
use omabeam::live::LiveConfig;
use omabeam::settings::Stream;
use serde_json::Value;

/// Reads a message as it stands on the wire: its length, then its bytes.
/// Returns the event's name and all of it.
fn read(wire: &[u8]) -> Result<(String, Value), Error> {
    let size = [wire[0], wire[1], wire[2], wire[3]];
    let n = event_len(size)?;
    let Some(bytes) = wire.get(4..4 + n) else {
        return Err(Error::Malformed);
    };
    let name = read_event(bytes)?;
    Ok((name, serde_json::from_slice(bytes).unwrap()))
}

#[test]
fn bounded_and_versioned_events() {
    let event: Value =
        serde_json::from_str(r#"{"version":1,"event":"state","state":"streaming"}"#).unwrap();
    let wire = write_json(event.to_string().as_bytes()).unwrap();
    assert_eq!(read(&wire).unwrap(), ("state".into(), event));
    for invalid in [
        vec![0; 4],
        u32::MAX.to_be_bytes().to_vec(),
        wire[..6].to_vec(),
    ] {
        assert!(read(&invalid).is_err());
    }
    for invalid in [
        r#"{"version":2,"event":"ready"}"#,
        r#"{"version":1,"event":"ready","bytes":5}"#,
        r#"{"version":1}"#,
    ] {
        let wire = write_json(invalid.as_bytes()).unwrap();
        assert!(read(&wire).is_err());
    }
}

#[test]
fn reject_unsupported_video_before_connect() {
    let mut config = VideoConfig {
        width: 1280,
        height: 720,
        fps: 30,
        bitrate: 4_000_000,
    };
    assert!(config.validate().is_ok());
    config.width = 1281;
    assert!(config.validate().is_err());
    config.width = 1280;
    config.fps = 60;
    assert!(config.validate().is_err());
}

#[test]
fn frame_key_flag_comes_from_annex_b() {
    let payload = [
        0, 0, 0, 1, 0x67, 66, 0x40, 31, 0, 0, 0, 1, 0x68, 0, 0, 0, 1, 0x65, 1,
    ];
    let wire = write_frame(1, 0, 5, &payload).unwrap();
    let size = u32::from_be_bytes(wire[..4].try_into().unwrap()) as usize;
    let header: Value = serde_json::from_slice(&wire[4..4 + size]).unwrap();
    assert_eq!(header["keyframe"], true);
    assert_eq!(&wire[4 + size..], &payload);
    assert!(write_frame(1, 0, 0, &[1, 2, 3]).is_err());
}

#[test]
fn a_frame_header_says_what_follows() {
    let delta = [0, 0, 1, 0x41, 1];
    let wire = write_frame(7, 40_000, 5, &delta).unwrap();
    let size = u32::from_be_bytes(wire[..4].try_into().unwrap()) as usize;
    let header: Value = serde_json::from_slice(&wire[4..4 + size]).unwrap();
    assert_eq!(header["version"], 1);
    assert_eq!(header["sequence"], 7);
    assert_eq!(header["pts_us"], 40_000);
    assert_eq!(header["capture_age_us"], 5);
    assert_eq!(header["keyframe"], false);
    assert_eq!(header["bytes"], 5);
}

#[test]
fn each_refusal_has_its_error() {
    let video = VideoConfig {
        width: 1280,
        height: 720,
        fps: 30,
        bitrate: 4_000_000,
    };
    let with = |change: fn(&mut VideoConfig)| {
        let mut config = video;
        change(&mut config);
        config.validate()
    };
    assert_eq!(with(|c| c.height = 241), Err(Error::Dimensions));
    assert_eq!(with(|c| c.fps = 0), Err(Error::FrameRate));
    assert_eq!(with(|c| c.bitrate = 1), Err(Error::Bitrate));
    let delta = [0, 0, 1, 0x41, 1];
    assert_eq!(
        write_frame(0, 0, 0, &delta),
        Err(Error::SequenceOrTimestamp)
    );
    assert_eq!(write_frame(1, 0, 10_000_001, &delta), Err(Error::TooOld));
    assert_eq!(
        write_frame(1, 0, 0, &vec![0; MAX_FRAME + 1]),
        Err(Error::FrameTooLarge)
    );
    assert!(matches!(
        write_frame(1, 0, 0, &[1, 2, 3]),
        Err(Error::Encoder(_))
    ));
    assert_eq!(
        write_json(&vec![b' '; MAX_HEADER + 1]),
        Err(Error::HeaderTooLarge)
    );
    assert_eq!(event_len([0, 0, 0, 0]), Err(Error::HeaderLength));
    assert_eq!(read_event(b"{"), Err(Error::Malformed));
    assert_eq!(
        read_event(br#"{"version":2,"event":"ready"}"#),
        Err(Error::VersionMismatch)
    );
    assert_eq!(
        read_event(br#"{"version":1,"event":7}"#),
        Err(Error::InvalidEvent)
    );
    assert_eq!(
        read_event(br#"{"version":1,"event":"ready","bytes":5}"#),
        Err(Error::UnexpectedMedia)
    );
    assert_eq!(
        check_fields(true, Some(1), true, true, Some(0)),
        Ok(())
    );
}

fn endpoint() -> Endpoint {
    Endpoint {
        text: "[fe80::1%12]:8009".into(),
        unspecified: false,
        port: 8009,
    }
}

#[test]
fn connecting_keeps_the_numeric_scope_of_the_address() {
    let video = VideoConfig {
        width: 1280,
        height: 720,
        fps: 30,
        bitrate: 4_000_000,
    };
    let command: Value = serde_json::from_str(&video.connect(&endpoint()).unwrap()).unwrap();
    assert_eq!(command["command"], "connect");
    assert_eq!(command["endpoint"], "[fe80::1%12]:8009");
    assert_eq!(command["width"], 1280);
    assert_eq!(command["version"], 1);
    assert_eq!(command.get("resume_session"), None);
    let resumed = video.resume(&endpoint(), "a \"b\" \\ \u{1}").unwrap();
    let command: Value = serde_json::from_str(&resumed).unwrap();
    assert_eq!(command["resume_session"], "a \"b\" \\ \u{1}");
    assert_eq!(video.resume(&endpoint(), ""), Err(Error::Session));
    let nowhere = Endpoint {
        port: 0,
        ..endpoint()
    };
    assert_eq!(video.connect(&nowhere), Err(Error::Endpoint));
}

#[test]
fn commands_are_versioned_messages() {
    for (text, name) in [(discover_command(), "discover"), (stop_command(), "stop")] {
        let command: Value = serde_json::from_str(&text).unwrap();
        assert_eq!(command["command"], name);
        assert_eq!(command["version"], 1);
    }
}

#[test]
fn a_helper_is_stopped_once_and_abandoned_when_its_pipe_breaks() {
    let mut helper = Helper::new();
    assert_eq!(helper.ready(None), Err(Error::ReadyTimeout));
    assert_eq!(helper.ready(Some("state")), Err(Error::NotReady));
    assert_eq!(helper.ready(Some("ready")), Ok(()));
    assert_eq!(helper.frame_failed(false), Recovery::Stop);
    assert_eq!(helper.frame_failed(false), Recovery::Nothing);
    assert!(!helper.stop());
    assert_eq!(Helper::new().frame_failed(true), Recovery::Abandon);
}

#[test]
fn the_log_keeps_its_last_whole_characters() {
    let mut log = String::new();
    push_log(&mut log, "first ");
    push_log(&mut log, "second");
    assert_eq!(log, "first second");
    push_log(&mut log, &"é".repeat(MAX_LOG));
    assert_eq!(log.len(), MAX_LOG);
    assert!(log.chars().all(|c| c == 'é'));
    push_log(&mut log, "x");
    assert_eq!(log.len(), MAX_LOG - 1);
    assert!(log.ends_with("éx"));
}

fn receiver(id: &str, name: &str) -> Receiver {
    Receiver {
        id: id.into(),
        name: name.into(),
        model: "Test".into(),
        busy: false,
        addresses: vec!["192.0.2.1:8009".into()],
    }
}

#[test]
fn leaving_a_cast_brings_the_browser_settings_back() {
    let mut stream = Stream {
        config: LiveConfig::default(),
        fps_selected: false,
    };
    stream.config.set_fps(60);
    let before = stream;
    let mut desktop = DesktopConfig::default();
    let mut cast = Cast::new();
    assert!(cast.choose_destination(1, false, &mut stream, &mut desktop));
    assert!(cast.mode);
    assert!(stream.config.fps <= 30);
    stream.choose_cast_fps(0);
    cast.choose_destination(0, false, &mut stream, &mut desktop);
    assert!(!cast.mode);
    assert_eq!(stream, before);
    assert_eq!(desktop, DesktopConfig::default());
}

#[test]
fn the_chosen_receiver_is_kept_while_it_is_found() {
    let mut cast = Cast::new();
    assert!(cast.refresh(false));
    cast.found(Ok(vec![receiver("a", "Kitchen"), receiver("b", "Den")]));
    cast.choose_receiver(1, false);
    let chosen = cast.receiver_id.clone();
    assert!(chosen.is_some());
    assert!(cast.refresh(false));
    cast.found(Ok(vec![receiver("b", "Den"), receiver("a", "Kitchen")]));
    assert_eq!(cast.receiver_id, chosen);
    cast.refresh(false);
    cast.found(Err("no network".into()));
    assert!(cast.error.is_some());
    let view = cast.render_destination(false, true);
    assert_eq!(view.destination.items.len(), 2);
    assert!(!render_cast_settings(&LiveConfig::default(), false)
        .profile
        .items
        .is_empty());
}
