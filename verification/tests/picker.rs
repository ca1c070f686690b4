use omabeam::actions::Action;
use omabeam::demo;
use omabeam::frame::PixelMode;
use omabeam::hypr::{self, Monitor, Workspace};
use omabeam::keys::{picker_command, send_command, Command, Performed};
use omabeam::live::{Address, EncoderMode, Error as LiveError, LiveConfig, LiveSource};
use omabeam::picker::{Error, OmaBeam, Options, Page};
use omabeam::preview::Handed;
use omabeam::previews::{PreviewResult, Shot, Tick};
use omabeam::rect::{CaptureTarget, Rect, Region};
use omabeam::request::{
    capture, pick_region, pictures_dir, request_for_client, request_for_monitor, screenshot_path,
    CaptureAction, CaptureRequest, Error as RequestError, Selection,
};
use omabeam::settings::{render_stream_settings, Stream, StreamPreset};
use omabeam::single::Single;
use omabeam::view::{picker_size_for_monitor, picker_window_size};
use omabeam::wording::{friendly_error, truncate};

fn arguments(list: &[&str]) -> Vec<String> {
    list.iter().map(|arg| String::from(*arg)).collect()
}

/// The addresses among the arguments, where an option's value is one.
fn addresses(args: &[String]) -> Vec<Option<Address>> {
    args.iter()
        .map(|arg| match arg.as_str() {
            "127.0.0.1" => Some(Address::V4(0x7f00_0001)),
            _ => None,
        })
        .collect()
}

fn parse(list: &[&str]) -> Result<(LiveConfig, Vec<String>, bool), LiveError> {
    let args = arguments(list);
    let parsed = LiveConfig::parse_args(&args, &addresses(&args))?;
    Ok((parsed.config, parsed.rest, parsed.fps_selected))
}

#[test]
fn demo_picker_cannot_be_combined_with_portal_mode() {
    let args = arguments(&["--demo-picker", "--picker"]);
    assert!(Options::from_args(&args, LiveConfig::default(), false, false).is_err());
    let (config, rest, _) = parse(&["--demo-picker", "--fps", "24"]).unwrap();
    assert_eq!(config.fps, 24);
    assert_eq!(rest, vec!["--demo-picker"]);
}

#[test]
fn send_link_is_a_known_command() {
    let (config, rest, _) = parse(&["--send-link", "http://192.168.1.24:9847/s/abc/"]).unwrap();
    assert_eq!(config, LiveConfig::default());
    assert_eq!(rest, vec!["--send-link", "http://192.168.1.24:9847/s/abc/"]);
}

#[test]
fn source_order_starts_with_the_safer_tile_choice() {
    assert_eq!(Page::from_index(0), Page::Tiles);
    assert_eq!(Page::Tiles.index(), 0);
    assert_eq!(Page::Outputs.index(), 1);
    assert_eq!(Page::Windows.index(), Page::Tiles.index());
    assert_eq!(Page::from_index(2), Page::Region);
    assert_eq!(Page::from_index(3), Page::Extend);
    assert_eq!(Page::Extend.index(), 3);
}

#[test]
fn command_errors_are_explained_in_user_language() {
    assert_eq!(
        friendly_error("region selection cancelled"),
        "Area selection cancelled. Nothing was shared."
    );
    assert!(friendly_error("wl-copy failed").contains("Couldn’t copy"));
    assert!(friendly_error("screen capture failed").contains("Couldn’t capture"));
}

fn single(value: f32) -> Single {
    Single {
        bits: value.to_bits(),
    }
}

fn test_monitor(width: u32, height: u32, scale: f32, reserved_top: i32) -> Monitor {
    Monitor {
        id: 0,
        name: "eDP-1".into(),
        description: String::new(),
        width,
        height,
        x: 0,
        y: 0,
        scale: single(scale),
        refresh_rate: single(60.0),
        transform: 0,
        focused: true,
        reserved: [0, reserved_top, 0, 0],
        active_workspace: Workspace {
            id: 1,
            name: "1".into(),
        },
        special_workspace: Workspace {
            id: 0,
            name: String::new(),
        },
    }
}

const PICKER_MARGIN: f32 = 32.0;
const PICKER_MAX_H: f32 = 800.0;

#[test]
fn picker_fits_a_1080p_laptop_at_1_6_scale() {
    let monitor = test_monitor(1920, 1080, 1.6, 26);
    let (usable_w, usable_h) = monitor.usable_size();
    let usable_w = f32::from_bits(usable_w.bits);
    let usable_h = f32::from_bits(usable_h.bits);
    let (width, height) = picker_size_for_monitor(&monitor);
    let (width, height) = (width as f32, height as f32);
    assert!(usable_h < 650.0, "logical usable height is {usable_h}");
    assert!(width <= usable_w - PICKER_MARGIN);
    assert!(height <= usable_h - PICKER_MARGIN);
    assert!(height <= PICKER_MAX_H);
    assert!(height < usable_h);
    assert_eq!(picker_window_size(Some(&monitor)), picker_size_for_monitor(&monitor));
}

#[test]
fn presets_preserve_network_cursor_and_custom_cli_values() {
    let mut config = LiveConfig {
        port: 4321,
        cursor: true,
        bind: Address::V4(0x7f00_0001),
        ..LiveConfig::default()
    };
    assert_eq!(
        StreamPreset::matching(&config),
        Some(StreamPreset::Balanced)
    );
    for preset in [
        StreamPreset::Balanced,
        StreamPreset::Text,
        StreamPreset::Motion,
    ] {
        preset.apply(&mut config);
        config.validate().unwrap();
        assert_eq!(StreamPreset::matching(&config), Some(preset));
        assert_eq!(config.port, 4321);
        assert!(config.cursor && config.bind.is_loopback());
        assert_eq!(
            config.h264_bitrate,
            LiveConfig::default_h264_bitrate(config.fps)
        );
    }
    config.h264_bitrate = 8_000_000;
    StreamPreset::Motion.apply(&mut config);
    assert_eq!(config.h264_bitrate, 8_000_000);
    config.fps = 24;
    assert_eq!(StreamPreset::matching(&config), None);
    assert_eq!(config.fps, 24);
}

#[test]
fn crisp_text_selects_native_pixels_and_other_presets_restore_logical_pixels() {
    let mut config = LiveConfig::default();
    StreamPreset::Text.apply(&mut config);
    assert_eq!(config.pixel_mode, PixelMode::Native);
    assert_eq!(config.quality, 90);
    assert_eq!(config.max_width, None);
    config.pixel_mode = PixelMode::Logical;
    assert_eq!(StreamPreset::matching(&config), None);
    for preset in [StreamPreset::Balanced, StreamPreset::Motion] {
        StreamPreset::Text.apply(&mut config);
        preset.apply(&mut config);
        assert_eq!(config.pixel_mode, PixelMode::Logical);
    }
}

#[test]
fn keeps_output_relative_regions_separate_from_layout_coordinates() {
    let target = CaptureRequest::Region(Selection::Region {
        output: "DP-2".into(),
        x: 20,
        y: 30,
        w: 100,
        h: 50,
    })
    .target()
    .unwrap();
    assert_eq!(
        target,
        CaptureTarget::Region(Region {
            output: "DP-2".into(),
            rect: Rect {
                x: 20,
                y: 30,
                width: 100,
                height: 50
            }
        })
    );
    assert!(matches!(
        CaptureRequest::Window(hypr::Rect {
            x: -1920,
            y: 30,
            w: 100,
            h: 50
        })
        .target()
        .unwrap(),
        CaptureTarget::DesktopRect(Rect { x: -1920, .. })
    ));
}

#[test]
fn preserves_true_window_capture_and_rejects_invalid_regions() {
    assert_eq!(
        CaptureRequest::Toplevel("18000026".into())
            .target()
            .unwrap(),
        CaptureTarget::Toplevel("18000026".into())
    );
    assert!(CaptureRequest::Region(Selection::Screen {
        name: "DP-1".into()
    })
    .target()
    .is_err());
    assert!(CaptureRequest::Window(hypr::Rect {
        x: 0,
        y: 0,
        w: -1,
        h: 100
    })
    .target()
    .is_err());
}

#[test]
fn a_picked_region_is_captured_where_it_was_picked() {
    let region = Region {
        output: "DP-2".into(),
        rect: Rect {
            x: 20,
            y: 30,
            width: 100,
            height: 50,
        },
    };
    let selection = pick_region(region.clone()).unwrap();
    assert_eq!(
        CaptureRequest::Region(selection).target(),
        Ok(CaptureTarget::Region(region))
    );
    let plan = capture(
        &CaptureRequest::Output("DP-1".into()),
        CaptureAction::Copy,
    )
    .unwrap();
    assert!(plan.copy && !plan.save && !plan.share);
    assert_eq!(plan.target, CaptureTarget::Output("DP-1".into()));
}

#[test]
fn pictures_go_to_the_first_directory_that_is_set() {
    let dir = |text: &str| Some(String::from(text));
    assert_eq!(
        pictures_dir(dir("/shots"), dir("/pictures"), dir("/home/a")).unwrap(),
        "/shots"
    );
    assert_eq!(
        pictures_dir(None, dir("/pictures"), dir("/home/a")).unwrap(),
        "/pictures"
    );
    assert_eq!(
        pictures_dir(None, None, dir("/home/a")).unwrap(),
        "/home/a/Pictures"
    );
    assert_eq!(pictures_dir(None, None, None), Err(RequestError::NoHome));
    assert!(screenshot_path("/pictures", "2024-01-02_03-04-05").starts_with("/pictures/"));
}

#[test]
fn each_bad_option_has_its_error() {
    assert_eq!(parse(&["--fps"]).unwrap_err(), LiveError::MissingValue);
    assert_eq!(parse(&["--fps", "0"]).unwrap_err(), LiveError::FrameRate);
    assert_eq!(parse(&["--quality", "0"]).unwrap_err(), LiveError::Quality);
    assert_eq!(parse(&["--port", "x"]).unwrap_err(), LiveError::Port);
    assert_eq!(parse(&["--encoder", "gpu"]).unwrap_err(), LiveError::Encoder);
    assert_eq!(parse(&["--bind", "nowhere"]).unwrap_err(), LiveError::Bind);
    let args = arguments(&["--no-such-option"]);
    assert_eq!(
        Options::from_args(&args, LiveConfig::default(), false, false).unwrap_err(),
        Error::Unexpected
    );
    let both = arguments(&["--demo-picker", "--picker"]);
    assert_eq!(
        Options::from_args(&both, LiveConfig::default(), false, false).unwrap_err(),
        Error::DemoPortal
    );
}

#[test]
fn options_are_read_into_the_stream() {
    let (config, rest, fps_selected) = parse(&[
        "--fps", "30", "--webrtc", "--native-pixels", "--encoder", "software", "--bind",
        "127.0.0.1", "--port", "4321", "--cursor",
    ])
    .unwrap();
    assert!(rest.is_empty() && fps_selected);
    assert_eq!((config.fps, config.port), (30, 4321));
    assert!(config.webrtc && config.cursor && config.bind.is_loopback());
    assert_eq!(config.pixel_mode, PixelMode::Native);
    assert_eq!(config.encoder, EncoderMode::Software);
    assert_eq!(config.h264_bitrate, LiveConfig::default_h264_bitrate(30));
}

#[test]
fn bitrates_grow_with_the_frame_rate_unless_one_is_chosen() {
    assert_eq!(LiveConfig::default_h264_bitrate(15), 4_000_000);
    assert_eq!(LiveConfig::default_h264_bitrate(30), 8_000_000);
    assert_eq!(LiveConfig::default_h264_bitrate(60), 16_000_000);
    let mut config = LiveConfig::default();
    config.h264_bitrate = 7_000_000;
    config.set_fps(60);
    assert_eq!(config.h264_bitrate, 7_000_000);
}

fn options(demo: bool) -> Options {
    Options {
        picker: false,
        demo,
        allow_token: false,
        live_config: LiveConfig::default(),
        fps_selected: false,
    }
}

fn picker() -> OmaBeam {
    OmaBeam::new(options(false), Vec::new(), Ok(demo::snapshot()))
}

#[test]
fn the_picker_starts_on_the_most_recent_window_of_the_workspace() {
    let beam = picker();
    assert_eq!(beam.page, Page::Tiles);
    assert_eq!(beam.workspace_id, 2);
    assert_eq!(beam.selected_client().unwrap().class, "Editor");
    assert_eq!(beam.current_tiles(), [0, 1, 2]);
    let failed = OmaBeam::new(options(false), Vec::new(), Err("no session".into()));
    assert!(failed.snapshot.is_none() && failed.snapshot_error.is_some());
}

#[test]
fn the_selection_follows_the_arrows() {
    let mut beam = picker();
    beam.move_selection(1, 0);
    assert_eq!(beam.selected_client().unwrap().class, "Browser");
    beam.move_selection(0, 1);
    assert_eq!(beam.selected_client().unwrap().class, "Terminal");
    beam.move_selection(-1, 0);
    assert_eq!(beam.selected_client().unwrap().class, "Editor");
    beam.select_page(Page::Outputs);
    beam.select_output("DEMO-1".into());
    assert_eq!(beam.selected_monitor().unwrap().name, "DEMO-1");
}

#[test]
fn a_refresh_keeps_the_selection_while_its_window_lives() {
    let mut beam = picker();
    beam.move_selection(1, 0);
    beam.refresh_snapshot(Ok(demo::snapshot()));
    assert_eq!(beam.selected_client().unwrap().class, "Browser");
    let mut fewer = demo::snapshot();
    fewer.clients.remove(1);
    beam.refresh_snapshot(Ok(fewer));
    assert!(beam.selected_client().is_none() || beam.selected_client().unwrap().class != "Browser");
    beam.refresh_snapshot(Err("gone".into()));
    assert!(beam.snapshot_error.is_some());
}

#[test]
fn a_demonstration_shares_nothing() {
    let mut beam = OmaBeam::new(options(true), Vec::new(), Ok(demo::snapshot()));
    assert_eq!(beam.start_live(), Action::Nothing);
    assert_eq!(beam.run_capture(CaptureAction::Copy), Action::Nothing);
    assert!(!beam.busy);
}

#[test]
fn a_screenshot_of_an_area_first_asks_for_one() {
    let mut beam = picker();
    beam.select_page(Page::Region);
    assert_eq!(beam.run_capture(CaptureAction::Copy), Action::ChooseRegion);
    assert!(beam.busy);
    assert_eq!(beam.status, "Drag to select an area. Escape cancels.");
    assert!(!beam.choose_region());
    let region = Selection::Region { output: "DEMO-1".into(), x: 1, y: 2, w: 30, h: 40 };
    beam.region_chosen(Ok(region));
    assert!(!beam.busy);
    assert_eq!(beam.status, "Area selected. Check the preview before sharing.");
    assert!(matches!(
        beam.run_capture(CaptureAction::Copy),
        Action::Capture(CaptureRequest::Region(_), CaptureAction::Copy)
    ));
    assert_eq!(beam.status, "Capturing and copying…");
    assert_eq!(
        beam.capture_finished(CaptureAction::Copy, Ok(None)).as_deref(),
        Some("Screenshot copied to the clipboard.")
    );
}

#[test]
fn extending_runs_at_sixty_frames_unless_a_rate_was_chosen() {
    let mut beam = picker();
    beam.select_page(Page::Extend);
    assert_eq!(beam.stream.config.fps, 60);
    assert!(matches!(beam.live_source(), Some(LiveSource::Extend(_))));
    let mut chosen = picker();
    chosen.stream.choose_fps(0);
    let fps = chosen.stream.config.fps;
    chosen.select_page(Page::Extend);
    assert_eq!(chosen.stream.config.fps, fps);
}

#[test]
fn cycling_goes_round_the_sources() {
    let mut beam = picker();
    let mut seen = Vec::new();
    for _ in 0..4 {
        seen.push(beam.page);
        beam.cycle_page(1);
    }
    assert_eq!(
        seen,
        [Page::Tiles, Page::Outputs, Page::Region, Page::Extend]
    );
    assert_eq!(beam.page, Page::Tiles);
    beam.cycle_page(-1);
    assert_eq!(beam.page, Page::Extend);
}

#[test]
fn a_preview_of_the_selection_is_wanted_shown_and_then_shared() {
    let mut beam = picker();
    let key = beam.desired_preview_key().unwrap();
    assert!(!beam.can_confirm());
    let tick = |previews: Vec<PreviewResult>| Tick {
        desired: Some(key.clone()),
        refusal: None,
        previews,
        stopped: false,
        thumbnails: Vec::new(),
        thumbnails_stopped: false,
        alive: Vec::new(),
    };
    beam.previews.update_previews(&tick(Vec::new()));
    assert!(beam.previews.preview_job(1_000_000));
    beam.previews.preview_offered(Handed::Taken, 1_000_000);
    assert!(!beam.previews.preview_job(9_000_000), "one job at a time");
    let shot = Shot {
        image: 5,
        width: 320,
        height: 180,
    };
    let mut stale = key.clone();
    stale.quality = 1;
    beam.previews.update_previews(&tick(vec![PreviewResult {
        key: Some(stale),
        frame: Ok(Some(shot)),
    }]));
    assert_eq!(beam.previews.frame, None, "a stale picture");
    beam.previews.update_previews(&tick(vec![PreviewResult {
        key: Some(key.clone()),
        frame: Ok(Some(shot)),
    }]));
    assert_eq!(beam.previews.frame, Some(shot));
    assert!(beam.can_confirm());
    assert_eq!(beam.render_preview().image, Some(5));
    assert!(matches!(beam.start_live(), Action::Share(_)));
    assert!(beam.busy);
    assert_eq!(beam.start_live(), Action::Nothing, "busy");
}

#[test]
fn what_is_shown_says_what_is_selected() {
    let mut beam = picker();
    let pane = beam.render();
    assert_eq!(pane.tabs.len(), 4);
    assert!(pane.tabs[0].checked && !pane.tabs[1].checked);
    let rows = beam.render_tiles();
    assert_eq!(rows.len(), 3);
    assert!(rows[0].selected && !rows[1].selected);
    assert!(!beam.render_footer().primary.is_empty());
    beam.select_page(Page::Outputs);
    assert_eq!(beam.render_outputs().len(), 1);
    assert_eq!(beam.occupied_workspaces().len(), 1);
    let client = &demo::snapshot().clients[0];
    assert!(request_for_client(client).is_ok());
    assert_eq!(
        request_for_monitor(&demo::snapshot().monitors[0]),
        CaptureRequest::Output("DEMO-1".into())
    );
}

#[test]
fn keys_stand_for_commands() {
    assert_eq!(picker_command("enter"), Some(Command::Confirm));
    assert_eq!(picker_command("escape"), Some(Command::Cancel));
    assert_eq!(picker_command("no-such-key"), None);
    assert_eq!(send_command("escape", true), Some(Command::Cancel));
    let mut beam = picker();
    assert!(matches!(
        beam.perform(Command::MoveRight, false),
        Performed::Moved(_)
    ));
    assert_eq!(beam.selected_client().unwrap().class, "Browser");
    assert_eq!(beam.perform(Command::ToggleHelp, false), Performed::Shown);
    assert!(beam.show_help);
}

#[test]
fn texts_are_cut_between_characters() {
    assert_eq!(truncate("short", 9), "short");
    assert_eq!(truncate("ééééé", 3).chars().count(), 3);
    assert!(truncate("ééééé", 3).ends_with('…'));
}

#[test]
fn stream_settings_show_what_is_chosen() {
    let mut stream = Stream {
        config: LiveConfig::default(),
        fps_selected: false,
    };
    stream.choose_preset(1);
    assert_eq!(
        StreamPreset::matching(&stream.config),
        Some(StreamPreset::Text)
    );
    let view = render_stream_settings(&stream.config, false, true);
    assert_eq!(view.preset.label, StreamPreset::Text.label());
    assert!(view.advanced.is_some());
    assert!(render_stream_settings(&stream.config, true, false)
        .preset
        .disabled);
    stream.choose_cursor(true, true);
    assert!(!stream.config.cursor, "busy");
    stream.choose_cursor(true, false);
    assert!(stream.config.cursor);
}

#[test]
fn offered_jobs_leave_their_workers_running_or_stopped() {
    let mut beam = picker();
    let previews = &mut beam.previews;
    assert!(!previews.preview_offered(Handed::Full, 5));
    assert!(previews.preview.running && previews.preview.last.is_none());
    assert!(!previews.preview_offered(Handed::Taken, 6));
    assert!(previews.preview.running && previews.preview.last.is_some());
    assert!(previews.preview_offered(Handed::Disconnected, 7));
    assert!(!previews.preview.running && previews.preview.last.is_none());

    previews.thumbnail_offered("one".into(), Handed::Taken, 8);
    assert!(previews.thumbnail.running);
    assert_eq!(previews.thumbnail.last.as_deref(), Some("one"));
    previews.thumbnail_offered("two".into(), Handed::Full, 9);
    previews.thumbnail_offered("two".into(), Handed::Failed("no thread".into()), 10);
    assert!(previews.thumbnail.running);
    assert_eq!(previews.thumbnail.last.as_deref(), Some("one"));
    assert_eq!(previews.thumbnail.outstanding, 1);
    previews.thumbnail_offered("two".into(), Handed::Disconnected, 11);
    assert!(!previews.thumbnail.running);
    assert_eq!(previews.thumbnail.last, None);
    assert_eq!(previews.thumbnail.outstanding, 0);
}
