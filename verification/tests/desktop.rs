use omabeam::desktop::{
    extra_command, output_name_is_safe, pin_command, pin_outputs, recover,
    DesktopConfig, Error, OwnedDisplay, Position, VirtualDisplay,
};
use omabeam::extend::{render_desktop_preview, render_desktop_settings, size_label};
use omabeam::hypr::{Monitor, Workspace};
use omabeam::single::Single;

const TOKEN: &str = "0123456789abcdef0123456789abcdef";

fn single(value: f32) -> Single {
    Single {
        bits: value.to_bits(),
    }
}

fn monitor(x: i32, y: i32, width: u32, height: u32, scale: f32, transform: u32) -> Monitor {
    Monitor {
        id: 0,
        name: "physical".into(),
        description: String::new(),
        width,
        height,
        x,
        y,
        scale: single(scale),
        refresh_rate: single(60.0),
        transform,
        focused: true,
        reserved: [0; 4],
        active_workspace: Workspace {
            id: 1,
            name: "1".into(),
        },
        special_workspace: Workspace {
            id: 0,
            name: String::new(),
        },
    }
}

#[test]
fn placement_attaches_to_outer_edge_without_overlapping_scaled_or_rotated_displays() {
    let monitors = vec![
        monitor(-1920, 100, 1920, 1080, 1., 0),
        monitor(0, 0, 3840, 2160, 2., 1),
    ];
    let mut config = DesktopConfig {
        width: 2560,
        height: 1440,
        scale: 2,
        position: Position::Right,
    };
    for (side, expected) in [
        (Position::Right, (1080, 0)),
        (Position::Left, (-3200, 100)),
        (Position::Above, (0, -720)),
        (Position::Below, (0, 1920)),
    ] {
        config.position = side;
        assert_eq!(config.placement(&monitors).unwrap(), expected);
    }
    assert!(config.placement(&[]).is_err());
}

#[test]
fn pin_command_freezes_auto_monitors_at_their_current_layout_coordinates() {
    let physical = monitor(-1920, 100, 1920, 1080, 1.25, 1);
    assert_eq!(
        pin_command(&physical).unwrap(),
        r#"eval hl.monitor({ output = "physical", mode = "1920x1080@60", position = "-1920x100", scale = 1.25, transform = 1 })"#
    );
    let mut bad = physical;
    bad.name = "DP-1; output remove DP-1".into();
    assert!(pin_command(&bad).is_err());
    assert!(extra_command(
        "OMABEAM-0123456789abcdef0123456789abcdef",
        &DesktopConfig::default(),
        1920,
        0
    )
    .is_ok());
    assert!(extra_command("DP-1;evil", &DesktopConfig::default(), 0, 0).is_err());
}

#[test]
fn invalid_and_oversized_modes_never_reach_the_compositor() {
    for args in [
        ["1920", "1080", "0", "right"],
        ["1920", "1080", "3", "right"],
        ["0", "1080", "1", "right"],
        ["3840", "3840", "1", "right"],
        ["1921", "1080", "2", "right"],
        ["1920", "1080", "1", "right;exec"],
        ["-1920", "1080", "1", "right"],
    ] {
        assert!(
            DesktopConfig::from_args(&args.map(str::to_owned)).is_err(),
            "{args:?}"
        );
    }
    for args in [
        ["3840", "2160", "2", "left"],
        ["2160", "3840", "2", "above"],
    ] {
        assert!(DesktopConfig::from_args(&args.map(str::to_owned)).is_ok());
    }
}

#[test]
fn only_unambiguous_owned_names_are_recoverable() {
    for name in [
        "DP-1",
        "HEADLESS-1",
        "OMABEAM-",
        "OMABEAM-../other",
        "OMABEAM-123; output remove DP-1",
    ] {
        assert!(OwnedDisplay {
            name: name.into(),
            instance: "test".into()
        }
        .validate()
        .is_err());
    }
    assert!(OwnedDisplay {
        name: "OMABEAM-0123456789abcdef0123456789abcdef".into(),
        instance: "test".into()
    }
    .validate()
    .is_ok());
}

#[test]
fn positions_are_read_back_from_their_labels() {
    for position in [
        Position::Right,
        Position::Left,
        Position::Above,
        Position::Below,
    ] {
        assert_eq!(Position::parse(position.label()), Ok(position));
    }
    assert_eq!(Position::parse("rIGHT"), Ok(Position::Right));
    assert_eq!(Position::parse("beside"), Err(Error::Position));
}

#[test]
fn each_refusal_of_a_display_names_its_reason() {
    let read = |args: &[&str]| {
        let args: Vec<String> = args.iter().map(|arg| String::from(*arg)).collect();
        DesktopConfig::from_args(&args)
    };
    assert_eq!(read(&["1920", "1080", "1"]), Err(Error::Arguments));
    assert_eq!(read(&["wide", "1080", "1", "right"]), Err(Error::Width));
    assert_eq!(read(&["1920", "tall", "1", "right"]), Err(Error::Height));
    assert_eq!(
        read(&["1920", "1080", "one", "right"]),
        Err(Error::ScaleNumber)
    );
    assert_eq!(read(&["1920", "1080", "3", "right"]), Err(Error::Scale));
    assert_eq!(read(&["1921", "1080", "2", "right"]), Err(Error::Uneven));
    assert_eq!(read(&["0", "1080", "1", "right"]), Err(Error::Size));
    assert_eq!(
        DesktopConfig::default().placement(&[]),
        Err(Error::NoDisplay)
    );
    assert!(!output_name_is_safe(""));
    assert!(output_name_is_safe("eDP-1"));
}

#[test]
fn outputs_that_cannot_be_named_are_left_alone() {
    let mut odd = monitor(0, 0, 1920, 1080, 1., 0);
    odd.name = "two words".into();
    let pins = pin_outputs(&[monitor(0, 0, 1920, 1080, 1., 0), odd]);
    assert_eq!(pins.commands.len(), 1);
    assert_eq!(pins.names, ["physical"]);
    assert!(pins.refused);
}

#[test]
fn a_virtual_display_is_created_placed_and_removed() {
    let config = DesktopConfig::default();
    let physical = [monitor(0, 0, 1920, 1080, 1., 0)];
    let mut display =
        VirtualDisplay::create(&config, &physical, &physical, TOKEN, "session".into()).unwrap();
    assert_eq!(display.name(), format!("OMABEAM-{TOKEN}"));
    assert!(display.create_command().contains(display.name()));
    let mut made = monitor(0, 0, config.width, config.height, config.scale as f32, 0);
    made.name = display.name().into();
    let all = [monitor(0, 0, 1920, 1080, 1., 0), made.clone()];
    let setup = display
        .resize(&config, &all, all.to_vec())
        .unwrap();
    assert_eq!(setup.pins.commands.len(), 1);
    let place = setup.place.unwrap();
    assert_eq!((place.x, place.y), (1920, 0));
    // Not there yet, then too late, then there.
    assert_eq!(
        display.settled(&config, place.x, place.y, &all, 2_999_999),
        Ok(false)
    );
    assert_eq!(
        display.settled(&config, place.x, place.y, &all, 3_000_000),
        Err(Error::NotApplied)
    );
    made.x = 1920;
    let all = [monitor(0, 0, 1920, 1080, 1., 0), made];
    assert_eq!(
        display.settled(&config, place.x, place.y, &all, 3_000_000),
        Ok(true)
    );
    assert!(display.remove(&all).unwrap().unwrap().contains("remove"));
    assert_eq!(display.removed(&all), Err(Error::StillThere));
    assert_eq!(display.removed(&physical), Ok(()));
}

#[test]
fn a_name_in_use_or_a_foreign_owner_is_refused() {
    let config = DesktopConfig::default();
    let mut taken = monitor(0, 0, 1920, 1080, 1., 0);
    taken.name = format!("OMABEAM-{TOKEN}");
    let all = [taken];
    assert_eq!(
        VirtualDisplay::create(&config, &all, &all, TOKEN, "session".into()).unwrap_err(),
        Error::NameInUse
    );
    let foreign = OwnedDisplay {
        name: "DP-1".into(),
        instance: "session".into(),
    };
    assert!(recover(foreign, true).is_err());
    let owned = OwnedDisplay {
        name: format!("OMABEAM-{TOKEN}"),
        instance: "session".into(),
    };
    assert!(recover(owned.clone(), false).unwrap().is_none());
    assert!(recover(owned, true).unwrap().is_some());
}

#[test]
fn the_offered_settings_show_the_chosen_display() {
    let config = DesktopConfig::default();
    let view = render_desktop_settings(&config, false);
    assert!(view.resolution.items.iter().any(|item| item.checked));
    assert_eq!(
        view.resolution.label,
        size_label(config.width, config.height)
    );
    let layout = render_desktop_preview(&config, &[monitor(0, 0, 1920, 1080, 1., 0)]);
    assert_eq!(layout.displays.len(), 2);
}

#[test]
fn the_preview_shows_each_display_in_proportion() {
    let config = DesktopConfig {
        width: 1280,
        height: 720,
        scale: 1,
        position: Position::Right,
    };
    let layout = render_desktop_preview(&config, &[monitor(-7, 3, 1920, 1080, 1., 0)]);
    let width = 1920.0f32 + 1280.0;
    assert_eq!(layout.displays[0].rect.x, single(0.0));
    assert_eq!(layout.displays[0].rect.w, single(1920.0 / width));
    assert_eq!(layout.displays[0].rect.h, single(1.0));
    assert!(layout.displays[1].extra);
    assert_eq!(layout.displays[1].rect.x, single(1920.0 / width));
    assert_eq!(layout.displays[1].rect.w, single(1280.0 / width));
    assert_eq!(layout.displays[1].rect.h, single(720.0 / 1080.0));
}

#[test]
fn odd_rates_are_told_as_they_are() {
    let mut fast = monitor(0, 0, 1920, 1080, 1.3333334, 0);
    fast.refresh_rate = single(5000.5);
    let command = pin_command(&fast).unwrap();
    assert!(command.contains("1920x1080@5000.5"), "{command}");
    assert!(command.contains("scale = 1.3333,"), "{command}");
}
