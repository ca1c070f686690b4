use omabeam::send::{
    app_id, avatar_color, device_initials, open_send_link, outcome, Device, Send, SendPhase,
    SendResult, Tone,
};

#[test]
fn initials_use_the_visible_name() {
    assert_eq!(device_initials("Kitchen PC"), "KP");
    assert_eq!(device_initials("pixel"), "P");
    assert_eq!(device_initials("   "), "TS");
}

fn rejected(pin_sent: bool) -> SendResult {
    SendResult::PinRejected {
        alias: "Kitchen".into(),
        pin_sent,
    }
}

#[test]
fn a_pin_request_asks_for_the_pin_instead_of_failing() {
    let (phase, hint) = outcome("kitchen-id", "Kitchen", rejected(false));
    assert_eq!(
        phase,
        SendPhase::NeedsPin {
            fingerprint: "kitchen-id".into(),
            alias: "Kitchen".into(),
            incorrect: false,
        }
    );
    assert_eq!(hint, "Kitchen requires a PIN. Enter it to send the link.");
    assert!(phase.asks_pin_for("kitchen-id"));
    assert!(!phase.asks_pin_for("other-id"));

    let (phase, hint) = outcome("kitchen-id", "Kitchen", rejected(true));
    assert_eq!(
        phase,
        SendPhase::NeedsPin {
            fingerprint: "kitchen-id".into(),
            alias: "Kitchen".into(),
            incorrect: true,
        }
    );
    assert_eq!(hint, "Incorrect PIN for Kitchen. Try again.");
}

#[test]
fn other_results_end_the_send() {
    let (phase, hint) = outcome("kitchen-id", "Kitchen", SendResult::Sent);
    assert_eq!(
        phase,
        SendPhase::Sent {
            alias: "Kitchen".into()
        }
    );
    assert_eq!(
        hint,
        "Sent to Kitchen. They can open the link in a browser."
    );
    assert!(!phase.asks_pin_for("kitchen-id"));

    let (phase, hint) = outcome(
        "kitchen-id",
        "Kitchen",
        SendResult::Failed("Kitchen declined the transfer.".into()),
    );
    assert_eq!(
        phase,
        SendPhase::Failed {
            message: "Kitchen declined the transfer.".into()
        }
    );
    assert_eq!(hint, "Kitchen declined the transfer.");
}

#[test]
fn the_window_has_a_name_of_its_own() {
    // The picker is the window whose class is "omabeam".
    assert_ne!(app_id(), "omabeam");
}

#[test]
fn letters_that_grow_when_raised_are_raised_whole() {
    assert_eq!(device_initials("straße öl"), "SÖ");
    assert_eq!(device_initials("ßeta"), "SS");
    assert_eq!(avatar_color("KP"), avatar_color("KP"));
}

fn device(fingerprint: &str, alias: &str) -> Device {
    Device {
        fingerprint: fingerprint.into(),
        alias: alias.into(),
        model: "Phone".into(),
    }
}

#[test]
fn a_link_is_sent_to_the_selected_device_and_a_pin_is_asked_for() {
    let mut link = open_send_link("http://192.0.2.1/s/abc/".into(), Some("192.0.2.1".into()));
    link.started(Ok(()));
    link.refresh_devices(
        vec![device("k", "Kitchen"), device("d", "Den")],
        "Nearby".into(),
    );
    link.move_selection(1);
    let Send::To { pin, number, .. } = link.send_to("k", "") else {
        panic!("the link is sent");
    };
    assert_eq!(pin, None);
    assert!(link.is_busy());
    assert_eq!(link.send_to("d", ""), Send::Nothing, "one send at a time");
    assert!(link.send_finished(number, "k", "Kitchen", rejected(false)));
    assert!(link.phase.asks_pin_for("k"));
    let pane = link.render("");
    assert!(pane.pin_field);
    assert_eq!(pane.tone, Tone::Warning);
    assert_eq!(link.send_to("k", ""), Send::AskPin);
    let Send::To { pin, number, .. } = link.send_to("k", "1234") else {
        panic!("the link is sent with its PIN");
    };
    assert_eq!(pin.as_deref(), Some("1234"));
    // The answer to an earlier send is ignored.
    assert!(!link.send_finished(number - 1, "k", "Kitchen", SendResult::Sent));
    assert!(!link.send_finished(number, "k", "Kitchen", SendResult::Sent));
    assert_eq!(
        link.phase,
        SendPhase::Sent {
            alias: "Kitchen".into()
        }
    );
    assert_eq!(link.render("").cards.len(), 2);
}
