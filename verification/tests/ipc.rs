use omabeam::ipc::{
    command_reply, socket_path, Error, Exchange, Ipc, Teardown, IO_TIMEOUT, MAX_REPLY_BYTES,
    TEARDOWN_BUDGET,
};

const MILLIS: u64 = 1_000;
const NOW: u64 = 1_000_000_000;

fn at(path: &str) -> Ipc {
    Ipc {
        path: path.as_bytes().to_vec(),
        deadline: None,
    }
}

/// Plays the compositor: takes the request in pieces of `step` bytes, compares
/// it and answers.
fn answer(
    mut exchange: Exchange,
    expected: &str,
    step: usize,
    reply: &[u8],
) -> Result<String, Error> {
    let mut request = Vec::new();
    while !exchange.is_sent() {
        let n = exchange.pending().len().min(step);
        request.extend_from_slice(&exchange.pending()[..n]);
        exchange.wrote(n)?;
    }
    assert_eq!(request, expected.as_bytes());
    for part in reply.chunks(4093) {
        exchange.read(part)?;
    }
    exchange.finish()
}

fn run(ipc: &Ipc, command: &str, reply: &[u8]) -> Result<(), Error> {
    let exchange = ipc.command(command, None, NOW)?;
    let reply = answer(exchange, &format!("/{command}"), 7, reply)?;
    command_reply(command, &reply)
}

#[test]
fn resolves_the_session_socket_and_default_runtime() {
    let signature = Some(b"commit_123_456".as_slice());
    assert_eq!(
        socket_path(signature, Some(b"/run/custom"), 1000).unwrap(),
        b"/run/custom/hypr/commit_123_456/.socket.sock"
    );
    for runtime in [None, Some(b"".as_slice())] {
        assert_eq!(
            socket_path(signature, runtime, 1000).unwrap(),
            b"/run/user/1000/hypr/commit_123_456/.socket.sock"
        );
    }
    for signature in [None, Some(b"".as_slice())] {
        assert!(socket_path(signature, None, 1000)
            .unwrap_err()
            .message()
            .contains("Hyprland session"));
    }
    for invalid in [".", "..", "/absolute", "../other", "a/b", "a\0b"] {
        assert!(socket_path(Some(invalid.as_bytes()), None, 1000).is_err());
    }
    assert!(socket_path(signature, Some(b"relative"), 1000).is_err());
}

#[test]
fn sends_json_queries_and_lua_dispatch_without_shell_quoting() {
    let ipc = at("/tmp/socket");
    let exchange = ipc.query("clients", None, NOW).unwrap();
    assert_eq!(answer(exchange, "j/clients", 3, b"[]").unwrap(), "[]");

    let command = r#"dispatch hl.dsp.window.move({ workspace = "special:omabeam", follow = false, window = "address:0xabc" })"#;
    run(&ipc, command, b"ok\n").unwrap();
    run(&ipc, "reload", b"ok").unwrap();
}

#[test]
fn rejects_compositor_errors_and_invalid_replies() {
    let ipc = at("/tmp/socket");
    for reply in [
        b"error: 2 Lua dispatch failed".as_slice(),
        b"unknown request",
        b"",
        b"\xff",
    ] {
        assert!(run(&ipc, "reload", reply).is_err());
    }
    let exchange = ipc.query("monitors", None, NOW).unwrap();
    let error = answer(exchange, "j/monitors", 99, b"error: compositor unavailable").unwrap_err();
    assert!(error.message().contains("compositor unavailable"));
}

#[test]
fn reads_large_fragmented_replies_until_eof() {
    let expected = format!(r#"[{{"title":"{}"}}]"#, "Tile 🦀 ".repeat(10_000));
    let exchange = Exchange::new("j/clients", NOW, IO_TIMEOUT);
    assert_eq!(
        answer(exchange, "j/clients", 9, expected.as_bytes()).unwrap(),
        expected
    );
}

#[test]
fn bounds_reply_size() {
    let exchange = Exchange::new("j/clients", NOW, IO_TIMEOUT);
    let long = vec![b'x'; MAX_REPLY_BYTES + 1];
    let error = answer(exchange, "j/clients", 9, &long).unwrap_err();
    assert!(error.message().contains("exceeds"));
}

#[test]
fn times_out_instead_of_accepting_an_unfinished_reply() {
    let mut exchange = Exchange::new("j/clients", NOW, 40 * MILLIS);
    let n = exchange.pending().len();
    exchange.wrote(n).unwrap();
    exchange.read(b"[").unwrap();
    assert_eq!(exchange.wait(NOW), Ok(40 * MILLIS));
    assert_eq!(exchange.wait(NOW + 39 * MILLIS), Ok(MILLIS));
    let error = exchange.wait(NOW + 40 * MILLIS).unwrap_err();
    assert!(error.message().contains("timed out"));
}

#[test]
fn an_armed_budget_ends_a_stalled_request_within_it() {
    // The stop signal's teardown budget, then recovery's own budget.
    for recovery in [false, true] {
        let mut ipc = at("/tmp/socket");
        let deadline = NOW + 300 * MILLIS;
        let exchange = if recovery {
            ipc.deadline = Some(deadline);
            ipc.query("monitors", None, NOW).unwrap()
        } else {
            ipc.request("j/monitors", Some(deadline), NOW).unwrap()
        };
        assert_eq!(exchange.pending(), b"j/monitors");
        // Nothing ever answers.
        assert_eq!(exchange.wait(NOW), Ok(300 * MILLIS), "recovery {recovery}");
        let error = exchange.wait(deadline).unwrap_err();
        assert!(error.message().contains("timed out"));
    }
}

#[test]
fn a_spent_budget_fails_before_connecting() {
    let mut ipc = at("/tmp/socket");
    for (own, teardown) in [(Some(NOW), None), (None, Some(NOW))] {
        ipc.deadline = own;
        let error = ipc.request("j/monitors", teardown, NOW).unwrap_err();
        assert!(error.message().contains("time limit"));
    }
}

#[test]
fn unarmed_requests_keep_the_normal_timeout() {
    let mut ipc = at("/unused");
    assert_eq!(IO_TIMEOUT, 5_000 * MILLIS);
    assert_eq!(ipc.timeout(None, NOW).unwrap(), IO_TIMEOUT);
    // Armed: the smaller of the usual timeout and what is left.
    let far = NOW + 60_000 * MILLIS;
    let near = NOW + 300 * MILLIS;
    assert_eq!(ipc.timeout(Some(far), NOW).unwrap(), IO_TIMEOUT);
    let short = 300 * MILLIS;
    assert_eq!(ipc.timeout(Some(near), NOW).unwrap(), short);
    ipc.deadline = Some(far);
    assert_eq!(ipc.timeout(Some(near), NOW).unwrap(), short);
    ipc.deadline = Some(near);
    assert_eq!(ipc.timeout(Some(far), NOW).unwrap(), short);
}

#[test]
fn recovery_has_its_own_total_budget() {
    let ipc = Ipc::for_instance("commit_123_456", None, 1000, NOW).unwrap();
    let deadline = ipc.deadline.expect("recovery bounds all of its requests");
    assert_eq!(deadline, NOW + TEARDOWN_BUDGET);
    let ordinary = Ipc::from_env(Some(b"commit_123_456"), None, 1000).unwrap();
    assert_eq!(ordinary.deadline, None);
    assert_eq!(ordinary.path, ipc.path);
}

#[test]
fn a_teardown_is_armed_once() {
    let mut teardown = Teardown::new();
    assert_eq!(teardown.deadline, None);
    teardown.arm(NOW, TEARDOWN_BUDGET);
    teardown.arm(NOW + 1, TEARDOWN_BUDGET);
    assert_eq!(teardown.deadline, Some(NOW + TEARDOWN_BUDGET));
}

#[test]
fn each_failure_of_a_request_has_its_error() {
    assert_eq!(socket_path(None, None, 0), Err(Error::NoSession));
    assert_eq!(socket_path(Some(b"a/b"), None, 0), Err(Error::InvalidSession));
    assert_eq!(
        socket_path(Some(b"a"), Some(b"relative"), 0),
        Err(Error::RelativeRuntime)
    );
    let mut exchange = Exchange::new("j/clients", NOW, IO_TIMEOUT);
    assert_eq!(exchange.wrote(0), Err(Error::ClosedWhileWriting));
    let exchange = Exchange::new("", NOW, IO_TIMEOUT);
    assert_eq!(exchange.finish(), Err(Error::EmptyReply));
    let mut exchange = Exchange::new("", NOW, IO_TIMEOUT);
    exchange.read(b"\xff\xfe").unwrap();
    assert_eq!(exchange.finish(), Err(Error::NotUtf8));
    assert_eq!(
        command_reply("reload", "no"),
        Err(Error::Refused {
            command: "reload".into(),
            reply: "no".into()
        })
    );
}
