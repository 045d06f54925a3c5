use usbip::cli::{
    adb_stop_command, has_flag, is_white, option_value, option_values, parse_hex, parse_vid_pid, BindError,
    BindOptions, Invocation, Selection, DEFAULT_LISTEN,
};

fn args(line: &str) -> Vec<String> {
    line.split_whitespace().map(|arg| arg.to_string()).collect()
}

#[test]
fn commands() {
    for help in ["", "help", "--help", "-h bind"] {
        assert!(matches!(Invocation::parse(&args(help)), Invocation::Help));
    }
    for version in ["--version", "-V", "version"] {
        assert!(matches!(
            Invocation::parse(&args(version)),
            Invocation::Version
        ));
    }
    assert!(matches!(
        Invocation::parse(&args("bind --vid 1")),
        Invocation::Bind
    ));
    match Invocation::parse(&args("unbind")) {
        Invocation::Unknown(command) => assert_eq!(command, "unbind"),
        other => panic!("unexpected: {:?}", other),
    }
}

#[test]
fn options_take_the_next_argument() {
    let line = args("--vid 1 --pid --vid --vid 2 --vid");
    assert_eq!(option_values(&line, "--vid"), ["1", "--vid", "2"]);
    assert_eq!(option_value(&line, "--vid").unwrap(), "1");
    assert_eq!(option_value(&line, "--pid").unwrap(), "--vid");
    assert_eq!(option_value(&line, "--serial"), None);
    assert_eq!(option_value(&args("--vid"), "--vid"), None);
    assert!(option_values(&[], "--vid").is_empty());
    assert!(has_flag(&line, "--pid"));
    assert!(!has_flag(&line, "--stop-adb"));
}

#[test]
fn hexadecimal_ids() {
    assert_eq!(parse_hex("2207"), Some(0x2207));
    assert_eq!(parse_hex("0x2207"), Some(0x2207));
    assert_eq!(parse_hex("0XaBc"), Some(0xabc));
    assert_eq!(parse_hex("0x0x0X1"), Some(1));
    assert_eq!(parse_hex("0X0x1"), None);
    assert_eq!(parse_hex("+12"), Some(0x12));
    assert_eq!(parse_hex("0000ffff"), Some(0xffff));
    for bad in ["", "0x", "+", "-1", "++1", "10000", "12g", " 1", "1 ", "é"] {
        assert_eq!(parse_hex(bad), None, "{}", bad);
    }
}

#[test]
fn pairs_of_ids() {
    assert_eq!(parse_vid_pid("2207:0006"), Some((0x2207, 6)));
    assert_eq!(parse_vid_pid(" \t0x2207:0006\u{3000}\n"), Some((0x2207, 6)));
    assert_eq!(parse_vid_pid("+123:00aF"), Some((0x123, 0xaf)));
    for bad in [
        "", "2207", "2207:", ":0006", "2207:006", "02207:0006", "2207:0006:", "2207:0x06",
        "220g:0006", "2207;0006", "22é:0006",
    ] {
        assert_eq!(parse_vid_pid(bad), None, "{}", bad);
    }
}

#[test]
fn bind_reads_its_arguments() {
    let options = BindOptions::parse(&args(
        "--stop-adb --vid 2207 --vid 0x18d1 --pid 0006 --serial SN1 --device 2207:0006 \
         --allow-client 10.0.0.7 --allow-client ::2 --listen 0.0.0.0:3241",
    ))
    .unwrap();
    assert_eq!(options.serials, ["SN1"]);
    assert_eq!(options.vids, [0x2207, 0x18d1]);
    assert_eq!(options.pids, [6]);
    assert_eq!(options.vid_pids, [(0x2207, 6)]);
    assert_eq!(options.listen, "0.0.0.0:3241");
    assert_eq!(options.allow_clients, ["10.0.0.7", "::2"]);
    assert!(!options.allow_any_client);
    assert!(options.stop_adb);
}

#[test]
fn bind_listens_on_the_host_itself_by_default() {
    let options = BindOptions::parse(&args("--vid 2207 --allow-any-client")).unwrap();
    assert_eq!(options.listen, "127.0.0.1:3240");
    assert_eq!(DEFAULT_LISTEN, "127.0.0.1:3240");
    assert!(options.allow_any_client);
    assert!(!options.stop_adb);
    assert!(options.allow_clients.is_empty());
}

fn refused(line: &[String]) -> BindError {
    BindOptions::parse(line).unwrap_err()
}

#[test]
fn bind_refuses_what_makes_no_sense() {
    assert_eq!(
        refused(&args("--vid 22 --vid xyz --pid none")).message(),
        "invalid --vid: xyz"
    );
    assert_eq!(
        refused(&args("--vid 22 --pid none --device x")).message(),
        "invalid --pid: none"
    );
    assert_eq!(
        refused(&args("--device 2207")).message(),
        "invalid --device (expected VID:PID, e.g. 2207:0006): 2207"
    );
    assert_eq!(
        refused(&[]).message(),
        "at least one of --serial/--vid/--pid/--device is required"
    );
    // a blank serial number selects nothing
    let blank = ["--serial".to_string(), " \u{a0}".to_string()];
    assert!(matches!(refused(&blank), BindError::NothingSelected));
}

#[test]
fn devices_are_selected() {
    let by_id = BindOptions::parse(&args("--vid 2207 --vid 18d1 --pid 6")).unwrap();
    assert_eq!(by_id.select(0x2207, 6), Selection::Yes);
    assert_eq!(by_id.select(0x18d1, 6), Selection::Yes);
    assert_eq!(by_id.select(0x2207, 7), Selection::No);
    assert_eq!(by_id.select(1, 6), Selection::No);

    let by_pair = BindOptions::parse(&args("--device 2207:0006 --device 18d1:4ee7")).unwrap();
    assert_eq!(by_pair.select(0x2207, 6), Selection::Yes);
    assert_eq!(by_pair.select(0x18d1, 0x4ee7), Selection::Yes);
    assert_eq!(by_pair.select(0x2207, 0x4ee7), Selection::No);

    let by_serial = BindOptions::parse(&args("--serial SN1 --serial SN2 --vid 2207")).unwrap();
    assert_eq!(by_serial.select(0x2207, 9), Selection::BySerial);
    assert_eq!(by_serial.select(0x2208, 9), Selection::No);
    assert!(by_serial.selects_serial("SN2"));
    assert!(!by_serial.selects_serial("SN3"));
}

#[test]
fn adb_is_stopped_as_the_user_who_called_sudo() {
    let user = adb_stop_command(Some("alice".to_string()));
    assert_eq!(user, ["sudo", "-u", "alice", "-H", "adb", "kill-server"]);
    for nobody in [None, Some(String::new()), Some("root".to_string())] {
        assert_eq!(adb_stop_command(nobody), ["adb", "kill-server"]);
    }
}

#[test]
fn white_space_is_what_unicode_says() {
    for c in '\0'..=char::MAX {
        assert_eq!(is_white(c), c.is_whitespace(), "{:?}", c);
    }
}
