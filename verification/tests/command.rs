use olea_core::command::{
    ends_with_preflight, favorite_in, is_dropped, media_result, media_status, needs_preflight,
    route, signals, Command, Epochs, Fields, Route, Signals,
};

fn fields(line: &str) -> Fields {
    Fields::read(line).expect("the line is an object")
}

#[test]
fn a_line_becomes_a_command() {
    assert_eq!(
        Command::read(r#"{"cmd":"connect","address":"7C:FE:62:72:B4:9A","confirmed":true}"#),
        Ok(Command::Connect { address: "7C:FE:62:72:B4:9A".into(), confirmed: true })
    );
    assert_eq!(Command::read(r#"{"cmd":"status"}"#), Ok(Command::Status));
    assert_eq!(Command::read(r#"{"cmd":"check"}"#), Ok(Command::Check));
    assert_eq!(Command::read(r#"{"cmd":"adapter"}"#), Ok(Command::Adapter { on: true }));
    assert_eq!(
        Command::read(r#"{"cmd":"adapter","on":false}"#),
        Ok(Command::Adapter { on: false })
    );
    assert_eq!(Command::read(r#"{"cmd":"scan"}"#), Ok(Command::Scan { seconds: 8 }));
    assert_eq!(
        Command::read(r#"{"cmd":"scan","seconds":0}"#),
        Ok(Command::Scan { seconds: 1 })
    );
    assert_eq!(
        Command::read(r#"{"cmd":"scan","seconds":61}"#),
        Ok(Command::Scan { seconds: 60 })
    );
    // A fraction is no whole number.
    assert_eq!(
        Command::read(r#"{"cmd":"scan","seconds":12.5}"#),
        Ok(Command::Scan { seconds: 8 })
    );
    assert_eq!(
        Command::read(r#"{"cmd":"set","key":"gain","value":"1"}"#),
        Ok(Command::Change { key: "gain".into(), value: "1".into() })
    );
    for name in ["debug", "battery", "stop"] {
        let line = format!("{{\"cmd\":\"{name}\"}}");
        assert_eq!(Command::read(&line), Ok(Command::Handled));
    }
    assert_eq!(Command::read(r#"{"cmd":"settings"}"#), Ok(Command::Settings));
    assert_eq!(Command::read(r#"{"cmd":"reset-settings"}"#), Ok(Command::ResetSettings));
    assert_eq!(Command::read(r#"{"cmd":"play"}"#), Ok(Command::Play));
    assert_eq!(Command::read(r#"{"cmd":"disconnect"}"#), Ok(Command::Disconnect));
    assert_eq!(Command::read(r#"{"cmd":"quit"}"#), Ok(Command::Quit));
    assert_eq!(
        Command::read(r#"{"cmd":"forget","address":"a"}"#),
        Ok(Command::Forget { address: "a".into() })
    );
}

#[test]
fn what_cannot_be_carried_out_says_why() {
    for (line, why) in [
        (r#"{"cmd":"connect"}"#, "address is missing"),
        (r#"{"cmd":"forget","address":7}"#, "address is missing"),
        (r#"{"cmd":"set","value":"1"}"#, "key is missing"),
        (r#"{"cmd":"set","key":"gain"}"#, "value is missing"),
        (r#"{"cmd":"dance"}"#, "unknown command 'dance'"),
        (r#"{"no":"name"}"#, "unknown command ''"),
        ("[1,2]", "unknown command ''"),
    ] {
        assert_eq!(Command::read(line), Err(why.to_string()));
    }
    let text = Command::read("{").unwrap_err();
    assert!(text.starts_with("unreadable command: "), "{text}");
    assert!(text.len() > "unreadable command: ".len());
}

#[test]
fn commands_take_effect_where_they_are_read() {
    let none = Signals {
        stop_playing: false,
        interrupt: false,
        cancel: false,
        refresh_battery: false,
    };
    let all = Signals { stop_playing: true, interrupt: true, cancel: true, refresh_battery: false };
    for name in ["stop", "quit", "disconnect"] {
        let line = format!("{{\"cmd\":\"{name}\"}}");
        assert_eq!(signals(&fields(&line), None), all);
    }
    let here = Some("a");
    assert_eq!(signals(&fields(r#"{"cmd":"forget","address":"a"}"#), here), all);
    let elsewhere = Signals { stop_playing: false, ..all };
    assert_eq!(signals(&fields(r#"{"cmd":"forget","address":"b"}"#), here), elsewhere);
    assert_eq!(signals(&fields(r#"{"cmd":"forget"}"#), None), elsewhere);
    assert_eq!(signals(&fields(r#"{"cmd":"adapter","on":false}"#), None), all);
    assert_eq!(signals(&fields(r#"{"cmd":"adapter","on":true}"#), None), elsewhere);
    let interrupted = Signals { interrupt: true, ..none };
    assert_eq!(signals(&fields(r#"{"cmd":"connect"}"#), None), interrupted);
    assert_eq!(signals(&fields(r#"{"cmd":"scan"}"#), None), interrupted);
    assert_eq!(
        signals(&fields(r#"{"cmd":"battery"}"#), None),
        Signals { refresh_battery: true, ..none }
    );
    assert_eq!(signals(&fields(r#"{"cmd":"play"}"#), None), none);
}

#[test]
fn a_connect_that_was_cancelled_is_dropped() {
    let mut epochs = Epochs { current: 0 };
    let connect = fields(r#"{"cmd":"connect","address":"a"}"#);
    let disconnect = fields(r#"{"cmd":"disconnect"}"#);
    let stamp = epochs.accept(&signals(&connect, None));
    assert!(!is_dropped(&connect, stamp, &epochs));
    epochs.accept(&signals(&disconnect, None));
    assert!(is_dropped(&connect, stamp, &epochs));
    assert!(!is_dropped(&disconnect, stamp, &epochs));
    let again = epochs.accept(&signals(&connect, None));
    assert!(!is_dropped(&connect, again, &epochs));
}

#[test]
fn some_commands_wait_for_the_check() {
    let validate = fields(r#"{"cmd":"validate-settings"}"#);
    let connect = fields(r#"{"cmd":"connect"}"#);
    let checked = fields(r#"{"cmd":"disconnect","validate":true}"#);
    let plain = fields(r#"{"cmd":"disconnect"}"#);
    assert!(needs_preflight(&validate) && needs_preflight(&connect) && needs_preflight(&checked));
    assert!(!needs_preflight(&plain));
    assert!(ends_with_preflight(&validate, true));
    assert!(!ends_with_preflight(&connect, true));
    assert!(ends_with_preflight(&connect, false));
    assert!(!ends_with_preflight(&plain, false));
}

#[test]
fn media_lines_are_brought_into_range() {
    let status = media_status(&fields(r#"{"cmd":"media-status"}"#));
    assert_eq!(status.player, "Windows");
    assert_eq!(status.title, "");
    assert_eq!((status.state, status.duration, status.position), (0, -1, 0));
    assert_eq!(status.supported, 0);
    let status = media_status(&fields(
        r#"{"player":"P","title":"T","state":9,"duration":-7,"position":-3,"supported":4294967299}"#,
    ));
    assert_eq!((status.player.as_str(), status.title.as_str()), ("P", "T"));
    assert_eq!((status.state, status.duration, status.position), (3, -1, 0));
    assert_eq!(status.supported, 3);
    let status = media_status(&fields(
        r#"{"state":2,"duration":3000000000,"position":9223372036854775807,"supported":-1}"#,
    ));
    assert_eq!((status.state, status.duration, status.position), (2, i32::MAX, i32::MAX));
    assert_eq!(status.supported, 0);
    assert_eq!(media_result(&fields(r#"{"id":18446744073709551615,"success":true}"#)), (u64::MAX, true));
    assert_eq!(media_result(&fields(r#"{"id":"4"}"#)), (0, false));
}

#[test]
fn settings_do_not_wait_for_the_worker() {
    assert_eq!(route(&fields(r#"{"cmd":"set"}"#)), Route::Change);
    assert_eq!(route(&fields(r#"{"cmd":"settings"}"#)), Route::Settings);
    assert_eq!(route(&fields(r#"{"cmd":"media-status"}"#)), Route::MediaStatus);
    assert_eq!(route(&fields(r#"{"cmd":"media-result"}"#)), Route::MediaResult);
    assert_eq!(route(&fields(r#"{"cmd":"play"}"#)), Route::Worker);
}

#[test]
fn favourites_are_read_from_the_saved_list() {
    let saved = r#"["7C:FE:62:72:B4:9A", "AA:BB:CC:DD:EE:FF"]"#;
    assert!(favorite_in(saved, "aa:bb:cc:dd:ee:ff"));
    assert!(!favorite_in(saved, "11:22:33:44:55:66"));
    assert!(!favorite_in("[1]", "1"));
    assert!(!favorite_in("", "1"));
}
