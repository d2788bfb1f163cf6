use olea_core::hci::IsoLinkQuality;
use olea_core::progress::{
    console_line, health, report, Counters, LevelTexts, Levels, Progress, RadioRow, Report,
};
use olea_core::radio::Power;

const LEVELS: Levels =
    Levels { left: Some(-123), right: Some(-120), bass: None, mid: Some(-200), treble: None };

fn texts() -> LevelTexts {
    LevelTexts {
        left: "-12 dB".into(),
        right: "-12 dB".into(),
        bass: "ticho".into(),
        mid: "-20 dB".into(),
        treble: "ticho".into(),
    }
}

fn found(le_audio: bool) -> Progress {
    Progress::DeviceFound {
        name: "Momentum 4".into(),
        address: "00:11:22:33:44:55".into(),
        rssi: -47,
        le_audio,
    }
}

#[test]
fn what_is_said_is_one_line() {
    let cases = [
        (
            Progress::AdapterReady { version: "6.0".into(), address: "A".into() },
            "adapter 6.0, A",
        ),
        (Progress::Connected { handle: 0x40 }, "connected, handle 0x0040"),
        (Progress::StreamPlanned { summary: "plan".into() }, "plan"),
        (
            Progress::BatteryAsked { reason: "timer".into() },
            "battery level requested from the headphones (timer)",
        ),
        (
            Progress::CaptureReady { device: "cable".into(), format: "48000 Hz".into() },
            "zdroj zvuku: cable - 48000 Hz",
        ),
        (Progress::Idle { after: 60 }, "silent for 60 s, transmission paused"),
        (
            Progress::Yielded,
            "the headphones requested release; this may be a multipoint handover",
        ),
        (Progress::Resumed, "audio resumed"),
        (Progress::LinkState { summary: "link".into() }, "link"),
        (
            Progress::Disconnected { reason: 0x13 },
            "peer disconnected: protejsek spojeni ukoncil (code 0x13)",
        ),
        (
            Progress::FrameRefused { total: 3 },
            "captured frame looked like noise and was silenced (3 so far)",
        ),
        (Progress::Stopped { reason: "done".into() }, "done"),
    ];
    for (progress, line) in cases {
        assert_eq!(report(&progress), Report::Line(line.into()));
    }
}

#[test]
fn what_is_counted_is_passed_on_as_numbers() {
    let counters = Counters {
        frames: 100,
        backlog: 2,
        failed: 0,
        sent: 98,
        underruns: 1,
        backpressure_frames: 3,
        rssi: Some(-60),
    };
    let quality = IsoLinkQuality {
        handle: 0x61,
        tx_unacked_packets: u32::MAX,
        tx_flushed_packets: 2,
        retransmitted_packets: 5,
        crc_error_packets: 6,
        rx_unreceived_packets: 7,
        ..IsoLinkQuality::default()
    };
    let row = RadioRow {
        handle: 0x61,
        lost: u32::MAX as u64 + 2,
        unacked: u32::MAX,
        flushed: 2,
        retransmitted: 5,
        crc_errors: 6,
        unreceived: 7,
    };
    assert_eq!(
        report(&Progress::Streaming {
            counters,
            levels: LEVELS,
            texts: texts(),
            completed: vec![97, 96],
            quality: vec![quality],
        }),
        Report::Streaming {
            counters,
            levels: LEVELS,
            completed: vec![97, 96],
            radio: vec![row]
        }
    );
    let levels = vec![80, 75];
    assert_eq!(report(&Progress::Battery { levels: levels.clone() }), Report::Battery { levels });
    let power = Power { phy: 2, current: Some(4), ..Power::default() };
    assert_eq!(report(&Progress::RadioPower(power)), Report::Power(power));
}

#[test]
fn what_the_app_hears_otherwise_is_not_repeated() {
    let read = Progress::CapabilitiesRead { summary: "48 kHz".into() };
    assert_eq!(report(&read), Report::Nothing);
    assert_eq!(report(&found(true)), Report::Nothing);
}

#[test]
fn the_console_shows_its_own_lines() {
    let cases = [
        (
            Progress::AdapterReady { version: "6.0".into(), address: "A".into() },
            "  6.0, adresa A",
        ),
        (found(true), "  LE Audio  Momentum 4                   00:11:22:33:44:55  -47 dBm"),
        (found(false), "            Momentum 4                   00:11:22:33:44:55  -47 dBm"),
        (Progress::Connected { handle: 0x40 }, "  pripojeno, handle 0x0040"),
        (
            Progress::Idle { after: 60 },
            "  silent for 60 s; transmission paused and headphones remain connected",
        ),
        (
            Progress::Disconnected { reason: 0x13 },
            "  spojeni se ztratilo: protejsek spojeni ukoncil (kod 0x13)",
        ),
        (
            Progress::FrameRefused { total: 3 },
            "  ramec vypadal jako sum a byl ztlumen (3 celkem)",
        ),
        (Progress::Battery { levels: vec![80, 75, 100] }, "  baterie: 80 %, 75 %, 100 %"),
        (Progress::Battery { levels: vec![] }, "  baterie: "),
        (Progress::BatteryAsked { reason: "timer".into() }, "  baterie: dotaz odeslan (timer)"),
        (Progress::Stopped { reason: "done".into() }, "  zastaveno: done"),
    ];
    for (progress, line) in cases {
        assert_eq!(console_line(&progress).as_deref(), Some(line));
    }
    assert_eq!(console_line(&Progress::StreamPlanned { summary: "plan".into() }), None);
    assert_eq!(health(0, 9), "vse odeslano");
    assert_eq!(health(2, 9), "SELHALO 2 z 9 prenosu");
}

#[test]
fn the_console_shows_a_stream_and_its_power() {
    let counters = Counters {
        frames: 100,
        backlog: 2,
        failed: 0,
        sent: 98,
        underruns: 1,
        backpressure_frames: 3,
        rssi: Some(-60),
    };
    let stream = |counters| Progress::Streaming {
        counters,
        levels: LEVELS,
        texts: texts(),
        completed: vec![97, 96],
        quality: vec![],
    };
    assert_eq!(
        console_line(&stream(counters)).as_deref(),
        Some(
            "  hraje: 100 ramcu, L -12 dB / R -12 dB, basy ticho / stredy -20 dB / vysky ticho, \
             vse odeslano\n    doruceno po kanalech: [97, 96]\n    signal: -60 dBm"
        )
    );
    let silent = Counters { rssi: None, failed: 1, ..counters };
    assert_eq!(
        console_line(&stream(silent)).as_deref(),
        Some(
            "  hraje: 100 ramcu, L -12 dB / R -12 dB, basy ticho / stredy -20 dB / vysky ticho, \
             SELHALO 1 z 98 prenosu\n    doruceno po kanalech: [97, 96]"
        )
    );
    let power = Power { phy: 2, min: Some(-20), current: Some(4), available: true, ..Power::default() };
    assert_eq!(console_line(&Progress::RadioPower(power)), Some(format!("Radio TX: {power:?}")));
}
