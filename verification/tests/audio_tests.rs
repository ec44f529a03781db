use wf_recorder::audio::{
    default_sink_from_info, default_sink_from_output, parse_sources, pick_mic, pick_monitor,
};

const SOURCES: &str = "53\talsa_output.pci-0000_00_1f.3.analog-stereo.monitor\tPipeWire\ts32le 2ch 48000Hz\tSUSPENDED
54\talsa_input.pci-0000_00_1f.3.analog-stereo\tPipeWire\ts32le 2ch 48000Hz\tSUSPENDED
60\tbluez_input.headset\tPipeWire\ts16le 1ch 16000Hz\tRUNNING
61\t  hdmi.monitor  \tPipeWire\ts32le 2ch 48000Hz\tIDLE
no tabs here
";

#[test]
fn sources_are_split() {
    let (monitors, mics) = parse_sources(SOURCES);
    assert_eq!(
        monitors,
        vec!["alsa_output.pci-0000_00_1f.3.analog-stereo.monitor".to_string(), "hdmi.monitor".to_string()]
    );
    assert_eq!(
        mics,
        vec![
            ("bluez_input.headset".to_string(), true),
            ("alsa_input.pci-0000_00_1f.3.analog-stereo".to_string(), false),
        ]
    );
    assert_eq!(parse_sources(""), (vec![], vec![]));
}

#[test]
fn running_sources_come_first_in_order() {
    let text = "1\ta\tx\tSUSPENDED\n2\tb\tx\tRUNNING\n3\tc\tx\tIDLE\n4\td\tx\tRUNNING\n";
    let (_, mics) = parse_sources(text);
    assert_eq!(
        mics,
        vec![
            ("b".to_string(), true),
            ("d".to_string(), true),
            ("a".to_string(), false),
            ("c".to_string(), false),
        ]
    );
}

#[test]
fn running_microphone_is_preferred() {
    let (_, mics) = parse_sources(SOURCES);
    assert_eq!(pick_mic(mics), Some("bluez_input.headset".to_string()));
    assert_eq!(pick_mic(vec![("a".into(), false), ("b".into(), false)]), Some("a".to_string()));
    assert_eq!(pick_mic(vec![]), None);
}

#[test]
fn default_sink_monitor_is_preferred() {
    let monitors = vec!["a.monitor".to_string(), "b.monitor".to_string()];
    assert_eq!(pick_monitor(monitors.clone(), Some("b".into())), Some("b.monitor".to_string()));
    assert_eq!(pick_monitor(monitors.clone(), Some("c".into())), Some("a.monitor".to_string()));
    assert_eq!(pick_monitor(monitors, None), None);
    assert_eq!(pick_monitor(vec![], Some("b".into())), None);
}

#[test]
fn default_sink_is_read() {
    assert_eq!(default_sink_from_output("alsa_output.x\n"), Some("alsa_output.x".to_string()));
    assert_eq!(default_sink_from_output("  \n"), None);
    let info = "Server String: /run/user/1000/pulse/native\nDefault Sink: alsa_output.y\nDefault Source: z\n";
    assert_eq!(default_sink_from_info(info), Some("alsa_output.y".to_string()));
    assert_eq!(default_sink_from_info("Default Source: z\n"), None);
    assert_eq!(default_sink_from_info("Default Sink:\n"), Some(String::new()));
}
