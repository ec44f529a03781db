use std::path::PathBuf;
use wf_recorder::recorder::{
    audio_arg, exit_message, loopback_args, mixed_audio_arg, mixed_audio_loads, module_id,
    modules_to_unload, null_sink_args, recorder_args, recording_file_name, recording_timestamp,
    plan_audio_arg, stored_modules, AudioConfig, AudioPlan, CaptureRegion, OutputFormat, RecordingConfig,
};

fn config(region: CaptureRegion, output: Option<&str>, geometry: Option<&str>) -> RecordingConfig {
    RecordingConfig {
        format: OutputFormat::Mp4,
        audio: AudioConfig::none(),
        region,
        output: output.map(str::to_string),
        framerate: 60,
        output_dir: PathBuf::from("/tmp/videos"),
        geometry: geometry.map(str::to_string),
    }
}

#[test]
fn formats() {
    assert_eq!(OutputFormat::WebM.extension(), "webm");
    assert_eq!(OutputFormat::Mp4.extension(), "mp4");
    assert_eq!(OutputFormat::Mkv.extension(), "mkv");
    assert_eq!(OutputFormat::WebM.codec(), "libvpx");
    assert_eq!(OutputFormat::Mp4.codec(), "libx264");
    assert_eq!(OutputFormat::Mkv.codec(), "libx264");
    assert_eq!(OutputFormat::WebM.label(), "WebM");
    assert_eq!(OutputFormat::Mp4.label(), "MP4");
    assert_eq!(OutputFormat::Mkv.label(), "MKV");
    assert_eq!(CaptureRegion::FullScreen.label(), "Full Screen");
    assert_eq!(CaptureRegion::Selection.label(), "Select Region");
}

#[test]
fn audio_choices() {
    let none = AudioConfig::none();
    assert!(!none.system && !none.microphone);
    assert_eq!(none, AudioConfig::default());
    assert_eq!(none.plan(), AudioPlan::Silent);
    assert_eq!(AudioConfig { system: true, microphone: false }.plan(), AudioPlan::System);
    assert_eq!(AudioConfig { system: false, microphone: true }.plan(), AudioPlan::Microphone);
    assert_eq!(AudioConfig { system: true, microphone: true }.plan(), AudioPlan::Mixed);
    assert_eq!(audio_arg(Some("src".into())), "--audio=src");
    assert_eq!(audio_arg(None), "--audio");
    assert_eq!(mixed_audio_arg(), "--audio=wfrecorder_mix.monitor");
}

#[test]
fn pactl_arguments() {
    assert_eq!(
        null_sink_args(),
        vec![
            "load-module",
            "module-null-sink",
            "sink_name=wfrecorder_mix",
            "sink_properties=device.description=WF-Recorder-Mix"
        ]
    );
    assert_eq!(
        loopback_args("mic"),
        vec!["load-module", "module-loopback", "source=mic", "sink=wfrecorder_mix", "latency_msec=1"]
    );
    assert_eq!(module_id(" 536870913\n"), "536870913");
    let ids = vec!["3".to_string(), String::new(), "1".to_string()];
    assert_eq!(modules_to_unload(&ids), vec!["3", "1"]);
}

#[test]
fn recorder_arguments() {
    let full = config(CaptureRegion::FullScreen, Some("DP-1"), Some("1920x1080+0+0"));
    assert_eq!(
        recorder_args(&full, Some("--audio=x".into())),
        vec!["--codec", "libx264", "-r", "60", "--audio=x", "-o", "DP-1", "-g", "1920x1080+0+0"]
    );
    let region = config(CaptureRegion::Selection, Some("DP-1"), Some("10,10 100x100"));
    assert_eq!(
        recorder_args(&region, None),
        vec!["--codec", "libx264", "-r", "60", "-g", "10,10 100x100"]
    );
    let bare = config(CaptureRegion::FullScreen, None, None);
    assert_eq!(recorder_args(&bare, None), vec!["--codec", "libx264", "-r", "60"]);
}

#[test]
fn file_names() {
    assert_eq!(recording_file_name("20240102_030405", OutputFormat::Mkv), "recording_20240102_030405.mkv");
    let path = config(CaptureRegion::FullScreen, None, None).recording_path("20240102_030405");
    assert_eq!(path, PathBuf::from("/tmp/videos/recording_20240102_030405.mp4"));
}

#[test]
fn timestamps() {
    assert_eq!(recording_timestamp(2024, 1, 2, 3, 4, 5, 999_999_999), "20240102_030405");
    assert_eq!(recording_timestamp(1999, 12, 31, 23, 59, 59, 1_500_000_000), "19991231_235960");
    assert_eq!(recording_timestamp(7, 10, 20, 0, 0, 0, 0), "00071020_000000");
    assert_eq!(recording_timestamp(-5, 1, 1, 0, 0, 0, 0), "-00050101_000000");
    assert_eq!(recording_timestamp(12345, 1, 1, 0, 0, 0, 0), "+123450101_000000");
}

#[test]
fn mixed_audio_loads_and_kept_ids() {
    let loads = mixed_audio_loads("sink.monitor", "mic");
    assert_eq!(loads.len(), 3);
    assert_eq!(loads[0], null_sink_args());
    assert_eq!(loads[1], loopback_args("sink.monitor"));
    assert_eq!(loads[2], loopback_args("mic"));
    let kept = stored_modules("10".to_string(), "11".to_string(), "12".to_string());
    assert_eq!(kept, vec!["12", "11", "10"]);
    assert_eq!(modules_to_unload(&kept), vec!["12", "11", "10"]);
}

#[test]
fn exit_messages() {
    assert_eq!(exit_message("  error: bad geometry\n", false, "exit status: 1"), "error: bad geometry");
    assert_eq!(exit_message("", false, "exit status: 1"), "wf-recorder exited with code exit status: 1");
    assert_eq!(exit_message(" \n", true, "exit status: 0"), "wf-recorder stopped unexpectedly");
}

#[test]
fn mixed_audio_modules_unload_loopbacks_first() {
    // kept as [microphone loopback, system loopback, sink]
    let ids = vec!["12".to_string(), "11".to_string(), "10".to_string()];
    assert_eq!(modules_to_unload(&ids), vec!["12", "11", "10"]);
}

#[test]
fn audio_argument_per_plan() {
    let mon = Some("sink.monitor".to_string());
    let mic = Some("mic".to_string());
    assert_eq!(plan_audio_arg(AudioPlan::Silent, mon.clone(), mic.clone()), None);
    assert_eq!(plan_audio_arg(AudioPlan::System, mon.clone(), mic.clone()), Some("--audio=sink.monitor".to_string()));
    assert_eq!(plan_audio_arg(AudioPlan::System, None, mic.clone()), Some("--audio".to_string()));
    assert_eq!(plan_audio_arg(AudioPlan::Microphone, mon.clone(), mic.clone()), Some("--audio=mic".to_string()));
    assert_eq!(
        plan_audio_arg(AudioPlan::Mixed, mon, mic),
        Some("--audio=wfrecorder_mix.monitor".to_string())
    );
}
