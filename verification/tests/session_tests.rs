use std::path::PathBuf;
use wf_recorder::config::Config;
use wf_recorder::recorder::{AudioConfig, CaptureRegion, OutputFormat, OutputInfo};
use wf_recorder::session::{shows_display_picker, AppState, Message, Placement, Session, Task, Timer, Window};
use wf_recorder::theme::ThemeAccent;

fn output(name: &str, geometry: &str) -> OutputInfo {
    OutputInfo {
        name: name.to_string(),
        description: String::new(),
        geometry: Some(geometry.to_string()),
        position_label: None,
    }
}

fn config(region: CaptureRegion, output: Option<&str>) -> Config {
    Config {
        format: OutputFormat::WebM,
        region,
        audio: AudioConfig::none(),
        output: output.map(str::to_string),
        framerate: 30,
        output_dir: PathBuf::from("/tmp/videos"),
        accent: ThemeAccent::default(),
        glow: true,
    }
}

fn outputs() -> Vec<OutputInfo> {
    vec![output("DP-1", "1920x1080+0+0"), output("DP-2", "1920x1080+1920+0")]
}

#[test]
fn first_display_is_chosen_at_start() {
    let (s, changed) = Session::new(config(CaptureRegion::FullScreen, None), outputs());
    assert!(changed);
    assert_eq!(s.config.output.as_deref(), Some("DP-1"));
    assert_eq!(s.state, AppState::Settings);
    let (s, changed) = Session::new(config(CaptureRegion::FullScreen, Some("DP-2")), outputs());
    assert!(!changed);
    assert_eq!(s.config.output.as_deref(), Some("DP-2"));
    let (s, changed) = Session::new(config(CaptureRegion::FullScreen, None), vec![]);
    assert!(!changed);
    assert_eq!(s.config.output, None);
}

#[test]
fn settings_are_saved() {
    let (mut s, _) = Session::new(config(CaptureRegion::FullScreen, Some("DP-1")), outputs());
    let e = s.update(Message::FormatSelected(OutputFormat::Mkv));
    assert!(e.save_config && !e.refresh_theme);
    assert_eq!(s.config.format, OutputFormat::Mkv);
    let e = s.update(Message::ToggleRegion(false));
    assert!(e.save_config);
    assert_eq!(e.resize, Some(Window::Settings));
    assert_eq!(s.config.region, CaptureRegion::Selection);
    let e = s.update(Message::ToggleGlow);
    assert!(e.save_config && e.refresh_theme);
    assert!(!s.config.glow);
    s.update(Message::ToggleSystemAudio(true));
    s.update(Message::ToggleMicAudio(true));
    assert_eq!(s.config.audio, AudioConfig { system: true, microphone: true });
    s.update(Message::FramerateSelected(60));
    assert_eq!(s.config.framerate, 60);
    s.update(Message::AccentSelected(ThemeAccent::Pink));
    assert_eq!(s.config.accent, ThemeAccent::Pink);
    s.update(Message::OutputSelected(output("DP-2", "1x1+0+0")));
    assert_eq!(s.config.output.as_deref(), Some("DP-2"));
    s.update(Message::FolderSelected(PathBuf::from("/elsewhere")));
    assert_eq!(s.config.output_dir, PathBuf::from("/elsewhere"));
    match s.update(Message::BrowseFolder).task {
        Task::PickFolder(p) => assert_eq!(p, PathBuf::from("/elsewhere")),
        other => panic!("unexpected task {other:?}"),
    }
}

#[test]
fn full_screen_countdown_then_recording() {
    let (mut s, _) = Session::new(config(CaptureRegion::FullScreen, Some("DP-2")), outputs());
    let e = s.update(Message::StartRecording);
    assert_eq!(s.state, AppState::CompactCountdown(3));
    assert_eq!(e.resize, Some(Window::Compact));
    assert_eq!(e.move_to, Some(Placement::TopRight(Window::Compact)));
    assert!(matches!(e.task, Task::Wait));
    assert!(matches!(s.update(Message::Tick).task, Task::Wait));
    assert_eq!(s.state, AppState::CompactCountdown(2));
    assert!(matches!(s.update(Message::Tick).task, Task::Wait));
    assert_eq!(s.state, AppState::CompactCountdown(1));
    match s.update(Message::Tick).task {
        Task::StartRecorder(c) => {
            assert_eq!(c.geometry.as_deref(), Some("1920x1080+1920+0"));
            assert_eq!(c.output.as_deref(), Some("DP-2"));
            assert_eq!(c.framerate, 30);
            assert_eq!(c.format, OutputFormat::WebM);
        }
        other => panic!("unexpected task {other:?}"),
    }
    let e = s.update(Message::RecorderStarted(true));
    assert_eq!(s.state, AppState::CompactRecording);
    assert!(s.recording);
    assert_eq!(e.timer, Timer::Start);
    let e = s.update(Message::Tick);
    assert!(matches!(e.task, Task::PollRecorder));
    assert_eq!(e.timer, Timer::Update);
    let e = s.update(Message::RecorderPolled(None));
    assert!(matches!(e.task, Task::Wait));
    let e = s.update(Message::StopRecording);
    assert_eq!(s.state, AppState::Settings);
    assert!(!s.recording);
    assert!(matches!(e.task, Task::StopRecorder));
    assert_eq!(e.move_to, Some(Placement::Center(Window::Settings)));
}

#[test]
fn failed_start_returns_to_settings() {
    let (mut s, _) = Session::new(config(CaptureRegion::FullScreen, Some("DP-1")), outputs());
    s.update(Message::StartRecording);
    s.update(Message::Tick);
    s.update(Message::Tick);
    s.update(Message::Tick);
    let e = s.update(Message::RecorderStarted(false));
    assert_eq!(s.state, AppState::Settings);
    assert!(!s.recording);
    assert_eq!(e.move_to, Some(Placement::Center(Window::Settings)));
}

#[test]
fn selection_flow() {
    let (mut s, _) = Session::new(config(CaptureRegion::Selection, Some("DP-1")), outputs());
    let e = s.update(Message::StartRecording);
    assert!(matches!(e.task, Task::SelectRegion));
    assert_eq!(s.state, AppState::Settings);
    // cancelled
    let e = s.update(Message::RegionSelected(None));
    assert_eq!(s.state, AppState::Settings);
    assert!(matches!(e.task, Task::Idle));
    // spanning two displays
    let e = s.update(Message::RegionSelected(Some("1800,0 300x300".into())));
    assert_eq!(s.state, AppState::CompactError);
    assert_eq!(e.resize, Some(Window::Error));
    assert_eq!(
        s.error_text(),
        "Selected region spans multiple displays.\nPlease select within a single display."
    );
    let e = s.update(Message::DismissError);
    assert_eq!(s.state, AppState::Settings);
    assert_eq!(s.last_error, None);
    assert_eq!(e.move_to, Some(Placement::Center(Window::Settings)));
    assert_eq!(s.error_text(), "wf-recorder exited unexpectedly");
    // within one display
    s.update(Message::StartRecording);
    s.update(Message::RegionSelected(Some("10,10 100x100".into())));
    assert_eq!(s.state, AppState::CompactCountdown(3));
    s.update(Message::Tick);
    s.update(Message::Tick);
    match s.update(Message::Tick).task {
        Task::StartRecorder(c) => assert_eq!(c.geometry.as_deref(), Some("10,10 100x100")),
        other => panic!("unexpected task {other:?}"),
    }
    assert_eq!(s.pending_geometry, None);
}

#[test]
fn recorder_that_exits_shows_error() {
    let (mut s, _) = Session::new(config(CaptureRegion::FullScreen, None), outputs());
    s.update(Message::RecorderStarted(true));
    let e = s.update(Message::RecorderPolled(Some("bad".into())));
    assert_eq!(s.state, AppState::CompactError);
    assert!(!s.recording);
    assert_eq!(s.last_error.as_deref(), Some("bad"));
    assert!(matches!(e.task, Task::StopRecorder));
    assert_eq!(e.timer, Timer::Reset);
    assert_eq!(e.move_to, Some(Placement::TopRight(Window::Error)));
}

#[test]
fn idle_ticks_and_noop() {
    let (mut s, _) = Session::new(config(CaptureRegion::FullScreen, None), outputs());
    let e = s.update(Message::Tick);
    assert!(matches!(e.task, Task::Idle));
    assert!(!e.save_config);
    let e = s.update(Message::NoOp);
    assert!(matches!(e.task, Task::Idle));
    assert_eq!(s.state, AppState::Settings);
}

#[test]
fn invariant_holds_along_a_run() {
    let (mut s, _) = Session::new(config(CaptureRegion::FullScreen, Some("DP-1")), outputs());
    let messages = vec![
        Message::StartRecording,
        Message::Tick,
        Message::Tick,
        Message::Tick,
        Message::Tick,
        Message::RecorderStarted(true),
        Message::StartRecording,
        Message::Tick,
        Message::RecorderPolled(Some("gone".to_string())),
        Message::DismissError,
        Message::Tick,
    ];
    for m in messages {
        s.update(m);
        if let AppState::CompactCountdown(n) = s.state {
            assert!((1..=3).contains(&n));
        }
        if s.state == AppState::CompactRecording {
            assert!(s.recording);
        }
    }
    assert_eq!(s.state, AppState::Settings);
}

#[test]
fn display_picker_shows_for_full_screen_with_displays() {
    assert!(shows_display_picker(CaptureRegion::FullScreen, &outputs()));
    assert!(!shows_display_picker(CaptureRegion::FullScreen, &vec![]));
    assert!(!shows_display_picker(CaptureRegion::Selection, &outputs()));
}
