use vstd::prelude::*;

use crate::config::Config;
use crate::geometry::{multi_display_message, selection_sums_fit, selection_verdict, validate_geometry};
use crate::recorder::{
    opt_view, output_views, AudioConfig, CaptureRegion, OutputFormat, OutputInfo, RecordingConfig,
};
use crate::theme::ThemeAccent;

verus! {

/// What the application window shows.
#[derive(Debug, Clone, Copy, PartialEq, Eq, Structural)]
pub enum AppState {
    /// The settings window.
    Settings,
    /// The compact countdown before recording, with the seconds left.
    CompactCountdown(u8),
    /// The compact window while recording.
    CompactRecording,
    /// The compact error popup.
    CompactError,
}

/// What the user did, or what came back from outside work.
#[derive(Debug, Clone)]
pub enum Message {
    FormatSelected(OutputFormat),
    ToggleRegion(bool),
    ToggleSystemAudio(bool),
    ToggleMicAudio(bool),
    OutputSelected(OutputInfo),
    FramerateSelected(u32),
    AccentSelected(ThemeAccent),
    ToggleGlow,
    BrowseFolder,
    FolderSelected(std::path::PathBuf),
    StartRecording,
    /// The region that slurp returned, none when the user cancelled.
    RegionSelected(Option<String>),
    StopRecording,
    DismissError,
    /// A second has passed.
    Tick,
    /// Whether wf-recorder could be started.
    RecorderStarted(bool),
    /// Whether wf-recorder has exited, with the message to show if so.
    RecorderPolled(Option<String>),
    NoOp,
}

/// The window sizes the application switches between.
#[derive(Debug, Clone, Copy, PartialEq, Eq, Structural)]
pub enum Window {
    Settings,
    Compact,
    Error,
}

/// Where the window goes, for a window of the given size.
#[derive(Debug, Clone, Copy, PartialEq, Eq, Structural)]
pub enum Placement {
    /// The middle of the screen.
    Center(Window),
    /// The top-right corner of the screen.
    TopRight(Window),
}

/// Outside work to do after a step.
#[derive(Debug, Clone)]
pub enum Task {
    Idle,
    /// Ask for a folder, starting at the given one; answer `FolderSelected`.
    PickFolder(std::path::PathBuf),
    /// Run slurp; answer `RegionSelected`.
    SelectRegion,
    /// Wait a second; answer `Tick`.
    Wait,
    /// Start wf-recorder; answer `RecorderStarted`.
    StartRecorder(RecordingConfig),
    /// Check whether wf-recorder has exited; answer `RecorderPolled`.
    PollRecorder,
    /// Stop wf-recorder and let it go.
    StopRecorder,
}

/// What happens to the recording clock.
#[derive(Debug, Clone, Copy, PartialEq, Eq, Structural)]
pub enum Timer {
    Keep,
    /// Recording starts now.
    Start,
    /// Update the time shown.
    Update,
    /// No recording: clear it.
    Reset,
}

/// Everything a step asks of the outside world.
#[derive(Debug, Clone)]
pub struct Effect {
    pub save_config: bool,
    pub refresh_theme: bool,
    pub resize: Option<Window>,
    pub move_to: Option<Placement>,
    pub task: Task,
    pub timer: Timer,
}

/// The state of the application, as far as its decisions go.
#[derive(Debug, Clone)]
pub struct Session {
    pub state: AppState,
    pub config: Config,
    pub outputs: Vec<OutputInfo>,
    /// The region selected for the next recording.
    pub pending_geometry: Option<String>,
    pub last_error: Option<String>,
    /// A wf-recorder is running.
    pub recording: bool,
}

pub open spec fn quiet() -> Effect {
    Effect {
        save_config: false,
        refresh_theme: false,
        resize: None,
        move_to: None,
        task: Task::Idle,
        timer: Timer::Keep,
    }
}

pub open spec fn saved() -> Effect {
    Effect { save_config: true, ..quiet() }
}

pub open spec fn with_task(t: Task) -> Effect {
    Effect { task: t, ..quiet() }
}

/// The switch to the compact countdown window, with the first second.
pub open spec fn countdown() -> Effect {
    Effect {
        resize: Some(Window::Compact),
        move_to: Some(Placement::TopRight(Window::Compact)),
        task: Task::Wait,
        ..quiet()
    }
}

/// The switch to the error popup.
pub open spec fn error_popup() -> Effect {
    Effect {
        resize: Some(Window::Error),
        move_to: Some(Placement::TopRight(Window::Error)),
        ..quiet()
    }
}

pub open spec fn with_config(s: Session, c: Config) -> Session {
    Session { config: c, ..s }
}

pub open spec fn with_state(s: Session, st: AppState) -> Session {
    Session { state: st, ..s }
}

/// The geometry of the first output named `name`.
pub open spec fn named_geometry(outs: Seq<OutputInfo>, name: Seq<char>) -> Option<String>
    decreases outs.len(),
{
    if outs.len() == 0 {
        None
    } else if outs[0].name@ == name {
        outs[0].geometry
    } else {
        named_geometry(outs.drop_first(), name)
    }
}

/// The geometry of the display chosen for a full-screen recording.
pub open spec fn output_geometry(s: Session) -> Option<String> {
    match (s.config.region, s.config.output) {
        (CaptureRegion::FullScreen, Some(name)) => named_geometry(s.outputs@, name@),
        _ => None,
    }
}

/// The recording that the countdown of `s` starts: the settings of `s`, with
/// the selected region if there is one, else the geometry of the chosen
/// display.
pub open spec fn recording_config_of(s: Session) -> RecordingConfig {
    RecordingConfig {
        format: s.config.format,
        audio: s.config.audio,
        region: s.config.region,
        output: s.config.output,
        framerate: s.config.framerate,
        output_dir: s.config.output_dir,
        geometry: match s.pending_geometry {
            Some(g) => Some(g),
            None => output_geometry(s),
        },
    }
}

/// `m` may be handed to `s`: a selection is validated without `i32` overflow.
pub open spec fn acceptable(s: Session, m: Message) -> bool {
    match m {
        Message::RegionSelected(Some(g)) => selection_sums_fit(g@, output_views(s.outputs@)),
        _ => true,
    }
}

/// The step from `s` on `m` leads to `t` and asks for `e`.
pub open spec fn transition(s: Session, m: Message, t: Session, e: Effect) -> bool {
    match m {
        Message::FormatSelected(f) => t == with_config(s, Config { format: f, ..s.config }) && e
            == saved(),
        Message::ToggleRegion(full) => t == with_config(
            s,
            Config {
                region: if full {
                    CaptureRegion::FullScreen
                } else {
                    CaptureRegion::Selection
                },
                ..s.config
            },
        ) && e == Effect { resize: Some(Window::Settings), ..saved() },
        Message::ToggleSystemAudio(on) => t == with_config(
            s,
            Config { audio: AudioConfig { system: on, ..s.config.audio }, ..s.config },
        ) && e == saved(),
        Message::ToggleMicAudio(on) => t == with_config(
            s,
            Config { audio: AudioConfig { microphone: on, ..s.config.audio }, ..s.config },
        ) && e == saved(),
        Message::OutputSelected(info) => t == with_config(
            s,
            Config { output: Some(info.name), ..s.config },
        ) && e == saved(),
        Message::FramerateSelected(fps) => t == with_config(
            s,
            Config { framerate: fps, ..s.config },
        ) && e == saved(),
        Message::AccentSelected(a) => t == with_config(s, Config { accent: a, ..s.config }) && e
            == Effect { refresh_theme: true, ..saved() },
        Message::ToggleGlow => t == with_config(s, Config { glow: !s.config.glow, ..s.config })
            && e == Effect { refresh_theme: true, ..saved() },
        Message::BrowseFolder => t == s && e == with_task(Task::PickFolder(s.config.output_dir)),
        Message::FolderSelected(p) => t == with_config(s, Config { output_dir: p, ..s.config })
            && e == saved(),
        Message::StartRecording => {
            let cleared = Session { last_error: None, ..s };
            if s.config.region == CaptureRegion::Selection {
                t == cleared && e == with_task(Task::SelectRegion)
            } else {
                t == with_state(cleared, AppState::CompactCountdown(3)) && e == countdown()
            }
        },
        Message::RegionSelected(None) => t == s && e == quiet(),
        Message::RegionSelected(Some(g)) => match selection_verdict(
            g@,
            output_views(s.outputs@),
        ) {
            Some(msg) => t == Session {
                state: AppState::CompactError,
                last_error: t.last_error,
                ..s
            } && opt_view(t.last_error) == Some(msg) && e == error_popup(),
            None => t == Session {
                state: AppState::CompactCountdown(3),
                pending_geometry: Some(g),
                ..s
            } && e == countdown(),
        },
        Message::DismissError => t == Session {
            state: AppState::Settings,
            last_error: None,
            ..s
        } && e == Effect {
            resize: Some(Window::Settings),
            move_to: Some(Placement::Center(Window::Settings)),
            ..quiet()
        },
        Message::StopRecording => t == Session {
            state: AppState::Settings,
            recording: false,
            ..s
        } && e == Effect {
            move_to: Some(Placement::Center(Window::Settings)),
            task: Task::StopRecorder,
            timer: Timer::Reset,
            ..quiet()
        },
        Message::Tick => match s.state {
            AppState::CompactCountdown(n) => if n > 1 {
                t == with_state(s, AppState::CompactCountdown((n - 1) as u8)) && e == with_task(
                    Task::Wait,
                )
            } else {
                t == Session { pending_geometry: None, ..s } && e == with_task(
                    Task::StartRecorder(recording_config_of(s)),
                )
            },
            AppState::CompactRecording => t == s && e == Effect {
                task: Task::PollRecorder,
                timer: Timer::Update,
                ..quiet()
            },
            _ => t == s && e == quiet(),
        },
        Message::RecorderStarted(ok) => if ok {
            t == Session { state: AppState::CompactRecording, recording: true, ..s } && e
                == Effect { task: Task::Wait, timer: Timer::Start, ..quiet() }
        } else {
            t == with_state(s, AppState::Settings) && e == Effect {
                move_to: Some(Placement::Center(Window::Settings)),
                ..quiet()
            }
        },
        Message::RecorderPolled(None) => t == s && e == with_task(Task::Wait),
        Message::RecorderPolled(Some(err)) => t == Session {
            state: AppState::CompactError,
            recording: false,
            last_error: Some(err),
            ..s
        } && e == Effect {
            resize: Some(Window::Error),
            move_to: Some(Placement::TopRight(Window::Error)),
            task: Task::StopRecorder,
            timer: Timer::Reset,
            ..quiet()
        },
        Message::NoOp => t == s && e == quiet(),
    }
}

fn clone_opt(o: &Option<String>) -> (r: Option<String>)
    ensures
        r == *o,
{
    match o {
        Some(s) => Some(s.clone()),
        None => None,
    }
}

fn geometry_named(outs: &Vec<OutputInfo>, name: &String) -> (r: Option<String>)
    ensures
        r == named_geometry(outs@, name@),
{
    let mut i: usize = 0;
    assert(outs@.skip(0) == outs@);
    while i < outs.len()
        invariant
            i <= outs.len(),
            named_geometry(outs@, name@) == named_geometry(outs@.skip(i as int), name@),
        decreases outs.len() - i,
    {
        let ghost rest = outs@.skip(i as int);
        assert(rest[0] == outs@[i as int]);
        assert(rest.drop_first() == outs@.skip(i + 1));
        if outs[i].name == *name {
            return clone_opt(&outs[i].geometry);
        }
        i += 1;
    }
    assert(outs@.skip(outs.len() as int).len() == 0);
    None
}

fn quiet_effect() -> (e: Effect)
    ensures
        e == quiet(),
{
    Effect {
        save_config: false,
        refresh_theme: false,
        resize: None,
        move_to: None,
        task: Task::Idle,
        timer: Timer::Keep,
    }
}

/// The settings window shows the display picker: a full-screen recording,
/// with displays to pick from.
pub open spec fn shows_display_picker_of(region: CaptureRegion, outputs: Seq<OutputInfo>) -> bool {
    region == CaptureRegion::FullScreen && outputs.len() > 0
}

/// Whether the settings window shows the display picker.
pub fn shows_display_picker(region: CaptureRegion, outputs: &Vec<OutputInfo>) -> (b: bool)
    ensures
        b == shows_display_picker_of(region, outputs@),
{
    match region {
        CaptureRegion::FullScreen => outputs.len() > 0,
        CaptureRegion::Selection => false,
    }
}

/// The session a run starts with: the settings window, the stored settings
/// and the listed outputs; when no display is chosen yet, the first listed
/// one is chosen.
pub open spec fn initial_session(config: Config, outputs: Vec<OutputInfo>) -> Session {
    Session {
        state: AppState::Settings,
        config: if config.output is None && outputs@.len() > 0 {
            Config { output: Some(outputs@[0].name), ..config }
        } else {
            config
        },
        outputs,
        pending_geometry: None,
        last_error: None,
        recording: false,
    }
}

impl Session {
    /// The session a run starts with, and whether its settings changed (and
    /// must be saved).
    pub fn new(config: Config, outputs: Vec<OutputInfo>) -> (r: (Session, bool))
        ensures
            r.0 == initial_session(config, outputs),
            r.1 == (config.output is None && outputs@.len() > 0),
    {
        let mut config = config;
        let mut changed = false;
        if config.output.is_none() && outputs.len() > 0 {
            config.output = Some(outputs[0].name.clone());
            changed = true;
        }
        (
            Session {
                state: AppState::Settings,
                config,
                outputs,
                pending_geometry: None,
                last_error: None,
                recording: false,
            },
            changed,
        )
    }

    /// The message of the error popup.
    pub fn error_text(&self) -> (r: String)
        ensures
            r@ == match self.last_error {
                Some(e) => e@,
                None => "wf-recorder exited unexpectedly"@,
            },
    {
        match &self.last_error {
            Some(e) => e.clone(),
            None => String::from_str("wf-recorder exited unexpectedly"),
        }
    }

    /// Decides what a message does: the next state, and the outside work to do.
    pub fn update(&mut self, message: Message) -> (e: Effect)
        requires
            acceptable(*old(self), message),
        ensures
            transition(*old(self), message, *final(self), e),
    {
        match message {
            Message::FormatSelected(f) => {
                self.config.format = f;
                Effect { save_config: true, ..quiet_effect() }
            },
            Message::ToggleRegion(full) => {
                self.config.region = if full {
                    CaptureRegion::FullScreen
                } else {
                    CaptureRegion::Selection
                };
                Effect { save_config: true, resize: Some(Window::Settings), ..quiet_effect() }
            },
            Message::ToggleSystemAudio(on) => {
                self.config.audio.system = on;
                Effect { save_config: true, ..quiet_effect() }
            },
            Message::ToggleMicAudio(on) => {
                self.config.audio.microphone = on;
                Effect { save_config: true, ..quiet_effect() }
            },
            Message::OutputSelected(info) => {
                self.config.output = Some(info.name);
                Effect { save_config: true, ..quiet_effect() }
            },
            Message::FramerateSelected(fps) => {
                self.config.framerate = fps;
                Effect { save_config: true, ..quiet_effect() }
            },
            Message::AccentSelected(a) => {
                self.config.accent = a;
                Effect { save_config: true, refresh_theme: true, ..quiet_effect() }
            },
            Message::ToggleGlow => {
                self.config.glow = !self.config.glow;
                Effect { save_config: true, refresh_theme: true, ..quiet_effect() }
            },
            Message::BrowseFolder => {
                Effect { task: Task::PickFolder(self.config.output_dir.clone()), ..quiet_effect() }
            },
            Message::FolderSelected(p) => {
                self.config.output_dir = p;
                Effect { save_config: true, ..quiet_effect() }
            },
            Message::StartRecording => {
                self.last_error = None;
                match self.config.region {
                    CaptureRegion::Selection => Effect { task: Task::SelectRegion, ..quiet_effect() },
                    CaptureRegion::FullScreen => {
                        self.state = AppState::CompactCountdown(3);
                        Effect {
                            resize: Some(Window::Compact),
                            move_to: Some(Placement::TopRight(Window::Compact)),
                            task: Task::Wait,
                            ..quiet_effect()
                        }
                    },
                }
            },
            Message::RegionSelected(None) => quiet_effect(),
            Message::RegionSelected(Some(geometry)) => {
                match validate_geometry(geometry.as_str(), self.outputs.as_slice()) {
                    Some(err) => {
                        self.last_error = Some(err);
                        self.state = AppState::CompactError;
                        Effect {
                            resize: Some(Window::Error),
                            move_to: Some(Placement::TopRight(Window::Error)),
                            ..quiet_effect()
                        }
                    },
                    None => {
                        self.pending_geometry = Some(geometry);
                        self.state = AppState::CompactCountdown(3);
                        Effect {
                            resize: Some(Window::Compact),
                            move_to: Some(Placement::TopRight(Window::Compact)),
                            task: Task::Wait,
                            ..quiet_effect()
                        }
                    },
                }
            },
            Message::DismissError => {
                self.last_error = None;
                self.state = AppState::Settings;
                Effect {
                    resize: Some(Window::Settings),
                    move_to: Some(Placement::Center(Window::Settings)),
                    ..quiet_effect()
                }
            },
            Message::StopRecording => {
                self.recording = false;
                self.state = AppState::Settings;
                Effect {
                    move_to: Some(Placement::Center(Window::Settings)),
                    task: Task::StopRecorder,
                    timer: Timer::Reset,
                    ..quiet_effect()
                }
            },
            Message::Tick => match self.state {
                AppState::CompactCountdown(n) => {
                    if n > 1 {
                        self.state = AppState::CompactCountdown(n - 1);
                        Effect { task: Task::Wait, ..quiet_effect() }
                    } else {
                        let output_geometry = match (&self.config.region, &self.config.output) {
                            (CaptureRegion::FullScreen, Some(name)) => geometry_named(
                                &self.outputs,
                                name,
                            ),
                            _ => None,
                        };
                        let geometry = match &self.pending_geometry {
                            Some(g) => Some(g.clone()),
                            None => output_geometry,
                        };
                        let config = RecordingConfig {
                            format: self.config.format,
                            audio: self.config.audio,
                            region: self.config.region,
                            output: clone_opt(&self.config.output),
                            framerate: self.config.framerate,
                            output_dir: self.config.output_dir.clone(),
                            geometry,
                        };
                        self.pending_geometry = None;
                        Effect { task: Task::StartRecorder(config), ..quiet_effect() }
                    }
                },
                AppState::CompactRecording => {
                    Effect { task: Task::PollRecorder, timer: Timer::Update, ..quiet_effect() }
                },
                _ => quiet_effect(),
            },
            Message::RecorderStarted(ok) => {
                if ok {
                    self.state = AppState::CompactRecording;
                    self.recording = true;
                    Effect { task: Task::Wait, timer: Timer::Start, ..quiet_effect() }
                } else {
                    self.state = AppState::Settings;
                    Effect {
                        move_to: Some(Placement::Center(Window::Settings)),
                        ..quiet_effect()
                    }
                }
            },
            Message::RecorderPolled(None) => Effect { task: Task::Wait, ..quiet_effect() },
            Message::RecorderPolled(Some(err)) => {
                self.state = AppState::CompactError;
                self.recording = false;
                self.last_error = Some(err);
                Effect {
                    resize: Some(Window::Error),
                    move_to: Some(Placement::TopRight(Window::Error)),
                    task: Task::StopRecorder,
                    timer: Timer::Reset,
                    ..quiet_effect()
                }
            },
            Message::NoOp => quiet_effect(),
        }
    }
}


// ---------------------------------------------------------------------------
// Laws
// ---------------------------------------------------------------------------

/// Every step that changes the settings asks for them to be saved.
pub proof fn law_changed_settings_are_saved(s: Session, m: Message, t: Session, e: Effect)
    requires
        transition(s, m, t, e),
    ensures
        t.config != s.config ==> e.save_config,
{
}

/// No step changes the list of outputs.
pub proof fn law_steps_keep_outputs(s: Session, m: Message, t: Session, e: Effect)
    requires
        transition(s, m, t, e),
    ensures
        t.outputs == s.outputs,
{
}

/// A countdown lasts three ticks: from `CompactCountdown(3)`, the first two
/// ticks count down and wait, the third starts the recorder with the
/// session's recording configuration and clears the pending selection.
pub proof fn law_countdown_starts_recorder_on_third_tick(
    s0: Session,
    s1: Session,
    e1: Effect,
    s2: Session,
    e2: Effect,
    s3: Session,
    e3: Effect,
)
    requires
        s0.state == AppState::CompactCountdown(3),
        transition(s0, Message::Tick, s1, e1),
        transition(s1, Message::Tick, s2, e2),
        transition(s2, Message::Tick, s3, e3),
    ensures
        s1.state == AppState::CompactCountdown(2),
        e1.task == Task::Wait,
        s2.state == AppState::CompactCountdown(1),
        e2.task == Task::Wait,
        e3.task == Task::StartRecorder(recording_config_of(s0)),
        s3.pending_geometry is None,
{
    assert(recording_config_of(s2) == recording_config_of(s0));
}

/// A selection that spans several known displays is refused at once: the
/// error popup opens with the message, no countdown starts, nothing else
/// changes.
pub proof fn law_spanning_selection_is_refused(s: Session, g: String, t: Session, e: Effect)
    requires
        transition(s, Message::RegionSelected(Some(g)), t, e),
        selection_verdict(g@, output_views(s.outputs@)) is Some,
    ensures
        t.state == AppState::CompactError,
        opt_view(t.last_error) == Some(multi_display_message()),
        e.task == Task::Idle,
        t.pending_geometry == s.pending_geometry,
        t.config == s.config,
{
}

/// A selection that is not refused is what gets recorded: three ticks after
/// it, the recorder starts with exactly that geometry.
pub proof fn law_accepted_selection_is_recorded(
    s: Session,
    g: String,
    s0: Session,
    e0: Effect,
    s1: Session,
    e1: Effect,
    s2: Session,
    e2: Effect,
    s3: Session,
    e3: Effect,
)
    requires
        transition(s, Message::RegionSelected(Some(g)), s0, e0),
        selection_verdict(g@, output_views(s.outputs@)) is None,
        transition(s0, Message::Tick, s1, e1),
        transition(s1, Message::Tick, s2, e2),
        transition(s2, Message::Tick, s3, e3),
    ensures
        s0.state == AppState::CompactCountdown(3),
        e3.task matches Task::StartRecorder(c) && c.geometry == Some(g),
{
    law_countdown_starts_recorder_on_third_tick(s0, s1, e1, s2, e2, s3, e3);
}

/// Cancelling the selection (slurp returns nothing) changes nothing.
pub proof fn law_cancelled_selection_changes_nothing(s: Session, t: Session, e: Effect)
    requires
        transition(s, Message::RegionSelected(None), t, e),
    ensures
        t == s,
        e == quiet(),
{
}

/// Stopping always returns to the settings window with no recorder running,
/// and asks for the recorder to be stopped.
pub proof fn law_stop_returns_to_settings(s: Session, t: Session, e: Effect)
    requires
        transition(s, Message::StopRecording, t, e),
    ensures
        t.state == AppState::Settings,
        !t.recording,
        e.task == Task::StopRecorder,
{
}

/// A recorder runs only after it was reported started: a step that sets
/// `recording` is `RecorderStarted(true)`.
pub proof fn law_recording_needs_a_started_recorder(s: Session, m: Message, t: Session, e: Effect)
    requires
        transition(s, m, t, e),
        !s.recording,
        t.recording,
    ensures
        m matches Message::RecorderStarted(ok) && ok,
        t.state == AppState::CompactRecording,
{
}

/// What holds in every state a run reaches: a countdown shows one to three
/// seconds, and the recording window shows only while a recorder runs.
pub open spec fn session_invariant(s: Session) -> bool {
    &&& s.state matches AppState::CompactCountdown(n) ==> 1 <= n <= 3
    &&& s.state == AppState::CompactRecording ==> s.recording
}

/// Every step keeps the session invariant.
pub proof fn law_steps_keep_invariant(s: Session, m: Message, t: Session, e: Effect)
    requires
        session_invariant(s),
        transition(s, m, t, e),
    ensures
        session_invariant(t),
{
}

/// The invariant holds on every run: from the session a run starts with,
/// through any sequence of messages, each step as `update` takes it, every
/// state reached keeps it.
pub proof fn law_runs_keep_invariant(
    config: Config,
    outputs: Vec<OutputInfo>,
    states: Seq<Session>,
    messages: Seq<Message>,
    effects: Seq<Effect>,
)
    requires
        states.len() == messages.len() + 1,
        effects.len() == messages.len(),
        states[0] == initial_session(config, outputs),
        forall|i: int|
            0 <= i < messages.len() ==> transition(
                #[trigger] states[i],
                messages[i],
                states[i + 1],
                effects[i],
            ),
    ensures
        forall|i: int| 0 <= i < states.len() ==> session_invariant(#[trigger] states[i]),
{
    assert forall|i: int| 0 <= i < states.len() implies session_invariant(#[trigger] states[i]) by {
        lemma_run_prefix(states, messages, effects, i);
    }
}

/// When the countdown ends, the recorder is started with the session's
/// settings as they are: its format, audio sources, capture mode, display,
/// frame rate and folder; with the selected region when there is one, else
/// the geometry of the chosen display in full-screen mode.
pub proof fn law_started_recording_carries_settings(s: Session, n: u8, t: Session, e: Effect)
    requires
        s.state == AppState::CompactCountdown(n),
        n <= 1,
        transition(s, Message::Tick, t, e),
    ensures
        e.task matches Task::StartRecorder(c) && {
            &&& c.format == s.config.format
            &&& c.audio == s.config.audio
            &&& c.region == s.config.region
            &&& c.output == s.config.output
            &&& c.framerate == s.config.framerate
            &&& c.output_dir == s.config.output_dir
            &&& (s.pending_geometry matches Some(g) ==> c.geometry == Some(g))
            &&& (s.pending_geometry is None && s.config.region == CaptureRegion::Selection ==> c.geometry
                is None)
        },
{
}

proof fn lemma_named_geometry(outs: Seq<OutputInfo>, name: Seq<char>, i: int)
    requires
        0 <= i <= outs.len(),
        forall|j: int| 0 <= j < i ==> (#[trigger] outs[j]).name@ != name,
    ensures
        named_geometry(outs, name) == (if i < outs.len() && outs[i].name@ == name {
            outs[i].geometry
        } else {
            named_geometry(outs.skip(i), name)
        }),
    decreases i,
{
    if i > 0 {
        assert(outs.drop_first().skip(i - 1) == outs.skip(i));
        assert forall|j: int| 0 <= j < i - 1 implies (#[trigger] outs.drop_first()[j]).name@ != name by {
            assert(outs.drop_first()[j] == outs[j + 1]);
        }
        lemma_named_geometry(outs.drop_first(), name, i - 1);
        if i < outs.len() {
            assert(outs.drop_first()[i - 1] == outs[i]);
        }
    } else {
        assert(outs.skip(0) == outs);
    }
}

/// A full-screen recording with no selected region records the first listed
/// display that carries the chosen name, with that display's geometry; when
/// no listed display carries it, no geometry is given.
pub proof fn law_full_screen_records_chosen_display(s: Session, n: u8, t: Session, e: Effect, name: String)
    requires
        s.state == AppState::CompactCountdown(n),
        n <= 1,
        transition(s, Message::Tick, t, e),
        s.pending_geometry is None,
        s.config.region == CaptureRegion::FullScreen,
        s.config.output == Some(name),
    ensures
        forall|i: int|
            0 <= i < s.outputs@.len() && (#[trigger] s.outputs@[i]).name@ == name@ && (forall|j: int|
                0 <= j < i ==> s.outputs@[j].name@ != name@) ==> (e.task matches Task::StartRecorder(c)
                && c.geometry == s.outputs@[i].geometry),
        (forall|j: int| 0 <= j < s.outputs@.len() ==> (#[trigger] s.outputs@[j]).name@ != name@) ==> (
        e.task matches Task::StartRecorder(c) && c.geometry is None),
{
    let outs = s.outputs@;
    assert forall|i: int|
        0 <= i < outs.len() && (#[trigger] outs[i]).name@ == name@ && (forall|j: int|
            0 <= j < i ==> outs[j].name@ != name@) implies named_geometry(outs, name@) == outs[i].geometry by {
        lemma_named_geometry(outs, name@, i);
    }
    if forall|j: int| 0 <= j < outs.len() ==> (#[trigger] outs[j]).name@ != name@ {
        lemma_named_geometry(outs, name@, outs.len() as int);
        assert(outs.skip(outs.len() as int).len() == 0);
    }
}

proof fn lemma_run_prefix(states: Seq<Session>, messages: Seq<Message>, effects: Seq<Effect>, k: int)
    requires
        0 <= k < states.len(),
        states.len() == messages.len() + 1,
        session_invariant(states[0]),
        forall|i: int|
            0 <= i < messages.len() ==> transition(
                #[trigger] states[i],
                messages[i],
                states[i + 1],
                effects[i],
            ),
    ensures
        session_invariant(states[k]),
    decreases k,
{
    if k > 0 {
        lemma_run_prefix(states, messages, effects, k - 1);
        law_steps_keep_invariant(states[k - 1], messages[k - 1], states[k], effects[k - 1]);
    }
}

} // verus!
