use vstd::prelude::*;

use crate::layout::string_views;
use crate::captions::{pad2, push_pad2};
use crate::text::{
    all_digits, chars_of, decimal, decimal_chars, is_digit, law_decimal_reads_back, push_all, string_from,
    trim, trim_bounds,
};

verus! {

/// `std::path::PathBuf`, the type of the output folder: carried through, never
/// read.
#[verifier::external_type_specification]
#[verifier::external_body]
pub struct ExPathBuf(std::path::PathBuf);

/// `PathBuf::clone`: the copy is taken to equal the path it was made from.
pub assume_specification[ <std::path::PathBuf as Clone>::clone ](p: &std::path::PathBuf) -> (r:
    std::path::PathBuf)
    ensures
        r == *p,
;

/// Container format of a recording.
#[derive(Debug, Clone, Copy, PartialEq, Eq, Structural)]
pub enum OutputFormat {
    WebM,
    Mp4,
    Mkv,
}

/// File extension of each format.
pub open spec fn extension_of(f: OutputFormat) -> Seq<char> {
    match f {
        OutputFormat::WebM => "webm"@,
        OutputFormat::Mp4 => "mp4"@,
        OutputFormat::Mkv => "mkv"@,
    }
}

/// Video codec that wf-recorder is asked to use for each format.
pub open spec fn codec_of(f: OutputFormat) -> Seq<char> {
    match f {
        OutputFormat::WebM => "libvpx"@,
        OutputFormat::Mp4 => "libx264"@,
        OutputFormat::Mkv => "libx264"@,
    }
}

/// Name of each format as the settings window shows it.
pub open spec fn format_label_of(f: OutputFormat) -> Seq<char> {
    match f {
        OutputFormat::WebM => "WebM"@,
        OutputFormat::Mp4 => "MP4"@,
        OutputFormat::Mkv => "MKV"@,
    }
}

impl OutputFormat {
    pub fn extension(&self) -> (r: &'static str)
        ensures
            r@ == extension_of(*self),
    {
        match self {
            OutputFormat::WebM => "webm",
            OutputFormat::Mp4 => "mp4",
            OutputFormat::Mkv => "mkv",
        }
    }

    pub fn codec(&self) -> (r: &'static str)
        ensures
            r@ == codec_of(*self),
    {
        match self {
            OutputFormat::WebM => "libvpx",
            OutputFormat::Mp4 => "libx264",
            OutputFormat::Mkv => "libx264",
        }
    }

    /// The name shown for this format.
    pub fn label(&self) -> (r: String)
        ensures
            r@ == format_label_of(*self),
    {
        match self {
            OutputFormat::WebM => String::from_str("WebM"),
            OutputFormat::Mp4 => String::from_str("MP4"),
            OutputFormat::Mkv => String::from_str("MKV"),
        }
    }
}

/// Which audio sources are recorded.
#[derive(Debug, Clone, Copy, PartialEq, Eq, Structural, Default)]
pub struct AudioConfig {
    pub system: bool,
    pub microphone: bool,
}

impl AudioConfig {
    pub fn none() -> (r: Self)
        ensures
            !r.system,
            !r.microphone,
    {
        AudioConfig { system: false, microphone: false }
    }
}

/// Whether a whole display or a selected region is recorded.
#[derive(Debug, Clone, Copy, PartialEq, Eq, Structural)]
pub enum CaptureRegion {
    FullScreen,
    Selection,
}

pub open spec fn region_label_of(r: CaptureRegion) -> Seq<char> {
    match r {
        CaptureRegion::FullScreen => "Full Screen"@,
        CaptureRegion::Selection => "Select Region"@,
    }
}

impl CaptureRegion {
    /// The name shown for this capture mode.
    pub fn label(&self) -> (r: String)
        ensures
            r@ == region_label_of(*self),
    {
        match self {
            CaptureRegion::FullScreen => String::from_str("Full Screen"),
            CaptureRegion::Selection => String::from_str("Select Region"),
        }
    }
}

/// Everything one recording is started with.
#[derive(Debug, Clone)]
pub struct RecordingConfig {
    pub format: OutputFormat,
    pub audio: AudioConfig,
    pub region: CaptureRegion,
    pub output: Option<String>,
    pub framerate: u32,
    pub output_dir: std::path::PathBuf,
    pub geometry: Option<String>,
}

/// A display that wf-recorder can record.
#[derive(Debug, Clone, PartialEq)]
pub struct OutputInfo {
    pub name: String,
    pub description: String,
    /// Screen geometry in `WxH+X+Y` format, from wlr-randr.
    pub geometry: Option<String>,
    /// Human-readable position label (Left, Center, Right, Top, Bottom).
    pub position_label: Option<String>,
}

/// What an `OutputInfo` holds, as character sequences.
pub struct OutputView {
    pub name: Seq<char>,
    pub description: Seq<char>,
    pub geometry: Option<Seq<char>>,
    pub position_label: Option<Seq<char>>,
}

impl View for OutputInfo {
    type V = OutputView;

    open spec fn view(&self) -> OutputView {
        OutputView {
            name: self.name@,
            description: self.description@,
            geometry: opt_view(self.geometry),
            position_label: opt_view(self.position_label),
        }
    }
}

/// The views of a sequence of outputs.
pub open spec fn output_views(s: Seq<OutputInfo>) -> Seq<OutputView> {
    Seq::new(s.len(), |i: int| s[i]@)
}

pub open spec fn opt_view(o: Option<String>) -> Option<Seq<char>> {
    match o {
        Some(s) => Some(s@),
        None => None,
    }
}

/// How an output is named in the display list: `name — description`, then
/// ` [label]` when it has a position label.
pub open spec fn output_text(o: OutputView) -> Seq<char> {
    let head = o.name + " — "@ + o.description;
    match o.position_label {
        Some(l) => head + " ["@ + l + "]"@,
        None => head,
    }
}

impl OutputInfo {
    /// The text shown for this output in the display list.
    pub fn display_text(&self) -> (r: String)
        ensures
            r@ == output_text(self@),
    {
        let mut s = self.name.clone();
        s.append(" — ");
        s.append(self.description.as_str());
        if let Some(l) = &self.position_label {
            s.append(" [");
            s.append(l.as_str());
            s.append("]");
        }
        s
    }
}

} // verus!

verus! {

// ---------------------------------------------------------------------------
// The recording file
// ---------------------------------------------------------------------------

/// `n` in decimal, zero-padded to four digits.
pub open spec fn pad4(n: nat) -> Seq<char> {
    if n < 10 {
        "000"@ + decimal(n)
    } else if n < 100 {
        "00"@ + decimal(n)
    } else if n < 1000 {
        "0"@ + decimal(n)
    } else {
        decimal(n)
    }
}

/// A year as `%Y` writes it: four digits, zero-padded, for years 0 to 9999;
/// outside that range a sign, then at least four digits.
pub open spec fn year_text(y: int) -> Seq<char> {
    if 0 <= y <= 9999 {
        pad4(y as nat)
    } else if y < 0 {
        "-"@ + pad4((-y) as nat)
    } else {
        "+"@ + pad4(y as nat)
    }
}

/// The time stamp of a recording, `%Y%m%d_%H%M%S`: year, month, day, `_`,
/// hour, minute, second, each field but the year in two digits.
pub open spec fn timestamp_of(year: int, month: nat, day: nat, hour: nat, minute: nat, second: nat) -> Seq<char> {
    year_text(year) + pad2(month) + pad2(day) + "_"@ + pad2(hour) + pad2(minute) + pad2(second)
}

/// Fifteen characters: eight digits, `_`, six digits.
pub open spec fn timestamp_shape(t: Seq<char>) -> bool {
    &&& t.len() == 15
    &&& t[8] == '_'
    &&& forall|i: int| 0 <= i < 15 && i != 8 ==> is_digit(#[trigger] t[i])
}

proof fn lemma_decimal_len(n: nat)
    ensures
        n < 10 ==> decimal(n).len() == 1,
        10 <= n < 100 ==> decimal(n).len() == 2,
        100 <= n < 1000 ==> decimal(n).len() == 3,
        1000 <= n < 10000 ==> decimal(n).len() == 4,
    decreases n,
{
    if n >= 10 {
        lemma_decimal_len(n / 10);
    }
}

proof fn lemma_digits_concat(a: Seq<char>, b: Seq<char>)
    requires
        all_digits(a),
        all_digits(b),
    ensures
        all_digits(a + b),
{
    assert forall|i: int| 0 <= i < (a + b).len() implies is_digit(#[trigger] (a + b)[i]) by {
        if i < a.len() {
            assert((a + b)[i] == a[i]);
        } else {
            assert((a + b)[i] == b[i - a.len()]);
        }
    }
}

proof fn lemma_pad2_digits(n: nat)
    requires
        n < 100,
    ensures
        pad2(n).len() == 2,
        all_digits(pad2(n)),
{
    reveal_strlit("0");
    law_decimal_reads_back(n);
    lemma_decimal_len(n);
    if n < 10 {
        lemma_digits_concat("0"@, decimal(n));
    }
}

proof fn lemma_pad4_digits(n: nat)
    requires
        n < 10000,
    ensures
        pad4(n).len() == 4,
        all_digits(pad4(n)),
{
    reveal_strlit("0");
    reveal_strlit("00");
    reveal_strlit("000");
    law_decimal_reads_back(n);
    lemma_decimal_len(n);
    if n < 10 {
        lemma_digits_concat("000"@, decimal(n));
    } else if n < 100 {
        lemma_digits_concat("00"@, decimal(n));
    } else if n < 1000 {
        lemma_digits_concat("0"@, decimal(n));
    }
}

fn push_pad4(s: &mut String, n: u64)
    ensures
        final(s)@ == old(s)@ + pad4(n as nat),
{
    if n < 10 {
        s.append("000");
    } else if n < 100 {
        s.append("00");
    } else if n < 1000 {
        s.append("0");
    }
    let d = decimal_chars(n);
    push_all(s, &d);
}

/// The second shown for a time of `second` and `nanosecond`: a leap second
/// (a nanosecond count of a second or more) shows as the next second.
pub open spec fn shown_second(second: nat, nanosecond: nat) -> nat {
    second + nanosecond / 1_000_000_000
}

/// The time stamp in a recording's name, from the fields of the local time
/// (what chrono's `%Y%m%d_%H%M%S` writes for them). For a year from 0 to
/// 9999 and fields below 100 it is eight digits, `_`, six digits.
pub fn recording_timestamp(
    year: i32,
    month: u32,
    day: u32,
    hour: u32,
    minute: u32,
    second: u32,
    nanosecond: u32,
) -> (r: String)
    ensures
        r@ == timestamp_of(
            year as int,
            month as nat,
            day as nat,
            hour as nat,
            minute as nat,
            shown_second(second as nat, nanosecond as nat),
        ),
        0 <= year <= 9999 && month < 100 && day < 100 && hour < 100 && minute < 100
            && shown_second(second as nat, nanosecond as nat) < 100 ==> timestamp_shape(r@),
{
    let second: u64 = second as u64 + (nanosecond / 1_000_000_000) as u64;
    let mut s = String::new();
    if year < 0 {
        s.append("-");
        let a: i64 = -(year as i64);
        push_pad4(&mut s, a as u64);
    } else if year > 9999 {
        s.append("+");
        push_pad4(&mut s, year as u64);
    } else {
        push_pad4(&mut s, year as u64);
    }
    assert(s@ == year_text(year as int));
    push_pad2(&mut s, month as u64);
    push_pad2(&mut s, day as u64);
    s.append("_");
    push_pad2(&mut s, hour as u64);
    push_pad2(&mut s, minute as u64);
    push_pad2(&mut s, second);
    proof {
        if 0 <= year <= 9999 && month < 100 && day < 100 && hour < 100 && minute < 100 && second < 100 {
            reveal_strlit("_");
            lemma_pad4_digits(year as nat);
            lemma_pad2_digits(month as nat);
            lemma_pad2_digits(day as nat);
            lemma_pad2_digits(hour as nat);
            lemma_pad2_digits(minute as nat);
            lemma_pad2_digits(second as nat);
            let date = pad4(year as nat) + pad2(month as nat) + pad2(day as nat);
            let time = pad2(hour as nat) + pad2(minute as nat) + pad2(second as nat);
            lemma_digits_concat(pad4(year as nat), pad2(month as nat));
            lemma_digits_concat(pad4(year as nat) + pad2(month as nat), pad2(day as nat));
            lemma_digits_concat(pad2(hour as nat), pad2(minute as nat));
            lemma_digits_concat(pad2(hour as nat) + pad2(minute as nat), pad2(second as nat));
            let t = s@;
            assert(t == date + "_"@ + time);
            assert forall|i: int| 0 <= i < 15 && i != 8 implies is_digit(#[trigger] t[i]) by {
                if i < 8 {
                    assert(t[i] == date[i]);
                } else {
                    assert(t[i] == time[i - 9]);
                }
            }
            assert(t[8] == '_');
        }
    }
    s
}

/// The path that `Path::join` makes of `dir` and `name`.
pub uninterp spec fn joined(dir: std::path::PathBuf, name: Seq<char>) -> std::path::PathBuf;

/// `Path::join`: its result is named `joined`, a function of the folder and the
/// name; how paths combine is not spelled out.
#[verifier::external_body]
fn join_path(dir: &std::path::PathBuf, name: &str) -> (r: std::path::PathBuf)
    ensures
        r == joined(*dir, name@),
{
    dir.join(name)
}

/// `recording_<timestamp>.<extension>`.
pub open spec fn recording_file_name_of(timestamp: Seq<char>, format: OutputFormat) -> Seq<char> {
    "recording_"@ + timestamp + "."@ + extension_of(format)
}

/// The name of a recording made at `timestamp` in `format`.
pub fn recording_file_name(timestamp: &str, format: OutputFormat) -> (r: String)
    ensures
        r@ == recording_file_name_of(timestamp@, format),
{
    let mut s = String::from_str("recording_");
    s.append(timestamp);
    s.append(".");
    s.append(format.extension());
    s
}

impl RecordingConfig {
    /// Where a recording started at `timestamp` (see `recording_timestamp`)
    /// is written: the output folder joined with
    /// `recording_<timestamp>.<extension>`.
    pub fn recording_path(&self, timestamp: &str) -> (r: std::path::PathBuf)
        ensures
            r == joined(self.output_dir, recording_file_name_of(timestamp@, self.format)),
    {
        let name = recording_file_name(timestamp, self.format);
        join_path(&self.output_dir, name.as_str())
    }
}

// ---------------------------------------------------------------------------
// Arguments of wf-recorder and pactl
// ---------------------------------------------------------------------------

/// How the audio of a recording is obtained.
#[derive(Debug, Clone, Copy, PartialEq, Eq, Structural)]
pub enum AudioPlan {
    /// No audio.
    Silent,
    /// System audio: the monitor of the default sink.
    System,
    /// The microphone.
    Microphone,
    /// Both, mixed in a temporary null sink.
    Mixed,
}

pub open spec fn plan_of(a: AudioConfig) -> AudioPlan {
    if a.system && a.microphone {
        AudioPlan::Mixed
    } else if a.system {
        AudioPlan::System
    } else if a.microphone {
        AudioPlan::Microphone
    } else {
        AudioPlan::Silent
    }
}

impl AudioConfig {
    /// How audio is obtained for this choice of sources.
    pub fn plan(&self) -> (r: AudioPlan)
        ensures
            r == plan_of(*self),
    {
        match (self.system, self.microphone) {
            (false, false) => AudioPlan::Silent,
            (true, false) => AudioPlan::System,
            (false, true) => AudioPlan::Microphone,
            (true, true) => AudioPlan::Mixed,
        }
    }
}

/// The `--audio` argument for one source: `--audio=<source>`, or a bare
/// `--audio` (wf-recorder's default source) when none was found.
pub open spec fn audio_arg_of(source: Option<Seq<char>>) -> Seq<char> {
    match source {
        Some(s) => "--audio="@ + s,
        None => "--audio"@,
    }
}

pub fn audio_arg(source: Option<String>) -> (r: String)
    ensures
        r@ == audio_arg_of(opt_view(source)),
{
    match source {
        Some(s) => {
            let mut a = String::from_str("--audio=");
            a.append(s.as_str());
            a
        },
        None => String::from_str("--audio"),
    }
}

/// The `--audio` argument that records the mixing sink.
pub open spec fn mixed_audio_arg_of() -> Seq<char> {
    "--audio=wfrecorder_mix.monitor"@
}

pub fn mixed_audio_arg() -> (r: String)
    ensures
        r@ == mixed_audio_arg_of(),
{
    String::from_str("--audio=wfrecorder_mix.monitor")
}

/// The audio argument of a recording made with `plan`: none for silence;
/// for system audio the argument for the monitor source found; for the
/// microphone the argument for the microphone found; for both, the mixing
/// sink's monitor.
pub open spec fn plan_audio_arg_of(plan: AudioPlan, monitor: Option<Seq<char>>, mic: Option<Seq<char>>) -> Option<Seq<char>> {
    match plan {
        AudioPlan::Silent => None,
        AudioPlan::System => Some(audio_arg_of(monitor)),
        AudioPlan::Microphone => Some(audio_arg_of(mic)),
        AudioPlan::Mixed => Some(mixed_audio_arg_of()),
    }
}

/// The audio argument for `plan`, given the monitor source and the
/// microphone source that were found (each read only by the plan that uses
/// it).
pub fn plan_audio_arg(plan: AudioPlan, monitor: Option<String>, mic: Option<String>) -> (r: Option<String>)
    ensures
        opt_view(r) == plan_audio_arg_of(plan, opt_view(monitor), opt_view(mic)),
{
    match plan {
        AudioPlan::Silent => None,
        AudioPlan::System => Some(audio_arg(monitor)),
        AudioPlan::Microphone => Some(audio_arg(mic)),
        AudioPlan::Mixed => Some(mixed_audio_arg()),
    }
}

/// `pactl` arguments that load the mixing null sink.
pub open spec fn null_sink_args_of() -> Seq<Seq<char>> {
    seq![
        "load-module"@,
        "module-null-sink"@,
        "sink_name=wfrecorder_mix"@,
        "sink_properties=device.description=WF-Recorder-Mix"@,
    ]
}

pub fn null_sink_args() -> (r: Vec<String>)
    ensures
        string_views(r@) == null_sink_args_of(),
{
    let mut r: Vec<String> = Vec::new();
    r.push(String::from_str("load-module"));
    r.push(String::from_str("module-null-sink"));
    r.push(String::from_str("sink_name=wfrecorder_mix"));
    r.push(String::from_str("sink_properties=device.description=WF-Recorder-Mix"));
    assert(string_views(r@) == null_sink_args_of());
    r
}

/// `pactl` arguments that loop `source` back into the mixing sink.
pub open spec fn loopback_args_of(source: Seq<char>) -> Seq<Seq<char>> {
    seq!["load-module"@, "module-loopback"@, "source="@ + source, "sink=wfrecorder_mix"@, "latency_msec=1"@]
}

pub fn loopback_args(source: &str) -> (r: Vec<String>)
    ensures
        string_views(r@) == loopback_args_of(source@),
{
    let mut src = String::from_str("source=");
    src.append(source);
    let mut r: Vec<String> = Vec::new();
    r.push(String::from_str("load-module"));
    r.push(String::from_str("module-loopback"));
    r.push(src);
    r.push(String::from_str("sink=wfrecorder_mix"));
    r.push(String::from_str("latency_msec=1"));
    assert(string_views(r@) == loopback_args_of(source@));
    r
}

/// The id of a loaded module: what `pactl load-module` printed, trimmed.
pub fn module_id(stdout: &str) -> (r: String)
    ensures
        r@ == trim(stdout@),
{
    let v = chars_of(stdout);
    let n = v.len();
    assert(v@.subrange(0, n as int) == v@);
    let (a, b) = trim_bounds(&v, 0, n);
    string_from(&v, a, b)
}

/// The modules that stopping unloads: the loaded ones (the ids that are not
/// empty), in the order they are kept.
pub open spec fn modules_to_unload_of(ids: Seq<Seq<char>>) -> Seq<Seq<char>>
    decreases ids.len(),
{
    if ids.len() == 0 {
        seq![]
    } else if ids.last().len() == 0 {
        modules_to_unload_of(ids.drop_last())
    } else {
        modules_to_unload_of(ids.drop_last()).push(ids.last())
    }
}

pub fn modules_to_unload(ids: &Vec<String>) -> (r: Vec<String>)
    ensures
        string_views(r@) == modules_to_unload_of(string_views(ids@)),
{
    let mut r: Vec<String> = Vec::new();
    let mut i: usize = 0;
    assert(string_views(ids@).take(0) == Seq::<Seq<char>>::empty());
    assert(string_views(r@) == Seq::<Seq<char>>::empty());
    while i < ids.len()
        invariant
            i <= ids.len(),
            string_views(r@) == modules_to_unload_of(string_views(ids@).take(i as int)),
        decreases ids.len() - i,
    {
        assert(string_views(ids@).take(i + 1).drop_last() == string_views(ids@).take(i as int));
        assert(string_views(ids@).take(i + 1).last() == ids@[i as int]@);
        if !ids[i].as_str().is_empty() {
            let ghost old_r = r@;
            r.push(ids[i].clone());
            assert(string_views(r@) == string_views(old_r).push(ids@[i as int]@));
        }
        i += 1;
    }
    assert(string_views(ids@).take(ids.len() as int) == string_views(ids@));
    r
}

/// The wf-recorder arguments that follow `-f <file>`: codec, frame rate, the
/// audio argument if any, `-o <output>` for a full-screen recording of a
/// chosen output, `-g <geometry>` when a geometry is set.
pub open spec fn recorder_args_of(c: RecordingConfig, audio: Option<Seq<char>>) -> Seq<Seq<char>> {
    let base = seq!["--codec"@, codec_of(c.format), "-r"@, decimal(c.framerate as nat)];
    let with_audio = match audio {
        Some(a) => base.push(a),
        None => base,
    };
    let with_output = match (c.region, c.output) {
        (CaptureRegion::FullScreen, Some(o)) => with_audio.push("-o"@).push(o@),
        _ => with_audio,
    };
    match c.geometry {
        Some(g) => with_output.push("-g"@).push(g@),
        None => with_output,
    }
}

pub fn recorder_args(config: &RecordingConfig, audio: Option<String>) -> (r: Vec<String>)
    ensures
        string_views(r@) == recorder_args_of(*config, opt_view(audio)),
{
    let mut r: Vec<String> = Vec::new();
    r.push(String::from_str("--codec"));
    r.push(String::from_str(config.format.codec()));
    r.push(String::from_str("-r"));
    let digits = decimal_chars(config.framerate as u64);
    let mut rate = String::new();
    push_all(&mut rate, &digits);
    r.push(rate);
    let ghost base = string_views(r@);
    assert(base == seq!["--codec"@, codec_of(config.format), "-r"@, decimal(config.framerate as nat)]);
    match audio {
        Some(a) => {
            r.push(a);
        },
        None => {},
    }
    assert(string_views(r@) == match opt_view(audio) {
        Some(a) => base.push(a),
        None => base,
    });
    let ghost with_audio = string_views(r@);
    match (&config.region, &config.output) {
        (CaptureRegion::FullScreen, Some(o)) => {
            r.push(String::from_str("-o"));
            r.push(o.clone());
        },
        _ => {},
    }
    assert(string_views(r@) == match (config.region, config.output) {
        (CaptureRegion::FullScreen, Some(o)) => with_audio.push("-o"@).push(o@),
        _ => with_audio,
    });
    let ghost with_output = string_views(r@);
    match &config.geometry {
        Some(g) => {
            r.push(String::from_str("-g"));
            r.push(g.clone());
        },
        None => {},
    }
    assert(string_views(r@) == match config.geometry {
        Some(g) => with_output.push("-g"@).push(g@),
        None => with_output,
    });
    r
}

// ---------------------------------------------------------------------------
// A recorder that stopped
// ---------------------------------------------------------------------------

/// What is reported when wf-recorder has exited while it should be
/// recording: what it wrote to stderr (trimmed) if anything, else its exit
/// status when it failed, else that it stopped unexpectedly.
pub open spec fn exit_message_of(stderr: Seq<char>, success: bool, status: Seq<char>) -> Seq<char> {
    if trim(stderr).len() > 0 {
        trim(stderr)
    } else if !success {
        "wf-recorder exited with code "@ + status
    } else {
        "wf-recorder stopped unexpectedly"@
    }
}

/// The message for an exited wf-recorder, from its stderr, whether its exit
/// status reports success, and that status as text.
pub fn exit_message(stderr: &str, success: bool, status: &str) -> (r: String)
    ensures
        r@ == exit_message_of(stderr@, success, status@),
{
    let msg = module_id(stderr);
    if !msg.as_str().is_empty() {
        msg
    } else if !success {
        let mut s = String::from_str("wf-recorder exited with code ");
        s.append(status);
        s
    } else {
        String::from_str("wf-recorder stopped unexpectedly")
    }
}

/// The `pactl` loads of a mixed recording, in the order they are made: the
/// mixing sink, the loopback of the system monitor, the loopback of the
/// microphone.
pub open spec fn mixed_loads_of(monitor: Seq<char>, mic: Seq<char>) -> Seq<Seq<Seq<char>>> {
    seq![null_sink_args_of(), loopback_args_of(monitor), loopback_args_of(mic)]
}

pub open spec fn arg_lists_views(v: Seq<Vec<String>>) -> Seq<Seq<Seq<char>>> {
    Seq::new(v.len(), |i: int| string_views(v[i]@))
}

/// The argument lists of the `pactl load-module` runs that set up a mixed
/// recording, in the order they run.
pub fn mixed_audio_loads(monitor: &str, mic: &str) -> (r: Vec<Vec<String>>)
    ensures
        arg_lists_views(r@) == mixed_loads_of(monitor@, mic@),
{
    let mut r: Vec<Vec<String>> = Vec::new();
    r.push(null_sink_args());
    r.push(loopback_args(monitor));
    r.push(loopback_args(mic));
    assert(arg_lists_views(r@) == mixed_loads_of(monitor@, mic@));
    r
}

/// The module ids kept for stopping, from the ids of the loads in the order
/// they ran (sink, monitor loopback, microphone loopback): the reverse order,
/// so that loopbacks come before the sink they feed.
pub open spec fn stored_modules_of(sink: Seq<char>, monitor_loop: Seq<char>, mic_loop: Seq<char>) -> Seq<Seq<char>> {
    seq![mic_loop, monitor_loop, sink]
}

pub fn stored_modules(sink: String, monitor_loop: String, mic_loop: String) -> (r: Vec<String>)
    ensures
        string_views(r@) == stored_modules_of(sink@, monitor_loop@, mic_loop@),
{
    let mut r: Vec<String> = Vec::new();
    r.push(mic_loop);
    r.push(monitor_loop);
    r.push(sink);
    assert(string_views(r@) == stored_modules_of(sink@, monitor_loop@, mic_loop@));
    r
}

/// After a mixed start whose three loads gave the ids `sink`, `monitor_loop`,
/// `mic_loop` (in load order), stopping unloads the microphone loopback,
/// then the monitor loopback, then the sink: no loopback outlives the sink
/// it feeds.
pub proof fn law_loopbacks_unloaded_before_sink(sink: Seq<char>, monitor_loop: Seq<char>, mic_loop: Seq<char>)
    requires
        mic_loop.len() > 0,
        monitor_loop.len() > 0,
        sink.len() > 0,
    ensures
        modules_to_unload_of(stored_modules_of(sink, monitor_loop, mic_loop)) == seq![mic_loop, monitor_loop, sink],
{
    let ids = seq![mic_loop, monitor_loop, sink];
    assert(ids.drop_last() == seq![mic_loop, monitor_loop]);
    assert(ids.drop_last().drop_last() == seq![mic_loop]);
    assert(seq![mic_loop].drop_last() == Seq::<Seq<char>>::empty());
    assert(modules_to_unload_of(Seq::<Seq<char>>::empty()) == Seq::<Seq<char>>::empty());
    assert(Seq::<Seq<char>>::empty().push(mic_loop) == seq![mic_loop]);
    assert(modules_to_unload_of(seq![mic_loop]) == seq![mic_loop]);
    assert(seq![mic_loop].push(monitor_loop) == seq![mic_loop, monitor_loop]);
    assert(modules_to_unload_of(seq![mic_loop, monitor_loop]) == seq![mic_loop, monitor_loop]);
    assert(seq![mic_loop, monitor_loop].push(sink) == ids);
}

/// Each container gets a codec it can hold: VP8 (`libvpx`) in WebM files,
/// H.264 (`libx264`) in MP4 and MKV files; and each file is named with its
/// container's extension.
pub proof fn law_codec_fits_container(f: OutputFormat)
    ensures
        f == OutputFormat::WebM ==> codec_of(f) == "libvpx"@ && extension_of(f) == "webm"@,
        f == OutputFormat::Mp4 ==> codec_of(f) == "libx264"@ && extension_of(f) == "mp4"@,
        f == OutputFormat::Mkv ==> codec_of(f) == "libx264"@ && extension_of(f) == "mkv"@,
{
}

/// The wf-recorder arguments after `-f <file>`: `--codec` with the codec of
/// the configured format, `-r` with the frame rate in decimal, the audio
/// argument when there is one, `-o <display>` exactly for a full-screen
/// recording of a chosen display, and last `-g <geometry>` exactly when a
/// geometry is set.
pub proof fn law_recorder_args_layout(c: RecordingConfig, audio: Option<Seq<char>>)
    ensures
        ({
            let a = recorder_args_of(c, audio);
            let na: int = if audio is Some { 1 } else { 0 };
            let no: int = if c.region == CaptureRegion::FullScreen && c.output is Some { 2 } else { 0 };
            let ng: int = if c.geometry is Some { 2 } else { 0 };
            &&& a.len() == 4 + na + no + ng
            &&& a[0] == "--codec"@
            &&& a[1] == codec_of(c.format)
            &&& a[2] == "-r"@
            &&& a[3] == decimal(c.framerate as nat)
            &&& (audio matches Some(x) ==> a[4] == x)
            &&& (c.region == CaptureRegion::FullScreen && c.output is Some ==> a[4 + na] == "-o"@ && a[5
                + na] == c.output->0@)
            &&& (c.geometry matches Some(g) ==> a[a.len() - 2] == "-g"@ && a[a.len() - 1] == g@)
        }),
{
}

} // verus!
