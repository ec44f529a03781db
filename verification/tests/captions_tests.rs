use wf_recorder::captions::{countdown_text, folder_label, fps_label, subtitle, timer_text};
use wf_recorder::recorder::OutputFormat;

#[test]
fn timer() {
    assert_eq!(timer_text(0), "00:00");
    assert_eq!(timer_text(65), "01:05");
    assert_eq!(timer_text(3599), "59:59");
    assert_eq!(timer_text(6000), "100:00");
    for s in [0u64, 9, 10, 61, 600, 123456] {
        assert_eq!(timer_text(s), format!("{:02}:{:02}", s / 60, s % 60));
    }
}

#[test]
fn small_captions() {
    assert_eq!(subtitle(OutputFormat::WebM, 30), "WebM • 30FPS");
    assert_eq!(fps_label(24), "24 fps");
    assert_eq!(countdown_text(3), "3");
}

#[test]
fn folder() {
    assert_eq!(folder_label("/home/me/Videos"), "/home/me/Videos");
    assert_eq!(folder_label("/home/someone/Videos/Recordings"), "...e/Videos/Recordings");
    let long = "/home/séb/Vidéos/Screencasts/2024";
    assert_eq!(folder_label(long), format!("...{}", &long[long.len() - 19..]));
    // exactly 22 bytes: unchanged
    assert_eq!(folder_label("/abcdefghijklmnopqrstu"), "/abcdefghijklmnopqrstu");
}
