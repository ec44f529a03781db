use wf_recorder::geometry::{
    parse_selection, parse_wlr_geometry, selection_sums_in_range, validate_geometry,
};
use wf_recorder::recorder::OutputInfo;

fn output(name: &str, geometry: Option<&str>) -> OutputInfo {
    OutputInfo {
        name: name.to_string(),
        description: String::new(),
        geometry: geometry.map(|g| g.to_string()),
        position_label: None,
    }
}

const SPANS: &str = "Selected region spans multiple displays.\nPlease select within a single display.";

#[test]
fn wlr_geometry_parses() {
    assert_eq!(parse_wlr_geometry("1920x1080+0+0"), Some((0, 0, 1920, 1080)));
    assert_eq!(parse_wlr_geometry("2560x1440+1920+-120"), Some((1920, -120, 2560, 1440)));
    assert_eq!(parse_wlr_geometry("1920x1080+0++5"), Some((0, 5, 1920, 1080)));
}

#[test]
fn wlr_geometry_rejects_malformed() {
    assert_eq!(parse_wlr_geometry("1920x1080"), None);
    assert_eq!(parse_wlr_geometry("1920x1080+0"), None);
    assert_eq!(parse_wlr_geometry("1920x1080+0+0+0"), None);
    assert_eq!(parse_wlr_geometry("1920-1080+0+0"), None);
    assert_eq!(parse_wlr_geometry("1920x+0+0"), None);
    assert_eq!(parse_wlr_geometry("axb+1+2"), None);
    assert_eq!(parse_wlr_geometry("99999999999x1+0+0"), None);
}

#[test]
fn selection_parses() {
    assert_eq!(parse_selection("10,20 300x400"), Some((10, 20, 300, 400)));
    assert_eq!(parse_selection("-5,+7 1x1"), Some((-5, 7, 1, 1)));
    assert_eq!(parse_selection("10,20"), None);
    assert_eq!(parse_selection("10 20 300x400"), None);
    assert_eq!(parse_selection("10,20 300x"), None);
    assert_eq!(parse_selection(""), None);
}

#[test]
fn selection_within_one_display_passes() {
    let outs = vec![output("DP-1", Some("1920x1080+0+0")), output("DP-2", Some("1920x1080+1920+0"))];
    assert_eq!(validate_geometry("100,100 200x200", &outs), None);
    assert_eq!(validate_geometry("2000,100 200x200", &outs), None);
}

#[test]
fn selection_spanning_displays_is_refused() {
    let outs = vec![output("DP-1", Some("1920x1080+0+0")), output("DP-2", Some("1920x1080+1920+0"))];
    assert_eq!(validate_geometry("1800,100 300x200", &outs), Some(SPANS.to_string()));
}

#[test]
fn touching_edges_do_not_overlap() {
    let outs = vec![output("DP-1", Some("1920x1080+0+0")), output("DP-2", Some("1920x1080+1920+0"))];
    // ends exactly at the border between the two displays
    assert_eq!(validate_geometry("1720,0 200x100", &outs), None);
    assert_eq!(validate_geometry("1720,0 201x100", &outs), Some(SPANS.to_string()));
}

#[test]
fn unknown_geometry_passes_everything() {
    let outs = vec![output("DP-1", None), output("DP-2", None)];
    assert_eq!(validate_geometry("0,0 5000x5000", &outs), None);
    assert_eq!(validate_geometry("0,0 5000x5000", &[]), None);
}

#[test]
fn unparsable_selection_passes() {
    let outs = vec![output("DP-1", Some("1920x1080+0+0")), output("DP-2", Some("1920x1080+1920+0"))];
    assert_eq!(validate_geometry("garbage", &outs), None);
}

#[test]
fn unparsable_output_geometry_is_skipped() {
    let outs = vec![
        output("DP-1", Some("1920x1080+0+0")),
        output("DP-2", Some("broken")),
        output("DP-3", None),
    ];
    assert_eq!(validate_geometry("0,0 5000x5000", &outs), None);
}

#[test]
fn overflowing_sums_are_detected() {
    let outs = vec![output("DP-1", Some("1x1+2147483647+0"))];
    assert!(!selection_sums_in_range("0,0 1x1", &outs));
    let outs = vec![output("DP-1", Some("1920x1080+0+0"))];
    assert!(selection_sums_in_range("0,0 1x1", &outs));
    // the test stops at rx < ox + ow, before adding rx + rw
    assert!(selection_sums_in_range("2147483647,0 1x1", &[output("A", Some("10x10+2147483000+0"))]));
    // rx < ox + ow holds, so rx + rw is added and overflows
    assert!(!selection_sums_in_range("2147483000,0 1000x1", &[output("A", Some("10x10+2147483630+0"))]));
    // no geometry known: nothing is added
    assert!(selection_sums_in_range("2147483647,0 1x1", &[output("A", None)]));
}

#[test]
fn formatted_geometries_read_back() {
    for &(x, y, w, h) in &[(0, 0, 1920, 1080), (-1920, -5, 1920, 1080), (i32::MIN, i32::MAX, -1, 0)] {
        assert_eq!(parse_wlr_geometry(&format!("{w}x{h}+{x}+{y}")), Some((x, y, w, h)));
        assert_eq!(parse_selection(&format!("{x},{y} {w}x{h}")), Some((x, y, w, h)));
    }
}

#[test]
fn more_outputs_keep_a_refusal() {
    let outs = vec![output("A", Some("1920x1080+0+0")), output("B", Some("1920x1080+1920+0"))];
    let refused = validate_geometry("1800,0 300x100", &outs);
    assert!(refused.is_some());
    let mut more = outs.clone();
    more.push(output("C", Some("1920x1080+3840+0")));
    more.push(output("D", None));
    assert_eq!(validate_geometry("1800,0 300x100", &more), refused);
}
