use wf_recorder::layout::{assign_position_labels, axis_labels};
use wf_recorder::outputs::{
    lookup_geometry, outputs_from_listing, parse_wlr_randr, shorten_description,
};
use wf_recorder::recorder::OutputInfo;
use wf_recorder::text::chars_of;

const RANDR: &str = "DP-1 \"Dell Inc. DELL U2720Q 7XYZ123 (DP-1)\"
  Make: Dell Inc.
  Model: DELL U2720Q
  Serial: 7XYZ123
  Physical size: 600x340 mm
  Enabled: yes
  Modes:
    3840x2160 px, 59.997002 Hz (preferred, current)
    2560x1440 px, 59.951000 Hz
  Position: 0,0
  Transform: normal
  Scale: 1.500000
HDMI-A-1 \"Samsung Electric Company LS27A600U H4ZR (HDMI-A-1)\"
  Enabled: yes
  Modes:
    1920x1080 px, 60.000000 Hz (current)
  Position: 2560,0
eDP-1 \"BOE 0x0BCA (eDP-1)\"
  Enabled: no
  Modes:
    1920x1200 px, 60.000000 Hz (preferred)
";

fn output(name: &str, geometry: Option<&str>) -> OutputInfo {
    OutputInfo {
        name: name.to_string(),
        description: String::new(),
        geometry: geometry.map(|g| g.to_string()),
        position_label: None,
    }
}

fn labels(outs: &[OutputInfo]) -> Vec<Option<String>> {
    outs.iter().map(|o| o.position_label.clone()).collect()
}

#[test]
fn descriptions_are_shortened() {
    assert_eq!(shorten_description("Dell Inc. DELL U2720Q 7XYZ123 (DP-1)", "DP-1"), "DELL U2720Q");
    assert_eq!(shorten_description("BOE 0x0BCA (eDP-1)", "eDP-1"), "BOE");
    assert_eq!(shorten_description("  Some Monitor  ", "DP-1"), "Some Monitor");
    assert_eq!(shorten_description("", "DP-1"), "");
    // the suffix names another output: kept, then only the last two words
    assert_eq!(shorten_description("Acme Screen (DP-2)", "DP-1"), "Screen (DP-2)");
}

#[test]
fn serial_like_words_are_noise() {
    // more than six bytes, alphanumeric, with a digit and a capital
    assert_eq!(shorten_description("Acme ABC1234 Pro", "X"), "Acme Pro");
    // six bytes only: kept
    assert_eq!(shorten_description("Acme ABC123 Pro", "X"), "ABC123 Pro");
    // no capital: kept
    assert_eq!(shorten_description("Acme abc12345 Pro", "X"), "abc12345 Pro");
    // not alphanumeric: kept
    assert_eq!(shorten_description("Acme ABC-12345", "X"), "Acme ABC-12345");
    assert_eq!(shorten_description("Acme 8KZ3XK3 Pro", "X"), "Acme Pro");
    assert_eq!(
        shorten_description("Dell Inc. DELL U2720Q 8KZ3XK3 0x00001234 (DP-1)", "DP-1"),
        "DELL U2720Q"
    );
}

#[test]
fn randr_report_gives_geometries() {
    let entries = parse_wlr_randr(RANDR);
    assert_eq!(
        entries,
        vec![
            ("DP-1".to_string(), "3840x2160+0+0".to_string()),
            ("HDMI-A-1".to_string(), "1920x1080+2560+0".to_string()),
        ]
    );
    assert_eq!(parse_wlr_randr(""), vec![]);
}

#[test]
fn later_report_of_a_name_wins() {
    let text = "A x\n  1x1 px (current)\n  Position: 1,2\nA y\n  2x2 px (current)\n  Position: 3,4\n";
    let entries = parse_wlr_randr(text);
    assert_eq!(entries.len(), 2);
    assert_eq!(lookup_geometry(&entries, &chars_of("A")), Some("2x2+3+4".to_string()));
    assert_eq!(lookup_geometry(&entries, &chars_of("B")), None);
}

#[test]
fn listing_gives_outputs_with_labels() {
    let entries = parse_wlr_randr(RANDR);
    let listing = "Name: DP-1 Description: Dell Inc. DELL U2720Q 7XYZ123 (DP-1)\n\
                   Name: HDMI-A-1 Description: Samsung Electric Company LS27A600U H4ZR (HDMI-A-1)\n\
                   something else\n";
    let outs = outputs_from_listing(listing, &entries);
    assert_eq!(outs.len(), 2);
    assert_eq!(outs[0].name, "DP-1");
    assert_eq!(outs[0].description, "DELL U2720Q");
    assert_eq!(outs[0].geometry.as_deref(), Some("3840x2160+0+0"));
    assert_eq!(outs[0].position_label.as_deref(), Some("Left"));
    assert_eq!(outs[1].name, "HDMI-A-1");
    assert_eq!(outs[1].description, "Company H4ZR");
    assert_eq!(outs[1].position_label.as_deref(), Some("Right"));
    assert_eq!(outs[1].display_text(), "HDMI-A-1 — Company H4ZR [Right]");
}

#[test]
fn listing_without_description() {
    let outs = outputs_from_listing("Name: X\n", &vec![]);
    assert_eq!(outs.len(), 1);
    assert_eq!(outs[0].name, "X");
    assert_eq!(outs[0].description, "");
    assert_eq!(outs[0].geometry, None);
    assert_eq!(outs[0].display_text(), "X — ");
}

#[test]
fn axis_labels_by_count() {
    assert_eq!(axis_labels(0, true), Vec::<String>::new());
    assert_eq!(axis_labels(1, true), vec![""]);
    assert_eq!(axis_labels(2, true), vec!["Left", "Right"]);
    assert_eq!(axis_labels(3, false), vec!["Top", "Center", "Bottom"]);
    assert_eq!(axis_labels(4, true), vec!["Left", "Center-Left", "Center-Right", "Right"]);
    assert_eq!(axis_labels(4, false), vec!["Top", "Center-Top", "Center-Bottom", "Bottom"]);
    assert_eq!(
        axis_labels(6, true),
        vec!["Left", "Center 1", "Center 2", "Center 3", "Center 4", "Right"]
    );
}

#[test]
fn horizontal_row_of_displays() {
    let mut outs = vec![
        output("C", Some("1920x1080+3840+0")),
        output("A", Some("1920x1080+0+0")),
        output("B", Some("1920x1080+1920+0")),
    ];
    assign_position_labels(&mut outs);
    assert_eq!(labels(&outs), vec![Some("Right".into()), Some("Left".into()), Some("Center".into())]);
}

#[test]
fn vertical_stack_of_displays() {
    let mut outs = vec![output("A", Some("1920x1080+0+1080")), output("B", Some("1920x1080+0+0"))];
    assign_position_labels(&mut outs);
    assert_eq!(labels(&outs), vec![Some("Bottom".into()), Some("Top".into())]);
}

#[test]
fn grid_of_displays() {
    let mut outs = vec![
        output("A", Some("10x10+0+0")),
        output("B", Some("10x10+10+0")),
        output("C", Some("10x10+0+10")),
        output("D", Some("10x10+10+10")),
    ];
    assign_position_labels(&mut outs);
    assert_eq!(
        labels(&outs),
        vec![
            Some("Top-Left".into()),
            Some("Top-Right".into()),
            Some("Bottom-Left".into()),
            Some("Bottom-Right".into())
        ]
    );
}

#[test]
fn five_displays_in_a_row() {
    let mut outs: Vec<OutputInfo> = (0..5).map(|i| output("X", Some(&format!("1x1+{}+0", i * 10)))).collect();
    assign_position_labels(&mut outs);
    assert_eq!(
        labels(&outs),
        vec![
            Some("Left".into()),
            Some("Center 1".into()),
            Some("Center 2".into()),
            Some("Center 3".into()),
            Some("Right".into())
        ]
    );
}

#[test]
fn labels_need_two_positions_apart() {
    // a single output: untouched
    let mut one = vec![output("A", Some("1x1+0+0"))];
    assign_position_labels(&mut one);
    assert_eq!(labels(&one), vec![None]);
    // two outputs at the same place: untouched
    let mut same = vec![output("A", Some("1x1+5+5")), output("B", Some("1x1+5+5"))];
    assign_position_labels(&mut same);
    assert_eq!(labels(&same), vec![None, None]);
    // an output without geometry keeps its label
    let mut mixed = vec![
        OutputInfo { position_label: Some("old".into()), ..output("A", None) },
        output("B", Some("1x1+0+0")),
        output("C", Some("1x1+100+0")),
    ];
    assign_position_labels(&mut mixed);
    assert_eq!(labels(&mixed), vec![Some("old".into()), Some("Left".into()), Some("Right".into())]);
}

#[test]
fn offsets_need_x_and_y() {
    let mut outs = vec![output("A", Some("1x1+5")), output("B", Some("1x1+0+0")), output("C", Some("1x1+9+0+junk"))];
    assign_position_labels(&mut outs);
    assert_eq!(labels(&outs), vec![None, Some("Left".into()), Some("Right".into())]);
}

#[test]
fn labels_tell_displays_apart() {
    let mut outs: Vec<OutputInfo> = (0..7).map(|i| output("X", Some(&format!("1x1+{}+0", i)))).collect();
    assign_position_labels(&mut outs);
    let ls: Vec<String> = outs.iter().map(|o| o.position_label.clone().unwrap()).collect();
    for i in 0..ls.len() {
        for j in 0..ls.len() {
            if i != j {
                assert_ne!(ls[i], ls[j]);
            }
        }
    }
    let mut grid: Vec<OutputInfo> = (0..4)
        .flat_map(|r| (0..4).map(move |c| (r, c)))
        .map(|(r, c)| output("X", Some(&format!("1x1+{}+{}", c * 10, r * 10))))
        .collect();
    assign_position_labels(&mut grid);
    let gl: Vec<String> = grid.iter().map(|o| o.position_label.clone().unwrap()).collect();
    assert_eq!(gl[0], "Top-Left");
    assert_eq!(gl[5], "Center-Top-Center-Left");
    for i in 0..gl.len() {
        for j in 0..gl.len() {
            if i != j {
                assert_ne!(gl[i], gl[j]);
            }
        }
    }
}
