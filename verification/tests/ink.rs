use grafium_core::ink::{InkSvgParser, InkSvgSerializer, PenTool, RecognitionStatus};

#[test]
fn stroke_groups_are_read_in_order_until_one_is_unclosed() {
    let svg = "<svg><g id=\"a\"><path d=\"M 1 2\"/></g>\n<g id=\"b\"></g><g id=\"c\">";
    let groups = InkSvgParser::stroke_groups(svg);
    assert_eq!(groups, vec!["<g id=\"a\"><path d=\"M 1 2\"/></g>".to_string(), "<g id=\"b\"></g>".to_string()]);
    assert!(InkSvgParser::stroke_groups("<svg></svg>").is_empty());
}

#[test]
fn metadata_times_default_to_zero() {
    let svg = "<svg>\n  <metadata><gfm:ink version=\"1\" created=\"-5\" updated=\"1700000000000\" strokes=\"0\"/></metadata></svg>";
    assert_eq!(InkSvgParser::metadata_times(svg), (-5, 1700000000000));
    assert_eq!(InkSvgParser::metadata_times("<svg></svg>"), (0, 0));
    let bad = "<metadata><gfm:ink created=\"x\" updated=\"+7\"/></metadata>";
    assert_eq!(InkSvgParser::metadata_times(bad), (0, 7));
}

#[test]
fn path_commands_keep_number_texts() {
    let cmds = InkSvgParser::path_commands("M 100.0 200.0 L 110.0 205.0,120 -3");
    let view: Vec<(char, Vec<String>)> = cmds.iter().map(|c| (c.command, c.numbers.clone())).collect();
    assert_eq!(
        view,
        vec![
            (' ', vec![]),
            ('M', vec!["100.0".to_string(), "200.0".to_string()]),
            ('L', vec!["110.0".to_string(), "205.0".to_string(), "120".to_string(), "-3".to_string()]),
        ]
    );
}

#[test]
fn metadata_line_and_timestamps() {
    assert_eq!(
        InkSvgSerializer::metadata_line(1, -2, 3),
        "  <metadata><gfm:ink version=\"1\" created=\"1\" updated=\"-2\" strokes=\"3\"/></metadata>"
    );
    assert_eq!(InkSvgSerializer::timestamp_list(&vec![0, 16, 32]), "0,16,32");
    assert_eq!(InkSvgSerializer::timestamp_list(&vec![]), "");
}

#[test]
fn tool_and_status_names_round_trip() {
    assert_eq!(PenTool::from_str(PenTool::Highlighter.as_str()), PenTool::Highlighter);
    assert_eq!(PenTool::from_str("crayon"), PenTool::Pen);
    assert_eq!(RecognitionStatus::from_str(RecognitionStatus::Confirmed.as_str()), RecognitionStatus::Confirmed);
}
