use grafium_core::books::markdown::{
    first_heading_block, first_markdown_heading, is_ordered_markdown_list_line,
    markdown_to_blocks,
};

fn chars(s: &str) -> Vec<char> {
    s.chars().collect()
}

#[test]
fn markdown_blocks_split_on_blank_lines_and_keep_structure() {
    let raw = "# Title\n\nLine one\nline two\n\n- a\n- b\n\n```\ncode\n\nmore\n```\n";
    assert_eq!(
        markdown_to_blocks(raw),
        vec![
            "# Title".to_string(),
            "Line one line two".to_string(),
            "- a\n- b".to_string(),
            "```\ncode\n\nmore\n```".to_string(),
        ]
    );
}

#[test]
fn markdown_numbered_lists_and_open_fences_keep_line_breaks() {
    assert_eq!(markdown_to_blocks("1. one\n2. two"), vec!["1. one\n2. two".to_string()]);
    assert_eq!(markdown_to_blocks("```\nx"), vec!["```\nx".to_string()]);
    assert_eq!(markdown_to_blocks("\n\n  \n"), Vec::<String>::new());
}

#[test]
fn ordered_list_lines_need_digits_a_dot_and_a_space() {
    assert!(is_ordered_markdown_list_line(&chars("12. item")));
    assert!(!is_ordered_markdown_list_line(&chars("1.x")));
    assert!(!is_ordered_markdown_list_line(&chars(". x")));
    assert!(!is_ordered_markdown_list_line(&chars("a1. x")));
}

#[test]
fn first_headings_are_cleaned_titles() {
    assert_eq!(
        first_markdown_heading("intro\n  ## Second   Title \n# Third"),
        Some("Second Title".to_string())
    );
    assert_eq!(first_markdown_heading("no heading here"), None);
    let blocks = vec!["para".to_string(), "### Deep".to_string(), "# Top".to_string()];
    assert_eq!(first_heading_block(&blocks), Some("Deep".to_string()));
    assert_eq!(first_heading_block(&["#".to_string()]), Some("Imported Book".to_string()));
    assert_eq!(first_heading_block(&["plain".to_string()]), None);
}
