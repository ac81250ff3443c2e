use grafium_core::books::epub::{
    attr_get, decode_entities, epub_href_target, epub_target_key, epub_toc_entries_from_ncx,
    href_decodable_exec, join_epub_path, parse_attrs, percent_decode_lossy,
};

fn chars(s: &str) -> Vec<char> {
    s.chars().collect()
}

fn text(v: &[char]) -> String {
    v.iter().collect()
}

#[test]
fn ncx_toc_parser_keeps_nested_navpoint_children_in_order() {
    let ncx = r##"
                <ncx>
                  <navMap>
                    <navPoint>
                      <navLabel><text>Part One</text></navLabel>
                      <content src="part.xhtml#part"/>
                      <navPoint>
                        <navLabel><text>Chapter 1</text></navLabel>
                        <content src="one.xhtml#a1"/>
                      </navPoint>
                      <navPoint>
                        <navLabel><text>Chapter 2</text></navLabel>
                        <content src="two.xhtml#a2"/>
                      </navPoint>
                    </navPoint>
                  </navMap>
                </ncx>
            "##;

    let entries = epub_toc_entries_from_ncx("OEBPS/toc.ncx", ncx).unwrap();

    assert_eq!(
        entries
            .iter()
            .map(|entry| entry.title.as_str())
            .collect::<Vec<_>>(),
        vec!["Part One", "Chapter 1", "Chapter 2"]
    );
    assert_eq!(
        entries
            .iter()
            .map(|entry| epub_target_key(&entry.href, entry.fragment.as_deref()))
            .collect::<Vec<_>>(),
        vec![
            "OEBPS/part.xhtml#part",
            "OEBPS/one.xhtml#a1",
            "OEBPS/two.xhtml#a2"
        ]
    );
}

#[test]
fn ncx_point_without_title_is_called_chapter_and_duplicates_are_dropped() {
    let ncx = r#"<navPoint><content src="a.xhtml"/></navPoint>
        <navPoint><navLabel><text>Again</text></navLabel><content src="a.xhtml"/></navPoint>
        <navPoint><navLabel><text>Outside</text></navLabel><content src="http://example.com/x"/></navPoint>"#;
    let entries = epub_toc_entries_from_ncx("toc.ncx", ncx).unwrap();
    assert_eq!(entries.len(), 1);
    assert_eq!(entries[0].title, "Chapter");
    assert_eq!(entries[0].href, "a.xhtml");
    assert_eq!(entries[0].fragment, None);
}

#[test]
fn ncx_with_undecodable_escape_is_refused() {
    let ncx = "<navPoint><navLabel><text>T</text></navLabel><content src=\"%x\u{e9}.xhtml\"/></navPoint>";
    assert!(epub_toc_entries_from_ncx("toc.ncx", ncx).is_none());
    assert!(!href_decodable_exec("toc.ncx", "%x\u{e9}.xhtml"));
    assert!(href_decodable_exec("toc.ncx", "a%20b.xhtml"));
    assert!(href_decodable_exec("toc.ncx", "%\u{e9}x.xhtml"));
}

#[test]
fn ncx_text_titles_drop_tags_and_decode_entities() {
    let ncx = r#"<navPoint><navLabel><text>Tom <i>&amp;</i>  Jerry</text></navLabel><content src="t.xhtml#x"/></navPoint>"#;
    let entries = epub_toc_entries_from_ncx("OPS/toc.ncx", ncx).unwrap();
    assert_eq!(entries.len(), 1);
    assert_eq!(entries[0].title, "Tom & Jerry");
    assert_eq!(entries[0].href, "OPS/t.xhtml");
    assert_eq!(entries[0].fragment.as_deref(), Some("x"));
}

#[test]
fn entities_are_decoded_named_and_numeric() {
    assert_eq!(text(&decode_entities(&chars("a&amp;b &lt;c&gt; &#65;&#x42; &#xD800;"))), "a&b <c> AB &#xD800;");
    assert_eq!(text(&decode_entities(&chars("&quot;x&apos;&#39;&nbsp;"))), "\"x'' ");
}

#[test]
fn epub_paths_resolve_dot_segments() {
    assert_eq!(
        join_epub_path(&chars("OEBPS/text"), &chars("../images/a.png")).map(|v| text(&v)),
        Some("OEBPS/images/a.png".to_string())
    );
    assert_eq!(
        join_epub_path(&chars(""), &chars("/a/./b")).map(|v| text(&v)),
        Some("a/b".to_string())
    );
    assert_eq!(join_epub_path(&chars("a"), &chars("../../x")), None);
}

#[test]
fn percent_escapes_are_decoded() {
    assert_eq!(percent_decode_lossy("a%20b"), "a b");
    assert_eq!(percent_decode_lossy("%C3%A9t%C3%A9"), "\u{e9}t\u{e9}");
    assert_eq!(percent_decode_lossy("100%"), "100%");
    assert_eq!(percent_decode_lossy("%zz%2"), "%zz%2");
    assert_eq!(percent_decode_lossy("%FF"), "\u{fffd}");
    assert_eq!(percent_decode_lossy("plain.xhtml"), "plain.xhtml");
}

#[test]
fn attributes_are_parsed_with_quotes_and_overrides() {
    let pairs = parse_attrs(&chars(" SRC=\"a.xhtml\" alt='x &amp; y' checked data-n=5/ src=b.xhtml>"));
    let get = |k: &str| attr_get(&pairs, k).map(|v| text(&v));
    assert_eq!(get("src"), Some("b.xhtml".to_string()));
    assert_eq!(get("alt"), Some("x & y".to_string()));
    assert_eq!(get("checked"), Some(String::new()));
    assert_eq!(get("data-n"), Some("5".to_string()));
    assert_eq!(get("missing"), None);
    assert_eq!(pairs.len(), 5);
}

#[test]
fn href_targets_split_fragment_and_query() {
    let t = epub_href_target("OEBPS/text/ch1.xhtml", " ../ch2.xhtml?x=1#sec%201?q ").unwrap();
    assert_eq!(t.href, "OEBPS/ch2.xhtml");
    assert_eq!(t.fragment.as_deref(), Some("sec 1"));
    let same = epub_href_target("OEBPS/ch1.xhtml", "#top").unwrap();
    assert_eq!(same.href, "OEBPS/ch1.xhtml");
    assert_eq!(same.fragment.as_deref(), Some("top"));
    assert!(epub_href_target("a.xhtml", "https://example.com").is_none());
    assert!(epub_href_target("a.xhtml", "   ").is_none());
    assert!(epub_href_target("a.xhtml", "../../x.xhtml").is_none());
    let bare = epub_href_target("a.xhtml", "b.xhtml#").unwrap();
    assert_eq!(bare.fragment, None);
    assert_eq!(epub_target_key("a.xhtml", Some("  ")), "a.xhtml");
}
