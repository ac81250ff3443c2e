use grafium_core::books::clean::{markdown_fragment_link, rewrite_html_link};
use grafium_core::books::html::{
    html_events, html_to_blocks, html_to_blocks_answered, render_html_events, HtmlEvent,
    HtmlRequest, RenderMode,
};
use grafium_core::books::outline::book_heading_slug;

fn render_with(
    html: &str,
    assets: impl Fn(&str) -> Option<String>,
    links: impl Fn(&str, &str) -> Option<String>,
) -> Vec<String> {
    let md = RenderMode { ask_assets: true, ask_links: true };
    let mut answers: Vec<Option<String>> = Vec::new();
    loop {
        let (blocks, requests) = html_to_blocks_answered(html, md, &answers);
        if requests.len() <= answers.len() {
            return blocks;
        }
        let q = &requests[answers.len()];
        let answer = if q.link { links(&q.href, &q.label) } else { assets(&q.href) };
        answers.push(answer);
    }
}

#[test]
fn html_conversion_preserves_semantic_formatting() {
    let html = r#"
            <html>
              <body>
                <h2>Rich Chapter</h2>
                <p>This has <strong>bold</strong>, <em>italic</em>, and <a href="https://example.com/path?q=1">a link</a>.</p>
                <ul><li>First item</li><li>Second <b>item</b></li></ul>
                <ol><li>Numbered</li></ol>
                <blockquote><p>Quoted <code>code</code>.</p></blockquote>
                <pre><code>let x = 1;</code></pre>
                <table><tr><th>Name</th><th>Value</th></tr><tr><td>A</td><td>B</td></tr></table>
                <p><a href="chapter.xhtml">Next chapter</a></p>
                <p><img src="images/pic.png" alt="Tree &amp; diagram"></p>
              </body>
            </html>
        "#;

    let blocks = render_with(
        html,
        |href| if href == "images/pic.png" { Some("assets/pic.png".to_string()) } else { None },
        |href, text| {
            if href == "chapter.xhtml" {
                let slug: String = book_heading_slug(&text.chars().collect()).into_iter().collect();
                Some(markdown_fragment_link(text, &slug))
            } else {
                rewrite_html_link(href, text)
            }
        },
    );

    assert!(blocks.contains(&"## Rich Chapter".to_string()));
    assert!(blocks.contains(
        &"This has **bold**, *italic*, and [a link](https://example.com/path?q=1).".to_string()
    ));
    assert!(blocks.contains(&"- First item\n- Second **item**".to_string()));
    assert!(blocks.contains(&"1. Numbered".to_string()));
    assert!(blocks.contains(&"> Quoted `code`.".to_string()));
    assert!(blocks.contains(&"```\nlet x = 1;\n```".to_string()));
    assert!(blocks.contains(&"| Name | Value |\n| --- | --- |\n| A | B |".to_string()));
    assert!(blocks.contains(&"[Next chapter](#next-chapter)".to_string()));
    assert!(blocks.contains(&"![Tree & diagram](assets/pic.png)".to_string()));
}

#[test]
fn html_conversion_escapes_decoded_text_nodes() {
    let html = r#"
            <html><body>
              <p>Encoded &lt;img src=x onerror=alert(1)&gt; text &amp; more.</p>
            </body></html>
        "#;

    let blocks = html_to_blocks(html);

    assert_eq!(
        blocks,
        vec!["Encoded &lt;img src=x onerror=alert(1)&gt; text &amp; more.".to_string()]
    );
}

#[test]
fn html_conversion_promotes_styled_epub_chapter_markers() {
    let html = r#"
            <html><body>
              <p class="western6">Chap. LXII.</p>
              <p class="western6">The two fruit trees.</p>
              <p class="western4">1 Satan the wicked one was envious.</p>
            </body></html>
        "#;

    let blocks = html_to_blocks(html);

    assert_eq!(
        blocks,
        vec![
            "### Chap. LXII.".to_string(),
            "### The two fruit trees.".to_string(),
            "1 Satan the wicked one was envious.".to_string(),
        ]
    );
}

#[test]
fn html_conversion_does_not_flatten_after_self_closing_epub_anchor() {
    let html = r#"
            <html><body>
              <p class="western4"><a id="a1"/>Introductory text.</p>
              <p class="western4">14 Eve cried bitterly.</p>
              <p class="western6">Chap. VI.</p>
              <p class="western6">God points out how they sinned.</p>
              <p class="western4">1 But God looked at them.</p>
            </body></html>
        "#;

    let blocks = html_to_blocks(html);

    assert!(blocks.contains(&"Introductory text.".to_string()));
    assert!(blocks.contains(&"14 Eve cried bitterly.".to_string()));
    assert!(blocks.contains(&"### Chap. VI.".to_string()));
    assert!(blocks.contains(&"### God points out how they sinned.".to_string()));
    assert!(blocks.contains(&"1 But God looked at them.".to_string()));
    assert!(!blocks
        .iter()
        .any(|block| block.contains("14 Eve cried bitterly. ### Chap. VI.")));
}

#[test]
fn plain_html_leaves_images_out_and_keeps_outside_links() {
    let html = "<p>See <a href=\"https://x.org\">site</a> and <a href=\"local.html\">here</a>.</p><p><img src=\"a.png\"></p>";
    assert_eq!(html_to_blocks(html), vec!["See [site](https://x.org) and here.".to_string()]);
}

#[test]
fn requests_are_made_in_order_and_answers_are_used() {
    let ev: Vec<HtmlEvent> = html_events("<p><img src=\"a.png\" alt=\"A\"><a href=\"x.html\">X</a></p>");
    let md = RenderMode { ask_assets: true, ask_links: true };
    let mut requests: Vec<HtmlRequest> = Vec::new();
    let text = render_html_events(&ev, md, &Vec::new(), &mut requests);
    assert_eq!(text, "X");
    assert_eq!(requests.len(), 2);
    assert!(!requests[0].link);
    assert_eq!(requests[0].href, "a.png");
    assert!(requests[1].link);
    assert_eq!(requests[1].label, "X");
    let answers = vec![Some("assets/a.png".to_string()), Some("[X](#x)".to_string())];
    let mut again: Vec<HtmlRequest> = Vec::new();
    assert_eq!(render_html_events(&ev, md, &answers, &mut again), "![A](assets/a.png)[X](#x)");
}

#[test]
fn lists_quotes_and_separators() {
    let html = "<ol><li>One<ul><li>Inner</li></ul></li><li></li><li>Two</li></ol>\
                <blockquote>Line</blockquote><p>* * *</p><hr>";
    assert_eq!(
        html_to_blocks(html),
        vec![
            "1. One\n  - Inner\n2. Two".to_string(),
            "> Line".to_string(),
            "---".to_string(),
            "---".to_string(),
        ]
    );
}
