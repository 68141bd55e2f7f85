use parsedown::Parser;

fn html(input: &str) -> String {
    Parser::new().parse(input)
}

#[test]
fn heading_levels_one_to_six() {
    for n in 1..=6usize {
        let input = format!("{} X", "#".repeat(n));
        assert_eq!(html(&input), format!("<h{}>X</h{}>", n, n));
    }
}

#[test]
fn seven_hashes_is_paragraph_text() {
    assert_eq!(html("####### X"), "<p>####### X</p>");
}

#[test]
fn hashes_without_space_are_paragraph_text() {
    assert_eq!(html("#NoSpace"), "<p>#NoSpace</p>");
    assert_eq!(html("#"), "<p>#</p>");
}

#[test]
fn empty_input_gives_empty_output() {
    assert_eq!(html(""), "");
    assert_eq!(html("   \n\t\n  "), "");
}

#[test]
fn soft_breaks_merge_into_one_paragraph() {
    assert_eq!(
        html("This is\na multi-line\nparagraph."),
        "<p>This is a multi-line paragraph.</p>"
    );
}

#[test]
fn carriage_returns_are_trimmed() {
    assert_eq!(html("a\r\nb\r\n"), "<p>a b</p>");
}

#[test]
fn paragraph_stops_at_heading_and_list() {
    assert_eq!(html("para\n# H"), "<p>para</p>\n<h1>H</h1>");
    assert_eq!(
        html("para\n- item"),
        "<p>para</p>\n<ul>\n<li>item</li>\n</ul>"
    );
    assert_eq!(html("para\n#x"), "<p>para #x</p>");
}

#[test]
fn list_stops_at_other_lines() {
    assert_eq!(
        html("- a\n- b\nmore"),
        "<ul>\n<li>a</li>\n<li>b</li>\n</ul>\n<p>more</p>"
    );
    assert_eq!(
        html("- a\n\n- b"),
        "<ul>\n<li>a</li>\n</ul>\n<ul>\n<li>b</li>\n</ul>"
    );
}

#[test]
fn list_item_contents_are_trimmed() {
    assert_eq!(html("-   a  \n  - b"), "<ul>\n<li>a</li>\n<li>b</li>\n</ul>");
}

#[test]
fn dash_without_space_is_paragraph_text() {
    assert_eq!(html("-a"), "<p>-a</p>");
}

#[test]
fn bold_containing_italic() {
    assert_eq!(
        html("**a *b* c**"),
        "<p><strong>a <em>b</em> c</strong></p>"
    );
}

#[test]
fn italic_containing_bold() {
    assert_eq!(
        html("*a **b** c*"),
        "<p><em>a <strong>b</strong> c</em></p>"
    );
}

#[test]
fn nested_emphasis_opens_and_closes_in_order() {
    assert_eq!(html("***x***"), "<p><strong><em>x</em></strong><em></em></p>");
    assert_eq!(html("** *x* **"), "<p><strong> <em>x</em> </strong></p>");
}

#[test]
fn unterminated_emphasis_runs_to_end_of_line() {
    assert_eq!(html("**bold"), "<p><strong>bold</strong></p>");
    assert_eq!(html("*it"), "<p><em>it</em></p>");
    assert_eq!(html("a **b*"), "<p>a <strong>b<em></em></strong></p>");
}

#[test]
fn emphasis_in_heading_and_list() {
    assert_eq!(html("## *x*"), "<h2><em>x</em></h2>");
    assert_eq!(html("- **y**"), "<ul>\n<li><strong>y</strong></li>\n</ul>");
}

#[test]
fn unicode_whitespace_is_trimmed() {
    assert_eq!(html("\u{3000}# X\u{3000}"), "<h1>X</h1>");
    assert_eq!(html("\u{a0}caf\u{e9}\u{a0}"), "<p>caf\u{e9}</p>");
}

#[test]
fn no_html_escaping() {
    assert_eq!(html("a < b & c"), "<p>a < b & c</p>");
}

#[test]
fn parse_is_deterministic() {
    let parser = Parser::new();
    let input = "# T\n\nSome *text* and **more**.\n- x\n- y";
    let first = parser.parse(input);
    let second = parser.parse(input);
    assert_eq!(first, second);
    assert_eq!(Parser::new().parse(input), first);
}

#[test]
fn mixed_document_blocks_in_order() {
    let input = "# Title\n\nIntro with **bold** and *italic*.\n\n## Part\n\n- one\n- two *em*\n- **three**\n\n### End\n\nLast words.";
    let expected = "<h1>Title</h1>\n<p>Intro with <strong>bold</strong> and <em>italic</em>.</p>\n<h2>Part</h2>\n<ul>\n<li>one</li>\n<li>two <em>em</em></li>\n<li><strong>three</strong></li>\n</ul>\n<h3>End</h3>\n<p>Last words.</p>";
    assert_eq!(html(input), expected);
}
