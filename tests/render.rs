use parsedown::token::{Token, TokenList};
use parsedown::Parser;

fn text(s: &str) -> Token {
    Token::Text(s.to_string())
}

#[test]
fn generate_html_trims_top_level_output() {
    let tokens = TokenList(vec![Token::Paragraph(TokenList(vec![text("a")]))]);
    assert_eq!(Parser::new().generate_html(&tokens), "<p>a</p>");
    assert_eq!(Parser::new().render(&tokens), "<p>a</p>\n");
}

#[test]
fn generate_html_joins_blocks_with_one_line_feed() {
    let tokens = TokenList(vec![
        Token::Heading { level: 2, content: TokenList(vec![text("T")]) },
        Token::Paragraph(TokenList(vec![text("a")])),
        Token::List(vec![TokenList(vec![text("x")])]),
    ]);
    assert_eq!(
        Parser::new().generate_html(&tokens),
        "<h2>T</h2>\n<p>a</p>\n<ul>\n<li>x</li>\n</ul>"
    );
}

#[test]
fn generate_html_keeps_text_verbatim_and_nested_spaces() {
    let tokens = TokenList(vec![Token::Paragraph(TokenList(vec![
        text("<b>x & y</b>"),
        Token::Bold(TokenList(vec![text(" b ")])),
        text("c"),
    ]))]);
    assert_eq!(
        Parser::new().generate_html(&tokens),
        "<p><b>x & y</b><strong> b </strong>c</p>"
    );
}

#[test]
fn token_list_push_and_extend_keep_order() {
    let mut a = TokenList::new();
    a.push(text("1"));
    let mut b = TokenList::new();
    b.push(text("2"));
    b.push(Token::Italic(TokenList(vec![text("3")])));
    a.extend(b);
    let tokens = TokenList(vec![Token::Paragraph(a)]);
    assert_eq!(Parser::new().generate_html(&tokens), "<p>12<em>3</em></p>");
}
