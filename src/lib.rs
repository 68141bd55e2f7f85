//! A small Markdown-to-HTML converter: headings, flat unordered lists,
//! paragraphs, and bold / italic emphasis.
use vstd::prelude::*;

pub mod lemmas;
pub mod model;
pub mod text;
pub mod token;
pub mod tokenizer;

use crate::model::{html_items, html_tok, html_toks, level_digit, markdown_to_html, wf_items, wf_toks};
use crate::text::{chars_of, push_char, string_of, trim, trim_chars};
use crate::token::{Token, TokenList, items_of, lemma_items_of_index, lemma_toks_of_index, tok_of};
use crate::tokenizer::Tokenizer;

verus! {

/// Converts Markdown text to HTML. It holds no state: every call of `parse`
/// depends on its input alone.
pub struct Parser;

impl Parser {
    /// A parser.
    pub fn new() -> (r: Parser) {
        Parser
    }

    /// The HTML of the Markdown document `input`, with surrounding
    /// whitespace removed.
    pub fn parse(&self, input: &str) -> (r: String)
        ensures
            r@ == markdown_to_html(input@),
    {
        let tokenizer = Tokenizer;
        let tokens = tokenizer.tokenize(input);
        self.generate_html(&tokens)
    }

    /// The HTML of a document's blocks, with surrounding whitespace removed.
    pub fn generate_html(&self, tokens: &TokenList) -> (r: String)
        requires
            wf_toks(tokens@),
        ensures
            r@ == trim(html_toks(tokens@)),
    {
        let html = self.render(tokens);
        let chars = chars_of(html.as_str());
        let trimmed = trim_chars(&chars);
        string_of(&trimmed, 0, trimmed.len())
    }

    /// The digit of a heading level (levels run from 1 to 6).
    fn level_char(&self, level: u8) -> (c: char)
        requires
            1 <= level <= 6,
        ensures
            c == level_digit(level as nat),
    {
        match level {
            1 => '1',
            2 => '2',
            3 => '3',
            4 => '4',
            5 => '5',
            _ => '6',
        }
    }

    /// The HTML of a sequence of tokens, each rendered in turn (nested
    /// contents are rendered as they stand, untrimmed).
    pub fn render(&self, tokens: &TokenList) -> (r: String)
        requires
            wf_toks(tokens@),
        ensures
            r@ == html_toks(tokens@),
        decreases tokens,
    {
        let ghost m = tokens@;
        proof {
            lemma_toks_of_index(tokens.0@);
        }
        let mut output = String::new();
        let mut i: usize = 0;
        while i < tokens.0.len()
            invariant
                i <= tokens.0.len(),
                m == tokens@,
                wf_toks(m),
                m.len() == tokens.0.len(),
                forall|k: int| 0 <= k < tokens.0.len() ==> #[trigger] m[k] == tok_of(tokens.0@[k]),
                output@ == html_toks(m.subrange(0, i as int)),
            decreases tokens.0.len() - i,
        {
            let ghost before = output@;
            match &tokens.0[i] {
                Token::Text(text) => {
                    output.append(text.as_str());
                },
                Token::Bold(content) => {
                    output.append("<strong>");
                    output.append(self.render(content).as_str());
                    output.append("</strong>");
                },
                Token::Italic(content) => {
                    output.append("<em>");
                    output.append(self.render(content).as_str());
                    output.append("</em>");
                },
                Token::Heading { level, content } => {
                    let digit = self.level_char(*level);
                    output.append("<h");
                    push_char(&mut output, digit);
                    output.append(">");
                    output.append(self.render(content).as_str());
                    output.append("</h");
                    push_char(&mut output, digit);
                    output.append(">\n");
                },
                Token::List(items) => {
                    let ghost its = items_of(items@);
                    proof {
                        lemma_items_of_index(items@);
                    }
                    output.append("<ul>\n");
                    let ghost head = output@;
                    let mut j: usize = 0;
                    while j < items.len()
                        invariant
                            j <= items.len(),
                            i < tokens.0.len(),
                            tokens.0@[i as int] == Token::List(*items),
                            its == items_of(items@),
                            wf_items(its),
                            its.len() == items.len(),
                            forall|k: int| 0 <= k < items.len() ==> #[trigger] its[k] == items@[k]@,
                            output@ == head + html_items(its.subrange(0, j as int)),
                        decreases items.len() - j,
                    {
                        proof {
                            assert(decreases_to!(tokens.0 => tokens.0[i as int]));
                            assert(decreases_to!(tokens.0[i as int] => tokens.0[i as int]->List_0));
                            assert(decreases_to!(*items => items[j as int]));
                            assert(wf_toks(its[j as int]));
                        }
                        output.append("<li>");
                        output.append(self.render(&items[j]).as_str());
                        output.append("</li>\n");
                        j = j + 1;
                        assert(its.subrange(0, j as int).drop_last() =~= its.subrange(0, j - 1));
                    }
                    assert(its.subrange(0, items.len() as int) =~= its);
                    output.append("</ul>\n");
                },
                Token::Paragraph(content) => {
                    output.append("<p>");
                    output.append(self.render(content).as_str());
                    output.append("</p>\n");
                },
            }
            assert(output@ == before + html_tok(m[i as int]));
            i = i + 1;
            assert(m.subrange(0, i as int).drop_last() =~= m.subrange(0, i - 1));
        }
        assert(m.subrange(0, tokens.0.len() as int) =~= m);
        output
    }
}

} // verus!
