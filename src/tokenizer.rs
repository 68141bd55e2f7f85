//! Turning Markdown text into the token tree: block segmentation of lines
//! and inline tokenization of emphasis.
use vstd::prelude::*;
use crate::model::{
    blocks, blocks_from, bold_end, hashes_end, heading_of, inline_from,
    inline_tokens, is_heading, is_item, lemma_list_end_bounds,
    lemma_para_end_bounds, lemma_wf_blocks, list_end, list_items, para_content, para_end, wf_toks, italic_end, lemma_bold_end_bounds, lemma_italic_end_bounds,
    star_from, Tok,
};
use crate::text::{lines, push_char, split_lines, sub_chars, trim, trim_chars, views};
use crate::token::{self, Token, TokenList};

verus! {

/// Builds the token tree of a document.
pub struct Tokenizer;

/// Scanning on from `i`, the first `*` is where it was from `a`, when
/// `t[a..i]` holds none.
proof fn lemma_star_from_skip(t: Seq<char>, a: int, i: int)
    requires
        0 <= a <= i <= t.len(),
        forall|k: int| a <= k < i ==> t[k] != '*',
    ensures
        star_from(t, a) == star_from(t, i),
    decreases i - a,
{
    if a < i {
        lemma_star_from_skip(t, a + 1, i);
    }
}

impl Tokenizer {
    /// The text of an emphasis span whose contents start at `start`, and
    /// the index just past its closing delimiter (`**` when `double`, else
    /// `*`). Without a closing delimiter the span runs to the end.
    pub fn consume_until_delimiter(&self, text: &Vec<char>, start: usize, double: bool) -> (r: (
        Vec<char>,
        usize,
    ))
        requires
            start <= text.len(),
        ensures
            ({
                let e = if double {
                    bold_end(text@, start as int)
                } else {
                    italic_end(text@, start as int)
                };
                let width = if double {
                    2int
                } else {
                    1int
                };
                &&& r.0@ == text@.subrange(start as int, e)
                &&& r.1 == if e < text.len() {
                    e + width
                } else {
                    e
                }
            }),
    {
        let ghost t = text@;
        let ghost e = if double {
            bold_end(t, start as int)
        } else {
            italic_end(t, start as int)
        };
        let n = text.len();
        let mut content: Vec<char> = Vec::new();
        let mut k: usize = start;
        while k < n
            invariant
                start <= k <= n == text.len(),
                t == text@,
                content@ == t.subrange(start as int, k as int),
                e == if double {
                    bold_end(t, start as int)
                } else {
                    italic_end(t, start as int)
                },
                e == if double {
                    bold_end(t, k as int)
                } else {
                    italic_end(t, k as int)
                },
            decreases n - k,
        {
            if text[k] == '*' {
                let pair = k + 1 < n && text[k + 1] == '*';
                if double {
                    if pair {
                        return (content, k + 2);
                    }
                    content.push('*');
                    k = k + 1;
                } else {
                    if !pair {
                        return (content, k + 1);
                    }
                    content.push('*');
                    content.push('*');
                    k = k + 2;
                }
            } else {
                content.push(text[k]);
                k = k + 1;
            }
            assert(content@ =~= t.subrange(start as int, k as int));
        }
        (content, n)
    }

    /// The inline nodes of `text`: plain text, and bold / italic spans whose
    /// contents are tokenized the same way.
    pub fn tokenize_inline(&self, text: &Vec<char>) -> (r: TokenList)
        ensures
            r@ == inline_tokens(text@),
        decreases text.len(),
    {
        let ghost t = text@;
        let n = text.len();
        let mut tokens = TokenList::new();
        let mut i: usize = 0;
        while i < n
            invariant
                i <= n == text.len(),
                t == text@,
                tokens@ + inline_from(t, i as int) == inline_tokens(t),
            decreases n - i,
        {
            let first = i;
            let ghost start = i as int;
            let ghost before = tokens@;
            let mut current = String::new();
            while i < n && text[i] != '*'
                invariant
                    start == first as int,
                    first <= i <= n == text.len(),
                    t == text@,
                    current@ == t.subrange(start, i as int),
                    forall|k: int| start <= k < i ==> t[k] != '*',
                decreases n - i,
            {
                push_char(&mut current, text[i]);
                i = i + 1;
                assert(current@ =~= t.subrange(start, i as int));
            }
            proof {
                lemma_star_from_skip(t, start, i as int);
            }
            let ghost text_part = if i > start {
                seq![Tok::Text(t.subrange(start, i as int))]
            } else {
                Seq::empty()
            };
            if i > first {
                tokens.push(Token::Text(current));
            }
            assert(tokens@ =~= before + text_part);
            if i < n {
                if i + 1 < n && text[i + 1] == '*' {
                    let (content, next) = self.consume_until_delimiter(text, i + 2, true);
                    proof {
                        lemma_bold_end_bounds(t, i + 2);
                    }
                    let inner = self.tokenize_inline(&content);
                    tokens.push(Token::Bold(inner));
                    i = next;
                } else {
                    let (content, next) = self.consume_until_delimiter(text, i + 1, false);
                    proof {
                        lemma_italic_end_bounds(t, i + 1);
                    }
                    let inner = self.tokenize_inline(&content);
                    tokens.push(Token::Italic(inner));
                    i = next;
                }
            }
            assert(tokens@ + inline_from(t, i as int) =~= before + inline_from(t, start));
        }
        assert(tokens@ =~= inline_tokens(t));
        tokens
    }

    /// The number of `#` that `t` starts with.
    fn count_hashes(&self, t: &Vec<char>) -> (h: usize)
        ensures
            h == hashes_end(t@, 0),
    {
        let mut h: usize = 0;
        while h < t.len() && t[h] == '#'
            invariant
                h <= t.len(),
                hashes_end(t@, h as int) == hashes_end(t@, 0),
            decreases t.len() - h,
        {
            h = h + 1;
        }
        h
    }

    /// Whether the (trimmed) line `t` is a heading.
    fn is_heading_line(&self, t: &Vec<char>) -> (r: bool)
        ensures
            r == is_heading(t@),
    {
        let h = self.count_hashes(t);
        1 <= h && h <= 6 && h < t.len() && t[h] == ' '
    }

    /// Whether the (trimmed) line `t` is a list item.
    fn is_item_line(&self, t: &Vec<char>) -> (r: bool)
        ensures
            r == is_item(t@),
    {
        t.len() >= 2 && t[0] == '-' && t[1] == ' '
    }

    /// The heading that the (trimmed) heading line `line` denotes.
    pub fn tokenize_heading(&self, line: &Vec<char>) -> (r: Token)
        requires
            is_heading(line@),
        ensures
            r@ == heading_of(line@),
    {
        let h = self.count_hashes(line);
        let rest = sub_chars(line, h, line.len());
        let content = trim_chars(&rest);
        Token::Heading { level: h as u8, content: self.tokenize_inline(&content) }
    }

    /// The list that starts at line `first`, which is a list item, and the
    /// index of the first line after it.
    pub fn tokenize_list(&self, lines: &Vec<Vec<char>>, first: usize) -> (r: (Token, usize))
        requires
            first < lines.len(),
            is_item(trim(lines@[first as int]@)),
        ensures
            r.1 == list_end(views(lines@), first + 1),
            r.0@ == Tok::List(list_items(views(lines@), first as int, r.1 as int)),
    {
        let ghost ls = views(lines@);
        let n = lines.len();
        let mut items: Vec<TokenList> = Vec::new();
        let mut k: usize = first;
        let mut more = true;
        proof {
            lemma_list_end_bounds(ls, first + 1);
        }
        while more && k < n
            invariant
                ls == views(lines@),
                first <= k <= n == lines.len(),
                k == first ==> more,
                is_item(trim(lines@[first as int]@)),
                list_end(ls, k as int) == list_end(ls, first + 1) || k == first,
                !more ==> list_end(ls, k as int) == k,
                token::items_of(items@) == list_items(ls, first as int, k as int),
            decreases (n - k) as int + if more { 1int } else { 0int },
        {
            let t = trim_chars(&lines[k]);
            if self.is_item_line(&t) {
                let rest = sub_chars(&t, 2, t.len());
                let content = trim_chars(&rest);
                let item = self.tokenize_inline(&content);
                let ghost before = items@;
                items.push(item);
                assert(items@.drop_last() =~= before);
                k = k + 1;
                assert(token::items_of(items@) =~= list_items(ls, first as int, k as int));
            } else {
                more = false;
            }
        }
        (Token::List(items), k)
    }

    /// The paragraph that starts at line `first`, whose trimmed text is
    /// `first_line`, and the index of the first line after it.
    pub fn tokenize_paragraph(&self, lines: &Vec<Vec<char>>, first: usize, first_line: &Vec<char>) -> (r: (
        Token,
        usize,
    ))
        requires
            first < lines.len(),
            first_line@ == trim(lines@[first as int]@),
        ensures
            r.1 == para_end(views(lines@), first + 1),
            r.0@ == Tok::Paragraph(para_content(views(lines@), first as int, r.1 as int)),
    {
        let ghost ls = views(lines@);
        let n = lines.len();
        let mut paragraph = self.tokenize_inline(first_line);
        let mut k: usize = first + 1;
        let mut more = true;
        while more && k < n
            invariant
                ls == views(lines@),
                first < k <= n == lines.len(),
                para_end(ls, k as int) == para_end(ls, first + 1),
                !more ==> para_end(ls, k as int) == k,
                paragraph@ == para_content(ls, first as int, k as int),
            decreases (n - k) as int + if more { 1int } else { 0int },
        {
            let t = trim_chars(&lines[k]);
            if t.len() == 0 || self.is_heading_line(&t) || self.is_item_line(&t) {
                more = false;
            } else {
                let mut space = String::new();
                push_char(&mut space, ' ');
                paragraph.push(Token::Text(space));
                paragraph.extend(self.tokenize_inline(&t));
                k = k + 1;
                assert(paragraph@ =~= para_content(ls, first as int, k as int));
            }
        }
        (Token::Paragraph(paragraph), k)
    }

    /// The blocks of a whole document.
    pub fn tokenize(&self, input: &str) -> (r: TokenList)
        ensures
            r@ == blocks(lines(input@)),
            wf_toks(r@),
    {
        let chars = crate::text::chars_of(input);
        let source_lines = split_lines(&chars);
        let ghost ls = views(source_lines@);
        let n = source_lines.len();
        let mut tokens = TokenList::new();
        let mut i: usize = 0;
        while i < n
            invariant
                ls == views(source_lines@),
                ls == lines(input@),
                i <= n == source_lines.len(),
                tokens@ + blocks_from(ls, i as int) == blocks(ls),
            decreases n - i,
        {
            let ghost before = tokens@;
            let ghost at = i as int;
            let t = trim_chars(&source_lines[i]);
            if t.len() == 0 {
                i = i + 1;
            } else if self.is_heading_line(&t) {
                tokens.push(self.tokenize_heading(&t));
                i = i + 1;
            } else if self.is_item_line(&t) {
                proof {
                    lemma_list_end_bounds(ls, i + 1);
                }
                let (list, next) = self.tokenize_list(&source_lines, i);
                tokens.push(list);
                i = next;
            } else {
                proof {
                    lemma_para_end_bounds(ls, i + 1);
                }
                let (paragraph, next) = self.tokenize_paragraph(&source_lines, i, &t);
                tokens.push(paragraph);
                i = next;
            }
            assert(tokens@ + blocks_from(ls, i as int) =~= before + blocks_from(ls, at));
        }
        assert(tokens@ =~= blocks(ls));
        proof {
            lemma_wf_blocks(ls, 0);
        }
        tokens
    }
}

} // verus!
