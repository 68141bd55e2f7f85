//! The document model: the token tree as mathematical values, what HTML a
//! tree renders to, and which tree a piece of Markdown denotes.
use vstd::prelude::*;
use crate::text::{lines, trim};

verus! {

/// One node of the document tree.
///
/// Block nodes (`Heading`, `List`, `Paragraph`) stand at the top level;
/// inline nodes (`Text`, `Bold`, `Italic`) fill their contents.
pub enum Tok {
    Text(Seq<char>),
    Bold(Seq<Tok>),
    Italic(Seq<Tok>),
    Heading { level: nat, content: Seq<Tok> },
    List(Seq<Seq<Tok>>),
    Paragraph(Seq<Tok>),
}

// ---------------------------------------------------------------------------
// Well-formed trees
// ---------------------------------------------------------------------------

/// Every heading in the tree has a level from 1 to 6.
pub open spec fn wf_tok(t: Tok) -> bool
    decreases t,
{
    match t {
        Tok::Text(_) => true,
        Tok::Bold(c) => wf_toks(c),
        Tok::Italic(c) => wf_toks(c),
        Tok::Heading { level, content } => 1 <= level <= 6 && wf_toks(content),
        Tok::List(items) => wf_items(items),
        Tok::Paragraph(c) => wf_toks(c),
    }
}

pub open spec fn wf_toks(s: Seq<Tok>) -> bool
    decreases s,
{
    forall|i: int| 0 <= i < s.len() ==> wf_tok(#[trigger] s[i])
}

pub open spec fn wf_items(s: Seq<Seq<Tok>>) -> bool
    decreases s,
{
    forall|i: int| 0 <= i < s.len() ==> wf_toks(#[trigger] s[i])
}

// ---------------------------------------------------------------------------
// Rendering
// ---------------------------------------------------------------------------

/// The digit that names a heading level (levels run from 1 to 6).
pub open spec fn level_digit(level: nat) -> char {
    if level == 1 {
        '1'
    } else if level == 2 {
        '2'
    } else if level == 3 {
        '3'
    } else if level == 4 {
        '4'
    } else if level == 5 {
        '5'
    } else {
        '6'
    }
}

/// The HTML of one node.
pub open spec fn html_tok(t: Tok) -> Seq<char>
    decreases t,
{
    match t {
        Tok::Text(s) => s,
        Tok::Bold(c) => "<strong>"@ + html_toks(c) + "</strong>"@,
        Tok::Italic(c) => "<em>"@ + html_toks(c) + "</em>"@,
        Tok::Heading { level, content } => "<h"@.push(level_digit(level)) + ">"@ + html_toks(
            content,
        ) + "</h"@.push(level_digit(level)) + ">\n"@,
        Tok::List(items) => "<ul>\n"@ + html_items(items) + "</ul>\n"@,
        Tok::Paragraph(c) => "<p>"@ + html_toks(c) + "</p>\n"@,
    }
}

/// The HTML of a sequence of nodes: each one's HTML, in order.
pub open spec fn html_toks(s: Seq<Tok>) -> Seq<char>
    decreases s,
{
    if s.len() == 0 {
        Seq::empty()
    } else {
        html_toks(s.drop_last()) + html_tok(s.last())
    }
}

/// The HTML of the items of a list: one `<li>` line per item.
pub open spec fn html_items(s: Seq<Seq<Tok>>) -> Seq<char>
    decreases s,
{
    if s.len() == 0 {
        Seq::empty()
    } else {
        html_items(s.drop_last()) + "<li>"@ + html_toks(s.last()) + "</li>\n"@
    }
}


// ---------------------------------------------------------------------------
// Inline markup
// ---------------------------------------------------------------------------

/// Index of the first `*` at or after `i`, or the length.
pub open spec fn star_from(t: Seq<char>, i: int) -> int
    decreases t.len() - i,
{
    if 0 <= i < t.len() && t[i] != '*' {
        star_from(t, i + 1)
    } else {
        i
    }
}

/// Index of the first `**` at or after `i` (where a bold span closes), or
/// the length.
pub open spec fn bold_end(t: Seq<char>, i: int) -> int
    decreases t.len() - i,
{
    if 0 <= i < t.len() && !(t[i] == '*' && i + 1 < t.len() && t[i + 1] == '*') {
        bold_end(t, i + 1)
    } else {
        i
    }
}

/// Index of the first single `*` at or after `i` (where an italic span
/// closes), or the length. A `**` pair is stepped over as a whole.
pub open spec fn italic_end(t: Seq<char>, i: int) -> int
    decreases t.len() - i,
{
    if 0 <= i < t.len() && t[i] != '*' {
        italic_end(t, i + 1)
    } else if 0 <= i < t.len() && i + 1 < t.len() && t[i + 1] == '*' {
        italic_end(t, i + 2)
    } else {
        i
    }
}

pub proof fn lemma_star_from_bounds(t: Seq<char>, i: int)
    requires
        0 <= i <= t.len(),
    ensures
        i <= star_from(t, i) <= t.len(),
        star_from(t, i) < t.len() ==> t[star_from(t, i)] == '*',
        forall|k: int| i <= k < star_from(t, i) ==> t[k] != '*',
    decreases t.len() - i,
{
    if i < t.len() && t[i] != '*' {
        lemma_star_from_bounds(t, i + 1);
    }
}

pub proof fn lemma_bold_end_bounds(t: Seq<char>, i: int)
    requires
        0 <= i <= t.len(),
    ensures
        i <= bold_end(t, i) <= t.len(),
        bold_end(t, i) < t.len() ==> bold_end(t, i) + 1 < t.len() && t[bold_end(t, i)] == '*'
            && t[bold_end(t, i) + 1] == '*',
    decreases t.len() - i,
{
    if i < t.len() && !(t[i] == '*' && i + 1 < t.len() && t[i + 1] == '*') {
        lemma_bold_end_bounds(t, i + 1);
    }
}

pub proof fn lemma_italic_end_bounds(t: Seq<char>, i: int)
    requires
        0 <= i <= t.len(),
    ensures
        i <= italic_end(t, i) <= t.len(),
        italic_end(t, i) < t.len() ==> t[italic_end(t, i)] == '*',
    decreases t.len() - i,
{
    if i < t.len() && t[i] != '*' {
        lemma_italic_end_bounds(t, i + 1);
    } else if i < t.len() && i + 1 < t.len() && t[i + 1] == '*' {
        lemma_italic_end_bounds(t, i + 2);
    }
}

/// The inline nodes of `t[i..]`: runs of plain text, and spans opened by
/// `**` (bold) or `*` (italic) whose contents are read the same way. A span
/// left open runs to the end of the text.
pub open spec fn inline_from(t: Seq<char>, i: int) -> Seq<Tok>
    decreases t.len() - i,
    via inline_from_decreases
{
    if i < 0 || i >= t.len() {
        Seq::empty()
    } else {
        let j = star_from(t, i);
        let text = if j > i {
            seq![Tok::Text(t.subrange(i, j))]
        } else {
            Seq::empty()
        };
        if j >= t.len() {
            text
        } else if j + 1 < t.len() && t[j + 1] == '*' {
            let e = bold_end(t, j + 2);
            let next = if e < t.len() {
                e + 2
            } else {
                e
            };
            text + seq![Tok::Bold(inline_from(t.subrange(j + 2, e), 0))] + inline_from(t, next)
        } else {
            let e = italic_end(t, j + 1);
            let next = if e < t.len() {
                e + 1
            } else {
                e
            };
            text + seq![Tok::Italic(inline_from(t.subrange(j + 1, e), 0))] + inline_from(t, next)
        }
    }
}

#[via_fn]
proof fn inline_from_decreases(t: Seq<char>, i: int) {
    if 0 <= i < t.len() {
        lemma_star_from_bounds(t, i);
        let j = star_from(t, i);
        if j + 2 <= t.len() {
            lemma_bold_end_bounds(t, j + 2);
        }
        if j + 1 <= t.len() {
            lemma_italic_end_bounds(t, j + 1);
        }
    }
}

/// The inline nodes of `t`.
pub open spec fn inline_tokens(t: Seq<char>) -> Seq<Tok> {
    inline_from(t, 0)
}

// ---------------------------------------------------------------------------
// Blocks
// ---------------------------------------------------------------------------

/// Index of the first character at or after `i` that is not `#`.
pub open spec fn hashes_end(t: Seq<char>, i: int) -> int
    decreases t.len() - i,
{
    if 0 <= i < t.len() && t[i] == '#' {
        hashes_end(t, i + 1)
    } else {
        i
    }
}

/// A (trimmed) line opens a heading: one to six `#`, then a space.
pub open spec fn is_heading(t: Seq<char>) -> bool {
    let h = hashes_end(t, 0);
    1 <= h <= 6 && h < t.len() && t[h] == ' '
}

/// The heading a (trimmed) heading line denotes.
pub open spec fn heading_of(t: Seq<char>) -> Tok {
    let h = hashes_end(t, 0);
    Tok::Heading { level: h as nat, content: inline_tokens(trim(t.subrange(h, t.len() as int))) }
}

/// A (trimmed) line is a list item: it starts with `- `.
pub open spec fn is_item(t: Seq<char>) -> bool {
    t.len() >= 2 && t[0] == '-' && t[1] == ' '
}

/// The contents of a (trimmed) list item line: the rest after `- `, trimmed.
pub open spec fn item_of(t: Seq<char>) -> Seq<Tok> {
    inline_tokens(trim(t.subrange(2, t.len() as int)))
}

/// A (trimmed) line that a paragraph does not take in.
pub open spec fn ends_paragraph(t: Seq<char>) -> bool {
    t.len() == 0 || is_heading(t) || is_item(t)
}

/// Index of the first line at or after `k` that is not a list item.
pub open spec fn list_end(ls: Seq<Seq<char>>, k: int) -> int
    decreases ls.len() - k,
{
    if 0 <= k < ls.len() && is_item(trim(ls[k])) {
        list_end(ls, k + 1)
    } else {
        k
    }
}

/// Index of the first line at or after `k` that ends a paragraph.
pub open spec fn para_end(ls: Seq<Seq<char>>, k: int) -> int
    decreases ls.len() - k,
{
    if 0 <= k < ls.len() && !ends_paragraph(trim(ls[k])) {
        para_end(ls, k + 1)
    } else {
        k
    }
}

pub proof fn lemma_list_end_bounds(ls: Seq<Seq<char>>, k: int)
    requires
        0 <= k <= ls.len(),
    ensures
        k <= list_end(ls, k) <= ls.len(),
    decreases ls.len() - k,
{
    if k < ls.len() && is_item(trim(ls[k])) {
        lemma_list_end_bounds(ls, k + 1);
    }
}

pub proof fn lemma_para_end_bounds(ls: Seq<Seq<char>>, k: int)
    requires
        0 <= k <= ls.len(),
    ensures
        k <= para_end(ls, k) <= ls.len(),
    decreases ls.len() - k,
{
    if k < ls.len() && !ends_paragraph(trim(ls[k])) {
        lemma_para_end_bounds(ls, k + 1);
    }
}

/// The items of the list made of lines `i..j`.
pub open spec fn list_items(ls: Seq<Seq<char>>, i: int, j: int) -> Seq<Seq<Tok>> {
    Seq::new((j - i) as nat, |m: int| item_of(trim(ls[i + m])))
}

/// The contents of the paragraph made of lines `i..j`: each line's inline
/// nodes, with a single space between one line and the next.
pub open spec fn para_content(ls: Seq<Seq<char>>, i: int, j: int) -> Seq<Tok>
    decreases j - i,
{
    if j <= i + 1 {
        inline_tokens(trim(ls[i]))
    } else {
        para_content(ls, i, j - 1) + seq![Tok::Text(seq![' '])] + inline_tokens(trim(ls[j - 1]))
    }
}

/// The blocks of the lines `ls[i..]`. Blank lines only separate blocks.
pub open spec fn blocks_from(ls: Seq<Seq<char>>, i: int) -> Seq<Tok>
    decreases ls.len() - i,
    via blocks_from_decreases
{
    if i < 0 || i >= ls.len() {
        Seq::empty()
    } else {
        let t = trim(ls[i]);
        if t.len() == 0 {
            blocks_from(ls, i + 1)
        } else if is_heading(t) {
            seq![heading_of(t)] + blocks_from(ls, i + 1)
        } else if is_item(t) {
            let j = list_end(ls, i + 1);
            seq![Tok::List(list_items(ls, i, j))] + blocks_from(ls, j)
        } else {
            let j = para_end(ls, i + 1);
            seq![Tok::Paragraph(para_content(ls, i, j))] + blocks_from(ls, j)
        }
    }
}

#[via_fn]
proof fn blocks_from_decreases(ls: Seq<Seq<char>>, i: int) {
    if 0 <= i < ls.len() {
        lemma_list_end_bounds(ls, i + 1);
        lemma_para_end_bounds(ls, i + 1);
    }
}

/// The blocks of a document given as lines.
pub open spec fn blocks(ls: Seq<Seq<char>>) -> Seq<Tok> {
    blocks_from(ls, 0)
}

// ---------------------------------------------------------------------------
// The trees built from text are well formed
// ---------------------------------------------------------------------------

pub proof fn lemma_wf_inline(t: Seq<char>, i: int)
    ensures
        wf_toks(inline_from(t, i)),
    decreases t.len() - i,
{
    if 0 <= i < t.len() {
        lemma_star_from_bounds(t, i);
        let j = star_from(t, i);
        if j < t.len() {
            if j + 1 < t.len() && t[j + 1] == '*' {
                lemma_bold_end_bounds(t, j + 2);
                let e = bold_end(t, j + 2);
                lemma_wf_inline(t.subrange(j + 2, e), 0);
                lemma_wf_inline(t, if e < t.len() { e + 2 } else { e });
            } else {
                lemma_italic_end_bounds(t, j + 1);
                let e = italic_end(t, j + 1);
                lemma_wf_inline(t.subrange(j + 1, e), 0);
                lemma_wf_inline(t, if e < t.len() { e + 1 } else { e });
            }
        }
    }
}

proof fn lemma_wf_para(ls: Seq<Seq<char>>, i: int, j: int)
    ensures
        wf_toks(para_content(ls, i, j)),
    decreases j - i,
{
    lemma_wf_inline(trim(ls[i]), 0);
    if j > i + 1 {
        lemma_wf_para(ls, i, j - 1);
        lemma_wf_inline(trim(ls[j - 1]), 0);
    }
}

proof fn lemma_wf_cons(x: Tok, rest: Seq<Tok>)
    requires
        wf_tok(x),
        wf_toks(rest),
    ensures
        wf_toks(seq![x] + rest),
{
    let s = seq![x] + rest;
    assert forall|k: int| 0 <= k < s.len() implies wf_tok(#[trigger] s[k]) by {
        if k > 0 {
            assert(s[k] == rest[k - 1]);
        }
    }
}

/// Every heading of a document's tree has a level from 1 to 6.
pub proof fn lemma_wf_blocks(ls: Seq<Seq<char>>, i: int)
    ensures
        wf_toks(blocks_from(ls, i)),
    decreases ls.len() - i,
{
    if 0 <= i < ls.len() {
        let t = trim(ls[i]);
        lemma_list_end_bounds(ls, i + 1);
        lemma_para_end_bounds(ls, i + 1);
        if t.len() == 0 {
            lemma_wf_blocks(ls, i + 1);
        } else if is_heading(t) {
            let h = hashes_end(t, 0);
            lemma_wf_inline(trim(t.subrange(h, t.len() as int)), 0);
            lemma_wf_blocks(ls, i + 1);
            lemma_wf_cons(heading_of(t), blocks_from(ls, i + 1));
        } else if is_item(t) {
            let j = list_end(ls, i + 1);
            let items = list_items(ls, i, j);
            assert forall|m: int| 0 <= m < items.len() implies wf_toks(#[trigger] items[m]) by {
                let u = trim(ls[i + m]);
                lemma_wf_inline(trim(u.subrange(2, u.len() as int)), 0);
            }
            lemma_wf_blocks(ls, j);
            lemma_wf_cons(Tok::List(items), blocks_from(ls, j));
        } else {
            let j = para_end(ls, i + 1);
            lemma_wf_para(ls, i, j);
            lemma_wf_blocks(ls, j);
            lemma_wf_cons(Tok::Paragraph(para_content(ls, i, j)), blocks_from(ls, j));
        }
    }
}

/// The HTML of a Markdown document, with surrounding whitespace removed.
pub open spec fn markdown_to_html(input: Seq<char>) -> Seq<char> {
    trim(html_toks(blocks(lines(input))))
}

} // verus!
