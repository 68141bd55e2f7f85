//! Statements about whole documents, proved from the model.
use vstd::prelude::*;
use crate::model::{
    blocks, blocks_from, hashes_end, heading_of, html_tok, html_toks, inline_tokens, is_heading,
    is_item, level_digit, markdown_to_html, star_from, Tok,
};
use crate::text::{is_ws, line_end, lines, skip_ws, skip_ws_back, trim};

verus! {

/// `n` emphasis nodes around `inner`, outermost first: bold where `marks`
/// holds `true`, italic where it holds `false`.
pub open spec fn wrap(marks: Seq<bool>, inner: Tok) -> Tok
    decreases marks.len(),
{
    if marks.len() == 0 {
        inner
    } else {
        let t = wrap(marks.drop_first(), inner);
        if marks[0] {
            Tok::Bold(seq![t])
        } else {
            Tok::Italic(seq![t])
        }
    }
}

/// The opening tags of `marks`, outermost first.
pub open spec fn open_tags(marks: Seq<bool>) -> Seq<char>
    decreases marks.len(),
{
    if marks.len() == 0 {
        Seq::empty()
    } else {
        (if marks[0] {
            "<strong>"@
        } else {
            "<em>"@
        }) + open_tags(marks.drop_first())
    }
}

/// The closing tags of `marks`, innermost first.
pub open spec fn close_tags(marks: Seq<bool>) -> Seq<char>
    decreases marks.len(),
{
    if marks.len() == 0 {
        Seq::empty()
    } else {
        close_tags(marks.drop_first()) + (if marks[0] {
            "</strong>"@
        } else {
            "</em>"@
        })
    }
}

proof fn lemma_html_single(t: Tok)
    ensures
        html_toks(seq![t]) == html_tok(t),
{
    assert(seq![t].drop_last() =~= Seq::<Tok>::empty());
    assert(html_toks(seq![t]) == html_toks(Seq::<Tok>::empty()) + html_tok(t));
    assert(html_toks(Seq::<Tok>::empty()) + html_tok(t) =~= html_tok(t));
}

/// Emphasis nested to any depth renders as properly nested tags: the
/// opening tags outermost first, the text, then the closing tags innermost
/// first.
pub proof fn lemma_nested_emphasis(marks: Seq<bool>, s: Seq<char>)
    ensures
        html_tok(wrap(marks, Tok::Text(s))) == open_tags(marks) + s + close_tags(marks),
    decreases marks.len(),
{
    if marks.len() == 0 {
        assert(open_tags(marks) + s + close_tags(marks) =~= s);
    } else {
        let rest = marks.drop_first();
        lemma_nested_emphasis(rest, s);
        lemma_html_single(wrap(rest, Tok::Text(s)));
        if marks[0] {
            assert(html_tok(wrap(marks, Tok::Text(s))) =~= open_tags(marks) + s + close_tags(marks));
        } else {
            assert(html_tok(wrap(marks, Tok::Text(s))) =~= open_tags(marks) + s + close_tags(marks));
        }
    }
}

/// The output for a document depends on its text alone: equal inputs give
/// equal outputs.
pub proof fn lemma_parse_deterministic(a: Seq<char>, b: Seq<char>, out_a: Seq<char>, out_b: Seq<char>)
    requires
        a == b,
        out_a == markdown_to_html(a),
        out_b == markdown_to_html(b),
    ensures
        out_a == out_b,
{
}


/// `n` copies of `#`, a space and an `X`.
pub open spec fn heading_line(n: nat) -> Seq<char> {
    Seq::new(n, |i: int| '#') + seq![' ', 'X']
}

proof fn lemma_no_line_feed(s: Seq<char>, i: int)
    requires
        0 <= i <= s.len(),
        forall|k: int| i <= k < s.len() ==> s[k] != '\n',
    ensures
        line_end(s, i) == s.len(),
    decreases s.len() - i,
{
    if i < s.len() {
        lemma_no_line_feed(s, i + 1);
    }
}

proof fn lemma_hashes_run(s: Seq<char>, n: int, i: int)
    requires
        0 <= i <= n < s.len(),
        forall|k: int| 0 <= k < n ==> s[k] == '#',
        s[n] != '#',
    ensures
        hashes_end(s, i) == n,
    decreases n - i,
{
    if i < n {
        lemma_hashes_run(s, n, i + 1);
    }
}

/// A line of one to six `#`, a space and a word is a heading of that level.
pub proof fn lemma_heading_levels(n: nat)
    requires
        1 <= n <= 6,
    ensures
        markdown_to_html(heading_line(n)) == seq!['<', 'h', level_digit(n), '>', 'X', '<', '/', 'h',
            level_digit(n), '>'],
{
    let s = heading_line(n);
    let len = s.len() as int;
    assert(len == n + 2);
    assert(s[n as int] == ' ');
    assert(s[n as int + 1] == 'X');
    // One line.
    lemma_no_line_feed(s, 0);
    assert(s.subrange(0, len) =~= s);
    assert(lines(s) =~= seq![s]);
    let ls = seq![s];
    // The line is its own trim.
    assert(!is_ws(s[0]));
    assert(skip_ws(s, 0) == 0);
    assert(!is_ws(s[len - 1]));
    assert(skip_ws_back(s, 0, len) == len);
    assert(trim(s) =~= s);
    // A heading of level n.
    lemma_hashes_run(s, n as int, 0);
    assert(is_heading(s));
    assert(!is_item(s));
    let rest = s.subrange(n as int, len);
    assert(rest =~= seq![' ', 'X']);
    assert(skip_ws(rest, 1) == 1);
    assert(skip_ws(rest, 0) == 1);
    assert(skip_ws_back(rest, 1, 2) == 2);
    let word = seq!['X'];
    assert(trim(rest) =~= word);
    assert(star_from(word, 1) == 1);
    assert(star_from(word, 0) == 1);
    assert(word.subrange(0, 1) =~= word);
    assert(inline_tokens(word) =~= seq![Tok::Text(word)]);
    let h = Tok::Heading { level: n, content: seq![Tok::Text(word)] };
    assert(heading_of(s) == h);
    assert(blocks_from(ls, 1) =~= Seq::<Tok>::empty());
    assert(blocks(ls) =~= seq![h]);
    // Its HTML.
    let d = level_digit(n);
    lemma_html_single(Tok::Text(word));
    lemma_html_single(h);
    reveal_strlit("<h");
    reveal_strlit(">");
    reveal_strlit("</h");
    reveal_strlit(">\n");
    let out = seq!['<', 'h', d, '>', 'X', '<', '/', 'h', d, '>', '\n'];
    assert(html_toks(blocks(lines(s))) =~= out);
    // Trimmed.
    assert(!is_ws(out[0]));
    assert(skip_ws(out, 0) == 0);
    assert(is_ws(out[10]));
    assert(!is_ws(out[9]));
    assert(skip_ws_back(out, 0, 10) == 10);
    assert(skip_ws_back(out, 0, 11) == 10);
    assert(trim(out) =~= out.subrange(0, 10));
}

} // verus!
