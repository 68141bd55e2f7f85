//! The token tree as built at run time, and its view as a `Tok` tree.
use vstd::prelude::*;
use crate::model::Tok;

verus! {

/// One node of the document tree; see `Tok` for its meaning.
pub enum Token {
    Text(String),
    Bold(TokenList),
    Italic(TokenList),
    Heading { level: u8, content: TokenList },
    List(Vec<TokenList>),
    Paragraph(TokenList),
}

/// A sequence of nodes, in document order.
pub struct TokenList(pub Vec<Token>);

/// The model of one node.
pub open spec fn tok_of(t: Token) -> Tok
    decreases t,
{
    match t {
        Token::Text(s) => Tok::Text(s@),
        Token::Bold(c) => Tok::Bold(toks_of(c.0@)),
        Token::Italic(c) => Tok::Italic(toks_of(c.0@)),
        Token::Heading { level, content } => Tok::Heading {
            level: level as nat,
            content: toks_of(content.0@),
        },
        Token::List(items) => Tok::List(items_of(items@)),
        Token::Paragraph(c) => Tok::Paragraph(toks_of(c.0@)),
    }
}

/// The models of a sequence of nodes.
pub open spec fn toks_of(s: Seq<Token>) -> Seq<Tok>
    decreases s,
{
    if s.len() == 0 {
        Seq::empty()
    } else {
        toks_of(s.drop_last()).push(tok_of(s.last()))
    }
}

/// The models of the items of a list.
pub open spec fn items_of(s: Seq<TokenList>) -> Seq<Seq<Tok>>
    decreases s,
{
    if s.len() == 0 {
        Seq::empty()
    } else {
        items_of(s.drop_last()).push(toks_of(s.last().0@))
    }
}

impl View for Token {
    type V = Tok;

    open spec fn view(&self) -> Tok {
        tok_of(*self)
    }
}

impl View for TokenList {
    type V = Seq<Tok>;

    open spec fn view(&self) -> Seq<Tok> {
        toks_of(self.0@)
    }
}

pub proof fn lemma_toks_of_index(s: Seq<Token>)
    ensures
        toks_of(s).len() == s.len(),
        forall|i: int| 0 <= i < s.len() ==> #[trigger] toks_of(s)[i] == tok_of(s[i]),
    decreases s.len(),
{
    if s.len() > 0 {
        lemma_toks_of_index(s.drop_last());
    }
}

pub proof fn lemma_items_of_index(s: Seq<TokenList>)
    ensures
        items_of(s).len() == s.len(),
        forall|i: int| 0 <= i < s.len() ==> #[trigger] items_of(s)[i] == toks_of(s[i].0@),
    decreases s.len(),
{
    if s.len() > 0 {
        lemma_items_of_index(s.drop_last());
    }
}

/// `toks_of` is taken element by element.
pub proof fn lemma_toks_of_ext(a: Seq<Token>, b: Seq<Tok>)
    requires
        a.len() == b.len(),
        forall|i: int| 0 <= i < a.len() ==> tok_of(a[i]) == b[i],
    ensures
        toks_of(a) == b,
{
    lemma_toks_of_index(a);
    assert(toks_of(a) =~= b);
}

impl TokenList {
    /// An empty list.
    pub fn new() -> (r: TokenList)
        ensures
            r@ == Seq::<Tok>::empty(),
    {
        TokenList(Vec::new())
    }

    /// Adds `token` at the end.
    pub fn push(&mut self, token: Token)
        ensures
            final(self).0@ == old(self).0@.push(token),
            final(self)@ == old(self)@.push(token@),
    {
        let ghost before = self.0@;
        self.0.push(token);
        proof {
            lemma_toks_of_index(before);
            lemma_toks_of_ext(self.0@, toks_of(before).push(token@));
        }
    }

    /// Adds the nodes of `other` at the end, in order.
    pub fn extend(&mut self, other: TokenList)
        ensures
            final(self).0@ == old(self).0@ + other.0@,
            final(self)@ == old(self)@ + other@,
    {
        let ghost before = self.0@;
        let ghost added = other.0@;
        let mut other = other;
        self.0.append(&mut other.0);
        proof {
            lemma_toks_of_index(before);
            lemma_toks_of_index(added);
            lemma_toks_of_ext(self.0@, toks_of(before) + toks_of(added));
        }
    }
}

} // verus!
