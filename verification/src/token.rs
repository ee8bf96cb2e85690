//! Token trees: the form in which a model description reaches the parser and
//! in which the generated module leaves the generator.

use crate::syntax::push_char;
use vstd::prelude::*;
use vstd::string::StringExecFns;

verus! {

/// Where a token starts in its source: line and column, both counted by the lexer
/// that produced the token. Generated tokens carry the span of the token they
/// were made for.
#[derive(Clone, Copy, Debug, PartialEq, Eq, Structural)]
pub struct Span {
    pub line: usize,
    pub column: usize,
}

/// The brackets of a group. An `Invisible` group has none in the source: it
/// keeps its tokens together as one operand.
#[derive(Clone, Copy, Debug, PartialEq, Eq, Structural)]
pub enum Delimiter {
    Parenthesis,
    Brace,
    Bracket,
    Invisible,
}

/// One token tree.
#[derive(Debug, PartialEq, Eq)]
pub enum Token {
    /// A word: an identifier or a keyword.
    Ident { name: String, span: Span },
    /// One punctuation character. `joint` says that the next token follows it
    /// without a gap, as the first `&` of `&&` does.
    Punct { ch: char, joint: bool, span: Span },
    /// A literal, as written.
    Literal { text: String, span: Span },
    /// A bracketed sequence of token trees.
    Group { delimiter: Delimiter, stream: Vec<Token>, span: Span },
}

/// The mathematical value of a [`Token`].
pub enum TokenView {
    Ident { name: Seq<char>, span: Span },
    Punct { ch: char, joint: bool, span: Span },
    Literal { text: Seq<char>, span: Span },
    Group { delimiter: Delimiter, stream: Seq<TokenView>, span: Span },
}

/// The value of a token tree.
pub open spec fn token_view(t: Token) -> TokenView
    decreases t, 0int,
{
    match t {
        Token::Ident { name, span } => TokenView::Ident { name: name@, span },
        Token::Punct { ch, joint, span } => TokenView::Punct { ch, joint, span },
        Token::Literal { text, span } => TokenView::Literal { text: text@, span },
        Token::Group { delimiter, stream, span } => TokenView::Group {
            delimiter,
            stream: tokens_view(stream@),
            span,
        },
    }
}

/// The values of a sequence of token trees, in order.
pub open spec fn tokens_view(s: Seq<Token>) -> Seq<TokenView>
    decreases s, 1int,
{
    Seq::new(s.len(), |i: int| if 0 <= i < s.len() { token_view(s[i]) } else { arbitrary() })
}

impl View for Token {
    type V = TokenView;

    open spec fn view(&self) -> TokenView {
        token_view(*self)
    }
}

impl Token {
    /// Where the token starts.
    pub fn span(&self) -> (span: Span)
        ensures
            span == spec_span(self@),
    {
        match self {
            Token::Ident { span, .. } => *span,
            Token::Punct { span, .. } => *span,
            Token::Literal { span, .. } => *span,
            Token::Group { span, .. } => *span,
        }
    }

    /// A copy of the token tree, with the same value.
    pub fn duplicate(&self) -> (copy: Token)
        ensures
            copy@ == self@,
        decreases self, 0int,
    {
        match self {
            Token::Ident { name, span } => Token::Ident { name: name.clone(), span: *span },
            Token::Punct { ch, joint, span } => Token::Punct { ch: *ch, joint: *joint, span: *span },
            Token::Literal { text, span } => Token::Literal { text: text.clone(), span: *span },
            Token::Group { delimiter, stream, span } => Token::Group {
                delimiter: *delimiter,
                stream: duplicate_tokens(stream),
                span: *span,
            },
        }
    }
}

/// Where a token starts.
pub open spec fn spec_span(t: TokenView) -> Span {
    match t {
        TokenView::Ident { span, .. } => span,
        TokenView::Punct { span, .. } => span,
        TokenView::Literal { span, .. } => span,
        TokenView::Group { span, .. } => span,
    }
}

/// A copy of a sequence of token trees, with the same values in the same order.
pub fn duplicate_tokens(tokens: &Vec<Token>) -> (copy: Vec<Token>)
    ensures
        tokens_view(copy@) == tokens_view(tokens@),
    decreases tokens, 1int,
{
    let mut copy: Vec<Token> = Vec::new();
    let mut i: usize = 0;
    while i < tokens.len()
        invariant
            i <= tokens.len(),
            copy.len() == i,
            forall|j: int| 0 <= j < i ==> copy[j]@ == tokens[j]@,
        decreases tokens.len() - i,
    {
        copy.push(tokens[i].duplicate());
        i += 1;
    }
    assert(tokens_view(copy@) =~= tokens_view(tokens@));
    copy
}

/// The opening bracket of a group, as text. An invisible group is written with
/// parentheses: text has no other way to keep its tokens together.
pub open spec fn delimiter_open(d: Delimiter) -> Seq<char> {
    match d {
        Delimiter::Parenthesis => "("@,
        Delimiter::Brace => "{"@,
        Delimiter::Bracket => "["@,
        Delimiter::Invisible => "("@,
    }
}

/// The closing bracket of a group, as text.
pub open spec fn delimiter_close(d: Delimiter) -> Seq<char> {
    match d {
        Delimiter::Parenthesis => ")"@,
        Delimiter::Brace => "}"@,
        Delimiter::Bracket => "]"@,
        Delimiter::Invisible => ")"@,
    }
}

/// One token tree as text. A space follows every token but a joint
/// punctuation character: the gaps of the text are the gaps of the tokens.
pub open spec fn render_token(t: TokenView) -> Seq<char>
    decreases t, 0int,
{
    match t {
        TokenView::Ident { name, .. } => name + " "@,
        TokenView::Punct { ch, joint, .. } => if joint {
            seq![ch]
        } else {
            seq![ch] + " "@
        },
        TokenView::Literal { text, .. } => text + " "@,
        TokenView::Group { delimiter, stream, .. } => delimiter_open(delimiter) + " "@
            + render_tokens(stream) + delimiter_close(delimiter) + " "@,
    }
}

/// A sequence of token trees as text: the texts of its trees, in order.
pub open spec fn render_tokens(s: Seq<TokenView>) -> Seq<char>
    decreases s, 1int,
{
    if s.len() == 0 {
        Seq::empty()
    } else {
        render_tokens(s.drop_last()) + render_token(s.last())
    }
}

/// The text of a sequence grows by the text of each tree added at its end.
pub proof fn lemma_render_step(s: Seq<TokenView>, i: int)
    requires
        0 <= i < s.len(),
    ensures
        render_tokens(s.take(i + 1)) == render_tokens(s.take(i)) + render_token(s[i]),
{
    assert(s.take(i + 1).drop_last() =~= s.take(i));
}

fn delimiter_open_text(d: Delimiter) -> (text: &'static str)
    ensures
        text@ == delimiter_open(d),
{
    match d {
        Delimiter::Parenthesis => "(",
        Delimiter::Brace => "{",
        Delimiter::Bracket => "[",
        Delimiter::Invisible => "(",
    }
}

fn delimiter_close_text(d: Delimiter) -> (text: &'static str)
    ensures
        text@ == delimiter_close(d),
{
    match d {
        Delimiter::Parenthesis => ")",
        Delimiter::Brace => "}",
        Delimiter::Bracket => "]",
        Delimiter::Invisible => ")",
    }
}

/// Appends the text of one token tree to `out`.
pub fn render_token_into(out: &mut String, token: &Token)
    ensures
        final(out)@ == old(out)@ + render_token(token@),
    decreases token, 0int,
{
    match token {
        Token::Ident { name, .. } => {
            out.append(name.as_str());
            out.append(" ");
        },
        Token::Punct { ch, joint, .. } => {
            push_char(out, *ch);
            if !*joint {
                out.append(" ");
            }
        },
        Token::Literal { text, .. } => {
            out.append(text.as_str());
            out.append(" ");
        },
        Token::Group { delimiter, stream, .. } => {
            out.append(delimiter_open_text(*delimiter));
            out.append(" ");
            render_into(out, stream);
            out.append(delimiter_close_text(*delimiter));
            out.append(" ");
        },
    }
    assert(out@ =~= old(out)@ + render_token(token@));
}

/// Appends the text of a sequence of token trees to `out`.
pub fn render_into(out: &mut String, tokens: &Vec<Token>)
    ensures
        final(out)@ == old(out)@ + render_tokens(tokens_view(tokens@)),
    decreases tokens, 1int,
{
    let ghost all = tokens_view(tokens@);
    let mut i: usize = 0;
    assert(all.take(0) =~= Seq::empty());
    while i < tokens.len()
        invariant
            i <= tokens.len(),
            all == tokens_view(tokens@),
            out@ == old(out)@ + render_tokens(all.take(i as int)),
        decreases tokens.len() - i,
    {
        proof {
            lemma_render_step(all, i as int);
        }
        render_token_into(out, &tokens[i]);
        assert(out@ =~= old(out)@ + render_tokens(all.take(i + 1)));
        i += 1;
    }
    assert(all.take(tokens.len() as int) =~= all);
}

/// The text of a sequence of token trees.
pub fn render(tokens: &Vec<Token>) -> (text: String)
    ensures
        text@ == render_tokens(tokens_view(tokens@)),
{
    let mut text = String::new();
    render_into(&mut text, tokens);
    assert(text@ =~= render_tokens(tokens_view(tokens@)));
    text
}

} // verus!
