//! The parser: from the tokens of a model description to its syntax tree.

use crate::syntax::{
    expression_rest, is_identifier, spec_expression_rest, spec_is_identifier,
};
use crate::token::{
    duplicate_tokens, render, render_token, render_tokens, spec_span, tokens_view, Span, Token,
    TokenView,
};
use vstd::prelude::*;
use vstd::string::StringExecFns;

verus! {

/// A name as it stands in the description, with the place where it stands.
#[derive(Debug, PartialEq, Eq)]
pub struct Ident {
    pub name: String,
    pub span: Span,
}

/// The mathematical value of an [`Ident`].
pub struct IdentView {
    pub name: Seq<char>,
    pub span: Span,
}

impl View for Ident {
    type V = IdentView;

    open spec fn view(&self) -> IdentView {
        IdentView { name: self.name@, span: self.span }
    }
}

impl Ident {
    /// A copy of the name, with the same value.
    pub fn duplicate(&self) -> (copy: Ident)
        ensures
            copy@ == self@,
    {
        Ident { name: self.name.clone(), span: self.span }
    }
}

/// One declaration `let name : type ~ expression ;`.
#[derive(Debug, PartialEq, Eq)]
pub struct StmtAst {
    pub var_ident: Ident,
    pub type_ident: Ident,
    pub dependency: Vec<Token>,
}

/// The mathematical value of a [`StmtAst`].
pub struct StmtAstView {
    pub var_ident: IdentView,
    pub type_ident: IdentView,
    pub dependency: Seq<TokenView>,
}

impl View for StmtAst {
    type V = StmtAstView;

    open spec fn view(&self) -> StmtAstView {
        StmtAstView {
            var_ident: self.var_ident@,
            type_ident: self.type_ident@,
            dependency: tokens_view(self.dependency@),
        }
    }
}

/// The syntax tree of a model description: its name, what it imports, its
/// declarations, and the names it queries and observes, each list in the order
/// of the description.
#[derive(Debug, PartialEq, Eq)]
pub struct ModelAst {
    pub model_ident: Ident,
    pub use_exprs: Vec<Vec<Token>>,
    pub stmts: Vec<StmtAst>,
    pub queries: Vec<Ident>,
    pub observes: Vec<Ident>,
}

/// The mathematical value of a [`ModelAst`].
pub struct ModelAstView {
    pub model_ident: IdentView,
    pub use_exprs: Seq<Seq<TokenView>>,
    pub stmts: Seq<StmtAstView>,
    pub queries: Seq<IdentView>,
    pub observes: Seq<IdentView>,
}

/// The values of a sequence of names, in order.
pub open spec fn idents_view(s: Seq<Ident>) -> Seq<IdentView> {
    Seq::new(s.len(), |i: int| s[i]@)
}

/// The values of a sequence of declarations, in order.
pub open spec fn stmts_view(s: Seq<StmtAst>) -> Seq<StmtAstView> {
    Seq::new(s.len(), |i: int| s[i]@)
}

/// The values of a sequence of token sequences, in order.
pub open spec fn streams_view(s: Seq<Vec<Token>>) -> Seq<Seq<TokenView>> {
    Seq::new(s.len(), |i: int| tokens_view(s[i]@))
}

impl View for ModelAst {
    type V = ModelAstView;

    open spec fn view(&self) -> ModelAstView {
        ModelAstView {
            model_ident: self.model_ident@,
            use_exprs: streams_view(self.use_exprs@),
            stmts: stmts_view(self.stmts@),
            queries: idents_view(self.queries@),
            observes: idents_view(self.observes@),
        }
    }
}

/// A copy of a sequence of token sequences, with the same values.
pub fn duplicate_streams(streams: &Vec<Vec<Token>>) -> (copy: Vec<Vec<Token>>)
    ensures
        streams_view(copy@) == streams_view(streams@),
{
    let mut copy: Vec<Vec<Token>> = Vec::new();
    let mut i: usize = 0;
    while i < streams.len()
        invariant
            i <= streams.len(),
            copy.len() == i,
            forall|j: int| 0 <= j < i ==> tokens_view(copy[j]@) == tokens_view(streams[j]@),
        decreases streams.len() - i,
    {
        copy.push(duplicate_tokens(&streams[i]));
        i += 1;
    }
    assert(streams_view(copy@) =~= streams_view(streams@));
    copy
}

/// What the parser looked for where it stopped.
#[derive(Clone, Copy, Debug, PartialEq, Eq, Structural)]
pub enum Expected {
    /// The word `mod` that opens a description.
    Mod,
    /// A name: a word that is an identifier of the host language.
    Identifier,
    /// The `;` that closes a statement.
    Semicolon,
    /// The `:` between a variable and its type.
    Colon,
    /// The `~` between a type and the dependency expression.
    Tilde,
    /// An expression of the host language.
    Expression,
    /// One of the words that open a statement: `let`, `use`, `observe`, `query`.
    Item,
}

/// Why a sequence of tokens is no model description: the place of the
/// offending token, and what was expected there. Where the tokens end too
/// early, the place is that of the last token.
#[derive(Clone, Copy, Debug, PartialEq, Eq, Structural)]
pub struct SyntaxError {
    pub span: Span,
    pub expected: Expected,
}

/// The message of a syntax error.
pub open spec fn expectation_text(expected: Expected) -> Seq<char> {
    match expected {
        Expected::Mod => "expected `mod`"@,
        Expected::Identifier => "expected identifier"@,
        Expected::Semicolon => "expected `;`"@,
        Expected::Colon => "expected `:`"@,
        Expected::Tilde => "expected `~`"@,
        Expected::Expression => "expected expression"@,
        Expected::Item => "expected let | use | observe | query"@,
    }
}

impl SyntaxError {
    /// The message of the error: what was expected.
    pub fn message(&self) -> (text: String)
        ensures
            text@ == expectation_text(self.expected),
    {
        match self.expected {
            Expected::Mod => String::from_str("expected `mod`"),
            Expected::Identifier => String::from_str("expected identifier"),
            Expected::Semicolon => String::from_str("expected `;`"),
            Expected::Colon => String::from_str("expected `:`"),
            Expected::Tilde => String::from_str("expected `~`"),
            Expected::Expression => String::from_str("expected expression"),
            Expected::Item => String::from_str("expected let | use | observe | query"),
        }
    }
}

/// One statement of a description, after the header.
pub enum ItemView {
    Let { stmt: StmtAstView },
    Use { expr: Seq<TokenView> },
    Query { ident: IdentView },
    Observe { ident: IdentView },
}

/// Whether the token is the word `word`.
pub open spec fn is_word(t: TokenView, word: Seq<char>) -> bool {
    t matches TokenView::Ident { name, .. } && name == word
}

/// Whether the token is the punctuation character `ch`.
pub open spec fn is_punct(t: TokenView, ch: char) -> bool {
    t matches TokenView::Punct { ch: c, .. } && c == ch
}

/// The place that an error at position `pos` reports: that of the token
/// there, or of the last token where the tokens have ended.
pub open spec fn span_at(tokens: Seq<TokenView>, pos: int) -> Span {
    if 0 <= pos < tokens.len() {
        spec_span(tokens[pos])
    } else if tokens.len() > 0 {
        spec_span(tokens.last())
    } else {
        Span { line: 0, column: 0 }
    }
}

/// The error at position `pos`.
pub open spec fn error_at(tokens: Seq<TokenView>, pos: int, expected: Expected) -> SyntaxError {
    SyntaxError { span: span_at(tokens, pos), expected }
}

/// The name at position `pos`: the token there must be a word that the host
/// language takes for an identifier.
pub open spec fn name_at(tokens: Seq<TokenView>, pos: int) -> Result<IdentView, SyntaxError> {
    if 0 <= pos < tokens.len() {
        match tokens[pos] {
            TokenView::Ident { name, span } => if spec_is_identifier(name) {
                Ok(IdentView { name, span })
            } else {
                Err(error_at(tokens, pos, Expected::Identifier))
            },
            _ => Err(error_at(tokens, pos, Expected::Identifier)),
        }
    } else {
        Err(error_at(tokens, pos, Expected::Identifier))
    }
}

/// The position of the first `;` at or after `pos`, outside all brackets; the
/// number of tokens where there is none.
pub open spec fn semicolon_from(tokens: Seq<TokenView>, pos: int) -> int
    decreases tokens.len() - pos,
{
    if pos < 0 || pos >= tokens.len() {
        tokens.len() as int
    } else if is_punct(tokens[pos], ';') {
        pos
    } else {
        semicolon_from(tokens, pos + 1)
    }
}

/// The expression that starts at position `pos`, given how far the host
/// language gets in the statement: `stop` is the position of the `;` that
/// ends the statement (the number of tokens where there is none), and `rest`
/// says whether the host language finds an expression at the start of the
/// statement's tokens, and how many of them, the `;` among them, it leaves
/// where it ends or gives up.
///
/// Where the host language finds no expression, an expression is expected at
/// the token, outside all brackets, where it gives up: at the first token of
/// the statement where it does not say, or takes none. Where the expression
/// ends before the `;`, or there is no `;`, a `;` is expected at the first
/// token after the expression. The result holds the position after the `;`.
pub open spec fn accepted_expression(
    tokens: Seq<TokenView>,
    pos: int,
    stop: int,
    rest: Option<(bool, usize)>,
) -> Result<(Seq<TokenView>, int), SyntaxError> {
    let upto = if stop < tokens.len() {
        stop + 1
    } else {
        tokens.len() as int
    };
    match rest {
        None => Err(error_at(tokens, pos, Expected::Expression)),
        Some((found, left)) => if left > upto - pos {
            Err(error_at(tokens, pos, Expected::Expression))
        } else if !found || left == upto - pos {
            Err(error_at(tokens, upto - left, Expected::Expression))
        } else if stop < tokens.len() && upto - left == stop {
            Ok((tokens.subrange(pos, stop), stop + 1))
        } else {
            Err(error_at(tokens, upto - left, Expected::Semicolon))
        },
    }
}

/// The expression that starts at position `pos`: the tokens of the statement,
/// up to its `;`, are written out, and the host language says where the
/// expression ends that they start with.
pub open spec fn expression_at(tokens: Seq<TokenView>, pos: int) -> Result<
    (Seq<TokenView>, int),
    SyntaxError,
> {
    let stop = semicolon_from(tokens, pos);
    let upto = if stop < tokens.len() {
        stop + 1
    } else {
        tokens.len() as int
    };
    accepted_expression(
        tokens,
        pos,
        stop,
        spec_expression_rest(render_tokens(tokens.subrange(pos, upto))),
    )
}

/// The statement `word name ;` whose first word stands at position `pos`: the
/// name, and the position after the `;`.
pub open spec fn reference_at(tokens: Seq<TokenView>, pos: int) -> Result<
    (IdentView, int),
    SyntaxError,
> {
    match name_at(tokens, pos + 1) {
        Err(e) => Err(e),
        Ok(ident) => if pos + 2 < tokens.len() && is_punct(tokens[pos + 2], ';') {
            Ok((ident, pos + 3))
        } else {
            Err(error_at(tokens, pos + 2, Expected::Semicolon))
        },
    }
}

/// The declaration whose `let` stands at position `pos`, and the position
/// after its `;`.
pub open spec fn declaration_at(tokens: Seq<TokenView>, pos: int) -> Result<
    (StmtAstView, int),
    SyntaxError,
> {
    match name_at(tokens, pos + 1) {
        Err(e) => Err(e),
        Ok(var_ident) => if !(pos + 2 < tokens.len() && is_punct(tokens[pos + 2], ':')) {
            Err(error_at(tokens, pos + 2, Expected::Colon))
        } else {
            match name_at(tokens, pos + 3) {
                Err(e) => Err(e),
                Ok(type_ident) => if !(pos + 4 < tokens.len() && is_punct(tokens[pos + 4], '~')) {
                    Err(error_at(tokens, pos + 4, Expected::Tilde))
                } else {
                    match expression_at(tokens, pos + 5) {
                        Err(e) => Err(e),
                        Ok((dependency, next)) => Ok(
                            (StmtAstView { var_ident, type_ident, dependency }, next),
                        ),
                    }
                },
            }
        },
    }
}

/// The statement that starts at position `pos`, where a token stands, and the
/// position after it. Its first token says which statement it is; any other
/// token there is an error.
pub open spec fn item_at(tokens: Seq<TokenView>, pos: int) -> Result<(ItemView, int), SyntaxError> {
    let first = tokens[pos];
    if is_word(first, "let"@) {
        match declaration_at(tokens, pos) {
            Err(e) => Err(e),
            Ok((stmt, next)) => Ok((ItemView::Let { stmt }, next)),
        }
    } else if is_word(first, "use"@) {
        match expression_at(tokens, pos + 1) {
            Err(e) => Err(e),
            Ok((expr, next)) => Ok((ItemView::Use { expr }, next)),
        }
    } else if is_word(first, "observe"@) {
        match reference_at(tokens, pos) {
            Err(e) => Err(e),
            Ok((ident, next)) => Ok((ItemView::Observe { ident }, next)),
        }
    } else if is_word(first, "query"@) {
        match reference_at(tokens, pos) {
            Err(e) => Err(e),
            Ok((ident, next)) => Ok((ItemView::Query { ident }, next)),
        }
    } else {
        Err(error_at(tokens, pos, Expected::Item))
    }
}

/// The tree `ast` with one more statement at the end of its list.
pub open spec fn with_item(ast: ModelAstView, item: ItemView) -> ModelAstView {
    match item {
        ItemView::Let { stmt } => ModelAstView { stmts: ast.stmts.push(stmt), ..ast },
        ItemView::Use { expr } => ModelAstView { use_exprs: ast.use_exprs.push(expr), ..ast },
        ItemView::Query { ident } => ModelAstView { queries: ast.queries.push(ident), ..ast },
        ItemView::Observe { ident } => ModelAstView { observes: ast.observes.push(ident), ..ast },
    }
}

/// Where the parser looks for the `;` of a statement, it looks ahead.
pub proof fn lemma_semicolon_ahead(tokens: Seq<TokenView>, pos: int)
    requires
        0 <= pos <= tokens.len(),
    ensures
        pos <= semicolon_from(tokens, pos) <= tokens.len(),
    decreases tokens.len() - pos,
{
    if pos < tokens.len() && !is_punct(tokens[pos], ';') {
        lemma_semicolon_ahead(tokens, pos + 1);
    }
}

/// A statement that is parsed takes tokens: the position after it lies
/// beyond the position where it starts, and within the tokens.
pub proof fn lemma_item_advances(tokens: Seq<TokenView>, pos: int)
    requires
        0 <= pos < tokens.len(),
    ensures
        item_at(tokens, pos) matches Ok((_, next)) ==> pos < next <= tokens.len(),
{
    if pos + 5 <= tokens.len() {
        lemma_semicolon_ahead(tokens, pos + 5);
    }
    lemma_semicolon_ahead(tokens, pos + 1);
}

/// The tree of the statements from position `pos` on, added to `ast` one by
/// one; the first error ends it.
pub open spec fn items_from(tokens: Seq<TokenView>, pos: int, ast: ModelAstView) -> Result<
    ModelAstView,
    SyntaxError,
>
    decreases tokens.len() - pos,
{
    if pos < 0 || pos >= tokens.len() {
        Ok(ast)
    } else {
        match item_at(tokens, pos) {
            Err(e) => Err(e),
            Ok((item, next)) => {
                proof {
                    lemma_item_advances(tokens, pos);
                }
                items_from(tokens, next, with_item(ast, item))
            },
        }
    }
}

/// The header `mod name ;` of a description: the name of the model.
pub open spec fn header_of(tokens: Seq<TokenView>) -> Result<IdentView, SyntaxError> {
    if !(0 < tokens.len() && is_word(tokens[0], "mod"@)) {
        Err(error_at(tokens, 0, Expected::Mod))
    } else {
        match name_at(tokens, 1) {
            Err(e) => Err(e),
            Ok(ident) => if 2 < tokens.len() && is_punct(tokens[2], ';') {
                Ok(ident)
            } else {
                Err(error_at(tokens, 2, Expected::Semicolon))
            },
        }
    }
}

/// The syntax tree of a description, or the first error in it.
///
/// A description is `mod name ;` and then any number of statements
/// `use expression ;`, `let name : type ~ expression ;`, `query name ;` and
/// `observe name ;`, in any order. The tree holds each kind of statement in
/// the order of the description.
pub open spec fn parse_spec(tokens: Seq<TokenView>) -> Result<ModelAstView, SyntaxError> {
    match header_of(tokens) {
        Err(e) => Err(e),
        Ok(model_ident) => items_from(
            tokens,
            3,
            ModelAstView {
                model_ident,
                use_exprs: Seq::empty(),
                stmts: Seq::empty(),
                queries: Seq::empty(),
                observes: Seq::empty(),
            },
        ),
    }
}

/// The value of the outcome of a parse.
pub open spec fn parse_view(r: Result<ModelAst, SyntaxError>) -> Result<ModelAstView, SyntaxError> {
    match r {
        Ok(ast) => Ok(ast@),
        Err(e) => Err(e),
    }
}

fn word_at(tokens: &Vec<Token>, pos: usize, word: &str) -> (found: bool)
    ensures
        found == (pos < tokens.len() && is_word(tokens_view(tokens@)[pos as int], word@)),
{
    if pos >= tokens.len() {
        return false;
    }
    match &tokens[pos] {
        Token::Ident { name, .. } => *name == String::from_str(word),
        _ => false,
    }
}

fn punct_at(tokens: &Vec<Token>, pos: usize, ch: char) -> (found: bool)
    ensures
        found == (pos < tokens.len() && is_punct(tokens_view(tokens@)[pos as int], ch)),
{
    if pos >= tokens.len() {
        return false;
    }
    match &tokens[pos] {
        Token::Punct { ch: c, .. } => *c == ch,
        _ => false,
    }
}

fn make_error(tokens: &Vec<Token>, pos: usize, expected: Expected) -> (error: SyntaxError)
    ensures
        error == error_at(tokens_view(tokens@), pos as int, expected),
{
    let span = if pos < tokens.len() {
        tokens[pos].span()
    } else if tokens.len() > 0 {
        tokens[tokens.len() - 1].span()
    } else {
        Span { line: 0, column: 0 }
    };
    SyntaxError { span, expected }
}

impl Ident {
    /// The name that a token gives, `verdict` being what the host language
    /// says of the token's text: a word gives its name where the verdict is
    /// that it is an identifier; no other token gives one.
    pub fn from_token(token: &Token, verdict: bool) -> (ident: Option<Ident>)
        ensures
            match token@ {
                TokenView::Ident { name, span } => if verdict {
                    ident matches Some(i) && i@ == (IdentView { name, span })
                } else {
                    ident is None
                },
                _ => ident is None,
            },
    {
        match token {
            Token::Ident { name, span } => if verdict {
                Some(Ident { name: name.clone(), span: *span })
            } else {
                None
            },
            _ => None,
        }
    }
}

fn expect_name(tokens: &Vec<Token>, pos: usize) -> (outcome: Result<Ident, SyntaxError>)
    ensures
        match name_at(tokens_view(tokens@), pos as int) {
            Ok(ident) => outcome matches Ok(i) && i@ == ident,
            Err(e) => outcome == Err::<Ident, SyntaxError>(e),
        },
{
    if pos < tokens.len() {
        let verdict = match &tokens[pos] {
            Token::Ident { name, .. } => is_identifier(name.as_str()),
            _ => false,
        };
        if let Some(ident) = Ident::from_token(&tokens[pos], verdict) {
            return Ok(ident);
        }
    }
    Err(make_error(tokens, pos, Expected::Identifier))
}

fn find_semicolon(tokens: &Vec<Token>, pos: usize) -> (end: usize)
    ensures
        end == semicolon_from(tokens_view(tokens@), pos as int),
        pos <= end <= tokens.len() || (pos > tokens.len() && end == tokens.len()),
{
    let mut i: usize = pos;
    while i < tokens.len() && !punct_at(tokens, i, ';')
        invariant
            pos <= i,
            i <= tokens.len() || i == pos,
            semicolon_from(tokens_view(tokens@), pos as int) == semicolon_from(
                tokens_view(tokens@),
                i as int,
            ),
        decreases tokens.len() - i,
    {
        i += 1;
    }
    if i < tokens.len() {
        i
    } else {
        tokens.len()
    }
}

fn slice_tokens(tokens: &Vec<Token>, start: usize, end: usize) -> (part: Vec<Token>)
    requires
        start <= end <= tokens.len(),
    ensures
        tokens_view(part@) == tokens_view(tokens@).subrange(start as int, end as int),
{
    let mut part: Vec<Token> = Vec::new();
    let mut i: usize = start;
    while i < end
        invariant
            start <= i <= end <= tokens.len(),
            part.len() == i - start,
            forall|j: int| 0 <= j < part.len() ==> part[j]@ == tokens[start + j]@,
        decreases end - i,
    {
        part.push(tokens[i].duplicate());
        i += 1;
    }
    assert(tokens_view(part@) =~= tokens_view(tokens@).subrange(start as int, end as int));
    part
}

/// The expression of the statement whose `;` stands at `stop` (the number of
/// tokens where it has none), `rest` being how far the host language says it
/// gets in the statement's tokens.
pub fn accept_expression(
    tokens: &Vec<Token>,
    pos: usize,
    stop: usize,
    rest: Option<(bool, usize)>,
) -> (outcome: Result<(Vec<Token>, usize), SyntaxError>)
    requires
        pos <= stop <= tokens.len(),
    ensures
        match accepted_expression(tokens_view(tokens@), pos as int, stop as int, rest) {
            Ok((body, next)) => outcome matches Ok((b, n)) && tokens_view(b@) == body && n == next
                && pos < n <= tokens.len(),
            Err(e) => outcome == Err::<(Vec<Token>, usize), SyntaxError>(e),
        },
{
    let upto = if stop < tokens.len() {
        stop + 1
    } else {
        tokens.len()
    };
    match rest {
        None => Err(make_error(tokens, pos, Expected::Expression)),
        Some((found, left)) => if left > upto - pos {
            Err(make_error(tokens, pos, Expected::Expression))
        } else if !found || left == upto - pos {
            Err(make_error(tokens, upto - left, Expected::Expression))
        } else if stop < tokens.len() && upto - left == stop {
            Ok((slice_tokens(tokens, pos, stop), stop + 1))
        } else {
            Err(make_error(tokens, upto - left, Expected::Semicolon))
        },
    }
}

fn expect_expression(tokens: &Vec<Token>, pos: usize) -> (outcome: Result<
    (Vec<Token>, usize),
    SyntaxError,
>)
    requires
        pos <= tokens.len(),
    ensures
        match expression_at(tokens_view(tokens@), pos as int) {
            Ok((body, next)) => outcome matches Ok((b, n)) && tokens_view(b@) == body && n == next
                && pos < n <= tokens.len(),
            Err(e) => outcome == Err::<(Vec<Token>, usize), SyntaxError>(e),
        },
{
    let stop = find_semicolon(tokens, pos);
    let upto = if stop < tokens.len() {
        stop + 1
    } else {
        tokens.len()
    };
    let statement = slice_tokens(tokens, pos, upto);
    let text = render(&statement);
    let rest = expression_rest(text.as_str());
    accept_expression(tokens, pos, stop, rest)
}

fn expect_reference(tokens: &Vec<Token>, pos: usize) -> (outcome: Result<(Ident, usize), SyntaxError>)
    requires
        pos < tokens.len(),
    ensures
        match reference_at(tokens_view(tokens@), pos as int) {
            Ok((ident, next)) => outcome matches Ok((i, n)) && i@ == ident && n == next && pos < n
                <= tokens.len(),
            Err(e) => outcome == Err::<(Ident, usize), SyntaxError>(e),
        },
{
    let ident = match expect_name(tokens, pos + 1) {
        Ok(ident) => ident,
        Err(e) => { return Err(e); },
    };
    if !punct_at(tokens, pos + 2, ';') {
        return Err(make_error(tokens, pos + 2, Expected::Semicolon));
    }
    Ok((ident, pos + 3))
}

fn expect_declaration(tokens: &Vec<Token>, pos: usize) -> (outcome: Result<
    (StmtAst, usize),
    SyntaxError,
>)
    requires
        pos < tokens.len(),
    ensures
        match declaration_at(tokens_view(tokens@), pos as int) {
            Ok((stmt, next)) => outcome matches Ok((s, n)) && s@ == stmt && n == next && pos < n
                <= tokens.len(),
            Err(e) => outcome == Err::<(StmtAst, usize), SyntaxError>(e),
        },
{
    let var_ident = match expect_name(tokens, pos + 1) {
        Ok(ident) => ident,
        Err(e) => { return Err(e); },
    };
    if !punct_at(tokens, pos + 2, ':') {
        return Err(make_error(tokens, pos + 2, Expected::Colon));
    }
    let type_ident = match expect_name(tokens, pos + 3) {
        Ok(ident) => ident,
        Err(e) => { return Err(e); },
    };
    if !punct_at(tokens, pos + 4, '~') {
        return Err(make_error(tokens, pos + 4, Expected::Tilde));
    }
    match expect_expression(tokens, pos + 5) {
        Ok((dependency, next)) => Ok((StmtAst { var_ident, type_ident, dependency }, next)),
        Err(e) => Err(e),
    }
}

fn expect_header(tokens: &Vec<Token>) -> (outcome: Result<Ident, SyntaxError>)
    ensures
        match header_of(tokens_view(tokens@)) {
            Ok(ident) => outcome matches Ok(i) && i@ == ident && 3 <= tokens.len(),
            Err(e) => outcome == Err::<Ident, SyntaxError>(e),
        },
{
    if !word_at(tokens, 0, "mod") {
        return Err(make_error(tokens, 0, Expected::Mod));
    }
    let ident = match expect_name(tokens, 1) {
        Ok(ident) => ident,
        Err(e) => { return Err(e); },
    };
    if !punct_at(tokens, 2, ';') {
        return Err(make_error(tokens, 2, Expected::Semicolon));
    }
    Ok(ident)
}

impl ModelAst {
    /// Parses a model description. The outcome is the syntax tree that the
    /// grammar gives the tokens, or the first error in them: nothing is
    /// skipped and nothing is repaired.
    pub fn parse(input: &Vec<Token>) -> (outcome: Result<ModelAst, SyntaxError>)
        ensures
            parse_view(outcome) == parse_spec(tokens_view(input@)),
    {
        let model_ident = match expect_header(input) {
            Ok(ident) => ident,
            Err(e) => { return Err(e); },
        };
        let mut ast = ModelAst {
            model_ident,
            use_exprs: Vec::new(),
            stmts: Vec::new(),
            queries: Vec::new(),
            observes: Vec::new(),
        };
        let ghost tokens = tokens_view(input@);
        assert(ast@.use_exprs =~= Seq::empty() && ast@.stmts =~= Seq::empty() && ast@.queries
            =~= Seq::empty() && ast@.observes =~= Seq::empty());
        let mut pos: usize = 3;
        while pos < input.len()
            invariant
                3 <= pos <= input.len(),
                tokens == tokens_view(input@),
                parse_spec(tokens) == items_from(tokens, pos as int, ast@),
            decreases input.len() - pos,
        {
            let ghost before = ast@;
            if word_at(input, pos, "let") {
                match expect_declaration(input, pos) {
                    Ok((stmt, next)) => {
                        ast.stmts.push(stmt);
                        assert(ast@.stmts =~= before.stmts.push(stmt@));
                        assert(ast@ == with_item(before, ItemView::Let { stmt: stmt@ }));
                        pos = next;
                    },
                    Err(e) => { return Err(e); },
                }
            } else if word_at(input, pos, "use") {
                match expect_expression(input, pos + 1) {
                    Ok((expr, next)) => {
                        let ghost view = tokens_view(expr@);
                        ast.use_exprs.push(expr);
                        assert(ast@.use_exprs =~= before.use_exprs.push(view));
                        assert(ast@ == with_item(before, ItemView::Use { expr: view }));
                        pos = next;
                    },
                    Err(e) => { return Err(e); },
                }
            } else if word_at(input, pos, "observe") {
                match expect_reference(input, pos) {
                    Ok((ident, next)) => {
                        ast.observes.push(ident);
                        assert(ast@.observes =~= before.observes.push(ident@));
                        assert(ast@ == with_item(before, ItemView::Observe { ident: ident@ }));
                        pos = next;
                    },
                    Err(e) => { return Err(e); },
                }
            } else if word_at(input, pos, "query") {
                match expect_reference(input, pos) {
                    Ok((ident, next)) => {
                        ast.queries.push(ident);
                        assert(ast@.queries =~= before.queries.push(ident@));
                        assert(ast@ == with_item(before, ItemView::Query { ident: ident@ }));
                        pos = next;
                    },
                    Err(e) => { return Err(e); },
                }
            } else {
                return Err(make_error(input, pos, Expected::Item));
            }
        }
        Ok(ast)
    }
}

/// Whether the tokens can stand as the expression of a statement: written
/// out with a `;` after them they start with an expression that the host
/// language ends at that `;`, and none of them is a `;`.
pub open spec fn fits_statement(body: Seq<TokenView>) -> bool {
    &&& spec_expression_rest(render_tokens(body) + (seq![';'] + " "@)) == Some((true, 1usize))
    &&& body.len() > 0
    &&& forall|i: int| 0 <= i < body.len() ==> !is_punct(#[trigger] body[i], ';')
}

/// Whether a statement is one that a description can hold: its names are
/// identifiers of the host language, and its expression can stand in a
/// statement.
pub open spec fn well_formed_item(item: ItemView) -> bool {
    match item {
        ItemView::Let { stmt } => spec_is_identifier(stmt.var_ident.name) && spec_is_identifier(
            stmt.type_ident.name,
        ) && fits_statement(stmt.dependency),
        ItemView::Use { expr } => fits_statement(expr),
        ItemView::Query { ident } => spec_is_identifier(ident.name),
        ItemView::Observe { ident } => spec_is_identifier(ident.name),
    }
}

/// A word at the place `span`.
pub open spec fn word(name: Seq<char>, span: Span) -> TokenView {
    TokenView::Ident { name, span }
}

/// A name as a token.
pub open spec fn name_token(ident: IdentView) -> TokenView {
    TokenView::Ident { name: ident.name, span: ident.span }
}

/// A punctuation character, with a gap after it, at the place `span`.
pub open spec fn sign(ch: char, span: Span) -> TokenView {
    TokenView::Punct { ch, joint: false, span }
}

/// The tokens of a statement. The words and signs that the statement adds to
/// its names and its expression stand at the place `span`.
pub open spec fn item_tokens(item: ItemView, span: Span) -> Seq<TokenView> {
    match item {
        ItemView::Let { stmt } => seq![
            word("let"@, span),
            name_token(stmt.var_ident),
            sign(':', span),
            name_token(stmt.type_ident),
            sign('~', span),
        ] + stmt.dependency + seq![sign(';', span)],
        ItemView::Use { expr } => seq![word("use"@, span)] + expr + seq![sign(';', span)],
        ItemView::Query { ident } => seq![
            word("query"@, span),
            name_token(ident),
            sign(';', span),
        ],
        ItemView::Observe { ident } => seq![
            word("observe"@, span),
            name_token(ident),
            sign(';', span),
        ],
    }
}

/// The tokens of a sequence of statements, in order.
pub open spec fn items_tokens(items: Seq<ItemView>, span: Span) -> Seq<TokenView>
    decreases items.len(),
{
    if items.len() == 0 {
        Seq::empty()
    } else {
        item_tokens(items.first(), span) + items_tokens(items.drop_first(), span)
    }
}

/// The tree `ast` with the statements `items` added to it, in order.
pub open spec fn with_items(ast: ModelAstView, items: Seq<ItemView>) -> ModelAstView
    decreases items.len(),
{
    if items.len() == 0 {
        ast
    } else {
        with_items(with_item(ast, items.first()), items.drop_first())
    }
}

/// The tree of a model that has a name and nothing else.
pub open spec fn bare_model(model_ident: IdentView) -> ModelAstView {
    ModelAstView {
        model_ident,
        use_exprs: Seq::empty(),
        stmts: Seq::empty(),
        queries: Seq::empty(),
        observes: Seq::empty(),
    }
}

/// The tokens of a description: its header, and then its statements in order.
pub open spec fn description_tokens(
    model_ident: IdentView,
    items: Seq<ItemView>,
    span: Span,
) -> Seq<TokenView> {
    seq![word("mod"@, span), name_token(model_ident), sign(';', span)] + items_tokens(items, span)
}

proof fn lemma_semicolon(
    before: Seq<TokenView>,
    body: Seq<TokenView>,
    after: Seq<TokenView>,
    span: Span,
    k: int,
)
    requires
        forall|i: int| 0 <= i < body.len() ==> !is_punct(#[trigger] body[i], ';'),
        0 <= k <= body.len(),
    ensures
        semicolon_from(before + body + seq![sign(';', span)] + after, before.len() + k)
            == before.len() + body.len(),
    decreases body.len() - k,
{
    let tokens = before + body + seq![sign(';', span)] + after;
    if k < body.len() {
        assert(tokens[before.len() + k] == body[k]);
        lemma_semicolon(before, body, after, span, k + 1);
    } else {
        assert(tokens[before.len() + k] == sign(';', span));
    }
}

proof fn lemma_expression(
    before: Seq<TokenView>,
    body: Seq<TokenView>,
    after: Seq<TokenView>,
    span: Span,
)
    requires
        fits_statement(body),
    ensures
        expression_at(before + body + seq![sign(';', span)] + after, before.len() as int) == Ok::<
            (Seq<TokenView>, int),
            SyntaxError,
        >((body, (before.len() + body.len() + 1) as int)),
{
    let tokens = before + body + seq![sign(';', span)] + after;
    let pos = before.len() as int;
    let stop = pos + body.len();
    lemma_semicolon(before, body, after, span, 0);
    let statement = tokens.subrange(pos, stop + 1);
    assert(statement =~= body + seq![sign(';', span)]);
    assert(statement.drop_last() =~= body);
    assert(statement.last() == sign(';', span));
    assert(render_token(sign(';', span)) == seq![';'] + " "@);
    assert(statement.len() > 0);
    assert(render_tokens(statement) == render_tokens(statement.drop_last()) + render_token(
        statement.last(),
    ));
    assert(tokens.subrange(pos, stop) =~= body);
}

proof fn lemma_item(before: Seq<TokenView>, item: ItemView, after: Seq<TokenView>, span: Span)
    requires
        well_formed_item(item),
    ensures
        item_at(before + item_tokens(item, span) + after, before.len() as int) == Ok::<
            (ItemView, int),
            SyntaxError,
        >((item, (before.len() + item_tokens(item, span).len()) as int)),
{
    reveal_strlit("let");
    reveal_strlit("use");
    reveal_strlit("observe");
    reveal_strlit("query");
    assert("let"@.len() == 3 && "use"@.len() == 3 && "observe"@.len() == 7 && "query"@.len() == 5);
    assert("let"@[0] == 'l' && "use"@[0] == 'u');
    let tokens = before + item_tokens(item, span) + after;
    let pos = before.len() as int;
    assert(tokens[pos] == item_tokens(item, span)[0]);
    match item {
        ItemView::Let { stmt } => {
            let head = before + seq![
                word("let"@, span),
                name_token(stmt.var_ident),
                sign(':', span),
                name_token(stmt.type_ident),
                sign('~', span),
            ];
            assert(tokens =~= head + stmt.dependency + seq![sign(';', span)] + after);
            assert(tokens[pos + 1] == name_token(stmt.var_ident));
            assert(tokens[pos + 2] == sign(':', span));
            assert(tokens[pos + 3] == name_token(stmt.type_ident));
            assert(tokens[pos + 4] == sign('~', span));
            lemma_expression(head, stmt.dependency, after, span);
        },
        ItemView::Use { expr } => {
            let head = before + seq![word("use"@, span)];
            assert(tokens =~= head + expr + seq![sign(';', span)] + after);
            lemma_expression(head, expr, after, span);
        },
        ItemView::Query { ident } => {
            assert(tokens[pos + 1] == name_token(ident));
            assert(tokens[pos + 2] == sign(';', span));
        },
        ItemView::Observe { ident } => {
            assert(tokens[pos + 1] == name_token(ident));
            assert(tokens[pos + 2] == sign(';', span));
        },
    }
}

proof fn lemma_items(before: Seq<TokenView>, items: Seq<ItemView>, span: Span, ast: ModelAstView)
    requires
        forall|i: int| 0 <= i < items.len() ==> well_formed_item(#[trigger] items[i]),
    ensures
        items_from(before + items_tokens(items, span), before.len() as int, ast) == Ok::<
            ModelAstView,
            SyntaxError,
        >(with_items(ast, items)),
    decreases items.len(),
{
    let tokens = before + items_tokens(items, span);
    if items.len() == 0 {
        assert(tokens =~= before);
    } else {
        let first = items.first();
        let rest = items.drop_first();
        let block = item_tokens(first, span);
        assert(well_formed_item(items[0]));
        assert(tokens =~= before + block + items_tokens(rest, span));
        lemma_item(before, first, items_tokens(rest, span), span);
        assert(block.len() > 0);
        assert forall|i: int| 0 <= i < rest.len() implies well_formed_item(#[trigger] rest[i]) by {
            assert(rest[i] == items[i + 1]);
        }
        lemma_items(before + block, rest, span, with_item(ast, first));
    }
}

/// Every description that the grammar gives is parsed, and into its own tree:
/// a header with a name of the host language, followed by well-formed
/// statements in any order and any number, parses into the tree that holds
/// the name and the statements, each kind in the order of the description.
pub proof fn law_parse_accepts_descriptions(
    model_ident: IdentView,
    items: Seq<ItemView>,
    span: Span,
)
    requires
        spec_is_identifier(model_ident.name),
        forall|i: int| 0 <= i < items.len() ==> well_formed_item(#[trigger] items[i]),
    ensures
        parse_spec(description_tokens(model_ident, items, span)) == Ok::<
            ModelAstView,
            SyntaxError,
        >(with_items(bare_model(model_ident), items)),
{
    reveal_strlit("mod");
    let header = seq![word("mod"@, span), name_token(model_ident), sign(';', span)];
    let tokens = description_tokens(model_ident, items, span);
    assert(tokens[0] == header[0]);
    assert(tokens[1] == header[1]);
    assert(tokens[2] == header[2]);
    lemma_items(header, items, span, bare_model(model_ident));
}

} // verus!
