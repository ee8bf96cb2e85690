//! What the host language decides: where the expression ends that a text
//! starts with, and whether a word is one of its identifiers. Both questions
//! are put to `syn`, which reads the text with the lexer of `proc-macro2`
//! (this crate builds both without their `proc-macro` feature, so that the
//! compiler's own lexer never takes its place). Nothing in this module is
//! proved: its functions are believed to do what their contracts say.

use vstd::prelude::*;

verus! {

/// How far the parser of `syn::Expr` gets in `text`: whether it finds an
/// expression at the start of the text, and the number of token trees,
/// outside all brackets, that it leaves where it ends or gives up. Nothing
/// where `syn::parse::Parser::parse_str` fails as a whole, as it does on a
/// text that does not lex.
pub uninterp spec fn spec_expression_rest(text: Seq<char>) -> Option<(bool, usize)>;

/// Whether `text` is exactly one identifier of the host language, a keyword
/// and `_` not being one: the verdict of `syn::parse_str::<syn::Ident>` on it.
pub uninterp spec fn spec_is_identifier(text: Seq<char>) -> bool;

/// Runs the parser of `syn::Expr` on `text` with `syn::parse::Parser::parse_str`,
/// and then counts the token trees that the parser has left. The contract
/// gives the outcome its name; it claims nothing about which texts start with
/// an expression, nor about where the parser ends.
#[verifier::external_body]
pub(crate) fn expression_rest(text: &str) -> (rest: Option<(bool, usize)>)
    ensures
        rest == spec_expression_rest(text@),
{
    syn::parse::Parser::parse_str(
        |input: syn::parse::ParseStream| {
            let found = input.parse::<syn::Expr>().is_ok();
            Ok((found, input.parse::<proc_macro2::TokenStream>()?.into_iter().count()))
        },
        text,
    ).ok()
}

/// Calls `syn::parse_str::<syn::Ident>` and says whether it succeeded. The
/// contract gives that verdict its name; it claims nothing about which texts
/// are identifiers.
#[verifier::external_body]
pub(crate) fn is_identifier(text: &str) -> (ok: bool)
    ensures
        ok == spec_is_identifier(text@),
{
    syn::parse_str::<syn::Ident>(text).is_ok()
}

/// Calls `String::push` of the standard library: the character is appended
/// to the string.
#[verifier::external_body]
pub(crate) fn push_char(text: &mut String, ch: char)
    ensures
        final(text)@ == old(text)@.push(ch),
{
    text.push(ch)
}

} // verus!
