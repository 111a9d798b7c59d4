//! The statement grammar: what the statements of a sequence of tokens are.
//!
//! The grammar speaks of the tokens that are still to come, the first of them
//! being the one under the parser's cursor. Behind the last of them stands
//! the end of input.

use crate::ast::{ExprView, StmtView};
use crate::token::{KeywordKind, SymbolKind, TokenKindView, TokenView};
use vstd::prelude::*;

verus! {

/// The kind of the token at index `k`, the end of input behind the last.
pub open spec fn kind_at(tokens: Seq<TokenView>, k: int) -> TokenKindView {
    if 0 <= k < tokens.len() {
        tokens[k].kind
    } else {
        TokenKindView::EndOfInput
    }
}

/// A line feed or a semicolon ends a statement.
pub open spec fn ends_statement(kind: TokenKindView) -> bool {
    kind is Newline || kind == TokenKindView::Symbol(SymbolKind::Semicolon)
}

/// The index of the first token at or after `k` that ends a statement, or the
/// number of tokens if none does.
pub open spec fn statement_end(tokens: Seq<TokenView>, k: int) -> int
    decreases tokens.len() - k,
{
    if 0 <= k < tokens.len() && !ends_statement(tokens[k].kind) {
        statement_end(tokens, k + 1)
    } else {
        k
    }
}

/// What the parse of one statement gives: the statement, if there is one, and
/// the index of the token on which the cursor comes to stand.
pub struct Parsed {
    pub statement: Option<StmtView>,
    pub cursor: int,
}

/// The binding that the keyword `let` at index 0 opens: a name, the symbol
/// `=`, and everything up to the token that ends the statement, or up to the
/// end of input.
///
/// A token is consumed only after it has been looked at and found to fit.
/// Where no name follows, nothing is consumed; where no `=` follows the
/// name, the name alone is. Neither gives a statement.
pub open spec fn parse_let(tokens: Seq<TokenView>) -> Parsed {
    match kind_at(tokens, 1) {
        TokenKindView::Identifier(name) => if kind_at(tokens, 2) == TokenKindView::Symbol(
            SymbolKind::Assign,
        ) {
            Parsed {
                statement: Some(StmtView::Let(name, ExprView::Empty)),
                cursor: statement_end(tokens, 3),
            }
        } else {
            Parsed { statement: None, cursor: 1 }
        },
        _ => Parsed { statement: None, cursor: 0 },
    }
}

/// The statement that the token at index 0 opens. Only `let` opens one.
pub open spec fn parse_statement(tokens: Seq<TokenView>) -> Parsed {
    if kind_at(tokens, 0) == TokenKindView::Keyword(KeywordKind::Let) {
        parse_let(tokens)
    } else {
        Parsed { statement: None, cursor: 0 }
    }
}

/// The statements of `tokens`, in order. After each parse of a statement,
/// whatever it gave, the token under the cursor is passed over.
pub open spec fn parse_program(tokens: Seq<TokenView>) -> Seq<StmtView>
    decreases tokens.len(),
    via parse_program_decreases
{
    if tokens.len() == 0 {
        Seq::empty()
    } else {
        let parsed = parse_statement(tokens);
        let first = match parsed.statement {
            Some(statement) => seq![statement],
            None => Seq::empty(),
        };
        if parsed.cursor + 1 < tokens.len() {
            first + parse_program(tokens.skip(parsed.cursor + 1))
        } else {
            first
        }
    }
}

#[via_fn]
proof fn parse_program_decreases(tokens: Seq<TokenView>) {
    lemma_parse_statement_cursor(tokens);
}

/// A statement ends at or after the index from which its end is sought, and
/// on a token that ends it or behind the last token.
pub proof fn lemma_statement_end_bounds(tokens: Seq<TokenView>, k: int)
    ensures
        k <= statement_end(tokens, k),
        k <= tokens.len() ==> statement_end(tokens, k) <= tokens.len(),
        0 <= statement_end(tokens, k) < tokens.len() ==> ends_statement(
            tokens[statement_end(tokens, k)].kind,
        ),
        forall|j: int|
            k <= j < statement_end(tokens, k) ==> 0 <= j < tokens.len() && !ends_statement(
                tokens[j].kind,
            ),
    decreases tokens.len() - k,
{
    if 0 <= k < tokens.len() && !ends_statement(tokens[k].kind) {
        lemma_statement_end_bounds(tokens, k + 1);
    }
}

/// The parse of a statement leaves the cursor on one of the tokens, or behind
/// the last of them: it never moves back and never runs away.
pub proof fn lemma_parse_statement_cursor(tokens: Seq<TokenView>)
    ensures
        0 <= parse_statement(tokens).cursor <= tokens.len(),
{
    lemma_statement_end_bounds(tokens, 3);
}

/// Every statement of a program is a binding whose right-hand side is empty.
pub proof fn lemma_program_holds_bindings(tokens: Seq<TokenView>, i: int)
    requires
        0 <= i < parse_program(tokens).len(),
    ensures
        parse_program(tokens)[i] matches StmtView::Let(_, value) && value is Empty,
    decreases tokens.len(),
{
    lemma_parse_statement_cursor(tokens);
    let parsed = parse_statement(tokens);
    let first = match parsed.statement {
        Some(statement) => seq![statement],
        None => Seq::empty(),
    };
    if i >= first.len() {
        lemma_program_holds_bindings(tokens.skip(parsed.cursor + 1), i - first.len());
    }
}

/// A program has no more statements than it has tokens.
pub proof fn lemma_program_length(tokens: Seq<TokenView>)
    ensures
        parse_program(tokens).len() <= tokens.len(),
    decreases tokens.len(),
{
    lemma_parse_statement_cursor(tokens);
    let parsed = parse_statement(tokens);
    if tokens.len() > 0 && parsed.cursor + 1 < tokens.len() {
        lemma_program_length(tokens.skip(parsed.cursor + 1));
    }
}

/// How many of `tokens` are the keyword `let`.
pub open spec fn bindings_opened(tokens: Seq<TokenView>) -> nat
    decreases tokens.len(),
{
    if tokens.len() == 0 {
        0
    } else if tokens[0].kind == TokenKindView::Keyword(KeywordKind::Let) {
        1 + bindings_opened(tokens.skip(1))
    } else {
        bindings_opened(tokens.skip(1))
    }
}

/// Fewer tokens hold no more `let`s.
pub proof fn lemma_bindings_opened_in_rest(tokens: Seq<TokenView>, k: int)
    requires
        0 <= k <= tokens.len(),
    ensures
        bindings_opened(tokens.skip(k)) <= bindings_opened(tokens),
    decreases k,
{
    if k == 0 {
        assert(tokens.skip(0) =~= tokens);
    } else {
        lemma_bindings_opened_in_rest(tokens, k - 1);
        let rest = tokens.skip(k - 1);
        assert(rest.skip(1) =~= tokens.skip(k));
    }
}

/// A program has at most one statement for each `let` among its tokens: a
/// text that is written wrongly has fewer statements, never more.
pub proof fn lemma_program_within_bindings(tokens: Seq<TokenView>)
    ensures
        parse_program(tokens).len() <= bindings_opened(tokens),
    decreases tokens.len(),
{
    lemma_parse_statement_cursor(tokens);
    let parsed = parse_statement(tokens);
    if tokens.len() > 0 && parsed.cursor + 1 < tokens.len() {
        lemma_program_within_bindings(tokens.skip(parsed.cursor + 1));
        lemma_bindings_opened_in_rest(tokens.skip(1), parsed.cursor);
        assert(tokens.skip(1).skip(parsed.cursor) =~= tokens.skip(parsed.cursor + 1));
    }
}

} // verus!
