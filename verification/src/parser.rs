//! The parser: a window of two tokens over a lexer, from which it reads the
//! statements of a program.

use crate::ast::{Expr, Identifier, Program, Stmt, StmtView};
use crate::grammar::{
    ends_statement, kind_at, lemma_parse_statement_cursor, lemma_program_length, parse_let,
    parse_program, parse_statement, statement_end,
};
use crate::lexer::Lexer;
use crate::lexical::{lemma_end_of_input_is_final, lex, tokens_from, Step};
use crate::token::{KeywordKind, SymbolKind, Token, TokenKind, TokenKindView, TokenView};
use vstd::prelude::*;

verus! {

/// The value of a statement that may be missing.
pub open spec fn statement_view(statement: Option<Stmt>) -> Option<StmtView> {
    match statement {
        Some(statement) => Some(statement@),
        None => None,
    }
}

/// A parser over one lexer, which it owns. It looks at the token under its
/// cursor and at the one after it.
pub struct Parser {
    lexer: Box<Lexer>,
    cursor_token: Token,
    peek_token: Token,
}

impl Parser {
    /// The tokens that are still to be parsed: the one under the cursor, the
    /// one after it, and those that the lexer has yet to yield.
    pub closed spec fn remaining(&self) -> Seq<TokenView> {
        if self.cursor_token.kind is EndOfInput {
            Seq::empty()
        } else if self.peek_token.kind is EndOfInput {
            seq![self.cursor_token@]
        } else {
            seq![self.cursor_token@, self.peek_token@] + self.lexer.remaining()
        }
    }

    /// Behind the end of input stands the end of input, and the lexer rests:
    /// once the cursor token is the end of input, the token after it is the
    /// same token, and once that one is the end of input, the lexer yields it
    /// again and stays where it is.
    ///
    /// Every parser that `new` makes is well formed, and stays so.
    pub closed spec fn well_formed(&self) -> bool {
        &&& self.cursor_token.kind is EndOfInput ==> self.peek_token@ == self.cursor_token@
        &&& self.peek_token.kind is EndOfInput ==> lex(self.lexer.text(), self.lexer.offset())
            == Step { token: self.peek_token@, end: self.lexer.offset() }
    }

    /// The first two of the remaining tokens are those in the window.
    proof fn lemma_window(&self)
        ensures
            self.remaining().len() == 0 <==> self.cursor_token.kind is EndOfInput,
            kind_at(self.remaining(), 0) == self.cursor_token@.kind,
            self.remaining().len() > 0 ==> self.remaining()[0] == self.cursor_token@,
            self.remaining().len() > 0 ==> kind_at(self.remaining(), 1) == self.peek_token@.kind,
    {
    }

    /// A parser that has all the tokens of `lexer` before it: its window
    /// holds the first two of them.
    pub fn new(lexer: Lexer) -> (parser: Parser)
        ensures
            parser.remaining() == lexer.remaining(),
            parser.well_formed(),
    {
        let ghost text = lexer.text();
        let ghost start = lexer.offset();
        let ghost first = lex(text, start);
        let ghost second = lex(text, first.end);
        let mut lexer = Box::new(lexer);
        let cursor_token = lexer.next_token();
        let peek_token = lexer.next_token();
        let parser = Parser { lexer, cursor_token, peek_token };
        proof {
            if first.token.kind is EndOfInput {
                lemma_end_of_input_is_final(text, start);
            }
            if second.token.kind is EndOfInput {
                lemma_end_of_input_is_final(text, first.end);
            }
            assert(tokens_from(text, first.end) == if second.token.kind is EndOfInput {
                Seq::<TokenView>::empty()
            } else {
                seq![second.token] + tokens_from(text, second.end)
            });
            assert(parser.remaining() =~= tokens_from(text, start));
        }
        parser
    }

    /// Parses the program: statement after statement until the end of input.
    /// What is no statement is passed over, and never ends the parse. After
    /// each statement, whether there was one or not, the token under the
    /// cursor is passed over, unless the statement ran to the end of input.
    pub fn parse(&mut self) -> (program: Program)
        ensures
            program@ == parse_program(old(self).remaining()),
            program@.len() <= old(self).remaining().len(),
            final(self).remaining() == Seq::<TokenView>::empty(),
            old(self).well_formed() ==> final(self).well_formed(),
    {
        proof {
            lemma_program_length(self.remaining());
        }
        let mut program = Program::new();
        while self.cursor_token.kind != TokenKind::EndOfInput
            invariant
                program@ + parse_program(self.remaining()) == parse_program(
                    old(self).remaining(),
                ),
                old(self).well_formed() ==> self.well_formed(),
            decreases self.remaining().len(),
        {
            let ghost tokens = self.remaining();
            let ghost parsed = parse_statement(tokens);
            let ghost before = program@;
            proof {
                lemma_parse_statement_cursor(tokens);
            }
            let stmt = self.parse_stmt();
            if let Some(ok) = stmt {
                program.0.push(ok);
            }
            if self.cursor_token.kind != TokenKind::EndOfInput {
                self.next_token();
            }
            proof {
                let first = match parsed.statement {
                    Some(statement) => seq![statement],
                    None => Seq::empty(),
                };
                assert(program@ =~= before + first);
                if parsed.cursor + 1 < tokens.len() {
                    assert(tokens.skip(parsed.cursor).skip(1) =~= tokens.skip(parsed.cursor + 1));
                }
                assert(before + first + parse_program(self.remaining()) =~= before + (first
                    + parse_program(self.remaining())));
            }
        }
        program
    }

    /// Parses the statement that the cursor token opens.
    fn parse_stmt(&mut self) -> (statement: Option<Stmt>)
        requires
            old(self).remaining().len() > 0,
        ensures
            statement_view(statement) == parse_statement(old(self).remaining()).statement,
            final(self).remaining() == old(self).remaining().skip(
                parse_statement(old(self).remaining()).cursor,
            ),
            old(self).well_formed() ==> final(self).well_formed(),
    {
        let opens_binding = match &self.cursor_token.kind {
            TokenKind::Keyword(KeywordKind::Let) => true,
            _ => false,
        };
        if opens_binding {
            self.parse_let_stmt()
        } else {
            assert(self.remaining().skip(0) =~= self.remaining());
            None
        }
    }

    /// Parses the binding that the cursor token, a `let`, opens.
    fn parse_let_stmt(&mut self) -> (statement: Option<Stmt>)
        requires
            old(self).remaining().len() > 0,
        ensures
            statement_view(statement) == parse_let(old(self).remaining()).statement,
            final(self).remaining() == old(self).remaining().skip(
                parse_let(old(self).remaining()).cursor,
            ),
            old(self).well_formed() ==> final(self).well_formed(),
    {
        let ghost tokens = self.remaining();
        proof {
            self.lemma_window();
        }
        let named = match &self.peek_token.kind {
            TokenKind::Identifier(_) => true,
            _ => false,
        };
        if !named {
            assert(tokens.skip(0) =~= tokens);
            return None;
        }
        self.next_token();
        proof {
            self.lemma_window();
        }
        let name = match self.parse_ident() {
            Some(name) => name,
            None => {
                return None;
            },
        };
        if !self.expect_next_token(&TokenKind::Symbol(SymbolKind::Assign)) {
            return None;
        }
        assert(self.remaining() =~= tokens.skip(2));
        self.next_token();
        assert(self.remaining() =~= tokens.skip(3));
        let ghost mut at: int = 3;
        proof {
            self.lemma_window();
        }
        while !self.cursor_is_end_stmt() && self.cursor_token.kind != TokenKind::EndOfInput
            invariant
                3 <= at <= tokens.len(),
                self.remaining() == tokens.skip(at),
                statement_end(tokens, at) == statement_end(tokens, 3),
                kind_at(self.remaining(), 0) == self.cursor_token@.kind,
                self.remaining().len() == 0 <==> self.cursor_token.kind is EndOfInput,
                old(self).well_formed() ==> self.well_formed(),
            ensures
                self.remaining() == tokens.skip(statement_end(tokens, 3)),
            decreases tokens.len() - at,
        {
            assert(tokens.skip(at)[0] == tokens[at]);
            assert(statement_end(tokens, at) == statement_end(tokens, at + 1));
            self.next_token();
            proof {
                assert(tokens.skip(at).skip(1) =~= tokens.skip(at + 1));
                at = at + 1;
                self.lemma_window();
            }
        }
        Some(Stmt::Let(name, Expr::Empty))
    }

    /// Whether the cursor token ends a statement.
    fn cursor_is_end_stmt(&self) -> (ends: bool)
        ensures
            ends == ends_statement(self.cursor_token@.kind),
    {
        match &self.cursor_token.kind {
            TokenKind::Newline => true,
            TokenKind::Symbol(SymbolKind::Semicolon) => true,
            _ => false,
        }
    }

    /// The name that the cursor token is, if it is one.
    fn parse_ident(&self) -> (name: Option<Identifier>)
        ensures
            match name {
                Some(name) => self.cursor_token@.kind == TokenKindView::Identifier(name@),
                None => !(self.cursor_token@.kind is Identifier),
            },
    {
        match &self.cursor_token.kind {
            TokenKind::Identifier(ident) => Some(Identifier::new(ident.clone())),
            _ => None,
        }
    }

    /// Whether the token after the cursor is of the kind `kind`.
    fn peek_token_is(&self, kind: &TokenKind) -> (is: bool)
        ensures
            is == (self.peek_token@.kind == kind@),
    {
        self.peek_token.kind == *kind
    }

    /// Moves on to the token after the cursor if it is of the kind `kind`,
    /// and says whether it was. Where it was not, nothing changes.
    fn expect_next_token(&mut self, kind: &TokenKind) -> (found: bool)
        ensures
            found == (old(self).peek_token@.kind == kind@),
            !found ==> *final(self) == *old(self),
            found ==> old(self).moved_on_to(*final(self)),
            found && old(self).remaining().len() > 0 ==> final(self).remaining() == old(
                self,
            ).remaining().skip(1),
            old(self).well_formed() ==> final(self).well_formed(),
    {
        if self.peek_token_is(kind) {
            self.next_token();
            true
        } else {
            false
        }
    }

    /// What one move of the window does: the token that was after the cursor
    /// comes under it, the lexer yields the token that comes after it, and
    /// has advanced over exactly that token.
    spec fn moved_on_to(&self, after: Parser) -> bool {
        let step = lex(self.lexer.text(), self.lexer.offset());
        &&& after.cursor_token@ == self.peek_token@
        &&& after.peek_token@ == step.token
        &&& after.lexer.text() == self.lexer.text()
        &&& after.lexer.offset() == step.end
    }

    /// Moves the window one token on, whatever it holds.
    ///
    /// Before the end of input this takes the first of the remaining tokens
    /// away. In a well-formed parser the end of input is final: there the
    /// window holds it twice, the lexer yields it again, and nothing is left
    /// to take away.
    fn next_token(&mut self)
        ensures
            old(self).moved_on_to(*final(self)),
            old(self).remaining().len() > 0 ==> final(self).remaining() == old(
                self,
            ).remaining().skip(1),
            old(self).well_formed() ==> final(self).well_formed(),
            old(self).well_formed() && old(self).remaining().len() == 0 ==> {
                &&& final(self).remaining().len() == 0
                &&& final(self).cursor_token@ == old(self).cursor_token@
                &&& final(self).peek_token@ == old(self).peek_token@
                &&& final(self).lexer.offset() == old(self).lexer.offset()
            },
    {
        let ghost before = self.remaining();
        proof {
            let step = lex(self.lexer.text(), self.lexer.offset());
            if step.token.kind is EndOfInput {
                lemma_end_of_input_is_final(self.lexer.text(), self.lexer.offset());
            }
        }
        self.cursor_token = self.peek_token.clone();
        self.peek_token = self.lexer.next_token();
        assert(before.len() > 0 ==> self.remaining() =~= before.skip(1));
    }
}

} // verus!
