//! The front end of the K language: from a text to its tokens, and from the
//! tokens to the statements of a program.
//!
//! * [`token`] and [`ast`] hold the data: tokens with their places, and the
//!   statement-level syntax tree.
//! * [`lexical`] says what the tokens of a text are, and [`grammar`] what the
//!   statements of a sequence of tokens are. Both are mathematics.
//! * [`lexer`] and [`parser`] compute them: a [`lexer::Lexer`] yields the
//!   tokens of [`lexical::tokenize`] one by one, and a [`parser::Parser`] over
//!   it yields the program of [`grammar::parse_program`].
//!
//! Neither the lexer nor the parser gives up on a text: what is no token is
//! an illegal token, what is no statement is passed over.

pub mod ast;
pub mod grammar;
pub mod lexer;
pub mod lexical;
pub mod parser;
pub mod token;
