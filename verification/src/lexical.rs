//! The lexical grammar: what the tokens of a text are.
//!
//! A text is a sequence of characters and a place in it is an offset, counted
//! from zero. Everything here is mathematics over those two; the lexer is
//! proved to compute exactly these functions.

use crate::token::{KeywordKind, SymbolKind, TokenKindView, TokenView};
use vstd::prelude::*;

verus! {

/// The character at offset `i`, if the text reaches that far.
pub open spec fn char_at(text: Seq<char>, i: int) -> Option<char> {
    if 0 <= i < text.len() {
        Some(text[i])
    } else {
        None
    }
}

/// An ASCII letter or an underscore: what a name may begin with.
pub open spec fn is_alpha(c: char) -> bool {
    ('a' <= c && c <= 'z') || ('A' <= c && c <= 'Z') || c == '_'
}

/// An ASCII decimal digit.
pub open spec fn is_digit(c: char) -> bool {
    '0' <= c && c <= '9'
}

/// What a name may continue with.
pub open spec fn is_alphanumeric(c: char) -> bool {
    is_alpha(c) || is_digit(c)
}

/// The characters that Unicode gives the property `White_Space`.
pub open spec fn is_whitespace(c: char) -> bool {
    ||| ('\u{9}' <= c && c <= '\u{d}')
    ||| c == ' '
    ||| c == '\u{85}'
    ||| c == '\u{a0}'
    ||| c == '\u{1680}'
    ||| ('\u{2000}' <= c && c <= '\u{200a}')
    ||| c == '\u{2028}'
    ||| c == '\u{2029}'
    ||| c == '\u{202f}'
    ||| c == '\u{205f}'
    ||| c == '\u{3000}'
}

/// Whitespace that separates nothing: any whitespace but the line feed, which
/// is a token of its own.
pub open spec fn is_blank(c: char) -> bool {
    c != '\n' && is_whitespace(c)
}

/// The line of the character at offset `i`, counted from one: one more than
/// the number of line feeds before that offset. A line feed belongs to the
/// line that it ends.
pub open spec fn line_at(text: Seq<char>, i: int) -> nat
    decreases i,
{
    if i <= 0 {
        1
    } else if char_at(text, i - 1) == Some('\n') {
        line_at(text, i - 1) + 1
    } else {
        line_at(text, i - 1)
    }
}

/// The column of the character at offset `i`, counted from one. The first
/// character of the text and the character directly behind a line feed have
/// column one, every other character one more than the character before it;
/// past the end of the text the count goes on.
pub open spec fn column_at(text: Seq<char>, i: int) -> nat
    decreases i,
{
    if i <= 0 {
        1
    } else if char_at(text, i - 1) == Some('\n') {
        1
    } else {
        column_at(text, i - 1) + 1
    }
}

/// Lines and columns are counted from one.
pub proof fn lemma_positions_count_from_one(text: Seq<char>, i: int)
    ensures
        line_at(text, i) >= 1,
        column_at(text, i) >= 1,
    decreases i,
{
    if i > 0 {
        lemma_positions_count_from_one(text, i - 1);
    }
}

/// On the first line the columns count the characters: with no line feed
/// before it, the character at offset `i` stands on line one in column
/// `i + 1`.
pub proof fn lemma_first_line_columns(text: Seq<char>, i: int)
    requires
        0 <= i,
        forall|j: int| 0 <= j < i && j < text.len() ==> text[j] != '\n',
    ensures
        line_at(text, i) == 1,
        column_at(text, i) == i + 1,
    decreases i,
{
    if i > 0 {
        lemma_first_line_columns(text, i - 1);
    }
}

/// A line feed opens the next line: the character `k` places behind a line
/// feed at offset `i`, with no line feed between them, stands one line
/// further down, in column `k`.
pub proof fn lemma_columns_behind_line_feed(text: Seq<char>, i: int, k: int)
    requires
        0 <= i < text.len(),
        text[i] == '\n',
        1 <= k,
        forall|j: int| i < j < i + k && j < text.len() ==> text[j] != '\n',
    ensures
        line_at(text, i + k) == line_at(text, i) + 1,
        column_at(text, i + k) == k,
    decreases k,
{
    if k > 1 {
        lemma_columns_behind_line_feed(text, i, k - 1);
    }
}

/// The first offset at or after `i` that holds no blank.
pub open spec fn blanks_end(text: Seq<char>, i: int) -> int
    decreases text.len() - i,
{
    if 0 <= i < text.len() && is_blank(text[i]) {
        blanks_end(text, i + 1)
    } else {
        i
    }
}

/// The first offset at or after `i` that holds a line feed, or the end of the
/// text.
pub open spec fn line_end(text: Seq<char>, i: int) -> int
    decreases text.len() - i,
{
    if 0 <= i < text.len() && text[i] != '\n' {
        line_end(text, i + 1)
    } else {
        i
    }
}

/// Where the token that is read from offset `i` begins: after the blanks at
/// `i` and, if a `//` follows them, at the end of that line.
pub open spec fn token_start(text: Seq<char>, i: int) -> int {
    let after = blanks_end(text, i);
    if char_at(text, after) == Some('/') && char_at(text, after + 1) == Some('/') {
        line_end(text, after + 2)
    } else {
        after
    }
}

/// The spelling of a reserved word.
pub open spec fn keyword_text(keyword: KeywordKind) -> Seq<char> {
    match keyword {
        KeywordKind::Fn => seq!['f', 'n'],
        KeywordKind::If => seq!['i', 'f'],
        KeywordKind::Else => seq!['e', 'l', 's', 'e'],
        KeywordKind::For => seq!['f', 'o', 'r'],
        KeywordKind::While => seq!['w', 'h', 'i', 'l', 'e'],
        KeywordKind::Enum => seq!['e', 'n', 'u', 'm'],
        KeywordKind::Struct => seq!['s', 't', 'r', 'u', 'c', 't'],
        KeywordKind::Break => seq!['b', 'r', 'e', 'a', 'k'],
        KeywordKind::Continue => seq!['c', 'o', 'n', 't', 'i', 'n', 'u', 'e'],
        KeywordKind::Let => seq!['l', 'e', 't'],
        KeywordKind::True => seq!['t', 'r', 'u', 'e'],
        KeywordKind::False => seq!['f', 'a', 'l', 's', 'e'],
        KeywordKind::Match => seq!['m', 'a', 't', 'c', 'h'],
        KeywordKind::Return => seq!['r', 'e', 't', 'u', 'r', 'n'],
    }
}

/// The reserved word that is spelled `word`, if there is one.
pub open spec fn keyword_of(word: Seq<char>) -> Option<KeywordKind> {
    if exists|keyword: KeywordKind| #[trigger] keyword_text(keyword) == word {
        Some(choose|keyword: KeywordKind| #[trigger] keyword_text(keyword) == word)
    } else {
        None
    }
}

/// No two reserved words are spelled alike, so a spelling names its word.
pub proof fn lemma_keyword_of_text(keyword: KeywordKind)
    ensures
        keyword_of(keyword_text(keyword)) == Some(keyword),
{
    let found = choose|other: KeywordKind| #[trigger] keyword_text(other) == keyword_text(keyword);
    let left = keyword_text(found);
    let right = keyword_text(keyword);
    assert(left.len() == right.len());
    assert(left[0] == right[0]);
    assert(left[1] == right[1]);
}

/// A word is a keyword if it is reserved and a name otherwise.
pub open spec fn word_kind(word: Seq<char>) -> TokenKindView {
    match keyword_of(word) {
        Some(keyword) => TokenKindView::Keyword(keyword),
        None => TokenKindView::Identifier(word),
    }
}

/// The first offset at or after `i` that holds no letter, digit or underscore.
pub open spec fn word_end(text: Seq<char>, i: int) -> int
    decreases text.len() - i,
{
    if 0 <= i < text.len() && is_alphanumeric(text[i]) {
        word_end(text, i + 1)
    } else {
        i
    }
}

/// The first offset at or after `i` that holds no digit.
pub open spec fn digits_end(text: Seq<char>, i: int) -> int
    decreases text.len() - i,
{
    if 0 <= i < text.len() && is_digit(text[i]) {
        digits_end(text, i + 1)
    } else {
        i
    }
}

/// The number that a digit stands for.
pub open spec fn digit_value(c: char) -> nat {
    (c as int - '0' as int) as nat
}

/// The number that a run of digits writes in base ten.
pub open spec fn decimal_value(digits: Seq<char>) -> nat
    decreases digits.len(),
{
    if digits.len() == 0 {
        0
    } else {
        10 * decimal_value(digits.drop_last()) + digit_value(digits.last())
    }
}

/// A run of digits is an integer literal if its value fits in 64 signed bits.
/// A larger one is no token of the language.
pub open spec fn number_kind(digits: Seq<char>) -> TokenKindView {
    if decimal_value(digits) <= i64::MAX {
        TokenKindView::IntegerLiteral(decimal_value(digits) as i64)
    } else {
        TokenKindView::Illegal
    }
}

/// The character that stands behind a backslash: a quote or a backslash for
/// itself, and `t`, `n`, `f`, `r`, `v` for the control characters. Nothing
/// else can be escaped.
pub open spec fn unescape(c: Option<char>) -> Option<char> {
    match c {
        Some(c) => if c == '\'' || c == '"' || c == '\\' {
            Some(c)
        } else if c == 't' {
            Some('\t')
        } else if c == 'n' {
            Some('\n')
        } else if c == 'f' {
            Some('\u{c}')
        } else if c == 'r' {
            Some('\r')
        } else if c == 'v' {
            Some('\u{b}')
        } else {
            None
        },
        None => None,
    }
}

/// What is found at the start of a token: its kind, and the offset after it.
pub struct Lexeme {
    pub kind: TokenKindView,
    pub end: int,
}

/// The character literal whose opening quote is at offset `q`: the quote, one
/// character or one escape, and a closing quote. With anything else in the
/// place of the closing quote, or with an escape that does not exist, the
/// same characters are consumed and the token is illegal.
pub open spec fn char_literal(text: Seq<char>, q: int) -> Lexeme {
    let escaped = char_at(text, q + 1) == Some('\\');
    let body = if escaped {
        unescape(char_at(text, q + 2))
    } else {
        char_at(text, q + 1)
    };
    let close = if escaped {
        q + 3
    } else {
        q + 2
    };
    Lexeme {
        kind: if char_at(text, close) == Some('\'') && body is Some {
            TokenKindView::CharLiteral(body->0)
        } else {
            TokenKindView::Illegal
        },
        end: close + 1,
    }
}

/// Where the body of a string literal that is read from offset `i` stops: at
/// the first quote that no backslash precedes, or past the end of the text.
pub open spec fn string_close(text: Seq<char>, i: int) -> int
    decreases text.len() + 1 - i,
{
    if i < 0 || i >= text.len() {
        i
    } else if text[i] == '"' {
        i
    } else if text[i] == '\\' {
        string_close(text, i + 2)
    } else {
        string_close(text, i + 1)
    }
}

/// The characters that the body of a string literal, read from offset `i`,
/// stands for. An escape stands for its character, an escape that does not
/// exist for nothing.
pub open spec fn string_text(text: Seq<char>, i: int) -> Seq<char>
    decreases text.len() + 1 - i,
{
    if i < 0 || i >= text.len() {
        Seq::empty()
    } else if text[i] == '"' {
        Seq::empty()
    } else if text[i] == '\\' {
        match unescape(char_at(text, i + 1)) {
            Some(c) => seq![c] + string_text(text, i + 2),
            None => string_text(text, i + 2),
        }
    } else {
        seq![text[i]] + string_text(text, i + 1)
    }
}

/// The string literal whose opening quote is at offset `q`. Without a closing
/// quote the rest of the text is consumed and the token is illegal.
pub open spec fn string_literal(text: Seq<char>, q: int) -> Lexeme {
    let close = string_close(text, q + 1);
    Lexeme {
        kind: if close < text.len() {
            TokenKindView::StringLiteral(string_text(text, q + 1))
        } else {
            TokenKindView::Illegal
        },
        end: close + 1,
    }
}

/// The symbol that a single character writes.
pub open spec fn symbol_of(c: char) -> Option<SymbolKind> {
    if c == '=' {
        Some(SymbolKind::Assign)
    } else if c == '+' {
        Some(SymbolKind::Plus)
    } else if c == '(' {
        Some(SymbolKind::LeftParen)
    } else if c == ')' {
        Some(SymbolKind::RightParen)
    } else if c == '{' {
        Some(SymbolKind::LeftBrace)
    } else if c == '}' {
        Some(SymbolKind::RightBrace)
    } else if c == ',' {
        Some(SymbolKind::Comma)
    } else if c == ';' {
        Some(SymbolKind::Semicolon)
    } else if c == ':' {
        Some(SymbolKind::Colon)
    } else if c == '!' {
        Some(SymbolKind::Bang)
    } else if c == '-' {
        Some(SymbolKind::Minus)
    } else if c == '*' {
        Some(SymbolKind::Asterisk)
    } else if c == '<' {
        Some(SymbolKind::Lt)
    } else if c == '>' {
        Some(SymbolKind::Gt)
    } else if c == '/' {
        Some(SymbolKind::Slash)
    } else if c == '%' {
        Some(SymbolKind::Mod)
    } else {
        None
    }
}

/// The token that begins at offset `q`, where no blank and no comment stands.
///
/// `==` and `!=` are recognised by looking one character ahead; every other
/// symbol is one character long. A letter or an underscore opens the longest
/// run of letters, digits and underscores, a digit the longest run of digits.
/// A character that opens nothing is illegal, and consumed. At the end of the
/// text stands the end-of-input token, and nothing is consumed.
pub open spec fn scan(text: Seq<char>, q: int) -> Lexeme {
    match char_at(text, q) {
        None => Lexeme { kind: TokenKindView::EndOfInput, end: q },
        Some(c) => if c == '=' && char_at(text, q + 1) == Some('=') {
            Lexeme { kind: TokenKindView::Symbol(SymbolKind::Eq), end: q + 2 }
        } else if c == '!' && char_at(text, q + 1) == Some('=') {
            Lexeme { kind: TokenKindView::Symbol(SymbolKind::NotEq), end: q + 2 }
        } else if symbol_of(c) is Some {
            Lexeme { kind: TokenKindView::Symbol(symbol_of(c)->0), end: q + 1 }
        } else if c == '\n' {
            Lexeme { kind: TokenKindView::Newline, end: q + 1 }
        } else if c == '\'' {
            char_literal(text, q)
        } else if c == '"' {
            string_literal(text, q)
        } else if is_alpha(c) {
            Lexeme {
                kind: word_kind(text.subrange(q, word_end(text, q))),
                end: word_end(text, q),
            }
        } else if is_digit(c) {
            Lexeme {
                kind: number_kind(text.subrange(q, digits_end(text, q))),
                end: digits_end(text, q),
            }
        } else {
            Lexeme { kind: TokenKindView::Illegal, end: q + 1 }
        },
    }
}

/// One step of the lexer: the token that it yields, and where it stands after.
pub struct Step {
    pub token: TokenView,
    pub end: int,
}

/// The step that a lexer at offset `i` takes: it passes over blanks and a
/// comment, and yields the token that begins there, with the line and the
/// column of the token's first character.
pub open spec fn lex(text: Seq<char>, i: int) -> Step {
    let start = token_start(text, i);
    let lexeme = scan(text, start);
    Step {
        token: TokenView {
            kind: lexeme.kind,
            line: line_at(text, start),
            column: column_at(text, start),
        },
        end: lexeme.end,
    }
}

/// How many characters the step from offset `i` passes over before its
/// token: the blanks and the comment.
pub open spec fn skipped(text: Seq<char>, i: int) -> int {
    token_start(text, i) - i
}

/// How many characters the token of the step from offset `i` consumes. The
/// end of input consumes none.
pub open spec fn consumed(text: Seq<char>, i: int) -> int {
    lex(text, i).end - token_start(text, i)
}

/// The tokens that a lexer at offset `i` yields before the end of input.
pub open spec fn tokens_from(text: Seq<char>, i: int) -> Seq<TokenView>
    decreases text.len() + 2 - i,
    via tokens_from_decreases
{
    let step = lex(text, i);
    if step.token.kind is EndOfInput {
        Seq::empty()
    } else {
        seq![step.token] + tokens_from(text, step.end)
    }
}

#[via_fn]
proof fn tokens_from_decreases(text: Seq<char>, i: int) {
    lemma_lex_advances(text, i);
}

/// The tokens of a text.
pub open spec fn tokenize(text: Seq<char>) -> Seq<TokenView> {
    tokens_from(text, 0)
}

/// Blanks are passed over forwards, and never beyond the end of the text.
pub proof fn lemma_blanks_end_bounds(text: Seq<char>, i: int)
    ensures
        i <= blanks_end(text, i),
        i <= text.len() ==> blanks_end(text, i) <= text.len(),
        char_at(text, blanks_end(text, i)) matches Some(c) ==> !is_blank(c),
        forall|j: int| i <= j < blanks_end(text, i) ==> 0 <= j < text.len() && is_blank(text[j]),
    decreases text.len() - i,
{
    if 0 <= i < text.len() && is_blank(text[i]) {
        lemma_blanks_end_bounds(text, i + 1);
    }
}

/// A line ends at a line feed or with the text.
pub proof fn lemma_line_end_bounds(text: Seq<char>, i: int)
    ensures
        i <= line_end(text, i),
        i <= text.len() ==> line_end(text, i) <= text.len(),
        char_at(text, line_end(text, i)) matches Some(c) ==> c == '\n',
        forall|j: int| i <= j < line_end(text, i) ==> 0 <= j < text.len() && text[j] != '\n',
    decreases text.len() - i,
{
    if 0 <= i < text.len() && text[i] != '\n' {
        lemma_line_end_bounds(text, i + 1);
    }
}

/// A token begins at or after the offset from which it is read, inside the
/// text or at its end. What stands there is neither a blank nor the start of
/// a comment, and no line feed lies among what was passed over.
pub proof fn lemma_token_start_bounds(text: Seq<char>, i: int)
    ensures
        i <= token_start(text, i),
        i <= text.len() ==> token_start(text, i) <= text.len(),
        char_at(text, token_start(text, i)) matches Some(c) ==> !is_blank(c),
        !(char_at(text, token_start(text, i)) == Some('/') && char_at(
            text,
            token_start(text, i) + 1,
        ) == Some('/')),
        forall|j: int|
            i <= j < token_start(text, i) ==> 0 <= j < text.len() && #[trigger] text[j] != '\n',
{
    lemma_blanks_end_bounds(text, i);
    lemma_line_end_bounds(text, blanks_end(text, i) + 2);
}

/// A word is the longest run of letters, digits and underscores.
pub proof fn lemma_word_end_bounds(text: Seq<char>, i: int)
    ensures
        i <= word_end(text, i),
        i <= text.len() ==> word_end(text, i) <= text.len(),
        char_at(text, word_end(text, i)) matches Some(c) ==> !is_alphanumeric(c),
        forall|j: int|
            i <= j < word_end(text, i) ==> 0 <= j < text.len() && is_alphanumeric(text[j]),
    decreases text.len() - i,
{
    if 0 <= i < text.len() && is_alphanumeric(text[i]) {
        lemma_word_end_bounds(text, i + 1);
    }
}

/// A number is the longest run of digits.
pub proof fn lemma_digits_end_bounds(text: Seq<char>, i: int)
    ensures
        i <= digits_end(text, i),
        i <= text.len() ==> digits_end(text, i) <= text.len(),
        char_at(text, digits_end(text, i)) matches Some(c) ==> !is_digit(c),
        forall|j: int| i <= j < digits_end(text, i) ==> 0 <= j < text.len() && is_digit(text[j]),
    decreases text.len() - i,
{
    if 0 <= i < text.len() && is_digit(text[i]) {
        lemma_digits_end_bounds(text, i + 1);
    }
}

/// The body of a string literal stops inside the text, or at most one
/// character past its end.
pub proof fn lemma_string_close_bounds(text: Seq<char>, i: int)
    ensures
        i <= string_close(text, i),
        i <= text.len() ==> string_close(text, i) <= text.len() + 1,
        0 <= i && string_close(text, i) < text.len() ==> text[string_close(text, i)] == '"',
    decreases text.len() + 1 - i,
{
    if i < 0 || i >= text.len() {
    } else if text[i] == '"' {
    } else if text[i] == '\\' {
        lemma_string_close_bounds(text, i + 2);
    } else {
        lemma_string_close_bounds(text, i + 1);
    }
}

/// The lexer never stalls, and every character that it moves over is
/// accounted for: a step moves the cursor over what it skips and over what
/// its token consumes, and over nothing else. A token consumes at least one
/// character, its first, and ends at most two characters past the end of the
/// text. The end of input consumes nothing.
pub proof fn lemma_lex_advances(text: Seq<char>, i: int)
    ensures
        lex(text, i).end == i + skipped(text, i) + consumed(text, i),
        skipped(text, i) >= 0,
        consumed(text, i) >= 0,
        i <= token_start(text, i) <= lex(text, i).end,
        lex(text, i).token.kind is EndOfInput <==> char_at(text, token_start(text, i)) is None,
        lex(text, i).token.kind is EndOfInput <==> consumed(text, i) == 0,
        !(lex(text, i).token.kind is EndOfInput) ==> {
            &&& 0 <= i <= token_start(text, i) < text.len()
            &&& token_start(text, i) < lex(text, i).end <= text.len() + 2
        },
{
    let q = token_start(text, i);
    lemma_token_start_bounds(text, i);
    match char_at(text, q) {
        None => {},
        Some(c) => {
            lemma_string_close_bounds(text, q + 1);
            lemma_word_end_bounds(text, q + 1);
            lemma_digits_end_bounds(text, q + 1);
        },
    }
}

/// The end of input is final: a lexer that has yielded it stands still and
/// yields it again, at the same place, as often as it is asked.
pub proof fn lemma_end_of_input_is_final(text: Seq<char>, i: int)
    requires
        lex(text, i).token.kind is EndOfInput,
    ensures
        lex(text, lex(text, i).end) == lex(text, i),
        skipped(text, lex(text, i).end) == 0,
        tokens_from(text, i) == Seq::<TokenView>::empty(),
        tokens_from(text, lex(text, i).end) == Seq::<TokenView>::empty(),
{
    lemma_lex_advances(text, i);
}

/// Tokenizing ends: a text has at most as many tokens as characters.
pub proof fn lemma_token_count(text: Seq<char>, i: int)
    requires
        0 <= i,
    ensures
        tokens_from(text, i).len() <= if i <= text.len() {
            text.len() - i
        } else {
            0
        },
    decreases text.len() + 2 - i,
{
    lemma_lex_advances(text, i);
    let step = lex(text, i);
    if !(step.token.kind is EndOfInput) {
        lemma_token_count(text, step.end);
    }
}

} // verus!
