//! The lexer: a cursor over a text that yields one token per call.

use crate::lexical;
use crate::lexical::{
    blanks_end, char_at, char_literal, column_at, consumed, decimal_value, digit_value,
    digits_end, keyword_of, keyword_text, lemma_end_of_input_is_final, lemma_keyword_of_text,
    lemma_string_close_bounds, lemma_token_count, lex, line_at, line_end, number_kind, skipped,
    string_close, string_text, symbol_of, token_start, tokenize, tokens_from, unescape,
    word_end, word_kind,
};
use crate::token::{
    BufferPosition, KeywordKind, SymbolKind, Token, TokenKind, TokenKindView, TokenView,
};
use vstd::prelude::*;
use vstd::string::StrSliceExecFns;

verus! {

/// `String::push` of the standard library appends the character to the end
/// of the string and changes nothing else of it.
pub assume_specification[ String::push ](s: &mut String, ch: char)
    ensures
        final(s)@ == old(s)@.push(ch),
;

/// The characters of a string, in order.
fn chars_of(input: &str) -> (chars: Vec<char>)
    ensures
        chars@ == input@,
{
    let mut chars: Vec<char> = Vec::new();
    for c in it: input.chars()
        invariant
            chars@ == it.seq().take(it.index() as int),
            it.seq() == input@,
    {
        chars.push(c);
    }
    chars
}

/// Whether two strings hold the same characters.
fn same_text(left: &str, right: &str) -> (same: bool)
    ensures
        same == (left@ == right@),
{
    let length = left.unicode_len();
    if length != right.unicode_len() {
        return false;
    }
    let mut i: usize = 0;
    while i < length
        invariant
            i <= length,
            length == left@.len(),
            length == right@.len(),
            forall|j: int| 0 <= j < i ==> left@[j] == right@[j],
        decreases length - i,
    {
        if left.get_char(i) != right.get_char(i) {
            return false;
        }
        i += 1;
    }
    assert(left@ =~= right@);
    true
}

/// The string literals by which the lexer knows the reserved words are
/// their spellings.
proof fn lemma_keyword_literals()
    ensures
        "fn"@ == keyword_text(KeywordKind::Fn),
        "let"@ == keyword_text(KeywordKind::Let),
        "if"@ == keyword_text(KeywordKind::If),
        "else"@ == keyword_text(KeywordKind::Else),
        "for"@ == keyword_text(KeywordKind::For),
        "while"@ == keyword_text(KeywordKind::While),
        "enum"@ == keyword_text(KeywordKind::Enum),
        "struct"@ == keyword_text(KeywordKind::Struct),
        "break"@ == keyword_text(KeywordKind::Break),
        "continue"@ == keyword_text(KeywordKind::Continue),
        "true"@ == keyword_text(KeywordKind::True),
        "false"@ == keyword_text(KeywordKind::False),
        "match"@ == keyword_text(KeywordKind::Match),
        "return"@ == keyword_text(KeywordKind::Return),
{
    reveal_strlit("fn");
    reveal_strlit("let");
    reveal_strlit("if");
    reveal_strlit("else");
    reveal_strlit("for");
    reveal_strlit("while");
    reveal_strlit("enum");
    reveal_strlit("struct");
    reveal_strlit("break");
    reveal_strlit("continue");
    reveal_strlit("true");
    reveal_strlit("false");
    reveal_strlit("match");
    reveal_strlit("return");
    assert("fn"@ =~= keyword_text(KeywordKind::Fn));
    assert("let"@ =~= keyword_text(KeywordKind::Let));
    assert("if"@ =~= keyword_text(KeywordKind::If));
    assert("else"@ =~= keyword_text(KeywordKind::Else));
    assert("for"@ =~= keyword_text(KeywordKind::For));
    assert("while"@ =~= keyword_text(KeywordKind::While));
    assert("enum"@ =~= keyword_text(KeywordKind::Enum));
    assert("struct"@ =~= keyword_text(KeywordKind::Struct));
    assert("break"@ =~= keyword_text(KeywordKind::Break));
    assert("continue"@ =~= keyword_text(KeywordKind::Continue));
    assert("true"@ =~= keyword_text(KeywordKind::True));
    assert("false"@ =~= keyword_text(KeywordKind::False));
    assert("match"@ =~= keyword_text(KeywordKind::Match));
    assert("return"@ =~= keyword_text(KeywordKind::Return));
}

/// Where the lexer stands: how many characters it has read, the last one of
/// them, and the line and column of that one.
#[derive(Debug, Clone, Copy, PartialEq)]
struct ReadHead {
    cursor: usize,
    current_char: Option<char>,
    line: usize,
    column: usize,
}

impl ReadHead {
    /// The head describes the character at offset `cursor - 1` of `text`.
    spec fn tracks(self, text: Seq<char>) -> bool {
        &&& self.current_char == char_at(text, self.cursor - 1)
        &&& self.line == line_at(text, self.cursor - 1)
        &&& self.column == column_at(text, self.cursor - 1)
    }
}

/// Lines and columns are bounded by the offset that they belong to.
proof fn lemma_position_bounds(text: Seq<char>, i: int)
    requires
        0 <= i,
    ensures
        line_at(text, i) <= i + 1,
        column_at(text, i) <= i + 1,
    decreases i,
{
    if i > 0 {
        lemma_position_bounds(text, i - 1);
    }
}

/// A tokenizer over one text. It reads forwards only.
#[derive(Debug, PartialEq)]
pub struct Lexer {
    input: Vec<char>,
    head: ReadHead,
}

impl Lexer {
    #[verifier::type_invariant]
    spec fn well_formed(&self) -> bool {
        &&& self.input@.len() + 3 <= usize::MAX
        &&& 1 <= self.head.cursor <= self.input@.len() + 3
        &&& self.head.tracks(self.input@)
    }

    /// The text that is being read.
    pub closed spec fn text(&self) -> Seq<char> {
        self.input@
    }

    /// The offset of the character under the cursor. It is the number of
    /// characters that lie behind the cursor, and may lie past the end of the
    /// text.
    pub closed spec fn offset(&self) -> int {
        self.head.cursor - 1
    }

    /// The tokens that are still to come.
    pub open spec fn remaining(&self) -> Seq<TokenView> {
        tokens_from(self.text(), self.offset())
    }

    /// A lexer at the start of `input`, with all the tokens of `input`
    /// before it.
    ///
    /// The cursor may run up to three characters past the end of the text,
    /// and counts them: the text must leave that much room.
    pub fn new(input: &str) -> (lexer: Lexer)
        requires
            input@.len() + 3 <= usize::MAX,
        ensures
            lexer.text() == input@,
            lexer.offset() == 0,
            lexer.remaining() == tokenize(input@),
    {
        let chars = chars_of(input);
        let first = if chars.len() > 0 {
            Some(chars[0])
        } else {
            None
        };
        let head = ReadHead { cursor: 1, current_char: first, line: 1, column: 1 };
        Lexer { input: chars, head }
    }

    /// The head after one more character has been read. The character that
    /// the head leaves decides the place of the next: behind a line feed a
    /// line begins, at column one; behind anything else the column grows by
    /// one.
    fn advance(input: &Vec<char>, head: ReadHead) -> (next: ReadHead)
        requires
            head.tracks(input@),
            1 <= head.cursor <= input@.len() + 2,
            input@.len() + 3 <= usize::MAX,
        ensures
            next.tracks(input@),
            next.cursor == head.cursor + 1,
    {
        proof {
            lemma_position_bounds(input@, head.cursor - 1);
        }
        let r = if head.cursor >= input.len() {
            None
        } else {
            Some(input[head.cursor])
        };
        let leaves_line = match head.current_char {
            Some(c) => c == '\n',
            None => false,
        };
        if leaves_line {
            ReadHead { cursor: head.cursor + 1, current_char: r, line: head.line + 1, column: 1 }
        } else {
            ReadHead {
                cursor: head.cursor + 1,
                current_char: r,
                line: head.line,
                column: head.column + 1,
            }
        }
    }

    /// Moves the cursor one character on, by exactly one, and returns the
    /// character that it then stands on. Past the end of the text there is
    /// none, and the cursor moves all the same.
    fn read_char(&mut self) -> (c: Option<char>)
        requires
            old(self).offset() <= old(self).text().len() + 1,
        ensures
            final(self).text() == old(self).text(),
            final(self).offset() == old(self).offset() + 1,
            c == char_at(final(self).text(), final(self).offset()),
    {
        proof {
            use_type_invariant(&*self);
        }
        self.head = Lexer::advance(&self.input, self.head);
        self.head.current_char
    }

    /// The character under the cursor.
    fn current_char(&self) -> (c: Option<char>)
        ensures
            c == char_at(self.text(), self.offset()),
    {
        proof {
            use_type_invariant(self);
        }
        self.head.current_char
    }

    /// The character after the one under the cursor.
    fn peek_char(&self) -> (c: Option<char>)
        ensures
            c == char_at(self.text(), self.offset() + 1),
    {
        proof {
            use_type_invariant(self);
        }
        if self.head.cursor >= self.input.len() {
            None
        } else {
            Some(self.input[self.head.cursor])
        }
    }

    fn is_alpha(ch: char) -> (b: bool)
        ensures
            b == lexical::is_alpha(ch),
    {
        ('a' <= ch && ch <= 'z') || ('A' <= ch && ch <= 'Z') || ch == '_'
    }

    fn is_digit(ch: char) -> (b: bool)
        ensures
            b == lexical::is_digit(ch),
    {
        '0' <= ch && ch <= '9'
    }

    fn is_alphanumeric(ch: char) -> (b: bool)
        ensures
            b == lexical::is_alphanumeric(ch),
    {
        Lexer::is_alpha(ch) || Lexer::is_digit(ch)
    }

    fn is_whitespace(ch: char) -> (b: bool)
        ensures
            b == lexical::is_whitespace(ch),
    {
        ('\u{9}' <= ch && ch <= '\u{d}') || ch == ' ' || ch == '\u{85}' || ch == '\u{a0}' || ch
            == '\u{1680}' || ('\u{2000}' <= ch && ch <= '\u{200a}') || ch == '\u{2028}' || ch
            == '\u{2029}' || ch == '\u{202f}' || ch == '\u{205f}' || ch == '\u{3000}'
    }

    /// The symbol that the single character `ch` writes.
    fn symbol(ch: char) -> (symbol: Option<SymbolKind>)
        ensures
            symbol == symbol_of(ch),
    {
        if ch == '=' {
            Some(SymbolKind::Assign)
        } else if ch == '+' {
            Some(SymbolKind::Plus)
        } else if ch == '(' {
            Some(SymbolKind::LeftParen)
        } else if ch == ')' {
            Some(SymbolKind::RightParen)
        } else if ch == '{' {
            Some(SymbolKind::LeftBrace)
        } else if ch == '}' {
            Some(SymbolKind::RightBrace)
        } else if ch == ',' {
            Some(SymbolKind::Comma)
        } else if ch == ';' {
            Some(SymbolKind::Semicolon)
        } else if ch == ':' {
            Some(SymbolKind::Colon)
        } else if ch == '!' {
            Some(SymbolKind::Bang)
        } else if ch == '-' {
            Some(SymbolKind::Minus)
        } else if ch == '*' {
            Some(SymbolKind::Asterisk)
        } else if ch == '<' {
            Some(SymbolKind::Lt)
        } else if ch == '>' {
            Some(SymbolKind::Gt)
        } else if ch == '/' {
            Some(SymbolKind::Slash)
        } else if ch == '%' {
            Some(SymbolKind::Mod)
        } else {
            None
        }
    }

    /// Passes over the rest of the line: the cursor comes to stand on the
    /// next line feed, or at the end of the text.
    fn skip_line(&mut self)
        requires
            0 <= old(self).offset() < old(self).text().len(),
        ensures
            final(self).text() == old(self).text(),
            final(self).offset() == line_end(old(self).text(), old(self).offset() + 1),
    {
        loop
            invariant_except_break
                0 <= self.offset() < self.text().len(),
                line_end(self.text(), self.offset() + 1) == line_end(
                    old(self).text(),
                    old(self).offset() + 1,
                ),
            invariant
                self.text() == old(self).text(),
            ensures
                self.offset() == line_end(old(self).text(), old(self).offset() + 1),
            decreases self.text().len() - self.offset(),
        {
            let next = self.read_char();
            match next {
                None => {
                    break ;
                },
                Some(c) => {
                    if c == '\n' {
                        break ;
                    }
                },
            }
        }
    }

    /// Passes over blanks and over one comment: the cursor comes to stand
    /// where the next token begins.
    fn skip_whitespace(&mut self)
        ensures
            final(self).text() == old(self).text(),
            final(self).offset() == token_start(old(self).text(), old(self).offset()),
    {
        loop
            invariant_except_break
                blanks_end(self.text(), self.offset()) == blanks_end(
                    old(self).text(),
                    old(self).offset(),
                ),
            invariant
                self.text() == old(self).text(),
            ensures
                self.offset() == blanks_end(old(self).text(), old(self).offset()),
            decreases self.text().len() - self.offset(),
        {
            match self.current_char() {
                None => {
                    break ;
                },
                Some(c) => {
                    if c != '\n' && Lexer::is_whitespace(c) {
                        self.read_char();
                    } else {
                        break ;
                    }
                },
            }
        }
        let at_comment = match self.current_char() {
            Some(c) => c == '/' && match self.peek_char() {
                Some(next) => next == '/',
                None => false,
            },
            None => false,
        };
        if at_comment {
            self.read_char();
            self.skip_line();
        }
    }

    /// Reads a word: the cursor comes to stand behind the longest run of
    /// letters, digits and underscores that begins under it.
    fn read_identifier(&mut self) -> (word: String)
        requires
            char_at(old(self).text(), old(self).offset()) matches Some(c)
                && lexical::is_alphanumeric(c),
        ensures
            final(self).text() == old(self).text(),
            final(self).offset() == word_end(old(self).text(), old(self).offset()),
            word@ == old(self).text().subrange(
                old(self).offset(),
                word_end(old(self).text(), old(self).offset()),
            ),
    {
        let mut buffer = String::new();
        loop
            invariant_except_break
                char_at(self.text(), self.offset()) matches Some(c) && lexical::is_alphanumeric(c),
                word_end(self.text(), self.offset()) == word_end(
                    old(self).text(),
                    old(self).offset(),
                ),
                buffer@ == self.text().subrange(old(self).offset(), self.offset()),
            invariant
                self.text() == old(self).text(),
                0 <= old(self).offset() <= self.offset() <= self.text().len(),
            ensures
                self.offset() == word_end(old(self).text(), old(self).offset()),
                buffer@ == self.text().subrange(old(self).offset(), self.offset()),
            decreases self.text().len() - self.offset(),
        {
            let ghost before = self.offset();
            match self.current_char() {
                Some(c) => {
                    buffer.push(c);
                },
                None => {},
            }
            let next = self.read_char();
            assert(buffer@ == self.text().subrange(old(self).offset(), self.offset())) by {
                assert(self.text().subrange(old(self).offset(), before).push(self.text()[before])
                    =~= self.text().subrange(old(self).offset(), before + 1));
            }
            assert(word_end(self.text(), before) == word_end(self.text(), before + 1));
            match next {
                None => {
                    assert(word_end(self.text(), self.offset()) == self.offset());
                    break ;
                },
                Some(c) => {
                    if !Lexer::is_alphanumeric(c) {
                        assert(word_end(self.text(), self.offset()) == self.offset());
                        break ;
                    }
                },
            }
        }
        buffer
    }

    /// Reads the character behind a backslash and returns what the escape
    /// stands for.
    fn read_escaped_char_literal(&mut self) -> (c: Option<char>)
        requires
            old(self).offset() <= old(self).text().len() + 1,
        ensures
            final(self).text() == old(self).text(),
            final(self).offset() == old(self).offset() + 1,
            c == unescape(char_at(old(self).text(), old(self).offset() + 1)),
    {
        match self.read_char() {
            Some(c) => {
                if c == '\'' || c == '"' || c == '\\' {
                    Some(c)
                } else if c == 't' {
                    Some('\t')
                } else if c == 'n' {
                    Some('\n')
                } else if c == 'f' {
                    Some('\u{c}')
                } else if c == 'r' {
                    Some('\r')
                } else if c == 'v' {
                    Some('\u{b}')
                } else {
                    None
                }
            },
            None => None,
        }
    }

    /// Reads a character literal from its opening quote. The cursor comes to
    /// stand where the closing quote belongs.
    fn read_char_literal(&mut self) -> (literal: Option<char>)
        requires
            0 <= old(self).offset() < old(self).text().len(),
        ensures
            final(self).text() == old(self).text(),
            final(self).offset() + 1 == char_literal(old(self).text(), old(self).offset()).end,
            char_literal(old(self).text(), old(self).offset()).kind == match literal {
                Some(c) => TokenKindView::CharLiteral(c),
                None => TokenKindView::Illegal,
            },
    {
        let first = self.read_char();
        let escaped = match first {
            Some(c) => c == '\\',
            None => false,
        };
        let body = if escaped {
            self.read_escaped_char_literal()
        } else {
            first
        };
        let closed = match self.read_char() {
            Some(c) => c == '\'',
            None => false,
        };
        if closed {
            body
        } else {
            None
        }
    }

    /// Reads a string literal from its opening quote. The cursor comes to
    /// stand on the closing quote, or past the end of the text if there is
    /// none.
    fn read_string_literal(&mut self) -> (literal: Option<String>)
        requires
            0 <= old(self).offset() < old(self).text().len(),
        ensures
            final(self).text() == old(self).text(),
            final(self).offset() == string_close(old(self).text(), old(self).offset() + 1),
            match literal {
                Some(s) => final(self).offset() < old(self).text().len() && s@ == string_text(
                    old(self).text(),
                    old(self).offset() + 1,
                ),
                None => final(self).offset() >= old(self).text().len(),
            },
    {
        let mut buffer = String::new();
        loop
            invariant
                self.text() == old(self).text(),
                0 <= self.offset() <= self.text().len(),
                string_close(self.text(), self.offset() + 1) == string_close(
                    old(self).text(),
                    old(self).offset() + 1,
                ),
                buffer@ + string_text(self.text(), self.offset() + 1) == string_text(
                    old(self).text(),
                    old(self).offset() + 1,
                ),
            decreases self.text().len() + 1 - self.offset(),
        {
            let ghost at = self.offset() + 1;
            let ghost so_far = buffer@;
            match self.read_char() {
                None => {
                    return None;
                },
                Some(c) => {
                    if c == '"' {
                        assert(buffer@ + Seq::<char>::empty() =~= buffer@);
                        return Some(buffer);
                    } else if c == '\\' {
                        match self.read_escaped_char_literal() {
                            Some(e) => {
                                buffer.push(e);
                                assert(buffer@ + string_text(self.text(), at + 2) =~= so_far + (
                                seq![e] + string_text(self.text(), at + 2)));
                            },
                            None => {},
                        }
                    } else {
                        buffer.push(c);
                        assert(buffer@ + string_text(self.text(), at + 1) =~= so_far + (seq![c]
                            + string_text(self.text(), at + 1)));
                    }
                },
            }
        }
    }

    /// Reads a run of digits. The cursor comes to stand behind it. The value
    /// of the run is returned if it fits in 64 signed bits.
    fn read_decimal_literal(&mut self) -> (value: Option<i64>)
        requires
            char_at(old(self).text(), old(self).offset()) matches Some(c) && lexical::is_digit(c),
        ensures
            final(self).text() == old(self).text(),
            final(self).offset() == digits_end(old(self).text(), old(self).offset()),
            number_kind(
                old(self).text().subrange(
                    old(self).offset(),
                    digits_end(old(self).text(), old(self).offset()),
                ),
            ) == match value {
                Some(v) => TokenKindView::IntegerLiteral(v),
                None => TokenKindView::Illegal,
            },
    {
        let mut total: i64 = 0;
        let mut fits = true;
        loop
            invariant_except_break
                char_at(self.text(), self.offset()) matches Some(c) && lexical::is_digit(c),
                digits_end(self.text(), self.offset()) == digits_end(
                    old(self).text(),
                    old(self).offset(),
                ),
            invariant
                self.text() == old(self).text(),
                0 <= old(self).offset() <= self.offset() <= self.text().len(),
                0 <= total,
                fits ==> total == decimal_value(
                    self.text().subrange(old(self).offset(), self.offset()),
                ),
                !fits ==> decimal_value(self.text().subrange(old(self).offset(), self.offset()))
                    > i64::MAX,
            ensures
                self.offset() == digits_end(old(self).text(), old(self).offset()),
            decreases self.text().len() - self.offset(),
        {
            let ghost before = self.offset();
            let ghost digits = self.text().subrange(old(self).offset(), before + 1);
            proof {
                assert(digits.drop_last() =~= self.text().subrange(old(self).offset(), before));
                assert(digits.last() == self.text()[before]);
            }
            match self.current_char() {
                Some(c) => {
                    let digit = Lexer::digit(c);
                    if fits && (total < i64::MAX / 10 || (total == i64::MAX / 10 && digit
                        <= i64::MAX % 10)) {
                        total = total * 10 + digit;
                    } else {
                        fits = false;
                    }
                },
                None => {},
            }
            let next = self.read_char();
            assert(digits_end(self.text(), before) == digits_end(self.text(), before + 1));
            match next {
                None => {
                    assert(digits_end(self.text(), self.offset()) == self.offset());
                    break ;
                },
                Some(c) => {
                    if !Lexer::is_digit(c) {
                        assert(digits_end(self.text(), self.offset()) == self.offset());
                        break ;
                    }
                },
            }
        }
        if fits {
            Some(total)
        } else {
            None
        }
    }

    /// The number that the digit `ch` stands for.
    fn digit(ch: char) -> (value: i64)
        requires
            lexical::is_digit(ch),
        ensures
            value == digit_value(ch),
            0 <= value <= 9,
    {
        (ch as u32 - '0' as u32) as i64
    }

    /// The keyword that `identifier` spells, or else the name that it is.
    fn lookup_identifier(identifier: String) -> (kind: TokenKind)
        ensures
            kind@ == word_kind(identifier@),
    {
        proof {
            lemma_keyword_literals();
            lemma_keyword_of_text(KeywordKind::Fn);
            lemma_keyword_of_text(KeywordKind::Let);
            lemma_keyword_of_text(KeywordKind::If);
            lemma_keyword_of_text(KeywordKind::Else);
            lemma_keyword_of_text(KeywordKind::For);
            lemma_keyword_of_text(KeywordKind::While);
            lemma_keyword_of_text(KeywordKind::Enum);
            lemma_keyword_of_text(KeywordKind::Struct);
            lemma_keyword_of_text(KeywordKind::Break);
            lemma_keyword_of_text(KeywordKind::Continue);
            lemma_keyword_of_text(KeywordKind::True);
            lemma_keyword_of_text(KeywordKind::False);
            lemma_keyword_of_text(KeywordKind::Match);
            lemma_keyword_of_text(KeywordKind::Return);
        }
        let word = identifier.as_str();
        if same_text(word, "fn") {
            TokenKind::Keyword(KeywordKind::Fn)
        } else if same_text(word, "let") {
            TokenKind::Keyword(KeywordKind::Let)
        } else if same_text(word, "if") {
            TokenKind::Keyword(KeywordKind::If)
        } else if same_text(word, "else") {
            TokenKind::Keyword(KeywordKind::Else)
        } else if same_text(word, "for") {
            TokenKind::Keyword(KeywordKind::For)
        } else if same_text(word, "while") {
            TokenKind::Keyword(KeywordKind::While)
        } else if same_text(word, "enum") {
            TokenKind::Keyword(KeywordKind::Enum)
        } else if same_text(word, "struct") {
            TokenKind::Keyword(KeywordKind::Struct)
        } else if same_text(word, "break") {
            TokenKind::Keyword(KeywordKind::Break)
        } else if same_text(word, "continue") {
            TokenKind::Keyword(KeywordKind::Continue)
        } else if same_text(word, "true") {
            TokenKind::Keyword(KeywordKind::True)
        } else if same_text(word, "false") {
            TokenKind::Keyword(KeywordKind::False)
        } else if same_text(word, "match") {
            TokenKind::Keyword(KeywordKind::Match)
        } else if same_text(word, "return") {
            TokenKind::Keyword(KeywordKind::Return)
        } else {
            assert(keyword_of(identifier@) is None) by {
                assert forall|keyword: KeywordKind|
                    #[trigger] keyword_text(keyword) != identifier@ by {
                    match keyword {
                        KeywordKind::Fn => {},
                        KeywordKind::If => {},
                        KeywordKind::Else => {},
                        KeywordKind::For => {},
                        KeywordKind::While => {},
                        KeywordKind::Enum => {},
                        KeywordKind::Struct => {},
                        KeywordKind::Break => {},
                        KeywordKind::Continue => {},
                        KeywordKind::Let => {},
                        KeywordKind::True => {},
                        KeywordKind::False => {},
                        KeywordKind::Match => {},
                        KeywordKind::Return => {},
                    }
                }
            }
            TokenKind::Identifier(identifier)
        }
    }

    /// Yields the next token, or `None` at the end of the text.
    ///
    /// Blanks and a comment before the token are passed over. The token
    /// carries the line and the column of its first character. The cursor
    /// comes to stand behind the token; at the end of the text it stays
    /// where the blanks and the comment end.
    pub fn next(&mut self) -> (token: Option<Token>)
        ensures
            final(self).text() == old(self).text(),
            final(self).offset() == lex(old(self).text(), old(self).offset()).end,
            final(self).offset() == old(self).offset() + skipped(
                old(self).text(),
                old(self).offset(),
            ) + consumed(old(self).text(), old(self).offset()),
            match token {
                Some(t) => t@ == lex(old(self).text(), old(self).offset()).token,
                None => lex(old(self).text(), old(self).offset()).token.kind is EndOfInput,
            },
            token matches Some(t) ==> !(t.kind is EndOfInput),
    {
        self.skip_whitespace();
        proof {
            use_type_invariant(&*self);
            lemma_string_close_bounds(self.text(), self.offset() + 1);
        }
        let position = BufferPosition::new(self.head.line, self.head.column);
        let ch = match self.current_char() {
            Some(ch) => ch,
            None => {
                return None;
            },
        };
        let followed_by_equals = match self.peek_char() {
            Some(next) => next == '=',
            None => false,
        };
        let kind = if ch == '=' && followed_by_equals {
            self.read_char();
            TokenKind::Symbol(SymbolKind::Eq)
        } else if ch == '!' && followed_by_equals {
            self.read_char();
            TokenKind::Symbol(SymbolKind::NotEq)
        } else if let Some(symbol) = Lexer::symbol(ch) {
            TokenKind::Symbol(symbol)
        } else if ch == '\n' {
            TokenKind::Newline
        } else if ch == '\'' {
            match self.read_char_literal() {
                Some(literal) => TokenKind::CharLiteral(literal),
                None => TokenKind::Illegal,
            }
        } else if ch == '"' {
            match self.read_string_literal() {
                Some(literal) => TokenKind::StringLiteral(literal),
                None => TokenKind::Illegal,
            }
        } else if Lexer::is_alpha(ch) {
            let word = self.read_identifier();
            return Some(Token::new(Lexer::lookup_identifier(word), position));
        } else if Lexer::is_digit(ch) {
            let kind = match self.read_decimal_literal() {
                Some(value) => TokenKind::IntegerLiteral(value),
                None => TokenKind::Illegal,
            };
            return Some(Token::new(kind, position));
        } else {
            TokenKind::Illegal
        };
        self.read_char();
        Some(Token::new(kind, position))
    }

    /// Yields the next token. At the end of the text it yields the
    /// end-of-input token, at the place where the cursor stands, as often as
    /// it is asked.
    pub fn next_token(&mut self) -> (token: Token)
        ensures
            final(self).text() == old(self).text(),
            final(self).offset() == lex(old(self).text(), old(self).offset()).end,
            token@ == lex(old(self).text(), old(self).offset()).token,
    {
        match self.next() {
            Some(token) => token,
            None => {
                proof {
                    use_type_invariant(&*self);
                }
                Token::end_of_input(BufferPosition::new(self.head.line, self.head.column))
            },
        }
    }

    /// Yields all the tokens that are still to come, in order. The end of
    /// input is not among them. There are no more of them than the text has
    /// characters.
    pub fn tokens(&mut self) -> (tokens: Vec<Token>)
        ensures
            final(self).text() == old(self).text(),
            tokens@.len() == old(self).remaining().len(),
            forall|i: int| 0 <= i < tokens@.len() ==> tokens@[i]@ == old(self).remaining()[i],
            tokens@.len() <= old(self).text().len(),
            final(self).remaining().len() == 0,
    {
        let mut tokens: Vec<Token> = Vec::new();
        proof {
            use_type_invariant(&*self);
            lemma_token_count(self.text(), self.offset());
        }
        assert(self.remaining().skip(0) =~= self.remaining());
        loop
            invariant
                self.text() == old(self).text(),
                tokens@.len() <= old(self).remaining().len(),
                self.remaining() == old(self).remaining().skip(tokens@.len() as int),
                forall|i: int| 0 <= i < tokens@.len() ==> tokens@[i]@ == old(self).remaining()[i],
            ensures
                self.remaining().len() == 0,
            decreases self.remaining().len(),
        {
            let ghost before = self.remaining();
            let ghost step = lex(self.text(), self.offset());
            let ghost count = tokens@.len() as int;
            proof {
                if step.token.kind is EndOfInput {
                    lemma_end_of_input_is_final(self.text(), self.offset());
                }
            }
            match self.next() {
                Some(token) => {
                    assert(before =~= seq![step.token] + self.remaining());
                    assert(before[0] == old(self).remaining()[count]);
                    assert(self.remaining() =~= before.skip(1));
                    assert(before.skip(1) =~= old(self).remaining().skip(count + 1));
                    tokens.push(token);
                },
                None => {
                    break ;
                },
            }
        }
        tokens
    }
}

impl Clone for Lexer {
    fn clone(&self) -> (copy: Lexer)
        ensures
            copy.text() == self.text(),
            copy.offset() == self.offset(),
    {
        proof {
            use_type_invariant(self);
        }
        let input = self.input.clone();
        assert(input@ =~= self.input@);
        Lexer { input, head: self.head }
    }
}

/// Tokenizing is a function of the text alone: two lexers that stand at the
/// same offset of the same text take the same step and have the same tokens
/// before them.
pub proof fn lemma_same_text_same_tokens(first: Lexer, second: Lexer)
    requires
        first.text() == second.text(),
        first.offset() == second.offset(),
    ensures
        lex(first.text(), first.offset()) == lex(second.text(), second.offset()),
        first.remaining() == second.remaining(),
{
}

} // verus!
