//! The policy type language: its tokens, lexer and parser.
use vstd::prelude::*;

use crate::field::{field_name, Field, FieldV};
use crate::on_conflict::OnConflict;
use crate::policy_type::{PolicyType, PolicyTypeV};
use crate::text::{
    ascii_digit, char_is_alphabetic, char_is_alphanumeric, char_is_whitespace, is_alphabetic,
    is_alphanumeric, is_white_space, push_decimal, push_text, string_from_chars, string_of, text_eq,
    decimal, escape_plain,
};

verus! {

/// A line and column in the input, both counted from one.
#[derive(Clone, Copy, Debug, PartialEq, Eq, Structural)]
pub struct Position {
    /// The line, from one.
    pub line: usize,
    /// The column, from one.
    pub column: usize,
}

impl Position {
    /// A position at `line` and `column`.
    pub fn new(line: usize, column: usize) -> (p: Self)
        ensures
            p.line == line,
            p.column == column,
    {
        Self { line, column }
    }
}

/// Why a policy type could not be parsed.
#[derive(Debug)]
pub enum ParseError {
    /// Another token was expected.
    UnexpectedToken { expected: String, found: String, position: Position },
    /// The input ended where a token was expected.
    UnexpectedEndOfInput { expected: String, position: Position },
    /// An identifier is malformed.
    InvalidIdentifier { reason: String, position: Position },
    /// A string literal is malformed.
    InvalidStringLiteral { reason: String, position: Position },
    /// A number literal is malformed.
    InvalidNumber { reason: String, position: Position },
    /// Two fields share a name.
    DuplicateFieldName { name: String, position: Position },
    /// Any other error.
    Custom { message: String, position: Position },
}

/// The mathematical value of a parse error.
pub enum ParseErrorV {
    UnexpectedToken { expected: Seq<char>, found: Seq<char>, position: Position },
    UnexpectedEndOfInput { expected: Seq<char>, position: Position },
    InvalidIdentifier { reason: Seq<char>, position: Position },
    InvalidStringLiteral { reason: Seq<char>, position: Position },
    InvalidNumber { reason: Seq<char>, position: Position },
    DuplicateFieldName { name: Seq<char>, position: Position },
    Custom { message: Seq<char>, position: Position },
}

impl View for ParseError {
    type V = ParseErrorV;

    open spec fn view(&self) -> ParseErrorV {
        match self {
            ParseError::UnexpectedToken { expected, found, position } =>
                ParseErrorV::UnexpectedToken {
                expected: expected@,
                found: found@,
                position: *position,
            },
            ParseError::UnexpectedEndOfInput { expected, position } =>
                ParseErrorV::UnexpectedEndOfInput { expected: expected@, position: *position },
            ParseError::InvalidIdentifier { reason, position } => ParseErrorV::InvalidIdentifier {
                reason: reason@,
                position: *position,
            },
            ParseError::InvalidStringLiteral { reason, position } =>
                ParseErrorV::InvalidStringLiteral { reason: reason@, position: *position },
            ParseError::InvalidNumber { reason, position } => ParseErrorV::InvalidNumber {
                reason: reason@,
                position: *position,
            },
            ParseError::DuplicateFieldName { name, position } => ParseErrorV::DuplicateFieldName {
                name: name@,
                position: *position,
            },
            ParseError::Custom { message, position } => ParseErrorV::Custom {
                message: message@,
                position: *position,
            },
        }
    }
}

/// The text of a parse error, as it is displayed.
pub open spec fn parse_error_text(e: ParseErrorV) -> Seq<char> {
    match e {
        ParseErrorV::UnexpectedToken { expected, found, position } => at_prefix(position)
            + "expected "@ + expected + ", found '"@ + found + "'"@,
        ParseErrorV::UnexpectedEndOfInput { expected, position } => at_prefix(position)
            + "unexpected end of input, expected "@ + expected,
        ParseErrorV::InvalidIdentifier { reason, position } => at_prefix(position)
            + "invalid identifier: "@ + reason,
        ParseErrorV::InvalidStringLiteral { reason, position } => at_prefix(position)
            + "invalid string literal: "@ + reason,
        ParseErrorV::InvalidNumber { reason, position } => at_prefix(position)
            + "invalid number: "@ + reason,
        ParseErrorV::DuplicateFieldName { name, position } => at_prefix(position)
            + "duplicate field name '"@ + name + "'"@,
        ParseErrorV::Custom { message, position } => at_prefix(position) + message,
    }
}

/// `at line L:C: `
pub open spec fn at_prefix(p: Position) -> Seq<char> {
    "at line "@ + decimal(p.line as nat) + ":"@ + decimal(p.column as nat) + ": "@
}

impl ParseError {
    /// The message of this error, as it is displayed.
    pub fn to_text(&self) -> (r: String)
        ensures
            r@ == parse_error_text(self@),
    {
        let mut r = String::new();
        let position = match self {
            ParseError::UnexpectedToken { position, .. } => position,
            ParseError::UnexpectedEndOfInput { position, .. } => position,
            ParseError::InvalidIdentifier { position, .. } => position,
            ParseError::InvalidStringLiteral { position, .. } => position,
            ParseError::InvalidNumber { position, .. } => position,
            ParseError::DuplicateFieldName { position, .. } => position,
            ParseError::Custom { position, .. } => position,
        };
        push_text(&mut r, "at line ");
        push_decimal(&mut r, position.line);
        push_text(&mut r, ":");
        push_decimal(&mut r, position.column);
        push_text(&mut r, ": ");
        assert(r@ == at_prefix(*position));
        match self {
            ParseError::UnexpectedToken { expected, found, .. } => {
                push_text(&mut r, "expected ");
                push_text(&mut r, expected.as_str());
                push_text(&mut r, ", found '");
                push_text(&mut r, found.as_str());
                push_text(&mut r, "'");
            },
            ParseError::UnexpectedEndOfInput { expected, .. } => {
                push_text(&mut r, "unexpected end of input, expected ");
                push_text(&mut r, expected.as_str());
            },
            ParseError::InvalidIdentifier { reason, .. } => {
                push_text(&mut r, "invalid identifier: ");
                push_text(&mut r, reason.as_str());
            },
            ParseError::InvalidStringLiteral { reason, .. } => {
                push_text(&mut r, "invalid string literal: ");
                push_text(&mut r, reason.as_str());
            },
            ParseError::InvalidNumber { reason, .. } => {
                push_text(&mut r, "invalid number: ");
                push_text(&mut r, reason.as_str());
            },
            ParseError::DuplicateFieldName { name, .. } => {
                push_text(&mut r, "duplicate field name '");
                push_text(&mut r, name.as_str());
                push_text(&mut r, "'");
            },
            ParseError::Custom { message, .. } => {
                push_text(&mut r, message.as_str());
            },
        }
        r
    }
}

/// A token of the policy type language.
#[derive(Debug)]
pub enum Token {
    /// `type`
    Type,
    /// `bool`
    Bool,
    /// `string`
    String,
    /// `number`
    Number,
    /// `true`
    True,
    /// `false`
    False,
    /// A name.
    Identifier(String),
    /// A string literal, unescaped.
    StringLiteral(String),
    /// A number literal, as written.
    NumberLiteral(String),
    /// `{`
    LeftBrace,
    /// `}`
    RightBrace,
    /// `[`
    LeftBracket,
    /// `]`
    RightBracket,
    /// `:`
    Colon,
    /// `,`
    Comma,
    /// `=`
    Equals,
    /// `@`
    At,
    /// `::`
    DoubleColon,
    /// `agreement`
    Agreement,
    /// `sticky`
    Sticky,
    /// `wins`
    Wins,
    /// `last`
    Last,
    /// `highest`
    Highest,
    /// `largest`
    Largest,
}

/// The mathematical value of a token.
pub enum TokenV {
    Type,
    Bool,
    String,
    Number,
    True,
    False,
    Identifier(Seq<char>),
    StringLiteral(Seq<char>),
    NumberLiteral(Seq<char>),
    LeftBrace,
    RightBrace,
    LeftBracket,
    RightBracket,
    Colon,
    Comma,
    Equals,
    At,
    DoubleColon,
    Agreement,
    Sticky,
    Wins,
    Last,
    Highest,
    Largest,
}

impl View for Token {
    type V = TokenV;

    open spec fn view(&self) -> TokenV {
        match self {
            Token::Type => TokenV::Type,
            Token::Bool => TokenV::Bool,
            Token::String => TokenV::String,
            Token::Number => TokenV::Number,
            Token::True => TokenV::True,
            Token::False => TokenV::False,
            Token::Identifier(s) => TokenV::Identifier(s@),
            Token::StringLiteral(s) => TokenV::StringLiteral(s@),
            Token::NumberLiteral(s) => TokenV::NumberLiteral(s@),
            Token::LeftBrace => TokenV::LeftBrace,
            Token::RightBrace => TokenV::RightBrace,
            Token::LeftBracket => TokenV::LeftBracket,
            Token::RightBracket => TokenV::RightBracket,
            Token::Colon => TokenV::Colon,
            Token::Comma => TokenV::Comma,
            Token::Equals => TokenV::Equals,
            Token::At => TokenV::At,
            Token::DoubleColon => TokenV::DoubleColon,
            Token::Agreement => TokenV::Agreement,
            Token::Sticky => TokenV::Sticky,
            Token::Wins => TokenV::Wins,
            Token::Last => TokenV::Last,
            Token::Highest => TokenV::Highest,
            Token::Largest => TokenV::Largest,
        }
    }
}

/// The text of a token, as it is displayed.
pub open spec fn token_text(t: TokenV) -> Seq<char> {
    match t {
        TokenV::Type => "type"@,
        TokenV::Bool => "bool"@,
        TokenV::String => "string"@,
        TokenV::Number => "number"@,
        TokenV::True => "true"@,
        TokenV::False => "false"@,
        TokenV::Identifier(s) => s,
        TokenV::StringLiteral(s) => seq!['"'] + s + seq!['"'],
        TokenV::NumberLiteral(s) => crate::number::number_display(s),
        TokenV::LeftBrace => "{"@,
        TokenV::RightBrace => "}"@,
        TokenV::LeftBracket => "["@,
        TokenV::RightBracket => "]"@,
        TokenV::Colon => ":"@,
        TokenV::Comma => ","@,
        TokenV::Equals => "="@,
        TokenV::At => "@"@,
        TokenV::DoubleColon => "::"@,
        TokenV::Agreement => "agreement"@,
        TokenV::Sticky => "sticky"@,
        TokenV::Wins => "wins"@,
        TokenV::Last => "last"@,
        TokenV::Highest => "highest"@,
        TokenV::Largest => "largest"@,
    }
}

impl Token {
    /// The text of this token, as it is displayed.
    pub fn to_text(&self) -> (r: String)
        ensures
            r@ == token_text(self@),
    {
        match self {
            Token::Type => string_of("type"),
            Token::Bool => string_of("bool"),
            Token::String => string_of("string"),
            Token::Number => string_of("number"),
            Token::True => string_of("true"),
            Token::False => string_of("false"),
            Token::Identifier(s) => s.clone(),
            Token::StringLiteral(s) => {
                let mut r = String::new();
                r.push('"');
                push_text(&mut r, s.as_str());
                r.push('"');
                assert(r@ =~= seq!['"'] + s@ + seq!['"']);
                r
            },
            Token::NumberLiteral(s) => crate::number::number_display_of(s.as_str()),
            Token::LeftBrace => string_of("{"),
            Token::RightBrace => string_of("}"),
            Token::LeftBracket => string_of("["),
            Token::RightBracket => string_of("]"),
            Token::Colon => string_of(":"),
            Token::Comma => string_of(","),
            Token::Equals => string_of("="),
            Token::At => string_of("@"),
            Token::DoubleColon => string_of("::"),
            Token::Agreement => string_of("agreement"),
            Token::Sticky => string_of("sticky"),
            Token::Wins => string_of("wins"),
            Token::Last => string_of("last"),
            Token::Highest => string_of("highest"),
            Token::Largest => string_of("largest"),
        }
    }

    /// A copy of this token.
    pub fn copy(&self) -> (r: Token)
        ensures
            r@ == self@,
    {
        match self {
            Token::Type => Token::Type,
            Token::Bool => Token::Bool,
            Token::String => Token::String,
            Token::Number => Token::Number,
            Token::True => Token::True,
            Token::False => Token::False,
            Token::Identifier(s) => Token::Identifier(s.clone()),
            Token::StringLiteral(s) => Token::StringLiteral(s.clone()),
            Token::NumberLiteral(s) => Token::NumberLiteral(s.clone()),
            Token::LeftBrace => Token::LeftBrace,
            Token::RightBrace => Token::RightBrace,
            Token::LeftBracket => Token::LeftBracket,
            Token::RightBracket => Token::RightBracket,
            Token::Colon => Token::Colon,
            Token::Comma => Token::Comma,
            Token::Equals => Token::Equals,
            Token::At => Token::At,
            Token::DoubleColon => Token::DoubleColon,
            Token::Agreement => Token::Agreement,
            Token::Sticky => Token::Sticky,
            Token::Wins => Token::Wins,
            Token::Last => Token::Last,
            Token::Highest => Token::Highest,
            Token::Largest => Token::Largest,
        }
    }

    /// Whether two tokens are the same token.
    pub fn same(&self, other: &Token) -> (r: bool)
        ensures
            r == (self@ == other@),
    {
        match self {
            Token::Identifier(a) => match other {
                Token::Identifier(b) => text_eq(a.as_str(), b.as_str()),
                _ => false,
            },
            Token::StringLiteral(a) => match other {
                Token::StringLiteral(b) => text_eq(a.as_str(), b.as_str()),
                _ => false,
            },
            Token::NumberLiteral(a) => match other {
                Token::NumberLiteral(b) => text_eq(a.as_str(), b.as_str()),
                _ => false,
            },
            Token::Type => matches!(other, Token::Type),
            Token::Bool => matches!(other, Token::Bool),
            Token::String => matches!(other, Token::String),
            Token::Number => matches!(other, Token::Number),
            Token::True => matches!(other, Token::True),
            Token::False => matches!(other, Token::False),
            Token::LeftBrace => matches!(other, Token::LeftBrace),
            Token::RightBrace => matches!(other, Token::RightBrace),
            Token::LeftBracket => matches!(other, Token::LeftBracket),
            Token::RightBracket => matches!(other, Token::RightBracket),
            Token::Colon => matches!(other, Token::Colon),
            Token::Comma => matches!(other, Token::Comma),
            Token::Equals => matches!(other, Token::Equals),
            Token::At => matches!(other, Token::At),
            Token::DoubleColon => matches!(other, Token::DoubleColon),
            Token::Agreement => matches!(other, Token::Agreement),
            Token::Sticky => matches!(other, Token::Sticky),
            Token::Wins => matches!(other, Token::Wins),
            Token::Last => matches!(other, Token::Last),
            Token::Highest => matches!(other, Token::Highest),
            Token::Largest => matches!(other, Token::Largest),
        }
    }
}

// ------------------------------------------------------------------ lexer spec

/// The line and column of the character at index `i`.
pub open spec fn line_col(s: Seq<char>, i: int) -> (int, int)
    decreases i,
{
    if i <= 0 {
        (1, 1)
    } else {
        let p = line_col(s, i - 1);
        if s[i - 1] == '\n' {
            (p.0 + 1, 1)
        } else {
            (p.0, p.1 + 1)
        }
    }
}

/// The position of the character at index `i`.
pub open spec fn pos_at(s: Seq<char>, i: int) -> Position {
    Position { line: line_col(s, i).0 as usize, column: line_col(s, i).1 as usize }
}

/// Line and column are at least one and at most `i + 1`.
pub proof fn lemma_line_col_bounds(s: Seq<char>, i: int)
    requires
        0 <= i,
    ensures
        1 <= line_col(s, i).0 <= i + 1,
        1 <= line_col(s, i).1 <= i + 1,
    decreases i,
{
    if i > 0 {
        lemma_line_col_bounds(s, i - 1);
    }
}

/// The index of the first character at or after `i` that is not white space.
pub open spec fn skip_ws(s: Seq<char>, i: int) -> int
    decreases s.len() - i,
{
    if 0 <= i < s.len() && is_white_space(s[i]) {
        skip_ws(s, i + 1)
    } else {
        i
    }
}

/// Whether a character may continue an identifier.
pub open spec fn ident_char(c: char) -> bool {
    is_alphanumeric(c) || c == '_'
}

/// The index just past the identifier characters that start at `i`.
pub open spec fn ident_end(s: Seq<char>, i: int) -> int
    decreases s.len() - i,
{
    if 0 <= i < s.len() && ident_char(s[i]) {
        ident_end(s, i + 1)
    } else {
        i
    }
}

/// The index just past the digits and (first) dot that start at `i`.
pub open spec fn number_end(s: Seq<char>, i: int, seen_dot: bool) -> int
    decreases s.len() - i,
{
    if 0 <= i < s.len() && (ascii_digit(s[i]) || (s[i] == '.' && !seen_dot)) {
        number_end(s, i + 1, seen_dot || s[i] == '.')
    } else {
        i
    }
}

/// Whether the characters of `s` from index `at` begin with `v` written as a
/// string literal: a double quote, `v` with a backslash before each double
/// quote and each backslash, and a double quote.
pub open spec fn quoted_at(s: Seq<char>, at: int, v: Seq<char>) -> bool {
    &&& 0 <= at
    &&& at + escape_plain(v).len() + 2 <= s.len()
    &&& s.subrange(at, at + escape_plain(v).len() + 2) == seq!['"'] + escape_plain(v) + seq!['"']
}

/// The rest of a string literal from index `j`: its unescaped text and the
/// index just past the closing quote.
pub open spec fn string_lit(
    s: Seq<char>,
    j: int,
    escaped: bool,
    acc: Seq<char>,
    start: int,
) -> Result<(Seq<char>, int), ParseErrorV>
    decreases s.len() - j,
{
    if j < 0 || j >= s.len() {
        Err(
            ParseErrorV::InvalidStringLiteral {
                reason: "unterminated string literal"@,
                position: pos_at(s, start),
            },
        )
    } else {
        let c = s[j];
        if c == '\\' && !escaped {
            string_lit(s, j + 1, true, acc, start)
        } else if c == '"' && !escaped {
            Ok((acc, j + 1))
        } else if escaped {
            if c == '"' || c == '\\' {
                string_lit(s, j + 1, false, acc.push(c), start)
            } else {
                Err(
                    ParseErrorV::InvalidStringLiteral {
                        reason: "invalid escape sequence '\\"@ + seq![c] + "'"@,
                        position: pos_at(s, j),
                    },
                )
            }
        } else {
            string_lit(s, j + 1, false, acc.push(c), start)
        }
    }
}

/// The number literal that starts at `j`: its text and the index past it.
pub open spec fn number_lit(s: Seq<char>, j: int) -> Result<(Seq<char>, int), ParseErrorV> {
    let k = if 0 <= j < s.len() && s[j] == '-' {
        j + 1
    } else {
        j
    };
    let e = number_end(s, k, false);
    let text = s.subrange(j, e);
    if exists|t: int| k <= t < e && ascii_digit(#[trigger] s[t]) {
        Ok((text, e))
    } else {
        Err(
            ParseErrorV::InvalidNumber {
                reason: "'"@ + text + "' is not a valid number"@,
                position: pos_at(s, j),
            },
        )
    }
}

/// The keyword an identifier spells, or the identifier itself.
pub open spec fn keyword(w: Seq<char>) -> TokenV {
    if w == "type"@ {
        TokenV::Type
    } else if w == "bool"@ {
        TokenV::Bool
    } else if w == "string"@ {
        TokenV::String
    } else if w == "number"@ {
        TokenV::Number
    } else if w == "true"@ {
        TokenV::True
    } else if w == "false"@ {
        TokenV::False
    } else if w == "agreement"@ {
        TokenV::Agreement
    } else if w == "sticky"@ {
        TokenV::Sticky
    } else if w == "wins"@ {
        TokenV::Wins
    } else if w == "last"@ {
        TokenV::Last
    } else if w == "highest"@ {
        TokenV::Highest
    } else if w == "largest"@ {
        TokenV::Largest
    } else {
        TokenV::Identifier(w)
    }
}

/// The token that starts at index `j` and the index just past it.
pub open spec fn lex_one(s: Seq<char>, j: int) -> Result<(TokenV, int), ParseErrorV> {
    let c = s[j];
    if c == '"' {
        match string_lit(s, j + 1, false, Seq::empty(), j) {
            Ok((text, e)) => Ok((TokenV::StringLiteral(text), e)),
            Err(e) => Err(e),
        }
    } else if c == '-' || ascii_digit(c) {
        match number_lit(s, j) {
            Ok((text, e)) => Ok((TokenV::NumberLiteral(text), e)),
            Err(e) => Err(e),
        }
    } else if c == '{' {
        Ok((TokenV::LeftBrace, j + 1))
    } else if c == '}' {
        Ok((TokenV::RightBrace, j + 1))
    } else if c == '[' {
        Ok((TokenV::LeftBracket, j + 1))
    } else if c == ']' {
        Ok((TokenV::RightBracket, j + 1))
    } else if c == ':' {
        if j + 1 < s.len() && s[j + 1] == ':' {
            Ok((TokenV::DoubleColon, j + 2))
        } else {
            Ok((TokenV::Colon, j + 1))
        }
    } else if c == ',' {
        Ok((TokenV::Comma, j + 1))
    } else if c == '=' {
        Ok((TokenV::Equals, j + 1))
    } else if c == '@' {
        Ok((TokenV::At, j + 1))
    } else if is_alphabetic(c) || c == '_' {
        let e = ident_end(s, j);
        Ok((keyword(s.subrange(j, e)), e))
    } else {
        Err(
            ParseErrorV::Custom {
                message: "unexpected character '"@ + seq![c] + "'"@,
                position: pos_at(s, j),
            },
        )
    }
}

/// `pre` followed by the tokens of `r`, or the error of `r`.
pub open spec fn prepend(
    pre: Seq<(TokenV, Position)>,
    r: Result<Seq<(TokenV, Position)>, ParseErrorV>,
) -> Result<Seq<(TokenV, Position)>, ParseErrorV> {
    match r {
        Ok(rest) => Ok(pre + rest),
        Err(e) => Err(e),
    }
}

/// The tokens of `s` from index `i` on, each with its position.
pub open spec fn lex(s: Seq<char>, i: int) -> Result<Seq<(TokenV, Position)>, ParseErrorV>
    decreases s.len() - i,
{
    let j = skip_ws(s, i);
    if j < 0 || j >= s.len() {
        Ok(Seq::empty())
    } else {
        match lex_one(s, j) {
            Err(e) => Err(e),
            Ok((t, k)) => if i <= j < k <= s.len() {
                prepend(seq![(t, pos_at(s, j))], lex(s, k))
            } else {
                Ok(Seq::empty())
            },
        }
    }
}

/// The tokens of a whole input.
pub open spec fn tokenize_spec(s: Seq<char>) -> Result<Seq<(TokenV, Position)>, ParseErrorV> {
    lex(s, 0)
}

/// The view of a token list.
pub open spec fn tokens_view(v: Seq<(Token, Position)>) -> Seq<(TokenV, Position)> {
    v.map_values(|p: (Token, Position)| (p.0@, p.1))
}

proof fn lemma_skip_ws_bounds(s: Seq<char>, i: int)
    requires
        0 <= i <= s.len(),
    ensures
        i <= skip_ws(s, i) <= s.len(),
        skip_ws(s, i) < s.len() ==> !is_white_space(s[skip_ws(s, i)]),
    decreases s.len() - i,
{
    if i < s.len() && is_white_space(s[i]) {
        lemma_skip_ws_bounds(s, i + 1);
    }
}

proof fn lemma_ident_end_bounds(s: Seq<char>, i: int)
    requires
        0 <= i <= s.len(),
    ensures
        i <= ident_end(s, i) <= s.len(),
        forall|t: int| i <= t < ident_end(s, i) ==> ident_char(#[trigger] s[t]),
        ident_end(s, i) < s.len() ==> !ident_char(s[ident_end(s, i)]),
    decreases s.len() - i,
{
    if i < s.len() && ident_char(s[i]) {
        lemma_ident_end_bounds(s, i + 1);
    }
}

proof fn lemma_number_end_bounds(s: Seq<char>, i: int, seen: bool)
    requires
        0 <= i <= s.len(),
    ensures
        i <= number_end(s, i, seen) <= s.len(),
    decreases s.len() - i,
{
    if i < s.len() && (ascii_digit(s[i]) || (s[i] == '.' && !seen)) {
        lemma_number_end_bounds(s, i + 1, seen || s[i] == '.');
    }
}

proof fn lemma_string_lit_bounds(
    s: Seq<char>,
    j: int,
    escaped: bool,
    acc: Seq<char>,
    start: int,
)
    requires
        0 <= j <= s.len(),
    ensures
        string_lit(s, j, escaped, acc, start) matches Ok((_, e)) ==> j < e <= s.len(),
    decreases s.len() - j,
{
    if j < s.len() {
        let c = s[j];
        if c == '\\' && !escaped {
            lemma_string_lit_bounds(s, j + 1, true, acc, start);
        } else if c == '"' && !escaped {
        } else if escaped {
            if c == '"' || c == '\\' {
                lemma_string_lit_bounds(s, j + 1, false, acc.push(c), start);
            }
        } else {
            lemma_string_lit_bounds(s, j + 1, false, acc.push(c), start);
        }
    }
}

/// A token found at `j` ends after `j` and within the input.
pub proof fn lemma_lex_one_progress(s: Seq<char>, j: int)
    requires
        0 <= j < s.len(),
    ensures
        lex_one(s, j) matches Ok((_, k)) ==> j < k <= s.len(),
{
    let c = s[j];
    if c == '"' {
        lemma_string_lit_bounds(s, j + 1, false, Seq::empty(), j);
    } else if c == '-' || ascii_digit(c) {
        let k = if s[j] == '-' {
            j + 1
        } else {
            j
        };
        lemma_number_end_bounds(s, k, false);
        if number_lit(s, j) is Ok {
            let e = number_end(s, k, false);
            let t = choose|t: int| k <= t < e && ascii_digit(#[trigger] s[t]);
        }
    } else if is_alphabetic(c) || c == '_' {
        lemma_ident_end_bounds(s, j);
        if (c as u32) < 128 {
        } else {
        }
    }
}

// ------------------------------------------------------------------ lexer

/// Splits policy type text into tokens.
pub struct Lexer {
    input: Vec<char>,
    position: usize,
    line: usize,
    column: usize,
}

impl Lexer {
    /// The characters being read.
    pub closed spec fn chars(&self) -> Seq<char> {
        self.input@
    }

    /// The index of the next character to read.
    pub closed spec fn at(&self) -> int {
        self.position as int
    }

    /// The lexer's own invariant: its line and column are those of its index.
    pub closed spec fn wf(&self) -> bool {
        &&& self.position <= self.input@.len()
        &&& self.input@.len() < usize::MAX
        &&& self.line as int == line_col(self.input@, self.position as int).0
        &&& self.column as int == line_col(self.input@, self.position as int).1
    }

    /// A lexer at the start of `input`.
    pub fn new(input: &str) -> (l: Self)
        requires
            input@.len() < usize::MAX,
        ensures
            l.wf(),
            l.chars() == input@,
            l.at() == 0,
    {
        Self::from_chars(crate::text::chars_of(input))
    }

    /// A lexer at the start of the characters `input`.
    pub fn from_chars(input: Vec<char>) -> (l: Self)
        requires
            input@.len() < usize::MAX,
        ensures
            l.wf(),
            l.chars() == input@,
            l.at() == 0,
    {
        Self { input, position: 0, line: 1, column: 1 }
    }

    /// The position of the next character.
    pub fn current_position(&self) -> (p: Position)
        requires
            self.wf(),
        ensures
            p == pos_at(self.chars(), self.at()),
    {
        Position::new(self.line, self.column)
    }

    /// The next character, if any.
    pub fn peek(&self) -> (c: Option<char>)
        requires
            self.wf(),
        ensures
            c == (if self.at() < self.chars().len() {
                Some(self.chars()[self.at()])
            } else {
                None
            }),
    {
        if self.position < self.input.len() {
            Some(self.input[self.position])
        } else {
            None
        }
    }

    /// Consumes the next character, keeping line and column up to date.
    pub fn advance(&mut self) -> (c: Option<char>)
        requires
            old(self).wf(),
        ensures
            final(self).wf(),
            final(self).chars() == old(self).chars(),
            c == (if old(self).at() < old(self).chars().len() {
                Some(old(self).chars()[old(self).at()])
            } else {
                None
            }),
            final(self).at() == (if old(self).at() < old(self).chars().len() {
                old(self).at() + 1
            } else {
                old(self).at()
            }),
    {
        if self.position < self.input.len() {
            let ch = self.input[self.position];
            proof {
                lemma_line_col_bounds(self.input@, self.position as int);
            }
            self.position = self.position + 1;
            if ch == '\n' {
                self.line = self.line + 1;
                self.column = 1;
            } else {
                self.column = self.column + 1;
            }
            Some(ch)
        } else {
            None
        }
    }

    /// Skips white space.
    pub fn skip_whitespace(&mut self)
        requires
            old(self).wf(),
        ensures
            final(self).wf(),
            final(self).chars() == old(self).chars(),
            final(self).at() == skip_ws(old(self).chars(), old(self).at()),
    {
        loop
            invariant
                self.wf(),
                self.chars() == old(self).chars(),
                skip_ws(self.chars(), self.at()) == skip_ws(old(self).chars(), old(self).at()),
            ensures
                self.wf(),
                self.chars() == old(self).chars(),
                self.at() == skip_ws(old(self).chars(), old(self).at()),
            decreases self.input@.len() - self.position,
        {
            if self.position >= self.input.len() {
                break ;
            }
            let ch = self.input[self.position];
            if char_is_whitespace(ch) {
                self.advance();
            } else {
                break ;
            }
        }
    }

    /// Reads the identifier that starts at the next character.
    pub fn read_identifier(&mut self) -> (r: String)
        requires
            old(self).wf(),
        ensures
            final(self).wf(),
            final(self).chars() == old(self).chars(),
            final(self).at() == ident_end(old(self).chars(), old(self).at()),
            r@ == old(self).chars().subrange(old(self).at(), final(self).at()),
    {
        let start = self.position;
        loop
            invariant
                self.wf(),
                self.chars() == old(self).chars(),
                start == old(self).at(),
                start <= self.position,
                ident_end(self.chars(), self.at()) == ident_end(old(self).chars(), old(self).at()),
            ensures
                self.wf(),
                self.chars() == old(self).chars(),
                start <= self.position,
                self.at() == ident_end(old(self).chars(), old(self).at()),
            decreases self.input@.len() - self.position,
        {
            if self.position >= self.input.len() {
                break ;
            }
            let ch = self.input[self.position];
            if char_is_alphanumeric(ch) || ch == '_' {
                self.advance();
            } else {
                break ;
            }
        }
        string_from_chars(&self.input, start, self.position)
    }

    /// Reads a string literal; the next character is its opening quote.
    fn read_string_literal(&mut self) -> (r: Result<String, ParseError>)
        requires
            old(self).wf(),
            old(self).at() < old(self).chars().len(),
        ensures
            final(self).chars() == old(self).chars(),
            match string_lit(old(self).chars(), old(self).at() + 1, false, Seq::empty(), old(self).at()) {
                Ok((text, e)) => r matches Ok(t) && t@ == text && final(self).wf() && final(self).at() == e,
                Err(err) => r matches Err(x) && x@ == err,
            },
            forall|v: Seq<char>|
                #![trigger escape_plain(v)]
                quoted_at(old(self).chars(), old(self).at(), v) ==> (r matches Ok(t) && t@ == v && final(self).at()
                    == old(self).at() + escape_plain(v).len() + 2),
    {
        let ghost s = self.input@;
        let ghost start = self.position as int;
        proof {
            assert forall|v: Seq<char>| #![trigger escape_plain(v)] quoted_at(s, start, v) implies string_lit(
                s,
                start + 1,
                false,
                Seq::empty(),
                start,
            ) == Ok::<(Seq<char>, int), ParseErrorV>((v, start + escape_plain(v).len() + 2)) by {
                let n = escape_plain(v).len() as int;
                let w = seq!['"'] + escape_plain(v) + seq!['"'];
                assert(s.subrange(start, start + n + 2) == w);
                assert(s[start] == w[0]);
                assert(s.subrange(start + 1, start + 1 + n) =~= w.subrange(1, 1 + n));
                assert(w.subrange(1, 1 + n) =~= escape_plain(v));
                assert(s[start + 1 + n] == w[n + 1]);
                crate::roundtrip::law_escaped_string_reads_back(s, start, v);
            }
        }
        let start_pos = self.current_position();
        self.advance();
        let mut result = String::new();
        let mut escaped = false;
        loop
            invariant
                self.wf(),
                self.chars() == s,
                s == old(self).chars(),
                start == old(self).at(),
                start_pos == pos_at(s, start),
                start < self.at(),
                string_lit(s, self.at(), escaped, result@, start) == string_lit(
                    s,
                    start + 1,
                    false,
                    Seq::empty(),
                    start,
                ),
                forall|v: Seq<char>| #![trigger escape_plain(v)] quoted_at(s, start, v) ==> string_lit(
                    s,
                    start + 1,
                    false,
                    Seq::empty(),
                    start,
                ) == Ok::<(Seq<char>, int), ParseErrorV>((v, start + escape_plain(v).len() + 2)),
            decreases s.len() - self.at(),
        {
            match self.peek() {
                None => {
                    return Err(
                        ParseError::InvalidStringLiteral {
                            reason: string_of("unterminated string literal"),
                            position: start_pos,
                        },
                    );
                },
                Some(ch) => {
                    if ch == '\\' && !escaped {
                        escaped = true;
                        self.advance();
                    } else if ch == '"' && !escaped {
                        self.advance();
                        return Ok(result);
                    } else {
                        if escaped {
                            if ch == '"' || ch == '\\' {
                                result.push(ch);
                            } else {
                                let mut reason = string_of("invalid escape sequence '\\");
                                reason.push(ch);
                                push_text(&mut reason, "'");
                                assert(reason@ =~= "invalid escape sequence '\\"@ + seq![ch] + "'"@);
                                return Err(
                                    ParseError::InvalidStringLiteral {
                                        reason,
                                        position: self.current_position(),
                                    },
                                );
                            }
                            escaped = false;
                        } else {
                            result.push(ch);
                        }
                        self.advance();
                    }
                },
            }
        }
    }

    /// Reads a number literal; the next character is `-` or a digit.
    fn read_number(&mut self) -> (r: Result<String, ParseError>)
        requires
            old(self).wf(),
            old(self).at() < old(self).chars().len(),
        ensures
            final(self).chars() == old(self).chars(),
            match number_lit(old(self).chars(), old(self).at()) {
                Ok((text, e)) => r matches Ok(t) && t@ == text && final(self).wf() && final(self).at() == e,
                Err(err) => r matches Err(x) && x@ == err,
            },
    {
        let ghost s = self.input@;
        let start = self.position;
        let start_pos = self.current_position();
        if self.input[self.position] == '-' {
            self.advance();
        }
        let digits_start = self.position;
        let mut seen_dot = false;
        let mut seen_digit = false;
        loop
            invariant
                self.wf(),
                self.chars() == s,
                s == old(self).chars(),
                start == old(self).at(),
                digits_start == (if s[start as int] == '-' {
                    start + 1
                } else {
                    start as int
                }),
                digits_start <= self.position,
                number_end(s, self.at(), seen_dot) == number_end(s, digits_start as int, false),
                seen_digit == exists|t: int| digits_start <= t < self.at() && ascii_digit(#[trigger] s[t]),
            ensures
                self.wf(),
                self.chars() == s,
                start <= digits_start <= self.position,
                self.at() == number_end(s, digits_start as int, false),
                seen_digit == exists|t: int| digits_start <= t < self.at() && ascii_digit(#[trigger] s[t]),
            decreases s.len() - self.position,
        {
            if self.position >= self.input.len() {
                break ;
            }
            let ch = self.input[self.position];
            if ('0' <= ch && ch <= '9') || (ch == '.' && !seen_dot) {
                if ch == '.' {
                    seen_dot = true;
                } else {
                    seen_digit = true;
                }
                let ghost before = self.at();
                self.advance();
                assert(forall|t: int| digits_start <= t < self.at() && ascii_digit(#[trigger] s[t])
                    ==> (digits_start <= t < before && ascii_digit(s[t])) || t == before);
            } else {
                break ;
            }
        }
        let text = string_from_chars(&self.input, start, self.position);
        if seen_digit {
            Ok(text)
        } else {
            let mut reason = string_of("'");
            push_text(&mut reason, text.as_str());
            push_text(&mut reason, "' is not a valid number");
            assert(reason@ =~= "'"@ + text@ + "' is not a valid number"@);
            Err(ParseError::InvalidNumber { reason, position: start_pos })
        }
    }

    /// Splits the rest of the input into tokens, each with its position.
    pub fn tokenize(&mut self) -> (r: Result<Vec<(Token, Position)>, ParseError>)
        requires
            old(self).wf(),
        ensures
            match lex(old(self).chars(), old(self).at()) {
                Ok(toks) => r matches Ok(v) && tokens_view(v@) == toks,
                Err(e) => r matches Err(x) && x@ == e,
            },
    {
        let ghost s = self.input@;
        let ghost i0 = self.at();
        let mut tokens: Vec<(Token, Position)> = Vec::new();
        loop
            invariant
                self.wf(),
                self.chars() == s,
                s == old(self).chars(),
                i0 == old(self).at(),
                lex(s, i0) == prepend(tokens_view(tokens@), lex(s, self.at())),
            decreases s.len() - self.at(),
        {
            let ghost before = self.at();
            self.skip_whitespace();
            proof {
                lemma_skip_ws_bounds(s, before);
            }
            let ghost j = self.at();
            let pos = self.current_position();
            match self.peek() {
                None => {
                    assert(tokens_view(tokens@) + Seq::<(TokenV, Position)>::empty() =~= tokens_view(tokens@));
                    return Ok(tokens);
                },
                Some(ch) => {
                    proof {
                        lemma_lex_one_progress(s, j);
                    }
                    let token = if ch == '"' {
                        match self.read_string_literal() {
                            Ok(t) => Token::StringLiteral(t),
                            Err(e) => {
                                return Err(e);
                            },
                        }
                    } else if ch == '-' || ('0' <= ch && ch <= '9') {
                        match self.read_number() {
                            Ok(t) => Token::NumberLiteral(t),
                            Err(e) => {
                                return Err(e);
                            },
                        }
                    } else if ch == '{' {
                        self.advance();
                        Token::LeftBrace
                    } else if ch == '}' {
                        self.advance();
                        Token::RightBrace
                    } else if ch == '[' {
                        self.advance();
                        Token::LeftBracket
                    } else if ch == ']' {
                        self.advance();
                        Token::RightBracket
                    } else if ch == ':' {
                        self.advance();
                        if self.peek() == Some(':') {
                            self.advance();
                            Token::DoubleColon
                        } else {
                            Token::Colon
                        }
                    } else if ch == ',' {
                        self.advance();
                        Token::Comma
                    } else if ch == '=' {
                        self.advance();
                        Token::Equals
                    } else if ch == '@' {
                        self.advance();
                        Token::At
                    } else if char_is_alphabetic(ch) || ch == '_' {
                        let ident = self.read_identifier();
                        keyword_token(ident)
                    } else {
                        let mut message = string_of("unexpected character '");
                        message.push(ch);
                        push_text(&mut message, "'");
                        assert(message@ =~= "unexpected character '"@ + seq![ch] + "'"@);
                        return Err(ParseError::Custom { message, position: pos });
                    };
                    let ghost old_tokens = tokens_view(tokens@);
                    tokens.push((token, pos));
                    proof {
                        assert(tokens_view(tokens@) =~= old_tokens + seq![(token@, pos)]);
                        match lex(s, self.at()) {
                            Ok(rest) => {
                                assert(old_tokens + (seq![(token@, pos)] + rest) =~= tokens_view(tokens@) + rest);
                            },
                            Err(_) => {},
                        }
                    }
                },
            }
        }
    }
}

/// The keyword token an identifier spells, or the identifier itself.
fn keyword_token(ident: String) -> (t: Token)
    ensures
        t@ == keyword(ident@),
{
    if text_eq(ident.as_str(), "type") {
        Token::Type
    } else if text_eq(ident.as_str(), "bool") {
        Token::Bool
    } else if text_eq(ident.as_str(), "string") {
        Token::String
    } else if text_eq(ident.as_str(), "number") {
        Token::Number
    } else if text_eq(ident.as_str(), "true") {
        Token::True
    } else if text_eq(ident.as_str(), "false") {
        Token::False
    } else if text_eq(ident.as_str(), "agreement") {
        Token::Agreement
    } else if text_eq(ident.as_str(), "sticky") {
        Token::Sticky
    } else if text_eq(ident.as_str(), "wins") {
        Token::Wins
    } else if text_eq(ident.as_str(), "last") {
        Token::Last
    } else if text_eq(ident.as_str(), "highest") {
        Token::Highest
    } else if text_eq(ident.as_str(), "largest") {
        Token::Largest
    } else {
        Token::Identifier(ident)
    }
}

// ------------------------------------------------------------------ parser spec

/// A token list with its positions.
pub type Toks = Seq<(TokenV, Position)>;

/// The token at index `k`, if any.
pub open spec fn peek_tok(toks: Toks, k: int) -> Option<TokenV> {
    if 0 <= k < toks.len() {
        Some(toks[k].0)
    } else {
        None
    }
}

/// The index past the token at `k`, if there is one.
pub open spec fn step(toks: Toks, k: int) -> int {
    if 0 <= k < toks.len() {
        k + 1
    } else {
        k
    }
}

/// The position reported for index `k`: that of its token, or one column
/// past the last token, or line 1 column 1 for no tokens.
pub open spec fn cur_pos(toks: Toks, k: int) -> Position {
    if 0 <= k < toks.len() {
        toks[k].1
    } else if toks.len() > 0 {
        Position {
            line: toks[toks.len() - 1].1.line,
            column: (toks[toks.len() - 1].1.column + 1) as usize,
        }
    } else {
        Position { line: 1, column: 1 }
    }
}

/// The token `expected` at `k`.
pub open spec fn p_expect(toks: Toks, k: int, expected: TokenV) -> Result<int, ParseErrorV> {
    match peek_tok(toks, k) {
        Some(t) => if t == expected {
            Ok(k + 1)
        } else {
            Err(
                ParseErrorV::UnexpectedToken {
                    expected: token_text(expected),
                    found: token_text(t),
                    position: cur_pos(toks, k),
                },
            )
        },
        None => Err(
            ParseErrorV::UnexpectedEndOfInput {
                expected: token_text(expected),
                position: cur_pos(toks, k),
            },
        ),
    }
}

/// The error for a token of the wrong kind at `k`, or for the end of input.
pub open spec fn wrong_token(toks: Toks, k: int, what: Seq<char>) -> ParseErrorV {
    match peek_tok(toks, k) {
        Some(t) => ParseErrorV::UnexpectedToken {
            expected: what,
            found: token_text(t),
            position: cur_pos(toks, k),
        },
        None => ParseErrorV::UnexpectedEndOfInput { expected: what, position: cur_pos(toks, k) },
    }
}

/// An identifier at `k`.
pub open spec fn p_ident(toks: Toks, k: int) -> Result<(Seq<char>, int), ParseErrorV> {
    match peek_tok(toks, k) {
        Some(TokenV::Identifier(n)) => Ok((n, k + 1)),
        _ => Err(wrong_token(toks, k, "identifier"@)),
    }
}

/// A string literal at `k`.
pub open spec fn p_strlit(toks: Toks, k: int) -> Result<(Seq<char>, int), ParseErrorV> {
    match peek_tok(toks, k) {
        Some(TokenV::StringLiteral(n)) => Ok((n, k + 1)),
        _ => Err(wrong_token(toks, k, "string literal"@)),
    }
}

/// A number literal at `k`.
pub open spec fn p_numlit(toks: Toks, k: int) -> Result<(Seq<char>, int), ParseErrorV> {
    match peek_tok(toks, k) {
        Some(TokenV::NumberLiteral(n)) => Ok((n, k + 1)),
        _ => Err(wrong_token(toks, k, "number literal"@)),
    }
}

/// The conflict strategy of a bool field: `@ sticky`, `@ agreement` or none.
pub open spec fn p_bool_conflict(toks: Toks, k: int) -> Result<(OnConflict, int), ParseErrorV> {
    if peek_tok(toks, k) == Some(TokenV::At) {
        match peek_tok(toks, k + 1) {
            Some(TokenV::Sticky) => Ok((OnConflict::LargestValue, k + 2)),
            Some(TokenV::Agreement) => Ok((OnConflict::Agreement, k + 2)),
            _ => Err(
                ParseErrorV::Custom {
                    message: "expected 'sticky' or 'agreement' after '@'"@,
                    position: cur_pos(toks, k + 1),
                },
            ),
        }
    } else {
        Ok((OnConflict::Default, k))
    }
}

/// `@ <word> wins`, `@ agreement` or nothing, where `word` is accepted by `is_word`.
pub open spec fn p_wins_conflict(
    toks: Toks,
    k: int,
    first: TokenV,
    second: TokenV,
    message: Seq<char>,
) -> Result<(OnConflict, int), ParseErrorV> {
    if peek_tok(toks, k) == Some(TokenV::At) {
        if peek_tok(toks, k + 1) == Some(first) || peek_tok(toks, k + 1) == Some(second) {
            match p_expect(toks, k + 2, TokenV::Wins) {
                Ok(k3) => Ok((OnConflict::LargestValue, k3)),
                Err(e) => Err(e),
            }
        } else if peek_tok(toks, k + 1) == Some(TokenV::Agreement) {
            Ok((OnConflict::Agreement, k + 2))
        } else {
            Err(ParseErrorV::Custom { message, position: cur_pos(toks, k + 1) })
        }
    } else {
        Ok((OnConflict::Default, k))
    }
}

/// The conflict strategy of a string field.
pub open spec fn p_string_conflict(toks: Toks, k: int) -> Result<(OnConflict, int), ParseErrorV> {
    p_wins_conflict(
        toks,
        k,
        TokenV::Last,
        TokenV::Last,
        "expected 'last wins' or 'agreement' after '@'"@,
    )
}

/// The conflict strategy of a string enum field.
pub open spec fn p_enum_conflict(toks: Toks, k: int) -> Result<(OnConflict, int), ParseErrorV> {
    p_wins_conflict(
        toks,
        k,
        TokenV::Highest,
        TokenV::Highest,
        "expected 'highest wins' or 'agreement' after '@'"@,
    )
}

/// The conflict strategy of a number field.
pub open spec fn p_number_conflict(toks: Toks, k: int) -> Result<(OnConflict, int), ParseErrorV> {
    p_wins_conflict(
        toks,
        k,
        TokenV::Last,
        TokenV::Largest,
        "expected 'last wins', 'largest wins', or 'agreement' after '@'"@,
    )
}

/// The values `, "v"` that follow the first value of an enum.
pub open spec fn p_enum_values(toks: Toks, k: int, acc: Seq<Seq<char>>) -> Result<
    (Seq<Seq<char>>, int),
    ParseErrorV,
>
    decreases toks.len() - k,
{
    if peek_tok(toks, k) == Some(TokenV::Comma) {
        match p_strlit(toks, k + 1) {
            Ok((v, k2)) => if k < k2 <= toks.len() {
                p_enum_values(toks, k2, acc.push(v))
            } else {
                Ok((acc, k))
            },
            Err(e) => Err(e),
        }
    } else {
        Ok((acc, k))
    }
}

/// An optional `= default` read by `lit`.
pub open spec fn p_default_str(toks: Toks, k: int) -> Result<(Option<Seq<char>>, int), ParseErrorV> {
    if peek_tok(toks, k) == Some(TokenV::Equals) {
        match p_strlit(toks, k + 1) {
            Ok((d, k2)) => Ok((Some(d), k2)),
            Err(e) => Err(e),
        }
    } else {
        Ok((None, k))
    }
}

/// An optional `= number`, kept as the number is displayed.
pub open spec fn p_default_num(toks: Toks, k: int) -> Result<(Option<Seq<char>>, int), ParseErrorV> {
    if peek_tok(toks, k) == Some(TokenV::Equals) {
        match p_numlit(toks, k + 1) {
            Ok((d, k2)) => Ok((Some(crate::number::number_display(d)), k2)),
            Err(e) => Err(e),
        }
    } else {
        Ok((None, k))
    }
}

/// An optional `= true` or `= false`; `false` where it is left out.
pub open spec fn p_default_bool(toks: Toks, k: int) -> Result<(bool, int), ParseErrorV> {
    if peek_tok(toks, k) == Some(TokenV::Equals) {
        match peek_tok(toks, k + 1) {
            Some(TokenV::True) => Ok((true, k + 2)),
            Some(TokenV::False) => Ok((false, k + 2)),
            _ => Err(
                ParseErrorV::Custom {
                    message: "expected 'true' or 'false' after '='"@,
                    position: cur_pos(toks, step(toks, k + 1)),
                },
            ),
        }
    } else {
        Ok((false, k))
    }
}

/// The type and default of a field, from the token after its colon.
pub open spec fn p_field_type(toks: Toks, k2: int, name: Seq<char>) -> Result<(FieldV, int), ParseErrorV> {
    match peek_tok(toks, k2) {
        Some(TokenV::Bool) => match p_bool_conflict(toks, k2 + 1) {
            Ok((oc, k3)) => match p_default_bool(toks, k3) {
                Ok((d, k4)) => Ok((FieldV::Bool { name, default: d, on_conflict: oc }, k4)),
                Err(e) => Err(e),
            },
            Err(e) => Err(e),
        },
        Some(TokenV::String) => match p_string_conflict(toks, k2 + 1) {
            Ok((oc, k3)) => match p_default_str(toks, k3) {
                Ok((d, k4)) => Ok((FieldV::String { name, default: d, on_conflict: oc }, k4)),
                Err(e) => Err(e),
            },
            Err(e) => Err(e),
        },
        Some(TokenV::Number) => match p_number_conflict(toks, k2 + 1) {
            Ok((oc, k3)) => match p_default_num(toks, k3) {
                Ok((d, k4)) => Ok((FieldV::Number { name, default: d, on_conflict: oc }, k4)),
                Err(e) => Err(e),
            },
            Err(e) => Err(e),
        },
        Some(TokenV::LeftBracket) => if peek_tok(toks, k2 + 1) == Some(TokenV::String) {
            match p_expect(toks, k2 + 2, TokenV::RightBracket) {
                Ok(k4) => Ok((FieldV::StringArray { name }, k4)),
                Err(e) => Err(e),
            }
        } else {
            match p_strlit(toks, k2 + 1) {
                Ok((v0, k4)) => match p_enum_values(toks, k4, seq![v0]) {
                    Ok((values, k5)) => match p_expect(toks, k5, TokenV::RightBracket) {
                        Ok(k6) => match p_enum_conflict(toks, k6) {
                            Ok((oc, k7)) => match p_default_str(toks, k7) {
                                Ok((d, k8)) => Ok(
                                    (
                                        FieldV::StringEnum {
                                            name,
                                            values,
                                            default: d,
                                            on_conflict: oc,
                                        },
                                        k8,
                                    ),
                                ),
                                Err(e) => Err(e),
                            },
                            Err(e) => Err(e),
                        },
                        Err(e) => Err(e),
                    },
                    Err(e) => Err(e),
                },
                Err(e) => Err(e),
            }
        },
        _ => Err(
            ParseErrorV::Custom {
                message: "expected field type (bool, string, number, or [...)"@,
                position: cur_pos(toks, k2),
            },
        ),
    }
}

/// A field definition at `k`.
pub open spec fn p_field(toks: Toks, k: int) -> Result<(FieldV, int), ParseErrorV> {
    match p_ident(toks, k) {
        Ok((name, k1)) => match p_expect(toks, k1, TokenV::Colon) {
            Ok(k2) => p_field_type(toks, k2, name),
            Err(e) => Err(e),
        },
        Err(e) => Err(e),
    }
}

/// The `:: part` name segments that follow the first.
pub open spec fn p_name_rest(toks: Toks, k: int, acc: Seq<char>) -> Result<(Seq<char>, int), ParseErrorV>
    decreases toks.len() - k,
{
    if peek_tok(toks, k) == Some(TokenV::DoubleColon) {
        match p_ident(toks, k + 1) {
            Ok((part, k2)) => if k < k2 <= toks.len() {
                p_name_rest(toks, k2, acc + "::"@ + part)
            } else {
                Ok((acc, k))
            },
            Err(e) => Err(e),
        }
    } else {
        Ok((acc, k))
    }
}

/// Whether a field of the given name is among `fields`.
pub open spec fn has_field_named(fields: Seq<FieldV>, name: Seq<char>) -> bool {
    exists|i: int| 0 <= i < fields.len() && field_name(#[trigger] fields[i]) == name
}

/// The fields from `k` up to the closing brace.
pub open spec fn p_fields(toks: Toks, k: int, acc: Seq<FieldV>) -> Result<(Seq<FieldV>, int), ParseErrorV>
    decreases toks.len() - k,
{
    if 0 <= k < toks.len() && toks[k].0 != TokenV::RightBrace {
        match p_field(toks, k) {
            Ok((f, k2)) => if has_field_named(acc, field_name(f)) {
                Err(ParseErrorV::DuplicateFieldName { name: field_name(f), position: cur_pos(toks, k2) })
            } else if peek_tok(toks, k2) == Some(TokenV::Comma) {
                if k < k2 < toks.len() {
                    p_fields(toks, k2 + 1, acc.push(f))
                } else {
                    Ok((acc, k))
                }
            } else if peek_tok(toks, k2) == Some(TokenV::RightBrace) {
                Ok((acc.push(f), k2))
            } else {
                Err(
                    ParseErrorV::Custom {
                        message: "expected ',' or '}' after field definition"@,
                        position: cur_pos(toks, k2),
                    },
                )
            },
            Err(e) => Err(e),
        }
    } else {
        Ok((acc, k))
    }
}

/// The policy type that a token list spells.
pub open spec fn p_policy_type(toks: Toks) -> Result<PolicyTypeV, ParseErrorV> {
    p_policy_type_from(toks, 0)
}

/// The policy type that the tokens from index `k` spell.
pub open spec fn p_policy_type_from(toks: Toks, k: int) -> Result<PolicyTypeV, ParseErrorV> {
    match p_expect(toks, k, TokenV::Type) {
        Ok(k0) => match p_ident(toks, k0) {
            Ok((first, k1)) => match p_name_rest(toks, k1, first) {
                Ok((name, k2)) => match p_expect(toks, k2, TokenV::LeftBrace) {
                    Ok(k3) => match p_fields(toks, k3, Seq::empty()) {
                        Ok((fields, k4)) => match p_expect(toks, k4, TokenV::RightBrace) {
                            Ok(_) => Ok(PolicyTypeV { name, fields }),
                            Err(e) => Err(e),
                        },
                        Err(e) => Err(e),
                    },
                    Err(e) => Err(e),
                },
                Err(e) => Err(e),
            },
            Err(e) => Err(e),
        },
        Err(e) => Err(e),
    }
}

/// The policy type that a text spells: its tokens, then the grammar.
pub open spec fn parse_spec(s: Seq<char>) -> Result<PolicyTypeV, ParseErrorV> {
    match tokenize_spec(s) {
        Ok(toks) => p_policy_type(toks),
        Err(e) => Err(e),
    }
}

/// Every token position has a column that can be advanced by one.
pub open spec fn columns_bounded(toks: Toks) -> bool {
    forall|i: int| 0 <= i < toks.len() ==> (#[trigger] toks[i]).1.column < usize::MAX
}

/// The result of one parsing step, against its specification.
pub open spec fn agrees<T, V>(r: Result<T, ParseError>, spec: Result<V, ParseErrorV>, f: spec_fn(T) -> V) -> bool {
    match spec {
        Ok(v) => r matches Ok(t) && f(t) == v,
        Err(e) => r matches Err(x) && x@ == e,
    }
}

proof fn lemma_enum_values_progress(toks: Toks, k: int, acc: Seq<Seq<char>>)
    requires
        0 <= k <= toks.len(),
    ensures
        p_enum_values(toks, k, acc) matches Ok((_, k2)) ==> k <= k2 <= toks.len(),
    decreases toks.len() - k,
{
    if peek_tok(toks, k) == Some(TokenV::Comma) {
        match p_strlit(toks, k + 1) {
            Ok((v, k2)) => if k < k2 <= toks.len() {
                lemma_enum_values_progress(toks, k2, acc.push(v));
            },
            Err(_) => {},
        }
    }
}

/// A field definition consumes at least its name and colon, and stays within the tokens.
pub proof fn lemma_field_progress(toks: Toks, k: int)
    requires
        0 <= k <= toks.len(),
    ensures
        p_field(toks, k) matches Ok((_, k2)) ==> k + 2 <= k2 <= toks.len(),
{
    if let Ok((name, k1)) = p_ident(toks, k) {
        if let Ok(k2) = p_expect(toks, k1, TokenV::Colon) {
            if peek_tok(toks, k2) == Some(TokenV::LeftBracket) && peek_tok(toks, k2 + 1) != Some(
                TokenV::String,
            ) {
                if let Ok((v0, k4)) = p_strlit(toks, k2 + 1) {
                    lemma_enum_values_progress(toks, k4, seq![v0]);
                }
            }
        }
    }
}

/// Every position of `lex` lies within the input.
proof fn lemma_lex_columns(s: Seq<char>, i: int)
    requires
        0 <= i <= s.len(),
        s.len() < usize::MAX,
    ensures
        lex(s, i) matches Ok(toks) ==> columns_bounded(toks),
    decreases s.len() - i,
{
    let j = skip_ws(s, i);
    lemma_skip_ws_bounds(s, i);
    if j < s.len() {
        lemma_lex_one_progress(s, j);
        match lex_one(s, j) {
            Ok((t, k)) => {
                if i <= j < k <= s.len() {
                    lemma_lex_columns(s, k);
                    lemma_line_col_bounds(s, j);
                    match lex(s, k) {
                        Ok(rest) => {
                            let all = seq![(t, pos_at(s, j))] + rest;
                            assert forall|x: int| 0 <= x < all.len() implies (#[trigger] all[x]).1.column
                                < usize::MAX by {
                                if x > 0 {
                                    assert(all[x] == rest[x - 1]);
                                }
                            }
                        },
                        Err(_) => {},
                    }
                }
            },
            Err(_) => {},
        }
    }
}

// ------------------------------------------------------------------ parser

/// Reads a policy type from tokens.
pub struct Parser {
    tokens: Vec<(Token, Position)>,
    position: usize,
}

impl Parser {
    /// The tokens being read.
    pub closed spec fn toks(&self) -> Toks {
        tokens_view(self.tokens@)
    }

    /// The index of the next token.
    pub closed spec fn at(&self) -> int {
        self.position as int
    }

    /// The parser's own invariant.
    pub closed spec fn wf(&self) -> bool {
        &&& self.position <= self.tokens@.len()
        &&& columns_bounded(tokens_view(self.tokens@))
    }

    /// A parser at the first of `tokens`.
    pub fn new(tokens: Vec<(Token, Position)>) -> (p: Self)
        requires
            columns_bounded(tokens_view(tokens@)),
        ensures
            p.wf(),
            p.toks() == tokens_view(tokens@),
            p.at() == 0,
    {
        Self { tokens, position: 0 }
    }

    fn current_position(&self) -> (p: Position)
        requires
            self.wf(),
        ensures
            p == cur_pos(self.toks(), self.at()),
    {
        if self.position < self.tokens.len() {
            self.tokens[self.position].1
        } else if self.tokens.len() > 0 {
            let last = self.tokens[self.tokens.len() - 1].1;
            assert(self.toks()[self.toks().len() - 1].1 == last);
            Position::new(last.line, last.column + 1)
        } else {
            Position::new(1, 1)
        }
    }

    fn peek(&self) -> (r: Option<&Token>)
        requires
            self.wf(),
        ensures
            match r {
                Some(t) => self.at() < self.toks().len() && t@ == self.toks()[self.at()].0,
                None => self.at() >= self.toks().len(),
            },
    {
        if self.position < self.tokens.len() {
            Some(&self.tokens[self.position].0)
        } else {
            None
        }
    }

    fn peek_is(&self, t: &Token) -> (r: bool)
        requires
            self.wf(),
        ensures
            r == (peek_tok(self.toks(), self.at()) == Some(t@)),
    {
        match self.peek() {
            Some(x) => x.same(t),
            None => false,
        }
    }

    fn advance(&mut self) -> (r: Option<Token>)
        requires
            old(self).wf(),
        ensures
            final(self).wf(),
            final(self).toks() == old(self).toks(),
            final(self).at() == step(old(self).toks(), old(self).at()),
            match r {
                Some(t) => peek_tok(old(self).toks(), old(self).at()) == Some(t@),
                None => peek_tok(old(self).toks(), old(self).at()) is None,
            },
    {
        if self.position < self.tokens.len() {
            let token = self.tokens[self.position].0.copy();
            self.position = self.position + 1;
            Some(token)
        } else {
            None
        }
    }

    fn expect(&mut self, expected: Token) -> (r: Result<(), ParseError>)
        requires
            old(self).wf(),
        ensures
            final(self).wf(),
            final(self).toks() == old(self).toks(),
            match p_expect(old(self).toks(), old(self).at(), expected@) {
                Ok(k) => r is Ok && final(self).at() == k,
                Err(e) => r matches Err(x) && x@ == e,
            },
    {
        let pos = self.current_position();
        match self.peek() {
            Some(token) => {
                if token.same(&expected) {
                    self.advance();
                    Ok(())
                } else {
                    Err(
                        ParseError::UnexpectedToken {
                            expected: expected.to_text(),
                            found: token.to_text(),
                            position: pos,
                        },
                    )
                }
            },
            None => Err(
                ParseError::UnexpectedEndOfInput { expected: expected.to_text(), position: pos },
            ),
        }
    }

    fn wrong_token(&self, what: &str) -> (e: ParseError)
        requires
            self.wf(),
        ensures
            e@ == wrong_token(self.toks(), self.at(), what@),
    {
        let pos = self.current_position();
        match self.peek() {
            Some(token) => ParseError::UnexpectedToken {
                expected: string_of(what),
                found: token.to_text(),
                position: pos,
            },
            None => ParseError::UnexpectedEndOfInput { expected: string_of(what), position: pos },
        }
    }

    fn parse_identifier(&mut self) -> (r: Result<String, ParseError>)
        requires
            old(self).wf(),
        ensures
            final(self).wf(),
            final(self).toks() == old(self).toks(),
            match p_ident(old(self).toks(), old(self).at()) {
                Ok((n, k)) => r matches Ok(x) && x@ == n && final(self).at() == k,
                Err(e) => r matches Err(x) && x@ == e,
            },
    {
        let err = self.wrong_token("identifier");
        match self.advance() {
            Some(Token::Identifier(name)) => Ok(name),
            _ => Err(err),
        }
    }

    fn parse_string_literal(&mut self) -> (r: Result<String, ParseError>)
        requires
            old(self).wf(),
        ensures
            final(self).wf(),
            final(self).toks() == old(self).toks(),
            match p_strlit(old(self).toks(), old(self).at()) {
                Ok((n, k)) => r matches Ok(x) && x@ == n && final(self).at() == k,
                Err(e) => r matches Err(x) && x@ == e,
            },
    {
        let err = self.wrong_token("string literal");
        match self.advance() {
            Some(Token::StringLiteral(s)) => Ok(s),
            _ => Err(err),
        }
    }

    fn parse_number_literal(&mut self) -> (r: Result<String, ParseError>)
        requires
            old(self).wf(),
        ensures
            final(self).wf(),
            final(self).toks() == old(self).toks(),
            match p_numlit(old(self).toks(), old(self).at()) {
                Ok((n, k)) => r matches Ok(x) && x@ == n && final(self).at() == k,
                Err(e) => r matches Err(x) && x@ == e,
            },
    {
        let err = self.wrong_token("number literal");
        match self.advance() {
            Some(Token::NumberLiteral(s)) => Ok(s),
            _ => Err(err),
        }
    }

    fn parse_bool_conflict(&mut self) -> (r: Result<OnConflict, ParseError>)
        requires
            old(self).wf(),
        ensures
            final(self).wf(),
            final(self).toks() == old(self).toks(),
            match p_bool_conflict(old(self).toks(), old(self).at()) {
                Ok((c, k)) => r == Ok::<OnConflict, ParseError>(c) && final(self).at() == k,
                Err(e) => r matches Err(x) && x@ == e,
            },
    {
        if self.peek_is(&Token::At) {
            self.advance();
            if self.peek_is(&Token::Sticky) {
                self.advance();
                Ok(OnConflict::LargestValue)
            } else if self.peek_is(&Token::Agreement) {
                self.advance();
                Ok(OnConflict::Agreement)
            } else {
                let pos = self.current_position();
                Err(
                    ParseError::Custom {
                        message: string_of("expected 'sticky' or 'agreement' after '@'"),
                        position: pos,
                    },
                )
            }
        } else {
            Ok(OnConflict::Default)
        }
    }

    fn parse_wins_conflict(&mut self, first: Token, second: Token, message: &str) -> (r: Result<
        OnConflict,
        ParseError,
    >)
        requires
            old(self).wf(),
        ensures
            final(self).wf(),
            final(self).toks() == old(self).toks(),
            match p_wins_conflict(old(self).toks(), old(self).at(), first@, second@, message@) {
                Ok((c, k)) => r == Ok::<OnConflict, ParseError>(c) && final(self).at() == k,
                Err(e) => r matches Err(x) && x@ == e,
            },
    {
        if self.peek_is(&Token::At) {
            self.advance();
            if self.peek_is(&first) || self.peek_is(&second) {
                self.advance();
                match self.expect(Token::Wins) {
                    Ok(()) => Ok(OnConflict::LargestValue),
                    Err(e) => Err(e),
                }
            } else if self.peek_is(&Token::Agreement) {
                self.advance();
                Ok(OnConflict::Agreement)
            } else {
                let pos = self.current_position();
                Err(ParseError::Custom { message: string_of(message), position: pos })
            }
        } else {
            Ok(OnConflict::Default)
        }
    }

    fn parse_string_conflict(&mut self) -> (r: Result<OnConflict, ParseError>)
        requires
            old(self).wf(),
        ensures
            final(self).wf(),
            final(self).toks() == old(self).toks(),
            match p_string_conflict(old(self).toks(), old(self).at()) {
                Ok((c, k)) => r == Ok::<OnConflict, ParseError>(c) && final(self).at() == k,
                Err(e) => r matches Err(x) && x@ == e,
            },
    {
        self.parse_wins_conflict(Token::Last, Token::Last, "expected 'last wins' or 'agreement' after '@'")
    }

    fn parse_string_enum_conflict(&mut self) -> (r: Result<OnConflict, ParseError>)
        requires
            old(self).wf(),
        ensures
            final(self).wf(),
            final(self).toks() == old(self).toks(),
            match p_enum_conflict(old(self).toks(), old(self).at()) {
                Ok((c, k)) => r == Ok::<OnConflict, ParseError>(c) && final(self).at() == k,
                Err(e) => r matches Err(x) && x@ == e,
            },
    {
        self.parse_wins_conflict(
            Token::Highest,
            Token::Highest,
            "expected 'highest wins' or 'agreement' after '@'",
        )
    }

    fn parse_number_conflict(&mut self) -> (r: Result<OnConflict, ParseError>)
        requires
            old(self).wf(),
        ensures
            final(self).wf(),
            final(self).toks() == old(self).toks(),
            match p_number_conflict(old(self).toks(), old(self).at()) {
                Ok((c, k)) => r == Ok::<OnConflict, ParseError>(c) && final(self).at() == k,
                Err(e) => r matches Err(x) && x@ == e,
            },
    {
        self.parse_wins_conflict(
            Token::Last,
            Token::Largest,
            "expected 'last wins', 'largest wins', or 'agreement' after '@'",
        )
    }

    fn parse_default_str(&mut self) -> (r: Result<Option<String>, ParseError>)
        requires
            old(self).wf(),
        ensures
            final(self).wf(),
            final(self).toks() == old(self).toks(),
            match p_default_str(old(self).toks(), old(self).at()) {
                Ok((d, k)) => r matches Ok(x) && crate::field::opt_view(x) == d && final(self).at() == k,
                Err(e) => r matches Err(x) && x@ == e,
            },
    {
        if self.peek_is(&Token::Equals) {
            self.advance();
            match self.parse_string_literal() {
                Ok(s) => Ok(Some(s)),
                Err(e) => Err(e),
            }
        } else {
            Ok(None)
        }
    }

    fn parse_field_type(&mut self, name: String) -> (r: Result<Field, ParseError>)
        requires
            old(self).wf(),
        ensures
            final(self).wf(),
            final(self).toks() == old(self).toks(),
            match p_field_type(old(self).toks(), old(self).at(), name@) {
                Ok((f, k)) => r matches Ok(x) && x@ == f && final(self).at() == k,
                Err(e) => r matches Err(x) && x@ == e,
            },
    {
        let ghost toks = self.toks();
        let ghost k2 = self.at();
        if self.peek_is(&Token::Bool) {
            self.advance();
            let on_conflict = match self.parse_bool_conflict() {
                Ok(c) => c,
                Err(e) => {
                    return Err(e);
                },
            };
            let default = if self.peek_is(&Token::Equals) {
                self.advance();
                match self.advance() {
                    Some(Token::True) => true,
                    Some(Token::False) => false,
                    _ => {
                        let pos = self.current_position();
                        return Err(
                            ParseError::Custom {
                                message: string_of("expected 'true' or 'false' after '='"),
                                position: pos,
                            },
                        );
                    },
                }
            } else {
                false
            };
            Ok(Field::Bool { name, default, on_conflict })
        } else if self.peek_is(&Token::String) {
            self.advance();
            let on_conflict = match self.parse_string_conflict() {
                Ok(c) => c,
                Err(e) => {
                    return Err(e);
                },
            };
            let default = match self.parse_default_str() {
                Ok(d) => d,
                Err(e) => {
                    return Err(e);
                },
            };
            Ok(Field::String { name, default, on_conflict })
        } else if self.peek_is(&Token::Number) {
            self.advance();
            let on_conflict = match self.parse_number_conflict() {
                Ok(c) => c,
                Err(e) => {
                    return Err(e);
                },
            };
            let default = if self.peek_is(&Token::Equals) {
                self.advance();
                match self.parse_number_literal() {
                    Ok(text) => Some(crate::json::JsonNumber::from_literal(crate::number::number_display_of(text.as_str()))),
                    Err(e) => {
                        return Err(e);
                    },
                }
            } else {
                None
            };
            Ok(Field::Number { name, default, on_conflict })
        } else if self.peek_is(&Token::LeftBracket) {
            self.advance();
            if self.peek_is(&Token::String) {
                self.advance();
                match self.expect(Token::RightBracket) {
                    Ok(()) => Ok(Field::StringArray { name }),
                    Err(e) => Err(e),
                }
            } else {
                let first = match self.parse_string_literal() {
                    Ok(s) => s,
                    Err(e) => {
                        return Err(e);
                    },
                };
                let values = match self.parse_enum_values(first) {
                    Ok(v) => v,
                    Err(e) => {
                        return Err(e);
                    },
                };
                match self.expect(Token::RightBracket) {
                    Ok(()) => {},
                    Err(e) => {
                        return Err(e);
                    },
                }
                let on_conflict = match self.parse_string_enum_conflict() {
                    Ok(c) => c,
                    Err(e) => {
                        return Err(e);
                    },
                };
                let default = match self.parse_default_str() {
                    Ok(d) => d,
                    Err(e) => {
                        return Err(e);
                    },
                };
                Ok(Field::StringEnum { name, values, default, on_conflict })
            }
        } else {
            let pos = self.current_position();
            Err(
                ParseError::Custom {
                    message: string_of("expected field type (bool, string, number, or [...)"),
                    position: pos,
                },
            )
        }
    }

    fn parse_enum_values(&mut self, first: String) -> (r: Result<Vec<String>, ParseError>)
        requires
            old(self).wf(),
        ensures
            final(self).wf(),
            final(self).toks() == old(self).toks(),
            match p_enum_values(old(self).toks(), old(self).at(), seq![first@]) {
                Ok((vs, k)) => r matches Ok(x) && x.deep_view() == vs && final(self).at() == k,
                Err(e) => r matches Err(x) && x@ == e,
            },
    {
        let ghost toks = self.toks();
        let ghost k4 = self.at();
        let ghost f = first@;
        let mut values: Vec<String> = Vec::new();
        values.push(first);
        assert(values.deep_view() =~= seq![f]);
        loop
            invariant
                self.wf(),
                self.toks() == toks,
                toks == old(self).toks(),
                k4 == old(self).at(),
                f == first@,
                p_enum_values(toks, self.at(), values.deep_view()) == p_enum_values(toks, k4, seq![f]),
            decreases toks.len() - self.at(),
        {
            if !self.peek_is(&Token::Comma) {
                return Ok(values);
            }
            self.advance();
            match self.parse_string_literal() {
                Ok(v) => {
                    let ghost before = values.deep_view();
                    values.push(v);
                    assert(values.deep_view() =~= before.push(v@));
                },
                Err(e) => {
                    return Err(e);
                },
            }
        }
    }

    fn parse_field(&mut self) -> (r: Result<Field, ParseError>)
        requires
            old(self).wf(),
        ensures
            final(self).wf(),
            final(self).toks() == old(self).toks(),
            match p_field(old(self).toks(), old(self).at()) {
                Ok((f, k)) => r matches Ok(x) && x@ == f && final(self).at() == k,
                Err(e) => r matches Err(x) && x@ == e,
            },
    {
        let name = match self.parse_identifier() {
            Ok(n) => n,
            Err(e) => {
                return Err(e);
            },
        };
        match self.expect(Token::Colon) {
            Ok(()) => {},
            Err(e) => {
                return Err(e);
            },
        }
        self.parse_field_type(name)
    }

    fn parse_name_rest(&mut self, first: String) -> (r: Result<String, ParseError>)
        requires
            old(self).wf(),
        ensures
            final(self).wf(),
            final(self).toks() == old(self).toks(),
            match p_name_rest(old(self).toks(), old(self).at(), first@) {
                Ok((n, k)) => r matches Ok(x) && x@ == n && final(self).at() == k,
                Err(e) => r matches Err(x) && x@ == e,
            },
    {
        let ghost toks = self.toks();
        let ghost k1 = self.at();
        let ghost f = first@;
        let mut name = first;
        loop
            invariant
                self.wf(),
                self.toks() == toks,
                toks == old(self).toks(),
                k1 == old(self).at(),
                f == first@,
                p_name_rest(toks, self.at(), name@) == p_name_rest(toks, k1, f),
            decreases toks.len() - self.at(),
        {
            if !self.peek_is(&Token::DoubleColon) {
                return Ok(name);
            }
            self.advance();
            match self.parse_identifier() {
                Ok(part) => {
                    push_text(&mut name, "::");
                    push_text(&mut name, part.as_str());
                },
                Err(e) => {
                    return Err(e);
                },
            }
        }
    }

    fn parse_fields(&mut self) -> (r: Result<Vec<Field>, ParseError>)
        requires
            old(self).wf(),
        ensures
            final(self).wf(),
            final(self).toks() == old(self).toks(),
            match p_fields(old(self).toks(), old(self).at(), Seq::empty()) {
                Ok((fs, k)) => r matches Ok(x) && x@.map_values(|f: Field| f@) == fs && final(self).at() == k,
                Err(e) => r matches Err(x) && x@ == e,
            },
    {
        let ghost toks = self.toks();
        let ghost k3 = self.at();
        let mut fields: Vec<Field> = Vec::new();
        assert(fields@.map_values(|f: Field| f@) =~= Seq::<FieldV>::empty());
        loop
            invariant
                self.wf(),
                self.toks() == toks,
                toks == old(self).toks(),
                k3 == old(self).at(),
                p_fields(toks, self.at(), fields@.map_values(|f: Field| f@)) == p_fields(
                    toks,
                    k3,
                    Seq::empty(),
                ),
            decreases toks.len() - self.at(),
        {
            if self.peek_is(&Token::RightBrace) || self.position >= self.tokens.len() {
                return Ok(fields);
            }
            let ghost k = self.at();
            let ghost acc = fields@.map_values(|f: Field| f@);
            proof {
                lemma_field_progress(toks, k);
            }
            let field = match self.parse_field() {
                Ok(f) => f,
                Err(e) => {
                    return Err(e);
                },
            };
            if has_named(&fields, field.name()) {
                let pos = self.current_position();
                return Err(
                    ParseError::DuplicateFieldName { name: string_of(field.name()), position: pos },
                );
            }
            fields.push(field);
            assert(fields@.map_values(|f: Field| f@) =~= acc.push(field@));
            if self.peek_is(&Token::Comma) {
                self.advance();
            } else if !self.peek_is(&Token::RightBrace) {
                let pos = self.current_position();
                return Err(
                    ParseError::Custom {
                        message: string_of("expected ',' or '}' after field definition"),
                        position: pos,
                    },
                );
            }
        }
    }

    /// Reads a whole policy type from the current token on.
    pub fn parse_policy_type(&mut self) -> (r: Result<PolicyType, ParseError>)
        requires
            old(self).wf(),
        ensures
            match p_policy_type_from(old(self).toks(), old(self).at() as int) {
                Ok(pt) => r matches Ok(x) && x@ == pt,
                Err(e) => r matches Err(x) && x@ == e,
            },
    {
        match self.expect(Token::Type) {
            Ok(()) => {},
            Err(e) => {
                return Err(e);
            },
        }
        let first = match self.parse_identifier() {
            Ok(n) => n,
            Err(e) => {
                return Err(e);
            },
        };
        let name = match self.parse_name_rest(first) {
            Ok(n) => n,
            Err(e) => {
                return Err(e);
            },
        };
        match self.expect(Token::LeftBrace) {
            Ok(()) => {},
            Err(e) => {
                return Err(e);
            },
        }
        let fields = match self.parse_fields() {
            Ok(f) => f,
            Err(e) => {
                return Err(e);
            },
        };
        match self.expect(Token::RightBrace) {
            Ok(()) => {},
            Err(e) => {
                return Err(e);
            },
        }
        Ok(PolicyType { name, fields })
    }
}

/// Whether a field named `name` is among `fields`.
fn has_named(fields: &Vec<Field>, name: &str) -> (r: bool)
    ensures
        r == has_field_named(fields@.map_values(|f: Field| f@), name@),
{
    let ghost fv = fields@.map_values(|f: Field| f@);
    let mut i: usize = 0;
    while i < fields.len()
        invariant
            0 <= i <= fields@.len(),
            fv == fields@.map_values(|f: Field| f@),
            forall|t: int| 0 <= t < i ==> field_name(#[trigger] fv[t]) != name@,
        decreases fields@.len() - i,
    {
        if text_eq(fields[i].name(), name) {
            assert(field_name(fv[i as int]) == name@);
            return true;
        }
        i = i + 1;
    }
    false
}

/// Parses a policy type from its text.
pub fn parse(input: &str) -> (r: Result<PolicyType, ParseError>)
    requires
        input@.len() < usize::MAX,
    ensures
        match parse_spec(input@) {
            Ok(pt) => r matches Ok(x) && x@ == pt,
            Err(e) => r matches Err(x) && x@ == e,
        },
{
    parse_chars(crate::text::chars_of(input))
}

/// Parses a policy type from its characters.
pub fn parse_chars(input: Vec<char>) -> (r: Result<PolicyType, ParseError>)
    requires
        input@.len() < usize::MAX,
    ensures
        match parse_spec(input@) {
            Ok(pt) => r matches Ok(x) && x@ == pt,
            Err(e) => r matches Err(x) && x@ == e,
        },
{
    let ghost s = input@;
    let mut lexer = Lexer::from_chars(input);
    let tokens = match lexer.tokenize() {
        Ok(t) => t,
        Err(e) => {
            return Err(e);
        },
    };
    proof {
        lemma_lex_columns(s, 0);
    }
    let mut parser = Parser::new(tokens);
    parser.parse_policy_type()
}

} // verus!
