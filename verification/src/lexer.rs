//! Lexical analysis: turns raw source text into a finite sequence of
//! positioned tokens.
//!
//! The behaviour of the lexer is pinned by a specification-level mirror:
//! [`spec_tokenize`] describes the exact token sequence for a given input,
//! and [`Lexer::tokenize`] is proved to return it.  Whitespace and both
//! comment styles are consumed silently; every token records the 1-based
//! line and column at which it starts.
//!
//! Floating-point literals carry their spelling rather than a computed
//! value: later stages treat them as grammar-level placeholders and never
//! do arithmetic on them.  An integer literal whose value does not fit in
//! 64 signed bits is a lexical error.

use vstd::prelude::*;

use crate::error::CompilerError;
use crate::text::str_eqx;
use crate::text::unicode_alphabetic;
use crate::text::unicode_alphanumeric;

verus! {

broadcast use vstd::seq_lib::group_seq_properties;

/// The tag of one token: a keyword, a literal, an identifier, an operator
/// or punctuation mark, or the end-of-input marker.
#[derive(Debug, Clone)]
pub enum TokenType {
    Module,
    Import,
    Fn,
    Let,
    Mut,
    Const,
    Return,
    If,
    Else,
    While,
    For,
    Loop,
    Break,
    Continue,
    Struct,
    Enum,
    Union,
    Type,
    Pub,
    Unsafe,
    Defer,
    I8,
    I16,
    I32,
    I64,
    U8,
    U16,
    U32,
    U64,
    F32,
    F64,
    Bool,
    Char,
    Void,
    Str,
    IntLiteral(i64),
    FloatLiteral(String),
    StringLiteral(String),
    CharLiteral(char),
    BoolLiteral(bool),
    Identifier(String),
    Plus,
    Minus,
    Star,
    Slash,
    Percent,
    Equal,
    EqualEqual,
    NotEqual,
    Less,
    LessEqual,
    Greater,
    GreaterEqual,
    AmpAmp,
    PipePipe,
    Bang,
    Amp,
    Pipe,
    Caret,
    Tilde,
    LessLess,
    GreaterGreater,
    LeftParen,
    RightParen,
    LeftBrace,
    RightBrace,
    LeftBracket,
    RightBracket,
    Semicolon,
    Comma,
    Dot,
    Colon,
    ColonColon,
    Arrow,
    FatArrow,
    Eof,
}

/// The mathematical value of a token tag: identical to [`TokenType`]
/// except that text payloads are character sequences.
pub enum TokenTypeV {
    Module,
    Import,
    Fn,
    Let,
    Mut,
    Const,
    Return,
    If,
    Else,
    While,
    For,
    Loop,
    Break,
    Continue,
    Struct,
    Enum,
    Union,
    Type,
    Pub,
    Unsafe,
    Defer,
    I8,
    I16,
    I32,
    I64,
    U8,
    U16,
    U32,
    U64,
    F32,
    F64,
    Bool,
    Char,
    Void,
    Str,
    IntLiteral(i64),
    FloatLiteral(Seq<char>),
    StringLiteral(Seq<char>),
    CharLiteral(char),
    BoolLiteral(bool),
    Identifier(Seq<char>),
    Plus,
    Minus,
    Star,
    Slash,
    Percent,
    Equal,
    EqualEqual,
    NotEqual,
    Less,
    LessEqual,
    Greater,
    GreaterEqual,
    AmpAmp,
    PipePipe,
    Bang,
    Amp,
    Pipe,
    Caret,
    Tilde,
    LessLess,
    GreaterGreater,
    LeftParen,
    RightParen,
    LeftBrace,
    RightBrace,
    LeftBracket,
    RightBracket,
    Semicolon,
    Comma,
    Dot,
    Colon,
    ColonColon,
    Arrow,
    FatArrow,
    Eof,
}

impl View for TokenType {
    type V = TokenTypeV;

    open spec fn view(&self) -> TokenTypeV {
        match self {
            TokenType::Module => TokenTypeV::Module,
            TokenType::Import => TokenTypeV::Import,
            TokenType::Fn => TokenTypeV::Fn,
            TokenType::Let => TokenTypeV::Let,
            TokenType::Mut => TokenTypeV::Mut,
            TokenType::Const => TokenTypeV::Const,
            TokenType::Return => TokenTypeV::Return,
            TokenType::If => TokenTypeV::If,
            TokenType::Else => TokenTypeV::Else,
            TokenType::While => TokenTypeV::While,
            TokenType::For => TokenTypeV::For,
            TokenType::Loop => TokenTypeV::Loop,
            TokenType::Break => TokenTypeV::Break,
            TokenType::Continue => TokenTypeV::Continue,
            TokenType::Struct => TokenTypeV::Struct,
            TokenType::Enum => TokenTypeV::Enum,
            TokenType::Union => TokenTypeV::Union,
            TokenType::Type => TokenTypeV::Type,
            TokenType::Pub => TokenTypeV::Pub,
            TokenType::Unsafe => TokenTypeV::Unsafe,
            TokenType::Defer => TokenTypeV::Defer,
            TokenType::I8 => TokenTypeV::I8,
            TokenType::I16 => TokenTypeV::I16,
            TokenType::I32 => TokenTypeV::I32,
            TokenType::I64 => TokenTypeV::I64,
            TokenType::U8 => TokenTypeV::U8,
            TokenType::U16 => TokenTypeV::U16,
            TokenType::U32 => TokenTypeV::U32,
            TokenType::U64 => TokenTypeV::U64,
            TokenType::F32 => TokenTypeV::F32,
            TokenType::F64 => TokenTypeV::F64,
            TokenType::Bool => TokenTypeV::Bool,
            TokenType::Char => TokenTypeV::Char,
            TokenType::Void => TokenTypeV::Void,
            TokenType::Str => TokenTypeV::Str,
            TokenType::IntLiteral(n) => TokenTypeV::IntLiteral(*n),
            TokenType::FloatLiteral(s) => TokenTypeV::FloatLiteral(s@),
            TokenType::StringLiteral(s) => TokenTypeV::StringLiteral(s@),
            TokenType::CharLiteral(c) => TokenTypeV::CharLiteral(*c),
            TokenType::BoolLiteral(b) => TokenTypeV::BoolLiteral(*b),
            TokenType::Identifier(s) => TokenTypeV::Identifier(s@),
            TokenType::Plus => TokenTypeV::Plus,
            TokenType::Minus => TokenTypeV::Minus,
            TokenType::Star => TokenTypeV::Star,
            TokenType::Slash => TokenTypeV::Slash,
            TokenType::Percent => TokenTypeV::Percent,
            TokenType::Equal => TokenTypeV::Equal,
            TokenType::EqualEqual => TokenTypeV::EqualEqual,
            TokenType::NotEqual => TokenTypeV::NotEqual,
            TokenType::Less => TokenTypeV::Less,
            TokenType::LessEqual => TokenTypeV::LessEqual,
            TokenType::Greater => TokenTypeV::Greater,
            TokenType::GreaterEqual => TokenTypeV::GreaterEqual,
            TokenType::AmpAmp => TokenTypeV::AmpAmp,
            TokenType::PipePipe => TokenTypeV::PipePipe,
            TokenType::Bang => TokenTypeV::Bang,
            TokenType::Amp => TokenTypeV::Amp,
            TokenType::Pipe => TokenTypeV::Pipe,
            TokenType::Caret => TokenTypeV::Caret,
            TokenType::Tilde => TokenTypeV::Tilde,
            TokenType::LessLess => TokenTypeV::LessLess,
            TokenType::GreaterGreater => TokenTypeV::GreaterGreater,
            TokenType::LeftParen => TokenTypeV::LeftParen,
            TokenType::RightParen => TokenTypeV::RightParen,
            TokenType::LeftBrace => TokenTypeV::LeftBrace,
            TokenType::RightBrace => TokenTypeV::RightBrace,
            TokenType::LeftBracket => TokenTypeV::LeftBracket,
            TokenType::RightBracket => TokenTypeV::RightBracket,
            TokenType::Semicolon => TokenTypeV::Semicolon,
            TokenType::Comma => TokenTypeV::Comma,
            TokenType::Dot => TokenTypeV::Dot,
            TokenType::Colon => TokenTypeV::Colon,
            TokenType::ColonColon => TokenTypeV::ColonColon,
            TokenType::Arrow => TokenTypeV::Arrow,
            TokenType::FatArrow => TokenTypeV::FatArrow,
            TokenType::Eof => TokenTypeV::Eof,
        }
    }
}

/// One token together with the 1-based line and column of its first
/// character.  Tokens are immutable once produced.
#[derive(Debug, Clone)]
pub struct Token {
    pub token_type: TokenType,
    pub line: usize,
    pub column: usize,
}

/// The mathematical value of a [`Token`].
pub struct TokenV {
    pub kind: TokenTypeV,
    pub line: int,
    pub col: int,
}

impl View for Token {
    type V = TokenV;

    open spec fn view(&self) -> TokenV {
        TokenV { kind: self.token_type@, line: self.line as int, col: self.column as int }
    }
}

/// The lexer's state: the input characters and the current reading
/// position with its 1-based line and column.
pub struct LexSt {
    pub s: Seq<char>,
    pub pos: int,
    pub line: int,
    pub col: int,
}

/// `(l1, c1)` comes strictly before `(l2, c2)` in source order.
pub open spec fn src_pos_lt(l1: int, c1: int, l2: int, c2: int) -> bool {
    l1 < l2 || (l1 == l2 && c1 < c2)
}

/// `(l1, c1)` comes before or equals `(l2, c2)` in source order.
pub open spec fn src_pos_le(l1: int, c1: int, l2: int, c2: int) -> bool {
    l1 < l2 || (l1 == l2 && c1 <= c2)
}

/// Consuming one ordinary character: the column advances by one.
pub open spec fn lex_adv(st: LexSt) -> LexSt {
    LexSt { s: st.s, pos: st.pos + 1, line: st.line, col: st.col + 1 }
}

/// Consuming a newline while tracking it: the line advances and the
/// column resets to 1.
pub open spec fn lex_newline(st: LexSt) -> LexSt {
    LexSt { s: st.s, pos: st.pos + 1, line: st.line + 1, col: 1 }
}

/// Jumping to position `p` by ordinary characters only: the column grows
/// by the number of characters consumed.
pub open spec fn lex_jump(st: LexSt, p: int) -> LexSt {
    LexSt { s: st.s, pos: p, line: st.line, col: st.col + (p - st.pos) }
}

/// Whether `c` is consumed silently between tokens.
pub open spec fn is_lex_space(c: char) -> bool {
    c == ' ' || c == '\t' || c == '\r'
}

/// The state after skipping whitespace: spaces, tabs and carriage returns
/// advance the column; newlines advance the line and reset the column.
pub open spec fn spec_skip_ws(st: LexSt) -> LexSt
    decreases st.s.len() - st.pos,
{
    if 0 <= st.pos < st.s.len() {
        let c = st.s[st.pos];
        if is_lex_space(c) {
            spec_skip_ws(lex_adv(st))
        } else if c == '\n' {
            spec_skip_ws(lex_newline(st))
        } else {
            st
        }
    } else {
        st
    }
}

/// Whether `c` may begin an identifier: an underscore or an alphabetic
/// character — on ASCII, exactly a letter.
pub open spec fn is_ident_start(c: char) -> bool {
    if c as u32 <= 127 {
        ('a' <= c && c <= 'z') || ('A' <= c && c <= 'Z') || c == '_'
    } else {
        unicode_alphabetic(c)
    }
}

/// Whether `c` may continue an identifier: an underscore or an
/// alphanumeric character — on ASCII, exactly a letter or digit.
pub open spec fn is_ident_char(c: char) -> bool {
    if c as u32 <= 127 {
        ('a' <= c && c <= 'z') || ('A' <= c && c <= 'Z') || ('0' <= c && c <= '9') || c == '_'
    } else {
        unicode_alphabetic(c) || unicode_alphanumeric(c) || c == '_'
    }
}

/// The end of the maximal identifier run starting at `i`.
pub open spec fn ident_end(s: Seq<char>, i: int) -> int
    decreases s.len() - i,
{
    if 0 <= i < s.len() && is_ident_char(s[i]) {
        ident_end(s, i + 1)
    } else {
        i
    }
}

/// Whether `c` is a decimal digit.
pub open spec fn is_dec_digit(c: char) -> bool {
    '0' <= c && c <= '9'
}

/// The end of the maximal decimal digit run starting at `i`.
pub open spec fn digit_run_end(s: Seq<char>, i: int) -> int
    decreases s.len() - i,
{
    if 0 <= i < s.len() && is_dec_digit(s[i]) {
        digit_run_end(s, i + 1)
    } else {
        i
    }
}

/// The numeric value of a sequence of decimal digits.
pub open spec fn digits_val(s: Seq<char>) -> int
    decreases s.len(),
{
    if s.len() == 0 {
        0
    } else {
        digits_val(s.drop_last()) * 10 + (s.last() as int - 48)
    }
}

/// The end of a line comment: the next newline, or the end of input.  The
/// newline itself is not consumed.
pub open spec fn line_comment_end(s: Seq<char>, i: int) -> int
    decreases s.len() - i,
{
    if 0 <= i < s.len() && s[i] != '\n' {
        line_comment_end(s, i + 1)
    } else {
        i
    }
}

/// The state after a block comment body, starting just past the opening
/// `/*`.  An unclosed comment is an error.
pub open spec fn spec_block_comment(st: LexSt) -> Result<LexSt, ()>
    decreases st.s.len() - st.pos,
{
    if !(0 <= st.pos < st.s.len()) {
        Err(())
    } else if st.s[st.pos] == '*' && st.pos + 1 < st.s.len() && st.s[st.pos + 1] == '/' {
        Ok(lex_adv(lex_adv(st)))
    } else if st.s[st.pos] == '\n' {
        spec_block_comment(lex_newline(st))
    } else {
        spec_block_comment(lex_adv(st))
    }
}

/// The character an escape sequence denotes inside a string literal; any
/// unrecognised escape passes the character through.
pub open spec fn string_escape(c: char) -> char {
    if c == 'n' {
        '\n'
    } else if c == 't' {
        '\t'
    } else if c == 'r' {
        '\r'
    } else {
        c
    }
}

/// Scans a string literal body starting just past the opening quote:
/// yields the unescaped contents and the position just past the closing
/// quote, or an error for an unterminated literal.
pub open spec fn string_scan(s: Seq<char>, i: int) -> Result<(Seq<char>, int), ()>
    decreases s.len() - i,
{
    if !(0 <= i < s.len()) {
        Err(())
    } else if s[i] == '"' {
        Ok((Seq::empty(), i + 1))
    } else if s[i] == '\\' {
        if i + 1 >= s.len() {
            Err(())
        } else {
            match string_scan(s, i + 2) {
                Ok((rest, e)) => Ok((seq![string_escape(s[i + 1])] + rest, e)),
                Err(()) => Err(()),
            }
        }
    } else {
        match string_scan(s, i + 1) {
            Ok((rest, e)) => Ok((seq![s[i]] + rest, e)),
            Err(()) => Err(()),
        }
    }
}

/// The character an escape sequence denotes inside a character literal.
pub open spec fn char_escape(c: char) -> char {
    if c == 'n' {
        '\n'
    } else if c == 't' {
        '\t'
    } else if c == 'r' {
        '\r'
    } else {
        c
    }
}

/// Reads a character literal starting at the opening quote `i`: yields
/// the denoted character and the position just past the closing quote.
/// A literal not closed by a quote is an error.
pub open spec fn spec_read_char_lit(s: Seq<char>, i: int) -> Result<(char, int), ()> {
    if i + 1 >= s.len() {
        Err(())
    } else if s[i + 1] == '\\' {
        if i + 2 >= s.len() {
            Err(())
        } else if i + 3 < s.len() && s[i + 3] == '\'' {
            Ok((char_escape(s[i + 2]), i + 4))
        } else {
            Err(())
        }
    } else {
        if i + 2 < s.len() && s[i + 2] == '\'' {
            Ok((s[i + 1], i + 3))
        } else {
            Err(())
        }
    }
}

/// Reads a numeric literal starting at digit position `i`: a maximal
/// digit run, becoming floating-point when followed by a single `.` (a
/// `..` is left for the range operator).  Yields the token tag and the
/// position just past the literal; an integer value over 64 signed bits
/// is an error.
pub open spec fn spec_read_number(s: Seq<char>, i: int) -> Result<(TokenTypeV, int), ()> {
    let e = digit_run_end(s, i);
    if e < s.len() && s[e] == '.' && !(e + 1 < s.len() && s[e + 1] == '.') {
        let f = digit_run_end(s, e + 1);
        Ok((TokenTypeV::FloatLiteral(s.subrange(i, f)), f))
    } else {
        let v = digits_val(s.subrange(i, e));
        if v > i64::MAX {
            Err(())
        } else {
            Ok((TokenTypeV::IntLiteral(v as i64), e))
        }
    }
}

/// The token tag for an identifier run: a fixed keyword table maps exact
/// matches; everything else is a generic identifier.
pub open spec fn spec_keyword(w: Seq<char>) -> TokenTypeV {
    if w == "module"@ {
        TokenTypeV::Module
    } else if w == "import"@ {
        TokenTypeV::Import
    } else if w == "fn"@ {
        TokenTypeV::Fn
    } else if w == "let"@ {
        TokenTypeV::Let
    } else if w == "mut"@ {
        TokenTypeV::Mut
    } else if w == "const"@ {
        TokenTypeV::Const
    } else if w == "return"@ {
        TokenTypeV::Return
    } else if w == "if"@ {
        TokenTypeV::If
    } else if w == "else"@ {
        TokenTypeV::Else
    } else if w == "while"@ {
        TokenTypeV::While
    } else if w == "for"@ {
        TokenTypeV::For
    } else if w == "loop"@ {
        TokenTypeV::Loop
    } else if w == "break"@ {
        TokenTypeV::Break
    } else if w == "continue"@ {
        TokenTypeV::Continue
    } else if w == "struct"@ {
        TokenTypeV::Struct
    } else if w == "enum"@ {
        TokenTypeV::Enum
    } else if w == "union"@ {
        TokenTypeV::Union
    } else if w == "type"@ {
        TokenTypeV::Type
    } else if w == "pub"@ {
        TokenTypeV::Pub
    } else if w == "unsafe"@ {
        TokenTypeV::Unsafe
    } else if w == "defer"@ {
        TokenTypeV::Defer
    } else if w == "i8"@ {
        TokenTypeV::I8
    } else if w == "i16"@ {
        TokenTypeV::I16
    } else if w == "i32"@ {
        TokenTypeV::I32
    } else if w == "i64"@ {
        TokenTypeV::I64
    } else if w == "u8"@ {
        TokenTypeV::U8
    } else if w == "u16"@ {
        TokenTypeV::U16
    } else if w == "u32"@ {
        TokenTypeV::U32
    } else if w == "u64"@ {
        TokenTypeV::U64
    } else if w == "f32"@ {
        TokenTypeV::F32
    } else if w == "f64"@ {
        TokenTypeV::F64
    } else if w == "bool"@ {
        TokenTypeV::Bool
    } else if w == "char"@ {
        TokenTypeV::Char
    } else if w == "void"@ {
        TokenTypeV::Void
    } else if w == "str"@ {
        TokenTypeV::Str
    } else if w == "true"@ {
        TokenTypeV::BoolLiteral(true)
    } else if w == "false"@ {
        TokenTypeV::BoolLiteral(false)
    } else {
        TokenTypeV::Identifier(w)
    }
}

/// A single-character or two-character operator token read at the current
/// position: yields the tag and how many characters it consumes, or
/// `None` for a character no rule matches.
pub open spec fn spec_operator(s: Seq<char>, i: int) -> Option<(TokenTypeV, int)> {
    let c = s[i];
    let two = i + 1 < s.len();
    if c == '+' {
        Some((TokenTypeV::Plus, 1))
    } else if c == '-' {
        if two && s[i + 1] == '>' {
            Some((TokenTypeV::Arrow, 2))
        } else {
            Some((TokenTypeV::Minus, 1))
        }
    } else if c == '*' {
        Some((TokenTypeV::Star, 1))
    } else if c == '/' {
        Some((TokenTypeV::Slash, 1))
    } else if c == '%' {
        Some((TokenTypeV::Percent, 1))
    } else if c == '=' {
        if two && s[i + 1] == '=' {
            Some((TokenTypeV::EqualEqual, 2))
        } else if two && s[i + 1] == '>' {
            Some((TokenTypeV::FatArrow, 2))
        } else {
            Some((TokenTypeV::Equal, 1))
        }
    } else if c == '!' {
        if two && s[i + 1] == '=' {
            Some((TokenTypeV::NotEqual, 2))
        } else {
            Some((TokenTypeV::Bang, 1))
        }
    } else if c == '<' {
        if two && s[i + 1] == '=' {
            Some((TokenTypeV::LessEqual, 2))
        } else if two && s[i + 1] == '<' {
            Some((TokenTypeV::LessLess, 2))
        } else {
            Some((TokenTypeV::Less, 1))
        }
    } else if c == '>' {
        if two && s[i + 1] == '=' {
            Some((TokenTypeV::GreaterEqual, 2))
        } else if two && s[i + 1] == '>' {
            Some((TokenTypeV::GreaterGreater, 2))
        } else {
            Some((TokenTypeV::Greater, 1))
        }
    } else if c == '&' {
        if two && s[i + 1] == '&' {
            Some((TokenTypeV::AmpAmp, 2))
        } else {
            Some((TokenTypeV::Amp, 1))
        }
    } else if c == '|' {
        if two && s[i + 1] == '|' {
            Some((TokenTypeV::PipePipe, 2))
        } else {
            Some((TokenTypeV::Pipe, 1))
        }
    } else if c == '^' {
        Some((TokenTypeV::Caret, 1))
    } else if c == '~' {
        Some((TokenTypeV::Tilde, 1))
    } else if c == '(' {
        Some((TokenTypeV::LeftParen, 1))
    } else if c == ')' {
        Some((TokenTypeV::RightParen, 1))
    } else if c == '{' {
        Some((TokenTypeV::LeftBrace, 1))
    } else if c == '}' {
        Some((TokenTypeV::RightBrace, 1))
    } else if c == '[' {
        Some((TokenTypeV::LeftBracket, 1))
    } else if c == ']' {
        Some((TokenTypeV::RightBracket, 1))
    } else if c == ';' {
        Some((TokenTypeV::Semicolon, 1))
    } else if c == ',' {
        Some((TokenTypeV::Comma, 1))
    } else if c == '.' {
        Some((TokenTypeV::Dot, 1))
    } else if c == ':' {
        if two && s[i + 1] == ':' {
            Some((TokenTypeV::ColonColon, 2))
        } else {
            Some((TokenTypeV::Colon, 1))
        }
    } else {
        None
    }
}

/// The next token starting at the current (non-trivia, non-end)
/// position, together with the state after it.  Every error is a
/// lexical error.
pub open spec fn spec_next_token(st: LexSt) -> Result<(TokenV, LexSt), ()> {
    if !(0 <= st.pos < st.s.len()) {
        Err(())
    } else {
        let c = st.s[st.pos];
        if is_dec_digit(c) {
            match spec_read_number(st.s, st.pos) {
                Ok((tt, e)) => Ok(
                    (
                        TokenV { kind: tt, line: st.line, col: st.col },
                        lex_jump(st, e),
                    ),
                ),
                Err(()) => Err(()),
            }
        } else if is_ident_start(c) {
            let e = ident_end(st.s, st.pos);
            Ok(
                (
                    TokenV {
                        kind: spec_keyword(st.s.subrange(st.pos, e)),
                        line: st.line,
                        col: st.col,
                    },
                    lex_jump(st, e),
                ),
            )
        } else if c == '"' {
            match string_scan(st.s, st.pos + 1) {
                Ok((content, e)) => Ok(
                    (
                        TokenV {
                            kind: TokenTypeV::StringLiteral(content),
                            line: st.line,
                            col: st.col,
                        },
                        lex_jump(st, e),
                    ),
                ),
                Err(()) => Err(()),
            }
        } else if c == '\'' {
            match spec_read_char_lit(st.s, st.pos) {
                Ok((ch, e)) => Ok(
                    (
                        TokenV { kind: TokenTypeV::CharLiteral(ch), line: st.line, col: st.col },
                        lex_jump(st, e),
                    ),
                ),
                Err(()) => Err(()),
            }
        } else {
            match spec_operator(st.s, st.pos) {
                Some((tt, n)) => Ok(
                    (
                        TokenV { kind: tt, line: st.line, col: st.col },
                        lex_jump(st, st.pos + n),
                    ),
                ),
                None => Err(()),
            }
        }
    }
}


/// The lookahead disambiguation in the concrete: reading a number at
/// `1..5` yields the integer literal 1 and stops before the dots — never
/// the floating-point literal `1.`.
pub proof fn lemma_range_never_float()
    ensures
        ({
            let st = LexSt { s: "1..5"@, pos: 0, line: 1, col: 1 };
            spec_next_token(st) matches Ok(p) && p.0.kind == TokenTypeV::IntLiteral(1)
                && p.1.pos == 1
        }),
{
    reveal_strlit("1..5");
    let s = "1..5"@;
    assert(s.len() == 4);
    assert(s[0] == '1' && s[1] == '.' && s[2] == '.' && s[3] == '5');
    assert(digit_run_end(s, 1) == 1);
    assert(digit_run_end(s, 0) == 1);
    assert(s.subrange(0, 1) =~= seq!['1']);
    assert(seq!['1'].drop_last() =~= Seq::<char>::empty());
    assert(digits_val(Seq::<char>::empty()) == 0);
    assert(digits_val(seq!['1']) == 1);
    assert(spec_read_number(s, 0) == Ok::<(TokenTypeV, int), ()>((TokenTypeV::IntLiteral(1), 1)));
}

/// The end of a line comment lies between its start and the end of input.
pub proof fn lemma_line_comment_end(s: Seq<char>, i: int)
    requires
        0 <= i <= s.len(),
    ensures
        i <= line_comment_end(s, i) <= s.len(),
    decreases s.len() - i,
{
    if i < s.len() && s[i] != '\n' {
        lemma_line_comment_end(s, i + 1);
    }
}

/// The end of an identifier run lies between its start and the end of
/// input.
pub proof fn lemma_ident_end(s: Seq<char>, i: int)
    requires
        0 <= i <= s.len(),
    ensures
        i <= ident_end(s, i) <= s.len(),
    decreases s.len() - i,
{
    if i < s.len() && is_ident_char(s[i]) {
        lemma_ident_end(s, i + 1);
    }
}

/// The end of a digit run lies between its start and the end of input.
pub proof fn lemma_digit_run_end(s: Seq<char>, i: int)
    requires
        0 <= i <= s.len(),
    ensures
        i <= digit_run_end(s, i) <= s.len(),
    decreases s.len() - i,
{
    if i < s.len() && is_dec_digit(s[i]) {
        lemma_digit_run_end(s, i + 1);
    }
}

/// A successful block comment scan advances the position and stays in
/// bounds, and only moves line and column forward in source order.
pub proof fn lemma_block_comment(st: LexSt)
    requires
        0 <= st.pos <= st.s.len(),
    ensures
        spec_block_comment(st) matches Ok(st2) ==> {
            &&& st.pos < st2.pos <= st.s.len()
            &&& st2.s == st.s
            &&& src_pos_lt(st.line, st.col, st2.line, st2.col)
        },
    decreases st.s.len() - st.pos,
{
    if 0 <= st.pos < st.s.len() {
        if st.s[st.pos] == '*' && st.pos + 1 < st.s.len() && st.s[st.pos + 1] == '/' {
        } else if st.s[st.pos] == '\n' {
            lemma_block_comment(lex_newline(st));
        } else {
            lemma_block_comment(lex_adv(st));
        }
    }
}

/// A successful string scan ends past its start and within the input.
pub proof fn lemma_string_scan(s: Seq<char>, i: int)
    requires
        0 <= i,
    ensures
        string_scan(s, i) matches Ok((c, e)) ==> i < e <= s.len(),
    decreases s.len() - i,
{
    if 0 <= i < s.len() {
        if s[i] == '"' {
        } else if s[i] == '\\' {
            if i + 1 < s.len() {
                lemma_string_scan(s, i + 2);
            }
        } else {
            lemma_string_scan(s, i + 1);
        }
    }
}

/// A successful token read consumes at least one character, stays within
/// the input, never yields the end-of-input tag, and records a position
/// at or after the starting one but strictly before the next state's.
pub proof fn lemma_next_token(st: LexSt)
    requires
        0 <= st.pos <= st.s.len(),
    ensures
        spec_next_token(st) matches Ok((t, st2)) ==> {
            &&& st.pos < st2.pos <= st.s.len()
            &&& st2.s == st.s
            &&& !(t.kind is Eof)
            &&& src_pos_le(st.line, st.col, t.line, t.col)
            &&& src_pos_lt(t.line, t.col, st2.line, st2.col)
        },
{
    if 0 <= st.pos < st.s.len() {
        let c = st.s[st.pos];
        if is_dec_digit(c) {
            lemma_digit_run_end(st.s, st.pos);
            assert(digit_run_end(st.s, st.pos) == digit_run_end(st.s, st.pos + 1));
            lemma_digit_run_end(st.s, st.pos + 1);
            let e = digit_run_end(st.s, st.pos);
            if e < st.s.len() && st.s[e] == '.' && !(e + 1 < st.s.len() && st.s[e + 1] == '.') {
                lemma_digit_run_end(st.s, e + 1);
            }
        } else if is_ident_start(c) {
            lemma_ident_end(st.s, st.pos);
            assert(ident_end(st.s, st.pos) == ident_end(st.s, st.pos + 1));
            lemma_ident_end(st.s, st.pos + 1);
        } else if c == '"' {
            lemma_string_scan(st.s, st.pos + 1);
        } else {
        }
    }
}

/// The state after the silent trivia between tokens: whitespace and
/// both comment styles, consumed repeatedly.  An unclosed block comment
/// is the error.
pub open spec fn spec_skip_trivia(st: LexSt) -> Result<LexSt, ()>
    decreases st.s.len() - st.pos,
    via spec_skip_trivia_decreases
{
    let st1 = spec_skip_ws(st);
    if 0 <= st1.pos && st1.pos < st1.s.len() && st1.s[st1.pos] == '/' && st1.pos + 1
        < st1.s.len() && st1.s[st1.pos + 1] == '/' {
        spec_skip_trivia(lex_jump(st1, line_comment_end(st1.s, st1.pos)))
    } else if 0 <= st1.pos && st1.pos < st1.s.len() && st1.s[st1.pos] == '/' && st1.pos + 1
        < st1.s.len() && st1.s[st1.pos + 1] == '*' {
        match spec_block_comment(lex_adv(lex_adv(st1))) {
            Ok(st2) => spec_skip_trivia(st2),
            Err(()) => Err(()),
        }
    } else {
        Ok(st1)
    }
}

#[via_fn]
proof fn spec_skip_trivia_decreases(st: LexSt) {
    if 0 <= st.pos <= st.s.len() {
        lemma_skip_ws(st);
        let st1 = spec_skip_ws(st);
        if 0 <= st1.pos && st1.pos < st1.s.len() && st1.s[st1.pos] == '/' && st1.pos + 1
            < st1.s.len() && st1.s[st1.pos + 1] == '/' {
            assert(line_comment_end(st1.s, st1.pos) == line_comment_end(st1.s, st1.pos + 1));
            lemma_line_comment_end(st1.s, st1.pos + 1);
        } else if 0 <= st1.pos && st1.pos < st1.s.len() && st1.s[st1.pos] == '/' && st1.pos + 1
            < st1.s.len() && st1.s[st1.pos + 1] == '*' {
            lemma_block_comment(lex_adv(lex_adv(st1)));
        }
    }
}

/// Skipping trivia advances the position within the input, only moves
/// line and column forward in source order, and is idempotent: what it
/// stops at is no trivia.
pub proof fn lemma_skip_trivia(st: LexSt)
    requires
        0 <= st.pos <= st.s.len(),
    ensures
        spec_skip_trivia(st) matches Ok(r) ==> {
            &&& st.pos <= r.pos <= st.s.len()
            &&& r.s == st.s
            &&& src_pos_le(st.line, st.col, r.line, r.col)
            &&& spec_skip_trivia(r) == Ok::<LexSt, ()>(r)
        },
    decreases st.s.len() - st.pos,
{
    lemma_skip_ws(st);
    let st1 = spec_skip_ws(st);
    if 0 <= st1.pos && st1.pos < st1.s.len() && st1.s[st1.pos] == '/' && st1.pos + 1
        < st1.s.len() && st1.s[st1.pos + 1] == '/' {
        assert(line_comment_end(st1.s, st1.pos) == line_comment_end(st1.s, st1.pos + 1));
        lemma_line_comment_end(st1.s, st1.pos + 1);
        lemma_skip_trivia(lex_jump(st1, line_comment_end(st1.s, st1.pos)));
    } else if 0 <= st1.pos && st1.pos < st1.s.len() && st1.s[st1.pos] == '/' && st1.pos + 1
        < st1.s.len() && st1.s[st1.pos + 1] == '*' {
        lemma_block_comment(lex_adv(lex_adv(st1)));
        match spec_block_comment(lex_adv(lex_adv(st1))) {
            Ok(st2) => lemma_skip_trivia(st2),
            Err(()) => {},
        }
    } else {
        assert(spec_skip_ws(st1) == st1);
    }
}

/// The token sequence of the remaining input: tokens in source order,
/// closed by exactly one end-of-input token carrying the position after
/// the final whitespace.
pub open spec fn spec_tokenize(st: LexSt) -> Result<Seq<TokenV>, ()>
    decreases st.s.len() - st.pos + 1,
    via spec_tokenize_decreases
{
    match spec_skip_trivia(st) {
        Err(()) => Err(()),
        Ok(st1) => {
            if st1.pos >= st1.s.len() {
                Ok(seq![TokenV { kind: TokenTypeV::Eof, line: st1.line, col: st1.col }])
            } else {
                match spec_next_token(st1) {
                    Ok((t, st2)) => match spec_tokenize(st2) {
                        Ok(rest) => Ok(seq![t] + rest),
                        Err(()) => Err(()),
                    },
                    Err(()) => Err(()),
                }
            }
        },
    }
}

/// Skipping whitespace advances the position without leaving the input
/// and only moves line and column forward in source order.
pub proof fn lemma_skip_ws(st: LexSt)
    requires
        0 <= st.pos <= st.s.len(),
    ensures
        ({
            let r = spec_skip_ws(st);
            &&& st.pos <= r.pos <= st.s.len()
            &&& r.s == st.s
            &&& src_pos_le(st.line, st.col, r.line, r.col)
            &&& r.pos < r.s.len() ==> !is_lex_space(r.s[r.pos]) && r.s[r.pos] != '\n'
        }),
    decreases st.s.len() - st.pos,
{
    if 0 <= st.pos < st.s.len() {
        let c = st.s[st.pos];
        if is_lex_space(c) {
            lemma_skip_ws(lex_adv(st));
        } else if c == '\n' {
            lemma_skip_ws(lex_newline(st));
        }
    }
}

#[via_fn]
proof fn spec_tokenize_decreases(st: LexSt) {
    if 0 <= st.pos <= st.s.len() {
        lemma_skip_trivia(st);
        match spec_skip_trivia(st) {
            Ok(st1) => {
                if st1.pos < st1.s.len() {
                    lemma_next_token(st1);
                }
            },
            Err(()) => {},
        }
    }
}

/// Every token of a successful scan sits at or after the scan's starting
/// line and column.
pub proof fn lemma_tokenize_lower_bound(st: LexSt)
    requires
        0 <= st.pos <= st.s.len(),
    ensures
        spec_tokenize(st) matches Ok(toks) ==> forall|i: int|
            0 <= i < toks.len() ==> src_pos_le(st.line, st.col, toks[i].line, toks[i].col),
    decreases st.s.len() - st.pos + 1,
{
    lemma_skip_trivia(st);
    match spec_skip_trivia(st) {
        Ok(st1) => {
            if st1.pos < st1.s.len() {
                lemma_next_token(st1);
                match spec_next_token(st1) {
                    Ok((t, st2)) => lemma_tokenize_lower_bound(st2),
                    Err(()) => {},
                }
            }
        },
        Err(()) => {},
    }
}

/// Tokenizing yields at least one token; the last one, and only it, is
/// the end-of-input token; and the recorded positions are strictly
/// increasing in source order, so re-reading them reproduces the order of
/// the source's line breaks.
pub proof fn lemma_tokenize_sorted(st: LexSt)
    requires
        0 <= st.pos <= st.s.len(),
    ensures
        spec_tokenize(st) matches Ok(toks) ==> {
            &&& toks.len() >= 1
            &&& toks.last().kind is Eof
            &&& forall|i: int| 0 <= i < toks.len() - 1 ==> !(#[trigger] toks[i].kind is Eof)
            &&& forall|i: int, j: int|
                0 <= i < j < toks.len() ==> src_pos_lt(
                    toks[i].line,
                    toks[i].col,
                    toks[j].line,
                    toks[j].col,
                )
        },
    decreases st.s.len() - st.pos + 1,
{
    lemma_skip_trivia(st);
    match spec_skip_trivia(st) {
        Err(()) => {
            return ;
        },
        Ok(st1) => {
            if st1.pos >= st1.s.len() {
                return ;
            }
            lemma_next_token(st1);
            match spec_next_token(st1) {
                Ok((t, st2)) => {
                    lemma_tokenize_sorted(st2);
                    lemma_tokenize_lower_bound(st2);
                    match spec_tokenize(st2) {
                        Ok(rest) => {
                            let toks = seq![t] + rest;
                            assert forall|i: int, j: int|
                                0 <= i < j < toks.len() implies src_pos_lt(
                                toks[i].line,
                                toks[i].col,
                                toks[j].line,
                                toks[j].col,
                            ) by {
                                if i == 0 {
                                    assert(src_pos_le(
                                        st2.line,
                                        st2.col,
                                        toks[j].line,
                                        toks[j].col,
                                    ));
                                }
                            }
                        },
                        Err(()) => {},
                    }
                },
                Err(()) => {},
            }
        },
    }
}

/// Relies on `str::chars` (collected): yields the characters of the
/// string in order.
#[verifier::external_body]
fn str_chars(s: &str) -> (r: Vec<char>)
    ensures
        r@ == s@,
{
    s.chars().collect()
}

/// The lexer: reads the input characters left to right, tracking the
/// 1-based line and column of the next character to read.
pub struct Lexer {
    input: Vec<char>,
    position: usize,
    line: usize,
    column: usize,
}

impl Lexer {
    /// The lexer's state as the specification mirror sees it.
    pub closed spec fn st(&self) -> LexSt {
        LexSt {
            s: self.input@,
            pos: self.position as int,
            line: self.line as int,
            col: self.column as int,
        }
    }

    /// The reading position stays within the input, and line and column
    /// stay 1-based and bounded by the characters consumed so far.
    pub closed spec fn wf(&self) -> bool {
        &&& self.position <= self.input@.len()
        &&& 1 <= self.line
        &&& self.line as int <= self.position as int + 1
        &&& 1 <= self.column
        &&& self.column as int <= self.position as int + 1
        &&& self.input@.len() < usize::MAX
    }

    /// A fresh lexer at the start of `input`, on line 1, column 1.
    pub fn new(input: &str) -> (r: Lexer)
        requires
            input@.len() < usize::MAX,
        ensures
            r.wf(),
            r.st() == (LexSt { s: input@, pos: 0, line: 1, col: 1 }),
    {
        Lexer { input: str_chars(input), position: 0, line: 1, column: 1 }
    }

    fn is_at_end(&self) -> (r: bool)
        ensures
            r == (self.position >= self.input@.len()),
    {
        self.position >= self.input.len()
    }

    fn current_char(&self) -> (r: char)
        requires
            self.position < self.input@.len(),
        ensures
            r == self.input@[self.position as int],
    {
        self.input[self.position]
    }

    fn peek(&self) -> (r: Option<char>)
        requires
            self.wf(),
        ensures
            r == if self.position as int + 1 < self.input@.len() {
                Some(self.input@[self.position as int + 1])
            } else {
                Option::<char>::None
            },
    {
        if self.position + 1 < self.input.len() {
            Some(self.input[self.position + 1])
        } else {
            None
        }
    }

    fn advance(&mut self)
        requires
            old(self).wf(),
            old(self).position < old(self).input@.len(),
        ensures
            final(self).wf(),
            final(self).st() == lex_adv(old(self).st()),
    {
        self.position = self.position + 1;
        self.column = self.column + 1;
    }

    fn newline_advance(&mut self)
        requires
            old(self).wf(),
            old(self).position < old(self).input@.len(),
        ensures
            final(self).wf(),
            final(self).st() == lex_newline(old(self).st()),
    {
        self.line = self.line + 1;
        self.column = 1;
        self.position = self.position + 1;
    }

    fn skip_whitespace(&mut self)
        requires
            old(self).wf(),
        ensures
            final(self).wf(),
            final(self).st() == spec_skip_ws(old(self).st()),
    {
        #[verifier::loop_isolation(false)]
        loop
            invariant
                self.wf(),
                spec_skip_ws(self.st()) == spec_skip_ws(old(self).st()),
            decreases self.input@.len() - self.position,
        {
            if self.is_at_end() {
                break;
            }
            let c = self.current_char();
            if c == ' ' || c == '\t' || c == '\r' {
                self.advance();
            } else if c == '\n' {
                self.newline_advance();
            } else {
                break;
            }
        }
    }

    fn skip_line_comment(&mut self)
        requires
            old(self).wf(),
        ensures
            final(self).wf(),
            final(self).st() == lex_jump(
                old(self).st(),
                line_comment_end(old(self).input@, old(self).position as int),
            ),
    {
        proof {
            lemma_line_comment_end(self.input@, self.position as int);
        }
        #[verifier::loop_isolation(false)]
        loop
            invariant
                self.wf(),
                self.input@ == old(self).input@,
                self.line == old(self).line,
                old(self).position <= self.position,
                self.column as int == old(self).column as int + (self.position as int
                    - old(self).position as int),
                line_comment_end(self.input@, self.position as int) == line_comment_end(
                    old(self).input@,
                    old(self).position as int,
                ),
            decreases self.input@.len() - self.position,
        {
            if self.is_at_end() {
                break;
            }
            if self.current_char() == '\n' {
                break;
            }
            self.advance();
        }
    }

    fn skip_block_comment(&mut self) -> (r: Result<(), CompilerError>)
        requires
            old(self).wf(),
            old(self).position as int + 1 < old(self).input@.len(),
        ensures
            final(self).wf(),
            match spec_block_comment(lex_adv(lex_adv(old(self).st()))) {
                Ok(st2) => r is Ok && final(self).st() == st2,
                Err(()) => r matches Err(e) && (e matches CompilerError::LexerError(_)),
            },
    {
        self.advance();
        self.advance();
        #[verifier::loop_isolation(false)]
        loop
            invariant
                self.wf(),
                spec_block_comment(self.st()) == spec_block_comment(
                    lex_adv(lex_adv(old(self).st())),
                ),
            decreases self.input@.len() - self.position,
        {
            if self.is_at_end() {
                break;
            }
            if self.current_char() == '*' {
                match self.peek() {
                    Some(c) => {
                        if c == '/' {
                            self.advance();
                            self.advance();
                            return Ok(());
                        }
                    },
                    None => {},
                }
            }
            if self.current_char() == '\n' {
                self.newline_advance();
            } else {
                self.advance();
            }
        }
        Err(CompilerError::LexerError(String::from_str("Unterminated block comment")))
    }

    /// Consumes whitespace and both comment styles until something else
    /// begins; an unclosed block comment is the lexical error.
    fn skip_trivia(&mut self) -> (r: Result<(), CompilerError>)
        requires
            old(self).wf(),
        ensures
            final(self).wf(),
            match spec_skip_trivia(old(self).st()) {
                Ok(st2) => r is Ok && final(self).st() == st2,
                Err(()) => r matches Err(e) && (e matches CompilerError::LexerError(_)),
            },
    {
        #[verifier::loop_isolation(false)]
        loop
            invariant
                self.wf(),
                spec_skip_trivia(self.st()) == spec_skip_trivia(old(self).st()),
            decreases self.input@.len() - self.position,
        {
            let ghost iter_st = self.st();
            self.skip_whitespace();
            proof {
                lemma_skip_ws(iter_st);
                assert(spec_skip_ws(self.st()) == self.st());
                assert(spec_skip_trivia(iter_st) == spec_skip_trivia(self.st()));
            }
            let ghost ws_st = self.st();
            if self.is_at_end() {
                break ;
            }
            if self.current_char() != '/' {
                break ;
            }
            let c2 = match self.peek() {
                Some(c2) => c2,
                None => {
                    break ;
                },
            };
            if c2 == '/' {
                proof {
                    lemma_line_comment_end(self.input@, self.position as int);
                    assert(line_comment_end(self.input@, self.position as int)
                        == line_comment_end(self.input@, self.position as int + 1));
                    lemma_line_comment_end(self.input@, self.position as int + 1);
                }
                self.skip_line_comment();
            } else if c2 == '*' {
                match self.skip_block_comment() {
                    Ok(()) => {
                        proof {
                            lemma_block_comment(lex_adv(lex_adv(ws_st)));
                        }
                    },
                    Err(e) => {
                        return Err(e);
                    },
                }
            } else {
                break ;
            }
        }
        proof {
            assert(spec_skip_ws(self.st()) == self.st());
            assert(spec_skip_trivia(self.st()) == Ok::<LexSt, ()>(self.st()));
        }
        Ok(())
    }

    fn read_identifier(&mut self) -> (t: TokenType)
        requires
            old(self).wf(),
        ensures
            final(self).wf(),
            final(self).st() == lex_jump(
                old(self).st(),
                ident_end(old(self).input@, old(self).position as int),
            ),
            t@ == spec_keyword(
                old(self).input@.subrange(
                    old(self).position as int,
                    ident_end(old(self).input@, old(self).position as int),
                ),
            ),
    {
        let ghost p0 = self.position as int;
        let mut s = String::new();
        proof {
            lemma_ident_end(self.input@, p0);
        }
        #[verifier::loop_isolation(false)]
        loop
            invariant
                self.wf(),
                self.input@ == old(self).input@,
                self.line == old(self).line,
                p0 <= self.position as int,
                self.column as int == old(self).column as int + (self.position as int - p0),
                s@ == self.input@.subrange(p0, self.position as int),
                ident_end(self.input@, self.position as int) == ident_end(old(self).input@, p0),
            decreases self.input@.len() - self.position,
        {
            if self.is_at_end() {
                break;
            }
            let c = self.current_char();
            if c.is_alphabetic() || c.is_alphanumeric() || c == '_' {
                s.push(c);
                proof {
                    assert(s@ =~= self.input@.subrange(p0, self.position as int + 1));
                }
                self.advance();
            } else {
                break;
            }
        }
        keyword_lookup(s)
    }

    fn read_number(&mut self) -> (r: Result<TokenType, CompilerError>)
        requires
            old(self).wf(),
        ensures
            final(self).wf(),
            match spec_read_number(old(self).input@, old(self).position as int) {
                Ok((tt, e)) => r matches Ok(t) && t@ == tt && final(self).st() == lex_jump(
                    old(self).st(),
                    e,
                ),
                Err(()) => r matches Err(err) && (err matches CompilerError::LexerError(_)),
            },
    {
        let ghost p0 = self.position as int;
        let ghost s = self.input@;
        let mut num_str = String::new();
        let mut val: i64 = 0;
        let mut too_big: bool = false;
        proof {
            lemma_digit_run_end(s, p0);
        }
        #[verifier::loop_isolation(false)]
        loop
            invariant
                self.wf(),
                self.input@ == s,
                self.line == old(self).line,
                p0 <= self.position as int <= digit_run_end(s, p0),
                self.column as int == old(self).column as int + (self.position as int - p0),
                num_str@ == s.subrange(p0, self.position as int),
                digit_run_end(s, self.position as int) == digit_run_end(s, p0),
                too_big == (digits_val(s.subrange(p0, self.position as int)) > i64::MAX),
                !too_big ==> val == digits_val(s.subrange(p0, self.position as int)),
                0 <= val,
            decreases self.input@.len() - self.position,
        {
            if self.is_at_end() {
                break;
            }
            let c = self.current_char();
            if !('0' <= c && c <= '9') {
                break;
            }
            let d: i64 = ((c as u32) - 48) as i64;
            let ghost prev = s.subrange(p0, self.position as int);
            let ghost next = s.subrange(p0, self.position as int + 1);
            proof {
                assert(digit_run_end(s, self.position as int) == digit_run_end(
                    s,
                    self.position as int + 1,
                ));
                lemma_digit_run_end(s, self.position as int + 1);
                assert(next.drop_last() =~= prev);
                assert(next.last() == s[self.position as int]);
                assert(digits_val(next) == digits_val(prev) * 10 + (c as int - 48));
                assert(next =~= prev.push(c));
            }
            if too_big {
                proof {
                    assert(digits_val(prev) * 10 + (c as int - 48) > i64::MAX);
                }
            } else if val > (i64::MAX - d) / 10 {
                too_big = true;
                proof {
                    assert(val * 10 > i64::MAX - d);
                    assert(digits_val(next) > i64::MAX);
                }
            } else {
                proof {
                    assert(val * 10 <= i64::MAX - d);
                }
                val = val * 10 + d;
            }
            num_str.push(c);
            self.advance();
        }
        let ghost e = digit_run_end(s, p0);
        assert(self.position as int == e);
        if !self.is_at_end() && self.current_char() == '.' {
            let is_range = match self.peek() {
                Some(c2) => c2 == '.',
                None => false,
            };
            if !is_range {
                // A single dot: the literal is floating-point and carries
                // its spelling; a fractional digit run may follow.
                num_str.push('.');
                self.advance();
                proof {
                    lemma_digit_run_end(s, e + 1);
                    assert(num_str@ =~= s.subrange(p0, e + 1));
                }
                #[verifier::loop_isolation(false)]
                loop
                    invariant
                        self.wf(),
                        self.input@ == s,
                        self.line == old(self).line,
                        e + 1 <= self.position as int <= digit_run_end(s, e + 1),
                        self.column as int == old(self).column as int + (self.position as int
                            - p0),
                        num_str@ == s.subrange(p0, self.position as int),
                        digit_run_end(s, self.position as int) == digit_run_end(s, e + 1),
                    decreases self.input@.len() - self.position,
                {
                    if self.is_at_end() {
                        break;
                    }
                    let c = self.current_char();
                    if !('0' <= c && c <= '9') {
                        break;
                    }
                    proof {
                        assert(digit_run_end(s, self.position as int) == digit_run_end(
                            s,
                            self.position as int + 1,
                        ));
                        lemma_digit_run_end(s, self.position as int + 1);
                        assert(s.subrange(p0, self.position as int + 1) =~= s.subrange(
                            p0,
                            self.position as int,
                        ).push(c));
                    }
                    num_str.push(c);
                    self.advance();
                }
                return Ok(TokenType::FloatLiteral(num_str));
            }
        }
        if too_big {
            return Err(
                CompilerError::LexerError(String::from_str("Integer literal out of range")),
            );
        }
        Ok(TokenType::IntLiteral(val))
    }

    fn read_string(&mut self) -> (r: Result<TokenType, CompilerError>)
        requires
            old(self).wf(),
            old(self).position < old(self).input@.len(),
        ensures
            final(self).wf(),
            match string_scan(old(self).input@, old(self).position as int + 1) {
                Ok((content, e)) => r matches Ok(t) && t@ == TokenTypeV::StringLiteral(content)
                    && final(self).st() == lex_jump(old(self).st(), e),
                Err(()) => r matches Err(err) && (err matches CompilerError::LexerError(_)),
            },
    {
        let ghost s = self.input@;
        let ghost p1 = self.position as int + 1;
        self.advance();
        let mut content = String::new();
        #[verifier::loop_isolation(false)]
        loop
            invariant
                self.wf(),
                self.input@ == s,
                self.line == old(self).line,
                p1 <= self.position as int,
                self.column as int == old(self).column as int + (self.position as int - p1) + 1,
                string_scan(s, p1) == match string_scan(s, self.position as int) {
                    Ok(p) => Ok::<(Seq<char>, int), ()>((content@ + p.0, p.1)),
                    Err(()) => Err::<(Seq<char>, int), ()>(()),
                },
            decreases self.input@.len() - self.position,
        {
            if self.is_at_end() {
                break;
            }
            if self.current_char() == '"' {
                break;
            }
            let ghost pos0 = self.position as int;
            if self.current_char() == '\\' {
                self.advance();
                if self.is_at_end() {
                    return Err(CompilerError::LexerError(String::from_str("Unterminated string")));
                }
                let c = self.current_char();
                let esc = match c {
                    'n' => '\n',
                    't' => '\t',
                    'r' => '\r',
                    _ => c,
                };
                proof {
                    assert(esc == string_escape(s[pos0 + 1]));
                }
                let ghost old_content = content@;
                content.push(esc);
                proof {
                    match string_scan(s, pos0 + 2) {
                        Ok((rest, e2)) => {
                            assert(old_content + (seq![esc] + rest) =~= content@ + rest);
                        },
                        Err(()) => {},
                    }
                }
                self.advance();
            } else {
                let c = self.current_char();
                let ghost old_content = content@;
                content.push(c);
                proof {
                    match string_scan(s, pos0 + 1) {
                        Ok((rest, e2)) => {
                            assert(old_content + (seq![c] + rest) =~= content@ + rest);
                        },
                        Err(()) => {},
                    }
                }
                self.advance();
            }
        }
        if self.is_at_end() {
            return Err(CompilerError::LexerError(String::from_str("Unterminated string")));
        }
        self.advance();
        proof {
            assert(content@ + Seq::<char>::empty() =~= content@);
        }
        Ok(TokenType::StringLiteral(content))
    }

    fn read_char(&mut self) -> (r: Result<TokenType, CompilerError>)
        requires
            old(self).wf(),
            old(self).position < old(self).input@.len(),
        ensures
            final(self).wf(),
            match spec_read_char_lit(old(self).input@, old(self).position as int) {
                Ok((ch, e)) => r matches Ok(t) && t@ == TokenTypeV::CharLiteral(ch) && final(self).st()
                    == lex_jump(old(self).st(), e),
                Err(()) => r matches Err(err) && (err matches CompilerError::LexerError(_)),
            },
    {
        self.advance();
        if self.is_at_end() {
            return Err(CompilerError::LexerError(String::from_str("Unterminated character")));
        }
        let ch: char;
        if self.current_char() == '\\' {
            self.advance();
            if self.is_at_end() {
                return Err(CompilerError::LexerError(String::from_str("Unterminated character")));
            }
            let c = self.current_char();
            ch = match c {
                'n' => '\n',
                't' => '\t',
                'r' => '\r',
                _ => c,
            };
        } else {
            ch = self.current_char();
        }
        self.advance();
        if self.is_at_end() {
            return Err(CompilerError::LexerError(String::from_str("Unterminated character")));
        }
        if self.current_char() != '\'' {
            return Err(CompilerError::LexerError(String::from_str("Unterminated character")));
        }
        self.advance();
        Ok(TokenType::CharLiteral(ch))
    }

    fn next_token(&mut self) -> (r: Result<Token, CompilerError>)
        requires
            old(self).wf(),
            old(self).position < old(self).input@.len(),
        ensures
            final(self).wf(),
            match spec_next_token(old(self).st()) {
                Ok((tv, st2)) => r matches Ok(t) && t@ == tv && final(self).st() == st2,
                Err(()) => r matches Err(e) && (e matches CompilerError::LexerError(_)),
            },
    {
        let line = self.line;
        let column = self.column;
        let c = self.current_char();

        if '0' <= c && c <= '9' {
            let t = self.read_number();
            match t {
                Ok(tt) => {
                    return Ok(Token { token_type: tt, line, column });
                },
                Err(e) => {
                    return Err(e);
                },
            }
        }
        if c.is_alphabetic() || c == '_' {
            let tt = self.read_identifier();
            return Ok(Token { token_type: tt, line, column });
        }
        if c == '"' {
            let t = self.read_string();
            match t {
                Ok(tt) => {
                    return Ok(Token { token_type: tt, line, column });
                },
                Err(e) => {
                    return Err(e);
                },
            }
        }
        if c == '\'' {
            let t = self.read_char();
            match t {
                Ok(tt) => {
                    return Ok(Token { token_type: tt, line, column });
                },
                Err(e) => {
                    return Err(e);
                },
            }
        }
        let token_type: TokenType;
        match c {
            '+' => {
                self.advance();
                token_type = TokenType::Plus;
            },
            '-' => {
                self.advance();
                if !self.is_at_end() && self.current_char() == '>' {
                    self.advance();
                    token_type = TokenType::Arrow;
                } else {
                    token_type = TokenType::Minus;
                }
            },
            '*' => {
                self.advance();
                token_type = TokenType::Star;
            },
            '/' => {
                self.advance();
                token_type = TokenType::Slash;
            },
            '%' => {
                self.advance();
                token_type = TokenType::Percent;
            },
            '=' => {
                self.advance();
                if !self.is_at_end() && self.current_char() == '=' {
                    self.advance();
                    token_type = TokenType::EqualEqual;
                } else if !self.is_at_end() && self.current_char() == '>' {
                    self.advance();
                    token_type = TokenType::FatArrow;
                } else {
                    token_type = TokenType::Equal;
                }
            },
            '!' => {
                self.advance();
                if !self.is_at_end() && self.current_char() == '=' {
                    self.advance();
                    token_type = TokenType::NotEqual;
                } else {
                    token_type = TokenType::Bang;
                }
            },
            '<' => {
                self.advance();
                if !self.is_at_end() && self.current_char() == '=' {
                    self.advance();
                    token_type = TokenType::LessEqual;
                } else if !self.is_at_end() && self.current_char() == '<' {
                    self.advance();
                    token_type = TokenType::LessLess;
                } else {
                    token_type = TokenType::Less;
                }
            },
            '>' => {
                self.advance();
                if !self.is_at_end() && self.current_char() == '=' {
                    self.advance();
                    token_type = TokenType::GreaterEqual;
                } else if !self.is_at_end() && self.current_char() == '>' {
                    self.advance();
                    token_type = TokenType::GreaterGreater;
                } else {
                    token_type = TokenType::Greater;
                }
            },
            '&' => {
                self.advance();
                if !self.is_at_end() && self.current_char() == '&' {
                    self.advance();
                    token_type = TokenType::AmpAmp;
                } else {
                    token_type = TokenType::Amp;
                }
            },
            '|' => {
                self.advance();
                if !self.is_at_end() && self.current_char() == '|' {
                    self.advance();
                    token_type = TokenType::PipePipe;
                } else {
                    token_type = TokenType::Pipe;
                }
            },
            '^' => {
                self.advance();
                token_type = TokenType::Caret;
            },
            '~' => {
                self.advance();
                token_type = TokenType::Tilde;
            },
            '(' => {
                self.advance();
                token_type = TokenType::LeftParen;
            },
            ')' => {
                self.advance();
                token_type = TokenType::RightParen;
            },
            '{' => {
                self.advance();
                token_type = TokenType::LeftBrace;
            },
            '}' => {
                self.advance();
                token_type = TokenType::RightBrace;
            },
            '[' => {
                self.advance();
                token_type = TokenType::LeftBracket;
            },
            ']' => {
                self.advance();
                token_type = TokenType::RightBracket;
            },
            ';' => {
                self.advance();
                token_type = TokenType::Semicolon;
            },
            ',' => {
                self.advance();
                token_type = TokenType::Comma;
            },
            '.' => {
                self.advance();
                token_type = TokenType::Dot;
            },
            ':' => {
                self.advance();
                if !self.is_at_end() && self.current_char() == ':' {
                    self.advance();
                    token_type = TokenType::ColonColon;
                } else {
                    token_type = TokenType::Colon;
                }
            },
            _ => {
                let mut msg = String::from_str("Unexpected character '");
                msg.push(c);
                msg.append("' at line ");
                let ls = crate::text::usize_to_string(line);
                msg.append(ls.as_str());
                msg.append(", column ");
                let cs = crate::text::usize_to_string(column);
                msg.append(cs.as_str());
                return Err(CompilerError::LexerError(msg));
            },
        }
        Ok(Token { token_type, line, column })
    }

    /// Produces the token sequence of the whole input, exactly as the
    /// specification mirror [`spec_tokenize`] describes it, closed by one
    /// end-of-input token.  The first malformed construct aborts the scan
    /// with a lexical error.
    pub fn tokenize(&mut self) -> (r: Result<Vec<Token>, CompilerError>)
        requires
            old(self).wf(),
        ensures
            final(self).wf(),
            match spec_tokenize(old(self).st()) {
                Ok(tvs) => r matches Ok(toks) && toks@.map_values(|t: Token| t@) == tvs,
                Err(()) => r matches Err(e) && (e matches CompilerError::LexerError(_)),
            },
    {
        let mut tokens: Vec<Token> = Vec::new();
        #[verifier::loop_isolation(false)]
        loop
            invariant
                self.wf(),
                spec_tokenize(old(self).st()) == match spec_tokenize(self.st()) {
                    Ok(rest) => Ok::<Seq<TokenV>, ()>(tokens@.map_values(|t: Token| t@) + rest),
                    Err(()) => Err::<Seq<TokenV>, ()>(()),
                },
            decreases self.input@.len() - self.position,
        {
            let ghost iter_st = self.st();
            match self.skip_trivia() {
                Ok(()) => {},
                Err(e) => {
                    return Err(e);
                },
            }
            proof {
                lemma_skip_trivia(iter_st);
                assert(spec_tokenize(iter_st) == spec_tokenize(self.st()));
            }
            if self.is_at_end() {
                let eof = Token { token_type: TokenType::Eof, line: self.line, column: self.column };
                let ghost before = tokens@.map_values(|t: Token| t@);
                tokens.push(eof);
                proof {
                    assert(tokens@.map_values(|t: Token| t@) =~= before.push(eof@));
                    assert(before + seq![eof@] =~= tokens@.map_values(|t: Token| t@));
                }
                return Ok(tokens);
            }
            let ghost skipped_st = self.st();
            let t = self.next_token();
            proof {
                lemma_next_token(skipped_st);
            }
            match t {
                Ok(tok) => {
                    let ghost before = tokens@.map_values(|t: Token| t@);
                    let ghost tv = tok@;
                    tokens.push(tok);
                    proof {
                        assert(tokens@.map_values(|t: Token| t@) =~= before.push(tv));
                        match spec_tokenize(self.st()) {
                            Ok(rest) => {
                                assert(before + (seq![tv] + rest) =~= tokens@.map_values(
                                    |t: Token| t@,
                                ) + rest);
                            },
                            Err(()) => {},
                        }
                    }
                },
                Err(e) => {
                    return Err(e);
                },
            }
        }
    }
}

/// Maps an identifier's text to its keyword token, or to a generic
/// identifier token when the fixed table has no exact match.
fn keyword_lookup(s: String) -> (t: TokenType)
    ensures
        t@ == spec_keyword(s@),
{
    if str_eqx(s.as_str(), "module") {
        TokenType::Module
    } else if str_eqx(s.as_str(), "import") {
        TokenType::Import
    } else if str_eqx(s.as_str(), "fn") {
        TokenType::Fn
    } else if str_eqx(s.as_str(), "let") {
        TokenType::Let
    } else if str_eqx(s.as_str(), "mut") {
        TokenType::Mut
    } else if str_eqx(s.as_str(), "const") {
        TokenType::Const
    } else if str_eqx(s.as_str(), "return") {
        TokenType::Return
    } else if str_eqx(s.as_str(), "if") {
        TokenType::If
    } else if str_eqx(s.as_str(), "else") {
        TokenType::Else
    } else if str_eqx(s.as_str(), "while") {
        TokenType::While
    } else if str_eqx(s.as_str(), "for") {
        TokenType::For
    } else if str_eqx(s.as_str(), "loop") {
        TokenType::Loop
    } else if str_eqx(s.as_str(), "break") {
        TokenType::Break
    } else if str_eqx(s.as_str(), "continue") {
        TokenType::Continue
    } else if str_eqx(s.as_str(), "struct") {
        TokenType::Struct
    } else if str_eqx(s.as_str(), "enum") {
        TokenType::Enum
    } else if str_eqx(s.as_str(), "union") {
        TokenType::Union
    } else if str_eqx(s.as_str(), "type") {
        TokenType::Type
    } else if str_eqx(s.as_str(), "pub") {
        TokenType::Pub
    } else if str_eqx(s.as_str(), "unsafe") {
        TokenType::Unsafe
    } else if str_eqx(s.as_str(), "defer") {
        TokenType::Defer
    } else if str_eqx(s.as_str(), "i8") {
        TokenType::I8
    } else if str_eqx(s.as_str(), "i16") {
        TokenType::I16
    } else if str_eqx(s.as_str(), "i32") {
        TokenType::I32
    } else if str_eqx(s.as_str(), "i64") {
        TokenType::I64
    } else if str_eqx(s.as_str(), "u8") {
        TokenType::U8
    } else if str_eqx(s.as_str(), "u16") {
        TokenType::U16
    } else if str_eqx(s.as_str(), "u32") {
        TokenType::U32
    } else if str_eqx(s.as_str(), "u64") {
        TokenType::U64
    } else if str_eqx(s.as_str(), "f32") {
        TokenType::F32
    } else if str_eqx(s.as_str(), "f64") {
        TokenType::F64
    } else if str_eqx(s.as_str(), "bool") {
        TokenType::Bool
    } else if str_eqx(s.as_str(), "char") {
        TokenType::Char
    } else if str_eqx(s.as_str(), "void") {
        TokenType::Void
    } else if str_eqx(s.as_str(), "str") {
        TokenType::Str
    } else if str_eqx(s.as_str(), "true") {
        TokenType::BoolLiteral(true)
    } else if str_eqx(s.as_str(), "false") {
        TokenType::BoolLiteral(false)
    } else {
        TokenType::Identifier(s)
    }
}

} // verus!
