//! The mathematical model of the tokenizer: byte classification, the
//! operator table, and a recursive scanning function over the raw byte
//! sequence. The executable scanner in `lexer` is proved to return exactly
//! what this model describes.

use vstd::prelude::*;

use crate::tokens::LexerState;
use crate::tokens::Token;

verus! {

// ---------------------------------------------------------------------------
// The bytes the scanner singles out, by their ASCII codes
// ---------------------------------------------------------------------------

pub const NUL: u8 = 0;
pub const TAB: u8 = 9;
pub const NEWLINE: u8 = 10;
pub const SPACE: u8 = 32;
pub const AMPERSAND: u8 = 38;
pub const LEFT_PAREN: u8 = 40;
pub const RIGHT_PAREN: u8 = 41;
pub const STAR: u8 = 42;
pub const PLUS_SIGN: u8 = 43;
pub const MINUS_SIGN: u8 = 45;
pub const DOT: u8 = 46;
pub const SLASH: u8 = 47;
pub const DIGIT_ZERO: u8 = 48;
pub const DIGIT_NINE: u8 = 57;
pub const COLON: u8 = 58;
pub const SEMICOLON: u8 = 59;
pub const LESS_THAN: u8 = 60;
pub const EQUALS_SIGN: u8 = 61;
pub const GREATER_THAN: u8 = 62;
pub const UPPER_A: u8 = 65;
pub const UPPER_E: u8 = 69;
pub const UPPER_Z: u8 = 90;
pub const LEFT_SQUARE: u8 = 91;
pub const RIGHT_SQUARE: u8 = 93;
pub const CARET: u8 = 94;
pub const UNDERSCORE: u8 = 95;
pub const LOWER_A: u8 = 97;
pub const LOWER_E: u8 = 101;
pub const LOWER_Z: u8 = 122;
pub const LEFT_CURLY: u8 = 123;
pub const VERTICAL_BAR: u8 = 124;
pub const RIGHT_CURLY: u8 = 125;

// ---------------------------------------------------------------------------
// Byte classification
// ---------------------------------------------------------------------------

pub open spec fn spec_is_letter(c: u8) -> bool {
    (LOWER_A <= c && c <= LOWER_Z) || (UPPER_A <= c && c <= UPPER_Z)
}

pub open spec fn spec_is_number(c: u8) -> bool {
    DIGIT_ZERO <= c && c <= DIGIT_NINE
}

pub open spec fn spec_is_start_of_identifier(c: u8) -> bool {
    spec_is_letter(c)
}

pub open spec fn spec_is_valid_in_identifier(c: u8) -> bool {
    spec_is_letter(c) || spec_is_number(c) || c == UNDERSCORE
}

pub open spec fn spec_is_whitespace(c: u8) -> bool {
    c == SPACE || c == TAB
}

/// Membership admits entry into the `Operator` state from `Overall`; it does
/// not guarantee a valid operator token (`^`, `.` and a lone `:` are members
/// but match no table entry).
pub open spec fn spec_is_operator(c: u8) -> bool {
    ||| c == LEFT_CURLY
    ||| c == RIGHT_CURLY
    ||| c == LEFT_SQUARE
    ||| c == RIGHT_SQUARE
    ||| c == LEFT_PAREN
    ||| c == RIGHT_PAREN
    ||| c == PLUS_SIGN
    ||| c == MINUS_SIGN
    ||| c == EQUALS_SIGN
    ||| c == STAR
    ||| c == SLASH
    ||| c == AMPERSAND
    ||| c == VERTICAL_BAR
    ||| c == DOT
    ||| c == LESS_THAN
    ||| c == GREATER_THAN
    ||| c == CARET
    ||| c == COLON
    ||| c == SEMICOLON
}

/// A byte read from the source, seen as the character it accumulates to.
pub open spec fn byte_char(b: u8) -> char {
    b as char
}

/// A run of bytes, seen as the text it accumulates to.
pub open spec fn chars_of(bs: Seq<u8>) -> Seq<char> {
    bs.map_values(|b: u8| byte_char(b))
}

// ---------------------------------------------------------------------------
// The operator/punctuation table (authoritative, closed)
// ---------------------------------------------------------------------------

pub open spec fn spec_single_op(c: char) -> Option<Token> {
    match c {
        '+' => Some(Token::Plus),
        '-' => Some(Token::Minus),
        '*' => Some(Token::Asterisk),
        '%' => Some(Token::Percent),
        '&' => Some(Token::Ampersand),
        '|' => Some(Token::Pipe),
        '/' => Some(Token::ForwardSlash),
        '=' => Some(Token::Equals),
        '(' => Some(Token::LeftParenthesis),
        ')' => Some(Token::RightParenthesis),
        '{' => Some(Token::LeftBracket),
        '}' => Some(Token::RightBracket),
        '[' => Some(Token::LeftBrace),
        ']' => Some(Token::RightBrace),
        '<' => Some(Token::LeftCaret),
        '>' => Some(Token::RightCaret),
        ';' => Some(Token::Semicolon),
        _ => None,
    }
}

pub open spec fn spec_double_op(c1: char, c2: char) -> Option<Token> {
    match (c1, c2) {
        ('+', '=') => Some(Token::PlusEquals),
        ('-', '=') => Some(Token::MinusEquals),
        ('*', '=') => Some(Token::AsteriskEquals),
        ('/', '=') => Some(Token::ForwardSlashEquals),
        ('=', '=') => Some(Token::EqualsEquals),
        ('+', '+') => Some(Token::PlusPlus),
        ('-', '-') => Some(Token::MinusMinus),
        ('*', '*') => Some(Token::AsteriskAsterisk),
        ('&', '&') => Some(Token::AmpersandAmpersand),
        ('|', '|') => Some(Token::PipePipe),
        ('<', '=') => Some(Token::LeftCaretEquals),
        ('>', '=') => Some(Token::RightCaretEquals),
        ('<', '<') => Some(Token::LeftCaretLeftCaret),
        ('>', '>') => Some(Token::RightCaretRightCaret),
        (':', ':') => Some(Token::ColonColon),
        _ => None,
    }
}

/// The whole table, keyed by the operator's text.
pub open spec fn spec_str_to_operator(cs: Seq<char>) -> Option<Token> {
    if cs.len() == 1 {
        spec_single_op(cs[0])
    } else if cs.len() == 2 {
        spec_double_op(cs[0], cs[1])
    } else {
        None
    }
}

// ---------------------------------------------------------------------------
// The model of one recognized unit and of a failure
// ---------------------------------------------------------------------------

#[verifier::ext_equal]
pub ghost struct SpecLexeme {
    pub line: nat,
    pub token: Token,
    /// The verbatim matched source bytes.
    pub value: Seq<u8>,
}

#[verifier::ext_equal]
pub ghost enum SpecError {
    UnexpectedCharacter { line: nat, byte: u8 },
    UnrecognizedOperator { line: nat, text: Seq<u8> },
    UnterminatedState { state: LexerState },
}

// ---------------------------------------------------------------------------
// Scanning
// ---------------------------------------------------------------------------

/// First position at or after `pos` holding a byte that cannot continue an
/// identifier (or the end of the input).
pub open spec fn spec_identifier_end(s: Seq<u8>, pos: int) -> int
    decreases s.len() - pos,
{
    if 0 <= pos < s.len() && spec_is_valid_in_identifier(s[pos]) {
        spec_identifier_end(s, pos + 1)
    } else {
        pos
    }
}

/// One numeric-literal scan, started at `start` in state `WholeNumber` with
/// an empty accumulator; `pos` is the current cursor and `st` the current
/// numeric state. On success yields the position one past the literal and the
/// state the scan ended in (`WholeNumber` closes an `IntegerLiteral`,
/// `Decimal` and `Exponential` close a `FloatLiteral`). The terminating byte
/// is not consumed.
pub open spec fn spec_scan_number(
    s: Seq<u8>,
    start: int,
    pos: int,
    line: nat,
    st: LexerState,
) -> Result<(int, LexerState), SpecError>
    decreases s.len() - pos,
{
    if pos >= s.len() {
        Err(SpecError::UnterminatedState { state: st })
    } else {
        let c = s[pos];
        match st {
            LexerState::WholeNumber => {
                if c == PLUS_SIGN || c == MINUS_SIGN {
                    // a sign is accepted only as the very first accumulated
                    // character
                    if pos == start {
                        spec_scan_number(s, start, pos + 1, line, LexerState::WholeNumber)
                    } else {
                        Err(SpecError::UnexpectedCharacter { line, byte: c })
                    }
                } else if spec_is_number(c) {
                    spec_scan_number(s, start, pos + 1, line, LexerState::WholeNumber)
                } else if c == DOT {
                    spec_scan_number(s, start, pos + 1, line, LexerState::Decimal)
                } else if c == LOWER_E || c == UPPER_E {
                    // consume the exponent marker and at most one sign
                    if pos + 1 < s.len() && (s[pos + 1] == PLUS_SIGN || s[pos + 1] == MINUS_SIGN) {
                        spec_scan_number(s, start, pos + 2, line, LexerState::Exponential)
                    } else {
                        spec_scan_number(s, start, pos + 1, line, LexerState::Exponential)
                    }
                } else if pos == start {
                    // the byte that led here cannot start a numeric literal
                    Err(SpecError::UnexpectedCharacter { line, byte: c })
                } else {
                    Ok((pos, LexerState::WholeNumber))
                }
            }
            LexerState::Decimal => {
                if spec_is_number(c) {
                    spec_scan_number(s, start, pos + 1, line, LexerState::Decimal)
                } else if c == LOWER_E || c == UPPER_E {
                    if pos + 1 < s.len() && (s[pos + 1] == PLUS_SIGN || s[pos + 1] == MINUS_SIGN) {
                        spec_scan_number(s, start, pos + 2, line, LexerState::Exponential)
                    } else {
                        spec_scan_number(s, start, pos + 1, line, LexerState::Exponential)
                    }
                } else {
                    Ok((pos, LexerState::Decimal))
                }
            }
            LexerState::Exponential => {
                if spec_is_number(c) {
                    spec_scan_number(s, start, pos + 1, line, LexerState::Exponential)
                } else {
                    Ok((pos, LexerState::Exponential))
                }
            }
            _ => Err(SpecError::UnterminatedState { state: st }),
        }
    }
}

/// The token kind a finished numeric scan emits.
pub open spec fn spec_number_token(st: LexerState) -> Token {
    if st is WholeNumber {
        Token::IntegerLiteral
    } else {
        Token::FloatLiteral
    }
}

/// The tokenizer itself, from position `pos` in the idle (`Overall`) state on
/// line `line`: the ordered lexemes of the rest of the input, or the first
/// error. The NUL sentinel stops the scan; exhausting the input while a token
/// is still open is an `UnterminatedState` failure.
pub open spec fn spec_lex_at(s: Seq<u8>, pos: int, line: nat) -> Result<Seq<SpecLexeme>, SpecError>
    decreases s.len() - pos,
        via spec_lex_at_decreases
{
    if !(0 <= pos < s.len()) {
        Ok(Seq::empty())
    } else {
        let c = s[pos];
        if c == NEWLINE {
            spec_lex_at(s, pos + 1, line + 1)
        } else if spec_is_whitespace(c) {
            spec_lex_at(s, pos + 1, line)
        } else if spec_is_start_of_identifier(c) {
            let end = spec_identifier_end(s, pos);
            if end >= s.len() {
                Err(SpecError::UnterminatedState { state: LexerState::Identifier })
            } else {
                match spec_lex_at(s, end, line) {
                    Ok(rest) => Ok(
                        seq![
                            SpecLexeme {
                                line,
                                token: Token::Identifier,
                                value: s.subrange(pos, end),
                            },
                        ] + rest,
                    ),
                    Err(e) => Err(e),
                }
            }
        } else if c == 0 {
            Ok(Seq::empty())
        } else if pos + 1 < s.len() && spec_is_number(s[pos + 1]) {
            // a byte followed by a digit opens a numeric literal, which lets
            // a leading sign be absorbed into the literal
            match spec_scan_number(s, pos, pos, line, LexerState::WholeNumber) {
                Ok((end, st)) => match spec_lex_at(s, end, line) {
                    Ok(rest) => Ok(
                        seq![
                            SpecLexeme {
                                line,
                                token: spec_number_token(st),
                                value: s.subrange(pos, end),
                            },
                        ] + rest,
                    ),
                    Err(e) => Err(e),
                },
                Err(e) => Err(e),
            }
        } else if spec_is_operator(c) {
            // maximal munch: a two-character table entry wins over the
            // one-character entry it extends
            let two = if pos + 1 < s.len() {
                spec_double_op(byte_char(c), byte_char(s[pos + 1]))
            } else {
                None
            };
            match two {
                Some(t) => match spec_lex_at(s, pos + 2, line) {
                    Ok(rest) => Ok(
                        seq![SpecLexeme { line, token: t, value: s.subrange(pos, pos + 2) }] + rest,
                    ),
                    Err(e) => Err(e),
                },
                None => match spec_single_op(byte_char(c)) {
                    Some(t) => match spec_lex_at(s, pos + 1, line) {
                        Ok(rest) => Ok(
                            seq![SpecLexeme { line, token: t, value: s.subrange(pos, pos + 1) }]
                                + rest,
                        ),
                        Err(e) => Err(e),
                    },
                    None => if pos + 1 < s.len() {
                        Err(SpecError::UnrecognizedOperator { line, text: seq![c] })
                    } else {
                        Err(SpecError::UnterminatedState { state: LexerState::Operator })
                    },
                },
            }
        } else {
            Err(SpecError::UnexpectedCharacter { line, byte: c })
        }
    }
}

#[via_fn]
proof fn spec_lex_at_decreases(s: Seq<u8>, pos: int, line: nat) {
    if 0 <= pos < s.len() {
        lemma_identifier_end_bounds(s, pos);
        lemma_scan_number_bounds(s, pos, pos, line, LexerState::WholeNumber);
    }
}

/// The whole scan: from the first byte, on line 1.
pub open spec fn spec_lex(s: Seq<u8>) -> Result<Seq<SpecLexeme>, SpecError> {
    spec_lex_at(s, 0, 1)
}

/// Lexemes already emitted, glued onto the outcome of scanning the rest.
pub open spec fn spec_prepend(
    done: Seq<SpecLexeme>,
    r: Result<Seq<SpecLexeme>, SpecError>,
) -> Result<Seq<SpecLexeme>, SpecError> {
    match r {
        Ok(rest) => Ok(done + rest),
        Err(e) => Err(e),
    }
}

// ---------------------------------------------------------------------------
// Bounds of the scanning helpers
// ---------------------------------------------------------------------------

pub proof fn lemma_identifier_end_bounds(s: Seq<u8>, pos: int)
    requires
        0 <= pos <= s.len(),
    ensures
        pos <= spec_identifier_end(s, pos) <= s.len(),
        pos < s.len() && spec_is_valid_in_identifier(s[pos]) ==> pos < spec_identifier_end(s, pos),
    decreases s.len() - pos,
{
    if pos < s.len() && spec_is_valid_in_identifier(s[pos]) {
        lemma_identifier_end_bounds(s, pos + 1);
    }
}

/// Every byte of an identifier run, up to where it ends, can continue an
/// identifier.
pub proof fn lemma_identifier_run_valid(s: Seq<u8>, pos: int)
    requires
        0 <= pos <= s.len(),
    ensures
        forall|j: int|
            pos <= j < spec_identifier_end(s, pos) ==> spec_is_valid_in_identifier(s[j]),
    decreases s.len() - pos,
{
    if pos < s.len() && spec_is_valid_in_identifier(s[pos]) {
        lemma_identifier_run_valid(s, pos + 1);
        lemma_identifier_end_bounds(s, pos + 1);
    }
}

pub proof fn lemma_scan_number_bounds(s: Seq<u8>, start: int, pos: int, line: nat, st: LexerState)
    requires
        0 <= start <= pos,
    ensures
        spec_scan_number(s, start, pos, line, st) matches Ok((end, fin)) ==> pos <= end
            < s.len() && (pos == start && st is WholeNumber ==> start < end),
    decreases s.len() - pos,
{
    if pos < s.len() {
        lemma_scan_number_bounds(s, start, pos + 1, line, LexerState::WholeNumber);
        lemma_scan_number_bounds(s, start, pos + 1, line, LexerState::Decimal);
        lemma_scan_number_bounds(s, start, pos + 1, line, LexerState::Exponential);
        if pos + 1 < s.len() {
            lemma_scan_number_bounds(s, start, pos + 2, line, LexerState::Exponential);
        }
    }
}

} // verus!
