//! The executable tokenizer: classification predicates, the operator table
//! lookup, and the single-pass scanner `process`, each proved against the
//! model in `model`.

use vstd::prelude::*;

use crate::model::chars_of;
use crate::model::AMPERSAND;
use crate::model::CARET;
use crate::model::COLON;
use crate::model::DIGIT_NINE;
use crate::model::DIGIT_ZERO;
use crate::model::DOT;
use crate::model::EQUALS_SIGN;
use crate::model::GREATER_THAN;
use crate::model::LEFT_CURLY;
use crate::model::LEFT_PAREN;
use crate::model::LEFT_SQUARE;
use crate::model::LESS_THAN;
use crate::model::LOWER_A;
use crate::model::LOWER_Z;
use crate::model::MINUS_SIGN;
use crate::model::PLUS_SIGN;
use crate::model::RIGHT_CURLY;
use crate::model::RIGHT_PAREN;
use crate::model::RIGHT_SQUARE;
use crate::model::SEMICOLON;
use crate::model::SLASH;
use crate::model::SPACE;
use crate::model::STAR;
use crate::model::TAB;
use crate::model::UNDERSCORE;
use crate::model::UPPER_A;
use crate::model::UPPER_Z;
use crate::model::VERTICAL_BAR;
use crate::model::spec_double_op;
use crate::model::spec_is_letter;
use crate::model::spec_is_number;
use crate::model::spec_is_operator;
use crate::model::spec_is_start_of_identifier;
use crate::model::spec_is_valid_in_identifier;
use crate::model::spec_is_whitespace;
use crate::model::lemma_scan_number_bounds;
use crate::model::spec_identifier_end;
use crate::model::spec_lex;
use crate::model::spec_lex_at;
use crate::model::spec_number_token;
use crate::model::spec_prepend;
use crate::model::spec_scan_number;
use crate::model::spec_single_op;
use crate::model::spec_str_to_operator;
use crate::model::SpecError;
use crate::model::SpecLexeme;
use crate::model::LOWER_E;
use crate::model::NEWLINE;
use crate::model::NUL;
use crate::model::UPPER_E;
use crate::tokens::LexError;
use crate::tokens::LexerState;
use crate::tokens::Lexeme;
use crate::tokens::Token;

verus! {

pub fn is_letter(c: u8) -> (r: bool)
    ensures
        r == spec_is_letter(c),
{
    (LOWER_A <= c && c <= LOWER_Z) || (UPPER_A <= c && c <= UPPER_Z)
}

pub fn is_number(c: u8) -> (r: bool)
    ensures
        r == spec_is_number(c),
{
    DIGIT_ZERO <= c && c <= DIGIT_NINE
}

pub fn is_start_of_identifier(c: u8) -> (r: bool)
    ensures
        r == spec_is_start_of_identifier(c),
{
    is_letter(c)
}

pub fn is_valid_in_identifier(c: u8) -> (r: bool)
    ensures
        r == spec_is_valid_in_identifier(c),
{
    is_letter(c) || is_number(c) || c == UNDERSCORE
}

pub fn is_whitespace(c: u8) -> (r: bool)
    ensures
        r == spec_is_whitespace(c),
{
    c == SPACE || c == TAB
}

pub fn is_operator(c: u8) -> (r: bool)
    ensures
        r == spec_is_operator(c),
{
    c == LEFT_CURLY || c == RIGHT_CURLY || c == LEFT_SQUARE || c == RIGHT_SQUARE
        || c == LEFT_PAREN || c == RIGHT_PAREN || c == PLUS_SIGN || c == MINUS_SIGN
        || c == EQUALS_SIGN || c == STAR || c == SLASH || c == AMPERSAND || c == VERTICAL_BAR
        || c == DOT || c == LESS_THAN || c == GREATER_THAN || c == CARET || c == COLON
        || c == SEMICOLON
}

fn one_char_operator(c: char) -> (r: Option<Token>)
    ensures
        r == spec_single_op(c),
{
    match c {
        '+' => Some(Token::Plus),
        '-' => Some(Token::Minus),
        '*' => Some(Token::Asterisk),
        '%' => Some(Token::Percent),
        '&' => Some(Token::Ampersand),
        '|' => Some(Token::Pipe),
        '/' => Some(Token::ForwardSlash),
        '=' => Some(Token::Equals),
        '(' => Some(Token::LeftParenthesis),
        ')' => Some(Token::RightParenthesis),
        '{' => Some(Token::LeftBracket),
        '}' => Some(Token::RightBracket),
        '[' => Some(Token::LeftBrace),
        ']' => Some(Token::RightBrace),
        '<' => Some(Token::LeftCaret),
        '>' => Some(Token::RightCaret),
        ';' => Some(Token::Semicolon),
        _ => None,
    }
}

fn two_char_operator(c1: char, c2: char) -> (r: Option<Token>)
    ensures
        r == spec_double_op(c1, c2),
{
    match (c1, c2) {
        ('+', '=') => Some(Token::PlusEquals),
        ('-', '=') => Some(Token::MinusEquals),
        ('*', '=') => Some(Token::AsteriskEquals),
        ('/', '=') => Some(Token::ForwardSlashEquals),
        ('=', '=') => Some(Token::EqualsEquals),
        ('+', '+') => Some(Token::PlusPlus),
        ('-', '-') => Some(Token::MinusMinus),
        ('*', '*') => Some(Token::AsteriskAsterisk),
        ('&', '&') => Some(Token::AmpersandAmpersand),
        ('|', '|') => Some(Token::PipePipe),
        ('<', '=') => Some(Token::LeftCaretEquals),
        ('>', '=') => Some(Token::RightCaretEquals),
        ('<', '<') => Some(Token::LeftCaretLeftCaret),
        ('>', '>') => Some(Token::RightCaretRightCaret),
        (':', ':') => Some(Token::ColonColon),
        _ => None,
    }
}

/// Looks an operator's text up in the table: one- and two-character entries
/// only, anything else matches nothing.
pub fn string_to_operator(text: &String) -> (r: Option<Token>)
    ensures
        r == spec_str_to_operator(text@),
{
    let s = text.as_str();
    let n = s.unicode_len();
    if n == 1 {
        one_char_operator(s.get_char(0))
    } else if n == 2 {
        two_char_operator(s.get_char(0), s.get_char(1))
    } else {
        None
    }
}

/// Relies on `String::from_utf8`: a vector of bytes below 0x80 is valid
/// UTF-8 and decodes to exactly one char per byte, each with the byte's code
/// point.
#[verifier::external_body]
fn ascii_to_string(bytes: Vec<u8>) -> (r: String)
    requires
        forall|i: int| 0 <= i < bytes@.len() ==> bytes@[i] < 128,
    ensures
        r@ == chars_of(bytes@),
{
    String::from_utf8(bytes).unwrap_or_default()
}

/// The returned lexeme carries exactly what the model emitted: the line, the
/// token kind, and the matched bytes as its text.
pub open spec fn lexeme_matches(l: Lexeme, m: SpecLexeme) -> bool {
    &&& l.line_number as nat == m.line
    &&& l.token == m.token
    &&& l.value matches Some(v) && v@ == chars_of(m.value)
}

/// The returned error carries exactly what the model's failure holds.
pub open spec fn error_matches(e: LexError, m: SpecError) -> bool {
    match m {
        SpecError::UnexpectedCharacter { line, byte } => e matches LexError::UnexpectedCharacter {
            line: el,
            byte: eb,
        } && el as nat == line && eb == byte,
        SpecError::UnrecognizedOperator { line, text } => e matches LexError::UnrecognizedOperator {
            line: el,
            text: et,
        } && el as nat == line && et@ == chars_of(text),
        SpecError::UnterminatedState { state } => e matches LexError::UnterminatedState {
            state: es,
        } && es == state,
    }
}

/// One numeric-literal scan, started at `start` with an empty accumulator.
/// On success returns the position one past the literal, the state the scan
/// ended in, and the accumulated bytes; the terminating byte is not
/// consumed.
#[verifier::loop_isolation(false)]
fn scan_number(bytes: &Vec<u8>, start: usize, line: usize) -> (r: Result<
    (usize, LexerState, Vec<u8>),
    LexError,
>)
    requires
        start < bytes@.len(),
    ensures
        match r {
            Ok((end, st, val)) => {
                &&& spec_scan_number(
                    bytes@,
                    start as int,
                    start as int,
                    line as nat,
                    LexerState::WholeNumber,
                ) == Ok::<(int, LexerState), SpecError>((end as int, st))
                &&& val@ == bytes@.subrange(start as int, end as int)
                &&& forall|j: int| start <= j < end ==> bytes@[j] < 128
                &&& start <= end < bytes@.len()
                &&& (st is WholeNumber || st is Decimal || st is Exponential)
            },
            Err(e) => spec_scan_number(
                bytes@,
                start as int,
                start as int,
                line as nat,
                LexerState::WholeNumber,
            ) matches Err(m) && error_matches(e, m),
        },
{
    let ghost s = bytes@;
    let n = bytes.len();
    let mut cur = start;
    let mut st = LexerState::WholeNumber;
    let mut val: Vec<u8> = Vec::new();
    loop
        invariant
            start <= cur <= n,
            st is WholeNumber || st is Decimal || st is Exponential,
            val@ == s.subrange(start as int, cur as int),
            forall|j: int| start <= j < cur ==> s[j] < 128,
            spec_scan_number(s, start as int, start as int, line as nat, LexerState::WholeNumber)
                == spec_scan_number(s, start as int, cur as int, line as nat, st),
        decreases n - cur,
    {
        if cur >= n {
            // input exhausted mid-literal: the token never terminated
            return Err(LexError::UnterminatedState { state: st });
        }
        let b = bytes[cur];
        match st {
            LexerState::WholeNumber => {
                if b == PLUS_SIGN || b == MINUS_SIGN {
                    if cur == start {
                        // a sign only as the very first character
                        val.push(b);
                        cur = cur + 1;
                    } else {
                        return Err(LexError::UnexpectedCharacter { line, byte: b });
                    }
                } else if is_number(b) {
                    val.push(b);
                    cur = cur + 1;
                } else if b == DOT {
                    val.push(b);
                    cur = cur + 1;
                    st = LexerState::Decimal;
                } else if b == LOWER_E || b == UPPER_E {
                    val.push(b);
                    cur = cur + 1;
                    // at most one sign directly after the exponent marker
                    if cur < n {
                        let b2 = bytes[cur];
                        if b2 == PLUS_SIGN || b2 == MINUS_SIGN {
                            val.push(b2);
                            cur = cur + 1;
                        }
                    }
                    st = LexerState::Exponential;
                } else if cur == start {
                    // this byte cannot start a numeric literal
                    return Err(LexError::UnexpectedCharacter { line, byte: b });
                } else {
                    return Ok((cur, st, val));
                }
            }
            LexerState::Decimal => {
                if is_number(b) {
                    val.push(b);
                    cur = cur + 1;
                } else if b == LOWER_E || b == UPPER_E {
                    val.push(b);
                    cur = cur + 1;
                    if cur < n {
                        let b2 = bytes[cur];
                        if b2 == PLUS_SIGN || b2 == MINUS_SIGN {
                            val.push(b2);
                            cur = cur + 1;
                        }
                    }
                    st = LexerState::Exponential;
                } else {
                    return Ok((cur, st, val));
                }
            }
            _ => {
                if is_number(b) {
                    val.push(b);
                    cur = cur + 1;
                } else {
                    return Ok((cur, st, val));
                }
            }
        }
        proof {
            assert(val@ =~= s.subrange(start as int, cur as int));
        }
    }
}

/// One synchronous pass over the source. The caller appends a single NUL
/// byte as an end-of-stream sentinel; the scan stops there (or at the end of
/// the input while idle). On success every lexeme found is returned in
/// source order; on failure the first error wins and no lexemes are
/// delivered.
#[verifier::loop_isolation(false)]
pub fn process(bytes: &Vec<u8>) -> (r: Result<Vec<Lexeme>, LexError>)
    requires
        bytes@.len() < usize::MAX,
    ensures
        match r {
            Ok(lexemes) => {
                &&& spec_lex(bytes@) matches Ok(models)
                &&& lexemes@.len() == models.len()
                &&& forall|i: int|
                    0 <= i < models.len() ==> lexeme_matches(#[trigger] lexemes@[i], models[i])
            },
            Err(e) => spec_lex(bytes@) matches Err(m) && error_matches(e, m),
        },
{
    let ghost s = bytes@;
    let n = bytes.len();
    let mut lexemes: Vec<Lexeme> = Vec::new();
    let ghost mut done: Seq<SpecLexeme> = Seq::empty();
    let mut pos: usize = 0;
    let mut line: usize = 1;

    loop
        invariant
            pos <= n,
            1 <= line <= pos + 1,
            spec_lex(s) == spec_prepend(done, spec_lex_at(s, pos as int, line as nat)),
            lexemes@.len() == done.len(),
            forall|i: int| 0 <= i < done.len() ==> lexeme_matches(#[trigger] lexemes@[i], done[i]),
        decreases n - pos,
    {
        if pos >= n {
            // the input is exhausted while idle: a successful scan
            proof {
                assert(done + Seq::<SpecLexeme>::empty() =~= done);
            }
            return Ok(lexemes);
        }
        let c = bytes[pos];
        if c == NEWLINE {
            line = line + 1;
            pos = pos + 1;
        } else if is_whitespace(c) {
            pos = pos + 1;
        } else if is_start_of_identifier(c) {
            let mut end = pos;
            let mut val: Vec<u8> = Vec::new();
            while end < n && is_valid_in_identifier(bytes[end])
                invariant
                    pos <= end <= n,
                    val@ == s.subrange(pos as int, end as int),
                    forall|j: int| pos <= j < end ==> spec_is_valid_in_identifier(s[j]),
                    spec_identifier_end(s, pos as int) == spec_identifier_end(s, end as int),
                decreases n - end,
            {
                proof {
                    assert(spec_identifier_end(s, end as int) == spec_identifier_end(s, end + 1));
                }
                val.push(bytes[end]);
                end = end + 1;
                proof {
                    assert(val@ =~= s.subrange(pos as int, end as int));
                }
            }
            if end >= n {
                // the identifier never received its terminating byte
                return Err(LexError::UnterminatedState { state: LexerState::Identifier });
            }
            proof {
                assert(forall|i: int| 0 <= i < val@.len() ==> val@[i] < 128);
            }
            let text = ascii_to_string(val);
            lexemes.push(Lexeme { line_number: line, token: Token::Identifier, value: Some(text) });
            proof {
                let m = SpecLexeme {
                    line: line as nat,
                    token: Token::Identifier,
                    value: s.subrange(pos as int, end as int),
                };
                if let Ok(rest) = spec_lex_at(s, end as int, line as nat) {
                    assert(done + (seq![m] + rest) =~= done.push(m) + rest);
                }
                done = done.push(m);
            }
            pos = end;
        } else if c == NUL {
            // the sentinel terminator: stop successfully
            proof {
                assert(done + Seq::<SpecLexeme>::empty() =~= done);
            }
            return Ok(lexemes);
        } else if pos + 1 < n && is_number(bytes[pos + 1]) {
            // a byte followed by a digit opens a numeric literal, so a
            // leading sign is absorbed into the literal
            match scan_number(bytes, pos, line) {
                Ok((cur, st, val)) => {
                    let token = if st == LexerState::WholeNumber {
                        Token::IntegerLiteral
                    } else {
                        Token::FloatLiteral
                    };
                    let text = ascii_to_string(val);
                    lexemes.push(Lexeme { line_number: line, token, value: Some(text) });
                    proof {
                        lemma_scan_number_bounds(
                            s,
                            pos as int,
                            pos as int,
                            line as nat,
                            LexerState::WholeNumber,
                        );
                        let m = SpecLexeme {
                            line: line as nat,
                            token: spec_number_token(st),
                            value: s.subrange(pos as int, cur as int),
                        };
                        if let Ok(rest) = spec_lex_at(s, cur as int, line as nat) {
                            assert(done + (seq![m] + rest) =~= done.push(m) + rest);
                        }
                        done = done.push(m);
                    }
                    pos = cur;
                }
                Err(e) => {
                    return Err(e);
                }
            }
        } else if is_operator(c) {
            // maximal munch: prefer the two-character table entry, fall back
            // to the one-character entry
            let two = if pos + 1 < n {
                two_char_operator(c as char, bytes[pos + 1] as char)
            } else {
                None
            };
            match two {
                Some(t) => {
                    let mut val: Vec<u8> = Vec::new();
                    val.push(c);
                    val.push(bytes[pos + 1]);
                    proof {
                        assert(val@ =~= s.subrange(pos as int, pos + 2));
                    }
                    let text = ascii_to_string(val);
                    lexemes.push(Lexeme { line_number: line, token: t, value: Some(text) });
                    proof {
                        let m = SpecLexeme {
                            line: line as nat,
                            token: t,
                            value: s.subrange(pos as int, pos + 2),
                        };
                        if let Ok(rest) = spec_lex_at(s, pos + 2, line as nat) {
                            assert(done + (seq![m] + rest) =~= done.push(m) + rest);
                        }
                        done = done.push(m);
                    }
                    pos = pos + 2;
                }
                None => {
                    match one_char_operator(c as char) {
                        Some(t) => {
                            let mut val: Vec<u8> = Vec::new();
                            val.push(c);
                            proof {
                                assert(val@ =~= s.subrange(pos as int, pos + 1));
                            }
                            let text = ascii_to_string(val);
                            lexemes.push(
                                Lexeme { line_number: line, token: t, value: Some(text) },
                            );
                            proof {
                                let m = SpecLexeme {
                                    line: line as nat,
                                    token: t,
                                    value: s.subrange(pos as int, pos + 1),
                                };
                                if let Ok(rest) = spec_lex_at(s, pos + 1, line as nat) {
                                    assert(done + (seq![m] + rest) =~= done.push(m) + rest);
                                }
                                done = done.push(m);
                            }
                            pos = pos + 1;
                        }
                        None => {
                            if pos + 1 < n {
                                // neither form matches the table
                                let mut val: Vec<u8> = Vec::new();
                                val.push(c);
                                let text = ascii_to_string(val);
                                return Err(LexError::UnrecognizedOperator { line, text });
                            } else {
                                // the last byte opened an operator that
                                // never resolved
                                return Err(
                                    LexError::UnterminatedState { state: LexerState::Operator },
                                );
                            }
                        }
                    }
                }
            }
        } else {
            // unclassifiable while idle
            return Err(LexError::UnexpectedCharacter { line, byte: c });
        }
    }
}

} // verus!
