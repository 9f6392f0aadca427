use vstd::prelude::*;

verus! {

/// The closed set of lexical categories a lexeme may belong to.
///
/// `CharLiteral` is declared as part of the vocabulary but no scanning state
/// ever produces it; the grammar covers identifiers, numeric literals and a
/// fixed operator/punctuation table only.
#[derive(Clone, Copy, Debug, PartialEq, Eq, Structural)]
pub enum Token {
    Identifier,
    Plus,
    Minus,
    Equals,
    Asterisk,
    AsteriskAsterisk,
    Percent,
    Ampersand,
    AmpersandAmpersand,
    Pipe,
    PipePipe,
    ForwardSlash,
    PlusEquals,
    MinusEquals,
    EqualsEquals,
    AsteriskEquals,
    ForwardSlashEquals,
    PlusPlus,
    MinusMinus,
    LeftParenthesis,
    RightParenthesis,
    LeftBracket,
    RightBracket,
    LeftBrace,
    RightBrace,
    LeftCaret,
    RightCaret,
    LeftCaretLeftCaret,
    RightCaretRightCaret,
    LeftCaretEquals,
    RightCaretEquals,
    Semicolon,
    ColonColon,
    IntegerLiteral,
    FloatLiteral,
    CharLiteral,
}

/// One recognized unit of source text: the line where it was found, its
/// category, and the verbatim matched substring.
#[derive(Clone, Debug, PartialEq)]
pub struct Lexeme {
    pub line_number: usize,
    pub token: Token,
    pub value: Option<String>,
}

/// The scanner's mode. Exactly one state is active at any time.
///
/// `Literal` is reserved for character/string literals; no transition ever
/// enters it.
#[derive(Clone, Copy, Debug, PartialEq, Eq, Structural)]
pub enum LexerState {
    Overall,
    Identifier,
    WholeNumber,
    Decimal,
    Exponential,
    Literal,
    Operator,
}

/// Why a scan failed. Every error is fatal to the whole `process` call: the
/// first error wins and no lexemes are delivered.
#[derive(Clone, Debug, PartialEq)]
pub enum LexError {
    /// A byte that cannot legally start or continue the current state, such
    /// as a sign appearing mid-digit-run or an unclassifiable byte seen while
    /// idle.
    UnexpectedCharacter { line: usize, byte: u8 },
    /// An operator-char-started sequence matching neither a one- nor a
    /// two-character table entry.
    UnrecognizedOperator { line: usize, text: String },
    /// End of input reached while the machine is not idle: a token never
    /// received its terminating byte (typically a missing NUL sentinel).
    UnterminatedState { state: LexerState },
    /// An invariant violation in the state representation itself; defensive,
    /// unreachable in this implementation.
    InternalError,
}

} // verus!
