//! General laws of the tokenizer, proved once and for all inputs against the
//! model in `model`.

use vstd::prelude::*;

use crate::model::byte_char;
use crate::model::chars_of;
use crate::model::lemma_identifier_end_bounds;
use crate::model::lemma_identifier_run_valid;
use crate::model::lemma_scan_number_bounds;
use crate::model::spec_is_letter;
use crate::model::spec_is_number;
use crate::model::spec_number_token;
use crate::model::spec_prepend;
use crate::model::DOT;
use crate::model::LOWER_E;
use crate::model::MINUS_SIGN;
use crate::model::PLUS_SIGN;
use crate::model::SPACE;
use crate::model::UPPER_E;
use crate::model::spec_double_op;
use crate::model::spec_identifier_end;
use crate::model::spec_is_operator;
use crate::model::spec_is_start_of_identifier;
use crate::model::spec_is_valid_in_identifier;
use crate::model::spec_is_whitespace;
use crate::model::spec_lex;
use crate::model::spec_lex_at;
use crate::model::spec_scan_number;
use crate::model::spec_single_op;
use crate::model::spec_str_to_operator;
use crate::model::SpecError;
use crate::model::SpecLexeme;
use crate::model::NEWLINE;
use crate::model::NUL;
use crate::tokens::LexerState;
use crate::tokens::Token;

verus! {

/// A run of identifier-continue bytes from `pos` up to (but not including)
/// `k` ends exactly at `k`.
pub proof fn lemma_identifier_end_run(s: Seq<u8>, pos: int, k: int)
    requires
        0 <= pos <= k <= s.len(),
        forall|j: int| pos <= j < k ==> spec_is_valid_in_identifier(s[j]),
        k == s.len() || !spec_is_valid_in_identifier(s[k]),
    ensures
        spec_identifier_end(s, pos) == k,
    decreases k - pos,
{
    if pos < k {
        lemma_identifier_end_run(s, pos + 1, k);
    }
}

/// Law: any input matching `[A-Za-z][A-Za-z0-9_]*`, followed by the NUL
/// terminator, yields exactly one `Identifier` lexeme whose value is the
/// matched substring verbatim, on line 1.
pub proof fn lemma_single_identifier(w: Seq<u8>)
    requires
        w.len() > 0,
        spec_is_start_of_identifier(w[0]),
        forall|j: int| 0 <= j < w.len() ==> spec_is_valid_in_identifier(w[j]),
    ensures
        spec_lex(w + seq![NUL]) == Ok::<Seq<SpecLexeme>, SpecError>(
            seq![SpecLexeme { line: 1, token: Token::Identifier, value: w }],
        ),
{
    let s = w + seq![NUL];
    assert(forall|j: int| 0 <= j < w.len() ==> s[j] == w[j]);
    assert(s[w.len() as int] == NUL);
    lemma_identifier_end_run(s, 0, w.len() as int);
    assert(spec_lex_at(s, w.len() as int, 1) == Ok::<Seq<SpecLexeme>, SpecError>(Seq::empty()));
    assert(s.subrange(0, w.len() as int) =~= w);
    let m = SpecLexeme { line: 1, token: Token::Identifier, value: w };
    assert(seq![m] + Seq::<SpecLexeme>::empty() =~= seq![m]);
}

/// Law (sentinel requirement, identifier case): an input that is nothing but
/// an unflushed identifier, with no NUL sentinel, fails with
/// `UnterminatedState` rather than silently dropping the final token.
pub proof fn lemma_unterminated_identifier(w: Seq<u8>)
    requires
        w.len() > 0,
        spec_is_start_of_identifier(w[0]),
        forall|j: int| 0 <= j < w.len() ==> spec_is_valid_in_identifier(w[j]),
    ensures
        spec_lex(w) == Err::<Seq<SpecLexeme>, SpecError>(
            SpecError::UnterminatedState { state: LexerState::Identifier },
        ),
{
    lemma_identifier_end_run(w, 0, w.len() as int);
}

/// Law (sentinel requirement, operator case): when the scan reaches the last
/// byte of the input, and that byte admits the `Operator` state but matches
/// no one-character table entry, the result is `UnterminatedState` rather
/// than a silently dropped token.
pub proof fn lemma_unterminated_operator(s: Seq<u8>, pos: int, line: nat)
    requires
        0 <= pos,
        pos == s.len() - 1,
        spec_is_operator(s[pos]),
        spec_single_op(byte_char(s[pos])) is None,
    ensures
        spec_lex_at(s, pos, line) == Err::<Seq<SpecLexeme>, SpecError>(
            SpecError::UnterminatedState { state: LexerState::Operator },
        ),
{
}

/// Law (maximal munch): wherever the bytes at the scanner's position form a
/// two-character table entry, a successful scan emits that entry as one
/// lexeme covering both bytes — never the one-character entry it extends.
pub proof fn lemma_maximal_munch(s: Seq<u8>, pos: int, line: nat)
    requires
        0 <= pos,
        pos + 1 < s.len(),
        spec_double_op(byte_char(s[pos]), byte_char(s[pos + 1])) is Some,
    ensures
        spec_double_op(byte_char(s[pos]), byte_char(s[pos + 1])) matches Some(t) ==> (
        spec_lex_at(s, pos, line) matches Ok(ms) ==> ms.len() >= 1 && ms[0] == SpecLexeme {
            line,
            token: t,
            value: s.subrange(pos, pos + 2),
        }),
{
}

/// The numeric scan is local: it reads only the bytes it consumes and the
/// one byte that terminates it. A literal's bytes placed elsewhere, in front
/// of a space, therefore scan the same way, at any position and on any line.
proof fn lemma_scan_number_shift(
    s1: Seq<u8>,
    start1: int,
    pos1: int,
    line1: nat,
    s2: Seq<u8>,
    start2: int,
    pos2: int,
    line2: nat,
    st: LexerState,
    end1: int,
    fin: LexerState,
)
    requires
        0 <= start1 <= pos1 <= end1,
        start1 < end1,
        spec_scan_number(s1, start1, pos1, line1, st) == Ok::<(int, LexerState), SpecError>(
            (end1, fin),
        ),
        end1 < s1.len(),
        0 <= start2 <= pos2,
        pos1 - start1 == pos2 - start2,
        pos2 + (end1 - pos1) < s2.len(),
        forall|j: int| pos1 <= j < end1 ==> s2[pos2 + (j - pos1)] == s1[j],
        s2[pos2 + (end1 - pos1)] == SPACE,
    ensures
        spec_scan_number(s2, start2, pos2, line2, st) == Ok::<(int, LexerState), SpecError>(
            (pos2 + (end1 - pos1), fin),
        ),
    decreases end1 - pos1,
{
    if pos1 == end1 {
        // the terminating byte closes the scan on both sides: the space is
        // neither a sign, a digit, a dot nor an exponent marker, and the
        // accumulator is not empty. Were the byte at `end1` consumed, the
        // scan would have ended past it.
        lemma_scan_number_bounds(s1, start1, end1 + 1, line1, LexerState::WholeNumber);
        lemma_scan_number_bounds(s1, start1, end1 + 1, line1, LexerState::Decimal);
        lemma_scan_number_bounds(s1, start1, end1 + 1, line1, LexerState::Exponential);
        if end1 + 1 < s1.len() {
            lemma_scan_number_bounds(s1, start1, end1 + 2, line1, LexerState::Exponential);
        }
    } else {
        let c = s1[pos1];
        assert(s2[pos2] == c);
        match st {
            LexerState::WholeNumber => {
                if c == PLUS_SIGN || c == MINUS_SIGN {
                    lemma_scan_number_shift(
                        s1, start1, pos1 + 1, line1,
                        s2, start2, pos2 + 1, line2,
                        LexerState::WholeNumber, end1, fin,
                    );
                } else if spec_is_number(c) {
                    lemma_scan_number_shift(
                        s1, start1, pos1 + 1, line1,
                        s2, start2, pos2 + 1, line2,
                        LexerState::WholeNumber, end1, fin,
                    );
                } else if c == DOT {
                    lemma_scan_number_shift(
                        s1, start1, pos1 + 1, line1,
                        s2, start2, pos2 + 1, line2,
                        LexerState::Decimal, end1, fin,
                    );
                } else if c == LOWER_E || c == UPPER_E {
                    if pos1 + 1 < s1.len() && (s1[pos1 + 1] == PLUS_SIGN || s1[pos1 + 1]
                        == MINUS_SIGN) {
                        // the sign lies inside the literal, for were it the
                        // terminator the scan would have consumed past it
                        lemma_scan_number_bounds(
                            s1, start1, pos1 + 2, line1, LexerState::Exponential,
                        );
                        assert(pos1 + 1 < end1);
                        lemma_scan_number_shift(
                            s1, start1, pos1 + 2, line1,
                            s2, start2, pos2 + 2, line2,
                            LexerState::Exponential, end1, fin,
                        );
                    } else {
                        lemma_scan_number_shift(
                            s1, start1, pos1 + 1, line1,
                            s2, start2, pos2 + 1, line2,
                            LexerState::Exponential, end1, fin,
                        );
                    }
                }
            }
            LexerState::Decimal => {
                if spec_is_number(c) {
                    lemma_scan_number_shift(
                        s1, start1, pos1 + 1, line1,
                        s2, start2, pos2 + 1, line2,
                        LexerState::Decimal, end1, fin,
                    );
                } else if c == LOWER_E || c == UPPER_E {
                    if pos1 + 1 < s1.len() && (s1[pos1 + 1] == PLUS_SIGN || s1[pos1 + 1]
                        == MINUS_SIGN) {
                        lemma_scan_number_bounds(
                            s1, start1, pos1 + 2, line1, LexerState::Exponential,
                        );
                        assert(pos1 + 1 < end1);
                        lemma_scan_number_shift(
                            s1, start1, pos1 + 2, line1,
                            s2, start2, pos2 + 2, line2,
                            LexerState::Exponential, end1, fin,
                        );
                    } else {
                        lemma_scan_number_shift(
                            s1, start1, pos1 + 1, line1,
                            s2, start2, pos2 + 1, line2,
                            LexerState::Exponential, end1, fin,
                        );
                    }
                }
            }
            _ => {
                if spec_is_number(c) {
                    lemma_scan_number_shift(
                        s1, start1, pos1 + 1, line1,
                        s2, start2, pos2 + 1, line2,
                        LexerState::Exponential, end1, fin,
                    );
                }
            }
        }
    }
}

/// Token kinds whose text is free-form rather than a table entry.
pub open spec fn is_text_token(t: Token) -> bool {
    t is Identifier || t is IntegerLiteral || t is FloatLiteral || t is CharLiteral
}

/// The scan of a numeric lexeme's value taken on its own, closed by one
/// space.
pub open spec fn standalone_number_scan(v: Seq<u8>) -> Result<(int, LexerState), SpecError> {
    spec_scan_number(v + seq![SPACE], 0, 0, 1, LexerState::WholeNumber)
}

/// What a successful scan guarantees of each lexeme it emits: enough to
/// scan the value again, in front of a space, and recover the same token.
pub open spec fn wf_lexeme(m: SpecLexeme) -> bool {
    if m.token is Identifier {
        &&& m.value.len() > 0
        &&& spec_is_start_of_identifier(m.value[0])
        &&& forall|j: int| 0 <= j < m.value.len() ==> spec_is_valid_in_identifier(m.value[j])
    } else if m.token is IntegerLiteral || m.token is FloatLiteral {
        &&& m.value.len() >= 2
        &&& !spec_is_letter(m.value[0])
        &&& spec_is_number(m.value[1])
        &&& (standalone_number_scan(m.value) matches Ok((end, fin)) && end == m.value.len()
            && spec_number_token(fin) == m.token)
    } else {
        &&& !is_text_token(m.token)
        &&& (m.value.len() == 1 || m.value.len() == 2)
        &&& spec_is_operator(m.value[0])
        &&& (m.value.len() == 2 ==> !spec_is_number(m.value[1]))
        &&& spec_str_to_operator(chars_of(m.value)) == Some(m.token)
    }
}

/// A numeric scan entered because a digit follows the opening byte consumes
/// at least the opening byte and that digit.
proof fn lemma_scan_number_consumes_two(
    s: Seq<u8>,
    start: int,
    line: nat,
    end: int,
    fin: LexerState,
)
    requires
        0 <= start,
        start + 1 < s.len(),
        spec_is_number(s[start + 1]),
        !spec_is_letter(s[start]),
        spec_scan_number(s, start, start, line, LexerState::WholeNumber) == Ok::<
            (int, LexerState),
            SpecError,
        >((end, fin)),
    ensures
        end >= start + 2,
{
    let c = s[start];
    assert(c == PLUS_SIGN || c == MINUS_SIGN || spec_is_number(c) || c == DOT);
    if c == DOT {
        assert(spec_scan_number(s, start, start + 1, line, LexerState::Decimal)
            == spec_scan_number(s, start, start + 2, line, LexerState::Decimal));
        lemma_scan_number_bounds(s, start, start + 2, line, LexerState::Decimal);
    } else {
        assert(spec_scan_number(s, start, start + 1, line, LexerState::WholeNumber)
            == spec_scan_number(s, start, start + 2, line, LexerState::WholeNumber));
        lemma_scan_number_bounds(s, start, start + 2, line, LexerState::WholeNumber);
    }
}

/// Every lexeme a successful scan emits is well-formed in the sense of
/// `wf_lexeme`.
pub proof fn lemma_lexemes_wf(s: Seq<u8>, pos: int, line: nat)
    ensures
        spec_lex_at(s, pos, line) matches Ok(ms) ==> forall|i: int|
            0 <= i < ms.len() ==> wf_lexeme(#[trigger] ms[i]),
    decreases s.len() - pos,
{
    if 0 <= pos < s.len() {
        let c = s[pos];
        if c == NEWLINE {
            lemma_lexemes_wf(s, pos + 1, (line + 1) as nat);
        } else if spec_is_whitespace(c) {
            lemma_lexemes_wf(s, pos + 1, line);
        } else if spec_is_start_of_identifier(c) {
            lemma_identifier_end_bounds(s, pos);
            lemma_identifier_run_valid(s, pos);
            let end = spec_identifier_end(s, pos);
            if end < s.len() {
                lemma_lexemes_wf(s, end, line);
                let m = SpecLexeme { line, token: Token::Identifier, value: s.subrange(pos, end) };
                assert(wf_lexeme(m));
                lemma_wf_prepend(m, spec_lex_at(s, end, line));
            }
        } else if c == NUL {
        } else if pos + 1 < s.len() && spec_is_number(s[pos + 1]) {
            lemma_scan_number_bounds(s, pos, pos, line, LexerState::WholeNumber);
            if let Ok((end, st)) = spec_scan_number(s, pos, pos, line, LexerState::WholeNumber) {
                lemma_lexemes_wf(s, end, line);
                let v = s.subrange(pos, end);
                lemma_scan_number_consumes_two(s, pos, line, end, st);
                assert(forall|j: int| pos <= j < end ==> (v + seq![SPACE])[j - pos] == s[j]);
                assert((v + seq![SPACE])[end - pos] == SPACE);
                lemma_scan_number_shift(
                    s, pos, pos, line,
                    v + seq![SPACE], 0, 0, 1,
                    LexerState::WholeNumber, end, st,
                );
                let m = SpecLexeme { line, token: spec_number_token(st), value: v };
                assert(wf_lexeme(m));
                lemma_wf_prepend(m, spec_lex_at(s, end, line));
            }
        } else if spec_is_operator(c) {
            let two = spec_double_op(byte_char(c), byte_char(s[pos + 1]));
            if pos + 1 < s.len() && two is Some {
                lemma_lexemes_wf(s, pos + 2, line);
                let m = SpecLexeme { line, token: two->Some_0, value: s.subrange(pos, pos + 2) };
                assert(chars_of(m.value) =~= seq![byte_char(c), byte_char(s[pos + 1])]);
                assert(wf_lexeme(m));
                lemma_wf_prepend(m, spec_lex_at(s, pos + 2, line));
            } else if spec_single_op(byte_char(c)) is Some {
                lemma_lexemes_wf(s, pos + 1, line);
                let m = SpecLexeme {
                    line,
                    token: spec_single_op(byte_char(c))->Some_0,
                    value: s.subrange(pos, pos + 1),
                };
                assert(chars_of(m.value) =~= seq![byte_char(c)]);
                assert(wf_lexeme(m));
                lemma_wf_prepend(m, spec_lex_at(s, pos + 1, line));
            }
        }
    }
}

/// Helper: well-formedness of all lexemes carries over prepending one
/// well-formed lexeme.
proof fn lemma_wf_prepend(m: SpecLexeme, r: Result<Seq<SpecLexeme>, SpecError>)
    requires
        wf_lexeme(m),
        r matches Ok(rest) ==> forall|i: int|
            0 <= i < rest.len() ==> wf_lexeme(#[trigger] rest[i]),
    ensures
        r matches Ok(rest) ==> forall|i: int|
            0 <= i < (seq![m] + rest).len() ==> wf_lexeme(#[trigger] (seq![m] + rest)[i]),
{
    if let Ok(rest) = r {
        let ms = seq![m] + rest;
        assert forall|i: int| 0 <= i < ms.len() implies wf_lexeme(#[trigger] ms[i]) by {
            if i == 0 {
                assert(ms[0] == m);
            } else {
                assert(ms[i] == rest[i - 1]);
            }
        }
    }
}

/// The source rebuilt from a scan's values: each value, one space after
/// each, and the sentinel terminator last.
pub open spec fn join_values(ms: Seq<SpecLexeme>) -> Seq<u8>
    decreases ms.len(),
{
    if ms.len() == 0 {
        seq![NUL]
    } else {
        ms[0].value + seq![SPACE] + join_values(ms.drop_first())
    }
}

/// Scanning a stretch of bytes that spells the rebuilt source of
/// well-formed lexemes emits the same kinds and the same values, in order,
/// all on the scanner's current line.
proof fn lemma_rescan(ms: Seq<SpecLexeme>, s2: Seq<u8>, p2: int, line2: nat)
    requires
        0 <= p2 <= s2.len(),
        s2.len() - p2 == join_values(ms).len(),
        forall|j: int|
            0 <= j < join_values(ms).len() ==> (#[trigger] s2[p2 + j]) == join_values(ms)[j],
        forall|i: int| 0 <= i < ms.len() ==> wf_lexeme(#[trigger] ms[i]),
    ensures
        spec_lex_at(s2, p2, line2) matches Ok(ms2) && ms2.len() == ms.len() && forall|i: int|
            0 <= i < ms.len() ==> (#[trigger] ms2[i]).token == ms[i].token && ms2[i].value
                == ms[i].value && ms2[i].line == line2,
    decreases ms.len(),
{
    let jv = join_values(ms);
    if ms.len() == 0 {
        assert(jv =~= seq![NUL]);
        assert(s2[p2 + 0] == jv[0]);
        assert(s2[p2] == NUL);
    } else {
        let m = ms[0];
        let v = m.value;
        let rest = ms.drop_first();
        let jr = join_values(rest);
        assert(jv == v + seq![SPACE] + jr);
        assert(jv.len() == v.len() + 1 + jr.len());
        assert forall|j: int| 0 <= j < v.len() implies (#[trigger] s2[p2 + j]) == v[j] by {
            assert(s2[p2 + j] == jv[j]);
            assert(jv[j] == v[j]);
        }
        let e = p2 + v.len() as int;
        assert(s2[p2 + v.len()] == jv[v.len() as int]);
        assert(s2[e] == SPACE);
        let q = e + 1;
        assert forall|j: int| 0 <= j < jr.len() implies (#[trigger] s2[q + j]) == jr[j] by {
            assert(s2[p2 + (v.len() + 1 + j)] == jv[v.len() + 1 + j]);
            assert(jv[v.len() + 1 + j] == jr[j]);
        }
        assert(wf_lexeme(m));
        assert(forall|i: int| 0 <= i < rest.len() ==> wf_lexeme(#[trigger] rest[i]));
        lemma_rescan(rest, s2, q, line2);

        let hm = SpecLexeme { line: line2, token: m.token, value: v };
        // the space after the head lexeme is skipped
        assert(spec_lex_at(s2, e, line2) == spec_lex_at(s2, q, line2));
        // the head lexeme is recovered, whatever its kind
        assert forall|i: int| 0 <= i < v.len() implies s2.subrange(p2, e)[i] == v[i] by {
            assert(s2.subrange(p2, e)[i] == s2[p2 + i]);
            assert(s2[p2 + i] == v[i]);
        }
        assert(s2.subrange(p2, e) =~= v);
        assert(s2[p2 + 0] == v[0]);
        if m.token is Identifier {
            assert forall|j: int| p2 <= j < e implies spec_is_valid_in_identifier(s2[j]) by {
                assert(s2[p2 + (j - p2)] == v[j - p2]);
            }
            lemma_identifier_end_run(s2, p2, e);
            assert(spec_lex_at(s2, p2, line2) == spec_prepend(
                seq![hm],
                spec_lex_at(s2, e, line2),
            ));
        } else if m.token is IntegerLiteral || m.token is FloatLiteral {
            if let Ok((endv, fin)) = standalone_number_scan(v) {
                assert(v[0] == PLUS_SIGN || v[0] == MINUS_SIGN || spec_is_number(v[0]) || v[0]
                    == DOT);
                assert(forall|j: int| 0 <= j < endv ==> s2[p2 + j] == (v + seq![SPACE])[j]);
                lemma_scan_number_shift(
                    v + seq![SPACE], 0, 0, 1,
                    s2, p2, p2, line2,
                    LexerState::WholeNumber, endv, fin,
                );
                assert(s2[p2 + 1] == v[1]);
                assert(spec_lex_at(s2, p2, line2) == spec_prepend(
                    seq![hm],
                    spec_lex_at(s2, e, line2),
                ));
            }
        } else {
            if v.len() == 2 {
                assert(s2[p2 + 1] == v[1]);
                assert(chars_of(v) =~= seq![byte_char(v[0]), byte_char(v[1])]);
                assert(spec_double_op(byte_char(s2[p2]), byte_char(s2[p2 + 1])) == Some(m.token));
            } else {
                assert(s2[p2 + 1] == SPACE);
                assert(chars_of(v) =~= seq![byte_char(v[0])]);
                assert(spec_single_op(byte_char(s2[p2])) == Some(m.token));
                assert(spec_double_op(byte_char(s2[p2]), byte_char(s2[p2 + 1])) is None);
            }
            assert(spec_lex_at(s2, p2, line2) == spec_prepend(
                seq![hm],
                spec_lex_at(s2, e, line2),
            ));
        }
        if let Ok(ms2) = spec_lex_at(s2, p2, line2) {
            if let Ok(ms2r) = spec_lex_at(s2, q, line2) {
                assert(ms2 == seq![hm] + ms2r);
                assert forall|i: int| 0 <= i < ms.len() implies (#[trigger] ms2[i]).token
                    == ms[i].token && ms2[i].value == ms[i].value && ms2[i].line == line2 by {
                    if i == 0 {
                        assert(ms2[0] == hm);
                    } else {
                        assert(ms2[i] == ms2r[i - 1]);
                        assert(ms[i] == rest[i - 1]);
                    }
                }
            }
        }
    }
}

/// Law (round trip): rebuild the source of a successful scan by writing
/// each emitted value in order, one space after each (whitespace and
/// newlines collapse to single spaces), and close it with the sentinel.
/// Scanning that text again succeeds and yields the same token kinds with
/// the same values, in the same order.
pub proof fn lemma_round_trip(s: Seq<u8>)
    ensures
        spec_lex(s) matches Ok(ms) ==> (spec_lex(join_values(ms)) matches Ok(ms2) && ms2.len()
            == ms.len() && forall|i: int|
            0 <= i < ms.len() ==> (#[trigger] ms2[i]).token == ms[i].token && ms2[i].value
                == ms[i].value),
{
    lemma_lexemes_wf(s, 0, 1);
    if let Ok(ms) = spec_lex(s) {
        lemma_rescan(ms, join_values(ms), 0, 1);
    }
}

} // verus!
