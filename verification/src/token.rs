//! The tokenizer: one token per call from a byte buffer and a position.
//!
//! Whitespace, commas and colons separate tokens and carry no meaning, so a
//! missing or doubled separator is accepted. Strings and the digit runs of
//! numbers are reported as spans of the buffer; nothing is copied or decoded.

use vstd::prelude::*;

verus! {

pub const SPACE: u8 = 0x20;
pub const TAB: u8 = 0x09;
pub const LINE_FEED: u8 = 0x0a;
pub const CARRIAGE_RETURN: u8 = 0x0d;
pub const COMMA: u8 = 0x2c;
pub const COLON: u8 = 0x3a;
pub const QUOTE: u8 = 0x22;
pub const BACKSLASH: u8 = 0x5c;
pub const OPEN_BRACE: u8 = 0x7b;
pub const CLOSE_BRACE: u8 = 0x7d;
pub const OPEN_BRACKET: u8 = 0x5b;
pub const CLOSE_BRACKET: u8 = 0x5d;
pub const PLUS: u8 = 0x2b;
pub const MINUS: u8 = 0x2d;
pub const DOT: u8 = 0x2e;
pub const DIGIT_ZERO: u8 = 0x30;
pub const DIGIT_NINE: u8 = 0x39;
pub const UPPER_E: u8 = 0x45;
pub const LOWER_A: u8 = 0x61;
pub const LOWER_E: u8 = 0x65;
pub const LOWER_F: u8 = 0x66;
pub const LOWER_L: u8 = 0x6c;
pub const LOWER_N: u8 = 0x6e;
pub const LOWER_R: u8 = 0x72;
pub const LOWER_S: u8 = 0x73;
pub const LOWER_T: u8 = 0x74;
pub const LOWER_U: u8 = 0x75;

/// A run of bytes of the input buffer: where it starts and how many bytes it holds.
#[derive(Clone, Copy, Debug, PartialEq, Eq, Structural)]
pub struct ByteSpan {
    pub offset: usize,
    pub len: usize,
}

impl ByteSpan {
    /// The span that covers `[from, to)`.
    pub open spec fn between(from: int, to: int) -> ByteSpan {
        ByteSpan { offset: from as usize, len: (to - from) as usize }
    }

    /// The span lies inside a buffer of `n` bytes.
    pub open spec fn within(self, n: nat) -> bool {
        self.offset + self.len <= n
    }

    /// The bytes of `bytes` that the span covers.
    pub open spec fn of(self, bytes: Seq<u8>) -> Seq<u8> {
        bytes.subrange(self.offset as int, self.offset + self.len)
    }
}

/// A number as the tokenizer found it: its sign and the three runs of digits
/// (integer part, fraction, exponent), each a span of the buffer. A part that
/// the text does not have is an empty span.
#[derive(Clone, Copy, Debug, PartialEq, Eq, Structural)]
pub struct JsonNumber {
    pub negative: bool,
    pub integer: ByteSpan,
    pub fraction: ByteSpan,
    pub exponent_negative: bool,
    pub exponent: ByteSpan,
}

/// One token: a bracket, or a value that is a token by itself.
#[derive(Clone, Copy, Debug, PartialEq, Eq, Structural)]
pub enum JsonToken {
    ObjectStart,
    ObjectTerminate,
    ArrayStart,
    ArrayTerminate,
    String(ByteSpan),
    Number(JsonNumber),
    Boolean(bool),
    Null,
}

/// Why a buffer was rejected.
#[derive(Clone, Copy, Debug, PartialEq, Eq, Structural)]
pub enum JsonError {
    /// The buffer ended where a token had to follow.
    UnexpectedEnd,
    /// A string was opened and the buffer ended before its closing quote.
    UnterminatedString,
    /// A token began with `t` and is not `true`.
    InvalidTrue,
    /// A token began with `f` and is not `false`.
    InvalidFalse,
    /// A token began with `n` and is not `null`.
    InvalidNull,
    /// A byte that starts no token.
    InvalidToken,
    /// The first token opens neither an object nor an array.
    RootNotCollection,
    /// Inside an object, something other than a key or the closing brace.
    ExpectedKey,
    /// A key was followed by a closing brace.
    ValueMissingAtObjectEnd,
    /// A key was followed by a closing bracket.
    ValueMissingAtArrayEnd,
    /// Inside an array, a closing brace.
    ObjectEndInArray,
}

impl JsonError {
    /// The message of an error, as a sequence of characters.
    pub open spec fn text(self) -> Seq<char> {
        match self {
            JsonError::UnexpectedEnd => "ERROR: Unexpectedly reached end of json file."@,
            JsonError::UnterminatedString => "ERROR: Json ended before the end of a string."@,
            JsonError::InvalidTrue => "ERROR: Invalid token starting with 't'"@,
            JsonError::InvalidFalse => "ERROR: Invalid token starting with 'f'"@,
            JsonError::InvalidNull => "ERROR: Invalid token starting with 'n'"@,
            JsonError::InvalidToken => "ERROR: Parsing invalid token."@,
            JsonError::RootNotCollection => "ERROR: Json must have an object or array as the root."@,
            JsonError::ExpectedKey => "ERROR: Expected a string for a key in a json object."@,
            JsonError::ValueMissingAtObjectEnd => "ERROR: Expected object member value but found end of object."@,
            JsonError::ValueMissingAtArrayEnd => "ERROR: Expected object member value but found end of array."@,
            JsonError::ObjectEndInArray => "ERROR: Expected array element but found end of an object."@,
        }
    }

    /// The message of an error.
    pub fn message(&self) -> (r: &'static str)
        ensures
            r@ == self.text(),
    {
        match self {
            JsonError::UnexpectedEnd => "ERROR: Unexpectedly reached end of json file.",
            JsonError::UnterminatedString => "ERROR: Json ended before the end of a string.",
            JsonError::InvalidTrue => "ERROR: Invalid token starting with 't'",
            JsonError::InvalidFalse => "ERROR: Invalid token starting with 'f'",
            JsonError::InvalidNull => "ERROR: Invalid token starting with 'n'",
            JsonError::InvalidToken => "ERROR: Parsing invalid token.",
            JsonError::RootNotCollection => "ERROR: Json must have an object or array as the root.",
            JsonError::ExpectedKey => "ERROR: Expected a string for a key in a json object.",
            JsonError::ValueMissingAtObjectEnd => "ERROR: Expected object member value but found end of object.",
            JsonError::ValueMissingAtArrayEnd => "ERROR: Expected object member value but found end of array.",
            JsonError::ObjectEndInArray => "ERROR: Expected array element but found end of an object.",
        }
    }
}

/// What scanning one token gives: the token or the error, and the position
/// at which scanning stopped.
pub struct Scan {
    pub result: Result<JsonToken, JsonError>,
    pub next: int,
}

pub open spec fn is_separator(b: u8) -> bool {
    b == SPACE || b == TAB || b == LINE_FEED || b == CARRIAGE_RETURN || b == COMMA || b == COLON
}

pub open spec fn is_digit(b: u8) -> bool {
    DIGIT_ZERO <= b <= DIGIT_NINE
}

pub open spec fn is_sign(b: u8) -> bool {
    b == MINUS || b == PLUS
}

/// The first position at or after `pos` that holds no separator.
pub open spec fn skip_separators(bytes: Seq<u8>, pos: int) -> int
    decreases bytes.len() - pos,
{
    if 0 <= pos < bytes.len() && is_separator(bytes[pos]) {
        skip_separators(bytes, pos + 1)
    } else {
        pos
    }
}

/// The first position at or after `pos` that holds no digit.
pub open spec fn digits_end(bytes: Seq<u8>, pos: int) -> int
    decreases bytes.len() - pos,
{
    if 0 <= pos < bytes.len() && is_digit(bytes[pos]) {
        digits_end(bytes, pos + 1)
    } else {
        pos
    }
}

/// The position of the quote that closes a string whose content starts at
/// `pos`, or `bytes.len()` where none does. A backslash hides the byte
/// after it, whatever that byte is.
pub open spec fn closing_quote(bytes: Seq<u8>, pos: int) -> int
    decreases bytes.len() + 1 - pos,
{
    if pos < 0 || pos >= bytes.len() {
        bytes.len() as int
    } else if bytes[pos] == BACKSLASH {
        closing_quote(bytes, pos + 2)
    } else if bytes[pos] == QUOTE {
        pos
    } else {
        closing_quote(bytes, pos + 1)
    }
}

pub open spec fn rest_of_true() -> Seq<u8> {
    seq![LOWER_R, LOWER_U, LOWER_E]
}

pub open spec fn rest_of_false() -> Seq<u8> {
    seq![LOWER_A, LOWER_L, LOWER_S, LOWER_E]
}

pub open spec fn rest_of_null() -> Seq<u8> {
    seq![LOWER_U, LOWER_L, LOWER_L]
}

/// The bytes from `at` on begin with `word`.
pub open spec fn word_at(bytes: Seq<u8>, at: int, word: Seq<u8>) -> bool {
    at + word.len() <= bytes.len() && bytes.subrange(at, at + word.len()) == word
}

/// The number that starts at `at`, where `bytes[at]` is a digit or a sign.
///
/// A sign must be followed by a digit. After the integer digits a `.` opens
/// the fraction, which may have no digit. After that an `e` or `E` opens the
/// exponent: one more byte must exist, a sign there is taken, and the digits
/// that follow, if any, are the exponent.
pub open spec fn scan_number(bytes: Seq<u8>, at: int) -> Scan {
    let int_start = if is_sign(bytes[at]) { at + 1 } else { at };
    if int_start >= bytes.len() {
        Scan { result: Err(JsonError::UnexpectedEnd), next: bytes.len() as int }
    } else if !is_digit(bytes[int_start]) {
        Scan { result: Err(JsonError::InvalidToken), next: int_start }
    } else {
        let int_end = digits_end(bytes, int_start);
        let frac_start = if int_end < bytes.len() && bytes[int_end] == DOT {
            int_end + 1
        } else {
            int_end
        };
        let frac_end = digits_end(bytes, frac_start);
        let has_exponent = frac_end < bytes.len() && (bytes[frac_end] == LOWER_E
            || bytes[frac_end] == UPPER_E);
        if !has_exponent {
            Scan {
                result: Ok(
                    JsonToken::Number(
                        JsonNumber {
                            negative: bytes[at] == MINUS,
                            integer: ByteSpan::between(int_start, int_end),
                            fraction: ByteSpan::between(frac_start, frac_end),
                            exponent_negative: false,
                            exponent: ByteSpan::between(frac_end, frac_end),
                        },
                    ),
                ),
                next: frac_end,
            }
        } else if frac_end + 1 >= bytes.len() {
            Scan { result: Err(JsonError::UnexpectedEnd), next: bytes.len() as int }
        } else {
            let exp_start = if is_sign(bytes[frac_end + 1]) { frac_end + 2 } else { frac_end + 1 };
            let exp_end = digits_end(bytes, exp_start);
            Scan {
                result: Ok(
                    JsonToken::Number(
                        JsonNumber {
                            negative: bytes[at] == MINUS,
                            integer: ByteSpan::between(int_start, int_end),
                            fraction: ByteSpan::between(frac_start, frac_end),
                            exponent_negative: bytes[frac_end + 1] == MINUS,
                            exponent: ByteSpan::between(exp_start, exp_end),
                        },
                    ),
                ),
                next: exp_end,
            }
        }
    }
}

/// The token that starts at the first significant byte at or after `pos`.
pub open spec fn scan_token(bytes: Seq<u8>, pos: int) -> Scan {
    let at = skip_separators(bytes, pos);
    if at < 0 || at >= bytes.len() {
        Scan { result: Err(JsonError::UnexpectedEnd), next: at }
    } else {
        let b = bytes[at];
        if b == OPEN_BRACE {
            Scan { result: Ok(JsonToken::ObjectStart), next: at + 1 }
        } else if b == CLOSE_BRACE {
            Scan { result: Ok(JsonToken::ObjectTerminate), next: at + 1 }
        } else if b == OPEN_BRACKET {
            Scan { result: Ok(JsonToken::ArrayStart), next: at + 1 }
        } else if b == CLOSE_BRACKET {
            Scan { result: Ok(JsonToken::ArrayTerminate), next: at + 1 }
        } else if b == QUOTE {
            let close = closing_quote(bytes, at + 1);
            if close >= bytes.len() {
                Scan { result: Err(JsonError::UnterminatedString), next: bytes.len() as int }
            } else {
                Scan {
                    result: Ok(JsonToken::String(ByteSpan::between(at + 1, close))),
                    next: close + 1,
                }
            }
        } else if is_digit(b) || is_sign(b) {
            scan_number(bytes, at)
        } else if b == LOWER_T {
            if word_at(bytes, at + 1, rest_of_true()) {
                Scan { result: Ok(JsonToken::Boolean(true)), next: at + 4 }
            } else {
                Scan { result: Err(JsonError::InvalidTrue), next: at + 1 }
            }
        } else if b == LOWER_F {
            if word_at(bytes, at + 1, rest_of_false()) {
                Scan { result: Ok(JsonToken::Boolean(false)), next: at + 5 }
            } else {
                Scan { result: Err(JsonError::InvalidFalse), next: at + 1 }
            }
        } else if b == LOWER_N {
            if word_at(bytes, at + 1, rest_of_null()) {
                Scan { result: Ok(JsonToken::Null), next: at + 4 }
            } else {
                Scan { result: Err(JsonError::InvalidNull), next: at + 1 }
            }
        } else {
            Scan { result: Err(JsonError::InvalidToken), next: at + 1 }
        }
    }
}

pub proof fn lemma_skip_separators_bounds(bytes: Seq<u8>, pos: int)
    ensures
        pos <= skip_separators(bytes, pos),
        pos <= bytes.len() ==> skip_separators(bytes, pos) <= bytes.len(),
        pos > bytes.len() ==> skip_separators(bytes, pos) == pos,
    decreases bytes.len() - pos,
{
    if 0 <= pos < bytes.len() && is_separator(bytes[pos]) {
        lemma_skip_separators_bounds(bytes, pos + 1);
    }
}

pub proof fn lemma_digits_end_bounds(bytes: Seq<u8>, pos: int)
    ensures
        pos <= digits_end(bytes, pos),
        pos <= bytes.len() ==> digits_end(bytes, pos) <= bytes.len(),
        forall|i: int| pos <= i < digits_end(bytes, pos) ==> 0 <= i ==> is_digit(#[trigger] bytes[i]),
    decreases bytes.len() - pos,
{
    if 0 <= pos < bytes.len() && is_digit(bytes[pos]) {
        lemma_digits_end_bounds(bytes, pos + 1);
    }
}

pub proof fn lemma_closing_quote_bounds(bytes: Seq<u8>, pos: int)
    ensures
        closing_quote(bytes, pos) <= bytes.len(),
        closing_quote(bytes, pos) < bytes.len() ==> pos <= closing_quote(bytes, pos)
            && bytes[closing_quote(bytes, pos)] == QUOTE,
    decreases bytes.len() + 1 - pos,
{
    if pos < 0 || pos >= bytes.len() {
    } else if bytes[pos] == BACKSLASH {
        lemma_closing_quote_bounds(bytes, pos + 2);
    } else if bytes[pos] == QUOTE {
    } else {
        lemma_closing_quote_bounds(bytes, pos + 1);
    }
}

/// A number that was found ends behind the byte it starts with and inside
/// the buffer; an error leaves the position there too.
proof fn lemma_scan_number_advances(bytes: Seq<u8>, at: int)
    requires
        0 <= at < bytes.len(),
    ensures
        scan_number(bytes, at).result is Ok ==> at < scan_number(bytes, at).next,
        at <= scan_number(bytes, at).next <= bytes.len(),
{
    let int_start = if is_sign(bytes[at]) { at + 1 } else { at };
    if int_start < bytes.len() && is_digit(bytes[int_start]) {
        lemma_digits_end_bounds(bytes, int_start);
        lemma_digits_end_bounds(bytes, int_start + 1);
        let int_end = digits_end(bytes, int_start);
        let frac_start = if int_end < bytes.len() && bytes[int_end] == DOT {
            int_end + 1
        } else {
            int_end
        };
        lemma_digits_end_bounds(bytes, frac_start);
        let frac_end = digits_end(bytes, frac_start);
        if frac_end + 1 < bytes.len() {
            let exp_start = if is_sign(bytes[frac_end + 1]) { frac_end + 2 } else { frac_end + 1 };
            lemma_digits_end_bounds(bytes, exp_start);
        }
    }
}

/// The span of a run of digits holds digits only.
proof fn lemma_digit_run(bytes: Seq<u8>, from: int)
    requires
        0 <= from <= bytes.len() <= usize::MAX,
    ensures
        from <= digits_end(bytes, from) <= bytes.len(),
        all_digits(ByteSpan::between(from, digits_end(bytes, from)).of(bytes)),
{
    lemma_digits_end_bounds(bytes, from);
    let to = digits_end(bytes, from);
    let run = ByteSpan::between(from, to).of(bytes);
    assert forall|i: int| 0 <= i < run.len() implies is_digit(#[trigger] run[i]) by {
        assert(run[i] == bytes[from + i]);
    }
}

/// The digit runs of a number that was found lie in the buffer in their
/// order, and hold digits only.
proof fn lemma_scan_number_spans(bytes: Seq<u8>, at: int)
    requires
        0 <= at < bytes.len() <= usize::MAX,
    ensures
        scan_number(bytes, at).result matches Ok(JsonToken::Number(n)) ==> {
            &&& at <= n.integer.offset
            &&& n.integer.len > 0
            &&& n.integer.offset + n.integer.len <= n.fraction.offset
            &&& n.fraction.offset + n.fraction.len <= n.exponent.offset
            &&& n.exponent.offset + n.exponent.len == scan_number(bytes, at).next
            &&& all_digits(n.integer.of(bytes))
            &&& all_digits(n.fraction.of(bytes))
            &&& all_digits(n.exponent.of(bytes))
        },
{
    let int_start = if is_sign(bytes[at]) { at + 1 } else { at };
    if int_start < bytes.len() && is_digit(bytes[int_start]) {
        lemma_digit_run(bytes, int_start);
        lemma_digits_end_bounds(bytes, int_start + 1);
        let int_end = digits_end(bytes, int_start);
        let frac_start = if int_end < bytes.len() && bytes[int_end] == DOT {
            int_end + 1
        } else {
            int_end
        };
        lemma_digit_run(bytes, frac_start);
        let frac_end = digits_end(bytes, frac_start);
        if frac_end + 1 < bytes.len() {
            let exp_start = if is_sign(bytes[frac_end + 1]) { frac_end + 2 } else { frac_end + 1 };
            lemma_digit_run(bytes, exp_start);
        }
        assert(all_digits(ByteSpan::between(frac_end, frac_end).of(bytes)));
    }
}

/// A token that was found ends behind the position it was asked from and
/// inside the buffer.
pub proof fn lemma_scan_token_advances(bytes: Seq<u8>, pos: int)
    requires
        0 <= pos,
    ensures
        scan_token(bytes, pos).result is Ok ==> pos < scan_token(bytes, pos).next <= bytes.len(),
        pos <= bytes.len() ==> pos <= scan_token(bytes, pos).next <= bytes.len(),
{
    lemma_skip_separators_bounds(bytes, pos);
    let at = skip_separators(bytes, pos);
    if at < bytes.len() {
        let b = bytes[at];
        if b == QUOTE {
            lemma_closing_quote_bounds(bytes, at + 1);
        } else if is_digit(b) || is_sign(b) {
            lemma_scan_number_advances(bytes, at);
        }
    }
}

/// The spans of a token lie inside the buffer, behind the position the token
/// was asked from: a string between its two quotes, the digit runs of a
/// number in their order, each holding digits only.
pub proof fn lemma_scan_token_spans(bytes: Seq<u8>, pos: int)
    requires
        0 <= pos,
        bytes.len() <= usize::MAX,
    ensures
        scan_token(bytes, pos).result matches Ok(JsonToken::String(s)) ==> {
            &&& pos < s.offset
            &&& s.offset + s.len < bytes.len()
            &&& scan_token(bytes, pos).next == s.offset + s.len + 1
            &&& bytes[s.offset - 1] == QUOTE
            &&& bytes[s.offset + s.len] == QUOTE
        },
        scan_token(bytes, pos).result matches Ok(JsonToken::Number(n)) ==> {
            &&& pos <= n.integer.offset
            &&& n.integer.len > 0
            &&& n.integer.offset + n.integer.len <= n.fraction.offset
            &&& n.fraction.offset + n.fraction.len <= n.exponent.offset
            &&& n.exponent.offset + n.exponent.len == scan_token(bytes, pos).next
            &&& scan_token(bytes, pos).next <= bytes.len()
            &&& all_digits(n.integer.of(bytes))
            &&& all_digits(n.fraction.of(bytes))
            &&& all_digits(n.exponent.of(bytes))
        },
{
    lemma_skip_separators_bounds(bytes, pos);
    let at = skip_separators(bytes, pos);
    if at < bytes.len() {
        let b = bytes[at];
        if b == QUOTE {
            lemma_closing_quote_bounds(bytes, at + 1);
        } else if is_digit(b) || is_sign(b) {
            lemma_scan_number_advances(bytes, at);
            lemma_scan_number_spans(bytes, at);
        }
    }
}

/// The number that a run of decimal digits writes; 0 for no digit.
pub open spec fn decimal_value(digits: Seq<u8>) -> nat
    decreases digits.len(),
{
    if digits.len() == 0 {
        0
    } else {
        decimal_value(digits.drop_last()) * 10 + (digits.last() - DIGIT_ZERO) as nat
    }
}

/// The number that the first digits of a run write is at most the number
/// that the whole run writes.
pub proof fn lemma_decimal_value_grows(digits: Seq<u8>, k: int)
    requires
        all_digits(digits),
        0 <= k <= digits.len(),
    ensures
        decimal_value(digits.take(k)) <= decimal_value(digits),
    decreases digits.len(),
{
    if k == digits.len() {
        assert(digits.take(k) =~= digits);
    } else {
        let front = digits.drop_last();
        assert(front.take(k) =~= digits.take(k));
        assert forall|i: int| 0 <= i < front.len() implies is_digit(#[trigger] front[i]) by {
            assert(front[i] == digits[i]);
        }
        lemma_decimal_value_grows(front, k);
    }
}

impl JsonNumber {
    /// The exponent of the number as it stands in `bytes`: the number that
    /// its exponent digits write, with its sign.
    pub open spec fn exponent_in(self, bytes: Seq<u8>) -> int {
        if self.exponent_negative {
            -(decimal_value(self.exponent.of(bytes)) as int)
        } else {
            decimal_value(self.exponent.of(bytes)) as int
        }
    }
}

/// Every byte is a decimal digit.
pub open spec fn all_digits(s: Seq<u8>) -> bool {
    forall|i: int| 0 <= i < s.len() ==> is_digit(#[trigger] s[i])
}

fn digit(b: u8) -> (r: bool)
    ensures
        r == is_digit(b),
{
    DIGIT_ZERO <= b && b <= DIGIT_NINE
}

fn sign(b: u8) -> (r: bool)
    ensures
        r == is_sign(b),
{
    b == MINUS || b == PLUS
}

fn span_between(from: usize, to: usize) -> (r: ByteSpan)
    requires
        from <= to,
    ensures
        r == ByteSpan::between(from as int, to as int),
{
    ByteSpan { offset: from, len: to - from }
}

/// Walks over the digits that start at `pos`.
fn pass_digits(bytes: &[u8], pos: usize) -> (end: usize)
    requires
        pos <= bytes.len(),
    ensures
        end == digits_end(bytes@, pos as int),
        pos <= end <= bytes.len(),
{
    let mut i: usize = pos;
    while i < bytes.len() && digit(bytes[i])
        invariant
            pos <= i <= bytes.len(),
            digits_end(bytes@, pos as int) == digits_end(bytes@, i as int),
        decreases bytes.len() - i,
    {
        i += 1;
    }
    i
}

/// Reads the number whose first byte, a digit or a sign, is at `at`.
fn parse_number(bytes: &[u8], at: usize, parsing_index: &mut usize) -> (r: Result<
    JsonToken,
    JsonError,
>)
    requires
        at < bytes.len(),
    ensures
        r == scan_number(bytes@, at as int).result,
        *final(parsing_index) == scan_number(bytes@, at as int).next,
{
    let first = bytes[at];
    let int_start: usize = if sign(first) { at + 1 } else { at };
    if int_start >= bytes.len() {
        *parsing_index = bytes.len();
        return Err(JsonError::UnexpectedEnd);
    }
    if !digit(bytes[int_start]) {
        *parsing_index = int_start;
        return Err(JsonError::InvalidToken);
    }
    let int_end = pass_digits(bytes, int_start);
    let frac_start: usize = if int_end < bytes.len() && bytes[int_end] == DOT {
        int_end + 1
    } else {
        int_end
    };
    let frac_end = pass_digits(bytes, frac_start);
    let has_exponent = frac_end < bytes.len() && (bytes[frac_end] == LOWER_E || bytes[frac_end]
        == UPPER_E);
    if !has_exponent {
        *parsing_index = frac_end;
        return Ok(
            JsonToken::Number(
                JsonNumber {
                    negative: first == MINUS,
                    integer: span_between(int_start, int_end),
                    fraction: span_between(frac_start, frac_end),
                    exponent_negative: false,
                    exponent: span_between(frac_end, frac_end),
                },
            ),
        );
    }
    if frac_end + 1 >= bytes.len() {
        *parsing_index = bytes.len();
        return Err(JsonError::UnexpectedEnd);
    }
    let mark = bytes[frac_end + 1];
    let exp_start: usize = if sign(mark) { frac_end + 2 } else { frac_end + 1 };
    let exp_end = pass_digits(bytes, exp_start);
    *parsing_index = exp_end;
    Ok(
        JsonToken::Number(
            JsonNumber {
                negative: first == MINUS,
                integer: span_between(int_start, int_end),
                fraction: span_between(frac_start, frac_end),
                exponent_negative: mark == MINUS,
                exponent: span_between(exp_start, exp_end),
            },
        ),
    )
}

/// Finds the quote that closes the string whose content starts at `pos`.
fn find_closing_quote(bytes: &[u8], pos: usize) -> (close: usize)
    requires
        pos <= bytes.len(),
    ensures
        close == closing_quote(bytes@, pos as int),
        close <= bytes.len(),
        close < bytes.len() ==> pos <= close,
{
    let mut i: usize = pos;
    while i < bytes.len()
        invariant
            pos <= i <= bytes.len(),
            closing_quote(bytes@, pos as int) == closing_quote(bytes@, i as int),
        decreases bytes.len() - i,
    {
        let b = bytes[i];
        if b == BACKSLASH {
            if bytes.len() - i < 2 {
                assert(closing_quote(bytes@, i + 2) == bytes.len());
                return bytes.len();
            }
            i += 2;
        } else if b == QUOTE {
            return i;
        } else {
            i += 1;
        }
    }
    i
}

fn three_follow(bytes: &[u8], at: usize, b0: u8, b1: u8, b2: u8) -> (r: bool)
    requires
        at <= bytes.len(),
    ensures
        r == word_at(bytes@, at as int, seq![b0, b1, b2]),
{
    if bytes.len() - at < 3 {
        return false;
    }
    let r = bytes[at] == b0 && bytes[at + 1] == b1 && bytes[at + 2] == b2;
    proof {
        let word = seq![b0, b1, b2];
        let part = bytes@.subrange(at as int, at + 3);
        if r {
            assert(part =~= word);
        } else {
            assert(part[0] == bytes@[at as int]);
            assert(part[1] == bytes@[at + 1]);
            assert(part[2] == bytes@[at + 2]);
        }
    }
    r
}

fn four_follow(bytes: &[u8], at: usize, b0: u8, b1: u8, b2: u8, b3: u8) -> (r: bool)
    requires
        at <= bytes.len(),
    ensures
        r == word_at(bytes@, at as int, seq![b0, b1, b2, b3]),
{
    if bytes.len() - at < 4 {
        return false;
    }
    let r = bytes[at] == b0 && bytes[at + 1] == b1 && bytes[at + 2] == b2 && bytes[at + 3] == b3;
    proof {
        let word = seq![b0, b1, b2, b3];
        let part = bytes@.subrange(at as int, at + 4);
        if r {
            assert(part =~= word);
        } else {
            assert(part[0] == bytes@[at as int]);
            assert(part[1] == bytes@[at + 1]);
            assert(part[2] == bytes@[at + 2]);
            assert(part[3] == bytes@[at + 3]);
        }
    }
    r
}

/// Reads the next token of `json_bytes` from `*parsing_index` on and leaves
/// `*parsing_index` where scanning stopped: behind the token, or, on an
/// error, where `scan_token` says.
pub fn parse_token(json_bytes: &[u8], parsing_index: &mut usize) -> (r: Result<
    JsonToken,
    JsonError,
>)
    ensures
        r == scan_token(json_bytes@, *old(parsing_index) as int).result,
        *final(parsing_index) == scan_token(json_bytes@, *old(parsing_index) as int).next,
{
    let start: usize = *parsing_index;
    let mut at: usize = start;
    while at < json_bytes.len() && separator(json_bytes[at])
        invariant
            start <= at,
            skip_separators(json_bytes@, start as int) == skip_separators(json_bytes@, at as int),
        decreases json_bytes.len() - at,
    {
        at += 1;
    }
    if at >= json_bytes.len() {
        *parsing_index = at;
        return Err(JsonError::UnexpectedEnd);
    }
    let b = json_bytes[at];
    if b == OPEN_BRACE {
        *parsing_index = at + 1;
        Ok(JsonToken::ObjectStart)
    } else if b == CLOSE_BRACE {
        *parsing_index = at + 1;
        Ok(JsonToken::ObjectTerminate)
    } else if b == OPEN_BRACKET {
        *parsing_index = at + 1;
        Ok(JsonToken::ArrayStart)
    } else if b == CLOSE_BRACKET {
        *parsing_index = at + 1;
        Ok(JsonToken::ArrayTerminate)
    } else if b == QUOTE {
        let close = find_closing_quote(json_bytes, at + 1);
        if close >= json_bytes.len() {
            *parsing_index = json_bytes.len();
            Err(JsonError::UnterminatedString)
        } else {
            *parsing_index = close + 1;
            Ok(JsonToken::String(span_between(at + 1, close)))
        }
    } else if digit(b) || sign(b) {
        parse_number(json_bytes, at, parsing_index)
    } else if b == LOWER_T {
        if three_follow(json_bytes, at + 1, LOWER_R, LOWER_U, LOWER_E) {
            *parsing_index = at + 4;
            Ok(JsonToken::Boolean(true))
        } else {
            *parsing_index = at + 1;
            Err(JsonError::InvalidTrue)
        }
    } else if b == LOWER_F {
        if four_follow(json_bytes, at + 1, LOWER_A, LOWER_L, LOWER_S, LOWER_E) {
            *parsing_index = at + 5;
            Ok(JsonToken::Boolean(false))
        } else {
            *parsing_index = at + 1;
            Err(JsonError::InvalidFalse)
        }
    } else if b == LOWER_N {
        if three_follow(json_bytes, at + 1, LOWER_U, LOWER_L, LOWER_L) {
            *parsing_index = at + 4;
            Ok(JsonToken::Null)
        } else {
            *parsing_index = at + 1;
            Err(JsonError::InvalidNull)
        }
    } else {
        *parsing_index = at + 1;
        Err(JsonError::InvalidToken)
    }
}

fn separator(b: u8) -> (r: bool)
    ensures
        r == is_separator(b),
{
    b == SPACE || b == TAB || b == LINE_FEED || b == CARRIAGE_RETURN || b == COMMA || b == COLON
}

} // verus!
