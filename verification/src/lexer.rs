use vstd::prelude::*;

use crate::error::Error;
use crate::item::{AngleUnit, Constant, Function, Trigonometric};
use crate::span::{Span, Spanned};
use crate::token::{Numeric, Operator, Token};

verus! {

// --- Byte classes ---------------------------------------------------------
// The input is read byte by byte. Multi-byte characters only ever appear
// inside identifiers, where every byte outside the ASCII range continues
// the name, so byte positions are exactly the spans the caller sees.

/// ASCII whitespace, including vertical tab and form feed.
pub open spec fn is_space(b: u8) -> bool {
    b == 0x20 || (0x09 <= b && b <= 0x0d)
}

pub open spec fn is_digit(b: u8) -> bool {
    0x30 <= b && b <= 0x39
}

pub open spec fn is_hex_digit(b: u8) -> bool {
    is_digit(b) || (0x61 <= b && b <= 0x66) || (0x41 <= b && b <= 0x46)
}

/// ASCII punctuation: `!..&/`, `:..@`, `[..`` ` ``, `{..~`.
pub open spec fn is_punctuation(b: u8) -> bool {
    (0x21 <= b && b <= 0x2f) || (0x3a <= b && b <= 0x40) || (0x5b <= b && b <= 0x60) || (0x7b
        <= b && b <= 0x7e)
}

/// A byte that continues an identifier: the variable prefix itself, or
/// anything that is neither whitespace nor ASCII punctuation.
pub open spec fn is_identifier_byte(b: u8) -> bool {
    b == 0x24 || (!is_space(b) && !is_punctuation(b))
}

fn space(b: u8) -> (r: bool)
    ensures
        r == is_space(b),
{
    b == 0x20 || (0x09 <= b && b <= 0x0d)
}

fn digit(b: u8) -> (r: bool)
    ensures
        r == is_digit(b),
{
    0x30 <= b && b <= 0x39
}

fn hex_digit(b: u8) -> (r: bool)
    ensures
        r == is_hex_digit(b),
{
    digit(b) || (0x61 <= b && b <= 0x66) || (0x41 <= b && b <= 0x46)
}

fn punctuation(b: u8) -> (r: bool)
    ensures
        r == is_punctuation(b),
{
    (0x21 <= b && b <= 0x2f) || (0x3a <= b && b <= 0x40) || (0x5b <= b && b <= 0x60) || (0x7b
        <= b && b <= 0x7e)
}

/// Whether a byte continues a numeric capture, given whether a lowercase
/// exponent marker has been seen.
fn number_byte(b: u8, exponent: bool) -> (r: bool)
    ensures
        r == (b == 0x2eu8 || b == 0x65u8 || (b == 0x2du8 && exponent) || is_hex_digit(b)),
{
    b == 0x2e || b == 0x65 || (b == 0x2d && exponent) || hex_digit(b)
}

fn identifier_byte(b: u8) -> (r: bool)
    ensures
        r == is_identifier_byte(b),
{
    b == 0x24 || (!space(b) && !punctuation(b))
}

// --- Extents --------------------------------------------------------------
// Each run of bytes a token is made of has a spec-level right end.

/// First position at or after `pos` that does not hold whitespace.
pub open spec fn skip_end(text: Seq<u8>, pos: int) -> int
    decreases text.len() - pos,
{
    if pos < 0 || pos >= text.len() {
        text.len() as int
    } else if is_space(text[pos]) {
        skip_end(text, pos + 1)
    } else {
        pos
    }
}

/// First position at or after `pos` that does not hold a grouping-marker
/// byte (semicolon).
pub open spec fn run_end(text: Seq<u8>, pos: int) -> int
    decreases text.len() - pos,
{
    if pos < 0 || pos >= text.len() {
        text.len() as int
    } else if text[pos] == 0x3bu8 {
        run_end(text, pos + 1)
    } else {
        pos
    }
}

/// First position at or after `pos` that does not continue an identifier.
pub open spec fn identifier_end(text: Seq<u8>, pos: int) -> int
    decreases text.len() - pos,
{
    if pos < 0 || pos >= text.len() {
        text.len() as int
    } else if is_identifier_byte(text[pos]) {
        identifier_end(text, pos + 1)
    } else {
        pos
    }
}

/// First position at or after `pos` where a numeric literal stops. A dot
/// always continues the capture, a lowercase exponent marker enables a
/// following minus sign, and any hexadecimal digit continues; whether the
/// captured bytes form a number is judged afterwards.
pub open spec fn number_end(text: Seq<u8>, pos: int, exponent: bool) -> int
    decreases text.len() - pos,
{
    if pos < 0 || pos >= text.len() {
        text.len() as int
    } else if text[pos] == 0x2eu8 {
        number_end(text, pos + 1, exponent)
    } else if text[pos] == 0x65u8 {
        number_end(text, pos + 1, true)
    } else if text[pos] == 0x2du8 && exponent {
        number_end(text, pos + 1, exponent)
    } else if is_hex_digit(text[pos]) {
        number_end(text, pos + 1, exponent)
    } else {
        pos
    }
}

/// First position at or after `i` that does not hold a decimal digit.
pub open spec fn digits_end(s: Seq<u8>, i: int) -> int
    decreases s.len() - i,
{
    if i < 0 || i >= s.len() {
        s.len() as int
    } else if is_digit(s[i]) {
        digits_end(s, i + 1)
    } else {
        i
    }
}

// --- The decimal literal grammar ------------------------------------------
// digits, an optional dot with optional further digits, and an optional
// exponent part: a marker (either case), an optional minus sign, digits.
// This is the grammar a binary64 parser accepts over the bytes the capture
// can produce, so a captured literal outside it is an invalid terminal.

pub open spec fn exponent_ok(s: Seq<u8>, i: int) -> bool {
    i < s.len() && (s[i] == 0x65u8 || s[i] == 0x45u8) && {
        let k = if i + 1 < s.len() && s[i + 1] == 0x2du8 {
            i + 2
        } else {
            i + 1
        };
        k < s.len() && digits_end(s, k) == s.len()
    }
}

pub open spec fn after_fraction_ok(s: Seq<u8>, j: int) -> bool {
    j == s.len() || exponent_ok(s, j)
}

pub open spec fn after_integer_ok(s: Seq<u8>, i: int) -> bool {
    i == s.len() || (i < s.len() && s[i] == 0x2eu8 && after_fraction_ok(s, digits_end(s, i + 1)))
        || exponent_ok(s, i)
}

pub open spec fn decimal_ok(s: Seq<u8>) -> bool {
    digits_end(s, 0) > 0 && after_integer_ok(s, digits_end(s, 0))
}

// --- Radix literals -------------------------------------------------------
// A literal with a hexadecimal, octal or binary prefix is parsed as a
// signed 64-bit integer: an optional sign, then at least one digit of the
// radix, rejecting overflow. This mirrors how the standard library reads
// an integer from text in a given radix.

/// Value of one digit byte, or an out-of-range marker for anything that is
/// no digit in any radix used here.
pub open spec fn digit_value(b: u8) -> int {
    if is_digit(b) {
        b - 0x30
    } else if 0x61 <= b && b <= 0x66 {
        b - 0x61 + 10
    } else if 0x41 <= b && b <= 0x46 {
        b - 0x41 + 10
    } else {
        99
    }
}

pub open spec fn positive_digits(s: Seq<u8>, radix: int, i: int, acc: i64) -> Option<i64>
    decreases s.len() - i,
{
    if i < 0 || i >= s.len() {
        Some(acc)
    } else if digit_value(s[i]) >= radix {
        None
    } else if acc * radix + digit_value(s[i]) > i64::MAX {
        None
    } else {
        positive_digits(s, radix, i + 1, (acc * radix + digit_value(s[i])) as i64)
    }
}

pub open spec fn negative_digits(s: Seq<u8>, radix: int, i: int, acc: i64) -> Option<i64>
    decreases s.len() - i,
{
    if i < 0 || i >= s.len() {
        Some(acc)
    } else if digit_value(s[i]) >= radix {
        None
    } else if acc * radix - digit_value(s[i]) < i64::MIN {
        None
    } else {
        negative_digits(s, radix, i + 1, (acc * radix - digit_value(s[i])) as i64)
    }
}

/// The signed 64-bit integer a radix literal denotes, if it denotes one.
pub open spec fn radix_value(s: Seq<u8>, radix: int) -> Option<i64> {
    if s.len() == 0 {
        None
    } else {
        let start: int = if s[0] == 0x2du8 || s[0] == 0x2bu8 {
            1
        } else {
            0
        };
        if start == s.len() {
            None
        } else if s[0] == 0x2du8 {
            negative_digits(s, radix, start, 0)
        } else {
            positive_digits(s, radix, start, 0)
        }
    }
}

// --- Keywords --------------------------------------------------------------

/// The fixed table of function and constant names. Trigonometric names map
/// to the radian flavour; a prime suffix right after the name selects
/// degrees.
pub open spec fn keyword_token(s: Seq<u8>) -> Option<Token> {
    if s =~= seq![0x73u8, 0x69u8, 0x6eu8] {  // sin
        Some(Token::Function(Function::Trigonometric(Trigonometric::Sine, AngleUnit::Radians)))
    } else if s =~= seq![0x63u8, 0x6fu8, 0x73u8] {  // cos
        Some(Token::Function(Function::Trigonometric(Trigonometric::Cosine, AngleUnit::Radians)))
    } else if s =~= seq![0x74u8, 0x61u8, 0x6eu8] {  // tan
        Some(Token::Function(Function::Trigonometric(Trigonometric::Tangent, AngleUnit::Radians)))
    } else if s =~= seq![0x61u8, 0x73u8, 0x69u8, 0x6eu8] {  // asin
        Some(
            Token::Function(
                Function::Trigonometric(Trigonometric::InverseSine, AngleUnit::Radians),
            ),
        )
    } else if s =~= seq![0x61u8, 0x63u8, 0x6fu8, 0x73u8] {  // acos
        Some(
            Token::Function(
                Function::Trigonometric(Trigonometric::InverseCosine, AngleUnit::Radians),
            ),
        )
    } else if s =~= seq![0x61u8, 0x74u8, 0x61u8, 0x6eu8] {  // atan
        Some(
            Token::Function(
                Function::Trigonometric(Trigonometric::InverseTangent, AngleUnit::Radians),
            ),
        )
    } else if s =~= seq![0x61u8, 0x62u8, 0x73u8] {  // abs
        Some(Token::Function(Function::AbsoluteValue))
    } else if s =~= seq![0x73u8, 0x71u8, 0x72u8, 0x74u8] {  // sqrt
        Some(Token::Function(Function::SquareRoot))
    } else if s =~= seq![0x63u8, 0x62u8, 0x72u8, 0x74u8] {  // cbrt
        Some(Token::Function(Function::CubeRoot))
    } else if s =~= seq![0x6cu8, 0x6eu8] {  // ln
        Some(Token::Function(Function::NaturalLogarithm))
    } else if s =~= seq![0x6cu8, 0x6fu8, 0x67u8, 0x32u8] {  // log2
        Some(Token::Function(Function::BinaryLogarithm))
    } else if s =~= seq![0x6cu8, 0x6fu8, 0x67u8, 0x31u8, 0x30u8] {  // log10
        Some(Token::Function(Function::DecimalLogarithm))
    } else if s =~= seq![0x65u8] {  // e
        Some(Token::Constant(Constant::E))
    } else if s =~= seq![0x70u8, 0x69u8] {  // pi
        Some(Token::Constant(Constant::Pi))
    } else {
        None
    }
}

// --- What token stands at a position ---------------------------------------

/// Exact description of the token produced for a numeric literal starting
/// at `start`, and of the position `end` the reader stops at.
pub open spec fn number_token_at(
    text: Seq<u8>,
    start: int,
    tr: Result<Spanned<Token>, Spanned<Error>>,
    end: int,
) -> bool {
    let prefixed = text[start] == 0x30u8 && start + 1 < text.len() && (text[start + 1] == 0x78u8
        || text[start + 1] == 0x6fu8 || text[start + 1] == 0x62u8);
    if prefixed {
        let radix: int = if text[start + 1] == 0x78u8 {
            16
        } else if text[start + 1] == 0x6fu8 {
            8
        } else {
            2
        };
        let nstart: int = if start + 2 < text.len() {
            start + 2
        } else {
            text.len() as int
        };
        let scan: int = if start + 2 < text.len() {
            start + 3
        } else {
            text.len() as int
        };
        &&& end == number_end(text, scan, false)
        &&& match radix_value(text.subrange(nstart, number_end(text, scan, false)), radix) {
            Some(v) => tr == Ok::<Spanned<Token>, Spanned<Error>>(
                Spanned {
                    node: Token::Terminal(Numeric::Integer(v)),
                    span: Span(start as usize, end as usize),
                },
            ),
            None => tr == Err::<Spanned<Token>, Spanned<Error>>(
                Spanned { node: Error::InvalidTerminal, span: Span(start as usize, end as usize) },
            ),
        }
    } else {
        &&& end == number_end(text, start + 1, false)
        &&& if decimal_ok(text.subrange(start, number_end(text, start + 1, false))) {
            tr == Ok::<Spanned<Token>, Spanned<Error>>(
                Spanned {
                    node: Token::Terminal(Numeric::Decimal),
                    span: Span(start as usize, end as usize),
                },
            )
        } else {
            tr == Err::<Spanned<Token>, Spanned<Error>>(
                Spanned { node: Error::InvalidTerminal, span: Span(start as usize, end as usize) },
            )
        }
    }
}

/// Exact description of the token produced for a word (keyword or unknown
/// item) starting at `start`.
pub open spec fn word_token_at(
    text: Seq<u8>,
    start: int,
    tr: Result<Spanned<Token>, Spanned<Error>>,
    end: int,
) -> bool {
    let iend = identifier_end(text, start + 1);
    match keyword_token(text.subrange(start, iend)) {
        None => {
            &&& end == iend
            &&& tr == Err::<Spanned<Token>, Spanned<Error>>(
                Spanned { node: Error::InvalidItem, span: Span(start as usize, iend as usize) },
            )
        },
        Some(token) => {
            if (token matches Token::Function(Function::Trigonometric(_, _))) && iend < text.len()
                && text[iend] == 0x27u8 {
                &&& end == iend + 1
                &&& (token matches Token::Function(Function::Trigonometric(t, _)) ==> tr == Ok::<
                    Spanned<Token>,
                    Spanned<Error>,
                >(
                    Spanned {
                        node: Token::Function(Function::Trigonometric(t, AngleUnit::Degrees)),
                        span: Span(start as usize, end as usize),
                    },
                ))
            } else {
                &&& end == iend
                &&& tr == Ok::<Spanned<Token>, Spanned<Error>>(
                    Spanned { node: token, span: Span(start as usize, iend as usize) },
                )
            }
        },
    }
}

/// Exact description of the next token: what is produced when the byte at
/// `start` (the first byte after any whitespace) begins a token, and where
/// the reader stops.
pub open spec fn token_result_at(
    text: Seq<u8>,
    start: int,
    tr: Result<Spanned<Token>, Spanned<Error>>,
    end: int,
) -> bool {
    let b = text[start];
    if is_digit(b) {
        number_token_at(text, start, tr, end)
    } else if b == 0x3bu8 {
        &&& end == run_end(text, start + 1)
        &&& (tr matches Ok(t) && t.span == Span(start as usize, end as usize) && (t.node
            matches Token::Coalesce(count) && count == end - start))
    } else if b == 0x24u8 {
        &&& end == identifier_end(text, start + 1)
        &&& (tr matches Ok(t) && t.span == Span(start as usize, end as usize) && (t.node
            matches Token::Variable(name) && name@ == text.subrange(start + 1, end)))
    } else if !is_punctuation(b) {
        word_token_at(text, start, tr, end)
    } else {
        &&& end == start + 1
        &&& match b {
            0x28u8 => tr == Ok::<Spanned<Token>, Spanned<Error>>(
                Spanned { node: Token::ParenthesisOpen, span: Span(start as usize, end as usize) },
            ),
            0x29u8 => tr == Ok::<Spanned<Token>, Spanned<Error>>(
                Spanned { node: Token::ParenthesisClose, span: Span(start as usize, end as usize) },
            ),
            0x2bu8 => tr == Ok::<Spanned<Token>, Spanned<Error>>(
                Spanned {
                    node: Token::Operator(Operator::Add),
                    span: Span(start as usize, end as usize),
                },
            ),
            0x2du8 => tr == Ok::<Spanned<Token>, Spanned<Error>>(
                Spanned {
                    node: Token::Operator(Operator::Minus),
                    span: Span(start as usize, end as usize),
                },
            ),
            0x2au8 => tr == Ok::<Spanned<Token>, Spanned<Error>>(
                Spanned {
                    node: Token::Operator(Operator::Multiply),
                    span: Span(start as usize, end as usize),
                },
            ),
            0x2fu8 => tr == Ok::<Spanned<Token>, Spanned<Error>>(
                Spanned {
                    node: Token::Operator(Operator::Divide),
                    span: Span(start as usize, end as usize),
                },
            ),
            0x25u8 => tr == Ok::<Spanned<Token>, Spanned<Error>>(
                Spanned {
                    node: Token::Operator(Operator::Modulo),
                    span: Span(start as usize, end as usize),
                },
            ),
            0x5eu8 => tr == Ok::<Spanned<Token>, Spanned<Error>>(
                Spanned {
                    node: Token::Operator(Operator::Power),
                    span: Span(start as usize, end as usize),
                },
            ),
            _ => tr == Err::<Spanned<Token>, Spanned<Error>>(
                Spanned {
                    node: Error::InvalidCharacter(b as char),
                    span: Span(start as usize, end as usize),
                },
            ),
        }
    }
}

// --- The reader -------------------------------------------------------------

/// Reads one token at a time from a byte slice, tracking the position of
/// the next unread byte. Restarting from scratch means making a new reader
/// over the same bytes.
pub struct Lexer<'a> {
    text: &'a [u8],
    position: usize,
}

impl<'a> Lexer<'a> {
    pub closed spec fn text_view(self) -> Seq<u8> {
        self.text@
    }

    pub closed spec fn pos(self) -> int {
        self.position as int
    }

    pub open spec fn wf(self) -> bool {
        self.pos() <= self.text_view().len()
    }

    pub fn new(text: &'a [u8]) -> (lexer: Lexer<'a>)
        ensures
            lexer.text_view() == text@,
            lexer.pos() == 0,
            lexer.wf(),
    {
        Lexer { text, position: 0 }
    }

    fn skip_whitespace(&mut self)
        requires
            old(self).wf(),
        ensures
            final(self).wf(),
            final(self).text_view() == old(self).text_view(),
            old(self).pos() <= final(self).pos(),
            final(self).pos() == skip_end(final(self).text_view(), old(self).pos()),
    {
        while self.position < self.text.len() && space(self.text[self.position])
            invariant
                self.wf(),
                self.text_view() == old(self).text_view(),
                old(self).pos() <= self.pos(),
                skip_end(self.text_view(), old(self).pos()) == skip_end(
                    self.text_view(),
                    self.pos(),
                ),
            decreases self.text.len() - self.position,
        {
            self.position += 1;
        }
    }

    fn number(&mut self) -> (end: usize)
        requires
            old(self).wf(),
        ensures
            final(self).wf(),
            final(self).text_view() == old(self).text_view(),
            end == final(self).pos(),
            final(self).pos() == number_end(final(self).text_view(), old(self).pos(), false),
            old(self).pos() <= final(self).pos(),
    {
        let mut exponent_divider = false;
        while self.position < self.text.len() && number_byte(
            self.text[self.position],
            exponent_divider,
        )
            invariant
                self.wf(),
                self.text_view() == old(self).text_view(),
                old(self).pos() <= self.pos(),
                number_end(self.text_view(), old(self).pos(), false) == number_end(
                    self.text_view(),
                    self.pos(),
                    exponent_divider,
                ),
            decreases self.text.len() - self.position,
        {
            if self.text[self.position] == 0x65 {
                exponent_divider = true;
            }
            self.position += 1;
        }
        self.position
    }

    fn take_coalesce(&mut self) -> (result: (usize, usize))
        requires
            old(self).wf(),
            1 <= old(self).pos(),
        ensures
            final(self).wf(),
            final(self).text_view() == old(self).text_view(),
            old(self).pos() <= final(self).pos(),
            final(self).pos() == run_end(final(self).text_view(), old(self).pos()),
            result.0 == final(self).pos(),
            result.1 == final(self).pos() - old(self).pos() + 1,
    {
        let mut counter: usize = 1;
        while self.position < self.text.len() && self.text[self.position] == 0x3b
            invariant
                self.wf(),
                self.text_view() == old(self).text_view(),
                old(self).pos() <= self.pos(),
                1 <= old(self).pos(),
                counter == self.pos() - old(self).pos() + 1,
                run_end(self.text_view(), old(self).pos()) == run_end(
                    self.text_view(),
                    self.pos(),
                ),
            decreases self.text.len() - self.position,
        {
            self.position += 1;
            counter += 1;
        }
        (self.position, counter)
    }

    fn take_identifier(&mut self) -> (end: usize)
        requires
            old(self).wf(),
        ensures
            final(self).wf(),
            final(self).text_view() == old(self).text_view(),
            end == final(self).pos(),
            final(self).pos() == identifier_end(final(self).text_view(), old(self).pos()),
            old(self).pos() <= final(self).pos(),
    {
        while self.position < self.text.len() && identifier_byte(self.text[self.position])
            invariant
                self.wf(),
                self.text_view() == old(self).text_view(),
                old(self).pos() <= self.pos(),
                identifier_end(self.text_view(), old(self).pos()) == identifier_end(
                    self.text_view(),
                    self.pos(),
                ),
            decreases self.text.len() - self.position,
        {
            self.position += 1;
        }
        self.position
    }

    fn parse_number(&mut self, character: u8, byte_start: usize) -> (tr: Result<
        Spanned<Token>,
        Spanned<Error>,
    >)
        requires
            old(self).wf(),
            old(self).pos() == byte_start + 1,
            byte_start < old(self).text_view().len(),
            old(self).text_view()[byte_start as int] == character,
            is_digit(character),
        ensures
            final(self).wf(),
            final(self).text_view() == old(self).text_view(),
            byte_start < final(self).pos(),
            number_token_at(final(self).text_view(), byte_start as int, tr, final(self).pos()),
    {
        let prefix: u8 = if character == 0x30 && self.position < self.text.len() {
            self.text[self.position]
        } else {
            0
        };
        let radix: u64 = match prefix {
            0x78 => 16,
            0x6f => 8,
            0x62 => 2,
            _ => 10,
        };

        let number_start: usize = if radix == 10 {
            byte_start
        } else {
            self.position += 1;
            if self.position < self.text.len() {
                let start = self.position;
                self.position += 1;
                start
            } else {
                self.text.len()
            }
        };

        let byte_end = self.number();
        let slice = &self.text[number_start..byte_end];
        let span = Span(byte_start, byte_end);

        if radix == 10 {
            if check_decimal(slice) {
                Ok(Spanned::new(Token::Terminal(Numeric::Decimal), span))
            } else {
                Err(Spanned::new(Error::InvalidTerminal, span))
            }
        } else {
            match parse_radix(slice, radix as i64) {
                Some(value) => Ok(Spanned::new(Token::Terminal(Numeric::Integer(value)), span)),
                None => Err(Spanned::new(Error::InvalidTerminal, span)),
            }
        }
    }

    /// Produces the next token, or an error with the bytes that caused it,
    /// or nothing once only whitespace is left.
    pub fn next(&mut self) -> (token: Option<Result<Spanned<Token>, Spanned<Error>>>)
        requires
            old(self).wf(),
        ensures
            final(self).wf(),
            final(self).text_view() == old(self).text_view(),
            old(self).pos() <= final(self).pos(),
            match token {
                None => final(self).pos() == final(self).text_view().len() && skip_end(
                    final(self).text_view(),
                    old(self).pos(),
                ) == final(self).text_view().len(),
                Some(tr) => {
                    let start = skip_end(final(self).text_view(), old(self).pos());
                    &&& start < final(self).text_view().len()
                    &&& old(self).pos() <= start < final(self).pos()
                    &&& token_result_at(final(self).text_view(), start, tr, final(self).pos())
                },
            },
    {
        self.skip_whitespace();
        if self.position >= self.text.len() {
            return None;
        }
        let byte_start = self.position;
        let character = self.text[self.position];
        self.position += 1;

        if digit(character) {
            return Some(self.parse_number(character, byte_start));
        } else if character == 0x3b {
            let (byte_end, counter) = self.take_coalesce();
            return Some(Ok(Spanned::new(Token::Coalesce(counter), Span(byte_start, byte_end))));
        } else if character == 0x24 {
            let byte_end = self.take_identifier();
            let name = vstd::slice::slice_to_vec(&self.text[byte_start + 1..byte_end]);
            return Some(Ok(Spanned::new(Token::Variable(name), Span(byte_start, byte_end))));
        }

        if !punctuation(character) {
            let byte_end = self.take_identifier();
            let word = &self.text[byte_start..byte_end];
            let span = Span(byte_start, byte_end);
            let token = match keyword(word) {
                None => {
                    return Some(Err(Spanned::new(Error::InvalidItem, span)));
                },
                Some(token) => token,
            };
            if let Token::Function(Function::Trigonometric(t, _)) = token {
                if self.position < self.text.len() && self.text[self.position] == 0x27 {
                    self.position += 1;
                    let primed = Token::Function(
                        Function::Trigonometric(t, AngleUnit::Degrees),
                    );
                    return Some(
                        Ok(Spanned::new(primed, Span(byte_start, self.position))),
                    );
                }
            }
            return Some(Ok(Spanned::new(token, span)));
        }

        let span = Span(byte_start, byte_start + 1);
        let token = match character {
            0x28 => Token::ParenthesisOpen,
            0x29 => Token::ParenthesisClose,
            0x2b => Token::Operator(Operator::Add),
            0x2d => Token::Operator(Operator::Minus),
            0x2a => Token::Operator(Operator::Multiply),
            0x2f => Token::Operator(Operator::Divide),
            0x25 => Token::Operator(Operator::Modulo),
            0x5e => Token::Operator(Operator::Power),
            _ => {
                return Some(
                    Err(Spanned::new(Error::InvalidCharacter(character as char), span)),
                );
            },
        };
        Some(Ok(Spanned::new(token, span)))
    }
}

// --- Checking a captured decimal literal -----------------------------------

fn digits_to(s: &[u8], from: usize) -> (end: usize)
    requires
        from <= s@.len(),
    ensures
        end == digits_end(s@, from as int),
        from <= end <= s@.len(),
{
    let mut i = from;
    while i < s.len() && digit(s[i])
        invariant
            from <= i <= s@.len(),
            digits_end(s@, from as int) == digits_end(s@, i as int),
        decreases s.len() - i,
    {
        i += 1;
    }
    i
}

fn exponent_check(s: &[u8], i: usize) -> (r: bool)
    requires
        i <= s@.len(),
    ensures
        r == exponent_ok(s@, i as int),
{
    if i < s.len() && (s[i] == 0x65 || s[i] == 0x45) {
        let k = if i + 1 < s.len() && s[i + 1] == 0x2d {
            i + 2
        } else {
            i + 1
        };
        k < s.len() && digits_to(s, k) == s.len()
    } else {
        false
    }
}

fn check_decimal(s: &[u8]) -> (r: bool)
    ensures
        r == decimal_ok(s@),
{
    let i = digits_to(s, 0);
    if i == 0 {
        return false;
    }
    if i == s.len() {
        return true;
    }
    if s[i] == 0x2e {
        let j = digits_to(s, i + 1);
        if j == s.len() {
            true
        } else {
            exponent_check(s, j)
        }
    } else {
        exponent_check(s, i)
    }
}

// --- Parsing a captured radix literal ---------------------------------------

fn digit_of(b: u8) -> (d: i64)
    ensures
        d == digit_value(b),
{
    if 0x30 <= b && b <= 0x39 {
        (b - 0x30) as i64
    } else if 0x61 <= b && b <= 0x66 {
        (b - 0x61) as i64 + 10
    } else if 0x41 <= b && b <= 0x46 {
        (b - 0x41) as i64 + 10
    } else {
        99
    }
}

fn parse_radix(s: &[u8], radix: i64) -> (r: Option<i64>)
    requires
        2 <= radix <= 16,
    ensures
        r == radix_value(s@, radix as int),
{
    if s.len() == 0 {
        return None;
    }
    let negative = s[0] == 0x2d;
    let start: usize = if s[0] == 0x2d || s[0] == 0x2b {
        1
    } else {
        0
    };
    if start == s.len() {
        return None;
    }
    let mut acc: i64 = 0;
    let mut i = start;
    while i < s.len()
        invariant
            2 <= radix <= 16,
            start <= i <= s@.len(),
            s@.len() > 0,
            negative == (s@[0] == 0x2du8),
            negative ==> acc <= 0,
            !negative ==> acc >= 0,
            radix_value(s@, radix as int) == if negative {
                negative_digits(s@, radix as int, i as int, acc)
            } else {
                positive_digits(s@, radix as int, i as int, acc)
            },
        decreases s.len() - i,
    {
        let d = digit_of(s[i]);
        if d >= radix {
            return None;
        }
        if negative {
            proof {
                assert(acc * radix <= 0) by (nonlinear_arith)
                    requires
                        acc <= 0,
                        radix >= 2,
                ;
            }
            acc = match acc.checked_mul(radix) {
                Some(product) => match product.checked_sub(d) {
                    Some(difference) => difference,
                    None => {
                        return None;
                    },
                },
                None => {
                    proof {
                        lemma_negative_multiply_overflow(s@, radix as int, i as int, acc, d as int);
                    }
                    return None;
                },
            };
        } else {
            proof {
                assert(acc * radix >= 0) by (nonlinear_arith)
                    requires
                        acc >= 0,
                        radix >= 2,
                ;
            }
            acc = match acc.checked_mul(radix) {
                Some(product) => match product.checked_add(d) {
                    Some(sum) => sum,
                    None => {
                        return None;
                    },
                },
                None => {
                    proof {
                        lemma_positive_multiply_overflow(s@, radix as int, i as int, acc, d as int);
                    }
                    return None;
                },
            };
        }
        i += 1;
    }
    Some(acc)
}

proof fn lemma_positive_multiply_overflow(s: Seq<u8>, radix: int, i: int, acc: i64, d: int)
    requires
        2 <= radix <= 16,
        0 <= i < s.len(),
        acc * radix > i64::MAX || acc * radix < i64::MIN,
        0 <= d < radix,
        d == digit_value(s[i]),
        acc >= 0,
    ensures
        positive_digits(s, radix, i, acc) == None::<i64>,
{
    assert(acc * radix >= 0) by (nonlinear_arith)
        requires
            acc >= 0,
            radix >= 2,
    ;
    assert(acc * radix + digit_value(s[i]) > i64::MAX);
}

proof fn lemma_negative_multiply_overflow(s: Seq<u8>, radix: int, i: int, acc: i64, d: int)
    requires
        2 <= radix <= 16,
        0 <= i < s.len(),
        acc * radix > i64::MAX || acc * radix < i64::MIN,
        0 <= d < radix,
        d == digit_value(s[i]),
        acc <= 0,
    ensures
        negative_digits(s, radix, i, acc) == None::<i64>,
{
    assert(acc * radix <= 0) by (nonlinear_arith)
        requires
            acc <= 0,
            radix >= 2,
    ;
    assert(acc * radix - digit_value(s[i]) < i64::MIN);
}

// --- Keyword lookup ----------------------------------------------------------

fn keyword(s: &[u8]) -> (r: Option<Token>)
    ensures
        r == keyword_token(s@),
{
    let r = if s.len() == 1 {
        match s[0] {
            0x65 => Some(Token::Constant(Constant::E)),
            _ => None,
        }
    } else if s.len() == 2 {
        match (s[0], s[1]) {
            (0x6c, 0x6e) => Some(Token::Function(Function::NaturalLogarithm)),
            (0x70, 0x69) => Some(Token::Constant(Constant::Pi)),
            _ => None,
        }
    } else if s.len() == 3 {
        match (s[0], s[1], s[2]) {
            (0x73, 0x69, 0x6e) => Some(
                Token::Function(Function::Trigonometric(Trigonometric::Sine, AngleUnit::Radians)),
            ),
            (0x63, 0x6f, 0x73) => Some(
                Token::Function(
                    Function::Trigonometric(Trigonometric::Cosine, AngleUnit::Radians),
                ),
            ),
            (0x74, 0x61, 0x6e) => Some(
                Token::Function(
                    Function::Trigonometric(Trigonometric::Tangent, AngleUnit::Radians),
                ),
            ),
            (0x61, 0x62, 0x73) => Some(Token::Function(Function::AbsoluteValue)),
            _ => None,
        }
    } else if s.len() == 4 {
        match (s[0], s[1], s[2], s[3]) {
            (0x61, 0x73, 0x69, 0x6e) => Some(
                Token::Function(
                    Function::Trigonometric(Trigonometric::InverseSine, AngleUnit::Radians),
                ),
            ),
            (0x61, 0x63, 0x6f, 0x73) => Some(
                Token::Function(
                    Function::Trigonometric(Trigonometric::InverseCosine, AngleUnit::Radians),
                ),
            ),
            (0x61, 0x74, 0x61, 0x6e) => Some(
                Token::Function(
                    Function::Trigonometric(Trigonometric::InverseTangent, AngleUnit::Radians),
                ),
            ),
            (0x73, 0x71, 0x72, 0x74) => Some(Token::Function(Function::SquareRoot)),
            (0x63, 0x62, 0x72, 0x74) => Some(Token::Function(Function::CubeRoot)),
            (0x6c, 0x6f, 0x67, 0x32) => Some(Token::Function(Function::BinaryLogarithm)),
            _ => None,
        }
    } else if s.len() == 5 {
        match (s[0], s[1], s[2], s[3], s[4]) {
            (0x6c, 0x6f, 0x67, 0x31, 0x30) => Some(Token::Function(Function::DecimalLogarithm)),
            _ => None,
        }
    } else {
        None
    };
    r
}

} // verus!
