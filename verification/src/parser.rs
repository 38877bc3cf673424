//! Token stream to AST, one top-level expression per call.
//!
//! The parser is incremental: between calls it keeps a stack of open-list
//! frames and a flat vector of pending expressions. Each call consumes
//! tokens until one complete top-level expression is ready, the stream ends,
//! or an error is reported.

use vstd::prelude::*;
use vstd::string::StringExecFns;

use crate::diag::ErrorHandler;
use crate::number::{ParsedNumber, Radix};
use crate::sexpr::{all_items_wf, lemma_all_items_wf, Content, SExpr};
use crate::sourcepos::Span;
use crate::token::{next_code_token, space_run, token_class, token_end, Token, Tokenizer, Type};
use crate::units::Units;
use crate::utf8::{parse_character, string_from_ascii};

verus! {

/// A result from running the parser.
pub enum ParseResult {
    /// Token stream ended without any expressions pending.
    Done,
    /// Token stream ended in the middle of an expression.
    Incomplete,
    /// Did not reach the end of the token stream; a diagnostic was emitted.
    Failed,
    /// Parsed one complete expression.
    Value(SExpr),
}

/// The hexadecimal digits of a value, in upper case, zero padded on the
/// left to at least `width` digits.
pub open spec fn hex_digits_upper(n: int, width: int) -> Seq<u8>
    decreases (if n > 0 {
        n
    } else {
        0
    }) + (if width > 0 {
        width
    } else {
        0
    }),
{
    if n <= 0 && width <= 0 {
        Seq::empty()
    } else {
        hex_digits_upper(n / 16, width - 1) + seq![hex_digit_upper((n % 16) as u8)]
    }
}

/// The byte of one upper-case hexadecimal digit.
pub open spec fn hex_digit_upper(d: u8) -> u8 {
    if d < 10 {
        (48 + d) as u8
    } else {
        (55 + d) as u8
    }
}

/// Append the upper-case hexadecimal rendering of the value, zero padded on
/// the left to at least `width` digits.
fn push_hex_upper(out: &mut Vec<u8>, v: u32, width: u32)
    requires
        width <= 8,
    ensures
        final(out)@ == old(out)@ + hex_digits_upper(v as int, width as int),
    decreases v + width,
{
    if v == 0 && width == 0 {
        proof {
            assert(final(out)@ =~= old(out)@ + hex_digits_upper(0, 0));
        }
        return ;
    }
    proof {
        assert(v / 16 < v || v == 0) by (nonlinear_arith);
    }
    let rest_width = if width == 0 {
        0
    } else {
        width - 1
    };
    push_hex_upper(out, v / 16, rest_width);
    proof {
        if width == 0 {
            lemma_hex_nonpos_width(v as int / 16, 0, -1);
        }
    }
    let d = (v % 16) as u8;
    out.push(
        if d < 10 {
            48 + d
        } else {
            55 + d
        },
    );
    proof {
        assert(final(out)@ =~= old(out)@ + hex_digits_upper(v as int, width as int));
    }
}

/// A non-positive width never pads, so any two non-positive widths agree.
proof fn lemma_hex_nonpos_width(n: int, w1: int, w2: int)
    requires
        n >= 0,
        w1 <= 0,
        w2 <= 0,
    ensures
        hex_digits_upper(n, w1) == hex_digits_upper(n, w2),
    decreases n,
{
    if n > 0 {
        assert(n / 16 < n && n / 16 >= 0) by (nonlinear_arith)
            requires
                n > 0,
        ;
        lemma_hex_nonpos_width(n / 16, w1 - 1, w2 - 1);
    }
}

/// Every byte of a hexadecimal rendering is a digit or an upper-case letter.
pub proof fn lemma_hex_digits_ascii(n: int, width: int)
    requires
        n >= 0,
    ensures
        forall|i: int|
            0 <= i < hex_digits_upper(n, width).len() ==> 48 <= #[trigger] hex_digits_upper(
                n,
                width,
            )[i] <= 70,
    decreases (if n > 0 {
        n
    } else {
        0
    }) + (if width > 0 {
        width
    } else {
        0
    }),
{
    if !(n <= 0 && width <= 0) {
        assert(n / 16 >= 0 && (n > 0 ==> n / 16 < n)) by (nonlinear_arith)
            requires
                n >= 0,
        ;
        lemma_hex_digits_ascii(n / 16, width - 1);
        assert forall|i: int| 0 <= i < hex_digits_upper(n, width).len() implies 48
            <= #[trigger] hex_digits_upper(n, width)[i] <= 70 by {
            let prefix = hex_digits_upper(n / 16, width - 1);
            if i < prefix.len() {
                assert(hex_digits_upper(n, width)[i] == prefix[i]);
            }
        }
    }
}

/// The bytes from index `i` on, written as `0x` and two lower-case
/// hexadecimal digits each, separated with commas.
pub open spec fn byte_list(text: Seq<u8>, i: int) -> Seq<u8>
    decreases text.len() - i,
{
    if i < 0 || i >= text.len() {
        Seq::empty()
    } else {
        (if i > 0 {
            seq![44u8, 32u8]
        } else {
            Seq::<u8>::empty()
        }) + seq![48u8, 120u8] + hex_lower_byte(text[i]) + byte_list(text, i + 1)
    }
}

/// The two lower-case hexadecimal digits of one byte.
pub open spec fn hex_lower_byte(b: u8) -> Seq<u8> {
    seq![hex_digit_lower(b / 16), hex_digit_lower(b % 16)]
}

/// The byte of one lower-case hexadecimal digit.
pub open spec fn hex_digit_lower(d: u8) -> u8 {
    if d < 10 {
        (48 + d) as u8
    } else {
        (87 + d) as u8
    }
}

/// The bytes up to index `i`, exclusive, in the same comma-separated form.
pub open spec fn byte_list_upto(text: Seq<u8>, i: int) -> Seq<u8>
    decreases i,
{
    if i <= 0 {
        Seq::empty()
    } else {
        byte_list_upto(text, i - 1) + (if i > 1 {
            seq![44u8, 32u8]
        } else {
            Seq::<u8>::empty()
        }) + seq![48u8, 120u8] + hex_lower_byte(text[i - 1])
    }
}

/// Gathering the bytes from the left agrees with the right-recursive form.
proof fn lemma_byte_list_parts(text: Seq<u8>, i: int)
    requires
        0 <= i <= text.len(),
    ensures
        byte_list(text, 0) == byte_list_upto(text, i) + byte_list(text, i),
    decreases i,
{
    if i == 0 {
        assert(byte_list_upto(text, 0) + byte_list(text, 0) =~= byte_list(text, 0));
    } else {
        lemma_byte_list_parts(text, i - 1);
        assert(byte_list_upto(text, i - 1) + byte_list(text, i - 1) =~= (byte_list_upto(
            text,
            i - 1,
        ) + (if i - 1 > 0 {
            seq![44u8, 32u8]
        } else {
            Seq::<u8>::empty()
        }) + seq![48u8, 120u8] + hex_lower_byte(text[i - 1])) + byte_list(text, i));
    }
}

/// The message for one error token: a control character by its code point,
/// a printable character quoted, a character beyond ASCII by its code
/// point, or an ill-formed byte sequence listed in hexadecimal.
pub open spec fn error_token_message(text: Seq<u8>) -> Seq<char> {
    match crate::utf8::scan_character(text).0 {
        Some(c) => {
            if c as u32 <= 0x1f || (0x7f <= c as u32 && c as u32 <= 0x9f) {
                "unexpected control character U+"@ + crate::utf8::ascii_chars(
                    hex_digits_upper(c as u32 as int, 4),
                )
            } else if c as u32 <= 0x7f {
                if c == '\'' {
                    "unexpected character <'>"@
                } else {
                    "unexpected character '"@ + seq![c] + "'"@
                }
            } else {
                "unexpected Unicode character U+"@ + crate::utf8::ascii_chars(
                    hex_digits_upper(c as u32 as int, 4),
                )
            }
        },
        None => "invalid UTF-8 text (byte sequence "@ + crate::utf8::ascii_chars(
            byte_list(text, 0),
        ) + ")"@,
    }
}

/// Render a code point as upper-case hexadecimal, at least four digits.
fn codepoint_hex(v: u32) -> (r: String)
    ensures
        r@ == crate::utf8::ascii_chars(hex_digits_upper(v as int, 4)),
{
    let mut out: Vec<u8> = Vec::new();
    push_hex_upper(&mut out, v, 4);
    proof {
        lemma_hex_digits_ascii(v as int, 4);
    }
    string_from_ascii(out)
}

/// Report an error token: decode the offending bytes and emit exactly one
/// diagnostic at the token's span with the message that describes them.
pub fn handle_error_token<E: ErrorHandler>(err_handler: &mut E, pos: Span, text: &[u8])
    ensures
        final(err_handler).diags() == old(err_handler).diags().push(
            (pos, error_token_message(text@)),
        ),
{
    let (first, _) = parse_character(text);
    let msg: String = match first {
        Some(c) => {
            let cp = c as u32;
            if cp <= 0x1f || (0x7f <= cp && cp <= 0x9f) {
                let mut m = String::from_str("unexpected control character U+");
                let hex = codepoint_hex(cp);
                m.append(hex.as_str());
                m
            } else if cp <= 0x7f {
                if cp == 39 {
                    String::from_str("unexpected character <'>")
                } else {
                    let mut m = String::from_str("unexpected character '");
                    let mut chunk: Vec<u8> = Vec::new();
                    chunk.push(cp as u8);
                    let chunk_str = string_from_ascii(chunk);
                    m.append(chunk_str.as_str());
                    m.append("'");
                    proof {
                        assert(chunk_str@ =~= seq![c]) by {
                            vstd::utf8::char_u32_cast(c, cp);
                        }
                        assert(m@ =~= "unexpected character '"@ + seq![c] + "'"@);
                    }
                    m
                }
            } else {
                let mut m = String::from_str("unexpected Unicode character U+");
                let hex = codepoint_hex(cp);
                m.append(hex.as_str());
                m
            }
        },
        None => {
            let mut m = String::from_str("invalid UTF-8 text (byte sequence ");
            let mut out: Vec<u8> = Vec::new();
            let mut i: usize = 0;
            #[verifier::loop_isolation(false)]
            while i < text.len()
                invariant
                    0 <= i <= text@.len(),
                    out@ == byte_list_upto(text@, i as int),
                    forall|k: int| 0 <= k < out@.len() ==> #[trigger] out@[k] <= 0x7f,
                decreases text@.len() - i,
            {
                if i > 0 {
                    out.push(44);
                    out.push(32);
                }
                out.push(48);
                out.push(120);
                let b = text[i];
                let hi = b / 16;
                let lo = b % 16;
                out.push(
                    if hi < 10 {
                        48 + hi
                    } else {
                        87 + hi
                    },
                );
                out.push(
                    if lo < 10 {
                        48 + lo
                    } else {
                        87 + lo
                    },
                );
                proof {
                    assert(out@ =~= byte_list_upto(text@, i + 1));
                }
                i = i + 1;
            }
            proof {
                lemma_byte_list_parts(text@, text@.len() as int);
                assert(byte_list_upto(text@, text@.len() as int) + byte_list(
                    text@,
                    text@.len() as int,
                ) =~= byte_list_upto(text@, text@.len() as int));
            }
            let listed = string_from_ascii(out);
            m.append(listed.as_str());
            m.append(")");
            m
        },
    };
    err_handler.handle(pos, msg.as_str());
}

/// The character a quoted byte shows as: itself within ASCII, a question
/// mark outside it.
pub open spec fn quoted_char(c: u8) -> char {
    if c <= 0x7f {
        c as char
    } else {
        '?'
    }
}

/// The message of a number parse error: its kind, the base, and the
/// offending character where there is one.
pub open spec fn number_error_text(e: crate::number::ParseError) -> Seq<char> {
    match e {
        crate::number::ParseError::InvalidDigit(radix, c) => "invalid digit for base "@
            + crate::utf8::ascii_chars(crate::number::dec_digits_of(radix.spec_value() as int))
            + ": '"@ + seq![quoted_char(c)] + "'"@,
        crate::number::ParseError::ExtraPoint => "unexpected extra '.'"@,
        crate::number::ParseError::UnexpectedPoint(radix) => "non-integers not supported in base "@
            + crate::utf8::ascii_chars(crate::number::dec_digits_of(radix.spec_value() as int)),
        crate::number::ParseError::UnexpectedChar(c) => "unexpected character '"@ + seq![
            quoted_char(c),
        ] + "'"@,
        crate::number::ParseError::NoDigits => "number has no digits"@,
        crate::number::ParseError::NoExponentValue => "missing exponent value"@,
    }
}

/// Render the message of a number parse error.
pub fn number_error_message(e: &crate::number::ParseError) -> (r: String)
    ensures
        r@ == number_error_text(*e),
{
    match e {
        crate::number::ParseError::InvalidDigit(radix, c) => {
            let mut m = String::from_str("invalid digit for base ");
            append_base(&mut m, radix);
            m.append(": '");
            append_quoted_char(&mut m, *c);
            m.append("'");
            proof {
                assert(m@ =~= number_error_text(*e));
            }
            m
        },
        crate::number::ParseError::ExtraPoint => String::from_str("unexpected extra '.'"),
        crate::number::ParseError::UnexpectedPoint(radix) => {
            let mut m = String::from_str("non-integers not supported in base ");
            append_base(&mut m, radix);
            proof {
                assert(m@ =~= number_error_text(*e));
            }
            m
        },
        crate::number::ParseError::UnexpectedChar(c) => {
            let mut m = String::from_str("unexpected character '");
            append_quoted_char(&mut m, *c);
            m.append("'");
            proof {
                assert(m@ =~= number_error_text(*e));
            }
            m
        },
        crate::number::ParseError::NoDigits => String::from_str("number has no digits"),
        crate::number::ParseError::NoExponentValue => String::from_str("missing exponent value"),
    }
}

/// Append the decimal value of the radix to the message.
fn append_base(m: &mut String, radix: &Radix)
    ensures
        final(m)@ == old(m)@ + crate::utf8::ascii_chars(
            crate::number::dec_digits_of(radix.spec_value() as int),
        ),
{
    let mut out: Vec<u8> = Vec::new();
    crate::number::push_u32_decimal(&mut out, radix.value() as u32);
    proof {
        crate::number::lemma_dec_digits_ascii(radix.spec_value() as int);
    }
    let chunk = string_from_ascii(out);
    m.append(chunk.as_str());
}

/// Append one byte as a quoted character.
fn append_quoted_char(m: &mut String, c: u8)
    ensures
        final(m)@ == old(m)@ + seq![quoted_char(c)],
{
    let mut out: Vec<u8> = Vec::new();
    if c <= 0x7f {
        out.push(c);
    } else {
        out.push(63);  // ?
    }
    let chunk = string_from_ascii(out);
    m.append(chunk.as_str());
    proof {
        assert(chunk@ =~= seq![quoted_char(c)]);
    }
}

/// True when a number token's text parses: the numeric part and then the
/// unit suffix.
pub open spec fn number_token_ok(text: Seq<u8>) -> bool {
    &&& crate::number::spec_parse(text) is Ok
    &&& ({
        let end = crate::number::spec_parse(text)->Ok_0.1;
        crate::units::spec_units_parse(text.subrange(end, text.len() as int)) is Ok
    })
}

/// What content a number token of the given text yields: the numeric part
/// and the unit suffix both parse, the prefix exponent folds into the
/// number's, the result trims, and it is an `Integer` exactly when the
/// trimmed number has no exponent and its exact value fits 64 bits, else a
/// `Float` holding the trimmed number itself.
pub open spec fn number_content_ok(text: Seq<u8>, c: &Content) -> bool {
    &&& crate::number::spec_parse(text) is Ok
    &&& ({
        let m0 = crate::number::spec_parse(text)->Ok_0.0;
        let end = crate::number::spec_parse(text)->Ok_0.1;
        let rest = text.subrange(end, text.len() as int);
        &&& crate::units::spec_units_parse(rest) is Ok
        &&& ({
            let units = crate::units::spec_units_parse(rest)->Ok_0.2;
            let x = crate::units::spec_units_parse(rest)->Ok_0.3;
            let t = crate::number::spec_trim(
                crate::number::NumModel {
                    sign: m0.sign,
                    radix: m0.radix,
                    digits: m0.digits,
                    exponent: spec_fold_prefix(m0.exponent, x),
                },
            );
            match c {
                Content::Integer(u, n) => u == units && t.exponent is None && n
                    == crate::number::spec_model_value(t) && i64::MIN
                    <= crate::number::spec_model_value(t) <= i64::MAX,
                Content::Float(u, ref num) => u == units && num.model() == t && (t.exponent
                    is Some || crate::number::spec_model_value(t) > i64::MAX
                    || crate::number::spec_model_value(t) < i64::MIN),
                _ => false,
            }
        })
    })
}

/// The kind of result one call of `parse` gives.
#[derive(Debug, Clone, Copy, PartialEq, Eq, Structural)]
pub enum ResultKind {
    Done,
    Incomplete,
    Failed,
    Value,
}

/// The kind of a parse result.
pub open spec fn kind_of(r: &ParseResult) -> ResultKind {
    match r {
        ParseResult::Done => ResultKind::Done,
        ParseResult::Incomplete => ResultKind::Incomplete,
        ParseResult::Failed => ResultKind::Failed,
        ParseResult::Value(_) => ResultKind::Value,
    }
}

/// What kind of result parsing from `pos` with `depth` open frames gives:
/// the walk over the token stream that the parser performs. The stream's
/// end finishes or suspends by the depth; an error token or a bad number
/// token fails, as does a close parenthesis at the top; an expression
/// completes at a top-level atom or when the depth returns to zero.
pub open spec fn spec_result_kind(s: Seq<u8>, pos: int, depth: int) -> ResultKind
    decreases s.len() - pos
        when 0 <= pos <= s.len() && 0 <= depth
        via spec_result_kind_decreases
{
    let j = space_run(s, pos);
    if j == s.len() {
        if depth == 0 {
            ResultKind::Done
        } else {
            ResultKind::Incomplete
        }
    } else {
        let e = token_end(s, j);
        let c = token_class(s, j);
        if c == Type::Comment {
            spec_result_kind(s, e, depth)
        } else if c == Type::Error {
            ResultKind::Failed
        } else if c == Type::Symbol {
            if depth == 0 {
                ResultKind::Value
            } else {
                spec_result_kind(s, e, depth)
            }
        } else if c == Type::Number {
            if number_token_ok(s.subrange(j, e)) {
                if depth == 0 {
                    ResultKind::Value
                } else {
                    spec_result_kind(s, e, depth)
                }
            } else {
                ResultKind::Failed
            }
        } else if c == Type::ParenOpen {
            spec_result_kind(s, e, depth + 1)
        } else {
            if depth == 0 {
                ResultKind::Failed
            } else if depth == 1 {
                ResultKind::Value
            } else {
                spec_result_kind(s, e, depth - 1)
            }
        }
    }
}

#[via_fn]
proof fn spec_result_kind_decreases(s: Seq<u8>, pos: int, depth: int) {
    crate::token::lemma_space_run(s, pos);
    let j = space_run(s, pos);
    if j < s.len() {
        crate::token::lemma_token_end(s, j);
    }
}

/// One unfolding of the walk, with the bounds that make it well defined.
pub proof fn lemma_spec_result_kind(s: Seq<u8>, pos: int, depth: int)
    requires
        0 <= pos <= s.len(),
        0 <= depth,
    ensures
        ({
            let j = space_run(s, pos);
            if j == s.len() {
                spec_result_kind(s, pos, depth) == (if depth == 0 {
                    ResultKind::Done
                } else {
                    ResultKind::Incomplete
                })
            } else {
                let e = token_end(s, j);
                let c = token_class(s, j);
                if c == Type::Comment {
                    spec_result_kind(s, pos, depth) == spec_result_kind(s, e, depth)
                } else if c == Type::Error {
                    spec_result_kind(s, pos, depth) == ResultKind::Failed
                } else if c == Type::Symbol {
                    spec_result_kind(s, pos, depth) == (if depth == 0 {
                        ResultKind::Value
                    } else {
                        spec_result_kind(s, e, depth)
                    })
                } else if c == Type::Number {
                    spec_result_kind(s, pos, depth) == (if number_token_ok(s.subrange(j, e)) {
                        if depth == 0 {
                            ResultKind::Value
                        } else {
                            spec_result_kind(s, e, depth)
                        }
                    } else {
                        ResultKind::Failed
                    })
                } else if c == Type::ParenOpen {
                    spec_result_kind(s, pos, depth) == spec_result_kind(s, e, depth + 1)
                } else {
                    spec_result_kind(s, pos, depth) == (if depth == 0 {
                        ResultKind::Failed
                    } else if depth == 1 {
                        ResultKind::Value
                    } else {
                        spec_result_kind(s, e, depth - 1)
                    })
                }
            }
        }),
{
    crate::token::lemma_space_run(s, pos);
    let j = space_run(s, pos);
    if j < s.len() {
        crate::token::lemma_token_end(s, j);
    }
}

/// How a metric-prefix exponent folds into a number's exponent: nothing
/// changes for the empty prefix, otherwise the sum, saturated to 32 bits,
/// replaces the exponent.
pub open spec fn spec_fold_prefix(e: Option<int>, x: int) -> Option<int> {
    if x == 0 {
        e
    } else {
        let base: int = match e {
            Some(v) => v,
            None => 0,
        };
        Some(
            if base >= 0 && x > i32::MAX - base {
                i32::MAX as int
            } else if base < 0 && x < i32::MIN - base {
                i32::MIN as int
            } else {
                base + x
            },
        )
    }
}

/// An incremental s-expression parser.
pub struct Parser {
    exprs: Vec<SExpr>,
    groups: Vec<(Span, usize)>,
    number: ParsedNumber,
}

/// A parser's open-frame count is never negative, and its frame spans
/// number exactly that count.
pub proof fn lemma_parser_state(p: &Parser)
    ensures
        0 <= p.spec_depth(),
        p.spec_frame_spans().len() == p.spec_depth(),
{
}

impl Parser {
    /// Every pending expression is well formed and every open frame points
    /// into the pending vector, in the order the frames were opened.
    pub closed spec fn wf(&self) -> bool {
        &&& all_items_wf(self.exprs@, 0)
        &&& forall|k: int|
            0 <= k < self.groups@.len() ==> #[trigger] self.groups@[k].1 <= self.exprs@.len()
        &&& forall|a: int, b: int|
            0 <= a <= b < self.groups@.len() ==> self.groups@[a].1 <= self.groups@[b].1
    }

    /// The number of open-list frames.
    pub closed spec fn spec_depth(&self) -> int {
        self.groups@.len() as int
    }

    /// The spans of the open frames' opening parentheses, oldest first.
    pub closed spec fn spec_frame_spans(&self) -> Seq<Span> {
        Seq::new(self.groups@.len(), |i: int| self.groups@[i].0)
    }

    /// The expressions parsed so far that wait inside open lists, oldest
    /// first.
    pub closed spec fn spec_pending(&self) -> Seq<SExpr> {
        self.exprs@
    }

    /// Create a parser with no pending expressions and no open lists.
    pub fn new() -> (r: Parser)
        ensures
            r.wf(),
            r.spec_depth() == 0,
    {
        let r = Parser { exprs: Vec::new(), groups: Vec::new(), number: ParsedNumber::new() };
        proof {
            lemma_all_items_wf(r.exprs@, 0);
        }
        r
    }

    /// Parse the next s-expression from the token stream.
    ///
    /// If the stream ends without producing a complete s-expression, parse()
    /// can be called again to continue parsing incrementally. The stream
    /// ends with `Done` only at the top level with nothing pending and with
    /// `Incomplete` only inside an unclosed list; a returned expression is
    /// well formed.
    #[verifier::loop_isolation(false)]
    pub fn parse<'t, E: ErrorHandler>(
        &mut self,
        err_handler: &mut E,
        tokenizer: &mut Tokenizer<'t>,
    ) -> (r: ParseResult)
        requires
            old(self).wf(),
            old(tokenizer).wf(),
        ensures
            final(self).wf(),
            final(tokenizer).wf(),
            final(tokenizer).spec_text() == old(tokenizer).spec_text(),
            kind_of(&r) == spec_result_kind(
                old(tokenizer).spec_text(),
                old(tokenizer).spec_pos(),
                old(self).spec_depth(),
            ),
            (r is Done ==> final(self).spec_depth() == 0 && final(self).spec_frame_spans()
                == old(self).spec_frame_spans() && final(self).spec_pending() == old(
                self,
            ).spec_pending()),
            (r is Incomplete ==> final(self).spec_depth() > 0 && final(tokenizer).spec_pos()
                == old(tokenizer).spec_text().len()),
            (r matches ParseResult::Value(e) ==> e.wf() && final(tokenizer).spec_pos() > old(
                tokenizer,
            ).spec_pos()),
            (r matches ParseResult::Value(e) ==> (old(self).spec_depth() == 0 ==> ({
                let s = old(tokenizer).spec_text();
                let j = next_code_token(s, old(tokenizer).spec_pos());
                &&& j < s.len()
                &&& e.pos.start.0 == j + 1
                &&& (token_class(s, j) == Type::Symbol ==> (match e.content {
                    Content::Symbol(ref name) => vstd::utf8::encode_utf8(name@) == s.subrange(
                        j,
                        token_end(s, j),
                    ),
                    _ => false,
                }))
                &&& (token_class(s, j) == Type::Number ==> number_content_ok(
                    s.subrange(j, token_end(s, j)),
                    &e.content,
                ))
                &&& (token_class(s, j) == Type::ParenOpen ==> (e.content is List && e.pos.end.0
                    == final(tokenizer).spec_pos() + 1))
            }))),
            (r is Failed <==> final(err_handler).diags().len() > old(err_handler).diags().len()),
            (!(r is Failed) ==> final(err_handler).diags() == old(err_handler).diags()),
            ({
                let s = old(tokenizer).spec_text();
                let j = next_code_token(s, old(tokenizer).spec_pos());
                (j < s.len() && token_class(s, j) == Type::Error) ==> (r is Failed
                    && final(err_handler).diags() == old(err_handler).diags().push(
                    (
                        Span {
                            start: crate::sourcepos::Pos((j + 1) as u32),
                            end: crate::sourcepos::Pos((token_end(s, j) + 1) as u32),
                        },
                        error_token_message(s.subrange(j, token_end(s, j))),
                    ),
                ))
            }),
            ({
                let s = old(tokenizer).spec_text();
                let j = next_code_token(s, old(tokenizer).spec_pos());
                (old(self).spec_depth() == 0 && j < s.len() && token_class(s, j)
                    == Type::ParenClose) ==> (r is Failed
                    && final(err_handler).diags() == old(err_handler).diags().push(
                    (
                        Span {
                            start: crate::sourcepos::Pos((j + 1) as u32),
                            end: crate::sourcepos::Pos((j + 2) as u32),
                        },
                        "extra ')'"@,
                    ),
                ))
            }),
    {
        let ghost s = old(tokenizer).spec_text();
        let ghost start_pos = old(tokenizer).spec_pos();
        let ghost first_code = next_code_token(s, start_pos);
        let ghost mut only_comments = true;
        loop
            invariant
                self.wf(),
                tokenizer.wf(),
                tokenizer.spec_text() == s,
                old(tokenizer).spec_pos() <= tokenizer.spec_pos(),
                err_handler.diags() == old(err_handler).diags(),
                only_comments ==> self.spec_depth() == old(self).spec_depth()
                    && self.spec_pending() == old(self).spec_pending() && next_code_token(
                    s,
                    start_pos,
                ) == next_code_token(s, tokenizer.spec_pos()),
                !only_comments ==> self.spec_depth() > 0,
                !only_comments ==> (old(self).spec_depth() > 0 || next_code_token(s, start_pos)
                    < s.len()),
                0 <= self.spec_depth(),
                spec_result_kind(s, start_pos, old(self).spec_depth()) == spec_result_kind(
                    s,
                    tokenizer.spec_pos(),
                    self.spec_depth(),
                ),
                !only_comments ==> (first_code < s.len() && token_class(s, first_code)
                    != Type::Error),
                (!only_comments && old(self).spec_depth() == 0) ==> (token_class(s, first_code)
                    == Type::ParenOpen && self.spec_frame_spans()[0].start.0 == first_code + 1),
            decreases tokenizer.spec_text().len() - tokenizer.spec_pos(),
        {
            let ghost cur = tokenizer.spec_pos();
            let ghost depth0 = self.spec_depth();
            proof {
                crate::token::lemma_tokenizer_wf(tokenizer);
            }
            let tok = tokenizer.next();
            proof {
                crate::token::lemma_next_code_token(s, cur);
                lemma_spec_result_kind(s, cur, depth0);
            }
            let pos = tok.source_pos();
            match tok.ty {
                Type::End => {
                    if self.groups.len() == 0 {
                        // Only comments were consumed: the stream's next code
                        // token from the starting cursor is its end.
                        proof {
                            assert(only_comments);
                        }
                        return ParseResult::Done;
                    } else {
                        return ParseResult::Incomplete;
                    }
                },
                Type::Error => {
                    handle_error_token(err_handler, pos, tok.text);
                    return ParseResult::Failed;
                },
                Type::Comment => {},
                Type::Symbol => {
                    proof {
                        only_comments = false;
                    }
                    let name = crate::utf8::str_from_utf8(tok.text);
                    let expr = SExpr { pos, content: Content::Symbol(name.to_owned()) };
                    proof {
                        assert(expr.wf());
                    }
                    if self.groups.len() == 0 {
                        return ParseResult::Value(expr);
                    }
                    self.push_expr(expr);
                },
                Type::Number => {
                    proof {
                        only_comments = false;
                    }
                    let content = match self.parse_number(err_handler, &tok) {
                        Some(x) => x,
                        None => {
                            return ParseResult::Failed;
                        },
                    };
                    let expr = SExpr { pos, content };
                    proof {
                        assert(expr.wf()) by {
                            match expr.content {
                                Content::Float(_, ref n) => {
                                    assert(n.wf());
                                },
                                _ => {},
                            }
                        }
                    }
                    if self.groups.len() == 0 {
                        return ParseResult::Value(expr);
                    }
                    self.push_expr(expr);
                },
                Type::ParenOpen => {
                    proof {
                        only_comments = false;
                    }
                    self.groups.push((pos, self.exprs.len()));
                },
                Type::ParenClose => {
                    proof {
                        only_comments = false;
                    }
                    if self.groups.len() == 0 {
                        err_handler.handle(pos, "extra ')'");
                        return ParseResult::Failed;
                    }
                    let (start_pos, offset) = self.groups[self.groups.len() - 1];
                    let _ = self.groups.pop();
                    let mut items: Vec<SExpr> = Vec::new();
                    let ghost remaining = self.groups@;
                    proof {
                        lemma_all_items_wf(self.exprs@, 0);
                        // Remaining frames were opened before this one, so
                        // they point at or below its offset.
                        assert(forall|k: int|
                            0 <= k < remaining.len() ==> #[trigger] remaining[k].1 <= offset);
                    }
                    while self.exprs.len() > offset
                        invariant
                            offset <= self.exprs@.len(),
                            self.groups@ == remaining,
                            forall|k: int|
                                0 <= k < self.exprs@.len() ==> #[trigger] self.exprs@[k].wf(),
                            forall|k: int| 0 <= k < items@.len() ==> #[trigger] items@[k].wf(),
                        decreases self.exprs@.len(),
                    {
                        // Gather this list's pending expressions; they come
                        // back out in reverse and are put right afterwards.
                        let e = self.exprs.pop().unwrap();
                        items.push(e);
                    }
                    reverse_exprs(&mut items);
                    let span = Span { start: start_pos.start, end: pos.end };
                    let expr = SExpr { pos: span, content: Content::List(items) };
                    proof {
                        assert(expr.wf()) by {
                            match expr.content {
                                Content::List(ref l) => {
                                    lemma_all_items_wf(l@, 0);
                                },
                                _ => {},
                            }
                        }
                        lemma_all_items_wf(self.exprs@, 0);
                    }
                    proof {
                        assert(self.exprs@.len() == offset);
                        assert(self.wf());
                    }
                    if self.groups.len() == 0 {
                        return ParseResult::Value(expr);
                    }
                    self.push_expr(expr);
                },
            }
        }
    }

    /// Append one well-formed expression to the pending vector.
    fn push_expr(&mut self, expr: SExpr)
        requires
            old(self).wf(),
            expr.wf(),
        ensures
            final(self).wf(),
            final(self).spec_depth() == old(self).spec_depth(),
            final(self).spec_frame_spans() == old(self).spec_frame_spans(),
    {
        proof {
            lemma_all_items_wf(self.exprs@, 0);
        }
        self.exprs.push(expr);
        proof {
            lemma_all_items_wf(self.exprs@, 0);
        }
    }

    /// Finish parsing a document: report one missing-parenthesis diagnostic
    /// for every unclosed frame, at its opening parenthesis, innermost
    /// first. The parser itself is left unchanged.
    #[verifier::loop_isolation(false)]
    pub fn finish<E: ErrorHandler>(&self, err_handler: &mut E)
        requires
            self.wf(),
        ensures
            final(err_handler).diags() == old(err_handler).diags() + Seq::new(
                self.spec_depth() as nat,
                |i: int| (self.spec_frame_spans()[self.spec_depth() - 1 - i], "missing ')'"@),
            ),
    {
        let depth = self.groups.len();
        let mut i: usize = depth;
        while i > 0
            invariant
                0 <= i <= depth,
                depth == self.spec_depth(),
                err_handler.diags() == old(err_handler).diags() + Seq::new(
                    (depth - i) as nat,
                    |k: int| (self.spec_frame_spans()[depth - 1 - k], "missing ')'"@),
                ),
            decreases i,
        {
            let (pos, _) = self.groups[i - 1];
            err_handler.handle(pos, "missing ')'");
            proof {
                assert(err_handler.diags() =~= old(err_handler).diags() + Seq::new(
                    (depth - (i - 1)) as nat,
                    |k: int| (self.spec_frame_spans()[depth - 1 - k], "missing ')'"@),
                ));
            }
            i = i - 1;
        }
        proof {
            if depth == 0 {
                assert(err_handler.diags() =~= old(err_handler).diags() + Seq::new(
                    0,
                    |k: int| (self.spec_frame_spans()[depth - 1 - k], "missing ')'"@),
                ));
            }
        }
    }

    /// Parse a numeric token: the number, then a unit suffix; a non-scalar
    /// suffix upgrades the value to a quantity of those units, and the
    /// prefix exponent folds into the number's exponent. An integer with no
    /// exponent that fits 64 bits becomes `Integer`, every other numeric
    /// form `Float`.
    fn parse_number<'a, E: ErrorHandler>(&mut self, err_handler: &mut E, tok: &Token<'a>) -> (r:
        Option<Content>)
        requires
            tok.pos.0 + tok.text@.len() <= u32::MAX,
        ensures
            final(self).exprs@ == old(self).exprs@,
            final(self).groups@ == old(self).groups@,
            r is Some <==> number_token_ok(tok.text@),
            r is Some ==> final(err_handler).diags() == old(err_handler).diags(),
            r is None ==> final(err_handler).diags().len() > old(err_handler).diags().len(),
            r matches Some(c) ==> (match c {
                Content::Float(_, ref n) => n.wf(),
                Content::Integer(_, _) => true,
                _ => false,
            }),
            r matches Some(c) ==> number_content_ok(tok.text@, &c),
    {
        let tokpos = tok.source_pos();
        let text = tok.text;
        let rest = match self.number.parse(text, tokpos) {
            Ok(rest) => rest,
            Err((e, pos)) => {
                let msg = number_error_message(&e);
                err_handler.handle(pos, msg.as_str());
                return None;
            },
        };
        proof {
            crate::number::lemma_spec_parse_wf(text@);
        }
        let idx = text.len() - rest.len();
        let (_upos, units, exponent) = match Units::parse(rest, tokpos.sub_from(idx)) {
            Ok(x) => x,
            Err((e, pos)) => {
                err_handler.handle(pos, e.message());
                return None;
            },
        };
        if exponent != 0 {
            let old_exponent = match self.number.exponent {
                Some(x) => x,
                None => 0,
            };
            let folded = if old_exponent >= 0 && exponent > i32::MAX - old_exponent {
                i32::MAX
            } else if old_exponent < 0 && exponent < i32::MIN - old_exponent {
                i32::MIN
            } else {
                old_exponent + exponent
            };
            self.number.exponent = Some(folded);
        }
        let ghost before = self.number.model();
        self.number.trim();
        proof {
            // Trimming keeps a contiguous sub-run of the digits, so each
            // digit still fits the radix.
            assert(crate::number::spec_parse(text@) is Ok);
            let parsed = crate::number::spec_parse(text@)->Ok_0.0;
            assert(forall|i: int|
                0 <= i < parsed.digits.len() ==> #[trigger] parsed.digits[i]
                    < parsed.radix.spec_value());
            assert(before.digits == parsed.digits);
            assert(before.radix == parsed.radix);
            let sig = crate::number::significant_len(before.digits);
            let d1 = before.digits.subrange(0, sig);
            crate::number::lemma_significant_len(before.digits);
            crate::number::lemma_low_zero_run(d1);
            assert forall|k: int| 0 <= k < self.number.digits@.len() implies
                #[trigger] self.number.digits@[k] < self.number.radix.spec_value() by {
                match before.exponent {
                    Some(_) => {
                        let n = crate::number::low_zero_run(d1);
                        assert(self.number.digits@[k] == d1[k + n]);
                        assert(d1[k + n] == before.digits[k + n]);
                        assert(before.digits[k + n] < before.radix.spec_value());
                    },
                    None => {
                        assert(self.number.digits@[k] == d1[k]);
                        assert(d1[k] == before.digits[k]);
                        assert(before.digits[k] < before.radix.spec_value());
                    },
                }
            }
        }
        let content = match self.number.integer_value() {
            Some(v) => Content::Integer(units, v),
            None => {
                let copy = ParsedNumber {
                    sign: self.number.sign,
                    radix: self.number.radix,
                    digits: vstd::slice::slice_to_vec(self.number.digits.as_slice()),
                    exponent: self.number.exponent,
                };
                Content::Float(units, copy)
            },
        };
        Some(content)
    }
}

/// Reverse the expression vector in place.
fn reverse_exprs(items: &mut Vec<SExpr>)
    requires
        forall|k: int| 0 <= k < old(items)@.len() ==> #[trigger] old(items)@[k].wf(),
    ensures
        final(items)@.len() == old(items)@.len(),
        forall|k: int| 0 <= k < final(items)@.len() ==> #[trigger] final(items)@[k].wf(),
{
    let len = items.len();
    let mut out: Vec<SExpr> = Vec::new();
    let mut i: usize = 0;
    #[verifier::loop_isolation(false)]
    while i < len
        invariant
            0 <= i <= len,
            items@.len() == len - i,
            forall|k: int| 0 <= k < items@.len() ==> #[trigger] items@[k].wf(),
            out@.len() == i,
            forall|k: int| 0 <= k < i ==> #[trigger] out@[k].wf(),
        decreases len - i,
    {
        let e = items.pop().unwrap();
        out.push(e);
        i = i + 1;
    }
    *items = out;
}

} // verus!
