//! Terminal style settings, rendered as ANSI escape sequences.

use vstd::prelude::*;

use crate::number::{dec_digits_of, lemma_dec_digits_ascii};
use crate::utf8::{ascii_chars, string_from_ascii};

verus! {

/// A StyleFlag is an individual terminal style setting.
#[derive(Debug, Clone, Copy, PartialEq, Eq, Structural)]
pub enum StyleFlag {
    Reset,
    Bold,
    Faint,
    Underline,
    Blink,
    ReverseVideo,
    NormalIntensity,
    UnderlineOff,
    BlinkOff,
    ReverseVideoOff,
    FgBlack,
    FgRed,
    FgGreen,
    FgYellow,
    FgBlue,
    FgMagenta,
    FgCyan,
    FgWhite,
    FgBrightBlack,
    FgBrightRed,
    FgBrightGreen,
    FgBrightYellow,
    FgBrightBlue,
    FgBrightMagenta,
    FgBrightCyan,
    FgBrightWhite,
    BgBlack,
    BgRed,
    BgGreen,
    BgYellow,
    BgBlue,
    BgMagenta,
    BgCyan,
    BgWhite,
    BgBrightBlack,
    BgBrightRed,
    BgBrightGreen,
    BgBrightYellow,
    BgBrightBlue,
    BgBrightMagenta,
    BgBrightCyan,
    BgBrightWhite,
}

impl StyleFlag {
    /// The numeric code of the setting in an ANSI escape sequence.
    pub open spec fn spec_code(&self) -> u8 {
        match self {
            StyleFlag::Reset => 0,
            StyleFlag::Bold => 1,
            StyleFlag::Faint => 2,
            StyleFlag::Underline => 4,
            StyleFlag::Blink => 5,
            StyleFlag::ReverseVideo => 7,
            StyleFlag::NormalIntensity => 22,
            StyleFlag::UnderlineOff => 24,
            StyleFlag::BlinkOff => 25,
            StyleFlag::ReverseVideoOff => 27,
            StyleFlag::FgBlack => 30,
            StyleFlag::FgRed => 31,
            StyleFlag::FgGreen => 32,
            StyleFlag::FgYellow => 33,
            StyleFlag::FgBlue => 34,
            StyleFlag::FgMagenta => 35,
            StyleFlag::FgCyan => 36,
            StyleFlag::FgWhite => 37,
            StyleFlag::FgBrightBlack => 90,
            StyleFlag::FgBrightRed => 91,
            StyleFlag::FgBrightGreen => 92,
            StyleFlag::FgBrightYellow => 93,
            StyleFlag::FgBrightBlue => 94,
            StyleFlag::FgBrightMagenta => 95,
            StyleFlag::FgBrightCyan => 96,
            StyleFlag::FgBrightWhite => 97,
            StyleFlag::BgBlack => 40,
            StyleFlag::BgRed => 41,
            StyleFlag::BgGreen => 42,
            StyleFlag::BgYellow => 43,
            StyleFlag::BgBlue => 44,
            StyleFlag::BgMagenta => 45,
            StyleFlag::BgCyan => 46,
            StyleFlag::BgWhite => 47,
            StyleFlag::BgBrightBlack => 100,
            StyleFlag::BgBrightRed => 101,
            StyleFlag::BgBrightGreen => 102,
            StyleFlag::BgBrightYellow => 103,
            StyleFlag::BgBrightBlue => 104,
            StyleFlag::BgBrightMagenta => 105,
            StyleFlag::BgBrightCyan => 106,
            StyleFlag::BgBrightWhite => 107,
        }
    }

    /// The numeric code of the setting in an ANSI escape sequence.
    pub fn code(&self) -> (r: u8)
        ensures
            r == self.spec_code(),
    {
        match self {
            StyleFlag::Reset => 0,
            StyleFlag::Bold => 1,
            StyleFlag::Faint => 2,
            StyleFlag::Underline => 4,
            StyleFlag::Blink => 5,
            StyleFlag::ReverseVideo => 7,
            StyleFlag::NormalIntensity => 22,
            StyleFlag::UnderlineOff => 24,
            StyleFlag::BlinkOff => 25,
            StyleFlag::ReverseVideoOff => 27,
            StyleFlag::FgBlack => 30,
            StyleFlag::FgRed => 31,
            StyleFlag::FgGreen => 32,
            StyleFlag::FgYellow => 33,
            StyleFlag::FgBlue => 34,
            StyleFlag::FgMagenta => 35,
            StyleFlag::FgCyan => 36,
            StyleFlag::FgWhite => 37,
            StyleFlag::FgBrightBlack => 90,
            StyleFlag::FgBrightRed => 91,
            StyleFlag::FgBrightGreen => 92,
            StyleFlag::FgBrightYellow => 93,
            StyleFlag::FgBrightBlue => 94,
            StyleFlag::FgBrightMagenta => 95,
            StyleFlag::FgBrightCyan => 96,
            StyleFlag::FgBrightWhite => 97,
            StyleFlag::BgBlack => 40,
            StyleFlag::BgRed => 41,
            StyleFlag::BgGreen => 42,
            StyleFlag::BgYellow => 43,
            StyleFlag::BgBlue => 44,
            StyleFlag::BgMagenta => 45,
            StyleFlag::BgCyan => 46,
            StyleFlag::BgWhite => 47,
            StyleFlag::BgBrightBlack => 100,
            StyleFlag::BgBrightRed => 101,
            StyleFlag::BgBrightGreen => 102,
            StyleFlag::BgBrightYellow => 103,
            StyleFlag::BgBrightBlue => 104,
            StyleFlag::BgBrightMagenta => 105,
            StyleFlag::BgBrightCyan => 106,
            StyleFlag::BgBrightWhite => 107,
        }
    }
}

/// The escape sequence of a style, as characters.
pub open spec fn spec_style_text_chars(flags: Seq<StyleFlag>) -> Seq<char> {
    ascii_chars(spec_style_text(flags))
}

/// A Style is a collection of terminal style settings.
#[derive(Debug, Clone, Copy)]
pub struct Style<'a>(pub &'a [StyleFlag]);

/// The escape sequence of a style: nothing for no settings, else ESC `[`,
/// the codes joined with `;`, and `m`.
pub open spec fn spec_style_text(flags: Seq<StyleFlag>) -> Seq<u8> {
    if flags.len() == 0 {
        Seq::empty()
    } else {
        seq![27u8, 91u8] + dec_digits_of(flags[0].spec_code() as int) + style_prefix_tail(flags, 1)
            + seq![109u8]
    }
}

/// The `;`-separated codes of the settings from index `i` on.
pub open spec fn style_prefix_tail(flags: Seq<StyleFlag>, i: int) -> Seq<u8>
    decreases flags.len() - i,
{
    if i < 0 || i >= flags.len() {
        Seq::empty()
    } else {
        seq![59u8] + dec_digits_of(flags[i].spec_code() as int) + style_prefix_tail(flags, i + 1)
    }
}

impl<'a> Style<'a> {
    /// Render the style as an ANSI escape sequence; no settings render as
    /// the empty string.
    #[verifier::loop_isolation(false)]
    pub fn to_string(&self) -> (r: String)
        ensures
            r@ == ascii_chars(spec_style_text(self.0@)),
    {
        let flags = self.0;
        if flags.len() == 0 {
            let s = String::new();
            proof {
                assert(s@ =~= ascii_chars(spec_style_text(flags@)));
            }
            return s;
        }
        let mut out: Vec<u8> = Vec::new();
        out.push(27);
        out.push(91);
        crate::number::push_u32_decimal(&mut out, flags[0].code() as u32);
        proof {
            lemma_dec_digits_ascii(flags@[0].spec_code() as int);
        }
        let mut i: usize = 1;
        while i < flags.len()
            invariant
                1 <= i <= flags@.len(),
                out@ == seq![27u8, 91u8] + dec_digits_of(flags@[0].spec_code() as int)
                    + style_done(flags@, i as int),
                forall|k: int| 0 <= k < out@.len() ==> #[trigger] out@[k] <= 0x7f,
            decreases flags@.len() - i,
        {
            out.push(59);
            crate::number::push_u32_decimal(&mut out, flags[i].code() as u32);
            proof {
                lemma_dec_digits_ascii(flags@[i as int].spec_code() as int);
                lemma_style_done_step(flags@, i as int);
                assert(out@ =~= seq![27u8, 91u8] + dec_digits_of(flags@[0].spec_code() as int)
                    + style_done(flags@, i + 1));
            }
            i = i + 1;
        }
        out.push(109);
        proof {
            lemma_style_done_full(flags@, flags@.len() as int);
            assert(out@ =~= spec_style_text(flags@));
        }
        string_from_ascii(out)
    }
}

/// The `;`-separated codes of the settings at indices 1 to `i`, exclusive.
pub open spec fn style_done(flags: Seq<StyleFlag>, i: int) -> Seq<u8>
    decreases i,
{
    if i <= 1 {
        Seq::empty()
    } else {
        style_done(flags, i - 1) + seq![59u8] + dec_digits_of(flags[i - 1].spec_code() as int)
    }
}

proof fn lemma_style_done_step(flags: Seq<StyleFlag>, i: int)
    requires
        1 <= i,
    ensures
        style_done(flags, i + 1) == style_done(flags, i) + seq![59u8] + dec_digits_of(
            flags[i].spec_code() as int,
        ),
{
}

/// The codes written left to right are all of the joined tail.
proof fn lemma_style_done_full(flags: Seq<StyleFlag>, n: int)
    requires
        1 <= n == flags.len(),
    ensures
        style_done(flags, n) == style_prefix_tail(flags, 1),
{
    lemma_style_parts(flags, 1);
    assert(style_done(flags, 1) + style_prefix_tail(flags, 1) =~= style_prefix_tail(flags, 1));
}

/// Gathering from the left and appending to the right agree.
proof fn lemma_style_parts(flags: Seq<StyleFlag>, i: int)
    requires
        1 <= i <= flags.len(),
    ensures
        style_done(flags, flags.len() as int) == style_done(flags, i) + style_prefix_tail(
            flags,
            i,
        ),
    decreases flags.len() - i,
{
    if i == flags.len() {
        assert(style_done(flags, i) + style_prefix_tail(flags, i) =~= style_done(flags, i));
    } else {
        lemma_style_parts(flags, i + 1);
        assert(style_done(flags, i + 1) =~= style_done(flags, i) + seq![59u8] + dec_digits_of(
            flags[i].spec_code() as int,
        ));
        assert(style_done(flags, i) + style_prefix_tail(flags, i) =~= (style_done(flags, i)
            + seq![59u8] + dec_digits_of(flags[i].spec_code() as int)) + style_prefix_tail(
            flags,
            i + 1,
        ));
    }
}

} // verus!
