//! Byte stream to classified token stream.
//!
//! Tokens tile the input: every call to `next` skips a run of whitespace and
//! returns the following token, whose text is exactly the input bytes between
//! the end of the whitespace and the position where the tokenizer resumes.
//! Every token but `Error` and `Comment` is plain ASCII and therefore valid
//! UTF-8.

use vstd::prelude::*;
use vstd::slice::slice_subrange;
use vstd::utf8::{
    is_leading_byte_width_1, partial_valid_utf8, partial_valid_utf8_extend_ascii_block, valid_utf8,
};

use crate::sourcepos::{Pos, Span};
use crate::utf8::{parse_character, scan_character};

verus! {

/// Tokenizer error. Not used for syntax errors.
#[derive(Debug, Clone, Copy, PartialEq, Eq, Structural)]
pub enum TokenError {
    TooMuchText,
}

impl TokenError {
    /// A human-readable description of the error.
    pub fn message(&self) -> (r: &'static str)
        ensures
            r@ == "too much text, exceeds 4 GiB maximum total input size"@,
    {
        "too much text, exceeds 4 GiB maximum total input size"
    }
}

/// Token types.
#[derive(Clone, Copy, Debug, PartialEq, Eq, Structural)]
pub enum Type {
    End,
    Error,
    Comment,
    Symbol,
    Number,
    ParenOpen,
    ParenClose,
}

/// A token in an s-expression. Its text is a view into the original buffer.
#[derive(Clone, Copy, Debug)]
pub struct Token<'a> {
    pub ty: Type,
    pub pos: Pos,
    pub text: &'a [u8],
}

impl<'a> Token<'a> {
    /// The span of the text that produced this token.
    pub fn source_pos(&self) -> (r: Span)
        requires
            self.pos.0 + self.text@.len() <= u32::MAX,
        ensures
            r.start == self.pos,
            r.end.0 == self.pos.0 + self.text@.len(),
            r.wf(),
    {
        Span { start: self.pos, end: Pos(self.pos.0 + self.text.len() as u32) }
    }
}

/// True if the byte is ASCII whitespace: space, TAB, LF, VT, FF or CR.
pub open spec fn space_byte(c: u8) -> bool {
    c == 32 || (9 <= c <= 13)
}

/// True if the byte can appear in a normal symbol.
pub open spec fn symbol_byte(c: u8) -> bool {
    ||| (97 <= c <= 122)  // a-z
    ||| (65 <= c <= 90)  // A-Z
    ||| (48 <= c <= 57)  // 0-9
    ||| c == 45 || c == 33 || c == 36 || c == 37 || c == 38 || c == 42 || c == 43 || c == 46
        || c == 47 || c == 58 || c == 60 || c == 61 || c == 62 || c == 63 || c == 64 || c == 94
        || c == 95 || c == 126
}

/// True if the byte is a line break byte, CR or LF.
pub open spec fn line_break_byte(c: u8) -> bool {
    c == 10 || c == 13
}

/// True if the byte is an ASCII digit.
pub open spec fn digit_byte(c: u8) -> bool {
    48 <= c <= 57
}

/// True if the byte starts a symbol directly: a letter, or punctuation other
/// than the bytes that need a second look (`+ - .` and the digits).
pub open spec fn symbol_start_byte(c: u8) -> bool {
    symbol_byte(c) && !digit_byte(c) && c != 43 && c != 45 && c != 46
}

/// First index at or after `i` that does not hold whitespace, or the length.
pub open spec fn space_run(s: Seq<u8>, i: int) -> int
    decreases s.len() - i,
{
    if i < 0 || i >= s.len() || !space_byte(s[i]) {
        i
    } else {
        space_run(s, i + 1)
    }
}

/// First index at or after `i` that does not hold a symbol byte, or the length.
pub open spec fn symbol_run(s: Seq<u8>, i: int) -> int
    decreases s.len() - i,
{
    if i < 0 || i >= s.len() || !symbol_byte(s[i]) {
        i
    } else {
        symbol_run(s, i + 1)
    }
}

/// First index at or after `i` that holds a line break, or the length.
pub open spec fn comment_run(s: Seq<u8>, i: int) -> int
    decreases s.len() - i,
{
    if i < 0 || i >= s.len() || line_break_byte(s[i]) {
        i
    } else {
        comment_run(s, i + 1)
    }
}

/// The whitespace run holds only whitespace, ends at a non-whitespace byte or
/// at the end of the input, and never moves backwards.
pub proof fn lemma_space_run(s: Seq<u8>, i: int)
    requires
        0 <= i <= s.len(),
    ensures
        i <= space_run(s, i) <= s.len(),
        forall|k: int| i <= k < space_run(s, i) ==> space_byte(#[trigger] s[k]),
        space_run(s, i) < s.len() ==> !space_byte(s[space_run(s, i)]),
    decreases s.len() - i,
{
    if i < s.len() && space_byte(s[i]) {
        lemma_space_run(s, i + 1);
    }
}

/// The symbol run holds only symbol bytes and ends at a non-symbol byte or at
/// the end of the input.
pub proof fn lemma_symbol_run(s: Seq<u8>, i: int)
    requires
        0 <= i <= s.len(),
    ensures
        i <= symbol_run(s, i) <= s.len(),
        forall|k: int| i <= k < symbol_run(s, i) ==> symbol_byte(#[trigger] s[k]),
        symbol_run(s, i) < s.len() ==> !symbol_byte(s[symbol_run(s, i)]),
    decreases s.len() - i,
{
    if i < s.len() && symbol_byte(s[i]) {
        lemma_symbol_run(s, i + 1);
    }
}

/// The comment run ends at a line break or at the end of the input and holds
/// no line break itself.
pub proof fn lemma_comment_run(s: Seq<u8>, i: int)
    requires
        0 <= i <= s.len(),
    ensures
        i <= comment_run(s, i) <= s.len(),
        forall|k: int| i <= k < comment_run(s, i) ==> !line_break_byte(#[trigger] s[k]),
        comment_run(s, i) < s.len() ==> line_break_byte(s[comment_run(s, i)]),
    decreases s.len() - i,
{
    if i < s.len() && !line_break_byte(s[i]) {
        lemma_comment_run(s, i + 1);
    }
}

/// The type of the token that starts at index `j`, which must hold a byte
/// that is not whitespace.
pub open spec fn token_class(s: Seq<u8>, j: int) -> Type {
    let c = s[j];
    if symbol_start_byte(c) {
        Type::Symbol
    } else if digit_byte(c) {
        Type::Number
    } else if c == 59 {  // ;
        Type::Comment
    } else if c == 46 {  // .
        if j + 1 < s.len() && digit_byte(s[j + 1]) {
            Type::Number
        } else {
            Type::Symbol
        }
    } else if c == 43 || c == 45 {  // + -
        if j + 1 < s.len() && digit_byte(s[j + 1]) {
            Type::Number
        } else if j + 2 < s.len() && s[j + 1] == 46 && digit_byte(s[j + 2]) {
            Type::Number
        } else {
            Type::Symbol
        }
    } else if c == 40 {  // (
        Type::ParenOpen
    } else if c == 41 {  // )
        Type::ParenClose
    } else {
        Type::Error
    }
}

/// The index one past the end of the token that starts at index `j`.
pub open spec fn token_end(s: Seq<u8>, j: int) -> int {
    let class = token_class(s, j);
    if class == Type::Symbol || class == Type::Number {
        symbol_run(s, j + 1)
    } else if class == Type::Comment {
        comment_run(s, j + 1)
    } else if class == Type::ParenOpen || class == Type::ParenClose {
        j + 1
    } else {
        j + scan_character(s.subrange(j, s.len() as int)).1
    }
}

/// Return true if the byte is ASCII whitespace.
pub fn is_space(c: u8) -> (r: bool)
    ensures
        r == space_byte(c),
{
    c == 32 || (9 <= c && c <= 13)
}

/// Return true if the byte can appear in a normal symbol.
pub fn is_symbol(c: u8) -> (r: bool)
    ensures
        r == symbol_byte(c),
{
    (97 <= c && c <= 122) || (65 <= c && c <= 90) || (48 <= c && c <= 57) || c == 45 || c == 33
        || c == 36 || c == 37 || c == 38 || c == 42 || c == 43 || c == 46 || c == 47 || c == 58
        || c == 60 || c == 61 || c == 62 || c == 63 || c == 64 || c == 94 || c == 95 || c == 126
}

/// Return true if the byte is a line break byte, CR or LF.
pub fn is_line_break(c: u8) -> (r: bool)
    ensures
        r == line_break_byte(c),
{
    c == 10 || c == 13
}

/// Get the number of symbol bytes at the beginning of the text.
pub fn symbol_len(text: &[u8]) -> (r: usize)
    ensures
        r as int == symbol_run(text@, 0),
        r <= text@.len(),
{
    let mut i: usize = 0;
    proof {
        lemma_symbol_run(text@, 0);
    }
    while i < text.len() && is_symbol(text[i])
        invariant
            0 <= i <= text@.len(),
            forall|k: int| 0 <= k < i ==> symbol_byte(#[trigger] text@[k]),
            i <= symbol_run(text@, 0),
        decreases text@.len() - i,
    {
        proof {
            if symbol_run(text@, 0) == i {
                lemma_symbol_run(text@, 0);
                assert(false);
            }
        }
        i = i + 1;
    }
    proof {
        lemma_symbol_run(text@, 0);
    }
    i
}

/// Splits a byte buffer into a stream of classified tokens.
pub struct Tokenizer<'a> {
    text: &'a [u8],
    pos: u32,
    start_pos: u32,
}

impl<'a> Tokenizer<'a> {
    /// The tokenizer's cursor stays inside its text, and the text leaves room
    /// for one-based positions in 32 bits.
    pub closed spec fn wf(&self) -> bool {
        &&& self.start_pos == 1
        &&& self.pos <= self.text@.len()
        &&& self.text@.len() + 1 <= u32::MAX
    }

    /// The text being tokenized.
    pub closed spec fn spec_text(&self) -> Seq<u8> {
        self.text@
    }

    /// The cursor position, as a byte offset into the text.
    pub closed spec fn spec_pos(&self) -> int {
        self.pos as int
    }

    /// Create a tokenizer that returns a stream of tokens from the given text.
    /// Inputs of 2^32 - 1 bytes or more are rejected as too large.
    pub fn new(text: &'a [u8]) -> (r: Result<Self, TokenError>)
        ensures
            r matches Ok(t) ==> t.wf() && t.spec_text() == text@ && t.spec_pos() == 0,
            r is Err <==> text@.len() > u32::MAX - 1,
            r matches Err(e) ==> e == TokenError::TooMuchText,
    {
        let start_pos: u32 = 1;
        if text.len() > (u32::MAX - start_pos) as usize {
            return Err(TokenError::TooMuchText);
        }
        Ok(Tokenizer { text, pos: 0, start_pos })
    }

    /// Rewind the tokenizer to the start of the stream.
    pub fn rewind(&mut self)
        requires
            old(self).wf(),
        ensures
            final(self).wf(),
            final(self).spec_text() == old(self).spec_text(),
            final(self).spec_pos() == 0,
    {
        self.pos = 0;
    }

    /// Return the next token from the stream.
    ///
    /// The bytes between the old cursor and the token are all whitespace, the
    /// token's text is exactly the bytes from its start to the new cursor, and
    /// its position is the one-based offset of its start: consecutive calls
    /// therefore tile the input, in order, with only whitespace between
    /// tokens. A `Symbol`, `Number`, `ParenOpen` or `ParenClose` token is
    /// valid UTF-8.
    pub fn next(&mut self) -> (tok: Token<'a>)
        requires
            old(self).wf(),
        ensures
            final(self).wf(),
            final(self).spec_text() == old(self).spec_text(),
            ({
                let s = old(self).spec_text();
                let j = space_run(s, old(self).spec_pos());
                &&& old(self).spec_pos() <= j <= s.len()
                &&& forall|k: int|
                    old(self).spec_pos() <= k < j ==> space_byte(#[trigger] s[k])
                &&& if j == s.len() {
                    &&& tok.ty == Type::End
                    &&& tok.text@ == Seq::<u8>::empty()
                    &&& tok.pos.0 == s.len()
                    &&& final(self).spec_pos() == s.len()
                } else {
                    &&& tok.ty == token_class(s, j)
                    &&& tok.pos.0 == j + 1
                    &&& j < token_end(s, j) <= s.len()
                    &&& tok.text@ == s.subrange(j, token_end(s, j))
                    &&& final(self).spec_pos() == token_end(s, j)
                }
            }),
            tok.ty == Type::Symbol || tok.ty == Type::Number || tok.ty == Type::ParenOpen
                || tok.ty == Type::ParenClose ==> valid_utf8(tok.text@),
            tok.pos.0 + tok.text@.len() <= u32::MAX,
    {
        let text = self.text;
        let len = text.len();
        let ghost s = text@;
        let mut j: usize = self.pos as usize;
        proof {
            lemma_space_run(s, j as int);
        }
        while j < len && is_space(text[j])
            invariant
                old(self).spec_pos() <= j <= s.len(),
                len == s.len(),
                text@ == s,
                j <= space_run(s, old(self).spec_pos()),
                forall|k: int| old(self).spec_pos() <= k < j ==> space_byte(#[trigger] s[k]),
            decreases len - j,
        {
            proof {
                if space_run(s, old(self).spec_pos()) == j {
                    lemma_space_run(s, old(self).spec_pos());
                    assert(false);
                }
            }
            j = j + 1;
        }
        proof {
            lemma_space_run(s, old(self).spec_pos());
            assert(j == space_run(s, old(self).spec_pos()));
        }
        if j == len {
            self.pos = len as u32;
            let empty = slice_subrange(text, len, len);
            proof {
                assert(empty@ =~= Seq::<u8>::empty());
            }
            return Token { ty: Type::End, pos: Pos(len as u32), text: empty };
        }
        let first = text[j];
        let rest_start = j + 1;
        let (ty, end) = if (97 <= first && first <= 122) || (65 <= first && first <= 90) || first
            == 33 || first == 36 || first == 37 || first == 38 || first == 42 || first == 47
            || first == 58 || first == 60 || first == 61 || first == 62 || first == 63 || first
            == 64 || first == 94 || first == 95 || first == 126 {
            (Type::Symbol, rest_start + symbol_len(slice_subrange(text, rest_start, len)))
        } else if 48 <= first && first <= 57 {
            (Type::Number, rest_start + symbol_len(slice_subrange(text, rest_start, len)))
        } else if first == 59 {
            // Comment: extend until a line break, exclusive.
            let mut e: usize = rest_start;
            proof {
                lemma_comment_run(s, rest_start as int);
            }
            while e < len && !is_line_break(text[e])
                invariant
                    rest_start <= e <= s.len(),
                    len == s.len(),
                    text@ == s,
                    e <= comment_run(s, rest_start as int),
                decreases len - e,
            {
                proof {
                    if comment_run(s, rest_start as int) == e {
                        lemma_comment_run(s, rest_start as int);
                        assert(false);
                    }
                }
                e = e + 1;
            }
            proof {
                lemma_comment_run(s, rest_start as int);
            }
            (Type::Comment, e)
        } else if first == 46 {
            // Either a number or a symbol, depending on what follows the dot.
            let ty = if rest_start < len && 48 <= text[rest_start] && text[rest_start] <= 57 {
                Type::Number
            } else {
                Type::Symbol
            };
            (ty, rest_start + symbol_len(slice_subrange(text, rest_start, len)))
        } else if first == 43 || first == 45 {
            // Either a number or a symbol, depending on what follows the sign.
            let ty = if rest_start < len && 48 <= text[rest_start] && text[rest_start] <= 57 {
                Type::Number
            } else if rest_start + 1 < len && text[rest_start] == 46 && 48 <= text[rest_start + 1]
                && text[rest_start + 1] <= 57 {
                Type::Number
            } else {
                Type::Symbol
            };
            (ty, rest_start + symbol_len(slice_subrange(text, rest_start, len)))
        } else if first == 40 {
            (Type::ParenOpen, rest_start)
        } else if first == 41 {
            (Type::ParenClose, rest_start)
        } else {
            let (_, n) = parse_character(slice_subrange(text, j, len));
            proof {
                crate::utf8::lemma_scan_character_len(s.subrange(j as int, len as int));
            }
            (Type::Error, j + n)
        };
        proof {
            if ty == Type::Symbol || ty == Type::Number {
                lemma_symbol_run(s, rest_start as int);
                assert(symbol_run(s.subrange(rest_start as int, len as int), 0) + rest_start
                    == symbol_run(s, rest_start as int)) by {
                    lemma_symbol_run_shift(s, rest_start as int);
                }
            }
            assert(ty == token_class(s, j as int));
            assert(end == token_end(s, j as int));
        }
        self.pos = end as u32;
        let tok_text = slice_subrange(text, j, end);
        proof {
            if ty == Type::Symbol || ty == Type::Number || ty == Type::ParenOpen || ty
                == Type::ParenClose {
                lemma_symbol_run(s, rest_start as int);
                assert(forall|k: int|
                    j <= k < end ==> is_leading_byte_width_1(#[trigger] s[k]));
                lemma_ascii_valid_utf8(tok_text@);
            }
        }
        Token { ty, pos: Pos(j as u32 + self.start_pos), text: tok_text }
    }
}



/// A token starting at a non-whitespace byte ends past its start and within
/// the text.
pub proof fn lemma_token_end(s: Seq<u8>, j: int)
    requires
        0 <= j < s.len(),
    ensures
        j < token_end(s, j) <= s.len(),
{
    let class = token_class(s, j);
    if class == Type::Symbol || class == Type::Number {
        lemma_symbol_run(s, j + 1);
    } else if class == Type::Comment {
        lemma_comment_run(s, j + 1);
    } else if class == Type::ParenOpen || class == Type::ParenClose {
    } else {
        crate::utf8::lemma_scan_character_len(s.subrange(j, s.len() as int));
    }
}

/// The start of the first token that is not a comment, at or after `pos`;
/// the length of the text when only whitespace and comments remain.
pub open spec fn next_code_token(s: Seq<u8>, pos: int) -> int
    decreases s.len() - pos
        when 0 <= pos <= s.len()
        via next_code_token_decreases
{
    let j = space_run(s, pos);
    if j == s.len() {
        j
    } else if token_class(s, j) == Type::Comment {
        next_code_token(s, token_end(s, j))
    } else {
        j
    }
}

#[via_fn]
proof fn next_code_token_decreases(s: Seq<u8>, pos: int) {
    lemma_space_run(s, pos);
    let j = space_run(s, pos);
    if j < s.len() && token_class(s, j) == Type::Comment {
        lemma_comment_run(s, j + 1);
    }
}

/// How the next code token relates to the space run at `pos`: the text ends
/// there, a comment is skipped, or the token itself starts there.
pub proof fn lemma_next_code_token(s: Seq<u8>, pos: int)
    requires
        0 <= pos <= s.len(),
    ensures
        ({
            let j = space_run(s, pos);
            if j == s.len() {
                next_code_token(s, pos) == s.len()
            } else if token_class(s, j) == Type::Comment {
                next_code_token(s, pos) == next_code_token(s, token_end(s, j))
            } else {
                next_code_token(s, pos) == j
            }
        }),
{
    lemma_space_run(s, pos);
    let j = space_run(s, pos);
    if j < s.len() && token_class(s, j) == Type::Comment {
        lemma_comment_run(s, j + 1);
        assert(next_code_token(s, pos) == next_code_token(s, token_end(s, j)));
    }
}


/// The stream from `pos` reassembled: the whitespace run up to the next
/// token, that token's text, and the rest, token by token, to the end.
pub open spec fn spec_stream(s: Seq<u8>, pos: int) -> Seq<u8>
    decreases s.len() - pos
        when 0 <= pos <= s.len()
        via spec_stream_decreases
{
    let j = space_run(s, pos);
    if j == s.len() {
        s.subrange(pos, j)
    } else {
        s.subrange(pos, j) + s.subrange(j, token_end(s, j)) + spec_stream(s, token_end(s, j))
    }
}

#[via_fn]
proof fn spec_stream_decreases(s: Seq<u8>, pos: int) {
    lemma_space_run(s, pos);
    let j = space_run(s, pos);
    if j < s.len() {
        lemma_token_end(s, j);
    }
}

/// The token stream tiles the input: concatenating every token's text,
/// with the whitespace runs between tokens restored in their places, gives
/// the input back, and each gap holds only whitespace. Token spans are
/// therefore contiguous and monotonic.
pub proof fn lemma_token_stream_tiles(s: Seq<u8>, pos: int)
    requires
        0 <= pos <= s.len(),
    ensures
        spec_stream(s, pos) == s.subrange(pos, s.len() as int),
        forall|k: int| pos <= k < space_run(s, pos) ==> space_byte(#[trigger] s[k]),
    decreases s.len() - pos,
{
    lemma_space_run(s, pos);
    let j = space_run(s, pos);
    if j == s.len() {
        assert(s.subrange(pos, j) =~= s.subrange(pos, s.len() as int));
    } else {
        lemma_token_end(s, j);
        let e = token_end(s, j);
        lemma_token_stream_tiles(s, e);
        assert(s.subrange(pos, j) + s.subrange(j, e) + s.subrange(e, s.len() as int)
            =~= s.subrange(pos, s.len() as int));
    }
}

/// A well-formed tokenizer's cursor lies within its text.
pub proof fn lemma_tokenizer_wf(t: &Tokenizer<'_>)
    requires
        t.wf(),
    ensures
        0 <= t.spec_pos() <= t.spec_text().len(),
        t.spec_text().len() + 1 <= u32::MAX,
{
}

/// A symbol run within a suffix of the text is the run within the whole text,
/// shifted by where the suffix starts.
proof fn lemma_symbol_run_shift(s: Seq<u8>, i: int)
    requires
        0 <= i <= s.len(),
    ensures
        symbol_run(s.subrange(i, s.len() as int), 0) + i == symbol_run(s, i),
{
    lemma_symbol_run_shift_general(s, i, i);
}

proof fn lemma_symbol_run_shift_general(s: Seq<u8>, base: int, i: int)
    requires
        0 <= base <= i <= s.len(),
    ensures
        symbol_run(s.subrange(base, s.len() as int), i - base) + base == symbol_run(s, i),
    decreases s.len() - i,
{
    let sub = s.subrange(base, s.len() as int);
    if i < s.len() && symbol_byte(s[i]) {
        lemma_symbol_run_shift_general(s, base, i + 1);
    }
}

/// A sequence of ASCII bytes is valid UTF-8.
pub proof fn lemma_ascii_valid_utf8(s: Seq<u8>)
    requires
        forall|k: int| 0 <= k < s.len() ==> is_leading_byte_width_1(#[trigger] s[k]),
    ensures
        valid_utf8(s),
{
    assert(partial_valid_utf8(s, 0)) by {
        assert(s.subrange(0, 0) =~= Seq::<u8>::empty());
    }
    partial_valid_utf8_extend_ascii_block(s, 0, s.len() as int);
    assert(s.subrange(0, s.len() as int) =~= s);
}

} // verus!
