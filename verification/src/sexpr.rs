//! The typed S-expression tree that the parser produces.
//!
//! A numeric leaf keeps the exact parsed number rather than an approximate
//! value: an integer with no fraction and no exponent that fits 64 bits is
//! an `Integer`, every other numeric form is a `Float` holding its digits,
//! radix and exponent unchanged.

use vstd::prelude::*;
use vstd::string::StringExecFns;

use crate::number::{spec_render, ParsedNumber};
use crate::sourcepos::Span;
use crate::units::{spec_render_units, Units};
use crate::utf8::ascii_chars;

verus! {

/// The type of an s-expression.
#[derive(Debug, Clone, Copy, PartialEq, Eq, Structural)]
pub enum Type {
    Symbol,
    Integer,
    Float,
    List,
}

/// The name of an s-expression type.
pub open spec fn expr_type_name(t: Type) -> Seq<char> {
    match t {
        Type::Symbol => "symbol"@,
        Type::Integer => "integer"@,
        Type::Float => "float"@,
        Type::List => "list"@,
    }
}

impl Type {
    /// The name of the type, for diagnostics.
    pub fn name(&self) -> (r: &'static str)
        ensures
            r@ == expr_type_name(*self),
    {
        match self {
            Type::Symbol => "symbol",
            Type::Integer => "integer",
            Type::Float => "float",
            Type::List => "list",
        }
    }
}

/// The contents of an s-expression.
#[derive(Debug)]
pub enum Content {
    Symbol(String),
    Integer(Units, i64),
    Float(Units, ParsedNumber),
    List(Vec<SExpr>),
}

/// An s-expression.
#[derive(Debug)]
pub struct SExpr {
    pub pos: Span,
    pub content: Content,
}

impl SExpr {
    /// Every number holds digits that fit its radix, and the same holds
    /// below every list.
    pub open spec fn wf(&self) -> bool
        decreases *self, 0int,
    {
        &&& match self.content {
            Content::Symbol(_) => true,
            Content::Integer(_, _) => true,
            Content::Float(_, ref n) => n.wf(),
            Content::List(ref items) => all_items_wf(items@, 0),
        }
    }

    /// Get the expression's type.
    pub fn get_type(&self) -> (r: Type)
        ensures
            r == (match self.content {
                Content::Symbol(_) => Type::Symbol,
                Content::Integer(_, _) => Type::Integer,
                Content::Float(_, _) => Type::Float,
                Content::List(_) => Type::List,
            }),
    {
        match &self.content {
            Content::Symbol(_) => Type::Symbol,
            Content::Integer(_, _) => Type::Integer,
            Content::Float(_, _) => Type::Float,
            Content::List(_) => Type::List,
        }
    }

    /// The printed form of the expression: symbols as their name, numbers as
    /// their exact text with the unit suffix where one exists, lists in
    /// parentheses with one space between items.
    pub open spec fn spec_print(&self) -> Seq<char>
        decreases *self, 0int,
    {
        match self.content {
            Content::Symbol(ref s) => s@,
            Content::Integer(u, n) => ascii_chars(crate::units::int_text(n as int))
                + units_suffix_chars(u),
            Content::Float(u, ref num) => ascii_chars(spec_render(num.model()))
                + units_suffix_chars(u),
            Content::List(ref items) => seq!['('] + spec_print_items(items@, 0) + seq![')'],
        }
    }

    /// Print the s-expression to a string.
    pub fn print(&self) -> (r: String)
        requires
            self.wf(),
        ensures
            r@ == self.spec_print(),
        decreases *self, 0int,
    {
        match &self.content {
            Content::Symbol(s) => {
                let r = s.clone();
                r
            },
            Content::Integer(u, n) => {
                let mut digits: Vec<u8> = Vec::new();
                let n = *n;
                if n < 0 {
                    digits.push(45);
                    let mag: u64 = if n == i64::MIN {
                        9223372036854775808u64
                    } else {
                        (0i64 - n) as u64
                    };
                    crate::number::push_u64_decimal(&mut digits, mag);
                } else {
                    crate::number::push_u64_decimal(&mut digits, n as u64);
                }
                proof {
                    crate::number::lemma_dec_digits_ascii(
                        if n < 0 {
                            -(n as int)
                        } else {
                            n as int
                        },
                    );
                    assert(digits@ =~= crate::units::int_text(n as int));
                }
                let mut out = crate::utf8::string_from_ascii(digits);
                push_units_suffix(&mut out, u);
                out
            },
            Content::Float(u, num) => {
                let mut out = num.to_string();
                push_units_suffix(&mut out, u);
                out
            },
            Content::List(items) => {
                let mut out = String::from_str("(");
                let mut i: usize = 0;
                proof {
                    reveal_strlit("(");
                    assert(out@ =~= seq!['(']);
                    lemma_all_items_wf(items@, 0);
                }
                #[verifier::loop_isolation(false)]
                while i < items.len()
                    invariant
                        0 <= i <= items@.len(),
                        out@ == seq!['('] + spec_print_items_upto(items@, i as int),
                    decreases items@.len() - i,
                {
                    if i > 0 {
                        out.append(" ");
                    }
                    proof {
                        reveal_strlit(" ");
                        assert(decreases_to!(items@ => items@[i as int]));
                    }
                    let piece = items[i].print();
                    out.append(piece.as_str());
                    proof {
                        lemma_print_items_step(items@, i as int);
                        assert(out@ =~= seq!['('] + spec_print_items_upto(items@, i + 1));
                    }
                    i = i + 1;
                }
                out.append(")");
                proof {
                    reveal_strlit(")");
                    lemma_print_items_full(items@);
                    assert(out@ =~= self.spec_print());
                }
                out
            },
        }
    }
}

/// The unit suffix of the five single units, as it may follow a number; any
/// other units print in brackets after the number, a form that does not
/// parse back.
pub open spec fn units_suffix_chars(u: Units) -> Seq<char> {
    if u == Units::spec_scalar() {
        Seq::empty()
    } else if u == (Units { volt: 1i8, second: 0i8, radian: 0i8, decibel: 0i8 }) {
        seq!['V']
    } else if u == (Units { volt: 0i8, second: 1i8, radian: 0i8, decibel: 0i8 }) {
        seq!['s']
    } else if u == (Units { volt: 0i8, second: -1i8, radian: 0i8, decibel: 0i8 }) {
        seq!['H', 'z']
    } else if u == (Units { volt: 0i8, second: 0i8, radian: 1i8, decibel: 0i8 }) {
        seq!['r', 'a', 'd']
    } else if u == (Units { volt: 0i8, second: 0i8, radian: 0i8, decibel: 1i8 }) {
        seq!['d', 'B']
    } else {
        seq!['['] + ascii_chars(spec_render_units(u)) + seq![']']
    }
}

/// Append the unit suffix of the units to the text.
fn push_units_suffix(out: &mut String, u: &Units)
    ensures
        final(out)@ == old(out)@ + units_suffix_chars(*u),
{
    if u.is_scalar() {
        proof {
            assert(out@ =~= old(out)@ + units_suffix_chars(*u));
        }
        return ;
    }
    if u.volt == 1 && u.second == 0 && u.radian == 0 && u.decibel == 0 {
        out.append("V");
    } else if u.volt == 0 && u.second == 1 && u.radian == 0 && u.decibel == 0 {
        out.append("s");
    } else if u.volt == 0 && u.second == -1 && u.radian == 0 && u.decibel == 0 {
        out.append("Hz");
    } else if u.volt == 0 && u.second == 0 && u.radian == 1 && u.decibel == 0 {
        out.append("rad");
    } else if u.volt == 0 && u.second == 0 && u.radian == 0 && u.decibel == 1 {
        out.append("dB");
    } else {
        out.append("[");
        let units = u.to_string();
        out.append(units.as_str());
        out.append("]");
    }
    proof {
        reveal_strlit("V");
        reveal_strlit("s");
        reveal_strlit("Hz");
        reveal_strlit("rad");
        reveal_strlit("dB");
        reveal_strlit("[");
        reveal_strlit("]");
        assert(out@ =~= old(out)@ + units_suffix_chars(*u));
    }
}

/// Every item from index `i` on is well formed.
pub open spec fn all_items_wf(items: Seq<SExpr>, i: int) -> bool
    decreases items, items.len() - i,
{
    i < 0 || i >= items.len() || (items[i].wf() && all_items_wf(items, i + 1))
}

/// Well-formedness of a list is well-formedness of each item.
pub proof fn lemma_all_items_wf(items: Seq<SExpr>, i: int)
    requires
        0 <= i <= items.len(),
    ensures
        all_items_wf(items, i) <==> (forall|k: int|
            i <= k < items.len() ==> #[trigger] items[k].wf()),
    decreases items.len() - i,
{
    if i < items.len() {
        lemma_all_items_wf(items, i + 1);
        assert(all_items_wf(items, i) == (items[i].wf() && all_items_wf(items, i + 1)));
        if all_items_wf(items, i) {
            assert forall|k: int| i <= k < items.len() implies #[trigger] items[k].wf() by {
                if k > i {
                    assert(items[k].wf());
                }
            }
        }
        if forall|k: int| i <= k < items.len() ==> #[trigger] items[k].wf() {
            assert(items[i].wf());
            assert(forall|k: int| i + 1 <= k < items.len() ==> #[trigger] items[k].wf());
            assert(all_items_wf(items, i + 1));
        }
    }
}

/// The printed items of a list from index `i` on, space separated.
pub open spec fn spec_print_items(items: Seq<SExpr>, i: int) -> Seq<char>
    decreases items, items.len() - i,
{
    if i < 0 || i >= items.len() {
        Seq::empty()
    } else if i + 1 == items.len() {
        items[i].spec_print()
    } else {
        items[i].spec_print() + seq![' '] + spec_print_items(items, i + 1)
    }
}

/// The printed items of a list up to index `i`, exclusive, space separated.
pub open spec fn spec_print_items_upto(items: Seq<SExpr>, i: int) -> Seq<char>
    decreases items, i,
{
    if i <= 0 || i > items.len() {
        Seq::empty()
    } else if i == 1 {
        items[0].spec_print()
    } else {
        spec_print_items_upto(items, i - 1) + seq![' '] + items[i - 1].spec_print()
    }
}

proof fn lemma_print_items_step(items: Seq<SExpr>, i: int)
    requires
        0 <= i < items.len(),
    ensures
        spec_print_items_upto(items, i + 1) == if i == 0 {
            items[0].spec_print()
        } else {
            spec_print_items_upto(items, i) + seq![' '] + items[i].spec_print()
        },
{
}

/// Gathering the items from the left agrees with the right-recursive form.
proof fn lemma_print_items_full(items: Seq<SExpr>)
    ensures
        spec_print_items_upto(items, items.len() as int) == spec_print_items(items, 0),
{
    if items.len() > 0 {
        lemma_print_items_parts(items, items.len() as int);
        assert(spec_print_items_upto(items, items.len() as int) + Seq::<char>::empty()
            =~= spec_print_items_upto(items, items.len() as int));
    }
}

proof fn lemma_print_items_parts(items: Seq<SExpr>, i: int)
    requires
        1 <= i <= items.len(),
    ensures
        spec_print_items(items, 0) == spec_print_items_upto(items, i) + (if i < items.len() {
            seq![' '] + spec_print_items(items, i)
        } else {
            Seq::<char>::empty()
        }),
    decreases i,
{
    if i == 1 {
        if 1 < items.len() {
            assert(spec_print_items(items, 0) =~= items[0].spec_print() + seq![' ']
                + spec_print_items(items, 1));
        } else {
            assert(spec_print_items(items, 0) =~= items[0].spec_print() + Seq::<char>::empty());
        }
    } else {
        lemma_print_items_parts(items, i - 1);
        if i < items.len() {
            assert(spec_print_items(items, 0) =~= (spec_print_items_upto(items, i - 1) + seq![' ']
                + items[i - 1].spec_print()) + seq![' '] + spec_print_items(items, i));
        } else {
            assert(spec_print_items(items, 0) =~= (spec_print_items_upto(items, i - 1) + seq![' ']
                + items[i - 1].spec_print()) + Seq::<char>::empty());
        }
    }
}

} // verus!
