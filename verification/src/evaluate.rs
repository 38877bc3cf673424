//! The typed, unit-checked interpreter: AST in, DSP graph out.
//!
//! A program is a non-empty sequence of top-level forms; all but the last
//! must evaluate to void and the last must be a signal in volts. The
//! evaluator keeps a variable environment, dispatches list heads through an
//! operator table, builds the graph as it goes, and keeps collecting
//! diagnostics after an error where it can; one error makes the whole
//! evaluation return nothing.

use vstd::prelude::*;
use vstd::string::{StringExecFns, StringSliceAdditionalSpecFns};

use crate::diag::ErrorHandler;
use crate::graph::{Gain, Graph, Mode, NodeKind, PointFunction, Segment, SignalRef};
use crate::number::ParsedNumber;
use crate::sexpr::{all_items_wf, lemma_all_items_wf, Content, SExpr};
use crate::sourcepos::Span;
use crate::units::Units;

verus! {

/// Error for evaluation failure. The error diagnostics are reported
/// elsewhere.
#[derive(Debug, Clone, Copy, PartialEq, Eq, Structural)]
pub struct Failed;

/// A type of data within a value, or void.
#[derive(Debug, Clone, Copy, PartialEq, Eq, Structural)]
pub enum DataType {
    Void,
    Signal,
    Int,
    Float,
    NonVoid,
}

impl DataType {
    /// The name of the data type, for diagnostics.
    pub fn name(&self) -> (r: &'static str)
        ensures
            r@ == data_type_name(*self),
    {
        match self {
            DataType::Void => "void",
            DataType::Signal => "signal",
            DataType::Int => "int",
            DataType::Float => "float",
            DataType::NonVoid => "non-void",
        }
    }
}

/// The name of a data type.
pub open spec fn data_type_name(d: DataType) -> Seq<char> {
    match d {
        DataType::Void => "void"@,
        DataType::Signal => "signal"@,
        DataType::Int => "int"@,
        DataType::Float => "float"@,
        DataType::NonVoid => "non-void"@,
    }
}

/// A type of a value with its units, where the units matter.
#[derive(Debug, Clone, Copy, PartialEq, Eq, Structural)]
pub struct Type(pub DataType, pub Option<Units>);

/// The rendering of a type: its name, then its units in parentheses where
/// they matter.
pub open spec fn type_text(t: Type) -> Seq<char> {
    match t.1 {
        Some(u) => data_type_name(t.0) + "("@ + crate::utf8::ascii_chars(
            crate::units::spec_render_units(u),
        ) + ")"@,
        None => data_type_name(t.0),
    }
}

impl Type {
    /// The type that only void values have.
    pub fn void() -> (r: Type)
        ensures
            r == Type(DataType::Void, None::<Units>),
    {
        Type(DataType::Void, None)
    }

    /// Render the type for a diagnostic: its name, then its units in
    /// parentheses where they matter.
    pub fn to_string(&self) -> (r: String)
        ensures
            r@ == type_text(*self),
    {
        let mut out = self.0.name().to_owned();
        match &self.1 {
            Some(u) => {
                out.append("(");
                let units = u.to_string();
                out.append(units.as_str());
                out.append(")");
            },
            None => {},
        }
        out
    }
}

/// Error for interpreting a value.
#[derive(Debug, Clone, Copy, PartialEq, Eq, Structural)]
pub enum ValueError {
    Failed,
    BadType { got: Type, expect: Type },
    BadEType { got: crate::sexpr::Type, expect: crate::sexpr::Type },
    BadGain { got: Type },
}

/// The rendering of a value-interpretation error.
pub open spec fn value_error_text(e: ValueError) -> Seq<char> {
    match e {
        ValueError::Failed => "evaluation failed"@,
        ValueError::BadType { got, expect } => "type is "@ + type_text(got) + ", expected "@
            + type_text(expect),
        ValueError::BadEType { got, expect } => "type is "@ + crate::sexpr::expr_type_name(got)
            + ", expected "@ + crate::sexpr::expr_type_name(expect),
        ValueError::BadGain { got } => "type is "@ + type_text(got)
            + ", expected gain (dB or scalar constant)"@,
    }
}

impl ValueError {
    /// Render the error for a diagnostic.
    pub fn to_string(&self) -> (r: String)
        ensures
            r@ == value_error_text(*self),
    {
        match self {
            ValueError::Failed => String::from_str("evaluation failed"),
            ValueError::BadType { got, expect } => {
                let mut m = String::from_str("type is ");
                let g = got.to_string();
                m.append(g.as_str());
                m.append(", expected ");
                let e = expect.to_string();
                m.append(e.as_str());
                m
            },
            ValueError::BadEType { got, expect } => {
                let mut m = String::from_str("type is ");
                m.append(got.name());
                m.append(", expected ");
                m.append(expect.name());
                m
            },
            ValueError::BadGain { got } => {
                let mut m = String::from_str("type is ");
                let g = got.to_string();
                m.append(g.as_str());
                m.append(", expected gain (dB or scalar constant)");
                m
            },
        }
    }
}

/// Error for various operations during evaluation.
#[derive(Debug, Clone, Copy, PartialEq, Eq, Structural)]
pub enum OpError {
    Failed,
    BadNArgs { got: usize, min: usize, max: Option<usize> },
}

/// The decimal rendering of a count, as characters.
pub open spec fn count_text(v: int) -> Seq<char> {
    crate::utf8::ascii_chars(crate::number::dec_digits_of(v))
}

/// The rendering of an operator-application error.
pub open spec fn op_error_text(e: OpError) -> Seq<char> {
    match e {
        OpError::Failed => "evaluation failed"@,
        OpError::BadNArgs { got, min, max } => match max {
            Some(mx) => if min < mx {
                "got "@ + count_text(got as int) + " args, expected "@ + count_text(min as int)
                    + "-"@ + count_text(mx as int)
            } else {
                "got "@ + count_text(got as int) + " args, expected "@ + count_text(min as int)
            },
            None => "got "@ + count_text(got as int) + " args, expected at least "@ + count_text(
                min as int,
            ),
        },
    }
}

impl OpError {
    /// Render the error for a diagnostic.
    pub fn to_string(&self) -> (r: String)
        ensures
            r@ == op_error_text(*self),
    {
        match self {
            OpError::Failed => String::from_str("evaluation failed"),
            OpError::BadNArgs { got, min, max } => {
                let mut m = String::from_str("got ");
                append_usize(&mut m, *got);
                match max {
                    Some(mx) => {
                        if *min < *mx {
                            m.append(" args, expected ");
                            append_usize(&mut m, *min);
                            m.append("-");
                            append_usize(&mut m, *mx);
                        } else {
                            m.append(" args, expected ");
                            append_usize(&mut m, *min);
                        }
                    },
                    None => {
                        m.append(" args, expected at least ");
                        append_usize(&mut m, *min);
                    },
                }
                m
            },
        }
    }
}

/// Append the decimal rendering of the value to the message.
fn append_usize(m: &mut String, v: usize)
    ensures
        final(m)@ == old(m)@ + crate::utf8::ascii_chars(
            crate::number::dec_digits_of(v as int),
        ),
{
    let mut out: Vec<u8> = Vec::new();
    crate::number::push_u64_decimal(&mut out, v as u64);
    proof {
        crate::number::lemma_dec_digits_ascii(v as int);
    }
    let chunk = crate::utf8::string_from_ascii(out);
    m.append(chunk.as_str());
}

/// The data within a value, without units.
#[derive(Debug)]
pub enum Data {
    Int(i64),
    Float(ParsedNumber),
    Signal(SignalRef),
    Void,
}

/// A value from evaluating an expression successfully.
#[derive(Debug)]
pub struct Value(pub Data, pub Units);

/// Two values carry the same content: the same units and the same data,
/// comparing numbers by their mathematical content.
pub open spec fn spec_value_eq(a: &Value, b: &Value) -> bool {
    &&& a.1 == b.1
    &&& match (&a.0, &b.0) {
        (Data::Int(x), Data::Int(y)) => x == y,
        (Data::Float(p), Data::Float(q)) => p.model() == q.model(),
        (Data::Signal(s), Data::Signal(t)) => s == t,
        (Data::Void, Data::Void) => true,
        _ => false,
    }
}

/// A value is meaningful under a graph when every signal it holds points at
/// an existing node.
pub open spec fn value_ok(v: &Value, glen: int) -> bool {
    match v.0 {
        Data::Signal(s) => s.0 < glen,
        _ => true,
    }
}

/// The type of a value's data.
pub open spec fn spec_data_type(d: &Data) -> DataType {
    match d {
        Data::Int(_) => DataType::Int,
        Data::Float(_) => DataType::Float,
        Data::Signal(_) => DataType::Signal,
        Data::Void => DataType::Void,
    }
}

impl Data {
    /// The type of the data.
    pub fn data_type(&self) -> (r: DataType)
        ensures
            r == spec_data_type(self),
    {
        match self {
            Data::Int(_) => DataType::Int,
            Data::Float(_) => DataType::Float,
            Data::Signal(_) => DataType::Signal,
            Data::Void => DataType::Void,
        }
    }
}

impl Value {
    /// The void value.
    pub fn void() -> (r: Value)
        ensures
            r.0 is Void,
            r.1 == Units::spec_scalar(),
    {
        Value(Data::Void, Units::scalar())
    }

    /// An identical copy of the value.
    pub fn dup(&self) -> (r: Value)
        ensures
            spec_value_eq(&r, self),
    {
        let data = match &self.0 {
            Data::Int(n) => Data::Int(*n),
            Data::Float(num) => Data::Float(dup_number(num)),
            Data::Signal(s) => Data::Signal(*s),
            Data::Void => Data::Void,
        };
        Value(data, self.1)
    }

    /// The type of the value, with its units.
    pub fn get_type(&self) -> (r: Type)
        ensures
            r == Type(spec_data_type(&self.0), Some(self.1)),
    {
        Type(self.0.data_type(), Some(self.1))
    }

    /// The error for a value used where another type was needed.
    fn bad_type(&self, expect: Type) -> (r: ValueError)
        ensures
            r == (ValueError::BadType { got: Type(spec_data_type(&self.0), Some(self.1)), expect }),
    {
        ValueError::BadType { got: self.get_type(), expect }
    }

    /// Interpret the value as void: exactly the void values succeed.
    pub fn into_void(self) -> (r: Result<(), ValueError>)
        ensures
            r is Ok <==> self.0 is Void,
            r matches Err(e) ==> e == (ValueError::BadType {
                got: Type(spec_data_type(&self.0), Some(self.1)),
                expect: Type(DataType::Void, None::<Units>),
            }),
    {
        match self {
            Value(Data::Void, _) => Ok(()),
            v => Err(v.bad_type(Type::void())),
        }
    }

    /// Interpret the value as any non-void value: exactly the non-void
    /// values succeed, unchanged.
    pub fn into_nonvoid(self) -> (r: Result<Value, ValueError>)
        ensures
            r matches Ok(v) ==> !(v.0 is Void) && v == self,
            r is Err <==> self.0 is Void,
            r matches Err(e) ==> e == (ValueError::BadType {
                got: Type(spec_data_type(&self.0), Some(self.1)),
                expect: Type(DataType::NonVoid, None::<Units>),
            }),
    {
        match self {
            Value(Data::Void, u) => Err(
                Value(Data::Void, u).bad_type(Type(DataType::NonVoid, None)),
            ),
            v => Ok(v),
        }
    }

    /// Interpret the value as a plain integer: exactly the scalar integers
    /// succeed.
    pub fn into_int(self) -> (r: Result<i64, ValueError>)
        ensures
            r matches Ok(n) ==> self.0 == Data::Int(n) && self.1 == Units::spec_scalar(),
            r is Ok <==> (self.0 is Int && self.1 == Units::spec_scalar()),
            r matches Err(e) ==> e == (ValueError::BadType {
                got: Type(spec_data_type(&self.0), Some(self.1)),
                expect: Type(DataType::Int, Some(Units::spec_scalar())),
            }),
    {
        match self {
            Value(Data::Int(num), units) => {
                if units.is_scalar() {
                    Ok(num)
                } else {
                    Value(Data::Int(num), units).bad_type_err_int()
                }
            },
            v => v.bad_type_err_int(),
        }
    }

    /// The error for a value that is no scalar integer.
    fn bad_type_err_int(self) -> (r: Result<i64, ValueError>)
        ensures
            r == Err::<i64, ValueError>(
                ValueError::BadType {
                    got: Type(spec_data_type(&self.0), Some(self.1)),
                    expect: Type(DataType::Int, Some(Units::spec_scalar())),
                },
            ),
    {
        Err(self.bad_type(Type(DataType::Int, Some(Units::scalar()))))
    }

    /// Interpret the value as a number of the given units: exactly the
    /// integers and floats with those units succeed, as their exact number.
    pub fn into_float(self, units: Units) -> (r: Result<ParsedNumber, ValueError>)
        ensures
            r is Ok <==> (((self.0 matches Data::Float(num) && num.wf()) || self.0 is Int)
                && self.1 == units),
            r matches Ok(n) ==> n.wf() && (match self.0 {
                Data::Float(ref num) => n == num,
                Data::Int(v) => n.exponent is None && n.spec_integer_value() == v,
                _ => false,
            }),
            r matches Err(e) ==> e == (ValueError::BadType {
                got: Type(spec_data_type(&self.0), Some(self.1)),
                expect: Type(DataType::Float, Some(units)),
            }),
    {
        match self {
            Value(Data::Float(num), vunits) => {
                if vunits == units {
                    if number_wf(&num) {
                        Ok(num)
                    } else {
                        // Numbers built by the parser always satisfy this.
                        Err(
                            Value(Data::Float(num), vunits).bad_type(
                                Type(DataType::Float, Some(units)),
                            ),
                        )
                    }
                } else {
                    Err(
                        Value(Data::Float(num), vunits).bad_type(
                            Type(DataType::Float, Some(units)),
                        ),
                    )
                }
            },
            Value(Data::Int(v), vunits) => {
                if vunits == units {
                    Ok(ParsedNumber::from_i64(v))
                } else {
                    Err(Value(Data::Int(v), vunits).bad_type(Type(DataType::Float, Some(units))))
                }
            },
            v => Err(v.bad_type(Type(DataType::Float, Some(units)))),
        }
    }

    /// Interpret the value as a gain: a scalar number is a plain ratio and
    /// a decibel number converts at instantiation time; exactly those
    /// succeed.
    pub fn into_gain(self) -> (r: Result<Gain, ValueError>)
        ensures
            r is Ok <==> (((self.0 matches Data::Float(num) && num.wf()) || self.0 is Int) && (
            self.1 == Units::spec_scalar() || self.1 == (Units {
                volt: 0i8,
                second: 0i8,
                radian: 0i8,
                decibel: 1i8,
            }))),
            r matches Ok(g) ==> g.value.wf() && (g.decibels <==> self.1 == (Units {
                volt: 0i8,
                second: 0i8,
                radian: 0i8,
                decibel: 1i8,
            })),
            r matches Err(e) ==> e == (ValueError::BadGain {
                got: Type(spec_data_type(&self.0), Some(self.1)),
            }),
    {
        let db = Units { volt: 0, second: 0, radian: 0, decibel: 1 };
        match self {
            Value(Data::Float(num), units) => {
                if (units.is_scalar() || units == db) && number_wf(&num) {
                    Ok(Gain { value: num, decibels: units == db })
                } else {
                    Err(ValueError::BadGain { got: Type(DataType::Float, Some(units)) })
                }
            },
            Value(Data::Int(v), units) => {
                if units.is_scalar() || units == db {
                    Ok(Gain { value: ParsedNumber::from_i64(v), decibels: units == db })
                } else {
                    Err(ValueError::BadGain { got: Type(DataType::Int, Some(units)) })
                }
            },
            v => {
                let got = v.get_type();
                Err(ValueError::BadGain { got })
            },
        }
    }

    /// Interpret the value as a signal of any units: exactly the signals
    /// succeed, with their units.
    pub fn into_any_signal(self) -> (r: Result<(SignalRef, Units), ValueError>)
        ensures
            r matches Ok((s, u)) ==> self.0 == Data::Signal(s) && u == self.1,
            r is Ok <==> self.0 is Signal,
            r matches Err(e) ==> e == (ValueError::BadType {
                got: Type(spec_data_type(&self.0), Some(self.1)),
                expect: Type(DataType::Signal, None::<Units>),
            }),
    {
        match self {
            Value(Data::Signal(sig), units) => Ok((sig, units)),
            v => Err(v.bad_type(Type(DataType::Signal, None))),
        }
    }

    /// Interpret the value as a signal of the given units: exactly the
    /// signals with those units succeed.
    pub fn into_signal(self, units: Units) -> (r: Result<SignalRef, ValueError>)
        ensures
            r matches Ok(s) ==> self.0 == Data::Signal(s) && self.1 == units,
            r is Ok <==> (self.0 is Signal && self.1 == units),
            r matches Err(e) ==> e == (ValueError::BadType {
                got: Type(spec_data_type(&self.0), Some(self.1)),
                expect: Type(DataType::Signal, Some(units)),
            }),
    {
        match self {
            Value(Data::Signal(sig), vunits) => {
                if vunits == units {
                    Ok(sig)
                } else {
                    Err(
                        Value(Data::Signal(sig), vunits).bad_type(
                            Type(DataType::Signal, Some(units)),
                        ),
                    )
                }
            },
            v => Err(v.bad_type(Type(DataType::Signal, Some(units)))),
        }
    }
}

/// Whether every digit of the number fits its radix.
fn number_wf(n: &ParsedNumber) -> (r: bool)
    ensures
        r == n.wf(),
{
    let rv = n.radix.value();
    let mut i: usize = 0;
    #[verifier::loop_isolation(false)]
    while i < n.digits.len()
        invariant
            0 <= i <= n.digits@.len(),
            forall|k: int| 0 <= k < i ==> #[trigger] n.digits@[k] < n.radix.spec_value(),
        decreases n.digits@.len() - i,
    {
        if n.digits[i] >= rv {
            return false;
        }
        i = i + 1;
    }
    true
}

/// An identical copy of the number.
fn dup_number(n: &ParsedNumber) -> (r: ParsedNumber)
    ensures
        r.model() == n.model(),
{
    let r = ParsedNumber {
        sign: n.sign,
        radix: n.radix,
        digits: vstd::slice::slice_to_vec(n.digits.as_slice()),
        exponent: n.exponent,
    };
    proof {
        assert(r.digits@ =~= n.digits@);
    }
    r
}

/// Identifying information about a value so diagnostics can name it.
#[derive(Debug, Clone, Copy)]
pub struct ValueLabel {
    pub pos: Span,
    pub name: Option<&'static str>,
    pub index: usize,
}

/// Result of evaluating a subexpression: where it came from, and its value
/// or the error that interpreting it ran into.
pub struct EvalResult<T>(pub ValueLabel, pub Result<T, ValueError>);

impl<T> EvalResult<T> {
    /// Apply an interpretation to the value, keeping the label.
    pub fn and_then<U, F: FnOnce(T) -> Result<U, ValueError>>(self, op: F) -> (r: EvalResult<U>)
        requires
            forall|t: T| #[trigger] call_requires(op, (t,)),
        ensures
            r.0 == self.0,
            self.1 matches Err(e) ==> r.1 == Err::<U, ValueError>(e),
            self.1 matches Ok(v) ==> call_ensures(op, (v,), r.1),
    {
        match self {
            EvalResult(label, Ok(v)) => EvalResult(label, op(v)),
            EvalResult(label, Err(e)) => EvalResult(label, Err(e)),
        }
    }
}

/// One name bound in the environment: a value, or a marker that evaluating
/// its definition failed.
pub enum Binding {
    Bound(Value),
    Poisoned,
}

/// The variable environment: names bound by `define`, latest first wins.
pub struct Bindings {
    entries: Vec<(String, Binding)>,
}

/// The index of the latest entry with the given name, if any.
pub open spec fn spec_find(entries: Seq<(String, Binding)>, name: Seq<char>) -> Option<int>
    decreases entries.len(),
{
    if entries.len() == 0 {
        None
    } else if entries.last().0@ == name {
        Some(entries.len() - 1)
    } else {
        spec_find(entries.drop_last(), name)
    }
}

/// A found index lies in the entries and carries the name looked up.
pub proof fn lemma_spec_find_range(entries: Seq<(String, Binding)>, name: Seq<char>)
    ensures
        spec_find(entries, name) matches Some(k) ==> 0 <= k < entries.len() && entries[k].0@
            == name,
    decreases entries.len(),
{
    if entries.len() > 0 && !(entries.last().0@ == name) {
        lemma_spec_find_range(entries.drop_last(), name);
        if spec_find(entries.drop_last(), name) is Some {
            let k = spec_find(entries.drop_last(), name)->Some_0;
            assert(entries.drop_last()[k] == entries[k]);
        }
    }
}

impl Bindings {
    /// The entries, oldest first.
    pub closed spec fn spec_entries(&self) -> Seq<(String, Binding)> {
        self.entries@
    }

    /// True when some binding is the failure marker.
    pub open spec fn any_poisoned(&self) -> bool {
        exists|k: int|
            0 <= k < self.spec_entries().len() && (#[trigger] self.spec_entries()[k].1
                is Poisoned)
    }

    /// Every bound signal points at an existing node of a graph with the
    /// given node count.
    pub open spec fn ok_for(&self, glen: int) -> bool {
        forall|k: int|
            0 <= k < self.spec_entries().len() ==> (match #[trigger] self.spec_entries()[k].1 {
                Binding::Bound(ref v) => value_ok(v, glen),
                Binding::Poisoned => true,
            })
    }

    /// An empty environment.
    pub fn new() -> (r: Bindings)
        ensures
            r.spec_entries().len() == 0,
    {
        Bindings { entries: Vec::new() }
    }

    /// True if the name is bound, to a value or to a failure marker.
    pub fn contains(&self, name: &str) -> (r: bool)
        ensures
            r == (spec_find(self.spec_entries(), name@) is Some),
    {
        let mut i: usize = self.entries.len();
        proof {
            assert(self.entries@.subrange(0, self.entries@.len() as int) =~= self.entries@);
        }
        #[verifier::loop_isolation(false)]
        while i > 0
            invariant
                0 <= i <= self.entries@.len(),
                spec_find(self.entries@, name@) == spec_find(
                    self.entries@.subrange(0, i as int),
                    name@,
                ),
            decreases i,
        {
            proof {
                assert(self.entries@.subrange(0, i as int).drop_last() =~= self.entries@.subrange(
                    0,
                    i - 1,
                ));
            }
            if str_eq(self.entries[i - 1].0.as_str(), name) {
                return true;
            }
            i = i - 1;
        }
        proof {
            assert(self.entries@.subrange(0, 0) =~= Seq::<(String, Binding)>::empty());
        }
        false
    }

    /// Look up the latest binding of the name: the bound value, the failure
    /// marker, or nothing when the name is unbound.
    pub fn get(&self, name: &str) -> (r: Option<Result<Value, Failed>>)
        ensures
            (r is None) == (spec_find(self.spec_entries(), name@) is None),
            r matches Some(Ok(v)) ==> (match spec_find(self.spec_entries(), name@) {
                Some(k) => self.spec_entries()[k].1 matches Binding::Bound(b) && spec_value_eq(
                    &v,
                    &b,
                ),
                None => false,
            }),
            r matches Some(Err(_)) ==> (match spec_find(self.spec_entries(), name@) {
                Some(k) => self.spec_entries()[k].1 is Poisoned,
                None => false,
            }),
    {
        let mut i: usize = self.entries.len();
        proof {
            assert(self.entries@.subrange(0, self.entries@.len() as int) =~= self.entries@);
        }
        #[verifier::loop_isolation(false)]
        while i > 0
            invariant
                0 <= i <= self.entries@.len(),
                spec_find(self.entries@, name@) == spec_find(
                    self.entries@.subrange(0, i as int),
                    name@,
                ),
            decreases i,
        {
            proof {
                assert(self.entries@.subrange(0, i as int).drop_last() =~= self.entries@.subrange(
                    0,
                    i - 1,
                ));
            }
            if str_eq(self.entries[i - 1].0.as_str(), name) {
                match &self.entries[i - 1].1 {
                    Binding::Bound(v) => {
                        return Some(Ok(v.dup()));
                    },
                    Binding::Poisoned => {
                        return Some(Err(Failed));
                    },
                }
            }
            i = i - 1;
        }
        proof {
            assert(self.entries@.subrange(0, 0) =~= Seq::<(String, Binding)>::empty());
        }
        None
    }

    /// Bind the name, shadowing any earlier binding.
    pub fn insert(&mut self, name: String, value: Binding)
        ensures
            final(self).spec_entries() == old(self).spec_entries().push((name, value)),
    {
        self.entries.push((name, value));
    }
}

/// Compare two strings by content.
pub fn str_eq(a: &str, b: &str) -> (r: bool)
    ensures
        r == (a@ == b@),
{
    let ab = a.as_bytes();
    let bb = b.as_bytes();
    if ab.len() != bb.len() {
        proof {
            if a@ == b@ {
                assert(a.spec_bytes() == b.spec_bytes());
            }
        }
        return false;
    }
    let mut i: usize = 0;
    #[verifier::loop_isolation(false)]
    while i < ab.len()
        invariant
            0 <= i <= ab@.len(),
            ab@.len() == bb@.len(),
            forall|k: int| 0 <= k < i ==> #[trigger] ab@[k] == bb@[k],
        decreases ab@.len() - i,
    {
        if ab[i] != bb[i] {
            proof {
                if a@ == b@ {
                    assert(a.spec_bytes() == b.spec_bytes());
                }
            }
            return false;
        }
        i = i + 1;
    }
    proof {
        assert(a.spec_bytes() =~= b.spec_bytes());
        vstd::utf8::encode_utf8_decode_utf8(a@);
        vstd::utf8::encode_utf8_decode_utf8(b@);
    }
    true
}

/// A macro: an operator that receives its arguments unevaluated.
#[derive(Debug, Clone, Copy, PartialEq, Eq, Structural)]
pub enum MacroOp {
    Define,
    Envelope,
}

/// A function: an operator that receives evaluated values.
#[derive(Debug, Clone, Copy, PartialEq, Eq, Structural)]
pub enum FuncOp {
    Multiply,
    Note,
    Oscillator,
    Sawtooth,
    Sine,
    Noise,
    HighPass,
    LowPass2,
    HighPass2,
    BandPass2,
    LowPass4,
    Saturate,
    Rectify,
    Frequency,
    Mix,
    PhaseMod,
    Overtone,
}

/// An operator of the source language.
#[derive(Debug, Clone, Copy, PartialEq, Eq, Structural)]
pub enum Operator {
    Function(FuncOp),
    Macro(MacroOp),
}

/// The operator table: what each source name stands for. Names outside the
/// table are no operators.
pub open spec fn spec_operator(name: Seq<char>) -> Option<Operator> {
    if name == "define"@ {
        Some(Operator::Macro(MacroOp::Define))
    } else if name == "envelope"@ {
        Some(Operator::Macro(MacroOp::Envelope))
    } else if name == "*"@ {
        Some(Operator::Function(FuncOp::Multiply))
    } else if name == "note"@ {
        Some(Operator::Function(FuncOp::Note))
    } else if name == "oscillator"@ {
        Some(Operator::Function(FuncOp::Oscillator))
    } else if name == "sawtooth"@ {
        Some(Operator::Function(FuncOp::Sawtooth))
    } else if name == "sine"@ {
        Some(Operator::Function(FuncOp::Sine))
    } else if name == "noise"@ {
        Some(Operator::Function(FuncOp::Noise))
    } else if name == "highPass"@ {
        Some(Operator::Function(FuncOp::HighPass))
    } else if name == "lowPass2"@ {
        Some(Operator::Function(FuncOp::LowPass2))
    } else if name == "highPass2"@ {
        Some(Operator::Function(FuncOp::HighPass2))
    } else if name == "bandPass2"@ {
        Some(Operator::Function(FuncOp::BandPass2))
    } else if name == "lowPass4"@ {
        Some(Operator::Function(FuncOp::LowPass4))
    } else if name == "saturate"@ {
        Some(Operator::Function(FuncOp::Saturate))
    } else if name == "rectify"@ {
        Some(Operator::Function(FuncOp::Rectify))
    } else if name == "frequency"@ {
        Some(Operator::Function(FuncOp::Frequency))
    } else if name == "mix"@ {
        Some(Operator::Function(FuncOp::Mix))
    } else if name == "phase-mod"@ {
        Some(Operator::Function(FuncOp::PhaseMod))
    } else if name == "overtone"@ {
        Some(Operator::Function(FuncOp::Overtone))
    } else {
        None
    }
}

/// Look an operator up by its source name.
pub fn lookup_operator(name: &str) -> (r: Option<Operator>)
    ensures
        r == spec_operator(name@),
{
    if str_eq(name, "define") {
        Some(Operator::Macro(MacroOp::Define))
    } else if str_eq(name, "envelope") {
        Some(Operator::Macro(MacroOp::Envelope))
    } else if str_eq(name, "*") {
        Some(Operator::Function(FuncOp::Multiply))
    } else if str_eq(name, "note") {
        Some(Operator::Function(FuncOp::Note))
    } else if str_eq(name, "oscillator") {
        Some(Operator::Function(FuncOp::Oscillator))
    } else if str_eq(name, "sawtooth") {
        Some(Operator::Function(FuncOp::Sawtooth))
    } else if str_eq(name, "sine") {
        Some(Operator::Function(FuncOp::Sine))
    } else if str_eq(name, "noise") {
        Some(Operator::Function(FuncOp::Noise))
    } else if str_eq(name, "highPass") {
        Some(Operator::Function(FuncOp::HighPass))
    } else if str_eq(name, "lowPass2") {
        Some(Operator::Function(FuncOp::LowPass2))
    } else if str_eq(name, "highPass2") {
        Some(Operator::Function(FuncOp::HighPass2))
    } else if str_eq(name, "bandPass2") {
        Some(Operator::Function(FuncOp::BandPass2))
    } else if str_eq(name, "lowPass4") {
        Some(Operator::Function(FuncOp::LowPass4))
    } else if str_eq(name, "saturate") {
        Some(Operator::Function(FuncOp::Saturate))
    } else if str_eq(name, "rectify") {
        Some(Operator::Function(FuncOp::Rectify))
    } else if str_eq(name, "frequency") {
        Some(Operator::Function(FuncOp::Frequency))
    } else if str_eq(name, "mix") {
        Some(Operator::Function(FuncOp::Mix))
    } else if str_eq(name, "phase-mod") {
        Some(Operator::Function(FuncOp::PhaseMod))
    } else if str_eq(name, "overtone") {
        Some(Operator::Function(FuncOp::Overtone))
    } else {
        None
    }
}

/// An environment for evaluating s-expressions: the sticky error flag, the
/// variables bound so far, and the graph under construction.
pub struct Env {
    has_error: bool,
    variables: Bindings,
    graph: Graph,
}

impl Env {
    /// The number of nodes built so far.
    pub closed spec fn spec_glen(&self) -> int {
        self.graph.spec_nodes().len() as int
    }

    /// Whether any diagnostic has been reported.
    pub closed spec fn spec_has_error(&self) -> bool {
        self.has_error
    }

    /// The bindings of the variable environment, oldest first.
    pub closed spec fn spec_vars(&self) -> Seq<(String, Binding)> {
        self.variables.spec_entries()
    }

    /// The graph is acyclic, every bound signal points into it, and a
    /// poisoned binding exists only after an error was reported.
    pub closed spec fn inv(&self) -> bool {
        &&& self.graph.wf()
        &&& self.variables.ok_for(self.spec_glen())
        &&& (self.variables.any_poisoned() ==> self.has_error)
    }

    /// What one evaluation step may do to the environment: the graph only
    /// grows and an error, once reported, stays.
    pub open spec fn step_ok(old_env: &Env, new_env: &Env) -> bool {
        &&& new_env.inv()
        &&& old_env.spec_glen() <= new_env.spec_glen()
        &&& (old_env.spec_has_error() ==> new_env.spec_has_error())
    }

    /// How one evaluation step relates the error flag to the diagnostics:
    /// they only grow, they grow only when the flag is set, and a newly set
    /// flag comes with a new diagnostic.
    pub open spec fn diag_step<E: ErrorHandler>(
        old_env: &Env,
        new_env: &Env,
        old_err: &E,
        new_err: &E,
    ) -> bool {
        &&& old_err.diags().len() <= new_err.diags().len()
        &&& (!new_env.spec_has_error() ==> new_err.diags() == old_err.diags())
        &&& (new_env.spec_has_error() ==> old_env.spec_has_error() || new_err.diags().len()
            > old_err.diags().len())
    }

    /// Create a new environment with no bindings and an empty graph.
    pub fn new() -> (r: Env)
        ensures
            r.inv(),
            !r.spec_has_error(),
            r.spec_glen() == 0,
    {
        Env { has_error: false, variables: Bindings::new(), graph: Graph::new() }
    }

    /// Log an error message.
    pub fn error<E: ErrorHandler>(&mut self, err_handler: &mut E, pos: Span, msg: &str)
        requires
            old(self).inv(),
        ensures
            Env::step_ok(old(self), final(self)),
            Env::diag_step(old(self), final(self), old(err_handler), final(err_handler)),
            final(self).spec_has_error(),
            final(self).spec_glen() == old(self).spec_glen(),
            final(err_handler).diags() == old(err_handler).diags().push((pos, msg@)),
    {
        self.has_error = true;
        err_handler.handle(pos, msg);
    }

    /// Add a new audio processing node to the graph.
    pub fn new_node<E: ErrorHandler>(
        &mut self,
        err_handler: &mut E,
        pos: Span,
        node: NodeKind,
    ) -> (r: Result<SignalRef, Failed>)
        requires
            old(self).inv(),
            forall|j: int|
                0 <= j < node.spec_inputs().len() ==> (#[trigger] node.spec_inputs()[j]).0 < old(
                    self,
                ).spec_glen(),
        ensures
            Env::step_ok(old(self), final(self)),
            Env::diag_step(old(self), final(self), old(err_handler), final(err_handler)),
            r is Err ==> final(self).spec_has_error(),
            r is Ok ==> final(self).spec_has_error() == old(self).spec_has_error(),
            old(self).spec_glen() < u32::MAX - 1 ==> r is Ok,
            r matches Ok(s) ==> s.0 == old(self).spec_glen() && final(self).spec_glen() == old(
                self,
            ).spec_glen() + 1,
    {
        if self.graph.len() >= (u32::MAX - 1) as usize {
            self.error(err_handler, pos, "audio graph is too large");
            return Err(Failed);
        }
        let ghost old_glen = self.spec_glen();
        let r = self.graph.add(node);
        proof {
            assert forall|k: int|
                0 <= k < self.variables.spec_entries().len() implies (
            match #[trigger] self.variables.spec_entries()[k].1 {
                Binding::Bound(ref v) => value_ok(v, self.spec_glen()),
                Binding::Poisoned => true,
            }) by {
                assert(match self.variables.spec_entries()[k].1 {
                    Binding::Bound(ref v) => value_ok(v, old_glen),
                    Binding::Poisoned => true,
                });
            }
        }
        Ok(r)
    }

    /// Discard the environment and return the created graph, unless any
    /// error was reported.
    pub fn into_graph(self) -> (r: Option<Graph>)
        requires
            self.inv(),
        ensures
            r is Some <==> !self.spec_has_error(),
            r matches Some(g) ==> g.wf() && g.spec_nodes().len() == self.spec_glen(),
    {
        if self.has_error {
            None
        } else {
            Some(self.graph)
        }
    }

    /// Evaluate an s-expression, labelling the result with its span.
    pub fn evaluate<E: ErrorHandler>(&mut self, err_handler: &mut E, expr: &SExpr) -> (r:
        EvalResult<Value>)
        requires
            old(self).inv(),
            expr.wf(),
        ensures
            Env::step_ok(old(self), final(self)),
            Env::diag_step(old(self), final(self), old(err_handler), final(err_handler)),
            r.0.pos == expr.pos,
            r.1 is Err ==> final(self).spec_has_error(),
            r.1 matches Err(e) ==> e is Failed,
            r.1 matches Ok(v) ==> value_ok(&v, final(self).spec_glen()),
            (match expr.content {
                Content::Integer(u, n) => r.1 matches Ok(v) && v.1 == u && v.0 == Data::Int(n),
                Content::Float(u, ref num) => r.1 matches Ok(v) && v.1 == u && (match v.0 {
                    Data::Float(ref m) => m.model() == num.model(),
                    _ => false,
                }),
                Content::Symbol(ref name) => (match spec_find(old(self).spec_vars(), name@) {
                    Some(k) => (match old(self).spec_vars()[k].1 {
                        Binding::Bound(ref b) => r.1 matches Ok(v) && spec_value_eq(&v, &b),
                        Binding::Poisoned => r.1 is Err,
                    }),
                    None => r.1 is Err && final(err_handler).diags() == old(
                        err_handler,
                    ).diags().push((expr.pos, "undefined symbol: \""@ + name@ + "\""@)),
                }),
                Content::List(ref items) => items@.len() == 0 ==> (r.1 is Err
                    && final(err_handler).diags() == old(err_handler).diags().push(
                    (expr.pos, "empty program"@),
                )),
            }),
            (r.1 is Ok && spec_define_name(expr) is Some) ==> (match spec_find(
                final(self).spec_vars(),
                spec_define_name(expr)->Some_0,
            ) {
                Some(k) => final(self).spec_vars()[k].1 is Bound,
                None => false,
            }),
            (is_noise_form(expr) && old(self).spec_glen() < u32::MAX - 1) ==> (r.1 matches Ok(v)
                && v.0 == Data::Signal(SignalRef(old(self).spec_glen() as u32)) && v.1
                == spec_volt() && final(self).spec_glen() == old(self).spec_glen() + 1
                && final(self).spec_has_error() == old(self).spec_has_error()),
        decreases *expr, 3int,
    {
        let label = ValueLabel { pos: expr.pos, name: None, index: 0 };
        match self.evaluate_impl(err_handler, expr) {
            Ok(v) => EvalResult(label, Ok(v)),
            Err(Failed) => EvalResult(label, Err(ValueError::Failed)),
        }
    }

    /// Evaluate an s-expression: a symbol looks a binding up, a number is
    /// itself, and a list applies an operator.
    #[verifier::loop_isolation(false)]
    pub fn evaluate_impl<E: ErrorHandler>(&mut self, err_handler: &mut E, expr: &SExpr) -> (r:
        Result<Value, Failed>)
        requires
            old(self).inv(),
            expr.wf(),
        ensures
            Env::step_ok(old(self), final(self)),
            Env::diag_step(old(self), final(self), old(err_handler), final(err_handler)),
            r is Err ==> final(self).spec_has_error(),
            r matches Ok(v) ==> value_ok(&v, final(self).spec_glen()),
            (match expr.content {
                Content::Integer(u, n) => r matches Ok(v) && v.1 == u && v.0 == Data::Int(n),
                Content::Float(u, ref num) => r matches Ok(v) && v.1 == u && (match v.0 {
                    Data::Float(ref m) => m.model() == num.model(),
                    _ => false,
                }),
                Content::Symbol(ref name) => (match spec_find(old(self).spec_vars(), name@) {
                    Some(k) => (match old(self).spec_vars()[k].1 {
                        Binding::Bound(ref b) => r matches Ok(v) && spec_value_eq(&v, &b),
                        Binding::Poisoned => r is Err,
                    }),
                    None => r is Err && final(err_handler).diags() == old(
                        err_handler,
                    ).diags().push(
                        (expr.pos, "undefined symbol: \""@ + name@ + "\""@),
                    ),
                }),
                Content::List(ref items) => items@.len() == 0 ==> (r is Err
                    && final(err_handler).diags() == old(err_handler).diags().push(
                    (expr.pos, "empty program"@),
                )),
            }),
            (match spec_head_name(expr) {
                Some(h) => spec_operator(h) is None ==> (r is Err
                    && final(err_handler).diags() == old(err_handler).diags().push(
                    (spec_head_pos(expr), "undefined function or macro: \""@ + h + "\""@),
                )),
                None => true,
            }),
            (r is Ok && spec_define_name(expr) is Some) ==> (match spec_find(
                final(self).spec_vars(),
                spec_define_name(expr)->Some_0,
            ) {
                Some(k) => final(self).spec_vars()[k].1 is Bound,
                None => false,
            }),
            (is_noise_form(expr) && old(self).spec_glen() < u32::MAX - 1) ==> (r matches Ok(v)
                && v.0 == Data::Signal(SignalRef(old(self).spec_glen() as u32)) && v.1
                == spec_volt() && final(self).spec_glen() == old(self).spec_glen() + 1
                && final(self).spec_has_error() == old(self).spec_has_error()),
        decreases *expr, 2int,
    {
        let pos = expr.pos;
        match &expr.content {
            Content::Symbol(name) => {
                match self.variables.get(name.as_str()) {
                    Some(Ok(value)) => {
                        proof {
                            lemma_spec_find_range(self.variables.spec_entries(), name@);
                            let k = spec_find(
                                self.variables.spec_entries(),
                                name@,
                            )->Some_0;
                            assert(match self.variables.spec_entries()[k].1 {
                                Binding::Bound(ref b) => value_ok(b, self.spec_glen()),
                                Binding::Poisoned => true,
                            });
                        }
                        Ok(value)
                    },
                    Some(Err(Failed)) => {
                        proof {
                            // A failure marker can only have been bound after
                            // an error was reported.
                            lemma_spec_find_range(self.variables.spec_entries(), name@);
                            let k = spec_find(self.variables.spec_entries(), name@)->Some_0;
                            assert(self.variables.spec_entries()[k].1 is Poisoned);
                            assert(self.variables.any_poisoned());
                        }
                        Err(Failed)
                    },
                    None => {
                        let mut m = String::from_str("undefined symbol: \"");
                        m.append(name.as_str());
                        m.append("\"");
                        self.error(err_handler, pos, m.as_str());
                        Err(Failed)
                    },
                }
            },
            Content::Integer(units, num) => Ok(Value(Data::Int(*num), *units)),
            Content::Float(units, num) => Ok(Value(Data::Float(dup_number(num)), *units)),
            Content::List(items) => {
                if items.len() == 0 {
                    self.error(err_handler, pos, "empty program");
                    return Err(Failed);
                }
                proof {
                    lemma_all_items_wf(items@, 0);
                    assert(decreases_to!(items@ => items@[0]));
                }
                let name: &str = match &items[0].content {
                    Content::Symbol(name) => name.as_str(),
                    _ => {
                        self.error(err_handler, pos, "function or macro name must be a symbol");
                        return Err(Failed);
                    },
                };
                let oppos = items[0].pos;
                proof {
                    if is_noise_form(expr) {
                        // The names before `noise` in the operator table all
                        // have other lengths.
                        reveal_strlit("noise");
                        reveal_strlit("define");
                        reveal_strlit("envelope");
                        reveal_strlit("*");
                        reveal_strlit("note");
                        reveal_strlit("oscillator");
                        reveal_strlit("sawtooth");
                        reveal_strlit("sine");
                        assert("noise"@.len() == 5);
                        assert("define"@.len() == 6);
                        assert("envelope"@.len() == 8);
                        assert("*"@.len() == 1);
                        assert("note"@.len() == 4);
                        assert("oscillator"@.len() == 10);
                        assert("sawtooth"@.len() == 8);
                        assert("sine"@.len() == 4);
                    }
                }
                let op = match lookup_operator(name) {
                    Some(x) => x,
                    None => {
                        let mut m = String::from_str("undefined function or macro: \"");
                        m.append(name);
                        m.append("\"");
                        self.error(err_handler, oppos, m.as_str());
                        return Err(Failed);
                    },
                };
                match op {
                    Operator::Macro(MacroOp::Define) => self.eval_define(err_handler, expr),
                    Operator::Macro(MacroOp::Envelope) => self.eval_envelope(err_handler, expr),
                    Operator::Function(f) => {
                        let mut values: Vec<EvalResult<Value>> = Vec::new();
                        let mut i: usize = 1;
                        while i < items.len()
                            invariant
                                1 <= i <= items@.len(),
                                values@.len() == i - 1,
                                i == 1 ==> (self.spec_glen() == old(self).spec_glen()
                                    && self.spec_has_error() == old(self).spec_has_error()
                                    && self.spec_vars() == old(self).spec_vars()
                                    && err_handler.diags() == old(err_handler).diags()),
                                self.inv(),
                                old(self).spec_glen() <= self.spec_glen(),
                                old(self).spec_has_error() ==> self.spec_has_error(),
                                Env::diag_step(old(self), &self, old(err_handler), &err_handler),
                                forall|k: int|
                                    0 <= k < values@.len() ==> ((#[trigger] values@[k].1) is Err
                                        ==> self.spec_has_error()),
                                forall|k: int|
                                    0 <= k < values@.len()
                                        ==> ((#[trigger] values@[k].1) matches Ok(v) ==> value_ok(
                                        &v,
                                        self.spec_glen(),
                                    )),
                            decreases items@.len() - i,
                        {
                            proof {
                                assert(decreases_to!(items@ => items@[i as int]));
                                assert(items@[i as int].wf());
                            }
                            let ghost pre = self.spec_glen();
                            let v = self.evaluate(err_handler, &items[i]);
                            proof {
                                assert(forall|k: int|
                                    0 <= k < values@.len()
                                        ==> ((#[trigger] values@[k].1) matches Ok(v) ==> value_ok(
                                        &v,
                                        self.spec_glen(),
                                    )));
                            }
                            values.push(v);
                            i = i + 1;
                        }
                        proof {
                            // The witness form's head resolves to the noise
                            // operator, with no arguments and the graph
                            // untouched so far.
                            if is_noise_form(expr) {
                                assert(name@ == "noise"@);
                                assert(spec_operator(name@) == Some(
                                    Operator::Function(FuncOp::Noise),
                                ));
                                assert(f == FuncOp::Noise);
                                assert(values@.len() == 0);
                                assert(self.spec_glen() == old(self).spec_glen());
                                assert(self.spec_has_error() == old(self).spec_has_error());
                            }
                        }
                        self.dispatch(err_handler, f, pos, oppos, name, values)
                    },
                }
            },
        }
    }
}

/// The message for a call with the wrong number of arguments.
pub open spec fn invalid_call_text(
    name: Seq<char>,
    got: usize,
    min: usize,
    max: Option<usize>,
) -> Seq<char> {
    "invalid call to "@ + name + ": "@ + op_error_text(OpError::BadNArgs { got, min, max })
}

/// The message for a pairwise operator called with an odd count where an
/// even one is needed, or the other way around.
pub open spec fn parity_text(got: usize, even: bool) -> Seq<char> {
    "got "@ + count_text(got as int) + (if even {
        " arguments, expected an even number"@
    } else {
        " arguments, expected an odd number"@
    })
}

/// The name a `define` form binds: for a three-item list whose head is the
/// symbol `define` and whose second item is a symbol, that symbol.
pub open spec fn spec_define_name(expr: &SExpr) -> Option<Seq<char>> {
    match expr.content {
        Content::List(ref items) => {
            if items@.len() == 3 && (match items@[0].content {
                Content::Symbol(ref h) => h@ == "define"@,
                _ => false,
            }) {
                match items@[1].content {
                    Content::Symbol(ref n) => Some(n@),
                    _ => None,
                }
            } else {
                None
            }
        },
        _ => None,
    }
}

/// The head symbol of a non-empty list form, if it is a symbol.
pub open spec fn spec_head_name(expr: &SExpr) -> Option<Seq<char>> {
    match expr.content {
        Content::List(ref items) => {
            if items@.len() >= 1 {
                match items@[0].content {
                    Content::Symbol(ref h) => Some(h@),
                    _ => None,
                }
            } else {
                None
            }
        },
        _ => None,
    }
}

/// The span of a non-empty list form's head.
pub open spec fn spec_head_pos(expr: &SExpr) -> Span {
    match expr.content {
        Content::List(ref items) => items@[0].pos,
        _ => expr.pos,
    }
}

/// True for the one-item list whose head is the symbol `noise`: the
/// simplest form that always evaluates to a signal.
pub open spec fn is_noise_form(expr: &SExpr) -> bool {
    match expr.content {
        Content::List(ref items) => items@.len() == 1 && (match items@[0].content {
            Content::Symbol(ref h) => h@ == "noise"@,
            _ => false,
        }),
        _ => false,
    }
}

/// The units of a product chain over evaluated arguments: the first
/// argument's units multiplied by each later argument's in turn; nothing
/// where an argument failed, is no signal, or a component overflows.
pub open spec fn spec_product_units(values: Seq<EvalResult<Value>>, upto: int) -> Option<Units>
    decreases upto,
{
    if upto <= 0 || upto > values.len() {
        None
    } else if upto == 1 {
        match values[0].1 {
            Ok(v) => if v.0 is Signal {
                Some(v.1)
            } else {
                None
            },
            Err(_) => None,
        }
    } else {
        match spec_product_units(values, upto - 1) {
            None => None,
            Some(u) => match values[upto - 1].1 {
                Ok(v) => if v.0 is Signal && u.spec_multiply_fits(&v.1) {
                    Some(u.spec_multiply(&v.1))
                } else {
                    None
                },
                Err(_) => None,
            },
        }
    }
}

/// The units each fixed-unit operator returns.
pub open spec fn spec_volt() -> Units {
    Units { volt: 1i8, second: 0i8, radian: 0i8, decibel: 0i8 }
}

/// Units of hertz.
pub open spec fn spec_hertz() -> Units {
    Units { volt: 0i8, second: -1i8, radian: 0i8, decibel: 0i8 }
}

/// Units of radians.
pub open spec fn spec_radian() -> Units {
    Units { volt: 0i8, second: 0i8, radian: 1i8, decibel: 0i8 }
}

impl Env {
    /// Report that interpreting an argument failed, naming the argument.
    fn report_invalid<E: ErrorHandler>(
        &mut self,
        err_handler: &mut E,
        pos: Span,
        name: &str,
        e: &ValueError,
    ) -> (r: Result<Value, Failed>)
        requires
            old(self).inv(),
            *e is Failed ==> old(self).spec_has_error(),
        ensures
            Env::step_ok(old(self), final(self)),
            Env::diag_step(old(self), final(self), old(err_handler), final(err_handler)),
            final(self).spec_glen() == old(self).spec_glen(),
            final(self).spec_has_error(),
            *e is Failed ==> final(err_handler).diags() == old(err_handler).diags(),
            !(*e is Failed) ==> final(err_handler).diags() == old(err_handler).diags().push(
                (pos, "invalid value for "@ + name@ + ": "@ + value_error_text(*e)),
            ),
            r is Err,
    {
        match e {
            ValueError::Failed => {},
            _ => {
                let mut m = String::from_str("invalid value for ");
                m.append(name);
                m.append(": ");
                let emsg = e.to_string();
                m.append(emsg.as_str());
                self.error(err_handler, pos, m.as_str());
            },
        }
        Err(Failed)
    }

    /// Report a call with the wrong number of arguments.
    fn report_bad_nargs<E: ErrorHandler>(
        &mut self,
        err_handler: &mut E,
        oppos: Span,
        name: &str,
        got: usize,
        min: usize,
        max: Option<usize>,
    ) -> (r: Result<Value, Failed>)
        requires
            old(self).inv(),
        ensures
            Env::step_ok(old(self), final(self)),
            Env::diag_step(old(self), final(self), old(err_handler), final(err_handler)),
            final(self).spec_glen() == old(self).spec_glen(),
            final(self).spec_has_error(),
            final(err_handler).diags() == old(err_handler).diags().push(
                (oppos, invalid_call_text(name@, got, min, max)),
            ),
            r is Err,
    {
        let mut m = String::from_str("invalid call to ");
        m.append(name);
        m.append(": ");
        let e = OpError::BadNArgs { got, min, max };
        let emsg = e.to_string();
        m.append(emsg.as_str());
        self.error(err_handler, oppos, m.as_str());
        Err(Failed)
    }

    /// Evaluate a `define` form: bind a new name to a non-void value.
    pub fn eval_define<E: ErrorHandler>(&mut self, err_handler: &mut E, expr: &SExpr) -> (r: Result<
        Value,
        Failed,
    >)
        requires
            old(self).inv(),
            expr.wf(),
            expr.content matches Content::List(l) && l@.len() >= 1,
        ensures
            Env::step_ok(old(self), final(self)),
            Env::diag_step(old(self), final(self), old(err_handler), final(err_handler)),
            r is Err ==> final(self).spec_has_error(),
            r matches Ok(v) ==> value_ok(&v, final(self).spec_glen()) && v.0 is Void,
            (r is Ok && spec_define_name(expr) is Some) ==> (match spec_find(
                final(self).spec_vars(),
                spec_define_name(expr)->Some_0,
            ) {
                Some(k) => final(self).spec_vars()[k].1 is Bound,
                None => false,
            }),
        decreases *expr, 1int,
    {
        let items = match &expr.content {
            Content::List(items) => items,
            _ => {
                return Err(Failed);
            },
        };
        proof {
            lemma_all_items_wf(items@, 0);
        }
        if items.len() != 3 {
            let got = items.len() - 1;
            return self.report_bad_nargs(err_handler, expr.pos, "define", got, 2, Some(2));
        }
        proof {
            assert(decreases_to!(items@ => items@[1]));
            assert(decreases_to!(items@ => items@[2]));
        }
        // The name to bind.
        let name: Result<String, Failed> = match &items[1].content {
            Content::Symbol(s) => {
                if self.variables.contains(s.as_str()) {
                    let mut m = String::from_str("a variable named \"");
                    m.append(s.as_str());
                    m.append("\" is already defined");
                    self.error(err_handler, items[1].pos, m.as_str());
                    Err(Failed)
                } else {
                    Ok(s.as_str().to_owned())
                }
            },
            _ => {
                let e = ValueError::BadEType {
                    got: match items[1].content {
                        Content::Symbol(_) => crate::sexpr::Type::Symbol,
                        Content::Integer(_, _) => crate::sexpr::Type::Integer,
                        Content::Float(_, _) => crate::sexpr::Type::Float,
                        Content::List(_) => crate::sexpr::Type::List,
                    },
                    expect: crate::sexpr::Type::Symbol,
                };
                let _ = self.report_invalid(err_handler, items[1].pos, "name", &e);
                Err(Failed)
            },
        };
        // The value, evaluated even when the name is bad so that its own
        // errors still surface.
        let value = self.evaluate_impl(err_handler, &items[2]);
        let value = match value {
            Ok(v) => {
                match v.into_nonvoid() {
                    Ok(v) => Ok(v),
                    Err(e) => {
                        let _ = self.report_invalid(err_handler, items[2].pos, "value", &e);
                        Err(Failed)
                    },
                }
            },
            Err(Failed) => Err(Failed),
        };
        let name = match name {
            Ok(n) => n,
            Err(Failed) => {
                return Err(Failed);
            },
        };
        match value {
            Ok(v) => {
                let ghost before = self.variables.spec_entries();
                self.variables.insert(name, Binding::Bound(v));
                proof {
                    assert(self.variables.ok_for(self.spec_glen()));
                    // The new binding is no failure marker, so any marker is
                    // an old one, which came with an error already set.
                    if self.variables.any_poisoned() {
                        let k = choose|k: int|
                            0 <= k < self.variables.spec_entries().len() && (
                            #[trigger] self.variables.spec_entries()[k].1 is Poisoned);
                        assert(k < before.len());
                        assert(before[k].1 is Poisoned);
                    }
                }
                Ok(Value::void())
            },
            Err(Failed) => {
                // An error was reported while the value was evaluated, so a
                // failure marker may be bound.
                self.variables.insert(name, Binding::Poisoned);
                proof {
                    assert(self.variables.ok_for(self.spec_glen()));
                }
                Err(Failed)
            },
        }
    }

    /// Evaluate an `envelope` form: each argument is a segment form, and
    /// the whole becomes one envelope node producing a scalar signal.
    #[verifier::loop_isolation(false)]
    pub fn eval_envelope<E: ErrorHandler>(&mut self, err_handler: &mut E, expr: &SExpr) -> (r: Result<
        Value,
        Failed,
    >)
        requires
            old(self).inv(),
            expr.wf(),
            expr.content matches Content::List(l) && l@.len() >= 1,
        ensures
            Env::step_ok(old(self), final(self)),
            Env::diag_step(old(self), final(self), old(err_handler), final(err_handler)),
            r is Err ==> final(self).spec_has_error(),
            r matches Ok(v) ==> value_ok(&v, final(self).spec_glen()) && v.0 is Signal && v.1
                == Units::spec_scalar(),
        decreases *expr, 1int,
    {
        let items = match &expr.content {
            Content::List(items) => items,
            _ => {
                return Err(Failed);
            },
        };
        proof {
            lemma_all_items_wf(items@, 0);
        }
        let mut segments: Vec<Segment> = Vec::new();
        let mut failed = false;
        let mut i: usize = 1;
        while i < items.len()
            invariant
                1 <= i <= items@.len(),
                self.inv(),
                old(self).spec_glen() <= self.spec_glen(),
                old(self).spec_has_error() ==> self.spec_has_error(),
                Env::diag_step(old(self), &self, old(err_handler), &err_handler),
                failed ==> self.spec_has_error(),
            decreases items@.len() - i,
        {
            proof {
                assert(decreases_to!(items@ => items@[i as int]));
                assert(items@[i as int].wf());
            }
            match self.eval_segment(err_handler, &items[i]) {
                Ok(seg) => {
                    segments.push(seg);
                },
                Err(Failed) => {
                    failed = true;
                },
            }
            i = i + 1;
        }
        if failed {
            return Err(Failed);
        }
        let sig = self.new_node(err_handler, expr.pos, NodeKind::Envelope { segments })?;
        Ok(Value(Data::Signal(sig), Units::scalar()))
    }

    /// Evaluate one envelope segment form.
    #[verifier::loop_isolation(false)]
    pub fn eval_segment<E: ErrorHandler>(&mut self, err_handler: &mut E, expr: &SExpr) -> (r: Result<
        Segment,
        Failed,
    >)
        requires
            old(self).inv(),
            expr.wf(),
        ensures
            Env::step_ok(old(self), final(self)),
            Env::diag_step(old(self), final(self), old(err_handler), final(err_handler)),
            r is Err ==> final(self).spec_has_error(),
        decreases *expr, 0int,
    {
        let pos = expr.pos;
        let items = match &expr.content {
            Content::List(items) => items,
            Content::Symbol(_) => {
                self.error(err_handler, pos, "unexpected symbol in envelope");
                return Err(Failed);
            },
            _ => {
                self.error(err_handler, pos, "unexpected number in envelope");
                return Err(Failed);
            },
        };
        if items.len() == 0 {
            self.error(err_handler, pos, "cannot evaluate empty list");
            return Err(Failed);
        }
        proof {
            lemma_all_items_wf(items@, 0);
            assert(decreases_to!(items@ => items@[0]));
        }
        let name: &str = match &items[0].content {
            Content::Symbol(name) => name.as_str(),
            _ => {
                self.error(err_handler, pos, "envelope segment name must be a symbol");
                return Err(Failed);
            },
        };
        let oppos = items[0].pos;
        // Evaluate the arguments.
        let mut values: Vec<EvalResult<Value>> = Vec::new();
        let mut i: usize = 1;
        while i < items.len()
            invariant
                1 <= i <= items@.len(),
                self.inv(),
                old(self).spec_glen() <= self.spec_glen(),
                old(self).spec_has_error() ==> self.spec_has_error(),
                Env::diag_step(old(self), &self, old(err_handler), &err_handler),
                forall|k: int|
                    0 <= k < values@.len() ==> ((#[trigger] values@[k].1) is Err
                        ==> self.spec_has_error()),
            decreases items@.len() - i,
        {
            proof {
                assert(decreases_to!(items@ => items@[i as int]));
                assert(items@[i as int].wf());
            }
            let v = self.evaluate(err_handler, &items[i]);
            values.push(v);
            i = i + 1;
        }
        let nargs = values.len();
        if str_eq(name, "set") {
            if nargs != 1 {
                return self.segment_bad_nargs(err_handler, oppos, name, nargs, 1, 1);
            }
            let value = self.segment_float(err_handler, &values, 0, "value", Units::scalar())?;
            Ok(Segment::SetValue { value })
        } else if str_eq(name, "lin") {
            if nargs != 2 {
                return self.segment_bad_nargs(err_handler, oppos, name, nargs, 2, 2);
            }
            let time = self.segment_float(err_handler, &values, 0, "time", Units::second(1))?;
            let value = self.segment_float(err_handler, &values, 1, "value", Units::scalar())?;
            Ok(Segment::Linear { time, value })
        } else if str_eq(name, "exp") {
            if nargs != 2 {
                return self.segment_bad_nargs(err_handler, oppos, name, nargs, 2, 2);
            }
            let time = self.segment_float(err_handler, &values, 0, "time", Units::second(1))?;
            let value = self.segment_float(err_handler, &values, 1, "value", Units::scalar())?;
            Ok(Segment::Exponential { time_constant: time, value })
        } else if str_eq(name, "delay") {
            if nargs != 1 {
                return self.segment_bad_nargs(err_handler, oppos, name, nargs, 1, 1);
            }
            let time = self.segment_float(err_handler, &values, 0, "time", Units::second(1))?;
            Ok(Segment::Delay { time })
        } else if str_eq(name, "gate") {
            if nargs != 0 {
                return self.segment_bad_nargs(err_handler, oppos, name, nargs, 0, 0);
            }
            Ok(Segment::Sustain)
        } else if str_eq(name, "stop") {
            if nargs != 0 {
                return self.segment_bad_nargs(err_handler, oppos, name, nargs, 0, 0);
            }
            Ok(Segment::Stop)
        } else {
            let mut m = String::from_str("undefined envelope segment: \"");
            m.append(name);
            m.append("\"");
            self.error(err_handler, pos, m.as_str());
            Err(Failed)
        }
    }

    /// Report a segment form with the wrong number of arguments.
    fn segment_bad_nargs<E: ErrorHandler>(
        &mut self,
        err_handler: &mut E,
        oppos: Span,
        name: &str,
        got: usize,
        min: usize,
        max: usize,
    ) -> (r: Result<Segment, Failed>)
        requires
            old(self).inv(),
        ensures
            Env::step_ok(old(self), final(self)),
            Env::diag_step(old(self), final(self), old(err_handler), final(err_handler)),
            final(self).spec_has_error(),
            final(err_handler).diags() == old(err_handler).diags().push(
                (oppos, "invalid segment "@ + name@ + ": "@ + op_error_text(
                    OpError::BadNArgs { got, min, max: Some(max) },
                )),
            ),
            r is Err,
    {
        let mut m = String::from_str("invalid segment ");
        m.append(name);
        m.append(": ");
        let e = OpError::BadNArgs { got, min, max: Some(max) };
        let emsg = e.to_string();
        m.append(emsg.as_str());
        self.error(err_handler, oppos, m.as_str());
        Err(Failed)
    }

    /// Interpret one evaluated segment argument as a number of the given
    /// units.
    fn segment_float<E: ErrorHandler>(
        &mut self,
        err_handler: &mut E,
        values: &Vec<EvalResult<Value>>,
        k: usize,
        name: &str,
        units: Units,
    ) -> (r: Result<ParsedNumber, Failed>)
        requires
            old(self).inv(),
            k < values@.len(),
            values@[k as int].1 is Err ==> old(self).spec_has_error(),
        ensures
            Env::step_ok(old(self), final(self)),
            Env::diag_step(old(self), final(self), old(err_handler), final(err_handler)),
            final(self).spec_glen() == old(self).spec_glen(),
            r is Err ==> final(self).spec_has_error(),
    {
        let apos = values[k].0.pos;
        match &values[k].1 {
            Ok(v) => {
                match v.dup().into_float(units) {
                    Ok(n) => Ok(n),
                    Err(e) => {
                        let _ = self.report_invalid(err_handler, apos, name, &e);
                        Err(Failed)
                    },
                }
            },
            Err(e) => {
                let _ = self.report_invalid(err_handler, apos, name, &e.dup_error());
                Err(Failed)
            },
        }
    }
}

impl ValueError {
    /// An identical copy of the error.
    fn dup_error(&self) -> (r: ValueError)
        ensures
            r == *self,
    {
        *self
    }
}

impl Env {
    /// Interpret one evaluated argument, reporting its label on failure.
    fn take_arg(values: &Vec<EvalResult<Value>>, k: usize) -> (r: (Span, Result<
        Value,
        ValueError,
    >))
        requires
            k < values@.len(),
        ensures
            r.1 matches Ok(v) ==> (values@[k as int].1 matches Ok(b) && spec_value_eq(&v, &b)),
            r.1 matches Err(e) ==> (values@[k as int].1 matches Err(e0) && e == e0),
            r.1 is Ok <==> values@[k as int].1 is Ok,
    {
        let apos = values[k].0.pos;
        match &values[k].1 {
            Ok(v) => (apos, Ok(v.dup())),
            Err(e) => (apos, Err(e.dup_error())),
        }
    }

    /// Coerce an argument to a phase signal: a signal in radians is itself,
    /// and a signal in hertz is integrated by a fresh oscillator node.
    fn into_phase<E: ErrorHandler>(
        &mut self,
        err_handler: &mut E,
        pos: Span,
        apos: Span,
        name: &str,
        arg: Result<Value, ValueError>,
    ) -> (r: Result<SignalRef, Failed>)
        requires
            old(self).inv(),
            arg matches Ok(v) ==> value_ok(&v, old(self).spec_glen()),
            arg matches Err(e) ==> (e is Failed ==> old(self).spec_has_error()),
        ensures
            Env::step_ok(old(self), final(self)),
            Env::diag_step(old(self), final(self), old(err_handler), final(err_handler)),
            r is Err ==> final(self).spec_has_error(),
            r matches Ok(s) ==> s.0 < final(self).spec_glen(),
    {
        let v = match arg {
            Ok(v) => v,
            Err(e) => {
                let _ = self.report_invalid(err_handler, apos, name, &e);
                return Err(Failed);
            },
        };
        match v.into_any_signal() {
            Ok((sig, units)) => {
                if units.volt == 0 && units.second == 0 && units.radian == 1 && units.decibel
                    == 0 {
                    Ok(sig)
                } else if units.volt == 0 && units.second == -1 && units.radian == 0
                    && units.decibel == 0 {
                    // A frequency becomes a phase through an oscillator.
                    self.new_node(err_handler, pos, NodeKind::Oscillator { frequency: sig })
                } else {
                    let e = ValueError::BadType {
                        got: Type(DataType::Signal, Some(units)),
                        expect: Type(DataType::Signal, Some(Units::radian(1))),
                    };
                    let _ = self.report_invalid(err_handler, apos, name, &e);
                    Err(Failed)
                }
            },
            Err(e) => {
                let _ = self.report_invalid(err_handler, apos, name, &e);
                Err(Failed)
            },
        }
    }

    /// Interpret an argument as a signal of the given units.
    fn arg_signal<E: ErrorHandler>(
        &mut self,
        err_handler: &mut E,
        values: &Vec<EvalResult<Value>>,
        k: usize,
        name: &str,
        units: Units,
    ) -> (r: Result<SignalRef, Failed>)
        requires
            old(self).inv(),
            k < values@.len(),
            values@[k as int].1 is Err ==> old(self).spec_has_error(),
            forall|j: int|
                0 <= j < values@.len() ==> ((#[trigger] values@[j].1) matches Ok(v) ==> value_ok(
                    &v,
                    old(self).spec_glen(),
                )),
        ensures
            Env::step_ok(old(self), final(self)),
            Env::diag_step(old(self), final(self), old(err_handler), final(err_handler)),
            final(self).spec_glen() == old(self).spec_glen(),
            r is Err ==> final(self).spec_has_error(),
            r matches Ok(s) ==> s.0 < final(self).spec_glen(),
    {
        let (apos, arg) = Self::take_arg(values, k);
        let v = match arg {
            Ok(v) => v,
            Err(e) => {
                let _ = self.report_invalid(err_handler, apos, name, &e);
                return Err(Failed);
            },
        };
        match v.into_signal(units) {
            Ok(sig) => Ok(sig),
            Err(e) => {
                let _ = self.report_invalid(err_handler, apos, name, &e);
                Err(Failed)
            },
        }
    }

    /// Interpret an argument as a number of the given units.
    fn arg_float<E: ErrorHandler>(
        &mut self,
        err_handler: &mut E,
        values: &Vec<EvalResult<Value>>,
        k: usize,
        name: &str,
        units: Units,
    ) -> (r: Result<ParsedNumber, Failed>)
        requires
            old(self).inv(),
            k < values@.len(),
            values@[k as int].1 is Err ==> old(self).spec_has_error(),
        ensures
            Env::step_ok(old(self), final(self)),
            Env::diag_step(old(self), final(self), old(err_handler), final(err_handler)),
            final(self).spec_glen() == old(self).spec_glen(),
            r is Err ==> final(self).spec_has_error(),
    {
        let (apos, arg) = Self::take_arg(values, k);
        let v = match arg {
            Ok(v) => v,
            Err(e) => {
                let _ = self.report_invalid(err_handler, apos, name, &e);
                return Err(Failed);
            },
        };
        match v.into_float(units) {
            Ok(n) => Ok(n),
            Err(e) => {
                let _ = self.report_invalid(err_handler, apos, name, &e);
                Err(Failed)
            },
        }
    }

    /// Interpret an argument as a gain.
    fn arg_gain<E: ErrorHandler>(
        &mut self,
        err_handler: &mut E,
        values: &Vec<EvalResult<Value>>,
        k: usize,
        name: &str,
    ) -> (r: Result<Gain, Failed>)
        requires
            old(self).inv(),
            k < values@.len(),
            values@[k as int].1 is Err ==> old(self).spec_has_error(),
        ensures
            Env::step_ok(old(self), final(self)),
            Env::diag_step(old(self), final(self), old(err_handler), final(err_handler)),
            final(self).spec_glen() == old(self).spec_glen(),
            r is Err ==> final(self).spec_has_error(),
    {
        let (apos, arg) = Self::take_arg(values, k);
        let v = match arg {
            Ok(v) => v,
            Err(e) => {
                let _ = self.report_invalid(err_handler, apos, name, &e);
                return Err(Failed);
            },
        };
        match v.into_gain() {
            Ok(g) => Ok(g),
            Err(e) => {
                let _ = self.report_invalid(err_handler, apos, name, &e);
                Err(Failed)
            },
        }
    }

    /// Dispatch one function call on its evaluated arguments. The result,
    /// when there is one, is a signal with the units the operator is
    /// declared with.
    #[verifier::loop_isolation(false)]
    #[verifier::rlimit(100)]
    pub fn dispatch<E: ErrorHandler>(
        &mut self,
        err_handler: &mut E,
        f: FuncOp,
        pos: Span,
        oppos: Span,
        name: &str,
        values: Vec<EvalResult<Value>>,
    ) -> (r: Result<Value, Failed>)
        requires
            old(self).inv(),
            forall|j: int|
                0 <= j < values@.len() ==> ((#[trigger] values@[j].1) is Err ==> old(
                    self,
                ).spec_has_error()),
            forall|j: int|
                0 <= j < values@.len() ==> ((#[trigger] values@[j].1) matches Ok(v) ==> value_ok(
                    &v,
                    old(self).spec_glen(),
                )),
        ensures
            Env::step_ok(old(self), final(self)),
            Env::diag_step(old(self), final(self), old(err_handler), final(err_handler)),
            r is Err ==> final(self).spec_has_error(),
            r matches Ok(v) ==> value_ok(&v, final(self).spec_glen()) && (match f {
                FuncOp::Note | FuncOp::Frequency => v.0 is Signal && v.1 == spec_hertz(),
                FuncOp::Oscillator | FuncOp::PhaseMod | FuncOp::Overtone => v.0 is Signal && v.1
                    == spec_radian(),
                FuncOp::Sine | FuncOp::Sawtooth | FuncOp::Saturate | FuncOp::Rectify
                    | FuncOp::Noise | FuncOp::Mix | FuncOp::HighPass | FuncOp::LowPass2
                    | FuncOp::HighPass2 | FuncOp::BandPass2 | FuncOp::LowPass4 => v.0 is Signal
                    && v.1 == spec_volt(),
                FuncOp::Multiply => v.0 is Signal && spec_product_units(
                    values@,
                    values@.len() as int,
                ) == Some(v.1),
            }),
            (match f {
                FuncOp::Note | FuncOp::Oscillator | FuncOp::Sine | FuncOp::Sawtooth
                    | FuncOp::Saturate | FuncOp::Rectify | FuncOp::Frequency => values@.len() != 1
                    ==> (r is Err && final(err_handler).diags() == old(err_handler).diags().push(
                    (oppos, invalid_call_text(name@, values@.len() as usize, 1, Some(1usize))),
                )),
                FuncOp::Noise => values@.len() != 0 ==> (r is Err
                    && final(err_handler).diags() == old(err_handler).diags().push(
                    (oppos, invalid_call_text(name@, values@.len() as usize, 0, Some(0usize))),
                )),
                FuncOp::HighPass | FuncOp::Overtone => values@.len() != 2 ==> (r is Err
                    && final(err_handler).diags() == old(err_handler).diags().push(
                    (oppos, invalid_call_text(name@, values@.len() as usize, 2, Some(2usize))),
                )),
                FuncOp::LowPass2 | FuncOp::HighPass2 | FuncOp::BandPass2 | FuncOp::LowPass4 => (
                values@.len() != 3 ==> (r is Err && final(err_handler).diags() == old(
                    err_handler,
                ).diags().push(
                    (oppos, invalid_call_text(name@, values@.len() as usize, 3, Some(3usize))),
                ))),
                FuncOp::Multiply => values@.len() == 0 ==> (r is Err
                    && final(err_handler).diags() == old(err_handler).diags().push(
                    (oppos, invalid_call_text(name@, 0, 1, None::<usize>)),
                )),
                FuncOp::Mix => values@.len() % 2 == 1 ==> (r is Err
                    && final(err_handler).diags() == old(err_handler).diags().push(
                    (pos, parity_text(values@.len() as usize, true)),
                )),
                FuncOp::PhaseMod => values@.len() % 2 == 0 ==> (r is Err
                    && final(err_handler).diags() == old(err_handler).diags().push(
                    (pos, parity_text(values@.len() as usize, false)),
                )),
            }),
            (f == FuncOp::Noise && values@.len() == 0 && old(self).spec_glen() < u32::MAX - 1)
                ==> (r matches Ok(v) && v.0 == Data::Signal(
                SignalRef(old(self).spec_glen() as u32),
            ) && final(self).spec_glen() == old(self).spec_glen() + 1
                && final(self).spec_has_error() == old(self).spec_has_error()),
    {
        let nargs = values.len();
        match f {
            FuncOp::Note => {
                if nargs != 1 {
                    return self.report_bad_nargs(err_handler, oppos, name, nargs, 1, Some(1));
                }
                let (apos, arg) = Self::take_arg(&values, 0);
                let v = match arg {
                    Ok(v) => v,
                    Err(e) => {
                        return self.report_invalid(err_handler, apos, "offset", &e);
                    },
                };
                let n = match v.into_int() {
                    Ok(n) => n,
                    Err(e) => {
                        return self.report_invalid(err_handler, apos, "offset", &e);
                    },
                };
                if n < i32::MIN as i64 || n > i32::MAX as i64 {
                    self.error(err_handler, apos, "note offset does not fit 32 bits");
                    return Err(Failed);
                }
                let sig = self.new_node(
                    err_handler,
                    pos,
                    NodeKind::Note { offset: n as i32 },
                )?;
                Ok(Value(Data::Signal(sig), Units::hertz(1)))
            },
            FuncOp::Oscillator => {
                if nargs != 1 {
                    return self.report_bad_nargs(err_handler, oppos, name, nargs, 1, Some(1));
                }
                // A frequency is integrated into a phase; a signal that is
                // already a phase passes through unchanged.
                let (apos, arg) = Self::take_arg(&values, 0);
                let sig = self.into_phase(err_handler, pos, apos, "frequency", arg)?;
                Ok(Value(Data::Signal(sig), Units::radian(1)))
            },
            FuncOp::Sine | FuncOp::Sawtooth => {
                if nargs != 1 {
                    return self.report_bad_nargs(err_handler, oppos, name, nargs, 1, Some(1));
                }
                let (apos, arg) = Self::take_arg(&values, 0);
                let input = self.into_phase(err_handler, pos, apos, "input", arg)?;
                let function = if let FuncOp::Sine = f {
                    PointFunction::Sine
                } else {
                    PointFunction::Sawtooth
                };
                let sig = self.new_node(err_handler, pos, NodeKind::Apply { input, function })?;
                Ok(Value(Data::Signal(sig), Units::volt(1)))
            },
            FuncOp::Saturate | FuncOp::Rectify => {
                if nargs != 1 {
                    return self.report_bad_nargs(err_handler, oppos, name, nargs, 1, Some(1));
                }
                let input = self.arg_signal(err_handler, &values, 0, "input", Units::volt(1))?;
                let function = if let FuncOp::Saturate = f {
                    PointFunction::Saturate
                } else {
                    PointFunction::Rectify
                };
                let sig = self.new_node(err_handler, pos, NodeKind::Apply { input, function })?;
                Ok(Value(Data::Signal(sig), Units::volt(1)))
            },
            FuncOp::Noise => {
                if nargs != 0 {
                    return self.report_bad_nargs(err_handler, oppos, name, nargs, 0, Some(0));
                }
                let sig = self.new_node(err_handler, pos, NodeKind::Noise)?;
                Ok(Value(Data::Signal(sig), Units::volt(1)))
            },
            FuncOp::HighPass => {
                if nargs != 2 {
                    return self.report_bad_nargs(err_handler, oppos, name, nargs, 2, Some(2));
                }
                let frequency = self.arg_float(
                    err_handler,
                    &values,
                    0,
                    "frequency",
                    Units::hertz(1),
                )?;
                let input = self.arg_signal(err_handler, &values, 1, "input", Units::volt(1))?;
                let sig = self.new_node(
                    err_handler,
                    pos,
                    NodeKind::HighPass { input, frequency },
                )?;
                Ok(Value(Data::Signal(sig), Units::volt(1)))
            },
            FuncOp::LowPass2 | FuncOp::HighPass2 | FuncOp::BandPass2 | FuncOp::LowPass4 => {
                if nargs != 3 {
                    return self.report_bad_nargs(err_handler, oppos, name, nargs, 3, Some(3));
                }
                let input = self.arg_signal(err_handler, &values, 0, "input", Units::volt(1))?;
                let frequency = self.arg_signal(
                    err_handler,
                    &values,
                    1,
                    "frequency",
                    Units::hertz(1),
                )?;
                let q = self.arg_float(err_handler, &values, 2, "q", Units::scalar())?;
                let mode = match f {
                    FuncOp::LowPass2 => Mode::LowPass2,
                    FuncOp::HighPass2 => Mode::HighPass2,
                    FuncOp::BandPass2 => Mode::BandPass2,
                    _ => Mode::LowPass4,
                };
                let sig = self.new_node(
                    err_handler,
                    pos,
                    NodeKind::StateVariable { input, frequency, mode, q },
                )?;
                Ok(Value(Data::Signal(sig), Units::volt(1)))
            },
            FuncOp::Frequency => {
                if nargs != 1 {
                    return self.report_bad_nargs(err_handler, oppos, name, nargs, 1, Some(1));
                }
                let input = self.arg_signal(err_handler, &values, 0, "input", Units::scalar())?;
                let sig = self.new_node(err_handler, pos, NodeKind::Frequency { input })?;
                Ok(Value(Data::Signal(sig), Units::hertz(1)))
            },
            FuncOp::Multiply => {
                if nargs < 1 {
                    return self.report_bad_nargs(err_handler, oppos, name, nargs, 1, None);
                }
                let (apos, arg) = Self::take_arg(&values, 0);
                let first = match arg {
                    Ok(v) => v,
                    Err(e) => {
                        return self.report_invalid(err_handler, apos, "arg", &e);
                    },
                };
                let (mut sig, mut units) = match first.into_any_signal() {
                    Ok(x) => x,
                    Err(e) => {
                        return self.report_invalid(err_handler, apos, "arg", &e);
                    },
                };
                let mut k: usize = 1;
                let mut failed = false;
                proof {
                    assert(spec_product_units(values@, 1) == Some(units));
                }
                while k < nargs
                    invariant
                        1 <= k <= nargs,
                        nargs == values@.len(),
                        self.inv(),
                        old(self).spec_glen() <= self.spec_glen(),
                        old(self).spec_has_error() ==> self.spec_has_error(),
                        Env::diag_step(old(self), &self, old(err_handler), &err_handler),
                        failed ==> self.spec_has_error(),
                        !failed ==> spec_product_units(values@, k as int) == Some(units),
                        forall|j: int|
                            0 <= j < values@.len() ==> ((#[trigger] values@[j].1) matches Ok(v)
                                ==> value_ok(&v, self.spec_glen())),
                        sig.0 < self.spec_glen() || failed,
                    decreases nargs - k,
                {
                    let (apos2, arg2) = Self::take_arg(&values, k);
                    match arg2 {
                        Ok(v) => {
                            match v.into_any_signal() {
                                Ok((ysig, yunits)) => {
                                    match units.multiply(&yunits) {
                                        Ok(product) => {
                                            if !failed {
                                                match self.new_node(
                                                    err_handler,
                                                    pos,
                                                    NodeKind::Multiply { x: sig, y: ysig },
                                                ) {
                                                    Ok(s) => {
                                                        sig = s;
                                                        units = product;
                                                    },
                                                    Err(Failed) => {
                                                        failed = true;
                                                    },
                                                }
                                            }
                                        },
                                        Err(e) => {
                                            let mut m = String::from_str("could not multiply ");
                                            let xu = units.to_string();
                                            m.append(xu.as_str());
                                            m.append(" by ");
                                            let yu = yunits.to_string();
                                            m.append(yu.as_str());
                                            m.append(": ");
                                            m.append(e.message());
                                            self.error(err_handler, pos, m.as_str());
                                            failed = true;
                                        },
                                    }
                                },
                                Err(e) => {
                                    let _ = self.report_invalid(err_handler, apos2, "arg", &e);
                                    failed = true;
                                },
                            }
                        },
                        Err(e) => {
                            let _ = self.report_invalid(err_handler, apos2, "arg", &e);
                            failed = true;
                        },
                    }
                    k = k + 1;
                }
                if failed {
                    return Err(Failed);
                }
                Ok(Value(Data::Signal(sig), units))
            },
            FuncOp::Mix => {
                if nargs % 2 != 0 {
                    let mut m = String::from_str("got ");
                    append_usize(&mut m, nargs);
                    m.append(" arguments, expected an even number");
                    self.error(err_handler, pos, m.as_str());
                    return Err(Failed);
                }
                let mut out = self.new_node(err_handler, pos, NodeKind::Zero)?;
                let mut k: usize = 0;
                let mut failed = false;
                while 2 <= nargs && k <= nargs - 2
                    invariant
                        0 <= k <= nargs,
                        k % 2 == 0,
                        nargs == values@.len(),
                        self.inv(),
                        old(self).spec_glen() <= self.spec_glen(),
                        old(self).spec_has_error() ==> self.spec_has_error(),
                        Env::diag_step(old(self), &self, old(err_handler), &err_handler),
                        failed ==> self.spec_has_error(),
                        forall|j: int|
                            0 <= j < values@.len() ==> ((#[trigger] values@[j].1) matches Ok(v)
                                ==> value_ok(&v, self.spec_glen())),
                        out.0 < self.spec_glen(),
                    decreases nargs - k,
                {
                    let gain = self.arg_gain(err_handler, &values, k, "gain");
                    let signal = self.arg_signal(
                        err_handler,
                        &values,
                        k + 1,
                        "signal",
                        Units::volt(1),
                    );
                    match (gain, signal) {
                        (Ok(g), Ok(ysig)) => {
                            if !failed {
                                match self.new_node(
                                    err_handler,
                                    pos,
                                    NodeKind::Mix { base: out, input: ysig, gain: g },
                                ) {
                                    Ok(s) => {
                                        out = s;
                                    },
                                    Err(Failed) => {
                                        failed = true;
                                    },
                                }
                            }
                        },
                        _ => {
                            failed = true;
                        },
                    }
                    k = k + 2;
                }
                if failed {
                    return Err(Failed);
                }
                Ok(Value(Data::Signal(out), Units::volt(1)))
            },
            FuncOp::PhaseMod => {
                if nargs % 2 != 1 {
                    let mut m = String::from_str("got ");
                    append_usize(&mut m, nargs);
                    m.append(" arguments, expected an odd number");
                    self.error(err_handler, pos, m.as_str());
                    return Err(Failed);
                }
                let (apos, arg) = Self::take_arg(&values, 0);
                let mut out = self.into_phase(err_handler, pos, apos, "carrier", arg)?;
                let mut k: usize = 1;
                let mut failed = false;
                while 2 <= nargs && k <= nargs - 2
                    invariant
                        1 <= k <= nargs,
                        k % 2 == 1,
                        nargs == values@.len(),
                        self.inv(),
                        old(self).spec_glen() <= self.spec_glen(),
                        old(self).spec_has_error() ==> self.spec_has_error(),
                        Env::diag_step(old(self), &self, old(err_handler), &err_handler),
                        failed ==> self.spec_has_error(),
                        forall|j: int|
                            0 <= j < values@.len() ==> ((#[trigger] values@[j].1) matches Ok(v)
                                ==> value_ok(&v, self.spec_glen())),
                        out.0 < self.spec_glen(),
                    decreases nargs - k,
                {
                    let gain = self.arg_gain(err_handler, &values, k, "gain");
                    let modulator = self.arg_signal(
                        err_handler,
                        &values,
                        k + 1,
                        "modulator",
                        Units::volt(1),
                    );
                    match (gain, modulator) {
                        (Ok(g), Ok(ysig)) => {
                            if !failed {
                                match self.new_node(
                                    err_handler,
                                    pos,
                                    NodeKind::Mix { base: out, input: ysig, gain: g },
                                ) {
                                    Ok(s) => {
                                        out = s;
                                    },
                                    Err(Failed) => {
                                        failed = true;
                                    },
                                }
                            }
                        },
                        _ => {
                            failed = true;
                        },
                    }
                    k = k + 2;
                }
                if failed {
                    return Err(Failed);
                }
                Ok(Value(Data::Signal(out), Units::radian(1)))
            },
            FuncOp::Overtone => {
                if nargs != 2 {
                    return self.report_bad_nargs(err_handler, oppos, name, nargs, 2, Some(2));
                }
                let (apos, arg) = Self::take_arg(&values, 0);
                let n = match arg {
                    Ok(v) => match v.into_int() {
                        Ok(n) => n,
                        Err(e) => {
                            return self.report_invalid(err_handler, apos, "overtone", &e);
                        },
                    },
                    Err(e) => {
                        return self.report_invalid(err_handler, apos, "overtone", &e);
                    },
                };
                if n < i32::MIN as i64 || n > i32::MAX as i64 {
                    self.error(err_handler, apos, "overtone does not fit 32 bits");
                    return Err(Failed);
                }
                let (apos2, arg2) = Self::take_arg(&values, 1);
                let phase = self.into_phase(err_handler, pos, apos2, "phase", arg2)?;
                let sig = self.new_node(
                    err_handler,
                    pos,
                    NodeKind::ScaleInt { input: phase, scale: n as i32 },
                )?;
                Ok(Value(Data::Signal(sig), Units::radian(1)))
            },
        }
    }
}

impl EvalResult<Value> {
    /// The value, when interpreting it has not failed.
    pub fn value(&self) -> (r: Option<Value>)
        ensures
            r matches Some(v) ==> (self.1 matches Ok(b) && spec_value_eq(&v, &b)),
            r is Some <==> self.1 is Ok,
    {
        match &self.1 {
            Ok(v) => Some(v.dup()),
            Err(_) => None,
        }
    }

    /// Interpret the result as void: the label stays, an error passes
    /// through, and a non-void value becomes the type error that names it.
    pub fn into_void(self) -> (r: EvalResult<()>)
        ensures
            r.0 == self.0,
            r.1 is Ok <==> (self.1 matches Ok(v) && v.0 is Void),
            (match self.1 {
                Err(e) => r.1 == Err::<(), ValueError>(e),
                Ok(v) => !(v.0 is Void) ==> r.1 == Err::<(), ValueError>(
                    ValueError::BadType {
                        got: Type(spec_data_type(&v.0), Some(v.1)),
                        expect: Type(DataType::Void, None::<Units>),
                    },
                ),
            }),
    {
        match self {
            EvalResult(label, Ok(v)) => EvalResult(label, v.into_void()),
            EvalResult(label, Err(e)) => EvalResult(label, Err(e)),
        }
    }

    /// Interpret the result as a plain integer.
    pub fn into_int(self) -> (r: EvalResult<i64>)
        ensures
            r.0 == self.0,
            r.1 is Ok <==> (self.1 matches Ok(v) && v.0 is Int && v.1 == Units::spec_scalar()),
            r.1 matches Ok(n) ==> (self.1 matches Ok(v) && v.0 == Data::Int(n)),
            (match self.1 {
                Err(e) => r.1 == Err::<i64, ValueError>(e),
                Ok(v) => !(v.0 is Int && v.1 == Units::spec_scalar()) ==> r.1 == Err::<
                    i64,
                    ValueError,
                >(
                    ValueError::BadType {
                        got: Type(spec_data_type(&v.0), Some(v.1)),
                        expect: Type(DataType::Int, Some(Units::spec_scalar())),
                    },
                ),
            }),
    {
        match self {
            EvalResult(label, Ok(v)) => EvalResult(label, v.into_int()),
            EvalResult(label, Err(e)) => EvalResult(label, Err(e)),
        }
    }

    /// Interpret the result as a signal of any units.
    pub fn into_any_signal(self) -> (r: EvalResult<(SignalRef, Units)>)
        ensures
            r.0 == self.0,
            r.1 is Ok <==> (self.1 matches Ok(v) && v.0 is Signal),
            r.1 matches Ok((s, u)) ==> (self.1 matches Ok(v) && v.0 == Data::Signal(s) && u
                == v.1),
            (match self.1 {
                Err(e) => r.1 == Err::<(SignalRef, Units), ValueError>(e),
                Ok(v) => !(v.0 is Signal) ==> r.1 == Err::<(SignalRef, Units), ValueError>(
                    ValueError::BadType {
                        got: Type(spec_data_type(&v.0), Some(v.1)),
                        expect: Type(DataType::Signal, None::<Units>),
                    },
                ),
            }),
    {
        match self {
            EvalResult(label, Ok(v)) => EvalResult(label, v.into_any_signal()),
            EvalResult(label, Err(e)) => EvalResult(label, Err(e)),
        }
    }

    /// Interpret the result as a signal of the given units.
    pub fn into_signal(self, units: Units) -> (r: EvalResult<SignalRef>)
        ensures
            r.0 == self.0,
            r.1 is Ok <==> (self.1 matches Ok(v) && v.0 is Signal && v.1 == units),
            r.1 matches Ok(s) ==> (self.1 matches Ok(v) && v.0 == Data::Signal(s)),
            (match self.1 {
                Err(e) => r.1 == Err::<SignalRef, ValueError>(e),
                Ok(v) => !(v.0 is Signal && v.1 == units) ==> r.1 == Err::<SignalRef, ValueError>(
                    ValueError::BadType {
                        got: Type(spec_data_type(&v.0), Some(v.1)),
                        expect: Type(DataType::Signal, Some(units)),
                    },
                ),
            }),
    {
        match self {
            EvalResult(label, Ok(v)) => EvalResult(label, v.into_signal(units)),
            EvalResult(label, Err(e)) => EvalResult(label, Err(e)),
        }
    }
}

/// Evaluate an audio synthesis program: every form but the last must be
/// void, the last must be a signal in volts, and the result is the graph
/// with the root signal. The result is something exactly when no diagnostic
/// was reported; an empty program reports exactly `empty program`.
#[verifier::loop_isolation(false)]
pub fn evaluate_program<E: ErrorHandler>(err_handler: &mut E, program: &Vec<SExpr>) -> (r: Option<
    (Graph, SignalRef),
>)
    requires
        all_items_wf(program@, 0),
    ensures
        r matches Some((g, root)) ==> g.wf() && root.0 < g.spec_nodes().len(),
        program@.len() == 0 ==> r is None,
        r is Some <==> final(err_handler).diags() == old(err_handler).diags(),
        r is None ==> final(err_handler).diags().len() > old(err_handler).diags().len(),
        program@.len() == 0 ==> final(err_handler).diags() == old(err_handler).diags().push(
            (Span { start: crate::sourcepos::Pos(0), end: crate::sourcepos::Pos(0) },
            "empty program"@),
        ),
        (program@.len() == 1 && (match program@[0].content {
            Content::List(ref items) => items@.len() == 0,
            _ => false,
        })) ==> (r is None && final(err_handler).diags() == old(err_handler).diags().push(
            (program@[0].pos, "empty program"@),
        )),
        (program@.len() == 1 && is_noise_form(&program@[0])) ==> (r matches Some((g, root))
            && g.spec_nodes().len() == 1 && root == SignalRef(0)),
{
    proof {
        lemma_all_items_wf(program@, 0);
    }
    if program.len() == 0 {
        err_handler.handle(Span::none(), "empty program");
        return None;
    }
    let mut env = Env::new();
    let ghost env0 = env;
    let last = program.len() - 1;
    let mut i: usize = 0;
    while i < last
        invariant
            0 <= i <= last,
            last == program@.len() - 1,
            i == 0 ==> (env.spec_glen() == 0 && !env.spec_has_error() && err_handler.diags()
                == old(err_handler).diags()),
            env.inv(),
            !env0.spec_has_error(),
            Env::diag_step(&env0, &env, old(err_handler), &err_handler),
        decreases last - i,
    {
        let ev = env.evaluate(err_handler, &program[i]).into_void();
        match ev {
            EvalResult(_, Ok(())) => {},
            EvalResult(label, Err(e)) => {
                match e {
                    ValueError::Failed => {},
                    _ => {
                        let mut m = String::from_str("invalid top-level statement: ");
                        let emsg = e.to_string();
                        m.append(emsg.as_str());
                        env.error(err_handler, label.pos, m.as_str());
                    },
                }
            },
        }
        i = i + 1;
    }
    let ev = env.evaluate(err_handler, &program[last]).into_signal(Units::volt(1));
    let signal = match ev {
        EvalResult(_, Ok(sig)) => sig,
        EvalResult(label, Err(e)) => {
            match e {
                ValueError::Failed => {},
                _ => {
                    let mut m = String::from_str("invalid program body: ");
                    let emsg = e.to_string();
                    m.append(emsg.as_str());
                    env.error(err_handler, label.pos, m.as_str());
                },
            }
            return None;
        },
    };
    match env.into_graph() {
        Some(g) => Some((g, signal)),
        None => None,
    }
}

} // verus!



