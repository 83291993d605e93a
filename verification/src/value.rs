//! Argument values: the kinds of data a rendering can consume, and their
//! natural and debug text forms.

use vstd::prelude::*;
use crate::decimal::{spec_digits, spec_sign_text};

verus! {

/// One caller-supplied argument value.
///
/// A `Real` holds the plain decimal text of a real number (for example
/// `"3.25"` or `"-14"`), as the host's natural rendering of it; the
/// fixed-point directive rounds and pads that text. A `Custom` stands for
/// any other host value, carried as its pre-rendered natural and debug
/// forms.
#[derive(Debug, PartialEq, Eq)]
pub enum Value {
    Int(i64),
    Bool(bool),
    Str(String),
    Real(String),
    Custom { display: String, debug: String },
    List(Vec<Value>),
}

/// The mathematical form of a value.
pub enum SpecValue {
    Int(int),
    Bool(bool),
    Str(Seq<char>),
    Real(Seq<char>),
    Custom { display: Seq<char>, debug: Seq<char> },
    List(Seq<SpecValue>),
}

/// Deep view of a sequence of values.
pub open spec fn deep_view_values(l: Seq<Value>) -> Seq<SpecValue>
    decreases l,
{
    if l.len() == 0 {
        Seq::empty()
    } else {
        seq![l[0].deep_view()] + deep_view_values(l.subrange(1, l.len() as int))
    }
}

impl DeepView for Value {
    type V = SpecValue;

    open spec fn deep_view(&self) -> SpecValue
        decreases self,
    {
        match self {
            Value::Int(i) => SpecValue::Int(*i as int),
            Value::Bool(b) => SpecValue::Bool(*b),
            Value::Str(s) => SpecValue::Str(s@),
            Value::Real(t) => SpecValue::Real(t@),
            Value::Custom { display, debug } => SpecValue::Custom {
                display: display@,
                debug: debug@,
            },
            Value::List(items) => SpecValue::List(deep_view_values(items@)),
        }
    }
}

/// The deep view of a value sequence indexes element by element.
pub proof fn lemma_deep_view_values(l: Seq<Value>)
    ensures
        deep_view_values(l).len() == l.len(),
        forall|i: int| 0 <= i < l.len() ==> deep_view_values(l)[i] == #[trigger] l[i].deep_view(),
    decreases l.len(),
{
    if l.len() > 0 {
        let tail = l.subrange(1, l.len() as int);
        lemma_deep_view_values(tail);
        assert(deep_view_values(l) == seq![l[0].deep_view()] + deep_view_values(tail));
        assert(deep_view_values(l).len() == l.len());
        assert forall|i: int| 0 <= i < l.len() implies deep_view_values(l)[i] == #[trigger] l[i]
            .deep_view() by {
            if i > 0 {
                assert(tail[i - 1] == l[i]);
                assert(deep_view_values(l)[i] == deep_view_values(tail)[i - 1]);
            }
        }
    }
}

/// The plain decimal text of an integer: a minus sign for negatives, then
/// the digits.
pub open spec fn spec_int_text(i: int) -> Seq<char> {
    spec_sign_text(i, false) + spec_digits(vstd::math::abs(i) as nat)
}

/// The text form of a value: its natural form, or its debug form when
/// `debug` is set. Strings debug as themselves between quotation marks;
/// lists render between brackets with comma-space separators.
pub open spec fn spec_value_text(v: SpecValue, debug: bool) -> Seq<char>
    decreases v, 0nat,
{
    match v {
        SpecValue::Int(i) => spec_int_text(i),
        SpecValue::Bool(b) => if b {
            seq!['t', 'r', 'u', 'e']
        } else {
            seq!['f', 'a', 'l', 's', 'e']
        },
        SpecValue::Str(s) => if debug {
            seq!['"'] + s + seq!['"']
        } else {
            s
        },
        SpecValue::Real(t) => t,
        SpecValue::Custom { display, debug: d } => if debug {
            d
        } else {
            display
        },
        SpecValue::List(items) => seq!['['] + spec_values_join(items, debug, 0) + seq![']'],
    }
}

/// The elements of a list from position `from` on, each in its text form,
/// separated by comma-space.
pub open spec fn spec_values_join(items: Seq<SpecValue>, debug: bool, from: int) -> Seq<char>
    decreases items, items.len() - from,
{
    if from < 0 || from >= items.len() {
        Seq::empty()
    } else {
        (if from > 0 {
            seq![',', ' ']
        } else {
            Seq::empty()
        }) + spec_value_text(items[from], debug) + spec_values_join(items, debug, from + 1)
    }
}

/// Renders an integer's plain decimal text.
pub fn int_chars(i: i64) -> (out: Vec<char>)
    ensures
        out@ == spec_int_text(i as int),
{
    let mut out: Vec<char> = Vec::new();
    if i < 0 {
        out.push('-');
    }
    let mag: u128 = if i < 0 {
        (-(i as i128)) as u128
    } else {
        i as u128
    };
    crate::decimal::push_digits(&mut out, mag);
    assert(out@ =~= spec_int_text(i as int));
    out
}

/// Renders a value's text form: its natural form, or its debug form when
/// `debug` is set.
pub fn value_chars(v: &Value, debug: bool) -> (out: Vec<char>)
    ensures
        out@ == spec_value_text(v.deep_view(), debug),
    decreases v,
{
    match v {
        Value::Int(i) => {
            let out = int_chars(*i);
            out
        },
        Value::Bool(b) => {
            let mut out: Vec<char> = Vec::new();
            if *b {
                out.push('t');
                out.push('r');
                out.push('u');
                out.push('e');
                assert(out@ =~= seq!['t', 'r', 'u', 'e']);
            } else {
                out.push('f');
                out.push('a');
                out.push('l');
                out.push('s');
                out.push('e');
                assert(out@ =~= seq!['f', 'a', 'l', 's', 'e']);
            }
            out
        },
        Value::Str(s) => {
            let mut out: Vec<char> = Vec::new();
            if debug {
                out.push('"');
            }
            let mut body = crate::text::str_to_chars(s.as_str());
            out.append(&mut body);
            if debug {
                out.push('"');
                assert(out@ =~= seq!['"'] + s@ + seq!['"']);
            }
            out
        },
        Value::Real(t) => {
            let out = crate::text::str_to_chars(t.as_str());
            out
        },
        Value::Custom { display, debug: d } => {
            let out = if debug {
                crate::text::str_to_chars(d.as_str())
            } else {
                crate::text::str_to_chars(display.as_str())
            };
            out
        },
        Value::List(items) => {
            let ghost sv = deep_view_values(items@);
            proof {
                lemma_deep_view_values(items@);
            }
            let mut out: Vec<char> = Vec::new();
            out.push('[');
            let mut j: usize = 0;
            while j < items.len()
                invariant
                    *v == Value::List(*items),
                    0 <= j <= items.len(),
                    sv == deep_view_values(items@),
                    sv.len() == items@.len(),
                    forall|k: int| 0 <= k < items@.len() ==> sv[k] == #[trigger] items@[k]
                        .deep_view(),
                    out@ + spec_values_join(sv, debug, j as int) == seq!['['] + spec_values_join(
                        sv,
                        debug,
                        0,
                    ),
                decreases items.len() - j,
            {
                let ghost pre = out@;
                if j > 0 {
                    out.push(',');
                    out.push(' ');
                }
                proof {
                    assert(v->List_0 == *items);
                    assert(decreases_to!(*v => v->List_0));
                    assert(decreases_to!(*items => items@));
                    assert(decreases_to!(items@ => items@[j as int]));
                }
                let mut piece = value_chars(&items[j], debug);
                out.append(&mut piece);
                proof {
                    assert(spec_values_join(sv, debug, j as int) == (if j > 0 {
                        seq![',', ' ']
                    } else {
                        Seq::<char>::empty()
                    }) + spec_value_text(sv[j as int], debug) + spec_values_join(
                        sv,
                        debug,
                        j + 1,
                    ));
                    assert(out@ + spec_values_join(sv, debug, j + 1) =~= pre + spec_values_join(
                        sv,
                        debug,
                        j as int,
                    ));
                }
                j = j + 1;
            }
            out.push(']');
            proof {
                assert(spec_values_join(sv, debug, items@.len() as int) =~= Seq::<char>::empty());
                assert(out@ =~= seq!['['] + spec_values_join(sv, debug, 0) + seq![']']);
            }
            out
        },
    }
}

} // verus!
