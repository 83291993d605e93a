//! The directive tree: the parsed form of a control string.

use vstd::prelude::*;
use crate::params::Modifiers;

verus! {

/// Justification of an alignment block.
#[derive(Debug, Clone, Copy, PartialEq, Eq)]
pub enum Alignment {
    Left,
    Right,
    Centre,
}

/// One parsed unit of a control string.
#[derive(Debug, PartialEq, Eq)]
pub enum Directive {
    Align {
        min_columns: usize,
        col_inc: usize,
        min_pad: usize,
        pad_char: char,
        direction: Alignment,
        inner: Vec<Directive>,
    },
    Break,
    Conditional {
        boolean: bool,
        consumes: bool,
        default: Option<Vec<Directive>>,
        choices: Vec<Vec<Directive>>,
    },
    Decimal {
        min_columns: usize,
        pad_char: char,
        comma_char: char,
        comma_interval: usize,
        print_commas: bool,
        print_sign: bool,
    },
    Float {
        width: usize,
        num_decimal_places: usize,
        pad_char: char,
    },
    Iteration(Vec<Directive>),
    Literal(String),
    Newline,
    Skip,
    TildeA,
    TildeS,
}

/// The justification that a pair of modifier flags selects: colon with at
/// centres, colon alone right-justifies, anything else left-justifies.
pub open spec fn spec_alignment_of(m: Modifiers) -> Alignment {
    if m.colon && m.at {
        Alignment::Centre
    } else if m.colon {
        Alignment::Right
    } else {
        Alignment::Left
    }
}

impl From<Modifiers> for Alignment {
    fn from(value: Modifiers) -> (r: Self) {
        match (value.colon, value.at) {
            (true, true) => Self::Centre,
            (true, false) => Self::Right,
            (false, true) => Self::Left,
            (false, false) => Self::Left,
        }
    }
}

impl vstd::std_specs::convert::FromSpecImpl<Modifiers> for Alignment {
    open spec fn obeys_from_spec() -> bool {
        true
    }

    open spec fn from_spec(m: Modifiers) -> Alignment {
        spec_alignment_of(m)
    }
}

/// The mathematical form of a directive, over sequences instead of vectors.
pub enum SpecDirective {
    Align {
        min_columns: nat,
        col_inc: nat,
        min_pad: nat,
        pad_char: char,
        direction: Alignment,
        inner: Seq<SpecDirective>,
    },
    Break,
    Conditional {
        boolean: bool,
        consumes: bool,
        default: Option<Seq<SpecDirective>>,
        choices: Seq<Seq<SpecDirective>>,
    },
    Decimal {
        min_columns: nat,
        pad_char: char,
        comma_char: char,
        comma_interval: nat,
        print_commas: bool,
        print_sign: bool,
    },
    Float {
        width: nat,
        num_decimal_places: nat,
        pad_char: char,
    },
    Iteration(Seq<SpecDirective>),
    Literal(Seq<char>),
    Newline,
    Skip,
    TildeA,
    TildeS,
}

/// Deep view of a sequence of directives.
pub open spec fn deep_view_list(l: Seq<Directive>) -> Seq<SpecDirective>
    decreases l,
{
    if l.len() == 0 {
        Seq::empty()
    } else {
        seq![l[0].deep_view()] + deep_view_list(l.subrange(1, l.len() as int))
    }
}

/// Deep view of a sequence of directive lists.
pub open spec fn deep_view_lists(l: Seq<Vec<Directive>>) -> Seq<Seq<SpecDirective>>
    decreases l,
{
    if l.len() == 0 {
        Seq::empty()
    } else {
        seq![deep_view_list(l[0]@)] + deep_view_lists(l.subrange(1, l.len() as int))
    }
}

impl DeepView for Directive {
    type V = SpecDirective;

    open spec fn deep_view(&self) -> SpecDirective
        decreases self,
    {
        match self {
            Directive::Align { min_columns, col_inc, min_pad, pad_char, direction, inner } => {
                SpecDirective::Align {
                    min_columns: *min_columns as nat,
                    col_inc: *col_inc as nat,
                    min_pad: *min_pad as nat,
                    pad_char: *pad_char,
                    direction: *direction,
                    inner: deep_view_list(inner@),
                }
            },
            Directive::Break => SpecDirective::Break,
            Directive::Conditional { boolean, consumes, default, choices } => {
                SpecDirective::Conditional {
                    boolean: *boolean,
                    consumes: *consumes,
                    default: match default {
                        Some(d) => Some(deep_view_list(d@)),
                        None => None,
                    },
                    choices: deep_view_lists(choices@),
                }
            },
            Directive::Decimal {
                min_columns,
                pad_char,
                comma_char,
                comma_interval,
                print_commas,
                print_sign,
            } => {
                SpecDirective::Decimal {
                    min_columns: *min_columns as nat,
                    pad_char: *pad_char,
                    comma_char: *comma_char,
                    comma_interval: *comma_interval as nat,
                    print_commas: *print_commas,
                    print_sign: *print_sign,
                }
            },
            Directive::Float { width, num_decimal_places, pad_char } => {
                SpecDirective::Float {
                    width: *width as nat,
                    num_decimal_places: *num_decimal_places as nat,
                    pad_char: *pad_char,
                }
            },
            Directive::Iteration(inner) => SpecDirective::Iteration(deep_view_list(inner@)),
            Directive::Literal(s) => SpecDirective::Literal(s@),
            Directive::Newline => SpecDirective::Newline,
            Directive::Skip => SpecDirective::Skip,
            Directive::TildeA => SpecDirective::TildeA,
            Directive::TildeS => SpecDirective::TildeS,
        }
    }
}

/// The deep view of a directive sequence indexes element by element.
pub proof fn lemma_deep_view_list(l: Seq<Directive>)
    ensures
        deep_view_list(l).len() == l.len(),
        forall|i: int| 0 <= i < l.len() ==> deep_view_list(l)[i] == #[trigger] l[i].deep_view(),
    decreases l.len(),
{
    if l.len() > 0 {
        let tail = l.subrange(1, l.len() as int);
        lemma_deep_view_list(tail);
        assert(deep_view_list(l) == seq![l[0].deep_view()] + deep_view_list(tail));
        assert(deep_view_list(l).len() == l.len());
        assert forall|i: int| 0 <= i < l.len() implies deep_view_list(l)[i] == #[trigger] l[i]
            .deep_view() by {
            if i > 0 {
                assert(tail[i - 1] == l[i]);
                assert(deep_view_list(l)[i] == deep_view_list(tail)[i - 1]);
            }
        }
    }
}

/// The deep view of a sequence of directive lists indexes element by element.
pub proof fn lemma_deep_view_lists(l: Seq<Vec<Directive>>)
    ensures
        deep_view_lists(l).len() == l.len(),
        forall|i: int| 0 <= i < l.len() ==> deep_view_lists(l)[i] == deep_view_list(#[trigger] l[i]@),
    decreases l.len(),
{
    if l.len() > 0 {
        let tail = l.subrange(1, l.len() as int);
        lemma_deep_view_lists(tail);
        assert(deep_view_lists(l) == seq![deep_view_list(l[0]@)] + deep_view_lists(tail));
        assert(deep_view_lists(l).len() == l.len());
        assert forall|i: int| 0 <= i < l.len() implies deep_view_lists(l)[i] == deep_view_list(
            #[trigger] l[i]@,
        ) by {
            if i > 0 {
                assert(tail[i - 1] == l[i]);
                assert(deep_view_lists(l)[i] == deep_view_lists(tail)[i - 1]);
            }
        }
    }
}

/// Appending one directive appends its deep view.
pub proof fn lemma_deep_view_list_push(l: Seq<Directive>, d: Directive)
    ensures
        deep_view_list(l.push(d)) == deep_view_list(l).push(d.deep_view()),
{
    lemma_deep_view_list(l.push(d));
    lemma_deep_view_list(l);
    assert forall|i: int| 0 <= i < l.len() + 1 implies deep_view_list(l.push(d))[i]
        == deep_view_list(l).push(d.deep_view())[i] by {
        assert(deep_view_list(l.push(d))[i] == l.push(d)[i].deep_view());
        if i < l.len() {
            assert(l.push(d)[i] == l[i]);
            assert(deep_view_list(l)[i] == l[i].deep_view());
        } else {
            assert(l.push(d)[i] == d);
        }
    }
    assert(deep_view_list(l.push(d)) =~= deep_view_list(l).push(d.deep_view()));
}

/// Appending one directive list appends its deep view.
pub proof fn lemma_deep_view_lists_push(l: Seq<Vec<Directive>>, d: Vec<Directive>)
    ensures
        deep_view_lists(l.push(d)) == deep_view_lists(l).push(deep_view_list(d@)),
{
    lemma_deep_view_lists(l.push(d));
    lemma_deep_view_lists(l);
    assert forall|i: int| 0 <= i < l.len() + 1 implies deep_view_lists(l.push(d))[i]
        == deep_view_lists(l).push(deep_view_list(d@))[i] by {
        assert(deep_view_lists(l.push(d))[i] == deep_view_list(l.push(d)[i]@));
        if i < l.len() {
            assert(l.push(d)[i] == l[i]);
            assert(deep_view_lists(l)[i] == deep_view_list(l[i]@));
        } else {
            assert(l.push(d)[i] == d);
        }
    }
    assert(deep_view_lists(l.push(d)) =~= deep_view_lists(l).push(deep_view_list(d@)));
}

} // verus!

