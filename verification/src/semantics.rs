//! The mathematical meaning of rendering: a spec-level interpreter that
//! maps a directive tree and an argument cursor to the text produced, the
//! arguments consumed, and the first error if one arises.

use vstd::prelude::*;
use crate::directive::{Alignment, SpecDirective};
use crate::value::{SpecValue, spec_value_text, spec_int_text};
use crate::decimal::{spec_decimal, char_repeat};
use crate::fixedpoint::spec_fixed;
use crate::errors::RenderError;

verus! {

/// What a successful run produced: its text, how many arguments it
/// consumed from the cursor it ran against, and whether a break directive
/// ended it.
pub struct RunDone {
    pub text: Seq<char>,
    pub used: nat,
    pub broke: bool,
}

/// The outcome of a run: done, or failed with the first error. Rendering
/// is fail-fast, so a failure carries no text.
pub enum RunOut {
    Done(RunDone),
    Fail(RenderError),
}

/// Counts one more consumed argument on a finished run.
pub open spec fn after_pop(r: RunOut) -> RunOut {
    match r {
        RunOut::Fail(e) => RunOut::Fail(e),
        RunOut::Done(x) => RunOut::Done(
            RunDone { text: x.text, used: x.used + 1, broke: x.broke },
        ),
    }
}

/// Whether a conditional selector counts as true.
pub open spec fn spec_truthy(v: SpecValue) -> Option<bool> {
    match v {
        SpecValue::Bool(b) => Some(b),
        SpecValue::Int(i) => Some(i != 0),
        _ => None,
    }
}

/// Runs a directive list against a cursor, in order, stopping at the first
/// error or after a directive that broke.
pub open spec fn run_list(dirs: Seq<SpecDirective>, cur: Seq<SpecValue>) -> RunOut
    decreases dirs, cur.len(), 0nat,
{
    if dirs.len() == 0 {
        RunOut::Done(RunDone { text: Seq::empty(), used: 0, broke: false })
    } else {
        match run_dir(dirs[0], cur) {
            RunOut::Fail(e) => RunOut::Fail(e),
            RunOut::Done(r1) => {
                if r1.broke {
                    RunOut::Done(RunDone { text: r1.text, used: r1.used, broke: true })
                } else {
                    let rest = if r1.used <= cur.len() {
                        cur.skip(r1.used as int)
                    } else {
                        Seq::empty()
                    };
                    match run_list(dirs.subrange(1, dirs.len() as int), rest) {
                        RunOut::Fail(e) => RunOut::Fail(e),
                        RunOut::Done(r2) => RunOut::Done(
                            RunDone {
                                text: r1.text + r2.text,
                                used: r1.used + r2.used,
                                broke: r2.broke,
                            },
                        ),
                    }
                }
            },
        }
    }
}

/// Runs one directive against a cursor.
pub open spec fn run_dir(d: SpecDirective, cur: Seq<SpecValue>) -> RunOut
    decreases d, cur.len(), 0nat,
{
    match d {
        SpecDirective::Literal(t) => RunOut::Done(RunDone { text: t, used: 0, broke: false }),
        SpecDirective::Newline => RunOut::Done(
            RunDone { text: seq!['\n'], used: 0, broke: false },
        ),
        SpecDirective::Break => RunOut::Done(
            RunDone { text: Seq::empty(), used: 0, broke: cur.len() == 0 },
        ),
        SpecDirective::TildeA => {
            if cur.len() == 0 {
                RunOut::Fail(RenderError::MissingArgument)
            } else {
                RunOut::Done(
                    RunDone { text: spec_value_text(cur[0], false), used: 1, broke: false },
                )
            }
        },
        SpecDirective::TildeS => {
            if cur.len() == 0 {
                RunOut::Fail(RenderError::MissingArgument)
            } else {
                RunOut::Done(
                    RunDone { text: spec_value_text(cur[0], true), used: 1, broke: false },
                )
            }
        },
        SpecDirective::Skip => {
            if cur.len() == 0 {
                RunOut::Fail(RenderError::MissingArgument)
            } else {
                RunOut::Done(RunDone { text: Seq::empty(), used: 1, broke: false })
            }
        },
        SpecDirective::Decimal {
            min_columns,
            pad_char,
            comma_char,
            comma_interval,
            print_commas,
            print_sign,
        } => {
            if cur.len() == 0 {
                RunOut::Fail(RenderError::MissingArgument)
            } else {
                match cur[0] {
                    SpecValue::Int(i) => RunOut::Done(
                        RunDone {
                            text: spec_decimal(
                                i,
                                min_columns,
                                pad_char,
                                comma_char,
                                comma_interval,
                                print_commas,
                                print_sign,
                            ),
                            used: 1,
                            broke: false,
                        },
                    ),
                    _ => RunOut::Fail(RenderError::TypeMismatch),
                }
            }
        },
        SpecDirective::Float { width, num_decimal_places, pad_char } => {
            if cur.len() == 0 {
                RunOut::Fail(RenderError::MissingArgument)
            } else {
                let text = match cur[0] {
                    SpecValue::Real(t) => Some(t),
                    SpecValue::Int(i) => Some(spec_int_text(i)),
                    _ => None,
                };
                match text {
                    None => RunOut::Fail(RenderError::TypeMismatch),
                    Some(t) => match spec_fixed(t, width, num_decimal_places, pad_char) {
                        Some(b) => RunOut::Done(RunDone { text: b, used: 1, broke: false }),
                        None => RunOut::Fail(RenderError::TypeMismatch),
                    },
                }
            }
        },
        SpecDirective::Align { min_columns, pad_char, direction, inner, .. } => {
            match run_list(inner, cur) {
                RunOut::Fail(e) => RunOut::Fail(e),
                RunOut::Done(r) => {
                    let diff = if min_columns > r.text.len() {
                        (min_columns - r.text.len()) as nat
                    } else {
                        0nat
                    };
                    let before = match direction {
                        Alignment::Left => 0nat,
                        Alignment::Right => diff,
                        Alignment::Centre => (diff / 2) as nat,
                    };
                    let after = (diff - before) as nat;
                    RunOut::Done(
                        RunDone {
                            text: char_repeat(pad_char, before) + r.text + char_repeat(
                                pad_char,
                                after,
                            ),
                            used: r.used,
                            broke: r.broke,
                        },
                    )
                },
            }
        },
        SpecDirective::Iteration(inner) => {
            if cur.len() == 0 {
                RunOut::Fail(RenderError::MissingArgument)
            } else {
                match cur[0] {
                    SpecValue::List(elems) => match run_passes(inner, elems) {
                        RunOut::Fail(e) => RunOut::Fail(e),
                        RunOut::Done(r) => RunOut::Done(
                            RunDone { text: r.text, used: 1, broke: false },
                        ),
                    },
                    _ => RunOut::Fail(RenderError::TypeMismatch),
                }
            }
        },
        SpecDirective::Conditional { boolean, consumes, choices, default } => {
            if cur.len() == 0 {
                RunOut::Fail(RenderError::MissingArgument)
            } else if boolean {
                match cur[0] {
                    SpecValue::Bool(b) => {
                        let idx: int = if b {
                            1
                        } else {
                            0
                        };
                        if idx < choices.len() {
                            after_pop(run_list(choices[idx], cur.skip(1)))
                        } else {
                            RunOut::Done(RunDone { text: Seq::empty(), used: 1, broke: false })
                        }
                    },
                    _ => RunOut::Fail(RenderError::TypeMismatch),
                }
            } else if consumes {
                match spec_truthy(cur[0]) {
                    None => RunOut::Fail(RenderError::TypeMismatch),
                    Some(t) => {
                        if t && choices.len() >= 1 {
                            after_pop(run_list(choices[0], cur.skip(1)))
                        } else {
                            RunOut::Done(RunDone { text: Seq::empty(), used: 1, broke: false })
                        }
                    },
                }
            } else {
                match cur[0] {
                    SpecValue::Int(i) => {
                        if 0 <= i < choices.len() {
                            after_pop(run_list(choices[i], cur.skip(1)))
                        } else {
                            match default {
                                Some(dd) => after_pop(run_list(dd, cur.skip(1))),
                                None => RunOut::Done(
                                    RunDone { text: Seq::empty(), used: 1, broke: false },
                                ),
                            }
                        }
                    },
                    _ => RunOut::Fail(RenderError::TypeMismatch),
                }
            }
        },
    }
}

/// Runs iteration passes: while elements remain, the body runs against
/// them; a break ends the loop, and so does a pass that consumed nothing.
pub open spec fn run_passes(inner: Seq<SpecDirective>, elems: Seq<SpecValue>) -> RunOut
    decreases inner, elems.len(), 1nat,
{
    if elems.len() == 0 {
        RunOut::Done(RunDone { text: Seq::empty(), used: 0, broke: false })
    } else {
        match run_list(inner, elems) {
            RunOut::Fail(e) => RunOut::Fail(e),
            RunOut::Done(r) => {
                if r.broke || r.used == 0 {
                    RunOut::Done(RunDone { text: r.text, used: r.used, broke: false })
                } else {
                    let rest = if r.used <= elems.len() {
                        elems.skip(r.used as int)
                    } else {
                        Seq::empty()
                    };
                    match run_passes(inner, rest) {
                        RunOut::Fail(e) => RunOut::Fail(e),
                        RunOut::Done(r2) => RunOut::Done(
                            RunDone {
                                text: r.text + r2.text,
                                used: r.used + r2.used,
                                broke: false,
                            },
                        ),
                    }
                }
            },
        }
    }
}

/// A finished run never consumes more arguments than the cursor held.
pub proof fn lemma_run_list_used(dirs: Seq<SpecDirective>, cur: Seq<SpecValue>)
    ensures
        match run_list(dirs, cur) {
            RunOut::Done(r) => r.used <= cur.len(),
            RunOut::Fail(_) => true,
        },
    decreases dirs, cur.len(), 0nat,
{
    if dirs.len() > 0 {
        lemma_run_dir_used(dirs[0], cur);
        match run_dir(dirs[0], cur) {
            RunOut::Fail(_) => {},
            RunOut::Done(r1) => {
                if !r1.broke {
                    let rest = if r1.used <= cur.len() {
                        cur.skip(r1.used as int)
                    } else {
                        Seq::empty()
                    };
                    lemma_run_list_used(dirs.subrange(1, dirs.len() as int), rest);
                }
            },
        }
    }
}

/// A finished directive never consumes more arguments than the cursor
/// held.
pub proof fn lemma_run_dir_used(d: SpecDirective, cur: Seq<SpecValue>)
    ensures
        match run_dir(d, cur) {
            RunOut::Done(r) => r.used <= cur.len(),
            RunOut::Fail(_) => true,
        },
    decreases d, cur.len(), 0nat,
{
    match d {
        SpecDirective::Align { inner, .. } => {
            lemma_run_list_used(inner, cur);
        },
        SpecDirective::Conditional { boolean, consumes, choices, default } => {
            if cur.len() > 0 {
                if boolean {
                    match cur[0] {
                        SpecValue::Bool(b) => {
                            let idx: int = if b {
                                1
                            } else {
                                0
                            };
                            if idx < choices.len() {
                                lemma_run_list_used(choices[idx], cur.skip(1));
                            }
                        },
                        _ => {},
                    }
                } else if consumes {
                    if choices.len() >= 1 {
                        lemma_run_list_used(choices[0], cur.skip(1));
                    }
                } else {
                    match cur[0] {
                        SpecValue::Int(i) => {
                            if 0 <= i < choices.len() {
                                lemma_run_list_used(choices[i], cur.skip(1));
                            } else {
                                match default {
                                    Some(dd) => {
                                        lemma_run_list_used(dd, cur.skip(1));
                                    },
                                    None => {},
                                }
                            }
                        },
                        _ => {},
                    }
                }
            }
        },
        _ => {},
    }
}

} // verus!
