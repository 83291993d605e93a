//! The parser: a recursive descent over the characters of a control
//! string, producing a directive tree. The spec-level functions `sp_*`
//! define the grammar; the executable functions implement them exactly.

use vstd::prelude::*;
use crate::directive::{Alignment, Directive, SpecDirective, spec_alignment_of, deep_view_list,
    deep_view_lists, lemma_deep_view_list, lemma_deep_view_lists, lemma_deep_view_list_push,
    lemma_deep_view_lists_push};
use crate::errors::{CondIssue, ParamIssue, ParseError};
use crate::params::{Modifiers, Param, Params, spec_get_char, spec_get_num, spec_assert_missing};
use crate::fixedpoint::{spec_digit_val, spec_is_digit, digit_val};

verus! {

/// The value of a run of digit characters, read from the left.
pub open spec fn digits_value(s: Seq<char>) -> int
    decreases s.len(),
{
    if s.len() == 0 {
        0
    } else {
        digits_value(s.drop_last()) * 10 + spec_digit_val(s.last())
    }
}

/// The position of the first non-digit at or after `from`, or the length.
pub open spec fn first_nondigit(s: Seq<char>, from: int) -> int
    decreases s.len() - from,
{
    if from < 0 || from >= s.len() {
        s.len() as int
    } else if !spec_is_digit(s[from]) {
        from
    } else {
        first_nondigit(s, from + 1)
    }
}

/// The position of the first character at or after `from` that is neither
/// a colon nor an at sign, or the length.
pub open spec fn first_nonmod(s: Seq<char>, from: int) -> int
    decreases s.len() - from,
{
    if from < 0 || from >= s.len() {
        s.len() as int
    } else if !(s[from] == ':' || s[from] == '@') {
        from
    } else {
        first_nonmod(s, from + 1)
    }
}

/// The position of the first tilde at or after `from`, or the length.
pub open spec fn first_tilde(s: Seq<char>, from: int) -> int
    decreases s.len() - from,
{
    if from < 0 || from >= s.len() {
        s.len() as int
    } else if s[from] == '~' {
        from
    } else {
        first_tilde(s, from + 1)
    }
}

/// One parameter slot: a quoted character, a run of digits, or nothing
/// (a missing slot). A quote with nothing after it is a missing slot and
/// consumes nothing. A digit run whose value does not fit is an error.
pub open spec fn sp_slot(s: Seq<char>) -> Result<(Param, Seq<char>), ParseError> {
    if s.len() >= 1 && s[0] == '\'' {
        if s.len() >= 2 {
            Ok((Param::Char(s[1]), s.skip(2)))
        } else {
            Ok((Param::Missing, s))
        }
    } else {
        let e = first_nondigit(s, 0);
        if e == 0 {
            Ok((Param::Missing, s))
        } else if digits_value(s.take(e)) > i64::MAX {
            Err(ParseError::BadParameter(ParamIssue::TooLarge))
        } else {
            Ok((Param::Num(digits_value(s.take(e)) as i64), s.skip(e)))
        }
    }
}

/// The parameter slots after the first: a comma, then a slot, repeatedly.
pub open spec fn sp_params_tail(s: Seq<char>, acc: Seq<Param>) -> Result<
    (Seq<Param>, Seq<char>),
    ParseError,
>
    decreases s.len(),
{
    if s.len() >= 1 && s[0] == ',' {
        match sp_slot(s.skip(1)) {
            Err(e) => Err(e),
            Ok((p, r)) => {
                if r.len() < s.len() {
                    sp_params_tail(r, acc.push(p))
                } else {
                    Ok((acc.push(p), r))
                }
            },
        }
    } else {
        Ok((acc, s))
    }
}

/// The comma-separated parameter list of a directive. There is always at
/// least one slot, possibly missing.
pub open spec fn sp_params(s: Seq<char>) -> Result<(Seq<Param>, Seq<char>), ParseError> {
    match sp_slot(s) {
        Err(e) => Err(e),
        Ok((p, r)) => sp_params_tail(r, seq![p]),
    }
}

/// The modifier flags: a run of colons and at signs.
pub open spec fn sp_modifiers(s: Seq<char>) -> (Modifiers, Seq<char>) {
    let e = first_nonmod(s, 0);
    (
        Modifiers {
            colon: exists|k: int| 0 <= k < e && s[k] == ':',
            at: exists|k: int| 0 <= k < e && s[k] == '@',
        },
        s.skip(e),
    )
}

/// A digit scan ends between its start and the length.
pub proof fn lemma_first_nondigit_range(s: Seq<char>, from: int)
    requires
        0 <= from <= s.len(),
    ensures
        from <= first_nondigit(s, from) <= s.len(),
    decreases s.len() - from,
{
    if from < s.len() && spec_is_digit(s[from]) {
        lemma_first_nondigit_range(s, from + 1);
    }
}

/// A slot leaves a suffix of its input.
pub proof fn lemma_sp_slot_rest(s: Seq<char>)
    ensures
        match sp_slot(s) {
            Ok((_, r)) => r.len() <= s.len(),
            Err(_) => true,
        },
{
    lemma_first_nondigit_range(s, 0);
}

/// The parameter tail leaves a suffix of its input.
pub proof fn lemma_sp_params_tail_rest(s: Seq<char>, acc: Seq<Param>)
    ensures
        match sp_params_tail(s, acc) {
            Ok((_, r)) => r.len() <= s.len(),
            Err(_) => true,
        },
    decreases s.len(),
{
    if s.len() >= 1 && s[0] == ',' {
        lemma_sp_slot_rest(s.skip(1));
        match sp_slot(s.skip(1)) {
            Err(_) => {},
            Ok((p, r)) => {
                if r.len() < s.len() {
                    lemma_sp_params_tail_rest(r, acc.push(p));
                }
            },
        }
    }
}

/// The parameter list leaves a suffix of its input.
pub proof fn lemma_sp_params_rest(s: Seq<char>)
    ensures
        match sp_params(s) {
            Ok((_, r)) => r.len() <= s.len(),
            Err(_) => true,
        },
{
    lemma_sp_slot_rest(s);
    match sp_slot(s) {
        Err(_) => {},
        Ok((p, r)) => {
            lemma_sp_params_tail_rest(r, seq![p]);
            assert(sp_params(s) == sp_params_tail(r, seq![p]));
        },
    }
}

/// Digit values never shrink when more digits follow.
proof fn lemma_digits_value_nonneg(s: Seq<char>)
    requires
        forall|i: int| 0 <= i < s.len() ==> spec_is_digit(#[trigger] s[i]),
    ensures
        digits_value(s) >= 0,
    decreases s.len(),
{
    if s.len() > 0 {
        lemma_digits_value_nonneg(s.drop_last());
    }
}

/// The upper-case form of an ASCII letter; other characters stay as they
/// are.
pub open spec fn spec_upper(c: char) -> char {
    if c == 'a' {
        'A'
    } else if c == 'b' {
        'B'
    } else if c == 'c' {
        'C'
    } else if c == 'd' {
        'D'
    } else if c == 'e' {
        'E'
    } else if c == 'f' {
        'F'
    } else if c == 'g' {
        'G'
    } else if c == 'h' {
        'H'
    } else if c == 'i' {
        'I'
    } else if c == 'j' {
        'J'
    } else if c == 'k' {
        'K'
    } else if c == 'l' {
        'L'
    } else if c == 'm' {
        'M'
    } else if c == 'n' {
        'N'
    } else if c == 'o' {
        'O'
    } else if c == 'p' {
        'P'
    } else if c == 'q' {
        'Q'
    } else if c == 'r' {
        'R'
    } else if c == 's' {
        'S'
    } else if c == 't' {
        'T'
    } else if c == 'u' {
        'U'
    } else if c == 'v' {
        'V'
    } else if c == 'w' {
        'W'
    } else if c == 'x' {
        'X'
    } else if c == 'y' {
        'Y'
    } else if c == 'z' {
        'Z'
    } else {
        c
    }
}

/// A parameter number as a size, which must fit the machine.
pub open spec fn spec_num_size(v: i64) -> Result<nat, ParseError> {
    if 0 <= v <= usize::MAX {
        Ok(v as nat)
    } else {
        Err(ParseError::BadParameter(ParamIssue::TooLarge))
    }
}

/// What ended a directive list at one bracket level.
#[derive(Debug, Clone, Copy, PartialEq, Eq, Structural)]
pub enum Stop {
    /// The control string ran out; brackets close permissively.
    End,
    /// The level's closing directive.
    Close,
    /// A plain section separator of a conditional.
    Sep,
    /// The default-marking separator of a conditional.
    DefaultSep,
}

/// Which closers and separators a directive list recognises.
#[derive(Debug, Clone, Copy, PartialEq, Eq, Structural)]
pub enum Term {
    /// The whole control string.
    Top,
    /// An alignment body, closed by tilde and a closing angle bracket.
    Angle,
    /// An iteration body, closed by tilde and a closing brace.
    Brace,
    /// A conditional section, ended by its separators or tilde and a
    /// closing square bracket.
    Bracket,
}

/// What one directive-list level parsed to: the directives, the rest of
/// the input, and what ended the level.
pub struct PList {
    pub dirs: Seq<SpecDirective>,
    pub rest: Seq<char>,
    pub stop: Stop,
}

/// Whether the input starts with the two given characters.
pub open spec fn starts2(s: Seq<char>, a: char, b: char) -> bool {
    s.len() >= 2 && s[0] == a && s[1] == b
}

/// Whether the input starts with the three given characters.
pub open spec fn starts3(s: Seq<char>, a: char, b: char, c: char) -> bool {
    s.len() >= 3 && s[0] == a && s[1] == b && s[2] == c
}

/// An alignment directive from its parameters, modifiers and body.
pub open spec fn sp_make_align(ps: Seq<Param>, m: Modifiers, inner: Seq<SpecDirective>) -> Result<
    SpecDirective,
    ParseError,
> {
    match spec_get_num(ps, 0, 0) {
        Err(e) => Err(e),
        Ok(n0) => match spec_get_num(ps, 1, 0) {
            Err(e) => Err(e),
            Ok(n1) => match spec_get_num(ps, 2, 0) {
                Err(e) => Err(e),
                Ok(n2) => match spec_get_char(ps, 3, ' ') {
                    Err(e) => Err(e),
                    Ok(pc) => match spec_num_size(n0) {
                        Err(e) => Err(e),
                        Ok(s0) => match spec_num_size(n1) {
                            Err(e) => Err(e),
                            Ok(s1) => match spec_num_size(n2) {
                                Err(e) => Err(e),
                                Ok(s2) => Ok(
                                    SpecDirective::Align {
                                        min_columns: s0,
                                        col_inc: s1,
                                        min_pad: s2,
                                        pad_char: pc,
                                        direction: spec_alignment_of(m),
                                        inner,
                                    },
                                ),
                            },
                        },
                    },
                },
            },
        },
    }
}

/// A conditional directive from its flags and sections; the arity rules
/// hold here.
pub open spec fn sp_new_conditional(
    boolean: bool,
    consumes: bool,
    choices: Seq<Seq<SpecDirective>>,
    default: Option<Seq<SpecDirective>>,
) -> Result<SpecDirective, ParseError> {
    if boolean && (choices.len() != 2 || default is Some) {
        Err(ParseError::MalformedConditional(CondIssue::BooleanArity))
    } else if consumes && (choices.len() != 1 || default is Some) {
        Err(ParseError::MalformedConditional(CondIssue::ConsumingArity))
    } else {
        Ok(SpecDirective::Conditional { boolean, consumes, choices, default })
    }
}

/// A single-letter directive from its parameters, modifiers and letter.
pub open spec fn sp_single(ps: Seq<Param>, m: Modifiers, c: char, in_loop: bool) -> Result<
    SpecDirective,
    ParseError,
> {
    let u = spec_upper(c);
    if u == 'A' {
        Ok(SpecDirective::TildeA)
    } else if u == 'S' {
        Ok(SpecDirective::TildeS)
    } else if u == 'D' {
        match spec_get_num(ps, 0, 0) {
            Err(e) => Err(e),
            Ok(n0) => match spec_get_char(ps, 1, ' ') {
                Err(e) => Err(e),
                Ok(pc) => match spec_get_char(ps, 2, ',') {
                    Err(e) => Err(e),
                    Ok(cc) => match spec_get_num(ps, 3, 3) {
                        Err(e) => Err(e),
                        Ok(n3) => match spec_num_size(n0) {
                            Err(e) => Err(e),
                            Ok(s0) => match spec_num_size(n3) {
                                Err(e) => Err(e),
                                Ok(s3) => Ok(
                                    SpecDirective::Decimal {
                                        min_columns: s0,
                                        pad_char: pc,
                                        comma_char: cc,
                                        comma_interval: s3,
                                        print_commas: m.colon,
                                        print_sign: m.at,
                                    },
                                ),
                            },
                        },
                    },
                },
            },
        }
    } else if u == 'F' {
        match spec_get_num(ps, 0, 0) {
            Err(e) => Err(e),
            Ok(n0) => match spec_get_num(ps, 1, 0) {
                Err(e) => Err(e),
                Ok(n1) => match spec_assert_missing(ps, 2) {
                    Err(e) => Err(e),
                    Ok(_) => match spec_assert_missing(ps, 3) {
                        Err(e) => Err(e),
                        Ok(_) => match spec_assert_missing(ps, 4) {
                            Err(e) => Err(e),
                            Ok(_) => match spec_get_char(ps, 5, ' ') {
                                Err(e) => Err(e),
                                Ok(pc) => match spec_num_size(n0) {
                                    Err(e) => Err(e),
                                    Ok(s0) => match spec_num_size(n1) {
                                        Err(e) => Err(e),
                                        Ok(s1) => Ok(
                                            SpecDirective::Float {
                                                width: s0,
                                                num_decimal_places: s1,
                                                pad_char: pc,
                                            },
                                        ),
                                    },
                                },
                            },
                        },
                    },
                },
            },
        }
    } else if c == '%' {
        Ok(SpecDirective::Newline)
    } else if c == '*' {
        Ok(SpecDirective::Skip)
    } else if c == '^' {
        if in_loop {
            Ok(SpecDirective::Break)
        } else {
            Err(ParseError::BreakOutsideLoop)
        }
    } else {
        Err(ParseError::InvalidDirective(u))
    }
}

/// One segment: a literal run, a bracketed block, or a single-letter
/// directive.
pub open spec fn sp_segment(s: Seq<char>, in_loop: bool) -> Result<
    (SpecDirective, Seq<char>),
    ParseError,
>
    decreases s.len(), 2nat,
{
    if s.len() == 0 {
        Err(ParseError::UnterminatedDirective)
    } else if s[0] != '~' {
        let e = first_tilde(s, 0);
        Ok((SpecDirective::Literal(s.take(e)), s.skip(e)))
    } else {
        match sp_params(s.skip(1)) {
            Err(e) => Err(e),
            Ok((ps, s2)) => {
                let (m, s3) = sp_modifiers(s2);
                if s3.len() == 0 {
                    Err(ParseError::UnterminatedDirective)
                } else {
                    let c = s3[0];
                    if c == '<' {
                        if s3.len() < s.len() {
                            match sp_list(s3.skip(1), in_loop, Term::Angle, Seq::empty()) {
                                Err(e) => Err(e),
                                Ok(pl) => match sp_make_align(ps, m, pl.dirs) {
                                    Err(e) => Err(e),
                                    Ok(d) => Ok((d, pl.rest)),
                                },
                            }
                        } else {
                            Err(ParseError::UnterminatedDirective)
                        }
                    } else if c == '[' {
                        if s3.len() < s.len() {
                            match sp_sections(s3.skip(1), in_loop, Seq::empty(), None) {
                                Err(e) => Err(e),
                                Ok((cs, df, rest)) => match sp_new_conditional(
                                    m.colon,
                                    m.at,
                                    cs,
                                    df,
                                ) {
                                    Err(e) => Err(e),
                                    Ok(d) => Ok((d, rest)),
                                },
                            }
                        } else {
                            Err(ParseError::UnterminatedDirective)
                        }
                    } else if c == '{' {
                        if ps == seq![Param::Missing] && !m.colon && !m.at {
                            if s3.len() < s.len() {
                                match sp_list(s3.skip(1), true, Term::Brace, Seq::empty()) {
                                    Err(e) => Err(e),
                                    Ok(pl) => Ok((SpecDirective::Iteration(pl.dirs), pl.rest)),
                                }
                            } else {
                                Err(ParseError::UnterminatedDirective)
                            }
                        } else {
                            Err(ParseError::InvalidDirective('{'))
                        }
                    } else {
                        match sp_single(ps, m, c, in_loop) {
                            Err(e) => Err(e),
                            Ok(d) => Ok((d, s3.skip(1))),
                        }
                    }
                }
            },
        }
    }
}

/// One directive-list level: segments until the level's closer, a
/// separator, or the end of the input.
pub open spec fn sp_list(s: Seq<char>, in_loop: bool, term: Term, acc: Seq<SpecDirective>) -> Result<
    PList,
    ParseError,
>
    decreases s.len(), 3nat,
{
    if s.len() == 0 {
        Ok(PList { dirs: acc, rest: s, stop: Stop::End })
    } else if term is Angle && starts2(s, '~', '>') {
        Ok(PList { dirs: acc, rest: s.skip(2), stop: Stop::Close })
    } else if term is Brace && starts2(s, '~', '}') {
        Ok(PList { dirs: acc, rest: s.skip(2), stop: Stop::Close })
    } else if term is Bracket && starts2(s, '~', ']') {
        Ok(PList { dirs: acc, rest: s.skip(2), stop: Stop::Close })
    } else if term is Bracket && starts2(s, '~', ';') {
        Ok(PList { dirs: acc, rest: s.skip(2), stop: Stop::Sep })
    } else if term is Bracket && starts3(s, '~', ':', ';') {
        Ok(PList { dirs: acc, rest: s.skip(3), stop: Stop::DefaultSep })
    } else {
        match sp_segment(s, in_loop) {
            Err(e) => Err(e),
            Ok((d, r)) => {
                if r.len() < s.len() {
                    sp_list(r, in_loop, term, acc.push(d))
                } else {
                    Ok(PList { dirs: acc.push(d), rest: r, stop: Stop::End })
                }
            },
        }
    }
}

/// The sections of a conditional: choices separated by plain separators,
/// with an optional trailing default. A second default marker pushes an
/// empty choice and starts the default over; a section begun at the end of
/// the input without its closer is dropped unless the default is open.
pub open spec fn sp_sections(
    s: Seq<char>,
    in_loop: bool,
    choices: Seq<Seq<SpecDirective>>,
    default: Option<Seq<SpecDirective>>,
) -> Result<(Seq<Seq<SpecDirective>>, Option<Seq<SpecDirective>>, Seq<char>), ParseError>
    decreases s.len(), 4nat,
{
    match sp_list(s, in_loop, Term::Bracket, Seq::empty()) {
        Err(e) => Err(e),
        Ok(pl) => match pl.stop {
            Stop::End => match default {
                Some(df) => Ok((choices, Some(df + pl.dirs), pl.rest)),
                None => Ok((choices, None, pl.rest)),
            },
            Stop::Close => match default {
                Some(df) => Ok((choices, Some(df + pl.dirs), pl.rest)),
                None => {
                    if pl.dirs.len() > 0 {
                        Ok((choices.push(pl.dirs), None, pl.rest))
                    } else {
                        Ok((choices, None, pl.rest))
                    }
                },
            },
            Stop::Sep => {
                if default is Some {
                    Err(ParseError::MalformedConditional(CondIssue::DefaultNotLast))
                } else if pl.rest.len() < s.len() {
                    sp_sections(pl.rest, in_loop, choices.push(pl.dirs), None)
                } else {
                    Ok((choices.push(pl.dirs), None, pl.rest))
                }
            },
            Stop::DefaultSep => {
                let pushed = if default is Some {
                    choices.push(Seq::empty())
                } else {
                    choices.push(pl.dirs)
                };
                if pl.rest.len() < s.len() {
                    sp_sections(pl.rest, in_loop, pushed, Some(Seq::empty()))
                } else {
                    Ok((pushed, Some(Seq::empty()), pl.rest))
                }
            },
        },
    }
}

/// A segment strictly consumes input.
pub proof fn lemma_sp_segment_rest(s: Seq<char>, in_loop: bool)
    ensures
        match sp_segment(s, in_loop) {
            Ok((_, r)) => r.len() < s.len(),
            Err(_) => true,
        },
    decreases s.len(), 2nat,
{
    if s.len() == 0 {
    } else if s[0] != '~' {
        lemma_first_tilde_range(s);
    } else {
        lemma_sp_params_rest(s.skip(1));
        match sp_params(s.skip(1)) {
            Err(_) => {},
            Ok((ps, s2)) => {
                let (m, s3) = sp_modifiers(s2);
                lemma_first_nonmod_range(s2, 0);
                if s3.len() > 0 {
                    let c = s3[0];
                    if c == '<' {
                        if s3.len() < s.len() {
                            lemma_sp_list_rest(s3.skip(1), in_loop, Term::Angle, Seq::empty());
                        }
                    } else if c == '[' {
                        if s3.len() < s.len() {
                            lemma_sp_sections_rest(s3.skip(1), in_loop, Seq::empty(), None);
                        }
                    } else if c == '{' {
                        if ps == seq![Param::Missing] && !m.colon && !m.at && s3.len() < s.len() {
                            lemma_sp_list_rest(s3.skip(1), true, Term::Brace, Seq::empty());
                        }
                    }
                }
            },
        }
    }
}

/// A directive-list level leaves a suffix of its input, a strict one
/// unless the input simply ran out.
pub proof fn lemma_sp_list_rest(s: Seq<char>, in_loop: bool, term: Term, acc: Seq<SpecDirective>)
    ensures
        match sp_list(s, in_loop, term, acc) {
            Ok(pl) => pl.rest.len() <= s.len() && (!(pl.stop is End) ==> pl.rest.len() < s.len()),
            Err(_) => true,
        },
    decreases s.len(), 3nat,
{
    if s.len() == 0 {
    } else if (term is Angle && starts2(s, '~', '>')) || (term is Brace && starts2(s, '~', '}'))
        || (term is Bracket && starts2(s, '~', ']')) || (term is Bracket && starts2(s, '~', ';'))
        || (term is Bracket && starts3(s, '~', ':', ';')) {
    } else {
        lemma_sp_segment_rest(s, in_loop);
        match sp_segment(s, in_loop) {
            Err(_) => {},
            Ok((d, r)) => {
                if r.len() < s.len() {
                    lemma_sp_list_rest(r, in_loop, term, acc.push(d));
                }
            },
        }
    }
}

/// The sections of a conditional leave a suffix of their input.
pub proof fn lemma_sp_sections_rest(
    s: Seq<char>,
    in_loop: bool,
    choices: Seq<Seq<SpecDirective>>,
    default: Option<Seq<SpecDirective>>,
)
    ensures
        match sp_sections(s, in_loop, choices, default) {
            Ok((_, _, r)) => r.len() <= s.len(),
            Err(_) => true,
        },
    decreases s.len(), 4nat,
{
    lemma_sp_list_rest(s, in_loop, Term::Bracket, Seq::empty());
    match sp_list(s, in_loop, Term::Bracket, Seq::empty()) {
        Err(_) => {},
        Ok(pl) => {
            if pl.rest.len() < s.len() {
                match pl.stop {
                    Stop::Sep => {
                        if !(default is Some) {
                            lemma_sp_sections_rest(pl.rest, in_loop, choices.push(pl.dirs), None);
                        }
                    },
                    Stop::DefaultSep => {
                        let pushed = if default is Some {
                            choices.push(Seq::empty())
                        } else {
                            choices.push(pl.dirs)
                        };
                        lemma_sp_sections_rest(pl.rest, in_loop, pushed, Some(Seq::empty()));
                    },
                    _ => {},
                }
            }
        },
    }
}

/// A tilde scan ends between its start and the length.
pub proof fn lemma_first_tilde_range(s: Seq<char>)
    ensures
        0 <= first_tilde(s, 0) <= s.len(),
        s.len() > 0 && s[0] != '~' ==> first_tilde(s, 0) >= 1,
    decreases s.len(),
{
    lemma_first_tilde_range_from(s, 0);
    if s.len() > 0 && s[0] != '~' {
        lemma_first_tilde_range_from(s, 1);
    }
}

/// A tilde scan from a position ends between it and the length.
pub proof fn lemma_first_tilde_range_from(s: Seq<char>, from: int)
    requires
        0 <= from <= s.len(),
    ensures
        from <= first_tilde(s, from) <= s.len(),
    decreases s.len() - from,
{
    if from < s.len() && s[from] != '~' {
        lemma_first_tilde_range_from(s, from + 1);
    }
}

/// A modifier scan ends between its start and the length.
pub proof fn lemma_first_nonmod_range(s: Seq<char>, from: int)
    requires
        0 <= from <= s.len(),
    ensures
        from <= first_nonmod(s, from) <= s.len(),
    decreases s.len() - from,
{
    if from < s.len() && (s[from] == ':' || s[from] == '@') {
        lemma_first_nonmod_range(s, from + 1);
    }
}

/// Reads one parameter slot at `pos`.
pub fn param_slot(chars: &Vec<char>, pos: usize) -> (r: Result<(Param, usize), ParseError>)
    requires
        pos <= chars@.len(),
    ensures
        match r {
            Ok((p, j)) => {
                &&& pos <= j <= chars@.len()
                &&& sp_slot(chars@.skip(pos as int)) == Ok::<_, ParseError>(
                    (p, chars@.skip(j as int)),
                )
            },
            Err(e) => sp_slot(chars@.skip(pos as int)) == Err::<(Param, Seq<char>), _>(e),
        },
{
    let ghost s = chars@.skip(pos as int);
    let n = chars.len();
    if pos < n && chars[pos] == '\'' {
        if pos + 1 < n {
            let c = chars[pos + 1];
            proof {
                assert(s[1] == c);
                assert(s.skip(2) =~= chars@.skip(pos + 2));
            }
            Ok((Param::Char(c), pos + 2))
        } else {
            Ok((Param::Missing, pos))
        }
    } else {
        // Scan the digit run, accumulating its value with an overflow
        // check.
        let mut j = pos;
        let mut acc: i64 = 0;
        let mut over = false;
        while j < n && digit_val(chars[j]) >= 0
            invariant
                pos <= j <= n,
                n == chars@.len(),
                s == chars@.skip(pos as int),
                first_nondigit(s, 0) == first_nondigit(s, j - pos),
                forall|k: int| 0 <= k < j - pos ==> spec_is_digit(#[trigger] s[k]),
                !over ==> acc == digits_value(s.take(j - pos)),
                over ==> digits_value(s.take(j - pos)) > i64::MAX,
                over ==> j > pos,
                acc >= 0,
            decreases n - j,
        {
            let d = digit_val(chars[j]);
            proof {
                assert(s[j - pos] == chars@[j as int]);
                assert(s.take(j + 1 - pos).drop_last() =~= s.take(j - pos));
                assert(s.take(j + 1 - pos).last() == s[j - pos]);
            }
            if !over {
                if acc <= (i64::MAX - d as i64) / 10 {
                    acc = acc * 10 + d as i64;
                } else {
                    proof {
                        assert(digits_value(s.take(j + 1 - pos)) > i64::MAX);
                    }
                    over = true;
                }
            } else {
                proof {
                    lemma_digits_value_nonneg(s.take(j - pos));
                    assert(digits_value(s.take(j + 1 - pos)) > i64::MAX);
                }
            }
            j = j + 1;
        }
        proof {
            assert(first_nondigit(s, 0) == j - pos);
        }
        if j == pos {
            Ok((Param::Missing, pos))
        } else if over {
            Err(ParseError::BadParameter(ParamIssue::TooLarge))
        } else {
            proof {
                assert(s.skip(j - pos) =~= chars@.skip(j as int));
            }
            Ok((Param::Num(acc), j))
        }
    }
}

/// Reads the comma-separated parameter list at `pos`.
pub fn params(chars: &Vec<char>, pos: usize) -> (r: Result<(Params, usize), ParseError>)
    requires
        pos <= chars@.len(),
    ensures
        match r {
            Ok((ps, j)) => {
                &&& pos <= j <= chars@.len()
                &&& sp_params(chars@.skip(pos as int)) == Ok::<_, ParseError>(
                    (ps.parsed@, chars@.skip(j as int)),
                )
            },
            Err(e) => sp_params(chars@.skip(pos as int)) == Err::<(Seq<Param>, Seq<char>), _>(e),
        },
{
    let ghost s = chars@.skip(pos as int);
    let first = param_slot(chars, pos);
    match first {
        Err(e) => Err(e),
        Ok((p, mut j)) => {
            let mut acc: Vec<Param> = Vec::new();
            acc.push(p);
            let n = chars.len();
            loop
                invariant
                    pos <= j <= n,
                    n == chars@.len(),
                    s == chars@.skip(pos as int),
                    sp_params(s) == sp_params_tail(chars@.skip(j as int), acc@),
                decreases n - j,
            {
                let ghost cur = chars@.skip(j as int);
                if j < n && chars[j] == ',' {
                    proof {
                        assert(cur[0] == ',');
                        assert(cur.skip(1) =~= chars@.skip(j + 1));
                    }
                    match param_slot(chars, j + 1) {
                        Err(e) => {
                            return Err(e);
                        },
                        Ok((p2, j2)) => {
                            proof {
                                lemma_sp_slot_rest(chars@.skip(j + 1));
                            }
                            acc.push(p2);
                            if j2 == j {
                                // A slot after a comma always consumes the
                                // comma's position or more; unreachable.
                                assert(false);
                            }
                            j = j2;
                        },
                    }
                } else {
                    proof {
                        assert(!(cur.len() >= 1 && cur[0] == ','));
                    }
                    return Ok((Params::new(acc), j));
                }
            }
        },
    }
}

/// Reads the modifier flags at `pos`.
pub fn modifiers(chars: &Vec<char>, pos: usize) -> (r: (Modifiers, usize))
    requires
        pos <= chars@.len(),
    ensures
        pos <= r.1 <= chars@.len(),
        sp_modifiers(chars@.skip(pos as int)) == (r.0, chars@.skip(r.1 as int)),
{
    let ghost s = chars@.skip(pos as int);
    let n = chars.len();
    let mut j = pos;
    let mut colon = false;
    let mut at = false;
    while j < n && (chars[j] == ':' || chars[j] == '@')
        invariant
            pos <= j <= n,
            n == chars@.len(),
            s == chars@.skip(pos as int),
            first_nonmod(s, 0) == first_nonmod(s, j - pos),
            colon == exists|k: int| 0 <= k < j - pos && s[k] == ':',
            at == exists|k: int| 0 <= k < j - pos && s[k] == '@',
        decreases n - j,
    {
        proof {
            assert(s[j - pos] == chars@[j as int]);
        }
        if chars[j] == ':' {
            colon = true;
        } else {
            at = true;
        }
        j = j + 1;
    }
    proof {
        assert(first_nonmod(s, 0) == j - pos);
        assert(s.skip(j - pos) =~= chars@.skip(j as int));
    }
    (Modifiers { colon, at }, j)
}

/// The upper-case form of an ASCII letter.
fn to_upper(c: char) -> (r: char)
    ensures
        r == spec_upper(c),
{
    match c {
        'a' => 'A',
        'b' => 'B',
        'c' => 'C',
        'd' => 'D',
        'e' => 'E',
        'f' => 'F',
        'g' => 'G',
        'h' => 'H',
        'i' => 'I',
        'j' => 'J',
        'k' => 'K',
        'l' => 'L',
        'm' => 'M',
        'n' => 'N',
        'o' => 'O',
        'p' => 'P',
        'q' => 'Q',
        'r' => 'R',
        's' => 'S',
        't' => 'T',
        'u' => 'U',
        'v' => 'V',
        'w' => 'W',
        'x' => 'X',
        'y' => 'Y',
        'z' => 'Z',
        _ => c,
    }
}

/// A parameter number as a size, which must fit the machine.
fn num_size(v: i64) -> (r: Result<usize, ParseError>)
    ensures
        match r {
            Ok(u) => spec_num_size(v) == Ok::<nat, ParseError>(u as nat),
            Err(e) => spec_num_size(v) == Err::<nat, ParseError>(e),
        },
{
    if v >= 0 && (v as u128) <= (usize::MAX as u128) {
        Ok(v as usize)
    } else {
        Err(ParseError::BadParameter(ParamIssue::TooLarge))
    }
}

/// Builds an alignment directive from parameters, modifiers and a parsed
/// body.
pub fn params_to_align(params: Params, modifiers: Modifiers, inner: Vec<Directive>) -> (r: Result<
    Directive,
    ParseError,
>)
    ensures
        match r {
            Ok(d) => sp_make_align(params.parsed@, modifiers, deep_view_list(inner@)) == Ok::<
                _,
                ParseError,
            >(d.deep_view()),
            Err(e) => sp_make_align(params.parsed@, modifiers, deep_view_list(inner@)) == Err::<
                SpecDirective,
                _,
            >(e),
        },
{
    let n0 = match params.get_num(0, 0) {
        Ok(v) => v,
        Err(e) => {
            return Err(e);
        },
    };
    let n1 = match params.get_num(1, 0) {
        Ok(v) => v,
        Err(e) => {
            return Err(e);
        },
    };
    let n2 = match params.get_num(2, 0) {
        Ok(v) => v,
        Err(e) => {
            return Err(e);
        },
    };
    let pad_char = match params.get_char(3, ' ') {
        Ok(v) => v,
        Err(e) => {
            return Err(e);
        },
    };
    let min_columns = match num_size(n0) {
        Ok(v) => v,
        Err(e) => {
            return Err(e);
        },
    };
    let col_inc = match num_size(n1) {
        Ok(v) => v,
        Err(e) => {
            return Err(e);
        },
    };
    let min_pad = match num_size(n2) {
        Ok(v) => v,
        Err(e) => {
            return Err(e);
        },
    };
    Ok(
        Directive::Align {
            min_columns,
            col_inc,
            min_pad,
            pad_char,
            direction: Alignment::from(modifiers),
            inner,
        },
    )
}

/// Builds a single-letter directive from parameters, modifiers and its
/// letter.
fn single_directive(params: &Params, modifiers: Modifiers, c: char, in_loop: bool) -> (r: Result<
    Directive,
    ParseError,
>)
    ensures
        match r {
            Ok(d) => sp_single(params.parsed@, modifiers, c, in_loop) == Ok::<_, ParseError>(
                d.deep_view(),
            ),
            Err(e) => sp_single(params.parsed@, modifiers, c, in_loop) == Err::<SpecDirective, _>(
                e,
            ),
        },
{
    let u = to_upper(c);
    if u == 'A' {
        Ok(Directive::TildeA)
    } else if u == 'S' {
        Ok(Directive::TildeS)
    } else if u == 'D' {
        let n0 = match params.get_num(0, 0) {
            Ok(v) => v,
            Err(e) => {
                return Err(e);
            },
        };
        let pad_char = match params.get_char(1, ' ') {
            Ok(v) => v,
            Err(e) => {
                return Err(e);
            },
        };
        let comma_char = match params.get_char(2, ',') {
            Ok(v) => v,
            Err(e) => {
                return Err(e);
            },
        };
        let n3 = match params.get_num(3, 3) {
            Ok(v) => v,
            Err(e) => {
                return Err(e);
            },
        };
        let min_columns = match num_size(n0) {
            Ok(v) => v,
            Err(e) => {
                return Err(e);
            },
        };
        let comma_interval = match num_size(n3) {
            Ok(v) => v,
            Err(e) => {
                return Err(e);
            },
        };
        Ok(
            Directive::Decimal {
                min_columns,
                pad_char,
                comma_char,
                comma_interval,
                print_commas: modifiers.colon,
                print_sign: modifiers.at,
            },
        )
    } else if u == 'F' {
        let n0 = match params.get_num(0, 0) {
            Ok(v) => v,
            Err(e) => {
                return Err(e);
            },
        };
        let n1 = match params.get_num(1, 0) {
            Ok(v) => v,
            Err(e) => {
                return Err(e);
            },
        };
        match params.assert_missing(2) {
            Ok(_) => (),
            Err(e) => {
                return Err(e);
            },
        };
        match params.assert_missing(3) {
            Ok(_) => (),
            Err(e) => {
                return Err(e);
            },
        };
        match params.assert_missing(4) {
            Ok(_) => (),
            Err(e) => {
                return Err(e);
            },
        };
        let pad_char = match params.get_char(5, ' ') {
            Ok(v) => v,
            Err(e) => {
                return Err(e);
            },
        };
        let width = match num_size(n0) {
            Ok(v) => v,
            Err(e) => {
                return Err(e);
            },
        };
        let num_decimal_places = match num_size(n1) {
            Ok(v) => v,
            Err(e) => {
                return Err(e);
            },
        };
        Ok(Directive::Float { width, num_decimal_places, pad_char })
    } else if c == '%' {
        Ok(Directive::Newline)
    } else if c == '*' {
        Ok(Directive::Skip)
    } else if c == '^' {
        if in_loop {
            Ok(Directive::Break)
        } else {
            Err(ParseError::BreakOutsideLoop)
        }
    } else {
        Err(ParseError::InvalidDirective(u))
    }
}

impl Directive {
    /// Builds a conditional directive; the arity rules for boolean and
    /// consuming conditionals hold here.
    pub fn new_conditional(
        boolean: bool,
        consumes: bool,
        choices: Vec<Vec<Directive>>,
        default: Option<Vec<Directive>>,
    ) -> (r: Result<Directive, ParseError>)
        ensures
            ({
                let sdf = match default {
                    Some(v) => Some(deep_view_list(v@)),
                    None => None,
                };
                match r {
                    Ok(d) => sp_new_conditional(boolean, consumes, deep_view_lists(choices@), sdf)
                        == Ok::<_, ParseError>(d.deep_view()),
                    Err(e) => sp_new_conditional(boolean, consumes, deep_view_lists(choices@), sdf)
                        == Err::<SpecDirective, _>(e),
                }
            }),
    {
        proof {
            lemma_deep_view_lists(choices@);
        }
        if boolean && (choices.len() != 2 || default.is_some()) {
            Err(ParseError::MalformedConditional(CondIssue::BooleanArity))
        } else if consumes && (choices.len() != 1 || default.is_some()) {
            Err(ParseError::MalformedConditional(CondIssue::ConsumingArity))
        } else {
            Ok(Directive::Conditional { boolean, consumes, default, choices })
        }
    }
}

/// Reads a maximal run of plain text at `pos`; nothing when the input is
/// exhausted or a tilde comes first.
pub fn literal(chars: &Vec<char>, pos: usize) -> (r: Option<(Directive, usize)>)
    requires
        pos <= chars@.len(),
    ensures
        ({
            let s = chars@.skip(pos as int);
            match r {
                Some((d, j)) => {
                    &&& s.len() > 0 && s[0] != '~'
                    &&& pos < j <= chars@.len()
                    &&& d.deep_view() == SpecDirective::Literal(s.take(first_tilde(s, 0)))
                    &&& chars@.skip(j as int) == s.skip(first_tilde(s, 0))
                },
                None => s.len() == 0 || s[0] == '~',
            }
        }),
{
    let ghost s = chars@.skip(pos as int);
    let n = chars.len();
    if pos >= n || chars[pos] == '~' {
        return None;
    }
    let mut j = pos;
    let mut buf: Vec<char> = Vec::new();
    while j < n && chars[j] != '~'
        invariant
            pos <= j <= n,
            n == chars@.len(),
            s == chars@.skip(pos as int),
            first_tilde(s, 0) == first_tilde(s, j - pos),
            buf@ == s.take(j - pos),
        decreases n - j,
    {
        proof {
            assert(s[j - pos] == chars@[j as int]);
        }
        buf.push(chars[j]);
        assert(buf@ =~= s.take(j + 1 - pos));
        j = j + 1;
    }
    proof {
        assert(first_tilde(s, 0) == j - pos);
        assert(s.skip(j - pos) =~= chars@.skip(j as int));
    }
    let text = crate::text::chars_to_string(&buf);
    Some((Directive::Literal(text), j))
}

/// Reads one segment at `pos`: a literal run, a bracketed block, or a
/// single-letter directive.
pub fn segment(chars: &Vec<char>, pos: usize, in_loop: bool) -> (r: Result<
    (Directive, usize),
    ParseError,
>)
    requires
        pos <= chars@.len(),
    ensures
        ({
            let s = chars@.skip(pos as int);
            match r {
                Ok((d, j)) => {
                    &&& pos <= j <= chars@.len()
                    &&& sp_segment(s, in_loop) == Ok::<_, ParseError>(
                        (d.deep_view(), chars@.skip(j as int)),
                    )
                },
                Err(e) => sp_segment(s, in_loop) == Err::<(SpecDirective, Seq<char>), _>(e),
            }
        }),
    decreases chars@.len() - pos, 2nat,
{
    let ghost s = chars@.skip(pos as int);
    let n = chars.len();
    if pos >= n {
        return Err(ParseError::UnterminatedDirective);
    }
    match literal(chars, pos) {
        Some((d, j)) => {
            return Ok((d, j));
        },
        None => {},
    }
    assert(s[0] == '~');
    proof {
        assert(s.skip(1) =~= chars@.skip(pos + 1));
    }
    let (ps, q2) = match params(chars, pos + 1) {
        Ok(v) => v,
        Err(e) => {
            return Err(e);
        },
    };
    let (m, q3) = modifiers(chars, q2);
    if q3 >= n {
        return Err(ParseError::UnterminatedDirective);
    }
    let c = chars[q3];
    let ghost s3 = chars@.skip(q3 as int);
    proof {
        assert(s3[0] == c);
        assert(s3.len() < s.len());
        assert(s3.skip(1) =~= chars@.skip(q3 + 1));
    }
    if c == '<' {
        match parse_list(chars, q3 + 1, in_loop, Term::Angle) {
            Err(e) => Err(e),
            Ok((dirs, j, _stop)) => match params_to_align(ps, m, dirs) {
                Ok(d) => Ok((d, j)),
                Err(e) => Err(e),
            },
        }
    } else if c == '[' {
        match parse_sections(chars, q3 + 1, in_loop) {
            Err(e) => Err(e),
            Ok((cs, df, j)) => match Directive::new_conditional(m.colon, m.at, cs, df) {
                Ok(d) => Ok((d, j)),
                Err(e) => Err(e),
            },
        }
    } else if c == '{' {
        let trivial = ps.parsed.len() == 1 && matches!(ps.parsed[0], Param::Missing) && !m.colon
            && !m.at;
        proof {
            if ps.parsed@.len() == 1 && ps.parsed@[0] is Missing {
                assert(ps.parsed@ =~= seq![Param::Missing]);
            }
            assert(seq![Param::Missing].len() == 1);
            assert(seq![Param::Missing][0] is Missing);
        }
        if trivial {
            match parse_list(chars, q3 + 1, true, Term::Brace) {
                Err(e) => Err(e),
                Ok((dirs, j, _stop)) => Ok((Directive::Iteration(dirs), j)),
            }
        } else {
            Err(ParseError::InvalidDirective('{'))
        }
    } else {
        match single_directive(&ps, m, c, in_loop) {
            Ok(d) => Ok((d, q3 + 1)),
            Err(e) => Err(e),
        }
    }
}

/// Reads one directive-list level at `pos`: segments until the level's
/// closer, a separator, or the end of the input.
pub fn parse_list(chars: &Vec<char>, pos: usize, in_loop: bool, term: Term) -> (r: Result<
    (Vec<Directive>, usize, Stop),
    ParseError,
>)
    requires
        pos <= chars@.len(),
    ensures
        ({
            let s = chars@.skip(pos as int);
            match r {
                Ok((dirs, j, stop)) => {
                    &&& pos <= j <= chars@.len()
                    &&& sp_list(s, in_loop, term, Seq::empty()) == Ok::<_, ParseError>(
                        PList {
                            dirs: deep_view_list(dirs@),
                            rest: chars@.skip(j as int),
                            stop,
                        },
                    )
                },
                Err(e) => sp_list(s, in_loop, term, Seq::empty()) == Err::<PList, _>(e),
            }
        }),
    decreases chars@.len() - pos, 3nat,
{
    let ghost s = chars@.skip(pos as int);
    let n = chars.len();
    let mut acc: Vec<Directive> = Vec::new();
    let mut j = pos;
    proof {
        assert(deep_view_list(acc@) =~= Seq::<SpecDirective>::empty());
    }
    loop
        invariant
            pos <= j <= n,
            n == chars@.len(),
            s == chars@.skip(pos as int),
            sp_list(s, in_loop, term, Seq::empty()) == sp_list(
                chars@.skip(j as int),
                in_loop,
                term,
                deep_view_list(acc@),
            ),
        decreases n - j,
    {
        let ghost cur = chars@.skip(j as int);
        if j >= n {
            return Ok((acc, j, Stop::End));
        }
        proof {
            assert(cur[0] == chars@[j as int]);
            if j + 1 < n {
                assert(cur[1] == chars@[j + 1]);
            }
            if j + 2 < n {
                assert(cur[2] == chars@[j + 2]);
            }
        }
        let tilde = chars[j] == '~';
        match term {
            Term::Top => {},
            Term::Angle => {
                if tilde && j + 1 < n && chars[j + 1] == '>' {
                    proof {
                        assert(cur.skip(2) =~= chars@.skip(j + 2));
                    }
                    return Ok((acc, j + 2, Stop::Close));
                }
            },
            Term::Brace => {
                if tilde && j + 1 < n && chars[j + 1] == '}' {
                    proof {
                        assert(cur.skip(2) =~= chars@.skip(j + 2));
                    }
                    return Ok((acc, j + 2, Stop::Close));
                }
            },
            Term::Bracket => {
                if tilde && j + 1 < n && chars[j + 1] == ']' {
                    proof {
                        assert(cur.skip(2) =~= chars@.skip(j + 2));
                    }
                    return Ok((acc, j + 2, Stop::Close));
                }
                if tilde && j + 1 < n && chars[j + 1] == ';' {
                    proof {
                        assert(cur.skip(2) =~= chars@.skip(j + 2));
                    }
                    return Ok((acc, j + 2, Stop::Sep));
                }
                if tilde && n - j > 2 && chars[j + 1] == ':' && chars[j + 2] == ';' {
                    proof {
                        assert(cur.skip(3) =~= chars@.skip(j + 3));
                    }
                    return Ok((acc, j + 3, Stop::DefaultSep));
                }
            },
        }
        match segment(chars, j, in_loop) {
            Err(e) => {
                return Err(e);
            },
            Ok((d, j2)) => {
                proof {
                    lemma_sp_segment_rest(cur, in_loop);
                    lemma_deep_view_list_push(acc@, d);
                }
                acc.push(d);
                j = j2;
            },
        }
    }
}

/// Reads the sections of a conditional at `pos`, after its opening
/// bracket.
pub fn parse_sections(chars: &Vec<char>, pos: usize, in_loop: bool) -> (r: Result<
    (Vec<Vec<Directive>>, Option<Vec<Directive>>, usize),
    ParseError,
>)
    requires
        pos <= chars@.len(),
    ensures
        ({
            let s = chars@.skip(pos as int);
            match r {
                Ok((cs, df, j)) => {
                    &&& pos <= j <= chars@.len()
                    &&& sp_sections(s, in_loop, Seq::empty(), None) == Ok::<_, ParseError>(
                        (
                            deep_view_lists(cs@),
                            match df {
                                Some(v) => Some(deep_view_list(v@)),
                                None => None,
                            },
                            chars@.skip(j as int),
                        ),
                    )
                },
                Err(e) => sp_sections(s, in_loop, Seq::empty(), None) == Err::<
                    (Seq<Seq<SpecDirective>>, Option<Seq<SpecDirective>>, Seq<char>),
                    _,
                >(e),
            }
        }),
    decreases chars@.len() - pos, 4nat,
{
    let ghost s = chars@.skip(pos as int);
    let n = chars.len();
    let mut cs: Vec<Vec<Directive>> = Vec::new();
    let mut has_default = false;
    let mut j = pos;
    proof {
        assert(deep_view_lists(cs@) =~= Seq::<Seq<SpecDirective>>::empty());
    }
    loop
        invariant
            pos <= j <= n,
            n == chars@.len(),
            s == chars@.skip(pos as int),
            sp_sections(s, in_loop, Seq::empty(), None) == sp_sections(
                chars@.skip(j as int),
                in_loop,
                deep_view_lists(cs@),
                if has_default {
                    Some(Seq::<SpecDirective>::empty())
                } else {
                    None
                },
            ),
        decreases n - j,
    {
        let ghost cur = chars@.skip(j as int);
        match parse_list(chars, j, in_loop, Term::Bracket) {
            Err(e) => {
                return Err(e);
            },
            Ok((dirs, j2, stop)) => {
                proof {
                    lemma_sp_list_rest(cur, in_loop, Term::Bracket, Seq::empty());
                    lemma_deep_view_list(dirs@);
                }
                match stop {
                    Stop::End => {
                        if has_default {
                            proof {
                                assert(Seq::<SpecDirective>::empty() + deep_view_list(dirs@)
                                    =~= deep_view_list(dirs@));
                            }
                            return Ok((cs, Some(dirs), j2));
                        } else {
                            return Ok((cs, None, j2));
                        }
                    },
                    Stop::Close => {
                        if has_default {
                            proof {
                                assert(Seq::<SpecDirective>::empty() + deep_view_list(dirs@)
                                    =~= deep_view_list(dirs@));
                            }
                            return Ok((cs, Some(dirs), j2));
                        } else if dirs.len() > 0 {
                            proof {
                                lemma_deep_view_lists_push(cs@, dirs);
                            }
                            cs.push(dirs);
                            return Ok((cs, None, j2));
                        } else {
                            return Ok((cs, None, j2));
                        }
                    },
                    Stop::Sep => {
                        if has_default {
                            return Err(
                                ParseError::MalformedConditional(CondIssue::DefaultNotLast),
                            );
                        }
                        proof {
                            lemma_deep_view_lists_push(cs@, dirs);
                        }
                        cs.push(dirs);
                        j = j2;
                    },
                    Stop::DefaultSep => {
                        if has_default {
                            let empty_choice: Vec<Directive> = Vec::new();
                            proof {
                                lemma_deep_view_lists_push(cs@, empty_choice);
                                assert(deep_view_list(empty_choice@) =~= Seq::<
                                    SpecDirective,
                                >::empty());
                            }
                            cs.push(empty_choice);
                        } else {
                            proof {
                                lemma_deep_view_lists_push(cs@, dirs);
                            }
                            cs.push(dirs);
                        }
                        has_default = true;
                        j = j2;
                    },
                }
            },
        }
    }
}

/// What a whole control string parses to: its directive tree, or the
/// first parse error.
pub open spec fn spec_parse(s: Seq<char>) -> Result<Seq<SpecDirective>, ParseError> {
    match sp_list(s, false, Term::Top, Seq::empty()) {
        Ok(pl) => Ok(pl.dirs),
        Err(e) => Err(e),
    }
}

/// Parses a control string into its directive tree.
pub fn parse_format_string(control: &str) -> (r: Result<Vec<Directive>, ParseError>)
    ensures
        match r {
            Ok(v) => spec_parse(control@) == Ok::<_, ParseError>(deep_view_list(v@)),
            Err(e) => spec_parse(control@) == Err::<Seq<SpecDirective>, _>(e),
        },
{
    let chars = crate::text::str_to_chars(control);
    proof {
        assert(chars@.skip(0) =~= chars@);
    }
    match parse_list(&chars, 0, false, Term::Top) {
        Ok((dirs, _j, _stop)) => Ok(dirs),
        Err(e) => Err(e),
    }
}

} // verus!
