//! Laws of the library: properties that relate parsing and rendering as a
//! whole, stated over the spec-level parser and interpreter that the
//! public functions are proved against.

use vstd::prelude::*;
use crate::directive::SpecDirective;
use crate::value::SpecValue;
use crate::parse::{Term, Stop, spec_parse, sp_list, sp_segment, sp_sections, first_tilde};
use crate::semantics::{RunDone, RunOut, run_list, run_dir};
use crate::errors::ParseError;

verus! {

/// Whether every directive of a list is well placed and well formed;
/// `in_loop` says whether the list stands lexically inside an iteration
/// body.
pub open spec fn wf_list(dirs: Seq<SpecDirective>, in_loop: bool) -> bool
    decreases dirs, 1nat,
{
    if dirs.len() == 0 {
        true
    } else {
        wf_dir(dirs[0], in_loop) && wf_list(dirs.subrange(1, dirs.len() as int), in_loop)
    }
}

/// Whether one directive is well placed and well formed: a break stands
/// only inside an iteration body, and a conditional obeys the arity rules
/// of its flags.
pub open spec fn wf_dir(d: SpecDirective, in_loop: bool) -> bool
    decreases d, 1nat,
{
    match d {
        SpecDirective::Break => in_loop,
        SpecDirective::Align { inner, .. } => wf_list(inner, in_loop),
        SpecDirective::Iteration(inner) => wf_list(inner, true),
        SpecDirective::Conditional { boolean, consumes, choices, default } => {
            &&& (boolean ==> choices.len() == 2 && default is None)
            &&& (consumes ==> choices.len() == 1 && default is None)
            &&& wf_lists(choices, in_loop)
            &&& match default {
                Some(dd) => wf_list(dd, in_loop),
                None => true,
            }
        },
        _ => true,
    }
}

/// Whether every directive list of a sequence is well formed.
pub open spec fn wf_lists(ls: Seq<Seq<SpecDirective>>, in_loop: bool) -> bool
    decreases ls, 2nat,
{
    if ls.len() == 0 {
        true
    } else {
        wf_list(ls[0], in_loop) && wf_lists(ls.subrange(1, ls.len() as int), in_loop)
    }
}

/// Appending a well-formed directive keeps a list well formed.
proof fn lemma_wf_list_push(dirs: Seq<SpecDirective>, d: SpecDirective, in_loop: bool)
    requires
        wf_list(dirs, in_loop),
        wf_dir(d, in_loop),
    ensures
        wf_list(dirs.push(d), in_loop),
    decreases dirs.len(),
{
    let p = dirs.push(d);
    assert(p[0] == if dirs.len() == 0 { d } else { dirs[0] });
    if dirs.len() == 0 {
        assert(p.subrange(1, p.len() as int) =~= Seq::<SpecDirective>::empty());
    } else {
        assert(p.subrange(1, p.len() as int) =~= dirs.subrange(1, dirs.len() as int).push(d));
        lemma_wf_list_push(dirs.subrange(1, dirs.len() as int), d, in_loop);
    }
    assert(wf_dir(p[0], in_loop));
    assert(wf_list(p.subrange(1, p.len() as int), in_loop));
    assert(wf_list(p, in_loop));
}

/// Appending a well-formed list keeps a sequence of lists well formed.
proof fn lemma_wf_lists_push(ls: Seq<Seq<SpecDirective>>, l: Seq<SpecDirective>, in_loop: bool)
    requires
        wf_lists(ls, in_loop),
        wf_list(l, in_loop),
    ensures
        wf_lists(ls.push(l), in_loop),
    decreases ls.len(),
{
    let p = ls.push(l);
    assert(p[0] == if ls.len() == 0 { l } else { ls[0] });
    if ls.len() == 0 {
        assert(p.subrange(1, p.len() as int) =~= Seq::<Seq<SpecDirective>>::empty());
    } else {
        assert(p.subrange(1, p.len() as int) =~= ls.subrange(1, ls.len() as int).push(l));
        lemma_wf_lists_push(ls.subrange(1, ls.len() as int), l, in_loop);
    }
    assert(wf_list(p[0], in_loop));
    assert(wf_lists(p.subrange(1, p.len() as int), in_loop));
    assert(wf_lists(p, in_loop));
}

/// Two well-formed lists concatenate to a well-formed list.
proof fn lemma_wf_list_concat(a: Seq<SpecDirective>, b: Seq<SpecDirective>, in_loop: bool)
    requires
        wf_list(a, in_loop),
        wf_list(b, in_loop),
    ensures
        wf_list(a + b, in_loop),
    decreases b.len(),
{
    if b.len() == 0 {
        assert(a + b =~= a);
    } else {
        lemma_wf_list_push(a, b[0], in_loop);
        lemma_wf_list_concat(a.push(b[0]), b.subrange(1, b.len() as int), in_loop);
        assert(a.push(b[0]) + b.subrange(1, b.len() as int) =~= a + b);
    }
}

/// A parsed segment is well formed and well placed.
proof fn lemma_wf_segment(s: Seq<char>, in_loop: bool)
    ensures
        match sp_segment(s, in_loop) {
            Ok((d, _)) => wf_dir(d, in_loop),
            Err(_) => true,
        },
    decreases s.len(), 2nat,
{
    if s.len() == 0 {
    } else if s[0] != '~' {
    } else {
        match crate::parse::sp_params(s.skip(1)) {
            Err(_) => {},
            Ok((ps, s2)) => {
                let (m, s3) = crate::parse::sp_modifiers(s2);
                if s3.len() > 0 {
                    let c = s3[0];
                    if c == '<' {
                        if s3.len() < s.len() {
                            lemma_wf_list(s3.skip(1), in_loop, Term::Angle, Seq::empty());
                        }
                    } else if c == '[' {
                        if s3.len() < s.len() {
                            lemma_wf_sections(s3.skip(1), in_loop, Seq::empty(), None);
                        }
                    } else if c == '{' {
                        if ps == seq![crate::params::Param::Missing] && !m.colon && !m.at
                            && s3.len() < s.len() {
                            lemma_wf_list(s3.skip(1), true, Term::Brace, Seq::empty());
                        }
                    }
                }
            },
        }
    }
}

/// A parsed directive-list level is well formed, given a well-formed
/// accumulator.
proof fn lemma_wf_list(s: Seq<char>, in_loop: bool, term: Term, acc: Seq<SpecDirective>)
    requires
        wf_list(acc, in_loop),
    ensures
        match sp_list(s, in_loop, term, acc) {
            Ok(pl) => wf_list(pl.dirs, in_loop),
            Err(_) => true,
        },
    decreases s.len(), 3nat,
{
    if s.len() == 0 {
    } else if (term is Angle && crate::parse::starts2(s, '~', '>')) || (term is Brace
        && crate::parse::starts2(s, '~', '}')) || (term is Bracket && crate::parse::starts2(
        s,
        '~',
        ']',
    )) || (term is Bracket && crate::parse::starts2(s, '~', ';')) || (term is Bracket
        && crate::parse::starts3(s, '~', ':', ';')) {
    } else {
        lemma_wf_segment(s, in_loop);
        match sp_segment(s, in_loop) {
            Err(_) => {},
            Ok((d, r)) => {
                lemma_wf_list_push(acc, d, in_loop);
                if r.len() < s.len() {
                    lemma_wf_list(r, in_loop, term, acc.push(d));
                }
            },
        }
    }
}

/// Parsed conditional sections are well formed, given well-formed
/// accumulators.
proof fn lemma_wf_sections(
    s: Seq<char>,
    in_loop: bool,
    choices: Seq<Seq<SpecDirective>>,
    default: Option<Seq<SpecDirective>>,
)
    requires
        wf_lists(choices, in_loop),
        match default {
            Some(df) => wf_list(df, in_loop),
            None => true,
        },
    ensures
        match sp_sections(s, in_loop, choices, default) {
            Ok((cs, df, _)) => wf_lists(cs, in_loop) && match df {
                Some(d) => wf_list(d, in_loop),
                None => true,
            },
            Err(_) => true,
        },
    decreases s.len(), 4nat,
{
    lemma_wf_list(s, in_loop, Term::Bracket, Seq::empty());
    match sp_list(s, in_loop, Term::Bracket, Seq::empty()) {
        Err(_) => {},
        Ok(pl) => {
            match pl.stop {
                Stop::End => {
                    match default {
                        Some(df) => {
                            lemma_wf_list_concat(df, pl.dirs, in_loop);
                        },
                        None => {},
                    }
                },
                Stop::Close => {
                    match default {
                        Some(df) => {
                            lemma_wf_list_concat(df, pl.dirs, in_loop);
                        },
                        None => {
                            if pl.dirs.len() > 0 {
                                lemma_wf_lists_push(choices, pl.dirs, in_loop);
                            }
                        },
                    }
                },
                Stop::Sep => {
                    if !(default is Some) {
                        lemma_wf_lists_push(choices, pl.dirs, in_loop);
                        if pl.rest.len() < s.len() {
                            lemma_wf_sections(pl.rest, in_loop, choices.push(pl.dirs), None);
                        }
                    }
                },
                Stop::DefaultSep => {
                    let pushed = if default is Some {
                        choices.push(Seq::empty())
                    } else {
                        choices.push(pl.dirs)
                    };
                    if default is Some {
                        lemma_wf_lists_push(choices, Seq::empty(), in_loop);
                    } else {
                        lemma_wf_lists_push(choices, pl.dirs, in_loop);
                    }
                    if pl.rest.len() < s.len() {
                        lemma_wf_sections(pl.rest, in_loop, pushed, Some(Seq::empty()));
                    }
                },
            }
        },
    }
}

/// A tilde scan over tilde-free text runs to the end.
proof fn lemma_first_tilde_all(s: Seq<char>, from: int)
    requires
        0 <= from <= s.len(),
        forall|i: int| 0 <= i < s.len() ==> s[i] != '~',
    ensures
        first_tilde(s, from) == s.len(),
    decreases s.len() - from,
{
    if from < s.len() {
        lemma_first_tilde_all(s, from + 1);
    }
}

/// Every tree a control string parses to is well placed and well formed:
/// a break directive stands only inside an iteration body, a boolean
/// conditional has exactly two choices and no default, and a consuming
/// conditional has exactly one choice and no default.
pub proof fn law_parsed_trees_well_formed(s: Seq<char>)
    ensures
        match spec_parse(s) {
            Ok(dirs) => wf_list(dirs, false),
            Err(_) => true,
        },
{
    lemma_wf_list(s, false, Term::Top, Seq::empty());
}

/// A control string without directives reproduces itself: it parses, and
/// rendering the parsed tree against an empty argument sequence produces
/// exactly that text while consuming nothing.
pub proof fn law_plain_text_round_trip(s: Seq<char>)
    requires
        forall|i: int| 0 <= i < s.len() ==> s[i] != '~',
    ensures
        match spec_parse(s) {
            Ok(dirs) => run_list(dirs, Seq::empty()) == RunOut::Done(
                RunDone { text: s, used: 0, broke: false },
            ),
            Err(_) => false,
        },
{
    if s.len() == 0 {
        match spec_parse(s) {
            Ok(dirs) => {
                assert(run_list(dirs, Seq::empty()) == RunOut::Done(
                    RunDone { text: Seq::<char>::empty(), used: 0, broke: false },
                ));
                assert(s =~= Seq::<char>::empty());
            },
            Err(_) => {},
        }
    } else {
        lemma_first_tilde_all(s, 0);
        assert(s.take(s.len() as int) =~= s);
        assert(s.skip(s.len() as int) =~= Seq::<char>::empty());
        let d = SpecDirective::Literal(s);
        assert(sp_segment(s, false) == Ok::<_, ParseError>((d, Seq::<char>::empty())));
        let acc = Seq::<SpecDirective>::empty().push(d);
        assert(sp_list(s, false, Term::Top, Seq::empty()) == sp_list(
            Seq::<char>::empty(),
            false,
            Term::Top,
            acc,
        ));
        assert(spec_parse(s) == Ok::<_, ParseError>(acc));
        assert(acc.subrange(1, 1) =~= Seq::<SpecDirective>::empty());
        assert(run_dir(d, Seq::empty()) == RunOut::Done(
            RunDone { text: s, used: 0, broke: false },
        ));
        assert(s + Seq::<char>::empty() =~= s);
        assert(acc[0] == d);
        assert(acc.len() == 1);
        assert(Seq::<SpecValue>::empty().skip(0) =~= Seq::<SpecValue>::empty());
        let tail = acc.subrange(1, acc.len() as int);
        assert(tail =~= Seq::<SpecDirective>::empty());
        assert(run_list(tail, Seq::<SpecValue>::empty().skip(0)) == RunOut::Done(
            RunDone { text: Seq::<char>::empty(), used: 0nat, broke: false },
        ));
        assert(run_list(acc, Seq::empty()) == RunOut::Done(
            RunDone { text: s, used: 0, broke: false },
        ));
    }
}

/// Parsing is deterministic: two parses of the same control string yield
/// structurally equal trees, because a parse is pinned to the one value of
/// the spec-level parser.
pub proof fn law_parse_deterministic(
    s: Seq<char>,
    t1: Result<Seq<SpecDirective>, ParseError>,
    t2: Result<Seq<SpecDirective>, ParseError>,
)
    requires
        t1 == spec_parse(s),
        t2 == spec_parse(s),
    ensures
        t1 == t2,
{
}

/// Rendering is deterministic: two runs of the same tree against the same
/// arguments yield identical text, because a render is pinned to the one
/// value of the spec-level interpreter.
pub proof fn law_render_deterministic(
    dirs: Seq<SpecDirective>,
    args: Seq<SpecValue>,
    r1: RunOut,
    r2: RunOut,
)
    requires
        r1 == run_list(dirs, args),
        r2 == run_list(dirs, args),
    ensures
        r1 == r2,
{
}

} // verus!
