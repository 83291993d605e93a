//! The execution engine: interprets a directive tree against an argument
//! cursor, streaming text to a sink. Its behaviour is exactly the
//! spec-level interpreter in `semantics`.

use vstd::prelude::*;
use crate::directive::{Alignment, Directive, SpecDirective, deep_view_list, deep_view_lists,
    lemma_deep_view_list, lemma_deep_view_lists};
use crate::value::{Value, SpecValue, deep_view_values, lemma_deep_view_values, value_chars,
    int_chars};
use crate::errors::RenderError;
use crate::ruler::{Ruler, sat_add};
use crate::semantics::{RunDone, RunOut, run_list, run_dir, run_passes, after_pop, spec_truthy,
    lemma_run_list_used, lemma_run_dir_used};
use crate::decimal::{char_repeat, decimal_chars};
use crate::fixedpoint::fixed_chars;
use crate::text::{str_to_chars, chars_to_string};

verus! {

broadcast use crate::ruler::lemma_ruler_bound;

/// Where rendered text goes: a real text buffer, or a ruler that only
/// counts.
#[derive(Debug)]
pub enum Sink {
    Text(Vec<char>),
    Count(Ruler),
}

impl Sink {
    /// How many characters this sink has received (capped for a ruler).
    pub open spec fn len(self) -> nat {
        match self {
            Sink::Text(v) => v@.len(),
            Sink::Count(r) => r.spec_length(),
        }
    }

    /// The text a buffer sink holds.
    pub open spec fn text(self) -> Seq<char> {
        match self {
            Sink::Text(v) => v@,
            Sink::Count(_) => Seq::empty(),
        }
    }

    /// Writes one character.
    pub fn put(&mut self, c: char)
        ensures
            sink_wrote(*old(self), *final (self), seq![c]),
    {
        match self {
            Sink::Text(v) => {
                v.push(c);
                assert(final (self)->Text_0@ =~= old(self)->Text_0@ + seq![c]);
            },
            Sink::Count(r) => {
                r.record(1);
            },
        }
    }

    /// Writes a character vector.
    pub fn put_vec(&mut self, t: &Vec<char>)
        ensures
            sink_wrote(*old(self), *final (self), t@),
    {
        match self {
            Sink::Text(v) => {
                let mut i: usize = 0;
                let ghost pre = v@;
                while i < t.len()
                    invariant
                        0 <= i <= t@.len(),
                        v@ == pre + t@.take(i as int),
                    decreases t@.len() - i,
                {
                    v.push(t[i]);
                    assert(v@ =~= pre + t@.take((i + 1) as int));
                    i = i + 1;
                }
                assert(v@ =~= pre + t@);
            },
            Sink::Count(r) => {
                r.record(t.len());
            },
        }
    }

    /// Writes one character `n` times.
    pub fn put_repeat(&mut self, c: char, n: usize)
        ensures
            sink_wrote(*old(self), *final (self), char_repeat(c, n as nat)),
    {
        proof {
            lemma_sink_wrote_empty(*self);
            assert(char_repeat(c, 0nat) =~= Seq::<char>::empty());
        }
        let mut i: usize = 0;
        while i < n
            invariant
                0 <= i <= n,
                sink_wrote(*old(self), *self, char_repeat(c, i as nat)),
            decreases n - i,
        {
            let ghost mid = *self;
            self.put(c);
            proof {
                lemma_sink_wrote_compose(
                    *old(self),
                    mid,
                    *self,
                    char_repeat(c, i as nat),
                    seq![c],
                );
                assert(char_repeat(c, i as nat) + seq![c] =~= char_repeat(c, (i + 1) as nat));
            }
            i = i + 1;
        }
    }
}

/// What writing text `t` does to a sink: a buffer grows by exactly `t`, a
/// ruler's count grows by its length, capped; the kind of sink never
/// changes.
pub open spec fn sink_wrote(before: Sink, after: Sink, t: Seq<char>) -> bool {
    match (before, after) {
        (Sink::Text(a), Sink::Text(b)) => b@ == a@ + t,
        (Sink::Count(a), Sink::Count(b)) => b.spec_length() == sat_add(a.spec_length(), t.len()),
        _ => false,
    }
}

/// What a failed run leaves behind: the sink kind is unchanged and the
/// sink only grew; text already streamed is not retracted.
pub open spec fn sink_grew(before: Sink, after: Sink) -> bool {
    match (before, after) {
        (Sink::Text(a), Sink::Text(b)) => a@.is_prefix_of(b@),
        (Sink::Count(a), Sink::Count(b)) => a.spec_length() <= b.spec_length(),
        _ => false,
    }
}

/// Writing nothing changes nothing.
pub proof fn lemma_sink_wrote_empty(s: Sink)
    ensures
        sink_wrote(s, s, Seq::empty()),
{
    match s {
        Sink::Text(v) => {
            assert(v@ =~= v@ + Seq::<char>::empty());
        },
        Sink::Count(_) => {},
    }
}

/// Two writes in a row write the concatenation.
pub proof fn lemma_sink_wrote_compose(s1: Sink, s2: Sink, s3: Sink, t1: Seq<char>, t2: Seq<char>)
    requires
        sink_wrote(s1, s2, t1),
        sink_wrote(s2, s3, t2),
    ensures
        sink_wrote(s1, s3, t1 + t2),
{
    match (s1, s3) {
        (Sink::Text(a), Sink::Text(b)) => {
            assert(b@ =~= a@ + (t1 + t2));
        },
        _ => {},
    }
}

/// A write is growth.
pub proof fn lemma_sink_wrote_grew(s1: Sink, s2: Sink, t: Seq<char>)
    requires
        sink_wrote(s1, s2, t),
    ensures
        sink_grew(s1, s2),
{
    match (s1, s2) {
        (Sink::Text(a), Sink::Text(b)) => {
            assert(b@.take(a@.len() as int) =~= a@);
        },
        _ => {},
    }
}

/// A sink grows by nothing.
pub proof fn lemma_sink_grew_refl(s: Sink)
    ensures
        sink_grew(s, s),
{
    match s {
        Sink::Text(v) => {
            assert(v@ =~= v@.subrange(0, v@.len() as int));
        },
        Sink::Count(_) => {},
    }
}

/// Growth composes.
pub proof fn lemma_sink_grew_compose(s1: Sink, s2: Sink, s3: Sink)
    requires
        sink_grew(s1, s2),
        sink_grew(s2, s3),
    ensures
        sink_grew(s1, s3),
{
    match (s1, s2, s3) {
        (Sink::Text(a), Sink::Text(b), Sink::Text(c)) => {
            assert(a@.len() <= c@.len());
            assert forall|k: int| 0 <= k < a@.len() implies c@.subrange(0, a@.len() as int)[k]
                == a@[k] by {
                assert(b@.subrange(0, b@.len() as int) =~= b@);
                assert(a@[k] == b@.subrange(0, a@.len() as int)[k]);
                assert(b@[k] == c@.subrange(0, b@.len() as int)[k]);
            }
            assert(a@ =~= c@.subrange(0, a@.len() as int));
        },
        _ => {},
    }
}

/// How an engine step must relate to its spec-level run: on success the
/// cursor advanced by what the run consumed and the sink received exactly
/// the run's text; on failure the errors agree and the sink only grew.
pub open spec fn obeys_run(
    run: RunOut,
    r: Result<bool, RenderError>,
    oldpos: nat,
    newpos: nat,
    argslen: nat,
    before: Sink,
    after: Sink,
) -> bool {
    match r {
        Ok(broke) => match run {
            RunOut::Done(dn) => {
                &&& broke == dn.broke
                &&& newpos == oldpos + dn.used
                &&& newpos <= argslen
                &&& sink_wrote(before, after, dn.text)
            },
            RunOut::Fail(_) => false,
        },
        Err(e) => run == RunOut::Fail(e) && sink_grew(before, after),
    }
}

/// Writes one grouped decimal to the sink.
fn put_decimal(
    i: i64,
    min_columns: usize,
    pad_char: char,
    comma_char: char,
    comma_interval: usize,
    print_commas: bool,
    print_sign: bool,
    out: &mut Sink,
)
    ensures
        sink_wrote(
            *old(out),
            *final (out),
            crate::decimal::spec_decimal(
                i as int,
                min_columns as nat,
                pad_char,
                comma_char,
                comma_interval as nat,
                print_commas,
                print_sign,
            ),
        ),
{
    let neg = i < 0;
    let mag: u128 = if i < 0 {
        (-(i as i128)) as u128
    } else {
        i as u128
    };
    let t = decimal_chars(
        neg,
        mag,
        min_columns,
        pad_char,
        comma_char,
        comma_interval,
        print_commas,
        print_sign,
    );
    out.put_vec(&t);
}

/// Writes one fixed-point number to the sink, or reports that the number
/// text was not plain decimal text.
fn put_fixed(t: &Vec<char>, width: usize, places: usize, pad: char, out: &mut Sink) -> (r: Result<
    (),
    RenderError,
>)
    ensures
        match crate::fixedpoint::spec_fixed(t@, width as nat, places as nat, pad) {
            Some(b) => r is Ok && sink_wrote(*old(out), *final (out), b),
            None => r == Err::<(), RenderError>(RenderError::TypeMismatch) && *final (out) == *old(
                out,
            ),
        },
{
    match fixed_chars(t, width, places, pad) {
        Some(v) => {
            out.put_vec(&v);
            Ok(())
        },
        None => Err(RenderError::TypeMismatch),
    }
}

/// Runs one branch of a conditional whose selector was already popped.
fn exec_branch(branch: &Vec<Directive>, args: &Vec<Value>, pos: &mut usize, out: &mut Sink) -> (r:
    Result<bool, RenderError>)
    requires
        1 <= *old(pos) <= args@.len(),
    ensures
        obeys_run(
            after_pop(
                run_list(
                    deep_view_list(branch@),
                    deep_view_values(args@).skip(*old(pos) as int),
                ),
            ),
            r,
            (*old(pos) - 1) as nat,
            *final (pos) as nat,
            args@.len() as nat,
            *old(out),
            *final (out),
        ),
    decreases branch@,
{
    exec_list(branch, args, pos, out)
}

/// Runs the passes of one iteration over its elements, streaming to the
/// sink; exactly the spec-level `run_passes`.
fn exec_passes(inner: &Vec<Directive>, elems: &Vec<Value>, out: &mut Sink) -> (r: Result<
    (),
    RenderError,
>)
    ensures
        match run_passes(deep_view_list(inner@), deep_view_values(elems@)) {
            RunOut::Done(dn) => r is Ok && sink_wrote(*old(out), *final (out), dn.text),
            RunOut::Fail(e) => r == Err::<(), RenderError>(e) && sink_grew(*old(out), *final (out)),
        },
    decreases inner@, 2nat,
{
    let ghost sinner = deep_view_list(inner@);
    let ghost selems = deep_view_values(elems@);
    let ghost out0 = *out;
    proof {
        lemma_deep_view_values(elems@);
        lemma_sink_wrote_empty(*out);
    }
    let ghost mut written: Seq<char> = Seq::empty();
    proof {
        match run_passes(sinner, selems) {
            RunOut::Done(dn) => {
                assert(Seq::<char>::empty() + dn.text =~= dn.text);
            },
            RunOut::Fail(_) => {},
        }
        assert(selems.skip(0) =~= selems);
    }
    let mut j: usize = 0;
    let mut done = false;
    while !done && j < elems.len()
        invariant
            0 <= j <= elems@.len(),
            sinner == deep_view_list(inner@),
            selems == deep_view_values(elems@),
            selems.len() == elems@.len(),
            sink_wrote(out0, *out, written),
            out0 == *old(out),
            !done ==> match run_passes(sinner, selems.skip(j as int)) {
                RunOut::Done(dn) => run_passes(sinner, selems) == RunOut::Done(
                    RunDone { text: written + dn.text, used: (j + dn.used) as nat, broke: false },
                ),
                RunOut::Fail(e) => run_passes(sinner, selems) == RunOut::Fail(e),
            },
            done ==> run_passes(sinner, selems) == RunOut::Done(
                RunDone { text: written, used: j as nat, broke: false },
            ),
        decreases elems@.len() - j, (if done {
            0nat
        } else {
            1nat
        }),
    {
        let ghost pre_out = *out;
        let mut p2: usize = j;
        let step = exec_list(inner, elems, &mut p2, out);
        match step {
            Err(e) => {
                proof {
                    lemma_sink_wrote_grew(out0, pre_out, written);
                    lemma_sink_grew_compose(out0, pre_out, *out);
                }
                return Err(e);
            },
            Ok(bk) => {
                let ghost dn = run_list(sinner, selems.skip(j as int))->Done_0;
                let ghost wr0 = written;
                proof {
                    lemma_run_list_used(sinner, selems.skip(j as int));
                    lemma_sink_wrote_compose(out0, pre_out, *out, written, dn.text);
                    written = written + dn.text;
                    assert(selems.skip(j as int).skip(dn.used as int) =~= selems.skip(p2 as int));
                    if !dn.broke && dn.used > 0 {
                        match run_passes(sinner, selems.skip(p2 as int)) {
                            RunOut::Done(dn2) => {
                                assert(wr0 + (dn.text + dn2.text) =~= written + dn2.text);
                            },
                            RunOut::Fail(_) => {},
                        }
                    }
                }
                if bk || p2 == j {
                    j = p2;
                    done = true;
                } else {
                    j = p2;
                }
            },
        }
    }
    proof {
        if !done {
            assert(selems.skip(j as int).len() == 0);
        }
    }
    Ok(())
}

/// Runs one directive against the cursor `args[*pos..]`, streaming to the
/// sink; exactly the spec-level `run_dir`.
pub fn exec_dir(d: &Directive, args: &Vec<Value>, pos: &mut usize, out: &mut Sink) -> (r: Result<
    bool,
    RenderError,
>)
    requires
        *old(pos) <= args@.len(),
    ensures
        obeys_run(
            run_dir(d.deep_view(), deep_view_values(args@).skip(*old(pos) as int)),
            r,
            *old(pos) as nat,
            *final (pos) as nat,
            args@.len() as nat,
            *old(out),
            *final (out),
        ),
    decreases d, 3nat,
{
    let ghost sargs = deep_view_values(args@);
    let ghost p0 = *pos;
    let ghost cur = sargs.skip(p0 as int);
    proof {
        lemma_deep_view_values(args@);
        lemma_sink_grew_refl(*out);
    }
    match d {
        Directive::Literal(s) => {
            let t = str_to_chars(s.as_str());
            out.put_vec(&t);
            Ok(false)
        },
        Directive::Newline => {
            out.put('\n');
            Ok(false)
        },
        Directive::Break => {
            proof {
                lemma_sink_wrote_empty(*out);
            }
            Ok(*pos >= args.len())
        },
        Directive::TildeA => {
            if *pos >= args.len() {
                return Err(RenderError::MissingArgument);
            }
            let val = &args[*pos];
            *pos = *pos + 1;
            let t = value_chars(val, false);
            out.put_vec(&t);
            Ok(false)
        },
        Directive::TildeS => {
            if *pos >= args.len() {
                return Err(RenderError::MissingArgument);
            }
            let val = &args[*pos];
            *pos = *pos + 1;
            let t = value_chars(val, true);
            out.put_vec(&t);
            Ok(false)
        },
        Directive::Skip => {
            if *pos >= args.len() {
                return Err(RenderError::MissingArgument);
            }
            *pos = *pos + 1;
            proof {
                lemma_sink_wrote_empty(*out);
            }
            Ok(false)
        },
        Directive::Decimal {
            min_columns,
            pad_char,
            comma_char,
            comma_interval,
            print_commas,
            print_sign,
        } => {
            if *pos >= args.len() {
                return Err(RenderError::MissingArgument);
            }
            let val = &args[*pos];
            match val {
                Value::Int(i) => {
                    *pos = *pos + 1;
                    put_decimal(
                        *i,
                        *min_columns,
                        *pad_char,
                        *comma_char,
                        *comma_interval,
                        *print_commas,
                        *print_sign,
                        out,
                    );
                    Ok(false)
                },
                _ => {
                    assert(!(val.deep_view() is Int));
                    Err(RenderError::TypeMismatch)
                },
            }
        },
        Directive::Float { width, num_decimal_places, pad_char } => {
            if *pos >= args.len() {
                return Err(RenderError::MissingArgument);
            }
            let val = &args[*pos];
            let t: Vec<char> = match val {
                Value::Real(s) => str_to_chars(s.as_str()),
                Value::Int(i) => int_chars(*i),
                _ => {
                    assert(!(val.deep_view() is Real) && !(val.deep_view() is Int));
                    return Err(RenderError::TypeMismatch);
                },
            };
            *pos = *pos + 1;
            match put_fixed(&t, *width, *num_decimal_places, *pad_char, out) {
                Ok(_) => Ok(false),
                Err(e) => Err(e),
            }
        },
        Directive::Align { min_columns, col_inc: _, min_pad: _, pad_char, direction, inner } => {
            let ghost sinner = deep_view_list(inner@);
            let mut measure_sink = Sink::Count(Ruler::default());
            let ghost m0 = measure_sink;
            let mut mpos: usize = *pos;
            let pass1 = exec_list(inner, args, &mut mpos, &mut measure_sink);
            match pass1 {
                Err(e) => {
                    return Err(e);
                },
                Ok(_) => {},
            }
            let ghost dn = run_list(sinner, cur)->Done_0;
            let measured: usize = match &measure_sink {
                Sink::Count(rl) => rl.length(),
                Sink::Text(_) => 0,
            };
            assert(measured as nat == sat_add(0, dn.text.len()));
            let diff: usize = if *min_columns > measured {
                *min_columns - measured
            } else {
                0
            };
            let ghost sdiff: nat = if *min_columns as nat > dn.text.len() {
                ((*min_columns as nat) - dn.text.len()) as nat
            } else {
                0nat
            };
            assert(diff as nat == sdiff);
            let before: usize = match direction {
                Alignment::Left => 0,
                Alignment::Right => diff,
                Alignment::Centre => diff / 2,
            };
            let after: usize = diff - before;
            let ghost outa = *out;
            out.put_repeat(*pad_char, before);
            let ghost outb = *out;
            let pass2 = exec_list(inner, args, pos, out);
            match pass2 {
                Err(e) => {
                    assert(false);
                    return Err(e);
                },
                Ok(b2) => {
                    let ghost outc = *out;
                    out.put_repeat(*pad_char, after);
                    proof {
                        lemma_sink_wrote_compose(
                            outa,
                            outb,
                            outc,
                            char_repeat(*pad_char, before as nat),
                            dn.text,
                        );
                        lemma_sink_wrote_compose(
                            outa,
                            outc,
                            *out,
                            char_repeat(*pad_char, before as nat) + dn.text,
                            char_repeat(*pad_char, after as nat),
                        );
                    }
                    Ok(b2)
                },
            }
        },
        Directive::Iteration(inner) => {
            if *pos >= args.len() {
                return Err(RenderError::MissingArgument);
            }
            let val = &args[*pos];
            match val {
                Value::List(elems) => {
                    *pos = *pos + 1;
                    proof {
                        assert(val.deep_view() == SpecValue::List(deep_view_values(elems@)));
                    }
                    match exec_passes(inner, elems, out) {
                        Ok(_) => Ok(false),
                        Err(e) => Err(e),
                    }
                },
                _ => {
                    assert(!(val.deep_view() is List));
                    Err(RenderError::TypeMismatch)
                },
            }
        },
        Directive::Conditional { boolean, consumes, default, choices } => {
            if *pos >= args.len() {
                return Err(RenderError::MissingArgument);
            }
            proof {
                lemma_deep_view_lists(choices@);
                assert(cur.skip(1) =~= sargs.skip(p0 + 1));
            }
            let val = &args[*pos];
            if *boolean {
                match val {
                    Value::Bool(b) => {
                        let idx: usize = if *b {
                            1
                        } else {
                            0
                        };
                        if idx < choices.len() {
                            *pos = *pos + 1;
                            exec_branch(&choices[idx], args, pos, out)
                        } else {
                            *pos = *pos + 1;
                            proof {
                                lemma_sink_wrote_empty(*out);
                            }
                            Ok(false)
                        }
                    },
                    _ => {
                        assert(!(val.deep_view() is Bool));
                        Err(RenderError::TypeMismatch)
                    },
                }
            } else if *consumes {
                let truthy: bool = match val {
                    Value::Bool(b) => *b,
                    Value::Int(i) => *i != 0,
                    _ => {
                        assert(spec_truthy(val.deep_view()) is None);
                        return Err(RenderError::TypeMismatch);
                    },
                };
                assert(spec_truthy(val.deep_view()) == Some(truthy));
                if truthy && choices.len() >= 1 {
                    *pos = *pos + 1;
                    exec_branch(&choices[0], args, pos, out)
                } else {
                    *pos = *pos + 1;
                    proof {
                        lemma_sink_wrote_empty(*out);
                    }
                    Ok(false)
                }
            } else {
                match val {
                    Value::Int(i) => {
                        if 0 <= *i && (*i as u128) < (choices.len() as u128) {
                            let idx: usize = *i as usize;
                            *pos = *pos + 1;
                            exec_branch(&choices[idx], args, pos, out)
                        } else {
                            match default {
                                Some(dd) => {
                                    *pos = *pos + 1;
                                    exec_branch(dd, args, pos, out)
                                },
                                None => {
                                    *pos = *pos + 1;
                                    proof {
                                        lemma_sink_wrote_empty(*out);
                                    }
                                    Ok(false)
                                },
                            }
                        }
                    },
                    _ => {
                        assert(!(val.deep_view() is Int));
                        Err(RenderError::TypeMismatch)
                    },
                }
            }
        },
    }
}

/// Runs a directive list against the cursor `args[*pos..]`, streaming to
/// the sink; exactly the spec-level `run_list`.
pub fn exec_list(dirs: &Vec<Directive>, args: &Vec<Value>, pos: &mut usize, out: &mut Sink) -> (r:
    Result<bool, RenderError>)
    requires
        *old(pos) <= args@.len(),
    ensures
        obeys_run(
            run_list(deep_view_list(dirs@), deep_view_values(args@).skip(*old(pos) as int)),
            r,
            *old(pos) as nat,
            *final (pos) as nat,
            args@.len() as nat,
            *old(out),
            *final (out),
        ),
    decreases dirs@, 1nat,
{
    let ghost sdirs = deep_view_list(dirs@);
    let ghost sargs = deep_view_values(args@);
    let ghost p0 = *pos;
    let ghost out0 = *out;
    proof {
        lemma_deep_view_list(dirs@);
        lemma_deep_view_values(args@);
        lemma_sink_wrote_empty(*out);
    }
    let ghost mut written: Seq<char> = Seq::empty();
    proof {
        assert(sdirs.subrange(0, sdirs.len() as int) =~= sdirs);
        match run_list(sdirs, sargs.skip(p0 as int)) {
            RunOut::Done(dn) => {
                assert(Seq::<char>::empty() + dn.text =~= dn.text);
            },
            RunOut::Fail(_) => {},
        }
    }
    let mut i: usize = 0;
    let mut done = false;
    while !done && i < dirs.len()
        invariant
            0 <= i <= dirs@.len(),
            p0 <= *pos <= args@.len(),
            sdirs == deep_view_list(dirs@),
            sargs == deep_view_values(args@),
            sdirs.len() == dirs@.len(),
            sargs.len() == args@.len(),
            forall|k: int| 0 <= k < dirs@.len() ==> sdirs[k] == #[trigger] dirs@[k].deep_view(),
            sink_wrote(out0, *out, written),
            out0 == *old(out),
            p0 == *old(pos),
            !done ==> match run_list(
                sdirs.subrange(i as int, sdirs.len() as int),
                sargs.skip(*pos as int),
            ) {
                RunOut::Done(dn) => run_list(sdirs, sargs.skip(p0 as int)) == RunOut::Done(
                    RunDone {
                        text: written + dn.text,
                        used: ((*pos - p0) + dn.used) as nat,
                        broke: dn.broke,
                    },
                ),
                RunOut::Fail(e) => run_list(sdirs, sargs.skip(p0 as int)) == RunOut::Fail(e),
            },
            done ==> run_list(sdirs, sargs.skip(p0 as int)) == RunOut::Done(
                RunDone { text: written, used: (*pos - p0) as nat, broke: true },
            ),
        decreases dirs@.len() - i, (if done {
            0nat
        } else {
            1nat
        }),
    {
        let ghost pre_pos = *pos;
        let ghost pre_out = *out;
        let ghost tail = sdirs.subrange(i as int, sdirs.len() as int);
        let step = exec_dir(&dirs[i], args, pos, out);
        proof {
            assert(tail[0] == sdirs[i as int]);
            assert(tail.subrange(1, tail.len() as int) =~= sdirs.subrange(
                i + 1,
                sdirs.len() as int,
            ));
        }
        match step {
            Err(e) => {
                proof {
                    lemma_sink_wrote_grew(out0, pre_out, written);
                    lemma_sink_grew_compose(out0, pre_out, *out);
                    assert(run_dir(sdirs[i as int], sargs.skip(pre_pos as int)) == RunOut::Fail(
                        e,
                    ));
                    assert(run_list(tail, sargs.skip(pre_pos as int)) == RunOut::Fail(e));
                    assert(run_list(sdirs, sargs.skip(p0 as int)) == RunOut::Fail(e));
                }
                return Err(e);
            },
            Ok(bk) => {
                let ghost dn = run_dir(sdirs[i as int], sargs.skip(pre_pos as int))->Done_0;
                let ghost wr0 = written;
                proof {
                    lemma_run_dir_used(sdirs[i as int], sargs.skip(pre_pos as int));
                    assert(sargs.skip(pre_pos as int).skip(dn.used as int) =~= sargs.skip(
                        *pos as int,
                    ));
                    lemma_sink_wrote_compose(out0, pre_out, *out, written, dn.text);
                    written = written + dn.text;
                    if !dn.broke {
                        match run_list(
                            sdirs.subrange(i + 1, sdirs.len() as int),
                            sargs.skip(*pos as int),
                        ) {
                            RunOut::Done(dn2) => {
                                assert(wr0 + (dn.text + dn2.text) =~= written + dn2.text);
                            },
                            RunOut::Fail(_) => {},
                        }
                    }
                }
                if bk {
                    done = true;
                } else {
                    i = i + 1;
                }
            },
        }
    }
    proof {
        if !done {
            assert(sdirs.subrange(i as int, sdirs.len() as int) =~= Seq::<SpecDirective>::empty());
        }
    }
    Ok(done)
}

/// Renders a tree against arguments into a fresh string: the in-memory
/// sink mode. On failure nothing is returned.
pub fn render_to_string(dirs: &Vec<Directive>, args: &Vec<Value>) -> (r: Result<
    String,
    RenderError,
>)
    ensures
        match (r, run_list(deep_view_list(dirs@), deep_view_values(args@))) {
            (Ok(s), RunOut::Done(dn)) => s@ == dn.text,
            (Err(e), RunOut::Fail(f)) => e == f,
            _ => false,
        },
{
    let mut pos: usize = 0;
    let mut out = Sink::Text(Vec::new());
    proof {
        assert(deep_view_values(args@).skip(0) =~= deep_view_values(args@));
    }
    match exec_list(dirs, args, &mut pos, &mut out) {
        Ok(_) => match out {
            Sink::Text(v) => {
                proof {
                    let dn = run_list(deep_view_list(dirs@), deep_view_values(args@))->Done_0;
                    assert(v@ =~= Seq::<char>::empty() + dn.text);
                }
                Ok(chars_to_string(&v))
            },
            Sink::Count(_) => {
                assert(false);
                Err(RenderError::Io)
            },
        },
        Err(e) => Err(e),
    }
}

/// Renders a tree against arguments, appending to a caller-supplied
/// string: the writer sink mode. On failure the text produced before the
/// failure stays appended; nothing is retracted.
pub fn render_into(dirs: &Vec<Directive>, args: &Vec<Value>, out: &mut String) -> (r: Result<
    (),
    RenderError,
>)
    ensures
        match (r, run_list(deep_view_list(dirs@), deep_view_values(args@))) {
            (Ok(_), RunOut::Done(dn)) => final (out)@ == old(out)@ + dn.text,
            (Err(e), RunOut::Fail(f)) => e == f && old(out)@.is_prefix_of(final (out)@),
            _ => false,
        },
{
    let mut pos: usize = 0;
    let mut sink = Sink::Text(Vec::new());
    proof {
        assert(deep_view_values(args@).skip(0) =~= deep_view_values(args@));
    }
    let stepped = exec_list(dirs, args, &mut pos, &mut sink);
    let produced = match sink {
        Sink::Text(v) => v,
        Sink::Count(_) => {
            assert(false);
            Vec::new()
        },
    };
    let piece = chars_to_string(&produced);
    out.append(piece.as_str());
    match stepped {
        Ok(_) => {
            proof {
                let dn = run_list(deep_view_list(dirs@), deep_view_values(args@))->Done_0;
                assert(produced@ =~= Seq::<char>::empty() + dn.text);
            }
            Ok(())
        },
        Err(e) => {
            proof {
                assert(old(out)@ =~= out@.subrange(0, old(out)@.len() as int));
            }
            Err(e)
        },
    }
}

} // verus!
