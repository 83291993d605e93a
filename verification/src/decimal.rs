//! The grouped-decimal formatter: signed integers rendered with optional
//! digit grouping, an optional forced sign, and left padding to a column
//! count.

use vstd::prelude::*;
use crate::num::Num;

verus! {

/// The character for one decimal digit.
pub open spec fn digit_char(d: nat) -> char {
    if d == 0 {
        '0'
    } else if d == 1 {
        '1'
    } else if d == 2 {
        '2'
    } else if d == 3 {
        '3'
    } else if d == 4 {
        '4'
    } else if d == 5 {
        '5'
    } else if d == 6 {
        '6'
    } else if d == 7 {
        '7'
    } else if d == 8 {
        '8'
    } else {
        '9'
    }
}

/// The decimal digits of a magnitude, most significant first.
pub open spec fn spec_digits(n: nat) -> Seq<char>
    decreases n,
{
    if n < 10 {
        seq![digit_char(n)]
    } else {
        spec_digits(n / 10).push(digit_char(n % 10))
    }
}

/// How many decimal digits a magnitude has.
pub open spec fn spec_digit_count(n: nat) -> nat
    decreases n,
{
    if n < 10 {
        1
    } else {
        1 + spec_digit_count(n / 10)
    }
}

/// Powers of ten.
pub open spec fn pow10(k: nat) -> nat
    decreases k,
{
    if k == 0 {
        1
    } else {
        10 * pow10((k - 1) as nat)
    }
}

/// The digit sequence is as long as the digit count says.
pub proof fn lemma_digits_len(n: nat)
    ensures
        spec_digits(n).len() == spec_digit_count(n),
    decreases n,
{
    if n >= 10 {
        lemma_digits_len(n / 10);
    }
}

/// Every power of ten below the leading digit's place fits in the value.
pub proof fn lemma_pow10_le(n: nat, k: nat)
    requires
        1 <= n,
        k < spec_digit_count(n),
    ensures
        pow10(k) <= n,
    decreases n,
{
    if k > 0 {
        lemma_pow10_le(n / 10, (k - 1) as nat);
    }
}

/// The digit sequence with a separator inserted before each digit that
/// starts a new group, counted in groups of `interval` from the
/// least-significant end; `from` is the position the rest of the sequence
/// starts at. A separator never stands before the very first digit.
pub open spec fn spec_group_insert(digs: Seq<char>, interval: nat, sep: char, from: int) -> Seq<
    char,
>
    decreases digs.len() - from,
{
    if from < 0 || from >= digs.len() {
        Seq::empty()
    } else {
        (if from > 0 && (digs.len() - from) % (interval as int) == 0 {
            seq![sep]
        } else {
            Seq::empty()
        }) + seq![digs[from]] + spec_group_insert(digs, interval, sep, from + 1)
    }
}

/// The digit sequence, grouped when grouping is on and the interval is
/// positive; a zero interval disables grouping.
pub open spec fn spec_grouped(digs: Seq<char>, interval: nat, sep: char, on: bool) -> Seq<char> {
    if on && interval > 0 {
        spec_group_insert(digs, interval, sep, 0)
    } else {
        digs
    }
}

/// A character repeated.
pub open spec fn char_repeat(c: char, n: nat) -> Seq<char> {
    Seq::new(n, |i: int| c)
}

/// The sign prefix: `-` for negatives, `+` for non-negatives when a sign is
/// forced, nothing otherwise.
pub open spec fn spec_sign_text(n: int, print_sign: bool) -> Seq<char> {
    if n < 0 {
        seq!['-']
    } else if print_sign {
        seq!['+']
    } else {
        Seq::empty()
    }
}

/// The full grouped-decimal rendering of `n`: left padding up to
/// `min_columns` (the sign and every separator count as columns), then the
/// sign, then the grouped digits.
pub open spec fn spec_decimal(
    n: int,
    min_columns: nat,
    pad_char: char,
    comma_char: char,
    comma_interval: nat,
    print_commas: bool,
    print_sign: bool,
) -> Seq<char> {
    let core = spec_sign_text(n, print_sign) + spec_grouped(
        spec_digits(vstd::math::abs(n) as nat),
        comma_interval,
        comma_char,
        print_commas,
    );
    let pad = if min_columns > core.len() {
        min_columns - core.len()
    } else {
        0
    };
    char_repeat(pad_char, pad as nat) + core
}

/// The character for one digit value.
fn digit_to_char(d: u8) -> (c: char)
    requires
        d < 10,
    ensures
        c == digit_char(d as nat),
{
    match d {
        0 => '0',
        1 => '1',
        2 => '2',
        3 => '3',
        4 => '4',
        5 => '5',
        6 => '6',
        7 => '7',
        8 => '8',
        _ => '9',
    }
}

/// Appends the decimal digits of a magnitude, most significant first.
pub fn push_digits(out: &mut Vec<char>, n: u128)
    ensures
        final (out)@ == old(out)@ + spec_digits(n as nat),
    decreases n,
{
    if n < 10 {
        out.push(digit_to_char(n as u8));
        assert(out@ =~= old(out)@ + spec_digits(n as nat));
    } else {
        push_digits(out, n / 10);
        out.push(digit_to_char((n % 10) as u8));
        assert(out@ =~= old(out)@ + spec_digits(n as nat));
    }
}

/// The largest power-of-ten divisor no greater than the value, and the
/// count of its decimal digits.
pub fn divisor(number: u128) -> (r: (u128, usize))
    ensures
        r.1 as nat == spec_digit_count(number as nat),
        r.0 as nat == pow10((r.1 - 1) as nat),
{
    let mut digs: Vec<char> = Vec::new();
    push_digits(&mut digs, number);
    proof {
        lemma_digits_len(number as nat);
    }
    let count = digs.len();
    let mut d: u128 = 1;
    let mut k: usize = 1;
    while k < count
        invariant
            1 <= k <= count,
            count as nat == spec_digit_count(number as nat),
            d as nat == pow10((k - 1) as nat),
        decreases count - k,
    {
        proof {
            lemma_pow10_le(number as nat, k as nat);
        }
        d = d * 10;
        k = k + 1;
    }
    (d, count)
}

/// Renders a sign-and-magnitude integer in full: padding, sign, grouped
/// digits.
pub fn decimal_chars(
    neg: bool,
    mag: u128,
    min_columns: usize,
    pad_char: char,
    comma_char: char,
    comma_interval: usize,
    print_commas: bool,
    print_sign: bool,
) -> (v: Vec<char>)
    requires
        neg ==> mag >= 1,
    ensures
        v@ == spec_decimal(
            if neg {
                -(mag as int)
            } else {
                mag as int
            },
            min_columns as nat,
            pad_char,
            comma_char,
            comma_interval as nat,
            print_commas,
            print_sign,
        ),
{
    let ghost n: int = if neg {
        -(mag as int)
    } else {
        mag as int
    };
    let mut digs: Vec<char> = Vec::new();
    push_digits(&mut digs, mag);
    let mut core: Vec<char> = Vec::new();
    if neg {
        core.push('-');
    } else if print_sign {
        core.push('+');
    }
    assert(core@ =~= spec_sign_text(n, print_sign));
    let grouping = print_commas && comma_interval > 0;
    let ghost sign: Seq<char> = spec_sign_text(n, print_sign);
    let mut i: usize = 0;
    while i < digs.len()
        invariant
            0 <= i <= digs.len(),
            digs@ == spec_digits(mag as nat),
            grouping == (print_commas && comma_interval > 0),
            sign == spec_sign_text(n, print_sign),
            grouping ==> core@ + spec_group_insert(
                digs@,
                comma_interval as nat,
                comma_char,
                i as int,
            ) == sign + spec_group_insert(digs@, comma_interval as nat, comma_char, 0),
            !grouping ==> core@ + digs@.skip(i as int) == sign + digs@,
        decreases digs.len() - i,
    {
        let ghost pre = core@;
        if grouping {
            if i > 0 && (digs.len() - i) % comma_interval == 0 {
                core.push(comma_char);
            }
            core.push(digs[i]);
            proof {
                let iv = comma_interval as nat;
                assert(spec_group_insert(digs@, iv, comma_char, i as int) == (if i > 0 && (
                digs@.len() - i) % (iv as int) == 0 {
                    seq![comma_char]
                } else {
                    Seq::empty()
                }) + seq![digs@[i as int]] + spec_group_insert(digs@, iv, comma_char, i + 1));
                assert(core@ + spec_group_insert(digs@, iv, comma_char, i + 1) =~= pre
                    + spec_group_insert(digs@, iv, comma_char, i as int));
            }
        } else {
            core.push(digs[i]);
            proof {
                assert(digs@.skip(i as int) =~= seq![digs@[i as int]] + digs@.skip(i + 1));
                assert(core@ + digs@.skip(i + 1) =~= pre + digs@.skip(i as int));
            }
        }
        i = i + 1;
    }
    proof {
        if grouping {
            assert(spec_group_insert(digs@, comma_interval as nat, comma_char, digs@.len() as int)
                =~= Seq::<char>::empty());
        } else {
            assert(digs@.skip(digs@.len() as int) =~= Seq::<char>::empty());
        }
        assert(core@ =~= sign + spec_grouped(
            digs@,
            comma_interval as nat,
            comma_char,
            print_commas,
        ));
        assert(vstd::math::abs(n) == mag as int);
    }
    let core_len = core.len();
    let pad = if min_columns > core_len {
        min_columns - core_len
    } else {
        0
    };
    let mut v: Vec<char> = Vec::new();
    let mut p: usize = 0;
    while p < pad
        invariant
            0 <= p <= pad,
            v@ == char_repeat(pad_char, p as nat),
        decreases pad - p,
    {
        v.push(pad_char);
        assert(v@ =~= char_repeat(pad_char, (p + 1) as nat));
        p = p + 1;
    }
    let mut j: usize = 0;
    let ghost padded = v@;
    while j < core.len()
        invariant
            0 <= j <= core.len(),
            v@ == padded + core@.take(j as int),
        decreases core.len() - j,
    {
        v.push(core[j]);
        assert(v@ =~= padded + core@.take(j + 1 as int));
        j = j + 1;
    }
    proof {
        assert(core@.take(core@.len() as int) =~= core@);
        assert(v@ =~= spec_decimal(
            n,
            min_columns as nat,
            pad_char,
            comma_char,
            comma_interval as nat,
            print_commas,
            print_sign,
        ));
    }
    v
}

/// The grouped digits from `from` on, without the separator that may
/// stand immediately before position `from`.
pub open spec fn spec_group_nosep(digs: Seq<char>, interval: nat, sep: char, from: int) -> Seq<
    char,
> {
    if from < 0 || from >= digs.len() {
        Seq::empty()
    } else {
        seq![digs[from]] + spec_group_insert(digs, interval, sep, from + 1)
    }
}

/// Powers of ten are positive.
pub proof fn lemma_pow10_pos(k: nat)
    ensures
        pow10(k) >= 1,
    decreases k,
{
    if k > 0 {
        lemma_pow10_pos((k - 1) as nat);
    }
}

/// Dividing a positive count by the group interval steps down by one
/// exactly at the multiples of the interval.
proof fn lemma_div_step(r: int, iv: int)
    requires
        r >= 1,
        iv >= 1,
    ensures
        r / iv == if r % iv == 0 {
            (r - 1) / iv + 1
        } else {
            (r - 1) / iv
        },
{
    vstd::arithmetic::div_mod::lemma_fundamental_div_mod(r, iv);
    let q = r / iv;
    let m = r % iv;
    if m == 0 {
        assert(r - 1 == (q - 1) * iv + (iv - 1)) by (nonlinear_arith)
            requires
                r == iv * q + m,
                m == 0,
        ;
        vstd::arithmetic::div_mod::lemma_fundamental_div_mod_converse(r - 1, iv, q - 1, iv - 1);
    } else {
        assert(r - 1 == q * iv + (m - 1)) by (nonlinear_arith)
            requires
                r == iv * q + m,
        ;
        vstd::arithmetic::div_mod::lemma_fundamental_div_mod_converse(r - 1, iv, q, m - 1);
    }
}

/// How long a grouped digit sequence is: the digits plus one separator for
/// each full group boundary that lies strictly inside it.
pub proof fn lemma_group_insert_len(digs: Seq<char>, interval: nat, sep: char, from: int)
    requires
        interval >= 1,
        0 <= from <= digs.len(),
    ensures
        spec_group_insert(digs, interval, sep, from).len() == if from == 0 {
            if digs.len() >= 1 {
                digs.len() + (digs.len() - 1) / (interval as int)
            } else {
                0
            }
        } else {
            (digs.len() - from) + (digs.len() - from) / (interval as int)
        },
    decreases digs.len() - from,
{
    let len = digs.len() as int;
    if from >= len {
    } else {
        lemma_group_insert_len(digs, interval, sep, from + 1);
        if from > 0 {
            lemma_div_step(len - from, interval as int);
        }
    }
}

/// Each digit of a magnitude is the digit of the matching power-of-ten
/// place.
pub proof fn lemma_spec_digits_index(n: nat, i: int)
    requires
        0 <= i < spec_digits(n).len(),
    ensures
        spec_digits(n)[i] == digit_char(
            ((n / pow10((spec_digits(n).len() - 1 - i) as nat)) % 10) as nat,
        ),
    decreases n,
{
    let len = spec_digits(n).len() as int;
    vstd::arithmetic::div_mod::lemma_div_basics(n as int);
    if n < 10 {
        assert(pow10(0) == 1);
    } else {
        if i == len - 1 {
            assert(pow10(0) == 1);
        } else {
            lemma_spec_digits_index(n / 10, i);
            let k = (len - 2 - i) as nat;
            lemma_pow10_pos(k);
            vstd::arithmetic::div_mod::lemma_div_denominator(n as int, 10, pow10(k) as int);
            assert(pow10((k + 1) as nat) == 10 * pow10(k));
            assert((n as int / 10) / (pow10(k) as int) == n as int / (10 * pow10(k) as int));
        }
    }
}

/// A finite, non-restartable character source that yields the rendering of
/// one grouped decimal lazily: `new` does the column, sign and separator
/// accounting, and `next` generates one character at a time, digits most
/// significant first.
#[derive(Debug)]
pub struct Decimal {
    neg: bool,
    mag: u128,
    pad_char: char,
    comma_char: char,
    comma_interval: usize,
    grouping: bool,
    print_sign: bool,
    pad: usize,
    sign_done: bool,
    divisor: u128,
    digits_left: usize,
    digits_total: usize,
    sep_done: bool,
}

impl Decimal {
    /// The state is consistent: the divisor sits at the next digit's
    /// place, and padding and sign are gone once the digits start going
    /// out.
    #[verifier::type_invariant]
    closed spec fn wf(self) -> bool {
        let digs = spec_digits(self.mag as nat);
        &&& self.digits_total == digs.len()
        &&& self.digits_left <= self.digits_total
        &&& (self.digits_left >= 1 ==> self.divisor as nat == pow10((self.digits_left - 1) as nat))
        &&& (self.grouping ==> self.comma_interval >= 1)
        &&& (self.digits_left == 0 ==> self.pad == 0 && self.sign_done)
        &&& (!self.sign_done ==> self.neg || self.print_sign)
        &&& (self.sep_done ==> self.grouping && self.digits_left >= 1)
    }

    /// The characters this source will still yield.
    pub closed spec fn remaining(self) -> Seq<char> {
        let digs = spec_digits(self.mag as nat);
        let from = digs.len() - self.digits_left;
        let sign: Seq<char> = if self.sign_done {
            Seq::empty()
        } else if self.neg {
            seq!['-']
        } else {
            seq!['+']
        };
        let dtail: Seq<char> = if !self.grouping {
            digs.skip(from)
        } else if self.sep_done {
            spec_group_nosep(digs, self.comma_interval as nat, self.comma_char, from)
        } else {
            spec_group_insert(digs, self.comma_interval as nat, self.comma_char, from)
        };
        char_repeat(self.pad_char, self.pad as nat) + sign + dtail
    }

    /// Prepares the rendering of `number` under the given column, padding,
    /// grouping and sign settings: the column accounting happens here, and
    /// the characters are generated lazily by `next`.
    pub fn new<T: Num>(
        min_columns: usize,
        pad_char: char,
        comma_char: char,
        comma_interval: usize,
        print_commas: bool,
        print_sign: bool,
        number: T,
    ) -> (r: Self)
        ensures
            r.remaining() == spec_decimal(
                number.as_int(),
                min_columns as nat,
                pad_char,
                comma_char,
                comma_interval as nat,
                print_commas,
                print_sign,
            ),
    {
        let ghost n: int = number.as_int();
        let neg = number.is_negative();
        let mag = number.magnitude();
        let (dv, count) = divisor(mag);
        proof {
            lemma_digits_len(mag as nat);
        }
        let grouping = print_commas && comma_interval > 0;
        let signw: u128 = if neg || print_sign {
            1
        } else {
            0
        };
        let seps: usize = if grouping {
            (count - 1) / comma_interval
        } else {
            0
        };
        proof {
            if grouping {
                lemma_group_insert_len(
                    spec_digits(mag as nat),
                    comma_interval as nat,
                    comma_char,
                    0,
                );
            }
        }
        let columns: u128 = count as u128 + seps as u128 + signw;
        let pad: usize = if (min_columns as u128) > columns {
            (min_columns as u128 - columns) as usize
        } else {
            0
        };
        let r = Decimal {
            neg,
            mag,
            pad_char,
            comma_char,
            comma_interval,
            grouping,
            print_sign,
            pad,
            sign_done: !(neg || print_sign),
            divisor: dv,
            digits_left: count,
            digits_total: count,
            sep_done: false,
        };
        proof {
            let digs = spec_digits(mag as nat);
            assert(digs.skip(0) =~= digs);
            assert(vstd::math::abs(n) == mag as int);
            assert(r.remaining() =~= spec_decimal(
                n,
                min_columns as nat,
                pad_char,
                comma_char,
                comma_interval as nat,
                print_commas,
                print_sign,
            ));
        }
        r
    }

    /// Yields the next character of the rendering, or nothing once the
    /// rendering is exhausted.
    #[verifier::rlimit(60)]
    pub fn next(&mut self) -> (r: Option<char>)
        ensures
            match r {
                Some(c) => old(self).remaining().len() > 0 && c == old(self).remaining()[0]
                    && final (self).remaining() == old(self).remaining().drop_first(),
                None => old(self).remaining().len() == 0 && final (self).remaining() == old(
                    self,
                ).remaining(),
            },
    {
        proof {
            use_type_invariant(&*self);
        }
        let ghost pre = *self;
        let ghost digs = spec_digits(self.mag as nat);
        let ghost from = digs.len() - self.digits_left as int;
        if self.pad > 0 {
            let c = self.pad_char;
            *self = Decimal { pad: self.pad - 1, ..*self };
            proof {
                assert(char_repeat(pre.pad_char, pre.pad as nat) =~= seq![pre.pad_char]
                    + char_repeat(pre.pad_char, (pre.pad - 1) as nat));
                assert(final (self).remaining() =~= pre.remaining().drop_first());
            }
            return Some(c);
        }
        if !self.sign_done {
            let c = if self.neg {
                '-'
            } else {
                '+'
            };
            *self = Decimal { sign_done: true, ..*self };
            proof {
                assert(final (self).remaining() =~= pre.remaining().drop_first());
            }
            return Some(c);
        }
        if self.digits_left == 0 {
            proof {
                assert(digs.skip(digs.len() as int) =~= Seq::<char>::empty());
                assert(pre.remaining() =~= Seq::<char>::empty());
            }
            return None;
        }
        if self.grouping && !self.sep_done && self.digits_left < self.digits_total
            && self.digits_left % self.comma_interval == 0 {
            let c = self.comma_char;
            *self = Decimal { sep_done: true, ..*self };
            proof {
                assert(0 < from < digs.len());
                assert(final (self).remaining() =~= pre.remaining().drop_first());
            }
            return Some(c);
        }
        proof {
            lemma_pow10_pos((self.digits_left - 1) as nat);
        }
        let d = ((self.mag / self.divisor) % 10) as u8;
        let c = digit_to_char(d);
        proof {
            lemma_digits_len(self.mag as nat);
            lemma_spec_digits_index(self.mag as nat, from);
            assert(digs[from] == c);
            if self.digits_left >= 2 {
                assert(pow10((self.digits_left - 1) as nat) == 10 * pow10(
                    (self.digits_left - 2) as nat,
                ));
                vstd::arithmetic::div_mod::lemma_div_multiples_vanish(
                    pow10((self.digits_left - 2) as nat) as int,
                    10,
                );
            }
        }
        *self = Decimal {
            divisor: self.divisor / 10,
            digits_left: self.digits_left - 1,
            sep_done: false,
            ..*self
        };
        proof {
            if !pre.grouping {
                assert(digs.skip(from) =~= seq![digs[from]] + digs.skip(from + 1));
            }
            assert(final (self).remaining() =~= pre.remaining().drop_first());
        }
        Some(c)
    }
}

} // verus!
