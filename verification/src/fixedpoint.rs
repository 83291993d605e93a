//! The fixed-point formatter: decimal number text rounded to a number of
//! decimal places and right-justified in a column count.

use vstd::prelude::*;
use crate::decimal::char_repeat;

verus! {

/// The numeric value of a digit character, or a negative number for any
/// other character.
pub open spec fn spec_digit_val(c: char) -> int {
    if c == '0' {
        0
    } else if c == '1' {
        1
    } else if c == '2' {
        2
    } else if c == '3' {
        3
    } else if c == '4' {
        4
    } else if c == '5' {
        5
    } else if c == '6' {
        6
    } else if c == '7' {
        7
    } else if c == '8' {
        8
    } else if c == '9' {
        9
    } else {
        -1
    }
}

/// Whether a character is a decimal digit.
pub open spec fn spec_is_digit(c: char) -> bool {
    spec_digit_val(c) >= 0
}

/// Whether every character of a sequence is a decimal digit.
pub open spec fn all_digits(s: Seq<char>) -> bool {
    forall|i: int| 0 <= i < s.len() ==> spec_is_digit(#[trigger] s[i])
}

/// Where the sign ends: one when the text starts with a minus sign, else
/// zero.
pub open spec fn sign_ofs(t: Seq<char>) -> int {
    if t.len() > 0 && t[0] == '-' {
        1
    } else {
        0
    }
}

/// The position of the first dot at or after `from`, or the length when
/// there is none.
pub open spec fn dot_index(t: Seq<char>, from: int) -> int
    decreases t.len() - from,
{
    if from < 0 || from >= t.len() {
        t.len() as int
    } else if t[from] == '.' {
        from
    } else {
        dot_index(t, from + 1)
    }
}

/// The integer digits of number text: between the sign and the dot.
pub open spec fn int_part(t: Seq<char>) -> Seq<char> {
    t.subrange(sign_ofs(t), dot_index(t, sign_ofs(t)))
}

/// The fraction digits of number text: after the dot, empty without one.
pub open spec fn frac_part(t: Seq<char>) -> Seq<char> {
    let d = dot_index(t, sign_ofs(t));
    if d < t.len() {
        t.subrange(d + 1, t.len() as int)
    } else {
        Seq::empty()
    }
}

/// Whether a character sequence is plain decimal number text: an optional
/// minus sign, at least one integer digit, and, if a dot follows, at least
/// one fraction digit; nothing else.
pub open spec fn well_formed_real(t: Seq<char>) -> bool {
    &&& int_part(t).len() >= 1
    &&& all_digits(int_part(t))
    &&& (dot_index(t, sign_ofs(t)) < t.len() ==> frac_part(t).len() >= 1)
    &&& all_digits(frac_part(t))
}

/// A digit sequence plus one: increment with carry; an all-nines sequence
/// gains a leading `1`.
pub open spec fn spec_incr_digits(ds: Seq<char>) -> Seq<char>
    decreases ds.len(),
{
    if ds.len() == 0 {
        seq!['1']
    } else if spec_digit_val(ds.last()) < 9 {
        ds.update(
            ds.len() - 1,
            crate::decimal::digit_char((spec_digit_val(ds.last()) + 1) as nat),
        )
    } else {
        spec_incr_digits(ds.drop_last()).push('0')
    }
}

/// Incrementing never shortens a digit sequence.
pub proof fn lemma_incr_digits_len(ds: Seq<char>)
    ensures
        spec_incr_digits(ds).len() >= ds.len(),
        spec_incr_digits(ds).len() >= 1,
    decreases ds.len(),
{
    if ds.len() > 0 && spec_digit_val(ds.last()) >= 9 {
        lemma_incr_digits_len(ds.drop_last());
    }
}

/// The rounded body: sign, integer digits, dot, exactly `p` fraction
/// digits, rounding half up at the cut; `p` is at least one here.
pub open spec fn spec_fixed_body(neg: bool, ip: Seq<char>, fp: Seq<char>, p: nat) -> Seq<char> {
    let sign: Seq<char> = if neg {
        seq!['-']
    } else {
        Seq::empty()
    };
    if fp.len() <= p {
        sign + ip + seq!['.'] + fp + char_repeat('0', (p - fp.len()) as nat)
    } else {
        let comb = ip + fp.take(p as int);
        let comb2 = if spec_digit_val(fp[p as int]) >= 5 {
            spec_incr_digits(comb)
        } else {
            comb
        };
        sign + comb2.take(comb2.len() - p) + seq!['.'] + comb2.skip(comb2.len() - p)
    }
}

/// The full fixed-point rendering of number text `t`: rounded to `places`
/// decimal places (zero places means the text stays as it is), then padded
/// on the left with `pad` up to `width` columns (zero width means no
/// padding). Nothing comes back when `t` is not plain decimal number text.
pub open spec fn spec_fixed(t: Seq<char>, width: nat, places: nat, pad: char) -> Option<Seq<char>> {
    if !well_formed_real(t) {
        None
    } else {
        let body = if places == 0 {
            t
        } else {
            spec_fixed_body(sign_ofs(t) == 1, int_part(t), frac_part(t), places)
        };
        let padding = if width > body.len() {
            char_repeat(pad, (width - body.len()) as nat)
        } else {
            Seq::empty()
        };
        Some(padding + body)
    }
}

/// The numeric value of a digit character, or a negative number otherwise.
pub fn digit_val(c: char) -> (r: i32)
    ensures
        r == spec_digit_val(c),
{
    match c {
        '0' => 0,
        '1' => 1,
        '2' => 2,
        '3' => 3,
        '4' => 4,
        '5' => 5,
        '6' => 6,
        '7' => 7,
        '8' => 8,
        '9' => 9,
        _ => -1,
    }
}

/// The next digit character up; only for digits below nine.
fn digit_incr(c: char) -> (r: char)
    requires
        0 <= spec_digit_val(c) < 9,
    ensures
        r == crate::decimal::digit_char((spec_digit_val(c) + 1) as nat),
{
    match c {
        '0' => '1',
        '1' => '2',
        '2' => '3',
        '3' => '4',
        '4' => '5',
        '5' => '6',
        '6' => '7',
        '7' => '8',
        _ => '9',
    }
}

/// Increments a digit vector by one, with carry.
fn incr_digits(ds: Vec<char>) -> (r: Vec<char>)
    requires
        all_digits(ds@),
    ensures
        r@ == spec_incr_digits(ds@),
    decreases ds@.len(),
{
    let mut ds = ds;
    let ghost orig = ds@;
    if ds.len() == 0 {
        ds.push('1');
        assert(ds@ =~= spec_incr_digits(orig));
        ds
    } else {
        let lastpos = ds.len() - 1;
        let c = ds[lastpos];
        if digit_val(c) < 9 {
            ds.set(lastpos, digit_incr(c));
            assert(ds@ =~= spec_incr_digits(orig));
            ds
        } else {
            let _ = ds.pop();
            assert(ds@ =~= orig.drop_last());
            let mut r = incr_digits(ds);
            r.push('0');
            assert(r@ =~= spec_incr_digits(orig));
            r
        }
    }
}

/// Splits number text into sign, integer digits and fraction digits;
/// nothing comes back when the text is not plain decimal number text.
fn scan_real(t: &Vec<char>) -> (r: Option<(bool, Vec<char>, Vec<char>)>)
    ensures
        match r {
            Some((neg, ip, fp)) => {
                &&& well_formed_real(t@)
                &&& neg == (sign_ofs(t@) == 1)
                &&& ip@ == int_part(t@)
                &&& fp@ == frac_part(t@)
            },
            None => !well_formed_real(t@),
        },
{
    let tlen = t.len();
    let s0: usize = if tlen > 0 && t[0] == '-' {
        1
    } else {
        0
    };
    assert(s0 as int == sign_ofs(t@));
    let mut d: usize = s0;
    while d < tlen && t[d] != '.'
        invariant
            s0 <= d <= tlen,
            tlen == t@.len(),
            dot_index(t@, s0 as int) == dot_index(t@, d as int),
        decreases tlen - d,
    {
        d = d + 1;
    }
    assert(dot_index(t@, s0 as int) == d as int);
    let mut ip: Vec<char> = Vec::new();
    let mut i: usize = s0;
    while i < d
        invariant
            s0 <= i <= d <= tlen,
            tlen == t@.len(),
            s0 as int == sign_ofs(t@),
            d as int == dot_index(t@, s0 as int),
            ip@ == t@.subrange(s0 as int, i as int),
            all_digits(ip@),
        decreases d - i,
    {
        let c = t[i];
        if digit_val(c) < 0 {
            proof {
                assert(int_part(t@)[i - s0] == c);
            }
            return None;
        }
        ip.push(c);
        assert(ip@ =~= t@.subrange(s0 as int, (i + 1) as int));
        i = i + 1;
    }
    if ip.len() == 0 {
        return None;
    }
    let mut fp: Vec<char> = Vec::new();
    if d < tlen {
        let mut j: usize = d + 1;
        while j < tlen
            invariant
                d + 1 <= j <= tlen,
                tlen == t@.len(),
                s0 as int == sign_ofs(t@),
                d as int == dot_index(t@, s0 as int),
                fp@ == t@.subrange(d + 1, j as int),
                all_digits(fp@),
            decreases tlen - j,
        {
            let c = t[j];
            if digit_val(c) < 0 {
                proof {
                    assert(frac_part(t@)[j - (d + 1)] == c);
                }
                return None;
            }
            fp.push(c);
            assert(fp@ =~= t@.subrange(d + 1, (j + 1) as int));
            j = j + 1;
        }
        if fp.len() == 0 {
            return None;
        }
    }
    assert(ip@ == int_part(t@));
    assert(fp@ =~= frac_part(t@));
    Some((s0 == 1, ip, fp))
}

/// Builds the rounded body from sign, integer digits and fraction digits.
fn fixed_body(neg: bool, ip: Vec<char>, fp: Vec<char>, places: usize) -> (body: Vec<char>)
    requires
        places >= 1,
        all_digits(ip@),
        all_digits(fp@),
    ensures
        body@ == spec_fixed_body(neg, ip@, fp@, places as nat),
{
    let ghost gip = ip@;
    let ghost gfp = fp@;
    let mut ip = ip;
    let mut fp = fp;
    let mut body: Vec<char> = Vec::new();
    if neg {
        body.push('-');
    }
    if fp.len() <= places {
        body.append(&mut ip);
        body.push('.');
        let fplen = fp.len();
        body.append(&mut fp);
        let mut z: usize = 0;
        let ghost prezero = body@;
        while z < places - fplen
            invariant
                0 <= z <= places - fplen,
                body@ == prezero + char_repeat('0', z as nat),
            decreases places - fplen - z,
        {
            body.push('0');
            assert(body@ =~= prezero + char_repeat('0', (z + 1) as nat));
            z = z + 1;
        }
        assert(body@ =~= spec_fixed_body(neg, gip, gfp, places as nat));
        body
    } else {
        let mut comb: Vec<char> = Vec::new();
        comb.append(&mut ip);
        let mut k: usize = 0;
        let ghost precut = comb@;
        while k < places
            invariant
                0 <= k <= places < gfp.len(),
                fp@ == gfp,
                comb@ == precut + gfp.take(k as int),
            decreases places - k,
        {
            comb.push(fp[k]);
            assert(comb@ =~= precut + gfp.take((k + 1) as int));
            k = k + 1;
        }
        assert(comb@ == gip + gfp.take(places as int));
        let roundup = digit_val(fp[places]) >= 5;
        assert(all_digits(comb@));
        let comb2 = if roundup {
            incr_digits(comb)
        } else {
            comb
        };
        let ghost gcomb2 = comb2@;
        proof {
            if roundup {
                lemma_incr_digits_len(gip + gfp.take(places as int));
            }
        }
        let clen = comb2.len();
        assert(clen >= places);
        let cut = clen - places;
        let mut m: usize = 0;
        let ghost presplit = body@;
        while m < cut
            invariant
                0 <= m <= cut <= clen,
                clen == gcomb2.len(),
                comb2@ == gcomb2,
                body@ == presplit + gcomb2.take(m as int),
            decreases cut - m,
        {
            body.push(comb2[m]);
            assert(body@ =~= presplit + gcomb2.take((m + 1) as int));
            m = m + 1;
        }
        body.push('.');
        let mut m2: usize = cut;
        let ghost predot = body@;
        while m2 < clen
            invariant
                cut <= m2 <= clen,
                clen == gcomb2.len(),
                comb2@ == gcomb2,
                body@ == predot + gcomb2.subrange(cut as int, m2 as int),
            decreases clen - m2,
        {
            body.push(comb2[m2]);
            assert(body@ =~= predot + gcomb2.subrange(cut as int, (m2 + 1) as int));
            m2 = m2 + 1;
        }
        proof {
            assert(gcomb2.take(gcomb2.len() - places as int) == gcomb2.take(cut as int));
            assert(gcomb2.subrange(cut as int, clen as int) =~= gcomb2.skip(
                gcomb2.len() - places as int,
            ));
            assert(body@ =~= spec_fixed_body(neg, gip, gfp, places as nat));
        }
        body
    }
}

/// Rounds plain decimal number text to `places` decimal places (zero means
/// leave it as it is) and pads it on the left with `pad` up to `width`
/// columns. Nothing comes back when the text is not plain decimal number
/// text.
pub fn fixed_chars(t: &Vec<char>, width: usize, places: usize, pad: char) -> (r: Option<Vec<char>>)
    ensures
        match r {
            Some(v) => spec_fixed(t@, width as nat, places as nat, pad) == Some(v@),
            None => spec_fixed(t@, width as nat, places as nat, pad) is None,
        },
{
    let scanned = scan_real(t);
    match scanned {
        None => None,
        Some((neg, ip, fp)) => {
            let mut body: Vec<char> = if places == 0 {
                let mut b: Vec<char> = Vec::new();
                let tlen = t.len();
                let mut k: usize = 0;
                while k < tlen
                    invariant
                        0 <= k <= tlen,
                        tlen == t@.len(),
                        b@ == t@.take(k as int),
                    decreases tlen - k,
                {
                    b.push(t[k]);
                    assert(b@ =~= t@.take((k + 1) as int));
                    k = k + 1;
                }
                assert(b@ =~= t@);
                b
            } else {
                fixed_body(neg, ip, fp, places)
            };
            let blen = body.len();
            let mut v: Vec<char> = Vec::new();
            if width > blen {
                let mut w: usize = 0;
                while w < width - blen
                    invariant
                        0 <= w <= width - blen,
                        v@ == char_repeat(pad, w as nat),
                    decreases width - blen - w,
                {
                    v.push(pad);
                    assert(v@ =~= char_repeat(pad, (w + 1) as nat));
                    w = w + 1;
                }
            }
            v.append(&mut body);
            assert(spec_fixed(t@, width as nat, places as nat, pad) == Some(v@));
            Some(v)
        },
    }
}

} // verus!
