//! The document template: the stylesheet built from the style options and
//! the full HTML document around a rendered fragment.  The print font size is
//! derived from the pixel size by the exact ratio 3/4 (one CSS pixel is 0.75
//! printer's points), computed on decimal strings without floating point.

use crate::config::{
    chinese_font_family, chinese_font_family_spec, digits_end, font_size_px, font_size_px_spec,
    font_weight_value, font_weight_value_spec, is_digit, lemma_digits_end, line_spacing_value,
    line_spacing_value_spec, math_spacing_value, math_spacing_value_spec,
    paragraph_spacing_value, paragraph_spacing_value_spec, StyleOptions,
};
use crate::textops::{append_range, append_vec, chars_to_string, copy_range, dec_rep, lemma_dec_rep_len, push_dec, to_chars};
use vstd::prelude::*;
use vstd::string::StringExecFns;

verus! {

// ───────────────────────── powers of ten ─────────────────────────

pub open spec fn pow10(k: nat) -> nat
    decreases k,
{
    if k == 0 {
        1
    } else {
        10 * pow10((k - 1) as nat)
    }
}

proof fn lemma_pow10_pos(k: nat)
    ensures
        pow10(k) >= 1,
    decreases k,
{
    if k > 0 {
        lemma_pow10_pos((k - 1) as nat);
    }
}

proof fn lemma_pow10_mono(a: nat, b: nat)
    requires
        a <= b,
    ensures
        pow10(a) <= pow10(b),
    decreases b,
{
    if a < b {
        lemma_pow10_mono(a, (b - 1) as nat);
        lemma_pow10_pos((b - 1) as nat);
    }
}

proof fn lemma_pow10_add(a: nat, b: nat)
    ensures
        pow10(a) * pow10(b) == pow10((a + b) as nat),
    decreases a,
{
    if a == 0 {
        assert(pow10(0) * pow10(b) == pow10(b)) by (nonlinear_arith)
            requires pow10(0) == 1;
    } else {
        lemma_pow10_add((a - 1) as nat, b);
        assert((10 * pow10((a - 1) as nat)) * pow10(b) == 10 * (pow10((a - 1) as nat) * pow10(b)))
            by (nonlinear_arith);
    }
}

proof fn lemma_pow10_33()
    ensures
        pow10(30) == 0x0c9f2c9cd04674edea40000000u128 as nat,
        pow10(33) == 0x314dc6448d9338c15b0a00000000u128 as nat,
{
    reveal_with_fuel(pow10, 34);
}

fn pow10_exec(k: usize) -> (r: u128)
    requires
        k <= 33,
    ensures
        r as nat == pow10(k as nat),
{
    let mut r: u128 = 1;
    let mut t: usize = 0;
    while t < k
        invariant
            t <= k <= 33,
            r as nat == pow10(t as nat),
        decreases k - t,
    {
        proof {
            lemma_pow10_mono((t + 1) as nat, 33);
            lemma_pow10_33();
        }
        r = r * 10;
        t = t + 1;
    }
    r
}

// ───────────────────────── decimal values ─────────────────────────

pub open spec fn digit_of(c: char) -> nat {
    (c as u32 - 48) as nat
}

/// The value of the digit run `s[i .. j)`.
pub open spec fn digits_val(s: Seq<char>, i: nat, j: nat) -> nat
    decreases j - i,
{
    if j <= i {
        0
    } else {
        digits_val(s, i, (j - 1) as nat) * 10 + digit_of(s[j - 1])
    }
}

proof fn lemma_digits_val_bound(s: Seq<char>, i: nat, j: nat)
    requires
        i <= j <= s.len(),
        forall|t: int| i <= t < j ==> is_digit(s[t]),
    ensures
        digits_val(s, i, j) < pow10((j - i) as nat),
    decreases j - i,
{
    if j > i {
        lemma_digits_val_bound(s, i, (j - 1) as nat);
        assert(is_digit(s[j - 1]));
        assert(digit_of(s[j - 1]) <= 9);
    } else {
        assert(pow10(0) == 1);
    }
}

fn digits_val_exec(v: &Vec<char>, i: usize, j: usize) -> (r: u128)
    requires
        i <= j <= v.len(),
        j - i <= 32,
        forall|t: int| i <= t < j ==> is_digit(v@[t]),
    ensures
        r as nat == digits_val(v@, i as nat, j as nat),
{
    let mut acc: u128 = 0;
    let mut k: usize = i;
    while k < j
        invariant
            i <= k <= j <= v.len(),
            j - i <= 32,
            forall|t: int| i <= t < j ==> is_digit(v@[t]),
            acc as nat == digits_val(v@, i as nat, k as nat),
            (acc as nat) < pow10((k - i) as nat),
        decreases j - k,
    {
        proof {
            lemma_pow10_mono((k - i) as nat, 32);
            lemma_pow10_mono((k + 1 - i) as nat, 33);
            lemma_pow10_33();
            assert(is_digit(v@[k as int]));
        }
        let d = (v[k] as u32 - 48) as u128;
        acc = acc * 10 + d;
        k = k + 1;
    }
    proof {
        lemma_digits_val_bound(v@, i as nat, j as nat);
    }
    acc
}

// ───────────────────────── the px value and its pt rendering ─────────────────────────

/// Strips every trailing repetition of `px`, as `trim_end_matches` does.
pub open spec fn strip_px(s: Seq<char>) -> Seq<char>
    decreases s.len(),
{
    if s.len() >= 2 && s[s.len() - 2] == 'p' && s[s.len() - 1] == 'x' {
        strip_px(s.take(s.len() - 2))
    } else {
        s
    }
}

fn strip_px_exec(v: &Vec<char>) -> (r: Vec<char>)
    ensures
        r@ == strip_px(v@),
{
    let mut n: usize = v.len();
    proof {
        assert(v@.take(v.len() as int) =~= v@);
    }
    loop
        invariant_except_break
            n <= v.len(),
            strip_px(v@) == strip_px(v@.take(n as int)),
        ensures
            n <= v.len(),
            strip_px(v@) == v@.take(n as int),
        decreases n,
    {
        if n < 2 {
            assert(strip_px(v@.take(n as int)) == v@.take(n as int));
            break ;
        }
        if !(v[n - 2] == 'p' && v[n - 1] == 'x') {
            assert(strip_px(v@.take(n as int)) == v@.take(n as int));
            break ;
        }
        proof {
            assert(v@.take(n as int).take(n as int - 2) =~= v@.take(n as int - 2));
        }
        n = n - 2;
    }
    copy_range(v, 0, n)
}

/// The exponent part filling `s[p..]`: nothing (exponent zero), or `e`/`E`,
/// an optional sign, and one or two digits.  Its sign and its value.
pub open spec fn parse_exp(s: Seq<char>, p: nat) -> Option<(bool, nat)> {
    if p == s.len() {
        Some((false, 0))
    } else if p < s.len() && (s[p as int] == 'e' || s[p as int] == 'E') {
        let q: nat = if p + 1 < s.len() && (s[p as int + 1] == '+' || s[p as int + 1] == '-') {
            p + 2
        } else {
            p + 1
        };
        let eneg = p + 1 < s.len() && s[p as int + 1] == '-';
        if digits_end(s, q) == s.len() && q < s.len() && s.len() - q <= 2 {
            Some((eneg, digits_val(s, q, s.len())))
        } else {
            None
        }
    } else {
        None
    }
}

/// Folds a parsed exponent into mantissa and fraction length, keeping the
/// value exact; a combination that would exceed thirty digits is not given a
/// value.
pub open spec fn apply_exp(
    s: Seq<char>,
    p: nat,
    neg: bool,
    m: nat,
    scale: nat,
    digits: nat,
) -> Option<(bool, nat, nat)> {
    match parse_exp(s, p) {
        None => None,
        Some((eneg, e)) => {
            if eneg {
                if scale + e <= 30 {
                    Some((neg, m, (scale + e) as nat))
                } else {
                    None
                }
            } else if e <= scale {
                Some((neg, m, (scale - e) as nat))
            } else {
                if digits + (e - scale) <= 30 {
                    Some((neg, m * pow10((e - scale) as nat), 0))
                } else {
                    None
                }
            }
        },
    }
}

/// A signed decimal (optional sign, digits, optional point, an optional
/// exponent of at most two digits, at least one mantissa digit): its sign,
/// its value as an integer with a decimal-fraction length, exact.  Non-finite
/// forms and values beyond thirty digits are not given a value; they fall
/// back to the default size.
pub open spec fn parse_dec(s: Seq<char>) -> Option<(bool, nat, nat)> {
    if s.len() == 0 {
        None
    } else {
        let i: nat = if s[0] == '+' || s[0] == '-' {
            1
        } else {
            0
        };
        let neg = s[0] == '-';
        let d1 = digits_end(s, i);
        if d1 < s.len() && s[d1 as int] == '.' {
            let d2 = digits_end(s, d1 + 1);
            if (d1 > i || d2 > d1 + 1) && (d1 - i) + (d2 - (d1 + 1)) <= 30 {
                apply_exp(
                    s,
                    d2,
                    neg,
                    digits_val(s, i, d1) * pow10((d2 - (d1 + 1)) as nat) + digits_val(
                        s,
                        (d1 + 1) as nat,
                        d2,
                    ),
                    (d2 - (d1 + 1)) as nat,
                    ((d1 - i) + (d2 - (d1 + 1))) as nat,
                )
            } else {
                None
            }
        } else {
            if d1 > i && d1 - i <= 30 {
                apply_exp(s, d1, neg, digits_val(s, i, d1), 0, (d1 - i) as nat)
            } else {
                None
            }
        }
    }
}

proof fn lemma_digits_end_digits(s: Seq<char>, i: nat)
    requires
        i <= s.len(),
    ensures
        forall|t: int| i <= t < digits_end(s, i) ==> is_digit(s[t]),
        i <= digits_end(s, i) <= s.len(),
    decreases s.len() - i,
{
    lemma_digits_end(s, i);
    if i < s.len() && is_digit(s[i as int]) {
        lemma_digits_end_digits(s, i + 1);
    }
}

fn parse_dec_exec(v: &Vec<char>) -> (r: Option<(bool, u128, usize)>)
    ensures
        match r {
            None => parse_dec(v@) is None,
            Some(t) => parse_dec(v@) == Some((t.0, t.1 as nat, t.2 as nat)) && (t.1 as nat)
                < pow10(30) && t.2 <= 30,
        },
{
    if v.len() == 0 {
        return None;
    }
    let i: usize = if v[0] == '+' || v[0] == '-' {
        1
    } else {
        0
    };
    let neg = v[0] == '-';
    proof {
        lemma_digits_end_digits(v@, i as nat);
    }
    let d1 = digits_end_exec(v, i);
    if d1 < v.len() && v[d1] == '.' {
        proof {
            lemma_digits_end_digits(v@, (d1 + 1) as nat);
        }
        let d2 = digits_end_exec(v, d1 + 1);
        if (d1 > i || d2 > d1 + 1) && (d1 - i) + (d2 - (d1 + 1)) <= 30 {
            let a = digits_val_exec(v, i, d1);
            let b = digits_val_exec(v, d1 + 1, d2);
            let fr = d2 - (d1 + 1);
            let digits = (d1 - i) + fr;
            let p = pow10_exec(fr);
            proof {
                lemma_digits_val_bound(v@, i as nat, d1 as nat);
                lemma_digits_val_bound(v@, (d1 + 1) as nat, d2 as nat);
                lemma_pow10_add((d1 - i) as nat, fr as nat);
                lemma_pow10_mono(((d1 - i) + fr) as nat, 30);
                lemma_pow10_mono(fr as nat, 30);
                lemma_pow10_pos((d1 - i) as nat);
                lemma_pow10_33();
                assert((a as nat + 1) * pow10(fr as nat) <= pow10((d1 - i) as nat) * pow10(
                    fr as nat,
                )) by (nonlinear_arith)
                    requires
                        (a as nat) + 1 <= pow10((d1 - i) as nat),
                        pow10(fr as nat) >= 1,
                ;
                assert(a as nat * pow10(fr as nat) + pow10(fr as nat) == (a as nat + 1) * pow10(
                    fr as nat,
                )) by (nonlinear_arith);
            }
            let m = a * p + b;
            apply_exp_exec(v, d2, neg, m, fr, digits)
        } else {
            None
        }
    } else {
        if d1 > i && d1 - i <= 30 {
            let m = digits_val_exec(v, i, d1);
            proof {
                lemma_digits_val_bound(v@, i as nat, d1 as nat);
            }
            apply_exp_exec(v, d1, neg, m, 0, d1 - i)
        } else {
            None
        }
    }
}

fn parse_exp_exec(v: &Vec<char>, p: usize) -> (r: Option<(bool, usize)>)
    requires
        p <= v.len(),
    ensures
        match r {
            None => parse_exp(v@, p as nat) is None,
            Some(t) => parse_exp(v@, p as nat) == Some((t.0, t.1 as nat)) && t.1 <= 99,
        },
{
    if p == v.len() {
        return Some((false, 0));
    }
    if v[p] == 'e' || v[p] == 'E' {
        let q: usize = if p + 1 < v.len() && (v[p + 1] == '+' || v[p + 1] == '-') {
            p + 2
        } else {
            p + 1
        };
        let eneg = p + 1 < v.len() && v[p + 1] == '-';
        proof {
            lemma_digits_end_digits(v@, q as nat);
        }
        let d = digits_end_exec(v, q);
        if d == v.len() && q < v.len() && v.len() - q <= 2 {
            let e = digits_val_exec(v, q, v.len());
            proof {
                lemma_digits_val_bound(v@, q as nat, v@.len() as nat);
                reveal_with_fuel(pow10, 3);
                assert(pow10(2) == 100);
                lemma_pow10_mono((v@.len() - q) as nat, 2);
            }
            Some((eneg, e as usize))
        } else {
            None
        }
    } else {
        None
    }
}

fn apply_exp_exec(v: &Vec<char>, p: usize, neg: bool, m: u128, scale: usize, digits: usize) -> (r:
    Option<(bool, u128, usize)>)
    requires
        p <= v.len(),
        scale <= 30,
        digits <= 30,
        (m as nat) < pow10(digits as nat),
    ensures
        match r {
            None => apply_exp(v@, p as nat, neg, m as nat, scale as nat, digits as nat) is None,
            Some(t) => apply_exp(v@, p as nat, neg, m as nat, scale as nat, digits as nat) == Some(
                (t.0, t.1 as nat, t.2 as nat),
            ) && (t.1 as nat) < pow10(30) && t.2 <= 30,
        },
{
    match parse_exp_exec(v, p) {
        None => None,
        Some((eneg, e)) => {
            proof {
                lemma_pow10_mono(digits as nat, 30);
            }
            if eneg {
                if scale + e <= 30 {
                    Some((neg, m, scale + e))
                } else {
                    None
                }
            } else if e <= scale {
                Some((neg, m, scale - e))
            } else {
                let shift = e - scale;
                if digits + shift <= 30 {
                    let pw = pow10_exec(shift);
                    proof {
                        lemma_pow10_add(digits as nat, shift as nat);
                        lemma_pow10_mono((digits + shift) as nat, 30);
                        lemma_pow10_pos(shift as nat);
                        lemma_pow10_33();
                        assert((m as nat) * pow10(shift as nat) < pow10(digits as nat) * pow10(
                            shift as nat,
                        )) by (nonlinear_arith)
                            requires
                                (m as nat) < pow10(digits as nat),
                                pow10(shift as nat) >= 1,
                        ;
                    }
                    Some((neg, m * pw, 0))
                } else {
                    None
                }
            }
        },
    }
}

fn digits_end_exec(v: &Vec<char>, i: usize) -> (r: usize)
    requires
        i <= v.len(),
    ensures
        r as nat == digits_end(v@, i as nat),
        i <= r <= v.len(),
{
    let mut j: usize = i;
    loop
        invariant_except_break
            i <= j <= v.len(),
            digits_end(v@, i as nat) == digits_end(v@, j as nat),
        ensures
            i <= j <= v.len(),
            j as nat == digits_end(v@, i as nat),
        decreases v.len() - j,
    {
        if j >= v.len() {
            break ;
        }
        let n = v[j] as u32;
        if !(48 <= n && n <= 57) {
            break ;
        }
        j = j + 1;
    }
    j
}

/// A run of `k` zero characters.
pub open spec fn zeros(k: nat) -> Seq<char>
    decreases k,
{
    if k == 0 {
        Seq::empty()
    } else {
        zeros((k - 1) as nat).push('0')
    }
}

/// The digits with every trailing zero dropped.
pub open spec fn strip_zeros(s: Seq<char>) -> Seq<char>
    decreases s.len(),
{
    if s.len() > 0 && s.last() == '0' {
        strip_zeros(s.drop_last())
    } else {
        s
    }
}

proof fn lemma_zeros_len(k: nat)
    ensures
        zeros(k).len() == k,
    decreases k,
{
    if k > 0 {
        lemma_zeros_len((k - 1) as nat);
    }
}

/// The decimal rendering of `m` with `scale` digits after the point, the
/// point and trailing fraction zeros dropped when they carry nothing.
pub open spec fn fmt_fixed(m: nat, scale: nat) -> Seq<char> {
    let ds = dec_rep(m);
    let padded = if ds.len() >= scale + 1 {
        ds
    } else {
        zeros((scale + 1 - ds.len()) as nat) + ds
    };
    let ip = padded.take(padded.len() - scale);
    let fp = strip_zeros(padded.skip(padded.len() - scale));
    if fp.len() == 0 {
        ip
    } else {
        ip + seq!['.'] + fp
    }
}

fn fmt_fixed_exec(m: u128, scale: usize) -> (r: Vec<char>)
    requires
        scale <= 40,
    ensures
        r@ == fmt_fixed(m as nat, scale as nat),
{
    let mut ds: Vec<char> = Vec::new();
    push_dec(&mut ds, m);
    proof {
        lemma_dec_rep_len(m as nat);
    }
    let padded: Vec<char> = if ds.len() >= scale + 1 {
        ds
    } else {
        let mut p: Vec<char> = Vec::new();
        let pad = scale + 1 - ds.len();
        let mut t: usize = 0;
        while t < pad
            invariant
                t <= pad,
                p@ == zeros(t as nat),
            decreases pad - t,
        {
            p.push('0');
            t = t + 1;
        }
        proof {
            lemma_zeros_len(pad as nat);
        }
        append_vec(&mut p, &ds);
        p
    };
    proof {
        lemma_zeros_len((scale + 1 - dec_rep(m as nat).len()) as nat);
    }
    assert(padded@.len() >= scale + 1);
    let cut = padded.len() - scale;
    let ip = copy_range(&padded, 0, cut);
    let fp = copy_range(&padded, cut, padded.len());
    let mut n: usize = fp.len();
    proof {
        assert(fp@.take(fp.len() as int) =~= fp@);
    }
    loop
        invariant_except_break
            n <= fp.len(),
            strip_zeros(fp@) == strip_zeros(fp@.take(n as int)),
        ensures
            n <= fp.len(),
            strip_zeros(fp@) == fp@.take(n as int),
        decreases n,
    {
        if n == 0 {
            assert(strip_zeros(fp@.take(n as int)) == fp@.take(n as int));
            break ;
        }
        if fp[n - 1] != '0' {
            assert(strip_zeros(fp@.take(n as int)) == fp@.take(n as int));
            break ;
        }
        proof {
            assert(fp@.take(n as int).drop_last() =~= fp@.take(n as int - 1));
        }
        n = n - 1;
    }
    if n == 0 {
        assert(ip@ =~= fmt_fixed(m as nat, scale as nat));
        ip
    } else {
        let mut out = ip;
        out.push('.');
        append_range(&mut out, &fp, 0, n);
        assert(out@ =~= fmt_fixed(m as nat, scale as nat));
        out
    }
}

/// The print font size for a pixel font size: the numeric value scaled by
/// exactly 3/4 and rendered as a plain decimal.  Signed decimals with an
/// exponent of up to two digits are handled exactly; a non-finite value, or
/// one whose digits would exceed thirty, falls back to the default, 10.5
/// points (a float parse would scale such extremes instead).
pub open spec fn pt_of_px(s: Seq<char>) -> Seq<char> {
    match parse_dec(strip_px(s)) {
        Some((neg, m, scale)) => (if neg {
            seq!['-']
        } else {
            Seq::<char>::empty()
        }) + fmt_fixed(m * 75, (scale + 2) as nat),
        None => "10.5"@,
    }
}

fn pt_of_px_exec(v: &Vec<char>) -> (r: Vec<char>)
    ensures
        r@ == pt_of_px(v@),
{
    let stripped = strip_px_exec(v);
    match parse_dec_exec(&stripped) {
        None => to_chars("10.5"),
        Some((neg, m, scale)) => {
            proof {
                lemma_pow10_33();
                assert(m as nat * 75 < pow10(30) * 75) by (nonlinear_arith)
                    requires (m as nat) < pow10(30),
                ;
            }
            let f = fmt_fixed_exec(m * 75, scale + 2);
            let mut out: Vec<char> = Vec::new();
            if neg {
                out.push('-');
            }
            append_vec(&mut out, &f);
            assert(out@ =~= pt_of_px(v@));
            out
        },
    }
}

// ───────────────────────── the stylesheet ─────────────────────────

/// The stylesheet text for the given options: the presets resolved to
/// concrete values and interpolated into the fixed template, with the print
/// font size derived from the screen font size.
pub open spec fn get_css_styles_spec(o: StyleOptions) -> Seq<char> {
    let font_size = font_size_px_spec(o.font_size@);
    let font_family = chinese_font_family_spec(o.chinese_font@);
    let font_weight_val = font_weight_value_spec(o.font_weight@);
    let line_spacing_val = line_spacing_value_spec(o.line_spacing@);
    let para_spacing_val = paragraph_spacing_value_spec(o.paragraph_spacing@);
    let math_spacing_val = math_spacing_value_spec(o.math_spacing@);
    let pt_size = pt_of_px(font_size) + "pt"@;
    "\n        /* 基础样式 */\n        body {\n            font-family: "@
        + font_family
        + ";\n            font-weight: "@
        + font_weight_val
        + ";\n            line-height: "@
        + line_spacing_val
        + ";\n            max-width: 800px;\n            margin: 0 auto;\n            padding: 20px;\n            color: #333;\n            background-color: #fff;\n            font-size: "@
        + font_size
        + ";\n        }\n\n        /* 段落间距 */\n        p {\n            margin-top: 0;\n            margin-bottom: "@
        + para_spacing_val
        + ";\n        }\n\n        /* 列表项间距 */\n        li {\n            margin-bottom: calc("@
        + para_spacing_val
        + " * 0.5);\n        }\n\n        /* 数学公式样式 */\n        .math-block {\n            margin: "@
        + math_spacing_val
        + " 0;\n            text-align: center;\n            overflow-x: auto;\n        }\n\n        .math-inline {\n            display: inline;\n        }\n\n        /* 代码样式 */\n        pre {\n            background-color: #f6f8fa;\n            border: 1px solid #e1e4e8;\n            border-radius: 6px;\n            padding: 16px;\n            overflow-x: auto;\n            font-family: 'SFMono-Regular', Consolas, 'Liberation Mono', Menlo, monospace;\n            font-size: 14px;\n            line-height: 1.45;\n        }\n\n        code {\n            background-color: rgba(175, 184, 193, 0.2);\n            border-radius: 6px;\n            padding: 2px 4px;\n            font-family: 'SFMono-Regular', Consolas, 'Liberation Mono', Menlo, monospace;\n            font-size: 85%;\n        }\n\n        pre code {\n            background-color: transparent;\n            border-radius: 0;\n            padding: 0;\n            font-size: 100%;\n        }\n\n        /* 表格样式 */\n        table {\n            border-collapse: collapse;\n            margin: 25px 0;\n            font-size: 0.9em;\n            min-width: 400px;\n            border-radius: 5px 5px 0 0;\n            overflow: hidden;\n            box-shadow: 0 0 20px rgba(0, 0, 0, 0.15);\n        }\n\n        table thead tr {\n            background-color: #009879;\n            color: #ffffff;\n            text-align: left;\n        }\n\n        table th,\n        table td {\n            padding: 12px 15px;\n            border: 1px solid #dddddd;\n        }\n\n        table tbody tr {\n            border-bottom: 1px solid #dddddd;\n        }\n\n        table tbody tr:nth-of-type(even) {\n            background-color: #f3f3f3;\n        }\n\n        /* 引用样式 */\n        blockquote {\n            border-left: 4px solid #dfe2e5;\n            padding: 0 16px;\n            color: #6a737d;\n            background-color: #f6f8fa;\n            margin: "@
        + para_spacing_val
        + " 0;\n            line-height: "@
        + line_spacing_val
        + ";\n        }\n\n        /* 标题样式 */\n        h1, h2, h3, h4, h5, h6 {\n            margin-top: calc("@
        + para_spacing_val
        + " * 1.5);\n            margin-bottom: "@
        + para_spacing_val
        + ";\n            font-weight: 600;\n            line-height: "@
        + line_spacing_val
        + ";\n        }\n\n        h1 {\n            font-size: 2em;\n            border-bottom: 1px solid #eaecef;\n            padding-bottom: 0.3em;\n        }\n\n        h2 {\n            font-size: 1.5em;\n            border-bottom: 1px solid #eaecef;\n            padding-bottom: 0.3em;\n        }\n\n        /* 链接样式 */\n        a {\n            color: #0366d6;\n            text-decoration: none;\n        }\n\n        a:hover {\n            text-decoration: underline;\n        }\n\n        /* 打印样式 */\n        @media print {\n            body {\n                max-width: none;\n                margin: 0;\n                padding: 15mm;\n                font-size: "@
        + pt_size
        + ";\n            }\n\n            .math-block {\n                page-break-inside: avoid;\n            }\n\n            pre {\n                page-break-inside: avoid;\n                white-space: pre-wrap;\n            }\n\n            table {\n                page-break-inside: avoid;\n            }\n\n            h1, h2, h3, h4, h5, h6 {\n                page-break-after: avoid;\n            }\n        }\n"@
}

/// Builds the CSS block for the style options.
pub fn get_css_styles(opts: &StyleOptions) -> (r: String)
    ensures
        r@ == get_css_styles_spec(*opts),
{
    let font_size = font_size_px(opts.font_size.as_str());
    let font_family = chinese_font_family(opts.chinese_font.as_str());
    let font_weight_val = font_weight_value(opts.font_weight.as_str());
    let line_spacing_val = line_spacing_value(opts.line_spacing.as_str());
    let para_spacing_val = paragraph_spacing_value(opts.paragraph_spacing.as_str());
    let math_spacing_val = math_spacing_value(opts.math_spacing.as_str());
    let fsv = to_chars(font_size);
    let ptv = pt_of_px_exec(&fsv);
    let mut pt_size = chars_to_string(&ptv);
    pt_size.append("pt");
    let mut out = String::new();
    out.append("\n        /* 基础样式 */\n        body {\n            font-family: ");
    out.append(font_family);
    out.append(";\n            font-weight: ");
    out.append(font_weight_val);
    out.append(";\n            line-height: ");
    out.append(line_spacing_val);
    out.append(";\n            max-width: 800px;\n            margin: 0 auto;\n            padding: 20px;\n            color: #333;\n            background-color: #fff;\n            font-size: ");
    out.append(font_size);
    out.append(";\n        }\n\n        /* 段落间距 */\n        p {\n            margin-top: 0;\n            margin-bottom: ");
    out.append(para_spacing_val);
    out.append(";\n        }\n\n        /* 列表项间距 */\n        li {\n            margin-bottom: calc(");
    out.append(para_spacing_val);
    out.append(" * 0.5);\n        }\n\n        /* 数学公式样式 */\n        .math-block {\n            margin: ");
    out.append(math_spacing_val);
    out.append(" 0;\n            text-align: center;\n            overflow-x: auto;\n        }\n\n        .math-inline {\n            display: inline;\n        }\n\n        /* 代码样式 */\n        pre {\n            background-color: #f6f8fa;\n            border: 1px solid #e1e4e8;\n            border-radius: 6px;\n            padding: 16px;\n            overflow-x: auto;\n            font-family: 'SFMono-Regular', Consolas, 'Liberation Mono', Menlo, monospace;\n            font-size: 14px;\n            line-height: 1.45;\n        }\n\n        code {\n            background-color: rgba(175, 184, 193, 0.2);\n            border-radius: 6px;\n            padding: 2px 4px;\n            font-family: 'SFMono-Regular', Consolas, 'Liberation Mono', Menlo, monospace;\n            font-size: 85%;\n        }\n\n        pre code {\n            background-color: transparent;\n            border-radius: 0;\n            padding: 0;\n            font-size: 100%;\n        }\n\n        /* 表格样式 */\n        table {\n            border-collapse: collapse;\n            margin: 25px 0;\n            font-size: 0.9em;\n            min-width: 400px;\n            border-radius: 5px 5px 0 0;\n            overflow: hidden;\n            box-shadow: 0 0 20px rgba(0, 0, 0, 0.15);\n        }\n\n        table thead tr {\n            background-color: #009879;\n            color: #ffffff;\n            text-align: left;\n        }\n\n        table th,\n        table td {\n            padding: 12px 15px;\n            border: 1px solid #dddddd;\n        }\n\n        table tbody tr {\n            border-bottom: 1px solid #dddddd;\n        }\n\n        table tbody tr:nth-of-type(even) {\n            background-color: #f3f3f3;\n        }\n\n        /* 引用样式 */\n        blockquote {\n            border-left: 4px solid #dfe2e5;\n            padding: 0 16px;\n            color: #6a737d;\n            background-color: #f6f8fa;\n            margin: ");
    out.append(para_spacing_val);
    out.append(" 0;\n            line-height: ");
    out.append(line_spacing_val);
    out.append(";\n        }\n\n        /* 标题样式 */\n        h1, h2, h3, h4, h5, h6 {\n            margin-top: calc(");
    out.append(para_spacing_val);
    out.append(" * 1.5);\n            margin-bottom: ");
    out.append(para_spacing_val);
    out.append(";\n            font-weight: 600;\n            line-height: ");
    out.append(line_spacing_val);
    out.append(";\n        }\n\n        h1 {\n            font-size: 2em;\n            border-bottom: 1px solid #eaecef;\n            padding-bottom: 0.3em;\n        }\n\n        h2 {\n            font-size: 1.5em;\n            border-bottom: 1px solid #eaecef;\n            padding-bottom: 0.3em;\n        }\n\n        /* 链接样式 */\n        a {\n            color: #0366d6;\n            text-decoration: none;\n        }\n\n        a:hover {\n            text-decoration: underline;\n        }\n\n        /* 打印样式 */\n        @media print {\n            body {\n                max-width: none;\n                margin: 0;\n                padding: 15mm;\n                font-size: ");
    out.append(pt_size.as_str());
    out.append(";\n            }\n\n            .math-block {\n                page-break-inside: avoid;\n            }\n\n            pre {\n                page-break-inside: avoid;\n                white-space: pre-wrap;\n            }\n\n            table {\n                page-break-inside: avoid;\n            }\n\n            h1, h2, h3, h4, h5, h6 {\n                page-break-after: avoid;\n            }\n        }\n");
    out
}

// ───────────────────────── the document ─────────────────────────

/// The full HTML document around a rendered fragment: title, inlined
/// stylesheet and typesetter scripts, the fragment, and the on-load hook that
/// typesets the math and then plants the completion sentinel.
pub open spec fn generate_html_document_spec(
    content: Seq<char>,
    title: Seq<char>,
    katex_css: Seq<char>,
    katex_js: Seq<char>,
    katex_auto_render_js: Seq<char>,
    o: StyleOptions,
) -> Seq<char> {
    let css = get_css_styles_spec(o);
    "<!DOCTYPE html>\n<html lang=\"en\">\n<head>\n    <meta charset=\"UTF-8\">\n    <meta name=\"viewport\" content=\"width=device-width, initial-scale=1.0\">\n    <title>"@
        + title
        + "</title>\n    <style>\n        "@
        + katex_css
        + "\n        "@
        + css
        + "\n    </style>\n    <!-- Local KaTeX JavaScript Library (inlined) -->\n    <script>\n    "@
        + katex_js
        + "\n    </script>\n    <!-- Local KaTeX Auto-render Extension (inlined) -->\n    <script>\n    "@
        + katex_auto_render_js
        + "\n    </script>\n</head>\n<body>\n        "@
        + content
        + "\n    <script>\n    // KaTeX auto-render — applied after DOM is ready\n    document.addEventListener(\"DOMContentLoaded\", function() {\n        try {\n            if (typeof renderMathInElement !== 'undefined') {\n                renderMathInElement(document.body, {\n                    delimiters: [\n                        {left: '$$', right: '$$', display: true},\n                        {left: '$', right: '$', display: false},\n                        {left: '\\\\\\\\(', right: '\\\\\\\\)', display: false},\n                        {left: '\\\\\\\\[', right: '\\\\\\\\]', display: true}\n                    ],\n                    throwOnError: false\n                });\n            }\n        } finally {\n            // 写入哨兵元素，通知 Rust 端公式渲染已结束\n            var done = document.createElement(\"div\");\n            done.id = \"render-complete\";\n            done.style.display = \"none\";\n            document.body.appendChild(done);\n        }\n    });\n    </script>\n</body>\n</html>"@
}

/// Builds the full HTML document.
pub fn generate_html_document(
    content: &str,
    title: &str,
    katex_css: &str,
    katex_js: &str,
    katex_auto_render_js: &str,
    style_opts: &StyleOptions,
) -> (r: String)
    ensures
        r@ == generate_html_document_spec(
            content@,
            title@,
            katex_css@,
            katex_js@,
            katex_auto_render_js@,
            *style_opts,
        ),
{
    let css = get_css_styles(style_opts);
    let mut out = String::new();
    out.append("<!DOCTYPE html>\n<html lang=\"en\">\n<head>\n    <meta charset=\"UTF-8\">\n    <meta name=\"viewport\" content=\"width=device-width, initial-scale=1.0\">\n    <title>");
    out.append(title);
    out.append("</title>\n    <style>\n        ");
    out.append(katex_css);
    out.append("\n        ");
    out.append(css.as_str());
    out.append("\n    </style>\n    <!-- Local KaTeX JavaScript Library (inlined) -->\n    <script>\n    ");
    out.append(katex_js);
    out.append("\n    </script>\n    <!-- Local KaTeX Auto-render Extension (inlined) -->\n    <script>\n    ");
    out.append(katex_auto_render_js);
    out.append("\n    </script>\n</head>\n<body>\n        ");
    out.append(content);
    out.append("\n    <script>\n    // KaTeX auto-render — applied after DOM is ready\n    document.addEventListener(\"DOMContentLoaded\", function() {\n        try {\n            if (typeof renderMathInElement !== 'undefined') {\n                renderMathInElement(document.body, {\n                    delimiters: [\n                        {left: '$$', right: '$$', display: true},\n                        {left: '$', right: '$', display: false},\n                        {left: '\\\\\\\\(', right: '\\\\\\\\)', display: false},\n                        {left: '\\\\\\\\[', right: '\\\\\\\\]', display: true}\n                    ],\n                    throwOnError: false\n                });\n            }\n        } finally {\n            // 写入哨兵元素，通知 Rust 端公式渲染已结束\n            var done = document.createElement(\"div\");\n            done.id = \"render-complete\";\n            done.style.display = \"none\";\n            document.body.appendChild(done);\n        }\n    });\n    </script>\n</body>\n</html>");
    out
}

} // verus!
