//! Style presets and option normalization: named font, weight and spacing
//! presets mapped to concrete CSS values, and the rule that appends a default
//! unit to a bare numeric option value.

use crate::textops::{str_eq, to_chars, trim_spec, trim_vec, chars_to_string};
use vstd::prelude::*;
use vstd::string::StringExecFns;

verus! {

// ───────────────────────── presets ─────────────────────────

pub open spec fn font_size_px_spec(s: Seq<char>) -> Seq<char> {
    if s == "small"@ {
        "12px"@
    } else if s == "medium"@ {
        "14px"@
    } else if s == "large"@ {
        "16px"@
    } else if s == "xlarge"@ {
        "18px"@
    } else {
        s
    }
}

/// Font-size presets mapped to concrete pixel values; any other value passes
/// through unchanged.
pub fn font_size_px<'a>(s: &'a str) -> (r: &'a str)
    ensures
        r@ == font_size_px_spec(s@),
{
    if str_eq(s, "small") {
        "12px"
    } else if str_eq(s, "medium") {
        "14px"
    } else if str_eq(s, "large") {
        "16px"
    } else if str_eq(s, "xlarge") {
        "18px"
    } else {
        s
    }
}

pub open spec fn font_weight_value_spec(s: Seq<char>) -> Seq<char> {
    if s == "light"@ {
        "300"@
    } else if s == "normal"@ {
        "400"@
    } else if s == "medium"@ {
        "500"@
    } else if s == "semibold"@ {
        "600"@
    } else if s == "bold"@ {
        "700"@
    } else if s == "black"@ {
        "900"@
    } else {
        s
    }
}

/// Font-weight presets mapped to numeric values; any other value passes
/// through unchanged.
pub fn font_weight_value<'a>(s: &'a str) -> (r: &'a str)
    ensures
        r@ == font_weight_value_spec(s@),
{
    if str_eq(s, "light") {
        "300"
    } else if str_eq(s, "normal") {
        "400"
    } else if str_eq(s, "medium") {
        "500"
    } else if str_eq(s, "semibold") {
        "600"
    } else if str_eq(s, "bold") {
        "700"
    } else if str_eq(s, "black") {
        "900"
    } else {
        s
    }
}

pub open spec fn chinese_font_family_spec(s: Seq<char>) -> Seq<char> {
    if s == "simsun"@ {
        "SimSun, \"宋体\", serif"@
    } else if s == "simhei"@ {
        "SimHei, \"黑体\", sans-serif"@
    } else if s == "simkai"@ {
        "KaiTi, \"楷体\", \"STKaiti\", serif"@
    } else if s == "fangsong"@ {
        "FangSong, \"仿宋\", \"STFangsong\", serif"@
    } else if s == "yahei"@ {
        "\"Microsoft YaHei\", \"微软雅黑\", sans-serif"@
    } else {
        "-apple-system, BlinkMacSystemFont, \"Segoe UI\", Roboto, \"Microsoft YaHei\", \"微软雅黑\", \"SimSun\", \"宋体\", sans-serif"@
    }
}

/// Chinese-font presets mapped to a CSS font-family list; anything else gets
/// the automatic stack.
pub fn chinese_font_family<'a>(s: &'a str) -> (r: &'a str)
    ensures
        r@ == chinese_font_family_spec(s@),
{
    if str_eq(s, "simsun") {
        "SimSun, \"宋体\", serif"
    } else if str_eq(s, "simhei") {
        "SimHei, \"黑体\", sans-serif"
    } else if str_eq(s, "simkai") {
        "KaiTi, \"楷体\", \"STKaiti\", serif"
    } else if str_eq(s, "fangsong") {
        "FangSong, \"仿宋\", \"STFangsong\", serif"
    } else if str_eq(s, "yahei") {
        "\"Microsoft YaHei\", \"微软雅黑\", sans-serif"
    } else {
        "-apple-system, BlinkMacSystemFont, \"Segoe UI\", Roboto, \"Microsoft YaHei\", \"微软雅黑\", \"SimSun\", \"宋体\", sans-serif"
    }
}

pub open spec fn line_spacing_value_spec(s: Seq<char>) -> Seq<char> {
    if s == "tight"@ {
        "1.2"@
    } else if s == "normal"@ {
        "1.6"@
    } else if s == "loose"@ {
        "2.0"@
    } else if s == "relaxed"@ {
        "2.4"@
    } else {
        s
    }
}

/// Line-spacing presets mapped to CSS line-height values.
pub fn line_spacing_value<'a>(s: &'a str) -> (r: &'a str)
    ensures
        r@ == line_spacing_value_spec(s@),
{
    if str_eq(s, "tight") {
        "1.2"
    } else if str_eq(s, "normal") {
        "1.6"
    } else if str_eq(s, "loose") {
        "2.0"
    } else if str_eq(s, "relaxed") {
        "2.4"
    } else {
        s
    }
}

pub open spec fn paragraph_spacing_value_spec(s: Seq<char>) -> Seq<char> {
    if s == "tight"@ {
        "0.5em"@
    } else if s == "normal"@ {
        "1em"@
    } else if s == "loose"@ {
        "1.5em"@
    } else if s == "relaxed"@ {
        "2em"@
    } else {
        s
    }
}

/// Paragraph-spacing presets mapped to CSS margin values.
pub fn paragraph_spacing_value<'a>(s: &'a str) -> (r: &'a str)
    ensures
        r@ == paragraph_spacing_value_spec(s@),
{
    if str_eq(s, "tight") {
        "0.5em"
    } else if str_eq(s, "normal") {
        "1em"
    } else if str_eq(s, "loose") {
        "1.5em"
    } else if str_eq(s, "relaxed") {
        "2em"
    } else {
        s
    }
}

pub open spec fn math_spacing_value_spec(s: Seq<char>) -> Seq<char> {
    if s == "tight"@ {
        "10px"@
    } else if s == "normal"@ {
        "20px"@
    } else if s == "loose"@ {
        "30px"@
    } else if s == "relaxed"@ {
        "40px"@
    } else {
        s
    }
}

/// Math-block-spacing presets mapped to CSS margin values.
pub fn math_spacing_value<'a>(s: &'a str) -> (r: &'a str)
    ensures
        r@ == math_spacing_value_spec(s@),
{
    if str_eq(s, "tight") {
        "10px"
    } else if str_eq(s, "normal") {
        "20px"
    } else if str_eq(s, "loose") {
        "30px"
    } else if str_eq(s, "relaxed") {
        "40px"
    } else {
        s
    }
}

// ───────────────────────── numeric values ─────────────────────────

pub open spec fn is_digit(c: char) -> bool {
    48 <= c as u32 && c as u32 <= 57
}

/// End of the run of decimal digits starting at `i`.
pub open spec fn digits_end(s: Seq<char>, i: nat) -> nat
    decreases s.len() - i,
{
    if i >= s.len() {
        i
    } else if is_digit(s[i as int]) {
        digits_end(s, i + 1)
    } else {
        i
    }
}

pub proof fn lemma_digits_end(s: Seq<char>, i: nat)
    requires
        i <= s.len(),
    ensures
        i <= digits_end(s, i) <= s.len(),
    decreases s.len() - i,
{
    if i < s.len() && is_digit(s[i as int]) {
        lemma_digits_end(s, i + 1);
    }
}

/// ASCII lowercasing of the letters that the float keywords use.
pub open spec fn lc(c: char) -> char {
    if c == 'I' {
        'i'
    } else if c == 'N' {
        'n'
    } else if c == 'F' {
        'f'
    } else if c == 'A' {
        'a'
    } else if c == 'T' {
        't'
    } else if c == 'Y' {
        'y'
    } else {
        c
    }
}

/// The rest of `s` from `i` equals `kw` up to ASCII case.
pub open spec fn kw_match(s: Seq<char>, i: nat, kw: Seq<char>) -> bool {
    s.len() == i + kw.len() && forall|k: int| 0 <= k < kw.len() ==> lc(s[i + k]) == kw[k]
}

/// An optional exponent part filling the rest of `s` from `i`.
pub open spec fn exp_ok(s: Seq<char>, i: nat) -> bool {
    if i == s.len() {
        true
    } else if i < s.len() && (s[i as int] == 'e' || s[i as int] == 'E') {
        let j: nat = if i + 1 < s.len() && (s[i as int + 1] == '+' || s[i as int + 1] == '-') {
            i + 2
        } else {
            i + 1
        };
        j < s.len() && digits_end(s, j) == s.len()
    } else {
        false
    }
}

/// A decimal number filling the rest of `s` from `i`: digits with an optional
/// point and an optional exponent, with at least one mantissa digit.
pub open spec fn is_number(s: Seq<char>, i: nat) -> bool {
    let d1 = digits_end(s, i);
    if d1 < s.len() && s[d1 as int] == '.' {
        let d2 = digits_end(s, d1 + 1);
        (d1 > i || d2 > d1 + 1) && exp_ok(s, d2)
    } else {
        d1 > i && exp_ok(s, d1)
    }
}

/// The strings accepted by `f64`'s `FromStr`: an optional sign, then `inf`,
/// `infinity` or `nan` (any ASCII case) or a decimal number with an optional
/// exponent.
pub open spec fn is_f64_literal(s: Seq<char>) -> bool {
    s.len() > 0 && {
        let i: nat = if s[0] == '+' || s[0] == '-' {
            1
        } else {
            0
        };
        ||| kw_match(s, i, seq!['i', 'n', 'f'])
        ||| kw_match(s, i, seq!['i', 'n', 'f', 'i', 'n', 'i', 't', 'y'])
        ||| kw_match(s, i, seq!['n', 'a', 'n'])
        ||| is_number(s, i)
    }
}

fn lc_exec(c: char) -> (r: char)
    ensures
        r == lc(c),
{
    if c == 'I' {
        'i'
    } else if c == 'N' {
        'n'
    } else if c == 'F' {
        'f'
    } else if c == 'A' {
        'a'
    } else if c == 'T' {
        't'
    } else if c == 'Y' {
        'y'
    } else {
        c
    }
}

fn digits_end_exec(v: &Vec<char>, i: usize) -> (r: usize)
    requires
        i <= v.len(),
    ensures
        r as nat == digits_end(v@, i as nat),
        i <= r <= v.len(),
{
    let mut j: usize = i;
    loop
        invariant_except_break
            i <= j <= v.len(),
            digits_end(v@, i as nat) == digits_end(v@, j as nat),
        ensures
            i <= j <= v.len(),
            j as nat == digits_end(v@, i as nat),
        decreases v.len() - j,
    {
        if j >= v.len() {
            break ;
        }
        let n = v[j] as u32;
        if !(48 <= n && n <= 57) {
            break ;
        }
        j = j + 1;
    }
    j
}

fn kw_match_exec(v: &Vec<char>, i: usize, kw: &Vec<char>) -> (r: bool)
    requires
        i <= v.len(),
    ensures
        r == kw_match(v@, i as nat, kw@),
{
    if v.len() - i != kw.len() {
        return false;
    }
    let mut k: usize = 0;
    while k < kw.len()
        invariant
            k <= kw.len(),
            i + kw.len() == v.len(),
            forall|t: int| 0 <= t < k ==> lc(v@[i + t]) == kw@[t],
        decreases kw.len() - k,
    {
        if lc_exec(v[i + k]) != kw[k] {
            return false;
        }
        k = k + 1;
    }
    true
}

fn exp_ok_exec(v: &Vec<char>, i: usize) -> (r: bool)
    requires
        i <= v.len(),
    ensures
        r == exp_ok(v@, i as nat),
{
    if i == v.len() {
        return true;
    }
    if v[i] == 'e' || v[i] == 'E' {
        let j: usize = if i + 1 < v.len() && (v[i + 1] == '+' || v[i + 1] == '-') {
            i + 2
        } else {
            i + 1
        };
        if j >= v.len() {
            return false;
        }
        let d = digits_end_exec(v, j);
        d == v.len()
    } else {
        false
    }
}

fn is_number_exec(v: &Vec<char>, i: usize) -> (r: bool)
    requires
        i <= v.len(),
    ensures
        r == is_number(v@, i as nat),
{
    let d1 = digits_end_exec(v, i);
    if d1 < v.len() && v[d1] == '.' {
        let d2 = digits_end_exec(v, d1 + 1);
        (d1 > i || d2 > d1 + 1) && exp_ok_exec(v, d2)
    } else {
        d1 > i && exp_ok_exec(v, d1)
    }
}

/// Does `v` hold a numeric value in `f64`'s string syntax?
pub fn is_f64_literal_exec(v: &Vec<char>) -> (r: bool)
    ensures
        r == is_f64_literal(v@),
{
    if v.len() == 0 {
        return false;
    }
    let i: usize = if v[0] == '+' || v[0] == '-' {
        1
    } else {
        0
    };
    let mut kw_inf: Vec<char> = Vec::new();
    kw_inf.push('i');
    kw_inf.push('n');
    kw_inf.push('f');
    assert(kw_inf@ =~= seq!['i', 'n', 'f']);
    let mut kw_infinity: Vec<char> = Vec::new();
    kw_infinity.push('i');
    kw_infinity.push('n');
    kw_infinity.push('f');
    kw_infinity.push('i');
    kw_infinity.push('n');
    kw_infinity.push('i');
    kw_infinity.push('t');
    kw_infinity.push('y');
    assert(kw_infinity@ =~= seq!['i', 'n', 'f', 'i', 'n', 'i', 't', 'y']);
    let mut kw_nan: Vec<char> = Vec::new();
    kw_nan.push('n');
    kw_nan.push('a');
    kw_nan.push('n');
    assert(kw_nan@ =~= seq!['n', 'a', 'n']);
    kw_match_exec(v, i, &kw_inf) || kw_match_exec(v, i, &kw_infinity) || kw_match_exec(
        v,
        i,
        &kw_nan,
    ) || is_number_exec(v, i)
}

/// The trimmed value, with `unit` appended when the value is numeric.
pub open spec fn normalize_with_unit_spec(value: Seq<char>, unit: Seq<char>) -> Seq<char> {
    let t = trim_spec(value);
    if is_f64_literal(t) {
        t + unit
    } else {
        t
    }
}

/// Normalizes a numeric-only option value by appending the default unit;
/// non-numeric values are only trimmed.
pub fn normalize_with_unit(value: &str, unit: &str) -> (r: String)
    ensures
        r@ == normalize_with_unit_spec(value@, unit@),
{
    let v = to_chars(value);
    let t = trim_vec(&v);
    let mut out = chars_to_string(&t);
    if is_f64_literal_exec(&t) {
        out.append(unit);
    }
    out
}

// ───────────────────────── style options ─────────────────────────

/// The six style knobs the CSS template consumes, as given on the command
/// line or already normalized.
#[derive(Debug, Clone)]
pub struct StyleOptions {
    pub font_size: String,
    pub chinese_font: String,
    pub font_weight: String,
    pub line_spacing: String,
    pub paragraph_spacing: String,
    pub math_spacing: String,
}

} // verus!
