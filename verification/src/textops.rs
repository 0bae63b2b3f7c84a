//! Character-level text operations shared by the scanner, the resynthesizer
//! and the style helpers: whitespace trimming, delimiter and substring search,
//! and first-occurrence / every-occurrence replacement, all specified over
//! `Seq<char>` views.

use vstd::prelude::*;
use vstd::string::StrSliceExecFns;

verus! {

// ───────────────────────── whitespace and trimming ─────────────────────────

/// The characters with the Unicode `White_Space` property; exactly the set
/// that `str::trim` strips from the ends of a string.
pub open spec fn is_ws(c: char) -> bool {
    let n = c as u32;
    n == 0x20 || (0x09 <= n && n <= 0x0D) || n == 0x85 || n == 0xA0 || n == 0x1680 || (0x2000
        <= n && n <= 0x200A) || n == 0x2028 || n == 0x2029 || n == 0x202F || n == 0x205F || n
        == 0x3000
}

pub fn char_is_ws(c: char) -> (r: bool)
    ensures
        r == is_ws(c),
{
    let n = c as u32;
    n == 0x20 || (0x09 <= n && n <= 0x0D) || n == 0x85 || n == 0xA0 || n == 0x1680 || (0x2000
        <= n && n <= 0x200A) || n == 0x2028 || n == 0x2029 || n == 0x202F || n == 0x205F || n
        == 0x3000
}

/// Index of the first character at or after `i` that is not whitespace
/// (`s.len()` if there is none).
pub open spec fn ws_prefix_end(s: Seq<char>, i: nat) -> nat
    decreases s.len() - i,
{
    if i >= s.len() {
        s.len()
    } else if is_ws(s[i as int]) {
        ws_prefix_end(s, i + 1)
    } else {
        i
    }
}

/// End (exclusive) of the text once trailing whitespace before `j` is
/// dropped: the largest `b <= j` such that `s[b - 1]` is not whitespace
/// (0 if all of `s[..j]` is whitespace).
pub open spec fn ws_suffix_start(s: Seq<char>, j: nat) -> nat
    decreases j,
{
    if j == 0 {
        0
    } else if is_ws(s[j - 1]) {
        ws_suffix_start(s, (j - 1) as nat)
    } else {
        j
    }
}

/// What `str::trim` leaves: `s` without leading and trailing whitespace.
pub open spec fn trim_spec(s: Seq<char>) -> Seq<char> {
    let a = ws_prefix_end(s, 0);
    if a == s.len() {
        Seq::empty()
    } else {
        s.subrange(a as int, ws_suffix_start(s, s.len()) as int)
    }
}

pub proof fn lemma_ws_prefix_end(s: Seq<char>, i: nat)
    requires
        i <= s.len(),
    ensures
        i <= ws_prefix_end(s, i) <= s.len(),
        ws_prefix_end(s, i) < s.len() ==> !is_ws(s[ws_prefix_end(s, i) as int]),
        forall|k: int| i <= k < ws_prefix_end(s, i) ==> is_ws(s[k]),
    decreases s.len() - i,
{
    if i < s.len() && is_ws(s[i as int]) {
        lemma_ws_prefix_end(s, i + 1);
    }
}

pub proof fn lemma_ws_suffix_start(s: Seq<char>, j: nat)
    requires
        j <= s.len(),
    ensures
        ws_suffix_start(s, j) <= j,
        ws_suffix_start(s, j) > 0 ==> !is_ws(s[ws_suffix_start(s, j) as int - 1]),
        forall|k: int| ws_suffix_start(s, j) <= k < j ==> is_ws(s[k]),
    decreases j,
{
    if j > 0 && is_ws(s[j - 1]) {
        lemma_ws_suffix_start(s, (j - 1) as nat);
    }
}

/// When some character is not whitespace, the trimmed bounds are ordered.
pub proof fn lemma_trim_bounds(s: Seq<char>)
    requires
        ws_prefix_end(s, 0) < s.len(),
    ensures
        ws_prefix_end(s, 0) < ws_suffix_start(s, s.len()) <= s.len(),
{
    let a = ws_prefix_end(s, 0);
    let b = ws_suffix_start(s, s.len());
    lemma_ws_prefix_end(s, 0);
    lemma_ws_suffix_start(s, s.len());
    if b <= a {
        assert(is_ws(s[a as int]));
    }
}

/// Trimming is idempotent: a trimmed text trims to itself.
pub proof fn lemma_trim_idempotent(s: Seq<char>)
    ensures
        trim_spec(trim_spec(s)) == trim_spec(s),
{
    let a = ws_prefix_end(s, 0);
    lemma_ws_prefix_end(s, 0);
    if a == s.len() {
        assert(trim_spec(s) =~= Seq::<char>::empty());
    } else {
        let b = ws_suffix_start(s, s.len());
        lemma_ws_suffix_start(s, s.len());
        lemma_trim_bounds(s);
        let t = trim_spec(s);
        assert(t[0] == s[a as int]);
        assert(t.last() == s[b - 1]);
        assert(ws_prefix_end(t, 0) == 0);
        assert(ws_suffix_start(t, t.len()) == t.len());
        assert(trim_spec(t) =~= t);
    }
}

// ───────────────────────────── searching ─────────────────────────────

/// First index `o >= from` where the two-character token `ab` occurs.
pub open spec fn find_pair(s: Seq<char>, from: nat, a: char, b: char) -> Option<nat>
    decreases s.len() - from,
{
    if from + 1 >= s.len() {
        None
    } else if s[from as int] == a && s[from as int + 1] == b {
        Some(from)
    } else {
        find_pair(s, from + 1, a, b)
    }
}

pub proof fn lemma_find_pair_some(s: Seq<char>, from: nat, a: char, b: char)
    requires
        find_pair(s, from, a, b) is Some,
    ensures
        ({
            let o = find_pair(s, from, a, b)->Some_0;
            from <= o && o + 1 < s.len() && s[o as int] == a && s[o as int + 1] == b
        }),
    decreases s.len() - from,
{
    if !(from + 1 >= s.len()) && !(s[from as int] == a && s[from as int + 1] == b) {
        lemma_find_pair_some(s, from + 1, a, b);
    }
}

pub fn find_pair_at(v: &Vec<char>, from: usize, a: char, b: char) -> (r: Option<usize>)
    ensures
        match r {
            Some(o) => find_pair(v@, from as nat, a, b) == Some(o as nat) && from <= o && o + 1
                < v.len(),
            None => find_pair(v@, from as nat, a, b) is None,
        },
{
    let mut i: usize = from;
    loop
        invariant
            from <= i,
            find_pair(v@, from as nat, a, b) == find_pair(v@, i as nat, a, b),
        decreases v.len() - i,
    {
        if i >= v.len() || i + 1 >= v.len() {
            return None;
        }
        if v[i] == a && v[i + 1] == b {
            return Some(i);
        }
        i = i + 1;
    }
}

/// What `find_pair` returns is the first occurrence: no earlier position
/// carries the token.
pub proof fn lemma_find_pair_first(s: Seq<char>, from: nat, a: char, b: char)
    requires
        find_pair(s, from, a, b) is Some,
    ensures
        forall|k: nat|
            from <= k < find_pair(s, from, a, b)->Some_0 ==> !(#[trigger] s[k as int] == a && s[
                k as int + 1] == b),
    decreases s.len() - from,
{
    if !(from + 1 >= s.len()) && !(s[from as int] == a && s[from as int + 1] == b) {
        lemma_find_pair_first(s, from + 1, a, b);
        lemma_find_pair_some(s, from + 1, a, b);
    }
}

/// First index `k >= from` where the character `c` occurs.
pub open spec fn find_char(s: Seq<char>, from: nat, c: char) -> Option<nat>
    decreases s.len() - from,
{
    if from >= s.len() {
        None
    } else if s[from as int] == c {
        Some(from)
    } else {
        find_char(s, from + 1, c)
    }
}

pub proof fn lemma_find_char_some(s: Seq<char>, from: nat, c: char)
    requires
        find_char(s, from, c) is Some,
    ensures
        ({
            let k = find_char(s, from, c)->Some_0;
            from <= k && k < s.len() && s[k as int] == c
        }),
    decreases s.len() - from,
{
    if !(from >= s.len()) && !(s[from as int] == c) {
        lemma_find_char_some(s, from + 1, c);
    }
}

pub fn find_char_at(v: &Vec<char>, from: usize, c: char) -> (r: Option<usize>)
    ensures
        match r {
            Some(k) => find_char(v@, from as nat, c) == Some(k as nat) && from <= k && k
                < v.len(),
            None => find_char(v@, from as nat, c) is None,
        },
{
    let mut i: usize = from;
    loop
        invariant
            from <= i,
            find_char(v@, from as nat, c) == find_char(v@, i as nat, c),
        decreases v.len() - i,
    {
        if i >= v.len() {
            return None;
        }
        if v[i] == c {
            return Some(i);
        }
        i = i + 1;
    }
}

/// First index `j >= from` where `pat` occurs as a contiguous substring.
/// An empty pattern matches immediately, as it does for `str::find`.
pub open spec fn find_sub(s: Seq<char>, pat: Seq<char>, from: nat) -> Option<nat>
    decreases s.len() - from,
{
    if pat.len() == 0 {
        if from <= s.len() {
            Some(from)
        } else {
            None
        }
    } else if from + pat.len() > s.len() {
        None
    } else if s.subrange(from as int, from as int + pat.len() as int) == pat {
        Some(from)
    } else {
        find_sub(s, pat, from + 1)
    }
}

pub proof fn lemma_find_sub_some(s: Seq<char>, pat: Seq<char>, from: nat)
    requires
        find_sub(s, pat, from) is Some,
    ensures
        ({
            let j = find_sub(s, pat, from)->Some_0;
            from <= j && j + pat.len() <= s.len() && s.subrange(
                j as int,
                j as int + pat.len() as int,
            ) == pat
        }),
    decreases s.len() - from,
{
    if pat.len() == 0 {
        assert(s.subrange(from as int, from as int) =~= pat);
    } else if !(from + pat.len() > s.len()) && !(s.subrange(
        from as int,
        from as int + pat.len() as int,
    ) == pat) {
        lemma_find_sub_some(s, pat, from + 1);
    }
}

/// Compares `v[j .. j + pat.len()]` with `pat`.
fn eq_range(v: &Vec<char>, pat: &Vec<char>, j: usize) -> (r: bool)
    requires
        j + pat.len() <= v.len(),
    ensures
        r == (v@.subrange(j as int, j as int + pat@.len() as int) == pat@),
{
    let mut k: usize = 0;
    while k < pat.len()
        invariant
            k <= pat.len(),
            j + pat.len() <= v.len(),
            forall|t: int| 0 <= t < k ==> v@[j + t] == pat@[t],
        decreases pat.len() - k,
    {
        if v[j + k] != pat[k] {
            assert(v@.subrange(j as int, j as int + pat@.len() as int)[k as int] != pat@[k as int]);
            return false;
        }
        k = k + 1;
    }
    assert(v@.subrange(j as int, j as int + pat@.len() as int) =~= pat@);
    true
}

pub fn find_sub_at(v: &Vec<char>, pat: &Vec<char>, from: usize) -> (r: Option<usize>)
    ensures
        match r {
            Some(j) => find_sub(v@, pat@, from as nat) == Some(j as nat) && from <= j && j
                + pat.len() <= v.len(),
            None => find_sub(v@, pat@, from as nat) is None,
        },
{
    if pat.len() == 0 {
        if from <= v.len() {
            return Some(from);
        } else {
            return None;
        }
    }
    let mut i: usize = from;
    loop
        invariant
            from <= i,
            pat.len() >= 1,
            find_sub(v@, pat@, from as nat) == find_sub(v@, pat@, i as nat),
        decreases v.len() - i,
    {
        if i > v.len() || pat.len() > v.len() - i {
            return None;
        }
        if eq_range(v, pat, i) {
            return Some(i);
        }
        i = i + 1;
    }
}

// ───────────────────────────── replacement ─────────────────────────────

/// `s` with the first occurrence of `pat` (if any) replaced by `repl`;
/// what `str::replacen(pat, repl, 1)` returns.
pub open spec fn replace_first_spec(s: Seq<char>, pat: Seq<char>, repl: Seq<char>) -> Seq<char> {
    match find_sub(s, pat, 0) {
        None => s,
        Some(j) => s.subrange(0, j as int) + repl + s.subrange(
            j as int + pat.len() as int,
            s.len() as int,
        ),
    }
}

/// `s` with every occurrence of `pat` replaced by `repl`, scanning left to
/// right and never rescanning a replacement; what `str::replace` returns.
/// An empty pattern leaves `s` unchanged.
pub open spec fn replace_all_from(s: Seq<char>, pat: Seq<char>, repl: Seq<char>, from: nat) -> Seq<
    char,
>
    decreases s.len() - from,
{
    if pat.len() == 0 {
        s.subrange(from as int, s.len() as int)
    } else {
        match find_sub(s, pat, from) {
            None => if from <= s.len() {
                s.subrange(from as int, s.len() as int)
            } else {
                Seq::empty()
            },
            Some(j) => {
                proof {
                    lemma_find_sub_some(s, pat, from);
                }
                s.subrange(from as int, j as int) + repl + replace_all_from(
                    s,
                    pat,
                    repl,
                    j + pat.len(),
                )
            },
        }
    }
}

pub open spec fn replace_all_spec(s: Seq<char>, pat: Seq<char>, repl: Seq<char>) -> Seq<char> {
    replace_all_from(s, pat, repl, 0)
}

/// First-occurrence replacement on character vectors.
pub fn replace_first_vec(v: &Vec<char>, pat: &Vec<char>, repl: &Vec<char>) -> (r: Vec<char>)
    ensures
        r@ == replace_first_spec(v@, pat@, repl@),
{
    match find_sub_at(v, pat, 0) {
        None => {
            let mut out: Vec<char> = Vec::new();
            append_range(&mut out, v, 0, v.len());
            assert(out@ =~= replace_first_spec(v@, pat@, repl@));
            out
        },
        Some(j) => {
            let mut out: Vec<char> = Vec::new();
            append_range(&mut out, v, 0, j);
            append_vec(&mut out, repl);
            append_range(&mut out, v, j + pat.len(), v.len());
            assert(out@ =~= replace_first_spec(v@, pat@, repl@));
            out
        },
    }
}

/// Every-occurrence replacement on character vectors.
pub fn replace_all_vec(v: &Vec<char>, pat: &Vec<char>, repl: &Vec<char>) -> (r: Vec<char>)
    requires
        pat@.len() > 0,
    ensures
        r@ == replace_all_spec(v@, pat@, repl@),
{
    let mut out: Vec<char> = Vec::new();
    let mut i: usize = 0;
    loop
        invariant
            pat@.len() > 0,
            i <= v.len(),
            replace_all_from(v@, pat@, repl@, 0) == out@ + replace_all_from(
                v@,
                pat@,
                repl@,
                i as nat,
            ),
        decreases v.len() - i,
    {
        match find_sub_at(v, pat, i) {
            None => {
                append_range(&mut out, v, i, v.len());
                assert(out@ =~= replace_all_from(v@, pat@, repl@, 0));
                return out;
            },
            Some(j) => {
                append_range(&mut out, v, i, j);
                append_vec(&mut out, repl);
                proof {
                    assert(out@ + replace_all_from(v@, pat@, repl@, (j + pat@.len()) as nat)
                        =~= replace_all_from(v@, pat@, repl@, 0));
                }
                i = j + pat.len();
            },
        }
    }
}

// ───────────────────────── string conversions ─────────────────────────

/// Relies on `str::chars`: collecting the iterator yields exactly the
/// character sequence that the string's view denotes.
#[verifier::external_body]
pub fn to_chars(s: &str) -> (r: Vec<char>)
    ensures
        r@ == s@,
{
    s.chars().collect()
}

/// Relies on `String`'s `FromIterator` impl (via `Iterator::collect`): the
/// built string's characters are exactly `v`.
#[verifier::external_body]
pub fn chars_to_string(v: &Vec<char>) -> (r: String)
    ensures
        r@ == v@,
{
    v.iter().collect()
}

/// Character-wise string equality.
pub fn str_eq(a: &str, b: &str) -> (r: bool)
    ensures
        r == (a@ == b@),
{
    let na = a.unicode_len();
    let nb = b.unicode_len();
    if na != nb {
        return false;
    }
    let mut i: usize = 0;
    while i < na
        invariant
            i <= na,
            na == a@.len(),
            nb == b@.len(),
            na == nb,
            forall|k: int| 0 <= k < i ==> a@[k] == b@[k],
        decreases na - i,
    {
        if a.get_char(i) != b.get_char(i) {
            return false;
        }
        i = i + 1;
    }
    proof {
        assert(a@ =~= b@);
    }
    true
}

// ───────────────────────── vector helpers ─────────────────────────

/// Appends `v[from .. to]` to `out`.
pub fn append_range(out: &mut Vec<char>, v: &Vec<char>, from: usize, to: usize)
    requires
        from <= to <= v.len(),
    ensures
        final(out)@ == old(out)@ + v@.subrange(from as int, to as int),
{
    let mut k: usize = from;
    while k < to
        invariant
            from <= k <= to <= v.len(),
            out@ == old(out)@ + v@.subrange(from as int, k as int),
        decreases to - k,
    {
        out.push(v[k]);
        assert(old(out)@ + v@.subrange(from as int, k as int + 1) =~= (old(out)@ + v@.subrange(
            from as int,
            k as int,
        )).push(v@[k as int]));
        k = k + 1;
    }
    assert(out@ =~= old(out)@ + v@.subrange(from as int, to as int));
}

pub fn append_vec(out: &mut Vec<char>, v: &Vec<char>)
    ensures
        final(out)@ == old(out)@ + v@,
{
    append_range(out, v, 0, v.len());
    assert(out@ =~= old(out)@ + v@);
}

/// A fresh copy of `v[from .. to]`.
pub fn copy_range(v: &Vec<char>, from: usize, to: usize) -> (r: Vec<char>)
    requires
        from <= to <= v.len(),
    ensures
        r@ == v@.subrange(from as int, to as int),
{
    let mut out: Vec<char> = Vec::new();
    append_range(&mut out, v, from, to);
    assert(out@ =~= v@.subrange(from as int, to as int));
    out
}

/// Trims leading and trailing whitespace from a character vector.
pub fn trim_vec(v: &Vec<char>) -> (r: Vec<char>)
    ensures
        r@ == trim_spec(v@),
{
    let mut a: usize = 0;
    loop
        invariant_except_break
            a <= v.len(),
            ws_prefix_end(v@, 0) == ws_prefix_end(v@, a as nat),
        ensures
            a == ws_prefix_end(v@, 0),
            a <= v.len(),
            a < v.len() ==> !is_ws(v@[a as int]),
        decreases v.len() - a,
    {
        if a >= v.len() {
            break ;
        }
        if !char_is_ws(v[a]) {
            break ;
        }
        a = a + 1;
    }
    if a == v.len() {
        let out: Vec<char> = Vec::new();
        return out;
    }
    let mut b: usize = v.len();
    loop
        invariant_except_break
            a + 1 <= b <= v.len(),
            a < v.len(),
            !is_ws(v@[a as int]),
            ws_suffix_start(v@, v@.len()) == ws_suffix_start(v@, b as nat),
        ensures
            b == ws_suffix_start(v@, v@.len()),
            a + 1 <= b <= v.len(),
        decreases b,
    {
        if b <= a + 1 {
            break ;
        }
        if !char_is_ws(v[b - 1]) {
            break ;
        }
        b = b - 1;
    }
    copy_range(v, a, b)
}

// ───────────────────────── decimal digits ─────────────────────────

pub open spec fn dec_digit(d: nat) -> char {
    if d == 0 {
        '0'
    } else if d == 1 {
        '1'
    } else if d == 2 {
        '2'
    } else if d == 3 {
        '3'
    } else if d == 4 {
        '4'
    } else if d == 5 {
        '5'
    } else if d == 6 {
        '6'
    } else if d == 7 {
        '7'
    } else if d == 8 {
        '8'
    } else {
        '9'
    }
}

/// The decimal representation of `n`, most significant digit first.
pub open spec fn dec_rep(n: nat) -> Seq<char>
    decreases n,
{
    if n < 10 {
        seq![dec_digit(n)]
    } else {
        dec_rep(n / 10).push(dec_digit(n % 10))
    }
}

fn dec_digit_exec(d: u128) -> (c: char)
    requires
        d < 10,
    ensures
        c == dec_digit(d as nat),
{
    if d == 0 {
        '0'
    } else if d == 1 {
        '1'
    } else if d == 2 {
        '2'
    } else if d == 3 {
        '3'
    } else if d == 4 {
        '4'
    } else if d == 5 {
        '5'
    } else if d == 6 {
        '6'
    } else if d == 7 {
        '7'
    } else if d == 8 {
        '8'
    } else {
        '9'
    }
}

pub proof fn lemma_dec_rep_len(n: nat)
    ensures
        dec_rep(n).len() >= 1,
    decreases n,
{
    if n >= 10 {
        lemma_dec_rep_len(n / 10);
    }
}

proof fn lemma_dec_digit_injective(x: nat, y: nat)
    requires
        x < 10,
        y < 10,
        dec_digit(x) == dec_digit(y),
    ensures
        x == y,
{
}

/// Decimal representations are unambiguous: equal digit strings mean equal
/// numbers.
pub proof fn lemma_dec_rep_injective(a: nat, b: nat)
    requires
        dec_rep(a) == dec_rep(b),
    ensures
        a == b,
    decreases a,
{
    lemma_dec_rep_len(a / 10);
    lemma_dec_rep_len(b / 10);
    if a < 10 && b < 10 {
        assert(dec_rep(a) == seq![dec_digit(a)]);
        assert(dec_rep(b) == seq![dec_digit(b)]);
        assert(dec_rep(a)[0] == dec_digit(a));
        assert(dec_rep(b)[0] == dec_digit(b));
        assert(dec_digit(a) == dec_digit(b));
        lemma_dec_digit_injective(a, b);
    } else if a >= 10 && b >= 10 {
        assert(dec_rep(a) == dec_rep(a / 10).push(dec_digit(a % 10)));
        assert(dec_rep(b) == dec_rep(b / 10).push(dec_digit(b % 10)));
        assert(dec_rep(a).last() == dec_digit(a % 10));
        assert(dec_rep(b).last() == dec_digit(b % 10));
        lemma_dec_digit_injective(a % 10, b % 10);
        assert(dec_rep(a).drop_last() =~= dec_rep(a / 10));
        assert(dec_rep(b).drop_last() =~= dec_rep(b / 10));
        lemma_dec_rep_injective(a / 10, b / 10);
    } else if a < 10 {
        assert(dec_rep(a).len() == 1 && dec_rep(b).len() >= 2);
    } else {
        assert(dec_rep(b).len() == 1 && dec_rep(a).len() >= 2);
    }
}

/// Appends the decimal representation of `n` to `out`.
pub fn push_dec(out: &mut Vec<char>, n: u128)
    ensures
        final(out)@ == old(out)@ + dec_rep(n as nat),
    decreases n,
{
    if n < 10 {
        out.push(dec_digit_exec(n));
        assert(out@ =~= old(out)@ + dec_rep(n as nat));
    } else {
        push_dec(out, n / 10);
        out.push(dec_digit_exec(n % 10));
        assert(out@ =~= old(out)@ + dec_rep(n as nat));
    }
}

/// Appends the decimal representation of a `usize` to `out`.
pub fn push_dec_usize(out: &mut Vec<char>, n: usize)
    ensures
        final(out)@ == old(out)@ + dec_rep(n as nat),
{
    push_dec(out, n as u128);
}

/// Does `v` contain the character `c`?
pub fn contains_char(v: &Vec<char>, c: char) -> (r: bool)
    ensures
        r == v@.contains(c),
{
    let mut i: usize = 0;
    while i < v.len()
        invariant
            i <= v.len(),
            forall|k: int| 0 <= k < i ==> v@[k] != c,
        decreases v.len() - i,
    {
        if v[i] == c {
            return true;
        }
        i = i + 1;
    }
    false
}

} // verus!
