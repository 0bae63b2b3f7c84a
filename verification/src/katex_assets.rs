//! Inlining the typesetter's font files into its stylesheet: finding
//! `url(fonts/…)` references, encoding each font as a base64 data URL, and
//! substituting the first occurrence of each reference.  Reading the files
//! from disk is I/O and lives outside the library.

use crate::textops::{
    append_vec, chars_to_string, copy_range, find_char, find_char_at, find_sub, find_sub_at,
    lemma_find_char_some, lemma_find_sub_some, replace_first_spec, replace_first_vec, to_chars,
};
use vstd::prelude::*;
use vstd::string::{StrSliceExecFns, StringExecFns};

verus! {

// ───────────────────────── font MIME types ─────────────────────────

pub open spec fn ends_with(s: Seq<char>, suf: Seq<char>) -> bool {
    suf.len() <= s.len() && s.skip(s.len() - suf.len()) == suf
}

/// Does `s` end with `suf`?
pub fn str_ends_with(s: &str, suf: &str) -> (r: bool)
    ensures
        r == ends_with(s@, suf@),
{
    let n = s.unicode_len();
    let m = suf.unicode_len();
    if m > n {
        return false;
    }
    let mut k: usize = 0;
    while k < m
        invariant
            k <= m,
            m <= n,
            n == s@.len(),
            m == suf@.len(),
            forall|t: int| 0 <= t < k ==> s@[n - m + t] == suf@[t],
        decreases m - k,
    {
        if s.get_char(n - m + k) != suf.get_char(k) {
            assert(s@.skip(s@.len() - suf@.len())[k as int] != suf@[k as int]);
            return false;
        }
        k = k + 1;
    }
    proof {
        assert(s@.skip(s@.len() - suf@.len()) =~= suf@);
    }
    true
}

pub open spec fn font_mime_spec(name: Seq<char>) -> Seq<char> {
    if ends_with(name, ".woff2"@) {
        "font/woff2"@
    } else if ends_with(name, ".woff"@) {
        "font/woff"@
    } else {
        "font/ttf"@
    }
}

/// The MIME type for a font file, by its extension.
pub fn font_mime_type(filename: &str) -> (r: &'static str)
    ensures
        r@ == font_mime_spec(filename@),
{
    if str_ends_with(filename, ".woff2") {
        "font/woff2"
    } else if str_ends_with(filename, ".woff") {
        "font/woff"
    } else {
        "font/ttf"
    }
}

// ───────────────────────── base64 data URLs ─────────────────────────

/// What base64's standard-alphabet, padded encoding returns for a byte
/// sequence: a function of the bytes alone.
pub uninterp spec fn b64_of(bytes: Seq<u8>) -> Seq<char>;

/// Relies on base64's `Engine::encode` with the `STANDARD` engine (standard
/// alphabet, padding): the encoding depends on the input bytes alone.
#[verifier::external_body]
fn b64_encode(bytes: &Vec<u8>) -> (r: String)
    ensures
        r@ == b64_of(bytes@),
{
    base64::Engine::encode(&base64::engine::general_purpose::STANDARD, bytes.as_slice())
}

pub open spec fn data_url_spec(name: Seq<char>, bytes: Seq<u8>) -> Seq<char> {
    "data:"@ + font_mime_spec(name) + ";base64,"@ + b64_of(bytes)
}

/// The data URL that carries one font file inline.
pub fn font_data_url(name: &str, bytes: &Vec<u8>) -> (r: String)
    ensures
        r@ == data_url_spec(name@, bytes@),
{
    let mut out = String::from_str("data:");
    out.append(font_mime_type(name));
    out.append(";base64,");
    let b = b64_encode(bytes);
    out.append(b.as_str());
    out
}

// ───────────────────────── finding font references ─────────────────────────

pub open spec fn url_tok() -> Seq<char> {
    seq!['u', 'r', 'l', '(', 'f', 'o', 'n', 't', 's', '/']
}

/// The font files referenced as `url(fonts/NAME)` in the stylesheet, in
/// order of appearance, each `NAME` the non-empty run up to the next closing
/// parenthesis.
pub open spec fn font_refs(s: Seq<char>, from: nat) -> Seq<Seq<char>>
    decreases s.len() - from,
{
    match find_sub(s, url_tok(), from) {
        None => Seq::empty(),
        Some(p) => {
            proof {
                lemma_find_sub_some(s, url_tok(), from);
            }
            match find_char(s, (p + 10) as nat, ')') {
                None => Seq::empty(),
                Some(k) => {
                    proof {
                        lemma_find_char_some(s, (p + 10) as nat, ')');
                    }
                    if k == p + 10 {
                        font_refs(s, (p + 1) as nat)
                    } else {
                        seq![s.subrange(p as int + 10, k as int)] + font_refs(s, (k + 1) as nat)
                    }
                },
            }
        },
    }
}

/// Lists the font files that the stylesheet references.
pub fn find_font_refs(css: &str) -> (r: Vec<String>)
    ensures
        r@.map_values(|x: String| x@) == font_refs(css@, 0),
{
    let v = to_chars(css);
    let mut tok: Vec<char> = Vec::new();
    tok.push('u');
    tok.push('r');
    tok.push('l');
    tok.push('(');
    tok.push('f');
    tok.push('o');
    tok.push('n');
    tok.push('t');
    tok.push('s');
    tok.push('/');
    assert(tok@ =~= url_tok());
    let mut out: Vec<String> = Vec::new();
    let mut i: usize = 0;
    loop
        invariant_except_break
            i <= v.len(),
            tok@ == url_tok(),
            font_refs(v@, 0) == out@.map_values(|x: String| x@) + font_refs(v@, i as nat),
        ensures
            font_refs(v@, 0) == out@.map_values(|x: String| x@),
        decreases v.len() - i,
    {
        match find_sub_at(&v, &tok, i) {
            None => {
                proof {
                    assert(font_refs(v@, 0) =~= out@.map_values(|x: String| x@));
                }
                break ;
            },
            Some(p) => {
                match find_char_at(&v, p + 10, ')') {
                    None => {
                        proof {
                            assert(font_refs(v@, 0) =~= out@.map_values(|x: String| x@));
                        }
                        break ;
                    },
                    Some(k) => {
                        if k == p + 10 {
                            i = p + 1;
                        } else {
                            let namev = copy_range(&v, p + 10, k);
                            let ghost pre = out@;
                            out.push(chars_to_string(&namev));
                            proof {
                                assert(out@.map_values(|x: String| x@) =~= pre.map_values(
                                    |x: String| x@,
                                ).push(namev@));
                            }
                            i = k + 1;
                        }
                    },
                }
            },
        }
    }
    out
}

// ───────────────────────── inlining ─────────────────────────

pub open spec fn font_orig_spec(name: Seq<char>) -> Seq<char> {
    url_tok() + name + seq![')']
}

pub open spec fn font_repl_spec(name: Seq<char>, bytes: Seq<u8>) -> Seq<char> {
    "url("@ + data_url_spec(name, bytes) + seq![')']
}

/// The stylesheet once the fonts from index `i` on are inlined, in order,
/// each replacing the first occurrence of its own reference.
pub open spec fn inline_fonts_spec(
    css: Seq<char>,
    fonts: Seq<(Seq<char>, Seq<u8>)>,
    i: nat,
) -> Seq<char>
    decreases fonts.len() - i,
{
    if i >= fonts.len() {
        css
    } else {
        inline_fonts_spec(
            replace_first_spec(
                css,
                font_orig_spec(fonts[i as int].0),
                font_repl_spec(fonts[i as int].0, fonts[i as int].1),
            ),
            fonts,
            i + 1,
        )
    }
}

/// Inlines the given font files into the stylesheet: for each, the first
/// `url(fonts/NAME)` reference becomes a base64 data URL.  A reference whose
/// file could not be read is simply not in the list and stays as it is.
pub fn inline_fonts(css: &str, fonts: &Vec<(String, Vec<u8>)>) -> (r: String)
    ensures
        r@ == inline_fonts_spec(
            css@,
            fonts@.map_values(|p: (String, Vec<u8>)| (p.0@, p.1@)),
            0,
        ),
{
    let ghost fview = fonts@.map_values(|p: (String, Vec<u8>)| (p.0@, p.1@));
    let mut cur = to_chars(css);
    let mut k: usize = 0;
    while k < fonts.len()
        invariant
            k <= fonts.len(),
            fview == fonts@.map_values(|p: (String, Vec<u8>)| (p.0@, p.1@)),
            inline_fonts_spec(css@, fview, 0) == inline_fonts_spec(cur@, fview, k as nat),
        decreases fonts.len() - k,
    {
        let name = &fonts[k].0;
        let bytes = &fonts[k].1;
        let mut orig: Vec<char> = Vec::new();
        orig.push('u');
        orig.push('r');
        orig.push('l');
        orig.push('(');
        orig.push('f');
        orig.push('o');
        orig.push('n');
        orig.push('t');
        orig.push('s');
        orig.push('/');
        let namev = to_chars(name.as_str());
        append_vec(&mut orig, &namev);
        orig.push(')');
        assert(orig@ =~= font_orig_spec(name@));
        let du = font_data_url(name.as_str(), bytes);
        let mut repl = to_chars("url(");
        let duv = to_chars(du.as_str());
        append_vec(&mut repl, &duv);
        repl.push(')');
        assert(repl@ =~= font_repl_spec(name@, bytes@));
        cur = replace_first_vec(&cur, &orig, &repl);
        proof {
            assert(fview[k as int] == (name@, bytes@));
        }
        k = k + 1;
    }
    chars_to_string(&cur)
}

} // verus!
