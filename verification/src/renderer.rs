//! The math-span pipeline: scan raw text for math spans under a strict
//! precedence and escaping discipline, substitute each span with a unique
//! placeholder token, render the remaining structural markup, and
//! resynthesize the final fragment by putting delimiter-correct math markup
//! back in place of each placeholder.

use crate::textops::{
    append_range, append_vec, chars_to_string, contains_char, copy_range, dec_rep, find_pair,
    find_pair_at, lemma_dec_rep_injective, lemma_dec_rep_len, lemma_find_pair_some,
    lemma_find_pair_first, lemma_trim_bounds, lemma_trim_idempotent, lemma_ws_prefix_end,
    push_dec_usize, replace_all_spec, replace_all_vec, replace_first_spec, replace_first_vec,
    to_chars, trim_spec, trim_vec, ws_prefix_end, ws_suffix_start,
};
use vstd::prelude::*;
use vstd::string::StringExecFns;

verus! {

/// The kind of a recognized math span: display (block) or flowing (inline).
#[derive(Debug, Clone, Copy, PartialEq, Eq, Structural)]
pub enum MathKind {
    Block,
    Inline,
}

/// One recognized math region: its kind, its raw content with the delimiter
/// characters stripped and the ends trimmed, and the placeholder token that
/// stands for it in the intermediate text.
#[derive(Debug, Clone)]
pub struct MathExpr {
    pub kind: MathKind,
    pub content: String,
    pub placeholder: String,
}

/// The mathematical model of one extracted span; the placeholder is not part
/// of the model because it is determined by the kind and the span's position.
pub ghost struct Span {
    pub kind: MathKind,
    pub content: Seq<char>,
}

// ───────────────────────── placeholder tokens ─────────────────────────

pub open spec fn kind_tag(k: MathKind) -> Seq<char> {
    match k {
        MathKind::Block => seq!['B', 'L', 'O', 'C', 'K'],
        MathKind::Inline => seq!['I', 'N', 'L', 'I', 'N', 'E'],
    }
}

/// The placeholder token for the span with zero-based index `idx`: an
/// HTML-comment-shaped marker that a structural-markup renderer passes
/// through unaltered and that contains no math-delimiter characters.
pub open spec fn placeholder_seq(k: MathKind, idx: nat) -> Seq<char> {
    seq!['<', '!', '-', '-', 'M', 'A', 'T', 'H', '_'] + kind_tag(k) + seq!['_'] + dec_rep(idx)
        + seq!['-', '-', '>']
}

fn make_placeholder(kind: MathKind, idx: usize) -> (r: Vec<char>)
    ensures
        r@ == placeholder_seq(kind, idx as nat),
{
    let mut out: Vec<char> = Vec::new();
    out.push('<');
    out.push('!');
    out.push('-');
    out.push('-');
    out.push('M');
    out.push('A');
    out.push('T');
    out.push('H');
    out.push('_');
    assert(out@ =~= seq!['<', '!', '-', '-', 'M', 'A', 'T', 'H', '_']);
    match kind {
        MathKind::Block => {
            out.push('B');
            out.push('L');
            out.push('O');
            out.push('C');
            out.push('K');
        },
        MathKind::Inline => {
            out.push('I');
            out.push('N');
            out.push('L');
            out.push('I');
            out.push('N');
            out.push('E');
        },
    }
    assert(out@ =~= seq!['<', '!', '-', '-', 'M', 'A', 'T', 'H', '_'] + kind_tag(kind));
    out.push('_');
    push_dec_usize(&mut out, idx);
    out.push('-');
    out.push('-');
    out.push('>');
    assert(out@ =~= placeholder_seq(kind, idx as nat));
    out
}

// ───────────────────────── the scan, in specification ─────────────────────────

/// The span stored for raw delimiter content `raw`: the content is trimmed;
/// a classifying (inline-form) pass promotes a span whose trimmed content
/// holds a newline to a block span, the block-form passes store blocks
/// outright.
pub open spec fn pair_span(raw: Seq<char>, classify: bool) -> Span {
    let c = trim_spec(raw);
    if classify {
        Span {
            kind: if c.contains('\n') {
                MathKind::Block
            } else {
                MathKind::Inline
            },
            content: c,
        }
    } else {
        Span { kind: MathKind::Block, content: c }
    }
}

/// One pass over `s` from position `from` for a two-character open token
/// `oa ob` and close token `ca cb`: repeatedly take the leftmost open token
/// and the nearest close token after it, emit a placeholder for the region
/// between them, and continue after the close token.  `base` numbers the
/// first span this pass extracts.
pub open spec fn scan_pairs(
    s: Seq<char>,
    from: nat,
    base: nat,
    oa: char,
    ob: char,
    ca: char,
    cb: char,
    classify: bool,
) -> (Seq<char>, Seq<Span>)
    decreases s.len() - from,
{
    let rest = if from <= s.len() {
        s.subrange(from as int, s.len() as int)
    } else {
        Seq::empty()
    };
    match find_pair(s, from, oa, ob) {
        None => (rest, Seq::empty()),
        Some(o) => match find_pair(s, (o + 2) as nat, ca, cb) {
            None => (rest, Seq::empty()),
            Some(c) => {
                proof {
                    lemma_find_pair_some(s, from, oa, ob);
                    lemma_find_pair_some(s, (o + 2) as nat, ca, cb);
                }
                let sp = pair_span(s.subrange(o as int + 2, c as int), classify);
                let r = scan_pairs(s, (c + 2) as nat, (base + 1) as nat, oa, ob, ca, cb, classify);
                (
                    s.subrange(from as int, o as int) + placeholder_seq(sp.kind, base) + r.0,
                    seq![sp] + r.1,
                )
            },
        },
    }
}

/// May a single `$` at position `i` open an inline span?  Not if it is
/// preceded by `$` (part of a `$$` run) or by an escaping backslash, and not
/// if it is followed by `$`.
pub open spec fn inline_opener(s: Seq<char>, i: nat) -> bool {
    &&& s[i as int] == '$'
    &&& !(i > 0 && (s[i as int - 1] == '$' || s[i as int - 1] == '\\'))
    &&& !(i + 1 < s.len() && s[i as int + 1] == '$')
}

/// May a single `$` at position `j` close an inline span?
pub open spec fn inline_closer(s: Seq<char>, j: nat) -> bool {
    &&& j >= 1
    &&& j < s.len()
    &&& s[j as int] == '$'
    &&& s[j as int - 1] != '\\'
    &&& s[j as int - 1] != '$'
    &&& !(j + 1 < s.len() && s[j as int + 1] == '$')
}

/// First valid inline closer at or after `j`.
pub open spec fn find_closer(s: Seq<char>, j: nat) -> Option<nat>
    decreases s.len() - j,
{
    if j >= s.len() {
        None
    } else if inline_closer(s, j) {
        Some(j)
    } else {
        find_closer(s, j + 1)
    }
}

pub proof fn lemma_find_closer_some(s: Seq<char>, j: nat)
    requires
        find_closer(s, j) is Some,
    ensures
        ({
            let k = find_closer(s, j)->Some_0;
            j <= k && k < s.len() && inline_closer(s, k)
        }),
    decreases s.len() - j,
{
    if !(j >= s.len()) && !inline_closer(s, j) {
        lemma_find_closer_some(s, j + 1);
    }
}

/// The span stored for an inline single-dollar region: the one classifier
/// rule of both inline forms — the span is Inline unless its stored (trimmed)
/// content contains a newline, in which case it is promoted to a block span.
pub open spec fn inline_span(raw: Seq<char>) -> Span {
    pair_span(raw, true)
}

/// The single-dollar pass: a linear scan over whole characters.  An accepted
/// opener with a valid closer yields a span; an opener without one is emitted
/// as a literal `$` and scanning resumes right after it.
pub open spec fn scan_inline(s: Seq<char>, i: nat, base: nat) -> (Seq<char>, Seq<Span>)
    decreases s.len() - i,
{
    if i >= s.len() {
        (Seq::empty(), Seq::empty())
    } else if inline_opener(s, i) {
        match find_closer(s, i + 1) {
            Some(j) => {
                proof {
                    lemma_find_closer_some(s, i + 1);
                }
                let sp = inline_span(s.subrange(i as int + 1, j as int));
                let r = scan_inline(s, (j + 1) as nat, (base + 1) as nat);
                (placeholder_seq(sp.kind, base) + r.0, seq![sp] + r.1)
            },
            None => {
                let r = scan_inline(s, i + 1, base);
                (seq!['$'] + r.0, r.1)
            },
        }
    } else {
        let r = scan_inline(s, i + 1, base);
        (seq![s[i as int]] + r.0, r.1)
    }
}

/// The whole scan: block double-dollar, block bracket, inline single-dollar,
/// inline paren — in that order, each pass working on the text the previous
/// pass produced, so later passes never see already-extracted math content.
pub open spec fn extract_math(s: Seq<char>) -> (Seq<char>, Seq<Span>) {
    let p1 = scan_pairs(s, 0, 0, '$', '$', '$', '$', false);
    let p2 = scan_pairs(p1.0, 0, p1.1.len(), '\\', '[', '\\', ']', false);
    let p3 = scan_inline(p2.0, 0, p1.1.len() + p2.1.len());
    let p4 = scan_pairs(
        p3.0,
        0,
        p1.1.len() + p2.1.len() + p3.1.len(),
        '\\',
        '(',
        '\\',
        ')',
        true,
    );
    (p4.0, p1.1 + p2.1 + p3.1 + p4.1)
}

// ───────────────────────── models of the executable list ─────────────────────────

/// `e` is the executable form of span `sp` standing at index `idx` of the
/// overall list: same kind, same content, and the placeholder token of `idx`.
pub open spec fn expr_models(e: MathExpr, sp: Span, idx: nat) -> bool {
    &&& e.kind == sp.kind
    &&& e.content@ == sp.content
    &&& e.placeholder@ == placeholder_seq(sp.kind, idx)
}

pub open spec fn exprs_match(es: Seq<MathExpr>, sps: Seq<Span>, base: nat) -> bool {
    &&& es.len() == sps.len()
    &&& forall|i: int| 0 <= i < es.len() ==> expr_models(#[trigger] es[i], sps[i], (base + i) as nat)
}

proof fn lemma_exprs_match_concat(a: Seq<MathExpr>, x: Seq<Span>, c: Seq<MathExpr>, y: Seq<Span>, base: nat)
    requires
        exprs_match(a, x, base),
        exprs_match(c, y, (base + a.len()) as nat),
    ensures
        exprs_match(a + c, x + y, base),
{
    assert forall|i: int| 0 <= i < (a + c).len() implies expr_models(
        #[trigger] (a + c)[i],
        (x + y)[i],
        (base + i) as nat,
    ) by {
        if i < a.len() {
            assert(expr_models(a[i], x[i], (base + i) as nat));
        } else {
            assert(expr_models(c[i - a.len()], y[i - a.len()], (base + i) as nat));
        }
    }
}

// ───────────────────────── the scan, executable ─────────────────────────

fn scan_pair_pass(
    text: &Vec<char>,
    exprs: &mut Vec<MathExpr>,
    oa: char,
    ob: char,
    ca: char,
    cb: char,
    classify: bool,
) -> (out: Vec<char>)
    ensures
        ({
            let r = scan_pairs(text@, 0, old(exprs)@.len() as nat, oa, ob, ca, cb, classify);
            &&& out@ == r.0
            &&& final(exprs)@.len() == old(exprs)@.len() + r.1.len()
            &&& final(exprs)@.take(old(exprs)@.len() as int) == old(exprs)@
            &&& exprs_match(final(exprs)@.skip(old(exprs)@.len() as int), r.1, old(exprs)@.len() as nat)
        }),
{
    let ghost base0: nat = exprs@.len() as nat;
    let ghost total = scan_pairs(text@, 0, base0, oa, ob, ca, cb, classify);
    let ghost mut done: Seq<Span> = Seq::empty();
    let mut out: Vec<char> = Vec::new();
    let mut i: usize = 0;
    loop
        invariant_except_break
            i <= text.len(),
            exprs@.len() == base0 + done.len(),
            exprs@.take(base0 as int) == old(exprs)@,
            exprs_match(exprs@.skip(base0 as int), done, base0),
            total.0 == out@ + scan_pairs(
                text@,
                i as nat,
                (base0 + done.len()) as nat,
                oa,
                ob,
                ca,
                cb,
                classify,
            ).0,
            total.1 == done + scan_pairs(
                text@,
                i as nat,
                (base0 + done.len()) as nat,
                oa,
                ob,
                ca,
                cb,
                classify,
            ).1,
        ensures
            out@ == total.0,
            exprs@.len() == base0 + total.1.len(),
            exprs@.take(base0 as int) == old(exprs)@,
            exprs_match(exprs@.skip(base0 as int), total.1, base0),
        decreases text.len() - i,
    {
        let ghost b: nat = (base0 + done.len()) as nat;
        let ghost rem = scan_pairs(text@, i as nat, b, oa, ob, ca, cb, classify);
        let open_at = find_pair_at(text, i, oa, ob);
        let close_at = match open_at {
            Some(o) => find_pair_at(text, o + 2, ca, cb),
            None => None,
        };
        match (open_at, close_at) {
            (Some(o), Some(c)) => {
                append_range(&mut out, text, i, o);
                let raw = copy_range(text, o + 2, c);
                let content = trim_vec(&raw);
                let kind = if classify {
                    if contains_char(&content, '\n') {
                        MathKind::Block
                    } else {
                        MathKind::Inline
                    }
                } else {
                    MathKind::Block
                };
                let ghost sp = pair_span(text@.subrange(o as int + 2, c as int), classify);
                assert(kind == sp.kind && content@ == sp.content);
                let idx = exprs.len();
                let ph = make_placeholder(kind, idx);
                append_vec(&mut out, &ph);
                let e = MathExpr {
                    kind,
                    content: chars_to_string(&content),
                    placeholder: chars_to_string(&ph),
                };
                let ghost pre = exprs@;
                exprs.push(e);
                proof {
                    let r2 = scan_pairs(text@, (c + 2) as nat, (b + 1) as nat, oa, ob, ca, cb, classify);
                    assert(rem.0 == text@.subrange(i as int, o as int) + placeholder_seq(sp.kind, b)
                        + r2.0);
                    assert(rem.1 == seq![sp] + r2.1);
                    assert(total.0 =~= out@ + r2.0);
                    assert(total.1 =~= done.push(sp) + r2.1);
                    let old_done = done;
                    done = done.push(sp);
                    assert(exprs@.take(base0 as int) =~= pre.take(base0 as int));
                    assert(exprs@.skip(base0 as int) =~= pre.skip(base0 as int).push(e));
                    assert(expr_models(e, sp, (base0 + old_done.len()) as nat));
                    assert forall|t: int| 0 <= t < exprs@.skip(base0 as int).len() implies expr_models(
                        #[trigger] exprs@.skip(base0 as int)[t],
                        done[t],
                        (base0 + t) as nat,
                    ) by {
                        if t < old_done.len() {
                            assert(exprs@.skip(base0 as int)[t] == pre.skip(base0 as int)[t]);
                            assert(expr_models(pre.skip(base0 as int)[t], old_done[t], (base0 + t) as nat));
                        } else {
                            assert(exprs@.skip(base0 as int)[t] == e);
                        }
                    }
                    assert(exprs_match(exprs@.skip(base0 as int), done, base0));
                }
                i = c + 2;
            },
            _ => {
                append_range(&mut out, text, i, text.len());
                proof {
                    assert(rem.0 == text@.subrange(i as int, text@.len() as int));
                    assert(rem.1 =~= Seq::<Span>::empty());
                    assert(out@ =~= total.0);
                    assert(total.1 =~= done);
                }
                break ;
            },
        }
    }
    assert(final(exprs)@.skip(base0 as int) == exprs@.skip(old(exprs)@.len() as int));
    out
}

fn scan_inline_pass(text: &Vec<char>, exprs: &mut Vec<MathExpr>) -> (out: Vec<char>)
    ensures
        ({
            let r = scan_inline(text@, 0, old(exprs)@.len() as nat);
            &&& out@ == r.0
            &&& final(exprs)@.len() == old(exprs)@.len() + r.1.len()
            &&& final(exprs)@.take(old(exprs)@.len() as int) == old(exprs)@
            &&& exprs_match(final(exprs)@.skip(old(exprs)@.len() as int), r.1, old(exprs)@.len() as nat)
        }),
{
    let ghost base0: nat = exprs@.len() as nat;
    let ghost total = scan_inline(text@, 0, base0);
    let ghost mut done: Seq<Span> = Seq::empty();
    let mut out: Vec<char> = Vec::new();
    let mut i: usize = 0;
    loop
        invariant_except_break
            i <= text.len(),
            exprs@.len() == base0 + done.len(),
            exprs@.take(base0 as int) == old(exprs)@,
            exprs_match(exprs@.skip(base0 as int), done, base0),
            total.0 == out@ + scan_inline(text@, i as nat, (base0 + done.len()) as nat).0,
            total.1 == done + scan_inline(text@, i as nat, (base0 + done.len()) as nat).1,
        ensures
            out@ == total.0,
            exprs@.len() == base0 + total.1.len(),
            exprs@.take(base0 as int) == old(exprs)@,
            exprs_match(exprs@.skip(base0 as int), total.1, base0),
        decreases text.len() - i,
    {
        let ghost b: nat = (base0 + done.len()) as nat;
        let ghost rem = scan_inline(text@, i as nat, b);
        if i >= text.len() {
            proof {
                assert(out@ =~= total.0);
                assert(total.1 =~= done);
            }
            break ;
        }
        let is_opener = text[i] == '$' && !(i > 0 && (text[i - 1] == '$' || text[i - 1] == '\\'))
            && !(i + 1 < text.len() && text[i + 1] == '$');
        assert(is_opener == inline_opener(text@, i as nat));
        if is_opener {
            match find_closer_at(text, i + 1) {
                Some(j) => {
                    let raw = copy_range(text, i + 1, j);
                    let content = trim_vec(&raw);
                    let kind = if contains_char(&content, '\n') {
                        MathKind::Block
                    } else {
                        MathKind::Inline
                    };
                    let ghost sp = inline_span(text@.subrange(i as int + 1, j as int));
                    assert(kind == sp.kind && content@ == sp.content);
                    let idx = exprs.len();
                    let ph = make_placeholder(kind, idx);
                    append_vec(&mut out, &ph);
                    let e = MathExpr {
                        kind,
                        content: chars_to_string(&content),
                        placeholder: chars_to_string(&ph),
                    };
                    let ghost pre = exprs@;
                    exprs.push(e);
                    proof {
                        let r2 = scan_inline(text@, (j + 1) as nat, (b + 1) as nat);
                        assert(rem.0 == placeholder_seq(sp.kind, b) + r2.0);
                        assert(rem.1 == seq![sp] + r2.1);
                        assert(total.0 =~= out@ + r2.0);
                        assert(total.1 =~= done.push(sp) + r2.1);
                        let old_done = done;
                        done = done.push(sp);
                        assert(exprs@.take(base0 as int) =~= pre.take(base0 as int));
                        assert(exprs@.skip(base0 as int) =~= pre.skip(base0 as int).push(e));
                        assert(expr_models(e, sp, (base0 + old_done.len()) as nat));
                        assert forall|t: int|
                            0 <= t < exprs@.skip(base0 as int).len() implies expr_models(
                            #[trigger] exprs@.skip(base0 as int)[t],
                            done[t],
                            (base0 + t) as nat,
                        ) by {
                            if t < old_done.len() {
                                assert(exprs@.skip(base0 as int)[t] == pre.skip(base0 as int)[t]);
                                assert(expr_models(pre.skip(base0 as int)[t], old_done[t], (base0
                                    + t) as nat));
                            } else {
                                assert(exprs@.skip(base0 as int)[t] == e);
                            }
                        }
                        assert(exprs_match(exprs@.skip(base0 as int), done, base0));
                    }
                    i = j + 1;
                },
                None => {
                    out.push('$');
                    proof {
                        let r2 = scan_inline(text@, (i + 1) as nat, b);
                        assert(rem.0 == seq!['$'] + r2.0);
                        assert(total.0 =~= out@ + r2.0);
                    }
                    i = i + 1;
                },
            }
        } else {
            out.push(text[i]);
            proof {
                let r2 = scan_inline(text@, (i + 1) as nat, b);
                assert(rem.0 == seq![text@[i as int]] + r2.0);
                assert(total.0 =~= out@ + r2.0);
            }
            i = i + 1;
        }
    }
    assert(final(exprs)@.skip(base0 as int) == exprs@.skip(old(exprs)@.len() as int));
    out
}

fn find_closer_at(v: &Vec<char>, from: usize) -> (r: Option<usize>)
    ensures
        match r {
            Some(j) => find_closer(v@, from as nat) == Some(j as nat) && from <= j && j < v.len(),
            None => find_closer(v@, from as nat) is None,
        },
{
    let mut j: usize = from;
    loop
        invariant
            from <= j,
            find_closer(v@, from as nat) == find_closer(v@, j as nat),
        decreases v.len() - j,
    {
        if j >= v.len() {
            return None;
        }
        let ok = j >= 1 && v[j] == '$' && v[j - 1] != '\\' && v[j - 1] != '$' && !(j + 1 < v.len()
            && v[j + 1] == '$');
        assert(ok == inline_closer(v@, j as nat));
        if ok {
            return Some(j);
        }
        j = j + 1;
    }
}

// ───────────────────────── the public scanner ─────────────────────────

/// Extracts every math span from `content` and replaces each with its
/// placeholder token.  Returns the placeholder-bearing text together with the
/// ordered span list; the same input always yields the same pair.
pub fn process_math_expressions(content: &str) -> (r: (String, Vec<MathExpr>))
    ensures
        ({
            let m = extract_math(content@);
            &&& r.0@ == m.0
            &&& exprs_match(r.1@, m.1, 0)
        }),
{
    let cv = to_chars(content);
    let mut exprs: Vec<MathExpr> = Vec::new();
    let t1 = scan_pair_pass(&cv, &mut exprs, '$', '$', '$', '$', false);
    let ghost e1 = exprs@;
    let ghost p1 = scan_pairs(cv@, 0, 0, '$', '$', '$', '$', false);
    proof {
        assert(e1 =~= e1.skip(0));
        assert(exprs_match(e1, p1.1, 0));
    }
    let t2 = scan_pair_pass(&t1, &mut exprs, '\\', '[', '\\', ']', false);
    let ghost e2 = exprs@;
    let ghost p2 = scan_pairs(t1@, 0, p1.1.len(), '\\', '[', '\\', ']', false);
    proof {
        assert(e2.take(e1.len() as int) == e1);
        lemma_exprs_match_concat(e1, p1.1, e2.skip(e1.len() as int), p2.1, 0);
        assert(e2 =~= e1 + e2.skip(e1.len() as int));
        assert(exprs_match(e2, p1.1 + p2.1, 0));
    }
    let t3 = scan_inline_pass(&t2, &mut exprs);
    let ghost e3 = exprs@;
    let ghost p3 = scan_inline(t2@, 0, p1.1.len() + p2.1.len());
    proof {
        assert(e3.take(e2.len() as int) == e2);
        lemma_exprs_match_concat(e2, p1.1 + p2.1, e3.skip(e2.len() as int), p3.1, 0);
        assert(e3 =~= e2 + e3.skip(e2.len() as int));
        assert(exprs_match(e3, (p1.1 + p2.1) + p3.1, 0));
    }
    let t4 = scan_pair_pass(&t3, &mut exprs, '\\', '(', '\\', ')', true);
    let ghost e4 = exprs@;
    let ghost p4 = scan_pairs(t3@, 0, p1.1.len() + p2.1.len() + p3.1.len(), '\\', '(', '\\', ')', true);
    proof {
        assert(e4.take(e3.len() as int) == e3);
        lemma_exprs_match_concat(e3, (p1.1 + p2.1) + p3.1, e4.skip(e3.len() as int), p4.1, 0);
        assert(e4 =~= e3 + e4.skip(e3.len() as int));
        assert(exprs_match(e4, ((p1.1 + p2.1) + p3.1) + p4.1, 0));
        assert(extract_math(content@).1 =~= ((p1.1 + p2.1) + p3.1) + p4.1);
        assert(extract_math(content@).0 == t4@);
    }
    (chars_to_string(&t4), exprs)
}

// ───────────────────────── math markup ─────────────────────────

/// The final markup for one span: a container marking display or inline math,
/// with the content re-wrapped in the canonical delimiters for its kind.
pub open spec fn math_html_seq(tex: Seq<char>, kind: MathKind) -> Seq<char> {
    match kind {
        MathKind::Block => "<div class=\"math-block\"><span class=\"katex-display\">$$"@ + tex
            + "$$</span></div>"@,
        MathKind::Inline => "<span class=\"math-inline\">$"@ + tex + "$</span>"@,
    }
}

/// Wraps a math expression in its HTML container; the client-side typesetter
/// only ever sees the two canonical delimiter forms.
pub fn generate_math_html(tex: &str, is_block: bool) -> (r: String)
    ensures
        r@ == math_html_seq(
            tex@,
            if is_block {
                MathKind::Block
            } else {
                MathKind::Inline
            },
        ),
{
    if is_block {
        let mut out = String::from_str("<div class=\"math-block\"><span class=\"katex-display\">$$");
        out.append(tex);
        out.append("$$</span></div>");
        out
    } else {
        let mut out = String::from_str("<span class=\"math-inline\">$");
        out.append(tex);
        out.append("$</span>");
        out
    }
}

// ───────────────────────── HTML escaping ─────────────────────────

pub open spec fn escape_char(c: char) -> Seq<char> {
    if c == '&' {
        seq!['&', 'a', 'm', 'p', ';']
    } else if c == '<' {
        seq!['&', 'l', 't', ';']
    } else if c == '>' {
        seq!['&', 'g', 't', ';']
    } else if c == '"' {
        seq!['&', 'q', 'u', 'o', 't', ';']
    } else if c == '\'' {
        seq!['&', '#', '3', '9', ';']
    } else {
        seq![c]
    }
}

pub open spec fn escape_html_seq(s: Seq<char>) -> Seq<char>
    decreases s.len(),
{
    if s.len() == 0 {
        Seq::empty()
    } else {
        escape_html_seq(s.drop_last()) + escape_char(s.last())
    }
}

/// Escapes the five HTML-special characters.
pub fn escape_html(s: &str) -> (r: String)
    ensures
        r@ == escape_html_seq(s@),
{
    let v = to_chars(s);
    let mut out: Vec<char> = Vec::new();
    let mut i: usize = 0;
    while i < v.len()
        invariant
            i <= v.len(),
            v@ == s@,
            out@ == escape_html_seq(v@.take(i as int)),
        decreases v.len() - i,
    {
        let c = v[i];
        if c == '&' {
            out.push('&');
            out.push('a');
            out.push('m');
            out.push('p');
            out.push(';');
        } else if c == '<' {
            out.push('&');
            out.push('l');
            out.push('t');
            out.push(';');
        } else if c == '>' {
            out.push('&');
            out.push('g');
            out.push('t');
            out.push(';');
        } else if c == '"' {
            out.push('&');
            out.push('q');
            out.push('u');
            out.push('o');
            out.push('t');
            out.push(';');
        } else if c == '\'' {
            out.push('&');
            out.push('#');
            out.push('3');
            out.push('9');
            out.push(';');
        } else {
            out.push(c);
        }
        proof {
            assert(v@.take(i as int + 1).drop_last() =~= v@.take(i as int));
            assert(v@.take(i as int + 1).last() == v@[i as int]);
            assert(out@ =~= escape_html_seq(v@.take(i as int + 1)));
        }
        i = i + 1;
    }
    proof {
        assert(v@.take(v@.len() as int) =~= v@);
    }
    chars_to_string(&out)
}

// ───────────────────────── structural-markup rendering ─────────────────────────

/// What the structural-markup renderer returns for a given input text: a pure
/// function of the text and the fixed extension options alone.
pub uninterp spec fn markdown_html_of(s: Seq<char>) -> Seq<char>;

/// Relies on pulldown-cmark's `Parser::new_ext` and `html::push_html` with
/// the strikethrough, table, footnote and task-list extensions enabled: the
/// produced fragment depends on the input text alone.
#[verifier::external_body]
fn markdown_to_html(content: &str) -> (r: String)
    ensures
        r@ == markdown_html_of(content@),
{
    let mut opts = pulldown_cmark::Options::empty();
    opts.insert(pulldown_cmark::Options::ENABLE_STRIKETHROUGH);
    opts.insert(pulldown_cmark::Options::ENABLE_TABLES);
    opts.insert(pulldown_cmark::Options::ENABLE_FOOTNOTES);
    opts.insert(pulldown_cmark::Options::ENABLE_TASKLISTS);
    let parser = pulldown_cmark::Parser::new_ext(content, opts);
    let mut out = String::new();
    pulldown_cmark::html::push_html(&mut out, parser);
    out
}

/// The rendered fragment once empty paragraphs are dropped.
pub open spec fn render_markdown_spec(s: Seq<char>) -> Seq<char> {
    replace_all_spec(
        replace_all_spec(markdown_html_of(s), "<p></p>"@, Seq::empty()),
        "<p>\n</p>"@,
        Seq::empty(),
    )
}

/// Renders structural markup (math already replaced by placeholders) to an
/// HTML fragment and drops empty paragraphs.
pub fn render_markdown(content: &str) -> (r: String)
    ensures
        r@ == render_markdown_spec(content@),
{
    proof {
        reveal_strlit("<p></p>");
        reveal_strlit("<p>\n</p>");
    }
    let html = markdown_to_html(content);
    let hv = to_chars(html.as_str());
    let p1 = to_chars("<p></p>");
    let empty: Vec<char> = Vec::new();
    let h1 = replace_all_vec(&hv, &p1, &empty);
    let p2 = to_chars("<p>\n</p>");
    let h2 = replace_all_vec(&h1, &p2, &empty);
    chars_to_string(&h2)
}

// ───────────────────────── resynthesis ─────────────────────────

/// Resynthesis over the executable span list: for each span in order, the
/// first occurrence of its placeholder (if any) is replaced by its math
/// markup; a missing placeholder leaves the text unchanged for that span.
pub open spec fn resynth_exprs(h: Seq<char>, es: Seq<MathExpr>, i: nat) -> Seq<char>
    decreases es.len() - i,
{
    if i >= es.len() {
        h
    } else {
        resynth_exprs(
            replace_first_spec(h, es[i as int].placeholder@, math_html_seq(es[i as int].content@, es[i as int].kind)),
            es,
            i + 1,
        )
    }
}

/// Resynthesis over span models, with placeholders determined by position.
pub open spec fn resynth_spans(h: Seq<char>, sps: Seq<Span>, base: nat, i: nat) -> Seq<char>
    decreases sps.len() - i,
{
    if i >= sps.len() {
        h
    } else {
        resynth_spans(
            replace_first_spec(
                h,
                placeholder_seq(sps[i as int].kind, (base + i) as nat),
                math_html_seq(sps[i as int].content, sps[i as int].kind),
            ),
            sps,
            base,
            i + 1,
        )
    }
}

proof fn lemma_resynth_match(h: Seq<char>, es: Seq<MathExpr>, sps: Seq<Span>, base: nat, i: nat)
    requires
        exprs_match(es, sps, base),
        i <= es.len(),
    ensures
        resynth_exprs(h, es, i) == resynth_spans(h, sps, base, i),
    decreases es.len() - i,
{
    if i < es.len() {
        assert(expr_models(es[i as int], sps[i as int], (base + i) as nat));
        lemma_resynth_match(
            replace_first_spec(h, es[i as int].placeholder@, math_html_seq(es[i as int].content@, es[i as int].kind)),
            es,
            sps,
            base,
            i + 1,
        );
    }
}

/// Substitutes each span's placeholder in `rendered` with its math markup:
/// exactly the first occurrence, never a global replace, and a no-op for a
/// span whose placeholder is absent.
pub fn resynthesize(rendered: &str, exprs: &Vec<MathExpr>) -> (r: String)
    ensures
        r@ == resynth_exprs(rendered@, exprs@, 0),
{
    let mut cur = to_chars(rendered);
    let mut k: usize = 0;
    while k < exprs.len()
        invariant
            k <= exprs.len(),
            resynth_exprs(rendered@, exprs@, 0) == resynth_exprs(cur@, exprs@, k as nat),
        decreases exprs.len() - k,
    {
        let e = &exprs[k];
        let is_block = match e.kind {
            MathKind::Block => true,
            MathKind::Inline => false,
        };
        let html = generate_math_html(e.content.as_str(), is_block);
        let ph = to_chars(e.placeholder.as_str());
        let hv = to_chars(html.as_str());
        cur = replace_first_vec(&cur, &ph, &hv);
        k = k + 1;
    }
    chars_to_string(&cur)
}

// ───────────────────────── the full pipeline ─────────────────────────

/// The whole pipeline on one text: extract math spans, render the remaining
/// structural markup, and substitute the math markup back in.
pub open spec fn render_spec(s: Seq<char>) -> Seq<char> {
    let m = extract_math(s);
    resynth_spans(render_markdown_spec(m.0), m.1, 0, 0)
}

/// Extract math, render structural markup, restore math.
pub fn render(content: &str) -> (r: String)
    ensures
        r@ == render_spec(content@),
{
    let (processed, exprs) = process_math_expressions(content);
    let html = render_markdown(processed.as_str());
    let out = resynthesize(html.as_str(), &exprs);
    proof {
        let m = extract_math(content@);
        lemma_resynth_match(html@, exprs@, m.1, 0, 0);
    }
    out
}

// ───────────────────────── stated laws ─────────────────────────

proof fn lemma_find_pair_none_when_absent(s: Seq<char>, from: nat, a: char, b: char)
    requires
        !s.contains(a),
    ensures
        find_pair(s, from, a, b) is None,
    decreases s.len() - from,
{
    if from + 1 < s.len() {
        assert(s[from as int] != a);
        lemma_find_pair_none_when_absent(s, from + 1, a, b);
    }
}

proof fn lemma_scan_inline_id(s: Seq<char>, i: nat, base: nat)
    requires
        i <= s.len(),
        forall|k: nat| inline_opener(s, k) ==> find_closer(s, k + 1) is None,
    ensures
        scan_inline(s, i, base) == (s.subrange(i as int, s.len() as int), Seq::<Span>::empty()),
    decreases s.len() - i,
{
    if i >= s.len() {
        assert(s.subrange(i as int, s.len() as int) =~= Seq::<char>::empty());
    } else {
        lemma_scan_inline_id(s, i + 1, base);
        assert(seq![s[i as int]] + s.subrange(i as int + 1, s.len() as int) =~= s.subrange(
            i as int,
            s.len() as int,
        ));
        if inline_opener(s, i) {
            assert(find_closer(s, i + 1) is None);
            assert(s[i as int] == '$');
        }
    }
}

/// A text in which none of the four delimiter forms occurs — no `$$` token,
/// no `\[`, no `\(`, and no accepted single-dollar opener with a valid closer
/// — scans to itself with an empty span list.
pub proof fn lemma_no_delimiters_unchanged(s: Seq<char>)
    requires
        find_pair(s, 0, '$', '$') is None,
        find_pair(s, 0, '\\', '[') is None,
        find_pair(s, 0, '\\', '(') is None,
        forall|k: nat| inline_opener(s, k) ==> find_closer(s, k + 1) is None,
    ensures
        extract_math(s).0 == s,
        extract_math(s).1 == Seq::<Span>::empty(),
{
    assert(s.subrange(0, s.len() as int) =~= s);
    lemma_scan_inline_id(s, 0, 0);
    assert(extract_math(s).1 =~= Seq::<Span>::empty());
}

/// In particular, a text without any `$` or backslash at all scans to itself
/// with an empty span list.
pub proof fn lemma_no_delimiter_chars_unchanged(s: Seq<char>)
    requires
        !s.contains('$'),
        !s.contains('\\'),
    ensures
        extract_math(s).0 == s,
        extract_math(s).1 == Seq::<Span>::empty(),
{
    lemma_find_pair_none_when_absent(s, 0, '$', '$');
    lemma_find_pair_none_when_absent(s, 0, '\\', '[');
    lemma_find_pair_none_when_absent(s, 0, '\\', '(');
    assert forall|k: nat| inline_opener(s, k) implies find_closer(s, k + 1) is None by {
        if k < s.len() {
            assert(s[k as int] == '$');
            assert(s.contains('$'));
        } else {
            assert(find_closer(s, k + 1) is None);
        }
    }
    lemma_no_delimiters_unchanged(s);
}

/// Scanning is deterministic: two scans of one input yield one result; with
/// the executable scanner's contract this pins two runs to the same text,
/// spans and placeholders.
pub proof fn lemma_scan_deterministic(
    s: Seq<char>,
    t1: Seq<char>,
    e1: Seq<Span>,
    t2: Seq<char>,
    e2: Seq<Span>,
)
    requires
        (t1, e1) == extract_math(s),
        (t2, e2) == extract_math(s),
    ensures
        t1 == t2,
        e1 == e2,
{
}

proof fn lemma_placeholder_seq_distinct(ka: MathKind, ia: nat, kb: MathKind, ib: nat)
    requires
        ia != ib,
    ensures
        placeholder_seq(ka, ia) != placeholder_seq(kb, ib),
{
    lemma_dec_rep_len(ia);
    lemma_dec_rep_len(ib);
    if placeholder_seq(ka, ia) == placeholder_seq(kb, ib) {
        if ka == kb {
            let pre = 9 + kind_tag(ka).len() + 1;
            assert(placeholder_seq(ka, ia).len() == pre + dec_rep(ia).len() + 3);
            assert(placeholder_seq(kb, ib).len() == pre + dec_rep(ib).len() + 3);
            assert(dec_rep(ia).len() == dec_rep(ib).len());
            assert(dec_rep(ia) =~= placeholder_seq(ka, ia).subrange(
                pre as int,
                pre as int + dec_rep(ia).len() as int,
            ));
            assert(dec_rep(ib) =~= placeholder_seq(kb, ib).subrange(
                pre as int,
                pre as int + dec_rep(ib).len() as int,
            ));
            lemma_dec_rep_injective(ia, ib);
        } else {
            assert(placeholder_seq(ka, ia)[9] == kind_tag(ka)[0]);
            assert(placeholder_seq(kb, ib)[9] == kind_tag(kb)[0]);
        }
    }
}

/// Placeholder tokens are unique within one run: spans standing at two
/// distinct positions of the extracted list carry different tokens.
pub proof fn lemma_placeholders_unique(
    es: Seq<MathExpr>,
    sps: Seq<Span>,
    base: nat,
    i: int,
    j: int,
)
    requires
        exprs_match(es, sps, base),
        0 <= i < es.len(),
        0 <= j < es.len(),
        i != j,
    ensures
        es[i].placeholder@ != es[j].placeholder@,
{
    assert(expr_models(es[i], sps[i], (base + i) as nat));
    assert(expr_models(es[j], sps[j], (base + j) as nat));
    lemma_placeholder_seq_distinct(sps[i].kind, (base + i) as nat, sps[j].kind, (base + j) as nat);
}

proof fn lemma_scan_pairs_trimmed(
    s: Seq<char>,
    from: nat,
    base: nat,
    oa: char,
    ob: char,
    ca: char,
    cb: char,
    classify: bool,
)
    ensures
        forall|t: int|
            0 <= t < scan_pairs(s, from, base, oa, ob, ca, cb, classify).1.len() ==> trim_spec(
                #[trigger] scan_pairs(s, from, base, oa, ob, ca, cb, classify).1[t].content,
            ) == scan_pairs(s, from, base, oa, ob, ca, cb, classify).1[t].content,
    decreases s.len() - from,
{
    match find_pair(s, from, oa, ob) {
        None => {},
        Some(o) => match find_pair(s, (o + 2) as nat, ca, cb) {
            None => {},
            Some(c) => {
                lemma_find_pair_some(s, from, oa, ob);
                lemma_find_pair_some(s, (o + 2) as nat, ca, cb);
                lemma_trim_idempotent(s.subrange(o as int + 2, c as int));
                lemma_scan_pairs_trimmed(s, (c + 2) as nat, (base + 1) as nat, oa, ob, ca, cb, classify);
            },
        },
    }
}

proof fn lemma_scan_inline_trimmed(s: Seq<char>, i: nat, base: nat)
    ensures
        forall|t: int|
            0 <= t < scan_inline(s, i, base).1.len() ==> trim_spec(
                #[trigger] scan_inline(s, i, base).1[t].content,
            ) == scan_inline(s, i, base).1[t].content,
    decreases s.len() - i,
{
    if i < s.len() {
        if inline_opener(s, i) {
            match find_closer(s, i + 1) {
                Some(j) => {
                    lemma_find_closer_some(s, i + 1);
                    lemma_trim_idempotent(s.subrange(i as int + 1, j as int));
                    lemma_scan_inline_trimmed(s, (j + 1) as nat, (base + 1) as nat);
                },
                None => {
                    lemma_scan_inline_trimmed(s, i + 1, base);
                },
            }
        } else {
            lemma_scan_inline_trimmed(s, i + 1, base);
        }
    }
}

/// A sequence without a token has no token in any of its subranges.
proof fn lemma_subrange_token_free(s: Seq<char>, lo: int, hi: int, ca: char, cb: char)
    requires
        0 <= lo <= hi <= s.len(),
        forall|k: nat| lo <= k < hi - 1 ==> !(#[trigger] s[k as int] == ca && s[k as int + 1]
            == cb),
    ensures
        forall|k: nat|
            k + 1 < s.subrange(lo, hi).len() ==> !(#[trigger] s.subrange(lo, hi)[k as int] == ca
                && s.subrange(lo, hi)[k as int + 1] == cb),
{
    assert forall|k: nat| k + 1 < s.subrange(lo, hi).len() implies !(#[trigger] s.subrange(lo, hi)[
        k as int] == ca && s.subrange(lo, hi)[k as int + 1] == cb) by {
        assert(s.subrange(lo, hi)[k as int] == s[lo + k]);
        assert(s.subrange(lo, hi)[k as int + 1] == s[lo + k + 1]);
        assert(!(s[(lo + k) as nat as int] == ca && s[(lo + k) as nat as int + 1] == cb));
    }
}

/// A pair-delimited span's content never contains the closing token that
/// produced it: the close token chosen is the nearest one, so none stands
/// between the delimiters, and trimming only narrows the region.
pub proof fn lemma_pair_content_no_close_token(
    s: Seq<char>,
    from: nat,
    base: nat,
    oa: char,
    ob: char,
    ca: char,
    cb: char,
    classify: bool,
    t: int,
)
    requires
        0 <= t < scan_pairs(s, from, base, oa, ob, ca, cb, classify).1.len(),
    ensures
        ({
            let content = scan_pairs(s, from, base, oa, ob, ca, cb, classify).1[t].content;
            forall|k: nat|
                k + 1 < content.len() ==> !(#[trigger] content[k as int] == ca && content[k as int
                    + 1] == cb)
        }),
    decreases s.len() - from,
{
    match find_pair(s, from, oa, ob) {
        None => {},
        Some(o) => match find_pair(s, (o + 2) as nat, ca, cb) {
            None => {},
            Some(c) => {
                lemma_find_pair_some(s, from, oa, ob);
                lemma_find_pair_some(s, (o + 2) as nat, ca, cb);
                if t == 0 {
                    lemma_find_pair_first(s, (o + 2) as nat, ca, cb);
                    let raw = s.subrange(o as int + 2, c as int);
                    lemma_subrange_token_free(s, o as int + 2, c as int, ca, cb);
                    let content = scan_pairs(s, from, base, oa, ob, ca, cb, classify).1[t].content;
                    assert(content == trim_spec(raw));
                    lemma_ws_prefix_end(raw, 0);
                    if ws_prefix_end(raw, 0) < raw.len() {
                        lemma_trim_bounds(raw);
                        lemma_subrange_token_free(
                            raw,
                            ws_prefix_end(raw, 0) as int,
                            ws_suffix_start(raw, raw.len()) as int,
                            ca,
                            cb,
                        );
                        assert(content == raw.subrange(
                            ws_prefix_end(raw, 0) as int,
                            ws_suffix_start(raw, raw.len()) as int,
                        ));
                        assert forall|k: nat|
                            k + 1 < content.len() implies !(#[trigger] content[k as int] == ca
                            && content[k as int + 1] == cb) by {
                            assert(!(raw.subrange(
                                ws_prefix_end(raw, 0) as int,
                                ws_suffix_start(raw, raw.len()) as int,
                            )[k as int] == ca && raw.subrange(
                                ws_prefix_end(raw, 0) as int,
                                ws_suffix_start(raw, raw.len()) as int,
                            )[k as int + 1] == cb));
                        }
                    } else {
                        assert(content.len() == 0);
                    }
                } else {
                    lemma_pair_content_no_close_token(
                        s,
                        (c + 2) as nat,
                        (base + 1) as nat,
                        oa,
                        ob,
                        ca,
                        cb,
                        classify,
                        t - 1,
                    );
                }
            },
        },
    }
}

/// Every extracted span's content is stored trimmed: trimming it again
/// changes nothing.
pub proof fn lemma_span_content_trimmed(s: Seq<char>, t: int)
    requires
        0 <= t < extract_math(s).1.len(),
    ensures
        trim_spec(extract_math(s).1[t].content) == extract_math(s).1[t].content,
{
    let p1 = scan_pairs(s, 0, 0, '$', '$', '$', '$', false);
    let p2 = scan_pairs(p1.0, 0, p1.1.len(), '\\', '[', '\\', ']', false);
    let p3 = scan_inline(p2.0, 0, p1.1.len() + p2.1.len());
    let p4 = scan_pairs(p3.0, 0, p1.1.len() + p2.1.len() + p3.1.len(), '\\', '(', '\\', ')', true);
    lemma_scan_pairs_trimmed(s, 0, 0, '$', '$', '$', '$', false);
    lemma_scan_pairs_trimmed(p1.0, 0, p1.1.len(), '\\', '[', '\\', ']', false);
    lemma_scan_inline_trimmed(p2.0, 0, p1.1.len() + p2.1.len());
    lemma_scan_pairs_trimmed(p3.0, 0, p1.1.len() + p2.1.len() + p3.1.len(), '\\', '(', '\\', ')', true);
}

} // verus!
