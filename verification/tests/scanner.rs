use md2pdf::renderer::{
    escape_html, generate_math_html, process_math_expressions, render, render_markdown,
    resynthesize, MathExpr, MathKind,
};

fn is_block(k: &MathKind) -> bool {
    matches!(k, MathKind::Block)
}

#[test]
fn no_delimiters_input_unchanged() {
    let input = "hello world, nothing mathematical here.";
    let (text, exprs) = process_math_expressions(input);
    assert_eq!(text, input);
    assert_eq!(exprs.len(), 0);
}

#[test]
fn escaped_dollars_yield_no_spans() {
    let input = "\\$5 and \\$10";
    let (text, exprs) = process_math_expressions(input);
    assert_eq!(text, input);
    assert_eq!(exprs.len(), 0);
}

#[test]
fn precedence_block_before_inline() {
    let (text, exprs) = process_math_expressions("$$ x $$ $y$");
    assert_eq!(exprs.len(), 2);
    assert!(is_block(&exprs[0].kind));
    assert_eq!(exprs[0].content, "x");
    assert_eq!(exprs[0].placeholder, "<!--MATH_BLOCK_0-->");
    assert!(!is_block(&exprs[1].kind));
    assert_eq!(exprs[1].content, "y");
    assert_eq!(exprs[1].placeholder, "<!--MATH_INLINE_1-->");
    assert_eq!(text, "<!--MATH_BLOCK_0--> <!--MATH_INLINE_1-->");
}

#[test]
fn newline_promotes_inline_to_block() {
    let (text, exprs) = process_math_expressions("$a\nb$");
    assert_eq!(exprs.len(), 1);
    assert!(is_block(&exprs[0].kind));
    assert_eq!(exprs[0].content, "a\nb");
    assert_eq!(exprs[0].placeholder, "<!--MATH_BLOCK_0-->");
    assert_eq!(text, "<!--MATH_BLOCK_0-->");
}

#[test]
fn promotion_is_judged_on_trimmed_content() {
    // A newline that trimming removes does not promote the span.
    let (_, exprs) = process_math_expressions("$a\n$");
    assert_eq!(exprs.len(), 1);
    assert!(!is_block(&exprs[0].kind));
    assert_eq!(exprs[0].content, "a");
    assert_eq!(exprs[0].placeholder, "<!--MATH_INLINE_0-->");
    // A newline inside the trimmed content does.
    let (_, exprs2) = process_math_expressions("$  a\nb  $");
    assert_eq!(exprs2.len(), 1);
    assert!(is_block(&exprs2[0].kind));
    assert_eq!(exprs2[0].content, "a\nb");
}

#[test]
fn unterminated_inline_is_literal() {
    let input = "$unterminated";
    let (text, exprs) = process_math_expressions(input);
    assert_eq!(text, input);
    assert_eq!(exprs.len(), 0);
}

#[test]
fn round_trip_block_math() {
    let (text, exprs) = process_math_expressions("$$ x^2 $$");
    assert_eq!(text, "<!--MATH_BLOCK_0-->");
    assert_eq!(exprs.len(), 1);
    assert_eq!(exprs[0].content, "x^2");
    // A renderer that passes placeholders through unchanged: identity.
    let out = resynthesize(&text, &exprs);
    assert_eq!(
        out,
        "<div class=\"math-block\"><span class=\"katex-display\">$$x^2$$</span></div>"
    );
    // Stripping the wrapper markup leaves the canonical delimiters and content.
    let inner = out
        .strip_prefix("<div class=\"math-block\"><span class=\"katex-display\">")
        .unwrap()
        .strip_suffix("</span></div>")
        .unwrap();
    assert_eq!(inner, "$$x^2$$");
}

#[test]
fn scanning_is_deterministic() {
    let input = "$$a$$ text $b$ more \\(c\\) and \\[d\\]";
    let (t1, e1) = process_math_expressions(input);
    let (t2, e2) = process_math_expressions(input);
    assert_eq!(t1, t2);
    assert_eq!(e1.len(), e2.len());
    for k in 0..e1.len() {
        assert_eq!(e1[k].content, e2[k].content);
        assert_eq!(e1[k].placeholder, e2[k].placeholder);
        assert_eq!(is_block(&e1[k].kind), is_block(&e2[k].kind));
    }
}

#[test]
fn block_content_is_trimmed_and_rescan_is_clean() {
    let (_, exprs) = process_math_expressions("$$\n\n  x + y  \n\n$$");
    assert_eq!(exprs.len(), 1);
    assert_eq!(exprs[0].content, "x + y");
    // Re-running extraction on the extracted content alone finds nothing.
    let (again_text, again_exprs) = process_math_expressions(&exprs[0].content);
    assert_eq!(again_text, "x + y");
    assert_eq!(again_exprs.len(), 0);
}

#[test]
fn bracket_form_is_block() {
    let (text, exprs) = process_math_expressions("a \\[ e = mc^2 \\] b");
    assert_eq!(exprs.len(), 1);
    assert!(is_block(&exprs[0].kind));
    assert_eq!(exprs[0].content, "e = mc^2");
    assert_eq!(text, "a <!--MATH_BLOCK_0--> b");
}

#[test]
fn paren_form_is_inline_unless_multiline() {
    let (_, exprs) = process_math_expressions("\\(y\\) and \\(a\nb\\)");
    assert_eq!(exprs.len(), 2);
    assert!(!is_block(&exprs[0].kind));
    assert_eq!(exprs[0].content, "y");
    assert!(is_block(&exprs[1].kind));
    assert_eq!(exprs[1].content, "a\nb");
}

#[test]
fn stray_single_dollar_inside_block_is_kept() {
    let (text, exprs) = process_math_expressions("$$a $ b$$");
    assert_eq!(exprs.len(), 1);
    assert!(is_block(&exprs[0].kind));
    assert_eq!(exprs[0].content, "a $ b");
    assert_eq!(text, "<!--MATH_BLOCK_0-->");
}

#[test]
fn double_dollar_run_inside_inline_candidate() {
    let (text, exprs) = process_math_expressions("$a $$ b$");
    assert_eq!(exprs.len(), 1);
    assert!(!is_block(&exprs[0].kind));
    assert_eq!(exprs[0].content, "a $$ b");
    assert_eq!(text, "<!--MATH_INLINE_0-->");
}

#[test]
fn multibyte_characters_survive_scanning() {
    let (text, exprs) = process_math_expressions("数学 $é ∑$ 公式");
    assert_eq!(exprs.len(), 1);
    assert_eq!(exprs[0].content, "é ∑");
    assert_eq!(text, "数学 <!--MATH_INLINE_0--> 公式");
}

#[test]
fn empty_input_scans_to_empty() {
    let (text, exprs) = process_math_expressions("");
    assert_eq!(text, "");
    assert_eq!(exprs.len(), 0);
}

#[test]
fn placeholder_indices_run_across_all_passes() {
    let (text, exprs) = process_math_expressions("$$a$$ \\[b\\] $c$ \\(d\\)");
    assert_eq!(exprs.len(), 4);
    assert_eq!(exprs[0].placeholder, "<!--MATH_BLOCK_0-->");
    assert_eq!(exprs[1].placeholder, "<!--MATH_BLOCK_1-->");
    assert_eq!(exprs[2].placeholder, "<!--MATH_INLINE_2-->");
    assert_eq!(exprs[3].placeholder, "<!--MATH_INLINE_3-->");
    assert_eq!(exprs[0].content, "a");
    assert_eq!(exprs[1].content, "b");
    assert_eq!(exprs[2].content, "c");
    assert_eq!(exprs[3].content, "d");
    assert_eq!(
        text,
        "<!--MATH_BLOCK_0--> <!--MATH_BLOCK_1--> <!--MATH_INLINE_2--> <!--MATH_INLINE_3-->"
    );
}

#[test]
fn unterminated_block_forms_stay_literal() {
    let (text, exprs) = process_math_expressions("$$ only one pair");
    assert_eq!(text, "$$ only one pair");
    assert_eq!(exprs.len(), 0);
    let (text2, exprs2) = process_math_expressions("\\[ never closed");
    assert_eq!(text2, "\\[ never closed");
    assert_eq!(exprs2.len(), 0);
}

#[test]
fn empty_block_content() {
    let (text, exprs) = process_math_expressions("$$$$");
    assert_eq!(exprs.len(), 1);
    assert_eq!(exprs[0].content, "");
    assert_eq!(text, "<!--MATH_BLOCK_0-->");
}

#[test]
fn generate_math_html_block_and_inline() {
    assert_eq!(
        generate_math_html("x^2", true),
        "<div class=\"math-block\"><span class=\"katex-display\">$$x^2$$</span></div>"
    );
    assert_eq!(
        generate_math_html("y", false),
        "<span class=\"math-inline\">$y$</span>"
    );
}

#[test]
fn escape_html_all_specials() {
    assert_eq!(escape_html("&<>\"'"), "&amp;&lt;&gt;&quot;&#39;");
    assert_eq!(escape_html("plain"), "plain");
    assert_eq!(escape_html("a<b & c>d"), "a&lt;b &amp; c&gt;d");
}

#[test]
fn resynthesize_replaces_exactly_one_occurrence() {
    let exprs = vec![MathExpr {
        kind: MathKind::Inline,
        content: "x".to_string(),
        placeholder: "<!--MATH_INLINE_0-->".to_string(),
    }];
    let rendered = "<!--MATH_INLINE_0--> and again <!--MATH_INLINE_0-->";
    let out = resynthesize(rendered, &exprs);
    assert_eq!(
        out,
        "<span class=\"math-inline\">$x$</span> and again <!--MATH_INLINE_0-->"
    );
}

#[test]
fn resynthesize_missing_placeholder_is_noop() {
    let exprs = vec![MathExpr {
        kind: MathKind::Block,
        content: "x".to_string(),
        placeholder: "<!--MATH_BLOCK_0-->".to_string(),
    }];
    let out = resynthesize("the renderer ate it", &exprs);
    assert_eq!(out, "the renderer ate it");
}

#[test]
fn render_markdown_basic_heading() {
    let html = render_markdown("# Title");
    assert_eq!(html, "<h1>Title</h1>\n");
}

#[test]
fn render_markdown_passes_placeholders_through() {
    let html = render_markdown("before <!--MATH_BLOCK_0--> after");
    assert!(html.contains("<!--MATH_BLOCK_0-->"));
}

#[test]
fn render_full_pipeline_block_math() {
    let html = render("$$ x^2 $$");
    assert!(html.contains(
        "<div class=\"math-block\"><span class=\"katex-display\">$$x^2$$</span></div>"
    ));
}

#[test]
fn render_full_pipeline_mixed() {
    let html = render("# H\n\nText with $a+b$ inline.");
    assert!(html.contains("<h1>H</h1>"));
    assert!(html.contains("<span class=\"math-inline\">$a+b$</span>"));
}
