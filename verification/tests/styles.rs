use md2pdf::config::{
    chinese_font_family, font_size_px, font_weight_value, line_spacing_value, math_spacing_value,
    normalize_with_unit, paragraph_spacing_value, StyleOptions,
};
use md2pdf::converter::{file_url, AppError};
use md2pdf::katex_assets::{find_font_refs, font_data_url, font_mime_type, inline_fonts};
use md2pdf::template::{generate_html_document, get_css_styles};
use md2pdf::textops::{replace_all_vec, replace_first_vec};

fn opts(font_size: &str) -> StyleOptions {
    StyleOptions {
        font_size: font_size.to_string(),
        chinese_font: "simsun".to_string(),
        font_weight: "medium".to_string(),
        line_spacing: "normal".to_string(),
        paragraph_spacing: "1em".to_string(),
        math_spacing: "20px".to_string(),
    }
}

#[test]
fn font_size_presets() {
    assert_eq!(font_size_px("small"), "12px");
    assert_eq!(font_size_px("medium"), "14px");
    assert_eq!(font_size_px("large"), "16px");
    assert_eq!(font_size_px("xlarge"), "18px");
    assert_eq!(font_size_px("15px"), "15px");
}

#[test]
fn font_weight_presets() {
    assert_eq!(font_weight_value("light"), "300");
    assert_eq!(font_weight_value("normal"), "400");
    assert_eq!(font_weight_value("medium"), "500");
    assert_eq!(font_weight_value("semibold"), "600");
    assert_eq!(font_weight_value("bold"), "700");
    assert_eq!(font_weight_value("black"), "900");
    assert_eq!(font_weight_value("450"), "450");
}

#[test]
fn chinese_font_presets() {
    assert_eq!(chinese_font_family("simsun"), "SimSun, \"宋体\", serif");
    assert_eq!(chinese_font_family("simhei"), "SimHei, \"黑体\", sans-serif");
    assert_eq!(
        chinese_font_family("yahei"),
        "\"Microsoft YaHei\", \"微软雅黑\", sans-serif"
    );
    // Anything unrecognized gets the automatic stack.
    assert!(chinese_font_family("auto").starts_with("-apple-system"));
    assert!(chinese_font_family("whatever").starts_with("-apple-system"));
}

#[test]
fn spacing_presets() {
    assert_eq!(line_spacing_value("tight"), "1.2");
    assert_eq!(line_spacing_value("relaxed"), "2.4");
    assert_eq!(line_spacing_value("1.8"), "1.8");
    assert_eq!(paragraph_spacing_value("tight"), "0.5em");
    assert_eq!(paragraph_spacing_value("loose"), "1.5em");
    assert_eq!(math_spacing_value("normal"), "20px");
    assert_eq!(math_spacing_value("35px"), "35px");
}

#[test]
fn normalize_appends_unit_to_numbers() {
    assert_eq!(normalize_with_unit("20", "mm"), "20mm");
    assert_eq!(normalize_with_unit(" 14 ", "px"), "14px");
    assert_eq!(normalize_with_unit("1.5", "em"), "1.5em");
    assert_eq!(normalize_with_unit("-2.5", "px"), "-2.5px");
    assert_eq!(normalize_with_unit("1e3", "px"), "1e3px");
    assert_eq!(normalize_with_unit(".5", "em"), ".5em");
    assert_eq!(normalize_with_unit("5.", "em"), "5.em");
    assert_eq!(normalize_with_unit("nan", "px"), "nanpx");
    assert_eq!(normalize_with_unit("INF", "px"), "INFpx");
    assert_eq!(normalize_with_unit("infinity", "px"), "infinitypx");
}

#[test]
fn normalize_leaves_non_numbers_alone() {
    assert_eq!(normalize_with_unit("20mm", "mm"), "20mm");
    assert_eq!(normalize_with_unit("abc", "px"), "abc");
    assert_eq!(normalize_with_unit("", "px"), "");
    assert_eq!(normalize_with_unit("1.2.3", "px"), "1.2.3");
    assert_eq!(normalize_with_unit("5e", "px"), "5e");
    assert_eq!(normalize_with_unit(".", "px"), ".");
    assert_eq!(normalize_with_unit("+", "px"), "+");
}

#[test]
fn css_contains_resolved_values() {
    let css = get_css_styles(&opts("medium"));
    assert!(css.contains("font-size: 14px;"));
    assert!(css.contains("font-weight: 500;"));
    assert!(css.contains("line-height: 1.6;"));
    assert!(css.contains("font-family: SimSun, \"宋体\", serif;"));
    assert!(css.contains("margin-bottom: 1em;"));
    assert!(css.contains("margin: 20px 0;"));
}

#[test]
fn css_print_size_is_three_quarters() {
    assert!(get_css_styles(&opts("medium")).contains("font-size: 10.5pt;"));
    assert!(get_css_styles(&opts("small")).contains("font-size: 9pt;"));
    assert!(get_css_styles(&opts("16px")).contains("font-size: 12pt;"));
    assert!(get_css_styles(&opts("xlarge")).contains("font-size: 13.5pt;"));
    assert!(get_css_styles(&opts("13px")).contains("font-size: 9.75pt;"));
    assert!(get_css_styles(&opts("0px")).contains("font-size: 0pt;"));
    // An unparsable size falls back to the default print size.
    assert!(get_css_styles(&opts("weird")).contains("font-size: 10.5pt;"));
}

#[test]
fn css_print_size_handles_exponent_forms() {
    assert!(get_css_styles(&opts("1e3px")).contains("font-size: 750pt;"));
    assert!(get_css_styles(&opts("1.5e2px")).contains("font-size: 112.5pt;"));
    assert!(get_css_styles(&opts("5e-1px")).contains("font-size: 0.375pt;"));
    assert!(get_css_styles(&opts("2E1px")).contains("font-size: 15pt;"));
}

#[test]
fn html_document_wraps_everything() {
    let doc = generate_html_document(
        "<p>body</p>",
        "My Title",
        "/*css*/",
        "/*js*/",
        "/*auto*/",
        &opts("medium"),
    );
    assert!(doc.starts_with("<!DOCTYPE html>"));
    assert!(doc.contains("<title>My Title</title>"));
    assert!(doc.contains("<p>body</p>"));
    assert!(doc.contains("/*css*/"));
    assert!(doc.contains("/*js*/"));
    assert!(doc.contains("/*auto*/"));
    assert!(doc.contains("render-complete"));
    assert!(doc.ends_with("</html>"));
}

#[test]
fn mime_types_by_extension() {
    assert_eq!(font_mime_type("a.woff2"), "font/woff2");
    assert_eq!(font_mime_type("a.woff"), "font/woff");
    assert_eq!(font_mime_type("a.ttf"), "font/ttf");
    assert_eq!(font_mime_type("other"), "font/ttf");
}

#[test]
fn data_url_encodes_bytes() {
    let url = font_data_url("x.woff2", &vec![b'a', b'b', b'c']);
    assert_eq!(url, "data:font/woff2;base64,YWJj");
    let url2 = font_data_url("x.ttf", &vec![b'a', b'b']);
    assert_eq!(url2, "data:font/ttf;base64,YWI=");
}

#[test]
fn find_font_refs_lists_references_in_order() {
    let css = "x url(fonts/a.woff2) y url(fonts/b.ttf) z";
    let refs = find_font_refs(css);
    assert_eq!(refs, vec!["a.woff2".to_string(), "b.ttf".to_string()]);
}

#[test]
fn find_font_refs_skips_empty_and_unclosed() {
    assert_eq!(find_font_refs("url(fonts/) url(fonts/c.ttf)"), vec!["c.ttf".to_string()]);
    assert_eq!(find_font_refs("url(fonts/never-closed").len(), 0);
    assert_eq!(find_font_refs("no references at all").len(), 0);
}

#[test]
fn inline_fonts_replaces_first_reference() {
    let css = "a{src:url(fonts/f.ttf)} b{src:url(fonts/f.ttf)}";
    let fonts = vec![("f.ttf".to_string(), vec![b'a', b'b'])];
    let out = inline_fonts(css, &fonts);
    assert_eq!(
        out,
        "a{src:url(data:font/ttf;base64,YWI=)} b{src:url(fonts/f.ttf)}"
    );
}

#[test]
fn inline_fonts_with_no_fonts_is_identity() {
    let css = "a{src:url(fonts/f.ttf)}";
    assert_eq!(inline_fonts(css, &vec![]), css);
}

#[test]
fn file_url_shapes() {
    assert_eq!(file_url("/tmp/a.html"), "file:///tmp/a.html");
    assert_eq!(file_url("rel/a.html"), "file:///rel/a.html");
    assert_eq!(file_url("C:\\docs\\a.html"), "file:///C:/docs/a.html");
}

#[test]
fn app_error_messages() {
    assert_eq!(AppError::Io("gone".to_string()).message(), "IO error: gone");
    assert_eq!(
        AppError::Browser("no tab".to_string()).message(),
        "Browser error: no tab"
    );
    assert_eq!(AppError::Pdf("bad".to_string()).message(), "PDF error: bad");
}

#[test]
fn replace_first_only_touches_one() {
    let v: Vec<char> = "aXbXc".chars().collect();
    let pat: Vec<char> = "X".chars().collect();
    let repl: Vec<char> = "YY".chars().collect();
    let out: String = replace_first_vec(&v, &pat, &repl).into_iter().collect();
    assert_eq!(out, "aYYbXc");
}

#[test]
fn replace_all_touches_every_one() {
    let v: Vec<char> = "aXbXc".chars().collect();
    let pat: Vec<char> = "X".chars().collect();
    let repl: Vec<char> = "YY".chars().collect();
    let out: String = replace_all_vec(&v, &pat, &repl).into_iter().collect();
    assert_eq!(out, "aYYbYYc");
}
