use font_icons_scraper::stylesheet::{extract_font_urls, extract_imports};

fn chars(s: &str) -> Vec<char> {
    s.chars().collect()
}

fn strings(vs: Vec<Vec<char>>) -> Vec<String> {
    vs.into_iter().map(|v| v.into_iter().collect()).collect()
}

#[test]
fn extractor_keeps_only_matching_extension() {
    let css = chars(
        "@font-face { font-family: X; src: url(a.woff) format(\"woff\"), url(\"b.ttf\"); }",
    );
    assert_eq!(strings(extract_font_urls(&css)), vec!["b.ttf".to_string()]);
}

#[test]
fn extractor_never_emits_other_extensions() {
    let css = chars("@font-face { src: url(a.woff2), url(b.eot), url(c.svg); }");
    assert_eq!(strings(extract_font_urls(&css)), Vec::<String>::new());
}

#[test]
fn extractor_suppresses_duplicates() {
    let css = chars(
        "@font-face { src: url(\"x.ttf\"); }\n@font-face { src: url(\"x.ttf\"); }",
    );
    assert_eq!(strings(extract_font_urls(&css)), vec!["x.ttf".to_string()]);
}

#[test]
fn extractor_ignores_urls_outside_blocks() {
    let css = chars("body { background: url(x.ttf); }");
    assert_eq!(strings(extract_font_urls(&css)), Vec::<String>::new());
}

#[test]
fn extractor_keeps_query_suffixed_reference() {
    let css = chars("@font-face { src: url(fa-solid-900.ttf?v=5.0.0); }");
    assert_eq!(
        strings(extract_font_urls(&css)),
        vec!["fa-solid-900.ttf?v=5.0.0".to_string()]
    );
}

#[test]
fn extractor_preserves_order_of_first_occurrence() {
    let css = chars("@font-face { src: url(b.ttf), url(a.ttf), url(b.ttf); }");
    assert_eq!(
        strings(extract_font_urls(&css)),
        vec!["b.ttf".to_string(), "a.ttf".to_string()]
    );
}

#[test]
fn imports_double_quoted() {
    let css = chars("@import url(\"b.css\");");
    assert_eq!(strings(extract_imports(&css)), vec!["b.css".to_string()]);
}

#[test]
fn imports_single_quoted() {
    let css = chars("@import url('b.css');");
    assert_eq!(strings(extract_imports(&css)), vec!["b.css".to_string()]);
}

#[test]
fn imports_bare() {
    let css = chars("@import url(b.css);");
    assert_eq!(strings(extract_imports(&css)), vec!["b.css".to_string()]);
}

#[test]
fn imports_case_insensitive_keywords() {
    let css = chars("@IMPORT URL(\"b.css\");");
    assert_eq!(strings(extract_imports(&css)), vec!["b.css".to_string()]);
}

#[test]
fn imports_with_spacing() {
    let css = chars("@import  url ( \"b.css\" ) ;");
    assert_eq!(strings(extract_imports(&css)), vec!["b.css".to_string()]);
}

#[test]
fn imports_missing_semicolon_rejected() {
    let css = chars("@import url(\"b.css\")");
    assert_eq!(strings(extract_imports(&css)), Vec::<String>::new());
}

#[test]
fn imports_several_in_order() {
    let css = chars("@import url(a.css);\n@import url(b.css);");
    assert_eq!(
        strings(extract_imports(&css)),
        vec!["a.css".to_string(), "b.css".to_string()]
    );
}
