use font_icons_scraper::names::{ext, normalize};

#[test]
fn normalize_versioned_absolute_url() {
    assert_eq!(
        normalize("https://example.com/fonts/fa-solid-900.ttf?v=5.0.0"),
        "solid"
    );
}

#[test]
fn normalize_relative_reference() {
    assert_eq!(normalize("../webfonts/fa-solid-900.ttf"), "solid");
}

#[test]
fn normalize_keeps_non_numeric_segments() {
    assert_eq!(normalize("fa-brands-400.ttf"), "brands");
}

#[test]
fn normalize_plain_name() {
    assert_eq!(normalize("a.ttf"), "a");
}

#[test]
fn normalize_without_fa_prefix() {
    assert_eq!(normalize("fonts/icomoon-12.ttf"), "icomoon");
}

#[test]
fn normalize_numeral_with_plus_sign_dropped() {
    assert_eq!(normalize("fa-light-+300.ttf"), "light");
}

#[test]
fn normalize_overflowing_numeral_kept() {
    assert_eq!(normalize("fa-big-99999999999.ttf"), "big-99999999999");
}

#[test]
fn ext_with_query_and_fragment() {
    assert_eq!(ext("x/y.woff2?v=1#frag"), Some("woff2".to_string()));
}

#[test]
fn ext_plain_ttf() {
    assert_eq!(ext("fonts/fa-solid-900.ttf"), Some("ttf".to_string()));
}

#[test]
fn ext_without_dot_returns_whole() {
    assert_eq!(ext("plain"), Some("plain".to_string()));
}
