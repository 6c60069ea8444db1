use font_icons_scraper::crawler::{Action, Crawler};
use font_icons_scraper::geometry::BBox;
use font_icons_scraper::svg::{Glyph, Outline, PathOp};

fn chars(s: &str) -> Vec<char> {
    s.chars().collect()
}

fn one_glyph(name: &str) -> Vec<Glyph> {
    vec![Glyph {
        name: name.to_string(),
        outline: Some(Outline {
            bbox: BBox { x_min: 0, y_min: 0, x_max: 100, y_max: 100 },
            ops: vec![PathOp::MoveTo { x: 0, y: 0 }, PathOp::Close],
        }),
    }]
}

#[test]
fn depth_zero_ignores_imports() {
    let mut c = Crawler::new("https://example.com/a.css".to_string(), 0);
    let sheet = match c.next() {
        Action::FetchStylesheet(s) => s,
        _ => panic!("expected a stylesheet fetch"),
    };
    assert!(sheet.top);
    let css = chars(
        "@font-face { src: url(\"a.ttf\"); }\n@import url(\"b.css\");\n@import url(\"c.css\");",
    );
    c.stylesheet_ok(&sheet, &css);
    let font = match c.next() {
        Action::FetchFont(f) => f,
        _ => panic!("expected a font fetch"),
    };
    assert_eq!(font.rel, "a.ttf");
    c.font_ok(&font, &one_glyph("x"));
    match c.next() {
        Action::Finished => {}
        _ => panic!("imports must not be crawled at depth zero"),
    }
    let records = c.finish().expect("crawl must succeed");
    assert_eq!(records.len(), 1);
    assert_eq!(records[0].0, "a-x");
}

#[test]
fn duplicate_font_reference_fetched_once() {
    let mut c = Crawler::new("https://example.com/a.css".to_string(), 0);
    let sheet = match c.next() {
        Action::FetchStylesheet(s) => s,
        _ => panic!("expected a stylesheet fetch"),
    };
    let css = chars(
        "@font-face { src: url(\"x.ttf\"); }\n@font-face { src: url(\"x.ttf\"); }",
    );
    c.stylesheet_ok(&sheet, &css);
    let font = match c.next() {
        Action::FetchFont(f) => f,
        _ => panic!("expected a font fetch"),
    };
    assert_eq!(font.rel, "x.ttf");
    assert_eq!(font.abs, "https://example.com/x.ttf");
    c.font_ok(&font, &one_glyph("g"));
    match c.next() {
        Action::Finished => {}
        _ => panic!("the duplicate reference must not be fetched again"),
    }
}

#[test]
fn end_to_end_with_one_import() {
    let mut c = Crawler::new("https://example.com/a.css".to_string(), 1);
    let root = match c.next() {
        Action::FetchStylesheet(s) => s,
        _ => panic!("expected the root stylesheet"),
    };
    assert_eq!(root.url, "https://example.com/a.css");
    let root_css = chars("@font-face { src: url(\"a.ttf\"); }\n@import url(\"b.css\");");
    c.stylesheet_ok(&root, &root_css);
    let font_a = match c.next() {
        Action::FetchFont(f) => f,
        _ => panic!("expected the root font"),
    };
    assert_eq!(font_a.abs, "https://example.com/a.ttf");
    assert!(font_a.top);
    c.font_ok(&font_a, &one_glyph("one"));
    let nested = match c.next() {
        Action::FetchStylesheet(s) => s,
        _ => panic!("expected the imported stylesheet"),
    };
    assert_eq!(nested.url, "https://example.com/b.css");
    assert_eq!(nested.depth, 0);
    assert!(!nested.top);
    let nested_css = chars("@font-face { src: url(\"c.ttf\"); }\n@import url(\"d.css\");");
    c.stylesheet_ok(&nested, &nested_css);
    let font_c = match c.next() {
        Action::FetchFont(f) => f,
        _ => panic!("expected the nested font"),
    };
    assert_eq!(font_c.abs, "https://example.com/c.ttf");
    assert!(!font_c.top);
    c.font_ok(&font_c, &one_glyph("two"));
    match c.next() {
        Action::Finished => {}
        _ => panic!("the depth-zero import of the nested sheet must be ignored"),
    }
    let records = c.finish().expect("crawl must succeed");
    let names: Vec<&str> = records.iter().map(|r| r.0.as_str()).collect();
    assert_eq!(names, vec!["a-one", "c-two"]);
}

#[test]
fn nested_branch_failure_is_skipped() {
    let mut c = Crawler::new("https://example.com/a.css".to_string(), 1);
    let root = match c.next() {
        Action::FetchStylesheet(s) => s,
        _ => panic!("expected the root stylesheet"),
    };
    c.stylesheet_ok(&root, &chars("@import url(\"b.css\");"));
    let nested = match c.next() {
        Action::FetchStylesheet(s) => s,
        _ => panic!("expected the imported stylesheet"),
    };
    c.stylesheet_failed(&nested);
    match c.next() {
        Action::Finished => {}
        _ => panic!("nothing should remain"),
    }
    assert!(c.finish().is_some());
}

#[test]
fn top_level_font_failure_is_fatal() {
    let mut c = Crawler::new("https://example.com/a.css".to_string(), 0);
    let root = match c.next() {
        Action::FetchStylesheet(s) => s,
        _ => panic!("expected the root stylesheet"),
    };
    c.stylesheet_ok(&root, &chars("@font-face { src: url(\"a.ttf\"); }"));
    let font = match c.next() {
        Action::FetchFont(f) => f,
        _ => panic!("expected the font"),
    };
    c.font_failed(&font);
    match c.next() {
        Action::Finished => {}
        _ => panic!("a fatal failure ends the crawl"),
    }
    assert!(c.finish().is_none());
}

#[test]
fn top_level_stylesheet_failure_is_fatal() {
    let mut c = Crawler::new("https://example.com/a.css".to_string(), 0);
    let root = match c.next() {
        Action::FetchStylesheet(s) => s,
        _ => panic!("expected the root stylesheet"),
    };
    c.stylesheet_failed(&root);
    assert!(c.finish().is_none());
}

#[test]
fn self_import_is_skipped() {
    let mut c = Crawler::new("https://example.com/a.css".to_string(), 3);
    let root = match c.next() {
        Action::FetchStylesheet(s) => s,
        _ => panic!("expected the root stylesheet"),
    };
    c.stylesheet_ok(&root, &chars("@import url(\"a.css\");"));
    match c.next() {
        Action::Finished => {}
        _ => panic!("an import of the stylesheet itself must be dropped"),
    }
}

#[test]
fn cross_host_import_is_skipped() {
    let mut c = Crawler::new("https://example.com/a.css".to_string(), 3);
    let root = match c.next() {
        Action::FetchStylesheet(s) => s,
        _ => panic!("expected the root stylesheet"),
    };
    c.stylesheet_ok(&root, &chars("@import url(\"https://other.example.net/b.css\");"));
    match c.next() {
        Action::Finished => {}
        _ => panic!("a cross-host import must be dropped"),
    }
}

#[test]
fn repeated_import_visited_once() {
    let mut c = Crawler::new("https://example.com/a.css".to_string(), 2);
    let root = match c.next() {
        Action::FetchStylesheet(s) => s,
        _ => panic!("expected the root stylesheet"),
    };
    c.stylesheet_ok(&root, &chars("@import url(\"b.css\");\n@import url(\"b.css\");"));
    let nested = match c.next() {
        Action::FetchStylesheet(s) => s,
        _ => panic!("expected the imported stylesheet"),
    };
    assert_eq!(nested.url, "https://example.com/b.css");
    c.stylesheet_ok(&nested, &chars(""));
    match c.next() {
        Action::Finished => {}
        _ => panic!("the repeated import must be visited once"),
    }
}

#[test]
fn unresolvable_font_reference_is_skipped() {
    let mut c = Crawler::new("data:text/css,x".to_string(), 0);
    let root = match c.next() {
        Action::FetchStylesheet(s) => s,
        _ => panic!("expected the root stylesheet"),
    };
    c.stylesheet_ok(&root, &chars("@font-face { src: url(\"../a.ttf\"); }"));
    match c.next() {
        Action::Finished => {}
        _ => panic!("a reference that cannot resolve must be dropped"),
    }
    assert!(c.finish().is_some());
}
