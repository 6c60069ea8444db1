use font_icons_scraper::geometry::{BBox, Rect, Vector, padded_input_rect, remap_point};
use font_icons_scraper::svg::{Glyph, Outline, PathOp, font_to_svg};

fn canvas() -> Rect {
    Vector { x: 512, y: 512 }.into_absolute_rect()
}

#[test]
fn remap_square_box_stays_in_canvas() {
    let b = BBox { x_min: 0, y_min: 0, x_max: 1000, y_max: 1000 };
    let input = padded_input_rect(&b);
    let output = canvas();
    let corners = [(0i64, 0i64), (1000, 0), (0, 1000), (1000, 1000), (500, 500), (7, 993)];
    for (x, y) in corners {
        let (ox, oy) = remap_point(x, y, &input, &output);
        assert!(0 <= ox && ox <= 512, "x out of canvas: {}", ox);
        assert!(0 <= oy && oy <= 512, "y out of canvas: {}", oy);
    }
}

#[test]
fn remap_exact_values() {
    let b = BBox { x_min: 0, y_min: 0, x_max: 1000, y_max: 1000 };
    let input = padded_input_rect(&b);
    let output = canvas();
    assert_eq!(remap_point(500, 500, &input, &output), (256, 256));
    assert_eq!(remap_point(0, 0, &input, &output), (0, 512));
    assert_eq!(remap_point(1000, 1000, &input, &output), (512, 0));
}

#[test]
fn padding_makes_a_square_centred_on_the_short_axis() {
    let b = BBox { x_min: 0, y_min: 0, x_max: 400, y_max: 1000 };
    let input = padded_input_rect(&b);
    assert_eq!(input.end.x - input.start.x, 1000);
    assert_eq!(input.end.y - input.start.y, 1000);
    assert_eq!(input.start.x, -300);
    assert_eq!(input.end.x, 700);
    assert_eq!(input.start.y, 0);
}

#[test]
fn font_to_svg_exact_document() {
    let glyph = Glyph {
        name: "one".to_string(),
        outline: Some(Outline {
            bbox: BBox { x_min: 0, y_min: 0, x_max: 1000, y_max: 1000 },
            ops: vec![
                PathOp::MoveTo { x: 0, y: 0 },
                PathOp::LineTo { x: 1000, y: 1000 },
                PathOp::Close,
            ],
        }),
    };
    let records = font_to_svg(&vec![glyph]);
    assert_eq!(records.len(), 1);
    assert_eq!(records[0].0, "one");
    assert_eq!(
        records[0].1,
        "<svg xmlns=\"http://www.w3.org/2000/svg\" viewBox=\"0 0 512 512\">\n  <path d=\"M 0 512 L 512 0 Z\" />\n</svg>"
    );
}

#[test]
fn degenerate_point_box_yields_empty_path() {
    let glyph = Glyph {
        name: "dot".to_string(),
        outline: Some(Outline {
            bbox: BBox { x_min: 5, y_min: 5, x_max: 5, y_max: 5 },
            ops: vec![PathOp::MoveTo { x: 5, y: 5 }, PathOp::Close],
        }),
    };
    let records = font_to_svg(&vec![glyph]);
    assert_eq!(records.len(), 1);
    assert_eq!(
        records[0].1,
        "<svg xmlns=\"http://www.w3.org/2000/svg\" viewBox=\"0 0 512 512\">\n  <path d=\"\" />\n</svg>"
    );
}

#[test]
fn degenerate_zero_width_box_is_padded_and_survives() {
    let glyph = Glyph {
        name: "bar".to_string(),
        outline: Some(Outline {
            bbox: BBox { x_min: 0, y_min: 0, x_max: 0, y_max: 1000 },
            ops: vec![PathOp::MoveTo { x: 0, y: 0 }, PathOp::LineTo { x: 0, y: 1000 }],
        }),
    };
    let records = font_to_svg(&vec![glyph]);
    assert_eq!(records.len(), 1);
    assert_eq!(
        records[0].1,
        "<svg xmlns=\"http://www.w3.org/2000/svg\" viewBox=\"0 0 512 512\">\n  <path d=\"M 256 512 L 256 0\" />\n</svg>"
    );
}

#[test]
fn glyph_without_outline_is_skipped() {
    let glyphs = vec![
        Glyph { name: "ghost".to_string(), outline: None },
        Glyph {
            name: "real".to_string(),
            outline: Some(Outline {
                bbox: BBox { x_min: 0, y_min: 0, x_max: 10, y_max: 10 },
                ops: vec![PathOp::MoveTo { x: 0, y: 0 }],
            }),
        },
    ];
    let records = font_to_svg(&glyphs);
    assert_eq!(records.len(), 1);
    assert_eq!(records[0].0, "real");
}

#[test]
fn quad_and_cubic_operations_render() {
    let glyph = Glyph {
        name: "curve".to_string(),
        outline: Some(Outline {
            bbox: BBox { x_min: 0, y_min: 0, x_max: 512, y_max: 512 },
            ops: vec![
                PathOp::MoveTo { x: 0, y: 0 },
                PathOp::QuadTo { x1: 256, y1: 256, x: 512, y: 0 },
                PathOp::CurveTo { x1: 0, y1: 128, x2: 256, y2: 384, x: 512, y: 512 },
            ],
        }),
    };
    let records = font_to_svg(&vec![glyph]);
    assert_eq!(records.len(), 1);
    assert_eq!(
        records[0].1,
        "<svg xmlns=\"http://www.w3.org/2000/svg\" viewBox=\"0 0 512 512\">\n  <path d=\"M 0 512 Q 256 256 512 512 C 0 384 256 128 512 0\" />\n</svg>"
    );
}
