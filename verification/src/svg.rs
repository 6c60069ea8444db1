//! Rendering glyph outlines as standalone vector-image documents: the path
//! operation type, remapping of a whole outline into the fixed 512-unit
//! square canvas, the space-separated path data string, and the per-font
//! conversion that the crawler applies to every decoded glyph.
//!
//! Of the two legitimate conversion variants — remapping every glyph into a
//! fixed padded square canvas, or keeping each glyph's raw bounding box as a
//! tight viewBox — this library implements the first: every document carries
//! the uniform square `0 0 512 512` viewBox, and glyph coordinates are the
//! floor of their exact rational image in it.

use vstd::prelude::*;
use crate::geometry::{
    BBox, Rect, Vector, bbox_wf, in_coord_range, max_dim, out_rect, padded_input_rect,
    padded_rect_spec, rect_proper, remap_point, remap_x_spec, remap_y_spec,
};
use crate::numerals::{int_str, i64_to_string};
use crate::text::push_char;

verus! {

/// One vector path instruction, in font units before remapping and in canvas
/// units after it.
pub enum PathOp {
    MoveTo { x: i64, y: i64 },
    LineTo { x: i64, y: i64 },
    QuadTo { x1: i64, y1: i64, x: i64, y: i64 },
    CurveTo { x1: i64, y1: i64, x2: i64, y2: i64, x: i64, y: i64 },
    Close,
}

/// Every coordinate of the operation lies within the remapper's input range.
pub open spec fn op_in_range(op: PathOp) -> bool {
    match op {
        PathOp::MoveTo { x, y } => in_coord_range(x as int) && in_coord_range(y as int),
        PathOp::LineTo { x, y } => in_coord_range(x as int) && in_coord_range(y as int),
        PathOp::QuadTo { x1, y1, x, y } => in_coord_range(x1 as int) && in_coord_range(y1 as int)
            && in_coord_range(x as int) && in_coord_range(y as int),
        PathOp::CurveTo { x1, y1, x2, y2, x, y } => in_coord_range(x1 as int) && in_coord_range(
            y1 as int,
        ) && in_coord_range(x2 as int) && in_coord_range(y2 as int) && in_coord_range(x as int)
            && in_coord_range(y as int),
        PathOp::Close => true,
    }
}

/// Every coordinate of the operation exceeds `i64::MIN`, so it can be
/// rendered in decimal.
pub open spec fn op_gt_min(op: PathOp) -> bool {
    match op {
        PathOp::MoveTo { x, y } => x > i64::MIN && y > i64::MIN,
        PathOp::LineTo { x, y } => x > i64::MIN && y > i64::MIN,
        PathOp::QuadTo { x1, y1, x, y } => x1 > i64::MIN && y1 > i64::MIN && x > i64::MIN && y
            > i64::MIN,
        PathOp::CurveTo { x1, y1, x2, y2, x, y } => x1 > i64::MIN && y1 > i64::MIN && x2
            > i64::MIN && y2 > i64::MIN && x > i64::MIN && y > i64::MIN,
        PathOp::Close => true,
    }
}

/// The operation with each point carried through the remapper.
pub open spec fn remap_op_spec(op: PathOp, input: Rect, output: Rect) -> PathOp {
    match op {
        PathOp::MoveTo { x, y } => PathOp::MoveTo {
            x: remap_x_spec(x as int, input, output) as i64,
            y: remap_y_spec(y as int, input, output) as i64,
        },
        PathOp::LineTo { x, y } => PathOp::LineTo {
            x: remap_x_spec(x as int, input, output) as i64,
            y: remap_y_spec(y as int, input, output) as i64,
        },
        PathOp::QuadTo { x1, y1, x, y } => PathOp::QuadTo {
            x1: remap_x_spec(x1 as int, input, output) as i64,
            y1: remap_y_spec(y1 as int, input, output) as i64,
            x: remap_x_spec(x as int, input, output) as i64,
            y: remap_y_spec(y as int, input, output) as i64,
        },
        PathOp::CurveTo { x1, y1, x2, y2, x, y } => PathOp::CurveTo {
            x1: remap_x_spec(x1 as int, input, output) as i64,
            y1: remap_y_spec(y1 as int, input, output) as i64,
            x2: remap_x_spec(x2 as int, input, output) as i64,
            y2: remap_y_spec(y2 as int, input, output) as i64,
            x: remap_x_spec(x as int, input, output) as i64,
            y: remap_y_spec(y as int, input, output) as i64,
        },
        PathOp::Close => PathOp::Close,
    }
}

/// Carry every point of the operation from the input rectangle onto the
/// output rectangle.
pub fn remap_op(op: &PathOp, input: &Rect, output: &Rect) -> (r: PathOp)
    requires
        rect_proper(*input),
        rect_proper(*output),
        op_in_range(*op),
    ensures
        r == remap_op_spec(*op, *input, *output),
        op_gt_min(r),
{
    match op {
        PathOp::MoveTo { x, y } => {
            let p = remap_point(*x, *y, input, output);
            PathOp::MoveTo { x: p.0, y: p.1 }
        },
        PathOp::LineTo { x, y } => {
            let p = remap_point(*x, *y, input, output);
            PathOp::LineTo { x: p.0, y: p.1 }
        },
        PathOp::QuadTo { x1, y1, x, y } => {
            let p1 = remap_point(*x1, *y1, input, output);
            let p = remap_point(*x, *y, input, output);
            PathOp::QuadTo { x1: p1.0, y1: p1.1, x: p.0, y: p.1 }
        },
        PathOp::CurveTo { x1, y1, x2, y2, x, y } => {
            let p1 = remap_point(*x1, *y1, input, output);
            let p2 = remap_point(*x2, *y2, input, output);
            let p = remap_point(*x, *y, input, output);
            PathOp::CurveTo { x1: p1.0, y1: p1.1, x2: p2.0, y2: p2.1, x: p.0, y: p.1 }
        },
        PathOp::Close => PathOp::Close,
    }
}

/// The token string of one operation: its letter and its coordinates in
/// decimal, space-separated.
pub open spec fn op_str(op: PathOp) -> Seq<char> {
    match op {
        PathOp::MoveTo { x, y } => seq!['M', ' '] + int_str(x as int) + seq![' '] + int_str(
            y as int,
        ),
        PathOp::LineTo { x, y } => seq!['L', ' '] + int_str(x as int) + seq![' '] + int_str(
            y as int,
        ),
        PathOp::QuadTo { x1, y1, x, y } => seq!['Q', ' '] + int_str(x1 as int) + seq![' ']
            + int_str(y1 as int) + seq![' '] + int_str(x as int) + seq![' '] + int_str(y as int),
        PathOp::CurveTo { x1, y1, x2, y2, x, y } => seq!['C', ' '] + int_str(x1 as int)
            + seq![' '] + int_str(y1 as int) + seq![' '] + int_str(x2 as int) + seq![' ']
            + int_str(y2 as int) + seq![' '] + int_str(x as int) + seq![' '] + int_str(y as int),
        PathOp::Close => seq!['Z'],
    }
}

/// The path data attribute: the operations' tokens joined by single spaces.
pub open spec fn path_data(ops: Seq<PathOp>) -> Seq<char>
    decreases ops.len(),
{
    if ops.len() == 0 {
        Seq::empty()
    } else if ops.len() == 1 {
        op_str(ops[0])
    } else {
        path_data(ops.drop_last()) + seq![' '] + op_str(ops.last())
    }
}

fn append_i64(buf: &mut String, v: i64)
    requires
        v > i64::MIN,
    ensures
        final(buf)@ == old(buf)@ + int_str(v as int),
{
    let s = i64_to_string(v);
    buf.append(s.as_str());
}

fn append_op(buf: &mut String, op: &PathOp)
    requires
        op_gt_min(*op),
    ensures
        final(buf)@ == old(buf)@ + op_str(*op),
{
    match op {
        PathOp::MoveTo { x, y } => {
            push_char(buf, 'M');
            push_char(buf, ' ');
            append_i64(buf, *x);
            push_char(buf, ' ');
            append_i64(buf, *y);
        },
        PathOp::LineTo { x, y } => {
            push_char(buf, 'L');
            push_char(buf, ' ');
            append_i64(buf, *x);
            push_char(buf, ' ');
            append_i64(buf, *y);
        },
        PathOp::QuadTo { x1, y1, x, y } => {
            push_char(buf, 'Q');
            push_char(buf, ' ');
            append_i64(buf, *x1);
            push_char(buf, ' ');
            append_i64(buf, *y1);
            push_char(buf, ' ');
            append_i64(buf, *x);
            push_char(buf, ' ');
            append_i64(buf, *y);
        },
        PathOp::CurveTo { x1, y1, x2, y2, x, y } => {
            push_char(buf, 'C');
            push_char(buf, ' ');
            append_i64(buf, *x1);
            push_char(buf, ' ');
            append_i64(buf, *y1);
            push_char(buf, ' ');
            append_i64(buf, *x2);
            push_char(buf, ' ');
            append_i64(buf, *y2);
            push_char(buf, ' ');
            append_i64(buf, *x);
            push_char(buf, ' ');
            append_i64(buf, *y);
        },
        PathOp::Close => {
            push_char(buf, 'Z');
        },
    }
    assert(buf@ =~= old(buf)@ + op_str(*op));
}

/// Render the operations as the path data string.
pub fn path_to_string(ops: &Vec<PathOp>) -> (r: String)
    requires
        forall|i: int| 0 <= i < ops@.len() ==> op_gt_min(#[trigger] ops@[i]),
    ensures
        r@ == path_data(ops@),
{
    let mut buf = String::new();
    let mut k: usize = 0;
    assert(buf@ =~= path_data(ops@.take(0)));
    while k < ops.len()
        invariant
            0 <= k <= ops@.len(),
            forall|i: int| 0 <= i < ops@.len() ==> op_gt_min(#[trigger] ops@[i]),
            buf@ == path_data(ops@.take(k as int)),
        decreases ops@.len() - k,
    {
        if k > 0 {
            push_char(&mut buf, ' ');
        }
        append_op(&mut buf, &ops[k]);
        k = k + 1;
        proof {
            let pre = ops@.take(k as int);
            assert(pre.drop_last() =~= ops@.take(k - 1));
            assert(pre.last() == ops@[k - 1]);
            if k == 1 {
                assert(path_data(ops@.take(0)) =~= Seq::<char>::empty());
                assert(buf@ =~= path_data(pre));
            } else {
                assert(buf@ =~= path_data(pre));
            }
        }
    }
    assert(ops@.take(k as int) =~= ops@);
    buf
}

/// The complete vector-image document around a path data string: the fixed
/// square 512-unit viewBox and a single path element.
pub open spec fn svg_doc(d: Seq<char>) -> Seq<char> {
    "<svg xmlns=\"http://www.w3.org/2000/svg\" viewBox=\"0 0 512 512\">\n  <path d=\""@ + d
        + "\" />\n</svg>"@
}

/// Wrap a path data string in the vector-image document skeleton.
pub fn svg_doc_exec(d: &String) -> (r: String)
    ensures
        r@ == svg_doc(d@),
{
    let mut buf = String::new();
    buf.append("<svg xmlns=\"http://www.w3.org/2000/svg\" viewBox=\"0 0 512 512\">\n  <path d=\"");
    buf.append(d.as_str());
    buf.append("\" />\n</svg>");
    assert(buf@ =~= svg_doc(d@));
    buf
}

/// A glyph's outline as the decoder reports it: its bounding box and its raw
/// path operations in font units.
pub struct Outline {
    pub bbox: BBox,
    pub ops: Vec<PathOp>,
}

/// One glyph handed in by the decoder: its name, and its outline when the
/// decoder reported one.
pub struct Glyph {
    pub name: String,
    pub outline: Option<Outline>,
}

pub open spec fn glyph_wf(g: Glyph) -> bool {
    match g.outline {
        None => true,
        Some(o) => bbox_wf(o.bbox) && forall|i: int|
            0 <= i < o.ops.len() ==> op_in_range(#[trigger] o.ops[i]),
    }
}

/// The remapped operations of an outline: empty when the padded box is
/// degenerate (a point), so that no division by zero can arise.
pub open spec fn outline_canvas_ops(o: Outline) -> Seq<PathOp> {
    if max_dim(o.bbox) <= 0 {
        Seq::empty()
    } else {
        o.ops@.map_values(|op: PathOp| remap_op_spec(op, padded_rect_spec(o.bbox), out_rect()))
    }
}

/// The document emitted for an outline.
pub open spec fn glyph_svg(o: Outline) -> Seq<char> {
    svg_doc(path_data(outline_canvas_ops(o)))
}

/// The records emitted for a glyph sequence: one `(name, document)` pair per
/// glyph with an outline, in glyph order.
pub open spec fn font_records(gs: Seq<Glyph>) -> Seq<(Seq<char>, Seq<char>)>
    decreases gs.len(),
{
    if gs.len() == 0 {
        Seq::empty()
    } else {
        font_records(gs.drop_last()) + match gs.last().outline {
            None => Seq::empty(),
            Some(o) => seq![(gs.last().name@, glyph_svg(o))],
        }
    }
}

/// Every point of the operation lies within the rectangle.
pub open spec fn op_points_in_rect(op: PathOp, r: Rect) -> bool {
    match op {
        PathOp::MoveTo { x, y } => r.start.x <= x <= r.end.x && r.start.y <= y <= r.end.y,
        PathOp::LineTo { x, y } => r.start.x <= x <= r.end.x && r.start.y <= y <= r.end.y,
        PathOp::QuadTo { x1, y1, x, y } => r.start.x <= x1 <= r.end.x && r.start.y <= y1
            <= r.end.y && r.start.x <= x <= r.end.x && r.start.y <= y <= r.end.y,
        PathOp::CurveTo { x1, y1, x2, y2, x, y } => r.start.x <= x1 <= r.end.x && r.start.y <= y1
            <= r.end.y && r.start.x <= x2 <= r.end.x && r.start.y <= y2 <= r.end.y && r.start.x
            <= x <= r.end.x && r.start.y <= y <= r.end.y,
        PathOp::Close => true,
    }
}

/// Every coordinate of the operation lies between 0 and 512.
pub open spec fn op_in_canvas(op: PathOp) -> bool {
    match op {
        PathOp::MoveTo { x, y } => 0 <= x <= 512 && 0 <= y <= 512,
        PathOp::LineTo { x, y } => 0 <= x <= 512 && 0 <= y <= 512,
        PathOp::QuadTo { x1, y1, x, y } => 0 <= x1 <= 512 && 0 <= y1 <= 512 && 0 <= x <= 512 && 0
            <= y <= 512,
        PathOp::CurveTo { x1, y1, x2, y2, x, y } => 0 <= x1 <= 512 && 0 <= y1 <= 512 && 0 <= x2
            <= 512 && 0 <= y2 <= 512 && 0 <= x <= 512 && 0 <= y <= 512,
        PathOp::Close => true,
    }
}

/// For an outline whose points lie within its padded bounding box, every
/// emitted coordinate after remapping lies within 0 and 512 on both axes.
pub proof fn lemma_outline_ops_in_canvas(o: Outline)
    requires
        bbox_wf(o.bbox),
        max_dim(o.bbox) > 0,
        forall|i: int|
            0 <= i < o.ops.len() ==> op_points_in_rect(
                #[trigger] o.ops[i],
                padded_rect_spec(o.bbox),
            ),
    ensures
        outline_canvas_ops(o).len() == o.ops@.len(),
        forall|i: int|
            0 <= i < outline_canvas_ops(o).len() ==> op_in_canvas(
                #[trigger] outline_canvas_ops(o)[i],
            ),
{
    let input = padded_rect_spec(o.bbox);
    assert forall|i: int| 0 <= i < outline_canvas_ops(o).len() implies op_in_canvas(
        #[trigger] outline_canvas_ops(o)[i],
    ) by {
        let op = o.ops@[i];
        assert(op_points_in_rect(op, input));
        assert(outline_canvas_ops(o)[i] == remap_op_spec(op, input, out_rect()));
        match op {
            PathOp::MoveTo { x, y } => {
                crate::geometry::lemma_remap_into_canvas(x as int, y as int, o.bbox);
            },
            PathOp::LineTo { x, y } => {
                crate::geometry::lemma_remap_into_canvas(x as int, y as int, o.bbox);
            },
            PathOp::QuadTo { x1, y1, x, y } => {
                crate::geometry::lemma_remap_into_canvas(x1 as int, y1 as int, o.bbox);
                crate::geometry::lemma_remap_into_canvas(x as int, y as int, o.bbox);
            },
            PathOp::CurveTo { x1, y1, x2, y2, x, y } => {
                crate::geometry::lemma_remap_into_canvas(x1 as int, y1 as int, o.bbox);
                crate::geometry::lemma_remap_into_canvas(x2 as int, y2 as int, o.bbox);
                crate::geometry::lemma_remap_into_canvas(x as int, y as int, o.bbox);
            },
            PathOp::Close => {},
        }
    }
}

/// A fully degenerate bounding box (a single point, zero width and zero
/// height) yields the empty path, never a division by zero: the emitted
/// document is the skeleton around an empty data attribute.
pub proof fn lemma_degenerate_bbox_empty_path(o: Outline)
    requires
        o.bbox.x_min == o.bbox.x_max,
        o.bbox.y_min == o.bbox.y_max,
    ensures
        outline_canvas_ops(o) == Seq::<PathOp>::empty(),
        glyph_svg(o) == svg_doc(Seq::<char>::empty()),
{
    assert(max_dim(o.bbox) == 0);
    assert(path_data(Seq::<PathOp>::empty()) == Seq::<char>::empty());
}

/// Convert every glyph of a font into a named vector-image document.
/// Glyphs without an outline are skipped; a degenerate (single-point) padded
/// box yields a document with an empty path rather than a division by zero.
pub fn font_to_svg(glyphs: &Vec<Glyph>) -> (r: Vec<(String, String)>)
    requires
        forall|i: int| 0 <= i < glyphs@.len() ==> glyph_wf(#[trigger] glyphs@[i]),
    ensures
        r@.len() == font_records(glyphs@).len(),
        forall|i: int|
            0 <= i < r@.len() ==> (#[trigger] r@[i]).0@ == font_records(glyphs@)[i].0 && r@[i].1@
                == font_records(glyphs@)[i].1,
{
    let mut out: Vec<(String, String)> = Vec::new();
    let mut k: usize = 0;
    while k < glyphs.len()
        invariant
            0 <= k <= glyphs@.len(),
            forall|i: int| 0 <= i < glyphs@.len() ==> glyph_wf(#[trigger] glyphs@[i]),
            out@.len() == font_records(glyphs@.take(k as int)).len(),
            forall|i: int|
                0 <= i < out@.len() ==> (#[trigger] out@[i]).0@ == font_records(
                    glyphs@.take(k as int),
                )[i].0 && out@[i].1@ == font_records(glyphs@.take(k as int))[i].1,
        decreases glyphs@.len() - k,
    {
        let g = &glyphs[k];
        let ghost pre = glyphs@.take(k as int);
        let ghost post = glyphs@.take(k + 1);
        proof {
            assert(post.drop_last() =~= pre);
            assert(post.last() == glyphs@[k as int]);
        }
        match &g.outline {
            None => {
                proof {
                    assert(font_records(post) =~= font_records(pre));
                }
            },
            Some(o) => {
                let input = padded_input_rect(&o.bbox);
                let mut rops: Vec<PathOp> = Vec::new();
                if input.end.x > input.start.x {
                    let output = Vector { x: 512, y: 512 }.into_absolute_rect();
                    assert(output == out_rect());
                    let mut j: usize = 0;
                    while j < o.ops.len()
                        invariant
                            0 <= j <= o.ops@.len(),
                            rect_proper(input),
                            input == padded_rect_spec(glyphs@[k as int].outline->Some_0.bbox),
                            output == out_rect(),
                            o == &glyphs@[k as int].outline->Some_0,
                            k < glyphs@.len(),
                            glyphs@[k as int].outline is Some,
                            glyph_wf(glyphs@[k as int]),
                            rops@ == o.ops@.take(j as int).map_values(
                                |op: PathOp| remap_op_spec(op, input, output),
                            ),
                            forall|i: int| 0 <= i < rops@.len() ==> op_gt_min(#[trigger] rops@[i]),
                        decreases o.ops@.len() - j,
                    {
                        proof {
                            assert(op_in_range(glyphs@[k as int].outline->Some_0.ops[j as int]));
                        }
                        let rop = remap_op(&o.ops[j], &input, &output);
                        rops.push(rop);
                        j = j + 1;
                        proof {
                            assert(rops@ =~= o.ops@.take(j as int).map_values(
                                |op: PathOp| remap_op_spec(op, input, output),
                            ));
                        }
                    }
                    proof {
                        assert(o.ops@.take(j as int) =~= o.ops@);
                        assert(rops@ =~= outline_canvas_ops(glyphs@[k as int].outline->Some_0));
                    }
                } else {
                    proof {
                        assert(rops@ =~= outline_canvas_ops(glyphs@[k as int].outline->Some_0));
                    }
                }
                let d = path_to_string(&rops);
                let doc = svg_doc_exec(&d);
                let name = g.name.clone();
                out.push((name, doc));
                proof {
                    assert(font_records(post) =~= font_records(pre) + seq![
                        (glyphs@[k as int].name@, glyph_svg(glyphs@[k as int].outline->Some_0)),
                    ]);
                }
            },
        }
        k = k + 1;
        proof {
            assert(glyphs@.take(k as int) == post);
        }
    }
    proof {
        assert(glyphs@.take(k as int) =~= glyphs@);
    }
    out
}

} // verus!
