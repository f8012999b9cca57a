use vstd::prelude::*;

use crate::fixed::{fx, Fx, Rect, Vec2, rect_wf, GRID_LIMIT, RECT_LIMIT};
use crate::header::Rgb;
use crate::project::{Project, ProjectM};
use crate::shape::{
    lemma_shapes_model_index, lemma_shapes_model_len, shapes_model, Shape, ShapeM, ShapeType,
};

verus! {

broadcast use vstd::std_specs::vec::group_vec_axioms, vstd::seq::group_seq_axioms;

/// A renderer-agnostic drawing primitive in screen space, in fixed-point
/// pixel coordinates.
#[derive(Clone, Copy, Debug, PartialEq, Eq, Structural)]
pub enum Primitive {
    /// A filled circle.
    Circle { center: Vec2, radius: Fx, color: Rgb },
    /// A filled axis-aligned rectangle.
    Rect { min: Vec2, max: Vec2, color: Rgb },
    /// A filled triangle with three vertices.
    Triangle { a: Vec2, b: Vec2, c: Vec2, color: Rgb },
    /// An unfilled unit-square outline of the grid overlay.
    RectOutline { min: Vec2, max: Vec2 },
}

impl ShapeM {
    /// The placements the projection accepts: coordinates and size within
    /// `GRID_LIMIT` and the color a valid palette index, recursively for
    /// the nested shapes.
    pub open spec fn bounded(self) -> bool
        decreases self,
    {
        &&& -GRID_LIMIT <= self.pos.x@ <= GRID_LIMIT
        &&& -GRID_LIMIT <= self.pos.y@ <= GRID_LIMIT
        &&& -GRID_LIMIT <= self.size@ <= GRID_LIMIT
        &&& self.color < 16
        &&& shapes_bounded(self.auto_shapes)
    }
}

pub open spec fn shapes_bounded(s: Seq<ShapeM>) -> bool
    decreases s,
{
    if s.len() == 0 {
        true
    } else {
        s[0].bounded() && shapes_bounded(s.drop_first())
    }
}

pub proof fn lemma_shapes_bounded_index(s: Seq<ShapeM>, i: int)
    requires
        shapes_bounded(s),
        0 <= i < s.len(),
    ensures
        s[i].bounded(),
    decreases s,
{
    if i > 0 {
        lemma_shapes_bounded_index(s.drop_first(), i - 1);
    }
}

/// The horizontal scale of the grid-to-pixel transform: a seventeenth of
/// the rectangle's width, in thousandths of a pixel per grid unit. The
/// playfield is 15 by 15 cells with a one-unit margin on each side.
pub open spec fn scale_x(rect: Rect) -> int {
    (rect.max.x@ - rect.min.x@) / 17
}

/// The vertical scale of the grid-to-pixel transform.
pub open spec fn scale_y(rect: Rect) -> int {
    (rect.max.y@ - rect.min.y@) / 17
}

/// The larger of the two per-axis scales; circle radii use it, so circles
/// overscale on non-square rectangles. Kept as documented behavior.
pub open spec fn scale_max(rect: Rect) -> int {
    if scale_x(rect) >= scale_y(rect) {
        scale_x(rect)
    } else {
        scale_y(rect)
    }
}

/// A grid abscissa (in thousandths of a grid unit) mapped to a pixel
/// abscissa: `rect.min + g * scale`, rounded down.
pub open spec fn map_x(rect: Rect, g: int) -> int {
    rect.min.x@ + (g * scale_x(rect)) / 1000
}

pub open spec fn map_y(rect: Rect, g: int) -> int {
    rect.min.y@ + (g * scale_y(rect)) / 1000
}

/// A grid point mapped to a pixel point.
pub open spec fn map_pt(rect: Rect, gx: int, gy: int) -> Vec2 {
    Vec2 { x: fx(map_x(rect, gx)), y: fx(map_y(rect, gy)) }
}

/// The primitive one shape maps to, before its nested shapes: a circle
/// centered half a unit into its cell with radius `scale * (size + 1/2)`, a
/// square spanning `[pos - size, pos + size + 1]` on both axes, or a
/// triangle with its base one unit below its apex row.
pub open spec fn prim_of(m: ShapeM, rect: Rect, table: Seq<Rgb>) -> Primitive {
    let color = table[m.color as int];
    match m.ty {
        ShapeType::Circle => Primitive::Circle {
            center: map_pt(rect, m.pos.x@ + 500, m.pos.y@ + 500),
            radius: fx(((m.size@ + 500) * scale_max(rect)) / 1000),
            color,
        },
        ShapeType::Square => Primitive::Rect {
            min: map_pt(rect, m.pos.x@ - m.size@, m.pos.y@ - m.size@),
            max: map_pt(rect, m.pos.x@ + m.size@ + 1000, m.pos.y@ + m.size@ + 1000),
            color,
        },
        ShapeType::Triangle => Primitive::Triangle {
            a: map_pt(rect, m.pos.x@ - m.size@, m.pos.y@ + 1000 + m.size@),
            b: map_pt(rect, m.pos.x@ + 1000 + m.size@, m.pos.y@ + 1000 + m.size@),
            c: map_pt(rect, m.pos.x@ + 500, m.pos.y@ - m.size@),
            color,
        },
    }
}

/// The primitives a shape projects to: its own primitive and then, depth
/// first, those of its nested shapes in order.
pub open spec fn spec_project(m: ShapeM, rect: Rect, table: Seq<Rgb>) -> Seq<Primitive>
    decreases m,
{
    seq![prim_of(m, rect, table)] + spec_project_seq(m.auto_shapes, rect, table)
}

pub open spec fn spec_project_seq(s: Seq<ShapeM>, rect: Rect, table: Seq<Rgb>) -> Seq<Primitive>
    decreases s,
{
    if s.len() == 0 {
        Seq::empty()
    } else {
        spec_project(s[0], rect, table) + spec_project_seq(s.drop_first(), rect, table)
    }
}

/// `rect.min.x + (g * s) / 1000`, rounded down.
fn map_coord(min_units: i64, g: i64, s: i64) -> (r: i64)
    requires
        -8_000_000 <= g <= 8_000_000,
        0 <= s <= 200_000_000_000,
        -RECT_LIMIT <= min_units <= RECT_LIMIT,
    ensures
        r as int == min_units + (g * s) / 1000,
{
    let q = mul_div_1000(g, s);
    min_units + q
}

/// `(g * s) / 1000`, rounded down (toward minus infinity).
fn mul_div_1000(g: i64, s: i64) -> (r: i64)
    requires
        -8_000_000 <= g <= 8_000_000,
        0 <= s <= 200_000_000_000,
    ensures
        r as int == (g * s) / 1000,
        -1_600_000_000_000_000 <= r <= 1_600_000_000_000_000,
{
    if g >= 0 {
        proof {
            assert(g * s <= 1_600_000_000_000_000_000) by (nonlinear_arith)
                requires
                    0 <= g <= 8_000_000,
                    0 <= s <= 200_000_000_000,
            ;
            assert(g * s >= 0) by (nonlinear_arith)
                requires
                    0 <= g,
                    0 <= s,
            ;
        }
        let p: u64 = (g as u64) * (s as u64);
        let q: u64 = p / 1000;
        q as i64
    } else {
        let m: u64 = (-g) as u64;
        proof {
            assert((-g) * s <= 1_600_000_000_000_000_000) by (nonlinear_arith)
                requires
                    0 <= -g <= 8_000_000,
                    0 <= s <= 200_000_000_000,
            ;
            assert((-g) * s >= 0) by (nonlinear_arith)
                requires
                    0 <= -g,
                    0 <= s,
            ;
            assert((-g) * s == -(g * s)) by (nonlinear_arith);
        }
        let p: u64 = m * (s as u64);
        let q: u64 = (p + 999) / 1000;
        let r = -(q as i64);
        proof {
            let pi = p as int;
            assert(pi == -(g * s));
            assert((-pi) / 1000 == -((pi + 999) / 1000)) by {
                let a = pi / 1000;
                let b = pi % 1000;
                assert(pi == 1000 * a + b && 0 <= b < 1000);
                if b == 0 {
                    assert((-pi) / 1000 == -a);
                    assert((pi + 999) / 1000 == a);
                } else {
                    assert((-pi) / 1000 == -(a + 1));
                    assert((pi + 999) / 1000 == a + 1);
                }
            }
        }
        r
    }
}

/// The width of a rectangle with ordered corners, in thousandths.
fn rect_width(rect: &Rect) -> (r: i64)
    requires
        rect_wf(*rect),
    ensures
        r as int == rect.max.x@ - rect.min.x@,
        0 <= r <= 2 * RECT_LIMIT,
{
    rect.max.x.units - rect.min.x.units
}

fn rect_height(rect: &Rect) -> (r: i64)
    requires
        rect_wf(*rect),
    ensures
        r as int == rect.max.y@ - rect.min.y@,
        0 <= r <= 2 * RECT_LIMIT,
{
    rect.max.y.units - rect.min.y.units
}

/// The two per-axis scales of the transform.
fn scales(rect: &Rect) -> (r: (i64, i64))
    requires
        rect_wf(*rect),
    ensures
        r.0 as int == scale_x(*rect),
        r.1 as int == scale_y(*rect),
        0 <= r.0 <= 200_000_000_000,
        0 <= r.1 <= 200_000_000_000,
{
    let w = rect_width(rect);
    let h = rect_height(rect);
    let sx = ((w as u64) / 17) as i64;
    let sy = ((h as u64) / 17) as i64;
    (sx, sy)
}

impl Shape {
    /// Projects this shape onto drawing primitives for the given output
    /// rectangle: its own primitive and then, depth first, those of its
    /// nested shapes. A pure function of its arguments: the `ensures`
    /// clause pins the whole result, so identical inputs always yield
    /// identical primitive lists.
    pub fn project_to_primitives(&self, rect: &Rect, color_table: &Vec<Rgb>) -> (r: Vec<
        Primitive,
    >)
        requires
            self@.bounded(),
            rect_wf(*rect),
            color_table@.len() == 16,
        ensures
            r@ == spec_project(self@, *rect, color_table@),
        decreases *self,
    {
        let (sx, sy) = scales(rect);
        let sf = if sx >= sy { sx } else { sy };
        let color = color_table[self.color];
        let prim = match self.ty {
            ShapeType::Circle => Primitive::Circle {
                center: Vec2 {
                    x: Fx { units: map_coord(rect.min.x.units, self.pos.x.units + 500, sx) },
                    y: Fx { units: map_coord(rect.min.y.units, self.pos.y.units + 500, sy) },
                },
                radius: Fx { units: mul_div_1000(self.size.units + 500, sf) },
                color,
            },
            ShapeType::Square => Primitive::Rect {
                min: Vec2 {
                    x: Fx {
                        units: map_coord(
                            rect.min.x.units,
                            self.pos.x.units - self.size.units,
                            sx,
                        ),
                    },
                    y: Fx {
                        units: map_coord(
                            rect.min.y.units,
                            self.pos.y.units - self.size.units,
                            sy,
                        ),
                    },
                },
                max: Vec2 {
                    x: Fx {
                        units: map_coord(
                            rect.min.x.units,
                            self.pos.x.units + self.size.units + 1000,
                            sx,
                        ),
                    },
                    y: Fx {
                        units: map_coord(
                            rect.min.y.units,
                            self.pos.y.units + self.size.units + 1000,
                            sy,
                        ),
                    },
                },
                color,
            },
            ShapeType::Triangle => Primitive::Triangle {
                a: Vec2 {
                    x: Fx {
                        units: map_coord(
                            rect.min.x.units,
                            self.pos.x.units - self.size.units,
                            sx,
                        ),
                    },
                    y: Fx {
                        units: map_coord(
                            rect.min.y.units,
                            self.pos.y.units + 1000 + self.size.units,
                            sy,
                        ),
                    },
                },
                b: Vec2 {
                    x: Fx {
                        units: map_coord(
                            rect.min.x.units,
                            self.pos.x.units + 1000 + self.size.units,
                            sx,
                        ),
                    },
                    y: Fx {
                        units: map_coord(
                            rect.min.y.units,
                            self.pos.y.units + 1000 + self.size.units,
                            sy,
                        ),
                    },
                },
                c: Vec2 {
                    x: Fx { units: map_coord(rect.min.x.units, self.pos.x.units + 500, sx) },
                    y: Fx {
                        units: map_coord(
                            rect.min.y.units,
                            self.pos.y.units - self.size.units,
                            sy,
                        ),
                    },
                },
                color,
            },
        };
        let mut out: Vec<Primitive> = Vec::new();
        out.push(prim);
        let ghost sm = shapes_model(self.auto_shapes@);
        proof {
            lemma_shapes_model_len(self.auto_shapes@);
            assert(prim == prim_of(self@, *rect, color_table@));
            assert(spec_project_seq(sm.take(0), *rect, color_table@) =~= Seq::<
                Primitive,
            >::empty());
            assert(out@ =~= seq![prim_of(self@, *rect, color_table@)]
                + spec_project_seq(sm.take(0), *rect, color_table@));
        }
        let mut i: usize = 0;
        while i < self.auto_shapes.len()
            invariant
                i <= self.auto_shapes@.len(),
                sm == shapes_model(self.auto_shapes@),
                sm.len() == self.auto_shapes@.len(),
                shapes_bounded(sm),
                rect_wf(*rect),
                color_table@.len() == 16,
                out@ == seq![prim_of(self@, *rect, color_table@)]
                    + spec_project_seq(sm.take(i as int), *rect, color_table@),
            decreases self.auto_shapes@.len() - i,
        {
            proof {
                lemma_shapes_model_index(self.auto_shapes@, i as int);
                lemma_shapes_bounded_index(sm, i as int);
            }
            let sub = self.auto_shapes[i].project_to_primitives(rect, color_table);
            let mut j: usize = 0;
            let ghost before = out@;
            while j < sub.len()
                invariant
                    j <= sub@.len(),
                    out@ == before + sub@.take(j as int),
                decreases sub@.len() - j,
            {
                out.push(sub[j]);
                proof {
                    assert(sub@.take(j as int + 1) =~= sub@.take(j as int).push(sub@[j as int]));
                    assert(out@ =~= before + sub@.take(j as int + 1));
                }
                j = j + 1;
            }
            proof {
                assert(sub@.take(sub@.len() as int) =~= sub@);
                lemma_spec_project_seq_snoc(sm.take(i as int), sm[i as int], *rect, color_table@);
                assert(sm.take(i as int + 1) =~= sm.take(i as int).push(sm[i as int]));
                assert(out@ =~= seq![prim_of(self@, *rect, color_table@)]
                    + spec_project_seq(sm.take(i as int + 1), *rect, color_table@));
            }
            i = i + 1;
        }
        proof {
            assert(sm.take(sm.len() as int) =~= sm);
        }
        out
    }
}

pub proof fn lemma_spec_project_seq_snoc(s: Seq<ShapeM>, x: ShapeM, rect: Rect, table: Seq<Rgb>)
    ensures
        spec_project_seq(s.push(x), rect, table) == spec_project_seq(s, rect, table)
            + spec_project(x, rect, table),
    decreases s.len(),
{
    if s.len() == 0 {
        assert(s.push(x)[0] == x);
        assert(s.push(x).drop_first() =~= Seq::<ShapeM>::empty());
        assert(spec_project_seq(Seq::<ShapeM>::empty(), rect, table) == Seq::<
            Primitive,
        >::empty());
        assert(spec_project_seq(s.push(x), rect, table) == spec_project(x, rect, table)
            + spec_project_seq(Seq::<ShapeM>::empty(), rect, table));
        assert(spec_project_seq(s.push(x), rect, table) =~= spec_project_seq(s, rect, table)
            + spec_project(x, rect, table));
    } else {
        assert(s.push(x)[0] == s[0]);
        assert(s.push(x).drop_first() =~= s.drop_first().push(x));
        lemma_spec_project_seq_snoc(s.drop_first(), x, rect, table);
        assert(spec_project_seq(s.push(x), rect, table) =~= spec_project_seq(s, rect, table)
            + spec_project(x, rect, table));
    }
}

/// One cell of the fixed 15-by-15 grid overlay, cells in row-major order.
pub open spec fn grid_cell(rect: Rect, i: int) -> Primitive {
    Primitive::RectOutline {
        min: map_pt(rect, (i % 15) * 1000, (i / 15) * 1000),
        max: map_pt(rect, (i % 15) * 1000 + 1000, (i / 15) * 1000 + 1000),
    }
}

/// The 225 unit-square outlines of the grid overlay, produced on every
/// redraw independently of the document.
pub open spec fn grid_prims(rect: Rect) -> Seq<Primitive> {
    Seq::new(225, |i: int| grid_cell(rect, i))
}

/// The grid overlay for an output rectangle.
pub fn grid_overlay(rect: &Rect) -> (r: Vec<Primitive>)
    requires
        rect_wf(*rect),
    ensures
        r@ == grid_prims(*rect),
{
    let (sx, sy) = scales(rect);
    let mut out: Vec<Primitive> = Vec::new();
    let mut i: usize = 0;
    while i < 225
        invariant
            i <= 225,
            rect_wf(*rect),
            sx as int == scale_x(*rect),
            sy as int == scale_y(*rect),
            0 <= sx <= 200_000_000_000,
            0 <= sy <= 200_000_000_000,
            out@.len() == i,
            forall|k: int| 0 <= k < i ==> out@[k] == grid_cell(*rect, k),
        decreases 225 - i,
    {
        let gx: i64 = ((i % 15) as i64) * 1000;
        let gy: i64 = ((i / 15) as i64) * 1000;
        let cell = Primitive::RectOutline {
            min: Vec2 {
                x: Fx { units: map_coord(rect.min.x.units, gx, sx) },
                y: Fx { units: map_coord(rect.min.y.units, gy, sy) },
            },
            max: Vec2 {
                x: Fx { units: map_coord(rect.min.x.units, gx + 1000, sx) },
                y: Fx { units: map_coord(rect.min.y.units, gy + 1000, sy) },
            },
        };
        out.push(cell);
        proof {
            assert(out@[i as int] == grid_cell(*rect, i as int));
        }
        i = i + 1;
    }
    proof {
        assert(out@ =~= grid_prims(*rect));
    }
    out
}

/// The whole scene a document draws: the primitives of the first
/// `shape_count` shapes (each followed by its nested shapes, depth first)
/// and then the grid overlay.
pub open spec fn spec_draw(p: ProjectM, rect: Rect, shape_count: int) -> Seq<Primitive> {
    let n = if shape_count <= p.shapes.len() {
        shape_count
    } else {
        p.shapes.len() as int
    };
    spec_project_seq(p.shapes.take(n), rect, p.header.color_table) + grid_prims(rect)
}

impl Project {
    /// The primitives one redraw of this document produces on the given
    /// output rectangle: the first `shape_count` shapes in paint order,
    /// then the grid overlay. A pure function of its arguments.
    pub fn draw(&self, rect: &Rect, shape_count: usize) -> (r: Vec<Primitive>)
        requires
            rect_wf(*rect),
            self@.header.color_table.len() == 16,
            shapes_bounded(
                self@.shapes.take(
                    if shape_count <= self@.shapes.len() {
                        shape_count as int
                    } else {
                        self@.shapes.len() as int
                    },
                ),
            ),
        ensures
            r@ == spec_draw(self@, *rect, shape_count as int),
    {
        let n = if shape_count <= self.shapes.len() {
            shape_count
        } else {
            self.shapes.len()
        };
        let ghost sm = shapes_model(self.shapes@);
        let ghost taken = sm.take(n as int);
        proof {
            lemma_shapes_model_len(self.shapes@);
        }
        let mut out: Vec<Primitive> = Vec::new();
        proof {
            assert(taken.take(0) =~= Seq::<ShapeM>::empty());
            assert(out@ =~= spec_project_seq(taken.take(0), *rect, self@.header.color_table));
        }
        let mut i: usize = 0;
        while i < n
            invariant
                i <= n,
                n <= self.shapes@.len(),
                sm == shapes_model(self.shapes@),
                sm.len() == self.shapes@.len(),
                taken == sm.take(n as int),
                shapes_bounded(taken),
                rect_wf(*rect),
                self@.header.color_table.len() == 16,
                self@.header.color_table == self.header.color_table@,
                out@ == spec_project_seq(taken.take(i as int), *rect, self@.header.color_table),
            decreases n - i,
        {
            proof {
                lemma_shapes_model_index(self.shapes@, i as int);
                lemma_shapes_bounded_index(taken, i as int);
                assert(taken[i as int] == sm[i as int]);
            }
            let sub = self.shapes[i].project_to_primitives(rect, &self.header.color_table);
            let mut j: usize = 0;
            let ghost before = out@;
            while j < sub.len()
                invariant
                    j <= sub@.len(),
                    out@ == before + sub@.take(j as int),
                decreases sub@.len() - j,
            {
                out.push(sub[j]);
                proof {
                    assert(sub@.take(j as int + 1) =~= sub@.take(j as int).push(sub@[j as int]));
                    assert(out@ =~= before + sub@.take(j as int + 1));
                }
                j = j + 1;
            }
            proof {
                assert(sub@.take(sub@.len() as int) =~= sub@);
                lemma_spec_project_seq_snoc(
                    taken.take(i as int),
                    taken[i as int],
                    *rect,
                    self@.header.color_table,
                );
                assert(taken.take(i as int + 1) =~= taken.take(i as int).push(taken[i as int]));
                assert(out@ =~= spec_project_seq(
                    taken.take(i as int + 1),
                    *rect,
                    self@.header.color_table,
                ));
            }
            i = i + 1;
        }
        let grid = grid_overlay(rect);
        let ghost before_grid = out@;
        let mut j: usize = 0;
        while j < grid.len()
            invariant
                j <= grid@.len(),
                out@ == before_grid + grid@.take(j as int),
            decreases grid@.len() - j,
        {
            out.push(grid[j]);
            proof {
                assert(grid@.take(j as int + 1) =~= grid@.take(j as int).push(grid@[j as int]));
                assert(out@ =~= before_grid + grid@.take(j as int + 1));
            }
            j = j + 1;
        }
        proof {
            assert(grid@.take(grid@.len() as int) =~= grid@);
            assert(taken.take(n as int) =~= taken);
            assert(out@ =~= spec_draw(self@, *rect, shape_count as int));
        }
        out
    }
}

} // verus!
