use manifest::fixed::{Fx, Rect, Vec2};
use manifest::geometry::Primitive;
use manifest::header::{Header, Rgb};
use manifest::options::{Options, OptionsMenu};
use manifest::project::Project;
use manifest::shape::{Shape, ShapeType};

fn square_rect() -> Rect {
    Rect {
        min: Vec2 { x: Fx { units: 0 }, y: Fx { units: 0 } },
        max: Vec2 { x: Fx { units: 17_000 }, y: Fx { units: 17_000 } },
    }
}

fn palette() -> Vec<Rgb> {
    Header::default().color_table
}

#[test]
fn circle_projects_to_expected_primitive() {
    let shape = Shape {
        pos: Vec2 { x: Fx::from_int(4), y: Fx::from_int(3) },
        size: Fx::from_int(1),
        ty: ShapeType::Circle,
        color: 2,
        moves: None,
        auto_shapes: vec![],
    };
    let rect = square_rect();
    let prims = shape.project_to_primitives(&rect, &palette());
    assert_eq!(prims.len(), 1);
    assert_eq!(
        prims[0],
        Primitive::Circle {
            center: Vec2 { x: Fx { units: 4500 }, y: Fx { units: 3500 } },
            radius: Fx { units: 1500 },
            color: Rgb { r: 0x00, g: 0xFF, b: 0x00 },
        }
    );
}

#[test]
fn square_projects_to_expected_primitive() {
    let shape = Shape {
        pos: Vec2 { x: Fx::from_int(2), y: Fx::from_int(5) },
        size: Fx::from_int(1),
        ty: ShapeType::Square,
        color: 0,
        moves: None,
        auto_shapes: vec![],
    };
    let prims = shape.project_to_primitives(&square_rect(), &palette());
    assert_eq!(
        prims[0],
        Primitive::Rect {
            min: Vec2 { x: Fx { units: 1000 }, y: Fx { units: 4000 } },
            max: Vec2 { x: Fx { units: 4000 }, y: Fx { units: 7000 } },
            color: Rgb { r: 0xFF, g: 0xFF, b: 0xFF },
        }
    );
}

#[test]
fn triangle_projects_to_expected_primitive() {
    let shape = Shape {
        pos: Vec2 { x: Fx::from_int(6), y: Fx::from_int(6) },
        size: Fx { units: 0 },
        ty: ShapeType::Triangle,
        color: 15,
        moves: None,
        auto_shapes: vec![],
    };
    let prims = shape.project_to_primitives(&square_rect(), &palette());
    assert_eq!(
        prims[0],
        Primitive::Triangle {
            a: Vec2 { x: Fx { units: 6000 }, y: Fx { units: 7000 } },
            b: Vec2 { x: Fx { units: 7000 }, y: Fx { units: 7000 } },
            c: Vec2 { x: Fx { units: 6500 }, y: Fx { units: 6000 } },
            color: Rgb { r: 0x00, g: 0x00, b: 0x00 },
        }
    );
}

#[test]
fn nested_shapes_project_depth_first() {
    let inner = Shape {
        pos: Vec2 { x: Fx::from_int(1), y: Fx::from_int(1) },
        size: Fx { units: 0 },
        ty: ShapeType::Square,
        color: 1,
        moves: None,
        auto_shapes: vec![],
    };
    let outer = Shape {
        pos: Vec2 { x: Fx::from_int(4), y: Fx::from_int(4) },
        size: Fx { units: 0 },
        ty: ShapeType::Circle,
        color: 0,
        moves: None,
        auto_shapes: vec![inner],
    };
    let prims = outer.project_to_primitives(&square_rect(), &palette());
    assert_eq!(prims.len(), 2);
    assert!(matches!(prims[0], Primitive::Circle { .. }));
    assert!(matches!(prims[1], Primitive::Rect { .. }));
}

#[test]
fn draw_appends_grid_overlay() {
    let project = Project::default();
    let prims = project.draw(&square_rect(), 5);
    assert_eq!(prims.len(), 225);
    assert_eq!(
        prims[0],
        Primitive::RectOutline {
            min: Vec2 { x: Fx { units: 0 }, y: Fx { units: 0 } },
            max: Vec2 { x: Fx { units: 1000 }, y: Fx { units: 1000 } },
        }
    );
    assert_eq!(
        prims[224],
        Primitive::RectOutline {
            min: Vec2 { x: Fx { units: 14_000 }, y: Fx { units: 14_000 } },
            max: Vec2 { x: Fx { units: 15_000 }, y: Fx { units: 15_000 } },
        }
    );
}

#[test]
fn draw_limits_to_shape_count() {
    let project = Project {
        header: Header::default(),
        shapes: vec![Shape::default(), Shape::default(), Shape::default()],
    };
    let rect = square_rect();
    let one = project.draw(&rect, 1);
    let all = project.draw(&rect, 99);
    assert_eq!(one.len(), 1 + 225);
    assert_eq!(all.len(), 3 + 225);
}

#[test]
fn projection_is_deterministic() {
    let project = Project {
        header: Header::default(),
        shapes: vec![
            Shape {
                pos: Vec2 { x: Fx { units: 3500 }, y: Fx { units: 9250 } },
                size: Fx { units: 1500 },
                ty: ShapeType::Triangle,
                color: 6,
                moves: None,
                auto_shapes: vec![Shape::default()],
            },
        ],
    };
    let rect = Rect {
        min: Vec2 { x: Fx { units: 2000 }, y: Fx { units: 3000 } },
        max: Vec2 { x: Fx { units: 500_000 }, y: Fx { units: 400_000 } },
    };
    let first = project.draw(&rect, 1);
    let second = project.draw(&rect, 1);
    assert_eq!(first, second);
}

#[test]
fn non_square_rect_overscales_circle_radius() {
    let shape = Shape {
        pos: Vec2 { x: Fx { units: 0 }, y: Fx { units: 0 } },
        size: Fx { units: 0 },
        ty: ShapeType::Circle,
        color: 0,
        moves: None,
        auto_shapes: vec![],
    };
    let wide = Rect {
        min: Vec2 { x: Fx { units: 0 }, y: Fx { units: 0 } },
        max: Vec2 { x: Fx { units: 34_000 }, y: Fx { units: 17_000 } },
    };
    let prims = shape.project_to_primitives(&wide, &palette());
    match prims[0] {
        Primitive::Circle { radius, .. } => {
            assert_eq!(radius, Fx { units: 1000 });
        },
        _ => panic!("expected a circle"),
    }
}

#[test]
fn options_defaults() {
    let o = Options::default();
    assert!(o.dark_theme);
    assert!(o.executable_path.is_empty());
}

#[test]
fn options_menu_opens_unclosed() {
    let menu = OptionsMenu::new(Options { dark_theme: false, executable_path: "m".to_owned() });
    assert!(!menu.to_close);
    assert!(!menu.options.dark_theme);
    assert_eq!(menu.options.executable_path, "m");
}
