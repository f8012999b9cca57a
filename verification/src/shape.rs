use vstd::prelude::*;

use crate::fixed::{fx, Fx, Vec2};
use crate::header::req_int;
use crate::wire::{
    entries_model, jget, lemma_list_model_index, lemma_list_model_len, list_model, obj_push,
    value_model, DecodeError, Entry, JVal, Value,
};

verus! {

broadcast use vstd::std_specs::vec::group_vec_axioms, vstd::seq::group_seq_axioms;

/// The closed set of shape kinds.
#[derive(Clone, Copy, Debug, PartialEq, Eq, Structural)]
pub enum ShapeType {
    Circle,
    Square,
    Triangle,
}

/// One step of a planned movement sequence; kept in memory only, never
/// written to the wire format.
#[derive(Clone, Copy, Debug, PartialEq, Eq, Structural)]
pub enum Move {
    Up,
    Down,
    Left,
    Right,
    Expand,
    Shrink,
}

/// A placed shape: a grid position, a non-negative size, a kind, a palette
/// index, an optional movement sequence, and the nested shapes drawn right
/// after it. Each nested shape is owned exclusively by its parent.
#[derive(Debug, PartialEq)]
pub struct Shape {
    pub pos: Vec2,
    pub size: Fx,
    pub ty: ShapeType,
    pub color: usize,
    pub moves: Option<Vec<Move>>,
    pub auto_shapes: Vec<Shape>,
}

/// The mathematical model of a shape.
#[verifier::ext_equal]
pub struct ShapeM {
    pub pos: Vec2,
    pub size: Fx,
    pub ty: ShapeType,
    pub color: usize,
    pub moves: Option<Seq<Move>>,
    pub auto_shapes: Seq<ShapeM>,
}

pub open spec fn shape_model(s: Shape) -> ShapeM
    decreases s,
{
    ShapeM {
        pos: s.pos,
        size: s.size,
        ty: s.ty,
        color: s.color,
        moves: match s.moves {
            Some(v) => Some(v@),
            None => None,
        },
        auto_shapes: shapes_model(s.auto_shapes@),
    }
}

pub open spec fn shapes_model(s: Seq<Shape>) -> Seq<ShapeM>
    decreases s,
{
    if s.len() == 0 {
        Seq::empty()
    } else {
        seq![shape_model(s[0])] + shapes_model(s.drop_first())
    }
}

impl View for Shape {
    type V = ShapeM;

    open spec fn view(&self) -> ShapeM {
        shape_model(*self)
    }
}

pub broadcast proof fn lemma_shapes_model_len(s: Seq<Shape>)
    ensures
        #[trigger] shapes_model(s).len() == s.len(),
    decreases s,
{
    if s.len() > 0 {
        lemma_shapes_model_len(s.drop_first());
    }
}

pub broadcast proof fn lemma_shapes_model_index(s: Seq<Shape>, i: int)
    requires
        0 <= i < s.len(),
    ensures
        #[trigger] shapes_model(s)[i] == shape_model(s[i]),
    decreases s,
{
    lemma_shapes_model_len(s);
    if i > 0 {
        lemma_shapes_model_index(s.drop_first(), i - 1);
    }
}

impl ShapeM {
    /// The invariants a shape maintains: the color is a valid palette index
    /// and the size is non-negative and leaves room for the wire format's
    /// one-unit scale shift, recursively for the nested shapes.
    pub open spec fn wf(self) -> bool
        decreases self,
    {
        &&& self.color < 16
        &&& 0 <= self.size@
        &&& self.size@ + 1000 <= i64::MAX
        &&& shapes_wf(self.auto_shapes)
    }
}

pub open spec fn shapes_wf(s: Seq<ShapeM>) -> bool
    decreases s,
{
    if s.len() == 0 {
        true
    } else {
        s[0].wf() && shapes_wf(s.drop_first())
    }
}

pub proof fn lemma_shapes_wf_index(s: Seq<ShapeM>, i: int)
    requires
        shapes_wf(s),
        0 <= i < s.len(),
    ensures
        s[i].wf(),
    decreases s,
{
    if i > 0 {
        lemma_shapes_wf_index(s.drop_first(), i - 1);
    }
}

/// A fresh shape: a circle of minimum size in the middle of the grid, on
/// the first palette color, static and with nothing nested.
pub open spec fn default_shape() -> ShapeM {
    ShapeM {
        pos: Vec2 { x: fx(7000), y: fx(7000) },
        size: fx(0),
        ty: ShapeType::Circle,
        color: 0,
        moves: None,
        auto_shapes: Seq::empty(),
    }
}

impl Default for Shape {
    fn default() -> (r: Shape)
        ensures
            r@ == default_shape(),
            r@.wf(),
    {
        let r = Shape {
            pos: Vec2 { x: Fx { units: 7000 }, y: Fx { units: 7000 } },
            size: Fx { units: 0 },
            ty: ShapeType::Circle,
            color: 0,
            moves: None,
            auto_shapes: Vec::new(),
        };
        proof {
            assert(r@ =~= default_shape());
        }
        r
    }
}

/// The wire tag of a shape kind.
pub open spec fn tag_of(t: ShapeType) -> int {
    match t {
        ShapeType::Circle => 0,
        ShapeType::Square => 1,
        ShapeType::Triangle => 2,
    }
}

/// A shape object as it stands on the wire: tag, color index, raw grid
/// coordinates, the size shifted up by one, and — only when any exist — the
/// nested shapes under `auto_shapes`. Movement sequences are never written.
pub open spec fn shape_wire(m: ShapeM) -> JVal
    decreases m,
{
    let base = seq![
        ("shape"@, JVal::Int(tag_of(m.ty) as i64)),
        ("color"@, JVal::Int(m.color as i64)),
        ("x"@, JVal::Fix(m.pos.x)),
        ("y"@, JVal::Fix(m.pos.y)),
        ("scale"@, JVal::Fix(fx(m.size@ + 1000))),
    ];
    if m.auto_shapes.len() == 0 {
        JVal::Obj(base)
    } else {
        JVal::Obj(base.push(("auto_shapes"@, JVal::Arr(shapes_wire(m.auto_shapes)))))
    }
}

pub open spec fn shapes_wire(s: Seq<ShapeM>) -> Seq<JVal>
    decreases s,
{
    if s.len() == 0 {
        Seq::empty()
    } else {
        seq![shape_wire(s[0])] + shapes_wire(s.drop_first())
    }
}

pub proof fn lemma_shapes_wire_len(s: Seq<ShapeM>)
    ensures
        shapes_wire(s).len() == s.len(),
    decreases s,
{
    if s.len() > 0 {
        lemma_shapes_wire_len(s.drop_first());
    }
}

pub proof fn lemma_shapes_wire_index(s: Seq<ShapeM>, i: int)
    requires
        0 <= i < s.len(),
    ensures
        shapes_wire(s)[i] == shape_wire(s[i]),
    decreases s,
{
    lemma_shapes_wire_len(s);
    if i > 0 {
        lemma_shapes_wire_index(s.drop_first(), i - 1);
    }
}

impl Shape {
    /// Encodes this shape as a JSON object. Never fails: the invariants
    /// guarantee every field is representable.
    pub fn as_json(&self) -> (r: Value)
        requires
            self@.wf(),
        ensures
            r@ == shape_wire(self@),
        decreases *self,
    {
        let mut entries: Vec<Entry> = Vec::new();
        let tag: i64 = match self.ty {
            ShapeType::Circle => 0,
            ShapeType::Square => 1,
            ShapeType::Triangle => 2,
        };
        obj_push(&mut entries, "shape", Value::Int(tag));
        obj_push(&mut entries, "color", Value::Int(self.color as i64));
        obj_push(&mut entries, "x", Value::Fix(self.pos.x));
        obj_push(&mut entries, "y", Value::Fix(self.pos.y));
        obj_push(&mut entries, "scale", Value::Fix(Fx { units: self.size.units + 1000 }));
        if self.auto_shapes.len() > 0 {
            let ghost sm = shapes_model(self.auto_shapes@);
            proof {
                lemma_shapes_model_len(self.auto_shapes@);
            }
            let mut items: Vec<Value> = Vec::new();
            let mut i: usize = 0;
            proof {
                assert(sm.take(0) =~= Seq::<ShapeM>::empty());
                assert(list_model(items@) =~= shapes_wire(sm.take(0)));
            }
            while i < self.auto_shapes.len()
                invariant
                    i <= self.auto_shapes@.len(),
                    sm == shapes_model(self.auto_shapes@),
                    sm.len() == self.auto_shapes@.len(),
                    shapes_wf(sm),
                    list_model(items@) == shapes_wire(sm.take(i as int)),
                decreases self.auto_shapes@.len() - i,
            {
                proof {
                    lemma_shapes_model_index(self.auto_shapes@, i as int);
                    lemma_shapes_wf_index(sm, i as int);
                }
                let ghost pre = list_model(items@);
                let v = self.auto_shapes[i].as_json();
                crate::wire::arr_push(&mut items, v);
                proof {
                    lemma_shapes_wire_snoc(sm.take(i as int), sm[i as int]);
                    assert(sm.take(i as int + 1) =~= sm.take(i as int).push(sm[i as int]));
                    assert(list_model(items@) =~= shapes_wire(sm.take(i as int + 1)));
                }
                i = i + 1;
            }
            proof {
                assert(sm.take(sm.len() as int) =~= sm);
            }
            obj_push(&mut entries, "auto_shapes", Value::Arr(items));
        }
        let r = Value::Obj(entries);
        proof {
            let m = self@;
            if m.auto_shapes.len() == 0 {
                assert(entries_model(entries@) =~= seq![
                    ("shape"@, JVal::Int(tag_of(m.ty) as i64)),
                    ("color"@, JVal::Int(m.color as i64)),
                    ("x"@, JVal::Fix(m.pos.x)),
                    ("y"@, JVal::Fix(m.pos.y)),
                    ("scale"@, JVal::Fix(fx(m.size@ + 1000))),
                ]);
            } else {
                assert(entries_model(entries@) =~= seq![
                    ("shape"@, JVal::Int(tag_of(m.ty) as i64)),
                    ("color"@, JVal::Int(m.color as i64)),
                    ("x"@, JVal::Fix(m.pos.x)),
                    ("y"@, JVal::Fix(m.pos.y)),
                    ("scale"@, JVal::Fix(fx(m.size@ + 1000))),
                ].push(("auto_shapes"@, JVal::Arr(shapes_wire(m.auto_shapes)))));
            }
            assert(r@ == shape_wire(self@));
        }
        r
    }
}

pub proof fn lemma_shapes_wire_snoc(s: Seq<ShapeM>, x: ShapeM)
    ensures
        shapes_wire(s.push(x)) == shapes_wire(s) + seq![shape_wire(x)],
    decreases s.len(),
{
    if s.len() == 0 {
        assert(s.push(x)[0] == x);
        assert(s.push(x).drop_first() =~= Seq::<ShapeM>::empty());
        assert(shapes_wire(Seq::<ShapeM>::empty()) == Seq::<JVal>::empty());
        assert(shapes_wire(s.push(x)) == seq![shape_wire(x)]
            + shapes_wire(Seq::<ShapeM>::empty()));
        assert(shapes_wire(s.push(x)) =~= shapes_wire(s) + seq![shape_wire(x)]);
    } else {
        assert(s.push(x)[0] == s[0]);
        assert(s.push(x).drop_first() =~= s.drop_first().push(x));
        lemma_shapes_wire_snoc(s.drop_first(), x);
        assert(shapes_wire(s.push(x)) =~= shapes_wire(s) + seq![shape_wire(x)]);
    }
}

/// The fixed-point number a wire coordinate stands for: a `Fix` number as
/// it is, an integer scaled to thousandths when that fits.
pub open spec fn fx_of(j: Option<JVal>) -> Option<Fx> {
    match j {
        Some(JVal::Fix(f)) => Some(f),
        Some(JVal::Int(n)) => if -9223372036854775 <= n <= 9223372036854775 {
            Some(fx(n * 1000))
        } else {
            None
        },
        _ => None,
    }
}

/// A value found under a key is structurally smaller than the object
/// sequence holding it.
pub proof fn lemma_jget_smaller(m: Seq<(Seq<char>, JVal)>, key: Seq<char>)
    requires
        jget(m, key) is Some,
    ensures
        (decreases_to!(m => jget(m, key)->0)),
    decreases m,
{
    if m.len() != 0 {
        if m[0].0 == key {
            assert(decreases_to!(m => m[0]));
            assert(decreases_to!(m[0] => m[0].1));
        } else {
            lemma_jget_smaller(m.drop_first(), key);
            assert(m.drop_first() =~= m.subrange(1, m.len() as int));
            assert(decreases_to!(m => m.subrange(1, m.len() as int)));
        }
    }
}

/// What decoding a shape object yields. The `shape` tag must be 0, 1 or 2;
/// `color` a valid palette index; `x`, `y` and `scale` numbers; nested
/// shapes decode recursively when `auto_shapes` holds an array and are empty
/// otherwise; the movement sequence always starts out absent.
pub open spec fn shape_decode(j: JVal) -> Result<ShapeM, DecodeError>
    decreases j,
    via shape_decode_decreases
{
    match j {
        JVal::Obj(m) => {
            let tag = req_int(jget(m, "shape"@), 0, 2);
            let color = req_int(jget(m, "color"@), 0, 15);
            let x = fx_of(jget(m, "x"@));
            let y = fx_of(jget(m, "y"@));
            let scale = fx_of(jget(m, "scale"@));
            if tag is None {
                Err(DecodeError::InvalidShapeKind)
            } else if color is None {
                Err(DecodeError::InvalidColorIndex)
            } else if x is None || y is None || scale is None {
                Err(DecodeError::MalformedJson)
            } else if (scale->0)@ < i64::MIN + 1000 {
                Err(DecodeError::MalformedJson)
            } else {
                let autos = match jget(m, "auto_shapes"@) {
                    Some(JVal::Arr(a)) => shapes_decode(a),
                    _ => Ok(Seq::empty()),
                };
                match autos {
                    Err(e) => Err(e),
                    Ok(auto_shapes) => Ok(
                        ShapeM {
                            pos: Vec2 { x: x->0, y: y->0 },
                            size: fx((scale->0)@ - 1000),
                            ty: if tag->0 == 0 {
                                ShapeType::Circle
                            } else if tag->0 == 1 {
                                ShapeType::Square
                            } else {
                                ShapeType::Triangle
                            },
                            color: (color->0) as usize,
                            moves: None,
                            auto_shapes,
                        },
                    ),
                }
            }
        },
        _ => Err(DecodeError::MalformedJson),
    }
}

#[via_fn]
proof fn shape_decode_decreases(j: JVal) {
    match j {
        JVal::Obj(m) => {
            match jget(m, "auto_shapes"@) {
                Some(av) => {
                    lemma_jget_smaller(m, "auto_shapes"@);
                    assert(decreases_to!(j => m));
                    match av {
                        JVal::Arr(a) => {
                            assert(decreases_to!(av => a));
                        },
                        _ => {},
                    }
                },
                None => {},
            }
        },
        _ => {},
    }
}

pub open spec fn shapes_decode(s: Seq<JVal>) -> Result<Seq<ShapeM>, DecodeError>
    decreases s,
{
    if s.len() == 0 {
        Ok(Seq::empty())
    } else {
        match shape_decode(s[0]) {
            Err(e) => Err(e),
            Ok(sm) => match shapes_decode(s.drop_first()) {
                Err(e) => Err(e),
                Ok(rest) => Ok(seq![sm] + rest),
            },
        }
    }
}

/// The index of the first entry under `key`, if any.
fn find_key(entries: &Vec<Entry>, key: &str) -> (r: Option<usize>)
    ensures
        match r {
            Some(j) => j < entries@.len()
                && jget(entries_model(entries@), key@)
                    == Some(value_model(entries@[j as int].value)),
            None => jget(entries_model(entries@), key@) is None,
        },
{
    let ghost m = entries_model(entries@);
    proof {
        crate::wire::lemma_entries_model_len(entries@);
        assert(m.skip(0) =~= m);
    }
    let key_string = key.to_owned();
    let mut i: usize = 0;
    while i < entries.len()
        invariant
            i <= entries@.len(),
            m == entries_model(entries@),
            m.len() == entries@.len(),
            key_string@ == key@,
            jget(m, key@) == jget(m.skip(i as int), key@),
        decreases entries@.len() - i,
    {
        proof {
            crate::wire::lemma_entries_model_index(entries@, i as int);
            assert(m.skip(i as int)[0] == m[i as int]);
        }
        if entries[i].key == key_string {
            proof {
                assert(jget(m.skip(i as int), key@) == Some(m[i as int].1));
            }
            return Some(i);
        }
        proof {
            assert(m.skip(i as int).drop_first() =~= m.skip(i as int + 1));
        }
        i = i + 1;
    }
    proof {
        assert(m.skip(i as int).len() == 0);
    }
    None
}

impl Shape {
    /// Decodes a shape from a JSON object, per `shape_decode`.
    pub fn from_json(v: &Value) -> (r: Result<Shape, DecodeError>)
        ensures
            match r {
                Ok(s) => shape_decode(v@) == Ok::<ShapeM, DecodeError>(s@),
                Err(e) => shape_decode(v@) == Err::<ShapeM, DecodeError>(e),
            },
        decreases *v,
    {
        let entries = match v {
            Value::Obj(entries) => entries,
            _ => { return Err(DecodeError::MalformedJson); },
        };
        let ghost m = entries_model(entries@);
        let tag: i64 = match v.get("shape") {
            Some(Value::Int(n)) => {
                if 0 <= *n && *n <= 2 {
                    *n
                } else {
                    return Err(DecodeError::InvalidShapeKind);
                }
            },
            _ => { return Err(DecodeError::InvalidShapeKind); },
        };
        let color: usize = match v.get("color") {
            Some(Value::Int(n)) => {
                if 0 <= *n && *n <= 15 {
                    *n as usize
                } else {
                    return Err(DecodeError::InvalidColorIndex);
                }
            },
            _ => { return Err(DecodeError::InvalidColorIndex); },
        };
        let x: Fx = match fx_value(v.get("x")) {
            Some(f) => f,
            None => { return Err(DecodeError::MalformedJson); },
        };
        let y: Fx = match fx_value(v.get("y")) {
            Some(f) => f,
            None => { return Err(DecodeError::MalformedJson); },
        };
        let scale: Fx = match fx_value(v.get("scale")) {
            Some(f) => f,
            None => { return Err(DecodeError::MalformedJson); },
        };
        if scale.units < i64::MIN + 1000 {
            return Err(DecodeError::MalformedJson);
        }
        let mut auto_shapes: Vec<Shape> = Vec::new();
        let autos_at = find_key(entries, "auto_shapes");
        match autos_at {
            None => {
                proof {
                    assert(v@ == JVal::Obj(m));
                }
            },
            Some(j) => {
                match &entries[j].value {
                    Value::Arr(items) => {
                        let ghost am = list_model(items@);
                        proof {
                            lemma_list_model_len(items@);
                            assert(am.skip(0) =~= am);
                        }
                        let mut i: usize = 0;
                        while i < items.len()
                            invariant
                                i <= items@.len(),
                                am == list_model(items@),
                                am.len() == items@.len(),
                                j < entries@.len(),
                                *v matches Value::Obj(ev) && ev@ == entries@,
                                entries@[j as int].value matches Value::Arr(iv) && iv@ == items@,
                                shapes_model(auto_shapes@).len() == i,
                                shape_decode(v@) == (match shapes_decode(am) {
                                    Err(e2) => Err::<ShapeM, DecodeError>(e2),
                                    Ok(aut) => Ok::<ShapeM, DecodeError>(
                                        ShapeM {
                                            pos: Vec2 { x, y },
                                            size: fx(scale@ - 1000),
                                            ty: if tag == 0 {
                                                ShapeType::Circle
                                            } else if tag == 1 {
                                                ShapeType::Square
                                            } else {
                                                ShapeType::Triangle
                                            },
                                            color: color as usize,
                                            moves: None,
                                            auto_shapes: aut,
                                        },
                                    ),
                                }),
                                shapes_decode(am) == match shapes_decode(am.skip(i as int)) {
                                    Ok(rest) => Ok::<Seq<ShapeM>, DecodeError>(
                                        shapes_model(auto_shapes@) + rest,
                                    ),
                                    Err(e) => Err::<Seq<ShapeM>, DecodeError>(e),
                                },
                            decreases items@.len() - i,
                        {
                            proof {
                                lemma_list_model_index(items@, i as int);
                                assert(am.skip(i as int)[0] == am[i as int]);
                                assert(am.skip(i as int).drop_first() =~= am.skip(i as int + 1));
                                lemma_shapes_model_len(auto_shapes@);
                                assert(decreases_to!(*v => entries@));
                                assert(decreases_to!(entries@ => entries@[j as int]));
                                assert(decreases_to!(entries@[j as int]
                                    => entries@[j as int].value));
                                assert(decreases_to!(entries@[j as int].value => items@));
                                assert(decreases_to!(items@ => items@[i as int]));
                                assert(decreases_to!(*v => items@[i as int]));
                            }
                            let ghost pre = shapes_model(auto_shapes@);
                            let ghost prev = auto_shapes@;
                            match Shape::from_json(&items[i]) {
                                Ok(s) => {
                                    auto_shapes.push(s);
                                    proof {
                                        lemma_shapes_model_snoc(prev, s);
                                        match shapes_decode(am.skip(i as int + 1)) {
                                            Ok(rest) => {
                                                assert(shapes_model(auto_shapes@) + rest
                                                    =~= pre + (seq![s@] + rest));
                                            },
                                            Err(_) => {},
                                        }
                                    }
                                },
                                Err(e) => {
                                    return Err(e);
                                },
                            }
                            i = i + 1;
                        }
                        proof {
                            assert(am.skip(i as int) =~= Seq::<JVal>::empty());
                            assert(shapes_decode(am.skip(i as int))
                                == Ok::<Seq<ShapeM>, DecodeError>(Seq::empty()));
                            assert(shapes_model(auto_shapes@) + Seq::<ShapeM>::empty()
                                =~= shapes_model(auto_shapes@));
                        }
                    },
                    _ => {
                        proof {
                            assert(shapes_model(auto_shapes@) =~= Seq::<ShapeM>::empty());
                        }
                    },
                }
            },
        }
        let r = Shape {
            pos: Vec2 { x, y },
            size: Fx { units: scale.units - 1000 },
            ty: if tag == 0 {
                ShapeType::Circle
            } else if tag == 1 {
                ShapeType::Square
            } else {
                ShapeType::Triangle
            },
            color,
            moves: None,
            auto_shapes,
        };
        proof {
            assert(shape_decode(v@) matches Ok(sm) && sm =~= r@);
        }
        Ok(r)
    }
}

pub proof fn lemma_shapes_model_snoc(s: Seq<Shape>, x: Shape)
    ensures
        shapes_model(s.push(x)) == shapes_model(s) + seq![shape_model(x)],
    decreases s.len(),
{
    if s.len() == 0 {
        assert(s.push(x)[0] == x);
        assert(s.push(x).drop_first() =~= Seq::<Shape>::empty());
        assert(shapes_model(Seq::<Shape>::empty()) == Seq::<ShapeM>::empty());
        assert(shapes_model(s.push(x)) == seq![shape_model(x)]
            + shapes_model(Seq::<Shape>::empty()));
        assert(shapes_model(s.push(x)) =~= shapes_model(s) + seq![shape_model(x)]);
    } else {
        assert(s.push(x)[0] == s[0]);
        assert(s.push(x).drop_first() =~= s.drop_first().push(x));
        lemma_shapes_model_snoc(s.drop_first(), x);
        assert(shapes_model(s.push(x)) =~= shapes_model(s) + seq![shape_model(x)]);
    }
}

/// The number a wire coordinate field holds, scaled to thousandths.
fn fx_value(v: Option<&Value>) -> (r: Option<Fx>)
    ensures
        r == fx_of(
            match v {
                Some(val) => Some(val@),
                None => None,
            },
        ),
{
    match v {
        Some(Value::Fix(f)) => Some(*f),
        Some(Value::Int(n)) => {
            if -9223372036854775 <= *n && *n <= 9223372036854775 {
                Some(Fx { units: *n * 1000 })
            } else {
                None
            }
        },
        _ => None,
    }
}


/// The same shape with every movement sequence removed, recursively: what
/// survives a trip through the wire format.
pub open spec fn strip_moves(m: ShapeM) -> ShapeM
    decreases m,
{
    ShapeM {
        pos: m.pos,
        size: m.size,
        ty: m.ty,
        color: m.color,
        moves: None,
        auto_shapes: strip_moves_seq(m.auto_shapes),
    }
}

pub open spec fn strip_moves_seq(s: Seq<ShapeM>) -> Seq<ShapeM>
    decreases s,
{
    if s.len() == 0 {
        Seq::empty()
    } else {
        seq![strip_moves(s[0])] + strip_moves_seq(s.drop_first())
    }
}

/// Whether a shape and all its nested shapes carry no movement sequence.
pub open spec fn no_moves(m: ShapeM) -> bool
    decreases m,
{
    m.moves is None && no_moves_seq(m.auto_shapes)
}

pub open spec fn no_moves_seq(s: Seq<ShapeM>) -> bool
    decreases s,
{
    if s.len() == 0 {
        true
    } else {
        no_moves(s[0]) && no_moves_seq(s.drop_first())
    }
}

/// Stripping the movement sequences of a shape that has none leaves it
/// unchanged.
pub proof fn lemma_strip_moves_noop(m: ShapeM)
    requires
        no_moves(m),
    ensures
        strip_moves(m) == m,
    decreases m,
{
    lemma_strip_moves_seq_noop(m.auto_shapes);
    assert(strip_moves(m) =~= m);
}

pub proof fn lemma_strip_moves_seq_noop(s: Seq<ShapeM>)
    requires
        no_moves_seq(s),
    ensures
        strip_moves_seq(s) == s,
    decreases s,
{
    if s.len() > 0 {
        lemma_strip_moves_noop(s[0]);
        lemma_strip_moves_seq_noop(s.drop_first());
        assert(strip_moves_seq(s) =~= seq![s[0]] + s.drop_first());
        assert(seq![s[0]] + s.drop_first() =~= s);
    }
}

} // verus!
