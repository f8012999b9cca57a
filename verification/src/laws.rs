use vstd::prelude::*;

use crate::fixed::fx;
use crate::header::{
    color_of, colors_of, header_decode, header_wire, hex_color, hexval, table_wire, HeaderM, Rgb,
};
use crate::project::{doc_decode, doc_wire, ProjectM};
use crate::shape::{
    fx_of, lemma_jget_smaller, lemma_strip_moves_noop, no_moves, shape_decode, shape_wire,
    shapes_decode, shapes_wf, shapes_wire, strip_moves, strip_moves_seq, tag_of, ShapeM,
};
use crate::wire::{jget, DecodeError, JVal};

verus! {

broadcast use vstd::seq::group_seq_axioms;

/// The wire keys of a shape object are pairwise distinct.
proof fn lemma_shape_keys_distinct()
    ensures
        "shape"@ != "color"@,
        "shape"@ != "x"@,
        "shape"@ != "y"@,
        "shape"@ != "scale"@,
        "shape"@ != "auto_shapes"@,
        "color"@ != "x"@,
        "color"@ != "y"@,
        "color"@ != "scale"@,
        "color"@ != "auto_shapes"@,
        "x"@ != "y"@,
        "x"@ != "scale"@,
        "x"@ != "auto_shapes"@,
        "y"@ != "scale"@,
        "y"@ != "auto_shapes"@,
        "scale"@ != "auto_shapes"@,
{
    reveal_strlit("shape");
    reveal_strlit("color");
    reveal_strlit("x");
    reveal_strlit("y");
    reveal_strlit("scale");
    reveal_strlit("auto_shapes");
    assert("shape"@[0] != "color"@[0]);
    assert("shape"@[1] != "scale"@[1]);
    assert("color"@[0] != "scale"@[0]);
    assert("x"@[0] != "y"@[0]);
}

/// Decoding what a well-formed shape encodes to gives the shape back, with
/// its movement sequences reset: the documented lossy asymmetry of the
/// wire format.
pub proof fn lemma_shape_roundtrip(m: ShapeM)
    requires
        m.wf(),
    ensures
        shape_decode(shape_wire(m)) == Ok::<ShapeM, DecodeError>(strip_moves(m)),
    decreases m,
{
    lemma_shape_keys_distinct();
    reveal_with_fuel(jget, 8);
    let base = seq![
        ("shape"@, JVal::Int(tag_of(m.ty) as i64)),
        ("color"@, JVal::Int(m.color as i64)),
        ("x"@, JVal::Fix(m.pos.x)),
        ("y"@, JVal::Fix(m.pos.y)),
        ("scale"@, JVal::Fix(fx(m.size@ + 1000))),
    ];
    if m.auto_shapes.len() == 0 {
        let e = base;
        assert(shape_wire(m) == JVal::Obj(e));
        assert(e.drop_first() =~= e.subrange(1, 5));
        assert(jget(e, "shape"@) == Some(JVal::Int(tag_of(m.ty) as i64)));
        assert(jget(e, "color"@) == Some(JVal::Int(m.color as i64)));
        assert(jget(e, "x"@) == Some(JVal::Fix(m.pos.x)));
        assert(jget(e, "y"@) == Some(JVal::Fix(m.pos.y)));
        assert(jget(e, "scale"@) == Some(JVal::Fix(fx(m.size@ + 1000))));
        assert(jget(e, "auto_shapes"@) is None);
        assert(shape_decode(shape_wire(m)) matches Ok(d) && d =~= strip_moves(m));
    } else {
        let e = base.push(("auto_shapes"@, JVal::Arr(shapes_wire(m.auto_shapes))));
        assert(shape_wire(m) == JVal::Obj(e));
        assert(jget(e, "shape"@) == Some(JVal::Int(tag_of(m.ty) as i64)));
        assert(jget(e, "color"@) == Some(JVal::Int(m.color as i64)));
        assert(jget(e, "x"@) == Some(JVal::Fix(m.pos.x)));
        assert(jget(e, "y"@) == Some(JVal::Fix(m.pos.y)));
        assert(jget(e, "scale"@) == Some(JVal::Fix(fx(m.size@ + 1000))));
        assert(jget(e, "auto_shapes"@) == Some(JVal::Arr(shapes_wire(m.auto_shapes))));
        lemma_shapes_roundtrip(m.auto_shapes);
        assert(shape_decode(shape_wire(m)) matches Ok(d) && d =~= strip_moves(m));
    }
}

/// The round trip, lifted to a list of shapes.
pub proof fn lemma_shapes_roundtrip(s: Seq<ShapeM>)
    requires
        shapes_wf(s),
    ensures
        shapes_decode(shapes_wire(s)) == Ok::<Seq<ShapeM>, DecodeError>(strip_moves_seq(s)),
    decreases s,
{
    if s.len() == 0 {
        assert(shapes_wire(s) =~= Seq::<JVal>::empty());
    } else {
        lemma_shape_roundtrip(s[0]);
        lemma_shapes_roundtrip(s.drop_first());
        assert(shapes_wire(s)[0] == shape_wire(s[0]));
        assert(shapes_wire(s).drop_first() =~= shapes_wire(s.drop_first()));
        assert(shapes_decode(shapes_wire(s)) matches Ok(d) && d =~= strip_moves_seq(s));
    }
}

/// Full round trip for shapes without movement sequences: on them, decode
/// is a two-sided inverse of encode.
pub proof fn lemma_shape_roundtrip_no_moves(m: ShapeM)
    requires
        m.wf(),
        no_moves(m),
    ensures
        shape_decode(shape_wire(m)) == Ok::<ShapeM, DecodeError>(m),
{
    lemma_shape_roundtrip(m);
    lemma_strip_moves_noop(m);
}


/// Parsing the `#RRGGBB` text of a color gives the color back.
pub proof fn lemma_hex_roundtrip(c: Rgb)
    ensures
        color_of(JVal::Str(hex_color(c))) == Some(c),
{
    let s = hex_color(c);
    assert(hexval(s[1]) == c.r as int / 16);
    assert(hexval(s[2]) == c.r as int % 16);
    assert(hexval(s[3]) == c.g as int / 16);
    assert(hexval(s[4]) == c.g as int % 16);
    assert(hexval(s[5]) == c.b as int / 16);
    assert(hexval(s[6]) == c.b as int % 16);
    assert(c.r as int == 16 * (c.r as int / 16) + (c.r as int % 16));
    assert(c.g as int == 16 * (c.g as int / 16) + (c.g as int % 16));
    assert(c.b as int == 16 * (c.b as int / 16) + (c.b as int % 16));
    assert(color_of(JVal::Str(s)) matches Some(d) && d == c);
}

/// The round trip of the whole palette.
pub proof fn lemma_table_roundtrip(t: Seq<Rgb>)
    ensures
        colors_of(table_wire(t)) == Some(t),
    decreases t,
{
    if t.len() == 0 {
        assert(table_wire(t) =~= Seq::<JVal>::empty());
        assert(colors_of(table_wire(t)) matches Some(d) && d =~= t);
    } else {
        lemma_hex_roundtrip(t[0]);
        lemma_table_roundtrip(t.drop_first());
        assert(table_wire(t)[0] == JVal::Str(hex_color(t[0])));
        assert(table_wire(t).drop_first() =~= table_wire(t.drop_first()));
        assert(colors_of(table_wire(t)) matches Some(d) && d =~= t);
    }
}

/// Decoding what a well-formed header encodes to gives the header back,
/// provided its offset is not marked as set by hand: that flag is not on
/// the wire and always decodes as false.
pub proof fn lemma_header_roundtrip(h: HeaderM)
    requires
        h.wf(),
        h.manual_offset == false,
    ensures
        header_decode(header_wire(h)) == Ok::<HeaderM, DecodeError>(h),
{
    reveal_strlit("name");
    reveal_strlit("genre");
    reveal_strlit("level_author");
    reveal_strlit("song_author");
    reveal_strlit("background_effect");
    reveal_strlit("bpm");
    reveal_strlit("offset");
    reveal_strlit("time_signature_top");
    reveal_strlit("time_signature_bottom");
    reveal_strlit("bg_color");
    reveal_strlit("color_table");
    assert("name"@.len() == 4);
    assert("genre"@.len() == 5);
    assert("level_author"@.len() == 12);
    assert("song_author"@.len() == 11);
    assert("background_effect"@.len() == 17);
    assert("bpm"@.len() == 3);
    assert("offset"@.len() == 6);
    assert("time_signature_top"@.len() == 18);
    assert("time_signature_bottom"@.len() == 21);
    assert("bg_color"@.len() == 8);
    assert("color_table"@.len() == 11);
    assert("song_author"@[0] != "color_table"@[0]);
    reveal_with_fuel(jget, 13);
    let e = seq![
        ("name"@, JVal::Str(h.name)),
        ("genre"@, JVal::Str(h.genre)),
        ("level_author"@, JVal::Str(h.level_author)),
        ("song_author"@, JVal::Str(h.song_author)),
        ("background_effect"@, JVal::Str(h.background_effect)),
        ("bpm"@, JVal::Int(h.bpm as i64)),
        ("offset"@, JVal::Int(h.offset as i64)),
        ("time_signature_top"@, JVal::Int(h.time_signature_top as i64)),
        ("time_signature_bottom"@, JVal::Int(h.time_signature_bottom as i64)),
        ("bg_color"@, JVal::Int(h.bg_color as i64)),
        ("color_table"@, JVal::Arr(table_wire(h.color_table))),
    ];
    assert(header_wire(h) == JVal::Obj(e));
    assert(jget(e, "name"@) == Some(JVal::Str(h.name)));
    assert(jget(e, "genre"@) == Some(JVal::Str(h.genre)));
    assert(jget(e, "level_author"@) == Some(JVal::Str(h.level_author)));
    assert(jget(e, "song_author"@) == Some(JVal::Str(h.song_author)));
    assert(jget(e, "background_effect"@) == Some(JVal::Str(h.background_effect)));
    assert(jget(e, "bpm"@) == Some(JVal::Int(h.bpm as i64)));
    assert(jget(e, "offset"@) == Some(JVal::Int(h.offset as i64)));
    assert(jget(e, "time_signature_top"@) == Some(JVal::Int(h.time_signature_top as i64)));
    assert(jget(e, "time_signature_bottom"@) == Some(JVal::Int(h.time_signature_bottom as i64)));
    assert(jget(e, "bg_color"@) == Some(JVal::Int(h.bg_color as i64)));
    assert(jget(e, "color_table"@) == Some(JVal::Arr(table_wire(h.color_table))));
    lemma_table_roundtrip(h.color_table);
    assert(header_decode(header_wire(h)) matches Ok(d) && d =~= h);
}

/// The round trip of a whole document (the law behind save followed by
/// load): a well-formed document whose offset is not marked manual comes
/// back exactly, except that every shape's movement sequence is reset —
/// the documented lossy asymmetry of the wire format.
pub proof fn lemma_doc_roundtrip(p: ProjectM)
    requires
        p.wf(),
        p.header.manual_offset == false,
    ensures
        doc_decode(doc_wire(p)) == Ok::<ProjectM, DecodeError>(
            ProjectM { header: p.header, shapes: strip_moves_seq(p.shapes) },
        ),
{
    let a = seq![header_wire(p.header)] + shapes_wire(p.shapes);
    assert(a[0] == header_wire(p.header));
    lemma_header_roundtrip(p.header);
    lemma_shapes_roundtrip(p.shapes);
    assert(a.drop_first() =~= shapes_wire(p.shapes));
    assert(doc_decode(doc_wire(p)) matches Ok(d) && d =~= ProjectM {
        header: p.header,
        shapes: strip_moves_seq(p.shapes),
    });
}


/// Encode writes the scale field as the size shifted up by one unit, for
/// every shape.
pub proof fn lemma_encode_scale(m: ShapeM)
    ensures
        shape_wire(m) matches JVal::Obj(e) && jget(e, "scale"@) == Some(
            JVal::Fix(fx(m.size@ + 1000)),
        ),
{
    lemma_shape_keys_distinct();
    reveal_with_fuel(jget, 8);
}

/// Decode reads the size back as the scale field shifted down by one unit:
/// whenever a shape decodes at all, its size is exactly the wire scale
/// minus one.
pub proof fn lemma_decode_scale(j: JVal)
    ensures
        shape_decode(j) matches Ok(m) ==> j matches JVal::Obj(e)
            && fx_of(jget(e, "scale"@)) matches Some(f) && m.size@ == f@ - 1000,
{
}

/// Palette indices of every decoded shape tree are valid.
pub open spec fn colors_valid(m: ShapeM) -> bool
    decreases m,
{
    m.color < 16 && colors_valid_seq(m.auto_shapes)
}

pub open spec fn colors_valid_seq(s: Seq<ShapeM>) -> bool
    decreases s,
{
    if s.len() == 0 {
        true
    } else {
        colors_valid(s[0]) && colors_valid_seq(s.drop_first())
    }
}

/// Any shape that passes decoding has a valid color index, and so has
/// every shape nested under it.
pub proof fn lemma_shape_decode_colors(j: JVal)
    ensures
        shape_decode(j) matches Ok(m) ==> colors_valid(m),
    decreases j,
{
    match j {
        JVal::Obj(e) => {
            match jget(e, "auto_shapes"@) {
                Some(av) => {
                    lemma_jget_smaller(e, "auto_shapes"@);
                    assert(decreases_to!(j => e));
                    match av {
                        JVal::Arr(a) => {
                            assert(decreases_to!(av => a));
                            lemma_shapes_decode_colors(a);
                        },
                        _ => (),
                    }
                },
                None => (),
            }
        },
        _ => (),
    }
}

pub proof fn lemma_shapes_decode_colors(s: Seq<JVal>)
    ensures
        shapes_decode(s) matches Ok(ms) ==> colors_valid_seq(ms),
    decreases s,
{
    if s.len() > 0 {
        lemma_shape_decode_colors(s[0]);
        lemma_shapes_decode_colors(s.drop_first());
        match shapes_decode(s) {
            Ok(ms) => {
                match (shape_decode(s[0]), shapes_decode(s.drop_first())) {
                    (Ok(m0), Ok(rest)) => {
                        assert(ms == seq![m0] + rest);
                        assert(ms[0] == m0);
                        assert(ms.drop_first() =~= rest);
                    },
                    _ => (),
                }
            },
            Err(_) => (),
        }
    }
}

/// Color index validity for a whole document: any document that passes
/// validation has its background color and every shape color, nested ones
/// included, in the palette's range.
pub proof fn lemma_doc_decode_colors(j: JVal)
    ensures
        doc_decode(j) matches Ok(p) ==> p.header.bg_color < 16 && colors_valid_seq(p.shapes),
{
    match j {
        JVal::Arr(a) => {
            if a.len() > 0 {
                lemma_shapes_decode_colors(a.drop_first());
            }
        },
        _ => (),
    }
}

} // verus!
