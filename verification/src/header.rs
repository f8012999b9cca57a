use vstd::prelude::*;

use crate::wire::{
    arr_push, entries_model, jget, lemma_list_model_index, lemma_list_model_len, list_model,
    obj_push, value_model, DecodeError, Entry, JVal, Value,
};

verus! {

broadcast use vstd::std_specs::vec::group_vec_axioms, vstd::seq::group_seq_axioms;

/// One palette entry: a color as red, green and blue bytes.
#[derive(Clone, Copy, Debug, PartialEq, Eq, Structural)]
pub struct Rgb {
    pub r: u8,
    pub g: u8,
    pub b: u8,
}

/// The document-level metadata of a chart: title, authors, tempo, timing and
/// the 16-entry color palette that shapes and the background refer to by
/// index.
#[derive(Debug, PartialEq)]
pub struct Header {
    pub name: String,
    pub genre: String,
    pub level_author: String,
    pub song_author: String,
    pub bpm: u16,
    pub offset: u16,
    /// Whether `offset` was set by hand rather than derived from the time
    /// signature; kept so the stored offset survives while it is inactive.
    pub manual_offset: bool,
    pub time_signature_top: u8,
    pub time_signature_bottom: u8,
    pub bg_color: u8,
    pub background_effect: String,
    pub color_table: Vec<Rgb>,
}

/// The mathematical model of a header.
#[verifier::ext_equal]
pub struct HeaderM {
    pub name: Seq<char>,
    pub genre: Seq<char>,
    pub level_author: Seq<char>,
    pub song_author: Seq<char>,
    pub bpm: u16,
    pub offset: u16,
    pub manual_offset: bool,
    pub time_signature_top: u8,
    pub time_signature_bottom: u8,
    pub bg_color: u8,
    pub background_effect: Seq<char>,
    pub color_table: Seq<Rgb>,
}

impl View for Header {
    type V = HeaderM;

    open spec fn view(&self) -> HeaderM {
        HeaderM {
            name: self.name@,
            genre: self.genre@,
            level_author: self.level_author@,
            song_author: self.song_author@,
            bpm: self.bpm,
            offset: self.offset,
            manual_offset: self.manual_offset,
            time_signature_top: self.time_signature_top,
            time_signature_bottom: self.time_signature_bottom,
            bg_color: self.bg_color,
            background_effect: self.background_effect@,
            color_table: self.color_table@,
        }
    }
}

impl HeaderM {
    /// The invariants a header maintains: tempo, offset and time signature
    /// are never zero, the background color is a valid palette index, and
    /// the palette has exactly 16 entries.
    pub open spec fn wf(self) -> bool {
        &&& self.bpm >= 1
        &&& self.offset >= 1
        &&& self.time_signature_top >= 1
        &&& self.time_signature_bottom >= 1
        &&& self.bg_color < 16
        &&& self.color_table.len() == 16
    }
}

/// The default palette.
pub open spec fn default_palette() -> Seq<Rgb> {
    seq![
        Rgb { r: 0xFF, g: 0xFF, b: 0xFF },
        Rgb { r: 0x00, g: 0x00, b: 0xFF },
        Rgb { r: 0x00, g: 0xFF, b: 0x00 },
        Rgb { r: 0x00, g: 0xFF, b: 0xFF },
        Rgb { r: 0xFF, g: 0x00, b: 0x00 },
        Rgb { r: 0xFF, g: 0x00, b: 0xFF },
        Rgb { r: 0xFF, g: 0x66, b: 0x00 },
        Rgb { r: 0xAA, g: 0xAA, b: 0xAA },
        Rgb { r: 0x66, g: 0x66, b: 0x66 },
        Rgb { r: 0x66, g: 0x66, b: 0xFF },
        Rgb { r: 0x66, g: 0xFF, b: 0x66 },
        Rgb { r: 0x66, g: 0xFF, b: 0xFF },
        Rgb { r: 0xFF, g: 0x66, b: 0x66 },
        Rgb { r: 0xFF, g: 0x66, b: 0xFF },
        Rgb { r: 0xFF, g: 0xFF, b: 0x22 },
        Rgb { r: 0x00, g: 0x00, b: 0x00 },
    ]
}

/// A header at its documented defaults: an untitled 120-bpm chart in 4/4,
/// offset derived as `4 * 4 * 2`, background on the last palette entry.
pub open spec fn default_header() -> HeaderM {
    HeaderM {
        name: "Untitled"@,
        genre: "Unknown"@,
        level_author: "Anonymous"@,
        song_author: "Anonymous"@,
        bpm: 120,
        offset: 32,
        manual_offset: false,
        time_signature_top: 4,
        time_signature_bottom: 4,
        bg_color: 15,
        background_effect: "none"@,
        color_table: default_palette(),
    }
}

/// The default palette as a vector.
pub fn default_color_table() -> (r: Vec<Rgb>)
    ensures
        r@ == default_palette(),
{
    let mut t: Vec<Rgb> = Vec::new();
    t.push(Rgb { r: 0xFF, g: 0xFF, b: 0xFF });
    t.push(Rgb { r: 0x00, g: 0x00, b: 0xFF });
    t.push(Rgb { r: 0x00, g: 0xFF, b: 0x00 });
    t.push(Rgb { r: 0x00, g: 0xFF, b: 0xFF });
    t.push(Rgb { r: 0xFF, g: 0x00, b: 0x00 });
    t.push(Rgb { r: 0xFF, g: 0x00, b: 0xFF });
    t.push(Rgb { r: 0xFF, g: 0x66, b: 0x00 });
    t.push(Rgb { r: 0xAA, g: 0xAA, b: 0xAA });
    t.push(Rgb { r: 0x66, g: 0x66, b: 0x66 });
    t.push(Rgb { r: 0x66, g: 0x66, b: 0xFF });
    t.push(Rgb { r: 0x66, g: 0xFF, b: 0x66 });
    t.push(Rgb { r: 0x66, g: 0xFF, b: 0xFF });
    t.push(Rgb { r: 0xFF, g: 0x66, b: 0x66 });
    t.push(Rgb { r: 0xFF, g: 0x66, b: 0xFF });
    t.push(Rgb { r: 0xFF, g: 0xFF, b: 0x22 });
    t.push(Rgb { r: 0x00, g: 0x00, b: 0x00 });
    proof {
        assert(t@ =~= default_palette());
    }
    t
}

impl Default for Header {
    /// A header with every field at its documented default.
    fn default() -> (r: Header)
        ensures
            r@ == default_header(),
            r@.wf(),
    {
        let r = Header {
            name: "Untitled".to_owned(),
            genre: "Unknown".to_owned(),
            level_author: "Anonymous".to_owned(),
            song_author: "Anonymous".to_owned(),
            bpm: 120,
            offset: 32,
            manual_offset: false,
            time_signature_top: 4,
            time_signature_bottom: 4,
            bg_color: 15,
            background_effect: "none".to_owned(),
            color_table: default_color_table(),
        };
        proof {
            assert(r@ =~= default_header());
        }
        r
    }
}

/// The hexadecimal digit `d` as an uppercase character.
pub open spec fn hexup(d: int) -> char {
    if d == 0 { '0' }
    else if d == 1 { '1' }
    else if d == 2 { '2' }
    else if d == 3 { '3' }
    else if d == 4 { '4' }
    else if d == 5 { '5' }
    else if d == 6 { '6' }
    else if d == 7 { '7' }
    else if d == 8 { '8' }
    else if d == 9 { '9' }
    else if d == 10 { 'A' }
    else if d == 11 { 'B' }
    else if d == 12 { 'C' }
    else if d == 13 { 'D' }
    else if d == 14 { 'E' }
    else { 'F' }
}

/// The value of an uppercase hexadecimal digit, or 16 for any other
/// character.
pub open spec fn hexval(c: char) -> int {
    if c == '0' { 0 }
    else if c == '1' { 1 }
    else if c == '2' { 2 }
    else if c == '3' { 3 }
    else if c == '4' { 4 }
    else if c == '5' { 5 }
    else if c == '6' { 6 }
    else if c == '7' { 7 }
    else if c == '8' { 8 }
    else if c == '9' { 9 }
    else if c == 'A' { 10 }
    else if c == 'B' { 11 }
    else if c == 'C' { 12 }
    else if c == 'D' { 13 }
    else if c == 'E' { 14 }
    else if c == 'F' { 15 }
    else { 16 }
}

/// A color as the wire format writes it: `#RRGGBB`, uppercase.
pub open spec fn hex_color(c: Rgb) -> Seq<char> {
    seq![
        '#',
        hexup(c.r as int / 16),
        hexup(c.r as int % 16),
        hexup(c.g as int / 16),
        hexup(c.g as int % 16),
        hexup(c.b as int / 16),
        hexup(c.b as int % 16),
    ]
}

fn push_hexup(d: u8, out: &mut String)
    requires
        d < 16,
    ensures
        final(out)@ == old(out)@ + seq![hexup(d as int)],
{
    let ghost base = out@;
    if d == 0 { out.push('0'); }
    else if d == 1 { out.push('1'); }
    else if d == 2 { out.push('2'); }
    else if d == 3 { out.push('3'); }
    else if d == 4 { out.push('4'); }
    else if d == 5 { out.push('5'); }
    else if d == 6 { out.push('6'); }
    else if d == 7 { out.push('7'); }
    else if d == 8 { out.push('8'); }
    else if d == 9 { out.push('9'); }
    else if d == 10 { out.push('A'); }
    else if d == 11 { out.push('B'); }
    else if d == 12 { out.push('C'); }
    else if d == 13 { out.push('D'); }
    else if d == 14 { out.push('E'); }
    else { out.push('F'); }
    proof {
        assert(out@ =~= base + seq![hexup(d as int)]);
    }
}

/// The `#RRGGBB` text of a palette entry.
pub fn color_string(c: Rgb) -> (r: String)
    ensures
        r@ == hex_color(c),
{
    let mut out = String::new();
    out.push('#');
    push_hexup(c.r / 16, &mut out);
    push_hexup(c.r % 16, &mut out);
    push_hexup(c.g / 16, &mut out);
    push_hexup(c.g % 16, &mut out);
    push_hexup(c.b / 16, &mut out);
    push_hexup(c.b % 16, &mut out);
    proof {
        assert(out@ =~= hex_color(c));
    }
    out
}

/// The palette as it stands on the wire: one `#RRGGBB` string per entry.
pub open spec fn table_wire(t: Seq<Rgb>) -> Seq<JVal> {
    Seq::new(t.len(), |i: int| JVal::Str(hex_color(t[i])))
}

/// A header object as it stands on the wire, keys in this fixed order.
pub open spec fn header_wire(h: HeaderM) -> JVal {
    JVal::Obj(
        seq![
            ("name"@, JVal::Str(h.name)),
            ("genre"@, JVal::Str(h.genre)),
            ("level_author"@, JVal::Str(h.level_author)),
            ("song_author"@, JVal::Str(h.song_author)),
            ("background_effect"@, JVal::Str(h.background_effect)),
            ("bpm"@, JVal::Int(h.bpm as i64)),
            ("offset"@, JVal::Int(h.offset as i64)),
            ("time_signature_top"@, JVal::Int(h.time_signature_top as i64)),
            ("time_signature_bottom"@, JVal::Int(h.time_signature_bottom as i64)),
            ("bg_color"@, JVal::Int(h.bg_color as i64)),
            ("color_table"@, JVal::Arr(table_wire(h.color_table))),
        ],
    )
}

impl Header {
    /// This header as a JSON object, ready to stand at index 0 of a chart
    /// file. Never fails: every in-memory header is representable.
    pub fn as_json(&self) -> (r: Value)
        ensures
            r@ == header_wire(self@),
    {
        let mut items: Vec<Value> = Vec::new();
        let ghost t = self.color_table@;
        let mut i: usize = 0;
        proof {
            assert(t.take(0) =~= Seq::<Rgb>::empty());
            assert(list_model(items@) =~= table_wire(t.take(0)));
        }
        while i < self.color_table.len()
            invariant
                i <= t.len(),
                t == self.color_table@,
                list_model(items@) == table_wire(t.take(i as int)),
            decreases t.len() - i,
        {
            arr_push(&mut items, Value::Str(color_string(self.color_table[i])));
            proof {
                assert(t.take(i as int + 1) =~= t.take(i as int).push(t[i as int]));
                assert(table_wire(t.take(i as int + 1)) =~= table_wire(t.take(i as int))
                    .push(JVal::Str(hex_color(t[i as int]))));
                assert(list_model(items@) =~= table_wire(t.take(i as int + 1)));
            }
            i = i + 1;
        }
        proof {
            assert(t.take(t.len() as int) =~= t);
        }
        let mut entries: Vec<Entry> = Vec::new();
        obj_push(&mut entries, "name", Value::Str(self.name.clone()));
        obj_push(&mut entries, "genre", Value::Str(self.genre.clone()));
        obj_push(&mut entries, "level_author", Value::Str(self.level_author.clone()));
        obj_push(&mut entries, "song_author", Value::Str(self.song_author.clone()));
        obj_push(&mut entries, "background_effect", Value::Str(self.background_effect.clone()));
        obj_push(&mut entries, "bpm", Value::Int(self.bpm as i64));
        obj_push(&mut entries, "offset", Value::Int(self.offset as i64));
        obj_push(&mut entries, "time_signature_top", Value::Int(self.time_signature_top as i64));
        obj_push(
            &mut entries,
            "time_signature_bottom",
            Value::Int(self.time_signature_bottom as i64),
        );
        obj_push(&mut entries, "bg_color", Value::Int(self.bg_color as i64));
        obj_push(&mut entries, "color_table", Value::Arr(items));
        let r = Value::Obj(entries);
        proof {
            assert(entries_model(entries@) =~= seq![
                ("name"@, JVal::Str(self.name@)),
                ("genre"@, JVal::Str(self.genre@)),
                ("level_author"@, JVal::Str(self.level_author@)),
                ("song_author"@, JVal::Str(self.song_author@)),
                ("background_effect"@, JVal::Str(self.background_effect@)),
                ("bpm"@, JVal::Int(self.bpm as i64)),
                ("offset"@, JVal::Int(self.offset as i64)),
                ("time_signature_top"@, JVal::Int(self.time_signature_top as i64)),
                ("time_signature_bottom"@, JVal::Int(self.time_signature_bottom as i64)),
                ("bg_color"@, JVal::Int(self.bg_color as i64)),
                ("color_table"@, JVal::Arr(table_wire(self.color_table@))),
            ]);
            assert(r@ == header_wire(self@));
        }
        r
    }
}


/// The color a wire string stands for: exactly `#RRGGBB` with uppercase
/// hexadecimal digits, anything else is rejected.
pub open spec fn color_of(j: JVal) -> Option<Rgb> {
    match j {
        JVal::Str(s) => if s.len() == 7 && s[0] == '#' && hexval(s[1]) < 16 && hexval(s[2]) < 16
            && hexval(s[3]) < 16 && hexval(s[4]) < 16 && hexval(s[5]) < 16 && hexval(s[6]) < 16 {
            Some(
                Rgb {
                    r: (hexval(s[1]) * 16 + hexval(s[2])) as u8,
                    g: (hexval(s[3]) * 16 + hexval(s[4])) as u8,
                    b: (hexval(s[5]) * 16 + hexval(s[6])) as u8,
                },
            )
        } else {
            None
        },
        _ => None,
    }
}

/// All colors of a wire palette, or `None` if any entry is rejected.
pub open spec fn colors_of(s: Seq<JVal>) -> Option<Seq<Rgb>>
    decreases s,
{
    if s.len() == 0 {
        Some(Seq::empty())
    } else {
        match color_of(s[0]) {
            Some(c) => match colors_of(s.drop_first()) {
                Some(rest) => Some(seq![c] + rest),
                None => None,
            },
            None => None,
        }
    }
}

pub proof fn lemma_colors_of_len(s: Seq<JVal>)
    ensures
        colors_of(s) matches Some(t) ==> t.len() == s.len(),
    decreases s,
{
    if s.len() > 0 {
        lemma_colors_of_len(s.drop_first());
    }
}

/// The palette a decoded header gets: the wire table when it is an array of
/// exactly 16 well-formed `#RRGGBB` strings, the default palette otherwise
/// (including when the field is absent — the palette is not authoritative on
/// old files).
pub open spec fn table_of(o: Option<JVal>) -> Seq<Rgb> {
    match o {
        Some(JVal::Arr(a)) => if a.len() == 16 {
            match colors_of(a) {
                Some(t) => t,
                None => default_palette(),
            }
        } else {
            default_palette()
        },
        _ => default_palette(),
    }
}

/// A required string field of the header object.
pub open spec fn str_field(m: Seq<(Seq<char>, JVal)>, key: Seq<char>) -> Option<Seq<char>> {
    match jget(m, key) {
        Some(JVal::Str(s)) => Some(s),
        _ => None,
    }
}

/// A required integer in `[lo, hi]`.
pub open spec fn req_int(j: Option<JVal>, lo: int, hi: int) -> Option<int> {
    match j {
        Some(JVal::Int(n)) => if lo <= n <= hi {
            Some(n as int)
        } else {
            None
        },
        _ => None,
    }
}

/// An optional integer in `[lo, hi]`: absent means `default`, present but
/// out of range or not an integer is rejected.
pub open spec fn opt_int(j: Option<JVal>, lo: int, hi: int, default: int) -> Option<int> {
    match j {
        None => Some(default),
        Some(JVal::Int(n)) => if lo <= n <= hi {
            Some(n as int)
        } else {
            None
        },
        Some(_) => None,
    }
}

/// The offset a header gets when the wire holds none: twice the product of
/// the time signature, capped at the largest 16-bit value.
pub open spec fn derived_offset(top: int, bottom: int) -> int {
    if top * bottom * 2 > 65535 {
        65535
    } else {
        top * bottom * 2
    }
}

/// What decoding a header object yields. The five name strings, `bpm` and
/// `bg_color` are required; `offset` and the time signature fall back to
/// their defaults when absent but are validated when present; the palette is
/// taken from the wire only when whole and well-formed; `manual_offset` is
/// not on the wire and decodes as false.
pub open spec fn header_decode(j: JVal) -> Result<HeaderM, DecodeError> {
    match j {
        JVal::Obj(m) => {
            let name = str_field(m, "name"@);
            let genre = str_field(m, "genre"@);
            let level_author = str_field(m, "level_author"@);
            let song_author = str_field(m, "song_author"@);
            let background_effect = str_field(m, "background_effect"@);
            let bpm = req_int(jget(m, "bpm"@), 1, 65535);
            let top = opt_int(jget(m, "time_signature_top"@), 1, 255, 4);
            let bottom = opt_int(jget(m, "time_signature_bottom"@), 1, 255, 4);
            if name is None || genre is None || level_author is None || song_author is None
                || background_effect is None {
                Err(DecodeError::MalformedJson)
            } else if bpm is None {
                Err(DecodeError::InvalidBpm)
            } else if top is None || bottom is None {
                Err(DecodeError::InvalidTimeSignature)
            } else {
                let offset = opt_int(
                    jget(m, "offset"@),
                    1,
                    65535,
                    derived_offset(top->0, bottom->0),
                );
                let bg = req_int(jget(m, "bg_color"@), 0, 15);
                if offset is None {
                    Err(DecodeError::InvalidOffset)
                } else if bg is None {
                    Err(DecodeError::InvalidColorIndex)
                } else {
                    Ok(
                        HeaderM {
                            name: name->0,
                            genre: genre->0,
                            level_author: level_author->0,
                            song_author: song_author->0,
                            bpm: bpm->0 as u16,
                            offset: offset->0 as u16,
                            manual_offset: false,
                            time_signature_top: top->0 as u8,
                            time_signature_bottom: bottom->0 as u8,
                            bg_color: bg->0 as u8,
                            background_effect: background_effect->0,
                            color_table: table_of(jget(m, "color_table"@)),
                        },
                    )
                }
            }
        },
        _ => Err(DecodeError::MalformedJson),
    }
}

pub proof fn lemma_derived_offset_pos(top: int, bottom: int)
    requires
        top >= 1,
        bottom >= 1,
    ensures
        derived_offset(top, bottom) >= 1,
{
    assert(top * bottom >= 1) by (nonlinear_arith)
        requires
            top >= 1,
            bottom >= 1,
    ;
}

pub proof fn lemma_header_decode_wf(j: JVal)
    ensures
        header_decode(j) matches Ok(h) ==> h.wf(),
{
    match j {
        JVal::Obj(m) => {
            match jget(m, "color_table"@) {
                Some(JVal::Arr(a)) => lemma_colors_of_len(a),
                _ => (),
            }
            let top = opt_int(jget(m, "time_signature_top"@), 1, 255, 4);
            let bottom = opt_int(jget(m, "time_signature_bottom"@), 1, 255, 4);
            match (top, bottom) {
                (Some(t), Some(b)) => {
                    if t >= 1 && b >= 1 {
                        lemma_derived_offset_pos(t, b);
                    }
                },
                _ => (),
            }
        },
        _ => (),
    }
}

/// The value of an uppercase hexadecimal digit, 16 for any other character.
fn hex_digit(c: char) -> (r: u8)
    ensures
        r as int == hexval(c),
{
    if c == '0' { 0 }
    else if c == '1' { 1 }
    else if c == '2' { 2 }
    else if c == '3' { 3 }
    else if c == '4' { 4 }
    else if c == '5' { 5 }
    else if c == '6' { 6 }
    else if c == '7' { 7 }
    else if c == '8' { 8 }
    else if c == '9' { 9 }
    else if c == 'A' { 10 }
    else if c == 'B' { 11 }
    else if c == 'C' { 12 }
    else if c == 'D' { 13 }
    else if c == 'E' { 14 }
    else if c == 'F' { 15 }
    else { 16 }
}

/// Parses one `#RRGGBB` palette entry.
fn parse_color(v: &Value) -> (r: Option<Rgb>)
    ensures
        r == color_of(v@),
{
    match v {
        Value::Str(s) => {
            let st = s.as_str();
            if st.unicode_len() != 7 {
                return None;
            }
            if st.get_char(0) != '#' {
                return None;
            }
            let h1 = hex_digit(st.get_char(1));
            let h2 = hex_digit(st.get_char(2));
            let h3 = hex_digit(st.get_char(3));
            let h4 = hex_digit(st.get_char(4));
            let h5 = hex_digit(st.get_char(5));
            let h6 = hex_digit(st.get_char(6));
            if h1 < 16 && h2 < 16 && h3 < 16 && h4 < 16 && h5 < 16 && h6 < 16 {
                Some(Rgb { r: h1 * 16 + h2, g: h3 * 16 + h4, b: h5 * 16 + h6 })
            } else {
                None
            }
        },
        _ => None,
    }
}

/// Parses a wire palette: exactly 16 well-formed entries or nothing.
fn parse_table(v: &Value) -> (r: Option<Vec<Rgb>>)
    ensures
        match r {
            Some(t) => v@ matches JVal::Arr(a) && a.len() == 16 && colors_of(a) == Some(t@),
            None => !(v@ matches JVal::Arr(a) && a.len() == 16 && colors_of(a) is Some),
        },
{
    match v {
        Value::Arr(items) => {
            let ghost am = list_model(items@);
            proof {
                lemma_list_model_len(items@);
            }
            if items.len() != 16 {
                return None;
            }
            let mut out: Vec<Rgb> = Vec::new();
            proof {
                assert(am.skip(0) =~= am);
            }
            let mut i: usize = 0;
            while i < 16
                invariant
                    i <= 16,
                    am == list_model(items@),
                    am.len() == 16,
                    items@.len() == 16,
                    v@ == JVal::Arr(am),
                    *v matches Value::Arr(el) && el@ == items@,
                    out@.len() == i,
                    colors_of(am) == match colors_of(am.skip(i as int)) {
                        Some(rest) => Some(out@ + rest),
                        None => None,
                    },
                decreases 16 - i,
            {
                proof {
                    lemma_list_model_index(items@, i as int);
                    assert(am.skip(i as int)[0] == am[i as int]);
                    assert(am.skip(i as int).drop_first() =~= am.skip(i as int + 1));
                }
                match parse_color(&items[i]) {
                    Some(c) => {
                        out.push(c);
                        proof {
                            match colors_of(am.skip(i as int + 1)) {
                                Some(r2) => {
                                    assert(out@ + r2 =~= out@.drop_last() + (seq![c] + r2));
                                },
                                None => {},
                            }
                        }
                    },
                    None => {
                        return None;
                    },
                }
                i = i + 1;
            }
            proof {
                assert(am.skip(16) =~= Seq::<JVal>::empty());
                assert(colors_of(am.skip(16)) == Some(Seq::<Rgb>::empty()));
                assert(out@ + Seq::<Rgb>::empty() =~= out@);
            }
            Some(out)
        },
        _ => None,
    }
}

impl Header {
    /// Decodes a header from the object at index 0 of a chart file, per
    /// `header_decode`: required fields abort with their error, optional
    /// fields fall back to defaults. A returned header is well formed.
    pub fn from_json(v: &Value) -> (r: Result<Header, DecodeError>)
        ensures
            match r {
                Ok(h) => header_decode(v@) == Ok::<HeaderM, DecodeError>(h@) && h@.wf(),
                Err(e) => header_decode(v@) == Err::<HeaderM, DecodeError>(e),
            },
    {
        if !(matches!(v, Value::Obj(_))) {
            return Err(DecodeError::MalformedJson);
        }
        let name = match v.get("name") {
            Some(Value::Str(s)) => s.clone(),
            _ => { return Err(DecodeError::MalformedJson); },
        };
        let genre = match v.get("genre") {
            Some(Value::Str(s)) => s.clone(),
            _ => { return Err(DecodeError::MalformedJson); },
        };
        let level_author = match v.get("level_author") {
            Some(Value::Str(s)) => s.clone(),
            _ => { return Err(DecodeError::MalformedJson); },
        };
        let song_author = match v.get("song_author") {
            Some(Value::Str(s)) => s.clone(),
            _ => { return Err(DecodeError::MalformedJson); },
        };
        let background_effect = match v.get("background_effect") {
            Some(Value::Str(s)) => s.clone(),
            _ => { return Err(DecodeError::MalformedJson); },
        };
        let bpm: u16 = match v.get("bpm") {
            Some(Value::Int(n)) => {
                if 1 <= *n && *n <= 65535 {
                    *n as u16
                } else {
                    return Err(DecodeError::InvalidBpm);
                }
            },
            _ => { return Err(DecodeError::InvalidBpm); },
        };
        let top: u8 = match v.get("time_signature_top") {
            None => 4,
            Some(Value::Int(n)) => {
                if 1 <= *n && *n <= 255 {
                    *n as u8
                } else {
                    return Err(DecodeError::InvalidTimeSignature);
                }
            },
            Some(_) => { return Err(DecodeError::InvalidTimeSignature); },
        };
        let bottom: u8 = match v.get("time_signature_bottom") {
            None => 4,
            Some(Value::Int(n)) => {
                if 1 <= *n && *n <= 255 {
                    *n as u8
                } else {
                    return Err(DecodeError::InvalidTimeSignature);
                }
            },
            Some(_) => { return Err(DecodeError::InvalidTimeSignature); },
        };
        let t32: u32 = top as u32;
        let b32: u32 = bottom as u32;
        proof {
            assert(t32 * b32 <= 65025) by (nonlinear_arith)
                requires
                    t32 <= 255,
                    b32 <= 255,
            ;
        }
        let derived: u32 = t32 * b32 * 2;
        let derived16: u16 = if derived > 65535 {
            65535
        } else {
            derived as u16
        };
        proof {
            assert(derived16 as int == derived_offset(top as int, bottom as int));
        }
        let offset: u16 = match v.get("offset") {
            None => derived16,
            Some(Value::Int(n)) => {
                if 1 <= *n && *n <= 65535 {
                    *n as u16
                } else {
                    return Err(DecodeError::InvalidOffset);
                }
            },
            Some(_) => { return Err(DecodeError::InvalidOffset); },
        };
        let bg_color: u8 = match v.get("bg_color") {
            Some(Value::Int(n)) => {
                if 0 <= *n && *n <= 15 {
                    *n as u8
                } else {
                    return Err(DecodeError::InvalidColorIndex);
                }
            },
            _ => { return Err(DecodeError::InvalidColorIndex); },
        };
        let color_table: Vec<Rgb> = match v.get("color_table") {
            Some(val) => match parse_table(val) {
                Some(t) => t,
                None => default_color_table(),
            },
            None => default_color_table(),
        };
        let h = Header {
            name,
            genre,
            level_author,
            song_author,
            bpm,
            offset,
            manual_offset: false,
            time_signature_top: top,
            time_signature_bottom: bottom,
            bg_color,
            background_effect,
            color_table,
        };
        proof {
            lemma_header_decode_wf(v@);
            assert(header_decode(v@) matches Ok(hm) && hm =~= h@);
        }
        Ok(h)
    }
}

} // verus!
