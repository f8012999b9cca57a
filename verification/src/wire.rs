use vstd::prelude::*;

use crate::fixed::Fx;

verus! {

broadcast use vstd::std_specs::vec::group_vec_axioms, vstd::seq::group_seq_axioms;

/// One `"key": value` pair of a JSON object, in insertion order.
#[derive(Debug, PartialEq)]
pub struct Entry {
    pub key: String,
    pub value: Value,
}

/// A JSON value as the chart format uses it. Numbers appear in two forms:
/// `Int` for the integral header fields and indices, `Fix` for the
/// fixed-point grid coordinates and scale factors, which are written with a
/// decimal point.
#[derive(Debug, PartialEq)]
pub enum Value {
    Null,
    Bool(bool),
    Int(i64),
    Fix(Fx),
    Str(String),
    Arr(Vec<Value>),
    Obj(Vec<Entry>),
}

/// The mathematical model of a JSON value: strings are character sequences,
/// containers are sequences.
#[verifier::ext_equal]
pub enum JVal {
    Null,
    Bool(bool),
    Int(i64),
    Fix(Fx),
    Str(Seq<char>),
    Arr(Seq<JVal>),
    Obj(Seq<(Seq<char>, JVal)>),
}

pub open spec fn value_model(v: Value) -> JVal
    decreases v,
{
    match v {
        Value::Null => JVal::Null,
        Value::Bool(b) => JVal::Bool(b),
        Value::Int(n) => JVal::Int(n),
        Value::Fix(f) => JVal::Fix(f),
        Value::Str(s) => JVal::Str(s@),
        Value::Arr(items) => JVal::Arr(list_model(items@)),
        Value::Obj(entries) => JVal::Obj(entries_model(entries@)),
    }
}

pub open spec fn list_model(s: Seq<Value>) -> Seq<JVal>
    decreases s,
{
    if s.len() == 0 {
        Seq::empty()
    } else {
        seq![value_model(s[0])] + list_model(s.drop_first())
    }
}

pub open spec fn entries_model(s: Seq<Entry>) -> Seq<(Seq<char>, JVal)>
    decreases s,
{
    if s.len() == 0 {
        Seq::empty()
    } else {
        seq![(s[0].key@, value_model(s[0].value))] + entries_model(s.drop_first())
    }
}

impl View for Value {
    type V = JVal;

    open spec fn view(&self) -> JVal {
        value_model(*self)
    }
}

pub broadcast proof fn lemma_list_model_len(s: Seq<Value>)
    ensures
        #[trigger] list_model(s).len() == s.len(),
    decreases s,
{
    if s.len() > 0 {
        lemma_list_model_len(s.drop_first());
    }
}

pub broadcast proof fn lemma_list_model_index(s: Seq<Value>, i: int)
    requires
        0 <= i < s.len(),
    ensures
        #[trigger] list_model(s)[i] == value_model(s[i]),
    decreases s,
{
    lemma_list_model_len(s);
    if i > 0 {
        lemma_list_model_index(s.drop_first(), i - 1);
    }
}

pub broadcast proof fn lemma_entries_model_len(s: Seq<Entry>)
    ensures
        #[trigger] entries_model(s).len() == s.len(),
    decreases s,
{
    if s.len() > 0 {
        lemma_entries_model_len(s.drop_first());
    }
}

pub broadcast proof fn lemma_entries_model_index(s: Seq<Entry>, i: int)
    requires
        0 <= i < s.len(),
    ensures
        #[trigger] entries_model(s)[i] == (s[i].key@, value_model(s[i].value)),
    decreases s,
{
    lemma_entries_model_len(s);
    if i > 0 {
        lemma_entries_model_index(s.drop_first(), i - 1);
    }
}

/// Why a wire document was rejected.
#[derive(Clone, Copy, Debug, PartialEq, Eq, Structural)]
pub enum DecodeError {
    /// The input is not an array with a header object at index 0, or a
    /// required field is missing or of the wrong type.
    MalformedJson,
    /// `bpm` is missing, not an integer, zero, or out of 16-bit range.
    InvalidBpm,
    /// `offset` is present but not a positive 16-bit integer.
    InvalidOffset,
    /// A time signature field is present but not a positive 8-bit integer.
    InvalidTimeSignature,
    /// `bg_color` or a shape's `color` is missing, not an integer, or not a
    /// valid index into the 16-entry color table.
    InvalidColorIndex,
    /// A shape's `shape` field is missing or holds a value outside {0, 1, 2}.
    InvalidShapeKind,
}

/// The value under the first occurrence of `key` among the entries of a JSON
/// object, if any.
pub open spec fn jget(s: Seq<(Seq<char>, JVal)>, key: Seq<char>) -> Option<JVal>
    decreases s,
{
    if s.len() == 0 {
        None
    } else if s[0].0 == key {
        Some(s[0].1)
    } else {
        jget(s.drop_first(), key)
    }
}

impl Value {
    /// Looks a key up in a JSON object, first occurrence wins; `None` when
    /// this value is not an object or has no such entry.
    pub fn get(&self, key: &str) -> (r: Option<&Value>)
        ensures
            match r {
                Some(v) => self@ matches JVal::Obj(m) && jget(m, key@) == Some(v@),
                None => !(self@ matches JVal::Obj(m) && jget(m, key@) is Some),
            },
    {
        let key_string = key.to_owned();
        match self {
            Value::Obj(entries) => {
                let ghost m = entries_model(entries@);
                proof {
                    lemma_entries_model_len(entries@);
                }
                proof {
                    assert(m.skip(0) =~= m);
                }
                let mut i: usize = 0;
                while i < entries.len()
                    invariant
                        i <= entries@.len(),
                        self@ == JVal::Obj(m),
                        m == entries_model(entries@),
                        m.len() == entries@.len(),
                        key_string@ == key@,
                        jget(m, key@) == jget(m.skip(i as int), key@),
                    decreases entries@.len() - i,
                {
                    proof {
                        lemma_entries_model_index(entries@, i as int);
                        assert(m.skip(i as int)[0] == m[i as int]);
                    }
                    if entries[i].key == key_string {
                        proof {
                            assert(m.skip(i as int).len() > 0);
                            assert(m.skip(i as int)[0].0 == key@);
                            assert(jget(m.skip(i as int), key@) == Some(m[i as int].1));
                        }
                        return Some(&entries[i].value);
                    }
                    proof {
                        assert(m.skip(i as int).drop_first() =~= m.skip(i as int + 1));
                    }
                    i = i + 1;
                }
                proof {
                    assert(m.skip(i as int).len() == 0);
                }
                None
            },
            _ => None,
        }
    }
}


/// Relies on `String::push`: appends the character to the end of the string.
pub assume_specification[ String::push ](s: &mut String, c: char)
    ensures
        final(s)@ == old(s)@.push(c),
;

/// The decimal digit `d` as a character.
pub open spec fn digit_of(d: int) -> char {
    if d == 0 { '0' }
    else if d == 1 { '1' }
    else if d == 2 { '2' }
    else if d == 3 { '3' }
    else if d == 4 { '4' }
    else if d == 5 { '5' }
    else if d == 6 { '6' }
    else if d == 7 { '7' }
    else if d == 8 { '8' }
    else { '9' }
}

/// The decimal digits of a non-negative integer, most significant first.
pub open spec fn udec(n: int) -> Seq<char>
    decreases n,
{
    if n < 10 {
        seq![digit_of(n)]
    } else {
        udec(n / 10) + seq![digit_of(n % 10)]
    }
}

/// The decimal form of an integer, with a leading minus sign if negative.
pub open spec fn idec(n: int) -> Seq<char> {
    if n < 0 {
        seq!['-'] + udec(-n)
    } else {
        udec(n)
    }
}

/// The digits after the decimal point for a fractional part `f` in
/// thousandths: three digits with trailing zeros trimmed, at least one kept.
pub open spec fn frac_digits(f: int) -> Seq<char> {
    if f % 10 != 0 {
        seq![digit_of(f / 100), digit_of((f / 10) % 10), digit_of(f % 10)]
    } else if f % 100 != 0 {
        seq![digit_of(f / 100), digit_of((f / 10) % 10)]
    } else {
        seq![digit_of(f / 100)]
    }
}

/// The decimal form of a fixed-point value of `u` thousandths, always with a
/// decimal point: `4000` is written `4.0`, `-500` is written `-0.5`.
pub open spec fn fxdec(u: int) -> Seq<char> {
    let mag = if u < 0 { -u } else { u };
    let sign: Seq<char> = if u < 0 { seq!['-'] } else { Seq::empty() };
    sign + udec(mag / 1000) + seq!['.'] + frac_digits(mag % 1000)
}

/// The hexadecimal digit `d` as a lowercase character.
pub open spec fn hexlo(d: int) -> char {
    if d == 0 { '0' }
    else if d == 1 { '1' }
    else if d == 2 { '2' }
    else if d == 3 { '3' }
    else if d == 4 { '4' }
    else if d == 5 { '5' }
    else if d == 6 { '6' }
    else if d == 7 { '7' }
    else if d == 8 { '8' }
    else if d == 9 { '9' }
    else if d == 10 { 'a' }
    else if d == 11 { 'b' }
    else if d == 12 { 'c' }
    else if d == 13 { 'd' }
    else if d == 14 { 'e' }
    else { 'f' }
}

/// How a character is written inside a JSON string literal: quote and
/// backslash get a backslash, the named control characters their short
/// escapes, other control characters a `\u00..` escape, everything else
/// stands as itself.
pub open spec fn esc_char(c: char) -> Seq<char> {
    if c == '"' {
        seq!['\\', '"']
    } else if c == '\\' {
        seq!['\\', '\\']
    } else if c == '\u{8}' {
        seq!['\\', 'b']
    } else if c == '\u{c}' {
        seq!['\\', 'f']
    } else if c == '\n' {
        seq!['\\', 'n']
    } else if c == '\r' {
        seq!['\\', 'r']
    } else if c == '\t' {
        seq!['\\', 't']
    } else if (c as int) < 32 {
        seq!['\\', 'u', '0', '0', hexlo(c as int / 16), hexlo(c as int % 16)]
    } else {
        seq![c]
    }
}

/// A string's characters, each escaped for a JSON string literal.
pub open spec fn esc_str(s: Seq<char>) -> Seq<char>
    decreases s,
{
    if s.len() == 0 {
        Seq::empty()
    } else {
        esc_char(s[0]) + esc_str(s.drop_first())
    }
}

/// A JSON string literal: the escaped characters between double quotes.
pub open spec fn quoted(s: Seq<char>) -> Seq<char> {
    seq!['"'] + esc_str(s) + seq!['"']
}

/// The compact textual form of a JSON value: no spaces, object keys in
/// insertion order, `Fix` numbers always with a decimal point.
pub open spec fn jdump(j: JVal) -> Seq<char>
    decreases j,
{
    match j {
        JVal::Null => seq!['n', 'u', 'l', 'l'],
        JVal::Bool(b) => if b {
            seq!['t', 'r', 'u', 'e']
        } else {
            seq!['f', 'a', 'l', 's', 'e']
        },
        JVal::Int(n) => idec(n as int),
        JVal::Fix(f) => fxdec(f@),
        JVal::Str(s) => quoted(s),
        JVal::Arr(items) => seq!['['] + jdump_list(items) + seq![']'],
        JVal::Obj(entries) => seq!['{'] + jdump_entries(entries) + seq!['}'],
    }
}

/// The comma-separated items of a JSON array.
pub open spec fn jdump_list(s: Seq<JVal>) -> Seq<char>
    decreases s,
{
    if s.len() == 0 {
        Seq::empty()
    } else {
        jdump(s[0]) + jdump_rest(s.drop_first())
    }
}

pub open spec fn jdump_rest(s: Seq<JVal>) -> Seq<char>
    decreases s,
{
    if s.len() == 0 {
        Seq::empty()
    } else {
        seq![','] + jdump(s[0]) + jdump_rest(s.drop_first())
    }
}

/// The comma-separated `"key":value` entries of a JSON object.
pub open spec fn jdump_entries(s: Seq<(Seq<char>, JVal)>) -> Seq<char>
    decreases s,
{
    if s.len() == 0 {
        Seq::empty()
    } else {
        quoted(s[0].0) + seq![':'] + jdump(s[0].1) + jdump_entries_rest(s.drop_first())
    }
}

pub open spec fn jdump_entries_rest(s: Seq<(Seq<char>, JVal)>) -> Seq<char>
    decreases s,
{
    if s.len() == 0 {
        Seq::empty()
    } else {
        seq![','] + quoted(s[0].0) + seq![':'] + jdump(s[0].1) + jdump_entries_rest(s.drop_first())
    }
}


fn push_digit(d: u64, out: &mut String)
    requires
        d < 10,
    ensures
        final(out)@ == old(out)@ + seq![digit_of(d as int)],
{
    let ghost base = out@;
    if d == 0 { out.push('0'); }
    else if d == 1 { out.push('1'); }
    else if d == 2 { out.push('2'); }
    else if d == 3 { out.push('3'); }
    else if d == 4 { out.push('4'); }
    else if d == 5 { out.push('5'); }
    else if d == 6 { out.push('6'); }
    else if d == 7 { out.push('7'); }
    else if d == 8 { out.push('8'); }
    else { out.push('9'); }
    proof {
        assert(out@ =~= base + seq![digit_of(d as int)]);
    }
}

fn push_hexlo(d: u8, out: &mut String)
    requires
        d < 16,
    ensures
        final(out)@ == old(out)@ + seq![hexlo(d as int)],
{
    let ghost base = out@;
    if d == 0 { out.push('0'); }
    else if d == 1 { out.push('1'); }
    else if d == 2 { out.push('2'); }
    else if d == 3 { out.push('3'); }
    else if d == 4 { out.push('4'); }
    else if d == 5 { out.push('5'); }
    else if d == 6 { out.push('6'); }
    else if d == 7 { out.push('7'); }
    else if d == 8 { out.push('8'); }
    else if d == 9 { out.push('9'); }
    else if d == 10 { out.push('a'); }
    else if d == 11 { out.push('b'); }
    else if d == 12 { out.push('c'); }
    else if d == 13 { out.push('d'); }
    else if d == 14 { out.push('e'); }
    else { out.push('f'); }
    proof {
        assert(out@ =~= base + seq![hexlo(d as int)]);
    }
}

fn push_udec(n: u64, out: &mut String)
    ensures
        final(out)@ == old(out)@ + udec(n as int),
    decreases n,
{
    let ghost base = out@;
    if n < 10 {
        push_digit(n, out);
    } else {
        push_udec(n / 10, out);
        push_digit(n % 10, out);
        proof {
            assert(n as int / 10 == (n / 10) as int);
            assert(n as int % 10 == (n % 10) as int);
            assert(out@ =~= base + udec(n as int));
        }
    }
}

fn push_idec(n: i64, out: &mut String)
    ensures
        final(out)@ == old(out)@ + idec(n as int),
{
    let ghost base = out@;
    if n < 0 {
        out.push('-');
        let mag: u64 = (-(n as i128)) as u64;
        push_udec(mag, out);
        proof {
            assert(mag as int == -(n as int));
            assert(out@ =~= base + idec(n as int));
        }
    } else {
        push_udec(n as u64, out);
    }
}

fn push_fxdec(f: Fx, out: &mut String)
    ensures
        final(out)@ == old(out)@ + fxdec(f@),
{
    let ghost base = out@;
    let u = f.units;
    if u < 0 {
        out.push('-');
    }
    let mag: u64 = if u < 0 { (-(u as i128)) as u64 } else { u as u64 };
    proof {
        assert(mag as int == if f@ < 0 { -f@ } else { f@ });
    }
    push_udec(mag / 1000, out);
    out.push('.');
    let fr: u64 = mag % 1000;
    if fr % 10 != 0 {
        push_digit(fr / 100, out);
        push_digit((fr / 10) % 10, out);
        push_digit(fr % 10, out);
    } else if fr % 100 != 0 {
        push_digit(fr / 100, out);
        push_digit((fr / 10) % 10, out);
    } else {
        push_digit(fr / 100, out);
    }
    proof {
        assert(out@ =~= base + fxdec(f@));
    }
}

proof fn lemma_esc_snoc(s: Seq<char>, c: char)
    ensures
        esc_str(s.push(c)) == esc_str(s) + esc_char(c),
    decreases s.len(),
{
    if s.len() == 0 {
        assert(s.push(c)[0] == c);
        assert(s.push(c).drop_first() =~= Seq::<char>::empty());
        assert(esc_str(Seq::<char>::empty()) == Seq::<char>::empty());
        assert(esc_str(s.push(c)) == esc_char(c) + esc_str(Seq::<char>::empty()));
        assert(esc_str(s.push(c)) =~= esc_str(s) + esc_char(c));
    } else {
        assert(s.push(c)[0] == s[0]);
        assert(s.push(c).drop_first() =~= s.drop_first().push(c));
        lemma_esc_snoc(s.drop_first(), c);
        assert(esc_str(s.push(c)) =~= esc_str(s) + esc_char(c));
    }
}

fn push_escaped(s: &str, out: &mut String)
    ensures
        final(out)@ == old(out)@ + esc_str(s@),
{
    let ghost base = out@;
    let n = s.unicode_len();
    proof {
        assert(s@.take(0) =~= Seq::<char>::empty());
        assert(out@ =~= base + esc_str(s@.take(0)));
    }
    let mut i: usize = 0;
    while i < n
        invariant
            i <= n,
            n == s@.len(),
            out@ == base + esc_str(s@.take(i as int)),
        decreases n - i,
    {
        let c = s.get_char(i);
        let ghost mid = out@;
        if c == '"' {
            out.push('\\');
            out.push('"');
        } else if c == '\\' {
            out.push('\\');
            out.push('\\');
        } else if c == '\u{8}' {
            out.push('\\');
            out.push('b');
        } else if c == '\u{c}' {
            out.push('\\');
            out.push('f');
        } else if c == '\n' {
            out.push('\\');
            out.push('n');
        } else if c == '\r' {
            out.push('\\');
            out.push('r');
        } else if c == '\t' {
            out.push('\\');
            out.push('t');
        } else if (c as u32) < 32 {
            out.push('\\');
            out.push('u');
            out.push('0');
            out.push('0');
            push_hexlo(((c as u32) / 16) as u8, out);
            push_hexlo(((c as u32) % 16) as u8, out);
        } else {
            out.push(c);
        }
        proof {
            assert(out@ =~= mid + esc_char(c));
            lemma_esc_snoc(s@.take(i as int), c);
            assert(s@.take(i as int + 1) =~= s@.take(i as int).push(s@[i as int]));
            assert(out@ =~= base + esc_str(s@.take(i as int + 1)));
        }
        i = i + 1;
    }
    proof {
        assert(s@.take(n as int) =~= s@);
    }
}

fn push_quoted(s: &str, out: &mut String)
    ensures
        final(out)@ == old(out)@ + quoted(s@),
{
    let ghost base = out@;
    out.push('"');
    push_escaped(s, out);
    out.push('"');
    proof {
        assert(out@ =~= base + quoted(s@));
    }
}

proof fn lemma_jdump_rest_snoc(s: Seq<JVal>, x: JVal)
    ensures
        jdump_rest(s.push(x)) == jdump_rest(s) + seq![','] + jdump(x),
    decreases s.len(),
{
    if s.len() == 0 {
        assert(s.push(x)[0] == x);
        assert(s.push(x).drop_first() =~= Seq::<JVal>::empty());
        assert(jdump_rest(Seq::<JVal>::empty()) == Seq::<char>::empty());
        assert(jdump_rest(s.push(x)) == seq![','] + jdump(x) + jdump_rest(Seq::<JVal>::empty()));
        assert(jdump_rest(s.push(x)) =~= jdump_rest(s) + seq![','] + jdump(x));
    } else {
        assert(s.push(x)[0] == s[0]);
        assert(s.push(x).drop_first() =~= s.drop_first().push(x));
        lemma_jdump_rest_snoc(s.drop_first(), x);
        assert(jdump_rest(s.push(x)) =~= jdump_rest(s) + seq![','] + jdump(x));
    }
}

proof fn lemma_jdump_entries_rest_snoc(s: Seq<(Seq<char>, JVal)>, x: (Seq<char>, JVal))
    ensures
        jdump_entries_rest(s.push(x)) == jdump_entries_rest(s) + seq![','] + quoted(x.0)
            + seq![':'] + jdump(x.1),
    decreases s.len(),
{
    if s.len() == 0 {
        assert(s.push(x)[0] == x);
        assert(s.push(x).drop_first() =~= Seq::<(Seq<char>, JVal)>::empty());
        assert(jdump_entries_rest(Seq::<(Seq<char>, JVal)>::empty()) == Seq::<char>::empty());
        assert(jdump_entries_rest(s.push(x)) == seq![','] + quoted(x.0) + seq![':'] + jdump(x.1)
            + jdump_entries_rest(Seq::<(Seq<char>, JVal)>::empty()));
        assert(jdump_entries_rest(s.push(x)) =~= jdump_entries_rest(s) + seq![','] + quoted(x.0)
            + seq![':'] + jdump(x.1));
    } else {
        assert(s.push(x)[0] == s[0]);
        assert(s.push(x).drop_first() =~= s.drop_first().push(x));
        lemma_jdump_entries_rest_snoc(s.drop_first(), x);
        assert(jdump_entries_rest(s.push(x)) =~= jdump_entries_rest(s) + seq![','] + quoted(x.0)
            + seq![':'] + jdump(x.1));
    }
}

fn push_jdump(v: &Value, out: &mut String)
    ensures
        final(out)@ == old(out)@ + jdump(v@),
    decreases *v,
{
    let ghost base = out@;
    match v {
        Value::Null => {
            out.push('n');
            out.push('u');
            out.push('l');
            out.push('l');
            proof {
                assert(out@ =~= base + jdump(v@));
            }
        },
        Value::Bool(b) => {
            if *b {
                out.push('t');
                out.push('r');
                out.push('u');
                out.push('e');
            } else {
                out.push('f');
                out.push('a');
                out.push('l');
                out.push('s');
                out.push('e');
            }
            proof {
                assert(out@ =~= base + jdump(v@));
            }
        },
        Value::Int(n) => {
            push_idec(*n, out);
        },
        Value::Fix(f) => {
            push_fxdec(*f, out);
        },
        Value::Str(s) => {
            push_quoted(s.as_str(), out);
        },
        Value::Arr(items) => {
            let ghost lm = list_model(items@);
            proof {
                lemma_list_model_len(items@);
            }
            out.push('[');
            if items.len() > 0 {
                proof {
                    lemma_list_model_index(items@, 0);
                }
                push_jdump(&items[0], out);
                proof {
                    assert(lm.subrange(1, 1) =~= Seq::<JVal>::empty());
                    assert(out@ =~= base + seq!['['] + jdump(lm[0])
                        + jdump_rest(lm.subrange(1, 1)));
                }
                let mut i: usize = 1;
                while i < items.len()
                    invariant
                        1 <= i <= items@.len(),
                        lm == list_model(items@),
                        lm.len() == items@.len(),
                        v@ == JVal::Arr(lm),
                        *v matches Value::Arr(el) && el@ == items@,
                        out@ == base + seq!['['] + jdump(lm[0])
                            + jdump_rest(lm.subrange(1, i as int)),
                    decreases items@.len() - i,
                {
                    let ghost pre = lm.subrange(1, i as int);
                    out.push(',');
                    proof {
                        lemma_list_model_index(items@, i as int);
                    }
                    push_jdump(&items[i], out);
                    proof {
                        lemma_jdump_rest_snoc(pre, lm[i as int]);
                        assert(lm.subrange(1, i as int + 1) =~= pre.push(lm[i as int]));
                        assert(out@ =~= base + seq!['['] + jdump(lm[0])
                            + jdump_rest(lm.subrange(1, i as int + 1)));
                    }
                    i = i + 1;
                }
                out.push(']');
                proof {
                    assert(lm.subrange(1, lm.len() as int) =~= lm.drop_first());
                    assert(out@ =~= base + jdump(v@));
                }
            } else {
                out.push(']');
                proof {
                    assert(out@ =~= base + jdump(v@));
                }
            }
        },
        Value::Obj(entries) => {
            let ghost em = entries_model(entries@);
            proof {
                lemma_entries_model_len(entries@);
            }
            out.push('{');
            if entries.len() > 0 {
                proof {
                    lemma_entries_model_index(entries@, 0);
                }
                push_quoted(entries[0].key.as_str(), out);
                out.push(':');
                push_jdump(&entries[0].value, out);
                proof {
                    assert(em.subrange(1, 1) =~= Seq::<(Seq<char>, JVal)>::empty());
                    assert(out@ =~= base + seq!['{'] + quoted(em[0].0) + seq![':']
                        + jdump(em[0].1) + jdump_entries_rest(em.subrange(1, 1)));
                }
                let mut i: usize = 1;
                while i < entries.len()
                    invariant
                        1 <= i <= entries@.len(),
                        em == entries_model(entries@),
                        em.len() == entries@.len(),
                        v@ == JVal::Obj(em),
                        *v matches Value::Obj(el) && el@ == entries@,
                        out@ == base + seq!['{'] + quoted(em[0].0) + seq![':']
                            + jdump(em[0].1) + jdump_entries_rest(em.subrange(1, i as int)),
                    decreases entries@.len() - i,
                {
                    let ghost pre = em.subrange(1, i as int);
                    out.push(',');
                    proof {
                        lemma_entries_model_index(entries@, i as int);
                    }
                    push_quoted(entries[i].key.as_str(), out);
                    out.push(':');
                    push_jdump(&entries[i].value, out);
                    proof {
                        lemma_jdump_entries_rest_snoc(pre, em[i as int]);
                        assert(em.subrange(1, i as int + 1) =~= pre.push(em[i as int]));
                        assert(out@ =~= base + seq!['{'] + quoted(em[0].0) + seq![':']
                            + jdump(em[0].1) + jdump_entries_rest(em.subrange(1, i as int + 1)));
                    }
                    i = i + 1;
                }
                out.push('}');
                proof {
                    assert(em.subrange(1, em.len() as int) =~= em.drop_first());
                    assert(out@ =~= base + jdump(v@));
                }
            } else {
                out.push('}');
                proof {
                    assert(out@ =~= base + jdump(v@));
                }
            }
        },
    }
}

impl Value {
    /// The compact JSON text of this value.
    pub fn dump(&self) -> (r: String)
        ensures
            r@ == jdump(self@),
    {
        let mut out = String::new();
        push_jdump(self, &mut out);
        proof {
            assert(out@ =~= jdump(self@));
        }
        out
    }
}


/// `n` spaces.
pub open spec fn sp_of(n: int) -> Seq<char> {
    Seq::new(n as nat, |i: int| ' ')
}

/// The indented textual form of a JSON value, as the editor writes chart
/// files: `ind` is the current indentation, `sp` the padding added per
/// nesting level. Scalars print as in `jdump`; each item of a non-empty
/// container stands on a line of its own.
pub open spec fn jpretty(j: JVal, ind: Seq<char>, sp: Seq<char>) -> Seq<char>
    decreases j,
{
    match j {
        JVal::Null => seq!['n', 'u', 'l', 'l'],
        JVal::Bool(b) => if b {
            seq!['t', 'r', 'u', 'e']
        } else {
            seq!['f', 'a', 'l', 's', 'e']
        },
        JVal::Int(n) => idec(n as int),
        JVal::Fix(f) => fxdec(f@),
        JVal::Str(s) => quoted(s),
        JVal::Arr(items) => if items.len() == 0 {
            seq!['[', ']']
        } else {
            seq!['['] + jpretty_list(items, ind + sp, sp) + seq!['\n'] + ind + seq![']']
        },
        JVal::Obj(entries) => if entries.len() == 0 {
            seq!['{', '}']
        } else {
            seq!['{'] + jpretty_entries(entries, ind + sp, sp) + seq!['\n'] + ind + seq!['}']
        },
    }
}

/// The items of a non-empty array, one per line at indentation `ind`,
/// separated by commas.
pub open spec fn jpretty_list(s: Seq<JVal>, ind: Seq<char>, sp: Seq<char>) -> Seq<char>
    decreases s,
{
    if s.len() == 0 {
        Seq::empty()
    } else {
        seq!['\n'] + ind + jpretty(s[0], ind, sp) + jpretty_list_rest(s.drop_first(), ind, sp)
    }
}

pub open spec fn jpretty_list_rest(s: Seq<JVal>, ind: Seq<char>, sp: Seq<char>) -> Seq<char>
    decreases s,
{
    if s.len() == 0 {
        Seq::empty()
    } else {
        seq![',', '\n'] + ind + jpretty(s[0], ind, sp)
            + jpretty_list_rest(s.drop_first(), ind, sp)
    }
}

/// The entries of a non-empty object, one per line at indentation `ind`,
/// written `"key": value` and separated by commas.
pub open spec fn jpretty_entries(s: Seq<(Seq<char>, JVal)>, ind: Seq<char>, sp: Seq<char>) -> Seq<char>
    decreases s,
{
    if s.len() == 0 {
        Seq::empty()
    } else {
        seq!['\n'] + ind + quoted(s[0].0) + seq![':', ' '] + jpretty(s[0].1, ind, sp)
            + jpretty_entries_rest(s.drop_first(), ind, sp)
    }
}

pub open spec fn jpretty_entries_rest(s: Seq<(Seq<char>, JVal)>, ind: Seq<char>, sp: Seq<char>) -> Seq<char>
    decreases s,
{
    if s.len() == 0 {
        Seq::empty()
    } else {
        seq![',', '\n'] + ind + quoted(s[0].0) + seq![':', ' '] + jpretty(s[0].1, ind, sp)
            + jpretty_entries_rest(s.drop_first(), ind, sp)
    }
}

proof fn lemma_jpretty_list_rest_snoc(s: Seq<JVal>, x: JVal, ind: Seq<char>, sp: Seq<char>)
    ensures
        jpretty_list_rest(s.push(x), ind, sp) == jpretty_list_rest(s, ind, sp)
            + seq![',', '\n'] + ind + jpretty(x, ind, sp),
    decreases s.len(),
{
    if s.len() == 0 {
        assert(s.push(x)[0] == x);
        assert(s.push(x).drop_first() =~= Seq::<JVal>::empty());
        assert(jpretty_list_rest(Seq::<JVal>::empty(), ind, sp) == Seq::<char>::empty());
        assert(jpretty_list_rest(s.push(x), ind, sp) == seq![',', '\n'] + ind
            + jpretty(x, ind, sp) + jpretty_list_rest(Seq::<JVal>::empty(), ind, sp));
        assert(jpretty_list_rest(s.push(x), ind, sp) =~= jpretty_list_rest(s, ind, sp)
            + seq![',', '\n'] + ind + jpretty(x, ind, sp));
    } else {
        assert(s.push(x)[0] == s[0]);
        assert(s.push(x).drop_first() =~= s.drop_first().push(x));
        lemma_jpretty_list_rest_snoc(s.drop_first(), x, ind, sp);
        assert(jpretty_list_rest(s.push(x), ind, sp) =~= jpretty_list_rest(s, ind, sp)
            + seq![',', '\n'] + ind + jpretty(x, ind, sp));
    }
}

proof fn lemma_jpretty_entries_rest_snoc(
    s: Seq<(Seq<char>, JVal)>,
    x: (Seq<char>, JVal),
    ind: Seq<char>,
    sp: Seq<char>,
)
    ensures
        jpretty_entries_rest(s.push(x), ind, sp) == jpretty_entries_rest(s, ind, sp)
            + seq![',', '\n'] + ind + quoted(x.0) + seq![':', ' '] + jpretty(x.1, ind, sp),
    decreases s.len(),
{
    if s.len() == 0 {
        assert(s.push(x)[0] == x);
        assert(s.push(x).drop_first() =~= Seq::<(Seq<char>, JVal)>::empty());
        assert(jpretty_entries_rest(Seq::<(Seq<char>, JVal)>::empty(), ind, sp)
            == Seq::<char>::empty());
        assert(jpretty_entries_rest(s.push(x), ind, sp) == seq![',', '\n'] + ind + quoted(x.0)
            + seq![':', ' '] + jpretty(x.1, ind, sp)
            + jpretty_entries_rest(Seq::<(Seq<char>, JVal)>::empty(), ind, sp));
        assert(jpretty_entries_rest(s.push(x), ind, sp) =~= jpretty_entries_rest(s, ind, sp)
            + seq![',', '\n'] + ind + quoted(x.0) + seq![':', ' '] + jpretty(x.1, ind, sp));
    } else {
        assert(s.push(x)[0] == s[0]);
        assert(s.push(x).drop_first() =~= s.drop_first().push(x));
        lemma_jpretty_entries_rest_snoc(s.drop_first(), x, ind, sp);
        assert(jpretty_entries_rest(s.push(x), ind, sp) =~= jpretty_entries_rest(s, ind, sp)
            + seq![',', '\n'] + ind + quoted(x.0) + seq![':', ' '] + jpretty(x.1, ind, sp));
    }
}

#[verifier::rlimit(60)]
fn push_jpretty(v: &Value, out: &mut String, ind: &String, sp: &String)
    ensures
        final(out)@ == old(out)@ + jpretty(v@, ind@, sp@),
    decreases *v,
{
    let ghost base = out@;
    match v {
        Value::Null => {
            out.push('n');
            out.push('u');
            out.push('l');
            out.push('l');
            proof {
                assert(out@ =~= base + jpretty(v@, ind@, sp@));
            }
        },
        Value::Bool(b) => {
            if *b {
                out.push('t');
                out.push('r');
                out.push('u');
                out.push('e');
            } else {
                out.push('f');
                out.push('a');
                out.push('l');
                out.push('s');
                out.push('e');
            }
            proof {
                assert(out@ =~= base + jpretty(v@, ind@, sp@));
            }
        },
        Value::Int(n) => {
            push_idec(*n, out);
        },
        Value::Fix(f) => {
            push_fxdec(*f, out);
        },
        Value::Str(s) => {
            push_quoted(s.as_str(), out);
        },
        Value::Arr(items) => {
            let ghost lm = list_model(items@);
            proof {
                lemma_list_model_len(items@);
            }
            out.push('[');
            if items.len() > 0 {
                let mut ind1 = ind.clone();
                ind1.append(sp.as_str());
                out.push('\n');
                ind1_append(&ind1, out);
                proof {
                    lemma_list_model_index(items@, 0);
                }
                push_jpretty(&items[0], out, &ind1, sp);
                proof {
                    assert(lm.subrange(1, 1) =~= Seq::<JVal>::empty());
                    assert(out@ =~= base + seq!['['] + seq!['\n'] + ind1@
                        + jpretty(lm[0], ind1@, sp@)
                        + jpretty_list_rest(lm.subrange(1, 1), ind1@, sp@));
                }
                let mut i: usize = 1;
                while i < items.len()
                    invariant
                        1 <= i <= items@.len(),
                        lm == list_model(items@),
                        lm.len() == items@.len(),
                        v@ == JVal::Arr(lm),
                        *v matches Value::Arr(el) && el@ == items@,
                        ind1@ == ind@ + sp@,
                        out@ == base + seq!['['] + seq!['\n'] + ind1@
                            + jpretty(lm[0], ind1@, sp@)
                            + jpretty_list_rest(lm.subrange(1, i as int), ind1@, sp@),
                    decreases items@.len() - i,
                {
                    let ghost pre = lm.subrange(1, i as int);
                    out.push(',');
                    out.push('\n');
                    ind1_append(&ind1, out);
                    proof {
                        lemma_list_model_index(items@, i as int);
                    }
                    push_jpretty(&items[i], out, &ind1, sp);
                    proof {
                        lemma_jpretty_list_rest_snoc(pre, lm[i as int], ind1@, sp@);
                        assert(lm.subrange(1, i as int + 1) =~= pre.push(lm[i as int]));
                        assert(out@ =~= base + seq!['['] + seq!['\n'] + ind1@
                            + jpretty(lm[0], ind1@, sp@)
                            + jpretty_list_rest(lm.subrange(1, i as int + 1), ind1@, sp@));
                    }
                    i = i + 1;
                }
                out.push('\n');
                ind1_append(ind, out);
                out.push(']');
                proof {
                    assert(lm.subrange(1, lm.len() as int) =~= lm.drop_first());
                    assert(out@ =~= base + jpretty(v@, ind@, sp@));
                }
            } else {
                out.push(']');
                proof {
                    assert(out@ =~= base + jpretty(v@, ind@, sp@));
                }
            }
        },
        Value::Obj(entries) => {
            let ghost em = entries_model(entries@);
            proof {
                lemma_entries_model_len(entries@);
            }
            out.push('{');
            if entries.len() > 0 {
                let mut ind1 = ind.clone();
                ind1.append(sp.as_str());
                out.push('\n');
                ind1_append(&ind1, out);
                proof {
                    lemma_entries_model_index(entries@, 0);
                }
                push_quoted(entries[0].key.as_str(), out);
                out.push(':');
                out.push(' ');
                push_jpretty(&entries[0].value, out, &ind1, sp);
                proof {
                    assert(em.subrange(1, 1) =~= Seq::<(Seq<char>, JVal)>::empty());
                    assert(out@ =~= base + seq!['{'] + seq!['\n'] + ind1@ + quoted(em[0].0)
                        + seq![':', ' '] + jpretty(em[0].1, ind1@, sp@)
                        + jpretty_entries_rest(em.subrange(1, 1), ind1@, sp@));
                }
                let mut i: usize = 1;
                while i < entries.len()
                    invariant
                        1 <= i <= entries@.len(),
                        em == entries_model(entries@),
                        em.len() == entries@.len(),
                        v@ == JVal::Obj(em),
                        *v matches Value::Obj(el) && el@ == entries@,
                        ind1@ == ind@ + sp@,
                        out@ == base + seq!['{'] + seq!['\n'] + ind1@ + quoted(em[0].0)
                            + seq![':', ' '] + jpretty(em[0].1, ind1@, sp@)
                            + jpretty_entries_rest(em.subrange(1, i as int), ind1@, sp@),
                    decreases entries@.len() - i,
                {
                    let ghost pre = em.subrange(1, i as int);
                    out.push(',');
                    out.push('\n');
                    ind1_append(&ind1, out);
                    proof {
                        lemma_entries_model_index(entries@, i as int);
                    }
                    push_quoted(entries[i].key.as_str(), out);
                    out.push(':');
                    out.push(' ');
                    push_jpretty(&entries[i].value, out, &ind1, sp);
                    proof {
                        lemma_jpretty_entries_rest_snoc(pre, em[i as int], ind1@, sp@);
                        assert(em.subrange(1, i as int + 1) =~= pre.push(em[i as int]));
                        assert(out@ =~= base + seq!['{'] + seq!['\n'] + ind1@ + quoted(em[0].0)
                            + seq![':', ' '] + jpretty(em[0].1, ind1@, sp@)
                            + jpretty_entries_rest(em.subrange(1, i as int + 1), ind1@, sp@));
                    }
                    i = i + 1;
                }
                out.push('\n');
                ind1_append(ind, out);
                out.push('}');
                proof {
                    assert(em.subrange(1, em.len() as int) =~= em.drop_first());
                    assert(out@ =~= base + jpretty(v@, ind@, sp@));
                }
            } else {
                out.push('}');
                proof {
                    assert(out@ =~= base + jpretty(v@, ind@, sp@));
                }
            }
        },
    }
}

/// Appends an indentation string.
fn ind1_append(ind: &String, out: &mut String)
    ensures
        final(out)@ == old(out)@ + ind@,
{
    out.append(ind.as_str());
}

impl Value {
    /// The indented JSON text of this value, `spaces` spaces per nesting
    /// level, as chart files are written on export.
    pub fn pretty(&self, spaces: u16) -> (r: String)
        ensures
            r@ == jpretty(self@, Seq::empty(), sp_of(spaces as int)),
    {
        let mut sp = String::new();
        let mut j: u16 = 0;
        while j < spaces
            invariant
                j <= spaces,
                sp@ == sp_of(j as int),
            decreases spaces - j,
        {
            sp.push(' ');
            proof {
                assert(sp@ =~= sp_of(j as int + 1));
            }
            j = j + 1;
        }
        let ind = String::new();
        let mut out = String::new();
        push_jpretty(self, &mut out, &ind, &sp);
        proof {
            assert(out@ =~= jpretty(self@, Seq::empty(), sp_of(spaces as int)));
        }
        out
    }
}


pub proof fn lemma_list_model_snoc(s: Seq<Value>, x: Value)
    ensures
        list_model(s.push(x)) == list_model(s) + seq![value_model(x)],
    decreases s.len(),
{
    if s.len() == 0 {
        assert(s.push(x)[0] == x);
        assert(s.push(x).drop_first() =~= Seq::<Value>::empty());
        assert(list_model(Seq::<Value>::empty()) == Seq::<JVal>::empty());
        assert(list_model(s.push(x)) == seq![value_model(x)] + list_model(Seq::<Value>::empty()));
        assert(list_model(s.push(x)) =~= list_model(s) + seq![value_model(x)]);
    } else {
        assert(s.push(x)[0] == s[0]);
        assert(s.push(x).drop_first() =~= s.drop_first().push(x));
        lemma_list_model_snoc(s.drop_first(), x);
        assert(list_model(s.push(x)) =~= list_model(s) + seq![value_model(x)]);
    }
}

pub proof fn lemma_entries_model_snoc(s: Seq<Entry>, e: Entry)
    ensures
        entries_model(s.push(e)) == entries_model(s) + seq![(e.key@, value_model(e.value))],
    decreases s.len(),
{
    if s.len() == 0 {
        assert(s.push(e)[0] == e);
        assert(s.push(e).drop_first() =~= Seq::<Entry>::empty());
        assert(entries_model(Seq::<Entry>::empty()) == Seq::<(Seq<char>, JVal)>::empty());
        assert(entries_model(s.push(e)) == seq![(e.key@, value_model(e.value))]
            + entries_model(Seq::<Entry>::empty()));
        assert(entries_model(s.push(e)) =~= entries_model(s)
            + seq![(e.key@, value_model(e.value))]);
    } else {
        assert(s.push(e)[0] == s[0]);
        assert(s.push(e).drop_first() =~= s.drop_first().push(e));
        lemma_entries_model_snoc(s.drop_first(), e);
        assert(entries_model(s.push(e)) =~= entries_model(s)
            + seq![(e.key@, value_model(e.value))]);
    }
}

/// Appends one `"key": value` entry to a JSON object under construction.
pub fn obj_push(entries: &mut Vec<Entry>, key: &str, value: Value)
    ensures
        entries_model(final(entries)@) == entries_model(old(entries)@)
            + seq![(key@, value_model(value))],
{
    let ghost v = value_model(value);
    entries.push(Entry { key: key.to_owned(), value });
    proof {
        lemma_entries_model_snoc(old(entries)@, final(entries)@.last());
    }
}

/// Appends one item to a JSON array under construction.
pub fn arr_push(items: &mut Vec<Value>, value: Value)
    ensures
        list_model(final(items)@) == list_model(old(items)@) + seq![value_model(value)],
{
    items.push(value);
    proof {
        lemma_list_model_snoc(old(items)@, final(items)@.last());
    }
}

} // verus!
