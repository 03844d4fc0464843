//! The document model for HAL+JSON bodies.
//!
//! A broker response is held as a [`JsonValue`] tree of plain values:
//! object member order is preserved, and a number keeps its literal text,
//! so a document can be rendered back exactly as it is held. The spec
//! mirror [`JsonRep`] carries the same tree over sequences, and every
//! operation on documents is specified against it.

use vstd::prelude::*;
use vstd::string::StrSliceExecFns;

use crate::strutil::str_eq;

verus! {

/// One JSON value. A number is kept as its literal text, which the
/// renderer splices back verbatim; none of the broker logic does
/// arithmetic on fractional numbers.
#[derive(Debug)]
pub enum JsonValue {
    Null,
    Bool(bool),
    Num(String),
    Str(String),
    Arr(Vec<JsonValue>),
    Obj(Vec<(String, JsonValue)>),
}

/// The spec-level mirror of a [`JsonValue`].
pub enum JsonRep {
    Null,
    Bool(bool),
    Num(Seq<char>),
    Str(Seq<char>),
    Arr(Seq<JsonRep>),
    Obj(Seq<(Seq<char>, JsonRep)>),
}

/// The mirror of a value: strings become their views, children recurse.
pub open spec fn view_json(v: JsonValue) -> JsonRep
    decreases v,
{
    match v {
        JsonValue::Null => JsonRep::Null,
        JsonValue::Bool(b) => JsonRep::Bool(b),
        JsonValue::Num(s) => JsonRep::Num(s@),
        JsonValue::Str(s) => JsonRep::Str(s@),
        JsonValue::Arr(items) => JsonRep::Arr(view_json_seq(items@)),
        JsonValue::Obj(fields) => JsonRep::Obj(view_json_members(fields@)),
    }
}

/// The mirrors of an array's elements, in order.
pub open spec fn view_json_seq(items: Seq<JsonValue>) -> Seq<JsonRep>
    decreases items,
{
    if items.len() == 0 {
        Seq::empty()
    } else {
        seq![view_json(items[0])] + view_json_seq(items.subrange(1, items.len() as int))
    }
}

/// The mirrors of an object's members, in order.
pub open spec fn view_json_members(fields: Seq<(String, JsonValue)>) -> Seq<(Seq<char>, JsonRep)>
    decreases fields,
{
    if fields.len() == 0 {
        Seq::empty()
    } else {
        seq![(fields[0].0@, view_json(fields[0].1))] + view_json_members(
            fields.subrange(1, fields.len() as int),
        )
    }
}

/// Element-wise reading of [`view_json_seq`].
pub proof fn lemma_view_json_seq(items: Seq<JsonValue>)
    ensures
        view_json_seq(items).len() == items.len(),
        forall|i: int| 0 <= i < items.len() ==> view_json_seq(items)[i] == view_json(items[i]),
    decreases items.len(),
{
    if items.len() > 0 {
        lemma_view_json_seq(items.subrange(1, items.len() as int));
    }
}

/// Element-wise reading of [`view_json_members`].
pub proof fn lemma_view_json_members(fields: Seq<(String, JsonValue)>)
    ensures
        view_json_members(fields).len() == fields.len(),
        forall|i: int| 0 <= i < fields.len() ==> view_json_members(fields)[i] == (
        fields[i].0@,
        view_json(fields[i].1),
        ),
    decreases fields.len(),
{
    if fields.len() > 0 {
        lemma_view_json_members(fields.subrange(1, fields.len() as int));
    }
}

impl View for JsonValue {
    type V = JsonRep;

    open spec fn view(&self) -> JsonRep {
        view_json(*self)
    }
}

/// The value of the first member named `key`, if any. Relation names are
/// unique within one `_links` object, so first-match lookup is lookup.
pub open spec fn rep_member(fields: Seq<(Seq<char>, JsonRep)>, key: Seq<char>) -> Option<JsonRep>
    decreases fields.len(),
{
    if fields.len() == 0 {
        None
    } else if fields[0].0 == key {
        Some(fields[0].1)
    } else {
        rep_member(fields.drop_first(), key)
    }
}

/// Member lookup on a value: `None` on anything but an object.
pub open spec fn rep_get(v: JsonRep, key: Seq<char>) -> Option<JsonRep> {
    match v {
        JsonRep::Obj(fields) => rep_member(fields, key),
        _ => None,
    }
}

impl JsonValue {
    /// The member named `key` of an object, `None` for a missing member
    /// or a non-object.
    pub fn get<'a>(&'a self, key: &str) -> (r: Option<&'a JsonValue>)
        ensures
            match r {
                Some(m) => rep_get(self@, key@) == Some(m@),
                None => rep_get(self@, key@) is None,
            },
    {
        match self {
            JsonValue::Obj(fields) => {
                let ghost fv = view_json_members(fields@);
                let mut i: usize = 0;
                proof {
                    lemma_view_json_members(fields@);
                    assert(fv.skip(0) =~= fv);
                }
                while i < fields.len()
                    invariant
                        fv == view_json_members(fields@),
                        self@ == JsonRep::Obj(fv),
                        fields@.len() == fv.len(),
                        forall|j: int| 0 <= j < fv.len() ==> fv[j] == (
                        fields@[j].0@,
                        view_json(fields@[j].1),
                        ),
                        i <= fv.len(),
                        rep_member(fv, key@) == rep_member(fv.skip(i as int), key@),
                    decreases fv.len() - i,
                {
                    proof {
                        assert(fv.skip(i as int)[0] == fv[i as int]);
                        assert(fv.skip(i as int).drop_first() =~= fv.skip(i as int + 1));
                    }
                    if str_eq(fields[i].0.as_str(), key) {
                        return Some(&fields[i].1);
                    }
                    i = i + 1;
                }
                None
            },
            _ => None,
        }
    }

    /// The string content when the value is a string.
    pub fn as_str<'a>(&'a self) -> (r: Option<&'a String>)
        ensures
            match r {
                Some(s) => self@ == JsonRep::Str(s@),
                None => !(self@ is Str),
            },
    {
        match self {
            JsonValue::Str(s) => Some(s),
            _ => None,
        }
    }

    /// The boolean content when the value is a boolean.
    pub fn as_bool(&self) -> (r: Option<bool>)
        ensures
            match r {
                Some(b) => self@ == JsonRep::Bool(b),
                None => !(self@ is Bool),
            },
    {
        match self {
            JsonValue::Bool(b) => Some(*b),
            _ => None,
        }
    }

    /// The elements when the value is an array.
    pub fn as_array<'a>(&'a self) -> (r: Option<&'a Vec<JsonValue>>)
        ensures
            match r {
                Some(items) => self@ == JsonRep::Arr(view_json_seq(items@)),
                None => !(self@ is Arr),
            },
    {
        match self {
            JsonValue::Arr(items) => Some(items),
            _ => None,
        }
    }

    /// The members when the value is an object.
    pub fn as_object<'a>(&'a self) -> (r: Option<&'a Vec<(String, JsonValue)>>)
        ensures
            match r {
                Some(fields) => self@ == JsonRep::Obj(view_json_members(fields@)),
                None => !(self@ is Obj),
            },
    {
        match self {
            JsonValue::Obj(fields) => Some(fields),
            _ => None,
        }
    }
}

/// The hexadecimal digit for a nibble, lower case.
pub open spec fn hex_char(n: int) -> char {
    if n == 0 {
        '0'
    } else if n == 1 {
        '1'
    } else if n == 2 {
        '2'
    } else if n == 3 {
        '3'
    } else if n == 4 {
        '4'
    } else if n == 5 {
        '5'
    } else if n == 6 {
        '6'
    } else if n == 7 {
        '7'
    } else if n == 8 {
        '8'
    } else if n == 9 {
        '9'
    } else if n == 10 {
        'a'
    } else if n == 11 {
        'b'
    } else if n == 12 {
        'c'
    } else if n == 13 {
        'd'
    } else if n == 14 {
        'e'
    } else {
        'f'
    }
}

/// What one character becomes inside a JSON string literal.
pub open spec fn esc_char(c: char) -> Seq<char> {
    if c == '"' {
        seq!['\\', '"']
    } else if c == '\\' {
        seq!['\\', '\\']
    } else if c == '\u{8}' {
        seq!['\\', 'b']
    } else if c == '\u{c}' {
        seq!['\\', 'f']
    } else if c == '\n' {
        seq!['\\', 'n']
    } else if c == '\r' {
        seq!['\\', 'r']
    } else if c == '\t' {
        seq!['\\', 't']
    } else if (c as u32) < 0x20 {
        seq!['\\', 'u', '0', '0', hex_char(c as u32 as int / 16), hex_char(c as u32 as int % 16)]
    } else {
        seq![c]
    }
}

/// A whole string escaped for a JSON string literal.
pub open spec fn esc_str(s: Seq<char>) -> Seq<char>
    decreases s.len(),
{
    if s.len() == 0 {
        Seq::empty()
    } else {
        esc_char(s[0]) + esc_str(s.drop_first())
    }
}

/// The compact rendering of a value: no whitespace, members in held
/// order, number literals spliced back verbatim.
pub open spec fn spec_print(r: JsonRep) -> Seq<char>
    decreases r,
{
    match r {
        JsonRep::Null => seq!['n', 'u', 'l', 'l'],
        JsonRep::Bool(b) => if b {
            seq!['t', 'r', 'u', 'e']
        } else {
            seq!['f', 'a', 'l', 's', 'e']
        },
        JsonRep::Num(s) => s,
        JsonRep::Str(s) => seq!['"'] + esc_str(s) + seq!['"'],
        JsonRep::Arr(items) => seq!['['] + spec_print_items(items) + seq![']'],
        JsonRep::Obj(fields) => seq!['{'] + spec_print_fields(fields) + seq!['}'],
    }
}

/// Array elements joined by commas.
pub open spec fn spec_print_items(items: Seq<JsonRep>) -> Seq<char>
    decreases items,
{
    if items.len() == 0 {
        Seq::empty()
    } else if items.len() == 1 {
        spec_print(items[0])
    } else {
        spec_print(items[0]) + seq![','] + spec_print_items(
            items.subrange(1, items.len() as int),
        )
    }
}

/// Object members, each a quoted escaped key, a colon and the value,
/// joined by commas.
pub open spec fn spec_print_fields(fields: Seq<(Seq<char>, JsonRep)>) -> Seq<char>
    decreases fields,
{
    if fields.len() == 0 {
        Seq::empty()
    } else if fields.len() == 1 {
        seq!['"'] + esc_str(fields[0].0) + seq!['"', ':'] + spec_print(fields[0].1)
    } else {
        seq!['"'] + esc_str(fields[0].0) + seq!['"', ':'] + spec_print(fields[0].1) + seq![',']
            + spec_print_fields(fields.subrange(1, fields.len() as int))
    }
}

/// The lower-case hexadecimal digit of a nibble, as a one-character
/// string slice.
fn hex_char_str(n: u8) -> (r: &'static str)
    requires
        n < 16,
    ensures
        r@ == seq![hex_char(n as int)],
{
    proof {
        reveal_strlit("0");
        reveal_strlit("1");
        reveal_strlit("2");
        reveal_strlit("3");
        reveal_strlit("4");
        reveal_strlit("5");
        reveal_strlit("6");
        reveal_strlit("7");
        reveal_strlit("8");
        reveal_strlit("9");
        reveal_strlit("a");
        reveal_strlit("b");
        reveal_strlit("c");
        reveal_strlit("d");
        reveal_strlit("e");
        reveal_strlit("f");
    }
    match n {
        0 => "0",
        1 => "1",
        2 => "2",
        3 => "3",
        4 => "4",
        5 => "5",
        6 => "6",
        7 => "7",
        8 => "8",
        9 => "9",
        10 => "a",
        11 => "b",
        12 => "c",
        13 => "d",
        14 => "e",
        _ => "f",
    }
}

/// Appends `s` escaped for a JSON string literal.
fn append_escaped(out: &mut String, s: &str)
    ensures
        final(out)@ == old(out)@ + esc_str(s@),
{
    let len = s.unicode_len();
    let mut i: usize = 0;
    proof {
        assert(s@.skip(0) =~= s@);
        assert(old(out)@ + esc_str(s@.skip(0)) == old(out)@ + esc_str(s@));
    }
    while i < len
        invariant
            len == s@.len(),
            i <= len,
            old(out)@ + esc_str(s@) == out@ + esc_str(s@.skip(i as int)),
        decreases len - i,
    {
        let ghost t = s@.skip(i as int);
        proof {
            assert(t[0] == s@[i as int]);
            assert(t.drop_first() =~= s@.skip(i as int + 1));
        }
        let c = s.get_char(i);
        if c == '"' {
            proof {
                reveal_strlit("\\\"");
            }
            out.append("\\\"");
        } else if c == '\\' {
            proof {
                reveal_strlit("\\\\");
            }
            out.append("\\\\");
        } else if c == '\u{8}' {
            proof {
                reveal_strlit("\\b");
            }
            out.append("\\b");
        } else if c == '\u{c}' {
            proof {
                reveal_strlit("\\f");
            }
            out.append("\\f");
        } else if c == '\n' {
            proof {
                reveal_strlit("\\n");
            }
            out.append("\\n");
        } else if c == '\r' {
            proof {
                reveal_strlit("\\r");
            }
            out.append("\\r");
        } else if c == '\t' {
            proof {
                reveal_strlit("\\t");
            }
            out.append("\\t");
        } else if (c as u32) < 0x20 {
            proof {
                reveal_strlit("\\u00");
            }
            out.append("\\u00");
            let code = c as u32;
            out.append(hex_char_str((code / 16) as u8));
            out.append(hex_char_str((code % 16) as u8));
        } else {
            let one = s.substring_char(i, i + 1);
            proof {
                assert(one@ =~= seq![t[0]]);
            }
            out.append(one);
        }
        i = i + 1;
    }
    proof {
        assert(esc_str(s@.skip(len as int)) =~= Seq::<char>::empty());
        assert(out@ + Seq::<char>::empty() =~= out@);
    }
}

/// Appends the compact rendering of `v`.
fn append_json(out: &mut String, v: &JsonValue)
    ensures
        final(out)@ == old(out)@ + spec_print(v@),
    decreases *v,
{
    match v {
        JsonValue::Null => {
            proof {
                reveal_strlit("null");
                assert("null"@ =~= seq!['n', 'u', 'l', 'l']);
            }
            out.append("null");
        },
        JsonValue::Bool(b) => {
            if *b {
                proof {
                    reveal_strlit("true");
                    assert("true"@ =~= seq!['t', 'r', 'u', 'e']);
                }
                out.append("true");
            } else {
                proof {
                    reveal_strlit("false");
                    assert("false"@ =~= seq!['f', 'a', 'l', 's', 'e']);
                }
                out.append("false");
            }
        },
        JsonValue::Num(s) => {
            out.append(s.as_str());
        },
        JsonValue::Str(s) => {
            proof {
                reveal_strlit("\"");
                assert("\""@ =~= seq!['"']);
            }
            out.append("\"");
            append_escaped(out, s.as_str());
            out.append("\"");
            proof {
                assert(out@ =~= old(out)@ + spec_print(v@));
            }
        },
        JsonValue::Arr(items) => {
            let ghost irep = view_json_seq(items@);
            proof {
                lemma_view_json_seq(items@);
                reveal_strlit("[");
                reveal_strlit("]");
                reveal_strlit(",");
                assert("["@ =~= seq!['[']);
                assert("]"@ =~= seq![']']);
                assert(","@ =~= seq![',']);
            }
            out.append("[");
            let ghost base = out@;
            let mut i: usize = 0;
            proof {
                assert(irep.skip(0) =~= irep);
            }
            while i < items.len()
                invariant
                    *v == JsonValue::Arr(*items),
                    irep == view_json_seq(items@),
                    irep.len() == items@.len(),
                    forall|j: int| 0 <= j < irep.len() ==> irep[j] == view_json(items@[j]),
                    i <= items@.len(),
                    "]"@ =~= seq![']'],
                    ","@ =~= seq![','],
                    base + spec_print_items(irep) == out@ + (if i < irep.len() {
                        spec_print_items(irep.skip(i as int))
                    } else {
                        Seq::<char>::empty()
                    }),
                decreases items@.len() - i,
            {
                let ghost t = irep.skip(i as int);
                proof {
                    assert(t[0] == irep[i as int]);
                    assert(t.subrange(1, t.len() as int) =~= irep.skip(i as int + 1));
                    assert(*items == v->Arr_0);
                    assert(decreases_to!(*v => v->Arr_0));
                    assert(decreases_to!(*items => items@));
                    assert(decreases_to!(items@ => items@[i as int]));
                }
                append_json(out, &items[i]);
                if i + 1 < items.len() {
                    out.append(",");
                }
                i = i + 1;
            }
            out.append("]");
            proof {
                assert(out@ =~= old(out)@ + spec_print(v@));
            }
        },
        JsonValue::Obj(fields) => {
            let ghost frep = view_json_members(fields@);
            proof {
                lemma_view_json_members(fields@);
                reveal_strlit("{");
                reveal_strlit("}");
                reveal_strlit(",");
                reveal_strlit("\"");
                reveal_strlit("\":");
                assert("{"@ =~= seq!['{']);
                assert("}"@ =~= seq!['}']);
                assert(","@ =~= seq![',']);
                assert("\""@ =~= seq!['"']);
                assert("\":"@ =~= seq!['"', ':']);
            }
            out.append("{");
            let ghost base = out@;
            let mut i: usize = 0;
            proof {
                assert(frep.skip(0) =~= frep);
            }
            while i < fields.len()
                invariant
                    *v == JsonValue::Obj(*fields),
                    frep == view_json_members(fields@),
                    frep.len() == fields@.len(),
                    forall|j: int| 0 <= j < frep.len() ==> frep[j] == (
                    fields@[j].0@,
                    view_json(fields@[j].1),
                    ),
                    i <= fields@.len(),
                    "}"@ =~= seq!['}'],
                    ","@ =~= seq![','],
                    "\""@ =~= seq!['"'],
                    "\":"@ =~= seq!['"', ':'],
                    base + spec_print_fields(frep) == out@ + (if i < frep.len() {
                        spec_print_fields(frep.skip(i as int))
                    } else {
                        Seq::<char>::empty()
                    }),
                decreases fields@.len() - i,
            {
                let ghost t = frep.skip(i as int);
                proof {
                    assert(t[0] == frep[i as int]);
                    assert(t.subrange(1, t.len() as int) =~= frep.skip(i as int + 1));
                }
                out.append("\"");
                append_escaped(out, fields[i].0.as_str());
                out.append("\":");
                proof {
                    assert(*fields == v->Obj_0);
                    assert(decreases_to!(*v => v->Obj_0));
                    assert(decreases_to!(*fields => fields@));
                    assert(decreases_to!(fields@ => fields@[i as int]));
                    assert(decreases_to!(fields@[i as int] => fields@[i as int].1));
                }
                append_json(out, &fields[i].1);
                if i + 1 < fields.len() {
                    out.append(",");
                }
                i = i + 1;
            }
            out.append("}");
            proof {
                assert(out@ =~= old(out)@ + spec_print(v@));
            }
        },
    }
}

/// The compact JSON text of a document, exactly [`spec_print`] of its
/// mirror.
pub fn print_json(v: &JsonValue) -> (r: String)
    ensures
        r@ == spec_print(v@),
{
    let mut out = String::new();
    append_json(&mut out, v);
    proof {
        assert(Seq::<char>::empty() + spec_print(v@) =~= spec_print(v@));
    }
    out
}

/// The member reached by following `path` object keys in order, `None`
/// as soon as a step is missing or the current value is not an object.
pub open spec fn rep_get_path(v: JsonRep, path: Seq<Seq<char>>) -> Option<JsonRep>
    decreases path.len(),
{
    if path.len() == 0 {
        Some(v)
    } else {
        match rep_get(v, path[0]) {
            Some(m) => rep_get_path(m, path.drop_first()),
            None => None,
        }
    }
}

/// Follows a key path through nested objects.
pub fn get_path<'a>(v: &'a JsonValue, path: &Vec<String>) -> (r: Option<&'a JsonValue>)
    ensures
        match r {
            Some(m) => rep_get_path(v@, path@.map_values(|s: String| s@)) == Some(m@),
            None => rep_get_path(v@, path@.map_values(|s: String| s@)) is None,
        },
{
    let ghost pv = path@.map_values(|s: String| s@);
    let mut cur: &JsonValue = v;
    let mut i: usize = 0;
    proof {
        assert(pv.skip(0) =~= pv);
    }
    while i < path.len()
        invariant
            pv == path@.map_values(|s: String| s@),
            pv.len() == path@.len(),
            i <= pv.len(),
            rep_get_path(v@, pv) == rep_get_path(cur@, pv.skip(i as int)),
        decreases pv.len() - i,
    {
        proof {
            assert(pv.skip(i as int)[0] == pv[i as int]);
            assert(pv.skip(i as int).drop_first() =~= pv.skip(i as int + 1));
        }
        match cur.get(path[i].as_str()) {
            Some(m) => {
                cur = m;
            },
            None => {
                return None;
            },
        }
        i = i + 1;
    }
    Some(cur)
}

} // verus!
