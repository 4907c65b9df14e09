//! JSON document model.
//!
//! `JsonValue` is the crate's own representation of a JSON document: numbers
//! are kept as their literal text, so the model stays exact for every
//! document this crate handles.  The spec-level mirror `JsonData` is what
//! contracts speak about.

use vstd::prelude::*;

verus! {

broadcast use vstd::std_specs::vec::group_vec_axioms, vstd::seq::group_seq_axioms;

/// Spec-level shape of a JSON document.
pub ghost enum JsonData {
    Null,
    Bool { b: bool },
    Num { text: Seq<char> },
    Str { text: Seq<char> },
    Arr { items: Seq<JsonData> },
    Obj { fields: Seq<(Seq<char>, JsonData)> },
}

/// A JSON document.  A number holds its literal text, so no precision is
/// lost between reading a document and writing it back.
pub enum JsonValue {
    Null,
    Bool(bool),
    Number(String),
    Text(String),
    Array(Vec<JsonValue>),
    Object(Vec<(String, JsonValue)>),
}

pub open spec fn data_of(v: JsonValue) -> JsonData
    decreases v, 1int,
{
    match v {
        JsonValue::Null => JsonData::Null,
        JsonValue::Bool(b) => JsonData::Bool { b },
        JsonValue::Number(s) => JsonData::Num { text: s@ },
        JsonValue::Text(s) => JsonData::Str { text: s@ },
        JsonValue::Array(items) => JsonData::Arr { items: data_of_list(items@) },
        JsonValue::Object(fields) => JsonData::Obj { fields: data_of_fields(fields@) },
    }
}

pub open spec fn data_of_list(s: Seq<JsonValue>) -> Seq<JsonData>
    decreases s, 0int,
{
    if s.len() == 0 {
        Seq::empty()
    } else {
        seq![data_of(s[0])] + data_of_list(s.drop_first())
    }
}

pub open spec fn data_of_fields(s: Seq<(String, JsonValue)>) -> Seq<(Seq<char>, JsonData)>
    decreases s, 0int,
{
    if s.len() == 0 {
        Seq::empty()
    } else {
        proof {
            assert(decreases_to!(s => s[0]));
        }
        seq![(s[0].0@, data_of(s[0].1))] + data_of_fields(s.drop_first())
    }
}

impl View for JsonValue {
    type V = JsonData;

    open spec fn view(&self) -> JsonData {
        data_of(*self)
    }
}

pub broadcast proof fn lemma_data_of_list_len(s: Seq<JsonValue>)
    ensures
        #[trigger] data_of_list(s).len() == s.len(),
    decreases s,
{
    if s.len() > 0 {
        lemma_data_of_list_len(s.drop_first());
    }
}

pub broadcast proof fn lemma_data_of_list_index(s: Seq<JsonValue>, i: int)
    requires
        0 <= i < s.len(),
    ensures
        data_of_list(s).len() == s.len(),
        #[trigger] data_of_list(s)[i] == data_of(s[i]),
    decreases s,
{
    lemma_data_of_list_len(s);
    if i > 0 {
        lemma_data_of_list_index(s.drop_first(), i - 1);
    }
}

pub broadcast proof fn lemma_data_of_fields_len(s: Seq<(String, JsonValue)>)
    ensures
        #[trigger] data_of_fields(s).len() == s.len(),
    decreases s,
{
    if s.len() > 0 {
        lemma_data_of_fields_len(s.drop_first());
    }
}

pub broadcast proof fn lemma_data_of_fields_index(s: Seq<(String, JsonValue)>, i: int)
    requires
        0 <= i < s.len(),
    ensures
        data_of_fields(s).len() == s.len(),
        #[trigger] data_of_fields(s)[i] == (s[i].0@, data_of(s[i].1)),
    decreases s,
{
    lemma_data_of_fields_len(s);
    if i > 0 {
        lemma_data_of_fields_index(s.drop_first(), i - 1);
    }
}

proof fn lemma_data_of_list_eq(a: Seq<JsonValue>, b: Seq<JsonValue>)
    requires
        a.len() == b.len(),
        forall|j: int| 0 <= j < a.len() ==> (#[trigger] a[j])@ == b[j]@,
    ensures
        data_of_list(a) == data_of_list(b),
{
    broadcast use lemma_data_of_list_index;

    lemma_data_of_list_len(a);
    lemma_data_of_list_len(b);
    assert(data_of_list(a) =~= data_of_list(b));
}

proof fn lemma_data_of_fields_eq(a: Seq<(String, JsonValue)>, b: Seq<(String, JsonValue)>)
    requires
        a.len() == b.len(),
        forall|j: int|
            0 <= j < a.len() ==> (#[trigger] a[j]).0@ == b[j].0@ && a[j].1@ == b[j].1@,
    ensures
        data_of_fields(a) == data_of_fields(b),
{
    broadcast use lemma_data_of_fields_index;

    lemma_data_of_fields_len(a);
    lemma_data_of_fields_len(b);
    assert(data_of_fields(a) =~= data_of_fields(b));
}

/// The value under the first field named `key`, if any.
pub open spec fn field_of(fields: Seq<(Seq<char>, JsonData)>, key: Seq<char>) -> Option<JsonData>
    decreases fields,
{
    if fields.len() == 0 {
        None
    } else if fields[0].0 == key {
        Some(fields[0].1)
    } else {
        field_of(fields.drop_first(), key)
    }
}

/// The value under `key` when `d` is an object that has that field.
pub open spec fn member_of(d: JsonData, key: Seq<char>) -> Option<JsonData> {
    match d {
        JsonData::Obj { fields } => field_of(fields, key),
        _ => None,
    }
}

impl JsonValue {
    /// Looks `key` up among this value's object fields; `None` when this is
    /// not an object or no field carries that name.
    pub fn get<'a>(&'a self, key: &String) -> (r: Option<&'a JsonValue>)
        ensures
            match r {
                Some(v) => member_of(self@, key@) == Some(v@),
                None => member_of(self@, key@) is None,
            },
    {
        match self {
            JsonValue::Object(fields) => {
                let ghost gfields = data_of_fields(fields@);
                proof {
                    lemma_data_of_fields_len(fields@);
                    assert(gfields.skip(0) =~= gfields);
                }
                let mut i: usize = 0;
                while i < fields.len()
                    invariant
                        0 <= i <= fields@.len(),
                        gfields == data_of_fields(fields@),
                        self@ == (JsonData::Obj { fields: gfields }),
                        gfields.len() == fields@.len(),
                        forall|j: int| 0 <= j < i ==> gfields[j].0 != key@,
                        field_of(gfields, key@) == field_of(gfields.skip(i as int), key@),
                    decreases fields@.len() - i,
                {
                    proof {
                        lemma_data_of_fields_index(fields@, i as int);
                        assert(gfields.skip(i as int)[0] == gfields[i as int]);
                        assert(gfields.skip(i as int).drop_first() =~= gfields.skip(i + 1));
                    }
                    if fields[i].0 == *key {
                        proof {
                            assert(gfields[i as int] == (fields@[i as int].0@, data_of(
                                fields@[i as int].1,
                            )));
                            assert(field_of(gfields.skip(i as int), key@) == Some(
                                gfields[i as int].1,
                            ));
                            assert(member_of(self@, key@) == Some(data_of(fields@[i as int].1)));
                        }
                        return Some(&fields[i].1);
                    }
                    i = i + 1;
                }
                proof {
                    assert(gfields.skip(i as int) =~= Seq::empty());
                }
                None
            },
            _ => None,
        }
    }
}

pub open spec fn hex_char(n: int) -> char
    recommends
        0 <= n < 16,
{
    seq!['0', '1', '2', '3', '4', '5', '6', '7', '8', '9', 'a', 'b', 'c', 'd', 'e', 'f'][n]
}

/// How one character appears inside a JSON string: the quote, the backslash
/// and the named control characters get a two-character escape, the other
/// control characters a `\u00..` escape, everything else stands as itself.
pub open spec fn esc_char(c: char) -> Seq<char> {
    if c == '"' {
        seq!['\\', '"']
    } else if c == '\\' {
        seq!['\\', '\\']
    } else if c == '\x08' {
        seq!['\\', 'b']
    } else if c == '\x09' {
        seq!['\\', 't']
    } else if c == '\x0a' {
        seq!['\\', 'n']
    } else if c == '\x0c' {
        seq!['\\', 'f']
    } else if c == '\x0d' {
        seq!['\\', 'r']
    } else if (c as int) < 32 {
        seq!['\\', 'u', '0', '0', hex_char(c as int / 16), hex_char(c as int % 16)]
    } else {
        seq![c]
    }
}

pub open spec fn escape_text(s: Seq<char>) -> Seq<char>
    decreases s.len(),
{
    if s.len() == 0 {
        Seq::empty()
    } else {
        esc_char(s[0]) + escape_text(s.drop_first())
    }
}

pub open spec fn quoted_text(s: Seq<char>) -> Seq<char> {
    seq!['"'] + escape_text(s) + seq!['"']
}

/// The compact rendering of a JSON document: no whitespace, object fields
/// and array items in order, numbers as their stored literal text.
pub open spec fn json_text(d: JsonData) -> Seq<char>
    decreases d, 1int,
{
    match d {
        JsonData::Null => seq!['n', 'u', 'l', 'l'],
        JsonData::Bool { b } => if b {
            seq!['t', 'r', 'u', 'e']
        } else {
            seq!['f', 'a', 'l', 's', 'e']
        },
        JsonData::Num { text } => text,
        JsonData::Str { text } => quoted_text(text),
        JsonData::Arr { items } => seq!['['] + arr_text(items) + seq![']'],
        JsonData::Obj { fields } => seq!['{'] + obj_text(fields) + seq!['}'],
    }
}

pub open spec fn arr_text(items: Seq<JsonData>) -> Seq<char>
    decreases items, 0int,
{
    if items.len() == 0 {
        Seq::empty()
    } else {
        json_text(items[0]) + arr_rest(items.drop_first())
    }
}

pub open spec fn arr_rest(items: Seq<JsonData>) -> Seq<char>
    decreases items, 0int,
{
    if items.len() == 0 {
        Seq::empty()
    } else {
        seq![','] + json_text(items[0]) + arr_rest(items.drop_first())
    }
}

pub open spec fn entry_text(f: (Seq<char>, JsonData)) -> Seq<char>
    decreases f, 1int,
{
    quoted_text(f.0) + seq![':'] + json_text(f.1)
}

pub open spec fn obj_text(fields: Seq<(Seq<char>, JsonData)>) -> Seq<char>
    decreases fields, 0int,
{
    if fields.len() == 0 {
        Seq::empty()
    } else {
        proof {
            assert(decreases_to!(fields => fields[0]));
        }
        entry_text(fields[0]) + obj_rest(fields.drop_first())
    }
}

pub open spec fn obj_rest(fields: Seq<(Seq<char>, JsonData)>) -> Seq<char>
    decreases fields, 0int,
{
    if fields.len() == 0 {
        Seq::empty()
    } else {
        proof {
            assert(decreases_to!(fields => fields[0]));
        }
        seq![','] + entry_text(fields[0]) + obj_rest(fields.drop_first())
    }
}

proof fn lemma_add_assoc(a: Seq<char>, b: Seq<char>, c: Seq<char>)
    ensures
        (a + b) + c == a + (b + c),
{
    assert((a + b) + c =~= a + (b + c));
}

proof fn lemma_arr_rest_snoc(s: Seq<JsonData>, x: JsonData)
    ensures
        arr_rest(s.push(x)) == arr_rest(s) + seq![','] + json_text(x),
    decreases s.len(),
{
    if s.len() == 0 {
        assert(s.push(x).drop_first() =~= Seq::<JsonData>::empty());
        assert(s.push(x)[0] == x);
        assert(arr_rest(s.push(x).drop_first()) == Seq::<char>::empty());
        assert(arr_rest(s.push(x)) =~= arr_rest(s) + seq![','] + json_text(x));
    } else {
        assert(s.push(x).drop_first() =~= s.drop_first().push(x));
        lemma_arr_rest_snoc(s.drop_first(), x);
        assert(s.push(x)[0] == s[0]);
        let p = seq![','] + json_text(s[0]);
        let q = arr_rest(s.drop_first());
        let r = seq![','] + json_text(x);
        lemma_add_assoc(seq![','], json_text(s[0]), arr_rest(s.drop_first().push(x)));
        assert(arr_rest(s.push(x)) == p + ((q + seq![',']) + json_text(x)));
        lemma_add_assoc(q, seq![','], json_text(x));
        lemma_add_assoc(p, q, r);
        assert(arr_rest(s) + seq![','] + json_text(x) == ((p + q) + seq![',']) + json_text(x));
        lemma_add_assoc(p + q, seq![','], json_text(x));
    }
}

proof fn lemma_arr_text_snoc(s: Seq<JsonData>, x: JsonData)
    ensures
        s.len() == 0 ==> arr_text(s.push(x)) == json_text(x),
        s.len() > 0 ==> arr_text(s.push(x)) == arr_text(s) + seq![','] + json_text(x),
{
    if s.len() == 0 {
        assert(s.push(x).drop_first() =~= Seq::<JsonData>::empty());
        assert(s.push(x)[0] == x);
        assert(arr_rest(s.push(x).drop_first()) == Seq::<char>::empty());
        assert(arr_text(s.push(x)) =~= json_text(x));
    } else {
        assert(s.push(x).drop_first() =~= s.drop_first().push(x));
        lemma_arr_rest_snoc(s.drop_first(), x);
        assert(s.push(x)[0] == s[0]);
        let a = json_text(s[0]);
        let b = arr_rest(s.drop_first());
        let c = seq![','];
        let d = json_text(x);
        assert(arr_text(s.push(x)) == a + ((b + c) + d));
        lemma_add_assoc(b, c, d);
        lemma_add_assoc(a, b, c + d);
        lemma_add_assoc(a + b, c, d);
        assert(arr_text(s) + seq![','] + json_text(x) == ((a + b) + c) + d);
    }
}

proof fn lemma_obj_rest_snoc(s: Seq<(Seq<char>, JsonData)>, x: (Seq<char>, JsonData))
    ensures
        obj_rest(s.push(x)) == obj_rest(s) + seq![','] + entry_text(x),
    decreases s.len(),
{
    if s.len() == 0 {
        assert(s.push(x).drop_first() =~= Seq::<(Seq<char>, JsonData)>::empty());
        assert(s.push(x)[0] == x);
        assert(obj_rest(s.push(x).drop_first()) == Seq::<char>::empty());
        assert(obj_rest(s.push(x)) =~= obj_rest(s) + seq![','] + entry_text(x));
    } else {
        assert(s.push(x).drop_first() =~= s.drop_first().push(x));
        lemma_obj_rest_snoc(s.drop_first(), x);
        assert(s.push(x)[0] == s[0]);
        let p = seq![','] + entry_text(s[0]);
        let q = obj_rest(s.drop_first());
        let r = seq![','] + entry_text(x);
        assert(obj_rest(s.push(x)) == p + ((q + seq![',']) + entry_text(x)));
        lemma_add_assoc(q, seq![','], entry_text(x));
        lemma_add_assoc(p, q, r);
        assert(obj_rest(s) + seq![','] + entry_text(x) == ((p + q) + seq![',']) + entry_text(x));
        lemma_add_assoc(p + q, seq![','], entry_text(x));
    }
}

proof fn lemma_obj_text_snoc(s: Seq<(Seq<char>, JsonData)>, x: (Seq<char>, JsonData))
    ensures
        s.len() == 0 ==> obj_text(s.push(x)) == entry_text(x),
        s.len() > 0 ==> obj_text(s.push(x)) == obj_text(s) + seq![','] + entry_text(x),
{
    if s.len() == 0 {
        assert(s.push(x).drop_first() =~= Seq::<(Seq<char>, JsonData)>::empty());
        assert(s.push(x)[0] == x);
        assert(obj_rest(s.push(x).drop_first()) == Seq::<char>::empty());
        assert(obj_text(s.push(x)) =~= entry_text(x));
    } else {
        assert(s.push(x).drop_first() =~= s.drop_first().push(x));
        lemma_obj_rest_snoc(s.drop_first(), x);
        assert(s.push(x)[0] == s[0]);
        let a = entry_text(s[0]);
        let b = obj_rest(s.drop_first());
        let c = seq![','];
        let d = entry_text(x);
        assert(obj_text(s.push(x)) == a + ((b + c) + d));
        lemma_add_assoc(b, c, d);
        lemma_add_assoc(a, b, c + d);
        lemma_add_assoc(a + b, c, d);
        assert(obj_text(s) + seq![','] + entry_text(x) == ((a + b) + c) + d);
    }
}

fn push_u00(out: &mut Vec<char>, h1: char, h2: char)
    ensures
        final(out)@ == old(out)@ + seq!['\\', 'u', '0', '0', h1, h2],
{
    out.push('\\');
    out.push('u');
    out.push('0');
    out.push('0');
    out.push(h1);
    out.push(h2);
    assert(final(out)@ =~= old(out)@ + seq!['\\', 'u', '0', '0', h1, h2]);
}

fn push_esc_char(out: &mut Vec<char>, c: char)
    ensures
        final(out)@ == old(out)@ + esc_char(c),
{
    match c {
        '"' => {
            out.push('\\');
            out.push('"');
            assert(final(out)@ =~= old(out)@ + esc_char(c));
        },
        '\\' => {
            out.push('\\');
            out.push('\\');
            assert(final(out)@ =~= old(out)@ + esc_char(c));
        },
        '\x08' => {
            out.push('\\');
            out.push('b');
            assert(final(out)@ =~= old(out)@ + esc_char(c));
        },
        '\x09' => {
            out.push('\\');
            out.push('t');
            assert(final(out)@ =~= old(out)@ + esc_char(c));
        },
        '\x0a' => {
            out.push('\\');
            out.push('n');
            assert(final(out)@ =~= old(out)@ + esc_char(c));
        },
        '\x0c' => {
            out.push('\\');
            out.push('f');
            assert(final(out)@ =~= old(out)@ + esc_char(c));
        },
        '\x0d' => {
            out.push('\\');
            out.push('r');
            assert(final(out)@ =~= old(out)@ + esc_char(c));
        },
        _ => {
            let space: char = ' ';
            if c < space {
                let (h1, h2): (char, char) = match c {
                    '\x00' => ('0', '0'),
                    '\x01' => ('0', '1'),
                    '\x02' => ('0', '2'),
                    '\x03' => ('0', '3'),
                    '\x04' => ('0', '4'),
                    '\x05' => ('0', '5'),
                    '\x06' => ('0', '6'),
                    '\x07' => ('0', '7'),
                    '\x0b' => ('0', 'b'),
                    '\x0e' => ('0', 'e'),
                    '\x0f' => ('0', 'f'),
                    '\x10' => ('1', '0'),
                    '\x11' => ('1', '1'),
                    '\x12' => ('1', '2'),
                    '\x13' => ('1', '3'),
                    '\x14' => ('1', '4'),
                    '\x15' => ('1', '5'),
                    '\x16' => ('1', '6'),
                    '\x17' => ('1', '7'),
                    '\x18' => ('1', '8'),
                    '\x19' => ('1', '9'),
                    '\x1a' => ('1', 'a'),
                    '\x1b' => ('1', 'b'),
                    '\x1c' => ('1', 'c'),
                    '\x1d' => ('1', 'd'),
                    '\x1e' => ('1', 'e'),
                    _ => ('1', 'f'),
                };
                assert(esc_char(c) == seq!['\\', 'u', '0', '0', h1, h2]);
                push_u00(out, h1, h2);
            } else {
                out.push(c);
                assert(final(out)@ =~= old(out)@ + esc_char(c));
            }
        },
    }
}

fn push_escaped(out: &mut Vec<char>, s: &str)
    ensures
        final(out)@ == old(out)@ + escape_text(s@),
{
    let cs = crate::text::str_chars(s);
    let mut i: usize = 0;
    while i < cs.len()
        invariant
            0 <= i <= cs@.len(),
            cs@ == s@,
            out@ == old(out)@ + escape_text(cs@.take(i as int)),
        decreases cs@.len() - i,
    {
        proof {
            lemma_escape_text_snoc(cs@.take(i as int), cs@[i as int]);
            assert(cs@.take(i + 1) =~= cs@.take(i as int).push(cs@[i as int]));
        }
        push_esc_char(out, cs[i]);
        i = i + 1;
    }
    proof {
        assert(cs@.take(cs@.len() as int) =~= cs@);
    }
}

proof fn lemma_escape_text_snoc(s: Seq<char>, c: char)
    ensures
        escape_text(s.push(c)) == escape_text(s) + esc_char(c),
    decreases s.len(),
{
    if s.len() == 0 {
        assert(s.push(c).drop_first() =~= Seq::<char>::empty());
        assert(s.push(c)[0] == c);
        assert(escape_text(s.push(c).drop_first()) == Seq::<char>::empty());
        assert(escape_text(s.push(c)) =~= escape_text(s) + esc_char(c));
    } else {
        assert(s.push(c).drop_first() =~= s.drop_first().push(c));
        lemma_escape_text_snoc(s.drop_first(), c);
        assert(s.push(c)[0] == s[0]);
        assert(escape_text(s.push(c)) == esc_char(s[0]) + (escape_text(s.drop_first()) + esc_char(
            c,
        )));
        lemma_add_assoc(esc_char(s[0]), escape_text(s.drop_first()), esc_char(c));
    }
}

fn push_quoted(out: &mut Vec<char>, s: &str)
    ensures
        final(out)@ == old(out)@ + quoted_text(s@),
{
    out.push('"');
    push_escaped(out, s);
    out.push('"');
    assert(final(out)@ =~= old(out)@ + quoted_text(s@));
}

fn write_json(v: &JsonValue, out: &mut Vec<char>)
    ensures
        final(out)@ == old(out)@ + json_text(v@),
    decreases *v,
{
    match v {
        JsonValue::Null => {
            proof {
                reveal_strlit("null");
            }
            crate::text::push_chars(out, "null");
            assert(final(out)@ =~= old(out)@ + json_text(v@));
        },
        JsonValue::Bool(b) => {
            if *b {
                proof {
                    reveal_strlit("true");
                }
                crate::text::push_chars(out, "true");
            } else {
                proof {
                    reveal_strlit("false");
                }
                crate::text::push_chars(out, "false");
            }
            assert(final(out)@ =~= old(out)@ + json_text(v@));
        },
        JsonValue::Number(s) => {
            crate::text::push_chars(out, s.as_str());
        },
        JsonValue::Text(s) => {
            push_quoted(out, s.as_str());
        },
        JsonValue::Array(items) => {
            let ghost gitems = data_of_list(items@);
            proof {
                lemma_data_of_list_len(items@);
            }
            out.push('[');
            let mut i: usize = 0;
            while i < items.len()
                invariant
                    0 <= i <= items@.len(),
                    gitems == data_of_list(items@),
                    gitems.len() == items@.len(),
                    *v is Array && v->Array_0 == *items,
                    out@ == old(out)@ + seq!['['] + arr_text(gitems.take(i as int)),
                decreases items@.len() - i,
            {
                proof {
                    lemma_data_of_list_index(items@, i as int);
                    lemma_arr_text_snoc(gitems.take(i as int), gitems[i as int]);
                    assert(gitems.take(i + 1) =~= gitems.take(i as int).push(gitems[i as int]));
                    assert(decreases_to!(*v => items@[i as int]));
                }
                if i > 0 {
                    out.push(',');
                }
                write_json(&items[i], out);
                proof {
                    assert(out@ =~= old(out)@ + seq!['['] + arr_text(gitems.take(i + 1)));
                }
                i = i + 1;
            }
            out.push(']');
            proof {
                assert(gitems.take(gitems.len() as int) =~= gitems);
                assert(final(out)@ =~= old(out)@ + json_text(v@));
            }
        },
        JsonValue::Object(fields) => {
            let ghost gfields = data_of_fields(fields@);
            proof {
                lemma_data_of_fields_len(fields@);
            }
            out.push('{');
            let mut i: usize = 0;
            while i < fields.len()
                invariant
                    0 <= i <= fields@.len(),
                    gfields == data_of_fields(fields@),
                    gfields.len() == fields@.len(),
                    *v is Object && v->Object_0 == *fields,
                    out@ == old(out)@ + seq!['{'] + obj_text(gfields.take(i as int)),
                decreases fields@.len() - i,
            {
                proof {
                    lemma_data_of_fields_index(fields@, i as int);
                    lemma_obj_text_snoc(gfields.take(i as int), gfields[i as int]);
                    assert(gfields.take(i + 1) =~= gfields.take(i as int).push(gfields[i as int]));
                    assert(decreases_to!(*v => fields@[i as int].1));
                }
                if i > 0 {
                    out.push(',');
                }
                push_quoted(out, fields[i].0.as_str());
                out.push(':');
                write_json(&fields[i].1, out);
                proof {
                    assert(out@ =~= old(out)@ + seq!['{'] + obj_text(gfields.take(i + 1)));
                }
                i = i + 1;
            }
            out.push('}');
            proof {
                assert(gfields.take(gfields.len() as int) =~= gfields);
                assert(final(out)@ =~= old(out)@ + json_text(v@));
            }
        },
    }
}

/// Writes `v` as compact JSON.
pub fn json_to_string(v: &JsonValue) -> (r: String)
    ensures
        r@ == json_text(v@),
{
    let mut out: Vec<char> = Vec::new();
    write_json(v, &mut out);
    crate::text::string_of_chars(&out)
}

impl JsonValue {
    /// The string inside, when this is a string.
    pub fn as_text(&self) -> (r: Option<&String>)
        ensures
            match r {
                Some(s) => self@ == (JsonData::Str { text: s@ }),
                None => !(self@ is Str),
            },
    {
        match self {
            JsonValue::Text(s) => Some(s),
            _ => None,
        }
    }

    /// The boolean inside, when this is a boolean.
    pub fn as_bool(&self) -> (r: Option<bool>)
        ensures
            match r {
                Some(b) => self@ == (JsonData::Bool { b }),
                None => !(self@ is Bool),
            },
    {
        match self {
            JsonValue::Bool(b) => Some(*b),
            _ => None,
        }
    }

    /// The items inside, when this is an array.
    pub fn as_array(&self) -> (r: Option<&Vec<JsonValue>>)
        ensures
            match r {
                Some(items) => self@ == (JsonData::Arr { items: data_of_list(items@) }),
                None => !(self@ is Arr),
            },
    {
        match self {
            JsonValue::Array(items) => Some(items),
            _ => None,
        }
    }

    /// The fields inside, when this is an object.
    pub fn as_object(&self) -> (r: Option<&Vec<(String, JsonValue)>>)
        ensures
            match r {
                Some(fields) => self@ == (JsonData::Obj { fields: data_of_fields(fields@) }),
                None => !(self@ is Obj),
            },
    {
        match self {
            JsonValue::Object(fields) => Some(fields),
            _ => None,
        }
    }

    /// A deep copy with the same view.
    pub fn duplicate(&self) -> (r: JsonValue)
        ensures
            r@ == self@,
        decreases *self,
    {
        match self {
            JsonValue::Null => JsonValue::Null,
            JsonValue::Bool(b) => JsonValue::Bool(*b),
            JsonValue::Number(s) => JsonValue::Number(s.clone()),
            JsonValue::Text(s) => JsonValue::Text(s.clone()),
            JsonValue::Array(items) => {
                let mut copy: Vec<JsonValue> = Vec::new();
                let mut i: usize = 0;
                while i < items.len()
                    invariant
                        0 <= i <= items@.len(),
                        *self is Array && self->Array_0 == *items,
                        copy@.len() == i,
                        forall|j: int| 0 <= j < i ==> (#[trigger] copy@[j])@ == items@[j]@,
                    decreases items@.len() - i,
                {
                    proof {
                        assert(decreases_to!(*self => items@[i as int]));
                    }
                    let c = items[i].duplicate();
                    copy.push(c);
                    i = i + 1;
                }
                proof {
                    lemma_data_of_list_eq(copy@, items@);
                }
                JsonValue::Array(copy)
            },
            JsonValue::Object(fields) => {
                let mut copy: Vec<(String, JsonValue)> = Vec::new();
                let mut i: usize = 0;
                while i < fields.len()
                    invariant
                        0 <= i <= fields@.len(),
                        *self is Object && self->Object_0 == *fields,
                        copy@.len() == i,
                        forall|j: int|
                            0 <= j < i ==> (#[trigger] copy@[j]).0@ == fields@[j].0@ && copy@[j].1@
                                == fields@[j].1@,
                    decreases fields@.len() - i,
                {
                    proof {
                        assert(decreases_to!(*self => fields@[i as int].1));
                    }
                    let k = fields[i].0.clone();
                    let c = fields[i].1.duplicate();
                    copy.push((k, c));
                    i = i + 1;
                }
                proof {
                    lemma_data_of_fields_eq(copy@, fields@);
                }
                JsonValue::Object(copy)
            },
        }
    }

    /// The value of this number as an `i64`: exactly when this is a number
    /// whose literal is a plain integer that fits.
    pub fn as_i64(&self) -> (r: Option<i64>)
        ensures
            match r {
                Some(v) => self@ matches JsonData::Num { text } && crate::text::int_of_literal(text)
                    == Some(v as int),
                None => self@ matches JsonData::Num { text } ==> match crate::text::int_of_literal(
                    text,
                ) {
                    Some(v) => v < i64::MIN || v > i64::MAX,
                    None => true,
                },
            },
    {
        match self {
            JsonValue::Number(s) => {
                let cs = crate::text::str_chars(s.as_str());
                crate::text::parse_i64_chars(&cs)
            },
            _ => None,
        }
    }
}

#[verifier::external_type_specification]
#[verifier::external_body]
pub struct ExSerdeValue(serde_json::Value);

/// What `parse_json` returns for a given document text.  JSON parsing is a
/// function of the text alone, so the result carries a name rather than a
/// page of grammar; `parse_json` is the only place that speaks for it.
pub uninterp spec fn json_parse(s: Seq<char>) -> Option<JsonData>;

/// Relies on `serde_json::Value`: each variant of the parsed tree is carried
/// over one-for-one, a number as its display text.
#[verifier::external_body]
fn value_to_json(v: &serde_json::Value) -> JsonValue {
    match v {
        serde_json::Value::Null => JsonValue::Null,
        serde_json::Value::Bool(b) => JsonValue::Bool(*b),
        serde_json::Value::Number(n) => JsonValue::Number(n.to_string()),
        serde_json::Value::String(s) => JsonValue::Text(s.clone()),
        serde_json::Value::Array(items) => JsonValue::Array(
            items.iter().map(value_to_json).collect(),
        ),
        serde_json::Value::Object(fields) => JsonValue::Object(
            fields.iter().map(|(k, fv)| (k.clone(), value_to_json(fv))).collect(),
        ),
    }
}

/// Relies on `serde_json::from_str`: whether a text parses, and to what
/// document, depends on the text alone.
#[verifier::external_body]
pub fn parse_json(s: &str) -> (r: Option<JsonValue>)
    ensures
        match r {
            Some(v) => json_parse(s@) == Some(v@),
            None => json_parse(s@) is None,
        },
{
    match serde_json::from_str::<serde_json::Value>(s) {
        Ok(v) => Some(value_to_json(&v)),
        Err(_) => None,
    }
}

// --- field-kind helpers shared by the wire formats ------------------------


/// A required string member.
pub open spec fn req_str_at(m: Option<JsonData>) -> bool {
    m matches Some(JsonData::Str { text: _ })
}

pub open spec fn req_str_is(m: Option<JsonData>, s: String) -> bool {
    m == Some(JsonData::Str { text: s@ })
}

/// An optional string member: absent or null means none.
pub open spec fn opt_str_at(m: Option<JsonData>) -> bool {
    match m {
        None => true,
        Some(d) => d is Null || d is Str,
    }
}

pub open spec fn opt_str_is(m: Option<JsonData>, o: Option<String>) -> bool {
    match m {
        None => o is None,
        Some(d) => match d {
            JsonData::Null => o is None,
            JsonData::Str { text } => o matches Some(s) && s@ == text,
            _ => false,
        },
    }
}

/// An optional object member whose values are all strings; absent means an
/// empty map.
pub open spec fn str_map_at(m: Option<JsonData>) -> bool {
    match m {
        None => true,
        Some(d) => d matches JsonData::Obj { fields } && forall|i: int|
            0 <= i < fields.len() ==> (#[trigger] fields[i]).1 is Str,
    }
}

pub open spec fn str_map_is(m: Option<JsonData>, v: Seq<(String, String)>) -> bool {
    match m {
        None => v.len() == 0,
        Some(d) => d matches JsonData::Obj { fields } && fields.len() == v.len() && forall|i: int|
            0 <= i < v.len() ==> #[trigger] fields[i] == (v[i].0@, JsonData::Str { text: v[i].1@ }),
    }
}

/// An optional array member of strings; absent means an empty list.
pub open spec fn str_list_at(m: Option<JsonData>) -> bool {
    match m {
        None => true,
        Some(d) => d matches JsonData::Arr { items } && forall|i: int|
            0 <= i < items.len() ==> (#[trigger] items[i]) is Str,
    }
}

pub open spec fn str_list_is(m: Option<JsonData>, v: Seq<String>) -> bool {
    match m {
        None => v.len() == 0,
        Some(d) => d matches JsonData::Arr { items } && items.len() == v.len() && forall|i: int|
            0 <= i < v.len() ==> #[trigger] items[i] == (JsonData::Str { text: v[i]@ }),
    }
}

/// A required array member of strings.
pub open spec fn req_str_list_at(m: Option<JsonData>) -> bool {
    match m {
        Some(d) => d matches JsonData::Arr { items } && forall|i: int|
            0 <= i < items.len() ==> (#[trigger] items[i]) is Str,
        None => false,
    }
}

/// An optional boolean member; absent means `false`.
pub open spec fn opt_bool_at(m: Option<JsonData>) -> bool {
    match m {
        None => true,
        Some(d) => d is Bool,
    }
}

pub open spec fn opt_bool_is(m: Option<JsonData>, b: bool) -> bool {
    match m {
        None => !b,
        Some(d) => d == (JsonData::Bool { b }),
    }
}


pub fn member_string(v: &JsonValue, key: &str) -> (r: Option<String>)
    ensures
        match r {
            Some(s) => req_str_is(member_of(v@, key@), s),
            None => !req_str_at(member_of(v@, key@)),
        },
{
    match v.get(&String::from_str(key)) {
        Some(x) => match x.as_text() {
            Some(s) => Some(s.clone()),
            None => None,
        },
        None => None,
    }
}

pub fn member_opt_string(v: &JsonValue, key: &str) -> (r: Result<Option<String>, ()>)
    ensures
        match r {
            Ok(o) => opt_str_is(member_of(v@, key@), o),
            Err(_) => !opt_str_at(member_of(v@, key@)),
        },
{
    match v.get(&String::from_str(key)) {
        Some(x) => match x {
            JsonValue::Null => Ok(None),
            JsonValue::Text(s) => Ok(Some(s.clone())),
            _ => Err(()),
        },
        None => Ok(None),
    }
}


} // verus!
