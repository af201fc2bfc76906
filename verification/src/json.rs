//! The in-memory model of a JSON-like document.
//!
//! Both supported input syntaxes are decoded into `JsonValue`; everything the
//! library proves about documents is stated over the mathematical view
//! `JsonVal`. Numbers are carried as their canonical decimal text, which is
//! all the normalizer ever reads of them.

use vstd::prelude::*;
use crate::text::str_eq;

verus! {

/// What parsing a text as JSON yields: the decoded value, or nothing when
/// the text is not well-formed JSON.
pub uninterp spec fn json_doc_of(text: Seq<char>) -> Option<JsonVal>;

/// What parsing a text as YAML yields.
pub uninterp spec fn yaml_doc_of(text: Seq<char>) -> Option<JsonVal>;

/// The model a decoded document value carries.
pub uninterp spec fn value_model(v: serde_json::Value) -> JsonVal;

#[verifier::external_type_specification]
#[verifier::external_body]
pub struct ExSerdeValue(serde_json::Value);

/// Relies on serde_json::from_str: a well-formed JSON text decodes to one
/// document value, a function of the text alone; the error case carries the
/// reporter's message.
#[verifier::external_body]
pub(crate) fn serde_parse_json(text: &str) -> (r: Result<serde_json::Value, String>)
    ensures
        match r {
            Ok(v) => json_doc_of(text@) == Some(value_model(v)),
            Err(_) => json_doc_of(text@) is None,
        },
{
    serde_json::from_str::<serde_json::Value>(text).map_err(|e| e.to_string())
}

/// Relies on serde_yaml::from_str: a well-formed YAML text decodes to one
/// document value, a function of the text alone.
#[verifier::external_body]
pub(crate) fn serde_parse_yaml(text: &str) -> (r: Result<serde_json::Value, String>)
    ensures
        match r {
            Ok(v) => yaml_doc_of(text@) == Some(value_model(v)),
            Err(_) => yaml_doc_of(text@) is None,
        },
{
    serde_yaml::from_str::<serde_json::Value>(text).map_err(|e| e.to_string())
}

/// Relies on the serde_json::Value accessors: converts a decoded document
/// value, member for member, into the library's own representation; numbers
/// keep their canonical text.
#[verifier::external_body]
pub(crate) fn value_to_json(v: &serde_json::Value) -> (r: JsonValue)
    ensures
        r@ == value_model(*v),
{
    match v {
        serde_json::Value::Null => JsonValue::Null,
        serde_json::Value::Bool(b) => JsonValue::Bool(*b),
        serde_json::Value::Number(n) => JsonValue::Num(n.to_string()),
        serde_json::Value::String(s) => JsonValue::Str(s.clone()),
        serde_json::Value::Array(a) => JsonValue::Arr(a.iter().map(value_to_json).collect()),
        serde_json::Value::Object(o) => JsonValue::Obj(
            o.iter().map(|(k, x)| (k.clone(), value_to_json(x))).collect(),
        ),
    }
}

/// Mathematical view of a JSON-like value.
pub enum JsonVal {
    Null,
    Bool(bool),
    Num(Seq<char>),
    Str(Seq<char>),
    Arr(Seq<JsonVal>),
    Obj(Seq<(Seq<char>, JsonVal)>),
}

/// Executable JSON-like value.
pub enum JsonValue {
    Null,
    Bool(bool),
    Num(String),
    Str(String),
    Arr(Vec<JsonValue>),
    Obj(Vec<(String, JsonValue)>),
}

impl JsonValue {
    pub open spec fn view_rec(self) -> JsonVal
        decreases self,
    {
        match self {
            JsonValue::Null => JsonVal::Null,
            JsonValue::Bool(b) => JsonVal::Bool(b),
            JsonValue::Num(t) => JsonVal::Num(t@),
            JsonValue::Str(s) => JsonVal::Str(s@),
            JsonValue::Arr(items) => JsonVal::Arr(Self::views_of(items@)),
            JsonValue::Obj(fields) => JsonVal::Obj(Self::field_views_of(fields@)),
        }
    }

    pub open spec fn views_of(s: Seq<JsonValue>) -> Seq<JsonVal>
        decreases s,
    {
        if s.len() == 0 {
            Seq::empty()
        } else {
            seq![s[0].view_rec()] + Self::views_of(s.drop_first())
        }
    }

    pub open spec fn field_views_of(s: Seq<(String, JsonValue)>) -> Seq<(Seq<char>, JsonVal)>
        decreases s,
    {
        if s.len() == 0 {
            Seq::empty()
        } else {
            seq![(s[0].0@, s[0].1.view_rec())] + Self::field_views_of(s.drop_first())
        }
    }
}

impl View for JsonValue {
    type V = JsonVal;

    open spec fn view(&self) -> JsonVal {
        self.view_rec()
    }
}

/// First-match lookup in an object field list.
pub open spec fn fields_get(fields: Seq<(Seq<char>, JsonVal)>, key: Seq<char>) -> Option<JsonVal>
    decreases fields.len(),
{
    if fields.len() == 0 {
        None
    } else if fields[0].0 == key {
        Some(fields[0].1)
    } else {
        fields_get(fields.drop_first(), key)
    }
}

/// Member lookup: the first field of an object with the given key.
pub open spec fn obj_get(v: JsonVal, key: Seq<char>) -> Option<JsonVal> {
    match v {
        JsonVal::Obj(fields) => fields_get(fields, key),
        _ => None,
    }
}

/// The string payload of a member, when the member is a string.
pub open spec fn obj_get_str(v: JsonVal, key: Seq<char>) -> Option<Seq<char>> {
    match obj_get(v, key) {
        Some(JsonVal::Str(s)) => Some(s),
        _ => None,
    }
}

/// The boolean payload of a member, when the member is a boolean.
pub open spec fn obj_get_bool(v: JsonVal, key: Seq<char>) -> Option<bool> {
    match obj_get(v, key) {
        Some(JsonVal::Bool(b)) => Some(b),
        _ => None,
    }
}

/// Length of and membership in the structural views of a value sequence.
pub proof fn lemma_views_of_index(s: Seq<JsonValue>)
    ensures
        JsonValue::views_of(s).len() == s.len(),
        forall|i: int|
            0 <= i < s.len() ==> JsonValue::views_of(s)[i] == #[trigger] s[i].view_rec(),
    decreases s.len(),
{
    if s.len() > 0 {
        lemma_views_of_index(s.drop_first());
        assert forall|i: int|
            0 <= i < s.len() implies JsonValue::views_of(s)[i] == #[trigger] s[i].view_rec() by {
            if i > 0 {
                assert(s.drop_first()[i - 1] == s[i]);
                assert(JsonValue::views_of(s)[i] == JsonValue::views_of(s.drop_first())[i - 1]);
            }
        }
    }
}

/// Length of and membership in the structural views of a field sequence.
pub proof fn lemma_field_views_of_index(s: Seq<(String, JsonValue)>)
    ensures
        JsonValue::field_views_of(s).len() == s.len(),
        forall|i: int|
            0 <= i < s.len() ==> JsonValue::field_views_of(s)[i] == (
            #[trigger] s[i].0@,
            s[i].1.view_rec(),
            ),
    decreases s.len(),
{
    if s.len() > 0 {
        lemma_field_views_of_index(s.drop_first());
        assert forall|i: int|
            0 <= i < s.len() implies JsonValue::field_views_of(s)[i] == (
            #[trigger] s[i].0@,
            s[i].1.view_rec(),
        ) by {
            if i > 0 {
                assert(s.drop_first()[i - 1] == s[i]);
                assert(JsonValue::field_views_of(s)[i] == JsonValue::field_views_of(
                    s.drop_first(),
                )[i - 1]);
            }
        }
    }
}

/// A lookup that skips a non-matching prefix starts at the first match.
proof fn lemma_fields_get_from(fields: Seq<(Seq<char>, JsonVal)>, key: Seq<char>, i: int)
    requires
        0 <= i <= fields.len(),
        forall|j: int| 0 <= j < i ==> (#[trigger] fields[j].0) != key,
    ensures
        fields_get(fields, key) == fields_get(fields.skip(i), key),
    decreases i,
{
    if i > 0 {
        lemma_fields_get_from(fields.drop_first(), key, i - 1);
        assert(fields.drop_first().skip(i - 1) =~= fields.skip(i));
    } else {
        assert(fields.skip(0) =~= fields);
    }
}

/// A present member is a component of its object, for termination measures.
pub proof fn lemma_fields_get_member(fields: Seq<(Seq<char>, JsonVal)>, key: Seq<char>)
    requires
        fields_get(fields, key) is Some,
    ensures
        exists|i: int|
            0 <= i < fields.len() && (#[trigger] fields[i]).0 == key && fields[i].1 == fields_get(
                fields,
                key,
            )->0,
    decreases fields.len(),
{
    if fields.len() > 0 {
        if fields[0].0 == key {
        } else {
            lemma_fields_get_member(fields.drop_first(), key);
            let i = choose|i: int|
                0 <= i < fields.drop_first().len() && (#[trigger] fields.drop_first()[i]).0 == key
                    && fields.drop_first()[i].1 == fields_get(fields.drop_first(), key)->0;
            assert(fields[i + 1] == fields.drop_first()[i]);
        }
    }
}

/// A present member sits below its object in the termination order.
pub proof fn lemma_obj_get_decreases(v: JsonVal, key: Seq<char>)
    requires
        obj_get(v, key) is Some,
    ensures
        decreases_to!(v => obj_get(v, key)->0),
{
    let fields = v->Obj_0;
    lemma_fields_get_member(fields, key);
    let i = choose|i: int|
        0 <= i < fields.len() && (#[trigger] fields[i]).0 == key && fields[i].1 == fields_get(
            fields,
            key,
        )->0;
    assert(decreases_to!(v => v->Obj_0));
    assert(decreases_to!(fields => fields[i]));
    assert(decreases_to!(fields[i] => fields[i].1));
}

impl JsonValue {
    /// Looks a member up by key; `None` on non-objects and absent keys.
    pub fn get<'a>(&'a self, key: &str) -> (r: Option<&'a JsonValue>)
        ensures
            match r {
                Some(m) => obj_get(self@, key@) == Some(m@) && decreases_to!(*self => *m),
                None => obj_get(self@, key@) is None,
            },
    {
        match self {
            JsonValue::Obj(fields) => {
                proof {
                    lemma_field_views_of_index(fields@);
                    assert(*self == JsonValue::Obj(*fields));
                    assert(self@ == JsonVal::Obj(JsonValue::field_views_of(fields@)));
                }
                let n = fields.len();
                let mut i: usize = 0;
                while i < n
                    invariant
                        0 <= i <= n,
                        n == fields@.len(),
                        *self == JsonValue::Obj(*fields),
                        self@ == JsonVal::Obj(JsonValue::field_views_of(fields@)),
                        JsonValue::field_views_of(fields@).len() == n,
                        forall|k: int|
                            0 <= k < n ==> JsonValue::field_views_of(fields@)[k] == (
                            #[trigger] fields@[k].0@,
                            fields@[k].1.view_rec(),
                            ),
                        forall|j: int|
                            0 <= j < i ==> (#[trigger] JsonValue::field_views_of(fields@)[j].0)
                                != key@,
                    decreases n - i,
                {
                    if str_eq(fields[i].0.as_str(), key) {
                        proof {
                            let fv = JsonValue::field_views_of(fields@);
                            lemma_fields_get_from(fv, key@, i as int);
                            assert(fv.skip(i as int).len() == n - i);
                            assert(fv.skip(i as int)[0] == fv[i as int]);
                            assert(fv[i as int].0 == key@);
                            assert(fields_get(fv.skip(i as int), key@) == Some(
                                fields@[i as int].1.view_rec(),
                            ));
                            assert(obj_get(self@, key@) == Some(fields@[i as int].1.view_rec()));
                            assert(decreases_to!(*self => (*self)->Obj_0));
                            assert((*self)->Obj_0 == *fields);
                            assert(decreases_to!(*fields => fields@));
                            assert(decreases_to!(fields@ => fields@[i as int]));
                            assert(decreases_to!(fields@[i as int] => fields@[i as int].1));
                        }
                        return Some(&fields[i].1);
                    }
                    i += 1;
                }
                proof {
                    let fv = JsonValue::field_views_of(fields@);
                    lemma_fields_get_from(fv, key@, n as int);
                    assert(fv.skip(n as int) =~= Seq::<(Seq<char>, JsonVal)>::empty());
                    assert(fields_get(fv, key@) is None);
                }
                None
            },
            _ => None,
        }
    }

    /// The string payload, when this value is a string.
    pub fn as_str_value<'a>(&'a self) -> (r: Option<&'a String>)
        ensures
            match r {
                Some(s) => self@ matches JsonVal::Str(t) && t == s@,
                None => !(self@ is Str),
            },
    {
        match self {
            JsonValue::Str(s) => Some(s),
            _ => None,
        }
    }

    /// The boolean payload, when this value is a boolean.
    pub fn as_bool_value(&self) -> (r: Option<bool>)
        ensures
            match r {
                Some(b) => self@ == JsonVal::Bool(b),
                None => !(self@ is Bool),
            },
    {
        match self {
            JsonValue::Bool(b) => Some(*b),
            _ => None,
        }
    }

    /// The member list, when this value is an array.
    pub fn as_array<'a>(&'a self) -> (r: Option<&'a Vec<JsonValue>>)
        ensures
            match r {
                Some(items) => self@ == JsonVal::Arr(JsonValue::views_of(items@))
                    && decreases_to!(*self => *items),
                None => !(self@ is Arr),
            },
    {
        match self {
            JsonValue::Arr(items) => {
                proof {
                    assert(decreases_to!(*self => (*self)->Arr_0));
                    assert((*self)->Arr_0 == *items);
                }
                Some(items)
            },
            _ => None,
        }
    }

    /// The field list, when this value is an object.
    pub fn as_object<'a>(&'a self) -> (r: Option<&'a Vec<(String, JsonValue)>>)
        ensures
            match r {
                Some(fields) => self@ == JsonVal::Obj(JsonValue::field_views_of(fields@))
                    && decreases_to!(*self => *fields),
                None => !(self@ is Obj),
            },
    {
        match self {
            JsonValue::Obj(fields) => {
                proof {
                    assert(decreases_to!(*self => (*self)->Obj_0));
                    assert((*self)->Obj_0 == *fields);
                }
                Some(fields)
            },
            _ => None,
        }
    }

    /// The string payload of a member, with the member looked up by key.
    pub fn get_str<'a>(&'a self, key: &str) -> (r: Option<&'a String>)
        ensures
            match r {
                Some(s) => obj_get_str(self@, key@) == Some(s@),
                None => obj_get_str(self@, key@) is None,
            },
    {
        match self.get(key) {
            Some(m) => m.as_str_value(),
            None => None,
        }
    }

    /// The boolean payload of a member, with the member looked up by key.
    pub fn get_bool(&self, key: &str) -> (r: Option<bool>)
        ensures
            r == obj_get_bool(self@, key@),
    {
        match self.get(key) {
            Some(m) => m.as_bool_value(),
            None => None,
        }
    }
}

/// The escape of one character inside a JSON string: quote and backslash
/// get a backslash, control characters become a four-digit escape, and
/// everything else stands for itself.
pub open spec fn esc_char(c: char) -> Seq<char> {
    if c == '"' {
        seq!['\\', '"']
    } else if c == '\\' {
        seq!['\\', '\\']
    } else if (c as u32) < 32 {
        seq!['\\', 'u', '0', '0'] + seq![
            crate::digest::hex_digit_char(((c as u32) >> 4) as int),
            crate::digest::hex_digit_char(((c as u32) & 0x0f) as int),
        ]
    } else {
        seq![c]
    }
}

pub open spec fn esc_str(s: Seq<char>) -> Seq<char>
    decreases s.len(),
{
    if s.len() == 0 {
        Seq::empty()
    } else {
        esc_char(s[0]) + esc_str(s.drop_first())
    }
}

/// The rendered text of a value: compact JSON, object keys in their stored
/// order, numbers as their stored canonical text.
pub open spec fn json_text(v: JsonVal) -> Seq<char>
    decreases v, 1int,
{
    match v {
        JsonVal::Null => "null"@,
        JsonVal::Bool(b) => if b {
            "true"@
        } else {
            "false"@
        },
        JsonVal::Num(t) => t,
        JsonVal::Str(s) => seq!['"'] + esc_str(s) + seq!['"'],
        JsonVal::Arr(items) => seq!['['] + arr_text(items) + seq![']'],
        JsonVal::Obj(fields) => seq!['{'] + obj_text(fields) + seq!['}'],
    }
}

pub open spec fn arr_text(items: Seq<JsonVal>) -> Seq<char>
    decreases items, 2int,
{
    if items.len() == 0 {
        Seq::empty()
    } else if items.len() == 1 {
        proof {
            assert(decreases_to!(items => items[0]));
        }
        json_text(items[0])
    } else {
        proof {
            assert(decreases_to!(items => items[0]));
        }
        json_text(items[0]) + seq![','] + arr_text(items.drop_first())
    }
}

pub open spec fn field_text(f: (Seq<char>, JsonVal)) -> Seq<char>
    decreases f, 2int,
{
    proof {
        assert(decreases_to!(f => f.1));
    }
    seq!['"'] + esc_str(f.0) + seq!['"', ':'] + json_text(f.1)
}

pub open spec fn obj_text(fields: Seq<(Seq<char>, JsonVal)>) -> Seq<char>
    decreases fields, 2int,
{
    if fields.len() == 0 {
        Seq::empty()
    } else if fields.len() == 1 {
        proof {
            assert(decreases_to!(fields => fields[0]));
        }
        field_text(fields[0])
    } else {
        proof {
            assert(decreases_to!(fields => fields[0]));
        }
        field_text(fields[0]) + seq![','] + obj_text(fields.drop_first())
    }
}

proof fn lemma_esc_str_push(s: Seq<char>, c: char)
    ensures
        esc_str(s.push(c)) =~= esc_str(s) + esc_char(c),
    decreases s.len(),
{
    if s.len() == 0 {
        assert(s.push(c)[0] == c);
        assert(s.push(c).drop_first() =~= Seq::<char>::empty());
        assert(esc_str(Seq::<char>::empty()) =~= Seq::<char>::empty());
    } else {
        lemma_esc_str_push(s.drop_first(), c);
        assert(s.push(c)[0] == s[0]);
        assert(s.push(c).drop_first() =~= s.drop_first().push(c));
        assert(esc_char(s[0]) + (esc_str(s.drop_first()) + esc_char(c)) =~= (esc_char(s[0])
            + esc_str(s.drop_first())) + esc_char(c));
    }
}

/// Executable hexadecimal digit rendering.
fn hex_digit_str(d: u32) -> (r: &'static str)
    requires
        d < 16,
    ensures
        r@ == seq![crate::digest::hex_digit_char(d as int)],
{
    proof {
        reveal_strlit("0");
        reveal_strlit("1");
        reveal_strlit("2");
        reveal_strlit("3");
        reveal_strlit("4");
        reveal_strlit("5");
        reveal_strlit("6");
        reveal_strlit("7");
        reveal_strlit("8");
        reveal_strlit("9");
        reveal_strlit("a");
        reveal_strlit("b");
        reveal_strlit("c");
        reveal_strlit("d");
        reveal_strlit("e");
        reveal_strlit("f");
    }
    match d {
        0 => "0",
        1 => "1",
        2 => "2",
        3 => "3",
        4 => "4",
        5 => "5",
        6 => "6",
        7 => "7",
        8 => "8",
        9 => "9",
        10 => "a",
        11 => "b",
        12 => "c",
        13 => "d",
        14 => "e",
        _ => "f",
    }
}

/// Appends a string's characters, escaped for a JSON string body.
fn append_escaped(out: &mut String, s: &str)
    ensures
        final(out)@ == old(out)@ + esc_str(s@),
{
    let n = s.unicode_len();
    let mut i: usize = 0;
    proof {
        assert(s@.take(0) =~= Seq::<char>::empty());
        assert(esc_str(Seq::<char>::empty()) =~= Seq::<char>::empty());
        assert(out@ =~= old(out)@ + esc_str(s@.take(0)));
    }
    while i < n
        invariant
            0 <= i <= n,
            n == s@.len(),
            out@ == old(out)@ + esc_str(s@.take(i as int)),
        decreases n - i,
    {
        let c = s.get_char(i);
        if c == '"' {
            out.append("\\\"");
            proof {
                reveal_strlit("\\\"");
            }
        } else if c == '\\' {
            out.append("\\\\");
            proof {
                reveal_strlit("\\\\");
            }
        } else if (c as u32) < 32 {
            out.append("\\u00");
            proof {
                reveal_strlit("\\u00");
            }
            let code = c as u32;
            assert((code >> 4) < 16 && (code & 0x0f) < 16) by (bit_vector)
                requires
                    code < 32,
            {
            }
            out.append(hex_digit_str(code >> 4));
            out.append(hex_digit_str(code & 0x0f));
            proof {
                assert(esc_char(c) =~= seq!['\\', 'u', '0', '0',
                    crate::digest::hex_digit_char(((c as u32) >> 4) as int),
                    crate::digest::hex_digit_char(((c as u32) & 0x0f) as int)]);
            }
        } else {
            let one = s.substring_char(i, i + 1);
            proof {
                assert(one@ =~= seq![s@[i as int]]);
            }
            out.append(one);
        }
        proof {
            assert(s@.take(i + 1) =~= s@.take(i as int).push(s@[i as int]));
            lemma_esc_str_push(s@.take(i as int), s@[i as int]);
            assert(out@ =~= old(out)@ + esc_str(s@.take(i + 1)));
        }
        i += 1;
    }
    proof {
        assert(s@.take(n as int) =~= s@);
    }
}

impl JsonValue {
    /// Renders this value as compact JSON text.
    pub fn to_text(&self) -> (r: String)
        ensures
            r@ == json_text(self@),
    {
        let mut out = String::new();
        self.write_text(&mut out);
        out
    }

    /// Appends this value's text.
    fn write_text(&self, out: &mut String)
        ensures
            final(out)@ == old(out)@ + json_text(self@),
        decreases *self, 1int,
    {
        match self {
            JsonValue::Null => {
                out.append("null");
            },
            JsonValue::Bool(b) => {
                if *b {
                    out.append("true");
                } else {
                    out.append("false");
                }
            },
            JsonValue::Num(t) => {
                out.append(t.as_str());
            },
            JsonValue::Str(sv) => {
                out.append("\"");
                append_escaped(out, sv.as_str());
                out.append("\"");
                proof {
                    reveal_strlit("\"");
                    assert("\""@ =~= seq!['"']);
                    assert(out@ =~= old(out)@ + json_text(self@));
                }
            },
            JsonValue::Arr(items) => {
                proof {
                    crate::json::lemma_views_of_index(items@);
                    reveal_strlit("[");
                    reveal_strlit("]");
                    reveal_strlit(",");
                }
                let ghost iv = JsonValue::views_of(items@);
                out.append("[");
                let n = items.len();
                let mut i: usize = 0;
                proof {
                    assert("["@ =~= seq!['[']);
                    assert("]"@ =~= seq![']']);
                    assert(","@ =~= seq![',']);
                    assert(out@ =~= old(out)@ + seq!['[']);
                }
                while i < n
                    invariant
                        0 <= i <= n,
                        n == items@.len(),
                        *self == JsonValue::Arr(*items),
                        iv == JsonValue::views_of(items@),
                        iv.len() == n,
                        forall|k: int| 0 <= k < n ==> iv[k] == #[trigger] items@[k].view_rec(),
                        "["@ == seq!['['],
                        "]"@ == seq![']'],
                        ","@ == seq![','],
                        out@ == old(out)@ + seq!['['] + arr_text(iv.take(i as int)) + (
                        if 0 < i < n {
                            seq![',']
                        } else {
                            Seq::<char>::empty()
                        }),
                    decreases n - i,
                {
                    proof {
                        assert(decreases_to!(*self => (*self)->Arr_0));
                        assert((*self)->Arr_0 == *items);
                        assert(decreases_to!(*items => items@));
                        assert(decreases_to!(items@ => items@[i as int]));
                    }
                    items[i].write_text(out);
                    proof {
                        lemma_arr_text_take(iv, i as int);
                    }
                    if i + 1 < n {
                        out.append(",");
                    }
                    i += 1;
                }
                out.append("]");
                proof {
                    assert(iv.take(n as int) =~= iv);
                    assert(out@ =~= old(out)@ + json_text(self@));
                }
            },
            JsonValue::Obj(fields) => {
                proof {
                    crate::json::lemma_field_views_of_index(fields@);
                    reveal_strlit("{");
                    reveal_strlit("}");
                    reveal_strlit(",");
                    reveal_strlit(":");
                    reveal_strlit("\"");
                }
                let ghost fvs = JsonValue::field_views_of(fields@);
                out.append("{");
                let n = fields.len();
                let mut i: usize = 0;
                proof {
                    assert("{"@ =~= seq!['{']);
                    assert("}"@ =~= seq!['}']);
                    assert(","@ =~= seq![',']);
                    assert(":"@ =~= seq![':']);
                    assert("\""@ =~= seq!['"']);
                    assert(out@ =~= old(out)@ + seq!['{'] + obj_text(fvs.take(0)));
                }
                while i < n
                    invariant
                        0 <= i <= n,
                        n == fields@.len(),
                        *self == JsonValue::Obj(*fields),
                        fvs == JsonValue::field_views_of(fields@),
                        fvs.len() == n,
                        forall|k: int|
                            0 <= k < n ==> fvs[k] == (#[trigger] fields@[k].0@, fields@[k].1.view_rec()),
                        "{"@ == seq!['{'],
                        "}"@ == seq!['}'],
                        ","@ == seq![','],
                        ":"@ == seq![':'],
                        "\""@ == seq!['"'],
                        out@ == old(out)@ + seq!['{'] + obj_text(fvs.take(i as int)) + (
                        if 0 < i < n {
                            seq![',']
                        } else {
                            Seq::<char>::empty()
                        }),
                    decreases n - i,
                {
                    out.append("\"");
                    append_escaped(out, fields[i].0.as_str());
                    out.append("\"");
                    out.append(":");
                    proof {
                        assert(decreases_to!(*self => (*self)->Obj_0));
                        assert((*self)->Obj_0 == *fields);
                        assert(decreases_to!(*fields => fields@));
                        assert(decreases_to!(fields@ => fields@[i as int]));
                        assert(decreases_to!(fields@[i as int] => fields@[i as int].1));
                    }
                    fields[i].1.write_text(out);
                    proof {
                        lemma_obj_text_take(fvs, i as int);
                        assert(fvs[i as int] == (fields@[i as int].0@, fields@[i as int].1.view_rec()));
                    }
                    if i + 1 < n {
                        out.append(",");
                    }
                    i += 1;
                }
                out.append("}");
                proof {
                    assert(fvs.take(n as int) =~= fvs);
                    assert(out@ =~= old(out)@ + json_text(self@));
                }
            },
        }
    }
}

/// The text of a prefix one item longer.
proof fn lemma_arr_text_take(iv: Seq<JsonVal>, i: int)
    requires
        0 <= i < iv.len(),
    ensures
        i == 0 ==> arr_text(iv.take(1)) =~= json_text(iv[0]),
        i > 0 ==> arr_text(iv.take(i + 1)) =~= arr_text(iv.take(i)) + seq![','] + json_text(
            iv[i],
        ),
    decreases i,
{
    if i == 0 {
        assert(iv.take(1)[0] == iv[0]);
        assert(iv.take(1).len() == 1);
    } else {
        lemma_arr_text_take(iv.drop_first(), i - 1);
        assert(iv.take(i + 1)[0] == iv[0]);
        assert(iv.take(i + 1).drop_first() =~= iv.drop_first().take(i));
        assert(iv.take(i).drop_first() =~= iv.drop_first().take(i - 1));
        assert(iv.drop_first()[i - 1] == iv[i]);
        if i == 1 {
            assert(arr_text(iv.take(2)) == json_text(iv[0]) + seq![','] + arr_text(
                iv.drop_first().take(1),
            ));
            assert(arr_text(iv.take(1)) =~= json_text(iv[0]));
        } else {
            assert(arr_text(iv.take(i + 1)) == json_text(iv[0]) + seq![','] + arr_text(
                iv.drop_first().take(i),
            ));
            assert(arr_text(iv.take(i)) == json_text(iv[0]) + seq![','] + arr_text(
                iv.drop_first().take(i - 1),
            ));
            assert(json_text(iv[0]) + seq![','] + (arr_text(iv.drop_first().take(i - 1)) + seq![
                ','] + json_text(iv[i])) =~= (json_text(iv[0]) + seq![','] + arr_text(
                iv.drop_first().take(i - 1),
            )) + seq![','] + json_text(iv[i]));
        }
    }
}

proof fn lemma_obj_text_take(fvs: Seq<(Seq<char>, JsonVal)>, i: int)
    requires
        0 <= i < fvs.len(),
    ensures
        i == 0 ==> obj_text(fvs.take(1)) =~= field_text(fvs[0]),
        i > 0 ==> obj_text(fvs.take(i + 1)) =~= obj_text(fvs.take(i)) + seq![','] + field_text(
            fvs[i],
        ),
    decreases i,
{
    if i == 0 {
        assert(fvs.take(1)[0] == fvs[0]);
        assert(fvs.take(1).len() == 1);
    } else {
        lemma_obj_text_take(fvs.drop_first(), i - 1);
        assert(fvs.take(i + 1)[0] == fvs[0]);
        assert(fvs.take(i + 1).drop_first() =~= fvs.drop_first().take(i));
        assert(fvs.take(i).drop_first() =~= fvs.drop_first().take(i - 1));
        assert(fvs.drop_first()[i - 1] == fvs[i]);
        if i == 1 {
            assert(obj_text(fvs.take(2)) == field_text(fvs[0]) + seq![','] + obj_text(
                fvs.drop_first().take(1),
            ));
            assert(obj_text(fvs.take(1)) =~= field_text(fvs[0]));
        } else {
            assert(obj_text(fvs.take(i + 1)) == field_text(fvs[0]) + seq![','] + obj_text(
                fvs.drop_first().take(i),
            ));
            assert(obj_text(fvs.take(i)) == field_text(fvs[0]) + seq![','] + obj_text(
                fvs.drop_first().take(i - 1),
            ));
            assert(field_text(fvs[0]) + seq![','] + (obj_text(fvs.drop_first().take(i - 1)) + seq![
                ','] + field_text(fvs[i])) =~= (field_text(fvs[0]) + seq![','] + obj_text(
                fvs.drop_first().take(i - 1),
            )) + seq![','] + field_text(fvs[i]));
        }
    }
}

} // verus!
