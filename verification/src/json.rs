//! The library's model of a JSON document.
//!
//! A value is held with numbers as their decimal lexemes and strings as
//! owned text; the spec-level mirror `JsonV` describes the same tree over
//! `Seq`, so contracts can speak of whole documents.

use vstd::prelude::*;

verus! {

/// Spec-level mirror of a JSON value.
#[verifier::ext_equal]
pub enum JsonV {
    Null,
    Bool(bool),
    Num(Seq<char>),
    Text(Seq<char>),
    Array(Seq<JsonV>),
    Object(Seq<(Seq<char>, JsonV)>),
}

/// A JSON value. Numbers keep their decimal lexeme exactly as it stood on
/// the wire, so echoing a value back never changes its bytes.
#[derive(Debug)]
pub enum JsonValue {
    Null,
    Bool(bool),
    Num(String),
    Text(String),
    Array(Vec<JsonValue>),
    Object(Vec<(String, JsonValue)>),
}

impl JsonValue {
    /// The spec-level tree this value stands for.
    pub open spec fn jview(self) -> JsonV
        decreases self,
    {
        match self {
            JsonValue::Null => JsonV::Null,
            JsonValue::Bool(b) => JsonV::Bool(b),
            JsonValue::Num(s) => JsonV::Num(s@),
            JsonValue::Text(s) => JsonV::Text(s@),
            JsonValue::Array(a) => JsonV::Array(jview_elems(a@)),
            JsonValue::Object(o) => JsonV::Object(jview_members(o@)),
        }
    }
}

/// The views of the elements of an array, in order.
pub open spec fn jview_elems(a: Seq<JsonValue>) -> Seq<JsonV>
    decreases a,
{
    if a.len() == 0 {
        Seq::empty()
    } else {
        jview_elems(a.drop_last()).push(a.last().jview())
    }
}

/// The views of the members of an object, in order.
pub open spec fn jview_members(o: Seq<(String, JsonValue)>) -> Seq<(Seq<char>, JsonV)>
    decreases o,
{
    if o.len() == 0 {
        Seq::empty()
    } else {
        jview_members(o.drop_last()).push((o.last().0@, o.last().1.jview()))
    }
}

/// Each element's view sits at its own index.
pub broadcast proof fn lemma_jview_elems(a: Seq<JsonValue>)
    ensures
        (#[trigger] jview_elems(a)).len() == a.len(),
        forall|i: int| 0 <= i < a.len() ==> jview_elems(a)[i] == a[i].jview(),
    decreases a,
{
    if a.len() > 0 {
        lemma_jview_elems(a.drop_last());
    }
}

/// Each member's view sits at its own index.
pub broadcast proof fn lemma_jview_members(o: Seq<(String, JsonValue)>)
    ensures
        (#[trigger] jview_members(o)).len() == o.len(),
        forall|i: int|
            0 <= i < o.len() ==> jview_members(o)[i] == (o[i].0@, o[i].1.jview()),
    decreases o,
{
    if o.len() > 0 {
        lemma_jview_members(o.drop_last());
    }
}

/// Nesting depth of a value; a child is always strictly shallower than the
/// tree that holds it, which grounds recursion through nested documents.
pub open spec fn jheight(v: JsonV) -> nat
    decreases v,
{
    match v {
        JsonV::Array(a) => 1 + jheight_elems(a),
        JsonV::Object(o) => 1 + jheight_members(o),
        _ => 0,
    }
}

pub open spec fn jheight_elems(a: Seq<JsonV>) -> nat
    decreases a,
{
    if a.len() == 0 {
        0
    } else {
        let rest = jheight_elems(a.drop_last());
        let last = jheight(a.last());
        if last > rest {
            last
        } else {
            rest
        }
    }
}

pub open spec fn jheight_members(o: Seq<(Seq<char>, JsonV)>) -> nat
    decreases o,
{
    if o.len() == 0 {
        0
    } else {
        let rest = jheight_members(o.drop_last());
        let last = jheight(o.last().1);
        if last > rest {
            last
        } else {
            rest
        }
    }
}

pub proof fn lemma_jheight_elem(a: Seq<JsonV>, i: int)
    requires
        0 <= i < a.len(),
    ensures
        jheight(a[i]) <= jheight_elems(a),
    decreases a,
{
    if i < a.len() - 1 {
        lemma_jheight_elem(a.drop_last(), i);
    }
}

pub proof fn lemma_jheight_member(o: Seq<(Seq<char>, JsonV)>, i: int)
    requires
        0 <= i < o.len(),
    ensures
        jheight(o[i].1) <= jheight_members(o),
    decreases o,
{
    if i < o.len() - 1 {
        lemma_jheight_member(o.drop_last(), i);
    }
}

/// The value under the first member named `key`, if any.
pub open spec fn jlookup(o: Seq<(Seq<char>, JsonV)>, key: Seq<char>) -> Option<JsonV>
    decreases o,
{
    if o.len() == 0 {
        Option::None
    } else if o.first().0 == key {
        Option::Some(o.first().1)
    } else {
        jlookup(o.drop_first(), key)
    }
}

/// A member looked up in an object is strictly shallower than the object.
pub proof fn lemma_jlookup_height(o: Seq<(Seq<char>, JsonV)>, key: Seq<char>)
    requires
        jlookup(o, key) is Some,
    ensures
        jheight(jlookup(o, key)->Some_0) < jheight(JsonV::Object(o)),
    decreases o,
{
    if o.len() > 0 && o.first().0 != key {
        lemma_jlookup_height(o.drop_first(), key);
        assert(o.drop_first().drop_last() =~= o.drop_last().drop_first());
        lemma_jheight_members_drop_first(o);
    } else {
        lemma_jheight_member(o, 0);
    }
}

proof fn lemma_jheight_members_drop_first(o: Seq<(Seq<char>, JsonV)>)
    requires
        o.len() > 0,
    ensures
        jheight_members(o.drop_first()) <= jheight_members(o),
    decreases o,
{
    if o.len() > 1 {
        assert(o.drop_first().drop_last() =~= o.drop_last().drop_first());
        assert(o.drop_first().last() == o.last());
        lemma_jheight_members_drop_first(o.drop_last());
    }
}

/// The spec-level field lookup, phrased on the value itself.
pub open spec fn jfield(v: JsonV, key: Seq<char>) -> Option<JsonV> {
    match v {
        JsonV::Object(o) => jlookup(o, key),
        _ => Option::None,
    }
}

/// The lower-case hexadecimal digit for `n`.
pub open spec fn hex_char(n: nat) -> char {
    if n == 0 {
        '0'
    } else if n == 1 {
        '1'
    } else if n == 2 {
        '2'
    } else if n == 3 {
        '3'
    } else if n == 4 {
        '4'
    } else if n == 5 {
        '5'
    } else if n == 6 {
        '6'
    } else if n == 7 {
        '7'
    } else if n == 8 {
        '8'
    } else if n == 9 {
        '9'
    } else if n == 10 {
        'a'
    } else if n == 11 {
        'b'
    } else if n == 12 {
        'c'
    } else if n == 13 {
        'd'
    } else if n == 14 {
        'e'
    } else {
        'f'
    }
}

/// How one character is written inside a JSON string literal.
pub open spec fn esc_char(c: char) -> Seq<char> {
    if c == '"' {
        seq!['\\', '"']
    } else if c == '\\' {
        seq!['\\', '\\']
    } else if c == '\u{8}' {
        seq!['\\', 'b']
    } else if c == '\u{9}' {
        seq!['\\', 't']
    } else if c == '\u{a}' {
        seq!['\\', 'n']
    } else if c == '\u{c}' {
        seq!['\\', 'f']
    } else if c == '\u{d}' {
        seq!['\\', 'r']
    } else if (c as u32) < 32 {
        seq!['\\', 'u', '0', '0', hex_char(((c as u32) / 16) as nat), hex_char(
            ((c as u32) % 16) as nat,
        )]
    } else {
        seq![c]
    }
}

/// A string's characters with JSON escaping applied.
pub open spec fn esc_str(s: Seq<char>) -> Seq<char>
    decreases s,
{
    if s.len() == 0 {
        Seq::empty()
    } else {
        esc_str(s.drop_last()) + esc_char(s.last())
    }
}

/// The text a value is written as: compact JSON, keys and elements in
/// order, numbers by their stored lexeme.
pub open spec fn ser_json(v: JsonV) -> Seq<char>
    decreases v,
{
    match v {
        JsonV::Null => "null"@,
        JsonV::Bool(b) => if b {
            "true"@
        } else {
            "false"@
        },
        JsonV::Num(s) => s,
        JsonV::Text(s) => "\""@ + esc_str(s) + "\""@,
        JsonV::Array(a) => "["@ + ser_elems(a) + "]"@,
        JsonV::Object(o) => "{"@ + ser_members(o) + "}"@,
    }
}

pub open spec fn ser_elems(a: Seq<JsonV>) -> Seq<char>
    decreases a,
{
    if a.len() == 0 {
        Seq::empty()
    } else if a.len() == 1 {
        ser_json(a.last())
    } else {
        ser_elems(a.drop_last()) + ","@ + ser_json(a.last())
    }
}

pub open spec fn ser_members(o: Seq<(Seq<char>, JsonV)>) -> Seq<char>
    decreases o,
{
    if o.len() == 0 {
        Seq::empty()
    } else if o.len() == 1 {
        ser_key(o.last().0) + ser_json(o.last().1)
    } else {
        ser_members(o.drop_last()) + ","@ + ser_key(o.last().0) + ser_json(o.last().1)
    }
}

pub open spec fn ser_key(k: Seq<char>) -> Seq<char> {
    "\""@ + esc_str(k) + "\":"@
}

/// The hexadecimal digit for `n`, as text.
fn hex_char_str(n: u32) -> (r: &'static str)
    requires
        n < 16,
    ensures
        r@ == seq![hex_char(n as nat)],
{
    let r: &'static str = match n {
        0 => "0",
        1 => "1",
        2 => "2",
        3 => "3",
        4 => "4",
        5 => "5",
        6 => "6",
        7 => "7",
        8 => "8",
        9 => "9",
        10 => "a",
        11 => "b",
        12 => "c",
        13 => "d",
        14 => "e",
        _ => "f",
    };
    proof {
        reveal_strlit("0");
        reveal_strlit("1");
        reveal_strlit("2");
        reveal_strlit("3");
        reveal_strlit("4");
        reveal_strlit("5");
        reveal_strlit("6");
        reveal_strlit("7");
        reveal_strlit("8");
        reveal_strlit("9");
        reveal_strlit("a");
        reveal_strlit("b");
        reveal_strlit("c");
        reveal_strlit("d");
        reveal_strlit("e");
        reveal_strlit("f");
    }
    r
}

/// Writes `s` after `out` with JSON escaping.
#[verifier::loop_isolation(false)]
fn append_escaped(out: &mut String, s: &String)
    ensures
        final(out)@ == old(out)@ + esc_str(s@),
{
    let n: usize = s.as_str().unicode_len();
    let mut i: usize = 0;
    proof {
        assert(esc_str(s@.take(0)) =~= Seq::empty());
        assert(old(out)@ + Seq::<char>::empty() =~= old(out)@);
    }
    while i < n
        invariant
            0 <= i <= n,
            out@ == old(out)@ + esc_str(s@.take(i as int)),
        decreases n - i,
    {
        let c: char = s.as_str().get_char(i);
        let c32: u32 = c as u32;
        if c == '"' {
            out.append("\\\"");
            proof {
                reveal_strlit("\\\"");
                assert("\\\""@ =~= esc_char(c));
            }
        } else if c == '\\' {
            out.append("\\\\");
            proof {
                reveal_strlit("\\\\");
                assert("\\\\"@ =~= esc_char(c));
            }
        } else if c32 == 8 {
            out.append("\\b");
            proof {
                reveal_strlit("\\b");
                assert("\\b"@ =~= esc_char(c));
            }
        } else if c32 == 9 {
            out.append("\\t");
            proof {
                reveal_strlit("\\t");
                assert("\\t"@ =~= esc_char(c));
            }
        } else if c32 == 10 {
            out.append("\\n");
            proof {
                reveal_strlit("\\n");
                assert("\\n"@ =~= esc_char(c));
            }
        } else if c32 == 12 {
            out.append("\\f");
            proof {
                reveal_strlit("\\f");
                assert("\\f"@ =~= esc_char(c));
            }
        } else if c32 == 13 {
            out.append("\\r");
            proof {
                reveal_strlit("\\r");
                assert("\\r"@ =~= esc_char(c));
            }
        } else if c32 < 32 {
            out.append("\\u00");
            out.append(hex_char_str(c32 / 16));
            out.append(hex_char_str(c32 % 16));
            proof {
                reveal_strlit("\\u00");
                assert("\\u00"@ + seq![hex_char((c32 / 16) as nat)] + seq![
                    hex_char((c32 % 16) as nat),
                ] =~= esc_char(c));
            }
        } else {
            let piece: &str = s.as_str().substring_char(i, i + 1);
            out.append(piece);
            proof {
                assert(piece@ =~= seq![c]);
                assert(seq![c] =~= esc_char(c));
            }
        }
        proof {
            assert(s@.take(i + 1).drop_last() =~= s@.take(i as int));
            assert(s@.take(i + 1).last() == c);
            assert(esc_str(s@.take(i + 1)) == esc_str(s@.take(i as int)) + esc_char(c));
            assert(out@ =~= old(out)@ + esc_str(s@.take(i + 1)));
        }
        i = i + 1;
    }
    proof {
        assert(s@.take(n as int) =~= s@);
    }
}

impl JsonValue {
    /// Writes the value as compact JSON text.
    #[verifier::loop_isolation(false)]
    pub fn to_text(&self) -> (r: String)
        ensures
            r@ == ser_json(self.jview()),
        decreases *self,
    {
        match self {
            JsonValue::Null => "null".to_owned(),
            JsonValue::Bool(b) => {
                if *b {
                    "true".to_owned()
                } else {
                    "false".to_owned()
                }
            },
            JsonValue::Num(s) => s.clone(),
            JsonValue::Text(s) => {
                let mut out: String = String::new();
                out.append("\"");
                append_escaped(&mut out, s);
                out.append("\"");
                proof {
                    assert(out@ =~= "\""@ + esc_str(s@) + "\""@);
                }
                out
            },
            JsonValue::Array(a) => {
                let ghost els: Seq<JsonV> = jview_elems(a@);
                let mut out: String = String::new();
                out.append("[");
                let mut j: usize = 0;
                proof {
                    lemma_jview_elems(a@);
                    assert(ser_elems(els.take(0)) =~= Seq::empty());
                    assert(out@ =~= "["@ + ser_elems(els.take(0)));
                }
                while j < a.len()
                    invariant
                        0 <= j <= a.len(),
                        out@ == "["@ + ser_elems(els.take(j as int)),
                    decreases a.len() - j,
                {
                    if j > 0 {
                        out.append(",");
                    }
                    let piece: String = a[j].to_text();
                    out.append(piece.as_str());
                    proof {
                        assert(els.take(j + 1).drop_last() =~= els.take(j as int));
                        assert(els.take(j + 1).last() == a@[j as int].jview());
                        assert(out@ =~= "["@ + ser_elems(els.take(j + 1)));
                    }
                    j = j + 1;
                }
                out.append("]");
                proof {
                    assert(els.take(a@.len() as int) =~= els);
                    assert(out@ =~= ser_json(self.jview()));
                }
                out
            },
            JsonValue::Object(o) => {
                let ghost mems: Seq<(Seq<char>, JsonV)> = jview_members(o@);
                let mut out: String = String::new();
                out.append("{");
                let mut j: usize = 0;
                proof {
                    lemma_jview_members(o@);
                    assert(ser_members(mems.take(0)) =~= Seq::empty());
                    assert(out@ =~= "{"@ + ser_members(mems.take(0)));
                }
                while j < o.len()
                    invariant
                        0 <= j <= o.len(),
                        out@ == "{"@ + ser_members(mems.take(j as int)),
                    decreases o.len() - j,
                {
                    if j > 0 {
                        out.append(",");
                    }
                    out.append("\"");
                    append_escaped(&mut out, &o[j].0);
                    out.append("\":");
                    let piece: String = o[j].1.to_text();
                    out.append(piece.as_str());
                    proof {
                        assert(mems.take(j + 1).drop_last() =~= mems.take(j as int));
                        assert(mems.take(j + 1).last() == (o@[j as int].0@, o@[j as int].1.jview()));
                        reveal_strlit("\"");
                        reveal_strlit("\":");
                        assert(out@ =~= "{"@ + ser_members(mems.take(j + 1)));
                    }
                    j = j + 1;
                }
                out.append("}");
                proof {
                    assert(mems.take(o@.len() as int) =~= mems);
                    assert(out@ =~= ser_json(self.jview()));
                }
                out
            },
        }
    }

    /// A copy of the value with the same view.
    #[verifier::loop_isolation(false)]
    pub fn deep_clone(&self) -> (r: JsonValue)
        ensures
            r.jview() == self.jview(),
        decreases *self,
    {
        match self {
            JsonValue::Null => JsonValue::Null,
            JsonValue::Bool(b) => JsonValue::Bool(*b),
            JsonValue::Num(s) => JsonValue::Num(s.clone()),
            JsonValue::Text(s) => JsonValue::Text(s.clone()),
            JsonValue::Array(a) => {
                let mut out: Vec<JsonValue> = Vec::new();
                let mut j: usize = 0;
                while j < a.len()
                    invariant
                        out@.len() == j as int,
                        0 <= j <= a.len(),
                        forall|x: int| 0 <= x < j ==> out@[x].jview() == a@[x].jview(),
                    decreases a.len() - j,
                {
                    let piece = a[j].deep_clone();
                    out.push(piece);
                    j = j + 1;
                }
                proof {
                    lemma_jview_elems(out@);
                    lemma_jview_elems(a@);
                    assert(jview_elems(out@) =~= jview_elems(a@));
                }
                JsonValue::Array(out)
            },
            JsonValue::Object(o) => {
                let mut out: Vec<(String, JsonValue)> = Vec::new();
                let mut j: usize = 0;
                while j < o.len()
                    invariant
                        out@.len() == j as int,
                        0 <= j <= o.len(),
                        forall|x: int|
                            0 <= x < j ==> out@[x].0@ == o@[x].0@ && out@[x].1.jview()
                                == o@[x].1.jview(),
                    decreases o.len() - j,
                {
                    let key = o[j].0.clone();
                    let piece = o[j].1.deep_clone();
                    out.push((key, piece));
                    j = j + 1;
                }
                proof {
                    lemma_jview_members(out@);
                    lemma_jview_members(o@);
                    assert(jview_members(out@) =~= jview_members(o@));
                }
                JsonValue::Object(out)
            },
        }
    }

    /// Looks up the first member named `key` of an object; `None` on any
    /// other kind of value or when the key is absent.
    pub fn get<'a>(&'a self, key: &str) -> (r: Option<&'a JsonValue>)
        ensures
            match r {
                Option::Some(f) => jfield(self.jview(), key@) == Option::Some(f.jview()),
                Option::None => jfield(self.jview(), key@) is None,
            },
    {
        match self {
            JsonValue::Object(o) => {
                let key_string: String = key.to_owned();
                let ghost keyv: Seq<char> = key@;
                proof {
                    lemma_jview_members(o@);
                    assert(jview_members(o@).skip(0) =~= jview_members(o@));
                }
                let mut i: usize = 0;
                while i < o.len()
                    invariant
                        0 <= i <= o.len(),
                        *self == JsonValue::Object(*o),
                        key_string@ == keyv,
                        key@ == keyv,
                        jlookup(jview_members(o@), keyv) == jlookup(
                            jview_members(o@).skip(i as int),
                            keyv,
                        ),
                    decreases o.len() - i,
                {
                    proof {
                        lemma_jview_members(o@);
                        assert(jview_members(o@).skip(i as int)[0] == jview_members(o@)[i as int]);
                    }
                    if o[i].0.eq(&key_string) {
                        proof {
                            let s = jview_members(o@).skip(i as int);
                            assert(s.first() == jview_members(o@)[i as int]);
                            assert(s.first().0 == keyv);
                            assert(jlookup(s, keyv) == Option::Some(s.first().1));
                            assert(self.jview() == JsonV::Object(jview_members(o@)));
                        }
                        return Some(&o[i].1);
                    }
                    proof {
                        assert(jview_members(o@).skip(i as int).drop_first() =~= jview_members(
                            o@,
                        ).skip(i as int + 1));
                    }
                    i = i + 1;
                }
                proof {
                    lemma_jview_members(o@);
                    assert(jview_members(o@).skip(o@.len() as int) =~= Seq::empty());
                }
                None
            },
            _ => None,
        }
    }
}

} // verus!

verus! {

/// Whether two string slices hold the same characters.
pub fn str_eq(a: &str, b: &str) -> (r: bool)
    ensures
        r == (a@ == b@),
{
    let a_owned: String = a.to_owned();
    let b_owned: String = b.to_owned();
    a_owned.eq(&b_owned)
}

} // verus!
