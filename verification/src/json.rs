//! JSON documents as plain values.
//!
//! `serde_json` does the reading and the quoting. A document that it has read
//! is taken apart into [`Json`], a plain tree that the rest of the library
//! works on; [`JsonTree`] is the mathematical value of such a tree.

use crate::text;
use crate::text::same_text;
use vstd::prelude::*;

verus! {

/// A JSON document as a mathematical tree. A number is known only as far as it
/// is an integer that fits 64 bits; the members of an object stand in the
/// order in which `serde_json` hands them out, each key once.
pub enum JsonTree {
    Null,
    Bool(bool),
    Number(Option<i64>),
    Str(Seq<char>),
    Array(Seq<JsonTree>),
    Object(Seq<(Seq<char>, JsonTree)>),
}

/// `serde_json::Value`, a document that `serde_json` has read. Nothing is
/// claimed of it here; [`open_value`] tells what is inside.
#[verifier::external_type_specification]
#[verifier::external_body]
pub struct ExValue(serde_json::Value);

/// The tree that a `serde_json::Value` holds.
pub uninterp spec fn value_tree(v: serde_json::Value) -> JsonTree;

/// The document that some bytes spell out, if they spell one out: what
/// `serde_json::from_slice` makes of them.
pub uninterp spec fn document(bytes: Seq<u8>) -> Option<JsonTree>;

/// Calls `serde_json::from_slice` for a `serde_json::Value`. Claimed: whether
/// it succeeds, and with what tree, depends on the bytes alone. What the JSON
/// grammar is, is not said.
#[verifier::external_body]
fn read_value(bytes: &[u8]) -> (r: Option<serde_json::Value>)
    ensures
        r matches Some(v) ==> document(bytes@) == Some(value_tree(v)),
        r is None ==> document(bytes@) is None,
{
    serde_json::from_slice(bytes).ok()
}

/// A JSON document as a plain value.
pub enum Json {
    Null,
    Bool(bool),
    Number(Option<i64>),
    Str(String),
    Array(Vec<Json>),
    Object(Vec<(String, Json)>),
}

impl Json {
    /// The tree that the document holds.
    pub open spec fn tree(self) -> JsonTree
        decreases self,
    {
        match self {
            Json::Null => JsonTree::Null,
            Json::Bool(b) => JsonTree::Bool(b),
            Json::Number(n) => JsonTree::Number(n),
            Json::Str(s) => JsonTree::Str(s@),
            Json::Array(items) => JsonTree::Array(
                Seq::new(
                    items@.len(),
                    |i: int|
                        if 0 <= i < items@.len() {
                            items@[i].tree()
                        } else {
                            JsonTree::Null
                        },
                ),
            ),
            Json::Object(entries) => JsonTree::Object(
                Seq::new(
                    entries@.len(),
                    |i: int|
                        if 0 <= i < entries@.len() {
                            (entries@[i].0@, entries@[i].1.tree())
                        } else {
                            (Seq::empty(), JsonTree::Null)
                        },
                ),
            ),
        }
    }
}

/// The outermost level of a `serde_json::Value`.
pub enum Opened {
    Null,
    Bool(bool),
    Number(Option<i64>),
    Str(String),
    Array(Vec<serde_json::Value>),
    Object(Vec<(String, serde_json::Value)>),
}

/// Whether `o` is the outermost level of the tree `t`.
pub open spec fn opens(o: Opened, t: JsonTree) -> bool {
    match o {
        Opened::Null => t is Null,
        Opened::Bool(b) => t == JsonTree::Bool(b),
        Opened::Number(n) => t == JsonTree::Number(n),
        Opened::Str(s) => t == JsonTree::Str(s@),
        Opened::Array(items) => {
            &&& t matches JsonTree::Array(ts)
            &&& ts.len() == items@.len()
            &&& forall|i: int| 0 <= i < ts.len() ==> #[trigger] ts[i] == value_tree(items@[i])
        },
        Opened::Object(entries) => {
            &&& t matches JsonTree::Object(ts)
            &&& ts.len() == entries@.len()
            &&& forall|i: int|
                0 <= i < ts.len() ==> #[trigger] ts[i] == (
                    entries@[i].0@,
                    value_tree(entries@[i].1),
                )
        },
    }
}

/// Moves the parts of a `serde_json::Value` out of it, variant by variant; a
/// number is asked for with `Number::as_i64`, and a `Map` hands out its
/// entries by its iterator. Claimed: the parts are those of the value's tree,
/// in order.
#[verifier::external_body]
fn open_value(v: serde_json::Value) -> (r: Opened)
    ensures
        opens(r, value_tree(v)),
{
    match v {
        serde_json::Value::Null => Opened::Null,
        serde_json::Value::Bool(b) => Opened::Bool(b),
        serde_json::Value::Number(n) => Opened::Number(n.as_i64()),
        serde_json::Value::String(s) => Opened::Str(s),
        serde_json::Value::Array(items) => Opened::Array(items),
        serde_json::Value::Object(map) => Opened::Object(map.into_iter().collect()),
    }
}

impl Json {
    /// Takes a `serde_json::Value` apart, level by level.
    fn of_value(v: serde_json::Value) -> (r: Json)
        ensures
            r.tree() == value_tree(v),
        decreases value_tree(v),
    {
        match open_value(v) {
            Opened::Null => Json::Null,
            Opened::Bool(b) => Json::Bool(b),
            Opened::Number(n) => Json::Number(n),
            Opened::Str(s) => Json::Str(s),
            Opened::Array(items) => {
                let ghost ts = value_tree(v)->Array_0;
                let mut out: Vec<Json> = Vec::new();
                for x in it: items
                    invariant
                        it.seq() == items@,
                        value_tree(v) == JsonTree::Array(ts),
                        ts.len() == items@.len(),
                        forall|i: int|
                            0 <= i < ts.len() ==> #[trigger] ts[i] == value_tree(items@[i]),
                        out@.len() == it.index(),
                        forall|i: int| 0 <= i < out@.len() ==> #[trigger] out@[i].tree() == ts[i],
                {
                    let ghost k = it.index() as int;
                    assert(x == items@[k]);
                    assert(ts[k] == value_tree(x));
                    assert(decreases_to!(value_tree(v) => value_tree(v)->Array_0));
                    assert(decreases_to!(value_tree(v)->Array_0 => value_tree(v)->Array_0[k]));
                    out.push(Json::of_value(x));
                }
                let r = Json::Array(out);
                assert forall|i: int| 0 <= i < ts.len() implies r.tree()->Array_0[i] == ts[i] by {
                    assert(out@[i].tree() == ts[i]);
                }
                assert(r.tree()->Array_0 =~= ts);
                r
            },
            Opened::Object(entries) => {
                let ghost ts = value_tree(v)->Object_0;
                let mut out: Vec<(String, Json)> = Vec::new();
                for x in it: entries
                    invariant
                        it.seq() == entries@,
                        value_tree(v) == JsonTree::Object(ts),
                        ts.len() == entries@.len(),
                        forall|i: int|
                            0 <= i < ts.len() ==> #[trigger] ts[i] == (
                                entries@[i].0@,
                                value_tree(entries@[i].1),
                            ),
                        out@.len() == it.index(),
                        forall|i: int|
                            0 <= i < out@.len() ==> (#[trigger] out@[i].0@, out@[i].1.tree()) == ts[i],
                {
                    let ghost k = it.index() as int;
                    assert(x == entries@[k]);
                    assert(ts[k].1 == value_tree(x.1));
                    assert(decreases_to!(value_tree(v) => value_tree(v)->Object_0));
                    assert(decreases_to!(value_tree(v)->Object_0 => value_tree(v)->Object_0[k]));
                    assert(decreases_to!(value_tree(v)->Object_0[k] => value_tree(v)->Object_0[k].1));
                    out.push((x.0, Json::of_value(x.1)));
                }
                let r = Json::Object(out);
                assert(r.tree()->Object_0 =~= ts);
                r
            },
        }
    }

    /// Reads a document.
    pub fn parse(bytes: &[u8]) -> (r: Option<Json>)
        ensures
            match r {
                Some(j) => document(bytes@) == Some(j.tree()),
                None => document(bytes@) is None,
            },
    {
        match read_value(bytes) {
            Some(v) => Some(Json::of_value(v)),
            None => None,
        }
    }
}

/// The value of the first entry with the given key.
pub open spec fn entry(entries: Seq<(Seq<char>, JsonTree)>, key: Seq<char>) -> Option<JsonTree>
    decreases entries.len(),
{
    if entries.len() == 0 {
        None
    } else if entries[0].0 == key {
        Some(entries[0].1)
    } else {
        entry(entries.drop_first(), key)
    }
}

impl JsonTree {
    /// The member of an object; any other document has none.
    pub open spec fn member(self, key: Seq<char>) -> Option<JsonTree> {
        match self {
            JsonTree::Object(entries) => entry(entries, key),
            _ => None,
        }
    }

    /// The text of a string document.
    pub open spec fn text(self) -> Option<Seq<char>> {
        match self {
            JsonTree::Str(s) => Some(s),
            _ => None,
        }
    }
}

/// The text that the member `key` holds, if it is there and is a string.
pub open spec fn member_text(t: JsonTree, key: Seq<char>) -> Option<Seq<char>> {
    match t.member(key) {
        Some(m) => m.text(),
        None => None,
    }
}

impl Json {
    /// Looks a member of an object up by its key.
    pub fn get(&self, key: &str) -> (r: Option<&Json>)
        ensures
            match r {
                Some(j) => self.tree().member(key@) == Some(j.tree()),
                None => self.tree().member(key@) is None,
            },
    {
        match self {
            Json::Object(entries) => {
                let ghost all = self.tree()->Object_0;
                let mut i: usize = 0;
                assert(all.skip(0) =~= all);
                while i < entries.len()
                    invariant
                        i <= entries@.len(),
                        all.len() == entries@.len(),
                        self.tree() == JsonTree::Object(all),
                        forall|k: int|
                            0 <= k < all.len() ==> #[trigger] all[k] == (
                                entries@[k].0@,
                                entries@[k].1.tree(),
                            ),
                        entry(all.skip(i as int), key@) == entry(all, key@),
                    decreases entries@.len() - i,
                {
                    assert(all.skip(i as int)[0] == all[i as int]);
                    if same_text(entries[i].0.as_str(), key) {
                        return Some(&entries[i].1);
                    }
                    assert(all.skip(i as int).drop_first() =~= all.skip(i + 1));
                    i = i + 1;
                }
                None
            },
            _ => None,
        }
    }

    /// The text of a string document.
    pub fn as_str(&self) -> (r: Option<&String>)
        ensures
            match r {
                Some(s) => self.tree().text() == Some(s@),
                None => self.tree().text() is None,
            },
    {
        match self {
            Json::Str(s) => Some(s),
            _ => None,
        }
    }

    /// Whether the document is an object.
    pub fn is_object(&self) -> (r: bool)
        ensures
            r == (self.tree() is Object),
    {
        match self {
            Json::Object(_) => true,
            _ => false,
        }
    }

    /// A copy of the text that the member `key` holds.
    pub fn get_text(&self, key: &str) -> (r: Option<String>)
        ensures
            match r {
                Some(s) => member_text(self.tree(), key@) == Some(s@),
                None => member_text(self.tree(), key@) is None,
            },
    {
        match self.get(key) {
            Some(m) => match m.as_str() {
                Some(s) => Some(s.clone()),
                None => None,
            },
            None => None,
        }
    }
}

/// The truth value that the member `key` holds, if it is there and is one.
pub open spec fn member_bool(t: JsonTree, key: Seq<char>) -> Option<bool> {
    match t.member(key) {
        Some(JsonTree::Bool(b)) => Some(b),
        _ => None,
    }
}

impl Json {
    /// The truth value that the member `key` holds.
    pub fn get_bool(&self, key: &str) -> (r: Option<bool>)
        ensures
            r == member_bool(self.tree(), key@),
    {
        match self.get(key) {
            Some(Json::Bool(b)) => Some(*b),
            _ => None,
        }
    }
}

/// The character of one lower-case hexadecimal digit.
pub open spec fn hex_char(d: int) -> char {
    if d < 10 {
        (d + 48) as char
    } else {
        (d + 87) as char
    }
}

/// How one character is written inside a JSON string: the quote, the backslash
/// and the control characters are escaped, all others stand for themselves.
pub open spec fn escaped_char(c: char) -> Seq<char> {
    let u = c as u32;
    if c == '"' {
        seq!['\\', '"']
    } else if c == '\\' {
        seq!['\\', '\\']
    } else if u == 8 {
        seq!['\\', 'b']
    } else if u == 9 {
        seq!['\\', 't']
    } else if u == 10 {
        seq!['\\', 'n']
    } else if u == 12 {
        seq!['\\', 'f']
    } else if u == 13 {
        seq!['\\', 'r']
    } else if u < 0x20 {
        seq!['\\', 'u', '0', '0', hex_char(u as int / 16), hex_char(u as int % 16)]
    } else {
        seq![c]
    }
}

/// A text as the inside of a JSON string.
pub open spec fn escaped(s: Seq<char>) -> Seq<char>
    decreases s.len(),
{
    if s.len() == 0 {
        Seq::empty()
    } else {
        escaped(s.drop_last()) + escaped_char(s.last())
    }
}

/// A text as a JSON string.
pub open spec fn json_string(s: Seq<char>) -> Seq<char> {
    seq!['"'] + escaped(s) + seq!['"']
}

/// Calls `serde_json::to_string` on a string. Claimed: it succeeds, and gives
/// the text between quotes with the quote, the backslash and the control
/// characters escaped and all other characters as they are.
#[verifier::external_body]
fn quoted(s: &str) -> (r: Option<String>)
    ensures
        text::opt_text(r) == Some(json_string(s@)),
{
    serde_json::to_string(s).ok()
}

/// Writes a text as a JSON string.
pub fn quote(s: &str) -> (r: String)
    ensures
        r@ == json_string(s@),
{
    match quoted(s) {
        Some(t) => t,
        None => String::new(),
    }
}

/// A JSON string is one line, whatever the text: it holds no line feed.
pub proof fn law_json_string_is_one_line(s: Seq<char>)
    ensures
        forall|i: int| 0 <= i < json_string(s).len() ==> json_string(s)[i] != '\n',
{
    lemma_escaped_one_line(s);
}

proof fn lemma_escaped_one_line(s: Seq<char>)
    ensures
        forall|i: int| 0 <= i < escaped(s).len() ==> escaped(s)[i] != '\n',
    decreases s.len(),
{
    if s.len() > 0 {
        lemma_escaped_one_line(s.drop_last());
        let c = s.last();
        let before = escaped(s.drop_last());
        assert forall|i: int| 0 <= i < escaped(s).len() implies escaped(s)[i] != '\n' by {
            if i < before.len() {
                assert(escaped(s)[i] == before[i]);
            } else {
                assert(escaped(s)[i] == escaped_char(c)[i - before.len()]);
            }
        }
    }
}

proof fn lemma_escaped_front(s: Seq<char>)
    requires
        s.len() > 0,
    ensures
        escaped(s) == escaped_char(s[0]) + escaped(s.drop_first()),
    decreases s.len(),
{
    if s.len() == 1 {
        assert(s.drop_last() =~= Seq::empty());
        assert(s.drop_first() =~= Seq::empty());
        assert(escaped(s) =~= escaped_char(s[0]) + escaped(s.drop_first()));
    } else {
        lemma_escaped_front(s.drop_last());
        assert(s.drop_last().drop_first() =~= s.drop_first().drop_last());
        assert(s.drop_first().last() == s.last());
        assert(escaped(s) =~= escaped_char(s[0]) + escaped(s.drop_first()));
    }
}

/// How a character is written tells which one it is, whatever follows.
proof fn lemma_escape_is_decided(a: char, b: char, x: Seq<char>, y: Seq<char>)
    requires
        escaped_char(a) + x == escaped_char(b) + y,
    ensures
        a == b,
        x == y,
{
    let p = escaped_char(a);
    let q = escaped_char(b);
    let w = p + x;
    assert(w[0] == p[0] && w[0] == q[0]);
    if p.len() > 1 && q.len() > 1 {
        assert(w[1] == p[1] && w[1] == q[1]);
        if p.len() > 2 && q.len() > 2 {
            assert(w[4] == p[4] && w[4] == q[4]);
            assert(w[5] == p[5] && w[5] == q[5]);
            let u = a as u32 as int;
            let v = b as u32 as int;
            assert(u / 16 == v / 16);
            assert(u % 16 == v % 16);
        }
    }
    assert(a == b);
    assert((p + x).skip(p.len() as int) =~= x);
    assert((q + y).skip(q.len() as int) =~= y);
}

proof fn lemma_escaped_injective(a: Seq<char>, b: Seq<char>)
    requires
        escaped(a) == escaped(b),
    ensures
        a == b,
    decreases a.len(),
{
    if a.len() > 0 {
        lemma_escaped_front(a);
    }
    if b.len() > 0 {
        lemma_escaped_front(b);
    }
    if a.len() > 0 && b.len() > 0 {
        lemma_escape_is_decided(a[0], b[0], escaped(a.drop_first()), escaped(b.drop_first()));
        lemma_escaped_injective(a.drop_first(), b.drop_first());
        assert(a =~= seq![a[0]] + a.drop_first());
        assert(b =~= seq![b[0]] + b.drop_first());
    } else {
        assert(a.len() > 0 ==> escaped_char(a[0]).len() > 0);
        assert(b.len() > 0 ==> escaped_char(b[0]).len() > 0);
        assert(escaped(Seq::empty()).len() == 0);
        assert(a =~= b);
    }
}

/// Two texts are never written as the same JSON string.
pub proof fn law_json_strings_are_distinct(a: Seq<char>, b: Seq<char>)
    requires
        json_string(a) == json_string(b),
    ensures
        a == b,
{
    assert(json_string(a).skip(1).drop_last() =~= escaped(a));
    assert(json_string(b).skip(1).drop_last() =~= escaped(b));
    lemma_escaped_injective(a, b);
}

} // verus!
