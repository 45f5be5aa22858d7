//! JSON documents as plain values, read by `serde_json`.

use serde_json::Value;
use vstd::prelude::*;

verus! {

/// What a JSON document says.
pub enum Json {
    Null,
    Bool(bool),
    /// A number, by its spelling.
    Number(Seq<char>),
    Text(Seq<char>),
    Array(Seq<Json>),
    /// The members. No two of them have the same name.
    Object(Seq<(Seq<char>, Json)>),
}

/// A JSON document as plain values.
#[derive(Debug)]
pub enum Node {
    Null,
    Bool(bool),
    /// A number, by its spelling.
    Number(String),
    Text(String),
    Array(Vec<Node>),
    /// The members. No two of them have the same name.
    Object(Vec<(String, Node)>),
}

/// What a [`Node`] says.
pub open spec fn json_view(n: Node) -> Json
    decreases n,
{
    match n {
        Node::Null => Json::Null,
        Node::Bool(b) => Json::Bool(b),
        Node::Number(s) => Json::Number(s@),
        Node::Text(s) => Json::Text(s@),
        Node::Array(v) => Json::Array(
            Seq::new(
                v@.len(),
                |i: int|
                    if 0 <= i < v@.len() {
                        json_view(v@[i])
                    } else {
                        Json::Null
                    },
            ),
        ),
        Node::Object(v) => Json::Object(
            Seq::new(
                v@.len(),
                |i: int|
                    if 0 <= i < v@.len() {
                        (v@[i].0@, json_view(v@[i].1))
                    } else {
                        (Seq::empty(), Json::Null)
                    },
            ),
        ),
    }
}

impl View for Node {
    type V = Json;

    open spec fn view(&self) -> Json {
        json_view(*self)
    }
}

/// What a list of members says.
pub open spec fn members(v: Seq<(String, Node)>) -> Seq<(Seq<char>, Json)> {
    v.map_values(|m: (String, Node)| (m.0@, m.1@))
}

/// The member `name` of an object; no other value has one.
pub open spec fn member(t: Json, name: Seq<char>) -> Option<Json> {
    match t {
        Json::Object(m) => crate::table::lookup(m, name),
        _ => None,
    }
}

/// The text of a string.
pub open spec fn string(t: Option<Json>) -> Option<Seq<char>> {
    match t {
        Some(Json::Text(s)) => Some(s),
        _ => None,
    }
}

impl Node {
    /// The member `name` of an object; no other value has one.
    pub fn get(&self, name: &str) -> (r: Option<&Node>)
        ensures
            match r {
                Some(n) => member(self@, name@) == Some(n@),
                None => member(self@, name@) is None,
            },
    {
        match self {
            Node::Object(v) => {
                let ghost all = self@->Object_0;
                let mut i: usize = 0;
                while i < v.len()
                    invariant
                        i <= v@.len(),
                        self@ == Json::Object(all),
                        all.len() == v@.len(),
                        forall|j: int|
                            0 <= j < v@.len() ==> all[j] == ((#[trigger] v@[j]).0@, v@[j].1@),
                        forall|j: int| 0 <= j < i ==> (#[trigger] all[j]).0 != name@,
                    decreases v.len() - i,
                {
                    if crate::text::eq(v[i].0.as_str(), name) {
                        proof {
                            assert(all[i as int].0 == v@[i as int].0@);
                            crate::table::lemma_position_is(all, name@, i as nat);
                        }
                        return Some(&v[i].1);
                    }
                    proof {
                        assert(all[i as int].0 == v@[i as int].0@);
                    }
                    i += 1;
                }
                proof {
                    crate::table::lemma_position_is(all, name@, all.len());
                }
                None
            },
            _ => None,
        }
    }

    /// The text of a string.
    pub fn as_str(&self) -> (r: Option<&str>)
        ensures
            crate::text::opt_view(r) == string(Some(self@)),
    {
        match self {
            Node::Text(s) => Some(s.as_str()),
            _ => None,
        }
    }
}

/// The type of a JSON value of `serde_json`.
#[verifier::external_type_specification]
#[verifier::external_body]
pub struct ExValue(serde_json::Value);

/// What a JSON value of `serde_json` holds.
pub uninterp spec fn json_of(v: serde_json::Value) -> Json;

/// What reading a text as JSON gives: the document, or why it is none.
pub uninterp spec fn json_read(text: Seq<char>) -> Result<Json, Seq<char>>;

/// `serde_json::from_str` for a `Value`. What it makes of a text depends on
/// the text alone; the error is its message.
#[verifier::external_body]
fn from_str(text: &str) -> (r: Result<Value, String>)
    ensures
        match r {
            Ok(v) => json_read(text@) == Ok::<Json, Seq<char>>(json_of(v)),
            Err(e) => json_read(text@) == Err::<Json, Seq<char>>(e@),
        },
{
    serde_json::from_str::<Value>(text).map_err(|e| e.to_string())
}

/// A JSON value with its outermost layer taken off.
enum Opened<'a> {
    Null,
    Bool(bool),
    Number(String),
    Text(&'a str),
    Array(&'a Vec<Value>),
    Object(Vec<(&'a String, &'a Value)>),
}

/// The variants of `serde_json::Value`. A number is taken by its `Display`,
/// and an object by the members that `Map::iter` walks, in their order.
#[verifier::external_body]
fn open<'a>(v: &'a Value) -> (r: Opened<'a>)
    ensures
        match r {
            Opened::Null => json_of(*v) == Json::Null,
            Opened::Bool(b) => json_of(*v) == Json::Bool(b),
            Opened::Number(s) => json_of(*v) == Json::Number(s@),
            Opened::Text(s) => json_of(*v) == Json::Text(s@),
            Opened::Array(s) => json_of(*v) == Json::Array(s@.map_values(|x: Value| json_of(x))),
            Opened::Object(m) => json_of(*v) == Json::Object(
                m@.map_values(|e: (&String, &Value)| (e.0@, json_of(*e.1))),
            ),
        },
{
    match v {
        Value::Null => Opened::Null,
        Value::Bool(b) => Opened::Bool(*b),
        Value::Number(n) => Opened::Number(n.to_string()),
        Value::String(s) => Opened::Text(s),
        Value::Array(s) => Opened::Array(s),
        Value::Object(m) => Opened::Object(m.iter().collect()),
    }
}

/// A JSON value as plain values.
fn node_of(v: &Value) -> (r: Node)
    ensures
        r@ == json_of(*v),
    decreases json_of(*v),
{
    match open(v) {
        Opened::Null => Node::Null,
        Opened::Bool(b) => Node::Bool(b),
        Opened::Number(s) => Node::Number(s),
        Opened::Text(s) => Node::Text(s.to_owned()),
        Opened::Array(s) => {
            let ghost trees = s@.map_values(|x: Value| json_of(x));
            let mut out: Vec<Node> = Vec::new();
            let mut i: usize = 0;
            while i < s.len()
                invariant
                    i <= s@.len(),
                    out@.len() == i,
                    trees == s@.map_values(|x: Value| json_of(x)),
                    json_of(*v) == Json::Array(trees),
                    forall|j: int| 0 <= j < i ==> (#[trigger] out@[j])@ == trees[j],
                decreases s.len() - i,
            {
                proof {
                    assert(trees[i as int] == json_of(s@[i as int]));
                    assert(trees == json_of(*v)->Array_0);
                    assert(decreases_to!(trees => trees[i as int]));
                }
                out.push(node_of(&s[i]));
                i += 1;
            }
            let r = Node::Array(out);
            proof {
                assert(r@->Array_0 =~= trees);
            }
            r
        },
        Opened::Object(m) => {
            let ghost trees = m@.map_values(|e: (&String, &Value)| (e.0@, json_of(*e.1)));
            let mut out: Vec<(String, Node)> = Vec::new();
            let mut i: usize = 0;
            while i < m.len()
                invariant
                    i <= m@.len(),
                    out@.len() == i,
                    trees == m@.map_values(|e: (&String, &Value)| (e.0@, json_of(*e.1))),
                    json_of(*v) == Json::Object(trees),
                    forall|j: int|
                        0 <= j < i ==> (#[trigger] out@[j]).0@ == trees[j].0 && out@[j].1@
                            == trees[j].1,
                decreases m.len() - i,
            {
                let (k, x) = m[i];
                proof {
                    assert(trees[i as int] == (k@, json_of(*x)));
                    assert(trees == json_of(*v)->Object_0);
                    assert(decreases_to!(trees => trees[i as int]));
                    assert(decreases_to!(trees[i as int] => trees[i as int].1));
                }
                out.push((k.clone(), node_of(x)));
                i += 1;
            }
            let r = Node::Object(out);
            proof {
                assert(r@->Object_0 =~= trees);
            }
            r
        },
    }
}

/// What a document that was read says, or why it could not be.
pub open spec fn read_view(r: Result<Node, String>) -> Result<Json, Seq<char>> {
    match r {
        Ok(n) => Ok(n@),
        Err(e) => Err(e@),
    }
}

/// Reads a JSON document.
pub fn read(text: &str) -> (r: Result<Node, String>)
    ensures
        read_view(r) == json_read(text@),
{
    match from_str(text) {
        Ok(v) => Ok(node_of(&v)),
        Err(e) => Err(e),
    }
}

} // verus!
