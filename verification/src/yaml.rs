//! YAML documents as plain values, read and written by `serde_yaml_ng`.

use serde_yaml_ng::{Mapping, Value};
use vstd::prelude::*;

verus! {

/// What a YAML document says.
pub enum Tree {
    Null,
    Bool(bool),
    /// A number: its value as a 64-bit integer where it is one, and its
    /// spelling.
    Number(Option<i64>, Seq<char>),
    Text(Seq<char>),
    Sequence(Seq<Tree>),
    /// The entries, in document order.
    Mapping(Seq<(Tree, Tree)>),
    /// A value with a `!Tag` before it.
    Tagged(Seq<char>, Box<Tree>),
}

/// A YAML document as plain values.
#[derive(Debug)]
pub enum Node {
    Null,
    Bool(bool),
    /// A number: its value as a 64-bit integer where it is one, and its
    /// spelling.
    Number(Option<i64>, String),
    Text(String),
    Sequence(Vec<Node>),
    /// The entries, in document order.
    Mapping(Vec<(Node, Node)>),
    /// A value with a `!Tag` before it.
    Tagged(String, Box<Node>),
}

/// What a [`Node`] says.
pub open spec fn tree_of(n: Node) -> Tree
    decreases n,
{
    match n {
        Node::Null => Tree::Null,
        Node::Bool(b) => Tree::Bool(b),
        Node::Number(i, s) => Tree::Number(i, s@),
        Node::Text(s) => Tree::Text(s@),
        Node::Sequence(v) => Tree::Sequence(
            Seq::new(
                v@.len(),
                |i: int|
                    if 0 <= i < v@.len() {
                        tree_of(v@[i])
                    } else {
                        Tree::Null
                    },
            ),
        ),
        Node::Mapping(v) => Tree::Mapping(
            Seq::new(
                v@.len(),
                |i: int|
                    if 0 <= i < v@.len() {
                        (tree_of(v@[i].0), tree_of(v@[i].1))
                    } else {
                        (Tree::Null, Tree::Null)
                    },
            ),
        ),
        Node::Tagged(t, v) => Tree::Tagged(t@, Box::new(tree_of(*v))),
    }
}

impl View for Node {
    type V = Tree;

    open spec fn view(&self) -> Tree {
        tree_of(*self)
    }
}

/// A value without the tags before it.
pub open spec fn untagged(t: Tree) -> Tree
    decreases t,
{
    match t {
        Tree::Tagged(_, x) => untagged(*x),
        _ => t,
    }
}

/// The entries of a mapping, tagged or not.
pub open spec fn mapping(t: Tree) -> Option<Seq<(Tree, Tree)>> {
    match untagged(t) {
        Tree::Mapping(m) => Some(m),
        _ => None,
    }
}

/// The text of a string, tagged or not.
pub open spec fn string(t: Tree) -> Option<Seq<char>> {
    match untagged(t) {
        Tree::Text(s) => Some(s),
        _ => None,
    }
}

/// What a list of entries says.
pub open spec fn entries(v: Seq<(Node, Node)>) -> Seq<(Tree, Tree)> {
    v.map_values(|e: (Node, Node)| (e.0@, e.1@))
}

impl Node {
    /// The value without the tags before it.
    fn untag(&self) -> (r: &Node)
        ensures
            r@ == untagged(self@),
            !(r is Tagged),
        decreases self,
    {
        match self {
            Node::Tagged(_, x) => x.untag(),
            _ => self,
        }
    }

    /// The entries of a mapping, tagged or not.
    pub fn as_mapping(&self) -> (r: Option<&Vec<(Node, Node)>>)
        ensures
            match r {
                Some(v) => mapping(self@) == Some(entries(v@)),
                None => mapping(self@) is None,
            },
    {
        match self.untag() {
            Node::Mapping(v) => {
                proof {
                    assert(mapping(self@)->Some_0 =~= entries(v@));
                }
                Some(v)
            },
            _ => None,
        }
    }

    /// The text of a string, tagged or not.
    pub fn as_str(&self) -> (r: Option<&str>)
        ensures
            crate::text::opt_view(r) == string(self@),
    {
        match self.untag() {
            Node::Text(s) => Some(s.as_str()),
            _ => None,
        }
    }
}

/// The type of a YAML value of `serde_yaml_ng`.
#[verifier::external_type_specification]
#[verifier::external_body]
pub struct ExValue(serde_yaml_ng::Value);

/// What a YAML value of `serde_yaml_ng` holds.
pub uninterp spec fn yaml_of(v: serde_yaml_ng::Value) -> Tree;

/// What reading a text as YAML gives: the document, or why it is none.
pub uninterp spec fn yaml_read(text: Seq<char>) -> Result<Tree, Seq<char>>;

/// `serde_yaml_ng::from_str` for a `Value`. What it makes of a text depends on
/// the text alone; the error is its message.
#[verifier::external_body]
fn from_str(text: &str) -> (r: Result<Value, String>)
    ensures
        match r {
            Ok(v) => yaml_read(text@) == Ok::<Tree, Seq<char>>(yaml_of(v)),
            Err(e) => yaml_read(text@) == Err::<Tree, Seq<char>>(e@),
        },
{
    serde_yaml_ng::from_str::<Value>(text).map_err(|e| e.to_string())
}

/// A YAML value with its outermost layer taken off.
enum Opened<'a> {
    Null,
    Bool(bool),
    Number(Option<i64>, String),
    Text(&'a str),
    Sequence(&'a Vec<Value>),
    Mapping(Vec<(&'a Value, &'a Value)>),
    Tagged(String, &'a Value),
}

/// The variants of `serde_yaml_ng::Value`. A number is taken as
/// `Number::as_i64` and its `Display` give it, a tag by its `Display`, and a
/// mapping by the entries that `Mapping::iter` walks, in their order.
#[verifier::external_body]
fn open<'a>(v: &'a Value) -> (r: Opened<'a>)
    ensures
        match r {
            Opened::Null => yaml_of(*v) == Tree::Null,
            Opened::Bool(b) => yaml_of(*v) == Tree::Bool(b),
            Opened::Number(i, s) => yaml_of(*v) == Tree::Number(i, s@),
            Opened::Text(s) => yaml_of(*v) == Tree::Text(s@),
            Opened::Sequence(s) => yaml_of(*v) == Tree::Sequence(
                s@.map_values(|x: Value| yaml_of(x)),
            ),
            Opened::Mapping(m) => yaml_of(*v) == Tree::Mapping(
                m@.map_values(|e: (&Value, &Value)| (yaml_of(*e.0), yaml_of(*e.1))),
            ),
            Opened::Tagged(t, x) => yaml_of(*v) == Tree::Tagged(t@, Box::new(yaml_of(*x))),
        },
{
    match v {
        Value::Null => Opened::Null,
        Value::Bool(b) => Opened::Bool(*b),
        Value::Number(n) => Opened::Number(n.as_i64(), n.to_string()),
        Value::String(s) => Opened::Text(s),
        Value::Sequence(s) => Opened::Sequence(s),
        Value::Mapping(m) => Opened::Mapping(m.iter().collect()),
        Value::Tagged(t) => Opened::Tagged(t.tag.to_string(), &t.value),
    }
}

/// A YAML value as plain values.
fn node_of(v: &Value) -> (r: Node)
    ensures
        r@ == yaml_of(*v),
    decreases yaml_of(*v),
{
    match open(v) {
        Opened::Null => Node::Null,
        Opened::Bool(b) => Node::Bool(b),
        Opened::Number(i, s) => Node::Number(i, s),
        Opened::Text(s) => Node::Text(s.to_owned()),
        Opened::Sequence(s) => {
            let ghost trees = s@.map_values(|x: Value| yaml_of(x));
            let mut out: Vec<Node> = Vec::new();
            let mut i: usize = 0;
            while i < s.len()
                invariant
                    i <= s@.len(),
                    out@.len() == i,
                    trees == s@.map_values(|x: Value| yaml_of(x)),
                    yaml_of(*v) == Tree::Sequence(trees),
                    forall|j: int| 0 <= j < i ==> (#[trigger] out@[j])@ == trees[j],
                decreases s.len() - i,
            {
                proof {
                    assert(trees[i as int] == yaml_of(s@[i as int]));
                    assert(trees == yaml_of(*v)->Sequence_0);
                    assert(decreases_to!(trees => trees[i as int]));
                }
                out.push(node_of(&s[i]));
                i += 1;
            }
            let r = Node::Sequence(out);
            proof {
                assert(r@->Sequence_0 =~= trees);
            }
            r
        },
        Opened::Mapping(m) => {
            let ghost trees = m@.map_values(
                |e: (&Value, &Value)| (yaml_of(*e.0), yaml_of(*e.1)),
            );
            let mut out: Vec<(Node, Node)> = Vec::new();
            let mut i: usize = 0;
            while i < m.len()
                invariant
                    i <= m@.len(),
                    out@.len() == i,
                    trees == m@.map_values(
                        |e: (&Value, &Value)| (yaml_of(*e.0), yaml_of(*e.1)),
                    ),
                    yaml_of(*v) == Tree::Mapping(trees),
                    forall|j: int|
                        0 <= j < i ==> (#[trigger] out@[j]).0@ == trees[j].0 && out@[j].1@
                            == trees[j].1,
                decreases m.len() - i,
            {
                let (k, x) = m[i];
                proof {
                    assert(trees[i as int] == (yaml_of(*k), yaml_of(*x)));
                    assert(trees == yaml_of(*v)->Mapping_0);
                    assert(decreases_to!(trees => trees[i as int]));
                }
                proof {
                    assert(decreases_to!(trees[i as int] => trees[i as int].0));
                    assert(decreases_to!(trees[i as int] => trees[i as int].1));
                }
                out.push((node_of(k), node_of(x)));
                i += 1;
            }
            let r = Node::Mapping(out);
            proof {
                assert(r@->Mapping_0 =~= trees);
            }
            r
        },
        Opened::Tagged(t, x) => {
            proof {
                assert(yaml_of(*x) == *(yaml_of(*v)->Tagged_1));
            }
            Node::Tagged(t, Box::new(node_of(x)))
        },
    }
}

/// What a document that was read says, or why it could not be.
pub open spec fn read_view(r: Result<Node, String>) -> Result<Tree, Seq<char>> {
    match r {
        Ok(n) => Ok(n@),
        Err(e) => Err(e@),
    }
}

/// Reads a YAML document.
pub fn read(text: &str) -> (r: Result<Node, String>)
    ensures
        read_view(r) == yaml_read(text@),
{
    match from_str(text) {
        Ok(v) => Ok(node_of(&v)),
        Err(e) => Err(e),
    }
}

// ---------------------------------------------------------------------------
// When two documents say the same thing.
// ---------------------------------------------------------------------------

/// Whether two numbers are the same: they are spelled the same, or both are
/// zero. (Every other number has one spelling.)
pub open spec fn same_number(a: Seq<char>, b: Seq<char>) -> bool {
    a == b || ((a == "0.0"@ || a == "-0.0"@) && (b == "0.0"@ || b == "-0.0"@))
}

/// Whether two documents say the same thing. The order of a mapping's entries
/// says nothing.
pub open spec fn same(a: Tree, b: Tree) -> bool
    decreases a,
{
    match (a, b) {
        (Tree::Null, Tree::Null) => true,
        (Tree::Bool(x), Tree::Bool(y)) => x == y,
        (Tree::Number(_, x), Tree::Number(_, y)) => same_number(x, y),
        (Tree::Text(x), Tree::Text(y)) => x == y,
        (Tree::Sequence(x), Tree::Sequence(y)) => x.len() == y.len() && forall|i: int|
            #![trigger x[i]]
            0 <= i < x.len() ==> same(x[i], y[i]),
        (Tree::Mapping(x), Tree::Mapping(y)) => x.len() == y.len() && forall|i: int|
            #![trigger x[i]]
            0 <= i < x.len() ==> has_same(x[i], y),
        (Tree::Tagged(s, x), Tree::Tagged(t, y)) => s == t && same(*x, *y),
        _ => false,
    }
}

/// Whether an entry is among the entries `y`.
pub open spec fn has_same(e: (Tree, Tree), y: Seq<(Tree, Tree)>) -> bool
    decreases e,
{
    exists|j: int|
        #![trigger y[j]]
        0 <= j < y.len() && same(e.0, y[j].0) && same(e.1, y[j].1)
}

/// `==` on `serde_yaml_ng::Value`. Numbers are compared by value, and there is
/// one NaN; tags by their names; mappings whatever the order of their entries.
#[verifier::external_body]
fn equal(a: &Value, b: &Value) -> (r: bool)
    ensures
        r == same(yaml_of(*a), yaml_of(*b)),
{
    a == b
}

/// Whether two texts are YAML documents that say the same thing.
pub open spec fn same_text(a: Seq<char>, b: Seq<char>) -> bool {
    match (yaml_read(a), yaml_read(b)) {
        (Ok(a), Ok(b)) => same(a, b),
        _ => false,
    }
}

/// Whether two texts are YAML documents that say the same thing.
pub fn texts_say_the_same(a: &str, b: &str) -> (r: bool)
    ensures
        r == same_text(a@, b@),
{
    match (from_str(a), from_str(b)) {
        (Ok(a), Ok(b)) => equal(&a, &b),
        _ => false,
    }
}

/// Every document says what it says.
pub proof fn law_same_is_reflexive(t: Tree)
    ensures
        same(t, t),
    decreases t,
{
    match t {
        Tree::Sequence(x) => {
            assert forall|i: int|
                #![trigger x[i]]
                0 <= i < x.len() implies same(x[i], x[i]) by {
                law_same_is_reflexive(x[i]);
            }
        },
        Tree::Mapping(x) => {
            assert forall|i: int|
                #![trigger x[i]]
                0 <= i < x.len() implies has_same(x[i], x) by {
                assert(decreases_to!(x => x[i]));
                law_same_is_reflexive(x[i].0);
                law_same_is_reflexive(x[i].1);
            }
        },
        Tree::Tagged(_, x) => {
            law_same_is_reflexive(*x);
        },
        _ => {},
    }
}

/// Key order is not meaning: a mapping says the same with its entries in any
/// other order.
pub proof fn law_key_order_is_not_meaning(m: Seq<(Tree, Tree)>, n: Seq<(Tree, Tree)>)
    requires
        m.len() == n.len(),
        forall|i: int| 0 <= i < m.len() ==> n.contains(#[trigger] m[i]),
    ensures
        same(Tree::Mapping(m), Tree::Mapping(n)),
{
    assert forall|i: int|
        #![trigger m[i]]
        0 <= i < m.len() implies has_same(m[i], n) by {
        let j = choose|j: int| 0 <= j < n.len() && n[j] == m[i];
        law_same_is_reflexive(m[i].0);
        law_same_is_reflexive(m[i].1);
        assert(n[j] == m[i]);
    }
}

// ---------------------------------------------------------------------------
// Writing a document.
// ---------------------------------------------------------------------------

/// The type of a YAML mapping of `serde_yaml_ng`.
#[verifier::external_type_specification]
#[verifier::external_body]
pub struct ExMapping(serde_yaml_ng::Mapping);

/// The entries of a YAML mapping of `serde_yaml_ng`, in their order.
pub uninterp spec fn entries_of(m: serde_yaml_ng::Mapping) -> Seq<(Tree, Tree)>;

/// The position of the entry `key`, or the number of entries.
pub open spec fn position(m: Seq<(Tree, Tree)>, key: Seq<char>) -> nat
    decreases m.len(),
{
    if m.len() == 0 || m[0].0 == Tree::Text(key) {
        0
    } else {
        1 + position(m.skip(1), key)
    }
}

/// The entries with `key` set to `value`: in its place if it is there, at the
/// end if it is not.
pub open spec fn put(m: Seq<(Tree, Tree)>, key: Seq<char>, value: Tree) -> Seq<(Tree, Tree)> {
    let i = position(m, key);
    if i < m.len() {
        m.update(i as int, (Tree::Text(key), value))
    } else {
        m.push((Tree::Text(key), value))
    }
}

/// `serde_yaml_ng::Mapping::new`: a mapping without entries.
#[verifier::external_body]
pub(crate) fn new_mapping() -> (r: Mapping)
    ensures
        entries_of(r) == Seq::<(Tree, Tree)>::empty(),
{
    Mapping::new()
}

/// `serde_yaml_ng::Mapping::insert` with a string key: the value of a key that
/// is there is replaced where it stands, any other entry goes to the end.
#[verifier::external_body]
pub(crate) fn insert(m: &mut Mapping, key: &str, value: Value)
    ensures
        entries_of(*final(m)) == put(entries_of(*old(m)), key@, yaml_of(value)),
{
    m.insert(Value::from(key), value);
}

/// `serde_yaml_ng::Value::Mapping`.
#[verifier::external_body]
pub(crate) fn mapping_value(m: Mapping) -> (r: Value)
    ensures
        yaml_of(r) == Tree::Mapping(entries_of(m)),
{
    Value::Mapping(m)
}

/// `serde_yaml_ng::Value::from` of a `bool`.
#[verifier::external_body]
pub(crate) fn bool_value(b: bool) -> (r: Value)
    ensures
        yaml_of(r) == Tree::Bool(b),
{
    Value::from(b)
}

/// `serde_yaml_ng::Value::from` of a `&str`.
#[verifier::external_body]
pub(crate) fn text_value(s: &str) -> (r: Value)
    ensures
        yaml_of(r) == Tree::Text(s@),
{
    Value::from(s)
}

/// How large a document may be to be written, all its texts together. The
/// writer takes the length of a text, and counts lines and columns, in 32-bit
/// integers; a character may take four bytes, and ten columns.
pub const LARGEST: usize = 0x0400_0000;

/// How deep a document may be to be written and read again.
pub const DEEPEST: usize = 100;

/// Whether a document consists of booleans, texts and mappings, is at most
/// `depth` mappings deep, and every key and every other text in it is one of
/// those given.
pub open spec fn shaped(
    t: Tree,
    depth: nat,
    key: spec_fn(Seq<char>) -> bool,
    text: spec_fn(Seq<char>) -> bool,
) -> bool
    decreases t,
{
    match t {
        Tree::Bool(_) => true,
        Tree::Text(s) => text(s),
        Tree::Mapping(m) => depth > 0 && (forall|i: int|
            0 <= i < m.len() ==> (#[trigger] m[i].0 matches Tree::Text(k) && key(k)) && shaped(
                m[i].1,
                (depth - 1) as nat,
                key,
                text,
            )) && (forall|i: int, j: int|
            0 <= i < j < m.len() ==> #[trigger] m[i].0 != #[trigger] m[j].0),
        _ => false,
    }
}

/// How large a document of booleans, texts and mappings is: its values and its
/// keys, and the characters of its texts.
pub open spec fn size(t: Tree) -> nat
    decreases t,
{
    match t {
        Tree::Text(s) => 1 + s.len(),
        Tree::Mapping(m) => 1 + entries_size(m),
        _ => 1,
    }
}

/// How large the entries of a mapping are.
pub open spec fn entries_size(m: Seq<(Tree, Tree)>) -> nat
    decreases m,
{
    if m.len() == 0 {
        0
    } else {
        entries_size(m.drop_last()) + size(m.last().0) + size(m.last().1)
    }
}

/// A printable character of ASCII, or the middle dot.
pub open spec fn is_plain(c: char) -> bool {
    ' ' <= c <= '~' || c == '·'
}

/// Whether a text is made of plain characters.
pub open spec fn plain(s: Seq<char>) -> bool {
    forall|i: int| 0 <= i < s.len() ==> is_plain(#[trigger] s[i])
}

/// Whether a text is plain, not empty, and does not look like a tag.
pub open spec fn plain_key(s: Seq<char>) -> bool {
    plain(s) && s.len() > 0 && s[0] != '!'
}

/// Whether a document can be written: it consists of booleans, texts and
/// mappings, and is neither too deep nor too large.
pub open spec fn writable(t: Tree) -> bool {
    shaped(t, DEEPEST as nat, |s: Seq<char>| true, |s: Seq<char>| true) && size(t) <= LARGEST
}

/// Whether a document is one that writing and reading gives back.
pub open spec fn readable(t: Tree) -> bool {
    shaped(t, DEEPEST as nat, |s: Seq<char>| plain_key(s), |s: Seq<char>| plain(s))
}

/// What writing a document as YAML gives: its text, or why there is none.
pub uninterp spec fn yaml_write(t: Tree) -> Result<Seq<char>, Seq<char>>;

/// `serde_yaml_ng::to_string` of a `Value` that consists of booleans, texts and
/// mappings, and whose texts together are no longer than the writer's 32-bit
/// lengths and counters allow. What it writes depends on the value alone, and
/// it is always written; and where its texts are plain, reading what was
/// written gives the document back.
#[verifier::external_body]
pub(crate) fn to_string(v: &Value) -> (r: Result<String, String>)
    requires
        writable(yaml_of(*v)),
    ensures
        match r {
            Ok(s) => yaml_write(yaml_of(*v)) == Ok::<Seq<char>, Seq<char>>(s@),
            Err(e) => yaml_write(yaml_of(*v)) == Err::<Seq<char>, Seq<char>>(e@),
        },
        r is Ok,
        match r {
            Ok(s) => readable(yaml_of(*v)) ==> yaml_read(s@) == Ok::<Tree, Seq<char>>(yaml_of(*v)),
            Err(_) => true,
        },
{
    serde_yaml_ng::to_string(v).map_err(|e| e.to_string())
}

} // verus!
