//! This node's `gpu` prefix file,
//! `/etc/pve/nodes/<node>/meta.d/prefixes/gpu.yaml`, written through
//! `pve-meta set nodes/<node>/prefixes/gpu`.
//!
//! Which GPUs a host has is not the cluster's to state, so the whole schema
//! lives in the node's own file: a guest on a node without GPUs is offered no
//! `gpu` rows at all, a guest on this one is offered exactly this node's cards
//! by UUID, with the model and bus location in each row's description, and a
//! guest that migrates gets the other node's set with its document untouched.
//!
//! The file is written only when its content would differ, because every
//! write moves pve-meta's version token and wakes every operator polling it.
//! A node whose driver is loaded and has no cards has no file; a node whose
//! driver is **not** loaded keeps whatever file it has, because a driver
//! upgrade takes `/proc/driver/nvidia` away for a few seconds and the rows
//! must not blink out of the editor for every guest on the node.

use serde_yaml_ng::Value;
use vstd::prelude::*;

use crate::cmd::{self, Output, Said};
use crate::doc::{self, CAPABILITIES, DEFAULT_CAPABILITIES};
use crate::inventory::{self, Card, Facts, Inventory};
use crate::text;
use crate::yaml::{self, Tree};
use crate::PREFIX;

verus! {

/// The pve-meta document id of a node's prefix file.
pub open spec fn id_of(node: Seq<char>) -> Seq<char> {
    "nodes/"@ + node + "/prefixes/"@ + PREFIX@
}

/// The pve-meta document id of this node's prefix file.
pub fn doc_id(node: &str) -> (r: String)
    ensures
        r@ == id_of(node@),
{
    "nodes/".to_owned().concat(node).concat("/prefixes/").concat(PREFIX)
}

// ---------------------------------------------------------------------------
// The file.
// ---------------------------------------------------------------------------

/// The entries of a mapping that is filled with `pairs`, one after the other.
pub open spec fn filled(pairs: Seq<(Seq<char>, Tree)>) -> Seq<(Tree, Tree)>
    decreases pairs.len(),
{
    if pairs.len() == 0 {
        Seq::empty()
    } else {
        yaml::put(filled(pairs.drop_last()), pairs.last().0, pairs.last().1)
    }
}

/// A mapping.
pub open spec fn map_tree(pairs: Seq<(Seq<char>, Tree)>) -> Tree {
    Tree::Mapping(filled(pairs))
}

/// The schema of a boolean.
pub open spec fn boolean_tree(default: bool, description: Option<Seq<char>>) -> Tree {
    map_tree(
        seq![("type"@, Tree::Text("boolean"@)), ("default"@, Tree::Bool(default))]
            + match description {
            Some(d) => seq![("description"@, Tree::Text(d))],
            None => Seq::empty(),
        },
    )
}

/// One row per card, with its description.
pub open spec fn device_rows(gpus: Seq<Card>) -> Seq<(Seq<char>, Tree)> {
    gpus.map_values(
        |c: Card| (c.uuid, boolean_tree(false, Some(inventory::description(c)))),
    )
}

/// One row per capability the document parser accepts, with the default it
/// applies.
pub open spec fn capability_rows() -> Seq<(Seq<char>, Tree)> {
    doc::all_capabilities().map_values(
        |c: Seq<char>|
            (c, boolean_tree(text::views(DEFAULT_CAPABILITIES@).contains(c), None)),
    )
}

/// The schema of the devices.
pub open spec fn devices_tree(gpus: Seq<Card>) -> Tree {
    map_tree(
        seq![
            ("type"@, Tree::Text("object"@)),
            ("description"@, Tree::Text("GPUs this container gets, by UUID"@)),
            ("properties"@, map_tree(device_rows(gpus))),
        ],
    )
}

/// The schema of the capabilities.
pub open spec fn capabilities_tree() -> Tree {
    map_tree(
        seq![
            ("type"@, Tree::Text("object"@)),
            (
                "description"@,
                Tree::Text("What the driver is used for; the default is compute and utility"@),
            ),
            ("properties"@, map_tree(capability_rows())),
        ],
    )
}

/// The schema of the constraint.
pub open spec fn cuda_tree() -> Tree {
    map_tree(
        seq![
            ("type"@, Tree::Text("string"@)),
            (
                "description"@,
                Tree::Text("e.g. 12.8 - the container refuses to start on an older host driver"@),
            ),
        ],
    )
}

/// The first line of the file.
pub open spec fn title(node: Seq<char>) -> Seq<char> {
    "NVIDIA GPUs on "@ + node + " (written by pve-meta-nvidia)"@
}

/// The prefix file a node should have, as a document.
pub open spec fn file_of(node: Seq<char>, inv: Facts) -> Tree {
    map_tree(
        seq![
            ("description"@, Tree::Text(title(node))),
            ("selector"@, map_tree(seq![("all"@, Tree::Bool(true))])),
            (
                "schema"@,
                map_tree(
                    seq![
                        ("type"@, Tree::Text("object"@)),
                        (
                            "properties"@,
                            map_tree(
                                seq![
                                    ("devices"@, devices_tree(inv.gpus)),
                                    ("capabilities"@, capabilities_tree()),
                                    ("require_cuda"@, cuda_tree()),
                                ],
                            ),
                        ),
                    ],
                ),
            ),
        ],
    )
}

/// What a list of named YAML values says.
pub open spec fn pairs_of(pairs: Seq<(&str, Value)>) -> Seq<(Seq<char>, Tree)> {
    pairs.map_values(|p: (&str, Value)| (p.0@, yaml::yaml_of(p.1)))
}

/// A mapping.
fn map(pairs: Vec<(&str, Value)>) -> (r: Value)
    ensures
        yaml::yaml_of(r) == map_tree(pairs_of(pairs@)),
{
    let ghost all = pairs_of(pairs@);
    let mut m = yaml::new_mapping();
    for p in it: pairs.into_iter()
        invariant
            all == pairs_of(it.seq()),
            yaml::entries_of(m) == filled(all.take(it.index())),
    {
        proof {
            let i = it.index();
            assert(all.take(i + 1).last() == (p.0@, yaml::yaml_of(p.1)));
            assert(all.take(i + 1).drop_last() =~= all.take(i));
        }
        let (k, v) = p;
        yaml::insert(&mut m, k, v);
    }
    proof {
        assert(all.take(all.len() as int) =~= all);
    }
    yaml::mapping_value(m)
}

/// The schema of a boolean.
fn boolean(default: bool, description: Option<&str>) -> (r: Value)
    ensures
        yaml::yaml_of(r) == boolean_tree(default, text::opt_view(description)),
{
    let mut pairs: Vec<(&str, Value)> = Vec::new();
    pairs.push(("type", yaml::text_value("boolean")));
    pairs.push(("default", yaml::bool_value(default)));
    if let Some(d) = description {
        pairs.push(("description", yaml::text_value(d)));
    }
    proof {
        assert(pairs_of(pairs@) =~= seq![
            ("type"@, Tree::Text("boolean"@)),
            ("default"@, Tree::Bool(default)),
        ] + match text::opt_view(description) {
            Some(d) => seq![("description"@, Tree::Text(d))],
            None => Seq::empty(),
        });
    }
    map(pairs)
}

/// The rows of the devices.
fn devices(inv: &Inventory) -> (r: Value)
    ensures
        yaml::yaml_of(r) == map_tree(device_rows(inv@.gpus)),
{
    let ghost rows = device_rows(inv@.gpus);
    let mut pairs: Vec<(&str, Value)> = Vec::new();
    let mut i: usize = 0;
    while i < inv.gpus.len()
        invariant
            i <= inv.gpus@.len(),
            pairs@.len() == i,
            rows == device_rows(inv@.gpus),
            forall|j: int|
                0 <= j < i ==> (#[trigger] pairs@[j]).0@ == rows[j].0 && yaml::yaml_of(pairs@[j].1)
                    == rows[j].1,
        decreases inv.gpus.len() - i,
    {
        let gpu = &inv.gpus[i];
        let description = gpu.describe();
        proof {
            assert(rows[i as int] == (
                gpu.uuid@,
                boolean_tree(false, Some(inventory::description(gpu@))),
            ));
        }
        pairs.push((gpu.uuid.as_str(), boolean(false, Some(description.as_str()))));
        i += 1;
    }
    proof {
        assert(pairs_of(pairs@) =~= rows);
    }
    map(pairs)
}

/// Whether a capability is on by default.
fn is_default(name: &str) -> (r: bool)
    ensures
        r == text::views(DEFAULT_CAPABILITIES@).contains(name@),
{
    let ghost names = text::views(DEFAULT_CAPABILITIES@);
    let mut i: usize = 0;
    while i < DEFAULT_CAPABILITIES.len()
        invariant
            i <= DEFAULT_CAPABILITIES@.len(),
            names == text::views(DEFAULT_CAPABILITIES@),
            forall|j: int| 0 <= j < i ==> (#[trigger] names[j]) != name@,
        decreases DEFAULT_CAPABILITIES@.len() - i,
    {
        proof {
            text::lemma_views(DEFAULT_CAPABILITIES@);
            assert(names[i as int] == DEFAULT_CAPABILITIES@[i as int]@);
        }
        if text::eq(DEFAULT_CAPABILITIES[i], name) {
            return true;
        }
        i += 1;
    }
    false
}

/// The rows of the capabilities: every one the parser accepts, so the rows
/// offered and the values allowed cannot drift apart.
fn capabilities() -> (r: Value)
    ensures
        yaml::yaml_of(r) == map_tree(capability_rows()),
{
    let ghost rows = capability_rows();
    let mut pairs: Vec<(&str, Value)> = Vec::new();
    let mut i: usize = 0;
    while i < CAPABILITIES.len()
        invariant
            i <= CAPABILITIES@.len(),
            pairs@.len() == i,
            rows == capability_rows(),
            forall|j: int|
                0 <= j < i ==> (#[trigger] pairs@[j]).0@ == rows[j].0 && yaml::yaml_of(pairs@[j].1)
                    == rows[j].1,
        decreases CAPABILITIES@.len() - i,
    {
        let c = CAPABILITIES[i];
        proof {
            text::lemma_views(CAPABILITIES@);
            assert(rows[i as int].0 == c@);
        }
        pairs.push((c, boolean(is_default(c), None)));
        i += 1;
    }
    proof {
        assert(pairs_of(pairs@) =~= rows);
    }
    map(pairs)
}

/// The properties of a schema, where it has them.
spec fn properties_of(properties: Option<Value>) -> Seq<(Seq<char>, Tree)> {
    match properties {
        Some(v) => seq![("properties"@, yaml::yaml_of(v))],
        None => Seq::empty(),
    }
}

/// A schema with a type, a description and, for an object, its properties.
fn schema(kind: &str, description: &str, properties: Option<Value>) -> (r: Value)
    ensures
        yaml::yaml_of(r) == map_tree(
            seq![
                ("type"@, Tree::Text(kind@)),
                ("description"@, Tree::Text(description@)),
            ] + properties_of(properties),
        ),
{
    let mut pairs: Vec<(&str, Value)> = Vec::new();
    pairs.push(("type", yaml::text_value(kind)));
    pairs.push(("description", yaml::text_value(description)));
    let ghost tail = properties_of(properties);
    if let Some(v) = properties {
        pairs.push(("properties", v));
    }
    proof {
        assert(pairs_of(pairs@) =~= seq![
            ("type"@, Tree::Text(kind@)),
            ("description"@, Tree::Text(description@)),
        ] + tail);
    }
    map(pairs)
}

/// The prefix file this node should have.
fn file(node: &str, inv: &Inventory) -> (r: Value)
    ensures
        yaml::yaml_of(r) == file_of(node@, inv@),
{
    let devices = schema("object", "GPUs this container gets, by UUID", Some(devices(inv)));
    let capabilities = schema(
        "object",
        "What the driver is used for; the default is compute and utility",
        Some(capabilities()),
    );
    let cuda = schema(
        "string",
        "e.g. 12.8 - the container refuses to start on an older host driver",
        None,
    );
    proof {
        assert(yaml::yaml_of(devices) == devices_tree(inv@.gpus)) by {
            assert(seq![
                ("type"@, Tree::Text("object"@)),
                ("description"@, Tree::Text("GPUs this container gets, by UUID"@)),
            ] + seq![("properties"@, map_tree(device_rows(inv@.gpus)))] =~= seq![
                ("type"@, Tree::Text("object"@)),
                ("description"@, Tree::Text("GPUs this container gets, by UUID"@)),
                ("properties"@, map_tree(device_rows(inv@.gpus))),
            ]);
        }
        assert(yaml::yaml_of(capabilities) == capabilities_tree()) by {
            let d = Tree::Text(
                "What the driver is used for; the default is compute and utility"@,
            );
            assert(seq![("type"@, Tree::Text("object"@)), ("description"@, d)] + seq![
                ("properties"@, map_tree(capability_rows())),
            ] =~= seq![
                ("type"@, Tree::Text("object"@)),
                ("description"@, d),
                ("properties"@, map_tree(capability_rows())),
            ]);
        }
        assert(yaml::yaml_of(cuda) == cuda_tree()) by {
            let d = Tree::Text(
                "e.g. 12.8 - the container refuses to start on an older host driver"@,
            );
            assert(seq![("type"@, Tree::Text("string"@)), ("description"@, d)] + Seq::empty()
                =~= seq![("type"@, Tree::Text("string"@)), ("description"@, d)]);
        }
    }
    let mut fields: Vec<(&str, Value)> = Vec::new();
    fields.push(("devices", devices));
    fields.push(("capabilities", capabilities));
    fields.push(("require_cuda", cuda));
    proof {
        assert(pairs_of(fields@) =~= seq![
            ("devices"@, devices_tree(inv@.gpus)),
            ("capabilities"@, capabilities_tree()),
            ("require_cuda"@, cuda_tree()),
        ]);
    }
    let fields = map(fields);
    let mut schema: Vec<(&str, Value)> = Vec::new();
    schema.push(("type", yaml::text_value("object")));
    schema.push(("properties", fields));
    proof {
        assert(pairs_of(schema@) =~= seq![
            ("type"@, Tree::Text("object"@)),
            ("properties"@, yaml::yaml_of(fields)),
        ]);
    }
    let schema = map(schema);
    let mut all: Vec<(&str, Value)> = Vec::new();
    all.push(("all", yaml::bool_value(true)));
    proof {
        assert(pairs_of(all@) =~= seq![("all"@, Tree::Bool(true))]);
    }
    let selector = map(all);
    let title = "NVIDIA GPUs on ".to_owned().concat(node).concat(" (written by pve-meta-nvidia)");
    let mut file: Vec<(&str, Value)> = Vec::new();
    file.push(("description", yaml::text_value(title.as_str())));
    file.push(("selector", selector));
    file.push(("schema", schema));
    proof {
        assert(pairs_of(file@) =~= seq![
            ("description"@, Tree::Text(title@)),
            ("selector"@, yaml::yaml_of(selector)),
            ("schema"@, yaml::yaml_of(schema)),
        ]);
    }
    map(file)
}

// ---------------------------------------------------------------------------
// The file as text.
// ---------------------------------------------------------------------------

/// How much of the file is the same for every node, at most.
pub const FRAME: usize = 1000;

/// How much of a card's row is the same for every card, at most.
pub const ROW: usize = 40;

/// How much of the file is the cards', at most.
pub open spec fn cards_size(gpus: Seq<Card>) -> nat
    decreases gpus.len(),
{
    if gpus.len() == 0 {
        0
    } else {
        cards_size(gpus.drop_last()) + gpus.last().uuid.len() + inventory::description(
            gpus.last(),
        ).len() + ROW as nat
    }
}

/// Whether the file is small enough to be written down: what it says of the
/// node and of all its cards together.
pub open spec fn fits(node: Seq<char>, inv: Facts) -> bool {
    FRAME + title(node).len() + cards_size(inv.gpus) <= yaml::LARGEST
}

/// Whether what the file says is plain text throughout.
pub open spec fn plain(node: Seq<char>, inv: Facts) -> bool {
    yaml::plain(title(node)) && forall|i: int|
        0 <= i < inv.gpus.len() ==> yaml::plain_key((#[trigger] inv.gpus[i]).uuid) && yaml::plain(
            inventory::description(inv.gpus[i]),
        )
}

/// The position of an entry, or the number of entries.
pub proof fn lemma_position(m: Seq<(Tree, Tree)>, key: Seq<char>)
    ensures
        yaml::position(m, key) <= m.len(),
        forall|i: int| 0 <= i < yaml::position(m, key) ==> (#[trigger] m[i]).0 != Tree::Text(key),
        yaml::position(m, key) < m.len() ==> m[yaml::position(m, key) as int].0 == Tree::Text(key),
    decreases m.len(),
{
    if m.len() > 0 && m[0].0 != Tree::Text(key) {
        lemma_position(m.skip(1), key);
        assert forall|i: int| 0 <= i < yaml::position(m, key) implies (#[trigger] m[i]).0
            != Tree::Text(key) by {
            if i > 0 {
                assert(m.skip(1)[i - 1] == m[i]);
            }
        }
    }
}

/// A mapping of well-shaped values is well shaped.
proof fn lemma_map_shaped(
    pairs: Seq<(Seq<char>, Tree)>,
    depth: nat,
    key: spec_fn(Seq<char>) -> bool,
    text: spec_fn(Seq<char>) -> bool,
)
    requires
        forall|i: int|
            0 <= i < pairs.len() ==> key((#[trigger] pairs[i]).0) && yaml::shaped(
                pairs[i].1,
                depth,
                key,
                text,
            ),
    ensures
        yaml::shaped(map_tree(pairs), depth + 1, key, text),
    decreases pairs.len(),
{
    if pairs.len() > 0 {
        let init = pairs.drop_last();
        let (k, v) = pairs.last();
        assert forall|i: int| 0 <= i < init.len() implies key((#[trigger] init[i]).0)
            && yaml::shaped(init[i].1, depth, key, text) by {
            assert(init[i] == pairs[i]);
        }
        lemma_map_shaped(init, depth, key, text);
        assert(key(pairs[pairs.len() - 1].0));
        let m = filled(init);
        lemma_position(m, k);
        let n = filled(pairs);
        assert forall|i: int| 0 <= i < n.len() implies (#[trigger] n[i].0 matches Tree::Text(k)
            && key(k)) && yaml::shaped(n[i].1, depth, key, text) by {
            if i < m.len() {
                let e = m[i].0;
            }
        }
        assert forall|i: int, j: int| 0 <= i < j < n.len() implies #[trigger] n[i].0
            != #[trigger] n[j].0 by {
            if j < m.len() {
                assert(m[i].0 != m[j].0);
            }
        }
    }
}

/// Whether every key and every text the file always has is one of those given.
spec fn fixed(
    key: spec_fn(Seq<char>) -> bool,
    text: spec_fn(Seq<char>) -> bool,
) -> bool {
    &&& key("type"@) && key("default"@) && key("description"@) && key("properties"@)
    &&& key("all"@) && key("selector"@) && key("schema"@)
    &&& key("devices"@) && key("capabilities"@) && key("require_cuda"@)
    &&& forall|i: int| 0 <= i < 6 ==> key(#[trigger] doc::all_capabilities()[i])
    &&& text("boolean"@) && text("object"@) && text("string"@)
    &&& text("GPUs this container gets, by UUID"@)
    &&& text("What the driver is used for; the default is compute and utility"@)
    &&& text("e.g. 12.8 - the container refuses to start on an older host driver"@)
}

proof fn lemma_boolean_shaped(
    default: bool,
    description: Option<Seq<char>>,
    depth: nat,
    key: spec_fn(Seq<char>) -> bool,
    text: spec_fn(Seq<char>) -> bool,
)
    requires
        fixed(key, text),
        description matches Some(d) ==> text(d),
    ensures
        yaml::shaped(boolean_tree(default, description), depth + 1, key, text),
{
    lemma_map_shaped(
        seq![("type"@, Tree::Text("boolean"@)), ("default"@, Tree::Bool(default))]
            + match description {
            Some(d) => seq![("description"@, Tree::Text(d))],
            None => Seq::empty(),
        },
        depth,
        key,
        text,
    );
}

/// Writing the same lemma once for both shapes: whatever the fixed texts, the
/// title, the ids and the descriptions are, the whole file is.
proof fn lemma_file_shaped(
    node: Seq<char>,
    inv: Facts,
    key: spec_fn(Seq<char>) -> bool,
    text: spec_fn(Seq<char>) -> bool,
)
    requires
        fixed(key, text),
        text(title(node)),
        forall|i: int|
            0 <= i < inv.gpus.len() ==> key((#[trigger] inv.gpus[i]).uuid) && text(
                inventory::description(inv.gpus[i]),
            ),
    ensures
        yaml::shaped(file_of(node, inv), yaml::DEEPEST as nat, key, text),
{
    let rows = device_rows(inv.gpus);
    assert forall|i: int| 0 <= i < rows.len() implies key((#[trigger] rows[i]).0)
        && yaml::shaped(rows[i].1, 95, key, text) by {
        let c = inv.gpus[i];
        assert(key(c.uuid));
        lemma_boolean_shaped(false, Some(inventory::description(c)), 94, key, text);
    }
    lemma_map_shaped(rows, 95, key, text);
    lemma_map_shaped(
        seq![
            ("type"@, Tree::Text("object"@)),
            ("description"@, Tree::Text("GPUs this container gets, by UUID"@)),
            ("properties"@, map_tree(rows)),
        ],
        96,
        key,
        text,
    );
    let caps = capability_rows();
    doc::lemma_capability_names();
    assert forall|i: int| 0 <= i < caps.len() implies key((#[trigger] caps[i]).0)
        && yaml::shaped(caps[i].1, 95, key, text) by {
        let c = doc::all_capabilities()[i];
        assert(key(c));
        lemma_boolean_shaped(
            text::views(DEFAULT_CAPABILITIES@).contains(c),
            None,
            94,
            key,
            text,
        );
    }
    lemma_map_shaped(caps, 95, key, text);
    lemma_map_shaped(
        seq![
            ("type"@, Tree::Text("object"@)),
            (
                "description"@,
                Tree::Text("What the driver is used for; the default is compute and utility"@),
            ),
            ("properties"@, map_tree(caps)),
        ],
        96,
        key,
        text,
    );
    lemma_map_shaped(
        seq![
            ("type"@, Tree::Text("string"@)),
            (
                "description"@,
                Tree::Text("e.g. 12.8 - the container refuses to start on an older host driver"@),
            ),
        ],
        96,
        key,
        text,
    );
    let fields = seq![
        ("devices"@, devices_tree(inv.gpus)),
        ("capabilities"@, capabilities_tree()),
        ("require_cuda"@, cuda_tree()),
    ];
    lemma_map_shaped(fields, 97, key, text);
    let schema = seq![
        ("type"@, Tree::Text("object"@)),
        ("properties"@, map_tree(fields)),
    ];
    lemma_map_shaped(schema, 98, key, text);
    lemma_map_shaped(seq![("all"@, Tree::Bool(true))], 98, key, text);
    lemma_map_shaped(
        seq![
            ("description"@, Tree::Text(title(node))),
            ("selector"@, map_tree(seq![("all"@, Tree::Bool(true))])),
            ("schema"@, map_tree(schema)),
        ],
        99,
        key,
        text,
    );
}

/// The texts the file always has are plain.
proof fn lemma_fixed()
    ensures
        fixed(|s: Seq<char>| true, |s: Seq<char>| true),
        fixed(|s: Seq<char>| yaml::plain_key(s), |s: Seq<char>| yaml::plain(s)),
{
    doc::lemma_capability_names();
    reveal_strlit("type");
    reveal_strlit("default");
    reveal_strlit("description");
    reveal_strlit("properties");
    reveal_strlit("all");
    reveal_strlit("selector");
    reveal_strlit("schema");
    reveal_strlit("devices");
    reveal_strlit("capabilities");
    reveal_strlit("require_cuda");
    reveal_strlit("compute");
    reveal_strlit("compat32");
    reveal_strlit("display");
    reveal_strlit("graphics");
    reveal_strlit("utility");
    reveal_strlit("video");
    reveal_strlit("boolean");
    reveal_strlit("object");
    reveal_strlit("string");
    reveal_strlit("GPUs this container gets, by UUID");
    reveal_strlit("What the driver is used for; the default is compute and utility");
    reveal_strlit("e.g. 12.8 - the container refuses to start on an older host driver");
}

/// How large named values are together.
spec fn pairs_size(pairs: Seq<(Seq<char>, Tree)>) -> nat
    decreases pairs.len(),
{
    if pairs.len() == 0 {
        0
    } else {
        pairs_size(pairs.drop_last()) + 1 + pairs.last().0.len() + yaml::size(pairs.last().1)
    }
}

/// Another entry in the place of one changes the size by the difference.
proof fn lemma_update_size(m: Seq<(Tree, Tree)>, i: int, e: (Tree, Tree))
    requires
        0 <= i < m.len(),
    ensures
        yaml::entries_size(m.update(i, e)) + yaml::size(m[i].0) + yaml::size(m[i].1)
            == yaml::entries_size(m) + yaml::size(e.0) + yaml::size(e.1),
    decreases m.len(),
{
    let n = m.update(i, e);
    if i == m.len() - 1 {
        assert(n.drop_last() =~= m.drop_last());
    } else {
        lemma_update_size(m.drop_last(), i, e);
        assert(n.drop_last() =~= m.drop_last().update(i, e));
        assert(n.last() == m.last());
    }
}

/// A mapping is no larger than what it was filled with.
proof fn lemma_map_size(pairs: Seq<(Seq<char>, Tree)>)
    ensures
        yaml::size(map_tree(pairs)) <= 1 + pairs_size(pairs),
    decreases pairs.len(),
{
    assert(yaml::size(map_tree(pairs)) == 1 + yaml::entries_size(filled(pairs)));
    if pairs.len() > 0 {
        let m = filled(pairs.drop_last());
        let (k, v) = pairs.last();
        lemma_map_size(pairs.drop_last());
        assert(yaml::size(map_tree(pairs.drop_last())) == 1 + yaml::entries_size(m));
        assert(yaml::size(Tree::Text(k)) == 1 + k.len());
        lemma_position(m, k);
        let i = yaml::position(m, k) as int;
        if i < m.len() {
            lemma_update_size(m, i, (Tree::Text(k), v));
            assert(m[i].0 == Tree::Text(k));
        } else {
            let n = m.push((Tree::Text(k), v));
            assert(n.drop_last() =~= m);
            assert(n.last() == (Tree::Text(k), v));
            assert(yaml::entries_size(n) == yaml::entries_size(m) + yaml::size(Tree::Text(k))
                + yaml::size(v));
        }
    }
}

/// The size of one, two or three named values.
proof fn lemma_pairs_size(a: (Seq<char>, Tree), b: (Seq<char>, Tree), c: (Seq<char>, Tree))
    ensures
        pairs_size(seq![a]) == 1 + a.0.len() + yaml::size(a.1),
        pairs_size(seq![a, b]) == 2 + a.0.len() + yaml::size(a.1) + b.0.len() + yaml::size(b.1),
        pairs_size(seq![a, b, c]) == 3 + a.0.len() + yaml::size(a.1) + b.0.len() + yaml::size(b.1)
            + c.0.len() + yaml::size(c.1),
{
    assert(seq![a].drop_last() =~= Seq::<(Seq<char>, Tree)>::empty());
    assert(pairs_size(seq![a].drop_last()) == 0);
    assert(pairs_size(seq![a]) == 1 + a.0.len() + yaml::size(a.1));
    assert(seq![a, b].drop_last() =~= seq![a]);
    assert(seq![a, b].last() == b);
    assert(pairs_size(seq![a, b]) == 2 + a.0.len() + yaml::size(a.1) + b.0.len() + yaml::size(b.1));
    assert(seq![a, b, c].drop_last() =~= seq![a, b]);
    assert(seq![a, b, c].last() == c);
}

/// A mapping of three named values.
proof fn lemma_map_size_of(a: (Seq<char>, Tree), b: (Seq<char>, Tree), c: (Seq<char>, Tree))
    ensures
        yaml::size(map_tree(seq![a])) <= 2 + a.0.len() + yaml::size(a.1),
        yaml::size(map_tree(seq![a, b])) <= 3 + a.0.len() + yaml::size(a.1) + b.0.len()
            + yaml::size(b.1),
        yaml::size(map_tree(seq![a, b, c])) <= 4 + a.0.len() + yaml::size(a.1) + b.0.len()
            + yaml::size(b.1) + c.0.len() + yaml::size(c.1),
{
    lemma_pairs_size(a, b, c);
    lemma_map_size(seq![a]);
    lemma_map_size(seq![a, b]);
    lemma_map_size(seq![a, b, c]);
}

/// The lengths of the texts the file always has.
proof fn lemma_lengths()
    ensures
        "type"@.len() == 4,
        "default"@.len() == 7,
        "description"@.len() == 11,
        "properties"@.len() == 10,
        "all"@.len() == 3,
        "selector"@.len() == 8,
        "schema"@.len() == 6,
        "devices"@.len() == 7,
        "capabilities"@.len() == 12,
        "require_cuda"@.len() == 12,
        "boolean"@.len() == 7,
        "object"@.len() == 6,
        "string"@.len() == 6,
        "GPUs this container gets, by UUID"@.len() < 100,
        "What the driver is used for; the default is compute and utility"@.len() < 100,
        "e.g. 12.8 - the container refuses to start on an older host driver"@.len() < 100,
{
    reveal_strlit("type");
    reveal_strlit("default");
    reveal_strlit("description");
    reveal_strlit("properties");
    reveal_strlit("all");
    reveal_strlit("selector");
    reveal_strlit("schema");
    reveal_strlit("devices");
    reveal_strlit("capabilities");
    reveal_strlit("require_cuda");
    reveal_strlit("boolean");
    reveal_strlit("object");
    reveal_strlit("string");
    reveal_strlit("GPUs this container gets, by UUID");
    reveal_strlit("What the driver is used for; the default is compute and utility");
    reveal_strlit("e.g. 12.8 - the container refuses to start on an older host driver");
}

proof fn lemma_boolean_size(default: bool, description: Option<Seq<char>>)
    ensures
        yaml::size(boolean_tree(default, description)) <= match description {
            Some(d) => 36 + d.len(),
            None => 23,
        },
{
    lemma_lengths();
    let a = ("type"@, Tree::Text("boolean"@));
    let b = ("default"@, Tree::Bool(default));
    match description {
        Some(d) => {
            let c = ("description"@, Tree::Text(d));
            assert(seq![a, b] + seq![c] =~= seq![a, b, c]);
            lemma_map_size_of(a, b, c);
        },
        None => {
            assert(seq![a, b] + Seq::empty() =~= seq![a, b]);
            lemma_map_size_of(a, b, b);
        },
    }
}

proof fn lemma_rows_size(gpus: Seq<Card>)
    ensures
        pairs_size(device_rows(gpus)) <= cards_size(gpus),
    decreases gpus.len(),
{
    if gpus.len() > 0 {
        lemma_rows_size(gpus.drop_last());
        assert(device_rows(gpus).drop_last() =~= device_rows(gpus.drop_last()));
        lemma_boolean_size(false, Some(inventory::description(gpus.last())));
    }
}

/// Named values of at most `n` each.
proof fn lemma_pairs_bound(pairs: Seq<(Seq<char>, Tree)>, n: nat)
    requires
        forall|i: int|
            0 <= i < pairs.len() ==> 1 + (#[trigger] pairs[i]).0.len() + yaml::size(pairs[i].1)
                <= n,
    ensures
        pairs_size(pairs) <= pairs.len() * n,
    decreases pairs.len(),
{
    if pairs.len() > 0 {
        let init = pairs.drop_last();
        assert forall|i: int| 0 <= i < init.len() implies 1 + (#[trigger] init[i]).0.len()
            + yaml::size(init[i].1) <= n by {
            assert(init[i] == pairs[i]);
        }
        lemma_pairs_bound(init, n);
        assert(1 + pairs[pairs.len() - 1].0.len() + yaml::size(pairs[pairs.len() - 1].1) <= n);
        assert(init.len() * n + n == pairs.len() * n) by (nonlinear_arith)
            requires
                init.len() + 1 == pairs.len(),
        ;
    }
}

proof fn lemma_capabilities_size()
    ensures
        yaml::size(map_tree(capability_rows())) <= 241,
{
    let rows = capability_rows();
    doc::lemma_capability_names();
    reveal_strlit("compute");
    reveal_strlit("compat32");
    reveal_strlit("display");
    reveal_strlit("graphics");
    reveal_strlit("utility");
    reveal_strlit("video");
    assert forall|i: int| 0 <= i < rows.len() implies 1 + (#[trigger] rows[i]).0.len()
        + yaml::size(rows[i].1) <= 40 by {
        let c = doc::all_capabilities()[i];
        lemma_boolean_size(text::views(DEFAULT_CAPABILITIES@).contains(c), None);
        assert(c.len() <= 8);
    }
    lemma_pairs_bound(rows, 40);
    lemma_map_size(rows);
}

/// The whole file is no larger than its parts.
proof fn lemma_file_size(node: Seq<char>, inv: Facts)
    ensures
        yaml::size(file_of(node, inv)) <= FRAME + title(node).len() + cards_size(inv.gpus),
{
    lemma_lengths();
    lemma_rows_size(inv.gpus);
    lemma_map_size(device_rows(inv.gpus));
    lemma_capabilities_size();
    let kind = ("type"@, Tree::Text("object"@));
    lemma_map_size_of(
        kind,
        ("description"@, Tree::Text("GPUs this container gets, by UUID"@)),
        ("properties"@, map_tree(device_rows(inv.gpus))),
    );
    lemma_map_size_of(
        kind,
        (
            "description"@,
            Tree::Text("What the driver is used for; the default is compute and utility"@),
        ),
        ("properties"@, map_tree(capability_rows())),
    );
    lemma_map_size_of(
        ("type"@, Tree::Text("string"@)),
        (
            "description"@,
            Tree::Text("e.g. 12.8 - the container refuses to start on an older host driver"@),
        ),
        kind,
    );
    let fields = seq![
        ("devices"@, devices_tree(inv.gpus)),
        ("capabilities"@, capabilities_tree()),
        ("require_cuda"@, cuda_tree()),
    ];
    lemma_map_size_of(
        ("devices"@, devices_tree(inv.gpus)),
        ("capabilities"@, capabilities_tree()),
        ("require_cuda"@, cuda_tree()),
    );
    let schema = seq![kind, ("properties"@, map_tree(fields))];
    lemma_map_size_of(kind, ("properties"@, map_tree(fields)), kind);
    let all = ("all"@, Tree::Bool(true));
    lemma_map_size_of(all, all, all);
    lemma_map_size_of(
        ("description"@, Tree::Text(title(node))),
        ("selector"@, map_tree(seq![all])),
        ("schema"@, map_tree(schema)),
    );
}

/// The text of the prefix file a node should have.
pub open spec fn text_of(node: Seq<char>, inv: Facts) -> Seq<char> {
    yaml::yaml_write(file_of(node, inv))->Ok_0
}

/// The prefix file this node should have, as YAML text. Where it says nothing
/// but plain text, reading it gives the file back.
pub fn render(node: &str, inv: &Inventory) -> (r: String)
    requires
        fits(node@, inv@),
    ensures
        yaml::yaml_write(file_of(node@, inv@)) == Ok::<Seq<char>, Seq<char>>(r@),
        r@ == text_of(node@, inv@),
        plain(node@, inv@) ==> yaml::yaml_read(r@) == Ok::<Tree, Seq<char>>(file_of(node@, inv@)),
{
    let file = file(node, inv);
    proof {
        lemma_fixed();
        lemma_file_size(node@, inv@);
        lemma_file_shaped(
            node@,
            inv@,
            |s: Seq<char>| true,
            |s: Seq<char>| true,
        );
        if plain(node@, inv@) {
            lemma_file_shaped(
                node@,
                inv@,
                |s: Seq<char>| yaml::plain_key(s),
                |s: Seq<char>| yaml::plain(s),
            );
        }
    }
    yaml::to_string(&file).unwrap()
}

/// Whether the file is small enough to be written down.
pub fn is_small(node: &str, inv: &Inventory) -> (r: bool)
    ensures
        r == fits(node@, inv@),
{
    let ghost gpus = inv@.gpus;
    let first = "NVIDIA GPUs on ".to_owned().concat(node).concat(" (written by pve-meta-nvidia)");
    let mut left: usize = yaml::LARGEST - FRAME;
    let len: usize = first.as_str().unicode_len();
    if len > left {
        return false;
    }
    left -= len;
    let mut i: usize = 0;
    proof {
        assert(gpus.take(0) =~= Seq::empty());
    }
    while i < inv.gpus.len()
        invariant
            i <= inv.gpus@.len(),
            gpus == inventory::all_cards(inv.gpus@),
            left + FRAME + title(node@).len() + cards_size(gpus.take(i as int)) == yaml::LARGEST,
        decreases inv.gpus.len() - i,
    {
        let description = inv.gpus[i].describe();
        let uuid: usize = inv.gpus[i].uuid.as_str().unicode_len();
        let text: usize = description.as_str().unicode_len();
        proof {
            assert(gpus.take(i + 1).drop_last() =~= gpus.take(i as int));
            assert(gpus.take(i + 1).last() == inv.gpus@[i as int]@);
            lemma_cards_size(gpus, i + 1);
        }
        if left < ROW || uuid > left - ROW || text > left - ROW - uuid {
            return false;
        }
        left -= ROW + uuid + text;
        i += 1;
    }
    proof {
        assert(gpus.take(gpus.len() as int) =~= gpus);
    }
    true
}

/// Some of the cards take no more than all of them.
proof fn lemma_cards_size(gpus: Seq<Card>, n: int)
    requires
        0 <= n <= gpus.len(),
    ensures
        cards_size(gpus.take(n)) <= cards_size(gpus),
    decreases gpus.len() - n,
{
    if n == gpus.len() {
        assert(gpus.take(n) =~= gpus);
    } else {
        lemma_cards_size(gpus, n + 1);
        assert(gpus.take(n + 1).drop_last() =~= gpus.take(n));
    }
}

// ---------------------------------------------------------------------------
// Keeping the file true.
// ---------------------------------------------------------------------------

/// What [`sync`] did.
#[derive(Debug, Clone, Copy, PartialEq, Eq, Structural)]
pub enum Action {
    /// The file was written.
    Written,
    Unchanged,
    Removed,
    Absent,
    /// The driver is not loaded, so the file was left exactly as it is.
    Kept,
}

/// What [`sync`] should do, given the inventory and the file as it is.
#[derive(Debug, Clone, PartialEq, Eq)]
pub enum Step {
    Write(String),
    Unchanged,
    Remove,
    Absent,
    Keep,
}

/// What a [`Step`] says.
pub enum StepView {
    Write(Seq<char>),
    Unchanged,
    Remove,
    Absent,
    Keep,
}

impl View for Step {
    type V = StepView;

    open spec fn view(&self) -> StepView {
        match self {
            Step::Write(s) => StepView::Write(s@),
            Step::Unchanged => StepView::Unchanged,
            Step::Remove => StepView::Remove,
            Step::Absent => StepView::Absent,
            Step::Keep => StepView::Keep,
        }
    }
}

/// What should be done with a node's file, given the inventory and the file
/// as it is.
pub open spec fn decided(node: Seq<char>, inv: Facts, current: Option<Seq<char>>) -> StepView {
    if !inv.driver {
        StepView::Keep
    } else if inv.gpus.len() == 0 {
        match current {
            Some(_) => StepView::Remove,
            None => StepView::Absent,
        }
    } else {
        let text = text_of(node, inv);
        match current {
            Some(c) => if yaml::same_text(c, text) {
                StepView::Unchanged
            } else {
                StepView::Write(text)
            },
            None => StepView::Write(text),
        }
    }
}

/// Whether there is a file to be written at all.
pub open spec fn has_file(inv: Facts) -> bool {
    inv.driver && inv.gpus.len() > 0
}

/// Whether a text is a YAML document that says what the node's file should.
pub open spec fn says_it(node: Seq<char>, inv: Facts, current: Seq<char>) -> bool {
    match yaml::yaml_read(current) {
        Ok(t) => yaml::same(t, file_of(node, inv)),
        Err(_) => false,
    }
}

/// Whether two prefix files say the same thing. Compared as documents, not as
/// text: key order is not meaning, and the stored file may carry comment keys
/// a read never shows.
pub fn same(a: &str, b: &str) -> (r: bool)
    ensures
        r == yaml::same_text(a@, b@),
{
    yaml::texts_say_the_same(a, b)
}

/// The decision, without doing anything.
///
/// **A node whose driver is not loaded keeps its file.** A driver package
/// upgrade takes `/proc/driver/nvidia` away for a few seconds; deleting the
/// prefix document there would empty the editor's rows for every guest on the
/// node and move pve-meta's version token twice, waking every operator in the
/// cluster, for a node that is about to have the same cards again. The file is
/// removed only when the driver is loaded and really has no cards.
///
/// A file that says nothing but plain text is written exactly when the stored
/// one says something else.
pub fn decide(node: &str, inv: &Inventory, current: Option<&str>) -> (r: Step)
    requires
        has_file(inv@) ==> fits(node@, inv@),
    ensures
        r@ == decided(node@, inv@, text::opt_view(current)),
        has_file(inv@) && plain(node@, inv@) ==> (r is Unchanged <==> current is Some && says_it(
            node@,
            inv@,
            current->Some_0@,
        )),
{
    if !inv.driver_loaded() {
        return Step::Keep;
    }
    if inv.gpus.len() == 0 {
        return match current {
            Some(_) => Step::Remove,
            None => Step::Absent,
        };
    }
    let text = render(node, inv);
    let same: Option<bool> = match current {
        Some(c) => Some(same(c, text.as_str())),
        None => None,
    };
    step_for(text, same)
}

/// What should be done where the node has cards: `text` is the file it should
/// have, `same` whether the file it has, if it has one, says the same.
pub fn step_for(text: String, same: Option<bool>) -> (r: Step)
    ensures
        r@ == if same == Some(true) {
            StepView::Unchanged
        } else {
            StepView::Write(text@)
        },
{
    match same {
        Some(true) => Step::Unchanged,
        _ => Step::Write(text),
    }
}

/// The arguments of the `pve-meta` call that reads the file.
pub fn read_args(node: &str) -> (r: Vec<String>)
    ensures
        text::texts(r@) == seq!["get"@, id_of(node@), "--format"@, "yaml"@],
{
    let mut r: Vec<String> = Vec::new();
    r.push("get".to_owned());
    r.push(doc_id(node));
    r.push("--format".to_owned());
    r.push("yaml".to_owned());
    proof {
        assert(text::texts(r@) =~= seq!["get"@, id_of(node@), "--format"@, "yaml"@]);
    }
    r
}

/// What a finished `pve-meta get` says of the file: its text, or that there is
/// none.
pub open spec fn stored(node: Seq<char>, out: Said) -> Result<Option<Seq<char>>, Seq<char>> {
    if out.status == 0 {
        Ok(Some(out.stdout))
    } else if out.status == 2 {
        Ok(None)
    } else {
        Err(
            "pve-meta get "@ + id_of(node) + " failed (exit "@ + text::signed(out.status as int)
                + "): "@ + text::trim(out.stderr),
        )
    }
}

/// This node's prefix file out of what `pve-meta` answered, `None` when there
/// is none. A call that could not finish is its own error.
pub fn read(node: &str, out: Result<Output, String>) -> (r: Result<Option<String>, String>)
    ensures
        match (out, r) {
            (Ok(o), Ok(t)) => stored(node@, o@) == Ok::<Option<Seq<char>>, Seq<char>>(
                text::opt_text(t),
            ),
            (Ok(o), Err(e)) => stored(node@, o@) == Err::<Option<Seq<char>>, Seq<char>>(e@),
            (Err(why), Err(e)) => e@ == why@,
            (Err(_), Ok(_)) => false,
        },
{
    match out {
        Err(e) => Err(e),
        Ok(out) => if out.status == 0 {
            Ok(Some(out.stdout))
        } else if out.status == 2 {
            Ok(None)
        } else {
            Err(
                "pve-meta get ".to_owned().concat(doc_id(node).as_str()).concat(
                    " failed (exit ",
                ).concat(text::signed_of(out.status).as_str()).concat("): ").concat(
                    text::trimmed(out.stderr.as_str()),
                ),
            )
        },
    }
}

/// What is left to be done once the file was read.
#[derive(Debug)]
pub enum Task {
    /// Nothing: this is what was done.
    Done(Action),
    /// `pve-meta` is to be called with these arguments, and [`removed`] says
    /// what came of it.
    Delete(Vec<String>),
    /// `pve-meta` is to be called with these arguments, and [`written`] says
    /// what came of it.
    Store(Vec<String>),
}

/// What a [`Task`] says.
pub enum TaskView {
    Done(Action),
    Delete(Seq<Seq<char>>),
    Store(Seq<Seq<char>>),
}

impl View for Task {
    type V = TaskView;

    open spec fn view(&self) -> TaskView {
        match self {
            Task::Done(a) => TaskView::Done(*a),
            Task::Delete(args) => TaskView::Delete(text::texts(args@)),
            Task::Store(args) => TaskView::Store(text::texts(args@)),
        }
    }
}

/// The task a decision comes to.
pub open spec fn task_of(node: Seq<char>, step: StepView) -> TaskView {
    match step {
        StepView::Keep => TaskView::Done(Action::Kept),
        StepView::Absent => TaskView::Done(Action::Absent),
        StepView::Unchanged => TaskView::Done(Action::Unchanged),
        StepView::Remove => TaskView::Delete(seq!["delete"@, id_of(node)]),
        StepView::Write(text) => TaskView::Store(seq!["set"@, id_of(node), "--text"@, text]),
    }
}

/// Whether the store is asked at all: a driverless node does not even ask it,
/// and what was done is [`Action::Kept`].
pub fn asks_store(inv: &Inventory) -> (r: bool)
    ensures
        r == inv@.driver,
        !r ==> forall|node: Seq<char>, current: Option<Seq<char>>| #[trigger]
            decided(node, inv@, current) == StepView::Keep,
{
    inv.driver_loaded()
}

/// Makes this node's prefix file say what the inventory found: `out` is how
/// the call that reads the file ended.
///
/// The text is handed over as an argument, not through a file: the document is
/// a kilobyte of generated YAML, and a root process that writes a staging file
/// at a predictable path is one symlink away from truncating something else.
pub fn sync(node: &str, inv: &Inventory, out: Result<Output, String>) -> (r: Result<Task, String>)
    requires
        has_file(inv@) ==> fits(node@, inv@),
    ensures
        match (out, r) {
            (Ok(o), Ok(t)) => stored(node@, o@) is Ok && t@ == task_of(
                node@,
                decided(node@, inv@, stored(node@, o@)->Ok_0),
            ),
            (Ok(o), Err(e)) => stored(node@, o@) == Err::<Option<Seq<char>>, Seq<char>>(e@),
            (Err(why), Err(e)) => e@ == why@,
            (Err(_), Ok(_)) => false,
        },
{
    let current = match read(node, out) {
        Ok(current) => current,
        Err(e) => {
            return Err(e);
        },
    };
    let now: Option<&str> = match &current {
        Some(s) => Some(s.as_str()),
        None => None,
    };
    Ok(
        match decide(node, inv, now) {
            Step::Keep => Task::Done(Action::Kept),
            Step::Absent => Task::Done(Action::Absent),
            Step::Unchanged => Task::Done(Action::Unchanged),
            Step::Remove => {
                let mut args: Vec<String> = Vec::new();
                args.push("delete".to_owned());
                args.push(doc_id(node));
                proof {
                    assert(text::texts(args@) =~= seq!["delete"@, id_of(node@)]);
                }
                Task::Delete(args)
            },
            Step::Write(text) => {
                let ghost wanted = text@;
                let mut args: Vec<String> = Vec::new();
                args.push("set".to_owned());
                args.push(doc_id(node));
                args.push("--text".to_owned());
                args.push(text);
                proof {
                    assert(text::texts(args@) =~= seq![
                        "set"@,
                        id_of(node@),
                        "--text"@,
                        wanted,
                    ]);
                }
                Task::Store(args)
            },
        },
    )
}

/// What a finished `pve-meta delete` did.
pub open spec fn removal(node: Seq<char>, out: Said) -> Result<Action, Seq<char>> {
    if out.status == 0 {
        Ok(Action::Removed)
    } else if out.status == 2 {
        Ok(Action::Absent)
    } else {
        Err(
            "pve-meta delete "@ + id_of(node) + " failed (exit "@ + text::signed(out.status as int)
                + "): "@ + text::trim(out.stderr),
        )
    }
}

/// What the call that removes the file did.
pub fn removed(node: &str, out: Result<Output, String>) -> (r: Result<Action, String>)
    ensures
        match (out, r) {
            (Ok(o), Ok(a)) => removal(node@, o@) == Ok::<Action, Seq<char>>(a),
            (Ok(o), Err(e)) => removal(node@, o@) == Err::<Action, Seq<char>>(e@),
            (Err(why), Err(e)) => e@ == why@,
            (Err(_), Ok(_)) => false,
        },
{
    match out {
        Err(e) => Err(e),
        Ok(out) => if out.status == 0 {
            Ok(Action::Removed)
        } else if out.status == 2 {
            Ok(Action::Absent)
        } else {
            Err(
                "pve-meta delete ".to_owned().concat(doc_id(node).as_str()).concat(
                    " failed (exit ",
                ).concat(text::signed_of(out.status).as_str()).concat("): ").concat(
                    text::trimmed(out.stderr.as_str()),
                ),
            )
        },
    }
}

/// What the call that writes the file did: it was called with `args`.
pub fn written(args: &Vec<String>, out: Result<Output, String>) -> (r: Result<Action, String>)
    ensures
        match (out, r) {
            (Ok(o), Ok(a)) => o.status == 0 && a == Action::Written,
            (Ok(o), Err(e)) => o.status != 0 && e@ == cmd::failure(
                "pve-meta"@,
                text::texts(args@),
                o@,
            ),
            (Err(why), Err(e)) => e@ == why@,
            (Err(_), Ok(_)) => false,
        },
{
    let args = text::slices(args);
    match cmd::run("pve-meta", args.as_slice(), out) {
        Ok(_) => Ok(Action::Written),
        Err(e) => Err(e),
    }
}

/// A node whose driver is not loaded keeps its file, whatever it says; a file
/// is removed only where the driver is loaded and has no cards.
pub proof fn law_a_driver_that_is_away_keeps_the_file(
    node: Seq<char>,
    inv: Facts,
    current: Option<Seq<char>>,
)
    ensures
        !inv.driver <==> decided(node, inv, current) == StepView::Keep,
        decided(node, inv, current) == StepView::Remove ==> inv.driver && inv.gpus.len() == 0
            && current is Some,
{
}

/// Every card has a row of its own name.
pub proof fn law_every_card_has_a_row(gpus: Seq<Card>, i: int)
    requires
        0 <= i < gpus.len(),
    ensures
        exists|j: int|
            0 <= j < filled(device_rows(gpus)).len() && (#[trigger] filled(
                device_rows(gpus),
            )[j]).0 == Tree::Text(gpus[i].uuid),
    decreases gpus.len(),
{
    let init = gpus.drop_last();
    let rows = device_rows(gpus);
    let before = filled(device_rows(init));
    let after = filled(rows);
    let last = gpus.last().uuid;
    assert(rows.drop_last() =~= device_rows(init));
    assert(rows.last().0 == last);
    lemma_position(before, last);
    if i < init.len() {
        law_every_card_has_a_row(init, i);
        let j = choose|j: int|
            0 <= j < before.len() && (#[trigger] before[j]).0 == Tree::Text(init[i].uuid);
        assert(after[j].0 == before[j].0);
    } else {
        assert(after[yaml::position(before, last) as int].0 == Tree::Text(last));
    }
}

/// Every capability the document parser accepts has a row, and no other.
pub proof fn law_every_capability_has_a_row()
    ensures
        capability_rows().map_values(|r: (Seq<char>, Tree)| r.0) == doc::all_capabilities(),
{
    assert(capability_rows().map_values(|r: (Seq<char>, Tree)| r.0) =~= doc::all_capabilities());
}

} // verus!
