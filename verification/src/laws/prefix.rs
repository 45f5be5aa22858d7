//! What a node's prefix file says, and when it is written.

use vstd::prelude::*;

use crate::cmd::Said;
use crate::doc;
use crate::inventory::{description, Card, Facts};
use crate::prefix::{
    self, boolean_tree, capabilities_tree, capability_rows, cuda_tree, decided, device_rows,
    devices_tree, file_of, filled, id_of, map_tree, removal, stored, task_of, text_of, title,
    Action, StepView, TaskView,
};
use crate::text;
use crate::yaml::{self, Tree};

verus! {

// ---------------------------------------------------------------------------
// What the file says.
// ---------------------------------------------------------------------------

/// The one entry for `key` is at `i`, and is `v`.
pub open spec fn entry_at(m: Seq<(Tree, Tree)>, i: int, key: Seq<char>, v: Tree) -> bool {
    &&& 0 <= i < m.len()
    &&& m[i].0 == Tree::Text(key)
    &&& m[i].1 == v
    &&& forall|j: int| 0 <= j < m.len() && j != i ==> (#[trigger] m[j]).0 != Tree::Text(key)
}

/// `t` is a mapping whose one entry for `key` is `v`.
pub open spec fn gives(t: Tree, key: Seq<char>, v: Tree) -> bool {
    t is Mapping && exists|i: int| #[trigger] entry_at(t->Mapping_0, i, key, v)
}

/// `v` is what `t` says below the keys of `path`.
pub open spec fn says_below(t: Tree, path: Seq<Seq<char>>, v: Tree) -> bool
    decreases path.len(),
{
    if path.len() == 0 {
        t == v
    } else {
        exists|c: Tree| #[trigger] gives(t, path[0], c) && says_below(c, path.skip(1), v)
    }
}

proof fn lemma_below(t: Tree, key: Seq<char>, c: Tree, path: Seq<Seq<char>>, v: Tree)
    requires
        gives(t, key, c),
        says_below(c, path, v),
    ensures
        says_below(t, seq![key] + path, v),
{
    let whole = seq![key] + path;
    assert(whole.skip(1) =~= path);
    assert(whole[0] == key);
}

/// No key of a filled mapping is there twice.
proof fn lemma_filled_distinct(pairs: Seq<(Seq<char>, Tree)>)
    ensures
        forall|i: int, j: int|
            #![trigger filled(pairs)[i], filled(pairs)[j]]
            0 <= i < j < filled(pairs).len() ==> filled(pairs)[i].0 != filled(pairs)[j].0,
        forall|i: int|
            0 <= i < filled(pairs).len() ==> exists|j: int|
                #![trigger pairs[j]]
                0 <= j < pairs.len() && (#[trigger] filled(pairs)[i]) == (
                    Tree::Text(pairs[j].0),
                    pairs[j].1,
                ),
    decreases pairs.len(),
{
    if pairs.len() > 0 {
        let t = pairs.drop_last();
        let (k, v) = pairs.last();
        lemma_filled_distinct(t);
        let m = filled(t);
        let n = filled(pairs);
        prefix::lemma_position(m, k);
        let p = yaml::position(m, k) as int;
        assert(pairs[pairs.len() - 1] == (k, v));
        assert forall|i: int| 0 <= i < n.len() implies exists|j: int|
            #![trigger pairs[j]]
            0 <= j < pairs.len() && (#[trigger] n[i]) == (Tree::Text(pairs[j].0), pairs[j].1) by {
            if i != p {
                assert(n[i] == m[i]);
                let j = choose|j: int|
                    #![trigger t[j]]
                    0 <= j < t.len() && m[i] == (Tree::Text(t[j].0), t[j].1);
                assert(pairs[j] == t[j]);
            }
        }
        assert forall|i: int, j: int|
            #![trigger n[i], n[j]]
            0 <= i < j < n.len() implies n[i].0 != n[j].0 by {
            if i != p && j != p {
                assert(n[i] == m[i] && n[j] == m[j]);
            } else if i == p {
                assert(n[j] == m[j]);
                if p < m.len() {
                    assert(m[p].0 != m[j].0);
                }
            } else {
                assert(n[i] == m[i]);
            }
        }
    }
}

/// The last pair for a key is what a filled mapping gives it.
proof fn lemma_filled_gives(pairs: Seq<(Seq<char>, Tree)>, i: int)
    requires
        0 <= i < pairs.len(),
        forall|j: int| i < j < pairs.len() ==> (#[trigger] pairs[j]).0 != pairs[i].0,
    ensures
        gives(map_tree(pairs), pairs[i].0, pairs[i].1),
    decreases pairs.len(),
{
    let t = pairs.drop_last();
    let (k, v) = pairs.last();
    let m = filled(t);
    let n = filled(pairs);
    let key = pairs[i].0;
    prefix::lemma_position(m, k);
    let p = yaml::position(m, k) as int;
    lemma_filled_distinct(pairs);
    let at: int = if i == pairs.len() - 1 {
        p
    } else {
        assert(t[i] == pairs[i]);
        assert forall|j: int| i < j < t.len() implies (#[trigger] t[j]).0 != t[i].0 by {
            assert(pairs[j] == t[j]);
        }
        lemma_filled_gives(t, i);
        let q = choose|q: int| #[trigger] entry_at(m, q, key, pairs[i].1);
        assert(pairs[pairs.len() - 1].0 != key);
        assert(q != p);
        q
    };
    assert(0 <= at < n.len());
    assert(n[at] == (Tree::Text(key), pairs[i].1));
    assert forall|j: int| 0 <= j < n.len() && j != at implies (#[trigger] n[j]).0 != Tree::Text(
        key,
    ) by {
        if j < at {
            assert(n[j].0 != n[at].0);
        } else {
            assert(n[at].0 != n[j].0);
        }
    }
    let t = map_tree(pairs);
    assert(t is Mapping);
    assert(t->Mapping_0 == n);
    assert(entry_at(t->Mapping_0, at, key, pairs[i].1));
}

proof fn lemma_one(a: (Seq<char>, Tree))
    ensures
        gives(map_tree(seq![a]), a.0, a.1),
{
    lemma_filled_gives(seq![a], 0);
}

proof fn lemma_two(a: (Seq<char>, Tree), b: (Seq<char>, Tree))
    requires
        a.0 != b.0,
    ensures
        gives(map_tree(seq![a, b]), a.0, a.1),
        gives(map_tree(seq![a, b]), b.0, b.1),
{
    lemma_filled_gives(seq![a, b], 0);
    lemma_filled_gives(seq![a, b], 1);
}

proof fn lemma_three(a: (Seq<char>, Tree), b: (Seq<char>, Tree), c: (Seq<char>, Tree))
    requires
        a.0 != b.0,
        a.0 != c.0,
        b.0 != c.0,
    ensures
        gives(map_tree(seq![a, b, c]), a.0, a.1),
        gives(map_tree(seq![a, b, c]), b.0, b.1),
        gives(map_tree(seq![a, b, c]), c.0, c.1),
{
    lemma_filled_gives(seq![a, b, c], 0);
    lemma_filled_gives(seq![a, b, c], 1);
    lemma_filled_gives(seq![a, b, c], 2);
}

proof fn lemma_words_differ()
    ensures
        "type"@ != "default"@,
        "type"@ != "description"@,
        "default"@ != "description"@,
        "type"@ != "properties"@,
        "description"@ != "properties"@,
        "devices"@ != "capabilities"@,
        "devices"@ != "require_cuda"@,
        "capabilities"@ != "require_cuda"@,
        "description"@ != "selector"@,
        "description"@ != "schema"@,
        "selector"@ != "schema"@,
{
    reveal_strlit("type");
    reveal_strlit("default");
    reveal_strlit("description");
    reveal_strlit("properties");
    reveal_strlit("devices");
    reveal_strlit("capabilities");
    reveal_strlit("require_cuda");
    reveal_strlit("selector");
    reveal_strlit("schema");
    assert("type"@.len() == 4 && "default"@.len() == 7 && "description"@.len() == 11);
    assert("properties"@.len() == 10 && "devices"@.len() == 7 && "capabilities"@.len() == 12);
    assert("require_cuda"@.len() == 12 && "selector"@.len() == 8 && "schema"@.len() == 6);
    assert("capabilities"@[0] == 'c' && "require_cuda"@[0] == 'r');
}

/// The schema of a boolean has that type, its default and its description.
proof fn lemma_boolean(default: bool, about: Option<Seq<char>>)
    ensures
        gives(boolean_tree(default, about), "type"@, Tree::Text("boolean"@)),
        gives(boolean_tree(default, about), "default"@, Tree::Bool(default)),
        about matches Some(d) ==> gives(
            boolean_tree(default, about),
            "description"@,
            Tree::Text(d),
        ),
{
    lemma_words_differ();
    let a = ("type"@, Tree::Text("boolean"@));
    let b = ("default"@, Tree::Bool(default));
    match about {
        Some(d) => {
            let c = ("description"@, Tree::Text(d));
            assert(seq![a, b] + seq![c] =~= seq![a, b, c]);
            lemma_three(a, b, c);
        },
        None => {
            assert(seq![a, b] + Seq::empty() =~= seq![a, b]);
            lemma_two(a, b);
        },
    }
}

/// The parts of the file.
proof fn lemma_file(node: Seq<char>, inv: Facts)
    ensures
        gives(file_of(node, inv), "description"@, Tree::Text(title(node))),
        gives(file_of(node, inv), "selector"@, map_tree(seq![("all"@, Tree::Bool(true))])),
        exists|schema: Tree, props: Tree|
            #![trigger gives(file_of(node, inv), "schema"@, schema), gives(schema, "properties"@, props)]
            {
                &&& gives(file_of(node, inv), "schema"@, schema)
                &&& gives(schema, "type"@, Tree::Text("object"@))
                &&& gives(schema, "properties"@, props)
                &&& gives(props, "devices"@, devices_tree(inv.gpus))
                &&& gives(props, "capabilities"@, capabilities_tree())
                &&& gives(props, "require_cuda"@, cuda_tree())
            },
{
    lemma_words_differ();
    let d = ("devices"@, devices_tree(inv.gpus));
    let c = ("capabilities"@, capabilities_tree());
    let q = ("require_cuda"@, cuda_tree());
    lemma_three(d, c, q);
    let props = map_tree(seq![d, c, q]);
    let a = ("type"@, Tree::Text("object"@));
    let b = ("properties"@, props);
    lemma_two(a, b);
    let schema = map_tree(seq![a, b]);
    lemma_three(
        ("description"@, Tree::Text(title(node))),
        ("selector"@, map_tree(seq![("all"@, Tree::Bool(true))])),
        ("schema"@, schema),
    );
    assert(gives(file_of(node, inv), "schema"@, schema));
}

/// What the file says below `properties` of its schema.
proof fn lemma_below_properties(
    node: Seq<char>,
    inv: Facts,
    key: Seq<char>,
    c: Tree,
    path: Seq<Seq<char>>,
    v: Tree,
)
    requires
        says_below(c, path, v),
        key == "devices"@ && c == devices_tree(inv.gpus) || key == "capabilities"@ && c
            == capabilities_tree() || key == "require_cuda"@ && c == cuda_tree(),
    ensures
        says_below(file_of(node, inv), seq!["schema"@, "properties"@, key] + path, v),
{
    lemma_file(node, inv);
    let (schema, props) = choose|schema: Tree, props: Tree|
        #![trigger gives(file_of(node, inv), "schema"@, schema), gives(schema, "properties"@, props)]
        {
            &&& gives(file_of(node, inv), "schema"@, schema)
            &&& gives(schema, "type"@, Tree::Text("object"@))
            &&& gives(schema, "properties"@, props)
            &&& gives(props, "devices"@, devices_tree(inv.gpus))
            &&& gives(props, "capabilities"@, capabilities_tree())
            &&& gives(props, "require_cuda"@, cuda_tree())
        };
    lemma_below(props, key, c, path, v);
    lemma_below(schema, "properties"@, props, seq![key] + path, v);
    lemma_below(
        file_of(node, inv),
        "schema"@,
        schema,
        seq!["properties"@] + (seq![key] + path),
        v,
    );
    assert(seq!["schema"@] + (seq!["properties"@] + (seq![key] + path)) =~= seq![
        "schema"@,
        "properties"@,
        key,
    ] + path);
}

/// The tree itself is what is said below no key.
proof fn lemma_here(t: Tree)
    ensures
        says_below(t, Seq::empty(), t),
{
}

/// Below a key and one more.
proof fn lemma_below_two(t: Tree, a: Seq<char>, c: Tree, b: Seq<char>, v: Tree)
    requires
        gives(t, a, c),
        gives(c, b, v),
    ensures
        says_below(t, seq![a, b], v),
        says_below(c, seq![b], v),
{
    lemma_here(v);
    lemma_below(c, b, v, Seq::empty(), v);
    assert(seq![b] + Seq::empty() =~= seq![b]);
    lemma_below(t, a, c, seq![b], v);
    assert(seq![a] + seq![b] =~= seq![a, b]);
}

/// The file is for every guest, and names the node and this tool. Its schema
/// offers a switch for every card of the node, off by default and described by
/// the card.
pub proof fn law_every_card_is_offered(node: Seq<char>, inv: Facts, i: int)
    requires
        0 <= i < inv.gpus.len(),
        forall|j: int| i < j < inv.gpus.len() ==> (#[trigger] inv.gpus[j]).uuid
            != inv.gpus[i].uuid,
    ensures
        says_below(
            file_of(node, inv),
            seq!["description"@],
            Tree::Text("NVIDIA GPUs on "@ + node + " (written by pve-meta-nvidia)"@),
        ),
        says_below(file_of(node, inv), seq!["selector"@, "all"@], Tree::Bool(true)),
        ({
            let row = seq![
                "schema"@,
                "properties"@,
                "devices"@,
                "properties"@,
                inv.gpus[i].uuid,
            ];
            &&& says_below(file_of(node, inv), row + seq!["type"@], Tree::Text("boolean"@))
            &&& says_below(file_of(node, inv), row + seq!["default"@], Tree::Bool(false))
            &&& says_below(
                file_of(node, inv),
                row + seq!["description"@],
                Tree::Text(description(inv.gpus[i])),
            )
        }),
{
    let f = file_of(node, inv);
    lemma_file(node, inv);
    lemma_words_differ();
    lemma_here(Tree::Text(title(node)));
    lemma_below(
        f,
        "description"@,
        Tree::Text(title(node)),
        Seq::empty(),
        Tree::Text(title(node)),
    );
    assert(seq!["description"@] + Seq::empty() =~= seq!["description"@]);
    lemma_one(("all"@, Tree::Bool(true)));
    lemma_below_two(
        f,
        "selector"@,
        map_tree(seq![("all"@, Tree::Bool(true))]),
        "all"@,
        Tree::Bool(true),
    );
    let rows = device_rows(inv.gpus);
    let uuid = inv.gpus[i].uuid;
    let about = Some(description(inv.gpus[i]));
    let row = boolean_tree(false, about);
    assert(rows[i] == (uuid, row));
    assert forall|j: int| i < j < rows.len() implies (#[trigger] rows[j]).0 != rows[i].0 by {
        assert(inv.gpus[j].uuid != uuid);
    }
    lemma_filled_gives(rows, i);
    lemma_boolean(false, about);
    lemma_device_row(node, inv, uuid, row, "type"@, Tree::Text("boolean"@));
    lemma_device_row(node, inv, uuid, row, "default"@, Tree::Bool(false));
    lemma_device_row(
        node,
        inv,
        uuid,
        row,
        "description"@,
        Tree::Text(description(inv.gpus[i])),
    );
}

proof fn lemma_device_row(
    node: Seq<char>,
    inv: Facts,
    uuid: Seq<char>,
    row: Tree,
    key: Seq<char>,
    v: Tree,
)
    requires
        gives(map_tree(device_rows(inv.gpus)), uuid, row),
        gives(row, key, v),
    ensures
        says_below(
            file_of(node, inv),
            seq!["schema"@, "properties"@, "devices"@, "properties"@, uuid] + seq![key],
            v,
        ),
{
    lemma_words_differ();
    let rows = map_tree(device_rows(inv.gpus));
    let d = devices_tree(inv.gpus);
    lemma_three(
        ("type"@, Tree::Text("object"@)),
        ("description"@, Tree::Text("GPUs this container gets, by UUID"@)),
        ("properties"@, rows),
    );
    lemma_below_two(rows, uuid, row, key, v);
    lemma_below(d, "properties"@, rows, seq![uuid, key], v);
    let path = seq!["properties"@] + seq![uuid, key];
    lemma_below_properties(node, inv, "devices"@, d, path, v);
    assert(seq!["schema"@, "properties"@, "devices"@] + path =~= seq![
        "schema"@,
        "properties"@,
        "devices"@,
        "properties"@,
        uuid,
    ] + seq![key]);
}

/// No switch is offered for anything but a card of the node.
pub proof fn law_only_cards_are_offered(gpus: Seq<Card>, i: int)
    requires
        0 <= i < filled(device_rows(gpus)).len(),
    ensures
        exists|j: int|
            0 <= j < gpus.len() && filled(device_rows(gpus))[i].0 == Tree::Text(
                (#[trigger] gpus[j]).uuid,
            ),
        says_below(devices_tree(gpus), seq!["properties"@], map_tree(device_rows(gpus))),
{
    let rows = device_rows(gpus);
    lemma_filled_distinct(rows);
    let n = filled(rows);
    assert(n[i] == n[i]);
    let j = choose|j: int|
        #![trigger rows[j]]
        0 <= j < rows.len() && n[i] == (Tree::Text(rows[j].0), rows[j].1);
    assert(rows[j].0 == gpus[j].uuid);
    lemma_words_differ();
    lemma_three(
        ("type"@, Tree::Text("object"@)),
        ("description"@, Tree::Text("GPUs this container gets, by UUID"@)),
        ("properties"@, map_tree(rows)),
    );
    lemma_here(map_tree(rows));
    lemma_below(devices_tree(gpus), "properties"@, map_tree(rows), Seq::empty(), map_tree(rows));
    assert(seq!["properties"@] + Seq::empty() =~= seq!["properties"@]);
}

/// The file offers a switch for each of the six capabilities, on by default
/// for compute and utility alone, and a text for the CUDA version.
pub proof fn law_every_capability_is_offered(node: Seq<char>, inv: Facts, c: Seq<char>)
    requires
        c == "compute"@ || c == "compat32"@ || c == "display"@ || c == "graphics"@ || c
            == "utility"@ || c == "video"@,
    ensures
        ({
            let row = seq!["schema"@, "properties"@, "capabilities"@, "properties"@, c];
            &&& says_below(file_of(node, inv), row + seq!["type"@], Tree::Text("boolean"@))
            &&& says_below(
                file_of(node, inv),
                row + seq!["default"@],
                Tree::Bool(c == "compute"@ || c == "utility"@),
            )
        }),
        says_below(
            file_of(node, inv),
            seq!["schema"@, "properties"@, "require_cuda"@, "type"@],
            Tree::Text("string"@),
        ),
        capability_rows().len() == 6,
{
    doc::lemma_capability_names();
    lemma_words_differ();
    let all = doc::all_capabilities();
    assert(all[0] == "compute"@ && all[1] == "compat32"@ && all[2] == "display"@ && all[3]
        == "graphics"@ && all[4] == "utility"@ && all[5] == "video"@);
    let rows = capability_rows();
    assert(all.contains(c));
    let i = choose|i: int| 0 <= i < all.len() && all[i] == c;
    let defaults = text::views(doc::DEFAULT_CAPABILITIES@);
    assert(defaults =~= seq!["compute"@, "utility"@]);
    assert(defaults.contains(c) <==> c == "compute"@ || c == "utility"@) by {
        assert(defaults[0] == "compute"@ && defaults[1] == "utility"@);
    }
    let on = c == "compute"@ || c == "utility"@;
    let row = boolean_tree(on, None);
    assert(rows[i] == (c, row));
    assert forall|j: int| i < j < rows.len() implies (#[trigger] rows[j]).0 != rows[i].0 by {
        assert(rows[j].0 == all[j]);
    }
    lemma_filled_gives(rows, i);
    lemma_boolean(on, None);
    lemma_capability_row(node, inv, c, row, "type"@, Tree::Text("boolean"@));
    lemma_capability_row(node, inv, c, row, "default"@, Tree::Bool(on));
    lemma_two(
        ("type"@, Tree::Text("string"@)),
        (
            "description"@,
            Tree::Text("e.g. 12.8 - the container refuses to start on an older host driver"@),
        ),
    );
    lemma_here(Tree::Text("string"@));
    lemma_below(
        cuda_tree(),
        "type"@,
        Tree::Text("string"@),
        Seq::empty(),
        Tree::Text("string"@),
    );
    let path = seq!["type"@] + Seq::empty();
    lemma_below_properties(
        node,
        inv,
        "require_cuda"@,
        cuda_tree(),
        path,
        Tree::Text("string"@),
    );
    assert(seq!["schema"@, "properties"@, "require_cuda"@] + path =~= seq![
        "schema"@,
        "properties"@,
        "require_cuda"@,
        "type"@,
    ]);
}

proof fn lemma_capability_row(
    node: Seq<char>,
    inv: Facts,
    c: Seq<char>,
    row: Tree,
    key: Seq<char>,
    v: Tree,
)
    requires
        gives(map_tree(capability_rows()), c, row),
        gives(row, key, v),
    ensures
        says_below(
            file_of(node, inv),
            seq!["schema"@, "properties"@, "capabilities"@, "properties"@, c] + seq![key],
            v,
        ),
{
    lemma_words_differ();
    let rows = map_tree(capability_rows());
    let t = capabilities_tree();
    lemma_three(
        ("type"@, Tree::Text("object"@)),
        (
            "description"@,
            Tree::Text("What the driver is used for; the default is compute and utility"@),
        ),
        ("properties"@, rows),
    );
    lemma_below_two(rows, c, row, key, v);
    lemma_below(t, "properties"@, rows, seq![c, key], v);
    let path = seq!["properties"@] + seq![c, key];
    lemma_below_properties(node, inv, "capabilities"@, t, path, v);
    assert(seq!["schema"@, "properties"@, "capabilities"@] + path =~= seq![
        "schema"@,
        "properties"@,
        "capabilities"@,
        "properties"@,
        c,
    ] + seq![key]);
}

// ---------------------------------------------------------------------------
// When it is written.
// ---------------------------------------------------------------------------

/// Without a driver the file is kept. With one and no cards it is removed,
/// where there is one. With cards it is written, unless the stored one says
/// the same.
pub proof fn law_when_the_file_is_written(node: Seq<char>, inv: Facts, current: Option<Seq<char>>)
    ensures
        decided(node, inv, current) is Keep <==> !inv.driver,
        decided(node, inv, current) is Remove <==> inv.driver && inv.gpus.len() == 0
            && current is Some,
        decided(node, inv, current) is Absent <==> inv.driver && inv.gpus.len() == 0
            && current is None,
        decided(node, inv, current) is Unchanged <==> inv.driver && inv.gpus.len() > 0
            && current is Some && yaml::same_text(current->Some_0, text_of(node, inv)),
        decided(node, inv, current) is Write <==> inv.driver && inv.gpus.len() > 0 && (
        current is None || !yaml::same_text(current->Some_0, text_of(node, inv))),
        decided(node, inv, current) matches StepView::Write(s) ==> s == text_of(node, inv),
{
}

/// Two texts say the same exactly if both can be read and the documents do; so
/// a text that can be read says the same as itself, and one that cannot says
/// the same as none.
pub proof fn law_when_two_texts_say_the_same(a: Seq<char>, b: Seq<char>, x: Tree, y: Tree)
    ensures
        yaml::yaml_read(a) is Err || yaml::yaml_read(b) is Err ==> !yaml::same_text(a, b),
        yaml::yaml_read(a) == Ok::<Tree, Seq<char>>(x) && yaml::yaml_read(b) == Ok::<
            Tree,
            Seq<char>,
        >(y) ==> (yaml::same_text(a, b) <==> yaml::same(x, y)),
        yaml::yaml_read(a) is Ok ==> yaml::same_text(a, a),
{
    if let Ok(t) = yaml::yaml_read(a) {
        yaml::law_same_is_reflexive(t);
    }
}

/// A decision becomes at most one call, which names the node's own document:
/// nothing is called unless the file is to be removed or written.
pub proof fn law_what_is_called(node: Seq<char>, step: StepView)
    ensures
        match step {
            StepView::Keep => task_of(node, step) == TaskView::Done(Action::Kept),
            StepView::Absent => task_of(node, step) == TaskView::Done(Action::Absent),
            StepView::Unchanged => task_of(node, step) == TaskView::Done(Action::Unchanged),
            StepView::Remove => task_of(node, step) == TaskView::Delete(
                seq!["delete"@, "nodes/"@ + node + "/prefixes/"@ + "gpu"@],
            ),
            StepView::Write(s) => task_of(node, step) == TaskView::Store(
                seq!["set"@, "nodes/"@ + node + "/prefixes/"@ + "gpu"@, "--text"@, s],
            ),
        },
{
    assert(id_of(node) == "nodes/"@ + node + "/prefixes/"@ + "gpu"@);
}

/// Exit code 0 is an answer, exit code 2 is that there is no file, and any
/// other is an error.
pub proof fn law_what_the_store_answers(node: Seq<char>, out: Said)
    ensures
        stored(node, out) == Ok::<Option<Seq<char>>, Seq<char>>(Some(out.stdout)) <==> out.status
            == 0,
        stored(node, out) == Ok::<Option<Seq<char>>, Seq<char>>(None) <==> out.status == 2,
        stored(node, out) is Err <==> out.status != 0 && out.status != 2,
        removal(node, out) == Ok::<Action, Seq<char>>(Action::Removed) <==> out.status == 0,
        removal(node, out) == Ok::<Action, Seq<char>>(Action::Absent) <==> out.status == 2,
        removal(node, out) is Err <==> out.status != 0 && out.status != 2,
{
}

} // verus!
