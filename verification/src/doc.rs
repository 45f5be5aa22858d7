//! The `gpu` subtree of a guest's pve-meta document, read through the
//! `pve-meta` CLI as root on the node: no token, no pveproxy, exact YAML
//! types, and it works in the boot pass before the API is up.
//!
//! ```yaml
//! gpu:
//!   devices: { GPU-8ddd601a-494f-9489-46c6-d23129ccad16: true }
//!   capabilities: { compute: true, utility: true }
//!   require_cuda: "12.8"
//! ```
//!
//! Every key is optional; the whole subtree is the intent "this container
//! gets these GPUs". Booleans are accepted as `true`/`false` and as `1`/`0`,
//! the spelling a JSON-mode write leaves behind. Comment keys (`devices__`)
//! never reach a read, so nothing here knows them.

use vstd::prelude::*;

use crate::cmd::{Output, Said};
use crate::table::{self, Table};
use crate::text;
use crate::yaml::{self, Node, Tree};
use crate::PREFIX;

verus! {

/// The capabilities LXC's nvidia hook accepts; anything else makes the hook
/// fail the container's start, so a document naming one is refused here
/// instead.
pub const CAPABILITIES: [&'static str; 6] = [
    "compute",
    "compat32",
    "display",
    "graphics",
    "utility",
    "video",
];

/// The capabilities a document that says nothing gets.
pub const DEFAULT_CAPABILITIES: [&'static str; 2] = ["compute", "utility"];

/// A guest's `gpu` subtree.
#[derive(Debug, Clone, PartialEq, Eq)]
pub struct Gpu {
    /// GPU UUID -> wanted. A UUID that is not on this node is skipped, not an
    /// error: a document travels with its guest, the cards do not.
    pub devices: Table<bool>,
    /// `None` when the document says nothing, which means
    /// [`DEFAULT_CAPABILITIES`].
    pub capabilities: Option<Table<bool>>,
    /// `NVIDIA_REQUIRE_CUDA=cuda>=<this>`: the hook refuses to start the
    /// container on an older host driver.
    pub require_cuda: Option<String>,
}

/// What a [`Gpu`] says.
pub struct Want {
    pub devices: Seq<(Seq<char>, bool)>,
    pub capabilities: Option<Seq<(Seq<char>, bool)>>,
    pub require_cuda: Option<Seq<char>>,
}

impl View for Gpu {
    type V = Want;

    open spec fn view(&self) -> Want {
        Want {
            devices: self.devices@,
            capabilities: match self.capabilities {
                Some(t) => Some(t@),
                None => None,
            },
            require_cuda: text::opt_text(self.require_cuda),
        }
    }
}

/// A document that says nothing.
pub open spec fn nothing() -> Want {
    Want { devices: Seq::empty(), capabilities: None, require_cuda: None }
}

/// The names among `devices` that are on, in document order.
pub open spec fn switched_on(devices: Seq<(Seq<char>, bool)>) -> Seq<Seq<char>> {
    devices.filter(|d: (Seq<char>, bool)| d.1).map_values(|d: (Seq<char>, bool)| d.0)
}

/// Every capability the hook accepts, in the hook's own order.
pub open spec fn all_capabilities() -> Seq<Seq<char>> {
    text::views(CAPABILITIES@)
}

/// Those among `names` that `set` switches on, in the order of `names`.
pub open spec fn chosen(names: Seq<Seq<char>>, set: Seq<(Seq<char>, bool)>) -> Seq<Seq<char>> {
    names.filter(|c: Seq<char>| table::lookup(set, c) == Some(true))
}

/// The capabilities a document asks for, in the hook's own order.
pub open spec fn capabilities_of(want: Want) -> Seq<Seq<char>> {
    match want.capabilities {
        Some(set) => chosen(all_capabilities(), set),
        None => text::views(DEFAULT_CAPABILITIES@),
    }
}

proof fn lemma_switched_on_push(devices: Seq<(Seq<char>, bool)>, d: (Seq<char>, bool))
    ensures
        switched_on(devices.push(d)) == if d.1 {
            switched_on(devices).push(d.0)
        } else {
            switched_on(devices)
        },
{
    devices.lemma_filter_push(d, |d: (Seq<char>, bool)| d.1);
    assert(switched_on(devices.push(d)) =~= if d.1 {
        switched_on(devices).push(d.0)
    } else {
        switched_on(devices)
    });
}

impl Default for Gpu {
    fn default() -> (r: Gpu)
        ensures
            r@ == nothing(),
    {
        Gpu { devices: Table::new(), capabilities: None, require_cuda: None }
    }
}

impl Gpu {
    /// The UUIDs the document asks for, in document order.
    pub fn wanted(&self) -> (r: Vec<&str>)
        ensures
            text::views(r@) == switched_on(self@.devices),
    {
        let mut out: Vec<&str> = Vec::new();
        let ghost all = self.devices@;
        let mut i: usize = 0;
        proof {
            reveal(Seq::filter);
            assert(text::views(out@) =~= switched_on(all.take(0)));
        }
        while i < self.devices.len()
            invariant
                i <= all.len(),
                all == self.devices@,
                text::views(out@) == switched_on(all.take(i as int)),
            decreases all.len() - i,
        {
            let ghost before = out@;
            proof {
                assert(all.take(i + 1) =~= all.take(i as int).push(all[i as int]));
                lemma_switched_on_push(all.take(i as int), all[i as int]);
            }
            if *self.devices.value(i) {
                out.push(self.devices.key(i));
                proof {
                    assert(text::views(out@) =~= text::views(before).push(all[i as int].0));
                }
            }
            i += 1;
        }
        proof {
            assert(all.take(all.len() as int) =~= all);
        }
        out
    }

    /// The capabilities to pass, in the hook's own order.
    pub fn capability_list(&self) -> (r: Vec<&'static str>)
        ensures
            text::views(r@) == capabilities_of(self@),
    {
        let mut out: Vec<&'static str> = Vec::new();
        match &self.capabilities {
            None => {
                out.push(DEFAULT_CAPABILITIES[0]);
                out.push(DEFAULT_CAPABILITIES[1]);
                proof {
                    assert(text::views(out@) =~= text::views(DEFAULT_CAPABILITIES@));
                }
            },
            Some(set) => {
                let ghost names = all_capabilities();
                let mut i: usize = 0;
                proof {
                    reveal(Seq::filter);
                    assert(text::views(out@) =~= chosen(names.take(0), set@));
                }
                while i < CAPABILITIES.len()
                    invariant
                        i <= CAPABILITIES@.len(),
                        names == text::views(CAPABILITIES@),
                        text::views(out@) == chosen(names.take(i as int), set@),
                    decreases CAPABILITIES@.len() - i,
                {
                    let c = CAPABILITIES[i];
                    let ghost before = out@;
                    proof {
                        text::lemma_views(CAPABILITIES@);
                        assert(names.take(i + 1) =~= names.take(i as int).push(c@));
                        names.take(i as int).lemma_filter_push(
                            c@,
                            |c: Seq<char>| table::lookup(set@, c) == Some(true),
                        );
                    }
                    let on: bool = match set.get(c) {
                        Some(on) => *on,
                        None => false,
                    };
                    if on {
                        out.push(c);
                        proof {
                            assert(text::views(out@) =~= text::views(before).push(c@));
                        }
                    }
                    i += 1;
                }
                proof {
                    assert(names.take(names.len() as int) =~= names);
                }
            },
        }
        out
    }
}

// ---------------------------------------------------------------------------
// What a document may say.
// ---------------------------------------------------------------------------

/// A `true`/`false`, `1`/`0` or `yes`/`no` value.
pub open spec fn flag(t: Tree) -> Option<bool> {
    match t {
        Tree::Bool(b) => Some(b),
        Tree::Number(Some(i), _) => if i == 0 {
            Some(false)
        } else if i == 1 {
            Some(true)
        } else {
            None
        },
        Tree::Text(s) => {
            let s = text::trim(s);
            if s == "1"@ || s == "true"@ || s == "yes"@ || s == "on"@ {
                Some(true)
            } else if s == "0"@ || s == "false"@ || s == "no"@ || s == "off"@ {
                Some(false)
            } else {
                None
            }
        },
        _ => None,
    }
}

/// A `true`/`false`, `1`/`0` or `yes`/`no` value.
fn flag_of(v: &Node) -> (r: Option<bool>)
    ensures
        r == flag(v@),
{
    match v {
        Node::Bool(b) => Some(*b),
        Node::Number(i, _) => match i {
            Some(n) => if *n == 0 {
                Some(false)
            } else if *n == 1 {
                Some(true)
            } else {
                None
            },
            None => None,
        },
        Node::Text(s) => {
            let s = text::trimmed(s.as_str());
            if text::eq(s, "1") || text::eq(s, "true") || text::eq(s, "yes") || text::eq(s, "on") {
                Some(true)
            } else if text::eq(s, "0") || text::eq(s, "false") || text::eq(s, "no") || text::eq(
                s,
                "off",
            ) {
                Some(false)
            } else {
                None
            }
        },
        _ => None,
    }
}

/// A hex digit or a dash.
pub open spec fn is_id_char(c: char) -> bool {
    '0' <= c <= '9' || 'a' <= c <= 'f' || 'A' <= c <= 'F' || c == '-'
}

/// `GPU-`, then hex digits and dashes, at least one.
pub open spec fn device_id(s: Seq<char>) -> bool {
    match text::strip_prefix(s, "GPU-"@) {
        Some(id) => id.len() > 0 && forall|i: int|
            0 <= i < id.len() ==> is_id_char(#[trigger] id[i]),
        None => false,
    }
}

/// `GPU-<uuid>`, as `nvidia-container-cli --device` takes it: hex, dashes,
/// and nothing that could end a config line or a list.
///
/// `MIG-<uuid>` is deliberately not accepted. A MIG instance is not a device
/// of `/proc/driver/nvidia/gpus`, so this node could neither offer it in its
/// prefix file nor turn it into a `/dev/nvidia<N>` rule; half of the feature
/// would look like all of it. Refusing it names the limit instead.
pub fn is_device_id(s: &str) -> (r: bool)
    ensures
        r == device_id(s@),
{
    match text::after_prefix(s, "GPU-") {
        None => false,
        Some(id) => {
            let cs = text::chars(id);
            let mut i: usize = 0;
            while i < cs.len()
                invariant
                    i <= cs.len(),
                    cs@ == id@,
                    text::strip_prefix(s@, "GPU-"@) == Some(id@),
                    forall|j: int| 0 <= j < i ==> is_id_char(#[trigger] id@[j]),
                decreases cs.len() - i,
            {
                let c = cs[i];
                if !(('0' <= c && c <= '9') || ('a' <= c && c <= 'f') || ('A' <= c && c <= 'F') || c
                    == '-') {
                    return false;
                }
                i += 1;
            }
            cs.len() > 0
        },
    }
}

/// Digits and dots, beginning with a digit.
pub open spec fn version(s: Seq<char>) -> bool {
    s.len() > 0 && text::is_digit(s[0]) && forall|i: int|
        0 <= i < s.len() ==> text::is_digit(#[trigger] s[i]) || s[i] == '.'
}

/// Digits and dots, beginning with a digit.
pub fn is_version(s: &str) -> (r: bool)
    ensures
        r == version(s@),
{
    let cs = text::chars(s);
    if cs.len() == 0 || !('0' <= cs[0] && cs[0] <= '9') {
        return false;
    }
    let mut i: usize = 0;
    while i < cs.len()
        invariant
            i <= cs.len(),
            cs@ == s@,
            forall|j: int| 0 <= j < i ==> text::is_digit(#[trigger] s@[j]) || s@[j] == '.',
        decreases cs.len() - i,
    {
        if !(('0' <= cs[i] && cs[i] <= '9') || cs[i] == '.') {
            return false;
        }
        i += 1;
    }
    true
}

// ---------------------------------------------------------------------------
// Reading a document.
// ---------------------------------------------------------------------------

/// Why `name` is no device.
pub open spec fn not_a_device(name: Seq<char>) -> Seq<char> {
    "gpu.devices: '"@ + name + "' is not a GPU UUID (GPU-<uuid>"@ + if text::starts_with(
        name,
        "MIG-"@,
    ) {
        "; MIG instances are not supported)"@
    } else {
        ")"@
    }
}

/// The devices after one more entry of the document.
pub open spec fn read_device(
    entry: (Tree, Tree),
    acc: Seq<(Seq<char>, bool)>,
) -> Result<Seq<(Seq<char>, bool)>, Seq<char>> {
    match yaml::string(entry.0) {
        None => Err("gpu.devices: keys must be strings"@),
        Some(name) => if !device_id(name) {
            Err(not_a_device(name))
        } else {
            match flag(entry.1) {
                None => Err(
                    "gpu.devices."@ + name + ": expected a boolean (true/false or 1/0)"@,
                ),
                Some(on) => Ok(table::with(acc, name, on)),
            }
        },
    }
}

/// The devices after the entries of the document, up to the first that is
/// refused.
pub open spec fn read_devices(
    entries: Seq<(Tree, Tree)>,
    acc: Seq<(Seq<char>, bool)>,
) -> Result<Seq<(Seq<char>, bool)>, Seq<char>>
    decreases entries.len(),
{
    if entries.len() == 0 {
        Ok(acc)
    } else {
        match read_device(entries[0], acc) {
            Ok(acc) => read_devices(entries.skip(1), acc),
            Err(e) => Err(e),
        }
    }
}

/// The capabilities after one more entry of the document.
pub open spec fn read_capability(
    entry: (Tree, Tree),
    acc: Seq<(Seq<char>, bool)>,
) -> Result<Seq<(Seq<char>, bool)>, Seq<char>> {
    match yaml::string(entry.0) {
        None => Err("gpu.capabilities: keys must be strings"@),
        Some(name) => if !all_capabilities().contains(name) {
            Err(
                "gpu.capabilities."@ + name + ": not a driver capability ("@ + text::join(
                    all_capabilities(),
                    ", "@,
                ) + ")"@,
            )
        } else {
            match flag(entry.1) {
                None => Err(
                    "gpu.capabilities."@ + name + ": expected a boolean (true/false or 1/0)"@,
                ),
                Some(on) => Ok(table::with(acc, name, on)),
            }
        },
    }
}

/// The capabilities after the entries of the document, up to the first that
/// is refused.
pub open spec fn read_capabilities(
    entries: Seq<(Tree, Tree)>,
    acc: Seq<(Seq<char>, bool)>,
) -> Result<Seq<(Seq<char>, bool)>, Seq<char>>
    decreases entries.len(),
{
    if entries.len() == 0 {
        Ok(acc)
    } else {
        match read_capability(entries[0], acc) {
            Ok(acc) => read_capabilities(entries.skip(1), acc),
            Err(e) => Err(e),
        }
    }
}

/// The constraint a document sets: a version, written as a string or as a
/// number.
pub open spec fn read_cuda(value: Tree) -> Result<Seq<char>, Seq<char>> {
    match value {
        Tree::Text(s) => checked_version(text::trim(s)),
        Tree::Number(_, s) => checked_version(s),
        _ => Err("gpu.require_cuda must be a version string, e.g. \"12.8\""@),
    }
}

/// `v`, if it is a version.
pub open spec fn checked_version(v: Seq<char>) -> Result<Seq<char>, Seq<char>> {
    if version(v) {
        Ok(v)
    } else {
        Err("gpu.require_cuda: '"@ + v + "' is not a version like 12.8"@)
    }
}

/// The document after one more of its fields.
pub open spec fn read_field(entry: (Tree, Tree), acc: Want) -> Result<Want, Seq<char>> {
    match yaml::string(entry.0) {
        None => Err("gpu: keys must be strings"@),
        Some(key) => if key == "devices"@ {
            match yaml::mapping(entry.1) {
                None => Err("gpu.devices must be a map"@),
                Some(m) => match read_devices(m, acc.devices) {
                    Ok(devices) => Ok(Want { devices, ..acc }),
                    Err(e) => Err(e),
                },
            }
        } else if key == "capabilities"@ {
            match yaml::mapping(entry.1) {
                None => Err("gpu.capabilities must be a map"@),
                Some(m) => match read_capabilities(m, Seq::empty()) {
                    Ok(caps) => Ok(Want { capabilities: Some(caps), ..acc }),
                    Err(e) => Err(e),
                },
            }
        } else if key == "require_cuda"@ {
            match read_cuda(entry.1) {
                Ok(v) => Ok(Want { require_cuda: Some(v), ..acc }),
                Err(e) => Err(e),
            }
        } else {
            Err("gpu."@ + key + ": unknown key (devices, capabilities, require_cuda)"@)
        },
    }
}

/// The document after its fields, up to the first that is refused.
pub open spec fn read_fields(entries: Seq<(Tree, Tree)>, acc: Want) -> Result<Want, Seq<char>>
    decreases entries.len(),
{
    if entries.len() == 0 {
        Ok(acc)
    } else {
        match read_field(entries[0], acc) {
            Ok(acc) => read_fields(entries.skip(1), acc),
            Err(e) => Err(e),
        }
    }
}

/// What a YAML document says as a `gpu` subtree, or why it is none.
pub open spec fn want_of(t: Tree) -> Result<Want, Seq<char>> {
    match yaml::mapping(t) {
        None => Err("gpu must be a map"@),
        Some(m) => read_fields(m, nothing()),
    }
}

/// What a document that was read, or could not be, says as a `gpu` subtree.
pub open spec fn want_in(read: Result<Tree, Seq<char>>) -> Result<Want, Seq<char>> {
    match read {
        Ok(t) => want_of(t),
        Err(e) => Err("gpu subtree: "@ + e),
    }
}

/// What a subtree that was parsed, or could not be, says.
pub open spec fn parse_view(r: Result<Gpu, String>) -> Result<Want, Seq<char>> {
    match r {
        Ok(g) => Ok(g@),
        Err(e) => Err(e@),
    }
}

/// Reads the entries of `devices`.
fn devices_of(entries: &Vec<(Node, Node)>, from: Table<bool>) -> (r: Result<Table<bool>, String>)
    ensures
        match r {
            Ok(t) => read_devices(yaml::entries(entries@), from@) == Ok::<_, Seq<char>>(t@),
            Err(e) => read_devices(yaml::entries(entries@), from@) == Err::<
                Seq<(Seq<char>, bool)>,
                _,
            >(e@),
        },
{
    let ghost all = yaml::entries(entries@);
    let mut acc = from;
    let mut i: usize = 0;
    proof {
        assert(all.skip(0) =~= all);
    }
    while i < entries.len()
        invariant
            i <= entries@.len(),
            all == yaml::entries(entries@),
            read_devices(all, from@) == read_devices(all.skip(i as int), acc@),
        decreases entries.len() - i,
    {
        let entry = &entries[i];
        proof {
            assert(all.skip(i as int)[0] == (entry.0@, entry.1@));
            assert(all.skip(i as int).skip(1) =~= all.skip(i + 1));
        }
        let name = match entry.0.as_str() {
            None => {
                return Err("gpu.devices: keys must be strings".to_owned());
            },
            Some(name) => name,
        };
        if !is_device_id(name) {
            let end = if text::begins(name, "MIG-") {
                "; MIG instances are not supported)"
            } else {
                ")"
            };
            return Err(
                "gpu.devices: '".to_owned().concat(name).concat(
                    "' is not a GPU UUID (GPU-<uuid>",
                ).concat(end),
            );
        }
        match flag_of(&entry.1) {
            None => {
                return Err(
                    "gpu.devices.".to_owned().concat(name).concat(
                        ": expected a boolean (true/false or 1/0)",
                    ),
                );
            },
            Some(on) => {
                acc.insert(name, on);
            },
        }
        i += 1;
    }
    Ok(acc)
}

/// Whether the hook accepts a capability.
fn is_capability(name: &str) -> (r: bool)
    ensures
        r == all_capabilities().contains(name@),
{
    let mut i: usize = 0;
    while i < CAPABILITIES.len()
        invariant
            i <= CAPABILITIES@.len(),
            forall|j: int| 0 <= j < i ==> (#[trigger] all_capabilities()[j]) != name@,
        decreases CAPABILITIES@.len() - i,
    {
        proof {
            text::lemma_views(CAPABILITIES@);
            assert(all_capabilities()[i as int] == CAPABILITIES@[i as int]@);
        }
        if text::eq(CAPABILITIES[i], name) {
            return true;
        }
        i += 1;
    }
    false
}

/// Reads the entries of `capabilities`.
fn capabilities_in(entries: &Vec<(Node, Node)>) -> (r: Result<Table<bool>, String>)
    ensures
        match r {
            Ok(t) => read_capabilities(yaml::entries(entries@), Seq::empty()) == Ok::<
                _,
                Seq<char>,
            >(t@),
            Err(e) => read_capabilities(yaml::entries(entries@), Seq::empty()) == Err::<
                Seq<(Seq<char>, bool)>,
                _,
            >(e@),
        },
{
    let ghost all = yaml::entries(entries@);
    let mut acc: Table<bool> = Table::new();
    let mut i: usize = 0;
    proof {
        assert(all.skip(0) =~= all);
    }
    while i < entries.len()
        invariant
            i <= entries@.len(),
            all == yaml::entries(entries@),
            read_capabilities(all, Seq::empty()) == read_capabilities(all.skip(i as int), acc@),
        decreases entries.len() - i,
    {
        let entry = &entries[i];
        proof {
            assert(all.skip(i as int)[0] == (entry.0@, entry.1@));
            assert(all.skip(i as int).skip(1) =~= all.skip(i + 1));
        }
        let name = match entry.0.as_str() {
            None => {
                return Err("gpu.capabilities: keys must be strings".to_owned());
            },
            Some(name) => name,
        };
        if !is_capability(name) {
            return Err(
                "gpu.capabilities.".to_owned().concat(name).concat(
                    ": not a driver capability (",
                ).concat(text::joined(&CAPABILITIES, ", ").as_str()).concat(")"),
            );
        }
        match flag_of(&entry.1) {
            None => {
                return Err(
                    "gpu.capabilities.".to_owned().concat(name).concat(
                        ": expected a boolean (true/false or 1/0)",
                    ),
                );
            },
            Some(on) => {
                acc.insert(name, on);
            },
        }
        i += 1;
    }
    Ok(acc)
}

/// Reads the value of `require_cuda`.
fn cuda_of(value: &Node) -> (r: Result<String, String>)
    ensures
        match r {
            Ok(v) => read_cuda(value@) == Ok::<Seq<char>, Seq<char>>(v@),
            Err(e) => read_cuda(value@) == Err::<Seq<char>, Seq<char>>(e@),
        },
{
    let v = match value {
        Node::Text(s) => text::trimmed(s.as_str()),
        Node::Number(_, s) => s.as_str(),
        _ => {
            return Err("gpu.require_cuda must be a version string, e.g. \"12.8\"".to_owned());
        },
    };
    if !is_version(v) {
        return Err(
            "gpu.require_cuda: '".to_owned().concat(v).concat("' is not a version like 12.8"),
        );
    }
    Ok(v.to_owned())
}

/// Reads the `gpu` subtree of a document. Everything that ends up in a
/// container config line is validated here, so a document can never become a
/// config key of its own: a UUID is the driver's charset, `require_cuda` is a
/// version.
pub fn parse_node(value: &Node) -> (r: Result<Gpu, String>)
    ensures
        parse_view(r) == want_of(value@),
{
    let root = match value.as_mapping() {
        None => {
            return Err("gpu must be a map".to_owned());
        },
        Some(m) => m,
    };
    let ghost all = yaml::entries(root@);
    let mut gpu = Gpu::default();
    let mut i: usize = 0;
    proof {
        assert(all.skip(0) =~= all);
    }
    while i < root.len()
        invariant
            i <= root@.len(),
            all == yaml::entries(root@),
            want_of(value@) == read_fields(all, nothing()),
            read_fields(all, nothing()) == read_fields(all.skip(i as int), gpu@),
        decreases root.len() - i,
    {
        let entry = &root[i];
        proof {
            assert(all.skip(i as int)[0] == (entry.0@, entry.1@));
            assert(all.skip(i as int).skip(1) =~= all.skip(i + 1));
        }
        let key = match entry.0.as_str() {
            None => {
                return Err("gpu: keys must be strings".to_owned());
            },
            Some(key) => key,
        };
        if text::eq(key, "devices") {
            match entry.1.as_mapping() {
                None => {
                    return Err("gpu.devices must be a map".to_owned());
                },
                Some(m) => {
                    let Gpu { devices, capabilities, require_cuda } = gpu;
                    match devices_of(m, devices) {
                        Err(e) => {
                            return Err(e);
                        },
                        Ok(devices) => {
                            gpu = Gpu { devices, capabilities, require_cuda };
                        },
                    }
                },
            }
        } else if text::eq(key, "capabilities") {
            match entry.1.as_mapping() {
                None => {
                    return Err("gpu.capabilities must be a map".to_owned());
                },
                Some(m) => match capabilities_in(m) {
                    Err(e) => {
                        return Err(e);
                    },
                    Ok(caps) => {
                        gpu.capabilities = Some(caps);
                    },
                },
            }
        } else if text::eq(key, "require_cuda") {
            match cuda_of(&entry.1) {
                Err(e) => {
                    return Err(e);
                },
                Ok(v) => {
                    gpu.require_cuda = Some(v);
                },
            }
        } else {
            return Err(
                "gpu.".to_owned().concat(key).concat(
                    ": unknown key (devices, capabilities, require_cuda)",
                ),
            );
        }
        i += 1;
    }
    Ok(gpu)
}

/// The `gpu` subtree in a document that was read, or could not be.
pub fn parse_read(read: Result<Node, String>) -> (r: Result<Gpu, String>)
    ensures
        parse_view(r) == want_in(yaml::read_view(read)),
{
    match read {
        Ok(n) => parse_node(&n),
        Err(e) => Err("gpu subtree: ".to_owned().concat(e.as_str())),
    }
}

/// Parses the YAML text of a `gpu` subtree.
pub fn parse(text: &str) -> (r: Result<Gpu, String>)
    ensures
        parse_view(r) == want_in(yaml::yaml_read(text@)),
{
    parse_read(yaml::read(text))
}

/// Where pve-meta keeps the documents. Only ever stat-ed, never parsed from
/// there: the content always comes from the `pve-meta` CLI, which owns every
/// rule about what a document means.
pub const STORE: &'static str = "/etc/pve/meta";

/// The file of a guest's document, whose modification stamp is a **hint about
/// when to read**, never a value.
pub fn path(vmid: u32) -> (r: String)
    ensures
        r@ == STORE@ + "/"@ + text::decimal(vmid as nat) + ".yaml"@,
{
    STORE.to_owned().concat("/").concat(text::decimal_of(vmid as u64).as_str()).concat(".yaml")
}

/// The arguments of the `pve-meta` call that reads a guest's subtree.
pub fn read_args(vmid: u32) -> (r: Vec<String>)
    ensures
        text::texts(r@) == seq![
            "get"@,
            text::decimal(vmid as nat),
            PREFIX@,
            "--format"@,
            "yaml"@,
        ],
{
    let mut r: Vec<String> = Vec::new();
    r.push("get".to_owned());
    r.push(text::decimal_of(vmid as u64));
    r.push(PREFIX.to_owned());
    r.push("--format".to_owned());
    r.push("yaml".to_owned());
    proof {
        assert(text::texts(r@) =~= seq![
            "get"@,
            text::decimal(vmid as nat),
            PREFIX@,
            "--format"@,
            "yaml"@,
        ]);
    }
    r
}

/// What a finished `pve-meta get` says of a guest's subtree, where its output
/// is `parsed`. The exit code 2 is its word for "there is none".
pub open spec fn answer(vmid: u32, out: Said, parsed: Result<Want, Seq<char>>) -> Result<
    Option<Want>,
    Seq<char>,
> {
    let id = text::decimal(vmid as nat);
    if out.status == 0 {
        match parsed {
            Ok(w) => Ok(Some(w)),
            Err(e) => Err("guest "@ + id + ": bad gpu document: "@ + e),
        }
    } else if out.status == 2 {
        Ok(None)
    } else {
        Err(
            "pve-meta get "@ + id + " "@ + PREFIX@ + " failed (exit "@ + text::signed(
                out.status as int,
            ) + "): "@ + text::trim(out.stderr),
        )
    }
}

/// What an optional subtree says.
pub open spec fn want_view(g: Option<Gpu>) -> Option<Want> {
    match g {
        Some(g) => Some(g@),
        None => None,
    }
}

/// What a subtree that was asked for says, or why it could not be had.
pub open spec fn answer_view(r: Result<Option<Gpu>, String>) -> Result<Option<Want>, Seq<char>> {
    match r {
        Ok(g) => Ok(want_view(g)),
        Err(e) => Err(e@),
    }
}

/// Guest `vmid`'s `gpu` subtree, where a finished `pve-meta get` said `out` and
/// its output is `parsed`.
pub fn read_answer(vmid: u32, out: &Output, parsed: Result<Gpu, String>) -> (r: Result<
    Option<Gpu>,
    String,
>)
    ensures
        answer_view(r) == answer(vmid, out@, parse_view(parsed)),
{
    let id = text::decimal_of(vmid as u64);
    if out.status == 0 {
        match parsed {
            Ok(g) => Ok(Some(g)),
            Err(e) => Err(
                "guest ".to_owned().concat(id.as_str()).concat(": bad gpu document: ").concat(
                    e.as_str(),
                ),
            ),
        }
    } else if out.status == 2 {
        Ok(None)
    } else {
        Err(
            "pve-meta get ".to_owned().concat(id.as_str()).concat(" ").concat(PREFIX).concat(
                " failed (exit ",
            ).concat(text::signed_of(out.status).as_str()).concat("): ").concat(
                text::trimmed(out.stderr.as_str()),
            ),
        )
    }
}

/// Reads guest `vmid`'s `gpu` subtree out of what `pve-meta` answered.
/// `Ok(None)` when the guest has no such subtree (or no document at all); the
/// guest is then never touched. A call that could not finish is its own error.
pub fn read(vmid: u32, out: Result<Output, String>) -> (r: Result<Option<Gpu>, String>)
    ensures
        match out {
            Ok(o) => answer_view(r) == answer(
                vmid,
                o@,
                want_in(yaml::yaml_read(o.stdout@)),
            ),
            Err(why) => answer_view(r) == Err::<Option<Want>, Seq<char>>(why@),
        },
{
    match out {
        Ok(out) => {
            let parsed = if out.status == 0 {
                parse(out.stdout.as_str())
            } else {
                Err(String::new())
            };
            read_answer(vmid, &out, parsed)
        },
        Err(e) => Err(e),
    }
}

// ---------------------------------------------------------------------------
// What a document can never do.
// ---------------------------------------------------------------------------

/// Whether every name in a table is one of `p`'s, and none occurs twice.
spec fn all_keys(s: Seq<(Seq<char>, bool)>, p: spec_fn(Seq<char>) -> bool) -> bool {
    table::distinct(s) && forall|i: int| 0 <= i < s.len() ==> p((#[trigger] s[i]).0)
}

proof fn lemma_with_keys(
    s: Seq<(Seq<char>, bool)>,
    p: spec_fn(Seq<char>) -> bool,
    key: Seq<char>,
    on: bool,
)
    requires
        all_keys(s, p),
        p(key),
    ensures
        all_keys(table::with(s, key, on), p),
{
    table::lemma_with_distinct(s, key, on);
    table::lemma_position(s, key);
}

proof fn lemma_read_devices(entries: Seq<(Tree, Tree)>, acc: Seq<(Seq<char>, bool)>)
    requires
        all_keys(acc, |s: Seq<char>| device_id(s)),
    ensures
        read_devices(entries, acc) matches Ok(d) ==> all_keys(d, |s: Seq<char>| device_id(s)),
    decreases entries.len(),
{
    if entries.len() > 0 {
        if let Ok(next) = read_device(entries[0], acc) {
            let name = yaml::string(entries[0].0)->Some_0;
            lemma_with_keys(
                acc,
                |s: Seq<char>| device_id(s),
                name,
                flag(entries[0].1)->Some_0,
            );
            lemma_read_devices(entries.skip(1), next);
        }
    }
}

proof fn lemma_read_capabilities(entries: Seq<(Tree, Tree)>, acc: Seq<(Seq<char>, bool)>)
    requires
        all_keys(acc, |s: Seq<char>| all_capabilities().contains(s)),
    ensures
        read_capabilities(entries, acc) matches Ok(d) ==> all_keys(
            d,
            |s: Seq<char>| all_capabilities().contains(s),
        ),
    decreases entries.len(),
{
    if entries.len() > 0 {
        if let Ok(next) = read_capability(entries[0], acc) {
            let name = yaml::string(entries[0].0)->Some_0;
            lemma_with_keys(
                acc,
                |s: Seq<char>| all_capabilities().contains(s),
                name,
                flag(entries[0].1)->Some_0,
            );
            lemma_read_capabilities(entries.skip(1), next);
        }
    }
}

/// Whether a document names only devices, capabilities and a version, and
/// none of them twice.
pub open spec fn valid(w: Want) -> bool {
    &&& table::distinct(w.devices)
    &&& forall|i: int| 0 <= i < w.devices.len() ==> device_id((#[trigger] w.devices[i]).0)
    &&& match w.capabilities {
        Some(c) => table::distinct(c) && forall|i: int|
            0 <= i < c.len() ==> all_capabilities().contains((#[trigger] c[i]).0),
        None => true,
    }
    &&& match w.require_cuda {
        Some(v) => version(v),
        None => true,
    }
}

proof fn lemma_read_fields(entries: Seq<(Tree, Tree)>, acc: Want)
    requires
        valid(acc),
    ensures
        read_fields(entries, acc) matches Ok(w) ==> valid(w),
    decreases entries.len(),
{
    if entries.len() > 0 {
        if let Ok(next) = read_field(entries[0], acc) {
            if let Some(m) = yaml::mapping(entries[0].1) {
                assert(all_keys(acc.devices, |s: Seq<char>| device_id(s)));
                lemma_read_devices(m, acc.devices);
                lemma_read_capabilities(m, Seq::empty());
            }
            assert(valid(next));
            lemma_read_fields(entries.skip(1), next);
        }
    }
}

/// Every document that is accepted names only devices, capabilities and a
/// version.
pub proof fn law_documents_are_valid(t: Tree)
    ensures
        want_of(t) matches Ok(w) ==> valid(w),
{
    if let Some(m) = yaml::mapping(t) {
        lemma_read_fields(m, nothing());
    }
}

/// Whether `s` can be one item of a list on one config line: it holds no
/// newline, no comma and no space.
pub open spec fn is_item(s: Seq<char>) -> bool {
    s.len() > 0 && forall|i: int|
        0 <= i < s.len() ==> (#[trigger] s[i]) != '\n' && s[i] != ',' && !text::is_space(s[i])
}

/// A device id holds no newline, no comma and no space.
pub proof fn lemma_device_id_is_item(s: Seq<char>)
    requires
        device_id(s),
    ensures
        is_item(s),
        text::tidy(s),
{
    reveal_strlit("GPU-");
    let id = s.skip(4);
    assert forall|i: int| 0 <= i < s.len() implies (#[trigger] s[i]) != '\n' && s[i] != ','
        && !text::is_space(s[i]) by {
        if i < 4 {
            assert(s.take(4)[i] == s[i]);
        } else {
            assert(is_id_char(id[i - 4]));
        }
    }
}

/// A version holds no newline, no comma and no space.
pub proof fn lemma_version_is_item(s: Seq<char>)
    requires
        version(s),
    ensures
        is_item(s),
        text::tidy(s),
{
    assert forall|i: int| 0 <= i < s.len() implies (#[trigger] s[i]) != '\n' && s[i] != ','
        && !text::is_space(s[i]) by {
        assert(text::is_digit(s[i]) || s[i] == '.');
    }
}

/// Nothing a document says can carry a newline, a comma or a space into a
/// config line: not a device it asks for, and not the constraint it sets. A
/// document can never become a second config line or a second device.
pub proof fn law_nothing_leaves_its_line(t: Tree)
    ensures
        want_of(t) matches Ok(w) ==> {
            &&& forall|i: int|
                0 <= i < switched_on(w.devices).len() ==> is_item(
                    #[trigger] switched_on(w.devices)[i],
                )
            &&& w.require_cuda matches Some(v) ==> is_item(v)
        },
{
    law_documents_are_valid(t);
    if let Ok(w) = want_of(t) {
        assert forall|i: int| 0 <= i < switched_on(w.devices).len() implies is_item(
            #[trigger] switched_on(w.devices)[i],
        ) by {
            lemma_switched_on(w.devices, i);
            lemma_device_id_is_item(switched_on(w.devices)[i]);
        }
        if let Some(v) = w.require_cuda {
            lemma_version_is_item(v);
        }
    }
}

/// A name that is on is the name of a device.
pub proof fn lemma_switched_on(devices: Seq<(Seq<char>, bool)>, i: int)
    requires
        0 <= i < switched_on(devices).len(),
        forall|i: int| 0 <= i < devices.len() ==> device_id((#[trigger] devices[i]).0),
    ensures
        device_id(switched_on(devices)[i]),
{
    let p = |d: (Seq<char>, bool)| d.1;
    let on = devices.filter(p);
    assert(switched_on(devices)[i] == on[i].0);
    assert(on.contains(on[i]));
    devices.lemma_filter_contains_rev(p, on[i]);
    let k = choose|k: int| 0 <= k < devices.len() && devices[k] == on[i];
    assert(device_id(devices[k].0));
}

/// Whatever a document says, its capabilities are ones the hook accepts, each
/// at most once, in the hook's own order.
pub proof fn law_capabilities_are_in_the_hooks_order(w: Want)
    ensures
        exists|on: spec_fn(Seq<char>) -> bool|
            capabilities_of(w) == #[trigger] all_capabilities().filter(on),
{
    match w.capabilities {
        Some(set) => {
            let on = |c: Seq<char>| table::lookup(set, c) == Some(true);
            assert(capabilities_of(w) == all_capabilities().filter(on));
        },
        None => {
            let on = |c: Seq<char>| c == "compute"@ || c == "utility"@;
            lemma_capability_names();
            let all = all_capabilities();
            reveal_with_fuel(Seq::filter, 7);
            assert(all.len() == 6);
            assert(all.drop_last().drop_last().drop_last().drop_last().drop_last().drop_last()
                =~= Seq::empty());
            assert(all.filter(on) =~= seq!["compute"@, "utility"@]);
            assert(text::views(DEFAULT_CAPABILITIES@) =~= seq!["compute"@, "utility"@]);
        },
    }
}

/// The six names differ, and each is a word.
pub proof fn lemma_capability_names()
    ensures
        all_capabilities() == seq![
            "compute"@,
            "compat32"@,
            "display"@,
            "graphics"@,
            "utility"@,
            "video"@,
        ],
        all_capabilities().no_duplicates(),
        forall|i: int| 0 <= i < 6 ==> text::tidy(#[trigger] all_capabilities()[i]),
{
    reveal_strlit("compute");
    reveal_strlit("compat32");
    reveal_strlit("display");
    reveal_strlit("graphics");
    reveal_strlit("utility");
    reveal_strlit("video");
    let all = all_capabilities();
    assert(all =~= seq![
        "compute"@,
        "compat32"@,
        "display"@,
        "graphics"@,
        "utility"@,
        "video"@,
    ]);
    assert("compute"@[3] == 'p' && "utility"@[0] == 'u' && "display"@[0] == 'd');
    assert("compute"@.len() == 7 && "utility"@.len() == 7 && "display"@.len() == 7);
    assert("compat32"@.len() == 8 && "graphics"@.len() == 8 && "video"@.len() == 5);
    assert("compat32"@[0] == 'c' && "graphics"@[0] == 'g' && "compute"@[0] == 'c');
}

} // verus!
