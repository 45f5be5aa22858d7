# pve-meta-nvidia

NVIDIA GPUs for unprivileged LXC guests of a Proxmox VE node, described by the
`gpu` subtree of the guest's pve-meta document and written into the container's
config by a loop on the node it runs on.

The library decides; its decisions are stated in contracts and proved with
Verus. The program around it reads and writes files, runs commands, takes locks
and talks to systemd.

## Layout

* `src/` - the library.
  * `conf` - which lines of a container config are this tool's, and replacing
    them. What is not this tool's stays as it is.
  * `doc` - the `gpu` subtree: what a document may say, and nothing else.
  * `inventory` - the node's cards and majors. A read succeeds or fails; there
    is no smaller inventory.
  * `plan` - the lines one guest should have.
  * `prefix` - the file that offers the node's cards to the editor.
  * `ops` - the verbs: inventory, reconcile, status, daemon.
  * `yaml` and `json` hold every call into `serde_yaml_ng` and `serde_json`;
    what is believed of them stands there.
* `tests/` - the same on concrete values.
* `app/` - the program.

Functions named `law_...` are what the library promises as a whole, each with
the promise in words above it.
