# facl-rs

A keyboard-driven terminal editor for Linux POSIX ACLs, written in Verus.
The editing logic is a verified library; a thin terminal program around it
runs the system tools (`stat`, `getfacl`, `setfacl`, `chown`, `getent`, `id`)
and draws the screen.

## Layout

- `src/model/` — permission bits, ACL entries and whole ACLs: the canonical
  order, masks, effective permissions, normalization and the `setfacl` text.
- `src/backend/` — what the system tools print and are given: parsers for
  `getfacl`, `stat`, `id` and `getent` output, and the arguments and input of
  `getfacl`, `setfacl` and `chown`. Reading `setfacl` text back gives the same
  ACL.
- `src/app/` — the editor as a state machine. A key (`handle_event`) or the
  outcome of outside work (`resume`) yields the next state and the next
  `Action` to perform: look up an identity, back up, change ownership,
  write the ACL, read the object again. The text of the preview, help and
  editor panes is computed here too; `laws.rs` states what holds across
  keys and outcomes.
- `src/text.rs` — character-level helpers shared by the parsers and printers.
- `app/` — the program: command-line parsing, the terminal, running the
  tools, and drawing.
- `tests/` — scenarios on concrete values.

## Usage

```sh
facl-rs                     # edit the current directory
facl-rs /srv/share          # edit a specific path
facl-rs --read-only ./proj  # inspect without changing anything
facl-rs --mask=manual /data # never let the tool touch the mask
```
