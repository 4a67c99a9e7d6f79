# domlist

Collects stat information from `virsh` on a libvirt compute node (mainly for
OpenStack admins) and prints one table row per domain:

```
+--------------------+-----------------+---------+--------+--------+--------+---------+
|       Domain       |    Instance     | CPU(G)  | MEM(G) | I/O(G) | NET(G) | Disk(G) |
+--------------------+-----------------+---------+--------+--------+--------+---------+
| vmcloud01-aaaaaaaa | aaaaaaaaaaaaaaa |  282606 |  33/33 |   7234 |  26510 | 158/171 |
+--------------------+-----------------+---------+--------+--------+--------+---------+
```

Run `domlist [HOST]` with an ssh-agent holding your key; without a host the
local machine (`127.0.0.1`) is used.

## Layout

- `src/` — the library, verified with Verus:
  - `text.rs`: characters, trimming, splitting, searching, decimal numbers;
  - `domstats.rs`: reading the `virsh domstats` report into records;
  - `instances.rs`: attaching OpenStack instance names by domain name;
  - `commands.rs`: the remote shell commands and single-word quoting;
  - `report.rs`: the table rows and the marking of the top consumers;
  - `session.rs`: the decisions around the SSH session (host key, login,
    exit status).
- `app/main.rs` — the program: arguments, the SSH session, printing.
- `tests/` — tests of the library on concrete inputs.
