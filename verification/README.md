# sysmaster_exts

The logic of the sysMaster extension programs, as a library verified with
Verus: the device manager's rule language (loading, the walk over the
rules, which device value each matching token compares and whether it
matches, what each formatter stands for and the formatted value, the
per-device decisions, symlink claims), the helpers
it shares (name escaping, property lines, program spawning plans), and the
decisions of the small tools (getty generator, host name setup, random
seed, machine id, transient runs, the init supervisor's state machine, the
system monitor's settings).

- `src/` is the library; every function in it carries a contract that
  Verus proves. Calls into `regex`, `fnmatch-regex`, `shell-words` and
  `nix` go through a few trusted wrappers, each documented where it stands.
- `tests/` runs the library on concrete values.
- `app/` holds the programs around the library: reading and writing files,
  sockets, signals and processes, and the command lines.
