# llama_admin_monitor

The core of an admin monitor for [llama.cpp](https://github.com/ggml-org/llama.cpp)
servers, written in Verus: every function in `src/` carries a contract that
the verifier proves, except a few small wrappers whose contracts are
trusted: three around std calls (`String::push`, `Path::parent`,
`str::to_lowercase`) and, in `doc`, those that parse, query and rewrite
JSON and YAML text with `serde_json` and `serde_yaml_ng`.

## Layout

- `src/` — the verified library.
  - `server_args` — the llama-server command line for a preset;
    `launch` — which binary a preset runs and the devices it lists;
    `diagnose` — why llama-server exited, from its last error lines;
    `server` — the launched server's state (running, configuration, last
    error) as launches, stops and exits change it.
  - `system` — `/proc/stat`, `/proc/meminfo`, `/proc/diskstats`, `df`,
    `dmidecode` readings and the `smartctl --json` report; `gpu` — card names, `nvidia-smi`
    rows, per-process GPU use, backend detection.
  - `models` — which `.gguf` files are listed, how projectors pair with
    models; `gguf` — the chat-template check on a GGUF header; `hf` —
    Hugging Face URLs and file lists.
  - `builds` — prebuilt llama.cpp installs; `update` — in-app updates;
    `bench` — benchmark sweeps; `metrics` — slot counters.
  - `applog` — the event log ring; `dsh`, `pi` — the two coding agents
    and the settings files they are pointed at;
    `web` — proxy headers, the dashboard page, the file browser listing,
    and which model delete and download requests are accepted.
  - `text`, `order` — the string toolkit and the stable sorts the rest is
    built on; `doc` — JSON and YAML documents, read and written through
    the serde crates.
- `app/` — the `llama-admin-monitor` command line: it reads the machine
  (files, GPU tools, model headers, configuration files), calls the library
  and prints JSON. Floating-point readings (temperatures, power, rates) are
  worked out there.
- `tests/` — tests of the library on concrete values.

The `law_*` proof functions state properties that hold across calls, such
as "a poll from the previous newest entry reads back exactly what was
pushed" (`applog`) or "reading more of a GGUF file never changes an answer
the bytes read so far already give" (`gguf`).

Three lookups keep their data in plain vectors rather than maps:
`unique_card_key` takes the keys already in use as a slice, per-process GPU
use is a `Vec<DrmTotal>` of `(pid, client)` totals in first-seen order, and
`parse_nvidia_csv` returns its rows in input order. A map keyed by a
`String`, or by a derived struct, would rest its contracts on `Hash`, `Eq`
and `Ord` impls that the verifier does not read; with vectors the
uniqueness and order those maps gave are stated, and proved, outright.
