# llama_proxy

The logic of a proxy that stands between clients of the OpenAI and Anthropic
chat APIs and backends such as llama.cpp and vLLM: repairing malformed tool
calls, converting responses between the two APIs, choosing a backend, enriching
requests, checking the configuration, and deciding what metrics are exported.

The library under `src/` is written in Verus. Every function states in its
contract what it returns or changes, and Verus proves that it does.

| module      | what it holds                                                       |
|-------------|---------------------------------------------------------------------|
| `fixes`     | repairs of responses, the registry that runs them, and its log      |
| `api`       | the formats of the two APIs and the conversions between them        |
| `backends`  | nodes, load balancers, groups, and what is learnt before the start  |
| `config`    | the configuration, its defaults, its keys and its checks            |
| `augment`   | the enrichment of requests                                          |
| `exporters` | which metrics are exported, as what, and the queue of their writer  |
| `harness`   | what tests of the proxy need                                        |
| `json`      | JSON values, read and printed by `serde_json`                       |
| `text`      | texts                                                               |
| `text_map`  | maps with text keys                                                 |

Contracts speak of mathematical values: a `Json` of its `JsonView`, a text of
its sequence of characters. What holds across functions is stated by public
proof functions whose names begin with `law_`.

What is not proved is what other crates and `std` do. Each such call stands in a
small function of its own whose contract says what is taken for granted.

`app/` holds what touches the world: files, sockets, threads, clocks, and the
copies of the library's types that serde reads and writes. `tests/` runs the
library with the real crates.
