# lauras

Structured, deterministic review of plans and documents, grounded in Laura Serna
Gaviria's Human–AI Co-Evolution research: four lenses (`eight_layer`, `uip_check`,
`resonance`, `ecocentric`) and a fifteen-agent team review with a synthesis layer.
Every finding quotes the span of the submitted text it reacts to.

The library in `src/` is written in Verus: each public function states what it
returns in its contract, and the properties the project promises (evidence quoted
from the text, blank input reported as an error, the team running exactly the
requested agents, the rate limit, …) are proved there as `law_*` proof functions.

- `src/strs.rs` — character-level text primitives (trimming, splitting, matching,
  UTF-8 byte positions, spans).
- `src/text.rs` — sectioning by markdown headings or blank-line paragraphs.
- `src/lenses/` — the four lenses; `resonance` holds the sectioning, term vectors
  and heading pairing, its `f32` scores are computed by the server.
- `src/similarity.rs` — term-frequency vectors. They are kept as two parallel
  `Vec`s (each word once, in order of first occurrence) rather than a `HashMap`
  keyed by `String`: Verus's specifications of `HashMap` do not let proofs go
  through with `String` keys, so the vector is a collection of the library's own
  with that invariant.
- `src/agents.rs`, `src/orchestrator.rs`, `src/lcs.rs` — the team and its synthesis.
- `src/mcp.rs`, `src/api.rs` — the decisions of the MCP and HTTP surfaces (routing,
  API keys, rate limit, configuration).
- `app/` — the server: JSON, HTTP (axum), stdio MCP, and the floating-point
  similarity scores.
