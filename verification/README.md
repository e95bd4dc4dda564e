# axon

The verified core of the AXON build runtime, an agent pipeline that turns an
architecture document into code.

- `src/` is the library, written in Verus: the project IR and its canonical
  paths, the dependency graph and module topology, IR validation, the
  Markdown/Mermaid spec reader and the tolerant spec extractor, the Win32
  platform contract, the semantic ontology checks, the rewrite detector, the
  header slicer, the normalisation of agent output, and the decisions of the
  task pipeline (the attempt state machine `gates::gate_step`: physical
  checks, then the Senior, then the Boss; retries, promotion, phases, the
  Boss Board). Each
  public function states its result in its `ensures`; the laws that relate
  several functions are public proof functions (`lemma_*`).
- `tests/` runs the library on concrete inputs.
- `app/` is the host side: the JSON forms of the IR (serde), reading and
  writing files, float scores, and the loops that drive a task and a run
  through an outside host.

Outside crates: `regex`, `serde_json` and `pulldown-cmark` are called from
the library through a few trusted wrappers whose contracts name what the
crate returns; `serde` is used by `app/` only.
