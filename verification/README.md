# fellm

The verified core of an LLM inference engine: GGUF model files, tensor shapes and element
types, quantized block layouts, tool-call parsing, run settings, and the books that the CPU
and CUDA backends keep about memory (static arenas, staging rings, device slots, swap and
page tables).

The functions of `src/` are proved by Verus against their contracts, with one exception:
a small set of trusted wrappers (marked `#[verifier::external_body]`) whose contracts are
assumed. They format error messages, hold the inline dimension vector of `smallvec`, and
call a few `str`/`String` operations of the standard library; each one's doc comment says
what its contract claims.

- `src/` — the verified library.
  - `dtype`, `shape`, `quant`: element types, shapes and strides, K-quant scale packing.
  - `reader`, `meta`, `file`: the GGUF container (header, metadata, tensor table).
  - `json`, `tools`, `text`, `output`: JSON, tool-call parsing, UTF-8 output flushing.
  - `config`, `run`: run settings (command line over file over fallback) and run decisions.
  - `cpu_profile`, `cuda`, `dispatch`, `kernels`, `arch`, `lfm2`: hardware profiles,
    backend modes, kernel selection and handle routing, model layer layouts.
  - `plan`, `fabric`, `paging`, `swap`, `ring`, `scheduler`: device and host memory
    layouts, and the state machines of weight prefetching.
- `tests/` — tests of the library on concrete values.
- `app/` — the command-line program: file and device I/O, CPUID probing, configuration
  parsing, and the floating-point settings.

Not here: the floating-point compute kernels, the CPU and CUDA backends' device code and
plugin interface, the graph builders, and the `run` command that generates text. They work
on floating-point values or need the engine's runtime crates, which this build does not
have; what they decide on integers (kernel selection, handle routing, expert maps, the
prefetch state machines, run settings) is in `src/`.
