# phi_avx512

AVX-512 code on a Knights Corner card, and a program's matrix multiplies
shared with it. The library holds what decides and computes; `app/` holds the
windows, the clock, the environment and the floating point.

| module | what it does |
| --- | --- |
| `mvex` | encodes the card's vector instructions |
| `xlate` | rewrites AVX-512 instructions into them, in place or as out-of-line sequences, and lays those out |
| `kernelgen` | writes the card's kernels as assembly |
| `vpu` | the requests in the shared window, weights and activations by their bits, what a check multiplies |
| `ggml` | which rows the host and each card take of a multiply, and whether that pays |

## What is proved

Every function of the library states what it returns. The sequences of `xlate`
are described step by step (`xlate::prog`), and the bytes emitted are those of
the description. What a description means is told by a model of the card's
registers and memory (`xlate::meaning`), to which `xlate::card` adds the flags,
the general registers as qwords and x87. The modules named `*_results` hold what
follows in it, each law for the forms it names: which AVX-512 instruction a
sequence computes, how the result is written under a mask and a vector length,
what is read from memory. The model leaves open what the card's own arithmetic
computes, so that the laws on arithmetic say which card instruction is run on
which elements; the same holds of what x87 converts. Division and square roots
have no law on their results. Masks are sixteen bits wide, and a law on masks of
32 or 64 bits is about values that fit. What the card cannot do as AVX-512 does
it is refused with a reason. `xlate::sparing` holds that a sequence writes
nothing but its destination and what it saved before.

The lines of two kernels are run on a model of the core
(`kernelgen::machine`): the copy copies what it should and writes nothing else,
and the rate kernel gives back the registers it uses (`kernelgen::runs`).

Decoding is `iced-x86`'s; what its decoder returns is named, not proved
(`xlate::insn`).

## Tests

`tests/run.rs` runs rewritten instructions on a small machine and compares
every register with what AVX-512 leaves. The other files hold encodings,
refusals, layouts, kernels and the sharing of multiplies.
