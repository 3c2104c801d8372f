# ashmaize-solver

A verified core for an AshMaize proof-of-work nonce solver.

- `src/` — the library, verified with Verus:
  - `difficulty` — the difficulty test on a hash and its properties;
  - `hex` — the 16-digit hexadecimal rendering of nonces and parsing of
    hexadecimal numerals (difficulty masks, nonces);
  - `challenge` — ROM parameters of a challenge, the challenge suffix and
    the preimage of a nonce;
  - `schedule` — how CPU threads and GPUs walk the nonce space, one step of
    a walk once a hash (or a batch of hashes) is known, and the choice of
    solver;
  - `batch` — host-side layout of GPU batches: packed salts, pre-allocated
    preimage slots, launch grid size, and cutting results into digests.
- `app/` — the command-line program: argument parsing, the AshMaize hash
  and ROM, CUDA device handling and the worker threads.
- `tests/` — tests of the library on concrete values.
