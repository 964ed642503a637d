# solana_vanity

Finds Solana keypairs whose base58 address starts and/or ends with a chosen
text, optionally ignoring case, and stores the found keypair as the 64-byte
JSON array that the Solana CLI reads (secret key bytes, then public key
bytes).

The library under `src/` is verified with Verus:

- `base58` — the base58 text of byte strings, and the facts proved of it
  (every character lies in the alphabet).
- `text` — character helpers: prefix/suffix tests, padding, trimming and
  lowercasing.
- `pattern` — the vanity pattern, how an address is matched against it,
  which pattern characters no address can hold, and the average number of
  keys a pattern takes to find.
- `keypair` — drawing an Ed25519 keypair and checking it against a pattern.
- `json` — the JSON text of a keypair file.
- `report` — the CPU model named in `/proc/cpuinfo`, hardware table rows and
  the unit a duration is shown in.

`app/main.rs` is the command-line program around it: argument parsing,
threads, timing, benchmarking, printing and file output.

Usage:

```sh
solana-vanity --prefix Brn                      # exact prefix
solana-vanity --suffix xyz                      # exact suffix
solana-vanity --prefix bron --case-insensitive  # ignoring case
solana-vanity --benchmark                       # measure keys per second
```

Base58 has no `0`, `O`, `I` or `l`; the program warns when the prefix or
suffix holds one of them (or any other character outside base58), since such
a pattern can never match exactly.

The search runs on the CPU only: there is no OpenCL/GPU search.
