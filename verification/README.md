# h33_cli

The H33 terminal companion: a verified library (`src/`) and the command-line
program around it (`app/`).

`src/` holds the logic, each function with a contract proved by Verus:

- `url` — URL joining, URL detection, query percent-encoding;
- `auth` — which header a credential travels in;
- `config` — `.env` and `~/.h33/config.toml` reading and the lookup order
  environment → `config.toml` → `.env` → `.env.local`;
- `rules` — the detection-rules reader and the line scanner (through `regex`);
- `digest` — the project fingerprint (SHA3-256 through `sha3`, hex through `hex`);
- `json` — the ownership-proof and scan-baseline documents (through
  `serde_json`);
- `substrate` — offline checks of `X-H33-*` response headers (through
  `h33-substrate-verifier`);
- `doctor`, `api`, `numfmt`, `text` — report checks, request paths, status
  handling, plans, number formatting and character helpers.

`app/` reads the environment and files, talks to the network, spawns
processes and prints; it hands plain values to the library.
