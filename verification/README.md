# satellion

The wallet logic of a desktop Bitcoin and Ethereum wallet, written in Verus:
each function states in its contract what it returns or changes, and Verus
proves the code meets it.

## Layout

- `src/` — the verified library.
  - `btc/address.rs`: BIP-86 derivation paths, their text and raw forms.
  - `btc/neutrino.rs`: decisions of the compact-block-filter chain sync —
    the height shown, which blocks are kept, download retries, the node's
    lifecycle, and the wallet's outputs in a matched block.
  - `chain/btc/`: accounts (key chain and UTXO set), coin selection (exact
    knapsack match, else largest first), the master key of a mnemonic and the
    BIP-86 taproot keys, scripts and addresses of paths, payment and CPFP
    planning (amounts, fee, change path) and the layout of their inputs and
    outputs, wallet discovery as a scan/walk state machine and the merge of
    its result, persistence records, Electrum answers, the fee estimate
    target.
  - `chain/eth/`: the account list and per-account token watch list, the
    token a transfer names, balance views, signing-key paths and addresses,
    persistence records, addresses in hexadecimal and EIP-55 form.
  - `biometric/`: enabling, migrating and unlocking with biometrics, on the
    backend for platforms without them, and what a finished prompt means.
  - `commands.rs`, `chain/btc/commands.rs`: what the commands read from the
    user's text — recipient addresses for the wallet's network, amounts in
    satoshis, transaction ids.
  - `text.rs`: decimal and hexadecimal rendering.
- `tests/` — tests of the library, run against the compiled crate.
- `app/` — what the library leaves to ordinary Rust: serde forms of its
  records, JSON storage, floating-point fee rates, PSBTs built from the
  library's layouts and signed with `bitcoin` and `miniscript`, the secret
  box around passphrases, the Electrum connection, and the loops that drive
  the library's state machines.

Calls into `bitcoin`, `bip39`, `alloy` and `alloy-signer-local` made by the library go through a few
`external_body` functions, each documented with what its contract claims of
the outside code.

The UTXO set and the key chain's labelled paths are vectors with an
invariant (no outpoint twice; for a path, the last label wins) rather than
hash maps: their keys are structs, for which vstd's hash-map specifications
prove nothing.
