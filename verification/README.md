# nft_staking

Staking logic for a Metaplex Core NFT collection, verified with Verus.

- `src/` is the verified library: reward arithmetic (`rewards`), the decimal
  timestamps kept in asset attributes (`decimal`), the configuration and
  attribute types (`state`), one function per instruction (`instructions`), and
  the properties that span several calls (`laws`).
- `app/` is the Anchor program around it: account validation, the clock, plugin
  reads and the cross-program invocations to Metaplex Core and the token program.
- `tests/` exercises the library on concrete values.
