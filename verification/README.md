# Mainstay

Registries of industrial assets and of certified maintenance engineers, and the
maintenance life-cycle that turns an asset's verified service history into a collateral
score that decays with time.

- `src/` is the verified library: each contract is a state value whose entry points are
  methods with contracts over a mathematical view of the state (`asset_registry`,
  `engineer_registry`, `lifecycle`), the laws that relate the entry points
  (`*_laws`), and the small verified containers they are built on (`table`, `paging`).
- `app/` holds the Soroban contracts: authorisation, the ledger clock, the calls between
  the contracts, storage and event publication around the library.
- `tests/` runs the library on the scenarios of the contracts' documentation.
