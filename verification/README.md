# percolator

A risk engine for perpetual futures, written and proved in Verus, together with the order book
of a slab, prediction markets that never pay more than they hold, and the instructions of the
router.

Nothing here has been audited. Do not use it with real funds.

## What is promised

- **Capital is senior.** Losses are shared by deleveraging, which takes nothing but profit that
  has not matured, in proportion, and to the unit (`adl_laws`).
- **Profit warms up.** It becomes capital over a period, never in the slot in which its clock
  was set, as a trade or a forced close sets it, and never further than paid losses and insurance
  above the floor back it (`warmup_laws`, `soundness_laws`).
- **Funds are conserved.** Where nothing is clamped, an operation leaves what the vault holds
  beyond what is owed where it was, or moves it by an amount that its law states
  (`conservation_laws`, `funds_laws`, `close_laws`, `crank_laws`, `settle_laws`). Funding between
  positions that cancel out rounds in favour of the vault (`funding_laws`).
- **Accounts are isolated.** An operation on one account changes no other (`isolation_laws`).
- **The books are right.** Open interest is the sum of the positions, the exposure of liquidity
  providers is the sum over theirs, account ids are distinct, warmups are frozen in
  risk-reduction-only mode, and the slab of accounts is in order, after any sequence of
  operations, as long as there are ids left (`position_laws`, `soundness_laws`).
- **Nothing stays pending.** At the end of a sweep what liquidations left open has been paid or
  is noted as uncovered (`crank_laws`).
- **Orders keep price-time priority**, fills are bounded, matching moves quantity without
  losing any, and the average price is monotonic and within the prices of the filled orders
  (`orderbook_laws`).
- **A prediction market pays within its vault**, and capital before profit (`prediction`).

## Layout

- `src/` is the library. `state` holds the engine and its mathematical view; the modules named
  after operations hold the specification of each operation as a function on that view, and the
  code that is proved to compute it; the modules whose names end in `laws` hold what follows.
- `src/outside.rs` holds what is believed without proof: how addresses are read and derived, and
  what lower case is.
- `tests/` runs the library on concrete values.
- `app/` is the command line tool, which connects to a network, signs and sends.

All amounts are integers. Prices and sizes are scaled by a million, and arithmetic is
clamped or checked; where a law holds only if nothing is clamped, it says so.
