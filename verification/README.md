# risk_engine

A verified risk engine for a small exchange. It keeps each user's balances in
five currencies, grants a withdrawal only where the balance covers it, keeps
the granted withdrawals pending per user, and books completed trades against
them.

- `src/` is the library, verified with Verus:
  - `amount.rs`: the unit of amounts and arithmetic held at the limits of `i64`;
  - `account.rs`: accounts, their model, and the laws of orders on them;
  - `account_order.rs`: accounts ordered by their owner's id;
  - `risk_engine.rs`: the engine, its model, withdrawals, settlements and
    their laws.
- `tests/` runs the library on concrete values.
- `app/` is the service around it: the JSON forms of the values, the data set
  on disk, the REST API (gotham) and the Kafka consumer.

Amounts are whole numbers of the smallest unit: `UNITS_PER_COIN` of them make
one coin. The service converts the floating-point amounts of its JSON to and
from that unit.
