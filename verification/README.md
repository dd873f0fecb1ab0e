# sistema_pedidos_rust

An order engine: carts are checked against the inventory and turned into
orders, all or nothing.

- `src/` is the verified library (Verus). It holds the tables as in-memory
  values (`schema::Database`, `logic::Database`) and the rules that act on
  them:
  - `inventario`: a cart processed pair by pair against the stocks left so
    far (`planificar`), with its specification `aplicar`;
  - `db`, `logic`: registering an order, with the database unchanged on any
    refusal; `logic::setup_db` inserts the seed products;
  - `bot`: the chat assistant's replies;
  - `leyes`: proved properties (stock accounting, fresh ids, consecutive
    carts, idempotent seeding).
  Money is held in integer cents.
- `app/` is the web gateway (axum, tokio, SQLite through r2d2): it reads the
  rows an order needs into the library's model, calls the library, and
  writes the result back in one SQLite transaction.
- `tests/` exercises the library on concrete values.
