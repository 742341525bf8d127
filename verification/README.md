# Local Bite

Services of a production-tracking platform for small food producers: raw
materials and their consumption by production batches, products with their
policies, stock reservations for orders, QR codes and images, and a read model
that projects integration events for traceability and dashboards.

## Layout

- `src/` — the verified library (Verus): the services' rules, each with its
  contract; reading and writing rows, files and messages is left to `app/`:
  - `materials/` — raw materials, their listing and update rules, and the
    consumption ledger (all-or-nothing, retry-safe, compensated by release).
  - `products/` — product policies, updates and deletes, stock reservations,
    production outputs, provenance, QR codes, images and certificates.
  - `read_models/` — event projection and the read-side scope checks.
  - `auth.rs`, `events.rs`, `numbers.rs`, `dates.rs`, `text.rs`, `pagination.rs`,
    `sorting.rs` — claims, events, exact decimals, dates, text, pages and sorting.
- `tests/` — tests of the library on concrete values.
- `app/` — the HTTP services, database access and message consumers around the
  library; `app/main.rs` runs one service, named by its first argument.
