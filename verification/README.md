# pgqueue

A Postgres-backed job queue for Rust, with its rules verified by Verus. An application
that already has a Postgres pool needs nothing else: no Redis, no broker.

    pgqueue migrate
    pgqueue enqueue --queue emails --job-type welcome_email --payload '{"to":"a@b.com"}'
    pgqueue recurring-add --name nightly --job-type digest --cron "0 3 * * *"
    pgqueue worker --queue emails
    pgqueue scheduler
    pgqueue dashboard

## Layout

- `src/` is the library. Everything in it is verified.
  - `cron`, `cron_field`, `cron_error`: five-field cron expressions, their errors, and the
    next time at which one fires; `calendar`, `timestamp` and `steps` are the dates and
    instants below them, `cron_laws` what holds of every expression.
  - `backoff`, `retry`: how long a failed job waits, and when it is parked as dead.
  - `job`, `tables`, `queue`: the rows, what each operation does to the two tables, and a
    queue in memory that does it. `queue_laws`, `retry_laws` and `recurring_laws` hold what
    is true over several operations: whatever the workers, no job is claimed twice; a job
    dies after `max_attempts` failures and no sooner; registering a definition again changes
    nothing; whatever the schedulers, no occurrence fires twice.
  - `worker`, `scheduler`: the decisions of the two loops.
  - `dashboard`, `report`, `payload`, `text`: the page, the lines of the command line, and
    the texts they are made of.
- `app/` is the command line: it runs the loops against Postgres, with the SQL that carries
  out the operations of `queue`, carries the schema, and serves the dashboard.
- `tests/` are the tests of the library.

## What is trusted

`chrono` answers the calendar questions in `timestamp`, and `serde_json` holds the payloads
(`job`) and reads them (`payload`). Each of these calls stands in one small function whose
contract says what is taken from the crate. The SQL in `app/` is not verified: `tables`
says what its statements are meant to do.

## Cron expressions

`minute hour day-of-month month day-of-week`, each `*`, a list (`1,15,30`), a range
(`9-17`) or a step (`*/5`, `1-30/5`). Sunday is day 0. When both day fields are restricted,
a day fires if either names it. A missed run is not made up for: the next tick goes on from
the present.
