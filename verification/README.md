# drift_risk

A portfolio risk service for Indian equities whose decisions are verified with
[Verus](https://github.com/verus-lang/verus).

A user uploads a portfolio, asks a question in plain language, and gets an
answer whose every number can be found in the evidence. The service plans which
experiments to run, runs them on a five-factor model of the market, keeps the
results, and reports how risk has drifted since the last time.

## Layout

- `src/` is the library. Everything in it is verified: planning and dispatch of
  experiments, input checks and their errors, alignment of price series, regime
  relabelling, policy checks, remediation, drift, grounding of narrations,
  schemas and requests for the language model, the snapshot store, uploads,
  reports and HTTP errors. Numbers with a fraction are held as the bit patterns
  of doubles (`double::Double`), which the library orders and selects but never
  computes with.
- `app/` is the program around it: arithmetic in floating point, HTTP, SQLite,
  the language model, PDF output, and the command line.
- `tests/` runs the library on concrete values.

## How the parts meet

An experiment goes through the library twice. A `plan_*` or `check_*` function
accepts the input or says what is wrong with it. The program then computes the
figures, and the library puts them in their places: which factor contributes
most, which limit is broken, which rules a rebalancing has resolved. Sentences
with numbers in them are `message::Message` values; the program writes the
digits.

## What is not proved

- Arithmetic in floating point, and all of `app/`.
- The calls into other crates. Each stands in a function marked
  `#[verifier::external_body]`, or under an `assume_specification`, whose doc
  comment says what is claimed of it.

## Running

    drift-risk                        # serve, port 8080 or $PORT
    drift-risk experiment shock.json  # run one experiment, print its trace

The service needs `GEMINI_API_KEY` and keeps its snapshots in
`$SNAPSHOT_DB_PATH` (default `/data/snapshots.db`).
