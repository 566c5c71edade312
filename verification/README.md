# mnestic

A relational store that answers Datalog scripts and remembers: a relation can
have a valid-time axis (when something holds), a transaction-time axis (when it
was recorded), or both. Every executable function is verified with Verus against
a mathematical model of the store.

```text
:create hist {k, v: Validity, tt: TxTime => x: Int}
?[k, v, x] <- [[1, [200, true], 2]] :put hist {k, v => x}
?[x] := *hist[k, v, t, x @ (vt: 250, tt: 1700000000000000)]
```

## How it is laid out

| Layer | Modules |
| --- | --- |
| Values and rows | `value`, `fixed_point`, `list`, `table`, `text`, `codec`, `vector`, `schema` |
| Time | `temporal`, `scan` |
| Language | `lex`, `parse`, `parse_query`, `parse_script`, `query`, `stmt`, `expr` |
| Queries | `order`, `route`, `bind`, `eval`, `strata`, `aggr`, `fold`, `topk`, `rules`, `graph` |
| Writes | `write`, `write_tt`, `mutate`, `sysop`, `script` |
| Indices by content | `fts`, `lookup`, `search`, `content` |
| Listings | `listing`, `explain` |
| Databases | `store`, `db`, `instance`, `backup`, `fixtures`, `error` |
| Laws | `law_*`, `history_*` (the history that `fixtures` makes), and functions named `law_*` beside what they are about |

Each executable type has a mathematical counterpart whose name ends in `V`, and
each function that can fail is specified by `outcome(r) == ...`: which value it
gives, and which error on which inputs.

## What to know

- Reals are kept in millionths, in 128 bits; beyond these they stay at the outermost.
- A transaction is given the present as an argument (`run_script_at`); the
  functions without that argument take it from the clock of the machine.
- What a transaction writes to a relation with transaction times is pending until
  it commits; then it gets one time, later than every earlier one.
- Indices by content are exact: vectors are compared with every vector, and texts
  by the runs that they share.
- Four functions are taken on trust: `db::wall_clock_micros`,
  `codec::string_of_bytes` and `fts::push_char`, each a call of the standard
  library, and `fts::stem_english`, a call of the crate `rust-stemmers`.
