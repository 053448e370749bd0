# lean_engine

The engine of an algorithmic-trading platform: it turns subscriptions into a
time-ordered stream of slices, runs backtests and live deployments over it,
routes orders to brokerages, and writes the artifacts of a run.

The library under `src/` is written in Verus. Each function carries its contract
and is proved against it. What it does not do itself (storage, channels, HTTP,
clocks, floating-point statistics) stands in `app/`, which performs the actions
that the library decides on and hands their outcomes back.

## Layout

| module | what it holds |
| --- | --- |
| `time`, `decimal`, `text`, `model`, `name_map`, `sorting` | values: instants and dates, decimal numbers, text, market data, ordered maps, stable sorts |
| `data_feed` | fetch policy, retries, the cache of bars to write, the context of a feed |
| `subscription_reader` | windows, coverage of stored data, fetch decisions, ordering and emission of points, streams |
| `slice`, `slice_synchronizer`, `subscription_data`, `data_manager` | slices and their merge from many streams |
| `history_service`, `history_subscription`, `research` | history requests and the research notebook |
| `normalization`, `options_service`, `orders`, `algorithm_services` | price adjustment, option chains, orders, services for algorithms |
| `live` | brokerage routing, the transaction handler, the brokerage worker |
| `runner` | backtest and live runs as state machines, subscription plans, the stream writer |
| `artifacts`, `result_handler`, `backtest_engine`, `runtime_context`, `engine_config` | results, their upload, day boundaries, configuration |

Proof functions whose names begin with `law_` state what holds across functions,
such as that slices never move back in time, that an order is not submitted
twice, and that a slice holds no data before its instant.

Functions marked `external_body` wrap calls into chrono, rust_decimal, num_cpus
and the standard library. The comment above each one says what is taken from
that call without proof.

`tests/` runs the library on concrete values.
