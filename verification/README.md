# cep — hourly electricity prices, verified core

A command-line client for ComEd's hourly-pricing API. The library under
`src/` holds the logic, with its contracts and proofs:

- `config` — option validation (type, average, format, dates in US Central
  time, interval), interval parsing (`5m` … `7d`), API date formatting;
- `bucket` — turning API entries into time-ordered price points (a stable
  sort), and grouping points into consecutive windows, with the laws that
  the windows tile the range and that their counts add up;
- `time` — instants and spans as seconds and nanoseconds, and the calls into
  `chrono` / `chrono-tz` that convert them;
- `text` — integer parsing and printing as Rust's `FromStr` / `Display` do;
- `api`, `error` — request URLs, errors and their messages.

`app/` is the program around it: command-line parsing (`clap`), HTTP
(`reqwest`), JSON decoding (`serde`), floating-point prices and averages,
and the text / JSON / YAML / CSV writers.
