# rail_common

Shared logic of the rail status services, verified with Verus.

- `src/matcher.rs`: which catalogue lines an incident affects and how
  precisely (exclusive segment, shared segment, station, keyword, operator),
  with the per-operator filter on operator-only matches; `LineMatcher` keeps
  a catalogue keyed by line id and answers with sorted, duplicate-free ids.
  `src/matcher_laws.rs` proves properties of the whole answer.
- `src/catalogue.rs`: line definitions, incidents and the segment registry.
- `src/endpoint_guard.rs`: the `https` and public-address rules for URLs
  that server-side code sends requests to.
- `src/oauth.rs`: OAuth client credentials, refresh deadlines and the token
  cache's decisions. The clock arithmetic and comparison of `Instant` are
  the standard library's: the contracts speak of them through the names
  `instant_plus_secs` and `instant_lt`, so a deadline is proved to be the
  clock's sum of the right window (or the one-day fallback, or `now`), and
  a cached token to be handed out exactly while the clock reads strictly
  before it; what those sums and comparisons come to on a given machine is
  not proved.
- `src/metrics.rs`, `src/text.rs`: metric names; text helpers.
- `app/`: the I/O around the library (Prometheus listener, token HTTP fetch
  and locks, DNS resolution, `clap` settings).
