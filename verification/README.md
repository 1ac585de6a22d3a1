# let-smi-core

GPU discovery and telemetry: providers observe devices and metrics, the library decides which
observations speak of the same device, which value of a metric counts, and what a snapshot says of
it. The decisions are written in Verus and proved against their contracts.

## Layout

- `src/` is the library.
  - `model`, `error`, `provider`: the data and the traits of providers.
  - `correlation`, `canonical`, `normalize`, `union_find`: which observations belong together, the
    device that they describe, and its stable name. `correlation_laws`, `correlation_order` and
    `normalize_laws` hold what follows for every set of observations.
  - `merge`, `snapshot`: which value of a metric is selected, why one is missing, and the snapshot
    of a device. `merge_laws` and `priority_laws` hold what follows for every set of values.
  - `monitor`, `sampler`, `slot`: the monitor over its providers, the schedule of subscriptions,
    and the stream of a consumer. `monitor_laws` holds what follows whatever providers answer.
  - `providers`: Linux sysfs and hwmon, NVML, DXGI, PDH, Metal, IOReport and the system management
    controller, as far as they decide or compute. `host` is the provider around anything that asks
    the host; of its answers nothing is taken for granted.
  - `text`, `ordered`, `sorted_map`, `json`, `binary64`, `float_arithmetic`, `float_order`: what the
    rest is built from. A double-precision value is held as its bits; sums, products and quotients
    are those of IEEE 754, rounded to nearest.
- `tests/` runs the library.
- `app/` is the host side: it reads files, calls drivers, runs the sampling thread, and serves the
  JavaScript addon. What it reads goes to the library as plain values.

## What is taken on trust

The contracts of a few functions of std and of `blake3` are stated, not proved. Each stands behind
an item whose comment says what is claimed: `String::push`, `String::from_utf8`,
`String::from_utf8_lossy`, `String::from_utf16_lossy`, the clock, and `blake3::hash`.
