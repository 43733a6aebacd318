# tapo_exporter

Exports temperature and humidity of the sensors behind a Tapo H100 hub to
Prometheus. What the exporter decides and computes is a library verified with
Verus; the program around it does the input and output.

## The library, `src/`

- `text`, `numeral`: characters, splitting, and numbers in a base.
- `address`, `address_laws`: reading and writing IPv4 and IPv6 addresses. What
  is written of an address reads back as it, and normalizing is idempotent.
- `clock`: the time since boot.
- `log_filter`, `config`: the environment variables `TAPO_USERNAME`,
  `TAPO_PASSWORD`, `TAPO_HUB_IP` and `RUST_LOG`, and what can be wrong with
  them. No error depends on what the password is.
- `http`, `http_laws`: `GET /metrics`, `GET /healthz`, 405 for other methods
  there, 404 elsewhere, and which requests are logged: failures always,
  successful metrics requests at most once per hour since boot, nothing else.
- `metrics`: the gauges `room_temperature` and `room_humidity`, labelled with a
  sensor's nickname as `name`.
- `sensor`: when the hub is polled, and when a successful poll is summarized.
- `shutdown`, `supervisor`: signals, the order of startup, and what the end of
  a task means for the process.
- `record`: what is written to the log.
- `recorder`: the calls of the metrics recorder.

Instants are the time since the process booted, and a temperature is carried
as the bits of its floating-point number.

## What is trusted

- `char::is_whitespace` of the standard library, in `text`, and
  `char::is_alphanumeric`, in `log_filter`.
- `EnvFilter::try_new` of `tracing_subscriber`, in `log_filter`.
- `PrometheusHandle::render` and `PrometheusHandle::run_upkeep` of
  `metrics_exporter_prometheus`, in `recorder`.

## The program, `app/`

Reads the environment, serves HTTP on `0.0.0.0:3000`, polls the hub and sets the
gauges, as the library says.
