# property_values

Counts which property values occur on analytics events, and ships the counts.

Each event carries up to seven blobs of JSON text. The fan-out turns their entries into
`(team, type, key, value)` tuples, under length caps that the storage behind the output
topic accepts. A worker counts tuples in memory and, when a timer is due, its buffer is
full or the process stops, flushes the counts to the output topic. Input offsets are
committed only after a flush has been delivered; a flush that fails puts its counts back.

| Module | Holds |
| --- | --- |
| `types` | events, tuples, output messages, and their views |
| `json` | JSON blobs as the fan-out reads them; `serde_json` parses them and renders their values |
| `fan_out` | from a message to its tuples |
| `aggregator` | counts per tuple |
| `config`, `app_context` | settings; which teams are processed |
| `decimal`, `producer` | output records and their keys; when a batch counts as delivered; the outlet that every call of the producer goes through |
| `flush` | counts out first, offsets after |
| `worker` | one turn of the worker loop |
| `history` | what holds over every run of a worker |

`app/` connects the library to Kafka, timers, metrics and logs.
