# TransitPulse

Can I rely on this bus, at this stop, now? TransitPulse crosses the static
timetable of TEC (Wallonia) with its real-time feeds and answers for each line:
normal, perturbed, reduced, stopped, or unknown. A hole in the data is never
taken for a breakdown.

- `src/` is the library, verified with Verus. It decides everything and reads
  nothing: it takes plain values and gives plain values back.
- `app/` is the server around it: SQLite, HTTP, the capture of the feeds.
- `tests/` runs the library.

In `src/`:

| module | what it holds |
| --- | --- |
| `domain` | departures, and the verdict on a line |
| `realtime` | what is kept of the feeds, the cycles of capture, the raw archive |
| `archive` | the captured rows, one for each key |
| `gtfs`, `loader`, `loading` | reading the official timetable, and loading it anew |
| `timetable` | asking it: stops, services, departures |
| `status` | the status of a stop, from both |
| `network`, `today` | the share of cancelled trips of the day, commune by commune |
| `state` | a small invented network, for when there is no timetable |
| `api` | what each question is answered |
| `calendar`, `text`, `index` | dates, texts, finding a text |
| `ratio`, `order`, `table` | shares, sorting, keyed rows |

Coordinates and distances are carried as the bits of their doubles. Distances
are computed in `app/`; the library compares and orders them.
