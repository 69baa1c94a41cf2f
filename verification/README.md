# Conversion GTFS temps réel — RTC Québec

Turns the real-time API of the RTC (the one the RTC Nomade app uses) into a
GTFS Realtime vehicle-position feed: each bus reported by the API is matched
with the GTFS trip of its route that starts at the first stop of its schedule
nearest to the scheduled time.

The library (`src/`) is verified with Verus:

- `texte` — decimal numbers, splitting on a separator, substring search;
- `calendrier` — calendar dates and the `YYYY-MM-DDThh:mm:ss` times of the API;
- `fuseau` — instants in the Montréal time zone, RFC 3339 timestamps and
  durations (computed by chrono and chrono-tz);
- `modele` — the data of the API, of the static GTFS feed and of the result;
- `association`, `index` — trips by route, schedules by trip and bus;
- `depart` — when each trip starts on the first day of its service;
- `appariement` — which trip a bus serves;
- `flux` — the vehicle entities and the feed;
- `requetes` — the API addresses, the list of requests, the retry rule.

`app/` fetches the API with reqwest, decodes the JSON with serde, reads the
static GTFS feed with gtfs-structures and encodes the result with
gtfs-realtime.
