# vcp-iptv-manager

An IPTV play-address manager: it pulls M3U/M3U8 playlists from registered
sources, stores the stream addresses in SQLite, checks them periodically,
serves them over a REST API (paging, filters, M3U8 export) and forwards
pull-and-snapshot tasks to a media server.

## Layout

- `src/` is the verified library (Verus). Every rule the service applies is
  here with its contract:
  - `m3u` reads playlists: `#EXTINF` names and attributes, URL resolution,
    simple-playlist entries, master-playlist sub-streams sorted by width, and
    what a scrape does with a downloaded body;
  - `validation` reads a stream's response (validity, resolution, bitrate)
    and tallies a verification run;
  - `export` renders the M3U8 export, grouped by channel name;
  - `sql` builds the listing queries and the stale-address clean-up;
  - `config` holds the defaults, the legacy `INITIAL_SOURCES` format and the
    environment overrides;
  - `pull` and `tasks` hold the media-server protocol (protocol detection,
    endpoints, percent-encoding) and the decisions of the pull-task center;
  - `api` holds the paging and validation rules of the HTTP API;
  - `num` and `text` are the integer and text primitives they rest on.
- `app/` is the service around it: configuration file and environment,
  SQLite, HTTP client and server, the scheduler and the task center's
  asynchronous loop.
- `tests/` exercises the library on concrete values.
