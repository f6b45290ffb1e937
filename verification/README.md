# ryser

The core of a library browser for films and TV shows, written in Verus:
every function in `src/` carries a contract that Verus proves.

## Layout

- `src/` — the verified library.
  - `text`, `unicode`, `regex_match`, `paths` — character sequences,
    Unicode properties, regular-expression searches and path parts.
  - `file_utils` — safe file names.
  - `name_cleanup`, `patterns`, `search_name_creator`, `episode_detection` —
    reading titles, years, seasons and episodes from file names, and
    deciding whether a file is a TV episode.
  - `lang_map`, `playback_selection` — language codes and the choice of
    audio and subtitle tracks.
  - `video_element`, `file_reader`, `library`, `library_store`, `ordering` —
    the records of a library, rescans, and the list of libraries.
  - `json_structs`, `tmdb_client`, `tmdb_requests` — what is asked of TMDB
    and how its answers are merged into the records.
  - `video_player`, `notifications` — player command lines, the MPC-HC
    dialogue, and timed messages.
- `tests/` — tests of the library.
- `app/` — the application around it: files on disk, HTTP requests to
  TMDB, external processes, and the commands the interface calls.
