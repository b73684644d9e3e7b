# mellow_ui

The logic of the artists and lyrics pages of a GTK music player, with its
contracts proved.

- `src/order.rs`: three-way comparison outcomes, integer and byte-string order.
- `src/text.rs`: characters of strings, line splitting, trimming, decimal parsing.
- `src/lyrics.rs`: LRC lyrics: reading time-tagged lines, the stable sort by
  time, and the line that follows the playback position.
- `src/artist.rs`: artist sort keys, the orderings of the artists page, and
  its filters.
- `src/artists_page.rs`: the state of the artists page and its reactions to
  its widgets.
- `src/ui.rs`: UI requests, sort configurations, filter modes, showing the queue.
- `app/`: the UI channel, floating-point conversions and GTK widgets.
