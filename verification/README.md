# haberlendir

A news service library: it reads RSS, Atom and JSON feeds into news items,
cleans their HTML, and decides what the HTTP API answers and what the store
selects, keeps or removes. The contracts and proofs are checked by Verus.

- `src/text.rs`, `src/parse.rs`: characters, white space, trimming, literal
  replacement, lines, and the number and boolean syntax of query values.
- `src/markup.rs`: removal of HTML tags by the tag patterns of the readers,
  and the `src="..."` capture.
- `src/entities.rs`, `src/channel.rs`: what outside code computes (HTML
  character references, upper case, feed parsing, the clock). Feed bytes
  are read only where `is_parse_safe` holds: `feed_rs` can panic on some
  media and iTunes play times, so the server passes such pages over.
- `src/news/`: the feed reader and its news items.
- `src/feed.rs`, `src/parser.rs`: the news item shown on a terminal, and
  the reader that makes it.
- `src/database.rs`, `src/router.rs`, `src/middleware.rs`: store queries, API
  answers, access control.
- `app/`: the server (axum, MongoDB, reqwest, the scheduler).
