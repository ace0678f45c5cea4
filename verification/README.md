# webscraping

A verified library for scraping song lyrics from musixmatch pages.

- `src/text.rs`: splitting, line breaking, substring search and joining of
  character sequences, with their specifications and lemmas.
- `src/html.rs`: what the `scraper` crate reads from a page (the text under
  `div` elements, the targets of links).
- `src/lyrics.rs`: the lyrics of a song page, the album and song links of
  listing pages, the URLs and file paths built from them, and the keyword
  search over lyrics, with the laws that relate them.
- `src/keyword_search.rs`: which search-index operation a command asks for.
- `src/spotify.rs`: the lyrics path of a playlist track.
- `app/`: the program around the library: command-line parsing, fetching
  pages, saving files, the seekstorm search index and the Spotify client.
