//! Scraping lyrics and album listings from musixmatch pages, searching
//! lyrics by keyword, and the paths and commands built around them.
pub mod html;
pub mod keyword_search;
pub mod lyrics;
pub mod spotify;
pub mod text;

pub use lyrics::{
    Cli, Lyrics, _get_artist_name, _link_extractor, _parse_url_path, get_albums,
    get_artist_name, get_lyrics, get_songs, musixmatch_url, search,
};
