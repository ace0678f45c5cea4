use webscraping::lyrics::{join_div_texts, lyrics_target, matching_lines, present_links, Cli, Lyrics};
use webscraping::{
    _get_artist_name, _link_extractor, _parse_url_path, get_albums, get_artist_name, get_lyrics,
    get_songs, musixmatch_url, search,
};

fn strings(v: &[&str]) -> Vec<String> {
    v.iter().map(|s| s.to_string()).collect()
}

#[test]
fn search_finds_lines_ignoring_case() {
    let contents = String::from("Hello World\nfoo bar\nHELLO again\r\nnothing here");
    let found = search(String::from("hello"), contents);
    assert_eq!(found, strings(&["hello world", "hello again"]));
}

#[test]
fn search_query_case_does_not_matter() {
    let contents = String::from("Champagne Problems\nchampagne\nproblems");
    let a = search(String::from("CHAMPAGNE"), contents.clone());
    let b = search(String::from("champagne"), contents.clone());
    let c = search(String::from("ChAmPaGnE"), contents);
    assert_eq!(a, b);
    assert_eq!(b, c);
    assert_eq!(a, strings(&["champagne problems", "champagne"]));
}

#[test]
fn search_empty_query_keeps_every_line() {
    let found = search(String::new(), String::from("A\n\nB\n"));
    assert_eq!(found, strings(&["a", "", "b"]));
}

#[test]
fn search_line_endings() {
    // A final line ending adds no empty line; a lone carriage return stays.
    assert_eq!(search(String::new(), String::from("x\r\ny\r")), strings(&["x", "y\r"]));
    assert_eq!(search(String::new(), String::from("x\n")), strings(&["x"]));
    assert_eq!(search(String::new(), String::from("")), Vec::<String>::new());
    assert_eq!(search(String::new(), String::from("\n")), strings(&[""]));
}

#[test]
fn search_no_match() {
    assert!(search(String::from("zebra"), String::from("one\ntwo")).is_empty());
}

#[test]
fn parse_url_path_splits_on_slashes() {
    let parts =
        _parse_url_path("https://www.musixmatch.com/lyrics/Taylor-Swift/champagne-problems")
            .unwrap();
    assert_eq!(
        parts,
        strings(&["https:", "www.musixmatch.com", "lyrics", "Taylor-Swift", "champagne-problems"])
    );
    assert_eq!(_parse_url_path("//a//b/").unwrap(), strings(&["a", "b"]));
    assert_eq!(_parse_url_path("/").unwrap(), Vec::<String>::new());
}

#[test]
fn parse_url_path_rejects_empty() {
    assert_eq!(_parse_url_path(""), Err(String::from("URL cannot be empty")));
}

#[test]
fn parse_url_path_roundtrip() {
    let parts = strings(&["https:", "example.org", "a", "b"]);
    assert_eq!(_parse_url_path(&parts.join("/")).unwrap(), parts);
}

#[test]
fn lyrics_target_errors() {
    assert_eq!(lyrics_target(""), Err(String::from("URL cannot be empty")));
    assert_eq!(lyrics_target("https://x/a"), Err(String::from("No content here")));
    assert_eq!(lyrics_target("https://x/a/b"), Err(String::from("Empty")));
    assert_eq!(
        lyrics_target("https://x/lyrics/Artist/Song/extra"),
        Ok((String::from("Artist"), String::from("Song")))
    );
}

const PAGE: &str = "<html><body><div>Lyrics of the song</div><div>Writer(s): Someone</div><div>Mood Rating Meaning</div></body></html>";

#[test]
fn get_lyrics_cuts_page_at_writer() {
    let url = String::from("https://www.musixmatch.com/lyrics/Taylor-Swift/champagne-problems");
    let lyrics = get_lyrics(&url, Some(String::from(PAGE))).unwrap();
    assert_eq!(lyrics.artist, "Taylor-Swift");
    assert_eq!(lyrics.title, "champagne-problems");
    assert_eq!(lyrics.lyrics_section, "Lyrics of the song\n");
    assert_eq!(lyrics.other_section, "(s): Someone\nMood Rating Meaning");
}

#[test]
fn get_lyrics_second_section_ends_at_next_writer() {
    let url = String::from("https://www.musixmatch.com/lyrics/A/B");
    let page = "<div>one Writer two Writer three</div>";
    let lyrics = get_lyrics(&url, Some(String::from(page))).unwrap();
    assert_eq!(lyrics.lyrics_section, "one ");
    assert_eq!(lyrics.other_section, " two ");
}

#[test]
fn get_lyrics_nested_divs_repeat_text() {
    let url = String::from("https://www.musixmatch.com/lyrics/A/B");
    let page = "<div>a<div>Writer b</div></div>";
    let lyrics = get_lyrics(&url, Some(String::from(page))).unwrap();
    assert_eq!(lyrics.lyrics_section, "a\n");
    assert_eq!(lyrics.other_section, " b\n");
}

#[test]
fn get_lyrics_without_writer_fails() {
    let url = String::from("https://www.musixmatch.com/lyrics/A/B");
    let err = get_lyrics(&url, Some(String::from("<div>no credits</div>"))).unwrap_err();
    assert_eq!(
        err,
        "Error obtaining other_section, for https://www.musixmatch.com/lyrics/A/B"
    );
}

#[test]
fn get_lyrics_unread_page_fails() {
    let url = String::from("https://www.musixmatch.com/lyrics/A/B");
    let err = get_lyrics(&url, None).unwrap_err();
    assert_eq!(
        err,
        "Error obtaining other_section, for https://www.musixmatch.com/lyrics/A/B"
    );
}

#[test]
fn get_lyrics_bad_urls() {
    assert_eq!(
        get_lyrics(&String::new(), Some(String::from(PAGE))).unwrap_err(),
        "URL cannot be empty"
    );
    assert_eq!(
        get_lyrics(&String::from("https://x/a"), Some(String::from(PAGE))).unwrap_err(),
        "No content here"
    );
    assert_eq!(
        get_lyrics(&String::from("https://x/a/b"), Some(String::from(PAGE))).unwrap_err(),
        "Empty"
    );
}

#[test]
fn lyrics_sections_law_on_page() {
    let url = String::from("https://www.musixmatch.com/lyrics/A/B");
    let lyrics = get_lyrics(&url, Some(String::from(PAGE))).unwrap();
    let joined = format!("{}Writer{}", lyrics.lyrics_section, lyrics.other_section);
    assert!("Lyrics of the song\nWriter(s): Someone\nMood Rating Meaning".starts_with(&joined));
    assert!(!lyrics.lyrics_section.contains("Writer"));
    assert!(!lyrics.other_section.contains("Writer"));
}

const LINKS: &str = "<html><body><a href=\"/album/Kendrick-Lamar/DAMN\">x</a><a>no link</a><a href=\"/lyrics/Kendrick-Lamar/HUMBLE\">y</a><a href=\"/album/Kendrick-Lamar/DAMN\">again</a><a href=\"/album/Kendrick-Lamar/GKMC\">z</a></body></html>";

#[test]
fn link_extractor_reads_hrefs() {
    assert_eq!(
        _link_extractor(String::from(LINKS)),
        strings(&[
            "/album/Kendrick-Lamar/DAMN",
            "/lyrics/Kendrick-Lamar/HUMBLE",
            "/album/Kendrick-Lamar/DAMN",
            "/album/Kendrick-Lamar/GKMC"
        ])
    );
    assert!(_link_extractor(String::from("<p>none</p>")).is_empty());
}

#[test]
fn get_albums_keeps_distinct_album_links() {
    let albums = get_albums(&String::from(LINKS));
    assert_eq!(
        albums,
        strings(&["/album/Kendrick-Lamar/DAMN", "/album/Kendrick-Lamar/GKMC"])
    );
}

#[test]
fn get_songs_lists_song_links_and_file() {
    let page = String::from(
        "<a href=\"/lyrics/Taylor-Swift/Love-Story\">a</a><a href=\"/album/x\">b</a><a href=\"/lyrics/Taylor-Swift/Fifteen\">c</a><a href=\"/lyrics/Taylor-Swift/Love-Story\">d</a>",
    );
    let album = get_songs(&String::from("https://www.musixmatch.com/album/Taylor-Swift/Fearless"), &page);
    assert_eq!(
        album.songs,
        strings(&["/lyrics/Taylor-Swift/Love-Story", "/lyrics/Taylor-Swift/Fifteen"])
    );
    assert_eq!(album.path, "lyrics/Taylor-Swift/album-Fearless");
    assert_eq!(
        album.listing,
        "/lyrics/Taylor-Swift/Love-Story,/lyrics/Taylor-Swift/Fifteen"
    );
    let read_back: Vec<String> = album.listing.split(',').map(|s| s.to_string()).collect();
    assert_eq!(read_back, album.songs);
}

#[test]
fn get_songs_path_with_trailing_slash() {
    let album = get_songs(&String::from("a/b/"), &String::new());
    assert!(album.songs.is_empty());
    assert_eq!(album.path, "lyrics/b/album-");
    assert_eq!(album.listing, "");
}

#[test]
fn artist_album_urls() {
    let cli = Cli { artist: strings(&["Kendrick-Lamar", "Taylor-Swift"]) };
    let expected = strings(&[
        "https://www.musixmatch.com/artist/Kendrick-Lamar/albums",
        "https://www.musixmatch.com/artist/Taylor-Swift/albums",
    ]);
    assert_eq!(get_artist_name(&cli), expected);
    assert_eq!(_get_artist_name(&cli), expected);
    assert!(get_artist_name(&Cli { artist: Vec::new() }).is_empty());
}

#[test]
fn musixmatch_url_ignores_leading_slashes() {
    assert_eq!(musixmatch_url("/lyrics/A/B"), "https://www.musixmatch.com/lyrics/A/B");
    assert_eq!(musixmatch_url("///lyrics/A/B"), musixmatch_url("lyrics/A/B"));
    assert_eq!(musixmatch_url(""), "https://www.musixmatch.com/");
}

#[test]
fn lyrics_paths_and_display() {
    let l = Lyrics {
        artist: String::from("Taylor-Swift"),
        title: String::from("champagne-problems"),
        lyrics_section: String::from("la la\n"),
        other_section: String::from("Writer: T"),
    };
    assert_eq!(l.save_path(), "lyrics/Taylor-Swift/champagne-problems");
    assert_eq!(l.to_display_string(), "la la\nWriter: T");
}

#[test]
fn search_final_line_ending_is_optional() {
    let with = search(String::from("la"), String::from("La la\nno\nLAND"));
    let without = search(String::from("la"), String::from("La la\nno\nLAND\n"));
    assert_eq!(with, without);
    assert_eq!(with, strings(&["la la", "land"]));
}

#[test]
fn album_links_are_distinct() {
    let albums = get_albums(&String::from(
        "<a href=\"/album/a\"></a><a href=\"/album/a\"></a><a href=\"/album/b\"></a><a href=\"/album/a\"></a>",
    ));
    assert_eq!(albums, strings(&["/album/a", "/album/b"]));
}

#[test]
fn join_div_texts_one_text_node_per_line() {
    let divs = vec![strings(&["a", "b"]), Vec::new(), strings(&["Writer c"])];
    let text: String = join_div_texts(&divs).iter().collect();
    assert_eq!(text, "a\nb\nWriter c");
    assert!(join_div_texts(&Vec::new()).is_empty());
}

#[test]
fn present_links_keeps_the_hrefs_given() {
    let hrefs = vec![Some(String::from("/album/x")), None, Some(String::new()), None];
    assert_eq!(present_links(&hrefs), strings(&["/album/x", ""]));
    assert!(present_links(&vec![None, None]).is_empty());
}

#[test]
fn matching_lines_filters_lowered_lines() {
    let lowered = strings(&["la la land", "no", "", "la"]);
    assert_eq!(matching_lines(&lowered, &String::from("la")), strings(&["la la land", "la"]));
    assert_eq!(matching_lines(&lowered, &String::new()), lowered);
}

#[test]
fn search_with_lowered_query_and_lowered_results() {
    let contents = String::from("ÄRGER im Haus\nΟΔΟΣ ΣΟΦΙΑΣ\nİstanbul\nnothing");
    for query in ["ÄRGER", "ΟΔΟΣ", "İST", "Haus", "σ"] {
        let q = String::from(query);
        let found = search(q.clone(), contents.clone());
        assert_eq!(found, search(q.to_lowercase(), contents.clone()));
        for s in &found {
            assert_eq!(*s, s.to_lowercase());
            assert!(s.contains(&q.to_lowercase()));
        }
    }
    assert_eq!(
        search(String::from("ärger"), contents.clone()),
        strings(&["ärger im haus"])
    );
}
