use webscraping::lyrics::lyrics_target;
use webscraping::musixmatch_url;
use webscraping::spotify::song_path;

#[test]
fn song_path_hyphenates_names() {
    assert_eq!(song_path("Love Story", "Taylor Swift"), "lyrics/Taylor-Swift/Love-Story");
    assert_eq!(song_path("a  b", "c"), "lyrics/c/a--b");
}

#[test]
fn track_leads_to_its_lyrics_page() {
    let url = musixmatch_url(&song_path("champagne problems", "Taylor Swift"));
    assert_eq!(url, "https://www.musixmatch.com/lyrics/Taylor-Swift/champagne-problems");
    assert_eq!(
        lyrics_target(&url),
        Ok((String::from("Taylor-Swift"), String::from("champagne-problems")))
    );
}

#[test]
fn track_with_slash_in_name_is_misread() {
    // A slash in a name splits it into two path parts.
    let url = musixmatch_url(&song_path("Thunderstruck", "AC/DC"));
    assert_eq!(lyrics_target(&url), Ok((String::from("AC"), String::from("DC"))));
}
