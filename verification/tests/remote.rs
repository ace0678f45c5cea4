use webscraping::{get_albums, get_lyrics, get_songs};

fn client() -> Result<reqwest::blocking::Client, reqwest::Error> {
    reqwest::blocking::Client::builder()
        .timeout(std::time::Duration::from_secs(5))
        .build()
}

#[test]
fn test_func_get_albums() {
    let artist_url = String::from("https://www.musixmatch.com/artist/Kendrick-Lamar/albums");
    match client() {
        Ok(client) => match client.get(&artist_url).send().and_then(|r| r.text()) {
            Ok(page) => {
                let albums = get_albums(&page);
                for i in albums {
                    assert!(i.starts_with("/album/"));
                }
            }
            Err(_) => {
                println!("error obtaining album for artist {0}", &artist_url)
            }
        },
        Err(_) => println!("error configuring reqwest client"),
    }
}

#[test]
fn test_func_get_songs() {
    let album_url = String::from("https://www.musixmatch.com/artist/Taylor-Swift/album/Taylor-Swift/Taylor-Swift-Big-Machine-Radio-Release-Special");
    match client() {
        Ok(client) => match client.get(&album_url).send().and_then(|r| r.text()) {
            Ok(page) => {
                let album = get_songs(&album_url, &page);
                for i in album.songs {
                    assert!(i.starts_with("/lyrics/"));
                }
            }
            Err(_) => {
                println!("error obtaining lyrics for song {0}", &album_url)
            }
        },
        Err(_) => println!("error configuring reqwest client"),
    }
}

#[test]
fn test_func_get_lyrics() {
    let song_url =
        String::from("https://www.musixmatch.com/lyrics/Taylor-Swift/champagne-problems");

    match client() {
        Ok(client) => match client.get(&song_url).send() {
            Ok(response) => match get_lyrics(&song_url, response.text().ok()) {
                Ok(songs) => {
                    assert!(songs.lyrics_section.contains("Lyrics"));
                    assert!(songs.other_section.contains("Mood"));
                    assert!(songs.other_section.contains("Rating"));
                    assert!(songs.other_section.contains("Meaning"));
                }
                Err(_) => {
                    println!("error obtaining lyrics for song {0}", &song_url)
                }
            },
            Err(_) => {
                println!("error obtaining lyrics for song {0}", &song_url)
            }
        },
        Err(_) => println!("error configuring reqwest client"),
    }
}
