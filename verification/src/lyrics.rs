//! Lyrics scraped from musixmatch: finding a song in a lyrics page, the
//! links of artist and album pages, the URLs and paths built from them, and
//! the keyword search over saved lyrics.
use vstd::prelude::*;
use crate::html::{anchor_hrefs, div_texts, html_anchor_hrefs, html_div_texts};
use crate::text::{
    chars_of, chars_of_string, contains_chars, contains_seq, contains_vec, copy_range, find_from,
    first_match_from, is_prefix, join, join_chars, keep_nonempty, lemma_drop_empty_nonempty,
    lemma_first_match, lemma_split_on_join, lemma_split_on_concat, lemma_split_on_len, lemma_split_on_len_contains, lemma_split_on_no_sep, lines,
    lines_of, lowercase, matches_at, segments, split_chars, split_on, starts_with, string_of_vec,
    string_views, strings_of, strip_cr_all, to_lowercase, trim_start, trim_start_chars, views,
};

verus! {

/// A song's lyrics as scraped from its musixmatch page.
#[derive(Debug)]
pub struct Lyrics {
    pub artist: String,
    pub title: String,
    pub lyrics_section: String,
    pub other_section: String,
}

/// The contents of a `Lyrics`.
pub struct LyricsView {
    pub artist: Seq<char>,
    pub title: Seq<char>,
    pub lyrics_section: Seq<char>,
    pub other_section: Seq<char>,
}

impl View for Lyrics {
    type V = LyricsView;

    open spec fn view(&self) -> LyricsView {
        LyricsView {
            artist: self.artist@,
            title: self.title@,
            lyrics_section: self.lyrics_section@,
            other_section: self.other_section@,
        }
    }
}

/// The command line of the scraper: the artists whose albums it fetches.
#[derive(Debug)]
pub struct Cli {
    pub artist: Vec<String>,
}

// ---------------------------------------------------------------- search

/// Each element of `ls` in lower case.
pub open spec fn lowercase_all(ls: Seq<Seq<char>>) -> Seq<Seq<char>> {
    Seq::new(ls.len(), |i: int| lowercase(ls[i]))
}

/// The elements of `ls` that contain `pat`, in order.
pub open spec fn containing(ls: Seq<Seq<char>>, pat: Seq<char>) -> Seq<Seq<char>>
    decreases ls.len(),
{
    if ls.len() == 0 {
        ls
    } else {
        let rest = containing(ls.drop_last(), pat);
        if contains_seq(ls.last(), pat) {
            rest.push(ls.last())
        } else {
            rest
        }
    }
}

/// What a keyword search of `contents` for `query` finds: the lines of
/// `contents`, each in lower case, that contain the query in lower case
/// (lowered twice, as the search lowers it once more per line), in order.
pub open spec fn search_results(query: Seq<char>, contents: Seq<char>) -> Seq<Seq<char>> {
    containing(lowercase_all(lines_of(contents)), lowercase(lowercase(query)))
}

/// The lower-cased lines (as `str::to_lowercase` gave them) that contain
/// `needle`, in order.
pub fn matching_lines(lowered: &Vec<String>, needle: &String) -> (results: Vec<String>)
    ensures
        string_views(results@) == containing(string_views(lowered@), needle@),
{
    let ghost low = string_views(lowered@);
    let needle_chars = chars_of_string(needle);
    let mut results: Vec<String> = Vec::new();
    let mut i: usize = 0;
    assert(low.take(0) =~= Seq::<Seq<char>>::empty());
    while i < lowered.len()
        invariant
            i <= lowered@.len(),
            low == string_views(lowered@),
            needle_chars@ == needle@,
            string_views(results@) == containing(low.take(i as int), needle@),
        decreases lowered.len() - i,
    {
        let line = &lowered[i];
        let lc = chars_of_string(line);
        assert(low.take(i + 1).drop_last() =~= low.take(i as int));
        assert(low.take(i + 1).last() == line@);
        let ghost before = string_views(results@);
        if contains_chars(&lc, &needle_chars) {
            results.push(line.clone());
            assert(string_views(results@) =~= before.push(lc@));
        }
        i += 1;
    }
    assert(low.take(lowered@.len() as int) =~= low);
    results
}

/// The lines of `contents` that contain `query`, ignoring case; each line
/// is returned in lower case.
pub fn search(query: String, contents: String) -> (results: Vec<String>)
    ensures
        string_views(results@) == search_results(query@, contents@),
{
    let lowered_query = to_lowercase(query.as_str());
    let needle = to_lowercase(lowered_query.as_str());
    let text = chars_of_string(&contents);
    let ls = lines(&text);
    let ghost low = lowercase_all(views(ls@));
    let mut lowered: Vec<String> = Vec::new();
    let mut i: usize = 0;
    while i < ls.len()
        invariant
            i <= ls@.len(),
            low == lowercase_all(views(ls@)),
            string_views(lowered@) == low.take(i as int),
        decreases ls.len() - i,
    {
        let line = string_of_vec(&ls[i]);
        let lower = to_lowercase(line.as_str());
        let ghost before = string_views(lowered@);
        lowered.push(lower);
        assert(string_views(lowered@) =~= before.push(low[i as int]));
        assert(low.take(i + 1) =~= low.take(i as int).push(low[i as int]));
        i += 1;
    }
    assert(low.take(ls@.len() as int) =~= low);
    matching_lines(&lowered, &needle)
}

// ---------------------------------------------------------------- URLs

/// The non-empty `/`-separated parts of a URL, or the error for an empty one.
pub fn _parse_url_path(url: &str) -> (r: Result<Vec<String>, String>)
    ensures
        match r {
            Ok(parts) => url@.len() > 0 && string_views(parts@) == segments(url@, '/'),
            Err(e) => url@.len() == 0 && e@ == "URL cannot be empty"@,
        },
{
    if url.is_empty() {
        return Err(String::from_str("URL cannot be empty"));
    }
    let cs = chars_of(url);
    let pieces = split_chars(&cs, '/');
    let kept = keep_nonempty(&pieces);
    Ok(strings_of(&kept))
}

/// The artist and title that a song URL names (its fourth and fifth path
/// parts), or the error that stops the lookup.
pub open spec fn lyrics_target_of(url: Seq<char>) -> Result<(Seq<char>, Seq<char>), Seq<char>> {
    if url.len() == 0 {
        Err("URL cannot be empty"@)
    } else {
        let segs = segments(url, '/');
        if segs.len() <= 3 {
            Err("No content here"@)
        } else if segs.len() <= 4 {
            Err("Empty"@)
        } else {
            Ok((segs[3], segs[4]))
        }
    }
}

/// The contents of a pair of strings or of an error message.
pub open spec fn pair_result_view(r: Result<(String, String), String>) -> Result<
    (Seq<char>, Seq<char>),
    Seq<char>,
> {
    match r {
        Ok((a, b)) => Ok((a@, b@)),
        Err(e) => Err(e@),
    }
}

/// The artist and title that a song URL names.
pub fn lyrics_target(url: &str) -> (r: Result<(String, String), String>)
    ensures
        pair_result_view(r) == lyrics_target_of(url@),
{
    let parts = match _parse_url_path(url) {
        Ok(parts) => parts,
        Err(e) => return Err(e),
    };
    if parts.len() <= 3 {
        return Err(String::from_str("No content here"));
    }
    if parts.len() <= 4 {
        return Err(String::from_str("Empty"));
    }
    let artist = parts[3].clone();
    let title = parts[4].clone();
    Ok((artist, title))
}

// ---------------------------------------------------------------- pages

/// The text of a lyrics page: the text nodes under its `div` elements,
/// one per line.
pub open spec fn page_text_of(html: Seq<char>) -> Seq<char> {
    text_of_divs(html_div_texts(html))
}

/// The text that the `div` elements of a page hold, one text node per line.
pub open spec fn text_of_divs(divs: Seq<Seq<Seq<char>>>) -> Seq<char> {
    join(divs.flatten(), "\n"@)
}

/// The text nodes found under a page's `div` elements (one entry per
/// element), joined one per line.
pub fn join_div_texts(divs: &Vec<Vec<String>>) -> (t: Vec<char>)
    ensures
        t@ == text_of_divs(divs.deep_view()),
{
    let ghost dv = divs.deep_view();
    let mut frags: Vec<Vec<char>> = Vec::new();
    let mut i: usize = 0;
    assert(dv.take(0) =~= Seq::<Seq<Seq<char>>>::empty());
    while i < divs.len()
        invariant
            i <= divs@.len(),
            divs.deep_view() == dv,
            views(frags@) == dv.take(i as int).flatten(),
        decreases divs.len() - i,
    {
        let texts = &divs[i];
        assert(dv[i as int] == texts.deep_view());
        let mut j: usize = 0;
        let ghost done = views(frags@);
        assert(dv[i as int].take(0) =~= Seq::<Seq<char>>::empty());
        while j < texts.len()
            invariant
                j <= texts@.len(),
                texts.deep_view() == dv[i as int],
                views(frags@) == done + dv[i as int].take(j as int),
            decreases texts.len() - j,
        {
            let cs = chars_of_string(&texts[j]);
            assert(dv[i as int][j as int] == texts@[j as int]@);
            let ghost before = views(frags@);
            frags.push(cs);
            assert(views(frags@) =~= before.push(cs@));
            assert(dv[i as int].take(j + 1) =~= dv[i as int].take(j as int).push(cs@));
            j += 1;
        }
        assert(dv[i as int].take(texts@.len() as int) =~= dv[i as int]);
        proof {
            dv.take(i as int).lemma_flatten_push(dv[i as int]);
            assert(dv.take(i + 1) =~= dv.take(i as int).push(dv[i as int]));
        }
        i += 1;
    }
    assert(dv.take(divs@.len() as int) =~= dv);
    let sep = chars_of("\n");
    join_chars(&frags, &sep)
}

/// The text of a lyrics page (see `page_text_of`).
pub fn page_text(html: &String) -> (t: Vec<char>)
    ensures
        t@ == page_text_of(html@),
{
    let divs = div_texts(html.as_str());
    join_div_texts(&divs)
}

/// The part of `text` before the first occurrence of `pat`, and, when there
/// is one, the part between it and the next occurrence (or the end): the
/// first two pieces of `str::split` with a string pattern.
pub open spec fn first_two_pieces(text: Seq<char>, pat: Seq<char>) -> (Seq<char>, Option<Seq<char>>) {
    match first_match_from(text, pat, 0) {
        None => (text, None),
        Some(k) => {
            let j = k + pat.len();
            (
                text.take(k as int),
                Some(
                    match first_match_from(text, pat, j) {
                        None => text.skip(j as int),
                        Some(k2) => text.subrange(j as int, k2 as int),
                    },
                ),
            )
        },
    }
}

/// What scraping the song at `url` gives, when fetching its page gave
/// `page` (`None` when the page's text could not be read).
pub open spec fn lyrics_of(url: Seq<char>, page: Option<Seq<char>>) -> Result<LyricsView, Seq<char>> {
    match lyrics_target_of(url) {
        Err(e) => Err(e),
        Ok((artist, title)) => {
            let body = match page {
                Some(p) => p,
                None => "Error fetching lyrics"@,
            };
            let (lyric, other) = first_two_pieces(page_text_of(body), "Writer"@);
            match other {
                None => Err("Error obtaining other_section, for "@ + url),
                Some(o) => Ok(
                    LyricsView { artist, title, lyrics_section: lyric, other_section: o },
                ),
            }
        },
    }
}

/// The contents of scraped lyrics or of an error message.
pub open spec fn lyrics_result_view(r: Result<Lyrics, String>) -> Result<LyricsView, Seq<char>> {
    match r {
        Ok(l) => Ok(l@),
        Err(e) => Err(e@),
    }
}

/// The lyrics of the song at `url`, given what fetching its page gave.
pub fn get_lyrics(url: &String, page: Option<String>) -> (r: Result<Lyrics, String>)
    ensures
        lyrics_result_view(r) == lyrics_of(url@, page.deep_view()),
{
    let (artist, title) = match lyrics_target(url.as_str()) {
        Ok(p) => p,
        Err(e) => return Err(e),
    };
    let body = match page {
        Some(p) => p,
        None => String::from_str("Error fetching lyrics"),
    };
    let text = page_text(&body);
    let pat = chars_of("Writer");
    proof {
        lemma_first_match(text@, pat@, 0);
    }
    match find_from(&text, &pat, 0) {
        None => Err(String::from_str("Error obtaining other_section, for ").concat(url.as_str())),
        Some(k) => {
            assert(matches_at(text@, pat@, k as int));
            assert(k + pat.len() <= text.len());
            let lyric = copy_range(&text, 0, k);
            let j = k + pat.len();
            proof {
                lemma_first_match(text@, pat@, j as nat);
            }
            let other = match find_from(&text, &pat, j) {
                None => copy_range(&text, j, text.len()),
                Some(k2) => copy_range(&text, j, k2),
            };
            assert(lyric@ =~= text@.take(k as int));
            assert(j == k + pat@.len());
            proof {
                if first_match_from(text@, pat@, j as nat) is None {
                    assert(other@ =~= text@.skip(j as int));
                }
            }
            Ok(
                Lyrics {
                    artist,
                    title,
                    lyrics_section: string_of_vec(&lyric),
                    other_section: string_of_vec(&other),
                },
            )
        },
    }
}

// ---------------------------------------------------------------- links

/// The values among `hs`, in order.
pub open spec fn somes(hs: Seq<Option<Seq<char>>>) -> Seq<Seq<char>>
    decreases hs.len(),
{
    if hs.len() == 0 {
        Seq::empty()
    } else {
        let rest = somes(hs.drop_last());
        match hs.last() {
            Some(h) => rest.push(h),
            None => rest,
        }
    }
}

/// The elements of `ls` that start with `prefix`, in order.
pub open spec fn prefixed(ls: Seq<Seq<char>>, prefix: Seq<char>) -> Seq<Seq<char>>
    decreases ls.len(),
{
    if ls.len() == 0 {
        ls
    } else {
        let rest = prefixed(ls.drop_last(), prefix);
        if is_prefix(prefix, ls.last()) {
            rest.push(ls.last())
        } else {
            rest
        }
    }
}

/// The elements of `ls` without repetitions, each where it first occurs.
pub open spec fn dedup(ls: Seq<Seq<char>>) -> Seq<Seq<char>>
    decreases ls.len(),
{
    if ls.len() == 0 {
        ls
    } else {
        let rest = dedup(ls.drop_last());
        if rest.contains(ls.last()) {
            rest
        } else {
            rest.push(ls.last())
        }
    }
}

/// The distinct links of a page that start with `prefix`.
pub open spec fn page_links(page: Seq<char>, prefix: Seq<char>) -> Seq<Seq<char>> {
    dedup(prefixed(somes(html_anchor_hrefs(page)), prefix))
}

/// The link targets that are present among the `href` values of a page's
/// anchors, in order.
pub fn present_links(hrefs: &Vec<Option<String>>) -> (links: Vec<String>)
    ensures
        string_views(links@) == somes(hrefs.deep_view()),
{
    let ghost hv = hrefs.deep_view();
    let mut links: Vec<String> = Vec::new();
    let mut i: usize = 0;
    assert(hv.take(0) =~= Seq::<Option<Seq<char>>>::empty());
    while i < hrefs.len()
        invariant
            i <= hrefs@.len(),
            hrefs.deep_view() == hv,
            string_views(links@) == somes(hv.take(i as int)),
        decreases hrefs.len() - i,
    {
        assert(hv.take(i + 1).drop_last() =~= hv.take(i as int));
        assert(hv.take(i + 1).last() == hrefs@[i as int].deep_view());
        let ghost before = string_views(links@);
        match &hrefs[i] {
            Some(h) => {
                links.push(h.clone());
                assert(string_views(links@) =~= before.push(h@));
            },
            None => {},
        }
        i += 1;
    }
    assert(hv.take(hrefs@.len() as int) =~= hv);
    links
}

/// The targets of the links (`<a href=..>`) of an HTML page, in order.
pub fn _link_extractor(response: String) -> (links: Vec<String>)
    ensures
        string_views(links@) == somes(html_anchor_hrefs(response@)),
{
    let hrefs = anchor_hrefs(response.as_str());
    present_links(&hrefs)
}

/// The distinct links of `page` that start with `prefix`, in the order in
/// which they first occur.
pub fn links_with_prefix(page: &String, prefix: &str) -> (links: Vec<String>)
    ensures
        string_views(links@) == page_links(page@, prefix@),
{
    let all = _link_extractor(page.clone());
    let ghost av = string_views(all@);
    let pre = chars_of(prefix);
    let mut kept: Vec<Vec<char>> = Vec::new();
    let mut i: usize = 0;
    assert(av.take(0) =~= Seq::<Seq<char>>::empty());
    while i < all.len()
        invariant
            i <= all@.len(),
            av == string_views(all@),
            av == somes(html_anchor_hrefs(page@)),
            pre@ == prefix@,
            views(kept@) == dedup(prefixed(av.take(i as int), prefix@)),
        decreases all.len() - i,
    {
        let link = chars_of_string(&all[i]);
        assert(av.take(i + 1).drop_last() =~= av.take(i as int));
        assert(av.take(i + 1).last() == link@);
        let ghost before = views(kept@);
        let ghost p0 = prefixed(av.take(i as int), prefix@);
        if starts_with(&link, &pre) {
            assert(prefixed(av.take(i + 1), prefix@) == p0.push(link@));
            assert(p0.push(link@).drop_last() =~= p0);
            if !contains_vec(&kept, &link) {
                kept.push(link);
                assert(views(kept@) =~= before.push(av[i as int]));
            }
        } else {
            assert(prefixed(av.take(i + 1), prefix@) == p0);
        }
        i += 1;
    }
    assert(av.take(all@.len() as int) =~= av);
    strings_of(&kept)
}

/// The album pages that an artist's album listing links to.
pub fn get_albums(page: &String) -> (albums: Vec<String>)
    ensures
        string_views(albums@) == page_links(page@, "/album/"@),
{
    links_with_prefix(page, "/album/")
}

/// The songs of an album page, the path of the file that lists them, and
/// that file's contents.
pub struct AlbumSongs {
    pub songs: Vec<String>,
    pub path: String,
    pub listing: String,
}

/// The path under which the song list of the album at `url` is saved:
/// named after the last two `/`-separated parts of the URL.
pub open spec fn album_path_of(url: Seq<char>) -> Seq<char> {
    let ps = split_on(url, '/');
    "lyrics/"@ + ps[ps.len() - 2] + "/album-"@ + ps[ps.len() - 1]
}

/// The songs that the album page at `album_url` links to, with the path
/// and contents of the file that lists them.
pub fn get_songs(album_url: &String, page: &String) -> (r: AlbumSongs)
    requires
        album_url@.contains('/'),
    ensures
        string_views(r.songs@) == page_links(page@, "/lyrics/"@),
        r.path@ == album_path_of(album_url@),
        r.listing@ == join(string_views(r.songs@), ","@),
{
    let songs = links_with_prefix(page, "/lyrics/");
    let mut song_chars: Vec<Vec<char>> = Vec::new();
    let mut i: usize = 0;
    while i < songs.len()
        invariant
            i <= songs@.len(),
            views(song_chars@) == string_views(songs@).take(i as int),
        decreases songs.len() - i,
    {
        let cs = chars_of_string(&songs[i]);
        let ghost before = views(song_chars@);
        song_chars.push(cs);
        assert(views(song_chars@) =~= before.push(cs@));
        assert(string_views(songs@).take(i + 1) =~= string_views(songs@).take(i as int).push(cs@));
        i += 1;
    }
    assert(string_views(songs@).take(songs@.len() as int) =~= string_views(songs@));
    let listing = string_of_vec(&join_chars(&song_chars, &chars_of(",")));
    let url = chars_of_string(album_url);
    let pieces = split_chars(&url, '/');
    proof {
        lemma_split_on_len_contains(url@, '/');
    }
    let n = pieces.len();
    let artist = string_of_vec(&pieces[n - 2]);
    let album = string_of_vec(&pieces[n - 1]);
    let path = String::from_str("lyrics/").concat(artist.as_str()).concat("/album-").concat(
        album.as_str(),
    );
    AlbumSongs { songs, path, listing }
}

// ---------------------------------------------------------------- paths

/// The album-listing URLs of the given artists.
pub open spec fn artist_album_urls(artists: Seq<Seq<char>>) -> Seq<Seq<char>> {
    Seq::new(
        artists.len(),
        |i: int| "https://www.musixmatch.com/artist/"@ + artists[i] + "/albums"@,
    )
}

/// The album-listing URLs of the artists named on the command line.
pub fn get_artist_name(cli: &Cli) -> (urls: Vec<String>)
    ensures
        string_views(urls@) == artist_album_urls(string_views(cli.artist@)),
{
    _get_artist_name(cli)
}

/// The album-listing URLs of the artists named on the command line.
pub fn _get_artist_name(cli: &Cli) -> (urls: Vec<String>)
    ensures
        string_views(urls@) == artist_album_urls(string_views(cli.artist@)),
{
    let ghost want = artist_album_urls(string_views(cli.artist@));
    let mut albums: Vec<String> = Vec::new();
    let mut i: usize = 0;
    while i < cli.artist.len()
        invariant
            i <= cli.artist@.len(),
            want == artist_album_urls(string_views(cli.artist@)),
            string_views(albums@) == want.take(i as int),
        decreases cli.artist.len() - i,
    {
        let url = String::from_str("https://www.musixmatch.com/artist/").concat(
            cli.artist[i].as_str(),
        ).concat("/albums");
        let ghost before = string_views(albums@);
        albums.push(url);
        assert(string_views(albums@) =~= before.push(url@));
        assert(want.take(i + 1) =~= want.take(i as int).push(want[i as int]));
        i += 1;
    }
    assert(want.take(cli.artist@.len() as int) =~= want);
    albums
}

/// The musixmatch URL of a page path, whatever leading slashes it has.
pub open spec fn musixmatch_url_of(path: Seq<char>) -> Seq<char> {
    "https://www.musixmatch.com/"@ + trim_start(path, '/')
}

/// The musixmatch URL of a song or album path such as `/lyrics/A/B`.
pub fn musixmatch_url(path: &str) -> (url: String)
    ensures
        url@ == musixmatch_url_of(path@),
{
    let trimmed = string_of_vec(&trim_start_chars(&chars_of(path), '/'));
    String::from_str("https://www.musixmatch.com/").concat(trimmed.as_str())
}

impl Lyrics {
    /// The path of the file that the lyrics are saved to.
    pub fn save_path(&self) -> (p: String)
        ensures
            p@ == "lyrics/"@ + self.artist@ + "/"@ + self.title@,
    {
        String::from_str("lyrics/").concat(self.artist.as_str()).concat("/").concat(
            self.title.as_str(),
        )
    }

    /// The lyrics as displayed: the lyrics section followed by the rest of
    /// the page.
    pub fn to_display_string(&self) -> (s: String)
        ensures
            s@ == self.lyrics_section@ + self.other_section@,
    {
        self.lyrics_section.clone().concat(self.other_section.as_str())
    }
}

// ---------------------------------------------------------------- laws

/// Parsing the path of a URL made of non-empty parts without `/`, joined by
/// `/`, gives the parts back.
pub proof fn law_url_path_roundtrip(parts: Seq<Seq<char>>)
    requires
        parts.len() >= 1,
        forall|i: int|
            0 <= i < parts.len() ==> (#[trigger] parts[i]).len() > 0 && !parts[i].contains('/'),
    ensures
        segments(join(parts, seq!['/']), '/') == parts,
{
    lemma_split_on_join(parts, '/');
    lemma_drop_empty_nonempty(parts);
}

/// The file that lists an album's songs reads back as those songs when it
/// is split at its commas (no song link holding a comma).
pub proof fn law_album_listing_roundtrip(songs: Seq<Seq<char>>)
    requires
        songs.len() >= 1,
        forall|i: int| 0 <= i < songs.len() ==> !(#[trigger] songs[i]).contains(','),
    ensures
        split_on(join(songs, ","@), ',') == songs,
{
    reveal_strlit(",");
    assert(","@ =~= seq![',']);
    lemma_split_on_join(songs, ',');
}

/// The keyword search ignores the case of the query: two queries with the
/// same lower case find the same lines.
pub proof fn law_search_case_insensitive(q1: Seq<char>, q2: Seq<char>, contents: Seq<char>)
    requires
        lowercase(q1) == lowercase(q2),
    ensures
        search_results(q1, contents) == search_results(q2, contents),
{
}

/// An element is kept by `containing` exactly when it is one of the
/// elements and contains the pattern.
pub proof fn lemma_containing_contains(ls: Seq<Seq<char>>, pat: Seq<char>, x: Seq<char>)
    ensures
        containing(ls, pat).contains(x) <==> (ls.contains(x) && contains_seq(x, pat)),
    decreases ls.len(),
{
    if ls.len() > 0 {
        let init = ls.drop_last();
        lemma_containing_contains(init, pat, x);
        let rest = containing(init, pat);
        if ls.contains(x) && contains_seq(x, pat) {
            let i = choose|i: int| 0 <= i < ls.len() && ls[i] == x;
            if i < ls.len() - 1 {
                assert(init[i] == x);
            }
        }
        if contains_seq(ls.last(), pat) {
            assert(rest.push(ls.last())[rest.len() as int] == ls.last());
            if rest.push(ls.last()).contains(x) {
                let i = choose|i: int| 0 <= i < rest.len() + 1 && rest.push(ls.last())[i] == x;
                if i < rest.len() {
                    assert(rest[i] == x);
                }
            }
            if rest.contains(x) {
                let i = choose|i: int| 0 <= i < rest.len() && rest[i] == x;
                assert(rest.push(ls.last())[i] == x);
            }
        }
        if init.contains(x) {
            let i = choose|i: int| 0 <= i < init.len() && init[i] == x;
            assert(ls[i] == x);
        }
        assert(ls[ls.len() - 1] == ls.last());
    }
}

/// The keyword search finds exactly the lower-cased lines of the contents
/// that contain the lower-cased query.
pub proof fn law_search_finds(query: Seq<char>, contents: Seq<char>, x: Seq<char>)
    ensures
        search_results(query, contents).contains(x) <==> (lowercase_all(lines_of(contents)).contains(x)
            && contains_seq(x, lowercase(lowercase(query)))),
{
    lemma_containing_contains(
        lowercase_all(lines_of(contents)),
        lowercase(lowercase(query)),
        x,
    );
}

/// The values among a sequence of options are those that it holds.
pub proof fn lemma_somes_contains(hs: Seq<Option<Seq<char>>>, x: Seq<char>)
    ensures
        somes(hs).contains(x) <==> hs.contains(Some(x)),
    decreases hs.len(),
{
    if hs.len() > 0 {
        let init = hs.drop_last();
        lemma_somes_contains(init, x);
        let rest = somes(init);
        if hs.contains(Some(x)) {
            let i = choose|i: int| 0 <= i < hs.len() && hs[i] == Some(x);
            if i < hs.len() - 1 {
                assert(init[i] == Some(x));
            }
        }
        if init.contains(Some(x)) {
            let i = choose|i: int| 0 <= i < init.len() && init[i] == Some(x);
            assert(hs[i] == Some(x));
        }
        assert(hs[hs.len() - 1] == hs.last());
        match hs.last() {
            Some(h) => {
                assert(rest.push(h)[rest.len() as int] == h);
                if rest.push(h).contains(x) {
                    let i = choose|i: int| 0 <= i < rest.len() + 1 && rest.push(h)[i] == x;
                    if i < rest.len() {
                        assert(rest[i] == x);
                    }
                }
                if rest.contains(x) {
                    let i = choose|i: int| 0 <= i < rest.len() && rest[i] == x;
                    assert(rest.push(h)[i] == x);
                }
            },
            None => {},
        }
    }
}

/// An element is kept by `prefixed` exactly when it is one of the elements
/// and starts with the prefix.
pub proof fn lemma_prefixed_contains(ls: Seq<Seq<char>>, prefix: Seq<char>, x: Seq<char>)
    ensures
        prefixed(ls, prefix).contains(x) <==> (ls.contains(x) && is_prefix(prefix, x)),
    decreases ls.len(),
{
    if ls.len() > 0 {
        let init = ls.drop_last();
        lemma_prefixed_contains(init, prefix, x);
        let rest = prefixed(init, prefix);
        if ls.contains(x) && is_prefix(prefix, x) {
            let i = choose|i: int| 0 <= i < ls.len() && ls[i] == x;
            if i < ls.len() - 1 {
                assert(init[i] == x);
            }
        }
        if is_prefix(prefix, ls.last()) {
            assert(rest.push(ls.last())[rest.len() as int] == ls.last());
            if rest.push(ls.last()).contains(x) {
                let i = choose|i: int| 0 <= i < rest.len() + 1 && rest.push(ls.last())[i] == x;
                if i < rest.len() {
                    assert(rest[i] == x);
                }
            }
            if rest.contains(x) {
                let i = choose|i: int| 0 <= i < rest.len() && rest[i] == x;
                assert(rest.push(ls.last())[i] == x);
            }
        }
        if init.contains(x) {
            let i = choose|i: int| 0 <= i < init.len() && init[i] == x;
            assert(ls[i] == x);
        }
        assert(ls[ls.len() - 1] == ls.last());
    }
}

/// `dedup` keeps every element once: it holds what its input holds, and no
/// element twice.
pub proof fn lemma_dedup(ls: Seq<Seq<char>>, x: Seq<char>)
    ensures
        dedup(ls).contains(x) <==> ls.contains(x),
        dedup(ls).no_duplicates(),
    decreases ls.len(),
{
    if ls.len() > 0 {
        let init = ls.drop_last();
        lemma_dedup(init, x);
        lemma_dedup(init, ls.last());
        let rest = dedup(init);
        if ls.contains(x) {
            let i = choose|i: int| 0 <= i < ls.len() && ls[i] == x;
            if i < ls.len() - 1 {
                assert(init[i] == x);
            }
        }
        if init.contains(x) {
            let i = choose|i: int| 0 <= i < init.len() && init[i] == x;
            assert(ls[i] == x);
        }
        assert(ls[ls.len() - 1] == ls.last());
        if !rest.contains(ls.last()) {
            let d = rest.push(ls.last());
            assert(d[rest.len() as int] == ls.last());
            if d.contains(x) {
                let i = choose|i: int| 0 <= i < d.len() && d[i] == x;
                if i < rest.len() {
                    assert(rest[i] == x);
                }
            }
            if rest.contains(x) {
                let i = choose|i: int| 0 <= i < rest.len() && rest[i] == x;
                assert(d[i] == x);
            }
            assert forall|i: int, j: int| 0 <= i < d.len() && 0 <= j < d.len() && i != j implies d[i]
                != d[j] by {
                if i < rest.len() && j < rest.len() {
                } else if i < rest.len() {
                    assert(d[i] == rest[i]);
                } else if j < rest.len() {
                    assert(d[j] == rest[j]);
                }
            }
        }
    }
}

/// The links that `get_albums` and `get_songs` report are distinct, and are
/// exactly the link targets of the page that start with the prefix.
pub proof fn law_page_links(page: Seq<char>, prefix: Seq<char>, x: Seq<char>)
    ensures
        page_links(page, prefix).no_duplicates(),
        page_links(page, prefix).contains(x) <==> (html_anchor_hrefs(page).contains(Some(x))
            && is_prefix(prefix, x)),
{
    let hs = html_anchor_hrefs(page);
    lemma_somes_contains(hs, x);
    lemma_prefixed_contains(somes(hs), prefix, x);
    lemma_dedup(prefixed(somes(hs), prefix), x);
}

/// The two sections cut from a text at a non-empty pattern: the first
/// section, the pattern and the second section start the text, and neither
/// section holds the pattern.
pub proof fn lemma_first_two_pieces(text: Seq<char>, pat: Seq<char>)
    requires
        pat.len() > 0,
        first_two_pieces(text, pat).1 is Some,
    ensures
        ({
            let (lyric, other) = first_two_pieces(text, pat);
            let x = lyric + pat + other->0;
            &&& is_prefix(x, text)
            &&& !contains_seq(lyric, pat)
            &&& !contains_seq(other->0, pat)
            &&& (x == text || (x.len() + pat.len() <= text.len() && text.subrange(
                0,
                (x.len() + pat.len()) as int,
            ) == x + pat))
            &&& forall|i: int|
                0 <= i && i + pat.len() <= lyric.len() ==> (#[trigger] lyric.skip(i)).take(
                    pat.len() as int,
                ) != pat
            &&& forall|i: int|
                0 <= i && i + pat.len() <= other->0.len() ==> (#[trigger] other->0.skip(i)).take(
                    pat.len() as int,
                ) != pat
        }),
{
    lemma_first_match(text, pat, 0);
    let k = first_match_from(text, pat, 0)->0;
    let j = k + pat.len();
    lemma_first_match(text, pat, j);
    let (lyric, other) = first_two_pieces(text, pat);
    let o = other->0;
    assert(lyric =~= text.take(k as int));
    let end: int = match first_match_from(text, pat, j) {
        None => text.len() as int,
        Some(k2) => k2 as int,
    };
    assert(o =~= text.subrange(j as int, end));
    assert((lyric + pat + o) =~= text.take(end));
    assert(text.subrange(k as int, j as int) == pat);
    match first_match_from(text, pat, j) {
        None => {
            assert(lyric + pat + o =~= text);
        },
        Some(k2) => {
            assert(text.subrange(k2 as int, (k2 + pat.len()) as int) == pat);
            assert(text.subrange(0, (k2 + pat.len()) as int) =~= lyric + pat + o + pat);
        },
    }
    assert forall|i: int| 0 <= i && i + pat.len() <= lyric.len() implies (#[trigger] lyric.skip(
        i,
    )).take(pat.len() as int) != pat by {
        assert(text.subrange(i, i + pat.len()) =~= lyric.skip(i).take(pat.len() as int));
        assert(!matches_at(text, pat, i));
    }
    assert forall|i: int| 0 <= i && i + pat.len() <= o.len() implies (#[trigger] o.skip(i)).take(
        pat.len() as int,
    ) != pat by {
        assert(text.subrange(j + i, j + i + pat.len()) =~= o.skip(i).take(pat.len() as int));
        assert(!matches_at(text, pat, j + i));
    }
    assert(!contains_seq(lyric, pat)) by {
        if contains_seq(lyric, pat) {
            let i = choose|i: int| matches_at(lyric, pat, i);
            assert(text.subrange(i, i + pat.len()) =~= lyric.subrange(i, i + pat.len()));
            assert(matches_at(text, pat, i));
        }
    }
    assert(!contains_seq(o, pat)) by {
        if contains_seq(o, pat) {
            let i = choose|i: int| matches_at(o, pat, i);
            assert(text.subrange(j + i, j + i + pat.len()) =~= o.subrange(i, i + pat.len()));
            assert(matches_at(text, pat, j + i));
        }
    }
}

/// Scraped lyrics are cut from the page text at the word "Writer": the
/// lyrics section, "Writer" and the other section start the page text, and
/// neither section holds "Writer".
pub proof fn law_lyrics_sections(url: Seq<char>, page: Option<Seq<char>>)
    requires
        lyrics_of(url, page) is Ok,
    ensures
        ({
            let l = lyrics_of(url, page)->Ok_0;
            let body = match page {
                Some(p) => p,
                None => "Error fetching lyrics"@,
            };
            &&& is_prefix(l.lyrics_section + "Writer"@ + l.other_section, page_text_of(body))
            &&& !contains_seq(l.lyrics_section, "Writer"@)
            &&& !contains_seq(l.other_section, "Writer"@)
        }),
{
    reveal_strlit("Writer");
    let body = match page {
        Some(p) => p,
        None => "Error fetching lyrics"@,
    };
    lemma_first_two_pieces(page_text_of(body), "Writer"@);
}

/// Leading slashes do not change the musixmatch URL of a path.
pub proof fn law_musixmatch_url_slash(path: Seq<char>)
    ensures
        musixmatch_url_of(seq!['/'] + path) == musixmatch_url_of(path),
{
    assert((seq!['/'] + path).drop_first() =~= path);
}

/// A final line ending is optional: a search of contents that end in a
/// line ending finds what a search of the same contents without it finds
/// (for contents that are not empty and do not already end in `\n` or `\r`).
pub proof fn law_search_final_newline(query: Seq<char>, contents: Seq<char>)
    requires
        contents.len() > 0,
        contents.last() != '\n',
        contents.last() != '\r',
    ensures
        search_results(query, contents.push('\n')) == search_results(query, contents),
{
    let ps = split_on(contents, '\n');
    lemma_split_on_len(contents, '\n');
    lemma_split_on_len(contents.drop_last(), '\n');
    let c2 = contents.push('\n');
    assert(c2.drop_last() =~= contents);
    assert(split_on(c2, '\n') == ps.push(Seq::<char>::empty()));
    assert(ps.push(Seq::<char>::empty()).drop_last() =~= ps);
    let prev = split_on(contents.drop_last(), '\n');
    assert(ps.last() == prev.last().push(contents.last()));
    assert(ps.last().last() == contents.last());
    assert(strip_cr_all(ps) =~= strip_cr_all(ps.drop_last()).push(ps.last()));
    assert(lines_of(c2) == lines_of(contents));
}

/// Searching for a query finds what searching for its lower case finds,
/// for a query that lowering twice leaves as lowering once does (std does
/// not document that `str::to_lowercase` is idempotent, so the law is
/// stated for the queries on which it is).
pub proof fn law_search_lowered_query(query: Seq<char>, contents: Seq<char>)
    requires
        lowercase(lowercase(query)) == lowercase(query),
    ensures
        search_results(query, contents) == search_results(lowercase(query), contents),
{
    assert(lowercase(lowercase(lowercase(query))) == lowercase(lowercase(query)));
}

/// Every line that the search returns is in lower case and holds the query
/// in lower case, where lowering twice leaves the query and the lines of the
/// contents as lowering once does.
pub proof fn law_search_results_lowered(query: Seq<char>, contents: Seq<char>, i: int)
    requires
        0 <= i < search_results(query, contents).len(),
        lowercase(lowercase(query)) == lowercase(query),
        forall|j: int|
            0 <= j < lines_of(contents).len() ==> lowercase(lowercase(#[trigger] lines_of(contents)[j]))
                == lowercase(lines_of(contents)[j]),
    ensures
        ({
            let s = search_results(query, contents)[i];
            s == lowercase(s) && contains_seq(s, lowercase(query))
        }),
{
    let r = search_results(query, contents);
    let s = r[i];
    assert(r.contains(s));
    law_search_finds(query, contents, s);
    let ls = lines_of(contents);
    let j = choose|j: int| 0 <= j < lowercase_all(ls).len() && lowercase_all(ls)[j] == s;
    assert(s == lowercase(ls[j]));
}

/// The other section is the whole second piece of the page text cut at
/// "Writer": the lyrics section, "Writer" and the other section either are
/// the whole page text or are followed in it by the next "Writer"; and
/// neither section holds "Writer" anywhere.
pub proof fn law_lyrics_other_section_whole(url: Seq<char>, page: Option<Seq<char>>)
    requires
        lyrics_of(url, page) is Ok,
    ensures
        ({
            let l = lyrics_of(url, page)->Ok_0;
            let body = match page {
                Some(p) => p,
                None => "Error fetching lyrics"@,
            };
            let t = page_text_of(body);
            let w = "Writer"@;
            let x = l.lyrics_section + w + l.other_section;
            &&& x == t || (x.len() + w.len() <= t.len() && t.subrange(0, (x.len() + w.len()) as int) == x
                + w)
            &&& forall|i: int|
                0 <= i && i + w.len() <= l.lyrics_section.len() ==> (
                #[trigger] l.lyrics_section.skip(i)).take(w.len() as int) != w
            &&& forall|i: int|
                0 <= i && i + w.len() <= l.other_section.len() ==> (
                #[trigger] l.other_section.skip(i)).take(w.len() as int) != w
        }),
{
    reveal_strlit("Writer");
    let body = match page {
        Some(p) => p,
        None => "Error fetching lyrics"@,
    };
    lemma_first_two_pieces(page_text_of(body), "Writer"@);
}

/// A lowered line of the contents that holds the lowered query anywhere is
/// found by the search.
pub proof fn law_search_finds_anywhere(
    query: Seq<char>,
    contents: Seq<char>,
    j: int,
    u: Seq<char>,
    v: Seq<char>,
)
    requires
        0 <= j < lines_of(contents).len(),
        lowercase(lines_of(contents)[j]) == u + lowercase(lowercase(query)) + v,
    ensures
        search_results(query, contents).contains(lowercase(lines_of(contents)[j])),
{
    let ls = lines_of(contents);
    let line = lowercase(ls[j]);
    let needle = lowercase(lowercase(query));
    assert(line.subrange(u.len() as int, (u.len() + needle.len()) as int) =~= needle);
    assert(matches_at(line, needle, u.len() as int));
    assert(lowercase_all(ls)[j] == line);
    law_search_finds(query, contents, line);
}

/// Every line the search returns holds the lowered query at some position
/// and is the lower case of one of the lines of the contents.
pub proof fn law_search_results_hold_query(query: Seq<char>, contents: Seq<char>, i: int)
    requires
        0 <= i < search_results(query, contents).len(),
    ensures
        ({
            let r = search_results(query, contents)[i];
            let needle = lowercase(lowercase(query));
            &&& exists|p: int|
                0 <= p && p + needle.len() <= r.len() && (#[trigger] r.skip(p)).take(
                    needle.len() as int,
                ) == needle
            &&& exists|j: int|
                0 <= j < lines_of(contents).len() && lowercase(#[trigger] lines_of(contents)[j]) == r
        }),
{
    let rs = search_results(query, contents);
    let r = rs[i];
    let needle = lowercase(lowercase(query));
    assert(rs.contains(r));
    law_search_finds(query, contents, r);
    let p = choose|p: int| matches_at(r, needle, p);
    assert(r.skip(p).take(needle.len() as int) =~= r.subrange(p, p + needle.len()));
    let ls = lines_of(contents);
    let j = choose|j: int| 0 <= j < lowercase_all(ls).len() && lowercase_all(ls)[j] == r;
    assert(lowercase(ls[j]) == r);
}

/// The song-list path of an album is named after the last two parts of its
/// URL: for a URL `a/b/c` whose `b` and `c` hold no `/`, it is
/// `lyrics/b/album-c`, whatever `a` holds.
pub proof fn law_album_path_last_parts(a: Seq<char>, b: Seq<char>, c: Seq<char>)
    requires
        !b.contains('/'),
        !c.contains('/'),
    ensures
        album_path_of(a + seq!['/'] + b + seq!['/'] + c) == "lyrics/"@ + b + "/album-"@ + c,
{
    let url = a + seq!['/'] + b + seq!['/'] + c;
    lemma_split_on_no_sep(b, '/');
    lemma_split_on_no_sep(c, '/');
    lemma_split_on_concat(b, c, '/');
    assert(url =~= a + seq!['/'] + (b + seq!['/'] + c));
    lemma_split_on_concat(a, b + seq!['/'] + c, '/');
    let ps = split_on(url, '/');
    lemma_split_on_len(a, '/');
    assert(ps == split_on(a, '/') + seq![b, c]);
    assert(ps[ps.len() - 2] == b);
    assert(ps[ps.len() - 1] == c);
}

/// For a URL `b/c` with a single `/`, the song-list path is
/// `lyrics/b/album-c`.
pub proof fn law_album_path_two_parts(b: Seq<char>, c: Seq<char>)
    requires
        !b.contains('/'),
        !c.contains('/'),
    ensures
        album_path_of(b + seq!['/'] + c) == "lyrics/"@ + b + "/album-"@ + c,
{
    lemma_split_on_no_sep(b, '/');
    lemma_split_on_no_sep(c, '/');
    lemma_split_on_concat(b, c, '/');
    let ps = split_on(b + seq!['/'] + c, '/');
    assert(ps == seq![b] + seq![c]);
    assert(ps[0] == b && ps[1] == c && ps.len() == 2);
}

/// Every link that `get_albums` and `get_songs` report begins with the
/// prefix, and every link target of the page that begins with it is
/// reported.
pub proof fn law_page_links_begin_with_prefix(page: Seq<char>, prefix: Seq<char>, x: Seq<char>)
    ensures
        forall|i: int|
            0 <= i < page_links(page, prefix).len() ==> {
                let l = #[trigger] page_links(page, prefix)[i];
                l.len() >= prefix.len() && l.take(prefix.len() as int) == prefix
            },
        (html_anchor_hrefs(page).contains(Some(x)) && x.len() >= prefix.len() && x.take(
            prefix.len() as int,
        ) == prefix) ==> page_links(page, prefix).contains(x),
{
    law_page_links(page, prefix, x);
    assert forall|i: int| 0 <= i < page_links(page, prefix).len() implies {
        let l = #[trigger] page_links(page, prefix)[i];
        l.len() >= prefix.len() && l.take(prefix.len() as int) == prefix
    } by {
        let l = page_links(page, prefix)[i];
        assert(page_links(page, prefix).contains(l));
        law_page_links(page, prefix, l);
    }
}

} // verus!
