//! Turning a Spotify playlist track into the path of its musixmatch lyrics.
use vstd::prelude::*;
use crate::lyrics::{lyrics_target_of, musixmatch_url_of};
use crate::text::{
    chars_of, drop_empty, join, replace_char, replace_chars, segments, string_of_vec, trim_start,
};

verus! {

/// The lyrics path of a track: `lyrics/<artist>/<song>` with every space of
/// the names turned into a hyphen.
pub open spec fn song_path_of(song_name: Seq<char>, artist_name: Seq<char>) -> Seq<char> {
    "lyrics/"@ + replace_char(artist_name, ' ', '-') + "/"@ + replace_char(song_name, ' ', '-')
}

/// The lyrics path of a track, from its name and its first artist's name.
pub fn song_path(song_name: &str, artist_name: &str) -> (p: String)
    ensures
        p@ == song_path_of(song_name@, artist_name@),
{
    let song = string_of_vec(&replace_chars(&chars_of(song_name), ' ', '-'));
    let artist = string_of_vec(&replace_chars(&chars_of(artist_name), ' ', '-'));
    String::from_str("lyrics/").concat(artist.as_str()).concat("/").concat(song.as_str())
}

/// Replacing spaces by hyphens neither removes nor adds a slash.
proof fn lemma_replace_keeps_slashes(s: Seq<char>)
    ensures
        replace_char(s, ' ', '-').len() == s.len(),
        replace_char(s, ' ', '-').contains('/') <==> s.contains('/'),
{
    let r = replace_char(s, ' ', '-');
    if s.contains('/') {
        let i = choose|i: int| 0 <= i < s.len() && s[i] == '/';
        assert(r[i] == '/');
    }
    if r.contains('/') {
        let i = choose|i: int| 0 <= i < r.len() && r[i] == '/';
        assert(s[i] == '/');
    }
}

/// A playlist track leads to its own lyrics page: the musixmatch URL of the
/// track's lyrics path names, as artist and title, the hyphenated artist and
/// song names (for names that are not empty and hold no `/`).
pub proof fn law_track_lyrics_target(song_name: Seq<char>, artist_name: Seq<char>)
    requires
        song_name.len() > 0,
        artist_name.len() > 0,
        !song_name.contains('/'),
        !artist_name.contains('/'),
    ensures
        lyrics_target_of(musixmatch_url_of(song_path_of(song_name, artist_name))) == Ok::<
            (Seq<char>, Seq<char>),
            Seq<char>,
        >((replace_char(artist_name, ' ', '-'), replace_char(song_name, ' ', '-'))),
{
    let a = replace_char(artist_name, ' ', '-');
    let n = replace_char(song_name, ' ', '-');
    lemma_replace_keeps_slashes(artist_name);
    lemma_replace_keeps_slashes(song_name);
    reveal_strlit("https://www.musixmatch.com/");
    reveal_strlit("lyrics/");
    reveal_strlit("/");
    let path = song_path_of(song_name, artist_name);
    assert(path[0] == 'l');
    assert(trim_start(path, '/') == path);
    let url = musixmatch_url_of(path);
    let p0 = seq!['h', 't', 't', 'p', 's', ':'];
    let p1 = Seq::<char>::empty();
    let p2 = seq![
        'w', 'w', 'w', '.', 'm', 'u', 's', 'i', 'x', 'm', 'a', 't', 'c', 'h', '.', 'c', 'o', 'm'
    ];
    let p3 = seq!['l', 'y', 'r', 'i', 'c', 's'];
    let parts = seq![p0, p1, p2, p3, a, n];
    assert(url =~= join(parts, seq!['/'])) by {
        reveal_with_fuel(join, 7);
        assert(parts.drop_last().drop_last().drop_last().drop_last().drop_last() =~= seq![p0]);
        assert(parts.drop_last().drop_last().drop_last().drop_last() =~= seq![p0, p1]);
        assert(parts.drop_last().drop_last().drop_last() =~= seq![p0, p1, p2]);
        assert(parts.drop_last().drop_last() =~= seq![p0, p1, p2, p3]);
        assert(parts.drop_last() =~= seq![p0, p1, p2, p3, a]);
    }
    assert(forall|i: int| 0 <= i < parts.len() ==> !(#[trigger] parts[i]).contains('/')) by {
        assert(!p0.contains('/'));
        assert(!p1.contains('/'));
        assert(!p2.contains('/'));
        assert(!p3.contains('/'));
    }
    crate::text::lemma_split_on_join(parts, '/');
    assert(segments(url, '/') =~= seq![p0, p2, p3, a, n]) by {
        reveal_with_fuel(drop_empty, 7);
        assert(parts.drop_last().drop_last().drop_last().drop_last().drop_last() =~= seq![p0]);
        assert(parts.drop_last().drop_last().drop_last().drop_last() =~= seq![p0, p1]);
        assert(parts.drop_last().drop_last().drop_last() =~= seq![p0, p1, p2]);
        assert(parts.drop_last().drop_last() =~= seq![p0, p1, p2, p3]);
        assert(parts.drop_last() =~= seq![p0, p1, p2, p3, a]);
        assert(seq![p0].drop_last() =~= Seq::<Seq<char>>::empty());
    }
}

/// Only spaces change in a track's lyrics path: it is `lyrics/`, the artist
/// name, `/` and the song name, character for character, except that each
/// space of a name has become a hyphen.
pub proof fn law_song_path_only_spaces_change(song_name: Seq<char>, artist_name: Seq<char>)
    ensures
        ({
            let r = song_path_of(song_name, artist_name);
            let la = artist_name.len();
            &&& r.len() == 8 + la + song_name.len()
            &&& r.take(7) == seq!['l', 'y', 'r', 'i', 'c', 's', '/']
            &&& r[7 + la as int] == '/'
            &&& forall|i: int|
                0 <= i < la ==> (#[trigger] artist_name[i] == ' ' ==> r[7 + i] == '-') && (
                artist_name[i] != ' ' ==> r[7 + i] == artist_name[i])
            &&& forall|i: int|
                0 <= i < song_name.len() ==> (#[trigger] song_name[i] == ' ' ==> r[8 + la + i]
                    == '-') && (song_name[i] != ' ' ==> r[8 + la + i] == song_name[i])
        }),
{
    reveal_strlit("lyrics/");
    reveal_strlit("/");
    let r = song_path_of(song_name, artist_name);
    let a = replace_char(artist_name, ' ', '-');
    let n = replace_char(song_name, ' ', '-');
    let la = artist_name.len();
    assert(r =~= seq!['l', 'y', 'r', 'i', 'c', 's', '/'] + a + seq!['/'] + n);
    assert(r.take(7) =~= seq!['l', 'y', 'r', 'i', 'c', 's', '/']);
    assert forall|i: int| 0 <= i < la implies (#[trigger] artist_name[i] == ' ' ==> r[7 + i]
        == '-') && (artist_name[i] != ' ' ==> r[7 + i] == artist_name[i]) by {
        assert(r[7 + i] == a[i]);
    }
    assert forall|i: int| 0 <= i < song_name.len() implies (#[trigger] song_name[i] == ' ' ==> r[8
        + la + i] == '-') && (song_name[i] != ' ' ==> r[8 + la + i] == song_name[i]) by {
        assert(r[8 + la + i] == n[i]);
    }
}

} // verus!
