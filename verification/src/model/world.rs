//! Assembling the world from the song and book files found in the source
//! trees: the files that decode become songs and books, the others are
//! recorded as broken, with the reason.
use vstd::prelude::*;
use crate::error::{ModelError, ModelErrorV};
use crate::model::config::{
    book_spec, decode_book, decode_song, first_unknown_section,
    song_builddir_spec, song_file_placed, song_readable, song_spec,
};
use crate::model::input_model::{UserBook, UserBookWithPath, UserSong, UserSongV, UserSongWithPath, UserSongWithPathV, UserWorld};
use crate::model::types::{Book, BookV, Section, Song, SongV, World};
use crate::text::{parse_u8_error, parse_u8_error_text};

verus! {

/// A song file of the song tree: where it was found, and its content read as
/// a user song, or the reason it could not be read.
pub struct SongFile {
    pub path: String,
    pub content: Result<UserSong, String>,
}

/// A book file of the book tree: where it was found, and its content read as
/// a user book, or the reason it could not be read.
pub struct BookFile {
    pub path: String,
    pub content: Result<UserBook, String>,
}

/// The text that reports a model error, as the song and book readers word
/// it (a number is reported as `str::parse::<u8>` reports it).
pub open spec fn error_text_spec(e: ModelErrorV) -> Seq<char> {
    match e {
        ModelErrorV::InvalidTimeSignature(s) => "'"@ + s + " is not a valid time signature"@,
        ModelErrorV::InvalidNumber(s) => parse_u8_error_text(s),
        ModelErrorV::UnknownSectionType(s) => "unknown section type : "@ + s,
        ModelErrorV::NoParent(s) => "? no parent"@,
        ModelErrorV::MissingSong(a, t) => "invalid or missing song : "@ + a + " / "@ + t,
    }
}

impl ModelError {
    /// The text that reports this error.
    pub fn text(&self) -> (r: String)
        ensures
            r@ == error_text_spec(self@),
    {
        match self {
            ModelError::InvalidTimeSignature(s) => "'".to_owned().concat(s.as_str()).concat(
                " is not a valid time signature",
            ),
            ModelError::InvalidNumber(s) => parse_u8_error(s.as_str()),
            ModelError::UnknownSectionType(s) => "unknown section type : ".to_owned().concat(s.as_str()),
            ModelError::NoParent(_) => "? no parent".to_owned(),
            ModelError::MissingSong(a, t) => "invalid or missing song : ".to_owned().concat(a.as_str()).concat(
                " / ",
            ).concat(t.as_str()),
        }
    }
}

/// What the song read from `path` becomes: the song, or the first error met
/// (its description, then its section types).
pub open spec fn song_outcome(buildroot: Seq<char>, sections: Seq<Section>, path: Seq<char>, u: UserSongV) -> Result<SongV, ModelErrorV> {
    match song_spec(u, path, song_builddir_spec(buildroot, path)) {
        Err(e) => Err(e),
        Ok(s) => match first_unknown_section(s.structure, sections, 0) {
            Some(t) => Err(ModelErrorV::UnknownSectionType(t)),
            None => Ok(s),
        },
    }
}

/// The songs, the user songs with their paths, and the broken song files
/// (path and reason) that the song files give, each in the order of the files.
pub open spec fn songs_of_files(buildroot: Seq<char>, sections: Seq<Section>, files: Seq<SongFile>) -> (
    Seq<SongV>,
    Seq<UserSongWithPathV>,
    Seq<(Seq<char>, Seq<char>)>,
)
    decreases files.len(),
{
    if files.len() == 0 {
        (Seq::empty(), Seq::empty(), Seq::empty())
    } else {
        let (ok, users, broken) = songs_of_files(buildroot, sections, files.drop_last());
        let f = files.last();
        match f.content {
            Err(msg) => (ok, users, broken.push((f.path@, msg@))),
            Ok(u) => match song_outcome(buildroot, sections, f.path@, u@) {
                Ok(s) => (ok.push(s), users.push(UserSongWithPathV { song: u@, path: f.path@ }), broken),
                Err(e) => (ok, users, broken.push((f.path@, error_text_spec(e)))),
            },
        }
    }
}

/// The books, the user books with their paths, and the broken book files
/// (path and reason) that the book files give against the user songs
/// `songs`, each in the order of the files.
pub open spec fn books_of_files(
    songdir: Seq<char>,
    buildroot: Seq<char>,
    files: Seq<BookFile>,
    songs: Seq<UserSongWithPath>,
) -> (Seq<BookV>, Seq<(UserBook, Seq<char>)>, Seq<(Seq<char>, Seq<char>)>)
    decreases files.len(),
{
    if files.len() == 0 {
        (Seq::empty(), Seq::empty(), Seq::empty())
    } else {
        let (ok, users, broken) = books_of_files(songdir, buildroot, files.drop_last(), songs);
        let f = files.last();
        match f.content {
            Err(msg) => (ok, users, broken.push((f.path@, msg@))),
            Ok(u) => match book_spec(songdir, buildroot, u, songs) {
                Ok(b) => (ok.push(b), users.push((u, f.path@)), broken),
                Err(e) => (ok, users, broken.push((f.path@, error_text_spec(e)))),
            },
        }
    }
}

/// A song file whose content the model can take: it lies in a TITLE
/// directory of an AUTHOR directory, and its structure can be read.
pub open spec fn song_file_usable(f: SongFile) -> bool {
    f.content is Ok ==> {
        let u = f.content->Ok_0;
        &&& song_file_placed(f.path@)
        &&& song_readable(u@, f.path@)
    }
}

/// The views of pairs of strings.
pub open spec fn pair_views(v: Seq<(String, String)>) -> Seq<(Seq<char>, Seq<char>)> {
    v.map_values(|p: (String, String)| (p.0@, p.1@))
}

/// The world found in the source trees: each song file that decodes gives a
/// song, each book file that decodes against those songs gives a book, and
/// every other file is listed as broken with its reason. Alongside, the user
/// songs and books that were decoded, with their paths.
pub fn make_world(
    builddir: &str,
    songdir: &str,
    bookdir: &str,
    sections: Vec<Section>,
    song_files: Vec<SongFile>,
    book_files: Vec<BookFile>,
) -> (r: (World, UserWorld))
    requires
        forall|i: int| 0 <= i < song_files@.len() ==> song_file_usable(#[trigger] song_files@[i]),
    ensures
        r.0.builddir@ == builddir@,
        r.0.songdir@ == songdir@,
        r.0.bookdir@ == bookdir@,
        r.0.sections@ == sections@,
        r.0.songs@.map_values(|s: Song| s@) == songs_of_files(builddir@, sections@, song_files@).0,
        r.1.songs@.map_values(|u: UserSongWithPath| u@) == songs_of_files(builddir@, sections@, song_files@).1,
        pair_views(r.0.broken_songs@) == songs_of_files(builddir@, sections@, song_files@).2,
        r.0.books@.map_values(|b: Book| b@) == books_of_files(songdir@, builddir@, book_files@, r.1.songs@).0,
        r.1.books@.map_values(|b: UserBookWithPath| (b.book, b.path@)) == books_of_files(
            songdir@,
            builddir@,
            book_files@,
            r.1.songs@,
        ).1,
        pair_views(r.0.broken_books@) == books_of_files(songdir@, builddir@, book_files@, r.1.songs@).2,
{
    let ghost sfiles = song_files@;
    let mut rest = song_files;
    let mut songs: Vec<Song> = Vec::new();
    let mut usongs: Vec<UserSongWithPath> = Vec::new();
    let mut broken_songs: Vec<(String, String)> = Vec::new();
    let mut i: usize = 0;
    let n_songs: usize = rest.len();
    assert(sfiles.subrange(0, 0) =~= Seq::<SongFile>::empty());
    while rest.len() > 0
        invariant
            forall|k: int| 0 <= k < sfiles.len() ==> song_file_usable(#[trigger] sfiles[k]),
            i + rest@.len() == sfiles.len(),
            sfiles.len() == n_songs,
            rest@ == sfiles.subrange(i as int, sfiles.len() as int),
            songs@.map_values(|s: Song| s@) == songs_of_files(builddir@, sections@, sfiles.subrange(0, i as int)).0,
            usongs@.map_values(|u: UserSongWithPath| u@) == songs_of_files(builddir@, sections@, sfiles.subrange(0, i as int)).1,
            pair_views(broken_songs@) == songs_of_files(builddir@, sections@, sfiles.subrange(0, i as int)).2,
        decreases rest@.len(),
    {
        assert(sfiles.subrange(0, i + 1).drop_last() =~= sfiles.subrange(0, i as int));
        assert(rest@[0] == sfiles[i as int]);
        assert(song_file_usable(sfiles[i as int]));
        let f = rest.remove(0);
        assert(rest@ =~= sfiles.subrange(i + 1, sfiles.len() as int));
        let path = f.path;
        match f.content {
            Err(msg) => {
                let ghost old = broken_songs@;
                broken_songs.push((path, msg));
                assert(pair_views(broken_songs@) =~= pair_views(old).push((sfiles[i as int].path@, msg@)));
            },
            Ok(u) => {
                let ghost uv = u@;
                match decode_song(builddir, &sections, &path, u) {
                    Ok((s, us)) => {
                        let ghost olds = songs@;
                        let ghost oldu = usongs@;
                        songs.push(s);
                        usongs.push(us);
                        assert(songs@.map_values(|s: Song| s@) =~= olds.map_values(|s: Song| s@).push(s@));
                        assert(usongs@.map_values(|u: UserSongWithPath| u@) =~= oldu.map_values(
                            |u: UserSongWithPath| u@,
                        ).push(UserSongWithPathV { song: uv, path: path@ }));
                    },
                    Err(e) => {
                        let ghost old = broken_songs@;
                        let t = e.text();
                        broken_songs.push((path, t));
                        assert(pair_views(broken_songs@) =~= pair_views(old).push((sfiles[i as int].path@, t@)));
                    },
                }
            },
        }
        i = i + 1;
    }
    assert(sfiles.subrange(0, sfiles.len() as int) =~= sfiles);

    let ghost bfiles = book_files@;
    let mut brest = book_files;
    let mut books: Vec<Book> = Vec::new();
    let mut ubooks: Vec<UserBookWithPath> = Vec::new();
    let mut broken_books: Vec<(String, String)> = Vec::new();
    let mut j: usize = 0;
    let n_books: usize = brest.len();
    assert(bfiles.subrange(0, 0) =~= Seq::<BookFile>::empty());
    while brest.len() > 0
        invariant
            j + brest@.len() == bfiles.len(),
            bfiles.len() == n_books,
            brest@ == bfiles.subrange(j as int, bfiles.len() as int),
            books@.map_values(|b: Book| b@) == books_of_files(songdir@, builddir@, bfiles.subrange(0, j as int), usongs@).0,
            ubooks@.map_values(|b: UserBookWithPath| (b.book, b.path@)) == books_of_files(
                songdir@,
                builddir@,
                bfiles.subrange(0, j as int),
                usongs@,
            ).1,
            pair_views(broken_books@) == books_of_files(songdir@, builddir@, bfiles.subrange(0, j as int), usongs@).2,
        decreases brest@.len(),
    {
        assert(bfiles.subrange(0, j + 1).drop_last() =~= bfiles.subrange(0, j as int));
        assert(brest@[0] == bfiles[j as int]);
        let f = brest.remove(0);
        assert(brest@ =~= bfiles.subrange(j + 1, bfiles.len() as int));
        let path = f.path;
        match f.content {
            Err(msg) => {
                let ghost old = broken_books@;
                broken_books.push((path, msg));
                assert(pair_views(broken_books@) =~= pair_views(old).push((bfiles[j as int].path@, msg@)));
            },
            Ok(u) => {
                let ghost ub = u;
                match decode_book(songdir, builddir, &path, u, &usongs) {
                    Ok((b, wb)) => {
                        let ghost oldb = books@;
                        let ghost oldu = ubooks@;
                        books.push(b);
                        ubooks.push(wb);
                        assert(books@.map_values(|b: Book| b@) =~= oldb.map_values(|b: Book| b@).push(b@));
                        assert(ubooks@.map_values(|b: UserBookWithPath| (b.book, b.path@)) =~= oldu.map_values(
                            |b: UserBookWithPath| (b.book, b.path@),
                        ).push((ub, path@)));
                    },
                    Err(e) => {
                        let ghost old = broken_books@;
                        let t = e.text();
                        broken_books.push((path, t));
                        assert(pair_views(broken_books@) =~= pair_views(old).push((bfiles[j as int].path@, t@)));
                    },
                }
            },
        }
        j = j + 1;
    }
    assert(bfiles.subrange(0, bfiles.len() as int) =~= bfiles);
    let world = World {
        builddir: builddir.to_owned(),
        songdir: songdir.to_owned(),
        bookdir: bookdir.to_owned(),
        songs,
        books,
        sections,
        broken_songs,
        broken_books,
    };
    (world, UserWorld { songs: usongs, books: ubooks })
}

/// Every song file is accounted for exactly once: it gives a song (with its
/// user song) or a broken entry.
pub proof fn lemma_every_song_file_accounted(buildroot: Seq<char>, sections: Seq<Section>, files: Seq<SongFile>)
    ensures
        songs_of_files(buildroot, sections, files).0.len() + songs_of_files(buildroot, sections, files).2.len()
            == files.len(),
        songs_of_files(buildroot, sections, files).0.len() == songs_of_files(buildroot, sections, files).1.len(),
    decreases files.len(),
{
    if files.len() > 0 {
        lemma_every_song_file_accounted(buildroot, sections, files.drop_last());
    }
}

/// Every book file is accounted for exactly once: it gives a book (with its
/// user book) or a broken entry.
pub proof fn lemma_every_book_file_accounted(
    songdir: Seq<char>,
    buildroot: Seq<char>,
    files: Seq<BookFile>,
    songs: Seq<UserSongWithPath>,
)
    ensures
        books_of_files(songdir, buildroot, files, songs).0.len() + books_of_files(songdir, buildroot, files, songs).2.len()
            == files.len(),
        books_of_files(songdir, buildroot, files, songs).0.len() == books_of_files(songdir, buildroot, files, songs).1.len(),
    decreases files.len(),
{
    if files.len() > 0 {
        lemma_every_book_file_accounted(songdir, buildroot, files.drop_last(), songs);
    }
}

} // verus!
