use songbook::error::ModelError;
use songbook::model::input_model::{
    UserBook, UserBookSong, UserChordSection, UserSong, UserSongFiles, UserSongInfo, UserSongMeta,
    UserStructureItem, UserStructureItemContent,
};
use songbook::model::types::{Section, Song, StructureItem, StructureItemContent, TimeSignature, Chords, Ref};
use songbook::model::world::{make_world, BookFile, SongFile};
use songbook::mount::{lyrics_mounts, required_mounts};

fn section(id: &str) -> Section {
    Section {
        id: id.to_string(),
        color: "red".to_string(),
        label: id.to_string(),
    }
}

fn user_song(author: &str, title: &str, ts: Option<&str>, section_type: &str) -> UserSong {
    UserSong {
        info: UserSongInfo {
            title: title.to_string(),
            author: author.to_string(),
            tempo: 100,
            time_signature: ts.map(|s| s.to_string()),
        },
        structure: vec![UserStructureItem {
            id: "a".to_string(),
            item: UserStructureItemContent::Chords(UserChordSection {
                section_title: "Intro".to_string(),
                section_type: section_type.to_string(),
                section_body: None,
                rows: vec!["A|B".to_string()],
            }),
        }],
        meta: UserSongMeta { date: "2024".to_string() },
        files: UserSongFiles { tex: vec![], lilypond: vec![], wav: vec![] },
    }
}

#[test]
fn make_world_sorts_files_into_songs_and_broken() {
    let files = vec![
        SongFile {
            path: "/src/Bob/Song One/song.json".to_string(),
            content: Ok(user_song("Bob", "Song One", None, "verse")),
        },
        SongFile {
            path: "/src/Bob/Bad/song.json".to_string(),
            content: Err("expected value at line 1".to_string()),
        },
        SongFile {
            path: "/src/Bob/Odd/song.json".to_string(),
            content: Ok(user_song("Bob", "Odd", None, "nosuch")),
        },
        SongFile {
            path: "/src/Bob/Time/song.json".to_string(),
            content: Ok(user_song("Bob", "Time", Some("x"), "verse")),
        },
    ];
    let books = vec![
        BookFile {
            path: "/books/b1.json".to_string(),
            content: Ok(UserBook {
                title: "My Book".to_string(),
                songs: vec![UserBookSong { author: "Bob".to_string(), title: "Song One".to_string() }],
                lyrics_only: false,
                cover_image: true,
            }),
        },
        BookFile {
            path: "/books/b2.json".to_string(),
            content: Ok(UserBook {
                title: "Other".to_string(),
                songs: vec![UserBookSong { author: "Bob".to_string(), title: "Odd".to_string() }],
                lyrics_only: false,
                cover_image: false,
            }),
        },
    ];
    let (world, user) = make_world("/build", "/src", "/books", vec![section("verse")], files, books);
    assert_eq!(world.builddir, "/build");
    assert_eq!(world.songs.len(), 1);
    let s = &world.songs[0];
    assert_eq!(s.title, "Song One");
    assert_eq!(s.srcdir, "/src/Bob/Song One");
    assert_eq!(s.builddir, "/build/songs/Bob/Song One");
    assert_eq!(s.time_signature, TimeSignature { top: 4, low: 4 });
    assert_eq!(user.songs.len(), 1);
    assert_eq!(user.songs[0].path, "/src/Bob/Song One/song.json");
    assert_eq!(
        world.broken_songs,
        vec![
            ("/src/Bob/Bad/song.json".to_string(), "expected value at line 1".to_string()),
            ("/src/Bob/Odd/song.json".to_string(), "unknown section type : nosuch".to_string()),
            ("/src/Bob/Time/song.json".to_string(), "'x is not a valid time signature".to_string()),
        ]
    );
    assert_eq!(world.books.len(), 1);
    assert_eq!(world.books[0].title, "My Book");
    assert_eq!(world.books[0].builddir, "/build/books/My_Book");
    assert_eq!(world.books[0].songs[0].path, "/build/songs/Bob/Song One");
    assert_eq!(user.books.len(), 1);
    assert_eq!(user.books[0].path, "/books/b1.json");
    assert_eq!(
        world.broken_books,
        vec![("/books/b2.json".to_string(), "invalid or missing song : Bob / Odd".to_string())]
    );
}

#[test]
fn model_error_texts() {
    assert_eq!(ModelError::NoParent("x".to_string()).text(), "? no parent");
    assert_eq!(
        ModelError::UnknownSectionType("solo".to_string()).text(),
        "unknown section type : solo"
    );
    assert_eq!(
        ModelError::MissingSong("A".to_string(), "T".to_string()).text(),
        "invalid or missing song : A / T"
    );
    for s in ["3/4", "", "+", "-", "-5", "256", "2x", "999x", "9x9", "+300", "a"] {
        let expected = s.parse::<u8>().unwrap_err().to_string();
        assert_eq!(ModelError::InvalidNumber(s.to_string()).text(), expected, "for {:?}", s);
    }
}

fn song_with_structure() -> Song {
    Song {
        title: "T".to_string(),
        author: "A".to_string(),
        tempo: 90,
        time_signature: TimeSignature { top: 4, low: 4 },
        pdfname: "a--t".to_string(),
        texfiles: vec![],
        builddir: "/b/songs/A/T".to_string(),
        lilypondfiles: vec!["solo.ly".to_string()],
        wavfiles: vec![],
        date: "2024".to_string(),
        structure: vec![
            StructureItem {
                item: StructureItemContent::ItemChords(Chords {
                    section_id: "intro".to_string(),
                    section_title: "Intro".to_string(),
                    section_type: "verse".to_string(),
                    section_body: String::new(),
                    row_start_bar_number: 1,
                    nb_bars: 0,
                    rows: vec![],
                }),
            },
            StructureItem { item: StructureItemContent::ItemNewColumn },
            StructureItem {
                item: StructureItemContent::ItemRef(Ref {
                    section_id: "again".to_string(),
                    section_title: "Again".to_string(),
                    section_type: "verse".to_string(),
                    section_body: String::new(),
                    row_start_bar_number: 1,
                    nb_bars: 0,
                }),
            },
        ],
        srcdir: "/s/A/T".to_string(),
    }
}

#[test]
fn mounts_of_a_song() {
    let s = song_with_structure();
    assert_eq!(
        required_mounts(&s),
        vec![
            ("/s/A/T/body.tex".to_string(), "/b/songs/A/T/body.tex".to_string()),
            ("/s/A/T/add.tikz".to_string(), "/b/songs/A/T/add.tikz".to_string()),
            ("/s/A/T/solo.ly".to_string(), "/b/songs/A/T/solo.ly".to_string()),
        ]
    );
    assert_eq!(
        lyrics_mounts(&s),
        vec![
            ("/s/A/T/lyrics/intro.tex".to_string(), "/b/songs/A/T/lyrics/intro.tex".to_string()),
            ("/s/A/T/lyrics/again.tex".to_string(), "/b/songs/A/T/lyrics/again.tex".to_string()),
        ]
    );
}
