use songbook::model::types::{Ref, StructureItem, StructureItemContent};
use songbook::model::config::row_of_string;
use songbook::error::ModelError;
use songbook::helpers::{normalize_name, normalize_pdf_name, pdfname_of_book, song_of_booksong};
use songbook::human::human_compare;
use songbook::model::config::{
    build_relative_path_of_source_absolute_path, check_section_types, chord_of_string, decode_book,
    decode_song, song_exists, time_signature_of_string,
};
use songbook::model::input_model::{
    UserBook, UserBookSong, UserChordSection, UserRef, UserSong, UserSongFiles, UserSongInfo,
    UserSongMeta, UserSongWithPath, UserStructureItem, UserStructureItemContent,
};
use songbook::model::readable::{
    row_readable, rows_readable, song_file_placed_check, song_readable_check, structure_readable,
};
use songbook::model::types::{Book, BookSong, Section, Song, TimeSignature, World};
use songbook::numbers::convert;
use songbook::order::{books_in_order, songs_in_order};
use songbook::paths::{make_path, path_file_name, path_parent, path_push};
use songbook::text::{has_digit_runs_fit, parse_u8, replace_all, split_char, str_eq, to_ascii_lower};

#[test]
fn names_are_normalized() {
    assert_eq!(normalize_name("My Song (Live).v2/x'y".to_string()), "my_song__live__v2_x_y");
    assert_eq!(normalize_pdf_name(&"Bob".to_string(), &"Hey You".to_string()), "bob--@--hey_you");
    let b = Book {
        title: "Best Of".to_string(),
        songs: vec![],
        builddir: "/b".to_string(),
        pdfname: "Best Of".to_string(),
        lyrics_only: false,
        cover_image: false,
    };
    assert_eq!(pdfname_of_book(&b), "best_of");
}

#[test]
fn human_order_of_names() {
    assert_eq!(human_compare("song2", "song10"), -1);
    assert_eq!(human_compare("song10", "song2"), 1);
    assert_eq!(human_compare("abc", "abc"), 0);
    assert!(has_digit_runs_fit("track 1234567890"));
    assert!(has_digit_runs_fit("omake.1704103200.stdout"));
    assert!(has_digit_runs_fit("x 4294967295 y"));
    assert!(!has_digit_runs_fit("x 4294967296 y"));
    assert!(has_digit_runs_fit("00000000000000000001"));
    assert!(!has_digit_runs_fit("a99999999999"));
    assert_eq!(human_compare("omake.1704103200.stdout", "omake.1704189600.stdout"), -1);
}

#[test]
fn chords_and_time_signatures() {
    assert_eq!(chord_of_string("A7 m2".to_string()), "Aseptmdeux");
    assert_eq!(chord_of_string("C345".to_string()), "Ctroisquatrecinq");
    assert_eq!(time_signature_of_string(None), Ok(TimeSignature { top: 4, low: 4 }));
    assert_eq!(
        time_signature_of_string(Some("x".to_string())),
        Err(ModelError::InvalidTimeSignature("x".to_string()))
    );
    assert_eq!(
        time_signature_of_string(Some("3/4".to_string())),
        Err(ModelError::InvalidNumber("3/4".to_string()))
    );
}

#[test]
fn paths_and_text() {
    assert_eq!(path_push("/a/b", "c"), "/a/b/c");
    assert_eq!(path_push("/a/b/", "c"), "/a/b/c");
    assert_eq!(path_push("/a/b", "/c"), "/c");
    assert_eq!(make_path("/r".to_string(), vec!["x", "y.tex"]), "/r/x/y.tex");
    assert_eq!(path_parent("/a/b/song.json"), Some("/a/b".to_string()));
    assert_eq!(path_parent("/"), None);
    assert_eq!(path_file_name("/a/b/"), Some("b".to_string()));
    assert_eq!(path_file_name("/a/.."), None);
    assert_eq!(replace_all("a b c", " ", "_"), "a_b_c");
    assert_eq!(split_char("a|b||c", '|'), vec!["a", "b", "", "c"]);
    assert_eq!(to_ascii_lower("AbC-É"), "abc-É");
    assert!(str_eq("x", "x"));
    assert!(!str_eq("x", "y"));
    assert_eq!(parse_u8("+42"), Some(42));
    assert_eq!(parse_u8("256"), None);
    assert_eq!(parse_u8(""), None);
}

fn chords(id: &str, ty: &str, rows: &[&str]) -> UserStructureItem {
    UserStructureItem {
        id: id.to_string(),
        item: UserStructureItemContent::Chords(UserChordSection {
            section_title: id.to_string(),
            section_type: ty.to_string(),
            section_body: None,
            rows: rows.iter().map(|r| r.to_string()).collect(),
        }),
    }
}

fn user_song(author: &str, title: &str, structure: Vec<UserStructureItem>) -> UserSong {
    UserSong {
        info: UserSongInfo {
            title: title.to_string(),
            author: author.to_string(),
            tempo: 120,
            time_signature: None,
        },
        structure,
        meta: UserSongMeta { date: "2024-01-01".to_string() },
        files: UserSongFiles { tex: vec![], lilypond: vec!["solo.ly".to_string()], wav: vec![] },
    }
}

#[test]
fn readability_checks() {
    assert_eq!(row_readable(1, &"A|B|C".to_string()), Some(4));
    assert_eq!(rows_readable(1, &vec!["A|B".to_string(), "C".to_string()]), Some(4));
    let ok = vec![chords("a", "verse", &["A|B"])];
    assert!(structure_readable(&ok));
    let dangling = vec![UserStructureItem {
        id: "r".to_string(),
        item: UserStructureItemContent::Ref(UserRef {
            section_title: "R".to_string(),
            section_body: None,
            section_type: None,
            link: "nowhere".to_string(),
        }),
    }];
    assert!(!structure_readable(&dangling));
    assert!(song_file_placed_check(&"/src/Bob/Song/song.json".to_string()));
    assert!(!song_file_placed_check(&"song.json".to_string()));
    let s = user_song("Bob", "Song", ok);
    assert!(song_readable_check(&s, &"/src/Bob/Song/song.json".to_string()));
}

fn section(id: &str) -> Section {
    Section { id: id.to_string(), color: "red".to_string(), label: id.to_string() }
}

#[test]
fn decoding_songs_and_books() {
    let path = "/src/Bob/Song 1/song.json".to_string();
    let us = user_song("Bob", "Song 1", vec![chords("a", "verse", &["A|B"]), chords("b", "chorus", &["C"])]);
    let (song, uswp) = decode_song("/build", &vec![section("verse"), section("chorus")], &path, us.clone()).unwrap();
    assert_eq!(song.builddir, "/build/songs/Bob/Song 1");
    assert_eq!(song.srcdir, "/src/Bob/Song 1");
    assert_eq!(song.pdfname, "bob--@--song_1");
    assert_eq!(uswp.path, path);
    assert_eq!(
        decode_song("/build", &vec![section("verse")], &path, us.clone()).err(),
        Some(ModelError::UnknownSectionType("chorus".to_string()))
    );
    assert_eq!(check_section_types(&vec![section("verse"), section("chorus")], &song), Ok(()));

    let songs = vec![UserSongWithPath { song: us.clone(), path: path.clone() }];
    assert_eq!(song_exists("Bob", "Song 1", &songs).map(|s| s.path), Some(path.clone()));
    assert!(song_exists("Bob", "Song 2", &songs).is_none());
    assert_eq!(
        build_relative_path_of_source_absolute_path("/src", "/build", path.clone()),
        Ok("/build/songs/Bob/Song 1".to_string())
    );
    let ub = UserBook {
        title: "Best Of".to_string(),
        songs: vec![UserBookSong { author: "Bob".to_string(), title: "Song 1".to_string() }],
        lyrics_only: true,
        cover_image: false,
    };
    let (book, ubp) = decode_book("/src", "/build", &"/books/b.yml".to_string(), ub.clone(), &songs).unwrap();
    assert_eq!(book.builddir, "/build/books/Best_Of");
    assert_eq!(book.songs[0].pdfname, "bob--@--song_1");
    assert_eq!(book.songs[0].path, "/build/songs/Bob/Song 1");
    assert!(book.lyrics_only);
    assert_eq!(ubp.path, "/books/b.yml");
    let missing = UserBook {
        songs: vec![UserBookSong { author: "Ann".to_string(), title: "X".to_string() }],
        ..ub
    };
    assert_eq!(
        decode_book("/src", "/build", &"/books/b.yml".to_string(), missing, &songs).err(),
        Some(ModelError::MissingSong("Ann".to_string(), "X".to_string()))
    );

    let world = World {
        builddir: "/build".to_string(),
        songdir: "/src".to_string(),
        bookdir: "/books".to_string(),
        songs: vec![song.clone()],
        books: vec![],
        sections: vec![],
        broken_songs: vec![],
        broken_books: vec![],
    };
    let bs = BookSong {
        author: "Bob".to_string(),
        title: "Song 1".to_string(),
        pdfname: "".to_string(),
        path: "".to_string(),
    };
    assert_eq!(song_of_booksong(&world, &bs), Ok(song.clone()));
    let other = BookSong { title: "Nope".to_string(), ..bs };
    assert_eq!(
        song_of_booksong(&world, &other),
        Err(ModelError::MissingSong("Bob".to_string(), "Nope".to_string()))
    );
    let _: Song = song;
}

fn named_song(author: &str, title: &str) -> Song {
    Song {
        title: title.to_string(),
        author: author.to_string(),
        tempo: 100,
        time_signature: TimeSignature { top: 4, low: 4 },
        pdfname: "".to_string(),
        texfiles: vec![],
        builddir: "".to_string(),
        lilypondfiles: vec![],
        wavfiles: vec![],
        date: "".to_string(),
        structure: vec![],
        srcdir: "".to_string(),
    }
}

#[test]
fn songs_and_books_in_human_order() {
    let songs = vec![
        named_song("Zed", "a"),
        named_song("Bob", "track10"),
        named_song("Bob", "track2"),
        named_song("Ann", "x"),
    ];
    let names: Vec<(String, String)> =
        songs_in_order(&songs).into_iter().map(|s| (s.author, s.title)).collect();
    assert_eq!(
        names,
        vec![
            ("Ann".to_string(), "x".to_string()),
            ("Bob".to_string(), "track2".to_string()),
            ("Bob".to_string(), "track10".to_string()),
            ("Zed".to_string(), "a".to_string()),
        ]
    );
    let book = |t: &str| Book {
        title: t.to_string(),
        songs: vec![],
        builddir: "".to_string(),
        pdfname: "".to_string(),
        lyrics_only: false,
        cover_image: false,
    };
    let titles: Vec<String> = books_in_order(&vec![book("Vol 10"), book("Vol 9"), book("Best")])
        .into_iter()
        .map(|b| b.title)
        .collect();
    assert_eq!(titles, vec!["Best", "Vol 9", "Vol 10"]);
}

#[test]
fn word_to_little_endian_bytes() {
    assert_eq!(convert(&[0x04030201]), [1, 2, 3, 4]);
    assert_eq!(convert(&[u32::MAX]), [255, 255, 255, 255]);
    assert_eq!(convert(&[0x12345678]), 0x12345678u32.to_le_bytes());
}

#[test]
fn references_need_a_known_type() {
    let mut song = named_song("A", "T");
    song.structure = vec![StructureItem {
        item: StructureItemContent::ItemRef(Ref {
            row_start_bar_number: 1,
            nb_bars: 0,
            section_title: "R".to_string(),
            section_id: "r".to_string(),
            section_type: "bridge".to_string(),
            section_body: "".to_string(),
        }),
    }];
    assert_eq!(
        check_section_types(&vec![], &song),
        Err(ModelError::UnknownSectionType("bridge".to_string()))
    );
    assert_eq!(check_section_types(&vec![section("bridge")], &song), Ok(()));
}

#[test]
fn a_blank_first_cell_is_no_bar() {
    let (count, row) = row_of_string(0, " |A|B|C|D|x2".to_string());
    assert_eq!(count, 8);
    assert_eq!(row.repeat, 2);
    assert_eq!(row.row_start_bar_number, 0);
    assert_eq!(row.bars.len(), 4);
    let (count, row) = row_of_string(3, "|A|B".to_string());
    assert_eq!(count, 5);
    assert_eq!(row.bars.len(), 2);
    assert_eq!(row_readable(0, &" |A|B|C|D|x2".to_string()), Some(8));
}

#[test]
fn naming_and_path_laws_on_examples() {
    for s in ["Bfm7", "x3", "A 7 2/5", ""] {
        let once = chord_of_string(s.to_string());
        assert_eq!(chord_of_string(once.clone()), once);
    }
    assert_eq!(chord_of_string("Bfm7".to_string()), "Bfmsept");
    assert_eq!(chord_of_string("x3".to_string()), "xtrois");
    for s in ["My Song (Live).v2/x'y", "ABC", ""] {
        let once = normalize_name(s.to_string());
        assert_eq!(normalize_name(once.clone()), once);
    }
    let (a, t) = ("Bob Dy.lan".to_string(), "Hey (You)".to_string());
    assert_eq!(
        normalize_pdf_name(&a, &t),
        normalize_name(a.clone()) + "--@--" + &normalize_name(t.clone())
    );
    assert_eq!(normalize_pdf_name(&"".to_string(), &"".to_string()), "--@--");
    assert_eq!(make_path("/build".to_string(), vec![]), "/build");
    assert_eq!(
        make_path(make_path("/build".to_string(), vec!["books"]), vec!["main.tex"]),
        make_path("/build".to_string(), vec!["books", "main.tex"])
    );
    assert_eq!(make_path("/build".to_string(), vec!["books", "main.tex"]), "/build/books/main.tex");
}

#[test]
fn lookups_take_any_name() {
    let long = "Opus 99999999999999999999";
    let world = World {
        builddir: "/build".to_string(),
        songdir: "/src".to_string(),
        bookdir: "/books".to_string(),
        songs: vec![named_song("Ann", long)],
        books: vec![],
        sections: vec![],
        broken_songs: vec![],
        broken_books: vec![],
    };
    let bs = BookSong {
        author: "Ann".to_string(),
        title: long.to_string(),
        pdfname: "".to_string(),
        path: "".to_string(),
    };
    assert_eq!(song_of_booksong(&world, &bs).map(|s| s.title), Ok(long.to_string()));
    let songs = vec![named_song("A", "x"), named_song("A", "x"), named_song("A", "a")];
    let mut tagged = songs.clone();
    tagged[0].date = "first".to_string();
    tagged[1].date = "second".to_string();
    let dates: Vec<String> = songs_in_order(&tagged).into_iter().map(|s| s.date).collect();
    assert_eq!(dates, vec!["".to_string(), "first".to_string(), "second".to_string()]);
}
