use songbook::server::{latest_omake_output, omake_output_or_none, stderr_name};
use songbook::rebuild::bootstrap_outcome;
use songbook::scheduler::BuildType;
use songbook::cli::{dirs_of_args, usage};
use songbook::error::ModelError;
use songbook::makefiles::{f, omakeroot_text};
use songbook::model::types::{
    Book, BookSong, Chords, Ref, Song, StructureItem, StructureItemContent, TimeSignature, World,
};
use songbook::numbers::{decimal, parse_u32};
use songbook::omake_output::{format_string, has_bracket_triple};
use songbook::process::{children_file, children_of_text, children_text_ok, Descendents};
use songbook::protocol::answer::EChoice;
use songbook::rebuild::{index_of_booksong, needs_rebuild_book_ok};
use songbook::server::{
    clean_build_tree_paths, handle_build_progress, handle_get_omake_stdout, handle_source_tree,
    save_file_path, source_file_path, source_tree_item,
};
use songbook::setlist::{duration_text, setlist_files, setlist_times, toc_pages};

fn song(author: &str, title: &str, srcdir: &str) -> Song {
    Song {
        title: title.to_string(),
        author: author.to_string(),
        tempo: 100,
        time_signature: TimeSignature { top: 4, low: 4 },
        pdfname: "".to_string(),
        texfiles: vec!["t.tex".to_string()],
        builddir: "".to_string(),
        lilypondfiles: vec!["a.ly".to_string(), "b.ly".to_string()],
        wavfiles: vec![],
        date: "".to_string(),
        structure: vec![
            StructureItem {
                item: StructureItemContent::ItemChords(Chords {
                    section_title: "".to_string(),
                    section_id: "verse".to_string(),
                    section_type: "verse".to_string(),
                    section_body: "".to_string(),
                    row_start_bar_number: 1,
                    nb_bars: 0,
                    rows: vec![],
                }),
            },
            StructureItem {
                item: StructureItemContent::ItemNewColumn,
            },
            StructureItem {
                item: StructureItemContent::ItemRef(Ref {
                    row_start_bar_number: 1,
                    nb_bars: 0,
                    section_title: "".to_string(),
                    section_id: "chorus".to_string(),
                    section_type: "".to_string(),
                    section_body: "".to_string(),
                }),
            },
        ],
        srcdir: srcdir.to_string(),
    }
}

fn world(songs: Vec<Song>) -> World {
    World {
        builddir: "/build".to_string(),
        songdir: "/songs".to_string(),
        bookdir: "/books".to_string(),
        songs,
        books: vec![],
        sections: vec![],
        broken_songs: vec![],
        broken_books: vec![],
    }
}

#[test]
fn build_progress_is_empty() {
    match handle_build_progress("/songs", "/build") {
        Ok(EChoice::ItemSeeProgress(p)) => assert!(p.progress.is_empty()),
        _ => panic!("unexpected answer"),
    }
}

#[test]
fn omake_stdout_puts_errors_first() {
    assert_eq!(
        handle_get_omake_stdout("out".to_string(), "err".to_string()),
        Ok(EChoice::ItemFileData(
            "omake.stdout".to_string(),
            "err\nout".to_string()
        ))
    );
}

#[test]
fn source_tree_relative_to_song_dir() {
    let s = song("Ann", "Tune", "/songs/Ann/Tune");
    let item = source_tree_item("/songs", &s);
    assert_eq!(item.masterjsonfile, "/Ann/Tune/song.json");
    assert_eq!(item.mastertexfile, "/Ann/Tune/body.tex");
    assert_eq!(item.texfiles, vec!["/Ann/Tune/t.tex".to_string()]);
    assert_eq!(
        item.lyricstexfiles,
        vec![
            "/Ann/Tune/lyrics/verse.tex".to_string(),
            "/Ann/Tune/lyrics/chorus.tex".to_string()
        ]
    );
    assert_eq!(
        item.lyfiles,
        vec!["/Ann/Tune/a.ly".to_string(), "/Ann/Tune/b.ly".to_string()]
    );
    // an empty song directory changes nothing
    assert_eq!(
        source_tree_item("", &s).masterjsonfile,
        "/songs/Ann/Tune/song.json"
    );
    match handle_source_tree("/songs", &world(vec![s.clone(), s])) {
        Ok(EChoice::ItemSourceTree(t)) => {
            assert_eq!(t.items.len(), 2);
            assert_eq!(t.items[1].author, "Ann");
        }
        _ => panic!("unexpected answer"),
    }
}

#[test]
fn client_paths() {
    assert_eq!(
        source_file_path("/songs", "/Ann/Tune/body.tex"),
        (
            "Ann/Tune/body.tex".to_string(),
            "/songs/Ann/Tune/body.tex".to_string()
        )
    );
    assert_eq!(
        source_file_path("/songs", "x.tex"),
        ("x.tex".to_string(), "/songs/x.tex".to_string())
    );
    assert_eq!(save_file_path("/songs", "/Ann/t.tex"), "/songs/Ann/t.tex");
    assert_eq!(save_file_path("/songs", "Ann/t.tex"), "/songs/Annt.tex");
    assert_eq!(save_file_path("/songs", "t.tex"), "/songs/t.tex");
    assert_eq!(
        clean_build_tree_paths("/build"),
        vec![
            "/build/delivery".to_string(),
            "/build/songs".to_string(),
            "/build/books".to_string()
        ]
    );
}

#[test]
fn omake_output_marks() {
    assert!(has_bracket_triple("[ok][pdf][song]"));
    assert!(has_bracket_triple("x [][][] y"));
    assert!(!has_bracket_triple("[ok][pdf]"));
    assert!(!has_bracket_triple("[a]b][c]"));
    assert_eq!(
        format_string(&"[a][b][c]\nnothing\n[x][y][z] tail".to_string()),
        "xx/nxx"
    );
    assert_eq!(format_string(&"nothing".to_string()), "");
    assert_eq!(format_string(&"[a][b][c]".to_string()), "xx");
}

#[test]
fn set_list_pages() {
    assert_eq!(toc_pages(25, 12), vec![(0, 12), (12, 12), (24, 1)]);
    assert_eq!(toc_pages(24, 12), vec![(0, 12), (12, 12)]);
    assert_eq!(toc_pages(0, 12), vec![]);
    assert_eq!(
        setlist_files(25, 12),
        vec![
            "book-setlist-0.tikz".to_string(),
            "book-setlist-12.tikz".to_string(),
            "book-setlist-24.tikz".to_string()
        ]
    );
}

#[test]
fn set_list_durations() {
    assert_eq!(duration_text(64), " 1'04\"");
    assert_eq!(duration_text(0), " 0'00\"");
    assert_eq!(duration_text(754), "12'34\"");
    assert_eq!(duration_text(6000), "100'00\"");
    assert_eq!(
        setlist_times(&vec![64, 60]),
        vec![
            (" 1'04\"".to_string(), " 1'04\"".to_string()),
            (" 1'00\"".to_string(), " 2'04\"".to_string())
        ]
    );
}

#[test]
fn test_get_children() {
    assert_eq!(children_file(1234), "/proc/1234/task/1234/children");
    let text = "2120 4493 9404 ";
    assert!(children_text_ok(text));
    let children = children_of_text(text);
    assert_eq!(children, vec![2120, 4493, 9404]);
    assert!(children.iter().any(|x| *x == 4493));
    assert_eq!(children_of_text(""), Vec::<u32>::new());
    assert!(!children_text_ok("12 x3"));
}

#[test]
fn test_get_descendents() {
    // a process tree: 1 -> [2, 3], 2 -> [4], 3 -> [], 4 -> []
    let children_of = |p: u32| -> Vec<u32> {
        match p {
            1 => vec![2, 3],
            2 => vec![4],
            _ => vec![],
        }
    };
    let mut walk = Descendents::new(children_of(1));
    while let Some(p) = walk.next() {
        walk.add_children(children_of(p));
    }
    let found = walk.found().clone();
    assert_eq!(found, vec![3, 2, 4]);
    for pid in [2, 3, 4] {
        assert!(found.iter().any(|x| *x == pid));
    }
}

#[test]
fn decimal_numbers() {
    assert_eq!(decimal(0), "0");
    assert_eq!(decimal(1234), "1234");
    assert_eq!(decimal(u64::MAX), "18446744073709551615");
    assert_eq!(parse_u32("+12"), Some(12));
    assert_eq!(parse_u32("4294967295"), Some(u32::MAX));
    assert_eq!(parse_u32("4294967296"), None);
    assert_eq!(parse_u32(""), None);
    assert_eq!(parse_u32("+"), None);
    assert_eq!(parse_u32("-1"), None);
    assert_eq!(parse_u32("1 "), None);
}

#[test]
fn command_line() {
    assert_eq!(usage("sb"), "usage : sb <srcdir> <bookdir> <builddir>");
    let args: Vec<String> = ["sb", "s", "b", "o"].iter().map(|x| x.to_string()).collect();
    assert_eq!(
        dirs_of_args(&args),
        Some(("s".to_string(), "b".to_string(), "o".to_string()))
    );
    assert_eq!(dirs_of_args(&args[..3].to_vec()), None);
    f();
}

#[test]
fn omakeroot_markers() {
    assert_eq!(
        omakeroot_text("src=@@@SONGS_DIR@@@ out=@@@BUILD_DIR@@@ @@@SONGS_DIR@@@", "/s", "/b"),
        "src=/s out=/b /s"
    );
}

#[test]
fn book_rebuild_follows_its_songs() {
    let w = world(vec![
        song("Ann", "One", "/s/Ann/One"),
        song("Bob", "Two", "/s/Bob/Two"),
    ]);
    let book = Book {
        title: "Set".to_string(),
        songs: vec![
            BookSong {
                author: "Bob".to_string(),
                title: "Two".to_string(),
                pdfname: "".to_string(),
                path: "".to_string(),
            },
            BookSong {
                author: "Ann".to_string(),
                title: "One".to_string(),
                pdfname: "".to_string(),
                path: "".to_string(),
            },
        ],
        builddir: "".to_string(),
        pdfname: "".to_string(),
        lyrics_only: false,
        cover_image: false,
    };
    assert_eq!(index_of_booksong(&w, &book.songs[0]), Some(1));
    assert_eq!(needs_rebuild_book_ok(&w, &book, &vec![false, false]), Ok(false));
    assert_eq!(needs_rebuild_book_ok(&w, &book, &vec![true, false]), Ok(true));
    let mut missing = book.clone();
    missing.songs[1].title = "Three".to_string();
    assert_eq!(
        needs_rebuild_book_ok(&w, &missing, &vec![false, false]),
        Err(ModelError::MissingSong("Ann".to_string(), "Three".to_string()))
    );
    // the first song that needs a rebuild decides before a missing one
    assert_eq!(needs_rebuild_book_ok(&w, &missing, &vec![false, true]), Ok(true));
}

#[test]
fn latest_build_output() {
    let names = vec![
        "omake.2024-01-02.stdout".to_string(),
        "omake.2024-01-02.stderr".to_string(),
        "notes.txt".to_string(),
        "omake.2024-01-10.stdout".to_string(),
        "omake.2024-01-09.stdout".to_string(),
    ];
    assert_eq!(
        latest_omake_output(&names),
        Some(("omake.2024-01-10.stdout".to_string(), "omake.2024-01-10.stderr".to_string()))
    );
    assert_eq!(latest_omake_output(&vec!["notes.txt".to_string()]), None);
    assert_eq!(stderr_name(&"stdout.omake.x.stdout".to_string()), "stdout.omake.x.stderr");
    assert_eq!(
        omake_output_or_none(None),
        ("no build yet".to_string(), "".to_string())
    );
    assert_eq!(
        omake_output_or_none(Some(("o".to_string(), "e".to_string()))),
        ("o".to_string(), "e".to_string())
    );
}

#[test]
fn bootstrap_outcomes() {
    assert_eq!(bootstrap_outcome("a", "a", "t".to_string()), BuildType::Rebuilt("t".to_string()));
    assert_eq!(bootstrap_outcome("", "b", "t".to_string()), BuildType::NotTouched("t".to_string()));
}
