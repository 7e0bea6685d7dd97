use songbook::graph::{build_graph, Artefact, BuildGraphError, EArtefact, Route};
use songbook::model::types::{
    Book, BookSong, Chords, HRule, Song, StructureItem, StructureItemContent, TimeSignature,
    World,
};
use songbook::scheduler::{Action, BuildType, NodeState, Scheduler};

fn song(author: &str, title: &str) -> Song {
    Song {
        title: title.to_string(),
        author: author.to_string(),
        tempo: 60,
        time_signature: TimeSignature { top: 4, low: 4 },
        pdfname: format!("{author}--@--{title}"),
        texfiles: vec!["extra.tex".to_string()],
        builddir: format!("/build/songs/{author}/{title}"),
        lilypondfiles: vec!["a.ly".to_string()],
        wavfiles: vec!["w.ly".to_string()],
        date: "2024".to_string(),
        structure: vec![
            StructureItem {
                item: StructureItemContent::ItemChords(Chords {
                    section_title: "Verse".to_string(),
                    section_id: "verse".to_string(),
                    section_type: "verse".to_string(),
                    section_body: "".to_string(),
                    row_start_bar_number: 1,
                    nb_bars: 4,
                    rows: vec![],
                }),
            },
            StructureItem {
                item: StructureItemContent::ItemHRule(HRule { percent: 50 }),
            },
        ],
        srcdir: format!("/songs/{author}/{title}"),
    }
}

fn book(title: &str, songs: &[(&str, &str)]) -> Book {
    Book {
        title: title.to_string(),
        songs: songs
            .iter()
            .map(|(a, t)| BookSong {
                author: a.to_string(),
                title: t.to_string(),
                pdfname: "".to_string(),
                path: "".to_string(),
            })
            .collect(),
        builddir: format!("/build/books/{title}"),
        pdfname: title.to_string(),
        lyrics_only: false,
        cover_image: false,
    }
}

fn world(songs: Vec<Song>, books: Vec<Book>, broken: Vec<(String, String)>) -> World {
    World {
        builddir: "/build".to_string(),
        songdir: "/songs".to_string(),
        bookdir: "/books".to_string(),
        songs,
        books,
        sections: vec![],
        broken_songs: broken,
        broken_books: vec![],
    }
}

fn edges(g: &petgraph::Graph<Artefact, Route>) -> Vec<(usize, usize, String)> {
    g.raw_edges()
        .iter()
        .map(|e| (e.source().index(), e.target().index(), e.weight.0.clone()))
        .collect()
}

fn e(a: usize, b: usize, l: &str) -> (usize, usize, String) {
    (a, b, l.to_string())
}

#[test]
fn graph_of_one_song_one_broken_one_book() {
    let s = song("Ann", "Tune");
    let w = world(
        vec![s.clone()],
        vec![book("Set", &[("Ann", "Tune")])],
        vec![("/songs/bad/song.json".to_string(), "oops".to_string())],
    );
    let g = build_graph(&w).unwrap();
    assert_eq!(g.node_count(), 14);
    let kinds: Vec<EArtefact> = g.node_weights().map(|a| a.kind.clone()).collect();
    assert_eq!(kinds[0], EArtefact::All);
    assert_eq!(kinds[1], EArtefact::BootstrapSong(s.clone()));
    assert_eq!(kinds[2], EArtefact::SongPdf(s.clone()));
    assert_eq!(kinds[3], EArtefact::DeliverySongPdf(s.clone()));
    assert_eq!(kinds[4], EArtefact::MountedFile(s.clone(), "extra.tex".to_string()));
    assert_eq!(kinds[5], EArtefact::MountedFile(s.clone(), "lyrics/verse.tex".to_string()));
    assert_eq!(kinds[6], EArtefact::MountedFile(s.clone(), "a.ly".to_string()));
    assert_eq!(kinds[7], EArtefact::LySnippet(s.clone(), "a.ly".to_string()));
    assert_eq!(kinds[8], EArtefact::Midi(s.clone(), "w.ly".to_string()));
    assert_eq!(kinds[9], EArtefact::Wav(s.clone(), "w.ly".to_string()));
    assert_eq!(kinds[10], EArtefact::Broken("/songs/bad/song.json".to_string()));
    assert!(matches!(kinds[11], EArtefact::BootstrapBook(_)));
    assert!(matches!(kinds[12], EArtefact::BookPdf(_)));
    assert!(matches!(kinds[13], EArtefact::DeliveryBookPdf(_)));
    assert_eq!(
        edges(&g),
        vec![
            e(1, 2, "bootstrap"),
            e(4, 2, "lualatex"),
            e(1, 4, "bootstrap"),
            e(5, 2, "lualatex"),
            e(6, 7, "lilypond-book"),
            e(7, 2, "lualatex"),
            e(1, 6, "bootstrap"),
            e(1, 8, "midi"),
            e(8, 9, "wav"),
            e(9, 0, "all"),
            e(1, 2, "delivery"),
            e(2, 3, "delivery"),
            e(3, 0, "all"),
            e(10, 0, "all"),
            e(11, 12, "lualatex"),
            e(12, 13, "delivery"),
            e(13, 0, "all"),
            e(3, 12, "book depends on song"),
        ]
    );
}

#[test]
fn graph_of_empty_world_is_all() {
    let g = build_graph(&world(vec![], vec![], vec![])).unwrap();
    assert_eq!(g.node_count(), 1);
    assert_eq!(g.edge_count(), 0);
}

#[test]
fn book_uses_last_song_with_same_name() {
    let mut s2 = song("Ann", "Tune");
    s2.texfiles = vec![];
    s2.lilypondfiles = vec![];
    s2.wavfiles = vec![];
    s2.structure = vec![];
    let w = world(
        vec![song("Ann", "Tune"), s2],
        vec![book("Set", &[("Ann", "Tune")])],
        vec![],
    );
    let g = build_graph(&w).unwrap();
    // first block: 9 nodes from 1; second block: 3 nodes from 10
    assert_eq!(g.node_count(), 1 + 9 + 3 + 3);
    let last = edges(&g).last().cloned().unwrap();
    assert_eq!(last, e(12, 14, "book depends on song"));
}

#[test]
fn graph_refuses_missing_song() {
    let w = world(
        vec![song("Ann", "Tune")],
        vec![book("Set", &[("Ann", "Tune"), ("Bob", "Other"), ("Cid", "X")])],
        vec![],
    );
    match build_graph(&w) {
        Err(BuildGraphError::MissingSong(a, t)) => {
            assert_eq!(a, "Bob");
            assert_eq!(t, "Other");
        }
        _ => panic!("expected a missing song"),
    }
}

#[test]
fn artefact_labels() {
    let s = song("Ann", "Tune");
    assert_eq!(
        EArtefact::MountedFile(s.clone(), "x.tex".to_string()).label(),
        "MountedFile Ann @ Tune ; x.tex"
    );
    assert_eq!(EArtefact::All.label(), "All");
    assert_eq!(
        Artefact::new_midi(s.clone(), "m.ly".to_string()).kind.label(),
        "Midi(Ann @ Tune ; m.ly)"
    );
    assert_eq!(
        EArtefact::BootstrapBook(book("Set", &[])).label(),
        "Boostrap book Set (lyrics only: false)"
    );
}

#[test]
fn scheduler_first_passes() {
    let w = world(
        vec![song("Ann", "Tune")],
        vec![book("Set", &[("Ann", "Tune")])],
        vec![("/songs/bad/song.json".to_string(), "oops".to_string())],
    );
    let g = build_graph(&w).unwrap();
    let mut s = Scheduler::new(&g, 2);
    assert_eq!(s.nb_nodes(), 14);
    assert_eq!(s.state_of(10), NodeState::Failed);
    assert_eq!(s.state_of(0), NodeState::Pending);
    assert!(s.counts_agree());
    assert!(!s.finished());

    let actions = s.schedule();
    assert_eq!(
        actions,
        vec![
            Action::AnnounceAncestorFailed(0),
            Action::Start(1, vec![]),
            Action::Start(5, vec![]),
        ]
    );
    assert_eq!(s.state_of(0), NodeState::Announced);
    assert!(!s.counts_agree());
    // nothing more starts while both workers are busy
    assert_eq!(s.schedule(), vec![]);

    s.receive(0, BuildType::AncestorFailed);
    assert!(s.counts_agree());
    s.receive(1, BuildType::Rebuilt("/build/b1".to_string()));
    assert_eq!(s.state_of(1), NodeState::Rebuilt);
    let actions = s.schedule();
    assert_eq!(actions, vec![Action::Start(4, vec!["/build/b1".to_string()])]);
    assert_eq!(s.state_of(4), NodeState::Running);
}

#[test]
fn scheduler_gives_up_after_failure() {
    let w = world(vec![song("Ann", "Tune")], vec![], vec![]);
    let g = build_graph(&w).unwrap();
    let mut s = Scheduler::new(&g, 4);
    // the bootstrap, and the lyrics file, which depends on nothing
    assert_eq!(s.schedule(), vec![Action::Start(1, vec![]), Action::Start(5, vec![])]);
    s.receive(1, BuildType::Failed);
    // every node that depends on the bootstrap directly is given up
    let actions = s.schedule();
    assert_eq!(
        actions,
        vec![
            Action::AnnounceAncestorFailed(2),
            Action::AnnounceAncestorFailed(4),
            Action::AnnounceAncestorFailed(6),
            Action::AnnounceAncestorFailed(8),
        ]
    );
    for n in [2, 4, 6, 8] {
        s.receive(n, BuildType::AncestorFailed);
    }
    assert!(s.counts_agree());
}

#[test]
fn scheduler_with_no_worker_starts_nothing() {
    let g = build_graph(&world(vec![song("Ann", "Tune")], vec![], vec![])).unwrap();
    let mut s = Scheduler::new(&g, 0);
    assert_eq!(s.schedule(), vec![]);
}

#[test]
fn scheduler_finishes() {
    let g = build_graph(&world(vec![], vec![], vec![])).unwrap();
    let mut s = Scheduler::new(&g, 1);
    assert_eq!(s.schedule(), vec![Action::Start(0, vec![])]);
    s.receive(0, BuildType::NotTouched("/build/all".to_string()));
    assert!(s.finished());
    assert_eq!(s.state_of(0), NodeState::Skipped);
}
