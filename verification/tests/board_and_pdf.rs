use songbook::board::{Board, ELogType, Job, LineKind, LogItem, LogItemBook, LogItemSong};
use songbook::model::types::{Book, Song, TimeSignature, World};
use songbook::error::ModelError;
use songbook::pdf_build::{after_lualatex, LatexNext, PdfAction, PdfBuild, PdfEvent, PdfJob, PdfOrder, PdfPhase};

fn song(author: &str, title: &str) -> Song {
    Song {
        title: title.to_string(),
        author: author.to_string(),
        tempo: 100,
        time_signature: TimeSignature { top: 4, low: 4 },
        pdfname: "".to_string(),
        texfiles: vec![],
        builddir: "".to_string(),
        lilypondfiles: vec![],
        wavfiles: vec![],
        date: "".to_string(),
        structure: vec![],
        srcdir: "".to_string(),
    }
}

fn book(title: &str) -> Book {
    Book {
        title: title.to_string(),
        songs: vec![],
        builddir: "".to_string(),
        pdfname: "".to_string(),
        lyrics_only: false,
        cover_image: false,
    }
}

fn world() -> World {
    World {
        builddir: "/build".to_string(),
        songdir: "/songs".to_string(),
        bookdir: "/books".to_string(),
        songs: vec![song("A", "1"), song("B", "2"), song("C", "3")],
        books: vec![book("Set"), book("Other")],
        sections: vec![],
        broken_songs: vec![],
        broken_books: vec![],
    }
}

fn song_item(a: &str, t: &str, status: ELogType) -> LogItem {
    LogItem::Song(LogItemSong {
        author: a.to_string(),
        title: t.to_string(),
        status,
    })
}

#[test]
fn board_runs_songs_then_books() {
    let w = world();
    let mut b = Board::reset(&w);
    assert_eq!(b.pending.len(), 5);
    assert!(b.pending.contains("BOOK", "Set"));
    // two workers: the first two songs start
    assert_eq!(b.rebuild(&w, 2), vec![Job::Song(0), Job::Song(1)]);
    assert_eq!(b.started.len(), 2);
    assert_eq!(b.pending.len(), 3);
    // no free worker
    assert_eq!(b.rebuild(&w, 2), vec![]);
    b.handle_item(&song_item("A", "1", ELogType::Started));
    assert_eq!(b.started.len(), 2);
    b.handle_item(&song_item("A", "1", ELogType::Success));
    b.handle_item(&song_item("B", "2", ELogType::Failed));
    assert!(b.success.contains("A", "1"));
    assert!(b.failure.contains("B", "2"));
    assert_eq!(b.started.len(), 0);
    // the last song, and no book while a song is about to start
    assert_eq!(b.rebuild(&w, 2), vec![Job::Song(2)]);
    b.handle_item(&song_item("C", "3", ELogType::NoNeedFailed));
    assert!(b.success.contains("C", "3"));
    // books once no song is waiting or running
    assert_eq!(b.rebuild(&w, 1), vec![Job::Book(0)]);
    b.handle_item(&LogItem::Book(LogItemBook {
        title: "Set".to_string(),
        status: ELogType::Success,
    }));
    assert!(b.success.contains("BOOK", "Set"));
    // a built book still counts as running, so no other book starts
    assert_eq!(b.rebuild(&w, 3), vec![]);
}

#[test]
fn board_lines_and_counts() {
    let w = world();
    let mut b = Board::reset(&w);
    let _ = b.rebuild(&w, 1);
    b.handle_item(&song_item("B", "2", ELogType::Failed));
    assert_eq!(b.song_line(&w.songs[0]), Some(LineKind::Started));
    assert_eq!(b.song_line(&w.songs[1]), Some(LineKind::Failure));
    assert_eq!(b.song_line(&w.songs[2]), Some(LineKind::Pending));
    assert_eq!(b.book_line(&w.books[0]), Some(LineKind::Waiting));
    b.handle_item(&song_item("A", "1", ELogType::Success));
    assert_eq!(b.song_line(&w.songs[0]), None);
    let c = b.counts(&w.songs, &w.books);
    assert_eq!((c.ok, c.errors, c.started, c.pending), (1, 1, 0, 1));
}

#[test]
fn pdf_of_a_song() {
    let (mut p, a) = PdfBuild::song(1);
    assert_eq!(a, PdfAction::RunLilypond(0));
    assert_eq!(p.step(PdfEvent::LilypondDone(true)), PdfAction::RunLualatex(1));
    assert_eq!(p.step(PdfEvent::LualatexDone(true, true)), PdfAction::RunLualatex(2));
    assert_eq!(p.step(PdfEvent::LualatexDone(true, false)), PdfAction::RunPs2pdf);
    assert_eq!(p.step(PdfEvent::Ps2pdfDone(true)), PdfAction::Finish(true));
    assert_eq!(p.phase, PdfPhase::Done);
}

#[test]
fn pdf_of_a_song_with_failed_snippet() {
    let (mut p, _) = PdfBuild::song(2);
    assert_eq!(p.step(PdfEvent::LilypondDone(false)), PdfAction::RunLilypond(1));
    assert_eq!(p.step(PdfEvent::LilypondDone(true)), PdfAction::RunPs2pdf);
    assert_eq!(p.step(PdfEvent::Ps2pdfDone(true)), PdfAction::Finish(false));
}

#[test]
fn pdf_of_a_book_with_failed_lualatex() {
    let (mut p, a) = PdfBuild::book();
    assert_eq!(a, PdfAction::RunLualatex(1));
    assert_eq!(p.step(PdfEvent::LualatexDone(false, true)), PdfAction::Finish(false));
    let (mut q, _) = PdfBuild::song(0);
    assert_eq!(q.step(PdfEvent::LualatexDone(false, false)), PdfAction::RunPs2pdf);
    assert_eq!(q.step(PdfEvent::Ps2pdfDone(true)), PdfAction::Finish(false));
}

#[test]
fn lualatex_runs_at_most_three_times() {
    assert_eq!(after_lualatex(1, false, true), LatexNext::Failed);
    assert_eq!(after_lualatex(1, true, false), LatexNext::Done);
    assert_eq!(after_lualatex(1, true, true), LatexNext::Again(2));
    assert_eq!(after_lualatex(2, true, true), LatexNext::Again(3));
    assert_eq!(after_lualatex(3, true, true), LatexNext::Failed);
    assert_eq!(after_lualatex(3, true, false), LatexNext::Done);
}

#[test]
fn board_lists_summary_then_songs_then_books() {
    let w = world();
    let mut b = Board::reset(&w);
    let _ = b.rebuild(&w, 1);
    b.handle_item(&song_item("A", "1", ELogType::Success));
    b.handle_item(&song_item("B", "2", ELogType::Failed));
    let lines = b.logs_done(&w.songs, &w.books);
    assert_eq!(lines[0], "1 Ok, 1 Failures, 0 Started, 1 Pending ");
    assert_eq!(lines[1], "\u{2728}  B @ 2");
    assert_eq!(lines[2], "\u{1f43b} C @ 3");
    assert_eq!(lines.len(), 2 + 1 + w.books.len());
    assert!(lines.iter().any(|l| l.ends_with(" BOOK @ Set")));
}

#[test]
fn song_pdf_reports() {
    // not forced, not needed: one report, nothing else
    let (job, orders) = PdfJob::song(vec!["solo.ly".to_string()], false, false);
    assert_eq!(orders, vec![PdfOrder::Report(ELogType::NoNeedSuccess)]);
    assert_eq!(job.build.phase, PdfPhase::Done);
    // forced: started first, then the snippet
    let (mut job, orders) = PdfJob::song(vec!["solo.ly".to_string()], true, false);
    assert_eq!(
        orders,
        vec![
            PdfOrder::Report(ELogType::Started),
            PdfOrder::Report(ELogType::Lilypond("solo.ly".to_string())),
            PdfOrder::RunLilypond(0),
        ]
    );
    assert_eq!(
        job.step(PdfEvent::LilypondDone(true)),
        vec![PdfOrder::Report(ELogType::Lualatex(1)), PdfOrder::RunLualatex(1)]
    );
    assert_eq!(
        job.step(PdfEvent::LualatexDone(true, false)),
        vec![PdfOrder::Report(ELogType::Ps2pdf), PdfOrder::RunPs2pdf]
    );
    assert_eq!(
        job.step(PdfEvent::Ps2pdfDone(true)),
        vec![PdfOrder::WriteChecksum, PdfOrder::Report(ELogType::Success)]
    );
    // a failed run: no checksum, failure last
    let (mut job, _) = PdfJob::song(vec![], false, true);
    assert_eq!(
        job.step(PdfEvent::LualatexDone(false, false)),
        vec![PdfOrder::Report(ELogType::Ps2pdf), PdfOrder::RunPs2pdf]
    );
    assert_eq!(job.step(PdfEvent::Ps2pdfDone(true)), vec![PdfOrder::Report(ELogType::Failed)]);
}

#[test]
fn book_pdf_reports() {
    assert!(matches!(PdfJob::book(Ok(true)), Ok(None)));
    assert_eq!(
        PdfJob::book(Err(ModelError::MissingSong("a".to_string(), "t".to_string()))).err(),
        Some(ModelError::MissingSong("a".to_string(), "t".to_string()))
    );
    let (mut job, orders) = PdfJob::book(Ok(false)).unwrap().unwrap();
    assert_eq!(
        orders,
        vec![
            PdfOrder::Report(ELogType::Started),
            PdfOrder::Report(ELogType::Lualatex(1)),
            PdfOrder::RunLualatex(1),
        ]
    );
    assert_eq!(job.step(PdfEvent::LualatexDone(false, false)), vec![PdfOrder::Report(ELogType::Failed)]);
}
