use songbook::progress::{capture_line, entries_comparable, progress_of_string};
use songbook::protocol::answer::{EChoice, ProgressItem};
use songbook::server::{handle_get_omake_progress, MyError};

fn item(status: &str, topic: &str, message: &str, start: i64, end: Option<i64>) -> ProgressItem {
    ProgressItem {
        status: status.to_string(),
        topic: topic.to_string(),
        message: message.to_string(),
        start_date: start,
        end_date: end,
    }
}

#[test]
fn captures_of_a_line() {
    assert_eq!(
        capture_line("[START][pdf][song a][2024-01-01 10:00:00]"),
        Some((
            "START".to_string(),
            "pdf".to_string(),
            "song a".to_string(),
            "2024-01-01 10:00:00".to_string()
        ))
    );
    // each group takes as much as it can: the last one runs to the last ']'
    assert_eq!(
        capture_line("x [s][t][m][d] [extra]"),
        Some((
            "s".to_string(),
            "t".to_string(),
            "m".to_string(),
            "d] [extra".to_string()
        ))
    );
    assert_eq!(capture_line("[s][t][m]"), None);
    assert_eq!(capture_line(""), None);
}

#[test]
fn progress_keeps_last_status_and_sorts() {
    let data = "[START][pdf][song a][2024-01-01 10:00:00]\n\
                [START][pdf][song b][2024-01-01 09:00:00]\n\
                noise\n\
                [SUCCESS][pdf][song a][2024-01-01 10:05:00]\n\
                [START][lily][x][2024-01-01 11:00:00]";
    assert!(entries_comparable(data));
    let p = progress_of_string(data).unwrap();
    assert_eq!(
        p.progress,
        vec![
            item("START", "lily", "x", 1704106800, None),
            item("START", "pdf", "song b", 1704099600, None),
            item("SUCCESS", "pdf", "song a", 1704103200, Some(1704103500)),
        ]
    );
}

#[test]
fn progress_refuses_bad_date() {
    assert_eq!(
        progress_of_string("[a][b][c][not a date]"),
        Err("cannot parse date 'not a date'".to_string())
    );
    assert_eq!(
        handle_get_omake_progress("[a][b][c][2024-13-01 00:00:00]"),
        Err(MyError::MessageError(
            "cannot parse date '2024-13-01 00:00:00'".to_string()
        ))
    );
}

#[test]
fn omake_progress_answer() {
    match handle_get_omake_progress("") {
        Ok(EChoice::ItemSeeProgress(p)) => assert!(p.progress.is_empty()),
        _ => panic!("unexpected answer"),
    }
    assert!(!entries_comparable("[a][b12345678901][c][d]"));
}
