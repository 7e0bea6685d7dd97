use sha2::{Digest, Sha256};
use songbook::digest::{
    compute_digest, digest_file_of_target_file, digest_has_changed, write_digest, DigestError,
};
use songbook::model::types::{Chords, Song, StructureItem, StructureItemContent, TimeSignature};
use songbook::rebuild::{
    __vec_are_equal, compute_digest_ok, delivery_pdf_of_song, mount_from_data, mount_from_file,
    needs_rebuild_ok, needs_rerun, pathbuf_ok_checksum, song_source_files,
};

fn sha_hex(data: &[u8]) -> String {
    hex::encode(Sha256::digest(data))
}

#[test]
fn digest_of_abc() {
    let d = compute_digest(&b"abc".to_vec(), &vec![]);
    assert_eq!(
        d,
        "ba7816bf8f01cfea414140de5dae2223b00361a396177a9cb410ff61f20015ad"
    );
}

#[test]
fn digest_of_target_then_deps() {
    let d = compute_digest(&b"ab".to_vec(), &vec![b"c".to_vec(), b"".to_vec()]);
    assert_eq!(d, compute_digest(&b"abc".to_vec(), &vec![]));
    assert_ne!(d, compute_digest(&b"ab".to_vec(), &vec![]));
}

#[test]
fn digest_file_next_to_target() {
    assert_eq!(
        digest_file_of_target_file("/a/b/c.pdf"),
        Ok("/a/b/digest/c.pdf".to_string())
    );
    assert_eq!(
        digest_file_of_target_file("c.pdf"),
        Ok("digest/c.pdf".to_string())
    );
    assert_eq!(digest_file_of_target_file("/"), Err(DigestError::NoParent));
    assert_eq!(digest_file_of_target_file(""), Err(DigestError::NoParent));
    assert_eq!(digest_file_of_target_file("a/.."), Err(DigestError::NoFileName));
}

#[test]
fn recorded_digest_means_unchanged() {
    let target = b"pdf bytes".to_vec();
    let deps = vec![b"dep one".to_vec(), b"dep two".to_vec()];
    let rec = write_digest("/b/x.pdf", &target, &deps).unwrap();
    assert_eq!(rec.file, "/b/digest/x.pdf");
    assert_eq!(rec.dir, "/b/digest");
    assert_eq!(
        digest_has_changed("/b/x.pdf", Some(rec.digest.clone()), &target, &deps),
        Ok(false)
    );
    assert_eq!(digest_has_changed("/b/x.pdf", None, &target, &deps), Ok(true));
    assert_eq!(
        digest_has_changed("/b/x.pdf", Some(rec.digest.clone()), &target, &vec![]),
        Ok(true)
    );
    assert_eq!(
        digest_has_changed("/", Some(rec.digest), &target, &deps),
        Err(DigestError::NoParent)
    );
    assert!(write_digest("a/..", &target, &deps).is_err());
}

#[test]
fn mounting_writes_only_changes() {
    let data = b"hello".to_vec();
    assert_eq!(mount_from_data(&data, None), 1);
    assert_eq!(mount_from_data(&data, Some(b"hullo".to_vec())), 1);
    assert_eq!(mount_from_data(&data, Some(data.clone())), 0);
    let text = "body".to_string();
    assert_eq!(mount_from_file(&text, None), 1);
    assert_eq!(mount_from_file(&text, Some("bod".to_string())), 1);
    assert_eq!(mount_from_file(&text, Some(text.clone())), 0);
}

#[test]
fn vectors_compared_item_by_item() {
    assert!(__vec_are_equal(vec![1, 2, 3], vec![1, 2, 3]));
    assert!(!__vec_are_equal(vec![1, 2, 3], vec![1, 2]));
    assert!(!__vec_are_equal(vec![1, 2, 3], vec![1, 5, 3]));
    assert!(__vec_are_equal::<u8>(vec![], vec![]));
}

#[test]
fn lualatex_rerun_detection() {
    assert!(needs_rerun(
        "LaTeX Warning: Label(s) may have changed. Rerun to get cross-references right."
    ));
    assert!(!needs_rerun("Output written on main.pdf"));
    assert!(!needs_rerun(""));
    assert!(!needs_rerun("Rerun to ge"));
}

fn song() -> Song {
    Song {
        title: "Tune".to_string(),
        author: "Ann".to_string(),
        tempo: 100,
        time_signature: TimeSignature { top: 4, low: 4 },
        pdfname: "ann--@--tune".to_string(),
        texfiles: vec!["t.tex".to_string()],
        builddir: "/build/songs/Ann/Tune".to_string(),
        lilypondfiles: vec!["a.ly".to_string()],
        wavfiles: vec![],
        date: "".to_string(),
        structure: vec![StructureItem {
            item: StructureItemContent::ItemChords(Chords {
                section_title: "".to_string(),
                section_id: "verse".to_string(),
                section_type: "verse".to_string(),
                section_body: "".to_string(),
                row_start_bar_number: 1,
                nb_bars: 0,
                rows: vec![],
            }),
        }],
        srcdir: "/songs/Ann/Tune".to_string(),
    }
}

#[test]
fn sources_of_a_song_in_digest_order() {
    assert_eq!(
        song_source_files(&song()),
        vec![
            "/songs/Ann/Tune/lyrics/verse.tex".to_string(),
            "/songs/Ann/Tune/song.json".to_string(),
            "/songs/Ann/Tune/body.tex".to_string(),
            "/songs/Ann/Tune/add.tikz".to_string(),
            "/songs/Ann/Tune/t.tex".to_string(),
            "/songs/Ann/Tune/a.ly".to_string(),
        ]
    );
    assert_eq!(
        pathbuf_ok_checksum(&song()),
        "/build/songs/Ann/Tune/.checksum_ok"
    );
    assert_eq!(
        delivery_pdf_of_song(&"/build".to_string(), &song()),
        "/build/delivery/ann--@--tune.pdf"
    );
}

#[test]
fn digest_of_a_built_song() {
    let json = b"{\"title\":\"Tune\"}".to_vec();
    let sources = vec![b"la la".to_vec(), b"\\body".to_vec()];
    let pdf = b"%PDF".to_vec();
    let inner = sha_hex(b"{\"title\":\"Tune\"}la la\\body");
    let mut outer = inner.into_bytes();
    outer.extend_from_slice(b"%PDF");
    assert_eq!(compute_digest_ok(&json, &sources, &pdf), sha_hex(&outer));
}

#[test]
fn rebuild_unless_recorded_digest_matches() {
    let a = Some("abc".to_string());
    assert!(!needs_rebuild_ok(&a, &a));
    assert!(needs_rebuild_ok(&a, &Some("abd".to_string())));
    assert!(needs_rebuild_ok(&None, &a));
    assert!(needs_rebuild_ok(&a, &None));
}
