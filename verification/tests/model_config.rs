use songbook::model::config::{
    bar_of_string, row_of_string, rows_of_userchordsection, song_of_usersong,
    structure_of_structure,
};
use songbook::model::input_model::{
    UserChordSection, UserRef, UserSong, UserSongFiles, UserSongInfo, UserSongMeta,
    UserStructureItem, UserStructureItemContent,
};
use songbook::model::types::{
    Bar, Chords, Ref, Row, Song, StructureItem, StructureItemContent, TimeSignature,
};

fn bar(c: &[&str]) -> Bar {
    Bar {
        chords: c.iter().map(|s| s.to_string()).collect(),
        time_signature: None,
    }
}

#[test]
fn test1_bar_of_string() {
    let ret = row_of_string(1, "A|B|C|D".to_string());
    assert_eq!(
        ret,
        (
            5,
            Row {
                repeat: 1,
                row_start_bar_number: 1,
                bars: vec![
                    Bar {
                        chords: vec!["A".to_string()],
                        time_signature: None
                    },
                    Bar {
                        chords: vec!["B".to_string()],
                        time_signature: None
                    },
                    Bar {
                        chords: vec!["C".to_string()],
                        time_signature: None
                    },
                    Bar {
                        chords: vec!["D".to_string()],
                        time_signature: None
                    },
                ]
            }
        )
    );
}

#[test]
fn test2_vec() {
    let ret = rows_of_userchordsection(
        5,
        &UserChordSection {
            section_title: "".to_string(),
            section_type: "".to_string(),
            section_body: None,
            rows: vec![
                "A|B|C|D".to_string(),
                "Gf".to_string(),
                "C|D|C|D".to_string(),
            ],
        },
    );
    assert_eq!(
        ret,
        (
            14,
            vec![
                Row {
                    repeat: 1,
                    row_start_bar_number: 5,
                    bars: vec![bar(&["A"]), bar(&["B"]), bar(&["C"]), bar(&["D"])]
                },
                Row {
                    repeat: 1,
                    row_start_bar_number: 9,
                    bars: vec![bar(&["Gf"])]
                },
                Row {
                    repeat: 1,
                    row_start_bar_number: 10,
                    bars: vec![bar(&["C"]), bar(&["D"]), bar(&["C"]), bar(&["D"])]
                }
            ]
        )
    );
}

#[test]
fn test_3() {
    let u = UserStructureItem {
        item: UserStructureItemContent::Chords(UserChordSection {
            section_title: "".to_string(),
            section_type: "".to_string(),
            section_body: None,
            rows: vec![
                "Af Bfm7 | E E ".to_string(),
                "B".to_string(),
                "C|D".to_string(),
            ],
        }),
        id: "".to_string(),
    };
    let expected = StructureItem {
        item: StructureItemContent::ItemChords(Chords {
            section_title: "".to_string(),
            section_id: "".to_string(),
            section_type: "".to_string(),
            section_body: "".to_string(),
            row_start_bar_number: 10,
            nb_bars: 5,
            rows: vec![
                Row {
                    repeat: 1,
                    row_start_bar_number: 10,
                    bars: vec![bar(&["Af", "Bfmsept"]), bar(&["E", "E"])],
                },
                Row {
                    repeat: 1,
                    row_start_bar_number: 12,
                    bars: vec![bar(&["B"])],
                },
                Row {
                    repeat: 1,
                    row_start_bar_number: 13,
                    bars: vec![bar(&["C"]), bar(&["D"])],
                },
            ],
        }),
    };
    assert_eq!((15, expected), structure_of_structure(10, &vec![], &u));
}

fn user_ref(link: &str) -> UserStructureItem {
    UserStructureItem {
        item: UserStructureItemContent::Ref(UserRef {
            section_title: "".to_string(),
            link: link.to_string(),
            section_body: None,
            section_type: None,
        }),
        id: "".to_string(),
    }
}

#[test]
fn test_4() {
    let input = UserSong {
        info: UserSongInfo {
            tempo: 80,
            time_signature: None,
            title: "".to_string(),
            author: "".to_string(),
        },
        meta: UserSongMeta {
            date: "".to_string(),
        },
        files: UserSongFiles {
            tex: vec![],
            lilypond: vec![],
            wav: vec![],
        },
        structure: vec![
            UserStructureItem {
                item: UserStructureItemContent::Chords(UserChordSection {
                    section_title: "".to_string(),
                    section_type: "".to_string(),
                    section_body: None,
                    rows: vec![
                        "A|B|C|time_signature(2/4)D|x3".to_string(),
                        "E|F|G|A".to_string(),
                    ],
                }),
                id: "blahblah".to_string(),
            },
            user_ref("blahblah"),
            user_ref("blahblah"),
        ],
    };
    let output = song_of_usersong(input, "/blah/x.json".to_string(), String::new()).unwrap();
    let reference = |start: u32| StructureItem {
        item: StructureItemContent::ItemRef(Ref {
            section_title: "".to_string(),
            section_id: "".to_string(),
            section_type: "".to_string(),
            section_body: "".to_string(),
            row_start_bar_number: start,
            nb_bars: 16,
        }),
    };
    let expected = Song {
        srcdir: "/blah".to_string(),
        title: "".to_string(),
        author: "".to_string(),
        tempo: 80,
        time_signature: TimeSignature { top: 4, low: 4 },
        pdfname: "--@--".to_string(),
        texfiles: vec![],
        builddir: Default::default(),
        lilypondfiles: vec![],
        wavfiles: vec![],
        date: "".to_string(),
        structure: vec![
            StructureItem {
                item: StructureItemContent::ItemChords(Chords {
                    section_title: "".to_string(),
                    section_id: "blahblah".to_string(),
                    section_type: "".to_string(),
                    section_body: "".to_string(),
                    row_start_bar_number: 1,
                    nb_bars: 16,
                    rows: vec![
                        Row {
                            repeat: 3,
                            row_start_bar_number: 1,
                            bars: vec![
                                bar(&["A"]),
                                bar(&["B"]),
                                bar(&["C"]),
                                Bar {
                                    chords: vec!["D".to_string()],
                                    time_signature: Some(TimeSignature { top: 2, low: 4 }),
                                },
                            ],
                        },
                        Row {
                            repeat: 1,
                            row_start_bar_number: 13,
                            bars: vec![bar(&["E"]), bar(&["F"]), bar(&["G"]), bar(&["A"])],
                        },
                    ],
                }),
            },
            reference(17),
            reference(33),
        ],
    };
    assert_eq!(expected.structure.get(0), output.structure.get(0));
    assert_eq!(expected.structure.get(1), output.structure.get(1));
    assert_eq!(expected.structure.get(2), output.structure.get(2));
    assert_eq!(expected.structure.get(3), output.structure.get(3));
    assert_eq!(expected, output);
}

#[test]
fn test_5() {
    let x = "E".to_string();
    let expected = Bar {
        chords: vec!["E".to_string()],
        time_signature: None,
    };
    let result = bar_of_string(x).unwrap();
    assert_eq!(expected, result);

    let x = "{latex \\tiny{uu}}".to_string();
    let expected = Bar {
        chords: vec!["\\tiny{uu}".to_string()],
        time_signature: None,
    };
    let result = bar_of_string(x).unwrap();
    assert_eq!(expected, result);
}

#[test]
fn test_6() {
    let x = "time_signature(2/4)E".to_string();
    let expected = Bar {
        chords: vec!["E".to_string()],
        time_signature: Some(TimeSignature { top: 2, low: 4 }),
    };
    let result = bar_of_string(x).unwrap();
    assert_eq!(expected, result);

    let x = "time_signature(3/4) {latex \\tiny{uu}}".to_string();
    let expected = Bar {
        chords: vec!["\\tiny{uu}".to_string()],
        time_signature: Some(TimeSignature { top: 3, low: 4 }),
    };
    let result = bar_of_string(x).unwrap();
    assert_eq!(expected, result);
}
