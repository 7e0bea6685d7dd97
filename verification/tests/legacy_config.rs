use songbook::config::config::{
    row_of_string, rows_of_userchordsection, song_of_usersong, structure_of_structure,
};
use songbook::config::input_model::{
    UserChordSection, UserRef, UserSong, UserStructureItem, UserStructureItemContent,
};
use songbook::config::model::{Bar, Chords, Ref, Row, Song, StructureItem, StructureItemContent};

fn bar(c: &[&str]) -> Bar {
    Bar {
        chords: c.iter().map(|s| s.to_string()).collect(),
    }
}

#[test]
fn config_test1_bar_of_string() {
    let ret = row_of_string(1, "A|B|C|D".to_string());
    assert_eq!(
        ret,
        (
            5,
            Row {
                bar_number: 1,
                bars: vec![
                    Bar {
                        chords: vec!["A".to_string()]
                    },
                    Bar {
                        chords: vec!["B".to_string()]
                    },
                    Bar {
                        chords: vec!["C".to_string()]
                    },
                    Bar {
                        chords: vec!["D".to_string()]
                    },
                ]
            }
        )
    );
}

#[test]
fn config_test2_vec() {
    let ret = rows_of_userchordsection(
        5,
        &UserChordSection {
            section_title: "".to_string(),
            section_type: "".to_string(),
            rows: vec![
                "A|B|C|D".to_string(),
                "Gf".to_string(),
                "C|D|C|D".to_string(),
            ],
        },
    );
    assert_eq!(
        ret,
        (
            14,
            vec![
                Row {
                    bar_number: 5,
                    bars: vec![bar(&["A"]), bar(&["B"]), bar(&["C"]), bar(&["D"])]
                },
                Row {
                    bar_number: 9,
                    bars: vec![bar(&["Gf"])]
                },
                Row {
                    bar_number: 10,
                    bars: vec![bar(&["C"]), bar(&["D"]), bar(&["C"]), bar(&["D"])]
                }
            ]
        )
    );
}

#[test]
fn config_test_3() {
    let u = UserStructureItem {
        item: UserStructureItemContent::Chords(UserChordSection {
            section_title: "".to_string(),
            section_type: "".to_string(),
            rows: vec!["Af Bfm7 | E E ".to_string(), "B".to_string()],
        }),
        id: "".to_string(),
    };
    let expected = StructureItem {
        item: StructureItemContent::ItemChords(Chords {
            section_title: "".to_string(),
            section_id: "".to_string(),
            section_type: "".to_string(),
            nbcols: 2,
            nbrows: 2,
            bar_number: 10,
            nb_bars: 3,
            rows: vec![
                Row {
                    bar_number: 10,
                    bars: vec![bar(&["Af", "Bfmsept"]), bar(&["E", "E"])],
                },
                Row {
                    bar_number: 12,
                    bars: vec![bar(&["B"])],
                },
            ],
        }),
    };
    assert_eq!((13, expected), structure_of_structure(10, &vec![], &u));
}

fn user_ref(link: &str) -> UserStructureItem {
    UserStructureItem {
        item: UserStructureItemContent::Ref(UserRef {
            section_title: "".to_string(),
            link: link.to_string(),
        }),
        id: "".to_string(),
    }
}

#[test]
fn config_test_4() {
    let input = UserSong {
        title: "".to_string(),
        author: "".to_string(),
        texfiles: vec![],
        lilypondfiles: vec![],
        wavfiles: vec![],
        date: "".to_string(),
        structure: vec![
            UserStructureItem {
                item: UserStructureItemContent::Chords(UserChordSection {
                    section_title: "".to_string(),
                    section_type: "".to_string(),
                    rows: vec!["A|B|C|D".to_string(), "E|F|G|A".to_string()],
                }),
                id: "blahblah".to_string(),
            },
            user_ref("blahblah"),
            user_ref("blahblah"),
        ],
    };
    let output = song_of_usersong(input, String::new()).unwrap();
    let reference = |start: u32| StructureItem {
        item: StructureItemContent::ItemRef(Ref {
            section_title: "".to_string(),
            section_id: "".to_string(),
            section_type: "".to_string(),
            bar_number: start,
            nb_bars: 8,
        }),
    };
    let expected = Song {
        title: "".to_string(),
        author: "".to_string(),
        pdfname: "--@--".to_string(),
        texfiles: vec![],
        builddir: Default::default(),
        lilypondfiles: vec![],
        wavfiles: vec![],
        date: "".to_string(),
        structure: vec![
            StructureItem {
                item: StructureItemContent::ItemChords(Chords {
                    section_title: "".to_string(),
                    section_id: "blahblah".to_string(),
                    section_type: "".to_string(),
                    bar_number: 1,
                    nb_bars: 8,
                    nbcols: 4,
                    nbrows: 2,
                    rows: vec![
                        Row {
                            bar_number: 1,
                            bars: vec![bar(&["A"]), bar(&["B"]), bar(&["C"]), bar(&["D"])],
                        },
                        Row {
                            bar_number: 5,
                            bars: vec![bar(&["E"]), bar(&["F"]), bar(&["G"]), bar(&["A"])],
                        },
                    ],
                }),
            },
            reference(9),
            reference(17),
        ],
    };
    assert_eq!(expected.structure.get(0), output.structure.get(0));
    assert_eq!(expected.structure.get(1), output.structure.get(1));
    assert_eq!(expected.structure.get(2), output.structure.get(2));
    assert_eq!(expected.structure.get(3), output.structure.get(3));
    assert_eq!(expected, output);
}
