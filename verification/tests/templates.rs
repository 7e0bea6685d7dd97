use songbook::config::model::{Book, BookSong, Song, World};
use songbook::makefiles::root_omakefile_text;
use songbook::template_helpers::{add_values, join_text, repeat_text, simple_text};

#[test]
fn template_helpers_compute() {
    assert_eq!(simple_text("x"), "1st helper: x");
    assert_eq!(repeat_text("ab", 3), "ababab");
    assert_eq!(repeat_text("ab", 0), "");
    assert_eq!(join_text("c", ", ", 3), "c, c, c");
    assert_eq!(join_text("c", ", ", 1), "c");
    assert_eq!(add_values(&vec![1, 2, -5, 10]), 8);
    assert_eq!(add_values(&vec![]), 0);
}

fn song(dir: &str, pdfname: &str) -> Song {
    Song {
        title: "t".to_string(),
        author: "a".to_string(),
        pdfname: pdfname.to_string(),
        texfiles: vec![],
        builddir: dir.to_string(),
        lilypondfiles: vec![],
        wavfiles: vec![],
        date: "".to_string(),
        structure: vec![],
    }
}

#[test]
fn root_omakefile_lists_distinct_dirs_and_deliveries() {
    let w = World {
        builddir: "/b".to_string(),
        srcdir: "/s".to_string(),
        songs: vec![song("/b/songs/x", "x-pdf"), song("/b/songs/x", "y-pdf")],
        books: vec![Book {
            title: "My Book".to_string(),
            songs: vec![BookSong { author: "a".to_string(), title: "t".to_string() }],
            builddir: "/b/books/My_Book".to_string(),
        }],
        sections: vec![],
    };
    let expected = "# root is /b\n\n.PHONY: all install clean pdf delivery delivery_songs delivery_books clean gdrive\n\ngdrive:\n\tbash $(buildroot)/make_gdrive.sh /zik/songs delivery\n\n.SUBDIRS: \\\n\t/b/songs/x \\\n\t/b/books/My_Book \\\n\n\ndelivery_songs:\\\n\t/b/songs/x/x-pdf.pdf \\\n\t/b/songs/x/y-pdf.pdf \\\n\n\tmkdir -p delivery\n\tcp $^ delivery/.\n\ndelivery_books:\\\n\t/b/books/My_Book/my_book.pdf \\\n\n\tmkdir -p delivery\n\tcp $^ delivery/.\n\ndelivery: delivery_books delivery_songs\n";
    assert_eq!(root_omakefile_text(&w), expected);
}
