//! Naming helpers: file-system-safe names for pdf files, and the lookup of
//! a book's songs in the world.
use vstd::prelude::*;
use crate::error::{ModelError, ModelErrorV};
use crate::model::types::{Book, BookSong, Song, SongV, World};
use crate::text::{
    is_upper, lemma_lower_concat, lemma_lower_identity, lemma_lower_no_upper, lemma_replace_char_absent,
    lemma_replace_char_concat, lemma_replace_char_keeps, lower_spec, replace_all, replace_spec, str_eq, to_ascii_lower,
};

verus! {

/// A name that is safe as a file name: lower case (ASCII), and each of
/// ' ', '/', '.', ')', '(', '\'' replaced by '_'.
pub open spec fn normalize_spec(s: Seq<char>) -> Seq<char> {
    replace_spec(
        replace_spec(
            replace_spec(
                replace_spec(
                    replace_spec(replace_spec(lower_spec(s), " "@, "_"@), "/"@, "_"@),
                    "."@,
                    "_"@,
                ),
                ")"@,
                "_"@,
            ),
            "("@,
            "_"@,
        ),
        "'"@,
        "_"@,
    )
}

/// Lower-cases `input` and replaces ' ', '/', '.', ')', '(' and '\'' by '_'.
pub fn normalize_name(input: String) -> (r: String)
    ensures
        r@ == normalize_spec(input@),
{
    proof {
        reveal_strlit(" ");
        reveal_strlit("/");
        reveal_strlit(".");
        reveal_strlit(")");
        reveal_strlit("(");
        reveal_strlit("'");
    }
    let output = to_ascii_lower(input.as_str());
    let output = replace_all(output.as_str(), " ", "_");
    let output = replace_all(output.as_str(), "/", "_");
    let output = replace_all(output.as_str(), ".", "_");
    let output = replace_all(output.as_str(), ")", "_");
    let output = replace_all(output.as_str(), "(", "_");
    replace_all(output.as_str(), "'", "_")
}

/// The pdf name of a song: the normalized "author--@--title".
pub open spec fn pdf_name_spec(author: Seq<char>, title: Seq<char>) -> Seq<char> {
    normalize_spec(author + "--@--"@ + title)
}

/// The pdf name of a song by `author` titled `title`.
pub fn normalize_pdf_name(author: &String, title: &String) -> (r: String)
    ensures
        r@ == pdf_name_spec(author@, title@),
{
    let s = author.clone().concat("--@--").concat(title.as_str());
    normalize_name(s)
}

/// The pdf name of a book: its normalized title.
pub fn pdfname_of_book(book: &Book) -> (r: String)
    ensures
        r@ == normalize_spec(book.title@),
{
    normalize_name(book.title.clone())
}

/// The index of the first song of `songs` by `author` titled `title`.
pub open spec fn find_song(songs: Seq<Song>, author: Seq<char>, title: Seq<char>, i: int) -> Option<int>
    decreases songs.len() - i,
{
    if i < 0 || i >= songs.len() {
        None
    } else if songs[i].author@ == author && songs[i].title@ == title {
        Some(i)
    } else {
        find_song(songs, author, title, i + 1)
    }
}

/// The song of the world that a book song names (same author and title), or
/// a `MissingSong` error.
pub fn song_of_booksong(world: &World, bs: &BookSong) -> (r: Result<Song, ModelError>)
    ensures
        match find_song(world.songs@, bs.author@, bs.title@, 0) {
            Some(i) => r matches Ok(s) && s@ == world.songs@[i]@,
            None => r matches Err(e) && e@ == ModelErrorV::MissingSong(bs.author@, bs.title@),
        },
{
    let mut i: usize = 0;
    while i < world.songs.len()
        invariant
            i <= world.songs@.len(),
            find_song(world.songs@, bs.author@, bs.title@, i as int) == find_song(
                world.songs@,
                bs.author@,
                bs.title@,
                0,
            ),
        decreases world.songs@.len() - i,
    {
        let song = &world.songs[i];
        if str_eq(song.author.as_str(), bs.author.as_str()) && str_eq(song.title.as_str(), bs.title.as_str()) {
            return Ok(song.clone_song());
        }
        i = i + 1;
    }
    Err(ModelError::MissingSong(bs.author.clone(), bs.title.clone()))
}

// ------------------------------------------------------------ laws

proof fn reveal_name_marks()
    ensures
        " "@ == seq![' '],
        "/"@ == seq!['/'],
        "."@ == seq!['.'],
        ")"@ == seq![')'],
        "("@ == seq!['('],
        "'"@ == seq!['\''],
        "_"@ == seq!['_'],
{
    reveal_strlit(" ");
    reveal_strlit("/");
    reveal_strlit(".");
    reveal_strlit(")");
    reveal_strlit("(");
    reveal_strlit("'");
    reveal_strlit("_");
    assert(" "@ =~= seq![' ']);
    assert("/"@ =~= seq!['/']);
    assert("."@ =~= seq!['.']);
    assert(")"@ =~= seq![')']);
    assert("("@ =~= seq!['(']);
    assert("'"@ =~= seq!['\'']);
    assert("_"@ =~= seq!['_']);
}

/// Normalizing works piece by piece: the name of a concatenation is the
/// concatenation of the names.
pub proof fn lemma_normalize_concat(a: Seq<char>, b: Seq<char>)
    ensures
        normalize_spec(a + b) == normalize_spec(a) + normalize_spec(b),
{
    reveal_name_marks();
    let u = "_"@;
    lemma_lower_concat(a, b);
    let (a0, b0) = (lower_spec(a), lower_spec(b));
    lemma_replace_char_concat(a0, b0, ' ', u);
    let (a1, b1) = (replace_spec(a0, seq![' '], u), replace_spec(b0, seq![' '], u));
    lemma_replace_char_concat(a1, b1, '/', u);
    let (a2, b2) = (replace_spec(a1, seq!['/'], u), replace_spec(b1, seq!['/'], u));
    lemma_replace_char_concat(a2, b2, '.', u);
    let (a3, b3) = (replace_spec(a2, seq!['.'], u), replace_spec(b2, seq!['.'], u));
    lemma_replace_char_concat(a3, b3, ')', u);
    let (a4, b4) = (replace_spec(a3, seq![')'], u), replace_spec(b3, seq![')'], u));
    lemma_replace_char_concat(a4, b4, '(', u);
    let (a5, b5) = (replace_spec(a4, seq!['('], u), replace_spec(b4, seq!['('], u));
    lemma_replace_char_concat(a5, b5, '\'', u);
}

/// A normalized name has no upper-case letter and none of the characters
/// that normalizing replaces.
pub proof fn lemma_normalized_is_safe(s: Seq<char>)
    ensures
        forall|k: int|
            0 <= k < normalize_spec(s).len() ==> {
                let c = #[trigger] normalize_spec(s)[k];
                !is_upper(c) && c != ' ' && c != '/' && c != '.' && c != ')' && c != '(' && c != '\''
            },
{
    reveal_name_marks();
    let u = "_"@;
    let s0 = lower_spec(s);
    lemma_lower_no_upper(s);
    let p1 = |c: char| !is_upper(c) && c != ' ';
    lemma_replace_char_keeps(s0, ' ', u, p1);
    let s1 = replace_spec(s0, seq![' '], u);
    let p2 = |c: char| !is_upper(c) && c != ' ' && c != '/';
    assert forall|i: int| 0 <= i < s1.len() implies s1[i] == '/' || p2(s1[i]) by {
        assert(p1(s1[i]));
    }
    lemma_replace_char_keeps(s1, '/', u, p2);
    let s2 = replace_spec(s1, seq!['/'], u);
    let p3 = |c: char| !is_upper(c) && c != ' ' && c != '/' && c != '.';
    assert forall|i: int| 0 <= i < s2.len() implies s2[i] == '.' || p3(s2[i]) by {
        assert(p2(s2[i]));
    }
    lemma_replace_char_keeps(s2, '.', u, p3);
    let s3 = replace_spec(s2, seq!['.'], u);
    let p4 = |c: char| !is_upper(c) && c != ' ' && c != '/' && c != '.' && c != ')';
    assert forall|i: int| 0 <= i < s3.len() implies s3[i] == ')' || p4(s3[i]) by {
        assert(p3(s3[i]));
    }
    lemma_replace_char_keeps(s3, ')', u, p4);
    let s4 = replace_spec(s3, seq![')'], u);
    let p5 = |c: char| !is_upper(c) && c != ' ' && c != '/' && c != '.' && c != ')' && c != '(';
    assert forall|i: int| 0 <= i < s4.len() implies s4[i] == '(' || p5(s4[i]) by {
        assert(p4(s4[i]));
    }
    lemma_replace_char_keeps(s4, '(', u, p5);
    let s5 = replace_spec(s4, seq!['('], u);
    let p6 = |c: char| !is_upper(c) && c != ' ' && c != '/' && c != '.' && c != ')' && c != '(' && c != '\'';
    assert forall|i: int| 0 <= i < s5.len() implies s5[i] == '\'' || p6(s5[i]) by {
        assert(p5(s5[i]));
    }
    lemma_replace_char_keeps(s5, '\'', u, p6);
    let s6 = replace_spec(s5, seq!['\''], u);
    assert(s6 == normalize_spec(s));
    assert forall|k: int| 0 <= k < s6.len() implies p6(#[trigger] s6[k]) by {}
}

/// A name once normalized stays as it is: normalizing twice is normalizing
/// once.
pub proof fn lemma_normalize_idempotent(s: Seq<char>)
    ensures
        normalize_spec(normalize_spec(s)) == normalize_spec(s),
{
    reveal_name_marks();
    let t = normalize_spec(s);
    let u = "_"@;
    lemma_normalized_is_safe(s);
    assert forall|k: int| 0 <= k < t.len() implies !is_upper(#[trigger] t[k]) by {}
    lemma_lower_identity(t);
    assert forall|k: int| 0 <= k < t.len() implies t[k] != ' ' by { assert(t[k] == t[k]); }
    lemma_replace_char_absent(t, ' ', u);
    assert forall|k: int| 0 <= k < t.len() implies t[k] != '/' by { assert(t[k] == t[k]); }
    lemma_replace_char_absent(t, '/', u);
    assert forall|k: int| 0 <= k < t.len() implies t[k] != '.' by { assert(t[k] == t[k]); }
    lemma_replace_char_absent(t, '.', u);
    assert forall|k: int| 0 <= k < t.len() implies t[k] != ')' by { assert(t[k] == t[k]); }
    lemma_replace_char_absent(t, ')', u);
    assert forall|k: int| 0 <= k < t.len() implies t[k] != '(' by { assert(t[k] == t[k]); }
    lemma_replace_char_absent(t, '(', u);
    assert forall|k: int| 0 <= k < t.len() implies t[k] != '\'' by { assert(t[k] == t[k]); }
    lemma_replace_char_absent(t, '\'', u);
}

/// The pdf name of a song is the normalized author and the normalized
/// title, joined by "--@--".
pub proof fn lemma_pdf_name_parts(author: Seq<char>, title: Seq<char>)
    ensures
        pdf_name_spec(author, title) == normalize_spec(author) + "--@--"@ + normalize_spec(title),
{
    reveal_name_marks();
    reveal_strlit("--@--");
    let m = "--@--"@;
    let u = "_"@;
    lemma_normalize_concat(author + m, title);
    lemma_normalize_concat(author, m);
    assert forall|k: int| 0 <= k < m.len() implies !is_upper(#[trigger] m[k]) by {}
    lemma_lower_identity(m);
    lemma_replace_char_absent(m, ' ', u);
    lemma_replace_char_absent(m, '/', u);
    lemma_replace_char_absent(m, '.', u);
    lemma_replace_char_absent(m, ')', u);
    lemma_replace_char_absent(m, '(', u);
    lemma_replace_char_absent(m, '\'', u);
    assert(normalize_spec(m) == m);
}

} // verus!
