//! What the user writes, in the first generation of the model.
use vstd::prelude::*;

verus! {

/// A chord section: a titled, typed grid of chord rows.
#[derive(Clone, Debug, PartialEq, Eq, Hash)]
pub struct UserChordSection {
    pub section_title: String,
    pub section_type: String,
    pub rows: Vec<String>,
}

/// A section that refers to an earlier chord section by its id.
#[derive(Clone, Debug, PartialEq, Eq, Hash)]
pub struct UserRef {
    pub section_title: String,
    pub link: String,
}

/// The kinds of items of a user song structure.
#[derive(Clone, Debug, PartialEq, Eq, Hash)]
pub enum UserStructureItemContent {
    Chords(UserChordSection),
    Ref(UserRef),
    HRule(Option<u32>),
}

/// An identified item of a user song structure.
#[derive(Clone, Debug, PartialEq, Eq, Hash)]
pub struct UserStructureItem {
    pub id: String,
    pub item: UserStructureItemContent,
}

/// The master description of a song.
#[derive(Clone, Debug, PartialEq, Eq, Hash)]
pub struct UserSong {
    pub title: String,
    pub author: String,
    pub texfiles: Vec<String>,
    pub lilypondfiles: Vec<String>,
    pub wavfiles: Vec<String>,
    pub date: String,
    pub structure: Vec<UserStructureItem>,
}

/// A song of a book, named by author and title.
#[derive(Clone, Debug, PartialEq, Eq, Hash)]
pub struct UserBookSong {
    pub author: String,
    pub title: String,
}

/// A book: a title and the list of its songs.
#[derive(Clone, Debug, PartialEq, Eq, Hash)]
pub struct UserBook {
    pub title: String,
    pub songs: Vec<UserBookSong>,
}

/// A user song together with the file it was read from.
#[derive(Clone, Debug, PartialEq, Eq, Hash)]
pub struct UserSongWithPath {
    pub song: UserSong,
    pub path: String,
}

/// A user book together with the file it was read from.
#[derive(Clone, Debug, PartialEq, Eq, Hash)]
pub struct UserBookWithPath {
    pub book: UserBook,
    pub path: String,
}

/// All user songs and books.
#[derive(Clone, Debug, PartialEq, Eq, Hash)]
pub struct UserWorld {
    pub songs: Vec<UserSongWithPath>,
    pub books: Vec<UserBookWithPath>,
}

} // verus!
