//! What the user writes: the `song.json` / `song.yml` and book files of
//! the source trees.
use vstd::prelude::*;
use crate::model::types::{opt_str, strs};

verus! {

/// A chord section: a titled, typed grid of chord rows. Each row is a
/// string such as `| A |B | Cm | Dm`, where `|` separates bars.
#[derive(Clone, Debug, PartialEq, Eq, Hash)]
pub struct UserChordSection {
    pub section_title: String,
    pub section_type: String,
    pub section_body: Option<String>,
    pub rows: Vec<String>,
}

/// A section that refers to an earlier chord section by its id.
#[derive(Clone, Debug, PartialEq, Eq, Hash)]
pub struct UserRef {
    pub section_title: String,
    pub section_body: Option<String>,
    pub section_type: Option<String>,
    pub link: String,
}

/// The kinds of items of a user song structure.
#[derive(Clone, Debug, PartialEq, Eq, Hash)]
pub enum UserStructureItemContent {
    Chords(UserChordSection),
    Ref(UserRef),
    HRule(Option<u32>),
    NewColumn,
}

/// A comment attached to a bar number.
#[derive(Clone, Debug, PartialEq, Eq, Hash)]
pub struct UserBarComment {
    pub bar_number: u32,
    pub comment: String,
}

/// An identified item of a user song structure.
#[derive(Clone, Debug, PartialEq, Eq, Hash)]
pub struct UserStructureItem {
    pub id: String,
    pub item: UserStructureItemContent,
}

/// Title, author, tempo and time signature of a song.
#[derive(Clone, Debug, PartialEq, Eq, Hash)]
pub struct UserSongInfo {
    pub title: String,
    pub author: String,
    pub tempo: u32,
    pub time_signature: Option<String>,
}

/// Metadata of a song.
#[derive(Clone, Debug, PartialEq, Eq, Hash)]
pub struct UserSongMeta {
    pub date: String,
}

/// The additional files of a song.
#[derive(Clone, Debug, PartialEq, Eq, Hash)]
pub struct UserSongFiles {
    pub tex: Vec<String>,
    pub lilypond: Vec<String>,
    pub wav: Vec<String>,
}

/// The master description of a song.
#[derive(Clone, Debug, PartialEq, Eq, Hash)]
pub struct UserSong {
    pub info: UserSongInfo,
    pub structure: Vec<UserStructureItem>,
    pub meta: UserSongMeta,
    pub files: UserSongFiles,
}

/// A song of a book, named by author and title.
#[derive(Clone, Debug, PartialEq, Eq, Hash)]
pub struct UserBookSong {
    pub author: String,
    pub title: String,
}

/// A book: a title and the list of its songs.
#[derive(Clone, Debug, PartialEq, Eq, Hash)]
pub struct UserBook {
    pub title: String,
    pub songs: Vec<UserBookSong>,
    pub lyrics_only: bool,
    pub cover_image: bool,
}

/// A user song together with the file it was read from.
#[derive(Clone, Debug, PartialEq, Eq, Hash)]
pub struct UserSongWithPath {
    pub song: UserSong,
    pub path: String,
}

/// A user book together with the file it was read from.
#[derive(Clone, Debug, PartialEq, Eq, Hash)]
pub struct UserBookWithPath {
    pub book: UserBook,
    pub path: String,
}

/// All user songs and books.
#[derive(Clone, Debug, PartialEq, Eq, Hash)]
pub struct UserWorld {
    pub songs: Vec<UserSongWithPath>,
    pub books: Vec<UserBookWithPath>,
}


/// The abstract value of a user structure item content.
pub enum UserContentV {
    Chords {
        section_title: Seq<char>,
        section_type: Seq<char>,
        section_body: Option<Seq<char>>,
        rows: Seq<Seq<char>>,
    },
    Ref {
        section_title: Seq<char>,
        section_body: Option<Seq<char>>,
        section_type: Option<Seq<char>>,
        link: Seq<char>,
    },
    HRule(Option<u32>),
    NewColumn,
}

/// The abstract value of a user structure item.
pub struct UserStructureItemV {
    pub id: Seq<char>,
    pub item: UserContentV,
}

/// The abstract value of a user song.
pub struct UserSongV {
    pub title: Seq<char>,
    pub author: Seq<char>,
    pub tempo: u32,
    pub time_signature: Option<Seq<char>>,
    pub structure: Seq<UserStructureItemV>,
    pub date: Seq<char>,
    pub tex: Seq<Seq<char>>,
    pub lilypond: Seq<Seq<char>>,
    pub wav: Seq<Seq<char>>,
}

/// The abstract value of a user song with its path.
pub struct UserSongWithPathV {
    pub song: UserSongV,
    pub path: Seq<char>,
}

impl View for UserStructureItem {
    type V = UserStructureItemV;

    open spec fn view(&self) -> UserStructureItemV {
        UserStructureItemV {
            id: self.id@,
            item: match self.item {
                UserStructureItemContent::Chords(c) => UserContentV::Chords {
                    section_title: c.section_title@,
                    section_type: c.section_type@,
                    section_body: opt_str(c.section_body),
                    rows: strs(c.rows@),
                },
                UserStructureItemContent::Ref(x) => UserContentV::Ref {
                    section_title: x.section_title@,
                    section_body: opt_str(x.section_body),
                    section_type: opt_str(x.section_type),
                    link: x.link@,
                },
                UserStructureItemContent::HRule(p) => UserContentV::HRule(p),
                UserStructureItemContent::NewColumn => UserContentV::NewColumn,
            },
        }
    }
}

impl View for UserSong {
    type V = UserSongV;

    open spec fn view(&self) -> UserSongV {
        UserSongV {
            title: self.info.title@,
            author: self.info.author@,
            tempo: self.info.tempo,
            time_signature: opt_str(self.info.time_signature),
            structure: self.structure@.map_values(|u: UserStructureItem| u@),
            date: self.meta.date@,
            tex: strs(self.files.tex@),
            lilypond: strs(self.files.lilypond@),
            wav: strs(self.files.wav@),
        }
    }
}

impl View for UserSongWithPath {
    type V = UserSongWithPathV;

    open spec fn view(&self) -> UserSongWithPathV {
        UserSongWithPathV { song: self.song@, path: self.path@ }
    }
}

/// A copy of a vector of strings.
pub fn copy_string_vec(v: &Vec<String>) -> (r: Vec<String>)
    ensures
        strs(r@) == strs(v@),
{
    let mut r: Vec<String> = Vec::new();
    let mut i: usize = 0;
    while i < v.len()
        invariant
            i <= v@.len(),
            strs(r@) == strs(v@).subrange(0, i as int),
        decreases v@.len() - i,
    {
        let x = v[i].clone();
        let ghost old = r@;
        r.push(x);
        assert(strs(r@) =~= strs(old).push(x@));
        i = i + 1;
        assert(strs(r@) =~= strs(v@).subrange(0, i as int));
    }
    assert(strs(v@).subrange(0, v@.len() as int) =~= strs(v@));
    r
}

/// A copy of an optional string.
pub fn copy_opt_string(o: &Option<String>) -> (r: Option<String>)
    ensures
        opt_str(r) == opt_str(*o),
{
    match o {
        Some(s) => Some(s.clone()),
        None => None,
    }
}

impl UserStructureItem {
    /// A copy of this item.
    pub fn copy(&self) -> (r: UserStructureItem)
        ensures
            r@ == self@,
    {
        let item = match &self.item {
            UserStructureItemContent::Chords(c) => UserStructureItemContent::Chords(
                UserChordSection {
                    section_title: c.section_title.clone(),
                    section_type: c.section_type.clone(),
                    section_body: copy_opt_string(&c.section_body),
                    rows: copy_string_vec(&c.rows),
                },
            ),
            UserStructureItemContent::Ref(x) => UserStructureItemContent::Ref(
                UserRef {
                    section_title: x.section_title.clone(),
                    section_body: copy_opt_string(&x.section_body),
                    section_type: copy_opt_string(&x.section_type),
                    link: x.link.clone(),
                },
            ),
            UserStructureItemContent::HRule(p) => UserStructureItemContent::HRule(*p),
            UserStructureItemContent::NewColumn => UserStructureItemContent::NewColumn,
        };
        UserStructureItem { id: self.id.clone(), item }
    }
}

impl UserSong {
    /// A copy of this song.
    pub fn copy(&self) -> (r: UserSong)
        ensures
            r@ == self@,
    {
        let mut structure: Vec<UserStructureItem> = Vec::new();
        let mut i: usize = 0;
        while i < self.structure.len()
            invariant
                i <= self.structure@.len(),
                structure@.map_values(|u: UserStructureItem| u@) == self.structure@.map_values(
                    |u: UserStructureItem| u@,
                ).subrange(0, i as int),
            decreases self.structure@.len() - i,
        {
            let x = self.structure[i].copy();
            let ghost old = structure@;
            structure.push(x);
            assert(structure@.map_values(|u: UserStructureItem| u@) =~= old.map_values(
                |u: UserStructureItem| u@,
            ).push(x@));
            i = i + 1;
            assert(structure@.map_values(|u: UserStructureItem| u@) =~= self.structure@.map_values(
                |u: UserStructureItem| u@,
            ).subrange(0, i as int));
        }
        assert(self.structure@.map_values(|u: UserStructureItem| u@).subrange(
            0,
            self.structure@.len() as int,
        ) =~= self.structure@.map_values(|u: UserStructureItem| u@));
        UserSong {
            info: UserSongInfo {
                title: self.info.title.clone(),
                author: self.info.author.clone(),
                tempo: self.info.tempo,
                time_signature: copy_opt_string(&self.info.time_signature),
            },
            structure,
            meta: UserSongMeta { date: self.meta.date.clone() },
            files: UserSongFiles {
                tex: copy_string_vec(&self.files.tex),
                lilypond: copy_string_vec(&self.files.lilypond),
                wav: copy_string_vec(&self.files.wav),
            },
        }
    }
}

impl UserSongWithPath {
    /// A copy of this song and path.
    pub fn copy(&self) -> (r: UserSongWithPath)
        ensures
            r@ == self@,
    {
        UserSongWithPath { song: self.song.copy(), path: self.path.clone() }
    }
}

} // verus!
