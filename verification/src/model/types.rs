//! The internal model of songs, books and the world they live in.
use vstd::prelude::*;

verus! {

/// A musical time signature, such as 3/4.
#[derive(Clone, Copy, Debug, PartialEq, Eq, Hash)]
pub struct TimeSignature {
    pub top: u8,
    pub low: u8,
}

/// A section type that songs may use ("couplet", "refrain", ...).
#[derive(Clone, Debug, PartialEq, Eq, Hash)]
pub struct Section {
    pub id: String,
    pub color: String,
    pub label: String,
}

/// An horizontal rule, as a percentage of the page width.
#[derive(Clone, Copy, Debug, PartialEq, Eq, Hash)]
pub struct HRule {
    pub percent: u32,
}

/// One bar of a chord grid.
#[derive(Clone, Debug, PartialEq, Eq, Hash)]
pub struct Bar {
    pub chords: Vec<String>,
    pub time_signature: Option<TimeSignature>,
}

/// One row of a chord grid, played `repeat` times.
#[derive(Clone, Debug, PartialEq, Eq, Hash)]
pub struct Row {
    pub row_start_bar_number: u32,
    pub bars: Vec<Bar>,
    pub repeat: u32,
}

/// A chord section of a song.
#[derive(Clone, Debug, PartialEq, Eq, Hash)]
pub struct Chords {
    pub section_title: String,
    pub section_id: String,
    pub section_type: String,
    pub section_body: String,
    pub row_start_bar_number: u32,
    pub nb_bars: u32,
    pub rows: Vec<Row>,
}

/// A section that repeats the chords of an earlier one.
#[derive(Clone, Debug, PartialEq, Eq, Hash)]
pub struct Ref {
    pub row_start_bar_number: u32,
    pub nb_bars: u32,
    pub section_title: String,
    pub section_id: String,
    pub section_type: String,
    pub section_body: String,
}

/// The kinds of items a song's structure is made of.
#[derive(Clone, Debug, PartialEq, Eq, Hash)]
pub enum StructureItemContent {
    ItemChords(Chords),
    ItemRef(Ref),
    ItemHRule(HRule),
    ItemNewColumn,
}

/// One item of a song's structure.
#[derive(Clone, Debug, PartialEq, Eq, Hash)]
pub struct StructureItem {
    pub item: StructureItemContent,
}

/// A song, ready to be built. Paths are strings with `/` separators.
#[derive(Clone, Debug, PartialEq, Eq, Hash)]
pub struct Song {
    pub title: String,
    pub author: String,
    pub tempo: u32,
    pub time_signature: TimeSignature,
    pub pdfname: String,
    pub texfiles: Vec<String>,
    pub builddir: String,
    pub lilypondfiles: Vec<String>,
    pub wavfiles: Vec<String>,
    pub date: String,
    pub structure: Vec<StructureItem>,
    pub srcdir: String,
}

/// A song as it appears in a book.
#[derive(Clone, Debug, PartialEq, Eq, Hash)]
pub struct BookSong {
    pub author: String,
    pub title: String,
    pub pdfname: String,
    pub path: String,
}

/// A book: a titled collection of songs.
#[derive(Clone, Debug, PartialEq, Eq, Hash)]
pub struct Book {
    pub title: String,
    pub songs: Vec<BookSong>,
    pub builddir: String,
    pub pdfname: String,
    pub lyrics_only: bool,
    pub cover_image: bool,
}

/// Everything that was found in the source trees. The section types are
/// kept in a vector, keyed by their `id`.
#[derive(Clone, Debug, PartialEq, Eq, Hash)]
pub struct World {
    pub builddir: String,
    pub songdir: String,
    pub bookdir: String,
    pub songs: Vec<Song>,
    pub books: Vec<Book>,
    pub sections: Vec<Section>,
    pub broken_songs: Vec<(String, String)>,
    pub broken_books: Vec<(String, String)>,
}

/// The abstract value of a bar.
pub struct BarV {
    pub chords: Seq<Seq<char>>,
    pub time_signature: Option<TimeSignature>,
}

/// The abstract value of a row.
pub struct RowV {
    pub row_start_bar_number: u32,
    pub bars: Seq<BarV>,
    pub repeat: u32,
}

/// The abstract value of a chord section.
pub struct ChordsV {
    pub section_title: Seq<char>,
    pub section_id: Seq<char>,
    pub section_type: Seq<char>,
    pub section_body: Seq<char>,
    pub row_start_bar_number: u32,
    pub nb_bars: u32,
    pub rows: Seq<RowV>,
}

/// The abstract value of a reference section.
pub struct RefV {
    pub row_start_bar_number: u32,
    pub nb_bars: u32,
    pub section_title: Seq<char>,
    pub section_id: Seq<char>,
    pub section_type: Seq<char>,
    pub section_body: Seq<char>,
}

/// The abstract value of a structure item.
pub enum StructureItemV {
    ItemChords(ChordsV),
    ItemRef(RefV),
    ItemHRule(HRule),
    ItemNewColumn,
}

/// The abstract value of a song.
pub struct SongV {
    pub title: Seq<char>,
    pub author: Seq<char>,
    pub tempo: u32,
    pub time_signature: TimeSignature,
    pub pdfname: Seq<char>,
    pub texfiles: Seq<Seq<char>>,
    pub builddir: Seq<char>,
    pub lilypondfiles: Seq<Seq<char>>,
    pub wavfiles: Seq<Seq<char>>,
    pub date: Seq<char>,
    pub structure: Seq<StructureItemV>,
    pub srcdir: Seq<char>,
}

/// The abstract value of a book song.
pub struct BookSongV {
    pub author: Seq<char>,
    pub title: Seq<char>,
    pub pdfname: Seq<char>,
    pub path: Seq<char>,
}

/// The abstract value of a book.
pub struct BookV {
    pub title: Seq<char>,
    pub songs: Seq<BookSongV>,
    pub builddir: Seq<char>,
    pub pdfname: Seq<char>,
    pub lyrics_only: bool,
    pub cover_image: bool,
}

/// The views of a vector of strings.
pub open spec fn strs(v: Seq<String>) -> Seq<Seq<char>> {
    v.map_values(|x: String| x@)
}

/// The view of an optional string.
pub open spec fn opt_str(o: Option<String>) -> Option<Seq<char>> {
    match o {
        Some(s) => Some(s@),
        None => None,
    }
}

impl View for Bar {
    type V = BarV;

    open spec fn view(&self) -> BarV {
        BarV { chords: strs(self.chords@), time_signature: self.time_signature }
    }
}

/// The views of a sequence of bars.
pub open spec fn bars_view(v: Seq<Bar>) -> Seq<BarV> {
    v.map_values(|b: Bar| b@)
}

impl View for Row {
    type V = RowV;

    open spec fn view(&self) -> RowV {
        RowV {
            row_start_bar_number: self.row_start_bar_number,
            bars: bars_view(self.bars@),
            repeat: self.repeat,
        }
    }
}

/// The views of a sequence of rows.
pub open spec fn rows_view(v: Seq<Row>) -> Seq<RowV> {
    v.map_values(|r: Row| r@)
}

impl View for Chords {
    type V = ChordsV;

    open spec fn view(&self) -> ChordsV {
        ChordsV {
            section_title: self.section_title@,
            section_id: self.section_id@,
            section_type: self.section_type@,
            section_body: self.section_body@,
            row_start_bar_number: self.row_start_bar_number,
            nb_bars: self.nb_bars,
            rows: rows_view(self.rows@),
        }
    }
}

impl View for Ref {
    type V = RefV;

    open spec fn view(&self) -> RefV {
        RefV {
            row_start_bar_number: self.row_start_bar_number,
            nb_bars: self.nb_bars,
            section_title: self.section_title@,
            section_id: self.section_id@,
            section_type: self.section_type@,
            section_body: self.section_body@,
        }
    }
}

impl View for StructureItem {
    type V = StructureItemV;

    open spec fn view(&self) -> StructureItemV {
        match self.item {
            StructureItemContent::ItemChords(c) => StructureItemV::ItemChords(c@),
            StructureItemContent::ItemRef(r) => StructureItemV::ItemRef(r@),
            StructureItemContent::ItemHRule(h) => StructureItemV::ItemHRule(h),
            StructureItemContent::ItemNewColumn => StructureItemV::ItemNewColumn,
        }
    }
}

/// The views of a sequence of structure items.
pub open spec fn items_view(v: Seq<StructureItem>) -> Seq<StructureItemV> {
    v.map_values(|i: StructureItem| i@)
}

impl View for Song {
    type V = SongV;

    open spec fn view(&self) -> SongV {
        SongV {
            title: self.title@,
            author: self.author@,
            tempo: self.tempo,
            time_signature: self.time_signature,
            pdfname: self.pdfname@,
            texfiles: strs(self.texfiles@),
            builddir: self.builddir@,
            lilypondfiles: strs(self.lilypondfiles@),
            wavfiles: strs(self.wavfiles@),
            date: self.date@,
            structure: items_view(self.structure@),
            srcdir: self.srcdir@,
        }
    }
}

impl View for BookSong {
    type V = BookSongV;

    open spec fn view(&self) -> BookSongV {
        BookSongV {
            author: self.author@,
            title: self.title@,
            pdfname: self.pdfname@,
            path: self.path@,
        }
    }
}

impl View for Book {
    type V = BookV;

    open spec fn view(&self) -> BookV {
        BookV {
            title: self.title@,
            songs: self.songs@.map_values(|s: BookSong| s@),
            builddir: self.builddir@,
            pdfname: self.pdfname@,
            lyrics_only: self.lyrics_only,
            cover_image: self.cover_image,
        }
    }
}

/// A copy of a vector of strings.
pub fn copy_strings(v: &Vec<String>) -> (r: Vec<String>)
    ensures
        strs(r@) == strs(v@),
        r@.len() == v@.len(),
{
    let mut r: Vec<String> = Vec::new();
    let mut i: usize = 0;
    while i < v.len()
        invariant
            i <= v@.len(),
            r@.len() == i,
            forall|j: int| 0 <= j < i ==> r@[j]@ == v@[j]@,
        decreases v@.len() - i,
    {
        r.push(v[i].clone());
        i = i + 1;
    }
    assert(strs(r@) =~= strs(v@));
    r
}


impl Bar {
    /// A copy of this bar.
    pub fn clone_bar(&self) -> (r: Bar)
        ensures
            r@ == self@,
    {
        Bar { chords: copy_strings(&self.chords), time_signature: self.time_signature }
    }
}

impl Row {
    /// A copy of this row.
    pub fn clone_row(&self) -> (r: Row)
        ensures
            r@ == self@,
    {
        let mut bars: Vec<Bar> = Vec::new();
        let mut i: usize = 0;
        while i < self.bars.len()
            invariant
                i <= self.bars@.len(),
                bars_view(bars@) == bars_view(self.bars@).subrange(0, i as int),
            decreases self.bars@.len() - i,
        {
            let b = self.bars[i].clone_bar();
            let ghost old = bars@;
            bars.push(b);
            assert(bars_view(bars@) =~= bars_view(old).push(b@));
            i = i + 1;
            assert(bars_view(bars@) =~= bars_view(self.bars@).subrange(0, i as int));
        }
        assert(bars_view(self.bars@).subrange(0, self.bars@.len() as int) =~= bars_view(self.bars@));
        Row { row_start_bar_number: self.row_start_bar_number, bars, repeat: self.repeat }
    }
}

/// A copy of some rows.
pub fn copy_rows(v: &Vec<Row>) -> (r: Vec<Row>)
    ensures
        rows_view(r@) == rows_view(v@),
{
    let mut r: Vec<Row> = Vec::new();
    let mut i: usize = 0;
    while i < v.len()
        invariant
            i <= v@.len(),
            rows_view(r@) == rows_view(v@).subrange(0, i as int),
        decreases v@.len() - i,
    {
        let x = v[i].clone_row();
        let ghost old = r@;
        r.push(x);
        assert(rows_view(r@) =~= rows_view(old).push(x@));
        i = i + 1;
        assert(rows_view(r@) =~= rows_view(v@).subrange(0, i as int));
    }
    assert(rows_view(v@).subrange(0, v@.len() as int) =~= rows_view(v@));
    r
}

impl StructureItem {
    /// A copy of this structure item.
    pub fn clone_item(&self) -> (r: StructureItem)
        ensures
            r@ == self@,
    {
        let item = match &self.item {
            StructureItemContent::ItemChords(c) => StructureItemContent::ItemChords(
                Chords {
                    section_title: c.section_title.clone(),
                    section_id: c.section_id.clone(),
                    section_type: c.section_type.clone(),
                    section_body: c.section_body.clone(),
                    row_start_bar_number: c.row_start_bar_number,
                    nb_bars: c.nb_bars,
                    rows: copy_rows(&c.rows),
                },
            ),
            StructureItemContent::ItemRef(x) => StructureItemContent::ItemRef(
                Ref {
                    row_start_bar_number: x.row_start_bar_number,
                    nb_bars: x.nb_bars,
                    section_title: x.section_title.clone(),
                    section_id: x.section_id.clone(),
                    section_type: x.section_type.clone(),
                    section_body: x.section_body.clone(),
                },
            ),
            StructureItemContent::ItemHRule(h) => StructureItemContent::ItemHRule(*h),
            StructureItemContent::ItemNewColumn => StructureItemContent::ItemNewColumn,
        };
        StructureItem { item }
    }
}

/// A copy of some structure items.
pub fn copy_items(v: &Vec<StructureItem>) -> (r: Vec<StructureItem>)
    ensures
        items_view(r@) == items_view(v@),
{
    let mut r: Vec<StructureItem> = Vec::new();
    let mut i: usize = 0;
    while i < v.len()
        invariant
            i <= v@.len(),
            items_view(r@) == items_view(v@).subrange(0, i as int),
        decreases v@.len() - i,
    {
        let x = v[i].clone_item();
        let ghost old = r@;
        r.push(x);
        assert(items_view(r@) =~= items_view(old).push(x@));
        i = i + 1;
        assert(items_view(r@) =~= items_view(v@).subrange(0, i as int));
    }
    assert(items_view(v@).subrange(0, v@.len() as int) =~= items_view(v@));
    r
}

impl Song {
    /// A copy of this song.
    pub fn clone_song(&self) -> (r: Song)
        ensures
            r@ == self@,
    {
        Song {
            title: self.title.clone(),
            author: self.author.clone(),
            tempo: self.tempo,
            time_signature: self.time_signature,
            pdfname: self.pdfname.clone(),
            texfiles: copy_strings(&self.texfiles),
            builddir: self.builddir.clone(),
            lilypondfiles: copy_strings(&self.lilypondfiles),
            wavfiles: copy_strings(&self.wavfiles),
            date: self.date.clone(),
            structure: copy_items(&self.structure),
            srcdir: self.srcdir.clone(),
        }
    }
}

impl BookSong {
    /// A copy of this book song.
    pub fn clone_book_song(&self) -> (r: BookSong)
        ensures
            r@ == self@,
    {
        BookSong {
            author: self.author.clone(),
            title: self.title.clone(),
            pdfname: self.pdfname.clone(),
            path: self.path.clone(),
        }
    }
}

impl Book {
    /// A copy of this book.
    pub fn clone_book(&self) -> (r: Book)
        ensures
            r@ == self@,
    {
        let mut songs: Vec<BookSong> = Vec::new();
        let mut i: usize = 0;
        while i < self.songs.len()
            invariant
                i <= self.songs@.len(),
                songs@.map_values(|s: BookSong| s@) == self.songs@.map_values(|s: BookSong| s@).subrange(0, i as int),
            decreases self.songs@.len() - i,
        {
            let x = self.songs[i].clone_book_song();
            let ghost old = songs@;
            songs.push(x);
            assert(songs@.map_values(|s: BookSong| s@) =~= old.map_values(|s: BookSong| s@).push(x@));
            i = i + 1;
            assert(songs@.map_values(|s: BookSong| s@) =~= self.songs@.map_values(|s: BookSong| s@).subrange(0, i as int));
        }
        assert(self.songs@.map_values(|s: BookSong| s@).subrange(0, self.songs@.len() as int) =~= self.songs@.map_values(|s: BookSong| s@));
        Book {
            title: self.title.clone(),
            songs,
            builddir: self.builddir.clone(),
            pdfname: self.pdfname.clone(),
            lyrics_only: self.lyrics_only,
            cover_image: self.cover_image,
        }
    }
}

} // verus!
