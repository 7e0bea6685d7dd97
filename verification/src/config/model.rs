//! The internal model, first generation.
use vstd::prelude::*;
use crate::model::types::strs;

verus! {

/// A section type that songs may use.
#[derive(Clone, Debug, PartialEq, Eq, Hash)]
pub struct Section {
    pub id: String,
    pub color: String,
    pub label: String,
}

/// An horizontal rule, as a percentage of the page width.
#[derive(Clone, Copy, Debug, PartialEq, Eq, Hash)]
pub struct HRule {
    pub percent: u32,
}

/// One bar of a chord grid.
#[derive(Clone, Debug, PartialEq, Eq, Hash)]
pub struct Bar {
    pub chords: Vec<String>,
}

/// One row of a chord grid.
#[derive(Clone, Debug, PartialEq, Eq, Hash)]
pub struct Row {
    pub bar_number: u32,
    pub bars: Vec<Bar>,
}

/// A chord section, with the size of its grid.
#[derive(Clone, Debug, PartialEq, Eq, Hash)]
pub struct Chords {
    pub section_title: String,
    pub section_id: String,
    pub section_type: String,
    pub bar_number: u32,
    pub nb_bars: u32,
    pub nbcols: u32,
    pub nbrows: u32,
    pub rows: Vec<Row>,
}

/// A section that repeats the chords of an earlier one.
#[derive(Clone, Debug, PartialEq, Eq, Hash)]
pub struct Ref {
    pub bar_number: u32,
    pub nb_bars: u32,
    pub section_title: String,
    pub section_id: String,
    pub section_type: String,
}

/// The kinds of items a song's structure is made of.
#[derive(Clone, Debug, PartialEq, Eq, Hash)]
pub enum StructureItemContent {
    ItemChords(Chords),
    ItemRef(Ref),
    ItemHRule(HRule),
}

/// One item of a song's structure.
#[derive(Clone, Debug, PartialEq, Eq, Hash)]
pub struct StructureItem {
    pub item: StructureItemContent,
}

/// A song, ready to be built.
#[derive(Clone, Debug, PartialEq, Eq, Hash)]
pub struct Song {
    pub title: String,
    pub author: String,
    pub pdfname: String,
    pub texfiles: Vec<String>,
    pub builddir: String,
    pub lilypondfiles: Vec<String>,
    pub wavfiles: Vec<String>,
    pub date: String,
    pub structure: Vec<StructureItem>,
}

/// A song as it appears in a book.
#[derive(Clone, Debug, PartialEq, Eq, Hash)]
pub struct BookSong {
    pub author: String,
    pub title: String,
}

/// A book.
#[derive(Clone, Debug, PartialEq, Eq, Hash)]
pub struct Book {
    pub title: String,
    pub songs: Vec<BookSong>,
    pub builddir: String,
}

/// Everything that was found in the source trees; section types are kept in
/// a vector, keyed by their `id`.
#[derive(Clone, Debug, PartialEq, Eq, Hash)]
pub struct World {
    pub builddir: String,
    pub srcdir: String,
    pub songs: Vec<Song>,
    pub books: Vec<Book>,
    pub sections: Vec<Section>,
}

/// The abstract value of a row.
pub struct RowV {
    pub bar_number: u32,
    pub bars: Seq<Seq<Seq<char>>>,
}

/// The abstract value of a chord section.
pub struct ChordsV {
    pub section_title: Seq<char>,
    pub section_id: Seq<char>,
    pub section_type: Seq<char>,
    pub bar_number: u32,
    pub nb_bars: u32,
    pub nbcols: u32,
    pub nbrows: u32,
    pub rows: Seq<RowV>,
}

/// The abstract value of a reference section.
pub struct RefV {
    pub bar_number: u32,
    pub nb_bars: u32,
    pub section_title: Seq<char>,
    pub section_id: Seq<char>,
    pub section_type: Seq<char>,
}

/// The abstract value of a structure item.
pub enum StructureItemV {
    ItemChords(ChordsV),
    ItemRef(RefV),
    ItemHRule(HRule),
}

/// The abstract value of a song.
pub struct SongV {
    pub title: Seq<char>,
    pub author: Seq<char>,
    pub pdfname: Seq<char>,
    pub texfiles: Seq<Seq<char>>,
    pub builddir: Seq<char>,
    pub lilypondfiles: Seq<Seq<char>>,
    pub wavfiles: Seq<Seq<char>>,
    pub date: Seq<char>,
    pub structure: Seq<StructureItemV>,
}

/// The abstract value of a book.
pub struct BookV {
    pub title: Seq<char>,
    pub songs: Seq<(Seq<char>, Seq<char>)>,
    pub builddir: Seq<char>,
}

impl View for Bar {
    type V = Seq<Seq<char>>;

    open spec fn view(&self) -> Seq<Seq<char>> {
        strs(self.chords@)
    }
}

/// The views of a sequence of bars.
pub open spec fn bars_view(v: Seq<Bar>) -> Seq<Seq<Seq<char>>> {
    v.map_values(|b: Bar| b@)
}

impl View for Row {
    type V = RowV;

    open spec fn view(&self) -> RowV {
        RowV { bar_number: self.bar_number, bars: bars_view(self.bars@) }
    }
}

/// The views of a sequence of rows.
pub open spec fn rows_view(v: Seq<Row>) -> Seq<RowV> {
    v.map_values(|r: Row| r@)
}

impl View for StructureItem {
    type V = StructureItemV;

    open spec fn view(&self) -> StructureItemV {
        match self.item {
            StructureItemContent::ItemChords(c) => StructureItemV::ItemChords(
                ChordsV {
                    section_title: c.section_title@,
                    section_id: c.section_id@,
                    section_type: c.section_type@,
                    bar_number: c.bar_number,
                    nb_bars: c.nb_bars,
                    nbcols: c.nbcols,
                    nbrows: c.nbrows,
                    rows: rows_view(c.rows@),
                },
            ),
            StructureItemContent::ItemRef(r) => StructureItemV::ItemRef(
                RefV {
                    bar_number: r.bar_number,
                    nb_bars: r.nb_bars,
                    section_title: r.section_title@,
                    section_id: r.section_id@,
                    section_type: r.section_type@,
                },
            ),
            StructureItemContent::ItemHRule(h) => StructureItemV::ItemHRule(h),
        }
    }
}

/// The views of a sequence of structure items.
pub open spec fn items_view(v: Seq<StructureItem>) -> Seq<StructureItemV> {
    v.map_values(|i: StructureItem| i@)
}

impl View for Song {
    type V = SongV;

    open spec fn view(&self) -> SongV {
        SongV {
            title: self.title@,
            author: self.author@,
            pdfname: self.pdfname@,
            texfiles: strs(self.texfiles@),
            builddir: self.builddir@,
            lilypondfiles: strs(self.lilypondfiles@),
            wavfiles: strs(self.wavfiles@),
            date: self.date@,
            structure: items_view(self.structure@),
        }
    }
}

impl View for Book {
    type V = BookV;

    open spec fn view(&self) -> BookV {
        BookV {
            title: self.title@,
            songs: self.songs@.map_values(|s: BookSong| (s.author@, s.title@)),
            builddir: self.builddir@,
        }
    }
}

} // verus!
