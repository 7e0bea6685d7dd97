//! Turning the user's song and book descriptions into the first-generation
//! model: chord grids, bar numbering, grid sizes and references.
use vstd::prelude::*;
use crate::config::input_model::{
    UserBook, UserChordSection, UserSong, UserStructureItem, UserStructureItemContent,
};
use crate::config::model::{
    Bar, Book, BookSong, BookV, Chords, ChordsV, HRule, Ref, RefV, Row, RowV, Section, Song,
    SongV, StructureItem, StructureItemContent, StructureItemV, bars_view, items_view, rows_view,
};
use crate::error::{ModelError, ModelErrorV};
use crate::helpers::{normalize_name, normalize_spec};
use crate::model::types::{copy_strings, strs};
use crate::paths::{file_name_spec, parent_spec, path_file_name, path_parent, path_push, push_spec};
use crate::text::{replace_all, replace_spec, split_char, split_spec, str_eq, views, lemma_split_nonempty};

verus! {

/// The spelling of a chord: "7" becomes "sept" and spaces disappear.
pub open spec fn chord_spec(s: Seq<char>) -> Seq<char> {
    replace_spec(replace_spec(s, "7"@, "sept"@), " "@, ""@)
}

/// Spells a chord: "7" becomes "sept" and spaces are removed.
pub fn chord_of_string(s: String) -> (r: String)
    ensures
        r@ == chord_spec(s@),
{
    proof {
        reveal_strlit("7");
        reveal_strlit(" ");
    }
    let a = replace_all(s.as_str(), "7", "sept");
    replace_all(a.as_str(), " ", "")
}

/// The non-empty chords of the words of a bar, in order.
pub open spec fn bar_spec(ws: Seq<Seq<char>>) -> Seq<Seq<char>>
    decreases ws.len(),
{
    if ws.len() == 0 {
        Seq::empty()
    } else {
        let r = bar_spec(ws.drop_last());
        let c = chord_spec(ws.last());
        if c.len() > 0 {
            r.push(c)
        } else {
            r
        }
    }
}

/// Reads a bar: its space-separated chords, spelled, without empty ones.
pub fn bar_of_string(s: String) -> (r: Bar)
    ensures
        r@ == bar_spec(split_spec(s@, ' ')),
{
    let ws = split_char(s.as_str(), ' ');
    let ghost wv = views(ws@);
    let mut chords: Vec<String> = Vec::new();
    let mut i: usize = 0;
    while i < ws.len()
        invariant
            wv == views(ws@),
            i <= ws@.len(),
            strs(chords@) == bar_spec(wv.subrange(0, i as int)),
        decreases ws@.len() - i,
    {
        let c = chord_of_string(ws[i].clone());
        assert(wv.subrange(0, i + 1).drop_last() =~= wv.subrange(0, i as int));
        assert(wv[i as int] == ws@[i as int]@);
        if c.unicode_len() > 0 {
            let ghost old = chords@;
            chords.push(c);
            assert(strs(chords@) =~= strs(old).push(c@));
        }
        i = i + 1;
    }
    assert(wv.subrange(0, ws@.len() as int) =~= wv);
    Bar { chords }
}

/// The bars of a row.
pub open spec fn row_bars(s: Seq<char>) -> Seq<Seq<Seq<char>>> {
    split_spec(s, '|').map_values(|b: Seq<char>| bar_spec(split_spec(b, ' ')))
}

/// The meaning of a chord row that starts at bar `barcount`: the bar count
/// after it and the row.
pub open spec fn row_spec(barcount: int, s: Seq<char>) -> (int, RowV) {
    (barcount + row_bars(s).len(), RowV { bar_number: barcount as u32, bars: row_bars(s) })
}

/// The bar count after a row fits the counters.
pub open spec fn row_ok(barcount: int, s: Seq<char>) -> bool {
    0 <= barcount && barcount + split_spec(s, '|').len() <= u32::MAX
}

/// Reads a chord row that starts at bar `barcount`; returns the bar count
/// after it and the row.
pub fn row_of_string(barcount: u32, s: String) -> (r: (u32, Row))
    requires
        row_ok(barcount as int, s@),
    ensures
        r.0 as int == row_spec(barcount as int, s@).0,
        r.1@ == row_spec(barcount as int, s@).1,
{
    let pieces = split_char(s.as_str(), '|');
    let ghost ps = views(pieces@);
    let mut bars: Vec<Bar> = Vec::new();
    let mut i: usize = 0;
    while i < pieces.len()
        invariant
            ps == views(pieces@),
            ps == split_spec(s@, '|'),
            i <= pieces@.len(),
            bars_view(bars@) == row_bars(s@).subrange(0, i as int),
        decreases pieces@.len() - i,
    {
        let b = bar_of_string(pieces[i].clone());
        assert(ps[i as int] == pieces@[i as int]@);
        let ghost old = bars@;
        bars.push(b);
        assert(bars_view(bars@) =~= bars_view(old).push(b@));
        i = i + 1;
        assert(bars_view(bars@) =~= row_bars(s@).subrange(0, i as int));
    }
    assert(row_bars(s@).subrange(0, pieces@.len() as int) =~= row_bars(s@));
    let n = bars.len() as u32;
    (barcount + n, Row { bar_number: barcount, bars })
}

/// The rows of a chord section read in turn from bar `barcount`.
pub open spec fn rows_spec(barcount: int, rows: Seq<Seq<char>>) -> (int, Seq<RowV>)
    decreases rows.len(),
{
    if rows.len() == 0 {
        (barcount, Seq::empty())
    } else {
        let (c, rs) = rows_spec(barcount, rows.drop_last());
        let (c2, r) = row_spec(c, rows.last());
        (c2, rs.push(r))
    }
}

/// The bar counts of all the rows fit the counters.
pub open spec fn rows_ok(barcount: int, rows: Seq<Seq<char>>) -> bool
    decreases rows.len(),
{
    if rows.len() == 0 {
        0 <= barcount <= u32::MAX
    } else {
        rows_ok(barcount, rows.drop_last()) && row_ok(rows_spec(barcount, rows.drop_last()).0, rows.last())
    }
}

/// Prefixes of readable rows are readable.
pub proof fn lemma_rows_ok_prefix(barcount: int, rows: Seq<Seq<char>>, k: int)
    requires
        rows_ok(barcount, rows),
        0 <= k <= rows.len(),
    ensures
        rows_ok(barcount, rows.subrange(0, k)),
    decreases rows.len() - k,
{
    if k < rows.len() {
        lemma_rows_ok_prefix(barcount, rows, k + 1);
        assert(rows.subrange(0, k + 1).drop_last() =~= rows.subrange(0, k));
    } else {
        assert(rows.subrange(0, k) =~= rows);
    }
}

/// Reads the rows of a chord section that starts at bar `barcount`.
pub fn rows_of_userchordsection(barcount: u32, uc: &UserChordSection) -> (r: (u32, Vec<Row>))
    requires
        rows_ok(barcount as int, strs(uc.rows@)),
    ensures
        r.0 as int == rows_spec(barcount as int, strs(uc.rows@)).0,
        rows_view(r.1@) == rows_spec(barcount as int, strs(uc.rows@)).1,
{
    let ghost rows = strs(uc.rows@);
    let mut count = barcount;
    let mut out: Vec<Row> = Vec::new();
    let mut i: usize = 0;
    assert(rows.subrange(0, 0) =~= Seq::<Seq<char>>::empty());
    while i < uc.rows.len()
        invariant
            rows == strs(uc.rows@),
            rows_ok(barcount as int, rows),
            i <= rows.len(),
            count as int == rows_spec(barcount as int, rows.subrange(0, i as int)).0,
            rows_view(out@) == rows_spec(barcount as int, rows.subrange(0, i as int)).1,
        decreases rows.len() - i,
    {
        proof { lemma_rows_ok_prefix(barcount as int, rows, i + 1); }
        assert(rows.subrange(0, i + 1).drop_last() =~= rows.subrange(0, i as int));
        let (c, row) = row_of_string(count, uc.rows[i].clone());
        count = c;
        let ghost old = out@;
        out.push(row);
        assert(rows_view(out@) =~= rows_view(old).push(row@));
        i = i + 1;
    }
    assert(rows.subrange(0, rows.len() as int) =~= rows);
    (count, out)
}

/// The number of bars of some rows.
pub open spec fn nb_bars_of(rows: Seq<RowV>) -> int
    decreases rows.len(),
{
    if rows.len() == 0 {
        0
    } else {
        nb_bars_of(rows.drop_last()) + rows.last().bars.len()
    }
}

/// The largest number of bars in a row, 0 for no rows.
pub open spec fn nbcols_of(rows: Seq<RowV>) -> int
    decreases rows.len(),
{
    if rows.len() == 0 {
        0
    } else if nbcols_of(rows.drop_last()) < rows.last().bars.len() {
        rows.last().bars.len() as int
    } else {
        nbcols_of(rows.drop_last())
    }
}

/// Reading rows advances the bar count by the number of bars read.
pub proof fn lemma_rows_count(barcount: int, rows: Seq<Seq<char>>)
    requires
        rows_ok(barcount, rows),
    ensures
        rows_spec(barcount, rows).0 == barcount + nb_bars_of(rows_spec(barcount, rows).1),
        barcount <= rows_spec(barcount, rows).0 <= u32::MAX,
    decreases rows.len(),
{
    if rows.len() > 0 {
        lemma_rows_count(barcount, rows.drop_last());
        let (c, rs) = rows_spec(barcount, rows.drop_last());
        let (c2, r) = row_spec(c, rows.last());
        assert(rs.push(r).drop_last() =~= rs);
    }
}

proof fn lemma_prefix_bounds(rows: Seq<RowV>, k: int)
    requires
        0 <= k <= rows.len(),
    ensures
        0 <= nb_bars_of(rows.subrange(0, k)) <= nb_bars_of(rows),
        0 <= nbcols_of(rows.subrange(0, k)) <= nbcols_of(rows),
        k < rows.len() ==> rows[k].bars.len() <= nb_bars_of(rows),
    decreases rows.len() - k,
{
    if k < rows.len() {
        lemma_prefix_bounds(rows, k + 1);
        assert(rows.subrange(0, k + 1).drop_last() =~= rows.subrange(0, k));
        assert(rows.subrange(0, k + 1).last() == rows[k]);
    } else {
        assert(rows.subrange(0, k) =~= rows);
    }
    lemma_nonneg(rows.subrange(0, k));
}

proof fn lemma_nonneg(rows: Seq<RowV>)
    ensures
        0 <= nb_bars_of(rows),
        0 <= nbcols_of(rows) <= nb_bars_of(rows),
    decreases rows.len(),
{
    if rows.len() > 0 {
        lemma_nonneg(rows.drop_last());
    }
}

/// The number of bars and the widest row of some rows, computed.
fn grid_size(rows: &Vec<Row>) -> (r: (u32, u32))
    requires
        nb_bars_of(rows_view(rows@)) <= u32::MAX,
    ensures
        r.0 as int == nb_bars_of(rows_view(rows@)),
        r.1 as int == nbcols_of(rows_view(rows@)),
{
    let ghost rv = rows_view(rows@);
    let mut total: u32 = 0;
    let mut cols: u32 = 0;
    let mut i: usize = 0;
    while i < rows.len()
        invariant
            rv == rows_view(rows@),
            nb_bars_of(rv) <= u32::MAX,
            i <= rows@.len(),
            total as int == nb_bars_of(rv.subrange(0, i as int)),
            cols as int == nbcols_of(rv.subrange(0, i as int)),
        decreases rows@.len() - i,
    {
        proof {
            lemma_prefix_bounds(rv, i as int);
            lemma_prefix_bounds(rv, i + 1);
            assert(rv.subrange(0, i + 1).drop_last() =~= rv.subrange(0, i as int));
            assert(rv.subrange(0, i + 1).last() == rv[i as int]);
        }
        let n = rows[i].bars.len() as u32;
        total = total + n;
        if cols < n {
            cols = n;
        }
        i = i + 1;
    }
    assert(rv.subrange(0, rows@.len() as int) =~= rv);
    (total, cols)
}

/// The chord sections among `prev` whose id is `link`, in order.
pub open spec fn chords_with_id(prev: Seq<StructureItemV>, link: Seq<char>) -> Seq<ChordsV>
    decreases prev.len(),
{
    if prev.len() == 0 {
        Seq::empty()
    } else {
        let r = chords_with_id(prev.drop_last(), link);
        match prev.last() {
            StructureItemV::ItemChords(c) => if c.section_id == link {
                r.push(c)
            } else {
                r
            },
            _ => r,
        }
    }
}

proof fn lemma_chords_with_id_prefix(prev: Seq<StructureItemV>, link: Seq<char>, k: int)
    requires
        0 <= k <= prev.len(),
    ensures
        chords_with_id(prev.subrange(0, k), link).len() <= chords_with_id(prev, link).len(),
        forall|j: int| 0 <= j < chords_with_id(prev.subrange(0, k), link).len()
            ==> chords_with_id(prev.subrange(0, k), link)[j] == #[trigger] chords_with_id(prev, link)[j],
    decreases prev.len() - k,
{
    if k < prev.len() {
        lemma_chords_with_id_prefix(prev, link, k + 1);
        assert(prev.subrange(0, k + 1).drop_last() =~= prev.subrange(0, k));
    } else {
        assert(prev.subrange(0, k) =~= prev);
    }
}

/// The meaning of a user structure item that starts at bar `barcount` after
/// the items `previous`: the bar count after it and the item.
pub open spec fn structure_spec(barcount: int, previous: Seq<StructureItemV>, u: UserStructureItem) -> (int, StructureItemV) {
    match u.item {
        UserStructureItemContent::Chords(l) => {
            let (c, rows) = rows_spec(barcount, strs(l.rows@));
            (
                c,
                StructureItemV::ItemChords(
                    ChordsV {
                        section_title: l.section_title@,
                        section_id: u.id@,
                        section_type: l.section_type@,
                        bar_number: barcount as u32,
                        nb_bars: (c - barcount) as u32,
                        nbcols: nbcols_of(rows) as u32,
                        nbrows: l.rows@.len() as u32,
                        rows: rows,
                    },
                ),
            )
        },
        UserStructureItemContent::Ref(s) => {
            let ic = chords_with_id(previous, s.link@)[0];
            (
                barcount + ic.nb_bars,
                StructureItemV::ItemRef(
                    RefV {
                        section_title: s.section_title@,
                        section_id: u.id@,
                        section_type: ic.section_type,
                        bar_number: barcount as u32,
                        nb_bars: ic.nb_bars,
                    },
                ),
            )
        },
        UserStructureItemContent::HRule(p) => (
            barcount,
            StructureItemV::ItemHRule(
                HRule {
                    percent: match p {
                        Some(x) => x,
                        None => 70,
                    },
                },
            ),
        ),
    }
}

/// A user structure item can be read.
pub open spec fn structure_ok(barcount: int, previous: Seq<StructureItemV>, u: UserStructureItem) -> bool {
    &&& 0 <= barcount <= u32::MAX
    &&& match u.item {
        UserStructureItemContent::Chords(l) => rows_ok(barcount, strs(l.rows@)) && l.rows@.len() <= u32::MAX,
        UserStructureItemContent::Ref(s) => {
            &&& chords_with_id(previous, s.link@).len() == 1
            &&& barcount + chords_with_id(previous, s.link@)[0].nb_bars <= u32::MAX
        },
        _ => true,
    }
}

fn find_linked(previous: &Vec<StructureItem>, link: &String) -> (r: usize)
    requires
        chords_with_id(items_view(previous@), link@).len() == 1,
    ensures
        r < previous@.len(),
        (previous@[r as int]@ matches StructureItemV::ItemChords(c) && c == chords_with_id(
            items_view(previous@),
            link@,
        )[0]),
{
    let ghost pv = items_view(previous@);
    let mut found: usize = 0;
    let mut count: usize = 0;
    let mut i: usize = 0;
    while i < previous.len()
        invariant
            pv == items_view(previous@),
            chords_with_id(pv, link@).len() == 1,
            i <= previous@.len(),
            count as int == chords_with_id(pv.subrange(0, i as int), link@).len(),
            count <= 1,
            count == 1 ==> (found < i && (previous@[found as int]@ matches StructureItemV::ItemChords(c)
                && c == chords_with_id(pv.subrange(0, i as int), link@)[0])),
        decreases previous@.len() - i,
    {
        proof {
            lemma_chords_with_id_prefix(pv, link@, i + 1);
            assert(pv.subrange(0, i + 1).drop_last() =~= pv.subrange(0, i as int));
            assert(pv[i as int] == previous@[i as int]@);
        }
        match &previous[i].item {
            StructureItemContent::ItemChords(ic) => {
                if str_eq(ic.section_id.as_str(), link.as_str()) {
                    found = i;
                    count = count + 1;
                }
            },
            _ => {},
        }
        i = i + 1;
    }
    assert(pv.subrange(0, previous@.len() as int) =~= pv);
    found
}

/// Reads one item of a user song structure that starts at bar `barcount`,
/// after the items `previous`.
pub fn structure_of_structure(
    barcount: u32,
    previous: &Vec<StructureItem>,
    u: &UserStructureItem,
) -> (r: (u32, StructureItem))
    requires
        structure_ok(barcount as int, items_view(previous@), *u),
    ensures
        r.0 as int == structure_spec(barcount as int, items_view(previous@), *u).0,
        r.1@ == structure_spec(barcount as int, items_view(previous@), *u).1,
{
    match &u.item {
        UserStructureItemContent::Chords(l) => {
            let (new_barcount, rows) = rows_of_userchordsection(barcount, l);
            proof { lemma_rows_count(barcount as int, strs(l.rows@)); }
            let (nb_bars, nbcols) = grid_size(&rows);
            let nbrows = l.rows.len() as u32;
            (
                new_barcount,
                StructureItem {
                    item: StructureItemContent::ItemChords(
                        Chords {
                            section_title: l.section_title.clone(),
                            section_id: u.id.clone(),
                            section_type: l.section_type.clone(),
                            bar_number: barcount,
                            nb_bars,
                            nbcols,
                            nbrows,
                            rows,
                        },
                    ),
                },
            )
        },
        UserStructureItemContent::Ref(s) => {
            let k = find_linked(previous, &s.link);
            match &previous[k].item {
                StructureItemContent::ItemChords(ic) => (
                    barcount + ic.nb_bars,
                    StructureItem {
                        item: StructureItemContent::ItemRef(
                            Ref {
                                section_title: s.section_title.clone(),
                                section_id: u.id.clone(),
                                section_type: ic.section_type.clone(),
                                bar_number: barcount,
                                nb_bars: ic.nb_bars,
                            },
                        ),
                    },
                ),
                _ => {
                    assert(false);
                    (barcount, StructureItem { item: StructureItemContent::ItemHRule(HRule { percent: 0 }) })
                },
            }
        },
        UserStructureItemContent::HRule(p) => (
            barcount,
            StructureItem {
                item: StructureItemContent::ItemHRule(
                    HRule {
                        percent: match p {
                            Some(x) => *x,
                            None => 70,
                        },
                    },
                ),
            },
        ),
    }
}

/// The items of a user song structure read in turn from bar 1.
pub open spec fn structure_fold(items: Seq<UserStructureItem>) -> (int, Seq<StructureItemV>)
    decreases items.len(),
{
    if items.len() == 0 {
        (1, Seq::empty())
    } else {
        let (c, prev) = structure_fold(items.drop_last());
        let (c2, it) = structure_spec(c, prev, items.last());
        (c2, prev.push(it))
    }
}

/// Every item of a user song structure can be read, in turn.
pub open spec fn structure_fold_ok(items: Seq<UserStructureItem>) -> bool
    decreases items.len(),
{
    if items.len() == 0 {
        true
    } else {
        structure_fold_ok(items.drop_last()) && structure_ok(
            structure_fold(items.drop_last()).0,
            structure_fold(items.drop_last()).1,
            items.last(),
        )
    }
}

proof fn lemma_structure_fold_ok_prefix(items: Seq<UserStructureItem>, k: int)
    requires
        structure_fold_ok(items),
        0 <= k <= items.len(),
    ensures
        structure_fold_ok(items.subrange(0, k)),
    decreases items.len() - k,
{
    if k < items.len() {
        lemma_structure_fold_ok_prefix(items, k + 1);
        assert(items.subrange(0, k + 1).drop_last() =~= items.subrange(0, k));
    } else {
        assert(items.subrange(0, k) =~= items);
    }
}

/// The song that a user song describes, built in `song_builddir`.
pub open spec fn song_spec(uconf: UserSong, song_builddir: Seq<char>) -> SongV {
    SongV {
        title: uconf.title@,
        author: uconf.author@,
        pdfname: normalize_spec(uconf.author@ + "--@--"@ + uconf.title@),
        texfiles: strs(uconf.texfiles@),
        builddir: song_builddir,
        lilypondfiles: strs(uconf.lilypondfiles@),
        wavfiles: strs(uconf.wavfiles@),
        date: uconf.date@,
        structure: structure_fold(uconf.structure@).1,
    }
}

/// Builds the song that a user song describes; its bars are numbered from 1.
pub fn song_of_usersong(uconf: UserSong, song_builddir: String) -> (r: Result<Song, ModelError>)
    requires
        structure_fold_ok(uconf.structure@),
    ensures
        r matches Ok(s) && s@ == song_spec(uconf, song_builddir@),
{
    let mut count: u32 = 1;
    let mut structure: Vec<StructureItem> = Vec::new();
    let mut i: usize = 0;
    let ghost items = uconf.structure@;
    assert(items.subrange(0, 0) =~= Seq::<UserStructureItem>::empty());
    while i < uconf.structure.len()
        invariant
            items == uconf.structure@,
            structure_fold_ok(items),
            i <= items.len(),
            count as int == structure_fold(items.subrange(0, i as int)).0,
            items_view(structure@) == structure_fold(items.subrange(0, i as int)).1,
        decreases items.len() - i,
    {
        proof {
            lemma_structure_fold_ok_prefix(items, i + 1);
            assert(items.subrange(0, i + 1).drop_last() =~= items.subrange(0, i as int));
        }
        let (c, it) = structure_of_structure(count, &structure, &uconf.structure[i]);
        let ghost old = structure@;
        structure.push(it);
        assert(items_view(structure@) =~= items_view(old).push(it@));
        count = c;
        i = i + 1;
    }
    assert(items.subrange(0, items.len() as int) =~= items);
    let name = uconf.author.clone().concat("--@--").concat(uconf.title.as_str());
    let song = Song {
        texfiles: copy_strings(&uconf.texfiles),
        author: uconf.author.clone(),
        pdfname: normalize_name(name),
        title: uconf.title.clone(),
        builddir: song_builddir,
        lilypondfiles: copy_strings(&uconf.lilypondfiles),
        wavfiles: copy_strings(&uconf.wavfiles),
        date: uconf.date.clone(),
        structure,
    };
    Ok(song)
}

/// `t` is the id of one of the section types.
pub open spec fn section_known(sections: Seq<Section>, t: Seq<char>) -> bool {
    exists|i: int| 0 <= i < sections.len() && (#[trigger] sections[i]).id@ == t
}

/// The type of the first chord section, from index `i` on, whose type is
/// not a known section type.
pub open spec fn first_unknown_section(items: Seq<StructureItemV>, sections: Seq<Section>, i: int) -> Option<Seq<char>>
    decreases items.len() - i,
{
    if i < 0 || i >= items.len() {
        None
    } else {
        match items[i] {
            StructureItemV::ItemChords(c) => if section_known(sections, c.section_type) {
                first_unknown_section(items, sections, i + 1)
            } else {
                Some(c.section_type)
            },
            _ => first_unknown_section(items, sections, i + 1),
        }
    }
}

fn section_known_exec(sections: &Vec<Section>, t: &String) -> (r: bool)
    ensures
        r == section_known(sections@, t@),
{
    let mut i: usize = 0;
    while i < sections.len()
        invariant
            i <= sections@.len(),
            forall|j: int| 0 <= j < i ==> (#[trigger] sections@[j]).id@ != t@,
        decreases sections@.len() - i,
    {
        if str_eq(sections[i].id.as_str(), t.as_str()) {
            return true;
        }
        i = i + 1;
    }
    false
}

/// Checks that every chord section of a song has a known section type.
pub fn check_section_types(sections: &Vec<Section>, song: &Song) -> (r: Result<(), ModelError>)
    ensures
        match first_unknown_section(items_view(song.structure@), sections@, 0) {
            None => r is Ok,
            Some(t) => r matches Err(e) && e@ == ModelErrorV::UnknownSectionType(t),
        },
{
    let ghost iv = items_view(song.structure@);
    let mut i: usize = 0;
    while i < song.structure.len()
        invariant
            iv == items_view(song.structure@),
            i <= song.structure@.len(),
            first_unknown_section(iv, sections@, i as int) == first_unknown_section(iv, sections@, 0),
        decreases song.structure@.len() - i,
    {
        assert(iv[i as int] == song.structure@[i as int]@);
        match &song.structure[i].item {
            StructureItemContent::ItemChords(c) => {
                if !section_known_exec(sections, &c.section_type) {
                    return Err(ModelError::UnknownSectionType(c.section_type.clone()));
                }
            },
            _ => {},
        }
        i = i + 1;
    }
    Ok(())
}

/// The book that a user book describes, built in `buildroot/books/TITLE`.
pub open spec fn book_spec(buildroot: Seq<char>, uconf: UserBook) -> BookV {
    BookV {
        title: uconf.title@,
        songs: uconf.songs@.map_values(|s: crate::config::input_model::UserBookSong| (s.author@, s.title@)),
        builddir: push_spec(push_spec(buildroot, "books"@), uconf.title@),
    }
}

/// Builds the book that a user book describes.
pub fn decode_book(buildroot: &String, uconf: UserBook) -> (r: Book)
    ensures
        r@ == book_spec(buildroot@, uconf),
{
    let books = path_push(buildroot.as_str(), "books");
    let builddir = path_push(books.as_str(), uconf.title.as_str());
    let mut songs: Vec<BookSong> = Vec::new();
    let mut i: usize = 0;
    while i < uconf.songs.len()
        invariant
            i <= uconf.songs@.len(),
            songs@.map_values(|s: BookSong| (s.author@, s.title@)) == uconf.songs@.map_values(
                |s: crate::config::input_model::UserBookSong| (s.author@, s.title@),
            ).subrange(0, i as int),
        decreases uconf.songs@.len() - i,
    {
        let b = BookSong { title: uconf.songs[i].title.clone(), author: uconf.songs[i].author.clone() };
        let ghost old = songs@;
        songs.push(b);
        assert(songs@.map_values(|s: BookSong| (s.author@, s.title@)) =~= old.map_values(
            |s: BookSong| (s.author@, s.title@),
        ).push((b.author@, b.title@)));
        i = i + 1;
        assert(songs@.map_values(|s: BookSong| (s.author@, s.title@)) =~= uconf.songs@.map_values(
            |s: crate::config::input_model::UserBookSong| (s.author@, s.title@),
        ).subrange(0, i as int));
    }
    assert(uconf.songs@.map_values(|s: crate::config::input_model::UserBookSong| (s.author@, s.title@)).subrange(
        0,
        uconf.songs@.len() as int,
    ) =~= uconf.songs@.map_values(|s: crate::config::input_model::UserBookSong| (s.author@, s.title@)));
    Book { title: uconf.title, songs, builddir }
}

/// Where a song read from `.../AUTHOR/TITLE/song.json` is built:
/// `buildroot/songs/AUTHOR/TITLE`.
pub open spec fn song_builddir_spec(buildroot: Seq<char>, filepath: Seq<char>) -> Seq<char> {
    let title_dir = parent_spec(filepath)->Some_0;
    let author_dir = parent_spec(title_dir)->Some_0;
    push_spec(
        push_spec(push_spec(buildroot, "songs"@), file_name_spec(author_dir)->Some_0),
        file_name_spec(title_dir)->Some_0,
    )
}

/// The song file lies in a TITLE directory inside an AUTHOR directory.
pub open spec fn song_file_placed(filepath: Seq<char>) -> bool {
    &&& parent_spec(filepath) is Some
    &&& file_name_spec(parent_spec(filepath)->Some_0) is Some
    &&& parent_spec(parent_spec(filepath)->Some_0) is Some
    &&& file_name_spec(parent_spec(parent_spec(filepath)->Some_0)->Some_0) is Some
}

/// Builds the song that the user song `uconf`, read from `filepath`,
/// describes, and checks its section types.
pub fn decode_song(
    buildroot: &String,
    sections: &Vec<Section>,
    filepath: &String,
    uconf: UserSong,
) -> (r: Result<Song, ModelError>)
    requires
        song_file_placed(filepath@),
        structure_fold_ok(uconf.structure@),
    ensures
        match first_unknown_section(song_spec(uconf, song_builddir_spec(buildroot@, filepath@)).structure, sections@, 0) {
            Some(t) => r matches Err(e) && e@ == ModelErrorV::UnknownSectionType(t),
            None => r matches Ok(s) && s@ == song_spec(uconf, song_builddir_spec(buildroot@, filepath@)),
        },
{
    let title_dir = match path_parent(filepath.as_str()) {
        Some(d) => d,
        None => {
            return Err(ModelError::NoParent(filepath.clone()));
        },
    };
    let author_dir = match path_parent(title_dir.as_str()) {
        Some(d) => d,
        None => {
            return Err(ModelError::NoParent(title_dir));
        },
    };
    let parent_title = match path_file_name(title_dir.as_str()) {
        Some(n) => n,
        None => {
            return Err(ModelError::NoParent(title_dir));
        },
    };
    let parent_author = match path_file_name(author_dir.as_str()) {
        Some(n) => n,
        None => {
            return Err(ModelError::NoParent(author_dir));
        },
    };
    let songs_dir = path_push(buildroot.as_str(), "songs");
    let a = path_push(songs_dir.as_str(), parent_author.as_str());
    let song_builddir = path_push(a.as_str(), parent_title.as_str());
    let song = match song_of_usersong(uconf, song_builddir) {
        Ok(s) => s,
        Err(e) => {
            return Err(e);
        },
    };
    match check_section_types(sections, &song) {
        Ok(()) => Ok(song),
        Err(e) => Err(e),
    }
}

} // verus!
