//! Whether a user song can be read at all: every bar of every row parses,
//! every reference links to exactly one earlier chord section, and the bar
//! counts fit in 32 bits. Reading a song that fails this is refused by the
//! readers of `config`; these checks let a caller find out beforehand.
use vstd::prelude::*;
use crate::model::config::{
    bar_of_string, bar_spec, bars_of, bars_readable, chords_with_id, lemma_rows_ok_prefix,
    lemma_structure_fold_ok_prefix, repeat_and_bars, repeat_and_tail, repeat_of, row_ok, row_spec, rows_ok, rows_spec,
    song_file_placed, song_readable, structure_fold, structure_fold_ok, structure_of_structure,
    structure_ok, time_signature_of_string,
};
use crate::model::input_model::{copy_opt_string, UserSong, UserStructureItem, UserStructureItemContent};
use crate::model::types::{bars_view, items_view, strs, Bar, StructureItem, StructureItemContent, StructureItemV};
use crate::paths::{file_name_spec, parent_spec, path_file_name, path_parent};
use crate::text::{lemma_split_nonempty, split_char, split_spec, str_eq, views};

verus! {

/// Whether a chord row starting at bar `barcount` can be read, and if so
/// the bar count after it.
pub fn row_readable(barcount: u32, s: &String) -> (r: Option<u32>)
    ensures
        r is Some <==> row_ok(barcount as int, s@),
        r matches Some(c) ==> c as int == row_spec(barcount as int, s@).0,
{
    let pieces = split_char(s.as_str(), '|');
    let ghost ps = split_spec(s@, '|');
    proof {
        lemma_split_nonempty(s@, '|');
    }
    let mut bars: Vec<Bar> = Vec::new();
    let mut i: usize = 0;
    while i < pieces.len()
        invariant
            views(pieces@) == ps,
            ps == split_spec(s@, '|'),
            i <= pieces@.len(),
            forall|j: int| 0 <= j < i ==> (#[trigger] bar_spec(ps[j])) is Ok,
            bars_view(bars@) == bars_of(ps).subrange(0, i as int),
        decreases pieces@.len() - i,
    {
        assert(ps[i as int] == pieces@[i as int]@);
        match bar_of_string(pieces[i].clone()) {
            Ok(b) => {
                let ghost old_bars = bars@;
                bars.push(b);
                assert(bars_view(bars@) =~= bars_view(old_bars).push(b@));
            },
            Err(_) => {
                assert(!bars_readable(s@));
                return None;
            },
        }
        i = i + 1;
        assert(bars_view(bars@) =~= bars_of(ps).subrange(0, i as int));
    }
    assert(bars_of(ps).subrange(0, pieces@.len() as int) =~= bars_of(ps));
    assert(bars_readable(s@));
    let ghost all = bars_of(ps);
    let nb = bars.len();
    let (repeat, n): (u64, u64) = if nb == 0 {
        (1, 0)
    } else {
        let last = &bars[nb - 1];
        let nc = last.chords.len();
        assert(all.last() == last@);
        if nc == 0 {
            (1, (nb - 1) as u64)
        } else {
            let c = &last.chords[nc - 1];
            assert(c@ == all.last().chords.last());
            proof {
                reveal_strlit("xdeux");
                reveal_strlit("xtrois");
                reveal_strlit("xquatre");
                reveal_strlit("xcinq");
            }
            if str_eq(c.as_str(), "xdeux") {
                (2, (nb - 1) as u64)
            } else if str_eq(c.as_str(), "xtrois") {
                (3, (nb - 1) as u64)
            } else if str_eq(c.as_str(), "xquatre") {
                (4, (nb - 1) as u64)
            } else if str_eq(c.as_str(), "xcinq") {
                (5, (nb - 1) as u64)
            } else {
                assert(repeat_of(c@) == 0);
                (1, nb as u64)
            }
        }
    };
    assert(repeat == repeat_and_tail(all).0);
    assert(n == repeat_and_tail(all).1.len());
    let n: u64 = if n > 0 && bars[0].chords.len() == 0 && bars[0].time_signature.is_none() {
        assert(repeat_and_tail(all).1[0] == all[0]);
        assert(all[0] == bars@[0]@);
        n - 1
    } else {
        proof {
            if n > 0 {
                assert(repeat_and_tail(all).1[0] == all[0]);
                assert(all[0] == bars@[0]@);
            }
        }
        n
    };
    assert(repeat == repeat_and_bars(all).0);
    assert(n == repeat_and_bars(all).1.len());
    if n > 4294967295 {
        return None;
    }
    assert(1 <= repeat <= 5);
    assert(repeat * n <= 5 * 4294967295) by (nonlinear_arith)
        requires
            repeat <= 5,
            n <= 4294967295,
    ;
    let count: u64 = barcount as u64 + repeat * n;
    if count > 4294967295 {
        return None;
    }
    Some(count as u32)
}

/// Whether the chord rows of a section starting at bar `barcount` can be
/// read in turn, and if so the bar count after them.
pub fn rows_readable(barcount: u32, rows: &Vec<String>) -> (r: Option<u32>)
    ensures
        r is Some <==> rows_ok(barcount as int, strs(rows@)),
        r matches Some(c) ==> c as int == rows_spec(barcount as int, strs(rows@)).0,
{
    let ghost rs = strs(rows@);
    let mut count = barcount;
    let mut i: usize = 0;
    assert(rs.subrange(0, 0) =~= Seq::<Seq<char>>::empty());
    while i < rows.len()
        invariant
            rs == strs(rows@),
            i <= rs.len(),
            rows_ok(barcount as int, rs.subrange(0, i as int)),
            count as int == rows_spec(barcount as int, rs.subrange(0, i as int)).0,
        decreases rs.len() - i,
    {
        let ghost nxt = rs.subrange(0, i + 1);
        assert(nxt.drop_last() =~= rs.subrange(0, i as int));
        assert(rs[i as int] == rows@[i as int]@);
        match row_readable(count, &rows[i]) {
            Some(c) => {
                count = c;
            },
            None => {
                proof {
                    if rows_ok(barcount as int, rs) {
                        lemma_rows_ok_prefix(barcount as int, rs, i + 1);
                    }
                }
                return None;
            },
        }
        i = i + 1;
    }
    assert(rs.subrange(0, rs.len() as int) =~= rs);
    Some(count)
}

/// The chord sections with this id among some items: how many there are,
/// and the number of bars of the first.
fn linked_chords(items: &Vec<StructureItem>, link: &String) -> (r: (usize, u32))
    ensures
        r.0 == chords_with_id(items_view(items@), link@).len(),
        r.0 > 0 ==> r.1 == chords_with_id(items_view(items@), link@)[0].nb_bars,
{
    let ghost iv = items_view(items@);
    let mut n: usize = 0;
    let mut first: u32 = 0;
    let mut j: usize = 0;
    while j < items.len()
        invariant
            iv == items_view(items@),
            j <= items@.len(),
            n == chords_with_id(iv.take(j as int), link@).len(),
            n <= j,
            n > 0 ==> first == chords_with_id(iv.take(j as int), link@)[0].nb_bars,
        decreases items@.len() - j,
    {
        proof {
            assert(iv.take(j + 1).drop_last() =~= iv.take(j as int));
            assert(iv[j as int] == items@[j as int]@);
        }
        match &items[j].item {
            StructureItemContent::ItemChords(c) => {
                if str_eq(c.section_id.as_str(), link.as_str()) {
                    if n == 0 {
                        first = c.nb_bars;
                    }
                    n = n + 1;
                }
            },
            _ => {},
        }
        j = j + 1;
    }
    assert(iv.take(j as int) =~= iv);
    (n, first)
}

/// Whether the items of a user song structure can be read in turn.
pub fn structure_readable(items: &Vec<UserStructureItem>) -> (r: bool)
    ensures
        r == structure_fold_ok(items@.map_values(|u: UserStructureItem| u@)),
{
    let ghost iv = items@.map_values(|u: UserStructureItem| u@);
    let mut count: u32 = 1;
    let mut out: Vec<StructureItem> = Vec::new();
    let mut i: usize = 0;
    assert(iv.subrange(0, 0) =~= Seq::<crate::model::input_model::UserStructureItemV>::empty());
    while i < items.len()
        invariant
            iv == items@.map_values(|u: UserStructureItem| u@),
            i <= items@.len(),
            structure_fold_ok(iv.subrange(0, i as int)),
            count as int == structure_fold(iv.subrange(0, i as int)).0,
            items_view(out@) == structure_fold(iv.subrange(0, i as int)).1,
        decreases items@.len() - i,
    {
        let ghost pre = iv.subrange(0, i as int);
        let ghost nxt = iv.subrange(0, i + 1);
        proof {
            assert(nxt.drop_last() =~= pre);
            assert(iv[i as int] == items@[i as int]@);
        }
        let u = &items[i];
        let ok = match &u.item {
            UserStructureItemContent::Chords(l) => rows_readable(count, &l.rows).is_some(),
            UserStructureItemContent::Ref(r) => {
                let (n, nb) = linked_chords(&out, &r.link);
                n == 1 && (count as u64 + nb as u64) <= 4294967295
            },
            _ => true,
        };
        if !ok {
            proof {
                assert(!structure_ok(count as int, items_view(out@), u@));
                if structure_fold_ok(iv) {
                    lemma_structure_fold_ok_prefix(iv, i + 1);
                }
            }
            return false;
        }
        let (c, it) = structure_of_structure(count, out.as_slice(), u);
        let ghost old = out@;
        out.push(it);
        assert(items_view(out@) =~= items_view(old).push(it@));
        count = c;
        i = i + 1;
    }
    assert(iv.subrange(0, items@.len() as int) =~= iv);
    true
}

/// Whether reading a user song from the file `song_srcdir` gets through
/// its structure: it does whenever the song gets that far.
pub fn song_readable_check(uconf: &UserSong, song_srcdir: &String) -> (r: bool)
    ensures
        r == song_readable(uconf@, song_srcdir@),
{
    let has_parent = path_parent(song_srcdir.as_str()).is_some();
    let ts_ok = time_signature_of_string(copy_opt_string(&uconf.info.time_signature)).is_ok();
    if has_parent && ts_ok {
        structure_readable(&uconf.structure)
    } else {
        true
    }
}

/// Whether a song file lies in a TITLE directory inside an AUTHOR
/// directory.
pub fn song_file_placed_check(filepath: &String) -> (r: bool)
    ensures
        r == song_file_placed(filepath@),
{
    match path_parent(filepath.as_str()) {
        None => false,
        Some(t) => {
            if path_file_name(t.as_str()).is_none() {
                return false;
            }
            match path_parent(t.as_str()) {
                None => false,
                Some(a) => path_file_name(a.as_str()).is_some(),
            }
        },
    }
}

} // verus!
