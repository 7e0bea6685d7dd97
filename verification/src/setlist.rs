//! The set lists of a book: its table of contents split in pages, with the
//! duration of each song and the running total. The durations of the songs
//! are given in whole seconds.
use vstd::prelude::*;
use crate::numbers::{decimal, decimal_spec};
use crate::text::push_char;
use vstd::string::StrSliceExecFns;

verus! {

/// The positions and sizes of the pages of a table of contents of `n`
/// songs, `per_page` songs to a page (the last page takes what is left).
pub open spec fn pages_spec(n: nat, per_page: nat, offset: nat) -> Seq<(int, int)>
    decreases (if offset >= n {
        0
    } else {
        n - offset
    }),
{
    if per_page == 0 || offset >= n {
        Seq::empty()
    } else {
        seq![(offset as int, if offset + per_page > n { n - offset } else { per_page as int })] + pages_spec(
            n,
            per_page,
            offset + per_page,
        )
    }
}

/// The pages of a table of contents of `nb_songs` songs, `per_page` songs
/// to a page: the position of the first song of each page and the number of
/// songs on it.
pub fn toc_pages(nb_songs: usize, per_page: usize) -> (r: Vec<(usize, usize)>)
    requires
        per_page > 0 || nb_songs == 0,
    ensures
        r@.map_values(|p: (usize, usize)| (p.0 as int, p.1 as int)) == pages_spec(nb_songs as nat, per_page as nat, 0),
{
    let mut out: Vec<(usize, usize)> = Vec::new();
    let mut offset: usize = 0;
    while offset < nb_songs
        invariant
            per_page > 0 || nb_songs == 0,
            out@.map_values(|p: (usize, usize)| (p.0 as int, p.1 as int)) + pages_spec(
                nb_songs as nat,
                per_page as nat,
                offset as nat,
            ) == pages_spec(nb_songs as nat, per_page as nat, 0),
        decreases nb_songs - offset,
    {
        let l = if per_page > nb_songs - offset {
            nb_songs - offset
        } else {
            per_page
        };
        let ghost before = out@.map_values(|p: (usize, usize)| (p.0 as int, p.1 as int));
        out.push((offset, l));
        proof {
            assert(out@.map_values(|p: (usize, usize)| (p.0 as int, p.1 as int)) =~= before.push(
                (offset as int, l as int),
            ));
            assert(before.push((offset as int, l as int)) + pages_spec(
                nb_songs as nat,
                per_page as nat,
                (offset + per_page) as nat,
            ) =~= before + pages_spec(nb_songs as nat, per_page as nat, offset as nat));
        }
        if per_page > nb_songs - offset {
            offset = nb_songs;
            proof {
                assert(pages_spec(nb_songs as nat, per_page as nat, offset as nat) =~= Seq::<(int, int)>::empty());
            }
            assert(out@.map_values(|p: (usize, usize)| (p.0 as int, p.1 as int)) =~= pages_spec(
                nb_songs as nat,
                per_page as nat,
                0,
            ));
        } else {
            offset = offset + per_page;
        }
    }
    proof {
        assert(pages_spec(nb_songs as nat, per_page as nat, offset as nat) =~= Seq::<(int, int)>::empty());
        assert(out@.map_values(|p: (usize, usize)| (p.0 as int, p.1 as int)) =~= pages_spec(
            nb_songs as nat,
            per_page as nat,
            0,
        ));
    }
    out
}

/// The file of the set list page whose first song is at `offset`.
pub open spec fn setlist_file_spec(offset: nat) -> Seq<char> {
    "book-setlist-"@ + decimal_spec(offset) + ".tikz"@
}

/// The files of the set list pages of a book, one per page, in order.
pub fn setlist_files(nb_songs: usize, per_page: usize) -> (r: Vec<String>)
    requires
        per_page > 0 || nb_songs == 0,
    ensures
        r@.len() == pages_spec(nb_songs as nat, per_page as nat, 0).len(),
        forall|i: int|
            0 <= i < r@.len() ==> (#[trigger] r@[i])@ == setlist_file_spec(
                pages_spec(nb_songs as nat, per_page as nat, 0)[i].0 as nat,
            ),
{
    let pages = toc_pages(nb_songs, per_page);
    let ghost ps = pages_spec(nb_songs as nat, per_page as nat, 0);
    let mut out: Vec<String> = Vec::new();
    let mut i: usize = 0;
    while i < pages.len()
        invariant
            ps == pages_spec(nb_songs as nat, per_page as nat, 0),
            pages@.map_values(|p: (usize, usize)| (p.0 as int, p.1 as int)) == ps,
            i <= pages@.len(),
            out@.len() == i,
            forall|j: int| 0 <= j < i ==> (#[trigger] out@[j])@ == setlist_file_spec(ps[j].0 as nat),
        decreases pages@.len() - i,
    {
        let (offset, _) = pages[i];
        assert(ps[i as int].0 == offset as int);
        let name = String::from_str("book-setlist-").concat(decimal(offset as u64).as_str()).concat(".tikz");
        out.push(name);
        i = i + 1;
    }
    out
}

// ------------------------------------------------------------ durations

/// A text of at least two characters, padded on the left with `c`.
pub open spec fn pad2(s: Seq<char>, c: char) -> Seq<char> {
    if s.len() < 2 {
        seq![c] + s
    } else {
        s
    }
}

/// A duration as the set list writes it: minutes (padded with a space to
/// two characters), a quote, seconds (two digits), a double quote.
pub open spec fn duration_text_spec(secs: nat) -> Seq<char> {
    pad2(decimal_spec(secs / 60), ' ') + "'"@ + pad2(decimal_spec(secs % 60), '0') + "\""@
}

fn pad2_exec(s: String, c: char) -> (r: String)
    ensures
        r@ == pad2(s@, c),
{
    if s.as_str().unicode_len() < 2 {
        let mut t = String::new();
        push_char(&mut t, c);
        t.concat(s.as_str())
    } else {
        s
    }
}

/// A duration in whole seconds as the set list writes it.
pub fn duration_text(secs: u64) -> (r: String)
    ensures
        r@ == duration_text_spec(secs as nat),
{
    let m = pad2_exec(decimal(secs / 60), ' ');
    let s = pad2_exec(decimal(secs % 60), '0');
    m.concat("'").concat(s.as_str()).concat("\"")
}

/// The total of some durations.
pub open spec fn total(ds: Seq<u64>) -> nat
    decreases ds.len(),
{
    if ds.len() == 0 {
        0
    } else {
        total(ds.drop_last()) + ds.last() as nat
    }
}

/// The largest number of whole seconds that a `chrono::TimeDelta` holds.
pub open spec fn max_delta_secs() -> nat {
    9223372036854775
}

proof fn lemma_total_prefix(ds: Seq<u64>, k: int)
    requires
        0 <= k <= ds.len(),
    ensures
        total(ds.take(k)) <= total(ds),
    decreases ds.len() - k,
{
    if k < ds.len() {
        lemma_total_prefix(ds, k + 1);
        assert(ds.take(k + 1).drop_last() =~= ds.take(k));
    } else {
        assert(ds.take(k) =~= ds);
    }
}

/// For each song of a set list, its duration and the running total up to
/// it, as the set list writes them.
pub fn setlist_times(durations: &Vec<u64>) -> (r: Vec<(String, String)>)
    requires
        total(durations@) <= max_delta_secs(),
    ensures
        r@.len() == durations@.len(),
        forall|i: int|
            0 <= i < r@.len() ==> (#[trigger] r@[i]).0@ == duration_text_spec(durations@[i] as nat) && r@[i].1@
                == duration_text_spec(total(durations@.take(i + 1))),
{
    let mut out: Vec<(String, String)> = Vec::new();
    let mut cumul: u64 = 0;
    let mut i: usize = 0;
    while i < durations.len()
        invariant
            total(durations@) <= max_delta_secs(),
            i <= durations@.len(),
            cumul == total(durations@.take(i as int)),
            out@.len() == i,
            forall|j: int|
                0 <= j < i ==> (#[trigger] out@[j]).0@ == duration_text_spec(durations@[j] as nat) && out@[j].1@
                    == duration_text_spec(total(durations@.take(j + 1))),
        decreases durations@.len() - i,
    {
        proof {
            assert(durations@.take(i + 1).drop_last() =~= durations@.take(i as int));
            lemma_total_prefix(durations@, i + 1);
        }
        let d = durations[i];
        cumul = cumul + d;
        out.push((duration_text(d), duration_text(cumul)));
        i = i + 1;
    }
    out
}

} // verus!
