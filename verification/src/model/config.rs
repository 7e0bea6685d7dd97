//! Turning the user's song and book descriptions into the model: the
//! chord-grid grammar (bars, rows, repeats, time signatures, raw latex),
//! bar numbering, references between sections, and books.
use vstd::prelude::*;
use crate::error::{ModelError, ModelErrorV};
use crate::helpers::{normalize_pdf_name, pdf_name_spec};
use crate::model::input_model::{
    UserBook, UserBookWithPath, UserChordSection, UserRef, UserSong, UserSongWithPath,
    UserStructureItem, UserStructureItemContent, UserStructureItemV, UserContentV, UserSongV, copy_opt_string,
};
use crate::paths::{file_name_spec, opt_view, parent_spec, path_file_name, path_parent, path_push, push_spec};
use crate::model::types::{
    Bar, BarV, Book, BookSong, BookSongV, BookV, Chords, ChordsV, HRule, Ref, RefV, Row, RowV,
    Section, Song, SongV, StructureItem, StructureItemContent, StructureItemV, TimeSignature,
    bars_view, copy_strings, items_view, opt_str, rows_view, strs,
};
use crate::text::{
    chars_of, last_index_exec, last_index_in, lemma_last_index_in, lemma_line_end, line_end,
    line_end_exec, matches_at, occurs_at, parse_u8, parse_u8_spec, replace_all, replace_spec,
    split_char, split_spec, string_of_range, str_eq, views, lemma_split_nonempty,
    first_index_exec, first_index_in, lemma_first_index_in, lemma_replace_char_absent, lemma_replace_char_keeps,
};

verus! {

// ---------------------------------------------------------------- chords

/// The spelling of a chord in the generated latex: digits become words
/// and spaces disappear.
pub open spec fn chord_spec(s: Seq<char>) -> Seq<char> {
    replace_spec(
        replace_spec(
            replace_spec(
                replace_spec(
                    replace_spec(replace_spec(s, "7"@, "sept"@), " "@, ""@),
                    "2"@,
                    "deux"@,
                ),
                "3"@,
                "trois"@,
            ),
            "4"@,
            "quatre"@,
        ),
        "5"@,
        "cinq"@,
    )
}

/// Spells a chord for latex: "7" becomes "sept", spaces are removed, then
/// "2", "3", "4", "5" become "deux", "trois", "quatre", "cinq".
pub fn chord_of_string(s: String) -> (r: String)
    ensures
        r@ == chord_spec(s@),
{
    proof {
        reveal_strlit("7");
        reveal_strlit(" ");
        reveal_strlit("2");
        reveal_strlit("3");
        reveal_strlit("4");
        reveal_strlit("5");
    }
    let a = replace_all(s.as_str(), "7", "sept");
    let b = replace_all(a.as_str(), " ", "");
    let c = replace_all(b.as_str(), "2", "deux");
    let d = replace_all(c.as_str(), "3", "trois");
    let e = replace_all(d.as_str(), "4", "quatre");
    replace_all(e.as_str(), "5", "cinq")
}

/// The literals of the chord spelling, character by character.
proof fn reveal_chord_words()
    ensures
        "7"@ == seq!['7'],
        " "@ == seq![' '],
        "2"@ == seq!['2'],
        "3"@ == seq!['3'],
        "4"@ == seq!['4'],
        "5"@ == seq!['5'],
        "sept"@ == seq!['s', 'e', 'p', 't'],
        ""@ == Seq::<char>::empty(),
        "deux"@ == seq!['d', 'e', 'u', 'x'],
        "trois"@ == seq!['t', 'r', 'o', 'i', 's'],
        "quatre"@ == seq!['q', 'u', 'a', 't', 'r', 'e'],
        "cinq"@ == seq!['c', 'i', 'n', 'q'],
{
    reveal_strlit("7");
    reveal_strlit(" ");
    reveal_strlit("2");
    reveal_strlit("3");
    reveal_strlit("4");
    reveal_strlit("5");
    reveal_strlit("sept");
    reveal_strlit("");
    reveal_strlit("deux");
    reveal_strlit("trois");
    reveal_strlit("quatre");
    reveal_strlit("cinq");
    assert("7"@ =~= seq!['7']);
    assert(" "@ =~= seq![' ']);
    assert("2"@ =~= seq!['2']);
    assert("3"@ =~= seq!['3']);
    assert("4"@ =~= seq!['4']);
    assert("5"@ =~= seq!['5']);
    assert("sept"@ =~= seq!['s', 'e', 'p', 't']);
    assert(""@ =~= Seq::<char>::empty());
    assert("deux"@ =~= seq!['d', 'e', 'u', 'x']);
    assert("trois"@ =~= seq!['t', 'r', 'o', 'i', 's']);
    assert("quatre"@ =~= seq!['q', 'u', 'a', 't', 'r', 'e']);
    assert("cinq"@ =~= seq!['c', 'i', 'n', 'q']);
}

/// A character that the chord spelling replaces.
pub open spec fn chord_mark(c: char) -> bool {
    c == '7' || c == ' ' || c == '2' || c == '3' || c == '4' || c == '5'
}

/// A spelled chord holds no space and none of the digits 2, 3, 4, 5, 7, so
/// spelling it again changes nothing.
pub proof fn lemma_chord_idempotent(s: Seq<char>)
    ensures
        forall|k: int| 0 <= k < chord_spec(s).len() ==> !chord_mark(#[trigger] chord_spec(s)[k]),
        chord_spec(chord_spec(s)) == chord_spec(s),
{
    reveal_chord_words();
    let p1 = |c: char| c != '7';
    lemma_replace_char_keeps(s, '7', "sept"@, p1);
    let s1 = replace_spec(s, seq!['7'], "sept"@);
    let p2 = |c: char| c != '7' && c != ' ';
    assert forall|i: int| 0 <= i < s1.len() implies s1[i] == ' ' || p2(s1[i]) by {
        assert(p1(s1[i]));
    }
    lemma_replace_char_keeps(s1, ' ', ""@, p2);
    let s2 = replace_spec(s1, seq![' '], ""@);
    let p3 = |c: char| c != '7' && c != ' ' && c != '2';
    assert forall|i: int| 0 <= i < s2.len() implies s2[i] == '2' || p3(s2[i]) by {
        assert(p2(s2[i]));
    }
    lemma_replace_char_keeps(s2, '2', "deux"@, p3);
    let s3 = replace_spec(s2, seq!['2'], "deux"@);
    let p4 = |c: char| c != '7' && c != ' ' && c != '2' && c != '3';
    assert forall|i: int| 0 <= i < s3.len() implies s3[i] == '3' || p4(s3[i]) by {
        assert(p3(s3[i]));
    }
    lemma_replace_char_keeps(s3, '3', "trois"@, p4);
    let s4 = replace_spec(s3, seq!['3'], "trois"@);
    let p5 = |c: char| c != '7' && c != ' ' && c != '2' && c != '3' && c != '4';
    assert forall|i: int| 0 <= i < s4.len() implies s4[i] == '4' || p5(s4[i]) by {
        assert(p4(s4[i]));
    }
    lemma_replace_char_keeps(s4, '4', "quatre"@, p5);
    let s5 = replace_spec(s4, seq!['4'], "quatre"@);
    let p6 = |c: char| !chord_mark(c);
    assert forall|i: int| 0 <= i < s5.len() implies s5[i] == '5' || p6(s5[i]) by {
        assert(p5(s5[i]));
    }
    lemma_replace_char_keeps(s5, '5', "cinq"@, p6);
    let t = replace_spec(s5, seq!['5'], "cinq"@);
    assert(t == chord_spec(s));
    assert forall|k: int| 0 <= k < t.len() implies !chord_mark(#[trigger] t[k]) by {
        assert(p6(t[k]));
    }
    assert forall|k: int| 0 <= k < t.len() implies t[k] != '7' by { assert(!chord_mark(t[k])); }
    lemma_replace_char_absent(t, '7', "sept"@);
    assert forall|k: int| 0 <= k < t.len() implies t[k] != ' ' by { assert(!chord_mark(t[k])); }
    lemma_replace_char_absent(t, ' ', ""@);
    assert forall|k: int| 0 <= k < t.len() implies t[k] != '2' by { assert(!chord_mark(t[k])); }
    lemma_replace_char_absent(t, '2', "deux"@);
    assert forall|k: int| 0 <= k < t.len() implies t[k] != '3' by { assert(!chord_mark(t[k])); }
    lemma_replace_char_absent(t, '3', "trois"@);
    assert forall|k: int| 0 <= k < t.len() implies t[k] != '4' by { assert(!chord_mark(t[k])); }
    lemma_replace_char_absent(t, '4', "quatre"@);
    assert forall|k: int| 0 <= k < t.len() implies t[k] != '5' by { assert(!chord_mark(t[k])); }
    lemma_replace_char_absent(t, '5', "cinq"@);
}

// ------------------------------------------------------------ bar grammar

/// The opening of a time signature annotation.
pub open spec fn ts_open() -> Seq<char> {
    "time_signature("@
}

/// The opening of a raw latex bar.
pub open spec fn latex_open() -> Seq<char> {
    "{latex "@
}

/// A time signature annotation `time_signature(TOP/LOW)REST` that starts at
/// `p`: the positions of the '/' and of the ')' and the end of the line.
/// TOP and LOW take as much as they can within the line, as a greedy
/// pattern match does: the ')' is the last one of the line and the '/' the
/// last one before it.
pub open spec fn ts_match_at(s: Seq<char>, p: int) -> Option<(int, int, int)> {
    let k = ts_open().len() as int;
    if occurs_at(s, ts_open(), p) {
        let l = line_end(s, p + k);
        let b = last_index_in(s, ')', p + k, l);
        if b < 0 {
            None
        } else {
            let a = last_index_in(s, '/', p + k, b);
            if a < 0 {
                None
            } else {
                Some((a, b, l))
            }
        }
    } else {
        None
    }
}

/// The leftmost time signature annotation at or after `p`.
pub open spec fn first_ts_match(s: Seq<char>, p: int) -> Option<(int, int, int, int)>
    decreases s.len() + 1 - p,
{
    if p < 0 || p > s.len() {
        None
    } else {
        match ts_match_at(s, p) {
            Some(t) => Some((p, t.0, t.1, t.2)),
            None => first_ts_match(s, p + 1),
        }
    }
}

/// A raw latex bar `{latex BODY}` that starts at `q`: the position of its
/// closing '}', the last one of the line.
pub open spec fn latex_match_at(s: Seq<char>, q: int) -> Option<int> {
    let k = latex_open().len() as int;
    if occurs_at(s, latex_open(), q) {
        let e = last_index_in(s, '}', q + k, line_end(s, q + k));
        if e < 0 {
            None
        } else {
            Some(e)
        }
    } else {
        None
    }
}

/// The leftmost raw latex bar at or after `q`.
pub open spec fn first_latex_match(s: Seq<char>, q: int) -> Option<(int, int)>
    decreases s.len() + 1 - q,
{
    if q < 0 || q > s.len() {
        None
    } else {
        match latex_match_at(s, q) {
            Some(e) => Some((q, e)),
            None => first_latex_match(s, q + 1),
        }
    }
}

/// The chords of the words of a bar, in order, without the empty ones.
pub open spec fn chords_of_words(ws: Seq<Seq<char>>) -> Seq<Seq<char>>
    decreases ws.len(),
{
    if ws.len() == 0 {
        Seq::empty()
    } else {
        let r = chords_of_words(ws.drop_last());
        let c = chord_spec(ws.last());
        if c.len() > 0 {
            r.push(c)
        } else {
            r
        }
    }
}

/// The chords written in a bar once any time signature is removed: the body
/// of a raw latex bar, or the spelled words of the bar.
pub open spec fn bar_chords(s: Seq<char>) -> Seq<Seq<char>> {
    match first_latex_match(s, 0) {
        Some((q, e)) => seq![s.subrange(q + latex_open().len(), e)],
        None => chords_of_words(split_spec(s, ' ')),
    }
}

/// The meaning of one bar of a chord row: an optional time signature
/// annotation (whose numbers must be bytes), then either raw latex or
/// space-separated chords.
pub open spec fn bar_spec(s: Seq<char>) -> Result<BarV, ModelErrorV> {
    match first_ts_match(s, 0) {
        Some((p, a, b, l)) => {
            let top = s.subrange(p + ts_open().len(), a);
            let low = s.subrange(a + 1, b);
            let rest = s.subrange(b + 1, l);
            match parse_u8_spec(top) {
                None => Err(ModelErrorV::InvalidNumber(top)),
                Some(t) => match parse_u8_spec(low) {
                    None => Err(ModelErrorV::InvalidNumber(low)),
                    Some(w) => Ok(
                        BarV {
                            chords: bar_chords(rest),
                            time_signature: Some(TimeSignature { top: t, low: w }),
                        },
                    ),
                },
            }
        },
        None => Ok(BarV { chords: bar_chords(s), time_signature: None }),
    }
}

proof fn lemma_ts_match_bounds(s: Seq<char>, p: int)
    requires
        ts_match_at(s, p) is Some,
    ensures
        ({
            let (a, b, l) = ts_match_at(s, p).unwrap();
            0 <= p && p + ts_open().len() <= a < b < l <= s.len()
        }),
{
    let k = ts_open().len() as int;
    lemma_line_end(s, p + k);
    let l = line_end(s, p + k);
    lemma_last_index_in(s, ')', p + k, l);
    let b = last_index_in(s, ')', p + k, l);
    lemma_last_index_in(s, '/', p + k, b);
}

proof fn lemma_first_ts_match_bounds(s: Seq<char>, p: int)
    requires
        first_ts_match(s, p) is Some,
    ensures
        ({
            let (q, a, b, l) = first_ts_match(s, p).unwrap();
            0 <= q && q + ts_open().len() <= a < b < l <= s.len() && ts_match_at(s, q) == Some((a, b, l))
        }),
    decreases s.len() + 1 - p,
{
    if ts_match_at(s, p) is Some {
        lemma_ts_match_bounds(s, p);
    } else {
        lemma_first_ts_match_bounds(s, p + 1);
    }
}

proof fn lemma_first_latex_match_bounds(s: Seq<char>, q: int)
    requires
        first_latex_match(s, q) is Some,
    ensures
        ({
            let (r, e) = first_latex_match(s, q).unwrap();
            0 <= r && r + latex_open().len() <= e < s.len()
        }),
    decreases s.len() + 1 - q,
{
    if latex_match_at(s, q) is Some {
        let k = latex_open().len() as int;
        lemma_line_end(s, q + k);
        lemma_last_index_in(s, '}', q + k, line_end(s, q + k));
    } else {
        lemma_first_latex_match_bounds(s, q + 1);
    }
}

/// The leftmost time signature annotation of `cs`.
fn find_ts(cs: &Vec<char>, open: &Vec<char>) -> (r: Option<(usize, usize, usize, usize)>)
    requires
        open@ == ts_open(),
    ensures
        match r {
            Some((p, a, b, l)) => first_ts_match(cs@, 0) == Some(
                (p as int, a as int, b as int, l as int),
            ),
            None => first_ts_match(cs@, 0) is None,
        },
{
    let n = cs.len();
    let mut p: usize = 0;
    proof { reveal_strlit("time_signature("); reveal_strlit("{latex "); }
    while p < n
        invariant
            n == cs@.len(),
            open@ == ts_open(),
            ts_open().len() > 0,
            p <= n,
            first_ts_match(cs@, p as int) == first_ts_match(cs@, 0),
        decreases n + 1 - p,
    {
        if matches_at(cs, open, p) {
            let k = open.len();
            let l = line_end_exec(cs, p + k);
            proof { lemma_line_end(cs@, p + k); }
            match last_index_exec(cs, ')', p + k, l) {
                None => {},
                Some(b) => {
                    proof { lemma_last_index_in(cs@, ')', (p + k) as int, l as int); }
                    match last_index_exec(cs, '/', p + k, b) {
                        None => {},
                        Some(a) => {
                            return Some((p, a, b, l));
                        },
                    }
                },
            }
        }
        p = p + 1;
    }
    assert(first_ts_match(cs@, (n + 1) as int) is None);
    None
}

/// The leftmost raw latex bar of `cs`.
fn find_latex(cs: &Vec<char>, open: &Vec<char>) -> (r: Option<(usize, usize)>)
    requires
        open@ == latex_open(),
    ensures
        match r {
            Some((q, e)) => first_latex_match(cs@, 0) == Some((q as int, e as int)),
            None => first_latex_match(cs@, 0) is None,
        },
{
    let n = cs.len();
    let mut q: usize = 0;
    proof { reveal_strlit("time_signature("); reveal_strlit("{latex "); }
    while q < n
        invariant
            n == cs@.len(),
            open@ == latex_open(),
            latex_open().len() > 0,
            q <= n,
            first_latex_match(cs@, q as int) == first_latex_match(cs@, 0),
        decreases n + 1 - q,
    {
        if matches_at(cs, open, q) {
            let k = open.len();
            let l = line_end_exec(cs, q + k);
            proof { lemma_line_end(cs@, q + k); }
            match last_index_exec(cs, '}', q + k, l) {
                None => {},
                Some(e) => {
                    return Some((q, e));
                },
            }
        }
        q = q + 1;
    }
    assert(first_latex_match(cs@, (n + 1) as int) is None);
    None
}

/// The chords of the words `ws`, in order, without the empty ones.
fn chords_of_words_exec(ws: Vec<String>) -> (r: Vec<String>)
    ensures
        strs(r@) == chords_of_words(strs(ws@)),
{
    let mut r: Vec<String> = Vec::new();
    let mut i: usize = 0;
    while i < ws.len()
        invariant
            i <= ws@.len(),
            strs(r@) == chords_of_words(strs(ws@).subrange(0, i as int)),
        decreases ws@.len() - i,
    {
        let c = chord_of_string(ws[i].clone());
        let ghost pre = strs(ws@).subrange(0, i as int);
        let ghost nxt = strs(ws@).subrange(0, i + 1);
        assert(nxt.drop_last() =~= pre);
        if c.unicode_len() > 0 {
            r.push(c);
            assert(strs(r@) =~= chords_of_words(pre).push(c@));
        }
        i = i + 1;
    }
    assert(strs(ws@).subrange(0, ws@.len() as int) =~= strs(ws@));
    r
}

/// The chords written in `cs`.
fn bar_chords_exec(cs: &Vec<char>, latex: &Vec<char>) -> (r: Vec<String>)
    requires
        latex@ == latex_open(),
    ensures
        strs(r@) == bar_chords(cs@),
{
    match find_latex(cs, latex) {
        Some((q, e)) => {
            proof { lemma_first_latex_match_bounds(cs@, 0); }
            let body = string_of_range(cs, q + latex.len(), e);
            let mut r: Vec<String> = Vec::new();
            r.push(body);
            assert(strs(r@) =~= seq![body@]);
            r
        },
        None => {
            let s = string_of_range(cs, 0, cs.len());
            assert(cs@.subrange(0, cs@.len() as int) =~= cs@);
            let ws = split_char(s.as_str(), ' ');
            assert(strs(ws@) == views(ws@));
            chords_of_words_exec(ws)
        },
    }
}

/// Reads one bar of a chord row, such as `A Bm7`, `time_signature(3/4)E`
/// or `{latex \tiny{uu}}`.
pub fn bar_of_string(s: String) -> (r: Result<Bar, ModelError>)
    ensures
        match r {
            Ok(b) => bar_spec(s@) == Ok::<BarV, ModelErrorV>(b@),
            Err(e) => bar_spec(s@) == Err::<BarV, ModelErrorV>(e@),
        },
{
    let cs = chars_of(s.as_str());
    let ts = chars_of("time_signature(");
    let latex = chars_of("{latex ");
    match find_ts(&cs, &ts) {
        Some((p, a, b, l)) => {
            proof { lemma_first_ts_match_bounds(cs@, 0); }
            let top_s = string_of_range(&cs, p + ts.len(), a);
            let low_s = string_of_range(&cs, a + 1, b);
            let top = match parse_u8(top_s.as_str()) {
                Some(t) => t,
                None => {
                    return Err(ModelError::InvalidNumber(top_s));
                },
            };
            let low = match parse_u8(low_s.as_str()) {
                Some(w) => w,
                None => {
                    return Err(ModelError::InvalidNumber(low_s));
                },
            };
            let rest_s = string_of_range(&cs, b + 1, l);
            let rest = chars_of(rest_s.as_str());
            let chords = bar_chords_exec(&rest, &latex);
            Ok(Bar { chords, time_signature: Some(TimeSignature { top, low }) })
        },
        None => {
            let chords = bar_chords_exec(&cs, &latex);
            Ok(Bar { chords, time_signature: None })
        },
    }
}


// ------------------------------------------------------------------- rows

/// The meaning of each bar of a row, assuming each can be read.
pub open spec fn bars_of(pieces: Seq<Seq<char>>) -> Seq<BarV> {
    pieces.map_values(|p: Seq<char>| bar_spec(p)->Ok_0)
}

/// Every bar of the row `s` can be read.
pub open spec fn bars_readable(s: Seq<char>) -> bool {
    forall|i: int| 0 <= i < split_spec(s, '|').len() ==> (#[trigger] bar_spec(split_spec(s, '|')[i])) is Ok
}

/// The repeat count that a last chord such as "x2" (spelled "xdeux") asks for, or 0.
pub open spec fn repeat_of(c: Seq<char>) -> u32 {
    if c == "xdeux"@ {
        2
    } else if c == "xtrois"@ {
        3
    } else if c == "xquatre"@ {
        4
    } else if c == "xcinq"@ {
        5
    } else {
        0
    }
}

/// A bar with no chord and no time signature: the blank cell of a row.
pub open spec fn blank_bar(b: BarV) -> bool {
    b.chords.len() == 0 && b.time_signature is None
}

/// The bars without a blank first cell (the one before a leading '|'),
/// which is not a bar.
pub open spec fn drop_blank_first(bars: Seq<BarV>) -> Seq<BarV> {
    if bars.len() > 0 && blank_bar(bars[0]) {
        bars.skip(1)
    } else {
        bars
    }
}

/// The repeat count of a row and the bars it keeps before its first cell
/// is looked at: a last bar without chords is dropped; a last bar whose
/// last chord is a repeat mark gives the count and is dropped; otherwise
/// the row is played once.
pub open spec fn repeat_and_tail(bars: Seq<BarV>) -> (u32, Seq<BarV>) {
    if bars.len() == 0 {
        (1, bars)
    } else if bars.last().chords.len() == 0 {
        (1, bars.drop_last())
    } else if repeat_of(bars.last().chords.last()) > 0 {
        (repeat_of(bars.last().chords.last()), bars.drop_last())
    } else {
        (1, bars)
    }
}

/// The repeat count of a row and its bars: as `repeat_and_tail`, and a
/// blank first cell is not a bar.
pub open spec fn repeat_and_bars(bars: Seq<BarV>) -> (u32, Seq<BarV>) {
    (repeat_and_tail(bars).0, drop_blank_first(repeat_and_tail(bars).1))
}

/// The meaning of a chord row that starts at bar `barcount`: the bar count
/// after the row (repeats included) and the row.
pub open spec fn row_spec(barcount: int, s: Seq<char>) -> (int, RowV) {
    let (repeat, bars) = repeat_and_bars(bars_of(split_spec(s, '|')));
    (
        barcount + repeat * bars.len(),
        RowV { row_start_bar_number: barcount as u32, bars: bars, repeat: repeat },
    )
}

/// A row can be read, and its bar count fits the counters.
pub open spec fn row_ok(barcount: int, s: Seq<char>) -> bool {
    &&& bars_readable(s)
    &&& repeat_and_bars(bars_of(split_spec(s, '|'))).1.len() <= u32::MAX
    &&& 0 <= barcount
    &&& row_spec(barcount, s).0 <= u32::MAX
}

/// Reads a chord row such as " |A|B|C|D|x2" that starts at bar `barcount`;
/// returns the bar count after it, repeats included (8 more here), and the row.
pub fn row_of_string(barcount: u32, s: String) -> (r: (u32, Row))
    requires
        row_ok(barcount as int, s@),
    ensures
        r.0 as int == row_spec(barcount as int, s@).0,
        r.1@ == row_spec(barcount as int, s@).1,
{
    let pieces = split_char(s.as_str(), '|');
    let ghost ps = split_spec(s@, '|');
    proof { lemma_split_nonempty(s@, '|'); }
    let mut bars: Vec<Bar> = Vec::new();
    let mut i: usize = 0;
    while i < pieces.len()
        invariant
            views(pieces@) == ps,
            ps == split_spec(s@, '|'),
            bars_readable(s@),
            i <= pieces@.len(),
            bars_view(bars@) == bars_of(ps).subrange(0, i as int),
        decreases pieces@.len() - i,
    {
        assert(ps[i as int] == pieces@[i as int]@);
        assert(bar_spec(ps[i as int]) is Ok);
        let b = bar_of_string(pieces[i].clone());
        match b {
            Ok(b) => {
                assert(bars_of(ps)[i as int] == bar_spec(ps[i as int])->Ok_0);
                assert(b@ == bars_of(ps)[i as int]);
                let ghost old_bars = bars@;
                bars.push(b);
                assert(bars_view(bars@) =~= bars_view(old_bars).push(b@));
            },
            Err(_) => {
                assert(false);
                return (0, Row { row_start_bar_number: 0, bars: Vec::new(), repeat: 0 });
            },
        }
        i = i + 1;
        assert(bars_view(bars@) =~= bars_of(ps).subrange(0, i as int));
    }
    assert(bars_of(ps).subrange(0, pieces@.len() as int) =~= bars_of(ps));
    let ghost all = bars_of(ps);
    let repeat: u32 = match bars.pop() {
        None => 1,
        Some(mut b) => {
            assert(b@ == all.last());
            assert(bars_view(bars@) =~= all.drop_last());
            match b.chords.pop() {
                None => 1,
                Some(c) => {
                    assert(c@ == all.last().chords.last());
                    if str_eq(c.as_str(), "xdeux") {
                        2
                    } else if str_eq(c.as_str(), "xtrois") {
                        3
                    } else if str_eq(c.as_str(), "xquatre") {
                        4
                    } else if str_eq(c.as_str(), "xcinq") {
                        5
                    } else {
                        b.chords.push(c);
                        assert(b@.chords =~= all.last().chords);
                        bars.push(b);
                        assert(bars_view(bars@) =~= all);
                        1
                    }
                },
            }
        },
    };
    assert(repeat == repeat_and_tail(all).0);
    assert(bars_view(bars@) == repeat_and_tail(all).1);
    if bars.len() > 0 && bars[0].chords.len() == 0 && bars[0].time_signature.is_none() {
        let ghost kept = bars_view(bars@);
        assert(blank_bar(kept[0]));
        bars.remove(0);
        assert(bars_view(bars@) =~= kept.skip(1));
    }
    assert(bars_view(bars@) == repeat_and_bars(all).1);
    let n = bars.len() as u32;
    (barcount + repeat * n, Row { repeat, row_start_bar_number: barcount, bars })
}

/// The lengths of the annotation openings.
proof fn reveal_openings()
    ensures
        ts_open().len() == 15,
        latex_open().len() == 7,
{
    reveal_strlit("time_signature(");
    reveal_strlit("{latex ");
}

/// A text shorter than a time signature opening holds no time signature.
proof fn lemma_no_ts_in_short(s: Seq<char>, p: int)
    requires
        s.len() < ts_open().len(),
    ensures
        first_ts_match(s, p) is None,
    decreases s.len() + 1 - p,
{
    if 0 <= p <= s.len() {
        assert(!occurs_at(s, ts_open(), p));
        lemma_no_ts_in_short(s, p + 1);
    }
}

/// A text shorter than a raw latex opening holds no raw latex.
proof fn lemma_no_latex_in_short(s: Seq<char>, q: int)
    requires
        s.len() < latex_open().len(),
    ensures
        first_latex_match(s, q) is None,
    decreases s.len() + 1 - q,
{
    if 0 <= q <= s.len() {
        assert(!occurs_at(s, latex_open(), q));
        lemma_no_latex_in_short(s, q + 1);
    }
}

/// Replacing a character in a one-character text.
proof fn lemma_replace_single(ch: char, c: char, to: Seq<char>)
    ensures
        replace_spec(seq![ch], seq![c], to) == (if ch == c { to } else { seq![ch] }),
{
    let s = seq![ch];
    assert(s.skip(1) =~= Seq::<char>::empty());
    assert(replace_spec(Seq::<char>::empty(), seq![c], to) == Seq::<char>::empty());
    assert(s.subrange(0, 1) =~= s);
    if ch == c {
        assert(occurs_at(s, seq![c], 0));
        assert(to + Seq::<char>::empty() =~= to);
    } else {
        assert(s.subrange(0, 1)[0] != seq![c][0]);
        assert(!occurs_at(s, seq![c], 0));
        assert(seq![ch] + Seq::<char>::empty() =~= seq![ch]);
    }
}

/// Replacing a character other than 'x' in a repeat mark such as "x2".
proof fn lemma_replace_in_mark(d: char, c: char, to: Seq<char>)
    requires
        c != 'x',
    ensures
        replace_spec(seq!['x', d], seq![c], to) == (if d == c { seq!['x'] + to } else { seq!['x', d] }),
{
    assert(seq!['x'] + seq![d] =~= seq!['x', d]);
    crate::text::lemma_replace_char_concat(seq!['x'], seq![d], c, to);
    lemma_replace_single('x', c, to);
    lemma_replace_single(d, c, to);
}

/// The repeat marks as spelled chords, character by character.
proof fn reveal_repeat_marks()
    ensures
        "xdeux"@ == seq!['x', 'd', 'e', 'u', 'x'],
        "xtrois"@ == seq!['x', 't', 'r', 'o', 'i', 's'],
        "xquatre"@ == seq!['x', 'q', 'u', 'a', 't', 'r', 'e'],
        "xcinq"@ == seq!['x', 'c', 'i', 'n', 'q'],
{
    reveal_strlit("xdeux");
    reveal_strlit("xtrois");
    reveal_strlit("xquatre");
    reveal_strlit("xcinq");
    assert("xdeux"@ =~= seq!['x', 'd', 'e', 'u', 'x']);
    assert("xtrois"@ =~= seq!['x', 't', 'r', 'o', 'i', 's']);
    assert("xquatre"@ =~= seq!['x', 'q', 'u', 'a', 't', 'r', 'e']);
    assert("xcinq"@ =~= seq!['x', 'c', 'i', 'n', 'q']);
}

/// The chord "x2" .. "x5" is spelled as a repeat mark asking for 2 .. 5
/// plays.
proof fn lemma_mark_chord(d: char)
    requires
        '2' <= d <= '5',
    ensures
        chord_spec(seq!['x', d]).len() > 0,
        repeat_of(chord_spec(seq!['x', d])) as int == d as int - '0' as int,
{
    reveal_chord_words();
    reveal_repeat_marks();
    let s = seq!['x', d];
    lemma_replace_in_mark(d, '7', "sept"@);
    lemma_replace_in_mark(d, ' ', ""@);
    lemma_replace_in_mark(d, '2', "deux"@);
    let w2 = replace_spec(s, "2"@, "deux"@);
    if d == '2' {
        assert(w2 =~= seq!['x', 'd', 'e', 'u', 'x']);
        lemma_replace_char_absent(w2, '3', "trois"@);
        lemma_replace_char_absent(w2, '4', "quatre"@);
        lemma_replace_char_absent(w2, '5', "cinq"@);
        assert(chord_spec(s) == "xdeux"@);
    } else {
        lemma_replace_in_mark(d, '3', "trois"@);
        let w3 = replace_spec(s, "3"@, "trois"@);
        if d == '3' {
            assert(w3 =~= seq!['x', 't', 'r', 'o', 'i', 's']);
            lemma_replace_char_absent(w3, '4', "quatre"@);
            lemma_replace_char_absent(w3, '5', "cinq"@);
            assert(chord_spec(s) == "xtrois"@);
            assert(chord_spec(s) != "xdeux"@);
        } else {
            lemma_replace_in_mark(d, '4', "quatre"@);
            let w4 = replace_spec(s, "4"@, "quatre"@);
            if d == '4' {
                assert(w4 =~= seq!['x', 'q', 'u', 'a', 't', 'r', 'e']);
                lemma_replace_char_absent(w4, '5', "cinq"@);
                assert(chord_spec(s) == "xquatre"@);
                assert(chord_spec(s) != "xdeux"@);
                assert(chord_spec(s) != "xtrois"@);
            } else {
                lemma_replace_in_mark(d, '5', "cinq"@);
                assert(replace_spec(s, "5"@, "cinq"@) =~= seq!['x', 'c', 'i', 'n', 'q']);
                assert(chord_spec(s) == "xcinq"@);
                assert(chord_spec(s)[1] != "xdeux"@[1]);
                assert(chord_spec(s) != "xdeux"@);
                assert(chord_spec(s) != "xtrois"@);
                assert(chord_spec(s) != "xquatre"@);
            }
        }
    }
}

/// An empty cell is a bar with no chord and no time signature.
proof fn lemma_empty_bar()
    ensures
        bar_spec(Seq::<char>::empty()) == Ok::<BarV, ModelErrorV>(
            BarV { chords: Seq::<Seq<char>>::empty(), time_signature: None },
        ),
{
    let e = Seq::<char>::empty();
    reveal_openings();
    lemma_no_ts_in_short(e, 0);
    lemma_no_latex_in_short(e, 0);
    assert(split_spec(e, ' ') == seq![e]);
    assert(seq![e].drop_last() =~= Seq::<Seq<char>>::empty());
    assert(seq![e].last() == e);
    assert(chords_of_words(Seq::<Seq<char>>::empty()) == Seq::<Seq<char>>::empty());
    assert(chord_spec(e) == e);
    assert(chords_of_words(seq![e]) == Seq::<Seq<char>>::empty());
}

/// The cell "x2" .. "x5" is a bar whose only chord is the repeat mark.
proof fn lemma_mark_bar(d: char)
    requires
        '2' <= d <= '5',
    ensures
        bar_spec(seq!['x', d]) == Ok::<BarV, ModelErrorV>(
            BarV { chords: seq![chord_spec(seq!['x', d])], time_signature: None },
        ),
{
    let w = seq!['x', d];
    reveal_openings();
    lemma_no_ts_in_short(w, 0);
    lemma_no_latex_in_short(w, 0);
    crate::text::lemma_split_absent(w, ' ');
    lemma_mark_chord(d);
    assert(seq![w].drop_last() =~= Seq::<Seq<char>>::empty());
    assert(seq![w].last() == w);
    assert(chords_of_words(Seq::<Seq<char>>::empty()) == Seq::<Seq<char>>::empty());
    assert(Seq::<Seq<char>>::empty().push(chord_spec(w)) =~= seq![chord_spec(w)]);
    assert(chords_of_words(seq![w]) =~= seq![chord_spec(w)]);
}

/// A row that ends with the repeat mark `x2` .. `x5` is played that many
/// times: it keeps the bars of the same row written with an empty last
/// cell in place of the mark (which is played once), and the bar count
/// grows by the count times those bars.
pub proof fn lemma_repeat_mark(barcount: int, pre: Seq<char>, d: char)
    requires
        '2' <= d <= '5',
    ensures
        row_spec(barcount, pre + seq!['|', 'x', d]).1.repeat as int == d as int - '0' as int,
        row_spec(barcount, pre + seq!['|', 'x', d]).1.bars == row_spec(barcount, pre + seq!['|']).1.bars,
        row_spec(barcount, pre + seq!['|']).1.repeat == 1,
        row_spec(barcount, pre + seq!['|']).0 == barcount + row_spec(barcount, pre + seq!['|']).1.bars.len(),
        row_spec(barcount, pre + seq!['|', 'x', d]).0 == barcount + (d as int - '0' as int) * row_spec(
            barcount,
            pre + seq!['|'],
        ).1.bars.len(),
{
    let w = seq!['x', d];
    let e = Seq::<char>::empty();
    let s = pre + seq!['|', 'x', d];
    let t = pre + seq!['|'];
    assert(s =~= pre + seq!['|'] + w);
    assert(t =~= pre + seq!['|'] + e);
    crate::text::lemma_split_push(pre, w, '|');
    crate::text::lemma_split_push(pre, e, '|');
    let ps = split_spec(pre, '|');
    let b = bars_of(ps);
    assert(bars_of(ps.push(w)) =~= b.push(bar_spec(w)->Ok_0));
    assert(bars_of(ps.push(e)) =~= b.push(bar_spec(e)->Ok_0));
    lemma_mark_bar(d);
    lemma_mark_chord(d);
    lemma_empty_bar();
    assert(b.push(bar_spec(w)->Ok_0).drop_last() =~= b);
    assert(b.push(bar_spec(e)->Ok_0).drop_last() =~= b);
    assert(repeat_and_tail(b.push(bar_spec(w)->Ok_0)) == (repeat_of(chord_spec(w)), b));
    assert(repeat_and_tail(b.push(bar_spec(e)->Ok_0)) == (1u32, b));
    let n = drop_blank_first(b).len();
    assert(1 * n == n) by (nonlinear_arith);
    assert(row_spec(barcount, t).1.bars == drop_blank_first(b));
    assert(row_spec(barcount, t).0 == barcount + 1 * n);
}

/// The rows of a chord section that starts at bar `barcount`, read in turn,
/// each starting where the previous one ended.
pub open spec fn rows_spec(barcount: int, rows: Seq<Seq<char>>) -> (int, Seq<RowV>)
    decreases rows.len(),
{
    if rows.len() == 0 {
        (barcount, Seq::empty())
    } else {
        let (c, rs) = rows_spec(barcount, rows.drop_last());
        let (c2, r) = row_spec(c, rows.last());
        (c2, rs.push(r))
    }
}

/// Every row of a chord section can be read, in turn.
pub open spec fn rows_ok(barcount: int, rows: Seq<Seq<char>>) -> bool
    decreases rows.len(),
{
    if rows.len() == 0 {
        0 <= barcount <= u32::MAX
    } else {
        rows_ok(barcount, rows.drop_last()) && row_ok(rows_spec(barcount, rows.drop_last()).0, rows.last())
    }
}

/// The number of bars of some rows, repeats included.
pub open spec fn nb_bars_of(rows: Seq<RowV>) -> int
    decreases rows.len(),
{
    if rows.len() == 0 {
        0
    } else {
        nb_bars_of(rows.drop_last()) + rows.last().repeat * rows.last().bars.len()
    }
}

/// Reading rows advances the bar count by the number of bars read, and the
/// count only grows.
pub proof fn lemma_rows_count(barcount: int, rows: Seq<Seq<char>>)
    requires
        rows_ok(barcount, rows),
    ensures
        rows_spec(barcount, rows).0 == barcount + nb_bars_of(rows_spec(barcount, rows).1),
        barcount <= rows_spec(barcount, rows).0 <= u32::MAX,
        rows_spec(barcount, rows).1.len() == rows.len(),
        forall|i: int| 0 <= i < rows.len() ==> (#[trigger] rows_spec(barcount, rows).1[i]).bars.len() <= u32::MAX,
    decreases rows.len(),
{
    if rows.len() > 0 {
        lemma_rows_count(barcount, rows.drop_last());
        let (c, rs) = rows_spec(barcount, rows.drop_last());
        let (c2, r) = row_spec(c, rows.last());
        assert(rs.push(r).drop_last() =~= rs);
        assert forall|i: int| 0 <= i < rows.len() implies (#[trigger] rows_spec(barcount, rows).1[i]).bars.len() <= u32::MAX by {
            if i < rows.len() - 1 {
                assert(rows_spec(barcount, rows).1[i] == rs[i]);
            }
        }
    }
}

/// Reads the rows of a chord section that starts at bar `barcount`;
/// returns the bar count after them and the rows.
pub fn rows_of_userchordsection(barcount: u32, uc: &UserChordSection) -> (r: (u32, Vec<Row>))
    requires
        rows_ok(barcount as int, strs(uc.rows@)),
    ensures
        r.0 as int == rows_spec(barcount as int, strs(uc.rows@)).0,
        rows_view(r.1@) == rows_spec(barcount as int, strs(uc.rows@)).1,
{
    let ghost rows = strs(uc.rows@);
    let mut count = barcount;
    let mut out: Vec<Row> = Vec::new();
    let mut i: usize = 0;
    assert(rows.subrange(0, 0) =~= Seq::<Seq<char>>::empty());
    while i < uc.rows.len()
        invariant
            rows == strs(uc.rows@),
            rows_ok(barcount as int, rows),
            i <= rows.len(),
            count as int == rows_spec(barcount as int, rows.subrange(0, i as int)).0,
            rows_view(out@) == rows_spec(barcount as int, rows.subrange(0, i as int)).1,
        decreases rows.len() - i,
    {
        proof { lemma_rows_ok_prefix(barcount as int, rows, i + 1); }
        let ghost pre = rows.subrange(0, i as int);
        let ghost nxt = rows.subrange(0, i + 1);
        assert(nxt.drop_last() =~= pre);
        let (c, row) = row_of_string(count, uc.rows[i].clone());
        count = c;
        out.push(row);
        i = i + 1;
        assert(rows_view(out@) =~= rows_spec(barcount as int, nxt).1);
    }
    assert(rows.subrange(0, rows.len() as int) =~= rows);
    (count, out)
}

/// Prefixes of readable rows are readable.
pub proof fn lemma_rows_ok_prefix(barcount: int, rows: Seq<Seq<char>>, k: int)
    requires
        rows_ok(barcount, rows),
        0 <= k <= rows.len(),
    ensures
        rows_ok(barcount, rows.subrange(0, k)),
    decreases rows.len() - k,
{
    if k < rows.len() {
        lemma_rows_ok_prefix(barcount, rows, k + 1);
        assert(rows.subrange(0, k + 1).drop_last() =~= rows.subrange(0, k));
    } else {
        assert(rows.subrange(0, k) =~= rows);
    }
}


// -------------------------------------------------------- time signatures

/// What a song's time signature text gives. Absent, it is 4/4. Present, it
/// is matched against `(.*)/(.*)` on the line of its first '/', and the
/// whole match and then the text before the last '/' are read as the two
/// numbers: the whole match holds a '/', so this always fails (see
/// `lemma_time_signature_text_rejected`).
pub open spec fn time_signature_spec(input: Option<Seq<char>>) -> Result<TimeSignature, ModelErrorV> {
    match input {
        None => Ok(TimeSignature { top: 4, low: 4 }),
        Some(s) => {
            let f = first_index_in(s, '/', 0, s.len() as int);
            if f < 0 {
                Err(ModelErrorV::InvalidTimeSignature(s))
            } else {
                let start = last_index_in(s, '\n', 0, f) + 1;
                let end = line_end(s, f);
                let a = last_index_in(s, '/', start, end);
                let whole = s.subrange(start, end);
                let first = s.subrange(start, a);
                match parse_u8_spec(whole) {
                    None => Err(ModelErrorV::InvalidNumber(whole)),
                    Some(t) => match parse_u8_spec(first) {
                        None => Err(ModelErrorV::InvalidNumber(first)),
                        Some(l) => Ok(TimeSignature { top: t, low: l }),
                    },
                }
            }
        },
    }
}

/// A text that holds a '/' is never read as a byte.
pub proof fn lemma_slash_not_u8(w: Seq<char>, k: int)
    requires
        0 <= k < w.len(),
        w[k] == '/',
    ensures
        parse_u8_spec(w) is None,
{
    let d = crate::text::unsigned_body(w);
    if w[0] == '+' {
        if k > 0 {
            assert(d[k - 1] == '/');
            assert(!crate::text::is_digit(d[k - 1]));
        }
    } else {
        assert(d[k] == '/');
        assert(!crate::text::is_digit(d[k]));
    }
}

/// A song's time signature text is always rejected.
pub proof fn lemma_time_signature_text_rejected(s: Seq<char>)
    ensures
        time_signature_spec(Some(s)) is Err,
{
    let f = first_index_in(s, '/', 0, s.len() as int);
    lemma_first_index_in(s, '/', 0, s.len() as int);
    if f >= 0 {
        lemma_last_index_in(s, '\n', 0, f);
        let start = last_index_in(s, '\n', 0, f) + 1;
        lemma_line_end(s, f);
        let end = line_end(s, f);
        lemma_slash_not_u8(s.subrange(start, end), f - start);
    }
}

/// Reads a song's time signature text; absent, the signature is 4/4.
pub fn time_signature_of_string(input: Option<String>) -> (r: Result<TimeSignature, ModelError>)
    ensures
        match r {
            Ok(t) => time_signature_spec(opt_str(input)) == Ok::<TimeSignature, ModelErrorV>(t),
            Err(e) => time_signature_spec(opt_str(input)) == Err::<TimeSignature, ModelErrorV>(e@),
        },
{
    match input {
        None => Ok(TimeSignature { top: 4, low: 4 }),
        Some(s) => {
            let cs = chars_of(s.as_str());
            let n = cs.len();
            match first_index_exec(&cs, '/', 0, n) {
                None => Err(ModelError::InvalidTimeSignature(s)),
                Some(f) => {
                    proof { lemma_first_index_in(cs@, '/', 0, n as int); }
                    let start = match last_index_exec(&cs, '\n', 0, f) {
                        None => 0,
                        Some(j) => {
                            proof { lemma_last_index_in(cs@, '\n', 0, f as int); }
                            j + 1
                        },
                    };
                    proof { lemma_last_index_in(cs@, '\n', 0, f as int); }
                    let end = line_end_exec(&cs, f);
                    proof { lemma_line_end(cs@, f as int); }
                    let whole = string_of_range(&cs, start, end);
                    match parse_u8(whole.as_str()) {
                        None => Err(ModelError::InvalidNumber(whole)),
                        Some(top) => {
                            proof { lemma_last_index_in(cs@, '/', start as int, end as int); }
                            let a = match last_index_exec(&cs, '/', start, end) {
                                Some(a) => a,
                                None => start,
                            };
                            let first = string_of_range(&cs, start, a);
                            match parse_u8(first.as_str()) {
                                None => Err(ModelError::InvalidNumber(first)),
                                Some(low) => Ok(TimeSignature { top, low }),
                            }
                        },
                    }
                },
            }
        },
    }
}

// -------------------------------------------------------------- structure

/// The text of an optional section body, empty when absent.
pub open spec fn body_of(o: Option<Seq<char>>) -> Seq<char> {
    match o {
        Some(s) => s,
        None => Seq::empty(),
    }
}

/// The chord sections among `prev` whose id is `link`, in order.
pub open spec fn chords_with_id(prev: Seq<StructureItemV>, link: Seq<char>) -> Seq<ChordsV>
    decreases prev.len(),
{
    if prev.len() == 0 {
        Seq::empty()
    } else {
        let r = chords_with_id(prev.drop_last(), link);
        match prev.last() {
            StructureItemV::ItemChords(c) => if c.section_id == link {
                r.push(c)
            } else {
                r
            },
            _ => r,
        }
    }
}

/// The meaning of a user structure item that starts at bar `barcount`, after
/// the items `previous`: the bar count after it, and the item. A chord
/// section numbers its rows; a reference takes the type (unless it gives
/// one) and the length of the one chord section it links to; a rule is 70%
/// wide unless it says otherwise.
pub open spec fn structure_spec(
    barcount: int,
    previous: Seq<StructureItemV>,
    u: UserStructureItemV,
) -> (int, StructureItemV) {
    match u.item {
        UserContentV::Chords { section_title, section_type, section_body, rows } => {
            let (c, rs) = rows_spec(barcount, rows);
            (
                c,
                StructureItemV::ItemChords(
                    ChordsV {
                        section_title: section_title,
                        section_id: u.id,
                        section_type: section_type,
                        section_body: body_of(section_body),
                        row_start_bar_number: barcount as u32,
                        nb_bars: (c - barcount) as u32,
                        rows: rs,
                    },
                ),
            )
        },
        UserContentV::Ref { section_title, section_body, section_type, link } => {
            let ic = chords_with_id(previous, link)[0];
            (
                barcount + ic.nb_bars,
                StructureItemV::ItemRef(
                    RefV {
                        row_start_bar_number: barcount as u32,
                        nb_bars: ic.nb_bars,
                        section_title: section_title,
                        section_id: u.id,
                        section_type: match section_type {
                            Some(t) => t,
                            None => ic.section_type,
                        },
                        section_body: body_of(section_body),
                    },
                ),
            )
        },
        UserContentV::HRule(p) => (
            barcount,
            StructureItemV::ItemHRule(
                HRule {
                    percent: match p {
                        Some(x) => x,
                        None => 70,
                    },
                },
            ),
        ),
        UserContentV::NewColumn => (barcount, StructureItemV::ItemNewColumn),
    }
}

/// A user structure item can be read: its rows can, or it links to exactly
/// one earlier chord section; and bar counts fit the counters.
pub open spec fn structure_ok(barcount: int, previous: Seq<StructureItemV>, u: UserStructureItemV) -> bool {
    &&& 0 <= barcount <= u32::MAX
    &&& match u.item {
        UserContentV::Chords { rows, .. } => rows_ok(barcount, rows),
        UserContentV::Ref { link, .. } => {
            &&& chords_with_id(previous, link).len() == 1
            &&& barcount + chords_with_id(previous, link)[0].nb_bars <= u32::MAX
        },
        _ => true,
    }
}

proof fn lemma_nb_bars_prefix(rows: Seq<RowV>, k: int)
    requires
        0 <= k <= rows.len(),
    ensures
        0 <= nb_bars_of(rows.subrange(0, k)) <= nb_bars_of(rows),
    decreases rows.len() - k,
{
    if k < rows.len() {
        lemma_nb_bars_prefix(rows, k + 1);
        assert(rows.subrange(0, k + 1).drop_last() =~= rows.subrange(0, k));
        lemma_nb_bars_nonneg(rows.subrange(0, k));
    } else {
        assert(rows.subrange(0, k) =~= rows);
        lemma_nb_bars_nonneg(rows);
    }
}

proof fn lemma_nb_bars_nonneg(rows: Seq<RowV>)
    ensures
        0 <= nb_bars_of(rows),
    decreases rows.len(),
{
    if rows.len() > 0 {
        lemma_nb_bars_nonneg(rows.drop_last());
    }
}

/// The number of bars of some rows, repeats included, computed.
fn count_bars(rows: &Vec<Row>) -> (r: u32)
    requires
        nb_bars_of(rows_view(rows@)) <= u32::MAX,
        forall|i: int| 0 <= i < rows@.len() ==> (#[trigger] rows_view(rows@)[i]).bars.len() <= u32::MAX,
    ensures
        r as int == nb_bars_of(rows_view(rows@)),
{
    let ghost rv = rows_view(rows@);
    let mut acc: u32 = 0;
    let mut i: usize = 0;
    while i < rows.len()
        invariant
            rv == rows_view(rows@),
            nb_bars_of(rv) <= u32::MAX,
            forall|j: int| 0 <= j < rows@.len() ==> (#[trigger] rv[j]).bars.len() <= u32::MAX,
            i <= rows@.len(),
            acc as int == nb_bars_of(rv.subrange(0, i as int)),
        decreases rows@.len() - i,
    {
        proof {
            lemma_nb_bars_prefix(rv, i + 1);
            assert(rv.subrange(0, i + 1).drop_last() =~= rv.subrange(0, i as int));
            assert(rv[i as int].bars.len() == rows@[i as int].bars@.len());
        }
        let n = rows[i].bars.len() as u32;
        let rep = rows[i].repeat;
        proof {
            let nxt = rv.subrange(0, i + 1);
            assert(nxt.last() == rv[i as int]);
            assert(rv[i as int].repeat == rep);
            assert(rv[i as int].bars.len() == n);
            assert(nb_bars_of(nxt) == acc + rep * n);
            assert(0 <= (rep as int) * (n as int)) by (nonlinear_arith);
            assert((n as int) * (rep as int) == (rep as int) * (n as int)) by (nonlinear_arith);
        }
        acc = acc + n * rep;
        i = i + 1;
    }
    assert(rv.subrange(0, rows@.len() as int) =~= rv);
    acc
}

/// The index of the one chord section of `previous` whose id is `link`.
fn find_linked(previous: &[StructureItem], link: &String) -> (r: usize)
    requires
        chords_with_id(items_view(previous@), link@).len() == 1,
    ensures
        r < previous@.len(),
        (previous@[r as int]@ matches StructureItemV::ItemChords(c) && c == chords_with_id(
            items_view(previous@),
            link@,
        )[0]),
{
    let ghost pv = items_view(previous@);
    let mut found: usize = 0;
    let mut count: usize = 0;
    let mut i: usize = 0;
    while i < previous.len()
        invariant
            pv == items_view(previous@),
            chords_with_id(pv, link@).len() == 1,
            i <= previous@.len(),
            count as int == chords_with_id(pv.subrange(0, i as int), link@).len(),
            count <= 1,
            count == 1 ==> (found < i && (previous@[found as int]@ matches StructureItemV::ItemChords(c)
                && c == chords_with_id(pv.subrange(0, i as int), link@)[0])),
        decreases previous@.len() - i,
    {
        proof {
            lemma_chords_with_id_prefix(pv, link@, i + 1);
            assert(pv.subrange(0, i + 1).drop_last() =~= pv.subrange(0, i as int));
            assert(pv[i as int] == previous@[i as int]@);
        }
        match &previous[i].item {
            StructureItemContent::ItemChords(ic) => {
                if str_eq(ic.section_id.as_str(), link.as_str()) {
                    found = i;
                    count = count + 1;
                }
            },
            _ => {},
        }
        i = i + 1;
    }
    assert(pv.subrange(0, previous@.len() as int) =~= pv);
    found
}

/// The chord sections of a prefix are a prefix of the chord sections.
proof fn lemma_chords_with_id_prefix(prev: Seq<StructureItemV>, link: Seq<char>, k: int)
    requires
        0 <= k <= prev.len(),
    ensures
        chords_with_id(prev.subrange(0, k), link).len() <= chords_with_id(prev, link).len(),
        forall|j: int| 0 <= j < chords_with_id(prev.subrange(0, k), link).len()
            ==> chords_with_id(prev.subrange(0, k), link)[j] == #[trigger] chords_with_id(prev, link)[j],
    decreases prev.len() - k,
{
    if k < prev.len() {
        lemma_chords_with_id_prefix(prev, link, k + 1);
        assert(prev.subrange(0, k + 1).drop_last() =~= prev.subrange(0, k));
    } else {
        assert(prev.subrange(0, k) =~= prev);
    }
}

/// Reads one item of a user song structure that starts at bar `barcount`,
/// after the items `previous` (which references may link to); returns the
/// bar count after it and the item.
pub fn structure_of_structure(
    barcount: u32,
    previous: &[StructureItem],
    u: &UserStructureItem,
) -> (r: (u32, StructureItem))
    requires
        structure_ok(barcount as int, items_view(previous@), u@),
    ensures
        r.0 as int == structure_spec(barcount as int, items_view(previous@), u@).0,
        r.1@ == structure_spec(barcount as int, items_view(previous@), u@).1,
{
    match &u.item {
        UserStructureItemContent::Chords(l) => {
            let (new_barcount, rows) = rows_of_userchordsection(barcount, l);
            proof { lemma_rows_count(barcount as int, strs(l.rows@)); }
            let nb_bars = count_bars(&rows);
            let body = match &l.section_body {
                None => String::new(),
                Some(s) => s.clone(),
            };
            (
                new_barcount,
                StructureItem {
                    item: StructureItemContent::ItemChords(
                        Chords {
                            section_title: l.section_title.clone(),
                            section_id: u.id.clone(),
                            section_type: l.section_type.clone(),
                            section_body: body,
                            row_start_bar_number: barcount,
                            nb_bars,
                            rows,
                        },
                    ),
                },
            )
        },
        UserStructureItemContent::Ref(s) => {
            let k = find_linked(previous, &s.link);
            match &previous[k].item {
                StructureItemContent::ItemChords(ic) => {
                    let section_type = match &s.section_type {
                        Some(t) => t.clone(),
                        None => ic.section_type.clone(),
                    };
                    let body = match &s.section_body {
                        None => String::new(),
                        Some(b) => b.clone(),
                    };
                    (
                        barcount + ic.nb_bars,
                        StructureItem {
                            item: StructureItemContent::ItemRef(
                                Ref {
                                    section_title: s.section_title.clone(),
                                    section_id: u.id.clone(),
                                    section_body: body,
                                    section_type,
                                    row_start_bar_number: barcount,
                                    nb_bars: ic.nb_bars,
                                },
                            ),
                        },
                    )
                },
                _ => {
                    assert(false);
                    (barcount, StructureItem { item: StructureItemContent::ItemNewColumn })
                },
            }
        },
        UserStructureItemContent::HRule(p) => (
            barcount,
            StructureItem {
                item: StructureItemContent::ItemHRule(
                    HRule {
                        percent: match p {
                            Some(x) => *x,
                            None => 70,
                        },
                    },
                ),
            },
        ),
        UserStructureItemContent::NewColumn => (
            barcount,
            StructureItem { item: StructureItemContent::ItemNewColumn },
        ),
    }
}


// ------------------------------------------------------------------ songs

/// The items of a user song structure read in turn from bar 1, each after
/// the ones before it: the bar count after them and the items.
pub open spec fn structure_fold(items: Seq<UserStructureItemV>) -> (int, Seq<StructureItemV>)
    decreases items.len(),
{
    if items.len() == 0 {
        (1, Seq::empty())
    } else {
        let (c, prev) = structure_fold(items.drop_last());
        let (c2, it) = structure_spec(c, prev, items.last());
        (c2, prev.push(it))
    }
}

/// Every item of a user song structure can be read, in turn.
pub open spec fn structure_fold_ok(items: Seq<UserStructureItemV>) -> bool
    decreases items.len(),
{
    if items.len() == 0 {
        true
    } else {
        structure_fold_ok(items.drop_last()) && structure_ok(
            structure_fold(items.drop_last()).0,
            structure_fold(items.drop_last()).1,
            items.last(),
        )
    }
}

pub proof fn lemma_structure_fold_ok_prefix(items: Seq<UserStructureItemV>, k: int)
    requires
        structure_fold_ok(items),
        0 <= k <= items.len(),
    ensures
        structure_fold_ok(items.subrange(0, k)),
    decreases items.len() - k,
{
    if k < items.len() {
        lemma_structure_fold_ok_prefix(items, k + 1);
        assert(items.subrange(0, k + 1).drop_last() =~= items.subrange(0, k));
    } else {
        assert(items.subrange(0, k) =~= items);
    }
}

/// The song that a user song describes, read from the file `song_srcdir`
/// and built in `song_builddir`: its source directory is the file's
/// directory, its pdf name is derived from author and title, and its bars
/// are numbered from 1.
pub open spec fn song_spec(uconf: UserSongV, song_srcdir: Seq<char>, song_builddir: Seq<char>) -> Result<SongV, ModelErrorV> {
    match parent_spec(song_srcdir) {
        None => Err(ModelErrorV::NoParent(song_srcdir)),
        Some(dir) => match time_signature_spec(uconf.time_signature) {
            Err(e) => Err(e),
            Ok(ts) => Ok(
                SongV {
                    title: uconf.title,
                    author: uconf.author,
                    tempo: uconf.tempo,
                    time_signature: ts,
                    pdfname: pdf_name_spec(uconf.author, uconf.title),
                    texfiles: uconf.tex,
                    builddir: song_builddir,
                    lilypondfiles: uconf.lilypond,
                    wavfiles: uconf.wav,
                    date: uconf.date,
                    structure: structure_fold(uconf.structure).1,
                    srcdir: dir,
                },
            ),
        },
    }
}

/// The structure of a song can be read whenever the song gets that far.
pub open spec fn song_readable(uconf: UserSongV, song_srcdir: Seq<char>) -> bool {
    (parent_spec(song_srcdir) is Some && time_signature_spec(uconf.time_signature) is Ok)
        ==> structure_fold_ok(uconf.structure)
}

/// Reads the structure of a user song, numbering bars from 1.
fn structure_of_usersong(items: &Vec<UserStructureItem>) -> (r: Vec<StructureItem>)
    requires
        structure_fold_ok(items@.map_values(|u: UserStructureItem| u@)),
    ensures
        items_view(r@) == structure_fold(items@.map_values(|u: UserStructureItem| u@)).1,
{
    let ghost iv = items@.map_values(|u: UserStructureItem| u@);
    let mut count: u32 = 1;
    let mut out: Vec<StructureItem> = Vec::new();
    let mut i: usize = 0;
    assert(iv.subrange(0, 0) =~= Seq::<UserStructureItemV>::empty());
    while i < items.len()
        invariant
            iv == items@.map_values(|u: UserStructureItem| u@),
            structure_fold_ok(iv),
            i <= items@.len(),
            count as int == structure_fold(iv.subrange(0, i as int)).0,
            items_view(out@) == structure_fold(iv.subrange(0, i as int)).1,
        decreases items@.len() - i,
    {
        proof {
            lemma_structure_fold_ok_prefix(iv, i + 1);
            assert(iv.subrange(0, i + 1).drop_last() =~= iv.subrange(0, i as int));
            assert(iv[i as int] == items@[i as int]@);
        }
        let (c, it) = structure_of_structure(count, out.as_slice(), &items[i]);
        let ghost old = out@;
        out.push(it);
        assert(items_view(out@) =~= items_view(old).push(it@));
        count = c;
        i = i + 1;
    }
    assert(iv.subrange(0, items@.len() as int) =~= iv);
    out
}

/// Builds the song that a user song describes, read from the file
/// `song_srcdir` and built in `song_builddir`.
pub fn song_of_usersong(uconf: UserSong, song_srcdir: String, song_builddir: String) -> (r: Result<Song, ModelError>)
    requires
        song_readable(uconf@, song_srcdir@),
    ensures
        match r {
            Ok(s) => song_spec(uconf@, song_srcdir@, song_builddir@) == Ok::<SongV, ModelErrorV>(s@),
            Err(e) => song_spec(uconf@, song_srcdir@, song_builddir@) == Err::<SongV, ModelErrorV>(e@),
        },
{
    let srcdir = match path_parent(song_srcdir.as_str()) {
        Some(d) => d,
        None => {
            return Err(ModelError::NoParent(song_srcdir));
        },
    };
    let time_signature = match time_signature_of_string(copy_opt_string(&uconf.info.time_signature)) {
        Ok(t) => t,
        Err(e) => {
            return Err(e);
        },
    };
    let structure = structure_of_usersong(&uconf.structure);
    let song = Song {
        srcdir,
        texfiles: copy_strings(&uconf.files.tex),
        author: uconf.info.author.clone(),
        tempo: uconf.info.tempo,
        time_signature,
        pdfname: normalize_pdf_name(&uconf.info.author, &uconf.info.title),
        title: uconf.info.title.clone(),
        builddir: song_builddir,
        lilypondfiles: copy_strings(&uconf.files.lilypond),
        wavfiles: copy_strings(&uconf.files.wav),
        date: uconf.meta.date.clone(),
        structure,
    };
    Ok(song)
}

/// `t` is the id of one of the section types.
pub open spec fn section_known(sections: Seq<Section>, t: Seq<char>) -> bool {
    exists|i: int| 0 <= i < sections.len() && (#[trigger] sections[i]).id@ == t
}

/// The type of the first chord section or reference, from index `i` on,
/// whose type is not a known section type.
pub open spec fn first_unknown_section(items: Seq<StructureItemV>, sections: Seq<Section>, i: int) -> Option<Seq<char>>
    decreases items.len() - i,
{
    if i < 0 || i >= items.len() {
        None
    } else {
        match items[i] {
            StructureItemV::ItemChords(c) => if section_known(sections, c.section_type) {
                first_unknown_section(items, sections, i + 1)
            } else {
                Some(c.section_type)
            },
            StructureItemV::ItemRef(r) => if section_known(sections, r.section_type) {
                first_unknown_section(items, sections, i + 1)
            } else {
                Some(r.section_type)
            },
            _ => first_unknown_section(items, sections, i + 1),
        }
    }
}

fn section_known_exec(sections: &Vec<Section>, t: &String) -> (r: bool)
    ensures
        r == section_known(sections@, t@),
{
    let mut i: usize = 0;
    while i < sections.len()
        invariant
            i <= sections@.len(),
            forall|j: int| 0 <= j < i ==> (#[trigger] sections@[j]).id@ != t@,
        decreases sections@.len() - i,
    {
        if str_eq(sections[i].id.as_str(), t.as_str()) {
            return true;
        }
        i = i + 1;
    }
    false
}

/// Checks that every chord section and every reference of a song has a
/// known section type (a reference's own type, or else the type of the
/// section it refers to); the first one that has not is reported.
pub fn check_section_types(sections: &Vec<Section>, song: &Song) -> (r: Result<(), ModelError>)
    ensures
        match first_unknown_section(items_view(song.structure@), sections@, 0) {
            None => r is Ok,
            Some(t) => r matches Err(e) && e@ == ModelErrorV::UnknownSectionType(t),
        },
{
    let ghost iv = items_view(song.structure@);
    let mut i: usize = 0;
    while i < song.structure.len()
        invariant
            iv == items_view(song.structure@),
            i <= song.structure@.len(),
            first_unknown_section(iv, sections@, i as int) == first_unknown_section(iv, sections@, 0),
        decreases song.structure@.len() - i,
    {
        assert(iv[i as int] == song.structure@[i as int]@);
        match &song.structure[i].item {
            StructureItemContent::ItemChords(c) => {
                if !section_known_exec(sections, &c.section_type) {
                    return Err(ModelError::UnknownSectionType(c.section_type.clone()));
                }
            },
            StructureItemContent::ItemRef(r) => {
                if !section_known_exec(sections, &r.section_type) {
                    return Err(ModelError::UnknownSectionType(r.section_type.clone()));
                }
            },
            _ => {},
        }
        i = i + 1;
    }
    Ok(())
}

// ------------------------------------------------------------------ books

/// The index of the first user song, from `i` on, by `author` titled `title`.
pub open spec fn find_user_song(songs: Seq<UserSongWithPath>, author: Seq<char>, title: Seq<char>, i: int) -> Option<int>
    decreases songs.len() - i,
{
    if i < 0 || i >= songs.len() {
        None
    } else if author == songs[i].song.info.author@ && title == songs[i].song.info.title@ {
        Some(i)
    } else {
        find_user_song(songs, author, title, i + 1)
    }
}

/// The first user song by `author` titled `title`, if any.
pub fn song_exists(author: &str, title: &str, songs: &Vec<UserSongWithPath>) -> (r: Option<UserSongWithPath>)
    ensures
        match find_user_song(songs@, author@, title@, 0) {
            Some(i) => r matches Some(x) && x@ == songs@[i]@,
            None => r is None,
        },
{
    let mut i: usize = 0;
    while i < songs.len()
        invariant
            i <= songs@.len(),
            find_user_song(songs@, author@, title@, i as int) == find_user_song(songs@, author@, title@, 0),
        decreases songs@.len() - i,
    {
        let song = &songs[i];
        if str_eq(author, song.song.info.author.as_str()) && str_eq(title, song.song.info.title.as_str()) {
            return Some(song.copy());
        }
        i = i + 1;
    }
    None
}

/// Where a song found at `p` under `songdir` is built under `builddir`: the
/// song file's directory, with `songdir/` replaced by `songs/`, appended to
/// `builddir`.
pub open spec fn build_relative_path_spec(songdir: Seq<char>, builddir: Seq<char>, p: Seq<char>) -> Result<Seq<char>, ModelErrorV> {
    match parent_spec(p) {
        None => Err(ModelErrorV::NoParent(p)),
        Some(dir) => Ok(push_spec(builddir, replace_spec(dir, songdir + "/"@, "songs/"@))),
    }
}

/// The build directory of the song whose file is `p`, under `builddir`.
pub fn build_relative_path_of_source_absolute_path(songdir: &str, builddir: &str, p: String) -> (r: Result<String, ModelError>)
    ensures
        match r {
            Ok(x) => build_relative_path_spec(songdir@, builddir@, p@) == Ok::<Seq<char>, ModelErrorV>(x@),
            Err(e) => build_relative_path_spec(songdir@, builddir@, p@) == Err::<Seq<char>, ModelErrorV>(e@),
        },
{
    let dir = match path_parent(p.as_str()) {
        Some(d) => d,
        None => {
            return Err(ModelError::NoParent(p));
        },
    };
    proof { reveal_strlit("/"); }
    let prefix = String::from_str(songdir).concat("/");
    let rel = replace_all(dir.as_str(), prefix.as_str(), "songs/");
    Ok(path_push(builddir, rel.as_str()))
}

/// The entry of one song of a book, or why it cannot be found.
pub open spec fn book_song_spec(
    songdir: Seq<char>,
    buildroot: Seq<char>,
    author: Seq<char>,
    title: Seq<char>,
    songs: Seq<UserSongWithPath>,
) -> Result<BookSongV, ModelErrorV> {
    match find_user_song(songs, author, title, 0) {
        None => Err(ModelErrorV::MissingSong(author, title)),
        Some(i) => match build_relative_path_spec(songdir, buildroot, songs[i].path@) {
            Err(e) => Err(e),
            Ok(path) => Ok(
                BookSongV { title: title, author: author, pdfname: pdf_name_spec(author, title), path: path },
            ),
        },
    }
}

/// The entries of a book's songs and the last error among them, if any.
pub open spec fn book_songs_spec(
    songdir: Seq<char>,
    buildroot: Seq<char>,
    wanted: Seq<crate::model::input_model::UserBookSong>,
    songs: Seq<UserSongWithPath>,
) -> (Seq<BookSongV>, Option<ModelErrorV>)
    decreases wanted.len(),
{
    if wanted.len() == 0 {
        (Seq::empty(), None)
    } else {
        let (ok, err) = book_songs_spec(songdir, buildroot, wanted.drop_last(), songs);
        match book_song_spec(songdir, buildroot, wanted.last().author@, wanted.last().title@, songs) {
            Ok(b) => (ok.push(b), err),
            Err(e) => (ok, Some(e)),
        }
    }
}

/// Where a book is built: `buildroot/books/TITLE`, spaces of the title
/// replaced by '_'.
pub open spec fn book_builddir_spec(buildroot: Seq<char>, title: Seq<char>) -> Seq<char> {
    push_spec(push_spec(buildroot, "books"@), replace_spec(title, " "@, "_"@))
}

/// The book that a user book describes: every song it names must exist;
/// otherwise the error of the last one that fails is reported.
pub open spec fn book_spec(
    songdir: Seq<char>,
    buildroot: Seq<char>,
    uconf: UserBook,
    songs: Seq<UserSongWithPath>,
) -> Result<BookV, ModelErrorV> {
    let (ok, err) = book_songs_spec(songdir, buildroot, uconf.songs@, songs);
    match err {
        Some(e) => Err(e),
        None => Ok(
            BookV {
                title: uconf.title@,
                songs: ok,
                builddir: book_builddir_spec(buildroot, uconf.title@),
                pdfname: uconf.title@,
                lyrics_only: uconf.lyrics_only,
                cover_image: uconf.cover_image,
            },
        ),
    }
}

/// Builds the book that the user book `uconf`, read from `filepath`,
/// describes, finding its songs among `songs`.
pub fn decode_book(
    songdir: &str,
    buildroot: &str,
    filepath: &String,
    uconf: UserBook,
    songs: &Vec<UserSongWithPath>,
) -> (r: Result<(Book, UserBookWithPath), ModelError>)
    ensures
        match r {
            Ok((b, ub)) => book_spec(songdir@, buildroot@, uconf, songs@) == Ok::<BookV, ModelErrorV>(b@)
                && ub.book == uconf && ub.path@ == filepath@,
            Err(e) => book_spec(songdir@, buildroot@, uconf, songs@) == Err::<BookV, ModelErrorV>(e@),
        },
{
    proof { reveal_strlit(" "); }
    let title_dir = replace_all(uconf.title.as_str(), " ", "_");
    let books = path_push(buildroot, "books");
    let book_builddir = path_push(books.as_str(), title_dir.as_str());
    let mut out: Vec<BookSong> = Vec::new();
    let mut last_error: Option<ModelError> = None;
    let ghost wanted = uconf.songs@;
    let mut i: usize = 0;
    assert(wanted.subrange(0, 0) =~= Seq::<crate::model::input_model::UserBookSong>::empty());
    while i < uconf.songs.len()
        invariant
            wanted == uconf.songs@,
            i <= wanted.len(),
            out@.map_values(|b: BookSong| b@) == book_songs_spec(songdir@, buildroot@, wanted.subrange(0, i as int), songs@).0,
            match last_error {
                None => book_songs_spec(songdir@, buildroot@, wanted.subrange(0, i as int), songs@).1 is None,
                Some(e) => book_songs_spec(songdir@, buildroot@, wanted.subrange(0, i as int), songs@).1 == Some(e@),
            },
        decreases wanted.len() - i,
    {
        assert(wanted.subrange(0, i + 1).drop_last() =~= wanted.subrange(0, i as int));
        let ub = &uconf.songs[i];
        match song_exists(ub.author.as_str(), ub.title.as_str(), songs) {
            Some(uswp) => {
                match build_relative_path_of_source_absolute_path(songdir, buildroot, uswp.path) {
                    Ok(path) => {
                        let b = BookSong {
                            title: ub.title.clone(),
                            author: ub.author.clone(),
                            pdfname: normalize_pdf_name(&ub.author, &ub.title),
                            path,
                        };
                        let ghost old = out@;
                        out.push(b);
                        assert(out@.map_values(|b: BookSong| b@) =~= old.map_values(|b: BookSong| b@).push(b@));
                    },
                    Err(e) => {
                        last_error = Some(e);
                    },
                }
            },
            None => {
                last_error = Some(ModelError::MissingSong(ub.author.clone(), ub.title.clone()));
            },
        }
        i = i + 1;
    }
    assert(wanted.subrange(0, wanted.len() as int) =~= wanted);
    match last_error {
        Some(e) => Err(e),
        None => {
            let book = Book {
                title: uconf.title.clone(),
                songs: out,
                builddir: book_builddir,
                pdfname: uconf.title.clone(),
                lyrics_only: uconf.lyrics_only,
                cover_image: uconf.cover_image,
            };
            let path = filepath.clone();
            Ok((book, UserBookWithPath { book: uconf, path }))
        },
    }
}

/// Where a song read from `filepath` (`.../AUTHOR/TITLE/song.json`) is built:
/// `buildroot/songs/AUTHOR/TITLE`.
pub open spec fn song_builddir_spec(buildroot: Seq<char>, filepath: Seq<char>) -> Seq<char> {
    let title_dir = parent_spec(filepath)->Some_0;
    let author_dir = parent_spec(title_dir)->Some_0;
    push_spec(
        push_spec(push_spec(buildroot, "songs"@), file_name_spec(author_dir)->Some_0),
        file_name_spec(title_dir)->Some_0,
    )
}

/// The song file lies in a TITLE directory inside an AUTHOR directory.
pub open spec fn song_file_placed(filepath: Seq<char>) -> bool {
    &&& parent_spec(filepath) is Some
    &&& file_name_spec(parent_spec(filepath)->Some_0) is Some
    &&& parent_spec(parent_spec(filepath)->Some_0) is Some
    &&& file_name_spec(parent_spec(parent_spec(filepath)->Some_0)->Some_0) is Some
}

/// Builds the song that the user song `uconf`, read from `filepath`,
/// describes, and checks its section types against `sections`.
pub fn decode_song(
    buildroot: &str,
    sections: &Vec<Section>,
    filepath: &String,
    uconf: UserSong,
) -> (r: Result<(Song, UserSongWithPath), ModelError>)
    requires
        song_file_placed(filepath@),
        song_readable(uconf@, filepath@),
    ensures
        match song_spec(uconf@, filepath@, song_builddir_spec(buildroot@, filepath@)) {
            Err(e) => r matches Err(x) && x@ == e,
            Ok(s) => match first_unknown_section(s.structure, sections@, 0) {
                Some(t) => r matches Err(x) && x@ == ModelErrorV::UnknownSectionType(t),
                None => r matches Ok((song, us)) && song@ == s && us.song == uconf && us.path@ == filepath@,
            },
        },
{
    let title_dir = match path_parent(filepath.as_str()) {
        Some(d) => d,
        None => {
            return Err(ModelError::NoParent(filepath.clone()));
        },
    };
    let author_dir = match path_parent(title_dir.as_str()) {
        Some(d) => d,
        None => {
            return Err(ModelError::NoParent(title_dir));
        },
    };
    let parent_title = match path_file_name(title_dir.as_str()) {
        Some(n) => n,
        None => {
            return Err(ModelError::NoParent(title_dir));
        },
    };
    let parent_author = match path_file_name(author_dir.as_str()) {
        Some(n) => n,
        None => {
            return Err(ModelError::NoParent(author_dir));
        },
    };
    let songs_dir = path_push(buildroot, "songs");
    let a = path_push(songs_dir.as_str(), parent_author.as_str());
    let song_builddir = path_push(a.as_str(), parent_title.as_str());
    let song = match song_of_usersong(uconf.copy(), filepath.clone(), song_builddir) {
        Ok(s) => s,
        Err(e) => {
            return Err(e);
        },
    };
    match check_section_types(sections, &song) {
        Ok(()) => {},
        Err(e) => {
            return Err(e);
        },
    }
    let path = filepath.clone();
    Ok((song, UserSongWithPath { song: uconf, path }))
}

} // verus!
