//! The order in which songs and books are built and listed: songs by author
//! then title, books by title, both as `human_sort::compare` orders names.
use vstd::prelude::*;
use crate::human::{human_compare, human_order};
use crate::text::digit_runs_fit;
use crate::model::types::{Book, BookV, Song, SongV};

verus! {

/// How two songs compare: by author, then by title.
pub open spec fn song_order(a: SongV, b: SongV) -> i8 {
    if human_order(a.author, b.author) != 0 {
        human_order(a.author, b.author)
    } else {
        human_order(a.title, b.title)
    }
}

/// Each song comes no later than the next.
pub open spec fn songs_sorted(v: Seq<SongV>) -> bool {
    forall|i: int| 0 <= i < v.len() - 1 ==> song_order(#[trigger] v[i], v[i + 1]) != 1
}

/// Each book comes no later than the next, by title.
pub open spec fn books_sorted(v: Seq<BookV>) -> bool {
    forall|i: int| 0 <= i < v.len() - 1 ==> human_order(#[trigger] v[i].title, v[i + 1].title) != 1
}

/// The authors and titles of the songs can be compared by `human_sort::compare`.
pub open spec fn comparable_songs(songs: Seq<Song>) -> bool {
    forall|i: int| 0 <= i < songs.len() ==> digit_runs_fit(#[trigger] songs[i].author@) && digit_runs_fit(songs[i].title@)
}

/// The titles of the books can be compared by `human_sort::compare`.
pub open spec fn comparable_books(books: Seq<Book>) -> bool {
    forall|i: int| 0 <= i < books.len() ==> digit_runs_fit(#[trigger] books[i].title@)
}

/// The name of a song: its author and title.
pub open spec fn song_key(s: SongV) -> (Seq<char>, Seq<char>) {
    (s.author, s.title)
}

/// The values of some songs.
pub open spec fn song_views(v: Seq<Song>) -> Seq<SongV> {
    v.map_values(|s: Song| s@)
}

/// The songs of `v` with the name `k`, in order.
pub open spec fn songs_named(v: Seq<SongV>, k: (Seq<char>, Seq<char>)) -> Seq<SongV> {
    v.filter(|s: SongV| song_key(s) == k)
}

/// The values of some books.
pub open spec fn book_views(v: Seq<Book>) -> Seq<BookV> {
    v.map_values(|b: Book| b@)
}

/// The books of `v` with the title `t`, in order.
pub open spec fn books_titled(v: Seq<BookV>, t: Seq<char>) -> Seq<BookV> {
    v.filter(|b: BookV| b.title == t)
}

/// Inserting `x` at `p` before items none of which shares its property (if
/// it has it) adds `x` at the end of the items with the property, and
/// leaves the others as they were.
proof fn lemma_insert_filter<A>(sv: Seq<A>, p: int, x: A, pred: spec_fn(A) -> bool)
    requires
        0 <= p <= sv.len(),
        forall|q: int| p <= q < sv.len() ==> (pred(x) ==> !pred(#[trigger] sv[q])),
    ensures
        sv.insert(p, x).filter(pred) == (if pred(x) {
            sv.filter(pred).push(x)
        } else {
            sv.filter(pred)
        }),
{
    let a = sv.take(p);
    let b = sv.skip(p);
    assert(sv.insert(p, x) =~= a + seq![x] + b);
    assert(sv =~= a + b);
    Seq::filter_distributes_over_add(a + seq![x], b, pred);
    Seq::filter_distributes_over_add(a, seq![x], pred);
    Seq::filter_distributes_over_add(a, b, pred);
    reveal_with_fuel(Seq::filter, 2);
    assert(seq![x].drop_last() =~= Seq::<A>::empty());
    if pred(x) {
        assert(b.all(|y: A| !pred(y))) by {
            assert forall|q: int| 0 <= q < b.len() implies !pred(#[trigger] b[q]) by {
                assert(b[q] == sv[p + q]);
            }
        }
        b.lemma_all_neg_filter_empty(pred);
        assert(b.filter(pred) =~= Seq::<A>::empty());
        assert(a.filter(pred) + seq![x] + b.filter(pred) =~= (a.filter(pred) + b.filter(pred)).push(x));
    } else {
        assert(seq![x].filter(pred) =~= Seq::<A>::empty());
        assert(a.filter(pred) + seq![x].filter(pred) + b.filter(pred) =~= a.filter(pred) + b.filter(pred));
    }
}

/// Pushing an item adds it to the items with the property, if it has it.
proof fn lemma_push_filter<A>(v: Seq<A>, x: A, pred: spec_fn(A) -> bool)
    ensures
        v.push(x).filter(pred) == (if pred(x) {
            v.filter(pred).push(x)
        } else {
            v.filter(pred)
        }),
{
    reveal_with_fuel(Seq::filter, 1);
    assert(v.push(x).drop_last() =~= v);
}

fn song_after(a: &Song, b: &Song) -> (r: bool)
    requires
        digit_runs_fit(a.author@),
        digit_runs_fit(a.title@),
        digit_runs_fit(b.author@),
        digit_runs_fit(b.title@),
    ensures
        r == (song_order(a@, b@) == 1),
        song_order(b@, a@) == -song_order(a@, b@),
        song_key(a@) == song_key(b@) ==> song_order(a@, b@) == 0,
{
    let t = human_compare(a.author.as_str(), b.author.as_str());
    let _ = human_compare(b.author.as_str(), a.author.as_str());
    let _ = human_compare(b.title.as_str(), a.title.as_str());
    if t != 0 {
        return t == 1;
    }
    human_compare(a.title.as_str(), b.title.as_str()) == 1
}

/// The songs, ordered by author then title; songs with the same author and
/// title keep their relative order.
pub fn songs_in_order(songs: &Vec<Song>) -> (r: Vec<Song>)
    requires
        comparable_songs(songs@),
    ensures
        r@.map_values(|s: Song| s@).to_multiset() == songs@.map_values(|s: Song| s@).to_multiset(),
        songs_sorted(r@.map_values(|s: Song| s@)),
        forall|k: (Seq<char>, Seq<char>)|
            #[trigger] songs_named(song_views(r@), k) == songs_named(song_views(songs@), k),
{
    let ghost all = songs@.map_values(|s: Song| s@);
    let mut sorted: Vec<Song> = Vec::new();
    let mut n: usize = 0;
    proof {
        assert(all.take(0) =~= Seq::<SongV>::empty());
        assert(sorted@.map_values(|s: Song| s@) =~= Seq::<SongV>::empty());
    }
    while n < songs.len()
        invariant
            n <= songs@.len(),
            all == songs@.map_values(|s: Song| s@),
            comparable_songs(songs@),
            comparable_songs(sorted@),
            sorted@.map_values(|s: Song| s@).to_multiset() == all.take(n as int).to_multiset(),
            songs_sorted(sorted@.map_values(|s: Song| s@)),
            forall|k: (Seq<char>, Seq<char>)|
                #[trigger] songs_named(song_views(sorted@), k) == songs_named(all.take(n as int), k),
        decreases songs@.len() - n,
    {
        let x = songs[n].clone_song();
        let ghost sv = sorted@.map_values(|s: Song| s@);
        let mut p: usize = sorted.len();
        let mut done = false;
        while p > 0 && !done
            invariant
                p <= sorted@.len(),
                sv == sorted@.map_values(|s: Song| s@),
                digit_runs_fit(x.author@) && digit_runs_fit(x.title@),
                comparable_songs(sorted@),
                done ==> p > 0 && song_order(sv[p - 1], x@) != 1,
                p < sorted@.len() ==> song_order(sv[p as int], x@) == 1 && song_order(x@, sv[p as int]) == -1,
                forall|q: int| p <= q < sv.len() ==> song_key(#[trigger] sv[q]) != song_key(x@),
            decreases p + (if done { 0int } else { 1int }),
        {
            assert(sv[p - 1] == sorted@[p - 1]@);
            if song_after(&sorted[p - 1], &x) {
                p = p - 1;
            } else {
                done = true;
            }
        }
        let ghost xv = x@;
        let ghost sorted0 = sorted@;
        sorted.insert(p, x);
        proof {
            let nv = sorted@.map_values(|s: Song| s@);
            assert(nv =~= sv.insert(p as int, xv));
            vstd::seq_lib::to_multiset_insert(sv, p as int, xv);
            assert(all.take(n + 1) =~= all.take(n as int).push(xv));
            vstd::seq_lib::to_multiset_build(all.take(n as int), xv);
            assert forall|k: (Seq<char>, Seq<char>)|
                #[trigger] songs_named(nv, k) == songs_named(all.take(n + 1), k) by {
                let pred = |s: SongV| song_key(s) == k;
                lemma_insert_filter(sv, p as int, xv, pred);
                lemma_push_filter(all.take(n as int), xv, pred);
                assert(songs_named(song_views(sorted0), k) == songs_named(all.take(n as int), k));
                assert(sv =~= song_views(sorted0));
            }
            assert forall|j: int| 0 <= j < nv.len() - 1 implies song_order(#[trigger] nv[j], nv[j + 1]) != 1 by {
                if j + 1 < p {
                    assert(nv[j] == sv[j] && nv[j + 1] == sv[j + 1]);
                } else if j + 1 == p {
                    assert(nv[j] == sv[j] && nv[j + 1] == xv);
                } else if j == p {
                    assert(nv[j] == xv && nv[j + 1] == sv[j]);
                } else {
                    assert(nv[j] == sv[j - 1] && nv[j + 1] == sv[j]);
                }
            }
            assert forall|j: int| 0 <= j < sorted@.len() implies digit_runs_fit(#[trigger] sorted@[j].author@)
                && digit_runs_fit(sorted@[j].title@) by {
                assert(nv[j] == sorted@[j]@);
                if j < p {
                    assert(nv[j] == sv[j]);
                } else if j > p {
                    assert(nv[j] == sv[j - 1]);
                }
            }
        }
        n = n + 1;
    }
    proof {
        assert(all.take(n as int) =~= all);
    }
    sorted
}

/// The books, ordered by title; books with the same title keep their
/// relative order.
pub fn books_in_order(books: &Vec<Book>) -> (r: Vec<Book>)
    requires
        comparable_books(books@),
    ensures
        r@.map_values(|b: Book| b@).to_multiset() == books@.map_values(|b: Book| b@).to_multiset(),
        books_sorted(r@.map_values(|b: Book| b@)),
        forall|t: Seq<char>| #[trigger] books_titled(book_views(r@), t) == books_titled(book_views(books@), t),
{
    let ghost all = books@.map_values(|b: Book| b@);
    let mut sorted: Vec<Book> = Vec::new();
    let mut n: usize = 0;
    proof {
        assert(all.take(0) =~= Seq::<BookV>::empty());
        assert(sorted@.map_values(|b: Book| b@) =~= Seq::<BookV>::empty());
    }
    while n < books.len()
        invariant
            n <= books@.len(),
            all == books@.map_values(|b: Book| b@),
            comparable_books(books@),
            comparable_books(sorted@),
            sorted@.map_values(|b: Book| b@).to_multiset() == all.take(n as int).to_multiset(),
            books_sorted(sorted@.map_values(|b: Book| b@)),
            forall|t: Seq<char>| #[trigger] books_titled(book_views(sorted@), t) == books_titled(all.take(n as int), t),
        decreases books@.len() - n,
    {
        let x = books[n].clone_book();
        let ghost sv = sorted@.map_values(|b: Book| b@);
        let mut p: usize = sorted.len();
        let mut done = false;
        while p > 0 && !done
            invariant
                p <= sorted@.len(),
                sv == sorted@.map_values(|b: Book| b@),
                digit_runs_fit(x.title@),
                comparable_books(sorted@),
                done ==> p > 0 && human_order(sv[p - 1].title, x@.title) != 1,
                p < sorted@.len() ==> human_order(sv[p as int].title, x@.title) == 1 && human_order(
                    x@.title,
                    sv[p as int].title,
                ) == -1,
                forall|q: int| p <= q < sv.len() ==> (#[trigger] sv[q]).title != x@.title,
            decreases p + (if done { 0int } else { 1int }),
        {
            assert(sv[p - 1] == sorted@[p - 1]@);
            let c = human_compare(sorted[p - 1].title.as_str(), x.title.as_str());
            if c == 1 {
                p = p - 1;
            } else {
                done = true;
            }
        }
        let ghost xv = x@;
        let ghost xe = x;
        let ghost before = sorted@;
        let ghost sorted0 = sorted@;
        sorted.insert(p, x);
        proof {
            let nv = sorted@.map_values(|b: Book| b@);
            assert(nv =~= sv.insert(p as int, xv));
            vstd::seq_lib::to_multiset_insert(sv, p as int, xv);
            assert(all.take(n + 1) =~= all.take(n as int).push(xv));
            vstd::seq_lib::to_multiset_build(all.take(n as int), xv);
            assert forall|t: Seq<char>| #[trigger] books_titled(nv, t) == books_titled(all.take(n + 1), t) by {
                let pred = |b: BookV| b.title == t;
                lemma_insert_filter(sv, p as int, xv, pred);
                lemma_push_filter(all.take(n as int), xv, pred);
                assert(books_titled(book_views(sorted0), t) == books_titled(all.take(n as int), t));
                assert(sv =~= book_views(sorted0));
            }
            assert forall|j: int| 0 <= j < nv.len() - 1 implies human_order(#[trigger] nv[j].title, nv[j + 1].title)
                != 1 by {
                if j + 1 < p {
                    assert(nv[j] == sv[j] && nv[j + 1] == sv[j + 1]);
                } else if j + 1 == p {
                    assert(nv[j] == sv[j] && nv[j + 1] == xv);
                } else if j == p {
                    assert(nv[j] == xv && nv[j + 1] == sv[j]);
                } else {
                    assert(nv[j] == sv[j - 1] && nv[j + 1] == sv[j]);
                }
            }
            assert forall|j: int| 0 <= j < sorted@.len() implies digit_runs_fit(#[trigger] sorted@[j].title@) by {
                assert(sorted@ == before.insert(p as int, xe));
                if j < p {
                    assert(sorted@[j] == before[j]);
                    assert(digit_runs_fit(before[j].title@));
                } else if j > p {
                    assert(sorted@[j] == before[j - 1]);
                    assert(digit_runs_fit(before[j - 1].title@));
                } else {
                    assert(sorted@[j] == xe);
                }
            }
        }
        n = n + 1;
    }
    proof {
        assert(all.take(n as int) =~= all);
    }
    sorted
}

} // verus!
