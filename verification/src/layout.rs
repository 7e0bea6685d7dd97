//! What the build graph of a world is: which nodes it has, in which order,
//! and which edges join them. A node is named by its position; node 0 is
//! the artefact `All`, then come the blocks of the songs, the broken songs
//! and the books, in the order of the world.
use vstd::prelude::*;
use crate::graph::ArtefactV;
use crate::model::types::{BookSongV, BookV, SongV, StructureItemV};

verus! {

/// An edge: source, target and label.
pub type EdgeV = (int, int, Seq<char>);

/// The section ids of the items of a structure that have lyrics (chords
/// sections and references), in order.
pub open spec fn lyric_ids(items: Seq<StructureItemV>) -> Seq<Seq<char>>
    decreases items.len(),
{
    if items.len() == 0 {
        Seq::empty()
    } else {
        let r = lyric_ids(items.drop_last());
        match items.last() {
            StructureItemV::ItemChords(c) => r.push(c.section_id),
            StructureItemV::ItemRef(c) => r.push(c.section_id),
            _ => r,
        }
    }
}

/// The lyrics file of a section.
pub open spec fn lyrics_file(id: Seq<char>) -> Seq<char> {
    "lyrics/"@ + id + ".tex"@
}

/// The nodes of a song's lilypond files: the mounted file, then its snippet.
pub open spec fn ly_nodes(s: SongV, fs: Seq<Seq<char>>) -> Seq<ArtefactV>
    decreases fs.len(),
{
    if fs.len() == 0 {
        Seq::empty()
    } else {
        ly_nodes(s, fs.drop_last()) + seq![
            ArtefactV::MountedFile(s, fs.last()),
            ArtefactV::LySnippet(s, fs.last()),
        ]
    }
}

/// The nodes of a song's sound files: the midi file, then the wav file.
pub open spec fn wav_nodes(s: SongV, fs: Seq<Seq<char>>) -> Seq<ArtefactV>
    decreases fs.len(),
{
    if fs.len() == 0 {
        Seq::empty()
    } else {
        wav_nodes(s, fs.drop_last()) + seq![ArtefactV::Midi(s, fs.last()), ArtefactV::Wav(s, fs.last())]
    }
}

/// The first three nodes of a song's block.
pub open spec fn song_head(s: SongV) -> Seq<ArtefactV> {
    seq![ArtefactV::BootstrapSong(s), ArtefactV::SongPdf(s), ArtefactV::DeliverySongPdf(s)]
}

/// The mounted tex files of a song.
pub open spec fn tex_nodes(s: SongV) -> Seq<ArtefactV> {
    s.texfiles.map_values(|t: Seq<char>| ArtefactV::MountedFile(s, t))
}

/// The mounted lyrics files of a song.
pub open spec fn lyric_nodes(s: SongV) -> Seq<ArtefactV> {
    lyric_ids(s.structure).map_values(|id: Seq<char>| ArtefactV::MountedFile(s, lyrics_file(id)))
}

/// The block of nodes of a song: bootstrap, pdf, delivery, the mounted tex
/// files, the mounted lyrics files, the lilypond pairs and the sound pairs.
pub open spec fn song_nodes(s: SongV) -> Seq<ArtefactV> {
    song_head(s) + tex_nodes(s) + lyric_nodes(s) + ly_nodes(s, s.lilypondfiles) + wav_nodes(
        s,
        s.wavfiles,
    )
}

/// The edges of the tex files of a song whose block starts at `b`.
pub open spec fn tex_edges(b: int, n: nat) -> Seq<EdgeV>
    decreases n,
{
    if n == 0 {
        Seq::empty()
    } else {
        let t = b + 3 + n - 1;
        tex_edges(b, (n - 1) as nat) + seq![(t, b + 1, "lualatex"@), (b, t, "bootstrap"@)]
    }
}

/// The edges of the lyrics files of a song whose block starts at `b`; the
/// first lyrics file is node `first`.
pub open spec fn lyric_edges(b: int, first: int, n: nat) -> Seq<EdgeV>
    decreases n,
{
    if n == 0 {
        Seq::empty()
    } else {
        lyric_edges(b, first, (n - 1) as nat).push((first + n - 1, b + 1, "lualatex"@))
    }
}

/// The edges of the lilypond pairs of a song whose block starts at `b`.
pub open spec fn ly_edges(b: int, first: int, n: nat) -> Seq<EdgeV>
    decreases n,
{
    if n == 0 {
        Seq::empty()
    } else {
        let t = first + 2 * (n - 1);
        ly_edges(b, first, (n - 1) as nat) + seq![
            (t, t + 1, "lilypond-book"@),
            (t + 1, b + 1, "lualatex"@),
            (b, t, "bootstrap"@),
        ]
    }
}

/// The edges of the sound pairs of a song whose block starts at `b`.
pub open spec fn wav_edges(b: int, first: int, n: nat) -> Seq<EdgeV>
    decreases n,
{
    if n == 0 {
        Seq::empty()
    } else {
        let m = first + 2 * (n - 1);
        wav_edges(b, first, (n - 1) as nat) + seq![
            (b, m, "midi"@),
            (m, m + 1, "wav"@),
            (m + 1, 0, "all"@),
        ]
    }
}

/// The last edges of a song's block.
pub open spec fn song_tail_edges(b: int) -> Seq<EdgeV> {
    seq![(b, b + 1, "delivery"@), (b + 1, b + 2, "delivery"@), (b + 2, 0, "all"@)]
}

/// The edges of a song whose block starts at node `b`.
pub open spec fn song_edges(s: SongV, b: int) -> Seq<EdgeV> {
    let t = s.texfiles.len();
    let l = lyric_ids(s.structure).len();
    let k = s.lilypondfiles.len();
    seq![(b, b + 1, "bootstrap"@)] + tex_edges(b, t) + lyric_edges(b, b + 3 + t, l) + ly_edges(
        b,
        b + 3 + t + l,
        k,
    ) + wav_edges(b, b + 3 + t + l + 2 * k, s.wavfiles.len()) + song_tail_edges(b)
}

/// The nodes of the blocks of songs, one after the other.
pub open spec fn songs_nodes(ss: Seq<SongV>) -> Seq<ArtefactV>
    decreases ss.len(),
{
    if ss.len() == 0 {
        Seq::empty()
    } else {
        songs_nodes(ss.drop_last()) + song_nodes(ss.last())
    }
}

/// The edges of the blocks of songs, the first block starting at node 1.
pub open spec fn songs_edges(ss: Seq<SongV>) -> Seq<EdgeV>
    decreases ss.len(),
{
    if ss.len() == 0 {
        Seq::empty()
    } else {
        songs_edges(ss.drop_last()) + song_edges(ss.last(), songs_nodes(ss.drop_last()).len() as int + 1)
    }
}

/// The node of the delivered pdf of the last song with this author and title.
pub open spec fn delivery_node(ss: Seq<SongV>, author: Seq<char>, title: Seq<char>) -> Option<int>
    decreases ss.len(),
{
    if ss.len() == 0 {
        None
    } else if ss.last().author == author && ss.last().title == title {
        Some(songs_nodes(ss.drop_last()).len() + 3int)
    } else {
        delivery_node(ss.drop_last(), author, title)
    }
}

/// The nodes of the broken songs.
pub open spec fn broken_nodes(paths: Seq<Seq<char>>) -> Seq<ArtefactV> {
    paths.map_values(|p: Seq<char>| ArtefactV::Broken(p))
}

/// The edges of the broken songs, the first one being node `first`.
pub open spec fn broken_edges(first: int, n: nat) -> Seq<EdgeV>
    decreases n,
{
    if n == 0 {
        Seq::empty()
    } else {
        broken_edges(first, (n - 1) as nat).push((first + n - 1, 0, "all"@))
    }
}

/// The nodes of a book: bootstrap, pdf, delivery.
pub open spec fn book_nodes(b: BookV) -> Seq<ArtefactV> {
    seq![ArtefactV::BootstrapBook(b), ArtefactV::BookPdf(b), ArtefactV::DeliveryBookPdf(b)]
}

/// The nodes of the books, one after the other.
pub open spec fn books_nodes(bs: Seq<BookV>) -> Seq<ArtefactV>
    decreases bs.len(),
{
    if bs.len() == 0 {
        Seq::empty()
    } else {
        books_nodes(bs.drop_last()) + book_nodes(bs.last())
    }
}

/// The first song of a book that no song of the world matches.
pub open spec fn first_missing(ss: Seq<SongV>, xs: Seq<BookSongV>) -> Option<(Seq<char>, Seq<char>)>
    decreases xs.len(),
{
    if xs.len() == 0 {
        None
    } else {
        match first_missing(ss, xs.drop_last()) {
            Some(m) => Some(m),
            None => if delivery_node(ss, xs.last().author, xs.last().title) is None {
                Some((xs.last().author, xs.last().title))
            } else {
                None
            },
        }
    }
}

/// The position of the first book with a song that the world lacks.
pub open spec fn first_bad_book(ss: Seq<SongV>, bs: Seq<BookV>) -> Option<int>
    decreases bs.len(),
{
    if bs.len() == 0 {
        None
    } else {
        match first_bad_book(ss, bs.drop_last()) {
            Some(m) => Some(m),
            None => if first_missing(ss, bs.last().songs) is Some {
                Some(bs.len() - 1)
            } else {
                None
            },
        }
    }
}

/// The edges that tie a book's pdf (node `pdf`) to the delivered pdfs of
/// its songs.
pub open spec fn book_song_edges(ss: Seq<SongV>, xs: Seq<BookSongV>, pdf: int) -> Seq<EdgeV> {
    xs.map_values(
        |x: BookSongV|
            (delivery_node(ss, x.author, x.title).unwrap(), pdf, "book depends on song"@),
    )
}

/// The edges of a book whose nodes start at `c`.
pub open spec fn book_edges(ss: Seq<SongV>, b: BookV, c: int) -> Seq<EdgeV> {
    seq![(c, c + 1, "lualatex"@), (c + 1, c + 2, "delivery"@), (c + 2, 0, "all"@)] + book_song_edges(
        ss,
        b.songs,
        c + 1,
    )
}

/// The edges of the books, the first one starting at node `first`.
pub open spec fn books_edges(ss: Seq<SongV>, bs: Seq<BookV>, first: int) -> Seq<EdgeV>
    decreases bs.len(),
{
    if bs.len() == 0 {
        Seq::empty()
    } else {
        books_edges(ss, bs.drop_last(), first) + book_edges(
            ss,
            bs.last(),
            first + 3 * (bs.len() - 1),
        )
    }
}

/// The number of nodes once the first `i` books are in.
pub open spec fn nodes_before_book(ss: Seq<SongV>, broken: Seq<Seq<char>>, i: int) -> int {
    1 + songs_nodes(ss).len() + broken.len() + 3 * i
}

/// All the nodes of the graph of a world.
pub open spec fn world_nodes(ss: Seq<SongV>, broken: Seq<Seq<char>>, bs: Seq<BookV>) -> Seq<ArtefactV> {
    seq![ArtefactV::All] + songs_nodes(ss) + broken_nodes(broken) + books_nodes(bs)
}

/// All the edges of the graph of a world, in the order they are added.
pub open spec fn world_edges(ss: Seq<SongV>, broken: Seq<Seq<char>>, bs: Seq<BookV>) -> Seq<EdgeV> {
    let first_broken: int = songs_nodes(ss).len() as int + 1;
    songs_edges(ss) + broken_edges(first_broken, broken.len()) + books_edges(
        ss,
        bs,
        first_broken + broken.len(),
    )
}

/// The edges a graph keeps of a sequence of additions: once it holds the
/// largest number of edges that `u32` indices allow, it takes no more.
pub open spec fn capped(es: Seq<EdgeV>) -> Seq<EdgeV> {
    if es.len() <= u32::MAX {
        es
    } else {
        es.take(u32::MAX as int)
    }
}

// ------------------------------------------------------------ lemmas

/// Adding one edge to a capped sequence.
pub proof fn lemma_capped_push(es: Seq<EdgeV>, e: EdgeV)
    ensures
        capped(es).len() <= u32::MAX,
        capped(es).len() < u32::MAX ==> capped(es.push(e)) == capped(es).push(e),
        capped(es).len() == u32::MAX ==> capped(es.push(e)) == capped(es),
{
    if es.len() < u32::MAX {
    } else if es.len() == u32::MAX {
        assert(es.push(e).take(u32::MAX as int) =~= es);
    } else {
        assert(es.push(e).take(u32::MAX as int) =~= es.take(u32::MAX as int));
    }
}

/// The number of nodes of the lilypond pairs.
pub proof fn lemma_ly_nodes_len(s: SongV, fs: Seq<Seq<char>>)
    ensures
        ly_nodes(s, fs).len() == 2 * fs.len(),
    decreases fs.len(),
{
    if fs.len() > 0 {
        lemma_ly_nodes_len(s, fs.drop_last());
    }
}

/// The number of nodes of the sound pairs.
pub proof fn lemma_wav_nodes_len(s: SongV, fs: Seq<Seq<char>>)
    ensures
        wav_nodes(s, fs).len() == 2 * fs.len(),
    decreases fs.len(),
{
    if fs.len() > 0 {
        lemma_wav_nodes_len(s, fs.drop_last());
    }
}

/// The number of nodes of a song's block.
pub proof fn lemma_song_nodes_len(s: SongV)
    ensures
        song_nodes(s).len() == 3 + s.texfiles.len() + lyric_ids(s.structure).len() + 2
            * s.lilypondfiles.len() + 2 * s.wavfiles.len(),
{
    lemma_ly_nodes_len(s, s.lilypondfiles);
    lemma_wav_nodes_len(s, s.wavfiles);
}

/// A prefix of the songs has no more nodes than all of them.
pub proof fn lemma_songs_nodes_prefix(ss: Seq<SongV>, i: int)
    requires
        0 <= i <= ss.len(),
    ensures
        songs_nodes(ss.take(i)).len() <= songs_nodes(ss).len(),
    decreases ss.len() - i,
{
    if i < ss.len() {
        lemma_songs_nodes_prefix(ss, i + 1);
        assert(ss.take(i + 1).drop_last() =~= ss.take(i));
    } else {
        assert(ss.take(i) =~= ss);
    }
}

/// Once a prefix of a book's songs has a missing song, the whole list has
/// that same first missing song.
pub proof fn lemma_first_missing_prefix(ss: Seq<SongV>, xs: Seq<BookSongV>, k: int)
    requires
        0 <= k <= xs.len(),
        first_missing(ss, xs.take(k)) is Some,
    ensures
        first_missing(ss, xs) == first_missing(ss, xs.take(k)),
    decreases xs.len() - k,
{
    if k == xs.len() {
        assert(xs.take(k) =~= xs);
    } else {
        assert(xs.drop_last().take(k) =~= xs.take(k));
        lemma_first_missing_prefix(ss, xs.drop_last(), k);
    }
}

/// Once a prefix of the books has a bad book, all the books have that same
/// first bad book.
pub proof fn lemma_first_bad_prefix(ss: Seq<SongV>, bs: Seq<BookV>, k: int)
    requires
        0 <= k <= bs.len(),
        first_bad_book(ss, bs.take(k)) is Some,
    ensures
        first_bad_book(ss, bs) == first_bad_book(ss, bs.take(k)),
    decreases bs.len() - k,
{
    if k == bs.len() {
        assert(bs.take(k) =~= bs);
    } else {
        assert(bs.drop_last().take(k) =~= bs.take(k));
        lemma_first_bad_prefix(ss, bs.drop_last(), k);
    }
}

/// The first bad book lies past every prefix that has none.
pub proof fn lemma_first_bad_after(ss: Seq<SongV>, bs: Seq<BookV>, k: int)
    requires
        0 <= k <= bs.len(),
        first_bad_book(ss, bs.take(k)) is None,
    ensures
        first_bad_book(ss, bs) matches Some(m) ==> k <= m < bs.len(),
    decreases bs.len() - k,
{
    if k == bs.len() {
        assert(bs.take(k) =~= bs);
    } else {
        assert(bs.drop_last().take(k) =~= bs.take(k));
        lemma_first_bad_after(ss, bs.drop_last(), k);
    }
}

/// The lyrics of a longer prefix of a structure.
pub proof fn lemma_lyric_ids_prefix(items: Seq<StructureItemV>, k: int)
    requires
        0 <= k < items.len(),
    ensures
        lyric_ids(items.take(k)).len() <= lyric_ids(items.take(k + 1)).len(),
        lyric_ids(items.take(k + 1)).len() <= lyric_ids(items).len(),
    decreases items.len() - k,
{
    assert(items.take(k + 1).drop_last() =~= items.take(k));
    if k + 1 < items.len() {
        lemma_lyric_ids_prefix(items, k + 1);
    } else {
        assert(items.take(k + 1) =~= items);
    }
}

/// What building the graph of a world comes to.
pub enum GraphOutcome {
    /// The graph is built.
    Built,
    /// The graph would hold more nodes than `u32` indices allow.
    NodeLimit,
    /// A book names a song (author, title) that the world lacks.
    MissingSong(Seq<char>, Seq<char>),
}

/// The outcome of building the graph of a world. The nodes of the books are
/// added before their songs are looked up, book by book, so a book with a
/// missing song is reported unless the nodes run out first.
pub open spec fn graph_outcome(ss: Seq<SongV>, broken: Seq<Seq<char>>, bs: Seq<BookV>) -> GraphOutcome {
    match first_bad_book(ss, bs) {
        Some(m) => if nodes_before_book(ss, broken, m + 1) > u32::MAX {
            GraphOutcome::NodeLimit
        } else {
            GraphOutcome::MissingSong(
                first_missing(ss, bs[m].songs).unwrap().0,
                first_missing(ss, bs[m].songs).unwrap().1,
            )
        },
        None => if nodes_before_book(ss, broken, bs.len() as int) > u32::MAX {
            GraphOutcome::NodeLimit
        } else {
            GraphOutcome::Built
        },
    }
}

/// The delivered pdf of a song lies within the songs' blocks.
pub proof fn lemma_delivery_node_bound(ss: Seq<SongV>, author: Seq<char>, title: Seq<char>)
    ensures
        delivery_node(ss, author, title) matches Some(d) ==> 3 <= d <= songs_nodes(ss).len(),
    decreases ss.len(),
{
    if ss.len() > 0 {
        lemma_delivery_node_bound(ss.drop_last(), author, title);
        lemma_song_nodes_len(ss.last());
    }
}

/// The number of nodes of the books.
pub proof fn lemma_books_nodes_len(bs: Seq<BookV>)
    ensures
        books_nodes(bs).len() == 3 * bs.len(),
    decreases bs.len(),
{
    if bs.len() > 0 {
        lemma_books_nodes_len(bs.drop_last());
    }
}

} // verus!
