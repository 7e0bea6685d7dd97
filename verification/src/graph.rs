//! The build graph: one node per artefact to produce (pdf files, mounted
//! sources, snippets, midi and wav files, deliveries), one edge per
//! dependency. The graph itself is a `petgraph::Graph`.
use vstd::prelude::*;
use crate::layout::{
    capped, lemma_capped_push, lemma_lyric_ids_prefix, lemma_ly_nodes_len, lemma_song_nodes_len,
    lemma_wav_nodes_len, lyric_edges, lyric_ids, lyric_nodes, lyrics_file, ly_edges, ly_nodes,
    song_edges, song_head, song_nodes, tex_edges, tex_nodes, wav_edges, wav_nodes, EdgeV,
    book_song_edges, books_edges, books_nodes, broken_edges, broken_nodes, delivery_node,
    first_bad_book, first_missing, graph_outcome, lemma_books_nodes_len, lemma_delivery_node_bound,
    lemma_first_bad_after, lemma_first_bad_prefix, lemma_first_missing_prefix,
    lemma_songs_nodes_prefix, songs_edges, songs_nodes, world_edges, world_nodes, GraphOutcome,
};
use crate::text::str_eq;
use crate::model::types::{
    Book, BookV, Song, SongV, StructureItemContent, StructureItemV, World,
};
use petgraph::graph::{GraphError, NodeIndex};
use petgraph::{Directed, Graph};

verus! {

/// The kinds of artefacts of a build.
#[derive(Clone, Debug, PartialEq, Eq, Hash)]
pub enum EArtefact {
    BootstrapSong(Song),
    BootstrapBook(Book),
    SongPdf(Song),
    DeliverySongPdf(Song),
    MountedFile(Song, String),
    LySnippet(Song, String),
    Midi(Song, String),
    Wav(Song, String),
    BookPdf(Book),
    DeliveryBookPdf(Book),
    Broken(String),
    All,
}

/// An artefact of a build.
#[derive(Clone, Debug, PartialEq, Eq, Hash)]
pub struct Artefact {
    pub kind: EArtefact,
}

/// The label of a dependency edge.
#[derive(Clone, Debug, Default, PartialEq)]
pub struct Route(pub String);

/// The text of a boolean.
pub open spec fn bool_text(b: bool) -> Seq<char> {
    if b {
        "true"@
    } else {
        "false"@
    }
}

/// How an artefact is shown in logs.
pub open spec fn label_spec(k: EArtefact) -> Seq<char> {
    match k {
        EArtefact::SongPdf(s) => "SongPdf "@ + s.author@ + " @ "@ + s.title@,
        EArtefact::DeliverySongPdf(s) => "DeliverySongPdf "@ + s.author@ + " @ "@ + s.title@ + " "@,
        EArtefact::MountedFile(s, f) => "MountedFile "@ + s.author@ + " @ "@ + s.title@ + " ; "@ + f@,
        EArtefact::LySnippet(s, f) => "LySnippet "@ + s.author@ + " @ "@ + s.title@ + " : "@ + f@,
        EArtefact::Midi(s, f) => "Midi("@ + s.author@ + " @ "@ + s.title@ + " ; "@ + f@ + ")"@,
        EArtefact::Wav(s, f) => "Wav("@ + s.author@ + " @ "@ + s.title@ + " ; "@ + f@ + ")"@,
        EArtefact::BookPdf(b) => "BookPdf("@ + b.title@ + ")"@,
        EArtefact::DeliveryBookPdf(b) => "DeliveryBookPdf("@ + b.title@ + ")"@,
        EArtefact::All => "All"@,
        EArtefact::BootstrapSong(s) => "Bootstrap "@ + s.author@ + " @ "@ + s.title@,
        EArtefact::BootstrapBook(b) => "Boostrap book "@ + b.title@ + " (lyrics only: "@ + bool_text(
            b.lyrics_only,
        ) + ")"@,
        EArtefact::Broken(p) => "Broken("@ + p@ + ")"@,
    }
}

impl EArtefact {
    /// How this artefact is shown in logs.
    pub fn label(&self) -> (r: String)
        ensures
            r@ == label_spec(*self),
    {
        match self {
            EArtefact::SongPdf(s) => String::from_str("SongPdf ").concat(s.author.as_str()).concat(
                " @ ",
            ).concat(s.title.as_str()),
            EArtefact::DeliverySongPdf(s) => String::from_str("DeliverySongPdf ").concat(
                s.author.as_str(),
            ).concat(" @ ").concat(s.title.as_str()).concat(" "),
            EArtefact::MountedFile(s, f) => String::from_str("MountedFile ").concat(
                s.author.as_str(),
            ).concat(" @ ").concat(s.title.as_str()).concat(" ; ").concat(f.as_str()),
            EArtefact::LySnippet(s, f) => String::from_str("LySnippet ").concat(s.author.as_str()).concat(
                " @ ",
            ).concat(s.title.as_str()).concat(" : ").concat(f.as_str()),
            EArtefact::Midi(s, f) => String::from_str("Midi(").concat(s.author.as_str()).concat(
                " @ ",
            ).concat(s.title.as_str()).concat(" ; ").concat(f.as_str()).concat(")"),
            EArtefact::Wav(s, f) => String::from_str("Wav(").concat(s.author.as_str()).concat(
                " @ ",
            ).concat(s.title.as_str()).concat(" ; ").concat(f.as_str()).concat(")"),
            EArtefact::BookPdf(b) => String::from_str("BookPdf(").concat(b.title.as_str()).concat(")"),
            EArtefact::DeliveryBookPdf(b) => String::from_str("DeliveryBookPdf(").concat(
                b.title.as_str(),
            ).concat(")"),
            EArtefact::All => String::from_str("All"),
            EArtefact::BootstrapSong(s) => String::from_str("Bootstrap ").concat(s.author.as_str()).concat(
                " @ ",
            ).concat(s.title.as_str()),
            EArtefact::BootstrapBook(b) => {
                let flag = if b.lyrics_only {
                    "true"
                } else {
                    "false"
                };
                String::from_str("Boostrap book ").concat(b.title.as_str()).concat(
                    " (lyrics only: ",
                ).concat(flag).concat(")")
            },
            EArtefact::Broken(p) => String::from_str("Broken(").concat(p.as_str()).concat(")"),
        }
    }
}

impl Artefact {
    /// The pdf of a song.
    pub fn new_pdf_song(song: Song) -> (r: Self)
        ensures
            r.kind == EArtefact::SongPdf(song),
    {
        Artefact { kind: EArtefact::SongPdf(song) }
    }

    /// The delivered pdf of a song.
    pub fn new_delivery_song(song: Song) -> (r: Self)
        ensures
            r.kind == EArtefact::DeliverySongPdf(song),
    {
        Artefact { kind: EArtefact::DeliverySongPdf(song) }
    }

    /// The pdf of a book.
    pub fn new_pdf_book(book: Book) -> (r: Self)
        ensures
            r.kind == EArtefact::BookPdf(book),
    {
        Artefact { kind: EArtefact::BookPdf(book) }
    }

    /// The delivered pdf of a book.
    pub fn new_delivery_book(book: Book) -> (r: Self)
        ensures
            r.kind == EArtefact::DeliveryBookPdf(book),
    {
        Artefact { kind: EArtefact::DeliveryBookPdf(book) }
    }

    /// A source file of a song, mounted in its build directory.
    pub fn new_mounted_file(song: Song, f: String) -> (r: Self)
        ensures
            r.kind == EArtefact::MountedFile(song, f),
    {
        Artefact { kind: EArtefact::MountedFile(song, f) }
    }

    /// A lilypond snippet of a song.
    pub fn new_ly_snippet(song: Song, f: String) -> (r: Self)
        ensures
            r.kind == EArtefact::LySnippet(song, f),
    {
        Artefact { kind: EArtefact::LySnippet(song, f) }
    }

    /// The preparation of a song's build directory.
    pub fn new_bootstrap_song(song: Song) -> (r: Self)
        ensures
            r.kind == EArtefact::BootstrapSong(song),
    {
        Artefact { kind: EArtefact::BootstrapSong(song) }
    }

    /// The preparation of a book's build directory.
    pub fn new_bootstrap_book(book: Book) -> (r: Self)
        ensures
            r.kind == EArtefact::BootstrapBook(book),
    {
        Artefact { kind: EArtefact::BootstrapBook(book) }
    }

    /// The midi file of a song's lilypond file.
    pub fn new_midi(song: Song, file: String) -> (r: Self)
        ensures
            r.kind == EArtefact::Midi(song, file),
    {
        Artefact { kind: EArtefact::Midi(song, file) }
    }

    /// The wav file of a song's lilypond file.
    pub fn new_wav(song: Song, file: String) -> (r: Self)
        ensures
            r.kind == EArtefact::Wav(song, file),
    {
        Artefact { kind: EArtefact::Wav(song, file) }
    }

    /// A song file that could not be read.
    pub fn new_broken_song(path: String) -> (r: Self)
        ensures
            r.kind == EArtefact::Broken(path),
    {
        Artefact { kind: EArtefact::Broken(path) }
    }
}


// ------------------------------------------------------------ abstract view

/// The abstract value of an artefact.
pub enum ArtefactV {
    BootstrapSong(SongV),
    BootstrapBook(BookV),
    SongPdf(SongV),
    DeliverySongPdf(SongV),
    MountedFile(SongV, Seq<char>),
    LySnippet(SongV, Seq<char>),
    Midi(SongV, Seq<char>),
    Wav(SongV, Seq<char>),
    BookPdf(BookV),
    DeliveryBookPdf(BookV),
    Broken(Seq<char>),
    All,
}

impl View for Artefact {
    type V = ArtefactV;

    open spec fn view(&self) -> ArtefactV {
        match self.kind {
            EArtefact::BootstrapSong(s) => ArtefactV::BootstrapSong(s@),
            EArtefact::BootstrapBook(b) => ArtefactV::BootstrapBook(b@),
            EArtefact::SongPdf(s) => ArtefactV::SongPdf(s@),
            EArtefact::DeliverySongPdf(s) => ArtefactV::DeliverySongPdf(s@),
            EArtefact::MountedFile(s, f) => ArtefactV::MountedFile(s@, f@),
            EArtefact::LySnippet(s, f) => ArtefactV::LySnippet(s@, f@),
            EArtefact::Midi(s, f) => ArtefactV::Midi(s@, f@),
            EArtefact::Wav(s, f) => ArtefactV::Wav(s@, f@),
            EArtefact::BookPdf(b) => ArtefactV::BookPdf(b@),
            EArtefact::DeliveryBookPdf(b) => ArtefactV::DeliveryBookPdf(b@),
            EArtefact::Broken(p) => ArtefactV::Broken(p@),
            EArtefact::All => ArtefactV::All,
        }
    }
}

impl View for Route {
    type V = Seq<char>;

    open spec fn view(&self) -> Seq<char> {
        self.0@
    }
}

// ------------------------------------------------------------ petgraph

#[verifier::external_type_specification]
#[verifier::external_body]
#[verifier::reject_recursive_types(N)]
#[verifier::reject_recursive_types(E)]
#[verifier::reject_recursive_types(Ty)]
#[verifier::reject_recursive_types(Ix)]
pub struct ExGraph<N, E, Ty, Ix>(Graph<N, E, Ty, Ix>);

#[verifier::external_type_specification]
#[verifier::external_body]
pub struct ExDirected(Directed);

#[verifier::external_type_specification]
#[verifier::external_body]
pub struct ExGraphError(GraphError);

/// The build graph.
pub type BuildGraph = Graph<Artefact, Route>;

/// The nodes of a graph, in the order they were added (a node's index is
/// its position).
pub uninterp spec fn graph_nodes(g: Graph<Artefact, Route>) -> Seq<ArtefactV>;

/// The edges of a graph (source, target, label), in the order they were added.
pub uninterp spec fn graph_edges(g: Graph<Artefact, Route>) -> Seq<(int, int, Seq<char>)>;

/// `Graph::new`: an empty directed graph.
#[verifier::external_body]
fn graph_new() -> (g: Graph<Artefact, Route>)
    ensures
        graph_nodes(g) == Seq::<ArtefactV>::empty(),
        graph_edges(g) == Seq::<(int, int, Seq<char>)>::empty(),
{
    Graph::new()
}

/// `Graph::try_add_node`: appends a node and gives its index, unless the
/// graph already holds the largest number of nodes that `u32` indices allow.
#[verifier::external_body]
fn graph_try_add_node(g: &mut Graph<Artefact, Route>, a: Artefact) -> (r: Result<usize, GraphError>)
    ensures
        graph_nodes(*old(g)).len() < u32::MAX ==> r == Ok::<usize, GraphError>(graph_nodes(*old(g)).len() as usize),
        graph_nodes(*old(g)).len() < u32::MAX ==> graph_nodes(*final(g)) == graph_nodes(*old(g)).push(a@),
        graph_nodes(*old(g)).len() == u32::MAX ==> r is Err && graph_nodes(*final(g)) == graph_nodes(*old(g)),
        graph_edges(*final(g)) == graph_edges(*old(g)),
{
    g.try_add_node(a).map(|i| i.index())
}

/// `Graph::try_add_edge`: appends an edge between two existing nodes, unless
/// the graph already holds the largest number of edges that `u32` indices
/// allow, or a node is missing; the nodes are unchanged.
#[verifier::external_body]
fn graph_try_add_edge(g: &mut Graph<Artefact, Route>, a: usize, b: usize, w: Route) -> (r: Result<usize, GraphError>)
    requires
        a < u32::MAX,
        b < u32::MAX,
    ensures
        graph_nodes(*final(g)) == graph_nodes(*old(g)),
        (graph_edges(*old(g)).len() < u32::MAX && a < graph_nodes(*old(g)).len() && b < graph_nodes(
            *old(g),
        ).len()) ==> (r == Ok::<usize, GraphError>(graph_edges(*old(g)).len() as usize) && graph_edges(
            *final(g),
        ) == graph_edges(*old(g)).push((a as int, b as int, w@))),
        !(graph_edges(*old(g)).len() < u32::MAX && a < graph_nodes(*old(g)).len() && b < graph_nodes(
            *old(g),
        ).len()) ==> (r is Err && graph_edges(*final(g)) == graph_edges(*old(g))),
{
    g.try_add_edge(NodeIndex::new(a), NodeIndex::new(b), w).map(|i| i.index())
}

/// The sources of the edges into `n`, the most recently added first.
pub open spec fn incoming_spec(edges: Seq<(int, int, Seq<char>)>, n: int) -> Seq<int>
    decreases edges.len(),
{
    if edges.len() == 0 {
        Seq::empty()
    } else {
        let r = incoming_spec(edges.drop_last(), n);
        if edges.last().1 == n {
            seq![edges.last().0] + r
        } else {
            r
        }
    }
}

/// `Graph::neighbors_directed(n, Incoming)`: the sources of the edges into
/// `n`, most recently added edge first (empty for a missing node).
#[verifier::external_body]
pub(crate) fn graph_incoming(g: &Graph<Artefact, Route>, n: usize) -> (r: Vec<usize>)
    requires
        n < u32::MAX,
    ensures
        r@.map_values(|x: usize| x as int) == incoming_spec(graph_edges(*g), n as int),
{
    g.neighbors_directed(NodeIndex::new(n), petgraph::Direction::Incoming).map(|x| x.index()).collect()
}

/// `Graph::node_count`.
#[verifier::external_body]
pub(crate) fn graph_node_count(g: &Graph<Artefact, Route>) -> (r: usize)
    ensures
        r as int == graph_nodes(*g).len(),
{
    g.node_count()
}

/// The weight of node `i` (`Graph`'s indexing).
#[verifier::external_body]
pub(crate) fn graph_node(g: &Graph<Artefact, Route>, i: usize) -> (r: &Artefact)
    requires
        i < graph_nodes(*g).len(),
        i < u32::MAX,
    ensures
        r@ == graph_nodes(*g)[i as int],
{
    &g[NodeIndex::new(i)]
}

// ------------------------------------------------------------ building

/// Why the build graph of a world could not be made.
#[derive(Clone, Debug, PartialEq, Eq)]
pub enum BuildGraphError {
    /// The graph would hold more nodes than `u32` indices allow.
    NodeLimit,
    /// A book names a song (author, title) that the world lacks.
    MissingSong(String, String),
}

/// Appends a node; fails once the graph is full.
fn add_node(g: &mut Graph<Artefact, Route>, a: Artefact) -> (r: Result<usize, BuildGraphError>)
    requires
        graph_nodes(*old(g)).len() <= u32::MAX,
    ensures
        graph_edges(*final(g)) == graph_edges(*old(g)),
        match r {
            Ok(i) => {
                &&& graph_nodes(*old(g)).len() < u32::MAX
                &&& i == graph_nodes(*old(g)).len()
                &&& graph_nodes(*final(g)) == graph_nodes(*old(g)).push(a@)
            },
            Err(e) => {
                &&& graph_nodes(*old(g)).len() == u32::MAX
                &&& graph_nodes(*final(g)) == graph_nodes(*old(g))
                &&& e is NodeLimit
            },
        },
{
    match graph_try_add_node(g, a) {
        Ok(i) => Ok(i),
        Err(_) => Err(BuildGraphError::NodeLimit),
    }
}

/// Appends an edge between two nodes of the graph; the graph keeps the
/// edges of `ideal` as far as `u32` indices allow.
fn add_edge(
    g: &mut Graph<Artefact, Route>,
    a: usize,
    b: usize,
    label: &str,
    Ghost(ideal): Ghost<Seq<EdgeV>>,
)
    requires
        a < graph_nodes(*old(g)).len(),
        b < graph_nodes(*old(g)).len(),
        graph_nodes(*old(g)).len() <= u32::MAX,
        graph_edges(*old(g)) == capped(ideal),
    ensures
        graph_nodes(*final(g)) == graph_nodes(*old(g)),
        graph_edges(*final(g)) == capped(ideal.push((a as int, b as int, label@))),
{
    proof {
        lemma_capped_push(ideal, (a as int, b as int, label@));
    }
    let _ = graph_try_add_edge(g, a, b, Route(String::from_str(label)));
}

/// Adds the mounted tex files of a song whose block starts at `b`.
fn add_tex_files(g: &mut Graph<Artefact, Route>, s: &Song, b: usize, Ghost(ideal): Ghost<Seq<EdgeV>>) -> (r: Result<(), BuildGraphError>)
    requires
        graph_nodes(*old(g)).len() == b + 3,
        graph_nodes(*old(g)).len() <= u32::MAX,
        graph_edges(*old(g)) == capped(ideal),
    ensures
        match r {
            Ok(_) => {
                &&& graph_nodes(*final(g)) == graph_nodes(*old(g)) + tex_nodes(s@)
                &&& graph_nodes(*final(g)).len() <= u32::MAX
                &&& graph_edges(*final(g)) == capped(ideal + tex_edges(b as int, s@.texfiles.len()))
            },
            Err(e) => e is NodeLimit && graph_nodes(*old(g)).len() + tex_nodes(s@).len() > u32::MAX,
        },
{
    let ghost n0 = graph_nodes(*g);
    let ghost sv = s@;
    let ghost mut ie = ideal;
    let mut j: usize = 0;
    while j < s.texfiles.len()
        invariant
            sv == s@,
            j <= s.texfiles.len(),
            n0 == graph_nodes(*old(g)),
            n0.len() == b + 3,
            graph_nodes(*g) == n0 + tex_nodes(sv).take(j as int),
            graph_nodes(*g).len() <= u32::MAX,
            ie == ideal + tex_edges(b as int, j as nat),
            graph_edges(*g) == capped(ie),
        decreases s.texfiles.len() - j,
    {
        let t = s.texfiles[j].clone();
        let ghost tv = t@;
        let m = match add_node(g, Artefact::new_mounted_file(s.clone_song(), t)) {
            Ok(i) => i,
            Err(e) => {
                assert(tex_nodes(sv).len() == s.texfiles@.len());
                assert(graph_nodes(*g).len() == n0.len() + j);
                assert(n0.len() + tex_nodes(s@).len() > u32::MAX);
                assert(e is NodeLimit);
                return Err(e);
            },
        };
        add_edge(g, m, b + 1, "lualatex", Ghost(ie));
        proof {
            ie = ie.push((m as int, b + 1, "lualatex"@));
        }
        add_edge(g, b, m, "bootstrap", Ghost(ie));
        proof {
            ie = ie.push((b as int, m as int, "bootstrap"@));
            assert(tex_nodes(sv).take(j + 1) =~= tex_nodes(sv).take(j as int).push(
                ArtefactV::MountedFile(sv, tv),
            ));
            assert(ie =~= ideal + tex_edges(b as int, (j + 1) as nat));
        }
        j = j + 1;
    }
    proof {
        assert(tex_nodes(sv).take(j as int) =~= tex_nodes(sv));
    }
    Ok(())
}

/// Adds the mounted lyrics files of a song whose block starts at `b`.
fn add_lyrics_files(g: &mut Graph<Artefact, Route>, s: &Song, b: usize, Ghost(ideal): Ghost<Seq<EdgeV>>) -> (r: Result<(), BuildGraphError>)
    requires
        b + 3 <= graph_nodes(*old(g)).len() <= u32::MAX,
        graph_edges(*old(g)) == capped(ideal),
    ensures
        match r {
            Ok(_) => {
                &&& graph_nodes(*final(g)) == graph_nodes(*old(g)) + lyric_nodes(s@)
                &&& graph_nodes(*final(g)).len() <= u32::MAX
                &&& graph_edges(*final(g)) == capped(
                    ideal + lyric_edges(b as int, graph_nodes(*old(g)).len() as int, lyric_ids(s@.structure).len()),
                )
            },
            Err(e) => e is NodeLimit && graph_nodes(*old(g)).len() + lyric_nodes(s@).len() > u32::MAX,
        },
{
    let ghost n0 = graph_nodes(*g);
    let ghost first: int = n0.len() as int;
    let ghost sv = s@;
    let ghost items = sv.structure;
    let ghost mut ie = ideal;
    let ghost mk = |id: Seq<char>| ArtefactV::MountedFile(sv, lyrics_file(id));
    let mut k: usize = 0;
    while k < s.structure.len()
        invariant
            sv == s@,
            items == sv.structure,
            k <= s.structure.len(),
            n0 == graph_nodes(*old(g)),
            first == n0.len(),
            b + 3 <= n0.len(),
            mk == (|id: Seq<char>| ArtefactV::MountedFile(sv, lyrics_file(id))),
            graph_nodes(*g) == n0 + lyric_ids(items.take(k as int)).map_values(mk),
            graph_nodes(*g).len() <= u32::MAX,
            ie == ideal + lyric_edges(b as int, first, lyric_ids(items.take(k as int)).len()),
            graph_edges(*g) == capped(ie),
        decreases s.structure.len() - k,
    {
        let id: Option<&String> = match &s.structure[k].item {
            StructureItemContent::ItemChords(c) => Some(&c.section_id),
            StructureItemContent::ItemRef(c) => Some(&c.section_id),
            _ => None,
        };
        let ghost before = lyric_ids(items.take(k as int));
        proof {
            assert(items.take(k + 1).drop_last() =~= items.take(k as int));
            assert(items[k as int] == s.structure[k as int]@);
            lemma_lyric_ids_prefix(items, k as int);
        }
        match id {
            Some(id) => {
                let path = String::from_str("lyrics/").concat(id.as_str()).concat(".tex");
                let ghost pv = path@;
                let l = match add_node(g, Artefact::new_mounted_file(s.clone_song(), path)) {
                    Ok(i) => i,
                    Err(e) => {
                        assert(lyric_ids(items).len() >= before.len() + 1);
                        return Err(e);
                    },
                };
                add_edge(g, l, b + 1, "lualatex", Ghost(ie));
                proof {
                    ie = ie.push((l as int, b + 1, "lualatex"@));
                    assert(lyric_ids(items.take(k + 1)) == before.push(id@));
                    assert(pv == lyrics_file(id@));
                    assert(lyric_ids(items.take(k + 1)).map_values(mk) =~= before.map_values(mk).push(
                        ArtefactV::MountedFile(sv, pv),
                    ));
                    assert(ie =~= ideal + lyric_edges(b as int, first, lyric_ids(items.take(k + 1)).len()));
                }
            },
            None => {
                proof {
                    assert(lyric_ids(items.take(k + 1)) == before);
                }
            },
        }
        k = k + 1;
    }
    proof {
        assert(items.take(k as int) =~= items);
    }
    Ok(())
}

/// Adds the lilypond pairs of a song whose block starts at `b`.
fn add_ly_files(g: &mut Graph<Artefact, Route>, s: &Song, b: usize, Ghost(ideal): Ghost<Seq<EdgeV>>) -> (r: Result<(), BuildGraphError>)
    requires
        b + 3 <= graph_nodes(*old(g)).len() <= u32::MAX,
        graph_edges(*old(g)) == capped(ideal),
    ensures
        match r {
            Ok(_) => {
                &&& graph_nodes(*final(g)) == graph_nodes(*old(g)) + ly_nodes(s@, s@.lilypondfiles)
                &&& graph_nodes(*final(g)).len() <= u32::MAX
                &&& graph_edges(*final(g)) == capped(
                    ideal + ly_edges(b as int, graph_nodes(*old(g)).len() as int, s@.lilypondfiles.len()),
                )
            },
            Err(e) => e is NodeLimit && graph_nodes(*old(g)).len() + 2 * s@.lilypondfiles.len() > u32::MAX,
        },
{
    let ghost n0 = graph_nodes(*g);
    let ghost first: int = n0.len() as int;
    let ghost sv = s@;
    let ghost fs = sv.lilypondfiles;
    let ghost mut ie = ideal;
    let mut k: usize = 0;
    while k < s.lilypondfiles.len()
        invariant
            sv == s@,
            fs == sv.lilypondfiles,
            k <= s.lilypondfiles.len(),
            n0 == graph_nodes(*old(g)),
            first == n0.len(),
            b + 3 <= n0.len(),
            graph_nodes(*g) == n0 + ly_nodes(sv, fs.take(k as int)),
            graph_nodes(*g).len() <= u32::MAX,
            ie == ideal + ly_edges(b as int, first, k as nat),
            graph_edges(*g) == capped(ie),
        decreases s.lilypondfiles.len() - k,
    {
        proof {
            lemma_ly_nodes_len(sv, fs.take(k as int));
            assert(fs.take(k + 1).drop_last() =~= fs.take(k as int));
        }
        let t = s.lilypondfiles[k].clone();
        let ghost tv = t@;
        let lytex = match add_node(g, Artefact::new_mounted_file(s.clone_song(), s.lilypondfiles[k].clone())) {
            Ok(i) => i,
            Err(e) => {
                return Err(e);
            },
        };
        let lysnippet = match add_node(g, Artefact::new_ly_snippet(s.clone_song(), t)) {
            Ok(i) => i,
            Err(e) => {
                return Err(e);
            },
        };
        add_edge(g, lytex, lysnippet, "lilypond-book", Ghost(ie));
        proof {
            ie = ie.push((lytex as int, lysnippet as int, "lilypond-book"@));
        }
        add_edge(g, lysnippet, b + 1, "lualatex", Ghost(ie));
        proof {
            ie = ie.push((lysnippet as int, b + 1, "lualatex"@));
        }
        add_edge(g, b, lytex, "bootstrap", Ghost(ie));
        proof {
            ie = ie.push((b as int, lytex as int, "bootstrap"@));
            assert(fs.take(k + 1).last() == tv);
            assert(ie =~= ideal + ly_edges(b as int, first, (k + 1) as nat));
            assert(n0 + ly_nodes(sv, fs.take(k + 1)) =~= n0 + ly_nodes(sv, fs.take(k as int)) + seq![
                ArtefactV::MountedFile(sv, tv),
                ArtefactV::LySnippet(sv, tv),
            ]);
        }
        k = k + 1;
    }
    proof {
        assert(fs.take(k as int) =~= fs);
    }
    Ok(())
}

/// Adds the sound pairs of a song whose block starts at `b`.
fn add_wav_files(g: &mut Graph<Artefact, Route>, s: &Song, b: usize, Ghost(ideal): Ghost<Seq<EdgeV>>) -> (r: Result<(), BuildGraphError>)
    requires
        b + 3 <= graph_nodes(*old(g)).len() <= u32::MAX,
        graph_edges(*old(g)) == capped(ideal),
    ensures
        match r {
            Ok(_) => {
                &&& graph_nodes(*final(g)) == graph_nodes(*old(g)) + wav_nodes(s@, s@.wavfiles)
                &&& graph_nodes(*final(g)).len() <= u32::MAX
                &&& graph_edges(*final(g)) == capped(
                    ideal + wav_edges(b as int, graph_nodes(*old(g)).len() as int, s@.wavfiles.len()),
                )
            },
            Err(e) => e is NodeLimit && graph_nodes(*old(g)).len() + 2 * s@.wavfiles.len() > u32::MAX,
        },
{
    let ghost n0 = graph_nodes(*g);
    let ghost first: int = n0.len() as int;
    let ghost sv = s@;
    let ghost fs = sv.wavfiles;
    let ghost mut ie = ideal;
    let mut k: usize = 0;
    while k < s.wavfiles.len()
        invariant
            sv == s@,
            fs == sv.wavfiles,
            k <= s.wavfiles.len(),
            n0 == graph_nodes(*old(g)),
            first == n0.len(),
            b + 3 <= n0.len(),
            graph_nodes(*g) == n0 + wav_nodes(sv, fs.take(k as int)),
            graph_nodes(*g).len() <= u32::MAX,
            ie == ideal + wav_edges(b as int, first, k as nat),
            graph_edges(*g) == capped(ie),
        decreases s.wavfiles.len() - k,
    {
        proof {
            lemma_wav_nodes_len(sv, fs.take(k as int));
            assert(fs.take(k + 1).drop_last() =~= fs.take(k as int));
        }
        let m = s.wavfiles[k].clone();
        let ghost mv = m@;
        let midi = match add_node(g, Artefact::new_midi(s.clone_song(), s.wavfiles[k].clone())) {
            Ok(i) => i,
            Err(e) => {
                return Err(e);
            },
        };
        add_edge(g, b, midi, "midi", Ghost(ie));
        proof {
            ie = ie.push((b as int, midi as int, "midi"@));
        }
        let wav = match add_node(g, Artefact::new_wav(s.clone_song(), m)) {
            Ok(i) => i,
            Err(e) => {
                return Err(e);
            },
        };
        add_edge(g, midi, wav, "wav", Ghost(ie));
        proof {
            ie = ie.push((midi as int, wav as int, "wav"@));
        }
        add_edge(g, wav, 0, "all", Ghost(ie));
        proof {
            ie = ie.push((wav as int, 0int, "all"@));
            assert(fs.take(k + 1).last() == mv);
            assert(ie =~= ideal + wav_edges(b as int, first, (k + 1) as nat));
            assert(n0 + wav_nodes(sv, fs.take(k + 1)) =~= n0 + wav_nodes(sv, fs.take(k as int)) + seq![
                ArtefactV::Midi(sv, mv),
                ArtefactV::Wav(sv, mv),
            ]);
        }
        k = k + 1;
    }
    proof {
        assert(fs.take(k as int) =~= fs);
    }
    Ok(())
}

/// Adds the block of a song at the end of the graph; gives the node of its
/// delivered pdf.
fn add_song(g: &mut Graph<Artefact, Route>, s: &Song, Ghost(ideal): Ghost<Seq<EdgeV>>) -> (r: Result<usize, BuildGraphError>)
    requires
        1 <= graph_nodes(*old(g)).len() <= u32::MAX,
        graph_edges(*old(g)) == capped(ideal),
    ensures
        match r {
            Ok(d) => {
                &&& graph_nodes(*final(g)) == graph_nodes(*old(g)) + song_nodes(s@)
                &&& graph_nodes(*final(g)).len() <= u32::MAX
                &&& graph_edges(*final(g)) == capped(ideal + song_edges(s@, graph_nodes(*old(g)).len() as int))
                &&& d == graph_nodes(*old(g)).len() + 2
            },
            Err(e) => e is NodeLimit && graph_nodes(*old(g)).len() + song_nodes(s@).len() > u32::MAX,
        },
{
    let ghost n0 = graph_nodes(*g);
    let ghost b: int = n0.len() as int;
    let ghost sv = s@;
    proof {
        lemma_song_nodes_len(sv);
    }
    let bootstrap = match add_node(g, Artefact::new_bootstrap_song(s.clone_song())) {
        Ok(i) => i,
        Err(e) => {
            return Err(e);
        },
    };
    let mainpdf = match add_node(g, Artefact::new_pdf_song(s.clone_song())) {
        Ok(i) => i,
        Err(e) => {
            return Err(e);
        },
    };
    let ghost mut ie = ideal;
    add_edge(g, bootstrap, mainpdf, "bootstrap", Ghost(ie));
    proof {
        ie = ie.push((b, b + 1, "bootstrap"@));
    }
    let deliverypdf = match add_node(g, Artefact::new_delivery_song(s.clone_song())) {
        Ok(i) => i,
        Err(e) => {
            return Err(e);
        },
    };
    let ghost n1 = graph_nodes(*g);
    assert(n1 == n0 + song_head(sv));
    match add_tex_files(g, s, bootstrap, Ghost(ie)) {
        Ok(_) => {},
        Err(e) => {
            return Err(e);
        },
    }
    proof {
        ie = ie + tex_edges(b, sv.texfiles.len());
    }
    let ghost n2 = graph_nodes(*g);
    match add_lyrics_files(g, s, bootstrap, Ghost(ie)) {
        Ok(_) => {},
        Err(e) => {
            return Err(e);
        },
    }
    proof {
        ie = ie + lyric_edges(b, n2.len() as int, lyric_ids(sv.structure).len());
    }
    let ghost n3 = graph_nodes(*g);
    match add_ly_files(g, s, bootstrap, Ghost(ie)) {
        Ok(_) => {},
        Err(e) => {
            proof {
                lemma_ly_nodes_len(sv, sv.lilypondfiles);
            }
            return Err(e);
        },
    }
    proof {
        ie = ie + ly_edges(b, n3.len() as int, sv.lilypondfiles.len());
        lemma_ly_nodes_len(sv, sv.lilypondfiles);
    }
    let ghost n4 = graph_nodes(*g);
    match add_wav_files(g, s, bootstrap, Ghost(ie)) {
        Ok(_) => {},
        Err(e) => {
            proof {
                lemma_wav_nodes_len(sv, sv.wavfiles);
            }
            return Err(e);
        },
    }
    proof {
        ie = ie + wav_edges(b, n4.len() as int, sv.wavfiles.len());
        lemma_wav_nodes_len(sv, sv.wavfiles);
    }
    add_edge(g, bootstrap, mainpdf, "delivery", Ghost(ie));
    proof {
        ie = ie.push((b, b + 1, "delivery"@));
    }
    add_edge(g, mainpdf, deliverypdf, "delivery", Ghost(ie));
    proof {
        ie = ie.push((b + 1, b + 2, "delivery"@));
    }
    add_edge(g, deliverypdf, 0, "all", Ghost(ie));
    proof {
        ie = ie.push((b + 2, 0int, "all"@));
        assert(ie =~= ideal + song_edges(sv, b));
        assert(graph_nodes(*g) =~= n0 + song_nodes(sv));
    }
    Ok(deliverypdf)
}

/// The views of the songs of a world.
pub open spec fn song_views(v: Seq<Song>) -> Seq<SongV> {
    v.map_values(|s: Song| s@)
}

/// The views of the books of a world.
pub open spec fn book_views(v: Seq<Book>) -> Seq<BookV> {
    v.map_values(|b: Book| b@)
}

/// The paths of the broken songs of a world.
pub open spec fn broken_paths(v: Seq<(String, String)>) -> Seq<Seq<char>> {
    v.map_values(|p: (String, String)| p.0@)
}

/// The node of the delivered pdf of the last song with this author and
/// title; `delivs` holds the delivery node of each song.
fn find_delivery(songs: &Vec<Song>, delivs: &Vec<usize>, author: &String, title: &String) -> (r: Option<usize>)
    requires
        delivs@.len() == songs@.len(),
        forall|k: int|
            0 <= k < songs@.len() ==> delivs@[k] == songs_nodes(song_views(songs@).take(k)).len() + 3,
    ensures
        match r {
            None => delivery_node(song_views(songs@), author@, title@) is None,
            Some(x) => delivery_node(song_views(songs@), author@, title@) == Some(x as int),
        },
{
    let ghost ss = song_views(songs@);
    let mut i: usize = songs.len();
    proof {
        assert(ss.take(i as int) =~= ss);
    }
    while i > 0
        invariant
            i <= songs@.len(),
            ss == song_views(songs@),
            delivs@.len() == songs@.len(),
            forall|k: int| 0 <= k < songs@.len() ==> delivs@[k] == songs_nodes(ss.take(k)).len() + 3,
            delivery_node(ss, author@, title@) == delivery_node(ss.take(i as int), author@, title@),
        decreases i,
    {
        i = i - 1;
        proof {
            assert(ss.take(i + 1).drop_last() =~= ss.take(i as int));
        }
        if str_eq(songs[i].author.as_str(), author.as_str()) && str_eq(songs[i].title.as_str(), title.as_str()) {
            return Some(delivs[i]);
        }
    }
    None
}

/// Builds the graph of a world: the node `All` first, then for each song its
/// block (bootstrap, pdf, delivery, mounted files, snippets, midi and wav
/// files), then a node for each broken song, then for each book its
/// bootstrap, pdf and delivery, with an edge from the delivered pdf of each
/// of its songs to its pdf. Edges beyond what `u32` indices allow are not
/// kept.
pub fn build_graph(world: &World) -> (r: Result<Graph<Artefact, Route>, BuildGraphError>)
    ensures
        ({
            let ss = song_views(world.songs@);
            let br = broken_paths(world.broken_songs@);
            let bs = book_views(world.books@);
            match r {
                Ok(g) => {
                    &&& graph_outcome(ss, br, bs) is Built
                    &&& graph_nodes(g) == world_nodes(ss, br, bs)
                    &&& graph_edges(g) == capped(world_edges(ss, br, bs))
                },
                Err(BuildGraphError::NodeLimit) => graph_outcome(ss, br, bs) is NodeLimit,
                Err(BuildGraphError::MissingSong(a, t)) => graph_outcome(ss, br, bs) == GraphOutcome::MissingSong(a@, t@),
            }
        }),
{
    let ghost ss = song_views(world.songs@);
    let ghost br = broken_paths(world.broken_songs@);
    let ghost bs = book_views(world.books@);
    proof {
        lemma_first_bad_after(ss, bs, 0);
        assert(bs.take(0) =~= Seq::<BookV>::empty());
    }
    let mut g = graph_new();
    match add_node(&mut g, Artefact { kind: EArtefact::All }) {
        Ok(_) => {},
        Err(e) => {
            return Err(e);
        },
    }
    let ghost mut ie: Seq<EdgeV> = Seq::empty();
    let mut delivs: Vec<usize> = Vec::new();
    let mut i: usize = 0;
    while i < world.songs.len()
        invariant
            ss == song_views(world.songs@),
            br == broken_paths(world.broken_songs@),
            bs == book_views(world.books@),
            first_bad_book(ss, bs) matches Some(m) ==> 0 <= m < bs.len(),
            i <= world.songs@.len(),
            graph_nodes(g) == seq![ArtefactV::All] + songs_nodes(ss.take(i as int)),
            graph_nodes(g).len() <= u32::MAX,
            ie == songs_edges(ss.take(i as int)),
            graph_edges(g) == capped(ie),
            delivs@.len() == i,
            forall|k: int| 0 <= k < i ==> delivs@[k] == songs_nodes(ss.take(k)).len() + 3,
        decreases world.songs.len() - i,
    {
        proof {
            assert(ss.take(i + 1).drop_last() =~= ss.take(i as int));
            lemma_songs_nodes_prefix(ss, i + 1);
        }
        match add_song(&mut g, &world.songs[i], Ghost(ie)) {
            Ok(d) => {
                delivs.push(d);
            },
            Err(e) => {
                return Err(e);
            },
        }
        proof {
            ie = songs_edges(ss.take(i + 1));
            assert(graph_nodes(g) =~= seq![ArtefactV::All] + songs_nodes(ss.take(i + 1)));
        }
        i = i + 1;
    }
    proof {
        assert(ss.take(i as int) =~= ss);
    }
    let ghost fb: int = songs_nodes(ss).len() as int + 1;
    let mut j: usize = 0;
    while j < world.broken_songs.len()
        invariant
            ss == song_views(world.songs@),
            br == broken_paths(world.broken_songs@),
            bs == book_views(world.books@),
            first_bad_book(ss, bs) matches Some(m) ==> 0 <= m < bs.len(),
            fb == songs_nodes(ss).len() + 1,
            j <= world.broken_songs@.len(),
            graph_nodes(g) == seq![ArtefactV::All] + songs_nodes(ss) + broken_nodes(br.take(j as int)),
            graph_nodes(g).len() <= u32::MAX,
            ie == songs_edges(ss) + broken_edges(fb, j as nat),
            graph_edges(g) == capped(ie),
            delivs@.len() == world.songs@.len(),
            forall|k: int| 0 <= k < world.songs@.len() ==> delivs@[k] == songs_nodes(ss.take(k)).len() + 3,
        decreases world.broken_songs.len() - j,
    {
        let n = match add_node(&mut g, Artefact::new_broken_song(world.broken_songs[j].0.clone())) {
            Ok(n) => n,
            Err(e) => {
                return Err(e);
            },
        };
        add_edge(&mut g, n, 0, "all", Ghost(ie));
        proof {
            ie = ie.push((n as int, 0int, "all"@));
            assert(ie =~= songs_edges(ss) + broken_edges(fb, (j + 1) as nat));
            assert(broken_nodes(br.take(j + 1)) =~= broken_nodes(br.take(j as int)).push(ArtefactV::Broken(br[j as int])));
            assert(graph_nodes(g) =~= seq![ArtefactV::All] + songs_nodes(ss) + broken_nodes(br.take(j + 1)));
        }
        j = j + 1;
    }
    proof {
        assert(br.take(j as int) =~= br);
        assert(bs.take(0) =~= Seq::<BookV>::empty());
        assert(ie =~= songs_edges(ss) + broken_edges(fb, br.len()) + books_edges(ss, bs.take(0), fb + br.len()));
        assert(graph_nodes(g) =~= seq![ArtefactV::All] + songs_nodes(ss) + broken_nodes(br) + books_nodes(bs.take(0)));
    }
    let ghost base_e = songs_edges(ss) + broken_edges(fb, br.len());
    let ghost base_n = seq![ArtefactV::All] + songs_nodes(ss) + broken_nodes(br);
    let mut q: usize = 0;
    while q < world.books.len()
        invariant
            ss == song_views(world.songs@),
            br == broken_paths(world.broken_songs@),
            bs == book_views(world.books@),
            fb == songs_nodes(ss).len() + 1,
            base_e == songs_edges(ss) + broken_edges(fb, br.len()),
            base_n == seq![ArtefactV::All] + songs_nodes(ss) + broken_nodes(br),
            q <= world.books@.len(),
            first_bad_book(ss, bs.take(q as int)) is None,
            graph_nodes(g) == base_n + books_nodes(bs.take(q as int)),
            graph_nodes(g).len() <= u32::MAX,
            ie == base_e + books_edges(ss, bs.take(q as int), fb + br.len()),
            graph_edges(g) == capped(ie),
            delivs@.len() == world.songs@.len(),
            forall|k: int| 0 <= k < world.songs@.len() ==> delivs@[k] == songs_nodes(ss.take(k)).len() + 3,
        decreases world.books.len() - q,
    {
        let book = &world.books[q];
        let ghost bk = book@;
        proof {
            lemma_books_nodes_len(bs.take(q as int));
            lemma_first_bad_after(ss, bs, q as int);
            assert(bs.take(q + 1).drop_last() =~= bs.take(q as int));
            assert(bs[q as int] == bk);
        }
        let ghost c: int = graph_nodes(g).len() as int;
        let bootstrap = match add_node(&mut g, Artefact::new_bootstrap_book(book.clone_book())) {
            Ok(n) => n,
            Err(e) => {
                return Err(e);
            },
        };
        let mainpdf = match add_node(&mut g, Artefact::new_pdf_book(book.clone_book())) {
            Ok(n) => n,
            Err(e) => {
                return Err(e);
            },
        };
        add_edge(&mut g, bootstrap, mainpdf, "lualatex", Ghost(ie));
        proof {
            ie = ie.push((c, c + 1, "lualatex"@));
        }
        let deliverypdf = match add_node(&mut g, Artefact::new_delivery_book(book.clone_book())) {
            Ok(n) => n,
            Err(e) => {
                return Err(e);
            },
        };
        add_edge(&mut g, mainpdf, deliverypdf, "delivery", Ghost(ie));
        proof {
            ie = ie.push((c + 1, c + 2, "delivery"@));
        }
        add_edge(&mut g, deliverypdf, 0, "all", Ghost(ie));
        proof {
            ie = ie.push((c + 2, 0int, "all"@));
        }
        let ghost ie0 = ie;
        let ghost xs = bk.songs;
        let ghost nodes_now = graph_nodes(g);
        proof {
            lemma_books_nodes_len(bs.take(q as int));
            assert(nodes_now =~= base_n + books_nodes(bs.take(q + 1)));
        }
        let mut k: usize = 0;
        while k < book.songs.len()
            invariant
                ss == song_views(world.songs@),
                br == broken_paths(world.broken_songs@),
                bs == book_views(world.books@),
                fb == songs_nodes(ss).len() + 1,
                c == fb + br.len() + 3 * q,
                graph_nodes(g) == nodes_now,
                nodes_now == base_n + books_nodes(bs.take(q + 1)),
                bk == book@,
                xs == bk.songs,
                bs[q as int] == bk,
                q < bs.len(),
                first_bad_book(ss, bs.take(q as int)) is None,
                bs.take(q + 1).drop_last() == bs.take(q as int),
                k <= book.songs@.len(),
                mainpdf == c + 1,
                c + 3 == graph_nodes(g).len(),
                fb <= c,
                graph_nodes(g).len() <= u32::MAX,
                first_missing(ss, xs.take(k as int)) is None,
                ie == ie0 + book_song_edges(ss, xs.take(k as int), c + 1),
                graph_edges(g) == capped(ie),
                delivs@.len() == world.songs@.len(),
                forall|k: int| 0 <= k < world.songs@.len() ==> delivs@[k] == songs_nodes(ss.take(k)).len() + 3,
            decreases book.songs.len() - k,
        {
            let song = &book.songs[k];
            proof {
                assert(xs.take(k + 1).drop_last() =~= xs.take(k as int));
                assert(xs[k as int] == song@);
                lemma_delivery_node_bound(ss, song.author@, song.title@);
            }
            match find_delivery(&world.songs, &delivs, &song.author, &song.title) {
                None => {
                    proof {
                        assert(first_missing(ss, xs.take(k + 1)) == Some((song.author@, song.title@)));
                        lemma_first_missing_prefix(ss, xs, k + 1);
                        assert(first_bad_book(ss, bs.take(q + 1)) == Some(q as int));
                        lemma_first_bad_prefix(ss, bs, q + 1);
                    }
                    return Err(BuildGraphError::MissingSong(song.author.clone(), song.title.clone()));
                },
                Some(d) => {
                    add_edge(&mut g, d, mainpdf, "book depends on song", Ghost(ie));
                    proof {
                        ie = ie.push((d as int, c + 1, "book depends on song"@));
                        assert(ie =~= ie0 + book_song_edges(ss, xs.take(k + 1), c + 1));
                    }
                },
            }
            k = k + 1;
        }
        proof {
            assert(xs.take(k as int) =~= xs);
            assert(first_bad_book(ss, bs.take(q + 1)) is None);
            assert(c == fb + br.len() + 3 * q);
            assert(ie =~= base_e + books_edges(ss, bs.take(q + 1), fb + br.len()));
        }
        q = q + 1;
    }
    proof {
        assert(bs.take(q as int) =~= bs);
        lemma_books_nodes_len(bs);
        assert(ie =~= world_edges(ss, br, bs));
        assert(graph_nodes(g) =~= world_nodes(ss, br, bs));
    }
    Ok(g)
}

} // verus!
