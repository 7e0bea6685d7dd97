//! When to write a mounted file, and when a song or a book needs to be
//! built again. The caller reads the files; the decisions are made here on
//! what it read.
use vstd::prelude::*;
use vstd::std_specs::cmp::PartialEqSpec;
use crate::digest::{compute_digest, concat_all, digest_spec, hex_digit, hex_spec, sha256};
use crate::error::{ModelError, ModelErrorV};
use crate::helpers::find_song;
use crate::layout::{lyric_ids, lyrics_file};
use crate::model::types::{Book, BookSong, Song, StructureItemContent, World};
use crate::paths::{path_push, push_spec};
use crate::scheduler::BuildType;
use crate::text::{chars_of, matches_at, occurs_at, str_eq};

verus! {

// ------------------------------------------------------------ mounting

/// Mounting `bytes` onto a target that holds `existing` (`None` when it does
/// not exist) writes them unless the target already holds them.
pub open spec fn mount_writes(bytes: Seq<u8>, existing: Option<Seq<u8>>) -> bool {
    !(existing == Some(bytes))
}

/// Mounting is idempotent: mounting onto a missing target writes, and
/// mounting again the bytes just written writes nothing.
pub proof fn lemma_mount_twice_writes_once(bytes: Seq<u8>)
    ensures
        mount_writes(bytes, None),
        !mount_writes(bytes, Some(bytes)),
{
}

/// Whether mounting `bytes` onto a target that holds `existing` (`None`
/// when it does not exist) writes it: 1 if it does, 0 if the target already
/// holds these bytes.
pub fn mount_from_data(bytes: &Vec<u8>, existing: Option<Vec<u8>>) -> (r: u32)
    ensures
        r == (if mount_writes(
            bytes@,
            match existing {
                Some(e) => Some(e@),
                None => None,
            },
        ) {
            1u32
        } else {
            0u32
        }),
{
    match existing {
        Some(e) => {
            let ghost ev = e@;
            let b = bytes.clone();
            assert(b@ =~= bytes@);
            if __vec_are_equal(e, b) {
                assert(ev =~= bytes@);
                0
            } else {
                1
            }
        },
        None => 1,
    }
}

/// Whether mounting the text `new_data` onto a target that holds `existing`
/// (`None` when it does not exist) writes it: 1 if it does, 0 if the target
/// already holds this text.
pub fn mount_from_file(new_data: &String, existing: Option<String>) -> (r: u32)
    ensures
        r == (if existing matches Some(e) && e@ == new_data@ {
            0u32
        } else {
            1u32
        }),
{
    match existing {
        Some(e) => {
            if str_eq(e.as_str(), new_data.as_str()) {
                0
            } else {
                1
            }
        },
        None => 1,
    }
}

/// Whether two vectors hold equal items, one for one.
pub fn __vec_are_equal<T: PartialEq + PartialEqSpec>(v1: Vec<T>, v2: Vec<T>) -> (r: bool)
    ensures
        T::obeys_eq_spec() ==> (r == (v1@.len() == v2@.len() && forall|i: int|
            0 <= i < v1@.len() ==> (#[trigger] v1@[i]).eq_spec(&v2@[i]))),
{
    if v1.len() != v2.len() {
        return false;
    }
    let mut i: usize = 0;
    while i < v1.len()
        invariant
            v1@.len() == v2@.len(),
            i <= v1@.len(),
            T::obeys_eq_spec() ==> forall|j: int| 0 <= j < i ==> (#[trigger] v1@[j]).eq_spec(&v2@[j]),
        decreases v1@.len() - i,
    {
        if v1[i] != v2[i] {
            return false;
        }
        i = i + 1;
    }
    true
}

// ------------------------------------------------------------ bootstrap

/// The outcome of a song's bootstrap, from the inputs the previous one
/// gathered (`old_data`, empty when there was none) and those this one
/// gathered (`new_data`): the target counts as made again when the two are
/// the same, and as untouched otherwise.
pub fn bootstrap_outcome(old_data: &str, new_data: &str, target: String) -> (r: BuildType)
    ensures
        old_data@ == new_data@ ==> r == BuildType::Rebuilt(target),
        old_data@ != new_data@ ==> r == BuildType::NotTouched(target),
{
    if str_eq(old_data, new_data) {
        BuildType::Rebuilt(target)
    } else {
        BuildType::NotTouched(target)
    }
}

// ------------------------------------------------------------ lualatex

/// Whether a lualatex log asks for another run: it holds "Rerun to get".
pub fn needs_rerun(log: &str) -> (r: bool)
    ensures
        r == exists|i: int| occurs_at(log@, "Rerun to get"@, i),
{
    let cs = chars_of(log);
    let pat = chars_of("Rerun to get");
    let mut i: usize = 0;
    while i < cs.len()
        invariant
            cs@ == log@,
            pat@ == "Rerun to get"@,
            i <= cs@.len(),
            forall|j: int| 0 <= j < i ==> !occurs_at(log@, "Rerun to get"@, j),
        decreases cs@.len() - i,
    {
        if matches_at(&cs, &pat, i) {
            return true;
        }
        i = i + 1;
    }
    proof {
        reveal_strlit("Rerun to get");
        assert forall|j: int| !occurs_at(log@, "Rerun to get"@, j) by {
            if 0 <= j < i {
            }
        }
    }
    false
}

// ------------------------------------------------------------ songs

/// The file that records the digest of a song that was built.
pub fn pathbuf_ok_checksum(song: &Song) -> (r: String)
    ensures
        r@ == push_spec(song.builddir@, ".checksum_ok"@),
{
    path_push(song.builddir.as_str(), ".checksum_ok")
}

/// The sources of a song, in the order they go into its digest: the lyrics
/// of its sections, its `song.json`, `body.tex` and `add.tikz`, its tex
/// files and its lilypond files, all in its source directory.
pub open spec fn song_sources_spec(srcdir: Seq<char>, ids: Seq<Seq<char>>, tex: Seq<Seq<char>>, ly: Seq<Seq<char>>) -> Seq<Seq<char>> {
    ids.map_values(|id: Seq<char>| push_spec(push_spec(srcdir, "lyrics"@), id + ".tex"@)) + seq![
        push_spec(srcdir, "song.json"@),
        push_spec(srcdir, "body.tex"@),
        push_spec(srcdir, "add.tikz"@),
    ] + tex.map_values(|f: Seq<char>| push_spec(srcdir, f)) + ly.map_values(
        |f: Seq<char>| push_spec(srcdir, f),
    )
}

/// Appends `srcdir/f` for each `f` of `fs`.
fn push_sources(out: &mut Vec<String>, srcdir: &String, fs: &Vec<String>)
    ensures
        final(out)@.map_values(|s: String| s@) == old(out)@.map_values(|s: String| s@) + fs@.map_values(
            |f: String| f@,
        ).map_values(|f: Seq<char>| push_spec(srcdir@, f)),
{
    let ghost o = old(out)@.map_values(|s: String| s@);
    let ghost fv = fs@.map_values(|f: String| f@).map_values(|f: Seq<char>| push_spec(srcdir@, f));
    let mut i: usize = 0;
    while i < fs.len()
        invariant
            i <= fs@.len(),
            fv == fs@.map_values(|f: String| f@).map_values(|f: Seq<char>| push_spec(srcdir@, f)),
            out@.map_values(|s: String| s@) == o + fv.take(i as int),
        decreases fs@.len() - i,
    {
        let p = path_push(srcdir.as_str(), fs[i].as_str());
        let ghost before = out@;
        out.push(p);
        proof {
            assert(fv.take(i + 1) =~= fv.take(i as int).push(p@));
            assert(out@.map_values(|s: String| s@) =~= before.map_values(|s: String| s@).push(p@));
        }
        i = i + 1;
    }
    proof {
        assert(fv.take(i as int) =~= fv);
    }
}

/// The sources of a song, in the order they go into its digest.
pub fn song_source_files(song: &Song) -> (r: Vec<String>)
    ensures
        r@.map_values(|s: String| s@) == song_sources_spec(
            song.srcdir@,
            lyric_ids(song@.structure),
            song@.texfiles,
            song@.lilypondfiles,
        ),
{
    let ghost items = song@.structure;
    let ghost srcdir = song.srcdir@;
    let ghost mk = |id: Seq<char>| push_spec(push_spec(srcdir, "lyrics"@), id + ".tex"@);
    let lyrics = path_push(song.srcdir.as_str(), "lyrics");
    let mut out: Vec<String> = Vec::new();
    let mut k: usize = 0;
    while k < song.structure.len()
        invariant
            items == song@.structure,
            srcdir == song.srcdir@,
            lyrics@ == push_spec(srcdir, "lyrics"@),
            mk == (|id: Seq<char>| push_spec(push_spec(srcdir, "lyrics"@), id + ".tex"@)),
            k <= song.structure@.len(),
            out@.map_values(|s: String| s@) == lyric_ids(items.take(k as int)).map_values(mk),
        decreases song.structure@.len() - k,
    {
        let id: Option<&String> = match &song.structure[k].item {
            StructureItemContent::ItemChords(c) => Some(&c.section_id),
            StructureItemContent::ItemRef(c) => Some(&c.section_id),
            _ => None,
        };
        let ghost before = out@;
        proof {
            assert(items.take(k + 1).drop_last() =~= items.take(k as int));
            assert(items[k as int] == song.structure@[k as int]@);
        }
        match id {
            Some(id) => {
                let name = id.clone().concat(".tex");
                let p = path_push(lyrics.as_str(), name.as_str());
                out.push(p);
                proof {
                    assert(out@.map_values(|s: String| s@) =~= before.map_values(|s: String| s@).push(p@));
                    assert(lyric_ids(items.take(k + 1)) == lyric_ids(items.take(k as int)).push(id@));
                    assert(lyric_ids(items.take(k + 1)).map_values(mk) =~= lyric_ids(items.take(k as int)).map_values(
                        mk,
                    ).push(p@));
                }
            },
            None => {},
        }
        k = k + 1;
    }
    proof {
        assert(items.take(k as int) =~= items);
    }
    let a = path_push(song.srcdir.as_str(), "song.json");
    let b = path_push(song.srcdir.as_str(), "body.tex");
    let c = path_push(song.srcdir.as_str(), "add.tikz");
    let ghost before = out@.map_values(|s: String| s@);
    out.push(a);
    out.push(b);
    out.push(c);
    proof {
        assert(out@.map_values(|s: String| s@) =~= before + seq![a@, b@, c@]);
    }
    push_sources(&mut out, &song.srcdir, &song.texfiles);
    push_sources(&mut out, &song.srcdir, &song.lilypondfiles);
    proof {
        assert(out@.map_values(|s: String| s@) =~= song_sources_spec(
            srcdir,
            lyric_ids(items),
            song@.texfiles,
            song@.lilypondfiles,
        ));
    }
    out
}

/// The delivered pdf of a song in a build directory.
pub fn delivery_pdf_of_song(builddir: &String, song: &Song) -> (r: String)
    ensures
        r@ == push_spec(push_spec(builddir@, "delivery"@), song.pdfname@ + ".pdf"@),
{
    let d = path_push(builddir.as_str(), "delivery");
    let name = song.pdfname.clone().concat(".pdf");
    path_push(d.as_str(), name.as_str())
}

/// The bytes of a text of ASCII characters.
pub open spec fn ascii_bytes(s: Seq<char>) -> Seq<u8> {
    s.map_values(|c: char| (c as u32) as u8)
}

/// Hexadecimal digits are ASCII.
proof fn lemma_hex_ascii(bytes: Seq<u8>)
    ensures
        forall|i: int| 0 <= i < hex_spec(bytes).len() ==> ((#[trigger] hex_spec(bytes)[i]) as u32) < 128,
    decreases bytes.len(),
{
    if bytes.len() > 0 {
        lemma_hex_ascii(bytes.drop_last());
        let last = bytes.last() as int;
        let h = hex_spec(bytes.drop_last());
        assert(0 <= last / 16 < 16);
        assert(0 <= last % 16 < 16);
        assert((hex_digit(last / 16) as u32) < 128);
        assert((hex_digit(last % 16) as u32) < 128);
        assert forall|i: int| 0 <= i < hex_spec(bytes).len() implies ((#[trigger] hex_spec(bytes)[i]) as u32) < 128 by {
            if i < h.len() {
                assert(hex_spec(bytes)[i] == h[i]);
            } else if i == h.len() {
                assert(hex_spec(bytes)[i] == hex_digit(last / 16));
            } else {
                assert(hex_spec(bytes)[i] == hex_digit(last % 16));
            }
        }
    }
}

/// The digest that records a song built successfully: the digest of the
/// song's description (`song_json`) and its sources, written out, followed
/// by its delivered pdf.
pub open spec fn digest_ok_spec(song_json: Seq<u8>, sources: Seq<Seq<u8>>, pdf: Seq<u8>) -> Seq<char> {
    digest_spec(ascii_bytes(digest_spec(song_json, sources)), seq![pdf])
}

/// The digest that records a song built successfully.
pub fn compute_digest_ok(song_json: &Vec<u8>, sources: &Vec<Vec<u8>>, pdf: &Vec<u8>) -> (r: String)
    ensures
        r@ == digest_ok_spec(song_json@, sources@.map_values(|x: Vec<u8>| x@), pdf@),
{
    let inner = compute_digest(song_json, sources);
    let cs = chars_of(inner.as_str());
    proof {
        lemma_hex_ascii(source_hash(song_json@, sources@.map_values(|x: Vec<u8>| x@)));
    }
    let mut bytes: Vec<u8> = Vec::new();
    let mut i: usize = 0;
    while i < cs.len()
        invariant
            i <= cs@.len(),
            forall|j: int| 0 <= j < cs@.len() ==> ((#[trigger] cs@[j]) as u32) < 128,
            bytes@ == ascii_bytes(cs@.take(i as int)),
        decreases cs@.len() - i,
    {
        let c = cs[i];
        let b: u8 = (c as u32) as u8;
        bytes.push(b);
        proof {
            assert(ascii_bytes(cs@.take(i + 1)) =~= ascii_bytes(cs@.take(i as int)).push(b));
        }
        i = i + 1;
    }
    proof {
        assert(cs@.take(i as int) =~= cs@);
    }
    let mut parts: Vec<Vec<u8>> = Vec::new();
    parts.push(pdf.clone());
    proof {
        assert(parts@.map_values(|x: Vec<u8>| x@) =~= seq![pdf@]);
    }
    compute_digest(&bytes, &parts)
}

/// The bytes whose SHA-256 is the digest of a song's sources.
pub open spec fn source_hash(song_json: Seq<u8>, sources: Seq<Seq<u8>>) -> Seq<u8> {
    sha256(song_json + concat_all(sources))
}

/// Whether a song needs to be built again: unless the digest recorded when
/// it was last built (`None` when it cannot be read) is the digest it would
/// record now (`None` when that cannot be computed).
pub fn needs_rebuild_ok(recorded: &Option<String>, current: &Option<String>) -> (r: bool)
    ensures
        r == (match (recorded, current) {
            (Some(a), Some(b)) => a@ != b@,
            _ => true,
        }),
{
    match (recorded, current) {
        (Some(a), Some(b)) => !str_eq(a.as_str(), b.as_str()),
        _ => true,
    }
}

/// The index of the first song of the world with the author and title of a
/// book song.
pub fn index_of_booksong(world: &World, bs: &BookSong) -> (r: Option<usize>)
    ensures
        match r {
            Some(i) => find_song(world.songs@, bs.author@, bs.title@, 0) == Some(i as int),
            None => find_song(world.songs@, bs.author@, bs.title@, 0) is None,
        },
{
    let mut i: usize = 0;
    while i < world.songs.len()
        invariant
            i <= world.songs@.len(),
            find_song(world.songs@, bs.author@, bs.title@, i as int) == find_song(
                world.songs@,
                bs.author@,
                bs.title@,
                0,
            ),
        decreases world.songs@.len() - i,
    {
        let song = &world.songs[i];
        if str_eq(song.author.as_str(), bs.author.as_str()) && str_eq(song.title.as_str(), bs.title.as_str()) {
            return Some(i);
        }
        i = i + 1;
    }
    None
}

/// Whether a book needs to be built again, going over its songs in order:
/// a song the world lacks is an error; the first song that needs to be
/// built again decides.
pub open spec fn book_needs_spec(world_songs: Seq<Song>, songs: Seq<BookSong>, needs: Seq<bool>, j: int) -> Result<bool, ModelErrorV>
    decreases songs.len() - j,
{
    if j < 0 || j >= songs.len() {
        Ok(false)
    } else {
        match find_song(world_songs, songs[j].author@, songs[j].title@, 0) {
            None => Err(ModelErrorV::MissingSong(songs[j].author@, songs[j].title@)),
            Some(i) => if needs[i] {
                Ok(true)
            } else {
                book_needs_spec(world_songs, songs, needs, j + 1)
            },
        }
    }
}

/// Whether a book needs to be built again; `needs[i]` tells whether the
/// `i`th song of the world does.
pub fn needs_rebuild_book_ok(world: &World, book: &Book, needs: &Vec<bool>) -> (r: Result<bool, ModelError>)
    requires
        needs@.len() == world.songs@.len(),
    ensures
        match r {
            Ok(b) => book_needs_spec(world.songs@, book.songs@, needs@, 0) == Ok::<bool, ModelErrorV>(b),
            Err(e) => book_needs_spec(world.songs@, book.songs@, needs@, 0) == Err::<bool, ModelErrorV>(e@),
        },
{
    let mut j: usize = 0;
    while j < book.songs.len()
        invariant
            j <= book.songs@.len(),
            needs@.len() == world.songs@.len(),
            book_needs_spec(world.songs@, book.songs@, needs@, j as int) == book_needs_spec(
                world.songs@,
                book.songs@,
                needs@,
                0,
            ),
        decreases book.songs@.len() - j,
    {
        let bs = &book.songs[j];
        match index_of_booksong(world, bs) {
            None => {
                return Err(ModelError::MissingSong(bs.author.clone(), bs.title.clone()));
            },
            Some(i) => {
                proof {
                    lemma_find_song_bound(world.songs@, bs.author@, bs.title@, 0);
                    assert(book.songs@[j as int] == *bs);
                    assert(find_song(world.songs@, bs.author@, bs.title@, 0) == Some(i as int));
                }
                if needs[i] {
                    return Ok(true);
                }
            },
        }
        j = j + 1;
    }
    Ok(false)
}

/// A song found is a song of the world.
pub proof fn lemma_find_song_bound(songs: Seq<Song>, author: Seq<char>, title: Seq<char>, i: int)
    ensures
        find_song(songs, author, title, i) matches Some(k) ==> i <= k < songs.len() && songs[k].author@
            == author && songs[k].title@ == title,
    decreases songs.len() - i,
{
    if 0 <= i < songs.len() {
        lemma_find_song_bound(songs, author, title, i + 1);
    }
}

} // verus!
