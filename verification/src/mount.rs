//! Mounting a song: the files copied from its source directory to its build
//! directory before it is built.
use vstd::prelude::*;
use crate::layout::lyric_ids;
use crate::model::types::{Song, StructureItemContent};
use crate::model::world::pair_views;
use crate::paths::{path_push, push_spec};

verus! {

/// The copy of the file `f` of a song from its source directory to its
/// build directory.
pub open spec fn mount_pair(srcdir: Seq<char>, builddir: Seq<char>, f: Seq<char>) -> (Seq<char>, Seq<char>) {
    (push_spec(srcdir, f), push_spec(builddir, f))
}

/// The copies that a song needs, each file of which must exist: `body.tex`,
/// `add.tikz`, then its lilypond files.
pub open spec fn required_mounts_spec(srcdir: Seq<char>, builddir: Seq<char>, ly: Seq<Seq<char>>) -> Seq<(Seq<char>, Seq<char>)> {
    seq![mount_pair(srcdir, builddir, "body.tex"@), mount_pair(srcdir, builddir, "add.tikz"@)] + ly.map_values(
        |f: Seq<char>| mount_pair(srcdir, builddir, f),
    )
}

/// The copies of the lyrics of a song's sections, `lyrics/ID.tex` for the
/// id of each chord section or reference, in the order of the structure.
pub open spec fn lyrics_mounts_spec(srcdir: Seq<char>, builddir: Seq<char>, ids: Seq<Seq<char>>) -> Seq<(Seq<char>, Seq<char>)> {
    ids.map_values(
        |id: Seq<char>|
            (
                push_spec(push_spec(srcdir, "lyrics"@), id + ".tex"@),
                push_spec(push_spec(builddir, "lyrics"@), id + ".tex"@),
            ),
    )
}

fn mount_of(srcdir: &str, builddir: &str, f: &str) -> (r: (String, String))
    ensures
        (r.0@, r.1@) == mount_pair(srcdir@, builddir@, f@),
{
    (path_push(srcdir, f), path_push(builddir, f))
}

/// The copies that a song needs, each file of which must exist.
pub fn required_mounts(song: &Song) -> (r: Vec<(String, String)>)
    ensures
        pair_views(r@) == required_mounts_spec(song.srcdir@, song.builddir@, song@.lilypondfiles),
{
    let ghost src = song.srcdir@;
    let ghost dst = song.builddir@;
    let ghost lyv = song@.lilypondfiles;
    let mut out: Vec<(String, String)> = Vec::new();
    out.push(mount_of(song.srcdir.as_str(), song.builddir.as_str(), "body.tex"));
    out.push(mount_of(song.srcdir.as_str(), song.builddir.as_str(), "add.tikz"));
    let ghost head = pair_views(out@);
    assert(head =~= seq![mount_pair(src, dst, "body.tex"@), mount_pair(src, dst, "add.tikz"@)]);
    let ghost mk = |f: Seq<char>| mount_pair(src, dst, f);
    let mut i: usize = 0;
    while i < song.lilypondfiles.len()
        invariant
            src == song.srcdir@,
            dst == song.builddir@,
            lyv == song@.lilypondfiles,
            mk == (|f: Seq<char>| mount_pair(src, dst, f)),
            i <= lyv.len(),
            pair_views(out@) == head + lyv.take(i as int).map_values(mk),
        decreases lyv.len() - i,
    {
        let p = mount_of(song.srcdir.as_str(), song.builddir.as_str(), song.lilypondfiles[i].as_str());
        let ghost before = out@;
        out.push(p);
        proof {
            assert(lyv[i as int] == song.lilypondfiles@[i as int]@);
            assert(lyv.take(i + 1).map_values(mk) =~= lyv.take(i as int).map_values(mk).push((p.0@, p.1@)));
            assert(pair_views(out@) =~= pair_views(before).push((p.0@, p.1@)));
        }
        i = i + 1;
    }
    assert(lyv.take(i as int) =~= lyv);
    out
}

/// The copies of the lyrics of a song's sections.
pub fn lyrics_mounts(song: &Song) -> (r: Vec<(String, String)>)
    ensures
        pair_views(r@) == lyrics_mounts_spec(song.srcdir@, song.builddir@, lyric_ids(song@.structure)),
{
    let ghost items = song@.structure;
    let ghost src = song.srcdir@;
    let ghost dst = song.builddir@;
    let ghost mk = |id: Seq<char>|
        (
            push_spec(push_spec(src, "lyrics"@), id + ".tex"@),
            push_spec(push_spec(dst, "lyrics"@), id + ".tex"@),
        );
    let from_dir = path_push(song.srcdir.as_str(), "lyrics");
    let to_dir = path_push(song.builddir.as_str(), "lyrics");
    let mut out: Vec<(String, String)> = Vec::new();
    let mut k: usize = 0;
    while k < song.structure.len()
        invariant
            items == song@.structure,
            src == song.srcdir@,
            dst == song.builddir@,
            from_dir@ == push_spec(src, "lyrics"@),
            to_dir@ == push_spec(dst, "lyrics"@),
            mk == (|id: Seq<char>|
                (
                    push_spec(push_spec(src, "lyrics"@), id + ".tex"@),
                    push_spec(push_spec(dst, "lyrics"@), id + ".tex"@),
                )),
            k <= song.structure@.len(),
            pair_views(out@) == lyric_ids(items.take(k as int)).map_values(mk),
        decreases song.structure@.len() - k,
    {
        let id: Option<&String> = match &song.structure[k].item {
            StructureItemContent::ItemChords(c) => Some(&c.section_id),
            StructureItemContent::ItemRef(c) => Some(&c.section_id),
            _ => None,
        };
        let ghost before = out@;
        proof {
            assert(items.take(k + 1).drop_last() =~= items.take(k as int));
            assert(items[k as int] == song.structure@[k as int]@);
        }
        match id {
            Some(id) => {
                let name = id.clone().concat(".tex");
                let p = (path_push(from_dir.as_str(), name.as_str()), path_push(to_dir.as_str(), name.as_str()));
                out.push(p);
                proof {
                    assert(pair_views(out@) =~= pair_views(before).push((p.0@, p.1@)));
                    assert(lyric_ids(items.take(k + 1)) == lyric_ids(items.take(k as int)).push(id@));
                    assert(lyric_ids(items.take(k + 1)).map_values(mk) =~= lyric_ids(items.take(k as int)).map_values(
                        mk,
                    ).push((p.0@, p.1@)));
                }
            },
            None => {},
        }
        k = k + 1;
    }
    proof {
        assert(items.take(k as int) =~= items);
    }
    out
}

} // verus!
