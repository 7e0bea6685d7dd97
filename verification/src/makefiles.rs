//! The build files of omake.
use vstd::prelude::*;
use crate::config::model::{Book, Song, World};
use crate::helpers::{normalize_name, normalize_spec};
use crate::text::{replace_all, replace_spec, str_eq, views};

verus! {

/// Does nothing.
pub fn f() {
}

/// The OMakeroot file: its template with the song and build directories
/// put in place of their markers.
pub open spec fn omakeroot_spec(template: Seq<char>, srcdir: Seq<char>, builddir: Seq<char>) -> Seq<char> {
    replace_spec(
        replace_spec(template, "@@@SONGS_DIR@@@"@, srcdir),
        "@@@BUILD_DIR@@@"@,
        builddir,
    )
}

/// The OMakeroot file: its template with the song and build directories
/// put in place of their markers.
pub fn omakeroot_text(template: &str, srcdir: &str, builddir: &str) -> (r: String)
    ensures
        r@ == omakeroot_spec(template@, srcdir@, builddir@),
{
    proof {
        reveal_strlit("@@@SONGS_DIR@@@");
        reveal_strlit("@@@BUILD_DIR@@@");
    }
    let a = replace_all(template, "@@@SONGS_DIR@@@", srcdir);
    replace_all(a.as_str(), "@@@BUILD_DIR@@@", builddir)
}

/// The texts of `parts`, one after the other.
pub open spec fn text_concat(parts: Seq<Seq<char>>) -> Seq<char>
    decreases parts.len(),
{
    if parts.len() == 0 {
        Seq::empty()
    } else {
        text_concat(parts.drop_last()) + parts.last()
    }
}

/// The items of `dirs`, each at its first occurrence only, in order.
pub open spec fn distinct_dirs(dirs: Seq<Seq<char>>) -> Seq<Seq<char>>
    decreases dirs.len(),
{
    if dirs.len() == 0 {
        Seq::empty()
    } else {
        let r = distinct_dirs(dirs.drop_last());
        if r.contains(dirs.last()) {
            r
        } else {
            r.push(dirs.last())
        }
    }
}

/// The line of a subdirectory in the `.SUBDIRS` list.
pub open spec fn subdir_line(d: Seq<char>) -> Seq<char> {
    "\t"@ + d + " \\\n"@
}

/// The line of a delivered pdf in a delivery rule.
pub open spec fn pdf_line(dir: Seq<char>, name: Seq<char>) -> Seq<char> {
    "\t"@ + dir + "/"@ + name + ".pdf \\\n"@
}

/// The phony targets and the head of the subdirectory list.
pub open spec fn root_head() -> Seq<char> {
    "\n.PHONY: all install clean pdf delivery delivery_songs delivery_books clean gdrive\n\ngdrive:\n\tbash $(buildroot)/make_gdrive.sh /zik/songs delivery\n\n.SUBDIRS: \\\n"@
}

/// The recipe that ends a delivery rule.
pub open spec fn delivery_recipe() -> Seq<char> {
    "\n\tmkdir -p delivery\n\tcp $^ delivery/.\n\n"@
}

/// The build directories of the songs, then those of the books.
pub open spec fn world_dirs(w: World) -> Seq<Seq<char>> {
    w.songs@.map_values(|s: Song| s.builddir@) + w.books@.map_values(|b: Book| b.builddir@)
}

/// The root OMakefile of a world: its build directory in a comment, the
/// phony targets, the distinct build directories of its songs and books as
/// subdirectories, and the rules that deliver the pdf of each song and of
/// each book.
pub open spec fn root_omakefile_spec(w: World) -> Seq<char> {
    "# root is "@ + w.builddir@ + "\n"@ + root_head() + text_concat(distinct_dirs(world_dirs(w)).map_values(
        |d: Seq<char>| subdir_line(d),
    )) + "\n\n"@ + "delivery_songs:\\\n"@ + text_concat(
        w.songs@.map_values(|s: Song| pdf_line(s.builddir@, s.pdfname@)),
    ) + delivery_recipe() + "delivery_books:\\\n"@ + text_concat(
        w.books@.map_values(|b: Book| pdf_line(b.builddir@, normalize_spec(b.title@))),
    ) + delivery_recipe() + "delivery: delivery_books delivery_songs\n"@
}

fn contains_text(v: &Vec<String>, s: &String) -> (r: bool)
    ensures
        r == views(v@).contains(s@),
{
    let mut i: usize = 0;
    while i < v.len()
        invariant
            i <= v@.len(),
            forall|j: int| 0 <= j < i ==> views(v@)[j] != s@,
        decreases v@.len() - i,
    {
        if str_eq(v[i].as_str(), s.as_str()) {
            assert(views(v@)[i as int] == s@);
            return true;
        }
        i = i + 1;
    }
    false
}

proof fn lemma_text_concat_push(parts: Seq<Seq<char>>, x: Seq<char>)
    ensures
        text_concat(parts.push(x)) == text_concat(parts) + x,
{
    assert(parts.push(x).drop_last() =~= parts);
}

/// The root OMakefile of a world.
pub fn root_omakefile_text(w: &World) -> (r: String)
    ensures
        r@ == root_omakefile_spec(*w),
{
    let mut dirs: Vec<String> = Vec::new();
    let mut i: usize = 0;
    while i < w.songs.len()
        invariant
            i <= w.songs@.len(),
            views(dirs@) == w.songs@.map_values(|s: Song| s.builddir@).take(i as int),
        decreases w.songs@.len() - i,
    {
        let ghost before = dirs@;
        let d = w.songs[i].builddir.clone();
        dirs.push(d);
        assert(views(dirs@) =~= views(before).push(d@));
        assert(views(dirs@) =~= w.songs@.map_values(|s: Song| s.builddir@).take(i + 1));
        i = i + 1;
    }
    let mut k: usize = 0;
    while k < w.books.len()
        invariant
            k <= w.books@.len(),
            views(dirs@) == w.songs@.map_values(|s: Song| s.builddir@) + w.books@.map_values(|b: Book| b.builddir@).take(k as int),
        decreases w.books@.len() - k,
    {
        let ghost before = dirs@;
        let d = w.books[k].builddir.clone();
        dirs.push(d);
        assert(views(dirs@) =~= views(before).push(d@));
        assert(views(dirs@) =~= w.songs@.map_values(|s: Song| s.builddir@) + w.books@.map_values(|b: Book| b.builddir@).take(k + 1));
        k = k + 1;
    }
    assert(views(dirs@) =~= world_dirs(*w));
    let ghost all = views(dirs@);
    let mut seen: Vec<String> = Vec::new();
    let mut j: usize = 0;
    while j < dirs.len()
        invariant
            all == views(dirs@),
            j <= dirs@.len(),
            views(seen@) == distinct_dirs(all.take(j as int)),
        decreases dirs@.len() - j,
    {
        assert(all.take(j + 1).drop_last() =~= all.take(j as int));
        if !contains_text(&seen, &dirs[j]) {
            seen.push(dirs[j].clone());
            assert(views(seen@) =~= distinct_dirs(all.take(j as int)).push(all[j as int]));
        }
        j = j + 1;
    }
    assert(all.take(j as int) =~= all);
    let mut out = "# root is ".to_owned().concat(w.builddir.as_str()).concat("\n");
    out.append("\n.PHONY: all install clean pdf delivery delivery_songs delivery_books clean gdrive\n\ngdrive:\n\tbash $(buildroot)/make_gdrive.sh /zik/songs delivery\n\n.SUBDIRS: \\\n");
    let ghost base = out@;
    let ghost lines = views(seen@).map_values(|d: Seq<char>| subdir_line(d));
    let mut a: usize = 0;
    while a < seen.len()
        invariant
            a <= seen@.len(),
            lines == views(seen@).map_values(|d: Seq<char>| subdir_line(d)),
            out@ == base + text_concat(lines.take(a as int)),
        decreases seen@.len() - a,
    {
        out.append("\t");
        out.append(seen[a].as_str());
        out.append(" \\\n");
        proof {
            lemma_text_concat_push(lines.take(a as int), lines[a as int]);
            assert(lines.take(a + 1) =~= lines.take(a as int).push(lines[a as int]));
        }
        a = a + 1;
    }
    assert(lines.take(a as int) =~= lines);
    out.append("\n\n");
    out.append("delivery_songs:\\\n");
    let ghost base2 = out@;
    let ghost slines = w.songs@.map_values(|s: Song| pdf_line(s.builddir@, s.pdfname@));
    let mut b: usize = 0;
    while b < w.songs.len()
        invariant
            b <= w.songs@.len(),
            slines == w.songs@.map_values(|s: Song| pdf_line(s.builddir@, s.pdfname@)),
            out@ == base2 + text_concat(slines.take(b as int)),
        decreases w.songs@.len() - b,
    {
        out.append("\t");
        out.append(w.songs[b].builddir.as_str());
        out.append("/");
        out.append(w.songs[b].pdfname.as_str());
        out.append(".pdf \\\n");
        proof {
            lemma_text_concat_push(slines.take(b as int), slines[b as int]);
            assert(slines.take(b + 1) =~= slines.take(b as int).push(slines[b as int]));
        }
        b = b + 1;
    }
    assert(slines.take(b as int) =~= slines);
    out.append("\n\tmkdir -p delivery\n\tcp $^ delivery/.\n\n");
    out.append("delivery_books:\\\n");
    let ghost base3 = out@;
    let ghost blines = w.books@.map_values(|bk: Book| pdf_line(bk.builddir@, normalize_spec(bk.title@)));
    let mut c: usize = 0;
    while c < w.books.len()
        invariant
            c <= w.books@.len(),
            blines == w.books@.map_values(|bk: Book| pdf_line(bk.builddir@, normalize_spec(bk.title@))),
            out@ == base3 + text_concat(blines.take(c as int)),
        decreases w.books@.len() - c,
    {
        let name = normalize_name(w.books[c].title.clone());
        out.append("\t");
        out.append(w.books[c].builddir.as_str());
        out.append("/");
        out.append(name.as_str());
        out.append(".pdf \\\n");
        proof {
            lemma_text_concat_push(blines.take(c as int), blines[c as int]);
            assert(blines.take(c + 1) =~= blines.take(c as int).push(blines[c as int]));
        }
        c = c + 1;
    }
    assert(blines.take(c as int) =~= blines);
    out.append("\n\tmkdir -p delivery\n\tcp $^ delivery/.\n\n");
    out.append("delivery: delivery_books delivery_songs\n");
    out
}

} // verus!
