//! The answers of the build server, computed from what the caller read:
//! the source tree of the songs, the output of the last build, and where the
//! files a client names lie.
use vstd::prelude::*;
use crate::layout::lyric_ids;
use crate::model::types::{Song, StructureItemContent, World};
use crate::paths::{path_push, push_spec};
use crate::progress::{collect_spec, comparable_entries, entries_of, progress_of_string, sorted_progress, ProgressV};
use crate::protocol::answer::{EChoice, Progress, ProgressItem, SourceTree, SourceTreeItem};
use crate::human::{human_compare, human_order};
use crate::text::digit_runs_fit;
use crate::text::{chars_of, matches_at, occurs_at, replace_all, replace_spec, string_of_chars, string_of_range};
use vstd::string::StrSliceExecFns;

verus! {

/// An error of the build server.
#[derive(Clone, Debug, PartialEq, Eq)]
pub enum MyError {
    MessageError(String),
}

/// The progress of the build as the server reports it: nothing yet.
pub fn handle_build_progress(_srcdir: &str, _builddir: &str) -> (r: Result<EChoice, MyError>)
    ensures
        r matches Ok(EChoice::ItemSeeProgress(p)) && p.progress@.len() == 0,
{
    let progress: Vec<ProgressItem> = Vec::new();
    Ok(EChoice::ItemSeeProgress(Progress { progress }))
}

/// The output of the last build: its error output, a newline, then its
/// standard output, as the file "omake.stdout".
pub fn handle_get_omake_stdout(data_stdout: String, data_stderr: String) -> (r: Result<EChoice, MyError>)
    ensures
        r matches Ok(EChoice::ItemFileData(name, data)) && name@ == "omake.stdout"@ && data@
            == data_stderr@ + "\n"@ + data_stdout@,
{
    let data = data_stderr.concat("\n").concat(data_stdout.as_str());
    Ok(EChoice::ItemFileData(String::from_str("omake.stdout"), data))
}

/// The progress of the build, read from its output: the steps reported,
/// sorted; an unreadable date is an error.
pub fn handle_get_omake_progress(data: &str) -> (r: Result<EChoice, MyError>)
    requires
        comparable_entries(entries_of(data@)),
    ensures
        match collect_spec(entries_of(data@)) {
            Err(d) => r matches Err(MyError::MessageError(m)) && m@ == "cannot parse date '"@ + d + "'"@,
            Ok(items) => r matches Ok(EChoice::ItemSeeProgress(p)) && p.progress@.map_values(
                |x: ProgressItem| x@,
            ).to_multiset() == items.to_multiset() && sorted_progress(
                p.progress@.map_values(|x: ProgressItem| x@),
            ),
        },
{
    match progress_of_string(data) {
        Ok(p) => Ok(EChoice::ItemSeeProgress(p)),
        Err(m) => Err(MyError::MessageError(m)),
    }
}

// ------------------------------------------------------------ source tree

/// `str::replace` of `p` by nothing (an empty pattern changes nothing).
pub open spec fn remove_all(s: Seq<char>, p: Seq<char>) -> Seq<char> {
    if p.len() == 0 {
        s
    } else {
        replace_spec(s, p, ""@)
    }
}

fn remove_all_exec(s: &str, p: &str) -> (r: String)
    ensures
        r@ == remove_all(s@, p@),
{
    if p.unicode_len() == 0 {
        String::from_str(s)
    } else {
        replace_all(s, p, "")
    }
}

/// Where a song's sources lie, relative to the song directory.
pub open spec fn song_root(songdir: Seq<char>, srcdir: Seq<char>) -> Seq<char> {
    remove_all(remove_all(srcdir, songdir), songdir)
}

/// A file under a root, written `root/f`.
pub open spec fn under(root: Seq<char>, f: Seq<char>) -> Seq<char> {
    root + "/"@ + f
}

/// The source files of a song, relative to the song directory.
pub open spec fn source_tree_item_ok(songdir: Seq<char>, song: Song, item: SourceTreeItem) -> bool {
    let root = song_root(songdir, song.srcdir@);
    &&& item.title@ == song.title@
    &&& item.author@ == song.author@
    &&& item.masterjsonfile@ == under(root, "song.json"@)
    &&& item.mastertexfile@ == under(root, "body.tex"@)
    &&& item.texfiles@.map_values(|s: String| s@) == song@.texfiles.map_values(|f: Seq<char>| under(root, f))
    &&& item.lyricstexfiles@.map_values(|s: String| s@) == lyric_ids(song@.structure).map_values(
        |id: Seq<char>| under(root, "lyrics/"@ + id + ".tex"@),
    )
    &&& item.lyfiles@.map_values(|s: String| s@) == song@.lilypondfiles.map_values(
        |f: Seq<char>| under(root, f),
    )
}

fn under_exec(root: &String, f: &str) -> (r: String)
    ensures
        r@ == under(root@, f@),
{
    root.clone().concat("/").concat(f)
}

fn files_under(root: &String, fs: &Vec<String>) -> (r: Vec<String>)
    ensures
        r@.map_values(|s: String| s@) == fs@.map_values(|f: String| f@).map_values(|f: Seq<char>| under(root@, f)),
{
    let ghost want = fs@.map_values(|f: String| f@).map_values(|f: Seq<char>| under(root@, f));
    let mut out: Vec<String> = Vec::new();
    let mut i: usize = 0;
    while i < fs.len()
        invariant
            i <= fs@.len(),
            want == fs@.map_values(|f: String| f@).map_values(|f: Seq<char>| under(root@, f)),
            out@.map_values(|s: String| s@) == want.take(i as int),
        decreases fs@.len() - i,
    {
        let p = under_exec(root, fs[i].as_str());
        let ghost before = out@;
        out.push(p);
        proof {
            assert(want.take(i + 1) =~= want.take(i as int).push(p@));
            assert(out@.map_values(|s: String| s@) =~= before.map_values(|s: String| s@).push(p@));
        }
        i = i + 1;
    }
    proof {
        assert(want.take(i as int) =~= want);
    }
    out
}

/// The source files of a song, relative to the song directory.
pub fn source_tree_item(songdir: &str, song: &Song) -> (r: SourceTreeItem)
    ensures
        source_tree_item_ok(songdir@, *song, r),
{
    let r1 = remove_all_exec(song.srcdir.as_str(), songdir);
    let root = remove_all_exec(r1.as_str(), songdir);
    let ghost items = song@.structure;
    let ghost mk = |id: Seq<char>| under(root@, "lyrics/"@ + id + ".tex"@);
    let mut lyrics: Vec<String> = Vec::new();
    let mut k: usize = 0;
    while k < song.structure.len()
        invariant
            items == song@.structure,
            mk == (|id: Seq<char>| under(root@, "lyrics/"@ + id + ".tex"@)),
            k <= song.structure@.len(),
            lyrics@.map_values(|s: String| s@) == lyric_ids(items.take(k as int)).map_values(mk),
        decreases song.structure@.len() - k,
    {
        let id: Option<&String> = match &song.structure[k].item {
            StructureItemContent::ItemChords(c) => Some(&c.section_id),
            StructureItemContent::ItemRef(c) => Some(&c.section_id),
            _ => None,
        };
        let ghost before = lyrics@;
        proof {
            assert(items.take(k + 1).drop_last() =~= items.take(k as int));
            assert(items[k as int] == song.structure@[k as int]@);
        }
        match id {
            Some(id) => {
                let name = String::from_str("lyrics/").concat(id.as_str()).concat(".tex");
                let p = under_exec(&root, name.as_str());
                lyrics.push(p);
                proof {
                    assert(lyrics@.map_values(|s: String| s@) =~= before.map_values(|s: String| s@).push(p@));
                    assert(lyric_ids(items.take(k + 1)) == lyric_ids(items.take(k as int)).push(id@));
                    assert(lyric_ids(items.take(k + 1)).map_values(mk) =~= lyric_ids(items.take(k as int)).map_values(
                        mk,
                    ).push(p@));
                }
            },
            None => {},
        }
        k = k + 1;
    }
    proof {
        assert(items.take(k as int) =~= items);
    }
    SourceTreeItem {
        title: song.title.clone(),
        author: song.author.clone(),
        masterjsonfile: under_exec(&root, "song.json"),
        mastertexfile: under_exec(&root, "body.tex"),
        texfiles: files_under(&root, &song.texfiles),
        lyricstexfiles: lyrics,
        lyfiles: files_under(&root, &song.lilypondfiles),
    }
}

/// The source tree of the songs of a world, relative to the song directory.
pub fn handle_source_tree(songdir: &str, world: &World) -> (r: Result<EChoice, MyError>)
    ensures
        r matches Ok(EChoice::ItemSourceTree(t)) && t.items@.len() == world.songs@.len() && forall|i: int|
            0 <= i < t.items@.len() ==> source_tree_item_ok(songdir@, world.songs@[i], #[trigger] t.items@[i]),
{
    let mut items: Vec<SourceTreeItem> = Vec::new();
    let mut i: usize = 0;
    while i < world.songs.len()
        invariant
            i <= world.songs@.len(),
            items@.len() == i,
            forall|j: int| 0 <= j < i ==> source_tree_item_ok(songdir@, world.songs@[j], #[trigger] items@[j]),
        decreases world.songs@.len() - i,
    {
        items.push(source_tree_item(songdir, &world.songs[i]));
        i = i + 1;
    }
    Ok(EChoice::ItemSourceTree(SourceTree { items }))
}

// ------------------------------------------------------------ files of a client

/// A path without its first character when it is absolute.
pub open spec fn relative_spec(p: Seq<char>) -> Seq<char> {
    if p.len() > 0 && p[0] == '/' {
        p.skip(1)
    } else {
        p
    }
}

/// A source file a client asks for: its path as shown back to the client
/// (made relative), and where it lies under the song directory.
pub fn source_file_path(songdir: &str, spath: &str) -> (r: (String, String))
    ensures
        r.0@ == relative_spec(spath@),
        r.1@ == push_spec(songdir@, relative_spec(spath@)),
{
    let cs = chars_of(spath);
    let shown = if cs.len() > 0 && cs[0] == '/' {
        let rest = slice_from(&cs, 1);
        proof {
            assert(rest@ =~= spath@.skip(1));
        }
        rest
    } else {
        String::from_str(spath)
    };
    let full = path_push(songdir, shown.as_str());
    (shown, full)
}

fn slice_from(cs: &Vec<char>, k: usize) -> (r: String)
    requires
        k <= cs@.len(),
    ensures
        r@ == cs@.skip(k as int),
{
    let mut out: Vec<char> = Vec::new();
    let mut i: usize = k;
    while i < cs.len()
        invariant
            k <= i <= cs@.len(),
            out@ == cs@.subrange(k as int, i as int),
        decreases cs@.len() - i,
    {
        out.push(cs[i]);
        proof {
            assert(cs@.subrange(k as int, i + 1) =~= cs@.subrange(k as int, i as int).push(cs@[i as int]));
        }
        i = i + 1;
    }
    proof {
        assert(cs@.subrange(k as int, i as int) =~= cs@.skip(k as int));
    }
    string_of_chars(out.as_slice())
}

/// A path without its first '/', wherever it is.
pub open spec fn without_first_slash(p: Seq<char>) -> Seq<char> {
    if exists|i: int| 0 <= i < p.len() && p[i] == '/' {
        let i = choose|i: int| 0 <= i < p.len() && p[i] == '/' && forall|j: int| 0 <= j < i ==> p[j] != '/';
        p.take(i) + p.skip(i + 1)
    } else {
        p
    }
}

/// Where a file that a client saves lies: under the song directory, at the
/// path the client gave without its first '/'.
pub fn save_file_path(songdir: &str, path: &str) -> (r: String)
    ensures
        r@ == push_spec(songdir@, without_first_slash(path@)),
{
    let cs = chars_of(path);
    let mut i: usize = 0;
    while i < cs.len()
        invariant
            cs@ == path@,
            i <= cs@.len(),
            forall|j: int| 0 <= j < i ==> cs@[j] != '/',
        decreases cs@.len() - i,
    {
        if cs[i] == '/' {
            let mut out: Vec<char> = Vec::new();
            let mut k: usize = 0;
            while k < cs.len()
                invariant
                    i < cs@.len(),
                    k <= cs@.len(),
                    out@ == (if k <= i {
                        cs@.take(k as int)
                    } else {
                        cs@.take(i as int) + cs@.subrange(i + 1, k as int)
                    }),
                decreases cs@.len() - k,
            {
                if k != i {
                    out.push(cs[k]);
                }
                proof {
                    if k < i {
                        assert(cs@.take(k + 1) =~= cs@.take(k as int).push(cs@[k as int]));
                    } else if k == i {
                        assert(cs@.subrange(i + 1, k + 1) =~= Seq::<char>::empty());
                        assert(cs@.take(i as int) + cs@.subrange(i + 1, k + 1) =~= cs@.take(k as int));
                    } else {
                        assert(cs@.subrange(i + 1, k + 1) =~= cs@.subrange(i + 1, k as int).push(cs@[k as int]));
                    }
                }
                k = k + 1;
            }
            proof {
                let w = choose|w: int| 0 <= w < path@.len() && path@[w] == '/' && forall|j: int| 0 <= j < w ==> path@[j] != '/';
                assert(0 <= i < path@.len() && path@[i as int] == '/' && forall|j: int| 0 <= j < i ==> path@[j] != '/');
                assert(w == i as int) by {
                    if w < i {
                        assert(path@[w] != '/');
                    } else if w > i {
                        assert(path@[i as int] != '/');
                    }
                }
                assert(cs@.take(k as int) =~= cs@);
                assert(out@ =~= path@.take(i as int) + path@.skip(i + 1));
            }
            let rel = string_of_chars(out.as_slice());
            return path_push(songdir, rel.as_str());
        }
        i = i + 1;
    }
    path_push(songdir, path)
}

/// The trees that cleaning the build removes.
pub fn clean_build_tree_paths(builddir: &str) -> (r: Vec<String>)
    ensures
        r@.map_values(|s: String| s@) == seq![
            push_spec(builddir@, "delivery"@),
            push_spec(builddir@, "songs"@),
            push_spec(builddir@, "books"@),
        ],
{
    let mut out: Vec<String> = Vec::new();
    out.push(path_push(builddir, "delivery"));
    out.push(path_push(builddir, "songs"));
    out.push(path_push(builddir, "books"));
    proof {
        assert(out@.map_values(|s: String| s@) =~= seq![
            push_spec(builddir@, "delivery"@),
            push_spec(builddir@, "songs"@),
            push_spec(builddir@, "books"@),
        ]);
    }
    out
}

// ------------------------------------------------------------ the last build

/// The name of a build output file: it holds "omake.", then, later on the
/// same line, ".stdout" (what the pattern `omake\..*\.stdout` finds).
pub open spec fn omake_stdout_name(n: Seq<char>) -> bool {
    exists|i: int, j: int|
        #![trigger occurs_at(n, "omake."@, i), occurs_at(n, ".stdout"@, j)]
        occurs_at(n, "omake."@, i) && i + 6 <= j && occurs_at(n, ".stdout"@, j) && forall|k: int|
            i + 6 <= k < j ==> n[k] != '\n'
}

/// The output of the last build among `names`: going through them in
/// order, a build output file replaces the one kept so far when it comes
/// after it in the order of `human_sort::compare` (the file names hold the
/// date of the build).
pub open spec fn latest_spec(names: Seq<Seq<char>>) -> Option<Seq<char>>
    decreases names.len(),
{
    if names.len() == 0 {
        None
    } else {
        let best = latest_spec(names.drop_last());
        let x = names.last();
        if !omake_stdout_name(x) {
            best
        } else {
            match best {
                None => Some(x),
                Some(b) => if human_order(x, b) == 1 {
                    Some(x)
                } else {
                    Some(b)
                },
            }
        }
    }
}

/// The position of the last occurrence of `pat` in `s` that starts at or
/// before `k`, or -1.
pub open spec fn last_occurrence(s: Seq<char>, pat: Seq<char>, k: int) -> int
    decreases (if k < 0 {
        0
    } else {
        k + 1
    }),
{
    if k < 0 {
        -1
    } else if occurs_at(s, pat, k) {
        k
    } else {
        last_occurrence(s, pat, k - 1)
    }
}

/// The last occurrence found is an occurrence, at or before `k`.
proof fn lemma_last_occurrence(s: Seq<char>, pat: Seq<char>, k: int)
    ensures
        last_occurrence(s, pat, k) >= 0 ==> occurs_at(s, pat, last_occurrence(s, pat, k)) && last_occurrence(
            s,
            pat,
            k,
        ) <= k,
    decreases (if k < 0 {
        0
    } else {
        k + 1
    }),
{
    if k >= 0 && !occurs_at(s, pat, k) {
        lemma_last_occurrence(s, pat, k - 1);
    }
}

/// The error output that goes with a build output file: its last "stdout"
/// becomes "stderr".
pub open spec fn stderr_name_spec(n: Seq<char>) -> Seq<char> {
    let i = last_occurrence(n, "stdout"@, n.len() as int);
    if i < 0 {
        n
    } else {
        n.subrange(0, i) + "stderr"@ + n.subrange(i + 6, n.len() as int)
    }
}

fn is_omake_stdout_name(n: &String) -> (r: bool)
    ensures
        r == omake_stdout_name(n@),
{
    proof {
        reveal_strlit("omake.");
        reveal_strlit(".stdout");
        assert("omake."@ =~= seq!['o', 'm', 'a', 'k', 'e', '.']);
        assert(".stdout"@ =~= seq!['.', 's', 't', 'd', 'o', 'u', 't']);
    }
    let cs = chars_of(n.as_str());
    let a = chars_of("omake.");
    let b = chars_of(".stdout");
    let len = cs.len();
    let mut i: usize = 0;
    while i < len
        invariant
            len == cs@.len(),
            cs@ == n@,
            a@ == "omake."@,
            b@ == ".stdout"@,
            a@.len() == 6,
            ".stdout"@ == seq!['.', 's', 't', 'd', 'o', 'u', 't'],
            i <= len,
            forall|i2: int, j2: int|
                0 <= i2 < i && occurs_at(n@, "omake."@, i2) && i2 + 6 <= j2 && occurs_at(n@, ".stdout"@, j2) ==> exists|k: int|
                    i2 + 6 <= k < j2 && #[trigger] n@[k] == '\n',
        decreases len - i,
    {
        if matches_at(&cs, &a, i) {
            let mut j: usize = i + 6;
            let mut line_ok = true;
            while j < len && line_ok
                invariant
                    len == cs@.len(),
                    cs@ == n@,
                    b@ == ".stdout"@,
                    ".stdout"@ == seq!['.', 's', 't', 'd', 'o', 'u', 't'],
                    occurs_at(n@, "omake."@, i as int),
                    i + 6 <= j <= len,
                    line_ok ==> forall|k: int| i + 6 <= k < j ==> n@[k] != '\n',
                    !line_ok ==> j > i + 6 && n@[j - 1] == '\n',
                    forall|j2: int| i + 6 <= j2 < j && line_ok ==> !occurs_at(n@, ".stdout"@, j2),
                    !line_ok ==> forall|j2: int| i + 6 <= j2 < j - 1 ==> !occurs_at(n@, ".stdout"@, j2),
                decreases len - j + (if line_ok { 1int } else { 0int }),
            {
                if matches_at(&cs, &b, j) {
                    proof {
                        assert(omake_stdout_name(n@)) by {
                            assert(occurs_at(n@, "omake."@, i as int) && occurs_at(n@, ".stdout"@, j as int));
                        }
                    }
                    return true;
                }
                if cs[j] == '\n' {
                    line_ok = false;
                }
                j = j + 1;
            }
            proof {
                assert forall|j2: int| i + 6 <= j2 && occurs_at(n@, ".stdout"@, j2) implies exists|k: int|
                    i + 6 <= k < j2 && #[trigger] n@[k] == '\n' by {
                    if line_ok {
                        assert(j2 >= j);
                        assert(j == len);
                        assert(false);
                    } else {
                        assert(j2 >= j - 1);
                        if j2 == j - 1 {
                            assert(n@.subrange(j2, j2 + 7)[0] == '.');
                            assert(n@[j2] == '\n');
                            assert(false);
                        }
                        assert(n@[j - 1] == '\n');
                    }
                }
            }
        }
        i = i + 1;
    }
    proof {
        if omake_stdout_name(n@) {
            let (i2, j2) = choose|i2: int, j2: int|
                #![trigger occurs_at(n@, "omake."@, i2), occurs_at(n@, ".stdout"@, j2)]
                occurs_at(n@, "omake."@, i2) && i2 + 6 <= j2 && occurs_at(n@, ".stdout"@, j2) && forall|k: int|
                    i2 + 6 <= k < j2 ==> n@[k] != '\n';
            assert(i2 < len);
            let k = choose|k: int| i2 + 6 <= k < j2 && #[trigger] n@[k] == '\n';
            assert(false);
        }
    }
    false
}

/// The output file of the last build among the file names `names` of the
/// build directory (see `latest_spec`), with the name of its error output.
pub fn latest_omake_output(names: &Vec<String>) -> (r: Option<(String, String)>)
    requires
        forall|i: int| 0 <= i < names@.len() && omake_stdout_name(#[trigger] names@[i]@) ==> digit_runs_fit(names@[i]@),
    ensures
        match latest_spec(names@.map_values(|n: String| n@)) {
            None => r is None,
            Some(x) => r matches Some((o, e)) && o@ == x && e@ == stderr_name_spec(x),
        },
{
    let ghost nv = names@.map_values(|n: String| n@);
    let mut best: Option<usize> = None;
    let mut i: usize = 0;
    while i < names.len()
        invariant
            nv == names@.map_values(|n: String| n@),
            i <= names@.len(),
            forall|q: int| 0 <= q < names@.len() && omake_stdout_name(#[trigger] names@[q]@) ==> digit_runs_fit(names@[q]@),
            match best {
                None => latest_spec(nv.take(i as int)) is None,
                Some(b) => b < i && latest_spec(nv.take(i as int)) == Some(nv[b as int]) && omake_stdout_name(nv[b as int]),
            },
        decreases names@.len() - i,
    {
        assert(nv.take(i + 1).drop_last() =~= nv.take(i as int));
        assert(nv[i as int] == names@[i as int]@);
        if is_omake_stdout_name(&names[i]) {
            match best {
                None => {
                    best = Some(i);
                },
                Some(b) => {
                    assert(nv[b as int] == names@[b as int]@);
                    if human_compare(names[i].as_str(), names[b].as_str()) == 1 {
                        best = Some(i);
                    }
                },
            }
        }
        i = i + 1;
    }
    assert(nv.take(i as int) =~= nv);
    match best {
        None => None,
        Some(b) => {
            assert(nv[b as int] == names@[b as int]@);
            let o = names[b].clone();
            let e = stderr_name(&o);
            Some((o, e))
        },
    }
}

/// The error output that goes with a build output file.
pub fn stderr_name(n: &String) -> (r: String)
    ensures
        r@ == stderr_name_spec(n@),
{
    proof {
        reveal_strlit("stdout");
        assert("stdout"@ =~= seq!['s', 't', 'd', 'o', 'u', 't']);
    }
    let cs = chars_of(n.as_str());
    let pat = chars_of("stdout");
    let len = cs.len();
    let mut found: Option<usize> = None;
    let mut i: usize = 0;
    while i < len
        invariant
            len == cs@.len(),
            cs@ == n@,
            pat@ == "stdout"@,
            "stdout"@.len() == 6,
            i <= len,
            match found {
                None => last_occurrence(n@, "stdout"@, i - 1) == -1,
                Some(f) => last_occurrence(n@, "stdout"@, i - 1) == f && f < i,
            },
        decreases len - i,
    {
        if matches_at(&cs, &pat, i) {
            found = Some(i);
        }
        i = i + 1;
    }
    assert(!occurs_at(n@, "stdout"@, len as int));
    assert(last_occurrence(n@, "stdout"@, len as int) == last_occurrence(n@, "stdout"@, len - 1));
    match found {
        None => string_of_chars(cs.as_slice()),
        Some(f) => {
            proof {
                lemma_last_occurrence(n@, "stdout"@, len as int);
            }
            assert(occurs_at(n@, "stdout"@, f as int));
            let head = string_of_range(&cs, 0, f);
            let tail = string_of_range(&cs, f + 6, len);
            head.concat("stderr").concat(tail.as_str())
        },
    }
}

/// What the server shows of the last build: its output and error output,
/// or "no build yet" and nothing when there was none.
pub fn omake_output_or_none(found: Option<(String, String)>) -> (r: (String, String))
    ensures
        match found {
            None => r.0@ == "no build yet"@ && r.1@ == ""@,
            Some((o, e)) => r.0@ == o@ && r.1@ == e@,
        },
{
    match found {
        None => ("no build yet".to_owned(), "".to_owned()),
        Some((o, e)) => (o, e),
    }
}

} // verus!
