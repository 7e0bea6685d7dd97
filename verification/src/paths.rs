//! Paths as `/`-separated strings: joining, parent directory and file name,
//! with the meaning that `PathBuf::push`, `Path::parent` and
//! `Path::file_name` have on such paths (`.` components are not folded).
use vstd::prelude::*;
use crate::text::{chars_of, last_index_exec, last_index_in, lemma_last_index_in, push_char, string_of_range};

verus! {

/// Appending `x` to the path `p`: an absolute `x` replaces `p`; otherwise a
/// separator is put between them unless `p` is empty or already ends with one.
pub open spec fn push_spec(p: Seq<char>, x: Seq<char>) -> Seq<char> {
    if x.len() > 0 && x[0] == '/' {
        x
    } else if p.len() == 0 || p.last() == '/' {
        p + x
    } else {
        p + seq!['/'] + x
    }
}

/// Appends `x` to the path `p`.
pub fn path_push(p: &str, x: &str) -> (r: String)
    ensures
        r@ == push_spec(p@, x@),
{
    let xs = chars_of(x);
    let ps = chars_of(p);
    if xs.len() > 0 && xs[0] == '/' {
        return string_of_range(&xs, 0, xs.len());
    }
    let mut r = string_of_range(&ps, 0, ps.len());
    if !(ps.len() == 0 || ps[ps.len() - 1] == '/') {
        push_char(&mut r, '/');
    }
    r.append(x);
    assert(ps@.subrange(0, ps@.len() as int) =~= ps@);
    assert(xs@.subrange(0, xs@.len() as int) =~= xs@);
    r
}

/// The path `root` with each of `elems` appended in turn.
pub open spec fn make_path_spec(root: Seq<char>, elems: Seq<Seq<char>>) -> Seq<char>
    decreases elems.len(),
{
    if elems.len() == 0 {
        root
    } else {
        push_spec(make_path_spec(root, elems.drop_last()), elems.last())
    }
}

/// Building a path from no elements gives the root, and building in two
/// steps is building with the two lists of elements one after the other.
pub proof fn lemma_make_path_steps(root: Seq<char>, a: Seq<Seq<char>>, b: Seq<Seq<char>>)
    ensures
        make_path_spec(root, Seq::empty()) == root,
        make_path_spec(make_path_spec(root, a), b) == make_path_spec(root, a + b),
    decreases b.len(),
{
    if b.len() == 0 {
        assert(a + b =~= a);
    } else {
        lemma_make_path_steps(root, a, b.drop_last());
        assert((a + b).drop_last() =~= a + b.drop_last());
        assert((a + b).last() == b.last());
    }
}

/// The path `root` with each of `elems` appended in turn.
pub fn make_path(root: String, elems: Vec<&str>) -> (r: String)
    ensures
        r@ == make_path_spec(root@, elems@.map_values(|e: &str| e@)),
{
    let ghost es = elems@.map_values(|e: &str| e@);
    let mut p = root;
    let mut i: usize = 0;
    assert(es.subrange(0, 0) =~= Seq::<Seq<char>>::empty());
    while i < elems.len()
        invariant
            es == elems@.map_values(|e: &str| e@),
            i <= elems@.len(),
            p@ == make_path_spec(root@, es.subrange(0, i as int)),
        decreases elems@.len() - i,
    {
        assert(es.subrange(0, i + 1).drop_last() =~= es.subrange(0, i as int));
        p = path_push(p.as_str(), elems[i]);
        i = i + 1;
    }
    assert(es.subrange(0, elems@.len() as int) =~= es);
    p
}

/// The length of `s` once its trailing separators are removed, keeping at
/// least one character.
pub open spec fn trimmed_len(s: Seq<char>, n: int) -> int
    decreases n,
{
    if n > 1 && s[n - 1] == '/' {
        trimmed_len(s, n - 1)
    } else {
        n
    }
}

proof fn lemma_trimmed_len(s: Seq<char>, n: int)
    requires
        0 <= n <= s.len(),
    ensures
        0 <= trimmed_len(s, n) <= n,
        n > 0 ==> trimmed_len(s, n) > 0,
    decreases n,
{
    if n > 1 && s[n - 1] == '/' {
        lemma_trimmed_len(s, n - 1);
    }
}

fn trimmed_len_exec(cs: &Vec<char>, n: usize) -> (r: usize)
    requires
        n <= cs@.len(),
    ensures
        r as int == trimmed_len(cs@, n as int),
        r <= n,
{
    let mut k = n;
    while k > 1 && cs[k - 1] == '/'
        invariant
            k <= n <= cs@.len(),
            trimmed_len(cs@, k as int) == trimmed_len(cs@, n as int),
        decreases k,
    {
        k = k - 1;
    }
    k
}

/// The parent directory of a path: `None` for the empty path and for the
/// root; the empty path for a single relative component.
pub open spec fn parent_spec(p: Seq<char>) -> Option<Seq<char>> {
    let n = trimmed_len(p, p.len() as int);
    let q = p.subrange(0, n);
    if n == 0 || q == seq!['/'] {
        None
    } else {
        let k = last_index_in(q, '/', 0, n);
        if k < 0 {
            Some(Seq::empty())
        } else if k == 0 {
            Some(seq!['/'])
        } else {
            Some(q.subrange(0, trimmed_len(q, k)))
        }
    }
}

/// The parent directory of a path.
pub fn path_parent(p: &str) -> (r: Option<String>)
    ensures
        opt_view(r) == parent_spec(p@),
{
    let cs = chars_of(p);
    let n = trimmed_len_exec(&cs, cs.len());
    proof { lemma_trimmed_len(cs@, cs@.len() as int); }
    let ghost q = cs@.subrange(0, n as int);
    if n == 0 || (n == 1 && cs[0] == '/') {
        assert(n == 1 ==> (cs[0] == '/' <==> q =~= seq!['/']));
        return None;
    }
    assert(!(q =~= seq!['/'])) by {
        if q =~= seq!['/'] { assert(q[0] == cs@[0]); }
    }
    let qs = string_of_range(&cs, 0, n);
    let qc = chars_of(qs.as_str());
    match last_index_exec(&qc, '/', 0, n) {
        None => Some(String::new()),
        Some(k) => {
            if k == 0 {
                let mut r = String::new();
                push_char(&mut r, '/');
                assert(r@ =~= seq!['/']);
                Some(r)
            } else {
                proof { lemma_last_index_in(q, '/', 0, n as int); }
                let m = trimmed_len_exec(&qc, k);
                Some(string_of_range(&qc, 0, m))
            }
        },
    }
}

/// The last component of a path, unless it is empty or "..".
pub open spec fn file_name_spec(p: Seq<char>) -> Option<Seq<char>> {
    let n = trimmed_len(p, p.len() as int);
    let q = p.subrange(0, n);
    let k = last_index_in(q, '/', 0, n);
    let name = q.subrange(k + 1, n);
    if name.len() == 0 || name == seq!['.', '.'] {
        None
    } else {
        Some(name)
    }
}

/// The last component of a path.
pub fn path_file_name(p: &str) -> (r: Option<String>)
    ensures
        opt_view(r) == file_name_spec(p@),
{
    let cs = chars_of(p);
    let n = trimmed_len_exec(&cs, cs.len());
    proof { lemma_trimmed_len(cs@, cs@.len() as int); }
    let ghost q = cs@.subrange(0, n as int);
    let qs = string_of_range(&cs, 0, n);
    let qc = chars_of(qs.as_str());
    let start: usize = match last_index_exec(&qc, '/', 0, n) {
        None => 0,
        Some(k) => {
            proof { lemma_last_index_in(q, '/', 0, n as int); }
            k + 1
        },
    };
    let name = string_of_range(&qc, start, n);
    let ghost nm = q.subrange(start as int, n as int);
    if n == start {
        assert(nm.len() == 0);
        return None;
    }
    if n - start == 2 && qc[start] == '.' && qc[start + 1] == '.' {
        assert(nm =~= seq!['.', '.']);
        return None;
    }
    assert(!(nm =~= seq!['.', '.'])) by {
        if nm =~= seq!['.', '.'] {
            assert(nm[0] == qc@[start as int] && nm[1] == qc@[start + 1]);
        }
    }
    Some(name)
}

/// The view of an optional string.
pub open spec fn opt_view(o: Option<String>) -> Option<Seq<char>> {
    match o {
        Some(s) => Some(s@),
        None => None,
    }
}

} // verus!
