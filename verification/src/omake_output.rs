//! The build output as the web client shows it: one mark per line that
//! reports a step as `[status][topic][message]`.
use vstd::prelude::*;
use crate::text::{chars_of, matches_at, occurs_at, split_char, split_spec, string_of_chars, views};

verus! {

/// A line that holds `[...][...][...]` (any text, possibly empty, between
/// the brackets).
pub open spec fn bracket_triple(line: Seq<char>) -> bool {
    exists|a: int, b: int, c: int, d: int|
        #![trigger occurs_at(line, "["@, a), occurs_at(line, "]["@, b), occurs_at(line, "]["@, c), occurs_at(line, "]"@, d)]
        0 <= a && a + 1 <= b && b + 2 <= c && c + 2 <= d && occurs_at(line, "["@, a) && occurs_at(
            line,
            "]["@,
            b,
        ) && occurs_at(line, "]["@, c) && occurs_at(line, "]"@, d)
}

/// The number of lines that report a step.
pub open spec fn count_triples(lines: Seq<Seq<char>>) -> nat
    decreases lines.len(),
{
    if lines.len() == 0 {
        0
    } else {
        count_triples(lines.drop_last()) + if bracket_triple(lines.last()) {
            1nat
        } else {
            0nat
        }
    }
}

/// `n` marks "xx" joined by "/n".
pub open spec fn marks(n: nat) -> Seq<char>
    decreases n,
{
    if n == 0 {
        Seq::empty()
    } else if n == 1 {
        "xx"@
    } else {
        marks((n - 1) as nat) + "/n"@ + "xx"@
    }
}

/// The first occurrence of `pat` in `cs` from `from` on.
fn find_from(cs: &Vec<char>, pat: &Vec<char>, from: usize) -> (r: Option<usize>)
    requires
        pat@.len() > 0,
    ensures
        match r {
            Some(i) => from <= i && occurs_at(cs@, pat@, i as int) && forall|j: int|
                from <= j < i ==> !occurs_at(cs@, pat@, j),
            None => forall|j: int| from <= j ==> !occurs_at(cs@, pat@, j),
        },
{
    let mut i: usize = from;
    while i < cs.len()
        invariant
            from <= i,
            forall|j: int| from <= j < i ==> !occurs_at(cs@, pat@, j),
        decreases cs@.len() - i,
    {
        if matches_at(cs, pat, i) {
            return Some(i);
        }
        i = i + 1;
    }
    proof {
        assert forall|j: int| from <= j implies !occurs_at(cs@, pat@, j) by {
            if j >= i {
                assert(j >= cs@.len());
            }
        }
    }
    None
}

/// Whether a line holds `[...][...][...]`.
pub fn has_bracket_triple(line: &str) -> (r: bool)
    ensures
        r == bracket_triple(line@),
{
    proof {
        reveal_strlit("[");
        reveal_strlit("][");
        reveal_strlit("]");
    }
    let cs = chars_of(line);
    let open = chars_of("[");
    let sep = chars_of("][");
    let close = chars_of("]");
    let a = match find_from(&cs, &open, 0) {
        Some(a) => a,
        None => {
            return false;
        },
    };
    assert(open@ =~= seq!['[']);
    assert(sep@ =~= seq![']', '[']);
    let n = cs.len();
    assert(a + 1 <= n);
    let b = match find_from(&cs, &sep, a + 1) {
        Some(b) => b,
        None => {
            proof {
                assert forall|a2: int, b2: int, c2: int, d2: int|
                    0 <= a2 && a2 + 1 <= b2 && b2 + 2 <= c2 && c2 + 2 <= d2 && occurs_at(line@, "["@, a2)
                        && occurs_at(line@, "]["@, b2) && occurs_at(line@, "]["@, c2) && occurs_at(
                        line@,
                        "]"@,
                        d2,
                    ) implies false by {
                    assert(a <= a2);
                }
            }
            return false;
        },
    };
    assert(b + 2 <= n);
    let c = match find_from(&cs, &sep, b + 2) {
        Some(c) => c,
        None => {
            proof {
                assert forall|a2: int, b2: int, c2: int, d2: int|
                    0 <= a2 && a2 + 1 <= b2 && b2 + 2 <= c2 && c2 + 2 <= d2 && occurs_at(line@, "["@, a2)
                        && occurs_at(line@, "]["@, b2) && occurs_at(line@, "]["@, c2) && occurs_at(
                        line@,
                        "]"@,
                        d2,
                    ) implies false by {
                    assert(a <= a2);
                    assert(b <= b2);
                }
            }
            return false;
        },
    };
    let d = match find_from(&cs, &close, c + 2) {
        Some(d) => d,
        None => {
            proof {
                assert forall|a2: int, b2: int, c2: int, d2: int|
                    0 <= a2 && a2 + 1 <= b2 && b2 + 2 <= c2 && c2 + 2 <= d2 && occurs_at(line@, "["@, a2)
                        && occurs_at(line@, "]["@, b2) && occurs_at(line@, "]["@, c2) && occurs_at(
                        line@,
                        "]"@,
                        d2,
                    ) implies false by {
                    assert(a <= a2);
                    assert(b <= b2);
                    assert(c <= c2);
                }
            }
            return false;
        },
    };
    proof {
        assert(occurs_at(line@, "["@, a as int) && occurs_at(line@, "]["@, b as int) && occurs_at(
            line@,
            "]["@,
            c as int,
        ) && occurs_at(line@, "]"@, d as int));
    }
    true
}

/// The marks of the build output: one "xx" for each line that reports a
/// step as `[status][topic][message]`, joined by "/n".
pub fn format_string(input: &String) -> (r: String)
    ensures
        r@ == marks(count_triples(split_spec(input@, '\n'))),
{
    let lines = split_char(input.as_str(), '\n');
    let ghost ls = split_spec(input@, '\n');
    let mut out: Vec<char> = Vec::new();
    let mut n: usize = 0;
    let mut i: usize = 0;
    while i < lines.len()
        invariant
            views(lines@) == ls,
            i <= lines@.len(),
            n == count_triples(ls.take(i as int)),
            n <= i,
            out@ == marks(n as nat),
        decreases lines@.len() - i,
    {
        proof {
            assert(ls.take(i + 1).drop_last() =~= ls.take(i as int));
            assert(ls[i as int] == lines@[i as int]@);
        }
        if has_bracket_triple(lines[i].as_str()) {
            if n > 0 {
                out.push('/');
                out.push('n');
            }
            out.push('x');
            out.push('x');
            proof {
                reveal_strlit("xx");
                reveal_strlit("/n");
                if n == 0 {
                    assert(out@ =~= "xx"@);
                } else {
                    assert(out@ =~= marks(n as nat) + "/n"@ + "xx"@);
                }
            }
            n = n + 1;
        }
        i = i + 1;
    }
    proof {
        assert(ls.take(i as int) =~= ls);
    }
    string_of_chars(out.as_slice())
}

} // verus!
