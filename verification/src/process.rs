//! The processes below a process: reading the children files of
//! `/proc`, and walking the process tree. Reading the files is left to the
//! caller.
use vstd::prelude::*;
use crate::numbers::{decimal, decimal_spec, parse_u32, parse_u32_spec};
use crate::text::{split_char, split_spec};
use vstd::string::StrSliceExecFns;

verus! {

/// The file that lists the children of a process.
pub open spec fn children_file_spec(pid: u32) -> Seq<char> {
    "/proc/"@ + decimal_spec(pid as nat) + "/task/"@ + decimal_spec(pid as nat) + "/children"@
}

/// The file that lists the children of a process.
pub fn children_file(pid: u32) -> (r: String)
    ensures
        r@ == children_file_spec(pid),
{
    let d = decimal(pid as u64);
    String::from_str("/proc/").concat(d.as_str()).concat("/task/").concat(d.as_str()).concat("/children")
}

/// The words of a text split at spaces, empty ones left out.
pub open spec fn nonempty_words(ws: Seq<Seq<char>>) -> Seq<Seq<char>>
    decreases ws.len(),
{
    if ws.len() == 0 {
        Seq::empty()
    } else if ws.last().len() > 0 {
        nonempty_words(ws.drop_last()).push(ws.last())
    } else {
        nonempty_words(ws.drop_last())
    }
}

/// The pids a children file lists: its words, once split at spaces.
pub open spec fn child_words(text: Seq<char>) -> Seq<Seq<char>> {
    nonempty_words(split_spec(text, ' '))
}

/// Every word of a children file is a pid.
pub open spec fn children_text_ok_spec(text: Seq<char>) -> bool {
    forall|i: int| 0 <= i < child_words(text).len() ==> (#[trigger] parse_u32_spec(child_words(text)[i])) is Some
}

/// Whether every word of a children file is a pid.
pub fn children_text_ok(text: &str) -> (r: bool)
    ensures
        r == children_text_ok_spec(text@),
{
    let words = split_char(text, ' ');
    let ghost ws = split_spec(text@, ' ');
    let mut i: usize = 0;
    while i < words.len()
        invariant
            ws == split_spec(text@, ' '),
            words@.len() == ws.len(),
            forall|j: int| 0 <= j < ws.len() ==> (#[trigger] words@[j])@ == ws[j],
            i <= ws.len(),
            forall|j: int|
                0 <= j < nonempty_words(ws.take(i as int)).len() ==> (#[trigger] parse_u32_spec(
                    nonempty_words(ws.take(i as int))[j],
                )) is Some,
        decreases ws.len() - i,
    {
        proof {
            assert(ws.take(i + 1).drop_last() =~= ws.take(i as int));
        }
        if words[i].as_str().unicode_len() > 0 {
            if parse_u32(words[i].as_str()).is_none() {
                proof {
                    lemma_nonempty_words_prefix(ws, i + 1);
                    let k = nonempty_words(ws.take(i as int)).len() as int;
                    assert(nonempty_words(ws.take(i + 1))[k] == ws[i as int]);
                    assert(child_words(text@)[k] == ws[i as int]);
                }
                return false;
            }
        }
        i = i + 1;
    }
    proof {
        assert(ws.take(i as int) =~= ws);
    }
    true
}

/// A longer list of words has the words of its prefix first.
pub proof fn lemma_nonempty_words_prefix(ws: Seq<Seq<char>>, k: int)
    requires
        0 <= k <= ws.len(),
    ensures
        nonempty_words(ws.take(k)).len() <= nonempty_words(ws).len(),
        forall|j: int|
            0 <= j < nonempty_words(ws.take(k)).len() ==> #[trigger] nonempty_words(ws)[j] == nonempty_words(
                ws.take(k),
            )[j],
    decreases ws.len() - k,
{
    if k < ws.len() {
        lemma_nonempty_words_prefix(ws.drop_last(), k);
        assert(ws.drop_last().take(k) =~= ws.take(k));
    } else {
        assert(ws.take(k) =~= ws);
    }
}

/// The pids a children file lists, in order.
pub fn children_of_text(text: &str) -> (r: Vec<u32>)
    requires
        children_text_ok_spec(text@),
    ensures
        r@.len() == child_words(text@).len(),
        forall|i: int| 0 <= i < r@.len() ==> Some(#[trigger] r@[i]) == parse_u32_spec(child_words(text@)[i]),
{
    let words = split_char(text, ' ');
    let ghost ws = split_spec(text@, ' ');
    let mut out: Vec<u32> = Vec::new();
    let mut i: usize = 0;
    while i < words.len()
        invariant
            ws == split_spec(text@, ' '),
            children_text_ok_spec(text@),
            words@.len() == ws.len(),
            forall|j: int| 0 <= j < ws.len() ==> (#[trigger] words@[j])@ == ws[j],
            i <= ws.len(),
            out@.len() == nonempty_words(ws.take(i as int)).len(),
            forall|j: int|
                0 <= j < out@.len() ==> Some(#[trigger] out@[j]) == parse_u32_spec(nonempty_words(ws.take(i as int))[j]),
        decreases ws.len() - i,
    {
        proof {
            assert(ws.take(i + 1).drop_last() =~= ws.take(i as int));
            lemma_nonempty_words_prefix(ws, i + 1);
        }
        if words[i].as_str().unicode_len() > 0 {
            let ghost k = out@.len() as int;
            proof {
                assert(nonempty_words(ws.take(i + 1))[k] == ws[i as int]);
                assert(child_words(text@)[k] == ws[i as int]);
                assert(parse_u32_spec(child_words(text@)[k]) is Some);
            }
            match parse_u32(words[i].as_str()) {
                Some(p) => {
                    out.push(p);
                },
                None => {},
            }
        }
        i = i + 1;
    }
    proof {
        assert(ws.take(i as int) =~= ws);
    }
    out
}

// ------------------------------------------------------------ the walk

/// A walk through the processes below a root: the processes found so far,
/// in the order they were found, and those whose children are still to be
/// read (the last one first).
pub struct Descendents {
    pub acc: Vec<u32>,
    pub todo: Vec<u32>,
}

impl Descendents {
    /// A walk from the children of the root.
    pub fn new(root_children: Vec<u32>) -> (r: Descendents)
        ensures
            r.acc@ == Seq::<u32>::empty(),
            r.todo@ == root_children@,
    {
        Descendents { acc: Vec::new(), todo: root_children }
    }

    /// The next process whose children are to be read, the last one waiting
    /// first; it is counted as found. `None` once the walk is over.
    pub fn next(&mut self) -> (r: Option<u32>)
        ensures
            old(self).todo@.len() == 0 ==> r is None && final(self).todo@ == old(self).todo@ && final(self).acc@ == old(self).acc@,
            old(self).todo@.len() > 0 ==> {
                &&& r == Some(old(self).todo@.last())
                &&& final(self).todo@ == old(self).todo@.drop_last()
                &&& final(self).acc@ == old(self).acc@.push(old(self).todo@.last())
            },
    {
        match self.todo.pop() {
            None => None,
            Some(p) => {
                self.acc.push(p);
                Some(p)
            },
        }
    }

    /// Hands over the children of the process that `next` gave last.
    pub fn add_children(&mut self, children: Vec<u32>)
        ensures
            final(self).acc@ == old(self).acc@,
            final(self).todo@ == old(self).todo@ + children@,
    {
        let mut i: usize = 0;
        let ghost t0 = self.todo@;
        while i < children.len()
            invariant
                i <= children@.len(),
                self.acc@ == old(self).acc@,
                t0 == old(self).todo@,
                self.todo@ == t0 + children@.take(i as int),
            decreases children@.len() - i,
        {
            self.todo.push(children[i]);
            proof {
                assert(children@.take(i + 1) =~= children@.take(i as int).push(children@[i as int]));
            }
            i = i + 1;
        }
        proof {
            assert(children@.take(i as int) =~= children@);
        }
    }

    /// The processes found, in the order they were found.
    pub fn found(&self) -> (r: &Vec<u32>)
        ensures
            r@ == self.acc@,
    {
        &self.acc
    }
}

} // verus!
