//! The progress of a build, read from its output: each line that reports a
//! step as `[status][topic][message][date]` updates that step (named by
//! topic and message); the steps come out sorted by topic, start date and
//! message.
use vstd::prelude::*;
use crate::human::{human_compare, human_order};
use crate::text::{digit_runs_fit, has_digit_runs_fit};
use crate::protocol::answer::{Progress, ProgressItem};
use crate::text::{chars_of, matches_at, occurs_at, split_char, split_spec, str_eq, string_of_range, views};

verus! {

// ------------------------------------------------------------ lines

/// The first `[` of a line, from position `k` on.
pub open spec fn first_open(s: Seq<char>, k: int) -> Option<int>
    decreases s.len() - k,
{
    if k < 0 || k >= s.len() {
        None
    } else if s[k] == '[' {
        Some(k)
    } else {
        first_open(s, k + 1)
    }
}

/// The last position, at `i` or before, where `pat` occurs.
pub open spec fn last_from(s: Seq<char>, pat: Seq<char>, i: int) -> Option<int>
    decreases i + 1,
{
    if i < 0 {
        None
    } else if occurs_at(s, pat, i) {
        Some(i)
    } else {
        last_from(s, pat, i - 1)
    }
}

/// A step reported on a line: status, topic, message, date.
pub type EntryV = (Seq<char>, Seq<char>, Seq<char>, Seq<char>);

/// What `\[(.*)\]\[(.*)\]\[(.*)\]\[(.*)\]` captures on a line: the match
/// starts at the first `[`; each group takes as much as it can, so the
/// last group ends at the last `]`, and each earlier group ends at the last
/// `][` that leaves room for the groups after it.
pub open spec fn capture_spec(s: Seq<char>) -> Option<EntryV> {
    match first_open(s, 0) {
        None => None,
        Some(p) => match last_from(s, "]"@, s.len() - 1) {
            None => None,
            Some(e) => match last_from(s, "]["@, e - 2) {
                None => None,
                Some(q3) => match last_from(s, "]["@, q3 - 2) {
                    None => None,
                    Some(q2) => match last_from(s, "]["@, q2 - 2) {
                        None => None,
                        Some(q1) => if q1 >= p + 1 {
                            Some(
                                (
                                    s.subrange(p + 1, q1),
                                    s.subrange(q1 + 2, q2),
                                    s.subrange(q2 + 2, q3),
                                    s.subrange(q3 + 2, e),
                                ),
                            )
                        } else {
                            None
                        },
                    },
                },
            },
        },
    }
}

/// The steps reported on some lines, in order.
pub open spec fn entries_spec(lines: Seq<Seq<char>>) -> Seq<EntryV>
    decreases lines.len(),
{
    if lines.len() == 0 {
        Seq::empty()
    } else {
        match capture_spec(lines.last()) {
            Some(e) => entries_spec(lines.drop_last()).push(e),
            None => entries_spec(lines.drop_last()),
        }
    }
}

/// The steps reported in a build output.
pub open spec fn entries_of(data: Seq<char>) -> Seq<EntryV> {
    entries_spec(split_spec(data, '\n'))
}

fn find_first(cs: &Vec<char>, c: char) -> (r: Option<usize>)
    requires
        c == '[',
    ensures
        match r {
            Some(i) => first_open(cs@, 0) == Some(i as int),
            None => first_open(cs@, 0) is None,
        },
{
    let mut k: usize = 0;
    while k < cs.len()
        invariant
            c == '[',
            k <= cs@.len(),
            first_open(cs@, k as int) == first_open(cs@, 0),
        decreases cs@.len() - k,
    {
        if cs[k] == c {
            return Some(k);
        }
        k = k + 1;
    }
    None
}

/// The last occurrence of `pat` at position `i` or before (with `i` given
/// as `i + 1`, so that it can be negative).
fn find_last(cs: &Vec<char>, pat: &Vec<char>, i_plus_1: usize) -> (r: Option<usize>)
    ensures
        match r {
            Some(j) => last_from(cs@, pat@, i_plus_1 - 1) == Some(j as int),
            None => last_from(cs@, pat@, i_plus_1 - 1) is None,
        },
{
    let mut k: usize = i_plus_1;
    while k > 0
        invariant
            k <= i_plus_1,
            last_from(cs@, pat@, k - 1) == last_from(cs@, pat@, i_plus_1 - 1),
        decreases k,
    {
        if matches_at(cs, pat, k - 1) {
            return Some(k - 1);
        }
        k = k - 1;
    }
    None
}

/// The step a line reports, if any.
pub fn capture_line(line: &str) -> (r: Option<(String, String, String, String)>)
    ensures
        match r {
            Some((a, b, c, d)) => capture_spec(line@) == Some((a@, b@, c@, d@)),
            None => capture_spec(line@) is None,
        },
{
    proof {
        reveal_strlit("]");
        reveal_strlit("][");
    }
    let cs = chars_of(line);
    let close = chars_of("]");
    let sep = chars_of("][");
    let p = match find_first(&cs, '[') {
        Some(p) => p,
        None => {
            return None;
        },
    };
    let e = match find_last(&cs, &close, cs.len()) {
        Some(e) => e,
        None => {
            return None;
        },
    };
    proof {
        lemma_last_from_bounds(cs@, close@, cs@.len() - 1);
    }
    if e < 1 {
        proof {
            assert(last_from(cs@, "]["@, e - 2) is None);
        }
        return None;
    }
    let q3 = match find_last(&cs, &sep, e - 1) {
        Some(q) => q,
        None => {
            return None;
        },
    };
    proof {
        lemma_last_from_bounds(cs@, sep@, e - 2);
    }
    if q3 < 1 {
        proof {
            assert(last_from(cs@, "]["@, q3 - 2) is None);
        }
        return None;
    }
    let q2 = match find_last(&cs, &sep, q3 - 1) {
        Some(q) => q,
        None => {
            return None;
        },
    };
    proof {
        lemma_last_from_bounds(cs@, sep@, q3 - 2);
    }
    if q2 < 1 {
        proof {
            assert(last_from(cs@, "]["@, q2 - 2) is None);
        }
        return None;
    }
    let q1 = match find_last(&cs, &sep, q2 - 1) {
        Some(q) => q,
        None => {
            return None;
        },
    };
    proof {
        lemma_last_from_bounds(cs@, sep@, q2 - 2);
        lemma_first_open_bounds(cs@, 0);
    }
    if q1 < p + 1 {
        return None;
    }
    let a = string_of_range(&cs, p + 1, q1);
    let b = string_of_range(&cs, q1 + 2, q2);
    let c = string_of_range(&cs, q2 + 2, q3);
    let d = string_of_range(&cs, q3 + 2, e);
    Some((a, b, c, d))
}

proof fn lemma_last_from_bounds(s: Seq<char>, pat: Seq<char>, i: int)
    ensures
        last_from(s, pat, i) matches Some(j) ==> 0 <= j <= i && j + pat.len() <= s.len() && occurs_at(s, pat, j),
    decreases i + 1,
{
    if i >= 0 && !occurs_at(s, pat, i) {
        lemma_last_from_bounds(s, pat, i - 1);
    }
}

proof fn lemma_first_open_bounds(s: Seq<char>, k: int)
    requires
        0 <= k,
    ensures
        first_open(s, k) matches Some(j) ==> k <= j < s.len(),
    decreases s.len() - k,
{
    if k < s.len() && s[k] != '[' {
        lemma_first_open_bounds(s, k + 1);
    }
}

// ------------------------------------------------------------ steps

/// The abstract value of a step.
pub struct ProgressV {
    pub status: Seq<char>,
    pub topic: Seq<char>,
    pub message: Seq<char>,
    pub start: i64,
    pub end: Option<i64>,
}

impl View for ProgressItem {
    type V = ProgressV;

    open spec fn view(&self) -> ProgressV {
        ProgressV {
            status: self.status@,
            topic: self.topic@,
            message: self.message@,
            start: self.start_date,
            end: self.end_date,
        }
    }
}

/// The seconds since the epoch of a date written `%Y-%m-%d %H:%M:%S`
/// (read as UTC), if it is one.
pub uninterp spec fn date_seconds(text: Seq<char>) -> Option<i64>;

/// `chrono::NaiveDateTime::parse_from_str` with the format
/// `%Y-%m-%d %H:%M:%S`, and the seconds since the epoch of the date read
/// (as UTC): `None` when the text is not such a date.
#[verifier::external_body]
fn parse_date(text: &str) -> (r: Option<i64>)
    ensures
        r == date_seconds(text@),
{
    match chrono::NaiveDateTime::parse_from_str(text, "%Y-%m-%d %H:%M:%S") {
        Ok(d) => Some(d.and_utc().timestamp()),
        Err(_) => None,
    }
}

/// The first step, from position `k` on, with this topic and message.
pub open spec fn key_index(items: Seq<ProgressV>, topic: Seq<char>, message: Seq<char>, k: int) -> Option<int>
    decreases items.len() - k,
{
    if k < 0 || k >= items.len() {
        None
    } else if items[k].topic == topic && items[k].message == message {
        Some(k)
    } else {
        key_index(items, topic, message, k + 1)
    }
}

/// The steps after some reports, in the order they first appeared: a
/// report on a known step replaces its status and sets its end date; a
/// report on a new step starts it. The first date that cannot be read is
/// an error.
pub open spec fn collect_spec(entries: Seq<EntryV>) -> Result<Seq<ProgressV>, Seq<char>>
    decreases entries.len(),
{
    if entries.len() == 0 {
        Ok(Seq::empty())
    } else {
        match collect_spec(entries.drop_last()) {
            Err(d) => Err(d),
            Ok(items) => {
                let (st, tp, msg, date) = entries.last();
                match date_seconds(date) {
                    None => Err(date),
                    Some(ts) => match key_index(items, tp, msg, 0) {
                        Some(i) => Ok(
                            items.update(
                                i,
                                ProgressV { status: st, topic: tp, message: msg, start: items[i].start, end: Some(ts) },
                            ),
                        ),
                        None => Ok(items.push(ProgressV { status: st, topic: tp, message: msg, start: ts, end: None })),
                    },
                }
            },
        }
    }
}

/// A report is about a step when it names the step's topic and message.
pub open spec fn reports_on(e: EntryV, p: ProgressV) -> bool {
    e.1 == p.topic && e.2 == p.message
}

/// Some step is the one that report `e` is about.
pub open spec fn has_step(items: Seq<ProgressV>, e: EntryV) -> bool {
    exists|i: int| 0 <= i < items.len() && #[trigger] reports_on(e, items[i])
}

/// Every report is about one of the steps.
pub open spec fn every_report_has_step(entries: Seq<EntryV>, items: Seq<ProgressV>) -> bool {
    forall|j: int| 0 <= j < entries.len() ==> has_step(items, #[trigger] entries[j])
}

/// No two steps have both the same topic and the same message.
pub open spec fn steps_distinct(items: Seq<ProgressV>) -> bool {
    forall|i1: int, i2: int|
        0 <= i1 < i2 < items.len() ==> !(#[trigger] items[i1].topic == #[trigger] items[i2].topic && items[i1].message == items[i2].message)
}

/// `jf` and `jl` are the first and the last report about step `p`: it
/// started at the date of the first, has the status of the last, and ended
/// at the date of the last if there was more than one.
pub open spec fn step_history(entries: Seq<EntryV>, p: ProgressV, jf: int, jl: int) -> bool {
    &&& 0 <= jf <= jl < entries.len()
    &&& reports_on(entries[jf], p)
    &&& reports_on(entries[jl], p)
    &&& forall|j: int| 0 <= j < jf ==> !reports_on(#[trigger] entries[j], p)
    &&& forall|j: int| jl < j < entries.len() ==> !reports_on(#[trigger] entries[j], p)
    &&& date_seconds(entries[jf].3) == Some(p.start)
    &&& p.status == entries[jl].0
    &&& p.end == (if jf == jl { None } else { date_seconds(entries[jl].3) })
}

/// Step `p` is what its reports say.
pub open spec fn step_of_reports(entries: Seq<EntryV>, p: ProgressV) -> bool {
    exists|jf: int, jl: int| step_history(entries, p, jf, jl)
}

proof fn lemma_key_index(items: Seq<ProgressV>, topic: Seq<char>, message: Seq<char>, k: int)
    requires
        0 <= k,
    ensures
        key_index(items, topic, message, k) matches Some(i) ==> k <= i < items.len() && items[i].topic == topic
            && items[i].message == message,
        key_index(items, topic, message, k) is None ==> forall|i: int|
            k <= i < items.len() ==> !(#[trigger] items[i].topic == topic && items[i].message == message),
    decreases items.len() - k,
{
    if k < items.len() {
        lemma_key_index(items, topic, message, k + 1);
    }
}

/// What the steps are, given the reports: every report is about one of
/// them, no two share both topic and message, and each is what its reports
/// say.
pub open spec fn steps_of_reports(entries: Seq<EntryV>, items: Seq<ProgressV>) -> bool {
    &&& every_report_has_step(entries, items)
    &&& steps_distinct(items)
    &&& forall|i: int| 0 <= i < items.len() ==> step_of_reports(entries, #[trigger] items[i])
}

proof fn lemma_known_step_covers(prev: Seq<EntryV>, e: EntryV, before: Seq<ProgressV>, k: int, np: ProgressV)
    requires
        every_report_has_step(prev, before),
        0 <= k < before.len(),
        reports_on(e, np),
        np.topic == before[k].topic && np.message == before[k].message,
    ensures
        every_report_has_step(prev.push(e), before.update(k, np)),
{
    let entries = prev.push(e);
    let items = before.update(k, np);
    assert forall|j: int| 0 <= j < entries.len() implies has_step(items, #[trigger] entries[j]) by {
        if j < prev.len() {
            assert(entries[j] == prev[j]);
            assert(has_step(before, prev[j]));
            let i = choose|i: int| 0 <= i < before.len() && reports_on(prev[j], before[i]);
            assert(reports_on(entries[j], items[i]));
        } else {
            assert(reports_on(entries[j], items[k]));
        }
    }
}

proof fn lemma_known_step_distinct(before: Seq<ProgressV>, k: int, np: ProgressV)
    requires
        steps_distinct(before),
        0 <= k < before.len(),
        np.topic == before[k].topic && np.message == before[k].message,
    ensures
        steps_distinct(before.update(k, np)),
{
    let items = before.update(k, np);
    assert forall|i1: int, i2: int| 0 <= i1 < i2 < items.len() implies !(#[trigger] items[i1].topic
        == #[trigger] items[i2].topic && items[i1].message == items[i2].message) by {
        assert(before[i1].topic == before[i2].topic ==> before[i1].message != before[i2].message);
    }
}

proof fn lemma_known_step_updated(prev: Seq<EntryV>, e: EntryV, old: ProgressV, np: ProgressV)
    requires
        step_of_reports(prev, old),
        reports_on(e, np),
        np.topic == old.topic && np.message == old.message,
        np.start == old.start,
        np.status == e.0,
        np.end == date_seconds(e.3),
        date_seconds(e.3) is Some,
    ensures
        step_of_reports(prev.push(e), np),
{
    let entries = prev.push(e);
    let n = prev.len() as int;
    assert(entries[n] == e);
    let (jf, jl) = choose|jf: int, jl: int| step_history(prev, old, jf, jl);
    assert(entries[jf] == prev[jf]);
    assert forall|j: int| 0 <= j < jf implies !reports_on(#[trigger] entries[j], np) by {
        assert(entries[j] == prev[j]);
        assert(!reports_on(prev[j], old));
    }
    assert(step_history(entries, np, jf, n));
}

proof fn lemma_other_step_kept(prev: Seq<EntryV>, e: EntryV, p: ProgressV)
    requires
        step_of_reports(prev, p),
        !reports_on(e, p),
    ensures
        step_of_reports(prev.push(e), p),
{
    let entries = prev.push(e);
    let n = prev.len() as int;
    assert(entries[n] == e);
    let (jf, jl) = choose|jf: int, jl: int| step_history(prev, p, jf, jl);
    assert(entries[jf] == prev[jf] && entries[jl] == prev[jl]);
    assert forall|j: int| 0 <= j < jf implies !reports_on(#[trigger] entries[j], p) by {
        assert(entries[j] == prev[j]);
        assert(!reports_on(prev[j], p));
    }
    assert forall|j: int| jl < j < entries.len() implies !reports_on(#[trigger] entries[j], p) by {
        if j < n {
            assert(entries[j] == prev[j]);
            assert(!reports_on(prev[j], p));
        }
    }
    assert(step_history(entries, p, jf, jl));
}

proof fn lemma_new_step_covers(prev: Seq<EntryV>, e: EntryV, before: Seq<ProgressV>, np: ProgressV)
    requires
        every_report_has_step(prev, before),
        reports_on(e, np),
    ensures
        every_report_has_step(prev.push(e), before.push(np)),
{
    let entries = prev.push(e);
    let items = before.push(np);
    assert forall|j: int| 0 <= j < entries.len() implies has_step(items, #[trigger] entries[j]) by {
        if j < prev.len() {
            assert(entries[j] == prev[j]);
            assert(has_step(before, prev[j]));
            let i = choose|i: int| 0 <= i < before.len() && reports_on(prev[j], before[i]);
            assert(items[i] == before[i]);
            assert(reports_on(entries[j], items[i]));
        } else {
            assert(reports_on(entries[j], items[before.len() as int]));
        }
    }
}

proof fn lemma_new_step_distinct(e: EntryV, before: Seq<ProgressV>, np: ProgressV)
    requires
        steps_distinct(before),
        reports_on(e, np),
        forall|i: int| 0 <= i < before.len() ==> !reports_on(e, #[trigger] before[i]),
    ensures
        steps_distinct(before.push(np)),
{
    let items = before.push(np);
    assert forall|i1: int, i2: int| 0 <= i1 < i2 < items.len() implies !(#[trigger] items[i1].topic
        == #[trigger] items[i2].topic && items[i1].message == items[i2].message) by {
        if i2 < before.len() {
            assert(before[i1].topic == before[i2].topic ==> before[i1].message != before[i2].message);
        } else {
            assert(!reports_on(e, before[i1]));
        }
    }
}

proof fn lemma_new_step_started(prev: Seq<EntryV>, e: EntryV, before: Seq<ProgressV>, np: ProgressV)
    requires
        every_report_has_step(prev, before),
        reports_on(e, np),
        forall|i: int| 0 <= i < before.len() ==> !reports_on(e, #[trigger] before[i]),
        date_seconds(e.3) == Some(np.start),
        np.status == e.0,
        np.end is None,
    ensures
        step_of_reports(prev.push(e), np),
{
    let entries = prev.push(e);
    let n = prev.len() as int;
    assert(entries[n] == e);
    assert forall|j: int| 0 <= j < n implies !reports_on(#[trigger] entries[j], np) by {
        assert(entries[j] == prev[j]);
        if reports_on(prev[j], np) {
            assert(has_step(before, prev[j]));
            let i2 = choose|i2: int| 0 <= i2 < before.len() && reports_on(prev[j], before[i2]);
            assert(!reports_on(e, before[i2]));
        }
    }
    assert(step_history(entries, np, n, n));
}

proof fn lemma_known_step(prev: Seq<EntryV>, e: EntryV, before: Seq<ProgressV>, k: int, np: ProgressV)
    requires
        steps_of_reports(prev, before),
        0 <= k < before.len(),
        reports_on(e, np),
        np.topic == before[k].topic && np.message == before[k].message,
        np.start == before[k].start,
        np.status == e.0,
        np.end == date_seconds(e.3),
        date_seconds(e.3) is Some,
    ensures
        steps_of_reports(prev.push(e), before.update(k, np)),
{
    let items = before.update(k, np);
    lemma_known_step_covers(prev, e, before, k, np);
    lemma_known_step_distinct(before, k, np);
    assert forall|i: int| 0 <= i < items.len() implies step_of_reports(prev.push(e), #[trigger] items[i]) by {
        if i == k {
            lemma_known_step_updated(prev, e, before[k], np);
        } else {
            assert(items[i] == before[i]);
            assert(!reports_on(e, before[i])) by {
                if i < k {
                    assert(!(before[i].topic == before[k].topic && before[i].message == before[k].message));
                } else {
                    assert(!(before[k].topic == before[i].topic && before[k].message == before[i].message));
                }
            }
            lemma_other_step_kept(prev, e, before[i]);
        }
    }
}

proof fn lemma_new_step(prev: Seq<EntryV>, e: EntryV, before: Seq<ProgressV>, np: ProgressV)
    requires
        steps_of_reports(prev, before),
        reports_on(e, np),
        forall|i: int| 0 <= i < before.len() ==> !reports_on(e, #[trigger] before[i]),
        date_seconds(e.3) == Some(np.start),
        np.status == e.0,
        np.end is None,
    ensures
        steps_of_reports(prev.push(e), before.push(np)),
{
    let items = before.push(np);
    lemma_new_step_covers(prev, e, before, np);
    lemma_new_step_distinct(e, before, np);
    assert forall|i: int| 0 <= i < items.len() implies step_of_reports(prev.push(e), #[trigger] items[i]) by {
        if i < before.len() {
            assert(items[i] == before[i]);
            lemma_other_step_kept(prev, e, before[i]);
        } else {
            assert(items[i] == np);
            lemma_new_step_started(prev, e, before, np);
        }
    }
}

/// The steps read from a build's reports are one per topic and message
/// pair that some report names: every report is about one of them, no
/// two of them share both topic and message, and each started at the date
/// of its first report, has the status of its last one, and ended at the
/// date of its last one when there were several.
pub proof fn lemma_steps_of_reports(entries: Seq<EntryV>)
    requires
        collect_spec(entries) is Ok,
    ensures
        steps_of_reports(entries, collect_spec(entries)->Ok_0),
    decreases entries.len(),
{
    if entries.len() > 0 {
        let prev = entries.drop_last();
        let e = entries.last();
        lemma_steps_of_reports(prev);
        assert(entries == prev.push(e));
        let before = collect_spec(prev)->Ok_0;
        let (st, tp, msg, date) = e;
        let ts = date_seconds(date)->Some_0;
        lemma_key_index(before, tp, msg, 0);
        match key_index(before, tp, msg, 0) {
            Some(k) => {
                let np = ProgressV { status: st, topic: tp, message: msg, start: before[k].start, end: Some(ts) };
                lemma_known_step(prev, e, before, k, np);
            },
            None => {
                let np = ProgressV { status: st, topic: tp, message: msg, start: ts, end: None };
                assert forall|i: int| 0 <= i < before.len() implies !reports_on(e, #[trigger] before[i]) by {}
                lemma_new_step(prev, e, before, np);
            },
        }
    }
}

/// What the steps are does not depend on the order they are listed in.
pub proof fn lemma_steps_of_reports_permuted(entries: Seq<EntryV>, items: Seq<ProgressV>, r: Seq<ProgressV>)
    requires
        steps_of_reports(entries, items),
        r.to_multiset() == items.to_multiset(),
    ensures
        steps_of_reports(entries, r),
{
    broadcast use vstd::seq_lib::to_multiset_contains;
    assert forall|i: int, j: int| 0 <= i < items.len() && 0 <= j < items.len() && i != j implies items[i] != items[j] by {
        if i < j {
            assert(!(items[i].topic == items[j].topic && items[i].message == items[j].message));
        } else {
            assert(!(items[j].topic == items[i].topic && items[j].message == items[i].message));
        }
    }
    assert(items.no_duplicates());
    items.lemma_multiset_has_no_duplicates();
    r.lemma_multiset_has_no_duplicates_conv();
    assert forall|x: ProgressV| r.contains(x) implies items.contains(x) by {
        assert(r.to_multiset().count(x) > 0);
    }
    assert forall|x: ProgressV| items.contains(x) implies r.contains(x) by {
        assert(items.to_multiset().count(x) > 0);
    }
    assert forall|j: int| 0 <= j < entries.len() implies has_step(r, #[trigger] entries[j]) by {
        assert(has_step(items, entries[j]));
        let i = choose|i: int| 0 <= i < items.len() && reports_on(entries[j], items[i]);
        assert(items.contains(items[i]));
        assert(r.contains(items[i]));
        let k = choose|k: int| 0 <= k < r.len() && r[k] == items[i];
        assert(reports_on(entries[j], r[k]));
    }
    assert forall|i1: int, i2: int| 0 <= i1 < i2 < r.len() implies !(#[trigger] r[i1].topic == #[trigger] r[i2].topic
        && r[i1].message == r[i2].message) by {
        assert(r.contains(r[i1]) && r.contains(r[i2]));
        assert(items.contains(r[i1]) && items.contains(r[i2]));
        let a = choose|a: int| 0 <= a < items.len() && items[a] == r[i1];
        let b = choose|b: int| 0 <= b < items.len() && items[b] == r[i2];
        assert(r[i1] != r[i2]);
        if a < b {
            assert(!(items[a].topic == items[b].topic && items[a].message == items[b].message));
        } else {
            assert(!(items[b].topic == items[a].topic && items[b].message == items[a].message));
        }
    }
    assert forall|i: int| 0 <= i < r.len() implies step_of_reports(entries, #[trigger] r[i]) by {
        assert(r.contains(r[i]));
        assert(items.contains(r[i]));
        let a = choose|a: int| 0 <= a < items.len() && items[a] == r[i];
        assert(step_of_reports(entries, items[a]));
    }
}

/// How two steps compare: by topic (`human_sort::compare`), then start
/// date, then message.
pub open spec fn progress_order(a: ProgressV, b: ProgressV) -> i8 {
    if human_order(a.topic, b.topic) != 0 {
        human_order(a.topic, b.topic)
    } else if a.start < b.start {
        -1i8
    } else if a.start == b.start {
        human_order(a.message, b.message)
    } else {
        1i8
    }
}

/// Each step comes no later than the next.
pub open spec fn sorted_progress(v: Seq<ProgressV>) -> bool {
    forall|i: int| 0 <= i < v.len() - 1 ==> progress_order(#[trigger] v[i], v[i + 1]) != 1
}

/// The topics and messages of the reports can be compared by
/// `human_sort::compare`.
pub open spec fn comparable_entries(entries: Seq<EntryV>) -> bool {
    forall|i: int| 0 <= i < entries.len() ==> digit_runs_fit((#[trigger] entries[i]).1) && digit_runs_fit(entries[i].2)
}

fn progress_gt(a: &ProgressItem, b: &ProgressItem) -> (r: bool)
    requires
        digit_runs_fit(a.topic@),
        digit_runs_fit(a.message@),
        digit_runs_fit(b.topic@),
        digit_runs_fit(b.message@),
    ensures
        r == (progress_order(a@, b@) == 1),
        progress_order(b@, a@) == -progress_order(a@, b@),
{
    let t = human_compare(a.topic.as_str(), b.topic.as_str());
    if t != 0 {
        return t == 1;
    }
    if a.start_date < b.start_date {
        return false;
    }
    if a.start_date > b.start_date {
        return true;
    }
    let m = human_compare(a.message.as_str(), b.message.as_str());
    m == 1
}

/// The progress of a build, read from its output.
pub fn progress_of_string(data: &str) -> (r: Result<Progress, String>)
    requires
        comparable_entries(entries_of(data@)),
    ensures
        match collect_spec(entries_of(data@)) {
            Err(d) => r matches Err(m) && m@ == "cannot parse date '"@ + d + "'"@,
            Ok(items) => r matches Ok(p) && p.progress@.map_values(|x: ProgressItem| x@).to_multiset()
                == items.to_multiset() && sorted_progress(p.progress@.map_values(|x: ProgressItem| x@)),
        },
        r matches Ok(p) ==> steps_of_reports(entries_of(data@), p.progress@.map_values(|x: ProgressItem| x@)),
{
    let lines = split_char(data, '\n');
    let ghost ls = split_spec(data@, '\n');
    let mut items: Vec<ProgressItem> = Vec::new();
    let mut i: usize = 0;
    proof {
        assert(ls.take(0) =~= Seq::<Seq<char>>::empty());
        assert(items@.map_values(|x: ProgressItem| x@) =~= Seq::<ProgressV>::empty());
    }
    while i < lines.len()
        invariant
            views(lines@) == ls,
            ls == split_spec(data@, '\n'),
            i <= lines@.len(),
            comparable_entries(entries_spec(ls)),
            collect_spec(entries_spec(ls.take(i as int))) == Ok::<Seq<ProgressV>, Seq<char>>(
                items@.map_values(|x: ProgressItem| x@),
            ),
            forall|j: int| 0 <= j < items@.len() ==> digit_runs_fit((#[trigger] items@[j]).topic@) && digit_runs_fit(items@[j].message@),
        decreases lines@.len() - i,
    {
        proof {
            assert(ls.take(i + 1).drop_last() =~= ls.take(i as int));
            assert(ls[i as int] == lines@[i as int]@);
            lemma_entries_prefix(ls, i + 1);
        }
        let ghost before = items@.map_values(|x: ProgressItem| x@);
        match capture_line(lines[i].as_str()) {
            None => {},
            Some((st, tp, msg, date)) => {
                let ghost en = entries_spec(ls.take(i + 1));
                proof {
                    assert(en == entries_spec(ls.take(i as int)).push((st@, tp@, msg@, date@)));
                    assert(en.last() == (st@, tp@, msg@, date@));
                    assert(en.drop_last() =~= entries_spec(ls.take(i as int)));
                    assert(comparable_entries(en));
                    assert(digit_runs_fit(en[en.len() - 1].1) && digit_runs_fit(en[en.len() - 1].2));
                }
                let ts = match parse_date(date.as_str()) {
                    Some(ts) => ts,
                    None => {
                        proof {
                            lemma_collect_error_prefix(ls, i + 1);
                        }
                        let m = String::from_str("cannot parse date '").concat(date.as_str()).concat("'");
                        return Err(m);
                    },
                };
                let mut k: usize = 0;
                let mut found: Option<usize> = None;
                while k < items.len() && found.is_none()
                    invariant
                        k <= items@.len(),
                        before == items@.map_values(|x: ProgressItem| x@),
                        found is None ==> key_index(before, tp@, msg@, k as int) == key_index(before, tp@, msg@, 0),
                        found matches Some(f) ==> f < items@.len() && key_index(before, tp@, msg@, 0) == Some(f as int),
                    decreases items@.len() - k + (if found is None { 1int } else { 0int }),
                {
                    assert(before[k as int] == items@[k as int]@);
                    if str_eq(items[k].topic.as_str(), tp.as_str()) && str_eq(items[k].message.as_str(), msg.as_str()) {
                        found = Some(k);
                    } else {
                        k = k + 1;
                    }
                }
                match found {
                    Some(k) => {
                        let start = items[k].start_date;
                        let it = ProgressItem { status: st, topic: tp, message: msg, start_date: start, end_date: Some(ts) };
                        items.set(k, it);
                        proof {
                            assert(items@.map_values(|x: ProgressItem| x@) =~= before.update(k as int, it@));
                        }
                    },
                    None => {
                        let it = ProgressItem { status: st, topic: tp, message: msg, start_date: ts, end_date: None };
                        items.push(it);
                        proof {
                            assert(items@.map_values(|x: ProgressItem| x@) =~= before.push(it@));
                        }
                    },
                }
            },
        }
        i = i + 1;
    }
    proof {
        assert(ls.take(i as int) =~= ls);
    }
    let ghost all = items@.map_values(|x: ProgressItem| x@);
    let mut sorted: Vec<ProgressItem> = Vec::new();
    let mut n: usize = 0;
    proof {
        assert(all.take(0) =~= Seq::<ProgressV>::empty());
        assert(sorted@.map_values(|x: ProgressItem| x@) =~= Seq::<ProgressV>::empty());
    }
    while n < items.len()
        invariant
            n <= items@.len(),
            all == items@.map_values(|x: ProgressItem| x@),
            forall|j: int| 0 <= j < items@.len() ==> digit_runs_fit((#[trigger] items@[j]).topic@) && digit_runs_fit(items@[j].message@),
            forall|j: int| 0 <= j < sorted@.len() ==> digit_runs_fit((#[trigger] sorted@[j]).topic@) && digit_runs_fit(sorted@[j].message@),
            sorted@.map_values(|x: ProgressItem| x@).to_multiset() == all.take(n as int).to_multiset(),
            sorted_progress(sorted@.map_values(|x: ProgressItem| x@)),
        decreases items@.len() - n,
    {
        let x = items[n].clone_item();
        let ghost sv = sorted@.map_values(|y: ProgressItem| y@);
        let mut p: usize = sorted.len();
        let mut done = false;
        while p > 0 && !done
            invariant
                p <= sorted@.len(),
                sv == sorted@.map_values(|y: ProgressItem| y@),
                digit_runs_fit(x.topic@) && digit_runs_fit(x.message@),
                forall|j: int| 0 <= j < sorted@.len() ==> digit_runs_fit((#[trigger] sorted@[j]).topic@) && digit_runs_fit(sorted@[j].message@),
                done ==> p > 0 && progress_order(sv[p - 1], x@) != 1,
                p < sorted@.len() ==> progress_order(sv[p as int], x@) == 1 && progress_order(x@, sv[p as int]) == -1,
            decreases p + (if done { 0int } else { 1int }),
        {
            assert(sv[p - 1] == sorted@[p - 1]@);
            if progress_gt(&sorted[p - 1], &x) {
                p = p - 1;
            } else {
                done = true;
            }
        }
        let ghost xv = x@;
        sorted.insert(p, x);
        proof {
            let nv = sorted@.map_values(|y: ProgressItem| y@);
            assert(nv =~= sv.insert(p as int, xv));
            vstd::seq_lib::to_multiset_insert(sv, p as int, xv);
            assert(all.take(n + 1) =~= all.take(n as int).push(xv));
            vstd::seq_lib::to_multiset_build(all.take(n as int), xv);
            assert forall|j: int| 0 <= j < nv.len() - 1 implies progress_order(#[trigger] nv[j], nv[j + 1]) != 1 by {
                if j + 1 < p {
                    assert(nv[j] == sv[j] && nv[j + 1] == sv[j + 1]);
                } else if j + 1 == p {
                    assert(nv[j] == sv[j] && nv[j + 1] == xv);
                } else if j == p {
                    assert(nv[j] == xv && nv[j + 1] == sv[j]);
                } else {
                    assert(nv[j] == sv[j - 1] && nv[j + 1] == sv[j]);
                }
            }
        }
        n = n + 1;
    }
    proof {
        assert(all.take(n as int) =~= all);
        lemma_steps_of_reports(entries_of(data@));
        lemma_steps_of_reports_permuted(entries_of(data@), all, sorted@.map_values(|x: ProgressItem| x@));
    }
    Ok(Progress { progress: sorted })
}

impl ProgressItem {
    /// A copy of this step.
    pub fn clone_item(&self) -> (r: ProgressItem)
        ensures
            r@ == self@,
    {
        ProgressItem {
            status: self.status.clone(),
            topic: self.topic.clone(),
            message: self.message.clone(),
            start_date: self.start_date,
            end_date: self.end_date,
        }
    }
}

proof fn lemma_entries_prefix(lines: Seq<Seq<char>>, k: int)
    requires
        0 <= k <= lines.len(),
        comparable_entries(entries_spec(lines)),
    ensures
        comparable_entries(entries_spec(lines.take(k))),
        entries_spec(lines.take(k)).len() <= entries_spec(lines).len(),
        forall|j: int| 0 <= j < entries_spec(lines.take(k)).len() ==> #[trigger] entries_spec(lines.take(k))[j] == entries_spec(lines)[j],
    decreases lines.len() - k,
{
    if k < lines.len() {
        assert(lines.drop_last().take(k) =~= lines.take(k));
        let e = entries_spec(lines.drop_last());
        assert forall|j: int| 0 <= j < e.len() implies #[trigger] e[j] == entries_spec(lines)[j] by {
        }
        assert(comparable_entries(e));
        lemma_entries_prefix(lines.drop_last(), k);
    } else {
        assert(lines.take(k) =~= lines);
    }
}

proof fn lemma_collect_error_prefix(lines: Seq<Seq<char>>, k: int)
    requires
        0 <= k <= lines.len(),
        collect_spec(entries_spec(lines.take(k))) is Err,
    ensures
        collect_spec(entries_spec(lines)) == collect_spec(entries_spec(lines.take(k))),
    decreases lines.len() - k,
{
    if k < lines.len() {
        assert(lines.drop_last().take(k) =~= lines.take(k));
        lemma_collect_error_prefix(lines.drop_last(), k);
        let e = entries_spec(lines.drop_last());
        match capture_spec(lines.last()) {
            Some(x) => {
                assert(e.push(x).drop_last() =~= e);
            },
            None => {},
        }
    } else {
        assert(lines.take(k) =~= lines);
    }
}

/// Whether the topics and messages reported in a build output can be
/// compared by `human_sort::compare`.
pub fn entries_comparable(data: &str) -> (r: bool)
    ensures
        r == comparable_entries(entries_of(data@)),
{
    let lines = split_char(data, '\n');
    let ghost ls = split_spec(data@, '\n');
    let mut i: usize = 0;
    proof {
        assert(ls.take(0) =~= Seq::<Seq<char>>::empty());
    }
    while i < lines.len()
        invariant
            views(lines@) == ls,
            ls == split_spec(data@, '\n'),
            i <= lines@.len(),
            comparable_entries(entries_spec(ls.take(i as int))),
        decreases lines@.len() - i,
    {
        proof {
            assert(ls.take(i + 1).drop_last() =~= ls.take(i as int));
            assert(ls[i as int] == lines@[i as int]@);
        }
        match capture_line(lines[i].as_str()) {
            None => {},
            Some((_st, tp, msg, _date)) => {
                let ghost en = entries_spec(ls.take(i + 1));
                if !has_digit_runs_fit(tp.as_str()) || !has_digit_runs_fit(msg.as_str()) {
                    proof {
                        assert(en[en.len() - 1] == en.last());
                        if comparable_entries(entries_spec(ls)) {
                            lemma_entries_prefix(ls, i + 1);
                            assert(en[en.len() - 1] == entries_spec(ls)[en.len() - 1]);
                        }
                    }
                    return false;
                }
                proof {
                    assert forall|j: int| 0 <= j < en.len() implies digit_runs_fit((#[trigger] en[j]).1)
                        && digit_runs_fit(en[j].2) by {
                        if j < en.len() - 1 {
                            assert(en[j] == entries_spec(ls.take(i as int))[j]);
                        }
                    }
                }
            },
        }
        i = i + 1;
    }
    proof {
        assert(ls.take(i as int) =~= ls);
    }
    true
}

} // verus!
