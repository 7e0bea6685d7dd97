//! What the helpers that the templates call compute: a labelled text, a
//! text repeated, a text joined with a glue, and a sum of numbers.
use vstd::prelude::*;

verus! {

/// The text of the simple helper for its parameter.
pub open spec fn simple_spec(param: Seq<char>) -> Seq<char> {
    "1st helper: "@ + param
}

/// The text of the simple helper for its parameter.
pub fn simple_text(param: &str) -> (r: String)
    ensures
        r@ == simple_spec(param@),
{
    "1st helper: ".to_owned().concat(param)
}

/// `motif`, `n` times.
pub open spec fn repeat_spec(motif: Seq<char>, n: nat) -> Seq<char>
    decreases n,
{
    if n == 0 {
        Seq::empty()
    } else {
        repeat_spec(motif, (n - 1) as nat) + motif
    }
}

/// `motif`, `n` times.
pub fn repeat_text(motif: &str, n: u32) -> (r: String)
    ensures
        r@ == repeat_spec(motif@, n as nat),
{
    let mut out = String::new();
    let mut i: u32 = 0;
    while i < n
        invariant
            i <= n,
            out@ == repeat_spec(motif@, i as nat),
        decreases n - i,
    {
        out.append(motif);
        i = i + 1;
    }
    out
}

/// `n` copies of `motif` with `glue` between them.
pub open spec fn join_spec(motif: Seq<char>, glue: Seq<char>, n: nat) -> Seq<char> {
    repeat_spec(motif + glue, (n - 1) as nat) + motif
}

/// `n` copies of `motif` with `glue` between them (there is at least one).
pub fn join_text(motif: &str, glue: &str, n: u32) -> (r: String)
    requires
        n >= 1,
    ensures
        r@ == join_spec(motif@, glue@, n as nat),
{
    let mut out = String::new();
    let mut i: u32 = 0;
    while i < n - 1
        invariant
            n >= 1,
            i <= n - 1,
            out@ == repeat_spec(motif@ + glue@, i as nat),
        decreases n - 1 - i,
    {
        out.append(motif);
        out.append(glue);
        assert(out@ =~= repeat_spec(motif@ + glue@, i as nat) + (motif@ + glue@));
        i = i + 1;
    }
    out.append(motif);
    out
}

/// The sum of `values`.
pub open spec fn sum_spec(values: Seq<i32>) -> int
    decreases values.len(),
{
    if values.len() == 0 {
        0
    } else {
        sum_spec(values.drop_last()) + values.last()
    }
}

/// Every partial sum of `values`, from the first, fits in an `i32`.
pub open spec fn sums_fit(values: Seq<i32>) -> bool {
    forall|k: int| 0 <= k <= values.len() ==> i32::MIN <= #[trigger] sum_spec(values.take(k)) <= i32::MAX
}

/// The sum of `values`, added from the first.
pub fn add_values(values: &Vec<i32>) -> (r: i32)
    requires
        sums_fit(values@),
    ensures
        r == sum_spec(values@),
{
    let mut acc: i32 = 0;
    let mut i: usize = 0;
    assert(values@.take(0) =~= Seq::<i32>::empty());
    while i < values.len()
        invariant
            i <= values@.len(),
            sums_fit(values@),
            acc == sum_spec(values@.take(i as int)),
        decreases values@.len() - i,
    {
        assert(values@.take(i + 1).drop_last() =~= values@.take(i as int));
        assert(i32::MIN <= sum_spec(values@.take(i + 1)) <= i32::MAX);
        acc = acc + values[i];
        i = i + 1;
    }
    assert(values@.take(i as int) =~= values@);
    acc
}

} // verus!
