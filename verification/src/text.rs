//! Character-level text operations used throughout the library: search,
//! replacement, splitting, ASCII case folding and decimal parsing.
use vstd::prelude::*;

verus! {

/// Appends one character to a string (std's `String::push`).
#[verifier::external_body]
pub(crate) fn push_char(s: &mut String, c: char)
    ensures
        final(s)@ == old(s)@.push(c),
{
    s.push(c);
}

/// The characters of a string slice, in order.
pub fn chars_of(s: &str) -> (r: Vec<char>)
    ensures
        r@ == s@,
{
    let n = s.unicode_len();
    let mut r: Vec<char> = Vec::new();
    let mut i: usize = 0;
    while i < n
        invariant
            n == s@.len(),
            i <= n,
            r@ == s@.subrange(0, i as int),
        decreases n - i,
    {
        r.push(s.get_char(i));
        i = i + 1;
        assert(r@ =~= s@.subrange(0, i as int));
    }
    assert(r@ =~= s@);
    r
}

/// A string made of the given characters.
pub fn string_of_chars(cs: &[char]) -> (r: String)
    ensures
        r@ == cs@,
{
    let mut r = String::new();
    let mut i: usize = 0;
    while i < cs.len()
        invariant
            i <= cs@.len(),
            r@ == cs@.subrange(0, i as int),
        decreases cs@.len() - i,
    {
        push_char(&mut r, cs[i]);
        i = i + 1;
        assert(r@ =~= cs@.subrange(0, i as int));
    }
    assert(r@ =~= cs@);
    r
}

/// The string made of the characters `lo..hi` of `cs`.
pub fn string_of_range(cs: &Vec<char>, lo: usize, hi: usize) -> (r: String)
    requires
        lo <= hi <= cs@.len(),
    ensures
        r@ == cs@.subrange(lo as int, hi as int),
{
    let mut r = String::new();
    let mut i: usize = lo;
    while i < hi
        invariant
            lo <= i <= hi <= cs@.len(),
            r@ == cs@.subrange(lo as int, i as int),
        decreases hi - i,
    {
        push_char(&mut r, cs[i]);
        i = i + 1;
        assert(r@ =~= cs@.subrange(lo as int, i as int));
    }
    r
}

/// The end of the line that starts at `i`: the index of the first '\n' at
/// or after `i`, or the length of `s`.
pub open spec fn line_end(s: Seq<char>, i: int) -> int
    decreases s.len() - i,
{
    if i >= s.len() {
        s.len() as int
    } else if s[i] == '\n' {
        i
    } else {
        line_end(s, i + 1)
    }
}

/// `line_end` lies between its start and the end of the sequence, and no
/// '\n' stands before it.
pub proof fn lemma_line_end(s: Seq<char>, i: int)
    requires
        0 <= i <= s.len(),
    ensures
        i <= line_end(s, i) <= s.len(),
        forall|j: int| i <= j < line_end(s, i) ==> s[j] != '\n',
        line_end(s, i) < s.len() ==> s[line_end(s, i)] == '\n',
    decreases s.len() - i,
{
    if i < s.len() && s[i] != '\n' {
        lemma_line_end(s, i + 1);
    }
}

/// The end of the line that starts at `i`.
pub fn line_end_exec(cs: &Vec<char>, i: usize) -> (r: usize)
    requires
        i <= cs@.len(),
    ensures
        r == line_end(cs@, i as int),
{
    let mut j = i;
    while j < cs.len() && cs[j] != '\n'
        invariant
            i <= j <= cs@.len(),
            line_end(cs@, j as int) == line_end(cs@, i as int),
        decreases cs@.len() - j,
    {
        j = j + 1;
    }
    j
}

/// The last index in `lo..hi` that holds `c`, or -1.
pub open spec fn last_index_in(s: Seq<char>, c: char, lo: int, hi: int) -> int
    decreases hi - lo,
{
    if hi <= lo {
        -1
    } else if s[hi - 1] == c {
        hi - 1
    } else {
        last_index_in(s, c, lo, hi - 1)
    }
}

/// `last_index_in` finds `c`, or reports that `lo..hi` holds none.
pub proof fn lemma_last_index_in(s: Seq<char>, c: char, lo: int, hi: int)
    requires
        0 <= lo,
    ensures
        last_index_in(s, c, lo, hi) == -1 || (lo <= last_index_in(s, c, lo, hi) < hi
            && s[last_index_in(s, c, lo, hi)] == c),
        last_index_in(s, c, lo, hi) == -1 ==> forall|j: int| lo <= j < hi ==> s[j] != c,
        forall|j: int| last_index_in(s, c, lo, hi) < j < hi && lo <= j ==> s[j] != c,
    decreases hi - lo,
{
    if hi > lo && s[hi - 1] != c {
        lemma_last_index_in(s, c, lo, hi - 1);
    }
}

/// The last index in `lo..hi` of `cs` that holds `c`.
pub fn last_index_exec(cs: &Vec<char>, c: char, lo: usize, hi: usize) -> (r: Option<usize>)
    requires
        lo <= hi <= cs@.len(),
    ensures
        match r {
            Some(j) => j as int == last_index_in(cs@, c, lo as int, hi as int),
            None => last_index_in(cs@, c, lo as int, hi as int) == -1,
        },
{
    let mut h = hi;
    while h > lo
        invariant
            lo <= h <= hi <= cs@.len(),
            last_index_in(cs@, c, lo as int, h as int) == last_index_in(cs@, c, lo as int, hi as int),
        decreases h - lo,
    {
        if cs[h - 1] == c {
            return Some(h - 1);
        }
        h = h - 1;
    }
    None
}

/// The first index in `lo..hi` that holds `c`, or -1.
pub open spec fn first_index_in(s: Seq<char>, c: char, lo: int, hi: int) -> int
    decreases hi - lo,
{
    if hi <= lo {
        -1
    } else if s[lo] == c {
        lo
    } else {
        first_index_in(s, c, lo + 1, hi)
    }
}

/// `first_index_in` finds `c`, or reports that `lo..hi` holds none.
pub proof fn lemma_first_index_in(s: Seq<char>, c: char, lo: int, hi: int)
    requires
        0 <= lo,
    ensures
        first_index_in(s, c, lo, hi) == -1 || (lo <= first_index_in(s, c, lo, hi) < hi
            && s[first_index_in(s, c, lo, hi)] == c),
        first_index_in(s, c, lo, hi) == -1 ==> forall|j: int| lo <= j < hi ==> s[j] != c,
    decreases hi - lo,
{
    if hi > lo && s[lo] != c {
        lemma_first_index_in(s, c, lo + 1, hi);
    }
}

/// The first index in `lo..hi` of `cs` that holds `c`.
pub fn first_index_exec(cs: &Vec<char>, c: char, lo: usize, hi: usize) -> (r: Option<usize>)
    requires
        lo <= hi <= cs@.len(),
    ensures
        match r {
            Some(j) => j as int == first_index_in(cs@, c, lo as int, hi as int),
            None => first_index_in(cs@, c, lo as int, hi as int) == -1,
        },
{
    let mut l = lo;
    while l < hi
        invariant
            lo <= l <= hi <= cs@.len(),
            first_index_in(cs@, c, l as int, hi as int) == first_index_in(cs@, c, lo as int, hi as int),
        decreases hi - l,
    {
        if cs[l] == c {
            return Some(l);
        }
        l = l + 1;
    }
    None
}

/// `s` holds `pat` at position `i`.
pub open spec fn occurs_at(s: Seq<char>, pat: Seq<char>, i: int) -> bool {
    0 <= i && i + pat.len() <= s.len() && s.subrange(i, i + pat.len()) == pat
}

/// Whether `pat` occurs in `cs` at position `i`.
pub fn matches_at(cs: &Vec<char>, pat: &Vec<char>, i: usize) -> (r: bool)
    ensures
        r == occurs_at(cs@, pat@, i as int),
{
    if i > cs.len() || pat.len() > cs.len() - i {
        return false;
    }
    let n = cs.len();
    let mut k: usize = 0;
    while k < pat.len()
        invariant
            n == cs@.len(),
            i + pat@.len() <= cs@.len(),
            k <= pat@.len(),
            forall|j: int| 0 <= j < k ==> cs@[i + j] == pat@[j],
        decreases pat@.len() - k,
    {
        if cs[i + k] != pat[k] {
            assert(cs@.subrange(i as int, i + pat@.len())[k as int] != pat@[k as int]);
            return false;
        }
        k = k + 1;
    }
    assert(cs@.subrange(i as int, i + pat@.len()) =~= pat@);
    true
}

/// Left-to-right replacement of every non-overlapping occurrence of `from`
/// by `to` (the meaning of `str::replace`).
pub open spec fn replace_spec(s: Seq<char>, from: Seq<char>, to: Seq<char>) -> Seq<char>
    decreases s.len(),
{
    if from.len() == 0 || s.len() == 0 {
        s
    } else if occurs_at(s, from, 0) {
        to + replace_spec(s.skip(from.len() as int), from, to)
    } else {
        seq![s[0]] + replace_spec(s.skip(1), from, to)
    }
}

/// Replaces every occurrence of `from` in `s` by `to`, scanning from the left.
pub fn replace_all(s: &str, from: &str, to: &str) -> (r: String)
    requires
        from@.len() > 0,
    ensures
        r@ == replace_spec(s@, from@, to@),
{
    let cs = chars_of(s);
    let pat = chars_of(from);
    let n = cs.len();
    let mut r = String::new();
    let mut i: usize = 0;
    assert(cs@.skip(0) =~= cs@);
    while i < n
        invariant
            n == cs@.len(),
            cs@ == s@,
            pat@ == from@,
            pat@.len() > 0,
            i <= n,
            r@ + replace_spec(cs@.skip(i as int), pat@, to@) == replace_spec(cs@, pat@, to@),
        decreases n - i,
    {
        let ghost rest = cs@.skip(i as int);
        if matches_at(&cs, &pat, i) {
            assert(rest.subrange(0, pat@.len() as int) =~= cs@.subrange(i as int, i + pat@.len()));
            assert(occurs_at(rest, pat@, 0));
            assert(rest.skip(pat@.len() as int) =~= cs@.skip(i + pat@.len()));
            r.append(to);
            i = i + pat.len();
            assert(r@ + replace_spec(cs@.skip(i as int), pat@, to@) =~= replace_spec(cs@, pat@, to@));
        } else {
            assert(!occurs_at(rest, pat@, 0)) by {
                if occurs_at(rest, pat@, 0) {
                    assert(rest.subrange(0, pat@.len() as int) =~= cs@.subrange(i as int, i + pat@.len()));
                }
            }
            assert(rest.skip(1) =~= cs@.skip(i + 1));
            push_char(&mut r, cs[i]);
            i = i + 1;
            assert(r@ + replace_spec(cs@.skip(i as int), pat@, to@) =~= replace_spec(cs@, pat@, to@));
        }
    }
    assert(cs@.skip(n as int) =~= Seq::<char>::empty());
    assert(r@ + Seq::<char>::empty() =~= r@);
    r
}


/// The pieces of `s` between occurrences of the separator `c`
/// (the meaning of `str::split` with a one-character pattern): there is
/// always at least one piece, and separators at either end give empty pieces.
pub open spec fn split_spec(s: Seq<char>, c: char) -> Seq<Seq<char>>
    decreases s.len(),
{
    if s.len() == 0 {
        seq![Seq::<char>::empty()]
    } else {
        let r = split_spec(s.drop_last(), c);
        if s.last() == c {
            r.push(Seq::<char>::empty())
        } else {
            r.update(r.len() - 1, r.last().push(s.last()))
        }
    }
}

/// A text without the separator is a single piece.
pub proof fn lemma_split_absent(s: Seq<char>, c: char)
    requires
        forall|i: int| 0 <= i < s.len() ==> s[i] != c,
    ensures
        split_spec(s, c) == seq![s],
    decreases s.len(),
{
    if s.len() > 0 {
        lemma_split_absent(s.drop_last(), c);
        let r = split_spec(s.drop_last(), c);
        assert(s.last() != c) by {
            assert(s.last() == s[s.len() - 1]);
        }
        assert(r.len() == 1 && r.last() == s.drop_last());
        assert(s.drop_last().push(s.last()) =~= s);
        assert(split_spec(s, c) == r.update(0, s.drop_last().push(s.last())));
        assert(r.update(0, s) =~= seq![s]);
    } else {
        assert(s =~= Seq::<char>::empty());
    }
}

/// Splitting `a`, the separator, then a text `b` without it, gives the
/// pieces of `a` and then `b`.
pub proof fn lemma_split_push(a: Seq<char>, b: Seq<char>, c: char)
    requires
        forall|i: int| 0 <= i < b.len() ==> b[i] != c,
    ensures
        split_spec(a + seq![c] + b, c) == split_spec(a, c).push(b),
    decreases b.len(),
{
    let s = a + seq![c] + b;
    if b.len() == 0 {
        assert(s =~= a.push(c));
        assert(s.drop_last() =~= a);
        assert(s.last() == c);
        assert(b =~= Seq::<char>::empty());
        assert(split_spec(s, c) == split_spec(a, c).push(Seq::<char>::empty()));
    } else {
        let b1 = b.drop_last();
        assert(s.drop_last() =~= a + seq![c] + b1);
        lemma_split_push(a, b1, c);
        assert(s.last() == b.last());
        assert(b.last() != c) by {
            assert(b.last() == b[b.len() - 1]);
        }
        let r = split_spec(a, c).push(b1);
        assert(r.len() - 1 == split_spec(a, c).len() && r.last() == b1);
        assert(split_spec(s, c) == r.update(r.len() - 1, r.last().push(s.last())));
        assert(r.update(r.len() - 1, b1.push(b.last())) =~= split_spec(a, c).push(b)) by {
            assert(b1.push(b.last()) =~= b);
        }
    }
}

/// Splitting always yields at least one piece.
pub proof fn lemma_split_nonempty(s: Seq<char>, c: char)
    ensures
        split_spec(s, c).len() >= 1,
    decreases s.len(),
{
    if s.len() > 0 {
        lemma_split_nonempty(s.drop_last(), c);
    }
}

/// The views of a sequence of strings.
pub open spec fn views(v: Seq<String>) -> Seq<Seq<char>> {
    v.map_values(|x: String| x@)
}

/// Splits `s` at every occurrence of the character `c`.
pub fn split_char(s: &str, c: char) -> (r: Vec<String>)
    ensures
        views(r@) == split_spec(s@, c),
{
    let cs = chars_of(s);
    let n = cs.len();
    let mut pieces: Vec<String> = Vec::new();
    let mut cur: Vec<char> = Vec::new();
    let mut i: usize = 0;
    assert(cs@.subrange(0, 0) =~= Seq::<char>::empty());
    assert(views(pieces@).push(cur@) =~= split_spec(cs@.subrange(0, 0), c));
    while i < n
        invariant
            n == cs@.len(),
            cs@ == s@,
            i <= n,
            views(pieces@).push(cur@) == split_spec(cs@.subrange(0, i as int), c),
        decreases n - i,
    {
        let ghost pre = cs@.subrange(0, i as int);
        let ghost next = cs@.subrange(0, i + 1);
        assert(next.drop_last() =~= pre);
        assert(next.last() == cs@[i as int]);
        proof { lemma_split_nonempty(pre, c); }
        if cs[i] == c {
            let piece = string_of_chars(cur.as_slice());
            pieces.push(piece);
            cur = Vec::new();
            assert(views(pieces@) =~= split_spec(pre, c));
            assert(views(pieces@).push(cur@) =~= split_spec(next, c));
        } else {
            let ghost old_pieces = views(pieces@);
            cur.push(cs[i]);
            assert(views(pieces@).push(cur@) =~= split_spec(next, c));
        }
        i = i + 1;
    }
    assert(cs@.subrange(0, n as int) =~= cs@);
    let last = string_of_chars(cur.as_slice());
    pieces.push(last);
    assert(views(pieces@) =~= split_spec(s@, c));
    pieces
}

/// ASCII lower-casing of one character.
pub open spec fn lower_char(c: char) -> char {
    if 'A' <= c && c <= 'Z' {
        ((c as u32) + 32) as char
    } else {
        c
    }
}

/// ASCII lower-casing of a character sequence (the meaning of `make_ascii_lowercase`).
pub open spec fn lower_spec(s: Seq<char>) -> Seq<char> {
    s.map_values(|c: char| lower_char(c))
}

/// ASCII lower-casing of one character: 'A'..='Z' become 'a'..='z', every
/// other character stays.
fn ascii_lower(c: char) -> (r: char)
    ensures
        r == lower_char(c),
{
    if 'A' <= c && c <= 'Z' {
        let b: u8 = (c as u32) as u8;
        let r = (b + 32) as char;
        assert(r == ((c as u32) + 32) as char);
        r
    } else {
        c
    }
}

/// The ASCII lower-case form of `s`.
pub fn to_ascii_lower(s: &str) -> (r: String)
    ensures
        r@ == lower_spec(s@),
{
    let cs = chars_of(s);
    let n = cs.len();
    let mut r = String::new();
    let mut i: usize = 0;
    while i < n
        invariant
            n == cs@.len(),
            cs@ == s@,
            i <= n,
            r@ == lower_spec(cs@.subrange(0, i as int)),
        decreases n - i,
    {
        push_char(&mut r, ascii_lower(cs[i]));
        i = i + 1;
        assert(r@ =~= lower_spec(cs@.subrange(0, i as int)));
    }
    assert(cs@.subrange(0, n as int) =~= cs@);
    r
}

/// Character sequence equality, computed.
pub fn str_eq(a: &str, b: &str) -> (r: bool)
    ensures
        r == (a@ == b@),
{
    let x = chars_of(a);
    let y = chars_of(b);
    if x.len() != y.len() {
        return false;
    }
    let mut i: usize = 0;
    while i < x.len()
        invariant
            x@ == a@,
            y@ == b@,
            x@.len() == y@.len(),
            i <= x@.len(),
            forall|j: int| 0 <= j < i ==> x@[j] == y@[j],
        decreases x@.len() - i,
    {
        if x[i] != y[i] {
            return false;
        }
        i = i + 1;
    }
    assert(x@ =~= y@);
    true
}

/// A decimal digit.
pub open spec fn is_digit(c: char) -> bool {
    '0' <= c && c <= '9'
}

/// The value of a digit sequence, most significant first.
pub open spec fn digits_value(s: Seq<char>) -> nat
    decreases s.len(),
{
    if s.len() == 0 {
        0
    } else {
        digits_value(s.drop_last()) * 10 + ((s.last() as u32) - ('0' as u32)) as nat
    }
}

/// The digits of `s` once an optional leading '+' is removed.
pub open spec fn unsigned_body(s: Seq<char>) -> Seq<char> {
    if s.len() > 0 && s[0] == '+' {
        s.skip(1)
    } else {
        s
    }
}

/// What `str::parse::<u8>` gives: an optional '+' then at least one digit,
/// with a value below 256.
pub open spec fn parse_u8_spec(s: Seq<char>) -> Option<u8> {
    let d = unsigned_body(s);
    if d.len() > 0 && (forall|i: int| 0 <= i < d.len() ==> is_digit(#[trigger] d[i]))
        && digits_value(d) < 256 {
        Some(digits_value(d) as u8)
    } else {
        None
    }
}

proof fn lemma_digits_value_monotone(s: Seq<char>, k: int)
    requires
        0 <= k <= s.len(),
        forall|i: int| 0 <= i < s.len() ==> is_digit(#[trigger] s[i]),
    ensures
        digits_value(s.subrange(0, k)) <= digits_value(s),
    decreases s.len() - k,
{
    if k < s.len() {
        lemma_digits_value_monotone(s, k + 1);
        let t = s.subrange(0, k + 1);
        assert(t.drop_last() =~= s.subrange(0, k));
    } else {
        assert(s.subrange(0, k) =~= s);
    }
}

/// Decimal parsing of an unsigned byte, as `str::parse::<u8>` does it.
pub fn parse_u8(s: &str) -> (r: Option<u8>)
    ensures
        r == parse_u8_spec(s@),
{
    let cs = chars_of(s);
    let n = cs.len();
    let start: usize = if n > 0 && cs[0] == '+' { 1 } else { 0 };
    let ghost d = unsigned_body(s@);
    assert(d =~= cs@.subrange(start as int, n as int));
    if start >= n {
        return None;
    }
    let mut v: u32 = 0;
    let mut i: usize = start;
    while i < n
        invariant
            n == cs@.len(),
            cs@ == s@,
            d == cs@.subrange(start as int, n as int),
            d == unsigned_body(s@),
            start <= i <= n,
            forall|j: int| start <= j < i ==> is_digit(#[trigger] cs@[j]),
            v == digits_value(cs@.subrange(start as int, i as int)),
            v < 256,
        decreases n - i,
    {
        let c = cs[i];
        if !('0' <= c && c <= '9') {
            assert(!is_digit(d[i - start]));
            return None;
        }
        let ghost pre = cs@.subrange(start as int, i as int);
        let ghost nxt = cs@.subrange(start as int, i + 1);
        assert(nxt.drop_last() =~= pre);
        let dv = (c as u32) - ('0' as u32);
        v = v * 10 + dv;
        i = i + 1;
        if v >= 256 {
            proof {
                if forall|j: int| 0 <= j < d.len() ==> is_digit(#[trigger] d[j]) {
                    lemma_digits_value_monotone(d, i - start);
                    assert(d.subrange(0, i - start) =~= nxt);
                }
            }
            return None;
        }
    }
    assert(cs@.subrange(start as int, n as int) =~= d);
    Some(v as u8)
}

/// The text of the error of `str::parse::<u8>` met while reading the digits
/// `d` from position `i`, the value read so far being `acc`: the first
/// character that is not a digit, or the first digit that takes the value
/// past 255, decides.
pub open spec fn digits_error_text(d: Seq<char>, i: int, acc: int) -> Seq<char>
    decreases d.len() - i,
{
    if i < 0 || i >= d.len() || !is_digit(d[i]) {
        "invalid digit found in string"@
    } else if acc * 10 + ((d[i] as u32) - ('0' as u32)) > 255 {
        "number too large to fit in target type"@
    } else {
        digits_error_text(d, i + 1, acc * 10 + ((d[i] as u32) - ('0' as u32)))
    }
}

/// The text of the error of `str::parse::<u8>` on a text that it refuses:
/// an empty text, a lone sign, a character that is not a digit, or a value
/// past 255 (whichever comes first, reading from the left).
pub open spec fn parse_u8_error_text(s: Seq<char>) -> Seq<char> {
    if s.len() == 0 {
        "cannot parse integer from empty string"@
    } else {
        digits_error_text(unsigned_body(s), 0, 0)
    }
}

/// The text of the error of `str::parse::<u8>` on a text that it refuses.
pub fn parse_u8_error(s: &str) -> (r: String)
    ensures
        r@ == parse_u8_error_text(s@),
{
    let cs = chars_of(s);
    let n = cs.len();
    if n == 0 {
        return "cannot parse integer from empty string".to_owned();
    }
    let start: usize = if cs[0] == '+' { 1 } else { 0 };
    let ghost d = unsigned_body(s@);
    assert(d =~= cs@.subrange(start as int, n as int));
    let mut acc: u32 = 0;
    let mut i: usize = start;
    while i < n
        invariant
            n == cs@.len(),
            n > 0,
            cs@ == s@,
            d == cs@.subrange(start as int, n as int),
            d == unsigned_body(s@),
            start <= i <= n,
            acc <= 255,
            digits_error_text(d, (i - start) as int, acc as int) == parse_u8_error_text(s@),
        decreases n - i,
    {
        let c = cs[i];
        assert(d[i - start] == c);
        if !('0' <= c && c <= '9') {
            return "invalid digit found in string".to_owned();
        }
        let v = acc * 10 + ((c as u32) - ('0' as u32));
        if v > 255 {
            return "number too large to fit in target type".to_owned();
        }
        acc = v;
        i = i + 1;
    }
    "invalid digit found in string".to_owned()
}

/// Replacing a character `c`: where `c` does not occur, nothing changes.
pub proof fn lemma_replace_char_absent(s: Seq<char>, c: char, to: Seq<char>)
    requires
        forall|i: int| 0 <= i < s.len() ==> s[i] != c,
    ensures
        replace_spec(s, seq![c], to) == s,
    decreases s.len(),
{
    if s.len() > 0 {
        assert(!occurs_at(s, seq![c], 0)) by {
            assert(s.subrange(0, 1)[0] == s[0]);
        }
        lemma_replace_char_absent(s.skip(1), c, to);
        assert(seq![s[0]] + s.skip(1) =~= s);
    }
}

/// Replacing a character works piece by piece.
pub proof fn lemma_replace_char_concat(a: Seq<char>, b: Seq<char>, c: char, to: Seq<char>)
    ensures
        replace_spec(a + b, seq![c], to) == replace_spec(a, seq![c], to) + replace_spec(b, seq![c], to),
    decreases a.len(),
{
    if a.len() > 0 {
        let ab = a + b;
        assert(ab.skip(1) =~= a.skip(1) + b);
        assert(ab[0] == a[0]);
        assert(occurs_at(ab, seq![c], 0) == occurs_at(a, seq![c], 0)) by {
            assert(ab.subrange(0, 1) =~= seq![ab[0]]);
            assert(a.subrange(0, 1) =~= seq![a[0]]);
        }
        lemma_replace_char_concat(a.skip(1), b, c, to);
    } else {
        assert(a + b =~= b);
    }
}

/// Replacing a character `c` by `to` keeps a property of the characters that
/// holds of every character of `s` other than `c` and of every character of
/// `to`.
pub proof fn lemma_replace_char_keeps(s: Seq<char>, c: char, to: Seq<char>, p: spec_fn(char) -> bool)
    requires
        forall|i: int| 0 <= i < s.len() ==> s[i] == c || p(s[i]),
        forall|j: int| 0 <= j < to.len() ==> p(to[j]),
    ensures
        forall|k: int| 0 <= k < replace_spec(s, seq![c], to).len() ==> p(#[trigger] replace_spec(s, seq![c], to)[k]),
    decreases s.len(),
{
    if s.len() > 0 {
        lemma_replace_char_keeps(s.skip(1), c, to, p);
        let rest = replace_spec(s.skip(1), seq![c], to);
        if occurs_at(s, seq![c], 0) {
            assert(s.skip(1) =~= s.skip(seq![c].len() as int));
            let r = to + rest;
            assert forall|k: int| 0 <= k < r.len() implies p(#[trigger] r[k]) by {
                if k >= to.len() {
                    assert(r[k] == rest[k - to.len()]);
                }
            }
        } else {
            assert(s.subrange(0, 1) =~= seq![s[0]]);
            assert(s[0] != c);
            let r = seq![s[0]] + rest;
            assert forall|k: int| 0 <= k < r.len() implies p(#[trigger] r[k]) by {
                if k >= 1 {
                    assert(r[k] == rest[k - 1]);
                }
            }
        }
    }
}

/// An ASCII upper-case letter.
pub open spec fn is_upper(c: char) -> bool {
    'A' <= c && c <= 'Z'
}

/// Lower-casing leaves no upper-case letter.
pub proof fn lemma_lower_no_upper(s: Seq<char>)
    ensures
        forall|k: int| 0 <= k < lower_spec(s).len() ==> !is_upper(#[trigger] lower_spec(s)[k]),
{
    assert forall|k: int| 0 <= k < lower_spec(s).len() implies !is_upper(#[trigger] lower_spec(s)[k]) by {
        let c = s[k];
        if is_upper(c) {
            assert(97 <= (c as u32) + 32 <= 122);
        }
    }
}

/// Lower-casing a text without upper-case letters changes nothing.
pub proof fn lemma_lower_identity(s: Seq<char>)
    requires
        forall|k: int| 0 <= k < s.len() ==> !is_upper(#[trigger] s[k]),
    ensures
        lower_spec(s) == s,
{
    assert(lower_spec(s) =~= s);
}

/// Lower-casing works piece by piece.
pub proof fn lemma_lower_concat(a: Seq<char>, b: Seq<char>)
    ensures
        lower_spec(a + b) == lower_spec(a) + lower_spec(b),
{
    assert(lower_spec(a + b) =~= lower_spec(a) + lower_spec(b));
}

// ------------------------------------------------------------ digit runs

/// Every character of `s` is a decimal digit.
pub open spec fn all_digits(s: Seq<char>) -> bool {
    forall|k: int| 0 <= k < s.len() ==> is_digit(#[trigger] s[k])
}

/// Every run of decimal digits in `s` stands for a number that fits in a
/// `u32`.
pub open spec fn digit_runs_fit(s: Seq<char>) -> bool {
    forall|i: int, j: int|
        0 <= i <= j <= s.len() && #[trigger] all_digits(s.subrange(i, j)) ==> digits_value(s.subrange(i, j)) <= u32::MAX
}

/// Dropping leading digits does not make a number larger.
proof fn lemma_suffix_value(x: Seq<char>, m: int)
    requires
        0 <= m <= x.len(),
        all_digits(x),
    ensures
        digits_value(x.subrange(m, x.len() as int)) <= digits_value(x),
    decreases x.len(),
{
    if m < x.len() {
        let y = x.drop_last();
        assert(all_digits(y)) by {
            assert forall|k: int| 0 <= k < y.len() implies is_digit(#[trigger] y[k]) by {
                assert(y[k] == x[k]);
            }
        }
        lemma_suffix_value(y, m);
        let t = x.subrange(m, x.len() as int);
        assert(t.drop_last() =~= y.subrange(m, y.len() as int));
        assert(t.last() == x.last());
    } else {
        assert(x.subrange(m, m) =~= Seq::<char>::empty());
    }
}

/// Whether every run of decimal digits in `s` stands for a number that fits
/// in a `u32`.
pub fn has_digit_runs_fit(s: &str) -> (r: bool)
    ensures
        r == digit_runs_fit(s@),
{
    let cs = chars_of(s);
    let len = cs.len();
    let mut rs: usize = 0;
    let mut v: u64 = 0;
    let mut k: usize = 0;
    assert(s@.subrange(0, 0) =~= Seq::<char>::empty());
    while k < len
        invariant
            len == cs@.len(),
            cs@ == s@,
            rs <= k <= len,
            all_digits(s@.subrange(rs as int, k as int)),
            rs > 0 ==> !is_digit(s@[rs - 1]),
            v == digits_value(s@.subrange(rs as int, k as int)),
            v <= u32::MAX,
            forall|i: int, j: int|
                0 <= i <= j <= k && #[trigger] all_digits(s@.subrange(i, j)) ==> digits_value(s@.subrange(i, j))
                    <= u32::MAX,
        decreases len - k,
    {
        let c = cs[k];
        let ghost run = s@.subrange(rs as int, k + 1);
        if '0' <= c && c <= '9' {
            assert(run.drop_last() =~= s@.subrange(rs as int, k as int));
            assert(all_digits(run)) by {
                assert forall|q: int| 0 <= q < run.len() implies is_digit(#[trigger] run[q]) by {
                    if q < run.len() - 1 {
                        assert(run[q] == s@.subrange(rs as int, k as int)[q]);
                    }
                }
            }
            let nv = v * 10 + ((c as u32) - ('0' as u32)) as u64;
            assert(nv == digits_value(run));
            if nv > 4294967295 {
                assert(!digit_runs_fit(s@)) by {
                    assert(all_digits(s@.subrange(rs as int, k + 1)));
                }
                return false;
            }
            assert forall|i: int, j: int|
                0 <= i <= j <= k + 1 && #[trigger] all_digits(s@.subrange(i, j)) implies digits_value(
                    s@.subrange(i, j),
                ) <= u32::MAX by {
                if j == k + 1 {
                    if i < rs {
                        assert(s@.subrange(i, j)[rs - 1 - i] == s@[rs - 1]);
                    } else if i <= k {
                        lemma_suffix_value(run, i - rs);
                        assert(run.subrange(i - rs, run.len() as int) =~= s@.subrange(i, j));
                    } else {
                        assert(s@.subrange(i, j) =~= Seq::<char>::empty());
                    }
                }
            }
            v = nv;
        } else {
            assert forall|i: int, j: int|
                0 <= i <= j <= k + 1 && #[trigger] all_digits(s@.subrange(i, j)) implies digits_value(
                    s@.subrange(i, j),
                ) <= u32::MAX by {
                if j == k + 1 {
                    if i <= k {
                        assert(s@.subrange(i, j)[k - i] == s@[k as int]);
                    } else {
                        assert(s@.subrange(i, j) =~= Seq::<char>::empty());
                    }
                }
            }
            rs = k + 1;
            v = 0;
            assert(s@.subrange(rs as int, k + 1) =~= Seq::<char>::empty());
        }
        k = k + 1;
    }
    true
}

} // verus!
