//! Text as sequences of characters: searching, splitting and trimming.
//!
//! The rest of the library states what it does with text over the spec
//! functions of this module, and computes on `Vec<char>` and `&[char]`.

use vstd::prelude::*;
use vstd::std_specs::iter::IteratorSpec;

verus! {

/// The characters of a string slice, in order.
pub fn chars_of(s: &str) -> (v: Vec<char>)
    ensures
        v@ == s@,
{
    broadcast use vstd::string::group_string_axioms;

    let mut v: Vec<char> = Vec::new();
    let mut it = s.chars();
    loop
        invariant
            it.obeys_prophetic_iter_laws(),
            it.decrease() is Some,
            v@ + it.remaining() == s@,
        ensures
            v@ == s@,
        decreases it.decrease()->0,
    {
        match it.next() {
            Some(c) => {
                v.push(c);
            },
            None => {
                break ;
            },
        }
    }
    v
}

/// Trusted: `String::from_iter` over a slice of characters. The string that
/// comes back holds exactly those characters, in order.
#[verifier::external_body]
pub(crate) fn string_of(chars: &[char]) -> (s: String)
    ensures
        s@ == chars@,
{
    String::from_iter(chars.iter())
}

/// The characters of `s` from `from` up to, not including, `to`.
pub fn copy_range(s: &[char], from: usize, to: usize) -> (v: Vec<char>)
    requires
        from <= to <= s.len(),
    ensures
        v@ == s@.subrange(from as int, to as int),
{
    let mut v: Vec<char> = Vec::new();
    let mut i: usize = from;
    while i < to
        invariant
            from <= i <= to <= s.len(),
            v@ == s@.subrange(from as int, i as int),
        decreases to - i,
    {
        v.push(s[i]);
        i += 1;
    }
    v
}

/// Appends the characters of `src` to `dst`.
pub fn append_chars(dst: &mut Vec<char>, src: &[char])
    ensures
        final(dst)@ == old(dst)@ + src@,
{
    let mut i: usize = 0;
    while i < src.len()
        invariant
            i <= src.len(),
            dst@ == old(dst)@ + src@.take(i as int),
        decreases src.len() - i,
    {
        dst.push(src[i]);
        i += 1;
    }
    assert(src@.take(src.len() as int) == src@);
}

/// Whether two slices hold the same characters.
pub fn same_chars(a: &[char], b: &[char]) -> (same: bool)
    ensures
        same == (a@ == b@),
{
    if a.len() != b.len() {
        return false;
    }
    let mut i: usize = 0;
    while i < a.len()
        invariant
            i <= a.len(),
            a.len() == b.len(),
            a@.take(i as int) == b@.take(i as int),
        decreases a.len() - i,
    {
        if a[i] != b[i] {
            return false;
        }
        assert(a@.take(i + 1) == a@.take(i as int).push(a@[i as int]));
        assert(b@.take(i + 1) == b@.take(i as int).push(b@[i as int]));
        i += 1;
    }
    assert(a@.take(a.len() as int) == a@);
    assert(b@.take(b.len() as int) == b@);
    true
}

/// `pat` stands in `s` at position `i`.
pub open spec fn occurs_at(s: Seq<char>, pat: Seq<char>, i: int) -> bool {
    0 <= i && i + pat.len() <= s.len() && s.subrange(i, i + pat.len()) == pat
}

/// `i` is the first position at which `pat` stands in `s`.
pub open spec fn first_at(s: Seq<char>, pat: Seq<char>, i: int) -> bool {
    occurs_at(s, pat, i) && forall|j: int| 0 <= j < i ==> !occurs_at(s, pat, j)
}

/// The first position at which `pat` stands in `s`, if it stands anywhere.
pub open spec fn find(s: Seq<char>, pat: Seq<char>) -> Option<int> {
    if exists|i: int| first_at(s, pat, i) {
        Some(choose|i: int| first_at(s, pat, i))
    } else {
        None
    }
}

/// A first position is the position that `find` gives.
pub proof fn lemma_find_first(s: Seq<char>, pat: Seq<char>, i: int)
    requires
        first_at(s, pat, i),
    ensures
        find(s, pat) == Some(i),
{
    let k = choose|k: int| first_at(s, pat, k);
    assert(first_at(s, pat, k));
    if k < i {
        assert(!occurs_at(s, pat, k));
    }
    if i < k {
        assert(!occurs_at(s, pat, i));
    }
}

/// Where `pat` stands nowhere, `find` gives nothing.
pub proof fn lemma_find_none(s: Seq<char>, pat: Seq<char>)
    requires
        forall|j: int| !occurs_at(s, pat, j),
    ensures
        find(s, pat) is None,
{
}

fn matches_at(s: &[char], pat: &[char], i: usize) -> (b: bool)
    requires
        i + pat.len() <= s.len(),
    ensures
        b == occurs_at(s@, pat@, i as int),
{
    let mut k: usize = 0;
    while k < pat.len()
        invariant
            k <= pat.len(),
            i + pat.len() <= s.len(),
            forall|m: int| 0 <= m < k ==> s@[i + m] == pat@[m],
        decreases pat.len() - k,
    {
        if s[i + k] != pat[k] {
            assert(s@.subrange(i as int, i + pat.len())[k as int] != pat@[k as int]);
            return false;
        }
        k += 1;
    }
    assert(s@.subrange(i as int, i + pat.len()) =~= pat@);
    true
}

/// The first position at which `pat` stands in `s`.
pub fn find_chars(s: &[char], pat: &[char]) -> (r: Option<usize>)
    ensures
        match r {
            Some(i) => find(s@, pat@) == Some(i as int) && i + pat.len() <= s.len(),
            None => find(s@, pat@) is None,
        },
{
    if pat.len() > s.len() {
        proof {
            lemma_find_none(s@, pat@);
        }
        return None;
    }
    let last: usize = s.len() - pat.len();
    let mut i: usize = 0;
    loop
        invariant
            i <= last,
            last == s.len() - pat.len(),
            forall|j: int| 0 <= j < i ==> !occurs_at(s@, pat@, j),
        decreases last - i,
    {
        if matches_at(s, pat, i) {
            proof {
                lemma_find_first(s@, pat@, i as int);
            }
            return Some(i);
        }
        if i == last {
            proof {
                lemma_find_none(s@, pat@);
            }
            return None;
        }
        i += 1;
    }
}

/// Whether `s` begins with `prefix`.
pub fn starts_with(s: &[char], prefix: &[char]) -> (b: bool)
    ensures
        b == prefix@.is_prefix_of(s@),
{
    if prefix.len() > s.len() {
        return false;
    }
    let b = matches_at(s, prefix, 0);
    b
}

/// `s` without the run of `c` at its end.
pub open spec fn strip_trailing(s: Seq<char>, c: char) -> Seq<char>
    decreases s.len(),
{
    if s.len() > 0 && s.last() == c {
        strip_trailing(s.drop_last(), c)
    } else {
        s
    }
}

/// The length of `s` without the run of `c` at its end.
pub fn stripped_len(s: &[char], c: char) -> (n: usize)
    ensures
        n <= s.len(),
        s@.take(n as int) == strip_trailing(s@, c),
{
    let mut n: usize = s.len();
    assert(s@.take(n as int) == s@);
    while n > 0 && s[n - 1] == c
        invariant
            n <= s.len(),
            strip_trailing(s@.take(n as int), c) == strip_trailing(s@, c),
        decreases n,
    {
        assert(s@.take(n as int).drop_last() == s@.take(n - 1));
        n -= 1;
    }
    n
}

/// The characters that Unicode gives the property `White_Space`.
pub open spec fn is_whitespace(c: char) -> bool {
    let n = c as u32;
    ||| 0x09 <= n <= 0x0D
    ||| n == 0x20
    ||| n == 0x85
    ||| n == 0xA0
    ||| n == 0x1680
    ||| 0x2000 <= n <= 0x200A
    ||| n == 0x2028
    ||| n == 0x2029
    ||| n == 0x202F
    ||| n == 0x205F
    ||| n == 0x3000
}

/// Whether `c` is white space.
pub fn whitespace(c: char) -> (b: bool)
    ensures
        b == is_whitespace(c),
{
    let n: u32 = c as u32;
    (0x09 <= n && n <= 0x0D) || n == 0x20 || n == 0x85 || n == 0xA0 || n == 0x1680 || (0x2000 <= n
        && n <= 0x200A) || n == 0x2028 || n == 0x2029 || n == 0x202F || n == 0x205F || n == 0x3000
}

/// `s` without the white space at its start.
pub open spec fn trim_start(s: Seq<char>) -> Seq<char>
    decreases s.len(),
{
    if s.len() > 0 && is_whitespace(s[0]) {
        trim_start(s.skip(1))
    } else {
        s
    }
}

/// `s` without the white space at its end.
pub open spec fn trim_end(s: Seq<char>) -> Seq<char>
    decreases s.len(),
{
    if s.len() > 0 && is_whitespace(s.last()) {
        trim_end(s.drop_last())
    } else {
        s
    }
}

/// `s` without the white space at both ends.
pub open spec fn trim(s: Seq<char>) -> Seq<char> {
    trim_end(trim_start(s))
}

/// `s` without the white space at both ends.
pub fn trim_chars(s: &[char]) -> (t: Vec<char>)
    ensures
        t@ == trim(s@),
{
    let mut a: usize = 0;
    assert(s@.skip(0) == s@);
    while a < s.len() && whitespace(s[a])
        invariant
            a <= s.len(),
            trim_start(s@.skip(a as int)) == trim_start(s@),
        decreases s.len() - a,
    {
        assert(s@.skip(a as int).skip(1) == s@.skip(a + 1));
        a += 1;
    }
    let mut b: usize = s.len();
    assert(s@.subrange(a as int, b as int) == s@.skip(a as int));
    while b > a && whitespace(s[b - 1])
        invariant
            a <= b <= s.len(),
            trim_end(s@.subrange(a as int, b as int)) == trim(s@),
        decreases b,
    {
        assert(s@.subrange(a as int, b as int).drop_last() == s@.subrange(a as int, b - 1));
        b -= 1;
    }
    copy_range(s, a, b)
}

/// The pieces of `s` between occurrences of `sep`. There is one piece more
/// than there are separators: a text without any is its own single piece.
pub open spec fn split(s: Seq<char>, sep: char) -> Seq<Seq<char>>
    decreases s.len(),
{
    match find(s, seq![sep]) {
        Some(i) => if 0 <= i < s.len() {
            seq![s.take(i)] + split(s.skip(i + 1), sep)
        } else {
            seq![s]
        },
        None => seq![s],
    }
}

/// The views of a sequence of character vectors.
pub open spec fn views(v: Seq<Vec<char>>) -> Seq<Seq<char>> {
    Seq::new(v.len(), |i: int| v[i]@)
}

/// There is at least one piece.
pub proof fn lemma_split_nonempty(s: Seq<char>, sep: char)
    ensures
        split(s, sep).len() >= 1,
    decreases s.len(),
{
}

/// The pieces of `s` between occurrences of `sep`.
pub fn split_chars(s: &[char], sep: char) -> (pieces: Vec<Vec<char>>)
    ensures
        views(pieces@) == split(s@, sep),
{
    let mut pieces: Vec<Vec<char>> = Vec::new();
    let mut start: usize = 0;
    let mut i: usize = 0;
    assert(s@.skip(0) == s@);
    assert(views(pieces@) + split(s@, sep) == split(s@, sep));
    while i < s.len()
        invariant
            start <= i <= s.len(),
            views(pieces@) + split(s@.skip(start as int), sep) == split(s@, sep),
            forall|k: int| start <= k < i ==> s@[k] != sep,
        decreases s.len() - i,
    {
        if s[i] == sep {
            let piece = copy_range(s, start, i);
            proof {
                let t = s@.skip(start as int);
                let at = i - start;
                assert(t.subrange(at, at + 1) == seq![sep]);
                assert forall|j: int| 0 <= j < at implies !occurs_at(t, seq![sep], j) by {
                    if occurs_at(t, seq![sep], j) {
                        assert(t.subrange(j, j + 1)[0] == sep);
                    }
                }
                lemma_find_first(t, seq![sep], at);
                assert(t.take(at) == piece@);
                assert(t.skip(at + 1) == s@.skip(i + 1));
                assert(views(pieces@.push(piece)) == views(pieces@).push(piece@));
                assert(views(pieces@).push(piece@) + split(s@.skip(i + 1), sep) == views(pieces@)
                    + split(t, sep));
            }
            pieces.push(piece);
            start = i + 1;
        }
        i += 1;
    }
    let piece = copy_range(s, start, s.len());
    proof {
        let t = s@.skip(start as int);
        assert forall|j: int| !occurs_at(t, seq![sep], j) by {
            if occurs_at(t, seq![sep], j) {
                assert(t.subrange(j, j + 1)[0] == sep);
            }
        }
        lemma_find_none(t, seq![sep]);
        assert(t == piece@);
        assert(views(pieces@.push(piece)) == views(pieces@).push(piece@));
        assert(views(pieces@).push(piece@) == views(pieces@) + split(t, sep));
    }
    pieces.push(piece);
    pieces
}

/// `line` without one carriage return at its end.
pub open spec fn strip_cr(line: Seq<char>) -> Seq<char> {
    if line.len() > 0 && line.last() == '\r' {
        line.drop_last()
    } else {
        line
    }
}

/// The lines of `s`. A line ends at a line feed, or at a carriage return
/// that a line feed follows; neither belongs to the line. The end of the text
/// ends the last line too, and an empty rest after the last line feed is no
/// line.
pub open spec fn lines(s: Seq<char>) -> Seq<Seq<char>> {
    let pieces = split(s, '\n');
    let count = if pieces.last().len() == 0 {
        pieces.len() - 1
    } else {
        pieces.len() as int
    };
    Seq::new(
        count as nat,
        |k: int|
            if k < pieces.len() - 1 {
                strip_cr(pieces[k])
            } else {
                pieces[k]
            },
    )
}

/// The lines of `s`.
pub fn lines_of(s: &[char]) -> (out: Vec<Vec<char>>)
    ensures
        views(out@) == lines(s@),
{
    let pieces = split_chars(s, '\n');
    proof {
        lemma_split_nonempty(s@, '\n');
        assert(views(pieces@).len() == pieces@.len());
    }
    let n: usize = pieces.len();
    let count: usize = if pieces[n - 1].len() == 0 {
        n - 1
    } else {
        n
    };
    assert(views(pieces@).last() == pieces@[n - 1]@);
    let mut out: Vec<Vec<char>> = Vec::new();
    let mut k: usize = 0;
    while k < count
        invariant
            k <= count <= n,
            n == pieces.len(),
            views(pieces@) == split(s@, '\n'),
            count == lines(s@).len(),
            out@.len() == k,
            forall|m: int| 0 <= m < k ==> out@[m]@ == lines(s@)[m],
        decreases count - k,
    {
        let piece = &pieces[k];
        assert(views(pieces@)[k as int] == piece@);
        let end: usize = if k < n - 1 && piece.len() > 0 && piece[piece.len() - 1] == '\r' {
            piece.len() - 1
        } else {
            piece.len()
        };
        let line = copy_range(piece.as_slice(), 0, end);
        assert(piece@.subrange(0, piece.len() as int) == piece@);
        assert(piece@.subrange(0, piece.len() - 1) == piece@.drop_last());
        out.push(line);
        k += 1;
    }
    assert(views(out@) =~= lines(s@));
    out
}

} // verus!
