//! Character-level text handling: the meaning of the standard string
//! operations that the camera tools use on command output (`lines`, `trim`,
//! `split` on one character, prefix tests and byte-offset slicing), stated over
//! `Seq<char>` and implemented on character vectors.
use vstd::prelude::*;

verus! {

// ---------------------------------------------------------------------------
// Specifications
// ---------------------------------------------------------------------------

/// Unicode `White_Space`, the set that `char::is_whitespace` and `str::trim` use.
pub open spec fn is_whitespace(c: char) -> bool {
    let u = c as u32;
    ||| 9 <= u <= 13
    ||| u == 32
    ||| u == 0x85
    ||| u == 0xa0
    ||| u == 0x1680
    ||| 0x2000 <= u <= 0x200a
    ||| u == 0x2028
    ||| u == 0x2029
    ||| u == 0x202f
    ||| u == 0x205f
    ||| u == 0x3000
}

/// `s` without its leading whitespace.
pub open spec fn trim_start(s: Seq<char>) -> Seq<char>
    decreases s.len(),
{
    if s.len() > 0 && is_whitespace(s[0]) {
        trim_start(s.drop_first())
    } else {
        s
    }
}

/// `s` without its trailing whitespace.
pub open spec fn trim_end(s: Seq<char>) -> Seq<char>
    decreases s.len(),
{
    if s.len() > 0 && is_whitespace(s.last()) {
        trim_end(s.drop_last())
    } else {
        s
    }
}

/// `str::trim`: `s` without leading and trailing whitespace.
pub open spec fn trim(s: Seq<char>) -> Seq<char> {
    trim_end(trim_start(s))
}

/// `str::split` on a one-character pattern: the pieces of `s` between the
/// occurrences of `c`. There is always at least one piece.
pub open spec fn split(s: Seq<char>, c: char) -> Seq<Seq<char>>
    decreases s.len(),
{
    if s.len() == 0 {
        seq![Seq::<char>::empty()]
    } else {
        let p = split(s.drop_last(), c);
        if s.last() == c {
            p.push(Seq::<char>::empty())
        } else {
            p.update(p.len() - 1, p.last().push(s.last()))
        }
    }
}

/// `l` without one trailing carriage return.
pub open spec fn strip_cr(l: Seq<char>) -> Seq<char> {
    if l.len() > 0 && l.last() == '\r' {
        l.drop_last()
    } else {
        l
    }
}

/// `str::lines`: the pieces between line feeds; a piece that was ended by a
/// line feed loses one trailing carriage return; an empty last piece is no line.
pub open spec fn lines(s: Seq<char>) -> Seq<Seq<char>> {
    let p = split(s, '\n');
    let n: int = if p.last().len() == 0 { p.len() - 1 } else { p.len() as int };
    Seq::new(n as nat, |i: int| if i < p.len() - 1 { strip_cr(p[i]) } else { p[i] })
}

/// `s` starts with `p`.
pub open spec fn has_prefix(s: Seq<char>, p: Seq<char>) -> bool {
    p.len() <= s.len() && s.take(p.len() as int) == p
}

/// `s` ends with `p`.
pub open spec fn has_suffix(s: Seq<char>, p: Seq<char>) -> bool {
    p.len() <= s.len() && s.skip(s.len() - p.len()) == p
}

/// The number of bytes of `c` in UTF-8.
pub open spec fn utf8_width(c: char) -> nat {
    let u = c as u32;
    if u < 0x80 {
        1
    } else if u < 0x800 {
        2
    } else if u < 0x10000 {
        3
    } else {
        4
    }
}

/// `&s[n..]` for a byte offset `n`: `None` where the slice would panic
/// (`n` past the end or inside a character).
pub open spec fn skip_bytes(s: Seq<char>, n: nat) -> Option<Seq<char>>
    decreases s.len(),
{
    if n == 0 {
        Some(s)
    } else if s.len() == 0 {
        None
    } else if utf8_width(s[0]) > n {
        None
    } else {
        skip_bytes(s.drop_first(), (n - utf8_width(s[0])) as nat)
    }
}

/// The piece at position `i` of `split(s, c)`, if there is one.
pub open spec fn piece(s: Seq<char>, c: char, i: int) -> Option<Seq<char>> {
    let p = split(s, c);
    if 0 <= i < p.len() {
        Some(p[i])
    } else {
        None
    }
}

// ---------------------------------------------------------------------------
// Lemmas
// ---------------------------------------------------------------------------

/// `split` never yields an empty list of pieces.
pub proof fn lemma_split_nonempty(s: Seq<char>, c: char)
    ensures
        split(s, c).len() >= 1,
    decreases s.len(),
{
    if s.len() > 0 {
        lemma_split_nonempty(s.drop_last(), c);
    }
}

// ---------------------------------------------------------------------------
// Executable operations
// ---------------------------------------------------------------------------

/// Appends one character to a string (`String::push`).
#[verifier::external_body]
pub(crate) fn push_char(s: &mut String, c: char)
    ensures
        final(s)@ == old(s)@.push(c),
{
    s.push(c);
}

/// The characters of a string slice, in order.
pub fn to_chars(s: &str) -> (v: Vec<char>)
    ensures
        v@ == s@,
{
    let mut v: Vec<char> = Vec::new();
    for c in it: s.chars()
        invariant
            v@ == it.seq().take(it.index() as int),
            it.seq() == s@,
    {
        v.push(c);
    }
    v
}

/// Builds a string from a slice of characters.
pub fn from_chars(v: &[char]) -> (s: String)
    ensures
        s@ == v@,
{
    let mut s = String::new();
    let mut i: usize = 0;
    while i < v.len()
        invariant
            i <= v.len(),
            s@ == v@.take(i as int),
        decreases v.len() - i,
    {
        push_char(&mut s, v[i]);
        proof {
            assert(v@.take(i as int).push(v@[i as int]) =~= v@.take(i + 1));
        }
        i = i + 1;
    }
    proof {
        assert(v@.take(v.len() as int) =~= v@);
    }
    s
}

/// Whether `c` is whitespace in the sense of `char::is_whitespace`.
pub fn whitespace(c: char) -> (b: bool)
    ensures
        b == is_whitespace(c),
{
    let u = c as u32;
    (9 <= u && u <= 13) || u == 32 || u == 0x85 || u == 0xa0 || u == 0x1680 || (0x2000 <= u
        && u <= 0x200a) || u == 0x2028 || u == 0x2029 || u == 0x202f || u == 0x205f || u
        == 0x3000
}

/// `str::trim` on a character vector.
pub fn trim_chars(v: &[char]) -> (r: Vec<char>)
    ensures
        r@ == trim(v@),
{
    let n = v.len();
    let mut lo: usize = 0;
    proof {
        assert(v@.subrange(0, n as int) =~= v@);
    }
    while lo < n && whitespace(v[lo])
        invariant
            lo <= n == v@.len(),
            trim_start(v@) == trim_start(v@.subrange(lo as int, n as int)),
        decreases n - lo,
    {
        proof {
            assert(v@.subrange(lo as int, n as int).drop_first() =~= v@.subrange(
                lo + 1,
                n as int,
            ));
        }
        lo = lo + 1;
    }
    proof {
        assert(trim_start(v@) == v@.subrange(lo as int, n as int));
    }
    let mut hi: usize = n;
    while hi > lo && whitespace(v[hi - 1])
        invariant
            lo <= hi <= n == v@.len(),
            trim(v@) == trim_end(v@.subrange(lo as int, hi as int)),
        decreases hi,
    {
        proof {
            assert(v@.subrange(lo as int, hi as int).drop_last() =~= v@.subrange(
                lo as int,
                hi - 1,
            ));
        }
        hi = hi - 1;
    }
    proof {
        assert(trim(v@) == v@.subrange(lo as int, hi as int));
    }
    slice_range(v, lo, hi)
}

/// A copy of `v[lo..hi]`.
pub fn slice_range(v: &[char], lo: usize, hi: usize) -> (r: Vec<char>)
    requires
        lo <= hi <= v@.len(),
    ensures
        r@ == v@.subrange(lo as int, hi as int),
{
    let mut r: Vec<char> = Vec::new();
    let mut i = lo;
    while i < hi
        invariant
            lo <= i <= hi <= v@.len(),
            r@ == v@.subrange(lo as int, i as int),
        decreases hi - i,
    {
        r.push(v[i]);
        proof {
            assert(v@.subrange(lo as int, i as int).push(v@[i as int]) =~= v@.subrange(
                lo as int,
                i + 1,
            ));
        }
        i = i + 1;
    }
    r
}

/// `str::split` on one character: all pieces.
pub fn split_chars(v: &[char], c: char) -> (r: Vec<Vec<char>>)
    ensures
        r@.len() == split(v@, c).len(),
        forall|i: int| 0 <= i < r@.len() ==> #[trigger] r@[i]@ == split(v@, c)[i],
{
    let mut done: Vec<Vec<char>> = Vec::new();
    let mut cur: Vec<char> = Vec::new();
    let mut i: usize = 0;
    while i < v.len()
        invariant
            i <= v@.len(),
            done@.len() + 1 == split(v@.take(i as int), c).len(),
            forall|k: int| 0 <= k < done@.len() ==> #[trigger] done@[k]@ == split(v@.take(i as int), c)[k],
            cur@ == split(v@.take(i as int), c).last(),
        decreases v.len() - i,
    {
        proof {
            lemma_split_nonempty(v@.take(i as int), c);
            assert(v@.take(i + 1).drop_last() =~= v@.take(i as int));
        }
        if v[i] == c {
            done.push(cur);
            cur = Vec::new();
        } else {
            cur.push(v[i]);
        }
        i = i + 1;
    }
    proof {
        assert(v@.take(v@.len() as int) =~= v@);
    }
    done.push(cur);
    done
}

/// `str::lines` on a character vector.
pub fn lines_chars(v: &[char]) -> (r: Vec<Vec<char>>)
    ensures
        r@.len() == lines(v@).len(),
        forall|i: int| 0 <= i < r@.len() ==> #[trigger] r@[i]@ == lines(v@)[i],
{
    let p = split_chars(v, '\n');
    proof {
        lemma_split_nonempty(v@, '\n');
    }
    let plen = p.len();
    let n: usize = if p[plen - 1].len() == 0 {
        plen - 1
    } else {
        plen
    };
    let mut r: Vec<Vec<char>> = Vec::new();
    let mut i: usize = 0;
    while i < n
        invariant
            n <= plen == p@.len() == split(v@, '\n').len(),
            n == lines(v@).len(),
            forall|i: int| 0 <= i < p@.len() ==> #[trigger] p@[i]@ == split(v@, '\n')[i],
            i <= n,
            r@.len() == i,
            forall|k: int| 0 <= k < i ==> #[trigger] r@[k]@ == lines(v@)[k],
        decreases n - i,
    {
        let l = &p[i];
        let ll = l.len();
        let stripped = if i + 1 < plen && ll > 0 && l[ll - 1] == '\r' {
            slice_range(l.as_slice(), 0, ll - 1)
        } else {
            slice_range(l.as_slice(), 0, ll)
        };
        proof {
            assert(l@.subrange(0, ll as int) =~= l@);
            assert(l@.subrange(0, ll - 1) =~= l@.drop_last());
        }
        r.push(stripped);
        i = i + 1;
    }
    r
}

/// Whether `v` starts with `p`.
pub fn starts_with(v: &[char], p: &[char]) -> (b: bool)
    ensures
        b == has_prefix(v@, p@),
{
    if p.len() > v.len() {
        return false;
    }
    let mut i: usize = 0;
    while i < p.len()
        invariant
            i <= p@.len() <= v@.len(),
            forall|k: int| 0 <= k < i ==> v@[k] == p@[k],
        decreases p.len() - i,
    {
        if v[i] != p[i] {
            proof {
                assert(v@.take(p@.len() as int)[i as int] != p@[i as int]);
            }
            return false;
        }
        i = i + 1;
    }
    proof {
        assert(v@.take(p@.len() as int) =~= p@);
    }
    true
}

/// Whether `v` ends with `p`.
pub fn ends_with(v: &[char], p: &[char]) -> (b: bool)
    ensures
        b == has_suffix(v@, p@),
{
    if p.len() > v.len() {
        return false;
    }
    let off = v.len() - p.len();
    let mut i: usize = 0;
    while i < p.len()
        invariant
            i <= p@.len() <= v@.len(),
            off + p@.len() == v@.len() == v.len(),
            forall|k: int| 0 <= k < i ==> v@[off + k] == p@[k],
        decreases p.len() - i,
    {
        if v[off + i] != p[i] {
            proof {
                assert(v@.skip(off as int)[i as int] != p@[i as int]);
            }
            return false;
        }
        i = i + 1;
    }
    proof {
        assert(v@.skip(off as int) =~= p@);
    }
    true
}

/// The number of UTF-8 bytes of `c` (`char::len_utf8`).
pub fn char_width(c: char) -> (w: usize)
    ensures
        w == utf8_width(c),
{
    let u = c as u32;
    if u < 0x80 {
        1
    } else if u < 0x800 {
        2
    } else if u < 0x10000 {
        3
    } else {
        4
    }
}

/// `&v[n..]` for the byte offset `n`; `None` where that slice would panic.
pub fn skip_bytes_chars(v: &[char], n: usize) -> (r: Option<Vec<char>>)
    ensures
        match skip_bytes(v@, n as nat) {
            Some(t) => r matches Some(x) && x@ == t,
            None => r is None,
        },
{
    let mut i: usize = 0;
    let mut left: usize = n;
    proof {
        assert(v@.skip(0) =~= v@);
    }
    while left > 0
        invariant
            i <= v@.len(),
            left <= n,
            skip_bytes(v@, n as nat) == skip_bytes(v@.skip(i as int), left as nat),
        decreases left,
    {
        if i >= v.len() {
            return None;
        }
        let w = char_width(v[i]);
        if w > left {
            return None;
        }
        proof {
            assert(v@.skip(i as int).drop_first() =~= v@.skip(i + 1));
        }
        left = left - w;
        i = i + 1;
    }
    Some(slice_range(v, i, v.len()))
}

} // verus!
