//! Where the camera keeps its files: the storage layout of archived video
//! segments and keyframes, named by the UTC time of the two-second window they
//! cover, and the other paths the tools hand out.
use vstd::prelude::*;
use crate::clock::{UtcTime, calendar_ok, day_of, representable, utc_date, utc_fields, utc_time};
use crate::decimal::{decimal, format_i64, is_digit, lemma_decimal_injective, lemma_nat_digits_sound};
use crate::text::{ends_with, from_chars, has_prefix, has_suffix, skip_bytes, skip_bytes_chars, slice_range, to_chars};

verus! {

/// `Path::join` on Unix: an absolute component replaces the path; otherwise it
/// is appended, after a `/` unless the path is empty or already ends in one.
pub open spec fn join(base: Seq<char>, comp: Seq<char>) -> Seq<char> {
    if comp.len() > 0 && comp[0] == '/' {
        comp
    } else if base.len() == 0 || base.last() == '/' {
        base + comp
    } else {
        base + seq!['/'] + comp
    }
}

/// The file that covers the timestamp with fields `t`:
/// `storage/folder/year/month/day/hour/minute/index.ext`, where `index` is the
/// second divided by two.
pub open spec fn dated_path(storage: Seq<char>, folder: Seq<char>, t: UtcTime, ext: Seq<char>) -> Seq<char> {
    let dir = join(
        join(
            join(
                join(join(join(storage, folder), decimal(t.year as int)), decimal(t.month as int)),
                decimal(t.day as int),
            ),
            decimal(t.hour as int),
        ),
        decimal(t.minute as int),
    );
    join(dir, decimal((t.second / 2) as int) + seq!['.'] + ext)
}

/// Whether `s` does not start with `/` (it is not an absolute component).
pub open spec fn relative(s: Seq<char>) -> bool {
    !(s.len() > 0 && s[0] == '/')
}

// ---------------------------------------------------------------------------
// Lemmas
// ---------------------------------------------------------------------------

/// Joining a relative component keeps the base as a prefix.
pub proof fn lemma_join_prefix(base: Seq<char>, comp: Seq<char>, pre: Seq<char>)
    requires
        relative(comp),
        has_prefix(base, pre),
    ensures
        has_prefix(join(base, comp), pre),
{
    let j = join(base, comp);
    assert(j.take(base.len() as int) =~= base);
    assert(j.take(pre.len() as int) =~= base.take(pre.len() as int));
}

/// The text of an integer never starts with `/`.
pub proof fn lemma_decimal_relative(n: int)
    ensures
        relative(decimal(n)),
        relative(decimal(n) + seq!['.']),
{
    let d = decimal(n);
    if n >= 0 {
        lemma_nat_digits_sound(n as nat);
        assert(is_digit(d[0]));
    }
    assert((d + seq!['.'])[0] == d[0]);
}

/// Every dated path lies under the storage directory.
pub proof fn lemma_dated_path_prefix(storage: Seq<char>, folder: Seq<char>, t: UtcTime, ext: Seq<char>)
    requires
        relative(folder),
    ensures
        has_prefix(dated_path(storage, folder, t, ext), storage),
{
    assert(storage.take(storage.len() as int) =~= storage);
    lemma_decimal_relative(t.year as int);
    lemma_decimal_relative(t.month as int);
    lemma_decimal_relative(t.day as int);
    lemma_decimal_relative(t.hour as int);
    lemma_decimal_relative(t.minute as int);
    lemma_decimal_relative((t.second / 2) as int);
    let last = decimal((t.second / 2) as int) + seq!['.'] + ext;
    assert(last[0] == (decimal((t.second / 2) as int) + seq!['.'])[0]);
    let j1 = join(storage, folder);
    lemma_join_prefix(storage, folder, storage);
    let j2 = join(j1, decimal(t.year as int));
    lemma_join_prefix(j1, decimal(t.year as int), storage);
    let j3 = join(j2, decimal(t.month as int));
    lemma_join_prefix(j2, decimal(t.month as int), storage);
    let j4 = join(j3, decimal(t.day as int));
    lemma_join_prefix(j3, decimal(t.day as int), storage);
    let j5 = join(j4, decimal(t.hour as int));
    lemma_join_prefix(j4, decimal(t.hour as int), storage);
    let j6 = join(j5, decimal(t.minute as int));
    lemma_join_prefix(j5, decimal(t.minute as int), storage);
    lemma_join_prefix(j6, last, storage);
}

/// Law: every timestamp of one two-second window (counted from the epoch) is
/// filed under the same path; this is what lets a segment and its keyframe be
/// found again from any time inside it.
pub proof fn lemma_same_window_same_path(
    storage: Seq<char>,
    folder: Seq<char>,
    ext: Seq<char>,
    t1: int,
    t2: int,
)
    requires
        t1 / 2000 == t2 / 2000,
    ensures
        dated_path(storage, folder, utc_fields(t1), ext) == dated_path(
            storage,
            folder,
            utc_fields(t2),
            ext,
        ),
{
    let w = t1 / 2000;
    let s1 = t1 / 1000;
    let s2 = t2 / 1000;
    assert(s1 / 2 == w && s2 / 2 == w);
    assert(day_of(t1) == w / 43200 && day_of(t2) == w / 43200);
    assert((s1 % 60) / 2 == w % 30 && (s2 % 60) / 2 == w % 30);
    assert((s1 / 60) % 60 == (w / 30) % 60 && (s2 / 60) % 60 == (w / 30) % 60);
    assert((s1 / 3600) % 24 == (w / 1800) % 24 && (s2 / 3600) % 24 == (w / 1800) % 24);
    let f1 = utc_fields(t1);
    let f2 = utc_fields(t2);
    assert(f1.year == f2.year && f1.month == f2.month && f1.day == f2.day);
    assert(f1.hour == f2.hour && f1.minute == f2.minute);
    assert(f1.second / 2 == f2.second / 2);
}


/// `p` as the directory part of a path: followed by `/` unless it is empty or
/// already ends in one.
pub open spec fn dir_prefix(p: Seq<char>) -> Seq<char> {
    if p.len() == 0 || p.last() == '/' {
        p
    } else {
        p + seq!['/']
    }
}

/// The part of a dated path after the folder:
/// `year/month/day/hour/minute/index.ext`.
pub open spec fn dated_tail(t: UtcTime, ext: Seq<char>) -> Seq<char> {
    decimal(t.year as int) + (seq!['/'] + (decimal(t.month as int) + (seq!['/'] + (decimal(
        t.day as int,
    ) + (seq!['/'] + (decimal(t.hour as int) + (seq!['/'] + (decimal(t.minute as int) + (seq!['/']
        + (decimal((t.second / 2) as int) + (seq!['.'] + ext)))))))))))
}

/// The text of an integer is not empty, ends in a digit and holds neither `/`
/// nor `.`.
proof fn lemma_decimal_shape(n: int)
    ensures
        decimal(n).len() >= 1,
        is_digit(decimal(n).last()),
        forall|i: int| 0 <= i < decimal(n).len() ==> #[trigger] decimal(n)[i] != '/' && decimal(n)[i] != '.',
{
    let d = decimal(n);
    if n >= 0 {
        lemma_nat_digits_sound(n as nat);
        assert(is_digit(d[d.len() - 1]));
        assert forall|i: int| 0 <= i < d.len() implies #[trigger] d[i] != '/' && d[i] != '.' by {
            assert(is_digit(d[i]));
        }
    } else {
        let nd = crate::decimal::nat_digits((-n) as nat);
        lemma_nat_digits_sound((-n) as nat);
        assert(d == seq!['-'] + nd);
        assert(d.last() == nd.last());
        assert(is_digit(nd[nd.len() - 1]));
        assert forall|i: int| 0 <= i < d.len() implies #[trigger] d[i] != '/' && d[i] != '.' by {
            if i > 0 {
                assert(d[i] == nd[i - 1]);
                assert(is_digit(nd[i - 1]));
            }
        }
    }
}

/// Joining a component that is not empty and does not start with `/` to a
/// path that is not empty and does not end in `/` puts a `/` between them.
proof fn lemma_join_after_digit(base: Seq<char>, comp: Seq<char>)
    requires
        base.len() > 0,
        base.last() != '/',
        comp.len() > 0,
        comp[0] != '/',
    ensures
        join(base, comp) == base + seq!['/'] + comp,
        join(base, comp).last() == comp.last(),
{
}

/// A dated path is the storage folder as a directory, then the dated tail.
proof fn lemma_dated_path_shape(storage: Seq<char>, folder: Seq<char>, t: UtcTime, ext: Seq<char>)
    ensures
        dated_path(storage, folder, t, ext) == dir_prefix(join(storage, folder)) + dated_tail(t, ext),
{
    let y = decimal(t.year as int);
    let mo = decimal(t.month as int);
    let d = decimal(t.day as int);
    let h = decimal(t.hour as int);
    let mi = decimal(t.minute as int);
    let sx = decimal((t.second / 2) as int);
    lemma_decimal_shape(t.year as int);
    lemma_decimal_shape(t.month as int);
    lemma_decimal_shape(t.day as int);
    lemma_decimal_shape(t.hour as int);
    lemma_decimal_shape(t.minute as int);
    lemma_decimal_shape((t.second / 2) as int);
    assert(y[0] != '/' && mo[0] != '/' && d[0] != '/' && h[0] != '/' && mi[0] != '/' && sx[0] != '/');
    let last = sx + seq!['.'] + ext;
    assert(last[0] == sx[0]);
    let p = join(storage, folder);
    let j2 = join(p, y);
    assert(j2 == dir_prefix(p) + y);
    assert(j2.last() == y.last());
    lemma_join_after_digit(j2, mo);
    let j3 = join(j2, mo);
    lemma_join_after_digit(j3, d);
    let j4 = join(j3, d);
    lemma_join_after_digit(j4, h);
    let j5 = join(j4, h);
    lemma_join_after_digit(j5, mi);
    let j6 = join(j5, mi);
    lemma_join_after_digit(j6, last);
    assert(dated_path(storage, folder, t, ext) =~= dir_prefix(p) + dated_tail(t, ext));
}

/// Two texts that each start with a part free of `c`, then `c`, are equal only
/// if the parts and the rests are.
proof fn lemma_split_at_first(a1: Seq<char>, r1: Seq<char>, a2: Seq<char>, r2: Seq<char>, c: char)
    requires
        forall|i: int| 0 <= i < a1.len() ==> #[trigger] a1[i] != c,
        forall|i: int| 0 <= i < a2.len() ==> #[trigger] a2[i] != c,
        a1 + (seq![c] + r1) == a2 + (seq![c] + r2),
    ensures
        a1 == a2,
        r1 == r2,
{
    let x = a1 + (seq![c] + r1);
    if a1.len() < a2.len() {
        assert(x[a1.len() as int] == c);
        assert(x[a1.len() as int] == a2[a1.len() as int]);
    } else if a2.len() < a1.len() {
        assert(x[a2.len() as int] == c);
        assert(x[a2.len() as int] == a1[a2.len() as int]);
    }
    assert(a1 =~= x.take(a1.len() as int));
    assert(a2 =~= x.take(a2.len() as int));
    assert(r1 =~= x.skip(a1.len() as int + 1));
    assert(r2 =~= x.skip(a2.len() as int + 1));
}

/// The dated tail determines the date and the time of day down to the
/// two-second window.
proof fn lemma_dated_tail_injective(t1: UtcTime, t2: UtcTime, ext: Seq<char>)
    requires
        dated_tail(t1, ext) == dated_tail(t2, ext),
    ensures
        t1.year == t2.year,
        t1.month == t2.month,
        t1.day == t2.day,
        t1.hour == t2.hour,
        t1.minute == t2.minute,
        t1.second / 2 == t2.second / 2,
{
    lemma_decimal_shape(t1.year as int);
    lemma_decimal_shape(t1.month as int);
    lemma_decimal_shape(t1.day as int);
    lemma_decimal_shape(t1.hour as int);
    lemma_decimal_shape(t1.minute as int);
    lemma_decimal_shape((t1.second / 2) as int);
    lemma_decimal_shape(t2.year as int);
    lemma_decimal_shape(t2.month as int);
    lemma_decimal_shape(t2.day as int);
    lemma_decimal_shape(t2.hour as int);
    lemma_decimal_shape(t2.minute as int);
    lemma_decimal_shape((t2.second / 2) as int);
    let s1 = decimal((t1.second / 2) as int) + (seq!['.'] + ext);
    let s2 = decimal((t2.second / 2) as int) + (seq!['.'] + ext);
    let mi1 = decimal(t1.minute as int) + (seq!['/'] + s1);
    let mi2 = decimal(t2.minute as int) + (seq!['/'] + s2);
    let h1 = decimal(t1.hour as int) + (seq!['/'] + mi1);
    let h2 = decimal(t2.hour as int) + (seq!['/'] + mi2);
    let d1 = decimal(t1.day as int) + (seq!['/'] + h1);
    let d2 = decimal(t2.day as int) + (seq!['/'] + h2);
    let m1 = decimal(t1.month as int) + (seq!['/'] + d1);
    let m2 = decimal(t2.month as int) + (seq!['/'] + d2);
    lemma_split_at_first(decimal(t1.year as int), m1, decimal(t2.year as int), m2, '/');
    lemma_split_at_first(decimal(t1.month as int), d1, decimal(t2.month as int), d2, '/');
    lemma_split_at_first(decimal(t1.day as int), h1, decimal(t2.day as int), h2, '/');
    lemma_split_at_first(decimal(t1.hour as int), mi1, decimal(t2.hour as int), mi2, '/');
    lemma_split_at_first(decimal(t1.minute as int), s1, decimal(t2.minute as int), s2, '/');
    lemma_split_at_first(decimal((t1.second / 2) as int), ext, decimal((t2.second / 2) as int), ext, '.');
    if t1.year != t2.year {
        lemma_decimal_injective(t1.year as int, t2.year as int);
    }
    if t1.month != t2.month {
        lemma_decimal_injective(t1.month as int, t2.month as int);
    }
    if t1.day != t2.day {
        lemma_decimal_injective(t1.day as int, t2.day as int);
    }
    if t1.hour != t2.hour {
        lemma_decimal_injective(t1.hour as int, t2.hour as int);
    }
    if t1.minute != t2.minute {
        lemma_decimal_injective(t1.minute as int, t2.minute as int);
    }
    if t1.second / 2 != t2.second / 2 {
        lemma_decimal_injective((t1.second / 2) as int, (t2.second / 2) as int);
    }
}

/// A count of two-second windows, broken into days, hours, minutes and
/// windows within the minute.
proof fn lemma_window_split(w: int)
    ensures
        w == (w / 43200) * 43200 + ((w / 1800) % 24) * 1800 + ((w / 30) % 60) * 30 + w % 30,
{
    let a = w / 30;
    let b = a / 60;
    let c = b / 24;
    assert(30 * a <= w < 30 * a + 30);
    assert(60 * b <= a < 60 * b + 60);
    assert(24 * c <= b < 24 * c + 24);
    assert(1800 * b <= w < 1800 * b + 1800);
    assert(w / 1800 == b);
    assert(43200 * c <= w < 43200 * c + 43200);
    assert(w / 43200 == c);
    assert(w == a * 30 + w % 30);
    assert(a == b * 60 + a % 60);
    assert(b == c * 24 + b % 24);
}

/// The two-second window of a timestamp, counted from the epoch, from its UTC
/// day and its hour, minute and second.
proof fn lemma_window_of_fields(t: int)
    ensures
        t / 2000 == day_of(t) * 43200 + utc_fields(t).hour * 1800 + utc_fields(t).minute * 30
            + utc_fields(t).second / 2,
{
    let w = t / 2000;
    let s = t / 1000;
    assert(s / 2 == w);
    assert(day_of(t) == w / 43200);
    assert((s % 60) / 2 == w % 30);
    assert((s / 60) % 60 == (w / 30) % 60);
    assert((s / 3600) % 24 == (w / 1800) % 24);
    lemma_window_split(w);
}

/// Law: timestamps in different two-second windows are filed under different
/// paths, so no segment or keyframe overwrites another; with
/// `lemma_same_window_same_path`, a path stands for exactly one window.
pub proof fn lemma_distinct_windows_distinct_paths(
    storage: Seq<char>,
    folder: Seq<char>,
    ext: Seq<char>,
    t1: int,
    t2: int,
)
    requires
        calendar_ok(day_of(t1)),
        calendar_ok(day_of(t2)),
        t1 / 2000 != t2 / 2000,
    ensures
        dated_path(storage, folder, utc_fields(t1), ext) != dated_path(
            storage,
            folder,
            utc_fields(t2),
            ext,
        ),
{
    let f1 = utc_fields(t1);
    let f2 = utc_fields(t2);
    if dated_path(storage, folder, f1, ext) == dated_path(storage, folder, f2, ext) {
        lemma_dated_path_shape(storage, folder, f1, ext);
        lemma_dated_path_shape(storage, folder, f2, ext);
        let pre = dir_prefix(join(storage, folder));
        assert(dated_tail(f1, ext) =~= (pre + dated_tail(f1, ext)).skip(pre.len() as int));
        assert(dated_tail(f2, ext) =~= (pre + dated_tail(f2, ext)).skip(pre.len() as int));
        lemma_dated_tail_injective(f1, f2, ext);
        assert(utc_date(day_of(t1)) == utc_date(day_of(t2)));
        lemma_window_of_fields(t1);
        lemma_window_of_fields(t2);
    }
}

/// Skipping the bytes of a leading ASCII text leaves what follows it.
pub proof fn lemma_skip_ascii_prefix(a: Seq<char>, b: Seq<char>)
    requires
        forall|i: int| 0 <= i < a.len() ==> (#[trigger] a[i] as u32) < 0x80,
    ensures
        skip_bytes(a + b, a.len()) == Some(b),
    decreases a.len(),
{
    if a.len() > 0 {
        let rest = a.drop_first();
        assert forall|i: int| 0 <= i < rest.len() implies (#[trigger] rest[i] as u32) < 0x80 by {
            assert(rest[i] == a[i + 1]);
        }
        lemma_skip_ascii_prefix(rest, b);
        assert((a + b).drop_first() =~= rest + b);
        assert((a + b)[0] == a[0]);
        assert((a[0] as u32) < 0x80);
    } else {
        assert(a + b =~= b);
    }
}

/// Law: the keyframe URL of a segment (`/camera` and the keyframe path
/// relative to the storage directory, as the keyframe event announces it)
/// leads `keyframes` back to the keyframe file the recorder wrote, for a
/// storage directory named without a trailing `/`.
pub proof fn lemma_keyframe_url_round_trip(storage: Seq<char>, t: UtcTime)
    requires
        storage.len() > 0,
        storage.last() != '/',
    ensures
        ({
            let jpg = dated_path(storage, "keyframes"@, t, "jpg"@);
            let url = "/camera"@ + jpg.skip(storage.len() as int);
            &&& skip_bytes(url, 18) is Some
            &&& storage + "/keyframes/"@ + skip_bytes(url, 18)->0 == jpg
        }),
{
    reveal_strlit("keyframes");
    reveal_strlit("/keyframes/");
    reveal_strlit("/camera");
    let jpg = dated_path(storage, "keyframes"@, t, "jpg"@);
    let p1 = join(storage, "keyframes"@);
    assert(p1 == storage + seq!['/'] + "keyframes"@);
    let y = decimal(t.year as int);
    lemma_decimal_relative(t.year as int);
    let p2 = join(p1, y);
    assert(p1.last() == 's');
    assert(p2 == p1 + seq!['/'] + y);
    let head = storage + "/keyframes/"@;
    assert(has_prefix(p2, head)) by {
        assert(p2.take(head.len() as int) =~= head);
    }
    // The rest of the path only appends relative components.
    lemma_decimal_relative(t.month as int);
    lemma_decimal_relative(t.day as int);
    lemma_decimal_relative(t.hour as int);
    lemma_decimal_relative(t.minute as int);
    lemma_decimal_relative((t.second / 2) as int);
    let last = decimal((t.second / 2) as int) + seq!['.'] + "jpg"@;
    assert(last[0] == (decimal((t.second / 2) as int) + seq!['.'])[0]);
    let p3 = join(p2, decimal(t.month as int));
    lemma_join_prefix(p2, decimal(t.month as int), head);
    let p4 = join(p3, decimal(t.day as int));
    lemma_join_prefix(p3, decimal(t.day as int), head);
    let p5 = join(p4, decimal(t.hour as int));
    lemma_join_prefix(p4, decimal(t.hour as int), head);
    let p6 = join(p5, decimal(t.minute as int));
    lemma_join_prefix(p5, decimal(t.minute as int), head);
    lemma_join_prefix(p6, last, head);
    assert(has_prefix(jpg, head));
    let n = storage.len() as int;
    let rest = jpg.skip(n + 11);
    let rel = jpg.skip(n);
    assert(rel =~= "/keyframes/"@ + rest) by {
        assert(jpg.take(head.len() as int) == head);
    }
    let url = "/camera"@ + rel;
    assert(url =~= "/camera/keyframes/"@ + rest) by {
        reveal_strlit("/camera/keyframes/");
    }
    reveal_strlit("/camera/keyframes/");
    lemma_skip_ascii_prefix("/camera/keyframes/"@, rest);
    assert(head + rest =~= jpg) by {
        assert(jpg.take(head.len() as int) == head);
    }
}

// ---------------------------------------------------------------------------
// Executable operations
// ---------------------------------------------------------------------------

/// `Path::new(base).join(comp)` on character vectors.
pub fn join_chars(base: &[char], comp: &[char]) -> (r: Vec<char>)
    ensures
        r@ == join(base@, comp@),
{
    if comp.len() > 0 && comp[0] == '/' {
        return slice_range(comp, 0, comp.len());
    }
    let mut r = slice_range(base, 0, base.len());
    if !(base.len() == 0 || base[base.len() - 1] == '/') {
        r.push('/');
    }
    let mut i: usize = 0;
    let ghost start = r@;
    while i < comp.len()
        invariant
            i <= comp@.len(),
            r@ == start + comp@.take(i as int),
        decreases comp.len() - i,
    {
        r.push(comp[i]);
        proof {
            assert(comp@.take(i as int).push(comp@[i as int]) =~= comp@.take(i + 1));
        }
        i = i + 1;
    }
    proof {
        assert(comp@.take(comp@.len() as int) =~= comp@);
        assert(base@.subrange(0, base@.len() as int) =~= base@);
        assert(comp@.subrange(0, comp@.len() as int) =~= comp@);
    }
    r
}

/// The decimal text of `n` as characters.
pub fn decimal_chars(n: i64) -> (r: Vec<char>)
    ensures
        r@ == decimal(n as int),
{
    let s = format_i64(n);
    to_chars(s.as_str())
}

fn concat_chars(a: &[char], b: &[char]) -> (r: Vec<char>)
    ensures
        r@ == a@ + b@,
{
    let mut r = slice_range(a, 0, a.len());
    let mut i: usize = 0;
    proof {
        assert(a@.subrange(0, a@.len() as int) =~= a@);
    }
    while i < b.len()
        invariant
            i <= b@.len(),
            r@ == a@ + b@.take(i as int),
        decreases b.len() - i,
    {
        r.push(b[i]);
        proof {
            assert(b@.take(i as int).push(b@[i as int]) =~= b@.take(i + 1));
        }
        i = i + 1;
    }
    proof {
        assert(b@.take(b@.len() as int) =~= b@);
    }
    r
}

/// The dated path of the fields `t`, as characters.
pub fn dated_path_chars(storage: &[char], folder: &[char], t: UtcTime, ext: &[char]) -> (r: Vec<char>)
    ensures
        r@ == dated_path(storage@, folder@, t, ext@),
{
    let p = join_chars(storage, folder);
    let p = join_chars(p.as_slice(), decimal_chars(t.year as i64).as_slice());
    let p = join_chars(p.as_slice(), decimal_chars(t.month as i64).as_slice());
    let p = join_chars(p.as_slice(), decimal_chars(t.day as i64).as_slice());
    let p = join_chars(p.as_slice(), decimal_chars(t.hour as i64).as_slice());
    let p = join_chars(p.as_slice(), decimal_chars(t.minute as i64).as_slice());
    let mut name = decimal_chars((t.second / 2) as i64);
    name.push('.');
    let name = concat_chars(name.as_slice(), ext);
    join_chars(p.as_slice(), name.as_slice())
}

/// The file under `storage/folder` that covers the timestamp `millis`
/// (`on_capture::to_path`); `None` where chrono cannot represent the time.
pub fn to_path(storage: &str, millis: i64, folder: &str, ext: &str) -> (r: Option<String>)
    ensures
        r is Some <==> representable(millis as int),
        r is Some ==> calendar_ok(day_of(millis as int)),
        r matches Some(p) ==> p@ == dated_path(storage@, folder@, utc_fields(millis as int), ext@),
{
    match utc_time(millis) {
        Some(t) => {
            let p = dated_path_chars(
                to_chars(storage).as_slice(),
                to_chars(folder).as_slice(),
                t,
                to_chars(ext).as_slice(),
            );
            Some(from_chars(p.as_slice()))
        },
        None => None,
    }
}

/// The keyframe image for the timestamp `timestamp` under the storage
/// directory `storage`: `storage/keyframes/Y/M/D/h/m/i.jpg`; `None` where
/// chrono cannot represent the time.
pub fn keyframe(storage: &str, timestamp: i64) -> (r: Option<String>)
    ensures
        r is Some <==> representable(timestamp as int),
        r is Some ==> calendar_ok(day_of(timestamp as int)),
        r matches Some(p) ==> p@ == dated_path(
            storage@,
            "keyframes"@,
            utc_fields(timestamp as int),
            "jpg"@,
        ),
{
    to_path(storage, timestamp, "keyframes", "jpg")
}

/// The local keyframe path for a keyframe URL path `nn_path`:
/// `storage + "/keyframes/" + &nn_path[18..]`, which drops the URL prefix
/// `/camera/keyframes/`.
pub fn keyframes(storage: &str, nn_path: &str) -> (r: String)
    requires
        skip_bytes(nn_path@, 18) is Some,
    ensures
        r@ == storage@ + "/keyframes/"@ + skip_bytes(nn_path@, 18)->0,
{
    let rest = skip_bytes_chars(to_chars(nn_path).as_slice(), 18);
    let rest = match rest {
        Some(r) => r,
        None => Vec::new(),
    };
    let mut r = String::from_str(storage);
    r.append("/keyframes/");
    let tail = from_chars(rest.as_slice());
    r.append(tail.as_str());
    r
}

/// The image shown as the latest keyframe: the last one written, or else the
/// app's `no_signal.jpg` under the data root `root`.
pub fn last_keyframe(last_jpg: Option<String>, root: &str) -> (r: String)
    ensures
        r@ == match last_jpg {
            Some(j) => j@,
            None => join(join(join(root@, "camera"@), "_ASSETS"@), "no_signal.jpg"@),
        },
{
    match last_jpg {
        Some(j) => j,
        None => {
            let p = join_chars(to_chars(root).as_slice(), to_chars("camera").as_slice());
            let p = join_chars(p.as_slice(), to_chars("_ASSETS").as_slice());
            let p = join_chars(p.as_slice(), to_chars("no_signal.jpg").as_slice());
            from_chars(p.as_slice())
        },
    }
}


/// The `n`th numbered segment file in the capture directory `dest`.
pub open spec fn spec_segment_name(dest: Seq<char>, n: u64) -> Seq<char> {
    join(dest, decimal(n as int) + ".mp4"@)
}

/// The `n`th numbered segment file in the capture directory `dest`.
pub fn segment_name(dest: &str, n: u64) -> (r: String)
    requires
        n <= i64::MAX,
    ensures
        r@ == spec_segment_name(dest@, n),
{
    let name = concat_chars(decimal_chars(n as i64).as_slice(), to_chars(".mp4").as_slice());
    let p = join_chars(to_chars(dest).as_slice(), name.as_slice());
    from_chars(p.as_slice())
}

/// A finished two-second segment, filed under the archive, and its keyframe.
pub struct KeyframeEvent {
    /// The archive file of the segment.
    pub mp4: String,
    /// The keyframe image of the segment.
    pub jpg: String,
    /// `mp4` relative to the storage directory.
    pub mp4_rel: String,
    /// `jpg` relative to the storage directory.
    pub jpg_rel: String,
    /// The time of the segment, in milliseconds.
    pub timestamp: i64,
}

/// The files of the segment that started at `millis`, and the keyframe event
/// that announces it: the archive and keyframe paths, and both with the storage
/// directory cut off (`&path[storage.len()..]`). `None` where chrono cannot
/// represent the time.
pub fn keyframe_event(storage: &str, millis: i64) -> (r: Option<KeyframeEvent>)
    ensures
        r is Some <==> representable(millis as int),
        r is Some ==> calendar_ok(day_of(millis as int)),
        r matches Some(e) ==> {
            &&& e.mp4@ == dated_path(storage@, "archive"@, utc_fields(millis as int), "mp4"@)
            &&& e.jpg@ == dated_path(storage@, "keyframes"@, utc_fields(millis as int), "jpg"@)
            &&& has_prefix(e.mp4@, storage@) && has_prefix(e.jpg@, storage@)
            &&& e.mp4_rel@ == e.mp4@.skip(storage@.len() as int)
            &&& e.jpg_rel@ == e.jpg@.skip(storage@.len() as int)
            &&& e.timestamp == millis
        },
{
    match utc_time(millis) {
        None => None,
        Some(t) => {
            let st = to_chars(storage);
            let archive = to_chars("archive");
            let keyframes = to_chars("keyframes");
            proof {
                reveal_strlit("archive");
                reveal_strlit("keyframes");
                lemma_dated_path_prefix(storage@, "archive"@, t, "mp4"@);
                lemma_dated_path_prefix(storage@, "keyframes"@, t, "jpg"@);
            }
            let mp4 = dated_path_chars(st.as_slice(), archive.as_slice(), t, to_chars("mp4").as_slice());
            let jpg = dated_path_chars(st.as_slice(), keyframes.as_slice(), t, to_chars("jpg").as_slice());
            let n = st.len();
            let mp4_rel = slice_range(mp4.as_slice(), n, mp4.len());
            let jpg_rel = slice_range(jpg.as_slice(), n, jpg.len());
            proof {
                assert(mp4_rel@ =~= mp4@.skip(n as int));
                assert(jpg_rel@ =~= jpg@.skip(n as int));
            }
            Some(
                KeyframeEvent {
                    mp4: from_chars(mp4.as_slice()),
                    jpg: from_chars(jpg.as_slice()),
                    mp4_rel: from_chars(mp4_rel.as_slice()),
                    jpg_rel: from_chars(jpg_rel.as_slice()),
                    timestamp: millis,
                },
            )
        },
    }
}

/// Whether a file found under the events directory holds an event (its name
/// ends in `.json`).
pub fn is_event_file(name: &str) -> (b: bool)
    ensures
        b == has_suffix(name@, ".json"@),
{
    ends_with(to_chars(name).as_slice(), to_chars(".json").as_slice())
}

} // verus!
