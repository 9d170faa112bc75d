//! Character-level views of source text: whitespace, line splitting and
//! integer literals, with the meaning that Rust's `str` methods give them.
use vstd::prelude::*;

verus! {

/// The characters of `s`, one after another.
pub fn str_chars(s: &str) -> (v: Vec<char>)
    ensures
        v@ == s@,
{
    let mut v: Vec<char> = Vec::new();
    for c in it: s.chars()
        invariant
            v@ == it.seq().take(it.index()),
    {
        v.push(c);
    }
    v
}

/// Unicode `White_Space`, which is what `char::is_whitespace` tests.
pub open spec fn is_ws(c: char) -> bool {
    let v = c as u32;
    ||| 0x9 <= v <= 0xd
    ||| v == 0x20
    ||| v == 0x85
    ||| v == 0xa0
    ||| v == 0x1680
    ||| 0x2000 <= v <= 0x200a
    ||| v == 0x2028
    ||| v == 0x2029
    ||| v == 0x202f
    ||| v == 0x205f
    ||| v == 0x3000
}

pub fn is_whitespace(c: char) -> (r: bool)
    ensures
        r == is_ws(c),
{
    let v = c as u32;
    (0x9 <= v && v <= 0xd) || v == 0x20 || v == 0x85 || v == 0xa0 || v == 0x1680 || (0x2000 <= v
        && v <= 0x200a) || v == 0x2028 || v == 0x2029 || v == 0x202f || v == 0x205f || v == 0x3000
}

/// `s` without its leading whitespace.
pub open spec fn trim_start(s: Seq<char>) -> Seq<char>
    decreases s.len(),
{
    if s.len() > 0 && is_ws(s[0]) {
        trim_start(s.drop_first())
    } else {
        s
    }
}

/// `s` without its trailing whitespace.
pub open spec fn trim_end(s: Seq<char>) -> Seq<char>
    decreases s.len(),
{
    if s.len() > 0 && is_ws(s.last()) {
        trim_end(s.drop_last())
    } else {
        s
    }
}

/// `str::trim`.
pub open spec fn trim(s: Seq<char>) -> Seq<char> {
    trim_end(trim_start(s))
}

/// The bounds of `trim(v[lo..hi])` within `v`.
pub fn trim_span(v: &Vec<char>, lo: usize, hi: usize) -> (r: (usize, usize))
    requires
        lo <= hi <= v@.len(),
    ensures
        lo <= r.0 <= r.1 <= hi,
        v@.subrange(r.0 as int, r.1 as int) == trim(v@.subrange(lo as int, hi as int)),
{
    let mut a = lo;
    while a < hi && is_whitespace(v[a])
        invariant
            lo <= a <= hi <= v@.len(),
            trim_start(v@.subrange(a as int, hi as int)) == trim_start(v@.subrange(lo as int, hi as int)),
        decreases hi - a,
    {
        assert(v@.subrange(a as int, hi as int).drop_first() == v@.subrange(a + 1, hi as int));
        a = a + 1;
    }
    assert(trim_start(v@.subrange(a as int, hi as int)) == v@.subrange(a as int, hi as int));
    let mut b = hi;
    while b > a && is_whitespace(v[b - 1])
        invariant
            lo <= a <= b <= hi <= v@.len(),
            trim_end(v@.subrange(a as int, b as int)) == trim(v@.subrange(lo as int, hi as int)),
        decreases b,
    {
        assert(v@.subrange(a as int, b as int).drop_last() == v@.subrange(a as int, b - 1));
        b = b - 1;
    }
    (a, b)
}

/// Whitespace splitting, scanned left to right: the words completed so far
/// and the word being read.
pub open spec fn words_scan(s: Seq<char>) -> (Seq<Seq<char>>, Seq<char>)
    decreases s.len(),
{
    if s.len() == 0 {
        (Seq::empty(), Seq::empty())
    } else {
        let (done, cur) = words_scan(s.drop_last());
        if is_ws(s.last()) {
            if cur.len() > 0 {
                (done.push(cur), Seq::empty())
            } else {
                (done, cur)
            }
        } else {
            (done, cur.push(s.last()))
        }
    }
}

/// `str::split_whitespace`: the maximal runs of non-whitespace characters.
pub open spec fn words(s: Seq<char>) -> Seq<Seq<char>> {
    let (done, cur) = words_scan(s);
    if cur.len() > 0 {
        done.push(cur)
    } else {
        done
    }
}

/// The bounds within `v` of the words of `v[lo..hi]`.
pub fn word_spans(v: &Vec<char>, lo: usize, hi: usize) -> (r: Vec<(usize, usize)>)
    requires
        lo <= hi <= v@.len(),
    ensures
        r@.len() == words(v@.subrange(lo as int, hi as int)).len(),
        forall|k: int|
            0 <= k < r@.len() ==> {
                &&& lo <= (#[trigger] r@[k]).0 < r@[k].1 <= hi
                &&& v@.subrange(r@[k].0 as int, r@[k].1 as int) == words(
                    v@.subrange(lo as int, hi as int),
                )[k]
            },
{
    let mut r: Vec<(usize, usize)> = Vec::new();
    let mut start = lo;
    let mut i = lo;
    while i < hi
        invariant
            lo <= start <= i <= hi <= v@.len(),
            ({
                let (done, cur) = words_scan(v@.subrange(lo as int, i as int));
                &&& r@.len() == done.len()
                &&& cur == v@.subrange(start as int, i as int)
                &&& forall|k: int|
                    0 <= k < r@.len() ==> {
                        &&& lo <= (#[trigger] r@[k]).0 < r@[k].1 <= start
                        &&& v@.subrange(r@[k].0 as int, r@[k].1 as int) == done[k]
                    }
            }),
        decreases hi - i,
    {
        assert(v@.subrange(lo as int, i + 1).drop_last() == v@.subrange(lo as int, i as int));
        if is_whitespace(v[i]) {
            if start < i {
                r.push((start, i));
            }
            start = i + 1;
        } else {
            assert(v@.subrange(start as int, i + 1) == v@.subrange(start as int, i as int).push(v@[i as int]));
        }
        i = i + 1;
    }
    if start < hi {
        r.push((start, hi));
    }
    r
}

/// `str::lines`, scanned left to right: the lines completed so far and the
/// line being read. A line feed ends a line, and a carriage return just
/// before it is dropped.
pub open spec fn lines_scan(s: Seq<char>) -> (Seq<Seq<char>>, Seq<char>)
    decreases s.len(),
{
    if s.len() == 0 {
        (Seq::empty(), Seq::empty())
    } else {
        let (done, cur) = lines_scan(s.drop_last());
        if s.last() == '\n' {
            if cur.len() > 0 && cur.last() == '\r' {
                (done.push(cur.drop_last()), Seq::empty())
            } else {
                (done.push(cur), Seq::empty())
            }
        } else {
            (done, cur.push(s.last()))
        }
    }
}

/// `str::lines`: a final line without a line feed counts when it is not empty.
pub open spec fn lines(s: Seq<char>) -> Seq<Seq<char>> {
    let (done, cur) = lines_scan(s);
    if cur.len() > 0 {
        done.push(cur)
    } else {
        done
    }
}

/// The bounds within `v` of the lines of `v`.
pub fn line_spans(v: &Vec<char>) -> (r: Vec<(usize, usize)>)
    ensures
        r@.len() == lines(v@).len(),
        forall|k: int|
            0 <= k < r@.len() ==> {
                &&& (#[trigger] r@[k]).0 <= r@[k].1 <= v@.len()
                &&& v@.subrange(r@[k].0 as int, r@[k].1 as int) == lines(v@)[k]
            },
{
    let mut r: Vec<(usize, usize)> = Vec::new();
    let mut start: usize = 0;
    let mut i: usize = 0;
    while i < v.len()
        invariant
            start <= i <= v@.len(),
            ({
                let (done, cur) = lines_scan(v@.subrange(0, i as int));
                &&& r@.len() == done.len()
                &&& cur == v@.subrange(start as int, i as int)
                &&& forall|k: int|
                    0 <= k < r@.len() ==> {
                        &&& (#[trigger] r@[k]).0 <= r@[k].1 <= start
                        &&& v@.subrange(r@[k].0 as int, r@[k].1 as int) == done[k]
                    }
            }),
        decreases v@.len() - i,
    {
        assert(v@.subrange(0, i + 1).drop_last() == v@.subrange(0, i as int));
        if v[i] == '\n' {
            if start < i && v[i - 1] == '\r' {
                assert(v@.subrange(start as int, i - 1) == v@.subrange(start as int, i as int).drop_last());
                r.push((start, i - 1));
            } else {
                r.push((start, i));
            }
            start = i + 1;
        } else {
            assert(v@.subrange(start as int, i + 1) == v@.subrange(start as int, i as int).push(v@[i as int]));
        }
        i = i + 1;
    }
    assert(v@.subrange(0, v@.len() as int) == v@);
    if start < v.len() {
        r.push((start, v.len()));
    }
    r
}

/// `char::to_digit`: the value of `c` as a digit in base `radix`.
pub open spec fn digit_value(c: char, radix: nat) -> Option<nat> {
    let v = c as u32 as int;
    let d = if 0x30 <= v <= 0x39 {
        v - 0x30
    } else if 0x61 <= v <= 0x7a {
        v - 0x61 + 10
    } else if 0x41 <= v <= 0x5a {
        v - 0x41 + 10
    } else {
        36
    };
    if d < radix {
        Some(d as nat)
    } else {
        None
    }
}

pub fn to_digit(c: char, radix: u32) -> (r: Option<u32>)
    requires
        radix <= 36,
    ensures
        r matches Some(d) ==> digit_value(c, radix as nat) == Some(d as nat),
        r is None ==> digit_value(c, radix as nat) is None,
{
    let v = c as u32;
    let d: u32 = if 0x30 <= v && v <= 0x39 {
        v - 0x30
    } else if 0x61 <= v && v <= 0x7a {
        v - 0x61 + 10
    } else if 0x41 <= v && v <= 0x5a {
        v - 0x41 + 10
    } else {
        36
    };
    if d < radix {
        Some(d)
    } else {
        None
    }
}

pub open spec fn all_digits(s: Seq<char>, radix: nat) -> bool {
    forall|i: int| 0 <= i < s.len() ==> (#[trigger] digit_value(s[i], radix)) is Some
}

/// The number that the digits `s` spell in base `radix`, most significant first.
pub open spec fn digits_value(s: Seq<char>, radix: nat) -> nat
    decreases s.len(),
{
    if s.len() == 0 {
        0
    } else {
        let d = match digit_value(s.last(), radix) {
            Some(d) => d,
            None => 0,
        };
        digits_value(s.drop_last(), radix) * radix + d
    }
}

/// What `from_str_radix` reads from `s`, before the range of the target type
/// is checked: an optional `+` (or `-` where the type is signed) followed by
/// at least one digit, and nothing else.
pub open spec fn radix_value(s: Seq<char>, radix: nat, signed: bool) -> Option<int> {
    if s.len() == 0 {
        None
    } else if s[0] == '+' || (signed && s[0] == '-') {
        let ds = s.drop_first();
        if ds.len() > 0 && all_digits(ds, radix) {
            if s[0] == '-' {
                Some(-digits_value(ds, radix))
            } else {
                Some(digits_value(ds, radix) as int)
            }
        } else {
            None
        }
    } else if all_digits(s, radix) {
        Some(digits_value(s, radix) as int)
    } else {
        None
    }
}

/// `from_str_radix` for an integer type whose values are `min..=max`.
pub open spec fn int_from_str(s: Seq<char>, radix: nat, signed: bool, min: int, max: int) -> Option<int> {
    match radix_value(s, radix, signed) {
        Some(x) => if min <= x <= max {
            Some(x)
        } else {
            None
        },
        None => None,
    }
}

/// A prefix of a digit string never spells a larger number than the whole.
pub proof fn lemma_digits_prefix(s: Seq<char>, k: int, radix: nat)
    requires
        0 <= k <= s.len(),
        radix >= 1,
        all_digits(s, radix),
    ensures
        digits_value(s.take(k), radix) <= digits_value(s, radix),
    decreases s.len(),
{
    if k < s.len() {
        let t = s.drop_last();
        assert(all_digits(t, radix)) by {
            assert forall|i: int| 0 <= i < t.len() implies (#[trigger] digit_value(t[i], radix)) is Some by {
                assert(t[i] == s[i]);
                assert(digit_value(s[i], radix) is Some);
            }
        }
        lemma_digits_prefix(t, k, radix);
        assert(t.take(k) == s.take(k));
        assert(digits_value(t, radix) <= digits_value(t, radix) * radix) by (nonlinear_arith)
            requires
                radix >= 1,
        ;
    } else {
        assert(s.take(k) == s);
    }
}

/// Reads the integer literal `v[lo..hi]` in base `radix`, as `from_str_radix`
/// does for a type whose values are `min..=max`.
pub fn parse_int_span(
    v: &Vec<char>,
    lo: usize,
    hi: usize,
    radix: u32,
    signed: bool,
    min: i128,
    max: i128,
) -> (r: Option<i128>)
    requires
        lo <= hi <= v@.len(),
        2 <= radix <= 36,
        -0x1_0000_0000_0000_0000 <= min <= 0 <= max <= 0x1_0000_0000_0000_0000,
    ensures
        r matches Some(x) ==> int_from_str(v@.subrange(lo as int, hi as int), radix as nat, signed, min as int, max as int) == Some(x as int),
        r is None ==> int_from_str(v@.subrange(lo as int, hi as int), radix as nat, signed, min as int, max as int) is None,
{
    let ghost s = v@.subrange(lo as int, hi as int);
    if lo == hi {
        return None;
    }
    let mut neg = false;
    let mut start = lo;
    if v[lo] == '+' {
        start = lo + 1;
    } else if signed && v[lo] == '-' {
        start = lo + 1;
        neg = true;
    }
    let ghost ds = v@.subrange(start as int, hi as int);
    proof {
        if start > lo {
            assert(ds == s.drop_first());
        } else {
            assert(ds == s);
        }
    }
    if start == hi {
        return None;
    }
    let limit: u128 = 0x1_0000_0000_0000_0000;
    let mut acc: u128 = 0;
    let mut i = start;
    while i < hi
        invariant
            lo <= start <= i <= hi <= v@.len(),
            2 <= radix <= 36,
            ds == v@.subrange(start as int, hi as int),
            s == v@.subrange(lo as int, hi as int),
            s.len() > 0,
            -0x1_0000_0000_0000_0000 <= min <= 0 <= max <= 0x1_0000_0000_0000_0000,
            start == lo ==> ds == s && !(s[0] == '+' || (signed && s[0] == '-')),
            start != lo ==> start == lo + 1 && ds == s.drop_first() && (s[0] == '+' || (signed && s[0] == '-')),
            neg == (start != lo && s[0] == '-'),
            acc <= limit,
            limit == 0x1_0000_0000_0000_0000,
            all_digits(ds.take(i - start), radix as nat),
            acc == digits_value(ds.take(i - start), radix as nat),
        decreases hi - i,
    {
        let ghost pre = ds.take(i - start);
        let ghost next = ds.take(i + 1 - start);
        assert(next.drop_last() == pre);
        assert(next.last() == v@[i as int]);
        match to_digit(v[i], radix) {
            None => {
                assert(!all_digits(ds, radix as nat)) by {
                    assert(ds[i - start] == v@[i as int]);
                }
                return None;
            },
            Some(d) => {
                assert(all_digits(next, radix as nat)) by {
                    assert forall|j: int| 0 <= j < next.len() implies (#[trigger] digit_value(next[j], radix as nat)) is Some by {
                        if j < pre.len() {
                            assert(next[j] == pre[j]);
                        }
                    }
                }
                assert(acc * (radix as u128) + (d as u128) <= 0x1_0000_0000_0000_0000 * 36 + 36) by (nonlinear_arith)
                    requires
                        acc <= 0x1_0000_0000_0000_0000u128,
                        radix <= 36,
                        d < 36,
                ;
                acc = acc * (radix as u128) + (d as u128);
                assert(acc == digits_value(next, radix as nat));
                if acc > limit {
                    proof {
                        if all_digits(ds, radix as nat) {
                            lemma_digits_prefix(ds, i + 1 - start, radix as nat);
                        }
                    }
                    return None;
                }
            },
        }
        i = i + 1;
    }
    assert(ds.take(i - start) == ds);
    let value: i128 = if neg {
        -(acc as i128)
    } else {
        acc as i128
    };
    if min <= value && value <= max {
        Some(value)
    } else {
        None
    }
}

/// Whether `v[a..b]` spells `lit`.
pub fn span_is(v: &Vec<char>, a: usize, b: usize, lit: &str) -> (r: bool)
    requires
        a <= b <= v@.len(),
    ensures
        r == (v@.subrange(a as int, b as int) == lit@),
{
    let l = str_chars(lit);
    if b - a != l.len() {
        return false;
    }
    let mut i: usize = 0;
    while i < l.len()
        invariant
            a <= b <= v@.len(),
            b - a == l@.len(),
            l@ == lit@,
            i <= l@.len(),
            forall|j: int| 0 <= j < i ==> v@[a + j] == l@[j],
        decreases l@.len() - i,
    {
        if v[a + i] != l[i] {
            assert(v@.subrange(a as int, b as int)[i as int] != lit@[i as int]);
            return false;
        }
        i = i + 1;
    }
    assert(v@.subrange(a as int, b as int) == l@);
    true
}

/// The position of the first `#` in `s` (its length where there is none):
/// where a comment starts.
pub open spec fn comment_start(s: Seq<char>) -> int
    decreases s.len(),
{
    if s.len() == 0 || s[0] == '#' {
        0
    } else {
        1 + comment_start(s.drop_first())
    }
}

/// The position within `v` of the first `#` in `v[lo..hi]`, or `hi`.
pub fn comment_span_end(v: &Vec<char>, lo: usize, hi: usize) -> (r: usize)
    requires
        lo <= hi <= v@.len(),
    ensures
        lo <= r <= hi,
        r - lo == comment_start(v@.subrange(lo as int, hi as int)),
{
    let mut h = lo;
    while h < hi && v[h] != '#'
        invariant
            lo <= h <= hi <= v@.len(),
            comment_start(v@.subrange(lo as int, hi as int)) == (h - lo) + comment_start(v@.subrange(h as int, hi as int)),
        decreases hi - h,
    {
        assert(v@.subrange(h as int, hi as int).drop_first() == v@.subrange(h + 1, hi as int));
        h = h + 1;
    }
    h
}

/// `str::split(',')`, scanned left to right: the pieces completed so far and
/// the piece being read.
pub open spec fn comma_scan(s: Seq<char>) -> (Seq<Seq<char>>, Seq<char>)
    decreases s.len(),
{
    if s.len() == 0 {
        (Seq::empty(), Seq::empty())
    } else {
        let (done, cur) = comma_scan(s.drop_last());
        if s.last() == ',' {
            (done.push(cur), Seq::empty())
        } else {
            (done, cur.push(s.last()))
        }
    }
}

/// `str::split(',')`: the pieces between commas, the last one included even
/// when empty.
pub open spec fn comma_pieces(s: Seq<char>) -> Seq<Seq<char>> {
    let (done, cur) = comma_scan(s);
    done.push(cur)
}

} // verus!
