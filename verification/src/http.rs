//! Byte-level scanning for the minimal HTTP/1.1 grammar the Upgrade
//! handshake needs: line ends, the blank line, header lines, and simple
//! value splitting. Each scan exists twice: as a specification function and
//! as an executable function proved equal to it.

use vstd::prelude::*;
use vstd::string::StringSliceAdditionalSpecFns;

verus! {

/// True when a CRLF pair stands at `i`.
pub open spec fn crlf_at(s: Seq<u8>, i: int) -> bool {
    i + 2 <= s.len() && s[i] == 13 && s[i + 1] == 10
}

/// The position of the first CRLF at or after `i`, or the length when no
/// complete CRLF follows.
pub open spec fn find_crlf(s: Seq<u8>, i: int) -> int
    recommends
        0 <= i <= s.len(),
    decreases s.len() - i when 0 <= i <= s.len()
{
    if i + 2 > s.len() {
        s.len() as int
    } else if crlf_at(s, i) {
        i
    } else {
        find_crlf(s, i + 1)
    }
}

/// The first CRLF position lies between `i` and the length.
pub proof fn lemma_find_crlf_bounds(s: Seq<u8>, i: int)
    requires
        0 <= i <= s.len(),
    ensures
        i <= find_crlf(s, i) <= s.len(),
    decreases s.len() - i,
{
    if i + 2 > s.len() {
    } else if crlf_at(s, i) {
    } else {
        lemma_find_crlf_bounds(s, i + 1);
    }
}

/// The position of the first occurrence of `b` at or after `i`, or the
/// length when `b` does not occur.
pub open spec fn find_byte(s: Seq<u8>, i: int, b: u8) -> int
    recommends
        0 <= i <= s.len(),
    decreases s.len() - i when 0 <= i <= s.len()
{
    if i >= s.len() {
        s.len() as int
    } else if s[i] == b {
        i
    } else {
        find_byte(s, i + 1, b)
    }
}

/// The first occurrence of a byte lies between `i` and the length.
pub proof fn lemma_find_byte_bounds(s: Seq<u8>, i: int, b: u8)
    requires
        0 <= i <= s.len(),
    ensures
        i <= find_byte(s, i, b) <= s.len(),
    decreases s.len() - i,
{
    if i >= s.len() {
    } else if s[i] == b {
    } else {
        lemma_find_byte_bounds(s, i + 1, b);
    }
}

/// The position of the first blank line (CRLFCRLF) at or after `i`, or the
/// length when the head section is not complete yet.
pub open spec fn find_blank(s: Seq<u8>, i: int) -> int
    recommends
        0 <= i <= s.len(),
    decreases s.len() - i when 0 <= i <= s.len()
{
    if i + 4 > s.len() {
        s.len() as int
    } else if s[i] == 13 && s[i + 1] == 10 && s[i + 2] == 13 && s[i + 3] == 10 {
        i
    } else {
        find_blank(s, i + 1)
    }
}

/// The first blank line lies between `i` and the length.
pub proof fn lemma_find_blank_bounds(s: Seq<u8>, i: int)
    requires
        0 <= i <= s.len(),
    ensures
        i <= find_blank(s, i) <= s.len(),
    decreases s.len() - i,
{
    if i + 4 > s.len() {
    } else if s[i] == 13 && s[i + 1] == 10 && s[i + 2] == 13 && s[i + 3] == 10 {
    } else {
        lemma_find_blank_bounds(s, i + 1);
    }
}

/// An HTTP head section is complete once it holds a blank line.
pub open spec fn head_complete(s: Seq<u8>) -> bool {
    find_blank(s, 0) + 4 <= s.len()
}

/// Where the body begins in a complete head section.
pub open spec fn body_start(s: Seq<u8>) -> int {
    find_blank(s, 0) + 4
}

/// ASCII lower-casing of one byte.
pub open spec fn lower_byte(b: u8) -> u8 {
    if 65 <= b <= 90 {
        (b + 32) as u8
    } else {
        b
    }
}

/// ASCII lower-casing of a byte sequence.
pub open spec fn lower_bytes(s: Seq<u8>) -> Seq<u8> {
    s.map_values(|b: u8| lower_byte(b))
}

/// True of the optional-whitespace bytes around header values.
pub open spec fn is_ows(b: u8) -> bool {
    b == 32 || b == 9
}

/// The sequence with leading and trailing whitespace removed.
pub open spec fn trim_ows(s: Seq<u8>) -> Seq<u8>
    decreases s.len(),
{
    if s.len() > 0 && is_ows(s[0]) {
        trim_ows(s.skip(1))
    } else if s.len() > 0 && is_ows(s.last()) {
        trim_ows(s.take(s.len() - 1))
    } else {
        s
    }
}

/// The value of the first header named `name` (lower-case comparison) in the
/// lines from `i` on, stopping at the blank line; `None` when no complete
/// matching header line exists. Lines without a colon are passed over.
pub open spec fn header_value_from(s: Seq<u8>, i: int, name: Seq<u8>) -> Option<Seq<u8>>
    recommends
        0 <= i <= s.len(),
    decreases s.len() - i when 0 <= i <= s.len() via header_value_from_decreases
{
    let e = find_crlf(s, i);
    if e + 2 > s.len() {
        None
    } else if e == i {
        None
    } else {
        let line = s.subrange(i, e);
        let c = find_byte(line, 0, 58);
        if c >= line.len() {
            header_value_from(s, e + 2, name)
        } else if lower_bytes(trim_ows(line.subrange(0, c))) == name {
            Some(trim_ows(line.subrange(c + 1, line.len() as int)))
        } else {
            header_value_from(s, e + 2, name)
        }
    }
}

#[via_fn]
proof fn header_value_from_decreases(s: Seq<u8>, i: int, name: Seq<u8>) {
    lemma_find_crlf_bounds(s, i);
}

/// Where the header lines start: after the first line (the request or
/// status line), or at the end when no complete first line exists.
pub open spec fn headers_start(s: Seq<u8>) -> int {
    let e = find_crlf(s, 0);
    if e + 2 > s.len() {
        s.len() as int
    } else {
        e + 2
    }
}

/// The value of the first header named `name`, searching after the start
/// line.
pub open spec fn header_value(s: Seq<u8>, name: Seq<u8>) -> Option<Seq<u8>> {
    header_value_from(s, headers_start(s), name)
}

/// The pieces of a header value split at `sep`, each trimmed.
pub open spec fn split_trimmed(s: Seq<u8>, sep: u8) -> Seq<Seq<u8>>
    decreases s.len() via split_trimmed_decreases
{
    let c = find_byte(s, 0, sep);
    if c >= s.len() {
        seq![trim_ows(s)]
    } else {
        seq![trim_ows(s.subrange(0, c))] + split_trimmed(s.skip(c + 1), sep)
    }
}

#[via_fn]
proof fn split_trimmed_decreases(s: Seq<u8>, sep: u8) {
    lemma_find_byte_bounds(s, 0, sep);
}

/// Find the first CRLF at or after `from`.
pub fn find_crlf_exec(data: &Vec<u8>, from: usize) -> (r: usize)
    requires
        from <= data@.len(),
    ensures
        r as int == find_crlf(data@, from as int),
        from <= r <= data@.len(),
{
    let n = data.len();
    let mut j = from;
    loop
        invariant
            from <= j <= n,
            n == data@.len(),
            find_crlf(data@, from as int) == find_crlf(data@, j as int),
        decreases n - j,
    {
        if n - j < 2 {
            proof {
                lemma_find_crlf_bounds(data@, j as int);
            }
            return n;
        }
        if data[j] == 13 && data[j + 1] == 10 {
            return j;
        }
        j = j + 1;
    }
}

/// Find the first occurrence of `b` at or after `from`.
pub fn find_byte_exec(data: &Vec<u8>, from: usize, b: u8) -> (r: usize)
    requires
        from <= data@.len(),
    ensures
        r as int == find_byte(data@, from as int, b),
        from <= r <= data@.len(),
{
    let n = data.len();
    let mut j = from;
    loop
        invariant
            from <= j <= n,
            n == data@.len(),
            find_byte(data@, from as int, b) == find_byte(data@, j as int, b),
        decreases n - j,
    {
        if j >= n {
            return n;
        }
        if data[j] == b {
            return j;
        }
        j = j + 1;
    }
}

/// Find the first blank line at or after `from`.
pub fn find_blank_exec(data: &Vec<u8>, from: usize) -> (r: usize)
    requires
        from <= data@.len(),
    ensures
        r as int == find_blank(data@, from as int),
        from <= r <= data@.len(),
{
    let n = data.len();
    let mut j = from;
    loop
        invariant
            from <= j <= n,
            n == data@.len(),
            find_blank(data@, from as int) == find_blank(data@, j as int),
        decreases n - j,
    {
        if n - j < 4 {
            proof {
                lemma_find_blank_bounds(data@, j as int);
            }
            return n;
        }
        if data[j] == 13 && data[j + 1] == 10 && data[j + 2] == 13 && data[j + 3] == 10 {
            return j;
        }
        j = j + 1;
    }
}

/// ASCII lower-casing of a byte vector.
pub fn to_lower(data: &Vec<u8>) -> (r: Vec<u8>)
    ensures
        r@ == lower_bytes(data@),
{
    let mut out: Vec<u8> = Vec::new();
    let n = data.len();
    for j in 0..n
        invariant
            n == data@.len(),
            out@.len() == j,
            forall|k: int| 0 <= k < j ==> out@[k] == lower_byte(data@[k]),
    {
        let b = data[j];
        if 65 <= b && b <= 90 {
            out.push(b + 32);
        } else {
            out.push(b);
        }
    }
    proof {
        assert(out@ =~= lower_bytes(data@));
    }
    out
}

/// Copy a subrange of the buffer, with leading and trailing whitespace
/// removed.
pub fn trimmed_copy(data: &Vec<u8>, from: usize, to: usize) -> (r: Vec<u8>)
    requires
        from <= to <= data@.len(),
    ensures
        r@ == trim_ows(data@.subrange(from as int, to as int)),
{
    let mut lo = from;
    let mut hi = to;
    while lo < hi && (data[lo] == 32 || data[lo] == 9)
        invariant
            from <= lo <= hi <= to <= data@.len(),
            trim_ows(data@.subrange(from as int, to as int)) == trim_ows(
                data@.subrange(lo as int, hi as int),
            ),
        decreases hi - lo,
    {
        proof {
            let cur = data@.subrange(lo as int, hi as int);
            assert(cur.skip(1) =~= data@.subrange(lo + 1, hi as int));
        }
        lo = lo + 1;
    }
    while hi > lo && (data[hi - 1] == 32 || data[hi - 1] == 9)
        invariant
            from <= lo <= hi <= to <= data@.len(),
            lo < hi ==> !is_ows(data@[lo as int]),
            trim_ows(data@.subrange(from as int, to as int)) == trim_ows(
                data@.subrange(lo as int, hi as int),
            ),
        decreases hi - lo,
    {
        proof {
            let cur = data@.subrange(lo as int, hi as int);
            assert(cur.take(cur.len() - 1) =~= data@.subrange(lo as int, hi - 1));
        }
        hi = hi - 1;
    }
    let out = crate::text::bytes_to_vec_range(data, lo, hi);
    proof {
        let cur = data@.subrange(lo as int, hi as int);
        assert(trim_ows(cur) == cur);
    }
    out
}

/// True when the two byte sequences are equal.
pub fn bytes_eq(a: &Vec<u8>, b: &[u8]) -> (r: bool)
    ensures
        r == (a@ == b@),
{
    if a.len() != b.len() {
        return false;
    }
    let n = a.len();
    for j in 0..n
        invariant
            n == a@.len() == b@.len(),
            forall|k: int| 0 <= k < j ==> a@[k] == b@[k],
    {
        if a[j] != b[j] {
            return false;
        }
    }
    proof {
        assert(a@ =~= b@);
    }
    true
}

/// Look up a header by its lower-case name; the returned value is trimmed.
pub fn get_header(raw: &Vec<u8>, name: &str) -> (r: Option<Vec<u8>>)
    ensures
        match r {
            Some(v) => header_value(raw@, name.spec_bytes()) == Some(v@),
            None => header_value(raw@, name.spec_bytes()) is None,
        },
{
    let nb: &[u8] = name.as_bytes();
    let first_end = find_crlf_exec(raw, 0);
    let n = raw.len();
    if n - first_end < 2 {
        return None;
    }
    let mut i = first_end + 2;
    proof {
        assert(i as int == headers_start(raw@));
    }
    loop
        invariant
            i <= n,
            n == raw@.len(),
            nb@ == name.spec_bytes(),
            header_value(raw@, name.spec_bytes()) == header_value_from(
                raw@,
                i as int,
                name.spec_bytes(),
            ),
        decreases n - i,
    {
        let e = find_crlf_exec(raw, i);
        if n - e < 2 {
            return None;
        }
        if e == i {
            return None;
        }
        let c = find_byte_exec(raw, i, 58);
        proof {
            let line = raw@.subrange(i as int, e as int);
            lemma_find_byte_in_subrange(raw@, i as int, e as int, 58);
        }
        if c >= e {
            i = e + 2;
            continue ;
        }
        let key = trimmed_copy(raw, i, c);
        let lowered = to_lower(&key);
        proof {
            let line = raw@.subrange(i as int, e as int);
            assert(line.subrange(0, c - i) =~= raw@.subrange(i as int, c as int));
            assert(line.subrange(c - i + 1, line.len() as int) =~= raw@.subrange(
                c + 1,
                e as int,
            ));
        }
        if bytes_eq(&lowered, nb) {
            let v = trimmed_copy(raw, c + 1, e);
            return Some(v);
        }
        i = e + 2;
    }
}

/// Scanning for a byte in the remainder after `start` tracks scanning the
/// underlying buffer from `start`, offset by `start`.
pub proof fn lemma_find_byte_skip(s: Seq<u8>, start: int, b: u8)
    requires
        0 <= start <= s.len(),
    ensures
        ({
            let rem = s.skip(start);
            let c = find_byte(s, start, b);
            &&& (c < s.len() ==> find_byte(rem, 0, b) == c - start)
            &&& (c >= s.len() ==> find_byte(rem, 0, b) == rem.len())
        }),
{
    assert(s.skip(start) =~= s.subrange(start, s.len() as int));
    lemma_find_byte_shift(s, start, s.len() as int, start, b);
}

/// Inside the line `s[i..e]`, the first colon of the line stands where the
/// first colon of the buffer at or after `i` stands, as long as that colon
/// falls before `e`; and the line holds none when the buffer's first colon
/// falls at or past `e`.
proof fn lemma_find_byte_in_subrange(s: Seq<u8>, i: int, e: int, b: u8)
    requires
        0 <= i <= e <= s.len(),
    ensures
        ({
            let line = s.subrange(i, e);
            let c = find_byte(s, i, b);
            &&& (c < e ==> find_byte(line, 0, b) == c - i)
            &&& (c >= e ==> find_byte(line, 0, b) == line.len())
        }),
{
    lemma_find_byte_shift(s, i, e, i, b);
}

/// Scanning for a byte inside a subrange tracks scanning the underlying
/// buffer, offset by the subrange's start.
proof fn lemma_find_byte_shift(s: Seq<u8>, i: int, e: int, j: int, b: u8)
    requires
        0 <= i <= j <= e <= s.len(),
    ensures
        ({
            let line = s.subrange(i, e);
            let c = find_byte(s, j, b);
            &&& (c < e ==> find_byte(line, j - i, b) == c - i)
            &&& (c >= e ==> find_byte(line, j - i, b) == line.len())
        }),
    decreases e - j,
{
    let line = s.subrange(i, e);
    if j >= e {
        lemma_find_byte_bounds(s, j, b);
    } else if s[j] == b {
    } else {
        lemma_find_byte_shift(s, i, e, j + 1, b);
    }
}

} // verus!
