//! Signature scanning over a copy-free view of the loaded game image, the PE
//! header fields the fixes read, and the wait-for-decryption decision.
//!
//! The image is seen as a byte slice: index `i` is the byte at `base + i`.
use vstd::prelude::*;
use crate::text::{chars_of, is_whitespace, is_ws};

verus! {

// ---------------------------------------------------------------------
// Signatures: IDA-style text ("85 ?? 74 ?? ??") to a byte/wildcard list
// ---------------------------------------------------------------------

/// The state after splitting a prefix at whitespace: the finished tokens and
/// the token being read.
pub open spec fn ws_split_state(s: Seq<char>) -> (Seq<Seq<char>>, Seq<char>)
    decreases s.len(),
{
    if s.len() == 0 {
        (Seq::empty(), Seq::empty())
    } else {
        let prev = ws_split_state(s.drop_last());
        let c = s.last();
        if is_ws(c) {
            if prev.1.len() > 0 {
                (prev.0.push(prev.1), Seq::empty())
            } else {
                (prev.0, Seq::empty())
            }
        } else {
            (prev.0, prev.1.push(c))
        }
    }
}

/// `str::split_whitespace`: the maximal runs of non-whitespace characters.
pub open spec fn split_whitespace(s: Seq<char>) -> Seq<Seq<char>> {
    let st = ws_split_state(s);
    if st.1.len() > 0 {
        st.0.push(st.1)
    } else {
        st.0
    }
}

/// The value of one hexadecimal digit (`char::to_digit(16)`).
pub open spec fn hex_digit(c: char) -> Option<int> {
    if '0' <= c && c <= '9' {
        Some(c as int - '0' as int)
    } else if 'a' <= c && c <= 'f' {
        Some(c as int - 'a' as int + 10)
    } else if 'A' <= c && c <= 'F' {
        Some(c as int - 'A' as int + 10)
    } else {
        None
    }
}

/// The value of a string of hexadecimal digits, if every character is one.
pub open spec fn hex_value(d: Seq<char>) -> Option<int>
    decreases d.len(),
{
    if d.len() == 0 {
        Some(0)
    } else {
        match (hex_value(d.drop_last()), hex_digit(d.last())) {
            (Some(v), Some(x)) => Some(v * 16 + x),
            _ => None,
        }
    }
}

/// `u8::from_str_radix(t, 16).ok()`: an optional `+`, then at least one
/// hexadecimal digit, with a value that fits in a byte.
pub open spec fn parse_hex_u8(t: Seq<char>) -> Option<u8> {
    let digits = if t.len() > 0 && t[0] == '+' {
        t.drop_first()
    } else {
        t
    };
    if digits.len() == 0 {
        None
    } else {
        match hex_value(digits) {
            Some(v) => if v < 256 {
                Some(v as u8)
            } else {
                None
            },
            None => None,
        }
    }
}

/// One signature token: a wildcard where it holds a `?`, else its byte value;
/// a token that is no hexadecimal byte is a wildcard too.
pub open spec fn token_byte(t: Seq<char>) -> Option<u8> {
    if t.contains('?') {
        None
    } else {
        parse_hex_u8(t)
    }
}

/// The byte/wildcard list of a signature: one entry per whitespace-separated token.
pub open spec fn pattern_of(sig: Seq<char>) -> Seq<Option<u8>> {
    split_whitespace(sig).map_values(|t: Seq<char>| token_byte(t))
}

proof fn lemma_hex_value_nonneg(d: Seq<char>)
    ensures
        hex_value(d) matches Some(v) ==> v >= 0,
    decreases d.len(),
{
    if d.len() > 0 {
        lemma_hex_value_nonneg(d.drop_last());
    }
}

/// Reading more digits never makes the value smaller, and an invalid digit
/// anywhere leaves no value.
proof fn lemma_hex_value_prefix(d: Seq<char>, i: int)
    requires
        0 <= i <= d.len(),
    ensures
        hex_value(d.take(i)) is None ==> hex_value(d) is None,
        hex_value(d.take(i)) matches Some(v) ==> (hex_value(d) matches Some(w) ==> v <= w),
    decreases d.len(),
{
    if i == d.len() {
        assert(d.take(i) == d);
    } else {
        assert(d.drop_last().take(i) == d.take(i));
        lemma_hex_value_prefix(d.drop_last(), i);
        lemma_hex_value_nonneg(d.drop_last());
    }
}

/// The value of a hexadecimal token if it fits in a byte.
fn hex_u8(t: &[char]) -> (r: Option<u8>)
    ensures
        r == parse_hex_u8(t@),
{
    let start: usize = if t.len() > 0 && t[0] == '+' {
        1
    } else {
        0
    };
    let ghost digits = if t@.len() > 0 && t@[0] == '+' {
        t@.drop_first()
    } else {
        t@
    };
    assert(digits == t@.subrange(start as int, t@.len() as int));
    if start == t.len() {
        return None;
    }
    let mut acc: u32 = 0;
    let mut i: usize = start;
    assert(digits.take(0) == Seq::<char>::empty());
    while i < t.len()
        invariant
            start <= i <= t.len(),
            digits == t@.subrange(start as int, t@.len() as int),
            digits == (if t@.len() > 0 && t@[0] == '+' {
                t@.drop_first()
            } else {
                t@
            }),
            digits.len() > 0,
            hex_value(digits.take(i - start)) == Some(acc as int),
            acc < 256,
        decreases t.len() - i,
    {
        let c = t[i];
        let ghost k = i - start;
        assert(digits.take(k + 1).drop_last() == digits.take(k));
        assert(digits.take(k + 1).last() == c);
        let x: u32 = if '0' <= c && c <= '9' {
            (c as u32) - ('0' as u32)
        } else if 'a' <= c && c <= 'f' {
            (c as u32) - ('a' as u32) + 10
        } else if 'A' <= c && c <= 'F' {
            (c as u32) - ('A' as u32) + 10
        } else {
            proof {
                assert(hex_digit(c) is None);
                assert(hex_value(digits.take(k + 1)) is None);
                lemma_hex_value_prefix(digits, k + 1);
            }
            return None;
        };
        assert(hex_digit(c) == Some(x as int));
        acc = acc * 16 + x;
        assert(hex_value(digits.take(k + 1)) == Some(acc as int));
        if acc >= 256 {
            proof {
                lemma_hex_value_prefix(digits, k + 1);
            }
            return None;
        }
        i += 1;
    }
    assert(digits.take(t@.len() - start) == digits);
    Some(acc as u8)
}

/// One signature token to its byte, or `None` for a wildcard.
fn token_to_byte(t: &[char]) -> (r: Option<u8>)
    ensures
        r == token_byte(t@),
{
    let mut i: usize = 0;
    while i < t.len()
        invariant
            i <= t.len(),
            forall|k: int| 0 <= k < i ==> t@[k] != '?',
        decreases t.len() - i,
    {
        if t[i] == '?' {
            assert(t@.contains('?'));
            return None;
        }
        i += 1;
    }
    assert(!t@.contains('?'));
    hex_u8(t)
}

/// Turn an IDA-style signature (`"85 ?? 74 ?? ??"`) into a byte/wildcard list.
/// `None` entries are wildcards.
pub fn parse_pattern(sig: &str) -> (out: Vec<Option<u8>>)
    ensures
        out@ == pattern_of(sig@),
{
    let s = chars_of(sig);
    let mut out: Vec<Option<u8>> = Vec::new();
    let mut cur: Vec<char> = Vec::new();
    let mut i: usize = 0;
    while i < s.len()
        invariant
            i <= s.len(),
            s@ == sig@,
            out@ == ws_split_state(s@.take(i as int)).0.map_values(|t: Seq<char>| token_byte(t)),
            cur@ == ws_split_state(s@.take(i as int)).1,
        decreases s.len() - i,
    {
        let c = s[i];
        assert(s@.take(i + 1).drop_last() == s@.take(i as int));
        assert(s@.take(i + 1).last() == c);
        if is_whitespace(c) {
            if cur.len() > 0 {
                let b = token_to_byte(&cur);
                out.push(b);
                cur = Vec::new();
            }
        } else {
            cur.push(c);
        }
        i += 1;
    }
    assert(s@.take(s.len() as int) == s@);
    if cur.len() > 0 {
        let b = token_to_byte(&cur);
        out.push(b);
    }
    out
}

// ---------------------------------------------------------------------
// Scanning
// ---------------------------------------------------------------------

/// A pattern entry accepts a byte: a wildcard accepts any.
pub open spec fn byte_fits(want: Option<u8>, b: u8) -> bool {
    match want {
        Some(w) => w == b,
        None => true,
    }
}

/// `pat` matches `data` at offset `i`.
pub open spec fn matches_at(data: Seq<u8>, pat: Seq<Option<u8>>, i: int) -> bool {
    &&& 0 <= i
    &&& i + pat.len() <= data.len()
    &&& forall|j: int| #![trigger pat[j]] 0 <= j < pat.len() ==> byte_fits(pat[j], data[i + j])
}

/// The first offset from `i` on where `pat` matches.
pub open spec fn scan_from(data: Seq<u8>, pat: Seq<Option<u8>>, i: int) -> Option<int>
    decreases data.len() + 1 - i,
{
    if i < 0 || i + pat.len() > data.len() {
        None
    } else if matches_at(data, pat, i) {
        Some(i)
    } else {
        scan_from(data, pat, i + 1)
    }
}

/// The offset of the first match of a non-empty pattern.
pub open spec fn first_match(data: Seq<u8>, pat: Seq<Option<u8>>) -> Option<int> {
    if pat.len() == 0 {
        None
    } else {
        scan_from(data, pat, 0)
    }
}

/// The offset where signature `sig` first matches the image.
pub open spec fn find_signature(data: Seq<u8>, sig: Seq<char>) -> Option<int> {
    first_match(data, pattern_of(sig))
}

/// A found offset is the first match; no offset is found only where none matches.
pub proof fn lemma_scan_from(data: Seq<u8>, pat: Seq<Option<u8>>, i: int)
    requires
        0 <= i,
    ensures
        match scan_from(data, pat, i) {
            Some(k) => i <= k && matches_at(data, pat, k) && forall|j: int|
                i <= j < k ==> !matches_at(data, pat, j),
            None => forall|j: int| i <= j ==> !matches_at(data, pat, j),
        },
    decreases data.len() + 1 - i,
{
    if i + pat.len() <= data.len() && !matches_at(data, pat, i) {
        lemma_scan_from(data, pat, i + 1);
    }
}

fn matches_at_exec(data: &[u8], pat: &[Option<u8>], i: usize) -> (r: bool)
    requires
        i + pat.len() <= data.len(),
    ensures
        r == matches_at(data@, pat@, i as int),
{
    let mut j: usize = 0;
    while j < pat.len()
        invariant
            j <= pat.len(),
            i + pat.len() <= data.len(),
            forall|k: int| #![trigger pat@[k]] 0 <= k < j ==> byte_fits(pat@[k], data@[i + k]),
        decreases pat.len() - j,
    {
        match pat[j] {
            Some(b) => {
                if data[i + j] != b {
                    return false;
                }
            },
            None => {},
        }
        j += 1;
    }
    true
}

/// The offset of the first match of `pat` in `data`; `None` for an empty
/// pattern, one longer than the data, or no match.
pub fn scan(data: &[u8], pat: &[Option<u8>]) -> (r: Option<usize>)
    ensures
        match r {
            Some(p) => first_match(data@, pat@) == Some(p as int),
            None => first_match(data@, pat@) is None,
        },
        r matches Some(p) ==> p < data.len(),
{
    let size = data.len();
    let n = pat.len();
    if n == 0 || size < n {
        return None;
    }
    let last = size - n;
    let mut i: usize = 0;
    while i <= last
        invariant
            last + n == size == data.len(),
            n == pat.len(),
            n > 0,
            i <= last + 1,
            scan_from(data@, pat@, 0) == scan_from(data@, pat@, i as int),
        decreases last + 1 - i,
    {
        if matches_at_exec(data, pat, i) {
            return Some(i);
        }
        if i == last {
            assert(scan_from(data@, pat@, i + 1) is None);
            return None;
        }
        i += 1;
    }
    None
}

/// Scan the whole image for the first match of `sig`. Returns its offset from
/// the image base.
pub fn pattern_scan(image: &[u8], sig: &str) -> (r: Option<usize>)
    ensures
        match r {
            Some(p) => find_signature(image@, sig@) == Some(p as int),
            None => find_signature(image@, sig@) is None,
        },
        r matches Some(p) ==> p < image.len(),
{
    let pat = parse_pattern(sig);
    scan(image, pat.as_slice())
}

/// The offsets from `i` on where `needle` occurs, in increasing order
/// (overlapping occurrences included).
pub open spec fn find_all_from(data: Seq<u8>, needle: Seq<u8>, i: int) -> Seq<int>
    decreases data.len() - i,
{
    if needle.len() == 0 || i < 0 || i + needle.len() > data.len() {
        Seq::empty()
    } else if data.subrange(i, i + needle.len()) == needle {
        seq![i] + find_all_from(data, needle, i + 1)
    } else {
        find_all_from(data, needle, i + 1)
    }
}

/// The offsets of `out` as integers.
pub open spec fn offsets(out: Seq<usize>) -> Seq<int> {
    out.map_values(|x: usize| x as int)
}

fn bytes_at(data: &[u8], needle: &[u8], i: usize) -> (r: bool)
    requires
        i + needle.len() <= data.len(),
    ensures
        r == (data@.subrange(i as int, i + needle.len()) == needle@),
{
    let mut j: usize = 0;
    while j < needle.len()
        invariant
            j <= needle.len(),
            i + needle.len() <= data.len(),
            forall|k: int| 0 <= k < j ==> data@[i + k] == needle@[k],
        decreases needle.len() - j,
    {
        if data[i + j] != needle[j] {
            assert(data@.subrange(i as int, i + needle.len())[j as int] != needle@[j as int]);
            return false;
        }
        j += 1;
    }
    assert(data@.subrange(i as int, i + needle.len()) == needle@);
    true
}

/// Find every occurrence of a literal byte sequence in the image: the
/// offsets where it occurs, in increasing order, overlapping ones included.
pub fn find_all(image: &[u8], needle: &[u8]) -> (out: Vec<usize>)
    ensures
        offsets(out@) == find_all_from(image@, needle@, 0),
{
    let size = image.len();
    let n = needle.len();
    let mut out: Vec<usize> = Vec::new();
    if n == 0 || size < n {
        return out;
    }
    let mut i: usize = 0;
    while i <= size - n
        invariant
            size == image.len(),
            n == needle.len(),
            0 < n <= size,
            find_all_from(image@, needle@, 0) == offsets(out@) + find_all_from(
                image@,
                needle@,
                i as int,
            ),
        decreases size - i,
    {
        if bytes_at(image, needle, i) {
            proof {
                assert(offsets(out@.push(i)) == offsets(out@) + seq![i as int]);
                assert(offsets(out@) + (seq![i as int] + find_all_from(image@, needle@, i + 1))
                    == (offsets(out@) + seq![i as int]) + find_all_from(image@, needle@, i + 1));
            }
            out.push(i);
        }
        i += 1;
    }
    assert(find_all_from(image@, needle@, i as int) == Seq::<int>::empty());
    assert(offsets(out@) + Seq::<int>::empty() == offsets(out@));
    out
}

/// `find_all` reports exactly the occurrences: every offset it gives holds
/// the needle, the offsets strictly increase, and every offset (from `i` on)
/// where the needle occurs is among them.
pub proof fn lemma_find_all_occurrences(data: Seq<u8>, needle: Seq<u8>, i: int)
    requires
        0 <= i,
    ensures
        ({
            let r = find_all_from(data, needle, i);
            &&& forall|k: int|
                0 <= k < r.len() ==> i <= #[trigger] r[k] && r[k] + needle.len() <= data.len()
                    && data.subrange(r[k], r[k] + needle.len()) == needle
            &&& forall|k: int| 0 <= k < r.len() - 1 ==> #[trigger] r[k] < r[k + 1]
            &&& forall|j: int|
                i <= j && j + needle.len() <= data.len() && needle.len() > 0 && data.subrange(
                    j,
                    j + needle.len(),
                ) == needle ==> #[trigger] r.contains(j)
        }),
    decreases data.len() - i,
{
    let r = find_all_from(data, needle, i);
    if needle.len() == 0 || i + needle.len() > data.len() {
    } else {
        lemma_find_all_occurrences(data, needle, i + 1);
        let rest = find_all_from(data, needle, i + 1);
        if data.subrange(i, i + needle.len()) == needle {
            assert(r == seq![i] + rest);
            assert forall|k: int| 0 <= k < r.len() implies i <= #[trigger] r[k] && r[k]
                + needle.len() <= data.len() && data.subrange(r[k], r[k] + needle.len())
                == needle by {
                if k > 0 {
                    assert(r[k] == rest[k - 1]);
                }
            }
            assert forall|k: int| 0 <= k < r.len() - 1 implies #[trigger] r[k] < r[k + 1] by {
                if k > 0 {
                    assert(r[k] == rest[k - 1]);
                }
                assert(r[k + 1] == rest[k]);
            }
            assert forall|j: int|
                i <= j && j + needle.len() <= data.len() && needle.len() > 0 && data.subrange(
                    j,
                    j + needle.len(),
                ) == needle implies #[trigger] r.contains(j) by {
                if j == i {
                    assert(r[0] == i);
                } else {
                    assert(rest.contains(j));
                    let k = choose|k: int| 0 <= k < rest.len() && rest[k] == j;
                    assert(r[k + 1] == j);
                }
            }
        } else {
            assert(r == rest);
            assert forall|j: int|
                i <= j && j + needle.len() <= data.len() && needle.len() > 0 && data.subrange(
                    j,
                    j + needle.len(),
                ) == needle implies #[trigger] r.contains(j) by {
                if j == i {
                } else {
                    assert(rest.contains(j));
                }
            }
        }
    }
}

// ---------------------------------------------------------------------
// PE header fields
// ---------------------------------------------------------------------

/// The little-endian unsigned value of the four bytes at `i`.
pub open spec fn le_u32(s: Seq<u8>, i: int) -> int {
    s[i] + 256 * s[i + 1] + 65536 * s[i + 2] + 16777216 * s[i + 3]
}

/// The little-endian unsigned value of the eight bytes at `i`.
pub open spec fn le_u64(s: Seq<u8>, i: int) -> int {
    le_u32(s, i) + 4294967296 * le_u32(s, i + 4)
}

/// Offset of the PE (NT) headers: the non-negative `e_lfanew` field at 0x3C.
pub open spec fn nt_offset(h: Seq<u8>) -> Option<int> {
    if h.len() >= 0x40 && h[0x3F] < 128 {
        Some(le_u32(h, 0x3C))
    } else {
        None
    }
}

/// A 32-bit field at `field` bytes into the NT headers, when the header holds it.
pub open spec fn nt_field_u32(h: Seq<u8>, field: int) -> Option<int> {
    match nt_offset(h) {
        Some(nt) => if nt + field + 4 <= h.len() {
            Some(le_u32(h, nt + field))
        } else {
            None
        },
        None => None,
    }
}

pub fn read_u32_le(s: &[u8], i: usize) -> (r: u32)
    requires
        i + 4 <= s.len(),
    ensures
        r == le_u32(s@, i as int),
{
    (s[i] as u32) + (s[i + 1] as u32) * 256 + (s[i + 2] as u32) * 65536 + (s[i + 3] as u32)
        * 16777216
}

pub fn read_u64_le(s: &[u8], i: usize) -> (r: u64)
    requires
        i + 8 <= s.len(),
    ensures
        r == le_u64(s@, i as int),
{
    let lo = read_u32_le(s, i);
    let hi = read_u32_le(s, i + 4);
    (lo as u64) + (hi as u64) * 4294967296
}

fn nt_field(header: &[u8], field: usize) -> (r: Option<u32>)
    requires
        field <= 0x100,
    ensures
        match r {
            Some(v) => nt_field_u32(header@, field as int) == Some(v as int),
            None => nt_field_u32(header@, field as int) is None,
        },
{
    if header.len() < 0x40 || header[0x3F] >= 128 {
        return None;
    }
    let nt = read_u32_le(header, 0x3C);
    assert(nt < 0x8000_0000);
    let nt = nt as usize;
    if nt > header.len() || header.len() - nt < field + 4 {
        return None;
    }
    Some(read_u32_le(header, nt + field))
}

/// Read `SizeOfImage` out of the PE optional header (PE32+): offset 0x50 of
/// the NT headers. `header` holds at least the image's first bytes.
pub fn size_of_image(header: &[u8]) -> (r: Option<usize>)
    ensures
        match r {
            Some(v) => nt_field_u32(header@, 0x50) == Some(v as int),
            None => nt_field_u32(header@, 0x50) is None,
        },
{
    match nt_field(header, 0x50) {
        Some(v) => Some(v as usize),
        None => None,
    }
}

/// Read `FileHeader.TimeDateStamp`: offset 8 of the NT headers.
pub fn module_timestamp(header: &[u8]) -> (r: Option<u32>)
    ensures
        match r {
            Some(v) => nt_field_u32(header@, 8) == Some(v as int),
            None => nt_field_u32(header@, 8) is None,
        },
{
    nt_field(header, 8)
}

// ---------------------------------------------------------------------
// Waiting for the code section to be decrypted
// ---------------------------------------------------------------------

/// How long to poll for a signature before scanning anyway.
pub const WAIT_TIMEOUT_MS: u32 = 60_000;

/// The pause between two polls.
pub const WAIT_STEP_MS: u32 = 250;

/// What to do after one poll for the ready signature.
#[derive(Clone, Copy, PartialEq, Eq, Structural, Debug)]
pub enum WaitStep {
    /// The signature is there: the code is decrypted.
    Ready,
    /// The timeout has passed without the signature.
    TimedOut,
    /// Sleep `WAIT_STEP_MS`, then poll again having waited `waited` ms.
    Sleep { waited: u32 },
}

/// One round of `wait_for_signature`: given the time waited so far and
/// whether the poll found the signature, decide to stop or to sleep again.
pub fn wait_step(waited: u32, found: bool) -> (r: WaitStep)
    ensures
        found ==> r is Ready,
        !found && waited >= WAIT_TIMEOUT_MS ==> r is TimedOut,
        !found && waited < WAIT_TIMEOUT_MS ==> r == (WaitStep::Sleep {
            waited: (waited + WAIT_STEP_MS) as u32,
        }),
{
    if found {
        WaitStep::Ready
    } else if waited >= WAIT_TIMEOUT_MS {
        WaitStep::TimedOut
    } else {
        WaitStep::Sleep { waited: waited + WAIT_STEP_MS }
    }
}

/// Polling from zero never waits past the timeout: every time reached by
/// sleeping is a multiple of the step and at most the timeout, so the poll
/// that finds no signature at the timeout ends the wait.
pub proof fn lemma_wait_bounded(waited: u32)
    requires
        waited % WAIT_STEP_MS == 0,
        waited < WAIT_TIMEOUT_MS,
    ensures
        waited + WAIT_STEP_MS <= WAIT_TIMEOUT_MS,
        (waited + WAIT_STEP_MS) % (WAIT_STEP_MS as int) == 0,
{
}

} // verus!
