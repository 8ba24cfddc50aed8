//! Dark Souls III: where each fix patches the game, the resolution-list entry,
//! the `GraphicsConfig.xml` rewrite (UTF-16LE text), and the borderless-window check.
use vstd::prelude::*;
use crate::config::Config;
use crate::memory::{find_all, find_all_from, find_signature, le_u64, offsets, pattern_scan, read_u64_le};
use crate::plan::{patch_or_missing, push_patch, Action, Fix};
use crate::text::{
    chars_eq, chars_of, find_sub, find_sub_exec, find_sub_from, find_sub_from_exec,
    lemma_find_sub_from, lemma_find_sub_from_is, lemma_find_sub_is, occurs_at, string_from_chars,
};

verus! {

/// Version-independent signature for the intro-screen load call. Also used as the
/// "code is decrypted / ready to scan" sentinel. The two `E8 rel32` calls are
/// wildcarded so it matches every DS3 version.
pub const READY_SIG: &'static str = "E8 ?? ?? ?? ?? 90 4D 8B C7 49 8B D4 48 8B C8 E8 ?? ?? ?? ??";

/// The first SprjFlipper global-pointer signature (the frame-limiter singleton).
/// Bytes 2-3 are wildcarded; the value read at the match is the pointer itself.
pub const SPRJFLIPPER_SIG_A: &'static str = "50 60 ?? ?? F4 7F 00 00 00 00 00 00 00 00 00 00";

/// The second SprjFlipper global-pointer signature.
pub const SPRJFLIPPER_SIG_B: &'static str = "50 60 ?? ?? F3 7F 00 00 00 00 00 00 00 00 00 00";

/// Offset of the target frame rate (a float) in the SprjFlipper.
pub const FLIPPER_FPS_OFFSET: u64 = 0x354;

/// Offset of the byte that enables the debug limiter in the SprjFlipper.
pub const FLIPPER_DEBUG_OFFSET: u64 = 0x358;

// ---------------------------------------------------------------------
// Code fixes
// ---------------------------------------------------------------------

/// The intro fix, when on: patch the intro-load calls at the ready signature.
pub open spec fn skip_intro_plan(img: Seq<u8>, cfg: Config) -> Seq<Action> {
    if cfg.ds3_skip_intro {
        patch_or_missing(img, READY_SIG@, Fix::SkipIntro, 0)
    } else {
        Seq::empty()
    }
}

/// Skip the startup logo movies.
pub fn skip_intro(image: &[u8], cfg: &Config) -> (r: Vec<Action>)
    requires
        image@.len() <= isize::MAX,
    ensures
        r@ == skip_intro_plan(image@, *cfg),
{
    let mut out: Vec<Action> = Vec::new();
    if cfg.ds3_skip_intro {
        push_patch(image, READY_SIG, Fix::SkipIntro, 0, &mut out);
        assert(out@ == Seq::<Action>::empty() + patch_or_missing(
            image@,
            READY_SIG@,
            Fix::SkipIntro,
            0,
        ));
    }
    out
}

/// Where the frame limiter is, if the unlock is on.
#[derive(Clone, Copy, PartialEq, Eq, Structural, Debug)]
pub enum Flipper {
    /// The unlock is off.
    Off,
    /// Neither signature gave a non-null pointer.
    NotFound,
    /// The SprjFlipper singleton is at `address`.
    At { address: u64 },
}

/// The SprjFlipper pointer stored at a signature's match: the eight bytes
/// there, unless null (or too close to the image end to hold eight bytes).
pub open spec fn flipper_at(img: Seq<u8>, sig: Seq<char>) -> Option<u64> {
    match find_signature(img, sig) {
        Some(p) => if p + 8 <= img.len() && le_u64(img, p) != 0 {
            Some(le_u64(img, p) as u64)
        } else {
            None
        },
        None => None,
    }
}

/// The first signature that gives a pointer wins.
pub open spec fn framerate_spec(img: Seq<u8>, cfg: Config) -> Flipper {
    if !cfg.ds3_unlock_fps {
        Flipper::Off
    } else {
        match flipper_at(img, SPRJFLIPPER_SIG_A@) {
            Some(a) => Flipper::At { address: a },
            None => match flipper_at(img, SPRJFLIPPER_SIG_B@) {
                Some(a) => Flipper::At { address: a },
                None => Flipper::NotFound,
            },
        }
    }
}

fn flipper_from(image: &[u8], sig: &str) -> (r: Option<u64>)
    ensures
        r == flipper_at(image@, sig@),
{
    match pattern_scan(image, sig) {
        Some(p) => {
            if image.len() - p < 8 {
                return None;
            }
            let v = read_u64_le(image, p);
            if v == 0 {
                None
            } else {
                Some(v)
            }
        },
        None => None,
    }
}

/// Find the frame-limiter singleton whose target frame rate the unlock sets.
pub fn framerate(image: &[u8], cfg: &Config) -> (r: Flipper)
    ensures
        r == framerate_spec(image@, *cfg),
{
    if !cfg.ds3_unlock_fps {
        return Flipper::Off;
    }
    match flipper_from(image, SPRJFLIPPER_SIG_A) {
        Some(a) => Flipper::At { address: a },
        None => match flipper_from(image, SPRJFLIPPER_SIG_B) {
            Some(a) => Flipper::At { address: a },
            None => Flipper::NotFound,
        },
    }
}

// ---------------------------------------------------------------------
// Resolution list
// ---------------------------------------------------------------------

/// A resolution-list entry: the width as a little-endian `u32`, then the
/// height as a little-endian `u16`.
pub open spec fn resolution_entry_spec(w: i32, h: i32) -> Seq<u8> {
    let wu = (w as u32) as int;
    let hu = (h as u16) as int;
    seq![
        (wu % 256) as u8,
        ((wu / 256) % 256) as u8,
        ((wu / 65536) % 256) as u8,
        (wu / 16777216) as u8,
        (hu % 256) as u8,
        (hu / 256) as u8,
    ]
}

/// The list entry the game ships for 1920x1080: `80 07 00 00 38 04`.
pub open spec fn standard_entry() -> Seq<u8> {
    seq![0x80u8, 0x07, 0x00, 0x00, 0x38, 0x04]
}

/// The bytes of a resolution-list entry for `w` by `h`.
pub fn resolution_entry(w: i32, h: i32) -> (r: Vec<u8>)
    ensures
        r@ == resolution_entry_spec(w, h),
        r@.len() == 6,
        r@[0] + 256 * r@[1] + 65536 * r@[2] + 16777216 * r@[3] == w as u32,
        r@[4] + 256 * r@[5] == h as u16,
{
    let wu = w as u32;
    let hu = h as u16;
    let mut r: Vec<u8> = Vec::new();
    r.push((wu % 256) as u8);
    r.push(((wu / 256) % 256) as u8);
    r.push(((wu / 65536) % 256) as u8);
    r.push((wu / 16777216) as u8);
    r.push((hu % 256) as u8);
    r.push((hu / 256) as u8);
    r
}

/// The new entry bytes and the offsets of the 1920x1080 entries they replace.
pub struct ResolutionPatch {
    pub bytes: Vec<u8>,
    pub offsets: Vec<usize>,
}

/// Replace the 1920x1080 resolution-list entry with the configured resolution,
/// so it becomes selectable in the in-game Settings (works in windowed too).
/// Nothing to do unless both configured dimensions are positive.
pub fn patch_resolution(image: &[u8], cfg: &Config) -> (r: Option<ResolutionPatch>)
    ensures
        (cfg.ds3_res_width <= 0 || cfg.ds3_res_height <= 0) ==> r is None,
        (cfg.ds3_res_width > 0 && cfg.ds3_res_height > 0) ==> (r matches Some(p) && p.bytes@
            == resolution_entry_spec(cfg.ds3_res_width, cfg.ds3_res_height) && offsets(
            p.offsets@,
        ) == find_all_from(image@, standard_entry(), 0)),
{
    let w = cfg.ds3_res_width;
    let h = cfg.ds3_res_height;
    if w <= 0 || h <= 0 {
        return None;
    }
    let to = resolution_entry(w, h);
    let standard = vec![0x80u8, 0x07, 0x00, 0x00, 0x38, 0x04];
    assert(standard@ == standard_entry());
    let hits = find_all(image, &standard);
    Some(ResolutionPatch { bytes: to, offsets: hits })
}

/// The resolution the borderless fix should add when none is configured: the
/// monitor's, if borderless is on, no width is set, and the monitor size is positive.
pub fn default_resolution_to_monitor(cfg: &mut Config, monitor_w: i32, monitor_h: i32) -> (r:
    bool)
    ensures
        r == (old(cfg).ds3_borderless && old(cfg).ds3_res_width <= 0 && monitor_w > 0 && monitor_h
            > 0),
        r ==> *final(cfg) == (Config {
            ds3_res_width: monitor_w,
            ds3_res_height: monitor_h,
            ..*old(cfg)
        }),
        !r ==> *final(cfg) == *old(cfg),
{
    if cfg.ds3_borderless && cfg.ds3_res_width <= 0 && monitor_w > 0 && monitor_h > 0 {
        cfg.ds3_res_width = monitor_w;
        cfg.ds3_res_height = monitor_h;
        true
    } else {
        false
    }
}

// ---------------------------------------------------------------------
// UTF-16LE text
// ---------------------------------------------------------------------

pub open spec fn is_surrogate(u: u16) -> bool {
    0xD800 <= u <= 0xDFFF
}

pub open spec fn is_high_surrogate(u: u16) -> bool {
    0xD800 <= u <= 0xDBFF
}

pub open spec fn is_low_surrogate(u: u16) -> bool {
    0xDC00 <= u <= 0xDFFF
}

/// The scalar a surrogate pair encodes.
pub open spec fn pair_scalar(hi: u16, lo: u16) -> int {
    0x10000 + (hi - 0xD800) * 1024 + (lo - 0xDC00)
}

/// `String::from_utf16_lossy`: decode UTF-16, putting U+FFFD in place of
/// each unpaired surrogate.
pub open spec fn decode_utf16(u: Seq<u16>) -> Seq<char>
    decreases u.len(),
{
    if u.len() == 0 {
        Seq::empty()
    } else if !is_surrogate(u[0]) {
        seq![u[0] as char] + decode_utf16(u.drop_first())
    } else if is_high_surrogate(u[0]) && u.len() >= 2 && is_low_surrogate(u[1]) {
        seq![pair_scalar(u[0], u[1]) as char] + decode_utf16(u.skip(2))
    } else {
        seq!['\u{FFFD}'] + decode_utf16(u.drop_first())
    }
}

/// `char::encode_utf16`: one unit below U+10000, else a surrogate pair.
pub open spec fn encode_char_utf16(c: char) -> Seq<u16> {
    let v = c as u32;
    if v < 0x10000 {
        seq![v as u16]
    } else {
        let w = v - 0x10000;
        seq![(0xD800 + w / 1024) as u16, (0xDC00 + w % 1024) as u16]
    }
}

/// `str::encode_utf16`.
pub open spec fn encode_utf16(s: Seq<char>) -> Seq<u16>
    decreases s.len(),
{
    if s.len() == 0 {
        Seq::empty()
    } else {
        encode_char_utf16(s[0]) + encode_utf16(s.drop_first())
    }
}

/// Little-endian byte pairs to 16-bit units (`chunks_exact(2)`: an odd last byte is dropped).
pub open spec fn units_of_le(b: Seq<u8>) -> Seq<u16> {
    Seq::new(b.len() / 2, |i: int| (b[2 * i] + 256 * b[2 * i + 1]) as u16)
}

/// 16-bit units to little-endian byte pairs.
pub open spec fn le_of_units(u: Seq<u16>) -> Seq<u8> {
    Seq::new(
        2 * u.len(),
        |i: int|
            if i % 2 == 0 {
                (u[i / 2] % 256) as u8
            } else {
                (u[i / 2] / 256) as u8
            },
    )
}

/// The length of a leading `FF FE` byte-order mark.
pub open spec fn bom_len(raw: Seq<u8>) -> int {
    if raw.len() >= 2 && raw[0] == 0xFF && raw[1] == 0xFE {
        2
    } else {
        0
    }
}

/// The text of a UTF-16LE file, without its byte-order mark.
pub open spec fn decode_utf16le_spec(raw: Seq<u8>) -> Seq<char> {
    decode_utf16(units_of_le(raw.skip(bom_len(raw))))
}

/// The UTF-16LE bytes of a text, after a byte-order mark.
pub open spec fn encode_utf16le_spec(s: Seq<char>) -> Seq<u8> {
    seq![0xFFu8, 0xFE] + le_of_units(encode_utf16(s))
}

/// std's `char::from_u32`, which gives the character of a Unicode scalar
/// value (any value up to U+10FFFF that is not a surrogate).
#[verifier::external_body]
fn char_from_scalar(u: u32) -> (c: char)
    requires
        u <= 0x10FFFF,
        !(0xD800 <= u <= 0xDFFF),
    ensures
        c == u as char,
{
    char::from_u32(u).unwrap()
}

fn units_from_le(b: &[u8], start: usize) -> (u: Vec<u16>)
    requires
        start <= b.len(),
    ensures
        u@ == units_of_le(b@.skip(start as int)),
{
    let ghost rest = b@.skip(start as int);
    let n = (b.len() - start) / 2;
    let mut u: Vec<u16> = Vec::new();
    let mut i: usize = 0;
    while i < n
        invariant
            start <= b.len(),
            n == (b.len() - start) / 2,
            rest == b@.skip(start as int),
            i <= n,
            u@ == units_of_le(rest).take(i as int),
        decreases n - i,
    {
        let lo = b[start + 2 * i] as u16;
        let hi = b[start + 2 * i + 1] as u16;
        assert(rest[2 * i] == b@[start + 2 * i]);
        assert(rest[2 * i + 1] == b@[start + 2 * i + 1]);
        u.push(lo + 256 * hi);
        assert(units_of_le(rest).take(i + 1) == units_of_le(rest).take(i as int).push(
            units_of_le(rest)[i as int],
        ));
        i += 1;
    }
    assert(units_of_le(rest).take(n as int) == units_of_le(rest));
    u
}

fn decode_units(u: &[u16]) -> (out: Vec<char>)
    ensures
        out@ == decode_utf16(u@),
{
    let mut out: Vec<char> = Vec::new();
    let mut i: usize = 0;
    assert(u@.skip(0) == u@);
    while i < u.len()
        invariant
            i <= u.len(),
            out@ + decode_utf16(u@.skip(i as int)) == decode_utf16(u@),
        decreases u.len() - i,
    {
        let ghost rest = u@.skip(i as int);
        let ghost before = out@;
        let x = u[i];
        assert(rest[0] == x);
        if x < 0xD800 || x > 0xDFFF {
            out.push(char_from_scalar(x as u32));
            assert(rest.drop_first() == u@.skip(i + 1));
            assert(out@ + decode_utf16(u@.skip(i + 1)) == before + decode_utf16(rest));
            i += 1;
        } else if x <= 0xDBFF && i + 1 < u.len() && u[i + 1] >= 0xDC00 && u[i + 1] <= 0xDFFF {
            let y = u[i + 1];
            assert(rest[1] == y);
            let v: u32 = 0x10000 + ((x as u32) - 0xD800) * 1024 + ((y as u32) - 0xDC00);
            out.push(char_from_scalar(v));
            assert(rest.skip(2) == u@.skip(i + 2));
            assert(out@ + decode_utf16(u@.skip(i + 2)) == before + decode_utf16(rest));
            i += 2;
        } else {
            out.push('\u{FFFD}');
            assert(rest.drop_first() == u@.skip(i + 1));
            assert(out@ + decode_utf16(u@.skip(i + 1)) == before + decode_utf16(rest));
            i += 1;
        }
    }
    assert(u@.skip(i as int) == Seq::<u16>::empty());
    assert(out@ + Seq::<char>::empty() == out@);
    out
}

fn decode_chars(raw: &[u8]) -> (out: Vec<char>)
    ensures
        out@ == decode_utf16le_spec(raw@),
{
    let start: usize = if raw.len() >= 2 && raw[0] == 0xFF && raw[1] == 0xFE {
        2
    } else {
        0
    };
    let units = units_from_le(raw, start);
    decode_units(&units)
}

/// Decode a UTF-16LE file (with or without its byte-order mark) to text,
/// replacing unpaired surrogates with U+FFFD.
pub fn decode_utf16le(raw: &[u8]) -> (s: String)
    ensures
        s@ == decode_utf16le_spec(raw@),
{
    let v = decode_chars(raw);
    string_from_chars(&v)
}

proof fn lemma_encode_push(s: Seq<char>, c: char)
    ensures
        encode_utf16(s.push(c)) == encode_utf16(s) + encode_char_utf16(c),
    decreases s.len(),
{
    if s.len() == 0 {
        assert(s.push(c).drop_first() == Seq::<char>::empty());
        assert(encode_utf16(s.push(c)) == encode_char_utf16(c) + encode_utf16(Seq::<char>::empty()));
    } else {
        assert(s.push(c).drop_first() == s.drop_first().push(c));
        lemma_encode_push(s.drop_first(), c);
        assert(encode_utf16(s.push(c)) == encode_char_utf16(s[0]) + encode_utf16(
            s.drop_first().push(c),
        ));
    }
}

fn encode_units(s: &[char]) -> (u: Vec<u16>)
    ensures
        u@ == encode_utf16(s@),
{
    let mut u: Vec<u16> = Vec::new();
    let mut i: usize = 0;
    assert(s@.take(0) == Seq::<char>::empty());
    while i < s.len()
        invariant
            i <= s.len(),
            u@ == encode_utf16(s@.take(i as int)),
        decreases s.len() - i,
    {
        let c = s[i];
        proof {
            assert(s@.take(i + 1) == s@.take(i as int).push(c));
            lemma_encode_push(s@.take(i as int), c);
        }
        let v = c as u32;
        if v < 0x10000 {
            u.push(v as u16);
        } else {
            let w = v - 0x10000;
            u.push((0xD800 + w / 1024) as u16);
            u.push((0xDC00 + w % 1024) as u16);
        }
        i += 1;
    }
    assert(s@.take(s.len() as int) == s@);
    u
}

fn encode_chars(s: &[char]) -> (out: Vec<u8>)
    ensures
        out@ == encode_utf16le_spec(s@),
{
    let units = encode_units(s);
    let mut out: Vec<u8> = vec![0xFFu8, 0xFE];
    let mut i: usize = 0;
    while i < units.len()
        invariant
            i <= units.len(),
            units@ == encode_utf16(s@),
            out@ == seq![0xFFu8, 0xFE] + le_of_units(units@.take(i as int)),
        decreases units.len() - i,
    {
        let x = units[i];
        out.push((x % 256) as u8);
        out.push((x / 256) as u8);
        assert(le_of_units(units@.take(i + 1)) == le_of_units(units@.take(i as int)) + seq![
            (x % 256) as u8,
            (x / 256) as u8,
        ]);
        i += 1;
    }
    assert(units@.take(units.len() as int) == units@);
    out
}

/// Encode text as UTF-16LE with a byte-order mark.
pub fn encode_utf16le(s: &str) -> (out: Vec<u8>)
    ensures
        out@ == encode_utf16le_spec(s@),
{
    let c = chars_of(s);
    encode_chars(&c)
}

// ---------------------------------------------------------------------
// GraphicsConfig.xml
// ---------------------------------------------------------------------

/// `<tag>`.
pub open spec fn open_tag(tag: Seq<char>) -> Seq<char> {
    seq!['<'] + tag + seq!['>']
}

/// `</tag>`.
pub open spec fn close_tag(tag: Seq<char>) -> Seq<char> {
    seq!['<', '/'] + tag + seq!['>']
}

/// Replace the text between the first `<tag>` and the first `</tag>` after
/// it with `val`; without such a pair the text is unchanged.
pub open spec fn set_tag(xml: Seq<char>, tag: Seq<char>, val: Seq<char>) -> Seq<char> {
    match find_sub(xml, open_tag(tag)) {
        Some(s) => {
            let start = s + open_tag(tag).len();
            match find_sub_from(xml, close_tag(tag), start) {
                Some(e) => xml.take(start) + val + xml.skip(e),
                None => xml,
            }
        },
        None => xml,
    }
}

fn tag_chars(tag: &[char], closing: bool) -> (r: Vec<char>)
    ensures
        r@ == (if closing {
            close_tag(tag@)
        } else {
            open_tag(tag@)
        }),
{
    let mut r: Vec<char> = Vec::new();
    r.push('<');
    if closing {
        r.push('/');
    }
    let mut i: usize = 0;
    while i < tag.len()
        invariant
            i <= tag.len(),
            r@ == (if closing {
                seq!['<', '/']
            } else {
                seq!['<']
            }) + tag@.take(i as int),
        decreases tag.len() - i,
    {
        r.push(tag[i]);
        assert(tag@.take(i + 1) == tag@.take(i as int).push(tag@[i as int]));
        i += 1;
    }
    assert(tag@.take(tag.len() as int) == tag@);
    r.push('>');
    r
}

fn set_tag_chars(xml: &[char], tag: &[char], val: &[char]) -> (r: Vec<char>)
    ensures
        r@ == set_tag(xml@, tag@, val@),
{
    let open = tag_chars(tag, false);
    let close = tag_chars(tag, true);
    let s = match find_sub_exec(xml, &open) {
        Some(s) => s,
        None => return crate::text::copy_range(xml, 0, xml.len()),
    };
    proof {
        lemma_find_sub_from(xml@, open@, 0);
        assert(occurs_at(xml@, open@, s as int));
    }
    assert(s + open.len() <= xml.len());
    let start = s + open.len();
    let e = match find_sub_from_exec(xml, &close, start) {
        Some(e) => e,
        None => return crate::text::copy_range(xml, 0, xml.len()),
    };
    proof {
        lemma_find_sub_from(xml@, close@, start as int);
    }
    let mut r = crate::text::copy_range(xml, 0, start);
    let mut i: usize = 0;
    let ghost prefix = r@;
    while i < val.len()
        invariant
            i <= val.len(),
            r@ == prefix + val@.take(i as int),
        decreases val.len() - i,
    {
        r.push(val[i]);
        assert(val@.take(i + 1) == val@.take(i as int).push(val@[i as int]));
        i += 1;
    }
    assert(val@.take(val.len() as int) == val@);
    let mut j: usize = e;
    let ghost mid = r@;
    while j < xml.len()
        invariant
            e <= j <= xml.len(),
            r@ == mid + xml@.subrange(e as int, j as int),
        decreases xml.len() - j,
    {
        r.push(xml[j]);
        assert(xml@.subrange(e as int, j + 1) == xml@.subrange(e as int, j as int).push(
            xml@[j as int],
        ));
        j += 1;
    }
    assert(xml@.subrange(e as int, xml.len() as int) == xml@.skip(e as int));
    assert(prefix == xml@.take(start as int));
    r
}

/// Replace the inner text of the first `<tag>...</tag>` with `val`: the
/// text between the first `<tag>` and the first `</tag>` after it.
pub fn set_xml_tag(xml: &str, tag: &str, val: &str) -> (r: String)
    ensures
        r@ == set_tag(xml@, tag@, val@),
{
    let x = chars_of(xml);
    let t = chars_of(tag);
    let v = chars_of(val);
    let r = set_tag_chars(&x, &t, &v);
    string_from_chars(&r)
}

/// The decimal digits of `n`.
pub open spec fn digits(n: nat) -> Seq<char>
    decreases n,
{
    if n < 10 {
        seq![((48 + n) as u8) as char]
    } else {
        digits(n / 10).push(((48 + n % 10) as u8) as char)
    }
}

/// `i32::to_string`.
pub open spec fn decimal(n: int) -> Seq<char> {
    if n < 0 {
        seq!['-'] + digits((-n) as nat)
    } else {
        digits(n as nat)
    }
}

fn push_digits(n: u64, out: &mut Vec<char>)
    ensures
        final(out)@ == old(out)@ + digits(n as nat),
    decreases n,
{
    if n >= 10 {
        push_digits(n / 10, out);
    }
    let d: u8 = (n % 10) as u8;
    out.push((48 + d) as char);
}

fn decimal_chars(n: i32) -> (r: Vec<char>)
    ensures
        r@ == decimal(n as int),
{
    let mut r: Vec<char> = Vec::new();
    if n < 0 {
        r.push('-');
        let m: i64 = 0 - (n as i64);
        push_digits(m as u64, &mut r);
    } else {
        push_digits(n as u64, &mut r);
    }
    r
}

/// The configuration text with windowed mode at `w` by `h`.
pub open spec fn windowed_xml(xml: Seq<char>, w: i32, h: i32) -> Seq<char> {
    set_tag(
        set_tag(
            set_tag(xml, "ScreenMode"@, "WINDOW"@),
            "Resolution-WindowScreenWidth"@,
            decimal(w as int),
        ),
        "Resolution-WindowScreenHeight"@,
        decimal(h as int),
    )
}

/// The new file contents, or `None` when the file already says so.
pub open spec fn windowed_config_spec(raw: Seq<u8>, w: i32, h: i32) -> Option<Seq<u8>> {
    let xml = decode_utf16le_spec(raw);
    let out = windowed_xml(xml, w, h);
    if out == xml {
        None
    } else {
        Some(encode_utf16le_spec(out))
    }
}

/// The resolution the windowed config should hold: with borderless on and
/// a positive configured resolution.
pub fn windowed_target(cfg: &Config) -> (r: Option<(i32, i32)>)
    ensures
        r == (if cfg.ds3_borderless && cfg.ds3_res_width > 0 && cfg.ds3_res_height > 0 {
            Some((cfg.ds3_res_width, cfg.ds3_res_height))
        } else {
            None
        }),
{
    if !cfg.ds3_borderless {
        return None;
    }
    let w = cfg.ds3_res_width;
    let h = cfg.ds3_res_height;
    if w <= 0 || h <= 0 {
        return None;
    }
    Some((w, h))
}

/// Rewrite `GraphicsConfig.xml` (UTF-16LE) so that the game starts windowed
/// at `w` by `h`: set `ScreenMode`, `Resolution-WindowScreenWidth` and
/// `Resolution-WindowScreenHeight`. `None` when nothing changes.
pub fn windowed_config(raw: &[u8], w: i32, h: i32) -> (r: Option<Vec<u8>>)
    ensures
        match r {
            Some(b) => windowed_config_spec(raw@, w, h) == Some(b@),
            None => windowed_config_spec(raw@, w, h) is None,
        },
{
    let xml = decode_chars(raw);
    let mode_tag = chars_of("ScreenMode");
    let mode = chars_of("WINDOW");
    let width_tag = chars_of("Resolution-WindowScreenWidth");
    let height_tag = chars_of("Resolution-WindowScreenHeight");
    let wd = decimal_chars(w);
    let hd = decimal_chars(h);
    let out = set_tag_chars(&xml, &mode_tag, &mode);
    let out = set_tag_chars(&out, &width_tag, &wd);
    let out = set_tag_chars(&out, &height_tag, &hd);
    if chars_eq(&out, &xml) {
        None
    } else {
        Some(encode_chars(&out))
    }
}

// ---------------------------------------------------------------------
// Borderless window
// ---------------------------------------------------------------------

/// A window rectangle in screen coordinates.
#[derive(Clone, Copy, PartialEq, Eq, Structural, Debug)]
pub struct WindowRect {
    pub left: i32,
    pub top: i32,
    pub right: i32,
    pub bottom: i32,
}

/// Whether the focused game window must be made a full-monitor borderless
/// popup again: it has a border style bit (`border_mask`), or its rectangle
/// (when it could be read) is not exactly the monitor `dw` by `dh`.
pub fn window_needs_reset(
    style: i32,
    border_mask: i32,
    rect: Option<WindowRect>,
    dw: i32,
    dh: i32,
) -> (r: bool)
    ensures
        r == ((style & border_mask) != 0 || !(rect matches Some(w) && (w.left == 0 && w.top == 0
            && w.right == dw && w.bottom == dh))),
{
    let bordered = (style & border_mask) != 0;
    let full = match rect {
        Some(w) => w.left == 0 && w.top == 0 && w.right == dw && w.bottom == dh,
        None => false,
    };
    bordered || !full
}

/// The window-style bits of a border: `WS_CAPTION | WS_THICKFRAME`.
pub const BORDER_STYLE_MASK: i32 = 0x00C4_0000;

/// How many times to look for the game window.
pub const FIND_WINDOW_TRIES: u32 = 200;

/// The pause after each search that does not find the window.
pub const FIND_WINDOW_RETRY_MS: u32 = 100;

/// The pause between two passes over the found window.
pub const BORDERLESS_PASS_MS: u32 = 300;

/// `window_needs_reset` with the border bits.
pub open spec fn needs_reset_spec(style: i32, rect: Option<WindowRect>, dw: i32, dh: i32) -> bool {
    (style & BORDER_STYLE_MASK) != 0 || !(rect matches Some(w) && (w.left == 0 && w.top == 0
        && w.right == dw && w.bottom == dh))
}

/// Where the borderless enforcer is.
#[derive(Clone, Copy, PartialEq, Eq, Structural, Debug)]
pub enum BorderlessPhase {
    /// Looking for the game window, with `tries_left` searches to go.
    Finding { tries_left: u32 },
    /// Keeping the window a full-monitor popup of `dw` by `dh`.
    Enforcing { dw: i32, dh: i32 },
    /// Finished: disabled, the window never appeared, or it was closed.
    Done,
}

/// What the caller observed.
#[derive(Clone, Copy, PartialEq, Eq, Structural, Debug)]
pub enum BorderlessEvent {
    /// A search for the game window, and (when found) the monitor size.
    Search { found: bool, dw: i32, dh: i32 },
    /// One pass over the found window: whether it still exists, whether it
    /// has the focus, its style and (when it could be read) its rectangle.
    Pass { alive: bool, focused: bool, style: i32, rect: Option<WindowRect> },
}

/// What the caller does next.
#[derive(Clone, Copy, PartialEq, Eq, Structural, Debug)]
pub enum BorderlessAction {
    /// Sleep `ms`, then search again.
    SleepThenSearch { ms: u32 },
    /// Sleep `ms`, then report that the window was not found, and finish.
    NotFound { ms: u32 },
    /// Report that the window is kept borderless at `dw` by `dh`, then pass at once.
    Enforce { dw: i32, dh: i32 },
    /// Make the window a `dw` by `dh` popup at the top-left, sleep `ms`, then pass again.
    Reset { dw: i32, dh: i32, ms: u32 },
    /// Sleep `ms`, then pass again.
    SleepThenPass { ms: u32 },
    /// Finish.
    Stop,
}

/// The first phase: searching, when the fix is on.
pub open spec fn borderless_start_spec(enabled: bool) -> BorderlessPhase {
    if enabled {
        BorderlessPhase::Finding { tries_left: FIND_WINDOW_TRIES }
    } else {
        BorderlessPhase::Done
    }
}

/// The next phase and action after an event.
pub open spec fn borderless_step_spec(phase: BorderlessPhase, ev: BorderlessEvent) -> (
    BorderlessPhase,
    BorderlessAction,
) {
    match (phase, ev) {
        (BorderlessPhase::Finding { tries_left }, BorderlessEvent::Search { found, dw, dh }) => {
            if found {
                (BorderlessPhase::Enforcing { dw, dh }, BorderlessAction::Enforce { dw, dh })
            } else if tries_left > 1 {
                (
                    BorderlessPhase::Finding { tries_left: (tries_left - 1) as u32 },
                    BorderlessAction::SleepThenSearch { ms: FIND_WINDOW_RETRY_MS },
                )
            } else {
                (BorderlessPhase::Done, BorderlessAction::NotFound { ms: FIND_WINDOW_RETRY_MS })
            }
        },
        (
            BorderlessPhase::Enforcing { dw, dh },
            BorderlessEvent::Pass { alive, focused, style, rect },
        ) => {
            if !alive {
                (BorderlessPhase::Done, BorderlessAction::Stop)
            } else if focused && needs_reset_spec(style, rect, dw, dh) {
                (phase, BorderlessAction::Reset { dw, dh, ms: BORDERLESS_PASS_MS })
            } else {
                (phase, BorderlessAction::SleepThenPass { ms: BORDERLESS_PASS_MS })
            }
        },
        _ => (BorderlessPhase::Done, BorderlessAction::Stop),
    }
}

/// The phase `borderless` starts in: searching when the fix is on, else done.
pub fn borderless_start(enabled: bool) -> (r: BorderlessPhase)
    ensures
        r == borderless_start_spec(enabled),
{
    if enabled {
        BorderlessPhase::Finding { tries_left: FIND_WINDOW_TRIES }
    } else {
        BorderlessPhase::Done
    }
}

/// One decision of the borderless enforcer. Search for the window up to
/// `FIND_WINDOW_TRIES` times, pausing between searches; once found, pass over
/// it every `BORDERLESS_PASS_MS`, reset it to a full-monitor popup only while
/// it has the focus and has a border or is not exactly the monitor's size
/// (so alt-tabbing away is never fought), and stop when it is gone. Because
/// the game re-creates its window on a resolution change, the passes go on
/// for as long as the window lives.
pub fn borderless_step(phase: BorderlessPhase, ev: BorderlessEvent) -> (r: (
    BorderlessPhase,
    BorderlessAction,
))
    ensures
        r == borderless_step_spec(phase, ev),
{
    match (phase, ev) {
        (BorderlessPhase::Finding { tries_left }, BorderlessEvent::Search { found, dw, dh }) => {
            if found {
                (BorderlessPhase::Enforcing { dw, dh }, BorderlessAction::Enforce { dw, dh })
            } else if tries_left > 1 {
                (
                    BorderlessPhase::Finding { tries_left: tries_left - 1 },
                    BorderlessAction::SleepThenSearch { ms: FIND_WINDOW_RETRY_MS },
                )
            } else {
                (BorderlessPhase::Done, BorderlessAction::NotFound { ms: FIND_WINDOW_RETRY_MS })
            }
        },
        (
            BorderlessPhase::Enforcing { dw, dh },
            BorderlessEvent::Pass { alive, focused, style, rect },
        ) => {
            if !alive {
                (BorderlessPhase::Done, BorderlessAction::Stop)
            } else if focused && window_needs_reset(style, BORDER_STYLE_MASK, rect, dw, dh) {
                (phase, BorderlessAction::Reset { dw, dh, ms: BORDERLESS_PASS_MS })
            } else {
                (phase, BorderlessAction::SleepThenPass { ms: BORDERLESS_PASS_MS })
            }
        },
        _ => (BorderlessPhase::Done, BorderlessAction::Stop),
    }
}

/// The number of searches made while feeding `evs` to the enforcer from `phase`.
pub open spec fn search_count(phase: BorderlessPhase, evs: Seq<BorderlessEvent>) -> nat
    decreases evs.len(),
{
    if evs.len() == 0 {
        0
    } else {
        let next = borderless_step_spec(phase, evs[0]).0;
        let here: nat = if phase is Finding && evs[0] is Search {
            1
        } else {
            0
        };
        here + search_count(next, evs.drop_first())
    }
}

/// From a search phase with `n` tries left, at most `n` searches are made.
pub proof fn lemma_search_count_bounded(phase: BorderlessPhase, evs: Seq<BorderlessEvent>)
    ensures
        search_count(phase, evs) <= match phase {
            BorderlessPhase::Finding { tries_left } => if tries_left == 0 {
                1
            } else {
                tries_left as int
            },
            _ => 0,
        },
    decreases evs.len(),
{
    if evs.len() > 0 {
        let next = borderless_step_spec(phase, evs[0]).0;
        lemma_search_count_bounded(next, evs.drop_first());
    }
}

/// The enforcer searches for the window at most `FIND_WINDOW_TRIES` times,
/// whatever it observes, and not at all when the fix is off.
pub proof fn lemma_search_bounded(enabled: bool, evs: Seq<BorderlessEvent>)
    ensures
        search_count(borderless_start_spec(enabled), evs) <= FIND_WINDOW_TRIES,
        !enabled ==> search_count(borderless_start_spec(enabled), evs) == 0,
{
    lemma_search_count_bounded(borderless_start_spec(enabled), evs);
}

/// The window is reset only during the passes, only while it is alive and
/// focused, and only when it has a border or is not exactly the monitor's size.
pub proof fn lemma_reset_only_when_needed(phase: BorderlessPhase, ev: BorderlessEvent)
    ensures
        borderless_step_spec(phase, ev).1 is Reset ==> (phase matches BorderlessPhase::Enforcing {
            dw,
            dh,
        } && (ev matches BorderlessEvent::Pass { alive, focused, style, rect } && (alive
            && focused && needs_reset_spec(style, rect, dw, dh)))),
{
}

/// While the window is kept borderless, the enforcer stops exactly when the
/// window is gone, and then is done.
pub proof fn lemma_stop_when_gone(phase: BorderlessPhase, ev: BorderlessEvent)
    requires
        phase is Enforcing,
        ev is Pass,
    ensures
        (borderless_step_spec(phase, ev).1 is Stop) <==> !(ev->alive),
        !(ev->alive) ==> borderless_step_spec(phase, ev).0 is Done,
        ev->alive ==> borderless_step_spec(phase, ev).0 == phase,
{
}

/// A pass over the found window: a closed window ends the enforcer; a
/// focused window whose style has a caption or sizing-frame bit (0x00C4_0000),
/// or whose rectangle is unknown or not exactly (0, 0)-(dw, dh), is reset to a
/// dw by dh popup; anything else (including every unfocused window) is left
/// alone. Either way the next pass comes 300 ms later.
pub proof fn lemma_borderless_pass(
    dw: i32,
    dh: i32,
    alive: bool,
    focused: bool,
    style: i32,
    rect: Option<WindowRect>,
)
    ensures
        ({
            let phase = BorderlessPhase::Enforcing { dw, dh };
            let full = rect == Some(WindowRect { left: 0, top: 0, right: dw, bottom: dh });
            let bordered = style & 0x00C4_0000i32 != 0;
            borderless_step_spec(phase, BorderlessEvent::Pass { alive, focused, style, rect }) == (
            if !alive {
                (BorderlessPhase::Done, BorderlessAction::Stop)
            } else if focused && (bordered || !full) {
                (phase, BorderlessAction::Reset { dw, dh, ms: 300 })
            } else {
                (phase, BorderlessAction::SleepThenPass { ms: 300 })
            })
        }),
{
}

/// The search for the window: the enforcer starts with 200 searches when the
/// fix is on and is done at once when it is off; a found window is enforced at
/// the monitor size reported with it; otherwise the search is repeated after
/// 100 ms while tries are left, and the last failed try reports the window
/// missing after 100 ms and ends.
pub proof fn lemma_borderless_search(enabled: bool, tries_left: u32, found: bool, dw: i32, dh: i32)
    ensures
        borderless_start_spec(enabled) == (if enabled {
            BorderlessPhase::Finding { tries_left: 200 }
        } else {
            BorderlessPhase::Done
        }),
        borderless_step_spec(
            BorderlessPhase::Finding { tries_left },
            BorderlessEvent::Search { found, dw, dh },
        ) == (if found {
            (BorderlessPhase::Enforcing { dw, dh }, BorderlessAction::Enforce { dw, dh })
        } else if tries_left >= 2 {
            (
                BorderlessPhase::Finding { tries_left: (tries_left - 1) as u32 },
                BorderlessAction::SleepThenSearch { ms: 100 },
            )
        } else {
            (BorderlessPhase::Done, BorderlessAction::NotFound { ms: 100 })
        }),
{
}

/// An event that does not belong to the phase (a pass while searching, a
/// search while enforcing, anything once done) ends the enforcer.
pub proof fn lemma_borderless_out_of_turn(phase: BorderlessPhase, ev: BorderlessEvent)
    requires
        !(phase is Finding && ev is Search),
        !(phase is Enforcing && ev is Pass),
    ensures
        borderless_step_spec(phase, ev) == (BorderlessPhase::Done, BorderlessAction::Stop),
{
}

proof fn lemma_units_of_le_of_units(u: Seq<u16>)
    ensures
        units_of_le(le_of_units(u)) == u,
{
    let b = le_of_units(u);
    assert forall|i: int| 0 <= i < u.len() implies units_of_le(b)[i] == u[i] by {
        assert((2 * i) % 2 == 0 && (2 * i) / 2 == i);
        assert((2 * i + 1) % 2 == 1 && (2 * i + 1) / 2 == i);
        assert(b[2 * i] == (u[i] % 256) as u8);
        assert(b[2 * i + 1] == (u[i] / 256) as u8);
    }
    assert(units_of_le(b) =~= u);
}

proof fn lemma_decode_encode_utf16(s: Seq<char>)
    ensures
        decode_utf16(encode_utf16(s)) == s,
    decreases s.len(),
{
    if s.len() > 0 {
        let c = s[0];
        let v = c as u32;
        vstd::utf8::char_is_scalar(c);
        vstd::utf8::char_u32_cast(c, v);
        let rest = encode_utf16(s.drop_first());
        lemma_decode_encode_utf16(s.drop_first());
        let u = encode_char_utf16(c) + rest;
        assert(encode_utf16(s) == u);
        if v < 0x10000 {
            assert(u[0] == v as u16);
            assert(u.drop_first() == rest);
            assert(!is_surrogate(u[0]));
            assert((v as u16) as char == c);
        } else {
            let w = v - 0x10000;
            assert(u[0] == (0xD800 + w / 1024) as u16);
            assert(u[1] == (0xDC00 + w % 1024) as u16);
            assert(u.skip(2) == rest);
            assert(pair_scalar(u[0], u[1]) == v);
            assert((v as int) as char == c);
        }
        assert(seq![c] + s.drop_first() == s);
    }
}

/// Text written with `encode_utf16le` reads back unchanged with
/// `decode_utf16le`: the rewritten `GraphicsConfig.xml` holds exactly the
/// text it was given.
pub proof fn lemma_utf16le_roundtrip(s: Seq<char>)
    ensures
        decode_utf16le_spec(encode_utf16le_spec(s)) == s,
{
    let b = encode_utf16le_spec(s);
    let u = encode_utf16(s);
    assert(bom_len(b) == 2);
    assert(b.skip(2) == le_of_units(u));
    lemma_units_of_le_of_units(u);
    lemma_decode_encode_utf16(s);
}

/// `set_tag` replaces something: the first `<t>` is found, and a `</t>` after it.
pub open spec fn tag_applies(x: Seq<char>, t: Seq<char>) -> bool {
    &&& find_sub(x, open_tag(t)) is Some
    &&& find_sub_from(x, close_tag(t), find_sub(x, open_tag(t))->0 + open_tag(t).len()) is Some
}

/// Where the first `<t>` begins.
pub open spec fn elem_start(x: Seq<char>, t: Seq<char>) -> int {
    find_sub(x, open_tag(t))->0
}

/// Where the element's text begins.
pub open spec fn text_start(x: Seq<char>, t: Seq<char>) -> int {
    elem_start(x, t) + open_tag(t).len()
}

/// Where the first `</t>` after the text's start begins (the text ends).
pub open spec fn text_end(x: Seq<char>, t: Seq<char>) -> int {
    find_sub_from(x, close_tag(t), text_start(x, t))->0
}

/// Where that `</t>` ends.
pub open spec fn elem_end(x: Seq<char>, t: Seq<char>) -> int {
    text_end(x, t) + close_tag(t).len()
}

/// The element's text.
pub open spec fn elem_text(x: Seq<char>, t: Seq<char>) -> Seq<char> {
    x.subrange(text_start(x, t), text_end(x, t))
}

/// Where an index of `x` lands once the text of `t` is replaced by `v`.
pub open spec fn shifted(x: Seq<char>, t: Seq<char>, v: Seq<char>, k: int) -> int {
    if k < text_start(x, t) {
        k
    } else {
        k - text_end(x, t) + text_start(x, t) + v.len()
    }
}

/// A tag name usable in `set_tag`: it holds neither `<` nor `>`.
pub open spec fn plain_tag(t: Seq<char>) -> bool {
    !t.contains('<') && !t.contains('>')
}

/// The shape of `<tag>` and `</tag>` for a plain tag: `<` only first, `>` only last.
pub open spec fn tag_like(p: Seq<char>) -> bool {
    &&& p.len() > 0
    &&& p[0] == '<'
    &&& p.last() == '>'
    &&& forall|i: int| 0 < i < p.len() ==> p[i] != '<'
    &&& forall|i: int| 0 <= i < p.len() - 1 ==> p[i] != '>'
}

proof fn lemma_tags_tag_like(t: Seq<char>)
    requires
        plain_tag(t),
    ensures
        tag_like(open_tag(t)),
        tag_like(close_tag(t)),
{
    let o = open_tag(t);
    let c = close_tag(t);
    assert forall|i: int| 0 < i < o.len() implies o[i] != '<' by {
        if i < o.len() - 1 {
            assert(o[i] == t[i - 1]);
        }
    }
    assert forall|i: int| 0 <= i < o.len() - 1 implies o[i] != '>' by {
        if i > 0 {
            assert(o[i] == t[i - 1]);
        }
    }
    assert forall|i: int| 0 < i < c.len() implies c[i] != '<' by {
        if 1 < i < c.len() - 1 {
            assert(c[i] == t[i - 2]);
        }
    }
    assert forall|i: int| 0 <= i < c.len() - 1 implies c[i] != '>' by {
        if i > 1 {
            assert(c[i] == t[i - 2]);
        }
    }
}

/// Where an applying element stands, and what `set_tag` makes of the text.
proof fn lemma_applies_facts(x: Seq<char>, t: Seq<char>, v: Seq<char>)
    requires
        tag_applies(x, t),
    ensures
        0 <= elem_start(x, t),
        occurs_at(x, open_tag(t), elem_start(x, t)),
        forall|j: int| 0 <= j < elem_start(x, t) ==> !occurs_at(x, open_tag(t), j),
        text_start(x, t) <= text_end(x, t),
        occurs_at(x, close_tag(t), text_end(x, t)),
        elem_end(x, t) <= x.len(),
        x[text_start(x, t) - 1] == '>',
        set_tag(x, t, v) == x.take(text_start(x, t)) + v + x.skip(text_end(x, t)),
{
    let o = open_tag(t);
    lemma_find_sub_from(x, o, 0);
    lemma_find_sub_from(x, close_tag(t), text_start(x, t));
    let s = elem_start(x, t);
    assert(x[text_start(x, t) - 1] == x.subrange(s, s + o.len())[o.len() - 1]);
}

/// An occurrence of a tag-shaped pattern after `set_tag` was there before:
/// before the replaced text, or (shifted) after it.
proof fn lemma_occurrence_back(x: Seq<char>, t: Seq<char>, v: Seq<char>, p: Seq<char>, j: int)
    requires
        tag_applies(x, t),
        !v.contains('<'),
        tag_like(p),
        occurs_at(set_tag(x, t, v), p, j),
    ensures
        (j + p.len() <= text_start(x, t) && occurs_at(x, p, j)) || (j >= text_start(x, t)
            + v.len() && occurs_at(x, p, j - text_start(x, t) - v.len() + text_end(x, t))),
{
    lemma_applies_facts(x, t, v);
    let cs = text_start(x, t);
    let e = text_end(x, t);
    let y = set_tag(x, t, v);
    if j + p.len() <= cs {
        assert(y.subrange(j, j + p.len()) == x.subrange(j, j + p.len()));
    } else if j < cs {
        let i = cs - 1 - j;
        assert(y[cs - 1] == x[cs - 1]);
        assert(p[i] == y.subrange(j, j + p.len())[i]);
    } else if j < cs + v.len() {
        assert(y[j] == v[j - cs]);
        assert(p[0] == y.subrange(j, j + p.len())[0]);
        assert(v.contains('<'));
    } else {
        let j2 = j - cs - v.len() + e;
        assert(y.subrange(j, j + p.len()) == x.subrange(j2, j2 + p.len()));
    }
}

/// An occurrence outside the replaced text is still there after `set_tag`, shifted.
proof fn lemma_occurrence_fwd(x: Seq<char>, t: Seq<char>, v: Seq<char>, p: Seq<char>, k: int)
    requires
        tag_applies(x, t),
        p.len() > 0,
        occurs_at(x, p, k),
        k + p.len() <= text_start(x, t) || k >= text_end(x, t),
    ensures
        occurs_at(set_tag(x, t, v), p, shifted(x, t, v, k)),
{
    lemma_applies_facts(x, t, v);
    let y = set_tag(x, t, v);
    let k2 = shifted(x, t, v, k);
    if k < text_start(x, t) {
        assert(y.subrange(k, k + p.len()) == x.subrange(k, k + p.len()));
    } else {
        assert(y.subrange(k2, k2 + p.len()) == x.subrange(k, k + p.len()));
    }
}

/// Replacing the text of `t` keeps the first occurrence (from `i` on) of any
/// tag-shaped pattern outside that text, at its shifted place.
proof fn lemma_find_from_after_set(
    x: Seq<char>,
    t: Seq<char>,
    v: Seq<char>,
    p: Seq<char>,
    i: int,
    k: int,
)
    requires
        tag_applies(x, t),
        !v.contains('<'),
        tag_like(p),
        0 <= i,
        i < text_start(x, t) || i >= text_end(x, t),
        find_sub_from(x, p, i) == Some(k),
        k + p.len() <= text_start(x, t) || k >= text_end(x, t),
    ensures
        find_sub_from(set_tag(x, t, v), p, shifted(x, t, v, i)) == Some(shifted(x, t, v, k)),
{
    lemma_applies_facts(x, t, v);
    lemma_find_sub_from(x, p, i);
    let y = set_tag(x, t, v);
    let cs = text_start(x, t);
    let e = text_end(x, t);
    lemma_occurrence_fwd(x, t, v, p, k);
    let i2 = shifted(x, t, v, i);
    let k2 = shifted(x, t, v, k);
    assert forall|j: int| i2 <= j < k2 implies !occurs_at(y, p, j) by {
        if occurs_at(y, p, j) {
            lemma_occurrence_back(x, t, v, p, j);
            if j + p.len() <= cs {
                assert(occurs_at(x, p, j));
            } else {
                assert(occurs_at(x, p, j - cs - v.len() + e));
            }
        }
    }
    lemma_find_sub_from_is(y, p, i2, k2);
}

/// After `set_tag`, the element holds the new text, where it began.
proof fn lemma_set_tag_positions(x: Seq<char>, t: Seq<char>, v: Seq<char>)
    requires
        !v.contains('<'),
        tag_applies(x, t),
    ensures
        ({
            let y = set_tag(x, t, v);
            &&& tag_applies(y, t)
            &&& elem_start(y, t) == elem_start(x, t)
            &&& text_end(y, t) == text_start(x, t) + v.len()
            &&& elem_text(y, t) == v
        }),
{
    lemma_applies_facts(x, t, v);
    let o = open_tag(t);
    let c = close_tag(t);
    let y = set_tag(x, t, v);
    let s = elem_start(x, t);
    let cs = text_start(x, t);
    let e = text_end(x, t);
    lemma_occurrence_fwd(x, t, v, o, s);
    assert forall|j: int| 0 <= j < s implies !occurs_at(y, o, j) by {
        if occurs_at(y, o, j) {
            assert(y.subrange(j, j + o.len()) == x.subrange(j, j + o.len()));
            assert(occurs_at(x, o, j));
        }
    }
    lemma_find_sub_is(y, o, s);
    lemma_occurrence_fwd(x, t, v, c, e);
    assert forall|j: int| cs <= j < cs + v.len() implies !occurs_at(y, c, j) by {
        if occurs_at(y, c, j) {
            assert(y[j] == v[j - cs]);
            assert(c[0] == y.subrange(j, j + c.len())[0]);
            assert(v.contains('<'));
        }
    }
    lemma_find_sub_from_is(y, c, cs, cs + v.len());
    assert(y.subrange(cs, cs + v.len()) == v);
}

/// An element already holding `v` is left as it is by `set_tag`.
proof fn lemma_set_tag_same(x: Seq<char>, t: Seq<char>, v: Seq<char>)
    requires
        tag_applies(x, t),
        elem_text(x, t) == v,
    ensures
        set_tag(x, t, v) == x,
{
    lemma_applies_facts(x, t, v);
    let cs = text_start(x, t);
    let e = text_end(x, t);
    assert(x.take(cs) + x.subrange(cs, e) + x.skip(e) == x);
}

/// Setting a tag is idempotent: on its own result, `set_tag` with the same
/// tag and value changes nothing, provided the value holds no `<` (else the
/// value could itself hold the closing tag).
pub proof fn lemma_set_tag_idempotent(xml: Seq<char>, tag: Seq<char>, val: Seq<char>)
    requires
        !val.contains('<'),
    ensures
        set_tag(set_tag(xml, tag, val), tag, val) == set_tag(xml, tag, val),
{
    if tag_applies(xml, tag) {
        lemma_set_tag_positions(xml, tag, val);
        lemma_set_tag_same(set_tag(xml, tag, val), tag, val);
    }
}

/// The elements of `t` and `u` do not overlap.
pub open spec fn elems_apart(x: Seq<char>, t: Seq<char>, u: Seq<char>) -> bool {
    elem_end(x, t) <= elem_start(x, u) || elem_end(x, u) <= elem_start(x, t)
}

/// How far the element of `u` moves when the text of `t` becomes `v`.
pub open spec fn moved_by(x: Seq<char>, t: Seq<char>, v: Seq<char>, u: Seq<char>) -> int {
    if elem_end(x, u) <= elem_start(x, t) {
        0
    } else {
        text_start(x, t) + v.len() - text_end(x, t)
    }
}

/// Replacing the text of `t` leaves an element `u` apart from it in place
/// (moved), with its text, still apart from `t`.
proof fn lemma_set_tag_other(x: Seq<char>, t: Seq<char>, v: Seq<char>, u: Seq<char>)
    requires
        plain_tag(u),
        !v.contains('<'),
        tag_applies(x, t),
        tag_applies(x, u),
        elems_apart(x, t, u),
    ensures
        ({
            let y = set_tag(x, t, v);
            let d = moved_by(x, t, v, u);
            &&& tag_applies(y, u)
            &&& elem_start(y, u) == elem_start(x, u) + d
            &&& text_end(y, u) == text_end(x, u) + d
            &&& elem_text(y, u) == elem_text(x, u)
            &&& elems_apart(y, t, u)
        }),
{
    lemma_tags_tag_like(u);
    let y = set_tag(x, t, v);
    let ou = open_tag(u);
    let cu = close_tag(u);
    lemma_applies_facts(x, t, v);
    lemma_applies_facts(x, u, v);
    lemma_set_tag_positions(x, t, v);
    let cs = text_start(x, t);
    let e = text_end(x, t);
    let su = elem_start(x, u);
    let a = text_start(x, u);
    let b = text_end(x, u);
    lemma_find_from_after_set(x, t, v, ou, 0, su);
    lemma_find_from_after_set(x, t, v, cu, a, b);
    if elem_end(x, u) <= elem_start(x, t) {
        assert(y.subrange(a, b) == x.subrange(a, b));
    } else {
        let d = cs + v.len() - e;
        assert(y.subrange(a + d, b + d) == x.subrange(a, b));
    }
}

/// Replacing the text of `t` cannot make an element `u` appear: no tag-shaped
/// text is created.
proof fn lemma_set_tag_unapplied(x: Seq<char>, t: Seq<char>, v: Seq<char>, u: Seq<char>)
    requires
        plain_tag(u),
        !v.contains('<'),
        tag_applies(x, t),
        !tag_applies(x, u),
    ensures
        !tag_applies(set_tag(x, t, v), u),
{
    let y = set_tag(x, t, v);
    if tag_applies(y, u) {
        lemma_applies_facts(x, t, v);
        lemma_tags_tag_like(u);
        let ou = open_tag(u);
        let cu = close_tag(u);
        lemma_applies_facts(y, u, v);
        let s2 = elem_start(y, u);
        let e2 = text_end(y, u);
        let cs = text_start(x, t);
        let e = text_end(x, t);
        lemma_occurrence_back(x, t, v, ou, s2);
        lemma_occurrence_back(x, t, v, cu, e2);
        let j1 = if s2 + ou.len() <= cs {
            s2
        } else {
            s2 - cs - v.len() + e
        };
        let j2 = if e2 + cu.len() <= cs {
            e2
        } else {
            e2 - cs - v.len() + e
        };
        assert(occurs_at(x, ou, j1));
        assert(occurs_at(x, cu, j2));
        assert(j2 >= j1 + ou.len());
        lemma_find_sub_from(x, ou, 0);
        let s0 = find_sub(x, ou)->0;
        assert(s0 <= j1);
        lemma_find_sub_from(x, cu, s0 + ou.len());
        assert(false);
    }
}

/// For two elements that are both present, they do not overlap.
pub open spec fn apart_where_present(x: Seq<char>, t: Seq<char>, u: Seq<char>) -> bool {
    tag_applies(x, t) && tag_applies(x, u) ==> elems_apart(x, t, u)
}

/// One rewrite step keeps the picture: which elements are present, the others'
/// texts, and that present elements do not overlap; the rewritten element
/// (if present) now holds `v`.
proof fn lemma_rewrite_step(x: Seq<char>, t: Seq<char>, v: Seq<char>, u: Seq<char>, w: Seq<char>)
    requires
        plain_tag(u),
        plain_tag(w),
        !v.contains('<'),
        apart_where_present(x, t, u),
        apart_where_present(x, t, w),
        apart_where_present(x, u, w),
    ensures
        ({
            let y = set_tag(x, t, v);
            &&& apart_where_present(y, t, u)
            &&& apart_where_present(y, t, w)
            &&& apart_where_present(y, u, w)
            &&& tag_applies(y, t) == tag_applies(x, t)
            &&& tag_applies(x, t) ==> elem_text(y, t) == v
            &&& tag_applies(y, u) == tag_applies(x, u)
            &&& tag_applies(x, u) ==> elem_text(y, u) == elem_text(x, u)
            &&& tag_applies(y, w) == tag_applies(x, w)
            &&& tag_applies(x, w) ==> elem_text(y, w) == elem_text(x, w)
        }),
{
    let y = set_tag(x, t, v);
    if tag_applies(x, t) {
        lemma_set_tag_positions(x, t, v);
        if tag_applies(x, u) {
            lemma_set_tag_other(x, t, v, u);
        } else {
            lemma_set_tag_unapplied(x, t, v, u);
        }
        if tag_applies(x, w) {
            lemma_set_tag_other(x, t, v, w);
        } else {
            lemma_set_tag_unapplied(x, t, v, w);
        }
        if tag_applies(x, u) && tag_applies(x, w) {
            lemma_applies_facts(x, t, v);
            lemma_applies_facts(x, u, v);
            lemma_applies_facts(x, w, v);
            assert(elems_apart(y, u, w));
        }
    }
}

/// The three elements the windowed rewrite sets.
pub open spec fn mode_tag() -> Seq<char> {
    "ScreenMode"@
}

pub open spec fn width_tag() -> Seq<char> {
    "Resolution-WindowScreenWidth"@
}

pub open spec fn height_tag() -> Seq<char> {
    "Resolution-WindowScreenHeight"@
}

/// Of the three elements, those present in the configuration do not overlap
/// (any of them may be missing).
pub open spec fn windowed_elements_apart(xml: Seq<char>) -> bool {
    &&& apart_where_present(xml, mode_tag(), width_tag())
    &&& apart_where_present(xml, mode_tag(), height_tag())
    &&& apart_where_present(xml, width_tag(), height_tag())
}

proof fn lemma_decimal_plain(n: int)
    ensures
        !decimal(n).contains('<'),
{
    if n < 0 {
        lemma_digits_plain((-n) as nat);
        assert forall|i: int| 0 <= i < decimal(n).len() implies decimal(n)[i] != '<' by {
            if i > 0 {
                assert(decimal(n)[i] == digits((-n) as nat)[i - 1]);
            }
        }
    } else {
        lemma_digits_plain(n as nat);
    }
}

proof fn lemma_digits_plain(n: nat)
    ensures
        forall|i: int| 0 <= i < digits(n).len() ==> #[trigger] digits(n)[i] != '<',
    decreases n,
{
    let d = (n % 10) as int;
    let b = (48 + d) as u8;
    assert(b as u32 == 48 + d);
    assert((b as char) as u32 == b as u32);
    assert(('<' as u32) == 60);
    assert(b as char != '<');
    if n >= 10 {
        lemma_digits_plain(n / 10);
        assert(digits(n) == digits(n / 10).push(b as char));
        assert forall|i: int| 0 <= i < digits(n).len() implies #[trigger] digits(n)[i] != '<' by {
            if i < digits(n).len() - 1 {
                assert(digits(n)[i] == digits(n / 10)[i]);
            }
        }
    } else {
        assert(digits(n) == seq![b as char]);
    }
}

proof fn lemma_windowed_tags_plain()
    ensures
        plain_tag(mode_tag()),
        plain_tag(width_tag()),
        plain_tag(height_tag()),
        !"WINDOW"@.contains('<'),
{
    reveal_strlit("ScreenMode");
    reveal_strlit("Resolution-WindowScreenWidth");
    reveal_strlit("Resolution-WindowScreenHeight");
    reveal_strlit("WINDOW");
}

/// Rewriting the text of `t` with `t` and `u` apart (where both are present)
/// keeps `u` as it was (present or not, with its text) and leaves them apart;
/// `t` now holds `v`.
proof fn lemma_rewrite_keeps(x: Seq<char>, t: Seq<char>, v: Seq<char>, u: Seq<char>)
    requires
        plain_tag(u),
        !v.contains('<'),
        apart_where_present(x, t, u),
    ensures
        ({
            let y = set_tag(x, t, v);
            &&& apart_where_present(y, t, u)
            &&& tag_applies(y, t) == tag_applies(x, t)
            &&& tag_applies(x, t) ==> elem_text(y, t) == v
            &&& tag_applies(y, u) == tag_applies(x, u)
            &&& tag_applies(x, u) ==> elem_text(y, u) == elem_text(x, u)
        }),
{
    if tag_applies(x, t) {
        lemma_set_tag_positions(x, t, v);
        if tag_applies(x, u) {
            lemma_set_tag_other(x, t, v, u);
        } else {
            lemma_set_tag_unapplied(x, t, v, u);
        }
    }
}

/// The rewrite is clean: when each element's turn comes (width after the
/// screen mode is set, height after both), it does not overlap the elements
/// already written, where both are present.
pub open spec fn windowed_rewrite_clean(xml: Seq<char>, w: i32, h: i32) -> bool {
    let x1 = set_tag(xml, mode_tag(), "WINDOW"@);
    let x2 = set_tag(x1, width_tag(), decimal(w as int));
    &&& apart_where_present(x1, mode_tag(), width_tag())
    &&& apart_where_present(x2, mode_tag(), height_tag())
    &&& apart_where_present(x2, width_tag(), height_tag())
}

/// A configuration whose present elements do not overlap is rewritten cleanly.
pub proof fn lemma_apart_is_clean(xml: Seq<char>, w: i32, h: i32)
    requires
        windowed_elements_apart(xml),
    ensures
        windowed_rewrite_clean(xml, w, h),
{
    let m = mode_tag();
    let wt = width_tag();
    let ht = height_tag();
    let mv = "WINDOW"@;
    let wv = decimal(w as int);
    lemma_windowed_tags_plain();
    lemma_decimal_plain(w as int);
    let x1 = set_tag(xml, m, mv);
    lemma_rewrite_step(xml, m, mv, wt, ht);
    lemma_rewrite_step(x1, wt, wv, m, ht);
}

/// The windowed rewrite is stable on a clean rewrite: rewriting its own
/// result changes nothing, so the next start finds the file already windowed;
/// in the result each element present holds what was written and none
/// overlaps another. (Where one element's text holds another element that is
/// written first, the later rewrite can remove what was written, and a second
/// rewrite may then find a different element.)
pub proof fn lemma_windowed_xml_stable(xml: Seq<char>, w: i32, h: i32)
    requires
        windowed_rewrite_clean(xml, w, h),
    ensures
        windowed_elements_apart(windowed_xml(xml, w, h)),
        windowed_xml(windowed_xml(xml, w, h), w, h) == windowed_xml(xml, w, h),
{
    let m = mode_tag();
    let wt = width_tag();
    let ht = height_tag();
    let mv = "WINDOW"@;
    let wv = decimal(w as int);
    let hv = decimal(h as int);
    lemma_windowed_tags_plain();
    lemma_decimal_plain(w as int);
    lemma_decimal_plain(h as int);
    let x1 = set_tag(xml, m, mv);
    if tag_applies(xml, m) {
        lemma_set_tag_positions(xml, m, mv);
    }
    let x2 = set_tag(x1, wt, wv);
    lemma_rewrite_keeps(x1, wt, wv, m);
    let x3 = set_tag(x2, ht, hv);
    lemma_rewrite_step(x2, ht, hv, m, wt);
    assert(x3 == windowed_xml(xml, w, h));
    if tag_applies(x3, m) {
        lemma_set_tag_same(x3, m, mv);
    }
    if tag_applies(x3, wt) {
        lemma_set_tag_same(x3, wt, wv);
    }
    if tag_applies(x3, ht) {
        lemma_set_tag_same(x3, ht, hv);
    }
}

/// After a clean windowed rewrite writes the configuration, running it again
/// on the written bytes finds nothing to change.
pub proof fn lemma_windowed_config_stable(raw: Seq<u8>, w: i32, h: i32)
    requires
        windowed_rewrite_clean(decode_utf16le_spec(raw), w, h),
        windowed_config_spec(raw, w, h) is Some,
    ensures
        windowed_config_spec(windowed_config_spec(raw, w, h)->0, w, h) is None,
{
    let xml = decode_utf16le_spec(raw);
    let out = windowed_xml(xml, w, h);
    lemma_windowed_xml_stable(xml, w, h);
    lemma_utf16le_roundtrip(out);
}
} // verus!
