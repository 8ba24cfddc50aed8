//! `FromFix.ini`: the ini parser and the settings it yields.
//!
//! A line's text after the first `;` is a comment. Blank lines are skipped;
//! `[Name]` starts a section; `key = value` sets a key of the current section,
//! a later line winning over an earlier one with the same section and key.
use vstd::prelude::*;
use crate::text::{
    ascii_lower_seq, ascii_lowercase, chars_eq, chars_of, copy_range, find_char,
    find_char_exec, string_from_chars, trim, trim_chars,
};

verus! {

/// A section, key and value, as characters.
pub type EntryView = (Seq<char>, Seq<char>, Seq<char>);

/// The pieces of `s` between line feeds (`"a\nb\n"` gives `a`, `b` and an empty last piece).
pub open spec fn split_lines(s: Seq<char>) -> Seq<Seq<char>>
    decreases s.len(),
{
    if s.len() == 0 {
        seq![Seq::empty()]
    } else {
        let prev = split_lines(s.drop_last());
        if s.last() == '\n' {
            prev.push(Seq::empty())
        } else {
            prev.update(prev.len() - 1, prev.last().push(s.last()))
        }
    }
}

pub proof fn lemma_split_lines_nonempty(s: Seq<char>)
    ensures
        split_lines(s).len() >= 1,
    decreases s.len(),
{
    if s.len() > 0 {
        lemma_split_lines_nonempty(s.drop_last());
    }
}

/// A line up to its first `;`.
pub open spec fn strip_comment(raw: Seq<char>) -> Seq<char> {
    match find_char(raw, ';') {
        Some(i) => raw.take(i),
        None => raw,
    }
}

pub open spec fn is_bracket(c: char) -> bool {
    c == '[' || c == ']'
}

pub open spec fn trim_brackets_start(s: Seq<char>) -> Seq<char>
    decreases s.len(),
{
    if s.len() > 0 && is_bracket(s[0]) {
        trim_brackets_start(s.drop_first())
    } else {
        s
    }
}

pub open spec fn trim_brackets_end(s: Seq<char>) -> Seq<char>
    decreases s.len(),
{
    if s.len() > 0 && is_bracket(s.last()) {
        trim_brackets_end(s.drop_last())
    } else {
        s
    }
}

/// The name of a section header line: without the brackets at either end, trimmed.
pub open spec fn section_name(line: Seq<char>) -> Seq<char> {
    trim(trim_brackets_end(trim_brackets_start(line)))
}

/// The parser's state after a line: the current section and the entries read.
pub open spec fn ini_step(st: (Seq<char>, Seq<EntryView>), raw: Seq<char>) -> (
    Seq<char>,
    Seq<EntryView>,
) {
    let line = trim(strip_comment(raw));
    if line.len() == 0 {
        st
    } else if line[0] == '[' {
        (section_name(line), st.1)
    } else {
        match find_char(line, '=') {
            Some(eq) => (st.0, st.1.push((st.0, trim(line.take(eq)), trim(line.skip(eq + 1))))),
            None => st,
        }
    }
}

/// The parser's state after a sequence of lines, starting with no section.
pub open spec fn ini_fold(lines: Seq<Seq<char>>) -> (Seq<char>, Seq<EntryView>)
    decreases lines.len(),
{
    if lines.len() == 0 {
        (Seq::empty(), Seq::empty())
    } else {
        ini_step(ini_fold(lines.drop_last()), lines.last())
    }
}

/// Every `key = value` line of an ini text, in order, with its section.
pub open spec fn ini_entries(text: Seq<char>) -> Seq<EntryView> {
    ini_fold(split_lines(text)).1
}

/// The map the entries make when inserted in order: a later entry wins.
pub open spec fn entries_map(es: Seq<EntryView>) -> Map<(Seq<char>, Seq<char>), Seq<char>>
    decreases es.len(),
{
    if es.len() == 0 {
        Map::empty()
    } else {
        entries_map(es.drop_last()).insert((es.last().0, es.last().1), es.last().2)
    }
}

/// The value of the last entry with this section and key.
pub open spec fn lookup(es: Seq<EntryView>, section: Seq<char>, key: Seq<char>) -> Option<
    Seq<char>,
>
    decreases es.len(),
{
    if es.len() == 0 {
        None
    } else if es.last().0 == section && es.last().1 == key {
        Some(es.last().2)
    } else {
        lookup(es.drop_last(), section, key)
    }
}

/// The map holds a key exactly where an entry has it, with the last such entry's value.
pub proof fn lemma_lookup_map(es: Seq<EntryView>, section: Seq<char>, key: Seq<char>)
    ensures
        entries_map(es).contains_key((section, key)) <==> lookup(es, section, key) is Some,
        lookup(es, section, key) matches Some(v) ==> entries_map(es)[(section, key)] == v,
    decreases es.len(),
{
    if es.len() > 0 {
        lemma_lookup_map(es.drop_last(), section, key);
    }
}

/// One `key = value` line, with the section it stands in.
struct IniEntry {
    section: Vec<char>,
    key: Vec<char>,
    value: Vec<char>,
}

impl IniEntry {
    spec fn view(&self) -> EntryView {
        (self.section@, self.key@, self.value@)
    }
}

/// The parsed ini: each (section, key) with the value of its last assignment.
pub struct IniMap {
    entries: Vec<IniEntry>,
}

impl IniMap {
    /// The entries in file order.
    pub closed spec fn entries_view(&self) -> Seq<EntryView> {
        self.entries@.map_values(|e: IniEntry| e.view())
    }
}

impl View for IniMap {
    type V = Map<(Seq<char>, Seq<char>), Seq<char>>;

    open spec fn view(&self) -> Map<(Seq<char>, Seq<char>), Seq<char>> {
        entries_map(self.entries_view())
    }
}

fn strip_comment_exec(raw: &[char]) -> (out: Vec<char>)
    ensures
        out@ == strip_comment(raw@),
{
    match find_char_exec(raw, ';') {
        Some(i) => {
            proof {
                crate::text::lemma_find_char_from(raw@, ';', 0);
            }
            copy_range(raw, 0, i)
        },
        None => copy_range(raw, 0, raw.len()),
    }
}

fn trim_brackets(v: &[char]) -> (out: Vec<char>)
    ensures
        out@ == trim_brackets_end(trim_brackets_start(v@)),
{
    let n = v.len();
    let mut lo: usize = 0;
    assert(v@.subrange(0, n as int) == v@);
    while lo < n && (v[lo] == '[' || v[lo] == ']')
        invariant
            lo <= n == v.len(),
            trim_brackets_start(v@) == trim_brackets_start(v@.subrange(lo as int, n as int)),
        decreases n - lo,
    {
        assert(v@.subrange(lo as int, n as int).drop_first() == v@.subrange(lo + 1, n as int));
        lo += 1;
    }
    assert(trim_brackets_start(v@.subrange(lo as int, n as int)) == v@.subrange(
        lo as int,
        n as int,
    ));
    let mut hi: usize = n;
    while hi > lo && (v[hi - 1] == '[' || v[hi - 1] == ']')
        invariant
            lo <= hi <= n == v.len(),
            trim_brackets_end(trim_brackets_start(v@)) == trim_brackets_end(
                v@.subrange(lo as int, hi as int),
            ),
        decreases hi,
    {
        assert(v@.subrange(lo as int, hi as int).drop_last() == v@.subrange(lo as int, hi - 1));
        hi -= 1;
    }
    copy_range(v, lo, hi)
}

/// Apply one raw line to the parser state.
fn ini_line(section: &mut Vec<char>, entries: &mut Vec<IniEntry>, raw: &[char])
    ensures
        (final(section)@, final(entries)@.map_values(|e: IniEntry| e.view())) == ini_step(
            (old(section)@, old(entries)@.map_values(|e: IniEntry| e.view())),
            raw@,
        ),
{
    let stripped = strip_comment_exec(raw);
    let line = trim_chars(&stripped);
    if line.len() == 0 {
        return ;
    }
    if line[0] == '[' {
        let inner = trim_brackets(&line);
        *section = trim_chars(&inner);
        return ;
    }
    match find_char_exec(&line, '=') {
        Some(eq) => {
            proof {
                crate::text::lemma_find_char_from(line@, '=', 0);
            }
            let k = copy_range(&line, 0, eq);
            let v = copy_range(&line, eq + 1, line.len());
            assert(k@ == line@.take(eq as int));
            assert(v@ == line@.skip(eq + 1));
            let key = trim_chars(&k);
            let value = trim_chars(&v);
            let sec = copy_range(section, 0, section.len());
            assert(sec@ == section@);
            let ghost before = entries@;
            entries.push(IniEntry { section: sec, key, value });
            assert(entries@.map_values(|e: IniEntry| e.view()) == before.map_values(
                |e: IniEntry| e.view(),
            ).push((section@, trim(line@.take(eq as int)), trim(line@.skip(eq + 1)))));
        },
        None => {},
    }
}

/// Parse the text of an ini file.
pub fn parse_ini(text: &str) -> (r: IniMap)
    ensures
        r.entries_view() == ini_entries(text@),
        r@ == entries_map(ini_entries(text@)),
{
    let s = chars_of(text);
    let mut section: Vec<char> = Vec::new();
    let mut entries: Vec<IniEntry> = Vec::new();
    let mut cur: Vec<char> = Vec::new();
    let mut i: usize = 0;
    assert(s@.take(0) == Seq::<char>::empty());
    assert(split_lines(Seq::<char>::empty()).drop_last() == Seq::<Seq<char>>::empty());
    while i < s.len()
        invariant
            i <= s.len(),
            s@ == text@,
            (section@, entries@.map_values(|e: IniEntry| e.view())) == ini_fold(
                split_lines(s@.take(i as int)).drop_last(),
            ),
            cur@ == split_lines(s@.take(i as int)).last(),
        decreases s.len() - i,
    {
        let c = s[i];
        let ghost pre = s@.take(i as int);
        assert(s@.take(i + 1).drop_last() == pre);
        assert(s@.take(i + 1).last() == c);
        proof {
            lemma_split_lines_nonempty(pre);
        }
        if c == '\n' {
            assert(split_lines(s@.take(i + 1)).drop_last() == split_lines(pre));
            assert(split_lines(pre).drop_last().push(split_lines(pre).last()) == split_lines(pre));
            ini_line(&mut section, &mut entries, &cur);
            cur = Vec::new();
        } else {
            assert(split_lines(s@.take(i + 1)).drop_last() == split_lines(pre).drop_last());
            cur.push(c);
        }
        i += 1;
    }
    assert(s@.take(s.len() as int) == s@);
    proof {
        lemma_split_lines_nonempty(s@);
        assert(split_lines(s@).drop_last().push(split_lines(s@).last()) == split_lines(s@));
    }
    ini_line(&mut section, &mut entries, &cur);
    IniMap { entries }
}

impl IniMap {
    /// The value set for `key` in `section`, if any.
    pub fn get(&self, section: &str, key: &str) -> (r: Option<String>)
        ensures
            match r {
                Some(v) => self@.contains_key((section@, key@)) && v@ == self@[(section@, key@)],
                None => !self@.contains_key((section@, key@)),
            },
    {
        let s = chars_of(section);
        let k = chars_of(key);
        let ghost es = self.entries_view();
        proof {
            lemma_lookup_map(es, s@, k@);
        }
        let mut i: usize = self.entries.len();
        assert(es.take(i as int) == es);
        while i > 0
            invariant
                i <= self.entries@.len(),
                es == self.entries_view(),
                s@ == section@,
                k@ == key@,
                self@ == entries_map(es),
                entries_map(es).contains_key((s@, k@)) <==> lookup(es, s@, k@) is Some,
                lookup(es, s@, k@) matches Some(v) ==> entries_map(es)[(s@, k@)] == v,
                lookup(es, s@, k@) == lookup(es.take(i as int), s@, k@),
            decreases i,
        {
            let e = &self.entries[i - 1];
            assert(es.take(i as int).drop_last() == es.take(i - 1));
            assert(es.take(i as int).last() == e.view());
            if chars_eq(&e.section, &s) && chars_eq(&e.key, &k) {
                return Some(string_from_chars(&e.value));
            }
            i -= 1;
        }
        None
    }
}

/// The words an ini flag is on with, compared without ASCII case.
pub open spec fn spec_parse_bool(v: Seq<char>) -> bool {
    let l = ascii_lower_seq(v);
    ||| l == seq!['t', 'r', 'u', 'e']
    ||| l == seq!['1']
    ||| l == seq!['y', 'e', 's']
    ||| l == seq!['o', 'n']
}

/// An ini flag: `true`, `1`, `yes` or `on` in any ASCII case is on; any other text is off.
pub fn parse_bool(v: &str) -> (r: bool)
    ensures
        r == spec_parse_bool(v@),
{
    let c = chars_of(v);
    let l = ascii_lowercase(&c);
    let t = vec!['t', 'r', 'u', 'e'];
    let one = vec!['1'];
    let y = vec!['y', 'e', 's'];
    let on = vec!['o', 'n'];
    assert(t@ == seq!['t', 'r', 'u', 'e']);
    assert(one@ == seq!['1']);
    assert(y@ == seq!['y', 'e', 's']);
    assert(on@ == seq!['o', 'n']);
    chars_eq(&l, &t) || chars_eq(&l, &one) || chars_eq(&l, &y) || chars_eq(&l, &on)
}

/// A flag of the map: its parsed value where the key is set, else `default`.
pub open spec fn flag(m: Map<(Seq<char>, Seq<char>), Seq<char>>, section: Seq<char>, key: Seq<char>, default: bool) -> bool {
    if m.contains_key((section, key)) {
        spec_parse_bool(m[(section, key)])
    } else {
        default
    }
}

/// A flag of the ini: its parsed value where the key is set, else `default`.
pub fn get_bool(ini: &IniMap, section: &str, key: &str, default: bool) -> (r: bool)
    ensures
        r == flag(ini@, section@, key@, default),
{
    match ini.get(section, key) {
        Some(v) => parse_bool(v.as_str()),
        None => default,
    }
}

/// The value of a string of decimal digits, if every character is one.
pub open spec fn dec_value(d: Seq<char>) -> Option<int>
    decreases d.len(),
{
    if d.len() == 0 {
        Some(0)
    } else {
        match dec_value(d.drop_last()) {
            Some(v) => if '0' <= d.last() && d.last() <= '9' {
                Some(v * 10 + (d.last() as int - '0' as int))
            } else {
                None
            },
            None => None,
        }
    }
}

/// `str::parse::<i32>().ok()`: an optional `+` or `-`, then at least one
/// decimal digit, with a value in the range of `i32`.
pub open spec fn parse_i32_spec(t: Seq<char>) -> Option<i32> {
    let neg = t.len() > 0 && t[0] == '-';
    let digits = if t.len() > 0 && (t[0] == '+' || t[0] == '-') {
        t.drop_first()
    } else {
        t
    };
    if digits.len() == 0 {
        None
    } else {
        match dec_value(digits) {
            Some(v) => {
                let x = if neg {
                    -v
                } else {
                    v
                };
                if i32::MIN <= x && x <= i32::MAX {
                    Some(x as i32)
                } else {
                    None
                }
            },
            None => None,
        }
    }
}

proof fn lemma_dec_value_prefix(d: Seq<char>, i: int)
    requires
        0 <= i <= d.len(),
    ensures
        dec_value(d.take(i)) is None ==> dec_value(d) is None,
        dec_value(d.take(i)) matches Some(v) ==> (dec_value(d) matches Some(w) ==> v <= w),
        dec_value(d) matches Some(w) ==> w >= 0,
    decreases d.len(),
{
    if i == d.len() {
        assert(d.take(i) == d);
        if d.len() > 0 {
            lemma_dec_value_prefix(d.drop_last(), 0);
        }
    } else {
        assert(d.drop_last().take(i) == d.take(i));
        lemma_dec_value_prefix(d.drop_last(), i);
    }
}

/// `str::parse::<i32>().ok()`.
pub fn parse_i32(v: &str) -> (r: Option<i32>)
    ensures
        r == parse_i32_spec(v@),
{
    let t = chars_of(v);
    let neg = t.len() > 0 && t[0] == '-';
    let start: usize = if t.len() > 0 && (t[0] == '+' || t[0] == '-') {
        1
    } else {
        0
    };
    let ghost digits = if t@.len() > 0 && (t@[0] == '+' || t@[0] == '-') {
        t@.drop_first()
    } else {
        t@
    };
    assert(digits == t@.subrange(start as int, t@.len() as int));
    if start == t.len() {
        return None;
    }
    let mut acc: u64 = 0;
    let mut i: usize = start;
    assert(digits.take(0) == Seq::<char>::empty());
    while i < t.len()
        invariant
            start <= i <= t.len(),
            t@ == v@,
            neg == (t@.len() > 0 && t@[0] == '-'),
            digits == t@.subrange(start as int, t@.len() as int),
            digits == (if t@.len() > 0 && (t@[0] == '+' || t@[0] == '-') {
                t@.drop_first()
            } else {
                t@
            }),
            digits.len() > 0,
            dec_value(digits.take(i - start)) == Some(acc as int),
            acc <= 0x8000_0000,
        decreases t.len() - i,
    {
        let c = t[i];
        let ghost k = i - start;
        assert(digits.take(k + 1).drop_last() == digits.take(k));
        assert(digits.take(k + 1).last() == c);
        if c < '0' || c > '9' {
            proof {
                assert(dec_value(digits.take(k + 1)) is None);
                lemma_dec_value_prefix(digits, k + 1);
            }
            return None;
        }
        let x: u64 = (c as u64) - ('0' as u64);
        acc = acc * 10 + x;
        assert(dec_value(digits.take(k + 1)) == Some(acc as int));
        if acc > 0x8000_0000 {
            proof {
                lemma_dec_value_prefix(digits, k + 1);
            }
            return None;
        }
        i += 1;
    }
    assert(digits.take(t@.len() - start) == digits);
    if neg {
        let m: i64 = 0 - (acc as i64);
        Some(m as i32)
    } else if acc <= 0x7FFF_FFFF {
        Some(acc as i32)
    } else {
        None
    }
}

/// An integer of the map: its parsed value where the key is set and parses, else `default`.
pub open spec fn int_setting(m: Map<(Seq<char>, Seq<char>), Seq<char>>, section: Seq<char>, key: Seq<char>, default: i32) -> i32 {
    if m.contains_key((section, key)) {
        match parse_i32_spec(m[(section, key)]) {
            Some(x) => x,
            None => default,
        }
    } else {
        default
    }
}

/// An integer of the ini: its parsed value where the key is set and parses, else `default`.
pub fn get_i32(ini: &IniMap, section: &str, key: &str, default: i32) -> (r: i32)
    ensures
        r == int_setting(ini@, section@, key@, default),
{
    match ini.get(section, key) {
        Some(v) => match parse_i32(v.as_str()) {
            Some(x) => x,
            None => default,
        },
        None => default,
    }
}

/// The settings of both games that are not floating-point numbers.
#[derive(Clone, Copy, PartialEq, Eq, Structural, Debug)]
pub struct Config {
    /// Sekiro: run windowed mode as borderless.
    pub borderless: bool,
    /// Sekiro: remove the 60 FPS cap.
    pub unlock_fps: bool,
    /// Sekiro: unlock the windowed resolution list.
    pub unlock_res: bool,
    /// Sekiro: stop forced 16:9 scaling.
    pub fix_aspect: bool,
    /// Sekiro: fix vignettes and fades at non-16:9.
    pub fix_hud: bool,
    /// Dark Souls III: skip the startup logo movies.
    pub ds3_skip_intro: bool,
    /// Dark Souls III: unlock the framerate via the debug limiter.
    pub ds3_unlock_fps: bool,
    /// Dark Souls III: borderless at desktop resolution.
    pub ds3_borderless: bool,
    /// Dark Souls III: native resolution width; 0 is off.
    pub ds3_res_width: i32,
    /// Dark Souls III: native resolution height; 0 is off.
    pub ds3_res_height: i32,
}

/// The settings an ini map gives, each key falling back to its documented default.
pub open spec fn config_of(m: Map<(Seq<char>, Seq<char>), Seq<char>>) -> Config {
    Config {
        borderless: flag(m, "Borderless Windowed"@, "Enabled"@, false),
        unlock_fps: flag(m, "Unlock Framerate"@, "Enabled"@, true),
        unlock_res: flag(m, "Unlock Resolutions"@, "Enabled"@, true),
        fix_aspect: flag(m, "Fix Aspect Ratio"@, "Enabled"@, true),
        fix_hud: flag(m, "Fix HUD"@, "Enabled"@, true),
        ds3_skip_intro: flag(m, "DS3 Skip Intro"@, "Enabled"@, true),
        ds3_unlock_fps: flag(m, "DS3 Unlock Framerate"@, "Enabled"@, false),
        ds3_borderless: flag(m, "DS3 Borderless"@, "Enabled"@, false),
        ds3_res_width: int_setting(m, "DS3 Resolution"@, "Width"@, 0),
        ds3_res_height: int_setting(m, "DS3 Resolution"@, "Height"@, 0),
    }
}

impl Config {
    /// The settings of a parsed ini file.
    pub fn from_ini(ini: &IniMap) -> (r: Config)
        ensures
            r == config_of(ini@),
    {
        Config {
            borderless: get_bool(ini, "Borderless Windowed", "Enabled", false),
            unlock_fps: get_bool(ini, "Unlock Framerate", "Enabled", true),
            unlock_res: get_bool(ini, "Unlock Resolutions", "Enabled", true),
            fix_aspect: get_bool(ini, "Fix Aspect Ratio", "Enabled", true),
            fix_hud: get_bool(ini, "Fix HUD", "Enabled", true),
            ds3_skip_intro: get_bool(ini, "DS3 Skip Intro", "Enabled", true),
            ds3_unlock_fps: get_bool(ini, "DS3 Unlock Framerate", "Enabled", false),
            ds3_borderless: get_bool(ini, "DS3 Borderless", "Enabled", false),
            ds3_res_width: get_i32(ini, "DS3 Resolution", "Width", 0),
            ds3_res_height: get_i32(ini, "DS3 Resolution", "Height", 0),
        }
    }
}

/// With no key set, every setting takes its documented default: Sekiro's
/// framerate unlock, resolution unlock, aspect and HUD fixes and Dark Souls
/// III's intro skip on; the rest off; no Dark Souls III resolution.
pub proof fn lemma_config_defaults()
    ensures
        config_of(Map::empty()) == (Config {
            borderless: false,
            unlock_fps: true,
            unlock_res: true,
            fix_aspect: true,
            fix_hud: true,
            ds3_skip_intro: true,
            ds3_unlock_fps: false,
            ds3_borderless: false,
            ds3_res_width: 0,
            ds3_res_height: 0,
        }),
{
}

} // verus!
