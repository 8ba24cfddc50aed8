//! The host executable: its directory and file name, and which game it is.
use vstd::prelude::*;
use crate::text::{ascii_lower_seq, ascii_lowercase, chars_eq, chars_of, copy_range, string_from_chars};

verus! {

/// A path separator: `\` or `/`.
pub open spec fn is_sep(c: char) -> bool {
    c == '\\' || c == '/'
}

/// The index of the last separator among the first `n` characters.
pub open spec fn last_sep_before(s: Seq<char>, n: int) -> Option<int>
    decreases n,
{
    if n <= 0 {
        None
    } else if is_sep(s[n - 1]) {
        Some(n - 1)
    } else {
        last_sep_before(s, n - 1)
    }
}

/// The index of the last separator of a path.
pub open spec fn last_sep(s: Seq<char>) -> Option<int> {
    last_sep_before(s, s.len() as int)
}

/// The directory of a path, with its trailing separator; empty without one.
pub open spec fn dir_of_spec(s: Seq<char>) -> Seq<char> {
    match last_sep(s) {
        Some(i) => s.take(i + 1),
        None => Seq::empty(),
    }
}

/// The last component of a path (the whole path without a separator).
pub open spec fn base_name(s: Seq<char>) -> Seq<char> {
    match last_sep(s) {
        Some(i) => s.skip(i + 1),
        None => s,
    }
}

proof fn lemma_last_sep_before(s: Seq<char>, n: int)
    requires
        0 <= n <= s.len(),
    ensures
        match last_sep_before(s, n) {
            Some(i) => 0 <= i < n && is_sep(s[i]) && forall|j: int| i < j < n ==> !is_sep(s[j]),
            None => forall|j: int| 0 <= j < n ==> !is_sep(s[j]),
        },
    decreases n,
{
    if n > 0 && !is_sep(s[n - 1]) {
        lemma_last_sep_before(s, n - 1);
    }
}

fn last_sep_exec(v: &[char]) -> (r: Option<usize>)
    ensures
        match r {
            Some(i) => last_sep(v@) == Some(i as int),
            None => last_sep(v@) is None,
        },
        r matches Some(i) ==> i < v.len(),
{
    let mut n: usize = v.len();
    while n > 0
        invariant
            n <= v.len(),
            last_sep(v@) == last_sep_before(v@, n as int),
        decreases n,
    {
        if v[n - 1] == '\\' || v[n - 1] == '/' {
            return Some(n - 1);
        }
        n -= 1;
    }
    None
}

/// Directory (with trailing separator) of a module path string.
pub fn dir_of(path: &str) -> (r: String)
    ensures
        r@ == dir_of_spec(path@),
{
    let v = chars_of(path);
    match last_sep_exec(&v) {
        Some(i) => {
            proof {
                lemma_last_sep_before(v@, v@.len() as int);
            }
            let d = copy_range(&v, 0, i + 1);
            string_from_chars(&d)
        },
        None => String::new(),
    }
}

/// Lowercase file name of a path string.
pub fn file_of(path: &str) -> (r: String)
    ensures
        r@ == ascii_lower_seq(base_name(path@)),
{
    let v = chars_of(path);
    let b = match last_sep_exec(&v) {
        Some(i) => {
            proof {
                lemma_last_sep_before(v@, v@.len() as int);
            }
            copy_range(&v, i + 1, v.len())
        },
        None => copy_range(&v, 0, v.len()),
    };
    let l = ascii_lowercase(&b);
    string_from_chars(&l)
}

/// A path is its directory followed by its last component, and that
/// component holds no separator.
pub proof fn lemma_path_split(s: Seq<char>)
    ensures
        dir_of_spec(s) + base_name(s) == s,
        forall|j: int| 0 <= j < base_name(s).len() ==> !is_sep(#[trigger] base_name(s)[j]),
{
    lemma_last_sep_before(s, s.len() as int);
    match last_sep(s) {
        Some(i) => {
            assert(s.take(i + 1) + s.skip(i + 1) == s);
            assert forall|j: int| 0 <= j < base_name(s).len() implies !is_sep(
                #[trigger] base_name(s)[j],
            ) by {
                assert(base_name(s)[j] == s[i + 1 + j]);
            }
        },
        None => {
            assert(Seq::<char>::empty() + s == s);
        },
    }
}

/// The games this fix knows.
#[derive(Clone, Copy, PartialEq, Eq, Structural, Debug)]
pub enum Game {
    Sekiro,
    DarkSouls3,
    Unknown,
}

/// The game a (lower-case) executable file name belongs to.
pub open spec fn game_of(exe_name: Seq<char>) -> Game {
    if exe_name == "sekiro.exe"@ {
        Game::Sekiro
    } else if exe_name == "darksoulsiii.exe"@ {
        Game::DarkSouls3
    } else {
        Game::Unknown
    }
}

/// Which game the host executable is, by its lower-case file name.
pub fn detect_game(exe_name: &str) -> (r: Game)
    ensures
        r == game_of(exe_name@),
{
    let n = chars_of(exe_name);
    let sekiro = chars_of("sekiro.exe");
    let ds3 = chars_of("darksoulsiii.exe");
    if chars_eq(&n, &sekiro) {
        Game::Sekiro
    } else if chars_eq(&n, &ds3) {
        Game::DarkSouls3
    } else {
        Game::Unknown
    }
}

} // verus!
