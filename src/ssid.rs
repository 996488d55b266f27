use vstd::prelude::*;
use vstd::string::{StrSliceExecFns, StringExecFns};

use crate::interface::opt_chars;
use crate::text::{chars_of, has_infix, has_prefix, matches_at, occurs_at, starts_with};

verus! {

/// A character of Unicode's `White_Space` property.
pub open spec fn is_space(c: char) -> bool {
    ('\u{9}' <= c && c <= '\u{d}') || c == ' ' || c == '\u{85}' || c == '\u{a0}' || c
        == '\u{1680}' || ('\u{2000}' <= c && c <= '\u{200a}') || c == '\u{2028}' || c
        == '\u{2029}' || c == '\u{202f}' || c == '\u{205f}' || c == '\u{3000}'
}

fn space(c: char) -> (r: bool)
    ensures
        r == is_space(c),
{
    ('\u{9}' <= c && c <= '\u{d}') || c == ' ' || c == '\u{85}' || c == '\u{a0}' || c
        == '\u{1680}' || ('\u{2000}' <= c && c <= '\u{200a}') || c == '\u{2028}' || c
        == '\u{2029}' || c == '\u{202f}' || c == '\u{205f}' || c == '\u{3000}'
}

pub open spec fn trim_start(s: Seq<char>) -> Seq<char>
    decreases s.len(),
{
    if s.len() > 0 && is_space(s[0]) {
        trim_start(s.drop_first())
    } else {
        s
    }
}

pub open spec fn trim_end(s: Seq<char>) -> Seq<char>
    decreases s.len(),
{
    if s.len() > 0 && is_space(s.last()) {
        trim_end(s.drop_last())
    } else {
        s
    }
}

/// `s` without its leading and trailing white space.
pub open spec fn trimmed(s: Seq<char>) -> Seq<char> {
    trim_end(trim_start(s))
}

/// The characters `from..to` of `s`, without leading and trailing white space.
fn trim_range(s: &str, n: &Vec<char>, from: usize, to: usize) -> (r: String)
    requires
        n@ == s@,
        from <= to <= s@.len(),
    ensures
        r@ == trimmed(s@.subrange(from as int, to as int)),
{
    let ghost t = s@.subrange(from as int, to as int);
    let mut a: usize = from;
    while a < to && space(n[a])
        invariant
            from <= a <= to <= n@.len(),
            n@ == s@,
            trim_start(t) == trim_start(s@.subrange(a as int, to as int)),
        decreases to - a,
    {
        assert(s@.subrange(a as int, to as int).drop_first() =~= s@.subrange(a + 1, to as int));
        a = a + 1;
    }
    let ghost u = s@.subrange(a as int, to as int);
    assert(trim_start(u) == u);
    let mut b: usize = to;
    while b > a && space(n[b - 1])
        invariant
            from <= a <= b <= to <= n@.len(),
            n@ == s@,
            trim_end(u) == trim_end(s@.subrange(a as int, b as int)),
        decreases b - a,
    {
        assert(s@.subrange(a as int, b as int).drop_last() =~= s@.subrange(a as int, b - 1));
        b = b - 1;
    }
    String::from_str(s.substring_char(a, b))
}

/// The SSID in what `nmcli` printed: the whole output trimmed, where anything
/// is left.
pub fn nmcli_ssid(output: &str) -> (r: Option<String>)
    ensures
        opt_chars(r) == (if trimmed(output@).len() > 0 {
            Some(trimmed(output@))
        } else {
            None::<Seq<char>>
        }),
{
    let n = chars_of(output);
    assert(output@.subrange(0, output@.len() as int) =~= output@);
    let t = trim_range(output, &n, 0, n.len());
    if t.as_str().is_empty() {
        None
    } else {
        Some(t)
    }
}

/// The SSID in what `iwgetid` printed: the whole output trimmed, where anything
/// but the word `any` is left.
pub fn iwgetid_ssid(output: &str) -> (r: Option<String>)
    ensures
        opt_chars(r) == (if trimmed(output@).len() > 0 && trimmed(output@) != seq!['a', 'n', 'y'] {
            Some(trimmed(output@))
        } else {
            None::<Seq<char>>
        }),
{
    let n = chars_of(output);
    assert(output@.subrange(0, output@.len() as int) =~= output@);
    let t = trim_range(output, &n, 0, n.len());
    let tc = chars_of(t.as_str());
    if t.as_str().is_empty() || crate::text::equals(tc.as_slice(), &['a', 'n', 'y']) {
        None
    } else {
        Some(t)
    }
}

/// Where the line that starts at `i` ends: the first `\n` from `i` on, or the end.
pub open spec fn line_end(s: Seq<char>, i: int) -> int
    decreases s.len() - i,
{
    if i < 0 || i >= s.len() {
        s.len() as int
    } else if s[i] == '\n' {
        i
    } else {
        line_end(s, i + 1)
    }
}

/// The line that starts at `i`, without its line ending (`\n` or `\r\n`).
pub open spec fn line_at(s: Seq<char>, i: int) -> Seq<char> {
    let e = line_end(s, i);
    if e < s.len() && e > i && s[e - 1] == '\r' {
        s.subrange(i, e - 1)
    } else {
        s.subrange(i, e)
    }
}

/// The first place at or after `i` where `p` occurs in `s`, or -1.
pub open spec fn first_occurrence(s: Seq<char>, p: Seq<char>, i: int) -> int
    decreases s.len() + 1 - i,
{
    if i < 0 || i + p.len() > s.len() {
        -1
    } else if occurs_at(s, p, i) {
        i
    } else {
        first_occurrence(s, p, i + 1)
    }
}

/// The second piece of `s` split at `p`: what stands between its first and
/// second occurrence (or the end), where `p` occurs at all.
pub open spec fn second_piece(s: Seq<char>, p: Seq<char>) -> Option<Seq<char>> {
    let i = first_occurrence(s, p, 0);
    if i < 0 {
        None
    } else {
        let rest = s.subrange(i + p.len(), s.len() as int);
        let j = first_occurrence(rest, p, 0);
        if j < 0 {
            Some(rest)
        } else {
            Some(rest.take(j))
        }
    }
}

fn find_line_end(n: &Vec<char>, i: usize) -> (r: usize)
    requires
        i <= n@.len(),
    ensures
        r == line_end(n@, i as int),
        i <= r <= n@.len(),
{
    let mut j: usize = i;
    while j < n.len() && n[j] != '\n'
        invariant
            i <= j <= n@.len(),
            line_end(n@, i as int) == line_end(n@, j as int),
        decreases n@.len() - j,
    {
        j = j + 1;
    }
    j
}

/// The line of `s` that starts at `i`, and where it ends.
fn next_line(s: &str, n: &Vec<char>, i: usize) -> (r: (String, usize))
    requires
        n@ == s@,
        i < s@.len(),
    ensures
        r.0@ == line_at(s@, i as int),
        r.1 == line_end(s@, i as int),
        i <= r.1 <= s@.len(),
{
    let e: usize = find_line_end(n, i);
    let line = if e < n.len() && e > i && n[e - 1] == '\r' {
        s.substring_char(i, e - 1)
    } else {
        s.substring_char(i, e)
    };
    (String::from_str(line), e)
}

fn find_from(s: &[char], p: &[char], i: usize) -> (r: Option<usize>)
    ensures
        match r {
            Some(k) => k == first_occurrence(s@, p@, i as int) && occurs_at(s@, p@, k as int),
            None => first_occurrence(s@, p@, i as int) == -1,
        },
{
    if p.len() == 0 {
        if i <= s.len() {
            assert(s@.subrange(i as int, i as int) =~= p@);
            return Some(i);
        }
        return None;
    }
    let mut j: usize = i;
    while j <= s.len() && p.len() <= s.len() - j
        invariant
            i <= j,
            p@.len() > 0,
            first_occurrence(s@, p@, i as int) == first_occurrence(s@, p@, j as int),
        decreases s@.len() + 1 - j,
    {
        if matches_at(s, p, j) {
            return Some(j);
        }
        j = j + 1;
    }
    None
}

/// `line.split(p).nth(1)`, for a non-empty `p`.
fn second_piece_of(line: &str, p: &[char]) -> (r: Option<String>)
    requires
        p@.len() > 0,
    ensures
        opt_chars(r) == second_piece(line@, p@),
{
    let n = chars_of(line);
    match find_from(n.as_slice(), p, 0) {
        None => None,
        Some(i) => {
            assert(occurs_at(n@, p@, i as int));
            assert(i + p@.len() <= n@.len());
            assert(n@.len() == n.len());
            assert(p@.len() == p.len());
            let start: usize = i + p.len();
            let rest = line.substring_char(start, n.len());
            let rn = chars_of(rest);
            match find_from(rn.as_slice(), p, 0) {
                None => Some(String::from_str(rest)),
                Some(j) => {
                    assert(rest@.subrange(0, j as int) =~= rest@.take(j as int));
                    Some(String::from_str(rest.substring_char(0, j)))
                },
            }
        },
    }
}

proof fn lemma_line_end_bounds(s: Seq<char>, i: int)
    requires
        0 <= i <= s.len(),
    ensures
        i <= line_end(s, i) <= s.len(),
    decreases s.len() - i,
{
    if i < s.len() && s[i] != '\n' {
        lemma_line_end_bounds(s, i + 1);
    }
}

pub open spec fn airport_label() -> Seq<char> {
    "Current Wi-Fi Network: "@
}

/// The SSID in what `networksetup -getairportnetwork` printed: on its first
/// line, what follows the label, trimmed, where anything is left.
pub open spec fn airport_spec(s: Seq<char>) -> Option<Seq<char>> {
    if s.len() == 0 {
        None
    } else {
        match second_piece(line_at(s, 0), airport_label()) {
            Some(x) => if trimmed(x).len() > 0 {
                Some(trimmed(x))
            } else {
                None
            },
            None => None,
        }
    }
}

/// The SSID of one line of what `netsh wlan show interfaces` printed, if the
/// line gives one: a line that starts with `SSID` once trimmed and holds a
/// `:`, whose text after the first `:` (up to the next) is not blank.
pub open spec fn netsh_line(line: Seq<char>) -> Option<Seq<char>> {
    if has_prefix(trimmed(line), seq!['S', 'S', 'I', 'D']) && has_infix(line, seq![':']) {
        match second_piece(line, seq![':']) {
            Some(x) => if trimmed(x).len() > 0 {
                Some(trimmed(x))
            } else {
                None
            },
            None => None,
        }
    } else {
        None
    }
}

/// The first SSID given by a line of `s` that starts at `i` or later.
pub open spec fn netsh_from(s: Seq<char>, i: int) -> Option<Seq<char>>
    decreases s.len() + 1 - i,
    via netsh_from_decreases
{
    if i < 0 || i >= s.len() {
        None
    } else {
        match netsh_line(line_at(s, i)) {
            Some(x) => Some(x),
            None => netsh_from(s, line_end(s, i) + 1),
        }
    }
}

#[via_fn]
proof fn netsh_from_decreases(s: Seq<char>, i: int) {
    if 0 <= i < s.len() {
        lemma_line_end_bounds(s, i);
    }
}

/// The SSID in what `networksetup -getairportnetwork` printed.
pub fn airport_ssid(output: &str) -> (r: Option<String>)
    ensures
        opt_chars(r) == airport_spec(output@),
{
    let n = chars_of(output);
    if n.len() == 0 {
        return None;
    }
    let (line, _end): (String, usize) = next_line(output, &n, 0);
    let label = [
        'C', 'u', 'r', 'r', 'e', 'n', 't', ' ', 'W', 'i', '-', 'F', 'i', ' ', 'N', 'e', 't', 'w',
        'o', 'r', 'k', ':', ' ',
    ];
    proof {
        reveal_strlit("Current Wi-Fi Network: ");
        assert(label@ =~= airport_label());
    }
    match second_piece_of(line.as_str(), label.as_slice()) {
        Some(x) => {
            let xn = chars_of(x.as_str());
            assert(x@.subrange(0, x@.len() as int) =~= x@);
            let v = trim_range(x.as_str(), &xn, 0, xn.len());
            if v.as_str().is_empty() {
                None
            } else {
                Some(v)
            }
        },
        None => None,
    }
}

fn netsh_line_ssid(line: &str) -> (r: Option<String>)
    ensures
        opt_chars(r) == netsh_line(line@),
{
    let n = chars_of(line);
    assert(line@.subrange(0, line@.len() as int) =~= line@);
    let t = trim_range(line, &n, 0, n.len());
    let tn = chars_of(t.as_str());
    let word = ['S', 'S', 'I', 'D'];
    let colon = [':'];
    assert(word@ =~= seq!['S', 'S', 'I', 'D']);
    assert(colon@ =~= seq![':']);
    if !(starts_with(tn.as_slice(), word.as_slice()) && crate::text::contains(
        n.as_slice(),
        colon.as_slice(),
    )) {
        return None;
    }
    match second_piece_of(line, colon.as_slice()) {
        Some(x) => {
            let xn = chars_of(x.as_str());
            assert(x@.subrange(0, x@.len() as int) =~= x@);
            let v = trim_range(x.as_str(), &xn, 0, xn.len());
            if v.as_str().is_empty() {
                None
            } else {
                Some(v)
            }
        },
        None => None,
    }
}

/// The SSID in what `netsh wlan show interfaces` printed: the first line that
/// gives one.
pub fn netsh_ssid(output: &str) -> (r: Option<String>)
    ensures
        opt_chars(r) == netsh_from(output@, 0),
{
    let n = chars_of(output);
    let mut i: usize = 0;
    while i < n.len()
        invariant
            n@ == output@,
            netsh_from(output@, 0) == netsh_from(output@, i as int),
        decreases n@.len() - i,
    {
        let (line, e): (String, usize) = next_line(output, &n, i);
        match netsh_line_ssid(line.as_str()) {
            Some(x) => {
                return Some(x);
            },
            None => {},
        }
        if e >= n.len() {
            assert(netsh_from(output@, e + 1) == None::<Seq<char>>);
            return None;
        }
        i = e + 1;
    }
    None
}

} // verus!
