//! Decisions about the terminal, made from the values of environment
//! variables that the caller reads.

use crate::theme::{lower_of, lowercase};
use vstd::prelude::*;

verus! {

/// The pieces of `s` between occurrences of `sep`.
pub open spec fn pieces(s: Seq<char>, sep: char) -> Seq<Seq<char>>
    decreases s.len(),
{
    if s.len() == 0 {
        seq![seq![]]
    } else {
        let p = pieces(s.drop_last(), sep);
        if s.last() == sep {
            p.push(seq![])
        } else {
            p.update(p.len() - 1, p.last().push(s.last()))
        }
    }
}

proof fn lemma_pieces_nonempty(s: Seq<char>, sep: char)
    ensures
        pieces(s, sep).len() >= 1,
    decreases s.len(),
{
    if s.len() > 0 {
        lemma_pieces_nonempty(s.drop_last(), sep);
    }
}

/// The piece of `s` after its first `sep`, up to the next one.
fn second_piece(s: &str, sep: char) -> (r: Option<String>)
    ensures
        match r {
            Some(p) => pieces(s@, sep).len() >= 2 && p@ == pieces(s@, sep)[1],
            None => pieces(s@, sep).len() < 2,
        },
{
    let n = s.unicode_len();
    let mut count: usize = 0;
    let mut cur = String::new();
    let mut i: usize = 0;
    while i < n
        invariant
            n == s@.len(),
            i <= n,
            count <= 2,
            count == 0 ==> cur@ == Seq::<char>::empty(),
            count < 2 ==> pieces(s@.subrange(0, i as int), sep).len() == count + 1,
            count == 2 ==> pieces(s@.subrange(0, i as int), sep).len() >= 3,
            count >= 1 ==> cur@ == pieces(s@.subrange(0, i as int), sep)[1],
        decreases n - i,
    {
        let c = s.get_char(i);
        let ghost pre = s@.subrange(0, i as int);
        let ghost next = s@.subrange(0, i + 1);
        assert(next.drop_last() =~= pre);
        assert(next.last() == c);
        proof {
            lemma_pieces_nonempty(pre, sep);
        }
        if c == sep {
            if count == 0 {
                count = 1;
                assert(pieces(next, sep)[1] =~= cur@);
            } else if count == 1 {
                count = 2;
            }
        } else if count == 1 {
            crate::text::push_char(&mut cur, c);
        }
        i = i + 1;
    }
    assert(s@.subrange(0, n as int) =~= s@);
    if count >= 1 {
        Some(cur)
    } else {
        None
    }
}

pub open spec fn is_digit(c: char) -> bool {
    '0' <= c && c <= '9'
}

/// The value of a string of decimal digits.
pub open spec fn decimal(d: Seq<char>) -> nat
    decreases d.len(),
{
    if d.len() == 0 {
        0
    } else {
        decimal(d.drop_last()) * 10 + (d.last() as nat - '0' as nat) as nat
    }
}

/// What `u8::from_str` accepts: an optional `+`, then one or more decimal
/// digits whose value is at most 255.
pub open spec fn u8_of(s: Seq<char>) -> Option<u8> {
    u8_digits(unsigned_part(s))
}

/// `s` without a leading `+`.
pub open spec fn unsigned_part(s: Seq<char>) -> Seq<char> {
    if s.len() > 0 && s[0] == '+' {
        s.drop_first()
    } else {
        s
    }
}

pub open spec fn u8_digits(d: Seq<char>) -> Option<u8> {
    if d.len() == 0 || exists|i: int| 0 <= i < d.len() && !is_digit(#[trigger] d[i]) {
        None
    } else if decimal(d) > 255 {
        None
    } else {
        Some(decimal(d) as u8)
    }
}

/// Parses a byte the way `u8::from_str` does.
pub fn parse_u8(s: &str) -> (r: Option<u8>)
    ensures
        r == u8_of(s@),
{
    let n = s.unicode_len();
    let start: usize = if n > 0 && s.get_char(0) == '+' { 1 } else { 0 };
    let ghost d = unsigned_part(s@);
    assert(d =~= s@.subrange(start as int, n as int));
    if start == n {
        return None;
    }
    let mut v: u32 = 0;
    let mut i: usize = start;
    while i < n
        invariant
            n == s@.len(),
            start <= i <= n,
            d == unsigned_part(s@),
            d == s@.subrange(start as int, n as int),
            forall|k: int| 0 <= k < i - start ==> is_digit(#[trigger] d[k]),
            v as nat == decimal(d.subrange(0, i - start)),
            v <= 255,
        decreases n - i,
    {
        let c = s.get_char(i);
        assert(d[i - start] == c);
        if !('0' <= c && c <= '9') {
            assert(!is_digit(d[i - start]));
            assert(exists|k: int| 0 <= k < d.len() && !is_digit(#[trigger] d[k]));
            assert(u8_of(s@) is None);
            return None;
        }
        let ghost pre = d.subrange(0, i - start);
        assert(d.subrange(0, i - start + 1) =~= pre.push(c));
        assert(pre.push(c).drop_last() =~= pre);
        let digit = (c as u32) - ('0' as u32);
        let w = v * 10 + digit;
        if w > 255 {
            proof {
                if forall|k: int| 0 <= k < d.len() ==> is_digit(#[trigger] d[k]) {
                    lemma_decimal_prefix_bound(d, i - start + 1);
                    assert(decimal(d.subrange(0, i - start + 1)) == decimal(d.subrange(0, i - start)) * 10 + (c as nat - '0' as nat) as nat);
                    assert(decimal(d) > 255);
                } else {
                    let k = choose|k: int| 0 <= k < d.len() && !is_digit(#[trigger] d[k]);
                    assert(exists|k: int| 0 <= k < d.len() && !is_digit(#[trigger] d[k]));
                }
                assert(u8_of(s@) is None);
            }
            return None;
        }
        v = w;
        i = i + 1;
    }
    assert(d.subrange(0, n - start) =~= d);
    Some(v as u8)
}

proof fn lemma_decimal_prefix_bound(d: Seq<char>, k: int)
    requires
        0 <= k <= d.len(),
        forall|i: int| 0 <= i < d.len() ==> is_digit(#[trigger] d[i]),
    ensures
        decimal(d) >= decimal(d.subrange(0, k)),
    decreases d.len() - k,
{
    if k < d.len() {
        lemma_decimal_prefix_bound(d, k + 1);
        let p = d.subrange(0, k + 1);
        assert(p.drop_last() =~= d.subrange(0, k));
        assert(is_digit(p.last()));
    } else {
        assert(d.subrange(0, k) =~= d);
    }
}

/// `t` occurs in `s`.
pub open spec fn occurs(s: Seq<char>, t: Seq<char>) -> bool {
    exists|i: int| 0 <= i && i + t.len() <= s.len() && #[trigger] s.subrange(i, i + t.len()) == t
}

fn contains_str(s: &str, t: &str) -> (r: bool)
    ensures
        r == occurs(s@, t@),
{
    let n = s.unicode_len();
    let m = t.unicode_len();
    if m > n {
        return false;
    }
    if m == 0 {
        assert(s@.subrange(0, 0) =~= t@);
        assert(s@.subrange(0, 0 + t@.len() as int) == t@);
        return true;
    }
    let target = String::from_str(t);
    let mut i: usize = 0;
    while i <= n - m
        invariant
            n == s@.len(),
            m == t@.len(),
            1 <= m <= n,
            i <= n - m + 1,
            target@ == t@,
            forall|k: int| 0 <= k < i ==> #[trigger] s@.subrange(k, k + m) != t@,
        decreases (n - m) as int + 1 - i as int,
    {
        if String::from_str(s.substring_char(i, i + m)) == target {
            return true;
        }
        i = i + 1;
    }
    false
}

/// Whether an already lower-cased iTerm profile name mentions "light".
pub fn profile_is_light(lowered: &str) -> (r: bool)
    ensures
        r == occurs(lowered@, "light"@),
{
    contains_str(lowered, "light")
}

/// The background that `COLORFGBG` (`fg;bg`) announces, light when its
/// background color index is 7 or more; `None` when it says nothing usable.
pub open spec fn fgbg_light(v: Seq<char>) -> Option<bool> {
    let p = pieces(v, ';');
    if p.len() >= 2 && u8_of(p[1]) is Some {
        Some(u8_of(p[1])->Some_0 >= 7)
    } else {
        None
    }
}

/// Whether the terminal has a light background, from `COLORFGBG`, else from
/// an iTerm profile whose name mentions "light"; dark otherwise.
pub open spec fn terminal_light(colorfgbg: Option<Seq<char>>, term_program: Option<Seq<char>>, iterm_profile: Option<Seq<char>>) -> bool {
    match colorfgbg {
        Some(v) if fgbg_light(v) is Some => fgbg_light(v)->Some_0,
        _ => match (term_program, iterm_profile) {
            (Some(tp), Some(prof)) => tp == "iTerm.app"@ && occurs(lower_of(prof), "light"@),
            _ => false,
        },
    }
}

pub open spec fn str_opt_view(o: Option<&str>) -> Option<Seq<char>> {
    match o {
        Some(s) => Some(s@),
        None => None,
    }
}

/// Decides whether the terminal has a light background from the values of
/// `COLORFGBG`, `TERM_PROGRAM` and `ITERM_PROFILE`.
pub fn detect_terminal_theme(colorfgbg: Option<&str>, term_program: Option<&str>, iterm_profile: Option<&str>) -> (r: bool)
    ensures
        r == terminal_light(str_opt_view(colorfgbg), str_opt_view(term_program), str_opt_view(iterm_profile)),
{
    if let Some(v) = colorfgbg {
        if let Some(bg) = second_piece(v, ';') {
            if let Some(b) = parse_u8(bg.as_str()) {
                return b >= 7;
            }
        }
    }
    match (term_program, iterm_profile) {
        (Some(tp), Some(prof)) => {
            if String::from_str(tp) == String::from_str("iTerm.app") {
                let l = lowercase(prof);
                profile_is_light(l.as_str())
            } else {
                false
            }
        },
        _ => false,
    }
}

/// Whether the terminal can show emoji: by `TERM` when it is set (not a
/// "dumb" one), else yes under Windows Terminal or another emulator that
/// announces itself, else on Windows only under MSYS, and yes elsewhere.
pub open spec fn unicode_ok(term: Option<Seq<char>>, wt_session: bool, terminal_emulator: bool, windows: bool, msystem: bool) -> bool {
    match term {
        Some(t) => !occurs(t, "dumb"@),
        None => if wt_session || terminal_emulator {
            true
        } else if windows {
            msystem
        } else {
            true
        },
    }
}

pub fn supports_unicode(term: Option<&str>, wt_session: bool, terminal_emulator: bool, windows: bool, msystem: bool) -> (r: bool)
    ensures
        r == unicode_ok(str_opt_view(term), wt_session, terminal_emulator, windows, msystem),
{
    match term {
        Some(t) => !contains_str(t, "dumb"),
        None => if wt_session || terminal_emulator {
            true
        } else if windows {
            msystem
        } else {
            true
        },
    }
}

} // verus!
