//! Character-level text helpers: whitespace-separated words and lines.

use vstd::prelude::*;

verus! {

/// Unicode `White_Space`, the set that `char::is_whitespace` tests.
pub open spec fn is_ws(c: char) -> bool {
    ('\u{9}' <= c && c <= '\u{d}') || c == ' ' || c == '\u{85}' || c == '\u{a0}' || c == '\u{1680}'
        || ('\u{2000}' <= c && c <= '\u{200a}') || c == '\u{2028}' || c == '\u{2029}' || c
        == '\u{202f}' || c == '\u{205f}' || c == '\u{3000}'
}

pub fn is_whitespace_char(c: char) -> (r: bool)
    ensures
        r == is_ws(c),
{
    ('\u{9}' <= c && c <= '\u{d}') || c == ' ' || c == '\u{85}' || c == '\u{a0}' || c == '\u{1680}'
        || ('\u{2000}' <= c && c <= '\u{200a}') || c == '\u{2028}' || c == '\u{2029}' || c
        == '\u{202f}' || c == '\u{205f}' || c == '\u{3000}'
}

/// The maximal runs of non-whitespace characters of `s`, in order.
pub open spec fn words(s: Seq<char>) -> Seq<Seq<char>>
    decreases s.len(),
{
    if s.len() == 0 {
        seq![]
    } else {
        let w = words(s.drop_last());
        let c = s.last();
        if is_ws(c) {
            w
        } else if s.len() >= 2 && !is_ws(s[s.len() - 2]) {
            w.update(w.len() - 1, w.last().push(c))
        } else {
            w.push(seq![c])
        }
    }
}

/// The pieces of `s` between line breaks (`\n`); a trailing `\r` stays in its piece.
pub open spec fn lines(s: Seq<char>) -> Seq<Seq<char>>
    decreases s.len(),
{
    if s.len() == 0 {
        seq![seq![]]
    } else {
        let p = lines(s.drop_last());
        if s.last() == '\n' {
            p.push(seq![])
        } else {
            p.update(p.len() - 1, p.last().push(s.last()))
        }
    }
}

/// Words joined by single spaces.
pub open spec fn join_words(ws: Seq<Seq<char>>) -> Seq<char>
    decreases ws.len(),
{
    if ws.len() == 0 {
        seq![]
    } else if ws.len() == 1 {
        ws[0]
    } else {
        join_words(ws.drop_last()) + seq![' '] + ws.last()
    }
}

proof fn lemma_lines_nonempty(s: Seq<char>)
    ensures
        lines(s).len() >= 1,
    decreases s.len(),
{
    if s.len() > 0 {
        lemma_lines_nonempty(s.drop_last());
    }
}

pub proof fn lemma_words_nonempty(s: Seq<char>)
    ensures
        s.len() >= 1 && !is_ws(s.last()) ==> words(s).len() >= 1,
        forall|i: int| 0 <= i < words(s).len() ==> #[trigger] words(s)[i].len() >= 1,
    decreases s.len(),
{
    if s.len() > 0 {
        lemma_words_nonempty(s.drop_last());
        let w = words(s.drop_last());
        if s.len() >= 2 && !is_ws(s[s.len() - 2]) {
            assert(s.drop_last().last() == s[s.len() - 2]);
        }
    }
}

/// Relies on `String::push` from std: appends one character at the end.
#[verifier::external_body]
pub(crate) fn push_char(s: &mut String, c: char)
    ensures
        final(s)@ == old(s)@.push(c),
{
    s.push(c)
}

/// Splits `s` into its whitespace-separated words.
pub fn split_words(s: &str) -> (r: Vec<String>)
    ensures
        r.deep_view() == words(s@),
{
    let n = s.unicode_len();
    let mut out: Vec<String> = Vec::new();
    let mut cur = String::new();
    let mut in_word = false;
    let mut i: usize = 0;
    while i < n
        invariant
            n == s@.len(),
            i <= n,
            in_word == (cur@.len() > 0),
            cur@.len() == 0 ==> out.deep_view() == words(s@.subrange(0, i as int)),
            cur@.len() > 0 ==> out.deep_view().push(cur@) == words(s@.subrange(0, i as int)),
            cur@.len() > 0 ==> i >= 1 && !is_ws(s@[i - 1]),
            cur@.len() == 0 ==> (i == 0 || is_ws(s@[i - 1])),
        decreases n - i,
    {
        let c = s.get_char(i);
        let ghost pre = s@.subrange(0, i as int);
        let ghost next = s@.subrange(0, i + 1);
        assert(next.drop_last() =~= pre);
        assert(next.last() == c);
        if is_whitespace_char(c) {
            if in_word {
                out.push(cur);
                cur = String::new();
                in_word = false;
                assert(out.deep_view() =~= words(next));
            }
        } else {
            if in_word {
                assert(next[next.len() - 2] == s@[i - 1]);
                let ghost w = words(pre);
                push_char(&mut cur, c);
                assert(out.deep_view().push(cur@) =~= w.update(w.len() - 1, w.last().push(c)));
            } else {
                assert(cur@ =~= Seq::<char>::empty());
                push_char(&mut cur, c);
                assert(cur@ =~= seq![c]);
                in_word = true;
                if i >= 1 {
                    assert(next[next.len() - 2] == s@[i - 1]);
                }
                assert(out.deep_view().push(cur@) =~= words(pre).push(seq![c]));
            }
        }
        i = i + 1;
    }
    assert(s@.subrange(0, n as int) =~= s@);
    if in_word {
        out.push(cur);
        assert(out.deep_view() =~= words(s@));
    }
    out
}

/// Splits `s` at each `\n`.
pub fn split_lines(s: &str) -> (r: Vec<String>)
    ensures
        r.deep_view() == lines(s@),
        r.len() >= 1,
{
    let n = s.unicode_len();
    let mut out: Vec<String> = Vec::new();
    let mut cur = String::new();
    let mut i: usize = 0;
    while i < n
        invariant
            n == s@.len(),
            i <= n,
            out.deep_view().push(cur@) == lines(s@.subrange(0, i as int)),
        decreases n - i,
    {
        let c = s.get_char(i);
        let ghost pre = s@.subrange(0, i as int);
        let ghost next = s@.subrange(0, i + 1);
        assert(next.drop_last() =~= pre);
        assert(next.last() == c);
        proof {
            lemma_lines_nonempty(pre);
        }
        if c == '\n' {
            out.push(cur);
            cur = String::new();
            assert(out.deep_view().push(cur@) =~= lines(next));
        } else {
            let ghost p = lines(pre);
            push_char(&mut cur, c);
            assert(out.deep_view().push(cur@) =~= p.update(p.len() - 1, p.last().push(c)));
        }
        i = i + 1;
    }
    assert(s@.subrange(0, n as int) =~= s@);
    out.push(cur);
    out
}

/// Appends `t` to the end of `s`.
pub(crate) fn push_str(s: &mut String, t: &str)
    ensures
        final(s)@ == old(s)@ + t@,
{
    let n = t.unicode_len();
    let mut i: usize = 0;
    while i < n
        invariant
            n == t@.len(),
            i <= n,
            s@ == old(s)@ + t@.subrange(0, i as int),
        decreases n - i,
    {
        let c = t.get_char(i);
        push_char(s, c);
        assert(t@.subrange(0, i + 1) =~= t@.subrange(0, i as int).push(c));
        assert(s@ =~= old(s)@ + t@.subrange(0, i + 1));
        i = i + 1;
    }
    assert(t@.subrange(0, n as int) =~= t@);
}

/// Joins `ws[from..]` with single spaces.
pub fn join_from(ws: &Vec<String>, from: usize) -> (r: String)
    requires
        from <= ws.len(),
    ensures
        r@ == join_words(ws.deep_view().subrange(from as int, ws.len() as int)),
{
    let mut out = String::new();
    let mut i: usize = from;
    while i < ws.len()
        invariant
            from <= i <= ws.len(),
            out@ == join_words(ws.deep_view().subrange(from as int, i as int)),
        decreases ws.len() - i,
    {
        let ghost before = ws.deep_view().subrange(from as int, i as int);
        let ghost after = ws.deep_view().subrange(from as int, i + 1);
        assert(after.drop_last() =~= before);
        if i > from {
            push_char(&mut out, ' ');
        }
        push_str(&mut out, ws[i].as_str());
        assert(after.last() == ws[i as int]@);
        if i == from {
            assert(out@ =~= join_words(after));
        } else {
            assert(out@ =~= join_words(after));
        }
        i = i + 1;
    }
    out
}

} // verus!
