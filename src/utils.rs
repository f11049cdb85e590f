//! Text layout helpers and icons.

use crate::text::{push_char, push_str, split_words, words};
use vstd::prelude::*;

verus! {

#[derive(Debug, Clone, Copy, PartialEq, Eq, Structural)]
pub enum Icon {
    Success,
    Error,
    Warning,
    Info,
    Arrow,
    Bullet,
    Check,
    Cross,
    Question,
    Search,
    Folder,
    File,
    Lock,
    Unlock,
    Star,
    Heart,
    Fire,
    Lightning,
    Sparkles,
    Rocket,
}

pub open spec fn spaces(n: nat) -> Seq<char> {
    Seq::new(n, |i: int| ' ')
}

/// The number of bytes of `c` in UTF-8, as `char::len_utf8` gives it.
pub open spec fn utf8_len(c: char) -> nat {
    if (c as u32) < 0x80 {
        1
    } else if (c as u32) < 0x800 {
        2
    } else if (c as u32) < 0x10000 {
        3
    } else {
        4
    }
}

/// The number of bytes of `s` in UTF-8.
pub open spec fn byte_len(s: Seq<char>) -> nat
    decreases s.len(),
{
    if s.len() == 0 {
        0
    } else {
        byte_len(s.drop_last()) + utf8_len(s.last())
    }
}

/// Byte offset `k` of `s` falls between two characters.
pub open spec fn is_boundary(s: Seq<char>, k: nat) -> bool {
    exists|i: int| 0 <= i <= s.len() && #[trigger] byte_len(s.subrange(0, i)) == k
}

/// The number of characters before byte offset `k`.
pub open spec fn chars_before(s: Seq<char>, k: nat) -> int {
    choose|i: int| 0 <= i <= s.len() && #[trigger] byte_len(s.subrange(0, i)) == k
}

/// `text` cut to `max_width` bytes, the last three of them `...` when
/// something was cut.
pub open spec fn truncated(text: Seq<char>, max_width: nat) -> Seq<char> {
    if byte_len(text) <= max_width {
        text
    } else if max_width <= 3 {
        "..."@
    } else {
        text.subrange(0, chars_before(text, (max_width - 3) as nat)) + "..."@
    }
}

proof fn lemma_byte_len_grows(s: Seq<char>, i: int, j: int)
    requires
        0 <= i < j <= s.len(),
    ensures
        byte_len(s.subrange(0, i)) < byte_len(s.subrange(0, j)),
    decreases j - i,
{
    assert(s.subrange(0, j).drop_last() =~= s.subrange(0, j - 1));
    if i < j - 1 {
        lemma_byte_len_grows(s, i, j - 1);
    }
}

fn char_bytes(c: char) -> (n: usize)
    ensures
        n == utf8_len(c),
{
    let v = c as u32;
    if v < 0x80 {
        1
    } else if v < 0x800 {
        2
    } else if v < 0x10000 {
        3
    } else {
        4
    }
}

/// The longest prefix of `text` whose UTF-8 form fits in `limit` bytes: its
/// number of characters and of bytes.
fn prefix_within(text: &str, limit: usize) -> (r: (usize, usize))
    ensures
        r.0 <= text@.len(),
        r.1 == byte_len(text@.subrange(0, r.0 as int)),
        r.1 <= limit,
        r.0 < text@.len() ==> byte_len(text@.subrange(0, r.0 + 1)) > limit,
{
    let n = text.unicode_len();
    let mut acc: usize = 0;
    let mut i: usize = 0;
    assert(text@.subrange(0, 0) =~= Seq::<char>::empty());
    while i < n
        invariant_except_break
            n == text@.len(),
            i <= n,
            acc == byte_len(text@.subrange(0, i as int)),
            acc <= limit,
        ensures
            n == text@.len(),
            i <= n,
            acc == byte_len(text@.subrange(0, i as int)),
            acc <= limit,
            i < n ==> byte_len(text@.subrange(0, i + 1)) > limit,
        decreases n - i,
    {
        let c = text.get_char(i);
        let l = char_bytes(c);
        assert(text@.subrange(0, i + 1).drop_last() =~= text@.subrange(0, i as int));
        if l > limit - acc {
            break;
        }
        acc = acc + l;
        i = i + 1;
    }
    (i, acc)
}

/// `text` padded with spaces on both sides to `width` characters, the extra
/// space on the right.
pub open spec fn centered(text: Seq<char>, width: nat) -> Seq<char> {
    if text.len() >= width {
        text
    } else {
        let pad = (width - text.len()) / 2;
        spaces(pad as nat) + text + spaces((width - text.len() - pad) as nat)
    }
}

fn spaces_string(n: usize) -> (r: String)
    ensures
        r@ == spaces(n as nat),
{
    let mut s = String::new();
    let mut i: usize = 0;
    while i < n
        invariant
            i <= n,
            s@ == spaces(i as nat),
        decreases n - i,
    {
        push_char(&mut s, ' ');
        assert(s@ =~= spaces((i + 1) as nat));
        i = i + 1;
    }
    s
}

/// Shortens `text` to at most `max_width` bytes, ending it with `...` when
/// it had to be cut. The cut must fall between two characters.
pub fn truncate_with_ellipsis(text: &str, max_width: usize) -> (r: String)
    requires
        byte_len(text@) <= max_width || max_width <= 3 || is_boundary(text@, (max_width - 3) as nat),
    ensures
        r@ == truncated(text@, max_width as nat),
{
    let n = text.unicode_len();
    let (i, _) = prefix_within(text, max_width);
    proof {
        assert(text@.subrange(0, n as int) =~= text@);
        if i < n {
            if i + 1 < n {
                lemma_byte_len_grows(text@, i + 1, n as int);
            }
        }
    }
    if i == n {
        String::from_str(text)
    } else if max_width <= 3 {
        String::from_str("...")
    } else {
        let (j, _) = prefix_within(text, max_width - 3);
        proof {
            let k = (max_width - 3) as nat;
            let c = chars_before(text@, k);
            assert(0 <= c <= text@.len() && byte_len(text@.subrange(0, c)) == k);
            if c > j {
                if c > j + 1 {
                    lemma_byte_len_grows(text@, j + 1, c);
                }
            } else if c < j {
                lemma_byte_len_grows(text@, c, j as int);
            }
            assert(c == j);
        }
        let mut s = String::from_str(text.substring_char(0, j));
        push_str(&mut s, "...");
        s
    }
}

/// Centers `text` in `width` columns.
pub fn center_text(text: &str, width: usize) -> (r: String)
    ensures
        r@ == centered(text@, width as nat),
{
    let n = text.unicode_len();
    if n >= width {
        String::from_str(text)
    } else {
        let pad = (width - n) / 2;
        let mut s = spaces_string(pad);
        push_str(&mut s, text);
        let right = spaces_string(width - n - pad);
        push_str(&mut s, right.as_str());
        s
    }
}

/// Greedy filling of lines with the words `ws`: the finished lines and the
/// line being filled.
pub open spec fn fill(ws: Seq<Seq<char>>, width: nat) -> (Seq<Seq<char>>, Seq<char>)
    decreases ws.len(),
{
    if ws.len() == 0 {
        (seq![], seq![])
    } else {
        let (ls, cur) = fill(ws.drop_last(), width);
        let w = ws.last();
        if cur.len() > 0 && cur.len() + 1 + w.len() > width {
            (ls.push(cur), w)
        } else if cur.len() > 0 {
            (ls, cur + seq![' '] + w)
        } else {
            (ls, w)
        }
    }
}

/// The lines of `text` wrapped at `width` characters: words are kept whole
/// and joined by single spaces; a width of zero leaves the text as it is.
pub open spec fn wrapped(text: Seq<char>, width: nat) -> Seq<Seq<char>> {
    if width == 0 {
        seq![text]
    } else {
        let (ls, cur) = fill(words(text), width);
        let all = if cur.len() > 0 {
            ls.push(cur)
        } else {
            ls
        };
        if all.len() == 0 {
            seq![seq![]]
        } else {
            all
        }
    }
}

/// The characters of the words plus one separator each.
pub open spec fn words_size(ws: Seq<Seq<char>>) -> nat
    decreases ws.len(),
{
    if ws.len() == 0 {
        0
    } else {
        words_size(ws.drop_last()) + ws.last().len() + 1
    }
}

proof fn lemma_words_size(s: Seq<char>)
    ensures
        words_size(words(s)) <= 2 * s.len(),
    decreases s.len(),
{
    if s.len() > 0 {
        lemma_words_size(s.drop_last());
        let w = words(s.drop_last());
        if !is_ws_char(s.last()) && s.len() >= 2 && !is_ws_char(s[s.len() - 2]) {
            assert(s.drop_last().last() == s[s.len() - 2]);
            crate::text::lemma_words_nonempty(s.drop_last());
            lemma_words_size_update(w, s.last());
        } else if !is_ws_char(s.last()) {
            assert(w.push(seq![s.last()]).drop_last() =~= w);
        }
    }
}

proof fn lemma_words_size_update(w: Seq<Seq<char>>, c: char)
    requires
        w.len() >= 1,
    ensures
        words_size(w.update(w.len() - 1, w.last().push(c))) == words_size(w) + 1,
{
    let u = w.update(w.len() - 1, w.last().push(c));
    assert(u.drop_last() =~= w.drop_last());
}

pub open spec fn is_ws_char(c: char) -> bool {
    crate::text::is_ws(c)
}

/// Wraps `text` into lines of at most `width` characters where the words
/// allow it.
pub fn wrap_text(text: &str, width: usize) -> (r: Vec<String>)
    requires
        text@.len() < usize::MAX / 4,
    ensures
        r.deep_view() == wrapped(text@, width as nat),
{
    if width == 0 {
        let mut v: Vec<String> = Vec::new();
        v.push(String::from_str(text));
        assert(v.deep_view() =~= seq![text@]);
        return v;
    }
    let ws = split_words(text);
    let ghost wv = ws.deep_view();
    proof {
        crate::text::lemma_words_nonempty(text@);
        lemma_words_size(text@);
    }
    let mut lines: Vec<String> = Vec::new();
    let mut cur = String::new();
    let mut cur_width: usize = 0;
    let mut i: usize = 0;
    assert(wv.subrange(0, 0) =~= Seq::<Seq<char>>::empty());
    while i < ws.len()
        invariant
            wv == ws.deep_view(),
            wv == words(text@),
            width > 0,
            i <= ws.len(),
            forall|k: int| 0 <= k < wv.len() ==> #[trigger] wv[k].len() >= 1,
            words_size(wv) <= 2 * text@.len(),
            text@.len() < usize::MAX / 4,
            cur_width == cur@.len(),
            cur@.len() <= words_size(wv.subrange(0, i as int)),
            (lines.deep_view(), cur@) == fill(wv.subrange(0, i as int), width as nat),
        decreases ws.len() - i,
    {
        let ghost pre = wv.subrange(0, i as int);
        let ghost next = wv.subrange(0, i + 1);
        assert(next.drop_last() =~= pre);
        assert(next.last() == ws[i as int]@);
        proof {
            lemma_words_size_prefix(wv, i as int + 1);
        }
        let word_width = ws[i].as_str().unicode_len();
        if cur_width > 0 && cur_width + 1 + word_width > width {
            let ghost before = lines.deep_view();
            let finished = cur;
            lines.push(finished);
            cur = String::from_str(ws[i].as_str());
            cur_width = word_width;
            assert(lines.deep_view() =~= before.push(fill(pre, width as nat).1));
        } else {
            if cur_width > 0 {
                push_char(&mut cur, ' ');
                cur_width = cur_width + 1;
            }
            push_str(&mut cur, ws[i].as_str());
            cur_width = cur_width + word_width;
            if cur_width == word_width {
                assert(cur@ =~= ws[i as int]@);
            }
        }
        i = i + 1;
    }
    assert(wv.subrange(0, ws.len() as int) =~= wv);
    if cur_width > 0 {
        let ghost before = lines.deep_view();
        let c = cur;
        lines.push(c);
        assert(lines.deep_view() =~= before.push(c@));
    }
    if lines.len() == 0 {
        let mut v: Vec<String> = Vec::new();
        v.push(String::new());
        assert(v.deep_view() =~= seq![Seq::<char>::empty()]);
        v
    } else {
        lines
    }
}

proof fn lemma_words_size_prefix(ws: Seq<Seq<char>>, i: int)
    requires
        0 <= i <= ws.len(),
    ensures
        words_size(ws.subrange(0, i)) <= words_size(ws),
    decreases ws.len(),
{
    if i < ws.len() {
        assert(ws.drop_last().subrange(0, i) =~= ws.subrange(0, i));
        lemma_words_size_prefix(ws.drop_last(), i);
    } else {
        assert(ws.subrange(0, i) =~= ws);
    }
}

} // verus!
