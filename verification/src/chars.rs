//! Character-level string helpers: trimming, prefixes, searching and
//! splitting, each specified over the string's sequence of characters.

use vstd::prelude::*;
use vstd::seq_lib::*;
use vstd::string::*;

use crate::trusted::push_char;

verus! {

/// The whitespace characters recognised when values are trimmed.
pub open spec fn is_ws(c: char) -> bool {
    c == ' ' || c == '\t' || c == '\n' || c == '\r'
}

/// A line-ending character.
pub open spec fn is_nl(c: char) -> bool {
    c == '\n' || c == '\r'
}

pub open spec fn trim_front_spec(s: Seq<char>) -> Seq<char>
    decreases s.len(),
{
    if s.len() > 0 && is_ws(s[0]) {
        trim_front_spec(s.drop_first())
    } else {
        s
    }
}

pub open spec fn trim_back_spec(s: Seq<char>) -> Seq<char>
    decreases s.len(),
{
    if s.len() > 0 && is_ws(s.last()) {
        trim_back_spec(s.drop_last())
    } else {
        s
    }
}

/// The text with leading and trailing whitespace removed.
pub open spec fn trim_spec(s: Seq<char>) -> Seq<char> {
    trim_back_spec(trim_front_spec(s))
}

fn is_ws_char(c: char) -> (b: bool)
    ensures
        b == is_ws(c),
{
    c == ' ' || c == '\t' || c == '\n' || c == '\r'
}

/// Removes leading and trailing whitespace.
pub fn trim_ws(s: &str) -> (r: String)
    ensures
        r@ == trim_spec(s@),
{
    let n = s.unicode_len();
    let mut i: usize = 0;
    proof {
        assert(s@.skip(0) =~= s@);
    }
    while i < n && is_ws_char(s.get_char(i))
        invariant
            0 <= i <= n == s@.len(),
            trim_front_spec(s@) == trim_front_spec(s@.skip(i as int)),
        decreases n - i,
    {
        proof {
            assert(s@.skip(i as int).drop_first() =~= s@.skip(i + 1));
        }
        i = i + 1;
    }
    proof {
        assert(trim_front_spec(s@.skip(i as int)) == s@.skip(i as int));
    }
    let mut j: usize = n;
    while j > i && is_ws_char(s.get_char(j - 1))
        invariant
            0 <= i <= j <= n == s@.len(),
            trim_front_spec(s@) == s@.skip(i as int),
            trim_back_spec(s@.skip(i as int)) == trim_back_spec(s@.subrange(i as int, j as int)),
        decreases j,
    {
        proof {
            assert(s@.subrange(i as int, j as int).last() == s@[j - 1]);
            assert(s@.subrange(i as int, j as int).drop_last() =~= s@.subrange(
                i as int,
                j - 1,
            ));
        }
        j = j - 1;
    }
    proof {
        assert(trim_back_spec(s@.subrange(i as int, j as int)) == s@.subrange(
            i as int,
            j as int,
        ));
    }
    s.substring_char(i, j).to_owned()
}

/// Whether `p` is a prefix of `s`, character for character.
pub fn has_prefix(s: &str, p: &str) -> (b: bool)
    ensures
        b == p@.is_prefix_of(s@),
{
    let n = p.unicode_len();
    let m = s.unicode_len();
    if n > m {
        return false;
    }
    for i in 0..n
        invariant
            n == p@.len() <= m == s@.len(),
            forall|j: int| 0 <= j < i ==> s@[j] == p@[j],
    {
        if s.get_char(i) != p.get_char(i) {
            proof {
                assert(s@.subrange(0, n as int)[i as int] != p@[i as int]);
            }
            return false;
        }
    }
    proof {
        assert(p@ =~= s@.subrange(0, n as int));
    }
    true
}

/// Appends `other` to `buf`.
pub fn append_str(buf: &mut String, other: &str)
    ensures
        final(buf)@ == old(buf)@ + other@,
{
    buf.append(other);
}

/// The buffer with a newline appended unless it is empty or already
/// ends in one: the whitespace policy before block-level output.
pub open spec fn ensure_nl_spec(s: Seq<char>) -> Seq<char> {
    if s.len() > 0 && !is_nl(s.last()) {
        s.push('\n')
    } else {
        s
    }
}

/// Makes a non-empty buffer end in a line break.
pub fn ensure_newline(buf: &mut String)
    ensures
        final(buf)@ == ensure_nl_spec(old(buf)@),
{
    let n = buf.as_str().unicode_len();
    if n > 0 {
        let c = buf.as_str().get_char(n - 1);
        if !(c == '\n' || c == '\r') {
            push_char(buf, '\n');
        }
    }
}

/// Appends `n` copies of `c` to `buf`.
pub fn append_repeat(buf: &mut String, c: char, n: usize)
    ensures
        final(buf)@ == old(buf)@ + Seq::new(n as nat, |k: int| c),
{
    for i in 0..n
        invariant
            buf@ == old(buf)@ + Seq::new(i as nat, |k: int| c),
    {
        push_char(buf, c);
        proof {
            assert(Seq::new((i + 1) as nat, |k: int| c) =~= Seq::new(i as nat, |k: int| c).push(
                c,
            ));
        }
    }
    proof {
        assert(old(buf)@ + Seq::new(n as nat, |k: int| c) =~= buf@);
    }
}

/// Index of the first occurrence of `c` in `s`, if any.
pub open spec fn find_spec(s: Seq<char>, c: char) -> Option<int>
    decreases s.len(),
{
    if s.len() == 0 {
        None
    } else if s[0] == c {
        Some(0)
    } else {
        match find_spec(s.drop_first(), c) {
            Some(i) => Some(i + 1),
            None => None,
        }
    }
}

pub proof fn lemma_find_spec(s: Seq<char>, c: char)
    ensures
        match find_spec(s, c) {
            Some(i) => 0 <= i < s.len() && s[i] == c && (forall|j: int| 0 <= j < i ==> s[j] != c),
            None => forall|j: int| 0 <= j < s.len() ==> s[j] != c,
        },
    decreases s.len(),
{
    if s.len() > 0 && s[0] != c {
        lemma_find_spec(s.drop_first(), c);
        match find_spec(s.drop_first(), c) {
            Some(i) => {
                assert(s[i + 1] == s.drop_first()[i]);
                assert forall|j: int| 0 <= j < i + 1 implies s[j] != c by {
                    if j > 0 {
                        assert(s[j] == s.drop_first()[j - 1]);
                    }
                }
            },
            None => {
                assert forall|j: int| 0 <= j < s.len() implies s[j] != c by {
                    if j > 0 {
                        assert(s[j] == s.drop_first()[j - 1]);
                    }
                }
            },
        }
    }
}

/// The text split at the first occurrence of `c`: the part before it
/// and the part after it, the separator itself dropped.
pub open spec fn split_once_spec(s: Seq<char>, c: char) -> Option<(Seq<char>, Seq<char>)> {
    match find_spec(s, c) {
        Some(i) => Some((s.take(i), s.skip(i + 1))),
        None => None,
    }
}

/// Splits at the first occurrence of `c`, if there is one.
pub fn split_once_char(s: &str, c: char) -> (r: Option<(String, String)>)
    ensures
        match split_once_spec(s@, c) {
            Some(parts) => r matches Some(pair) && pair.0@ == parts.0 && pair.1@ == parts.1,
            None => r is None,
        },
{
    let n = s.unicode_len();
    for i in 0..n
        invariant
            n == s@.len(),
            forall|j: int| 0 <= j < i ==> s@[j] != c,
    {
        if s.get_char(i) == c {
            proof {
                lemma_find_spec(s@, c);
            }
            let before = s.substring_char(0, i).to_owned();
            let after = s.substring_char(i + 1, n).to_owned();
            proof {
                assert(s@.subrange(0, i as int) =~= s@.take(i as int));
                assert(s@.subrange(i + 1, n as int) =~= s@.skip(i + 1));
            }
            return Some((before, after));
        }
    }
    proof {
        lemma_find_spec(s@, c);
    }
    None
}

/// The text with every leading repetition of `p` removed, as
/// `str::trim_start_matches` does.
pub open spec fn strip_all_spec(s: Seq<char>, p: Seq<char>) -> Seq<char>
    decreases s.len(),
{
    if p.len() > 0 && p.is_prefix_of(s) {
        strip_all_spec(s.skip(p.len() as int), p)
    } else {
        s
    }
}

/// Removes every leading repetition of `p` from `s`.
pub fn strip_all(s: &str, p: &str) -> (r: String)
    ensures
        r@ == strip_all_spec(s@, p@),
{
    let pl = p.unicode_len();
    if pl == 0 {
        return s.to_owned();
    }
    let mut cur = s.to_owned();
    loop
        invariant
            pl == p@.len(),
            pl > 0,
            strip_all_spec(s@, p@) == strip_all_spec(cur@, p@),
        decreases cur@.len(),
    {
        if has_prefix(cur.as_str(), p) {
            let n = cur.as_str().unicode_len();
            let next = cur.as_str().substring_char(pl, n).to_owned();
            proof {
                assert(cur@.subrange(pl as int, n as int) =~= cur@.skip(pl as int));
            }
            cur = next;
        } else {
            return cur;
        }
    }
}

/// The pieces of `s` between occurrences of `sep`, in order; a text
/// without the separator is one piece.
pub open spec fn segments_spec(s: Seq<char>, sep: char) -> Seq<Seq<char>>
    decreases s.len(),
    via segments_spec_dec
{
    match find_spec(s, sep) {
        Some(i) => seq![s.take(i)] + segments_spec(s.skip(i + 1), sep),
        None => seq![s],
    }
}

#[via_fn]
proof fn segments_spec_dec(s: Seq<char>, sep: char) {
    lemma_find_spec(s, sep);
}

/// Whether some piece of `s`, split at `sep`, equals `t`.
pub open spec fn has_segment(s: Seq<char>, sep: char, t: Seq<char>) -> bool {
    segments_spec(s, sep).contains(t)
}

/// Tests whether splitting `s` at `sep` yields a piece equal to `t`.
pub fn contains_segment(s: &str, sep: char, t: &str) -> (b: bool)
    ensures
        b == has_segment(s@, sep, t@),
{
    let mut cur = s.to_owned();
    let ghost mut seen: Seq<Seq<char>> = Seq::empty();
    loop
        invariant
            segments_spec(s@, sep) =~= seen + segments_spec(cur@, sep),
            forall|j: int| 0 <= j < seen.len() ==> seen[j] != t@,
        decreases cur@.len(),
    {
        match split_once_char(cur.as_str(), sep) {
            Some(pair) => {
                proof {
                    lemma_find_spec(cur@, sep);
                }
                if str_eq(pair.0.as_str(), t) {
                    proof {
                        let i = find_spec(cur@, sep).unwrap();
                        assert(segments_spec(cur@, sep)[0] == cur@.take(i));
                        assert(segments_spec(s@, sep).contains(t@)) by {
                            assert(segments_spec(s@, sep)[seen.len() as int] == t@);
                        }
                    }
                    return true;
                }
                proof {
                    seen = seen.push(pair.0@);
                }
                cur = pair.1;
            },
            None => {
                if str_eq(cur.as_str(), t) {
                    proof {
                        assert(segments_spec(s@, sep).contains(t@)) by {
                            assert(segments_spec(s@, sep)[seen.len() as int] == t@);
                        }
                    }
                    return true;
                }
                proof {
                    assert(segments_spec(cur@, sep) =~= seq![cur@]);
                    assert forall|k: int| 0 <= k < segments_spec(s@, sep).len() implies segments_spec(
                        s@,
                        sep,
                    )[k] != t@ by {
                        if k < seen.len() {
                        } else {
                            assert(segments_spec(s@, sep)[k] == cur@);
                        }
                    }
                }
                return false;
            },
        }
    }
}

/// Compares two string slices character for character.
pub fn str_eq(a: &str, b: &str) -> (r: bool)
    ensures
        r == (a@ == b@),
{
    let oa = a.to_owned();
    let ob = b.to_owned();
    let r = oa == ob;
    proof {
        if a@ == b@ {
            assert(r);
        }
    }
    r
}

/// Index of the last occurrence of `c` in `s`, if any.
pub open spec fn rfind_spec(s: Seq<char>, c: char) -> Option<int>
    decreases s.len(),
{
    if s.len() == 0 {
        None
    } else if s.last() == c {
        Some(s.len() - 1)
    } else {
        rfind_spec(s.drop_last(), c)
    }
}

pub proof fn lemma_rfind_spec(s: Seq<char>, c: char)
    ensures
        match rfind_spec(s, c) {
            Some(i) => 0 <= i < s.len() && s[i] == c && (forall|j: int|
                i < j < s.len() ==> s[j] != c),
            None => forall|j: int| 0 <= j < s.len() ==> s[j] != c,
        },
    decreases s.len(),
{
    if s.len() > 0 && s.last() != c {
        lemma_rfind_spec(s.drop_last(), c);
        assert(forall|j: int| 0 <= j < s.drop_last().len() ==> s.drop_last()[j] == s[j]);
    }
}

/// Finds the last occurrence of `c` in `s`.
pub fn rfind_char(s: &str, c: char) -> (r: Option<usize>)
    ensures
        match rfind_spec(s@, c) {
            Some(i) => r matches Some(k) && k == i,
            None => r is None,
        },
{
    let n = s.unicode_len();
    let mut j: usize = n;
    while j > 0
        invariant
            0 <= j <= n == s@.len(),
            forall|k: int| j <= k < n ==> s@[k] != c,
        decreases j,
    {
        if s.get_char(j - 1) == c {
            proof {
                lemma_rfind_spec(s@, c);
            }
            return Some(j - 1);
        }
        j = j - 1;
    }
    proof {
        lemma_rfind_spec(s@, c);
    }
    None
}

/// Text re-prefixed for a block quote: every embedded line break is
/// followed by a fresh quote marker.
pub open spec fn quote_text_spec(t: Seq<char>) -> Seq<char>
    decreases t.len(),
{
    if t.len() == 0 {
        Seq::empty()
    } else if t[0] == '\n' {
        "\n> "@ + quote_text_spec(t.drop_first())
    } else {
        seq![t[0]] + quote_text_spec(t.drop_first())
    }
}

pub proof fn lemma_quote_text_concat(a: Seq<char>, b: Seq<char>)
    ensures
        quote_text_spec(a + b) == quote_text_spec(a) + quote_text_spec(b),
    decreases a.len(),
{
    if a.len() == 0 {
        assert(a + b =~= b);
        assert(quote_text_spec(a) + quote_text_spec(b) =~= quote_text_spec(b));
    } else {
        lemma_quote_text_concat(a.drop_first(), b);
        assert((a + b).drop_first() =~= a.drop_first() + b);
        assert((a + b)[0] == a[0]);
        if a[0] == '\n' {
            assert(quote_text_spec(a + b) =~= quote_text_spec(a) + quote_text_spec(b));
        } else {
            assert(quote_text_spec(a + b) =~= quote_text_spec(a) + quote_text_spec(b));
        }
    }
}

/// Appends `t` to `buf` with block-quote continuation markers.
pub fn append_quoted(buf: &mut String, t: &str)
    ensures
        final(buf)@ == old(buf)@ + quote_text_spec(t@),
{
    let n = t.unicode_len();
    proof {
        assert(t@.take(0) =~= Seq::<char>::empty());
        assert(old(buf)@ + quote_text_spec(t@.take(0)) =~= old(buf)@);
    }
    for i in 0..n
        invariant
            n == t@.len(),
            buf@ == old(buf)@ + quote_text_spec(t@.take(i as int)),
    {
        let c = t.get_char(i);
        if c == '\n' {
            append_str(buf, "\n> ");
        } else {
            push_char(buf, c);
        }
        proof {
            assert(t@.take(i + 1) =~= t@.take(i as int) + seq![t@[i as int]]);
            lemma_quote_text_concat(t@.take(i as int), seq![t@[i as int]]);
            assert(seq![t@[i as int]].drop_first() =~= Seq::<char>::empty());
            assert(quote_text_spec(Seq::<char>::empty()) =~= Seq::<char>::empty());
            assert(seq![t@[i as int]][0] == t@[i as int]);
            if c == '\n' {
                assert(quote_text_spec(seq![t@[i as int]]) =~= "\n> "@);
            } else {
                assert(quote_text_spec(seq![t@[i as int]]) =~= seq![t@[i as int]]);
            }
            assert(buf@ =~= old(buf)@ + quote_text_spec(t@.take(i + 1)));
        }
    }
    proof {
        assert(t@.take(n as int) =~= t@);
    }
}

} // verus!
