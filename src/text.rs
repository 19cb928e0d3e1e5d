//! Plain text helpers: whitespace splitting of command lines and prefixes.
use vstd::prelude::*;
use vstd::string::*;

verus! {

/// The characters with the Unicode `White_Space` property.
pub open spec fn is_space(c: char) -> bool {
    ('\u{9}' <= c && c <= '\u{d}') || c == ' ' || c == '\u{85}' || c == '\u{a0}'
        || c == '\u{1680}' || ('\u{2000}' <= c && c <= '\u{200a}') || c == '\u{2028}'
        || c == '\u{2029}' || c == '\u{202f}' || c == '\u{205f}' || c == '\u{3000}'
}

/// The words of `s` found by a scan that is at position `i`, where the word
/// being read began at `start` (`start == i` when no word is being read).
pub open spec fn words_from(s: Seq<char>, i: int, start: int) -> Seq<Seq<char>>
    decreases s.len() - i,
{
    if i >= s.len() {
        if start < s.len() {
            seq![s.subrange(start, s.len() as int)]
        } else {
            seq![]
        }
    } else if is_space(s[i]) {
        let done: Seq<Seq<char>> = if start < i {
            seq![s.subrange(start, i)]
        } else {
            seq![]
        };
        done + words_from(s, i + 1, i + 1)
    } else {
        words_from(s, i + 1, start)
    }
}

/// The maximal runs of non-whitespace characters of `s`, in order.
pub open spec fn words(s: Seq<char>) -> Seq<Seq<char>> {
    words_from(s, 0, 0)
}

/// What a word is: each word is non-empty, holds no whitespace, and stands
/// in `s`, at or after the scan's `start`.
pub open spec fn is_word_of(s: Seq<char>, w: Seq<char>, start: int) -> bool {
    &&& w.len() > 0
    &&& forall|x: int| 0 <= x < w.len() ==> !is_space(#[trigger] w[x])
    &&& exists|a: int| start <= a && a + w.len() <= s.len() && #[trigger] s.subrange(a, a + w.len()) == w
}

proof fn lemma_words_from(s: Seq<char>, i: int, start: int)
    requires
        0 <= start <= i <= s.len(),
        forall|x: int| start <= x < i ==> !is_space(s[x]),
    ensures
        forall|k: int| 0 <= k < words_from(s, i, start).len() ==> is_word_of(
            s,
            #[trigger] words_from(s, i, start)[k],
            start,
        ),
    decreases s.len() - i,
{
    let ws = words_from(s, i, start);
    if i >= s.len() {
        if start < s.len() {
            let w = s.subrange(start, s.len() as int);
            assert(s.subrange(start, start + w.len()) == w);
            assert(is_word_of(s, w, start));
            assert(ws =~= seq![w]);
        } else {
            assert(ws.len() == 0);
        }
    } else if is_space(s[i]) {
        lemma_words_from(s, i + 1, i + 1);
        let rest = words_from(s, i + 1, i + 1);
        if start < i {
            let w = s.subrange(start, i);
            assert(s.subrange(start, start + w.len()) == w);
            assert(is_word_of(s, w, start));
            assert forall|k: int| 0 <= k < ws.len() implies is_word_of(s, #[trigger] ws[k], start) by {
                if k == 0 {
                } else {
                    assert(ws[k] == rest[k - 1]);
                    assert(is_word_of(s, rest[k - 1], i + 1));
                    let a = choose|a: int| i + 1 <= a && a + rest[k - 1].len() <= s.len()
                        && #[trigger] s.subrange(a, a + rest[k - 1].len()) == rest[k - 1];
                    assert(start <= a);
                }
            }
        } else {
            assert forall|k: int| 0 <= k < ws.len() implies is_word_of(s, #[trigger] ws[k], start) by {
                assert(ws[k] == rest[k]);
                assert(is_word_of(s, rest[k], i + 1));
                let a = choose|a: int| i + 1 <= a && a + rest[k].len() <= s.len()
                    && #[trigger] s.subrange(a, a + rest[k].len()) == rest[k];
                assert(start <= a);
            }
        }
    } else {
        lemma_words_from(s, i + 1, start);
        assert(ws == words_from(s, i + 1, start));
    }
}

/// Each word of `s` is non-empty, holds no whitespace, and stands in `s`.
pub proof fn lemma_words_are_words(s: Seq<char>)
    ensures
        forall|k: int| 0 <= k < words(s).len() ==> is_word_of(s, #[trigger] words(s)[k], 0),
{
    lemma_words_from(s, 0, 0);
}

/// Whether `c` is a whitespace character.
pub fn is_space_char(c: char) -> (r: bool)
    ensures
        r == is_space(c),
{
    ('\u{9}' <= c && c <= '\u{d}') || c == ' ' || c == '\u{85}' || c == '\u{a0}'
        || c == '\u{1680}' || ('\u{2000}' <= c && c <= '\u{200a}') || c == '\u{2028}'
        || c == '\u{2029}' || c == '\u{202f}' || c == '\u{205f}' || c == '\u{3000}'
}

/// Splits `s` on whitespace into its words.
pub fn split_words(s: &str) -> (r: Vec<String>)
    ensures
        r@.map_values(|w: String| w@) == words(s@),
{
    let n = s.unicode_len();
    let mut out: Vec<String> = Vec::new();
    let mut start: usize = 0;
    let mut i: usize = 0;
    while i < n
        invariant
            n == s@.len(),
            start <= i <= n,
            out@.map_values(|w: String| w@) + words_from(s@, i as int, start as int) == words(s@),
        decreases n - i,
    {
        let c = s.get_char(i);
        let ghost prev = out@.map_values(|w: String| w@);
        if is_space_char(c) {
            if start < i {
                let w = s.substring_char(start, i).to_owned();
                out.push(w);
                assert(out@.map_values(|w: String| w@) =~= prev.push(
                    s@.subrange(start as int, i as int),
                ));
                assert(prev + words_from(s@, i as int, start as int) =~= out@.map_values(
                    |w: String| w@,
                ) + words_from(s@, i + 1, i + 1));
            } else {
                assert(words_from(s@, i as int, start as int) =~= words_from(s@, i + 1, i + 1));
            }
            start = i + 1;
        }
        i = i + 1;
    }
    if start < n {
        let ghost prev = out@.map_values(|w: String| w@);
        let w = s.substring_char(start, n).to_owned();
        out.push(w);
        assert(out@.map_values(|w: String| w@) =~= prev.push(s@.subrange(start as int, n as int)));
    }
    assert(out@.map_values(|w: String| w@) =~= words(s@));
    out
}


/// Whether `s` begins with `prefix`.
pub open spec fn has_prefix(s: Seq<char>, prefix: Seq<char>) -> bool {
    prefix.len() <= s.len() && s.subrange(0, prefix.len() as int) == prefix
}

/// Whether `s` begins with `prefix`.
pub fn starts_with(s: &str, prefix: &str) -> (r: bool)
    ensures
        r == has_prefix(s@, prefix@),
{
    let n = prefix.unicode_len();
    if n > s.unicode_len() {
        return false;
    }
    let mut i: usize = 0;
    while i < n
        invariant
            n == prefix@.len() <= s@.len(),
            i <= n,
            forall|j: int| 0 <= j < i ==> s@[j] == prefix@[j],
        decreases n - i,
    {
        if s.get_char(i) != prefix.get_char(i) {
            assert(s@.subrange(0, n as int)[i as int] != prefix@[i as int]);
            return false;
        }
        i = i + 1;
    }
    assert(s@.subrange(0, n as int) =~= prefix@);
    true
}

} // verus!
