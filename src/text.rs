//! Whitespace and word splitting over Unicode scalar values.

use vstd::prelude::*;
use vstd::string::*;

verus! {

/// The characters with the Unicode `White_Space` property.
pub open spec fn is_ws(c: char) -> bool {
    ('\u{9}' <= c && c <= '\u{d}') || c == ' ' || c == '\u{85}' || c == '\u{a0}'
        || c == '\u{1680}' || ('\u{2000}' <= c && c <= '\u{200a}') || c == '\u{2028}'
        || c == '\u{2029}' || c == '\u{202f}' || c == '\u{205f}' || c == '\u{3000}'
}

/// Whether `c` is a Unicode whitespace character.
pub fn is_ws_char(c: char) -> (r: bool)
    ensures
        r == is_ws(c),
{
    ('\u{9}' <= c && c <= '\u{d}') || c == ' ' || c == '\u{85}' || c == '\u{a0}'
        || c == '\u{1680}' || ('\u{2000}' <= c && c <= '\u{200a}') || c == '\u{2028}'
        || c == '\u{2029}' || c == '\u{202f}' || c == '\u{205f}' || c == '\u{3000}'
}

/// Length of the longest prefix of `s` whose characters are all blank
/// (`blank == true`) or all non-blank (`blank == false`).
pub open spec fn run_len(s: Seq<char>, blank: bool) -> nat
    decreases s.len(),
{
    if s.len() > 0 && is_ws(s[0]) == blank {
        1 + run_len(s.drop_first(), blank)
    } else {
        0
    }
}

/// The words of `s` read after the partial word `cur`: maximal runs of
/// non-whitespace characters, in order.
pub open spec fn words_from(s: Seq<char>, cur: Seq<char>) -> Seq<Seq<char>>
    decreases s.len(),
{
    if s.len() == 0 {
        if cur.len() > 0 { seq![cur] } else { seq![] }
    } else if is_ws(s[0]) {
        (if cur.len() > 0 { seq![cur] } else { seq![] }) + words_from(s.drop_first(), seq![])
    } else {
        words_from(s.drop_first(), cur.push(s[0]))
    }
}

/// The whitespace-separated words of `s`.
pub open spec fn words(s: Seq<char>) -> Seq<Seq<char>> {
    words_from(s, seq![])
}

/// The character sequences of a list of strings.
pub open spec fn views(v: Seq<String>) -> Seq<Seq<char>> {
    v.map_values(|w: String| w@)
}

proof fn lemma_run_len_step(s: Seq<char>, j: int, blank: bool)
    requires
        0 <= j < s.len(),
        is_ws(s[j]) == blank,
    ensures
        run_len(s.skip(j), blank) == 1 + run_len(s.skip(j + 1), blank),
{
    assert(s.skip(j).drop_first() =~= s.skip(j + 1));
}

pub proof fn lemma_run_len_bound(s: Seq<char>, blank: bool)
    ensures
        run_len(s, blank) <= s.len(),
        forall|k: int| 0 <= k < run_len(s, blank) ==> is_ws(#[trigger] s[k]) == blank,
        run_len(s, blank) < s.len() ==> is_ws(s[run_len(s, blank) as int]) != blank,
    decreases s.len(),
{
    if s.len() > 0 && is_ws(s[0]) == blank {
        lemma_run_len_bound(s.drop_first(), blank);
        assert forall|k: int| 0 <= k < run_len(s, blank) implies is_ws(#[trigger] s[k])
            == blank by {
            if k > 0 {
                assert(s[k] == s.drop_first()[k - 1]);
            }
        }
    }
}

/// Scans forward from `i` while the characters are blank (or non-blank).
pub fn scan_run(s: &str, n: usize, i: usize, blank: bool) -> (j: usize)
    requires
        n == s@.len(),
        i <= n,
    ensures
        i <= j <= n,
        j == i + run_len(s@.skip(i as int), blank),
{
    let mut j = i;
    while j < n && is_ws_char(s.get_char(j)) == blank
        invariant
            n == s@.len(),
            i <= j <= n,
            run_len(s@.skip(i as int), blank) == (j - i) + run_len(s@.skip(j as int), blank),
        decreases n - j,
    {
        proof {
            lemma_run_len_step(s@, j as int, blank);
        }
        j = j + 1;
    }
    proof {
        if j < n {
            assert(s@.skip(j as int)[0] == s@[j as int]);
        }
    }
    j
}

/// Splits `s` into its whitespace-separated words.
pub fn split_words(s: &str) -> (r: Vec<String>)
    ensures
        views(r@) == words(s@),
{
    let n = s.unicode_len();
    let mut out: Vec<String> = Vec::new();
    let mut start: usize = 0;
    let mut i: usize = 0;
    proof {
        assert(views(out@) =~= Seq::<Seq<char>>::empty());
        assert(s@.skip(0) =~= s@);
        assert(s@.subrange(0, 0) =~= Seq::<char>::empty());
        assert(views(out@) + words(s@) =~= words(s@));
    }
    while i < n
        invariant
            n == s@.len(),
            start <= i <= n,
            views(out@) + words_from(s@.skip(i as int), s@.subrange(start as int, i as int))
                == words(s@),
        decreases n - i,
    {
        let c = s.get_char(i);
        proof {
            assert(s@.skip(i as int).drop_first() =~= s@.skip(i + 1));
            assert(s@.skip(i as int)[0] == c);
        }
        if is_ws_char(c) {
            if start < i {
                let w = String::from_str(s.substring_char(start, i));
                let ghost prev = out@;
                out.push(w);
                proof {
                    assert(views(out@) =~= views(prev) + seq![w@]);
                }
            }
            proof {
                assert(s@.subrange(i + 1, i + 1) =~= Seq::<char>::empty());
            }
            start = i + 1;
        } else {
            proof {
                assert(s@.subrange(start as int, i + 1) =~= s@.subrange(start as int, i as int).push(c));
            }
        }
        i = i + 1;
    }
    if start < i {
        let w = String::from_str(s.substring_char(start, i));
        let ghost prev = out@;
        out.push(w);
        proof {
            assert(views(out@) =~= views(prev) + seq![w@]);
        }
    }
    proof {
        assert(s@.skip(n as int).len() == 0);
    }
    out
}

} // verus!
