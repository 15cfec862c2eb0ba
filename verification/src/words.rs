//! Splitting a string into the words that white space separates.

use vstd::prelude::*;
use vstd::string::*;

verus! {

/// The characters with the Unicode property `White_Space`.
pub open spec fn is_space(c: char) -> bool {
    let u = c as u32;
    (0x09 <= u <= 0x0D) || u == 0x20 || u == 0x85 || u == 0xA0 || u == 0x1680 || (0x2000 <= u
        <= 0x200A) || u == 0x2028 || u == 0x2029 || u == 0x202F || u == 0x205F || u == 0x3000
}

/// The first place from `from` on that holds no white space; the length where there is none.
pub open spec fn word_start(s: Seq<char>, from: int) -> int
    decreases s.len() - from,
{
    if from < 0 || from >= s.len() {
        s.len() as int
    } else if !is_space(s[from]) {
        from
    } else {
        word_start(s, from + 1)
    }
}

/// The first place from `from` on that holds white space; the length where there is none.
pub open spec fn word_end(s: Seq<char>, from: int) -> int
    decreases s.len() - from,
{
    if from < 0 || from >= s.len() {
        s.len() as int
    } else if is_space(s[from]) {
        from
    } else {
        word_end(s, from + 1)
    }
}

/// The words of `s` that begin at `from` or later, in their order.
pub open spec fn words_from(s: Seq<char>, from: int) -> Seq<Seq<char>>
    decreases s.len() - from,
{
    let start = word_start(s, from);
    if from < 0 || start >= s.len() {
        Seq::empty()
    } else {
        let end = word_end(s, start);
        if from <= start < end <= s.len() {
            seq![s.subrange(start, end)] + words_from(s, end)
        } else {
            Seq::empty()
        }
    }
}

/// The words of `s`: its longest runs of characters that are not white space.
pub open spec fn words(s: Seq<char>) -> Seq<Seq<char>> {
    words_from(s, 0)
}

/// A word that begins at `from` ends behind `from`, and no word ends behind the string.
pub proof fn lemma_word_end_bounds(s: Seq<char>, from: int)
    requires
        0 <= from <= s.len(),
    ensures
        from <= word_end(s, from) <= s.len(),
        from < s.len() && !is_space(s[from]) ==> from < word_end(s, from),
    decreases s.len() - from,
{
    if from < s.len() && !is_space(s[from]) {
        lemma_word_end_bounds(s, from + 1);
    }
}

/// Whether `c` is white space.
pub fn is_space_char(c: char) -> (r: bool)
    ensures
        r == is_space(c),
{
    let u: u32 = c as u32;
    (0x09 <= u && u <= 0x0D) || u == 0x20 || u == 0x85 || u == 0xA0 || u == 0x1680 || (0x2000
        <= u && u <= 0x200A) || u == 0x2028 || u == 0x2029 || u == 0x202F || u == 0x205F || u
        == 0x3000
}

/// The words of `text`, in their order.
pub fn split_words(text: &str) -> (r: Vec<String>)
    ensures
        r@.map_values(|w: String| w@) == words(text@),
{
    let n = text.unicode_len();
    let mut out: Vec<String> = Vec::new();
    let mut i: usize = 0;
    let ghost s = text@;
    assert(out@.map_values(|w: String| w@) + words_from(s, 0) =~= words(s));
    while i < n
        invariant
            s == text@,
            n == s.len(),
            i <= n,
            out@.map_values(|w: String| w@) + words_from(s, i as int) == words(s),
        decreases n - i,
    {
        if is_space_char(text.get_char(i)) {
            i += 1;
        } else {
            let start = i;
            proof {
                lemma_word_end_bounds(s, start as int);
            }
            i += 1;
            while i < n && !is_space_char(text.get_char(i))
                invariant
                    s == text@,
                    n == s.len(),
                    start < i <= n,
                    word_end(s, start as int) == word_end(s, i as int),
                decreases n - i,
            {
                i += 1;
            }
            let word = String::from_str(text.substring_char(start, i));
            proof {
                let before = out@.map_values(|w: String| w@);
                assert(word_start(s, start as int) == start);
                assert(word_end(s, start as int) == i);
                assert(words_from(s, start as int) == seq![s.subrange(start as int, i as int)]
                    + words_from(s, i as int));
                assert(out@.push(word).map_values(|w: String| w@) =~= before + seq![word@]);
                assert(before + seq![word@] + words_from(s, i as int) =~= before + words_from(
                    s,
                    start as int,
                ));
            }
            out.push(word);
        }
    }
    proof {
        assert(words_from(s, n as int) =~= Seq::<Seq<char>>::empty());
        assert(out@.map_values(|w: String| w@) + Seq::<Seq<char>>::empty() =~= out@.map_values(
            |w: String| w@,
        ));
    }
    out
}

} // verus!
