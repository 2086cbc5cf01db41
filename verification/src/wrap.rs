//! Wrapping a message into short lines for the log modal: whitespace
//! splitting, greedy packing (at most five words, at most 32 bytes per
//! proposed line), and joining with newlines.

use vstd::prelude::*;
use vstd::string::StrSliceExecFns;
use vstd::string::StringExecFns;
use crate::strutil::{char_is_whitespace, is_space};

verus! {

/// The first position at or after `i` holding no whitespace.
pub open spec fn skip_spaces(s: Seq<char>, i: int) -> int
    decreases s.len() - i,
{
    if 0 <= i < s.len() && is_space(s[i]) {
        skip_spaces(s, i + 1)
    } else {
        i
    }
}

/// The end of the word starting at `i`: the first position at or after
/// `i` holding whitespace, or the end of the text.
pub open spec fn word_end(s: Seq<char>, i: int) -> int
    decreases s.len() - i,
{
    if 0 <= i < s.len() && !is_space(s[i]) {
        word_end(s, i + 1)
    } else {
        i
    }
}

proof fn lemma_skip_spaces(s: Seq<char>, i: int)
    requires
        0 <= i <= s.len(),
    ensures
        i <= skip_spaces(s, i) <= s.len(),
        skip_spaces(s, i) == s.len() || !is_space(s[skip_spaces(s, i)]),
    decreases s.len() - i,
{
    if i < s.len() && is_space(s[i]) {
        lemma_skip_spaces(s, i + 1);
    }
}

proof fn lemma_word_end(s: Seq<char>, i: int)
    requires
        0 <= i <= s.len(),
    ensures
        i <= word_end(s, i) <= s.len(),
        i < s.len() && !is_space(s[i]) ==> word_end(s, i) > i,
    decreases s.len() - i,
{
    if i < s.len() && !is_space(s[i]) {
        lemma_word_end(s, i + 1);
    }
}

/// The whitespace-separated words of `s`, from position `i` on.
pub open spec fn words_from(s: Seq<char>, i: int) -> Seq<Seq<char>>
    decreases s.len() - i
        when 0 <= i <= s.len()
        via words_from_decreases
{
    let j = skip_spaces(s, i);
    if j >= s.len() {
        Seq::<Seq<char>>::empty()
    } else {
        seq![s.subrange(j, word_end(s, j))] + words_from(s, word_end(s, j))
    }
}

#[via_fn]
proof fn words_from_decreases(s: Seq<char>, i: int) {
    lemma_skip_spaces(s, i);
    if skip_spaces(s, i) < s.len() {
        lemma_word_end(s, skip_spaces(s, i));
    }
}

/// The byte length of a proposed line, as the packing rule measures it.
pub open spec fn byte_len(s: Seq<char>) -> nat {
    vstd::utf8::encode_utf8(s).len()
}

/// The greedy packing: each word is appended to the line being built
/// unless that line already holds five words or the proposed line would
/// exceed 32 bytes, in which case the built line is emitted and the word
/// starts a new one.
pub open spec fn pack_from(
    words: Seq<Seq<char>>,
    i: int,
    current: Seq<char>,
    count: int,
) -> Seq<Seq<char>>
    decreases words.len() - i
        when 0 <= i <= words.len()
{
    if i >= words.len() {
        if current.len() > 0 {
            seq![current]
        } else {
            Seq::<Seq<char>>::empty()
        }
    } else {
        let w = words[i];
        let proposed = if current.len() == 0 {
            w
        } else {
            current + seq![' '] + w
        };
        if count == 5 || byte_len(proposed) as usize > 32 {
            seq![current] + pack_from(words, i + 1, w, 1)
        } else {
            pack_from(words, i + 1, proposed, count + 1)
        }
    }
}

/// The lines joined with newlines.
pub open spec fn join_nl(ls: Seq<Seq<char>>) -> Seq<char>
    decreases ls.len(),
{
    if ls.len() == 0 {
        Seq::<char>::empty()
    } else if ls.len() == 1 {
        ls[0]
    } else {
        join_nl(ls.drop_last()) + seq!['\n'] + ls.last()
    }
}

/// The ghost image of a list of strings.
pub open spec fn strs_view(ss: Seq<String>) -> Seq<Seq<char>> {
    ss.map_values(|w: String| w@)
}

proof fn lemma_strs_view(ss: Seq<String>)
    ensures
        strs_view(ss).len() == ss.len(),
        forall|i: int| 0 <= i < ss.len() ==> strs_view(ss)[i] == (#[trigger] ss[i])@,
{
}

/// Splits the text into its whitespace-separated words.
fn split_words(s: &str) -> (r: Vec<String>)
    ensures
        strs_view(r@) == words_from(s@, 0),
{
    let n = s.unicode_len();
    let mut words: Vec<String> = Vec::new();
    let mut i: usize = 0;
    proof {
        lemma_strs_view(words@);
        assert(strs_view(words@) + words_from(s@, 0) =~= words_from(s@, 0));
    }
    while i < n
        invariant
            i <= n,
            n == s@.len(),
            words_from(s@, 0) == strs_view(words@) + words_from(s@, i as int),
        decreases n - i,
    {
        if char_is_whitespace(s.get_char(i)) {
            proof {
                assert(skip_spaces(s@, i as int) == skip_spaces(s@, i as int + 1));
                assert(words_from(s@, i as int) == words_from(s@, i as int + 1));
            }
            i = i + 1;
        } else {
            let start = i;
            i = i + 1;
            proof {
                assert(word_end(s@, start as int) == word_end(s@, i as int));
            }
            while i < n && !char_is_whitespace(s.get_char(i))
                invariant
                    start < i <= n,
                    n == s@.len(),
                    word_end(s@, start as int) == word_end(s@, i as int),
                decreases n - i,
            {
                proof {
                    assert(word_end(s@, i as int) == word_end(s@, i as int + 1));
                }
                i = i + 1;
            }
            proof {
                assert(word_end(s@, i as int) == i);
                lemma_skip_spaces(s@, start as int);
                assert(skip_spaces(s@, start as int) == start);
            }
            let w = String::from_str(s.substring_char(start, i));
            let ghost prev = words@;
            words.push(w);
            proof {
                lemma_strs_view(prev);
                lemma_strs_view(words@);
                assert(words_from(s@, start as int) == seq![
                    s@.subrange(start as int, i as int),
                ] + words_from(s@, i as int));
                assert(strs_view(words@) =~= strs_view(prev) + seq![
                    s@.subrange(start as int, i as int),
                ]);
                assert(strs_view(words@) + words_from(s@, i as int) =~= strs_view(prev)
                    + words_from(s@, start as int));
            }
        }
    }
    proof {
        assert(skip_spaces(s@, n as int) == n);
        assert(words_from(s@, n as int) =~= Seq::<Seq<char>>::empty());
        assert(strs_view(words@) =~= words_from(s@, 0));
    }
    words
}

/// Wraps a message into lines of at most five words or 32 proposed
/// bytes, and reports how many lines came out; a single-word message
/// comes back untouched.
pub fn into_lines(content: String) -> (r: (u16, String))
    ensures
        ({
            let ws = words_from(content@, 0);
            &&& (ws.len() == 1 ==> r.0 == 1u16 && r.1 == content)
            &&& (ws.len() != 1 ==> ({
                let lines = pack_from(ws, 0, Seq::<char>::empty(), 0);
                &&& r.0 == lines.len() as u16
                &&& r.1@ == join_nl(lines)
            }))
        }),
{
    let ghost ws = words_from(content@, 0);
    let words = split_words(content.as_str());
    proof {
        lemma_strs_view(words@);
    }
    if words.len() == 1 {
        return (1, content);
    }
    let mut lines: Vec<String> = Vec::new();
    let mut current = String::new();
    let mut count: usize = 0;
    let mut k: usize = 0;
    proof {
        lemma_strs_view(lines@);
        assert(strs_view(lines@) + pack_from(ws, 0, current@, 0) =~= pack_from(
            ws,
            0,
            Seq::<char>::empty(),
            0,
        ));
    }
    while k < words.len()
        invariant
            k <= words@.len(),
            count <= 5,
            ws == strs_view(words@),
            pack_from(ws, 0, Seq::<char>::empty(), 0) == strs_view(lines@) + pack_from(
                ws,
                k as int,
                current@,
                count as int,
            ),
        decreases words@.len() - k,
    {
        let w = &words[k];
        proof {
            lemma_strs_view(words@);
            assert(ws[k as int] == w@);
        }
        let proposed: String = if current.as_str().is_empty() {
            w.clone()
        } else {
            let mut p = current.clone();
            p.append(" ");
            p.append(w.as_str());
            proof {
                reveal_strlit(" ");
                assert(p@ =~= current@ + seq![' '] + w@);
            }
            p
        };
        if count == 5 || proposed.as_str().len() > 32 {
            let ghost prev_lines = lines@;
            lines.push(current);
            current = w.clone();
            count = 1;
            proof {
                lemma_strs_view(prev_lines);
                lemma_strs_view(lines@);
                assert(strs_view(lines@) =~= strs_view(prev_lines).push(lines@.last()@));
                assert(strs_view(lines@) + pack_from(ws, k as int + 1, current@, 1)
                    =~= strs_view(prev_lines) + (seq![lines@.last()@] + pack_from(
                    ws,
                    k as int + 1,
                    current@,
                    1,
                )));
            }
        } else {
            current = proposed;
            count = count + 1;
        }
        k = k + 1;
    }
    if !current.as_str().is_empty() {
        let ghost prev_lines = lines@;
        lines.push(current);
        proof {
            lemma_strs_view(prev_lines);
            lemma_strs_view(lines@);
            assert(strs_view(lines@) =~= strs_view(prev_lines) + seq![lines@.last()@]);
        }
    } else {
        proof {
            assert(strs_view(lines@) + Seq::<Seq<char>>::empty() =~= strs_view(lines@));
        }
    }
    let ghost packed = pack_from(ws, 0, Seq::<char>::empty(), 0);
    proof {
        assert(strs_view(lines@) =~= packed);
    }
    let n_lines = lines.len() as u16;
    let mut joined = String::new();
    let mut j: usize = 0;
    proof {
        lemma_strs_view(lines@);
        assert(joined@ =~= join_nl(strs_view(lines@).take(0)));
    }
    while j < lines.len()
        invariant
            j <= lines@.len(),
            strs_view(lines@) == packed,
            joined@ == join_nl(strs_view(lines@).take(j as int)),
        decreases lines@.len() - j,
    {
        proof {
            lemma_strs_view(lines@);
        }
        if j > 0 {
            joined.append("\n");
        }
        joined.append(lines[j].as_str());
        j = j + 1;
        proof {
            reveal_strlit("\n");
            let taken = strs_view(lines@).take(j as int);
            assert(taken.drop_last() =~= strs_view(lines@).take(j as int - 1));
            assert(taken.last() == lines@[j as int - 1]@);
            assert(joined@ =~= join_nl(taken));
        }
    }
    proof {
        assert(strs_view(lines@).take(lines@.len() as int) =~= strs_view(lines@));
    }
    (n_lines, joined)
}

} // verus!
