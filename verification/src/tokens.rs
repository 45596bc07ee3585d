//! Splitting a line into whitespace-separated tokens.

use vstd::prelude::*;

verus! {

/// A whitespace character: one of the characters that separate fields
/// in an input line (the Unicode `White_Space` set).
pub open spec fn is_space_char(c: char) -> bool {
    ||| c == ' '
    ||| c == '\t'
    ||| c == '\n'
    ||| c == '\u{b}'
    ||| c == '\u{c}'
    ||| c == '\r'
    ||| c == '\u{85}'
    ||| c == '\u{a0}'
    ||| c == '\u{1680}'
    ||| c == '\u{2000}'
    ||| c == '\u{2001}'
    ||| c == '\u{2002}'
    ||| c == '\u{2003}'
    ||| c == '\u{2004}'
    ||| c == '\u{2005}'
    ||| c == '\u{2006}'
    ||| c == '\u{2007}'
    ||| c == '\u{2008}'
    ||| c == '\u{2009}'
    ||| c == '\u{200a}'
    ||| c == '\u{2028}'
    ||| c == '\u{2029}'
    ||| c == '\u{202f}'
    ||| c == '\u{205f}'
    ||| c == '\u{3000}'
}

/// Decides whether `c` separates fields.
pub fn is_space(c: char) -> (r: bool)
    ensures
        r == is_space_char(c),
{
    c == ' ' || c == '\t' || c == '\n' || c == '\u{b}' || c == '\u{c}' || c == '\r'
        || c == '\u{85}' || c == '\u{a0}' || c == '\u{1680}' || c == '\u{2000}'
        || c == '\u{2001}' || c == '\u{2002}' || c == '\u{2003}' || c == '\u{2004}'
        || c == '\u{2005}' || c == '\u{2006}' || c == '\u{2007}' || c == '\u{2008}'
        || c == '\u{2009}' || c == '\u{200a}' || c == '\u{2028}' || c == '\u{2029}'
        || c == '\u{202f}' || c == '\u{205f}' || c == '\u{3000}'
}

/// The tokens of `s`: the maximal runs of non-whitespace characters,
/// in order, defined by how appending one character extends them.
pub open spec fn tokens_of(s: Seq<char>) -> Seq<Seq<char>>
    decreases s.len(),
{
    if s.len() == 0 {
        Seq::empty()
    } else {
        let prev = tokens_of(s.drop_last());
        let c = s.last();
        if is_space_char(c) {
            prev
        } else if s.len() >= 2 && !is_space_char(s[s.len() - 2]) {
            prev.update(prev.len() - 1, prev.last().push(c))
        } else {
            prev.push(seq![c])
        }
    }
}

/// The views of a sequence of owned strings.
pub open spec fn views_of(ts: Seq<String>) -> Seq<Seq<char>> {
    ts.map_values(|t: String| t@)
}

/// Appending a whitespace character leaves the token list unchanged.
proof fn lemma_tokens_space_extend(s: Seq<char>, i: int)
    requires
        0 <= i < s.len(),
        is_space_char(s[i]),
    ensures
        tokens_of(s.subrange(0, i + 1)) == tokens_of(s.subrange(0, i)),
{
    let t = s.subrange(0, i + 1);
    assert(t.drop_last() =~= s.subrange(0, i));
    assert(t.last() == s[i]);
}

/// Appending a full run of non-whitespace characters that starts a new
/// token appends exactly that run to the token list.
proof fn lemma_tokens_token_extend(s: Seq<char>, i: int, j: int)
    requires
        0 <= i < j <= s.len(),
        i == 0 || is_space_char(s[i - 1]),
        forall|k: int| i <= k < j ==> !is_space_char(#[trigger] s[k]),
    ensures
        tokens_of(s.subrange(0, j)) == tokens_of(s.subrange(0, i)).push(s.subrange(i, j)),
    decreases j - i,
{
    let t = s.subrange(0, j);
    if j == i + 1 {
        assert(t.drop_last() =~= s.subrange(0, i));
        assert(t.last() == s[i]);
        assert(!is_space_char(s[i]));
        if i == 0 {
            assert(t.len() == 1);
        } else {
            assert(t[t.len() - 2] == s[i - 1]);
        }
        assert(seq![s[i]] =~= s.subrange(i, j));
        assert(tokens_of(t) =~~= tokens_of(s.subrange(0, i)).push(s.subrange(i, j)));
    } else {
        lemma_tokens_token_extend(s, i, j - 1);
        assert(t.drop_last() =~= s.subrange(0, j - 1));
        assert(t.last() == s[j - 1]);
        assert(!is_space_char(s[j - 1]));
        assert(t[t.len() - 2] == s[j - 2]);
        assert(!is_space_char(s[j - 2]));
        let base = tokens_of(s.subrange(0, i));
        let prev = tokens_of(s.subrange(0, j - 1));
        assert(prev == base.push(s.subrange(i, j - 1)));
        assert(prev.last() == s.subrange(i, j - 1));
        assert(s.subrange(i, j - 1).push(s[j - 1]) =~= s.subrange(i, j));
        assert(prev.update(prev.len() - 1, s.subrange(i, j)) =~~= base.push(s.subrange(i, j)));
    }
}

/// Splits `line` into its whitespace-separated tokens.
pub fn tokenize(line: &str) -> (toks: Vec<String>)
    ensures
        views_of(toks@) == tokens_of(line@),
{
    let n = line.unicode_len();
    let mut toks: Vec<String> = Vec::new();
    let mut i: usize = 0;
    while i < n
        invariant
            n == line@.len(),
            i <= n,
            views_of(toks@) == tokens_of(line@.subrange(0, i as int)),
            i > 0 && !is_space_char(line@[i - 1]) ==> i == n || is_space_char(line@[i as int]),
        decreases n - i,
    {
        let c = line.get_char(i);
        if is_space(c) {
            proof {
                lemma_tokens_space_extend(line@, i as int);
            }
            i = i + 1;
        } else {
            let mut j: usize = i + 1;
            while j < n && !is_space(line.get_char(j))
                invariant
                    n == line@.len(),
                    i < j <= n,
                    forall|k: int| i <= k < j ==> !is_space_char(#[trigger] line@[k]),
                decreases n - j,
            {
                j = j + 1;
            }
            let token = line.substring_char(i, j);
            let ghost old_toks = toks@;
            toks.push(token.to_owned());
            proof {
                lemma_tokens_token_extend(line@, i as int, j as int);
                assert(views_of(toks@) =~~= views_of(old_toks).push(token@));
            }
            i = j;
        }
    }
    proof {
        assert(line@.subrange(0, n as int) =~= line@);
    }
    toks
}

} // verus!
