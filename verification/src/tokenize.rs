//! Whitespace tokenization of text property values.
//!
//! A token is a maximal run of non-whitespace characters; whitespace is the
//! Unicode White_Space set, the class `str::split_whitespace` splits on. No
//! stemming and no stop-word removal happen at this level: upstream
//! processing is expected to have normalized the text already.

use vstd::prelude::*;
use vstd::string::StrSliceExecFns;

verus! {

/// The characters that separate tokens: the Unicode White_Space set, as
/// `char::is_whitespace` and `str::split_whitespace` define it.
pub open spec fn is_whitespace(c: char) -> bool {
    ||| c == ' '
    ||| c == '\t'
    ||| c == '\n'
    ||| c == '\u{000B}'
    ||| c == '\u{000C}'
    ||| c == '\r'
    ||| c == '\u{0085}'
    ||| c == '\u{00A0}'
    ||| c == '\u{1680}'
    ||| c == '\u{2000}'
    ||| c == '\u{2001}'
    ||| c == '\u{2002}'
    ||| c == '\u{2003}'
    ||| c == '\u{2004}'
    ||| c == '\u{2005}'
    ||| c == '\u{2006}'
    ||| c == '\u{2007}'
    ||| c == '\u{2008}'
    ||| c == '\u{2009}'
    ||| c == '\u{200A}'
    ||| c == '\u{2028}'
    ||| c == '\u{2029}'
    ||| c == '\u{202F}'
    ||| c == '\u{205F}'
    ||| c == '\u{3000}'
}

/// Length of the maximal non-whitespace run at the start of `s`.
pub open spec fn run_len(s: Seq<char>) -> nat
    decreases s.len(),
{
    if s.len() == 0 || is_whitespace(s[0]) {
        0
    } else {
        1 + run_len(s.drop_first())
    }
}

/// The initial run never reaches past the end of the text.
pub proof fn lemma_run_len_le(s: Seq<char>)
    ensures
        run_len(s) <= s.len(),
    decreases s.len(),
{
    if s.len() != 0 && !is_whitespace(s[0]) {
        lemma_run_len_le(s.drop_first());
    }
}

/// If the first `m` characters are non-whitespace and position `m` is the end
/// or whitespace, the initial run is exactly `m` characters long.
pub proof fn lemma_run_len_exact(s: Seq<char>, m: int)
    requires
        0 <= m <= s.len(),
        forall|k: int| 0 <= k < m ==> !is_whitespace(s[k]),
        m == s.len() || is_whitespace(s[m]),
    ensures
        run_len(s) == m,
    decreases m,
{
    if m == 0 {
    } else {
        assert(!is_whitespace(s[0]));
        lemma_run_len_exact(s.drop_first(), m - 1);
    }
}

/// The tokens of `s`: its maximal non-whitespace runs, in text order.
pub open spec fn tokens_of(s: Seq<char>) -> Seq<Seq<char>>
    decreases s.len(),
    via tokens_of_decreases
{
    if s.len() == 0 {
        Seq::empty()
    } else if is_whitespace(s[0]) {
        tokens_of(s.drop_first())
    } else {
        seq![s.take(run_len(s) as int)] + tokens_of(s.skip(run_len(s) as int))
    }
}

#[via_fn]
proof fn tokens_of_decreases(s: Seq<char>) {
    if s.len() != 0 && !is_whitespace(s[0]) {
        lemma_run_len_le(s);
        assert(run_len(s) >= 1);
    }
}

/// How often `tok` occurs in the token list `toks`.
pub open spec fn count_token(toks: Seq<Seq<char>>, tok: Seq<char>) -> nat
    decreases toks.len(),
{
    if toks.len() == 0 {
        0
    } else {
        count_token(toks.drop_last(), tok) + if toks.last() == tok {
            1nat
        } else {
            0nat
        }
    }
}

/// A token cannot occur more often than there are tokens.
pub proof fn lemma_count_token_le(toks: Seq<Seq<char>>, tok: Seq<char>)
    ensures
        count_token(toks, tok) <= toks.len(),
    decreases toks.len(),
{
    if toks.len() != 0 {
        lemma_count_token_le(toks.drop_last(), tok);
    }
}

/// How often `tok` occurs as a whitespace-separated token of `text`.
pub open spec fn token_count(text: Seq<char>, tok: Seq<char>) -> nat {
    count_token(tokens_of(text), tok)
}

/// The views of a vector of strings.
pub open spec fn views_of(words: Seq<String>) -> Seq<Seq<char>> {
    words.map_values(|w: String| w@)
}

/// Whether `c` separates tokens.
fn is_whitespace_char(c: char) -> (b: bool)
    ensures
        b == is_whitespace(c),
{
    c == ' ' || c == '\t' || c == '\n' || c == '\u{000B}' || c == '\u{000C}' || c == '\r'
        || c == '\u{0085}' || c == '\u{00A0}' || c == '\u{1680}' || c == '\u{2000}'
        || c == '\u{2001}' || c == '\u{2002}' || c == '\u{2003}' || c == '\u{2004}'
        || c == '\u{2005}' || c == '\u{2006}' || c == '\u{2007}' || c == '\u{2008}'
        || c == '\u{2009}' || c == '\u{200A}' || c == '\u{2028}' || c == '\u{2029}'
        || c == '\u{202F}' || c == '\u{205F}' || c == '\u{3000}'
}

/// Splits `text` into its whitespace-separated tokens, in text order and
/// with duplicates kept.
pub fn split_words(text: &str) -> (words: Vec<String>)
    ensures
        views_of(words@) == tokens_of(text@),
{
    let n = text.unicode_len();
    let mut words: Vec<String> = Vec::new();
    proof {
        assert(text@.skip(0) =~= text@);
        assert(views_of(words@) + tokens_of(text@) =~= tokens_of(text@));
    }
    let mut i: usize = 0;
    while i < n
        invariant
            n == text@.len(),
            i <= n,
            tokens_of(text@) == views_of(words@) + tokens_of(text@.skip(i as int)),
        decreases n - i,
    {
        let c = text.get_char(i);
        if is_whitespace_char(c) {
            proof {
                assert(text@.skip(i as int)[0] == text@[i as int]);
                assert(text@.skip(i as int).drop_first() =~= text@.skip(i as int + 1));
            }
            i += 1;
        } else {
            let mut j: usize = i;
            while j < n
                invariant
                    n == text@.len(),
                    i <= j <= n,
                    forall|k: int| i <= k < j ==> !is_whitespace(text@[k]),
                ensures
                    i <= j <= n,
                    forall|k: int| i <= k < j ==> !is_whitespace(text@[k]),
                    j == n || is_whitespace(text@[j as int]),
                decreases n - j,
            {
                if is_whitespace_char(text.get_char(j)) {
                    break ;
                }
                j += 1;
            }
            let word: String = text.substring_char(i, j).to_owned();
            let ghost words_before = words@;
            proof {
                let s = text@.skip(i as int);
                assert forall|k: int| 0 <= k < j - i implies !is_whitespace(s[k]) by {
                    assert(s[k] == text@[i + k]);
                }
                if j < n {
                    assert(s[j - i] == text@[j as int]);
                }
                lemma_run_len_exact(s, j - i);
                assert(s.take(j - i) =~= text@.subrange(i as int, j as int));
                assert(s.skip(j - i) =~= text@.skip(j as int));
                assert(tokens_of(s) == seq![word@] + tokens_of(text@.skip(j as int)));
            }
            words.push(word);
            proof {
                assert(views_of(words@) =~= views_of(words_before).push(word@));
                assert(views_of(words_before).push(word@) + tokens_of(text@.skip(j as int))
                    =~= views_of(words_before) + (seq![word@] + tokens_of(
                    text@.skip(j as int),
                )));
            }
            i = j;
        }
    }
    proof {
        assert(text@.skip(n as int) =~= Seq::<char>::empty());
        assert(views_of(words@) + Seq::<Seq<char>>::empty() =~= views_of(words@));
    }
    words
}

/// One distinct token of a text value, with its occurrence count.
pub struct TokenCount {
    pub token: String,
    pub count: usize,
}

/// Tokenizes `text` and counts the occurrences of each distinct token.
/// Every token of the text appears exactly once in the result, with its
/// exact count; nothing else does.
pub fn token_counts(text: &str) -> (r: Vec<TokenCount>)
    ensures
        forall|p: int, q: int| 0 <= p < q < r@.len() ==> r@[p].token@ != r@[q].token@,
        forall|p: int| 0 <= p < r@.len() ==> r@[p].count == token_count(text@, r@[p].token@),
        forall|p: int| 0 <= p < r@.len() ==> r@[p].count > 0,
        forall|tok: Seq<char>|
            token_count(text@, tok) > 0 ==> exists|p: int|
                0 <= p < r@.len() && r@[p].token@ == tok,
{
    let words = split_words(text);
    let ghost toks = tokens_of(text@);
    let m = words.len();
    let mut r: Vec<TokenCount> = Vec::new();
    let mut j: usize = 0;
    proof {
        assert(toks.take(0) =~= Seq::<Seq<char>>::empty());
    }
    while j < m
        invariant
            m == words@.len(),
            j <= m,
            toks == tokens_of(text@),
            views_of(words@) == toks,
            forall|p: int, q: int| 0 <= p < q < r@.len() ==> r@[p].token@ != r@[q].token@,
            forall|p: int|
                0 <= p < r@.len() ==> r@[p].count == count_token(
                    toks.take(j as int),
                    r@[p].token@,
                ),
            forall|p: int| 0 <= p < r@.len() ==> r@[p].count > 0,
            forall|tok: Seq<char>|
                count_token(toks.take(j as int), tok) > 0 ==> exists|p: int|
                    0 <= p < r@.len() && r@[p].token@ == tok,
        decreases m - j,
    {
        let ghost r_old = r@;
        let ghost w = toks[j as int];
        proof {
            assert(toks[j as int] == words@[j as int]@);
            assert forall|tok: Seq<char>|
                count_token(toks.take(j as int + 1), tok) == count_token(
                    toks.take(j as int),
                    tok,
                ) + (if toks[j as int] == tok {
                    1int
                } else {
                    0int
                }) by {
                assert(toks.take(j as int + 1).drop_last() =~= toks.take(j as int));
                assert(toks.take(j as int + 1).last() == toks[j as int]);
            }
        }
        // look the token up among the counts gathered so far
        let rl = r.len();
        let mut p: usize = 0;
        while p < rl
            invariant
                rl == r@.len(),
                p <= rl,
                m == words@.len(),
                j < m,
                forall|k: int| 0 <= k < p ==> r@[k].token@ != words@[j as int]@,
            ensures
                p <= rl,
                rl == r@.len(),
                forall|k: int| 0 <= k < p ==> r@[k].token@ != words@[j as int]@,
                p < rl ==> r@[p as int].token@ == words@[j as int]@,
            decreases rl - p,
        {
            if r[p].token == words[j] {
                break ;
            }
            p += 1;
        }
        if p < rl {
            proof {
                lemma_count_token_le(toks.take(j as int), w);
                assert(toks.take(j as int).len() <= j);
            }
            let mut tc = r.remove(p);
            tc.count += 1;
            r.insert(p, tc);
            proof {
                assert(r@ =~= r_old.update(p as int, tc));
            }
        } else {
            let word = words[j].clone();
            r.push(TokenCount { token: word, count: 1 });
            proof {
                // the token is new: its count so far must be zero
                if count_token(toks.take(j as int), w) > 0 {
                    let q = choose|q: int| 0 <= q < r_old.len() && r_old[q].token@ == w;
                    assert(r_old[q].token@ != words@[j as int]@);
                }
            }
        }
        proof {
            // in both branches position `p` now carries the current token
            assert(r@[p as int].token@ == w);
            assert forall|tok: Seq<char>| #[trigger] count_token(toks.take(j as int + 1), tok)
                > 0 implies exists|q: int| 0 <= q < r@.len() && r@[q].token@ == tok by {
                if tok == w {
                    assert(0 <= p < r@.len() && r@[p as int].token@ == tok);
                } else {
                    assert(count_token(toks.take(j as int), tok) > 0);
                    let q = choose|q: int| 0 <= q < r_old.len() && r_old[q].token@ == tok;
                    assert(r@[q].token@ == tok);
                }
            }
        }
        j += 1;
    }
    proof {
        assert(toks.take(m as int) =~= toks);
    }
    r
}

} // verus!
