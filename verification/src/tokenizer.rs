//! Splitting raw page text into display tokens (words).
//!
//! A token is a maximal run of non-separator characters; separators are the
//! usual whitespace characters. Tokens keep their left-to-right order and an
//! empty token is never produced.

use vstd::prelude::*;

verus! {

/// The characters this engine treats as word separators: the Unicode
/// characters with the White_Space property — the ASCII whitespace
/// characters, the next line, the no-break spaces, the ogham space mark, the
/// typographic spaces, the line and paragraph separators and the ideographic
/// space.
pub open spec fn is_space_char(c: char) -> bool {
    ||| c == ' '
    ||| c == '\t'
    ||| c == '\n'
    ||| c == '\r'
    ||| c == '\u{000B}'
    ||| c == '\u{000C}'
    ||| c == '\u{0085}'
    ||| c == '\u{00A0}'
    ||| c == '\u{1680}'
    ||| ('\u{2000}' <= c && c <= '\u{200A}')
    ||| c == '\u{2028}'
    ||| c == '\u{2029}'
    ||| c == '\u{202F}'
    ||| c == '\u{205F}'
    ||| c == '\u{3000}'
}

/// Runtime test matching `is_space_char`.
pub fn is_space(c: char) -> (r: bool)
    ensures
        r == is_space_char(c),
{
    c == ' ' || c == '\t' || c == '\n' || c == '\r' || c == '\u{000B}' || c == '\u{000C}' || c
        == '\u{0085}' || c == '\u{00A0}' || c == '\u{1680}' || ('\u{2000}' <= c && c
        <= '\u{200A}') || c == '\u{2028}' || c == '\u{2029}' || c == '\u{202F}' || c == '\u{205F}'
        || c == '\u{3000}'
}

/// One left-to-right pass of the splitter, described from position `i` with
/// `cur` the word accumulated so far and `acc` the tokens already produced.
pub open spec fn split_from(s: Seq<char>, i: int, cur: Seq<char>, acc: Seq<Seq<char>>) -> Seq<
    Seq<char>,
>
    decreases s.len() - i,
{
    if i < 0 || i >= s.len() {
        if cur.len() > 0 {
            acc.push(cur)
        } else {
            acc
        }
    } else if is_space_char(s[i]) {
        if cur.len() > 0 {
            split_from(s, i + 1, Seq::empty(), acc.push(cur))
        } else {
            split_from(s, i + 1, cur, acc)
        }
    } else {
        split_from(s, i + 1, cur.push(s[i]), acc)
    }
}

/// The tokens of a text: its maximal runs of non-separator characters, in
/// order of occurrence.
pub open spec fn tokens_of(s: Seq<char>) -> Seq<Seq<char>> {
    split_from(s, 0, Seq::empty(), Seq::empty())
}

proof fn lemma_split_from_shape(s: Seq<char>, i: int, cur: Seq<char>, acc: Seq<Seq<char>>)
    requires
        forall|j: int| 0 <= j < acc.len() ==> (#[trigger] acc[j]).len() > 0,
        forall|j: int, k: int|
            0 <= j < acc.len() && 0 <= k < acc[j].len() ==> !is_space_char(#[trigger] acc[j][k]),
        forall|k: int| 0 <= k < cur.len() ==> !is_space_char(#[trigger] cur[k]),
    ensures
        forall|j: int|
            0 <= j < split_from(s, i, cur, acc).len() ==> (#[trigger] split_from(
                s,
                i,
                cur,
                acc,
            )[j]).len() > 0,
        forall|j: int, k: int|
            0 <= j < split_from(s, i, cur, acc).len() && 0 <= k < split_from(s, i, cur, acc)[j].len()
                ==> !is_space_char(#[trigger] split_from(s, i, cur, acc)[j][k]),
    decreases s.len() - i,
{
    if i < 0 || i >= s.len() {
        if cur.len() > 0 {
            assert(split_from(s, i, cur, acc) == acc.push(cur));
            assert forall|j: int| 0 <= j < acc.push(cur).len() implies (#[trigger] acc.push(
                cur,
            )[j]).len() > 0 by {
                if j < acc.len() {
                    assert(acc.push(cur)[j] == acc[j]);
                }
            }
            assert forall|j: int, k: int|
                0 <= j < acc.push(cur).len() && 0 <= k < acc.push(cur)[j].len() implies
                !is_space_char(#[trigger] acc.push(cur)[j][k]) by {
                if j < acc.len() {
                    assert(acc.push(cur)[j] == acc[j]);
                } else {
                    assert(acc.push(cur)[j] == cur);
                }
            }
        } else {
            assert(split_from(s, i, cur, acc) == acc);
        }
    } else if is_space_char(s[i]) {
        if cur.len() > 0 {
            assert forall|j: int| 0 <= j < acc.push(cur).len() implies (#[trigger] acc.push(
                cur,
            )[j]).len() > 0 by {
                if j < acc.len() {
                    assert(acc.push(cur)[j] == acc[j]);
                }
            }
            assert forall|j: int, k: int|
                0 <= j < acc.push(cur).len() && 0 <= k < acc.push(cur)[j].len() implies
                !is_space_char(#[trigger] acc.push(cur)[j][k]) by {
                if j < acc.len() {
                    assert(acc.push(cur)[j] == acc[j]);
                } else {
                    assert(acc.push(cur)[j] == cur);
                }
            }
            lemma_split_from_shape(s, i + 1, Seq::empty(), acc.push(cur));
            assert(split_from(s, i, cur, acc) == split_from(s, i + 1, Seq::empty(), acc.push(cur)));
        } else {
            lemma_split_from_shape(s, i + 1, cur, acc);
            assert(split_from(s, i, cur, acc) == split_from(s, i + 1, cur, acc));
        }
    } else {
        assert forall|k: int| 0 <= k < cur.push(s[i]).len() implies !is_space_char(
            #[trigger] cur.push(s[i])[k],
        ) by {
            if k < cur.len() {
                assert(cur.push(s[i])[k] == cur[k]);
            } else {
                assert(cur.push(s[i])[k] == s[i]);
            }
        }
        lemma_split_from_shape(s, i + 1, cur.push(s[i]), acc);
        assert(split_from(s, i, cur, acc) == split_from(s, i + 1, cur.push(s[i]), acc));
    }
}

proof fn lemma_split_from_flatten(s: Seq<char>, i: int, cur: Seq<char>, acc: Seq<Seq<char>>)
    requires
        0 <= i <= s.len(),
    ensures
        split_from(s, i, cur, acc).flatten() == acc.flatten() + cur + s.skip(i).filter(
            |c: char| !is_space_char(c),
        ),
    decreases s.len() - i,
{
    broadcast use vstd::seq_lib::group_seq_properties;

    let p = |c: char| !is_space_char(c);
    if i >= s.len() {
        assert(s.skip(i) =~= Seq::<char>::empty());
        assert(Seq::<char>::empty().filter(p) == Seq::<char>::empty());
        if cur.len() > 0 {
            acc.lemma_flatten_push(cur);
            assert(acc.push(cur).flatten() =~= acc.flatten() + cur + Seq::<char>::empty());
        } else {
            assert(cur =~= Seq::<char>::empty());
            assert(acc.flatten() =~= acc.flatten() + cur + Seq::<char>::empty());
        }
    } else {
        assert(s.skip(i) =~= seq![s[i]] + s.skip(i + 1));
        s.skip(i + 1).lemma_filter_prepend(s[i], p);
        if is_space_char(s[i]) {
            assert(s.skip(i).filter(p) == s.skip(i + 1).filter(p));
            if cur.len() > 0 {
                lemma_split_from_flatten(s, i + 1, Seq::empty(), acc.push(cur));
                acc.lemma_flatten_push(cur);
                assert(acc.push(cur).flatten() + Seq::<char>::empty() + s.skip(i + 1).filter(p)
                    =~= acc.flatten() + cur + s.skip(i).filter(p));
            } else {
                lemma_split_from_flatten(s, i + 1, cur, acc);
            }
        } else {
            assert(s.skip(i).filter(p) == seq![s[i]] + s.skip(i + 1).filter(p));
            lemma_split_from_flatten(s, i + 1, cur.push(s[i]), acc);
            assert(acc.flatten() + cur.push(s[i]) + s.skip(i + 1).filter(p) =~= acc.flatten() + cur
                + s.skip(i).filter(p));
        }
    }
}

/// Law: for any input text, tokenization never produces an empty token, no
/// token contains a separator character, and concatenating the tokens in
/// order yields exactly the input's non-separator characters in order — so
/// left-to-right word order is preserved and no word is lost.
pub proof fn lemma_tokenize_properties(s: Seq<char>)
    ensures
        forall|j: int| 0 <= j < tokens_of(s).len() ==> (#[trigger] tokens_of(s)[j]).len() > 0,
        forall|j: int, k: int|
            0 <= j < tokens_of(s).len() && 0 <= k < tokens_of(s)[j].len() ==> !is_space_char(
                #[trigger] tokens_of(s)[j][k],
            ),
        tokens_of(s).flatten() == s.filter(|c: char| !is_space_char(c)),
{
    lemma_split_from_shape(s, 0, Seq::empty(), Seq::empty());
    lemma_split_from_flatten(s, 0, Seq::empty(), Seq::empty());
    assert(s.skip(0) =~= s);
    assert(Seq::<Seq<char>>::empty().flatten() + Seq::<char>::empty() + s.filter(
        |c: char| !is_space_char(c),
    ) =~= s.filter(|c: char| !is_space_char(c)));
}

/// Collects the characters of a string slice into a vector.
fn chars_of(s: &str) -> (r: Vec<char>)
    ensures
        r@ == s@,
{
    let mut r: Vec<char> = Vec::new();
    for c in it: s.chars()
        invariant
            it.seq() == s@,
            r@ == it.seq().take(it.index() as int),
    {
        r.push(c);
    }
    proof {
        assert(r@ =~= s@);
    }
    r
}

/// Relies on `String::push` of std: appends the character to the string.
#[verifier::external_body]
pub(crate) fn push_char(s: &mut String, c: char)
    ensures
        final(s)@ == old(s)@.push(c),
{
    s.push(c)
}

/// Relies on `String::push_str` of std: appends the string slice to the
/// string.
#[verifier::external_body]
pub(crate) fn push_str(s: &mut String, t: &str)
    ensures
        final(s)@ == old(s)@ + t@,
{
    s.push_str(t)
}

/// Splits raw text on runs of whitespace, discarding the delimiters and never
/// producing an empty token. Pure and total: empty input yields no tokens.
pub fn tokenize(raw_text: &str) -> (tokens: Vec<String>)
    ensures
        tokens.deep_view() == tokens_of(raw_text@),
{
    let cs = chars_of(raw_text);
    let mut acc: Vec<String> = Vec::new();
    let mut cur = String::new();
    proof {
        assert(acc.deep_view() =~= Seq::<Seq<char>>::empty());
        assert(cur@ =~= Seq::<char>::empty());
    }
    let n = cs.len();
    for i in 0..n
        invariant
            n == cs.len(),
            cs@ == raw_text@,
            tokens_of(raw_text@) == split_from(cs@, i as int, cur@, acc.deep_view()),
    {
        let ghost cur0 = cur@;
        let ghost acc0 = acc.deep_view();
        if is_space(cs[i]) {
            if !cur.as_str().is_empty() {
                acc.push(cur);
                cur = String::new();
                proof {
                    assert(acc.deep_view() =~= acc0.push(cur0));
                    assert(cur@ =~= Seq::<char>::empty());
                    assert(split_from(cs@, i as int, cur0, acc0) == split_from(
                        cs@,
                        i + 1,
                        cur@,
                        acc.deep_view(),
                    ));
                }
            }
        } else {
            push_char(&mut cur, cs[i]);
            proof {
                assert(split_from(cs@, i as int, cur0, acc0) == split_from(
                    cs@,
                    i + 1,
                    cur@,
                    acc.deep_view(),
                ));
            }
        }
    }
    let ghost curf = cur@;
    let ghost accf = acc.deep_view();
    if !cur.as_str().is_empty() {
        acc.push(cur);
        proof {
            assert(acc.deep_view() =~= accf.push(curf));
            assert(split_from(cs@, n as int, curf, accf) == accf.push(curf));
        }
    } else {
        proof {
            assert(split_from(cs@, n as int, curf, accf) == accf);
        }
    }
    acc
}

} // verus!
