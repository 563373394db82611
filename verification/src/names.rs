//! Participant-name matching.
//!
//! Participants are referred to by (possibly partial) names.  A pattern
//! matches a full name when the words of the pattern are, in order,
//! prefixes of the corresponding words of some subsequence of the words
//! of the name.  For example the pattern `"N M"` matches the name
//! `"Nagy Marcell"`, and the pattern `"Ma"` matches it too, while the
//! pattern `"Mo"` does not.

use vstd::prelude::*;
use vstd::seq_lib::*;
use vstd::string::*;

verus! {

/// Length of the maximal run of non-space characters at the start of `s`.
pub open spec fn word_len(s: Seq<char>) -> nat
    decreases s.len(),
{
    if s.len() == 0 || s[0] == ' ' {
        0
    } else {
        (1 + word_len(s.drop_first())) as nat
    }
}

pub proof fn lemma_word_len_le(s: Seq<char>)
    ensures
        word_len(s) <= s.len(),
    decreases s.len(),
{
    if s.len() != 0 && s[0] != ' ' {
        lemma_word_len_le(s.drop_first());
    }
}

/// The words of `s`: its maximal runs of non-space characters, in order.
pub open spec fn split_words(s: Seq<char>) -> Seq<Seq<char>>
    decreases s.len(),
    via split_words_decreases
{
    if s.len() == 0 {
        Seq::empty()
    } else if s[0] == ' ' {
        split_words(s.drop_first())
    } else {
        seq![s.take(word_len(s) as int)] + split_words(s.skip(word_len(s) as int))
    }
}

#[via_fn]
proof fn split_words_decreases(s: Seq<char>) {
    lemma_word_len_le(s);
}

/// `p` is a prefix of `w`.
pub open spec fn word_prefix(p: Seq<char>, w: Seq<char>) -> bool {
    p.len() <= w.len() && p == w.take(p.len() as int)
}

/// The words `pw` match, in order, prefixes of the corresponding words
/// of some subsequence of `nw`.
pub open spec fn words_match(nw: Seq<Seq<char>>, pw: Seq<Seq<char>>) -> bool
    decreases pw.len(),
{
    if pw.len() == 0 {
        true
    } else {
        exists|j: int|
            0 <= j < nw.len() && word_prefix(pw[0], nw[j]) && words_match(
                nw.skip(j + 1),
                pw.drop_first(),
            )
    }
}

/// The matching relation between a full name and a pattern.
pub open spec fn name_matches(name: Seq<char>, pattern: Seq<char>) -> bool {
    words_match(split_words(name), split_words(pattern))
}

/// Dropping name words from the front never helps: a match that works
/// on a later suffix of the name words also works on an earlier one.
proof fn lemma_words_match_monotone(nw: Seq<Seq<char>>, pw: Seq<Seq<char>>, a: int, b: int)
    requires
        0 <= a <= b <= nw.len(),
        words_match(nw.skip(b), pw),
    ensures
        words_match(nw.skip(a), pw),
{
    if pw.len() != 0 {
        let j = choose|j: int|
            0 <= j < nw.skip(b).len() && word_prefix(pw[0], nw.skip(b)[j]) && words_match(
                nw.skip(b).skip(j + 1),
                pw.drop_first(),
            );
        let k = j + b - a;
        assert(nw.skip(a)[k] == nw.skip(b)[j]);
        assert(nw.skip(a).skip(k + 1) =~= nw.skip(b).skip(j + 1));
        assert(0 <= k < nw.skip(a).len() && word_prefix(pw[0], nw.skip(a)[k]) && words_match(
            nw.skip(a).skip(k + 1),
            pw.drop_first(),
        ));
    }
}

/// When the first name word is no prefix match for the first pattern
/// word, it can be discarded without changing the outcome.
proof fn lemma_match_step_skip(nw: Seq<Seq<char>>, pw: Seq<Seq<char>>)
    requires
        nw.len() > 0,
        pw.len() > 0,
        !word_prefix(pw[0], nw[0]),
    ensures
        words_match(nw, pw) == words_match(nw.drop_first(), pw),
{
    if words_match(nw, pw) {
        let j = choose|j: int|
            0 <= j < nw.len() && word_prefix(pw[0], nw[j]) && words_match(
                nw.skip(j + 1),
                pw.drop_first(),
            );
        assert(j != 0);
        assert(nw.drop_first()[j - 1] == nw[j]);
        assert(nw.drop_first().skip(j) =~= nw.skip(j + 1));
        assert(0 <= j - 1 < nw.drop_first().len() && word_prefix(pw[0], nw.drop_first()[j - 1])
            && words_match(nw.drop_first().skip(j - 1 + 1), pw.drop_first()));
    }
    if words_match(nw.drop_first(), pw) {
        let j = choose|j: int|
            0 <= j < nw.drop_first().len() && word_prefix(pw[0], nw.drop_first()[j])
                && words_match(nw.drop_first().skip(j + 1), pw.drop_first());
        assert(nw[j + 1] == nw.drop_first()[j]);
        assert(nw.skip(j + 2) =~= nw.drop_first().skip(j + 1));
        assert(0 <= j + 1 < nw.len() && word_prefix(pw[0], nw[j + 1]) && words_match(
            nw.skip(j + 1 + 1),
            pw.drop_first(),
        ));
    }
}

/// When the first name word does carry the first pattern word as a
/// prefix, the greedy choice of taking it is as good as any other.
proof fn lemma_match_step_take(nw: Seq<Seq<char>>, pw: Seq<Seq<char>>)
    requires
        nw.len() > 0,
        pw.len() > 0,
        word_prefix(pw[0], nw[0]),
    ensures
        words_match(nw, pw) == words_match(nw.drop_first(), pw.drop_first()),
{
    if words_match(nw, pw) {
        let j = choose|j: int|
            0 <= j < nw.len() && word_prefix(pw[0], nw[j]) && words_match(
                nw.skip(j + 1),
                pw.drop_first(),
            );
        lemma_words_match_monotone(nw, pw.drop_first(), 1, j + 1);
        assert(nw.drop_first() =~= nw.skip(1));
    }
    if words_match(nw.drop_first(), pw.drop_first()) {
        assert(nw.skip(1) =~= nw.drop_first());
        assert(0 <= 0 < nw.len() && word_prefix(pw[0], nw[0]) && words_match(
            nw.skip(1),
            pw.drop_first(),
        ));
    }
}

/// The characters of `s`, as a vector.
pub fn chars_of(s: &str) -> (r: Vec<char>)
    ensures
        r@ == s@,
{
    let n = s.unicode_len();
    let mut r: Vec<char> = Vec::new();
    let mut i: usize = 0;
    while i < n
        invariant
            i <= n,
            n == s@.len(),
            r@ == s@.take(i as int),
        decreases n - i,
    {
        r.push(s.get_char(i));
        assert(r@ =~= s@.take(i + 1));
        i += 1;
    }
    assert(r@ =~= s@);
    r
}

/// Character-for-character string equality.
pub fn str_eq(a: &str, b: &str) -> (r: bool)
    ensures
        r == (a@ == b@),
{
    let na = a.unicode_len();
    let nb = b.unicode_len();
    if na != nb {
        return false;
    }
    let mut i: usize = 0;
    while i < na
        invariant
            i <= na,
            na == a@.len(),
            na == b@.len(),
            forall|k: int| 0 <= k < i ==> a@[k] == b@[k],
        decreases na - i,
    {
        if a.get_char(i) != b.get_char(i) {
            return false;
        }
        i += 1;
    }
    assert(a@ =~= b@);
    true
}

/// The views of a vector of character vectors.
pub open spec fn word_views(ws: Seq<Vec<char>>) -> Seq<Seq<char>> {
    ws.map_values(|w: Vec<char>| w@)
}

/// Splits `cs` into its words, mirroring [`split_words`].
fn split_words_exec(cs: &Vec<char>) -> (ws: Vec<Vec<char>>)
    ensures
        word_views(ws@) == split_words(cs@),
{
    let n = cs.len();
    let mut ws: Vec<Vec<char>> = Vec::new();
    let mut i: usize = 0;
    proof {
        assert(cs@.skip(0) =~= cs@);
        assert(word_views(ws@) + split_words(cs@) =~= split_words(cs@));
    }
    while i < n
        invariant
            i <= n,
            n == cs@.len(),
            split_words(cs@) == word_views(ws@) + split_words(cs@.skip(i as int)),
        decreases n - i,
    {
        if cs[i] == ' ' {
            assert(cs@.skip(i as int).drop_first() =~= cs@.skip(i + 1));
            i += 1;
        } else {
            let mut w: Vec<char> = Vec::new();
            let mut j: usize = i;
            while j < n && cs[j] != ' '
                invariant
                    i <= j <= n,
                    n == cs@.len(),
                    w@ == cs@.subrange(i as int, j as int),
                    forall|k: int| i <= k < j ==> cs@[k] != ' ',
                decreases n - j,
            {
                w.push(cs[j]);
                assert(w@ =~= cs@.subrange(i as int, j + 1));
                j += 1;
            }
            proof {
                lemma_word_len_within(cs@.skip(i as int), j - i);
                assert(cs@.skip(i as int).take(j - i) =~= cs@.subrange(i as int, j as int));
                assert(cs@.skip(i as int).skip(j - i) =~= cs@.skip(j as int));
                assert(word_views(ws@.push(w)) =~= word_views(ws@) + seq![w@]);
            }
            ws.push(w);
            i = j;
        }
    }
    assert(split_words(cs@.skip(n as int)) =~= Seq::<Seq<char>>::empty());
    assert(word_views(ws@) =~= word_views(ws@) + Seq::<Seq<char>>::empty());
    ws
}

/// A run of `k` non-space characters ended by a space or by the end of
/// the sequence is exactly the leading word.
proof fn lemma_word_len_within(s: Seq<char>, k: int)
    requires
        0 <= k <= s.len(),
        forall|m: int| 0 <= m < k ==> s[m] != ' ',
        k == s.len() || s[k] == ' ',
    ensures
        word_len(s) == k,
    decreases k,
{
    if k > 0 {
        lemma_word_len_within(s.drop_first(), k - 1);
    }
}

/// `p@` is a prefix of `w@`.
fn word_prefix_exec(p: &Vec<char>, w: &Vec<char>) -> (r: bool)
    ensures
        r == word_prefix(p@, w@),
{
    if p.len() > w.len() {
        return false;
    }
    let mut i: usize = 0;
    while i < p.len()
        invariant
            i <= p@.len() <= w@.len(),
            forall|k: int| 0 <= k < i ==> p@[k] == w@[k],
        decreases p@.len() - i,
    {
        if p[i] != w[i] {
            assert(!word_prefix(p@, w@)) by {
                assert(w@.take(p@.len() as int)[i as int] == w@[i as int]);
            }
            return false;
        }
        i += 1;
    }
    assert(p@ =~= w@.take(p@.len() as int));
    true
}

/// Whether the pattern matches the name.
///
/// The pattern and the name are split into words; the pattern matches
/// iff its words are prefixes of the corresponding words of some
/// order-preserving subsequence of the name's words.  The scan is
/// greedy, which decides that relation exactly.
pub fn match_names(matched: &str, pattern: &str) -> (r: bool)
    ensures
        r == name_matches(matched@, pattern@),
{
    let ncs = chars_of(matched);
    let pcs = chars_of(pattern);
    let nws = split_words_exec(&ncs);
    let pws = split_words_exec(&pcs);
    let ghost nw = word_views(nws@);
    let ghost pw = word_views(pws@);
    let mut ni: usize = 0;
    let mut pi: usize = 0;
    proof {
        assert(nw.skip(0) =~= nw);
        assert(pw.skip(0) =~= pw);
    }
    while pi < pws.len()
        invariant
            ni <= nws@.len(),
            pi <= pws@.len(),
            nw == word_views(nws@),
            pw == word_views(pws@),
            name_matches(matched@, pattern@) == words_match(
                nw.skip(ni as int),
                pw.skip(pi as int),
            ),
        decreases pw.len() - pi + nw.len() - ni,
    {
        assert(pw.skip(pi as int)[0] == pw[pi as int]);
        assert(pw.skip(pi as int).drop_first() =~= pw.skip(pi + 1));
        if ni >= nws.len() {
            assert(nw.skip(ni as int).len() == 0);
            return false;
        }
        assert(nw.skip(ni as int)[0] == nw[ni as int]);
        assert(nw.skip(ni as int).drop_first() =~= nw.skip(ni + 1));
        if word_prefix_exec(&pws[pi], &nws[ni]) {
            proof {
                lemma_match_step_take(nw.skip(ni as int), pw.skip(pi as int));
            }
            ni += 1;
            pi += 1;
        } else {
            proof {
                lemma_match_step_skip(nw.skip(ni as int), pw.skip(pi as int));
            }
            ni += 1;
        }
    }
    assert(pw.skip(pi as int).len() == 0);
    true
}

} // verus!
