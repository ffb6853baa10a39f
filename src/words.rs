//! Word tokens of a transcript, and the words that are new in an updated
//! transcript.
use vstd::prelude::*;
use vstd::string::StringExecFns;

verus! {

/// The characters that separate words: ASCII whitespace.
pub open spec fn is_blank(c: char) -> bool {
    c == ' ' || c == '\t' || c == '\n' || c == '\r' || c == '\x0C'
}

/// The words of `s`: its maximal runs of non-blank characters, in order.
/// A leading blank is skipped. A leading non-blank character is a word of its
/// own when a blank or the end follows it; otherwise it starts the first word
/// of the rest.
pub open spec fn words(s: Seq<char>) -> Seq<Seq<char>>
    decreases s.len(),
{
    if s.len() == 0 {
        seq![]
    } else if is_blank(s[0]) {
        words(s.drop_first())
    } else if s.len() == 1 || is_blank(s[1]) {
        seq![seq![s[0]]] + words(s.drop_first())
    } else {
        let rest = words(s.drop_first());
        rest.update(0, seq![s[0]] + rest[0])
    }
}

/// `p` occurs in `n` starting at index `i`.
pub open spec fn occurs_at(n: Seq<char>, p: Seq<char>, i: int) -> bool {
    0 <= i && i + p.len() <= n.len() && n.subrange(i, i + p.len()) == p
}

/// The first index at or after `i` where `p` occurs in `n`, if any.
pub open spec fn first_occurrence_from(n: Seq<char>, p: Seq<char>, i: int) -> Option<int>
    decreases n.len() + 1 - i,
{
    if i < 0 || i + p.len() > n.len() {
        None
    } else if occurs_at(n, p, i) {
        Some(i)
    } else {
        first_occurrence_from(n, p, i + 1)
    }
}

/// `n` with the first occurrence of `p` taken out; `n` itself when `p` does
/// not occur.
pub open spec fn remove_first(n: Seq<char>, p: Seq<char>) -> Seq<char> {
    match first_occurrence_from(n, p, 0) {
        Some(i) => n.subrange(0, i) + n.subrange(i + p.len(), n.len() as int),
        None => n,
    }
}

/// The words that `next` brings beyond `previous`: the words of `next` once
/// the first occurrence of `previous` is taken out of it.
pub open spec fn new_words(previous: Seq<char>, next: Seq<char>) -> Seq<Seq<char>> {
    words(remove_first(next, previous))
}

/// What each string of a sequence holds.
pub open spec fn views(v: Seq<String>) -> Seq<Seq<char>> {
    v.map_values(|w: String| w@)
}

/// Joining `p` and `r` splits no word: one of them is empty, or a blank
/// stands on one side of the seam.
pub open spec fn splits_at_blank(p: Seq<char>, r: Seq<char>) -> bool {
    p.len() == 0 || r.len() == 0 || is_blank(p.last()) || is_blank(r[0])
}

/// `next` extends `previous`, and the extension starts at a word boundary.
pub open spec fn extends_at_boundary(previous: Seq<char>, next: Seq<char>) -> bool {
    &&& previous.len() <= next.len()
    &&& next.subrange(0, previous.len() as int) == previous
    &&& splits_at_blank(previous, next.subrange(previous.len() as int, next.len() as int))
}

/// Everything emitted while a transcript went through `texts[0]`, ...,
/// `texts[k]`: the new words of each step, one step after the other.
pub open spec fn emitted(texts: Seq<Seq<char>>, k: int) -> Seq<Seq<char>>
    decreases k,
{
    if k <= 0 {
        seq![]
    } else {
        emitted(texts, k - 1) + new_words(texts[k - 1], texts[k])
    }
}

proof fn lemma_words_nonempty(s: Seq<char>)
    requires
        s.len() > 0,
        !is_blank(s[0]),
    ensures
        words(s).len() > 0,
    decreases s.len(),
{
    if s.len() > 1 && !is_blank(s[1]) {
        lemma_words_nonempty(s.drop_first());
    }
}

/// Words do not cross a seam that has a blank on one side.
proof fn lemma_words_concat(p: Seq<char>, r: Seq<char>)
    requires
        splits_at_blank(p, r),
    ensures
        words(p + r) == words(p) + words(r),
    decreases p.len(),
{
    let s = p + r;
    if p.len() == 0 {
        assert(s =~= r);
        assert(words(p) =~= seq![]);
        assert(words(p) + words(r) =~= words(r));
    } else {
        let p1 = p.drop_first();
        assert(s.drop_first() =~= p1 + r);
        assert(splits_at_blank(p1, r)) by {
            if p1.len() > 0 {
                assert(p1.last() == p.last());
            }
        }
        lemma_words_concat(p1, r);
        if is_blank(p[0]) {
        } else if p.len() == 1 {
            assert(p1 =~= seq![]);
            assert(words(p1) =~= seq![]);
            assert(words(p) =~= seq![seq![p[0]]]);
            if r.len() == 0 {
                assert(s =~= p);
                assert(words(r) =~= seq![]);
                assert(words(p) + words(r) =~= words(p));
            } else {
                assert(s[1] == r[0]);
                assert(words(p1 + r) =~= words(r));
            }
            assert(words(s) =~= words(p) + words(r));
        } else {
            assert(s[1] == p[1]);
            if is_blank(p[1]) {
                assert(words(s) =~= words(p) + words(r));
            } else {
                lemma_words_nonempty(p1);
                let w = words(p1);
                assert((w + words(r)).update(0, seq![p[0]] + w[0]) =~= w.update(
                    0,
                    seq![p[0]] + w[0],
                ) + words(r));
            }
        }
    }
}

/// A run of non-blank characters with a blank or nothing after it is one
/// word, followed by the words of what comes after.
proof fn lemma_leading_word(s: Seq<char>, j: int)
    requires
        0 < j <= s.len(),
        forall|t: int| 0 <= t < j ==> !is_blank(#[trigger] s[t]),
        j == s.len() || is_blank(s[j]),
    ensures
        words(s) == seq![s.subrange(0, j)] + words(s.subrange(j, s.len() as int)),
{
    let p = s.subrange(0, j);
    let r = s.subrange(j, s.len() as int);
    assert(s =~= p + r);
    lemma_words_concat(p, r);
    lemma_single_word(p);
}

proof fn lemma_single_word(p: Seq<char>)
    requires
        p.len() > 0,
        forall|t: int| 0 <= t < p.len() ==> !is_blank(#[trigger] p[t]),
    ensures
        words(p) == seq![p],
    decreases p.len(),
{
    if p.len() == 1 {
        assert(p.drop_first() =~= seq![]);
        assert(words(p.drop_first()) =~= seq![]);
        assert(!is_blank(p[0]));
        assert(seq![p[0]] =~= p);
        assert(seq![seq![p[0]]] + seq![] =~= seq![p]);
        assert(words(p) =~= seq![p]);
    } else {
        let p1 = p.drop_first();
        assert(!is_blank(p[1]));
        lemma_single_word(p1);
        assert(seq![p[0]] + p1 =~= p);
        assert(seq![p1].update(0, seq![p[0]] + p1) =~= seq![p]);
        assert(words(p) =~= seq![p]);
    }
}

/// Where the previous transcript is a prefix of the next one, its first
/// occurrence is that prefix, and what is new is the rest.
proof fn lemma_prefix_removed(previous: Seq<char>, next: Seq<char>)
    requires
        previous.len() <= next.len(),
        next.subrange(0, previous.len() as int) == previous,
    ensures
        remove_first(next, previous) == next.subrange(previous.len() as int, next.len() as int),
{
    assert(occurs_at(next, previous, 0));
    assert(next.subrange(0, 0) + next.subrange(previous.len() as int, next.len() as int)
        =~= next.subrange(previous.len() as int, next.len() as int));
}

/// When a transcript grows, each step extending the last at a word
/// boundary, the words emitted step by step are, all together and in order,
/// exactly the words of the final transcript: none is repeated, none skipped.
pub proof fn lemma_emission_reconstructs(texts: Seq<Seq<char>>)
    requires
        texts.len() >= 1,
        texts[0].len() == 0,
        forall|k: int| 0 < k < texts.len() ==> extends_at_boundary(texts[k - 1], #[trigger] texts[k]),
    ensures
        emitted(texts, texts.len() - 1) == words(texts.last()),
    decreases texts.len(),
{
    if texts.len() == 1 {
        assert(words(texts[0]) =~= seq![]);
    } else {
        let k = texts.len() - 1;
        let shorter = texts.subrange(0, k);
        assert forall|i: int| 0 < i < shorter.len() implies extends_at_boundary(
            shorter[i - 1],
            #[trigger] shorter[i],
        ) by {
            assert(shorter[i] == texts[i] && shorter[i - 1] == texts[i - 1]);
            assert(extends_at_boundary(texts[i - 1], texts[i]));
        }
        lemma_emission_reconstructs(shorter);
        assert(emitted(shorter, k - 1) == emitted(texts, k - 1)) by {
            lemma_emitted_prefix(texts, shorter, k - 1);
        }
        let prev = texts[k - 1];
        let next = texts[k];
        assert(extends_at_boundary(prev, next));
        let rest = next.subrange(prev.len() as int, next.len() as int);
        lemma_prefix_removed(prev, next);
        assert(next =~= prev + rest);
        lemma_words_concat(prev, rest);
    }
}

proof fn lemma_emitted_prefix(texts: Seq<Seq<char>>, shorter: Seq<Seq<char>>, k: int)
    requires
        0 <= k < shorter.len() <= texts.len(),
        shorter == texts.subrange(0, shorter.len() as int),
    ensures
        emitted(shorter, k) == emitted(texts, k),
    decreases k,
{
    if k > 0 {
        lemma_emitted_prefix(texts, shorter, k - 1);
    }
}

fn is_blank_char(c: char) -> (r: bool)
    ensures
        r == is_blank(c),
{
    c == ' ' || c == '\t' || c == '\n' || c == '\r' || c == '\x0C'
}

/// The characters of `s`, one by one.
fn chars_of(s: &str) -> (r: Vec<char>)
    ensures
        r@ == s@,
{
    let n = s.unicode_len();
    let mut r: Vec<char> = Vec::with_capacity(n);
    let mut i: usize = 0;
    while i < n
        invariant
            n == s@.len(),
            i <= n,
            r@ == s@.subrange(0, i as int),
        decreases n - i,
    {
        r.push(s.get_char(i));
        i += 1;
        assert(r@ =~= s@.subrange(0, i as int));
    }
    assert(r@ =~= s@);
    r
}

/// The first index at which `p` occurs in `n`.
fn find_first(n: &Vec<char>, p: &Vec<char>) -> (r: Option<usize>)
    ensures
        match r {
            Some(i) => first_occurrence_from(n@, p@, 0) == Some(i as int) && i + p@.len() <= n@.len(),
            None => first_occurrence_from(n@, p@, 0) is None,
        },
{
    let len = n.len();
    let m = p.len();
    if m > len {
        return None;
    }
    let mut i: usize = 0;
    while i <= len - m
        invariant
            len == n@.len(),
            m == p@.len(),
            m <= len,
            i <= len - m + 1,
            first_occurrence_from(n@, p@, 0) == first_occurrence_from(n@, p@, i as int),
        decreases len - i,
    {
        let mut j: usize = 0;
        let mut same = true;
        while j < m && same
            invariant
                len == n@.len(),
                m == p@.len(),
                i + m <= len,
                j <= m,
                same == (forall|t: int| 0 <= t < j ==> n@[i + t] == p@[t]),
            decreases m - j,
        {
            if n[i + j] != p[j] {
                same = false;
            }
            j += 1;
        }
        if same {
            assert(n@.subrange(i as int, i + m) =~= p@);
            return Some(i);
        }
        assert(!occurs_at(n@, p@, i as int)) by {
            let t = choose|t: int| 0 <= t < j && n@[i + t] != p@[t];
            if n@.subrange(i as int, i + m) == p@ {
                assert(n@.subrange(i as int, i + m)[t] == n@[i + t]);
            }
        }
        i += 1;
    }
    None
}

/// Splits `s` into its words: the maximal runs of non-blank characters.
pub fn split_words(s: &str) -> (r: Vec<String>)
    ensures
        views(r@) == words(s@),
{
    let cs = chars_of(s);
    let n = cs.len();
    let mut out: Vec<String> = Vec::new();
    let mut i: usize = 0;
    assert(s@.subrange(0, n as int) =~= s@);
    assert(views(out@) + words(s@) =~= words(s@));
    while i < n
        invariant
            cs@ == s@,
            n == s@.len(),
            i <= n,
            words(s@) == views(out@) + words(s@.subrange(i as int, n as int)),
        decreases n - i,
    {
        if is_blank_char(cs[i]) {
            assert(s@.subrange(i as int, n as int).drop_first() =~= s@.subrange(i + 1, n as int));
            i += 1;
        } else {
            let start = i;
            while i < n && !is_blank_char(cs[i])
                invariant
                    cs@ == s@,
                    n == s@.len(),
                    start < i + 1 <= n + 1,
                    i <= n,
                    forall|t: int| start <= t < i ==> !is_blank(#[trigger] s@[t]),
                decreases n - i,
            {
                i += 1;
            }
            let ghost suffix = s@.subrange(start as int, n as int);
            proof {
                assert forall|t: int| 0 <= t < i - start implies !is_blank(#[trigger] suffix[t]) by {
                    assert(suffix[t] == s@[start + t]);
                }
                if i < n {
                    assert(suffix[i - start] == s@[i as int]);
                }
                lemma_leading_word(suffix, i - start);
                assert(suffix.subrange(0, i - start) =~= s@.subrange(start as int, i as int));
                assert(suffix.subrange(i - start, suffix.len() as int) =~= s@.subrange(
                    i as int,
                    n as int,
                ));
            }
            let w = String::from_str(s.substring_char(start, i));
            let ghost before = out@;
            out.push(w);
            assert(views(out@) =~= views(before) + seq![w@]);
        }
    }
    assert(words(s@.subrange(n as int, n as int)) =~= seq![]);
    assert(views(out@) + seq![] =~= views(out@));
    out
}

/// The words that `text` brings beyond `previous`: the first occurrence of
/// `previous` is taken out of `text` (a leading one where `text` extends
/// `previous`, wherever it stands otherwise; nothing when there is none), and
/// the words of what is left are returned in order.
pub fn new_words_since(previous: &str, text: &str) -> (r: Vec<String>)
    ensures
        views(r@) == new_words(previous@, text@),
{
    let ps = chars_of(previous);
    let ts = chars_of(text);
    match find_first(&ts, &ps) {
        Some(i) => {
            let end = text.unicode_len();
            let head = String::from_str(text.substring_char(0, i));
            let rest = head.concat(text.substring_char(i + ps.len(), end));
            split_words(rest.as_str())
        },
        None => split_words(text),
    }
}

} // verus!
