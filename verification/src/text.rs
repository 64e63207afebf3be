//! Character and string helpers shared by the tag rules.

use vstd::prelude::*;

verus! {

/// A list of texts, each seen as a sequence of characters.
pub type Texts = Seq<Seq<char>>;

/// The code points that carry the Unicode `White_Space` property.
pub open spec fn is_whitespace(c: char) -> bool {
    let n = c as u32;
    ||| 0x09 <= n <= 0x0D
    ||| n == 0x20
    ||| n == 0x85
    ||| n == 0xA0
    ||| n == 0x1680
    ||| 0x2000 <= n <= 0x200A
    ||| n == 0x2028
    ||| n == 0x2029
    ||| n == 0x202F
    ||| n == 0x205F
    ||| n == 0x3000
}

/// A text is blank when it is empty or made of white space only.
pub open spec fn is_blank(s: Seq<char>) -> bool {
    forall|i: int| 0 <= i < s.len() ==> is_whitespace(#[trigger] s[i])
}

/// Tells whether `c` is a white-space character.
pub fn char_is_whitespace(c: char) -> (r: bool)
    ensures
        r == is_whitespace(c),
{
    let n: u32 = c as u32;
    (0x09 <= n && n <= 0x0D) || n == 0x20 || n == 0x85 || n == 0xA0 || n == 0x1680 || (0x2000 <= n
        && n <= 0x200A) || n == 0x2028 || n == 0x2029 || n == 0x202F || n == 0x205F || n == 0x3000
}

/// Tells whether `s` is empty or holds white space only.
pub fn str_is_blank(s: &str) -> (r: bool)
    ensures
        r == is_blank(s@),
{
    for c in it: s.chars()
        invariant
            it.seq() == s@,
            forall|i: int| 0 <= i < it.index() ==> is_whitespace(#[trigger] s@[i]),
    {
        if !char_is_whitespace(c) {
            return false;
        }
    }
    true
}

/// Two lists of texts have the same view exactly when they have the same
/// length and agree position by position.
pub proof fn lemma_texts_agree(a: &Vec<String>, b: &Vec<String>)
    ensures
        a.deep_view() == b.deep_view() <==> (a.len() == b.len() && forall|k: int|
            0 <= k < a.len() ==> a[k]@ == b[k]@),
{
    if a.deep_view() == b.deep_view() {
        assert(a.deep_view().len() == b.deep_view().len());
        assert forall|k: int| 0 <= k < a.len() implies a[k]@ == b[k]@ by {
            assert(a.deep_view()[k] == b.deep_view()[k]);
        }
    }
    if a.len() == b.len() && forall|k: int| 0 <= k < a.len() ==> a[k]@ == b[k]@ {
        assert(a.deep_view() =~= b.deep_view());
    }
}

/// Copies a list of texts.
pub fn clone_texts(texts: &[String]) -> (r: Vec<String>)
    ensures
        r.deep_view() == texts.deep_view(),
{
    let mut out: Vec<String> = Vec::new();
    let mut i: usize = 0;
    while i < texts.len()
        invariant
            i <= texts.len(),
            out.len() == i,
            forall|k: int| 0 <= k < i ==> out[k]@ == texts[k]@,
        decreases texts.len() - i,
    {
        out.push(texts[i].clone());
        i += 1;
    }
    assert(out.deep_view() =~= texts.deep_view());
    out
}

/// Tells whether `tag` occurs in `tags`, compared character by character.
pub fn texts_contain(tags: &Vec<String>, tag: &String) -> (r: bool)
    ensures
        r == tags.deep_view().contains(tag@),
{
    let mut i: usize = 0;
    while i < tags.len()
        invariant
            i <= tags.len(),
            forall|k: int| 0 <= k < i ==> tags[k]@ != tag@,
        decreases tags.len() - i,
    {
        if tags[i] == *tag {
            assert(tags.deep_view()[i as int] == tag@);
            return true;
        }
        i += 1;
    }
    assert forall|k: int| 0 <= k < tags.deep_view().len() implies tags.deep_view()[k] != tag@ by {
        assert(tags.deep_view()[k] == tags[k]@);
    }
    false
}

/// How often `t` occurs in `texts`.
pub open spec fn occurrences(texts: Texts, t: Seq<char>) -> nat {
    texts.to_multiset().count(t)
}

/// `counts` names every text that occurs in `texts` exactly once, each with
/// the number of its occurrences.
pub open spec fn is_tally(counts: Seq<(Seq<char>, i64)>, texts: Texts) -> bool {
    &&& forall|i: int, j: int|
        0 <= i < j < counts.len() ==> (#[trigger] counts[i]).0 != (#[trigger] counts[j]).0
    &&& forall|i: int|
        0 <= i < counts.len() ==> (#[trigger] counts[i]).1 == occurrences(texts, counts[i].0)
            && counts[i].1 >= 1
    &&& forall|t: Seq<char>| #[trigger]
        occurrences(texts, t) > 0 ==> exists|i: int|
            0 <= i < counts.len() && (#[trigger] counts[i]).0 == t
}

/// Appending `x` to `texts` adds one occurrence of `x` and none of any
/// other text.
pub proof fn lemma_occurrences_push(texts: Texts, x: Seq<char>, t: Seq<char>)
    ensures
        occurrences(texts.push(x), t) == occurrences(texts, t) + if x == t {
            1nat
        } else {
            0nat
        },
{
    broadcast use vstd::seq_lib::to_multiset_build;
    broadcast use vstd::multiset::group_multiset_axioms;

}

/// A prefix of `texts` holds no more occurrences of `t` than `texts` does.
pub proof fn lemma_occurrences_prefix(texts: Texts, n: int, t: Seq<char>)
    requires
        0 <= n <= texts.len(),
    ensures
        occurrences(texts.take(n), t) <= occurrences(texts, t),
{
    broadcast use vstd::multiset::group_multiset_axioms;

    vstd::seq_lib::lemma_multiset_commutative(texts.take(n), texts.skip(n));
    assert(texts.take(n) + texts.skip(n) =~= texts);
}

/// Row of `key` in `counts`.
fn find_count(counts: &Vec<(String, i64)>, key: &String) -> (r: Option<usize>)
    ensures
        match r {
            Some(k) => k < counts.len() && counts[k as int].0@ == key@,
            None => forall|k: int| 0 <= k < counts.len() ==> (#[trigger] counts[k]).0@ != key@,
        },
{
    let mut k: usize = 0;
    while k < counts.len()
        invariant
            k <= counts.len(),
            forall|j: int| 0 <= j < k ==> (#[trigger] counts[j]).0@ != key@,
        decreases counts.len() - k,
    {
        if counts[k].0 == *key {
            return Some(k);
        }
        k += 1;
    }
    None
}

/// Counts how often each distinct text occurs in `texts`.
///
/// Every text that occurs is listed once with its count. There is no result
/// when a count does not fit the counter.
pub fn tally(texts: &[String]) -> (r: Option<Vec<(String, i64)>>)
    ensures
        match r {
            Some(counts) => is_tally(counts.deep_view(), texts.deep_view()),
            None => exists|t: Seq<char>| occurrences(texts.deep_view(), t) > i64::MAX,
        },
{
    let ghost all = texts.deep_view();
    let mut out: Vec<(String, i64)> = Vec::new();
    let mut i: usize = 0;
    assert forall|t: Seq<char>| occurrences(all.take(0), t) == 0 by {
        vstd::seq_lib::to_multiset_contains(all.take(0), t);
    }
    while i < texts.len()
        invariant
            i <= texts.len(),
            all == texts.deep_view(),
            is_tally(out.deep_view(), all.take(i as int)),
        decreases texts.len() - i,
    {
        let ghost seen = all.take(i as int);
        let ghost before = out.deep_view();
        let ghost x = texts[i as int]@;
        proof {
            assert(all[i as int] == x);
            assert(all.take(i + 1) =~= seen.push(x));
            assert forall|t: Seq<char>|
                occurrences(seen.push(x), t) == occurrences(seen, t) + if x == t {
                    1nat
                } else {
                    0nat
                } by {
                lemma_occurrences_push(seen, x, t);
            }
        }
        match find_count(&out, &texts[i]) {
            Some(k) => {
                assert(before[k as int].0 == x);
                if out[k].1 == i64::MAX {
                    proof {
                        lemma_occurrences_prefix(all, i + 1, x);
                    }
                    return None;
                }
                out[k].1 = out[k].1 + 1;
                assert(out.deep_view() =~= before.update(
                    k as int,
                    (x, (before[k as int].1 + 1) as i64),
                ));
                assert forall|t: Seq<char>| #[trigger]
                    occurrences(seen.push(x), t) > 0 implies exists|j: int|
                    0 <= j < out.deep_view().len() && (#[trigger] out.deep_view()[j]).0 == t by {
                    if t == x {
                        assert(out.deep_view()[k as int].0 == t);
                    } else {
                        assert(occurrences(seen, t) > 0);
                        let j = choose|j: int|
                            0 <= j < before.len() && (#[trigger] before[j]).0 == t;
                        assert(out.deep_view()[j].0 == t);
                    }
                }
            },
            None => {
                assert forall|j: int| 0 <= j < before.len() implies (#[trigger] before[j]).0
                    != x by {
                    assert(before[j].0 == out[j].0@);
                }
                assert(occurrences(seen, x) == 0);
                out.push((texts[i].clone(), 1));
                assert(out.deep_view() =~= before.push((x, 1i64)));
                assert forall|t: Seq<char>| #[trigger]
                    occurrences(seen.push(x), t) > 0 implies exists|j: int|
                    0 <= j < out.deep_view().len() && (#[trigger] out.deep_view()[j]).0 == t by {
                    if t == x {
                        assert(out.deep_view()[before.len() as int].0 == t);
                    } else {
                        assert(occurrences(seen, t) > 0);
                        let j = choose|j: int|
                            0 <= j < before.len() && (#[trigger] before[j]).0 == t;
                        assert(out.deep_view()[j].0 == t);
                    }
                }
            },
        }
        i += 1;
    }
    assert(all.take(i as int) =~= all);
    Some(out)
}

/// Selects the texts that are not blank.
pub open spec fn not_blank() -> spec_fn(Seq<char>) -> bool {
    |t: Seq<char>| !is_blank(t)
}

/// `texts` without its blank entries; the others keep their order.
pub open spec fn without_blanks(texts: Texts) -> Texts {
    texts.filter(not_blank())
}

/// Drops the blank entries of `texts`; the others keep their order.
pub fn strip_blanks(texts: Vec<String>) -> (r: Vec<String>)
    ensures
        r.deep_view() == without_blanks(texts.deep_view()),
{
    let ghost all = texts.deep_view();
    let mut out: Vec<String> = Vec::new();
    let mut i: usize = 0;
    assert(all.take(0).filter(not_blank()) =~= Seq::empty());
    while i < texts.len()
        invariant
            i <= texts.len(),
            all == texts.deep_view(),
            out.deep_view() == all.take(i as int).filter(not_blank()),
        decreases texts.len() - i,
    {
        let ghost before = out.deep_view();
        proof {
            assert(all.take(i + 1) =~= all.take(i as int).push(all[i as int]));
            all.take(i as int).lemma_filter_push(all[i as int], not_blank());
        }
        if !str_is_blank(texts[i].as_str()) {
            out.push(texts[i].clone());
            assert(out.deep_view() =~= before.push(all[i as int]));
        }
        i += 1;
    }
    assert(all.take(i as int) =~= all);
    out
}

} // verus!
