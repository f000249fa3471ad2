//! How much two texts have in common.
use crate::decimal::Decimal;
use crate::text;
use vstd::prelude::*;

verus! {

use crate::rounding::{
    lemma_pow10_unit, lemma_rounded_defined, lemma_rounded_order, over, unit, whole, written_as,
};
use crate::text::{is_ascii_alphanumeric, text_views, words_of};

/// A letter or a digit of any script, as the standard library's Unicode tables say.
pub uninterp spec fn is_unicode_alphanumeric(c: char) -> bool;

/// The standard library's `char::is_alphanumeric`, whose result has the name
/// `is_unicode_alphanumeric`.
#[verifier::external_body]
fn outside_is_alphanumeric(c: char) -> (r: bool)
    ensures
        r == is_unicode_alphanumeric(c),
{
    c.is_alphanumeric()
}

/// A letter or a digit.
pub open spec fn is_word_char(c: char) -> bool {
    if c <= '\u{7f}' {
        is_ascii_alphanumeric(c)
    } else {
        is_unicode_alphanumeric(c)
    }
}

fn belongs_to_word(c: char) -> (r: bool)
    ensures
        r == is_word_char(c),
{
    if c <= '\u{7f}' {
        text::is_alphanumeric(c)
    } else {
        outside_is_alphanumeric(c)
    }
}

pub open spec fn bare_start(word: Seq<char>) -> Seq<char>
    decreases word.len(),
{
    if word.len() == 0 || is_word_char(word[0]) {
        word
    } else {
        bare_start(word.drop_first())
    }
}

pub open spec fn bare_end(word: Seq<char>) -> Seq<char>
    decreases word.len(),
{
    if word.len() == 0 || is_word_char(word.last()) {
        word
    } else {
        bare_end(word.drop_last())
    }
}

/// A word without what is neither letter nor digit at its ends.
pub open spec fn bare(word: Seq<char>) -> Seq<char> {
    bare_end(bare_start(word))
}

/// The words of a text, each once.
pub open spec fn word_set(text: Seq<char>) -> Set<Seq<char>> {
    words_of(text).map_values(|w: Seq<char>| bare(w)).to_set()
}

/// The share of the words of two texts that both have; zero where there are no words.
pub open spec fn shared_words(a: Seq<char>, b: Seq<char>) -> Option<int> {
    let both = word_set(a).intersect(word_set(b)).len();
    let all = word_set(a).union(word_set(b)).len();
    if all == 0 {
        Some(0)
    } else {
        over(Some(whole(both as int)), Some(whole(all as int)))
    }
}

fn strip(word: &Vec<char>) -> (r: Vec<char>)
    ensures
        r@ == bare(word@),
{
    let mut start: usize = 0;
    proof {
        assert(word@.skip(0) =~= word@);
    }
    while start < word.len() && !belongs_to_word(word[start])
        invariant
            start <= word@.len(),
            bare_start(word@) == bare_start(word@.skip(start as int)),
        decreases word@.len() - start,
    {
        proof {
            assert(word@.skip(start as int).drop_first() =~= word@.skip(start + 1));
            assert(word@.skip(start as int)[0] == word@[start as int]);
        }
        start = start + 1;
    }
    proof {
        assert(start < word@.len() ==> word@.skip(start as int)[0] == word@[start as int]);
        assert(word@.subrange(start as int, word@.len() as int) =~= word@.skip(start as int));
    }
    let mut end: usize = word.len();
    while end > start && !belongs_to_word(word[end - 1])
        invariant
            start <= end <= word@.len(),
            bare_end(word@.skip(start as int)) == bare_end(
                word@.subrange(start as int, end as int),
            ),
        decreases end,
    {
        proof {
            assert(word@.subrange(start as int, end as int).drop_last() =~= word@.subrange(
                start as int,
                end - 1,
            ));
            assert(word@.subrange(start as int, end as int).last() == word@[end - 1]);
        }
        end = end - 1;
    }
    proof {
        assert(end > start ==> word@.subrange(start as int, end as int).last() == word@[end - 1]);
    }
    text::part(word, start, end)
}

fn same_chars(a: &Vec<char>, b: &Vec<char>) -> (r: bool)
    ensures
        r == (a@ == b@),
{
    if a.len() != b.len() {
        return false;
    }
    let mut i: usize = 0;
    while i < a.len()
        invariant
            a@.len() == b@.len(),
            i <= a@.len(),
            forall|j: int| 0 <= j < i ==> #[trigger] a@[j] == b@[j],
        decreases a@.len() - i,
    {
        if a[i] != b[i] {
            return false;
        }
        i = i + 1;
    }
    proof {
        assert(a@ =~= b@);
    }
    true
}

fn is_among(words: &Vec<Vec<char>>, word: &Vec<char>) -> (r: bool)
    ensures
        r == text_views(words@).contains(word@),
{
    let mut i: usize = 0;
    while i < words.len()
        invariant
            i <= words@.len(),
            forall|j: int| 0 <= j < i ==> #[trigger] text_views(words@)[j] != word@,
        decreases words@.len() - i,
    {
        if same_chars(&words[i], word) {
            proof {
                assert(text_views(words@)[i as int] == word@);
            }
            return true;
        }
        i = i + 1;
    }
    false
}

/// The words of a text, none of them twice.
fn distinct_words(content: &str) -> (r: Vec<Vec<char>>)
    ensures
        text_views(r@).no_duplicates(),
        text_views(r@).to_set() == word_set(content@),
{
    let chars = text::chars_of(content);
    let words = text::split_words(&chars);
    let ghost bared = words_of(content@).map_values(|w: Seq<char>| bare(w));
    let mut r: Vec<Vec<char>> = Vec::new();
    let mut i: usize = 0;
    proof {
        assert(text_views(r@).to_set() =~= bared.take(0).to_set());
    }
    while i < words.len()
        invariant
            i <= words@.len(),
            text_views(words@) == words_of(content@),
            bared == words_of(content@).map_values(|w: Seq<char>| bare(w)),
            text_views(r@).no_duplicates(),
            text_views(r@).to_set() == bared.take(i as int).to_set(),
        decreases words@.len() - i,
    {
        let word = strip(&words[i]);
        let ghost now = bared.take(i + 1);
        proof {
            assert(words_of(content@)[i as int] == words@[i as int]@);
            assert(bared[i as int] == word@);
            assert(now =~= bared.take(i as int).push(word@));
            lemma_push_to_set(bared.take(i as int), word@);
        }
        let ghost before = r@;
        if !is_among(&r, &word) {
            r.push(word);
            proof {
                assert(text_views(r@) =~= text_views(before).push(word@));
                lemma_push_to_set(text_views(before), word@);
                assert forall|j: int, k: int|
                    0 <= j < k < text_views(r@).len() implies text_views(r@)[j] != text_views(
                    r@,
                )[k] by {
                    if k == before.len() {
                        assert(text_views(before).contains(text_views(before)[j]));
                    }
                }
            }
        } else {
            proof {
                assert(text_views(before).to_set().contains(word@));
                assert(now.to_set() =~= bared.take(i as int).to_set());
            }
        }
        i = i + 1;
    }
    proof {
        assert(bared.take(i as int) =~= bared);
    }
    r
}

proof fn lemma_push_to_set<T>(s: Seq<T>, x: T)
    ensures
        s.push(x).to_set() == s.to_set().insert(x),
{
    let after = s.push(x);
    assert forall|y: T| after.to_set().contains(y) == s.to_set().insert(x).contains(y) by {
        if s.contains(y) {
            let i = choose|i: int| 0 <= i < s.len() && s[i] == y;
            assert(after[i] == y);
        }
        assert(after[s.len() as int] == x);
        if after.contains(y) && y != x {
            let i = choose|i: int| 0 <= i < after.len() && after[i] == y;
            assert(s[i] == y);
        }
    }
    assert(after.to_set() =~= s.to_set().insert(x));
}

/// The share of the words of two texts that both have.
pub fn word_similarity(a: &str, b: &str) -> (r: Decimal)
    ensures
        shared_words(a@, b@) == Some(r@),
        0 <= r@ <= unit(),
{
    let words_a = distinct_words(a);
    let words_b = distinct_words(b);
    let ghost set_a = word_set(a@);
    let ghost set_b = word_set(b@);
    let ghost views = text_views(words_a@);
    let mut both: u64 = 0;
    let mut i: usize = 0;
    proof {
        assert(views.take(0).to_set().intersect(set_b) =~= Set::empty());
    }
    while i < words_a.len()
        invariant
            i <= words_a@.len(),
            both <= i,
            views == text_views(words_a@),
            views.no_duplicates(),
            text_views(words_b@).to_set() == set_b,
            both == views.take(i as int).to_set().intersect(set_b).len(),
            views.take(i as int).to_set().intersect(set_b).finite(),
        decreases words_a@.len() - i,
    {
        let ghost earlier = views.take(i as int);
        let ghost word = words_a@[i as int]@;
        proof {
            assert(views[i as int] == word);
            assert(views.take(i + 1) =~= earlier.push(word));
            lemma_push_to_set(earlier, word);
            assert(!earlier.to_set().contains(word)) by {
                if earlier.contains(word) {
                    let k = choose|k: int| 0 <= k < earlier.len() && earlier[k] == word;
                    assert(views[k] == views[i as int]);
                }
            }
        }
        if is_among(&words_b, &words_a[i]) {
            both = both + 1;
            proof {
                assert(set_b.contains(word));
                assert(earlier.to_set().insert(word).intersect(set_b)
                    =~= earlier.to_set().intersect(set_b).insert(word));
            }
        } else {
            proof {
                assert(!set_b.contains(word));
                assert(earlier.to_set().insert(word).intersect(set_b)
                    =~= earlier.to_set().intersect(set_b));
            }
        }
        i = i + 1;
    }
    let ghost views_b = text_views(words_b@);
    proof {
        assert(views.take(i as int) =~= views);
        views.unique_seq_to_set();
        views_b.unique_seq_to_set();
        vstd::set_lib::lemma_set_intersect_union_lens(set_a, set_b);
    }
    let all: u128 = words_a.len() as u128 + words_b.len() as u128 - both as u128;
    if all == 0 {
        return Decimal::zero();
    }
    proof {
        vstd::set_lib::lemma_len_subset(set_a.intersect(set_b), set_b);
        vstd::set_lib::lemma_len_subset(set_a.intersect(set_b), set_a);
        lemma_share(both as int, all as int);
    }
    match Decimal::from_parts(all as i128, 0) {
        Some(count) => {
            proof {
                lemma_pow10_unit();
            }
            Decimal::from_u64(both) / count
        },
        None => Decimal::zero(),
    }
}

/// A share of a whole can be reckoned, and lies between zero and one.
proof fn lemma_share(part: int, all: int)
    requires
        0 <= part <= all,
        0 < all,
    ensures
        over(Some(whole(part)), Some(whole(all))) is Some,
        0 <= over(Some(whole(part)), Some(whole(all)))->0 <= unit(),
{
    reveal(crate::rounding::quotient);
    let n = whole(part);
    let d = whole(all);
    lemma_rounded_defined(n, d);
    assert(written_as(0, 0, 0));
    lemma_rounded_order(n, d, 0);
    lemma_pow10_unit();
    assert(written_as(unit(), 1, 0));
    lemma_rounded_order(n, d, unit());
}

/// Two texts have as much in common one way round as the other.
pub proof fn law_similarity_is_symmetric(a: Seq<char>, b: Seq<char>)
    ensures
        shared_words(a, b) == shared_words(b, a),
{
    assert(word_set(a).intersect(word_set(b)) =~= word_set(b).intersect(word_set(a)));
    assert(word_set(a).union(word_set(b)) =~= word_set(b).union(word_set(a)));
}

} // verus!
