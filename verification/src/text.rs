//! Text as a sequence of characters.
use vstd::prelude::*;

verus! {

/// The lower-case form of a text, as the standard library's Unicode tables give it.
pub uninterp spec fn unicode_lowercase(text: Seq<char>) -> Seq<char>;

/// `word` stands in `text` from position `i` on.
pub open spec fn occurs_at(text: Seq<char>, word: Seq<char>, i: int) -> bool {
    0 <= i && i + word.len() <= text.len() && text.subrange(i, i + word.len()) == word
}

/// `word` stands somewhere in `text`.
pub open spec fn occurs_in(text: Seq<char>, word: Seq<char>) -> bool {
    exists|i: int| occurs_at(text, word, i)
}

pub open spec fn is_ascii_letter(c: char) -> bool {
    ('a' <= c && c <= 'z') || ('A' <= c && c <= 'Z')
}

pub open spec fn is_ascii_digit(c: char) -> bool {
    '0' <= c && c <= '9'
}

pub open spec fn is_ascii_alphanumeric(c: char) -> bool {
    is_ascii_letter(c) || is_ascii_digit(c)
}

/// No letter or digit stands directly before position `i` or directly at position `j`.
pub open spec fn stands_alone(text: Seq<char>, i: int, j: int) -> bool {
    &&& i > 0 ==> !is_ascii_alphanumeric(text[i - 1])
    &&& j < text.len() ==> !is_ascii_alphanumeric(text[j])
}

/// `word` stands in `text` from position `i` on, not as a part of a longer word.
pub open spec fn word_at(text: Seq<char>, word: Seq<char>, i: int) -> bool {
    occurs_at(text, word, i) && stands_alone(text, i, i + word.len())
}

/// `word` stands somewhere in `text` as a word of its own.
pub open spec fn word_in(text: Seq<char>, word: Seq<char>) -> bool {
    exists|i: int| word_at(text, word, i)
}

pub open spec fn digit_char(d: nat) -> char {
    (48 + d) as char
}

/// A number in decimal digits.
pub open spec fn decimal_text(n: nat) -> Seq<char>
    decreases n,
{
    if n < 10 {
        seq![digit_char(n)]
    } else {
        decimal_text(n / 10).push(digit_char(n % 10))
    }
}

/// `c` with an ASCII capital made small.
pub open spec fn ascii_lower(c: char) -> char {
    if 'A' <= c && c <= 'Z' {
        ((c as u32) + 32) as char
    } else {
        c
    }
}

pub open spec fn is_ascii(text: Seq<char>) -> bool {
    forall|i: int| 0 <= i < text.len() ==> (#[trigger] text[i]) <= '\u{7f}'
}

/// The lower-case form of a text.
pub open spec fn lowercase(text: Seq<char>) -> Seq<char> {
    if is_ascii(text) {
        text.map_values(|c: char| ascii_lower(c))
    } else {
        unicode_lowercase(text)
    }
}

/// The two texts differ at most in the case of ASCII letters.
pub open spec fn same_ignoring_case(a: Seq<char>, b: Seq<char>) -> bool {
    a.len() == b.len() && forall|i: int|
        0 <= i < a.len() ==> ascii_lower(#[trigger] a[i]) == ascii_lower(b[i])
}

/// Unicode white space.
pub open spec fn is_white(c: char) -> bool {
    ||| '\u{9}' <= c && c <= '\u{d}'
    ||| c == ' '
    ||| c == '\u{85}'
    ||| c == '\u{a0}'
    ||| c == '\u{1680}'
    ||| '\u{2000}' <= c && c <= '\u{200a}'
    ||| c == '\u{2028}'
    ||| c == '\u{2029}'
    ||| c == '\u{202f}'
    ||| c == '\u{205f}'
    ||| c == '\u{3000}'
}

pub fn is_whitespace(c: char) -> (r: bool)
    ensures
        r == is_white(c),
{
    (c >= '\u{9}' && c <= '\u{d}') || c == ' ' || c == '\u{85}' || c == '\u{a0}' || c == '\u{1680}'
        || (c >= '\u{2000}' && c <= '\u{200a}') || c == '\u{2028}' || c == '\u{2029}'
        || c == '\u{202f}' || c == '\u{205f}' || c == '\u{3000}'
}

/// How many characters stand before the first white space.
pub open spec fn word_len(text: Seq<char>) -> nat
    decreases text.len(),
{
    if text.len() == 0 || is_white(text[0]) {
        0
    } else {
        1 + word_len(text.drop_first())
    }
}

pub proof fn lemma_word_len(text: Seq<char>)
    ensures
        word_len(text) <= text.len(),
        text.len() > 0 && !is_white(text[0]) ==> word_len(text) > 0,
    decreases text.len(),
{
    if text.len() > 0 && !is_white(text[0]) {
        lemma_word_len(text.drop_first());
    }
}

/// The words of a text: what stands between white space.
pub open spec fn words_of(text: Seq<char>) -> Seq<Seq<char>>
    decreases text.len(),
{
    if text.len() == 0 {
        Seq::empty()
    } else if is_white(text[0]) {
        words_of(text.drop_first())
    } else {
        proof {
            lemma_word_len(text);
        }
        seq![text.take(word_len(text) as int)] + words_of(text.skip(word_len(text) as int))
    }
}

/// What a list of texts says.
pub open spec fn text_views(v: Seq<Vec<char>>) -> Seq<Seq<char>> {
    v.map_values(|w: Vec<char>| w@)
}

/// A part of a text.
pub fn part(text: &Vec<char>, from: usize, to: usize) -> (r: Vec<char>)
    requires
        from <= to <= text@.len(),
    ensures
        r@ == text@.subrange(from as int, to as int),
{
    let mut r: Vec<char> = Vec::new();
    let mut i: usize = from;
    while i < to
        invariant
            from <= i <= to <= text@.len(),
            r@ == text@.subrange(from as int, i as int),
        decreases to - i,
    {
        r.push(text[i]);
        i = i + 1;
        proof {
            assert(text@.subrange(from as int, i as int) =~= text@.subrange(
                from as int,
                i - 1,
            ).push(text@[i - 1]));
        }
    }
    r
}

/// The words of a text.
pub fn split_words(text: &Vec<char>) -> (r: Vec<Vec<char>>)
    ensures
        text_views(r@) == words_of(text@),
{
    let mut r: Vec<Vec<char>> = Vec::new();
    let mut i: usize = 0;
    proof {
        assert(text@.skip(0) =~= text@);
        assert(text_views(r@) =~= Seq::<Seq<char>>::empty());
        assert(words_of(text@) =~= text_views(r@) + words_of(text@.skip(0)));
    }
    while i < text.len()
        invariant
            i <= text@.len(),
            words_of(text@) == text_views(r@) + words_of(text@.skip(i as int)),
        decreases text@.len() - i,
    {
        let ghost rest = text@.skip(i as int);
        let mut end: usize = i;
        while end < text.len() && !is_whitespace(text[end])
            invariant
                i <= end <= text@.len(),
                word_len(text@.skip(i as int)) == (end - i) + word_len(text@.skip(end as int)),
            decreases text@.len() - end,
        {
            proof {
                assert(text@.skip(end as int).drop_first() =~= text@.skip(end + 1));
            }
            end = end + 1;
        }
        proof {
            assert(end < text@.len() ==> text@.skip(end as int)[0] == text@[end as int]);
            assert(word_len(rest) == end - i);
            assert(rest[0] == text@[i as int]);
        }
        if end == i {
            proof {
                assert(rest.drop_first() =~= text@.skip(i + 1));
            }
            i = i + 1;
        } else {
            let ghost before = r@;
            r.push(part(text, i, end));
            proof {
                assert(rest.take(end - i) =~= text@.subrange(i as int, end as int));
                assert(rest.skip(end - i) =~= text@.skip(end as int));
                assert(text_views(r@) =~= text_views(before).push(rest.take(end - i)));
                assert(words_of(text@) =~= text_views(r@) + words_of(text@.skip(end as int)));
            }
            i = end;
        }
    }
    proof {
        assert(text@.skip(i as int).len() == 0);
        assert(words_of(text@) =~= text_views(r@));
    }
    r
}

/// The standard library's `str::to_lowercase`, whose result has the name `unicode_lowercase`.
#[verifier::external_body]
fn outside_lowercase(text: &str) -> (r: String)
    ensures
        r@ == unicode_lowercase(text@),
{
    text.to_lowercase()
}

/// The characters of a string.
pub fn chars_of(text: &str) -> (r: Vec<char>)
    ensures
        r@ == text@,
{
    let mut r: Vec<char> = Vec::new();
    for c in it: text.chars()
        invariant
            r@ == it.seq().take(it.index()),
            it.seq() == text@,
    {
        proof {
            assert(it.seq().take(it.index()).push(c) =~= it.seq().take(it.index() + 1));
        }
        r.push(c);
    }
    r
}

/// The characters of a string in lower case.
pub fn lowercase_chars(text: &str) -> (r: Vec<char>)
    ensures
        r@ == lowercase(text@),
{
    let chars = chars_of(text);
    let mut lowered: Vec<char> = Vec::new();
    let mut i: usize = 0;
    while i < chars.len()
        invariant
            i <= chars@.len(),
            chars@ == text@,
            is_ascii(chars@.take(i as int)),
            lowered@ == chars@.take(i as int).map_values(|c: char| ascii_lower(c)),
        decreases chars@.len() - i,
    {
        if chars[i] > '\u{7f}' {
            return chars_of(outside_lowercase(text).as_str());
        }
        lowered.push(lower(chars[i]));
        i = i + 1;
        proof {
            let so_far = chars@.take(i as int);
            assert(lowered@ =~= so_far.map_values(|c: char| ascii_lower(c)));
            assert forall|j: int| 0 <= j < so_far.len() implies (#[trigger] so_far[j])
                <= '\u{7f}' by {
                if j < i - 1 {
                    assert(chars@.take(i - 1)[j] == so_far[j]);
                }
            }
        }
    }
    proof {
        assert(chars@.take(i as int) =~= text@);
    }
    lowered
}

pub fn is_digit(c: char) -> (r: bool)
    ensures
        r == is_ascii_digit(c),
{
    c >= '0' && c <= '9'
}

pub fn is_alphanumeric(c: char) -> (r: bool)
    ensures
        r == is_ascii_alphanumeric(c),
{
    (c >= 'a' && c <= 'z') || (c >= 'A' && c <= 'Z') || is_digit(c)
}

pub fn lower(c: char) -> (r: char)
    ensures
        r == ascii_lower(c),
{
    if c >= 'A' && c <= 'Z' {
        ((c as u8) + 32) as char
    } else {
        c
    }
}

fn matches_at(text: &Vec<char>, word: &Vec<char>, i: usize) -> (r: bool)
    requires
        i <= text@.len(),
    ensures
        r == occurs_at(text@, word@, i as int),
{
    if text.len() - i < word.len() {
        return false;
    }
    let mut k: usize = 0;
    while k < word.len()
        invariant
            i + word.len() <= text.len(),
            k <= word@.len(),
            forall|j: int| 0 <= j < k ==> text@[i + j] == word@[j],
        decreases word@.len() - k,
    {
        if text[i + k] != word[k] {
            proof {
                assert(text@.subrange(i as int, i + word@.len())[k as int] == text@[i + k]);
            }
            return false;
        }
        k = k + 1;
    }
    proof {
        assert(text@.subrange(i as int, i + word@.len()) =~= word@);
    }
    true
}

/// Whether `word` stands somewhere in `text`.
pub fn contains(text: &Vec<char>, word: &str) -> (r: bool)
    ensures
        r == occurs_in(text@, word@),
{
    let word_chars = chars_of(word);
    let mut i: usize = 0;
    while i < text.len()
        invariant
            i <= text@.len(),
            word_chars@ == word@,
            forall|j: int| 0 <= j < i ==> !occurs_at(text@, word@, j),
        decreases text@.len() - i,
    {
        if matches_at(text, &word_chars, i) {
            return true;
        }
        i = i + 1;
    }
    matches_at(text, &word_chars, i)
}

/// Whether `word` stands somewhere in `text` as a word of its own.
pub fn contains_word(text: &Vec<char>, word: &str) -> (r: bool)
    ensures
        r == word_in(text@, word@),
{
    let word_chars = chars_of(word);
    let mut i: usize = 0;
    while i <= text.len() && text.len() - i >= word_chars.len()
        invariant
            i <= text@.len() + 1,
            word_chars@ == word@,
            forall|j: int| 0 <= j < i ==> !word_at(text@, word@, j),
        decreases text@.len() + 1 - i,
    {
        if matches_at(text, &word_chars, i) {
            let end: usize = i + word_chars.len();
            if (i == 0 || !is_alphanumeric(text[i - 1])) && (end == text.len()
                || !is_alphanumeric(text[end])) {
                proof {
                    assert(word_at(text@, word@, i as int));
                }
                return true;
            }
        }
        if i == text.len() {
            return false;
        }
        i = i + 1;
    }
    false
}

/// Whether the two texts differ at most in the case of ASCII letters.
pub fn eq_ignore_case(a: &str, b: &str) -> (r: bool)
    ensures
        r == same_ignoring_case(a@, b@),
{
    chars_eq_ignore_case(&chars_of(a), b)
}

/// Whether the characters and the text differ at most in the case of ASCII letters.
pub fn chars_eq_ignore_case(a: &Vec<char>, b: &str) -> (r: bool)
    ensures
        r == same_ignoring_case(a@, b@),
{
    let b_chars = chars_of(b);
    if a.len() != b_chars.len() {
        return false;
    }
    let mut i: usize = 0;
    while i < a.len()
        invariant
            b_chars@ == b@,
            a@.len() == b@.len(),
            i <= a@.len(),
            forall|j: int| 0 <= j < i ==> ascii_lower(#[trigger] a@[j]) == ascii_lower(b@[j]),
        decreases a@.len() - i,
    {
        if lower(a[i]) != lower(b_chars[i]) {
            return false;
        }
        i = i + 1;
    }
    true
}

/// Whether the two texts are the same.
pub fn same_text(a: &str, b: &str) -> (r: bool)
    ensures
        r == (a@ == b@),
{
    let a_chars = chars_of(a);
    let b_chars = chars_of(b);
    if a_chars.len() != b_chars.len() {
        return false;
    }
    let mut i: usize = 0;
    while i < a_chars.len()
        invariant
            a_chars@ == a@,
            b_chars@ == b@,
            a@.len() == b@.len(),
            i <= a@.len(),
            forall|j: int| 0 <= j < i ==> #[trigger] a@[j] == b@[j],
        decreases a@.len() - i,
    {
        if a_chars[i] != b_chars[i] {
            return false;
        }
        i = i + 1;
    }
    proof {
        assert(a@ =~= b@);
    }
    true
}

fn digit_text(d: u64) -> (r: &'static str)
    requires
        d < 10,
    ensures
        r@ == seq![digit_char(d as nat)],
{
    proof {
        reveal_strlit("0");
        reveal_strlit("1");
        reveal_strlit("2");
        reveal_strlit("3");
        reveal_strlit("4");
        reveal_strlit("5");
        reveal_strlit("6");
        reveal_strlit("7");
        reveal_strlit("8");
        reveal_strlit("9");
    }
    let r: &'static str = if d == 0 {
        "0"
    } else if d == 1 {
        "1"
    } else if d == 2 {
        "2"
    } else if d == 3 {
        "3"
    } else if d == 4 {
        "4"
    } else if d == 5 {
        "5"
    } else if d == 6 {
        "6"
    } else if d == 7 {
        "7"
    } else if d == 8 {
        "8"
    } else {
        "9"
    };
    proof {
        assert(r@ =~= seq![digit_char(d as nat)]);
    }
    r
}

/// A number in decimal digits.
pub fn number_text(n: u64) -> (r: String)
    ensures
        r@ == decimal_text(n as nat),
    decreases n,
{
    if n < 10 {
        digit_text(n).to_owned()
    } else {
        let r = number_text(n / 10).concat(digit_text(n % 10));
        proof {
            assert(r@ =~= decimal_text(n as nat));
        }
        r
    }
}

} // verus!
