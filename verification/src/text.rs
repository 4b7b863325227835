//! Questions about text: equality, substrings, blank text, words.
use vstd::prelude::*;

verus! {

/// `needle` stands somewhere in `text`.
pub open spec fn occurs_in(needle: Seq<char>, text: Seq<char>) -> bool {
    exists|at: int| #[trigger] occurs_at(needle, text, at)
}

/// `needle` stands in `text` at position `at`.
pub open spec fn occurs_at(needle: Seq<char>, text: Seq<char>, at: int) -> bool {
    &&& 0 <= at
    &&& at + needle.len() <= text.len()
    &&& text.subrange(at, at + needle.len()) == needle
}

/// The characters with Unicode's White_Space property.
pub open spec fn white_space(c: char) -> bool {
    ||| '\u{9}' <= c <= '\u{d}'
    ||| c == ' '
    ||| c == '\u{85}'
    ||| c == '\u{a0}'
    ||| c == '\u{1680}'
    ||| '\u{2000}' <= c <= '\u{200a}'
    ||| c == '\u{2028}'
    ||| c == '\u{2029}'
    ||| c == '\u{202f}'
    ||| c == '\u{205f}'
    ||| c == '\u{3000}'
}

/// Nothing is left of `text` once the white space around it is trimmed.
pub open spec fn blank(text: Seq<char>) -> bool {
    forall|i: int| 0 <= i < text.len() ==> white_space(#[trigger] text[i])
}

/// The characters of `text`.
pub(crate) fn chars_of(text: &str) -> (chars: Vec<char>)
    ensures
        chars@ == text@,
{
    let mut chars: Vec<char> = Vec::new();
    for c in iter: text.chars()
        invariant
            chars@ == iter.seq().take(iter.index() as int),
            iter.seq() == text@,
    {
        chars.push(c);
    }
    chars
}

/// Whether two texts hold the same characters.
pub fn same_text(a: &str, b: &str) -> (same: bool)
    ensures
        same == (a@ == b@),
{
    let left: String = a.to_string();
    let right: String = b.to_string();
    left == right
}

/// Whether `text` has White_Space characters only.
pub fn is_blank(text: &str) -> (res: bool)
    ensures
        res == blank(text@),
{
    for c in iter: text.chars()
        invariant
            iter.seq() == text@,
            forall|i: int| 0 <= i < iter.index() ==> white_space(#[trigger] text@[i]),
    {
        if !is_white_space(c) {
            return false;
        }
    }
    true
}

/// Whether `c` has Unicode's White_Space property.
pub fn is_white_space(c: char) -> (res: bool)
    ensures
        res == white_space(c),
{
    ('\u{9}' <= c && c <= '\u{d}') || c == ' ' || c == '\u{85}' || c == '\u{a0}' || c == '\u{1680}'
        || ('\u{2000}' <= c && c <= '\u{200a}') || c == '\u{2028}' || c == '\u{2029}' || c
        == '\u{202f}' || c == '\u{205f}' || c == '\u{3000}'
}

/// Whether `needle` stands somewhere in `text`.
pub fn contains_text(text: &str, needle: &str) -> (found: bool)
    ensures
        found == occurs_in(needle@, text@),
{
    let text_chars = chars_of(text);
    let needle_chars = chars_of(needle);
    let mut at: usize = 0;
    while at <= text_chars.len() && needle_chars.len() <= text_chars.len() - at
        invariant
            text_chars@ == text@,
            needle_chars@ == needle@,
            at <= text_chars.len() + 1,
            forall|p: int| 0 <= p < at ==> !#[trigger] occurs_at(needle@, text@, p),
        decreases text_chars.len() + 1 - at,
    {
        let mut k: usize = 0;
        while k < needle_chars.len() && text_chars[at + k] == needle_chars[k]
            invariant
                text_chars@ == text@,
                needle_chars@ == needle@,
                at + needle_chars.len() <= text_chars.len(),
                k <= needle_chars.len(),
                forall|j: int|
                    0 <= j < k ==> text@[at + j] == #[trigger] needle@[j],
            decreases needle_chars.len() - k,
        {
            k = k + 1;
        }
        if k == needle_chars.len() {
            assert(text@.subrange(at as int, at + needle@.len()) =~= needle@);
            assert(occurs_at(needle@, text@, at as int));
            return true;
        }
        assert(!occurs_at(needle@, text@, at as int)) by {
            if occurs_at(needle@, text@, at as int) {
                assert(text@.subrange(at as int, at + needle@.len())[k as int] == needle@[k as int]);
            }
        }
        at = at + 1;
    }
    false
}

/// The words of a text that white space has ended, and the word that is still open behind them.
pub open spec fn words_and_rest(text: Seq<char>) -> (Seq<Seq<char>>, Seq<char>)
    decreases text.len(),
{
    if text.len() == 0 {
        (Seq::empty(), Seq::empty())
    } else {
        let (words, open) = words_and_rest(text.drop_last());
        if !white_space(text.last()) {
            (words, open.push(text.last()))
        } else if open.len() == 0 {
            (words, open)
        } else {
            (words.push(open), Seq::empty())
        }
    }
}

/// The words of a text: what stands between white space, in order.
pub open spec fn words_of(text: Seq<char>) -> Seq<Seq<char>> {
    let (words, open) = words_and_rest(text);
    if open.len() == 0 {
        words
    } else {
        words.push(open)
    }
}

/// The words of a text.
pub fn split_words(text: &str) -> (words: Vec<String>)
    ensures
        words.deep_view() == words_of(text@),
{
    let chars = chars_of(text);
    let mut words: Vec<String> = Vec::new();
    let mut start: usize = 0;
    let mut i: usize = 0;
    assert(text@.take(0) =~= Seq::<char>::empty());
    assert(words.deep_view() =~= Seq::<Seq<char>>::empty());
    while i < chars.len()
        invariant
            chars@ == text@,
            start <= i <= chars.len(),
            words.deep_view() == words_and_rest(text@.take(i as int)).0,
            text@.subrange(start as int, i as int) == words_and_rest(text@.take(i as int)).1,
        decreases chars.len() - i,
    {
        let ghost before = words.deep_view();
        let ghost open = text@.subrange(start as int, i as int);
        proof {
            assert(text@.take(i + 1).drop_last() =~= text@.take(i as int));
            assert(text@.subrange(start as int, i + 1) =~= open.push(text@[i as int]));
        }
        if is_white_space(chars[i]) {
            if start < i {
                words.push(text.substring_char(start, i).to_string());
                assert(words.deep_view() =~= before.push(open));
            }
            start = i + 1;
            assert(text@.subrange(start as int, i + 1) =~= Seq::<char>::empty());
        }
        i = i + 1;
    }
    assert(text@.take(i as int) =~= text@);
    let ghost before = words.deep_view();
    let ghost open = text@.subrange(start as int, i as int);
    if start < i {
        words.push(text.substring_char(start, i).to_string());
        assert(words.deep_view() =~= before.push(open));
    }
    words
}

/// A text stands in another exactly where the other is made of it and of something before and
/// behind it.
pub proof fn law_occurs_between(needle: Seq<char>, text: Seq<char>)
    ensures
        occurs_in(needle, text) <==> exists|before: Seq<char>, behind: Seq<char>|
            text == #[trigger] (before + needle + behind),
{
    if occurs_in(needle, text) {
        let at = choose|at: int| #[trigger] occurs_at(needle, text, at);
        let before = text.take(at);
        let behind = text.skip(at + needle.len());
        assert(text.subrange(at, at + needle.len()) == needle);
        assert forall|i: int| 0 <= i < needle.len() implies text[at + i] == #[trigger] needle[i] by {
            assert(text.subrange(at, at + needle.len())[i] == text[at + i]);
        }
        assert(text =~= before + needle + behind);
    }
    if exists|before: Seq<char>, behind: Seq<char>|
        text == #[trigger] (before + needle + behind) {
        let (before, behind) = choose|before: Seq<char>, behind: Seq<char>|
            text == #[trigger] (before + needle + behind);
        let at = before.len() as int;
        assert(text.subrange(at, at + needle.len()) =~= needle);
        assert(occurs_at(needle, text, at));
    }
}

/// The white space characters, by their code points.
pub proof fn law_white_space_by_number(c: char)
    ensures
        white_space(c) <==> {
            let n = c as u32;
            ||| 9 <= n <= 13
            ||| n == 32
            ||| n == 0x85
            ||| n == 0xa0
            ||| n == 0x1680
            ||| 0x2000 <= n <= 0x200a
            ||| n == 0x2028
            ||| n == 0x2029
            ||| n == 0x202f
            ||| n == 0x205f
            ||| n == 0x3000
        },
{
}

/// The empty text is blank, a text of one character where the character is white space, and a
/// longer text where all its parts are.
pub proof fn law_blank_parts(c: char, left: Seq<char>, right: Seq<char>)
    ensures
        blank(Seq::<char>::empty()),
        blank(seq![c]) <==> white_space(c),
        blank(left + right) <==> blank(left) && blank(right),
{
    if blank(seq![c]) {
        assert(white_space(seq![c][0]));
    }
    if blank(left + right) {
        assert forall|i: int| 0 <= i < left.len() implies white_space(#[trigger] left[i]) by {
            assert((left + right)[i] == left[i]);
        }
        assert forall|i: int| 0 <= i < right.len() implies white_space(#[trigger] right[i]) by {
            assert((left + right)[left.len() + i] == right[i]);
        }
    }
}

proof fn lemma_words_behind_space(left: Seq<char>, space: char, right: Seq<char>)
    requires
        white_space(space),
    ensures
        words_and_rest(left.push(space) + right).0 == words_of(left) + words_and_rest(right).0,
        words_and_rest(left.push(space) + right).1 == words_and_rest(right).1,
    decreases right.len(),
{
    let text = left.push(space) + right;
    if right.len() == 0 {
        assert(text =~= left.push(space));
        assert(text.drop_last() =~= left);
        assert(words_and_rest(text).0 =~= words_of(left) + words_and_rest(right).0);
        assert(words_and_rest(text).1 =~= words_and_rest(right).1);
    } else {
        let rest = right.drop_last();
        lemma_words_behind_space(left, space, rest);
        assert(text.drop_last() =~= left.push(space) + rest);
        assert(words_and_rest(text).0 =~= words_of(left) + words_and_rest(right).0);
    }
}

proof fn lemma_one_word(word: Seq<char>)
    requires
        forall|i: int| 0 <= i < word.len() ==> !white_space(#[trigger] word[i]),
    ensures
        words_and_rest(word).0.len() == 0,
        words_and_rest(word).1 == word,
    decreases word.len(),
{
    if word.len() > 0 {
        let rest = word.drop_last();
        assert(forall|i: int| 0 <= i < rest.len() ==> rest[i] == word[i]);
        lemma_one_word(rest);
        assert(!white_space(word[word.len() - 1]));
        assert(rest.push(word.last()) =~= word);
    } else {
        assert(words_and_rest(word).1 =~= word);
    }
}

/// The empty text has no words; a text without white space is a word; and white space parts a text
/// into one whose words come first and one whose words come then.
pub proof fn law_words_between_spaces(
    word: Seq<char>,
    left: Seq<char>,
    space: char,
    right: Seq<char>,
)
    ensures
        words_of(Seq::<char>::empty()).len() == 0,
        word.len() > 0 && (forall|i: int|
            0 <= i < word.len() ==> !white_space(#[trigger] word[i])) ==> words_of(word)
            == seq![word],
        white_space(space) ==> words_of(left.push(space) + right) == words_of(left) + words_of(
            right,
        ),
{
    if word.len() > 0 && forall|i: int| 0 <= i < word.len() ==> !white_space(#[trigger] word[i]) {
        lemma_one_word(word);
        assert(words_of(word) =~= seq![word]);
    }
    if white_space(space) {
        lemma_words_behind_space(left, space, right);
        assert(words_of(left.push(space) + right) =~= words_of(left) + words_of(right));
    }
}

} // verus!
