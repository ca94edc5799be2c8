//! What rendering does to a text.
use vstd::prelude::*;

use crate::runtime_schema::{
    identifier_index, identifier_list, is_word_char, renamed, rendered, rendered_from, word_end,
};

verus! {

/// Whether a text is one word.
pub open spec fn is_word(text: Seq<char>) -> bool {
    text.len() > 0 && forall|i: int| 0 <= i < text.len() ==> is_word_char(#[trigger] text[i])
}

/// The position that a word is found at is its own.
proof fn lemma_index(word: Seq<char>, i: int)
    requires
        0 <= i,
    ensures
        match identifier_index(word, i) {
            Some(k) => i <= k < identifier_list().len() && identifier_list()[k] == word,
            None => forall|k: int|
                i <= k < identifier_list().len() ==> #[trigger] identifier_list()[k] != word,
        },
    decreases identifier_list().len() - i,
{
    if i < identifier_list().len() && identifier_list()[i] != word {
        lemma_index(word, i + 1);
    }
}

/// The end of a word is behind its last character and before the next.
proof fn lemma_end(text: Seq<char>, i: int)
    requires
        0 <= i <= text.len(),
    ensures
        i <= word_end(text, i) <= text.len(),
        forall|k: int| i <= k < word_end(text, i) ==> is_word_char(#[trigger] text[k]),
        word_end(text, i) < text.len() ==> !is_word_char(text[word_end(text, i)]),
    decreases text.len() - i,
{
    if i < text.len() && is_word_char(text[i]) {
        lemma_end(text, i + 1);
    }
}

/// Law: a text stays as it is where every identifier keeps its own name.
pub proof fn law_own_names_change_nothing(text: Seq<char>)
    ensures
        rendered(text, identifier_list()) == text,
{
    lemma_own_names(text, 0);
    assert(text.subrange(0, text.len() as int) =~= text);
}

proof fn lemma_own_names(text: Seq<char>, i: int)
    requires
        0 <= i <= text.len(),
    ensures
        rendered_from(text, identifier_list(), i) == text.subrange(i, text.len() as int),
    decreases text.len() - i,
{
    if i < text.len() {
        if is_word_char(text[i]) {
            let end = word_end(text, i + 1);
            lemma_end(text, i + 1);
            lemma_own_names(text, end);
            let word = text.subrange(i, end);
            lemma_index(word, 0);
            assert(word + text.subrange(end, text.len() as int) =~= text.subrange(
                i,
                text.len() as int,
            ));
        } else {
            lemma_own_names(text, i + 1);
            assert(seq![text[i]] + text.subrange(i + 1, text.len() as int) =~= text.subrange(
                i,
                text.len() as int,
            ));
        }
    }
    assert(rendered_from(text, identifier_list(), i) =~= text.subrange(i, text.len() as int));
}

/// Law: a word becomes the name of the identifier that it is, and stays if it is none.
pub proof fn law_word_becomes_its_name(word: Seq<char>, names: Seq<Seq<char>>)
    requires
        is_word(word),
    ensures
        rendered(word, names) == word || exists|k: int|
            0 <= k < identifier_list().len() && #[trigger] identifier_list()[k] == word && rendered(
                word,
                names,
            ) == names[k],
        (forall|k: int| 0 <= k < identifier_list().len() ==> #[trigger] identifier_list()[k] != word)
            ==> rendered(word, names) == word,
        (forall|k: int|
            0 <= k < identifier_list().len() && #[trigger] identifier_list()[k] == word ==> names[k]
                != word) && identifier_list().contains(word) ==> rendered(word, names) != word,
{
    lemma_end(word, 1);
    let end = word_end(word, 1);
    assert(end == word.len());
    assert(word.subrange(0, end) =~= word);
    lemma_index(word, 0);
    assert(rendered_from(word, names, end) =~= Seq::<char>::empty());
    assert(rendered(word, names) =~= renamed(word, names));
    if identifier_list().contains(word) {
        let k = choose|k: int| 0 <= k < identifier_list().len() && identifier_list()[k] == word;
        assert(identifier_list()[k] == word);
    }
}

/// A text from a position on is rendered alike wherever it stands.
proof fn lemma_shifted(a: Seq<char>, b: Seq<char>, names: Seq<Seq<char>>, i: int)
    requires
        0 <= i <= b.len(),
    ensures
        rendered_from(a + b, names, a.len() + i) == rendered_from(b, names, i),
    decreases b.len() - i,
{
    let whole = a + b;
    if i < b.len() {
        if is_word_char(b[i]) {
            lemma_end(b, i + 1);
            lemma_shifted_end(a, b, i + 1);
            let end = word_end(b, i + 1);
            lemma_shifted(a, b, names, end);
            assert(whole.subrange(a.len() + i, a.len() + end) =~= b.subrange(i, end));
        } else {
            lemma_shifted(a, b, names, i + 1);
        }
    }
}

proof fn lemma_shifted_end(a: Seq<char>, b: Seq<char>, i: int)
    requires
        0 <= i <= b.len(),
    ensures
        word_end(a + b, a.len() + i) == a.len() + word_end(b, i),
    decreases b.len() - i,
{
    if i < b.len() && is_word_char(b[i]) {
        lemma_shifted_end(a, b, i + 1);
    }
}

/// What stands before a character of no word ends there.
proof fn lemma_end_before(a: Seq<char>, b: Seq<char>, i: int)
    requires
        0 <= i <= a.len(),
        b.len() == 0 || !is_word_char(b[0]),
    ensures
        word_end(a + b, i) == word_end(a, i),
    decreases a.len() - i,
{
    if i < a.len() && is_word_char(a[i]) {
        lemma_end_before(a, b, i + 1);
    }
}

proof fn lemma_parted(a: Seq<char>, b: Seq<char>, names: Seq<Seq<char>>, i: int)
    requires
        0 <= i <= a.len(),
        b.len() == 0 || !is_word_char(b[0]),
    ensures
        rendered_from(a + b, names, i) == rendered_from(a, names, i) + rendered(b, names),
    decreases a.len() - i,
{
    let whole = a + b;
    if i < a.len() {
        if is_word_char(a[i]) {
            lemma_end(a, i + 1);
            lemma_end_before(a, b, i + 1);
            let end = word_end(a, i + 1);
            lemma_parted(a, b, names, end);
            assert(whole.subrange(i, end) =~= a.subrange(i, end));
            let word = renamed(a.subrange(i, end), names);
            assert(word + (rendered_from(a, names, end) + rendered(b, names)) =~= (word
                + rendered_from(a, names, end)) + rendered(b, names));
        } else {
            lemma_parted(a, b, names, i + 1);
            let c = seq![a[i]];
            assert(c + (rendered_from(a, names, i + 1) + rendered(b, names)) =~= (c
                + rendered_from(a, names, i + 1)) + rendered(b, names));
        }
    } else {
        lemma_shifted(a, b, names, 0);
        assert(rendered_from(a, names, i) =~= Seq::<char>::empty());
        assert(rendered_from(a, names, i) + rendered(b, names) =~= rendered(b, names));
    }
}

/// Law: a character of no word stays, and what stands before it and behind it is rendered
/// for itself.
pub proof fn law_rendering_goes_word_by_word(
    a: Seq<char>,
    c: char,
    b: Seq<char>,
    names: Seq<Seq<char>>,
)
    requires
        !is_word_char(c),
    ensures
        rendered(a.push(c) + b, names) == rendered(a, names).push(c) + rendered(b, names),
{
    let tail = seq![c] + b;
    assert(a.push(c) + b =~= a + tail);
    lemma_parted(a, tail, names, 0);
    lemma_shifted(seq![c], b, names, 0);
    assert(rendered(tail, names) =~= seq![c] + rendered(b, names));
    assert(rendered(a, names).push(c) + rendered(b, names) =~= rendered(a, names) + (seq![c]
        + rendered(b, names)));
}

} // verus!
