//! Splitting a text into its blank-separated tokens.

use vstd::prelude::*;

verus! {

/// Whether `c` separates tokens: a space or a line feed.
pub open spec fn is_blank(c: char) -> bool {
    c == ' ' || c == '\n'
}

/// The tokens of `text` in their order, a token being a longest run of
/// characters that are not blank.
pub open spec fn tokens(text: Seq<char>) -> Seq<Seq<char>>
    decreases text.len(),
{
    if text.len() == 0 {
        Seq::empty()
    } else {
        let before = tokens(text.drop_last());
        if is_blank(text.last()) {
            before
        } else if text.len() == 1 || is_blank(text[text.len() - 2]) {
            before.push(seq![text.last()])
        } else {
            before.drop_last().push(before.last().push(text.last()))
        }
    }
}

/// Whether `text` is empty or ends in a blank, so that whatever follows it
/// starts afresh.
pub open spec fn is_closed(text: Seq<char>) -> bool {
    text.len() == 0 || is_blank(text.last())
}

/// Whether `word` is a single unbroken token: not empty, and without a blank.
pub open spec fn is_word(word: Seq<char>) -> bool {
    &&& word.len() >= 1
    &&& forall|i: int| 0 <= i < word.len() ==> !is_blank(#[trigger] word[i])
}

/// A text that does not end in a blank has a last token.
pub proof fn lemma_open_text_has_token(text: Seq<char>)
    requires
        !is_closed(text),
    ensures
        tokens(text).len() >= 1,
    decreases text.len(),
{
    if text.len() >= 2 && !is_blank(text[text.len() - 2]) {
        lemma_open_text_has_token(text.drop_last());
    }
}

/// After a text that is empty or ends in a blank, a second text splits as it
/// does alone.
pub proof fn lemma_tokens_concat(head: Seq<char>, tail: Seq<char>)
    requires
        is_closed(head),
    ensures
        tokens(head + tail) == tokens(head) + tokens(tail),
        tail.len() > 0 ==> is_closed(head + tail) == is_closed(tail),
    decreases tail.len(),
{
    let whole = head + tail;
    if tail.len() == 0 {
        assert(whole =~= head);
        assert(tokens(head) + tokens(tail) =~= tokens(head));
    } else {
        let short = tail.drop_last();
        lemma_tokens_concat(head, short);
        assert(whole.drop_last() =~= head + short);
        assert(whole.last() == tail.last());
        if is_blank(tail.last()) {
        } else if tail.len() == 1 {
            assert(whole.len() == 1 || whole[whole.len() - 2] == head.last());
            assert(tokens(whole) =~= tokens(head) + tokens(tail));
        } else {
            assert(whole[whole.len() - 2] == tail[tail.len() - 2]);
            if is_blank(tail[tail.len() - 2]) {
                assert(tokens(whole) =~= tokens(head) + tokens(tail));
            } else {
                lemma_open_text_has_token(short);
                assert(tokens(whole) =~= tokens(head) + tokens(tail));
            }
        }
    }
}

/// A word is its own single token.
pub proof fn lemma_word_is_one_token(word: Seq<char>)
    requires
        is_word(word),
    ensures
        tokens(word) == seq![word],
    decreases word.len(),
{
    if word.len() == 1 {
        assert(word.drop_last() =~= Seq::<char>::empty());
        assert(tokens(word.drop_last()) =~= Seq::<Seq<char>>::empty());
        assert(tokens(word) =~= seq![seq![word.last()]]);
        assert(seq![word.last()] =~= word);
    } else {
        let front = word.drop_last();
        assert(is_word(front)) by {
            assert forall|i: int| 0 <= i < front.len() implies !is_blank(#[trigger] front[i]) by {
                assert(front[i] == word[i]);
            }
        }
        lemma_word_is_one_token(front);
        assert(!is_blank(word[word.len() - 2]));
        assert(!is_blank(word[word.len() - 1]));
        assert(front.push(word.last()) =~= word);
        assert(tokens(word) =~= seq![word]);
    }
}

/// A word with one blank behind it splits into that word alone, and what
/// follows it starts afresh.
pub proof fn lemma_closed_word(word: Seq<char>, blank: char)
    requires
        is_word(word),
        is_blank(blank),
    ensures
        tokens(word.push(blank)) == seq![word],
        is_closed(word.push(blank)),
{
    lemma_word_is_one_token(word);
    assert(word.push(blank).drop_last() =~= word);
}

} // verus!
