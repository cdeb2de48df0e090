//! Whether the commentator goes round in circles, and what may lead it out.

use std::collections::VecDeque;
use vstd::prelude::*;

use crate::chars::CharClass;
use crate::digest::{byte_len, text_bytes};
use crate::realtime_experience::last_of;
use crate::text::{is_member, pieces, same, split, split_words, texts, words};
use crate::voice_memory::said_views;
use crate::voice_text::{normalized_signature, signature};

verus! {

/// The turns that are looked at.
pub const COMMENTATOR_REPETITION_RECENT_TURNS: usize = 4;

/// The sentences that it takes to speak of repetition.
pub const COMMENTATOR_REPETITION_MIN_SENTENCES: usize = 6;

/// The words that a sentence has to have.
pub const COMMENTATOR_REPETITION_MIN_SENTENCE_WORDS: usize = 4;

/// The signatures of those of some sentences that have at least four words.
pub open spec fn long_signatures(sentences: Seq<Seq<char>>) -> Seq<Seq<char>>
    decreases sentences.len(),
{
    if sentences.len() == 0 {
        Seq::empty()
    } else {
        let rest = long_signatures(sentences.drop_last());
        if words(signature(sentences.last())).len() >= 4 {
            rest.push(signature(sentences.last()))
        } else {
            rest
        }
    }
}

/// The signatures of the sentences of a text that have at least four words.
pub open spec fn sentence_signatures(text: Seq<char>) -> Seq<Seq<char>> {
    long_signatures(pieces(text, CharClass::SentenceBreak))
}

/// The signatures of the sentences of a text that have at least four words.
pub fn commentator_sentence_signatures(text: &str) -> (list: Vec<String>)
    ensures
        texts(list@) == sentence_signatures(text@),
{
    let sentences = split(text, CharClass::SentenceBreak);
    let ghost all = texts(sentences@);
    let mut list: Vec<String> = Vec::new();
    let mut i: usize = 0;
    assert(all.take(0) =~= Seq::<Seq<char>>::empty());
    assert(texts(list@) =~= Seq::<Seq<char>>::empty());
    while i < sentences.len()
        invariant
            i <= sentences@.len(),
            all == texts(sentences@),
            texts(list@) == long_signatures(all.take(i as int)),
        decreases sentences@.len() - i,
    {
        proof {
            assert(all.take(i + 1).drop_last() =~= all.take(i as int));
        }
        let found = normalized_signature(sentences[i].as_str());
        let ghost before = texts(list@);
        if split_words(found.as_str()).len() >= COMMENTATOR_REPETITION_MIN_SENTENCE_WORDS {
            list.push(found);
            assert(texts(list@) =~= before.push(found@));
        }
        i += 1;
    }
    assert(all.take(i as int) =~= all);
    list
}

/// How often something is in a list.
pub open spec fn times(list: Seq<Seq<char>>, s: Seq<char>) -> nat
    decreases list.len(),
{
    if list.len() == 0 {
        0
    } else {
        times(list.drop_last(), s) + (if list.last() == s {
            1nat
        } else {
            0nat
        })
    }
}

/// How many of a list came before in it.
pub open spec fn repeats(list: Seq<Seq<char>>) -> nat
    decreases list.len(),
{
    if list.len() == 0 {
        0
    } else {
        repeats(list.drop_last()) + (if list.drop_last().contains(list.last()) {
            1nat
        } else {
            0nat
        })
    }
}

/// Whether something is in a list three times.
pub open spec fn some_thrice(list: Seq<Seq<char>>) -> bool {
    exists|i: int| 0 <= i < list.len() && times(list, #[trigger] list[i]) >= 3
}

fn count_times(list: &Vec<String>, s: &str) -> (n: usize)
    ensures
        n == times(texts(list@), s@),
{
    let ghost all = texts(list@);
    let mut n: usize = 0;
    let mut i: usize = 0;
    assert(all.take(0) =~= Seq::<Seq<char>>::empty());
    while i < list.len()
        invariant
            i <= list@.len(),
            all == texts(list@),
            n <= i,
            n == times(all.take(i as int), s@),
        decreases list@.len() - i,
    {
        proof {
            assert(all.take(i + 1).drop_last() =~= all.take(i as int));
        }
        if same(list[i].as_str(), s) {
            n += 1;
        }
        i += 1;
    }
    assert(all.take(i as int) =~= all);
    n
}

fn any_thrice(list: &Vec<String>) -> (r: bool)
    ensures
        r == some_thrice(texts(list@)),
{
    let mut i: usize = 0;
    while i < list.len()
        invariant
            i <= list@.len(),
            forall|k: int| 0 <= k < i ==> times(texts(list@), #[trigger] texts(list@)[k]) < 3,
        decreases list@.len() - i,
    {
        if count_times(list, list[i].as_str()) >= 3 {
            assert(times(texts(list@), texts(list@)[i as int]) >= 3);
            return true;
        }
        i += 1;
    }
    false
}

fn count_repeats(list: &Vec<String>) -> (n: usize)
    ensures
        n == repeats(texts(list@)),
{
    let ghost all = texts(list@);
    let mut seen: Vec<String> = Vec::new();
    let mut n: usize = 0;
    let mut i: usize = 0;
    assert(all.take(0) =~= Seq::<Seq<char>>::empty());
    assert(texts(seen@) =~= Seq::<Seq<char>>::empty());
    while i < list.len()
        invariant
            i <= list@.len(),
            all == texts(list@),
            texts(seen@) == all.take(i as int),
            n <= i,
            n == repeats(all.take(i as int)),
        decreases list@.len() - i,
    {
        proof {
            assert(all.take(i + 1).drop_last() =~= all.take(i as int));
        }
        if is_member(&seen, list[i].as_str()) {
            n += 1;
        }
        seen.push(list[i].clone());
        assert(texts(seen@) =~= all.take(i + 1));
        i += 1;
    }
    assert(all.take(i as int) =~= all);
    n
}

/// Whether a turn of at least six sentences says one thing three times, or
/// repeats itself three times over.
pub open spec fn repeats_itself(turn: Seq<char>) -> bool {
    let said = sentence_signatures(turn);
    said.len() >= 6 && (some_thrice(said) || repeats(said) >= 3)
}

/// Tells whether a turn repeats itself.
pub fn commentator_turn_repeats_itself(turn: &str) -> (r: bool)
    ensures
        r == repeats_itself(turn@),
{
    let said = commentator_sentence_signatures(turn);
    if said.len() < COMMENTATOR_REPETITION_MIN_SENTENCES {
        return false;
    }
    any_thrice(&said) || count_repeats(&said) >= 3
}

/// Whether a word says too little to compare turns by.
pub open spec fn is_filler(word: Seq<char>) -> bool {
    ||| word == "about"@
    ||| word == "after"@
    ||| word == "again"@
    ||| word == "around"@
    ||| word == "because"@
    ||| word == "before"@
    ||| word == "being"@
    ||| word == "commentator"@
    ||| word == "could"@
    ||| word == "does"@
    ||| word == "everything"@
    ||| word == "from"@
    ||| word == "have"@
    ||| word == "here"@
    ||| word == "into"@
    ||| word == "just"@
    ||| word == "like"@
    ||| word == "more"@
    ||| word == "myself"@
    ||| word == "near"@
    ||| word == "only"@
    ||| word == "right"@
    ||| word == "seems"@
    ||| word == "some"@
    ||| word == "that"@
    ||| word == "their"@
    ||| word == "there"@
    ||| word == "these"@
    ||| word == "thing"@
    ||| word == "this"@
    ||| word == "through"@
    ||| word == "what"@
    ||| word == "when"@
    ||| word == "where"@
    ||| word == "while"@
    ||| word == "with"@
    ||| word == "within"@
    ||| word == "world"@
    ||| word == "would"@
    ||| word == "your"@
}

/// Tells whether a word says too little to compare turns by.
pub fn is_commentator_similarity_stop_word(word: &str) -> (r: bool)
    ensures
        r == is_filler(word@),
{
    same(word, "about") || same(word, "after") || same(word, "again") || same(word, "around")
        || same(word, "because") || same(word, "before") || same(word, "being")
        || same(word, "commentator") || same(word, "could") || same(word, "does")
        || same(word, "everything") || same(word, "from") || same(word, "have")
        || same(word, "here") || same(word, "into") || same(word, "just") || same(word, "like")
        || same(word, "more") || same(word, "myself") || same(word, "near") || same(word, "only")
        || same(word, "right") || same(word, "seems") || same(word, "some") || same(word, "that")
        || same(word, "their") || same(word, "there") || same(word, "these") || same(word, "thing")
        || same(word, "this") || same(word, "through") || same(word, "what") || same(word, "when")
        || same(word, "where") || same(word, "while") || same(word, "with") || same(word, "within")
        || same(word, "world") || same(word, "would") || same(word, "your")
}

/// Those of some words that say something, each once.
pub open spec fn telling(list: Seq<Seq<char>>) -> Seq<Seq<char>>
    decreases list.len(),
{
    if list.len() == 0 {
        Seq::empty()
    } else {
        let rest = telling(list.drop_last());
        let word = list.last();
        if text_bytes(word) > 2 && !is_filler(word) && !rest.contains(word) {
            rest.push(word)
        } else {
            rest
        }
    }
}

/// The words of a text by which turns are compared.
pub open spec fn content_words(text: Seq<char>) -> Seq<Seq<char>> {
    telling(words(signature(text)))
}

/// The words of a text by which turns are compared.
pub fn commentator_content_words(text: &str) -> (list: Vec<String>)
    ensures
        texts(list@) == content_words(text@),
{
    let found = split_words(normalized_signature(text).as_str());
    let ghost all = texts(found@);
    let mut list: Vec<String> = Vec::new();
    let mut i: usize = 0;
    assert(all.take(0) =~= Seq::<Seq<char>>::empty());
    assert(texts(list@) =~= Seq::<Seq<char>>::empty());
    while i < found.len()
        invariant
            i <= found@.len(),
            all == texts(found@),
            texts(list@) == telling(all.take(i as int)),
        decreases found@.len() - i,
    {
        proof {
            assert(all.take(i + 1).drop_last() =~= all.take(i as int));
        }
        let word = found[i].as_str();
        let ghost before = texts(list@);
        if byte_len(word) > 2 && !is_commentator_similarity_stop_word(word) && !is_member(&list, word) {
            list.push(found[i].clone());
            assert(texts(list@) =~= before.push(found@[i as int]@));
        }
        i += 1;
    }
    assert(all.take(i as int) =~= all);
    list
}

/// How many of a list are in another.
pub open spec fn shared(left: Seq<Seq<char>>, right: Seq<Seq<char>>) -> nat
    decreases left.len(),
{
    if left.len() == 0 {
        0
    } else {
        shared(left.drop_last(), right) + (if right.contains(left.last()) {
            1nat
        } else {
            0nat
        })
    }
}

/// How many words two lists without repetition share, and how many they hold
/// together.
pub fn jaccard_similarity(left: &Vec<String>, right: &Vec<String>) -> (r: (usize, u128))
    ensures
        r.0 == shared(texts(left@), texts(right@)),
        r.1 == left@.len() + right@.len() - shared(texts(left@), texts(right@)),
{
    let ghost all = texts(left@);
    let mut n: usize = 0;
    let mut i: usize = 0;
    assert(all.take(0) =~= Seq::<Seq<char>>::empty());
    while i < left.len()
        invariant
            i <= left@.len(),
            all == texts(left@),
            n <= i,
            n == shared(all.take(i as int), texts(right@)),
        decreases left@.len() - i,
    {
        proof {
            assert(all.take(i + 1).drop_last() =~= all.take(i as int));
        }
        if is_member(right, left[i].as_str()) {
            n += 1;
        }
        i += 1;
    }
    assert(all.take(i as int) =~= all);
    let together: u128 = left.len() as u128 + right.len() as u128 - n as u128;
    (n, together)
}

/// Whether a turn is like another: at least five telling words, and at least
/// half of what the two hold together is in both.
pub open spec fn is_like(latest: Seq<Seq<char>>, turn: Seq<char>) -> bool {
    let said = content_words(turn);
    said.len() >= 5 && 2 * shared(latest, said) >= latest.len() + said.len() - shared(latest, said)
}

/// How many of some turns are like another.
pub open spec fn likes(latest: Seq<Seq<char>>, turns: Seq<Seq<char>>) -> nat
    decreases turns.len(),
{
    if turns.len() == 0 {
        0
    } else {
        likes(latest, turns.drop_last()) + (if is_like(latest, turns.last()) {
            1nat
        } else {
            0nat
        })
    }
}

/// The sentences of some turns.
pub open spec fn all_signatures(turns: Seq<Seq<char>>) -> Seq<Seq<char>>
    decreases turns.len(),
{
    if turns.len() == 0 {
        Seq::empty()
    } else {
        all_signatures(turns.drop_last()) + sentence_signatures(turns.last())
    }
}

/// Whether the last four turns go round in circles: the latest repeats itself,
/// or sentences come back from turn to turn, or two of the turns before the
/// latest are like it.
pub open spec fn repetitive(turns: Seq<Seq<char>>) -> bool {
    let recent = last_of(turns, 4);
    let said = all_signatures(recent);
    let latest = content_words(recent.last());
    recent.len() > 0 && {
        ||| repeats_itself(recent.last())
        ||| said.len() >= 6 && (repeats(said) >= 2 || some_thrice(said))
        ||| recent.len() >= 3 && latest.len() >= 5 && likes(latest, recent.drop_last()) >= 2
    }
}

/// Tells whether the last four turns go round in circles.
pub fn commentator_repetition_detected(recent_voice_turns: &VecDeque<String>) -> (r: bool)
    ensures
        r == repetitive(said_views(recent_voice_turns@)),
{
    let ghost turns = said_views(recent_voice_turns@);
    let ghost recent = last_of(turns, 4);
    let len: usize = recent_voice_turns.len();
    if len == 0 {
        return false;
    }
    let start: usize = if len <= COMMENTATOR_REPETITION_RECENT_TURNS {
        0
    } else {
        len - COMMENTATOR_REPETITION_RECENT_TURNS
    };
    let latest_turn = recent_voice_turns[len - 1].as_str();
    assert(recent.last() == latest_turn@);
    if commentator_turn_repeats_itself(latest_turn) {
        return true;
    }
    let mut said: Vec<String> = Vec::new();
    let mut i: usize = start;
    assert(recent.take(0) =~= Seq::<Seq<char>>::empty());
    assert(texts(said@) =~= Seq::<Seq<char>>::empty());
    while i < len
        invariant
            start <= i <= len,
            len == recent_voice_turns@.len(),
            turns == said_views(recent_voice_turns@),
            recent == last_of(turns, 4),
            start == (if len <= 4 {
                0
            } else {
                len - 4
            }),
            texts(said@) == all_signatures(recent.take(i - start)),
        decreases len - i,
    {
        proof {
            assert(recent.take(i - start + 1).drop_last() =~= recent.take(i - start));
            assert(recent.take(i - start + 1).last() == turns[i as int]);
        }
        let mut more = commentator_sentence_signatures(recent_voice_turns[i].as_str());
        let ghost before = texts(said@);
        let ghost added = texts(more@);
        said.append(&mut more);
        assert(texts(said@) =~= before + added);
        i += 1;
    }
    assert(recent.take(i - start) =~= recent);
    if said.len() >= COMMENTATOR_REPETITION_MIN_SENTENCES {
        if count_repeats(&said) >= 2 || any_thrice(&said) {
            return true;
        }
    }
    if len < 3 {
        return false;
    }
    let latest = commentator_content_words(latest_turn);
    if latest.len() < 5 {
        return false;
    }
    let mut similar: usize = 0;
    let mut j: usize = start;
    while j < len - 1
        invariant
            start <= j <= len - 1,
            3 <= len == recent_voice_turns@.len(),
            turns == said_views(recent_voice_turns@),
            recent == last_of(turns, 4),
            start == (if len <= 4 {
                0
            } else {
                len - 4
            }),
            similar <= j - start,
            similar == likes(texts(latest@), recent.take(j - start)),
        decreases len - j,
    {
        proof {
            assert(recent.take(j - start + 1).drop_last() =~= recent.take(j - start));
            assert(recent.take(j - start + 1).last() == turns[j as int]);
        }
        let found = commentator_content_words(recent_voice_turns[j].as_str());
        if found.len() >= 5 {
            let (both, together) = jaccard_similarity(&latest, &found);
            if 2 * (both as u128) >= together {
                similar += 1;
            }
        }
        j += 1;
    }
    assert(recent.take(j - start) =~= recent.drop_last());
    similar >= 2
}

/// `random_word::get` hands out an English word; nothing is said of which.
#[verifier::external_body]
fn random_english_word() -> (word: String) {
    random_word::get(random_word::Lang::En).to_string()
}

/// Words to daydream of with one more, unless it is there or there are three.
pub open spec fn with_daydream_word(list: Seq<Seq<char>>, word: Seq<char>) -> Seq<Seq<char>> {
    if list.len() >= 3 || list.contains(word) {
        list
    } else {
        list.push(word)
    }
}

/// Adds a word to daydream of, unless it is there or there are three.
pub fn add_daydream_word(words: &mut Vec<String>, word: String)
    ensures
        texts(final(words)@) == with_daydream_word(texts(old(words)@), word@),
{
    if words.len() >= 3 || is_member(words, word.as_str()) {
        return;
    }
    words.push(word);
    assert(texts(words@) =~= texts(old(words)@).push(word@));
}

/// Draws a word to daydream of.
pub fn draw_daydream_word(words: &mut Vec<String>)
    ensures
        exists|word: Seq<char>| texts(final(words)@) == #[trigger] with_daydream_word(
            texts(old(words)@),
            word,
        ),
{
    let word = random_english_word();
    add_daydream_word(words, word);
}

/// The words drawn to daydream of are at most three, none twice.
pub proof fn law_daydream_words_are_distinct(list: Seq<Seq<char>>, word: Seq<char>)
    requires
        list.len() <= 3,
        list.no_duplicates(),
    ensures
        with_daydream_word(list, word).len() <= 3,
        with_daydream_word(list, word).no_duplicates(),
{
}

/// Turns of fewer than six long sentences in all, of which fewer than three are
/// there, are no circle.
pub proof fn law_few_short_turns_are_no_circle(turns: Seq<Seq<char>>)
    requires
        turns.len() < 3,
        all_signatures(turns).len() < 6,
    ensures
        !repetitive(turns),
{
    assert(last_of(turns, 4) == turns);
    if turns.len() > 0 {
        let said = sentence_signatures(turns.last());
        assert(all_signatures(turns) == all_signatures(turns.drop_last()) + said);
        assert(said.len() <= all_signatures(turns).len());
    }
}

/// Only the last four turns say whether there is a circle.
pub proof fn law_only_the_last_four_turns_count(old: Seq<Seq<char>>, recent: Seq<Seq<char>>)
    requires
        recent.len() == 4,
    ensures
        repetitive(old + recent) == repetitive(recent),
{
    assert(last_of(old + recent, 4) =~= recent);
    assert(last_of(recent, 4) =~= recent);
}

/// Something that stands at three places of a list is in it three times.
proof fn lemma_three_times(list: Seq<Seq<char>>, i: int, j: int, k: int)
    requires
        0 <= i < j < k < list.len(),
        list[i] == list[j],
        list[j] == list[k],
    ensures
        times(list, list[i]) >= 3,
    decreases list.len(),
{
    let front = list.drop_last();
    if k < list.len() - 1 {
        lemma_three_times(front, i, j, k);
    } else {
        lemma_twice(front, i, j);
        assert(list.last() == list[k]);
    }
}

/// Something that stands at two places of a list is in it twice.
proof fn lemma_twice(list: Seq<Seq<char>>, i: int, j: int)
    requires
        0 <= i < j < list.len(),
        list[i] == list[j],
    ensures
        times(list, list[i]) >= 2,
    decreases list.len(),
{
    let front = list.drop_last();
    if j < list.len() - 1 {
        lemma_twice(front, i, j);
    } else {
        lemma_once(front, i);
        assert(list.last() == list[j]);
    }
}

/// Something that stands in a list is in it once.
proof fn lemma_once(list: Seq<Seq<char>>, i: int)
    requires
        0 <= i < list.len(),
    ensures
        times(list, list[i]) >= 1,
    decreases list.len(),
{
    if i < list.len() - 1 {
        lemma_once(list.drop_last(), i);
        assert(list.drop_last()[i] == list[i]);
    } else {
        assert(list.last() == list[i]);
    }
}

/// Where six long sentences were said in at most four turns and three of them are
/// the same, the turns go round in circles.
pub proof fn law_sentence_said_thrice_is_a_circle(turns: Seq<Seq<char>>, i: int, j: int, k: int)
    requires
        0 < turns.len() <= 4,
        all_signatures(turns).len() >= 6,
        0 <= i < j < k < all_signatures(turns).len(),
        all_signatures(turns)[i] == all_signatures(turns)[j],
        all_signatures(turns)[j] == all_signatures(turns)[k],
    ensures
        repetitive(turns),
{
    assert(last_of(turns, 4) =~= turns);
    let said = all_signatures(turns);
    lemma_three_times(said, i, j, k);
    assert(times(said, said[i]) >= 3);
}

/// What is different in a list is there once, and nothing came before.
proof fn lemma_different(list: Seq<Seq<char>>)
    requires
        list.no_duplicates(),
    ensures
        repeats(list) == 0,
        forall|s: Seq<char>| #[trigger] times(list, s) <= 1,
        forall|s: Seq<char>| !list.contains(s) ==> #[trigger] times(list, s) == 0,
    decreases list.len(),
{
    if list.len() > 0 {
        let front = list.drop_last();
        lemma_different(front);
        assert(!front.contains(list.last())) by {
            if front.contains(list.last()) {
                let i = choose|i: int| 0 <= i < front.len() && front[i] == list.last();
                assert(list[i] == list[list.len() - 1]);
            }
        }
        assert forall|s: Seq<char>| #[trigger] times(list, s) <= 1 by {
            assert(times(front, s) <= 1);
            if list.last() == s {
                assert(times(front, s) == 0);
            }
        }
        assert forall|s: Seq<char>| !list.contains(s) implies #[trigger] times(list, s) == 0 by {
            assert(list[list.len() - 1] == list.last());
            assert(!front.contains(s)) by {
                if front.contains(s) {
                    let i = choose|i: int| 0 <= i < front.len() && front[i] == s;
                    assert(list[i] == s);
                }
            }
            assert(times(front, s) == 0);
        }
    }
}

/// Two turns in which no long sentence comes back are no circle, however much is
/// said.
pub proof fn law_new_sentences_are_no_circle(turns: Seq<Seq<char>>)
    requires
        turns.len() < 3,
        all_signatures(turns).no_duplicates(),
    ensures
        !repetitive(turns),
{
    assert(last_of(turns, 4) =~= turns);
    let said = all_signatures(turns);
    lemma_different(said);
    assert forall|i: int| 0 <= i < said.len() implies times(said, #[trigger] said[i]) < 3 by {
        assert(times(said, said[i]) <= 1);
    }
    if turns.len() > 0 {
        let before = all_signatures(turns.drop_last());
        let last = sentence_signatures(turns.last());
        assert(said == before + last);
        assert forall|i: int, j: int| 0 <= i < j < last.len() implies last[i] != last[j] by {
            assert(said[before.len() + i] == last[i] && said[before.len() + j] == last[j]);
        }
        assert(last.no_duplicates());
        lemma_different(last);
        assert forall|i: int| 0 <= i < last.len() implies times(last, #[trigger] last[i]) < 3 by {
            assert(times(last, last[i]) <= 1);
        }
    }
}

/// A list shares everything with one that holds it all.
proof fn lemma_shares_all(list: Seq<Seq<char>>, other: Seq<Seq<char>>)
    requires
        forall|i: int| 0 <= i < list.len() ==> other.contains(#[trigger] list[i]),
    ensures
        shared(list, other) == list.len(),
    decreases list.len(),
{
    if list.len() > 0 {
        let front = list.drop_last();
        assert forall|i: int| 0 <= i < front.len() implies other.contains(#[trigger] front[i]) by {
            assert(front[i] == list[i]);
        }
        lemma_shares_all(front, other);
        assert(list[list.len() - 1] == list.last());
    }
}

/// A turn of at least five telling words that comes a third time in a row closes a
/// circle.
pub proof fn law_same_turn_thrice_is_a_circle(before: Seq<Seq<char>>, turn: Seq<char>)
    requires
        content_words(turn).len() >= 5,
    ensures
        repetitive(before + seq![turn, turn, turn]),
{
    let turns = before + seq![turn, turn, turn];
    let recent = last_of(turns, 4);
    let latest = content_words(turn);
    let n = recent.len() as int;
    assert(n >= 3);
    assert(recent[n - 1] == turn && recent[n - 2] == turn && recent[n - 3] == turn);
    assert forall|i: int| 0 <= i < latest.len() implies latest.contains(#[trigger] latest[i]) by {}
    lemma_shares_all(latest, latest);
    assert(is_like(latest, turn));
    let front = recent.drop_last();
    assert(front.last() == turn);
    assert(front.drop_last().last() == turn);
    assert(likes(latest, front.drop_last()) >= 1);
    assert(likes(latest, front) >= 2);
}

/// A word tells something where it is longer than two bytes and no filler; each
/// such word of a list is kept, once, and no other.
pub proof fn law_telling_words_are_kept_once(list: Seq<Seq<char>>)
    ensures
        telling(list).no_duplicates(),
        forall|w: Seq<char>| #[trigger]
            telling(list).contains(w) <==> list.contains(w) && text_bytes(w) > 2 && !is_filler(w),
    decreases list.len(),
{
    if list.len() > 0 {
        let front = list.drop_last();
        let word = list.last();
        let rest = telling(front);
        law_telling_words_are_kept_once(front);
        assert(list[list.len() - 1] == word);
        assert forall|w: Seq<char>| list.contains(w) <==> #[trigger] front.contains(w) || w == word by {
            if front.contains(w) {
                let i = choose|i: int| 0 <= i < front.len() && front[i] == w;
                assert(list[i] == w);
            }
            if list.contains(w) && w != word {
                let i = choose|i: int| 0 <= i < list.len() && list[i] == w;
                assert(front[i] == w);
            }
        }
        assert forall|w: Seq<char>| #[trigger]
            telling(list).contains(w) <==> list.contains(w) && text_bytes(w) > 2 && !is_filler(w) by {
            assert(rest.contains(w) <==> front.contains(w) && text_bytes(w) > 2 && !is_filler(w));
            assert(rest.push(word).contains(w) <==> rest.contains(w) || w == word) by {
                assert(rest.push(word)[rest.len() as int] == word);
                if rest.contains(w) {
                    let i = choose|i: int| 0 <= i < rest.len() && rest[i] == w;
                    assert(rest.push(word)[i] == w);
                }
            }
        }
    }
}

/// A word to daydream of is taken where it is new and there are not three yet, and
/// else leaves the words as they are.
pub proof fn law_new_daydream_word_is_taken(list: Seq<Seq<char>>, word: Seq<char>)
    ensures
        list.len() < 3 && !list.contains(word) ==> with_daydream_word(list, word) == list + seq![word],
        list.len() >= 3 || list.contains(word) ==> with_daydream_word(list, word) == list,
{
    assert(list.push(word) =~= list + seq![word]);
}

} // verus!
