//! Cleaning generated speech: chat markers, thoughts, emoji and sentences.

use vstd::prelude::*;

use crate::chars::{
    alphanumeric, ascii_lower, is_alphanumeric, is_letter_or_digit, is_white_space, to_ascii_lower,
    white_space, CharClass,
};
use crate::text::{
    chars_of, collapse, collapsed, contains, cut, cut_at, earliest, first_of, found, is_spaced, joined,
    lemma_earliest, lemma_first_of, lemma_first_of_unique, lemma_found, lemma_nonempty_members,
    lemma_pieces, lemma_spaced_stays, lemma_trimmed_noop, lemma_words_joined, lowered, nonempty, occurs,
    optional, pieces, replace, replaced, same, skip, split_words, stands_at, starts, starts_with, take,
    texts, trim, trim_end, trim_of, trim_start, trimmed, trimmed_end, trimmed_end_of, trimmed_of,
    trimmed_start, words,
};

verus! {

/// How the instruction of a dialogue turn begins.
pub const DIALOGUE_VOICE_TURN_PROMPT_PREFIX: &'static str =
    "Reply only when the latest user turn needs an answer.";

/// The instruction of a dialogue turn.
pub const DIALOGUE_VOICE_TURN_PROMPT: &'static str =
    "Reply only when the latest user turn needs an answer. Keep it brief and give the other person a chance to speak. If no reply is needed, return an empty message.";

// ---------------------------------------------------------------------------
// Markers.

/// The markers of a chat template.
pub open spec fn chat_markers() -> Seq<Seq<char>> {
    seq![
        "<|im_end|>"@,
        "<|im_start|>assistant"@,
        "<|im_start|>user"@,
        "<end_of_turn>"@,
        "<start_of_turn>model"@,
        "<start_of_turn>user"@,
        "<turn|>"@,
    ]
}

/// The sentences of the dialogue instruction.
pub open spec fn echo_markers() -> Seq<Seq<char>> {
    seq![
        DIALOGUE_VOICE_TURN_PROMPT_PREFIX@,
        "Keep it brief and give the other person a chance to speak."@,
        "If no reply is needed, return an empty message."@,
    ]
}

/// The texts before which a voice generation ends.
pub open spec fn voice_stops() -> Seq<Seq<char>> {
    seq![
        "<|im_end|>"@,
        "<|im_start|>user"@,
        "<end_of_turn>"@,
        "<start_of_turn>user"@,
        "<turn|>"@,
        DIALOGUE_VOICE_TURN_PROMPT_PREFIX@,
    ]
}

/// The texts before which a voice generation ends.
pub fn voice_llm_stop_markers() -> (list: Vec<String>)
    ensures
        texts(list@) == voice_stops(),
{
    let mut list: Vec<String> = Vec::new();
    list.push("<|im_end|>".to_owned());
    list.push("<|im_start|>user".to_owned());
    list.push("<end_of_turn>".to_owned());
    list.push("<start_of_turn>user".to_owned());
    list.push("<turn|>".to_owned());
    list.push(DIALOGUE_VOICE_TURN_PROMPT_PREFIX.to_owned());
    assert(texts(list@) =~= voice_stops());
    list
}

fn chat_template_markers() -> (list: Vec<String>)
    ensures
        texts(list@) == chat_markers(),
{
    let mut list: Vec<String> = Vec::new();
    list.push("<|im_end|>".to_owned());
    list.push("<|im_start|>assistant".to_owned());
    list.push("<|im_start|>user".to_owned());
    list.push("<end_of_turn>".to_owned());
    list.push("<start_of_turn>model".to_owned());
    list.push("<start_of_turn>user".to_owned());
    list.push("<turn|>".to_owned());
    assert(texts(list@) =~= chat_markers());
    list
}

fn prompt_echo_markers() -> (list: Vec<String>)
    ensures
        texts(list@) == echo_markers(),
{
    let mut list: Vec<String> = Vec::new();
    list.push(DIALOGUE_VOICE_TURN_PROMPT_PREFIX.to_owned());
    list.push("Keep it brief and give the other person a chance to speak.".to_owned());
    list.push("If no reply is needed, return an empty message.".to_owned());
    assert(texts(list@) =~= echo_markers());
    list
}

/// A text up to the first marker of a chat template, trimmed.
pub fn truncate_at_chat_template_marker<'a>(text: &'a str) -> (r: &'a str)
    ensures
        r@ == cut_at(text@, chat_markers()),
{
    cut(text, &chat_template_markers())
}

/// A text up to the first sentence of the dialogue instruction, trimmed.
pub fn truncate_at_prompt_echo_marker<'a>(text: &'a str) -> (r: &'a str)
    ensures
        r@ == cut_at(text@, echo_markers()),
{
    cut(text, &prompt_echo_markers())
}

/// A generated text without what follows a chat marker or an echo of the
/// instruction, without speech tags, on one line and unquoted.
pub open spec fn cleaned(text: Seq<char>) -> Seq<char> {
    let none = Seq::<char>::empty();
    let kept = trimmed(cut_at(cut_at(text, chat_markers()), echo_markers()));
    let unsaid = replaced(replaced(kept, "<say>"@, none), "</say>"@, none);
    let thought = replaced(
        replaced(replaced(unsaid, "<thought />"@, "<thought/>"@), "<thought>"@, "<thought/>"@),
        "</thought>"@,
        none,
    );
    trimmed(trimmed_of(collapsed(thought), CharClass::DoubleQuote))
}

/// Cleans a generated text.
pub fn clean_generated_voice_text(text: &str) -> (r: String)
    ensures
        r@ == cleaned(text@),
{
    proof {
        reveal_strlit("");
        assert(""@ =~= Seq::<char>::empty());
    }
    let kept = trim(truncate_at_prompt_echo_marker(truncate_at_chat_template_marker(text)));
    let s = replace(kept, "<say>", "");
    let s = replace(s.as_str(), "</say>", "");
    let s = replace(s.as_str(), "<thought />", "<thought/>");
    let s = replace(s.as_str(), "<thought>", "<thought/>");
    let s = replace(s.as_str(), "</thought>", "");
    let s = collapse(s.as_str());
    trim(trim_of(s.as_str(), CharClass::DoubleQuote)).to_owned()
}

/// What follows a mark that a text is a thought, where it begins with one.
pub open spec fn thought_in(text: Seq<char>) -> Option<Seq<char>> {
    let t = trimmed_start(text);
    if starts(t, "<thought/>"@) {
        Some(trimmed_start(t.skip("<thought/>"@.len() as int)))
    } else if starts(t, "<thought />"@) {
        Some(trimmed_start(t.skip("<thought />"@.len() as int)))
    } else {
        None
    }
}

/// What follows a mark that a text is a thought, where it begins with one.
pub fn strip_leading_thought_marker(text: &str) -> (r: Option<String>)
    ensures
        optional(r) == thought_in(text@),
{
    let t = trim_start(text);
    if starts_with(t, "<thought/>") {
        Some(trim_start(skip(t, "<thought/>".unicode_len())).to_owned())
    } else if starts_with(t, "<thought />") {
        Some(trim_start(skip(t, "<thought />".unicode_len())).to_owned())
    } else {
        None
    }
}

/// What a generated text comes to.
#[derive(Debug, PartialEq, Eq)]
pub enum VoiceReply {
    /// It is said aloud.
    Spoken(String),
    /// It is only thought.
    Thought(String),
}

/// What a [`VoiceReply`] is.
pub ghost enum ReplyView {
    Spoken(Seq<char>),
    Thought(Seq<char>),
}

impl View for VoiceReply {
    type V = ReplyView;

    open spec fn view(&self) -> ReplyView {
        match self {
            VoiceReply::Spoken(text) => ReplyView::Spoken(text@),
            VoiceReply::Thought(text) => ReplyView::Thought(text@),
        }
    }
}

/// What a generated text comes to: nothing where it is empty or a mere claim to
/// perceive someone, a thought where it begins with the mark of one, else
/// speech.
pub open spec fn reply_of(text: Seq<char>) -> Option<ReplyView> {
    let clean = cleaned(text);
    if clean.len() == 0 || occurs(signature(clean), "i perceive you"@) {
        None
    } else {
        match thought_in(clean) {
            Some(thought) => Some(ReplyView::Thought(thought)),
            None => Some(ReplyView::Spoken(clean)),
        }
    }
}

/// What a generated text comes to.
pub fn voice_reply_from_generated(text: &str) -> (r: Option<VoiceReply>)
    ensures
        match reply_of(text@) {
            Some(reply) => r matches Some(given) && given@ == reply,
            None => r is None,
        },
{
    let clean = clean_generated_voice_text(text);
    if clean.as_str().unicode_len() == 0 {
        return None;
    }
    if contains(normalized_signature(clean.as_str()).as_str(), "i perceive you") {
        return None;
    }
    match strip_leading_thought_marker(clean.as_str()) {
        Some(thought) => Some(VoiceReply::Thought(thought)),
        None => Some(VoiceReply::Spoken(clean)),
    }
}

/// Whether a letter or digit stands in a text outside of tags; `inside` tells
/// whether the text begins within one.
pub open spec fn speaks(s: Seq<char>, inside: bool) -> bool
    decreases s.len(),
{
    if s.len() == 0 {
        false
    } else if s[0] == '<' {
        speaks(s.skip(1), true)
    } else if s[0] == '>' {
        speaks(s.skip(1), false)
    } else {
        (!inside && is_alphanumeric(s[0])) || speaks(s.skip(1), inside)
    }
}

/// Tells whether a turn says anything outside of tags before a chat marker.
pub fn voice_turn_has_observation(text: &str) -> (r: bool)
    ensures
        r == speaks(cut_at(text@, chat_markers()), false),
{
    let kept = truncate_at_chat_template_marker(text);
    let chars = chars_of(kept);
    let mut inside = false;
    let mut i: usize = 0;
    assert(kept@.skip(0) =~= kept@);
    while i < chars.len()
        invariant
            i <= chars@.len(),
            chars@ == kept@,
            kept@ == cut_at(text@, chat_markers()),
            speaks(kept@, false) == speaks(kept@.skip(i as int), inside),
        decreases chars@.len() - i,
    {
        let c = chars[i];
        assert(kept@.skip(i as int)[0] == c);
        assert(kept@.skip(i as int).skip(1) =~= kept@.skip(i + 1));
        if c == '<' {
            inside = true;
        } else if c == '>' {
            inside = false;
        } else if !inside && alphanumeric(c) {
            return true;
        }
        i += 1;
    }
    false
}

/// A turn that says something, or silence.
pub fn voice_turn_or_silence(text: String) -> (r: String)
    ensures
        r@ == (if speaks(cut_at(text@, chat_markers()), false) {
            text@
        } else {
            Seq::empty()
        }),
{
    if voice_turn_has_observation(text.as_str()) {
        text
    } else {
        String::new()
    }
}

// ---------------------------------------------------------------------------
// Signatures.

/// A character of a signature: letters and digits without ASCII capitals, a
/// space for anything else.
pub open spec fn signature_char(c: char) -> char {
    if is_letter_or_digit(c) {
        ascii_lower(c)
    } else {
        ' '
    }
}

/// What a text comes to without punctuation, capitals and needless white space.
pub open spec fn signature(text: Seq<char>) -> Seq<char> {
    collapsed(text.map_values(|c: char| signature_char(c)))
}

/// What a text comes to without punctuation, capitals and needless white space.
pub fn normalized_signature(text: &str) -> (r: String)
    ensures
        r@ == signature(text@),
{
    let chars = chars_of(text);
    let ghost all = text@.map_values(|c: char| signature_char(c));
    let mut s = String::new();
    let mut i: usize = 0;
    while i < chars.len()
        invariant
            i <= chars@.len(),
            chars@ == text@,
            all == text@.map_values(|c: char| signature_char(c)),
            s@ == all.take(i as int),
        decreases chars@.len() - i,
    {
        let c = chars[i];
        if alphanumeric(c) {
            s.push(to_ascii_lower(c));
        } else {
            s.push(' ');
        }
        assert(all.take(i + 1) =~= all.take(i as int).push(all[i as int]));
        i += 1;
    }
    assert(all.take(i as int) =~= all);
    collapse(s.as_str())
}

/// The longest stretches of letters and digits in a text.
pub open spec fn alphanumeric_runs(text: Seq<char>) -> Seq<Seq<char>> {
    nonempty(pieces(text, CharClass::NotAlphanumeric))
}

/// Texts without ASCII capitals.
pub open spec fn all_lowered(list: Seq<Seq<char>>) -> Seq<Seq<char>> {
    list.map_values(|text: Seq<char>| lowered(text))
}

/// The signature of a text is its stretches of letters and digits without ASCII
/// capitals, with one space between them.
pub proof fn law_signature_is_made_of_runs(text: Seq<char>)
    ensures
        signature(text) == joined(all_lowered(alphanumeric_runs(text)), seq![' ']),
{
    let t = text.map_values(|c: char| signature_char(c));
    assert forall|i: int| 0 <= i < text.len() implies CharClass::WhiteSpace.holds(
        #[trigger] t[i],
    ) == CharClass::NotAlphanumeric.holds(text[i]) by {
        assert(t[i] == signature_char(text[i]));
    }
    lemma_matching_pieces(text, t);
    lemma_nonempty_lowered(pieces(text, CharClass::NotAlphanumeric));
}

/// Two texts with the same stretches of letters and digits, but for ASCII
/// capitals, have one signature.
pub proof fn law_same_runs_have_one_signature(a: Seq<char>, b: Seq<char>)
    requires
        all_lowered(alphanumeric_runs(a)) == all_lowered(alphanumeric_runs(b)),
    ensures
        signature(a) == signature(b),
{
    law_signature_is_made_of_runs(a);
    law_signature_is_made_of_runs(b);
}

/// A signature is its own signature.
pub proof fn law_signature_is_its_own_signature(text: Seq<char>)
    ensures
        signature(signature(text)) == signature(text),
{
    let parts = pieces(text, CharClass::NotAlphanumeric);
    let runs = alphanumeric_runs(text);
    let list = all_lowered(runs);
    let sep = seq![' '];
    law_signature_is_made_of_runs(text);
    lemma_pieces(text, CharClass::NotAlphanumeric);
    lemma_nonempty_members(parts);
    assert forall|k: int| 0 <= k < list.len() implies (#[trigger] list[k]).len() > 0 by {
        assert(runs[k].len() > 0);
    }
    assert forall|k: int, i: int| 0 <= k < list.len() && 0 <= i < list[k].len() implies {
        &&& !CharClass::WhiteSpace.holds(#[trigger] list[k][i])
        &&& signature_char(list[k][i]) == list[k][i]
    } by {
        assert(parts.contains(runs[k]));
        let m = choose|m: int| 0 <= m < parts.len() && parts[m] == runs[k];
        assert(!CharClass::NotAlphanumeric.holds(parts[m][i]));
        assert(list[k][i] == ascii_lower(runs[k][i]));
    }
    lemma_words_joined(list);
    lemma_signature_chars(list);
    let sig = joined(list, sep);
    assert(sig.map_values(|c: char| signature_char(c)) == sig);
}

/// Where the characters that part two texts stand in the same places, and the
/// others are those of the first without ASCII capitals, so are the parts.
proof fn lemma_matching_pieces(s: Seq<char>, t: Seq<char>)
    requires
        s.len() == t.len(),
        forall|i: int|
            0 <= i < s.len() ==> CharClass::WhiteSpace.holds(#[trigger] t[i])
                == CharClass::NotAlphanumeric.holds(s[i]),
        forall|i: int|
            0 <= i < s.len() && !CharClass::WhiteSpace.holds(#[trigger] t[i]) ==> t[i]
                == ascii_lower(s[i]),
    ensures
        pieces(t, CharClass::WhiteSpace) == all_lowered(pieces(s, CharClass::NotAlphanumeric)),
    decreases s.len(),
{
    let n = first_of(s, CharClass::NotAlphanumeric);
    lemma_first_of(s, CharClass::NotAlphanumeric);
    assert forall|i: int| 0 <= i < n implies !CharClass::WhiteSpace.holds(#[trigger] t[i]) by {
        assert(!CharClass::NotAlphanumeric.holds(s[i]));
    }
    if n < s.len() {
        assert(CharClass::WhiteSpace.holds(t[n as int]));
    }
    lemma_first_of_unique(t, CharClass::WhiteSpace, n);
    if n < s.len() {
        let rest = s.skip(n as int + 1);
        let more = t.skip(n as int + 1);
        assert forall|i: int| 0 <= i < rest.len() implies CharClass::WhiteSpace.holds(
            #[trigger] more[i],
        ) == CharClass::NotAlphanumeric.holds(rest[i]) && (!CharClass::WhiteSpace.holds(more[i])
            ==> more[i] == ascii_lower(rest[i])) by {
            assert(more[i] == t[i + n + 1]);
            assert(rest[i] == s[i + n + 1]);
        }
        lemma_matching_pieces(rest, more);
        assert(t.take(n as int) =~= lowered(s.take(n as int)));
        assert(pieces(t, CharClass::WhiteSpace) =~= all_lowered(
            pieces(s, CharClass::NotAlphanumeric),
        ));
    } else {
        assert(t =~= lowered(s));
        assert(pieces(t, CharClass::WhiteSpace) =~= all_lowered(
            pieces(s, CharClass::NotAlphanumeric),
        ));
    }
}

/// Taking out what is empty goes with taking out capitals.
proof fn lemma_nonempty_lowered(list: Seq<Seq<char>>)
    ensures
        nonempty(all_lowered(list)) == all_lowered(nonempty(list)),
    decreases list.len(),
{
    if list.len() == 0 {
        assert(nonempty(all_lowered(list)) =~= all_lowered(nonempty(list)));
    } else {
        lemma_nonempty_lowered(list.drop_last());
        assert(all_lowered(list).drop_last() =~= all_lowered(list.drop_last()));
        assert(all_lowered(list).last() == lowered(list.last()));
        assert(nonempty(all_lowered(list)) =~= all_lowered(nonempty(list)));
    }
}

/// What is made of characters that stay in a signature, and single spaces, stays.
proof fn lemma_signature_chars(list: Seq<Seq<char>>)
    requires
        forall|k: int, i: int|
            0 <= k < list.len() && 0 <= i < list[k].len() ==> signature_char(
                #[trigger] list[k][i],
            ) == list[k][i],
    ensures
        joined(list, seq![' ']).map_values(|c: char| signature_char(c)) == joined(list, seq![' ']),
    decreases list.len(),
{
    let whole = joined(list, seq![' ']);
    let g = |c: char| signature_char(c);
    if list.len() > 1 {
        let front = list.drop_last();
        assert forall|k: int, i: int| 0 <= k < front.len() && 0 <= i < front[k].len() implies signature_char(
            #[trigger] front[k][i],
        ) == front[k][i] by {
            assert(front[k][i] == list[k][i]);
        }
        lemma_signature_chars(front);
        let first = joined(front, seq![' ']);
        assert(whole == first + seq![' '] + list.last());
        assert forall|i: int| 0 <= i < whole.len() implies g(whole[i]) == whole[i] by {
            if i < first.len() {
                assert(first.map_values(g)[i] == first[i]);
            } else if i > first.len() {
                let k = list.len() - 1;
                assert(whole[i] == list[k][i - first.len() - 1]);
            }
        }
    } else if list.len() == 1 {
        assert forall|i: int| 0 <= i < whole.len() implies g(whole[i]) == whole[i] by {
            assert(whole[i] == list[0][i]);
        }
    }
    assert(whole.map_values(g) =~= whole);
}

// ---------------------------------------------------------------------------
// Emoji.

/// The characters that are emoji by themselves.
pub open spec fn is_emoji(c: char) -> bool {
    0x1F000 <= c as u32 <= 0x1FAFF || 0x2600 <= c as u32 <= 0x27BF
}

/// The characters that modify or join emoji.
pub open spec fn modifies_emoji(c: char) -> bool {
    0x1F3FB <= c as u32 <= 0x1F3FF || 0xFE0E <= c as u32 <= 0xFE0F || c as u32 == 0x200D || c as u32
        == 0x20E3
}

/// Tells whether a character is an emoji by itself.
pub fn is_emoji_base(ch: char) -> (r: bool)
    ensures
        r == is_emoji(ch),
{
    let code: u32 = ch as u32;
    (0x1F000 <= code && code <= 0x1FAFF) || (0x2600 <= code && code <= 0x27BF)
}

/// Tells whether a character modifies or joins emoji.
pub fn is_emoji_modifier(ch: char) -> (r: bool)
    ensures
        r == modifies_emoji(ch),
{
    let code: u32 = ch as u32;
    (0x1F3FB <= code && code <= 0x1F3FF) || (0xFE0E <= code && code <= 0xFE0F) || code == 0x200D
        || code == 0x20E3
}

/// The number of emoji characters that end a text.
pub open spec fn emoji_tail(s: Seq<char>) -> nat
    decreases s.len(),
{
    if s.len() > 0 && (modifies_emoji(s.last()) || is_emoji(s.last())) {
        1 + emoji_tail(s.drop_last())
    } else {
        0
    }
}

/// Whether a character that is an emoji and no modifier is in a text.
pub open spec fn shows_emoji(s: Seq<char>) -> bool {
    exists|i: int| 0 <= i < s.len() && is_emoji(#[trigger] s[i]) && !modifies_emoji(s[i])
}

/// A text without the emoji that end it, and those emoji.
pub open spec fn parted(text: Seq<char>) -> (Seq<char>, Option<Seq<char>>) {
    let s = trimmed_end(text);
    let n = emoji_tail(s);
    let at = s.len() - n;
    if n == 0 || (at > 0 && !shows_emoji(s.skip(at))) {
        (s, None)
    } else {
        (trimmed_end(s.take(at)), Some(s.skip(at)))
    }
}

proof fn lemma_emoji_tail(s: Seq<char>)
    ensures
        emoji_tail(s) <= s.len(),
    decreases s.len(),
{
    if s.len() > 0 {
        lemma_emoji_tail(s.drop_last());
    }
}

/// A text without the emoji that end it, and those emoji.
pub fn split_trailing_emoji(text: &str) -> (r: (String, Option<String>))
    ensures
        (r.0@, optional(r.1)) == parted(text@),
{
    let s = trim_end(text);
    let chars = chars_of(s);
    let len: usize = chars.len();
    let mut at: usize = len;
    let mut shows = false;
    assert(s@.take(len as int) =~= s@);
    while at > 0 && (is_emoji_modifier(chars[at - 1]) || is_emoji_base(chars[at - 1]))
        invariant
            at <= len,
            len == chars@.len(),
            chars@ == s@,
            emoji_tail(s@) == len - at + emoji_tail(s@.take(at as int)),
            shows == shows_emoji(s@.skip(at as int)),
        ensures
            at <= len,
            emoji_tail(s@) == len - at,
            shows == shows_emoji(s@.skip(at as int)),
        decreases at,
    {
        let c = chars[at - 1];
        let ghost before = s@.skip(at as int);
        let ghost after = s@.skip(at - 1);
        assert(s@.take(at as int).last() == c);
        assert(s@.take(at as int).drop_last() =~= s@.take(at - 1));
        assert(after[0] == c);
        assert forall|i: int| 0 <= i < before.len() implies #[trigger] before[i] == after[i + 1] by {}
        let bare = is_emoji_base(c) && !is_emoji_modifier(c);
        proof {
            if shows {
                let i = choose|i: int|
                    0 <= i < before.len() && is_emoji(#[trigger] before[i]) && !modifies_emoji(
                        before[i],
                    );
                assert(is_emoji(after[i + 1]) && !modifies_emoji(after[i + 1]));
            }
            if shows_emoji(after) && !bare {
                let i = choose|i: int|
                    0 <= i < after.len() && is_emoji(#[trigger] after[i]) && !modifies_emoji(
                        after[i],
                    );
                assert(before[i - 1] == after[i]);
            }
        }
        if bare {
            shows = true;
        }
        at -= 1;
    }
    if at == len || (at > 0 && !shows) {
        return (s.to_owned(), None);
    }
    (trim_end(take(s, at)).to_owned(), Some(skip(s, at).to_owned()))
}

/// The number of emoji characters that begin a text; the first is no mere
/// modifier.
pub open spec fn emoji_head(s: Seq<char>, seen: bool) -> nat
    decreases s.len(),
{
    if s.len() > 0 && (is_emoji(s[0]) || (seen && modifies_emoji(s[0]))) {
        1 + emoji_head(s.skip(1), true)
    } else {
        0
    }
}

/// The emoji that begin a text, and the rest; nothing where none do.
pub open spec fn led(text: Seq<char>) -> Option<(Seq<char>, Seq<char>)> {
    let s = trimmed_start(text);
    let n = emoji_head(s, false) as int;
    if n == 0 {
        None
    } else {
        Some((s.take(n), s.skip(n)))
    }
}

/// The emoji that begin a text, and the rest.
pub fn split_leading_emoji(text: &str) -> (r: Option<(String, String)>)
    ensures
        match led(text@) {
            Some((emoji, rest)) => r matches Some((e, t)) && e@ == emoji && t@ == rest,
            None => r is None,
        },
{
    let s = trim_start(text);
    let chars = chars_of(s);
    let mut n: usize = 0;
    assert(s@.skip(0) =~= s@);
    while n < chars.len() && (is_emoji_base(chars[n]) || (n > 0 && is_emoji_modifier(chars[n])))
        invariant
            n <= chars@.len(),
            chars@ == s@,
            emoji_head(s@, false) == n + emoji_head(s@.skip(n as int), n > 0),
        ensures
            n <= chars@.len(),
            emoji_head(s@, false) == n,
        decreases chars@.len() - n,
    {
        assert(s@.skip(n as int)[0] == chars@[n as int]);
        assert(s@.skip(n as int).skip(1) =~= s@.skip(n + 1));
        n += 1;
    }
    if n == 0 {
        return None;
    }
    Some((take(s, n).to_owned(), skip(s, n).to_owned()))
}

// ---------------------------------------------------------------------------
// Thoughts.

/// A thought and the face that goes with it.
#[derive(Debug, PartialEq, Eq)]
pub struct VoiceThought {
    /// The thought.
    pub text: String,
    /// The emoji, if there is one.
    pub emoji: Option<String>,
}

/// What a [`VoiceThought`] is.
pub ghost struct ThoughtView {
    pub text: Seq<char>,
    pub emoji: Option<Seq<char>>,
}

impl View for VoiceThought {
    type V = ThoughtView;

    open spec fn view(&self) -> ThoughtView {
        ThoughtView { text: self.text@, emoji: optional(self.emoji) }
    }
}

/// Whether a letter or digit is in a text.
pub open spec fn is_wordy(s: Seq<char>) -> bool {
    exists|i: int| 0 <= i < s.len() && is_alphanumeric(#[trigger] s[i])
}

/// Tells whether a letter or digit is in a text.
pub fn has_alphanumeric(text: &str) -> (r: bool)
    ensures
        r == is_wordy(text@),
{
    let chars = chars_of(text);
    let mut i: usize = 0;
    while i < chars.len()
        invariant
            i <= chars@.len(),
            chars@ == text@,
            forall|k: int| 0 <= k < i ==> !is_alphanumeric(#[trigger] text@[k]),
        decreases chars@.len() - i,
    {
        if alphanumeric(chars[i]) {
            assert(is_alphanumeric(text@[i as int]));
            return true;
        }
        i += 1;
    }
    false
}

/// The thought that a generated text holds; none where it says nothing.
pub open spec fn observation_in(text: Seq<char>) -> Option<ThoughtView> {
    let clean = cleaned(text);
    let said = match thought_in(clean) {
        Some(thought) => thought,
        None => clean,
    };
    let (rest, emoji) = parted(trimmed(said));
    let kept = trimmed(rest);
    if kept.len() == 0 || !is_wordy(kept) {
        None
    } else {
        Some(ThoughtView { text: kept, emoji })
    }
}

/// The thought that a generated text holds.
pub fn voice_observation_text(text: &str) -> (r: Option<VoiceThought>)
    ensures
        match observation_in(text@) {
            Some(thought) => r matches Some(given) && given@ == thought,
            None => r is None,
        },
{
    let clean = clean_generated_voice_text(text);
    let said = match strip_leading_thought_marker(clean.as_str()) {
        Some(thought) => thought,
        None => clean,
    };
    let (rest, emoji) = split_trailing_emoji(trim(said.as_str()));
    let kept = trim(rest.as_str());
    if kept.unicode_len() == 0 || !has_alphanumeric(kept) {
        return None;
    }
    Some(VoiceThought { text: kept.to_owned(), emoji })
}

// ---------------------------------------------------------------------------
// Sentences.

/// The marks that close a quotation.
pub open spec fn closes_quote(c: char) -> bool {
    c == '"' || c == '\'' || c == '”' || c == '’'
}

/// The position behind the closing quotes that follow position `i`.
pub open spec fn after_quotes(s: Seq<char>, i: int) -> int
    decreases s.len() - i,
{
    if 0 <= i < s.len() && closes_quote(s[i]) {
        after_quotes(s, i + 1)
    } else {
        i
    }
}

/// Whether the last word of a text is an abbreviation that ends in a full stop.
pub open spec fn ends_abbreviated(text: Seq<char>) -> bool {
    let w = words(text);
    w.len() > 0 && {
        let last = w.last();
        ||| last == "Dr."@
        ||| last == "Mr."@
        ||| last == "Mrs."@
        ||| last == "Ms."@
        ||| last == "Prof."@
        ||| last == "Sr."@
        ||| last == "Jr."@
        ||| last == "St."@
        ||| last == "vs."@
        ||| last == "etc."@
    }
}

/// Whether a sentence ends with the character at position `i`: with `?` or `!`,
/// or with a full stop that is not that of an abbreviation, and with white space
/// or nothing behind it and its closing quotes.
pub open spec fn ends_sentence(s: Seq<char>, i: int) -> bool {
    let end = after_quotes(s, i + 1);
    &&& end == s.len() || is_white_space(s[end])
    &&& s[i] == '?' || s[i] == '!' || (s[i] == '.' && !ends_abbreviated(trimmed(s.take(i + 1))))
}

/// The position behind the first sentence that ends at or behind position `i`.
pub open spec fn sentence_end_from(s: Seq<char>, i: int) -> Option<int>
    decreases s.len() - i,
{
    if i < 0 || i >= s.len() {
        None
    } else if ends_sentence(s, i) {
        Some(after_quotes(s, i + 1))
    } else {
        sentence_end_from(s, i + 1)
    }
}

/// The position behind the first sentence.
pub open spec fn sentence_end(s: Seq<char>) -> Option<int> {
    sentence_end_from(s, 0)
}

proof fn lemma_after_quotes(s: Seq<char>, i: int)
    requires
        0 <= i <= s.len(),
    ensures
        i <= after_quotes(s, i) <= s.len(),
    decreases s.len() - i,
{
    if i < s.len() && closes_quote(s[i]) {
        lemma_after_quotes(s, i + 1);
    }
}

/// The position behind the closing quotes that follow position `start`.
pub fn closing_quote_end(chars: &Vec<char>, start: usize) -> (end: usize)
    requires
        start <= chars@.len(),
    ensures
        end == after_quotes(chars@, start as int),
        start <= end <= chars@.len(),
{
    let mut end: usize = start;
    while end < chars.len() && (chars[end] == '"' || chars[end] == '\'' || chars[end] == '”'
        || chars[end] == '’')
        invariant
            start <= end <= chars@.len(),
            after_quotes(chars@, start as int) == after_quotes(chars@, end as int),
        ensures
            start <= end <= chars@.len(),
            after_quotes(chars@, start as int) == end,
        decreases chars@.len() - end,
    {
        end += 1;
    }
    end
}

/// Tells whether the last word of a text is an abbreviation.
pub fn is_common_abbreviation(text: &str) -> (r: bool)
    ensures
        r == ends_abbreviated(text@),
{
    let w = split_words(text);
    let n: usize = w.len();
    if n == 0 {
        return false;
    }
    let last = w[n - 1].as_str();
    assert(texts(w@).last() == last@);
    same(last, "Dr.") || same(last, "Mr.") || same(last, "Mrs.") || same(last, "Ms.") || same(
        last,
        "Prof.",
    ) || same(last, "Sr.") || same(last, "Jr.") || same(last, "St.") || same(last, "vs.") || same(
        last,
        "etc.",
    )
}

/// The position behind the first sentence.
pub fn find_sentence_end(text: &str) -> (r: Option<usize>)
    ensures
        match r {
            Some(end) => sentence_end(text@) == Some(end as int) && 0 < end <= text@.len(),
            None => sentence_end(text@) is None,
        },
{
    let chars = chars_of(text);
    let mut i: usize = 0;
    while i < chars.len()
        invariant
            i <= chars@.len(),
            chars@ == text@,
            sentence_end(text@) == sentence_end_from(text@, i as int),
        decreases chars@.len() - i,
    {
        let end = closing_quote_end(&chars, i + 1);
        if end == chars.len() || white_space(chars[end]) {
            let c = chars[i];
            if c == '?' || c == '!' {
                return Some(end);
            }
            if c == '.' && !is_common_abbreviation(trim(take(text, i + 1))) {
                return Some(end);
            }
        }
        i += 1;
    }
    None
}

/// The first sentence of a text, if one ends in it.
pub open spec fn sentence_of(text: Seq<char>) -> Option<Seq<char>> {
    match sentence_end(text) {
        Some(end) => Some(trimmed(text.take(end))),
        None => None,
    }
}

/// The first sentence of a text, if one ends in it.
pub fn first_sentence(text: &str) -> (r: Option<String>)
    ensures
        optional(r) == sentence_of(text@),
{
    match find_sentence_end(text) {
        Some(end) => Some(trim(take(text, end)).to_owned()),
        None => None,
    }
}

/// A text unquoted and on one line.
pub fn normalize_voice_text(text: &str) -> (r: String)
    ensures
        r@ == collapsed(trimmed_of(trimmed(text@), CharClass::DoubleQuote)),
{
    collapse(trim_of(trim(text), CharClass::DoubleQuote))
}

/// The first sentence of a text as a thought; none where it says nothing.
pub open spec fn thought_of(sentence: Seq<char>) -> Option<ThoughtView> {
    let (rest, emoji) = parted(collapsed(trimmed_of(trimmed(sentence), CharClass::DoubleQuote)));
    let text = match sentence_of(trimmed(rest)) {
        Some(first) => first,
        None => collapsed(trimmed(rest)),
    };
    if text.len() == 0 || !is_wordy(text) {
        None
    } else {
        Some(ThoughtView { text, emoji })
    }
}

/// The first sentence of a text as a thought.
pub fn parse_voice_thought(sentence: &str) -> (r: Option<VoiceThought>)
    ensures
        match thought_of(sentence@) {
            Some(thought) => r matches Some(given) && given@ == thought,
            None => r is None,
        },
{
    let normalized = normalize_voice_text(sentence);
    let (rest, emoji) = split_trailing_emoji(normalized.as_str());
    let kept = trim(rest.as_str());
    let text = match first_sentence(kept) {
        Some(first) => first,
        None => collapse(kept),
    };
    if text.as_str().unicode_len() == 0 || !has_alphanumeric(text.as_str()) {
        return None;
    }
    Some(VoiceThought { text, emoji })
}

/// The first sentence of a text, or nothing.
pub fn clean_voice_sentence(sentence: &str) -> (r: String)
    ensures
        r@ == (match thought_of(sentence@) {
            Some(thought) => thought.text,
            None => Seq::empty(),
        }),
{
    match parse_voice_thought(sentence) {
        Some(thought) => thought.text,
        None => String::new(),
    }
}

/// How an impression of being about to speak is put.
pub fn queued_voice_impression_text(text: &str) -> (s: String)
    ensures
        s@ == "I feel myself about to say: "@ + text@,
{
    let mut s = "I feel myself about to say: ".to_owned();
    s.push_str(text);
    s
}

/// How an impression of making a face is put.
pub fn face_emoji_impression_text(emoji: &str) -> (s: String)
    ensures
        s@ == "I feel my face turn into a "@ + emoji@,
{
    let mut s = "I feel my face turn into a ".to_owned();
    s.push_str(emoji);
    s
}

// ---------------------------------------------------------------------------
// What is kept of a text.

/// Whether a text is plain: on one line, without tags and double quotes, and
/// without a sentence of the dialogue instruction.
pub open spec fn is_plain(text: Seq<char>) -> bool {
    &&& text.len() > 0
    &&& is_spaced(text)
    &&& forall|i: int| 0 <= i < text.len() ==> (#[trigger] text[i]) != '<' && text[i] != '"'
    &&& !occurs(text, "Reply only when the latest user turn needs an answer."@)
    &&& !occurs(text, "Keep it brief and give the other person a chance to speak."@)
    &&& !occurs(text, "If no reply is needed, return an empty message."@)
}

proof fn lemma_no_tag(text: Seq<char>, tag: Seq<char>)
    requires
        forall|i: int| 0 <= i < text.len() ==> (#[trigger] text[i]) != '<',
        tag.len() > 0,
        tag[0] == '<',
    ensures
        found(text, tag) is None,
        forall|j: int| !stands_at(text, tag, j),
{
    lemma_found(text, tag);
    assert forall|j: int| !stands_at(text, tag, j) by {
        if stands_at(text, tag, j) {
            assert(text.subrange(j, j + tag.len())[0] == text[j]);
        }
    }
}

pub proof fn lemma_no_chat_marker(text: Seq<char>)
    requires
        forall|i: int| 0 <= i < text.len() ==> (#[trigger] text[i]) != '<',
    ensures
        earliest(text, chat_markers()) == text.len(),
{
    reveal_strlit("<|im_end|>");
    reveal_strlit("<|im_start|>assistant");
    reveal_strlit("<|im_start|>user");
    reveal_strlit("<end_of_turn>");
    reveal_strlit("<start_of_turn>model");
    reveal_strlit("<start_of_turn>user");
    reveal_strlit("<turn|>");
    let markers = chat_markers();
    lemma_earliest(text, markers);
    let e = earliest(text, markers);
    if e < text.len() {
        let m = choose|m: int| 0 <= m < markers.len() && stands_at(text, #[trigger] markers[m], e);
        assert(m == 0 || m == 1 || m == 2 || m == 3 || m == 4 || m == 5 || m == 6);
        assert(markers[m].len() > 0 && markers[m][0] == '<');
        lemma_no_tag(text, markers[m]);
    }
}

proof fn lemma_no_echo(text: Seq<char>)
    requires
        is_plain(text),
    ensures
        earliest(text, echo_markers()) == text.len(),
{
    let markers = echo_markers();
    lemma_earliest(text, markers);
    let e = earliest(text, markers);
    if e < text.len() {
        let m = choose|m: int| 0 <= m < markers.len() && stands_at(text, #[trigger] markers[m], e);
        assert(m == 0 || m == 1 || m == 2);
        lemma_found(text, markers[m]);
    }
}

/// A plain text is kept as it is: not a word of it is lost, changed or moved.
pub proof fn law_plain_text_is_kept(text: Seq<char>)
    requires
        is_plain(text),
    ensures
        cleaned(text) == text,
        thought_in(text) is None,
{
    lemma_no_chat_marker(text);
    lemma_no_echo(text);
    assert(text.take(text.len() as int) =~= text);
    lemma_trimmed_noop(text, CharClass::WhiteSpace);
    reveal_strlit("<say>");
    reveal_strlit("</say>");
    reveal_strlit("<thought />");
    reveal_strlit("<thought/>");
    reveal_strlit("<thought>");
    reveal_strlit("</thought>");
    lemma_no_tag(text, "<say>"@);
    lemma_no_tag(text, "</say>"@);
    lemma_no_tag(text, "<thought />"@);
    lemma_no_tag(text, "<thought/>"@);
    lemma_no_tag(text, "<thought>"@);
    lemma_no_tag(text, "</thought>"@);
    lemma_spaced_stays(text);
    lemma_trimmed_noop(text, CharClass::DoubleQuote);
}

/// What follows a marker of a chat is cut off, and the plain text before it is
/// kept.
pub proof fn law_text_ends_at_a_chat_marker(text: Seq<char>, m: int, rest: Seq<char>)
    requires
        is_plain(text),
        0 <= m < chat_markers().len(),
    ensures
        cleaned(text + chat_markers()[m] + rest) == text,
{
    let markers = chat_markers();
    let whole = text + markers[m] + rest;
    let n = text.len() as int;
    reveal_strlit("<|im_end|>");
    reveal_strlit("<|im_start|>assistant");
    reveal_strlit("<|im_start|>user");
    reveal_strlit("<end_of_turn>");
    reveal_strlit("<start_of_turn>model");
    reveal_strlit("<start_of_turn>user");
    reveal_strlit("<turn|>");
    assert forall|k: int| 0 <= k < markers.len() implies (#[trigger] markers[k]).len() > 0
        && markers[k][0] == '<' by {
        assert(k == 0 || k == 1 || k == 2 || k == 3 || k == 4 || k == 5 || k == 6);
    }
    lemma_earliest(whole, markers);
    let e = earliest(whole, markers);
    assert(whole.subrange(n, n + markers[m].len()) =~= markers[m]);
    assert(stands_at(whole, markers[m], n));
    if e > n {
        assert(false);
    }
    if e < n {
        let k = choose|k: int| 0 <= k < markers.len() && stands_at(whole, #[trigger] markers[k], e);
        assert(whole.subrange(e, e + markers[k].len())[0] == whole[e]);
        assert(whole[e] == text[e]);
    }
    assert(whole.take(n) =~= text);
    law_plain_text_is_kept(text);
    lemma_no_chat_marker(text);
    assert(text.take(n) =~= text);
}

proof fn lemma_emoji_tail_of(body: Seq<char>, emoji: Seq<char>)
    requires
        body.len() > 0 ==> !is_emoji(body.last()) && !modifies_emoji(body.last()),
        forall|i: int| 0 <= i < emoji.len() ==> is_emoji(#[trigger] emoji[i]),
    ensures
        emoji_tail(body + emoji) == emoji.len(),
    decreases emoji.len(),
{
    let s = body + emoji;
    if emoji.len() > 0 {
        assert(s.last() == emoji.last());
        assert(s.drop_last() =~= body + emoji.drop_last());
        lemma_emoji_tail_of(body, emoji.drop_last());
    } else {
        assert(s =~= body);
    }
}

/// The emoji behind the words of a plain text are told apart from them: the words
/// are what is said, and the emoji, all of them and in order, is what shows on the
/// face. A plain text without emoji at its end shows none.
pub proof fn law_emoji_is_told_apart_from_the_words(body: Seq<char>, emoji: Seq<char>)
    requires
        is_plain(body),
        is_wordy(body),
        !(0x1F000 <= body.last() as u32 <= 0x1FAFF),
        !(0x2600 <= body.last() as u32 <= 0x27BF),
        !(0xFE0E <= body.last() as u32 <= 0xFE0F),
        body.last() as u32 != 0x200D && body.last() as u32 != 0x20E3,
        emoji.len() > 0,
        forall|i: int| #![trigger emoji[i]]
            0 <= i < emoji.len() ==> (0x1F000 <= emoji[i] as u32 <= 0x1F3FA || 0x1F400
                <= emoji[i] as u32 <= 0x1FAFF || 0x2600 <= emoji[i] as u32 <= 0x27BF),
        is_plain(body + seq![' '] + emoji),
    ensures
        observation_in(body + seq![' '] + emoji) == Some(
            ThoughtView { text: body, emoji: Some(emoji) },
        ),
        observation_in(body) == Some(ThoughtView { text: body, emoji: None }),
{
    let text = body + seq![' '] + emoji;
    law_plain_text_is_kept(text);
    law_plain_text_is_kept(body);
    lemma_trimmed_noop(text, CharClass::WhiteSpace);
    lemma_trimmed_noop(body, CharClass::WhiteSpace);
    let spaced = body + seq![' '];
    assert(text =~= spaced + emoji);
    assert(spaced.last() == ' ');
    assert(!is_emoji(' ') && !modifies_emoji(' '));
    lemma_emoji_tail_of(spaced, emoji);
    assert(trimmed_end(text) == text) by {
        assert(text.last() == emoji.last());
    }
    let at = text.len() - emoji.len();
    assert(text.skip(at) =~= emoji);
    assert(shows_emoji(emoji)) by {
        assert(is_emoji(emoji[0]) && !modifies_emoji(emoji[0]));
    }
    assert(text.take(at) =~= spaced);
    assert(spaced.drop_last() =~= body);
    reveal_with_fuel(trimmed_end_of, 3);
    assert(trimmed_end(spaced) == body);
    assert(parted(text) == (body, Some(emoji)));
    assert(emoji_tail(body) == 0);
}

/// Behind closing quotes comes what is no closing quote.
proof fn lemma_quotes_close(s: Seq<char>, i: int, end: int)
    requires
        0 <= i <= end <= s.len(),
        forall|k: int| i <= k < end ==> closes_quote(#[trigger] s[k]),
        end < s.len() ==> !closes_quote(s[end]),
    ensures
        after_quotes(s, i) == end,
    decreases end - i,
{
    if i < end {
        assert(closes_quote(s[i]));
        lemma_quotes_close(s, i + 1, end);
    }
}

/// Where no sentence ends before a position, the search may begin there.
proof fn lemma_sentence_end_behind(s: Seq<char>, i: int, k: int)
    requires
        0 <= i <= k <= s.len(),
        forall|j: int| i <= j < k ==> !#[trigger] ends_sentence(s, j),
    ensures
        sentence_end_from(s, i) == sentence_end_from(s, k),
    decreases k - i,
{
    if i < k {
        assert(!ends_sentence(s, i));
        lemma_sentence_end_behind(s, i + 1, k);
    }
}

/// A sentence ends behind its first question or exclamation mark, or behind its
/// first full stop where that is not part of an abbreviation, with the quotes that
/// close there, where white space or nothing follows.
pub proof fn law_sentence_ends_behind_its_mark(
    said: Seq<char>,
    mark: char,
    quotes: Seq<char>,
    rest: Seq<char>,
)
    requires
        forall|i: int|
            0 <= i < said.len() ==> (#[trigger] said[i]) != '.' && said[i] != '?' && said[i] != '!',
        mark == '?' || mark == '!' || mark == '.' && !ends_abbreviated(
            trimmed(said + seq!['.']),
        ),
        forall|i: int|
            0 <= i < quotes.len() ==> (#[trigger] quotes[i]) == '"' || quotes[i] == '\'' || quotes[i]
                == '”' || quotes[i] == '’',
        rest.len() > 0 ==> is_white_space(rest[0]) && rest[0] != '"' && rest[0] != '\'' && rest[0]
            != '”' && rest[0] != '’',
    ensures
        sentence_end(said + seq![mark] + quotes + rest) == Some(
            (said.len() + 1 + quotes.len()) as int,
        ),
        sentence_of(said + seq![mark] + quotes + rest) == Some(
            trimmed(said + seq![mark] + quotes),
        ),
{
    let s = said + seq![mark] + quotes + rest;
    let n = said.len() as int;
    let end = n + 1 + quotes.len();
    assert forall|j: int| 0 <= j < n implies !#[trigger] ends_sentence(s, j) by {
        assert(s[j] == said[j]);
    }
    lemma_sentence_end_behind(s, 0, n);
    assert(s[n] == mark);
    assert forall|k: int| n + 1 <= k < end implies closes_quote(#[trigger] s[k]) by {
        assert(s[k] == quotes[k - (n + 1)]);
    }
    if rest.len() > 0 {
        assert(s[end] == rest[0]);
    }
    lemma_quotes_close(s, n + 1, end);
    assert(s.take(n + 1) =~= said + seq![mark]);
    assert(ends_sentence(s, n));
    assert(s.take(end) =~= said + seq![mark] + quotes);
}

/// No sentence ends in a text whose full stops, question and exclamation marks all
/// stand right before a character that is neither white space nor a closing quote.
pub proof fn law_mark_within_a_word_ends_nothing(s: Seq<char>)
    requires
        forall|i: int|
            #![trigger s[i]]
            0 <= i < s.len() && (s[i] == '.' || s[i] == '?' || s[i] == '!') ==> i + 1 < s.len()
                && !is_white_space(s[i + 1]) && s[i + 1] != '"' && s[i + 1] != '\'' && s[i + 1] != '”'
                && s[i + 1] != '’',
    ensures
        sentence_end(s) is None,
        sentence_of(s) is None,
{
    assert forall|j: int| 0 <= j < s.len() implies !#[trigger] ends_sentence(s, j) by {
        if s[j] == '.' || s[j] == '?' || s[j] == '!' {
            assert(after_quotes(s, j + 1) == j + 1);
        }
    }
    lemma_sentence_end_behind(s, 0, s.len() as int);
}

/// A text without tags speaks where a letter or digit is in it; what stands within
/// a tag says nothing.
pub proof fn law_letters_outside_of_tags_speak(s: Seq<char>, tag: Seq<char>)
    requires
        forall|i: int| 0 <= i < s.len() ==> (#[trigger] s[i]) != '<' && s[i] != '>',
        forall|i: int| 0 <= i < tag.len() ==> (#[trigger] tag[i]) != '<' && tag[i] != '>',
    ensures
        speaks(s, false) <==> exists|i: int| 0 <= i < s.len() && is_alphanumeric(#[trigger] s[i]),
        speaks(seq!['<'] + tag + seq!['>'] + s, false) == speaks(s, false),
{
    lemma_untagged_speaks(s);
    let whole = seq!['<'] + tag + seq!['>'] + s;
    assert(whole[0] == '<');
    assert(whole.skip(1) =~= tag + seq!['>'] + s);
    lemma_tag_is_silent(tag, s);
}

proof fn lemma_untagged_speaks(s: Seq<char>)
    requires
        forall|i: int| 0 <= i < s.len() ==> (#[trigger] s[i]) != '<' && s[i] != '>',
    ensures
        speaks(s, false) <==> exists|i: int| 0 <= i < s.len() && is_alphanumeric(#[trigger] s[i]),
    decreases s.len(),
{
    if s.len() > 0 {
        let rest = s.skip(1);
        assert forall|i: int| 0 <= i < rest.len() implies (#[trigger] rest[i]) != '<' && rest[i]
            != '>' by {
            assert(rest[i] == s[i + 1]);
        }
        lemma_untagged_speaks(rest);
        assert(s[0] != '<' && s[0] != '>');
        if speaks(rest, false) {
            let i = choose|i: int| 0 <= i < rest.len() && is_alphanumeric(#[trigger] rest[i]);
            assert(is_alphanumeric(s[i + 1]));
        }
        if exists|i: int| 0 <= i < s.len() && is_alphanumeric(#[trigger] s[i]) {
            let i = choose|i: int| 0 <= i < s.len() && is_alphanumeric(#[trigger] s[i]);
            if i > 0 {
                assert(is_alphanumeric(rest[i - 1]));
            }
        }
    }
}

proof fn lemma_tag_is_silent(tag: Seq<char>, s: Seq<char>)
    requires
        forall|i: int| 0 <= i < tag.len() ==> (#[trigger] tag[i]) != '<' && tag[i] != '>',
    ensures
        speaks(tag + seq!['>'] + s, true) == speaks(s, false),
    decreases tag.len(),
{
    let whole = tag + seq!['>'] + s;
    if tag.len() == 0 {
        assert(whole[0] == '>');
        assert(whole.skip(1) =~= s);
    } else {
        let rest = tag.skip(1);
        assert forall|i: int| 0 <= i < rest.len() implies (#[trigger] rest[i]) != '<' && rest[i]
            != '>' by {
            assert(rest[i] == tag[i + 1]);
        }
        lemma_tag_is_silent(rest, s);
        assert(whole[0] == tag[0]);
        assert(whole.skip(1) =~= rest + seq!['>'] + s);
    }
}

/// What follows the mark of a thought is the thought; a text that does not begin
/// with a tag is none.
pub proof fn law_thought_follows_its_mark(text: Seq<char>)
    requires
        text.len() > 0,
        !is_white_space(text[0]),
    ensures
        thought_in("<thought/>"@ + text) == Some(text),
        thought_in("<thought />"@ + text) == Some(text),
        text[0] != '<' ==> thought_in(text) is None,
{
    reveal_strlit("<thought/>");
    reveal_strlit("<thought />");
    let a = "<thought/>"@ + text;
    let b = "<thought />"@ + text;
    assert(!is_white_space('<')) by {
        assert('<' as u32 == 0x3C);
    }
    assert(trimmed_start(a) == a);
    assert(trimmed_start(b) == b);
    assert(a.subrange(0, 10) =~= "<thought/>"@);
    assert(a.skip(10) =~= text);
    assert(b.subrange(0, 11) =~= "<thought />"@);
    assert(b.skip(11) =~= text);
    assert(trimmed_start(text) == text);
    if starts(b, "<thought/>"@) {
        assert(b.subrange(0, 10)[8] == "<thought/>"@[8]);
    }
    if starts(text, "<thought/>"@) {
        assert(text.subrange(0, 10)[0] == "<thought/>"@[0]);
    }
    if starts(text, "<thought />"@) {
        assert(text.subrange(0, 11)[0] == "<thought />"@[0]);
    }
}

/// Emoji that begin a text are told apart from the rest.
pub proof fn law_leading_emoji_is_told_apart(emoji: Seq<char>, rest: Seq<char>)
    requires
        emoji.len() > 0,
        !is_white_space(emoji[0]),
        forall|i: int| 0 <= i < emoji.len() ==> is_emoji(#[trigger] emoji[i]),
        rest.len() > 0 ==> !is_emoji(rest[0]) && !modifies_emoji(rest[0]),
    ensures
        led(emoji + rest) == Some((emoji, rest)),
{
    let s = emoji + rest;
    assert(s[0] == emoji[0]);
    assert(trimmed_start(s) == s);
    lemma_emoji_head(emoji, rest, false);
    assert(s.take(emoji.len() as int) =~= emoji);
    assert(s.skip(emoji.len() as int) =~= rest);
}

proof fn lemma_emoji_head(emoji: Seq<char>, rest: Seq<char>, seen: bool)
    requires
        forall|i: int| 0 <= i < emoji.len() ==> is_emoji(#[trigger] emoji[i]),
        rest.len() > 0 ==> !is_emoji(rest[0]) && !modifies_emoji(rest[0]),
    ensures
        emoji_head(emoji + rest, seen) == emoji.len(),
    decreases emoji.len(),
{
    let s = emoji + rest;
    if emoji.len() == 0 {
        assert(s =~= rest);
    } else {
        let tail = emoji.skip(1);
        assert forall|i: int| 0 <= i < tail.len() implies is_emoji(#[trigger] tail[i]) by {
            assert(tail[i] == emoji[i + 1]);
        }
        lemma_emoji_head(tail, rest, true);
        assert(s[0] == emoji[0]);
        assert(s.skip(1) =~= tail + rest);
    }
}

/// A text that begins with a letter, a digit or a mark, and with no emoji, is not
/// led by any.
pub proof fn law_words_are_led_by_no_emoji(text: Seq<char>)
    requires
        text.len() > 0,
        !is_white_space(text[0]),
        !is_emoji(text[0]),
    ensures
        led(text) is None,
{
    assert(trimmed_start(text) == text);
}

} // verus!
