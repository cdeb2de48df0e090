//! What is known of the scene at large: how a draft of it is tidied up, and how a
//! better one is asked for and read.

use vstd::prelude::*;

use crate::chars::{is_white_space, CharClass};
use crate::context_frame::{
    compact_text, compacted, is_age_band, is_possessive_age_band, normalize_context_text, normalized,
    rendered, ContextFrame, FrameView,
};
use crate::ident::{hyphenated, id_text};
use crate::impression::with_places;
use crate::json::{field, json_text, parse, parsed, prompt_json_string, prompt_string, Json, JsonView};
use crate::text::{
    chars_of, collapsed, contains, copy_texts, ends, find, found, is_member, is_spaced, join, joined,
    lemma_collapsed_begins, lemma_collapsed_spaced, lemma_found, lemma_pieces_add,
    lemma_spaced_stays, lemma_trimmed_end, lemma_trimmed_noop, lowered, occurs, optional, pieces,
    same, skip, split, stands_at, starts, starts_with, take, texts, to_lower, trim, trim_of,
    trimmed, trimmed_end_of, trimmed_of, trimmed_start_of, words,
};
use crate::timeline::{entry_views, EntryView, TimelineEntry};

verus! {

/// The length of an answer, in tokens.
pub const CONTEXT_FRAME_MAX_TOKENS: usize = 220;

/// The length of an item, in characters.
pub const MAX_CONTEXT_FRAME_TEXT_CHARS: usize = 140;

/// The items of a section.
pub const COMPACT_CONTEXT_ITEM_LIMIT: usize = 2;

/// What is asked for.
pub const CONTEXT_FRAME_SYSTEM_PROMPT: &'static str =
    "You fill a compact ContextFrame for the real-time Experience generator. \
    Return only the requested JSON. Use evidence conservatively. \
    Merge repeated observations into non-redundant fields. \
    Use real physical location facts for WHERE when evidence supports them, and do not invent \
    unknown locations. Do not list pronouns, age phrases, camera names, or body parts as people \
    or places.";

/// How a draft is to be revised.
pub const REVISION_INSTRUCTIONS: &'static str =
    "Revise the draft ContextFrame using the evidence timeline.\n\
    Return only JSON with this exact shape: \
    {\"who\":[\"...\"],\"what\":[\"...\"],\"where\":[\"...\"],\"when\":\"...\",\"why\":[\"...\"],\"how\":[\"...\"]}.\n\
    Keep each list to at most two concise items; one item is better when the evidence is repetitive.\n\
    WHO is concrete people or participants only.\n\
    WHERE is physical place or setting only. Prefer real facts about where the system is physically located: indoors or outdoors, named room/building/place, town or region, hemisphere, or coordinates when those are supported by evidence.\n\
    For WHERE, use the most specific known real location cue and say when it is only approximate; if the evidence does not establish town, hemisphere, indoor/outdoor status, or any physical place, omit that unknown rather than guessing.\n\
    Exclude age bands, cameras, eyes, and body parts from WHERE.\n\
    WHAT should combine all repeated frame-level descriptions into one current situation, not repeated sensor status.\n\
    Do not list near-duplicates such as multiple versions of the same visible person; merge stable details.\n\
    WHEN should preserve the supplied time span unless the evidence gives a clearer phrase.\n\n\
    Draft ContextFrame:\n";

/// What is asked for.
pub fn context_frame_system_prompt() -> (s: &'static str)
    ensures
        s@ == CONTEXT_FRAME_SYSTEM_PROMPT@,
{
    CONTEXT_FRAME_SYSTEM_PROMPT
}

/// A section of what is known.
#[derive(Debug, Clone, Copy, PartialEq, Eq, Structural)]
pub enum ContextSection {
    /// The people.
    Who,
    /// What happens.
    What,
    /// The place.
    Where,
    /// The reason.
    Why,
    /// The senses.
    How,
}

/// How many items a section may have.
pub open spec fn section_limit(section: ContextSection) -> nat {
    if section is Why {
        1
    } else {
        2
    }
}

/// How many items a section may have.
pub fn context_section_item_limit(section: ContextSection) -> (n: usize)
    ensures
        n == section_limit(section),
{
    match section {
        ContextSection::Why => 1,
        _ => COMPACT_CONTEXT_ITEM_LIMIT,
    }
}

/// An item on one line; outside of what happens, only its beginning. Nothing
/// where it is blank.
pub open spec fn sanitized(text: Seq<char>, section: ContextSection) -> Option<Seq<char>> {
    if section is What {
        normalized(text)
    } else {
        compacted(text, 140)
    }
}

/// Puts an item on one line.
pub fn sanitize_context_text(text: &str, section: ContextSection) -> (r: Option<String>)
    ensures
        optional(r) == sanitized(text@, section),
{
    match section {
        ContextSection::What => normalize_context_text(text),
        _ => compact_text(text, MAX_CONTEXT_FRAME_TEXT_CHARS),
    }
}

/// Whether a text names what is seen, and no place.
pub open spec fn is_visual_place(text: Seq<char>) -> bool {
    ||| text == "visual content"@
    ||| text == "the visual content"@
    ||| text == "background"@
    ||| text == "the background"@
    ||| text == "foreground"@
    ||| text == "the foreground"@
}

/// Tells whether a text names what is seen, and no place.
pub fn is_generic_visual_place(text: &str) -> (r: bool)
    ensures
        r == is_visual_place(text@),
{
    same(text, "visual content") || same(text, "the visual content") || same(text, "background")
        || same(text, "the background") || same(text, "foreground") || same(text, "the foreground")
}

/// Whether an item does not belong into a section: it only speaks of oneself, or,
/// where people or places are named, it names a camera, an eye or an age.
pub open spec fn is_out_of_place(item: Seq<char>, section: ContextSection) -> bool {
    let low = trimmed_of(lowered(item), CharClass::NotWordChar);
    ||| low == "i"@
    ||| low == "i'm"@
    ||| low == "me"@
    ||| low == "my"@
    ||| low == "unknown"@
    ||| (section is Who || section is Where) && (occurs(low, "camera"@) || occurs(low, "eye"@)
        || is_age_band(low))
    ||| section is Where && is_visual_place(low)
}

/// Tells whether an item does not belong into a section.
pub fn is_bad_context_item(item: &str, section: ContextSection) -> (r: bool)
    ensures
        r == is_out_of_place(item@, section),
{
    let whole = to_lower(item);
    let low = trim_of(whole.as_str(), CharClass::NotWordChar);
    if same(low, "i") || same(low, "i'm") || same(low, "me") || same(low, "my") || same(
        low,
        "unknown",
    ) {
        return true;
    }
    match section {
        ContextSection::Who => contains(low, "camera") || contains(low, "eye")
            || is_possessive_age_band(low),
        ContextSection::Where => contains(low, "camera") || contains(low, "eye")
            || is_possessive_age_band(low) || is_generic_visual_place(low),
        _ => false,
    }
}

/// The first `max` items that are left once those that are blank, out of place
/// or there already are taken out.
pub open spec fn kept_items(items: Seq<Seq<char>>, section: ContextSection, max: nat) -> Seq<Seq<char>>
    decreases items.len(),
{
    if items.len() == 0 {
        Seq::empty()
    } else {
        let rest = kept_items(items.drop_last(), section, max);
        match sanitized(items.last(), section) {
            None => rest,
            Some(item) => if 0 < max <= rest.len() || is_out_of_place(item, section) || rest.contains(
                item,
            ) {
                rest
            } else {
                rest.push(item)
            },
        }
    }
}

proof fn lemma_kept_is_full(items: Seq<Seq<char>>, section: ContextSection, max: nat, n: int)
    requires
        0 <= n <= items.len(),
        0 < max <= kept_items(items.take(n), section, max).len(),
    ensures
        kept_items(items, section, max) == kept_items(items.take(n), section, max),
    decreases items.len() - n,
{
    if n < items.len() {
        assert(items.take(n + 1).drop_last() =~= items.take(n));
        assert(kept_items(items.take(n + 1), section, max) == kept_items(items.take(n), section, max));
        lemma_kept_is_full(items, section, max, n + 1);
    } else {
        assert(items.take(n) =~= items);
    }
}

/// Takes out items that are blank, out of place or there already, and keeps the
/// first of the others.
pub fn sanitize_context_items_with_limit(
    items: &Vec<String>,
    section: ContextSection,
    max_items: usize,
) -> (sane: Vec<String>)
    ensures
        texts(sane@) == kept_items(texts(items@), section, max_items as nat),
{
    let ghost all = texts(items@);
    let mut sane: Vec<String> = Vec::new();
    let mut i: usize = 0;
    assert(all.take(0) =~= Seq::<Seq<char>>::empty());
    assert(texts(sane@) =~= Seq::<Seq<char>>::empty());
    while i < items.len() && (max_items == 0 || sane.len() < max_items)
        invariant
            i <= items@.len(),
            all == texts(items@),
            texts(sane@) == kept_items(all.take(i as int), section, max_items as nat),
        decreases items@.len() - i,
    {
        proof {
            assert(all.take(i + 1).drop_last() =~= all.take(i as int));
        }
        match sanitize_context_text(items[i].as_str(), section) {
            None => {},
            Some(item) => {
                if !is_bad_context_item(item.as_str(), section) && !is_member(&sane, item.as_str()) {
                    let ghost before = texts(sane@);
                    sane.push(item);
                    assert(texts(sane@) =~= before.push(item@));
                }
            },
        }
        i += 1;
    }
    proof {
        if i < items.len() {
            lemma_kept_is_full(all, section, max_items as nat, i as int);
        } else {
            assert(all.take(i as int) =~= all);
        }
    }
    sane
}

/// Takes out items that do not belong, and keeps as many as the section may
/// have.
pub fn sanitize_context_items(items: &Vec<String>, section: ContextSection) -> (sane: Vec<String>)
    ensures
        texts(sane@) == kept_items(texts(items@), section, section_limit(section)),
{
    sanitize_context_items_with_limit(items, section, context_section_item_limit(section))
}

/// Whether an item only says that the system looks.
pub open spec fn is_sensor_status(item: Seq<char>) -> bool {
    let low = lowered(item);
    ||| starts(low, "i'm looking with my eye"@)
    ||| starts(low, "i am looking with my eye"@)
    ||| starts(low, "i'm looking with my camera"@)
    ||| starts(low, "i am looking with my camera"@)
}

/// Tells whether an item only says that the system looks.
pub fn is_sensor_status_context_item(item: &str) -> (r: bool)
    ensures
        r == is_sensor_status(item@),
{
    let low = to_lower(item);
    let s = low.as_str();
    starts_with(s, "i'm looking with my eye") || starts_with(s, "i am looking with my eye")
        || starts_with(s, "i'm looking with my camera")
        || starts_with(s, "i am looking with my camera")
}

/// Whether a word stands in a text by itself.
pub open spec fn mentions(text: Seq<char>, word: Seq<char>) -> bool {
    pieces(text, CharClass::NotAsciiAlphanumeric).contains(word)
}

/// Tells whether a word stands in a text by itself.
pub fn mentions_word(text: &str, word: &str) -> (r: bool)
    ensures
        r == mentions(text@, word@),
{
    let parts = split(text, CharClass::NotAsciiAlphanumeric);
    is_member(&parts, word)
}

/// Items without those that only say that the system looks.
pub open spec fn beyond_status(items: Seq<Seq<char>>) -> Seq<Seq<char>>
    decreases items.len(),
{
    if items.len() == 0 {
        Seq::empty()
    } else if is_sensor_status(items.last()) {
        beyond_status(items.drop_last())
    } else {
        beyond_status(items.drop_last()).push(items.last())
    }
}

/// The first items of a list.
pub open spec fn at_most_items(items: Seq<Seq<char>>, max: nat) -> Seq<Seq<char>> {
    if items.len() <= max {
        items
    } else {
        items.take(max as int)
    }
}

/// The first items of a list.
pub fn truncate_context_items(items: &Vec<String>, max_items: usize) -> (r: Vec<String>)
    ensures
        texts(r@) == at_most_items(texts(items@), max_items as nat),
{
    let mut r: Vec<String> = Vec::new();
    let mut i: usize = 0;
    while i < items.len() && i < max_items
        invariant
            i <= items@.len(),
            i <= max_items,
            texts(r@) == texts(items@).take(i as int),
        decreases items@.len() - i,
    {
        let ghost before = texts(r@);
        r.push(items[i].clone());
        assert(texts(r@) =~= before.push(texts(items@)[i as int]));
        assert(texts(items@).take(i + 1) =~= before.push(texts(items@)[i as int]));
        i += 1;
    }
    assert(texts(r@) =~= at_most_items(texts(items@), max_items as nat));
    r
}

/// A list with one more phrase, if it applies.
pub open spec fn with_phrase(list: Seq<Seq<char>>, applies: bool, phrase: Seq<char>) -> Seq<Seq<char>> {
    if applies {
        list.push(phrase)
    } else {
        list
    }
}

fn push_phrase(list: &mut Vec<String>, applies: bool, phrase: &str)
    ensures
        texts(final(list)@) == with_phrase(texts(old(list)@), applies, phrase@),
{
    if applies {
        list.push(phrase.to_owned());
        assert(texts(list@) =~= texts(old(list)@).push(phrase@));
    }
}

/// Phrases as an enumeration.
pub open spec fn enumerated(phrases: Seq<Seq<char>>) -> Seq<char> {
    if phrases.len() == 0 {
        Seq::empty()
    } else if phrases.len() == 1 {
        phrases[0]
    } else if phrases.len() == 2 {
        phrases[0] + " and "@ + phrases[1]
    } else {
        joined(phrases.drop_last(), ", "@) + ", and "@ + phrases.last()
    }
}

/// Phrases as an enumeration.
pub fn join_context_phrases(phrases: &Vec<String>) -> (s: String)
    ensures
        s@ == enumerated(texts(phrases@)),
{
    let n: usize = phrases.len();
    if n == 0 {
        return String::new();
    }
    if n == 1 {
        return phrases[0].clone();
    }
    if n == 2 {
        let mut s = phrases[0].clone();
        s.push_str(" and ");
        s.push_str(phrases[1].as_str());
        return s;
    }
    let front = truncate_context_items(phrases, n - 1);
    assert(texts(front@) =~= texts(phrases@).drop_last());
    let mut s = join(&front, ", ");
    s.push_str(", and ");
    s.push_str(phrases[n - 1].as_str());
    s
}

/// What a text calls the person that it speaks of.
pub open spec fn person_in(text: Seq<char>) -> Option<Seq<char>> {
    if mentions(text, "man"@) {
        Some("man"@)
    } else if mentions(text, "woman"@) {
        Some("woman"@)
    } else if mentions(text, "person"@) {
        Some("person"@)
    } else {
        None
    }
}

fn person_word(text: &str) -> (r: Option<String>)
    ensures
        optional(r) == person_in(text@),
{
    if mentions_word(text, "man") {
        Some("man".to_owned())
    } else if mentions_word(text, "woman") {
        Some("woman".to_owned())
    } else if mentions_word(text, "person") {
        Some("person".to_owned())
    } else {
        None
    }
}

/// How a text describes the person.
pub open spec fn looks_in(text: Seq<char>) -> Seq<Seq<char>> {
    let brown = occurs(text, "light brown hair"@);
    let red = occurs(text, "reddish hair"@) || occurs(text, "red hair"@);
    let hair = with_phrase(
        with_phrase(
            with_phrase(
                with_phrase(Seq::empty(), brown && red, "light brown or reddish hair"@),
                brown && !red,
                "light brown hair"@,
            ),
            !brown && red,
            "reddish hair"@,
        ),
        !brown && !red && occurs(text, "short hair"@),
        "short hair"@,
    );
    with_phrase(hair, occurs(text, "beard"@) || occurs(text, "facial hair"@), "a beard"@)
}

/// What a text says that the person does.
pub open spec fn doings_in(text: Seq<char>) -> Seq<Seq<char>> {
    with_phrase(
        with_phrase(Seq::empty(), occurs(text, "sitting"@), "sitting"@),
        occurs(text, "looking directly"@) || occurs(text, "looking ahead"@) || occurs(
            text,
            "looking toward"@,
        ),
        "looking ahead"@,
    )
}

/// What a text says is around the person.
pub open spec fn things_in(text: Seq<char>) -> Seq<Seq<char>> {
    with_phrase(
        with_phrase(
            with_phrase(
                with_phrase(
                    with_phrase(Seq::empty(), occurs(text, "bed"@), "a bed"@),
                    occurs(text, "shelf"@),
                    "a shelf"@,
                ),
                occurs(text, "jar"@),
                "jars"@,
            ),
            occurs(text, "can"@),
            "cans"@,
        ),
        occurs(text, "wire"@),
        "wires"@,
    )
}

/// One sentence on a person, from how they look, what they do and what is around
/// them.
pub open spec fn person_sentence(
    person: Seq<char>,
    looks: Seq<Seq<char>>,
    doings: Seq<Seq<char>>,
    things: Seq<Seq<char>>,
) -> Seq<char> {
    "A "@ + person + (if looks.len() == 0 {
        Seq::empty()
    } else {
        " with "@ + enumerated(looks)
    }) + (if doings.len() == 0 {
        " appears to be present"@
    } else {
        " is "@ + enumerated(doings)
    }) + (if things.len() == 0 {
        Seq::empty()
    } else {
        " near "@ + enumerated(things)
    }) + "."@
}

/// One sentence in place of several items that speak of a person.
pub open spec fn summary_of(items: Seq<Seq<char>>) -> Option<Seq<char>> {
    let text = lowered(joined(items, " "@));
    if items.len() < 2 {
        None
    } else {
        match person_in(text) {
            None => None,
            Some(person) => compacted(
                person_sentence(person, looks_in(text), doings_in(text), things_in(text)),
                140,
            ),
        }
    }
}

fn write_person_sentence(
    person: &str,
    looks: &Vec<String>,
    doings: &Vec<String>,
    things: &Vec<String>,
) -> (s: String)
    ensures
        s@ == person_sentence(person@, texts(looks@), texts(doings@), texts(things@)),
{
    let mut s = "A ".to_owned();
    s.push_str(person);
    let ghost first = s@;
    if looks.len() > 0 {
        s.push_str(" with ");
        s.push_str(join_context_phrases(looks).as_str());
        assert(s@ =~= first + (" with "@ + enumerated(texts(looks@))));
    } else {
        assert(s@ =~= first + Seq::<char>::empty());
    }
    let ghost second = s@;
    if doings.len() == 0 {
        s.push_str(" appears to be present");
    } else {
        s.push_str(" is ");
        s.push_str(join_context_phrases(doings).as_str());
        assert(s@ =~= second + (" is "@ + enumerated(texts(doings@))));
    }
    let ghost third = s@;
    if things.len() > 0 {
        s.push_str(" near ");
        s.push_str(join_context_phrases(things).as_str());
        assert(s@ =~= third + (" near "@ + enumerated(texts(things@))));
    } else {
        assert(s@ =~= third + Seq::<char>::empty());
    }
    s.push_str(".");
    s
}

/// Writes one sentence in place of several items that speak of a person.
pub fn summarize_visual_person_items(items: &Vec<String>) -> (r: Option<String>)
    ensures
        optional(r) == summary_of(texts(items@)),
{
    if items.len() < 2 {
        return None;
    }
    let combined = to_lower(join(items, " ").as_str());
    let text = combined.as_str();
    let person = match person_word(text) {
        Some(person) => person,
        None => {
            return None;
        },
    };
    let brown = contains(text, "light brown hair");
    let red = contains(text, "reddish hair") || contains(text, "red hair");
    let mut looks: Vec<String> = Vec::new();
    assert(texts(looks@) =~= Seq::<Seq<char>>::empty());
    push_phrase(&mut looks, brown && red, "light brown or reddish hair");
    push_phrase(&mut looks, brown && !red, "light brown hair");
    push_phrase(&mut looks, !brown && red, "reddish hair");
    push_phrase(&mut looks, !brown && !red && contains(text, "short hair"), "short hair");
    push_phrase(&mut looks, contains(text, "beard") || contains(text, "facial hair"), "a beard");
    let mut doings: Vec<String> = Vec::new();
    assert(texts(doings@) =~= Seq::<Seq<char>>::empty());
    push_phrase(&mut doings, contains(text, "sitting"), "sitting");
    push_phrase(
        &mut doings,
        contains(text, "looking directly") || contains(text, "looking ahead") || contains(
            text,
            "looking toward",
        ),
        "looking ahead",
    );
    let mut things: Vec<String> = Vec::new();
    assert(texts(things@) =~= Seq::<Seq<char>>::empty());
    push_phrase(&mut things, contains(text, "bed"), "a bed");
    push_phrase(&mut things, contains(text, "shelf"), "a shelf");
    push_phrase(&mut things, contains(text, "jar"), "jars");
    push_phrase(&mut things, contains(text, "can"), "cans");
    push_phrase(&mut things, contains(text, "wire"), "wires");
    let sentence = write_person_sentence(person.as_str(), &looks, &doings, &things);
    compact_text(sentence.as_str(), MAX_CONTEXT_FRAME_TEXT_CHARS)
}

/// What happens, in fewer items: those that only say that the system looks are
/// left out, unless there are no others, and those that speak of a person are
/// put into one sentence.
pub open spec fn gist(items: Seq<Seq<char>>) -> Seq<Seq<char>> {
    let telling = if beyond_status(items).len() == 0 {
        items
    } else {
        beyond_status(items)
    };
    match summary_of(telling) {
        Some(summary) => seq![summary],
        None => at_most_items(telling, 2),
    }
}

/// Tells what happens in fewer items.
pub fn compact_what_items(items: &Vec<String>) -> (r: Vec<String>)
    ensures
        texts(r@) == gist(texts(items@)),
{
    let ghost all = texts(items@);
    let mut telling: Vec<String> = Vec::new();
    let mut i: usize = 0;
    assert(all.take(0) =~= Seq::<Seq<char>>::empty());
    assert(texts(telling@) =~= Seq::<Seq<char>>::empty());
    while i < items.len()
        invariant
            i <= items@.len(),
            all == texts(items@),
            texts(telling@) == beyond_status(all.take(i as int)),
        decreases items@.len() - i,
    {
        proof {
            assert(all.take(i + 1).drop_last() =~= all.take(i as int));
        }
        let ghost before = texts(telling@);
        if !is_sensor_status_context_item(items[i].as_str()) {
            telling.push(items[i].clone());
            assert(texts(telling@) =~= before.push(all[i as int]));
        }
        i += 1;
    }
    assert(all.take(i as int) =~= all);
    assert(telling@.len() == texts(telling@).len());
    if telling.len() == 0 {
        telling = copy_texts(items);
    }
    match summarize_visual_person_items(&telling) {
        Some(summary) => {
            let mut r: Vec<String> = Vec::new();
            r.push(summary);
            assert(texts(r@) =~= seq![summary@]);
            r
        },
        None => truncate_context_items(&telling, COMPACT_CONTEXT_ITEM_LIMIT),
    }
}

/// Who takes part, by what happens.
pub open spec fn people_by(what: Seq<Seq<char>>) -> Seq<Seq<char>> {
    match person_in(lowered(joined(what, " "@))) {
        Some(person) => seq!["a "@ + person],
        None => Seq::empty(),
    }
}

/// Tells who takes part, by what happens.
pub fn infer_who_from_what(what: &Vec<String>) -> (r: Vec<String>)
    ensures
        texts(r@) == people_by(texts(what@)),
{
    let combined = to_lower(join(what, " ").as_str());
    let mut r: Vec<String> = Vec::new();
    match person_word(combined.as_str()) {
        Some(person) => {
            let mut s = "a ".to_owned();
            s.push_str(person.as_str());
            r.push(s);
            assert(texts(r@) =~= seq![s@]);
        },
        None => {
            assert(texts(r@) =~= Seq::<Seq<char>>::empty());
        },
    }
    r
}

/// Senses without sources and faces.
pub open spec fn plain_senses(items: Seq<Seq<char>>) -> Seq<Seq<char>>
    decreases items.len(),
{
    if items.len() == 0 {
        Seq::empty()
    } else if occurs(items.last(), ":"@) || items.last() == "face"@ {
        plain_senses(items.drop_last())
    } else {
        plain_senses(items.drop_last()).push(items.last())
    }
}

/// The senses: vision, if it is among them, and else the first two that are no
/// sources.
pub open spec fn senses(items: Seq<Seq<char>>) -> Seq<Seq<char>> {
    if items.contains("vision"@) {
        seq!["vision"@]
    } else {
        at_most_items(plain_senses(items), 2)
    }
}

/// Tells the senses in fewer items.
pub fn compact_how_items(items: &Vec<String>) -> (r: Vec<String>)
    ensures
        texts(r@) == senses(texts(items@)),
{
    if is_member(items, "vision") {
        let mut r: Vec<String> = Vec::new();
        r.push("vision".to_owned());
        assert(texts(r@) =~= seq!["vision"@]);
        return r;
    }
    let ghost all = texts(items@);
    let mut plain: Vec<String> = Vec::new();
    let mut i: usize = 0;
    assert(all.take(0) =~= Seq::<Seq<char>>::empty());
    assert(texts(plain@) =~= Seq::<Seq<char>>::empty());
    while i < items.len()
        invariant
            i <= items@.len(),
            all == texts(items@),
            texts(plain@) == plain_senses(all.take(i as int)),
        decreases items@.len() - i,
    {
        proof {
            assert(all.take(i + 1).drop_last() =~= all.take(i as int));
        }
        let ghost before = texts(plain@);
        let item = items[i].as_str();
        if !contains(item, ":") && !same(item, "face") {
            plain.push(items[i].clone());
            assert(texts(plain@) =~= before.push(all[i as int]));
        }
        i += 1;
    }
    assert(all.take(i as int) =~= all);
    truncate_context_items(&plain, COMPACT_CONTEXT_ITEM_LIMIT)
}

/// What is known, tidied up.
pub open spec fn tidied(f: FrameView) -> FrameView {
    let what = gist(kept_items(f.what, ContextSection::What, 4));
    let named = kept_items(f.who, ContextSection::Who, 2);
    FrameView {
        who: if named.len() == 0 {
            people_by(what)
        } else {
            named
        },
        what,
        where_: kept_items(f.where_, ContextSection::Where, 2),
        when: f.when,
        why: kept_items(f.why, ContextSection::Why, 1),
        how: senses(kept_items(f.how, ContextSection::How, 2)),
    }
}

/// Tidies up what is known.
pub fn compact_context_frame(context: &ContextFrame) -> (r: ContextFrame)
    ensures
        r@ == tidied(context@),
{
    let kept = sanitize_context_items_with_limit(&context.what, ContextSection::What, 4);
    let what = compact_what_items(&kept);
    let named = sanitize_context_items(&context.who, ContextSection::Who);
    assert(named@.len() == texts(named@).len());
    let who = if named.len() == 0 {
        infer_who_from_what(&what)
    } else {
        named
    };
    let how = sanitize_context_items(&context.how, ContextSection::How);
    ContextFrame {
        who,
        what,
        where_: sanitize_context_items(&context.where_, ContextSection::Where),
        when: context.when.clone(),
        why: sanitize_context_items(&context.why, ContextSection::Why),
        how: compact_how_items(&how),
    }
}

/// Whether the items of a list are at most so many, none twice.
pub open spec fn is_short_list(items: Seq<Seq<char>>, max: nat) -> bool {
    items.len() <= max && items.no_duplicates()
}

proof fn lemma_kept_is_short(items: Seq<Seq<char>>, section: ContextSection, max: nat)
    requires
        0 < max,
    ensures
        is_short_list(kept_items(items, section, max), max),
        forall|i: int|
            0 <= i < kept_items(items, section, max).len() ==> !is_out_of_place(
                #[trigger] kept_items(items, section, max)[i],
                section,
            ),
    decreases items.len(),
{
    if items.len() > 0 {
        lemma_kept_is_short(items.drop_last(), section, max);
    }
}

proof fn lemma_senses_are_short(items: Seq<Seq<char>>)
    ensures
        plain_senses(items).len() <= items.len(),
        senses(items).len() <= 2,
    decreases items.len(),
{
    if items.len() > 0 {
        lemma_senses_are_short(items.drop_last());
    }
}

/// Once tidied up, what is known fits: two people, events, places and senses and
/// one reason at most; and no place is a camera, an eye, an age or only what is
/// seen.
pub proof fn law_tidied_context_is_short(f: FrameView)
    ensures
        tidied(f).who.len() <= 2,
        tidied(f).what.len() <= 2,
        is_short_list(tidied(f).where_, 2),
        is_short_list(tidied(f).why, 1),
        tidied(f).how.len() <= 2,
        forall|i: int|
            0 <= i < tidied(f).where_.len() ==> !is_out_of_place(
                #[trigger] tidied(f).where_[i],
                ContextSection::Where,
            ),
{
    lemma_kept_is_short(f.who, ContextSection::Who, 2);
    lemma_kept_is_short(f.where_, ContextSection::Where, 2);
    lemma_kept_is_short(f.why, ContextSection::Why, 1);
    lemma_senses_are_short(kept_items(f.how, ContextSection::How, 2));
}

/// A text that was compacted stays as it is, also where it is only normalized.
proof fn lemma_compacted_stays(text: Seq<char>, max: nat)
    requires
        max > 0,
    ensures
        compacted(text, max) matches Some(t) ==> compacted(t, max) == Some(t) && normalized(t)
            == Some(t) && t.len() > 0,
        normalized(text) matches Some(t) ==> normalized(t) == Some(t) && t.len() > 0,
{
    let whole = collapsed(text);
    lemma_collapsed_spaced(text);
    lemma_spaced_stays(whole);
    if whole.len() > max {
        let t = whole.take(max as int).push('…');
        assert(is_spaced(t)) by {
            assert(t[0] == whole[0]);
            assert forall|i: int| 0 <= i < t.len() && is_white_space(#[trigger] t[i]) implies t[i]
                == ' ' by {
                assert(t[i] == whole[i]);
            }
            assert forall|i: int, j: int|
                0 <= i < t.len() && j == i + 1 && j < t.len() && is_white_space(
                    #[trigger] t[i],
                ) implies !is_white_space(#[trigger] t[j]) by {
                if j < max {
                    assert(t[i] == whole[i]);
                    assert(t[j] == whole[j]);
                }
            }
        }
        lemma_spaced_stays(t);
        assert(t.take(max as int).push('…') =~= t);
    }
}

/// Whether an item stays in a section as it is.
spec fn belongs(item: Seq<char>, section: ContextSection) -> bool {
    sanitized(item, section) == Some(item) && !is_out_of_place(item, section)
}

/// What is kept in a section belongs there, and is there once.
proof fn lemma_kept_belongs(items: Seq<Seq<char>>, section: ContextSection, max: nat)
    requires
        0 < max,
    ensures
        kept_items(items, section, max).len() <= max,
        kept_items(items, section, max).no_duplicates(),
        forall|i: int|
            0 <= i < kept_items(items, section, max).len() ==> belongs(
                #[trigger] kept_items(items, section, max)[i],
                section,
            ),
    decreases items.len(),
{
    lemma_kept_is_short(items, section, max);
    if items.len() > 0 {
        let rest = kept_items(items.drop_last(), section, max);
        let all = kept_items(items, section, max);
        lemma_kept_belongs(items.drop_last(), section, max);
        lemma_compacted_stays(items.last(), 140);
        assert forall|i: int| 0 <= i < all.len() implies belongs(#[trigger] all[i], section) by {
            if i < rest.len() {
                assert(all[i] == rest[i]);
            }
        }
    }
}

/// A list of what belongs, with nothing in it twice, is kept.
proof fn lemma_belonging_is_kept(list: Seq<Seq<char>>, section: ContextSection, max: nat)
    requires
        list.len() <= max,
        list.no_duplicates(),
        forall|i: int| 0 <= i < list.len() ==> belongs(#[trigger] list[i], section),
    ensures
        kept_items(list, section, max) == list,
    decreases list.len(),
{
    if list.len() > 0 {
        let front = list.drop_last();
        assert forall|i: int| 0 <= i < front.len() implies belongs(#[trigger] front[i], section) by {
            assert(front[i] == list[i]);
        }
        lemma_belonging_is_kept(front, section, max);
        let k = list.len() - 1;
        assert(belongs(list[k], section));
        assert(!front.contains(list[k])) by {
            if front.contains(list[k]) {
                let m = choose|m: int| 0 <= m < front.len() && front[m] == list[k];
                assert(list[m] == list[k]);
            }
        }
        assert(front.push(list[k]) =~= list);
    } else {
        assert(kept_items(list, section, max) =~= list);
    }
}

/// What is kept once is kept again.
proof fn lemma_kept_again(items: Seq<Seq<char>>, section: ContextSection, max: nat)
    requires
        0 < max,
    ensures
        kept_items(kept_items(items, section, max), section, max) == kept_items(
            items,
            section,
            max,
        ),
{
    lemma_kept_belongs(items, section, max);
    lemma_belonging_is_kept(kept_items(items, section, max), section, max);
}

/// The senses that are told are among those that are known.
proof fn lemma_plain_senses(items: Seq<Seq<char>>)
    ensures
        plain_senses(items).len() <= items.len(),
        items.no_duplicates() ==> plain_senses(items).no_duplicates(),
        forall|i: int|
            0 <= i < plain_senses(items).len() ==> {
                &&& items.contains(#[trigger] plain_senses(items)[i])
                &&& !occurs(plain_senses(items)[i], ":"@)
                &&& plain_senses(items)[i] != "face"@
            },
    decreases items.len(),
{
    if items.len() > 0 {
        let front = items.drop_last();
        let rest = plain_senses(front);
        let all = plain_senses(items);
        let k = items.len() - 1;
        lemma_plain_senses(front);
        assert forall|i: int| 0 <= i < all.len() implies {
            &&& items.contains(#[trigger] all[i])
            &&& !occurs(all[i], ":"@)
            &&& all[i] != "face"@
        } by {
            if i < rest.len() {
                assert(all[i] == rest[i]);
                assert(front.contains(rest[i]));
                let m = choose|m: int| 0 <= m < front.len() && front[m] == rest[i];
                assert(items[m] == all[i]);
            } else {
                assert(items[k] == all[i]);
            }
        }
        if items.no_duplicates() {
            assert(front.no_duplicates()) by {
                assert forall|x: int, y: int|
                    0 <= x < front.len() && 0 <= y < front.len() && x != y implies front[x]
                    != front[y] by {
                    assert(front[x] == items[x]);
                    assert(front[y] == items[y]);
                }
            }
            assert forall|x: int, y: int| 0 <= x < all.len() && 0 <= y < all.len() && x != y implies all[x]
                != all[y] by {
                if x < rest.len() && y < rest.len() {
                    assert(rest[x] != rest[y]);
                } else {
                    let z = if x < rest.len() {
                        x
                    } else {
                        y
                    };
                    assert(front.contains(rest[z]));
                    let m = choose|m: int| 0 <= m < front.len() && front[m] == rest[z];
                    assert(items[m] != items[k]);
                }
            }
        }
    }
}

/// Senses that are plain stay.
proof fn lemma_plain_stays(list: Seq<Seq<char>>)
    requires
        forall|i: int|
            0 <= i < list.len() ==> !occurs(#[trigger] list[i], ":"@) && list[i] != "face"@,
    ensures
        plain_senses(list) == list,
    decreases list.len(),
{
    if list.len() > 0 {
        let front = list.drop_last();
        assert forall|i: int| 0 <= i < front.len() implies !occurs(#[trigger] front[i], ":"@)
            && front[i] != "face"@ by {
            assert(front[i] == list[i]);
        }
        lemma_plain_stays(front);
        assert(list[list.len() - 1] == list.last());
        assert(front.push(list.last()) =~= list);
    } else {
        assert(plain_senses(list) =~= list);
    }
}

/// The senses told once are told again.
proof fn lemma_senses_again(items: Seq<Seq<char>>)
    ensures
        senses(kept_items(senses(kept_items(items, ContextSection::How, 2)), ContextSection::How, 2))
            == senses(kept_items(items, ContextSection::How, 2)),
{
    let section = ContextSection::How;
    let kept = kept_items(items, section, 2);
    let told = senses(kept);
    lemma_kept_belongs(items, section, 2);
    if kept.contains("vision"@) {
        let m = choose|m: int| 0 <= m < kept.len() && kept[m] == "vision"@;
        assert(belongs(kept[m], section));
        assert forall|i: int| 0 <= i < told.len() implies belongs(#[trigger] told[i], section) by {}
        lemma_belonging_is_kept(told, section, 2);
        assert(told[0] == "vision"@);
    } else {
        lemma_plain_senses(kept);
        assert(told == plain_senses(kept));
        assert forall|i: int| 0 <= i < told.len() implies belongs(#[trigger] told[i], section)
            && told[i] != "vision"@ by {
            assert(kept.contains(told[i]));
            let m = choose|m: int| 0 <= m < kept.len() && kept[m] == told[i];
            assert(belongs(kept[m], section));
        }
        lemma_belonging_is_kept(told, section, 2);
        lemma_plain_stays(told);
    }
}

/// Items that say more than that the system looks, and those that do not.
proof fn lemma_beyond_status(items: Seq<Seq<char>>)
    ensures
        beyond_status(items).len() <= items.len(),
        items.no_duplicates() ==> beyond_status(items).no_duplicates(),
        forall|i: int|
            0 <= i < beyond_status(items).len() ==> items.contains(#[trigger] beyond_status(items)[i])
                && !is_sensor_status(beyond_status(items)[i]),
        beyond_status(items).len() == 0 ==> forall|i: int|
            0 <= i < items.len() ==> is_sensor_status(#[trigger] items[i]),
    decreases items.len(),
{
    if items.len() > 0 {
        let front = items.drop_last();
        let rest = beyond_status(front);
        let all = beyond_status(items);
        let k = items.len() - 1;
        lemma_beyond_status(front);
        assert forall|i: int| 0 <= i < all.len() implies items.contains(#[trigger] all[i])
            && !is_sensor_status(all[i]) by {
            if i < rest.len() {
                assert(all[i] == rest[i]);
                assert(front.contains(rest[i]));
                let m = choose|m: int| 0 <= m < front.len() && front[m] == rest[i];
                assert(items[m] == all[i]);
            } else {
                assert(items[k] == all[i]);
            }
        }
        if all.len() == 0 {
            assert forall|i: int| 0 <= i < items.len() implies is_sensor_status(#[trigger] items[i]) by {
                if i < k {
                    assert(items[i] == front[i]);
                }
            }
        }
        if items.no_duplicates() {
            assert forall|x: int, y: int|
                0 <= x < front.len() && 0 <= y < front.len() && x != y implies front[x]
                != front[y] by {
                assert(front[x] == items[x]);
                assert(front[y] == items[y]);
            }
            assert forall|x: int, y: int| 0 <= x < all.len() && 0 <= y < all.len() && x != y implies all[x]
                != all[y] by {
                if x < rest.len() && y < rest.len() {
                    assert(rest[x] != rest[y]);
                } else {
                    let z = if x < rest.len() {
                        x
                    } else {
                        y
                    };
                    assert(front.contains(rest[z]));
                    let m = choose|m: int| 0 <= m < front.len() && front[m] == rest[z];
                    assert(items[m] != items[k]);
                }
            }
        }
    }
}

/// Items that all say more stay, and items that all say nothing are left out.
proof fn lemma_status_of(list: Seq<Seq<char>>, status: bool)
    requires
        forall|i: int| 0 <= i < list.len() ==> is_sensor_status(#[trigger] list[i]) == status,
    ensures
        beyond_status(list) == (if status {
            Seq::empty()
        } else {
            list
        }),
    decreases list.len(),
{
    if list.len() > 0 {
        let front = list.drop_last();
        assert forall|i: int| 0 <= i < front.len() implies is_sensor_status(#[trigger] front[i])
            == status by {
            assert(front[i] == list[i]);
        }
        lemma_status_of(front, status);
        assert(list[list.len() - 1] == list.last());
        assert(front.push(list.last()) =~= list);
    } else {
        assert(beyond_status(list) =~= list);
    }
}

/// A word that the first of some items mention, all of them do.
proof fn lemma_mentioned_by_more(items: Seq<Seq<char>>, n: int, word: Seq<char>)
    requires
        0 < n <= items.len(),
        mentions(lowered(joined(items.take(n), " "@)), word),
    ensures
        mentions(lowered(joined(items, " "@)), word),
    decreases items.len(),
{
    reveal_strlit(" ");
    let class = CharClass::NotAsciiAlphanumeric;
    if n == items.len() {
        assert(items.take(n) =~= items);
    } else {
        let front = items.drop_last();
        assert(front.take(n) =~= items.take(n));
        lemma_mentioned_by_more(front, n, word);
        let a = lowered(joined(front, " "@));
        let b = lowered(items.last());
        assert(" "@ =~= seq![' ']);
        assert(lowered(joined(items, " "@)) =~= a + seq![' '] + b);
        lemma_pieces_add(a, ' ', b, class);
        let parts = pieces(a, class);
        let m = choose|m: int| 0 <= m < parts.len() && parts[m] == word;
        assert((parts + pieces(b, class))[m] == word);
    }
}

/// A person of whom the first of some items speak, all of them speak of one.
proof fn lemma_person_in_more(items: Seq<Seq<char>>, n: int)
    requires
        0 < n <= items.len(),
        person_in(lowered(joined(items, " "@))) is None,
    ensures
        person_in(lowered(joined(items.take(n), " "@))) is None,
{
    let less = lowered(joined(items.take(n), " "@));
    if mentions(less, "man"@) {
        lemma_mentioned_by_more(items, n, "man"@);
    }
    if mentions(less, "woman"@) {
        lemma_mentioned_by_more(items, n, "woman"@);
    }
    if mentions(less, "person"@) {
        lemma_mentioned_by_more(items, n, "person"@);
    }
}

/// A sentence on a person begins with an article.
proof fn lemma_person_sentence(
    person: Seq<char>,
    looks: Seq<Seq<char>>,
    doings: Seq<Seq<char>>,
    things: Seq<Seq<char>>,
)
    ensures
        compacted(person_sentence(person, looks, doings, things), 140) matches Some(t) && t.len()
            > 0 && t[0] == 'A',
{
    reveal_strlit("A ");
    let sentence = person_sentence(person, looks, doings, things);
    assert(sentence.len() > 0 && sentence[0] == 'A');
    lemma_collapsed_begins(sentence);
}

/// What begins with an article is told, and is more than that the system looks.
proof fn lemma_article(item: Seq<char>)
    requires
        item.len() > 0,
        item[0] == 'A' || item[0] == 'a',
        normalized(item) == Some(item),
    ensures
        belongs(item, ContextSection::What),
        !is_sensor_status(item),
{
    reveal_strlit("i");
    reveal_strlit("i'm");
    reveal_strlit("me");
    reveal_strlit("my");
    reveal_strlit("unknown");
    reveal_strlit("i'm looking with my eye");
    reveal_strlit("i am looking with my eye");
    reveal_strlit("i'm looking with my camera");
    reveal_strlit("i am looking with my camera");
    let whole = lowered(item);
    assert(whole[0] == 'a');
    assert(!CharClass::NotWordChar.holds(whole[0]));
    lemma_begins_trimmed(whole);
    lemma_starts_otherwise(whole, "i'm looking with my eye"@);
    lemma_starts_otherwise(whole, "i am looking with my eye"@);
    lemma_starts_otherwise(whole, "i'm looking with my camera"@);
    lemma_starts_otherwise(whole, "i am looking with my camera"@);
}

/// A text does not start with another that begins with another character.
proof fn lemma_starts_otherwise(s: Seq<char>, p: Seq<char>)
    requires
        s.len() > 0,
        p.len() > 0,
        s[0] != p[0],
    ensures
        !starts(s, p),
{
    if starts(s, p) {
        assert(s.subrange(0, p.len() as int)[0] == p[0]);
    }
}

/// Trimming keeps a text that begins with a word character at its beginning.
proof fn lemma_begins_trimmed(s: Seq<char>)
    requires
        s.len() > 0,
        !CharClass::NotWordChar.holds(s[0]),
    ensures
        trimmed_of(s, CharClass::NotWordChar).len() > 0,
        trimmed_of(s, CharClass::NotWordChar)[0] == s[0],
{
    let class = CharClass::NotWordChar;
    assert(trimmed_start_of(s, class) == s);
    lemma_trimmed_end(s, class);
    let n = choose|n: int|
        0 <= n <= s.len() && #[trigger] s.take(n) == trimmed_end_of(s, class) && forall|i: int|
            n <= i < s.len() ==> class.holds(#[trigger] s[i]);
    if n == 0 {
        assert(class.holds(s[0]));
    }
}

/// What happens, told once in fewer items, is told again in the same.
proof fn lemma_gist_again(items: Seq<Seq<char>>)
    ensures
        gist(kept_items(gist(kept_items(items, ContextSection::What, 4)), ContextSection::What, 4))
            == gist(kept_items(items, ContextSection::What, 4)),
        gist(kept_items(items, ContextSection::What, 4)).len() <= 2,
{
    let section = ContextSection::What;
    let kept = kept_items(items, section, 4);
    let told = gist(kept);
    let beyond = beyond_status(kept);
    let telling = if beyond.len() == 0 {
        kept
    } else {
        beyond
    };
    lemma_kept_belongs(items, section, 4);
    lemma_beyond_status(kept);
    assert forall|i: int| 0 <= i < telling.len() implies belongs(#[trigger] telling[i], section)
        && is_sensor_status(telling[i]) == (beyond.len() == 0) by {
        if beyond.len() > 0 {
            assert(kept.contains(beyond[i]));
            let m = choose|m: int| 0 <= m < kept.len() && kept[m] == beyond[i];
            assert(belongs(kept[m], section));
        }
    }
    let text = lowered(joined(telling, " "@));
    match summary_of(telling) {
        Some(summary) => {
            let person = person_in(text)->0;
            let sentence = person_sentence(person, looks_in(text), doings_in(text), things_in(text));
            lemma_person_sentence(person, looks_in(text), doings_in(text), things_in(text));
            lemma_compacted_stays(sentence, 140);
            lemma_article(summary);
            assert(told == seq![summary]);
            assert forall|i: int| 0 <= i < told.len() implies belongs(#[trigger] told[i], section)
                && !is_sensor_status(told[i]) by {}
            lemma_belonging_is_kept(told, section, 4);
            lemma_status_of(told, false);
        },
        None => {
            assert(told == at_most_items(telling, 2));
            assert forall|i: int| 0 <= i < told.len() implies belongs(#[trigger] told[i], section)
                && is_sensor_status(told[i]) == (beyond.len() == 0) by {
                assert(told[i] == telling[i]);
            }
            assert forall|x: int, y: int|
                0 <= x < told.len() && 0 <= y < told.len() && x != y implies told[x] != told[y] by {
                assert(told[x] == telling[x]);
                assert(told[y] == telling[y]);
            }
            lemma_belonging_is_kept(told, section, 4);
            lemma_status_of(told, beyond.len() == 0);
            if telling.len() >= 2 {
                match person_in(text) {
                    Some(person) => {
                        lemma_person_sentence(
                            person,
                            looks_in(text),
                            doings_in(text),
                            things_in(text),
                        );
                    },
                    None => {
                        lemma_person_in_more(telling, 2);
                        assert(told =~= telling.take(2));
                    },
                }
            }
            assert(summary_of(told) is None);
        },
    }
}

/// A text that does not hold a character does not hold a text with it.
proof fn lemma_does_not_occur(s: Seq<char>, p: Seq<char>, at: int)
    requires
        0 <= at < p.len(),
        forall|i: int| 0 <= i < s.len() ==> #[trigger] s[i] != p[at],
    ensures
        !occurs(s, p),
{
    lemma_found(s, p);
    if occurs(s, p) {
        let j = choose|j: int| stands_at(s, p, j);
        assert(s.subrange(j, j + p.len())[at] == p[at]);
        assert(s[j + at] == p[at]);
    }
}

/// A person that is named by what happens belongs among the people.
proof fn lemma_person_belongs(person: Seq<char>)
    requires
        person == "man"@ || person == "woman"@ || person == "person"@,
    ensures
        belongs("a "@ + person, ContextSection::Who),
{
    reveal_strlit("a ");
    reveal_strlit("man");
    reveal_strlit("woman");
    reveal_strlit("person");
    reveal_strlit("camera");
    reveal_strlit("eye");
    reveal_strlit("his");
    reveal_strlit("her");
    reveal_strlit("their");
    let item = "a "@ + person;
    assert(item[0] == 'a');
    assert(is_spaced(item));
    lemma_spaced_stays(item);
    lemma_article(item);
    let low = lowered(item);
    assert(low =~= item);
    let class = CharClass::NotWordChar;
    lemma_trimmed_noop(item, class);
    assert(trimmed_of(low, class) == item);
    assert("camera"@[0] == 'c');
    assert("eye"@[1] == 'y');
    lemma_does_not_occur(item, "camera"@, 0);
    lemma_does_not_occur(item, "eye"@, 1);
    lemma_collapsed_begins(item);
    assert(words(item)[0][0] == 'a');
    assert("his"@[0] == 'h' && "her"@[0] == 'h' && "their"@[0] == 't');
}

/// Tidying up what was tidied up changes nothing, and tidying up leaves the time
/// alone.
pub proof fn law_tidied_context_stays(f: FrameView)
    ensures
        tidied(tidied(f)) == tidied(f),
        tidied(f).when == f.when,
{
    let once = tidied(f);
    let twice = tidied(once);
    lemma_gist_again(f.what);
    lemma_senses_again(f.how);
    lemma_kept_again(f.where_, ContextSection::Where, 2);
    lemma_kept_again(f.why, ContextSection::Why, 1);
    lemma_kept_again(f.who, ContextSection::Who, 2);
    let named = kept_items(f.who, ContextSection::Who, 2);
    if named.len() == 0 {
        match person_in(lowered(joined(once.what, " "@))) {
            Some(person) => {
                lemma_person_belongs(person);
                assert forall|i: int| 0 <= i < once.who.len() implies belongs(
                    #[trigger] once.who[i],
                    ContextSection::Who,
                ) by {}
                lemma_belonging_is_kept(once.who, ContextSection::Who, 2);
            },
            None => {
                assert(kept_items(once.who, ContextSection::Who, 2) =~= Seq::<Seq<char>>::empty());
            },
        }
    }
    assert(twice.who == once.who);
}

/// The last place of a character.
pub open spec fn last_place(s: Seq<char>, c: char) -> Option<int>
    decreases s.len(),
{
    if s.len() == 0 {
        None
    } else if s.last() == c {
        Some(s.len() - 1)
    } else {
        last_place(s.drop_last(), c)
    }
}

/// Where a character stands last.
pub fn find_last(s: &str, c: char) -> (r: Option<usize>)
    ensures
        match last_place(s@, c) {
            Some(n) => r == Some(n as usize) && 0 <= n < s@.len() <= usize::MAX,
            None => r is None,
        },
{
    let chars = chars_of(s);
    let mut i: usize = chars.len();
    assert(s@.take(i as int) =~= s@);
    while i > 0
        invariant
            i <= chars@.len(),
            chars@ == s@,
            chars@.len() <= usize::MAX,
            last_place(s@, c) == last_place(s@.take(i as int), c),
        decreases i,
    {
        proof {
            assert(s@.take(i as int).drop_last() =~= s@.take(i - 1));
        }
        i -= 1;
        if chars[i] == c {
            return Some(i);
        }
    }
    None
}

/// What stands from an opening bracket to the last closing one.
pub open spec fn bracketed(s: Seq<char>, at: int, close: char) -> Option<Seq<char>> {
    match last_place(s.skip(at), close) {
        Some(end) => Some(s.skip(at).take(end + 1)),
        None => None,
    }
}

/// The part of a text that may be JSON: all of it, if it begins so, and else what
/// stands between the first bracket and the last one that closes it.
pub open spec fn json_in(generated: Seq<char>) -> Option<Seq<char>> {
    let text = trimmed(generated);
    if starts(text, "{"@) || starts(text, "["@) {
        Some(text)
    } else {
        match (found(text, "{"@), found(text, "["@)) {
            (Some(object), Some(array)) => if object < array {
                bracketed(text, object, '}')
            } else {
                bracketed(text, array, ']')
            },
            (Some(object), None) => bracketed(text, object, '}'),
            (None, Some(array)) => bracketed(text, array, ']'),
            (None, None) => None,
        }
    }
}

fn cut_brackets(text: &str, at: usize, close: char) -> (r: Option<String>)
    requires
        at <= text@.len(),
    ensures
        optional(r) == bracketed(text@, at as int, close),
{
    let rest = skip(text, at);
    match find_last(rest, close) {
        Some(end) => Some(take(rest, end + 1).to_owned()),
        None => None,
    }
}

/// The part of a text that may be JSON.
pub fn extract_json(generated: &str) -> (r: Option<String>)
    ensures
        optional(r) == json_in(generated@),
{
    let text = trim(generated);
    if starts_with(text, "{") || starts_with(text, "[") {
        return Some(text.to_owned());
    }
    proof {
        crate::text::lemma_found(text@, "{"@);
        crate::text::lemma_found(text@, "["@);
    }
    match (find(text, "{"), find(text, "[")) {
        (Some(object), Some(array)) => if object < array {
            cut_brackets(text, object, '}')
        } else {
            cut_brackets(text, array, ']')
        },
        (Some(object), None) => cut_brackets(text, object, '}'),
        (None, Some(array)) => cut_brackets(text, array, ']'),
        (None, None) => None,
    }
}

/// A draft of what is known.
pub struct ContextDraft {
    /// The people.
    pub who: Vec<String>,
    /// What happens.
    pub what: Vec<String>,
    /// The place.
    pub where_: Vec<String>,
    /// The time.
    pub when: Option<String>,
    /// The reason.
    pub why: Vec<String>,
    /// The senses.
    pub how: Vec<String>,
}

/// What a [`ContextDraft`] is.
pub ghost struct DraftView {
    pub who: Seq<Seq<char>>,
    pub what: Seq<Seq<char>>,
    pub where_: Seq<Seq<char>>,
    pub when: Option<Seq<char>>,
    pub why: Seq<Seq<char>>,
    pub how: Seq<Seq<char>>,
}

impl View for ContextDraft {
    type V = DraftView;

    open spec fn view(&self) -> DraftView {
        DraftView {
            who: texts(self.who@),
            what: texts(self.what@),
            where_: texts(self.where_@),
            when: optional(self.when),
            why: texts(self.why@),
            how: texts(self.how@),
        }
    }
}

/// The strings of an array that holds nothing else.
pub open spec fn only_strings(items: Seq<JsonView>) -> Option<Seq<Seq<char>>>
    decreases items.len(),
{
    if items.len() == 0 {
        Some(Seq::empty())
    } else {
        match (only_strings(items.drop_last()), items.last()) {
            (Some(rest), JsonView::Str(s)) => Some(rest.push(s)),
            _ => None,
        }
    }
}

/// A list of strings, empty if it is missing; nothing where it is another value.
pub open spec fn list_in(v: Option<JsonView>) -> Option<Seq<Seq<char>>> {
    match v {
        None => Some(Seq::empty()),
        Some(JsonView::Array(items)) => only_strings(items),
        Some(_) => None,
    }
}

/// A string that may be missing or null; nothing where it is another value.
pub open spec fn string_in(v: Option<JsonView>) -> Option<Option<Seq<char>>> {
    match v {
        None => Some(None),
        Some(JsonView::Null) => Some(None),
        Some(JsonView::Str(s)) => Some(Some(s)),
        Some(_) => None,
    }
}

/// A draft from its six parts.
pub open spec fn draft_from(parts: Seq<Option<JsonView>>) -> Option<DraftView> {
    match (
        list_in(parts[0]),
        list_in(parts[1]),
        list_in(parts[2]),
        string_in(parts[3]),
        list_in(parts[4]),
        list_in(parts[5]),
    ) {
        (Some(who), Some(what), Some(where_), Some(when), Some(why), Some(how)) => Some(
            DraftView { who, what, where_, when, why, how },
        ),
        _ => None,
    }
}

/// A member of an array.
pub open spec fn member(items: Seq<JsonView>, i: int) -> Option<JsonView> {
    if i < items.len() {
        Some(items[i])
    } else {
        None
    }
}

/// The first that is there.
pub open spec fn either(a: Option<JsonView>, b: Option<JsonView>) -> Option<JsonView> {
    match a {
        Some(_) => a,
        None => b,
    }
}

/// The draft that a value holds: an object with its parts, of which the place may
/// have either of two names, or an array of them.
pub open spec fn draft_in(v: JsonView) -> Option<DraftView> {
    match v {
        JsonView::Object(_) => if field(v, "where"@) is Some && field(v, "where_"@) is Some {
            None
        } else {
            draft_from(
                seq![
                    field(v, "who"@),
                    field(v, "what"@),
                    either(field(v, "where"@), field(v, "where_"@)),
                    field(v, "when"@),
                    field(v, "why"@),
                    field(v, "how"@),
                ],
            )
        },
        JsonView::Array(items) => if items.len() > 6 {
            None
        } else {
            draft_from(
                seq![
                    member(items, 0),
                    member(items, 1),
                    member(items, 2),
                    member(items, 3),
                    member(items, 4),
                    member(items, 5),
                ],
            )
        },
        _ => None,
    }
}

/// The draft that an envelope holds.
pub open spec fn draft_in_envelope(v: JsonView) -> Option<DraftView> {
    match v {
        JsonView::Object(_) => match field(v, "context_frame"@) {
            Some(inner) => draft_in(inner),
            None => None,
        },
        JsonView::Array(items) => if items.len() == 1 {
            draft_in(items[0])
        } else {
            None
        },
        _ => None,
    }
}

/// The draft that a value holds, in an envelope or not.
pub open spec fn draft_of(v: JsonView) -> Option<DraftView> {
    match draft_in_envelope(v) {
        Some(draft) => Some(draft),
        None => draft_in(v),
    }
}

/// What an optional draft is.
pub open spec fn draft_view(draft: Option<ContextDraft>) -> Option<DraftView> {
    match draft {
        Some(d) => Some(d@),
        None => None,
    }
}

/// What an optional value is.
pub open spec fn value_view(v: Option<&Json>) -> Option<JsonView> {
    match v {
        Some(json) => Some(json@),
        None => None,
    }
}

fn read_list(v: Option<&Json>) -> (r: Option<Vec<String>>)
    ensures
        match list_in(value_view(v)) {
            Some(list) => r matches Some(read) && texts(read@) == list,
            None => r is None,
        },
{
    let json = match v {
        Some(json) => json,
        None => {
            let none: Vec<String> = Vec::new();
            assert(texts(none@) =~= Seq::<Seq<char>>::empty());
            return Some(none);
        },
    };
    match json {
        Json::Array(items) => {
            let ghost all = crate::json::json_items(items@);
            assert(json@->Array_0 =~= all);
            let mut list: Vec<String> = Vec::new();
            let mut i: usize = 0;
            assert(all.take(0) =~= Seq::<JsonView>::empty());
            assert(texts(list@) =~= Seq::<Seq<char>>::empty());
            while i < items.len()
                invariant
                    i <= items@.len(),
                    all == crate::json::json_items(items@),
                    list_in(value_view(v)) == only_strings(all),
                    only_strings(all.take(i as int)) == Some(texts(list@)),
                decreases items@.len() - i,
            {
                proof {
                    assert(all.take(i + 1).drop_last() =~= all.take(i as int));
                    assert(all.take(i + 1).last() == items@[i as int]@);
                }
                let ghost before = texts(list@);
                match &items[i] {
                    Json::Str(s) => {
                        list.push(s.clone());
                        assert(texts(list@) =~= before.push(s@));
                    },
                    _ => {
                        proof {
                            lemma_not_only_strings(all, i + 1);
                        }
                        return None;
                    },
                }
                i += 1;
            }
            assert(all.take(i as int) =~= all);
            Some(list)
        },
        _ => None,
    }
}

proof fn lemma_not_only_strings(items: Seq<JsonView>, n: int)
    requires
        0 <= n <= items.len(),
        only_strings(items.take(n)) is None,
    ensures
        only_strings(items) is None,
    decreases items.len() - n,
{
    if n < items.len() {
        assert(items.take(n + 1).drop_last() =~= items.take(n));
        lemma_not_only_strings(items, n + 1);
    } else {
        assert(items.take(n) =~= items);
    }
}

fn read_string(v: Option<&Json>) -> (r: Option<Option<String>>)
    ensures
        match string_in(value_view(v)) {
            Some(s) => r matches Some(read) && optional(read) == s,
            None => r is None,
        },
{
    match v {
        None => Some(None),
        Some(json) => match json {
            Json::Null => Some(None),
            Json::Str(s) => Some(Some(s.clone())),
            _ => None,
        },
    }
}

fn read_draft(
    who: Option<&Json>,
    what: Option<&Json>,
    where_: Option<&Json>,
    when: Option<&Json>,
    why: Option<&Json>,
    how: Option<&Json>,
) -> (r: Option<ContextDraft>)
    ensures
        draft_view(r) == draft_from(
            seq![
                value_view(who),
                value_view(what),
                value_view(where_),
                value_view(when),
                value_view(why),
                value_view(how),
            ],
        ),
{
    match (
        read_list(who),
        read_list(what),
        read_list(where_),
        read_string(when),
        read_list(why),
        read_list(how),
    ) {
        (Some(who), Some(what), Some(where_), Some(when), Some(why), Some(how)) => Some(
            ContextDraft { who, what, where_, when, why, how },
        ),
        _ => None,
    }
}

fn member_of<'a>(items: &'a Vec<Json>, i: usize) -> (r: Option<&'a Json>)
    ensures
        value_view(r) == member(crate::json::json_items(items@), i as int),
{
    if i < items.len() {
        Some(&items[i])
    } else {
        None
    }
}

fn find_draft(json: &Json) -> (r: Option<ContextDraft>)
    ensures
        draft_view(r) == draft_in(json@),
{
    match json {
        Json::Object(_) => {
            let first = json.get("where");
            let second = json.get("where_");
            if first.is_some() && second.is_some() {
                return None;
            }
            let place = match first {
                Some(_) => first,
                None => second,
            };
            read_draft(
                json.get("who"),
                json.get("what"),
                place,
                json.get("when"),
                json.get("why"),
                json.get("how"),
            )
        },
        Json::Array(items) => {
            assert(json@->Array_0 =~= crate::json::json_items(items@));
            if items.len() > 6 {
                return None;
            }
            read_draft(
                member_of(items, 0),
                member_of(items, 1),
                member_of(items, 2),
                member_of(items, 3),
                member_of(items, 4),
                member_of(items, 5),
            )
        },
        _ => None,
    }
}

/// The draft that a value holds, in an envelope or not.
pub fn context_draft(json: &Json) -> (r: Option<ContextDraft>)
    ensures
        draft_view(r) == draft_of(json@),
{
    let enveloped = match json {
        Json::Object(_) => match json.get("context_frame") {
            Some(inner) => find_draft(inner),
            None => None,
        },
        Json::Array(items) => {
            assert(json@->Array_0 =~= crate::json::json_items(items@));
            if items.len() == 1 {
                find_draft(&items[0])
            } else {
                None
            }
        },
        _ => None,
    };
    match enveloped {
        Some(draft) => Some(draft),
        None => find_draft(json),
    }
}

/// A list, or another if it is empty.
pub open spec fn list_or(list: Seq<Seq<char>>, other: Seq<Seq<char>>) -> Seq<Seq<char>> {
    if list.len() == 0 {
        other
    } else {
        list
    }
}

/// What is known after a draft: what belongs of it, and of what happens, why and
/// how, what was known before where it says nothing. Nothing where it says
/// nothing at all.
pub open spec fn revised(draft: DraftView, fallback: FrameView) -> Option<FrameView> {
    let who = kept_items(draft.who, ContextSection::Who, 2);
    let what = kept_items(draft.what, ContextSection::What, 2);
    let where_ = kept_items(draft.where_, ContextSection::Where, 2);
    let why = kept_items(draft.why, ContextSection::Why, 1);
    let how = kept_items(draft.how, ContextSection::How, 2);
    let when = match draft.when {
        Some(text) => match compacted(text, 140) {
            Some(short) => short,
            None => fallback.when,
        },
        None => fallback.when,
    };
    if who.len() == 0 && what.len() == 0 && where_.len() == 0 && why.len() == 0 && how.len() == 0
        && when == fallback.when {
        None
    } else {
        Some(
            tidied(
                FrameView {
                    who,
                    what: list_or(what, fallback.what),
                    where_,
                    when,
                    why: list_or(why, fallback.why),
                    how: list_or(how, fallback.how),
                },
            ),
        )
    }
}

/// What an optional frame is.
pub open spec fn frame_view(frame: Option<ContextFrame>) -> Option<FrameView> {
    match frame {
        Some(f) => Some(f@),
        None => None,
    }
}

fn given_or(list: Vec<String>, other: &Vec<String>) -> (r: Vec<String>)
    ensures
        texts(r@) == list_or(texts(list@), texts(other@)),
{
    if list.len() == 0 {
        copy_texts(other)
    } else {
        list
    }
}

/// What is known after a draft.
pub fn revised_context_frame(draft: &ContextDraft, fallback_context: &ContextFrame) -> (r: Option<
    ContextFrame,
>)
    ensures
        frame_view(r) == revised(draft@, fallback_context@),
{
    let who = sanitize_context_items(&draft.who, ContextSection::Who);
    let what = sanitize_context_items(&draft.what, ContextSection::What);
    let where_ = sanitize_context_items(&draft.where_, ContextSection::Where);
    let why = sanitize_context_items(&draft.why, ContextSection::Why);
    let how = sanitize_context_items(&draft.how, ContextSection::How);
    let when = match &draft.when {
        Some(text) => match compact_text(text.as_str(), MAX_CONTEXT_FRAME_TEXT_CHARS) {
            Some(short) => short,
            None => fallback_context.when.clone(),
        },
        None => fallback_context.when.clone(),
    };
    assert(who@.len() == texts(who@).len());
    assert(what@.len() == texts(what@).len());
    assert(where_@.len() == texts(where_@).len());
    assert(why@.len() == texts(why@).len());
    assert(how@.len() == texts(how@).len());
    if who.len() == 0 && what.len() == 0 && where_.len() == 0 && why.len() == 0 && how.len() == 0
        && same(when.as_str(), fallback_context.when.as_str()) {
        return None;
    }
    let whole = ContextFrame {
        who,
        what: given_or(what, &fallback_context.what),
        where_,
        when,
        why: given_or(why, &fallback_context.why),
        how: given_or(how, &fallback_context.how),
    };
    Some(compact_context_frame(&whole))
}

/// What is known after an answer, given what serde_json reads in it.
pub open spec fn after_answer(read: Option<JsonView>, fallback: FrameView) -> Option<FrameView> {
    match read {
        Some(json) => match draft_of(json) {
            Some(draft) => revised(draft, fallback),
            None => None,
        },
        None => None,
    }
}

/// Reads an answer: what is known after it, or nothing where it holds no draft.
pub fn parse_generated_context_frame(generated: &str, fallback_context: &ContextFrame) -> (r: Option<
    ContextFrame,
>)
    ensures
        frame_view(r) == (match json_in(generated@) {
            Some(text) => after_answer(parsed(text), fallback_context@),
            None => None,
        }),
{
    let text = match extract_json(generated) {
        Some(text) => text,
        None => {
            return None;
        },
    };
    match parse(text.as_str()) {
        Some(json) => match context_draft(&json) {
            Some(draft) => revised_context_frame(&draft, fallback_context),
            None => None,
        },
        None => None,
    }
}

/// A line on an entry of the timeline.
#[verifier::opaque]
pub open spec fn evidence_line(e: EntryView) -> Seq<char> {
    match e {
        EntryView::Sensation(s) => "- SENSATION kind="@ + s.kind + " source="@ + s.source
            + " occurred_at="@ + s.occurred_at.spec_rfc3339() + " detail="@ + prompt_string(
            json_text(s.payload),
        ) + "\n"@,
        EntryView::Impression(i) => "- IMPRESSION id="@ + hyphenated(i.id) + " kind="@ + i.kind
            + " faculty="@ + i.faculty + " confidence="@ + with_places(i.confidence, 3)
            + " occurred_at="@ + i.occurred_at.spec_rfc3339() + " text="@ + prompt_string(i.text)
            + "\n"@,
        EntryView::Experience(x) => "- EXPERIENCE id="@ + hyphenated(x.id) + " occurred_at="@
            + x.occurred_at.spec_rfc3339() + " what="@ + prompt_string(x.what) + "\n"@,
    }
}

/// Writes a line on an entry of the timeline.
pub fn format_context_frame_evidence_entry(entry: &TimelineEntry) -> (s: String)
    ensures
        s@ == evidence_line(entry@),
{
    proof {
        reveal(evidence_line);
    }
    match entry {
        TimelineEntry::Sensation(e) => {
            let mut s = "- SENSATION kind=".to_owned();
            s.push_str(e.kind.as_str());
            s.push_str(" source=");
            s.push_str(e.source.as_str());
            s.push_str(" occurred_at=");
            s.push_str(e.occurred_at.to_rfc3339().as_str());
            s.push_str(" detail=");
            s.push_str(prompt_json_string(e.payload.to_text().as_str()).as_str());
            s.push_str("\n");
            s
        },
        TimelineEntry::Impression(i) => {
            let mut s = "- IMPRESSION id=".to_owned();
            s.push_str(id_text(i.id).as_str());
            s.push_str(" kind=");
            s.push_str(i.kind.as_str());
            s.push_str(" faculty=");
            s.push_str(i.faculty.as_str());
            s.push_str(" confidence=");
            s.push_str(i.confidence.text3().as_str());
            s.push_str(" occurred_at=");
            s.push_str(i.occurred_at.to_rfc3339().as_str());
            s.push_str(" text=");
            s.push_str(prompt_json_string(i.text.as_str()).as_str());
            s.push_str("\n");
            s
        },
        TimelineEntry::Experience(x) => {
            let mut s = "- EXPERIENCE id=".to_owned();
            s.push_str(id_text(x.id).as_str());
            s.push_str(" occurred_at=");
            s.push_str(x.occurred_at.to_rfc3339().as_str());
            s.push_str(" what=");
            s.push_str(prompt_json_string(x.what.as_str()).as_str());
            s.push_str("\n");
            s
        },
    }
}

/// The lines on some entries.
pub open spec fn evidence_lines(entries: Seq<EntryView>) -> Seq<char>
    decreases entries.len(),
{
    if entries.len() == 0 {
        Seq::empty()
    } else {
        evidence_lines(entries.drop_last()) + evidence_line(entries.last())
    }
}

/// What asks for a better draft.
pub open spec fn revision_prompt(context: FrameView, entries: Seq<EntryView>) -> Seq<char> {
    REVISION_INSTRUCTIONS@ + rendered(context) + "Evidence timeline:\n"@ + evidence_lines(entries)
}

/// Asks for a better draft.
pub fn format_context_frame_prompt(context_frame: &ContextFrame, entries: &[TimelineEntry]) -> (s:
    String)
    ensures
        s@ == revision_prompt(context_frame@, entry_views(entries@)),
{
    let mut s = REVISION_INSTRUCTIONS.to_owned();
    s.push_str(context_frame.render().as_str());
    s.push_str("Evidence timeline:\n");
    let ghost start = s@;
    let ghost all = entry_views(entries@);
    let mut i: usize = 0;
    assert(all.take(0) =~= Seq::<EntryView>::empty());
    assert(start + evidence_lines(all.take(0)) =~= start);
    while i < entries.len()
        invariant
            i <= entries@.len(),
            all == entry_views(entries@),
            s@ == start + evidence_lines(all.take(i as int)),
        decreases entries@.len() - i,
    {
        proof {
            assert(all.take(i + 1).drop_last() =~= all.take(i as int));
        }
        let line = format_context_frame_evidence_entry(&entries[i]);
        let ghost written = evidence_lines(all.take(i as int));
        s.push_str(line.as_str());
        assert(start + written + line@ =~= start + (written + line@));
        i += 1;
    }
    assert(all.take(i as int) =~= all);
    s
}

/// Of items that are all different, on one line, short and in place, the first
/// are kept as they are and in their order.
pub proof fn law_first_fitting_items_are_kept(
    items: Seq<Seq<char>>,
    section: ContextSection,
    max: nat,
)
    requires
        0 < max,
        items.no_duplicates(),
        forall|i: int|
            0 <= i < items.len() ==> is_spaced(#[trigger] items[i]) && 0 < items[i].len() <= 140
                && !is_out_of_place(items[i], section),
    ensures
        items.len() <= max ==> kept_items(items, section, max) == items,
        items.len() > max ==> kept_items(items, section, max) == items.take(max as int),
    decreases items.len(),
{
    if items.len() > 0 {
        let front = items.drop_last();
        let last = items.last();
        assert forall|i: int| 0 <= i < front.len() implies is_spaced(#[trigger] front[i]) && 0
            < front[i].len() <= 140 && !is_out_of_place(front[i], section) by {
            assert(front[i] == items[i]);
        }
        law_first_fitting_items_are_kept(front, section, max);
        assert(items[items.len() - 1] == last);
        lemma_spaced_stays(last);
        assert(sanitized(last, section) == Some(last));
        if front.len() < max {
            assert(!front.contains(last));
            assert(front.push(last) =~= items);
        } else if front.len() == max {
            assert(items.take(max as int) =~= front);
        } else {
            assert(front.take(max as int) =~= items.take(max as int));
        }
    } else {
        assert(kept_items(items, section, max) =~= items);
    }
}

/// An item that only speaks of oneself, or of nothing known, belongs nowhere.
/// Besides, no item with a camera or an eye in it names people or a place. Any
/// other item tells what happens, why or how.
pub proof fn law_items_belong_to_their_sections(item: Seq<char>, section: ContextSection)
    ensures
        ({
            let low = trimmed_of(lowered(item), CharClass::NotWordChar);
            let of_oneself = low == "i"@ || low == "i'm"@ || low == "me"@ || low == "my"@ || low
                == "unknown"@;
            &&& of_oneself ==> is_out_of_place(item, section)
            &&& (section is Who || section is Where) && (occurs(low, "camera"@) || occurs(
                low,
                "eye"@,
            )) ==> is_out_of_place(item, section)
            &&& !(section is Who || section is Where) && !of_oneself ==> !is_out_of_place(
                item,
                section,
            )
        }),
{
}

/// Where vision is among the senses, it is told alone; else the first two are told
/// that are neither a face nor a source with a colon in its name.
pub proof fn law_senses_are_told(items: Seq<Seq<char>>)
    ensures
        items.contains("vision"@) ==> senses(items) == seq!["vision"@],
        !items.contains("vision"@) && (forall|i: int|
            0 <= i < items.len() ==> !occurs(#[trigger] items[i], ":"@) && items[i] != "face"@)
            ==> senses(items) == (if items.len() <= 2 {
            items
        } else {
            seq![items[0], items[1]]
        }),
{
    if forall|i: int|
        0 <= i < items.len() ==> !occurs(#[trigger] items[i], ":"@) && items[i] != "face"@ {
        lemma_plain_senses_stay(items);
        if items.len() > 2 {
            assert(items.take(2) =~= seq![items[0], items[1]]);
        }
    }
}

/// Senses that are neither faces nor sources all stay.
proof fn lemma_plain_senses_stay(items: Seq<Seq<char>>)
    requires
        forall|i: int|
            0 <= i < items.len() ==> !occurs(#[trigger] items[i], ":"@) && items[i] != "face"@,
    ensures
        plain_senses(items) == items,
    decreases items.len(),
{
    if items.len() > 0 {
        let front = items.drop_last();
        assert forall|i: int| 0 <= i < front.len() implies !occurs(#[trigger] front[i], ":"@)
            && front[i] != "face"@ by {
            assert(front[i] == items[i]);
        }
        lemma_plain_senses_stay(front);
        assert(items[items.len() - 1] == items.last());
        assert(front.push(items.last()) =~= items);
    } else {
        assert(plain_senses(items) =~= items);
    }
}

/// What happens is told by the first two items, where none of them only says that
/// the system looks and none speaks of a person.
pub proof fn law_events_are_told_in_order(items: Seq<Seq<char>>)
    requires
        forall|i: int| 0 <= i < items.len() ==> !is_sensor_status(#[trigger] items[i]),
        !mentions(lowered(joined(items, " "@)), "man"@),
        !mentions(lowered(joined(items, " "@)), "woman"@),
        !mentions(lowered(joined(items, " "@)), "person"@),
    ensures
        items.len() <= 2 ==> gist(items) == items,
        items.len() > 2 ==> gist(items) == seq![items[0], items[1]],
{
    lemma_beyond_status_stays(items);
    if items.len() > 2 {
        assert(items.take(2) =~= seq![items[0], items[1]]);
    }
}

/// Items that say more than that the system looks all stay.
proof fn lemma_beyond_status_stays(items: Seq<Seq<char>>)
    requires
        forall|i: int| 0 <= i < items.len() ==> !is_sensor_status(#[trigger] items[i]),
    ensures
        beyond_status(items) == items,
    decreases items.len(),
{
    if items.len() > 0 {
        let front = items.drop_last();
        assert forall|i: int| 0 <= i < front.len() implies !is_sensor_status(#[trigger] front[i]) by {
            assert(front[i] == items[i]);
        }
        lemma_beyond_status_stays(front);
        assert(items[items.len() - 1] == items.last());
        assert(front.push(items.last()) =~= items);
    } else {
        assert(beyond_status(items) =~= items);
    }
}

/// An enumeration tells every phrase, in order: commas stand between them, and an
/// "and" before the last.
pub proof fn law_enumeration_tells_every_phrase(a: Seq<char>, b: Seq<char>, c: Seq<char>)
    ensures
        enumerated(seq![a]) == a,
        enumerated(seq![a, b]) == a + " and "@ + b,
        enumerated(seq![a, b, c]) == a + ", "@ + b + ", and "@ + c,
{
    let three = seq![a, b, c];
    assert(three.drop_last() =~= seq![a, b]);
    assert(seq![a, b].drop_last() =~= seq![a]);
    reveal_with_fuel(joined, 3);
    assert(joined(seq![a, b], ", "@) == a + ", "@ + b);
}

/// A person whom several items speak of is told in one sentence, by what they are
/// called, how they look, what they do and what is around them, in this order.
pub proof fn law_person_is_told_in_one_sentence(
    person: Seq<char>,
    look: Seq<char>,
    doing: Seq<char>,
    thing: Seq<char>,
)
    ensures
        person_sentence(person, seq![look], seq![doing], seq![thing]) == "A "@ + person + " with "@
            + look + " is "@ + doing + " near "@ + thing + "."@,
        person_sentence(person, Seq::empty(), Seq::empty(), Seq::empty()) == "A "@ + person
            + " appears to be present"@ + "."@,
{
    assert(person_sentence(person, seq![look], seq![doing], seq![thing]) =~= "A "@ + person
        + " with "@ + look + " is "@ + doing + " near "@ + thing + "."@);
    assert(person_sentence(person, Seq::empty(), Seq::empty(), Seq::empty()) =~= "A "@ + person
        + " appears to be present"@ + "."@);
}

/// The strings of an array are read as they stand.
proof fn lemma_strings_are_read(list: Seq<Seq<char>>)
    ensures
        only_strings(list.map_values(|s: Seq<char>| JsonView::Str(s))) == Some(list),
    decreases list.len(),
{
    let items = list.map_values(|s: Seq<char>| JsonView::Str(s));
    if list.len() > 0 {
        lemma_strings_are_read(list.drop_last());
        assert(items.drop_last() =~= list.drop_last().map_values(
            |s: Seq<char>| JsonView::Str(s),
        ));
        assert(items.last() == JsonView::Str(list.last()));
        assert(list.drop_last().push(list.last()) =~= list);
    } else {
        assert(only_strings(items) == Some(Seq::<Seq<char>>::empty()));
        assert(list =~= Seq::empty());
    }
}

/// An object with lists of strings under the names of the sections is read as the
/// draft of these sections, also where it is wrapped in an envelope; a list that is
/// missing is empty.
pub proof fn law_draft_is_read_by_names(v: JsonView, d: DraftView)
    requires
        v is Object,
        field(v, "context_frame"@) is None,
        field(v, "where_"@) is None,
        match field(v, "who"@) {
            Some(w) => w == JsonView::Array(d.who.map_values(|s: Seq<char>| JsonView::Str(s))),
            None => d.who == Seq::<Seq<char>>::empty(),
        },
        match field(v, "what"@) {
            Some(w) => w == JsonView::Array(d.what.map_values(|s: Seq<char>| JsonView::Str(s))),
            None => d.what == Seq::<Seq<char>>::empty(),
        },
        match field(v, "where"@) {
            Some(w) => w == JsonView::Array(d.where_.map_values(|s: Seq<char>| JsonView::Str(s))),
            None => d.where_ == Seq::<Seq<char>>::empty(),
        },
        match field(v, "when"@) {
            Some(w) => d.when matches Some(t) && w == JsonView::Str(t),
            None => d.when is None,
        },
        match field(v, "why"@) {
            Some(w) => w == JsonView::Array(d.why.map_values(|s: Seq<char>| JsonView::Str(s))),
            None => d.why == Seq::<Seq<char>>::empty(),
        },
        match field(v, "how"@) {
            Some(w) => w == JsonView::Array(d.how.map_values(|s: Seq<char>| JsonView::Str(s))),
            None => d.how == Seq::<Seq<char>>::empty(),
        },
    ensures
        draft_of(v) == Some(d),
        draft_of(JsonView::Array(seq![v])) == Some(d),
        forall|w: JsonView| w is Object && field(w, "context_frame"@) == Some(v) ==> #[trigger]
            draft_of(w) == Some(d),
{
    lemma_strings_are_read(d.who);
    lemma_strings_are_read(d.what);
    lemma_strings_are_read(d.where_);
    lemma_strings_are_read(d.why);
    lemma_strings_are_read(d.how);
    assert(draft_in(v) == Some(d));
    assert(seq![v][0] == v);
}

/// An array of six is read as a draft with who, what, where, when, why and how, in
/// this order.
pub proof fn law_draft_is_read_by_order(d: DraftView, when: Seq<char>)
    requires
        d.when == Some(when),
    ensures
        draft_of(
            JsonView::Array(
                seq![
                    JsonView::Array(d.who.map_values(|s: Seq<char>| JsonView::Str(s))),
                    JsonView::Array(d.what.map_values(|s: Seq<char>| JsonView::Str(s))),
                    JsonView::Array(d.where_.map_values(|s: Seq<char>| JsonView::Str(s))),
                    JsonView::Str(when),
                    JsonView::Array(d.why.map_values(|s: Seq<char>| JsonView::Str(s))),
                    JsonView::Array(d.how.map_values(|s: Seq<char>| JsonView::Str(s))),
                ],
            ),
        ) == Some(d),
{
    lemma_strings_are_read(d.who);
    lemma_strings_are_read(d.what);
    lemma_strings_are_read(d.where_);
    lemma_strings_are_read(d.why);
    lemma_strings_are_read(d.how);
}

/// A place that a draft names is where things happen, and no other place; a reason
/// that it gives is the reason, and where it gives none the reason stays that was
/// known before; so does the time.
pub proof fn law_draft_takes_the_place_of_what_was_known(
    draft: DraftView,
    known: FrameView,
    place: Seq<char>,
)
    requires
        draft.where_ == seq![place],
        is_spaced(place) && 0 < place.len() <= 140,
        !is_out_of_place(place, ContextSection::Where),
        draft.why.len() <= 1,
        known.why.len() <= 1,
        forall|i: int|
            0 <= i < draft.why.len() ==> is_spaced(#[trigger] draft.why[i]) && 0
                < draft.why[i].len() <= 140 && !is_out_of_place(draft.why[i], ContextSection::Why),
        forall|i: int|
            0 <= i < known.why.len() ==> is_spaced(#[trigger] known.why[i]) && 0
                < known.why[i].len() <= 140 && !is_out_of_place(known.why[i], ContextSection::Why),
    ensures
        revised(draft, known) matches Some(f) && {
            &&& f.where_ == seq![place]
            &&& draft.why.len() > 0 ==> f.why == draft.why
            &&& draft.why.len() == 0 ==> f.why == known.why
            &&& draft.when is None ==> f.when == known.when
            &&& draft.when matches Some(t) ==> is_spaced(t) && 0 < t.len() <= 140 ==> f.when == t
        },
{
    assert(draft.where_[0] == place);
    law_first_fitting_items_are_kept(draft.where_, ContextSection::Where, 2);
    law_first_fitting_items_are_kept(draft.why, ContextSection::Why, 1);
    law_first_fitting_items_are_kept(known.why, ContextSection::Why, 1);
    if let Some(t) = draft.when {
        if is_spaced(t) {
            lemma_spaced_stays(t);
        }
    }
}

/// The last place of a character is behind all others.
pub proof fn lemma_last_place(s: Seq<char>, c: char, k: int)
    requires
        0 <= k < s.len(),
        s[k] == c,
        forall|i: int| k < i < s.len() ==> #[trigger] s[i] != c,
    ensures
        last_place(s, c) == Some(k),
    decreases s.len(),
{
    if k < s.len() - 1 {
        assert(s[s.len() - 1] != c);
        lemma_last_place(s.drop_last(), c, k);
    }
}

/// An object that an answer holds between other words, which have no brackets and
/// braces, is found.
pub proof fn law_object_is_found_among_words(before: Seq<char>, object: Seq<char>, after: Seq<char>)
    requires
        before.len() > 0 && !is_white_space(before[0]),
        after.len() > 0 && !is_white_space(after.last()),
        object.len() >= 2,
        object[0] == '{',
        object.last() == '}',
        forall|i: int| 0 <= i < before.len() ==> #[trigger] before[i] != '{' && before[i] != '[',
        forall|i: int| 0 <= i < after.len() ==> #[trigger] after[i] != '}',
    ensures
        json_in(before + object + after) == Some(object),
{
    let text = before + object + after;
    let n = before.len() as int;
    reveal_strlit("{");
    reveal_strlit("[");
    lemma_trimmed_noop(text, CharClass::WhiteSpace);
    assert(trimmed(text) == text);
    assert(text[0] == before[0]);
    lemma_found(text, "{"@);
    lemma_found(text, "["@);
    assert(text[n] == '{');
    assert(text.subrange(n, n + 1) =~= "{"@);
    assert(stands_at(text, "{"@, n));
    assert forall|j: int| 0 <= j < n implies !stands_at(text, "{"@, j) && !stands_at(
        text,
        "["@,
        j,
    ) by {
        assert(text[j] == before[j]);
        if stands_at(text, "{"@, j) {
            assert(text.subrange(j, j + 1)[0] == "{"@[0]);
        }
        if stands_at(text, "["@, j) {
            assert(text.subrange(j, j + 1)[0] == "["@[0]);
        }
    }
    assert(found(text, "{"@) == Some(n));
    if stands_at(text, "["@, n) {
        assert(text.subrange(n, n + 1)[0] == "["@[0]);
    }
    let rest = text.skip(n);
    assert(rest =~= object + after);
    lemma_last_place(rest, '}', object.len() - 1);
    assert(rest.take(object.len() as int) =~= object);
}

/// The evidence is told entry by entry, in the order of the timeline.
pub proof fn law_evidence_is_told_in_order(before: Seq<EntryView>, after: Seq<EntryView>)
    ensures
        evidence_lines(before + after) == evidence_lines(before) + evidence_lines(after),
    decreases after.len(),
{
    if after.len() == 0 {
        assert(before + after =~= before);
        assert(evidence_lines(before) + evidence_lines(after) =~= evidence_lines(before));
    } else {
        law_evidence_is_told_in_order(before, after.drop_last());
        assert((before + after).drop_last() =~= before + after.drop_last());
        assert((before + after).last() == after.last());
        assert(evidence_lines(before + after) =~= evidence_lines(before) + evidence_lines(after));
    }
}

/// The line on an entry begins with what it is and ends with its words.
pub proof fn law_evidence_tells_the_words(e: EntryView)
    ensures
        ({
            let line = evidence_line(e);
            match e {
                EntryView::Sensation(s) => {
                    &&& starts(line, "- SENSATION kind="@ + s.kind)
                    &&& ends(line, " detail="@ + prompt_string(json_text(s.payload)) + "\n"@)
                },
                EntryView::Impression(i) => {
                    &&& starts(line, "- IMPRESSION id="@ + hyphenated(i.id))
                    &&& ends(line, " text="@ + prompt_string(i.text) + "\n"@)
                },
                EntryView::Experience(x) => {
                    &&& starts(line, "- EXPERIENCE id="@ + hyphenated(x.id))
                    &&& ends(line, " what="@ + prompt_string(x.what) + "\n"@)
                },
            }
        }),
{
    reveal(evidence_line);
    let line = evidence_line(e);
    match e {
        EntryView::Sensation(s) => {
            let head = "- SENSATION kind="@ + s.kind;
            let tail = " detail="@ + prompt_string(json_text(s.payload)) + "\n"@;
            let mid = " source="@ + s.source + " occurred_at="@ + s.occurred_at.spec_rfc3339();
            lemma_ends_of_line(line, head, mid, tail);
        },
        EntryView::Impression(i) => {
            let head = "- IMPRESSION id="@ + hyphenated(i.id);
            let tail = " text="@ + prompt_string(i.text) + "\n"@;
            let mid = " kind="@ + i.kind + " faculty="@ + i.faculty + " confidence="@ + with_places(
                i.confidence,
                3,
            ) + " occurred_at="@ + i.occurred_at.spec_rfc3339();
            lemma_ends_of_line(line, head, mid, tail);
        },
        EntryView::Experience(x) => {
            let head = "- EXPERIENCE id="@ + hyphenated(x.id);
            let tail = " what="@ + prompt_string(x.what) + "\n"@;
            let mid = " occurred_at="@ + x.occurred_at.spec_rfc3339();
            lemma_ends_of_line(line, head, mid, tail);
        },
    }
}

/// A line made of three parts starts with the first and ends with the last.
proof fn lemma_ends_of_line(line: Seq<char>, head: Seq<char>, mid: Seq<char>, tail: Seq<char>)
    requires
        line =~= head + mid + tail,
    ensures
        starts(line, head),
        ends(line, tail),
{
    assert(line.subrange(0, head.len() as int) =~= head);
    assert(line.subrange(line.len() - tail.len(), line.len() as int) =~= tail);
}

} // verus!
