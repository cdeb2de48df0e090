//! A compact snapshot of a situation for a prompt.

use vstd::prelude::*;

use crate::chars::{is_letter_or_digit, is_lowercase, is_uppercase, is_white_space, lowercase, uppercase, CharClass};
use crate::decimal::{decimal, decimal_text, unsigned_upto, parse_unsigned};
use crate::ident::{has_id, Id};
use crate::impression::{Impression, ImpressionView};
use crate::json::{
    field, json_text, law_field_is_found_by_name, lemma_field_at, strings_field, strings_in, text_field,
    FieldView, Json, JsonView,
};
use crate::number::{fixed, fixed_text};
use crate::sensation::{Sensation, SensationView};
use crate::seqs::{flat, lemma_filter_none, lemma_filter_step};
use crate::text::{
    blank, chars_of, collapse, collapsed, contains, find, find_of, first_of, found, is_blank, is_spaced,
    lemma_first_of, lemma_first_of_unique, lemma_found, lemma_has_words, lemma_pieces_add,
    lemma_pieces_step, lemma_spaced_stays, lemma_trimmed_noop, lowered, occurs, optional,
    optional_texts, pieces, same, skip, split, split_words, stands_at, starts, starts_with, take, texts,
    to_lower, trim, trimmed, trimmed_start, words,
};
use crate::time::{is_local_time, local_iso, now};
use crate::timeline::{
    entry_ref_views, entry_views, EntryView, TimelineEntry, TimelineFrame,
};

verus! {

/// The items that a section of a frame holds by default.
pub const DEFAULT_CONTEXT_FRAME_ITEMS: usize = 4;

/// How many entries of the timeline are looked at for each item.
pub const CONTEXT_SCAN_MULTIPLIER: usize = 8;

/// The characters of a line of text.
pub const MAX_CONTEXT_TEXT_CHARS: usize = 96;

/// The characters of a label.
pub const MAX_CONTEXT_LABEL_CHARS: usize = 48;

/// The words that mark a prompt of the system's own.
pub const LIVE_UPDATE_MARKER: &'static str = "LIVE REAL-WORLD EXPERIENCE UPDATE FROM WITS";

/// Who is present, what happens, where, when, why and how it is known.
#[derive(Debug, PartialEq, Eq)]
pub struct ContextFrame {
    /// Who is present.
    pub who: Vec<String>,
    /// What happens.
    pub what: Vec<String>,
    /// Where it happens.
    pub where_: Vec<String>,
    /// When it happens.
    pub when: String,
    /// What it is asked for.
    pub why: Vec<String>,
    /// What it is known from.
    pub how: Vec<String>,
}

/// What a [`ContextFrame`] is.
pub ghost struct FrameView {
    pub who: Seq<Seq<char>>,
    pub what: Seq<Seq<char>>,
    pub where_: Seq<Seq<char>>,
    pub when: Seq<char>,
    pub why: Seq<Seq<char>>,
    pub how: Seq<Seq<char>>,
}

impl View for ContextFrame {
    type V = FrameView;

    open spec fn view(&self) -> FrameView {
        FrameView {
            who: texts(self.who@),
            what: texts(self.what@),
            where_: texts(self.where_@),
            when: self.when@,
            why: texts(self.why@),
            how: texts(self.how@),
        }
    }
}

impl Clone for ContextFrame {
    fn clone(&self) -> (r: ContextFrame)
        ensures
            r@ == self@,
    {
        let who = self.who.clone();
        let what = self.what.clone();
        let where_ = self.where_.clone();
        let why = self.why.clone();
        let how = self.how.clone();
        assert(who@ =~= self.who@);
        assert(what@ =~= self.what@);
        assert(where_@ =~= self.where_@);
        assert(why@ =~= self.why@);
        assert(how@ =~= self.how@);
        ContextFrame { who, what, where_, when: self.when.clone(), why, how }
    }
}

impl Default for ContextFrame {
    fn default() -> (r: ContextFrame)
        ensures
            r@ == (FrameView {
                who: Seq::empty(),
                what: Seq::empty(),
                where_: Seq::empty(),
                when: Seq::empty(),
                why: Seq::empty(),
                how: Seq::empty(),
            }),
    {
        let r = ContextFrame {
            who: Vec::new(),
            what: Vec::new(),
            where_: Vec::new(),
            when: String::new(),
            why: Vec::new(),
            how: Vec::new(),
        };
        assert(r@.who =~= Seq::<Seq<char>>::empty());
        r
    }
}

// ---------------------------------------------------------------------------
// Texts.

/// A text with its white space collapsed; nothing where it is blank.
pub open spec fn normalized(text: Seq<char>) -> Option<Seq<char>> {
    if collapsed(text).len() == 0 {
        None
    } else {
        Some(collapsed(text))
    }
}

/// A text with its white space collapsed and cut to `max` characters, with an
/// ellipsis where it was cut; nothing where it is blank.
pub open spec fn compacted(text: Seq<char>, max: nat) -> Option<Seq<char>> {
    match normalized(text) {
        None => None,
        Some(t) => if t.len() > max {
            Some(t.take(max as int).push('…'))
        } else {
            Some(t)
        },
    }
}

/// Collapses the white space of a text; nothing where it is blank.
pub fn normalize_context_text(text: &str) -> (r: Option<String>)
    ensures
        optional(r) == normalized(text@),
{
    let compact = collapse(text);
    if compact.as_str().unicode_len() == 0 {
        None
    } else {
        Some(compact)
    }
}

/// Collapses the white space of a text and cuts it to `max_chars` characters;
/// nothing where it is blank.
pub fn compact_text(text: &str, max_chars: usize) -> (r: Option<String>)
    ensures
        optional(r) == compacted(text@, max_chars as nat),
{
    match normalize_context_text(text) {
        None => None,
        Some(compact) => if compact.as_str().unicode_len() > max_chars {
            let mut short = take(compact.as_str(), max_chars).to_owned();
            short.push('…');
            Some(short)
        } else {
            Some(compact)
        },
    }
}

/// The list with one more text, unless it is none, empty, there already, or one
/// too many.
pub open spec fn with_unique(list: Seq<Seq<char>>, value: Option<Seq<char>>, max: nat) -> Seq<
    Seq<char>,
> {
    match value {
        None => list,
        Some(text) => if text.len() == 0 || list.contains(text) || list.len() >= max {
            list
        } else {
            list.push(text)
        },
    }
}

/// The list with more texts, one after another.
pub open spec fn with_each(list: Seq<Seq<char>>, values: Seq<Option<Seq<char>>>, max: nat) -> Seq<
    Seq<char>,
>
    decreases values.len(),
{
    if values.len() == 0 {
        list
    } else {
        with_unique(with_each(list, values.drop_last(), max), values.last(), max)
    }
}

/// Adds a text to a list, unless it is none, empty, there already, or one too
/// many.
pub fn push_unique(items: &mut Vec<String>, value: Option<String>, max_items: usize)
    ensures
        texts(final(items)@) == with_unique(texts(old(items)@), optional(value), max_items as nat),
{
    match value {
        None => {},
        Some(text) => {
            if text.as_str().unicode_len() == 0 || crate::text::is_member(items, text.as_str()) {
                return;
            }
            if items.len() < max_items {
                items.push(text);
                assert(texts(items@) =~= texts(old(items)@).push(text@));
            }
        },
    }
}

/// Adds texts to a list, one after another.
pub fn push_each(items: &mut Vec<String>, values: Vec<Option<String>>, max_items: usize)
    ensures
        texts(final(items)@) == with_each(
            texts(old(items)@),
            optional_texts(values@),
            max_items as nat,
        ),
{
    let ghost start = texts(items@);
    let ghost all = optional_texts(values@);
    let mut i: usize = 0;
    assert(all.take(0) =~= Seq::<Option<Seq<char>>>::empty());
    while i < values.len()
        invariant
            i <= values@.len(),
            all == optional_texts(values@),
            texts(items@) == with_each(start, all.take(i as int), max_items as nat),
        decreases values@.len() - i,
    {
        proof {
            assert(all.take(i + 1).drop_last() =~= all.take(i as int));
            assert(all.take(i + 1).last() == optional(values@[i as int]));
        }
        let value = match &values[i] {
            Some(text) => Some(text.clone()),
            None => None,
        };
        push_unique(items, value, max_items);
        i += 1;
    }
    assert(all.take(i as int) =~= all);
}

/// Whether a list has no text twice and no empty text, and at most `max`.
pub open spec fn is_tidy(list: Seq<Seq<char>>, max: nat) -> bool {
    &&& list.len() <= max
    &&& list.no_duplicates()
    &&& forall|i: int| 0 <= i < list.len() ==> (#[trigger] list[i]).len() > 0
}

/// Adding texts keeps a list tidy.
pub proof fn lemma_with_each_tidy(list: Seq<Seq<char>>, values: Seq<Option<Seq<char>>>, max: nat)
    requires
        is_tidy(list, max),
    ensures
        is_tidy(with_each(list, values, max), max),
    decreases values.len(),
{
    if values.len() > 0 {
        lemma_with_each_tidy(list, values.drop_last(), max);
    }
}

// ---------------------------------------------------------------------------
// What belongs to the world.

/// Whether a kind of sensation comes from the world outside.
pub open spec fn is_external_kind(kind: Seq<char>) -> bool {
    ||| kind == "vision"@
    ||| kind == "vision.frame"@
    ||| kind == "vision.face_crop"@
    ||| kind == "location.gps"@
    ||| kind == "location.fix"@
    ||| kind == "audio.utterance"@
    ||| kind == "audio.voice_clip"@
    ||| kind == "memory.related_experience"@
    ||| kind == "memory.voice_match"@
    ||| kind == "memory.face_match"@
    ||| starts(kind, "motion."@)
}

/// Whether a kind of sensation comes from within, or controls the system.
pub open spec fn is_internal_kind(kind: Seq<char>) -> bool {
    ||| starts(kind, "voice."@)
    ||| starts(kind, "commentator."@)
    ||| starts(kind, "mouth."@)
    ||| starts(kind, "context_frame."@)
    ||| starts(kind, "realtime_experience."@)
    ||| starts(kind, "real_time_experience."@)
    ||| starts(kind, "interface."@)
    ||| starts(kind, "ui."@)
    ||| starts(kind, "prompt."@)
    ||| starts(kind, "heartbeat."@)
    ||| starts(kind, "status."@)
    ||| starts(kind, "llm."@)
}

/// Whether a source is within, or controls the system.
pub open spec fn is_internal_source(source: Seq<char>) -> bool {
    let low = lowered(source);
    ||| low == "voice"@
    ||| low == "commentator"@
    ||| low == "mouth"@
    ||| low == "contextframe"@
    ||| low == "context_frame"@
    ||| low == "realtime_experience"@
    ||| low == "real_time_experience"@
    ||| low == "ui"@
    ||| low == "interface"@
    ||| low == "prompt"@
    ||| low == "heartbeat"@
    ||| low == "status"@
}

/// Whether a sensation is of the world.
pub open spec fn is_world_sensation(s: SensationView) -> bool {
    is_external_kind(lowered(s.kind)) || (!is_internal_kind(lowered(s.kind)) && !is_internal_source(
        s.source,
    ) && !occurs(json_text(s.payload), LIVE_UPDATE_MARKER@))
}

/// Whether an impression is of the world.
pub open spec fn is_world_impression(i: ImpressionView) -> bool {
    is_external_kind(lowered(i.kind)) || (!is_internal_kind(lowered(i.kind)) && !is_internal_source(
        i.faculty,
    ) && !occurs(i.text, LIVE_UPDATE_MARKER@) && !occurs(
        json_text(i.payload),
        LIVE_UPDATE_MARKER@,
    ))
}

/// Whether any of some identifiers is in a list.
pub open spec fn shares_id(ids: Seq<Id>, list: Seq<Id>) -> bool {
    exists|k: int| 0 <= k < ids.len() && list.contains(#[trigger] ids[k])
}

/// Whether an entry is of the world: a sensation or an impression that is, and
/// is not about what is not, or an experience.
pub open spec fn is_world_entry(e: EntryView, excluded: Seq<Id>) -> bool {
    match e {
        EntryView::Sensation(s) => is_world_sensation(s),
        EntryView::Impression(i) => !shares_id(i.about, excluded) && is_world_impression(i),
        EntryView::Experience(_) => true,
    }
}

/// The sensations among some entries that are not of the world.
pub open spec fn excluded_ids(entries: Seq<EntryView>) -> Seq<Id>
    decreases entries.len(),
{
    if entries.len() == 0 {
        Seq::empty()
    } else {
        let rest = excluded_ids(entries.drop_last());
        match entries.last() {
            EntryView::Sensation(s) => if is_world_sensation(s) {
                rest
            } else {
                rest.push(s.id)
            },
            _ => rest,
        }
    }
}

/// The entries that are of the world.
pub open spec fn world_entries(entries: Seq<EntryView>, excluded: Seq<Id>) -> Seq<EntryView> {
    entries.filter(|e: EntryView| is_world_entry(e, excluded))
}

fn is_external_context_kind(kind: &str) -> (r: bool)
    ensures
        r == is_external_kind(kind@),
{
    same(kind, "vision") || same(kind, "vision.frame") || same(kind, "vision.face_crop") || same(
        kind,
        "location.gps",
    ) || same(kind, "location.fix") || same(kind, "audio.utterance") || same(
        kind,
        "audio.voice_clip",
    ) || same(kind, "memory.related_experience") || same(kind, "memory.voice_match") || same(
        kind,
        "memory.face_match",
    ) || starts_with(kind, "motion.")
}

fn is_internal_or_control_context_kind(kind: &str) -> (r: bool)
    ensures
        r == is_internal_kind(kind@),
{
    starts_with(kind, "voice.") || starts_with(kind, "commentator.") || starts_with(kind, "mouth.")
        || starts_with(kind, "context_frame.") || starts_with(kind, "realtime_experience.")
        || starts_with(kind, "real_time_experience.") || starts_with(kind, "interface.")
        || starts_with(kind, "ui.") || starts_with(kind, "prompt.") || starts_with(
        kind,
        "heartbeat.",
    ) || starts_with(kind, "status.") || starts_with(kind, "llm.")
}

fn is_internal_or_control_context_source(source: &str) -> (r: bool)
    ensures
        r == is_internal_source(source@),
{
    let lowered = to_lower(source);
    let low = lowered.as_str();
    same(low, "voice") || same(low, "commentator") || same(low, "mouth") || same(low, "contextframe")
        || same(low, "context_frame") || same(low, "realtime_experience") || same(
        low,
        "real_time_experience",
    ) || same(low, "ui") || same(low, "interface") || same(low, "prompt") || same(low, "heartbeat")
        || same(low, "status")
}

/// Tells whether a sensation is of the world.
pub fn is_world_context_sensation(sensation: &Sensation) -> (r: bool)
    ensures
        r == is_world_sensation(sensation@),
{
    let kind = to_lower(sensation.kind.as_str());
    if is_external_context_kind(kind.as_str()) {
        return true;
    }
    !is_internal_or_control_context_kind(kind.as_str()) && !is_internal_or_control_context_source(
        sensation.source.as_str(),
    ) && !contains(sensation.payload.to_text().as_str(), LIVE_UPDATE_MARKER)
}

/// Tells whether an impression is of the world.
pub fn is_world_context_impression(impression: &Impression) -> (r: bool)
    ensures
        r == is_world_impression(impression@),
{
    let kind = to_lower(impression.kind.as_str());
    if is_external_context_kind(kind.as_str()) {
        return true;
    }
    !is_internal_or_control_context_kind(kind.as_str()) && !is_internal_or_control_context_source(
        impression.faculty.as_str(),
    ) && !contains(impression.text.as_str(), LIVE_UPDATE_MARKER) && !contains(
        impression.payload.to_text().as_str(),
        LIVE_UPDATE_MARKER,
    )
}

fn any_id(ids: &Vec<Id>, list: &Vec<Id>) -> (r: bool)
    ensures
        r == shares_id(ids@, list@),
{
    let mut k: usize = 0;
    while k < ids.len()
        invariant
            k <= ids@.len(),
            forall|j: int| 0 <= j < k ==> !list@.contains(#[trigger] ids@[j]),
        decreases ids@.len() - k,
    {
        if has_id(list, ids[k]) {
            return true;
        }
        k += 1;
    }
    false
}

/// Tells whether an entry is of the world.
pub fn is_world_context_entry(entry: &TimelineEntry, excluded_sensation_ids: &Vec<Id>) -> (r: bool)
    ensures
        r == is_world_entry(entry@, excluded_sensation_ids@),
{
    match entry {
        TimelineEntry::Sensation(s) => is_world_context_sensation(s),
        TimelineEntry::Impression(i) => !any_id(&i.about, excluded_sensation_ids)
            && is_world_context_impression(i),
        TimelineEntry::Experience(_) => true,
    }
}

/// Adds the sensations that are not of the world.
fn exclude(ids: &mut Vec<Id>, entries: &[TimelineEntry], Ghost(before): Ghost<Seq<EntryView>>)
    requires
        old(ids)@ == excluded_ids(before),
    ensures
        final(ids)@ == excluded_ids(before + entry_views(entries@)),
{
    let ghost all = entry_views(entries@);
    let mut i: usize = 0;
    assert(before + all.take(0) =~= before);
    while i < entries.len()
        invariant
            i <= entries@.len(),
            all == entry_views(entries@),
            ids@ == excluded_ids(before + all.take(i as int)),
        decreases entries@.len() - i,
    {
        let ghost longer = before + all.take(i + 1);
        proof {
            assert(longer.drop_last() =~= before + all.take(i as int));
            assert(longer.last() == entries@[i as int]@);
        }
        match &entries[i] {
            TimelineEntry::Sensation(s) => {
                if !is_world_context_sensation(s) {
                    ids.push(s.id);
                }
            },
            _ => {},
        }
        i += 1;
    }
    assert(all.take(i as int) =~= all);
}

/// The entries that are of the world.
fn keep_world<'a>(entries: &'a [TimelineEntry], excluded: &Vec<Id>) -> (list: Vec<&'a TimelineEntry>)
    ensures
        entry_ref_views(list@) == world_entries(entry_views(entries@), excluded@),
{
    let ghost all = entry_views(entries@);
    let ghost p = |e: EntryView| is_world_entry(e, excluded@);
    let mut list: Vec<&TimelineEntry> = Vec::new();
    let mut i: usize = 0;
    proof {
        lemma_filter_none(all, p);
    }
    assert(entry_ref_views(list@) =~= Seq::<EntryView>::empty());
    while i < entries.len()
        invariant
            i <= entries@.len(),
            all == entry_views(entries@),
            p == (|e: EntryView| is_world_entry(e, excluded@)),
            entry_ref_views(list@) == all.take(i as int).filter(p),
        decreases entries@.len() - i,
    {
        proof {
            lemma_filter_step(all, p, i as int);
        }
        if is_world_context_entry(&entries[i], excluded) {
            let ghost before = list@;
            list.push(&entries[i]);
            assert(entry_ref_views(list@) =~= entry_ref_views(before).push(all[i as int]));
        }
        i += 1;
    }
    proof {
        lemma_filter_none(all, p);
    }
    list
}

/// Whether an entry with an identifier is in a list.
pub open spec fn holds_id(entries: Seq<EntryView>, id: Id) -> bool {
    exists|i: int| 0 <= i < entries.len() && (#[trigger] entries[i]).id() == id
}

/// The list with those further entries whose identifiers are not in it.
pub open spec fn with_new(list: Seq<EntryView>, more: Seq<EntryView>) -> Seq<EntryView>
    decreases more.len(),
{
    if more.len() == 0 {
        list
    } else {
        let rest = with_new(list, more.drop_last());
        if holds_id(rest, more.last().id()) {
            rest
        } else {
            rest.push(more.last())
        }
    }
}

/// The entries of a window from the last to the first, then those recent ones
/// that are not in it.
pub open spec fn prioritized(window: Seq<EntryView>, recent: Seq<EntryView>) -> Seq<EntryView> {
    with_new(window.reverse(), recent.reverse())
}

fn has_entry(entries: &Vec<&TimelineEntry>, id: Id) -> (r: bool)
    ensures
        r == holds_id(entry_ref_views(entries@), id),
{
    let mut i: usize = 0;
    while i < entries.len()
        invariant
            i <= entries@.len(),
            forall|k: int| 0 <= k < i ==> (#[trigger] entry_ref_views(entries@)[k]).id() != id,
        decreases entries@.len() - i,
    {
        assert(entry_ref_views(entries@)[i as int] == entries@[i as int]@);
        if entries[i].id() == id {
            return true;
        }
        i += 1;
    }
    false
}

/// The entries of a window from the last to the first, then those recent ones
/// that are not in it.
fn prioritized_entries<'a>(
    window: &Vec<&'a TimelineEntry>,
    recent_entries: &Vec<&'a TimelineEntry>,
) -> (entries: Vec<&'a TimelineEntry>)
    ensures
        entry_ref_views(entries@) == prioritized(
            entry_ref_views(window@),
            entry_ref_views(recent_entries@),
        ),
{
    let ghost w = entry_ref_views(window@);
    let ghost backward = entry_ref_views(recent_entries@).reverse();
    let mut entries: Vec<&TimelineEntry> = Vec::new();
    let mut i: usize = window.len();
    assert(entry_ref_views(entries@) =~= w.reverse().take(0));
    while i > 0
        invariant
            i <= window@.len(),
            w == entry_ref_views(window@),
            entry_ref_views(entries@) == w.reverse().take(window@.len() - i),
        decreases i,
    {
        i -= 1;
        let ghost before = entries@;
        entries.push(window[i]);
        assert(entry_ref_views(entries@) =~= entry_ref_views(before).push(w[i as int]));
        assert(w.reverse().take(window@.len() - i) =~= w.reverse().take(
            window@.len() - i - 1,
        ).push(w[i as int]));
    }
    assert(w.reverse().take(window@.len() as int) =~= w.reverse());
    let mut k: usize = recent_entries.len();
    assert(backward.take(0) =~= Seq::<EntryView>::empty());
    while k > 0
        invariant
            k <= recent_entries@.len(),
            w == entry_ref_views(window@),
            backward == entry_ref_views(recent_entries@).reverse(),
            entry_ref_views(entries@) == with_new(
                w.reverse(),
                backward.take(recent_entries@.len() - k),
            ),
        decreases k,
    {
        k -= 1;
        let ghost done = recent_entries@.len() - k;
        proof {
            assert(backward.take(done).drop_last() =~= backward.take(done - 1));
            assert(backward.take(done).last() == recent_entries@[k as int]@);
        }
        if !has_entry(&entries, recent_entries[k].id()) {
            let ghost before = entries@;
            entries.push(recent_entries[k]);
            assert(entry_ref_views(entries@) =~= entry_ref_views(before).push(
                recent_entries@[k as int]@,
            ));
        }
    }
    assert(backward.take(recent_entries@.len() as int) =~= backward);
    entries
}

// ---------------------------------------------------------------------------
// What an entry says of a situation.

/// The words that start with a capital letter and are no names.
pub open spec fn is_common_word(token: Seq<char>) -> bool {
    ||| token == "A"@
    ||| token == "An"@
    ||| token == "The"@
    ||| token == "I"@
    ||| token == "I'm"@
    ||| token == "Me"@
    ||| token == "My"@
    ||| token == "Someone"@
    ||| token == "Something"@
    ||| token == "Unknown"@
    ||| token == "Faculty"@
    ||| token == "Experience"@
    ||| token == "Experiences"@
    ||| token == "Memory"@
    ||| token == "Room"@
    ||| token == "System"@
}

/// Whether a word looks like the name of a person: a capital letter, a small one
/// somewhere behind it, and no common word.
pub open spec fn is_name(token: Seq<char>) -> bool {
    &&& token.len() > 0
    &&& is_uppercase(token[0])
    &&& exists|i: int| 1 <= i < token.len() && is_lowercase(#[trigger] token[i])
    &&& !is_common_word(token)
}

/// A word as a candidate for a person.
pub open spec fn named_person(token: Seq<char>) -> Option<Seq<char>> {
    if is_name(token) {
        compacted(token, 48)
    } else {
        None
    }
}

/// The people that a text names.
pub open spec fn people_in(text: Seq<char>) -> Seq<Option<Seq<char>>> {
    pieces(text, CharClass::NotNameChar).map_values(|token: Seq<char>| named_person(token))
}

/// The people that an optional text names.
pub open spec fn people_in_optional(text: Option<Seq<char>>) -> Seq<Option<Seq<char>>> {
    match text {
        Some(t) => people_in(t),
        None => Seq::empty(),
    }
}

/// A text as a label.
pub open spec fn label(text: Seq<char>) -> Option<Seq<char>> {
    compacted(text, 48)
}

/// An optional text as a label.
pub open spec fn optional_label(text: Option<Seq<char>>) -> Option<Seq<char>> {
    match text {
        Some(t) => label(t),
        None => None,
    }
}

/// Texts as labels.
pub open spec fn labels(list: Seq<Seq<char>>) -> Seq<Option<Seq<char>>> {
    list.map_values(|t: Seq<char>| label(t))
}

/// The people that a payload lists.
pub open spec fn people_of(payload: JsonView) -> Seq<Option<Seq<char>>> {
    labels(strings_field(payload, "participants"@)) + labels(strings_field(payload, "people"@))
        + labels(strings_field(payload, "names"@)) + seq![
        optional_label(text_field(payload, "participant"@)),
        optional_label(text_field(payload, "person"@)),
        optional_label(text_field(payload, "speaker"@)),
        optional_label(text_field(payload, "name"@)),
        optional_label(text_field(payload, "who"@)),
    ]
}

/// Who an entry speaks of.
pub open spec fn who_of(e: EntryView) -> Seq<Option<Seq<char>>> {
    match e {
        EntryView::Sensation(s) => people_of(s.payload) + people_in_optional(
            text_field(s.payload, "text"@),
        ) + (if s.kind == "memory.related_experience"@ {
            people_in_optional(text_field(s.payload, "what"@))
        } else {
            Seq::empty()
        }),
        EntryView::Impression(i) => people_of(i.payload) + people_in(i.text),
        EntryView::Experience(x) => people_in(x.what),
    }
}

/// An optional text without needless white space.
pub open spec fn optional_normalized(text: Option<Seq<char>>) -> Option<Seq<char>> {
    match text {
        Some(t) => normalized(t),
        None => None,
    }
}

/// What an entry says.
pub open spec fn what_of(e: EntryView) -> Seq<Option<Seq<char>>> {
    match e {
        EntryView::Experience(x) => seq![normalized(x.what)],
        EntryView::Impression(i) => seq![normalized(i.text)],
        EntryView::Sensation(s) => if s.kind == "memory.related_experience"@ {
            seq![optional_normalized(text_field(s.payload, "what"@))]
        } else {
            seq![optional_normalized(text_field(s.payload, "text"@))]
        },
    }
}

/// Whether a phrase gives somebody's age, such as `his early 40s`.
pub open spec fn is_age_band(phrase: Seq<char>) -> bool {
    let w = words(phrase);
    &&& w.len() >= 3
    &&& w[0] == "his"@ || w[0] == "her"@ || w[0] == "their"@
    &&& w[1] == "early"@ || w[1] == "mid"@ || w[1] == "late"@
    &&& w[2].len() > 0
    &&& w[2].last() == 's'
    &&& unsigned_upto(w[2].drop_last(), 255) is Some
}

/// Whether a phrase speaks of an age or of the system's own eye, not of a place.
pub open spec fn is_age_or_body(phrase: Seq<char>) -> bool {
    let low = lowered(phrase);
    ||| low == "my eye"@
    ||| low == "my camera"@
    ||| low == "the eye"@
    ||| low == "the camera"@
    ||| starts(low, "my eye "@)
    ||| starts(low, "my camera "@)
    ||| starts(low, "the eye "@)
    ||| starts(low, "the camera "@)
    ||| is_age_band(low)
}

/// The phrase that follows the first `marker` in a text, up to a mark of
/// punctuation; none where it is empty or no place.
pub open spec fn place_after(text: Seq<char>, marker: Seq<char>) -> Option<Seq<char>> {
    match found(lowered(text), marker) {
        None => None,
        Some(at) => {
            let tail = trimmed(text.skip(at + marker.len()));
            let phrase = trimmed(tail.take(first_of(tail, CharClass::PhraseBreak) as int));
            if phrase.len() == 0 || is_age_or_body(phrase) {
                None
            } else {
                Some(phrase)
            }
        },
    }
}

/// The place that a text speaks of.
pub open spec fn place_in(text: Seq<char>) -> Option<Seq<char>> {
    match place_after(text, " in "@) {
        Some(place) => Some(place),
        None => place_after(text, " at "@),
    }
}

/// The first of some fields that is a string.
pub open spec fn first_text_field(payload: JsonView, keys: Seq<Seq<char>>) -> Option<Seq<char>>
    decreases keys.len(),
{
    if keys.len() == 0 {
        None
    } else {
        match text_field(payload, keys[0]) {
            Some(text) => Some(text),
            None => first_text_field(payload, keys.skip(1)),
        }
    }
}

/// The fields of a payload that name a place, by rank.
pub open spec fn place_fields() -> Seq<Seq<char>> {
    seq!["room"@, "location"@, "place"@, "where"@, "label"@]
}

/// The place that a payload names.
pub open spec fn place_of(payload: JsonView) -> Option<Seq<char>> {
    optional_label(first_text_field(payload, place_fields()))
}

/// A coordinate among the fields of a payload.
pub open spec fn coordinate_field(payload: JsonView, key: Seq<char>) -> Option<Seq<char>> {
    match field(payload, key) {
        Some(JsonView::Number(n)) => fixed(n, 4),
        _ => None,
    }
}

/// The position that a payload gives.
pub open spec fn fix_of(payload: JsonView) -> Option<Seq<char>> {
    match (coordinate_field(payload, "lat"@), coordinate_field(payload, "lon"@)) {
        (Some(lat), Some(lon)) => label("lat="@ + lat + ", lon="@ + lon),
        _ => None,
    }
}

/// The place that a text speaks of, as a label.
pub open spec fn place_label(text: Seq<char>) -> Option<Seq<char>> {
    optional_label(place_in(text))
}

/// Where an entry speaks of.
pub open spec fn where_of(e: EntryView) -> Seq<Option<Seq<char>>> {
    match e {
        EntryView::Sensation(s) => seq![
            place_of(s.payload),
            if s.kind == "location.fix"@ && place_of(s.payload) is None {
                fix_of(s.payload)
            } else {
                None
            },
            match text_field(s.payload, "text"@) {
                Some(text) => place_label(text),
                None => None,
            },
        ],
        EntryView::Impression(i) => seq![place_of(i.payload), place_label(i.text)],
        EntryView::Experience(x) => seq![place_label(x.what)],
    }
}

/// What an entry is known from.
pub open spec fn how_of(e: EntryView) -> Seq<Option<Seq<char>>> {
    match e {
        EntryView::Sensation(s) => labels(s.provenance.faculty_chain).push(label(s.source)),
        EntryView::Impression(i) => seq![
            if is_blank(i.faculty) {
                label(i.kind)
            } else {
                label(i.faculty)
            },
        ],
        EntryView::Experience(_) => Seq::empty(),
    }
}

/// A section of a frame that entries fill.
#[derive(Clone, Copy, PartialEq, Eq, Structural, Debug)]
pub enum Section {
    /// Who is present.
    Who,
    /// What happens.
    What,
    /// Where it happens.
    Where,
    /// What it is known from.
    How,
}

/// What an entry offers to a section.
pub open spec fn offers(section: Section, e: EntryView) -> Seq<Option<Seq<char>>> {
    match section {
        Section::Who => who_of(e),
        Section::What => what_of(e),
        Section::Where => where_of(e),
        Section::How => how_of(e),
    }
}

/// What a section holds after some entries.
pub open spec fn filled(section: Section, entries: Seq<EntryView>, max: nat) -> Seq<Seq<char>>
    decreases entries.len(),
{
    if entries.len() == 0 {
        Seq::empty()
    } else {
        with_each(filled(section, entries.drop_last(), max), offers(section, entries.last()), max)
    }
}

fn is_common(token: &str) -> (r: bool)
    ensures
        r == is_common_word(token@),
{
    same(token, "A") || same(token, "An") || same(token, "The") || same(token, "I") || same(
        token,
        "I'm",
    ) || same(token, "Me") || same(token, "My") || same(token, "Someone") || same(
        token,
        "Something",
    ) || same(token, "Unknown") || same(token, "Faculty") || same(token, "Experience") || same(
        token,
        "Experiences",
    ) || same(token, "Memory") || same(token, "Room") || same(token, "System")
}

/// Tells whether a word looks like the name of a person.
pub fn looks_like_person_name(token: &str) -> (r: bool)
    ensures
        r == is_name(token@),
{
    let chars = chars_of(token);
    if chars.len() == 0 || !uppercase(chars[0]) {
        return false;
    }
    let mut i: usize = 1;
    while i < chars.len()
        invariant
            1 <= i <= chars@.len(),
            chars@ == token@,
            is_uppercase(token@[0]),
            forall|k: int| 1 <= k < i ==> !is_lowercase(#[trigger] token@[k]),
        decreases chars@.len() - i,
    {
        if lowercase(chars[i]) {
            assert(is_lowercase(token@[i as int]));
            return !is_common(token);
        }
        i += 1;
    }
    false
}

/// Adds the people that a text names.
pub fn collect_people_from_text(out: &mut Vec<Option<String>>, text: &str)
    ensures
        optional_texts(final(out)@) == optional_texts(old(out)@) + people_in(text@),
{
    let tokens = split(text, CharClass::NotNameChar);
    let ghost start = optional_texts(out@);
    let ghost all = people_in(text@);
    let mut i: usize = 0;
    assert(start + all.take(0) =~= start);
    while i < tokens.len()
        invariant
            i <= tokens@.len(),
            texts(tokens@) == pieces(text@, CharClass::NotNameChar),
            all == people_in(text@),
            optional_texts(out@) == start + all.take(i as int),
        decreases tokens@.len() - i,
    {
        let token = tokens[i].as_str();
        assert(texts(tokens@)[i as int] == token@);
        assert(all[i as int] == named_person(token@));
        let value = if looks_like_person_name(token) {
            compact_text(token, MAX_CONTEXT_LABEL_CHARS)
        } else {
            None
        };
        let ghost before = out@;
        out.push(value);
        assert(optional_texts(out@) =~= optional_texts(before).push(all[i as int]));
        assert(start + all.take(i + 1) =~= (start + all.take(i as int)).push(all[i as int]));
        i += 1;
    }
    assert(all.take(i as int) =~= all);
}

/// Adds one candidate.
fn offer(out: &mut Vec<Option<String>>, value: Option<String>)
    ensures
        optional_texts(final(out)@) == optional_texts(old(out)@).push(optional(value)),
{
    out.push(value);
    assert(optional_texts(out@) =~= optional_texts(old(out)@).push(optional(value)));
}

/// Adds texts as labels.
fn offer_labels(out: &mut Vec<Option<String>>, list: &Vec<String>)
    ensures
        optional_texts(final(out)@) == optional_texts(old(out)@) + labels(texts(list@)),
{
    let ghost start = optional_texts(out@);
    let ghost all = labels(texts(list@));
    let mut i: usize = 0;
    assert(start + all.take(0) =~= start);
    while i < list.len()
        invariant
            i <= list@.len(),
            all == labels(texts(list@)),
            optional_texts(out@) == start + all.take(i as int),
        decreases list@.len() - i,
    {
        assert(all[i as int] == label(list@[i as int]@));
        offer(out, compact_text(list[i].as_str(), MAX_CONTEXT_LABEL_CHARS));
        assert(start + all.take(i + 1) =~= (start + all.take(i as int)).push(all[i as int]));
        i += 1;
    }
    assert(all.take(i as int) =~= all);
}

/// A field that is a string, as a label.
fn label_field(payload: &Json, key: &str) -> (r: Option<String>)
    ensures
        optional(r) == optional_label(text_field(payload@, key@)),
{
    match payload.str_field(key) {
        Some(text) => compact_text(text, MAX_CONTEXT_LABEL_CHARS),
        None => None,
    }
}

/// Adds the people that a payload lists.
pub fn collect_people_from_payload(out: &mut Vec<Option<String>>, payload: &Json)
    ensures
        optional_texts(final(out)@) == optional_texts(old(out)@) + people_of(payload@),
{
    offer_labels(out, &payload.strings_in_field("participants"));
    offer_labels(out, &payload.strings_in_field("people"));
    offer_labels(out, &payload.strings_in_field("names"));
    offer(out, label_field(payload, "participant"));
    offer(out, label_field(payload, "person"));
    offer(out, label_field(payload, "speaker"));
    offer(out, label_field(payload, "name"));
    offer(out, label_field(payload, "who"));
    assert(optional_texts(out@) =~= optional_texts(old(out)@) + people_of(payload@));
}

/// Adds the people that an entry speaks of.
pub fn collect_people_from_entry(out: &mut Vec<Option<String>>, entry: &TimelineEntry)
    ensures
        optional_texts(final(out)@) == optional_texts(old(out)@) + who_of(entry@),
{
    match entry {
        TimelineEntry::Sensation(s) => {
            collect_people_from_payload(out, &s.payload);
            if let Some(text) = s.payload.str_field("text") {
                collect_people_from_text(out, text);
            }
            if same(s.kind.as_str(), "memory.related_experience") {
                if let Some(text) = s.payload.str_field("what") {
                    collect_people_from_text(out, text);
                }
            }
        },
        TimelineEntry::Impression(i) => {
            collect_people_from_payload(out, &i.payload);
            collect_people_from_text(out, i.text.as_str());
        },
        TimelineEntry::Experience(x) => {
            collect_people_from_text(out, x.what.as_str());
        },
    }
    assert(optional_texts(out@) =~= optional_texts(old(out)@) + who_of(entry@));
}

/// Tells whether a phrase gives somebody's age.
pub fn is_possessive_age_band(phrase: &str) -> (r: bool)
    ensures
        r == is_age_band(phrase@),
{
    let w = split_words(phrase);
    if w.len() < 3 {
        return false;
    }
    assert(texts(w@)[0] == w@[0]@ && texts(w@)[1] == w@[1]@ && texts(w@)[2] == w@[2]@);
    let whose = w[0].as_str();
    let when = w[1].as_str();
    let decade = w[2].as_str();
    if !(same(whose, "his") || same(whose, "her") || same(whose, "their")) {
        return false;
    }
    if !(same(when, "early") || same(when, "mid") || same(when, "late")) {
        return false;
    }
    let chars = chars_of(decade);
    let n: usize = chars.len();
    if n == 0 || chars[n - 1] != 's' {
        return false;
    }
    let digits = take(decade, n - 1);
    assert(digits@ =~= decade@.drop_last());
    parse_unsigned(digits, 255).is_some()
}

/// Tells whether a phrase speaks of an age or of the system's own eye.
pub fn looks_like_age_or_body_phrase(phrase: &str) -> (r: bool)
    ensures
        r == is_age_or_body(phrase@),
{
    let lowered = to_lower(phrase);
    let low = lowered.as_str();
    same(low, "my eye") || same(low, "my camera") || same(low, "the eye") || same(low, "the camera")
        || starts_with(low, "my eye ") || starts_with(low, "my camera ") || starts_with(
        low,
        "the eye ",
    ) || starts_with(low, "the camera ") || is_possessive_age_band(low)
}

fn location_after(text: &str, marker: &str) -> (r: Option<String>)
    ensures
        optional(r) == place_after(text@, marker@),
{
    let lowered = to_lower(text);
    match find(lowered.as_str(), marker) {
        None => None,
        Some(at) => {
            proof {
                lemma_found(lowered@, marker@);
            }
            let width: usize = marker.unicode_len();
            let len: usize = text.unicode_len();
            let tail = trim(skip(text, at + width));
            let end: usize = find_of(tail, CharClass::PhraseBreak);
            proof {
                lemma_first_of(tail@, CharClass::PhraseBreak);
            }
            let phrase = trim(take(tail, end));
            if phrase.unicode_len() == 0 || looks_like_age_or_body_phrase(phrase) {
                None
            } else {
                Some(phrase.to_owned())
            }
        },
    }
}

/// The place that a text speaks of: what follows `in` or `at`.
pub fn extract_location_from_text(text: &str) -> (r: Option<String>)
    ensures
        optional(r) == place_in(text@),
{
    match location_after(text, " in ") {
        Some(place) => Some(place),
        None => location_after(text, " at "),
    }
}

/// The place that a payload names.
pub fn extract_location_from_payload(payload: &Json) -> (r: Option<String>)
    ensures
        optional(r) == place_of(payload@),
{
    let ghost keys = place_fields();
    proof {
        assert(keys.skip(1)[0] == "location"@);
        assert(keys.skip(1).skip(1)[0] == "place"@);
        assert(keys.skip(1).skip(1).skip(1)[0] == "where"@);
        assert(keys.skip(1).skip(1).skip(1).skip(1)[0] == "label"@);
        reveal_with_fuel(first_text_field, 6);
    }
    if let Some(text) = payload.str_field("room") {
        return compact_text(text, MAX_CONTEXT_LABEL_CHARS);
    }
    if let Some(text) = payload.str_field("location") {
        return compact_text(text, MAX_CONTEXT_LABEL_CHARS);
    }
    if let Some(text) = payload.str_field("place") {
        return compact_text(text, MAX_CONTEXT_LABEL_CHARS);
    }
    if let Some(text) = payload.str_field("where") {
        return compact_text(text, MAX_CONTEXT_LABEL_CHARS);
    }
    if let Some(text) = payload.str_field("label") {
        return compact_text(text, MAX_CONTEXT_LABEL_CHARS);
    }
    None
}

fn coordinate_in(payload: &Json, key: &str) -> (r: Option<String>)
    ensures
        optional(r) == coordinate_field(payload@, key@),
{
    match payload.get(key) {
        Some(Json::Number(n)) => fixed_text(n.as_str(), 4),
        _ => None,
    }
}

/// The text of a position, with its coordinates written out.
pub fn fix_text(lat: &str, lon: &str) -> (s: String)
    ensures
        s@ == "lat="@ + lat@ + ", lon="@ + lon@,
{
    let mut s = "lat=".to_owned();
    s.push_str(lat);
    s.push_str(", lon=");
    s.push_str(lon);
    s
}

/// The position that a payload gives.
pub fn format_location_fix(payload: &Json) -> (r: Option<String>)
    ensures
        optional(r) == fix_of(payload@),
{
    match (coordinate_in(payload, "lat"), coordinate_in(payload, "lon")) {
        (Some(lat), Some(lon)) => compact_text(
            fix_text(lat.as_str(), lon.as_str()).as_str(),
            MAX_CONTEXT_LABEL_CHARS,
        ),
        _ => None,
    }
}

fn location_label(text: &str) -> (r: Option<String>)
    ensures
        optional(r) == place_label(text@),
{
    match extract_location_from_text(text) {
        Some(place) => compact_text(place.as_str(), MAX_CONTEXT_LABEL_CHARS),
        None => None,
    }
}

/// What an entry offers to a section.
fn offered(section: Section, entry: &TimelineEntry) -> (out: Vec<Option<String>>)
    ensures
        optional_texts(out@) == offers(section, entry@),
{
    let mut out: Vec<Option<String>> = Vec::new();
    let ghost none = optional_texts(out@);
    assert(none =~= Seq::<Option<Seq<char>>>::empty());
    match section {
        Section::Who => {
            collect_people_from_entry(&mut out, entry);
            assert(none + who_of(entry@) =~= who_of(entry@));
        },
        Section::What => {
            match entry {
                TimelineEntry::Experience(x) => {
                    offer(&mut out, normalize_context_text(x.what.as_str()));
                },
                TimelineEntry::Impression(i) => {
                    offer(&mut out, normalize_context_text(i.text.as_str()));
                },
                TimelineEntry::Sensation(s) => {
                    let key = if same(s.kind.as_str(), "memory.related_experience") {
                        "what"
                    } else {
                        "text"
                    };
                    let value = match s.payload.str_field(key) {
                        Some(text) => normalize_context_text(text),
                        None => None,
                    };
                    offer(&mut out, value);
                },
            }
            assert(optional_texts(out@) =~= what_of(entry@));
        },
        Section::Where => {
            match entry {
                TimelineEntry::Sensation(s) => {
                    let place = extract_location_from_payload(&s.payload);
                    let fix = if same(s.kind.as_str(), "location.fix") && place.is_none() {
                        format_location_fix(&s.payload)
                    } else {
                        None
                    };
                    let said = match s.payload.str_field("text") {
                        Some(text) => location_label(text),
                        None => None,
                    };
                    offer(&mut out, place);
                    offer(&mut out, fix);
                    offer(&mut out, said);
                },
                TimelineEntry::Impression(i) => {
                    offer(&mut out, extract_location_from_payload(&i.payload));
                    offer(&mut out, location_label(i.text.as_str()));
                },
                TimelineEntry::Experience(x) => {
                    offer(&mut out, location_label(x.what.as_str()));
                },
            }
            assert(optional_texts(out@) =~= where_of(entry@));
        },
        Section::How => {
            match entry {
                TimelineEntry::Sensation(s) => {
                    offer_labels(&mut out, &s.provenance.faculty_chain);
                    offer(&mut out, compact_text(s.source.as_str(), MAX_CONTEXT_LABEL_CHARS));
                },
                TimelineEntry::Impression(i) => {
                    let known = if blank(i.faculty.as_str()) {
                        i.kind.as_str()
                    } else {
                        i.faculty.as_str()
                    };
                    offer(&mut out, compact_text(known, MAX_CONTEXT_LABEL_CHARS));
                },
                TimelineEntry::Experience(_) => {},
            }
            assert(optional_texts(out@) =~= how_of(entry@));
        },
    }
    out
}

/// Fills a section from entries, in turn.
fn collect(section: Section, entries: &Vec<&TimelineEntry>, max_items: usize) -> (items: Vec<String>)
    ensures
        texts(items@) == filled(section, entry_ref_views(entries@), max_items as nat),
{
    let ghost all = entry_ref_views(entries@);
    let mut items: Vec<String> = Vec::new();
    let mut i: usize = 0;
    assert(all.take(0) =~= Seq::<EntryView>::empty());
    assert(texts(items@) =~= Seq::<Seq<char>>::empty());
    while i < entries.len()
        invariant
            i <= entries@.len(),
            all == entry_ref_views(entries@),
            texts(items@) == filled(section, all.take(i as int), max_items as nat),
        decreases entries@.len() - i,
    {
        proof {
            assert(all.take(i + 1).drop_last() =~= all.take(i as int));
            assert(all.take(i + 1).last() == entries@[i as int]@);
        }
        push_each(&mut items, offered(section, entries[i]), max_items);
        i += 1;
    }
    assert(all.take(i as int) =~= all);
    items
}

/// Whether a memory is among some entries.
pub open spec fn recalls(entries: Seq<EntryView>) -> bool {
    exists|i: int|
        0 <= i < entries.len() && ((#[trigger] entries[i]) matches EntryView::Sensation(s) && s.kind
            == "memory.related_experience"@)
}

/// What a frame is asked for.
pub open spec fn why_of(window: Seq<EntryView>, max: nat) -> Seq<Seq<char>> {
    with_each(
        Seq::empty(),
        seq![
            compacted("Understand what appears to be happening right now."@, 96),
            if recalls(window) {
                compacted("Use related memory as supporting evidence."@, 96)
            } else {
                None
            },
        ],
        max,
    )
}

fn collect_why(window: &Vec<&TimelineEntry>, max_items: usize) -> (items: Vec<String>)
    ensures
        texts(items@) == why_of(entry_ref_views(window@), max_items as nat),
{
    let ghost all = entry_ref_views(window@);
    let mut recalled = false;
    let mut i: usize = 0;
    while i < window.len() && !recalled
        invariant
            i <= window@.len(),
            all == entry_ref_views(window@),
            recalled ==> recalls(all),
            !recalled ==> forall|k: int|
                0 <= k < i ==> !((#[trigger] all[k]) matches EntryView::Sensation(s) && s.kind
                    == "memory.related_experience"@),
        decreases window@.len() - i,
    {
        match window[i] {
            TimelineEntry::Sensation(s) => {
                if same(s.kind.as_str(), "memory.related_experience") {
                    assert(all[i as int] == window@[i as int]@);
                    recalled = true;
                }
            },
            _ => {},
        }
        i += 1;
    }
    let mut values: Vec<Option<String>> = Vec::new();
    values.push(
        compact_text("Understand what appears to be happening right now.", MAX_CONTEXT_TEXT_CHARS),
    );
    values.push(
        if recalled {
            compact_text("Use related memory as supporting evidence.", MAX_CONTEXT_TEXT_CHARS)
        } else {
            None
        },
    );
    let mut items: Vec<String> = Vec::new();
    assert(texts(items@) =~= Seq::<Seq<char>>::empty());
    assert(optional_texts(values@) =~= seq![
        compacted("Understand what appears to be happening right now."@, 96),
        if recalls(all) {
            compacted("Use related memory as supporting evidence."@, 96)
        } else {
            None
        },
    ]);
    push_each(&mut items, values, max_items);
    items
}

/// How the time of a window is put: its ends as local times, its length and the
/// number of its entries.
pub open spec fn when_line(from: Seq<char>, to: Seq<char>, ms: nat, count: nat) -> Seq<char> {
    from + " to "@ + to + " ("@ + decimal(ms) + " ms, "@ + decimal(count) + " entries)"@
}

/// The length of a window, in milliseconds; nothing where it goes back.
pub open spec fn window_millis(window: Seq<EntryView>) -> nat {
    let ms = window.last().occurred_at().spec_millis_since(window[0].occurred_at());
    if ms < 0 {
        0
    } else {
        ms as nat
    }
}

/// Whether a text tells the time of a window, by the local times of its ends.
pub open spec fn tells_when(when: Seq<char>, window: Seq<EntryView>) -> bool {
    if window.len() == 0 {
        when == "no active timeline window"@
    } else {
        exists|from: Seq<char>, to: Seq<char>|
            is_local_time(from, window[0].occurred_at()@) && is_local_time(
                to,
                window.last().occurred_at()@,
            ) && Some(when) == compacted(
                #[trigger] when_line(from, to, window_millis(window), window.len()),
                96,
            )
    }
}

/// The time of a window, by the local times of its ends.
pub fn when_text(from: &str, to: &str, ms: u64, count: usize) -> (s: String)
    ensures
        Some(s@) == compacted(when_line(from@, to@, ms as nat, count as nat), 96),
{
    let mut line = from.to_owned();
    line.push_str(" to ");
    line.push_str(to);
    line.push_str(" (");
    line.push_str(decimal_text(ms as u128).as_str());
    line.push_str(" ms, ");
    line.push_str(decimal_text(count as u128).as_str());
    line.push_str(" entries)");
    proof {
        reveal_strlit(" entries)");
        lemma_has_words(line@, line@.len() - 1);
    }
    match compact_text(line.as_str(), MAX_CONTEXT_TEXT_CHARS) {
        Some(s) => s,
        None => line,
    }
}

/// The time of a window.
fn format_when(window: &Vec<&TimelineEntry>) -> (s: String)
    ensures
        tells_when(s@, entry_ref_views(window@)),
{
    if window.len() == 0 {
        return "no active timeline window".to_owned();
    }
    let ghost all = entry_ref_views(window@);
    let n: usize = window.len();
    let first = window[0].occurred_at();
    let last = window[n - 1].occurred_at();
    assert(all[0] == window@[0]@);
    assert(all.last() == window@[n - 1]@);
    let between: i64 = last.millis_since(&first);
    let ms: u64 = if between < 0 {
        0
    } else {
        between as u64
    };
    let from = local_iso(first);
    let to = local_iso(last);
    let s = when_text(from.as_str(), to.as_str(), ms, n);
    assert(Some(s@) == compacted(when_line(from@, to@, window_millis(all), all.len()), 96));
    s
}

/// The entries that a frame of `max` items is made of: those of the world, in
/// the window and among the most recent of the timeline.
pub open spec fn scanned(frame: Seq<EntryView>, window: Seq<EntryView>, max: nat) -> Seq<EntryView> {
    let n = if window.len() < max * 8 {
        max * 8
    } else {
        window.len()
    };
    frame.skip(if frame.len() <= n {
        0
    } else {
        frame.len() - n
    })
}

/// Whether a frame is the snapshot of a window of a timeline, with at least one
/// and at most `max` items in each section.
pub open spec fn is_snapshot(
    context: FrameView,
    frame: Seq<EntryView>,
    window: Seq<EntryView>,
    max_items: nat,
) -> bool {
    let max = if max_items < 1 {
        1
    } else {
        max_items
    };
    let recent = scanned(frame, window, max);
    let excluded = excluded_ids(window + recent);
    let near = world_entries(window, excluded);
    let order = prioritized(near, world_entries(recent, excluded));
    &&& context.who == filled(Section::Who, order, max)
    &&& context.what == filled(Section::What, order, max)
    &&& context.where_ == filled(Section::Where, order, max)
    &&& tells_when(context.when, near)
    &&& context.why == why_of(near, max)
    &&& context.how == filled(Section::How, order, max)
}

/// A section with its label: one line for each item, or one that says that
/// nothing is known.
pub open spec fn section_text(label: Seq<char>, items: Seq<Seq<char>>) -> Seq<char> {
    label + seq!['\n'] + (if items.len() == 0 {
        "- unknown\n\n"@
    } else {
        item_lines(items) + seq!['\n']
    })
}

/// A line for each item.
pub open spec fn item_lines(items: Seq<Seq<char>>) -> Seq<char>
    decreases items.len(),
{
    if items.len() == 0 {
        Seq::empty()
    } else {
        item_lines(items.drop_last()) + "- "@ + items.last() + seq!['\n']
    }
}

/// A frame as text.
pub open spec fn rendered(f: FrameView) -> Seq<char> {
    section_text("WHO"@, f.who) + section_text("WHAT"@, f.what) + section_text("WHERE"@, f.where_)
        + "WHEN\n"@ + "- "@ + f.when + "\n\n"@ + section_text("WHY"@, f.why) + section_text(
        "HOW"@,
        f.how,
    )
}

/// Adds a section to a text.
pub fn push_section(rendered: &mut String, label: &str, items: &Vec<String>)
    ensures
        final(rendered)@ == old(rendered)@ + section_text(label@, texts(items@)),
{
    let ghost start = rendered@;
    rendered.push_str(label);
    rendered.push('\n');
    if items.len() == 0 {
        rendered.push_str("- unknown\n\n");
        assert(rendered@ =~= start + section_text(label@, texts(items@)));
        return;
    }
    let ghost head = rendered@;
    let ghost all = texts(items@);
    let mut i: usize = 0;
    assert(all.take(0) =~= Seq::<Seq<char>>::empty());
    assert(head + item_lines(all.take(0)) =~= head);
    while i < items.len()
        invariant
            i <= items@.len(),
            all == texts(items@),
            rendered@ == head + item_lines(all.take(i as int)),
        decreases items@.len() - i,
    {
        proof {
            assert(all.take(i + 1).drop_last() =~= all.take(i as int));
            assert(all.take(i + 1).last() == items@[i as int]@);
        }
        rendered.push_str("- ");
        rendered.push_str(items[i].as_str());
        rendered.push('\n');
        assert(rendered@ =~= head + item_lines(all.take(i + 1)));
        i += 1;
    }
    assert(all.take(i as int) =~= all);
    rendered.push('\n');
    assert(rendered@ =~= start + section_text(label@, texts(items@)));
}

impl ContextFrame {
    /// The snapshot of a window of a timeline.
    pub fn from_timeline(frame: &TimelineFrame, window: &[TimelineEntry], max_items: usize) -> (r:
        ContextFrame)
        ensures
            is_snapshot(r@, frame@, entry_views(window@), max_items as nat),
    {
        let max: usize = if max_items < 1 {
            1
        } else {
            max_items
        };
        let many: usize = match max.checked_mul(CONTEXT_SCAN_MULTIPLIER) {
            Some(n) => n,
            None => frame.len(),
        };
        let limit: usize = if window.len() < many {
            many
        } else {
            window.len()
        };
        let all_recent = frame.recent_entries(limit);
        let ghost w = entry_views(window@);
        let ghost r = entry_views(all_recent@);
        assert(r == scanned(frame@, w, max as nat));
        let mut excluded: Vec<Id> = Vec::new();
        exclude(&mut excluded, window, Ghost(Seq::empty()));
        assert(Seq::<EntryView>::empty() + w =~= w);
        exclude(&mut excluded, all_recent, Ghost(w));
        let near = keep_world(window, &excluded);
        let recent = keep_world(all_recent, &excluded);
        let order = prioritized_entries(&near, &recent);
        ContextFrame {
            who: collect(Section::Who, &order, max),
            what: collect(Section::What, &order, max),
            where_: collect(Section::Where, &order, max),
            when: format_when(&near),
            why: collect_why(&near, max),
            how: collect(Section::How, &order, max),
        }
    }

    /// The frame as text.
    pub fn render(&self) -> (s: String)
        ensures
            s@ == rendered(self@),
    {
        let mut s = String::new();
        push_section(&mut s, "WHO", &self.who);
        push_section(&mut s, "WHAT", &self.what);
        push_section(&mut s, "WHERE", &self.where_);
        s.push_str("WHEN\n");
        s.push_str("- ");
        s.push_str(self.when.as_str());
        s.push_str("\n\n");
        push_section(&mut s, "WHY", &self.why);
        push_section(&mut s, "HOW", &self.how);
        assert(s@ =~= rendered(self@));
        s
    }
}

/// No section of a frame has more items than asked for, one item twice, or an
/// empty item.
pub proof fn law_sections_are_bounded_and_distinct(
    context: FrameView,
    frame: Seq<EntryView>,
    window: Seq<EntryView>,
    max_items: nat,
)
    requires
        is_snapshot(context, frame, window, max_items),
    ensures
        ({
            let max = if max_items < 1 {
                1
            } else {
                max_items
            };
            &&& is_tidy(context.who, max)
            &&& is_tidy(context.what, max)
            &&& is_tidy(context.where_, max)
            &&& is_tidy(context.why, max)
            &&& is_tidy(context.how, max)
        }),
{
    let max = if max_items < 1 {
        1
    } else {
        max_items
    };
    let recent = scanned(frame, window, max);
    let excluded = excluded_ids(window + recent);
    let near = world_entries(window, excluded);
    let order = prioritized(near, world_entries(recent, excluded));
    lemma_filled_tidy(Section::Who, order, max);
    lemma_filled_tidy(Section::What, order, max);
    lemma_filled_tidy(Section::Where, order, max);
    lemma_filled_tidy(Section::How, order, max);
    let none = Seq::<Seq<char>>::empty();
    assert(is_tidy(none, max));
    let asked = seq![
        compacted("Understand what appears to be happening right now."@, 96),
        if recalls(near) {
            compacted("Use related memory as supporting evidence."@, 96)
        } else {
            None
        },
    ];
    lemma_with_each_tidy(none, asked, max);
}

/// A section is tidy.
proof fn lemma_filled_tidy(section: Section, entries: Seq<EntryView>, max: nat)
    ensures
        is_tidy(filled(section, entries, max), max),
    decreases entries.len(),
{
    if entries.len() > 0 {
        lemma_filled_tidy(section, entries.drop_last(), max);
        lemma_with_each_tidy(
            filled(section, entries.drop_last(), max),
            offers(section, entries.last()),
            max,
        );
    }
}

/// What comes from within the system, or controls it, is no part of a frame: no
/// entry that a frame is made of, whether of the window or of the recent ones, is
/// such a sensation, such an impression, or an impression about such a sensation.
pub proof fn law_internal_entries_are_left_out(
    window: Seq<EntryView>,
    recent: Seq<EntryView>,
    entries: Seq<EntryView>,
    i: int,
)
    requires
        entries == window || entries == recent,
        0 <= i < world_entries(entries, excluded_ids(window + recent)).len(),
    ensures
        match world_entries(entries, excluded_ids(window + recent))[i] {
            EntryView::Sensation(s) => is_world_sensation(s),
            EntryView::Impression(p) => is_world_impression(p) && forall|k: int, m: int|
                0 <= k < p.about.len() && 0 <= m < (window + recent).len() && (#[trigger] (window
                    + recent)[m]).id() == #[trigger] p.about[k] ==> ((window
                    + recent)[m] matches EntryView::Sensation(s) ==> is_world_sensation(s)),
            EntryView::Experience(_) => true,
        },
{
    let all = window + recent;
    let excluded = excluded_ids(all);
    let test = |e: EntryView| is_world_entry(e, excluded);
    entries.lemma_filter_pred(test, i);
    let e = world_entries(entries, excluded)[i];
    if let EntryView::Impression(p) = e {
        assert forall|k: int, m: int|
            0 <= k < p.about.len() && 0 <= m < all.len() && (#[trigger] all[m]).id()
                == #[trigger] p.about[k] && all[m] is Sensation implies is_world_sensation(
            all[m]->Sensation_0,
        ) by {
            if !is_world_sensation(all[m]->Sensation_0) {
                lemma_excluded(all, m);
                assert(excluded.contains(p.about[k]));
            }
        }
    }
}

/// A sensation that is not of the world is excluded.
proof fn lemma_excluded(entries: Seq<EntryView>, m: int)
    requires
        0 <= m < entries.len(),
        entries[m] matches EntryView::Sensation(s) && !is_world_sensation(s),
    ensures
        excluded_ids(entries).contains(entries[m].id()),
    decreases entries.len(),
{
    let rest = entries.drop_last();
    let list = excluded_ids(entries);
    if m == entries.len() - 1 {
        assert(list[list.len() - 1] == entries[m].id());
    } else {
        assert(rest[m] == entries[m]);
        lemma_excluded(rest, m);
        let shorter = excluded_ids(rest);
        let k = choose|k: int| 0 <= k < shorter.len() && shorter[k] == entries[m].id();
        assert(list[k] == shorter[k]);
    }
}

/// Nothing is excluded where every sensation is of the world.
proof fn lemma_none_excluded(entries: Seq<EntryView>)
    requires
        forall|m: int|
            0 <= m < entries.len() ==> ((#[trigger] entries[m]) matches EntryView::Sensation(s)
                ==> is_world_sensation(s)),
    ensures
        excluded_ids(entries) == Seq::<Id>::empty(),
    decreases entries.len(),
{
    if entries.len() > 0 {
        let rest = entries.drop_last();
        assert forall|m: int| 0 <= m < rest.len() implies ((
        #[trigger] rest[m]) matches EntryView::Sensation(s) ==> is_world_sensation(s)) by {
            assert(rest[m] == entries[m]);
        }
        lemma_none_excluded(rest);
        assert(entries[entries.len() - 1] == entries.last());
    }
}

/// A list whose members all pass stays as it is.
proof fn lemma_filter_all(entries: Seq<EntryView>, excluded: Seq<Id>)
    requires
        forall|m: int| 0 <= m < entries.len() ==> is_world_entry(#[trigger] entries[m], excluded),
    ensures
        world_entries(entries, excluded) == entries,
    decreases entries.len(),
{
    let test = |e: EntryView| is_world_entry(e, excluded);
    reveal(Seq::filter);
    if entries.len() > 0 {
        let rest = entries.drop_last();
        assert forall|m: int| 0 <= m < rest.len() implies is_world_entry(
            #[trigger] rest[m],
            excluded,
        ) by {
            assert(rest[m] == entries[m]);
        }
        lemma_filter_all(rest, excluded);
        assert(test(entries[entries.len() - 1]));
        assert(entries.filter(test) =~= rest.filter(test).push(entries.last()));
        assert(world_entries(entries, excluded) =~= entries);
    } else {
        assert(world_entries(entries, excluded) =~= entries);
    }
}

/// What was found to be of the world is so where nothing is excluded.
proof fn lemma_world_stays(entries: Seq<EntryView>, excluded: Seq<Id>)
    ensures
        world_entries(world_entries(entries, excluded), Seq::empty()) == world_entries(
            entries,
            excluded,
        ),
        forall|m: int|
            0 <= m < world_entries(entries, excluded).len() ==> ((#[trigger] world_entries(
                entries,
                excluded,
            )[m]) matches EntryView::Sensation(s) ==> is_world_sensation(s)),
{
    let test = |e: EntryView| is_world_entry(e, excluded);
    let kept = world_entries(entries, excluded);
    let none = Seq::<Id>::empty();
    assert forall|m: int| 0 <= m < kept.len() implies is_world_entry(#[trigger] kept[m], none)
        && is_world_entry(kept[m], excluded) by {
        entries.lemma_filter_pred(test, m);
        assert(test(kept[m]));
        if let EntryView::Impression(p) = kept[m] {
            assert(!shares_id(p.about, none));
        }
    }
    lemma_filter_all(kept, none);
}

/// What comes from within the system, or controls it, makes no difference: a frame
/// of a timeline that is scanned as a whole is the same without the sensations and
/// impressions that are not of the world, and without the impressions about such
/// sensations, in the window and in the timeline.
pub proof fn law_internal_entries_make_no_difference(
    context: FrameView,
    frame: Seq<EntryView>,
    window: Seq<EntryView>,
    max_items: nat,
)
    requires
        frame.len() <= 8 * (if max_items < 1 {
            1
        } else {
            max_items
        }),
    ensures
        ({
            let excluded = excluded_ids(window + frame);
            is_snapshot(context, frame, window, max_items) == is_snapshot(
                context,
                world_entries(frame, excluded),
                world_entries(window, excluded),
                max_items,
            )
        }),
{
    let max = if max_items < 1 {
        1
    } else {
        max_items
    };
    let excluded = excluded_ids(window + frame);
    let near = world_entries(window, excluded);
    let far = world_entries(frame, excluded);
    let test = |e: EntryView| is_world_entry(e, excluded);
    frame.lemma_filter_len(test);
    assert(scanned(frame, window, max) =~= frame);
    assert(scanned(far, near, max) =~= far);
    lemma_world_stays(window, excluded);
    lemma_world_stays(frame, excluded);
    let both = near + far;
    assert forall|m: int| 0 <= m < both.len() implies ((
    #[trigger] both[m]) matches EntryView::Sensation(s) ==> is_world_sensation(s)) by {
        if m < near.len() {
            assert(both[m] == near[m]);
        } else {
            assert(both[m] == far[m - near.len()]);
        }
    }
    lemma_none_excluded(both);
}

/// A position without a named place is told with its latitude first and its
/// longitude behind it, each to four places, under its own name; that is all that
/// is known of where it was.
pub proof fn law_position_is_told_by_latitude_and_longitude(
    s: SensationView,
    fields: Seq<FieldView>,
    i: int,
    j: int,
    lat: Seq<char>,
    lon: Seq<char>,
    a: Seq<char>,
    b: Seq<char>,
    context: FrameView,
    max_items: nat,
)
    requires
        s.kind == "location.fix"@,
        s.payload == JsonView::Object(fields),
        0 <= i < fields.len(),
        0 <= j < fields.len(),
        fields[i].name == "lat"@,
        fields[i].value == JsonView::Number(lat),
        fields[j].name == "lon"@,
        fields[j].value == JsonView::Number(lon),
        forall|p: int, q: int|
            0 <= p < q < fields.len() ==> (#[trigger] fields[p]).name != (
            #[trigger] fields[q]).name,
        forall|p: int| #![trigger fields[p]]
            0 <= p < fields.len() ==> fields[p].name != "room"@ && fields[p].name != "location"@
                && fields[p].name != "place"@ && fields[p].name != "where"@ && fields[p].name
                != "label"@ && fields[p].name != "text"@,
        fixed(lat, 4) == Some(a),
        fixed(lon, 4) == Some(b),
        forall|p: int| 0 <= p < a.len() ==> !is_white_space(#[trigger] a[p]),
        forall|p: int| 0 <= p < b.len() ==> !is_white_space(#[trigger] b[p]),
        a.len() + b.len() <= 38,
        is_snapshot(
            context,
            seq![EntryView::Sensation(s)],
            seq![EntryView::Sensation(s)],
            max_items,
        ),
    ensures
        context.where_ == seq!["lat="@ + a + ", lon="@ + b],
{
    let e = EntryView::Sensation(s);
    let told = "lat="@ + a + ", lon="@ + b;
    lemma_field_at(fields, i);
    lemma_field_at(fields, j);
    law_field_is_found_by_name(fields, "room"@);
    law_field_is_found_by_name(fields, "location"@);
    law_field_is_found_by_name(fields, "place"@);
    law_field_is_found_by_name(fields, "where"@);
    law_field_is_found_by_name(fields, "label"@);
    law_field_is_found_by_name(fields, "text"@);
    let keys = place_fields();
    assert(keys.skip(1)[0] == "location"@);
    assert(keys.skip(1).skip(1)[0] == "place"@);
    assert(keys.skip(1).skip(1).skip(1)[0] == "where"@);
    assert(keys.skip(1).skip(1).skip(1).skip(1)[0] == "label"@);
    reveal_with_fuel(first_text_field, 6);
    assert(place_of(s.payload) is None);
    lemma_fix_text_is_spaced(a, b);
    lemma_spaced_stays(told);
    assert(told.len() > 0 && told.len() <= 48);
    assert(fix_of(s.payload) == Some(told));
    let empty = Option::<Seq<char>>::None;
    assert(where_of(e) =~= seq![empty, Some(told), empty]);
    reveal_strlit("location.fix");
    assert(lowered(s.kind) =~= s.kind);
    assert(is_world_sensation(s));
    let max = if max_items < 1 {
        1
    } else {
        max_items
    };
    let one = seq![e];
    let recent = scanned(one, one, max);
    assert(recent =~= one);
    let both = one + one;
    assert forall|m: int| 0 <= m < both.len() implies ((
    #[trigger] both[m]) matches EntryView::Sensation(t) ==> is_world_sensation(t)) by {
        assert(both[m] == e);
    }
    lemma_none_excluded(both);
    let none = Seq::<Id>::empty();
    assert forall|m: int| 0 <= m < one.len() implies is_world_entry(#[trigger] one[m], none) by {}
    lemma_filter_all(one, none);
    assert(one.reverse() =~= one);
    assert(prioritized(one, one) =~= one) by {
        reveal_with_fuel(with_new, 2);
        assert(one.drop_last() =~= Seq::<EntryView>::empty());
        assert(one[0].id() == one.last().id());
    }
    assert(context.where_ == filled(Section::Where, one, max));
    assert(one.drop_last() =~= Seq::<EntryView>::empty());
    reveal_with_fuel(filled, 2);
    let nothing = Seq::<Seq<char>>::empty();
    let list = seq![empty, Some(told), empty];
    assert(list.drop_last() =~= seq![empty, Some(told)]);
    assert(list.drop_last().drop_last() =~= seq![empty]);
    assert(seq![empty].drop_last() =~= Seq::<Option<Seq<char>>>::empty());
    reveal_with_fuel(with_each, 4);
    assert(with_each(nothing, list, max) =~= seq![told]);
}

proof fn lemma_fix_text_is_spaced(a: Seq<char>, b: Seq<char>)
    requires
        forall|p: int| 0 <= p < a.len() ==> !is_white_space(#[trigger] a[p]),
        forall|p: int| 0 <= p < b.len() ==> !is_white_space(#[trigger] b[p]),
    ensures
        is_spaced("lat="@ + a + ", lon="@ + b),
        ("lat="@ + a + ", lon="@ + b).len() == 10 + a.len() + b.len(),
{
    reveal_strlit("lat=");
    reveal_strlit(", lon=");
    let t = "lat="@ + a + ", lon="@ + b;
    let n = a.len() as int;
    assert("lat="@.len() == 4);
    assert(", lon="@.len() == 6);
    assert forall|p: int| 0 <= p < t.len() && p != n + 5 implies !is_white_space(#[trigger] t[p]) by {
        if p < 4 {
            assert(t[p] == "lat="@[p]);
        } else if p < 4 + n {
            assert(t[p] == a[p - 4]);
        } else if p < 10 + n {
            assert(t[p] == ", lon="@[p - 4 - n]);
        } else {
            assert(t[p] == b[p - 10 - n]);
        }
    }
    assert(t[n + 5] == ", lon="@[1]);
}

/// What a section already holds stays in its place when more is offered.
proof fn lemma_with_each_keeps(list: Seq<Seq<char>>, values: Seq<Option<Seq<char>>>, max: nat)
    ensures
        list.len() <= with_each(list, values, max).len(),
        with_each(list, values, max).take(list.len() as int) == list,
        forall|k: int| #![trigger values[k]]
            0 <= k < values.len() && values[k] is Some && values[k]->0.len() > 0 ==> with_each(
                list,
                values,
                max,
            ).contains(values[k]->0) || with_each(list, values, max).len() >= max,
        forall|m: int|
            list.len() <= m < with_each(list, values, max).len() ==> exists|k: int|
                0 <= k < values.len() && #[trigger] values[k] == Some(
                    #[trigger] with_each(list, values, max)[m],
                ),
    decreases values.len(),
{
    let after = with_each(list, values, max);
    if values.len() == 0 {
        assert(list.take(list.len() as int) =~= list);
    } else {
        let front = values.drop_last();
        let before = with_each(list, front, max);
        lemma_with_each_keeps(list, front, max);
        assert(after.take(before.len() as int) =~= before);
        assert(after.take(list.len() as int) =~= before.take(list.len() as int));
        assert forall|k: int| #![trigger values[k]]
            0 <= k < values.len() && values[k] is Some && values[k]->0.len() > 0 implies after.contains(
            values[k]->0,
        ) || after.len() >= max by {
            if k < front.len() {
                assert(front[k] == values[k]);
                if before.contains(values[k]->0) {
                    let m = choose|m: int| 0 <= m < before.len() && before[m] == values[k]->0;
                    assert(after[m] == before[m]);
                }
            } else if after.len() > before.len() {
                assert(after[before.len() as int] == values[k]->0);
            }
        }
        assert forall|m: int| list.len() <= m < after.len() implies exists|k: int|
            0 <= k < values.len() && #[trigger] values[k] == Some(#[trigger] after[m]) by {
            if m < before.len() {
                let k = choose|k: int|
                    0 <= k < front.len() && #[trigger] front[k] == Some(before[m]);
                assert(values[k] == Some(after[m]));
            } else {
                assert(values[values.len() - 1] == Some(after[m]));
            }
        }
    }
}

/// A section holds what entries offer, the earlier entries' first: what it holds
/// after some of the entries stays at its front, whatever is offered finds its way
/// into it until it is full, and nothing else does.
pub proof fn law_sections_hold_the_first_offers(
    section: Section,
    entries: Seq<EntryView>,
    max: nat,
    n: int,
)
    requires
        0 <= n <= entries.len(),
    ensures
        ({
            let all = filled(section, entries, max);
            let some = filled(section, entries.take(n), max);
            &&& some.len() <= all.len()
            &&& all.take(some.len() as int) == some
            &&& forall|i: int, k: int| #![trigger offers(section, entries[i])[k]]
                0 <= i < n && 0 <= k < offers(section, entries[i]).len() && (offers(
                    section,
                    entries[i],
                )[k] matches Some(v) && v.len() > 0) ==> some.contains(
                    offers(section, entries[i])[k]->0,
                ) || some.len() >= max
            &&& forall|m: int|
                0 <= m < some.len() ==> exists|i: int, k: int|
                    0 <= i < n && 0 <= k < offers(section, entries[i]).len() && #[trigger] offers(
                        section,
                        entries[i],
                    )[k] == Some(#[trigger] some[m])
        }),
{
    let some = filled(section, entries.take(n), max);
    lemma_filled_begins(section, entries, max, n);
    assert forall|i: int, k: int| #![trigger offers(section, entries[i])[k]]
        0 <= i < n && 0 <= k < offers(section, entries[i]).len() && (offers(
            section,
            entries[i],
        )[k] matches Some(v) && v.len() > 0) implies some.contains(
        offers(section, entries[i])[k]->0,
    ) || some.len() >= max by {
        assert(entries.take(n)[i] == entries[i]);
        lemma_filled_holds(section, entries.take(n), max, i, k);
    }
    assert forall|m: int| 0 <= m < some.len() implies exists|i: int, k: int|
        0 <= i < n && 0 <= k < offers(section, entries[i]).len() && #[trigger] offers(
            section,
            entries[i],
        )[k] == Some(#[trigger] some[m]) by {
        let (i, k) = lemma_filled_from(section, entries.take(n), max, m);
        assert(entries.take(n)[i] == entries[i]);
        assert(offers(section, entries[i])[k] == Some(some[m]));
    }
}

proof fn lemma_filled_begins(section: Section, entries: Seq<EntryView>, max: nat, n: int)
    requires
        0 <= n <= entries.len(),
    ensures
        filled(section, entries.take(n), max).len() <= filled(section, entries, max).len(),
        filled(section, entries, max).take(
            filled(section, entries.take(n), max).len() as int,
        ) == filled(section, entries.take(n), max),
    decreases entries.len(),
{
    let all = filled(section, entries, max);
    let some = filled(section, entries.take(n), max);
    if n < entries.len() {
        let front = entries.drop_last();
        let before = filled(section, front, max);
        lemma_filled_begins(section, front, max, n);
        assert(front.take(n) =~= entries.take(n));
        lemma_with_each_keeps(before, offers(section, entries.last()), max);
        assert(all.take(some.len() as int) =~= all.take(before.len() as int).take(
            some.len() as int,
        ));
    } else {
        assert(entries.take(n) =~= entries);
        assert(all.take(all.len() as int) =~= all);
    }
}

proof fn lemma_filled_holds(section: Section, entries: Seq<EntryView>, max: nat, i: int, k: int)
    requires
        0 <= i < entries.len(),
        0 <= k < offers(section, entries[i]).len(),
        offers(section, entries[i])[k] is Some,
        offers(section, entries[i])[k]->0.len() > 0,
    ensures
        filled(section, entries, max).contains(offers(section, entries[i])[k]->0) || filled(
            section,
            entries,
            max,
        ).len() >= max,
    decreases entries.len(),
{
    let all = filled(section, entries, max);
    let front = entries.drop_last();
    let before = filled(section, front, max);
    let list = offers(section, entries.last());
    let v = offers(section, entries[i])[k]->0;
    lemma_with_each_keeps(before, list, max);
    if i < entries.len() - 1 {
        assert(front[i] == entries[i]);
        lemma_filled_holds(section, front, max, i, k);
        if before.contains(v) {
            let m = choose|m: int| 0 <= m < before.len() && before[m] == v;
            assert(all.take(before.len() as int)[m] == v);
            assert(all[m] == v);
        }
    } else {
        assert(list[k] is Some);
    }
}

proof fn lemma_filled_from(section: Section, entries: Seq<EntryView>, max: nat, m: int) -> (at: (
    int,
    int,
))
    requires
        0 <= m < filled(section, entries, max).len(),
    ensures
        0 <= at.0 < entries.len(),
        0 <= at.1 < offers(section, entries[at.0]).len(),
        offers(section, entries[at.0])[at.1] == Some(filled(section, entries, max)[m]),
    decreases entries.len(),
{
    let all = filled(section, entries, max);
    let front = entries.drop_last();
    let before = filled(section, front, max);
    let list = offers(section, entries.last());
    lemma_with_each_keeps(before, list, max);
    if m < before.len() {
        assert(all.take(before.len() as int)[m] == before[m]);
        let at = lemma_filled_from(section, front, max, m);
        assert(front[at.0] == entries[at.0]);
        at
    } else {
        assert(all == with_each(before, list, max));
        let k = choose|k: int|
            0 <= k < list.len() && #[trigger] list[k] == Some(with_each(before, list, max)[m]);
        (entries.len() - 1, k)
    }
}

/// What is newest counts first: the entries of the window come from the last to
/// the first, and behind them those recent ones whose identifier is not among those
/// before them.
pub proof fn law_newest_entries_come_first(window: Seq<EntryView>, recent: Seq<EntryView>)
    ensures
        ({
            let order = prioritized(window, recent);
            &&& window.len() <= order.len()
            &&& forall|i: int|
                0 <= i < window.len() ==> #[trigger] order[i] == window[window.len() - 1 - i]
            &&& forall|j: int|
                0 <= j < recent.len() ==> exists|k: int|
                    0 <= k < order.len() && (#[trigger] order[k]).id() == (
                    #[trigger] recent[j]).id()
            &&& forall|k: int|
                window.len() <= k < order.len() ==> recent.contains(#[trigger] order[k])
            &&& forall|k: int, m: int|
                0 <= k < m < order.len() && window.len() <= m ==> (#[trigger] order[k]).id() != (
                #[trigger] order[m]).id()
        }),
{
    let order = prioritized(window, recent);
    let back = recent.reverse();
    assert(order == with_new(window.reverse(), back));
    lemma_with_new(window.reverse(), back);
    assert forall|i: int| 0 <= i < window.len() implies #[trigger] order[i] == window[window.len()
        - 1 - i] by {
        assert(order.take(window.len() as int)[i] == window.reverse()[i]);
    }
    assert forall|j: int| 0 <= j < recent.len() implies exists|k: int|
        0 <= k < order.len() && (#[trigger] order[k]).id() == (#[trigger] recent[j]).id() by {
        assert(holds_id(order, back[recent.len() - 1 - j].id()));
    }
    assert forall|k: int| window.len() <= k < order.len() implies recent.contains(
        #[trigger] order[k],
    ) by {
        assert(back.contains(order[k]));
        let j = choose|j: int| 0 <= j < back.len() && back[j] == order[k];
        assert(recent[recent.len() - 1 - j] == order[k]);
    }
}

/// Behind the entries of the window, too, what is newest counts first: of two
/// entries that are not of the window, the later one comes before the other.
pub proof fn law_newest_of_the_rest_come_first(
    window: Seq<EntryView>,
    recent: Seq<EntryView>,
    k: int,
    m: int,
)
    requires
        window.len() <= k < m < prioritized(window, recent).len(),
    ensures
        exists|i: int, j: int|
            0 <= j < i < recent.len() && #[trigger] recent[i] == prioritized(window, recent)[k]
                && #[trigger] recent[j] == prioritized(window, recent)[m],
{
    let back = recent.reverse();
    let n = recent.len() as int;
    let a = lemma_new_from(window.reverse(), back, k);
    let b = lemma_new_from(window.reverse(), back, m);
    lemma_new_in_order(window.reverse(), back, k, m);
    assert(recent[n - 1 - a] == back[a]);
    assert(recent[n - 1 - b] == back[b]);
}

/// Where an entry that was added comes from.
spec fn new_from(list: Seq<EntryView>, more: Seq<EntryView>, k: int) -> int
    decreases more.len(),
{
    if more.len() == 0 {
        0
    } else if k < with_new(list, more.drop_last()).len() {
        new_from(list, more.drop_last(), k)
    } else {
        more.len() - 1
    }
}

proof fn lemma_new_from(list: Seq<EntryView>, more: Seq<EntryView>, k: int) -> (i: int)
    requires
        list.len() <= k < with_new(list, more).len(),
    ensures
        i == new_from(list, more, k),
        0 <= i < more.len(),
        more[i] == with_new(list, more)[k],
    decreases more.len(),
{
    let front = more.drop_last();
    if k < with_new(list, front).len() {
        lemma_new_from(list, front, k)
    } else {
        more.len() - 1
    }
}

proof fn lemma_new_in_order(list: Seq<EntryView>, more: Seq<EntryView>, k: int, m: int)
    requires
        list.len() <= k < m < with_new(list, more).len(),
    ensures
        new_from(list, more, k) < new_from(list, more, m),
    decreases more.len(),
{
    let front = more.drop_last();
    if m < with_new(list, front).len() {
        lemma_new_in_order(list, front, k, m);
    } else {
        let i = lemma_new_from(list, front, k);
    }
}

proof fn lemma_with_new(list: Seq<EntryView>, more: Seq<EntryView>)
    ensures
        list.len() <= with_new(list, more).len(),
        with_new(list, more).take(list.len() as int) == list,
        forall|j: int|
            0 <= j < more.len() ==> holds_id(with_new(list, more), (#[trigger] more[j]).id()),
        forall|k: int|
            list.len() <= k < with_new(list, more).len() ==> more.contains(
                #[trigger] with_new(list, more)[k],
            ),
        forall|k: int, m: int|
            0 <= k < m < with_new(list, more).len() && list.len() <= m ==> (#[trigger] with_new(
                list,
                more,
            )[k]).id() != (#[trigger] with_new(list, more)[m]).id(),
    decreases more.len(),
{
    let order = with_new(list, more);
    if more.len() == 0 {
        assert(list.take(list.len() as int) =~= list);
    } else {
        let front = more.drop_last();
        let before = with_new(list, front);
        lemma_with_new(list, front);
        assert(order.take(list.len() as int) =~= before.take(list.len() as int));
        assert forall|j: int| 0 <= j < more.len() implies holds_id(
            order,
            (#[trigger] more[j]).id(),
        ) by {
            if j == more.len() - 1 && !holds_id(before, more.last().id()) {
                assert(order[order.len() - 1] == more.last());
            } else {
                if j < more.len() - 1 {
                    assert(front[j] == more[j]);
                }
                let k = choose|k: int|
                    0 <= k < before.len() && (#[trigger] before[k]).id() == more[j].id();
                assert(order[k] == before[k]);
            }
        }
        assert forall|k: int| list.len() <= k < order.len() implies more.contains(
            #[trigger] order[k],
        ) by {
            if k < before.len() {
                assert(front.contains(before[k]));
                let j = choose|j: int| 0 <= j < front.len() && front[j] == before[k];
                assert(more[j] == order[k]);
            } else {
                assert(more[more.len() - 1] == order[k]);
            }
        }
        assert forall|k: int, m: int|
            0 <= k < m < order.len() && list.len() <= m implies (#[trigger] order[k]).id() != (
        #[trigger] order[m]).id() by {
            assert(order[k] == before[k]);
            if m < before.len() {
                assert(order[m] == before[m]);
            }
        }
    }
}

/// A text without needless white space is told as it is, if it is not too long;
/// else its beginning is told with an ellipsis behind it.
pub proof fn law_text_is_told_as_it_is(text: Seq<char>, max: nat)
    requires
        is_spaced(text),
        text.len() > 0,
    ensures
        normalized(text) == Some(text),
        text.len() <= max ==> compacted(text, max) == Some(text),
        text.len() > max ==> compacted(text, max) == Some(text.take(max as int).push('…')),
{
    lemma_spaced_stays(text);
}

/// What happens is what an experience or an impression says, what a memory
/// recalls, and the text of any other sensation.
pub proof fn law_what_happens_is_what_the_entry_says(e: EntryView, text: Seq<char>)
    requires
        is_spaced(text),
        text.len() > 0,
        match e {
            EntryView::Experience(x) => x.what == text,
            EntryView::Impression(i) => i.text == text,
            EntryView::Sensation(s) => if s.kind == "memory.related_experience"@ {
                field(s.payload, "what"@) == Some(JsonView::Str(text))
            } else {
                field(s.payload, "text"@) == Some(JsonView::Str(text))
            },
        },
    ensures
        offers(Section::What, e) == seq![Some(text)],
{
    lemma_spaced_stays(text);
}

/// A sensation is known from the faculties that it passed, in order, and then
/// from its source; an impression from its faculty, or from its kind where the
/// faculty is blank; an experience from nothing else.
pub proof fn law_source_of_an_entry_is_told(e: EntryView)
    requires
        match e {
            EntryView::Sensation(s) => is_spaced(s.source) && 0 < s.source.len() <= 48 && forall|i: int|
                0 <= i < s.provenance.faculty_chain.len() ==> is_spaced(
                    #[trigger] s.provenance.faculty_chain[i],
                ) && 0 < s.provenance.faculty_chain[i].len() <= 48,
            EntryView::Impression(i) => is_spaced(i.faculty) && i.faculty.len() <= 48 && is_spaced(
                i.kind,
            ) && 0 < i.kind.len() <= 48,
            EntryView::Experience(_) => true,
        },
    ensures
        match e {
            EntryView::Sensation(s) => {
                let n = s.provenance.faculty_chain.len();
                &&& offers(Section::How, e).len() == n + 1
                &&& forall|i: int|
                    0 <= i < n ==> #[trigger] offers(Section::How, e)[i] == Some(
                        s.provenance.faculty_chain[i],
                    )
                &&& offers(Section::How, e)[n as int] == Some(s.source)
            },
            EntryView::Impression(i) => offers(Section::How, e) == seq![
                if i.faculty.len() > 0 {
                    Some(i.faculty)
                } else {
                    Some(i.kind)
                },
            ],
            EntryView::Experience(_) => offers(Section::How, e).len() == 0,
        },
{
    match e {
        EntryView::Sensation(s) => {
            lemma_spaced_stays(s.source);
            assert forall|i: int| 0 <= i < s.provenance.faculty_chain.len() implies #[trigger] offers(
                Section::How,
                e,
            )[i] == Some(s.provenance.faculty_chain[i]) by {
                lemma_spaced_stays(s.provenance.faculty_chain[i]);
            }
        },
        EntryView::Impression(i) => {
            lemma_spaced_stays(i.faculty);
            lemma_spaced_stays(i.kind);
            if i.faculty.len() > 0 {
                lemma_trimmed_noop(i.faculty, CharClass::WhiteSpace);
            }
        },
        EntryView::Experience(_) => {},
    }
}

proof fn lemma_strings_in(items: Seq<JsonView>, k: int, text: Seq<char>)
    requires
        0 <= k < items.len(),
        items[k] == JsonView::Str(text),
    ensures
        strings_in(items).contains(text),
    decreases items.len(),
{
    let front = items.drop_last();
    let all = strings_in(items);
    if k == items.len() - 1 {
        assert(all[all.len() - 1] == text);
    } else {
        assert(front[k] == items[k]);
        lemma_strings_in(front, k, text);
        let some = strings_in(front);
        let m = choose|m: int| 0 <= m < some.len() && some[m] == text;
        assert(all[m] == text);
    }
}

proof fn lemma_label_in(list: Seq<Seq<char>>, text: Seq<char>)
    requires
        list.contains(text),
        is_spaced(text),
        0 < text.len() <= 48,
    ensures
        labels(list).contains(Some(text)),
{
    let m = choose|m: int| 0 <= m < list.len() && list[m] == text;
    lemma_spaced_stays(text);
    assert(labels(list)[m] == Some(text));
}

/// Whoever a payload lists or names is offered as somebody present, of a
/// sensation as of an impression.
pub proof fn law_people_of_a_payload_are_present(e: EntryView, payload: JsonView, text: Seq<char>)
    requires
        e matches EntryView::Sensation(s) ==> s.payload == payload,
        e matches EntryView::Impression(i) ==> i.payload == payload,
        !(e is Experience),
        is_spaced(text),
        0 < text.len() <= 48,
        (field(payload, "participants"@) matches Some(JsonView::Array(items)) && items.contains(
            JsonView::Str(text),
        )) || (field(payload, "people"@) matches Some(JsonView::Array(items)) && items.contains(
            JsonView::Str(text),
        )) || (field(payload, "names"@) matches Some(JsonView::Array(items)) && items.contains(
            JsonView::Str(text),
        )) || field(payload, "participant"@) == Some(JsonView::Str(text)) || field(
            payload,
            "person"@,
        ) == Some(JsonView::Str(text)) || field(payload, "speaker"@) == Some(JsonView::Str(text))
            || field(payload, "name"@) == Some(JsonView::Str(text)) || field(payload, "who"@)
            == Some(JsonView::Str(text)),
    ensures
        offers(Section::Who, e).contains(Some(text)),
{
    lemma_spaced_stays(text);
    let value = JsonView::Str(text);
    let a = labels(strings_field(payload, "participants"@));
    let b = labels(strings_field(payload, "people"@));
    let c = labels(strings_field(payload, "names"@));
    let d = seq![
        optional_label(text_field(payload, "participant"@)),
        optional_label(text_field(payload, "person"@)),
        optional_label(text_field(payload, "speaker"@)),
        optional_label(text_field(payload, "name"@)),
        optional_label(text_field(payload, "who"@)),
    ];
    let all = people_of(payload);
    assert(all == a + b + c + d);
    if let Some(JsonView::Array(items)) = field(payload, "participants"@) {
        if items.contains(value) {
            let k = choose|k: int| 0 <= k < items.len() && items[k] == value;
            lemma_strings_in(items, k, text);
            lemma_label_in(strings_field(payload, "participants"@), text);
            let m = choose|m: int| 0 <= m < a.len() && a[m] == Some(text);
            assert(all[m] == Some(text));
        }
    }
    if let Some(JsonView::Array(items)) = field(payload, "people"@) {
        if items.contains(value) {
            let k = choose|k: int| 0 <= k < items.len() && items[k] == value;
            lemma_strings_in(items, k, text);
            lemma_label_in(strings_field(payload, "people"@), text);
            let m = choose|m: int| 0 <= m < b.len() && b[m] == Some(text);
            assert(all[a.len() + m] == Some(text));
        }
    }
    if let Some(JsonView::Array(items)) = field(payload, "names"@) {
        if items.contains(value) {
            let k = choose|k: int| 0 <= k < items.len() && items[k] == value;
            lemma_strings_in(items, k, text);
            lemma_label_in(strings_field(payload, "names"@), text);
            let m = choose|m: int| 0 <= m < c.len() && c[m] == Some(text);
            assert(all[a.len() + b.len() + m] == Some(text));
        }
    }
    let n = (a.len() + b.len() + c.len()) as int;
    assert(all[n + 0] == d[0]);
    assert(all[n + 1] == d[1]);
    assert(all[n + 2] == d[2]);
    assert(all[n + 3] == d[3]);
    assert(all[n + 4] == d[4]);
    assert(all.contains(Some(text)));
    let k = choose|k: int| 0 <= k < all.len() && all[k] == Some(text);
    assert(offers(Section::Who, e)[k] == Some(text));
}

/// A word between other characters that looks like a name is offered as somebody
/// present, wherever it stands in what an experience or an impression says.
pub proof fn law_people_of_a_text_are_present(
    e: EntryView,
    before: Seq<char>,
    c: char,
    name: Seq<char>,
    d: char,
    after: Seq<char>,
)
    requires
        match e {
            EntryView::Experience(x) => x.what == before + seq![c] + name + seq![d] + after,
            EntryView::Impression(i) => i.text == before + seq![c] + name + seq![d] + after,
            EntryView::Sensation(s) => field(s.payload, "text"@) == Some(
                JsonView::Str(before + seq![c] + name + seq![d] + after),
            ),
        },
        !is_letter_or_digit(c) && c != '\'' && c != '-',
        !is_letter_or_digit(d) && d != '\'' && d != '-',
        forall|i: int|
            0 <= i < name.len() ==> is_letter_or_digit(#[trigger] name[i]) || name[i] == '\''
                || name[i] == '-',
        is_name(name),
        name.len() <= 48,
    ensures
        offers(Section::Who, e).contains(Some(name)),
{
    let class = CharClass::NotNameChar;
    let text = before + seq![c] + name + seq![d] + after;
    assert forall|i: int| 0 <= i < name.len() implies !is_white_space(#[trigger] name[i]) by {
        assert(is_letter_or_digit(name[i]) || name[i] == '\'' || name[i] == '-');
    }
    assert(is_spaced(name));
    lemma_spaced_stays(name);
    assert forall|i: int| 0 <= i < name.len() implies !class.holds(#[trigger] name[i]) by {}
    lemma_pieces_step(name, d, after, class);
    lemma_pieces_add(before, c, name + seq![d] + after, class);
    assert(before + seq![c] + (name + seq![d] + after) =~= text);
    let n = pieces(before, class).len() as int;
    assert(pieces(text, class)[n] == name);
    let list = people_in(text);
    assert(list[n] == Some(name));
    match e {
        EntryView::Sensation(s) => {
            let m = people_of(s.payload).len();
            assert(offers(Section::Who, e)[m + n] == Some(name));
        },
        EntryView::Impression(i) => {
            let m = people_of(i.payload).len();
            assert(offers(Section::Who, e)[m + n] == Some(name));
        },
        EntryView::Experience(_) => {
            assert(offers(Section::Who, e)[n] == Some(name));
        },
    }
}

/// The place that a text speaks of is what stands between the first `in` and the
/// mark behind it; where there is no `in`, the same holds of `at`.
pub proof fn law_place_stands_behind_in_or_at(
    before: Seq<char>,
    marker: Seq<char>,
    place: Seq<char>,
    c: char,
    after: Seq<char>,
)
    requires
        marker == " in "@ || (marker == " at "@ && !occurs(
            lowered(before + marker + place + seq![c] + after),
            " in "@,
        )),
        forall|i: int|
            0 <= i < before.len() ==> !stands_at(
                lowered(before + marker + place + seq![c] + after),
                marker,
                i,
            ),
        c == '.' || c == '!' || c == '?' || c == ',' || c == ';',
        place.len() > 0,
        is_spaced(place),
        forall|i: int| #![trigger place[i]]
            0 <= i < place.len() ==> place[i] != '.' && place[i] != '!' && place[i] != '?'
                && place[i] != ',' && place[i] != ';',
        !is_age_or_body(place),
    ensures
        place_in(before + marker + place + seq![c] + after) == Some(place),
{
    let text = before + marker + place + seq![c] + after;
    let low = lowered(text);
    let at = before.len() as int;
    reveal_strlit(" in ");
    reveal_strlit(" at ");
    assert(low.subrange(at, at + 4) =~= marker);
    assert(stands_at(low, marker, at));
    lemma_found(low, marker);
    assert(found(low, marker) == Some(at));
    let behind = text.skip(at + 4);
    assert(behind =~= place + seq![c] + after);
    let class = CharClass::PhraseBreak;
    assert(behind[0] == place[0]);
    lemma_trimmed_tail(place, c, after);
    let tail = trimmed(behind);
    let n = place.len() as int;
    assert forall|i: int| 0 <= i < n implies !class.holds(#[trigger] tail[i]) by {
        assert(tail[i] == place[i]);
    }
    lemma_first_of_unique(tail, class, n as nat);
    assert(tail.take(n) =~= place);
    lemma_trimmed_noop(place, CharClass::WhiteSpace);
}

proof fn lemma_trimmed_tail(place: Seq<char>, c: char, after: Seq<char>)
    requires
        place.len() > 0,
        !is_white_space(place[0]),
        !is_white_space(c),
    ensures
        ({
            let tail = trimmed(place + seq![c] + after);
            &&& tail.len() > place.len()
            &&& tail.take(place.len() as int) == place
            &&& tail[place.len() as int] == c
        }),
    decreases after.len(),
{
    let s = place + seq![c] + after;
    assert(s[0] == place[0]);
    assert(trimmed_start(s) == s);
    if after.len() > 0 && is_white_space(after.last()) {
        lemma_trimmed_tail(place, c, after.drop_last());
        let shorter = place + seq![c] + after.drop_last();
        assert(s.drop_last() =~= shorter);
        assert(shorter[0] == place[0]);
        assert(trimmed_start(shorter) == shorter);
    } else {
        if after.len() > 0 {
            assert(s.last() == after.last());
        } else {
            assert(s.last() == c);
        }
        assert(trimmed(s) == s);
        assert(s.take(place.len() as int) =~= place);
    }
}

/// A payload names its place under `room`, `location`, `place`, `where` or
/// `label`, and the first of these that is a text is the one that counts.
pub proof fn law_place_of_a_payload_is_its_first_name(payload: JsonView, text: Seq<char>)
    requires
        is_spaced(text),
        0 < text.len() <= 48,
    ensures
        field(payload, "room"@) == Some(JsonView::Str(text)) ==> place_of(payload) == Some(text),
        !(field(payload, "room"@) matches Some(JsonView::Str(_))) ==> {
            &&& field(payload, "location"@) == Some(JsonView::Str(text)) ==> place_of(payload)
                == Some(text)
            &&& !(field(payload, "location"@) matches Some(JsonView::Str(_))) ==> {
                &&& field(payload, "place"@) == Some(JsonView::Str(text)) ==> place_of(payload)
                    == Some(text)
                &&& !(field(payload, "place"@) matches Some(JsonView::Str(_))) ==> {
                    &&& field(payload, "where"@) == Some(JsonView::Str(text)) ==> place_of(payload)
                        == Some(text)
                    &&& !(field(payload, "where"@) matches Some(JsonView::Str(_))) ==> {
                        &&& field(payload, "label"@) == Some(JsonView::Str(text)) ==> place_of(
                            payload,
                        ) == Some(text)
                        &&& !(field(payload, "label"@) matches Some(JsonView::Str(_))) ==> place_of(
                            payload,
                        ) is None
                    }
                }
            }
        },
{
    lemma_spaced_stays(text);
    let keys = place_fields();
    assert(keys.skip(1)[0] == "location"@);
    assert(keys.skip(1).skip(1)[0] == "place"@);
    assert(keys.skip(1).skip(1).skip(1)[0] == "where"@);
    assert(keys.skip(1).skip(1).skip(1).skip(1)[0] == "label"@);
    reveal_with_fuel(first_text_field, 6);
}

/// Where something happens is the place that its payload names and the place
/// that its text speaks of, in this order.
pub proof fn law_where_is_the_named_and_the_spoken_place(
    e: EntryView,
    named_place: Seq<char>,
    text: Seq<char>,
    spoken: Seq<char>,
)
    requires
        place_in(text) == Some(spoken),
        is_spaced(spoken),
        0 < spoken.len() <= 48,
        is_spaced(named_place),
        0 < named_place.len() <= 48,
        match e {
            EntryView::Experience(x) => x.what == text,
            EntryView::Impression(i) => i.text == text && place_of(i.payload) == Some(named_place),
            EntryView::Sensation(s) => field(s.payload, "text"@) == Some(JsonView::Str(text))
                && place_of(s.payload) == Some(named_place),
        },
    ensures
        match e {
            EntryView::Experience(_) => offers(Section::Where, e) == seq![Some(spoken)],
            EntryView::Impression(_) => offers(Section::Where, e) == seq![
                Some(named_place),
                Some(spoken),
            ],
            EntryView::Sensation(_) => offers(Section::Where, e) == seq![
                Some(named_place),
                None,
                Some(spoken),
            ],
        },
{
    lemma_spaced_stays(spoken);
}

/// A frame is written section by section, each under its own name, with a line
/// for each item, or one that says that nothing is known.
pub proof fn law_frame_is_written_by_sections(f: FrameView)
    ensures
        rendered(f) == ("WHO\n"@ + written_items(f.who)) + ("WHAT\n"@ + written_items(f.what)) + (
        "WHERE\n"@ + written_items(f.where_)) + ("WHEN\n- "@ + f.when + "\n\n"@) + ("WHY\n"@
            + written_items(f.why)) + ("HOW\n"@ + written_items(f.how)),
{
    reveal_strlit("WHO");
    reveal_strlit("WHO\n");
    reveal_strlit("WHAT");
    reveal_strlit("WHAT\n");
    reveal_strlit("WHERE");
    reveal_strlit("WHERE\n");
    reveal_strlit("WHY");
    reveal_strlit("WHY\n");
    reveal_strlit("HOW");
    reveal_strlit("HOW\n");
    reveal_strlit("WHEN\n");
    reveal_strlit("- ");
    reveal_strlit("WHEN\n- ");
    assert("WHO\n"@ =~= "WHO"@ + seq!['\n']);
    assert("WHAT\n"@ =~= "WHAT"@ + seq!['\n']);
    assert("WHERE\n"@ =~= "WHERE"@ + seq!['\n']);
    assert("WHY\n"@ =~= "WHY"@ + seq!['\n']);
    assert("HOW\n"@ =~= "HOW"@ + seq!['\n']);
    assert("WHEN\n- "@ =~= "WHEN\n"@ + "- "@);
    lemma_written_items(f.who);
    lemma_written_items(f.what);
    lemma_written_items(f.where_);
    lemma_written_items(f.why);
    lemma_written_items(f.how);
    assert(rendered(f) =~= ("WHO\n"@ + written_items(f.who)) + ("WHAT\n"@ + written_items(f.what))
        + ("WHERE\n"@ + written_items(f.where_)) + ("WHEN\n- "@ + f.when + "\n\n"@) + ("WHY\n"@
        + written_items(f.why)) + ("HOW\n"@ + written_items(f.how)));
}

/// Items, each on a line behind a dash, and an empty line behind the last.
pub open spec fn written_items(items: Seq<Seq<char>>) -> Seq<char> {
    if items.len() == 0 {
        "- unknown\n\n"@
    } else {
        flat(items.map_values(|item: Seq<char>| seq!['-', ' '] + item + seq!['\n'])) + seq!['\n']
    }
}

proof fn lemma_item_lines(items: Seq<Seq<char>>)
    ensures
        item_lines(items) == flat(
            items.map_values(|item: Seq<char>| seq!['-', ' '] + item + seq!['\n']),
        ),
    decreases items.len(),
{
    let line = |item: Seq<char>| seq!['-', ' '] + item + seq!['\n'];
    if items.len() > 0 {
        lemma_item_lines(items.drop_last());
        reveal_strlit("- ");
        assert("- "@ =~= seq!['-', ' ']);
        assert(items.map_values(line).drop_last() =~= items.drop_last().map_values(line));
        let front = item_lines(items.drop_last());
        assert(front + "- "@ + items.last() + seq!['\n'] =~= front + (seq!['-', ' ']
            + items.last() + seq!['\n']));
    }
}

proof fn lemma_written_items(items: Seq<Seq<char>>)
    ensures
        forall|label: Seq<char>| #[trigger]
            section_text(label, items) == label + seq!['\n'] + written_items(items),
{
    lemma_item_lines(items);
}

/// A frame is asked for to understand what happens now, and for what is
/// remembered only where a memory is in the window and there is room.
pub proof fn law_memory_is_asked_for_where_there_is_one(window: Seq<EntryView>, max: nat)
    requires
        max >= 1,
    ensures
        why_of(window, max).len() >= 1,
        why_of(window, max)[0] == "Understand what appears to be happening right now."@,
        why_of(window, max).len() == 2 <==> max >= 2 && exists|i: int|
            0 <= i < window.len() && (#[trigger] window[i] matches EntryView::Sensation(s)
                && s.kind == "memory.related_experience"@),
        why_of(window, max).len() == 2 ==> why_of(window, max)[1]
            == "Use related memory as supporting evidence."@,
        why_of(window, max).len() <= 2,
{
    let a = "Understand what appears to be happening right now."@;
    let b = "Use related memory as supporting evidence."@;
    reveal_strlit("Understand what appears to be happening right now.");
    reveal_strlit("Use related memory as supporting evidence.");
    assert(a.len() == 50);
    assert(b.len() == 42);
    assert(is_spaced(a));
    assert(is_spaced(b));
    lemma_spaced_stays(a);
    lemma_spaced_stays(b);
    let second = if recalls(window) {
        Some(b)
    } else {
        None
    };
    let list = seq![Some(a), second];
    assert(list.drop_last() =~= seq![Some(a)]);
    assert(seq![Some(a)].drop_last() =~= Seq::<Option<Seq<char>>>::empty());
    reveal_with_fuel(with_each, 3);
    let none = Seq::<Seq<char>>::empty();
    let one = with_each(none, seq![Some(a)], max);
    assert(one =~= seq![a]);
    assert(!one.contains(b)) by {
        assert(one[0].len() == 50);
    }
    assert(why_of(window, max) == with_each(none, list, max));
}

/// What the voice says and what the commentator thinks is not of the world, wherever
/// it comes from; what the eye, the ear or the position tells is, and so is what is
/// remembered.
pub proof fn law_world_is_told_from_within(s: SensationView)
    ensures
        starts(lowered(s.kind), "voice."@) ==> !is_world_sensation(s),
        starts(lowered(s.kind), "commentator."@) ==> !is_world_sensation(s),
        lowered(s.kind) == "vision.frame"@ ==> is_world_sensation(s),
        lowered(s.kind) == "vision.face_crop"@ ==> is_world_sensation(s),
        lowered(s.kind) == "audio.utterance"@ ==> is_world_sensation(s),
        lowered(s.kind) == "location.fix"@ ==> is_world_sensation(s),
        lowered(s.kind) == "memory.related_experience"@ ==> is_world_sensation(s),
{
    let k = lowered(s.kind);
    reveal_strlit("voice.");
    reveal_strlit("commentator.");
    reveal_strlit("vision");
    reveal_strlit("vision.frame");
    reveal_strlit("vision.face_crop");
    reveal_strlit("location.gps");
    reveal_strlit("location.fix");
    reveal_strlit("audio.utterance");
    reveal_strlit("audio.voice_clip");
    reveal_strlit("memory.related_experience");
    reveal_strlit("memory.voice_match");
    reveal_strlit("memory.face_match");
    reveal_strlit("motion.");
    if starts(k, "voice."@) {
        assert(k.subrange(0, 6)[0] == 'v' && k.subrange(0, 6)[1] == 'o');
        assert(k[0] == 'v' && k[1] == 'o');
        assert("vision"@[1] == 'i');
        assert("vision.frame"@[1] == 'i');
        assert("vision.face_crop"@[1] == 'i');
        if starts(k, "motion."@) {
            assert(k.subrange(0, 7)[0] == 'm');
        }
        assert(!is_external_kind(k));
    }
    if starts(k, "commentator."@) {
        assert(k.subrange(0, 12)[0] == 'c');
        assert(k[0] == 'c');
        if starts(k, "motion."@) {
            assert(k.subrange(0, 7)[0] == 'm');
        }
        assert(!is_external_kind(k));
    }
}

} // verus!
