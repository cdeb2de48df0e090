//! Understanding what happens right now: the prompt over the recent timeline,
//! and the experience that comes of the answer.

use vstd::prelude::*;

use crate::context_frame::{
    is_snapshot, rendered, ContextFrame, FrameView, DEFAULT_CONTEXT_FRAME_ITEMS,
};
use crate::decimal::{seconds, seconds_text};
use crate::experience::{experiences, Experience, ExperienceView};
use crate::ident::{hyphenated, id_text, Id};
use crate::impression::{with_places, Impression};
use crate::json::{
    escape_angles, json_text, law_escaped_text_has_no_angles, prompt_json_string, prompt_string,
    text_field, without_angles,
};
use crate::llm::{
    done_view, event_views, polled_view, EngineCall, EventView, GenerationId, GenerationRequest,
    LlmEngine, LlmError, LlmEvent, RequestView,
};
use crate::sensation::{ProvenanceKind, ProvenanceKindView, Sensation, SensationView};
use crate::seqs::{flat, in_order, lemma_filter_stretch};
use crate::text::{
    collapse, collapsed, ends, found, is_spaced, join, joined, lemma_found, lemma_spaced_stays,
    optional, replace, replaced, same, starts, texts,
};
use crate::time::{
    in_range, is_local_time, local_iso, nanos_elapsed, now, parse_rfc3339, parsed_rfc3339,
    start_clock, Span, Timestamp, NANOS_PER_MILLI, NANOS_PER_SECOND,
};
use crate::timeline::{
    copy_entries, entry_time, entry_views, within, EntryView, TimelineEntry, TimelineFrame,
};
use crate::wit::{Asked, Wit};

verus! {

/// The window before the latest event, in milliseconds, by default.
pub const DEFAULT_WINDOW_MS: i64 = 2_000;

/// The gap at which events are parted, in milliseconds, by default.
pub const DEFAULT_CLUSTER_GAP_MS: i64 = 1_000;

/// The entries of a prompt, by default.
pub const DEFAULT_MAX_PROMPT_ENTRIES: usize = 48;

/// The tokens of an answer, by default.
pub const DEFAULT_MAX_TOKENS: usize = 256;

/// How long an answer is waited for, in milliseconds, by default.
pub const DEFAULT_POLL_TIMEOUT_MS: u64 = 5_000;

/// How every prompt begins.
pub const REALTIME_INSTRUCTIONS: &'static str =
    "You are the real-time Experience generator, the first Wit in the comprehension pipeline.\n\
         You run continuously in a loop over the recent timeline; each pass tries to understand what is going on right now.\n\
         Consume the timeline in order. Do not group by faculty or source.\n\
         Treat impressions as evidence, not certainty.\n\
         Return only plain text, not JSON, Markdown, bullets, or labels.\n\
         Write as first-person lived experience from the system's point of view, using I/me/my when natural.\n\
         Turn sensor and faculty evidence into what I experience: what I see, where I am, and what seems present.\n\
         Use salient details from impressions as experienced details; do not narrate sensors, camera input, GPS registration, monitoring, or what \"the user\" is doing.\n\
         Write a few sentences about the experience of all impressions together; do not force it into one sentence.\n\
         Explain what appears to be happening right now, not a redundant list of events.\n\n\
         ContextFrame:\n";

/// How the recent timeline is looked at.
#[derive(Debug, Clone, Copy, PartialEq, Eq, Structural)]
pub struct RealTimeExperienceConfig {
    /// The window before the latest event, in milliseconds.
    pub window_ms: i64,
    /// The gap at which events are parted, in milliseconds; a negative one counts
    /// as none.
    pub cluster_gap_ms: i64,
    /// The most entries of a prompt.
    pub max_prompt_entries: usize,
    /// The most tokens of an answer.
    pub max_tokens: usize,
    /// How long an answer is waited for, in milliseconds.
    pub poll_timeout_ms: u64,
}

impl Default for RealTimeExperienceConfig {
    fn default() -> (r: RealTimeExperienceConfig)
        ensures
            r == (RealTimeExperienceConfig {
                window_ms: 2_000,
                cluster_gap_ms: 1_000,
                max_prompt_entries: 48,
                max_tokens: 256,
                poll_timeout_ms: 5_000,
            }),
    {
        RealTimeExperienceConfig {
            window_ms: DEFAULT_WINDOW_MS,
            cluster_gap_ms: DEFAULT_CLUSTER_GAP_MS,
            max_prompt_entries: DEFAULT_MAX_PROMPT_ENTRIES,
            max_tokens: DEFAULT_MAX_TOKENS,
            poll_timeout_ms: DEFAULT_POLL_TIMEOUT_MS,
        }
    }
}

/// A number, or zero where it is negative.
pub open spec fn not_negative(n: int) -> int {
    if n < 0 {
        0
    } else {
        n
    }
}

/// The last `max` members of a sequence.
pub open spec fn last_of<A>(s: Seq<A>, max: nat) -> Seq<A> {
    s.skip(if s.len() <= max {
        0
    } else {
        s.len() - max
    })
}

/// The entries of a timeline that happened within so many milliseconds of its
/// latest, at most `max` of them.
pub open spec fn window_of(frame: Seq<EntryView>, window_ms: int, max: nat) -> Seq<EntryView> {
    if frame.len() == 0 {
        Seq::empty()
    } else {
        let latest = frame.last().occurred_at()@;
        last_of(within(frame, latest - not_negative(window_ms) * NANOS_PER_MILLI, latest), max)
    }
}

/// The entries that happened shortly before the latest.
pub fn recent_window(frame: &TimelineFrame, window_ms: i64, max_prompt_entries: usize) -> (r: Vec<
    TimelineEntry,
>)
    ensures
        entry_views(r@) == window_of(frame@, window_ms as int, max_prompt_entries as nat),
{
    let entries = frame.entries();
    let len: usize = entries.len();
    if len == 0 {
        let r: Vec<TimelineEntry> = Vec::new();
        assert(entry_views(r@) =~= Seq::<EntryView>::empty());
        return r;
    }
    let latest = entries[len - 1].occurred_at();
    let first = entries[0].occurred_at();
    let earliest: i128 = first.nanos();
    let newest: i128 = latest.nanos();
    assert(frame@.last() == entries@[len - 1]@);
    assert(frame@[0] == entries@[0]@);
    let back: i64 = if window_ms < 0 {
        0
    } else {
        window_ms
    };
    let ghost from = latest@ - back * NANOS_PER_MILLI;
    let start = match latest.minus_millis(back) {
        Some(start) => start,
        None => first,
    };
    let found = frame.entries_between(start, latest);
    proof {
        if start@ != from {
            assert forall|e: EntryView| frame@.contains(e) implies (start@ <= e.occurred_at()@
                <= latest@ <==> from <= e.occurred_at()@ <= latest@) by {
                let i = choose|i: int| 0 <= i < frame@.len() && frame@[i] == e;
                assert(entry_time()(frame@[0]) <= entry_time()(frame@[i]));
            }
        }
        lemma_filter_same(
            frame@,
            |e: EntryView| start@ <= e.occurred_at()@ <= latest@,
            |e: EntryView| from <= e.occurred_at()@ <= latest@,
        );
    }
    let count: usize = found.len();
    let offset: usize = if count <= max_prompt_entries {
        0
    } else {
        count - max_prompt_entries
    };
    let tail = vstd::slice::slice_subrange(found, offset, count);
    let r = copy_entries(tail);
    assert(entry_views(r@) =~= entry_views(found@).skip(offset as int));
    r
}

/// Two tests that agree on a sequence filter it alike.
proof fn lemma_filter_same(
    s: Seq<EntryView>,
    p: spec_fn(EntryView) -> bool,
    q: spec_fn(EntryView) -> bool,
)
    requires
        forall|e: EntryView| s.contains(e) ==> (#[trigger] p(e) <==> q(e)),
    ensures
        s.filter(p) == s.filter(q),
    decreases s.len(),
{
    reveal(Seq::filter);
    if s.len() > 0 {
        let rest = s.drop_last();
        assert forall|e: EntryView| rest.contains(e) implies (#[trigger] p(e) <==> q(e)) by {
            let i = choose|i: int| 0 <= i < rest.len() && rest[i] == e;
            assert(s[i] == e);
        }
        lemma_filter_same(rest, p, q);
        assert(s[s.len() - 1] == s.last());
        assert(p(s.last()) <==> q(s.last()));
    }
}

// ---------------------------------------------------------------------------
// The prompt.

/// The local times that stand for the times of an entry.
#[derive(Debug)]
pub struct EntryStamps {
    /// When it happened.
    pub occurred_at: String,
    /// When it was observed.
    pub observed_at: String,
    /// When what it recalls happened.
    pub original: String,
}

/// What [`EntryStamps`] are.
pub ghost struct StampsView {
    pub occurred_at: Seq<char>,
    pub observed_at: Seq<char>,
    pub original: Seq<char>,
}

impl View for EntryStamps {
    type V = StampsView;

    open spec fn view(&self) -> StampsView {
        StampsView {
            occurred_at: self.occurred_at@,
            observed_at: self.observed_at@,
            original: self.original@,
        }
    }
}

/// The stamps of a list.
pub open spec fn stamp_views(list: Seq<EntryStamps>) -> Seq<StampsView> {
    list.map_values(|s: EntryStamps| s@)
}

/// The time, as a payload gives it, of what a sensation recalls.
pub open spec fn original_time(e: EntryView) -> Option<Seq<char>> {
    match e {
        EntryView::Sensation(s) => text_field(s.payload, "original_occurred_at"@),
        _ => None,
    }
}

/// Whether a text stands for a time as a payload gives it: a local time where it
/// can be read, and else the time as it is given.
pub open spec fn is_payload_time(text: Seq<char>, given: Seq<char>) -> bool {
    match parsed_rfc3339(given) {
        Some(parts) => if in_range(parts.0 * NANOS_PER_SECOND + parts.1) {
            is_local_time(text, parts.0 * NANOS_PER_SECOND + parts.1)
        } else {
            text == given
        },
        None => text == given,
    }
}

/// Whether stamps are the local times of an entry: when it happened, when it was
/// observed, and when what it recalls happened.
pub open spec fn is_stamped(stamps: StampsView, e: EntryView) -> bool {
    &&& is_local_time(stamps.occurred_at, e.occurred_at()@)
    &&& is_local_time(stamps.observed_at, e.observed_at()@)
    &&& match original_time(e) {
        Some(given) => is_payload_time(stamps.original, given),
        None => stamps.original == Seq::<char>::empty(),
    }
}

/// Whether there are stamps for each entry, with its local times.
pub open spec fn are_stamps(stamps: Seq<StampsView>, entries: Seq<EntryView>) -> bool {
    &&& stamps.len() == entries.len()
    &&& forall|i: int| 0 <= i < entries.len() ==> is_stamped(stamps[i], #[trigger] entries[i])
}

/// Identifiers with commas between them.
pub open spec fn id_list(ids: Seq<Id>) -> Seq<char> {
    joined(ids.map_values(|id: Id| hyphenated(id)), seq![','])
}

/// The experience that a sensation recalls, as far as it says.
pub open spec fn original_id(s: SensationView) -> Seq<char> {
    match text_field(s.payload, "original_experience_id"@) {
        Some(text) => text,
        None => match s.provenance.kind {
            ProvenanceKindView::MemoryRecall { experience_id } => hyphenated(experience_id),
            _ => "unknown"@,
        },
    }
}

/// The milliseconds from a moment to an entry.
pub open spec fn elapsed(e: EntryView, start: Timestamp) -> int {
    e.occurred_at().spec_millis_since(start)
}

/// An entry in a prompt.
#[verifier::opaque]
pub open spec fn entry_text(e: EntryView, start: Timestamp, stamps: StampsView) -> Seq<char> {
    let head = "T+"@ + seconds(elapsed(e, start)) + " occurred_at="@ + stamps.occurred_at;
    match e {
        EntryView::Sensation(s) => if s.kind == "memory.related_experience"@ {
            head + "\n  RECOLLECTION "@ + s.kind + " id="@ + hyphenated(s.id) + " source="@
                + s.source + " observed_at="@ + stamps.observed_at + " original_experience_id="@
                + original_id(s) + " original_occurred_at="@ + (match original_time(e) {
                Some(_) => stamps.original,
                None => "unknown"@,
            }) + "\n"@
        } else {
            head + "\n  SENSATION "@ + s.kind + " id="@ + hyphenated(s.id) + " source="@ + s.source
                + " observed_at="@ + stamps.observed_at + "\n"@
        },
        EntryView::Impression(i) => head + "\n  IMPRESSION id="@ + hyphenated(i.id) + " kind="@
            + i.kind + " faculty="@ + prompt_string(i.faculty) + " observed_at="@
            + stamps.observed_at + " confidence="@ + with_places(i.confidence, 3) + " about=["@
            + id_list(i.about) + "] payload="@ + prompt_string(json_text(i.payload)) + " text="@
            + prompt_string(i.text) + "\n"@,
        EntryView::Experience(x) => head + "\n  EXPERIENCE id="@ + hyphenated(x.id)
            + " observed_at="@ + stamps.observed_at + " from=["@ + id_list(x.impression_ids)
            + "] what="@ + prompt_string(x.what) + "\n"@,
    }
}

/// Whether entry `i` opens a cluster: it is the first, or further than `gap`
/// nanoseconds from the one before.
pub open spec fn opens(entries: Seq<EntryView>, gap: int, i: int) -> bool {
    i == 0 || entries[i].occurred_at()@ - entries[i - 1].occurred_at()@ > gap
}

/// The last entry of the cluster of entry `i`.
pub open spec fn cluster_end(entries: Seq<EntryView>, gap: int, i: int) -> int
    decreases entries.len() - i,
{
    if i + 1 < entries.len() && !opens(entries, gap, i + 1) {
        cluster_end(entries, gap, i + 1)
    } else {
        i
    }
}

/// The line that opens a cluster, from entry `i` to entry `j`.
#[verifier::opaque]
pub open spec fn boundary_text(
    entries: Seq<EntryView>,
    stamps: Seq<StampsView>,
    i: int,
    j: int,
) -> Seq<char> {
    let start = entries[0].occurred_at();
    "[T+"@ + seconds(elapsed(entries[i], start)) + " - T+"@ + seconds(elapsed(entries[j], start))
        + " | "@ + stamps[i].occurred_at + " to "@ + stamps[j].occurred_at + "]\n"@
}

/// The first `n` entries in a prompt, each cluster under a line of its own.
pub open spec fn timeline_text(
    entries: Seq<EntryView>,
    stamps: Seq<StampsView>,
    gap: int,
    n: int,
) -> Seq<char>
    decreases n,
{
    if n <= 0 {
        Seq::empty()
    } else {
        let i = n - 1;
        timeline_text(entries, stamps, gap, i) + (if !opens(entries, gap, i) {
            Seq::empty()
        } else if i > 0 {
            seq!['\n'] + boundary_text(entries, stamps, i, cluster_end(entries, gap, i))
        } else {
            boundary_text(entries, stamps, i, cluster_end(entries, gap, i))
        }) + entry_text(entries[i], entries[0].occurred_at(), stamps[i])
    }
}

/// A prompt over a context frame and some entries.
pub open spec fn prompt_text(
    context: FrameView,
    entries: Seq<EntryView>,
    stamps: Seq<StampsView>,
    cluster_gap_ms: int,
) -> Seq<char> {
    if entries.len() == 0 {
        Seq::empty()
    } else {
        REALTIME_INSTRUCTIONS@ + without_angles(rendered(context)) + "Timeline:\n"@
            + timeline_text(
            entries,
            stamps,
            not_negative(cluster_gap_ms) * NANOS_PER_MILLI,
            entries.len() as int,
        )
    }
}

/// A context frame as text, without angle brackets.
pub fn prompt_safe_context_frame_render(context_frame: &ContextFrame) -> (s: String)
    ensures
        s@ == without_angles(rendered(context_frame@)),
{
    escape_angles(context_frame.render().as_str())
}

/// Identifiers with commas between them.
pub fn id_list_text(ids: &Vec<Id>) -> (s: String)
    ensures
        s@ == id_list(ids@),
{
    let mut list: Vec<String> = Vec::new();
    let mut i: usize = 0;
    while i < ids.len()
        invariant
            i <= ids@.len(),
            list@.len() == i,
            forall|k: int| 0 <= k < i ==> (#[trigger] list@[k])@ == hyphenated(ids@[k]),
        decreases ids@.len() - i,
    {
        list.push(id_text(ids[i]));
        i += 1;
    }
    proof {
        reveal_strlit(",");
        assert(","@ =~= seq![',']);
        assert(texts(list@) =~= ids@.map_values(|id: Id| hyphenated(id)));
    }
    join(&list, ",")
}

fn original_id_text(s: &Sensation) -> (r: String)
    ensures
        r@ == original_id(s@),
{
    match s.payload.str_field("original_experience_id") {
        Some(text) => text.to_owned(),
        None => match &s.provenance.kind {
            ProvenanceKind::MemoryRecall { experience_id } => id_text(*experience_id),
            _ => "unknown".to_owned(),
        },
    }
}

/// An entry in a prompt.
pub fn format_timeline_entry(entry: &TimelineEntry, start: Timestamp, stamps: &EntryStamps) -> (t:
    String)
    ensures
        t@ == entry_text(entry@, start, stamps@),
{
    proof {
        reveal(entry_text);
    }
    let mut t = "T+".to_owned();
    t.push_str(seconds_text(entry.occurred_at().millis_since(&start)).as_str());
    t.push_str(" occurred_at=");
    t.push_str(stamps.occurred_at.as_str());
    match entry {
        TimelineEntry::Sensation(s) => {
            if same(s.kind.as_str(), "memory.related_experience") {
                t.push_str("\n  RECOLLECTION ");
                t.push_str(s.kind.as_str());
                t.push_str(" id=");
                t.push_str(id_text(s.id).as_str());
                t.push_str(" source=");
                t.push_str(s.source.as_str());
                t.push_str(" observed_at=");
                t.push_str(stamps.observed_at.as_str());
                t.push_str(" original_experience_id=");
                t.push_str(original_id_text(s).as_str());
                t.push_str(" original_occurred_at=");
                if s.payload.str_field("original_occurred_at").is_some() {
                    t.push_str(stamps.original.as_str());
                } else {
                    t.push_str("unknown");
                }
                t.push_str("\n");
            } else {
                t.push_str("\n  SENSATION ");
                t.push_str(s.kind.as_str());
                t.push_str(" id=");
                t.push_str(id_text(s.id).as_str());
                t.push_str(" source=");
                t.push_str(s.source.as_str());
                t.push_str(" observed_at=");
                t.push_str(stamps.observed_at.as_str());
                t.push_str("\n");
            }
        },
        TimelineEntry::Impression(i) => {
            t.push_str("\n  IMPRESSION id=");
            t.push_str(id_text(i.id).as_str());
            t.push_str(" kind=");
            t.push_str(i.kind.as_str());
            t.push_str(" faculty=");
            t.push_str(prompt_json_string(i.faculty.as_str()).as_str());
            t.push_str(" observed_at=");
            t.push_str(stamps.observed_at.as_str());
            t.push_str(" confidence=");
            t.push_str(i.confidence.text3().as_str());
            t.push_str(" about=[");
            t.push_str(id_list_text(&i.about).as_str());
            t.push_str("] payload=");
            t.push_str(prompt_json_string(i.payload.to_text().as_str()).as_str());
            t.push_str(" text=");
            t.push_str(prompt_json_string(i.text.as_str()).as_str());
            t.push_str("\n");
        },
        TimelineEntry::Experience(x) => {
            t.push_str("\n  EXPERIENCE id=");
            t.push_str(id_text(x.id).as_str());
            t.push_str(" observed_at=");
            t.push_str(stamps.observed_at.as_str());
            t.push_str(" from=[");
            t.push_str(id_list_text(&x.impression_ids).as_str());
            t.push_str("] what=");
            t.push_str(prompt_json_string(x.what.as_str()).as_str());
            t.push_str("\n");
        },
    }
    t
}

/// Tells whether entry `i` opens a cluster.
fn opens_cluster(entries: &[TimelineEntry], gap: i128, i: usize) -> (r: bool)
    requires
        i < entries@.len(),
    ensures
        r == opens(entry_views(entries@), gap as int, i as int),
{
    if i == 0 {
        return true;
    }
    let ghost all = entry_views(entries@);
    assert(all[i as int] == entries@[i as int]@ && all[i - 1] == entries@[i - 1]@);
    entries[i].occurred_at().nanos_since(&entries[i - 1].occurred_at()) > gap
}

/// The line that opens the cluster of entry `i`.
pub fn format_cluster_boundary(
    entries: &[TimelineEntry],
    stamps: &Vec<EntryStamps>,
    cluster_gap: Span,
    i: usize,
) -> (t: String)
    requires
        i < entries@.len(),
        stamps@.len() == entries@.len(),
    ensures
        t@ == boundary_text(
            entry_views(entries@),
            stamp_views(stamps@),
            i as int,
            cluster_end(entry_views(entries@), cluster_gap.nanos as int, i as int),
        ),
{
    let ghost all = entry_views(entries@);
    let mut j: usize = i;
    while j < entries.len() - 1 && !opens_cluster(entries, cluster_gap.nanos, j + 1)
        invariant
            i <= j < entries@.len(),
            all == entry_views(entries@),
            cluster_end(all, cluster_gap.nanos as int, i as int) == cluster_end(
                all,
                cluster_gap.nanos as int,
                j as int,
            ),
        ensures
            i <= j < entries@.len(),
            cluster_end(all, cluster_gap.nanos as int, i as int) == j,
        decreases entries@.len() - j,
    {
        j += 1;
    }
    let start = entries[0].occurred_at();
    proof {
        reveal(boundary_text);
        assert(all[0] == entries@[0]@);
        assert(all[i as int] == entries@[i as int]@);
        assert(all[j as int] == entries@[j as int]@);
        assert(stamp_views(stamps@)[i as int] == stamps@[i as int]@);
        assert(stamp_views(stamps@)[j as int] == stamps@[j as int]@);
    }
    let mut t = "[T+".to_owned();
    t.push_str(seconds_text(entries[i].occurred_at().millis_since(&start)).as_str());
    t.push_str(" - T+");
    t.push_str(seconds_text(entries[j].occurred_at().millis_since(&start)).as_str());
    t.push_str(" | ");
    t.push_str(stamps[i].occurred_at.as_str());
    t.push_str(" to ");
    t.push_str(stamps[j].occurred_at.as_str());
    t.push_str("]\n");
    t
}

/// The prompt over a context frame and some entries, with the local times that
/// stand for their times.
pub fn prompt_with_stamps(
    context_frame: &ContextFrame,
    entries: &[TimelineEntry],
    stamps: &Vec<EntryStamps>,
    cluster_gap_ms: i64,
) -> (prompt: String)
    requires
        stamps@.len() == entries@.len(),
    ensures
        prompt@ == prompt_text(
            context_frame@,
            entry_views(entries@),
            stamp_views(stamps@),
            cluster_gap_ms as int,
        ),
{
    if entries.len() == 0 {
        return String::new();
    }
    let ghost all = entry_views(entries@);
    let ghost marks = stamp_views(stamps@);
    let start = entries[0].occurred_at();
    let gap = Span::milliseconds(
        if cluster_gap_ms < 0 {
            0
        } else {
            cluster_gap_ms
        },
    );
    let mut prompt = REALTIME_INSTRUCTIONS.to_owned();
    prompt.push_str(prompt_safe_context_frame_render(context_frame).as_str());
    prompt.push_str("Timeline:\n");
    let ghost head = prompt@;
    let mut i: usize = 0;
    assert(all[0] == entries@[0]@);
    assert(head + timeline_text(all, marks, gap.nanos as int, 0) =~= head);
    while i < entries.len()
        invariant
            i <= entries@.len(),
            entries@.len() > 0,
            stamps@.len() == entries@.len(),
            all == entry_views(entries@),
            marks == stamp_views(stamps@),
            start == all[0].occurred_at(),
            prompt@ == head + timeline_text(all, marks, gap.nanos as int, i as int),
        decreases entries@.len() - i,
    {
        let ghost before = prompt@;
        if opens_cluster(entries, gap.nanos, i) {
            if i > 0 {
                prompt.push('\n');
            }
            prompt.push_str(format_cluster_boundary(entries, stamps, gap, i).as_str());
        }
        assert(all[i as int] == entries@[i as int]@);
        assert(marks[i as int] == stamps@[i as int]@);
        prompt.push_str(format_timeline_entry(&entries[i], start, &stamps[i]).as_str());
        assert(prompt@ =~= head + timeline_text(all, marks, gap.nanos as int, i + 1));
        i += 1;
    }
    prompt
}

/// The local times that stand for the times of an entry.
fn stamps_of(entry: &TimelineEntry) -> (s: EntryStamps)
    ensures
        is_stamped(s@, entry@),
{
    let original = match entry {
        TimelineEntry::Sensation(s) => match s.payload.str_field("original_occurred_at") {
            Some(text) => format_payload_timestamp(text),
            None => String::new(),
        },
        _ => String::new(),
    };
    EntryStamps {
        occurred_at: local_iso(entry.occurred_at()),
        observed_at: local_iso(entry.observed_at()),
        original,
    }
}

/// The local time for a timestamp as a payload gives it; a text that is none is
/// kept as it is.
pub fn format_payload_timestamp(timestamp: &str) -> (s: String)
    ensures
        is_payload_time(s@, timestamp@),
{
    match parse_rfc3339(timestamp) {
        Some(t) => local_iso(t),
        None => timestamp.to_owned(),
    }
}

/// The prompt over a context frame and some entries, in local time.
pub fn format_realtime_experience_prompt_with_cluster_gap(
    context_frame: &ContextFrame,
    entries: &[TimelineEntry],
    cluster_gap_ms: i64,
) -> (prompt: String)
    ensures
        exists|stamps: Seq<StampsView>|
            are_stamps(stamps, entry_views(entries@)) && prompt@ == #[trigger] prompt_text(
                context_frame@,
                entry_views(entries@),
                stamps,
                cluster_gap_ms as int,
            ),
{
    let ghost all = entry_views(entries@);
    let mut stamps: Vec<EntryStamps> = Vec::new();
    let mut i: usize = 0;
    while i < entries.len()
        invariant
            i <= entries@.len(),
            all == entry_views(entries@),
            stamps@.len() == i,
            forall|k: int|
                0 <= k < i ==> is_stamped(stamps@[k]@, #[trigger] all[k]),
        decreases entries@.len() - i,
    {
        let s = stamps_of(&entries[i]);
        assert(all[i as int] == entries@[i as int]@);
        stamps.push(s);
        i += 1;
    }
    assert(are_stamps(stamp_views(stamps@), all));
    prompt_with_stamps(context_frame, entries, &stamps, cluster_gap_ms)
}

/// The prompt over a context frame and some entries, parted at the default gap.
pub fn format_realtime_experience_prompt(
    context_frame: &ContextFrame,
    entries: &[TimelineEntry],
) -> (prompt: String)
    ensures
        exists|stamps: Seq<StampsView>|
            are_stamps(stamps, entry_views(entries@)) && prompt@ == #[trigger] prompt_text(
                context_frame@,
                entry_views(entries@),
                stamps,
                1_000,
            ),
{
    format_realtime_experience_prompt_with_cluster_gap(
        context_frame,
        entries,
        DEFAULT_CLUSTER_GAP_MS,
    )
}

// ---------------------------------------------------------------------------
// The answer.

/// The text of an answer: without the marks of a turn, its white space
/// collapsed; nothing where that is empty.
pub open spec fn answer_text(generated: Seq<char>) -> Option<Seq<char>> {
    let text = collapsed(
        replaced(
            replaced(
                replaced(generated, "<start_of_turn>model"@, Seq::empty()),
                "<end_of_turn>"@,
                Seq::empty(),
            ),
            "<turn|>"@,
            Seq::empty(),
        ),
    );
    if text.len() == 0 {
        None
    } else {
        Some(text)
    }
}

/// The text of an answer.
pub fn generated_experience_text(generated: &str) -> (r: Option<String>)
    ensures
        optional(r) == answer_text(generated@),
{
    proof {
        reveal_strlit("");
        assert(""@ =~= Seq::<char>::empty());
    }
    let text = replace(generated, "<start_of_turn>model", "");
    let text = replace(text.as_str(), "<end_of_turn>", "");
    let text = replace(text.as_str(), "<turn|>", "");
    let text = collapse(text.as_str());
    if text.as_str().unicode_len() == 0 {
        None
    } else {
        Some(text)
    }
}

/// The impressions among some entries.
pub open spec fn impression_ids(entries: Seq<EntryView>) -> Seq<Id>
    decreases entries.len(),
{
    if entries.len() == 0 {
        Seq::empty()
    } else {
        match entries.last() {
            EntryView::Impression(i) => impression_ids(entries.drop_last()).push(i.id),
            _ => impression_ids(entries.drop_last()),
        }
    }
}

/// When the last impression among some entries happened.
pub open spec fn last_impression_time(entries: Seq<EntryView>) -> Option<Timestamp>
    decreases entries.len(),
{
    if entries.len() == 0 {
        None
    } else {
        match entries.last() {
            EntryView::Impression(i) => Some(i.occurred_at),
            _ => last_impression_time(entries.drop_last()),
        }
    }
}

/// When what is understood of some entries happened: with the last impression,
/// or else with the last entry.
pub open spec fn understood_at(entries: Seq<EntryView>) -> Option<Timestamp> {
    match last_impression_time(entries) {
        Some(t) => Some(t),
        None => if entries.len() == 0 {
            None
        } else {
            Some(entries.last().occurred_at())
        },
    }
}

/// Whether an experience is what an answer says of some entries.
pub open spec fn is_understanding(
    x: ExperienceView,
    generated: Seq<char>,
    entries: Seq<EntryView>,
) -> bool {
    &&& Some(x.what) == answer_text(generated)
    &&& x.impression_ids == impression_ids(entries)
    &&& understood_at(entries) matches Some(t) ==> x.occurred_at == t
}

/// Whether experiences are what an answer says of some entries: one, if it says
/// anything.
pub open spec fn is_told_by(
    list: Seq<Experience>,
    generated: Seq<char>,
    entries: Seq<EntryView>,
) -> bool {
    match answer_text(generated) {
        None => list.len() == 0,
        Some(_) => list.len() == 1 && is_understanding(list[0]@, generated, entries),
    }
}

/// The experience that an answer gives of some entries, if it says anything.
pub fn parse_experiences(generated: &str, entries: &[TimelineEntry]) -> (list: Vec<Experience>)
    ensures
        is_told_by(list@, generated@, entry_views(entries@)),
{
    let mut list: Vec<Experience> = Vec::new();
    match generated_experience_text(generated) {
        None => {},
        Some(what) => {
            let ghost all = entry_views(entries@);
            let mut ids: Vec<Id> = Vec::new();
            let mut at: Option<Timestamp> = None;
            let mut i: usize = 0;
            assert(all.take(0) =~= Seq::<EntryView>::empty());
            while i < entries.len()
                invariant
                    i <= entries@.len(),
                    all == entry_views(entries@),
                    ids@ == impression_ids(all.take(i as int)),
                    at == last_impression_time(all.take(i as int)),
                decreases entries@.len() - i,
            {
                proof {
                    assert(all.take(i + 1).drop_last() =~= all.take(i as int));
                    assert(all.take(i + 1).last() == entries@[i as int]@);
                }
                match &entries[i] {
                    TimelineEntry::Impression(p) => {
                        ids.push(p.id);
                        at = Some(p.occurred_at);
                    },
                    _ => {},
                }
                i += 1;
            }
            assert(all.take(i as int) =~= all);
            let occurred_at = match at {
                Some(t) => t,
                None => if entries.len() == 0 {
                    now()
                } else {
                    assert(all.last() == entries@[entries@.len() - 1]@);
                    entries[entries.len() - 1].occurred_at()
                },
            };
            list.push(Experience::new(ids, occurred_at, now(), what.as_str()));
        },
    }
    list
}

/// A wit that asks a model what appears to be happening, whenever the timeline
/// has a new latest entry.
pub struct RealTimeExperienceWit<E> {
    /// The engine of the model.
    pub engine: E,
    /// How the timeline is looked at.
    pub config: RealTimeExperienceConfig,
    /// The latest entry when the wit last looked.
    pub last_latest_entry_id: Option<Id>,
    /// What it was asked, and what it understood of it.
    pub history: Ghost<Seq<Asked>>,
}

/// A question to the model and the entries that it is about.
#[derive(Debug)]
pub struct Inquiry {
    /// The entries.
    pub window: Vec<TimelineEntry>,
    /// The question.
    pub request: GenerationRequest,
}

/// Whether an impression is among some entries.
pub open spec fn shows_impression(entries: Seq<EntryView>) -> bool {
    exists|i: int| 0 <= i < entries.len() && (#[trigger] entries[i]) is Impression
}

/// Whether a timeline is worth a question: its latest entry is not the one that
/// was looked at last, and an impression is in the window before it.
pub open spec fn is_worth_asking(
    entries: Seq<EntryView>,
    last: Option<Id>,
    window: Seq<EntryView>,
) -> bool {
    entries.len() > 0 && last != Some(entries.last().id()) && shows_impression(window)
}

/// Whether a request asks what appears to be happening in the window of a
/// timeline.
pub open spec fn is_question(
    request: RequestView,
    entries: Seq<EntryView>,
    window: Seq<EntryView>,
    config: RealTimeExperienceConfig,
) -> bool {
    exists|context: FrameView, stamps: Seq<StampsView>|
        is_snapshot(context, entries, window, 4) && are_stamps(stamps, window) && request == (
        RequestView {
            prompt: #[trigger] prompt_text(context, window, stamps, config.cluster_gap_ms as int),
            messages: Seq::empty(),
            images: Seq::empty(),
            max_tokens: Some(config.max_tokens),
            stop: Seq::empty(),
        })
}

impl<E> RealTimeExperienceWit<E> {
    /// A wit with the default configuration.
    pub fn new(engine: E) -> (r: RealTimeExperienceWit<E>)
        ensures
            r.engine == engine,
            r.last_latest_entry_id is None,
            r.history@ == Seq::<Asked>::empty(),
            r.config.window_ms == 2_000 && r.config.cluster_gap_ms == 1_000
                && r.config.max_prompt_entries == 48 && r.config.max_tokens == 256
                && r.config.poll_timeout_ms == 5_000,
    {
        RealTimeExperienceWit::with_config(engine, RealTimeExperienceConfig::default())
    }

    /// A wit with a configuration.
    pub fn with_config(engine: E, config: RealTimeExperienceConfig) -> (r: RealTimeExperienceWit<E>)
        ensures
            r.engine == engine,
            r.last_latest_entry_id is None,
            r.history@ == Seq::<Asked>::empty(),
            r.config == config,
    {
        RealTimeExperienceWit {
            engine,
            config,
            last_latest_entry_id: None,
            history: Ghost(Seq::empty()),
        }
    }

    /// Looks at a timeline. There is a question where its latest entry is new and
    /// an impression is in the window before it.
    pub fn prepare(&mut self, frame: &TimelineFrame) -> (r: Option<Inquiry>)
        ensures
            final(self).engine == old(self).engine,
            final(self).config == old(self).config,
            final(self).history@ == old(self).history@,
            final(self).last_latest_entry_id == (if frame@.len() == 0 {
                old(self).last_latest_entry_id
            } else {
                Some(frame@.last().id())
            }),
            ({
                let window = window_of(
                    frame@,
                    old(self).config.window_ms as int,
                    old(self).config.max_prompt_entries as nat,
                );
                &&& r is Some <==> is_worth_asking(frame@, old(self).last_latest_entry_id, window)
                &&& r matches Some(inquiry) ==> {
                    &&& entry_views(inquiry.window@) == window
                    &&& is_question(inquiry.request@, frame@, window, old(self).config)
                }
            }),
    {
        let entries = frame.entries();
        let len: usize = entries.len();
        if len == 0 {
            return None;
        }
        let latest = entries[len - 1].id();
        assert(frame@.last() == entries@[len - 1]@);
        let seen = match self.last_latest_entry_id {
            Some(id) => id == latest,
            None => false,
        };
        if seen {
            return None;
        }
        self.last_latest_entry_id = Some(latest);
        let window = recent_window(frame, self.config.window_ms, self.config.max_prompt_entries);
        let ghost all = entry_views(window@);
        let mut shown = false;
        let mut i: usize = 0;
        while i < window.len() && !shown
            invariant
                i <= window@.len(),
                all == entry_views(window@),
                shown ==> shows_impression(all),
                !shown ==> forall|k: int| 0 <= k < i ==> !((#[trigger] all[k]) is Impression),
            decreases window@.len() - i,
        {
            assert(all[i as int] == window@[i as int]@);
            match &window[i] {
                TimelineEntry::Impression(_) => {
                    shown = true;
                },
                _ => {},
            }
            i += 1;
        }
        if !shown {
            return None;
        }
        let context = ContextFrame::from_timeline(
            frame,
            window.as_slice(),
            DEFAULT_CONTEXT_FRAME_ITEMS,
        );
        let prompt = format_realtime_experience_prompt_with_cluster_gap(
            &context,
            window.as_slice(),
            self.config.cluster_gap_ms,
        );
        let mut request = GenerationRequest::default();
        request.prompt = prompt;
        request.max_tokens = Some(self.config.max_tokens);
        let ghost stamps = choose|stamps: Seq<StampsView>|
            are_stamps(stamps, all) && prompt@ == #[trigger] prompt_text(
                context@,
                all,
                stamps,
                self.config.cluster_gap_ms as int,
            );
        assert(request@ == (RequestView {
            prompt: prompt_text(context@, all, stamps, self.config.cluster_gap_ms as int),
            messages: Seq::empty(),
            images: Seq::empty(),
            max_tokens: Some(self.config.max_tokens),
            stop: Seq::empty(),
        }));
        Some(Inquiry { window, request })
    }
}

/// What the events of an answer lead to.
#[derive(Debug, PartialEq, Eq, Clone, Copy, Structural)]
pub enum Answering {
    /// It goes on.
    Pending,
    /// It is complete.
    Complete,
    /// Nothing comes of it.
    Failed,
}

/// The texts of an answer up to its first event that is none, and what that
/// event means.
pub open spec fn answered(events: Seq<EventView>) -> (Seq<char>, Answering)
    decreases events.len(),
{
    if events.len() == 0 {
        (Seq::empty(), Answering::Pending)
    } else {
        let (text, before) = answered(events.drop_last());
        if before != Answering::Pending {
            (text, before)
        } else {
            match events.last() {
                EventView::Token(more) => (text + more, Answering::Pending),
                EventView::Completed => (text, Answering::Complete),
                _ => (text, Answering::Failed),
            }
        }
    }
}

/// Adds the events of an answer to its text.
pub fn absorb(generated: &mut String, events: &Vec<LlmEvent>) -> (r: Answering)
    ensures
        final(generated)@ == old(generated)@ + answered(event_views(events@)).0,
        r == answered(event_views(events@)).1,
{
    let ghost start = generated@;
    let ghost all = event_views(events@);
    let mut r = Answering::Pending;
    let mut i: usize = 0;
    assert(all.take(0) =~= Seq::<EventView>::empty());
    assert(start + answered(all.take(0)).0 =~= start);
    while i < events.len()
        invariant
            i <= events@.len(),
            all == event_views(events@),
            generated@ == start + answered(all.take(i as int)).0,
            r == answered(all.take(i as int)).1,
        decreases events@.len() - i,
    {
        proof {
            assert(all.take(i + 1).drop_last() =~= all.take(i as int));
            assert(all.take(i + 1).last() == events@[i as int]@);
        }
        if r == Answering::Pending {
            match &events[i] {
                LlmEvent::Token { text } => {
                    generated.push_str(text.as_str());
                    assert(generated@ =~= start + answered(all.take(i + 1)).0);
                },
                LlmEvent::Completed => {
                    r = Answering::Complete;
                },
                _ => {
                    r = Answering::Failed;
                },
            }
        }
        i += 1;
    }
    assert(all.take(i as int) =~= all);
    r
}

/// Takes what an engine answered when it was polled: the experiences that come of
/// it, or nothing while the answer goes on.
pub fn take_polled(
    generated: &mut String,
    polled: Result<Vec<LlmEvent>, LlmError>,
    window: &[TimelineEntry],
) -> (r: Option<Vec<Experience>>)
    ensures
        match polled {
            Err(_) => {
                &&& final(generated)@ == old(generated)@
                &&& r matches Some(list) && list@.len() == 0
            },
            Ok(events) => {
                let (more, state) = answered(event_views(events@));
                &&& final(generated)@ == old(generated)@ + more
                &&& match state {
                    Answering::Pending => r is None,
                    Answering::Failed => r matches Some(list) && list@.len() == 0,
                    Answering::Complete => r matches Some(list) && is_told_by(
                        list@,
                        final(generated)@,
                        entry_views(window@),
                    ),
                }
            },
        },
{
    match polled {
        Err(_) => Some(Vec::new()),
        Ok(events) => match absorb(generated, &events) {
            Answering::Pending => None,
            Answering::Failed => Some(Vec::new()),
            Answering::Complete => Some(parse_experiences(generated.as_str(), window)),
        },
    }
}

/// Tells whether an answer was waited for long enough.
pub fn waited_enough(nanos: u128, timeout_ms: u64) -> (r: bool)
    ensures
        r == (nanos > timeout_ms * 1_000_000),
{
    nanos > (timeout_ms as u128) * 1_000_000
}

/// The calls that poll a generation.
pub open spec fn polls(
    id: GenerationId,
    polled: Seq<Result<Seq<EventView>, Seq<char>>>,
) -> Seq<EngineCall> {
    polled.map_values(
        |answer: Result<Seq<EventView>, Seq<char>>| EngineCall::Poll { id, answer },
    )
}

/// What an answer comes to when its generation is polled: more text, and whether
/// it goes on.
pub open spec fn heard(polled: Result<Seq<EventView>, Seq<char>>) -> (Seq<char>, Answering) {
    match polled {
        Err(_) => (Seq::empty(), Answering::Failed),
        Ok(events) => answered(events),
    }
}

/// The text of an answer after its generation was polled some times.
pub open spec fn gathered(polled: Seq<Result<Seq<EventView>, Seq<char>>>) -> Seq<char>
    decreases polled.len(),
{
    if polled.len() == 0 {
        Seq::empty()
    } else {
        gathered(polled.drop_last()) + heard(polled.last()).0
    }
}

/// Whether an answer went on however often its generation was polled.
pub open spec fn goes_on(polled: Seq<Result<Seq<EventView>, Seq<char>>>) -> bool {
    forall|i: int| 0 <= i < polled.len() ==> heard(#[trigger] polled[i]).1 == Answering::Pending
}

/// Whether some experiences are what came of waiting for an answer: the generation
/// was polled until its answer ended, and what the whole of it tells was taken; or
/// it was cancelled while the answer still went on.
pub open spec fn is_awaited(
    list: Seq<Experience>,
    id: GenerationId,
    polled: Seq<Result<Seq<EventView>, Seq<char>>>,
    cancelled: Option<Result<(), Seq<char>>>,
    before: Seq<EngineCall>,
    after: Seq<EngineCall>,
    window: Seq<EntryView>,
) -> bool {
    match cancelled {
        Some(answer) => {
            &&& goes_on(polled)
            &&& after == (before + polls(id, polled)).push(EngineCall::Cancel { id, answer })
            &&& list.len() == 0
        },
        None => {
            &&& polled.len() > 0
            &&& goes_on(polled.drop_last())
            &&& after == before + polls(id, polled)
            &&& match heard(polled.last()).1 {
                Answering::Pending => false,
                Answering::Failed => list.len() == 0,
                Answering::Complete => is_told_by(list, gathered(polled), window),
            }
        },
    }
}

/// Whether some experiences are what came of waiting for the answer of a
/// generation.
pub open spec fn is_waited_for(
    list: Seq<Experience>,
    id: GenerationId,
    before: Seq<EngineCall>,
    after: Seq<EngineCall>,
    window: Seq<EntryView>,
) -> bool {
    exists|
        polled: Seq<Result<Seq<EventView>, Seq<char>>>,
        cancelled: Option<Result<(), Seq<char>>>,
    | #[trigger] is_awaited(list, id, polled, cancelled, before, after, window)
}

/// Whether some experiences are what came of asking: the engine was started with
/// the question, and unless it refused, its answer was waited for.
pub open spec fn is_asked_for(
    list: Seq<Experience>,
    request: RequestView,
    before: Seq<EngineCall>,
    after: Seq<EngineCall>,
    window: Seq<EntryView>,
) -> bool {
    exists|answer: Result<GenerationId, Seq<char>>| #[trigger]
        is_asked_with(list, request, answer, before, after, window)
}

/// Whether some experiences are what came of a start and its answer.
pub open spec fn is_asked_with(
    list: Seq<Experience>,
    request: RequestView,
    answer: Result<GenerationId, Seq<char>>,
    before: Seq<EngineCall>,
    after: Seq<EngineCall>,
    window: Seq<EntryView>,
) -> bool {
    let asked = before.push(EngineCall::Start { request, answer });
    match answer {
        Err(_) => after == asked && list.len() == 0,
        Ok(id) => is_waited_for(list, id, asked, after, window),
    }
}

/// Whether some experiences are what came of a timeline. Where it is worth a
/// question, the engine was asked it; where it is not, the engine was left alone.
pub open spec fn is_interpreted<E: LlmEngine>(
    list: Seq<Experience>,
    entries: Seq<EntryView>,
    config: RealTimeExperienceConfig,
    last: Option<Id>,
    before: E,
    after: E,
) -> bool {
    let window = window_of(entries, config.window_ms as int, config.max_prompt_entries as nat);
    if is_worth_asking(entries, last, window) {
        exists|request: RequestView|
            is_question(request, entries, window, config) && #[trigger] is_asked_for(
                list,
                request,
                before.calls(),
                after.calls(),
                window,
            )
    } else {
        list.len() == 0 && after == before
    }
}

impl<E: LlmEngine> RealTimeExperienceWit<E> {
    /// Waits for an answer, and gives up when it takes too long.
    fn answer(&mut self, id: GenerationId, window: &[TimelineEntry]) -> (list: Vec<Experience>)
        ensures
            final(self).config == old(self).config,
            final(self).last_latest_entry_id == old(self).last_latest_entry_id,
            final(self).history@ == old(self).history@,
            is_waited_for(
                list@,
                id,
                old(self).engine.calls(),
                final(self).engine.calls(),
                entry_views(window@),
            ),
    {
        let ghost before = self.engine.calls();
        let ghost mut polled = Seq::<Result<Seq<EventView>, Seq<char>>>::empty();
        let mut generated = String::new();
        let started = start_clock();
        let mut passes: u64 = 0;
        assert(before + polls(id, polled) =~= before);
        while passes < u64::MAX && !waited_enough(
            nanos_elapsed(&started),
            self.config.poll_timeout_ms,
        )
            invariant
                self.config == old(self).config,
                self.last_latest_entry_id == old(self).last_latest_entry_id,
                self.history@ == old(self).history@,
                before == old(self).engine.calls(),
                self.engine.calls() == before + polls(id, polled),
                goes_on(polled),
                generated@ == gathered(polled),
            decreases u64::MAX - passes,
        {
            let answer = self.engine.poll(id);
            let ghost now = polled.push(polled_view(answer));
            proof {
                assert(self.engine.calls() =~= before + polls(id, now));
                assert(now.drop_last() =~= polled);
            }
            match take_polled(&mut generated, answer, window) {
                Some(list) => {
                    assert(is_awaited(
                        list@,
                        id,
                        now,
                        None,
                        before,
                        self.engine.calls(),
                        entry_views(window@),
                    ));
                    return list;
                },
                None => {
                    proof {
                        assert forall|i: int| 0 <= i < now.len() implies heard(
                            #[trigger] now[i],
                        ).1 == Answering::Pending by {
                            if i < polled.len() {
                                assert(now[i] == polled[i]);
                            }
                        }
                        polled = now;
                    }
                },
            }
            passes += 1;
        }
        let cancelled = self.engine.cancel(id);
        let list: Vec<Experience> = Vec::new();
        assert(is_awaited(
            list@,
            id,
            polled,
            Some(done_view(cancelled)),
            before,
            self.engine.calls(),
            entry_views(window@),
        ));
        list
    }

    /// Asks the model about a timeline that is worth it.
    fn ask(&mut self, frame: &TimelineFrame) -> (list: Vec<Experience>)
        ensures
            final(self).config == old(self).config,
            final(self).history@ == old(self).history@,
            final(self).last_latest_entry_id == (if frame@.len() == 0 {
                old(self).last_latest_entry_id
            } else {
                Some(frame@.last().id())
            }),
            is_interpreted(
                list@,
                frame@,
                old(self).config,
                old(self).last_latest_entry_id,
                old(self).engine,
                final(self).engine,
            ),
    {
        let ghost before = self.engine.calls();
        let inquiry = match self.prepare(frame) {
            Some(inquiry) => inquiry,
            None => {
                return Vec::new();
            },
        };
        let ghost window = entry_views(inquiry.window@);
        let ghost request = inquiry.request@;
        let started = self.engine.start(inquiry.request);
        let ghost answer = done_view(started);
        let ghost asked = self.engine.calls();
        let list = match started {
            Ok(id) => self.answer(id, inquiry.window.as_slice()),
            Err(_) => Vec::new(),
        };
        proof {
            match started {
                Ok(id) => {
                    assert(answer == Ok::<GenerationId, Seq<char>>(id));
                    assert(is_waited_for(list@, id, asked, self.engine.calls(), window));
                },
                Err(_) => {
                    assert(answer is Err);
                    assert(self.engine.calls() == asked);
                    assert(list@.len() == 0);
                },
            }
            assert(is_asked_with(list@, request, answer, before, self.engine.calls(), window));
            assert(is_asked_for(list@, request, before, self.engine.calls(), window));
        }
        list
    }
}

impl<E: LlmEngine> Wit for RealTimeExperienceWit<E> {
    open spec fn asked(&self) -> Seq<Asked> {
        self.history@
    }

    fn interpret(&mut self, frame: &TimelineFrame) -> (list: Vec<Experience>)
        ensures
            final(self).config == old(self).config,
            final(self).last_latest_entry_id == (if frame@.len() == 0 {
                old(self).last_latest_entry_id
            } else {
                Some(frame@.last().id())
            }),
            is_interpreted(
                list@,
                frame@,
                old(self).config,
                old(self).last_latest_entry_id,
                old(self).engine,
                final(self).engine,
            ),
    {
        let list = self.ask(frame);
        self.history = Ghost(
            self.history@.push(Asked { frame: frame@, answer: experiences(list@) }),
        );
        list
    }
}

/// A timeline is not asked about twice: one whose latest entry was looked at is
/// not worth a question.
pub proof fn law_timeline_is_not_asked_about_twice(
    entries: Seq<EntryView>,
    last: Option<Id>,
    window: Seq<EntryView>,
)
    requires
        is_worth_asking(entries, last, window),
    ensures
        !is_worth_asking(entries, Some(entries.last().id()), window),
{
}

/// Nothing that an entry says reaches a prompt with an angle bracket in it: the
/// texts of impressions and experiences, the faculties, the payloads and the
/// context frame are all escaped.
pub proof fn law_prompted_texts_have_no_angles(text: Seq<char>, context: FrameView, i: int)
    ensures
        0 <= i < prompt_string(text).len() ==> prompt_string(text)[i] != '<' && prompt_string(
            text,
        )[i] != '>',
        0 <= i < without_angles(rendered(context)).len() ==> without_angles(rendered(context))[i]
            != '<' && without_angles(rendered(context))[i] != '>',
{
    law_escaped_text_has_no_angles(crate::json::quoted(text));
    law_escaped_text_has_no_angles(rendered(context));
}

/// The window of a timeline is its end: the latest entry is in it, nothing in it
/// happened longer ago than the window is long, and what is left out is too old or
/// too much.
pub proof fn law_window_is_what_just_happened(frame: Seq<EntryView>, window_ms: int, max: nat)
    requires
        in_order(frame, entry_time()),
        frame.len() > 0,
        window_ms >= 0,
        max > 0,
    ensures
        exists|n: int|
            0 <= n < frame.len() && window_of(frame, window_ms, max) == #[trigger] frame.skip(n)
                && frame.len() - n <= max && (forall|i: int|
                n <= i < frame.len() ==> frame.last().occurred_at()@ - (
                #[trigger] frame[i]).occurred_at()@ <= window_ms * 1_000_000) && (n == 0
                || frame.len() - n == max || frame.last().occurred_at()@ - frame[n
                - 1].occurred_at()@ > window_ms * 1_000_000),
{
    let latest = frame.last().occurred_at()@;
    let start = latest - window_ms * 1_000_000;
    let p = |e: EntryView| start <= e.occurred_at()@ <= latest;
    let k = lemma_first_since(frame, start);
    assert forall|i: int| 0 <= i < frame.len() implies (#[trigger] p(frame[i]) <==> k <= i
        < frame.len()) by {
        assert(entry_time()(frame[i]) <= entry_time()(frame[frame.len() - 1]));
        if i < k {
            assert(frame[i].occurred_at()@ < start);
        } else {
            assert(start <= frame[i].occurred_at()@);
        }
    }
    lemma_filter_stretch(frame, p, k, frame.len() as int);
    let all = within(frame, start, latest);
    assert(all =~= frame.skip(k));
    assert(not_negative(window_ms) * NANOS_PER_MILLI == window_ms * 1_000_000);
    let n = if all.len() <= max {
        k
    } else {
        frame.len() - max
    };
    assert(window_of(frame, window_ms, max) =~= frame.skip(n));
}

/// Where the entries begin that are no older than a moment.
proof fn lemma_first_since(frame: Seq<EntryView>, start: int) -> (k: int)
    requires
        in_order(frame, entry_time()),
        frame.len() > 0,
        start <= frame.last().occurred_at()@,
    ensures
        0 <= k < frame.len(),
        forall|i: int| 0 <= i < k ==> (#[trigger] frame[i]).occurred_at()@ < start,
        forall|i: int| k <= i < frame.len() ==> start <= (#[trigger] frame[i]).occurred_at()@,
    decreases frame.len(),
{
    let n = frame.len() as int;
    if n == 1 {
        0
    } else if frame[n - 2].occurred_at()@ < start {
        assert forall|i: int| 0 <= i < n - 1 implies (#[trigger] frame[i]).occurred_at()@ < start by {
            assert(entry_time()(frame[i]) <= entry_time()(frame[n - 2]));
        }
        n - 1
    } else {
        let front = frame.drop_last();
        assert forall|i: int, j: int| 0 <= i <= j < front.len() implies entry_time()(
            #[trigger] front[i],
        ) <= entry_time()(#[trigger] front[j]) by {
            assert(front[i] == frame[i] && front[j] == frame[j]);
        }
        let k = lemma_first_since(front, start);
        assert forall|i: int| 0 <= i < k implies (#[trigger] frame[i]).occurred_at()@ < start by {
            assert(front[i] == frame[i]);
        }
        assert forall|i: int| k <= i < n implies start <= (#[trigger] frame[i]).occurred_at()@ by {
            if i < n - 1 {
                assert(front[i] == frame[i]);
            }
        }
        k
    }
}

/// A timeline that has just been joined by an impression is asked about, unless
/// that impression was looked at before; a timeline without impressions never is.
pub proof fn law_new_impression_is_asked_about(
    frame: Seq<EntryView>,
    last: Option<Id>,
    window_ms: int,
    max: nat,
)
    requires
        in_order(frame, entry_time()),
        frame.len() > 0,
        window_ms >= 0,
        max > 0,
    ensures
        frame.last() is Impression ==> (is_worth_asking(frame, last, window_of(frame, window_ms, max))
            <==> last != Some(frame.last().id())),
        (forall|i: int| 0 <= i < frame.len() ==> !((#[trigger] frame[i]) is Impression))
            ==> !is_worth_asking(frame, last, window_of(frame, window_ms, max)),
{
    law_window_is_what_just_happened(frame, window_ms, max);
    let window = window_of(frame, window_ms, max);
    let n = choose|n: int|
        0 <= n < frame.len() && window == #[trigger] frame.skip(n) && frame.len() - n <= max && (
        forall|i: int|
            n <= i < frame.len() ==> frame.last().occurred_at()@ - (
            #[trigger] frame[i]).occurred_at()@ <= window_ms * 1_000_000) && (n == 0 || frame.len()
            - n == max || frame.last().occurred_at()@ - frame[n - 1].occurred_at()@ > window_ms
            * 1_000_000);
    assert(window[window.len() - 1] == frame.last());
    assert forall|i: int| 0 <= i < window.len() implies #[trigger] window[i] == frame[n + i] by {}
}

/// What is understood is drawn from all the impressions of the window, in order,
/// and from nothing else.
pub proof fn law_understanding_is_drawn_from_the_impressions(entries: Seq<EntryView>, e: EntryView)
    ensures
        impression_ids(Seq::<EntryView>::empty()).len() == 0,
        last_impression_time(Seq::<EntryView>::empty()) is None,
        match e {
            EntryView::Impression(i) => {
                &&& impression_ids(entries.push(e)) == impression_ids(entries).push(i.id)
                &&& understood_at(entries.push(e)) == Some(i.occurred_at)
            },
            _ => {
                &&& impression_ids(entries.push(e)) == impression_ids(entries)
                &&& impression_ids(entries).len() > 0 ==> understood_at(entries.push(e))
                    == understood_at(entries)
                &&& impression_ids(entries).len() == 0 ==> understood_at(entries.push(e)) == Some(
                    e.occurred_at(),
                )
            },
        },
{
    assert(entries.push(e).drop_last() =~= entries);
    lemma_some_impression(entries);
}

proof fn lemma_some_impression(entries: Seq<EntryView>)
    ensures
        impression_ids(entries).len() > 0 <==> last_impression_time(entries) is Some,
    decreases entries.len(),
{
    if entries.len() > 0 {
        lemma_some_impression(entries.drop_last());
    }
}

/// An answer without marks of a turn is understood word for word, with its white
/// space collapsed; a blank one says nothing.
pub proof fn law_answer_is_understood_as_said(generated: Seq<char>)
    requires
        forall|i: int| 0 <= i < generated.len() ==> (#[trigger] generated[i]) != '<',
    ensures
        answer_text(generated) == if collapsed(generated).len() == 0 {
            None
        } else {
            Some(collapsed(generated))
        },
        is_spaced(generated) && generated.len() > 0 ==> answer_text(generated) == Some(generated),
{
    reveal_strlit("<start_of_turn>model");
    reveal_strlit("<end_of_turn>");
    reveal_strlit("<turn|>");
    lemma_no_mark(generated, "<start_of_turn>model"@);
    lemma_no_mark(generated, "<end_of_turn>"@);
    lemma_no_mark(generated, "<turn|>"@);
    if is_spaced(generated) {
        lemma_spaced_stays(generated);
    }
}

proof fn lemma_no_mark(text: Seq<char>, mark: Seq<char>)
    requires
        forall|i: int| 0 <= i < text.len() ==> (#[trigger] text[i]) != '<',
        mark.len() > 0,
        mark[0] == '<',
    ensures
        replaced(text, mark, Seq::empty()) == text,
{
    lemma_found(text, mark);
    if let Some(k) = found(text, mark) {
        assert(text.subrange(k, k + mark.len())[0] == text[k]);
    }
}

/// The texts that an engine reports before its first other event, laid end to end,
/// are the answer, as they are; that other event completes it or makes it fail.
pub proof fn law_answer_is_made_of_its_texts(events: Seq<EventView>, n: int)
    requires
        0 <= n <= events.len(),
        forall|i: int| 0 <= i < n ==> (#[trigger] events[i]) is Token,
        n < events.len() ==> !(events[n] is Token),
    ensures
        answered(events).0 == flat(Seq::new(n as nat, |i: int| events[i]->Token_0)),
        answered(events).1 == if n == events.len() {
            Answering::Pending
        } else if events[n] is Completed {
            Answering::Complete
        } else {
            Answering::Failed
        },
    decreases events.len(),
{
    if events.len() > 0 {
        let front = events.drop_last();
        assert forall|i: int| 0 <= i < front.len() implies #[trigger] front[i] == events[i] by {}
        let k = if n == events.len() {
            n - 1
        } else {
            n
        };
        law_answer_is_made_of_its_texts(front, k);
        let list = Seq::new(n as nat, |i: int| events[i]->Token_0);
        let shorter = Seq::new(k as nat, |i: int| front[i]->Token_0);
        if n == events.len() {
            assert(events[n - 1] is Token);
            assert(list.drop_last() =~= shorter);
        } else {
            assert(list =~= shorter);
        }
    }
}

/// A window that is worth a question, and that the engine answers at the first
/// poll with plain words and an end, is understood in these words, as one
/// experience.
pub proof fn law_complete_answer_is_one_experience(
    list: Seq<Experience>,
    id: GenerationId,
    polled: Seq<Result<Seq<EventView>, Seq<char>>>,
    before: Seq<EngineCall>,
    after: Seq<EngineCall>,
    window: Seq<EntryView>,
    text: Seq<char>,
)
    requires
        is_awaited(list, id, polled, None, before, after, window),
        polled.len() == 1,
        polled[0] == Ok::<Seq<EventView>, Seq<char>>(
            seq![EventView::Token(text), EventView::Completed],
        ),
        is_spaced(text),
        text.len() > 0,
        forall|i: int| 0 <= i < text.len() ==> (#[trigger] text[i]) != '<',
    ensures
        list.len() == 1,
        list[0]@.what == text,
        list[0]@.impression_ids == impression_ids(window),
        window.len() > 0 ==> Some(list[0]@.occurred_at) == understood_at(window),
        after == before.push(EngineCall::Poll { id, answer: polled[0] }),
{
    let events = seq![EventView::Token(text), EventView::Completed];
    law_answer_is_made_of_its_texts(events, 1);
    let texts = Seq::new(1, |i: int| events[i]->Token_0);
    assert(texts.drop_last() =~= Seq::<Seq<char>>::empty());
    assert(flat(texts.drop_last()) =~= Seq::<char>::empty());
    assert(flat(texts) =~= text);
    assert(polled.drop_last() =~= Seq::<Result<Seq<EventView>, Seq<char>>>::empty());
    assert(gathered(polled.drop_last()) =~= Seq::<char>::empty());
    assert(gathered(polled) =~= text);
    law_answer_is_understood_as_said(text);
    assert(after =~= before.push(EngineCall::Poll { id, answer: polled[0] }));
}

/// A prompt tells its entries one after the other: whatever was told of the first
/// entries stays at its beginning, and the last entry is told last.
pub proof fn law_prompt_tells_entries_in_order(
    entries: Seq<EntryView>,
    stamps: Seq<StampsView>,
    gap: int,
    n: int,
)
    requires
        0 < n,
    ensures
        starts(timeline_text(entries, stamps, gap, n), timeline_text(entries, stamps, gap, n - 1)),
        ends(
            timeline_text(entries, stamps, gap, n),
            entry_text(entries[n - 1], entries[0].occurred_at(), stamps[n - 1]),
        ),
{
    let whole = timeline_text(entries, stamps, gap, n);
    let before = timeline_text(entries, stamps, gap, n - 1);
    let last = entry_text(entries[n - 1], entries[0].occurred_at(), stamps[n - 1]);
    assert(whole.subrange(0, before.len() as int) =~= before);
    assert(whole.subrange(whole.len() - last.len(), whole.len() as int) =~= last);
}

/// An entry is told with how long after the first it happened and the local time
/// at which it did, and what it says stands at its end: the text of an impression,
/// and what was understood of an experience.
pub proof fn law_entry_is_told_with_its_time_and_words(
    e: EntryView,
    start: Timestamp,
    stamps: StampsView,
)
    ensures
        starts(
            entry_text(e, start, stamps),
            "T+"@ + seconds(e.occurred_at().spec_millis_since(start)) + " occurred_at="@
                + stamps.occurred_at,
        ),
        match e {
            EntryView::Impression(i) => ends(
                entry_text(e, start, stamps),
                " text="@ + prompt_string(i.text) + "\n"@,
            ),
            EntryView::Experience(x) => ends(
                entry_text(e, start, stamps),
                " what="@ + prompt_string(x.what) + "\n"@,
            ),
            EntryView::Sensation(s) => s.kind != "memory.related_experience"@ ==> ends(
                entry_text(e, start, stamps),
                " id="@ + hyphenated(s.id) + " source="@ + s.source + " observed_at="@
                    + stamps.observed_at + "\n"@,
            ),
        },
{
    reveal(entry_text);
    let told = entry_text(e, start, stamps);
    let head = "T+"@ + seconds(elapsed(e, start)) + " occurred_at="@ + stamps.occurred_at;
    assert(told.subrange(0, head.len() as int) =~= head);
    match e {
        EntryView::Impression(i) => {
            let tail = " text="@ + prompt_string(i.text) + "\n"@;
            assert(told.subrange(told.len() - tail.len(), told.len() as int) =~= tail);
        },
        EntryView::Experience(x) => {
            reveal_strlit("] what=");
            reveal_strlit(" what=");
            assert("] what="@ =~= seq![']'] + " what="@);
            let tail = " what="@ + prompt_string(x.what) + "\n"@;
            assert(told.subrange(told.len() - tail.len(), told.len() as int) =~= tail);
        },
        EntryView::Sensation(s) => {
            if s.kind != "memory.related_experience"@ {
                let tail = " id="@ + hyphenated(s.id) + " source="@ + s.source + " observed_at="@
                    + stamps.observed_at + "\n"@;
                assert(told.subrange(told.len() - tail.len(), told.len() as int) =~= tail);
            }
        },
    }
}

/// A cluster goes on while the step from one entry to the next is no longer than the
/// gap, and ends before the first that is longer.
pub proof fn law_cluster_ends_at_the_first_gap(entries: Seq<EntryView>, gap: int, i: int)
    requires
        0 <= i < entries.len(),
    ensures
        ({
            let j = cluster_end(entries, gap, i);
            &&& i <= j < entries.len()
            &&& forall|k: int|
                #![trigger entries[k]]
                i < k <= j ==> entries[k].occurred_at()@ - entries[k - 1].occurred_at()@ <= gap
            &&& j + 1 < entries.len() ==> entries[j + 1].occurred_at()@ - entries[j].occurred_at()@
                > gap
        }),
    decreases entries.len() - i,
{
    if i + 1 < entries.len() && !opens(entries, gap, i + 1) {
        law_cluster_ends_at_the_first_gap(entries, gap, i + 1);
    }
}

} // verus!
