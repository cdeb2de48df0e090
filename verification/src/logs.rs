//! Logs that keep what is recent.

use std::collections::VecDeque;
use vstd::prelude::*;

verus! {

/// The sensations that are kept.
pub const MAX_RECORDED_SENSATIONS: usize = 200;

/// The frames that are kept with their pictures.
pub const MAX_RECORDED_RAW_VISION_FRAMES: usize = 6;

/// The faces that are kept with their pictures.
pub const MAX_RECORDED_FACE_CROPS: usize = 24;

/// The sentences that are kept with their sound.
pub const MAX_RECORDED_AUDIO_SENTENCE_CLIPS: usize = 80;

/// The impressions that are kept.
pub const MAX_RECORDED_VISION_IMPRESSIONS: usize = 80;

/// The experiences that are kept.
pub const MAX_RECORDED_EXPERIENCES: usize = 80;

/// The thoughts that are kept.
pub const MAX_RECORDED_VOICE_OBSERVATIONS: usize = 80;

/// A log of at most `limit` items with one more: the oldest makes room.
pub open spec fn logged<T>(items: Seq<T>, item: T, limit: nat) -> Seq<T> {
    if items.len() == limit && limit > 0 {
        items.skip(1).push(item)
    } else {
        items.push(item)
    }
}

/// Adds an item to a log of at most `limit` items: the oldest makes room.
pub fn push_limited<T>(items: &mut VecDeque<T>, item: T, limit: usize)
    ensures
        final(items)@ == logged(old(items)@, item, limit as nat),
{
    if items.len() == limit {
        items.pop_front();
    }
    items.push_back(item);
    assert(items@ =~= logged(old(items)@, item, limit as nat));
}

/// A log never holds more than its limit, its last item is the one added, and
/// what was in it stays in order, but for the oldest.
pub proof fn law_log_keeps_the_latest<T>(items: Seq<T>, item: T, limit: nat)
    requires
        0 < limit,
        items.len() <= limit,
    ensures
        logged(items, item, limit).len() <= limit,
        logged(items, item, limit).last() == item,
        logged(items, item, limit).drop_last() == items || logged(items, item, limit).drop_last()
            == items.skip(1),
{
    if items.len() == limit {
        assert(items.skip(1).push(item).drop_last() =~= items.skip(1));
    } else {
        assert(items.push(item).drop_last() =~= items);
    }
}

/// A log that is not full keeps everything; a full one loses its oldest item and
/// nothing else.
pub proof fn law_log_loses_only_the_oldest<T>(items: Seq<T>, item: T, limit: nat)
    requires
        0 < limit,
        items.len() <= limit,
    ensures
        items.len() < limit ==> logged(items, item, limit) == items + seq![item],
        items.len() == limit ==> logged(items, item, limit) == items.drop_first() + seq![item],
{
    assert(items.push(item) =~= items + seq![item]);
    if items.len() == limit {
        assert(items.skip(1).push(item) =~= items.drop_first() + seq![item]);
    }
}

} // verus!
