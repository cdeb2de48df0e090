//! Cutting a stream of text into sentences, each with the emoji that follows it.

use vstd::prelude::*;

use crate::chars::is_white_space;
use crate::seqs::{flat, lemma_flat_add};
use crate::text::{skip, take, texts, trim, trim_start, trimmed, trimmed_end, trimmed_start};
use crate::voice_text::{
    emoji_head, find_sentence_end, led, parted, sentence_end, split_leading_emoji, split_trailing_emoji,
};

verus! {

/// The sentences that are complete in a text, and the rest.
pub open spec fn drained(buffer: Seq<char>) -> (Seq<Seq<char>>, Seq<char>)
    decreases buffer.len(),
{
    match sentence_end(buffer) {
        Some(end) => {
            let rest = trimmed_start(buffer.skip(end));
            if 0 < end <= buffer.len() && rest.len() < buffer.len() {
                let first = trimmed(buffer.take(end));
                let (more, left) = drained(rest);
                (
                    if first.len() == 0 {
                        more
                    } else {
                        seq![first] + more
                    },
                    left,
                )
            } else {
                (Seq::empty(), buffer)
            }
        },
        None => (Seq::empty(), buffer),
    }
}

/// A sentence with something behind it.
pub open spec fn extended(sentence: Seq<char>, more: Seq<char>) -> Seq<char> {
    sentence.push(' ') + more
}

/// What a segmenter holds: the text that is not cut yet, and the sentences held
/// back for the emoji that may follow.
pub ghost struct SegmenterView {
    pub buffer: Seq<char>,
    pub pending: Seq<Seq<char>>,
}

impl SegmenterView {
    /// The segmenter with more text, the emoji that begins it attached to the
    /// last sentence held back; and that sentence, given out.
    pub open spec fn attached(self) -> (SegmenterView, Seq<Seq<char>>) {
        match led(self.buffer) {
            Some((emoji, rest)) => if self.pending.len() > 0 {
                (
                    SegmenterView {
                        buffer: trimmed_start(rest),
                        pending: self.pending.drop_last(),
                    },
                    seq![extended(self.pending.last(), emoji)],
                )
            } else {
                (self, Seq::empty())
            },
            None => (self, Seq::empty()),
        }
    }

    /// What more text does: the segmenter then, and the sentences given out. The
    /// last sentence is held back.
    pub open spec fn pushed(self, chunk: Seq<char>) -> (SegmenterView, Seq<Seq<char>>) {
        let (state, out) = (SegmenterView { buffer: self.buffer + chunk, ..self }).attached();
        let (found, rest) = drained(state.buffer);
        let all = state.pending + found;
        let held = if all.len() == 0 {
            0
        } else {
            all.len() - 1
        };
        (SegmenterView { buffer: rest, pending: all.skip(held) }, out + all.take(held))
    }

    /// What is given out at the end.
    pub open spec fn finished(self) -> Seq<Seq<char>> {
        let rest = trimmed(self.buffer);
        if rest.len() == 0 {
            self.pending
        } else if self.pending.len() == 1 && parted(rest).1 is Some {
            seq![extended(self.pending[0], rest)]
        } else {
            self.pending.push(rest)
        }
    }
}

/// Cuts a stream of text into sentences. The last complete sentence is held back
/// until more text, or the end, shows whether an emoji follows it.
#[derive(Debug)]
pub struct VoiceSentenceSegmenter {
    buffer: String,
    pending: Vec<String>,
}

impl View for VoiceSentenceSegmenter {
    type V = SegmenterView;

    closed spec fn view(&self) -> SegmenterView {
        SegmenterView { buffer: self.buffer@, pending: texts(self.pending@) }
    }
}

/// A sentence with something behind it.
fn extend(sentence: &str, more: &str) -> (s: String)
    ensures
        s@ == extended(sentence@, more@),
{
    let mut s = sentence.to_owned();
    s.push(' ');
    s.push_str(more);
    s
}

impl VoiceSentenceSegmenter {
    /// A segmenter that has seen nothing.
    pub fn new() -> (r: VoiceSentenceSegmenter)
        ensures
            r@ == (SegmenterView { buffer: Seq::empty(), pending: Seq::empty() }),
    {
        let r = VoiceSentenceSegmenter { buffer: String::new(), pending: Vec::new() };
        assert(r@.pending =~= Seq::<Seq<char>>::empty());
        r
    }

    /// Attaches the emoji that begins the text to the last sentence held back,
    /// and gives that out.
    fn attach_leading_emoji_to_pending_sentence(&mut self) -> (r: Option<String>)
        ensures
            final(self)@ == old(self)@.attached().0,
            match r {
                Some(sentence) => old(self)@.attached().1 == seq![sentence@],
                None => old(self)@.attached().1 == Seq::<Seq<char>>::empty(),
            },
    {
        let n: usize = self.pending.len();
        if n == 0 {
            return None;
        }
        match split_leading_emoji(self.buffer.as_str()) {
            None => None,
            Some((emoji, rest)) => {
                let sentence = extend(self.pending[n - 1].as_str(), emoji.as_str());
                let ghost before = texts(self.pending@);
                assert(before.last() == self.pending@[n - 1]@);
                self.buffer = trim_start(rest.as_str()).to_owned();
                self.pending.pop();
                assert(texts(self.pending@) =~= before.drop_last());
                Some(sentence)
            },
        }
    }

    /// Takes more text and gives out the sentences that are complete, but for the
    /// last.
    pub fn push_str(&mut self, chunk: &str) -> (out: Vec<String>)
        ensures
            final(self)@ == old(self)@.pushed(chunk@).0,
            texts(out@) == old(self)@.pushed(chunk@).1,
            final(self)@.pending.len() <= 1,
    {
        let mut out: Vec<String> = Vec::new();
        self.buffer.push_str(chunk);
        let ghost begun = self@;
        let attached = self.attach_leading_emoji_to_pending_sentence();
        match attached {
            Some(sentence) => {
                out.push(sentence);
            },
            None => {},
        }
        assert(texts(out@) =~= begun.attached().1);
        let ghost state = self@;
        let ghost found = drained(state.buffer).0;
        let ghost given = texts(out@);
        let mut end = find_sentence_end(self.buffer.as_str());
        proof {
            assert(state.pending + found =~= texts(self.pending@) + drained(self.buffer@).0);
        }
        while end.is_some()
            invariant
                match end {
                    Some(n) => sentence_end(self.buffer@) == Some(n as int) && 0 < n
                        <= self.buffer@.len(),
                    None => sentence_end(self.buffer@) is None,
                },
                state.pending + found == texts(self.pending@) + drained(self.buffer@).0,
                drained(self.buffer@).1 == drained(state.buffer).1,
            decreases self.buffer@.len(),
        {
            let n: usize = end.unwrap();
            let sentence = trim(take(self.buffer.as_str(), n)).to_owned();
            let rest = trim_start(skip(self.buffer.as_str(), n)).to_owned();
            let ghost before = texts(self.pending@);
            proof {
                crate::text::lemma_trimmed_start(
                    self.buffer@.skip(n as int),
                    crate::chars::CharClass::WhiteSpace,
                );
            }
            let empty = sentence.as_str().unicode_len() == 0;
            if !empty {
                self.pending.push(sentence);
                assert(texts(self.pending@) =~= before.push(sentence@));
            }
            self.buffer = rest;
            assert(state.pending + found =~= texts(self.pending@) + drained(self.buffer@).0);
            end = find_sentence_end(self.buffer.as_str());
        }
        let ghost all = texts(self.pending@);
        assert(drained(self.buffer@).0 =~= Seq::<Seq<char>>::empty());
        assert(all =~= state.pending + found);
        let ghost held = if all.len() == 0 {
            0
        } else {
            all.len() - 1
        };
        let count: usize = self.pending.len();
        let mut i: usize = 0;
        while i + 1 < count
            invariant
                count == self.pending@.len(),
                all == texts(self.pending@),
                held == (if all.len() == 0 {
                    0
                } else {
                    all.len() - 1
                }),
                i <= held,
                texts(out@) == given + all.take(i as int),
            decreases count - i,
        {
            let ghost before = texts(out@);
            out.push(self.pending[i].clone());
            assert(texts(out@) =~= before.push(all[i as int]));
            assert(given + all.take(i + 1) =~= (given + all.take(i as int)).push(all[i as int]));
            i += 1;
        }
        let last = self.pending.pop();
        self.pending = Vec::new();
        match last {
            Some(sentence) => {
                self.pending.push(sentence);
                assert(texts(self.pending@) =~= all.skip(held));
            },
            None => {
                assert(texts(self.pending@) =~= all.skip(held));
            },
        }
        out
    }

    /// Ends the stream and gives out what is left.
    pub fn finish(self) -> (out: Vec<String>)
        ensures
            texts(out@) == self@.finished(),
    {
        let rest = trim(self.buffer.as_str()).to_owned();
        let mut out = self.pending;
        if rest.as_str().unicode_len() > 0 {
            let follows = out.len() == 1 && split_trailing_emoji(rest.as_str()).1.is_some();
            if follows {
                let whole = extend(out[0].as_str(), rest.as_str());
                assert(texts(out@)[0] == out@[0]@);
                out = Vec::new();
                out.push(whole);
                assert(texts(out@) =~= self@.finished());
            } else {
                out.push(rest);
                assert(texts(out@) =~= texts(self.pending@).push(rest@));
            }
        }
        out
    }
}

impl Default for VoiceSentenceSegmenter {
    fn default() -> (r: VoiceSentenceSegmenter)
        ensures
            r@ == (SegmenterView { buffer: Seq::empty(), pending: Seq::empty() }),
    {
        VoiceSentenceSegmenter::new()
    }
}

/// A text without its white space.
pub open spec fn dense(s: Seq<char>) -> Seq<char>
    decreases s.len(),
{
    if s.len() == 0 {
        s
    } else if is_white_space(s.last()) {
        dense(s.drop_last())
    } else {
        dense(s.drop_last()).push(s.last())
    }
}

/// What a segmenter that has seen nothing comes to when it takes some texts in
/// turn: its state then, and all sentences given out.
pub open spec fn fed(chunks: Seq<Seq<char>>) -> (SegmenterView, Seq<Seq<char>>)
    decreases chunks.len(),
{
    if chunks.len() == 0 {
        (SegmenterView { buffer: Seq::empty(), pending: Seq::empty() }, Seq::empty())
    } else {
        let (state, out) = fed(chunks.drop_last());
        let (now, more) = state.pushed(chunks.last());
        (now, out + more)
    }
}

/// Nothing is lost, repeated or put in another place: whatever texts a segmenter
/// takes, the sentences that it gives out, those at the end among them, are the
/// texts laid end to end, but for white space; and none of them is empty.
pub proof fn law_sentences_are_the_text(chunks: Seq<Seq<char>>)
    ensures
        dense(flat(fed(chunks).1 + fed(chunks).0.finished())) == dense(flat(chunks)),
        forall|i: int|
            0 <= i < (fed(chunks).1 + fed(chunks).0.finished()).len() ==> (#[trigger] (fed(chunks).1
                + fed(chunks).0.finished())[i]).len() > 0,
{
    let (state, out) = fed(chunks);
    lemma_fed(chunks);
    let rest = trimmed(state.buffer);
    lemma_dense_trimmed(state.buffer);
    let last = state.finished();
    lemma_flat_add(out, last);
    lemma_dense_add(flat(out), flat(last));
    if rest.len() == 0 {
        assert(dense(rest) =~= Seq::<char>::empty());
        assert(dense(flat(out)) + dense(flat(state.pending)) + dense(state.buffer) =~= dense(
            flat(out),
        ) + dense(flat(state.pending)));
    } else if state.pending.len() == 1 && parted(rest).1 is Some {
        lemma_flat_one(state.pending);
        lemma_flat_one(last);
        lemma_dense_extended(state.pending[0], rest);
        assert(dense(flat(out)) + dense(flat(state.pending)) + dense(state.buffer) =~= dense(
            flat(out),
        ) + dense(flat(last)));
    } else {
        assert(last.drop_last() =~= state.pending);
        lemma_dense_add(flat(state.pending), rest);
        assert(dense(flat(out)) + dense(flat(state.pending)) + dense(state.buffer) =~= dense(
            flat(out),
        ) + dense(flat(last)));
    }
    let all = out + last;
    assert forall|i: int| 0 <= i < all.len() implies (#[trigger] all[i]).len() > 0 by {
        if i < out.len() {
            assert(all[i] == out[i]);
        } else {
            assert(all[i] == last[i - out.len()]);
            if rest.len() == 0 || i - out.len() < state.pending.len() {
                if last == state.pending || last.len() > 1 {
                    assert(last[i - out.len()] == state.pending[i - out.len()]);
                }
            }
        }
    }
}

/// Whether no text of a list is empty.
spec fn none_empty(list: Seq<Seq<char>>) -> bool {
    forall|i: int| 0 <= i < list.len() ==> (#[trigger] list[i]).len() > 0
}

proof fn lemma_dense_add(a: Seq<char>, b: Seq<char>)
    ensures
        dense(a + b) == dense(a) + dense(b),
    decreases b.len(),
{
    if b.len() == 0 {
        assert(a + b =~= a);
        assert(dense(a) + dense(b) =~= dense(a));
    } else {
        lemma_dense_add(a, b.drop_last());
        assert((a + b).drop_last() =~= a + b.drop_last());
        assert((a + b).last() == b.last());
        assert((dense(a) + dense(b.drop_last())).push(b.last()) =~= dense(a) + dense(
            b.drop_last(),
        ).push(b.last()));
    }
}

proof fn lemma_dense_start(s: Seq<char>)
    ensures
        dense(trimmed_start(s)) == dense(s),
    decreases s.len(),
{
    if s.len() > 0 && is_white_space(s[0]) {
        lemma_dense_start(s.drop_first());
        lemma_dense_add(seq![s[0]], s.drop_first());
        assert(seq![s[0]] + s.drop_first() =~= s);
        assert(seq![s[0]].drop_last() =~= Seq::<char>::empty());
        reveal_with_fuel(dense, 2);
        assert(dense(seq![s[0]]) =~= Seq::<char>::empty());
        assert(dense(seq![s[0]]) + dense(s.drop_first()) =~= dense(s.drop_first()));
    }
}

proof fn lemma_dense_end(s: Seq<char>)
    ensures
        dense(trimmed_end(s)) == dense(s),
    decreases s.len(),
{
    if s.len() > 0 && is_white_space(s.last()) {
        lemma_dense_end(s.drop_last());
    }
}

proof fn lemma_dense_trimmed(s: Seq<char>)
    ensures
        dense(trimmed(s)) == dense(s),
{
    lemma_dense_start(s);
    lemma_dense_end(trimmed_start(s));
}

proof fn lemma_dense_extended(sentence: Seq<char>, more: Seq<char>)
    ensures
        dense(extended(sentence, more)) == dense(sentence) + dense(more),
{
    lemma_dense_add(sentence.push(' '), more);
    assert(sentence.push(' ').drop_last() =~= sentence);
}

proof fn lemma_flat_one(list: Seq<Seq<char>>)
    requires
        list.len() == 1,
    ensures
        flat(list) == list[0],
{
    reveal_with_fuel(flat, 2);
    assert(list.drop_last() =~= Seq::<Seq<char>>::empty());
    assert(flat(list) =~= list[0]);
}

/// The sentences cut from a text, and the rest, are the text.
proof fn lemma_drained(buffer: Seq<char>)
    ensures
        dense(flat(drained(buffer).0)) + dense(drained(buffer).1) == dense(buffer),
        none_empty(drained(buffer).0),
    decreases buffer.len(),
{
    let empty = Seq::<Seq<char>>::empty();
    assert(dense(flat(empty)) =~= Seq::<char>::empty());
    match sentence_end(buffer) {
        Some(end) => {
            let rest = trimmed_start(buffer.skip(end));
            if 0 < end <= buffer.len() && rest.len() < buffer.len() {
                let first = trimmed(buffer.take(end));
                let (more, left) = drained(rest);
                lemma_drained(rest);
                lemma_dense_trimmed(buffer.take(end));
                lemma_dense_start(buffer.skip(end));
                lemma_dense_add(buffer.take(end), buffer.skip(end));
                assert(buffer.take(end) + buffer.skip(end) =~= buffer);
                if first.len() == 0 {
                    assert(dense(first) =~= Seq::<char>::empty());
                    assert(dense(first) + dense(rest) =~= dense(rest));
                } else {
                    lemma_flat_add(seq![first], more);
                    lemma_flat_one(seq![first]);
                    lemma_dense_add(first, flat(more));
                    assert(dense(first) + dense(flat(more)) + dense(left) =~= dense(first) + (
                    dense(flat(more)) + dense(left)));
                    let all = seq![first] + more;
                    assert forall|i: int| 0 <= i < all.len() implies (#[trigger] all[i]).len() > 0 by {
                        if i > 0 {
                            assert(all[i] == more[i - 1]);
                        }
                    }
                }
            } else {
                assert(dense(flat(empty)) + dense(buffer) =~= dense(buffer));
            }
        },
        None => {
            assert(dense(flat(empty)) + dense(buffer) =~= dense(buffer));
        },
    }
}

/// What is given out with an emoji, and what stays, is what was held.
proof fn lemma_attached(state: SegmenterView)
    requires
        state.pending.len() <= 1,
        none_empty(state.pending),
    ensures
        dense(flat(state.attached().1)) + dense(flat(state.attached().0.pending)) + dense(
            state.attached().0.buffer,
        ) == dense(flat(state.pending)) + dense(state.buffer),
        state.attached().0.pending.len() <= 1,
        none_empty(state.attached().0.pending),
        none_empty(state.attached().1),
{
    let empty = Seq::<Seq<char>>::empty();
    assert(dense(flat(empty)) =~= Seq::<char>::empty());
    let same = dense(flat(state.pending)) + dense(state.buffer);
    assert(dense(flat(empty)) + dense(flat(state.pending)) + dense(state.buffer) =~= same);
    match led(state.buffer) {
        Some((emoji, rest)) => if state.pending.len() > 0 {
            let s = trimmed_start(state.buffer);
            let n = emoji_head(s, false) as int;
            let held = state.pending[0];
            let out = seq![extended(held, emoji)];
            lemma_emoji_head(s, false);
            lemma_dense_start(state.buffer);
            lemma_dense_start(rest);
            lemma_dense_add(emoji, rest);
            assert(emoji + rest =~= s);
            lemma_flat_one(state.pending);
            lemma_flat_one(out);
            lemma_dense_extended(held, emoji);
            assert(state.pending.drop_last() =~= empty);
            assert(dense(flat(out)) + dense(flat(empty)) + dense(trimmed_start(rest)) =~= dense(held)
                + (dense(emoji) + dense(rest)));
        },
        None => {},
    }
}

/// Emoji that begin a text are no longer than it.
proof fn lemma_emoji_head(s: Seq<char>, follows: bool)
    ensures
        emoji_head(s, follows) <= s.len(),
    decreases s.len(),
{
    if s.len() > 0 {
        lemma_emoji_head(s.skip(1), true);
    }
}

/// Where no text of a list is empty, none of its beginning and of its end is.
proof fn lemma_none_empty(list: Seq<Seq<char>>, n: int)
    requires
        none_empty(list),
        0 <= n <= list.len(),
    ensures
        none_empty(list.take(n)),
        none_empty(list.skip(n)),
{
    assert forall|i: int| 0 <= i < list.take(n).len() implies (#[trigger] list.take(n)[i]).len() > 0 by {
        assert(list.take(n)[i] == list[i]);
    }
    assert forall|i: int| 0 <= i < list.skip(n).len() implies (#[trigger] list.skip(n)[i]).len() > 0 by {
        assert(list.skip(n)[i] == list[n + i]);
    }
}

/// Where no text of two lists is empty, none of the two together is.
proof fn lemma_none_empty_add(a: Seq<Seq<char>>, b: Seq<Seq<char>>)
    requires
        none_empty(a),
        none_empty(b),
    ensures
        none_empty(a + b),
{
    let all = a + b;
    assert forall|i: int| 0 <= i < all.len() implies (#[trigger] all[i]).len() > 0 by {
        if i < a.len() {
            assert(all[i] == a[i]);
        } else {
            assert(all[i] == b[i - a.len()]);
        }
    }
}

/// The texts of two lists, laid end to end without white space.
proof fn lemma_dense_flat(a: Seq<Seq<char>>, b: Seq<Seq<char>>)
    ensures
        dense(flat(a + b)) == dense(flat(a)) + dense(flat(b)),
{
    lemma_flat_add(a, b);
    lemma_dense_add(flat(a), flat(b));
}

/// What more text makes of a segmenter loses, repeats and moves nothing.
proof fn lemma_pushed(before: SegmenterView, chunk: Seq<char>)
    requires
        before.pending.len() <= 1,
        none_empty(before.pending),
    ensures
        ({
            let (now, more) = before.pushed(chunk);
            &&& dense(flat(more)) + (dense(flat(now.pending)) + dense(now.buffer)) == dense(
                flat(before.pending),
            ) + (dense(before.buffer) + dense(chunk))
            &&& now.pending.len() <= 1
            &&& none_empty(now.pending)
            &&& none_empty(more)
        }),
{
    let begun = SegmenterView { buffer: before.buffer + chunk, ..before };
    let (state, given) = begun.attached();
    lemma_attached(begun);
    lemma_dense_add(before.buffer, chunk);
    let (found, rest) = drained(state.buffer);
    lemma_drained(state.buffer);
    let all = state.pending + found;
    let held: int = if all.len() == 0 {
        0
    } else {
        all.len() - 1
    };
    lemma_none_empty_add(state.pending, found);
    lemma_none_empty(all, held);
    lemma_none_empty_add(given, all.take(held));
    lemma_dense_flat(given, all.take(held));
    lemma_dense_flat(all.take(held), all.skip(held));
    assert(all.take(held) + all.skip(held) =~= all);
    lemma_dense_flat(state.pending, found);
    lemma_regrouped(
        dense(flat(given)),
        dense(flat(all.take(held))),
        dense(flat(all.skip(held))),
        dense(flat(state.pending)),
        dense(flat(found)),
        dense(rest),
    );
}

proof fn lemma_regrouped(
    b: Seq<char>,
    c: Seq<char>,
    d: Seq<char>,
    p: Seq<char>,
    f: Seq<char>,
    e: Seq<char>,
)
    requires
        c + d == p + f,
    ensures
        (b + c) + (d + e) == b + p + (f + e),
{
    assert((b + c) + (d + e) =~= b + (c + d) + e);
    assert(b + (p + f) + e =~= b + p + (f + e));
}

/// What was given out, what is held back and what is not cut yet are the texts.
proof fn lemma_fed(chunks: Seq<Seq<char>>)
    ensures
        dense(flat(fed(chunks).1)) + dense(flat(fed(chunks).0.pending)) + dense(
            fed(chunks).0.buffer,
        ) == dense(flat(chunks)),
        fed(chunks).0.pending.len() <= 1,
        none_empty(fed(chunks).0.pending),
        none_empty(fed(chunks).1),
    decreases chunks.len(),
{
    if chunks.len() == 0 {
        let empty = Seq::<Seq<char>>::empty();
        assert(dense(flat(empty)) =~= Seq::<char>::empty());
        assert(dense(flat(fed(chunks).1)) + dense(flat(fed(chunks).0.pending)) + dense(
            fed(chunks).0.buffer,
        ) =~= dense(flat(chunks)));
    } else {
        let (before, out) = fed(chunks.drop_last());
        let chunk = chunks.last();
        lemma_fed(chunks.drop_last());
        lemma_pushed(before, chunk);
        let (now, more) = before.pushed(chunk);
        lemma_dense_add(flat(chunks.drop_last()), chunk);
        lemma_dense_flat(out, more);
        lemma_none_empty_add(out, more);
        let a = dense(flat(out));
        let m = dense(flat(more));
        let p = dense(flat(now.pending));
        let e = dense(now.buffer);
        let q = dense(flat(before.pending));
        let f = dense(before.buffer);
        let c = dense(chunk);
        assert((a + m) + p + e =~= a + (m + (p + e)));
        assert(a + (q + (f + c)) =~= (a + q + f) + c);
    }
}

/// While no sentence has ended and none is held back, nothing is given out, and the
/// text gathers.
pub proof fn law_text_gathers_until_a_sentence_ends(s: SegmenterView, chunk: Seq<char>)
    requires
        s.pending.len() == 0,
        sentence_end(s.buffer + chunk) is None,
    ensures
        s.pushed(chunk).1.len() == 0,
        s.pushed(chunk).0.buffer == s.buffer + chunk,
        s.pushed(chunk).0.pending.len() == 0,
{
}

/// A sentence that ends with the text is held back, with nothing left; it is given
/// out at the end.
pub proof fn law_whole_sentence_is_held_back(s: SegmenterView, chunk: Seq<char>)
    requires
        s.pending.len() == 0,
        s.buffer + chunk == trimmed(s.buffer + chunk),
        (s.buffer + chunk).len() > 0,
        sentence_end(s.buffer + chunk) == Some((s.buffer + chunk).len() as int),
    ensures
        s.pushed(chunk).1.len() == 0,
        s.pushed(chunk).0.buffer.len() == 0,
        s.pushed(chunk).0.pending == seq![s.buffer + chunk],
        s.pushed(chunk).0.finished() == seq![s.buffer + chunk],
{
    let text = s.buffer + chunk;
    assert(text.skip(text.len() as int) =~= Seq::empty());
    assert(text.take(text.len() as int) =~= text);
    let rest = trimmed_start(Seq::<char>::empty());
    assert(rest.len() == 0);
    assert(rest =~= Seq::empty());
    reveal_with_fuel(drained, 3);
    let (found, left) = drained(text);
    assert(found =~= seq![text]);
    assert(left.len() == 0);
    let all = s.pending + found;
    assert(all =~= seq![text]);
    assert(all.skip(0) =~= seq![text]);
    assert(all.take(0) =~= Seq::<Seq<char>>::empty());
    assert(trimmed(left).len() == 0);
}

/// An emoji that begins the text behind a sentence held back belongs to that
/// sentence, which is given out with it, before all else.
pub proof fn law_emoji_belongs_to_the_sentence_before(
    s: SegmenterView,
    chunk: Seq<char>,
    emoji: Seq<char>,
    rest: Seq<char>,
)
    requires
        s.pending.len() == 1,
        led(s.buffer + chunk) == Some((emoji, rest)),
    ensures
        s.pushed(chunk).1.len() > 0,
        s.pushed(chunk).1[0] == s.pending[0] + seq![' '] + emoji,
{
    assert(s.pending.last().push(' ') =~= s.pending[0] + seq![' ']);
}

} // verus!
