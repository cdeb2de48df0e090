//! Text as a sequence of characters: trimming, splitting, joining, finding and
//! replacing.
//!
//! The specification functions come first. Positions in a text are counted in
//! characters.

use vstd::prelude::*;
use vstd::string::*;

use crate::chars::{ascii_lower, is_white_space, to_ascii_lower, CharClass};

verus! {

/// The views of a list of strings.
pub open spec fn texts(list: Seq<String>) -> Seq<Seq<char>> {
    list.map_values(|s: String| s@)
}

/// An optional text.
pub open spec fn optional(value: Option<String>) -> Option<Seq<char>> {
    match value {
        Some(text) => Some(text@),
        None => None,
    }
}

/// The optional texts of a list.
pub open spec fn optional_texts(list: Seq<Option<String>>) -> Seq<Option<Seq<char>>> {
    list.map_values(|o: Option<String>| optional(o))
}

/// `s` without the characters of `class` that it starts with.
pub open spec fn trimmed_start_of(s: Seq<char>, class: CharClass) -> Seq<char>
    decreases s.len(),
{
    if s.len() > 0 && class.holds(s[0]) {
        trimmed_start_of(s.drop_first(), class)
    } else {
        s
    }
}

/// `s` without the characters of `class` that it ends with.
pub open spec fn trimmed_end_of(s: Seq<char>, class: CharClass) -> Seq<char>
    decreases s.len(),
{
    if s.len() > 0 && class.holds(s.last()) {
        trimmed_end_of(s.drop_last(), class)
    } else {
        s
    }
}

/// `s` without the characters of `class` at either end.
pub open spec fn trimmed_of(s: Seq<char>, class: CharClass) -> Seq<char> {
    trimmed_end_of(trimmed_start_of(s, class), class)
}

/// `s` without white space at either end.
pub open spec fn trimmed(s: Seq<char>) -> Seq<char> {
    trimmed_of(s, CharClass::WhiteSpace)
}

/// `s` without white space at its start.
pub open spec fn trimmed_start(s: Seq<char>) -> Seq<char> {
    trimmed_start_of(s, CharClass::WhiteSpace)
}

/// `s` without white space at its end.
pub open spec fn trimmed_end(s: Seq<char>) -> Seq<char> {
    trimmed_end_of(s, CharClass::WhiteSpace)
}

/// Whether nothing but white space is in `s`.
pub open spec fn is_blank(s: Seq<char>) -> bool {
    trimmed(s).len() == 0
}

/// The position of the first character of `class`, or the length of `s`.
pub open spec fn first_of(s: Seq<char>, class: CharClass) -> nat
    decreases s.len(),
{
    if s.len() == 0 || class.holds(s[0]) {
        0
    } else {
        1 + first_of(s.drop_first(), class)
    }
}

/// The parts of `s` between the characters of `class`, empty ones among them.
pub open spec fn pieces(s: Seq<char>, class: CharClass) -> Seq<Seq<char>>
    decreases s.len(),
{
    let n = first_of(s, class);
    if n < s.len() {
        seq![s.take(n as int)] + pieces(s.skip(n as int + 1), class)
    } else {
        seq![s]
    }
}

/// The members of a list that are not empty, in order.
pub open spec fn nonempty(list: Seq<Seq<char>>) -> Seq<Seq<char>>
    decreases list.len(),
{
    if list.len() == 0 {
        list
    } else if list.last().len() > 0 {
        nonempty(list.drop_last()).push(list.last())
    } else {
        nonempty(list.drop_last())
    }
}

/// The words of `s`: its parts between white space.
pub open spec fn words(s: Seq<char>) -> Seq<Seq<char>> {
    nonempty(pieces(s, CharClass::WhiteSpace))
}

/// The members of a list, one after the other, with `sep` between them.
pub open spec fn joined(list: Seq<Seq<char>>, sep: Seq<char>) -> Seq<char>
    decreases list.len(),
{
    if list.len() == 0 {
        Seq::empty()
    } else if list.len() == 1 {
        list[0]
    } else {
        joined(list.drop_last(), sep) + sep + list.last()
    }
}

/// The words of `s` with one space between them.
pub open spec fn collapsed(s: Seq<char>) -> Seq<char> {
    joined(words(s), seq![' '])
}

/// Whether `p` stands in `s` at position `i`.
pub open spec fn stands_at(s: Seq<char>, p: Seq<char>, i: int) -> bool {
    &&& 0 <= i
    &&& i + p.len() <= s.len()
    &&& s.subrange(i, i + p.len()) == p
}

/// The first position, from `i` on, at which `p` stands in `s`.
pub open spec fn find_from(s: Seq<char>, p: Seq<char>, i: int) -> Option<int>
    decreases s.len() + 1 - i,
{
    if i < 0 || i + p.len() > s.len() {
        None
    } else if stands_at(s, p, i) {
        Some(i)
    } else {
        find_from(s, p, i + 1)
    }
}

/// The first position at which `p` stands in `s`.
pub open spec fn found(s: Seq<char>, p: Seq<char>) -> Option<int> {
    find_from(s, p, 0)
}

/// Whether `p` stands anywhere in `s`.
pub open spec fn occurs(s: Seq<char>, p: Seq<char>) -> bool {
    found(s, p) is Some
}

/// Whether `s` starts with `p`.
pub open spec fn starts(s: Seq<char>, p: Seq<char>) -> bool {
    stands_at(s, p, 0)
}

/// Whether `s` ends with `p`.
pub open spec fn ends(s: Seq<char>, p: Seq<char>) -> bool {
    stands_at(s, p, s.len() - p.len())
}

/// `s` with every `from` replaced by `to`, from the left. An empty `from`
/// replaces nothing.
pub open spec fn replaced(s: Seq<char>, from: Seq<char>, to: Seq<char>) -> Seq<char>
    decreases s.len(),
{
    match found(s, from) {
        Some(i) => if from.len() > 0 && 0 <= i && i + from.len() <= s.len() {
            s.take(i) + to + replaced(s.skip(i + from.len()), from, to)
        } else {
            s
        },
        None => s,
    }
}

/// `s` with its ASCII capital letters lowered.
pub open spec fn lowered(s: Seq<char>) -> Seq<char> {
    s.map_values(|c: char| ascii_lower(c))
}

/// The first position at which one of `markers` stands in `s`, or its length.
pub open spec fn earliest(s: Seq<char>, markers: Seq<Seq<char>>) -> int
    decreases markers.len(),
{
    if markers.len() == 0 {
        s.len() as int
    } else {
        let before = earliest(s, markers.drop_last());
        match found(s, markers.last()) {
            Some(i) => if i < before {
                i
            } else {
                before
            },
            None => before,
        }
    }
}

/// `s` up to the first of `markers`, trimmed.
pub open spec fn cut_at(s: Seq<char>, markers: Seq<Seq<char>>) -> Seq<char> {
    trimmed(s.take(earliest(s, markers)))
}

/// The last `n` characters of `s`, or all of it.
pub open spec fn last_chars(s: Seq<char>, n: nat) -> Seq<char> {
    if s.len() <= n {
        s
    } else {
        s.skip(s.len() - n)
    }
}

// ---------------------------------------------------------------------------
// Facts about the specification functions.

/// What `find_from` finds is the first place, and it finds one if there is one.
pub proof fn lemma_find_from(s: Seq<char>, p: Seq<char>, i: int)
    requires
        0 <= i,
    ensures
        find_from(s, p, i) matches Some(k) ==> {
            &&& i <= k
            &&& stands_at(s, p, k)
            &&& forall|j: int| i <= j < k ==> !stands_at(s, p, j)
        },
        find_from(s, p, i) is None ==> forall|j: int| i <= j ==> !stands_at(s, p, j),
    decreases s.len() + 1 - i,
{
    if i + p.len() > s.len() {
    } else if stands_at(s, p, i) {
    } else {
        lemma_find_from(s, p, i + 1);
    }
}

/// A text stands in another exactly where `found` has something to return, and
/// `found` returns the first such position.
pub proof fn lemma_found(s: Seq<char>, p: Seq<char>)
    ensures
        found(s, p) matches Some(k) ==> {
            &&& stands_at(s, p, k)
            &&& forall|j: int| 0 <= j < k ==> !stands_at(s, p, j)
        },
        found(s, p) is None ==> forall|j: int| !stands_at(s, p, j),
        occurs(s, p) <==> exists|j: int| stands_at(s, p, j),
{
    lemma_find_from(s, p, 0);
}

/// `first_of` stops at the first character of the class.
pub proof fn lemma_first_of(s: Seq<char>, class: CharClass)
    ensures
        first_of(s, class) <= s.len(),
        first_of(s, class) < s.len() ==> class.holds(s[first_of(s, class) as int]),
        forall|i: int| 0 <= i < first_of(s, class) ==> !class.holds(#[trigger] s[i]),
    decreases s.len(),
{
    if s.len() == 0 || class.holds(s[0]) {
    } else {
        let rest = s.drop_first();
        lemma_first_of(rest, class);
        assert forall|i: int| 0 <= i < first_of(s, class) implies !class.holds(#[trigger] s[i]) by {
            if i > 0 {
                assert(s[i] == rest[i - 1]);
            }
        }
        if first_of(s, class) < s.len() {
            assert(s[first_of(s, class) as int] == rest[first_of(rest, class) as int]);
        }
    }
}

/// The position that satisfies the description of `first_of` is `first_of`.
pub proof fn lemma_first_of_unique(s: Seq<char>, class: CharClass, n: nat)
    requires
        n <= s.len(),
        n < s.len() ==> class.holds(s[n as int]),
        forall|i: int| 0 <= i < n ==> !class.holds(#[trigger] s[i]),
    ensures
        first_of(s, class) == n,
{
    lemma_first_of(s, class);
    let k = first_of(s, class);
    if k < n {
        assert(!class.holds(s[k as int]));
    } else if n < k {
        assert(!class.holds(s[n as int]));
    }
}

/// Trimming the start takes a prefix away, and the rest does not start with a
/// character of the class.
pub proof fn lemma_trimmed_start(s: Seq<char>, class: CharClass)
    ensures
        exists|n: int|
            0 <= n <= s.len() && #[trigger] s.skip(n) == trimmed_start_of(s, class) && forall|i: int|
                0 <= i < n ==> class.holds(#[trigger] s[i]),
        trimmed_start_of(s, class).len() <= s.len(),
        trimmed_start_of(s, class).len() > 0 ==> !class.holds(trimmed_start_of(s, class)[0]),
    decreases s.len(),
{
    if s.len() > 0 && class.holds(s[0]) {
        let rest = s.drop_first();
        lemma_trimmed_start(rest, class);
        let m = choose|m: int|
            0 <= m <= rest.len() && #[trigger] rest.skip(m) == trimmed_start_of(rest, class) && forall|
                i: int,
            |
                0 <= i < m ==> class.holds(#[trigger] rest[i]);
        assert(s.skip(m + 1) =~= rest.skip(m));
        assert forall|i: int| 0 <= i < m + 1 implies class.holds(#[trigger] s[i]) by {
            if i > 0 {
                assert(s[i] == rest[i - 1]);
            }
        }
    } else {
        assert(s.skip(0) =~= s);
    }
}

/// Trimming the end takes a suffix away, and the rest does not end with a
/// character of the class.
pub proof fn lemma_trimmed_end(s: Seq<char>, class: CharClass)
    ensures
        exists|n: int|
            0 <= n <= s.len() && #[trigger] s.take(n) == trimmed_end_of(s, class) && forall|i: int|
                n <= i < s.len() ==> class.holds(#[trigger] s[i]),
        trimmed_end_of(s, class).len() <= s.len(),
        trimmed_end_of(s, class).len() > 0 ==> !class.holds(trimmed_end_of(s, class).last()),
    decreases s.len(),
{
    if s.len() > 0 && class.holds(s.last()) {
        let rest = s.drop_last();
        lemma_trimmed_end(rest, class);
        let m = choose|m: int|
            0 <= m <= rest.len() && #[trigger] rest.take(m) == trimmed_end_of(rest, class) && forall|
                i: int,
            |
                m <= i < rest.len() ==> class.holds(#[trigger] rest[i]);
        assert(s.take(m) =~= rest.take(m));
        assert forall|i: int| m <= i < s.len() implies class.holds(#[trigger] s[i]) by {
            if i < s.len() - 1 {
                assert(s[i] == rest[i]);
            }
        }
    } else {
        assert(s.take(s.len() as int) =~= s);
    }
}

/// A text that neither starts nor ends with the class is left as it is.
pub proof fn lemma_trimmed_noop(s: Seq<char>, class: CharClass)
    requires
        s.len() > 0 ==> !class.holds(s[0]) && !class.holds(s.last()),
    ensures
        trimmed_of(s, class) == s,
{
}

/// Both ends of a trimmed text are outside the class.
pub proof fn lemma_trimmed_ends(s: Seq<char>, class: CharClass)
    ensures
        trimmed_of(s, class).len() > 0 ==> {
            &&& !class.holds(trimmed_of(s, class)[0])
            &&& !class.holds(trimmed_of(s, class).last())
        },
        trimmed_of(s, class).len() <= s.len(),
{
    let t = trimmed_start_of(s, class);
    lemma_trimmed_start(s, class);
    lemma_trimmed_end(t, class);
    let n = choose|n: int|
        0 <= n <= t.len() && #[trigger] t.take(n) == trimmed_end_of(t, class) && forall|i: int|
            n <= i < t.len() ==> class.holds(#[trigger] t[i]);
    if trimmed_of(s, class).len() > 0 {
        assert(t.take(n)[0] == t[0]);
    }
}

/// Trimming a trimmed text changes nothing.
pub proof fn lemma_trim_idempotent(s: Seq<char>, class: CharClass)
    ensures
        trimmed_of(trimmed_of(s, class), class) == trimmed_of(s, class),
{
    lemma_trimmed_ends(s, class);
    lemma_trimmed_noop(trimmed_of(s, class), class);
}

/// A trimmed text is no longer than the text, and every character of it comes
/// from there.
pub proof fn lemma_trimmed_within(s: Seq<char>, class: CharClass)
    ensures
        trimmed_of(s, class).len() <= s.len(),
        forall|i: int|
            0 <= i < trimmed_of(s, class).len() ==> s.contains(#[trigger] trimmed_of(s, class)[i]),
{
    let t = trimmed_start_of(s, class);
    lemma_trimmed_start(s, class);
    lemma_trimmed_end(t, class);
    let m = choose|m: int|
        0 <= m <= s.len() && #[trigger] s.skip(m) == t && forall|i: int|
            0 <= i < m ==> class.holds(#[trigger] s[i]);
    let n = choose|n: int|
        0 <= n <= t.len() && #[trigger] t.take(n) == trimmed_end_of(t, class) && forall|i: int|
            n <= i < t.len() ==> class.holds(#[trigger] t[i]);
    assert forall|i: int| 0 <= i < trimmed_of(s, class).len() implies s.contains(
        #[trigger] trimmed_of(s, class)[i],
    ) by {
        assert(t.take(n)[i] == t[i]);
        assert(s.skip(m)[i] == s[m + i]);
    }
}

/// `nonempty` of a list of one.
pub proof fn lemma_nonempty_one(x: Seq<char>)
    ensures
        x.len() > 0 ==> nonempty(seq![x]) == seq![x],
        x.len() == 0 ==> nonempty(seq![x]) == Seq::<Seq<char>>::empty(),
{
    let none = Seq::<Seq<char>>::empty();
    assert(nonempty(none) == none);
    assert(seq![x].drop_last() =~= none);
    assert(none.push(x) =~= seq![x]);
}

/// `nonempty` of two lists one after the other.
pub proof fn lemma_nonempty_add(a: Seq<Seq<char>>, b: Seq<Seq<char>>)
    ensures
        nonempty(a + b) == nonempty(a) + nonempty(b),
    decreases b.len(),
{
    if b.len() == 0 {
        assert(a + b =~= a);
        assert(nonempty(a) + nonempty(b) =~= nonempty(a));
    } else {
        lemma_nonempty_add(a, b.drop_last());
        assert((a + b).drop_last() =~= a + b.drop_last());
        assert((a + b).last() == b.last());
        assert(nonempty(a + b) =~= nonempty(a) + nonempty(b));
    }
}

/// `nonempty` keeps only members that are not empty, and only members.
pub proof fn lemma_nonempty_members(list: Seq<Seq<char>>)
    ensures
        forall|i: int| 0 <= i < nonempty(list).len() ==> (#[trigger] nonempty(list)[i]).len() > 0,
        forall|i: int|
            0 <= i < nonempty(list).len() ==> list.contains(#[trigger] nonempty(list)[i]),
        nonempty(list).len() <= list.len(),
    decreases list.len(),
{
    if list.len() > 0 {
        lemma_nonempty_members(list.drop_last());
        let rest = nonempty(list.drop_last());
        assert forall|i: int| 0 <= i < nonempty(list).len() implies list.contains(
            #[trigger] nonempty(list)[i],
        ) by {
            if i < rest.len() {
                assert(list.drop_last().contains(rest[i]));
                let k = choose|k: int| 0 <= k < list.drop_last().len() && list.drop_last()[k] == rest[i];
                assert(list[k] == nonempty(list)[i]);
            } else {
                assert(list[list.len() - 1] == nonempty(list)[i]);
            }
        }
    }
}

/// No part between characters of a class holds one of them.
pub proof fn lemma_pieces(s: Seq<char>, class: CharClass)
    ensures
        pieces(s, class).len() >= 1,
        forall|k: int, i: int|
            0 <= k < pieces(s, class).len() && 0 <= i < pieces(s, class)[k].len()
                ==> !class.holds(#[trigger] pieces(s, class)[k][i]),
    decreases s.len(),
{
    let n = first_of(s, class);
    lemma_first_of(s, class);
    if n < s.len() {
        let rest = s.skip(n as int + 1);
        lemma_pieces(rest, class);
        assert forall|k: int, i: int|
            0 <= k < pieces(s, class).len() && 0 <= i < pieces(s, class)[k].len() implies !class.holds(
            #[trigger] pieces(s, class)[k][i],
        ) by {
            if k == 0 {
                assert(pieces(s, class)[0] == s.take(n as int));
                assert(s.take(n as int)[i] == s[i]);
            } else {
                assert(pieces(s, class)[k] == pieces(rest, class)[k - 1]);
            }
        }
    } else {
        assert forall|k: int, i: int|
            0 <= k < pieces(s, class).len() && 0 <= i < pieces(s, class)[k].len() implies !class.holds(
            #[trigger] pieces(s, class)[k][i],
        ) by {
            assert(pieces(s, class)[k] == s);
        }
    }
}

/// Words are not empty and hold no white space.
pub proof fn lemma_words(s: Seq<char>)
    ensures
        forall|k: int| 0 <= k < words(s).len() ==> (#[trigger] words(s)[k]).len() > 0,
        forall|k: int, i: int|
            0 <= k < words(s).len() && 0 <= i < words(s)[k].len()
                ==> !CharClass::WhiteSpace.holds(#[trigger] words(s)[k][i]),
{
    let class = CharClass::WhiteSpace;
    let parts = pieces(s, class);
    lemma_pieces(s, class);
    lemma_nonempty_members(parts);
    assert forall|k: int, i: int| 0 <= k < words(s).len() && 0 <= i < words(s)[k].len() implies !class.holds(
        #[trigger] words(s)[k][i],
    ) by {
        assert(parts.contains(words(s)[k]));
        let m = choose|m: int| 0 <= m < parts.len() && parts[m] == words(s)[k];
        assert(!class.holds(parts[m][i]));
    }
}

/// A text with a character that is not white space has words.
pub proof fn lemma_has_words(s: Seq<char>, i: int)
    requires
        0 <= i < s.len(),
        !is_white_space(s[i]),
    ensures
        words(s).len() > 0,
        collapsed(s).len() > 0,
    decreases s.len(),
{
    let class = CharClass::WhiteSpace;
    let n = first_of(s, class) as int;
    lemma_first_of(s, class);
    assert(words(s).len() > 0) by {
        if n < s.len() {
            let head = seq![s.take(n)];
            let tail = pieces(s.skip(n + 1), class);
            lemma_nonempty_add(head, tail);
            lemma_nonempty_one(s.take(n));
            if n == 0 {
                assert(s.skip(1)[i - 1] == s[i]);
                lemma_has_words(s.skip(1), i - 1);
            }
        } else {
            lemma_nonempty_one(s);
        }
    }
    lemma_words(s);
    assert(words(s)[0].len() > 0);
    lemma_joined_longer(words(s), seq![' ']);
}

/// A joined list is no shorter than its first member.
proof fn lemma_joined_longer(list: Seq<Seq<char>>, sep: Seq<char>)
    requires
        list.len() > 0,
    ensures
        joined(list, sep).len() >= list[0].len(),
    decreases list.len(),
{
    if list.len() > 1 {
        lemma_joined_longer(list.drop_last(), sep);
    }
}

/// Splitting a text that starts with a part free of the class, followed by a
/// character of the class.
pub proof fn lemma_pieces_step(head: Seq<char>, c: char, tail: Seq<char>, class: CharClass)
    requires
        class.holds(c),
        forall|i: int| 0 <= i < head.len() ==> !class.holds(#[trigger] head[i]),
    ensures
        pieces(head + seq![c] + tail, class) == seq![head] + pieces(tail, class),
{
    let s = head + seq![c] + tail;
    assert forall|i: int| 0 <= i < head.len() implies !class.holds(#[trigger] s[i]) by {
        assert(s[i] == head[i]);
    }
    assert(s[head.len() as int] == c);
    lemma_first_of_unique(s, class, head.len());
    assert(s.take(head.len() as int) =~= head);
    assert(s.skip(head.len() as int + 1) =~= tail);
}

/// Splitting a text that is free of the class.
pub proof fn lemma_pieces_whole(s: Seq<char>, class: CharClass)
    requires
        forall|i: int| 0 <= i < s.len() ==> !class.holds(#[trigger] s[i]),
    ensures
        pieces(s, class) == seq![s],
{
    lemma_first_of_unique(s, class, s.len());
}

/// The members of a list after the first, joined, behind the first.
pub proof fn lemma_joined_front(list: Seq<Seq<char>>, sep: Seq<char>)
    requires
        list.len() >= 2,
    ensures
        joined(list, sep) == list[0] + sep + joined(list.drop_first(), sep),
    decreases list.len(),
{
    if list.len() == 2 {
        assert(joined(list.drop_last(), sep) == list[0]);
        assert(list.drop_first()[0] == list[1]);
    } else {
        lemma_joined_front(list.drop_last(), sep);
        assert(list.drop_last().drop_first() =~= list.drop_first().drop_last());
        assert(list.drop_first().last() == list.last());
        assert(joined(list, sep) =~= list[0] + sep + joined(list.drop_first(), sep));
    }
}

/// The words of words joined by spaces are those words.
pub proof fn lemma_words_joined(list: Seq<Seq<char>>)
    requires
        forall|k: int| 0 <= k < list.len() ==> (#[trigger] list[k]).len() > 0,
        forall|k: int, i: int|
            0 <= k < list.len() && 0 <= i < list[k].len() ==> !CharClass::WhiteSpace.holds(
                #[trigger] list[k][i],
            ),
    ensures
        words(joined(list, seq![' '])) == list,
    decreases list.len(),
{
    let class = CharClass::WhiteSpace;
    let sep = seq![' '];
    if list.len() == 0 {
        let e = Seq::<char>::empty();
        lemma_pieces_whole(e, class);
        lemma_nonempty_one(e);
        assert(words(e) =~= list);
    } else if list.len() == 1 {
        assert forall|i: int| 0 <= i < list[0].len() implies !class.holds(#[trigger] list[0][i]) by {}
        lemma_pieces_whole(list[0], class);
        lemma_nonempty_one(list[0]);
        assert(words(list[0]) =~= list);
    } else {
        let rest = list.drop_first();
        assert forall|k: int| 0 <= k < rest.len() implies (#[trigger] rest[k]).len() > 0 by {
            assert(rest[k] == list[k + 1]);
        }
        assert forall|k: int, i: int| 0 <= k < rest.len() && 0 <= i < rest[k].len() implies !class.holds(
            #[trigger] rest[k][i],
        ) by {
            assert(rest[k] == list[k + 1]);
            assert(!class.holds(list[k + 1][i]));
        }
        lemma_words_joined(rest);
        lemma_joined_front(list, sep);
        assert forall|i: int| 0 <= i < list[0].len() implies !class.holds(#[trigger] list[0][i]) by {}
        lemma_pieces_step(list[0], ' ', joined(rest, sep), class);
        lemma_nonempty_add(seq![list[0]], pieces(joined(rest, sep), class));
        lemma_nonempty_one(list[0]);
        assert(words(joined(list, sep)) =~= list);
    }
}

/// Words joined by spaces neither start nor end with white space.
pub proof fn lemma_joined_words_ends(list: Seq<Seq<char>>)
    requires
        forall|k: int| 0 <= k < list.len() ==> (#[trigger] list[k]).len() > 0,
        forall|k: int, i: int|
            0 <= k < list.len() && 0 <= i < list[k].len() ==> !CharClass::WhiteSpace.holds(
                #[trigger] list[k][i],
            ),
    ensures
        joined(list, seq![' ']).len() > 0 ==> {
            &&& !CharClass::WhiteSpace.holds(joined(list, seq![' '])[0])
            &&& !CharClass::WhiteSpace.holds(joined(list, seq![' ']).last())
        },
        list.len() > 0 ==> joined(list, seq![' ']).len() > 0,
    decreases list.len(),
{
    let class = CharClass::WhiteSpace;
    if list.len() == 1 {
        assert(!class.holds(list[0][0]));
        assert(!class.holds(list[0][list[0].len() - 1]));
    } else if list.len() > 1 {
        let front = list.drop_last();
        assert forall|k: int| 0 <= k < front.len() implies (#[trigger] front[k]).len() > 0 by {
            assert(front[k] == list[k]);
        }
        assert forall|k: int, i: int| 0 <= k < front.len() && 0 <= i < front[k].len() implies !class.holds(
            #[trigger] front[k][i],
        ) by {
            assert(!class.holds(list[k][i]));
        }
        lemma_joined_words_ends(front);
        let last = list.last();
        assert(!class.holds(list[list.len() - 1][last.len() - 1]));
        let whole = joined(list, seq![' ']);
        assert(whole[0] == joined(front, seq![' '])[0]);
        assert(whole.last() == last.last());
    }
}

/// A character that is replaced by a text free of it is gone afterwards.
pub proof fn lemma_replaced_gone(s: Seq<char>, c: char, to: Seq<char>)
    requires
        !to.contains(c),
    ensures
        !replaced(s, seq![c], to).contains(c),
    decreases s.len(),
{
    let from = seq![c];
    lemma_found(s, from);
    match found(s, from) {
        Some(i) => {
            let head = s.take(i);
            let rest = s.skip(i + 1);
            lemma_replaced_gone(rest, c, to);
            assert(replaced(s, from, to) == head + to + replaced(rest, from, to));
            if replaced(s, from, to).contains(c) {
                let whole = head + to + replaced(rest, from, to);
                let k = choose|k: int| 0 <= k < whole.len() && whole[k] == c;
                if k < i {
                    assert(s[k] == c);
                    assert(s.subrange(k, k + 1) =~= from);
                    assert(stands_at(s, from, k));
                } else if k < i + to.len() {
                    assert(to[k - i] == c);
                } else {
                    assert(replaced(rest, from, to)[k - i - to.len()] == c);
                }
            }
        },
        None => {
            if s.contains(c) {
                let k = choose|k: int| 0 <= k < s.len() && s[k] == c;
                assert(s.subrange(k, k + 1) =~= from);
                assert(stands_at(s, from, k));
            }
        },
    }
}

/// Replacing a character brings in no character that was neither in the text
/// nor in the replacement.
pub proof fn lemma_replaced_keeps_out(s: Seq<char>, c: char, to: Seq<char>, d: char)
    requires
        !to.contains(d),
        !s.contains(d),
    ensures
        !replaced(s, seq![c], to).contains(d),
    decreases s.len(),
{
    let from = seq![c];
    lemma_found(s, from);
    match found(s, from) {
        Some(i) => {
            let head = s.take(i);
            let rest = s.skip(i + 1);
            if rest.contains(d) {
                let k = choose|k: int| 0 <= k < rest.len() && rest[k] == d;
                assert(s[k + i + 1] == d);
            }
            lemma_replaced_keeps_out(rest, c, to, d);
            if replaced(s, from, to).contains(d) {
                let whole = head + to + replaced(rest, from, to);
                let k = choose|k: int| 0 <= k < whole.len() && whole[k] == d;
                if k < i {
                    assert(s[k] == d);
                } else if k < i + to.len() {
                    assert(to[k - i] == d);
                } else {
                    assert(replaced(rest, from, to)[k - i - to.len()] == d);
                }
            }
        },
        None => {},
    }
}

/// `earliest` is a position of the text, no marker stands before it, and where
/// it is not the end one of the markers stands there.
pub proof fn lemma_earliest(s: Seq<char>, markers: Seq<Seq<char>>)
    ensures
        0 <= earliest(s, markers) <= s.len(),
        forall|m: int, j: int|
            0 <= m < markers.len() && 0 <= j < earliest(s, markers) ==> !#[trigger] stands_at(
                s,
                markers[m],
                j,
            ),
        earliest(s, markers) < s.len() ==> exists|m: int|
            0 <= m < markers.len() && stands_at(s, #[trigger] markers[m], earliest(s, markers)),
    decreases markers.len(),
{
    if markers.len() > 0 {
        let front = markers.drop_last();
        let last = markers.last();
        lemma_earliest(s, front);
        lemma_found(s, last);
        let e = earliest(s, markers);
        let before = earliest(s, front);
        assert forall|m: int, j: int| 0 <= m < markers.len() && 0 <= j < e implies !#[trigger] stands_at(
            s,
            markers[m],
            j,
        ) by {
            if m < front.len() {
                assert(front[m] == markers[m]);
            } else {
                assert(markers[m] == last);
            }
        }
        if e < s.len() {
            if e == before {
                let m = choose|m: int| 0 <= m < front.len() && stands_at(s, #[trigger] front[m], before);
                assert(markers[m] == front[m]);
            } else {
                assert(markers[markers.len() - 1] == last);
            }
        }
    }
}

// ---------------------------------------------------------------------------
// The operations.

/// `String::push` appends one character.
pub assume_specification[ String::push ](s: &mut String, c: char)
    ensures
        final(s)@ == old(s)@.push(c),
;

/// `String::push_str` appends a text.
pub assume_specification[ String::push_str ](s: &mut String, t: &str)
    ensures
        final(s)@ == old(s)@ + t@,
;

/// The characters of a text.
pub fn chars_of(s: &str) -> (chars: Vec<char>)
    ensures
        chars@ == s@,
{
    let mut chars: Vec<char> = Vec::new();
    for c in it: s.chars()
        invariant
            chars@ == it.seq().take(it.index() as int),
            it.seq() == s@,
    {
        chars.push(c);
    }
    chars
}

/// Tells whether two texts are the same.
pub fn same(a: &str, b: &str) -> (r: bool)
    ensures
        r == (a@ == b@),
{
    a.to_owned() == b.to_owned()
}

/// A text as `{:?}` of std writes it.
pub uninterp spec fn debug_quoted(text: Seq<char>) -> Seq<char>;

/// Calls `format!` of std with `{:?}` on a text. Claims that what comes out is
/// the quoted text, which is a function of the text alone.
#[verifier::external_body]
pub(crate) fn debug_text(text: &str) -> (s: String)
    ensures
        s@ == debug_quoted(text@),
{
    format!("{text:?}")
}

/// A copy of an optional text.
pub fn copy_optional(value: &Option<String>) -> (r: Option<String>)
    ensures
        optional(r) == optional(*value),
{
    match value {
        Some(text) => Some(text.clone()),
        None => None,
    }
}

/// A copy of a list of texts.
pub fn copy_texts(list: &Vec<String>) -> (r: Vec<String>)
    ensures
        texts(r@) == texts(list@),
{
    let r = list.clone();
    assert(r@ =~= list@);
    r
}

/// Tells whether a text is in a list.
pub fn is_member(list: &Vec<String>, s: &str) -> (r: bool)
    ensures
        r == texts(list@).contains(s@),
{
    let mut i: usize = 0;
    while i < list.len()
        invariant
            i <= list@.len(),
            forall|k: int| 0 <= k < i ==> (#[trigger] texts(list@)[k]) != s@,
        decreases list@.len() - i,
    {
        assert(texts(list@)[i as int] == list@[i as int]@);
        if same(list[i].as_str(), s) {
            return true;
        }
        i += 1;
    }
    false
}

/// Removes the characters of `class` from the start.
pub fn trim_start_of<'a>(s: &'a str, class: CharClass) -> (r: &'a str)
    ensures
        r@ == trimmed_start_of(s@, class),
{
    let chars = chars_of(s);
    let mut i: usize = 0;
    assert(s@.skip(0) =~= s@);
    while i < chars.len() && class.has(chars[i])
        invariant
            i <= chars@.len(),
            chars@ == s@,
            trimmed_start_of(s@.skip(i as int), class) == trimmed_start_of(s@, class),
        decreases chars@.len() - i,
    {
        assert(s@.skip(i as int).drop_first() =~= s@.skip(i + 1));
        i += 1;
    }
    assert(s@.subrange(i as int, s@.len() as int) =~= s@.skip(i as int));
    s.substring_char(i, chars.len())
}

/// Removes the characters of `class` from the end.
pub fn trim_end_of<'a>(s: &'a str, class: CharClass) -> (r: &'a str)
    ensures
        r@ == trimmed_end_of(s@, class),
{
    let chars = chars_of(s);
    let mut i: usize = chars.len();
    assert(s@.take(s@.len() as int) =~= s@);
    while i > 0 && class.has(chars[i - 1])
        invariant
            i <= chars@.len(),
            chars@ == s@,
            trimmed_end_of(s@.take(i as int), class) == trimmed_end_of(s@, class),
        decreases i,
    {
        assert(s@.take(i as int).drop_last() =~= s@.take(i - 1));
        i -= 1;
    }
    assert(s@.subrange(0, i as int) =~= s@.take(i as int));
    s.substring_char(0, i)
}

/// Removes the characters of `class` from both ends.
pub fn trim_of<'a>(s: &'a str, class: CharClass) -> (r: &'a str)
    ensures
        r@ == trimmed_of(s@, class),
{
    trim_end_of(trim_start_of(s, class), class)
}

/// Removes white space from both ends.
pub fn trim<'a>(s: &'a str) -> (r: &'a str)
    ensures
        r@ == trimmed(s@),
{
    trim_of(s, CharClass::WhiteSpace)
}

/// Removes white space from the start.
pub fn trim_start<'a>(s: &'a str) -> (r: &'a str)
    ensures
        r@ == trimmed_start(s@),
{
    trim_start_of(s, CharClass::WhiteSpace)
}

/// Removes white space from the end.
pub fn trim_end<'a>(s: &'a str) -> (r: &'a str)
    ensures
        r@ == trimmed_end(s@),
{
    trim_end_of(s, CharClass::WhiteSpace)
}

/// Tells whether a text has nothing but white space in it.
pub fn blank(s: &str) -> (r: bool)
    ensures
        r == is_blank(s@),
{
    trim(s).unicode_len() == 0
}

/// The position of the first character of `class`, or the length of the text.
pub fn find_of(s: &str, class: CharClass) -> (n: usize)
    ensures
        n == first_of(s@, class),
{
    let chars = chars_of(s);
    let mut i: usize = 0;
    while i < chars.len() && !class.has(chars[i])
        invariant
            i <= chars@.len(),
            chars@ == s@,
            forall|k: int| 0 <= k < i ==> !class.holds(#[trigger] s@[k]),
        decreases chars@.len() - i,
    {
        i += 1;
    }
    proof {
        lemma_first_of_unique(s@, class, i as nat);
    }
    i
}

/// Splits a text at the characters of `class`.
pub fn split(s: &str, class: CharClass) -> (list: Vec<String>)
    ensures
        texts(list@) == pieces(s@, class),
{
    let mut list: Vec<String> = Vec::new();
    let mut rest: &str = s;
    let mut n: usize = find_of(rest, class);
    while n < rest.unicode_len()
        invariant
            n == first_of(rest@, class),
            pieces(s@, class) == texts(list@) + pieces(rest@, class),
        decreases rest@.len(),
    {
        let ghost before = list@;
        proof {
            lemma_first_of(rest@, class);
        }
        list.push(rest.substring_char(0, n).to_owned());
        let next = rest.substring_char(n + 1, rest.unicode_len());
        proof {
            assert(next@ =~= rest@.skip(n + 1));
            assert(rest@.subrange(0, n as int) =~= rest@.take(n as int));
            assert(texts(list@) =~= texts(before).push(rest@.take(n as int)));
            assert(texts(list@) + pieces(next@, class) =~= texts(before) + pieces(rest@, class));
        }
        rest = next;
        n = find_of(rest, class);
    }
    let ghost before = list@;
    list.push(rest.to_owned());
    proof {
        lemma_first_of(rest@, class);
        assert(texts(list@) =~= texts(before) + seq![rest@]);
    }
    list
}

/// The words of a text.
pub fn split_words(s: &str) -> (list: Vec<String>)
    ensures
        texts(list@) == words(s@),
{
    let parts = split(s, CharClass::WhiteSpace);
    let mut list: Vec<String> = Vec::new();
    let mut i: usize = 0;
    assert(texts(list@) =~= nonempty(texts(parts@).take(0)));
    while i < parts.len()
        invariant
            i <= parts@.len(),
            texts(list@) == nonempty(texts(parts@).take(i as int)),
        decreases parts@.len() - i,
    {
        let ghost before = list@;
        let ghost upto = texts(parts@).take(i + 1);
        assert(upto.drop_last() =~= texts(parts@).take(i as int));
        assert(upto.last() == parts@[i as int]@);
        if parts[i].as_str().unicode_len() > 0 {
            list.push(parts[i].clone());
            assert(texts(list@) =~= texts(before).push(parts@[i as int]@));
        }
        i += 1;
    }
    assert(texts(parts@).take(i as int) =~= texts(parts@));
    list
}

/// Joins texts with a separator between them.
pub fn join(list: &Vec<String>, sep: &str) -> (s: String)
    ensures
        s@ == joined(texts(list@), sep@),
{
    let mut s = String::new();
    let mut i: usize = 0;
    while i < list.len()
        invariant
            i <= list@.len(),
            s@ == joined(texts(list@).take(i as int), sep@),
        decreases list@.len() - i,
    {
        let ghost upto = texts(list@).take(i + 1);
        assert(upto.drop_last() =~= texts(list@).take(i as int));
        assert(upto.last() == list@[i as int]@);
        if i > 0 {
            s.push_str(sep);
        }
        s.push_str(list[i].as_str());
        assert(i == 0 ==> s@ =~= list@[0]@);
        i += 1;
    }
    assert(texts(list@).take(i as int) =~= texts(list@));
    s
}

/// Leaves one space between words and none around them.
pub fn collapse(s: &str) -> (r: String)
    ensures
        r@ == collapsed(s@),
{
    let list = split_words(s);
    proof {
        reveal_strlit(" ");
        assert(" "@ =~= seq![' ']);
    }
    join(&list, " ")
}

/// Tells whether `p` stands at position `i`.
fn at(s: &Vec<char>, p: &Vec<char>, i: usize) -> (r: bool)
    requires
        i + p@.len() <= s@.len(),
    ensures
        r == stands_at(s@, p@, i as int),
{
    let len: usize = s.len();
    let mut k: usize = 0;
    while k < p.len()
        invariant
            k <= p@.len(),
            len == s@.len(),
            i + p@.len() <= s@.len(),
            forall|j: int| 0 <= j < k ==> s@[i + j] == #[trigger] p@[j],
        decreases p@.len() - k,
    {
        if s[i + k] != p[k] {
            assert(s@.subrange(i as int, i + p@.len())[k as int] != p@[k as int]);
            return false;
        }
        k += 1;
    }
    assert(s@.subrange(i as int, i + p@.len()) =~= p@);
    true
}

/// The first position of `p`.
pub fn find(s: &str, p: &str) -> (r: Option<usize>)
    ensures
        match r {
            Some(i) => found(s@, p@) == Some(i as int),
            None => found(s@, p@) is None,
        },
{
    let chars = chars_of(s);
    let pattern = chars_of(p);
    if pattern.len() > chars.len() {
        return None;
    }
    let last: usize = chars.len() - pattern.len();
    let mut i: usize = 0;
    while i <= last
        invariant
            i <= last + 1,
            last + pattern@.len() == chars@.len(),
            chars@ == s@,
            pattern@ == p@,
            found(s@, p@) == find_from(s@, p@, i as int),
        decreases last + 1 - i,
    {
        if at(&chars, &pattern, i) {
            return Some(i);
        }
        if i == last {
            assert(find_from(s@, p@, i + 1) is None);
            return None;
        }
        i += 1;
    }
    None
}

/// Tells whether `p` stands anywhere in a text.
pub fn contains(s: &str, p: &str) -> (r: bool)
    ensures
        r == occurs(s@, p@),
{
    find(s, p).is_some()
}

/// Tells whether a text starts with `p`.
pub fn starts_with(s: &str, p: &str) -> (r: bool)
    ensures
        r == starts(s@, p@),
{
    let chars = chars_of(s);
    let pattern = chars_of(p);
    pattern.len() <= chars.len() && at(&chars, &pattern, 0)
}

/// Tells whether a text ends with `p`.
pub fn ends_with(s: &str, p: &str) -> (r: bool)
    ensures
        r == ends(s@, p@),
{
    let chars = chars_of(s);
    let pattern = chars_of(p);
    pattern.len() <= chars.len() && at(&chars, &pattern, chars.len() - pattern.len())
}

/// The first `n` characters.
pub fn take<'a>(s: &'a str, n: usize) -> (r: &'a str)
    requires
        n <= s@.len(),
    ensures
        r@ == s@.take(n as int),
{
    assert(s@.take(n as int) =~= s@.subrange(0, n as int));
    s.substring_char(0, n)
}

/// All but the first `n` characters.
pub fn skip<'a>(s: &'a str, n: usize) -> (r: &'a str)
    requires
        n <= s@.len(),
    ensures
        r@ == s@.skip(n as int),
{
    assert(s@.skip(n as int) =~= s@.subrange(n as int, s@.len() as int));
    s.substring_char(n, s.unicode_len())
}

/// Replaces every `from` by `to`, from the left.
pub fn replace(s: &str, from: &str, to: &str) -> (r: String)
    ensures
        r@ == replaced(s@, from@, to@),
{
    let mut r = String::new();
    let mut rest: &str = s;
    let width: usize = from.unicode_len();
    if width == 0 {
        proof {
            lemma_found(s@, from@);
        }
        return s.to_owned();
    }
    assert(r@ + replaced(rest@, from@, to@) =~= replaced(s@, from@, to@));
    let mut next_at: Option<usize> = find(rest, from);
    while next_at.is_some()
        invariant
            width == from@.len(),
            width > 0,
            r@ + replaced(rest@, from@, to@) == replaced(s@, from@, to@),
            match next_at {
                Some(i) => found(rest@, from@) == Some(i as int),
                None => found(rest@, from@) is None,
            },
        decreases rest@.len(),
    {
        let i: usize = next_at.unwrap();
        let len: usize = rest.unicode_len();
        let ghost before = r@;
        proof {
            lemma_found(rest@, from@);
        }
        r.push_str(take(rest, i));
        r.push_str(to);
        let next = skip(rest, i + width);
        proof {
            assert(replaced(rest@, from@, to@) == rest@.take(i as int) + to@ + replaced(
                next@,
                from@,
                to@,
            ));
            assert(r@ + replaced(next@, from@, to@) =~= before + replaced(rest@, from@, to@));
        }
        rest = next;
        next_at = find(rest, from);
    }
    r.push_str(rest);
    r
}

/// Lowers ASCII capital letters.
pub fn to_lower(s: &str) -> (r: String)
    ensures
        r@ == lowered(s@),
{
    let chars = chars_of(s);
    let mut r = String::new();
    let mut i: usize = 0;
    while i < chars.len()
        invariant
            i <= chars@.len(),
            chars@ == s@,
            r@ == lowered(s@).take(i as int),
        decreases chars@.len() - i,
    {
        r.push(to_ascii_lower(chars[i]));
        assert(lowered(s@).take(i + 1) =~= lowered(s@).take(i as int).push(lowered(s@)[i as int]));
        i += 1;
    }
    assert(lowered(s@).take(i as int) =~= lowered(s@));
    r
}

/// The first position of one of `markers`, or the length of the text.
pub fn find_earliest(s: &str, markers: &Vec<String>) -> (n: usize)
    ensures
        n == earliest(s@, texts(markers@)),
        n <= s@.len(),
{
    let mut n: usize = s.unicode_len();
    let mut i: usize = 0;
    while i < markers.len()
        invariant
            i <= markers@.len(),
            n == earliest(s@, texts(markers@).take(i as int)),
        decreases markers@.len() - i,
    {
        let ghost upto = texts(markers@).take(i + 1);
        assert(upto.drop_last() =~= texts(markers@).take(i as int));
        assert(upto.last() == markers@[i as int]@);
        if let Some(k) = find(s, markers[i].as_str()) {
            if k < n {
                n = k;
            }
        }
        i += 1;
    }
    assert(texts(markers@).take(i as int) =~= texts(markers@));
    proof {
        lemma_earliest(s@, texts(markers@));
    }
    n
}

/// Cuts a text at the first of `markers` and trims what is left.
pub fn cut<'a>(s: &'a str, markers: &Vec<String>) -> (r: &'a str)
    ensures
        r@ == cut_at(s@, texts(markers@)),
{
    let n: usize = find_earliest(s, markers);
    trim(take(s, n))
}

/// Keeps the last `n` characters of a text.
pub fn keep_last_chars(s: &str, n: usize) -> (r: String)
    ensures
        r@ == last_chars(s@, n as nat),
{
    let len: usize = s.unicode_len();
    if len <= n {
        s.to_owned()
    } else {
        skip(s, len - n).to_owned()
    }
}

/// Whether the white space of a text is single spaces within it.
pub open spec fn is_spaced(s: Seq<char>) -> bool {
    &&& s.len() > 0 ==> !is_white_space(s[0]) && !is_white_space(s.last())
    &&& forall|i: int| 0 <= i < s.len() && is_white_space(#[trigger] s[i]) ==> s[i] == ' '
    &&& forall|i: int, j: int|
        0 <= i < s.len() && j == i + 1 && j < s.len() && is_white_space(#[trigger] s[i])
            ==> !is_white_space(#[trigger] s[j])
}

/// Words joined by spaces are spaced.
pub proof fn lemma_joined_spaced(list: Seq<Seq<char>>)
    requires
        forall|k: int| 0 <= k < list.len() ==> (#[trigger] list[k]).len() > 0,
        forall|k: int, i: int|
            0 <= k < list.len() && 0 <= i < list[k].len() ==> !CharClass::WhiteSpace.holds(
                #[trigger] list[k][i],
            ),
    ensures
        is_spaced(joined(list, seq![' '])),
    decreases list.len(),
{
    let whole = joined(list, seq![' ']);
    lemma_joined_words_ends(list);
    if list.len() == 1 {
        assert forall|i: int| 0 <= i < whole.len() implies !is_white_space(#[trigger] whole[i]) by {
            assert(!CharClass::WhiteSpace.holds(list[0][i]));
        }
    } else if list.len() > 1 {
        let front = list.drop_last();
        let k = list.len() - 1;
        assert forall|m: int| 0 <= m < front.len() implies (#[trigger] front[m]).len() > 0 by {
            assert(front[m] == list[m]);
        }
        assert forall|m: int, i: int| 0 <= m < front.len() && 0 <= i < front[m].len() implies !CharClass::WhiteSpace.holds(
            #[trigger] front[m][i],
        ) by {
            assert(front[m][i] == list[m][i]);
        }
        lemma_joined_spaced(front);
        lemma_joined_words_ends(front);
        let first = joined(front, seq![' ']);
        let last = list[k];
        assert(whole == first + seq![' '] + last);
        assert forall|i: int| 0 <= i < last.len() implies !is_white_space(#[trigger] last[i]) by {
            assert(!CharClass::WhiteSpace.holds(list[k][i]));
        }
        assert forall|i: int| 0 <= i < whole.len() && is_white_space(#[trigger] whole[i]) implies whole[i]
            == ' ' by {
            if i < first.len() {
                assert(whole[i] == first[i]);
            } else if i > first.len() {
                assert(whole[i] == last[i - first.len() - 1]);
            }
        }
        assert forall|i: int, j: int|
            0 <= i < whole.len() && j == i + 1 && j < whole.len() && is_white_space(
                #[trigger] whole[i],
            ) implies !is_white_space(#[trigger] whole[j]) by {
            if j < first.len() {
                assert(whole[i] == first[i]);
                assert(whole[j] == first[j]);
            } else if j == first.len() {
                assert(whole[i] == first.last());
            } else {
                assert(whole[j] == last[j - first.len() - 1]);
            }
        }
    }
}

/// A text with its white space collapsed is spaced.
pub proof fn lemma_collapsed_spaced(s: Seq<char>)
    ensures
        is_spaced(collapsed(s)),
{
    lemma_words(s);
    lemma_joined_spaced(words(s));
}

/// Collapsing leaves a spaced text as it is.
pub proof fn lemma_spaced_stays(s: Seq<char>)
    requires
        is_spaced(s),
    ensures
        collapsed(s) == s,
    decreases s.len(),
{
    let class = CharClass::WhiteSpace;
    let sep = seq![' '];
    let n = first_of(s, class) as int;
    lemma_first_of(s, class);
    if n < s.len() {
        assert(is_white_space(s[n]));
        let head = s.take(n);
        let rest = s.skip(n + 1);
        assert(n > 0);
        assert(n != s.len() - 1);
        assert(!is_white_space(s[n + 1]));
        assert(is_spaced(rest)) by {
            assert(rest[0] == s[n + 1]);
            assert(rest.last() == s.last());
            assert forall|i: int| 0 <= i < rest.len() && is_white_space(#[trigger] rest[i]) implies rest[i]
                == ' ' by {
                assert(rest[i] == s[n + 1 + i]);
            }
            assert forall|i: int, j: int|
                0 <= i < rest.len() && j == i + 1 && j < rest.len() && is_white_space(
                    #[trigger] rest[i],
                ) implies !is_white_space(#[trigger] rest[j]) by {
                assert(rest[i] == s[n + 1 + i]);
                assert(rest[j] == s[n + 1 + j]);
            }
        }
        lemma_spaced_stays(rest);
        lemma_has_words(rest, 0);
        lemma_nonempty_add(seq![head], pieces(rest, class));
        lemma_nonempty_one(head);
        let list = seq![head] + words(rest);
        assert(words(s) == list);
        lemma_joined_front(list, sep);
        assert(list.drop_first() =~= words(rest));
        assert(head + sep + rest =~= s);
    } else {
        lemma_nonempty_one(s);
        if s.len() == 0 {
            assert(collapsed(s) =~= s);
        } else {
            assert(joined(seq![s], sep) == s);
        }
    }
}

/// Where a text begins with no white space, so do its first word and what it
/// collapses to, with the same character.
pub proof fn lemma_collapsed_begins(s: Seq<char>)
    requires
        s.len() > 0,
        !is_white_space(s[0]),
    ensures
        words(s).len() > 0,
        words(s)[0].len() > 0,
        words(s)[0][0] == s[0],
        collapsed(s).len() > 0,
        collapsed(s)[0] == s[0],
{
    let class = CharClass::WhiteSpace;
    let n = first_of(s, class) as int;
    lemma_first_of(s, class);
    lemma_has_words(s, 0);
    if n < s.len() {
        lemma_nonempty_add(seq![s.take(n)], pieces(s.skip(n + 1), class));
        lemma_nonempty_one(s.take(n));
        assert(words(s)[0] == s.take(n));
    } else {
        lemma_nonempty_one(s);
        assert(words(s)[0] == s);
    }
    lemma_joined_begins(words(s), seq![' ']);
}

/// A joined list begins as its first member does.
proof fn lemma_joined_begins(list: Seq<Seq<char>>, sep: Seq<char>)
    requires
        list.len() > 0,
        list[0].len() > 0,
    ensures
        joined(list, sep).len() > 0,
        joined(list, sep)[0] == list[0][0],
    decreases list.len(),
{
    if list.len() > 1 {
        lemma_joined_begins(list.drop_last(), sep);
    }
}

/// The parts of two texts with a character of the class between them are the
/// parts of the one and of the other.
pub proof fn lemma_pieces_add(a: Seq<char>, c: char, b: Seq<char>, class: CharClass)
    requires
        class.holds(c),
    ensures
        pieces(a + seq![c] + b, class) == pieces(a, class) + pieces(b, class),
    decreases a.len(),
{
    let n = first_of(a, class) as int;
    lemma_first_of(a, class);
    if n < a.len() {
        let head = a.take(n);
        let rest = a.skip(n + 1);
        lemma_pieces_add(rest, c, b, class);
        assert forall|i: int| 0 <= i < head.len() implies !class.holds(#[trigger] head[i]) by {
            assert(head[i] == a[i]);
        }
        lemma_pieces_step(head, a[n], rest + seq![c] + b, class);
        assert(head + seq![a[n]] + (rest + seq![c] + b) =~= a + seq![c] + b);
        assert((seq![head] + pieces(rest, class)) + pieces(b, class) =~= seq![head] + (pieces(
            rest,
            class,
        ) + pieces(b, class)));
    } else {
        lemma_pieces_step(a, c, b, class);
        lemma_pieces_whole(a, class);
    }
}

/// A trimmed text is a stretch of the text: nothing but white space stands before
/// and behind it, and it neither begins nor ends with white space.
pub proof fn law_trimming_takes_white_space_from_both_ends(s: Seq<char>)
    ensures
        exists|m: int, n: int|
            0 <= m <= n <= s.len() && #[trigger] s.subrange(m, n) == trimmed(s) && (forall|i: int|
                0 <= i < m || n <= i < s.len() ==> is_white_space(#[trigger] s[i])) && (m < n
                ==> !is_white_space(s[m]) && !is_white_space(s[n - 1])),
{
    let class = CharClass::WhiteSpace;
    let t = trimmed_start_of(s, class);
    lemma_trimmed_start(s, class);
    lemma_trimmed_end(t, class);
    lemma_trimmed_ends(s, class);
    let m = choose|m: int|
        0 <= m <= s.len() && #[trigger] s.skip(m) == t && forall|i: int|
            0 <= i < m ==> class.holds(#[trigger] s[i]);
    let n = choose|n: int|
        0 <= n <= t.len() && #[trigger] t.take(n) == trimmed_end_of(t, class) && forall|i: int|
            n <= i < t.len() ==> class.holds(#[trigger] t[i]);
    assert(s.subrange(m, m + n) =~= trimmed(s));
    assert forall|i: int| 0 <= i < m || m + n <= i < s.len() implies is_white_space(
        #[trigger] s[i],
    ) by {
        if i < m {
            assert(class.holds(s[i]));
        } else {
            assert(t[i - m] == s[i]);
            assert(class.holds(t[i - m]));
        }
    }
    if n > 0 {
        assert(trimmed(s)[0] == s[m]);
        assert(trimmed(s).last() == s[m + n - 1]);
    }
}

/// A text is blank where it holds nothing but white space, and only there.
pub proof fn law_blank_text_is_white_space_alone(s: Seq<char>)
    ensures
        is_blank(s) <==> forall|i: int| 0 <= i < s.len() ==> is_white_space(#[trigger] s[i]),
{
    law_trimming_takes_white_space_from_both_ends(s);
    let (m, n) = choose|m: int, n: int|
        0 <= m <= n <= s.len() && #[trigger] s.subrange(m, n) == trimmed(s) && (forall|i: int|
            0 <= i < m || n <= i < s.len() ==> is_white_space(#[trigger] s[i])) && (m < n
            ==> !is_white_space(s[m]) && !is_white_space(s[n - 1]));
    assert(trimmed(s).len() == n - m);
}

/// Replacing begins at the first place where the text to replace stands, leaves
/// what is before it as it is, and goes on behind it; where it stands nowhere,
/// nothing changes.
pub proof fn law_replacing_goes_from_the_left(
    head: Seq<char>,
    from: Seq<char>,
    tail: Seq<char>,
    to: Seq<char>,
)
    requires
        from.len() > 0,
        forall|j: int| 0 <= j < head.len() ==> !#[trigger] stands_at(head + from + tail, from, j),
    ensures
        replaced(head + from + tail, from, to) == head + to + replaced(tail, from, to),
        !occurs(head, from) ==> replaced(head, from, to) == head,
{
    let s = head + from + tail;
    let n = head.len() as int;
    assert(s.subrange(n, n + from.len()) =~= from);
    assert(stands_at(s, from, n));
    lemma_found(s, from);
    assert(found(s, from) == Some(n));
    assert(s.take(n) =~= head);
    assert(s.skip(n + from.len()) =~= tail);
}

/// A text is cut at the first marker that stands in it, whichever of the markers
/// that is.
pub proof fn law_text_is_cut_at_the_first_marker(
    s: Seq<char>,
    markers: Seq<Seq<char>>,
    m: int,
    n: int,
)
    requires
        0 <= m < markers.len(),
        stands_at(s, markers[m], n),
        forall|k: int, j: int|
            0 <= k < markers.len() && 0 <= j < n ==> !#[trigger] stands_at(s, markers[k], j),
    ensures
        cut_at(s, markers) == trimmed(s.take(n)),
{
    lemma_earliest_reached(s, markers, m, n);
}

proof fn lemma_earliest_reached(s: Seq<char>, markers: Seq<Seq<char>>, m: int, n: int)
    requires
        0 <= m < markers.len(),
        stands_at(s, markers[m], n),
        forall|k: int, j: int|
            0 <= k < markers.len() && 0 <= j < n ==> !#[trigger] stands_at(s, markers[k], j),
    ensures
        earliest(s, markers) == n,
    decreases markers.len(),
{
    let front = markers.drop_last();
    let last = markers.last();
    assert(markers[markers.len() - 1] == last);
    lemma_found(s, last);
    assert forall|k: int, j: int| 0 <= k < front.len() && 0 <= j < n implies !#[trigger] stands_at(
        s,
        front[k],
        j,
    ) by {
        assert(front[k] == markers[k]);
    }
    assert forall|j: int| 0 <= j < n implies !#[trigger] stands_at(s, last, j) by {
        assert(!stands_at(s, markers[markers.len() - 1], j));
    }
    if m < markers.len() - 1 {
        lemma_earliest_reached(s, front, m, n);
    } else {
        lemma_earliest_behind(s, front, n);
        assert(found(s, last) == Some(n));
    }
}

proof fn lemma_earliest_behind(s: Seq<char>, markers: Seq<Seq<char>>, n: int)
    requires
        n <= s.len(),
        forall|k: int, j: int|
            0 <= k < markers.len() && 0 <= j < n ==> !#[trigger] stands_at(s, markers[k], j),
    ensures
        earliest(s, markers) >= n,
    decreases markers.len(),
{
    if markers.len() > 0 {
        let front = markers.drop_last();
        let last = markers.last();
        lemma_found(s, last);
        assert forall|k: int, j: int| 0 <= k < front.len() && 0 <= j < n implies !#[trigger]
        stands_at(s, front[k], j) by {
            assert(front[k] == markers[k]);
        }
        lemma_earliest_behind(s, front, n);
        if let Some(i) = found(s, last) {
            if i < n {
                assert(!stands_at(s, markers[markers.len() - 1], i));
            }
        }
    }
}

/// The last characters of a text are how it ends, and as many as wanted, or all.
pub proof fn law_last_characters_end_the_text(s: Seq<char>, n: nat)
    ensures
        ends(s, last_chars(s, n)),
        s.len() <= n ==> last_chars(s, n) == s,
        s.len() > n ==> last_chars(s, n).len() == n,
{
    let last = last_chars(s, n);
    assert(s.subrange(s.len() - last.len(), s.len() as int) =~= last);
}

} // verus!
