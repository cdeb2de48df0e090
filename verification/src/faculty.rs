//! What notices things, and the registry of it.

use vstd::prelude::*;

use crate::impression::{Impression, ImpressionView};
use crate::sensation::{Sensation, SensationView};
use crate::text::{is_member, same, texts};

verus! {

/// The sensations of a list.
pub open spec fn sensation_views(list: Seq<Sensation>) -> Seq<SensationView> {
    list.map_values(|s: Sensation| s@)
}

/// The impressions of a list.
pub open spec fn noticed_views(list: Seq<Impression>) -> Seq<ImpressionView> {
    list.map_values(|i: Impression| i@)
}

/// A sensation that a faculty was shown, and what it made of it.
pub ghost struct Shown {
    pub sensation: SensationView,
    pub derived: Seq<SensationView>,
    pub impressions: Seq<ImpressionView>,
}

/// A faculty notices things: it is shown sensations and answers with derived
/// sensations and impressions.
pub trait Faculty {
    /// What the faculty was shown, in turn, and what it made of it. Each faculty
    /// keeps its own record.
    open spec fn shown(&self) -> Seq<Shown> {
        Seq::empty()
    }

    /// What the faculty makes of a sensation.
    fn process(&mut self, sensation: &Sensation) -> (r: (Vec<Sensation>, Vec<Impression>))
        ensures
            final(self).shown() == old(self).shown().push(
                Shown {
                    sensation: sensation@,
                    derived: sensation_views(r.0@),
                    impressions: noticed_views(r.1@),
                },
            ),
    ;
}

/// What is known of a registered faculty.
#[derive(Debug, PartialEq, Eq)]
pub struct RegisteredFaculty {
    /// Its name.
    pub name: String,
    /// The kinds of sensation that it is shown.
    pub accepted_kinds: Vec<String>,
}

/// What a [`RegisteredFaculty`] is.
pub ghost struct RegisteredView {
    pub name: Seq<char>,
    pub accepted_kinds: Seq<Seq<char>>,
}

impl View for RegisteredFaculty {
    type V = RegisteredView;

    open spec fn view(&self) -> RegisteredView {
        RegisteredView { name: self.name@, accepted_kinds: texts(self.accepted_kinds@) }
    }
}

impl Clone for RegisteredFaculty {
    fn clone(&self) -> (r: RegisteredFaculty)
        ensures
            r@ == self@,
    {
        let accepted_kinds = self.accepted_kinds.clone();
        assert(accepted_kinds@ =~= self.accepted_kinds@);
        RegisteredFaculty { name: self.name.clone(), accepted_kinds }
    }
}

/// Why a faculty was not registered.
#[derive(Debug, PartialEq, Eq)]
pub enum FacultyRegistryError {
    /// The name is taken.
    DuplicateName(String),
}

/// A registered faculty and what builds it.
struct FacultyRegistryEntry<B> {
    registered: RegisteredFaculty,
    build: B,
}

/// Faculties by name, each with the kinds that it accepts and a builder of type
/// `B`.
pub struct FacultyRegistry<B> {
    entries: Vec<FacultyRegistryEntry<B>>,
}

/// Whether a name is registered.
pub open spec fn is_registered<B>(entries: Seq<(RegisteredView, B)>, name: Seq<char>) -> bool {
    exists|i: int| 0 <= i < entries.len() && (#[trigger] entries[i]).0.name == name
}

/// Whether no name is registered twice.
pub open spec fn names_are_unique<B>(entries: Seq<(RegisteredView, B)>) -> bool {
    forall|i: int, j: int|
        0 <= i < j < entries.len() ==> (#[trigger] entries[i]).0.name != (
        #[trigger] entries[j]).0.name
}

/// The builders of those that accept a kind, in the order of registering.
pub open spec fn builders_for<B>(entries: Seq<(RegisteredView, B)>, kind: Seq<char>) -> Seq<B>
    decreases entries.len(),
{
    if entries.len() == 0 {
        Seq::empty()
    } else if entries.last().0.accepted_kinds.contains(kind) {
        builders_for(entries.drop_last(), kind).push(entries.last().1)
    } else {
        builders_for(entries.drop_last(), kind)
    }
}

impl<B> View for FacultyRegistry<B> {
    type V = Seq<(RegisteredView, B)>;

    closed spec fn view(&self) -> Seq<(RegisteredView, B)> {
        self.entries@.map_values(|e: FacultyRegistryEntry<B>| (e.registered@, e.build))
    }
}

impl<B> FacultyRegistry<B> {
    /// No two entries share a name.
    #[verifier::type_invariant]
    spec fn well_formed(self) -> bool {
        names_are_unique(self@)
    }

    /// An empty registry.
    pub fn new() -> (r: FacultyRegistry<B>)
        ensures
            r@ == Seq::<(RegisteredView, B)>::empty(),
    {
        let entries: Vec<FacultyRegistryEntry<B>> = Vec::new();
        let r = FacultyRegistry { entries };
        assert(r@ =~= Seq::<(RegisteredView, B)>::empty());
        r
    }

    /// Tells whether a name is registered.
    fn knows(&self, name: &str) -> (r: bool)
        ensures
            r == is_registered(self@, name@),
    {
        let mut i: usize = 0;
        while i < self.entries.len()
            invariant
                i <= self.entries@.len(),
                self@.len() == self.entries@.len(),
                forall|k: int| 0 <= k < i ==> (#[trigger] self@[k]).0.name != name@,
            decreases self.entries@.len() - i,
        {
            assert(self@[i as int].0.name == self.entries@[i as int].registered.name@);
            if same(self.entries[i].registered.name.as_str(), name) {
                return true;
            }
            i += 1;
        }
        false
    }

    /// Registers a faculty under a name that is not taken yet.
    pub fn register(&mut self, name: &str, accepted_kinds: Vec<String>, build: B) -> (r: Result<
        (),
        FacultyRegistryError,
    >)
        ensures
            names_are_unique(final(self)@),
            is_registered(old(self)@, name@) ==> final(self)@ == old(self)@ && (r matches Err(
                FacultyRegistryError::DuplicateName(taken),
            ) && taken@ == name@),
            !is_registered(old(self)@, name@) ==> r is Ok && final(self)@ == old(self)@.push(
                (RegisteredView { name: name@, accepted_kinds: texts(accepted_kinds@) }, build),
            ),
    {
        proof {
            use_type_invariant(&*self);
        }
        if self.knows(name) {
            return Err(FacultyRegistryError::DuplicateName(name.to_owned()));
        }
        let ghost before = self@;
        let entry = FacultyRegistryEntry {
            registered: RegisteredFaculty { name: name.to_owned(), accepted_kinds },
            build,
        };
        let mut entries: Vec<FacultyRegistryEntry<B>> = Vec::new();
        std::mem::swap(&mut entries, &mut self.entries);
        let ghost held = entries@;
        entries.push(entry);
        proof {
            let shown = entries@.map_values(
                |e: FacultyRegistryEntry<B>| (e.registered@, e.build),
            );
            assert(shown =~= before.push((entry.registered@, build)));
            assert(names_are_unique(shown)) by {
                assert forall|i: int, j: int| 0 <= i < j < shown.len() implies (
                #[trigger] shown[i]).0.name != (#[trigger] shown[j]).0.name by {
                    assert(shown[i] == before[i]);
                    if j < before.len() {
                        assert(shown[j] == before[j]);
                    }
                }
            }
        }
        self.entries = entries;
        Ok(())
    }

    /// What is registered, in the order of registering.
    pub fn list(&self) -> (list: Vec<RegisteredFaculty>)
        ensures
            list@.map_values(|r: RegisteredFaculty| r@) == self@.map_values(
                |e: (RegisteredView, B)| e.0,
            ),
    {
        let mut list: Vec<RegisteredFaculty> = Vec::new();
        let mut i: usize = 0;
        while i < self.entries.len()
            invariant
                i <= self.entries@.len(),
                list@.len() == i,
                forall|k: int| 0 <= k < i ==> (#[trigger] list@[k])@
                    == self.entries@[k].registered@,
            decreases self.entries@.len() - i,
        {
            list.push(self.entries[i].registered.clone());
            i += 1;
        }
        assert(list@.map_values(|r: RegisteredFaculty| r@) =~= self@.map_values(
            |e: (RegisteredView, B)| e.0,
        ));
        list
    }

    /// Builds the faculties that accept a kind of sensation, in the order of
    /// registering.
    pub fn select_for_kind<F>(&self, sensation_kind: &str) -> (list: Vec<F>) where B: Fn() -> F
        requires
            forall|i: int|
                0 <= i < builders_for(self@, sensation_kind@).len() ==> call_requires(
                    #[trigger] builders_for(self@, sensation_kind@)[i],
                    (),
                ),
        ensures
            list@.len() == builders_for(self@, sensation_kind@).len(),
            forall|i: int|
                0 <= i < list@.len() ==> call_ensures(
                    builders_for(self@, sensation_kind@)[i],
                    (),
                    #[trigger] list@[i],
                ),
    {
        let ghost all = self@;
        let ghost kind = sensation_kind@;
        let mut list: Vec<F> = Vec::new();
        let mut i: usize = 0;
        assert(all.take(0) =~= Seq::<(RegisteredView, B)>::empty());
        while i < self.entries.len()
            invariant
                i <= all.len(),
                all == self@,
                kind == sensation_kind@,
                all.len() == self.entries@.len(),
                forall|k: int|
                    0 <= k < builders_for(all, kind).len() ==> call_requires(
                        #[trigger] builders_for(all, kind)[k],
                        (),
                    ),
                list@.len() == builders_for(all.take(i as int), kind).len(),
                forall|k: int|
                    0 <= k < list@.len() ==> call_ensures(
                        builders_for(all.take(i as int), kind)[k],
                        (),
                        #[trigger] list@[k],
                    ),
            decreases all.len() - i,
        {
            let entry = &self.entries[i];
            let ghost before = builders_for(all.take(i as int), kind);
            proof {
                assert(all.take(i + 1).drop_last() =~= all.take(i as int));
                assert(all.take(i + 1).last() == (entry.registered@, entry.build));
            }
            if is_member(&entry.registered.accepted_kinds, sensation_kind) {
                proof {
                    lemma_builders_grow(all, kind, i + 1);
                    assert(builders_for(all.take(i + 1), kind)[before.len() as int] == entry.build);
                    assert(builders_for(all, kind)[before.len() as int] == entry.build);
                }
                let faculty = (entry.build)();
                list.push(faculty);
            }
            i += 1;
        }
        assert(all.take(i as int) =~= all);
        list
    }
}

/// The builders of the first entries come first.
proof fn lemma_builders_grow<B>(entries: Seq<(RegisteredView, B)>, kind: Seq<char>, n: int)
    requires
        0 <= n <= entries.len(),
    ensures
        builders_for(entries.take(n), kind).len() <= builders_for(entries, kind).len(),
        forall|k: int|
            0 <= k < builders_for(entries.take(n), kind).len() ==> builders_for(entries, kind)[k]
                == #[trigger] builders_for(entries.take(n), kind)[k],
    decreases entries.len(),
{
    if n == entries.len() {
        assert(entries.take(n) =~= entries);
    } else {
        lemma_builders_grow(entries.drop_last(), kind, n);
        assert(entries.drop_last().take(n) =~= entries.take(n));
    }
}

impl<B> Default for FacultyRegistry<B> {
    fn default() -> (r: FacultyRegistry<B>)
        ensures
            r@ == Seq::<(RegisteredView, B)>::empty(),
    {
        FacultyRegistry::new()
    }
}

/// A faculty is built for the kinds that it accepts and for no other, and those that
/// accept a kind are built in the order in which they were registered.
pub proof fn law_faculties_are_built_for_their_kinds<B>(
    before: Seq<(RegisteredView, B)>,
    entry: (RegisteredView, B),
    after: Seq<(RegisteredView, B)>,
    kind: Seq<char>,
)
    ensures
        entry.0.accepted_kinds.contains(kind) ==> builders_for(before + seq![entry] + after, kind)
            == builders_for(before, kind) + seq![entry.1] + builders_for(after, kind),
        !entry.0.accepted_kinds.contains(kind) ==> builders_for(
            before + seq![entry] + after,
            kind,
        ) == builders_for(before, kind) + builders_for(after, kind),
    decreases after.len(),
{
    let whole = before + seq![entry] + after;
    if after.len() == 0 {
        assert(whole.drop_last() =~= before);
        assert(whole.last() == entry);
        assert(builders_for(after, kind) =~= Seq::empty());
        assert(builders_for(before, kind).push(entry.1) =~= builders_for(before, kind) + seq![
            entry.1,
        ] + builders_for(after, kind));
        assert(builders_for(before, kind) =~= builders_for(before, kind) + builders_for(
            after,
            kind,
        ));
    } else {
        law_faculties_are_built_for_their_kinds(before, entry, after.drop_last(), kind);
        assert(whole.drop_last() =~= before + seq![entry] + after.drop_last());
        assert(whole.last() == after.last());
        if entry.0.accepted_kinds.contains(kind) {
            assert(builders_for(whole, kind) =~= builders_for(before, kind) + seq![entry.1]
                + builders_for(after, kind));
        } else {
            assert(builders_for(whole, kind) =~= builders_for(before, kind) + builders_for(
                after,
                kind,
            ));
        }
    }
}

} // verus!
