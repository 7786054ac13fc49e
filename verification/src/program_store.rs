//! The program store: the deployed programs with their verifying keys.
//!
//! A program is stored once, under its identifier, and is never changed or
//! removed afterwards.

use vstd::prelude::*;
use crate::lookup::{first_index, lemma_first_index, lemma_first_index_is};

verus! {

/// A deployed program.
#[derive(Debug, PartialEq, Eq)]
pub struct Program {
    /// The identifier under which the program is deployed.
    pub id: String,
    /// The program's source text.
    pub source: String,
}

/// What a `Program` holds.
pub struct ProgramView {
    pub id: Seq<char>,
    pub source: Seq<char>,
}

impl View for Program {
    type V = ProgramView;

    open spec fn view(&self) -> ProgramView {
        ProgramView { id: self.id@, source: self.source@ }
    }
}

impl DeepView for Program {
    type V = ProgramView;

    open spec fn deep_view(&self) -> ProgramView {
        self@
    }
}

impl Clone for Program {
    fn clone(&self) -> (copy: Program)
        ensures
            copy@ == self@,
    {
        Program { id: self.id.clone(), source: self.source.clone() }
    }
}

/// The verifying keys of a program, one for each of its functions, in the
/// proof engine's own encoding: opaque to the store.
#[derive(Debug, PartialEq, Eq)]
pub struct VerifyingKeyMap {
    pub bytes: Vec<u8>,
}

impl View for VerifyingKeyMap {
    type V = Seq<u8>;

    open spec fn view(&self) -> Seq<u8> {
        self.bytes@
    }
}

impl DeepView for VerifyingKeyMap {
    type V = Seq<u8>;

    open spec fn deep_view(&self) -> Seq<u8> {
        self@
    }
}

impl Clone for VerifyingKeyMap {
    fn clone(&self) -> (copy: VerifyingKeyMap)
        ensures
            copy@ == self@,
    {
        VerifyingKeyMap { bytes: self.bytes.clone() }
    }
}

/// Why the store refused a program.
#[derive(Clone, Copy, Debug, PartialEq, Eq, Structural)]
pub enum ProgramError {
    /// A program is already stored under this identifier.
    ProgramExists,
}

/// A stored program: its identifier, the program, its verifying keys.
pub type StoredProgram = (Seq<char>, ProgramView, Seq<u8>);

/// The state of a program store: the stored programs, oldest first.
pub struct ProgramStoreView {
    pub programs: Seq<StoredProgram>,
}

impl ProgramStoreView {
    /// The store that holds nothing.
    pub open spec fn empty() -> ProgramStoreView {
        ProgramStoreView { programs: Seq::empty() }
    }

    /// The identifiers of the stored programs, in their order.
    pub open spec fn ids(self) -> Seq<Seq<char>> {
        self.programs.map_values(|p: StoredProgram| p.0)
    }

    /// The place of the program that is stored under `id`; the number of
    /// programs if there is none.
    pub open spec fn place_of(self, id: Seq<char>) -> int {
        first_index(self.ids(), id)
    }

    /// Whether a program is stored under `id`.
    pub open spec fn contains(self, id: Seq<char>) -> bool {
        self.place_of(id) < self.programs.len()
    }

    /// The program stored under `id`, with its keys.
    pub open spec fn get(self, id: Seq<char>) -> Option<(ProgramView, Seq<u8>)> {
        if self.contains(id) {
            Some((self.programs[self.place_of(id)].1, self.programs[self.place_of(id)].2))
        } else {
            None
        }
    }

    /// Storing `program` with `keys` under `id`: refused if `id` is taken.
    pub open spec fn add(self, id: Seq<char>, program: ProgramView, keys: Seq<u8>) -> Result<
        ProgramStoreView,
        ProgramError,
    > {
        if self.contains(id) {
            Err(ProgramError::ProgramExists)
        } else {
            Ok(ProgramStoreView { programs: self.programs.push((id, program, keys)) })
        }
    }

    /// Storing the programs one after the other, each under its
    /// identifier, up to the first that is refused.
    pub open spec fn add_programs(self, entries: Seq<StoredProgram>) -> Result<
        ProgramStoreView,
        ProgramError,
    >
        decreases entries.len(),
    {
        if entries.len() == 0 {
            Ok(self)
        } else {
            match self.add_programs(entries.drop_last()) {
                Err(e) => Err(e),
                Ok(before) => before.add(entries.last().0, entries.last().1, entries.last().2),
            }
        }
    }

    /// The store that is built from what was kept of a store.
    pub open spec fn restored(entries: Seq<StoredProgram>) -> Result<
        ProgramStoreView,
        ProgramError,
    > {
        ProgramStoreView::empty().add_programs(entries)
    }

    /// What holds of every store that arose from the empty one: no
    /// identifier is stored twice.
    pub open spec fn wf(self) -> bool {
        self.ids().no_duplicates()
    }
}

/// The map from program identifier to program and verifying keys.
pub struct ProgramStore {
    programs: Vec<(String, Program, VerifyingKeyMap)>,
}

impl View for ProgramStore {
    type V = ProgramStoreView;

    closed spec fn view(&self) -> ProgramStoreView {
        ProgramStoreView { programs: self.programs.deep_view() }
    }
}

impl ProgramStore {
    /// A store that holds nothing.
    pub fn new() -> (store: ProgramStore)
        ensures
            store@ == ProgramStoreView::empty(),
    {
        let store = ProgramStore { programs: Vec::new() };
        assert(store.programs.deep_view() =~= Seq::empty());
        store
    }

    /// The store over what was kept of a store: the programs of `entries`,
    /// each under the identifier it was kept with. Fails where an identifier
    /// comes twice.
    pub fn restore(entries: Vec<(String, Program, VerifyingKeyMap)>) -> (res: Result<
        ProgramStore,
        ProgramError,
    >)
        ensures
            match ProgramStoreView::restored(entries.deep_view()) {
                Ok(kept) => res matches Ok(store) && store@ == kept,
                Err(e) => res matches Err(x) && x == e,
            },
    {
        let mut store = ProgramStore::new();
        let ghost all = entries.deep_view();
        let mut i: usize = 0;
        assert(all.take(0) =~= Seq::empty());
        while i < entries.len()
            invariant
                i <= entries.len(),
                all == entries.deep_view(),
                ProgramStoreView::empty().add_programs(all.take(i as int)) == Ok::<
                    ProgramStoreView,
                    ProgramError,
                >(store@),
            decreases entries.len() - i,
        {
            assert(all.take(i + 1).drop_last() =~= all.take(i as int));
            assert(all.take(i + 1).last() == entries[i as int].deep_view());
            match store.add(&entries[i].0, &entries[i].1, &entries[i].2) {
                Ok(_) => {},
                Err(e) => {
                    proof {
                        lemma_add_programs_prefix(ProgramStoreView::empty(), all, i + 1);
                    }
                    return Err(e);
                },
            }
            i += 1;
        }
        assert(all.take(i as int) =~= all);
        Ok(store)
    }

    /// The place of the program that is stored under `id`, or the number of
    /// programs.
    fn position(&self, id: &String) -> (place: usize)
        ensures
            place == self@.place_of(id@),
            place <= self.programs.len(),
    {
        let mut i: usize = 0;
        while i < self.programs.len() && self.programs[i].0 != *id
            invariant
                i <= self.programs.len(),
                forall|k: int| 0 <= k < i ==> self@.ids()[k] != id@,
            decreases self.programs.len() - i,
        {
            i += 1;
        }
        proof {
            lemma_first_index_is(self@.ids(), id@, i as int);
        }
        i
    }

    /// Whether a program is stored under `id`.
    pub fn contains(&self, id: &String) -> (found: bool)
        ensures
            found == self@.contains(id@),
    {
        self.position(id) < self.programs.len()
    }

    /// The program stored under `id`, with its verifying keys.
    pub fn get(&self, id: &String) -> (found: Option<(Program, VerifyingKeyMap)>)
        ensures
            found.deep_view() == self@.get(id@),
    {
        let place = self.position(id);
        if place < self.programs.len() {
            Some((self.programs[place].1.clone(), self.programs[place].2.clone()))
        } else {
            None
        }
    }

    /// All the stored programs, oldest first, each with the identifier it is
    /// stored under and its verifying keys.
    pub fn entries(&self) -> (all: Vec<(String, Program, VerifyingKeyMap)>)
        ensures
            all.deep_view() == self@.programs,
    {
        let mut all: Vec<(String, Program, VerifyingKeyMap)> = Vec::new();
        let mut i: usize = 0;
        while i < self.programs.len()
            invariant
                i <= self.programs.len(),
                all.deep_view() == self@.programs.take(i as int),
            decreases self.programs.len() - i,
        {
            let entry = (
                self.programs[i].0.clone(),
                self.programs[i].1.clone(),
                self.programs[i].2.clone(),
            );
            let ghost before = all.deep_view();
            let ghost added = entry.deep_view();
            all.push(entry);
            assert(all.deep_view() =~= before.push(added));
            assert(before.push(added) =~= self@.programs.take(i + 1));
            i += 1;
        }
        assert(all.deep_view() =~= self@.programs);
        all
    }

    /// Stores `program` with `keys` under `id`. Fails, and changes nothing,
    /// if a program is already stored under `id`.
    pub fn add(&mut self, id: &String, program: &Program, keys: &VerifyingKeyMap) -> (res: Result<
        (),
        ProgramError,
    >)
        ensures
            match old(self)@.add(id@, program@, keys@) {
                Ok(after) => res is Ok && final(self)@ == after,
                Err(e) => res == Err::<(), ProgramError>(e) && final(self)@ == old(self)@,
            },
    {
        if self.contains(id) {
            return Err(ProgramError::ProgramExists);
        }
        self.programs.push((id.clone(), program.clone(), keys.clone()));
        assert(self.programs.deep_view() =~= old(self).programs.deep_view().push(
            (id@, program@, keys@),
        ));
        Ok(())
    }
}

/// A program is stored under `id` exactly if one of the stored programs has
/// the identifier `id`.
pub proof fn lemma_contains(s: ProgramStoreView, id: Seq<char>)
    ensures
        s.contains(id) <==> exists|i: int| 0 <= i < s.programs.len() && (#[trigger] s.programs[i]).0 == id,
{
    lemma_first_index(s.ids(), id);
    if s.contains(id) {
        assert(s.programs[s.place_of(id)].0 == id);
    }
    if exists|i: int| 0 <= i < s.programs.len() && (#[trigger] s.programs[i]).0 == id {
        let i = choose|i: int| 0 <= i < s.programs.len() && (#[trigger] s.programs[i]).0 == id;
        assert(s.ids()[i] == id);
    }
}

/// Storing a program keeps the store well formed.
pub proof fn lemma_add_keeps_wf(
    s: ProgramStoreView,
    id: Seq<char>,
    program: ProgramView,
    keys: Seq<u8>,
)
    requires
        s.wf(),
    ensures
        s.add(id, program, keys) matches Ok(after) ==> after.wf(),
{
    if let Ok(after) = s.add(id, program, keys) {
        lemma_first_index(s.ids(), id);
        assert(after.ids() =~= s.ids().push(id));
        assert forall|i: int, j: int|
            0 <= i < after.ids().len() && 0 <= j < after.ids().len() && i != j implies after.ids()[i]
            != after.ids()[j] by {
            if i < s.ids().len() && j < s.ids().len() {
                assert(s.ids()[i] != s.ids()[j]);
            } else if i < s.ids().len() {
                assert(s.ids()[i] != id);
            } else {
                assert(s.ids()[j] != id);
            }
        }
    }
}

/// Deployment is unique: once a program is stored under an identifier, the
/// store refuses every other program under that identifier.
pub proof fn lemma_program_stored_once(
    s: ProgramStoreView,
    id: Seq<char>,
    program: ProgramView,
    keys: Seq<u8>,
    again: ProgramView,
    again_keys: Seq<u8>,
)
    requires
        s.add(id, program, keys) is Ok,
    ensures
        s.add(id, program, keys)->Ok_0.add(id, again, again_keys) == Err::<
            ProgramStoreView,
            ProgramError,
        >(ProgramError::ProgramExists),
{
    lemma_get_after_add(s, id, program, keys);
}

/// A stored program is found again as it was stored.
pub proof fn lemma_get_after_add(
    s: ProgramStoreView,
    id: Seq<char>,
    program: ProgramView,
    keys: Seq<u8>,
)
    requires
        s.add(id, program, keys) is Ok,
    ensures
        s.add(id, program, keys)->Ok_0.contains(id),
        s.add(id, program, keys)->Ok_0.get(id) == Some((program, keys)),
{
    let after = s.add(id, program, keys)->Ok_0;
    lemma_first_index(s.ids(), id);
    assert(after.ids() =~= s.ids().push(id));
    assert forall|k: int| 0 <= k < s.ids().len() implies after.ids()[k] != id by {
        assert(s.ids()[k] != id);
    }
    lemma_first_index_is(after.ids(), id, s.ids().len() as int);
}

/// A program is never changed or removed: storing another program leaves what
/// is found under every identifier that was taken before.
pub proof fn lemma_add_keeps_programs(
    s: ProgramStoreView,
    id: Seq<char>,
    program: ProgramView,
    keys: Seq<u8>,
    other: Seq<char>,
)
    requires
        s.contains(other),
    ensures
        s.add(id, program, keys) matches Ok(after) ==> after.contains(other) && after.get(other)
            == s.get(other),
{
    if let Ok(after) = s.add(id, program, keys) {
        lemma_first_index(s.ids(), other);
        let place = s.place_of(other);
        assert(after.ids() =~= s.ids().push(id));
        assert forall|k: int| 0 <= k < place implies after.ids()[k] != other by {
            assert(s.ids()[k] != other);
        }
        lemma_first_index_is(after.ids(), other, place);
    }
}

/// Where a prefix of the programs is refused, the whole is refused for the
/// same reason.
pub proof fn lemma_add_programs_prefix(s: ProgramStoreView, entries: Seq<StoredProgram>, i: int)
    requires
        0 <= i <= entries.len(),
        s.add_programs(entries.take(i)) is Err,
    ensures
        s.add_programs(entries) == s.add_programs(entries.take(i)),
    decreases entries.len(),
{
    if i == entries.len() {
        assert(entries.take(i) =~= entries);
    } else {
        assert(entries.drop_last().take(i) =~= entries.take(i));
        lemma_add_programs_prefix(s, entries.drop_last(), i);
    }
}

/// A store is restored from what it holds: building a store from the
/// programs of a store that arose from the empty one gives that store.
pub proof fn lemma_programs_are_restored(s: ProgramStoreView)
    requires
        s.wf(),
    ensures
        ProgramStoreView::restored(s.programs) == Ok::<ProgramStoreView, ProgramError>(s),
{
    lemma_add_programs_all(s.programs, s.programs.len() as int);
    assert(s.programs.take(s.programs.len() as int) =~= s.programs);
}

/// Programs under identifiers of which none comes twice are stored as they
/// come.
proof fn lemma_add_programs_all(entries: Seq<StoredProgram>, i: int)
    requires
        0 <= i <= entries.len(),
        (ProgramStoreView { programs: entries }).wf(),
    ensures
        ProgramStoreView::empty().add_programs(entries.take(i)) == Ok::<
            ProgramStoreView,
            ProgramError,
        >(ProgramStoreView { programs: entries.take(i) }),
    decreases i,
{
    let whole = ProgramStoreView { programs: entries };
    if i == 0 {
        assert(entries.take(0) =~= Seq::empty());
    } else {
        lemma_add_programs_all(entries, i - 1);
        let upto = entries.take(i);
        assert(upto.drop_last() =~= entries.take(i - 1));
        let before = ProgramStoreView { programs: entries.take(i - 1) };
        let id = upto.last().0;
        assert(whole.ids()[i - 1] == id);
        assert forall|k: int| 0 <= k < before.ids().len() implies before.ids()[k] != id by {
            assert(whole.ids()[k] == before.ids()[k]);
        }
        lemma_first_index_is(before.ids(), id, before.ids().len() as int);
        assert(before.programs.push(upto.last()) =~= upto);
    }
}

} // verus!
