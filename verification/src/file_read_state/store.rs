//! What every session has read of its files.

use crate::file_read_state;
use crate::file_read_state::{FileMutationKind, FileReadState};
use crate::ordering;
use crate::ordering::sort_by_key;
use dashmap::mapref::one::Ref;
use dashmap::DashMap;
use vstd::prelude::*;

verus! {

/// The hash map of the `dashmap` crate.
#[verifier::external_type_specification]
#[verifier::external_body]
#[verifier::reject_recursive_types(K)]
#[verifier::reject_recursive_types(V)]
#[verifier::reject_recursive_types(S)]
pub struct ExDashMap<K, V, S>(DashMap<K, V, S>);

/// An entry of such a map that is being looked at.
#[verifier::external_type_specification]
#[verifier::external_body]
#[verifier::reject_recursive_types(K)]
#[verifier::reject_recursive_types(V)]
pub struct ExRef<'a, K, V>(Ref<'a, K, V>);

/// The files of one session, by path.
pub uninterp spec fn read_states(states: DashMap<String, FileReadState>) -> Map<
    Seq<char>,
    FileReadState,
>;

/// The tables of all sessions, by session.
pub uninterp spec fn session_tables(
    sessions: DashMap<String, DashMap<String, FileReadState>>,
) -> Map<Seq<char>, DashMap<String, FileReadState>>;

/// The table that an entry shows.
pub uninterp spec fn shown_table(
    entry: Ref<'_, String, DashMap<String, FileReadState>>,
) -> DashMap<String, FileReadState>;

/// The read state that an entry shows.
pub uninterp spec fn shown_state(entry: Ref<'_, String, FileReadState>) -> FileReadState;

pub open spec fn no_states() -> Map<Seq<char>, FileReadState> {
    Map::empty()
}

pub open spec fn no_tables() -> Map<Seq<char>, DashMap<String, FileReadState>> {
    Map::empty()
}

/// A listing shows every entry of a table once, in any order.
pub open spec fn is_listing(listing: Seq<(String, bool)>, states: Map<Seq<char>, FileReadState>) -> bool {
    &&& forall|i: int|
        0 <= i < listing.len() ==> states.contains_key((#[trigger] listing[i]).0@)
            && states[listing[i].0@].is_partial_view == listing[i].1
    &&& forall|i: int, j: int|
        0 <= i < j < listing.len() ==> (#[trigger] listing[i]).0@ != (#[trigger] listing[j]).0@
    &&& forall|path: Seq<char>| #[trigger]
        states.contains_key(path) ==> exists|i: int|
            0 <= i < listing.len() && (#[trigger] listing[i]).0@ == path
}

/// Calls `DashMap::new`, which makes a map without entries.
#[verifier::external_body]
fn new_sessions() -> (sessions: DashMap<String, DashMap<String, FileReadState>>)
    ensures
        session_tables(sessions) == no_tables(),
{
    DashMap::new()
}

/// A map of tables as it is after `session` has a table, a new and empty one if it had
/// none.
pub open spec fn is_opened(
    before: Map<Seq<char>, DashMap<String, FileReadState>>,
    after: Map<Seq<char>, DashMap<String, FileReadState>>,
    session: Seq<char>,
) -> bool {
    &&& after.contains_key(session)
    &&& before.contains_key(session) ==> after == before
    &&& !before.contains_key(session) ==> after == before.insert(session, after[session])
        && read_states(after[session]) == no_states()
}

/// Calls `DashMap::entry` and `Entry::or_default`: a session that has a table keeps it,
/// and one that has none gets an empty one. No other session is affected.
#[verifier::external_body]
fn open_table(sessions: &mut DashMap<String, DashMap<String, FileReadState>>, session: &str)
    ensures
        is_opened(session_tables(*old(sessions)), session_tables(*final(sessions)), session@),
{
    sessions.entry(session.to_string()).or_default();
}

/// Calls `DashMap::remove`: takes the table of a session out of the map, if there is
/// one, and leaves all others.
#[verifier::external_body]
fn take_table(
    sessions: &mut DashMap<String, DashMap<String, FileReadState>>,
    session: &str,
) -> (taken: Option<DashMap<String, FileReadState>>)
    ensures
        session_tables(*final(sessions)) == session_tables(*old(sessions)).remove(session@),
        taken is Some == session_tables(*old(sessions)).contains_key(session@),
        taken is Some ==> taken->0 == session_tables(*old(sessions))[session@],
{
    sessions.remove(session).map(|removed| removed.1)
}

/// Calls `DashMap::insert` on the map of sessions: sets the table of a session and
/// leaves all others.
#[verifier::external_body]
fn put_table(
    sessions: &mut DashMap<String, DashMap<String, FileReadState>>,
    session: &str,
    states: DashMap<String, FileReadState>,
)
    ensures
        session_tables(*final(sessions)) == session_tables(*old(sessions)).insert(
            session@,
            states,
        ),
{
    sessions.insert(session.to_string(), states);
}

/// Calls `DashMap::get` on the map of sessions: finds the entry of a session if there
/// is one.
#[verifier::external_body]
fn find_table<'a>(
    sessions: &'a DashMap<String, DashMap<String, FileReadState>>,
    session: &str,
) -> (found: Option<Ref<'a, String, DashMap<String, FileReadState>>>)
    ensures
        found is Some == session_tables(*sessions).contains_key(session@),
        found is Some ==> shown_table(found->0) == session_tables(*sessions)[session@],
{
    sessions.get(session)
}

/// Calls `Ref::value` on an entry of the map of sessions.
#[verifier::external_body]
fn table_of<'a, 'b>(entry: &'b Ref<'a, String, DashMap<String, FileReadState>>) -> (states: &'b DashMap<
    String,
    FileReadState,
>)
    ensures
        *states == shown_table(*entry),
{
    entry.value()
}

/// Calls `DashMap::clear`, which removes every entry.
#[verifier::external_body]
fn clear_states(states: &mut DashMap<String, FileReadState>)
    ensures
        read_states(*final(states)) == no_states(),
{
    states.clear();
}

/// Calls `DashMap::insert` on the table of a session: sets one entry and leaves all
/// others.
#[verifier::external_body]
fn put_state(states: &mut DashMap<String, FileReadState>, path: &str, state: FileReadState)
    ensures
        read_states(*final(states)) == read_states(*old(states)).insert(path@, state),
{
    states.insert(path.to_string(), state);
}

/// Calls `DashMap::get` on the table of a session: finds the entry of a path if there
/// is one.
#[verifier::external_body]
fn find_state<'a>(
    states: &'a DashMap<String, FileReadState>,
    path: &str,
) -> (found: Option<Ref<'a, String, FileReadState>>)
    ensures
        found is Some == read_states(*states).contains_key(path@),
        found is Some ==> shown_state(found->0) == read_states(*states)[path@],
{
    states.get(path)
}

/// Calls `Ref::value` on an entry of the table of a session.
#[verifier::external_body]
fn state_of<'a, 'b>(entry: &'b Ref<'a, String, FileReadState>) -> (state: &'b FileReadState)
    ensures
        *state == shown_state(*entry),
{
    entry.value()
}

/// Calls `DashMap::iter`, which shows every entry once, in no particular order, and
/// notes the path of each and whether it is a partial view.
#[verifier::external_body]
fn list_states(states: &DashMap<String, FileReadState>) -> (listing: Vec<(String, bool)>)
    ensures
        is_listing(listing@, read_states(*states)),
{
    states.iter().map(|entry| (entry.key().clone(), entry.value().is_partial_view)).collect()
}

/// The read state of every file that every session has read.
pub struct FileReadStateStore {
    session_states: DashMap<String, DashMap<String, FileReadState>>,
}

impl View for FileReadStateStore {
    type V = Map<Seq<char>, Map<Seq<char>, FileReadState>>;

    /// For each session, what it has read, by path.
    closed spec fn view(&self) -> Map<Seq<char>, Map<Seq<char>, FileReadState>> {
        session_tables(self.session_states).map_values(
            |states: DashMap<String, FileReadState>| read_states(states),
        )
    }
}

/// What a session has read; nothing if there is no such session.
pub open spec fn files_of(
    store: Map<Seq<char>, Map<Seq<char>, FileReadState>>,
    session: Seq<char>,
) -> Map<Seq<char>, FileReadState> {
    if store.contains_key(session) {
        store[session]
    } else {
        Map::empty()
    }
}

/// A store with such a session; one that is there keeps what it has read.
pub open spec fn with_session(
    store: Map<Seq<char>, Map<Seq<char>, FileReadState>>,
    session: Seq<char>,
) -> Map<Seq<char>, Map<Seq<char>, FileReadState>> {
    store.insert(session, files_of(store, session))
}

/// A store in which a session, if it is there, has read nothing.
pub open spec fn with_session_cleared(
    store: Map<Seq<char>, Map<Seq<char>, FileReadState>>,
    session: Seq<char>,
) -> Map<Seq<char>, Map<Seq<char>, FileReadState>> {
    if store.contains_key(session) {
        store.insert(session, Map::empty())
    } else {
        store
    }
}

/// A store in which `state` is what the session has last read of a file.
pub open spec fn with_state(
    store: Map<Seq<char>, Map<Seq<char>, FileReadState>>,
    session: Seq<char>,
    path: Seq<char>,
    state: FileReadState,
) -> Map<Seq<char>, Map<Seq<char>, FileReadState>> {
    store.insert(session, files_of(store, session).insert(path, state))
}

/// What a lookup finds.
pub open spec fn state_at(
    store: Map<Seq<char>, Map<Seq<char>, FileReadState>>,
    session: Seq<char>,
    path: Seq<char>,
) -> Option<FileReadState> {
    if files_of(store, session).contains_key(path) {
        Some(files_of(store, session)[path])
    } else {
        None
    }
}

impl Default for FileReadStateStore {
    fn default() -> (store: Self)
        ensures
            store@ == Map::<Seq<char>, Map<Seq<char>, FileReadState>>::empty(),
    {
        let store = FileReadStateStore { session_states: new_sessions() };
        assert(store@ =~= Map::empty());
        store
    }
}

/// The paths of a listing that are no partial views.
spec fn explicit_of(listing: Seq<(String, bool)>) -> Seq<Seq<char>>
    decreases listing.len(),
{
    if listing.len() == 0 {
        Seq::empty()
    } else if listing.last().1 {
        explicit_of(listing.drop_last())
    } else {
        explicit_of(listing.drop_last()).push(listing.last().0@)
    }
}

/// A path is explicit exactly if the listing shows it and says so.
proof fn lemma_explicit_of(listing: Seq<(String, bool)>, path: Seq<char>)
    ensures
        explicit_of(listing).contains(path) <==> exists|i: int|
            0 <= i < listing.len() && !(#[trigger] listing[i]).1 && listing[i].0@ == path,
    decreases listing.len(),
{
    if listing.len() > 0 {
        let rest = listing.drop_last();
        let last = listing.last();
        lemma_explicit_of(rest, path);
        if explicit_of(rest).contains(path) {
            let i = choose|i: int|
                0 <= i < rest.len() && !(#[trigger] rest[i]).1 && rest[i].0@ == path;
            assert(listing[i] == rest[i]);
            let k = explicit_of(rest).index_of(path);
            assert(explicit_of(listing)[k] == path);
        }
        if !last.1 && last.0@ == path {
            assert(listing[listing.len() - 1] == last);
            assert(explicit_of(listing)[explicit_of(rest).len() as int] == path);
        }
        if explicit_of(listing).contains(path) && !explicit_of(rest).contains(path) {
            let k = explicit_of(listing).index_of(path);
            if k < explicit_of(rest).len() {
                assert(explicit_of(rest)[k] == path);
            }
        }
        if exists|i: int|
            0 <= i < listing.len() && !(#[trigger] listing[i]).1 && listing[i].0@ == path {
            let i = choose|i: int|
                0 <= i < listing.len() && !(#[trigger] listing[i]).1 && listing[i].0@ == path;
            if i < rest.len() {
                assert(rest[i] == listing[i]);
            }
        }
    }
}

/// A listing without repetitions has explicit paths without repetitions.
proof fn lemma_explicit_of_is_distinct(listing: Seq<(String, bool)>)
    requires
        forall|i: int, j: int|
            0 <= i < j < listing.len() ==> (#[trigger] listing[i]).0@ != (#[trigger] listing[j]).0@,
    ensures
        explicit_of(listing).no_duplicates(),
    decreases listing.len(),
{
    if listing.len() > 0 {
        let rest = listing.drop_last();
        let last = listing.last();
        assert forall|i: int, j: int| 0 <= i < j < rest.len() implies (#[trigger] rest[i]).0@ != (
        #[trigger] rest[j]).0@ by {
            assert(listing[i] == rest[i] && listing[j] == rest[j]);
        }
        lemma_explicit_of_is_distinct(rest);
        lemma_explicit_of(rest, last.0@);
        if explicit_of(rest).contains(last.0@) {
            let i = choose|i: int|
                0 <= i < rest.len() && !(#[trigger] rest[i]).1 && rest[i].0@ == last.0@;
            assert(listing[i].0@ != listing[listing.len() - 1].0@);
        }
    }
}

/// The paths are those of the files that were read and not just injected, each once, in
/// order.
pub open spec fn are_explicit_paths(
    paths: Seq<Seq<char>>,
    states: Map<Seq<char>, FileReadState>,
) -> bool {
    &&& ordering::is_in_key_order(paths)
    &&& paths.no_duplicates()
    &&& forall|path: Seq<char>| #[trigger]
        paths.contains(path) <==> states.contains_key(path) && !states[path].is_partial_view
}

/// The paths of a listing that are no partial views, in order.
fn explicit_paths(
    listing: Vec<(String, bool)>,
    Ghost(states): Ghost<Map<Seq<char>, FileReadState>>,
) -> (paths: Vec<String>)
    requires
        is_listing(listing@, states),
    ensures
        are_explicit_paths(path_texts(paths@), states),
{
    let mut listed: Vec<String> = Vec::new();
    let mut i: usize = 0;
    assert(path_texts(listed@) =~= explicit_of(listing@.take(0)));
    while i < listing.len()
        invariant
            i <= listing.len(),
            path_texts(listed@) == explicit_of(listing@.take(i as int)),
        decreases listing.len() - i,
    {
        assert(listing@.take(i + 1).drop_last() =~= listing@.take(i as int));
        let ghost before = listed@;
        if !listing[i].1 {
            let path = listing[i].0.clone();
            listed.push(path);
            assert(path_texts(listed@) =~= path_texts(before).push(path@));
        }
        i += 1;
    }
    assert(listing@.take(i as int) =~= listing@);
    let ghost found = listed@;
    let paths = sort_by_key(listed);
    proof {
        ordering::lemma_sorted_map(found, |path: String| path@);
        lemma_sorted_paths(path_texts(found));
        lemma_explicit_of_is_distinct(listing@);
        let sorted = path_texts(paths@);
        assert forall|path: Seq<char>| #[trigger]
            sorted.contains(path) <==> states.contains_key(path) && !states[path].is_partial_view by {
            lemma_explicit_of(listing@, path);
            assert(sorted.contains(path) <==> path_texts(found).contains(path));
            if states.contains_key(path) && !states[path].is_partial_view {
                let k = choose|k: int|
                    0 <= k < listing@.len() && (#[trigger] listing@[k]).0@ == path;
                assert(!listing@[k].1);
            }
        }
    }
    paths
}

/// Some paths as texts.
pub open spec fn path_texts(paths: Seq<String>) -> Seq<Seq<char>> {
    paths.map_values(|path: String| path@)
}

/// Sorting keeps every path, and distinct paths stay distinct.
proof fn lemma_sorted_paths(found: Seq<Seq<char>>)
    ensures
        ordering::is_in_key_order(ordering::sorted_by_key(found)),
        forall|path: Seq<char>| #[trigger]
            ordering::sorted_by_key(found).contains(path) <==> found.contains(path),
        found.no_duplicates() ==> ordering::sorted_by_key(found).no_duplicates(),
{
    broadcast use vstd::seq_lib::group_to_multiset_ensures;

    let sorted = ordering::sorted_by_key(found);
    ordering::lemma_sorted_by_key(found);
    assert forall|path: Seq<char>| #[trigger] sorted.contains(path) <==> found.contains(path) by {
        assert(sorted.contains(path) <==> sorted.to_multiset().count(path) > 0);
        assert(found.contains(path) <==> found.to_multiset().count(path) > 0);
    }
    if found.no_duplicates() {
        found.lemma_multiset_has_no_duplicates();
        sorted.lemma_multiset_has_no_duplicates_conv();
    }
}

impl FileReadStateStore {
    /// A store without sessions.
    pub fn new() -> (store: Self)
        ensures
            store@ == Map::<Seq<char>, Map<Seq<char>, FileReadState>>::empty(),
    {
        Self::default()
    }

    /// Makes sure that there is such a session. One that is there keeps what it has read.
    pub fn create_session(&mut self, session_id: &str)
        ensures
            final(self)@ == with_session(old(self)@, session_id@),
    {
        open_table(&mut self.session_states, session_id);
        assert(self@ =~= with_session(old(self)@, session_id@));
    }

    /// Forgets a session and what it has read.
    pub fn delete_session(&mut self, session_id: &str)
        ensures
            final(self)@ == old(self)@.remove(session_id@),
    {
        let _ = take_table(&mut self.session_states, session_id);
        assert(self@ =~= old(self)@.remove(session_id@));
    }

    /// Forgets what a session has read, if there is such a session.
    pub fn clear_session(&mut self, session_id: &str)
        ensures
            final(self)@ == with_session_cleared(old(self)@, session_id@),
    {
        if let Some(states) = take_table(&mut self.session_states, session_id) {
            let mut states = states;
            clear_states(&mut states);
            put_table(&mut self.session_states, session_id, states);
            assert(self@ =~= old(self)@.insert(session_id@, Map::empty()));
        } else {
            assert(self@ =~= old(self)@);
        }
    }

    /// Records what a session has read of a file. The session need not be there yet.
    pub fn set(&mut self, session_id: &str, logical_path: &str, state: FileReadState)
        ensures
            final(self)@ == with_state(old(self)@, session_id@, logical_path@, state),
    {
        self.create_session(session_id);
        let ghost opened = self@;
        assert(session_tables(self.session_states).contains_key(session_id@)) by {
            assert(opened.contains_key(session_id@));
        }
        let ghost tables = session_tables(self.session_states);
        assert(read_states(tables[session_id@]) == opened[session_id@]);
        if let Some(states) = take_table(&mut self.session_states, session_id) {
            let mut states = states;
            put_state(&mut states, logical_path, state);
            put_table(&mut self.session_states, session_id, states);
            assert(session_tables(self.session_states) =~= tables.insert(session_id@, states));
            assert(self@ =~= opened.insert(session_id@, read_states(states)));
            assert(opened[session_id@] == files_of(old(self)@, session_id@));
            assert(self@ =~= with_state(old(self)@, session_id@, logical_path@, state));
        }
    }

    /// What a session has last read of a file.
    pub fn get(&self, session_id: &str, logical_path: &str) -> (found: Option<FileReadState>)
        ensures
            found == state_at(self@, session_id@, logical_path@),
    {
        match find_table(&self.session_states, session_id) {
            None => None,
            Some(entry) => match find_state(table_of(&entry), logical_path) {
                None => None,
                Some(found) => Some(state_of(&found).clone()),
            },
        }
    }

    /// The files that a session has read and that were not just injected, in the order
    /// of their paths.
    pub fn explicitly_read_paths(&self, session_id: &str) -> (paths: Vec<String>)
        ensures
            are_explicit_paths(path_texts(paths@), files_of(self@, session_id@)),
    {
        match find_table(&self.session_states, session_id) {
            None => {
                let paths: Vec<String> = Vec::new();
                assert(path_texts(paths@) =~= Seq::empty());
                paths
            },
            Some(entry) => {
                let states = table_of(&entry);
                let paths = explicit_paths(list_states(states), Ghost(read_states(*states)));
                assert(files_of(self@, session_id@) == read_states(*states));
                paths
            },
        }
    }
}

/// A lookup finds what was set last under the same session and path, and setting it
/// changes no other lookup.
pub proof fn lemma_set_then_get(
    store: Map<Seq<char>, Map<Seq<char>, FileReadState>>,
    session: Seq<char>,
    path: Seq<char>,
    state: FileReadState,
)
    ensures
        state_at(with_state(store, session, path, state), session, path) == Some(state),
        forall|other_session: Seq<char>, other_path: Seq<char>|
            other_session != session || other_path != path ==> #[trigger] state_at(
                with_state(store, session, path, state),
                other_session,
                other_path,
            ) == state_at(store, other_session, other_path),
{
}

/// Creating a session changes no lookup, whether the session was there or not.
pub proof fn lemma_create_keeps_lookups(
    store: Map<Seq<char>, Map<Seq<char>, FileReadState>>,
    session: Seq<char>,
)
    ensures
        with_session(store, session).contains_key(session),
        with_session(with_session(store, session), session) == with_session(store, session),
        forall|other_session: Seq<char>, path: Seq<char>| #[trigger]
            state_at(with_session(store, session), other_session, path) == state_at(
                store,
                other_session,
                path,
            ),
{
    assert(with_session(with_session(store, session), session) =~= with_session(store, session));
}

/// After a session is cleared or deleted no lookup in it finds anything, and lookups in
/// every other session find what they found before.
pub proof fn lemma_clear_and_delete_drop_one_session(
    store: Map<Seq<char>, Map<Seq<char>, FileReadState>>,
    session: Seq<char>,
    path: Seq<char>,
)
    ensures
        state_at(with_session_cleared(store, session), session, path) is None,
        state_at(store.remove(session), session, path) is None,
        forall|other_session: Seq<char>|
            other_session != session ==> #[trigger] state_at(
                with_session_cleared(store, session),
                other_session,
                path,
            ) == state_at(store, other_session, path),
        forall|other_session: Seq<char>|
            other_session != session ==> #[trigger] state_at(
                store.remove(session),
                other_session,
                path,
            ) == state_at(store, other_session, path),
{
}

/// A session's list of explicitly read paths names exactly the files that it may change
/// as far as a prior read goes.
pub proof fn lemma_listed_paths_pass_the_prior_read_gate(
    store: Map<Seq<char>, Map<Seq<char>, FileReadState>>,
    session: Seq<char>,
    paths: Seq<Seq<char>>,
    path: Seq<char>,
    mutation: FileMutationKind,
)
    requires
        are_explicit_paths(paths, files_of(store, session)),
    ensures
        paths.contains(path) <==> file_read_state::prior_read_refusal(
            path,
            state_at(store, session, path),
            mutation,
        ) is None,
{
}

/// The list of explicitly read paths is determined by what the session has read.
pub proof fn lemma_explicit_paths_are_determined(
    left: Seq<Seq<char>>,
    right: Seq<Seq<char>>,
    states: Map<Seq<char>, FileReadState>,
)
    requires
        are_explicit_paths(left, states),
        are_explicit_paths(right, states),
    ensures
        left == right,
{
    ordering::lemma_distinct_order_is_unique(left, right);
}

} // verus!
