use vstd::prelude::*;

use std::sync::Arc;

use crate::config::RefreshError;
use crate::spec::{GameSpec, GameView};

verus! {

/// The directory shared by all requests. Readers get a whole directory
/// behind a shared handle; a new directory replaces the old one in one
/// atomic step, and holders of the old handle keep it unchanged.
///
/// The cell is `arc_swap::ArcSwap`, whose strategy types cannot be named
/// outside that crate; the struct is therefore opaque.
#[verifier::external_body]
pub struct TopologyStore {
    cell: arc_swap::ArcSwap<GameSpec>,
}

/// The directories that a store holds over its life: the one it was made
/// with and every one published to it.
pub uninterp spec fn published(s: TopologyStore) -> Set<GameView>;

/// Decides what a refresh publishes: the new directory where one was read,
/// nothing where the refresh failed.
pub fn refresh_target(next: Result<GameSpec, RefreshError>) -> (r: Option<GameSpec>)
    ensures
        match next {
            Ok(g) => r is Some && r->Some_0@ == g@,
            Err(_) => r is None,
        },
{
    match next {
        Ok(g) => Some(g),
        Err(_) => None,
    }
}

impl TopologyStore {
    /// Relies on `arc_swap::ArcSwap::new`: a cell that starts out holding
    /// `initial`.
    #[verifier::external_body]
    fn with_handle(initial: Arc<GameSpec>) -> (r: TopologyStore)
        ensures
            published(r).contains(initial@),
    {
        TopologyStore { cell: arc_swap::ArcSwap::new(initial) }
    }

    /// Relies on `arc_swap::ArcSwapAny::load_full`: the handle stored last,
    /// taken without a lock; it is one of the directories the cell has held.
    #[verifier::external_body]
    fn load(&self) -> (r: Arc<GameSpec>)
        ensures
            published(*self).contains(r@),
    {
        self.cell.load_full()
    }

    /// Relies on `arc_swap::ArcSwapAny::store`: the handle is replaced in one
    /// atomic step.
    #[verifier::external_body]
    fn store(&self, next: Arc<GameSpec>) {
        self.cell.store(next)
    }

    /// A store that holds `initial`.
    pub fn new(initial: GameSpec) -> (r: TopologyStore)
        ensures
            published(r).contains(initial@),
    {
        TopologyStore::with_handle(Arc::new(initial))
    }

    /// A whole directory that the store holds: the initial one or one that
    /// was published to it. Another thread may publish at any moment, so
    /// which one is not stated.
    pub fn read(&self) -> (r: Arc<GameSpec>)
        ensures
            published(*self).contains(r@),
    {
        self.load()
    }

    /// Hands `next` to the store, replacing its directory in one step.
    pub fn publish(&self, next: GameSpec) {
        self.store(Arc::new(next))
    }

    /// Publishes exactly what `refresh_target` decides: the new directory
    /// on `Ok`, nothing on `Err`. Tells whether it published.
    pub fn refresh(&self, next: Result<GameSpec, RefreshError>) -> (applied: bool)
        ensures
            applied == next is Ok,
    {
        match refresh_target(next) {
            Some(g) => {
                self.publish(g);
                true
            },
            None => false,
        }
    }
}

} // verus!
