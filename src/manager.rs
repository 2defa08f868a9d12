use std::collections::HashMap;
use uuid::Uuid;
use vstd::prelude::*;

use crate::game::Game;

verus! {

#[verifier::external_type_specification]
#[verifier::external_body]
pub struct ExUuid(Uuid);

/// Relies on uuid's `Uuid::new_v4`: a random version 4 identifier. Nothing
/// is promised of its value.
#[verifier::external_body]
fn new_game_id() -> (r: Uuid) {
    Uuid::new_v4()
}

/// The registry of running games, one exclusively owned game per identifier.
pub struct Manager {
    games: HashMap<Uuid, Game>,
}

impl Manager {
    /// A registry with no games.
    pub fn new() -> (r: Manager)
        ensures
            r.games().is_empty(),
    {
        Manager { games: HashMap::new() }
    }

    pub closed spec fn games(&self) -> Map<Uuid, Game> {
        self.games@
    }

    /// A fresh game identifier. Always `Ok`; the registry is left as it was.
    pub fn create_game(&mut self) -> (r: Result<Uuid, String>)
        ensures
            r is Ok,
            final(self).games() == old(self).games(),
    {
        Ok(new_game_id())
    }
}

} // verus!
