use vstd::prelude::*;

verus! {

/// The loading lifecycle: raw data is fetched, then linked, then the game runs.
/// No state is entered twice.
#[derive(Clone, Copy, Debug, PartialEq, Eq, Hash, Structural)]
pub enum GameState {
    /// Waiting for the data files to finish loading (the initial state).
    LoadingFromDisk,
    /// Building the registries from the loaded records.
    AddingToDatabase,
    /// The registries are published (the final state).
    Playing,
}

impl Default for GameState {
    fn default() -> (r: Self)
        ensures
            r == GameState::LoadingFromDisk,
    {
        GameState::LoadingFromDisk
    }
}

/// How far the loading of one data file has come.
#[derive(Clone, Copy, Debug, PartialEq, Eq, Structural)]
pub enum LoadStatus {
    Pending,
    Loaded,
    Failed,
}

/// Every requested file has finished loading, one way or the other.
pub open spec fn all_settled(statuses: Seq<LoadStatus>) -> bool {
    forall|i: int| 0 <= i < statuses.len() ==> statuses[i] != LoadStatus::Pending
}

/// The state after a poll of the files' load statuses.
pub open spec fn after_poll(state: GameState, statuses: Seq<LoadStatus>) -> GameState {
    match state {
        GameState::LoadingFromDisk => if all_settled(statuses) {
            GameState::AddingToDatabase
        } else {
            GameState::LoadingFromDisk
        },
        _ => state,
    }
}

/// The state once the registries have been built, whatever errors the build met.
pub open spec fn after_build(state: GameState) -> GameState {
    match state {
        GameState::AddingToDatabase => GameState::Playing,
        _ => state,
    }
}

impl GameState {
    /// Polls the load statuses: while fetching, moves on to linking once no file is pending.
    pub fn on_poll(&self, statuses: &Vec<LoadStatus>) -> (r: GameState)
        ensures
            r == after_poll(*self, statuses@),
    {
        match self {
            GameState::LoadingFromDisk => {
                let mut i: usize = 0;
                while i < statuses.len()
                    invariant
                        i <= statuses@.len(),
                        *self == GameState::LoadingFromDisk,
                        forall|j: int| 0 <= j < i ==> statuses@[j] != LoadStatus::Pending,
                    decreases statuses@.len() - i,
                {
                    if statuses[i] == LoadStatus::Pending {
                        assert(statuses@[i as int] == LoadStatus::Pending);
                        return GameState::LoadingFromDisk;
                    }
                    i = i + 1;
                }
                GameState::AddingToDatabase
            },
            _ => *self,
        }
    }

    /// Reports that the build finished: linking moves on to playing.
    pub fn on_built(&self) -> (r: GameState)
        ensures
            r == after_build(*self),
    {
        match self {
            GameState::AddingToDatabase => GameState::Playing,
            _ => *self,
        }
    }
}

/// The positions of the files that loaded; failed files are left out.
pub open spec fn loaded_positions(statuses: Seq<LoadStatus>) -> Seq<usize>
    decreases statuses.len(),
{
    if statuses.len() == 0 {
        Seq::empty()
    } else if statuses.last() == LoadStatus::Loaded {
        loaded_positions(statuses.drop_last()).push((statuses.len() - 1) as usize)
    } else {
        loaded_positions(statuses.drop_last())
    }
}

/// Chooses the files whose records go to the build: those that loaded, in order.
pub fn loaded_files(statuses: &Vec<LoadStatus>) -> (r: Vec<usize>)
    ensures
        r@ == loaded_positions(statuses@),
{
    let mut r: Vec<usize> = Vec::new();
    let mut i: usize = 0;
    while i < statuses.len()
        invariant
            i <= statuses@.len(),
            r@ == loaded_positions(statuses@.take(i as int)),
        decreases statuses@.len() - i,
    {
        proof {
            assert(statuses@.take(i + 1).drop_last() =~= statuses@.take(i as int));
        }
        if statuses[i] == LoadStatus::Loaded {
            r.push(i);
        }
        i = i + 1;
    }
    proof {
        assert(statuses@.take(i as int) =~= statuses@);
    }
    r
}

} // verus!
