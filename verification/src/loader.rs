//! Loading of training data.
use vstd::prelude::*;

use crate::batches;
use crate::batches::BatchAssembler;
use crate::inputs::OutputBuckets;
use crate::inputs::SparseInputType;
use crate::prepare::PrepareConfig;
use crate::prepared_data::PreparedData;
use crate::wrm_params::WrmParams;
use crate::wrm_params::WrmSettings;

verus! {

/// How a game ended for the side to move.
#[derive(Clone, Copy, Debug, PartialEq, Eq, Structural)]
pub enum GameResult {
    Loss,
    Draw,
    Win,
}

impl GameResult {
    /// The number of the result: 0 for a loss, 1 for a draw, 2 for a win.
    pub open spec fn number(self) -> int {
        match self {
            GameResult::Loss => 0,
            GameResult::Draw => 1,
            GameResult::Win => 2,
        }
    }

    pub fn index(self) -> (n: usize)
        ensures
            n == self.number(),
    {
        match self {
            GameResult::Loss => 0,
            GameResult::Draw => 1,
            GameResult::Win => 2,
        }
    }

    /// The result with number `n`.
    pub fn from_index(n: usize) -> (result: GameResult)
        requires
            n < 3,
        ensures
            result.number() == n,
    {
        match n {
            0 => GameResult::Loss,
            1 => GameResult::Draw,
            _ => GameResult::Win,
        }
    }
}

/// Training data: positions with a score and the result of the game.
///
/// With the spec functions an impl says what its methods give.
pub trait LoadableDataType: Sized {
    /// The score that was given to the position.
    open spec fn score_of(&self) -> i16 {
        arbitrary()
    }

    /// How the game ended for the side to move.
    open spec fn result_of(&self) -> GameResult {
        arbitrary()
    }

    fn score(&self) -> (score: i16)
        ensures
            score == self.score_of(),
    ;

    fn result(&self) -> (result: GameResult)
        ensures
            result == self.result_of(),
    ;
}

/// Reads data from somewhere with `loader`, and prepares it in batches.
pub struct DefaultDataLoader<I, O, T, B, W, S, M, L> {
    pub config: PrepareConfig<I, O, T, B, W, S, M>,
    pub loader: L,
}

impl<I, O, T, B, W, S, M, L> DefaultDataLoader<I, O, T, B, W, S, M, L> where
    I: SparseInputType,
    O: OutputBuckets<I::RequiredDataType>,
    I::RequiredDataType: LoadableDataType,
    T: Copy,
    B: Fn(&I::RequiredDataType, T) -> T,
    W: Fn(&I::RequiredDataType) -> T,
    S: Fn(i16) -> T,
    M: Fn(T, GameResult, T) -> T,
 {
    /// A loader.  Win rates that the config lacks are worked out here, with the parameters in force,
    /// which are used by that.
    pub fn new<R: Fn(&WrmParams<T>, i16) -> T>(
        config: PrepareConfig<I, O, T, B, W, S, M>,
        loader: L,
        settings: &mut WrmSettings<T>,
        wrm_target: &R,
    ) -> (data_loader: Self)
        requires
            config.lacks_win_rates() ==> forall|score: i16|
                #[trigger] call_requires(*wrm_target, (&old(settings).current(), score)),
        ensures
            data_loader.loader == loader,
            if config.lacks_win_rates() {
                &&& data_loader.config.worked_out(config, old(settings).current(), *wrm_target)
                &&& *final(settings) == old(settings).after_use()
            } else {
                &&& data_loader.config == config
                &&& *final(settings) == *old(settings)
            },
    {
        let mut config = config;
        config.work_out_win_rates(settings, wrm_target);
        DefaultDataLoader { config, loader }
    }

    /// Where to read on for the batches from `start_batch` on, and an assembler that the chunks
    /// read there are fed to.
    pub fn load_and_map_batches(&self, start_batch: usize, batch_size: usize) -> (start: (
        usize,
        BatchAssembler<I::RequiredDataType>,
    ))
        requires
            batch_size > 0,
            start_batch * batch_size <= usize::MAX,
        ensures
            start.0 == start_batch * batch_size,
            start.1@ == batches::Assembly::<I::RequiredDataType>::fresh(batch_size as int),
    {
        proof {
            assert(0 <= start_batch * batch_size) by (nonlinear_arith);
        }
        self.load_and_map_batches_from_position(start_batch * batch_size, batch_size)
    }

    /// Where to read on for the batches from the position `start_position` on, and an assembler
    /// that the chunks read there are fed to.
    pub fn load_and_map_batches_from_position(
        &self,
        start_position: usize,
        batch_size: usize,
    ) -> (start: (usize, BatchAssembler<I::RequiredDataType>))
        requires
            batch_size > 0,
        ensures
            start.0 == start_position,
            start.1@ == batches::Assembly::<I::RequiredDataType>::fresh(batch_size as int),
    {
        (start_position, BatchAssembler::new(batch_size))
    }

    /// Prepares a batch for `threads` threads.
    pub fn prepare(&self, data: &[I::RequiredDataType], threads: usize, blend: T) -> (prep:
        PreparedData<I, T>)
        requires
            0 < data@.len(),
            0 < threads,
            self.config.ready(data@, blend),
            self.config.spec_shape().addressable(data@.len() as int),
        ensures
            self.config.batch_done(data@, threads as int, blend, prep),
    {
        self.config.prepare_batch(data, threads, blend)
    }

    /// Prepares a batch for `threads` threads on the threads of a pool.
    pub fn prepare_with_pool(
        &self,
        data: &[I::RequiredDataType],
        pool: &rayon::ThreadPool,
        threads: usize,
        blend: T,
    ) -> (prep: PreparedData<I, T>) where
        I: Sync,
        I::RequiredDataType: Sync,
        I::HandCount: Send,
        O: Sync,
        T: Send + Sync,
        B: Sync,
        W: Sync,
        S: Sync,
        M: Sync,

        requires
            0 < data@.len(),
            0 < threads,
            self.config.ready(data@, blend),
            self.config.spec_shape().addressable(data@.len() as int),
        ensures
            self.config.batch_done(data@, threads as int, blend, prep),
    {
        self.config.prepare_batch_with_pool(data, threads, blend, Some(pool))
    }
}

} // verus!
