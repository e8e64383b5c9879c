//! How the results of tasks are awaited.

use vstd::prelude::*;

use crate::failure::{RequestError, StatusCode};
use crate::hexkey;
use crate::keys::{AsyncKey, TaskId};
use crate::replies;
use crate::replies::Outcome;
use crate::state::{HurlinState, StateView};

verus! {

/// What becomes of an await.
pub enum AwaitDecision {
    /// The task has ended: answer with what it came to.
    Answer(Outcome),
    /// Wait for the task to end.
    Wait,
}

impl<L, W> StateView<L, W> {
    /// `task` awaits something under `key`, or can.
    pub open spec fn in_use(self, key: AsyncKey, task: TaskId) -> bool {
        self.waits.contains_key((key, task)) || self.awaited.contains_key((key, task))
    }

    /// The state once `task` can await under `key` what has just been started.
    pub open spec fn with_wait(self, key: AsyncKey, task: TaskId) -> Self {
        StateView { waits: self.waits.insert((key, task), None), ..self }
    }

    /// The state once what `task` could await under `key` has been claimed.
    pub open spec fn without_wait(self, key: AsyncKey, task: TaskId) -> Self {
        StateView { waits: self.waits.remove((key, task)), ..self }
    }

    /// The state once what `task` could await under `key` has been claimed, and `waiter` waits for
    /// it.
    pub open spec fn with_waiter(self, key: AsyncKey, task: TaskId, waiter: W) -> Self {
        StateView {
            waits: self.waits.remove((key, task)),
            awaited: self.awaited.insert((key, task), waiter),
            ..self
        }
    }

    /// The state once what was started for `task` under `key` has come to `outcome`: it is kept
    /// until it is awaited, unless it is being awaited already.
    pub open spec fn settled(
        self,
        key: AsyncKey,
        task: TaskId,
        outcome: Result<(Option<Seq<u8>>, Seq<u8>), StatusCode>,
    ) -> Self {
        if self.awaited.contains_key((key, task)) {
            StateView { awaited: self.awaited.remove((key, task)), ..self }
        } else if self.waits.contains_key((key, task)) && self.waits[(key, task)] is None {
            StateView { waits: self.waits.insert((key, task), Some(outcome)), ..self }
        } else {
            self
        }
    }

    /// Something can be awaited by `task` under the key that reads `key`.
    pub open spec fn awaits(self, key: Seq<char>, task: TaskId) -> bool {
        exists|id: AsyncKey| self.waits.contains_key((id, task)) && #[trigger] id@ == key
    }

    /// Each of `draws` was drawn at random, and is in use for `task`.
    pub open spec fn all_in_use(self, draws: Seq<AsyncKey>, task: TaskId) -> bool {
        forall|i: int|
            0 <= i < draws.len() ==> self.in_use(#[trigger] draws[i], task) && hexkey::is_drawn(
                draws[i]@,
            )
    }
}

impl<L, W> HurlinState<L, W> {
    /// The first of `draws` that is not in use for `task`.
    pub fn first_free_async_key(&self, task: TaskId, draws: &Vec<AsyncKey>) -> (key: Option<
        AsyncKey,
    >)
        ensures
            match key {
                Some(key) => exists|i: int|
                    {
                        &&& 0 <= i < draws.len()
                        &&& #[trigger] draws@[i] == key
                        &&& !self@.in_use(key, task)
                        &&& forall|j: int| 0 <= j < i ==> self@.in_use(#[trigger] draws@[j], task)
                    },
                None => forall|j: int|
                    0 <= j < draws.len() ==> self@.in_use(#[trigger] draws@[j], task),
            },
    {
        let mut i: usize = 0;
        while i < draws.len()
            invariant
                i <= draws.len(),
                forall|j: int| 0 <= j < i ==> self@.in_use(#[trigger] draws@[j], task),
            decreases draws.len() - i,
        {
            let key = draws[i];
            if !self.async_waits.contains_key(&(key, task)) && !self.awaited.contains_key(
                &(key, task),
            ) {
                assert(draws@[i as int] == key);
                return Some(key);
            }
            i += 1;
        }
        None
    }

    /// A random key that is not in use for `task`, after at most `tries` draws.
    pub fn fresh_async_key(&self, task: TaskId, tries: u64) -> (key: Option<AsyncKey>)
        ensures
            match key {
                Some(key) => {
                    &&& tries > 0
                    &&& hexkey::is_key_text(key@)
                    &&& hexkey::is_drawn(key@)
                    &&& !self@.in_use(key, task)
                },
                None => exists|draws: Seq<AsyncKey>|
                    draws.len() == tries && #[trigger] self@.all_in_use(draws, task),
            },
    {
        let ghost mut taken: Seq<AsyncKey> = Seq::empty();
        let mut left: u64 = tries;
        while left > 0
            invariant
                taken.len() + left == tries,
                self@.all_in_use(taken, task),
            decreases left,
        {
            let mut draw: Vec<AsyncKey> = Vec::new();
            draw.push(AsyncKey::new());
            if let Some(key) = self.first_free_async_key(task, &draw) {
                return Some(key);
            }
            proof {
                taken = taken.push(draw@[0]);
            }
            left -= 1;
        }
        None
    }

    /// Lets `task` await under `key` what is about to be started. If the key is in use, nothing
    /// changes.
    pub fn register_wait(&mut self, key: AsyncKey, task: TaskId) -> (registered: bool)
        requires
            old(self).wf(),
        ensures
            final(self).wf(),
            registered == !old(self)@.in_use(key, task),
            final(self)@ == (if registered {
                old(self)@.with_wait(key, task)
            } else {
                old(self)@
            }),
    {
        if self.async_waits.contains_key(&(key, task)) || self.awaited.contains_key(&(key, task)) {
            return false;
        }
        self.async_waits.insert((key, task), None);
        proof {
            assert(self@.waits =~= old(self)@.waits.insert((key, task), None));
            assert(self@ =~= old(self)@.with_wait(key, task));
            assert(self@.consistent());
        }
        true
    }

    /// Lets `task` await under a new key what is about to be started. The key is drawn at most
    /// `tries` times; if every key drawn is in use, nothing changes.
    pub fn get_unique_async_key(&mut self, task: TaskId, tries: u64) -> (key: Option<AsyncKey>)
        requires
            old(self).wf(),
        ensures
            final(self).wf(),
            match key {
                Some(key) => {
                    &&& tries > 0
                    &&& hexkey::is_key_text(key@)
                    &&& hexkey::is_drawn(key@)
                    &&& !old(self)@.in_use(key, task)
                    &&& final(self)@ == old(self)@.with_wait(key, task)
                },
                None => {
                    &&& exists|draws: Seq<AsyncKey>|
                        draws.len() == tries && #[trigger] old(self)@.all_in_use(draws, task)
                    &&& final(self)@ == old(self)@
                },
            },
    {
        match self.fresh_async_key(task, tries) {
            Some(key) => {
                self.register_wait(key, task);
                Some(key)
            },
            None => None,
        }
    }

    /// What was started for `task` under `key` has come to `outcome`. If it is being awaited, the
    /// waiter is to be told.
    pub fn settle_wait(&mut self, key: AsyncKey, task: TaskId, outcome: Outcome) -> (told: Option<
        (W, Outcome),
    >)
        requires
            old(self).wf(),
        ensures
            final(self).wf(),
            final(self)@ == old(self)@.settled(key, task, replies::outcome_view(outcome)),
            match told {
                Some((waiter, told)) => {
                    &&& old(self)@.awaited.contains_key((key, task))
                    &&& waiter == old(self)@.awaited[(key, task)]
                    &&& told == outcome
                },
                None => !old(self)@.awaited.contains_key((key, task)),
            },
    {
        let ghost came_to = replies::outcome_view(outcome);
        let told = match self.awaited.remove(&(key, task)) {
            Some(waiter) => Some((waiter, outcome)),
            None => {
                match self.async_waits.remove(&(key, task)) {
                    Some(None) => {
                        self.async_waits.insert((key, task), Some(outcome));
                    },
                    Some(Some(earlier)) => {
                        self.async_waits.insert((key, task), Some(earlier));
                    },
                    None => {},
                }
                None
            },
        };
        proof {
            let after = old(self)@.settled(key, task, came_to);
            assert(self@.awaited =~= after.awaited);
            assert(self@.waits =~= after.waits);
            assert(self@ =~= after);
            assert(self@.consistent());
        }
        told
    }

    /// Claims what `task` awaits under `await_key`. It can be claimed once. If it has not ended,
    /// `waiter` waits for it.
    pub fn hurlin_await(&mut self, task: TaskId, await_key: &str, waiter: W) -> (decided: Result<
        AwaitDecision,
        RequestError,
    >)
        requires
            old(self).wf(),
        ensures
            final(self).wf(),
            match decided {
                Ok(decided) => hexkey::is_key_text(await_key@) && exists|key: AsyncKey|
                    {
                        &&& #[trigger] key@ == await_key@
                        &&& old(self)@.waits.contains_key((key, task))
                        &&& match decided {
                            AwaitDecision::Answer(outcome) => {
                                &&& old(self)@.waits[(key, task)] == Some(
                                    replies::outcome_view(outcome),
                                )
                                &&& final(self)@ == old(self)@.without_wait(key, task)
                            },
                            AwaitDecision::Wait => {
                                &&& old(self)@.waits[(key, task)] is None
                                &&& final(self)@ == old(self)@.with_waiter(key, task, waiter)
                            },
                        }
                    },
                Err(error) => {
                    &&& final(self)@ == old(self)@
                    &&& if !hexkey::is_key_text(await_key@) {
                        error == RequestError::BadAsyncKey
                    } else {
                        error == RequestError::UnclaimedAsyncKey && !old(self)@.awaits(
                            await_key@,
                            task,
                        )
                    }
                },
            },
    {
        let key = match AsyncKey::validate(await_key) {
            Ok(key) => key,
            Err(()) => return Err(RequestError::BadAsyncKey),
        };
        assert(key@ == await_key@);
        let claimed = self.async_waits.remove(&(key, task));
        proof {
            assert(self@.waits =~= old(self)@.waits.remove((key, task)));
            assert(self@ =~= old(self)@.without_wait(key, task));
            assert(self@.consistent());
        }
        match claimed {
            Some(Some(outcome)) => Ok(AwaitDecision::Answer(outcome)),
            Some(None) => {
                self.awaited.insert((key, task), waiter);
                proof {
                    assert(self@ =~= old(self)@.with_waiter(key, task, waiter));
                    assert(self@.consistent());
                }
                Ok(AwaitDecision::Wait)
            },
            None => {
                proof {
                    assert(old(self)@.waits.remove((key, task)) =~= old(self)@.waits);
                    if old(self)@.awaits(await_key@, task) {
                        let other = choose|other: AsyncKey|
                            old(self)@.waits.contains_key((other, task)) && #[trigger] other@
                                == await_key@;
                        AsyncKey::law_same_text_same_key(other, key);
                    }
                }
                Err(RequestError::UnclaimedAsyncKey)
            },
        }
    }
}

} // verus!
