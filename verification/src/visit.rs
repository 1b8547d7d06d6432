//! The two producers, as decisions. The single worker keeps the directories
//! it still has to list and visits them depth first; a fan-out task handles
//! one directory and hands each subdirectory to a task of its own.

use crate::entry::{dirs_of, files_of, partition, Entry};
use crate::result::{Cause, Error, ErrorKind};
use std::path::PathBuf;
use std::sync::mpsc::SendError;
use vstd::prelude::*;

verus! {

/// The single worker: the directories that are still to be listed.
#[derive(Debug)]
pub struct Visit {
    /// A stack: the directory to list next is the last one.
    pending: Vec<PathBuf>,
}

/// What a fan-out task does with one directory's listing.
#[derive(Debug)]
pub struct Plan {
    /// The files to hand to the consumer, in the order of the listing.
    pub send: Vec<PathBuf>,
    /// The subdirectories, each to be given to a new task.
    pub spawn: Vec<PathBuf>,
}

impl Visit {
    /// The directories still to be listed, the next one first.
    pub closed spec fn queue(&self) -> Seq<PathBuf> {
        self.pending@.reverse()
    }

    /// A worker that has the whole tree under `root` before it.
    pub fn new(root: PathBuf) -> (v: Visit)
        ensures
            v.queue() == seq![root],
    {
        let mut pending: Vec<PathBuf> = Vec::new();
        pending.push(root);
        proof {
            assert(pending@.reverse() =~= seq![root]);
        }
        Visit { pending }
    }

    /// Whether nothing is left to list: the worker is done and lets go of
    /// its end of the channel.
    pub fn is_done(&self) -> (b: bool)
        ensures
            b == (self.queue().len() == 0),
    {
        self.pending.len() == 0
    }

    /// Takes the directory to list next, if one is left.
    pub fn next_dir(&mut self) -> (dir: Option<PathBuf>)
        ensures
            old(self).queue().len() == 0 ==> dir.is_none() && final(self).queue().len() == 0,
            old(self).queue().len() > 0 ==> dir == Some(old(self).queue()[0]),
            old(self).queue().len() > 0 ==> final(self).queue() == old(self).queue().skip(1),
    {
        let dir = self.pending.pop();
        proof {
            if old(self).pending@.len() > 0 {
                assert(self.pending@.reverse() =~= old(self).pending@.reverse().skip(1));
            }
        }
        dir
    }

    /// Takes the outcome of listing the directory that `next_dir` gave out.
    ///
    /// A listing gives the directory's files, to be sent at once and in this
    /// order. Its subdirectories go to the front of the queue, in the order
    /// of the listing: they and all below them are visited before any
    /// directory that was waiting already.
    ///
    /// A failed listing ends the worker: it gives up the rest of the tree
    /// and returns a file error that holds the platform's own, to be handed
    /// to the consumer as the worker's last item.
    pub fn visit(&mut self, listing: Result<Vec<Entry>, std::io::Error>) -> (r: Result<
        Vec<PathBuf>,
        Error,
    >)
        ensures
            match listing {
                Ok(entries) => r is Ok && r->Ok_0@ == files_of(entries@),
                Err(e) => r == Err::<Vec<PathBuf>, Error>(Error::wrap(Cause::Io(e))),
            },
            final(self).queue() == match listing {
                Ok(entries) => dirs_of(entries@) + old(self).queue(),
                Err(_) => Seq::<PathBuf>::empty(),
            },
            r is Err ==> r->Err_0.kind_spec() == ErrorKind::File,
    {
        match listing {
            Ok(entries) => {
                let (files, mut dirs) = partition(entries);
                let ghost found = dirs@;
                let ghost before = self.pending@;
                while dirs.len() > 0
                    invariant
                        dirs@ == found.take(dirs.len() as int),
                        dirs.len() <= found.len(),
                        self.pending@ == before + found.skip(dirs.len() as int).reverse(),
                    decreases dirs.len(),
                {
                    let ghost n = dirs.len() as int;
                    match dirs.pop() {
                        Some(dir) => {
                            self.pending.push(dir);
                            proof {
                                assert(dir == found[n - 1]);
                                assert(self.pending@ =~= before + found.skip(n - 1).reverse());
                            }
                        },
                        None => {},
                    }
                }
                proof {
                    assert(self.pending@.reverse() =~= found + before.reverse());
                }
                Ok(files)
            },
            Err(e) => {
                self.pending.clear();
                proof {
                    Error::lemma_wrap(Cause::Io(e));
                }
                Err(Error::from(e))
            },
        }
    }

    /// A hand-off failed, the consumer being gone: the worker gives up the
    /// rest of the tree and ends with a channel error that holds the failed
    /// hand-off.
    pub fn fail_send(&mut self, e: SendError<PathBuf>) -> (err: Error)
        ensures
            final(self).queue().len() == 0,
            err == Error::wrap(Cause::Send(e)),
            err.kind_spec() == ErrorKind::Channel,
    {
        self.pending.clear();
        proof {
            Error::lemma_wrap(Cause::Send(e));
        }
        Error::from(e)
    }
}

/// One fan-out task's step on the outcome of listing its directory.
///
/// A listing gives the plan: the directory's files are sent, in the order of
/// the listing, and then each subdirectory gets a task of its own. The task
/// does not wait for them.
///
/// A failed listing ends the task with a file error that holds the
/// platform's own, to be handed to the consumer as the task's last item;
/// the tasks of other directories go on.
pub fn visit_multithreaded(listing: Result<Vec<Entry>, std::io::Error>) -> (r: Result<Plan, Error>)
    ensures
        match listing {
            Ok(entries) => r is Ok && r->Ok_0.send@ == files_of(entries@) && r->Ok_0.spawn@
                == dirs_of(entries@),
            Err(e) => r == Err::<Plan, Error>(Error::wrap(Cause::Io(e))),
        },
        r is Err ==> r->Err_0.kind_spec() == ErrorKind::File,
{
    match listing {
        Ok(entries) => {
            let (send, spawn) = partition(entries);
            Ok(Plan { send, spawn })
        },
        Err(e) => {
            proof {
                Error::lemma_wrap(Cause::Io(e));
            }
            Err(Error::from(e))
        },
    }
}

/// What a fan-out task starts once its hand-offs are over. If all went
/// well, each of the subdirectories `spawn` gets its task. If one failed,
/// the consumer being gone, the task starts nothing and ends with a channel
/// error that holds the failed hand-off.
pub fn spawn_after(spawn: Vec<PathBuf>, sent: Result<(), SendError<PathBuf>>) -> (r: Result<
    Vec<PathBuf>,
    Error,
>)
    ensures
        match sent {
            Ok(_) => r == Ok::<Vec<PathBuf>, Error>(spawn),
            Err(e) => r == Err::<Vec<PathBuf>, Error>(Error::wrap(Cause::Send(e))),
        },
        r is Err ==> r->Err_0.kind_spec() == ErrorKind::Channel,
{
    match sent {
        Ok(_) => Ok(spawn),
        Err(e) => {
            proof {
                Error::lemma_wrap(Cause::Send(e));
            }
            Err(Error::from(e))
        },
    }
}

} // verus!
