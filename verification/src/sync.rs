//! The branch materialization protocol.
//!
//! Syncing projects the dependency graph onto a git working tree: one
//! branch per package, recreated from the trunk and patched in dependency
//! order, ending checked out on the root package's branch. The working
//! tree is outside the library, so the protocol is a state machine: each
//! step hands the caller the next version-control action, and the caller
//! reports how it went. The machine decides; the caller only executes.

use vstd::prelude::*;
use crate::id::Id;
use crate::registry::Error;
use crate::registry::Registry;
use crate::registry::id_texts;

verus! {

/// The name of the trunk branch: the unmodified base source tree.
pub open spec fn trunk_name() -> Seq<char> {
    "main"@
}

/// A version-control action the caller must perform next.
#[derive(Debug)]
pub enum SyncAction {
    /// Persist the root package's committed work back into its patch
    /// directory before the branches are recreated.
    SaveWork,
    /// Check out this branch.
    Checkout {
        /// The branch name.
        branch: String,
    },
    /// Report whether this branch exists.
    QueryBranchExists {
        /// The branch name.
        branch: String,
    },
    /// Delete this branch.
    DeleteBranch {
        /// The branch name.
        branch: String,
    },
    /// Create a branch with this name at the current tip.
    CreateBranch {
        /// The branch name.
        branch: String,
    },
    /// Apply this package's patches, in their lexicographic file order, to
    /// the working tree.
    ApplyPatches {
        /// The package whose patches to apply.
        id: Id,
    },
    /// Report the name of the branch currently checked out.
    QueryCurrentBranch,
    /// The sync is complete: the tree is checked out on the root's branch.
    Done,
}

/// What the caller reports back after performing an action.
#[derive(Debug)]
pub enum SyncEvent {
    /// Begin the protocol.
    Start,
    /// The previous action succeeded.
    Succeeded,
    /// The answer to a branch-existence query.
    Exists {
        /// Whether the branch exists.
        yes: bool,
    },
    /// The answer to a current-branch query.
    CurrentBranch {
        /// The branch name.
        name: String,
    },
}

/// Where the protocol stands.
#[derive(Debug, PartialEq, Eq, Structural, Clone, Copy)]
pub enum SyncPhase {
    /// Nothing has happened yet.
    Idle,
    /// Waiting to hear whether the root's branch exists.
    AwaitRootExists,
    /// Waiting for the root's work to be saved to its patch directory.
    AwaitSave,
    /// Waiting for the trunk checkout.
    AwaitTrunk,
    /// Waiting to hear whether the branch of the plan entry at this index
    /// exists (deletion pass).
    AwaitDeleteCheck {
        /// Index into the plan.
        i: usize,
    },
    /// Waiting for the deletion of the branch of the plan entry at this
    /// index.
    AwaitDelete {
        /// Index into the plan.
        i: usize,
    },
    /// Waiting for the creation of the branch of the plan entry at this
    /// index.
    AwaitCreate {
        /// Index into the plan.
        i: usize,
    },
    /// Waiting for the checkout of the branch of the plan entry at this
    /// index.
    AwaitCheckout {
        /// Index into the plan.
        i: usize,
    },
    /// Waiting for the patches of the plan entry at this index to apply.
    AwaitApply {
        /// Index into the plan.
        i: usize,
    },
    /// Waiting for the final current-branch verification.
    AwaitVerify,
    /// The protocol has finished.
    Finished,
}

/// Errors of the sync protocol.
#[derive(Debug)]
pub enum SyncError {
    /// The caller's event does not answer the pending action.
    Protocol,
    /// After all patches applied, the tree was not on the root's branch.
    WrongFinalBranch {
        /// The branch the tree ended on.
        found: String,
    },
}

/// The sync protocol state machine for one root package.
#[derive(Debug)]
pub struct SyncMachine {
    root: Id,
    plan: Vec<Id>,
    phase: SyncPhase,
}

impl SyncMachine {
    /// The machine's plan: the patch order, dependencies first, root last.
    pub closed spec fn plan(self) -> Seq<Seq<char>> {
        id_texts(self.plan@)
    }

    /// The machine's root identifier text.
    pub closed spec fn root(self) -> Seq<char> {
        self.root@
    }

    /// The machine's current phase.
    pub closed spec fn phase(self) -> SyncPhase {
        self.phase
    }

    /// Whether the machine accepts `event` in its current phase: the
    /// event answers the pending action (and, at the final verification,
    /// the reported branch is the root's own).
    pub open spec fn accepts(self, event: SyncEvent) -> bool {
        match (self.phase(), event) {
            (SyncPhase::Idle, SyncEvent::Start) => true,
            (SyncPhase::AwaitRootExists, SyncEvent::Exists { .. }) => true,
            (SyncPhase::AwaitSave, SyncEvent::Succeeded) => true,
            (SyncPhase::AwaitTrunk, SyncEvent::Succeeded) => true,
            (SyncPhase::AwaitDeleteCheck { i }, SyncEvent::Exists { .. }) => i < self.plan().len(),
            (SyncPhase::AwaitDelete { i }, SyncEvent::Succeeded) => i < self.plan().len(),
            (SyncPhase::AwaitCreate { i }, SyncEvent::Succeeded) => i < self.plan().len(),
            (SyncPhase::AwaitCheckout { i }, SyncEvent::Succeeded) => i < self.plan().len(),
            (SyncPhase::AwaitApply { i }, SyncEvent::Succeeded) => i < self.plan().len(),
            (SyncPhase::AwaitVerify, SyncEvent::CurrentBranch { name }) => name@ == self.root(),
            _ => false,
        }
    }

    /// Plans a sync of `root` against `registry`: computes the patch
    /// order, which the branch recreation and patch application will
    /// follow exactly. Fails when the registry cannot order the graph for
    /// this root (unregistered root, cycle, orphan, or a dangling edge).
    pub fn new(registry: &Registry, root: &Id) -> (r: Result<SyncMachine, Error>)
        requires
            registry.wf(),
        ensures
            match r {
                Ok(machine) => {
                    &&& crate::reach::linearizes(registry@, machine.plan())
                    &&& machine.plan().len() > 0
                    &&& machine.plan().last() == root@
                    &&& machine.root() == root@
                    &&& machine.phase() == SyncPhase::Idle
                },
                Err(e) => {
                    ||| !crate::reach::closure_ok(registry@, root@)
                    ||| exists|k: Seq<char>| #[trigger] crate::reach::is_orphan(registry@, root@, k)
                    ||| crate::reach::has_cycle(registry@)
                    ||| crate::reach::has_dangling_edge(registry@)
                },
            },
    {
        let plan = registry.calc_dependency_patch_order(root)?;
        Ok(SyncMachine { root: root.clone(), plan, phase: SyncPhase::Idle })
    }

    /// Feeds the caller's event to the machine and hands back the next
    /// action. The returned actions recreate every branch of the plan in
    /// order — saving the root's open work first when its branch already
    /// exists, switching to the trunk, deleting every existing branch of
    /// the plan, then for each plan entry in order creating its branch,
    /// checking it out and applying its patches — and finish only after
    /// the tree is verified to sit on the root's branch.
    pub fn step(&mut self, event: SyncEvent) -> (r: Result<SyncAction, SyncError>)
        requires
            old(self).plan().len() > 0,
            old(self).plan().last() == old(self).root(),
        ensures
            final(self).plan() == old(self).plan(),
            final(self).root() == old(self).root(),
            final(self).plan().len() > 0,
            final(self).plan().last() == final(self).root(),
            r is Ok <==> old(self).accepts(event),
            match r {
                Ok(action) => match (old(self).phase(), event) {
                    (SyncPhase::Idle, SyncEvent::Start) => {
                        &&& final(self).phase() == SyncPhase::AwaitRootExists
                        &&& action matches SyncAction::QueryBranchExists { branch } && branch@
                            == old(self).root()
                    },
                    (SyncPhase::AwaitRootExists, SyncEvent::Exists { yes }) => {
                        if yes {
                            &&& final(self).phase() == SyncPhase::AwaitSave
                            &&& action is SaveWork
                        } else {
                            &&& final(self).phase() == SyncPhase::AwaitTrunk
                            &&& action matches SyncAction::Checkout { branch } && branch@
                                == trunk_name()
                        }
                    },
                    (SyncPhase::AwaitSave, SyncEvent::Succeeded) => {
                        &&& final(self).phase() == SyncPhase::AwaitTrunk
                        &&& action matches SyncAction::Checkout { branch } && branch@
                            == trunk_name()
                    },
                    (SyncPhase::AwaitTrunk, SyncEvent::Succeeded) => {
                        &&& final(self).phase() == (SyncPhase::AwaitDeleteCheck { i: 0 })
                        &&& action matches SyncAction::QueryBranchExists { branch } && branch@
                            == old(self).plan()[0]
                    },
                    (SyncPhase::AwaitDeleteCheck { i }, SyncEvent::Exists { yes }) => {
                        if i < old(self).plan().len() && yes {
                            &&& final(self).phase() == (SyncPhase::AwaitDelete { i })
                            &&& action matches SyncAction::DeleteBranch { branch } && branch@
                                == old(self).plan()[i as int]
                        } else if i < old(self).plan().len() {
                            advance_outcome(old(self).plan(), i as int, final(self).phase(), action)
                        } else {
                            false
                        }
                    },
                    (SyncPhase::AwaitDelete { i }, SyncEvent::Succeeded) => i
                        < old(self).plan().len() && advance_outcome(
                        old(self).plan(),
                        i as int,
                        final(self).phase(),
                        action,
                    ),
                    (SyncPhase::AwaitCreate { i }, SyncEvent::Succeeded) => {
                        &&& i < old(self).plan().len()
                        &&& final(self).phase() == (SyncPhase::AwaitCheckout { i })
                        &&& action matches SyncAction::Checkout { branch } && branch@ == old(
                            self,
                        ).plan()[i as int]
                    },
                    (SyncPhase::AwaitCheckout { i }, SyncEvent::Succeeded) => {
                        &&& i < old(self).plan().len()
                        &&& final(self).phase() == (SyncPhase::AwaitApply { i })
                        &&& action matches SyncAction::ApplyPatches { id } && id@ == old(
                            self,
                        ).plan()[i as int]
                    },
                    (SyncPhase::AwaitApply { i }, SyncEvent::Succeeded) => {
                        &&& i < old(self).plan().len()
                        &&& if i + 1 < old(self).plan().len() {
                            &&& final(self).phase() == (SyncPhase::AwaitCreate { i: (i + 1) as usize })
                            &&& action matches SyncAction::CreateBranch { branch } && branch@
                                == old(self).plan()[i + 1]
                        } else {
                            &&& final(self).phase() == SyncPhase::AwaitVerify
                            &&& action is QueryCurrentBranch
                        }
                    },
                    (SyncPhase::AwaitVerify, SyncEvent::CurrentBranch { name }) => {
                        &&& name@ == old(self).root()
                        &&& final(self).phase() == SyncPhase::Finished
                        &&& action is Done
                    },
                    _ => false,
                },
                Err(e) => {
                    &&& final(self).phase() == old(self).phase()
                    &&& match e {
                        SyncError::Protocol => !(old(self).phase() is AwaitVerify
                            && event is CurrentBranch),
                        SyncError::WrongFinalBranch { found } => {
                            &&& old(self).phase() is AwaitVerify
                            &&& event matches SyncEvent::CurrentBranch { name } && found@ == name@
                                && name@ != old(self).root()
                        },
                    }
                },
            },
    {
        let n = self.plan.len();
        match (self.phase, event) {
            (SyncPhase::Idle, SyncEvent::Start) => {
                self.phase = SyncPhase::AwaitRootExists;
                Ok(SyncAction::QueryBranchExists { branch: self.root.to_text() })
            },
            (SyncPhase::AwaitRootExists, SyncEvent::Exists { yes }) => {
                if yes {
                    self.phase = SyncPhase::AwaitSave;
                    Ok(SyncAction::SaveWork)
                } else {
                    self.phase = SyncPhase::AwaitTrunk;
                    Ok(SyncAction::Checkout { branch: String::from_str("main") })
                }
            },
            (SyncPhase::AwaitSave, SyncEvent::Succeeded) => {
                self.phase = SyncPhase::AwaitTrunk;
                Ok(SyncAction::Checkout { branch: String::from_str("main") })
            },
            (SyncPhase::AwaitTrunk, SyncEvent::Succeeded) => {
                self.phase = SyncPhase::AwaitDeleteCheck { i: 0 };
                proof {
                    assert(self.plan()[0] == self.plan@[0]@);
                }
                Ok(SyncAction::QueryBranchExists { branch: self.plan[0].to_text() })
            },
            (SyncPhase::AwaitDeleteCheck { i }, SyncEvent::Exists { yes }) => {
                if i < n {
                    if yes {
                        self.phase = SyncPhase::AwaitDelete { i };
                        proof {
                            assert(self.plan()[i as int] == self.plan@[i as int]@);
                        }
                        Ok(SyncAction::DeleteBranch { branch: self.plan[i].to_text() })
                    } else {
                        self.advance(i)
                    }
                } else {
                    Err(SyncError::Protocol)
                }
            },
            (SyncPhase::AwaitDelete { i }, SyncEvent::Succeeded) => {
                if i < n {
                    self.advance(i)
                } else {
                    Err(SyncError::Protocol)
                }
            },
            (SyncPhase::AwaitCreate { i }, SyncEvent::Succeeded) => {
                if i < n {
                    self.phase = SyncPhase::AwaitCheckout { i };
                    proof {
                        assert(self.plan()[i as int] == self.plan@[i as int]@);
                    }
                    Ok(SyncAction::Checkout { branch: self.plan[i].to_text() })
                } else {
                    Err(SyncError::Protocol)
                }
            },
            (SyncPhase::AwaitCheckout { i }, SyncEvent::Succeeded) => {
                if i < n {
                    self.phase = SyncPhase::AwaitApply { i };
                    proof {
                        assert(self.plan()[i as int] == self.plan@[i as int]@);
                    }
                    Ok(SyncAction::ApplyPatches { id: self.plan[i].clone() })
                } else {
                    Err(SyncError::Protocol)
                }
            },
            (SyncPhase::AwaitApply { i }, SyncEvent::Succeeded) => {
                if i < n {
                    if i + 1 < n {
                        self.phase = SyncPhase::AwaitCreate { i: i + 1 };
                        proof {
                            assert(self.plan()[i + 1] == self.plan@[i + 1]@);
                        }
                        Ok(SyncAction::CreateBranch { branch: self.plan[i + 1].to_text() })
                    } else {
                        self.phase = SyncPhase::AwaitVerify;
                        Ok(SyncAction::QueryCurrentBranch)
                    }
                } else {
                    Err(SyncError::Protocol)
                }
            },
            (SyncPhase::AwaitVerify, SyncEvent::CurrentBranch { name }) => {
                if crate::text::str_eq(name.as_str(), self.root.as_str()) {
                    self.phase = SyncPhase::Finished;
                    Ok(SyncAction::Done)
                } else {
                    Err(SyncError::WrongFinalBranch { found: name })
                }
            },
            (_, _) => Err(SyncError::Protocol),
        }
    }

    /// Moves the deletion pass past entry `i`: asks about the next entry's
    /// branch, or begins branch creation when the pass is done.
    fn advance(&mut self, i: usize) -> (r: Result<SyncAction, SyncError>)
        requires
            i < old(self).plan().len(),
            old(self).plan().len() > 0,
            old(self).plan().last() == old(self).root(),
        ensures
            final(self).plan() == old(self).plan(),
            final(self).root() == old(self).root(),
            r matches Ok(action) && advance_outcome(
                old(self).plan(),
                i as int,
                final(self).phase(),
                action,
            ),
    {
        let n = self.plan.len();
        if i + 1 < n {
            self.phase = SyncPhase::AwaitDeleteCheck { i: i + 1 };
            proof {
                assert(self.plan()[i + 1] == self.plan@[i + 1]@);
            }
            Ok(SyncAction::QueryBranchExists { branch: self.plan[i + 1].to_text() })
        } else {
            self.phase = SyncPhase::AwaitCreate { i: 0 };
            proof {
                assert(self.plan()[0] == self.plan@[0]@);
            }
            Ok(SyncAction::CreateBranch { branch: self.plan[0].to_text() })
        }
    }
}

/// What moving the deletion pass past entry `i` emits: a query for the
/// next entry's branch, or — once every entry was handled — the creation
/// of the first branch of the plan.
pub open spec fn advance_outcome(
    plan: Seq<Seq<char>>,
    i: int,
    phase: SyncPhase,
    action: SyncAction,
) -> bool {
    if i + 1 < plan.len() {
        &&& phase == (SyncPhase::AwaitDeleteCheck { i: (i + 1) as usize })
        &&& action matches SyncAction::QueryBranchExists { branch } && branch@ == plan[i + 1]
    } else {
        &&& phase == (SyncPhase::AwaitCreate { i: 0 })
        &&& action matches SyncAction::CreateBranch { branch } && branch@ == plan[0]
    }
}

} // verus!
