//! Owner cells: who holds an exclusive role, and who unlinks the segment.
//!
//! An owner cell is a header word that holds the PID of its owner, or zero. It
//! is claimed by compare-and-swap. A claim whose PID belongs to a dead process
//! is stale and gets adopted, which is what lets a channel recover from a
//! crashed peer; a claim of a live process is never taken away.

use vstd::prelude::*;
use vstd::string::StringExecFns;

use crate::error::ZeroChannelError;
use crate::segment::{put_word, word_at, Segment};
use crate::text::{decimal, push_decimal};

verus! {

/// Exit code that the operating system reports for a process still running.
pub const STILL_ACTIVE: u32 = 259;

/// What asking the operating system about a process gave.
#[derive(Debug, Clone, Copy, PartialEq, Eq, Structural)]
pub enum ProbeOutcome {
    /// The process was not asked about: its PID names no single process.
    NotProbed,
    /// The null signal could be delivered.
    Delivered,
    /// The process exists but belongs to another user.
    NotPermitted,
    /// There is no such process, or it could not be asked about.
    Failed,
    /// The process has, or had, this exit code.
    ExitCode(u32),
}

/// `pid` names one process that a signal can be sent to.
///
/// Zero stands for a whole process group. A PID is a positive signed number, so
/// a larger one is no PID at all: taken for one, it would turn negative, and
/// stand for a group, or for every process there is.
pub open spec fn signals_one_process(pid: u32) -> bool {
    0 < pid <= i32::MAX
}

/// Whether `pid` names one process that a signal can be sent to. One that does
/// not must not be signalled, and whatever came of it would say nothing of
/// `pid`.
pub fn may_signal(pid: u32) -> (single: bool)
    ensures
        single <==> signals_one_process(pid),
        single <==> 1 <= pid <= 0x7fff_ffff,
{
    0 < pid && pid <= i32::MAX as u32
}

/// `pid` counts as a live process when asking about it gave `outcome`.
pub open spec fn counts_as_alive(pid: u32, outcome: ProbeOutcome) -> bool {
    match outcome {
        ProbeOutcome::Delivered | ProbeOutcome::NotPermitted => signals_one_process(pid),
        ProbeOutcome::ExitCode(code) => pid != 0 && code == STILL_ACTIVE,
        ProbeOutcome::NotProbed | ProbeOutcome::Failed => false,
    }
}

/// Is `pid` a live process?
///
/// Used to tell a claim left behind by a crashed process from one held by a
/// live peer. PIDs are recycled, so a process that happens to have inherited the
/// PID of a dead owner counts as that owner.
///
/// A signal says something of `pid` only where `pid` names one process. An
/// exited process may still be asked about while any handle to it remains open,
/// so an exit code alone is not enough: it must say "still running".
pub fn process_alive(pid: u32, outcome: ProbeOutcome) -> (alive: bool)
    ensures
        alive <==> counts_as_alive(pid, outcome),
        alive <==> match outcome {
            ProbeOutcome::Delivered | ProbeOutcome::NotPermitted => 1 <= pid <= 0x7fff_ffff,
            ProbeOutcome::ExitCode(code) => pid != 0 && code == 259,
            ProbeOutcome::NotProbed | ProbeOutcome::Failed => false,
        },
{
    match outcome {
        ProbeOutcome::NotProbed => false,
        ProbeOutcome::Delivered => may_signal(pid),
        ProbeOutcome::NotPermitted => may_signal(pid),
        ProbeOutcome::Failed => false,
        ProbeOutcome::ExitCode(code) => pid != 0 && code == STILL_ACTIVE,
    }
}

/// Where a claim on an owner cell stands.
#[derive(Debug, Clone, Copy, PartialEq, Eq, Structural)]
pub enum OwnerPhase {
    /// Take the cell if nobody owns it.
    TakeFree,
    /// Somebody owns it: find out whether that process is alive.
    Probe(u64),
    /// The owner is dead: take the cell over, if it is still that owner's.
    Adopt(u64),
    /// The cell is ours.
    Won,
    /// The cell is held by this owner.
    Held(u64),
}

/// What a claim must do next.
#[derive(Debug, Clone, Copy, PartialEq, Eq, Structural)]
pub enum OwnerAction {
    /// Compare the cell with `expected` and set it to `desired` if they match,
    /// atomically. The answer is the word found.
    Swap {
        /// The owner the cell must still hold.
        expected: u64,
        /// The owner to put there.
        desired: u64,
    },
    /// Ask whether this process is alive.
    Probe(u32),
    /// Nothing: the cell is ours.
    Won,
    /// Nothing: the cell is held by this owner.
    Held(u64),
}

/// A claim on an owner cell.
///
/// Claiming a role and claiming the deed of the segment differ in one thing:
/// finding oneself in the deed is already an answer, while a role held by this
/// very process is held by another instance in it, and is looked into like any
/// other.
#[derive(Debug, Clone, Copy)]
pub struct OwnerClaim {
    /// The claimant.
    pub me: u64,
    /// The cell is the segment's deed rather than a role.
    pub deed: bool,
    /// Where the claim stands.
    pub phase: OwnerPhase,
}

impl OwnerClaim {
    /// The phase after a compare-and-swap that found `found`.
    pub open spec fn after_swap(self, found: u64) -> OwnerPhase {
        match self.phase {
            OwnerPhase::TakeFree => if found == 0 {
                OwnerPhase::Won
            } else if self.deed && found == self.me {
                OwnerPhase::Held(found)
            } else {
                OwnerPhase::Probe(found)
            },
            OwnerPhase::Adopt(holder) => if found == holder {
                OwnerPhase::Won
            } else {
                OwnerPhase::TakeFree
            },
            other => other,
        }
    }

    /// The phase after learning whether the owner found is alive.
    pub open spec fn after_probe(self, alive: bool) -> OwnerPhase {
        match self.phase {
            OwnerPhase::Probe(holder) => if alive {
                OwnerPhase::Held(holder)
            } else {
                OwnerPhase::Adopt(holder)
            },
            other => other,
        }
    }

    /// Begin a claim on a role.
    pub fn role(me: u64) -> (claim: Self)
        ensures
            claim == (OwnerClaim { me, deed: false, phase: OwnerPhase::TakeFree }),
    {
        OwnerClaim { me, deed: false, phase: OwnerPhase::TakeFree }
    }

    /// Begin a claim on the deed of the segment.
    pub fn deed(me: u64) -> (claim: Self)
        ensures
            claim == (OwnerClaim { me, deed: true, phase: OwnerPhase::TakeFree }),
    {
        OwnerClaim { me, deed: true, phase: OwnerPhase::TakeFree }
    }

    /// What to do next.
    pub fn action(&self) -> (action: OwnerAction)
        ensures
            action == match self.phase {
                OwnerPhase::TakeFree => OwnerAction::Swap { expected: 0, desired: self.me },
                OwnerPhase::Probe(holder) => OwnerAction::Probe(holder as u32),
                OwnerPhase::Adopt(holder) => OwnerAction::Swap {
                    expected: holder,
                    desired: self.me,
                },
                OwnerPhase::Won => OwnerAction::Won,
                OwnerPhase::Held(holder) => OwnerAction::Held(holder),
            },
    {
        match self.phase {
            OwnerPhase::TakeFree => OwnerAction::Swap { expected: 0, desired: self.me },
            OwnerPhase::Probe(holder) => OwnerAction::Probe(holder as u32),
            OwnerPhase::Adopt(holder) => OwnerAction::Swap { expected: holder, desired: self.me },
            OwnerPhase::Won => OwnerAction::Won,
            OwnerPhase::Held(holder) => OwnerAction::Held(holder),
        }
    }

    /// Take in the word that a compare-and-swap found.
    pub fn swapped(&mut self, found: u64)
        ensures
            final(self).me == old(self).me,
            final(self).deed == old(self).deed,
            final(self).phase == old(self).after_swap(found),
    {
        match self.phase {
            OwnerPhase::TakeFree => {
                if found == 0 {
                    self.phase = OwnerPhase::Won;
                } else if self.deed && found == self.me {
                    self.phase = OwnerPhase::Held(found);
                } else {
                    self.phase = OwnerPhase::Probe(found);
                }
            },
            OwnerPhase::Adopt(holder) => {
                // If another process adopts first, the new holder is looked
                // into from the start.
                if found == holder {
                    self.phase = OwnerPhase::Won;
                } else {
                    self.phase = OwnerPhase::TakeFree;
                }
            },
            _ => {},
        }
    }

    /// Take in whether the owner found is alive.
    pub fn probed(&mut self, alive: bool)
        ensures
            final(self).me == old(self).me,
            final(self).deed == old(self).deed,
            final(self).phase == old(self).after_probe(alive),
    {
        match self.phase {
            OwnerPhase::Probe(holder) => {
                if alive {
                    self.phase = OwnerPhase::Held(holder);
                } else {
                    self.phase = OwnerPhase::Adopt(holder);
                }
            },
            _ => {},
        }
    }

    /// Run the claim on the cell at byte offset `cell` of a segment.
    /// `holder_alive` says whether the process found there, if any, is alive.
    fn run(&mut self, seg: &mut Segment, cell: usize, holder_alive: bool)
        requires
            cell + 8 <= old(seg)@.len(),
            old(self).phase == OwnerPhase::TakeFree,
        ensures
            ({
                let found = word_at(old(seg)@, cell as int);
                if found != 0 && (old(self).deed && found == old(self).me || holder_alive) {
                    final(self).phase == OwnerPhase::Held(found) && final(seg)@ == old(seg)@
                } else {
                    final(self).phase == OwnerPhase::Won && final(seg)@ == put_word(
                        old(seg)@,
                        cell as int,
                        old(self).me,
                    )
                }
            }),
    {
        let ghost found = word_at(seg@, cell as int);
        loop
            invariant
                cell + 8 <= old(seg)@.len(),
                self.me == old(self).me,
                self.deed == old(self).deed,
                found == word_at(old(seg)@, cell as int),
                match self.phase {
                    OwnerPhase::TakeFree => seg@ == old(seg)@,
                    OwnerPhase::Probe(holder) => {
                        &&& seg@ == old(seg)@
                        &&& holder == found
                        &&& found != 0
                        &&& !(self.deed && found == self.me)
                    },
                    OwnerPhase::Adopt(holder) => {
                        &&& seg@ == old(seg)@
                        &&& holder == found
                        &&& !(self.deed && found == self.me)
                        &&& !holder_alive
                    },
                    OwnerPhase::Won => {
                        &&& seg@ == put_word(old(seg)@, cell as int, self.me)
                        &&& found == 0 || !holder_alive && !(self.deed && found == self.me)
                    },
                    OwnerPhase::Held(holder) => {
                        &&& seg@ == old(seg)@
                        &&& holder == found
                        &&& found != 0
                        &&& self.deed && found == self.me || holder_alive
                    },
                },
            decreases
                    match self.phase {
                        OwnerPhase::TakeFree => 3int,
                        OwnerPhase::Probe(_) => 2int,
                        OwnerPhase::Adopt(_) => 1int,
                        _ => 0int,
                    },
        {
            match self.action() {
                OwnerAction::Swap { expected, desired } => {
                    let word: u64 = match seg.compare_exchange(cell, expected, desired) {
                        Ok(word) => word,
                        Err(word) => word,
                    };
                    self.swapped(word);
                },
                OwnerAction::Probe(pid) => {
                    self.probed(holder_alive);
                },
                OwnerAction::Won => {
                    return ;
                },
                OwnerAction::Held(holder) => {
                    return ;
                },
            }
        }
    }
}

/// Text of the error for a role that a live process holds.
pub open spec fn role_conflict_text(role: Seq<char>, name: Seq<char>, holder: nat) -> Seq<char> {
    "the "@ + role + " role on channel '"@ + name + "' is held by process "@ + decimal(holder)
}

/// The error for a role that a live process holds.
pub fn role_conflict(role: &str, name: &str, holder: u64) -> (e: ZeroChannelError)
    ensures
        e is RoleConflict,
        e.text() == role_conflict_text(role@, name@, holder as nat),
{
    let mut msg = String::from_str("the ");
    msg.append(role);
    msg.append(" role on channel '");
    msg.append(name);
    msg.append("' is held by process ");
    push_decimal(&mut msg, holder);
    ZeroChannelError::RoleConflict(msg)
}

/// Claim an exclusive role by putting the PID `me` into the owner cell at byte
/// offset `cell`.
///
/// `holder_alive` says whether the process found there, if any, is alive: a
/// claim whose PID belongs to a dead process is stale and gets adopted. `role`
/// and `name` only shape the error message.
pub fn claim_role(
    seg: &mut Segment,
    cell: usize,
    role: &str,
    name: &str,
    me: u64,
    holder_alive: bool,
) -> (r: Result<(), ZeroChannelError>)
    requires
        cell + 8 <= old(seg)@.len(),
    ensures
        match r {
            Ok(()) => {
                &&& word_at(old(seg)@, cell as int) == 0 || !holder_alive
                &&& final(seg)@ == put_word(old(seg)@, cell as int, me)
            },
            Err(e) => {
                &&& word_at(old(seg)@, cell as int) != 0 && holder_alive
                &&& final(seg)@ == old(seg)@
                &&& e is RoleConflict
                &&& e.text() == role_conflict_text(
                    role@,
                    name@,
                    word_at(old(seg)@, cell as int) as nat,
                )
            },
        },
{
    let mut claim = OwnerClaim::role(me);
    claim.run(seg, cell, holder_alive);
    match claim.phase {
        OwnerPhase::Held(holder) => Err(role_conflict(role, name, holder)),
        _ => Ok(()),
    }
}

/// Release a role previously claimed by the process `me`.
///
/// This does nothing when the claim has already been adopted by someone else,
/// so a late release cannot evict a live owner.
pub fn release_role(seg: &mut Segment, cell: usize, me: u64)
    requires
        cell + 8 <= old(seg)@.len(),
    ensures
        final(seg)@ == if word_at(old(seg)@, cell as int) == me {
            put_word(old(seg)@, cell as int, 0)
        } else {
            old(seg)@
        },
{
    let _ = seg.compare_exchange(cell, me, 0);
}

/// Try to claim responsibility for unlinking the segment, reporting whether the
/// process `me` now holds it.
///
/// Unlike [`claim_role`], losing is not an error: a participant that declares
/// the geometry of a segment someone else already owns is simply a tenant. A
/// claim held by a dead process is adopted, which is what lets a restarted
/// creator reclaim a segment orphaned by a hard kill. The deed never moves away
/// from a *live* holder.
pub fn claim_segment(seg: &mut Segment, cell: usize, me: u64, holder_alive: bool) -> (won: bool)
    requires
        cell + 8 <= old(seg)@.len(),
    ensures
        won <==> word_at(old(seg)@, cell as int) == 0 || (word_at(old(seg)@, cell as int) != me
            && !holder_alive),
        final(seg)@ == if won {
            put_word(old(seg)@, cell as int, me)
        } else {
            old(seg)@
        },
{
    let mut claim = OwnerClaim::deed(me);
    claim.run(seg, cell, holder_alive);
    match claim.phase {
        OwnerPhase::Held(_) => false,
        _ => true,
    }
}

/// An owner is only ever displaced after it was found dead: the phase that
/// takes a cell over from `holder` is entered by no other answer than that
/// `holder` is not alive.
pub proof fn lemma_adopts_only_the_dead(claim: OwnerClaim, holder: u64, found: u64, alive: bool)
    ensures
        claim.phase != OwnerPhase::Adopt(holder) ==> claim.after_swap(found) != OwnerPhase::Adopt(
            holder,
        ),
        claim.phase != OwnerPhase::Adopt(holder) && claim.after_probe(alive) == OwnerPhase::Adopt(
            holder,
        ) ==> claim.phase == OwnerPhase::Probe(holder) && !alive,
{
}

/// A cell is won only by swapping it while it was free, or while it still
/// belonged to the owner found dead.
pub proof fn lemma_won_only_from_free_or_dead(claim: OwnerClaim, found: u64, alive: bool)
    requires
        claim.phase != OwnerPhase::Won,
    ensures
        claim.after_swap(found) == OwnerPhase::Won ==> (claim.phase == OwnerPhase::TakeFree
            && found == 0) || claim.phase == OwnerPhase::Adopt(found),
        claim.after_probe(alive) != OwnerPhase::Won,
{
}

} // verus!
