//! Who holds an exclusive role, and who may take it over.

use vstd::prelude::*;

use crate::error::ZeroChannelError;
use crate::lifecycle::{Connect, ConnectEvent, ConnectPhase, Role};
use crate::metadata::Header;
use crate::owner::{
    counts_as_alive, role_conflict_text, signals_one_process, OwnerClaim, OwnerPhase, ProbeOutcome,
};
use crate::text::decimal;

verus! {

/// Every process that a signal reaches is alive, also one that belongs to
/// another user: PIDs are the numbers from 1 to 2147483647. No other number is a
/// process that a signal could speak for.
pub proof fn lemma_reached_processes_are_alive(pid: u32, outcome: ProbeOutcome)
    requires
        outcome == ProbeOutcome::Delivered || outcome == ProbeOutcome::NotPermitted,
    ensures
        counts_as_alive(pid, outcome) <==> 1 <= pid <= 2147483647,
        signals_one_process(pid) <==> 1 <= pid <= 2147483647,
{
}

/// A process that was asked for its exit code is alive as long as it has not
/// left one, and a process that could not be asked about is not.
pub proof fn lemma_exited_processes_are_dead(pid: u32, code: u32)
    ensures
        counts_as_alive(pid, ProbeOutcome::ExitCode(code)) <==> pid != 0 && code == 259,
        !counts_as_alive(pid, ProbeOutcome::Failed),
        !counts_as_alive(pid, ProbeOutcome::NotProbed),
{
}

/// What a claim makes of the owner found in the cell: nobody, and the cell is
/// won; itself, in the deed, and it is held; anybody else is looked into.
pub proof fn lemma_claiming_a_cell(claim: OwnerClaim, found: u64)
    requires
        claim.phase == OwnerPhase::TakeFree,
    ensures
        found == 0 ==> claim.after_swap(found) == OwnerPhase::Won,
        found != 0 && claim.deed && found == claim.me ==> claim.after_swap(found)
            == OwnerPhase::Held(found),
        found != 0 && !(claim.deed && found == claim.me) ==> claim.after_swap(found)
            == OwnerPhase::Probe(found),
{
}

/// A live owner keeps the cell. A dead one loses it, unless somebody else was
/// faster, in which case the claim starts over.
pub proof fn lemma_adopting_a_cell(me: u64, deed: bool, holder: u64, alive: bool, found: u64)
    ensures
        (OwnerClaim { me, deed, phase: OwnerPhase::Probe(holder) }).after_probe(alive) == if alive {
            OwnerPhase::Held(holder)
        } else {
            OwnerPhase::Adopt(holder)
        },
        (OwnerClaim { me, deed, phase: OwnerPhase::Adopt(holder) }).after_swap(found) == if found
            == holder {
            OwnerPhase::Won
        } else {
            OwnerPhase::TakeFree
        },
{
}

/// A role is exclusive among the living: while the process that holds it can be
/// reached, whatever its PID, a second one that wants the role is turned away
/// with an error that names the holder.
pub proof fn lemma_reachable_holder_keeps_the_role(
    claiming: Connect,
    header: Header,
    role: Role,
    holder: u64,
    outcome: ProbeOutcome,
    probing: Connect,
    ended: Connect,
)
    requires
        claiming.wf(),
        claiming.request().role == Some(role),
        claiming.phase() == ConnectPhase::ClaimRole(
            header,
            OwnerClaim { me: claiming.request().me, deed: false, phase: OwnerPhase::TakeFree },
        ),
        1 <= holder <= 2147483647,
        outcome == ProbeOutcome::Delivered || outcome == ProbeOutcome::NotPermitted,
        claiming.follows(ConnectEvent::Swapped(holder), probing),
        probing.request() == claiming.request(),
        probing.follows(ConnectEvent::Probed(counts_as_alive(holder as u32, outcome)), ended),
        ended.request() == claiming.request(),
    ensures
        ended.phase() is Finished,
        ended.outcome() matches Err(e) && e is RoleConflict && e.text() == "the "@ + (match role {
            Role::Writer => "writer"@,
            Role::ZeroCopyReader => "zero-copy reader"@,
        }) + " role on channel '"@ + claiming.request().name + "' is held by process "@ + decimal(
            holder as nat,
        ),
        ended.owner() == claiming.owner(),
{
}

/// A role that nobody holds is had at once, and one whose holder is gone is had
/// after its holder was found gone; nothing else is asked, and the channel is the
/// one that was accepted.
pub proof fn lemma_free_role_is_had(
    claiming: Connect,
    header: Header,
    holder: u64,
    probing: Connect,
    adopting: Connect,
    ended: Connect,
)
    requires
        claiming.wf(),
        claiming.request().role is Some,
        claiming.phase() == ConnectPhase::ClaimRole(
            header,
            OwnerClaim { me: claiming.request().me, deed: false, phase: OwnerPhase::TakeFree },
        ),
        if holder == 0 {
            claiming.follows(ConnectEvent::Swapped(0), ended)
        } else {
            &&& claiming.follows(ConnectEvent::Swapped(holder), probing)
            &&& probing.follows(ConnectEvent::Probed(false), adopting)
            &&& adopting.follows(ConnectEvent::Swapped(holder), ended)
        },
    ensures
        ended.phase() is Finished,
        ended.outcome() == Ok::<Option<Header>, ZeroChannelError>(Some(header)),
        ended.owner() == claiming.owner(),
{
}

/// The deed of a segment goes to the first bidder, or to the first after its
/// holder died; a bidder that finds a live holder is a tenant, and goes on
/// without it.
pub proof fn lemma_deed_has_one_holder(
    bidding: Connect,
    header: Header,
    holder: u64,
    alive: bool,
    probing: Connect,
    adopting: Connect,
    settled: Connect,
)
    requires
        bidding.wf(),
        bidding.request().role is None,
        bidding.phase() == ConnectPhase::Bid(
            header,
            OwnerClaim { me: bidding.request().me, deed: true, phase: OwnerPhase::TakeFree },
        ),
        holder == 0 ==> bidding.follows(ConnectEvent::Swapped(0), settled),
        holder != 0 && holder == bidding.request().me ==> bidding.follows(
            ConnectEvent::Swapped(holder),
            settled,
        ),
        holder != 0 && holder != bidding.request().me ==> {
            &&& bidding.follows(ConnectEvent::Swapped(holder), probing)
            &&& if alive {
                probing.follows(ConnectEvent::Probed(true), settled)
            } else {
                &&& probing.follows(ConnectEvent::Probed(false), adopting)
                &&& adopting.follows(ConnectEvent::Swapped(holder), settled)
            }
        },
        settled.request() == bidding.request(),
    ensures
        settled.phase() is Finished,
        settled.outcome() == Ok::<Option<Header>, ZeroChannelError>(Some(header)),
        settled.owner() <==> holder == 0 || (holder != bidding.request().me && !alive),
{
}

/// The error for a held role says which role, on which channel, and who holds
/// it.
pub proof fn lemma_conflict_names_the_holder(role: Seq<char>, name: Seq<char>, holder: nat)
    ensures
        role_conflict_text(role, name, holder) == "the "@ + role + " role on channel '"@ + name
            + "' is held by process "@ + decimal(holder),
{
}

} // verus!
