//! Power votes for the NPU: the block is on while somebody holds a vote,
//! and is switched off between inferences.

use vstd::prelude::*;

verus! {

/// Base address of the NPU's registers.
pub const AXON_BASE_ADDR: usize = 0x5005_6000;

/// Its interrupt line.
pub const AXONS_IRQN: u16 = 86;

/// Offset of its enable register.
pub const AXON_ENABLE_OFFSET: usize = 0x400;

/// The clock that its ticks count.
pub const AXON_CLOCK_HZ: u32 = 128_000_000;

/// Address of the enable register.
pub fn enable_reg() -> (a: usize)
    ensures
        a == AXON_BASE_ADDR + AXON_ENABLE_OFFSET,
{
    AXON_BASE_ADDR + AXON_ENABLE_OFFSET
}

/// What a vote asks for.
#[derive(Clone, Copy, PartialEq, Eq, Structural, Debug)]
pub enum PowerAction {
    Keep,
    /// Enable the block, then power the driver on.
    On,
    /// Power the driver off, then disable the block.
    Off,
}

pub struct PowerVotes {
    pub votes: u32,
}

impl PowerVotes {
    /// The block has to be on.
    pub open spec fn powered(self) -> bool {
        self.votes > 0
    }

    pub fn new() -> (p: PowerVotes)
        ensures
            p.votes == 0,
            !p.powered(),
    {
        PowerVotes { votes: 0 }
    }

    /// A vote to be on; the first one switches on. Votes wrap.
    pub fn power_vote_on(&mut self) -> (a: PowerAction)
        ensures
            (*final(self), a) == vote(*old(self), true),
    {
        let before: u32 = self.votes;
        self.votes = before.wrapping_add(1);
        if before == 0 {
            PowerAction::On
        } else {
            PowerAction::Keep
        }
    }

    /// A vote taken back; the last one switches off.
    pub fn power_vote_off(&mut self) -> (a: PowerAction)
        ensures
            (*final(self), a) == vote(*old(self), false),
    {
        let before: u32 = self.votes;
        self.votes = before.wrapping_sub(1);
        if before == 1 {
            PowerAction::Off
        } else {
            PowerAction::Keep
        }
    }
}

/// The votes after one vote more, on (`true`) or off, and what it asks for.
pub open spec fn vote(p: PowerVotes, on: bool) -> (PowerVotes, PowerAction) {
    if on {
        (
            PowerVotes {
                votes: if p.votes == u32::MAX {
                    0
                } else {
                    (p.votes + 1) as u32
                },
            },
            if p.votes == 0 {
                PowerAction::On
            } else {
                PowerAction::Keep
            },
        )
    } else {
        (
            PowerVotes {
                votes: if p.votes == 0 {
                    u32::MAX
                } else {
                    (p.votes - 1) as u32
                },
            },
            if p.votes == 1 {
                PowerAction::Off
            } else {
                PowerAction::Keep
            },
        )
    }
}

/// Votes held after a history of votes on (`true`) and off.
pub open spec fn held(history: Seq<bool>) -> int
    decreases history.len(),
{
    if history.len() == 0 {
        0
    } else {
        held(history.drop_last()) + (if history.last() {
            1int
        } else {
            -1
        })
    }
}

/// Nobody takes back a vote that is not held.
pub open spec fn is_balanced(history: Seq<bool>) -> bool
    decreases history.len(),
{
    history.len() == 0 || (is_balanced(history.drop_last()) && held(history) >= 0)
}

/// The votes after a history of votes, and whether the block is on when
/// every action has been carried out.
pub open spec fn voted(history: Seq<bool>) -> (PowerVotes, bool)
    decreases history.len(),
{
    if history.len() == 0 {
        (PowerVotes { votes: 0 }, false)
    } else {
        let before = voted(history.drop_last());
        let (p, a) = vote(before.0, history.last());
        (
            p,
            match a {
                PowerAction::On => true,
                PowerAction::Off => false,
                PowerAction::Keep => before.1,
            },
        )
    }
}

/// The block is on exactly while a vote is held.
pub proof fn law_on_while_a_vote_is_held(history: Seq<bool>)
    requires
        is_balanced(history),
        history.len() <= u32::MAX,
    ensures
        voted(history).0.votes == held(history),
        voted(history).1 <==> held(history) > 0,
        voted(history).1 == voted(history).0.powered(),
    decreases history.len(),
{
    lemma_held_is_bounded(history);
    if history.len() > 0 {
        law_on_while_a_vote_is_held(history.drop_last());
        lemma_held_is_bounded(history.drop_last());
    }
}

proof fn lemma_held_is_bounded(history: Seq<bool>)
    ensures
        held(history) <= history.len(),
    decreases history.len(),
{
    if history.len() > 0 {
        lemma_held_is_bounded(history.drop_last());
    }
}

/// The completion flag that the NPU's interrupt raises.
pub struct UserEvent {
    pub raised: bool,
}

impl UserEvent {
    pub fn generate(&mut self)
        ensures
            final(self).raised,
    {
        self.raised = true;
    }

    /// Whether it was raised; it is lowered in any case.
    pub fn take(&mut self) -> (r: bool)
        ensures
            r == old(self).raised,
            !final(self).raised,
    {
        let r = self.raised;
        self.raised = false;
        r
    }
}

} // verus!
