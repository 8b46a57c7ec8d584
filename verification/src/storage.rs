//! Block-device dispatch: the same image on a USB stick, on a card, or
//! served by a host.
//!
//! One transfer is in flight at a time. A second start, or a blocking call
//! while one is pending, is refused rather than quietly queued.

use vstd::prelude::*;

verus! {

#[derive(Clone, Copy, PartialEq, Eq, Structural, Debug)]
pub enum Backend {
    /// No probe has succeeded.
    Absent,
    Sd,
    Usb,
    /// Blocks served by a host over a device-mode link.
    Mock,
}

/// A transfer is pending.
pub const E_BUSY: i32 = -495;

/// No backend.
pub const E_NO_BACKEND: i32 = -490;

/// Probes of the stick before giving up.
pub const USB_TRIES: u32 = 3;

pub struct Storage {
    pub backend: Backend,
    pub pending: bool,
    /// Result of a card transfer, which completes when it is started.
    pub sd_rc: i32,
}

/// What a backend is called.
pub open spec fn backend_name(b: Backend) -> &'static str {
    match b {
        Backend::Usb => "USB stick",
        Backend::Sd => "SD card",
        Backend::Mock => "host image (mock USB)",
        Backend::Absent => "none",
    }
}

/// Read bytes, read cycles, written bytes, write cycles.
pub type Counters = (u64, u64, u64, u64);

impl Storage {
    pub fn new() -> (s: Storage)
        ensures
            s.backend == Backend::Absent,
            !s.pending,
            s.sd_rc == 0,
    {
        Storage { backend: Backend::Absent, pending: false, sd_rc: 0 }
    }

    pub fn backend(&self) -> (b: Backend)
        ensures
            b == self.backend,
    {
        self.backend
    }

    pub fn name(&self) -> (n: &'static str)
        ensures
            n == backend_name(self.backend),
    {
        match self.backend {
            Backend::Usb => "USB stick",
            Backend::Sd => "SD card",
            Backend::Mock => "host image (mock USB)",
            Backend::Absent => "none",
        }
    }

    pub fn busy(&self) -> (b: bool)
        ensures
            b == self.pending,
    {
        self.pending
    }

    /// The backend that a blocking read, a blocking write or a start goes
    /// to.
    pub fn route(&self) -> (r: Result<Backend, i32>)
        ensures
            r == route_of(*self),
    {
        if self.pending {
            return Err(E_BUSY);
        }
        match self.backend {
            Backend::Absent => Err(E_NO_BACKEND),
            b => Ok(b),
        }
    }

    /// The backend has started a transfer with result `rc`. A card has
    /// already completed it: its result is kept for `finish`.
    pub fn started(&mut self, rc: i32) -> (r: i32)
        requires
            !old(self).pending,
            old(self).backend != Backend::Absent,
        ensures
            (*final(self), r) == start_of(*old(self), rc),
    {
        if self.backend == Backend::Sd {
            self.sd_rc = rc;
            self.pending = true;
            return 0;
        }
        if rc == 0 {
            self.pending = true;
        }
        rc
    }

    /// Whether the pending transfer is complete, or none is pending.
    /// `done` is the backend's answer.
    pub fn poll(&self, done: bool) -> (b: bool)
        ensures
            b == (!self.pending || (self.backend != Backend::Usb && self.backend != Backend::Mock)
                || done),
    {
        if !self.pending {
            return true;
        }
        match self.backend {
            Backend::Usb | Backend::Mock => done,
            _ => true,
        }
    }

    /// Bytes of the pending read that are in memory: everything, unless the
    /// backend has a live count.
    pub fn landed(&self, count: usize) -> (n: usize)
        ensures
            n == (if self.pending && (self.backend == Backend::Usb || self.backend
                == Backend::Mock) {
                count
            } else {
                usize::MAX
            }),
    {
        if !self.pending {
            return usize::MAX;
        }
        match self.backend {
            Backend::Usb | Backend::Mock => count,
            _ => usize::MAX,
        }
    }

    /// The result of the pending transfer, 0 if there is none. `rc` is the
    /// backend's result.
    pub fn finish(&mut self, rc: i32) -> (r: i32)
        ensures
            (*final(self), r) == finish_of(*old(self), rc),
    {
        if !self.pending {
            return 0;
        }
        self.pending = false;
        match self.backend {
            Backend::Usb | Backend::Mock => rc,
            Backend::Sd => self.sd_rc,
            Backend::Absent => E_NO_BACKEND,
        }
    }

    /// The counters since the last call: the backend's, or nothing.
    pub fn stats_take(&self, counters: Counters) -> (c: Counters)
        ensures
            c == (if self.backend == Backend::Absent {
                (0u64, 0u64, 0u64, 0u64)
            } else {
                counters
            }),
    {
        match self.backend {
            Backend::Absent => (0, 0, 0, 0),
            _ => counters,
        }
    }
}

/// Where a blocking call or a start goes: nowhere while a transfer is
/// pending.
pub open spec fn route_of(s: Storage) -> Result<Backend, i32> {
    if s.pending {
        Err(E_BUSY)
    } else if s.backend == Backend::Absent {
        Err(E_NO_BACKEND)
    } else {
        Ok(s.backend)
    }
}

/// A start with the backend's result `rc`, and what the caller is told.
pub open spec fn start_of(s: Storage, rc: i32) -> (Storage, i32) {
    if s.backend == Backend::Sd {
        (Storage { pending: true, sd_rc: rc, ..s }, 0)
    } else {
        (Storage { pending: rc == 0, ..s }, rc)
    }
}

/// The end of the pending transfer with the backend's result `rc`, and what
/// the caller is told.
pub open spec fn finish_of(s: Storage, rc: i32) -> (Storage, i32) {
    (
        Storage { pending: false, ..s },
        if !s.pending {
            0
        } else {
            match s.backend {
                Backend::Usb => rc,
                Backend::Mock => rc,
                Backend::Sd => s.sd_rc,
                Backend::Absent => E_NO_BACKEND,
            }
        },
    )
}

/// One transfer at a time: from a start that succeeded to its end every
/// other call is refused, the end reports the transfer's result once, and
/// then calls go through again. A start that failed leaves nothing behind.
pub proof fn law_one_transfer_at_a_time(s: Storage, rc: i32, end: i32, later: i32)
    requires
        route_of(s) is Ok,
    ensures
        ({
            let (t, told) = start_of(s, rc);
            let (u, result) = finish_of(t, end);
            &&& told == 0 ==> route_of(t) == Err::<Backend, i32>(E_BUSY)
            &&& told == 0 ==> result == (if s.backend == Backend::Sd {
                rc
            } else {
                end
            })
            &&& told != 0 ==> t == s && result == 0
            &&& route_of(u) == route_of(s)
            &&& finish_of(u, later).1 == 0
        }),
{
}

/// The storage when a transfer that was left pending has been waited for,
/// with the backend's result `rc`.
pub open spec fn settled(s: Storage, rc: i32) -> Storage {
    if s.pending {
        finish_of(s, rc).0
    } else {
        s
    }
}

/// Whatever was left pending, and however it ends: once it has been waited
/// for, no call is refused as busy.
pub proof fn law_a_settled_storage_is_free(s: Storage, rc: i32)
    ensures
        route_of(settled(s, rc)) != Err::<Backend, i32>(E_BUSY),
        settled(s, rc).backend == s.backend,
        s.backend != Backend::Absent ==> route_of(settled(s, rc)) == Ok::<Backend, i32>(
            s.backend,
        ),
        !s.pending ==> settled(s, rc) == s,
{
}

// --- probing ----------------------------------------------------------------------------

/// What the board offers.
#[derive(Clone, Copy, PartialEq, Eq, Structural, Debug)]
pub struct Wiring {
    pub sd_card: bool,
    pub mock_usb: bool,
}

#[derive(Clone, Copy, PartialEq, Eq, Structural, Debug)]
pub enum Probe {
    Mock,
    /// Probe the stick, after half a second if it is not the first try.
    Usb(u32),
    Sd,
    /// The search is over with this result.
    Done(i32),
}

impl Storage {
    /// The first probe: a link to a host is never mixed with host mode.
    pub fn init(&mut self, w: Wiring) -> (p: Probe)
        ensures
            final(self).backend == Backend::Absent,
            final(self).pending == old(self).pending,
            final(self).sd_rc == old(self).sd_rc,
            p == (if w.mock_usb {
                Probe::Mock
            } else {
                Probe::Usb(1)
            }),
    {
        self.backend = Backend::Absent;
        if w.mock_usb {
            Probe::Mock
        } else {
            Probe::Usb(1)
        }
    }

    /// The result of a probe: a backend, or the next probe. The stick is
    /// probed three times, then the card if there is one.
    pub fn probed(&mut self, w: Wiring, p: Probe, rc: i32) -> (n: Probe)
        requires
            p matches Probe::Usb(k) ==> k <= USB_TRIES,
        ensures
            (*final(self), n) == probe_of(w, *old(self), p, rc),
    {
        match p {
            Probe::Mock => {
                if rc == 0 {
                    self.backend = Backend::Mock;
                }
                Probe::Done(rc)
            },
            Probe::Usb(k) => {
                if rc == 0 {
                    self.backend = Backend::Usb;
                    Probe::Done(0)
                } else if k < USB_TRIES {
                    Probe::Usb(k + 1)
                } else if w.sd_card {
                    Probe::Sd
                } else {
                    Probe::Done(rc)
                }
            },
            Probe::Sd => {
                if rc == 0 {
                    self.backend = Backend::Sd;
                }
                Probe::Done(rc)
            },
            Probe::Done(r) => Probe::Done(r),
        }
    }
}

/// What follows a probe with result `rc`.
pub open spec fn probe_of(w: Wiring, s: Storage, p: Probe, rc: i32) -> (Storage, Probe) {
    match p {
        Probe::Mock => (
            if rc == 0 {
                Storage { backend: Backend::Mock, ..s }
            } else {
                s
            },
            Probe::Done(rc),
        ),
        Probe::Usb(k) => if rc == 0 {
            (Storage { backend: Backend::Usb, ..s }, Probe::Done(0))
        } else if k < USB_TRIES {
            (s, Probe::Usb((k + 1) as u32))
        } else if w.sd_card {
            (s, Probe::Sd)
        } else {
            (s, Probe::Done(rc))
        },
        Probe::Sd => (
            if rc == 0 {
                Storage { backend: Backend::Sd, ..s }
            } else {
                s
            },
            Probe::Done(rc),
        ),
        Probe::Done(_) => (s, p),
    }
}

/// Probes left.
pub open spec fn probes_left(p: Probe) -> int {
    match p {
        Probe::Mock => 1,
        Probe::Usb(k) => USB_TRIES - k + 2,
        Probe::Sd => 1,
        Probe::Done(_) => 0,
    }
}

/// The search ends, and it ends well exactly if a backend was found.
pub proof fn law_the_search_ends(w: Wiring, s: Storage, p: Probe, rc: i32)
    requires
        s.backend == Backend::Absent,
        !(p is Done),
        p matches Probe::Usb(k) ==> k <= USB_TRIES,
    ensures
        ({
            let (t, n) = probe_of(w, s, p, rc);
            &&& 0 <= probes_left(n) < probes_left(p)
            &&& n matches Probe::Usb(k) ==> k <= USB_TRIES
            &&& t.backend != Backend::Absent <==> n == Probe::Done(0)
            &&& n !is Done ==> t == s
        }),
{
}

/// A transfer's code comes back once, at its end or at its start: a card's
/// transfer is done when it starts, and its code is kept for the end; the
/// others fail at once or hand in their code at the end.
pub proof fn law_a_transfer_gives_its_code_once(s: Storage, rc: i32, end: i32)
    requires
        !s.pending,
        s.backend != Backend::Absent,
    ensures
        ({
            let (t, now) = start_of(s, rc);
            let (u, later) = finish_of(t, end);
            &&& u.backend == s.backend
            &&& !u.pending
            &&& s.backend == Backend::Sd ==> now == 0 && later == rc
            &&& s.backend != Backend::Sd ==> now == rc
            &&& s.backend != Backend::Sd && rc == 0 ==> t.pending && later == end
            &&& s.backend != Backend::Sd && rc != 0 ==> !t.pending && later == 0
        }),
{
}

/// The first backend that answers is used, sticks before cards, and a card
/// only where there is one.
pub proof fn law_the_first_backend_that_answers_is_used(w: Wiring, s: Storage, p: Probe, rc: i32)
    ensures
        ({
            let (t, q) = probe_of(w, s, p, rc);
            &&& rc == 0 && p is Mock ==> t.backend == Backend::Mock && q == Probe::Done(0)
            &&& rc == 0 && p is Usb ==> t.backend == Backend::Usb && q == Probe::Done(0)
            &&& rc == 0 && p is Sd ==> t.backend == Backend::Sd && q == Probe::Done(0)
            &&& rc != 0 ==> t == s
            &&& q is Sd ==> p is Usb && w.sd_card && rc != 0
            &&& q matches Probe::Done(x) ==> x == rc || p is Done
        }),
{
}

} // verus!
