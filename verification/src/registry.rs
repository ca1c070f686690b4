//! What the compositor offers, what of it is bound, and what it means that
//! something comes or goes.

use vstd::prelude::*;

use crate::output::Output;
use crate::output::Outputs;
use crate::text;

verus! {

/// How long the compositor may take to answer.
pub const SETUP_TIMEOUT: u64 = 5_000_000;

/// Something the compositor offers.
#[derive(Debug, Clone, Copy, PartialEq, Eq, Structural)]
pub enum Global {
    Shm,
    Compositor,
    OutputSource,
    ToplevelSource,
    Copy,
    WlrCopy,
    XdgOutputs,
    LayerShell,
    CursorShapes,
    Toplevels,
    Output,
    Seat,
}

#[derive(Debug, Clone, Copy, PartialEq, Eq, Structural)]
pub enum Error {
    NoShm,
    NoAnswer,
    Disconnected,
    LayoutChanged,
    OutputDisconnected,
    InputDisconnected,
}

impl Error {
    pub open spec fn text(self) -> Seq<char> {
        match self {
            Error::NoShm => "Wayland compositor does not provide shared-memory buffers"@,
            Error::NoAnswer => "Wayland compositor did not respond within 5 seconds"@,
            Error::Disconnected => "Wayland compositor disconnected"@,
            Error::LayoutChanged => "region selection cancelled: display layout changed"@,
            Error::OutputDisconnected => "selected output was disconnected"@,
            Error::InputDisconnected => "region selection cancelled: input device disconnected"@,
        }
    }

    pub fn message(self) -> (r: String)
        ensures
            r@ == self.text(),
    {
        let message = match self {
            Error::NoShm => "Wayland compositor does not provide shared-memory buffers",
            Error::NoAnswer => "Wayland compositor did not respond within 5 seconds",
            Error::Disconnected => "Wayland compositor disconnected",
            Error::LayoutChanged => "region selection cancelled: display layout changed",
            Error::OutputDisconnected => "selected output was disconnected",
            Error::InputDisconnected => "region selection cancelled: input device disconnected",
        };
        message.to_owned()
    }
}

/// What an interface is, and the newest version that is understood.
pub open spec fn offered(interface: Seq<char>) -> Option<(Global, u32)> {
    if interface == "wl_shm"@ {
        Some((Global::Shm, 1))
    } else if interface == "wl_compositor"@ {
        Some((Global::Compositor, 4))
    } else if interface == "ext_output_image_capture_source_manager_v1"@ {
        Some((Global::OutputSource, 1))
    } else if interface == "ext_foreign_toplevel_image_capture_source_manager_v1"@ {
        Some((Global::ToplevelSource, 1))
    } else if interface == "ext_image_copy_capture_manager_v1"@ {
        Some((Global::Copy, 1))
    } else if interface == "zwlr_screencopy_manager_v1"@ {
        Some((Global::WlrCopy, 3))
    } else if interface == "zxdg_output_manager_v1"@ {
        Some((Global::XdgOutputs, 3))
    } else if interface == "zwlr_layer_shell_v1"@ {
        Some((Global::LayerShell, 4))
    } else if interface == "wp_cursor_shape_manager_v1"@ {
        Some((Global::CursorShapes, 1))
    } else if interface == "ext_foreign_toplevel_list_v1"@ {
        Some((Global::Toplevels, 1))
    } else if interface == "wl_output"@ {
        Some((Global::Output, 4))
    } else if interface == "wl_seat"@ {
        Some((Global::Seat, 5))
    } else {
        None
    }
}

/// Whether it is of use: some things serve only to select, the list of windows
/// only to capture.
pub open spec fn useful(global: Global, selecting: bool) -> bool {
    match global {
        Global::LayerShell => selecting,
        Global::CursorShapes => selecting,
        Global::Seat => selecting,
        Global::Toplevels => !selecting,
        _ => true,
    }
}

/// What is bound of an offer, and in which version. The list of windows has
/// only one.
pub open spec fn bound(interface: Seq<char>, version: u32, selecting: bool) -> Option<
    (Global, u32),
> {
    match offered(interface) {
        Some((global, newest)) => if !useful(global, selecting) {
            None
        } else if global == Global::Toplevels || version > newest {
            Some((global, newest))
        } else {
            Some((global, version))
        },
        None => None,
    }
}

fn find_offer(interface: &str) -> (r: Option<(Global, u32)>)
    ensures
        r == offered(interface@),
{
    if text::same(interface, "wl_shm") {
        Some((Global::Shm, 1))
    } else if text::same(interface, "wl_compositor") {
        Some((Global::Compositor, 4))
    } else if text::same(interface, "ext_output_image_capture_source_manager_v1") {
        Some((Global::OutputSource, 1))
    } else if text::same(interface, "ext_foreign_toplevel_image_capture_source_manager_v1") {
        Some((Global::ToplevelSource, 1))
    } else if text::same(interface, "ext_image_copy_capture_manager_v1") {
        Some((Global::Copy, 1))
    } else if text::same(interface, "zwlr_screencopy_manager_v1") {
        Some((Global::WlrCopy, 3))
    } else if text::same(interface, "zxdg_output_manager_v1") {
        Some((Global::XdgOutputs, 3))
    } else if text::same(interface, "zwlr_layer_shell_v1") {
        Some((Global::LayerShell, 4))
    } else if text::same(interface, "wp_cursor_shape_manager_v1") {
        Some((Global::CursorShapes, 1))
    } else if text::same(interface, "ext_foreign_toplevel_list_v1") {
        Some((Global::Toplevels, 1))
    } else if text::same(interface, "wl_output") {
        Some((Global::Output, 4))
    } else if text::same(interface, "wl_seat") {
        Some((Global::Seat, 5))
    } else {
        None
    }
}

/// Nothing is bound in a version that is newer than understood or than offered,
/// but for the list of windows, which has a single one.
pub proof fn bound_versions_are_understood(interface: Seq<char>, version: u32, selecting: bool)
    ensures
        bound(interface, version, selecting) matches Some((global, v)) ==> {
            &&& offered(interface) matches Some((_, newest)) && v <= newest
            &&& global != Global::Toplevels ==> v <= version
        },
{
}

/// The state of the connection.
#[derive(Debug)]
pub struct Registry {
    /// An area is to be selected, not captured.
    pub selecting: bool,
    /// The selection has begun.
    pub active: bool,
    pub outputs: Outputs,
    pub seats: Vec<u32>,
    pub shm: bool,
    /// The number of the last answer.
    pub synced: u64,
}

/// The seat is known.
pub open spec fn has_seat(seats: Seq<u32>, name: u32) -> bool {
    seats.contains(name)
}

impl Registry {
    pub open spec fn wf(self) -> bool {
        self.outputs.wf() && self.seats@.no_duplicates()
    }

    pub fn new(selecting: bool) -> (r: Self)
        ensures
            r.wf(),
            r.selecting == selecting,
            !r.active,
            r.outputs.list@.len() == 0,
            r.seats@.len() == 0,
            !r.shm,
            r.synced == 0,
    {
        Registry {
            selecting,
            active: false,
            outputs: Outputs::new(),
            seats: Vec::new(),
            shm: false,
            synced: 0,
        }
    }

    /// Something is offered under a number. The result is what to bind, and why
    /// the selection that is going on ends.
    pub fn global(&mut self, name: u32, interface: &str, version: u32) -> (r: (
        Option<(Global, u32)>,
        Option<Error>,
    ))
        requires
            old(self).wf(),
        ensures
            final(self).wf(),
            final(self).selecting == old(self).selecting,
            final(self).active == old(self).active,
            final(self).synced == old(self).synced,
            r.0 == bound(interface@, version, old(self).selecting),
            ({
                let global = match r.0 {
                    Some((global, _)) => Some(global),
                    None => None,
                };
                &&& r.1 == if global == Some(Global::Output) && old(self).active {
                    Some(Error::LayoutChanged)
                } else {
                    None
                }
                &&& final(self).shm == (old(self).shm || global == Some(Global::Shm))
                &&& if global == Some(Global::Output) {
                    &&& final(self).outputs.has(name)
                    &&& final(self).outputs.output(name).blank()
                    &&& forall|other: u32|
                        other != name ==> (#[trigger] final(self).outputs.has(other) <==> old(self).outputs.has(other))
                    &&& forall|other: u32|
                        other != name && old(self).outputs.has(other)
                            ==> #[trigger] final(self).outputs.output(other) == old(self).outputs.output(other)
                } else {
                    final(self).outputs == old(self).outputs
                }
                &&& forall|other: u32| #[trigger]
                    has_seat(final(self).seats@, other) <==> (has_seat(
                        old(self).seats@,
                        other,
                    ) || (global == Some(Global::Seat) && other == name))
            }),
    {
        let (global, newest): (Global, u32) = match find_offer(interface) {
            Some(offer) => offer,
            None => {
                return (None, None);
            },
        };
        let wanted = match global {
            Global::LayerShell | Global::CursorShapes | Global::Seat => self.selecting,
            Global::Toplevels => !self.selecting,
            _ => true,
        };
        if !wanted {
            return (None, None);
        }
        let chosen: u32 = if global == Global::Toplevels || version > newest {
            newest
        } else {
            version
        };
        let mut error: Option<Error> = None;
        match global {
            Global::Shm => {
                self.shm = true;
            },
            Global::Output => {
                if self.active {
                    error = Some(Error::LayoutChanged);
                }
                self.outputs.insert(name, Output::new());
            },
            Global::Seat => {
                self.add_seat(name);
            },
            _ => {},
        }
        (Some((global, chosen)), error)
    }

    fn add_seat(&mut self, name: u32)
        requires
            old(self).wf(),
        ensures
            *final(self) == (Registry { seats: final(self).seats, ..*old(self) }),
            final(self).seats@.no_duplicates(),
            forall|other: u32| #[trigger]
                has_seat(final(self).seats@, other) <==> (has_seat(old(self).seats@, other)
                    || other == name),
    {
        match self.find_seat(name) {
            Some(i) => {
                assert(self.seats@[i as int] == name);
            },
            None => {
                let ghost before = self.seats@;
                self.seats.push(name);
                assert forall|other: u32| #[trigger]
                    has_seat(self.seats@, other) <==> (has_seat(before, other) || other == name) by {
                    if has_seat(before, other) {
                        let i = choose|i: int| 0 <= i < before.len() && before[i] == other;
                        assert(self.seats@[i] == other);
                    }
                    if other == name {
                        assert(self.seats@[before.len() as int] == other);
                    }
                }
            },
        }
    }

    fn find_seat(&self, name: u32) -> (r: Option<usize>)
        ensures
            match r {
                Some(i) => i < self.seats@.len() && self.seats@[i as int] == name,
                None => !has_seat(self.seats@, name),
            },
    {
        let mut i: usize = 0;
        while i < self.seats.len()
            invariant
                i <= self.seats@.len(),
                forall|j: int| 0 <= j < i ==> self.seats@[j] != name,
            decreases self.seats@.len() - i,
        {
            if self.seats[i] == name {
                return Some(i);
            }
            i = i + 1;
        }
        None
    }

    /// Something is no longer offered. `captured` tells whether it is an output
    /// that is being captured. A lost seat matters more than a lost output.
    pub fn global_remove(&mut self, name: u32, captured: bool) -> (r: Option<Error>)
        requires
            old(self).wf(),
        ensures
            final(self).wf(),
            final(self).selecting == old(self).selecting,
            final(self).active == old(self).active,
            final(self).shm == old(self).shm,
            final(self).synced == old(self).synced,
            !final(self).outputs.has(name),
            forall|other: u32|
                other != name ==> (#[trigger] final(self).outputs.has(other) <==> old(self).outputs.has(other)),
            forall|other: u32|
                other != name && old(self).outputs.has(other)
                    ==> #[trigger] final(self).outputs.output(other) == old(self).outputs.output(
                    other,
                ),
            forall|other: u32| #[trigger]
                has_seat(final(self).seats@, other) <==> (has_seat(old(self).seats@, other)
                    && other != name),
            r == if has_seat(old(self).seats@, name) && old(self).selecting {
                Some(Error::InputDisconnected)
            } else if old(self).outputs.has(name) && (old(self).selecting || captured) {
                Some(Error::OutputDisconnected)
            } else {
                None
            },
    {
        let mut error: Option<Error> = None;
        if self.outputs.remove(name) && (self.selecting || captured) {
            error = Some(Error::OutputDisconnected);
        }
        let ghost before = self.seats@;
        if let Some(i) = self.find_seat(name) {
            assert(has_seat(before, name)) by {
                assert(before[i as int] == name);
            }
            self.seats.remove(i);
            proof {
                let now = self.seats@;
                assert forall|other: u32| #[trigger]
                    has_seat(now, other) <==> (has_seat(before, other) && other != name) by {
                    if has_seat(now, other) {
                        let k = choose|k: int| 0 <= k < now.len() && now[k] == other;
                        let p = if k >= i { k + 1 } else { k };
                        assert(before[p] == other);
                        assert(p != i);
                    }
                    if has_seat(before, other) && other != name {
                        let p = choose|p: int| 0 <= p < before.len() && before[p] == other;
                        let k = if p > i { p - 1 } else { p };
                        assert(now[k] == other);
                    }
                }
            }
            if self.selecting {
                error = Some(Error::InputDisconnected);
            }
        }
        error
    }

    /// Whether the compositor has answered the request with the number. It has
    /// until the deadline; ask again while this is false.
    pub fn answered(&self, number: u64, now: u64, deadline: u64) -> (r: Result<bool, Error>)
        ensures
            r == if self.synced >= number {
                Ok::<bool, Error>(true)
            } else if now >= deadline {
                Err::<bool, Error>(Error::NoAnswer)
            } else {
                Ok::<bool, Error>(false)
            },
    {
        if self.synced >= number {
            Ok(true)
        } else if now >= deadline {
            Err(Error::NoAnswer)
        } else {
            Ok(false)
        }
    }

    /// Nothing can be captured or selected without shared memory.
    pub fn ready(&self) -> (r: Result<(), Error>)
        ensures
            r == if self.shm {
                Ok::<(), Error>(())
            } else {
                Err::<(), Error>(Error::NoShm)
            },
    {
        if self.shm {
            Ok(())
        } else {
            Err(Error::NoShm)
        }
    }
}

/// What woke the connection up.
#[derive(Debug, Clone, Copy, PartialEq, Eq, Structural)]
pub struct Wake {
    pub input: bool,
    pub error: bool,
    pub hangup: bool,
    pub invalid: bool,
}

/// Whether to read from the connection after waiting for it.
pub fn after_wait(wake: Wake) -> (r: Result<bool, Error>)
    ensures
        r == if wake.error || wake.hangup || wake.invalid {
            Err::<bool, Error>(Error::Disconnected)
        } else {
            Ok::<bool, Error>(wake.input)
        },
{
    if wake.error || wake.hangup || wake.invalid {
        Err(Error::Disconnected)
    } else {
        Ok(wake.input)
    }
}

} // verus!
