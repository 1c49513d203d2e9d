//! What the compositor advertises, and whether it is enough for the lock.
//!
//! The registry roundtrip happens outside; [`analyze`] reads the advertised
//! globals and reports the versions and counts that the lock needs.

use vstd::prelude::*;

use wayland_client::protocol::{wl_compositor, wl_output, wl_seat, wl_shm};
use wayland_client::Proxy;
use wayland_protocols::ext::session_lock::v1::client::ext_session_lock_manager_v1::ExtSessionLockManagerV1;

verus! {

/// One global advertised by the compositor's registry.
#[derive(Clone, Debug)]
pub struct Global {
    pub name: u32,
    pub interface: String,
    pub version: u32,
}

/// The globals that the lock depends on, as the compositor advertises them.
#[derive(Clone, Debug, Eq, PartialEq, Structural)]
pub struct Capabilities {
    pub session_lock_version: Option<u32>,
    pub compositor_version: Option<u32>,
    pub shm_version: Option<u32>,
    pub output_count: usize,
    pub seat_count: usize,
}

/// The lock surface needs the session lock protocol, a compositor, shared memory
/// and at least one output.
pub open spec fn spec_supports_lock_foundation(capabilities: Capabilities) -> bool {
    &&& capabilities.session_lock_version is Some
    &&& capabilities.compositor_version is Some
    &&& capabilities.shm_version is Some
    &&& capabilities.output_count > 0
}

/// The names of the missing requirements, in a fixed order.
pub open spec fn spec_missing_requirements(capabilities: Capabilities) -> Seq<Seq<char>> {
    let lock: Seq<Seq<char>> = if capabilities.session_lock_version is None {
        seq!["ext_session_lock_manager_v1"@]
    } else {
        Seq::empty()
    };
    let compositor: Seq<Seq<char>> = if capabilities.compositor_version is None {
        seq!["wl_compositor"@]
    } else {
        Seq::empty()
    };
    let shm: Seq<Seq<char>> = if capabilities.shm_version is None {
        seq!["wl_shm"@]
    } else {
        Seq::empty()
    };
    let output: Seq<Seq<char>> = if capabilities.output_count == 0 {
        seq!["wl_output"@]
    } else {
        Seq::empty()
    };
    lock + compositor + shm + output
}

impl Capabilities {
    /// Whether the compositor advertises the minimum globals needed by the opaque
    /// lock surface.
    pub fn supports_lock_foundation(&self) -> (supported: bool)
        ensures
            supported == spec_supports_lock_foundation(*self),
    {
        self.session_lock_version.is_some() && self.compositor_version.is_some()
            && self.shm_version.is_some() && self.output_count > 0
    }

    /// The interface names of the requirements that the compositor lacks.
    pub fn missing_requirements(&self) -> (missing: Vec<&'static str>)
        ensures
            missing@.len() == spec_missing_requirements(*self).len(),
            forall|i: int|
                0 <= i < missing@.len() ==> #[trigger] missing@[i]@ == spec_missing_requirements(
                    *self,
                )[i],
    {
        let mut missing: Vec<&'static str> = Vec::new();
        let ghost lock: Seq<Seq<char>> = if self.session_lock_version is None {
            seq!["ext_session_lock_manager_v1"@]
        } else {
            Seq::empty()
        };
        let ghost compositor: Seq<Seq<char>> = if self.compositor_version is None {
            seq!["wl_compositor"@]
        } else {
            Seq::empty()
        };
        let ghost shm: Seq<Seq<char>> = if self.shm_version is None {
            seq!["wl_shm"@]
        } else {
            Seq::empty()
        };
        if self.session_lock_version.is_none() {
            missing.push("ext_session_lock_manager_v1");
        }
        assert(missing@.len() == lock.len());
        assert(forall|i: int| 0 <= i < missing@.len() ==> #[trigger] missing@[i]@ == lock[i]);
        if self.compositor_version.is_none() {
            missing.push("wl_compositor");
        }
        assert(missing@.len() == (lock + compositor).len());
        assert(forall|i: int|
            0 <= i < missing@.len() ==> #[trigger] missing@[i]@ == (lock + compositor)[i]);
        if self.shm_version.is_none() {
            missing.push("wl_shm");
        }
        assert(missing@.len() == (lock + compositor + shm).len());
        assert(forall|i: int|
            0 <= i < missing@.len() ==> #[trigger] missing@[i]@ == (lock + compositor + shm)[i]);
        if self.output_count == 0 {
            missing.push("wl_output");
        }
        missing
    }
}

/// Whether `global` advertises `interface`.
pub open spec fn advertises(global: Global, interface: Seq<char>) -> bool {
    global.interface@ == interface
}

/// The number of globals that advertise `interface`.
pub open spec fn count_advertised(globals: Seq<Global>, interface: Seq<char>) -> nat
    decreases globals.len(),
{
    if globals.len() == 0 {
        0
    } else {
        count_advertised(globals.drop_last(), interface) + if advertises(
            globals.last(),
            interface,
        ) {
            1nat
        } else {
            0nat
        }
    }
}

/// `version` is the highest version of `interface` among the globals, or `None`
/// when no global advertises it.
pub open spec fn is_max_version(globals: Seq<Global>, interface: Seq<char>, version: Option<u32>) -> bool {
    match version {
        None => forall|i: int| 0 <= i < globals.len() ==> !advertises(#[trigger] globals[i], interface),
        Some(v) => {
            &&& exists|i: int|
                0 <= i < globals.len() && advertises(#[trigger] globals[i], interface)
                    && globals[i].version == v
            &&& forall|i: int|
                0 <= i < globals.len() && advertises(#[trigger] globals[i], interface)
                    ==> globals[i].version <= v
        },
    }
}

/// The highest advertised version of `interface`.
pub fn max_version(globals: &[Global], interface: &str) -> (version: Option<u32>)
    ensures
        is_max_version(globals@, interface@, version),
{
    let mut best: Option<u32> = None;
    let mut index: usize = 0;
    while index < globals.len()
        invariant
            index <= globals@.len(),
            is_max_version(globals@.take(index as int), interface@, best),
        decreases globals@.len() - index,
    {
        let global = &globals[index];
        let matching = crate::text::str_equal(global.interface.as_str(), interface);
        proof {
            let before = globals@.take(index as int);
            let after = globals@.take(index + 1);
            assert forall|i: int| 0 <= i < index implies #[trigger] after[i] == before[i] by {}
            assert(after[index as int] == globals@[index as int]);
        }
        if matching {
            best = match best {
                Some(version) => if version >= global.version {
                    Some(version)
                } else {
                    Some(global.version)
                },
                None => Some(global.version),
            };
        }
        proof {
            let after = globals@.take(index + 1);
            assert(after[index as int] == globals@[index as int]);
            match best {
                Some(v) => {
                    if matching && v == global.version {
                        assert(advertises(after[index as int], interface@));
                    }
                },
                None => {},
            }
        }
        index = index + 1;
    }
    assert(globals@.take(globals@.len() as int) =~= globals@);
    best
}

/// The number of globals that advertise `interface`.
pub fn count(globals: &[Global], interface: &str) -> (number: usize)
    ensures
        number == count_advertised(globals@, interface@),
{
    let mut number: usize = 0;
    let mut index: usize = 0;
    while index < globals.len()
        invariant
            index <= globals@.len(),
            number == count_advertised(globals@.take(index as int), interface@),
            number <= index,
        decreases globals@.len() - index,
    {
        let matching = crate::text::str_equal(globals[index].interface.as_str(), interface);
        proof {
            assert(globals@.take(index + 1).drop_last() =~= globals@.take(index as int));
        }
        if matching {
            number = number + 1;
        }
        index = index + 1;
    }
    assert(globals@.take(globals@.len() as int) =~= globals@);
    number
}

/// The name of the session lock manager interface, as wayland-protocols defines it.
#[verifier::external_body]
fn session_lock_interface() -> (name: &'static str)
    ensures
        name@ == "ext_session_lock_manager_v1"@,
{
    ExtSessionLockManagerV1::interface().name
}

/// The name of the compositor interface, as wayland-client defines it.
#[verifier::external_body]
fn compositor_interface() -> (name: &'static str)
    ensures
        name@ == "wl_compositor"@,
{
    wl_compositor::WlCompositor::interface().name
}

/// The name of the shared memory interface, as wayland-client defines it.
#[verifier::external_body]
fn shm_interface() -> (name: &'static str)
    ensures
        name@ == "wl_shm"@,
{
    wl_shm::WlShm::interface().name
}

/// The name of the output interface, as wayland-client defines it.
#[verifier::external_body]
fn output_interface() -> (name: &'static str)
    ensures
        name@ == "wl_output"@,
{
    wl_output::WlOutput::interface().name
}

/// The name of the seat interface, as wayland-client defines it.
#[verifier::external_body]
fn seat_interface() -> (name: &'static str)
    ensures
        name@ == "wl_seat"@,
{
    wl_seat::WlSeat::interface().name
}

/// Reads the lock's requirements from the advertised globals.
pub fn analyze(globals: &[Global]) -> (capabilities: Capabilities)
    ensures
        is_max_version(globals@, "ext_session_lock_manager_v1"@, capabilities.session_lock_version),
        is_max_version(globals@, "wl_compositor"@, capabilities.compositor_version),
        is_max_version(globals@, "wl_shm"@, capabilities.shm_version),
        capabilities.output_count == count_advertised(globals@, "wl_output"@),
        capabilities.seat_count == count_advertised(globals@, "wl_seat"@),
{
    Capabilities {
        session_lock_version: max_version(globals, session_lock_interface()),
        compositor_version: max_version(globals, compositor_interface()),
        shm_version: max_version(globals, shm_interface()),
        output_count: count(globals, output_interface()),
        seat_count: count(globals, seat_interface()),
    }
}

/// The missing requirements are exactly what keeps the lock foundation from being
/// supported: the compositor is supported if and only if nothing is missing.
pub proof fn lemma_supported_iff_nothing_missing(capabilities: Capabilities)
    ensures
        spec_supports_lock_foundation(capabilities) <==> spec_missing_requirements(
            capabilities,
        ).len() == 0,
{
}

} // verus!
