//! What is polled for events.
//!
//! This module holds the boundary to the registry of the `popol` crate: a name for what is
//! registered, and one function for each call.
use vstd::prelude::*;

use crate::addr::SocketAddr;

verus! {

/// The registry of what is polled.
#[verifier::external_type_specification]
#[verifier::external_body]
#[verifier::reject_recursive_types(K)]
pub struct ExSources<K>(popol::Sources<K>);

/// Something that is polled.
#[derive(Clone, Copy, Debug, PartialEq, Eq, Structural)]
pub enum Source {
    /// The socket of a peer.
    Peer(SocketAddr),
    /// The socket on which peers connect.
    Listener,
    /// What wakes the reactor up from outside.
    Waker,
}

/// What a source can be polled for.
#[derive(Clone, Copy, Debug, PartialEq, Eq, Structural)]
pub enum Interest {
    Read,
    Write,
    All,
}

impl Interest {
    /// Reading is part of the interest.
    pub open spec fn reads(self) -> bool {
        self is Read || self is All
    }

    /// Writing is part of the interest.
    pub open spec fn writes(self) -> bool {
        self is Write || self is All
    }
}

/// An entry of the registry.
pub struct Registration {
    pub source: Source,
    /// The file descriptor that is polled.
    pub fd: i32,
    /// It is polled for reading.
    pub read: bool,
    /// It is polled for writing.
    pub write: bool,
}

/// What is registered, in the order in which it is polled.
pub uninterp spec fn registrations(sources: popol::Sources<Source>) -> Seq<Registration>;

/// The first entry for a source.
pub open spec fn position(entries: Seq<Registration>, source: Source) -> Option<nat>
    decreases entries.len(),
{
    if entries.len() == 0 {
        None
    } else if entries[0].source == source {
        Some(0)
    } else {
        match position(entries.skip(1), source) {
            Some(i) => Some(i + 1),
            None => None,
        }
    }
}

/// The registry with one more entry.
pub open spec fn registered(
    entries: Seq<Registration>,
    source: Source,
    fd: i32,
    interest: Interest,
) -> Seq<Registration> {
    entries.push(Registration { source, fd, read: interest.reads(), write: interest.writes() })
}

/// The registry without the first entry for a source. The last entry takes its place.
pub open spec fn unregistered(entries: Seq<Registration>, source: Source) -> Seq<Registration> {
    match position(entries, source) {
        Some(i) => entries.update(i as int, entries.last()).drop_last(),
        None => entries,
    }
}

/// The registry with an interest switched on or off in the first entry for a source.
pub open spec fn switched(
    entries: Seq<Registration>,
    source: Source,
    interest: Interest,
    on: bool,
) -> Seq<Registration> {
    match position(entries, source) {
        Some(i) => entries.update(
            i as int,
            Registration {
                read: if interest.reads() {
                    on
                } else {
                    entries[i as int].read
                },
                write: if interest.writes() {
                    on
                } else {
                    entries[i as int].write
                },
                ..entries[i as int]
            },
        ),
        None => entries,
    }
}

/// Calls `popol::Sources::new`: nothing is registered.
#[verifier::external_body]
pub(crate) fn new_sources() -> (sources: popol::Sources<Source>)
    ensures
        registrations(sources) == Seq::<Registration>::empty(),
{
    popol::Sources::new()
}

/// Calls `popol::Sources::register`: an entry is added at the end, whatever is registered.
#[verifier::external_body]
pub(crate) fn register(
    sources: &mut popol::Sources<Source>,
    source: Source,
    fd: i32,
    interest: Interest,
)
    ensures
        registrations(*final(sources)) == registered(
            registrations(*old(sources)),
            source,
            fd,
            interest,
        ),
{
    let events = match interest {
        Interest::Read => popol::interest::READ,
        Interest::Write => popol::interest::WRITE,
        Interest::All => popol::interest::ALL,
    };
    sources.register(source, &fd, events)
}

/// Calls `popol::Sources::unregister`: the first entry for the source, if there is one, is
/// replaced by the last entry of all.
#[verifier::external_body]
pub(crate) fn unregister(sources: &mut popol::Sources<Source>, source: &Source)
    ensures
        registrations(*final(sources)) == unregistered(registrations(*old(sources)), *source),
{
    sources.unregister(source)
}

/// Calls `popol::Sources::get`: it finds the first entry for the source and changes nothing.
#[verifier::external_body]
pub(crate) fn is_registered(sources: &mut popol::Sources<Source>, source: &Source) -> (result: bool)
    ensures
        result == (position(registrations(*old(sources)), *source) is Some),
        registrations(*final(sources)) == registrations(*old(sources)),
{
    sources.get(source).is_some()
}

/// Calls `popol::Sources::set`: the first entry for the source is also polled for what is
/// asked for. The result says whether there is such an entry.
#[verifier::external_body]
pub(crate) fn set_interest(
    sources: &mut popol::Sources<Source>,
    source: &Source,
    interest: Interest,
) -> (result: bool)
    ensures
        result == (position(registrations(*old(sources)), *source) is Some),
        registrations(*final(sources)) == switched(
            registrations(*old(sources)),
            *source,
            interest,
            true,
        ),
{
    let events = match interest {
        Interest::Read => popol::interest::READ,
        Interest::Write => popol::interest::WRITE,
        Interest::All => popol::interest::ALL,
    };
    sources.set(source, events)
}

/// Calls `popol::Sources::unset`: the first entry for the source is no longer polled for what
/// is named. The result says whether there is such an entry.
#[verifier::external_body]
pub(crate) fn unset_interest(
    sources: &mut popol::Sources<Source>,
    source: &Source,
    interest: Interest,
) -> (result: bool)
    ensures
        result == (position(registrations(*old(sources)), *source) is Some),
        registrations(*final(sources)) == switched(
            registrations(*old(sources)),
            *source,
            interest,
            false,
        ),
{
    let events = match interest {
        Interest::Read => popol::interest::READ,
        Interest::Write => popol::interest::WRITE,
        Interest::All => popol::interest::ALL,
    };
    sources.unset(source, events)
}

} // verus!
