//! The attributes a profile serves, and the dispatch of a read event to the
//! attribute it names.

use crate::cache::FragmentCache;
use crate::engine::{
    characteristic_read, descriptor_response_to, read_characteristic, read_descriptor,
};
use crate::request::{ReadRequest, Response, MAX_CHUNK_SIZE};
use vstd::prelude::*;

verus! {

/// How reads of an attribute are answered.
pub enum AttributeControl<P> {
    /// The value is stored and answered without this read path.
    AutomaticResponse(Vec<u8>),
    /// The value is produced for each read by the provider held here.
    ResponseByApp(P),
}

/// A descriptor of a characteristic.
pub struct Descriptor<P> {
    /// The handle assigned at registration; `None` before it.
    pub attribute_handle: Option<u16>,
    pub control: AttributeControl<P>,
}

/// A characteristic with its descriptors, in the order of registration.
pub struct Characteristic<P> {
    /// The handle assigned at registration; `None` before it.
    pub attribute_handle: Option<u16>,
    pub control: AttributeControl<P>,
    pub descriptors: Vec<Descriptor<P>>,
}

/// A service with its characteristics, in the order of registration.
pub struct Service<P> {
    pub characteristics: Vec<Characteristic<P>>,
}

/// A profile with its services, in the order of registration.
pub struct Profile<P> {
    pub services: Vec<Service<P>>,
}

/// The place of an attribute in a profile.
#[derive(Clone, Copy, Debug, PartialEq, Eq, Structural)]
pub enum AttributePath {
    Characteristic { service: usize, characteristic: usize },
    Descriptor { service: usize, characteristic: usize, descriptor: usize },
}

impl AttributePath {
    /// Index of the service.
    pub open spec fn service(self) -> int {
        match self {
            AttributePath::Characteristic { service, .. } => service as int,
            AttributePath::Descriptor { service, .. } => service as int,
        }
    }

    /// Index of the characteristic within its service.
    pub open spec fn characteristic(self) -> int {
        match self {
            AttributePath::Characteristic { characteristic, .. } => characteristic as int,
            AttributePath::Descriptor { characteristic, .. } => characteristic as int,
        }
    }

    /// Place within the characteristic: zero for the characteristic itself,
    /// one more than its index for a descriptor.
    pub open spec fn slot(self) -> int {
        match self {
            AttributePath::Characteristic { .. } => 0,
            AttributePath::Descriptor { descriptor, .. } => descriptor + 1,
        }
    }

    /// Whether the search for a handle comes to `self` before it comes to
    /// `other`: services in order, in each its characteristics in order, and
    /// each characteristic before its descriptors in order.
    pub open spec fn precedes(self, other: AttributePath) -> bool {
        ||| self.service() < other.service()
        ||| self.service() == other.service() && self.characteristic() < other.characteristic()
        ||| self.service() == other.service() && self.characteristic() == other.characteristic()
            && self.slot() < other.slot()
    }
}

impl<P> Profile<P> {
    /// The characteristic that `path` names or whose descriptor it names.
    pub open spec fn characteristic_at(&self, path: AttributePath) -> Characteristic<P> {
        self.services@[path.service()].characteristics@[path.characteristic()]
    }

    /// Whether `path` leads to an attribute of this profile.
    pub open spec fn has(&self, path: AttributePath) -> bool {
        &&& 0 <= path.service() < self.services@.len()
        &&& 0 <= path.characteristic() < self.services@[path.service()].characteristics@.len()
        &&& 0 <= path.slot() <= self.characteristic_at(path).descriptors@.len()
    }

    /// The handle of the attribute at `path`.
    pub open spec fn handle_at(&self, path: AttributePath) -> Option<u16> {
        match path {
            AttributePath::Characteristic { .. } => self.characteristic_at(path).attribute_handle,
            AttributePath::Descriptor { descriptor, .. } => self.characteristic_at(
                path,
            ).descriptors@[descriptor as int].attribute_handle,
        }
    }

    /// How reads of the attribute at `path` are answered.
    pub open spec fn control_at(&self, path: AttributePath) -> AttributeControl<P> {
        match path {
            AttributePath::Characteristic { .. } => self.characteristic_at(path).control,
            AttributePath::Descriptor { descriptor, .. } => self.characteristic_at(
                path,
            ).descriptors@[descriptor as int].control,
        }
    }

    /// Whether `path` leads to an attribute registered under `handle`.
    pub open spec fn registered(&self, path: AttributePath, handle: u16) -> bool {
        self.has(path) && self.handle_at(path) == Some(handle)
    }

    /// Whether `path` leads to the attribute that a read of `handle` is for:
    /// it is registered under `handle`, and the search comes to no other
    /// such attribute before it.
    pub open spec fn first_match(&self, path: AttributePath, handle: u16) -> bool {
        &&& self.registered(path, handle)
        &&& forall|other: AttributePath|
            other.precedes(path) ==> !#[trigger] self.registered(other, handle)
    }

    /// The attribute that a read of `handle` is for, if there is one.
    pub open spec fn located(&self, handle: u16) -> Option<AttributePath> {
        if exists|path: AttributePath| self.first_match(path, handle) {
            Some(choose|path: AttributePath| self.first_match(path, handle))
        } else {
            None
        }
    }

    /// No two attributes are the one that a read of `handle` is for.
    pub proof fn lemma_first_match_unique(&self, a: AttributePath, b: AttributePath, handle: u16)
        requires
            self.first_match(a, handle),
            self.first_match(b, handle),
        ensures
            a == b,
    {
        if a != b {
            assert(a.precedes(b) || b.precedes(a));
        }
    }

    /// Finds the attribute that a read of `handle` is for: the first one
    /// registered under `handle` as the search goes through the services,
    /// through the characteristics of each, and after each characteristic
    /// through its descriptors.
    pub fn locate(&self, handle: u16) -> (found: Option<AttributePath>)
        ensures
            found == self.located(handle),
            match found {
                Some(path) => self.first_match(path, handle),
                None => forall|path: AttributePath| !#[trigger] self.registered(path, handle),
            },
    {
        let mut s: usize = 0;
        while s < self.services.len()
            invariant
                s <= self.services@.len(),
                forall|other: AttributePath|
                    other.service() < s ==> !#[trigger] self.registered(other, handle),
            decreases self.services@.len() - s,
        {
            let service = &self.services[s];
            let mut c: usize = 0;
            while c < service.characteristics.len()
                invariant
                    s < self.services@.len(),
                    *service == self.services@[s as int],
                    c <= service.characteristics@.len(),
                    forall|other: AttributePath|
                        other.service() < s || (other.service() == s && other.characteristic()
                            < c) ==> !#[trigger] self.registered(other, handle),
                decreases service.characteristics@.len() - c,
            {
                let characteristic = &service.characteristics[c];
                let here = AttributePath::Characteristic { service: s, characteristic: c };
                if holds(&characteristic.attribute_handle, handle) {
                    proof {
                        self.lemma_located(here, handle);
                    }
                    return Some(here);
                }
                let mut d: usize = 0;
                while d < characteristic.descriptors.len()
                    invariant
                        s < self.services@.len(),
                        *service == self.services@[s as int],
                        c < service.characteristics@.len(),
                        *characteristic == service.characteristics@[c as int],
                        d <= characteristic.descriptors@.len(),
                        forall|other: AttributePath|
                            other.service() < s || (other.service() == s && other.characteristic()
                                < c) || (other.service() == s && other.characteristic() == c
                                && other.slot() <= d) ==> !#[trigger] self.registered(other, handle),
                    decreases characteristic.descriptors@.len() - d,
                {
                    let there = AttributePath::Descriptor {
                        service: s,
                        characteristic: c,
                        descriptor: d,
                    };
                    if holds(&characteristic.descriptors[d].attribute_handle, handle) {
                        proof {
                            self.lemma_located(there, handle);
                        }
                        return Some(there);
                    }
                    d += 1;
                }
                c += 1;
            }
            s += 1;
        }
        proof {
            assert forall|path: AttributePath| !#[trigger] self.registered(path, handle) by {
                if self.registered(path, handle) {
                    assert(path.service() < s);
                }
            }
        }
        None
    }

    /// The one attribute that a read of `handle` is for is the located one.
    proof fn lemma_located(&self, path: AttributePath, handle: u16)
        requires
            self.first_match(path, handle),
        ensures
            self.located(handle) == Some(path),
    {
        let chosen = choose|path: AttributePath| self.first_match(path, handle);
        self.lemma_first_match_unique(chosen, path, handle);
    }
}

impl<P: Fn(ReadRequest) -> Vec<u8>> Profile<P> {
    /// Whether the provider that a read for `request` would ask, if it
    /// would ask one, can be asked about it.
    pub open spec fn provider_accepts(&self, request: ReadRequest) -> bool {
        match self.located(request.handle) {
            Some(path) => match self.control_at(path) {
                AttributeControl::ResponseByApp(provider) => provider.requires((request,)),
                AttributeControl::AutomaticResponse(_) => true,
            },
            None => true,
        }
    }

    /// What a read event may come to: `response` and the cache `after` it,
    /// for a cache that held `before`. Where no attribute is registered
    /// under the handle, or the one that is has a stored value, nothing is
    /// answered and nothing changes. A characteristic with a provider is
    /// answered in fragments of at most `chunk` bytes; a descriptor with a
    /// provider is answered whole, and the cache is left alone.
    pub open spec fn read_outcome(
        &self,
        before: Map<u16, Seq<u8>>,
        request: ReadRequest,
        chunk: u16,
        response: Option<Response>,
        after: Map<u16, Seq<u8>>,
    ) -> bool {
        match self.located(request.handle) {
            None => response is None && after == before,
            Some(path) => match self.control_at(path) {
                AttributeControl::AutomaticResponse(_) => response is None && after == before,
                AttributeControl::ResponseByApp(provider) => {
                    &&& response is Some
                    &&& match path {
                        AttributePath::Characteristic { .. } => characteristic_read(
                            &provider,
                            before,
                            request,
                            chunk,
                            response->0@,
                            after,
                        ),
                        AttributePath::Descriptor { .. } => {
                            &&& after == before
                            &&& exists|value: Vec<u8>|
                                #[trigger] provider.ensures((request,), value) && response->0@
                                    == descriptor_response_to(request, value@)
                        },
                    }
                },
            },
        }
    }

    /// Handles one read event with fragments of at most `chunk_size` bytes:
    /// finds the attribute the event names and, where its value is produced
    /// by a provider, returns the response to send.
    pub fn read(
        &self,
        cache: &mut FragmentCache,
        request: ReadRequest,
        chunk_size: u16,
    ) -> (response: Option<Response>)
        requires
            self.provider_accepts(request),
        ensures
            self.read_outcome(old(cache)@, request, chunk_size, response, final(cache)@),
            response matches Some(sent) ==> sent@.wf(),
    {
        match self.locate(request.handle) {
            None => None,
            Some(AttributePath::Characteristic { service, characteristic }) => {
                match &self.services[service].characteristics[characteristic].control {
                    AttributeControl::ResponseByApp(provider) => Some(
                        read_characteristic(cache, provider, request, chunk_size),
                    ),
                    AttributeControl::AutomaticResponse(_) => None,
                }
            },
            Some(AttributePath::Descriptor { service, characteristic, descriptor }) => {
                let owner = &self.services[service].characteristics[characteristic];
                match &owner.descriptors[descriptor].control {
                    AttributeControl::ResponseByApp(provider) => Some(
                        read_descriptor(provider, request),
                    ),
                    AttributeControl::AutomaticResponse(_) => None,
                }
            },
        }
    }

    /// Handles one read event with the default chunk size.
    pub fn on_read(&self, cache: &mut FragmentCache, request: ReadRequest) -> (response: Option<
        Response,
    >)
        requires
            self.provider_accepts(request),
        ensures
            self.read_outcome(old(cache)@, request, MAX_CHUNK_SIZE, response, final(cache)@),
            response matches Some(sent) ==> sent@.wf(),
    {
        self.read(cache, request, MAX_CHUNK_SIZE)
    }
}

/// Whether an attribute with `assigned` is registered under `handle`.
fn holds(assigned: &Option<u16>, handle: u16) -> (same: bool)
    ensures
        same == (*assigned == Some(handle)),
{
    match assigned {
        Some(own) => *own == handle,
        None => false,
    }
}

} // verus!
