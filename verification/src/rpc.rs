//! Handles that the node's RPC servers keep on the client they query.
use vstd::prelude::*;
use std::marker::PhantomData;
use std::sync::Arc;

verus! {

/// The election RPC handle, holding the client it queries.
pub struct Election<C, M> {
    client: Arc<C>,
    _marker: PhantomData<M>,
}

impl<C, M> Election<C, M> {
    /// The client the handle queries.
    pub closed spec fn client(&self) -> Arc<C> {
        self.client
    }

    /// A handle on `client`.
    pub fn new(client: Arc<C>) -> (r: Self)
        ensures
            r.client() == client,
    {
        Election { client, _marker: PhantomData }
    }
}

/// The profile validation RPC handle, holding the client it queries.
pub struct ProfileValidation<C, M> {
    client: Arc<C>,
    _marker: PhantomData<M>,
}

impl<C, M> ProfileValidation<C, M> {
    /// The client the handle queries.
    pub closed spec fn client(&self) -> Arc<C> {
        self.client
    }

    /// A handle on `client`.
    pub fn new(client: Arc<C>) -> (r: Self)
        ensures
            r.client() == client,
    {
        ProfileValidation { client, _marker: PhantomData }
    }
}

/// The profile game RPC handle, holding the client it queries.
pub struct Shivarthu<C, M> {
    client: Arc<C>,
    _marker: PhantomData<M>,
}

impl<C, M> Shivarthu<C, M> {
    /// The client the handle queries.
    pub closed spec fn client(&self) -> Arc<C> {
        self.client
    }

    /// A handle on `client`.
    pub fn new(client: Arc<C>) -> (r: Self)
        ensures
            r.client() == client,
    {
        Shivarthu { client, _marker: PhantomData }
    }
}

/// Why a profile validation RPC query failed.
#[derive(PartialEq, Eq, Structural, Clone, Copy, Debug)]
pub enum Error {
    /// The transaction was not decodable.
    DecodeError,
    /// The call to the runtime failed.
    RuntimeError,
}

impl From<Error> for i32 {
    /// The code of the error: one for a runtime error, two for a decoding error.
    fn from(e: Error) -> (r: i32) {
        match e {
            Error::RuntimeError => 1,
            Error::DecodeError => 2,
        }
    }
}

impl vstd::std_specs::convert::FromSpecImpl<Error> for i32 {
    open spec fn obeys_from_spec() -> bool {
        true
    }

    open spec fn from_spec(e: Error) -> i32 {
        match e {
            Error::RuntimeError => 1,
            Error::DecodeError => 2,
        }
    }
}

} // verus!
