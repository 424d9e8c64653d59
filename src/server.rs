use vstd::prelude::*;

use crate::attribute::Attribute;

verus! {

/// A unit of capacity that answers requests. Its `id` is given when it
/// joins a simulation, in order of addition.
#[derive(Debug, Clone, PartialEq, Eq)]
pub struct Server {
    pub id: usize,
    pub attributes: Vec<Attribute>,
}

impl Default for Server {
    fn default() -> (r: Self)
        ensures
            r.id == 0,
            r.attributes@.len() == 0,
    {
        Server { id: 0, attributes: Vec::new() }
    }
}

impl Server {
    pub fn id(&self) -> (r: usize)
        ensures
            r == self.id,
    {
        self.id
    }

    pub fn attributes(&self) -> (r: &Vec<Attribute>)
        ensures
            r@ == self.attributes@,
    {
        &self.attributes
    }
}

/// A server together with the time from which it is free.
#[derive(Debug, Clone, PartialEq, Eq)]
pub struct QueueableServer {
    pub server: Server,
    pub tick: u64,
}

impl QueueableServer {
    /// A server that is free from time zero.
    pub fn new(server: Server) -> (r: Self)
        ensures
            r.server == server,
            r.tick == 0,
    {
        QueueableServer { server, tick: 0 }
    }

    pub fn server(&self) -> (r: &Server)
        ensures
            *r == self.server,
    {
        &self.server
    }
}

} // verus!
