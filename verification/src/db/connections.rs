//! A small pool of connections.
use vstd::prelude::*;

verus! {

/// The most connections of a pool.
pub const POOL_MAX_CONNS: usize = 8;

/// What a caller who wants a connection does.
#[derive(Debug)]
pub enum Checkout<C> {
    /// Use this one.
    Use(C),
    /// Open a new one; its place is taken already.
    Open,
    /// Wait for one to come back.
    Wait,
}

/// A small pool of connections: those that nobody uses, and how many there are.
#[derive(Debug)]
pub struct ConnPool<C> {
    /// Connections that nobody uses.
    pub idle: Vec<C>,
    /// Connections that there are, or that are being opened.
    pub open: usize,
}

impl<C> ConnPool<C> {
    /// There are no more connections than allowed, and no fewer than lie idle.
    pub open spec fn wf(&self) -> bool {
        self.idle@.len() <= self.open <= POOL_MAX_CONNS
    }

    /// The empty pool.
    pub fn new() -> (r: Self)
        ensures
            r.wf(),
            r.idle@.len() == 0,
            r.open == 0,
    {
        ConnPool { idle: Vec::new(), open: 0 }
    }

    /// Takes the connection that came back last, or the place for a new one; with all
    /// in use the caller waits.
    pub fn checkout(&mut self) -> (r: Checkout<C>)
        requires
            old(self).wf(),
        ensures
            final(self).wf(),
            match r {
                Checkout::Use(c) => old(self).idle@.len() > 0 && c == old(self).idle@.last()
                    && final(self).idle@ == old(self).idle@.drop_last() && final(self).open
                    == old(self).open,
                Checkout::Open => old(self).idle@.len() == 0 && old(self).open < POOL_MAX_CONNS
                    && final(self).idle@ == old(self).idle@ && final(self).open == old(self).open
                    + 1,
                Checkout::Wait => old(self).idle@.len() == 0 && old(self).open == POOL_MAX_CONNS
                    && final(self).idle@ == old(self).idle@ && final(self).open == old(self).open,
            },
    {
        match self.idle.pop() {
            Some(c) => Checkout::Use(c),
            None => {
                if self.open < POOL_MAX_CONNS {
                    self.open = self.open + 1;
                    Checkout::Open
                } else {
                    Checkout::Wait
                }
            },
        }
    }

    /// Takes a connection back.
    pub fn checkin(&mut self, c: C)
        requires
            old(self).wf(),
            old(self).idle@.len() < old(self).open,
        ensures
            final(self).wf(),
            final(self).idle@ == old(self).idle@.push(c),
            final(self).open == old(self).open,
    {
        self.idle.push(c);
    }

    /// Gives up a connection that may be spoiled, or one that could not be opened:
    /// another can take its place.
    pub fn discard(&mut self)
        requires
            old(self).wf(),
            old(self).idle@.len() < old(self).open,
        ensures
            final(self).wf(),
            final(self).idle@ == old(self).idle@,
            final(self).open == old(self).open - 1,
    {
        self.open = self.open - 1;
    }
}

} // verus!
