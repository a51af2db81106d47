//! Thin glue between the engine's per-transaction handler and a server
//! application: on the first invocation the message head is taken, turned
//! into a `Request`, and a fresh application handler is created for it; the
//! application handler is then driven on every later invocation.

use vstd::prelude::*;
use crate::txn::{Transaction, TransactionHandler, Intent, Interest, Error, txn_evolves, lemma_txn_evolves_trans};
use crate::request::{Request, new};

verus! {

/// An application's per-transaction handler.
pub trait Handler {
    fn ready(&mut self, txn: &mut Transaction) -> (i: Intent)
        requires
            old(txn).wf(),
        ensures
            txn_evolves(*old(txn), *final(txn)),
    ;
}

/// Creates one application handler per transaction, from the parsed request
/// or the error that took its place; refusing aborts the transaction.
pub trait HandlerFactory {
    type Output: Handler;

    fn create(&mut self, incoming: Result<Request, Error>) -> Result<Self::Output, Error>;
}

enum Either<A, B> {
    A(A),
    B(B),
}

/// The engine-facing handler for a server: a factory until the head
/// arrives, the created application handler afterwards.
pub struct Handle<H: HandlerFactory> {
    handler: Either<H, H::Output>,
}

impl<H: HandlerFactory> Handle<H> {
    /// True while the head has not arrived and the factory has not yet
    /// built the application handler.
    pub closed spec fn awaiting(&self) -> bool {
        self.handler is A
    }

    pub fn new(factory: H) -> (h: Handle<H>)
        ensures
            h.awaiting(),
    {
        Handle { handler: Either::A(factory) }
    }
}

impl<H: HandlerFactory> TransactionHandler for Handle<H> {
    /// The factory state gives way to the created application handler,
    /// unless creation was refused, which aborts the transaction; once in
    /// handler state, it stays there.  Creating the handler consumes the
    /// cursor's head slot.
    fn ready(&mut self, txn: &mut Transaction) -> (i: Intent)
        ensures
            old(self).awaiting() && final(self).awaiting() ==> i.interest == Interest::Remove,
            !old(self).awaiting() ==> !final(self).awaiting(),
            old(self).awaiting() && !final(self).awaiting() ==> final(txn).head is None,
    {
        let mut handler = match &mut self.handler {
            Either::A(factory) => {
                let incoming: Result<Request, Error> = match txn.incoming() {
                    Some(Ok(head)) => Ok(new(head)),
                    Some(Err(e)) => Err(e),
                    None => Err(Error::State),
                };
                match factory.create(incoming) {
                    Ok(h) => h,
                    Err(_) => {
                        // the factory refused: abort this transaction
                        return Intent::remove();
                    },
                }
            },
            Either::B(h) => {
                return h.ready(txn);
            },
        };
        let ghost mid = *txn;
        let i = handler.ready(txn);
        proof {
            lemma_txn_evolves_trans(*old(txn), mid, *txn);
        }
        self.handler = Either::B(handler);
        i
    }
}

} // verus!
