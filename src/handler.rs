//! What the embedding application supplies: the handler that decides on
//! sessions, mail transactions and message data.
use vstd::prelude::*;
use crate::params::{ExpnParameters, MailParameters, RcptParameters, VrfyParameters};
use crate::reply::ReplyBuf;

verus! {

/// A decision that may not be ready yet.
///
/// `Defer` says that the handler is still working on it. The session then
/// waits until the application wakes it up, and asks again through
/// [`Handler::wakeup`].
#[derive(Debug)]
pub enum Hesitant<F> {
    Final(F),
    Defer,
}

/// The callbacks through which a session consults the application.
///
/// Every decision is a `Hesitant<bool>`: `Final(true)` accepts,
/// `Final(false)` rejects, `Defer` postpones. Where a `ReplyBuf` is handed
/// in, what the handler writes there is the reply to the client; if it
/// writes nothing, the session answers on its own.
pub trait Handler {
    /// A new connection: accept it or refuse it.
    fn start(&mut self) -> Hesitant<bool>;

    /// HELO or EHLO with the client's domain: go on or drop the client.
    fn hello(&mut self, domain: &[u8]) -> Hesitant<bool>;

    /// A TLS handshake has completed: go on or drop the client.
    fn check_tls(&mut self, peer_cert: Option<&[u8]>) -> Hesitant<bool>;

    /// MAIL FROM: accepting starts a mail transaction.
    fn mail(&mut self, path: &[u8], params: &MailParameters, reply: &mut ReplyBuf) -> (r: Hesitant<bool>)
        requires
            old(reply).wf(),
        ensures
            final(reply).wf(),
    ;

    /// RCPT TO: accepting adds a recipient; rejecting drops the
    /// transaction.
    fn recipient(&mut self, path: &[u8], params: &RcptParameters, reply: &mut ReplyBuf) -> (r: Hesitant<bool>)
        requires
            old(reply).wf(),
        ensures
            final(reply).wf(),
    ;

    /// DATA: accepting opens the data sink; rejecting drops the
    /// transaction.
    fn data(&mut self) -> Hesitant<bool>;

    /// The transaction is abandoned (RSET, a new HELO, TLS, a lost
    /// connection).
    fn reset(&mut self);

    /// The next piece of message data, already unstuffed.
    fn chunk(&mut self, data: &[u8]);

    /// The end of the message data. `ok` is false if the message was over
    /// the size limit; it is then dropped whatever the handler says.
    fn complete(&mut self, ok: bool, reply: &mut ReplyBuf) -> (r: Hesitant<bool>)
        requires
            old(reply).wf(),
        ensures
            final(reply).wf(),
    ;

    /// VRFY.
    fn verify(&mut self, word: &[u8], params: VrfyParameters, reply: &mut ReplyBuf) -> (r: Hesitant<bool>)
        requires
            old(reply).wf(),
        ensures
            final(reply).wf(),
    ;

    /// EXPN.
    fn expand(&mut self, word: &[u8], params: ExpnParameters, reply: &mut ReplyBuf) -> (r: Hesitant<bool>)
        requires
            old(reply).wf(),
        ensures
            final(reply).wf(),
    ;

    /// HELP, with or without a topic.
    fn help(&mut self, word: Option<&[u8]>, reply: &mut ReplyBuf) -> (r: Hesitant<bool>)
        requires
            old(reply).wf(),
        ensures
            final(reply).wf(),
    ;

    /// Asks again for the decision that was deferred last.
    fn wakeup(&mut self, reply: &mut ReplyBuf) -> (r: Hesitant<bool>)
        requires
            old(reply).wf(),
        ensures
            final(reply).wf(),
    ;
}

} // verus!
