//! A handler that accepts everything and keeps nothing.
use vstd::prelude::*;
use crate::handler::{Handler, Hesitant};
use crate::params::{ExpnParameters, MailParameters, RcptParameters, VrfyParameters};
use crate::reply::ReplyBuf;

verus! {

/// Accepts every connection, sender, recipient and message, and throws the
/// data away.
pub struct NullProtocol;

impl Handler for NullProtocol {
    fn start(&mut self) -> Hesitant<bool> {
        Hesitant::Final(true)
    }

    fn hello(&mut self, domain: &[u8]) -> Hesitant<bool> {
        Hesitant::Final(true)
    }

    fn check_tls(&mut self, peer_cert: Option<&[u8]>) -> Hesitant<bool> {
        Hesitant::Final(true)
    }

    fn mail(&mut self, path: &[u8], params: &MailParameters, reply: &mut ReplyBuf) -> (r: Hesitant<bool>) {
        reply.reply(250, (2, 1, 0), "Ok\r\n".as_bytes());
        Hesitant::Final(true)
    }

    fn recipient(&mut self, path: &[u8], params: &RcptParameters, reply: &mut ReplyBuf) -> (r: Hesitant<bool>) {
        reply.reply(250, (2, 1, 0), "Ok\r\n".as_bytes());
        Hesitant::Final(true)
    }

    fn data(&mut self) -> Hesitant<bool> {
        Hesitant::Final(true)
    }

    fn reset(&mut self) {
    }

    fn chunk(&mut self, data: &[u8]) {
    }

    fn complete(&mut self, ok: bool, reply: &mut ReplyBuf) -> (r: Hesitant<bool>) {
        reply.reply(250, (2, 1, 0), "Ok\r\n".as_bytes());
        Hesitant::Final(true)
    }

    fn verify(&mut self, word: &[u8], params: VrfyParameters, reply: &mut ReplyBuf) -> (r: Hesitant<bool>) {
        reply.reply(252, (2, 7, 0), "VRFY administratively disabled\r\n".as_bytes());
        Hesitant::Final(true)
    }

    fn expand(&mut self, word: &[u8], params: ExpnParameters, reply: &mut ReplyBuf) -> (r: Hesitant<bool>) {
        reply.reply(252, (2, 7, 0), "EXPN administratively disabled\r\n".as_bytes());
        Hesitant::Final(true)
    }

    fn help(&mut self, word: Option<&[u8]>, reply: &mut ReplyBuf) -> (r: Hesitant<bool>) {
        reply.reply(214, (2, 0, 0), "This SMTP server eats your mail.\r\n".as_bytes());
        Hesitant::Final(true)
    }

    fn wakeup(&mut self, reply: &mut ReplyBuf) -> (r: Hesitant<bool>) {
        Hesitant::Final(true)
    }
}

} // verus!
