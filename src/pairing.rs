//! The hand-off of an authorization code from a local callback server to
//! the one caller waiting for it: an explicit session with one-shot
//! delivery and one-shot collection, and a reset that starts a new flow.
use vstd::prelude::*;

verus! {

/// The error of a wait that no new flow allows.
pub const NOT_STARTED: &'static str = "OAuth flow not started. Please call start_oauth_server first.";

/// One pairing flow.
#[derive(Debug)]
pub struct PairingSession {
    /// The code delivered and not yet collected.
    pub code: Option<String>,
    /// Whether a code may still be delivered.
    pub sender_open: bool,
    /// Whether a caller may still start waiting for the code.
    pub receiver_open: bool,
    /// Whether the callback server is marked running.
    pub server_running: bool,
}

impl PairingSession {
    /// A fresh flow: nothing delivered, both ends open, no server.
    pub open spec fn is_fresh(&self) -> bool {
        self.code is None && self.sender_open && self.receiver_open && !self.server_running
    }

    pub fn new() -> (r: PairingSession)
        ensures
            r.is_fresh(),
    {
        PairingSession { code: None, sender_open: true, receiver_open: true, server_running: false }
    }

    /// Starts a new flow, dropping whatever the previous one left.
    pub fn reset(&mut self)
        ensures
            final(self).is_fresh(),
    {
        self.code = None;
        self.sender_open = true;
        self.receiver_open = true;
        self.server_running = false;
    }

    /// Starts a new flow with its callback server running.
    pub fn start(&mut self)
        ensures
            final(self).code is None,
            final(self).sender_open,
            final(self).receiver_open,
            final(self).server_running,
    {
        self.reset();
        self.server_running = true;
    }

    /// Delivers a code from the callback. Only the first delivery of a flow
    /// is kept; the result says whether this one was.
    pub fn deliver(&mut self, code: String) -> (r: bool)
        ensures
            r == old(self).sender_open,
            r ==> final(self).code == Some(code) && !final(self).sender_open,
            !r ==> *final(self) == *old(self),
            final(self).receiver_open == old(self).receiver_open,
            final(self).server_running == old(self).server_running,
    {
        if self.sender_open {
            self.code = Some(code);
            self.sender_open = false;
            true
        } else {
            false
        }
    }

    /// Claims the right to wait for the code; only one caller per flow gets it.
    pub fn begin_wait(&mut self) -> (r: Result<(), String>)
        ensures
            r is Ok == old(self).receiver_open,
            r matches Err(e) ==> e@ == NOT_STARTED@,
            !final(self).receiver_open,
            final(self).code == old(self).code,
            final(self).sender_open == old(self).sender_open,
            final(self).server_running == old(self).server_running,
    {
        if self.receiver_open {
            self.receiver_open = false;
            Ok(())
        } else {
            Err(NOT_STARTED.to_string())
        }
    }

    /// Collects the delivered code, if any; a code is collected at most once.
    pub fn collect(&mut self) -> (r: Option<String>)
        ensures
            r == old(self).code,
            final(self).code is None,
            final(self).sender_open == old(self).sender_open,
            final(self).receiver_open == old(self).receiver_open,
            final(self).server_running == old(self).server_running,
    {
        let taken = self.code.take();
        taken
    }

    /// Marks the callback server stopped.
    pub fn stop(&mut self)
        ensures
            !final(self).server_running,
            final(self).code == old(self).code,
            final(self).sender_open == old(self).sender_open,
            final(self).receiver_open == old(self).receiver_open,
    {
        self.server_running = false;
    }
}

} // verus!
