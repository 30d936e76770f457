//! The server loop's decisions: its configuration, and whether a failed
//! accept ends the loop.
use vstd::prelude::*;

verus! {

/// Why accepting a connection failed.
#[derive(Debug, PartialEq, Eq, Structural, Clone, Copy)]
pub enum AcceptError {
    ConnectionReset,
    ConnectionAborted,
    Interrupted,
    TimedOut,
    WouldBlock,
    /// Anything else: the listener itself is in trouble.
    Other,
}

/// What the accept loop does next.
#[derive(Debug, PartialEq, Eq, Structural, Clone, Copy)]
pub enum AcceptAction {
    Continue,
    Stop,
}

/// A failure that concerns one connection only.
pub open spec fn is_transient(e: AcceptError) -> bool {
    !(e is Other)
}

/// After a failed accept the loop goes on, unless the listener itself failed.
pub fn after_accept_error(e: AcceptError) -> (r: AcceptAction)
    ensures
        r == (if is_transient(e) {
            AcceptAction::Continue
        } else {
            AcceptAction::Stop
        }),
{
    match e {
        AcceptError::Other => AcceptAction::Stop,
        _ => AcceptAction::Continue,
    }
}

/// A configuration that cannot run.
#[derive(Debug, PartialEq, Eq, Structural, Clone, Copy)]
pub enum ConfigError {
    /// The worker pool would have no thread.
    NoWorkers,
}

/// Where to listen, and how many workers serve connections.
#[derive(Debug)]
pub struct ServerConfig {
    addr: String,
    workers: usize,
}

impl ServerConfig {
    /// A configuration; a pool of no workers is refused.
    pub fn new(addr: &str, workers: usize) -> (r: Result<ServerConfig, ConfigError>)
        ensures
            workers == 0 ==> r == Err::<ServerConfig, ConfigError>(ConfigError::NoWorkers),
            workers > 0 ==> r is Ok && r->Ok_0.addr_view() == addr@ && r->Ok_0.workers_view()
                == workers,
    {
        if workers == 0 {
            return Err(ConfigError::NoWorkers);
        }
        Ok(ServerConfig { addr: addr.to_owned(), workers })
    }

    pub closed spec fn addr_view(&self) -> Seq<char> {
        self.addr@
    }

    pub closed spec fn workers_view(&self) -> usize {
        self.workers
    }

    /// The address to listen on, such as `127.0.0.1:9000`.
    pub fn addr(&self) -> (r: &str)
        ensures
            r@ == self.addr_view(),
    {
        self.addr.as_str()
    }

    /// The number of workers, at least one.
    pub fn workers(&self) -> (r: usize)
        ensures
            r == self.workers_view(),
    {
        self.workers
    }
}

} // verus!
