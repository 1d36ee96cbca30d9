//! What the dashboard knows of the llama-server it launched: whether it
//! runs, with which configuration, and why it last stopped on its own.
//! Each event (a launch, a stop, an exit the watcher saw) gives the next
//! state and the line the monitor adds to the server's output.
use vstd::prelude::*;
use crate::diagnose::{
    cut_is_clean, diagnosis, exit_message, exit_message_of, recent_lines, recent_of, string_views,
};
use crate::server_args::ServerConfig;
use crate::text::{extend, lit, string_of};

verus! {

/// The server as the dashboard shows it.
pub struct ServerState {
    pub running: bool,
    /// Why the server last stopped on its own, until the next launch or stop.
    pub error: Option<String>,
    /// The configuration it runs with.
    pub config: Option<ServerConfig>,
}

/// What happened to the server.
pub enum ServerEvent {
    /// It was launched with this configuration.
    Started(ServerConfig),
    /// The dashboard stopped it.
    Stopped,
    /// It exited on its own, with this status, this long after the launch,
    /// leaving these output lines.
    Exited { status: String, elapsed_ms: u64, logs: Vec<String> },
}

/// Whether an event can be handled: the diagnosis of an exit cuts its
/// headline on a character boundary.
pub open spec fn event_ok(e: ServerEvent) -> bool {
    match e {
        ServerEvent::Exited { logs, .. } => cut_is_clean(recent_of(string_views(logs@))),
        _ => true,
    }
}

impl ServerState {
    /// Nothing launched yet.
    pub fn new() -> (s: ServerState)
        ensures
            !s.running,
            s.error is None,
            s.config is None,
    {
        ServerState { running: false, error: None, config: None }
    }

    /// Handles `event`, returning the line the monitor adds to the
    /// server's output, if any: a launch runs the server with its
    /// configuration and clears the last error; a stop leaves it stopped
    /// with no error; an exit on its own leaves it stopped, with the
    /// diagnosis of its last lines as the error.
    pub fn step(&mut self, event: ServerEvent) -> (line: Option<String>)
        requires
            event_ok(event),
        ensures
            match event {
                ServerEvent::Started(c) => {
                    &&& final(self).running
                    &&& final(self).error is None
                    &&& final(self).config == Some(c)
                    &&& line is None
                },
                ServerEvent::Stopped => {
                    &&& !final(self).running
                    &&& final(self).error is None
                    &&& final(self).config is None
                    &&& line is Some
                    &&& line->0@ == "[monitor] Server stopped."@
                },
                ServerEvent::Exited { status, elapsed_ms, logs } => {
                    let m = exit_message_of(
                        status@,
                        elapsed_ms,
                        diagnosis(recent_of(string_views(logs@))),
                    );
                    &&& !final(self).running
                    &&& final(self).config is None
                    &&& final(self).error is Some
                    &&& final(self).error->0@ == m
                    &&& line is Some
                    &&& line->0@ == "[monitor] "@ + m
                },
            },
    {
        match event {
            ServerEvent::Started(c) => {
                self.running = true;
                self.error = None;
                self.config = Some(c);
                None
            },
            ServerEvent::Stopped => {
                self.running = false;
                self.config = None;
                self.error = None;
                Some(string_of(&lit("[monitor] Server stopped.")))
            },
            ServerEvent::Exited { status, elapsed_ms, logs } => {
                let recent = recent_lines(logs.as_slice());
                let m = exit_message(status.as_str(), elapsed_ms, recent.as_slice());
                let mut l = lit("[monitor] ");
                extend(&mut l, &lit(m.as_str()));
                self.running = false;
                self.config = None;
                self.error = Some(m);
                Some(string_of(&l))
            },
        }
    }
}

} // verus!
