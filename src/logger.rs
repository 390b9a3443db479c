//! State of the host's log: where it goes, when it rolls over, and in which
//! mode the process runs.
use vstd::prelude::*;
use vstd::string::*;

verus! {

/// Most verbose level that is written.
#[derive(Clone, Copy, Debug, PartialEq, Eq, Structural)]
pub enum LogLevel {
    Off,
    Error,
    Warn,
    Info,
    Debug,
    Trace,
}

pub struct LoggerMeta {
    /// Also echo each line to standard output.
    pub stdout_require: bool,
    /// The process is the server; only it rolls its log over.
    pub run_in_server: bool,
    /// Bytes written to the current log file.
    pub current_size: usize,
    pub log_file: String,
    pub log_level: LogLevel,
}

impl Default for LoggerMeta {
    fn default() -> (r: LoggerMeta)
        ensures
            !r.stdout_require,
            !r.run_in_server,
            r.current_size == 0,
            r.log_file@ == Seq::<char>::empty(),
            r.log_level == LogLevel::Debug,
    {
        LoggerMeta {
            stdout_require: false,
            run_in_server: false,
            current_size: 0,
            log_file: String::new(),
            log_level: LogLevel::Debug,
        }
    }
}

/// The host's logger state.
pub struct HostLoggerMeta {
    pub meta: LoggerMeta,
}

impl HostLoggerMeta {
    pub fn new() -> (r: HostLoggerMeta)
        ensures
            !r.meta.stdout_require,
            !r.meta.run_in_server,
            r.meta.current_size == 0,
            r.meta.log_level == LogLevel::Debug,
    {
        HostLoggerMeta { meta: LoggerMeta::default() }
    }

    /// Sets the level, the file and the mode. A server that was started
    /// by hand, not spawned by a client, also echoes to standard output.
    pub fn init(&mut self, run_in_server: bool, spawned_server: bool, log_level: LogLevel, log_file: String)
        ensures
            final(self).meta.log_level == log_level,
            final(self).meta.run_in_server == run_in_server,
            final(self).meta.stdout_require == (old(self).meta.stdout_require || (run_in_server
                && !spawned_server)),
            final(self).meta.log_file@ == log_file@,
            final(self).meta.current_size == old(self).meta.current_size,
    {
        self.meta.log_level = log_level;
        if run_in_server && !spawned_server {
            self.meta.stdout_require = true;
        }
        self.meta.run_in_server = run_in_server;
        self.meta.log_file = log_file;
    }

    /// Accounts for a line of `len` bytes about to be written; whether the
    /// file must first be rolled over, which a server does once it holds
    /// more than `limit` bytes.
    pub fn write_log(&mut self, len: usize, limit: usize) -> (rotate: bool)
        ensures
            rotate == (old(self).meta.run_in_server && old(self).meta.current_size > limit),
            final(self).meta.current_size == if rotate {
                len as int
            } else {
                if old(self).meta.current_size + len > usize::MAX {
                    usize::MAX as int
                } else {
                    old(self).meta.current_size + len
                }
            },
            final(self).meta.run_in_server == old(self).meta.run_in_server,
            final(self).meta.stdout_require == old(self).meta.stdout_require,
            final(self).meta.log_level == old(self).meta.log_level,
            final(self).meta.log_file == old(self).meta.log_file,
    {
        let rotate = self.meta.run_in_server && self.meta.current_size > limit;
        if rotate {
            self.meta.current_size = 0;
        }
        self.meta.current_size = self.meta.current_size.saturating_add(len);
        rotate
    }

    /// `server` or `client`.
    pub fn get_running_mode(&self) -> (r: String)
        ensures
            r@ == if self.meta.run_in_server {
                "server"@
            } else {
                "client"@
            },
    {
        if self.meta.run_in_server {
            String::from_str("server")
        } else {
            String::from_str("client")
        }
    }
}

} // verus!
