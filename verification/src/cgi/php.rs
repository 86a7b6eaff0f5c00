//! What an interpreter is started with: its path, the script, and the environment.

use crate::string_map::{upsert, Pairs, StringMap};
use vstd::prelude::*;

verus! {

/// The environment that every script gets, before the caller adds to it.
pub open spec fn base_environment(script_path: Seq<char>) -> Pairs {
    seq![
        ("GATEWAY_INTERFACE"@, "CGI/1.1"@),
        ("SERVER_PROTOCOL"@, "HTTP/1.1"@),
        ("SERVER_SOFTWARE"@, "Kang/1.0"@),
        ("SCRIPT_FILENAME"@, script_path),
        ("REDIRECT_STATUS"@, "200"@),
    ]
}

/// The environment of a script that answers a request with the given method.
pub open spec fn request_environment(script_path: Seq<char>, method: Seq<char>) -> Pairs {
    upsert(base_environment(script_path), "REQUEST_METHOD"@, method)
}

/// An interpreter to run on a script. The process is started with this environment
/// and no other variable, and with the script path as its only argument.
#[derive(Debug)]
pub struct PhpExecContext {
    pub bin_path: String,
    pub script_path: String,
    pub envs: StringMap,
}

/// The model of a [`PhpExecContext`].
pub struct PhpExecContextView {
    pub bin_path: Seq<char>,
    pub script_path: Seq<char>,
    pub envs: Pairs,
}

impl View for PhpExecContext {
    type V = PhpExecContextView;

    open spec fn view(&self) -> PhpExecContextView {
        PhpExecContextView {
            bin_path: self.bin_path@,
            script_path: self.script_path@,
            envs: self.envs@,
        }
    }
}

impl PhpExecContext {
    /// The context for `script_path` under the interpreter `bin_path`, with the
    /// variables that every script gets.
    pub fn new(bin_path: String, script_path: String) -> (c: PhpExecContext)
        ensures
            c@ == (PhpExecContextView {
                bin_path: bin_path@,
                script_path: script_path@,
                envs: base_environment(script_path@),
            }),
    {
        let mut envs = StringMap { entries: Vec::new() };
        envs.entries.push(("GATEWAY_INTERFACE".to_owned(), "CGI/1.1".to_owned()));
        envs.entries.push(("SERVER_PROTOCOL".to_owned(), "HTTP/1.1".to_owned()));
        envs.entries.push(("SERVER_SOFTWARE".to_owned(), "Kang/1.0".to_owned()));
        envs.entries.push(("SCRIPT_FILENAME".to_owned(), script_path.clone()));
        envs.entries.push(("REDIRECT_STATUS".to_owned(), "200".to_owned()));
        proof {
            assert(envs@ =~= base_environment(script_path@));
        }
        PhpExecContext { bin_path, script_path, envs }
    }

    /// Sets a variable of the environment.
    pub fn add_env(&mut self, key: &str, value: &str)
        ensures
            final(self)@ == (PhpExecContextView {
                envs: upsert(old(self)@.envs, key@, value@),
                ..old(self)@
            }),
    {
        self.envs.insert(key.to_owned(), value.to_owned());
    }
}

} // verus!
