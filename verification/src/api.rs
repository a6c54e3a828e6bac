//! The request parameter model and the command dispatcher: what a request
//! may ask for, and exactly which external program and argument vector each
//! selection maps to. Running the program is outside this crate; decoding
//! its captured output is here.

use vstd::prelude::*;
use vstd::string::StringExecFns;

use crate::error::LookoutError;
use crate::ip::{parse_ip_chars, spec_ip_text, spec_parse_ip, Ip};
use crate::text::str_to_chars;

verus! {

/// The diagnostic command a request selects.
#[derive(Clone, Copy, Debug, PartialEq, Eq, Structural)]
pub enum Command {
    Ping,
    Traceroute,
    Mtr,
}

/// The executable each command runs.
pub open spec fn spec_command_name(c: Command) -> Seq<char> {
    match c {
        Command::Ping => "ping"@,
        Command::Traceroute => "traceroute"@,
        Command::Mtr => "mtr"@,
    }
}

/// The fixed argument each command passes before the target.
pub open spec fn spec_command_arg(c: Command) -> Seq<char> {
    match c {
        Command::Ping => "-c5"@,
        Command::Traceroute => "-A"@,
        Command::Mtr => "-wenzc3"@,
    }
}

impl Command {
    /// The name of the executable this command runs.
    pub fn name(&self) -> (r: &'static str)
        ensures
            r@ == spec_command_name(*self),
    {
        match self {
            Command::Ping => "ping",
            Command::Traceroute => "traceroute",
            Command::Mtr => "mtr",
        }
    }

    /// The fixed argument this command passes before the target.
    pub fn fixed_arg(&self) -> (r: &'static str)
        ensures
            r@ == spec_command_arg(*self),
    {
        match self {
            Command::Ping => "-c5",
            Command::Traceroute => "-A",
            Command::Mtr => "-wenzc3",
        }
    }
}

impl Default for Command {
    /// The command used when the request names none.
    fn default() -> (c: Command)
        ensures
            c == Command::Traceroute,
    {
        Command::Traceroute
    }
}

/// The mathematical form of a probe target.
pub enum SpecTarget {
    Ip(Ip),
    Host(Seq<char>),
}

/// The probe target a request names: a string that reads as an IP literal
/// is the address itself; anything else is taken as a hostname, with no
/// further validation of its syntax.
#[derive(Debug, PartialEq, Eq)]
pub enum Target {
    Ip(Ip),
    Host(String),
}

impl View for Target {
    type V = SpecTarget;

    open spec fn view(&self) -> SpecTarget {
        match self {
            Target::Ip(ip) => SpecTarget::Ip(*ip),
            Target::Host(h) => SpecTarget::Host(h@),
        }
    }
}

/// How a target string is read.
pub open spec fn spec_target_of(s: Seq<char>) -> SpecTarget {
    match spec_parse_ip(s) {
        Some(ip) => SpecTarget::Ip(ip),
        None => SpecTarget::Host(s),
    }
}

impl Target {
    /// Read a user-supplied target string.
    pub fn from_text(s: &str) -> (t: Target)
        ensures
            t@ == spec_target_of(s@),
    {
        let chars = str_to_chars(s);
        match parse_ip_chars(chars.as_slice()) {
            Some(ip) => Target::Ip(ip),
            None => Target::Host(s.to_owned()),
        }
    }
}

/// The decoded query parameters of one request: an optional target, the
/// selected command (traceroute when unspecified), and whether to render
/// the raw tool output.
#[derive(Debug)]
pub struct Params {
    pub target: Option<Target>,
    pub command: Command,
    pub rawoutput: bool,
}

impl Default for Params {
    /// The parameters of a bare request: no target, the default command,
    /// raw output off.
    fn default() -> (p: Params)
        ensures
            p.target is None,
            p.command == Command::Traceroute,
            !p.rawoutput,
    {
        Params { target: None, command: Command::Traceroute, rawoutput: false }
    }
}

/// An external program and the argument vector to run it with.
#[derive(Debug, PartialEq, Eq)]
pub struct Invocation {
    pub program: String,
    pub args: Vec<String>,
}

impl Params {
    /// The invocation these parameters dispatch: the command's executable
    /// with its fixed argument and the target's address text. Only an
    /// IP-literal target is dispatched; a missing target or a bare
    /// hostname yields none.
    pub fn invocation(&self) -> (r: Option<Invocation>)
        ensures
            match self.target {
                Some(Target::Ip(ip)) => {
                    &&& r is Some
                    &&& r.unwrap().program@ == spec_command_name(self.command)
                    &&& r.unwrap().args@.len() == 2
                    &&& r.unwrap().args@[0]@ == spec_command_arg(self.command)
                    &&& r.unwrap().args@[1]@ == spec_ip_text(ip)
                },
                _ => r is None,
            },
    {
        match &self.target {
            Some(Target::Ip(ip)) => {
                let program = String::from_str(self.command.name());
                let mut args: Vec<String> = Vec::new();
                args.push(String::from_str(self.command.fixed_arg()));
                args.push(ip.to_text());
                Some(Invocation { program, args })
            },
            _ => None,
        }
    }
}

/// Shared application state; the diagnostic core keeps none.
#[derive(Clone, Copy, Debug, PartialEq, Eq, Structural)]
pub struct State {}

impl State {
    /// An empty state.
    pub fn new() -> (s: State)
        ensures
            s == (State {  }),
    {
        State {  }
    }
}

/// Relies on `String::from_utf8`: it succeeds exactly on input that is
/// valid UTF-8 and then returns the string of the decoded characters.
#[verifier::external_body]
fn string_from_utf8(bytes: Vec<u8>) -> (r: Option<String>)
    ensures
        r is Some <==> vstd::utf8::valid_utf8(bytes@),
        r is Some ==> r.unwrap()@ == vstd::utf8::decode_utf8(bytes@),
{
    match String::from_utf8(bytes) {
        Ok(s) => Some(s),
        Err(_) => None,
    }
}

/// Decode the captured output of an external tool. Output that is not
/// valid text yields the decode error, never a panic.
pub fn decode_output(bytes: Vec<u8>) -> (r: Result<String, LookoutError>)
    ensures
        r is Ok <==> vstd::utf8::valid_utf8(bytes@),
        r is Ok ==> r.unwrap()@ == vstd::utf8::decode_utf8(bytes@),
        r is Err ==> r.get_Err_0() == LookoutError::Decode,
{
    match string_from_utf8(bytes) {
        Some(s) => Ok(s),
        None => Err(LookoutError::Decode),
    }
}

} // verus!
