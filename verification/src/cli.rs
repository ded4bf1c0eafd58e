//! Command-line arguments of the `oflh` program.
use vstd::prelude::*;
use crate::text::{chars_of, lossy, parse_number, parse_unsigned, to_string, utf8_lossy};

verus! {

/// How the terminal interface starts.
#[derive(Clone, Copy, Debug, Default, PartialEq, Eq)]
pub struct StartOptions {
    /// Start in the Ports tab.
    pub ports: bool,
    /// Limit Ports to processes that reference the path.
    pub ports_path_only: bool,
    /// Start with an exact local-port filter.
    pub port: Option<u16>,
}

/// Parsed command-line arguments.
#[derive(Debug)]
pub struct Arguments {
    /// The path to inspect, as native bytes.
    pub path: Option<Vec<u8>>,
    pub view: StartOptions,
    pub help: bool,
    pub version: bool,
}

/// The abstract content of parsed arguments.
pub struct ArgumentsView {
    pub path: Option<Seq<u8>>,
    pub view: StartOptions,
    pub help: bool,
    pub version: bool,
}

impl View for Arguments {
    type V = ArgumentsView;

    open spec fn view(&self) -> ArgumentsView {
        ArgumentsView {
            path: match self.path {
                Some(p) => Some(p@),
                None => None,
            },
            view: self.view,
            help: self.help,
            version: self.version,
        }
    }
}

/// The argument bytes spell the (ASCII) option `lit`.
pub open spec fn arg_is(a: Seq<u8>, lit: Seq<char>) -> bool {
    a.len() == lit.len() && forall|i: int| 0 <= i < a.len() ==> a[i] as u32 == #[trigger] lit[i] as u32
}

/// Usage error of `--port`.
pub open spec fn port_usage() -> Seq<char> {
    "--port requires a number from 1 to 65535"@
}

/// Arguments from index `i` on, after those before it gave `acc`; `positional` once `--`
/// or a path was seen. Options come before the path; `--help` and `--version` end parsing.
pub open spec fn parse_from(args: Seq<Seq<u8>>, i: int, positional: bool, acc: ArgumentsView) -> Result<ArgumentsView, Seq<char>>
    decreases args.len() - i,
{
    if i < 0 || i >= args.len() {
        Ok(acc)
    } else {
        let a = args[i];
        if !positional && arg_is(a, "--"@) {
            parse_from(args, i + 1, true, acc)
        } else if !positional && (arg_is(a, "--help"@) || arg_is(a, "-h"@) || arg_is(a, "-help"@)) {
            Ok(ArgumentsView { help: true, ..acc })
        } else if !positional && (arg_is(a, "--version"@) || arg_is(a, "-version"@)) {
            Ok(ArgumentsView { version: true, ..acc })
        } else if !positional && arg_is(a, "--ports"@) {
            parse_from(args, i + 1, false, ArgumentsView { view: StartOptions { ports: true, ..acc.view }, ..acc })
        } else if !positional && arg_is(a, "--here"@) {
            parse_from(
                args,
                i + 1,
                false,
                ArgumentsView { view: StartOptions { ports: true, ports_path_only: true, ..acc.view }, ..acc },
            )
        } else if !positional && arg_is(a, "--port"@) {
            match (if i + 1 < args.len() { parse_unsigned(args[i + 1], 10, 65535) } else { None }) {
                Some(p) => if p > 0 {
                    parse_from(
                        args,
                        i + 2,
                        false,
                        ArgumentsView { view: StartOptions { ports: true, port: Some(p as u16), ..acc.view }, ..acc },
                    )
                } else {
                    Err(port_usage())
                },
                None => Err(port_usage()),
            }
        } else if !positional && a.len() > 0 && a[0] == 45 {
            Err("unknown option: "@ + utf8_lossy(a))
        } else if acc.path is Some {
            Err("expected one path; quote paths containing spaces"@)
        } else {
            parse_from(args, i + 1, true, ArgumentsView { path: Some(a), ..acc })
        }
    }
}

/// The arguments with nothing read yet.
pub open spec fn no_arguments() -> ArgumentsView {
    ArgumentsView {
        path: None,
        view: StartOptions { ports: false, ports_path_only: false, port: None },
        help: false,
        version: false,
    }
}

fn arg_equals(a: &Vec<u8>, lit: &str) -> (r: bool)
    ensures
        r == arg_is(a@, lit@),
{
    let l = chars_of(lit);
    if a.len() != l.len() {
        return false;
    }
    let mut i: usize = 0;
    while i < a.len()
        invariant
            i <= a@.len(),
            a@.len() == l@.len(),
            l@ == lit@,
            forall|k: int| 0 <= k < i ==> a@[k] as u32 == #[trigger] l@[k] as u32,
        decreases a@.len() - i,
    {
        if a[i] as u32 != l[i] as u32 {
            return false;
        }
        i = i + 1;
    }
    true
}

/// Parse the arguments after the program name.
pub fn parse_arguments(arguments: Vec<Vec<u8>>) -> (r: Result<Arguments, String>)
    ensures
        match r {
            Ok(a) => parse_from(arguments@.map_values(|v: Vec<u8>| v@), 0, false, no_arguments()) == Ok::<ArgumentsView, Seq<char>>(a@),
            Err(e) => parse_from(arguments@.map_values(|v: Vec<u8>| v@), 0, false, no_arguments()) == Err::<ArgumentsView, Seq<char>>(e@),
        },
{
    let ghost args = arguments@.map_values(|v: Vec<u8>| v@);
    let mut result = Arguments {
        path: None,
        view: StartOptions { ports: false, ports_path_only: false, port: None },
        help: false,
        version: false,
    };
    let mut positional = false;
    let mut i: usize = 0;
    while i < arguments.len()
        invariant
            i <= arguments@.len(),
            args == arguments@.map_values(|v: Vec<u8>| v@),
            parse_from(args, 0, false, no_arguments()) == parse_from(args, i as int, positional, result@),
        decreases arguments@.len() - i,
    {
        let a = &arguments[i];
        assert(args[i as int] == a@);
        if !positional {
            if arg_equals(a, "--") {
                positional = true;
                i = i + 1;
                continue;
            }
            if arg_equals(a, "--help") || arg_equals(a, "-h") || arg_equals(a, "-help") {
                result.help = true;
                return Ok(result);
            }
            if arg_equals(a, "--version") || arg_equals(a, "-version") {
                result.version = true;
                return Ok(result);
            }
            if arg_equals(a, "--ports") {
                result.view.ports = true;
                i = i + 1;
                continue;
            }
            if arg_equals(a, "--here") {
                result.view.ports = true;
                result.view.ports_path_only = true;
                i = i + 1;
                continue;
            }
            if arg_equals(a, "--port") {
                let port = if i + 1 < arguments.len() {
                    assert(args[i + 1] == arguments@[i + 1]@);
                    parse_number(&arguments[i + 1], 10, 65535)
                } else {
                    None
                };
                match port {
                    Some(p) => {
                        if p == 0 {
                            return Err(String::from_str("--port requires a number from 1 to 65535"));
                        }
                        result.view.ports = true;
                        result.view.port = Some(p as u16);
                        i = i + 2;
                        continue;
                    },
                    None => {
                        return Err(String::from_str("--port requires a number from 1 to 65535"));
                    },
                }
            }
            if a.len() > 0 && a[0] == 45 {
                let mut message = chars_of("unknown option: ");
                let text = lossy(a);
                let ghost before = message@;
                let mut k: usize = 0;
                while k < text.len()
                    invariant
                        k <= text@.len(),
                        message@ == before + text@.take(k as int),
                    decreases text@.len() - k,
                {
                    message.push(text[k]);
                    assert(text@.take(k as int + 1) =~= text@.take(k as int).push(text@[k as int]));
                    k = k + 1;
                }
                assert(text@.take(text@.len() as int) =~= text@);
                return Err(to_string(&message));
            }
        }
        if result.path.is_some() {
            return Err(String::from_str("expected one path; quote paths containing spaces"));
        }
        result.path = Some(crate::model::copy_bytes(a));
        positional = true;
        i = i + 1;
    }
    Ok(result)
}

} // verus!
