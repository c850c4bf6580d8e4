//! Connection records, command-line options, and the tool invocation built
//! from them.

use vstd::prelude::*;
use vstd::string::StringExecFns;

verus! {

/// The credentials of one management endpoint.
#[derive(Debug)]
pub struct Host {
    pub ip: String,
    pub user: String,
    pub pswd: String,
}

/// What a `Host` is in contracts: its three fields as character sequences.
pub struct HostView {
    pub ip: Seq<char>,
    pub user: Seq<char>,
    pub pswd: Seq<char>,
}

impl View for Host {
    type V = HostView;

    open spec fn view(&self) -> HostView {
        HostView { ip: self.ip@, user: self.user@, pswd: self.pswd@ }
    }
}

/// The record-management subcommands.
#[derive(Debug)]
pub enum HostCommand {
    List,
    Add { host: Host },
    Del { id: i64 },
    Use { id: i64 },
}

/// The top-level subcommand group.
#[derive(Debug)]
pub enum Command {
    Host { cmd: HostCommand },
}

/// The parsed command line: an optional subcommand, overrides for the
/// connection, and the arguments handed through to the tool.
#[derive(Debug)]
pub struct Opts {
    pub cmd: Option<Command>,
    pub interface: Option<String>,
    pub ip: Option<String>,
    pub user: Option<String>,
    pub pswd: Option<String>,
    pub ipmitool_args: Vec<String>,
}

/// The override if there is one, else the fallback.
pub open spec fn chosen(over: Option<String>, fallback: Seq<char>) -> Seq<char> {
    match over {
        Some(s) => s@,
        None => fallback,
    }
}

/// Every argument preceded by one space, in order.
pub open spec fn trailing(args: Seq<String>) -> Seq<char>
    decreases args.len(),
{
    if args.len() == 0 {
        Seq::empty()
    } else {
        trailing(args.drop_last()) + seq![' '] + args.last()@
    }
}

/// The invocation string: the tool's name, the four connection flags, each
/// taken from the override where one is given and else from the record (the
/// interface falls back to `lanplus`), then the trailing arguments.
pub open spec fn invocation(host: HostView, opt: Opts) -> Seq<char> {
    "ipmitool -I "@ + chosen(opt.interface, "lanplus"@) + " -H "@ + chosen(opt.ip, host.ip)
        + " -U "@ + chosen(opt.user, host.user) + " -P "@ + chosen(opt.pswd, host.pswd)
        + trailing(opt.ipmitool_args@)
}

fn append_chosen(out: &mut String, over: &Option<String>, fallback: &str)
    ensures
        final(out)@ == old(out)@ + chosen(*over, fallback@),
{
    match over {
        Some(s) => out.append(s.as_str()),
        None => out.append(fallback),
    }
}

/// The file name of the store: the one asked for, else the usual one.
pub open spec fn database_name(db: Option<&str>) -> Seq<char> {
    match db {
        Some(name) => name@,
        None => ".ipmi.db"@,
    }
}

impl Host {
    /// The name of the file, under the user's home directory, that holds
    /// the registry.
    pub fn database(db: Option<&str>) -> (name: String)
        ensures
            name@ == database_name(db),
    {
        match db {
            Some(name) => String::from_str(name),
            None => String::from_str(".ipmi.db"),
        }
    }

    /// Builds the tool invocation for this record under the given options.
    pub fn with_args(&self, opt: &Opts) -> (line: String)
        ensures
            line@ == invocation(self@, *opt),
    {
        let mut line = String::from_str("ipmitool -I ");
        append_chosen(&mut line, &opt.interface, "lanplus");
        line.append(" -H ");
        append_chosen(&mut line, &opt.ip, self.ip.as_str());
        line.append(" -U ");
        append_chosen(&mut line, &opt.user, self.user.as_str());
        line.append(" -P ");
        append_chosen(&mut line, &opt.pswd, self.pswd.as_str());
        let ghost head = line@;
        let n = opt.ipmitool_args.len();
        let mut i: usize = 0;
        while i < n
            invariant
                i <= n,
                n == opt.ipmitool_args@.len(),
                line@ == head + trailing(opt.ipmitool_args@.take(i as int)),
            decreases n - i,
        {
            proof {
                let next = opt.ipmitool_args@.take(i + 1);
                assert(next.drop_last() =~= opt.ipmitool_args@.take(i as int));
                assert(next.last() == opt.ipmitool_args@[i as int]);
            }
            line.append(" ");
            line.append(opt.ipmitool_args[i].as_str());
            proof {
                reveal_strlit(" ");
                assert(" "@ =~= seq![' ']);
            }
            i += 1;
        }
        proof {
            assert(opt.ipmitool_args@.take(n as int) =~= opt.ipmitool_args@);
        }
        line
    }
}

} // verus!
