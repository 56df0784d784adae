//! Privileged package operations, as commands for the caller to run, and
//! their outcomes.

use vstd::prelude::*;

use crate::package::Package;
use crate::server::Server;
use crate::text::string_views;

verus! {

/// A program and its arguments, to be run without a shell.
pub struct ExternalCommand {
    pub program: String,
    pub args: Vec<String>,
}

/// How an operation ended: whether it succeeded, and the text to show.
pub struct Outcome {
    pub success: bool,
    pub message: String,
}

/// The command runs `pkexec pacman` with `args`.
pub open spec fn runs_pacman(c: ExternalCommand, args: Seq<Seq<char>>) -> bool {
    c.program@ == "pkexec"@ && string_views(c.args@) == seq!["pacman"@] + args
}

/// The message of an operation refused for want of a package name.
pub open spec fn missing_name_message() -> Seq<char> {
    "no package name was given"@
}

fn pacman_command(args: Vec<String>) -> (r: ExternalCommand)
    ensures
        runs_pacman(r, string_views(args@)),
{
    let mut all: Vec<String> = Vec::new();
    all.push(String::from_str("pacman"));
    let mut i: usize = 0;
    while i < args.len()
        invariant
            i <= args@.len(),
            string_views(all@) == seq!["pacman"@] + string_views(args@).take(i as int),
        decreases args@.len() - i,
    {
        let ghost before = all@;
        all.push(args[i].clone());
        assert(string_views(all@) =~= string_views(before).push(args@[i as int]@));
        assert(string_views(args@).take(i + 1) =~= string_views(args@).take(i as int).push(args@[i as int]@));
        i = i + 1;
    }
    assert(string_views(args@).take(i as int) =~= string_views(args@));
    ExternalCommand { program: String::from_str("pkexec"), args: all }
}

/// The command `pkexec pacman <flag> <name> --noconfirm`, or a failed
/// outcome when the name is empty.
fn package_command(flag: &str, name: String) -> (r: Result<ExternalCommand, Outcome>)
    ensures
        r is Err <==> name@.len() == 0,
        r matches Ok(c) ==> runs_pacman(c, seq![flag@, name@, "--noconfirm"@]),
        r matches Err(o) ==> !o.success && o.message@ == missing_name_message(),
{
    if name.as_str().unicode_len() == 0 {
        return Err(Outcome { success: false, message: String::from_str("no package name was given") });
    }
    let mut args: Vec<String> = Vec::new();
    args.push(String::from_str(flag));
    args.push(name);
    args.push(String::from_str("--noconfirm"));
    let ghost a = args@;
    assert(string_views(a) =~= seq![flag@, a[1]@, "--noconfirm"@]);
    Ok(pacman_command(args))
}

impl Package {
    /// The command that installs or updates the package `name`; an empty
    /// name gives a failed outcome and no command.
    pub fn install_or_update(name: String) -> (r: Result<ExternalCommand, Outcome>)
        ensures
            r is Err <==> name@.len() == 0,
            r matches Ok(c) ==> runs_pacman(c, seq!["-Syy"@, name@, "--noconfirm"@]),
            r matches Err(o) ==> !o.success && o.message@ == missing_name_message(),
    {
        package_command("-Syy", name)
    }

    /// The command that removes the package `name`; an empty name gives a
    /// failed outcome and no command.
    pub fn uninstall(name: String) -> (r: Result<ExternalCommand, Outcome>)
        ensures
            r is Err <==> name@.len() == 0,
            r matches Ok(c) ==> runs_pacman(c, seq!["-R"@, name@, "--noconfirm"@]),
            r matches Err(o) ==> !o.success && o.message@ == missing_name_message(),
    {
        package_command("-R", name)
    }
}

impl Server {
    /// The command that updates the whole system.
    pub fn system_update() -> (r: ExternalCommand)
        ensures
            runs_pacman(r, seq!["-Syu"@, "--noconfirm"@]),
    {
        let mut args: Vec<String> = Vec::new();
        args.push(String::from_str("-Syu"));
        args.push(String::from_str("--noconfirm"));
        assert(string_views(args@) =~= seq!["-Syu"@, "--noconfirm"@]);
        pacman_command(args)
    }
}

impl Outcome {
    /// The outcome of a command from what it wrote to standard error: empty
    /// means success, anything else is the failure message.
    pub fn from_stderr(stderr: String) -> (r: Outcome)
        ensures
            r.success == (stderr@.len() == 0),
            r.message@ == stderr@,
    {
        let success = stderr.as_str().unicode_len() == 0;
        Outcome { success, message: stderr }
    }
}

} // verus!
