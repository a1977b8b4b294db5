//! The commands of the package manager: what is run, and how a command that
//! was run can end.

use vstd::prelude::*;

verus! {

/// How a command ended.
#[derive(Debug, Clone, Copy, PartialEq, Eq)]
pub enum Invocation {
    /// The command could not be started.
    NotStarted,
    /// The command ran to its end; `success` tells whether its exit status
    /// reports success.
    Ended { success: bool },
}

impl Invocation {
    /// The command ran and reported success. Everything else is a failure:
    /// a command that could not be started as well as one that ended with
    /// another exit status.
    pub open spec fn is_success(self) -> bool {
        self == (Invocation::Ended { success: true })
    }

    /// Tells whether the command ran and reported success.
    pub fn succeeded(&self) -> (success: bool)
        ensures
            success == self.is_success(),
    {
        match self {
            Invocation::Ended { success } => *success,
            Invocation::NotStarted => false,
        }
    }
}

/// The arguments of the command that updates the package with this
/// identifier: the update itself, without questions, and with both
/// agreements accepted beforehand.
pub open spec fn update_command(id: Seq<char>) -> Seq<Seq<char>> {
    seq![
        "update"@,
        "-q"@,
        id,
        "--accept-package-agreements"@,
        "--accept-source-agreements"@,
    ]
}

/// The program that lists and installs the updates.
pub fn package_manager() -> (program: String)
    ensures
        program@ == "winget"@,
{
    "winget".to_owned()
}

/// The arguments with which the package manager lists the pending upgrades.
pub fn listing_arguments() -> (arguments: Vec<String>)
    ensures
        arguments.deep_view() == seq!["upgrade"@],
{
    let mut arguments: Vec<String> = Vec::new();
    arguments.push("upgrade".to_owned());
    assert(arguments.deep_view() =~= seq!["upgrade"@]);
    arguments
}

/// The arguments with which the package manager updates the package with
/// this identifier. The identifier is the target of the command; the name of
/// the package plays no part in it.
pub fn update_arguments(id: &str) -> (arguments: Vec<String>)
    ensures
        arguments.deep_view() == update_command(id@),
        arguments.len() == 5,
        arguments[2]@ == id@,
{
    let mut arguments: Vec<String> = Vec::new();
    arguments.push("update".to_owned());
    arguments.push("-q".to_owned());
    arguments.push(id.to_owned());
    arguments.push("--accept-package-agreements".to_owned());
    arguments.push("--accept-source-agreements".to_owned());
    assert(arguments.deep_view() =~= update_command(id@));
    arguments
}

} // verus!
