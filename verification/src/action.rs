//! What a task does on its machine, and the names that go with it: the
//! shell command of an action, and the local name of a file that was
//! fetched from a machine.

use crate::grid::{has_label, label, spec_label, Coordinate};
use crate::text::push_char;
use vstd::prelude::*;
use vstd::string::*;

verus! {

/// What is dispatched to every selected machine.
#[derive(Clone, Debug, PartialEq, Eq)]
pub enum Action {
    /// Run a shell command.
    RunCommand(String),
    /// Open a page in the browser of the machine's display.
    OpenPage(String),
    /// Copy a local file to the machine.
    SendFile(String),
    /// Copy a file of the machine to a local one.
    ReceiveFile(String),
}

impl Action {
    /// The shell command that the action runs on the machine, if it runs
    /// one.
    pub open spec fn spec_command(&self) -> Option<Seq<char>> {
        match self {
            Action::RunCommand(command) => Some(command@),
            Action::OpenPage(url) => Some("DISPLAY=\":0\" firefox \""@ + url@ + "\""@),
            _ => None,
        }
    }

    /// The shell command that the action runs on the machine, if it runs
    /// one: the command itself, or the call of the browser on a page.
    pub fn command(&self) -> (command: Option<String>)
        ensures
            match command {
                Some(text) => self.spec_command() == Some(text@),
                None => self.spec_command() is None,
            },
    {
        match self {
            Action::RunCommand(command) => Some(command.clone()),
            Action::OpenPage(url) => {
                let mut text = "DISPLAY=\":0\" firefox \"".to_owned();
                text.append(url.as_str());
                text.append("\"");
                Some(text)
            },
            _ => None,
        }
    }
}

/// The local name of a file fetched from a machine: the stem, an
/// underscore, the label of the machine, a dot, the extension.
pub open spec fn spec_local_name(
    stem: Seq<char>,
    extension: Seq<char>,
    coordinate: Coordinate,
) -> Seq<char> {
    stem + seq!['_'] + spec_label(coordinate) + seq!['.'] + extension
}

/// The local name of a file fetched from the machine at `coordinate`, from
/// the stem and the extension of its name there.
pub fn local_file_name(stem: &str, extension: &str, coordinate: Coordinate) -> (name: String)
    requires
        has_label(coordinate),
    ensures
        name@ == spec_local_name(stem@, extension@, coordinate),
{
    let mut name = stem.to_owned();
    push_char(&mut name, '_');
    let machine = label(coordinate);
    name.append(machine.as_str());
    push_char(&mut name, '.');
    name.append(extension);
    proof {
        assert(name@ =~= spec_local_name(stem@, extension@, coordinate));
    }
    name
}

} // verus!
