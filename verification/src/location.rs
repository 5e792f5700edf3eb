//! The source position of an instruction.

use crate::ir::{DebugLocationView, Instruction, InstructionView};
use vstd::prelude::*;
use vstd::string::*;

verus! {

/// The final component of a path, where it has one, as
/// `std::path::Path::file_name` finds it by the path rules of the platform
/// that the library is built for.
pub uninterp spec fn final_component(path: Seq<char>) -> Option<Seq<char>>;

/// The name that stands for a file whose path has no final component.
pub open spec fn placeholder() -> Seq<char> {
    seq!['b', 'l', 'a', 'n', 'k']
}

/// The final component where there is one, else the placeholder.
pub open spec fn component_or_placeholder(component: Option<Seq<char>>) -> Seq<char> {
    match component {
        Some(name) => name,
        None => placeholder(),
    }
}

/// The name of a file without its directories.
pub open spec fn base_name(path: Seq<char>) -> Seq<char> {
    component_or_placeholder(final_component(path))
}

/// The line and the file name of a debug location. There is none where the
/// location lies in no scope, or its scope in no file.
pub open spec fn position_of_location(location: DebugLocationView) -> Option<(u32, Seq<char>)> {
    match location.scope {
        Some(scope) => match scope.file {
            Some(path) => Some((location.line, base_name(path))),
            None => None,
        },
        None => None,
    }
}

/// The line and the file name that an instruction comes from, where its
/// debug location tells both.
pub open spec fn source_position(instruction: InstructionView) -> Option<(u32, Seq<char>)> {
    match instruction.location {
        Some(location) => position_of_location(location),
        None => None,
    }
}

/// Calls `std::path::Path::file_name` on `path` and hands back the component
/// as a string. The contract only gives the outcome its name: nothing is
/// claimed of how the path is taken apart. The path is valid UTF-8, so the
/// component is too, and turning it into a string changes nothing.
#[verifier::external_body]
fn path_file_name(path: &str) -> (name: Option<String>)
    ensures
        name.deep_view() == final_component(path@),
{
    match std::path::Path::new(path).file_name() {
        Some(name) => Some(name.to_string_lossy().into_owned()),
        None => None,
    }
}

/// The file name to print for a path whose final component is `component`:
/// the component itself, or `blank` where the path has none.
pub fn file_name_or_placeholder(component: Option<String>) -> (name: String)
    ensures
        name@ == component_or_placeholder(component.deep_view()),
{
    match component {
        Some(name) => name,
        None => {
            proof {
                reveal_strlit("blank");
            }
            let name = String::from_str("blank");
            assert(name@ =~= placeholder());
            name
        },
    }
}

/// The source line of `instruction` and the name of its file, without the
/// directories. There is no answer where the instruction has no debug
/// location, where the location has no scope, or where the scope has no
/// file.
pub fn get_instruction_line_and_file(instruction: &Instruction) -> (found: Option<(u32, String)>)
    ensures
        match found {
            Some((line, file)) => source_position(instruction@) == Some((line, file@)),
            None => source_position(instruction@) is None,
        },
{
    match &instruction.location {
        None => None,
        Some(location) => match &location.scope {
            None => None,
            Some(scope) => match &scope.file {
                None => None,
                Some(path) => {
                    let component = path_file_name(path.as_str());
                    Some((location.line, file_name_or_placeholder(component)))
                },
            },
        },
    }
}

} // verus!
