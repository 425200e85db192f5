//! Which input a source name denotes.
use vstd::prelude::*;
use vstd::string::StringSliceAdditionalSpecFns;

verus! {

/// An input of the command: standard input, or a file by its path.
#[derive(Debug, Clone, PartialEq, Eq)]
pub enum Source {
    StandardInput,
    NamedFile(String),
}

/// The name `-`, which denotes standard input.
pub open spec fn is_stdin_name(name: Seq<u8>) -> bool {
    name == seq![45u8]
}

/// The source that a name denotes: `-` is standard input, any other name
/// is the path of a file.
pub fn source_of(name: &str) -> (r: Source)
    ensures
        is_stdin_name(name.spec_bytes()) <==> r is StandardInput,
        r matches Source::NamedFile(p) ==> p@ == name@,
{
    let b = name.as_bytes();
    if b.len() == 1 && b[0] == 45u8 {
        assert(b@ =~= seq![45u8]);
        Source::StandardInput
    } else {
        Source::NamedFile(name.to_owned())
    }
}

} // verus!
