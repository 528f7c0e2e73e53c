use crate::artifact::{artifact_key, key_of, BytecodeObject, BytecodeView, CompiledContract, ContractView};
use crate::index::{distinct_keys, ArtifactIndex, EntryView};
use crate::keys::{source_file, source_file_of};
use vstd::prelude::*;
use vstd::string::*;

verus! {

/// Why no contract was selected.
#[derive(Debug, Clone, Copy, PartialEq, Eq, Structural)]
pub enum TargetError {
    /// More than one contract fits: the contract's name has to be given.
    Ambiguous,
    /// No contract fits.
    NotFound,
}

/// What a target error says to the user.
pub open spec fn target_error_text(error: TargetError) -> Seq<char> {
    match error {
        TargetError::Ambiguous => "Multiple contracts in the target path. Please specify the contract name with `-t ContractName`"@,
        TargetError::NotFound => "No contract to run in the target path"@,
    }
}

impl TargetError {
    /// What the error says to the user.
    pub fn message(&self) -> (text: String)
        ensures
            text@ == target_error_text(*self),
    {
        match self {
            TargetError::Ambiguous => String::from_str(
                "Multiple contracts in the target path. Please specify the contract name with `-t ContractName`",
            ),
            TargetError::NotFound => String::from_str("No contract to run in the target path"),
        }
    }
}

/// A contract that can be deployed and called: it has an interface, creation
/// code and runtime code, and its creation code is not the empty code of an
/// abstract contract or an interface.
pub open spec fn runnable(contract: ContractView) -> bool {
    &&& contract.abi is Some
    &&& contract.deployed_bytecode is Some
    &&& match contract.bytecode {
        Some(BytecodeView::Linked(code)) => code.len() > 0,
        Some(BytecodeView::Unlinked { .. }) => true,
        None => false,
    }
}

impl CompiledContract {
    /// Whether the contract can be deployed and called.
    pub fn is_runnable(&self) -> (yes: bool)
        ensures
            yes == runnable(self@),
    {
        if self.abi.is_none() || self.deployed_bytecode.is_none() {
            return false;
        }
        match &self.bytecode {
            Some(BytecodeObject::Linked(code)) => code.len() > 0,
            Some(BytecodeObject::Unlinked { .. }) => true,
            None => false,
        }
    }
}

/// Whether the contract at place `i` fits what the user asked for: it is
/// runnable, and it goes by `path:name` where a name is given, or else its
/// source file is `path`.
pub open spec fn is_candidate(
    index: Seq<EntryView>,
    path: Seq<char>,
    name: Option<Seq<char>>,
    i: int,
) -> bool {
    &&& 0 <= i < index.len()
    &&& runnable(index[i].contract)
    &&& match name {
        Some(name) => index[i].key == key_of(path, name),
        None => source_file(index[i].key) == path,
    }
}

/// The contract at place `p` fits, and no other does.
pub open spec fn only_candidate(
    index: Seq<EntryView>,
    path: Seq<char>,
    name: Option<Seq<char>>,
    p: int,
) -> bool {
    &&& is_candidate(index, path, name, p)
    &&& forall|j: int| is_candidate(index, path, name, j) ==> j == p
}

/// No contract fits.
pub open spec fn no_candidate(index: Seq<EntryView>, path: Seq<char>, name: Option<Seq<char>>) -> bool {
    forall|j: int| !is_candidate(index, path, name, j)
}

/// Two contracts fit.
pub open spec fn two_candidates(index: Seq<EntryView>, path: Seq<char>, name: Option<Seq<char>>) -> bool {
    exists|i: int, j: int|
        i != j && is_candidate(index, path, name, i) && is_candidate(index, path, name, j)
}

/// What the outcome of a selection says of the index.
pub open spec fn target_is(
    index: Seq<EntryView>,
    path: Seq<char>,
    name: Option<Seq<char>>,
    outcome: Result<usize, TargetError>,
) -> bool {
    match outcome {
        Ok(p) => only_candidate(index, path, name, p as int),
        Err(TargetError::NotFound) => no_candidate(index, path, name),
        Err(TargetError::Ambiguous) => two_candidates(index, path, name),
    }
}

/// The view of an optional name.
pub open spec fn name_view(name: &Option<String>) -> Option<Seq<char>> {
    match name {
        Some(name) => Some(name@),
        None => None,
    }
}

/// Selects the one contract to run: the runnable contract that goes by
/// `path:name`, or, where no name is given, the runnable contract of the
/// source file `path`. That none fits, and that more than one does, are
/// errors.
pub fn resolve_target(index: &ArtifactIndex, path: &String, name: &Option<String>) -> (outcome: Result<
    usize,
    TargetError,
>)
    ensures
        target_is(index@, path@, name_view(name), outcome),
        outcome matches Ok(p) ==> p < index@.len(),
{
    let wanted: Option<String> = match name {
        Some(name) => Some(artifact_key(path.as_str(), name.as_str())),
        None => None,
    };
    let ghost asked = name_view(name);
    let mut found: Option<usize> = None;
    let mut i: usize = 0;
    while i < index.entries.len()
        invariant
            i <= index.entries.len(),
            asked == name_view(name),
            match (wanted, name) {
                (Some(key), Some(name)) => key@ == key_of(path@, name@),
                (None, None) => true,
                _ => false,
            },
            match found {
                Some(p) => p < i && is_candidate(index@, path@, asked, p as int) && forall|j: int|
                    0 <= j < i && is_candidate(index@, path@, asked, j) ==> j == p,
                None => forall|j: int| 0 <= j < i ==> !is_candidate(index@, path@, asked, j),
            },
        decreases index.entries.len() - i,
    {
        let entry = &index.entries[i];
        assert(index@[i as int] == entry@);
        let fits = entry.contract.is_runnable() && match &wanted {
            Some(key) => entry.key == *key,
            None => {
                let file = source_file_of(entry.key.as_str());
                file == *path
            },
        };
        assert(fits == is_candidate(index@, path@, asked, i as int));
        if fits {
            match found {
                Some(p) => {
                    assert(two_candidates(index@, path@, asked)) by {
                        assert(is_candidate(index@, path@, asked, p as int));
                        assert(is_candidate(index@, path@, asked, i as int));
                    }
                    return Err(TargetError::Ambiguous);
                },
                None => {
                    found = Some(i);
                },
            }
        }
        i += 1;
    }
    match found {
        Some(p) => Ok(p),
        None => Err(TargetError::NotFound),
    }
}

/// In an index whose names are distinct, a contract asked for by name is
/// never one of two.
pub proof fn lemma_named_target_is_single(index: Seq<EntryView>, path: Seq<char>, name: Seq<char>)
    requires
        distinct_keys(index),
    ensures
        !two_candidates(index, path, Some(name)),
{
}

} // verus!
