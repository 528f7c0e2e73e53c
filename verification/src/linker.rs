use crate::address::Address;
use crate::artifact::{copy_bytes, placeholder_views, BytecodeObject};
use crate::decimal::{decimal, to_decimal};
use crate::index::{lemma_position_found, position, ArtifactIndex};
use crate::link_laws::{lemma_link_contract, lemma_planned_unique, well_linked};
use crate::link_model::{
    link_code, link_contract, link_key, link_node, planned, resolve, write_address,
    DependencyView, LinkContext, LinkErrorView, LinkedView, ADDRESS_LEN,
};
use crate::link_tree::{link_tree, link_tree_of, reference_views, LinkTree};
use vstd::prelude::*;
use vstd::string::*;

verus! {

/// One library of a deployment plan.
pub struct Dependency {
    /// The qualified name of the library.
    pub key: String,
    /// The address that the library gets.
    pub address: Address,
    /// The code that creates it, every address written in.
    pub bytecode: Vec<u8>,
}

impl View for Dependency {
    type V = DependencyView;

    open spec fn view(&self) -> DependencyView {
        DependencyView { key: self.key@, address: self.address@, code: self.bytecode@ }
    }
}

/// The views of the libraries of a plan, in order.
pub open spec fn dependency_views(deps: Seq<Dependency>) -> Seq<DependencyView> {
    deps.map_values(|d: Dependency| d@)
}

/// Why a contract could not be linked.
#[derive(Debug)]
pub enum LinkError {
    /// No contract goes by the name that a placeholder asks for.
    MissingArtifact { key: String },
    /// The contract lacks its creation code or its runtime code.
    MissingBytecode { key: String },
    /// The library is asked for while it is itself being linked.
    Cycle { key: String },
    /// The twenty bytes from `offset` on do not lie inside the code of `key`.
    PlaceholderOutOfRange { key: String, offset: usize },
}

impl View for LinkError {
    type V = LinkErrorView;

    open spec fn view(&self) -> LinkErrorView {
        match self {
            LinkError::MissingArtifact { key } => LinkErrorView::MissingArtifact { key: key@ },
            LinkError::MissingBytecode { key } => LinkErrorView::MissingBytecode { key: key@ },
            LinkError::Cycle { key } => LinkErrorView::Cycle { key: key@ },
            LinkError::PlaceholderOutOfRange { key, offset } => {
                LinkErrorView::PlaceholderOutOfRange { key: key@, offset: *offset }
            },
        }
    }
}

/// What a link error says to the user.
pub open spec fn link_error_text(error: LinkErrorView) -> Seq<char> {
    match error {
        LinkErrorView::MissingArtifact { key } => "No contract found for library "@ + key,
        LinkErrorView::MissingBytecode { key } => "No bytecode for contract "@ + key,
        LinkErrorView::Cycle { key } => "Library links to itself: "@ + key,
        LinkErrorView::PlaceholderOutOfRange { key, offset } => "Placeholder outside the code of "@
            + key + " at offset "@ + decimal(offset as nat),
    }
}

impl LinkError {
    /// What the error says to the user.
    pub fn message(&self) -> (text: String)
        ensures
            text@ == link_error_text(self@),
    {
        match self {
            LinkError::MissingArtifact { key } => {
                let mut text = String::from_str("No contract found for library ");
                text.append(key.as_str());
                text
            },
            LinkError::MissingBytecode { key } => {
                let mut text = String::from_str("No bytecode for contract ");
                text.append(key.as_str());
                text
            },
            LinkError::Cycle { key } => {
                let mut text = String::from_str("Library links to itself: ");
                text.append(key.as_str());
                text
            },
            LinkError::PlaceholderOutOfRange { key, offset } => {
                let mut text = String::from_str("Placeholder outside the code of ");
                text.append(key.as_str());
                text.append(" at offset ");
                text.append(to_decimal(*offset as u64).as_str());
                text
            },
        }
    }
}

/// A linked contract: the libraries to deploy first, in order, its creation
/// code with every address written in, and its runtime code: linked too,
/// unless the contract needed no linking and came with unlinked runtime
/// code.
pub struct Linked {
    pub dependencies: Vec<Dependency>,
    pub bytecode: Vec<u8>,
    pub deployed_bytecode: BytecodeObject,
}

impl View for Linked {
    type V = LinkedView;

    open spec fn view(&self) -> LinkedView {
        LinkedView {
            dependencies: dependency_views(self.dependencies@),
            bytecode: self.bytecode@,
            deployed_bytecode: self.deployed_bytecode@,
        }
    }
}

/// What the index, the sender and the first nonce of a build stand for.
pub open spec fn context(index: &ArtifactIndex, sender: &Address, nonce: u64) -> LinkContext {
    LinkContext { index: index@, sender: sender@, nonce: nonce as int }
}

/// The places on a path, as numbers.
pub open spec fn path_view(path: Seq<usize>) -> Seq<int> {
    path.map_values(|p: usize| p as int)
}

/// What the outcome of resolving one library stands for.
pub open spec fn resolved_view(
    outcome: Result<(Vec<Dependency>, Address), LinkError>,
) -> Result<(Seq<DependencyView>, Seq<u8>), LinkErrorView> {
    match outcome {
        Ok((deps, address)) => Ok((dependency_views(deps@), address@)),
        Err(e) => Err(e@),
    }
}

/// What the outcome of linking one code stands for.
pub open spec fn code_view(
    outcome: Result<(Vec<Dependency>, Vec<u8>), LinkError>,
) -> Result<(Seq<DependencyView>, Seq<u8>), LinkErrorView> {
    match outcome {
        Ok((deps, code)) => Ok((dependency_views(deps@), code@)),
        Err(e) => Err(e@),
    }
}

/// What the outcome of linking one contract stands for.
pub open spec fn linked_view(outcome: Result<Linked, LinkError>) -> Result<
    LinkedView,
    LinkErrorView,
> {
    match outcome {
        Ok(linked) => Ok(linked@),
        Err(e) => Err(e@),
    }
}

/// Writes `address` over the twenty bytes of `code` that start at `offset`.
/// Code too short for them is left as it is, and the answer is `false`.
pub fn patch(code: &mut Vec<u8>, offset: usize, address: &Address) -> (patched: bool)
    ensures
        patched == (offset + ADDRESS_LEN <= old(code)@.len()),
        patched ==> final(code)@ == write_address(old(code)@, offset as int, address@),
        !patched ==> final(code)@ == old(code)@,
{
    if code.len() < ADDRESS_LEN || offset > code.len() - ADDRESS_LEN {
        return false;
    }
    let ghost before = code@;
    let mut k: usize = 0;
    while k < ADDRESS_LEN
        invariant
            k <= ADDRESS_LEN,
            offset + ADDRESS_LEN <= before.len() <= usize::MAX,
            code@.len() == before.len(),
            forall|i: int|
                0 <= i < before.len() ==> code@[i] == if offset <= i < offset + k {
                    address@[i - offset]
                } else {
                    before[i]
                },
        decreases ADDRESS_LEN - k,
    {
        code.set(offset + k, address.bytes[k]);
        k += 1;
    }
    assert(code@ =~= write_address(before, offset as int, address@));
    true
}

/// The place in the plan of the library that goes by `key`.
pub fn find_planned(deps: &Vec<Dependency>, key: &String) -> (found: Option<usize>)
    ensures
        match found {
            Some(i) => planned(dependency_views(deps@), key@) == Some(i as int),
            None => planned(dependency_views(deps@), key@) is None,
        },
{
    let ghost plan = dependency_views(deps@);
    let mut i: usize = 0;
    while i < deps.len()
        invariant
            i <= deps.len(),
            plan == dependency_views(deps@),
            forall|j: int| 0 <= j < i ==> plan[j].key != key@,
        decreases deps.len() - i,
    {
        if deps[i].key == *key {
            proof {
                lemma_planned_unique(plan, key@, i as int);
            }
            return Some(i);
        }
        i += 1;
    }
    None
}

/// Whether the place `p` lies on `path`.
fn on_path(path: &Vec<usize>, p: usize) -> (found: bool)
    ensures
        found == path_view(path@).contains(p as int),
{
    let mut i: usize = 0;
    while i < path.len()
        invariant
            i <= path.len(),
            forall|j: int| 0 <= j < i ==> path@[j] != p,
        decreases path.len() - i,
    {
        if path[i] == p {
            assert(path_view(path@)[i as int] == p as int);
            return true;
        }
        i += 1;
    }
    assert forall|j: int| 0 <= j < path_view(path@).len() implies path_view(path@)[j] != p as int by {
        assert(path@[j] != p);
    }
    false
}

/// `path` with `p` behind it.
fn extend_path(path: &Vec<usize>, p: usize) -> (longer: Vec<usize>)
    ensures
        longer@ == path@.push(p),
{
    let mut longer: Vec<usize> = Vec::new();
    let mut i: usize = 0;
    while i < path.len()
        invariant
            i <= path.len(),
            longer@ == path@.subrange(0, i as int),
        decreases path.len() - i,
    {
        longer.push(path[i]);
        assert(longer@ =~= path@.subrange(0, i + 1));
        i += 1;
    }
    longer.push(p);
    assert(longer@ =~= path@.push(p));
    longer
}

/// Resolves the library `key`: its address from the plan, or, if the plan
/// lacks it, the library linked and put behind the plan.
fn resolve_library(
    index: &ArtifactIndex,
    tree: &LinkTree,
    sender: &Address,
    nonce: u64,
    key: &String,
    path: &Vec<usize>,
    deps: Vec<Dependency>,
) -> (outcome: Result<(Vec<Dependency>, Address), LinkError>)
    requires
        tree@ == link_tree_of(index@),
    ensures
        resolved_view(outcome) == resolve(
            context(index, sender, nonce),
            key@,
            path_view(path@),
            dependency_views(deps@),
        ),
    decreases index@.len() - path@.len(), 0int, 0int,
{
    let ghost cx = context(index, sender, nonce);
    if let Some(d) = find_planned(&deps, key) {
        let address = deps[d].address;
        return Ok((deps, address));
    }
    match index.position(key) {
        None => Err(LinkError::MissingArtifact { key: key.clone() }),
        Some(p) => {
            proof {
                lemma_position_found(index@, key@);
            }
            if on_path(path, p) || path.len() >= index.len() {
                return Err(LinkError::Cycle { key: key.clone() });
            }
            let longer = extend_path(path, p);
            assert(path_view(longer@) =~= path_view(path@).push(p as int));
            match link_at(index, tree, sender, nonce, p, &longer, deps) {
                Err(e) => Err(e),
                Ok(linked) => {
                    let Linked { dependencies: mut plan, bytecode, deployed_bytecode: _ } = linked;
                    let ghost before = dependency_views(plan@);
                    let address = sender.created_with(nonce as u128 + plan.len() as u128);
                    let library = Dependency { key: key.clone(), address, bytecode };
                    plan.push(library);
                    assert(dependency_views(plan@) =~= before.push(library@));
                    Ok((plan, address))
                },
            }
        },
    }
}

/// Links the contract at place `p`: its creation code, then its runtime
/// code; or hands it back as it is where its creation code is linked.
fn link_at(
    index: &ArtifactIndex,
    tree: &LinkTree,
    sender: &Address,
    nonce: u64,
    p: usize,
    path: &Vec<usize>,
    deps: Vec<Dependency>,
) -> (outcome: Result<Linked, LinkError>)
    requires
        p < index@.len(),
        tree@ == link_tree_of(index@),
    ensures
        linked_view(outcome) == link_node(
            context(index, sender, nonce),
            p as int,
            path_view(path@),
            dependency_views(deps@),
        ),
    decreases index@.len() - path@.len(), 2int, 0int,
{
    let entry = &index.entries[p];
    assert(index@[p as int] == entry@);
    match (&entry.contract.bytecode, &entry.contract.deployed_bytecode) {
        (Some(BytecodeObject::Linked(code)), Some(runtime)) => Ok(
            Linked {
                dependencies: deps,
                bytecode: copy_bytes(code),
                deployed_bytecode: runtime.clone(),
            },
        ),
        (Some(creation), Some(runtime)) => {
            let behind = creation.placeholder_count();
            proof {
                let first = creation@.placeholders();
                let second = runtime@.placeholders();
                assert(entry@.contract.references() == first + second);
                assert forall|i: int| 0 <= i < first.len() implies tree@[p as int][i].key
                    == first[i].key() by {
                    assert((first + second)[i] == first[i]);
                }
                assert forall|i: int| 0 <= i < second.len() implies tree@[p as int][behind + i].key
                    == second[i].key() by {
                    assert((first + second)[behind + i] == second[i]);
                }
            }
            match link_object(index, tree, sender, nonce, p, 0, creation, path, deps) {
                Err(e) => Err(e),
                Ok((deps1, bytecode)) => {
                    match link_object(index, tree, sender, nonce, p, behind, runtime, path, deps1) {
                        Err(e) => Err(e),
                        Ok((deps2, deployed_bytecode)) => Ok(
                            Linked {
                                dependencies: deps2,
                                bytecode,
                                deployed_bytecode: BytecodeObject::Linked(deployed_bytecode),
                            },
                        ),
                    }
                },
            }
        },
        _ => Err(LinkError::MissingBytecode { key: entry.key.clone() }),
    }
}

/// Fills the placeholders of `object`, one after the other.
fn link_object(
    index: &ArtifactIndex,
    tree: &LinkTree,
    sender: &Address,
    nonce: u64,
    p: usize,
    base: usize,
    object: &BytecodeObject,
    path: &Vec<usize>,
    deps: Vec<Dependency>,
) -> (outcome: Result<(Vec<Dependency>, Vec<u8>), LinkError>)
    requires
        p < index@.len(),
        tree@ == link_tree_of(index@),
        base + object@.placeholders().len() <= tree@[p as int].len(),
        forall|i: int|
            0 <= i < object@.placeholders().len() ==> tree@[p as int][base + i].key
                == object@.placeholders()[i].key(),
    ensures
        code_view(outcome) == link_code(
            context(index, sender, nonce),
            index@[p as int].key,
            object@.placeholders(),
            0,
            path_view(path@),
            dependency_views(deps@),
            object@.code(),
        ),
    decreases index@.len() - path@.len(), 1int, 0int,
{
    let ghost cx = context(index, sender, nonce);
    let owner = &index.entries[p].key;
    assert(tree.references@.len() == tree@.len());
    assert(link_tree_of(index@).len() == index@.len());
    let references = &tree.references[p];
    assert(owner@ == index@[p as int].key);
    assert(references@.len() == reference_views(references@).len());
    assert(references@.len() == references.len() <= usize::MAX);
    assert(reference_views(references@) == tree@[p as int]);
    match object {
        BytecodeObject::Linked(code) => Ok((deps, copy_bytes(code))),
        BytecodeObject::Unlinked { code, placeholders } => {
            let ghost start = dependency_views(deps@);
            let ghost model = link_code(
                cx,
                owner@,
                object@.placeholders(),
                0,
                path_view(path@),
                start,
                object@.code(),
            );
            let mut plan = deps;
            let mut linked = copy_bytes(code);
            let mut i: usize = 0;
            while i < placeholders.len()
                invariant
                    i <= placeholders.len(),
                    cx == context(index, sender, nonce),
                    start == dependency_views(deps@),
                    p < index@.len(),
                    tree@ == link_tree_of(index@),
                    owner@ == index@[p as int].key,
                    reference_views(references@) == tree@[p as int],
                    references@.len() == tree@[p as int].len(),
                    references@.len() <= usize::MAX,
                    base + object@.placeholders().len() <= tree@[p as int].len(),
                    forall|i: int|
                        0 <= i < object@.placeholders().len() ==> tree@[p as int][base + i].key
                            == object@.placeholders()[i].key(),
                    object@.placeholders() == placeholder_views(placeholders@),
                    model == link_code(
                        cx,
                        owner@,
                        object@.placeholders(),
                        0,
                        path_view(path@),
                        start,
                        object@.code(),
                    ),
                    model == link_code(
                        cx,
                        owner@,
                        object@.placeholders(),
                        i as int,
                        path_view(path@),
                        dependency_views(plan@),
                        linked@,
                    ),
                decreases placeholders.len() - i,
            {
                let placeholder = &placeholders[i];
                assert(object@.placeholders()[i as int] == placeholder@);
                assert(object@.placeholders().len() == placeholders@.len());
                assert(base + i < references@.len());
                let key = &references[base + i].key;
                assert(key@ == reference_views(references@)[base + i].key);
                match resolve_library(index, tree, sender, nonce, key, path, plan) {
                    Err(e) => {
                        return Err(e);
                    },
                    Ok((plan1, address)) => {
                        plan = plan1;
                        if !patch(&mut linked, placeholder.offset, &address) {
                            return Err(
                                LinkError::PlaceholderOutOfRange {
                                    key: owner.clone(),
                                    offset: placeholder.offset,
                                },
                            );
                        }
                    },
                }
                i += 1;
            }
            Ok((plan, linked))
        },
    }
}

/// Links the contract at place `p` of the index, from an empty plan: the
/// libraries it needs, each once and behind those it needs itself, with the
/// addresses that `sender` gives them from `nonce` on, and the contract's two
/// codes with those addresses written in. A contract whose creation code is
/// linked comes back at once, as it is and without libraries. `tree` is the
/// link tree of the index.
pub fn link_entry_with(
    index: &ArtifactIndex,
    tree: &LinkTree,
    p: usize,
    sender: &Address,
    nonce: u64,
) -> (outcome: Result<Linked, LinkError>)
    requires
        p < index@.len(),
        tree@ == link_tree_of(index@),
    ensures
        linked_view(outcome) == link_contract(context(index, sender, nonce), p as int),
        outcome matches Ok(linked) ==> well_linked(
            context(index, sender, nonce),
            p as int,
            linked@,
        ),
{
    let mut path: Vec<usize> = Vec::new();
    path.push(p);
    assert(path_view(path@) =~= seq![p as int]);
    let deps: Vec<Dependency> = Vec::new();
    assert(dependency_views(deps@) =~= Seq::<DependencyView>::empty());
    proof {
        lemma_link_contract(context(index, sender, nonce), p as int);
    }
    link_at(index, tree, sender, nonce, p, &path, deps)
}

/// Links the contract at place `p` of the index, from an empty plan: the
/// libraries it needs, each once and behind those it needs itself, with the
/// addresses that `sender` gives them from `nonce` on, and the contract's two
/// codes with those addresses written in. A contract whose creation code is
/// linked comes back at once, as it is and without libraries.
pub fn link_entry(index: &ArtifactIndex, p: usize, sender: &Address, nonce: u64) -> (outcome:
    Result<Linked, LinkError>)
    requires
        p < index@.len(),
    ensures
        linked_view(outcome) == link_contract(context(index, sender, nonce), p as int),
        outcome matches Ok(linked) ==> well_linked(
            context(index, sender, nonce),
            p as int,
            linked@,
        ),
{
    let tree = link_tree(index);
    link_entry_with(index, &tree, p, sender, nonce)
}

/// Links the contract that goes by `key`: resolves every library that its
/// code, or the code of a library that it needs, waits for, each once, and
/// writes their addresses into the code. The libraries come in the order in
/// which they are to be deployed, each behind those that it needs itself,
/// and the `i`-th gets the address that `sender` creates with nonce
/// `nonce + i`. A contract whose creation code is linked comes back at once,
/// as it is and without libraries.
///
/// A contract or library that the index lacks, one without creation or
/// runtime code, a library that needs itself, and a placeholder that does
/// not lie inside its code are errors.
pub fn link(index: &ArtifactIndex, key: &String, sender: &Address, nonce: u64) -> (outcome: Result<
    Linked,
    LinkError,
>)
    ensures
        linked_view(outcome) == link_key(context(index, sender, nonce), key@),
        outcome matches Ok(linked) ==> position(index@, key@) matches Some(p) && well_linked(
            context(index, sender, nonce),
            p,
            linked@,
        ),
{
    match index.position(key) {
        Some(p) => {
            proof {
                lemma_position_found(index@, key@);
            }
            link_entry(index, p, sender, nonce)
        },
        None => Err(LinkError::MissingArtifact { key: key.clone() }),
    }
}

} // verus!
