use crate::address::created_address;
use crate::artifact::{BytecodeView, PlaceholderView};
use crate::index::{position, EntryView};
use vstd::prelude::*;

verus! {

/// One library of a deployment plan.
pub struct DependencyView {
    /// The qualified name of the library.
    pub key: Seq<char>,
    /// The address that the library gets.
    pub address: Seq<u8>,
    /// The code that creates it, every address written in.
    pub code: Seq<u8>,
}

/// Why a contract could not be linked.
pub enum LinkErrorView {
    /// No contract goes by the name that a placeholder asks for.
    MissingArtifact { key: Seq<char> },
    /// The contract lacks its creation code or its runtime code.
    MissingBytecode { key: Seq<char> },
    /// The library is asked for while it is itself being linked.
    Cycle { key: Seq<char> },
    /// The twenty bytes from `offset` on do not lie inside the code of `key`.
    PlaceholderOutOfRange { key: Seq<char>, offset: usize },
}

/// A linked contract: the libraries to deploy first, in order, its creation
/// code with every address written in, and its runtime code.
pub struct LinkedView {
    pub dependencies: Seq<DependencyView>,
    pub bytecode: Seq<u8>,
    pub deployed_bytecode: BytecodeView,
}

/// What a build links against: the contracts, the account that deploys the
/// libraries, and the nonce of its first deployment.
pub struct LinkContext {
    pub index: Seq<EntryView>,
    pub sender: Seq<u8>,
    pub nonce: int,
}

/// The number of bytes of an address.
pub const ADDRESS_LEN: usize = 20;

/// `code` with `address` written over the twenty bytes from `offset` on.
pub open spec fn write_address(code: Seq<u8>, offset: int, address: Seq<u8>) -> Seq<u8> {
    Seq::new(
        code.len(),
        |i: int|
            if offset <= i < offset + ADDRESS_LEN {
                address[i - offset]
            } else {
                code[i]
            },
    )
}

/// Whether `i` is the first library of the plan that goes by `key`.
pub open spec fn is_first_dependency(deps: Seq<DependencyView>, key: Seq<char>, i: int) -> bool {
    &&& 0 <= i < deps.len()
    &&& deps[i].key == key
    &&& forall|j: int| 0 <= j < i ==> deps[j].key != key
}

/// The place in the plan of the library that goes by `key`, if it is there.
pub open spec fn planned(deps: Seq<DependencyView>, key: Seq<char>) -> Option<int> {
    if exists|i: int| is_first_dependency(deps, key, i) {
        Some(choose|i: int| is_first_dependency(deps, key, i))
    } else {
        None
    }
}

/// The address of the library `key`: the one it has in the plan `deps`, or
/// else the one it gets when it is linked and put behind the libraries that
/// it needs itself. `path` holds the places of the contracts that are being
/// linked; a library on it cannot be linked again.
pub open spec fn resolve(
    cx: LinkContext,
    key: Seq<char>,
    path: Seq<int>,
    deps: Seq<DependencyView>,
) -> Result<(Seq<DependencyView>, Seq<u8>), LinkErrorView>
    decreases cx.index.len() - path.len(), 0int, 0int,
{
    match planned(deps, key) {
        Some(d) => Ok((deps, deps[d].address)),
        None => match position(cx.index, key) {
            None => Err(LinkErrorView::MissingArtifact { key }),
            Some(p) => if path.contains(p) || path.len() >= cx.index.len() {
                Err(LinkErrorView::Cycle { key })
            } else {
                match link_node(cx, p, path.push(p), deps) {
                    Err(e) => Err(e),
                    Ok(linked) => {
                        let address = created_address(
                            cx.sender,
                            cx.nonce + linked.dependencies.len(),
                        );
                        let library = DependencyView { key, address, code: linked.bytecode };
                        Ok((linked.dependencies.push(library), address))
                    },
                }
            },
        },
    }
}

/// The contract at place `p`, linked: first its creation code, then its
/// runtime code, the plan growing by the libraries that are not in it yet. A
/// contract whose creation code is linked is handed back at once, as it is,
/// and the plan stays as it was.
pub open spec fn link_node(
    cx: LinkContext,
    p: int,
    path: Seq<int>,
    deps: Seq<DependencyView>,
) -> Result<LinkedView, LinkErrorView>
    decreases cx.index.len() - path.len(), 2int, 0int,
{
    let key = cx.index[p].key;
    let contract = cx.index[p].contract;
    match (contract.bytecode, contract.deployed_bytecode) {
        (Some(BytecodeView::Linked(code)), Some(runtime)) => Ok(
            LinkedView { dependencies: deps, bytecode: code, deployed_bytecode: runtime },
        ),
        (Some(creation), Some(runtime)) => match link_code(
            cx,
            key,
            creation.placeholders(),
            0,
            path,
            deps,
            creation.code(),
        ) {
            Err(e) => Err(e),
            Ok((deps1, bytecode)) => match link_code(
                cx,
                key,
                runtime.placeholders(),
                0,
                path,
                deps1,
                runtime.code(),
            ) {
                Err(e) => Err(e),
                Ok((deps2, deployed_bytecode)) => Ok(
                    LinkedView {
                        dependencies: deps2,
                        bytecode,
                        deployed_bytecode: BytecodeView::Linked(deployed_bytecode),
                    },
                ),
            },
        },
        _ => Err(LinkErrorView::MissingBytecode { key }),
    }
}

/// The code of the contract `owner` with the placeholders from the `i`-th on
/// filled, one after the other: the library is resolved, then its address is
/// written at the placeholder's offset.
pub open spec fn link_code(
    cx: LinkContext,
    owner: Seq<char>,
    placeholders: Seq<PlaceholderView>,
    i: int,
    path: Seq<int>,
    deps: Seq<DependencyView>,
    code: Seq<u8>,
) -> Result<(Seq<DependencyView>, Seq<u8>), LinkErrorView>
    decreases cx.index.len() - path.len(), 1int, placeholders.len() - i,
{
    if i < 0 || i >= placeholders.len() {
        Ok((deps, code))
    } else {
        let placeholder = placeholders[i];
        match resolve(cx, placeholder.key(), path, deps) {
            Err(e) => Err(e),
            Ok((deps1, address)) => if placeholder.offset + ADDRESS_LEN > code.len() {
                Err(
                    LinkErrorView::PlaceholderOutOfRange {
                        key: owner,
                        offset: placeholder.offset,
                    },
                )
            } else {
                link_code(
                    cx,
                    owner,
                    placeholders,
                    i + 1,
                    path,
                    deps1,
                    write_address(code, placeholder.offset as int, address),
                )
            },
        }
    }
}

/// The contract at place `p` of the index, linked from an empty plan.
pub open spec fn link_contract(cx: LinkContext, p: int) -> Result<LinkedView, LinkErrorView> {
    link_node(cx, p, seq![p], Seq::empty())
}

/// The contract that goes by `key`, linked from an empty plan.
pub open spec fn link_key(cx: LinkContext, key: Seq<char>) -> Result<LinkedView, LinkErrorView> {
    match position(cx.index, key) {
        Some(p) => link_contract(cx, p),
        None => Err(LinkErrorView::MissingArtifact { key }),
    }
}

} // verus!
