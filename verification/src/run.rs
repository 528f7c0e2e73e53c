use crate::address::Address;
use crate::artifact::{
    Abi, AbiView, BytecodeObject, BytecodeView, CompiledContract, ContractView,
};
use crate::index::{
    index_artifacts, indexed, inserted, source_views, ArtifactIndex, EntryView, SourceContracts,
};
use crate::keys::{contract_name, contract_name_of};
use crate::link_laws::well_linked;
use crate::link_model::{link_contract, LinkContext, LinkErrorView, LinkedView};
use crate::link_tree::{link_tree, link_tree_of};
use crate::linker::{
    dependency_views, link_entry_with, link_error_text, Dependency, LinkError,
};
use crate::nonce::{first_nonce, starting_nonce};
use crate::target::{
    name_view, only_candidate, resolve_target, runnable, target_error_text, target_is,
    TargetError,
};
use vstd::prelude::*;
use vstd::string::*;

verus! {

/// How the script is to be executed and shown.
pub struct EvmArgs {
    /// The account that deploys the libraries and calls the script.
    pub sender: Address,
    /// The node to ask for the sender's transaction count, if any.
    pub fork_url: Option<String>,
    /// The block at which to ask, if not the latest.
    pub fork_block_number: Option<u64>,
    /// How much of the execution to show.
    pub verbosity: u8,
    /// Whether to open the debugger.
    pub debug: bool,
}

/// The arguments of a run: which contract of which file to deploy, and
/// which of its functions to call.
pub struct RunArgs {
    /// The path to the contract to run, made absolute.
    pub path: String,
    pub evm_opts: EvmArgs,
    /// The contract to deploy and call; needed only where the file defines
    /// more than one.
    pub target_contract: Option<String>,
    /// The function to call on the script contract.
    pub sig: Option<String>,
}

/// A source file of the build, under the number that the compiler gave it.
pub struct SourceFile {
    pub id: u32,
    pub path: String,
}

/// What the compiler gives for a project.
pub struct CompilerOutput {
    pub sources: Vec<SourceFile>,
    pub contracts: Vec<SourceContracts>,
}

/// Why a build failed.
#[derive(Debug)]
pub enum BuildError {
    /// A contract could not be linked.
    Link(LinkError),
    /// No one contract could be selected to run.
    Target(TargetError),
}

impl BuildError {
    /// What the error says to the user.
    pub fn message(&self) -> (text: String)
        ensures
            text@ == match self {
                BuildError::Link(e) => link_error_text(e@),
                BuildError::Target(e) => target_error_text(*e),
            },
    {
        match self {
            BuildError::Link(e) => e.message(),
            BuildError::Target(e) => e.message(),
        }
    }
}

/// What a build hands to the execution.
pub struct BuildOutput {
    /// The contract to run, linked.
    pub contract: CompiledContract,
    /// Every runnable contract of the build, linked, under its name.
    pub highlevel_known_contracts: ArtifactIndex,
    /// The source files of the build.
    pub sources: Vec<SourceFile>,
    /// The libraries to deploy before the contract, in order.
    pub predeploy_libraries: Vec<Dependency>,
}

/// A contract as linking leaves it.
pub open spec fn linked_contract(abi: AbiView, linked: LinkedView) -> ContractView {
    ContractView {
        abi: Some(abi),
        bytecode: Some(BytecodeView::Linked(linked.bytecode)),
        deployed_bytecode: Some(linked.deployed_bytecode),
    }
}

/// The runnable contracts among the first `count` of the index, each linked
/// and under its contract name, a later one in the place of an earlier one
/// of the same name; or the error of the first that does not link.
pub open spec fn known_contracts(cx: LinkContext, count: int) -> Result<
    Seq<EntryView>,
    LinkErrorView,
>
    decreases count,
{
    if count <= 0 {
        Ok(Seq::empty())
    } else {
        match known_contracts(cx, count - 1) {
            Err(e) => Err(e),
            Ok(known) => {
                let entry = cx.index[count - 1];
                if !runnable(entry.contract) {
                    Ok(known)
                } else {
                    match link_contract(cx, count - 1) {
                        Err(e) => Err(e),
                        Ok(linked) => Ok(
                            inserted(
                                known,
                                contract_name(entry.key),
                                linked_contract(entry.contract.abi.unwrap(), linked),
                            ),
                        ),
                    }
                }
            },
        }
    }
}

/// The error of the first contract that does not link is the error of all
/// that follow.
pub proof fn lemma_known_error_stays(cx: LinkContext, count: int, later: int)
    requires
        0 <= count <= later,
        known_contracts(cx, count) is Err,
    ensures
        known_contracts(cx, later) == known_contracts(cx, count),
    decreases later - count,
{
    if count < later {
        lemma_known_error_stays(cx, count, later - 1);
    }
}

/// The contract at place `p` is what the build hands out: linked, with the
/// libraries that it needs.
pub open spec fn hands_out(cx: LinkContext, p: int, out: BuildOutput) -> bool {
    link_contract(cx, p) matches Ok(linked) && {
        &&& well_linked(cx, p, linked)
        &&& out.contract@ == linked_contract(cx.index[p].contract.abi.unwrap(), linked)
        &&& dependency_views(out.predeploy_libraries@) == linked.dependencies
    }
}

/// A contract that the execution itself provides under a fixed address: it
/// has an interface, and no code of its own.
pub open spec fn cheatcode_contract(abi: AbiView) -> ContractView {
    ContractView {
        abi: Some(abi),
        bytecode: None,
        deployed_bytecode: Some(BytecodeView::Linked(Seq::empty())),
    }
}

/// The contracts that an execution knows by name: those of the build, and
/// the three that the execution provides, `VM`, `VM_CONSOLE` and `CONSOLE`,
/// each in the place of a contract of the build that goes by its name.
pub open spec fn execution_contracts(
    known: Seq<EntryView>,
    vm: AbiView,
    vm_console: AbiView,
    console: AbiView,
) -> Seq<EntryView> {
    inserted(
        inserted(
            inserted(known, "VM"@, cheatcode_contract(vm)),
            "VM_CONSOLE"@,
            cheatcode_contract(vm_console),
        ),
        "CONSOLE"@,
        cheatcode_contract(console),
    )
}

/// Puts the three contracts that the execution provides among the contracts
/// of the build, under the names `VM`, `VM_CONSOLE` and `CONSOLE`, with the
/// interfaces given.
pub fn with_cheatcodes(known: ArtifactIndex, vm: Abi, vm_console: Abi, console: Abi) -> (all:
    ArtifactIndex)
    ensures
        known.wf() ==> all.wf(),
        all@ == execution_contracts(known@, vm@, vm_console@, console@),
{
    let mut all = known;
    all.insert(String::from_str("VM"), cheatcode(vm));
    all.insert(String::from_str("VM_CONSOLE"), cheatcode(vm_console));
    all.insert(String::from_str("CONSOLE"), cheatcode(console));
    all
}

/// A contract with the interface `abi` and no code of its own.
fn cheatcode(abi: Abi) -> (contract: CompiledContract)
    ensures
        contract@ == cheatcode_contract(abi@),
{
    CompiledContract {
        abi: Some(abi),
        bytecode: None,
        deployed_bytecode: Some(BytecodeObject::Linked(Vec::new())),
    }
}

impl RunArgs {
    /// The signature of the function to call: the one given, or `run()`.
    pub fn signature(&self) -> (sig: String)
        ensures
            sig@ == match self.sig {
                Some(given) => given@,
                None => "run()"@,
            },
    {
        match &self.sig {
            Some(given) => given.clone(),
            None => String::from_str("run()"),
        }
    }

    /// Whether the sender's transaction count is to be asked of a node
    /// before the build.
    pub fn asks_for_nonce(&self) -> (yes: bool)
        ensures
            yes == self.evm_opts.fork_url is Some,
    {
        self.evm_opts.fork_url.is_some()
    }

    /// What a build links against: the index of what the compiler gave, the
    /// sender, and the nonce that follows from the node's answer.
    pub open spec fn link_context(&self, output: CompilerOutput, count: Option<u64>) -> LinkContext {
        LinkContext {
            index: indexed(source_views(output.contracts@), output.contracts@.len() as int),
            sender: self.evm_opts.sender@,
            nonce: first_nonce(self.evm_opts.fork_url is Some, count),
        }
    }

    /// Builds what is to be run from what the compiler gave: indexes the
    /// contracts, links every runnable one, and selects the one contract
    /// that the arguments ask for. `count` is the sender's transaction
    /// count, where a node was asked and has answered.
    ///
    /// The first contract of the index that does not link fails the build;
    /// then, that no contract or more than one fits the arguments.
    pub fn build(&self, output: CompilerOutput, count: Option<u64>) -> (outcome: Result<
        BuildOutput,
        BuildError,
    >)
        ensures
            ({
                let cx = self.link_context(output, count);
                let known = known_contracts(cx, cx.index.len() as int);
                let path = self.path@;
                let name = name_view(&self.target_contract);
                match outcome {
                    Err(BuildError::Link(e)) => known == Err::<Seq<EntryView>, LinkErrorView>(e@),
                    Err(BuildError::Target(e)) => known is Ok && target_is(
                        cx.index,
                        path,
                        name,
                        Err(e),
                    ),
                    Ok(out) => {
                        &&& known == Ok::<Seq<EntryView>, LinkErrorView>(
                            out.highlevel_known_contracts@,
                        )
                        &&& out.highlevel_known_contracts.wf()
                        &&& out.sources == output.sources
                        &&& exists|p: int|
                            only_candidate(cx.index, path, name, p) && hands_out(cx, p, out)
                    },
                }
            }),
    {
        let index = index_artifacts(&output.contracts);
        let tree = link_tree(&index);
        let sender = self.evm_opts.sender;
        let nonce = starting_nonce(self.asks_for_nonce(), count);
        let ghost cx = self.link_context(output, count);
        let target = resolve_target(&index, &self.path, &self.target_contract);
        let mut known = ArtifactIndex::new();
        let mut chosen: Option<(CompiledContract, Vec<Dependency>)> = None;
        let mut i: usize = 0;
        while i < index.len()
            invariant
                i <= index@.len(),
                cx == self.link_context(output, count),
                index@ == cx.index,
                cx.sender == sender@,
                cx.nonce == nonce as int,
                tree@ == link_tree_of(index@),
                known.wf(),
                known_contracts(cx, i as int) == Ok::<Seq<EntryView>, LinkErrorView>(known@),
                target matches Ok(p) ==> p < index@.len() && runnable(index@[p as int].contract),
                match (target, chosen) {
                    (Ok(p), Some((contract, libraries))) => {
                        &&& p < i
                        &&& link_contract(cx, p as int) matches Ok(linked) && {
                            &&& well_linked(cx, p as int, linked)
                            &&& contract@ == linked_contract(
                                cx.index[p as int].contract.abi.unwrap(),
                                linked,
                            )
                            &&& dependency_views(libraries@) == linked.dependencies
                        }
                    },
                    (Ok(p), None) => i <= p,
                    (Err(_), chosen) => chosen is None,
                },
            decreases index@.len() - i,
        {
            let entry = &index.entries[i];
            assert(index@[i as int] == entry@);
            if entry.contract.is_runnable() {
                match link_entry_with(&index, &tree, i, &sender, nonce) {
                    Err(e) => {
                        proof {
                            lemma_known_error_stays(cx, i + 1, cx.index.len() as int);
                        }
                        return Err(BuildError::Link(e));
                    },
                    Ok(linked) => {
                        let abi = match &entry.contract.abi {
                            Some(abi) => abi.clone(),
                            None => vstd::pervasive::unreached(),
                        };
                        let contract = CompiledContract {
                            abi: Some(abi),
                            bytecode: Some(BytecodeObject::Linked(linked.bytecode)),
                            deployed_bytecode: Some(linked.deployed_bytecode),
                        };
                        if let Ok(p) = target {
                            if p == i {
                                chosen = Some((contract.clone(), linked.dependencies));
                            }
                        }
                        known.insert(contract_name_of(entry.key.as_str()), contract);
                    },
                }
            }
            i += 1;
        }
        match target {
            Err(e) => Err(BuildError::Target(e)),
            Ok(p) => match chosen {
                Some((contract, libraries)) => {
                    let out = BuildOutput {
                        contract,
                        highlevel_known_contracts: known,
                        sources: output.sources,
                        predeploy_libraries: libraries,
                    };
                    assert(only_candidate(
                        cx.index,
                        self.path@,
                        name_view(&self.target_contract),
                        p as int,
                    ) && hands_out(cx, p as int, out));
                    Ok(out)
                },
                None => vstd::pervasive::unreached(),
            },
        }
    }
}

} // verus!
