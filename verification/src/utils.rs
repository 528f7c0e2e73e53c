use crate::artifact::{artifact_key, key_of};
use vstd::prelude::*;
use vstd::string::*;

verus! {

/// The node that is asked where the environment names none.
pub const LOCAL_RPC_URL: &'static str = "http://127.0.0.1:8545";

/// Where the contract artifacts are stored by default.
pub const DAPP_JSON: &'static str = "./out/dapp.sol.json";

/// The node to ask: the one that the environment names under
/// `ETH_RPC_URL`, handed in as `configured`, or else `LOCAL_RPC_URL`.
pub fn rpc_url(configured: Option<String>) -> (url: String)
    ensures
        url@ == match configured {
            Some(url) => url@,
            None => LOCAL_RPC_URL@,
        },
{
    match configured {
        Some(url) => url,
        None => String::from_str(LOCAL_RPC_URL),
    }
}

/// The path to where the contract artifacts are stored.
pub fn dapp_json_path() -> (path: String)
    ensures
        path@ == DAPP_JSON@,
{
    String::from_str(DAPP_JSON)
}

/// Where to look for a contract in the artifact file.
pub enum ArtifactLocation {
    /// Under the contract's name, in the object that stands under the path.
    Nested { path: String, name: String },
    /// Under the one key `path:name`.
    Flat { key: String },
}

/// Where the contract `name` of the source file `path` stands in the
/// artifact file: under its name in the object of its path where the file
/// has such an object (`path_is_object`), else under the key `path:name`.
pub fn artifact_location(path_is_object: bool, path: &str, name: &str) -> (location:
    ArtifactLocation)
    ensures
        match location {
            ArtifactLocation::Nested { path: p, name: n } => path_is_object && p@ == path@ && n@
                == name@,
            ArtifactLocation::Flat { key } => !path_is_object && key@ == key_of(path@, name@),
        },
{
    if path_is_object {
        ArtifactLocation::Nested { path: String::from_str(path), name: String::from_str(name) }
    } else {
        ArtifactLocation::Flat { key: artifact_key(path, name) }
    }
}

/// The versions of the virtual machine that a compiler can target.
#[derive(Debug, Clone, Copy, PartialEq, Eq, Structural)]
pub enum EvmVersion {
    Homestead,
    TangerineWhistle,
    SpuriousDragon,
    Byzantium,
    Constantinople,
    Petersburg,
    Istanbul,
    Berlin,
    London,
}

/// The versions of the virtual machine that can execute a script.
#[derive(Debug, Clone, Copy, PartialEq, Eq, Structural)]
pub enum Revision {
    Istanbul,
    Berlin,
    London,
}

/// Whether a script can be executed on this version.
pub open spec fn supported(evm: EvmVersion) -> bool {
    evm == EvmVersion::Istanbul || evm == EvmVersion::Berlin || evm == EvmVersion::London
}

/// The revision that executes code compiled for `evm`, where there is one.
pub open spec fn revision_of(evm: EvmVersion) -> Option<Revision> {
    match evm {
        EvmVersion::Istanbul => Some(Revision::Istanbul),
        EvmVersion::Berlin => Some(Revision::Berlin),
        EvmVersion::London => Some(Revision::London),
        _ => None,
    }
}

/// The revision that executes code compiled for `evm`, where there is one.
pub fn revision(evm: EvmVersion) -> (found: Option<Revision>)
    ensures
        found == revision_of(evm),
        found is Some <==> supported(evm),
{
    match evm {
        EvmVersion::Istanbul => Some(Revision::Istanbul),
        EvmVersion::Berlin => Some(Revision::Berlin),
        EvmVersion::London => Some(Revision::London),
        _ => None,
    }
}

/// The configuration of the first execution backend for `evm`, which has to
/// be a supported version.
pub fn sputnik_cfg(evm: &EvmVersion) -> (config: Revision)
    requires
        supported(*evm),
    ensures
        revision_of(*evm) == Some(config),
{
    match evm {
        EvmVersion::Istanbul => Revision::Istanbul,
        EvmVersion::Berlin => Revision::Berlin,
        _ => Revision::London,
    }
}

/// The revision of the second execution backend for `evm`, which has to be
/// a supported version.
pub fn evmodin_cfg(evm: EvmVersion) -> (config: Revision)
    requires
        supported(evm),
    ensures
        revision_of(evm) == Some(config),
{
    sputnik_cfg(&evm)
}

} // verus!
