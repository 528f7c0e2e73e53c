use vstd::prelude::*;
use vstd::string::*;

verus! {

/// The qualified name of a contract: its source file, a colon, its name.
pub open spec fn key_of(file: Seq<char>, name: Seq<char>) -> Seq<char> {
    file + seq![':'] + name
}

/// Builds the qualified name `file:name`.
pub fn artifact_key(file: &str, name: &str) -> (key: String)
    ensures
        key@ == key_of(file@, name@),
{
    let mut key = String::from_str(file);
    key.append(":");
    key.append(name);
    proof {
        reveal_strlit(":");
        assert(":"@ =~= seq![':']);
    }
    key
}

/// A place in unlinked code where the address of a library belongs.
pub struct Placeholder {
    /// The source file of the library.
    pub file: String,
    /// The name of the library.
    pub library: String,
    /// The index of the first of the twenty bytes that the address takes.
    pub offset: usize,
}

pub struct PlaceholderView {
    pub file: Seq<char>,
    pub library: Seq<char>,
    pub offset: usize,
}

impl PlaceholderView {
    /// The qualified name of the library that belongs here.
    pub open spec fn key(&self) -> Seq<char> {
        key_of(self.file, self.library)
    }
}

impl View for Placeholder {
    type V = PlaceholderView;

    open spec fn view(&self) -> PlaceholderView {
        PlaceholderView { file: self.file@, library: self.library@, offset: self.offset }
    }
}

impl Placeholder {
    /// The qualified name of the library that belongs here.
    pub fn key(&self) -> (key: String)
        ensures
            key@ == self@.key(),
    {
        artifact_key(self.file.as_str(), self.library.as_str())
    }
}

/// The views of a list of placeholders, in order.
pub open spec fn placeholder_views(placeholders: Seq<Placeholder>) -> Seq<PlaceholderView> {
    placeholders.map_values(|p: Placeholder| p@)
}

/// Compiled code: either ready to deploy, or with library addresses still to
/// be written into it.
pub enum BytecodeObject {
    Linked(Vec<u8>),
    Unlinked { code: Vec<u8>, placeholders: Vec<Placeholder> },
}

pub enum BytecodeView {
    Linked(Seq<u8>),
    Unlinked { code: Seq<u8>, placeholders: Seq<PlaceholderView> },
}

impl BytecodeView {
    /// The bytes as compiled, placeholders not yet filled.
    pub open spec fn code(&self) -> Seq<u8> {
        match *self {
            BytecodeView::Linked(code) => code,
            BytecodeView::Unlinked { code, .. } => code,
        }
    }

    /// The places that still wait for an address; none in linked code.
    pub open spec fn placeholders(&self) -> Seq<PlaceholderView> {
        match *self {
            BytecodeView::Linked(_) => Seq::empty(),
            BytecodeView::Unlinked { placeholders, .. } => placeholders,
        }
    }
}

impl View for BytecodeObject {
    type V = BytecodeView;

    open spec fn view(&self) -> BytecodeView {
        match self {
            BytecodeObject::Linked(code) => BytecodeView::Linked(code@),
            BytecodeObject::Unlinked { code, placeholders } => BytecodeView::Unlinked {
                code: code@,
                placeholders: placeholder_views(placeholders@),
            },
        }
    }
}

impl BytecodeObject {
    /// The number of placeholders of the code.
    pub fn placeholder_count(&self) -> (count: usize)
        ensures
            count == self@.placeholders().len(),
    {
        match self {
            BytecodeObject::Linked(_) => 0,
            BytecodeObject::Unlinked { code: _, placeholders } => placeholders.len(),
        }
    }
}

/// The interface of a contract: the names of its functions, which this
/// library reads, and the interface as the compiler wrote it, which it only
/// hands on.
pub struct Abi {
    pub functions: Vec<String>,
    pub json: String,
}

pub struct AbiView {
    pub functions: Seq<Seq<char>>,
    pub json: Seq<char>,
}

/// The views of a list of strings, in order.
pub open spec fn string_views(strings: Seq<String>) -> Seq<Seq<char>> {
    strings.map_values(|s: String| s@)
}

impl View for Abi {
    type V = AbiView;

    open spec fn view(&self) -> AbiView {
        AbiView { functions: string_views(self.functions@), json: self.json@ }
    }
}

/// What the compiler gives for one contract.
pub struct CompiledContract {
    pub abi: Option<Abi>,
    /// The code that creates the contract.
    pub bytecode: Option<BytecodeObject>,
    /// The code that the created contract runs.
    pub deployed_bytecode: Option<BytecodeObject>,
}

pub struct ContractView {
    pub abi: Option<AbiView>,
    pub bytecode: Option<BytecodeView>,
    pub deployed_bytecode: Option<BytecodeView>,
}

/// The placeholders of an optional code; none where the code is absent.
pub open spec fn placeholders_of(object: Option<BytecodeView>) -> Seq<PlaceholderView> {
    match object {
        Some(object) => object.placeholders(),
        None => Seq::empty(),
    }
}

impl ContractView {
    /// The placeholders of the contract: those of its creation code, then
    /// those of its runtime code.
    pub open spec fn references(&self) -> Seq<PlaceholderView> {
        placeholders_of(self.bytecode) + placeholders_of(self.deployed_bytecode)
    }
}

impl View for CompiledContract {
    type V = ContractView;

    open spec fn view(&self) -> ContractView {
        ContractView {
            abi: match self.abi {
                Some(abi) => Some(abi@),
                None => None,
            },
            bytecode: match self.bytecode {
                Some(object) => Some(object@),
                None => None,
            },
            deployed_bytecode: match self.deployed_bytecode {
                Some(object) => Some(object@),
                None => None,
            },
        }
    }
}

/// A copy of `bytes`.
pub fn copy_bytes(bytes: &Vec<u8>) -> (copy: Vec<u8>)
    ensures
        copy@ == bytes@,
{
    let mut copy: Vec<u8> = Vec::new();
    let mut i: usize = 0;
    while i < bytes.len()
        invariant
            i <= bytes.len(),
            copy@ == bytes@.subrange(0, i as int),
        decreases bytes.len() - i,
    {
        copy.push(bytes[i]);
        assert(copy@ =~= bytes@.subrange(0, i + 1));
        i += 1;
    }
    assert(copy@ =~= bytes@);
    copy
}

/// A copy of `strings`.
pub fn copy_strings(strings: &Vec<String>) -> (copy: Vec<String>)
    ensures
        string_views(copy@) == string_views(strings@),
{
    let mut copy: Vec<String> = Vec::new();
    let mut i: usize = 0;
    while i < strings.len()
        invariant
            i <= strings.len(),
            string_views(copy@) == string_views(strings@).subrange(0, i as int),
        decreases strings.len() - i,
    {
        let item = strings[i].clone();
        let ghost earlier = string_views(copy@);
        copy.push(item);
        assert(string_views(copy@) =~= earlier.push(item@));
        assert(string_views(strings@)[i as int] == item@);
        assert(string_views(copy@) =~= string_views(strings@).subrange(0, i + 1));
        i += 1;
    }
    assert(string_views(copy@) =~= string_views(strings@));
    copy
}

impl Clone for Placeholder {
    fn clone(&self) -> (copy: Placeholder)
        ensures
            copy@ == self@,
    {
        Placeholder {
            file: self.file.clone(),
            library: self.library.clone(),
            offset: self.offset,
        }
    }
}

impl Clone for BytecodeObject {
    fn clone(&self) -> (copy: BytecodeObject)
        ensures
            copy@ == self@,
    {
        match self {
            BytecodeObject::Linked(code) => BytecodeObject::Linked(copy_bytes(code)),
            BytecodeObject::Unlinked { code, placeholders } => {
                let mut copy: Vec<Placeholder> = Vec::new();
                let mut i: usize = 0;
                while i < placeholders.len()
                    invariant
                        i <= placeholders.len(),
                        placeholder_views(copy@) == placeholder_views(placeholders@).subrange(
                            0,
                            i as int,
                        ),
                    decreases placeholders.len() - i,
                {
                    let item = placeholders[i].clone();
                    let ghost earlier = placeholder_views(copy@);
                    copy.push(item);
                    assert(placeholder_views(copy@) =~= earlier.push(item@));
                    assert(placeholder_views(placeholders@)[i as int] == item@);
                    assert(placeholder_views(copy@) =~= placeholder_views(
                        placeholders@,
                    ).subrange(0, i + 1));
                    i += 1;
                }
                assert(placeholder_views(copy@) =~= placeholder_views(placeholders@));
                BytecodeObject::Unlinked { code: copy_bytes(code), placeholders: copy }
            },
        }
    }
}

impl Clone for Abi {
    fn clone(&self) -> (copy: Abi)
        ensures
            copy@ == self@,
    {
        Abi { functions: copy_strings(&self.functions), json: self.json.clone() }
    }
}

impl Clone for CompiledContract {
    fn clone(&self) -> (copy: CompiledContract)
        ensures
            copy@ == self@,
    {
        CompiledContract {
            abi: match &self.abi {
                Some(abi) => Some(abi.clone()),
                None => None,
            },
            bytecode: match &self.bytecode {
                Some(object) => Some(object.clone()),
                None => None,
            },
            deployed_bytecode: match &self.deployed_bytecode {
                Some(object) => Some(object.clone()),
                None => None,
            },
        }
    }
}

} // verus!
