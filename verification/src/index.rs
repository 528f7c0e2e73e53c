use crate::artifact::{artifact_key, key_of, CompiledContract, ContractView};
use vstd::prelude::*;

verus! {

/// One contract of a build, under its qualified name.
pub struct ArtifactEntry {
    pub key: String,
    pub contract: CompiledContract,
}

pub struct EntryView {
    pub key: Seq<char>,
    pub contract: ContractView,
}

impl View for ArtifactEntry {
    type V = EntryView;

    open spec fn view(&self) -> EntryView {
        EntryView { key: self.key@, contract: self.contract@ }
    }
}

/// The views of a list of entries, in order.
pub open spec fn entry_views(entries: Seq<ArtifactEntry>) -> Seq<EntryView> {
    entries.map_values(|e: ArtifactEntry| e@)
}

/// Whether some entry goes by `key`.
pub open spec fn has_key(index: Seq<EntryView>, key: Seq<char>) -> bool {
    exists|i: int| 0 <= i < index.len() && index[i].key == key
}

/// Whether `i` is the first entry that goes by `key`.
pub open spec fn is_first(index: Seq<EntryView>, key: Seq<char>, i: int) -> bool {
    &&& 0 <= i < index.len()
    &&& index[i].key == key
    &&& forall|j: int| 0 <= j < i ==> index[j].key != key
}

/// The place of the first entry that goes by `key`, if there is one.
pub open spec fn position(index: Seq<EntryView>, key: Seq<char>) -> Option<int> {
    if exists|i: int| is_first(index, key, i) {
        Some(choose|i: int| is_first(index, key, i))
    } else {
        None
    }
}

/// No two entries go by the same name.
pub open spec fn distinct_keys(index: Seq<EntryView>) -> bool {
    forall|i: int, j: int|
        0 <= i < index.len() && 0 <= j < index.len() && i != j ==> index[i].key != index[j].key
}

/// The first entry under a name is the only first one.
pub proof fn lemma_position_is(index: Seq<EntryView>, key: Seq<char>, i: int)
    requires
        is_first(index, key, i),
    ensures
        position(index, key) == Some(i),
{
    let c = choose|c: int| is_first(index, key, c);
    assert(is_first(index, key, c));
    if c < i {
        assert(index[c].key == key);
    } else if i < c {
        assert(index[i].key == key);
    }
}

/// Without an entry under a name there is no place for it.
pub proof fn lemma_position_none(index: Seq<EntryView>, key: Seq<char>)
    requires
        forall|j: int| 0 <= j < index.len() ==> index[j].key != key,
    ensures
        position(index, key) is None,
{
}

/// What a found place holds.
pub proof fn lemma_position_found(index: Seq<EntryView>, key: Seq<char>)
    ensures
        match position(index, key) {
            Some(i) => is_first(index, key, i),
            None => !has_key(index, key),
        },
{
    if has_key(index, key) {
        let w = choose|i: int| 0 <= i < index.len() && index[i].key == key;
        lemma_first_exists(index, key, w);
    }
}

proof fn lemma_first_exists(index: Seq<EntryView>, key: Seq<char>, w: int)
    requires
        0 <= w < index.len(),
        index[w].key == key,
    ensures
        exists|i: int| is_first(index, key, i),
    decreases w,
{
    if forall|j: int| 0 <= j < w ==> index[j].key != key {
        assert(is_first(index, key, w));
    } else {
        let j = choose|j: int| 0 <= j < w && index[j].key == key;
        lemma_first_exists(index, key, j);
    }
}

/// `index` with `contract` under `key`: in the place of the first contract
/// that went by that name, or behind the others if there was none.
pub open spec fn inserted(index: Seq<EntryView>, key: Seq<char>, contract: ContractView) -> Seq<
    EntryView,
> {
    match position(index, key) {
        Some(i) => index.update(i, EntryView { key, contract }),
        None => index.push(EntryView { key, contract }),
    }
}

/// The contracts of one build, each under its qualified name.
pub struct ArtifactIndex {
    pub entries: Vec<ArtifactEntry>,
}

impl View for ArtifactIndex {
    type V = Seq<EntryView>;

    open spec fn view(&self) -> Seq<EntryView> {
        entry_views(self.entries@)
    }
}

impl Clone for ArtifactEntry {
    fn clone(&self) -> (copy: ArtifactEntry)
        ensures
            copy@ == self@,
    {
        ArtifactEntry { key: self.key.clone(), contract: self.contract.clone() }
    }
}

impl Clone for ArtifactIndex {
    fn clone(&self) -> (copy: ArtifactIndex)
        ensures
            copy@ == self@,
    {
        let mut entries: Vec<ArtifactEntry> = Vec::new();
        let mut i: usize = 0;
        while i < self.entries.len()
            invariant
                i <= self.entries.len(),
                entry_views(entries@) == self@.subrange(0, i as int),
            decreases self.entries.len() - i,
        {
            let entry = self.entries[i].clone();
            let ghost earlier = entry_views(entries@);
            entries.push(entry);
            assert(entry_views(entries@) =~= earlier.push(entry@));
            assert(self@[i as int] == entry@);
            assert(entry_views(entries@) =~= self@.subrange(0, i + 1));
            i += 1;
        }
        assert(self@.subrange(0, i as int) =~= self@);
        ArtifactIndex { entries }
    }
}

impl ArtifactIndex {
    /// Every name stands for one contract.
    pub open spec fn wf(&self) -> bool {
        distinct_keys(self@)
    }

    /// An index without contracts.
    pub fn new() -> (index: ArtifactIndex)
        ensures
            index@ == Seq::<EntryView>::empty(),
            index.wf(),
    {
        let index = ArtifactIndex { entries: Vec::new() };
        assert(index@ =~= Seq::<EntryView>::empty());
        index
    }

    /// The number of contracts.
    pub fn len(&self) -> (n: usize)
        ensures
            n == self@.len(),
    {
        self.entries.len()
    }

    /// The place of the contract that goes by `key`.
    pub fn position(&self, key: &String) -> (found: Option<usize>)
        ensures
            match found {
                Some(i) => position(self@, key@) == Some(i as int),
                None => position(self@, key@) is None,
            },
    {
        let mut i: usize = 0;
        while i < self.entries.len()
            invariant
                i <= self.entries.len(),
                forall|j: int| 0 <= j < i ==> self@[j].key != key@,
            decreases self.entries.len() - i,
        {
            if self.entries[i].key == *key {
                proof {
                    lemma_position_is(self@, key@, i as int);
                }
                return Some(i);
            }
            i += 1;
        }
        proof {
            lemma_position_none(self@, key@);
        }
        None
    }

    /// The contract that goes by `key`.
    pub fn get(&self, key: &String) -> (found: Option<&CompiledContract>)
        ensures
            match found {
                Some(contract) => lookup(self@, key@) == Some(contract@),
                None => lookup(self@, key@) is None,
            },
    {
        match self.position(key) {
            Some(i) => {
                assert(self@[i as int] == self.entries@[i as int]@);
                Some(&self.entries[i].contract)
            },
            None => None,
        }
    }

    /// Puts `contract` under `key`, in the place of the contract that went by
    /// that name, or behind the others if there was none.
    pub fn insert(&mut self, key: String, contract: CompiledContract)
        ensures
            old(self).wf() ==> final(self).wf(),
            final(self)@ == inserted(old(self)@, key@, contract@),
    {
        let ghost before = self@;
        proof {
            lemma_position_found(before, key@);
        }
        match self.position(&key) {
            Some(i) => {
                self.entries.set(i, ArtifactEntry { key, contract });
                assert(self@ =~= before.update(i as int, EntryView { key: key@, contract: contract@ }));
            },
            None => {
                self.entries.push(ArtifactEntry { key, contract });
                assert(self@ =~= before.push(EntryView { key: key@, contract: contract@ }));
            },
        }
    }
}

/// A contract as the compiler names it within its source file.
pub struct NamedContract {
    pub name: String,
    pub contract: CompiledContract,
}

pub struct NamedView {
    pub name: Seq<char>,
    pub contract: ContractView,
}

impl View for NamedContract {
    type V = NamedView;

    open spec fn view(&self) -> NamedView {
        NamedView { name: self.name@, contract: self.contract@ }
    }
}

/// The views of a list of named contracts, in order.
pub open spec fn named_views(contracts: Seq<NamedContract>) -> Seq<NamedView> {
    contracts.map_values(|c: NamedContract| c@)
}

/// The contracts that one source file defines.
pub struct SourceContracts {
    pub file: String,
    pub contracts: Vec<NamedContract>,
}

pub struct SourceView {
    pub file: Seq<char>,
    pub contracts: Seq<NamedView>,
}

impl View for SourceContracts {
    type V = SourceView;

    open spec fn view(&self) -> SourceView {
        SourceView { file: self.file@, contracts: named_views(self.contracts@) }
    }
}

/// The views of a list of source files, in order.
pub open spec fn source_views(sources: Seq<SourceContracts>) -> Seq<SourceView> {
    sources.map_values(|s: SourceContracts| s@)
}

/// `index` with the first `count` contracts of the source file `file` put
/// in, one after the other, each under its qualified name.
pub open spec fn with_contracts(
    index: Seq<EntryView>,
    file: Seq<char>,
    contracts: Seq<NamedView>,
    count: int,
) -> Seq<EntryView>
    decreases count,
{
    if count <= 0 {
        index
    } else {
        inserted(
            with_contracts(index, file, contracts, count - 1),
            key_of(file, contracts[count - 1].name),
            contracts[count - 1].contract,
        )
    }
}

/// The index of the contracts of the first `count` source files.
pub open spec fn indexed(sources: Seq<SourceView>, count: int) -> Seq<EntryView>
    decreases count,
{
    if count <= 0 {
        Seq::empty()
    } else {
        with_contracts(
            indexed(sources, count - 1),
            sources[count - 1].file,
            sources[count - 1].contracts,
            sources[count - 1].contracts.len() as int,
        )
    }
}

/// Putting a contract into an index keeps the names distinct, and leaves
/// the contract under its name.
pub proof fn lemma_inserted(index: Seq<EntryView>, key: Seq<char>, contract: ContractView)
    requires
        distinct_keys(index),
    ensures
        distinct_keys(inserted(index, key, contract)),
        match position(inserted(index, key, contract), key) {
            Some(i) => inserted(index, key, contract)[i].contract == contract,
            None => false,
        },
        forall|other: Seq<char>|
            other != key ==> (has_key(inserted(index, key, contract), other) <==> has_key(
                index,
                other,
            )),
{
    lemma_position_found(index, key);
    let after = inserted(index, key, contract);
    lemma_position_found(after, key);
    match position(index, key) {
        Some(i) => {
            assert(after[i].key == key);
        },
        None => {
            assert(after[index.len() as int].key == key);
        },
    }
    assert forall|other: Seq<char>| other != key implies (has_key(after, other) <==> has_key(
        index,
        other,
    )) by {
        if has_key(after, other) {
            let w = choose|w: int| 0 <= w < after.len() && after[w].key == other;
            assert(index[w].key == other);
        }
        if has_key(index, other) {
            let w = choose|w: int| 0 <= w < index.len() && index[w].key == other;
            assert(after[w].key == other);
        }
    }
}

/// The contract that an index has under `key`, if it has one.
pub open spec fn lookup(index: Seq<EntryView>, key: Seq<char>) -> Option<ContractView> {
    match position(index, key) {
        Some(i) => Some(index[i].contract),
        None => None,
    }
}

/// An index with a contract put in answers for its key with that contract,
/// and for every other key as it did before: it is the mapping that it was,
/// with one key set.
pub proof fn lemma_lookup_inserted(
    index: Seq<EntryView>,
    key: Seq<char>,
    contract: ContractView,
    other: Seq<char>,
)
    ensures
        lookup(inserted(index, key, contract), other) == if other == key {
            Some(contract)
        } else {
            lookup(index, other)
        },
{
    let after = inserted(index, key, contract);
    lemma_position_found(index, key);
    lemma_position_found(index, other);
    match position(index, key) {
        Some(i) => {
            if other == key {
                assert(is_first(after, key, i));
                lemma_position_is(after, key, i);
            } else {
                match position(index, other) {
                    Some(j) => {
                        assert(is_first(after, other, j));
                        lemma_position_is(after, other, j);
                    },
                    None => {
                        assert forall|j: int| 0 <= j < after.len() implies after[j].key
                            != other by {
                            assert(index[j].key != other);
                        }
                        lemma_position_none(after, other);
                    },
                }
            }
        },
        None => {
            let last = index.len() as int;
            if other == key {
                assert(is_first(after, key, last));
                lemma_position_is(after, key, last);
            } else {
                match position(index, other) {
                    Some(j) => {
                        assert(is_first(after, other, j));
                        lemma_position_is(after, other, j);
                    },
                    None => {
                        assert forall|j: int| 0 <= j < after.len() implies after[j].key
                            != other by {
                            if j < last {
                                assert(index[j].key != other);
                            }
                        }
                        lemma_position_none(after, other);
                    },
                }
            }
        },
    }
}

/// The index of what the compiler gave has every contract of it under its
/// qualified name.
pub proof fn lemma_indexed_has_all(sources: Seq<SourceView>, s: int, c: int)
    requires
        0 <= s < sources.len(),
        0 <= c < sources[s].contracts.len(),
    ensures
        lookup(
            indexed(sources, sources.len() as int),
            key_of(sources[s].file, sources[s].contracts[c].name),
        ) is Some,
{
    lemma_indexed_keeps(sources, sources.len() as int, s, c);
}

/// What the index of the first `count` source files has for a contract of
/// one of them.
proof fn lemma_indexed_keeps(sources: Seq<SourceView>, count: int, s: int, c: int)
    requires
        0 <= s < count <= sources.len(),
        0 <= c < sources[s].contracts.len(),
    ensures
        lookup(indexed(sources, count), key_of(sources[s].file, sources[s].contracts[c].name))
            is Some,
    decreases count,
{
    let key = key_of(sources[s].file, sources[s].contracts[c].name);
    let last = sources[count - 1];
    if s < count - 1 {
        lemma_indexed_keeps(sources, count - 1, s, c);
        lemma_with_contracts_keeps(
            indexed(sources, count - 1),
            last.file,
            last.contracts,
            last.contracts.len() as int,
            key,
        );
    } else {
        lemma_with_contracts_has(
            indexed(sources, count - 1),
            last.file,
            last.contracts,
            last.contracts.len() as int,
            c,
        );
    }
}

/// Putting contracts into an index loses no key.
proof fn lemma_with_contracts_keeps(
    index: Seq<EntryView>,
    file: Seq<char>,
    contracts: Seq<NamedView>,
    count: int,
    key: Seq<char>,
)
    requires
        lookup(index, key) is Some,
        0 <= count <= contracts.len(),
    ensures
        lookup(with_contracts(index, file, contracts, count), key) is Some,
    decreases count,
{
    if count > 0 {
        lemma_with_contracts_keeps(index, file, contracts, count - 1, key);
        lemma_lookup_inserted(
            with_contracts(index, file, contracts, count - 1),
            key_of(file, contracts[count - 1].name),
            contracts[count - 1].contract,
            key,
        );
    }
}

/// An index with the first `count` contracts of a source file put in has
/// each of them under its qualified name.
proof fn lemma_with_contracts_has(
    index: Seq<EntryView>,
    file: Seq<char>,
    contracts: Seq<NamedView>,
    count: int,
    c: int,
)
    requires
        0 <= c < count <= contracts.len(),
    ensures
        lookup(with_contracts(index, file, contracts, count), key_of(file, contracts[c].name))
            is Some,
    decreases count,
{
    let key = key_of(file, contracts[c].name);
    if c < count - 1 {
        lemma_with_contracts_has(index, file, contracts, count - 1, c);
    }
    lemma_lookup_inserted(
        with_contracts(index, file, contracts, count - 1),
        key_of(file, contracts[count - 1].name),
        contracts[count - 1].contract,
        key,
    );
}

/// Flattens what the compiler gives, source file by source file and
/// contract by contract, into one index keyed by `file:name`. A contract
/// that comes later under a name that was there takes the place of the
/// earlier one.
pub fn index_artifacts(sources: &Vec<SourceContracts>) -> (index: ArtifactIndex)
    ensures
        index@ == indexed(source_views(sources@), sources@.len() as int),
        index.wf(),
{
    let mut index = ArtifactIndex::new();
    let ghost views = source_views(sources@);
    let mut i: usize = 0;
    while i < sources.len()
        invariant
            i <= sources.len(),
            views == source_views(sources@),
            index@ == indexed(views, i as int),
            index.wf(),
        decreases sources.len() - i,
    {
        let source = &sources[i];
        assert(views[i as int] == source@);
        let ghost before = index@;
        let ghost named = named_views(source.contracts@);
        let mut j: usize = 0;
        while j < source.contracts.len()
            invariant
                j <= source.contracts.len(),
                named == named_views(source.contracts@),
                index@ == with_contracts(before, source.file@, named, j as int),
                index.wf(),
            decreases source.contracts.len() - j,
        {
            let named_contract = &source.contracts[j];
            assert(named[j as int] == named_contract@);
            let key = artifact_key(source.file.as_str(), named_contract.name.as_str());
            index.insert(key, named_contract.contract.clone());
            j += 1;
        }
        i += 1;
    }
    index
}

} // verus!
