use crate::artifact::{
    artifact_key, placeholder_views, placeholders_of, BytecodeObject, BytecodeView,
    PlaceholderView,
};
use crate::index::{ArtifactIndex, EntryView};
use vstd::prelude::*;

verus! {

/// That a contract needs a library: one placeholder of its code.
pub struct LinkReference {
    /// The qualified name of the contract that needs the library.
    pub contract: String,
    /// The source file of the library.
    pub file: String,
    /// The name of the library.
    pub library: String,
    /// The qualified name of the library.
    pub key: String,
}

pub struct LinkReferenceView {
    pub contract: Seq<char>,
    pub file: Seq<char>,
    pub library: Seq<char>,
    pub key: Seq<char>,
}

impl View for LinkReference {
    type V = LinkReferenceView;

    open spec fn view(&self) -> LinkReferenceView {
        LinkReferenceView {
            contract: self.contract@,
            file: self.file@,
            library: self.library@,
            key: self.key@,
        }
    }
}

/// The views of a list of references, in order.
pub open spec fn reference_views(references: Seq<LinkReference>) -> Seq<LinkReferenceView> {
    references.map_values(|r: LinkReference| r@)
}

/// The reference that the contract `owner` makes by `placeholder`.
pub open spec fn reference_of(owner: Seq<char>, placeholder: PlaceholderView) -> LinkReferenceView {
    LinkReferenceView {
        contract: owner,
        file: placeholder.file,
        library: placeholder.library,
        key: placeholder.key(),
    }
}

/// The references that `owner` makes by `placeholders`, in order.
pub open spec fn references_by(
    owner: Seq<char>,
    placeholders: Seq<PlaceholderView>,
) -> Seq<LinkReferenceView> {
    placeholders.map_values(|p: PlaceholderView| reference_of(owner, p))
}

/// The references of one contract: one for each placeholder of its creation
/// code, then one for each placeholder of its runtime code.
pub open spec fn references_of(entry: EntryView) -> Seq<LinkReferenceView> {
    references_by(entry.key, entry.contract.references())
}

/// The references of every contract of an index, contract by contract.
pub open spec fn link_tree_of(index: Seq<EntryView>) -> Seq<Seq<LinkReferenceView>> {
    index.map_values(|e: EntryView| references_of(e))
}

/// For each contract of an index, the libraries that it needs.
pub struct LinkTree {
    pub references: Vec<Vec<LinkReference>>,
}

impl View for LinkTree {
    type V = Seq<Seq<LinkReferenceView>>;

    open spec fn view(&self) -> Seq<Seq<LinkReferenceView>> {
        self.references@.map_values(|r: Vec<LinkReference>| reference_views(r@))
    }
}

/// Puts the references that `owner` makes by the placeholders of `object`
/// behind `references`.
fn push_references(
    owner: &String,
    object: &Option<BytecodeObject>,
    references: &mut Vec<LinkReference>,
)
    ensures
        reference_views(final(references)@) == reference_views(old(references)@) + references_by(
            owner@,
            placeholders_of(
                match *object {
                    Some(o) => Some(o@),
                    None => None::<BytecodeView>,
                },
            ),
        ),
{
    let ghost before = reference_views(references@);
    match object {
        Some(BytecodeObject::Unlinked { code: _, placeholders }) => {
            let ghost views = placeholder_views(placeholders@);
            let mut i: usize = 0;
            while i < placeholders.len()
                invariant
                    i <= placeholders.len(),
                    views == placeholder_views(placeholders@),
                    reference_views(references@) == before + references_by(
                        owner@,
                        views.subrange(0, i as int),
                    ),
                decreases placeholders.len() - i,
            {
                let placeholder = &placeholders[i];
                let reference = LinkReference {
                    contract: owner.clone(),
                    file: placeholder.file.clone(),
                    library: placeholder.library.clone(),
                    key: artifact_key(placeholder.file.as_str(), placeholder.library.as_str()),
                };
                let ghost earlier = reference_views(references@);
                references.push(reference);
                assert(reference@ == reference_of(owner@, views[i as int]));
                assert(reference_views(references@) =~= earlier.push(reference@));
                assert(references_by(owner@, views.subrange(0, i + 1)) =~= references_by(
                    owner@,
                    views.subrange(0, i as int),
                ).push(reference@));
                assert(reference_views(references@) =~= before + references_by(
                    owner@,
                    views.subrange(0, i + 1),
                ));
                i += 1;
            }
            assert(views.subrange(0, i as int) =~= views);
        },
        _ => {
            assert(reference_views(references@) =~= before + references_by(
                owner@,
                Seq::<PlaceholderView>::empty(),
            ));
        },
    }
}

/// Lists, for each contract of the index, the libraries that its code still
/// waits for: one reference for each placeholder of its creation code, then
/// one for each placeholder of its runtime code. A contract whose code is
/// linked has none.
pub fn link_tree(index: &ArtifactIndex) -> (tree: LinkTree)
    ensures
        tree@ == link_tree_of(index@),
{
    let mut tree = LinkTree { references: Vec::new() };
    let mut i: usize = 0;
    while i < index.entries.len()
        invariant
            i <= index.entries.len(),
            tree@ == link_tree_of(index@.subrange(0, i as int)),
        decreases index.entries.len() - i,
    {
        let entry = &index.entries[i];
        assert(index@[i as int] == entry@);
        let mut references: Vec<LinkReference> = Vec::new();
        assert(reference_views(references@) =~= Seq::<LinkReferenceView>::empty());
        push_references(&entry.key, &entry.contract.bytecode, &mut references);
        push_references(&entry.key, &entry.contract.deployed_bytecode, &mut references);
        assert(reference_views(references@) =~= references_of(entry@));
        let ghost before = tree@;
        tree.references.push(references);
        assert(tree@ =~= before.push(references_of(entry@)));
        assert(tree@ =~= link_tree_of(index@.subrange(0, i + 1)));
        i += 1;
    }
    assert(index@.subrange(0, i as int) =~= index@);
    tree
}

/// A contract whose two codes are linked, or absent, needs no library.
pub proof fn lemma_linked_needs_nothing(entry: EntryView)
    requires
        entry.contract.bytecode matches Some(object) ==> object is Linked,
        entry.contract.deployed_bytecode matches Some(object) ==> object is Linked,
    ensures
        references_of(entry).len() == 0,
{
}

} // verus!
