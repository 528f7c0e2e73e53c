use crate::address::created_address;
use crate::artifact::{BytecodeView, ContractView, PlaceholderView};
use crate::index::{lemma_position_found, position};
use crate::link_model::{
    is_first_dependency, link_code, link_contract, link_node, planned, resolve, write_address,
    DependencyView, LinkContext, LinkErrorView, LinkedView,
};
use vstd::prelude::*;
use vstd::set_lib::{lemma_int_range, lemma_len_subset, lemma_subset_equality, set_int_range};

verus! {

/// The placeholders that linking fills in a contract: all of them where the
/// creation code is unlinked, none where it is linked or absent.
pub open spec fn to_fill(contract: ContractView) -> Seq<PlaceholderView> {
    match contract.bytecode {
        Some(BytecodeView::Unlinked { .. }) => contract.references(),
        _ => Seq::empty(),
    }
}

/// The placeholders that linking fills in the contract that goes by `key`.
pub open spec fn needs(cx: LinkContext, key: Seq<char>) -> Seq<PlaceholderView> {
    match position(cx.index, key) {
        Some(p) => to_fill(cx.index[p].contract),
        None => Seq::empty(),
    }
}

/// The plan `longer` starts with the plan `shorter`.
pub open spec fn extends(shorter: Seq<DependencyView>, longer: Seq<DependencyView>) -> bool {
    &&& shorter.len() <= longer.len()
    &&& forall|i: int| 0 <= i < shorter.len() ==> longer[i] == shorter[i]
}

/// The library `key` stands in the plan before place `i`.
pub open spec fn comes_before(deps: Seq<DependencyView>, i: int, key: Seq<char>) -> bool {
    exists|j: int| 0 <= j < i && j < deps.len() && deps[j].key == key
}

/// The `i`-th library of a plan gets the address that the sender's `i`-th
/// deployment creates.
pub open spec fn addresses_follow(cx: LinkContext, deps: Seq<DependencyView>) -> bool {
    forall|i: int|
        0 <= i < deps.len() ==> (#[trigger] deps[i]).address == created_address(
            cx.sender,
            cx.nonce + i,
        )
}

/// No library stands in the plan twice.
pub open spec fn deployed_once(deps: Seq<DependencyView>) -> bool {
    forall|i: int, j: int| 0 <= i < j < deps.len() ==> deps[i].key != deps[j].key
}

/// Every library of the plan is a contract of the index, and whatever it
/// needs stands in the plan before it.
pub open spec fn needs_come_first(cx: LinkContext, deps: Seq<DependencyView>) -> bool {
    &&& forall|i: int| 0 <= i < deps.len() ==> position(cx.index, (#[trigger] deps[i]).key) is Some
    &&& forall|i: int, k: int|
        0 <= i < deps.len() && 0 <= k < needs(cx, deps[i].key).len() ==> comes_before(
            deps,
            i,
            #[trigger] needs(cx, deps[i].key)[k].key(),
        )
}

/// What holds of every plan that linking builds.
pub open spec fn plan_ok(cx: LinkContext, deps: Seq<DependencyView>) -> bool {
    &&& addresses_follow(cx, deps)
    &&& deployed_once(deps)
    &&& needs_come_first(cx, deps)
}

/// The libraries that `longer` has behind `shorter` are contracts of the
/// index, none of them on `path`.
pub open spec fn fresh(
    cx: LinkContext,
    path: Seq<int>,
    shorter: Seq<DependencyView>,
    longer: Seq<DependencyView>,
) -> bool {
    forall|i: int|
        shorter.len() <= i < longer.len() ==> match position(cx.index, (#[trigger] longer[i]).key) {
            Some(q) => !path.contains(q),
            None => false,
        }
}

/// The address that the plan has for `key`.
pub open spec fn planned_address(deps: Seq<DependencyView>, key: Seq<char>) -> Seq<u8> {
    deps[planned(deps, key).unwrap()].address
}

/// `code` with the address that the plan has for its library written at
/// each placeholder from the `i`-th on, in order.
pub open spec fn filled(
    code: Seq<u8>,
    placeholders: Seq<PlaceholderView>,
    i: int,
    deps: Seq<DependencyView>,
) -> Seq<u8>
    decreases placeholders.len() - i,
{
    if i < 0 || i >= placeholders.len() {
        code
    } else {
        filled(
            write_address(
                code,
                placeholders[i].offset as int,
                planned_address(deps, placeholders[i].key()),
            ),
            placeholders,
            i + 1,
            deps,
        )
    }
}

/// What a found place in the plan holds.
pub proof fn lemma_planned_found(deps: Seq<DependencyView>, key: Seq<char>)
    ensures
        match planned(deps, key) {
            Some(i) => is_first_dependency(deps, key, i),
            None => forall|j: int| 0 <= j < deps.len() ==> deps[j].key != key,
        },
{
    if exists|w: int| 0 <= w < deps.len() && deps[w].key == key {
        let w = choose|w: int| 0 <= w < deps.len() && deps[w].key == key;
        lemma_first_dependency_exists(deps, key, w);
    }
}

proof fn lemma_first_dependency_exists(deps: Seq<DependencyView>, key: Seq<char>, w: int)
    requires
        0 <= w < deps.len(),
        deps[w].key == key,
    ensures
        exists|i: int| is_first_dependency(deps, key, i),
    decreases w,
{
    if forall|j: int| 0 <= j < w ==> deps[j].key != key {
        assert(is_first_dependency(deps, key, w));
    } else {
        let j = choose|j: int| 0 <= j < w && deps[j].key == key;
        lemma_first_dependency_exists(deps, key, j);
    }
}

/// The first library under a name is the only first one.
pub proof fn lemma_planned_unique(deps: Seq<DependencyView>, key: Seq<char>, i: int)
    requires
        is_first_dependency(deps, key, i),
    ensures
        planned(deps, key) == Some(i),
{
    let c = choose|c: int| is_first_dependency(deps, key, c);
    assert(is_first_dependency(deps, key, c));
    if c < i {
        assert(deps[c].key == key);
    } else if i < c {
        assert(deps[i].key == key);
    }
}

/// A library keeps its place when the plan grows.
pub proof fn lemma_planned_stays(
    shorter: Seq<DependencyView>,
    longer: Seq<DependencyView>,
    key: Seq<char>,
)
    requires
        extends(shorter, longer),
        planned(shorter, key) is Some,
    ensures
        planned(longer, key) == planned(shorter, key),
        planned_address(longer, key) == planned_address(shorter, key),
{
    lemma_planned_found(shorter, key);
    let d = planned(shorter, key).unwrap();
    assert(is_first_dependency(longer, key, d)) by {
        assert forall|j: int| 0 <= j < d implies longer[j].key != key by {
            assert(longer[j] == shorter[j]);
        }
    }
    lemma_planned_unique(longer, key, d);
}

/// The plan `longer` is the plan `shorter` grown by linking on `path`.
pub open spec fn grown(
    cx: LinkContext,
    path: Seq<int>,
    shorter: Seq<DependencyView>,
    longer: Seq<DependencyView>,
) -> bool {
    &&& extends(shorter, longer)
    &&& plan_ok(cx, longer)
    &&& fresh(cx, path, shorter, longer)
}

/// Every placeholder from the `i`-th on has its library in the plan.
pub open spec fn all_planned(
    placeholders: Seq<PlaceholderView>,
    i: int,
    deps: Seq<DependencyView>,
) -> bool {
    forall|k: int|
        0 <= i <= k < placeholders.len() ==> planned(deps, (#[trigger] placeholders[k]).key()) is Some
}

/// Resolving a library keeps a plan in order, and leaves the library in it
/// under the address that is handed out.
pub proof fn lemma_resolve(
    cx: LinkContext,
    key: Seq<char>,
    path: Seq<int>,
    deps: Seq<DependencyView>,
)
    requires
        plan_ok(cx, deps),
    ensures
        resolve(cx, key, path, deps) matches Ok(r) ==> {
            &&& grown(cx, path, deps, r.0)
            &&& planned(r.0, key) is Some
            &&& planned_address(r.0, key) == r.1
        },
    decreases cx.index.len() - path.len(), 0int, 0int,
{
    lemma_planned_found(deps, key);
    lemma_position_found(cx.index, key);
    if planned(deps, key) is None {
        if let Some(p) = position(cx.index, key) {
            if !(path.contains(p) || path.len() >= cx.index.len()) {
                let inner = path.push(p);
                lemma_node(cx, p, inner, deps);
                if let Ok(linked) = link_node(cx, p, inner, deps) {
                    let plan = linked.dependencies;
                    let n = plan.len() as int;
                    let address = created_address(cx.sender, cx.nonce + n);
                    let library = DependencyView { key, address, code: linked.bytecode };
                    let longer = plan.push(library);
                    assert(resolve(cx, key, path, deps) == Ok::<
                        (Seq<DependencyView>, Seq<u8>),
                        LinkErrorView,
                    >((longer, address)));
                    assert(inner.contains(p)) by {
                        assert(inner[path.len() as int] == p);
                    }
                    assert forall|j: int| 0 <= j < n implies plan[j].key != key by {
                        if j < deps.len() {
                            assert(plan[j] == deps[j]);
                        } else {
                            assert(position(cx.index, plan[j].key) is Some);
                        }
                    }
                    assert(is_first_dependency(longer, key, n));
                    lemma_planned_unique(longer, key, n);
                    assert(extends(deps, longer));
                    assert(addresses_follow(cx, longer)) by {
                        assert forall|i: int| 0 <= i < longer.len() implies (
                        #[trigger] longer[i]).address == created_address(
                            cx.sender,
                            cx.nonce + i,
                        ) by {
                            if i < n {
                                assert(longer[i] == plan[i]);
                            }
                        }
                    }
                    assert(deployed_once(longer)) by {
                        assert forall|i: int, j: int| 0 <= i < j < longer.len() implies longer[i].key
                            != longer[j].key by {
                            if j < n {
                                assert(longer[i] == plan[i] && longer[j] == plan[j]);
                            } else {
                                assert(longer[i] == plan[i]);
                            }
                        }
                    }
                    assert(needs_come_first(cx, longer)) by {
                        assert forall|i: int| 0 <= i < longer.len() implies position(
                            cx.index,
                            (#[trigger] longer[i]).key,
                        ) is Some by {
                            if i < n {
                                assert(longer[i] == plan[i]);
                            }
                        }
                        assert forall|i: int, k: int|
                            0 <= i < longer.len() && 0 <= k < needs(
                                cx,
                                longer[i].key,
                            ).len() implies comes_before(
                            longer,
                            i,
                            #[trigger] needs(cx, longer[i].key)[k].key(),
                        ) by {
                            let wanted = needs(cx, longer[i].key)[k].key();
                            if i < n {
                                assert(longer[i] == plan[i]);
                                assert(comes_before(plan, i, wanted));
                                let j = choose|j: int|
                                    0 <= j < i && j < plan.len() && plan[j].key == wanted;
                                assert(longer[j] == plan[j]);
                            } else {
                                assert(needs(cx, key) == to_fill(cx.index[p].contract));
                                lemma_references_planned(cx.index[p].contract, plan, k);
                                lemma_planned_found(plan, wanted);
                                let j = planned(plan, wanted).unwrap();
                                assert(longer[j] == plan[j]);
                            }
                        }
                    }
                    assert(fresh(cx, path, deps, longer)) by {
                        assert forall|i: int| deps.len() <= i < longer.len() implies match position(
                            cx.index,
                            (#[trigger] longer[i]).key,
                        ) {
                            Some(q) => !path.contains(q),
                            None => false,
                        } by {
                            if i < n {
                                assert(longer[i] == plan[i]);
                                let q = position(cx.index, plan[i].key).unwrap();
                                assert(!inner.contains(q));
                                if path.contains(q) {
                                    let w = choose|w: int| 0 <= w < path.len() && path[w] == q;
                                    assert(inner[w] == q);
                                }
                            }
                        }
                    }
                }
            }
        }
    } else {
        assert(extends(deps, deps));
    }
}

/// Placeholders of the creation code and of the runtime code that all have
/// their library in the plan: so has every placeholder that linking fills.
proof fn lemma_references_planned(contract: ContractView, deps: Seq<DependencyView>, k: int)
    requires
        contract.bytecode is Some,
        contract.deployed_bytecode is Some,
        all_planned(contract.bytecode.unwrap().placeholders(), 0, deps),
        contract.bytecode.unwrap() is Unlinked ==> all_planned(
            contract.deployed_bytecode.unwrap().placeholders(),
            0,
            deps,
        ),
        0 <= k < to_fill(contract).len(),
    ensures
        planned(deps, to_fill(contract)[k].key()) is Some,
{
    let creation = contract.bytecode.unwrap().placeholders();
    let runtime = contract.deployed_bytecode.unwrap().placeholders();
    if k < creation.len() {
        assert(contract.references()[k] == creation[k]);
    } else {
        assert(contract.references()[k] == runtime[k - creation.len()]);
    }
}

/// What holds of a contract that was linked: the creation code holds, at
/// each of its placeholders, the address that the plan has for the library;
/// and so does the runtime code, unless the creation code was linked from
/// the start: then the plan and the runtime code are as they were.
pub open spec fn filled_in(
    contract: ContractView,
    deps: Seq<DependencyView>,
    linked: LinkedView,
) -> bool {
    &&& contract.bytecode is Some
    &&& contract.deployed_bytecode is Some
    &&& all_planned(contract.bytecode.unwrap().placeholders(), 0, linked.dependencies)
    &&& linked.bytecode == filled(
        contract.bytecode.unwrap().code(),
        contract.bytecode.unwrap().placeholders(),
        0,
        linked.dependencies,
    )
    &&& if contract.bytecode.unwrap() is Linked {
        &&& linked.dependencies == deps
        &&& linked.deployed_bytecode == contract.deployed_bytecode.unwrap()
    } else {
        &&& all_planned(
            contract.deployed_bytecode.unwrap().placeholders(),
            0,
            linked.dependencies,
        )
        &&& linked.deployed_bytecode == BytecodeView::Linked(
            filled(
                contract.deployed_bytecode.unwrap().code(),
                contract.deployed_bytecode.unwrap().placeholders(),
                0,
                linked.dependencies,
            ),
        )
    }
}

/// Linking a contract keeps a plan in order, leaves every library that the
/// contract needs in it, and writes into each code the addresses of the plan.
pub proof fn lemma_node(cx: LinkContext, p: int, path: Seq<int>, deps: Seq<DependencyView>)
    requires
        plan_ok(cx, deps),
    ensures
        link_node(cx, p, path, deps) matches Ok(linked) ==> {
            &&& grown(cx, path, deps, linked.dependencies)
            &&& filled_in(cx.index[p].contract, deps, linked)
        },
    decreases cx.index.len() - path.len(), 2int, 0int,
{
    let key = cx.index[p].key;
    let contract = cx.index[p].contract;
    if let (Some(creation), Some(runtime)) = (contract.bytecode, contract.deployed_bytecode) {
        if creation is Linked {
            assert(extends(deps, deps));
        } else {
            lemma_code(cx, key, creation.placeholders(), 0, path, deps, creation.code());
            if let Ok((deps1, bytecode)) = link_code(
                cx,
                key,
                creation.placeholders(),
                0,
                path,
                deps,
                creation.code(),
            ) {
                lemma_code(cx, key, runtime.placeholders(), 0, path, deps1, runtime.code());
                if let Ok((deps2, deployed_bytecode)) = link_code(
                    cx,
                    key,
                    runtime.placeholders(),
                    0,
                    path,
                    deps1,
                    runtime.code(),
                ) {
                    lemma_grown_twice(cx, path, deps, deps1, deps2);
                    lemma_all_planned_stays(creation.placeholders(), 0, deps1, deps2);
                    lemma_filled_stays(creation.code(), creation.placeholders(), 0, deps1, deps2);
                }
            }
        }
    }
}

/// Growing a plan twice grows it.
pub proof fn lemma_grown_twice(
    cx: LinkContext,
    path: Seq<int>,
    a: Seq<DependencyView>,
    b: Seq<DependencyView>,
    c: Seq<DependencyView>,
)
    requires
        grown(cx, path, a, b),
        grown(cx, path, b, c),
    ensures
        grown(cx, path, a, c),
{
    assert forall|i: int| 0 <= i < a.len() implies c[i] == a[i] by {
        assert(b[i] == a[i]);
    }
    assert forall|i: int| a.len() <= i < c.len() implies match position(
        cx.index,
        (#[trigger] c[i]).key,
    ) {
        Some(q) => !path.contains(q),
        None => false,
    } by {
        if i < b.len() {
            assert(c[i] == b[i]);
        }
    }
}

/// Libraries that are in a plan are in every plan that starts with it.
pub proof fn lemma_all_planned_stays(
    placeholders: Seq<PlaceholderView>,
    i: int,
    shorter: Seq<DependencyView>,
    longer: Seq<DependencyView>,
)
    requires
        extends(shorter, longer),
        all_planned(placeholders, i, shorter),
    ensures
        all_planned(placeholders, i, longer),
{
    assert forall|k: int| 0 <= i <= k < placeholders.len() implies planned(
        longer,
        (#[trigger] placeholders[k]).key(),
    ) is Some by {
        lemma_planned_stays(shorter, longer, placeholders[k].key());
    }
}

/// Code filled from a plan is filled alike from every plan that starts with
/// it, as long as the plan has the libraries.
pub proof fn lemma_filled_stays(
    code: Seq<u8>,
    placeholders: Seq<PlaceholderView>,
    i: int,
    shorter: Seq<DependencyView>,
    longer: Seq<DependencyView>,
)
    requires
        extends(shorter, longer),
        all_planned(placeholders, i, shorter),
        0 <= i,
    ensures
        filled(code, placeholders, i, longer) == filled(code, placeholders, i, shorter),
    decreases placeholders.len() - i,
{
    if i < placeholders.len() {
        let placeholder = placeholders[i];
        lemma_planned_stays(shorter, longer, placeholder.key());
        lemma_filled_stays(
            write_address(
                code,
                placeholder.offset as int,
                planned_address(shorter, placeholder.key()),
            ),
            placeholders,
            i + 1,
            shorter,
            longer,
        );
    }
}

/// Filling the placeholders of a code keeps a plan in order, leaves their
/// libraries in it, and writes the addresses of the plan.
pub proof fn lemma_code(
    cx: LinkContext,
    owner: Seq<char>,
    placeholders: Seq<PlaceholderView>,
    i: int,
    path: Seq<int>,
    deps: Seq<DependencyView>,
    code: Seq<u8>,
)
    requires
        plan_ok(cx, deps),
        0 <= i,
    ensures
        link_code(cx, owner, placeholders, i, path, deps, code) matches Ok(r) ==> {
            &&& grown(cx, path, deps, r.0)
            &&& all_planned(placeholders, i, r.0)
            &&& r.1 == filled(code, placeholders, i, r.0)
        },
    decreases cx.index.len() - path.len(), 1int, placeholders.len() - i,
{
    if i >= placeholders.len() {
        assert(extends(deps, deps));
    } else {
        let placeholder = placeholders[i];
        lemma_resolve(cx, placeholder.key(), path, deps);
        if let Ok((deps1, address)) = resolve(cx, placeholder.key(), path, deps) {
            let written = write_address(code, placeholder.offset as int, address);
            lemma_code(cx, owner, placeholders, i + 1, path, deps1, written);
            if let Ok((deps2, linked)) = link_code(
                cx,
                owner,
                placeholders,
                i + 1,
                path,
                deps1,
                written,
            ) {
                lemma_grown_twice(cx, path, deps, deps1, deps2);
                lemma_planned_stays(deps1, deps2, placeholder.key());
                assert(all_planned(placeholders, i, deps2)) by {
                    assert forall|k: int| 0 <= i <= k < placeholders.len() implies planned(
                        deps2,
                        (#[trigger] placeholders[k]).key(),
                    ) is Some by {
                        if k == i {
                        } else {
                            assert(i + 1 <= k);
                        }
                    }
                }
            }
        }
    }
}

/// What holds of a contract that was linked from an empty plan: the plan
/// is in order and holds neither the contract nor anything else twice, and
/// the codes are filled in from it.
pub open spec fn well_linked(cx: LinkContext, p: int, linked: LinkedView) -> bool {
    &&& plan_ok(cx, linked.dependencies)
    &&& fresh(cx, seq![p], Seq::empty(), linked.dependencies)
    &&& filled_in(cx.index[p].contract, Seq::empty(), linked)
}

/// Every contract that links is well linked.
pub proof fn lemma_link_contract(cx: LinkContext, p: int)
    ensures
        link_contract(cx, p) matches Ok(linked) ==> well_linked(cx, p, linked),
{
    lemma_node(cx, p, seq![p], Seq::empty());
}

/// The libraries of a linked contract get the addresses that the sender's
/// deployments create from the first nonce on, one nonce each, in the order
/// of the plan.
pub proof fn lemma_addresses_follow_nonces(cx: LinkContext, p: int, i: int)
    requires
        link_contract(cx, p) is Ok,
        0 <= i < link_contract(cx, p)->Ok_0.dependencies.len(),
    ensures
        link_contract(cx, p)->Ok_0.dependencies[i].address == created_address(
            cx.sender,
            cx.nonce + i,
        ),
{
    lemma_link_contract(cx, p);
}

/// A library is deployed once, however many placeholders ask for it, and
/// every placeholder that asks for it is filled with its one address.
pub proof fn lemma_each_library_once(cx: LinkContext, p: int)
    requires
        link_contract(cx, p) is Ok,
    ensures
        ({
            let linked = link_contract(cx, p)->Ok_0;
            let creation = cx.index[p].contract.bytecode.unwrap();
            let runtime = cx.index[p].contract.deployed_bytecode.unwrap();
            &&& deployed_once(linked.dependencies)
            &&& all_planned(creation.placeholders(), 0, linked.dependencies)
            &&& linked.bytecode == filled(
                creation.code(),
                creation.placeholders(),
                0,
                linked.dependencies,
            )
            &&& creation is Unlinked ==> {
                &&& all_planned(runtime.placeholders(), 0, linked.dependencies)
                &&& linked.deployed_bytecode == BytecodeView::Linked(
                    filled(runtime.code(), runtime.placeholders(), 0, linked.dependencies),
                )
            }
        }),
{
    lemma_link_contract(cx, p);
}

/// Whatever a library of the plan needs stands in the plan before it.
pub proof fn lemma_needs_come_first(cx: LinkContext, p: int, i: int, k: int)
    requires
        link_contract(cx, p) is Ok,
        0 <= i < link_contract(cx, p)->Ok_0.dependencies.len(),
        0 <= k < needs(cx, link_contract(cx, p)->Ok_0.dependencies[i].key).len(),
    ensures
        ({
            let deps = link_contract(cx, p)->Ok_0.dependencies;
            comes_before(deps, i, needs(cx, deps[i].key)[k].key())
        }),
{
    lemma_link_contract(cx, p);
}

/// A linked contract is not among its own libraries, and no library of the
/// plan needs itself.
pub proof fn lemma_no_library_needs_itself(cx: LinkContext, p: int, i: int)
    requires
        link_contract(cx, p) is Ok,
        0 <= i < link_contract(cx, p)->Ok_0.dependencies.len(),
    ensures
        ({
            let deps = link_contract(cx, p)->Ok_0.dependencies;
            &&& position(cx.index, deps[i].key) != Some(p)
            &&& forall|k: int|
                0 <= k < needs(cx, deps[i].key).len() ==> (#[trigger] needs(
                    cx,
                    deps[i].key,
                )[k]).key() != deps[i].key
        }),
{
    lemma_link_contract(cx, p);
    let deps = link_contract(cx, p)->Ok_0.dependencies;
    assert(seq![p].contains(p)) by {
        assert(seq![p][0] == p);
    }
    assert(position(cx.index, deps[i].key) is Some);
    assert forall|k: int| 0 <= k < needs(cx, deps[i].key).len() implies (#[trigger] needs(
        cx,
        deps[i].key,
    )[k]).key() != deps[i].key by {
        assert(comes_before(deps, i, needs(cx, deps[i].key)[k].key()));
    }
}

/// A contract without placeholders links to itself: no library, and both
/// codes as they were compiled.
pub proof fn lemma_nothing_to_link(cx: LinkContext, p: int)
    requires
        cx.index[p].contract.bytecode is Some,
        cx.index[p].contract.deployed_bytecode is Some,
        cx.index[p].contract.references().len() == 0,
    ensures
        link_contract(cx, p) matches Ok(linked) && {
            &&& linked.dependencies.len() == 0
            &&& linked.bytecode == cx.index[p].contract.bytecode.unwrap().code()
            &&& linked.deployed_bytecode.code()
                == cx.index[p].contract.deployed_bytecode.unwrap().code()
            &&& linked.deployed_bytecode.placeholders().len() == 0
        },
{
    let contract = cx.index[p].contract;
    let creation = contract.bytecode.unwrap();
    let runtime = contract.deployed_bytecode.unwrap();
    assert(creation.placeholders().len() == 0);
    assert(runtime.placeholders().len() == 0);
}

/// A contract whose creation code is linked comes back at once: no library,
/// and both codes as they are.
pub proof fn lemma_linked_comes_back(cx: LinkContext, p: int)
    requires
        cx.index[p].contract.bytecode matches Some(creation) && creation is Linked,
        cx.index[p].contract.deployed_bytecode is Some,
    ensures
        link_contract(cx, p) == Ok::<LinkedView, LinkErrorView>(
            LinkedView {
                dependencies: Seq::empty(),
                bytecode: cx.index[p].contract.bytecode.unwrap().code(),
                deployed_bytecode: cx.index[p].contract.deployed_bytecode.unwrap(),
            },
        ),
{
}

/// A plan without libraries has no library.
pub proof fn lemma_nothing_planned(key: Seq<char>)
    ensures
        planned(Seq::<DependencyView>::empty(), key) is None,
{
}

/// A contract whose first placeholder asks for the contract itself does not
/// link: the cycle is reported.
pub proof fn lemma_self_reference_fails(cx: LinkContext, p: int)
    requires
        cx.index[p].contract.bytecode is Some,
        cx.index[p].contract.deployed_bytecode is Some,
        cx.index[p].contract.bytecode.unwrap().placeholders().len() > 0,
        cx.index[p].contract.bytecode.unwrap().placeholders()[0].key() == cx.index[p].key,
        position(cx.index, cx.index[p].key) == Some(p),
    ensures
        link_contract(cx, p) == Err::<LinkedView, LinkErrorView>(
            LinkErrorView::Cycle { key: cx.index[p].key },
        ),
{
    let key = cx.index[p].key;
    let creation = cx.index[p].contract.bytecode.unwrap();
    let path = seq![p];
    let empty = Seq::<DependencyView>::empty();
    lemma_nothing_planned(key);
    assert(path.contains(p)) by {
        assert(path[0] == p);
    }
    assert(resolve(cx, key, path, empty) == Err::<(Seq<DependencyView>, Seq<u8>), LinkErrorView>(
        LinkErrorView::Cycle { key },
    ));
    assert(link_code(cx, key, creation.placeholders(), 0, path, empty, creation.code()) == Err::<
        (Seq<DependencyView>, Seq<u8>),
        LinkErrorView,
    >(LinkErrorView::Cycle { key }));
}

/// Two contracts of which each asks first for the other do not link: the
/// cycle is reported when the second asks for the first.
pub proof fn lemma_mutual_reference_fails(cx: LinkContext, a: int, b: int)
    requires
        a != b,
        position(cx.index, cx.index[a].key) == Some(a),
        position(cx.index, cx.index[b].key) == Some(b),
        cx.index[a].contract.bytecode is Some,
        cx.index[a].contract.deployed_bytecode is Some,
        cx.index[b].contract.bytecode is Some,
        cx.index[b].contract.deployed_bytecode is Some,
        cx.index[a].contract.bytecode.unwrap().placeholders().len() > 0,
        cx.index[a].contract.bytecode.unwrap().placeholders()[0].key() == cx.index[b].key,
        cx.index[b].contract.bytecode.unwrap().placeholders().len() > 0,
        cx.index[b].contract.bytecode.unwrap().placeholders()[0].key() == cx.index[a].key,
    ensures
        link_contract(cx, a) == Err::<LinkedView, LinkErrorView>(
            LinkErrorView::Cycle { key: cx.index[a].key },
        ),
{
    let key_a = cx.index[a].key;
    let key_b = cx.index[b].key;
    let code_a = cx.index[a].contract.bytecode.unwrap();
    let code_b = cx.index[b].contract.bytecode.unwrap();
    let outer = seq![a];
    let inner = outer.push(b);
    let empty = Seq::<DependencyView>::empty();
    let cycle = LinkErrorView::Cycle { key: key_a };
    lemma_nothing_planned(key_a);
    lemma_nothing_planned(key_b);
    lemma_position_found(cx.index, key_a);
    lemma_position_found(cx.index, key_b);
    assert(inner.contains(a)) by {
        assert(inner[0] == a);
    }
    assert(!outer.contains(b));
    assert(outer.len() < cx.index.len());
    assert(resolve(cx, key_a, inner, empty) == Err::<(Seq<DependencyView>, Seq<u8>), LinkErrorView>(
        cycle,
    ));
    assert(link_code(cx, key_b, code_b.placeholders(), 0, inner, empty, code_b.code()) == Err::<
        (Seq<DependencyView>, Seq<u8>),
        LinkErrorView,
    >(cycle));
    assert(link_node(cx, b, inner, empty) == Err::<LinkedView, LinkErrorView>(cycle));
    assert(resolve(cx, key_b, outer, empty) == Err::<(Seq<DependencyView>, Seq<u8>), LinkErrorView>(
        cycle,
    ));
    assert(link_code(cx, key_a, code_a.placeholders(), 0, outer, empty, code_a.code()) == Err::<
        (Seq<DependencyView>, Seq<u8>),
        LinkErrorView,
    >(cycle));
}

/// A path as linking walks it: no place twice, every place in the index.
pub open spec fn sound_path(path: Seq<int>, contracts: int) -> bool {
    &&& path.no_duplicates()
    &&& forall|i: int| 0 <= i < path.len() ==> 0 <= #[trigger] path[i] < contracts
}

/// A sound path stays sound when a place of the index that is not on it is
/// put behind it, which is how linking goes deeper.
pub proof fn lemma_path_stays_sound(path: Seq<int>, contracts: int, p: int)
    requires
        sound_path(path, contracts),
        0 <= p < contracts,
        !path.contains(p),
    ensures
        sound_path(path.push(p), contracts),
{
    let longer = path.push(p);
    assert forall|i: int, j: int|
        0 <= i < longer.len() && 0 <= j < longer.len() && i != j implies longer[i]
        != longer[j] by {
        if i < path.len() {
            assert(path.contains(longer[i]));
        }
        if j < path.len() {
            assert(path.contains(longer[j]));
        }
    }
}

/// A sound path that is as long as the index holds every place of it. So a
/// library is reported as a cycle only where it is itself being linked: that
/// the path is full is never the sole reason.
pub proof fn lemma_full_path_holds_every_place(path: Seq<int>, contracts: int, p: int)
    requires
        sound_path(path, contracts),
        path.len() >= contracts,
        0 <= p < contracts,
    ensures
        path.contains(p),
{
    let on_path = path.to_set();
    let all = set_int_range(0, contracts);
    path.unique_seq_to_set();
    lemma_int_range(0, contracts);
    assert(on_path.subset_of(all)) by {
        assert forall|q: int| on_path.contains(q) implies all.contains(q) by {
            let i = choose|i: int| 0 <= i < path.len() && path[i] == q;
            assert(0 <= path[i] < contracts);
        }
    }
    lemma_len_subset(on_path, all);
    lemma_subset_equality(on_path, all);
    assert(all.contains(p));
    assert(on_path.contains(p));
}

/// The contract `from` has a placeholder for the library `to`.
pub open spec fn needs_library(cx: LinkContext, from: Seq<char>, to: Seq<char>) -> bool {
    exists|k: int| 0 <= k < needs(cx, from).len() && #[trigger] needs(cx, from)[k].key() == to
}

/// Each contract of the chain has a placeholder for the next.
pub open spec fn is_chain(cx: LinkContext, chain: Seq<Seq<char>>) -> bool {
    forall|i: int| 0 <= i < chain.len() - 1 ==> needs_library(cx, #[trigger] chain[i], chain[i + 1])
}

/// Where a contract stands in the order of deployment: a library at its
/// place in the plan, the contract that is linked behind them all.
pub open spec fn rank(deps: Seq<DependencyView>, key: Seq<char>) -> int {
    match planned(deps, key) {
        Some(d) => d,
        None => deps.len() as int,
    }
}

/// Where a contract links, no chain of needs that starts at the contract
/// or at one of its libraries comes back to where it started: a contract
/// that is part of a cycle, or needs a library that is, does not link.
pub proof fn lemma_no_cycle(cx: LinkContext, p: int, chain: Seq<Seq<char>>)
    requires
        link_contract(cx, p) is Ok,
        position(cx.index, cx.index[p].key) == Some(p),
        chain.len() >= 2,
        is_chain(cx, chain),
        chain[0] == cx.index[p].key || planned(
            link_contract(cx, p)->Ok_0.dependencies,
            chain[0],
        ) is Some,
    ensures
        chain.last() != chain[0],
{
    let deps = link_contract(cx, p)->Ok_0.dependencies;
    lemma_chain_descends(cx, p, chain, chain.len() - 1);
}

/// Along a chain of needs the rank falls with every step.
proof fn lemma_chain_descends(cx: LinkContext, p: int, chain: Seq<Seq<char>>, i: int)
    requires
        link_contract(cx, p) is Ok,
        position(cx.index, cx.index[p].key) == Some(p),
        is_chain(cx, chain),
        1 <= i < chain.len(),
        chain[0] == cx.index[p].key || planned(
            link_contract(cx, p)->Ok_0.dependencies,
            chain[0],
        ) is Some,
    ensures
        planned(link_contract(cx, p)->Ok_0.dependencies, chain[i]) is Some,
        rank(link_contract(cx, p)->Ok_0.dependencies, chain[i]) < rank(
            link_contract(cx, p)->Ok_0.dependencies,
            chain[i - 1],
        ),
        rank(link_contract(cx, p)->Ok_0.dependencies, chain[i]) < rank(
            link_contract(cx, p)->Ok_0.dependencies,
            chain[0],
        ),
    decreases i,
{
    let linked = link_contract(cx, p)->Ok_0;
    let deps = linked.dependencies;
    lemma_link_contract(cx, p);
    let from = chain[i - 1];
    let to = chain[i];
    if i > 1 {
        lemma_chain_descends(cx, p, chain, i - 1);
    }
    assert(needs_library(cx, from, to));
    let k = choose|k: int| 0 <= k < needs(cx, from).len() && #[trigger] needs(cx, from)[k].key() == to;
    lemma_planned_found(deps, from);
    lemma_planned_found(deps, to);
    match planned(deps, from) {
        Some(d) => {
            assert(comes_before(deps, d, needs(cx, deps[d].key)[k].key()));
            let j = choose|j: int| 0 <= j < d && j < deps.len() && deps[j].key == to;
            assert(deps[j].key == to);
        },
        None => {
            // only the linked contract itself stands outside the plan
            assert(i == 1);
            assert(from == cx.index[p].key);
            assert(needs(cx, from) == to_fill(cx.index[p].contract));
            lemma_references_planned(cx.index[p].contract, deps, k);
        },
    }
}

} // verus!
