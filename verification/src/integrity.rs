//! What the integrity checks of a system manifest report.
//!
//! `validate_system_manifest` reports the naming violations first; every
//! violation after them is one of a fixed set of integrity faults, each of
//! which really is present in the manifest.

use vstd::prelude::*;
use crate::manifest::{
    connection_violations, dependency_violations, duplicate_id_violations, flatten_list,
    flatten_sub, has_domain, ids_of, naming_violations, node_semantic_violations,
    semantic_violations_list, semantic_violations_sub, subs_view, system_violations, Connection,
    DomainDef, SubsystemView, SystemManifest, ViolationSpec,
};

verus! {

/// `v` reports a subsystem id that occurs at least twice in `flat`.
pub open spec fn repeated_id(flat: Seq<SubsystemView>, v: ViolationSpec) -> bool {
    &&& v.field == "id"@
    &&& v.value == v.subsystem_id
    &&& v.expected == "unique subsystem id"@
    &&& exists|i: int, j: int|
        0 <= i < j < flat.len() && #[trigger] flat[i].id == v.subsystem_id && #[trigger] flat[j].id
            == v.subsystem_id
}

/// `v` reports a fault of subsystem `s`'s own fields: an empty file path, a
/// domain that is not declared (when domains are declared), or a dependency
/// that names no subsystem.
pub open spec fn node_fault(
    s: SubsystemView,
    doms: Seq<(String, DomainDef)>,
    ids: Seq<Seq<char>>,
    v: ViolationSpec,
) -> bool {
    &&& v.subsystem_id == s.id
    &&& {
        ||| (v.field == "filePath"@ && v.value == Seq::<char>::empty() && v.expected
            == "non-empty directory path"@ && s.file_path.len() == 0)
        ||| (v.field == "domain"@ && v.value == s.domain && v.expected == "existing domain id"@
            && doms.len() > 0 && s.domain.len() > 0 && !has_domain(doms, s.domain))
        ||| (v.field == "dependencies"@ && v.expected == "existing subsystem id"@
            && s.dependencies.contains(v.value) && !ids.contains(v.value))
    }
}

/// `v` reports that child `c` has a domain other than its parent's
/// domain `p`, both being set.
pub open spec fn domain_mismatch(p: Seq<char>, c: SubsystemView, v: ViolationSpec) -> bool {
    &&& v.subsystem_id == c.id
    &&& v.field == "domain"@
    &&& v.value == c.domain
    &&& v.expected == "same domain as parent ("@ + p + ")"@
    &&& p.len() > 0
    &&& c.domain.len() > 0
    &&& c.domain != p
}

/// `v` reports a fault of a subsystem of `flat`, or a domain mismatch
/// between a subsystem of `flat` and one of its children.
pub open spec fn fault_in(
    flat: Seq<SubsystemView>,
    doms: Seq<(String, DomainDef)>,
    ids: Seq<Seq<char>>,
    v: ViolationSpec,
) -> bool {
    ||| exists|i: int| 0 <= i < flat.len() && node_fault(#[trigger] flat[i], doms, ids, v)
    ||| exists|i: int, j: int|
        0 <= i < flat.len() && 0 <= j < flat[i].children.len() && domain_mismatch(
            flat[i].domain,
            #[trigger] flat[i].children[j],
            v,
        )
}

/// `v` reports a connection endpoint that names no subsystem.
pub open spec fn endpoint_fault(c: Connection, ids: Seq<Seq<char>>, v: ViolationSpec) -> bool {
    ||| (v.field == "connections.from"@ && v.subsystem_id == c.from@ && v.value == c.from@
        && v.expected == "existing subsystem id"@ && !ids.contains(c.from@))
    ||| (v.field == "connections.to"@ && v.subsystem_id == c.to@ && v.value == c.to@
        && v.expected == "existing subsystem id"@ && !ids.contains(c.to@))
}

/// `v` is one of the integrity faults of the manifest.
pub open spec fn integrity_fault(m: SystemManifest, v: ViolationSpec) -> bool {
    let flat = flatten_list(subs_view(m.subsystems@));
    let ids = ids_of(flat);
    ||| repeated_id(flat, v)
    ||| fault_in(flat, m.domains@, ids, v)
    ||| exists|q: int| 0 <= q < m.connections@.len() && endpoint_fault(#[trigger] m.connections@[q], ids, v)
}

proof fn lemma_duplicates_sound(flat: Seq<SubsystemView>)
    ensures
        forall|k: int|
            0 <= k < duplicate_id_violations(flat).len() ==> repeated_id(
                flat,
                #[trigger] duplicate_id_violations(flat)[k],
            ),
    decreases flat.len(),
{
    if flat.len() > 0 {
        let init = flat.drop_last();
        lemma_duplicates_sound(init);
        let d = duplicate_id_violations(flat);
        let pd = duplicate_id_violations(init);
        assert forall|k: int| 0 <= k < d.len() implies repeated_id(flat, #[trigger] d[k]) by {
            if k < pd.len() {
                assert(d[k] == pd[k]);
                let v = pd[k];
                assert(repeated_id(init, v));
                let (i, j) = choose|i: int, j: int|
                    0 <= i < j < init.len() && #[trigger] init[i].id == v.subsystem_id
                        && #[trigger] init[j].id == v.subsystem_id;
                assert(flat[i] == init[i]);
                assert(flat[j] == init[j]);
            } else {
                let s = flat.last();
                assert(ids_of(init).contains(s.id));
                let i = choose|i: int| 0 <= i < ids_of(init).len() && ids_of(init)[i] == s.id;
                assert(flat[i] == init[i]);
                let j = flat.len() - 1;
                assert(flat[j].id == s.id);
            }
        }
    }
}

proof fn lemma_dependencies_sound(id: Seq<char>, deps: Seq<Seq<char>>, ids: Seq<Seq<char>>)
    ensures
        forall|k: int|
            0 <= k < dependency_violations(id, deps, ids).len() ==> {
                let v = #[trigger] dependency_violations(id, deps, ids)[k];
                &&& v.subsystem_id == id
                &&& v.field == "dependencies"@
                &&& v.expected == "existing subsystem id"@
                &&& deps.contains(v.value)
                &&& !ids.contains(v.value)
            },
    decreases deps.len(),
{
    if deps.len() > 0 {
        let init = deps.drop_last();
        lemma_dependencies_sound(id, init, ids);
        let d = dependency_violations(id, deps, ids);
        let pd = dependency_violations(id, init, ids);
        assert forall|k: int| 0 <= k < d.len() implies {
            let v = #[trigger] d[k];
            &&& v.subsystem_id == id
            &&& v.field == "dependencies"@
            &&& v.expected == "existing subsystem id"@
            &&& deps.contains(v.value)
            &&& !ids.contains(v.value)
        } by {
            if k < pd.len() {
                assert(d[k] == pd[k]);
                let x = pd[k].value;
                assert(init.contains(x));
                let q = choose|q: int| 0 <= q < init.len() && init[q] == x;
                assert(deps[q] == init[q]);
            } else {
                assert(deps[deps.len() - 1] == deps.last());
            }
        }
    }
}

proof fn lemma_node_sound(
    s: SubsystemView,
    doms: Seq<(String, DomainDef)>,
    ids: Seq<Seq<char>>,
    parent: Option<Seq<char>>,
)
    ensures
        forall|k: int|
            0 <= k < node_semantic_violations(s, doms, ids, parent).len() ==> {
                let v = #[trigger] node_semantic_violations(s, doms, ids, parent)[k];
                ||| node_fault(s, doms, ids, v)
                ||| (parent is Some && domain_mismatch(parent->0, s, v))
            },
{
    lemma_dependencies_sound(s.id, s.dependencies, ids);
}

proof fn lemma_fault_in_left(
    a: Seq<SubsystemView>,
    b: Seq<SubsystemView>,
    doms: Seq<(String, DomainDef)>,
    ids: Seq<Seq<char>>,
    v: ViolationSpec,
)
    requires
        fault_in(a, doms, ids, v),
    ensures
        fault_in(a + b, doms, ids, v),
{
    let c = a + b;
    if exists|i: int| 0 <= i < a.len() && node_fault(#[trigger] a[i], doms, ids, v) {
        let i = choose|i: int| 0 <= i < a.len() && node_fault(#[trigger] a[i], doms, ids, v);
        assert(c[i] == a[i]);
    } else {
        let (i, j) = choose|i: int, j: int|
            0 <= i < a.len() && 0 <= j < a[i].children.len() && domain_mismatch(
                a[i].domain,
                #[trigger] a[i].children[j],
                v,
            );
        assert(c[i] == a[i]);
        assert(domain_mismatch(c[i].domain, c[i].children[j], v));
    }
}

proof fn lemma_fault_in_right(
    a: Seq<SubsystemView>,
    b: Seq<SubsystemView>,
    doms: Seq<(String, DomainDef)>,
    ids: Seq<Seq<char>>,
    v: ViolationSpec,
)
    requires
        fault_in(b, doms, ids, v),
    ensures
        fault_in(a + b, doms, ids, v),
{
    let c = a + b;
    if exists|i: int| 0 <= i < b.len() && node_fault(#[trigger] b[i], doms, ids, v) {
        let i = choose|i: int| 0 <= i < b.len() && node_fault(#[trigger] b[i], doms, ids, v);
        assert(c[a.len() + i] == b[i]);
    } else {
        let (i, j) = choose|i: int, j: int|
            0 <= i < b.len() && 0 <= j < b[i].children.len() && domain_mismatch(
                b[i].domain,
                #[trigger] b[i].children[j],
                v,
            );
        assert(c[a.len() + i] == b[i]);
        assert(domain_mismatch(c[a.len() + i].domain, c[a.len() + i].children[j], v));
    }
}

proof fn lemma_semantics_sub_sound(
    s: SubsystemView,
    doms: Seq<(String, DomainDef)>,
    ids: Seq<Seq<char>>,
    parent: Option<Seq<char>>,
)
    ensures
        forall|k: int|
            0 <= k < semantic_violations_sub(s, doms, ids, parent).len() ==> {
                let v = #[trigger] semantic_violations_sub(s, doms, ids, parent)[k];
                ||| fault_in(flatten_sub(s), doms, ids, v)
                ||| (parent is Some && domain_mismatch(parent->0, s, v))
            },
    decreases s, 1int,
{
    let node = node_semantic_violations(s, doms, ids, parent);
    let rest = semantic_violations_list(s.children, doms, ids, Some(s.domain));
    let all = semantic_violations_sub(s, doms, ids, parent);
    let fs = flatten_sub(s);
    lemma_node_sound(s, doms, ids, parent);
    lemma_semantics_list_sound(s.children, doms, ids, Some(s.domain));
    assert(all == node + rest);
    assert(fs == seq![s] + flatten_list(s.children));
    assert(fs[0] == s);
    assert forall|k: int| 0 <= k < all.len() implies {
        let v = #[trigger] all[k];
        ||| fault_in(fs, doms, ids, v)
        ||| (parent is Some && domain_mismatch(parent->0, s, v))
    } by {
        let v = all[k];
        if k < node.len() {
            assert(v == node[k]);
            if node_fault(s, doms, ids, v) {
                assert(node_fault(fs[0], doms, ids, v));
            }
        } else {
            assert(v == rest[k - node.len()]);
            if fault_in(flatten_list(s.children), doms, ids, v) {
                lemma_fault_in_right(seq![s], flatten_list(s.children), doms, ids, v);
            } else {
                let j = choose|j: int| 0 <= j < s.children.len() && domain_mismatch(s.domain, #[trigger] s.children[j], v);
                assert(domain_mismatch(fs[0].domain, fs[0].children[j], v));
            }
        }
    }
}

proof fn lemma_semantics_list_sound(
    ss: Seq<SubsystemView>,
    doms: Seq<(String, DomainDef)>,
    ids: Seq<Seq<char>>,
    parent: Option<Seq<char>>,
)
    ensures
        forall|k: int|
            0 <= k < semantic_violations_list(ss, doms, ids, parent).len() ==> {
                let v = #[trigger] semantic_violations_list(ss, doms, ids, parent)[k];
                ||| fault_in(flatten_list(ss), doms, ids, v)
                ||| (parent is Some && exists|j: int|
                    0 <= j < ss.len() && domain_mismatch(parent->0, #[trigger] ss[j], v))
            },
    decreases ss, 0int,
{
    if ss.len() > 0 {
        let init = ss.drop_last();
        let last = ss.last();
        lemma_semantics_list_sound(init, doms, ids, parent);
        lemma_semantics_sub_sound(last, doms, ids, parent);
        let a = semantic_violations_list(init, doms, ids, parent);
        let b = semantic_violations_sub(last, doms, ids, parent);
        let all = semantic_violations_list(ss, doms, ids, parent);
        assert(all == a + b);
        assert(flatten_list(ss) == flatten_list(init) + flatten_sub(last));
        assert forall|k: int| 0 <= k < all.len() implies {
            let v = #[trigger] all[k];
            ||| fault_in(flatten_list(ss), doms, ids, v)
            ||| (parent is Some && exists|j: int|
                0 <= j < ss.len() && domain_mismatch(parent->0, #[trigger] ss[j], v))
        } by {
            let v = all[k];
            if k < a.len() {
                assert(v == a[k]);
                if fault_in(flatten_list(init), doms, ids, v) {
                    lemma_fault_in_left(flatten_list(init), flatten_sub(last), doms, ids, v);
                } else {
                    let j = choose|j: int| 0 <= j < init.len() && domain_mismatch(parent->0, #[trigger] init[j], v);
                    assert(ss[j] == init[j]);
                }
            } else {
                assert(v == b[k - a.len()]);
                if fault_in(flatten_sub(last), doms, ids, v) {
                    lemma_fault_in_right(flatten_list(init), flatten_sub(last), doms, ids, v);
                } else {
                    assert(ss[ss.len() - 1] == last);
                }
            }
        }
    }
}

proof fn lemma_connections_sound(conns: Seq<Connection>, ids: Seq<Seq<char>>)
    ensures
        forall|k: int|
            0 <= k < connection_violations(conns, ids).len() ==> exists|q: int|
                0 <= q < conns.len() && endpoint_fault(
                    #[trigger] conns[q],
                    ids,
                    #[trigger] connection_violations(conns, ids)[k],
                ),
    decreases conns.len(),
{
    if conns.len() > 0 {
        let init = conns.drop_last();
        let c = conns.last();
        lemma_connections_sound(init, ids);
        let all = connection_violations(conns, ids);
        let prev = connection_violations(init, ids);
        assert forall|k: int| 0 <= k < all.len() implies exists|q: int|
            0 <= q < conns.len() && endpoint_fault(#[trigger] conns[q], ids, #[trigger] all[k]) by {
            if k < prev.len() {
                assert(all[k] == prev[k]);
                let q = choose|q: int| 0 <= q < init.len() && endpoint_fault(#[trigger] init[q], ids, prev[k]);
                assert(conns[q] == init[q]);
            } else {
                let q = conns.len() - 1;
                assert(conns[q] == c);
                assert(endpoint_fault(conns[q], ids, all[k]));
            }
        }
    }
}

/// What `validate_system_manifest` reports, as a whole: first the naming
/// violations of the flattened tree, exactly as `validate_manifest` gives
/// them; then only integrity faults that are really present, each of one
/// of these kinds: a subsystem id that occurs twice or more in the
/// depth-first flattening; an empty file path; a domain that is not
/// declared while domains are; a child whose domain differs from its
/// parent's, both being set; a dependency, connection source or connection
/// target that names no subsystem of the tree.
pub proof fn lemma_system_violations_classified(m: SystemManifest)
    ensures
        ({
            let flat = flatten_list(subs_view(m.subsystems@));
            let r = system_violations(m);
            let n = naming_violations(flat).len();
            &&& n <= r.len()
            &&& r.take(n as int) == naming_violations(flat)
            &&& forall|k: int| n <= k < r.len() ==> integrity_fault(m, #[trigger] r[k])
        }),
{
    let flat = flatten_list(subs_view(m.subsystems@));
    let ids = ids_of(flat);
    let doms = m.domains@;
    let nv = naming_violations(flat);
    let dv = duplicate_id_violations(flat);
    let sv = semantic_violations_list(subs_view(m.subsystems@), doms, ids, None);
    let cv = connection_violations(m.connections@, ids);
    let r = system_violations(m);
    assert(r == nv + dv + sv + cv);
    assert(r.take(nv.len() as int) =~= nv);
    lemma_duplicates_sound(flat);
    lemma_semantics_list_sound(subs_view(m.subsystems@), doms, ids, None);
    lemma_connections_sound(m.connections@, ids);
    assert forall|k: int| nv.len() <= k < r.len() implies integrity_fault(m, #[trigger] r[k]) by {
        let v = r[k];
        if k < nv.len() + dv.len() {
            assert(v == dv[k - nv.len()]);
        } else if k < nv.len() + dv.len() + sv.len() {
            assert(v == sv[k - nv.len() - dv.len()]);
        } else {
            assert(v == cv[k - nv.len() - dv.len() - sv.len()]);
        }
    }
}

} // verus!
