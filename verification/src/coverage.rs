//! Every file of a directory partition goes to exactly one agent.

use vstd::prelude::*;
use vstd::multiset::Multiset;
use crate::builder::ins_sorted;
use crate::ir::IrFile;
use crate::prompt::{
    by_count, directory_assignment, files_assignment, groups_files, hybrid_assignment, hybrid_share,
    lemma_div_bounds, min_nat, spec_hybrid_assignments, groups_paths, ins_by_count, ins_path,
    paths_with_status, round_robin, sort_paths, spec_directory_assignments, top_dir, top_groups,
    AssignmentView,
};

verus! {

broadcast use vstd::seq_lib::group_seq_properties, vstd::seq_lib::lemma_multiset_commutative,
    vstd::multiset::group_multiset_axioms;

/// The paths of some files, in order.
pub open spec fn paths_of(fs: Seq<IrFile>) -> Seq<Seq<char>> {
    fs.map_values(|f: IrFile| f.path@)
}

/// The paths of some files, counted with multiplicity.
pub open spec fn path_bag(fs: Seq<IrFile>) -> Multiset<Seq<char>> {
    paths_of(fs).to_multiset()
}

/// The paths of the files of a run of groups, counted with multiplicity.
pub open spec fn groups_bag(es: Seq<(Seq<char>, Seq<IrFile>)>) -> Multiset<Seq<char>> {
    path_bag(groups_files(es))
}

/// Every path handed to the agents, built and not built, agent by agent.
pub open spec fn assigned_paths(asg: Seq<AssignmentView>) -> Seq<Seq<char>>
    decreases asg.len(),
{
    if asg.len() == 0 {
        Seq::empty()
    } else {
        assigned_paths(asg.drop_last()) + asg.last().built_files + asg.last().non_built_files
    }
}

proof fn lemma_path_bag_concat(a: Seq<IrFile>, b: Seq<IrFile>)
    ensures
        path_bag(a + b) == path_bag(a).add(path_bag(b)),
{
    assert(paths_of(a + b) =~= paths_of(a) + paths_of(b));
}

proof fn lemma_groups_bag_push(es: Seq<(Seq<char>, Seq<IrFile>)>, x: (Seq<char>, Seq<IrFile>))
    ensures
        groups_bag(es.push(x)) == groups_bag(es).add(path_bag(x.1)),
{
    assert(es.push(x).drop_last() =~= es);
    lemma_path_bag_concat(groups_files(es), x.1);
}

proof fn lemma_groups_bag_concat(a: Seq<(Seq<char>, Seq<IrFile>)>, b: Seq<(Seq<char>, Seq<IrFile>)>)
    ensures
        groups_bag(a + b) == groups_bag(a).add(groups_bag(b)),
    decreases b.len(),
{
    if b.len() == 0 {
        assert(a + b =~= a);
        assert(groups_files(b) =~= Seq::<IrFile>::empty());
        assert(paths_of(groups_files(b)) =~= Seq::<Seq<char>>::empty());
        assert(groups_bag(a).add(groups_bag(b)) =~= groups_bag(a));
    } else {
        lemma_groups_bag_concat(a, b.drop_last());
        assert(a + b =~= (a + b.drop_last()).push(b.last()));
        lemma_groups_bag_push(a + b.drop_last(), b.last());
        assert(b =~= b.drop_last().push(b.last()));
        lemma_groups_bag_push(b.drop_last(), b.last());
        assert(groups_bag(a + b) =~= groups_bag(a).add(groups_bag(b)));
    }
}

proof fn lemma_ins_path_bag(s: Seq<Seq<char>>, x: Seq<char>)
    ensures
        ins_path(s, x).to_multiset() == s.to_multiset().insert(x),
    decreases s.len(),
{
    if s.len() > 0 && crate::prompt::path_lt(x, s.last()) {
        lemma_ins_path_bag(s.drop_last(), x);
        assert(s =~= s.drop_last().push(s.last()));
        assert(ins_path(s, x).to_multiset() =~= s.to_multiset().insert(x));
    }
}

proof fn lemma_sort_paths_bag(s: Seq<Seq<char>>)
    ensures
        sort_paths(s).to_multiset() == s.to_multiset(),
    decreases s.len(),
{
    if s.len() > 0 {
        lemma_sort_paths_bag(s.drop_last());
        lemma_ins_path_bag(sort_paths(s.drop_last()), s.last());
        assert(s =~= s.drop_last().push(s.last()));
    }
}

proof fn lemma_status_split(fs: Seq<IrFile>)
    ensures
        paths_with_status(fs, true).to_multiset().add(paths_with_status(fs, false).to_multiset())
            == path_bag(fs),
    decreases fs.len(),
{
    if fs.len() == 0 {
        assert(paths_of(fs) =~= Seq::<Seq<char>>::empty());
        assert(paths_with_status(fs, true).to_multiset().add(paths_with_status(fs, false).to_multiset())
            =~= Multiset::<Seq<char>>::empty());
    } else {
        lemma_status_split(fs.drop_last());
        assert(paths_of(fs) =~= paths_of(fs.drop_last()).push(fs.last().path@));
        assert(paths_with_status(fs, true).to_multiset().add(paths_with_status(fs, false).to_multiset())
            =~= path_bag(fs));
    }
}

proof fn lemma_groups_paths_split(es: Seq<(Seq<char>, Seq<IrFile>)>)
    ensures
        groups_paths(es, true).to_multiset().add(groups_paths(es, false).to_multiset()) == groups_bag(es),
    decreases es.len(),
{
    if es.len() == 0 {
        assert(groups_files(es) =~= Seq::<IrFile>::empty());
        assert(paths_of(groups_files(es)) =~= Seq::<Seq<char>>::empty());
        assert(groups_paths(es, true).to_multiset().add(groups_paths(es, false).to_multiset())
            =~= Multiset::<Seq<char>>::empty());
    } else {
        let init = es.drop_last();
        let x = es.last();
        lemma_groups_paths_split(init);
        lemma_sort_paths_bag(paths_with_status(x.1, true));
        lemma_sort_paths_bag(paths_with_status(x.1, false));
        lemma_status_split(x.1);
        assert(init.push(x) =~= es);
        lemma_groups_bag_push(init, x);
        assert(groups_paths(es, true).to_multiset().add(groups_paths(es, false).to_multiset())
            =~= groups_bag(es));
    }
}

proof fn lemma_ins_by_count_bag(s: Seq<(Seq<char>, Seq<IrFile>)>, x: (Seq<char>, Seq<IrFile>))
    ensures
        groups_bag(ins_by_count(s, x)) == groups_bag(s).add(path_bag(x.1)),
    decreases s.len(),
{
    if s.len() == 0 {
        assert(seq![x] =~= s.push(x));
        lemma_groups_bag_push(s, x);
    } else if x.1.len() > s.last().1.len() {
        lemma_ins_by_count_bag(s.drop_last(), x);
        lemma_groups_bag_push(ins_by_count(s.drop_last(), x), s.last());
        assert(s.drop_last().push(s.last()) =~= s);
        lemma_groups_bag_push(s.drop_last(), s.last());
        assert(groups_bag(ins_by_count(s, x)) =~= groups_bag(s).add(path_bag(x.1)));
    } else {
        lemma_groups_bag_push(s, x);
    }
}

proof fn lemma_by_count_bag(g: Seq<(Seq<char>, Seq<IrFile>)>)
    ensures
        groups_bag(by_count(g)) == groups_bag(g),
    decreases g.len(),
{
    if g.len() > 0 {
        lemma_by_count_bag(g.drop_last());
        lemma_ins_by_count_bag(by_count(g.drop_last()), g.last());
        assert(g.drop_last().push(g.last()) =~= g);
        lemma_groups_bag_push(g.drop_last(), g.last());
    }
}

proof fn lemma_ins_group_file_bag(g: Seq<(Seq<char>, Seq<IrFile>)>, key: Seq<char>, f: IrFile)
    ensures
        groups_bag(ins_sorted(g, key, seq![f], |v: Seq<IrFile>| v.push(f))) == groups_bag(g).insert(f.path@),
    decreases g.len(),
{
    let upd = |v: Seq<IrFile>| v.push(f);
    let r = ins_sorted(g, key, seq![f], upd);
    assert(path_bag(seq![f]) =~= Multiset::<Seq<char>>::empty().insert(f.path@)) by {
        assert(paths_of(seq![f]) =~= seq![f.path@]);
        assert(seq![f.path@] =~= Seq::<Seq<char>>::empty().push(f.path@));
    }
    if g.len() == 0 {
        assert(r =~= g.push((key, seq![f])));
        lemma_groups_bag_push(g, (key, seq![f]));
        assert(groups_files(g) =~= Seq::<IrFile>::empty());
        assert(paths_of(groups_files(g)) =~= Seq::<Seq<char>>::empty());
        assert(groups_bag(r) =~= groups_bag(g).insert(f.path@));
    } else {
        let head = g[0];
        assert(g =~= seq![head] + g.drop_first());
        lemma_groups_bag_concat(seq![head], g.drop_first());
        assert(seq![head] =~= Seq::<(Seq<char>, Seq<IrFile>)>::empty().push(head));
        lemma_groups_bag_push(Seq::<(Seq<char>, Seq<IrFile>)>::empty(), head);
        assert(groups_files(Seq::<(Seq<char>, Seq<IrFile>)>::empty()) =~= Seq::<IrFile>::empty());
        assert(paths_of(Seq::<IrFile>::empty()) =~= Seq::<Seq<char>>::empty());
        if head.0 == key {
            let nh = (key, head.1.push(f));
            assert(r =~= seq![nh] + g.drop_first());
            lemma_groups_bag_concat(seq![nh], g.drop_first());
            assert(seq![nh] =~= Seq::<(Seq<char>, Seq<IrFile>)>::empty().push(nh));
            lemma_groups_bag_push(Seq::<(Seq<char>, Seq<IrFile>)>::empty(), nh);
            lemma_path_bag_concat(head.1, seq![f]);
            assert(head.1 + seq![f] =~= head.1.push(f));
            assert(groups_bag(r) =~= groups_bag(g).insert(f.path@));
        } else if crate::text::seq_lt(key, head.0) {
            let nh = (key, seq![f]);
            assert(r =~= seq![nh] + g);
            lemma_groups_bag_concat(seq![nh], g);
            assert(seq![nh] =~= Seq::<(Seq<char>, Seq<IrFile>)>::empty().push(nh));
            lemma_groups_bag_push(Seq::<(Seq<char>, Seq<IrFile>)>::empty(), nh);
            assert(groups_bag(r) =~= groups_bag(g).insert(f.path@));
        } else {
            lemma_ins_group_file_bag(g.drop_first(), key, f);
            let rt = ins_sorted(g.drop_first(), key, seq![f], upd);
            assert(r =~= seq![head] + rt);
            lemma_groups_bag_concat(seq![head], rt);
            assert(groups_bag(r) =~= groups_bag(g).insert(f.path@));
        }
    }
}

proof fn lemma_top_groups_bag(fs: Seq<IrFile>, root: Seq<char>)
    ensures
        groups_bag(top_groups(fs, root)) == path_bag(fs),
    decreases fs.len(),
{
    if fs.len() == 0 {
        assert(groups_files(top_groups(fs, root)) =~= Seq::<IrFile>::empty());
        assert(paths_of(Seq::<IrFile>::empty()) =~= Seq::<Seq<char>>::empty());
        assert(paths_of(fs) =~= Seq::<Seq<char>>::empty());
    } else {
        let f = fs.last();
        lemma_top_groups_bag(fs.drop_last(), root);
        lemma_ins_group_file_bag(top_groups(fs.drop_last(), root), top_dir(f.path@, root), f);
        assert(paths_of(fs) =~= paths_of(fs.drop_last()).push(f.path@));
    }
}

/// The paths dealt to agents `0 .. m` of `n`, counted with multiplicity.
pub open spec fn dealt_bag(es: Seq<(Seq<char>, Seq<IrFile>)>, n: nat, m: nat) -> Multiset<Seq<char>>
    decreases m,
{
    if m == 0 {
        Multiset::empty()
    } else {
        dealt_bag(es, n, (m - 1) as nat).add(groups_bag(round_robin(es, n, (m - 1) as nat)))
    }
}

proof fn lemma_dealt_empty(n: nat, m: nat)
    ensures
        dealt_bag(Seq::<(Seq<char>, Seq<IrFile>)>::empty(), n, m) == Multiset::<Seq<char>>::empty(),
    decreases m,
{
    if m > 0 {
        lemma_dealt_empty(n, (m - 1) as nat);
        let e = Seq::<(Seq<char>, Seq<IrFile>)>::empty();
        assert(groups_files(round_robin(e, n, (m - 1) as nat)) =~= Seq::<IrFile>::empty());
        assert(paths_of(Seq::<IrFile>::empty()) =~= Seq::<Seq<char>>::empty());
        assert(dealt_bag(e, n, m) =~= Multiset::<Seq<char>>::empty());
    }
}

proof fn lemma_dealt_push(es: Seq<(Seq<char>, Seq<IrFile>)>, x: (Seq<char>, Seq<IrFile>), n: nat, m: nat)
    requires
        n > 0,
    ensures
        dealt_bag(es.push(x), n, m) == dealt_bag(es, n, m).add(
            if es.len() % n < m {
                path_bag(x.1)
            } else {
                Multiset::empty()
            },
        ),
    decreases m,
{
    if m == 0 {
        assert(dealt_bag(es, n, m).add(Multiset::<Seq<char>>::empty()) =~= dealt_bag(es, n, m));
    } else {
        let a = (m - 1) as nat;
        lemma_dealt_push(es, x, n, a);
        assert(es.push(x).drop_last() =~= es);
        if es.len() % n == a {
            assert(round_robin(es.push(x), n, a) == round_robin(es, n, a).push(x));
            lemma_groups_bag_push(round_robin(es, n, a), x);
        } else {
            assert(round_robin(es.push(x), n, a) == round_robin(es, n, a));
        }
        assert(dealt_bag(es.push(x), n, m) =~= dealt_bag(es, n, m).add(
            if es.len() % n < m {
                path_bag(x.1)
            } else {
                Multiset::empty()
            },
        ));
    }
}

/// Dealing round-robin to `n` agents loses and repeats nothing: together
/// the agents get every group's files exactly once.
proof fn lemma_dealt_all(es: Seq<(Seq<char>, Seq<IrFile>)>, n: nat)
    requires
        n > 0,
    ensures
        dealt_bag(es, n, n) == groups_bag(es),
    decreases es.len(),
{
    if es.len() == 0 {
        lemma_dealt_empty(n, n);
        assert(groups_files(es) =~= Seq::<IrFile>::empty());
        assert(paths_of(Seq::<IrFile>::empty()) =~= Seq::<Seq<char>>::empty());
    } else {
        let init = es.drop_last();
        lemma_dealt_all(init, n);
        assert(init.push(es.last()) =~= es);
        lemma_dealt_push(init, es.last(), n, n);
        lemma_groups_bag_push(init, es.last());
    }
}

proof fn lemma_assigned_take(fs: Seq<IrFile>, agents: nat, root: Seq<char>, m: nat)
    requires
        m <= (if agents == 0 { 1nat } else { agents }),
    ensures
        assigned_paths(spec_directory_assignments(fs, agents, root).take(m as int)).to_multiset() == dealt_bag(
            by_count(top_groups(fs, root)),
            if agents == 0 { 1nat } else { agents },
            m,
        ),
    decreases m,
{
    let n: nat = if agents == 0 { 1nat } else { agents };
    let asg = spec_directory_assignments(fs, agents, root);
    let es = by_count(top_groups(fs, root));
    if m == 0 {
        assert(asg.take(0) =~= Seq::<AssignmentView>::empty());
        assert(assigned_paths(asg.take(0)) =~= Seq::<Seq<char>>::empty());
        assert(Seq::<Seq<char>>::empty().to_multiset() =~= Multiset::<Seq<char>>::empty());
    } else {
        let a = (m - 1) as nat;
        lemma_assigned_take(fs, agents, root, a);
        assert(asg.take(m as int).drop_last() =~= asg.take(a as int));
        assert(asg.take(m as int).last() == asg[a as int]);
        assert(asg[a as int] == directory_assignment(a, n, fs, root));
        let rr = round_robin(es, n, a);
        lemma_groups_paths_split(rr);
        let t = assigned_paths(asg.take(a as int));
        assert(assigned_paths(asg.take(m as int)) == t + groups_paths(rr, true) + groups_paths(rr, false));
        assert(assigned_paths(asg.take(m as int)).to_multiset() =~= dealt_bag(es, n, m));
    }
}

/// The directory partition hands out every file exactly once: the paths
/// of all agents' built and not-built files together are the paths of all
/// the files, each as often as it occurs, whatever the number of agents
/// (no agents counts as one).
pub proof fn lemma_directory_assignments_cover(fs: Seq<IrFile>, agents: nat, root: Seq<char>)
    ensures
        assigned_paths(spec_directory_assignments(fs, agents, root)).to_multiset() == paths_of(fs).to_multiset(),
{
    let n: nat = if agents == 0 { 1nat } else { agents };
    let asg = spec_directory_assignments(fs, agents, root);
    lemma_assigned_take(fs, agents, root, n);
    assert(asg.take(n as int) =~= asg);
    lemma_dealt_all(by_count(top_groups(fs, root)), n);
    lemma_by_count_bag(top_groups(fs, root));
    lemma_top_groups_bag(fs, root);
}

proof fn lemma_files_assignment_bag(
    id: nat,
    title: Seq<char>,
    scope: Seq<char>,
    instructions: Seq<Seq<char>>,
    fs: Seq<IrFile>,
    root: Seq<char>,
)
    ensures
        ({
            let a = files_assignment(id, title, scope, instructions, fs, root);
            a.built_files.to_multiset().add(a.non_built_files.to_multiset()) == path_bag(fs)
        }),
{
    lemma_sort_paths_bag(paths_with_status(fs, true));
    lemma_sort_paths_bag(paths_with_status(fs, false));
    lemma_status_split(fs);
}

/// The first `m` shares of the directory groups, one after another.
pub open spec fn shares_upto(g: Seq<(Seq<char>, Seq<IrFile>)>, ac: nat, m: nat) -> Seq<(Seq<char>, Seq<IrFile>)>
    decreases m,
{
    if m == 0 {
        Seq::empty()
    } else {
        shares_upto(g, ac, (m - 1) as nat) + hybrid_share(g, (m - 1) as nat, ac)
    }
}

proof fn lemma_shares_upto(g: Seq<(Seq<char>, Seq<IrFile>)>, ac: nat, m: nat)
    requires
        0 < ac,
        m <= ac,
    ensures
        shares_upto(g, ac, m) == g.subrange(0, ((g.len() * m) / ac) as int),
    decreases m,
{
    if m == 0 {
        assert(g.len() * 0 == 0) by (nonlinear_arith);
        assert(g.subrange(0, 0) =~= Seq::<(Seq<char>, Seq<IrFile>)>::empty());
    } else {
        let i = (m - 1) as nat;
        lemma_shares_upto(g, ac, i);
        lemma_div_bounds(g.len(), i, ac);
        assert(g.subrange(0, ((g.len() * i) / ac) as int) + hybrid_share(g, i, ac) =~= g.subrange(
            0,
            ((g.len() * m) / ac) as int,
        ));
    }
}

/// The hybrid shares tile the directory groups: taken in agent order they
/// are all the groups, in order, each exactly once.
pub proof fn lemma_hybrid_shares_tile(g: Seq<(Seq<char>, Seq<IrFile>)>, ac: nat)
    requires
        0 < ac,
    ensures
        shares_upto(g, ac, ac) == g,
{
    lemma_shares_upto(g, ac, ac);
    vstd::arithmetic::div_mod::lemma_div_by_multiple(g.len() as int, ac as int);
    assert(g.len() * ac == ac * g.len()) by (nonlinear_arith);
    assert(g.subrange(0, g.len() as int) =~= g);
}

proof fn lemma_hybrid_take(fs: Seq<IrFile>, agents: nat, root: Seq<char>, m: nat)
    requires
        m <= min_nat(agents, 5),
        forall|i: nat|
            i < min_nat(agents, 5) ==> groups_files(
                #[trigger] hybrid_share(top_groups(fs, root), i, min_nat(agents, 5)),
            ).len() > 0,
    ensures
        assigned_paths(spec_hybrid_assignments(fs, agents, root).take(m as int)).to_multiset() == groups_bag(
            shares_upto(top_groups(fs, root), min_nat(agents, 5), m),
        ),
    decreases m,
{
    let ac = min_nat(agents, 5);
    let asg = spec_hybrid_assignments(fs, agents, root);
    let g = top_groups(fs, root);
    if m == 0 {
        assert(asg.take(0) =~= Seq::<AssignmentView>::empty());
        assert(assigned_paths(asg.take(0)) =~= Seq::<Seq<char>>::empty());
        assert(groups_files(shares_upto(g, ac, 0)) =~= Seq::<IrFile>::empty());
        assert(paths_of(Seq::<IrFile>::empty()) =~= Seq::<Seq<char>>::empty());
    } else {
        let i = (m - 1) as nat;
        lemma_hybrid_take(fs, agents, root, i);
        assert(asg.take(m as int).drop_last() =~= asg.take(i as int));
        assert(asg.take(m as int).last() == asg[i as int]);
        assert(asg[i as int] == hybrid_assignment(i, ac, fs, root));
        let share = hybrid_share(g, i, ac);
        assert(groups_files(share).len() > 0);
        let a = asg[i as int];
        lemma_files_assignment_bag(i + 1, a.title, a.scope, a.instructions, groups_files(share), root);
        lemma_groups_bag_concat(shares_upto(g, ac, i), share);
        assert(assigned_paths(asg.take(m as int)) == assigned_paths(asg.take(i as int)) + a.built_files
            + a.non_built_files);
        assert(assigned_paths(asg.take(m as int)).to_multiset() =~= groups_bag(shares_upto(g, ac, m)));
    }
}

/// Hybrid partitioning: the agents' directory shares tile the top-level
/// directory groups, an agent whose share holds files gets exactly those
/// files, and so, when every share holds files, the agents together get
/// every file exactly once.
pub proof fn lemma_hybrid_assignments_cover(fs: Seq<IrFile>, agents: nat, root: Seq<char>)
    ensures
        min_nat(agents, 5) > 0 ==> shares_upto(top_groups(fs, root), min_nat(agents, 5), min_nat(agents, 5))
            == top_groups(fs, root),
        forall|i: nat|
            i < min_nat(agents, 5) && groups_files(
                #[trigger] hybrid_share(top_groups(fs, root), i, min_nat(agents, 5)),
            ).len() > 0 ==> {
                let a = spec_hybrid_assignments(fs, agents, root)[i as int];
                a.built_files.to_multiset().add(a.non_built_files.to_multiset()) == groups_bag(
                    hybrid_share(top_groups(fs, root), i, min_nat(agents, 5)),
                )
            },
        min_nat(agents, 5) > 0 && (forall|i: nat|
            i < min_nat(agents, 5) ==> groups_files(
                #[trigger] hybrid_share(top_groups(fs, root), i, min_nat(agents, 5)),
            ).len() > 0) ==> assigned_paths(spec_hybrid_assignments(fs, agents, root)).to_multiset()
            == paths_of(fs).to_multiset(),
{
    let ac = min_nat(agents, 5);
    let g = top_groups(fs, root);
    let asg = spec_hybrid_assignments(fs, agents, root);
    if ac > 0 {
        lemma_hybrid_shares_tile(g, ac);
    }
    assert forall|i: nat|
        i < ac && groups_files(#[trigger] hybrid_share(g, i, ac)).len() > 0 implies ({
            let a = asg[i as int];
            a.built_files.to_multiset().add(a.non_built_files.to_multiset()) == groups_bag(hybrid_share(g, i, ac))
        }) by {
        let a = asg[i as int];
        assert(a == hybrid_assignment(i, ac, fs, root));
        lemma_files_assignment_bag(i + 1, a.title, a.scope, a.instructions, groups_files(hybrid_share(g, i, ac)), root);
    }
    if ac > 0 && (forall|i: nat| i < ac ==> groups_files(#[trigger] hybrid_share(g, i, ac)).len() > 0) {
        lemma_hybrid_take(fs, agents, root, ac);
        assert(asg.take(ac as int) =~= asg);
        lemma_top_groups_bag(fs, root);
    }
}

} // verus!
