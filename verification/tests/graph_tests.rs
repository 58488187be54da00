use cargo_release::graph::{build_graph, order, sort_workspace, DepKind, Member, ResolvedDep, Workspace};

fn member(deps: Vec<(usize, Vec<DepKind>)>) -> Member {
    Member {
        deps: deps
            .into_iter()
            .map(|(pkg, kinds)| ResolvedDep { pkg, kinds })
            .collect(),
    }
}

#[test]
fn circular_dev_dependency() {
    // A workspace whose root package depends on member `a`, while `a`
    // depends back on the root only for its tests.
    let root = member(vec![(1, vec![DepKind::Normal])]);
    let a = member(vec![(0, vec![DepKind::Development])]);
    let ws = Workspace { members: vec![root, a] };

    let sorted = sort_workspace(&ws);
    assert_ne!(
        sorted[0], 0,
        "The root package must not be the first one to be published."
    );
}

#[test]
fn dependency_precedes_dependent() {
    // A depends on B normally; B depends on A only for development.
    // Starting traversal at A must yield [B, A].
    let a = member(vec![(1, vec![DepKind::Normal])]);
    let b = member(vec![(0, vec![DepKind::Development])]);
    let ws = Workspace { members: vec![a, b] };
    let sorted = sort_workspace(&ws);
    assert_eq!(sorted, vec![1, 0]);
}

#[test]
fn dev_only_cycle_terminates() {
    // A cycle that exists solely through development-only edges imposes
    // no ordering constraint; both members still appear exactly once.
    let a = member(vec![(1, vec![DepKind::Development])]);
    let b = member(vec![(0, vec![DepKind::Development])]);
    let ws = Workspace { members: vec![a, b] };
    let sorted = sort_workspace(&ws);
    assert_eq!(sorted.len(), 2);
    assert!(sorted.contains(&0));
    assert!(sorted.contains(&1));
    assert_eq!(sorted, vec![0, 1]);
}

#[test]
fn mixed_kind_edge_is_kept() {
    // An edge that is dev-only in one occurrence but normal in another
    // still constrains the order.
    let a = member(vec![(1, vec![DepKind::Development, DepKind::Normal])]);
    let b = member(vec![]);
    let ws = Workspace { members: vec![a, b] };
    assert_eq!(sort_workspace(&ws), vec![1, 0]);
}

#[test]
fn outside_dependency_is_ignored() {
    // Dependencies that are not workspace members are assumed published
    // and impose no constraint.
    let a = member(vec![(7, vec![DepKind::Normal])]);
    let ws = Workspace { members: vec![a] };
    assert_eq!(sort_workspace(&ws), vec![0]);
}

#[test]
fn diamond_order() {
    // 0 -> {1, 2}, 1 -> 3, 2 -> 3: every dependency comes first.
    let m0 = member(vec![(1, vec![DepKind::Normal]), (2, vec![DepKind::Normal])]);
    let m1 = member(vec![(3, vec![DepKind::Normal])]);
    let m2 = member(vec![(3, vec![DepKind::Build])]);
    let m3 = member(vec![]);
    let ws = Workspace { members: vec![m0, m1, m2, m3] };
    let g = build_graph(&ws);
    assert_eq!(g, vec![vec![1, 2], vec![3], vec![3], vec![]]);
    let sorted = order(&g);
    assert_eq!(sorted, vec![3, 1, 2, 0]);
}

#[test]
fn true_cycle_still_terminates() {
    // A cycle through normal edges leaves the relative order undefined but
    // the traversal still lists every member exactly once.
    let a = member(vec![(1, vec![DepKind::Normal])]);
    let b = member(vec![(0, vec![DepKind::Normal])]);
    let ws = Workspace { members: vec![a, b] };
    let sorted = sort_workspace(&ws);
    assert_eq!(sorted.len(), 2);
    assert!(sorted.contains(&0));
    assert!(sorted.contains(&1));
}
