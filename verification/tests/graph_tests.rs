use rehearsa::graph::topological_sort;

fn entry(name: &str, deps: &[&str]) -> (String, Vec<String>) {
    (
        name.to_string(),
        deps.iter().map(|d| d.to_string()).collect(),
    )
}

#[test]
fn dependency_comes_before_dependent() {
    // api depends on db, so db must stand first
    let deps = vec![entry("api", &["db"]), entry("db", &[])];
    let order = topological_sort(&deps).expect("acyclic graph must sort");
    assert_eq!(order.len(), 2);
    let api_pos = order.iter().position(|s| s == "api").unwrap();
    let db_pos = order.iter().position(|s| s == "db").unwrap();
    assert!(db_pos < api_pos);
}

#[test]
fn diamond_orders_all_dependencies_first() {
    let deps = vec![
        entry("top", &["left", "right"]),
        entry("left", &["base"]),
        entry("right", &["base"]),
        entry("base", &[]),
    ];
    let order = topological_sort(&deps).expect("acyclic graph must sort");
    assert_eq!(order.len(), 4);
    let pos = |n: &str| order.iter().position(|s| s == n).unwrap();
    assert!(pos("base") < pos("left"));
    assert!(pos("base") < pos("right"));
    assert!(pos("left") < pos("top"));
    assert!(pos("right") < pos("top"));
}

#[test]
fn two_node_cycle_is_reported() {
    let deps = vec![entry("a", &["b"]), entry("b", &["a"])];
    let err = topological_sort(&deps).err().expect("cycle must be detected");
    assert!(err.node == "a" || err.node == "b");
}

#[test]
fn self_loop_is_reported() {
    let deps = vec![entry("a", &["a"])];
    let err = topological_sort(&deps).err().expect("self-loop must be detected");
    assert_eq!(err.node, "a");
}

#[test]
fn empty_graph_sorts_empty() {
    let deps: Vec<(String, Vec<String>)> = vec![];
    let order = topological_sort(&deps).unwrap();
    assert!(order.is_empty());
}
