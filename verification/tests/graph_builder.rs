use petgraph::graphmap::DiGraphMap;
use qflow::error::InvalidWorkflow;
use qflow::graph::{build_graph, find_last_task, find_task};
use qflow::order::sort_by_declaration;
use qflow::types::{QFlowTask, QFlowTaskSpec};

fn task(name: &str, deps: &[&str]) -> QFlowTask {
    QFlowTask {
        name: name.to_string(),
        depends_on: if deps.is_empty() {
            None
        } else {
            Some(deps.iter().map(|d| d.to_string()).collect())
        },
        spec: QFlowTaskSpec::Classical { image: "busybox".to_string() },
    }
}

fn cyclic_by_petgraph(tasks: &[QFlowTask]) -> bool {
    let mut graph = DiGraphMap::<&str, ()>::new();
    for t in tasks {
        graph.add_node(&t.name);
    }
    for t in tasks {
        if let Some(deps) = &t.depends_on {
            for d in deps {
                graph.add_edge(d.as_str(), t.name.as_str(), ());
            }
        }
    }
    petgraph::algo::is_cyclic_directed(&graph)
}

#[test]
fn cycle_is_rejected() {
    let tasks = vec![task("a", &["b"]), task("b", &["a"])];
    match build_graph(&tasks) {
        Err(InvalidWorkflow::Cycle) => {}
        _ => panic!("a cycle must be rejected"),
    }
    assert!(cyclic_by_petgraph(&tasks));
}

#[test]
fn a_task_that_waits_for_itself_is_a_cycle() {
    let tasks = vec![task("a", &[]), task("b", &["b"])];
    assert!(matches!(build_graph(&tasks), Err(InvalidWorkflow::Cycle)));
    assert!(cyclic_by_petgraph(&tasks));
}

#[test]
fn dangling_dependency_is_rejected() {
    let tasks = vec![task("x", &["y"])];
    match build_graph(&tasks) {
        Err(InvalidWorkflow::DanglingDependency { task, dependency }) => {
            assert_eq!(task, "x");
            assert_eq!(dependency, "y");
        }
        _ => panic!("a dangling dependency must be rejected"),
    }
}

#[test]
fn the_first_dangling_dependency_is_the_one_reported() {
    let tasks = vec![
        task("a", &[]),
        task("b", &["a", "nowhere", "nothing"]),
        task("c", &["missing"]),
    ];
    match build_graph(&tasks) {
        Err(InvalidWorkflow::DanglingDependency { task, dependency }) => {
            assert_eq!(task, "b");
            assert_eq!(dependency, "nowhere");
        }
        _ => panic!("a dangling dependency must be rejected"),
    }
}

#[test]
fn a_dangling_dependency_outweighs_a_cycle() {
    let tasks = vec![task("a", &["b"]), task("b", &["a", "ghost"])];
    assert!(matches!(
        build_graph(&tasks),
        Err(InvalidWorkflow::DanglingDependency { .. })
    ));
    assert_eq!(
        build_graph(&tasks).err().unwrap().message(),
        "Task 'b' depends on non-existent task 'ghost'"
    );
    assert_eq!(InvalidWorkflow::Cycle.message(), "Workflow has a cycle");
}

#[test]
fn independent_tasks_keep_their_declaration_order() {
    let tasks = vec![task("c", &[]), task("b", &[]), task("a", &[])];
    assert_eq!(build_graph(&tasks).ok().unwrap(), vec![0, 1, 2]);
}

#[test]
fn a_task_comes_after_all_it_waits_for() {
    // declared in the reverse of the order they can run in
    let tasks = vec![task("last", &["mid"]), task("mid", &["first"]), task("first", &[])];
    assert_eq!(build_graph(&tasks).ok().unwrap(), vec![2, 1, 0]);
}

#[test]
fn ties_fall_to_the_task_declared_first() {
    let tasks = vec![
        task("d", &["b", "c"]),
        task("c", &["a"]),
        task("b", &["a"]),
        task("a", &[]),
        task("e", &[]),
    ];
    // a is the first that can go; then c before b (declared first); then d; e
    // could have gone second but a has to go before anything declared earlier
    assert_eq!(build_graph(&tasks).ok().unwrap(), vec![3, 1, 2, 0, 4]);
    assert!(!cyclic_by_petgraph(&tasks));
}

#[test]
fn the_order_is_the_same_on_every_call() {
    let tasks = vec![
        task("a", &[]),
        task("b", &["a"]),
        task("c", &["a"]),
        task("d", &["b", "c"]),
    ];
    let first = build_graph(&tasks).ok().unwrap();
    let second = build_graph(&tasks).ok().unwrap();
    assert_eq!(first, vec![0, 1, 2, 3]);
    assert_eq!(first, second);
}

#[test]
fn an_empty_workflow_has_an_empty_order() {
    assert_eq!(build_graph(&Vec::new()).ok().unwrap(), Vec::<usize>::new());
}

#[test]
fn a_name_declared_twice_is_one_node() {
    let tasks = vec![task("a", &[]), task("b", &["a"]), task("a", &[])];
    assert_eq!(build_graph(&tasks).ok().unwrap(), vec![0, 1]);
    assert_eq!(find_task(&tasks, &"a".to_string()), Some(0));
    assert_eq!(find_last_task(&tasks, &"a".to_string()), Some(2));
    assert_eq!(find_task(&tasks, &"z".to_string()), None);
}

#[test]
fn the_verdict_on_cycles_agrees_with_petgraph() {
    let cases: Vec<Vec<QFlowTask>> = vec![
        vec![],
        vec![task("a", &[])],
        vec![task("a", &["a"])],
        vec![task("a", &["b"]), task("b", &["c"]), task("c", &[])],
        vec![task("a", &["b"]), task("b", &["c"]), task("c", &["a"])],
        vec![task("a", &["c"]), task("b", &["a"]), task("c", &["b"]), task("d", &[])],
        vec![task("a", &[]), task("b", &["a", "a"]), task("c", &["a", "b"])],
        vec![task("a", &[]), task("b", &["c"]), task("c", &["d"]), task("d", &["b"])],
    ];
    for tasks in cases {
        let ours = matches!(build_graph(&tasks), Err(InvalidWorkflow::Cycle));
        assert_eq!(ours, cyclic_by_petgraph(&tasks));
    }
}

#[test]
fn sorting_a_graph_of_numbers() {
    // 0 <- 1 <- 3, 0 <- 2, 4 is not a node
    let is_node = vec![true, true, true, true, false];
    let preds = vec![vec![], vec![0], vec![0], vec![1], vec![]];
    assert_eq!(sort_by_declaration(&is_node, &preds), Some(vec![0, 1, 2, 3]));
    let looped = vec![vec![3], vec![0], vec![0], vec![1], vec![]];
    assert_eq!(sort_by_declaration(&is_node, &looped), None);
}
