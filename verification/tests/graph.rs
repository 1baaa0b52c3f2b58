use cargo_tribute::graph::{closure, select_roots, Dep, DepKind, Graph, GraphNode, Package, Walk};

fn package(id: &str) -> Package {
    Package {
        id: id.to_string(),
        name: id.to_string(),
        version: "1.0.0".to_string(),
        license: Some("MIT".to_string()),
        repository: None,
        authors: vec![],
        crates_io: true,
        proc_macro: false,
    }
}

fn node(id: &str, deps: &[(&str, DepKind)]) -> GraphNode {
    GraphNode {
        id: id.to_string(),
        deps: deps.iter().map(|(d, k)| Dep { pkg: d.to_string(), kinds: vec![*k] }).collect(),
    }
}

const PLAIN: Walk = Walk { include_dev: false, include_build: false, skip_private: false, skip_proc_macros: false };

fn names(list: &[&str]) -> Vec<String> {
    list.iter().map(|s| s.to_string()).collect()
}

/// Two members: `a` on `lib` and a proc-macro, `b` on `devdep`, `builddep` and a private
/// package, which itself needs `deep`.
fn workspace() -> Graph {
    let mut pm = package("pm");
    pm.proc_macro = true;
    let mut private = package("private");
    private.crates_io = false;
    Graph {
        packages: vec![
            package("a"),
            package("b"),
            package("lib"),
            pm,
            package("pmdep"),
            package("devdep"),
            package("builddep"),
            private,
            package("deep"),
        ],
        nodes: vec![
            node("a", &[("lib", DepKind::Normal), ("pm", DepKind::Normal)]),
            node(
                "b",
                &[
                    ("devdep", DepKind::Development),
                    ("builddep", DepKind::Build),
                    ("private", DepKind::Normal),
                    ("a", DepKind::Normal),
                ],
            ),
            node("lib", &[("lib", DepKind::Normal)]),
            node("pm", &[("pmdep", DepKind::Normal)]),
            node("private", &[("deep", DepKind::Normal)]),
        ],
        members: names(&["b", "a"]),
    }
}

#[test]
fn closure_leaves_members_out() {
    let g = workspace();
    let deps = closure(&g, PLAIN, &g.members);
    assert_eq!(deps, names(&["deep", "lib", "pm", "pmdep", "private"]));
}

#[test]
fn dev_and_build_dependencies_are_opted_in() {
    let g = workspace();
    let deps = closure(&g, Walk { include_dev: true, ..PLAIN }, &g.members);
    assert_eq!(deps, names(&["deep", "devdep", "lib", "pm", "pmdep", "private"]));
    let deps = closure(&g, Walk { include_build: true, ..PLAIN }, &g.members);
    assert_eq!(deps, names(&["builddep", "deep", "lib", "pm", "pmdep", "private"]));
}

#[test]
fn skipped_proc_macro_takes_its_subtree_along() {
    let g = workspace();
    let deps = closure(&g, Walk { skip_proc_macros: true, ..PLAIN }, &g.members);
    assert_eq!(deps, names(&["deep", "lib", "private"]));
}

#[test]
fn what_a_skipped_proc_macro_shares_stays() {
    let mut g = workspace();
    g.nodes[2].deps.push(Dep { pkg: "pmdep".to_string(), kinds: vec![DepKind::Normal] });
    let deps = closure(&g, Walk { skip_proc_macros: true, ..PLAIN }, &g.members);
    assert_eq!(deps, names(&["deep", "lib", "pmdep", "private"]));
}

#[test]
fn skipped_private_package_is_still_walked() {
    let g = workspace();
    let deps = closure(&g, Walk { skip_private: true, ..PLAIN }, &g.members);
    assert_eq!(deps, names(&["deep", "lib", "pm", "pmdep"]));
}

#[test]
fn selection_limits_the_closure() {
    let g = workspace();
    assert_eq!(select_roots(&g, &vec![]), Ok(names(&["b", "a"])));
    let roots = select_roots(&g, &names(&["a"])).unwrap_or_else(|e| panic!("{e}"));
    assert_eq!(roots, names(&["a"]));
    assert_eq!(closure(&g, PLAIN, &roots), names(&["lib", "pm", "pmdep"]));
    assert_eq!(select_roots(&g, &names(&["a", "nope"])), Err("-p 'nope' matches no workspace member".to_string()));
    // a dependency is no member.
    assert!(select_roots(&g, &names(&["lib"])).is_err());
}

#[test]
fn unknown_kind_and_unknown_node_are_not_followed() {
    let g = Graph {
        packages: vec![],
        nodes: vec![node("a", &[("odd", DepKind::Unknown), ("gone", DepKind::Normal)])],
        members: names(&["a"]),
    };
    assert_eq!(closure(&g, PLAIN, &g.members), names(&["gone"]));
}

#[test]
fn order_of_the_listing_does_not_matter() {
    let g = workspace();
    let mut h = workspace();
    h.packages.reverse();
    h.nodes.reverse();
    h.members.reverse();
    assert_eq!(closure(&g, PLAIN, &g.members), closure(&h, PLAIN, &h.members));
}
