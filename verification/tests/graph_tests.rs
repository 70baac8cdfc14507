use rasen_bundler::graph::{GraphBuilder, Step};

/// Drives a builder against an in-memory file table: each entry maps a
/// canonical path to its source and the canonical paths of its
/// dependencies.
fn drive(b: &mut GraphBuilder, files: &[(&str, &str, &[&str])]) {
    let mut fuel = 0;
    loop {
        fuel += 1;
        assert!(fuel < 10_000, "traversal did not finish");
        match b.advance() {
            Step::NeedFile(p) => {
                let entry = files
                    .iter()
                    .find(|f| f.0 == p.as_str())
                    .unwrap_or_else(|| panic!("unexpected read of {}", p));
                let deps: Vec<String> = entry.2.iter().map(|d| d.to_string()).collect();
                b.provide_file(entry.1.to_string(), deps);
            }
            Step::Progress => {}
            Step::Done => return,
        }
    }
}

fn paths(b: &GraphBuilder) -> Vec<String> {
    let mut out = Vec::new();
    let mut i = 0;
    while i < b.module_count() {
        out.push(b.module_at(i).path.clone());
        i += 1;
    }
    out
}

#[test]
fn single_module_is_recorded() {
    let mut b = GraphBuilder::new(vec!["/a.js".to_string()]);
    drive(&mut b, &[("/a.js", "const a = 1;", &[])]);
    assert_eq!(paths(&b), vec!["/a.js".to_string()]);
    assert_eq!(b.module_at(0).source, "const a = 1;");
}

#[test]
fn dependencies_load_before_dependents() {
    let mut b = GraphBuilder::new(vec!["/a.js".to_string()]);
    drive(
        &mut b,
        &[
            ("/a.js", "import {x} from 'b'; import {y} from 'c';", &["/b.js", "/c.js"]),
            ("/b.js", "import {z} from 'c';", &["/c.js"]),
            ("/c.js", "export const z = 1;", &[]),
        ],
    );
    let order = paths(&b);
    assert_eq!(
        order,
        vec!["/c.js".to_string(), "/b.js".to_string(), "/a.js".to_string()]
    );
    // the load-order invariant, checked positionally
    let mut i = 0;
    while i < b.module_count() {
        for d in b.module_at(i).deps.iter() {
            let j = order.iter().position(|p| p == d).unwrap();
            assert!(j < i, "dependency {} not before {}", d, b.module_at(i).path);
        }
        i += 1;
    }
}

#[test]
fn shared_dependency_is_a_singleton() {
    let mut b = GraphBuilder::new(vec!["/a.js".to_string(), "/b.js".to_string()]);
    drive(
        &mut b,
        &[
            ("/a.js", "import {c} from './c.js';", &["/c.js"]),
            ("/b.js", "import {c} from '../x/../c.js';", &["/c.js"]),
            ("/c.js", "export const c = 1;", &[]),
        ],
    );
    let order = paths(&b);
    assert_eq!(order.iter().filter(|p| p.as_str() == "/c.js").count(), 1);
    assert_eq!(order.len(), 3);
}

#[test]
fn repeated_entry_is_loaded_once() {
    let mut b = GraphBuilder::new(vec!["/x.js".to_string(), "/x.js".to_string()]);
    drive(&mut b, &[("/x.js", "1;", &[])]);
    assert_eq!(paths(&b), vec!["/x.js".to_string()]);
}

#[test]
fn cycle_completes_with_each_module_once() {
    let mut b = GraphBuilder::new(vec!["/a.js".to_string()]);
    drive(
        &mut b,
        &[
            ("/a.js", "import {b} from './b.js';", &["/b.js"]),
            ("/b.js", "import {a} from './a.js';", &["/a.js"]),
        ],
    );
    let order = paths(&b);
    assert_eq!(order, vec!["/b.js".to_string(), "/a.js".to_string()]);
    assert_eq!(order.iter().filter(|p| p.as_str() == "/a.js").count(), 1);
    assert_eq!(order.iter().filter(|p| p.as_str() == "/b.js").count(), 1);
}

#[test]
fn self_import_is_tolerated() {
    let mut b = GraphBuilder::new(vec!["/a.js".to_string()]);
    drive(&mut b, &[("/a.js", "import {a} from './a.js';", &["/a.js"])]);
    assert_eq!(paths(&b), vec!["/a.js".to_string()]);
}

#[test]
fn unresolved_imports_are_simply_absent() {
    // the resolver dropped "host-global" from the dependency list
    let mut b = GraphBuilder::new(vec!["/a.js".to_string()]);
    drive(
        &mut b,
        &[("/a.js", "import {g} from 'host-global';", &[])],
    );
    assert_eq!(paths(&b), vec!["/a.js".to_string()]);
    assert!(b.module_at(0).deps.is_empty());
}
