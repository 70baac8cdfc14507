use rasen_bundler::bundle::{dirname, join_path, BundleRequest, Bundler};
use rasen_bundler::config::{parse_config, AliasTable};
use rasen_bundler::emit::emit_bundle;
use rasen_bundler::graph::{GraphBuilder, Step};
use rasen_bundler::transform::transform_module;

fn table(pairs: &[(&str, &str)]) -> AliasTable {
    let mut t = AliasTable::new();
    for (k, v) in pairs {
        t.insert((*k).to_string(), (*v).to_string());
    }
    t
}

/// Drives a session against an in-memory file table; canonicalization
/// prefixes nothing, it just accepts the joined path.
fn drive(b: &mut Bundler, files: &[(&str, &str)]) {
    let mut fuel = 0;
    loop {
        fuel += 1;
        assert!(fuel < 10_000, "bundling did not finish");
        match b.step() {
            BundleRequest::Canonicalize { name: _, path } => {
                if files.iter().any(|f| f.0 == path.as_str()) {
                    b.supply_canonical(Some(path));
                } else {
                    b.supply_canonical(None);
                }
            }
            BundleRequest::ReadFile { path } => {
                let found = files.iter().find(|f| f.0 == path.as_str());
                b.supply_file(found.map(|f| f.1.to_string()));
            }
            BundleRequest::Working => {}
            BundleRequest::Finished => return,
        }
    }
}

#[test]
fn path_helpers() {
    assert_eq!(join_path("/proj", "lib/index.js"), "/proj/lib/index.js");
    assert_eq!(join_path("/proj", "/abs/x.js"), "/abs/x.js");
    assert_eq!(dirname("/proj/lib/index.js"), "/proj/lib");
    assert_eq!(dirname("/index.js"), "/");
}

#[test]
fn missing_entry_is_fatal_with_the_alias_name() {
    let mut b = Bundler::new("/proj", table(&[("pkg", "lib/index.js")]));
    drive(&mut b, &[]);
    let e = b.error().expect("expected an error");
    assert_eq!(e.message(), "Cannot resolve entry 'pkg'");
}

#[test]
fn unreadable_file_is_fatal_with_the_path() {
    let mut b = Bundler::new("/proj", table(&[("pkg", "lib/index.js")]));
    let mut fuel = 0;
    loop {
        fuel += 1;
        assert!(fuel < 100);
        match b.step() {
            BundleRequest::Canonicalize { name, path } => {
                assert_eq!(name, "pkg");
                assert_eq!(path, "/proj/lib/index.js");
                b.supply_canonical(Some(path));
            }
            BundleRequest::ReadFile { path } => {
                assert_eq!(path, "/proj/lib/index.js");
                b.supply_file(None);
            }
            BundleRequest::Working => {}
            BundleRequest::Finished => break,
        }
    }
    let e = b.error().expect("expected an error");
    assert_eq!(e.message(), "Cannot read \"/proj/lib/index.js\"");
}

#[test]
fn bundle_registers_module_and_alias() {
    let mut b = Bundler::new(
        "/proj",
        table(&[("pkg", "lib/index.js")]),
    );
    drive(&mut b, &[("/proj/lib/index.js", "export const value = 42;")]);
    let bundle = b.bundle().expect("expected a bundle").clone();
    assert!(bundle.contains("__modules[\"/proj/lib/index.js\"] = function(module, exports, require) {"));
    assert!(bundle.contains("const value = 42; exports.value = value;"));
    assert!(bundle.contains("\"pkg\": \"/proj/lib/index.js\","));
    assert!(bundle.contains("globalThis.__requireAlias"));
    assert!(bundle.contains("globalThis.__modules[\"pkg\"] = __require(\"/proj/lib/index.js\");"));
}

#[test]
fn emitted_bundle_evaluates_and_exposes_the_alias() {
    // alias table { "pkg": "lib/index.js" }, lib/index.js exporting 42
    let mut b = Bundler::new("/proj", table(&[("pkg", "lib/index.js")]));
    drive(&mut b, &[("/proj/lib/index.js", "export const value = 42;")]);
    let bundle = b.bundle().expect("expected a bundle").clone();

    let rt = rquickjs::Runtime::new().unwrap();
    let ctx = rquickjs::Context::full(&rt).unwrap();
    ctx.with(|ctx| {
        ctx.eval::<(), _>(bundle.as_str()).expect("bundle must evaluate");
        let v: i32 = ctx
            .eval("globalThis.__requireAlias('pkg').value")
            .expect("alias lookup must work");
        assert_eq!(v, 42);
        let w: i32 = ctx
            .eval("globalThis.__modules['pkg'].value")
            .expect("global registration must work");
        assert_eq!(w, 42);
        let thrown: bool = ctx
            .eval("(function(){ try { globalThis.__requireAlias('nope'); return false; } catch (e) { return true; } })()")
            .unwrap();
        assert!(thrown, "unknown alias must throw");
    });
}

#[test]
fn repeated_require_returns_the_same_exports_object() {
    let mut b = Bundler::new("/proj", table(&[("pkg", "lib/index.js")]));
    drive(
        &mut b,
        &[("/proj/lib/index.js", "export const obj = {};\nexports.runs = (exports.runs || 0) + 1;")],
    );
    let bundle = b.bundle().expect("expected a bundle").clone();
    let rt = rquickjs::Runtime::new().unwrap();
    let ctx = rquickjs::Context::full(&rt).unwrap();
    ctx.with(|ctx| {
        ctx.eval::<(), _>(bundle.as_str()).unwrap();
        let same: bool = ctx
            .eval("globalThis.__requireAlias('pkg') === globalThis.__requireAlias('pkg')")
            .unwrap();
        assert!(same);
    });
}

#[test]
fn unresolvable_import_falls_back_to_raw_specifier() {
    // nothing at /proj exists on disk, so the import of './b.js' cannot
    // be resolved: bundling still completes, and the emitted require
    // call carries the raw specifier text
    let mut b = Bundler::new("/proj", table(&[("a", "a.js")]));
    drive(
        &mut b,
        &[("/proj/a.js", "import { bee } from './b.js';\nexport const aye = 1;")],
    );
    let bundle = b.bundle().expect("expected a bundle").clone();
    assert_eq!(bundle.matches("__modules[\"/proj/a.js\"] =").count(), 1);
    assert!(bundle.contains("require(\"./b.js\")"));
    let g = b.graph();
    assert_eq!(g.module_count(), 1);
    assert!(g.module_at(0).deps.is_empty());
}

#[test]
fn emit_bundle_shapes_the_script() {
    let mods = vec![("/p/a.js".to_string(), "exports.a = 1;".to_string())];
    let aliases = vec![("a".to_string(), "/p/a.js".to_string())];
    let out = emit_bundle(&mods, &aliases);
    assert!(out.starts_with("(function() {\n  'use strict';\n"));
    assert!(out.ends_with("})();\n"));
    assert!(out.contains("function __require(id)"));
    assert!(out.contains("__cache[id] = module;"));
    assert!(out.contains("  var __aliases = {\n    \"a\": \"/p/a.js\",\n  };"));
}

#[test]
fn config_to_bundle_pipeline() {
    let cfg = "export default { modules: { 'pkg': 'lib/index.js' } } // aliases";
    let aliases = parse_config(cfg);
    let mut b = Bundler::new("/proj", aliases);
    drive(&mut b, &[("/proj/lib/index.js", "export const value = 42;")]);
    assert!(b.bundle().is_some());
}

#[test]
fn cross_module_require_evaluates_in_load_order() {
    // b exports a base value; a computes on it
    let mut g = GraphBuilder::new(vec!["/p/a.js".to_string()]);
    let mut fuel = 0;
    loop {
        fuel += 1;
        assert!(fuel < 100);
        match g.advance() {
            Step::NeedFile(p) => {
                if p == "/p/a.js" {
                    g.provide_file(
                        "import { base } from './b.js';\nexport const twice = base + base;"
                            .to_string(),
                        vec!["/p/b.js".to_string()],
                    );
                } else {
                    assert_eq!(p, "/p/b.js");
                    g.provide_file("export const base = 21;".to_string(), vec![]);
                }
            }
            Step::Progress => {}
            Step::Done => break,
        }
    }
    assert_eq!(g.module_count(), 2);
    assert_eq!(g.module_at(0).path, "/p/b.js");

    let mut map_a = AliasTable::new();
    map_a.insert("./b.js".to_string(), "/p/b.js".to_string());
    let code_a = transform_module(&g.module_at(1).source, &map_a);
    let code_b = transform_module(&g.module_at(0).source, &AliasTable::new());
    let mods = vec![
        ("/p/b.js".to_string(), code_b),
        ("/p/a.js".to_string(), code_a),
    ];
    let aliases = vec![("app".to_string(), "/p/a.js".to_string())];
    let bundle = emit_bundle(&mods, &aliases);

    let rt = rquickjs::Runtime::new().unwrap();
    let ctx = rquickjs::Context::full(&rt).unwrap();
    ctx.with(|ctx| {
        ctx.eval::<(), _>(bundle.as_str()).expect("bundle must evaluate");
        let v: i32 = ctx.eval("globalThis.__requireAlias('app').twice").unwrap();
        assert_eq!(v, 42);
    });
}

#[test]
fn import_cycle_evaluates_with_live_exports() {
    let mut g = GraphBuilder::new(vec!["/p/a.js".to_string()]);
    let mut fuel = 0;
    loop {
        fuel += 1;
        assert!(fuel < 100);
        match g.advance() {
            Step::NeedFile(p) => {
                if p == "/p/a.js" {
                    g.provide_file(
                        "import { bee } from './b.js';\nexport const aye = 1;".to_string(),
                        vec!["/p/b.js".to_string()],
                    );
                } else {
                    g.provide_file(
                        "import { aye } from './a.js';\nexport const bee = 2;".to_string(),
                        vec!["/p/a.js".to_string()],
                    );
                }
            }
            Step::Progress => {}
            Step::Done => break,
        }
    }
    assert_eq!(g.module_count(), 2);

    let mut map_a = AliasTable::new();
    map_a.insert("./b.js".to_string(), "/p/b.js".to_string());
    let mut map_b = AliasTable::new();
    map_b.insert("./a.js".to_string(), "/p/a.js".to_string());
    let code_a = transform_module(&g.module_at(1).source, &map_a);
    let code_b = transform_module(&g.module_at(0).source, &map_b);
    let mods = vec![
        ("/p/b.js".to_string(), code_b),
        ("/p/a.js".to_string(), code_a),
    ];
    let aliases = vec![("a".to_string(), "/p/a.js".to_string())];
    let bundle = emit_bundle(&mods, &aliases);

    let rt = rquickjs::Runtime::new().unwrap();
    let ctx = rquickjs::Context::full(&rt).unwrap();
    ctx.with(|ctx| {
        ctx.eval::<(), _>(bundle.as_str())
            .expect("cyclic bundle must evaluate");
        let aye: i32 = ctx.eval("globalThis.__requireAlias('a').aye").unwrap();
        assert_eq!(aye, 1);
        let bee: i32 = ctx.eval("globalThis.__modules['a'].bee || 0").unwrap();
        assert_eq!(bee, 0, "a's exports hold only a's own bindings");
    });
}
