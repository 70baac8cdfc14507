use rasen_bundler::config::AliasTable;
use rasen_bundler::transform::transform_module;

fn map_of(pairs: &[(&str, &str)]) -> AliasTable {
    let mut t = AliasTable::new();
    for (k, v) in pairs {
        t.insert((*k).to_string(), (*v).to_string());
    }
    t
}

#[test]
fn named_import_becomes_destructure() {
    let map = map_of(&[("x", "/p/x.js")]);
    let out = transform_module("import { a, b } from \"x\"", &map);
    assert_eq!(out, "const { a, b } = require(\"/p/x.js\")");
}

#[test]
fn default_import_binds_default_or_module() {
    let map = map_of(&[("x", "/p/x.js")]);
    let out = transform_module("import Foo from \"x\"", &map);
    assert_eq!(
        out,
        "const Foo = (function(){ var m = require(\"/p/x.js\"); return m.default || m; })()"
    );
}

#[test]
fn star_import_binds_namespace() {
    let map = map_of(&[("x", "/p/x.js")]);
    let out = transform_module("import * as ns from \"x\"", &map);
    assert_eq!(out, "const ns = require(\"/p/x.js\")");
}

#[test]
fn star_export_merges_properties() {
    let map = map_of(&[("x", "/p/x.js")]);
    let out = transform_module("export * from \"x\"", &map);
    assert_eq!(out, "Object.assign(exports, require(\"/p/x.js\"))");
}

#[test]
fn reexport_assigns_each_name() {
    let map = map_of(&[("m", "/p/m.js")]);
    let out = transform_module("export { a, b } from \"m\"", &map);
    assert_eq!(
        out,
        "exports.a = require(\"/p/m.js\").a; exports.b = require(\"/p/m.js\").b"
    );
}

#[test]
fn reexport_honors_renaming() {
    let map = map_of(&[("m", "/p/m.js")]);
    let out = transform_module("export { x as y } from \"m\"", &map);
    assert_eq!(out, "exports.y = require(\"/p/m.js\").x");
}

#[test]
fn unresolved_specifier_keeps_raw_text() {
    let map = AliasTable::new();
    let out = transform_module("import { a } from \"nope\"", &map);
    assert_eq!(out, "const { a } = require(\"nope\")");
}

#[test]
fn bare_export_list_assigns_locals() {
    let map = AliasTable::new();
    let out = transform_module("export { a, b }", &map);
    assert_eq!(out, "exports.a = a; exports.b = b");
}

#[test]
fn bare_export_list_honors_renaming() {
    let map = AliasTable::new();
    let out = transform_module("export { local as exported }", &map);
    assert_eq!(out, "exports.exported = local");
}

#[test]
fn bare_export_containing_from_is_left_alone() {
    let map = AliasTable::new();
    let out = transform_module("export { from }", &map);
    assert_eq!(out, "export { from }");
}

#[test]
fn exported_const_keeps_declaration_and_assigns() {
    let map = AliasTable::new();
    let out = transform_module("export const value = 42;", &map);
    assert_eq!(out, "const value = 42; exports.value = value;");
}

#[test]
fn exported_let_without_semicolon_gets_one() {
    let map = AliasTable::new();
    let out = transform_module("export let n = 1\nn += 1;", &map);
    assert_eq!(out, "let n = 1; exports.n = n;\nn += 1;");
}

#[test]
fn exported_function_keeps_declaration_and_assigns_after() {
    let map = AliasTable::new();
    let out = transform_module("export function go(n) { return n + 7; }", &map);
    assert_eq!(out, "function go(n) { return n + 7; }; exports.go = go;");
}

#[test]
fn exported_class_keeps_declaration_and_assigns_after() {
    let map = AliasTable::new();
    let out = transform_module("export class Box { get v() { return 3; } }", &map);
    assert_eq!(out, "class Box { get v() { return 3; } }; exports.Box = Box;");
}

#[test]
fn export_default_becomes_assignment() {
    let map = AliasTable::new();
    let out = transform_module("export default foo;", &map);
    assert_eq!(out, "exports.default = foo;");
}

#[test]
fn surrounding_code_is_untouched() {
    let map = map_of(&[("x", "/p/x.js")]);
    let out = transform_module("const k = 1;\nimport { a } from 'x'\nk + 2;", &map);
    assert_eq!(
        out,
        "const k = 1;\nconst { a } = require(\"/p/x.js\")\nk + 2;"
    );
}

#[test]
fn quoting_escapes_special_characters() {
    let map = map_of(&[("x", "C:\\p\\x.js")]);
    let out = transform_module("import * as n from 'x'", &map);
    assert_eq!(out, "const n = require(\"C:\\\\p\\\\x.js\")");
}
