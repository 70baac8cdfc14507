use rasen_bundler::events::{next_handler_id, HandlerIds};
use rasen_bundler::imports::parse_imports;
use rasen_bundler::loader::ModuleLoader;
use rasen_bundler::shim::{generate_builtin_gpui_module, transform_imports, wrap_module};

#[test]
fn parse_imports_finds_all_three_forms() {
    let src = "import { a } from 'one';\nexport { b } from \"two\";\nconst p = import('three');\n";
    let found = parse_imports(src);
    assert_eq!(found, vec!["one".to_string(), "two".to_string(), "three".to_string()]);
}

#[test]
fn parse_imports_ignores_plain_code() {
    assert!(parse_imports("const x = 1; // import nothing\n").is_empty());
}

#[test]
fn wrap_module_registers_under_name() {
    let out = wrap_module("m", "exports.x = 1;");
    let expected = "\n(function() {\n    const exports = {};\n    const module = { exports };\n    exports.x = 1;\n    __modules['m'] = module.exports || exports;\n})();\n";
    assert_eq!(out, expected);
}

#[test]
fn builtin_module_provides_the_ui_names() {
    let shim = generate_builtin_gpui_module();
    assert!(shim.contains("__modules['@rasenjs/gpui']"));
    assert!(shim.contains("__modules['@rasenjs/reactive-signals']"));
    assert!(shim.contains("globalThis.__rerender = __rerender;"));
}

#[test]
fn transform_imports_rewrites_named_imports() {
    let out = transform_imports("import { div, text, run } from '@rasenjs/gpui'\nrun()\n");
    assert_eq!(
        out,
        "const { div, text, run } = __modules['@rasenjs/gpui'];\nrun()\n"
    );
}

#[test]
fn transform_imports_rewrites_default_imports() {
    let out = transform_imports("import Foo from 'pkg';");
    assert_eq!(
        out,
        "const Foo = __modules['pkg'].default || __modules['pkg'];\n"
    );
}

#[test]
fn transform_imports_keeps_other_lines() {
    let out = transform_imports("const a = 1;\nimport x;\n");
    assert_eq!(out, "const a = 1;\nimport x;\n");
}

#[test]
fn handler_ids_count_up_from_one() {
    let mut ids = HandlerIds::new();
    assert_eq!(next_handler_id(&mut ids), 1);
    assert_eq!(next_handler_id(&mut ids), 2);
    assert_eq!(next_handler_id(&mut ids), 3);
}

#[test]
fn loader_stores_the_bundle() {
    let mut l = ModuleLoader::new("/proj");
    assert_eq!(l.work_dir(), "/proj");
    assert!(l.get_bundled_runtime().is_none());
    l.store_bundle("(function(){})();".to_string());
    assert_eq!(l.get_bundled_runtime(), Some("(function(){})();"));
}
