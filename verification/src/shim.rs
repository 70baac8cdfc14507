//! Script-side runtime pieces that surround the bundle.
//!
//! These build the source text handed to the embedded script engine: a
//! built-in fallback module for when no bundled runtime provides the UI
//! package, a wrapper that registers a plain module source under a name,
//! and a line-based rewrite of a user script's `import` lines into
//! lookups in the global module table.

use vstd::prelude::*;

use crate::text::{
    find_seq, from_chars, lit_at, push_chars, push_str_chars, spec_split,
    spec_trim, split_all, starts_with_at, to_chars, trim,
};
use crate::text::{copy_range, spec_find_seq};

verus! {

/// The built-in fallback module source.
pub open spec fn builtin_gpui_module_text() -> Seq<char> {
    "\n(function() {\n        // ========== Reactivity ==========\n        var __currentEffect = null;\n        \n        function RefImpl(value) {\n            this._value = value;\n            this._subscribers = [];\n        }\n        RefImpl.prototype = {\n            get value() {\n                if (__currentEffect) {\n                    if (this._subscribers.indexOf(__currentEffect) === -1) {\n                        this._subscribers.push(__currentEffect);\n                    }\n                }\n                return this._value;\n            },\n            set value(newValue) {\n                if (this._value !== newValue) {\n                    this._value = newValue;\n                    for (var i = 0; i < this._subscribers.length; i++) {\n                        this._subscribers[i]();\n                    }\n                }\n            }\n        };\n        \n        function ref(v) { return new RefImpl(v); }\n        \n        function unrefValue(v) {\n            if (v && typeof v === 'object' && 'value' in v) {\n                return v.value;\n            }\n            return v;\n        }\n        \n        function isRef(v) { return v instanceof RefImpl; }\n        \n        __modules['@rasenjs/reactive-signals'] = {\n            ref: ref,\n            computed: function(fn) { return new RefImpl(fn()); },\n            watch: function(src, cb) { \n                var old; \n                var runFn = function() { var n = src(); cb(n, old); old = n; }; \n                runFn(); \n                return function() {}; \n            },\n            unref: unrefValue,\n            isRef: isRef\n        };\n        \n        // ========== GpuiHost ==========\n        function createHost() {\n            var elements = [];\n            var handlers = {};\n            return {\n                appendChild: function(desc) { elements.push(desc); },\n                requestRender: function() { },\n                on: function(event, handler) { \n                    handlers[event] = handler; \n                    return function() { delete handlers[event]; };\n                },\n                getElements: function() { return elements; },\n                getHandlers: function() { return handlers; }\n            };\n        }\n        \n        // ========== Components (Three-Phase) ==========\n        function div(props) {\n            props = props || {};\n            \n            return function mount(host) {\n                var childUnmounts = [];\n                \n                var desc = {\n                    type: 'div',\n                    class: unrefValue(props.class) || '',\n                    children: [],\n                    handlers: {}\n                };\n                \n                if (props.onClick) desc.handlers.click = props.onClick;\n                if (props.onMouseEnter) desc.handlers.mouseenter = props.onMouseEnter;\n                if (props.onMouseLeave) desc.handlers.mouseleave = props.onMouseLeave;\n                \n                var children = props.children || [];\n                for (var i = 0; i < children.length; i++) {\n                    var childMount = children[i];\n                    if (typeof childMount === 'function') {\n                        var childHost = createHost();\n                        var unmount = childMount(childHost);\n                        childUnmounts.push(unmount);\n                        var childElements = childHost.getElements();\n                        for (var j = 0; j < childElements.length; j++) {\n                            desc.children.push(childElements[j]);\n                        }\n                    }\n                }\n                \n                host.appendChild(desc);\n                \n                return function unmount() {\n                    for (var k = 0; k < childUnmounts.length; k++) {\n                        if (childUnmounts[k]) childUnmounts[k]();\n                    }\n                };\n            };\n        }\n        \n        function text(props) {\n            props = props || {};\n            return function mount(host) {\n                var t = unrefValue(props.text);\n                var desc = {\n                    type: 'text',\n                    class: unrefValue(props.class) || '',\n                    text: t != null ? String(t) : ''\n                };\n                host.appendChild(desc);\n                return function unmount() {};\n            };\n        }\n        \n        function button(props) {\n            props = props || {};\n            var newProps = {};\n            for (var k in props) {\n                newProps[k] = props[k];\n            }\n            newProps.class = 'cursor-pointer ' + (unrefValue(props.class) || '');\n            return div(newProps);\n        }\n        \n        // ========== App Runner with Proper Three-Phase Pattern ==========\n        // \n        // Rasen three-phase pattern:\n        //   const App = () => {           // Setup Phase (runs ONCE)\n        //     const count = ref(0)        // <- refs created here\n        //     return div({...})           // <- returns mount function\n        //   }\n        //\n        // The mount function can run multiple times.\n        // The setup phase (App body) runs only once.\n        // This preserves refs between re-renders.\n        \n        var __mountFn = null;   // The mount function from App's setup phase\n        var __unmountFn = null; // The current unmount function\n        \n        function run(App) {\n            // Execute App's setup phase ONCE - this creates refs\n            __mountFn = App();\n            // Initial render\n            __rerender();\n        }\n        \n        // Re-render function: re-executes ONLY the mount function\n        // This preserves refs because they live in the App closure\n        function __rerender() {\n            if (!__mountFn) return null;\n            \n            // Call previous unmount if exists\n            if (__unmountFn) {\n                __unmountFn();\n            }\n            \n            // Create fresh host and mount\n            var rootHost = createHost();\n            __unmountFn = __mountFn(rootHost);\n            \n            var elements = rootHost.getElements();\n            __rootElement = elements[0] || null;\n            return __rootElement;\n        }\n        \n        // Make __rerender globally accessible\n        globalThis.__rerender = __rerender;\n        \n        // ========== Export ==========\n        __modules['@rasenjs/gpui'] = {\n            ref: ref,\n            computed: __modules['@rasenjs/reactive-signals'].computed,\n            watch: __modules['@rasenjs/reactive-signals'].watch,\n            unref: unrefValue,\n            isRef: isRef,\n            div: div,\n            text: text,\n            button: button,\n            run: run\n        };\n})();\n    "@
}

/// Returns the built-in fallback module: a reactivity core and the basic
/// components, registered in the global module table under the names the
/// bundled runtime would otherwise provide.
pub fn generate_builtin_gpui_module() -> (r: String)
    ensures
        r@ == builtin_gpui_module_text(),
{
    String::from_str(
        "\n(function() {\n        // ========== Reactivity ==========\n        var __currentEffect = null;\n        \n        function RefImpl(value) {\n            this._value = value;\n            this._subscribers = [];\n        }\n        RefImpl.prototype = {\n            get value() {\n                if (__currentEffect) {\n                    if (this._subscribers.indexOf(__currentEffect) === -1) {\n                        this._subscribers.push(__currentEffect);\n                    }\n                }\n                return this._value;\n            },\n            set value(newValue) {\n                if (this._value !== newValue) {\n                    this._value = newValue;\n                    for (var i = 0; i < this._subscribers.length; i++) {\n                        this._subscribers[i]();\n                    }\n                }\n            }\n        };\n        \n        function ref(v) { return new RefImpl(v); }\n        \n        function unrefValue(v) {\n            if (v && typeof v === 'object' && 'value' in v) {\n                return v.value;\n            }\n            return v;\n        }\n        \n        function isRef(v) { return v instanceof RefImpl; }\n        \n        __modules['@rasenjs/reactive-signals'] = {\n            ref: ref,\n            computed: function(fn) { return new RefImpl(fn()); },\n            watch: function(src, cb) { \n                var old; \n                var runFn = function() { var n = src(); cb(n, old); old = n; }; \n                runFn(); \n                return function() {}; \n            },\n            unref: unrefValue,\n            isRef: isRef\n        };\n        \n        // ========== GpuiHost ==========\n        function createHost() {\n            var elements = [];\n            var handlers = {};\n            return {\n                appendChild: function(desc) { elements.push(desc); },\n                requestRender: function() { },\n                on: function(event, handler) { \n                    handlers[event] = handler; \n                    return function() { delete handlers[event]; };\n                },\n                getElements: function() { return elements; },\n                getHandlers: function() { return handlers; }\n            };\n        }\n        \n        // ========== Components (Three-Phase) ==========\n        function div(props) {\n            props = props || {};\n            \n            return function mount(host) {\n                var childUnmounts = [];\n                \n                var desc = {\n                    type: 'div',\n                    class: unrefValue(props.class) || '',\n                    children: [],\n                    handlers: {}\n                };\n                \n                if (props.onClick) desc.handlers.click = props.onClick;\n                if (props.onMouseEnter) desc.handlers.mouseenter = props.onMouseEnter;\n                if (props.onMouseLeave) desc.handlers.mouseleave = props.onMouseLeave;\n                \n                var children = props.children || [];\n                for (var i = 0; i < children.length; i++) {\n                    var childMount = children[i];\n                    if (typeof childMount === 'function') {\n                        var childHost = createHost();\n                        var unmount = childMount(childHost);\n                        childUnmounts.push(unmount);\n                        var childElements = childHost.getElements();\n                        for (var j = 0; j < childElements.length; j++) {\n                            desc.children.push(childElements[j]);\n                        }\n                    }\n                }\n                \n                host.appendChild(desc);\n                \n                return function unmount() {\n                    for (var k = 0; k < childUnmounts.length; k++) {\n                        if (childUnmounts[k]) childUnmounts[k]();\n                    }\n                };\n            };\n        }\n        \n        function text(props) {\n            props = props || {};\n            return function mount(host) {\n                var t = unrefValue(props.text);\n                var desc = {\n                    type: 'text',\n                    class: unrefValue(props.class) || '',\n                    text: t != null ? String(t) : ''\n                };\n                host.appendChild(desc);\n                return function unmount() {};\n            };\n        }\n        \n        function button(props) {\n            props = props || {};\n            var newProps = {};\n            for (var k in props) {\n                newProps[k] = props[k];\n            }\n            newProps.class = 'cursor-pointer ' + (unrefValue(props.class) || '');\n            return div(newProps);\n        }\n        \n        // ========== App Runner with Proper Three-Phase Pattern ==========\n        // \n        // Rasen three-phase pattern:\n        //   const App = () => {           // Setup Phase (runs ONCE)\n        //     const count = ref(0)        // <- refs created here\n        //     return div({...})           // <- returns mount function\n        //   }\n        //\n        // The mount function can run multiple times.\n        // The setup phase (App body) runs only once.\n        // This preserves refs between re-renders.\n        \n        var __mountFn = null;   // The mount function from App's setup phase\n        var __unmountFn = null; // The current unmount function\n        \n        function run(App) {\n            // Execute App's setup phase ONCE - this creates refs\n            __mountFn = App();\n            // Initial render\n            __rerender();\n        }\n        \n        // Re-render function: re-executes ONLY the mount function\n        // This preserves refs because they live in the App closure\n        function __rerender() {\n            if (!__mountFn) return null;\n            \n            // Call previous unmount if exists\n            if (__unmountFn) {\n                __unmountFn();\n            }\n            \n            // Create fresh host and mount\n            var rootHost = createHost();\n            __unmountFn = __mountFn(rootHost);\n            \n            var elements = rootHost.getElements();\n            __rootElement = elements[0] || null;\n            return __rootElement;\n        }\n        \n        // Make __rerender globally accessible\n        globalThis.__rerender = __rerender;\n        \n        // ========== Export ==========\n        __modules['@rasenjs/gpui'] = {\n            ref: ref,\n            computed: __modules['@rasenjs/reactive-signals'].computed,\n            watch: __modules['@rasenjs/reactive-signals'].watch,\n            unref: unrefValue,\n            isRef: isRef,\n            div: div,\n            text: text,\n            button: button,\n            run: run\n        };\n})();\n    ",
    )
}

/// The text that registers `source` in the global module table as `name`.
pub open spec fn spec_wrap_module(name: Seq<char>, source: Seq<char>) -> Seq<char> {
    "\n(function() {\n    const exports = {};\n    const module = { exports };\n    "@ + source
        + "\n    __modules['"@ + name + "'] = module.exports || exports;\n})();\n"@
}

/// Wraps a module source in a closure that runs it against fresh
/// `module`/`exports` objects and registers the result under `name`.
pub fn wrap_module(name: &str, source: &str) -> (r: String)
    ensures
        r@ == spec_wrap_module(name@, source@),
{
    let mut out: Vec<char> = Vec::new();
    push_str_chars(
        &mut out,
        "\n(function() {\n    const exports = {};\n    const module = { exports };\n    ",
    );
    push_str_chars(&mut out, source);
    push_str_chars(&mut out, "\n    __modules['");
    push_str_chars(&mut out, name);
    push_str_chars(&mut out, "'] = module.exports || exports;\n})();\n");
    proof {
        assert(out@ =~= spec_wrap_module(name@, source@));
    }
    from_chars(&out)
}

/// A character trimmed off the ends of a module name: a quote or `;`.
pub open spec fn is_mark(c: char) -> bool {
    c == '\'' || c == '"' || c == ';'
}

/// Executable test of `is_mark`.
fn mark_char(c: char) -> (r: bool)
    ensures
        r == is_mark(c),
{
    c == '\'' || c == '"' || c == ';'
}

/// The text without leading mark characters.
pub open spec fn spec_trim_marks_start(s: Seq<char>) -> Seq<char>
    decreases s.len(),
{
    if s.len() > 0 && is_mark(s.first()) {
        spec_trim_marks_start(s.drop_first())
    } else {
        s
    }
}

/// The text without trailing mark characters.
pub open spec fn spec_trim_marks_end(s: Seq<char>) -> Seq<char>
    decreases s.len(),
{
    if s.len() > 0 && is_mark(s.last()) {
        spec_trim_marks_end(s.drop_last())
    } else {
        s
    }
}

/// The text without leading and trailing quotes and semicolons.
pub open spec fn spec_trim_marks(s: Seq<char>) -> Seq<char> {
    spec_trim_marks_end(spec_trim_marks_start(s))
}

/// Executable counterpart of `spec_trim_marks`.
fn trim_marks(v: &Vec<char>) -> (r: Vec<char>)
    ensures
        r@ == spec_trim_marks(v@),
{
    proof {
        assert(v@.skip(0) =~= v@);
    }
    let mut a: usize = 0;
    while a < v.len() && mark_char(v[a])
        invariant
            a <= v@.len(),
            spec_trim_marks_start(v@) == spec_trim_marks_start(v@.skip(a as int)),
        decreases v@.len() - a,
    {
        proof {
            assert(v@.skip(a as int).drop_first() =~= v@.skip(a as int + 1));
        }
        a = a + 1;
    }
    proof {
        assert(spec_trim_marks_start(v@.skip(a as int)) == v@.skip(a as int));
    }
    let mut b: usize = v.len();
    while b > a && mark_char(v[b - 1])
        invariant
            a <= b <= v@.len(),
            spec_trim_marks_end(v@.skip(a as int)) == spec_trim_marks_end(
                v@.subrange(a as int, b as int),
            ),
        decreases b,
    {
        proof {
            assert(v@.subrange(a as int, b as int).last() == v@[b - 1]);
            assert(v@.subrange(a as int, b as int).drop_last() =~= v@.subrange(
                a as int,
                b as int - 1,
            ));
        }
        b = b - 1;
    }
    proof {
        if b > a {
            assert(v@.subrange(a as int, b as int).last() == v@[b - 1]);
        }
        assert(spec_trim_marks_end(v@.subrange(a as int, b as int)) == v@.subrange(
            a as int,
            b as int,
        ));
        assert(spec_trim_marks(v@) == v@.subrange(a as int, b as int)) by {
            assert(v@.skip(a as int) =~= v@.subrange(a as int, v@.len() as int));
        }
    }
    copy_range(v, a, b)
}

/// A line without its trailing carriage return, if it has one.
pub open spec fn strip_cr(l: Seq<char>) -> Seq<char> {
    if l.len() > 0 && l.last() == '\r' {
        l.drop_last()
    } else {
        l
    }
}

/// The lines of a text: pieces between newlines, without a final empty
/// piece after a trailing newline, each without a trailing carriage
/// return.
pub open spec fn spec_lines(s: Seq<char>) -> Seq<Seq<char>> {
    if s.len() == 0 {
        Seq::empty()
    } else {
        let ps = spec_split(s, "\n"@);
        let base = if s.last() == '\n' {
            ps.drop_last()
        } else {
            ps
        };
        base.map_values(|l: Seq<char>| strip_cr(l))
    }
}

/// What one line of a user script becomes: an `import ... from` line with
/// a braced list turns into a destructure from the global module table;
/// one with a bare default binding turns into a `.default`-or-module
/// lookup; every other line is kept, with a newline appended.
pub open spec fn spec_rewrite_line(line: Seq<char>) -> Seq<char> {
    let t = spec_trim(line);
    if starts_with_at(t, 0, "import "@) && spec_find_seq(t, 0, " from "@) is Some {
        let fi = spec_find_seq(t, 0, " from "@)->Some_0;
        if fi < 7 {
            line + "\n"@
        } else {
            let import_part = t.subrange(7, fi);
            let module_name = spec_trim_marks(spec_trim(t.skip(fi + 6)));
            let bs = spec_find_seq(import_part, 0, "{"@);
            let be = spec_find_seq(import_part, 0, "}"@);
            if bs is Some && be is Some && be->Some_0 > bs->Some_0 {
                "const {"@ + import_part.subrange(bs->Some_0 + 1, be->Some_0)
                    + "} = __modules['"@ + module_name + "'];\n"@
            } else if bs is None && spec_trim(import_part).len() > 0 {
                "const "@ + spec_trim(import_part) + " = __modules['"@ + module_name
                    + "'].default || __modules['"@ + module_name + "'];\n"@
            } else {
                line + "\n"@
            }
        }
    } else {
        line + "\n"@
    }
}

/// The rewritten lines, concatenated.
pub open spec fn spec_rewrite_lines(ls: Seq<Seq<char>>, i: int) -> Seq<char>
    decreases ls.len() - i when 0 <= i <= ls.len()
{
    if i >= ls.len() {
        Seq::empty()
    } else {
        spec_rewrite_line(ls[i]) + spec_rewrite_lines(ls, i + 1)
    }
}

/// The whole user-script rewrite.
pub open spec fn spec_transform_imports(s: Seq<char>) -> Seq<char> {
    spec_rewrite_lines(spec_lines(s), 0)
}

/// Appends the rewrite of one line.
fn rewrite_line(line: &Vec<char>, out: &mut Vec<char>)
    ensures
        final(out)@ == old(out)@ + spec_rewrite_line(line@),
{
    let t = trim(line);
    proof {
        reveal_strlit("import ");
        reveal_strlit(" from ");
        reveal_strlit("{");
        reveal_strlit("}");
    }
    if lit_at(&t, 0, "import ") {
        match find_seq(&t, 0, " from ") {
            Some(fi) => {
                if fi < 7 {
                    push_chars(out, line);
                    push_str_chars(out, "\n");
                    proof {
                        assert(out@ =~= old(out)@ + spec_rewrite_line(line@));
                    }
                    return ;
                }
                let tl = t.len();
                proof {
                    assert(fi + 6 <= tl);
                }
                let import_part = copy_range(&t, 7, fi);
                let module_name = trim_marks(&trim(&copy_range(&t, fi + 6, tl)));
                proof {
                    assert(t@.subrange(fi + 6, t@.len() as int) =~= t@.skip(fi + 6));
                }
                let bs = find_seq(&import_part, 0, "{");
                let be = find_seq(&import_part, 0, "}");
                match (bs, be) {
                    (Some(b0), Some(b1)) if b1 > b0 => {
                        push_str_chars(out, "const {");
                        push_chars(out, &copy_range(&import_part, b0 + 1, b1));
                        push_str_chars(out, "} = __modules['");
                        push_chars(out, &module_name);
                        push_str_chars(out, "'];\n");
                        proof {
                            assert(out@ =~= old(out)@ + spec_rewrite_line(line@));
                        }
                    },
                    (None, _) => {
                        let dn = trim(&import_part);
                        if dn.len() > 0 {
                            push_str_chars(out, "const ");
                            push_chars(out, &dn);
                            push_str_chars(out, " = __modules['");
                            push_chars(out, &module_name);
                            push_str_chars(out, "'].default || __modules['");
                            push_chars(out, &module_name);
                            push_str_chars(out, "'];\n");
                        } else {
                            push_chars(out, line);
                            push_str_chars(out, "\n");
                        }
                        proof {
                            assert(out@ =~= old(out)@ + spec_rewrite_line(line@));
                        }
                    },
                    _ => {
                        push_chars(out, line);
                        push_str_chars(out, "\n");
                        proof {
                            assert(out@ =~= old(out)@ + spec_rewrite_line(line@));
                        }
                    },
                }
            },
            None => {
                push_chars(out, line);
                push_str_chars(out, "\n");
                proof {
                    assert(out@ =~= old(out)@ + spec_rewrite_line(line@));
                }
            },
        }
    } else {
        push_chars(out, line);
        push_str_chars(out, "\n");
        proof {
            assert(out@ =~= old(out)@ + spec_rewrite_line(line@));
        }
    }
}

/// Rewrites a user script line by line: `import` lines become lookups in
/// the global module table, other lines are kept as they are.
pub fn transform_imports(script: &str) -> (r: String)
    ensures
        r@ == spec_transform_imports(script@),
{
    let v = to_chars(script);
    let ghost ls = spec_lines(v@);
    let mut lines: Vec<Vec<char>> = Vec::new();
    if v.len() > 0 {
        proof {
            reveal_strlit("\n");
            crate::text::lemma_split_nonempty(v@, "\n"@);
        }
        let mut pieces = split_all(&v, "\n");
        let ghost ps = spec_split(v@, "\n"@);
        if v[v.len() - 1] == '\n' {
            proof {
                assert(pieces@.map_values(|p: Vec<char>| p@).len() == ps.len());
            }
            let _ = pieces.pop();
            proof {
                assert(pieces@.map_values(|p: Vec<char>| p@) =~= ps.drop_last());
            }
        }
        let ghost base = pieces@.map_values(|p: Vec<char>| p@);
        proof {
            assert(ls == base.map_values(|l: Seq<char>| strip_cr(l)));
        }
        let mut i: usize = 0;
        while i < pieces.len()
            invariant
                i <= pieces@.len(),
                base == pieces@.map_values(|p: Vec<char>| p@),
                ls == base.map_values(|l: Seq<char>| strip_cr(l)),
                lines@.map_values(|l: Vec<char>| l@) == ls.take(i as int),
            decreases pieces@.len() - i,
        {
            proof {
                assert(base[i as int] == pieces@[i as int]@);
                assert(ls[i as int] == strip_cr(base[i as int]));
            }
            let p = &pieces[i];
            let line = if p.len() > 0 && p[p.len() - 1] == '\r' {
                copy_range(p, 0, p.len() - 1)
            } else {
                copy_range(p, 0, p.len())
            };
            proof {
                if p@.len() > 0 && p@[p@.len() - 1] == '\r' {
                    assert(p@.subrange(0, p@.len() - 1) =~= p@.drop_last());
                } else {
                    assert(p@.subrange(0, p@.len() as int) =~= p@);
                }
            }
            let ghost oldlines = lines@;
            let ghost linev = line@;
            lines.push(line);
            proof {
                assert(oldlines.map_values(|l: Vec<char>| l@).len() == i as int);
                assert(oldlines.len() == i as int);
                assert(lines@.len() == i + 1);
                let newmapped = lines@.map_values(|l: Vec<char>| l@);
                assert(newmapped.len() == i + 1);
                assert forall|m: int| 0 <= m < i + 1 implies newmapped[m] == ls.take(
                    i as int + 1,
                )[m] by {
                    assert(newmapped[m] == lines@[m]@);
                    if m < i {
                        assert(lines@[m] == oldlines[m]);
                        assert(oldlines.map_values(|l: Vec<char>| l@)[m] == oldlines[m]@);
                    } else {
                        assert(lines@[m]@ == linev);
                    }
                }
                assert(newmapped =~= ls.take(i as int + 1));
            }
            i = i + 1;
        }
        proof {
            assert(ls.take(ls.len() as int) =~= ls);
        }
    } else {
        proof {
            assert(lines@.map_values(|l: Vec<char>| l@) =~= ls);
        }
    }
    let mut out: Vec<char> = Vec::new();
    let mut k: usize = 0;
    while k < lines.len()
        invariant
            k <= lines@.len(),
            lines@.map_values(|l: Vec<char>| l@) == ls,
            spec_rewrite_lines(ls, 0) == out@ + spec_rewrite_lines(ls, k as int),
        decreases lines@.len() - k,
    {
        proof {
            assert(ls[k as int] == lines@[k as int]@);
        }
        rewrite_line(&lines[k], &mut out);
        k = k + 1;
        proof {
            assert(spec_rewrite_lines(ls, 0) =~= out@ + spec_rewrite_lines(ls, k as int));
        }
    }
    proof {
        assert(out@ =~= spec_transform_imports(script@));
    }
    from_chars(&out)
}

} // verus!
