//! Assembling the final bundle script.
//!
//! The bundle is one self-contained script: a module registry and exports
//! cache, a memoizing `require` that stores a module's exports object
//! before running its initializer (so circular requires see a live,
//! possibly partial object), one registry entry per module in load order,
//! an alias-name-to-path table, a global alias lookup function that throws
//! for unknown names, and an eager registration of every alias's exports
//! in a process-wide module table.

use vstd::prelude::*;

use crate::text::{from_chars, push_quoted, push_str_chars, spec_quote, to_chars};

verus! {

/// The fixed prelude: scope, registry, cache, and the `require` function.
pub open spec fn spec_emit_header() -> Seq<char> {
    "(function() {\n  'use strict';\n  var __modules = {};\n  var __cache = {};\n\n  function __require(id) {\n    if (__cache[id]) return __cache[id].exports;\n    var module = { exports: {} };\n    __cache[id] = module;\n    __modules[id](module, module.exports, __require);\n    return module.exports;\n  }\n\n"@
}

/// One registry entry: the module's initializer closure keyed by its
/// quoted canonical path, wrapping the transformed source.
pub open spec fn spec_emit_module(path: Seq<char>, code: Seq<char>) -> Seq<char> {
    "  __modules["@ + spec_quote(path) + "] = function(module, exports, require) {\n"@ + code
        + "\n  };\n\n"@
}

/// The registry entries for all modules, in load order.
pub open spec fn spec_emit_modules(ms: Seq<(Seq<char>, Seq<char>)>, i: int) -> Seq<char>
    decreases ms.len() - i when 0 <= i <= ms.len()
{
    if i >= ms.len() {
        Seq::empty()
    } else {
        spec_emit_module(ms[i].0, ms[i].1) + spec_emit_modules(ms, i + 1)
    }
}

/// One line of the alias table: quoted name to quoted canonical path.
pub open spec fn spec_emit_alias(name: Seq<char>, canon: Seq<char>) -> Seq<char> {
    "    "@ + spec_quote(name) + ": "@ + spec_quote(canon) + ",\n"@
}

/// The alias table lines.
pub open spec fn spec_emit_aliases(als: Seq<(Seq<char>, Seq<char>)>, i: int) -> Seq<char>
    decreases als.len() - i when 0 <= i <= als.len()
{
    if i >= als.len() {
        Seq::empty()
    } else {
        spec_emit_alias(als[i].0, als[i].1) + spec_emit_aliases(als, i + 1)
    }
}

/// The global alias lookup function: throws for an unknown name,
/// otherwise forces a `require` of the resolved path.
pub open spec fn spec_emit_lookup() -> Seq<char> {
    "  globalThis.__requireAlias = function(name) {\n    var id = __aliases[name];\n    if (!id) throw new Error('Unknown module: ' + name);\n    return __require(id);\n  };\n\n"@
}

/// One eager registration: the alias's exports published under its own
/// name in the process-wide module table.
pub open spec fn spec_emit_register(name: Seq<char>, canon: Seq<char>) -> Seq<char> {
    "  globalThis.__modules["@ + spec_quote(name) + "] = __require("@ + spec_quote(canon)
        + ");\n"@
}

/// The eager registrations for all aliases.
pub open spec fn spec_emit_registers(als: Seq<(Seq<char>, Seq<char>)>, i: int) -> Seq<char>
    decreases als.len() - i when 0 <= i <= als.len()
{
    if i >= als.len() {
        Seq::empty()
    } else {
        spec_emit_register(als[i].0, als[i].1) + spec_emit_registers(als, i + 1)
    }
}

/// The whole bundle text for the given modules (canonical path and
/// transformed code, in load order) and aliases (name and canonical path).
pub open spec fn spec_emit_bundle(
    ms: Seq<(Seq<char>, Seq<char>)>,
    als: Seq<(Seq<char>, Seq<char>)>,
) -> Seq<char> {
    spec_emit_header() + spec_emit_modules(ms, 0) + "  var __aliases = {\n"@ + spec_emit_aliases(
        als,
        0,
    ) + "  };\n\n"@ + spec_emit_lookup()
        + "  // Register aliased modules to global __modules\n  if (typeof globalThis.__modules === 'undefined') globalThis.__modules = {};\n"@
        + spec_emit_registers(als, 0) + "})();\n"@
}

/// Emits the bundle: `modules` pairs each canonical path with its
/// transformed code, in load order; `aliases` pairs each alias name with
/// its canonical target path.
pub fn emit_bundle(modules: &Vec<(String, String)>, aliases: &Vec<(String, String)>) -> (r: String)
    ensures
        r@ == spec_emit_bundle(
            modules@.map_values(|p: (String, String)| (p.0@, p.1@)),
            aliases@.map_values(|p: (String, String)| (p.0@, p.1@)),
        ),
{
    let ghost ms = modules@.map_values(|p: (String, String)| (p.0@, p.1@));
    let ghost als = aliases@.map_values(|p: (String, String)| (p.0@, p.1@));
    let mut out: Vec<char> = Vec::new();
    push_str_chars(
        &mut out,
        "(function() {\n  'use strict';\n  var __modules = {};\n  var __cache = {};\n\n  function __require(id) {\n    if (__cache[id]) return __cache[id].exports;\n    var module = { exports: {} };\n    __cache[id] = module;\n    __modules[id](module, module.exports, __require);\n    return module.exports;\n  }\n\n",
    );
    let ghost base1 = out@;
    let mut i: usize = 0;
    while i < modules.len()
        invariant
            i <= modules@.len(),
            ms == modules@.map_values(|p: (String, String)| (p.0@, p.1@)),
            base1 + spec_emit_modules(ms, 0) == out@ + spec_emit_modules(ms, i as int),
        decreases modules@.len() - i,
    {
        proof {
            assert(ms[i as int] == (modules@[i as int].0@, modules@[i as int].1@));
        }
        push_str_chars(&mut out, "  __modules[");
        push_quoted(&mut out, &to_chars(modules[i].0.as_str()));
        push_str_chars(&mut out, "] = function(module, exports, require) {\n");
        push_str_chars(&mut out, modules[i].1.as_str());
        push_str_chars(&mut out, "\n  };\n\n");
        i = i + 1;
        proof {
            assert(base1 + spec_emit_modules(ms, 0) =~= out@ + spec_emit_modules(ms, i as int));
        }
    }
    push_str_chars(&mut out, "  var __aliases = {\n");
    let ghost base2 = out@;
    let mut j: usize = 0;
    while j < aliases.len()
        invariant
            j <= aliases@.len(),
            als == aliases@.map_values(|p: (String, String)| (p.0@, p.1@)),
            base2 + spec_emit_aliases(als, 0) == out@ + spec_emit_aliases(als, j as int),
        decreases aliases@.len() - j,
    {
        proof {
            assert(als[j as int] == (aliases@[j as int].0@, aliases@[j as int].1@));
        }
        push_str_chars(&mut out, "    ");
        push_quoted(&mut out, &to_chars(aliases[j].0.as_str()));
        push_str_chars(&mut out, ": ");
        push_quoted(&mut out, &to_chars(aliases[j].1.as_str()));
        push_str_chars(&mut out, ",\n");
        j = j + 1;
        proof {
            assert(base2 + spec_emit_aliases(als, 0) =~= out@ + spec_emit_aliases(als, j as int));
        }
    }
    push_str_chars(&mut out, "  };\n\n");
    push_str_chars(
        &mut out,
        "  globalThis.__requireAlias = function(name) {\n    var id = __aliases[name];\n    if (!id) throw new Error('Unknown module: ' + name);\n    return __require(id);\n  };\n\n",
    );
    push_str_chars(
        &mut out,
        "  // Register aliased modules to global __modules\n  if (typeof globalThis.__modules === 'undefined') globalThis.__modules = {};\n",
    );
    let ghost base3 = out@;
    let mut k: usize = 0;
    while k < aliases.len()
        invariant
            k <= aliases@.len(),
            als == aliases@.map_values(|p: (String, String)| (p.0@, p.1@)),
            base3 + spec_emit_registers(als, 0) == out@ + spec_emit_registers(als, k as int),
        decreases aliases@.len() - k,
    {
        proof {
            assert(als[k as int] == (aliases@[k as int].0@, aliases@[k as int].1@));
        }
        push_str_chars(&mut out, "  globalThis.__modules[");
        push_quoted(&mut out, &to_chars(aliases[k].0.as_str()));
        push_str_chars(&mut out, "] = __require(");
        push_quoted(&mut out, &to_chars(aliases[k].1.as_str()));
        push_str_chars(&mut out, ");\n");
        k = k + 1;
        proof {
            assert(base3 + spec_emit_registers(als, 0) =~= out@ + spec_emit_registers(
                als,
                k as int,
            ));
        }
    }
    push_str_chars(&mut out, "})();\n");
    proof {
        assert(out@ =~= spec_emit_bundle(ms, als));
    }
    from_chars(&out)
}

} // verus!
