//! Trusted boundary to the filesystem-based module resolver.
//!
//! Resolution consults the real filesystem (package manifests, extension
//! probing, symlinks), so nothing useful can be promised about its
//! outcome: callers take whatever path comes back, and all logic that
//! consumes resolution results is verified for every possible answer.

use vstd::prelude::*;

verus! {

/// Declares `oxc_resolver::ResolverGeneric`, the resolver the wrappers
/// below construct and call; its values are opaque here.
#[verifier::external_type_specification]
#[verifier::external_body]
#[verifier::reject_recursive_types(Fs)]
pub struct ExResolverGeneric<Fs>(oxc_resolver::ResolverGeneric<Fs>);

/// Declares `oxc_resolver::FileSystemOs`, the filesystem parameter of the
/// resolver type in use.
#[verifier::external_type_specification]
#[verifier::external_body]
pub struct ExFileSystemOs(oxc_resolver::FileSystemOs);

/// Relies on `oxc_resolver::ResolverGeneric::new`: builds a resolver whose
/// alias table maps each name to the given target path and which probes
/// the given extensions, entry fields and condition names. The option
/// sanitizer insists that every extension starts with a dot, so the
/// wrapper demands the same.
#[verifier::external_body]
pub(crate) fn make_resolver(
    aliases: &Vec<(String, String)>,
    extensions: &Vec<String>,
    main_fields: &Vec<String>,
    condition_names: &Vec<String>,
) -> oxc_resolver::Resolver
    requires
        forall|j: int|
            0 <= j < extensions@.len() ==> (#[trigger] extensions@[j])@.len() > 0
                && extensions@[j]@[0] == '.',
{
    let to_value = |p: &(String, String)| (p.0.clone(), vec![oxc_resolver::AliasValue::Path(p.1.clone())]);
    oxc_resolver::Resolver::new(oxc_resolver::ResolveOptions {
        alias: aliases.iter().map(to_value).collect(),
        extensions: extensions.clone(),
        main_fields: main_fields.clone(),
        condition_names: condition_names.clone(),
        ..Default::default()
    })
}

/// Relies on `oxc_resolver::ResolverImpl::resolve`: resolves a specifier
/// against a directory. The answer depends on what is on disk, so no
/// particular outcome is promised; an error becomes `None`.
#[verifier::external_body]
pub(crate) fn resolve_specifier(
    r: &oxc_resolver::Resolver,
    dir: &str,
    specifier: &str,
) -> Option<String> {
    match r.resolve(dir, specifier) {
        Ok(res) => Some(res.path().to_string_lossy().into_owned()),
        Err(_) => None,
    }
}

} // verus!
