//! One bundling run, driven step by step.
//!
//! The session owns every decision of a run: which alias target to
//! canonicalize next, which file to read, how to record modules, and how
//! to produce the final bundle. The caller only performs the filesystem
//! work it is asked for — canonicalizing a path, reading a file — and
//! hands the answers back. A missing alias target or an unreadable file
//! ends the run with an error naming the offender; an unresolvable import
//! and an import cycle are tolerated silently.

use vstd::prelude::*;

use crate::config::{clone_string, spec_insert, AliasTable};
use crate::emit::{emit_bundle, spec_emit_bundle};
use crate::graph::{GraphBuilder, Module, Step};
use crate::imports::{parse_imports, spec_parse_imports};
use crate::resolve::{make_resolver, resolve_specifier};
use crate::text::{from_chars, push_str_chars, spec_quote, to_chars};
use crate::transform::{spec_transform, transform_module};

verus! {

/// A fatal bundling failure: the message names the offending alias or
/// file.
pub struct BundleError {
    message: String,
}

/// The message of the fatal failure for an alias whose configured target
/// cannot be canonicalized.
pub open spec fn entry_error_text(name: Seq<char>) -> Seq<char> {
    "Cannot resolve entry '"@ + name + "'"@
}

/// The message of the fatal failure for a module file that cannot be
/// read.
pub open spec fn read_error_text(path: Seq<char>) -> Seq<char> {
    "Cannot read "@ + spec_quote(path)
}

impl BundleError {
    /// The failure message.
    pub closed spec fn message_view(&self) -> Seq<char> {
        self.message@
    }

    /// The failure message.
    pub fn message(&self) -> (r: &str)
        ensures
            r@ == self.message_view(),
    {
        self.message.as_str()
    }
}

/// What the session asks its driver to do next.
pub enum BundleRequest {
    /// Canonicalize this path (resolving symlinks); it is the configured
    /// target of the named alias.
    Canonicalize { name: String, path: String },
    /// Read the file at this canonical path.
    ReadFile { path: String },
    /// Internal progress was made; call `step` again.
    Working,
    /// The run has ended; the result is available.
    Finished,
}

enum Waiting {
    Nothing,
    Canonical,
    File,
}

/// The joined form of an alias target: the target itself when absolute,
/// otherwise the base directory, a separator, and the target.
pub open spec fn spec_join_path(base: Seq<char>, rel: Seq<char>) -> Seq<char> {
    if rel.len() > 0 && rel[0] == '/' {
        rel
    } else {
        base + "/"@ + rel
    }
}

/// Executable counterpart of `spec_join_path`.
pub fn join_path(base: &str, rel: &str) -> (r: String)
    ensures
        r@ == spec_join_path(base@, rel@),
{
    let rv = to_chars(rel);
    if rv.len() > 0 && rv[0] == '/' {
        rel.to_owned()
    } else {
        let mut out = to_chars(base);
        push_str_chars(&mut out, "/");
        push_str_chars(&mut out, rel);
        from_chars(&out)
    }
}

/// The directory part of a path: everything before the last separator,
/// or the separator itself when the path sits in the root.
pub open spec fn spec_dirname(p: Seq<char>) -> Seq<char>
    decreases p.len(),
{
    if p.len() == 0 {
        p
    } else if p.last() == '/' {
        if p.len() == 1 {
            p
        } else {
            p.drop_last()
        }
    } else {
        spec_dirname(p.drop_last())
    }
}

/// Executable counterpart of `spec_dirname`.
pub fn dirname(p: &str) -> (r: String)
    ensures
        r@ == spec_dirname(p@),
{
    let v = to_chars(p);
    let mut b: usize = v.len();
    proof {
        assert(v@.take(v@.len() as int) =~= v@);
    }
    while b > 0 && v[b - 1] != '/'
        invariant
            b <= v@.len(),
            spec_dirname(v@) == spec_dirname(v@.take(b as int)),
        decreases b,
    {
        proof {
            assert(v@.take(b as int).last() == v@[b - 1]);
            assert(v@.take(b as int).drop_last() =~= v@.take(b as int - 1));
        }
        b = b - 1;
    }
    if b == 0 {
        proof {
            assert(v@.take(0) =~= Seq::<char>::empty());
        }
        String::new()
    } else if b == 1 {
        proof {
            assert(v@.take(1).last() == v@[0]);
        }
        from_chars(&crate::text::copy_range(&v, 0, 1))
    } else {
        proof {
            assert(v@.take(b as int).last() == v@[b - 1]);
            assert(v@.take(b as int).drop_last() =~= v@.take(b as int - 1));
            assert(v@.take(b as int - 1) =~= v@.subrange(0, b as int - 1));
        }
        from_chars(&crate::text::copy_range(&v, 0, b - 1))
    }
}

/// Extending the answer sequence beyond position `k` does not change
/// the table built from the first `k` answers.
proof fn lemma_map_of_answers_frame(
    imps: Seq<Seq<char>>,
    a: Seq<Option<Seq<char>>>,
    b: Seq<Option<Seq<char>>>,
    k: int,
)
    requires
        forall|m: int| 0 <= m < k ==> a[m] == b[m],
    ensures
        Bundler::map_of_answers(imps, a, k) == Bundler::map_of_answers(imps, b, k),
    decreases k,
{
    if k > 0 {
        lemma_map_of_answers_frame(imps, a, b, k - 1);
    }
}

/// A bundling session.
pub struct Bundler {
    base_dir: String,
    aliases: AliasTable,
    idx: usize,
    canon: Vec<(String, String)>,
    resolver: Option<oxc_resolver::Resolver>,
    builder: GraphBuilder,
    graph_started: bool,
    waiting: Waiting,
    outcome: Option<Result<String, BundleError>>,
}

impl Bundler {
    /// The alias table of this run.
    pub closed spec fn aliases_view(&self) -> Seq<(Seq<char>, Seq<char>)> {
        self.aliases@
    }

    /// The base directory of this run.
    pub closed spec fn base_view(&self) -> Seq<char> {
        self.base_dir@
    }

    /// The alias names with their canonicalized targets, so far.
    pub closed spec fn canon_view(&self) -> Seq<(Seq<char>, Seq<char>)> {
        self.canon@.map_values(|p: (String, String)| (p.0@, p.1@))
    }

    /// How many aliases have been canonicalized.
    pub closed spec fn canon_done(&self) -> int {
        self.idx as int
    }

    /// The session's result, once it has finished: the bundle text, or
    /// the fatal error message.
    pub closed spec fn result_view(&self) -> Option<Result<Seq<char>, Seq<char>>> {
        match self.outcome {
            Some(Ok(b)) => Some(Ok(b@)),
            Some(Err(e)) => Some(Err(e.message_view())),
            None => None,
        }
    }

    /// The session awaits an answer to a `Canonicalize` request.
    pub closed spec fn awaiting_canonical(&self) -> bool {
        self.waiting is Canonical
    }

    /// The session awaits an answer to a `ReadFile` request.
    pub closed spec fn awaiting_file(&self) -> bool {
        self.waiting is File
    }

    /// How much work the session has left: before the graph starts, the
    /// aliases still to canonicalize plus one step to open the graph plus
    /// the entries the graph will then hold; afterwards, the graph's own
    /// measure. Every `Working` answer of `step` strictly decreases it.
    pub closed spec fn session_measure(&self) -> int {
        if !self.graph_started {
            1 + self.aliases@.len() + (self.aliases@.len() - self.idx)
        } else {
            self.builder.work_measure()
        }
    }

    /// The `Some` payloads of a sequence of answers, in order.
    pub open spec fn some_answers(answers: Seq<Option<Seq<char>>>) -> Seq<Seq<char>>
        decreases answers.len(),
    {
        if answers.len() == 0 {
            Seq::empty()
        } else {
            Bundler::some_answers(answers.drop_last()) + (match answers.last() {
                Some(d) => seq![d],
                None => Seq::empty(),
            })
        }
    }

    /// The specifier table built from the first `k` imports and one
    /// resolver answer each, in order: a `Some` answer inserts the pair,
    /// a `None` answer adds nothing.
    pub open spec fn map_of_answers(
        imps: Seq<Seq<char>>,
        answers: Seq<Option<Seq<char>>>,
        k: int,
    ) -> Seq<(Seq<char>, Seq<char>)>
        decreases k,
    {
        if k <= 0 {
            Seq::empty()
        } else {
            let prev = Bundler::map_of_answers(imps, answers, k - 1);
            match answers[k - 1] {
                Some(r) => spec_insert(prev, imps[k - 1], r),
                None => prev,
            }
        }
    }

    /// The table arises from one resolver answer per import, in order.
    pub open spec fn map_from_answers(
        imps: Seq<Seq<char>>,
        map: Seq<(Seq<char>, Seq<char>)>,
    ) -> bool {
        exists|answers: Seq<Option<Seq<char>>>|
            answers.len() == imps.len() && map == #[trigger] Bundler::map_of_answers(
                imps,
                answers,
                answers.len() as int,
            )
    }

    /// Every key of `map` is one of the given import specifiers.
    pub open spec fn map_keys_from(
        map: Seq<(Seq<char>, Seq<char>)>,
        imps: Seq<Seq<char>>,
    ) -> bool {
        forall|m: int|
            0 <= m < map.len() ==> exists|q: int|
                0 <= q < imps.len() && imps[q] == (#[trigger] map[m]).0
    }

    /// The session's invariant.
    pub closed spec fn wf(&self) -> bool {
        &&& self.aliases.wf()
        &&& self.idx <= self.aliases@.len()
        &&& self.canon@.len() == self.idx
        &&& self.builder.wf()
        &&& (self.graph_started ==> self.idx == self.aliases@.len() && self.resolver is Some
            && self.builder.entries_view() == self.canon_view().map_values(
            |p: (Seq<char>, Seq<char>)| p.1,
        ))
        &&& (self.waiting is Canonical ==> !self.graph_started && self.idx < self.aliases@.len()
            && self.outcome is None)
        &&& (self.waiting is File ==> self.graph_started && self.builder.pending_path() is Some
            && self.outcome is None)
        &&& (self.waiting is Nothing && self.outcome is None ==> self.builder.pending_path()
            is None)
        &&& (!self.graph_started ==> self.builder.pending_path() is None)
    }

    /// Each emitted module pairs the recorded module's canonical path
    /// with a rewrite of its source under some specifier-to-path table:
    /// what ties the emitted registry entries back to the recorded graph.
    pub open spec fn transform_witness(
        bms: Seq<Module>,
        mods: Seq<(Seq<char>, Seq<char>)>,
        maps: Seq<Seq<(Seq<char>, Seq<char>)>>,
    ) -> bool {
        &&& mods.len() == maps.len()
        &&& mods.len() == bms.len()
        &&& forall|i: int|
            0 <= i < mods.len() ==> (#[trigger] mods[i]).0 == bms[i].path@ && mods[i].1
                == spec_transform(bms[i].source@, maps[i])
        &&& forall|i: int|
            0 <= i < maps.len() ==> Bundler::map_keys_from(
                #[trigger] maps[i],
                spec_parse_imports(bms[i].source@),
            )
        &&& forall|i: int|
            0 <= i < maps.len() ==> Bundler::map_from_answers(
                spec_parse_imports(bms[i].source@),
                #[trigger] maps[i],
            )
    }

    /// A session for the given base directory and alias table.
    pub fn new(base_dir: &str, aliases: AliasTable) -> (r: Bundler)
        requires
            aliases.wf(),
        ensures
            r.wf(),
            r.base_view() == base_dir@,
            r.aliases_view() == aliases@,
            r.result_view() is None,
            !r.awaiting_canonical() && !r.awaiting_file(),
    {
        let r = Bundler {
            base_dir: base_dir.to_owned(),
            aliases,
            idx: 0,
            canon: Vec::new(),
            resolver: None,
            builder: GraphBuilder::new(Vec::new()),
            graph_started: false,
            waiting: Waiting::Nothing,
            outcome: None,
        };
        proof {
            assert(r.canon_view() =~= Seq::<(Seq<char>, Seq<char>)>::empty());
        }
        r
    }

    /// The fixed lists the resolver is configured with: the extension
    /// search order, the package entry fields, and the condition names,
    /// each in preference order.
    fn resolver_lists() -> (r: (Vec<String>, Vec<String>, Vec<String>))
        ensures
            r.0@.map_values(|x: String| x@) == seq![".js"@, ".mjs"@, ".cjs"@],
            r.1@.map_values(|x: String| x@) == seq!["module"@, "main"@],
            r.2@.map_values(|x: String| x@) == seq!["import"@, "require"@, "default"@],
    {
        let mut exts: Vec<String> = Vec::new();
        exts.push(".js".to_owned());
        exts.push(".mjs".to_owned());
        exts.push(".cjs".to_owned());
        let mut mains: Vec<String> = Vec::new();
        mains.push("module".to_owned());
        mains.push("main".to_owned());
        let mut conds: Vec<String> = Vec::new();
        conds.push("import".to_owned());
        conds.push("require".to_owned());
        conds.push("default".to_owned());
        proof {
            assert(exts@.map_values(|x: String| x@) =~= seq![".js"@, ".mjs"@, ".cjs"@]);
            assert(mains@.map_values(|x: String| x@) =~= seq!["module"@, "main"@]);
            assert(conds@.map_values(|x: String| x@) =~= seq!["import"@, "require"@, "default"@]);
        }
        (exts, mains, conds)
    }

    /// Asks for the next piece of outside work, or performs one internal
    /// step.
    pub fn step(&mut self) -> (r: BundleRequest)
        requires
            old(self).wf(),
            !old(self).awaiting_canonical(),
            !old(self).awaiting_file(),
        ensures
            final(self).wf(),
            final(self).base_view() == old(self).base_view(),
            final(self).aliases_view() == old(self).aliases_view(),
            match r {
                BundleRequest::Canonicalize { name, path } => final(self).awaiting_canonical()
                    && 0 <= final(self).canon_done() < final(self).aliases_view().len() && name@
                    == final(self).aliases_view()[final(self).canon_done()].0 && path@
                    == spec_join_path(
                    final(self).base_view(),
                    final(self).aliases_view()[final(self).canon_done()].1,
                ) && final(self).result_view() is None,
                BundleRequest::ReadFile { path } => final(self).awaiting_file() && final(self).result_view() is None && final(self).pending_file_view() == Some(path@),
                BundleRequest::Working => !final(self).awaiting_canonical() && !final(self).awaiting_file() && final(self).session_measure() < old(self).session_measure(),
                BundleRequest::Finished => final(self).result_view() is Some && (old(self).result_view() is None ==> (exists|
                    mods: Seq<(Seq<char>, Seq<char>)>,
                    maps: Seq<Seq<(Seq<char>, Seq<char>)>>,
                |
                    #[trigger] Bundler::transform_witness(
                        final(self).builder_view().modules_seq(),
                        mods,
                        maps,
                    ) && final(self).result_view() == Some(
                        Ok::<Seq<char>, Seq<char>>(
                            spec_emit_bundle(mods, final(self).canon_view()),
                        ),
                    )) && (forall|k: int|
                    0 <= k < final(self).canon_view().len()
                        ==> #[trigger] GraphBuilder::has_path(
                        final(self).builder_view().module_paths(),
                        final(self).canon_view()[k].1,
                    ))),
            },
    {
        if self.outcome.is_some() {
            return BundleRequest::Finished;
        }
        if !self.graph_started {
            if self.idx < self.aliases.len() {
                let (name, rel) = self.aliases.get(self.idx);
                let name = clone_string(name);
                let path = join_path(self.base_dir.as_str(), rel.as_str());
                self.waiting = Waiting::Canonical;
                return BundleRequest::Canonicalize { name, path };
            }
            let (exts, mains, conds) = Self::resolver_lists();
            proof {
                reveal_strlit(".js");
                reveal_strlit(".mjs");
                reveal_strlit(".cjs");
                assert forall|j: int|
                    0 <= j < exts@.len() implies (#[trigger] exts@[j])@.len() > 0 && exts@[j]@[0]
                    == '.' by {
                    let mapped = exts@.map_values(|x: String| x@);
                    assert(mapped.len() == 3);
                    assert(exts@.len() == 3);
                    assert(mapped[j] == exts@[j]@);
                    if j == 0 {
                        assert(mapped[0] == ".js"@);
                    } else if j == 1 {
                        assert(mapped[1] == ".mjs"@);
                    } else {
                        assert(mapped[2] == ".cjs"@);
                    }
                }
            }
            self.resolver = Some(make_resolver(&self.canon, &exts, &mains, &conds));
            let mut entries: Vec<String> = Vec::new();
            let ghost targets = self.canon_view().map_values(|p: (Seq<char>, Seq<char>)| p.1);
            let mut i: usize = 0;
            while i < self.canon.len()
                invariant
                    i <= self.canon@.len(),
                    targets == self.canon_view().map_values(|p: (Seq<char>, Seq<char>)| p.1),
                    targets.len() == self.canon@.len(),
                    entries@.map_values(|e: String| e@) == targets.take(i as int),
                decreases self.canon@.len() - i,
            {
                proof {
                    assert(self.canon_view()[i as int] == (
                        self.canon@[i as int].0@,
                        self.canon@[i as int].1@,
                    ));
                    assert(targets[i as int] == self.canon_view()[i as int].1);
                }
                let ghost oldentries = entries@;
                entries.push(clone_string(&self.canon[i].1));
                proof {
                    assert(oldentries.map_values(|e: String| e@).len() == i as int);
                    assert(oldentries.len() == i as int);
                    assert(entries@.len() == i + 1);
                    let newmapped = entries@.map_values(|e: String| e@);
                    assert(newmapped.len() == i + 1);
                    assert forall|m: int| 0 <= m < i + 1 implies newmapped[m] == targets.take(
                        i as int + 1,
                    )[m] by {
                        assert(newmapped[m] == entries@[m]@);
                        if m < i {
                            assert(entries@[m] == oldentries[m]);
                            assert(oldentries.map_values(|e: String| e@)[m] == oldentries[m]@);
                        }
                    }
                    assert(newmapped =~= targets.take(i as int + 1));
                }
                i = i + 1;
            }
            proof {
                assert(targets.take(targets.len() as int) =~= targets);
            }
            let ghost elen = entries@.len();
            self.builder = GraphBuilder::new(entries);
            self.graph_started = true;
            proof {
                assert(self.idx == self.aliases@.len());
                assert(elen == self.canon@.len());
                assert(self.builder.work_measure() == elen);
                assert(self.session_measure() < old(self).session_measure());
            }
            return BundleRequest::Working;
        }
        match self.builder.advance() {
            Step::NeedFile(p) => {
                self.waiting = Waiting::File;
                BundleRequest::ReadFile { path: p }
            },
            Step::Progress => {
                proof {
                    assert(self.session_measure() < old(self).session_measure());
                }
                BundleRequest::Working
            },
            Step::Done => {
                let bundle = self.assemble();
                let ghost pre = *self;
                let ghost bv = bundle@;
                self.outcome = Some(Ok(bundle));
                proof {
                    let (mods, maps) = choose|
                        mods: Seq<(Seq<char>, Seq<char>)>,
                        maps: Seq<Seq<(Seq<char>, Seq<char>)>>,
                    |
                        #[trigger] Bundler::transform_witness(
                            pre.builder_view().modules_seq(),
                            mods,
                            maps,
                        ) && bv == spec_emit_bundle(mods, pre.canon_view());
                    assert(Bundler::transform_witness(
                        self.builder_view().modules_seq(),
                        mods,
                        maps,
                    ));
                    assert(self.result_view() == Some(
                        Ok::<Seq<char>, Seq<char>>(spec_emit_bundle(mods, self.canon_view())),
                    ));
                    assert forall|k: int|
                        0 <= k < self.canon_view().len()
                            implies #[trigger] GraphBuilder::has_path(
                        self.builder_view().module_paths(),
                        self.canon_view()[k].1,
                    ) by {
                        let targets = self.canon_view().map_values(
                            |p: (Seq<char>, Seq<char>)| p.1,
                        );
                        assert(self.builder.entries_view()[k] == targets[k]);
                        assert(targets[k] == self.canon_view()[k].1);
                    }
                }
                BundleRequest::Finished
            },
        }
    }

    /// Rewrites every recorded module and emits the bundle text.
    fn assemble(&self) -> (r: String)
        ensures
            exists|mods: Seq<(Seq<char>, Seq<char>)>, maps: Seq<Seq<(Seq<char>, Seq<char>)>>|
                #[trigger] Bundler::transform_witness(self.builder_view().modules_seq(), mods, maps)
                    && r@ == spec_emit_bundle(mods, self.canon_view()),
    {
        let (exts, mains, conds) = Self::resolver_lists();
        proof {
            reveal_strlit(".js");
            reveal_strlit(".mjs");
            reveal_strlit(".cjs");
            assert forall|j: int|
                0 <= j < exts@.len() implies (#[trigger] exts@[j])@.len() > 0 && exts@[j]@[0]
                == '.' by {
                let mapped = exts@.map_values(|x: String| x@);
                assert(mapped.len() == 3);
                assert(exts@.len() == 3);
                assert(mapped[j] == exts@[j]@);
                if j == 0 {
                assert(mapped[0] == ".js"@);
                } else if j == 1 {
                assert(mapped[1] == ".mjs"@);
                } else {
                assert(mapped[2] == ".cjs"@);
                }
            }
        }
        let none_aliases: Vec<(String, String)> = Vec::new();
        let plain = make_resolver(&none_aliases, &exts, &mains, &conds);
        let mut mods_out: Vec<(String, String)> = Vec::new();
        let ghost bms = self.builder.modules_seq();
        let ghost mut maps: Seq<Seq<(Seq<char>, Seq<char>)>> = Seq::empty();
        let ghost mut all_answers: Seq<Seq<Option<Seq<char>>>> = Seq::empty();
        let n = self.builder.module_count();
        let mut i: usize = 0;
        while i < n
            invariant
                i <= n,
                n == bms.len(),
                bms == self.builder.modules_seq(),
                mods_out@.len() == i,
                maps.len() == i,
                forall|j: int|
                    0 <= j < i ==> (#[trigger] mods_out@[j]).0@ == bms[j].path@ && mods_out@[j].1@
                        == spec_transform(bms[j].source@, maps[j]),
                forall|j: int|
                    0 <= j < i ==> Bundler::map_keys_from(
                        #[trigger] maps[j],
                        spec_parse_imports(bms[j].source@),
                    ),
                all_answers.len() == i,
                forall|j: int|
                    0 <= j < i ==> (#[trigger] all_answers[j]).len() == spec_parse_imports(
                        bms[j].source@,
                    ).len() && maps[j] == Bundler::map_of_answers(
                        spec_parse_imports(bms[j].source@),
                        all_answers[j],
                        all_answers[j].len() as int,
                    ),
            decreases n - i,
        {
            let m = self.builder.module_at(i);
            let dir = dirname(m.path.as_str());
            let imports = parse_imports(m.source.as_str());
            let ghost impv = imports@.map_values(|x: String| x@);
            let mut map = AliasTable::new();
            let ghost mut answers: Seq<Option<Seq<char>>> = Seq::empty();
            proof {
                assert(Bundler::map_keys_from(map@, impv));
            }
            let mut k: usize = 0;
            while k < imports.len()
                invariant
                    k <= imports@.len(),
                    impv == imports@.map_values(|x: String| x@),
                    Bundler::map_keys_from(map@, impv),
                    answers.len() == k,
                    map@ == Bundler::map_of_answers(impv, answers, k as int),
                decreases imports@.len() - k,
            {
                match resolve_specifier(&plain, dir.as_str(), imports[k].as_str()) {
                    Some(res) => {
                        let ghost oldmap = map@;
                        let ghost resv = res@;
                        let key = clone_string(&imports[k]);
                        let ghost keyv = key@;
                        proof {
                            assert(impv[k as int] == imports@[k as int]@);
                        }
                        map.insert(key, res);
                        proof {
                            let ghost oldans = answers;
                            answers = answers.push(Some(resv));
                            assert(answers[k as int] == Some(resv));
                            lemma_map_of_answers_frame(impv, oldans, answers, k as int);
                            assert(Bundler::map_of_answers(impv, answers, k as int) == oldmap);
                            assert(map@ == Bundler::map_of_answers(impv, answers, k as int + 1));
                            assert forall|mi: int| 0 <= mi < map@.len() implies exists|q: int|
                                0 <= q < impv.len() && impv[q] == (#[trigger] map@[mi]).0 by {
                                crate::config::lemma_insert_keys(oldmap, keyv, resv, mi);
                                if map@[mi].0 == keyv {
                                    assert(impv[k as int] == map@[mi].0);
                                } else {
                                    let mm = choose|mm: int|
                                        0 <= mm < oldmap.len() && oldmap[mm].0 == map@[mi].0;
                                    assert(exists|q: int|
                                        0 <= q < impv.len() && impv[q] == (oldmap[mm]).0);
                                }
                            }
                        }
                    },
                    None => {
                        proof {
                            let ghost oldans = answers;
                            answers = answers.push(None);
                            assert(answers[k as int] is None);
                            lemma_map_of_answers_frame(impv, oldans, answers, k as int);
                            assert(Bundler::map_of_answers(impv, answers, k as int) == map@);
                            assert(map@ == Bundler::map_of_answers(impv, answers, k as int + 1));
                        }
                    },
                }
                k = k + 1;
            }
            let code = transform_module(m.source.as_str(), &map);
            mods_out.push((clone_string(&m.path), code));
            proof {
                assert(impv == spec_parse_imports(bms[i as int].source@));
                assert(answers.len() == impv.len());
                assert(map@ == Bundler::map_of_answers(impv, answers, answers.len() as int));
                let ghost oldmaps = maps;
                let ghost oldall = all_answers;
                maps = maps.push(map@);
                all_answers = all_answers.push(answers);
                assert(maps[i as int] == map@);
                assert(all_answers[i as int] == answers);
                assert forall|j: int|
                    0 <= j < i + 1 implies (#[trigger] all_answers[j]).len()
                    == spec_parse_imports(bms[j].source@).len() && maps[j]
                    == Bundler::map_of_answers(
                    spec_parse_imports(bms[j].source@),
                    all_answers[j],
                    all_answers[j].len() as int,
                ) by {
                    if j < i {
                        assert(all_answers[j] == oldall[j]);
                        assert(maps[j] == oldmaps[j]);
                    } else {
                        assert(impv == spec_parse_imports(bms[j].source@));
                    }
                }
            }
            i = i + 1;
        }
        let bundle = emit_bundle(&mods_out, &self.canon);
        proof {
            let mods = mods_out@.map_values(|p: (String, String)| (p.0@, p.1@));
            assert(mods.len() == maps.len());
            assert forall|j: int| 0 <= j < mods.len() implies (#[trigger] mods[j]).0
                == bms[j].path@ && mods[j].1 == spec_transform(bms[j].source@, maps[j]) by {
                assert(mods[j] == (mods_out@[j].0@, mods_out@[j].1@));
            }
            assert forall|j: int| 0 <= j < maps.len() implies Bundler::map_keys_from(
                #[trigger] maps[j],
                spec_parse_imports(self.builder_view().modules_seq()[j].source@),
            ) by {
                assert(bms[j] == self.builder_view().modules_seq()[j]);
            }
            assert forall|j: int| 0 <= j < maps.len() implies Bundler::map_from_answers(
                spec_parse_imports(self.builder_view().modules_seq()[j].source@),
                #[trigger] maps[j],
            ) by {
                assert(bms[j] == self.builder_view().modules_seq()[j]);
                let imps = spec_parse_imports(self.builder_view().modules_seq()[j].source@);
                let ans = all_answers[j];
                assert(ans.len() == imps.len());
                assert(maps[j] == Bundler::map_of_answers(imps, ans, ans.len() as int));
            }
            assert(Bundler::transform_witness(self.builder_view().modules_seq(), mods, maps));
        }
        bundle
    }

    /// Answers a `Canonicalize` request. `None` (the target cannot be
    /// canonicalized) ends the run with the entry error for that alias;
    /// otherwise the alias and its canonical path join the table the
    /// bundle is built around.
    pub fn supply_canonical(&mut self, canonical: Option<String>)
        requires
            old(self).wf(),
            old(self).awaiting_canonical(),
        ensures
            final(self).wf(),
            !final(self).awaiting_canonical() && !final(self).awaiting_file(),
            final(self).base_view() == old(self).base_view(),
            final(self).aliases_view() == old(self).aliases_view(),
            match canonical {
                None => final(self).result_view() == Some(
                    Err::<Seq<char>, Seq<char>>(
                        entry_error_text(old(self).aliases_view()[old(self).canon_done()].0),
                    ),
                ),
                Some(c) => final(self).result_view() is None && final(self).canon_view() == old(self).canon_view().push(
                    (old(self).aliases_view()[old(self).canon_done()].0, c@),
                ) && final(self).canon_done() == old(self).canon_done() + 1,
            },
    {
        self.waiting = Waiting::Nothing;
        let (name, _) = self.aliases.get(self.idx);
        let name = clone_string(name);
        match canonical {
            None => {
                let mut msg: Vec<char> = Vec::new();
                push_str_chars(&mut msg, "Cannot resolve entry '");
                push_str_chars(&mut msg, name.as_str());
                push_str_chars(&mut msg, "'");
                proof {
                    assert(msg@ =~= entry_error_text(name@));
                }
                self.outcome = Some(Err(BundleError { message: from_chars(&msg) }));
            },
            Some(c) => {
                let ghost oldcanon = self.canon@;
                let alen = self.aliases.len();
                proof {
                    assert(self.idx < alen);
                }
                self.canon.push((name, c));
                self.idx = self.idx + 1;
                proof {
                    assert(self.canon_view() =~= oldcanon.map_values(
                        |p: (String, String)| (p.0@, p.1@),
                    ).push((self.aliases@[self.idx - 1].0, self.canon@[self.idx - 1].1@)));
                }
            },
        }
    }

    /// Answers a `ReadFile` request. `None` (the file cannot be read)
    /// ends the run with the read error for that path; otherwise the
    /// module's import specifiers are resolved against its directory and
    /// the module joins the traversal.
    pub fn supply_file(&mut self, contents: Option<String>)
        requires
            old(self).wf(),
            old(self).awaiting_file(),
        ensures
            final(self).wf(),
            !final(self).awaiting_canonical() && !final(self).awaiting_file(),
            final(self).base_view() == old(self).base_view(),
            final(self).aliases_view() == old(self).aliases_view(),
            match contents {
                None => final(self).result_view() == Some(
                    Err::<Seq<char>, Seq<char>>(
                        read_error_text(old(self).pending_file_view()->Some_0),
                    ),
                ),
                Some(src) => final(self).result_view() is None && (final(self).builder_view().top_frame_view() matches Some(t) && t.0 == old(self).pending_file_view()->Some_0 && t.1 == src@ && (exists|
                    answers: Seq<Option<Seq<char>>>,
                |
                    answers.len() == spec_parse_imports(src@).len() && t.2
                        == #[trigger] Bundler::some_answers(answers))),
            },
    {
        self.waiting = Waiting::Nothing;
        let p = match self.builder.pending_file() {
            Some(p) => clone_string(p),
            None => {
                proof {
                    assert(false);
                }
                String::new()
            },
        };
        match contents {
            None => {
                let mut msg: Vec<char> = Vec::new();
                push_str_chars(&mut msg, "Cannot read ");
                crate::text::push_quoted(&mut msg, &to_chars(p.as_str()));
                proof {
                    assert(msg@ =~= read_error_text(p@));
                }
                self.outcome = Some(Err(BundleError { message: from_chars(&msg) }));
            },
            Some(src) => {
                let ghost srcv = src@;
                let dir = dirname(p.as_str());
                let imports = parse_imports(src.as_str());
                let ghost impv = imports@.map_values(|x: String| x@);
                let mut deps: Vec<String> = Vec::new();
                let ghost mut answers: Seq<Option<Seq<char>>> = Seq::empty();
                proof {
                    assert(deps@.map_values(|d: String| d@) =~= Bundler::some_answers(answers));
                }
                match &self.resolver {
                    Some(r) => {
                        let mut k: usize = 0;
                        while k < imports.len()
                            invariant
                                k <= imports@.len(),
                                answers.len() == k,
                                deps@.map_values(|d: String| d@) == Bundler::some_answers(
                                    answers,
                                ),
                            decreases imports@.len() - k,
                        {
                            match resolve_specifier(r, dir.as_str(), imports[k].as_str()) {
                                Some(res) => {
                                    let ghost oldans = answers;
                                    let ghost olddeps = deps@;
                                    let ghost resv = res@;
                                    deps.push(res);
                                    proof {
                                        answers = answers.push(Some(resv));
                                        assert(answers.drop_last() =~= oldans);
                                        assert(Bundler::some_answers(answers)
                                            == Bundler::some_answers(oldans) + seq![resv]);
                                        let oldmapped = olddeps.map_values(|d: String| d@);
                                        assert(oldmapped.len() == olddeps.len());
                                        assert(deps@.len() == olddeps.len() + 1);
                                        let newmapped = deps@.map_values(|d: String| d@);
                                        assert(newmapped.len() == deps@.len());
                                        assert forall|m: int|
                                            0 <= m < newmapped.len() implies newmapped[m]
                                            == (oldmapped + seq![resv])[m] by {
                                            assert(newmapped[m] == deps@[m]@);
                                            if m < olddeps.len() {
                                                assert(deps@[m] == olddeps[m]);
                                                assert(oldmapped[m] == olddeps[m]@);
                                            }
                                        }
                                        assert(newmapped =~= oldmapped + seq![resv]);
                                        assert(newmapped =~= Bundler::some_answers(answers));
                                    }
                                },
                                None => {
                                    proof {
                                        let ghost oldans = answers;
                                        answers = answers.push(None);
                                        assert(answers.drop_last() =~= oldans);
                                        assert(Bundler::some_answers(answers)
                                            =~= Bundler::some_answers(oldans));
                                    }
                                },
                            }
                            k = k + 1;
                        }
                    },
                    None => {
                        proof {
                            assert(false);
                        }
                    },
                }
                proof {
                    assert(impv.len() == spec_parse_imports(srcv).len());
                    assert(answers.len() == spec_parse_imports(srcv).len());
                }
                let ghost depsv = deps@.map_values(|d: String| d@);
                self.builder.provide_file(src, deps);
                proof {
                    assert(self.builder.top_frame_view() == Some((p@, srcv, depsv)));
                    assert(depsv == Bundler::some_answers(answers));
                }
            },
        }
    }

    /// The path of the outstanding `ReadFile` request, if any.
    pub closed spec fn pending_file_view(&self) -> Option<Seq<char>> {
        self.builder.pending_path()
    }

    /// Whether the run has ended.
    pub fn finished(&self) -> (r: bool)
        ensures
            r == (self.result_view() is Some),
    {
        self.outcome.is_some()
    }

    /// The bundle text, when the run ended successfully.
    pub fn bundle(&self) -> (r: Option<&String>)
        ensures
            match r {
                Some(b) => self.result_view() == Some(Ok::<Seq<char>, Seq<char>>(b@)),
                None => !(self.result_view() matches Some(Ok(_))),
            },
    {
        match &self.outcome {
            Some(Ok(b)) => Some(b),
            _ => None,
        }
    }

    /// The fatal error, when the run failed.
    pub fn error(&self) -> (r: Option<&BundleError>)
        ensures
            match r {
                Some(e) => self.result_view() == Some(
                    Err::<Seq<char>, Seq<char>>(e.message_view()),
                ),
                None => !(self.result_view() matches Some(Err(_))),
            },
    {
        match &self.outcome {
            Some(Err(e)) => Some(e),
            _ => None,
        }
    }

    /// The finished graph, for inspecting the recorded modules and the
    /// load order.
    pub fn graph(&self) -> (r: &GraphBuilder)
        ensures
            r == self.builder_view(),
    {
        &self.builder
    }

    /// The graph builder inside this session.
    pub closed spec fn builder_view(&self) -> &GraphBuilder {
        &self.builder
    }
}

} // verus!
