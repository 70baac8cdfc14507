//! The dependency graph: depth-first discovery with cycle tolerance and a
//! dependencies-first load order.
//!
//! The builder is a step machine: the caller owns the filesystem and feeds
//! it file contents on request, so the whole traversal logic is verified
//! here and can be driven without any real filesystem. Each module is
//! recorded exactly once, keyed by its canonical path; a dependency whose
//! file is already being visited (an import cycle) is skipped silently and
//! marked as cycle-deferred; every other recorded dependency is appended
//! to the load order before its dependent.

use vstd::prelude::*;

use crate::config::clone_string;

verus! {

/// One discovered module: its canonical path, raw source, and the
/// canonical paths of its resolved dependencies.
pub struct Module {
    pub path: String,
    pub source: String,
    pub deps: Vec<String>,
}

/// One frame of the explicit depth-first stack.
struct Frame {
    path: String,
    source: String,
    deps: Vec<String>,
    next: usize,
    deferred: Ghost<Set<int>>,
}

/// What the builder asks its driver to do next.
pub enum Step {
    /// Read the file at this canonical path and hand back its contents.
    NeedFile(String),
    /// Internal progress was made; call `advance` again.
    Progress,
    /// Every entry has been traversed.
    Done,
}

/// The dependency-graph builder. `modules` is both the module map and the
/// load order: modules appear in it in dependencies-first order.
pub struct GraphBuilder {
    pub modules: Vec<Module>,
    stack: Vec<Frame>,
    entries: Vec<String>,
    entry_idx: usize,
    pending: Option<String>,
    deferred: Ghost<Set<(int, int)>>,
}

impl GraphBuilder {
    /// The recorded modules, in load order.
    pub closed spec fn modules_seq(&self) -> Seq<Module> {
        self.modules@
    }

    /// The canonical paths of the recorded modules, in load order.
    pub closed spec fn module_paths(&self) -> Seq<Seq<char>> {
        self.modules@.map_values(|m: Module| m.path@)
    }

    /// The `k`-th recorded dependency of module `i`.
    pub closed spec fn module_dep(&self, i: int, k: int) -> Seq<char> {
        self.modules@[i].deps@[k]@
    }

    /// The canonical paths currently being visited: the open frames of
    /// the depth-first stack, bottom to top.
    pub closed spec fn visiting_paths(&self) -> Seq<Seq<char>> {
        self.stack@.map_values(|f: Frame| f.path@)
    }

    /// The entry paths the builder was created with.
    pub closed spec fn entries_view(&self) -> Seq<Seq<char>> {
        self.entries@.map_values(|e: String| e@)
    }

    /// The module currently on top of the traversal stack: its path, its
    /// source, and its recorded dependencies.
    pub closed spec fn top_frame_view(&self) -> Option<(Seq<char>, Seq<char>, Seq<Seq<char>>)> {
        if self.stack@.len() == 0 {
            None
        } else {
            let f = self.stack@.last();
            Some((f.path@, f.source@, f.deps@.map_values(|d: String| d@)))
        }
    }

    /// The path whose file contents the builder is waiting for.
    pub closed spec fn pending_path(&self) -> Option<Seq<char>> {
        match self.pending {
            Some(p) => Some(p@),
            None => None,
        }
    }

    /// Dependency `k` of module `i` was skipped as part of an import
    /// cycle: its file was still being visited when it was examined.
    pub closed spec fn cycle_deferred(&self, i: int, k: int) -> bool {
        self.deferred@.contains((i, k))
    }

    /// The traversal is finished: no open frames, no pending read, and
    /// every entry handled.
    pub closed spec fn complete(&self) -> bool {
        self.stack@.len() == 0 && self.pending is None && self.entry_idx == self.entries@.len()
    }

    /// Some path in the sequence equals `e`.
    pub open spec fn has_path(paths: Seq<Seq<char>>, e: Seq<char>) -> bool {
        exists|j: int| 0 <= j < paths.len() && paths[j] == e
    }

    spec fn frame_work(f: Frame) -> int {
        2 * (f.deps@.len() - f.next)
    }

    spec fn frames_work(fs: Seq<Frame>) -> int
        decreases fs.len(),
    {
        if fs.len() == 0 {
            0
        } else {
            GraphBuilder::frames_work(fs.drop_last()) + GraphBuilder::frame_work(fs.last())
        }
    }

    /// How much traversal work is left: open dependencies (each worth
    /// two steps: examine, then possibly finish the file), open frames
    /// (one pop each), and entries not yet handled. Every `Progress`
    /// step strictly decreases it; a file request leaves it unchanged;
    /// answering one adds the new frame's work.
    pub closed spec fn work_measure(&self) -> int {
        GraphBuilder::frames_work(self.stack@) + self.stack@.len() + (self.entries@.len()
            - self.entry_idx)
    }

    spec fn fdep_ok(
        spaths: Seq<Seq<char>>,
        mpaths: Seq<Seq<char>>,
        f: Frame,
        fi: int,
        k: int,
    ) -> bool {
        if f.deferred@.contains(k) {
            exists|sj: int| 0 <= sj <= fi && sj < spaths.len() && spaths[sj] == f.deps@[k]@
        } else {
            exists|j: int| 0 <= j < mpaths.len() && mpaths[j] == f.deps@[k]@
        }
    }

    spec fn frame_wf(spaths: Seq<Seq<char>>, mpaths: Seq<Seq<char>>, f: Frame, fi: int) -> bool {
        &&& f.next <= f.deps@.len()
        &&& forall|k: int| f.deferred@.contains(k) ==> 0 <= k < f.next
        &&& forall|k: int|
            0 <= k < f.next ==> #[trigger] GraphBuilder::fdep_ok(spaths, mpaths, f, fi, k)
    }

    spec fn mdep_ok(
        spaths: Seq<Seq<char>>,
        mpaths: Seq<Seq<char>>,
        deferred: Set<(int, int)>,
        d: Seq<char>,
        i: int,
        k: int,
    ) -> bool {
        if deferred.contains((i, k)) {
            (exists|sj: int| 0 <= sj < spaths.len() && spaths[sj] == d) || (exists|j: int|
                0 <= j < mpaths.len() && mpaths[j] == d)
        } else {
            exists|j: int| 0 <= j < i && j < mpaths.len() && mpaths[j] == d
        }
    }

    /// The builder's invariant.
    pub closed spec fn wf(&self) -> bool {
        &&& self.entry_idx <= self.entries@.len()
        &&& forall|k: int|
            0 <= k < self.entry_idx ==> #[trigger] GraphBuilder::has_path(
                self.module_paths(),
                self.entries_view()[k],
            )
        &&& forall|i: int, j: int|
            0 <= i < j < self.module_paths().len() ==> self.module_paths()[i]
                != self.module_paths()[j]
        &&& forall|i: int, j: int|
            0 <= i < j < self.visiting_paths().len() ==> self.visiting_paths()[i]
                != self.visiting_paths()[j]
        &&& forall|i: int, j: int|
            0 <= i < self.module_paths().len() && 0 <= j < self.visiting_paths().len()
                ==> self.module_paths()[i] != self.visiting_paths()[j]
        &&& (self.pending matches Some(p) ==> (forall|j: int|
            0 <= j < self.module_paths().len() ==> self.module_paths()[j] != p@) && (forall|
            j: int,
        |
            0 <= j < self.visiting_paths().len() ==> self.visiting_paths()[j] != p@))
        &&& forall|fi: int|
            0 <= fi < self.stack@.len() ==> GraphBuilder::frame_wf(
                self.visiting_paths(),
                self.module_paths(),
                #[trigger] self.stack@[fi],
                fi,
            )
        &&& forall|i: int, k: int|
            self.deferred@.contains((i, k)) ==> 0 <= i < self.modules@.len() && 0 <= k
                < self.modules@[i].deps@.len()
        &&& forall|i: int, k: int|
            0 <= i < self.modules@.len() && 0 <= k < self.modules@[i].deps@.len()
                ==> GraphBuilder::mdep_ok(
                self.visiting_paths(),
                self.module_paths(),
                self.deferred@,
                #[trigger] self.module_dep(i, k),
                i,
                k,
            )
    }

    /// A fresh builder for the given entry paths.
    pub fn new(entries: Vec<String>) -> (r: GraphBuilder)
        ensures
            r.wf(),
            r.modules_seq().len() == 0,
            r.pending_path() is None,
            r.complete() == (entries@.len() == 0),
            r.entries_view() == entries@.map_values(|e: String| e@),
            r.work_measure() == entries@.len(),
    {
        let r = GraphBuilder {
            modules: Vec::new(),
            stack: Vec::new(),
            entries,
            entry_idx: 0,
            pending: None,
            deferred: Ghost(Set::empty()),
        };
        proof {
            assert(r.module_paths() =~= Seq::<Seq<char>>::empty());
            assert(r.visiting_paths() =~= Seq::<Seq<char>>::empty());
            assert(GraphBuilder::frames_work(r.stack@) == 0);
        }
        r
    }

    /// The index of the module recorded for `p`, if any.
    fn module_index(&self, p: &String) -> (r: Option<usize>)
        ensures
            match r {
                Some(j) => 0 <= j < self.module_paths().len() && self.module_paths()[j as int]
                    == p@,
                None => forall|j: int|
                    0 <= j < self.module_paths().len() ==> self.module_paths()[j] != p@,
            },
    {
        let mut j: usize = 0;
        while j < self.modules.len()
            invariant
                j <= self.modules@.len(),
                forall|m: int| 0 <= m < j ==> self.module_paths()[m] != p@,
            decreases self.modules@.len() - j,
        {
            proof {
                assert(self.module_paths()[j as int] == self.modules@[j as int].path@);
            }
            if crate::config::compare_strings(&self.modules[j].path, p) {
                return Some(j);
            }
            j = j + 1;
        }
        None
    }

    /// Whether some open frame is visiting `p`.
    fn stack_has(&self, p: &String) -> (r: bool)
        ensures
            r == exists|sj: int|
                0 <= sj < self.visiting_paths().len() && self.visiting_paths()[sj] == p@,
    {
        let mut j: usize = 0;
        while j < self.stack.len()
            invariant
                j <= self.stack@.len(),
                forall|m: int| 0 <= m < j ==> self.visiting_paths()[m] != p@,
            decreases self.stack@.len() - j,
        {
            proof {
                assert(self.visiting_paths()[j as int] == self.stack@[j as int].path@);
            }
            if crate::config::compare_strings(&self.stack[j].path, p) {
                return true;
            }
            j = j + 1;
        }
        false
    }

    /// Re-establishes the invariant when only `pending` or `entry_idx`
    /// changed.
    proof fn lemma_unchanged_core(&self, o: GraphBuilder)
        requires
            o.wf(),
            self.modules@ == o.modules@,
            self.stack@ == o.stack@,
            self.deferred@ == o.deferred@,
            self.entries@ == o.entries@,
            self.entry_idx <= self.entries@.len(),
            forall|k: int|
                0 <= k < self.entry_idx ==> #[trigger] GraphBuilder::has_path(
                    o.module_paths(),
                    o.entries_view()[k],
                ),
            self.pending matches Some(p) ==> (forall|j: int|
                0 <= j < o.module_paths().len() ==> o.module_paths()[j] != p@) && (forall|j: int|
                0 <= j < o.visiting_paths().len() ==> o.visiting_paths()[j] != p@),
        ensures
            self.wf(),
    {
        assert(self.module_paths() =~= o.module_paths());
        assert(self.visiting_paths() =~= o.visiting_paths());
        assert(self.entries_view() =~= o.entries_view());
        assert forall|fi: int| 0 <= fi < self.stack@.len() implies GraphBuilder::frame_wf(
            self.visiting_paths(),
            self.module_paths(),
            #[trigger] self.stack@[fi],
            fi,
        ) by {
            assert(GraphBuilder::frame_wf(o.visiting_paths(), o.module_paths(), o.stack@[fi], fi));
        }
        assert forall|a: int, k: int|
            0 <= a < self.modules@.len() && 0 <= k < self.modules@[a].deps@.len()
            implies GraphBuilder::mdep_ok(
            self.visiting_paths(),
            self.module_paths(),
            self.deferred@,
            #[trigger] self.module_dep(a, k),
            a,
            k,
        ) by {
            assert(self.module_dep(a, k) == o.module_dep(a, k));
            assert(GraphBuilder::mdep_ok(
                o.visiting_paths(),
                o.module_paths(),
                o.deferred@,
                o.module_dep(a, k),
                a,
                k,
            ));
        }
    }

    /// The number of recorded modules.
    pub fn module_count(&self) -> (r: usize)
        ensures
            r == self.modules_seq().len(),
    {
        self.modules.len()
    }

    /// The recorded module at position `i` of the load order.
    pub fn module_at(&self, i: usize) -> (r: &Module)
        requires
            i < self.modules_seq().len(),
        ensures
            *r == self.modules_seq()[i as int],
    {
        &self.modules[i]
    }

    /// The path of the outstanding file request, if any.
    pub fn pending_file(&self) -> (r: Option<&String>)
        ensures
            match r {
                Some(p) => self.pending_path() == Some(p@),
                None => self.pending_path() is None,
            },
    {
        match &self.pending {
            Some(p) => Some(p),
            None => None,
        }
    }

    /// One step of the traversal. The caller must have answered any
    /// earlier file request before advancing again.
    pub fn advance(&mut self) -> (r: Step)
        requires
            old(self).wf(),
            old(self).pending_path() is None,
        ensures
            final(self).wf(),
            final(self).entries_view() == old(self).entries_view(),
            final(self).modules_seq().len() >= old(self).modules_seq().len(),
            forall|j: int|
                0 <= j < old(self).modules_seq().len() ==> final(self).modules_seq()[j]
                    == old(self).modules_seq()[j],
            match r {
                Step::NeedFile(p) => final(self).pending_path() == Some(p@)
                    && final(self).modules_seq() == old(self).modules_seq()
                    && final(self).work_measure() == old(self).work_measure()
                    && !GraphBuilder::has_path(final(self).module_paths(), p@)
                    && !GraphBuilder::has_path(final(self).visiting_paths(), p@),
                Step::Progress => final(self).pending_path() is None
                    && final(self).work_measure() < old(self).work_measure()
                    && final(self).modules_seq().len() <= old(self).modules_seq().len() + 1
                    && (final(self).modules_seq().len() == old(self).modules_seq().len() + 1
                    ==> ({
                    let m = final(self).modules_seq().last();
                    old(self).top_frame_view() == Some(
                        (m.path@, m.source@, m.deps@.map_values(|d: String| d@)),
                    )
                })),
                Step::Done => final(self).complete()
                    && final(self).modules_seq() == old(self).modules_seq()
                    && (forall|k: int|
                    0 <= k < final(self).entries_view().len()
                        ==> #[trigger] GraphBuilder::has_path(
                        final(self).module_paths(),
                        final(self).entries_view()[k],
                    )),
            },
    {
        let ghost old_self = *self;
        if self.stack.len() > 0 {
            let fi = self.stack.len() - 1;
            let fnext = self.stack[fi].next;
            if fnext < self.stack[fi].deps.len() {
                let dep = clone_string(&self.stack[fi].deps[fnext]);
                match self.module_index(&dep) {
                    Some(_) => {
                        let mut f = self.stack.pop().unwrap();
                        f.next = f.next + 1;
                        self.stack.push(f);
                        proof {
                            assert(self.stack@ =~= old_self.stack@.update(
                                fi as int,
                                self.stack@[fi as int],
                            ));
                            self.lemma_top_step(old_self, dep@);
                            assert(self.stack@.drop_last() =~= old_self.stack@.drop_last());
                            self.lemma_top_work(old_self);
                        }
                        Step::Progress
                    },
                    None => {
                        if self.stack_has(&dep) {
                            let mut f = self.stack.pop().unwrap();
                            proof {
                                assert(GraphBuilder::frame_wf(
                                    old_self.visiting_paths(),
                                    old_self.module_paths(),
                                    old_self.stack@[fi as int],
                                    fi as int,
                                ));
                                assert(!f.deferred@.contains(f.next as int));
                            }
                            let ghost def0 = f.deferred@;
                            let ghost next0 = f.next as int;
                            f.deferred = Ghost(f.deferred@.insert(f.next as int));
                            f.next = f.next + 1;
                            self.stack.push(f);
                            proof {
                                assert(self.stack@ =~= old_self.stack@.update(
                                    fi as int,
                                    self.stack@[fi as int],
                                ));
                                assert(def0.insert(next0).contains(next0));
                                assert(self.stack@[fi as int].deferred@ != def0);
                                self.lemma_top_step(old_self, dep@);
                                assert(self.stack@.drop_last() =~= old_self.stack@.drop_last());
                                self.lemma_top_work(old_self);
                            }
                            Step::Progress
                        } else {
                            self.pending = Some(clone_string(&dep));
                            proof {
                                self.lemma_unchanged_core(old_self);
                                assert(self.module_paths() =~= old_self.module_paths());
                                assert(self.visiting_paths() =~= old_self.visiting_paths());
                                assert(!GraphBuilder::has_path(self.module_paths(), dep@));
                                assert(!GraphBuilder::has_path(self.visiting_paths(), dep@));
                                assert(self.work_measure() == old_self.work_measure());
                            }
                            Step::NeedFile(dep)
                        }
                    },
                }
            } else {
                let f = self.stack.pop().unwrap();
                let ghost i = self.modules@.len() as int;
                let ghost fdef = f.deferred@;
                let ghost fview = (f.path@, f.source@, f.deps@.map_values(|d: String| d@));
                proof {
                    assert(old_self.top_frame_view() == Some(fview));
                }
                self.modules.push(Module { path: f.path, source: f.source, deps: f.deps });
                self.deferred = Ghost(
                    self.deferred@.union(
                        Set::new(|pr: (int, int)| pr.0 == i && fdef.contains(pr.1)),
                    ),
                );
                proof {
                    self.lemma_pop_step(old_self);
                    let m = self.modules_seq().last();
                    assert(m.path@ == fview.0 && m.source@ == fview.1 && m.deps@.map_values(
                        |d: String| d@,
                    ) =~= fview.2);
                    assert(GraphBuilder::frames_work(old_self.stack@) == GraphBuilder::frames_work(
                        old_self.stack@.drop_last(),
                    ) + GraphBuilder::frame_work(old_self.stack@.last()));
                    assert(GraphBuilder::frame_work(old_self.stack@.last()) == 0);
                    assert(self.work_measure() == old_self.work_measure() - 1);
                }
                Step::Progress
            }
        } else if self.entry_idx < self.entries.len() {
            let e = clone_string(&self.entries[self.entry_idx]);
            proof {
                assert(old_self.entries_view()[old_self.entry_idx as int]
                    == old_self.entries@[old_self.entry_idx as int]@);
            }
            match self.module_index(&e) {
                Some(_) => {
                    self.entry_idx = self.entry_idx + 1;
                    proof {
                        self.lemma_unchanged_core(old_self);
                        assert(self.work_measure() == old_self.work_measure() - 1);
                    }
                    Step::Progress
                },
                None => {
                    self.pending = Some(clone_string(&e));
                    proof {
                        assert(old_self.visiting_paths().len() == 0);
                        self.lemma_unchanged_core(old_self);
                        assert(self.module_paths() =~= old_self.module_paths());
                        assert(self.visiting_paths() =~= old_self.visiting_paths());
                        assert(!GraphBuilder::has_path(self.module_paths(), e@));
                        assert(self.visiting_paths().len() == 0);
                        assert(!GraphBuilder::has_path(self.visiting_paths(), e@));
                        assert(self.work_measure() == old_self.work_measure());
                    }
                    Step::NeedFile(e)
                },
            }
        } else {
            Step::Done
        }
    }

    /// The work measure after the top frame consumed one dependency:
    /// two steps fewer.
    proof fn lemma_top_work(&self, o: GraphBuilder)
        requires
            o.stack@.len() > 0,
            self.stack@.len() == o.stack@.len(),
            self.stack@.drop_last() == o.stack@.drop_last(),
            self.entries@ == o.entries@,
            self.entry_idx == o.entry_idx,
            self.stack@.last().deps == o.stack@.last().deps,
            self.stack@.last().next == o.stack@.last().next + 1,
        ensures
            self.work_measure() == o.work_measure() - 2,
    {
        assert(GraphBuilder::frames_work(self.stack@) == GraphBuilder::frames_work(
            self.stack@.drop_last(),
        ) + GraphBuilder::frame_work(self.stack@.last()));
        assert(GraphBuilder::frames_work(o.stack@) == GraphBuilder::frames_work(
            o.stack@.drop_last(),
        ) + GraphBuilder::frame_work(o.stack@.last()));
        assert(GraphBuilder::frame_work(self.stack@.last()) == GraphBuilder::frame_work(
            o.stack@.last(),
        ) - 2);
    }

    /// Re-establishes the invariant after the top frame consumed one
    /// dependency (already loaded, or marked cycle-deferred).
    proof fn lemma_top_step(&self, o: GraphBuilder, d: Seq<char>)
        requires
            o.wf(),
            o.pending is None,
            self.pending is None,
            o.stack@.len() > 0,
            self.stack@.len() == o.stack@.len(),
            self.modules@ == o.modules@,
            self.entries@ == o.entries@,
            self.entry_idx == o.entry_idx,
            self.deferred@ == o.deferred@,
            forall|fi: int| 0 <= fi < o.stack@.len() - 1 ==> self.stack@[fi] == o.stack@[fi],
            ({
                let fo = o.stack@[o.stack@.len() - 1];
                let fn_ = self.stack@[o.stack@.len() - 1];
                &&& fo.next < fo.deps@.len()
                &&& d == fo.deps@[fo.next as int]@
                &&& fn_.path == fo.path
                &&& fn_.source == fo.source
                &&& fn_.deps == fo.deps
                &&& fn_.next == fo.next + 1
                &&& (fn_.deferred@ == fo.deferred@ || fn_.deferred@ == fo.deferred@.insert(
                    fo.next as int,
                ))
                &&& (fn_.deferred@ == fo.deferred@ ==> exists|j: int|
                    0 <= j < o.module_paths().len() && o.module_paths()[j] == d)
                &&& (fn_.deferred@ != fo.deferred@ ==> exists|sj: int|
                    0 <= sj < o.visiting_paths().len() && o.visiting_paths()[sj] == d)
            }),
        ensures
            self.wf(),
    {
        let top = o.stack@.len() - 1;
        let fo = o.stack@[top];
        let fn_ = self.stack@[top];
        assert(self.visiting_paths() =~= o.visiting_paths());
        assert(self.module_paths() == o.module_paths());
        assert(self.entries_view() =~= o.entries_view());
        assert forall|a: int, k: int|
            0 <= a < self.modules@.len() && 0 <= k < self.modules@[a].deps@.len()
            implies GraphBuilder::mdep_ok(
            self.visiting_paths(),
            self.module_paths(),
            self.deferred@,
            #[trigger] self.module_dep(a, k),
            a,
            k,
        ) by {
            assert(self.module_dep(a, k) == o.module_dep(a, k));
            assert(GraphBuilder::mdep_ok(
                o.visiting_paths(),
                o.module_paths(),
                o.deferred@,
                o.module_dep(a, k),
                a,
                k,
            ));
        }
        assert forall|fi: int| 0 <= fi < self.stack@.len() implies GraphBuilder::frame_wf(
            self.visiting_paths(),
            self.module_paths(),
            #[trigger] self.stack@[fi],
            fi,
        ) by {
            assert(GraphBuilder::frame_wf(o.visiting_paths(), o.module_paths(), o.stack@[fi], fi));
            if fi == top {
                assert forall|k: int| 0 <= k < fn_.next implies #[trigger] GraphBuilder::fdep_ok(
                    self.visiting_paths(),
                    self.module_paths(),
                    fn_,
                    fi,
                    k,
                ) by {
                    if k < fo.next {
                        assert(GraphBuilder::fdep_ok(
                            o.visiting_paths(),
                            o.module_paths(),
                            fo,
                            fi,
                            k,
                        ));
                        assert(fn_.deferred@.contains(k) == fo.deferred@.contains(k));
                    } else {
                        assert(k == fo.next);
                        assert(fo.deps@[k]@ == d);
                        if fn_.deferred@ == fo.deferred@ {
                            assert(!fn_.deferred@.contains(k));
                        } else {
                            assert(fn_.deferred@.contains(k));
                            assert(fi == o.visiting_paths().len() - 1);
                        }
                    }
                }
            }
        }
    }

    /// Re-establishes the invariant after the finished top frame became a
    /// recorded module.
    proof fn lemma_pop_step(&self, o: GraphBuilder)
        requires
            o.wf(),
            o.pending is None,
            self.pending is None,
            o.stack@.len() > 0,
            self.stack@ == o.stack@.drop_last(),
            self.entries@ == o.entries@,
            self.entry_idx == o.entry_idx,
            ({
                let fo = o.stack@[o.stack@.len() - 1];
                &&& fo.next == fo.deps@.len()
                &&& self.modules@ == o.modules@.push(
                    Module { path: fo.path, source: fo.source, deps: fo.deps },
                )
                &&& self.deferred@ == o.deferred@.union(
                    Set::new(
                        |pr: (int, int)|
                            pr.0 == o.modules@.len() && fo.deferred@.contains(pr.1),
                    ),
                )
            }),
        ensures
            self.wf(),
    {
        let top = o.stack@.len() - 1;
        let fo = o.stack@[top];
        let i = o.modules@.len() as int;
        assert(self.visiting_paths() =~= o.visiting_paths().drop_last());
        assert(self.module_paths() =~= o.module_paths().push(fo.path@));
        assert(o.visiting_paths()[top] == fo.path@);
        assert(self.entries_view() =~= o.entries_view());
        assert forall|k: int| 0 <= k < self.entry_idx implies #[trigger] GraphBuilder::has_path(
            self.module_paths(),
            self.entries_view()[k],
        ) by {
            assert(GraphBuilder::has_path(o.module_paths(), o.entries_view()[k]));
            let j = choose|j: int|
                0 <= j < o.module_paths().len() && o.module_paths()[j] == o.entries_view()[k];
            assert(self.module_paths()[j] == self.entries_view()[k]);
        }
        // distinctness of the new module paths
        assert forall|a: int, b: int|
            0 <= a < b < self.module_paths().len() implies self.module_paths()[a]
            != self.module_paths()[b] by {
            if b == i {
                assert(self.module_paths()[a] == o.module_paths()[a]);
            }
        }
        // module paths disjoint from the remaining stack
        assert forall|a: int, b: int|
            0 <= a < self.module_paths().len() && 0 <= b < self.visiting_paths().len() implies self
            .module_paths()[a] != self.visiting_paths()[b] by {
            assert(self.visiting_paths()[b] == o.visiting_paths()[b]);
            if a < i {
                assert(self.module_paths()[a] == o.module_paths()[a]);
            } else {
                assert(self.module_paths()[a] == fo.path@);
            }
        }
        // remaining frames
        assert forall|fi: int| 0 <= fi < self.stack@.len() implies GraphBuilder::frame_wf(
            self.visiting_paths(),
            self.module_paths(),
            #[trigger] self.stack@[fi],
            fi,
        ) by {
            let f = self.stack@[fi];
            assert(f == o.stack@[fi]);
            assert(GraphBuilder::frame_wf(o.visiting_paths(), o.module_paths(), f, fi));
            assert forall|k: int| 0 <= k < f.next implies #[trigger] GraphBuilder::fdep_ok(
                self.visiting_paths(),
                self.module_paths(),
                f,
                fi,
                k,
            ) by {
                assert(GraphBuilder::fdep_ok(o.visiting_paths(), o.module_paths(), f, fi, k));
                if f.deferred@.contains(k) {
                    let sj = choose|sj: int|
                        0 <= sj <= fi && sj < o.visiting_paths().len() && o.visiting_paths()[sj]
                            == f.deps@[k]@;
                    assert(sj <= fi && fi < self.visiting_paths().len());
                    assert(self.visiting_paths()[sj] == f.deps@[k]@);
                } else {
                    let j = choose|j: int|
                        0 <= j < o.module_paths().len() && o.module_paths()[j] == f.deps@[k]@;
                    assert(self.module_paths()[j] == f.deps@[k]@);
                }
            }
        }
        // recorded-dependency facts
        assert forall|a: int, k: int|
            0 <= a < self.modules@.len() && 0 <= k < self.modules@[a].deps@.len()
            implies GraphBuilder::mdep_ok(
            self.visiting_paths(),
            self.module_paths(),
            self.deferred@,
            #[trigger] self.module_dep(a, k),
            a,
            k,
        ) by {
            let d = self.module_dep(a, k);
            if a < i {
                assert(self.modules@[a] == o.modules@[a]);
                assert(d == o.module_dep(a, k));
                assert(GraphBuilder::mdep_ok(
                    o.visiting_paths(),
                    o.module_paths(),
                    o.deferred@,
                    o.module_dep(a, k),
                    a,
                    k,
                ));
                assert(self.deferred@.contains((a, k)) == o.deferred@.contains((a, k)));
                if o.deferred@.contains((a, k)) {
                    if exists|sj: int|
                        0 <= sj < o.visiting_paths().len() && o.visiting_paths()[sj] == d {
                        let sj = choose|sj: int|
                            0 <= sj < o.visiting_paths().len() && o.visiting_paths()[sj] == d;
                        if sj < top {
                            assert(self.visiting_paths()[sj] == d);
                        } else {
                            assert(o.visiting_paths()[sj] == fo.path@);
                            assert(self.module_paths()[i] == d);
                        }
                    } else {
                        let j = choose|j: int|
                            0 <= j < o.module_paths().len() && o.module_paths()[j] == d;
                        assert(self.module_paths()[j] == d);
                    }
                } else {
                    let j = choose|j: int|
                        0 <= j < a && j < o.module_paths().len() && o.module_paths()[j] == d;
                    assert(self.module_paths()[j] == d);
                }
            } else {
                assert(a == i);
                assert(self.modules@[a].deps == fo.deps);
                assert(d == fo.deps@[k]@);
                assert(GraphBuilder::frame_wf(o.visiting_paths(), o.module_paths(), fo, top));
                assert(GraphBuilder::fdep_ok(o.visiting_paths(), o.module_paths(), fo, top, k));
                if fo.deferred@.contains(k) {
                    assert(self.deferred@.contains((a, k)));
                    let sj = choose|sj: int|
                        0 <= sj <= top && sj < o.visiting_paths().len() && o.visiting_paths()[sj]
                            == fo.deps@[k]@;
                    if sj < top {
                        assert(self.visiting_paths()[sj] == d);
                    } else {
                        assert(o.visiting_paths()[sj] == fo.path@);
                        assert(self.module_paths()[i] == d);
                    }
                } else {
                    assert(!self.deferred@.contains((a, k))) by {
                        if self.deferred@.contains((a, k)) {
                            assert(!o.deferred@.contains((a, k)));
                        }
                    }
                    let j = choose|j: int|
                        0 <= j < o.module_paths().len() && o.module_paths()[j] == fo.deps@[k]@;
                    assert(j < i);
                    assert(self.module_paths()[j] == d);
                }
            }
        }
    }

    /// Answers a pending file request: the file's contents and the
    /// canonical paths its import specifiers resolve to. A frame for the
    /// module is opened and its dependencies will be traversed next.
    pub fn provide_file(&mut self, source: String, deps: Vec<String>)
        requires
            old(self).wf(),
            old(self).pending_path() is Some,
        ensures
            final(self).wf(),
            final(self).pending_path() is None,
            final(self).modules_seq() == old(self).modules_seq(),
            final(self).entries_view() == old(self).entries_view(),
            final(self).top_frame_view() == Some(
                (
                    old(self).pending_path()->Some_0,
                    source@,
                    deps@.map_values(|d: String| d@),
                ),
            ),
            final(self).work_measure() == old(self).work_measure() + 1 + 2 * deps@.len(),
    {
        let ghost old_self = *self;
        let p = match &self.pending {
            Some(p) => clone_string(p),
            None => {
                proof {
                    assert(false);
                }
                String::new()
            },
        };
        self.pending = None;
        self.stack.push(
            Frame { path: p, source, deps, next: 0, deferred: Ghost(Set::empty()) },
        );
        proof {
            assert(self.stack@.last().deps@.map_values(|d: String| d@) =~= deps@.map_values(
                |d: String| d@,
            ));
            assert(self.entries_view() =~= old_self.entries_view());
            assert(self.stack@.drop_last() =~= old_self.stack@);
            assert(GraphBuilder::frames_work(self.stack@) == GraphBuilder::frames_work(
                self.stack@.drop_last(),
            ) + GraphBuilder::frame_work(self.stack@.last()));
            assert(GraphBuilder::frame_work(self.stack@.last()) == 2 * deps@.len());
            assert(self.work_measure() == old_self.work_measure() + 1 + 2 * deps@.len());
            let top = self.stack@.len() - 1;
            assert(self.visiting_paths() =~= old_self.visiting_paths().push(
                old_self.pending_path()->Some_0,
            ));
            assert(self.module_paths() == old_self.module_paths());
            assert forall|a: int, b: int|
                0 <= a < b < self.visiting_paths().len() implies self.visiting_paths()[a]
                != self.visiting_paths()[b] by {
                if b == top {
                    assert(self.visiting_paths()[a] == old_self.visiting_paths()[a]);
                }
            }
            assert forall|a: int, b: int|
                0 <= a < self.module_paths().len() && 0 <= b < self.visiting_paths().len()
                implies self.module_paths()[a] != self.visiting_paths()[b] by {
                if b < top {
                    assert(self.visiting_paths()[b] == old_self.visiting_paths()[b]);
                }
            }
            assert forall|fi: int| 0 <= fi < self.stack@.len() implies GraphBuilder::frame_wf(
                self.visiting_paths(),
                self.module_paths(),
                #[trigger] self.stack@[fi],
                fi,
            ) by {
                let f = self.stack@[fi];
                if fi < top {
                    assert(f == old_self.stack@[fi]);
                    assert(GraphBuilder::frame_wf(
                        old_self.visiting_paths(),
                        old_self.module_paths(),
                        f,
                        fi,
                    ));
                    assert forall|k: int| 0 <= k < f.next implies #[trigger] GraphBuilder::fdep_ok(
                        self.visiting_paths(),
                        self.module_paths(),
                        f,
                        fi,
                        k,
                    ) by {
                        assert(GraphBuilder::fdep_ok(
                            old_self.visiting_paths(),
                            old_self.module_paths(),
                            f,
                            fi,
                            k,
                        ));
                        if f.deferred@.contains(k) {
                            let sj = choose|sj: int|
                                0 <= sj <= fi && sj < old_self.visiting_paths().len()
                                    && old_self.visiting_paths()[sj] == f.deps@[k]@;
                            assert(self.visiting_paths()[sj] == f.deps@[k]@);
                        }
                    }
                } else {
                    assert(f.next == 0);
                }
            }
            assert forall|a: int, k: int|
                0 <= a < self.modules@.len() && 0 <= k < self.modules@[a].deps@.len()
                implies GraphBuilder::mdep_ok(
                self.visiting_paths(),
                self.module_paths(),
                self.deferred@,
                #[trigger] self.module_dep(a, k),
                a,
                k,
            ) by {
                let d = self.module_dep(a, k);
                assert(GraphBuilder::mdep_ok(
                    old_self.visiting_paths(),
                    old_self.module_paths(),
                    old_self.deferred@,
                    old_self.module_dep(a, k),
                    a,
                    k,
                ));
                if self.deferred@.contains((a, k)) && exists|sj: int|
                    0 <= sj < old_self.visiting_paths().len() && old_self.visiting_paths()[sj] == d {
                    let sj = choose|sj: int|
                        0 <= sj < old_self.visiting_paths().len() && old_self.visiting_paths()[sj] == d;
                    assert(self.visiting_paths()[sj] == d);
                }
            }
        }
    }

    /// Load-order invariant: in a completed, well-formed build, every
    /// recorded dependency that was not cycle-deferred appears strictly
    /// earlier in the load order than its dependent, and every recorded
    /// dependency is itself a recorded module.
    pub proof fn lemma_load_order(&self, i: int, k: int)
        requires
            self.wf(),
            self.complete(),
            0 <= i < self.modules_seq().len(),
            0 <= k < self.modules_seq()[i].deps@.len(),
        ensures
            !self.cycle_deferred(i, k) ==> exists|j: int|
                0 <= j < i && self.module_paths()[j] == self.module_dep(i, k),
            exists|j: int|
                0 <= j < self.module_paths().len() && self.module_paths()[j] == self.module_dep(
                    i,
                    k,
                ),
    {
        assert(GraphBuilder::mdep_ok(
            self.visiting_paths(),
            self.module_paths(),
            self.deferred@,
            self.module_dep(i, k),
            i,
            k,
        ));
        assert(self.visiting_paths() =~= Seq::<Seq<char>>::empty());
    }

    /// Singleton-per-file: a well-formed builder records one module per
    /// canonical path, so two different positions in the load order hold
    /// different paths.
    pub proof fn lemma_singleton_per_file(&self, i: int, j: int)
        requires
            self.wf(),
            0 <= i < j < self.modules_seq().len(),
        ensures
            self.module_paths()[i] != self.module_paths()[j],
    {
    }
}

} // verus!
