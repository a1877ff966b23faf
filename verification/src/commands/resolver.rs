//! Resolving the include dependencies of a script, depth first, as a state
//! machine: each step either asks for the text of a file or goes on with
//! what it has, so that reading files stays with the caller.
use vstd::prelude::*;

use crate::errors::BullRsError;
use super::includes::lines_of;
use super::script_loader::{directives, holds_text, with_entry, include_file, reports, texts, FileData, IncludeDirective, ScriptLoader};

verus! {

/// A file whose includes are being resolved: its data so far, its include
/// directives not yet handled (the next one last), and the included file
/// being resolved now, if any.
pub struct ResolveFrame {
    data: FileData,
    remaining: Vec<IncludeDirective>,
    current: Option<String>,
}

/// The state of a dependency resolution: the include stack (what the caller
/// handed in, then one entry per file being resolved), the files being
/// resolved (outermost first), the file whose text is awaited, and the cache
/// of resolved files.
pub struct ResolveState {
    stack: Vec<String>,
    base_len: usize,
    frames: Vec<ResolveFrame>,
    pending: Option<(String, bool)>,
    cache: Vec<(String, FileData)>,
}

/// What the caller is told to do next.
pub enum ResolveAction {
    /// Read the file at this path and hand its text back with `Contents`
    Read(String),
    /// Step again with `Proceed`
    Proceed,
    /// The file asked for is resolved
    Done(FileData),
    /// The resolution failed
    Failed(BullRsError),
}

/// What the caller hands to a step.
pub enum ResolveEvent {
    /// The text of the file last asked for
    Contents(String),
    /// Go on
    Proceed,
}

/// The index of the first cache entry for `path`, if any.
pub open spec fn cache_index(cache: Seq<(String, FileData)>, path: Seq<char>) -> Option<int> {
    if exists|i: int| 0 <= i < cache.len() && cache[i].0@ == path {
        Some(choose|i: int| 0 <= i < cache.len() && cache[i].0@ == path && forall|j: int| 0 <= j < i ==> cache[j].0@ != path)
    } else {
        None
    }
}

/// Finds the first cache entry for `path`.
fn find_cached(cache: &Vec<(String, FileData)>, path: &String) -> (r: Option<usize>)
    ensures
        r matches Some(i) ==> cache_index(cache@, path@) == Some(i as int) && i < cache@.len(),
        r is None ==> cache_index(cache@, path@) is None,
{
    let mut i: usize = 0;
    while i < cache.len()
        invariant
            i <= cache@.len(),
            forall|j: int| 0 <= j < i ==> cache@[j].0@ != path@,
        decreases cache@.len() - i,
    {
        if cache[i].0 == *path {
            let ghost w = choose|w: int| 0 <= w < cache@.len() && cache@[w].0@ == path@ && forall|j: int| 0 <= j < w ==> cache@[j].0@ != path@;
            assert(w == i as int) by {
                if w < i {
                    assert(cache@[w].0@ != path@);
                }
                if w > i {
                    assert(cache@[i as int].0@ != path@);
                }
            }
            return Some(i);
        }
        i = i + 1;
    }
    None
}

/// Whether the cache holds an entry for `path`.
pub open spec fn is_cached(cache: Seq<(String, FileData)>, path: Seq<char>) -> bool {
    exists|j: int| 0 <= j < cache.len() && cache[j].0@ == path
}

/// Whether every path of `deps` has an entry in the cache.
pub open spec fn deps_in_cache(cache: Seq<(String, FileData)>, deps: Seq<Seq<char>>) -> bool {
    forall|k: int| 0 <= k < deps.len() ==> is_cached(cache, #[trigger] deps[k])
}

/// Whether every dependency of every cached file has an entry in the cache.
pub open spec fn closed_cache(cache: Seq<(String, FileData)>) -> bool {
    forall|j: int| 0 <= j < cache.len() ==> deps_in_cache(cache, (#[trigger] cache[j]).1.dependency_list())
}

proof fn lemma_cached_kept(c1: Seq<(String, FileData)>, c2: Seq<(String, FileData)>, deps: Seq<Seq<char>>)
    requires
        c1.is_prefix_of(c2),
        deps_in_cache(c1, deps),
    ensures
        deps_in_cache(c2, deps),
{
    assert forall|k: int| 0 <= k < deps.len() implies is_cached(c2, #[trigger] deps[k]) by {
        assert(is_cached(c1, deps[k]));
        let j = choose|j: int| 0 <= j < c1.len() && c1[j].0@ == deps[k];
        assert(c2[j] == c1[j]);
    }
}

/// Whether a file with text `content` includes the file `target`: one of
/// its directive lines names a path that resolves to `target`.
pub open spec fn includes_path(
    mappings: Map<Seq<char>, Seq<char>>,
    root: Seq<char>,
    content: Seq<char>,
    target: Seq<char>,
) -> bool {
    exists|k: int|
        0 <= k < directives(lines_of(content)).len() && include_file(mappings, root, (#[trigger] directives(lines_of(content))[k]).1)
            == Ok::<Seq<char>, Seq<char>>(target)
}

/// Whether `d` is one of the directives of a file with text `content`, with
/// the resolution of its path.
pub open spec fn directive_of(
    mappings: Map<Seq<char>, Seq<char>>,
    root: Seq<char>,
    content: Seq<char>,
    d: IncludeDirective,
) -> bool {
    exists|k: int|
        0 <= k < directives(lines_of(content)).len() && d.path@ == (#[trigger] directives(lines_of(content))[k]).1
            && reports(d.resolved, include_file(mappings, root, d.path@))
}

/// A list kept with its next item last, in the order its items come.
pub open spec fn in_order(rem: Seq<IncludeDirective>) -> Seq<IncludeDirective> {
    Seq::new(rem.len(), |i: int| rem[rem.len() - 1 - i])
}

/// Whether two file data have the same path, text, includes, dependencies and kind.
pub open spec fn same_file(a: FileData, b: FileData) -> bool {
    &&& a.path_view() == b.path_view()
    &&& a.content_view() == b.content_view()
    &&& a.include_entries() == b.include_entries()
    &&& a.dependency_list() == b.dependency_list()
    &&& a.is_include_file() == b.is_include_file()
}

impl ResolveState {
    /// The stack and frames agree: above the part handed in, the stack holds
    /// the path of each file being resolved, then the awaited file; every
    /// frame but the innermost is resolving an included file.
    pub closed spec fn wf(&self) -> bool {
        let n = self.frames@.len();
        &&& self.stack@.len() == self.base_len + n + (if self.pending is Some { 1int } else { 0int })
        &&& forall|i: int| 0 <= i < n ==> (#[trigger] self.frames@[i]).data.path_view() == self.stack@[self.base_len + i]@
        &&& (self.pending matches Some(p) ==> p.0@ == self.stack@[self.stack@.len() - 1]@)
        &&& forall|i: int| 0 <= i < n - 1 ==> (#[trigger] self.frames@[i]).current is Some
        &&& forall|i: int|
            0 <= i < n && (#[trigger] self.frames@[i]).current is Some ==> self.frames@[i].current->0@
                == self.stack@[self.base_len + i + 1]@
        &&& (n > 0 ==> (self.frames@[n - 1].current is Some <==> self.pending is Some))
    }

    /// Every dependency of every cached file and of every file being
    /// resolved has an entry in the cache.
    pub closed spec fn deps_cached(&self) -> bool {
        &&& closed_cache(self.cache@)
        &&& forall|i: int|
            0 <= i < self.frames@.len() ==> deps_in_cache(self.cache@, (#[trigger] self.frames@[i]).data.dependency_list())
    }

    /// With path mappings `mappings` and root `root`: every directive not yet
    /// handled is one of its file's directives, and every file resolving an
    /// include is resolving a file that its text includes.
    pub closed spec fn follows_includes(&self, mappings: Map<Seq<char>, Seq<char>>, root: Seq<char>) -> bool {
        &&& forall|i: int, q: int|
            0 <= i < self.frames@.len() && 0 <= q < self.frames@[i].remaining@.len() ==> directive_of(
                mappings,
                root,
                self.frames@[i].data.content_view(),
                #[trigger] self.frames@[i].remaining@[q],
            )
        &&& forall|i: int|
            0 <= i < self.frames@.len() && (#[trigger] self.frames@[i]).current is Some ==> includes_path(
                mappings,
                root,
                self.frames@[i].data.content_view(),
                self.frames@[i].current->0@,
            )
    }

    /// Whether `path` is on the include stack.
    pub closed spec fn on_stack(&self, path: Seq<char>) -> bool {
        holds_text(self.stack@, path)
    }

    /// The include stack.
    pub closed spec fn stack_view(&self) -> Seq<Seq<char>> {
        texts(self.stack@)
    }

    /// The part of the include stack the caller handed in.
    pub closed spec fn base_stack(&self) -> Seq<Seq<char>> {
        texts(self.stack@).take(self.base_len as int)
    }

    /// The cache of resolved files, in the order they were added.
    pub closed spec fn cache_entries(&self) -> Seq<(String, FileData)> {
        self.cache@
    }

    /// The number of files being resolved.
    pub closed spec fn depth(&self) -> nat {
        self.frames@.len()
    }

    /// Whether the text of a file is awaited.
    pub closed spec fn awaiting(&self) -> bool {
        self.pending is Some
    }

    /// Whether the awaited file is read as an include (rather than as the
    /// file asked for).
    pub closed spec fn awaiting_include(&self) -> bool {
        match self.pending {
            Some(p) => p.1,
            None => false,
        }
    }

    /// File number `i` being resolved, outermost first.
    pub closed spec fn file_at(&self, i: int) -> FileData {
        self.frames@[i].data
    }

    /// The include directives of the innermost file not yet handled, in
    /// line order.
    pub closed spec fn top_directives(&self) -> Seq<IncludeDirective> {
        in_order(self.frames@[self.frames@.len() - 1].remaining@)
    }

    /// The innermost file being resolved.
    pub closed spec fn top_file(&self) -> FileData {
        self.frames@[self.frames@.len() - 1].data
    }

    /// The include the next `Proceed` step handles: the resolved path of the
    /// innermost file's next directive (or why it has none), when no text is
    /// awaited and that file is not resolving an include.
    pub closed spec fn next_include(&self) -> Option<Result<Seq<char>, ()>> {
        let n = self.frames@.len();
        if self.pending is None && n > 0 && self.frames@[n - 1].current is None
            && self.frames@[n - 1].remaining@.len() > 0 {
            let rem = self.frames@[n - 1].remaining@;
            match rem[rem.len() - 1].resolved {
                Ok(r) => Some(Ok(r@)),
                Err(_) => Some(Err(())),
            }
        } else {
            None
        }
    }

    /// Whether the next `Proceed` step finishes the innermost file: it has no
    /// directive left and is not resolving an include.
    pub closed spec fn finishing(&self) -> bool {
        let n = self.frames@.len();
        self.pending is None && n > 0 && self.frames@[n - 1].current is None
            && self.frames@[n - 1].remaining@.len() == 0
    }

    /// The file the next `Proceed` step enters: the resolved path of the
    /// innermost file's next directive, when it has one.
    pub open spec fn entering(&self) -> Option<Seq<char>> {
        match self.next_include() {
            Some(Ok(r)) => Some(r),
            _ => None,
        }
    }

    /// Hands back the include stack and the cache.
    pub fn into_parts(self) -> (parts: (Vec<String>, Vec<(String, FileData)>))
        ensures
            texts(parts.0@) == self.stack_view(),
            parts.1@ == self.cache_entries(),
    {
        (self.stack, self.cache)
    }
}

impl ScriptLoader {
    /// Starts resolving `file_path` with include stack `stack` and cache
    /// `cache`: a file on the stack is a circular include
    /// (`CircularReferenceError`); a cached file is done at once with its
    /// cached data; any other file is pushed on the stack and its text asked for.
    pub fn start_resolution(
        &self,
        file_path: &str,
        is_include: bool,
        stack: Vec<String>,
        cache: Vec<(String, FileData)>,
    ) -> (r: (ResolveState, ResolveAction))
        ensures
            r.0.wf(),
            r.0.cache_entries() == cache@,
            closed_cache(cache@) ==> r.0.deps_cached(),
            r.0.follows_includes(self.mappings(), self.root()),
            (closed_cache(cache@) && r.1 is Done) ==> deps_in_cache(cache@, r.1->Done_0.dependency_list()),
            r.0.base_stack() == texts(stack@),
            holds_text(stack@, file_path@) ==> (r.1 matches ResolveAction::Failed(e) && e matches BullRsError::CircularReferenceError(p) && p@ == file_path@ && r.0.stack_view() == texts(stack@)),
            (!holds_text(stack@, file_path@) && cache_index(cache@, file_path@) is Some) ==> (r.1 matches ResolveAction::Done(d) && same_file(d, cache@[cache_index(cache@, file_path@)->0].1) && r.0.stack_view() == texts(stack@)),
            !holds_text(stack@, file_path@) && cache_index(cache@, file_path@) is None ==> (r.1 matches ResolveAction::Read(p) && p@ == file_path@ && r.0.stack_view() == texts(stack@).push(file_path@) && r.0.awaiting() && r.0.awaiting_include() == is_include && r.0.depth() == 0),
    {
        let mut stack = stack;
        let base_len = stack.len();
        let path = file_path.to_owned();
        let ghost s0 = texts(stack@);
        assert(s0.take(base_len as int) =~= s0);
        if super::script_loader::contains_text(&stack, &path) {
            let st = ResolveState { stack, base_len, frames: Vec::new(), pending: None, cache };
            return (st, ResolveAction::Failed(BullRsError::CircularReferenceError(path)));
        }
        match find_cached(&cache, &path) {
            Some(i) => {
                let d = cache[i].1.clone();
                let st = ResolveState { stack, base_len, frames: Vec::new(), pending: None, cache };
                (st, ResolveAction::Done(d))
            },
            None => {
                stack.push(path.clone());
                assert(texts(stack@) =~= s0.push(file_path@));
                assert(texts(stack@).take(base_len as int) =~= s0);
                let st = ResolveState { stack, base_len, frames: Vec::new(), pending: Some((path.clone(), is_include)), cache };
                (st, ResolveAction::Read(path))
            },
        }
    }
}

/// The dependencies a file gets from including `path`, whose own
/// dependencies are `deps`: the path, then those dependencies.
pub open spec fn with_include(file: FileData, path: Seq<char>, deps: Seq<Seq<char>>) -> Seq<Seq<char>> {
    file.dependency_list().push(path) + deps
}

impl ScriptLoader {
    /// One step of a dependency resolution.
    ///
    /// - `Contents(text)` for the awaited file starts resolving it: its
    ///   include directives are found and handled in order, one per `Proceed`.
    /// - On `Proceed`, the next directive of the innermost file is recorded
    ///   and the file it names entered: a file already on the include stack
    ///   fails with `CircularReferenceError` and leaves the stack as it was; a
    ///   cached file adds itself and its cached dependencies to the innermost
    ///   file's dependencies; any other file is pushed on the stack and read.
    ///   A directive whose path does not resolve fails with its error.
    /// - When the innermost file has no directive left it is added to the
    ///   cache and popped from the stack; it is the result when it was the
    ///   file asked for, else the file that includes it takes it and its
    ///   dependencies as dependencies.
    /// - Any other event fails with `GeneralError` and changes nothing.
    ///
    /// Cached entries are never changed or removed, and the part of the
    /// stack the caller handed in is never touched.
    pub fn resolve_step(&self, state: &mut ResolveState, event: ResolveEvent) -> (action: ResolveAction)
        requires
            old(state).wf(),
        ensures
            final(state).wf(),
            final(state).base_stack() == old(state).base_stack(),
            old(state).deps_cached() ==> final(state).deps_cached(),
            old(state).follows_includes(self.mappings(), self.root()) ==> final(state).follows_includes(
                self.mappings(),
                self.root(),
            ),
            (event is Proceed && old(state).entering() is Some) ==> (final(state).depth() == old(state).depth()
                && final(state).top_file().include_entries() == with_entry(
                old(state).top_file().include_entries(),
                old(state).top_directives()[0].position,
                old(state).top_directives()[0].path@,
            )),
            old(state).cache_entries().is_prefix_of(final(state).cache_entries()),
            (event is Proceed && old(state).entering() is Some && old(state).on_stack(old(state).entering()->0))
                ==> (action matches ResolveAction::Failed(e) && e matches BullRsError::CircularReferenceError(p) && p@
                == old(state).entering()->0 && final(state).stack_view() == old(state).stack_view()),
            (event is Proceed && old(state).entering() is Some && !old(state).on_stack(old(state).entering()->0)
                && cache_index(old(state).cache_entries(), old(state).entering()->0) is Some) ==> ({
                let k = cache_index(old(state).cache_entries(), old(state).entering()->0)->0;
                &&& action is Proceed
                &&& final(state).stack_view() == old(state).stack_view()
                &&& final(state).cache_entries() == old(state).cache_entries()
                &&& final(state).depth() == old(state).depth()
                &&& final(state).top_directives() == old(state).top_directives().skip(1)
                &&& final(state).top_file().dependency_list() == with_include(
                    old(state).top_file(),
                    old(state).entering()->0,
                    old(state).cache_entries()[k].1.dependency_list(),
                )
            }),
            (event is Proceed && old(state).entering() is Some && !old(state).on_stack(old(state).entering()->0)
                && cache_index(old(state).cache_entries(), old(state).entering()->0) is None) ==> (action matches ResolveAction::Read(p)
                && p@ == old(state).entering()->0 && final(state).stack_view() == old(state).stack_view().push(p@)
                && final(state).awaiting() && final(state).awaiting_include()),
            (event is Proceed && old(state).next_include() == Some(Err::<Seq<char>, ()>(()))) ==> action is Failed,
            (event is Proceed && old(state).finishing()) ==> ({
                &&& final(state).cache_entries().len() == old(state).cache_entries().len() + 1
                &&& same_file(final(state).cache_entries().last().1, old(state).top_file())
                &&& final(state).cache_entries().last().0@ == old(state).top_file().path_view()
                &&& final(state).stack_view() == old(state).stack_view().drop_last()
                &&& final(state).depth() + 1 == old(state).depth()
                &&& (old(state).depth() == 1 ==> (action matches ResolveAction::Done(d) && same_file(
                    d,
                    old(state).top_file(),
                ) && final(state).stack_view() == final(state).base_stack()))
                &&& (old(state).depth() > 1 ==> action is Proceed)
                &&& (old(state).depth() == 1 && old(state).deps_cached() ==> (action matches ResolveAction::Done(d)
                    && deps_in_cache(final(state).cache_entries(), d.dependency_list())))
                &&& (old(state).depth() > 1 ==> final(state).top_file().dependency_list() == with_include(
                    old(state).file_at(old(state).depth() - 2),
                    old(state).top_file().path_view(),
                    old(state).top_file().dependency_list(),
                ))
                &&& (old(state).depth() > 1 ==> final(state).top_file().path_view() == old(state).file_at(
                    old(state).depth() - 2,
                ).path_view())
            }),
            (event is Contents && old(state).awaiting()) ==> ({
                &&& action is Proceed
                &&& final(state).stack_view() == old(state).stack_view()
                &&& final(state).depth() == old(state).depth() + 1
                &&& !final(state).awaiting()
                &&& final(state).top_file().path_view() == old(state).stack_view().last()
                &&& final(state).top_file().content_view() == event->0@
                &&& final(state).top_file().is_include_file() == old(state).awaiting_include()
                &&& self.scan_of(event->0@, final(state).top_directives())
                &&& final(state).top_file().dependency_list() == Seq::<Seq<char>>::empty()
            }),
            (event is Contents && !old(state).awaiting()) ==> (action matches ResolveAction::Failed(e) && e is GeneralError),
    {
        match event {
            ResolveEvent::Contents(c) => self.take_contents(state, c),
            ResolveEvent::Proceed => self.proceed(state),
        }
    }
}

impl ScriptLoader {
    /// Starts resolving the awaited file, whose text is `c`.
    fn take_contents(&self, state: &mut ResolveState, c: String) -> (action: ResolveAction)
        requires
            old(state).wf(),
        ensures
            final(state).wf(),
            final(state).base_stack() == old(state).base_stack(),
            old(state).deps_cached() ==> final(state).deps_cached(),
            old(state).follows_includes(self.mappings(), self.root()) ==> final(state).follows_includes(
                self.mappings(),
                self.root(),
            ),
            final(state).cache_entries() == old(state).cache_entries(),
            old(state).awaiting() ==> ({
                &&& action is Proceed
                &&& final(state).stack_view() == old(state).stack_view()
                &&& final(state).depth() == old(state).depth() + 1
                &&& !final(state).awaiting()
                &&& final(state).top_file().path_view() == old(state).stack_view().last()
                &&& final(state).top_file().content_view() == c@
                &&& final(state).top_file().dependency_list() == Seq::<Seq<char>>::empty()
                &&& final(state).top_file().is_include_file() == old(state).awaiting_include()
                &&& self.scan_of(c@, final(state).top_directives())
            }),
            !old(state).awaiting() ==> (action matches ResolveAction::Failed(e) && e is GeneralError),
    {
        let mut pend: Option<(String, bool)> = None;
        std::mem::swap(&mut pend, &mut state.pending);
        match pend {
            None => {
                ResolveAction::Failed(BullRsError::GeneralError("no file text is awaited".to_string()))
            },
            Some((path, inc)) => {
                let ghost old_frames = state.frames@;
                let data = FileData::new(path, c, inc);
                let mut found = self.scan_includes(data.content().as_str());
                let ghost scanned = found@;
                let mut remaining: Vec<IncludeDirective> = Vec::new();
                while found.len() > 0
                    invariant
                        found@.len() + remaining@.len() == scanned.len(),
                        found@ == scanned.take(found@.len() as int),
                        forall|k: int| 0 <= k < remaining@.len() ==> remaining@[k] == scanned[scanned.len() - 1 - k],
                    decreases found@.len(),
                {
                    let ghost before = found@;
                    match found.pop() {
                        Some(d) => {
                            assert(d == scanned[found@.len() as int]);
                            remaining.push(d);
                            assert(found@ =~= scanned.take(found@.len() as int));
                        },
                        None => {},
                    }
                }
                assert(in_order(remaining@) =~= scanned);
                state.frames.push(ResolveFrame { data, remaining, current: None });
                proof {
                    let n = old_frames.len();
                    assert(state.frames@.len() == n + 1);
                    assert forall|i: int| 0 <= i < n + 1 implies (#[trigger] state.frames@[i]).data.path_view()
                        == state.stack@[state.base_len + i]@ by {
                        if i < n {
                            assert(state.frames@[i] == old_frames[i]);
                        }
                    }
                    assert forall|i: int| 0 <= i < n implies (#[trigger] state.frames@[i]).current is Some by {
                        assert(state.frames@[i] == old_frames[i]);
                    }
                    assert(texts(state.stack@).last() == state.stack@[state.stack@.len() - 1]@);
                    let m = self.mappings();
                    let rt = self.root();
                    if old(state).follows_includes(m, rt) {
                        let content = state.frames@[n as int].data.content_view();
                        let rem = state.frames@[n as int].remaining@;
                        assert forall|i: int, q: int|
                            0 <= i < n + 1 && 0 <= q < state.frames@[i].remaining@.len() implies directive_of(
                            m,
                            rt,
                            state.frames@[i].data.content_view(),
                            #[trigger] state.frames@[i].remaining@[q],
                        ) by {
                            if i < n {
                                assert(state.frames@[i] == old_frames[i]);
                            } else {
                                let k = scanned.len() - 1 - q;
                                assert(rem[q] == scanned[k]);
                                let (line, p) = directives(lines_of(content))[k];
                                assert(scanned[k].path@ == p);
                            }
                        }
                        assert forall|i: int|
                            0 <= i < n + 1 && (#[trigger] state.frames@[i]).current is Some implies includes_path(
                            m,
                            rt,
                            state.frames@[i].data.content_view(),
                            state.frames@[i].current->0@,
                        ) by {
                            assert(state.frames@[i] == old_frames[i]);
                        }
                    }
                }
                ResolveAction::Proceed
            },
        }
    }

    /// Handles the next directive of the innermost file, or finishes it.
    fn proceed(&self, state: &mut ResolveState) -> (action: ResolveAction)
        requires
            old(state).wf(),
        ensures
            final(state).wf(),
            final(state).base_stack() == old(state).base_stack(),
            old(state).deps_cached() ==> final(state).deps_cached(),
            old(state).follows_includes(self.mappings(), self.root()) ==> final(state).follows_includes(
                self.mappings(),
                self.root(),
            ),
            old(state).entering() is Some ==> (final(state).depth() == old(state).depth()
                && final(state).top_file().include_entries() == with_entry(
                old(state).top_file().include_entries(),
                old(state).top_directives()[0].position,
                old(state).top_directives()[0].path@,
            )),
            old(state).cache_entries().is_prefix_of(final(state).cache_entries()),
            (old(state).entering() is Some && old(state).on_stack(old(state).entering()->0))
                ==> (action matches ResolveAction::Failed(e) && e matches BullRsError::CircularReferenceError(p) && p@
                == old(state).entering()->0 && final(state).stack_view() == old(state).stack_view()),
            (old(state).entering() is Some && !old(state).on_stack(old(state).entering()->0)
                && cache_index(old(state).cache_entries(), old(state).entering()->0) is Some) ==> ({
                let k = cache_index(old(state).cache_entries(), old(state).entering()->0)->0;
                &&& action is Proceed
                &&& final(state).stack_view() == old(state).stack_view()
                &&& final(state).cache_entries() == old(state).cache_entries()
                &&& final(state).depth() == old(state).depth()
                &&& final(state).top_directives() == old(state).top_directives().skip(1)
                &&& final(state).top_file().dependency_list() == with_include(
                    old(state).top_file(),
                    old(state).entering()->0,
                    old(state).cache_entries()[k].1.dependency_list(),
                )
            }),
            (old(state).entering() is Some && !old(state).on_stack(old(state).entering()->0)
                && cache_index(old(state).cache_entries(), old(state).entering()->0) is None) ==> (action matches ResolveAction::Read(p)
                && p@ == old(state).entering()->0 && final(state).stack_view() == old(state).stack_view().push(p@)
                && final(state).awaiting() && final(state).awaiting_include()),
            (old(state).next_include() == Some(Err::<Seq<char>, ()>(()))) ==> action is Failed,
            (old(state).finishing()) ==> ({
                &&& final(state).cache_entries().len() == old(state).cache_entries().len() + 1
                &&& same_file(final(state).cache_entries().last().1, old(state).top_file())
                &&& final(state).cache_entries().last().0@ == old(state).top_file().path_view()
                &&& final(state).stack_view() == old(state).stack_view().drop_last()
                &&& final(state).depth() + 1 == old(state).depth()
                &&& (old(state).depth() == 1 ==> (action matches ResolveAction::Done(d) && same_file(
                    d,
                    old(state).top_file(),
                ) && final(state).stack_view() == final(state).base_stack()))
                &&& (old(state).depth() > 1 ==> action is Proceed)
                &&& (old(state).depth() == 1 && old(state).deps_cached() ==> (action matches ResolveAction::Done(d)
                    && deps_in_cache(final(state).cache_entries(), d.dependency_list())))
                &&& (old(state).depth() > 1 ==> final(state).top_file().dependency_list() == with_include(
                    old(state).file_at(old(state).depth() - 2),
                    old(state).top_file().path_view(),
                    old(state).top_file().dependency_list(),
                ))
                &&& (old(state).depth() > 1 ==> final(state).top_file().path_view() == old(state).file_at(
                    old(state).depth() - 2,
                ).path_view())
            }),
    {
        let n = state.frames.len();
        if state.pending.is_some() {
            return ResolveAction::Failed(BullRsError::GeneralError("a file text is awaited".to_string()));
        }
        if n == 0 {
            return ResolveAction::Failed(BullRsError::GeneralError("no file is being resolved".to_string()));
        }
        if state.frames[n - 1].current.is_some() {
            return ResolveAction::Failed(BullRsError::GeneralError("an include is being resolved".to_string()));
        }
        assert(old(state).cache_entries().is_prefix_of(old(state).cache_entries())) by {
            assert(old(state).cache_entries().take(old(state).cache_entries().len() as int) =~= old(state).cache_entries());
        }
        if state.frames[n - 1].remaining.len() == 0 {
            self.finish_file(state)
        } else {
            self.next_directive(state)
        }
    }

    /// Finishes the innermost file: caches it and pops it from the stack.
    fn finish_file(&self, state: &mut ResolveState) -> (action: ResolveAction)
        requires
            old(state).wf(),
            old(state).finishing(),
        ensures
            final(state).wf(),
            final(state).base_stack() == old(state).base_stack(),
            old(state).deps_cached() ==> final(state).deps_cached(),
            old(state).follows_includes(self.mappings(), self.root()) ==> final(state).follows_includes(
                self.mappings(),
                self.root(),
            ),
            old(state).cache_entries().is_prefix_of(final(state).cache_entries()),
            ({
                &&& final(state).cache_entries().len() == old(state).cache_entries().len() + 1
                &&& same_file(final(state).cache_entries().last().1, old(state).top_file())
                &&& final(state).cache_entries().last().0@ == old(state).top_file().path_view()
                &&& final(state).stack_view() == old(state).stack_view().drop_last()
                &&& final(state).depth() + 1 == old(state).depth()
                &&& (old(state).depth() == 1 ==> (action matches ResolveAction::Done(d) && same_file(
                    d,
                    old(state).top_file(),
                ) && final(state).stack_view() == final(state).base_stack()))
                &&& (old(state).depth() > 1 ==> action is Proceed)
                &&& (old(state).depth() == 1 && old(state).deps_cached() ==> (action matches ResolveAction::Done(d)
                    && deps_in_cache(final(state).cache_entries(), d.dependency_list())))
                &&& (old(state).depth() > 1 ==> final(state).top_file().dependency_list() == with_include(
                    old(state).file_at(old(state).depth() - 2),
                    old(state).top_file().path_view(),
                    old(state).top_file().dependency_list(),
                ))
                &&& (old(state).depth() > 1 ==> final(state).top_file().path_view() == old(state).file_at(
                    old(state).depth() - 2,
                ).path_view())
            }),
    {
        let ghost of = state.frames@;
        let ghost os = state.stack@;
        let ghost oc = state.cache@;
        let n = state.frames.len();
        let top = match state.frames.pop() {
            Some(f) => f,
            None => {
                return ResolveAction::Proceed;
            },
        };
        let ResolveFrame { data, remaining: _, current: _ } = top;
        let path = data.path().clone();
        let copy = data.clone();
        state.cache.push((path, copy));
        state.stack.pop();
        proof {
            assert(oc.is_prefix_of(state.cache@)) by {
                assert(state.cache@.take(oc.len() as int) =~= oc);
            }
            assert(texts(state.stack@) =~= texts(os).drop_last());
            assert(texts(state.stack@).take(state.base_len as int) =~= texts(os).take(state.base_len as int));
            assert forall|i: int| 0 <= i < n - 1 implies (#[trigger] state.frames@[i]).data.path_view()
                == state.stack@[state.base_len + i]@ by {
                assert(state.frames@[i] == of[i]);
                assert(of[i].data.path_view() == os[state.base_len + i]@);
            }
            if old(state).deps_cached() {
                let c = state.cache@;
                assert(deps_in_cache(oc, of[n - 1].data.dependency_list()));
                lemma_cached_kept(oc, c, data.dependency_list());
                assert forall|j: int| 0 <= j < c.len() implies deps_in_cache(c, (#[trigger] c[j]).1.dependency_list()) by {
                    if j < oc.len() {
                        assert(c[j] == oc[j]);
                        assert(deps_in_cache(oc, oc[j].1.dependency_list()));
                        lemma_cached_kept(oc, c, oc[j].1.dependency_list());
                    }
                }
                assert forall|i: int| 0 <= i < n - 1 implies deps_in_cache(c, (#[trigger] state.frames@[i]).data.dependency_list()) by {
                    assert(state.frames@[i] == of[i]);
                    assert(deps_in_cache(oc, of[i].data.dependency_list()));
                    lemma_cached_kept(oc, c, of[i].data.dependency_list());
                }
                assert(is_cached(c, data.path_view())) by {
                    assert(c[c.len() - 1].0@ == data.path_view());
                }
            }
        }
        if n == 1 {
            assert(texts(state.stack@) =~= texts(state.stack@).take(state.base_len as int));
            return ResolveAction::Done(data);
        }
        let parent = match state.frames.pop() {
            Some(f) => f,
            None => {
                return ResolveAction::Proceed;
            },
        };
        assert(parent == of[n - 2]);
        let ResolveFrame { data: mut pdata, remaining: prem, current: pcur } = parent;
        match pcur {
            Some(r) => {
                pdata.add_dependency(r, data.dependencies());
                state.frames.push(ResolveFrame { data: pdata, remaining: prem, current: None });
                proof {
                    assert forall|i: int| 0 <= i < n - 1 implies (#[trigger] state.frames@[i]).data.path_view()
                        == state.stack@[state.base_len + i]@ by {
                        if i < n - 2 {
                            assert(state.frames@[i] == of[i]);
                        }
                        assert(of[i].data.path_view() == os[state.base_len + i]@);
                    }
                    assert forall|i: int| 0 <= i < n - 2 implies (#[trigger] state.frames@[i]).current is Some by {
                        assert(state.frames@[i] == of[i]);
                    }
                    if old(state).deps_cached() {
                        let c = state.cache@;
                        let pd = of[n - 2].data.dependency_list();
                        let nd = state.frames@[n - 2].data.dependency_list();
                        assert(deps_in_cache(oc, pd));
                        lemma_cached_kept(oc, c, pd);
                        assert forall|k: int| 0 <= k < nd.len() implies is_cached(c, #[trigger] nd[k]) by {
                            if k < pd.len() {
                                assert(nd[k] == pd[k]);
                            } else if k == pd.len() {
                                assert(nd[k] == data.path_view());
                            } else {
                                assert(nd[k] == data.dependency_list()[k - pd.len() - 1]);
                            }
                        }
                        assert forall|i: int| 0 <= i < n - 1 implies deps_in_cache(c, (#[trigger] state.frames@[i]).data.dependency_list()) by {
                            if i < n - 2 {
                                assert(state.frames@[i] == of[i]);
                                assert(deps_in_cache(oc, of[i].data.dependency_list()));
                                lemma_cached_kept(oc, c, of[i].data.dependency_list());
                            }
                        }
                    }
                }
                ResolveAction::Proceed
            },
            None => {
                assert(of[n - 2].current is Some);
                ResolveAction::Proceed
            },
        }
    }

    /// Records the innermost file's next directive and enters the file it names.
    fn next_directive(&self, state: &mut ResolveState) -> (action: ResolveAction)
        requires
            old(state).wf(),
            old(state).next_include() is Some,
        ensures
            final(state).wf(),
            final(state).base_stack() == old(state).base_stack(),
            old(state).deps_cached() ==> final(state).deps_cached(),
            old(state).follows_includes(self.mappings(), self.root()) ==> final(state).follows_includes(
                self.mappings(),
                self.root(),
            ),
            old(state).entering() is Some ==> (final(state).depth() == old(state).depth()
                && final(state).top_file().include_entries() == with_entry(
                old(state).top_file().include_entries(),
                old(state).top_directives()[0].position,
                old(state).top_directives()[0].path@,
            )),
            final(state).cache_entries() == old(state).cache_entries(),
            (old(state).entering() is Some && old(state).on_stack(old(state).entering()->0))
                ==> (action matches ResolveAction::Failed(e) && e matches BullRsError::CircularReferenceError(p) && p@
                == old(state).entering()->0 && final(state).stack_view() == old(state).stack_view()),
            (old(state).entering() is Some && !old(state).on_stack(old(state).entering()->0)
                && cache_index(old(state).cache_entries(), old(state).entering()->0) is Some) ==> ({
                let k = cache_index(old(state).cache_entries(), old(state).entering()->0)->0;
                &&& action is Proceed
                &&& final(state).stack_view() == old(state).stack_view()
                &&& final(state).cache_entries() == old(state).cache_entries()
                &&& final(state).depth() == old(state).depth()
                &&& final(state).top_directives() == old(state).top_directives().skip(1)
                &&& final(state).top_file().dependency_list() == with_include(
                    old(state).top_file(),
                    old(state).entering()->0,
                    old(state).cache_entries()[k].1.dependency_list(),
                )
            }),
            (old(state).entering() is Some && !old(state).on_stack(old(state).entering()->0)
                && cache_index(old(state).cache_entries(), old(state).entering()->0) is None) ==> (action matches ResolveAction::Read(p)
                && p@ == old(state).entering()->0 && final(state).stack_view() == old(state).stack_view().push(p@)
                && final(state).awaiting() && final(state).awaiting_include()),
            (old(state).next_include() == Some(Err::<Seq<char>, ()>(()))) ==> action is Failed,
    {
        let ghost of = state.frames@;
        let ghost os = state.stack@;
        let n = state.frames.len();
        let top = match state.frames.pop() {
            Some(f) => f,
            None => {
                return ResolveAction::Proceed;
            },
        };
        assert(top == of[n - 1]);
        let ResolveFrame { mut data, mut remaining, current: _ } = top;
        let d = match remaining.pop() {
            Some(d) => d,
            None => {
                return ResolveAction::Proceed;
            },
        };
        let IncludeDirective { position, path: dpath, resolved } = d;
        match resolved {
            Err(e) => {
                state.frames.push(ResolveFrame { data, remaining, current: None });
                proof {
                    lemma_frames_kept(of, state.frames@);
                }
                ResolveAction::Failed(e)
            },
            Ok(r) => {
                data.record_include(position, dpath);
                if super::script_loader::contains_text(&state.stack, &r) {
                    state.frames.push(ResolveFrame { data, remaining, current: None });
                    proof {
                        lemma_frames_kept(of, state.frames@);
                    }
                    return ResolveAction::Failed(BullRsError::CircularReferenceError(r));
                }
                match find_cached(&state.cache, &r) {
                    Some(k) => {
                        data.add_dependency(r, state.cache[k].1.dependencies());
                        state.frames.push(ResolveFrame { data, remaining, current: None });
                        proof {
                            lemma_frames_kept(of, state.frames@);
                        }
                        ResolveAction::Proceed
                    },
                    None => {
                        state.stack.push(r.clone());
                        state.pending = Some((r.clone(), true));
                        state.frames.push(ResolveFrame { data, remaining, current: Some(r.clone()) });
                        proof {
                            lemma_frames_kept(of, state.frames@);
                            assert(texts(state.stack@) =~= texts(os).push(r@));
                            assert(texts(state.stack@).take(state.base_len as int) =~= texts(os).take(
                                state.base_len as int,
                            ));
                        }
                        ResolveAction::Read(r)
                    },
                }
            },
        }
    }
}

/// Putting back the innermost frame with its path kept keeps every frame's
/// path and, below it, every frame's include.
proof fn lemma_frames_kept(old_frames: Seq<ResolveFrame>, frames: Seq<ResolveFrame>)
    requires
        old_frames.len() > 0,
        frames.len() == old_frames.len(),
        forall|i: int| 0 <= i < frames.len() - 1 ==> frames[i] == old_frames[i],
        frames[frames.len() - 1].data.path_view() == old_frames[old_frames.len() - 1].data.path_view(),
    ensures
        forall|i: int| 0 <= i < frames.len() ==> (#[trigger] frames[i]).data.path_view() == old_frames[i].data.path_view(),
        forall|i: int| 0 <= i < frames.len() - 1 ==> (#[trigger] frames[i]).current == old_frames[i].current,
{
}

/// A circular include is a real cycle: when the next step enters a file that
/// is already on the include stack but was not handed in by the caller, that
/// file is one being resolved, each file from it to the innermost one
/// includes the next, and the innermost one includes it again, by the texts
/// read and the path mappings `mappings` and root `root` in force.
pub proof fn law_circular_include_is_a_cycle(
    state: ResolveState,
    mappings: Map<Seq<char>, Seq<char>>,
    root: Seq<char>,
    r: Seq<char>,
)
    requires
        state.wf(),
        state.follows_includes(mappings, root),
        state.entering() == Some(r),
        state.on_stack(r),
        !state.base_stack().contains(r),
    ensures
        exists|j: int|
            0 <= j < state.depth() && (#[trigger] state.file_at(j)).path_view() == r && (forall|i: int|
                j <= i < state.depth() - 1 ==> includes_path(
                    mappings,
                    root,
                    state.file_at(i).content_view(),
                    (#[trigger] state.file_at(i + 1)).path_view(),
                )),
        includes_path(mappings, root, state.top_file().content_view(), r),
{
    let n = state.frames@.len() as int;
    let b = state.base_len as int;
    let idx = choose|idx: int| 0 <= idx < state.stack@.len() && state.stack@[idx]@ == r;
    if idx < b {
        assert(state.base_stack()[idx] == r);
    }
    let j = idx - b;
    assert(state.file_at(j).path_view() == r);
    assert forall|i: int| j <= i < n - 1 implies includes_path(
        mappings,
        root,
        state.file_at(i).content_view(),
        (#[trigger] state.file_at(i + 1)).path_view(),
    ) by {
        assert(state.frames@[i].current is Some);
        assert(state.frames@[i].current->0@ == state.stack@[b + i + 1]@);
        assert(state.frames@[i + 1].data.path_view() == state.stack@[b + i + 1]@);
    }
    let rem = state.frames@[n - 1].remaining@;
    let d = rem[rem.len() - 1];
    assert(directive_of(mappings, root, state.frames@[n - 1].data.content_view(), d));
    let k = choose|k: int|
        0 <= k < directives(lines_of(state.frames@[n - 1].data.content_view())).len() && d.path@ == (#[trigger] directives(
            lines_of(state.frames@[n - 1].data.content_view()),
        )[k]).1 && reports(d.resolved, include_file(mappings, root, d.path@));
    assert(include_file(mappings, root, directives(lines_of(state.frames@[n - 1].data.content_view()))[k].1) == Ok::<
        Seq<char>,
        Seq<char>,
    >(r));
}

} // verus!
