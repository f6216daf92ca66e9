//! The renderer: expands the directives of a page, page by page, and keeps
//! the page cache up to date.
//!
//! The renderer reads no file itself. It is a machine that the caller
//! drives: each move hands the caller a `Request`, the caller does what is
//! asked and hands the answer back as a `Reply`.

use vstd::prelude::*;
use vstd::string::*;
use crate::cache::{
    clone_paths, contains_path, insert_path, paths_view, HTMLFile, HTMLFileView, PageCache,
    PageInfo, PageInfoView,
};
use crate::errors::{GroonError, GroonErrorView, TagProcessingError, TagProcessingErrorView};
use crate::markup::read_markdown_file;
use crate::model::{
    accepts, begin_page, begin_single, coherent, deliver, enter, entry_next, expand_tag, fail,
    folded, initial, lemma_enter_well_formed, lemma_entry_next_well_formed, lemma_folded_coherent,
    lemma_literal_coherent, lemma_opened_coherent, lemma_output_taken, lemma_stage_coherent,
    new_frame, opened, outcome, outdated, pushed, resume, reusable, settle, spans_left, step_spec,
    stored, waits_inside, well_formed, with_top, FrameView, Outcome, Purpose, RendererView,
    ReplyView, RequestView, Stage,
};
use crate::parse::{parse_page, spans_view, GroonTag, Span, SpanView};
use crate::path::{file_name_of, is_markdown_path, join_path};

verus! {

/// What the renderer asks of its caller.
#[derive(Debug, PartialEq, Eq)]
pub enum Request {
    /// Report when the file of this path was last modified.
    Stat(String),
    /// Report the text of the file of this path.
    Read(String),
    /// The page is rendered: nothing is left to do.
    Done(HTMLFile),
    /// The page cannot be rendered: nothing is left to do.
    Failed(GroonError),
}

impl View for Request {
    type V = RequestView;

    open spec fn view(&self) -> RequestView {
        match self {
            Request::Stat(path) => RequestView::Stat(path@),
            Request::Read(path) => RequestView::Read(path@),
            Request::Done(page) => RequestView::Done(page@),
            Request::Failed(e) => RequestView::Failed(e@),
        }
    }
}

/// What the caller answers to a `Request`.
#[derive(Debug, PartialEq, Eq)]
pub enum Reply {
    /// The file was last modified at this time.
    Modified(u64),
    /// The file holds this text.
    Text(String),
    /// The file or its metadata could not be read, for this reason.
    Failed(String),
}

impl View for Reply {
    type V = ReplyView;

    open spec fn view(&self) -> ReplyView {
        match self {
            Reply::Modified(at) => ReplyView::Modified(*at),
            Reply::Text(text) => ReplyView::Text(text@),
            Reply::Failed(message) => ReplyView::Failed(message@),
        }
    }
}

/// Decides what carrying out `tag`, found in the page `path`, comes to.
/// `temps` is the template directory that the targets of directives are
/// relative to.
pub fn expand_groon_tag(tag: &GroonTag, path: &str, temps: &str, chain: &Vec<String>) -> (r:
    Result<String, TagProcessingError>)
    ensures
        match r {
            Ok(target) => expand_tag(tag@, path@, temps@, paths_view(chain@)) == Ok::<
                Seq<char>,
                TagProcessingErrorView,
            >(target@),
            Err(e) => expand_tag(tag@, path@, temps@, paths_view(chain@)) == Err::<
                Seq<char>,
                TagProcessingErrorView,
            >(e@),
        },
{
    match tag {
        GroonTag::Insert(target) => {
            if file_name_of(target.as_str()) == file_name_of(path) {
                return Err(TagProcessingError::SelfRefelercial(target.clone()));
            }
            let joined = join_path(temps, target.as_str());
            if contains_path(chain, &joined) {
                return Err(
                    TagProcessingError::DependencyCycle { file: path.to_owned(), dep: joined },
                );
            }
            Ok(joined)
        },
    }
}

/// Whether the entry of `path` is older than the file, which was modified
/// at the time `modified`.
pub fn is_outdated(path: &str, modified: u64, cache: &PageCache) -> (r: bool)
    requires
        cache@.contains_key(path@),
    ensures
        r == outdated(modified, cache@[path@]),
{
    match cache.get_page(path) {
        Some(entry) => modified >= entry.last_modified,
        None => true,
    }
}

/// The work on one page.
pub struct Frame {
    path: String,
    purpose: Purpose,
    markdown: bool,
    stage: Stage,
    spans: Vec<Span>,
    next: usize,
    out: String,
    deps: Vec<String>,
}

impl View for Frame {
    type V = FrameView;

    closed spec fn view(&self) -> FrameView {
        FrameView {
            path: self.path@,
            purpose: self.purpose,
            markdown: self.markdown,
            stage: self.stage,
            spans: spans_view(self.spans@),
            next: self.next as nat,
            out: self.out@,
            deps: paths_view(self.deps@),
        }
    }
}

/// The state of one rendering of one page, from the first request to
/// `Done` or `Failed`.
pub struct Renderer {
    temps: String,
    root: String,
    purpose: Purpose,
    markdown: bool,
    chain: Vec<String>,
    base: usize,
    pending: Vec<String>,
    next_dep: usize,
    reread: bool,
    stack: Vec<Frame>,
    finished: bool,
}

impl View for Renderer {
    type V = RendererView;

    closed spec fn view(&self) -> RendererView {
        RendererView {
            temps: self.temps@,
            root: self.root@,
            purpose: self.purpose,
            markdown: self.markdown,
            chain: paths_view(self.chain@),
            base: self.base as nat,
            pending: paths_view(self.pending@),
            next_dep: self.next_dep as nat,
            reread: self.reread,
            stack: self.stack@.map_values(|frame: Frame| frame@),
            finished: self.finished,
        }
    }
}

/// What is handed on when the innermost page is done, as a mathematical
/// value: the page, and whether it was rendered for that.
pub open spec fn handed_view(handed: Option<(HTMLFile, bool)>) -> Option<(HTMLFileView, bool)> {
    match handed {
        Some((page, anew)) => Some((page@, anew)),
        None => None,
    }
}

/// What one move inside the renderer leads to.
enum Move {
    /// The caller is asked for something, or told the result.
    Ask(Request),
    /// The spans of this page are put together next.
    Expand(Frame),
    /// This page is done and came to the page that is handed on.
    HandOn(Frame, HTMLFile),
}

/// Whether `next` leads to the outcome `goal`, from the renderer `r` and
/// the cache `cache`.
spec fn follows(
    next: Move,
    r: RendererView,
    cache: Map<Seq<char>, PageInfoView>,
    now: u64,
    goal: Outcome,
) -> bool {
    match next {
        Move::Ask(request) => well_formed(r) && outcome(r, cache, request@) == goal,
        Move::Expand(frame) => coherent(pushed(r, frame@)) && settle(pushed(r, frame@), cache, now)
            == goal,
        Move::HandOn(frame, page) => coherent(pushed(r, frame@)) && deliver(
            pushed(r, frame@),
            cache,
            now,
            page@,
            true,
        ) == goal,
    }
}

/// Stores the page that `path` was rendered to.
fn store_page(cache: &mut PageCache, path: &String, purpose: Purpose, page: &HTMLFile, now: u64)
    requires
        page@.dependencies.no_duplicates(),
    ensures
        final(cache)@ == stored(old(cache)@, path@, purpose, page@, now),
{
    match purpose {
        Purpose::Expand => {
            return ;
        },
        _ => {},
    }
    let mut entry = match cache.get_page(path.as_str()) {
        Some(entry) => entry.clone(),
        None => PageInfo::new(now),
    };
    entry.contents = Some(page.content.clone());
    entry.dependencies = clone_paths(&page.dependencies);
    entry.last_modified = now;
    match purpose {
        Purpose::Resolve => {
            entry.last_accessed = now;
            if entry.req_count < u64::MAX {
                entry.req_count = entry.req_count + 1;
            }
        },
        _ => {},
    }
    cache.add_page(path.clone(), entry);
}

impl Renderer {
    /// Takes up the page `path`.
    fn enter(&mut self, cache: &PageCache, path: String, purpose: Purpose, markdown: bool) -> (request:
        Request)
        ensures
            outcome(final(self)@, cache@, request@) == enter(
                old(self)@,
                cache@,
                path@,
                purpose,
                markdown,
            ),
    {
        let probing = match purpose {
            Purpose::Resolve | Purpose::Refresh => cache.has_page(path.as_str()),
            _ => false,
        };
        let request = if probing {
            Request::Stat(path.clone())
        } else {
            Request::Read(path.clone())
        };
        if self.stack.len() > 0 {
            self.chain.push(path.clone());
        }
        let frame = Frame {
            path,
            purpose,
            markdown,
            stage: if probing {
                Stage::Probing
            } else {
                Stage::Reading
            },
            spans: Vec::new(),
            next: 0,
            out: String::new(),
            deps: Vec::new(),
        };
        assert(frame@ =~= new_frame(path@, purpose, markdown, cache@)) by {
            assert(frame@.spans =~= Seq::<SpanView>::empty());
            assert(frame@.deps =~= Seq::<Seq<char>>::empty());
        }
        self.stack.push(frame);
        proof {
            let after = enter(old(self)@, cache@, path@, purpose, markdown).state;
            assert(self@.stack =~= after.stack);
            assert(self@.chain =~= after.chain);
        }
        request
    }

    /// Gives up with the error `e`.
    fn fail(&mut self, e: GroonError) -> (request: Request)
        requires
            old(self).base <= old(self).chain.len(),
        ensures
            forall|cache: Map<Seq<char>, PageInfoView>|
                outcome(final(self)@, cache, request@) == #[trigger] fail(
                    old(self)@,
                    cache,
                    e@,
                ),
    {
        self.stack.clear();
        self.chain.truncate(self.base);
        self.finished = true;
        proof {
            let after = fail(old(self)@, Map::empty(), e@).state;
            assert(self@.stack =~= after.stack);
            assert(self@.chain =~= after.chain);
        }
        Request::Failed(e)
    }

    /// Takes up the next dependency of the root, or the root.
    fn entry_next(&mut self, cache: &PageCache) -> (request: Request)
        requires
            old(self).next_dep <= old(self).pending.len(),
        ensures
            outcome(final(self)@, cache@, request@) == entry_next(
                old(self)@,
                cache@,
            ),
    {
        if self.next_dep < self.pending.len() {
            let dep = self.pending[self.next_dep].clone();
            let markdown = is_markdown_path(dep.as_str());
            self.enter(cache, dep, Purpose::Refresh, markdown)
        } else {
            let purpose = if self.reread {
                Purpose::Reread
            } else {
                self.purpose
            };
            let root = self.root.clone();
            let markdown = self.markdown;
            self.enter(cache, root, purpose, markdown)
        }
    }

    /// The innermost page `top`, which is taken off the stack, is done and
    /// came to `page`: hands the page on.
    fn hand_on(&mut self, cache: &PageCache, top: Frame, page: HTMLFile, anew: bool, now: u64) -> (next:
        Move)
        requires
            coherent(pushed(old(self)@, top@)),
        ensures
            follows(
                next,
                final(self)@,
                cache@,
                now,
                deliver(pushed(old(self)@, top@), cache@, now, page@, anew),
            ),
            !(next is HandOn),
            next is Expand ==> final(self).stack.len() < old(self).stack.len(),
    {
        let ghost here = pushed(self@, top@);
        assert(here.stack.last() == top@);
        assert(here.stack.drop_last() =~= self@.stack);
        match self.stack.pop() {
            None => {
                assert(self@.stack =~= Seq::<FrameView>::empty());
                assert(here.pending.len() == self.pending.len());
                self.reread = self.reread || anew;
                if self.next_dep < self.pending.len() {
                    self.next_dep = self.next_dep + 1;
                    proof {
                        lemma_entry_next_well_formed(self@, cache@);
                    }
                    let request = self.entry_next(cache);
                    Move::Ask(request)
                } else {
                    self.finished = true;
                    Move::Ask(Request::Done(page))
                }
            },
            Some(parent) => {
                assert(here.stack.drop_last().last() == parent@);
                assert(here.stack.drop_last().drop_last() =~= self@.stack);
                assert(here.stack[here.stack.len() - 2] == parent@);
                assert(waits_inside(here, here.stack.len() - 2));
                assert(parent.next < parent.spans.len());
                let mut parent = parent;
                insert_path(&mut parent.deps, top.path);
                parent.out.append(page.content.as_str());
                parent.next = parent.next + 1;
                self.chain.pop();
                proof {
                    lemma_folded_coherent(here, page@.content);
                    assert(pushed(self@, parent@).stack =~= folded(here, page@.content).stack);
                    assert(pushed(self@, parent@).chain =~= folded(here, page@.content).chain);
                    assert(pushed(self@, parent@) == folded(here, page@.content));
                }
                Move::Expand(parent)
            },
        }
    }

    /// Puts the next span of the innermost page `top`, which is taken off
    /// the stack, into its output; after the last span, stores the page.
    fn expand_next(&mut self, cache: &mut PageCache, top: Frame, now: u64) -> (next: Move)
        requires
            coherent(pushed(old(self)@, top@)),
        ensures
            follows(
                next,
                final(self)@,
                final(cache)@,
                now,
                settle(pushed(old(self)@, top@), old(cache)@, now),
            ),
            final(self).stack.len() <= old(self).stack.len() || next is Ask,
            next matches Move::Expand(frame) ==> final(self).stack.len() == old(self).stack.len()
                && spans_left(pushed(final(self)@, frame@)) < spans_left(
                pushed(old(self)@, top@),
            ),
    {
        let ghost here = pushed(self@, top@);
        assert(here.stack.last() == top@);
        assert(here.stack.drop_last() =~= self@.stack);
        let mut top = top;
        if top.next >= top.spans.len() {
            let mut content = String::new();
            std::mem::swap(&mut top.out, &mut content);
            let page = HTMLFile { content, dependencies: clone_paths(&top.deps) };
            store_page(cache, &top.path, top.purpose, &page, now);
            proof {
                lemma_output_taken(here, cache@, now, page@, top@.out);
                assert(pushed(self@, top@).stack =~= with_top(
                    here,
                    FrameView { out: top@.out, ..here.stack.last() },
                ).stack);
            }
            return Move::HandOn(top, page);
        }
        match &top.spans[top.next] {
            Span::Literal(text) => {
                top.out.append(text.as_str());
                top.next = top.next + 1;
                proof {
                    assert(here.stack.last().spans[here.stack.last().next as int]
                        == SpanView::Literal(text@));
                    lemma_literal_coherent(here, text@);
                    let next = with_top(
                        here,
                        FrameView {
                            out: here.stack.last().out + text@,
                            next: here.stack.last().next + 1,
                            ..here.stack.last()
                        },
                    );
                    assert(pushed(self@, top@).stack =~= next.stack);
                    assert(pushed(self@, top@) == next);
                }
                Move::Expand(top)
            },
            Span::Directive(tag) => {
                match expand_groon_tag(tag, top.path.as_str(), self.temps.as_str(), &self.chain) {
                    Err(e) => {
                        let request = self.fail(GroonError::TagProcessing(e));
                        proof {
                            let error = GroonErrorView::TagProcessing(e@);
                            assert(fail(old(self)@, cache@, error).state.stack =~= fail(
                                here,
                                cache@,
                                error,
                            ).state.stack);
                            assert(fail(old(self)@, cache@, error) == fail(here, cache@, error));
                        }
                        Move::Ask(request)
                    },
                    Ok(target) => {
                        let markdown = is_markdown_path(target.as_str());
                        self.stack.push(top);
                        assert(self@.stack =~= here.stack);
                        assert(self@ == here);
                        proof {
                            assert(here.stack.last().spans[here.stack.last().next as int]
                                == SpanView::Directive(tag@));
                            lemma_enter_well_formed(here, cache@, target@, markdown);
                        }
                        let request = self.enter(cache, target, Purpose::Resolve, markdown);
                        Move::Ask(request)
                    },
                }
            },
        }
    }

    /// Goes on from the innermost page `top`, which is taken off the
    /// stack, until a file is needed or the work is done.
    fn run(
        &mut self,
        cache: &mut PageCache,
        top: Frame,
        handed: Option<(HTMLFile, bool)>,
        now: u64,
    ) -> (request: Request)
        requires
            coherent(pushed(old(self)@, top@)),
        ensures
            well_formed(final(self)@),
            outcome(final(self)@, final(cache)@, request@) == resume(
                pushed(old(self)@, top@),
                old(cache)@,
                now,
                handed_view(handed),
            ),
    {
        let ghost goal = resume(pushed(old(self)@, top@), old(cache)@, now, handed_view(handed));
        let mut frame = top;
        let mut ready = handed;
        loop
            invariant
                coherent(pushed(self@, frame@)),
                resume(pushed(self@, frame@), cache@, now, handed_view(ready)) == goal,
                goal == resume(pushed(old(self)@, top@), old(cache)@, now, handed_view(handed)),
            decreases
                self.stack.len(),
                (if ready is Some {
                    0nat
                } else {
                    1 + spans_left(pushed(self@, frame@))
                }),
        {
            let next = match ready {
                Some((page, anew)) => self.hand_on(cache, frame, page, anew, now),
                None => self.expand_next(cache, frame, now),
            };
            match next {
                Move::Ask(request) => {
                    return request;
                },
                Move::Expand(parent) => {
                    frame = parent;
                    ready = None;
                },
                Move::HandOn(done, page) => {
                    frame = done;
                    ready = Some((page, true));
                },
            }
        }
    }

    /// Whether a page was rendered anew: a dependency of the root so far
    /// and, once the renderer is done, the root.
    pub fn rendered_anew(&self) -> (r: bool)
        ensures
            r == self@.reread,
    {
        self.reread
    }

    /// Whether the renderer waits for `reply`.
    pub fn accepts(&self, reply: &Reply) -> (r: bool)
        ensures
            r == accepts(self@, reply@),
    {
        if self.finished || self.stack.len() == 0 {
            return false;
        }
        let top = &self.stack[self.stack.len() - 1];
        assert(self@.stack.last() == top@);
        match reply {
            Reply::Modified(_) => match top.stage {
                Stage::Probing => true,
                _ => false,
            },
            Reply::Text(_) => match top.stage {
                Stage::Reading => true,
                _ => false,
            },
            Reply::Failed(_) => true,
        }
    }

    /// The innermost page `top`, which is taken off the stack, was
    /// modified at the time `at`: serves its entry, or asks for its text.
    fn probed(&mut self, cache: &mut PageCache, top: Frame, at: u64, now: u64) -> (request: Request)
        requires
            coherent(pushed(old(self)@, top@)),
            top@.stage is Probing,
        ensures
            well_formed(final(self)@),
            outcome(final(self)@, final(cache)@, request@) == step_spec(
                pushed(old(self)@, top@),
                old(cache)@,
                ReplyView::Modified(at),
                now,
            ),
    {
        let ghost before = pushed(self@, top@);
        assert(before.stack.last() == top@);
        assert(before.stack.drop_last() =~= self@.stack);
        let hit: Option<HTMLFile> = match cache.get_page(top.path.as_str()) {
            Some(entry) => {
                if entry.contents.is_some() && at < entry.last_modified {
                    Some(HTMLFile::from_entry(entry.clone()))
                } else {
                    None
                }
            },
            None => None,
        };
        match hit {
            Some(page) => {
                assert(reusable(cache@, top@.path, at));
                match top.purpose {
                    Purpose::Resolve => {
                        cache.page_accessed_now(top.path.clone(), now);
                    },
                    _ => {},
                }
                self.run(cache, top, Some((page, false)), now)
            },
            None => {
                assert(!reusable(cache@, top@.path, at));
                let mut top = top;
                top.stage = Stage::Reading;
                let request = Request::Read(top.path.clone());
                self.stack.push(top);
                proof {
                    let after = with_top(
                        before,
                        FrameView { stage: Stage::Reading, ..before.stack.last() },
                    );
                    assert(self@.stack =~= after.stack);
                    assert(self@ == after);
                    lemma_stage_coherent(before, Stage::Reading);
                }
                request
            },
        }
    }

    /// The innermost page `top`, which is taken off the stack, has the
    /// text `text`: renders it.
    fn read(&mut self, cache: &mut PageCache, top: Frame, text: String, now: u64) -> (request:
        Request)
        requires
            coherent(pushed(old(self)@, top@)),
            top@.stage is Reading,
        ensures
            well_formed(final(self)@),
            outcome(final(self)@, final(cache)@, request@) == step_spec(
                pushed(old(self)@, top@),
                old(cache)@,
                ReplyView::Text(text@),
                now,
            ),
    {
        let ghost before = pushed(self@, top@);
        assert(before.stack.last() == top@);
        assert(before.stack.drop_last() =~= self@.stack);
        if top.markdown {
            let page = read_markdown_file(text.as_str());
            store_page(cache, &top.path, top.purpose, &page, now);
            return self.run(cache, top, Some((page, true)), now);
        }
        match parse_page(text.as_str(), top.path.as_str()) {
            Err(e) => {
                let request = self.fail(GroonError::TagParse(e));
                proof {
                    let error = GroonErrorView::TagParse(e@);
                    assert(fail(old(self)@, cache@, error).state.stack =~= fail(
                        before,
                        cache@,
                        error,
                    ).state.stack);
                }
                request
            },
            Ok(spans) => {
                let mut top = top;
                top.stage = Stage::Expanding;
                top.spans = spans;
                top.next = 0;
                top.out = String::new();
                top.deps = Vec::new();
                proof {
                    let fresh = opened(before.stack.last(), spans_view(spans@));
                    assert(top@.deps =~= Seq::<Seq<char>>::empty());
                    assert(top@ == fresh);
                    let after = with_top(before, fresh);
                    assert(pushed(self@, top@).stack =~= after.stack);
                    assert(pushed(self@, top@) == after);
                    lemma_opened_coherent(before, spans_view(spans@));
                }
                self.run(cache, top, None, now)
            },
        }
    }

    /// Makes one move: takes the caller's `reply` to the last request, at
    /// the time `now`, and says what is needed next, or how the rendering
    /// ended.
    pub fn step(&mut self, cache: &mut PageCache, reply: Reply, now: u64) -> (request: Request)
        requires
            well_formed(old(self)@),
            accepts(old(self)@, reply@),
        ensures
            well_formed(final(self)@),
            outcome(final(self)@, final(cache)@, request@) == step_spec(
                old(self)@,
                old(cache)@,
                reply@,
                now,
            ),
    {
        let ghost before = self@;
        match self.stack.pop() {
            Some(top) => {
                assert(before.stack.last() == top@);
                assert(before.stack.drop_last() =~= self@.stack);
                assert(pushed(self@, top@).stack =~= before.stack);
                assert(pushed(self@, top@) == before);
                match reply {
                    Reply::Failed(message) => {
                        let ghost popped = self@;
                        let request = self.fail(GroonError::IO(message));
                        proof {
                            let error = GroonErrorView::IO(message@);
                            assert(fail(popped, cache@, error).state.stack =~= fail(
                                before,
                                cache@,
                                error,
                            ).state.stack);
                        }
                        request
                    },
                    Reply::Modified(at) => self.probed(cache, top, at, now),
                    Reply::Text(text) => self.read(cache, top, text, now),
                }
            },
            // Not reached: a renderer that waits for a reply has a page in work.
            None => Request::Failed(GroonError::IO(String::new())),
        }
    }
}

/// Starts a renderer and makes its first move.
fn start(
    path: String,
    temps: String,
    chain: Vec<String>,
    pending: Vec<String>,
    purpose: Purpose,
    markdown: bool,
    cache: &PageCache,
) -> (started: (Renderer, Request))
    ensures
        well_formed(started.0@),
        outcome(started.0@, cache@, started.1@) == entry_next(
            initial(path@, temps@, paths_view(chain@), paths_view(pending@), purpose, markdown),
            cache@,
        ),
{
    let base = chain.len();
    let mut renderer = Renderer {
        temps,
        root: path,
        purpose,
        markdown,
        chain,
        base,
        pending,
        next_dep: 0,
        reread: false,
        stack: Vec::new(),
        finished: false,
    };
    proof {
        let first = initial(
            path@,
            temps@,
            paths_view(chain@),
            paths_view(pending@),
            purpose,
            markdown,
        );
        assert(renderer@.stack =~= first.stack);
        assert(renderer@ == first);
        lemma_entry_next_well_formed(first, cache@);
    }
    let request = renderer.entry_next(cache);
    (renderer, request)
}

/// Starts the work on the one page `path` for `purpose`, inside the
/// ancestor chain `chain`.
fn start_single(
    path: String,
    temps: String,
    chain: Vec<String>,
    purpose: Purpose,
    markdown: bool,
    cache: &PageCache,
) -> (started: (Renderer, Request))
    ensures
        well_formed(started.0@),
        outcome(started.0@, cache@, started.1@) == begin_single(
            path@,
            temps@,
            paths_view(chain@),
            purpose,
            markdown,
            cache@,
        ),
{
    let pending: Vec<String> = Vec::new();
    assert(paths_view(pending@) =~= Seq::<Seq<char>>::empty());
    start(path, temps, chain, pending, purpose, markdown, cache)
}

/// Starts the rendering of the page `path` that a client asked for, with
/// the template directory `temps`. The dependencies that the cache lists
/// for the page are brought up to date first; where one of them had to be
/// rendered anew, so is the page.
pub fn process_html_file(path: String, temps: String, cache: &PageCache) -> (started: (
    Renderer,
    Request,
))
    ensures
        well_formed(started.0@),
        outcome(started.0@, cache@, started.1@) == begin_page(path@, temps@, cache@),
{
    let pending = match cache.get_page(path.as_str()) {
        Some(entry) => clone_paths(&entry.dependencies),
        None => Vec::new(),
    };
    let chain: Vec<String> = Vec::new();
    assert(paths_view(chain@) =~= Seq::<Seq<char>>::empty());
    assert(paths_view(pending@) =~= if cache@.contains_key(path@) {
        cache@[path@].dependencies
    } else {
        Seq::<Seq<char>>::empty()
    });
    start(path, temps, chain, pending, Purpose::Resolve, false, cache)
}

/// Starts the rendering of the HTML page `path` inside the ancestor chain
/// `root_deps`: the page is served from the cache where its entry is
/// fresh, and rendered and stored otherwise.
pub fn read_html_or_load_from_cache(
    path: String,
    temps: String,
    cache: &PageCache,
    root_deps: Vec<String>,
) -> (started: (Renderer, Request))
    ensures
        well_formed(started.0@),
        outcome(started.0@, cache@, started.1@) == begin_single(
            path@,
            temps@,
            paths_view(root_deps@),
            Purpose::Resolve,
            false,
            cache@,
        ),
{
    start_single(path, temps, root_deps, Purpose::Resolve, false, cache)
}

/// Starts bringing the entry of the HTML page `path` up to date: the page
/// is rendered and stored unless its entry is fresh. When the renderer is
/// done, `rendered_anew` says which it was.
pub fn load_html_to_cache(path: String, temps: String, cache: &PageCache) -> (started: (
    Renderer,
    Request,
))
    ensures
        well_formed(started.0@),
        outcome(started.0@, cache@, started.1@) == begin_single(
            path@,
            temps@,
            Seq::<Seq<char>>::empty(),
            Purpose::Refresh,
            false,
            cache@,
        ),
{
    let chain: Vec<String> = Vec::new();
    assert(paths_view(chain@) =~= Seq::<Seq<char>>::empty());
    start_single(path, temps, chain, Purpose::Refresh, false, cache)
}

/// Starts the rendering of the HTML page `path` from its file, inside the
/// ancestor chain `root_deps`. The pages that it inserts are served from
/// the cache or stored in it; the page itself is not stored.
pub fn read_html_file(path: String, temps: String, cache: &PageCache, root_deps: Vec<String>) -> (started:
    (Renderer, Request))
    ensures
        well_formed(started.0@),
        outcome(started.0@, cache@, started.1@) == begin_single(
            path@,
            temps@,
            paths_view(root_deps@),
            Purpose::Expand,
            false,
            cache@,
        ),
{
    start_single(path, temps, root_deps, Purpose::Expand, false, cache)
}

/// Starts the rendering of the Markdown page `path`: the page is served
/// from the cache where its entry is fresh, and converted and stored
/// otherwise.
pub fn read_markdown_or_load_from_cache(path: String, cache: &PageCache) -> (started: (
    Renderer,
    Request,
))
    ensures
        well_formed(started.0@),
        outcome(started.0@, cache@, started.1@) == begin_single(
            path@,
            Seq::<char>::empty(),
            Seq::<Seq<char>>::empty(),
            Purpose::Resolve,
            true,
            cache@,
        ),
{
    let chain: Vec<String> = Vec::new();
    assert(paths_view(chain@) =~= Seq::<Seq<char>>::empty());
    start_single(path, String::new(), chain, Purpose::Resolve, true, cache)
}

/// Starts bringing the entry of the Markdown page `path` up to date: the
/// page is converted and stored unless its entry is fresh. When the
/// renderer is done, `rendered_anew` says which it was.
pub fn load_markdown_to_cache(path: String, cache: &PageCache) -> (started: (Renderer, Request))
    ensures
        well_formed(started.0@),
        outcome(started.0@, cache@, started.1@) == begin_single(
            path@,
            Seq::<char>::empty(),
            Seq::<Seq<char>>::empty(),
            Purpose::Refresh,
            true,
            cache@,
        ),
{
    let chain: Vec<String> = Vec::new();
    assert(paths_view(chain@) =~= Seq::<Seq<char>>::empty());
    start_single(path, String::new(), chain, Purpose::Refresh, true, cache)
}

} // verus!
