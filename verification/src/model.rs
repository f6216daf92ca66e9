//! The renderer as a mathematical machine: its states, what a move makes
//! of a state, the cache and a reply, and what holds of every state that
//! the moves lead to.

use vstd::prelude::*;
use crate::cache::{accessed, file_of, start_entry, HTMLFileView, PageInfoView};
use crate::errors::{GroonErrorView, TagProcessingErrorView};
use crate::markup::{markdown_html, plain_page};
use crate::parse::{parse_from, GroonTagView, SpanView};
use crate::path::{file_name, is_markdown, join};

verus! {

/// A `Request` as a mathematical value.
pub enum RequestView {
    Stat(Seq<char>),
    Read(Seq<char>),
    Done(HTMLFileView),
    Failed(GroonErrorView),
}

/// A `Reply` as a mathematical value.
pub enum ReplyView {
    Modified(u64),
    Text(Seq<char>),
    Failed(Seq<char>),
}

/// What a page is brought up to date for.
#[derive(Debug, Clone, Copy, PartialEq, Eq)]
pub enum Purpose {
    /// The page is wanted: a fresh entry is served, anything else is
    /// rendered.
    Resolve,
    /// Only the entry is wanted: it is rendered anew unless it is fresh.
    Refresh,
    /// The page is rendered anew whatever the cache holds.
    Reread,
    /// The page is rendered and handed on, and the cache is left as it
    /// is.
    Expand,
}

/// How far the work on a page has come.
#[derive(Debug, Clone, Copy, PartialEq, Eq)]
pub enum Stage {
    /// The file's modification time was asked for.
    Probing,
    /// The file's text was asked for.
    Reading,
    /// The text is parsed and its spans are being put together.
    Expanding,
}

/// The work on one page, as a mathematical value.
pub struct FrameView {
    /// The path of the page.
    pub path: Seq<char>,
    pub purpose: Purpose,
    /// Whether the file is Markdown and not HTML.
    pub markdown: bool,
    pub stage: Stage,
    /// The spans of the page's text.
    pub spans: Seq<SpanView>,
    /// How many of the spans are in `out`.
    pub next: nat,
    /// The output so far.
    pub out: Seq<char>,
    /// The files that the spans so far asked for.
    pub deps: Seq<Seq<char>>,
}

/// A renderer as a mathematical value.
pub struct RendererView {
    /// The template directory.
    pub temps: Seq<char>,
    /// The page that is asked for.
    pub root: Seq<char>,
    /// What the page is asked for.
    pub purpose: Purpose,
    /// Whether the page is a Markdown file.
    pub markdown: bool,
    /// The ancestor chain of the page that is worked on: the chain that
    /// the renderer started with, then the pages that are being expanded,
    /// but for the outermost.
    pub chain: Seq<Seq<char>>,
    /// The length of the chain that the renderer started with.
    pub base: nat,
    /// The dependencies that the root had in the cache at the start.
    pub pending: Seq<Seq<char>>,
    /// How many of them are up to date by now.
    pub next_dep: nat,
    /// Whether a page was rendered anew for this: a dependency of the
    /// root so far and, once the renderer is done, the root.
    pub reread: bool,
    /// The pages that are being worked on, the outermost first.
    pub stack: Seq<FrameView>,
    /// Whether the renderer has said `Done` or `Failed`.
    pub finished: bool,
}

/// What a move of the renderer comes to.
pub struct Outcome {
    pub state: RendererView,
    pub cache: Map<Seq<char>, PageInfoView>,
    pub request: RequestView,
}

/// The outcome made of its three parts.
pub open spec fn outcome(
    state: RendererView,
    cache: Map<Seq<char>, PageInfoView>,
    request: RequestView,
) -> Outcome {
    Outcome { state, cache, request }
}

/// What carrying out `tag`, found in the page `path`, comes to: the path
/// of the file to put in its place, or the reason why there is none.
///
/// A page may not ask for a file of its own name, nor for a file that is
/// on `chain`, the files that are being expanded round it.
pub open spec fn expand_tag(
    tag: GroonTagView,
    path: Seq<char>,
    temps: Seq<char>,
    chain: Seq<Seq<char>>,
) -> Result<Seq<char>, TagProcessingErrorView> {
    match tag {
        GroonTagView::Insert(target) => {
            if file_name(target) == file_name(path) {
                Err(TagProcessingErrorView::SelfRefelercial(target))
            } else if chain.contains(join(temps, target)) {
                Err(TagProcessingErrorView::DependencyCycle { file: path, dep: join(temps, target) })
            } else {
                Ok(join(temps, target))
            }
        },
    }
}

/// Whether a file that was modified at the time `modified` is newer than
/// the entry that was rendered from it. A file that changed in the very
/// tick in which it was rendered counts as newer.
pub open spec fn outdated(modified: u64, entry: PageInfoView) -> bool {
    modified >= entry.last_modified
}

/// Whether the entry of `path` can stand for the file, which was modified
/// at the time `modified`.
pub open spec fn reusable(
    cache: Map<Seq<char>, PageInfoView>,
    path: Seq<char>,
    modified: u64,
) -> bool {
    cache.contains_key(path) && cache[path].contents is Some && !outdated(modified, cache[path])
}

/// `entry` after the page was rendered to `page` at the time `now`.
pub open spec fn rendered(entry: PageInfoView, page: HTMLFileView, now: u64) -> PageInfoView {
    PageInfoView {
        contents: Some(page.content),
        dependencies: page.dependencies,
        last_modified: now,
        ..entry
    }
}

/// The cache after `path` was rendered to `page` at the time `now`. Where
/// the page itself was wanted, this counts as an access; where it was
/// only to be expanded, nothing is stored.
pub open spec fn stored(
    cache: Map<Seq<char>, PageInfoView>,
    path: Seq<char>,
    purpose: Purpose,
    page: HTMLFileView,
    now: u64,
) -> Map<Seq<char>, PageInfoView> {
    let entry = rendered(start_entry(cache, path, now), page, now);
    match purpose {
        Purpose::Resolve => cache.insert(path, accessed(entry, now)),
        Purpose::Expand => cache,
        _ => cache.insert(path, entry),
    }
}

/// `deps` with `path` in it.
pub open spec fn with_path(deps: Seq<Seq<char>>, path: Seq<char>) -> Seq<Seq<char>> {
    if deps.contains(path) {
        deps
    } else {
        deps.push(path)
    }
}

/// Whether work on a page for `purpose` starts with a look at its entry.
pub open spec fn probes(purpose: Purpose) -> bool {
    purpose is Resolve || purpose is Refresh
}

/// The work on a page that is taken up: a page that has an entry is probed
/// first, unless it is to be rendered in any case.
pub open spec fn new_frame(
    path: Seq<char>,
    purpose: Purpose,
    markdown: bool,
    cache: Map<Seq<char>, PageInfoView>,
) -> FrameView {
    FrameView {
        path,
        purpose,
        markdown,
        stage: if probes(purpose) && cache.contains_key(path) {
            Stage::Probing
        } else {
            Stage::Reading
        },
        spans: Seq::<SpanView>::empty(),
        next: 0,
        out: Seq::<char>::empty(),
        deps: Seq::<Seq<char>>::empty(),
    }
}

/// What a page that is being probed or read waits for.
pub open spec fn awaited(frame: FrameView) -> RequestView {
    match frame.stage {
        Stage::Probing => RequestView::Stat(frame.path),
        _ => RequestView::Read(frame.path),
    }
}

/// The renderer takes up the page `path`. A page that is taken up inside
/// another joins the ancestor chain.
pub open spec fn enter(
    r: RendererView,
    cache: Map<Seq<char>, PageInfoView>,
    path: Seq<char>,
    purpose: Purpose,
    markdown: bool,
) -> Outcome {
    let frame = new_frame(path, purpose, markdown, cache);
    Outcome {
        state: RendererView {
            stack: r.stack.push(frame),
            chain: if r.stack.len() > 0 {
                r.chain.push(path)
            } else {
                r.chain
            },
            ..r
        },
        cache,
        request: awaited(frame),
    }
}

/// The renderer gives up with the error `e`.
pub open spec fn fail(r: RendererView, cache: Map<Seq<char>, PageInfoView>, e: GroonErrorView)
    -> Outcome {
    Outcome {
        state: RendererView {
            stack: Seq::<FrameView>::empty(),
            chain: r.chain.take(r.base as int),
            finished: true,
            ..r
        },
        cache,
        request: RequestView::Failed(e),
    }
}

/// The renderer ends with `page`; `anew` says whether the root was
/// rendered for that.
pub open spec fn finish(
    r: RendererView,
    cache: Map<Seq<char>, PageInfoView>,
    page: HTMLFileView,
    anew: bool,
) -> Outcome {
    Outcome {
        state: RendererView {
            stack: Seq::<FrameView>::empty(),
            reread: r.reread || anew,
            finished: true,
            ..r
        },
        cache,
        request: RequestView::Done(page),
    }
}

/// With no page in work, the renderer takes up the next of the root's
/// cached dependencies, to bring its entry up to date. After the last of
/// them it takes up the root: to render it anew where a dependency was
/// rendered anew, else for what it is asked for.
pub open spec fn entry_next(r: RendererView, cache: Map<Seq<char>, PageInfoView>) -> Outcome {
    if r.next_dep < r.pending.len() {
        let dep = r.pending[r.next_dep as int];
        enter(r, cache, dep, Purpose::Refresh, is_markdown(dep))
    } else {
        enter(
            r,
            cache,
            r.root,
            if r.reread {
                Purpose::Reread
            } else {
                r.purpose
            },
            r.markdown,
        )
    }
}

/// `r` with `frame` in the place of its innermost page.
pub open spec fn with_top(r: RendererView, frame: FrameView) -> RendererView {
    RendererView { stack: r.stack.drop_last().push(frame), ..r }
}

/// A page whose text was parsed into `spans`, with none of them in its
/// output yet.
pub open spec fn opened(frame: FrameView, spans: Seq<SpanView>) -> FrameView {
    FrameView {
        stage: Stage::Expanding,
        spans,
        next: 0,
        out: Seq::<char>::empty(),
        deps: Seq::<Seq<char>>::empty(),
        ..frame
    }
}

/// How many spans of the innermost page are not in its output yet.
pub open spec fn spans_left(r: RendererView) -> nat {
    if r.stack.len() > 0 && r.stack.last().next < r.stack.last().spans.len() {
        (r.stack.last().spans.len() - r.stack.last().next) as nat
    } else {
        0
    }
}

/// The renderer after its innermost page, which came to `content`, was
/// handed to the page round it: that page has `content` in the place of
/// the directive it waited at, and the file among its dependencies.
pub open spec fn folded(r: RendererView, content: Seq<char>) -> RendererView {
    let child = r.stack.last();
    let parent = r.stack.drop_last().last();
    RendererView {
        stack: r.stack.drop_last().drop_last().push(
            FrameView {
                deps: with_path(parent.deps, child.path),
                out: parent.out + content,
                next: parent.next + 1,
                ..parent
            },
        ),
        chain: r.chain.drop_last(),
        ..r
    }
}

/// The renderer puts the spans of the innermost page together, from the
/// span `next` on, until it needs a file or is done: a literal span goes
/// into the output; a directive is checked and its file taken up; after
/// the last span the page is stored and handed to whoever asked for it.
///
/// The moves apply this to renderers with a page in work only; of one
/// without, it says that it fails.
pub open spec fn settle(r: RendererView, cache: Map<Seq<char>, PageInfoView>, now: u64) -> Outcome
    decreases r.stack.len(), 1 + spans_left(r),
{
    if r.stack.len() == 0 {
        fail(r, cache, GroonErrorView::IO(Seq::<char>::empty()))
    } else {
        let top = r.stack.last();
        if top.next >= top.spans.len() {
            let page = HTMLFileView { content: top.out, dependencies: top.deps };
            deliver(r, stored(cache, top.path, top.purpose, page, now), now, page, true)
        } else {
            match top.spans[top.next as int] {
                SpanView::Literal(text) => settle(
                    with_top(r, FrameView { out: top.out + text, next: top.next + 1, ..top }),
                    cache,
                    now,
                ),
                SpanView::Directive(tag) => match expand_tag(tag, top.path, r.temps, r.chain) {
                    Err(e) => fail(r, cache, GroonErrorView::TagProcessing(e)),
                    Ok(target) => enter(r, cache, target, Purpose::Resolve, is_markdown(target)),
                },
            }
        }
    }
}

/// The innermost page is done and came to `page`; `anew` says whether it
/// was rendered for that. The page round it takes `page` in the place of
/// the directive that asked for it, notes the dependency, and goes on.
/// With no page round it, a dependency of the root makes way for the
/// next one, and the root ends the renderer's work.
///
/// The moves apply this to renderers with a page in work only; of one
/// without, it says that it fails.
pub open spec fn deliver(
    r: RendererView,
    cache: Map<Seq<char>, PageInfoView>,
    now: u64,
    page: HTMLFileView,
    anew: bool,
) -> Outcome
    decreases r.stack.len(), 0nat,
{
    if r.stack.len() == 0 {
        fail(r, cache, GroonErrorView::IO(Seq::<char>::empty()))
    } else if r.stack.len() == 1 {
        if r.next_dep < r.pending.len() {
            entry_next(
                RendererView {
                    stack: Seq::<FrameView>::empty(),
                    reread: r.reread || anew,
                    next_dep: r.next_dep + 1,
                    ..r
                },
                cache,
            )
        } else {
            finish(r, cache, page, anew)
        }
    } else {
        settle(folded(r, page.content), cache, now)
    }
}

/// Whether the renderer waits for `reply`. It waits for a modification
/// time after `Stat` and for a text after `Read`; a failure may be
/// reported in either case.
pub open spec fn accepts(r: RendererView, reply: ReplyView) -> bool {
    &&& !r.finished
    &&& r.stack.len() > 0
    &&& match reply {
        ReplyView::Modified(_) => r.stack.last().stage is Probing,
        ReplyView::Text(_) => r.stack.last().stage is Reading,
        ReplyView::Failed(_) => true,
    }
}

/// One move of the renderer: what it makes of `reply` at the time `now`.
///
/// A failure ends its work. A modification time decides whether the entry
/// of the probed page stands: if it does, the entry is handed on (and the
/// access noted where the page itself was wanted); if not, the text is
/// asked for. A text is rendered: Markdown by conversion, HTML by parsing
/// it and putting its spans together.
pub open spec fn step_spec(
    r: RendererView,
    cache: Map<Seq<char>, PageInfoView>,
    reply: ReplyView,
    now: u64,
) -> Outcome {
    let top = r.stack.last();
    match reply {
        ReplyView::Failed(message) => fail(r, cache, GroonErrorView::IO(message)),
        ReplyView::Modified(at) => {
            if reusable(cache, top.path, at) {
                let page = file_of(cache[top.path]);
                match top.purpose {
                    Purpose::Resolve => deliver(
                        r,
                        cache.insert(top.path, accessed(cache[top.path], now)),
                        now,
                        page,
                        false,
                    ),
                    _ => deliver(r, cache, now, page, false),
                }
            } else {
                Outcome {
                    state: with_top(r, FrameView { stage: Stage::Reading, ..top }),
                    cache,
                    request: RequestView::Read(top.path),
                }
            }
        },
        ReplyView::Text(text) => {
            if top.markdown {
                let page = plain_page(markdown_html(text));
                deliver(r, stored(cache, top.path, top.purpose, page, now), now, page, true)
            } else {
                match parse_from(text, 0, top.path) {
                    Err(e) => fail(r, cache, GroonErrorView::TagParse(e)),
                    Ok(spans) => settle(with_top(r, opened(top, spans)), cache, now),
                }
            }
        },
    }
}

/// The renderer goes on: it hands on the page that the innermost page
/// came to, or it puts the spans of the innermost page together.
pub open spec fn resume(
    r: RendererView,
    cache: Map<Seq<char>, PageInfoView>,
    now: u64,
    handed: Option<(HTMLFileView, bool)>,
) -> Outcome {
    match handed {
        Some((page, anew)) => deliver(r, cache, now, page, anew),
        None => settle(r, cache, now),
    }
}

/// A renderer that has not made a move yet.
pub open spec fn initial(
    path: Seq<char>,
    temps: Seq<char>,
    chain: Seq<Seq<char>>,
    pending: Seq<Seq<char>>,
    purpose: Purpose,
    markdown: bool,
) -> RendererView {
    RendererView {
        temps,
        root: path,
        purpose,
        markdown,
        chain,
        base: chain.len(),
        pending,
        next_dep: 0,
        reread: false,
        stack: Seq::<FrameView>::empty(),
        finished: false,
    }
}

/// The first move of the rendering of a page that a client asked for: the
/// dependencies that the cache lists for the page are brought up to date
/// first, one after the other.
pub open spec fn begin_page(
    path: Seq<char>,
    temps: Seq<char>,
    cache: Map<Seq<char>, PageInfoView>,
) -> Outcome {
    entry_next(
        initial(
            path,
            temps,
            Seq::<Seq<char>>::empty(),
            if cache.contains_key(path) {
                cache[path].dependencies
            } else {
                Seq::<Seq<char>>::empty()
            },
            Purpose::Resolve,
            false,
        ),
        cache,
    )
}

/// The first move of the work on one page for `purpose`, inside the
/// ancestor chain `chain`.
pub open spec fn begin_single(
    path: Seq<char>,
    temps: Seq<char>,
    chain: Seq<Seq<char>>,
    purpose: Purpose,
    markdown: bool,
    cache: Map<Seq<char>, PageInfoView>,
) -> Outcome {
    entry_next(
        initial(path, temps, chain, Seq::<Seq<char>>::empty(), purpose, markdown),
        cache,
    )
}

/// `r` with `frame` as its innermost page.
pub open spec fn pushed(r: RendererView, frame: FrameView) -> RendererView {
    RendererView { stack: r.stack.push(frame), ..r }
}

/// The files that the directives among `spans` name, resolved against
/// the template directory `temps`: each once, in the order of the spans.
pub open spec fn targets(spans: Seq<SpanView>, temps: Seq<char>) -> Seq<Seq<char>>
    decreases spans.len(),
{
    if spans.len() == 0 {
        Seq::<Seq<char>>::empty()
    } else {
        let before = targets(spans.drop_last(), temps);
        match spans.last() {
            SpanView::Directive(GroonTagView::Insert(target)) => with_path(
                before,
                join(temps, target),
            ),
            SpanView::Literal(_) => before,
        }
    }
}

/// The file that the page waits for: the one that its next span, a
/// directive, names.
pub open spec fn asks_for(frame: FrameView, temps: Seq<char>) -> Option<Seq<char>> {
    if frame.next < frame.spans.len() {
        match frame.spans[frame.next as int] {
            SpanView::Directive(GroonTagView::Insert(target)) => Some(join(temps, target)),
            SpanView::Literal(_) => None,
        }
    } else {
        None
    }
}

/// The files named among the first `k + 1` spans are those named among
/// the first `k`, and the one that the span `k` names.
pub proof fn lemma_targets_step(spans: Seq<SpanView>, temps: Seq<char>, k: int)
    requires
        0 <= k < spans.len(),
    ensures
        targets(spans.take(k + 1), temps) == match spans[k] {
            SpanView::Directive(GroonTagView::Insert(target)) => with_path(
                targets(spans.take(k), temps),
                join(temps, target),
            ),
            SpanView::Literal(_) => targets(spans.take(k), temps),
        },
{
    assert(spans.take(k + 1).drop_last() =~= spans.take(k));
    assert(spans.take(k + 1).last() == spans[k]);
}

/// The page `i` of the stack waits for the page that is in work inside it.
pub open spec fn waits_inside(r: RendererView, i: int) -> bool {
    asks_for(r.stack[i], r.temps) == Some(r.stack[i + 1].path)
}

/// What holds of a renderer that has a page in work. The ancestor chain
/// lists, after the chain that the renderer started with, the pages in
/// work but for the outermost, and none of these is listed twice. In
/// each page the dependencies are the files that the spans before `next`
/// name, and every page but the innermost waits at a directive, for the
/// page that is in work inside it.
pub open spec fn coherent(r: RendererView) -> bool {
    &&& !r.finished
    &&& r.stack.len() > 0
    &&& r.next_dep <= r.pending.len()
    &&& r.chain.len() == r.base + r.stack.len() - 1
    &&& forall|i: int|
        1 <= i < r.stack.len() ==> r.chain[r.base + i - 1] == (#[trigger] r.stack[i]).path
    &&& forall|i: int|
        0 <= i < r.stack.len() ==> (#[trigger] r.stack[i]).deps.no_duplicates() && r.stack[i].next
            <= r.stack[i].spans.len()
    &&& forall|i: int|
        0 <= i < r.stack.len() ==> (#[trigger] r.stack[i]).deps == targets(
            r.stack[i].spans.take(r.stack[i].next as int),
            r.temps,
        )
    &&& forall|i: int| 0 <= i < r.stack.len() - 1 ==> #[trigger] waits_inside(r, i)
    &&& forall|i: int, j: int|
        0 <= i < j < r.chain.len() && r.base <= j ==> r.chain[i] != r.chain[j]
}

/// What holds of a renderer between two moves: it is done and has no page
/// in work, or it is coherent and its innermost page waits for a reply.
pub open spec fn well_formed(r: RendererView) -> bool {
    if r.finished {
        r.stack.len() == 0
    } else {
        coherent(r) && !(r.stack.last().stage is Expanding)
    }
}

/// A set of paths stays a set when a path is put into it.
pub proof fn lemma_with_path(deps: Seq<Seq<char>>, path: Seq<char>)
    requires
        deps.no_duplicates(),
    ensures
        with_path(deps, path).no_duplicates(),
{
    if !deps.contains(path) {
        let more = deps.push(path);
        assert forall|i: int, j: int| 0 <= i < more.len() && 0 <= j < more.len() && i != j implies more[i]
            != more[j] by {
            if i == deps.len() && more[j] == path {
                assert(deps.contains(path));
            }
            if j == deps.len() && more[i] == path {
                assert(deps.contains(path));
            }
        }
    }
}

/// What holds of the pages of `next` holds of them in `r`, where `next`
/// is `r` but for the innermost page, which keeps its path and has its
/// dependencies in order.
proof fn lemma_same_below(r: RendererView, next: RendererView)
    requires
        coherent(r),
        next.stack.len() == r.stack.len(),
        next.stack.drop_last() == r.stack.drop_last(),
        next.stack.last().path == r.stack.last().path,
        next.stack.last().deps.no_duplicates(),
        next.stack.last().next <= next.stack.last().spans.len(),
        next.stack.last().deps == targets(
            next.stack.last().spans.take(next.stack.last().next as int),
            r.temps,
        ),
        next == (RendererView { stack: next.stack, ..r }),
    ensures
        coherent(next),
{
    assert forall|i: int| 0 <= i < next.stack.len() - 1 implies #[trigger] next.stack[i]
        == r.stack[i] by {
        assert(next.stack.drop_last()[i] == next.stack[i]);
        assert(r.stack.drop_last()[i] == r.stack[i]);
    }
    assert forall|i: int| 1 <= i < next.stack.len() implies next.chain[next.base + i - 1] == (
    #[trigger] next.stack[i]).path by {
        assert(next.stack[i].path == r.stack[i].path);
    }
    assert forall|i: int| 0 <= i < next.stack.len() implies (#[trigger] next.stack[i]).deps
        == targets(next.stack[i].spans.take(next.stack[i].next as int), next.temps) by {
        if i < next.stack.len() - 1 {
            assert(next.stack[i] == r.stack[i]);
        }
    }
    assert forall|i: int| 0 <= i < next.stack.len() implies (#[trigger] next.stack[i]).deps.no_duplicates()
        && next.stack[i].next <= next.stack[i].spans.len() by {
        if i < next.stack.len() - 1 {
            assert(next.stack[i] == r.stack[i]);
        }
    }
    assert forall|i: int| 0 <= i < next.stack.len() - 1 implies #[trigger] waits_inside(
        next,
        i,
    ) by {
        assert(waits_inside(r, i));
        assert(next.stack[i] == r.stack[i]);
        assert(next.stack[i + 1].path == r.stack[i + 1].path);
    }
}

/// A coherent renderer stays coherent when a literal span goes into the
/// output of its innermost page.
pub proof fn lemma_literal_coherent(r: RendererView, text: Seq<char>)
    requires
        coherent(r),
        r.stack.last().next < r.stack.last().spans.len(),
        r.stack.last().spans[r.stack.last().next as int] == SpanView::Literal(text),
    ensures
        coherent(
            with_top(
                r,
                FrameView {
                    out: r.stack.last().out + text,
                    next: r.stack.last().next + 1,
                    ..r.stack.last()
                },
            ),
        ),
{
    let top = r.stack.last();
    let next = with_top(r, FrameView { out: top.out + text, next: top.next + 1, ..top });
    lemma_targets_step(top.spans, r.temps, top.next as int);
    assert(next.stack.drop_last() =~= r.stack.drop_last());
    lemma_same_below(r, next);
}

/// A coherent renderer stays coherent when its innermost page is handed
/// to the page round it.
pub proof fn lemma_folded_coherent(r: RendererView, content: Seq<char>)
    requires
        coherent(r),
        r.stack.len() >= 2,
    ensures
        coherent(folded(r, content)),
{
    let next = folded(r, content);
    let parent = r.stack.drop_last().last();
    let at = r.stack.len() - 2;
    assert(parent == r.stack[at]);
    assert(waits_inside(r, at));
    lemma_with_path(parent.deps, r.stack.last().path);
    lemma_targets_step(parent.spans, r.temps, parent.next as int);
    assert forall|i: int| 0 <= i < next.stack.len() - 1 implies #[trigger] next.stack[i]
        == r.stack[i] by {}
    assert forall|i: int| 1 <= i < next.stack.len() implies next.chain[next.base + i - 1] == (
    #[trigger] next.stack[i]).path by {
        assert(next.stack[i].path == r.stack[i].path);
    }
    assert forall|i: int| 0 <= i < next.stack.len() implies (#[trigger] next.stack[i]).deps
        == targets(next.stack[i].spans.take(next.stack[i].next as int), next.temps) by {
        if i < next.stack.len() - 1 {
            assert(next.stack[i] == r.stack[i]);
        }
    }
    assert forall|i: int| 0 <= i < next.stack.len() implies (#[trigger] next.stack[i]).deps.no_duplicates()
        && next.stack[i].next <= next.stack[i].spans.len() by {
        if i < next.stack.len() - 1 {
            assert(next.stack[i] == r.stack[i]);
        }
    }
    assert forall|i: int| 0 <= i < next.stack.len() - 1 implies #[trigger] waits_inside(
        next,
        i,
    ) by {
        assert(waits_inside(r, i));
        assert(next.stack[i] == r.stack[i]);
        assert(next.stack[i + 1].path == r.stack[i + 1].path);
    }
    assert forall|i: int, j: int| 0 <= i < j < next.chain.len() && next.base <= j implies next.chain[i]
        != next.chain[j] by {
        assert(next.chain[i] == r.chain[i] && next.chain[j] == r.chain[j]);
    }
}

/// A coherent renderer is well formed after it has taken up the file
/// that the next span of its innermost page names, where that file is not
/// on its ancestor chain.
pub proof fn lemma_enter_well_formed(
    r: RendererView,
    cache: Map<Seq<char>, PageInfoView>,
    target: Seq<char>,
    markdown: bool,
)
    requires
        coherent(r),
        asks_for(r.stack.last(), r.temps) == Some(target),
        !r.chain.contains(target),
    ensures
        well_formed(enter(r, cache, target, Purpose::Resolve, markdown).state),
{
    let next = enter(r, cache, target, Purpose::Resolve, markdown).state;
    assert forall|i: int, j: int| 0 <= i < j < next.chain.len() && next.base <= j implies next.chain[i]
        != next.chain[j] by {
        if j == r.chain.len() {
            if r.chain[i] == target {
                assert(r.chain.contains(target));
            }
        }
    }
    assert forall|i: int| 0 <= i < next.stack.len() - 1 implies #[trigger] next.stack[i]
        == r.stack[i] by {}
    assert(next.stack.last().spans.take(0) =~= Seq::<SpanView>::empty());
    assert forall|i: int| 0 <= i < next.stack.len() implies (#[trigger] next.stack[i]).deps
        == targets(next.stack[i].spans.take(next.stack[i].next as int), next.temps) by {
        if i < next.stack.len() - 1 {
            assert(next.stack[i] == r.stack[i]);
        }
    }
    assert forall|i: int| 0 <= i < next.stack.len() implies (#[trigger] next.stack[i]).deps.no_duplicates()
        && next.stack[i].next <= next.stack[i].spans.len() by {
        if i < r.stack.len() {
            assert(next.stack[i] == r.stack[i]);
        }
    }
    assert forall|i: int| 0 <= i < next.stack.len() - 1 implies #[trigger] waits_inside(
        next,
        i,
    ) by {
        assert(next.stack[i] == r.stack[i]);
        if i + 1 < r.stack.len() {
            assert(waits_inside(r, i));
            assert(next.stack[i + 1] == r.stack[i + 1]);
        }
    }
    assert forall|i: int| 1 <= i < next.stack.len() implies next.chain[next.base + i - 1] == (
    #[trigger] next.stack[i]).path by {
        if i < r.stack.len() {
            assert(next.stack[i] == r.stack[i]);
        }
    }
    assert(next.stack[0] == r.stack[0]);
}

/// A renderer with no page in work is well formed after it has taken up
/// the next dependency of the root, or the root.
pub proof fn lemma_entry_next_well_formed(r: RendererView, cache: Map<Seq<char>, PageInfoView>)
    requires
        !r.finished,
        r.stack.len() == 0,
        r.chain.len() == r.base,
        r.next_dep <= r.pending.len(),
    ensures
        well_formed(entry_next(r, cache).state),
{
    let next = entry_next(r, cache).state;
    assert(next.stack.last().spans.take(0) =~= Seq::<SpanView>::empty());
}

/// Handing a page on does not depend on the output that the page itself
/// still holds: the output may be taken out of it before.
pub proof fn lemma_output_taken(
    r: RendererView,
    cache: Map<Seq<char>, PageInfoView>,
    now: u64,
    page: HTMLFileView,
    left: Seq<char>,
)
    requires
        coherent(r),
    ensures
        coherent(with_top(r, FrameView { out: left, ..r.stack.last() })),
        deliver(with_top(r, FrameView { out: left, ..r.stack.last() }), cache, now, page, true)
            == deliver(r, cache, now, page, true),
{
    let next = with_top(r, FrameView { out: left, ..r.stack.last() });
    assert(next.stack.drop_last() =~= r.stack.drop_last());
    lemma_same_below(r, next);
    if r.stack.len() == 1 {
        assert(next.stack.drop_last() =~= Seq::<FrameView>::empty());
    }
}

/// A coherent renderer stays coherent when its innermost page goes on to
/// another stage.
pub proof fn lemma_stage_coherent(r: RendererView, stage: Stage)
    requires
        coherent(r),
    ensures
        coherent(with_top(r, FrameView { stage, ..r.stack.last() })),
{
    let next = with_top(r, FrameView { stage, ..r.stack.last() });
    assert(next.stack.drop_last() =~= r.stack.drop_last());
    lemma_same_below(r, next);
}

/// A coherent renderer stays coherent when the text of its innermost page
/// is parsed.
pub proof fn lemma_opened_coherent(r: RendererView, spans: Seq<SpanView>)
    requires
        coherent(r),
    ensures
        coherent(with_top(r, opened(r.stack.last(), spans))),
{
    let next = with_top(r, opened(r.stack.last(), spans));
    assert(next.stack.drop_last() =~= r.stack.drop_last());
    assert(spans.take(0) =~= Seq::<SpanView>::empty());
    lemma_same_below(r, next);
}

} // verus!
