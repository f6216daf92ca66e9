//! What holds of every rendering: theorems about the moves of the
//! renderer, stated over its mathematical model.

use vstd::prelude::*;
use crate::cache::{accessed, file_of, HTMLFileView, PageInfoView};
use crate::errors::{GroonErrorView, TagParseErrorView, TagProcessingErrorView};
use crate::markup::{markdown_html, plain_page};
use crate::parse::{parse_from, GroonTagView, SpanView};
use crate::path::{file_name, is_markdown, join};
use crate::model::{
    accepts, begin_page, coherent, deliver, entry_next, expand_tag, fail, finish, folded, initial,
    lemma_enter_well_formed, lemma_entry_next_well_formed, lemma_folded_coherent,
    lemma_literal_coherent, lemma_opened_coherent, lemma_stage_coherent, opened, reusable, settle,
    spans_left, step_spec, stored, targets, well_formed, with_top, FrameView, Outcome, Purpose,
    RendererView, ReplyView, RequestView, Stage,
};

verus! {

/// Where the next directive of the innermost page cannot be carried out,
/// the rendering fails with the reason, and the cache stays as it is. The
/// literal spans before the directive make no difference.
pub proof fn lemma_failing_directive(
    r: RendererView,
    cache: Map<Seq<char>, PageInfoView>,
    now: u64,
    k: int,
    e: TagProcessingErrorView,
)
    requires
        r.stack.len() > 0,
        r.stack.last().next <= k < r.stack.last().spans.len(),
        forall|j: int| r.stack.last().next <= j < k ==> r.stack.last().spans[j] is Literal,
        r.stack.last().spans[k] matches SpanView::Directive(tag) && expand_tag(
            tag,
            r.stack.last().path,
            r.temps,
            r.chain,
        ) == Err::<Seq<char>, TagProcessingErrorView>(e),
    ensures
        settle(r, cache, now) == fail(r, cache, GroonErrorView::TagProcessing(e)),
    decreases k - r.stack.last().next,
{
    let top = r.stack.last();
    if top.next < k {
        match top.spans[top.next as int] {
            SpanView::Literal(text) => {
                let moved = with_top(
                    r,
                    FrameView { out: top.out + text, next: top.next + 1, ..top },
                );
                assert(moved.stack.last().spans == top.spans);
                lemma_failing_directive(moved, cache, now, k, e);
                assert(fail(moved, cache, GroonErrorView::TagProcessing(e)) == fail(
                    r,
                    cache,
                    GroonErrorView::TagProcessing(e),
                ));
            },
            SpanView::Directive(_) => {},
        }
    }
}

/// Self-reference. A page whose first directive names a file of the
/// page's own name is not rendered: the move that takes its text fails
/// with that name, and leaves the cache as it was.
pub proof fn lemma_self_reference_fails(
    r: RendererView,
    cache: Map<Seq<char>, PageInfoView>,
    text: Seq<char>,
    now: u64,
    spans: Seq<SpanView>,
    k: int,
    target: Seq<char>,
)
    requires
        r.stack.len() > 0,
        !r.stack.last().markdown,
        parse_from(text, 0, r.stack.last().path) == Ok::<Seq<SpanView>, TagParseErrorView>(spans),
        0 <= k < spans.len(),
        forall|j: int| 0 <= j < k ==> spans[j] is Literal,
        spans[k] == SpanView::Directive(GroonTagView::Insert(target)),
        file_name(target) == file_name(r.stack.last().path),
    ensures
        step_spec(r, cache, ReplyView::Text(text), now) == fail(
            r,
            cache,
            GroonErrorView::TagProcessing(TagProcessingErrorView::SelfRefelercial(target)),
        ),
{
    let e = TagProcessingErrorView::SelfRefelercial(target);
    let begun = with_top(r, opened(r.stack.last(), spans));
    lemma_failing_directive(begun, cache, now, k, e);
    assert(fail(begun, cache, GroonErrorView::TagProcessing(e)) == fail(
        r,
        cache,
        GroonErrorView::TagProcessing(e),
    ));
}

/// Cycle detection. Where the next directive of the innermost page names
/// a page that is in work round it (the outermost apart), the rendering
/// fails and names both pages, unless the directive fails already for
/// naming a file of the page's own name.
pub proof fn lemma_cycle_fails(
    r: RendererView,
    cache: Map<Seq<char>, PageInfoView>,
    now: u64,
    i: int,
    target: Seq<char>,
)
    requires
        coherent(r),
        1 <= i < r.stack.len(),
        r.stack.last().next < r.stack.last().spans.len(),
        r.stack.last().spans[r.stack.last().next as int] == SpanView::Directive(
            GroonTagView::Insert(target),
        ),
        join(r.temps, target) == r.stack[i].path,
        file_name(target) != file_name(r.stack.last().path),
    ensures
        settle(r, cache, now) == fail(
            r,
            cache,
            GroonErrorView::TagProcessing(
                TagProcessingErrorView::DependencyCycle {
                    file: r.stack.last().path,
                    dep: r.stack[i].path,
                },
            ),
        ),
{
    assert(r.chain[r.base + i - 1] == r.stack[i].path);
    assert(r.chain.contains(r.stack[i].path));
}

/// No page is in work inside itself: the pages in work, the outermost
/// apart, have paths that differ from each other, so that the pages in
/// work cannot grow in number without end over the same files.
pub proof fn lemma_pages_in_work_differ(r: RendererView, i: int, j: int)
    requires
        well_formed(r),
        1 <= i < j < r.stack.len(),
    ensures
        r.stack[i].path != r.stack[j].path,
{
    assert(r.chain[r.base + i - 1] == r.stack[i].path);
    assert(r.chain[r.base + j - 1] == r.stack[j].path);
}

/// The file that `span` names, where it is a directive.
pub open spec fn named_by(span: SpanView, temps: Seq<char>) -> Option<Seq<char>> {
    match span {
        SpanView::Directive(GroonTagView::Insert(target)) => Some(join(temps, target)),
        SpanView::Literal(_) => None,
    }
}

/// A path is among the files that spans name exactly when one of the
/// spans is a directive that names it.
pub proof fn lemma_targets_contains(spans: Seq<SpanView>, temps: Seq<char>, path: Seq<char>)
    ensures
        targets(spans, temps).contains(path) <==> exists|k: int|
            0 <= k < spans.len() && #[trigger] named_by(spans[k], temps) == Some(path),
    decreases spans.len(),
{
    if spans.len() > 0 {
        let before = spans.drop_last();
        lemma_targets_contains(before, temps, path);
        let last = spans.len() - 1;
        let all = targets(spans, temps);
        let most = targets(before, temps);
        if all.contains(path) {
            if most.contains(path) {
                let k = choose|k: int|
                    0 <= k < before.len() && #[trigger] named_by(before[k], temps) == Some(path);
                assert(spans[k] == before[k]);
                assert(named_by(spans[k], temps) == Some(path));
            } else {
                let at = choose|at: int| 0 <= at < all.len() && all[at] == path;
                if at < most.len() {
                    assert(most[at] == path);
                    assert(most.contains(path));
                }
                assert(named_by(spans[last], temps) == Some(path));
            }
        }
        if exists|k: int|
            0 <= k < spans.len() && #[trigger] named_by(spans[k], temps) == Some(path) {
            let k = choose|k: int|
                0 <= k < spans.len() && #[trigger] named_by(spans[k], temps) == Some(path);
            if k < last {
                assert(before[k] == spans[k]);
                assert(named_by(before[k], temps) == Some(path));
                assert(most.contains(path));
                let at = choose|at: int| 0 <= at < most.len() && most[at] == path;
                assert(all[at] == path);
            } else {
                if !most.contains(path) {
                    assert(all[all.len() - 1] == path);
                }
            }
        }
    }
}

/// Direct dependencies only. When the last span of the innermost page is
/// in its output, the page is stored and handed on with the dependencies
/// that its own directives name, and no others: not those that the pages
/// it inserts name.
pub proof fn lemma_dependencies_are_direct(
    r: RendererView,
    cache: Map<Seq<char>, PageInfoView>,
    now: u64,
)
    requires
        coherent(r),
        r.stack.last().next >= r.stack.last().spans.len(),
        !(r.stack.last().purpose is Expand),
    ensures
        r.stack.last().deps == targets(r.stack.last().spans, r.temps),
        stored(
            cache,
            r.stack.last().path,
            r.stack.last().purpose,
            HTMLFileView {
                content: r.stack.last().out,
                dependencies: r.stack.last().deps,
            },
            now,
        )[r.stack.last().path].dependencies == targets(r.stack.last().spans, r.temps),
        settle(r, cache, now) == deliver(
            r,
            stored(
                cache,
                r.stack.last().path,
                r.stack.last().purpose,
                HTMLFileView {
                    content: r.stack.last().out,
                    dependencies: targets(r.stack.last().spans, r.temps),
                },
                now,
            ),
            now,
            HTMLFileView {
                content: r.stack.last().out,
                dependencies: targets(r.stack.last().spans, r.temps),
            },
            true,
        ),
{
    let top = r.stack.last();
    assert(r.stack[r.stack.len() - 1] == top);
    assert(top.spans.take(top.next as int) =~= top.spans);
}

/// What a rendering stores is what a later one serves: the entry that
/// a page is stored in holds that page, and stands for the file as long as
/// the file was last modified before the rendering.
pub proof fn lemma_stored_page_is_reusable(
    cache: Map<Seq<char>, PageInfoView>,
    path: Seq<char>,
    purpose: Purpose,
    page: HTMLFileView,
    now: u64,
    modified: u64,
)
    requires
        !(purpose is Expand),
    ensures
        file_of(stored(cache, path, purpose, page, now)[path]) == page,
        reusable(stored(cache, path, purpose, page, now), path, modified) <==> modified < now,
{
}

/// A fresh entry is served. Where the only page in work is wanted for
/// itself and its entry stands for the file, the rendering ends with the
/// page that the entry holds. No text is asked for, and the cache changes
/// in nothing but the note of the access.
pub proof fn lemma_fresh_entry_is_served(
    r: RendererView,
    cache: Map<Seq<char>, PageInfoView>,
    at: u64,
    now: u64,
)
    requires
        r.stack.len() == 1,
        r.next_dep >= r.pending.len(),
        r.stack.last().purpose is Resolve,
        reusable(cache, r.stack.last().path, at),
    ensures
        step_spec(r, cache, ReplyView::Modified(at), now) == finish(
            r,
            cache.insert(r.stack.last().path, accessed(cache[r.stack.last().path], now)),
            file_of(cache[r.stack.last().path]),
            false,
        ),
{
}

/// A fresh dependency is left alone. Where the page in work is a
/// dependency of the root that is brought up to date and its entry stands
/// for the file, the cache stays as it is and the renderer goes on to the
/// next dependency, or to the root.
pub proof fn lemma_fresh_dependency_is_kept(
    r: RendererView,
    cache: Map<Seq<char>, PageInfoView>,
    at: u64,
    now: u64,
)
    requires
        r.stack.len() == 1,
        r.next_dep < r.pending.len(),
        r.stack.last().purpose is Refresh,
        reusable(cache, r.stack.last().path, at),
    ensures
        step_spec(r, cache, ReplyView::Modified(at), now) == entry_next(
            RendererView {
                stack: Seq::<FrameView>::empty(),
                next_dep: r.next_dep + 1,
                ..r
            },
            cache,
        ),
{
}

/// The moves of a renderer whose every request for a modification time
/// is answered with what `times` says of the file, up to the first
/// request of another kind, and at most `fuel` moves.
pub open spec fn probe_all(
    o: Outcome,
    times: spec_fn(Seq<char>) -> u64,
    now: u64,
    fuel: nat,
) -> Outcome
    decreases fuel,
{
    match o.request {
        RequestView::Stat(path) => {
            if fuel == 0 {
                o
            } else {
                probe_all(
                    step_spec(o.state, o.cache, ReplyView::Modified(times(path)), now),
                    times,
                    now,
                    (fuel - 1) as nat,
                )
            }
        },
        _ => o,
    }
}

/// The renderer that has brought `k` dependencies of `path` up to date
/// without rendering any.
pub open spec fn after_fresh(
    path: Seq<char>,
    temps: Seq<char>,
    pending: Seq<Seq<char>>,
    k: nat,
) -> RendererView {
    RendererView {
        next_dep: k,
        ..initial(path, temps, Seq::empty(), pending, Purpose::Resolve, false)
    }
}

/// The renderer that has brought `k` dependencies up to date without
/// rendering any asks for the modification time of the next one. Where
/// the entry of that one stands for its file too, the renderer is then
/// one dependency further on, and the cache as it was.
proof fn lemma_probe_dependency(
    path: Seq<char>,
    temps: Seq<char>,
    cache: Map<Seq<char>, PageInfoView>,
    at: u64,
    now: u64,
    k: nat,
)
    requires
        k < cache[path].dependencies.len(),
        reusable(cache, cache[path].dependencies[k as int], at),
    ensures
        entry_next(after_fresh(path, temps, cache[path].dependencies, k), cache).request
            == RequestView::Stat(cache[path].dependencies[k as int]),
        entry_next(after_fresh(path, temps, cache[path].dependencies, k), cache).cache == cache,
        step_spec(
            entry_next(after_fresh(path, temps, cache[path].dependencies, k), cache).state,
            cache,
            ReplyView::Modified(at),
            now,
        ) == entry_next(after_fresh(path, temps, cache[path].dependencies, k + 1), cache),
{
    let pending = cache[path].dependencies;
    let first = entry_next(after_fresh(path, temps, pending, k), cache);
    lemma_fresh_dependency_is_kept(first.state, cache, at, now);
    let emptied = RendererView {
        stack: Seq::<FrameView>::empty(),
        next_dep: first.state.next_dep + 1,
        ..first.state
    };
    assert(emptied == after_fresh(path, temps, pending, k + 1));
}

/// The renderer that has brought all dependencies up to date without
/// rendering any asks for the modification time of the root. Where the
/// entry of the root stands for its file, the renderer then ends with the
/// page that the entry holds.
proof fn lemma_probe_root(
    path: Seq<char>,
    temps: Seq<char>,
    cache: Map<Seq<char>, PageInfoView>,
    at: u64,
    now: u64,
)
    requires
        reusable(cache, path, at),
    ensures
        ({
            let first = entry_next(
                after_fresh(
                    path,
                    temps,
                    cache[path].dependencies,
                    cache[path].dependencies.len(),
                ),
                cache,
            );
            let end = step_spec(first.state, cache, ReplyView::Modified(at), now);
            &&& first.request == RequestView::Stat(path)
            &&& first.cache == cache
            &&& end.request == RequestView::Done(file_of(cache[path]))
            &&& end.cache == cache.insert(path, accessed(cache[path], now))
        }),
{
    let pending = cache[path].dependencies;
    let first = entry_next(after_fresh(path, temps, pending, pending.len()), cache);
    lemma_fresh_entry_is_served(first.state, cache, at, now);
}

/// Idempotence, from the dependency `k` on.
proof fn lemma_unchanged_from(
    path: Seq<char>,
    temps: Seq<char>,
    cache: Map<Seq<char>, PageInfoView>,
    times: spec_fn(Seq<char>) -> u64,
    now: u64,
    k: nat,
)
    requires
        reusable(cache, path, times(path)),
        forall|i: int|
            0 <= i < cache[path].dependencies.len() ==> reusable(
                cache,
                #[trigger] cache[path].dependencies[i],
                times(cache[path].dependencies[i]),
            ),
        k <= cache[path].dependencies.len(),
    ensures
        ({
            let end = probe_all(
                entry_next(after_fresh(path, temps, cache[path].dependencies, k), cache),
                times,
                now,
                (cache[path].dependencies.len() - k + 1) as nat,
            );
            &&& end.request == RequestView::Done(file_of(cache[path]))
            &&& end.cache == cache.insert(path, accessed(cache[path], now))
        }),
    decreases cache[path].dependencies.len() - k,
{
    let pending = cache[path].dependencies;
    let first = entry_next(after_fresh(path, temps, pending, k), cache);
    let fuel = (pending.len() - k + 1) as nat;
    if k < pending.len() {
        let dep = pending[k as int];
        lemma_probe_dependency(path, temps, cache, times(dep), now, k);
        lemma_unchanged_from(path, temps, cache, times, now, k + 1);
        let next = entry_next(after_fresh(path, temps, pending, k + 1), cache);
        assert(probe_all(first, times, now, fuel) == probe_all(
            next,
            times,
            now,
            (fuel - 1) as nat,
        ));
    } else {
        lemma_probe_root(path, temps, cache, times(path), now);
        let end = step_spec(first.state, cache, ReplyView::Modified(times(path)), now);
        assert(probe_all(end, times, now, 0) == end);
        assert(probe_all(first, times, now, fuel) == probe_all(end, times, now, 0));
    }
}

/// Idempotence. A page whose entry and whose dependencies' entries stand
/// for their files is rendered without reading a text: the renderer asks
/// for modification times only, ends with the page that the entry of the
/// page holds, and changes nothing in the cache but the note of the
/// access to the page. So two renderings in a row, with no file changed
/// between them, give the same page.
pub proof fn lemma_unchanged_page_is_not_read(
    path: Seq<char>,
    temps: Seq<char>,
    cache: Map<Seq<char>, PageInfoView>,
    times: spec_fn(Seq<char>) -> u64,
    now: u64,
)
    requires
        reusable(cache, path, times(path)),
        forall|i: int|
            0 <= i < cache[path].dependencies.len() ==> reusable(
                cache,
                #[trigger] cache[path].dependencies[i],
                times(cache[path].dependencies[i]),
            ),
    ensures
        ({
            let end = probe_all(
                begin_page(path, temps, cache),
                times,
                now,
                cache[path].dependencies.len() + 1,
            );
            &&& end.request == RequestView::Done(file_of(cache[path]))
            &&& end.cache == cache.insert(path, accessed(cache[path], now))
        }),
{
    lemma_unchanged_from(path, temps, cache, times, now, 0);
    assert(after_fresh(path, temps, cache[path].dependencies, 0) == initial(
        path,
        temps,
        Seq::empty(),
        cache[path].dependencies,
        Purpose::Resolve,
        false,
    ));
}

/// Invalidation, first part. Where the entry of the probed page does not
/// stand for the file, because the file was modified at or after the time
/// of the entry, or because there is no usable entry, the text of the
/// file is asked for, and nothing else happens.
pub proof fn lemma_outdated_entry_is_read_again(
    r: RendererView,
    cache: Map<Seq<char>, PageInfoView>,
    at: u64,
    now: u64,
)
    requires
        r.stack.len() > 0,
        !reusable(cache, r.stack.last().path, at),
    ensures
        step_spec(r, cache, ReplyView::Modified(at), now).request == RequestView::Read(
            r.stack.last().path,
        ),
        step_spec(r, cache, ReplyView::Modified(at), now).cache == cache,
{
}

/// Invalidation, second part. Once a dependency of the root was rendered
/// anew, the root is rendered anew as well: the renderer remembers it
/// while it brings the other dependencies up to date, and after the last
/// of them it asks for the text of the root, whatever the entry of the
/// root says.
pub proof fn lemma_rendered_dependency_renders_root(
    r: RendererView,
    cache: Map<Seq<char>, PageInfoView>,
    now: u64,
    page: HTMLFileView,
    anew: bool,
)
    requires
        r.stack.len() == 1,
        r.next_dep < r.pending.len(),
        anew || r.reread,
    ensures
        deliver(r, cache, now, page, anew).state.reread,
        r.next_dep + 1 >= r.pending.len() ==> deliver(r, cache, now, page, anew).request
            == RequestView::Read(r.root),
        deliver(r, cache, now, page, anew).cache == cache,
{
}

/// A coherent renderer is well formed after it has put the spans of its
/// innermost page together as far as it can.
pub proof fn lemma_settle_well_formed(
    r: RendererView,
    cache: Map<Seq<char>, PageInfoView>,
    now: u64,
)
    requires
        coherent(r),
    ensures
        well_formed(settle(r, cache, now).state),
    decreases r.stack.len(), 1 + spans_left(r),
{
    let top = r.stack.last();
    if top.next >= top.spans.len() {
        let page = HTMLFileView { content: top.out, dependencies: top.deps };
        lemma_deliver_well_formed(
            r,
            stored(cache, top.path, top.purpose, page, now),
            now,
            page,
            true,
        );
    } else {
        match top.spans[top.next as int] {
            SpanView::Literal(text) => {
                lemma_literal_coherent(r, text);
                lemma_settle_well_formed(
                    with_top(r, FrameView { out: top.out + text, next: top.next + 1, ..top }),
                    cache,
                    now,
                );
            },
            SpanView::Directive(tag) => {
                match expand_tag(tag, top.path, r.temps, r.chain) {
                    Err(_) => {},
                    Ok(target) => {
                        lemma_enter_well_formed(
                            r,
                            cache,
                            target,
                            is_markdown(target),
                        );
                    },
                }
            },
        }
    }
}

/// A coherent renderer is well formed after it has handed on the page
/// that its innermost page came to.
pub proof fn lemma_deliver_well_formed(
    r: RendererView,
    cache: Map<Seq<char>, PageInfoView>,
    now: u64,
    page: HTMLFileView,
    anew: bool,
)
    requires
        coherent(r),
    ensures
        well_formed(deliver(r, cache, now, page, anew).state),
    decreases r.stack.len(), 0nat,
{
    if r.stack.len() == 1 {
        if r.next_dep < r.pending.len() {
            lemma_entry_next_well_formed(
                RendererView {
                    stack: Seq::<FrameView>::empty(),
                    reread: r.reread || anew,
                    next_dep: r.next_dep + 1,
                    ..r
                },
                cache,
            );
        }
    } else {
        lemma_folded_coherent(r, page.content);
        lemma_settle_well_formed(folded(r, page.content), cache, now);
    }
}

/// The moves keep a renderer well formed: whatever the cache holds and
/// whatever is replied, a well-formed renderer that waits for the reply
/// is well formed after the move.
pub proof fn lemma_step_well_formed(
    r: RendererView,
    cache: Map<Seq<char>, PageInfoView>,
    reply: ReplyView,
    now: u64,
)
    requires
        well_formed(r),
        accepts(r, reply),
    ensures
        well_formed(step_spec(r, cache, reply, now).state),
{
    let top = r.stack.last();
    match reply {
        ReplyView::Failed(_) => {},
        ReplyView::Modified(at) => {
            if reusable(cache, top.path, at) {
                let page = file_of(cache[top.path]);
                lemma_deliver_well_formed(
                    r,
                    cache.insert(top.path, accessed(cache[top.path], now)),
                    now,
                    page,
                    false,
                );
                lemma_deliver_well_formed(r, cache, now, page, false);
            } else {
                lemma_stage_coherent(r, Stage::Reading);
            }
        },
        ReplyView::Text(text) => {
            if top.markdown {
                let page = plain_page(markdown_html(text));
                lemma_deliver_well_formed(
                    r,
                    stored(cache, top.path, top.purpose, page, now),
                    now,
                    page,
                    true,
                );
            } else {
                match parse_from(text, 0, top.path) {
                    Err(_) => {},
                    Ok(spans) => {
                        lemma_opened_coherent(r, spans);
                        lemma_settle_well_formed(with_top(r, opened(top, spans)), cache, now);
                    },
                }
            }
        },
    }
}

/// No entry leaves the cache while the spans of a page are put together.
pub proof fn lemma_settle_keeps_entries(
    r: RendererView,
    cache: Map<Seq<char>, PageInfoView>,
    now: u64,
    path: Seq<char>,
)
    requires
        cache.contains_key(path),
    ensures
        settle(r, cache, now).cache.contains_key(path),
    decreases r.stack.len(), 1 + spans_left(r),
{
    if r.stack.len() > 0 {
        let top = r.stack.last();
        if top.next >= top.spans.len() {
            let page = HTMLFileView { content: top.out, dependencies: top.deps };
            lemma_deliver_keeps_entries(
                r,
                stored(cache, top.path, top.purpose, page, now),
                now,
                page,
                true,
                path,
            );
        } else {
            match top.spans[top.next as int] {
                SpanView::Literal(text) => {
                    lemma_settle_keeps_entries(
                        with_top(r, FrameView { out: top.out + text, next: top.next + 1, ..top }),
                        cache,
                        now,
                        path,
                    );
                },
                SpanView::Directive(_) => {},
            }
        }
    }
}

/// No entry leaves the cache while a page is handed on.
pub proof fn lemma_deliver_keeps_entries(
    r: RendererView,
    cache: Map<Seq<char>, PageInfoView>,
    now: u64,
    page: HTMLFileView,
    anew: bool,
    path: Seq<char>,
)
    requires
        cache.contains_key(path),
    ensures
        deliver(r, cache, now, page, anew).cache.contains_key(path),
    decreases r.stack.len(), 0nat,
{
    if r.stack.len() > 1 {
        lemma_settle_keeps_entries(folded(r, page.content), cache, now, path);
    }
}

/// No entry is ever removed: every path that has an entry before a move
/// has one after it.
pub proof fn lemma_step_keeps_entries(
    r: RendererView,
    cache: Map<Seq<char>, PageInfoView>,
    reply: ReplyView,
    now: u64,
    path: Seq<char>,
)
    requires
        cache.contains_key(path),
    ensures
        step_spec(r, cache, reply, now).cache.contains_key(path),
{
    let top = r.stack.last();
    match reply {
        ReplyView::Failed(_) => {},
        ReplyView::Modified(at) => {
            if reusable(cache, top.path, at) {
                let page = file_of(cache[top.path]);
                lemma_deliver_keeps_entries(
                    r,
                    cache.insert(top.path, accessed(cache[top.path], now)),
                    now,
                    page,
                    false,
                    path,
                );
                lemma_deliver_keeps_entries(r, cache, now, page, false, path);
            }
        },
        ReplyView::Text(text) => {
            if top.markdown {
                let page = plain_page(markdown_html(text));
                lemma_deliver_keeps_entries(
                    r,
                    stored(cache, top.path, top.purpose, page, now),
                    now,
                    page,
                    true,
                    path,
                );
            } else {
                match parse_from(text, 0, top.path) {
                    Err(_) => {},
                    Ok(spans) => {
                        lemma_settle_keeps_entries(
                            with_top(r, opened(top, spans)),
                            cache,
                            now,
                            path,
                        );
                    },
                }
            }
        },
    }
}

/// A rendering stores one page: the cache after it differs from the
/// cache before in the entry of the rendered page at most.
pub proof fn lemma_stored_changes_one_entry(
    cache: Map<Seq<char>, PageInfoView>,
    path: Seq<char>,
    purpose: Purpose,
    page: HTMLFileView,
    now: u64,
    other: Seq<char>,
)
    requires
        other != path,
    ensures
        stored(cache, path, purpose, page, now).contains_key(other) == cache.contains_key(other),
        stored(cache, path, purpose, page, now)[other] == cache[other],
{
}

} // verus!
