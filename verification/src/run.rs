//! A whole build run: the steps of every post in their order, for what the
//! work outside the library gave, and what the run leaves in the cache.

use vstd::prelude::*;
use crate::cache::{content_digest, is_stale, BuildCache, EntryModel};
use crate::metadata::MetadataCache;
use crate::parallel::{BuildResult, SkipReason};
use crate::pipeline::{
    aggregate_results, built_once, built_path, entries_after, failed, is_built, is_error,
    is_skipped, lemma_built_files_are_fresh, lemma_unbuilt_files_keep_entry, posts_after, skipped,
    BuildSummary, Hooks, Progress, Unread,
};
use crate::renderer::Renderer;
use crate::select::kept;
use crate::types::Post;

verus! {

/// What the work outside the library gives for one post: its source as
/// read, the post parsed from the source, the post's body with its
/// shortcodes expanded, and the path that its page was written to. Each
/// piece of work may have failed with a message.
pub struct PostWork {
    pub path: String,
    pub source: Result<Vec<u8>, String>,
    pub post: Result<Post, String>,
    pub expanded: Result<String, String>,
    pub written: Result<String, String>,
}

/// The outcome for a post that was built: it names the source, its digest
/// and that of the templates, the post and the page written.
pub open spec fn built(
    path: Seq<char>,
    file_hash: Seq<char>,
    template_hash: Seq<char>,
    post: Post,
    output: Seq<char>,
    result: BuildResult,
) -> bool {
    result matches BuildResult::Success {
        path: p,
        slug,
        category,
        frontmatter,
        file_hash: f,
        template_hash: t,
        output_path,
    } && p@ == path && f@ == file_hash && t@ == template_hash && slug == post.slug && category
        == post.category && frontmatter == post.frontmatter && output_path@ == output
}

/// `result` is the outcome of building one post without hooks, against a
/// cache with the entries `entries`. The first piece of work that failed
/// gives an error with its message. With the cache in use, a source that
/// the cache knows with its content and the templates is skipped before it
/// is parsed, and a draft is skipped before its shortcodes are expanded.
pub open spec fn outcome_of(
    entries: Map<Seq<char>, EntryModel>,
    template_hash: Seq<char>,
    use_cache: bool,
    work: PostWork,
    result: BuildResult,
) -> bool {
    match work.source {
        Err(message) => failed(work.path@, message@, result),
        Ok(content) => if use_cache && !is_stale(
            entries,
            work.path@,
            content_digest(content@),
            template_hash,
        ) {
            skipped(work.path@, SkipReason::Cached, result)
        } else {
            match work.post {
                Err(message) => failed(work.path@, message@, result),
                Ok(read) => if read.frontmatter.draft {
                    skipped(work.path@, SkipReason::Draft, result)
                } else {
                    match (work.expanded, work.written) {
                        (Err(message), _) => failed(work.path@, message@, result),
                        (Ok(_), Err(message)) => failed(work.path@, message@, result),
                        (Ok(_), Ok(output)) => built(
                            work.path@,
                            content_digest(content@),
                            template_hash,
                            read,
                            output@,
                            result,
                        ),
                    }
                },
            }
        },
    }
}

/// Builds one post without hooks from what the work outside gave: the
/// steps of a build in their order.
pub fn build_post(
    work: PostWork,
    template_hash: &str,
    use_cache: bool,
    cache: &BuildCache,
    renderer: &Renderer,
    tera: &tera::Tera,
) -> (result: BuildResult)
    ensures
        outcome_of(cache.entries(), template_hash@, use_cache, work, result),
{
    let no_hooks: Option<Hooks> = None;
    let unread = Unread::new(work.path.as_str(), template_hash, use_cache);
    let hashed = match unread.source_read(work.source) {
        Progress::Continue(hashed) => hashed,
        Progress::Done(result) => {
            return result;
        },
    };
    let stale = match hashed.cache_checked(cache) {
        Progress::Continue(stale) => stale,
        Progress::Done(result) => {
            return result;
        },
    };
    let parsed = match stale.parsed(work.post, &no_hooks) {
        Progress::Continue(parsed) => parsed,
        Progress::Done(result) => {
            return result;
        },
    };
    let rendered = match parsed.shortcodes_expanded(work.expanded, renderer, tera, &no_hooks) {
        Progress::Continue(rendered) => rendered,
        Progress::Done(result) => {
            return result;
        },
    };
    rendered.page_written(work.written)
}

/// `results` are the outcomes of building the posts `works`, one for one,
/// each against a cache with the entries `entries`.
pub open spec fn outcomes_of(
    entries: Map<Seq<char>, EntryModel>,
    template_hash: Seq<char>,
    use_cache: bool,
    works: Seq<PostWork>,
    results: Seq<BuildResult>,
) -> bool {
    &&& results.len() == works.len()
    &&& forall|i: int|
        0 <= i < works.len() ==> outcome_of(
            entries,
            template_hash,
            use_cache,
            works[i],
            #[trigger] results[i],
        )
}

/// Builds every post without hooks, each against the cache as it stands.
pub fn build_posts(
    works: Vec<PostWork>,
    template_hash: &str,
    use_cache: bool,
    cache: &BuildCache,
    renderer: &Renderer,
    tera: &tera::Tera,
) -> (results: Vec<BuildResult>)
    ensures
        outcomes_of(cache.entries(), template_hash@, use_cache, works@, results@),
{
    let mut results: Vec<BuildResult> = Vec::new();
    let ghost all = works@;
    for work in iter: works
        invariant
            iter.seq() == all,
            results@.len() == iter.index(),
            forall|i: int|
                0 <= i < iter.index() ==> outcome_of(
                    cache.entries(),
                    template_hash@,
                    use_cache,
                    all[i],
                    #[trigger] results@[i],
                ),
    {
        let result = build_post(work, template_hash, use_cache, cache, renderer, tera);
        results.push(result);
    }
    results
}

/// A build run without hooks: every post is built against the cache as
/// the run finds it, and then the outcomes are taken into the cache and the
/// post index, in the order of the posts.
pub fn run_build(
    works: Vec<PostWork>,
    template_hash: &str,
    use_cache: bool,
    cache: &mut BuildCache,
    metadata: &mut MetadataCache,
    built_at: &str,
    renderer: &Renderer,
    tera: &tera::Tera,
) -> (summary: BuildSummary)
    ensures
        exists|results: Seq<BuildResult>|
            {
                &&& #[trigger] outcomes_of(
                    old(cache).entries(),
                    template_hash@,
                    use_cache,
                    works@,
                    results,
                )
                &&& final(cache).entries() == entries_after(
                    old(cache).entries(),
                    results,
                    built_at@,
                )
                &&& final(metadata).posts@ == posts_after(old(metadata).posts@, results)
                &&& summary.built == kept(results, is_built()).len()
                &&& summary.cached == kept(results, is_skipped(SkipReason::Cached)).len()
                &&& summary.drafts == kept(results, is_skipped(SkipReason::Draft)).len()
                &&& summary.errors@.len() == kept(results, is_error()).len()
            },
        final(cache).version_text() == old(cache).version_text(),
        final(metadata).category_info == old(metadata).category_info,
        final(metadata).version == old(metadata).version,
{
    let results = build_posts(works, template_hash, use_cache, &*cache, renderer, tera);
    let ghost outcomes = results@;
    let summary = aggregate_results(results, cache, metadata, built_at);
    proof {
        lemma_kinds_partition(outcomes);
        assert(outcomes_of(old(cache).entries(), template_hash@, use_cache, works@, outcomes));
    }
    summary
}

/// Every outcome is of exactly one kind: built, skipped as unchanged,
/// skipped as a draft, or failed.
pub proof fn lemma_kinds_partition(results: Seq<BuildResult>)
    ensures
        kept(results, is_built()).len() + kept(results, is_skipped(SkipReason::Cached)).len()
            + kept(results, is_skipped(SkipReason::Draft)).len() + kept(results, is_error()).len()
            == results.len(),
    decreases results.len(),
{
    if results.len() > 0 {
        lemma_kinds_partition(results.drop_last());
    }
}

/// The posts whose source the cache knows with its content and the
/// templates.
pub open spec fn is_unchanged(
    entries: Map<Seq<char>, EntryModel>,
    template_hash: Seq<char>,
) -> spec_fn(PostWork) -> bool {
    |work: PostWork|
        work.source matches Ok(content) && !is_stale(
            entries,
            work.path@,
            content_digest(content@),
            template_hash,
        )
}

/// The drafts among the posts that the cache does not know as they are.
pub open spec fn is_changed_draft(
    entries: Map<Seq<char>, EntryModel>,
    template_hash: Seq<char>,
) -> spec_fn(PostWork) -> bool {
    |work: PostWork|
        !is_unchanged(entries, template_hash)(work) && (work.post matches Ok(read)
            && read.frontmatter.draft)
}

/// The posts to publish among those that the cache does not know as they
/// are.
pub open spec fn is_changed_post(
    entries: Map<Seq<char>, EntryModel>,
    template_hash: Seq<char>,
) -> spec_fn(PostWork) -> bool {
    |work: PostWork|
        !is_unchanged(entries, template_hash)(work) && (work.post matches Ok(read)
            && !read.frontmatter.draft)
}

/// No piece of the work outside failed for any of the posts.
pub open spec fn all_work_done(works: Seq<PostWork>) -> bool {
    forall|i: int|
        0 <= i < works.len() ==> {
            &&& (#[trigger] works[i]).source is Ok
            &&& works[i].post is Ok
            &&& works[i].expanded is Ok
            &&& works[i].written is Ok
        }
}

/// No two of the posts have the same source.
pub open spec fn distinct_sources(works: Seq<PostWork>) -> bool {
    forall|i: int, j: int|
        0 <= i < j < works.len() ==> (#[trigger] works[i]).path@ != (#[trigger] works[j]).path@
}

/// Where two selections agree item by item, they select equally many.
pub proof fn lemma_kept_alike<A, B>(
    a: Seq<A>,
    keep_a: spec_fn(A) -> bool,
    b: Seq<B>,
    keep_b: spec_fn(B) -> bool,
)
    requires
        a.len() == b.len(),
        forall|i: int| 0 <= i < a.len() ==> keep_a(#[trigger] a[i]) == keep_b(b[i]),
    ensures
        kept(a, keep_a).len() == kept(b, keep_b).len(),
    decreases a.len(),
{
    if a.len() > 0 {
        assert forall|i: int| 0 <= i < a.drop_last().len() implies keep_a(
            #[trigger] a.drop_last()[i],
        ) == keep_b(b.drop_last()[i]) by {
            assert(a.drop_last()[i] == a[i]);
            assert(b.drop_last()[i] == b[i]);
        }
        lemma_kept_alike(a.drop_last(), keep_a, b.drop_last(), keep_b);
        assert(keep_a(a[a.len() - 1]) == keep_b(b[a.len() - 1]));
    }
}

/// In a run with the cache in use in which no work outside fails, exactly
/// the unchanged posts are skipped as unchanged, exactly the drafts among
/// the others are skipped as drafts, exactly the rest is built, and nothing
/// fails.
pub proof fn lemma_incremental_run_counts(
    entries: Map<Seq<char>, EntryModel>,
    template_hash: Seq<char>,
    works: Seq<PostWork>,
    results: Seq<BuildResult>,
)
    requires
        all_work_done(works),
        outcomes_of(entries, template_hash, true, works, results),
    ensures
        kept(results, is_skipped(SkipReason::Cached)).len() == kept(
            works,
            is_unchanged(entries, template_hash),
        ).len(),
        kept(results, is_skipped(SkipReason::Draft)).len() == kept(
            works,
            is_changed_draft(entries, template_hash),
        ).len(),
        kept(results, is_built()).len() == kept(
            works,
            is_changed_post(entries, template_hash),
        ).len(),
        kept(results, is_error()).len() == 0,
{
    assert forall|i: int| 0 <= i < results.len() implies {
        &&& is_skipped(SkipReason::Cached)(#[trigger] results[i]) == is_unchanged(
            entries,
            template_hash,
        )(works[i])
        &&& is_skipped(SkipReason::Draft)(results[i]) == is_changed_draft(entries, template_hash)(
            works[i],
        )
        &&& is_built()(results[i]) == is_changed_post(entries, template_hash)(works[i])
        &&& !is_error()(results[i])
    } by {
        assert(outcome_of(entries, template_hash, true, works[i], results[i]));
        assert(works[i].source is Ok && works[i].post is Ok);
    }
    lemma_kept_alike(
        results,
        is_skipped(SkipReason::Cached),
        works,
        is_unchanged(entries, template_hash),
    );
    lemma_kept_alike(
        results,
        is_skipped(SkipReason::Draft),
        works,
        is_changed_draft(entries, template_hash),
    );
    lemma_kept_alike(results, is_built(), works, is_changed_post(entries, template_hash));
    lemma_kept_alike(results, is_error(), works, |work: PostWork| false);
    lemma_kept_none(works);
}

/// A selection that holds of nothing selects nothing.
proof fn lemma_kept_none<A>(s: Seq<A>)
    ensures
        kept(s, |item: A| false).len() == 0,
    decreases s.len(),
{
    if s.len() > 0 {
        lemma_kept_none(s.drop_last());
    }
}

/// After a run with the cache in use over posts of different sources in
/// which no work outside fails: an unchanged post keeps its cache entry, a
/// post that was built is entered with the digest of its content and that
/// of the templates, so that the next run skips it, and a draft is left
/// as the run found it, with its entry or without one.
pub proof fn lemma_incremental_run_cache(
    entries: Map<Seq<char>, EntryModel>,
    template_hash: Seq<char>,
    works: Seq<PostWork>,
    results: Seq<BuildResult>,
    built_at: Seq<char>,
    i: int,
)
    requires
        all_work_done(works),
        distinct_sources(works),
        outcomes_of(entries, template_hash, true, works, results),
        0 <= i < works.len(),
    ensures
        ({
            let after = entries_after(entries, results, built_at);
            let path = works[i].path@;
            let digest = content_digest(works[i].source->Ok_0@);
            &&& is_unchanged(entries, template_hash)(works[i]) ==> after.contains_key(path)
                && after[path] == entries[path]
            &&& is_changed_draft(entries, template_hash)(works[i]) ==> after.contains_key(path)
                == entries.contains_key(path) && (entries.contains_key(path) ==> after[path]
                == entries[path])
            &&& is_changed_post(entries, template_hash)(works[i]) ==> after.contains_key(path)
                && after[path].file_hash == digest && after[path].template_hash
                == template_hash
            &&& !is_changed_draft(entries, template_hash)(works[i]) ==> !is_stale(
                after,
                path,
                digest,
                template_hash,
            )
        }),
{
    let path = works[i].path@;
    assert forall|j: int| 0 <= j < results.len() implies (built_path(#[trigger] results[j])
        matches Some(p) ==> p == works[j].path@ && is_changed_post(entries, template_hash)(
        works[j],
    )) by {
        assert(outcome_of(entries, template_hash, true, works[j], results[j]));
        assert(works[j].source is Ok && works[j].post is Ok);
    }
    assert(outcome_of(entries, template_hash, true, works[i], results[i]));
    assert(works[i].source is Ok && works[i].post is Ok && works[i].expanded is Ok
        && works[i].written is Ok);
    if is_changed_post(entries, template_hash)(works[i]) {
        assert(built_once(results)) by {
            assert forall|a: int, b: int|
                0 <= a < b < results.len() && (#[trigger] results[a]) is Success && (
                #[trigger] results[b]) is Success implies built_path(results[a]) != built_path(
                results[b],
            ) by {
                assert(built_path(results[a]) == Some(works[a].path@));
                assert(built_path(results[b]) == Some(works[b].path@));
            }
        }
        lemma_built_files_are_fresh(entries, results, built_at, i);
    } else {
        assert forall|j: int| 0 <= j < results.len() implies built_path(#[trigger] results[j])
            != Some(path) by {
            if j != i && built_path(results[j]) == Some(path) {
                assert(works[j].path@ == works[i].path@);
                if j < i {
                    assert(works[j].path@ != works[i].path@);
                } else {
                    assert(works[i].path@ != works[j].path@);
                }
            }
        }
        lemma_unbuilt_files_keep_entry(entries, results, built_at, path);
    }
}

/// After the outcomes of a run are taken in, the cache knows the sources
/// that it knew before and those that the run built, and no others.
pub proof fn lemma_run_cache_keys(
    entries: Map<Seq<char>, EntryModel>,
    results: Seq<BuildResult>,
    built_at: Seq<char>,
    path: Seq<char>,
)
    ensures
        entries_after(entries, results, built_at).contains_key(path) <==> entries.contains_key(path)
            || exists|j: int| 0 <= j < results.len() && built_path(#[trigger] results[j]) == Some(path),
    decreases results.len(),
{
    if results.len() > 0 {
        let shorter = results.drop_last();
        lemma_run_cache_keys(entries, shorter, built_at, path);
        let last = results.len() - 1;
        if entries_after(entries, results, built_at).contains_key(path) {
            if built_path(results[last]) != Some(path) && !entries.contains_key(path) {
                let j = choose|j: int|
                    0 <= j < shorter.len() && built_path(#[trigger] shorter[j]) == Some(path);
                assert(results[j] == shorter[j]);
            }
        } else {
            assert forall|j: int| 0 <= j < results.len() implies built_path(#[trigger] results[j])
                != Some(path) by {
                if j < last {
                    assert(shorter[j] == results[j]);
                }
            }
        }
    }
}

/// A run that builds only sources that the cache knew before leaves the
/// cache with the sources it had: as many entries as before.
pub proof fn lemma_run_keeps_cache_size(
    entries: Map<Seq<char>, EntryModel>,
    results: Seq<BuildResult>,
    built_at: Seq<char>,
)
    requires
        forall|j: int|
            0 <= j < results.len() ==> (built_path(#[trigger] results[j]) matches Some(path)
                ==> entries.contains_key(path)),
    ensures
        entries_after(entries, results, built_at).dom() == entries.dom(),
        entries_after(entries, results, built_at).len() == entries.len(),
{
    let after = entries_after(entries, results, built_at);
    assert forall|path: Seq<char>| after.contains_key(path) == entries.contains_key(path) by {
        lemma_run_cache_keys(entries, results, built_at, path);
    }
    assert(after.dom() =~= entries.dom());
}

/// A run that starts with an empty cache and in which no work outside
/// fails leaves the cache with exactly the sources of the posts that are
/// no drafts.
pub proof fn lemma_first_run_cache_keys(
    template_hash: Seq<char>,
    works: Seq<PostWork>,
    results: Seq<BuildResult>,
    built_at: Seq<char>,
    path: Seq<char>,
)
    requires
        all_work_done(works),
        outcomes_of(Map::empty(), template_hash, true, works, results),
    ensures
        entries_after(Map::empty(), results, built_at).contains_key(path) <==> exists|k: int|
            0 <= k < works.len() && (#[trigger] works[k]).path@ == path && !is_draft(works[k]),
{
    let none = Map::<Seq<char>, EntryModel>::empty();
    lemma_run_cache_keys(none, results, built_at, path);
    assert forall|k: int| 0 <= k < works.len() implies (built_path(#[trigger] results[k]) == Some(
        path,
    ) <==> works[k].path@ == path && !is_draft(works[k])) by {
        assert(outcome_of(none, template_hash, true, works[k], results[k]));
        assert(works[k].source is Ok && works[k].post is Ok && works[k].expanded is Ok
            && works[k].written is Ok);
    }
    if entries_after(none, results, built_at).contains_key(path) {
        let j = choose|j: int|
            0 <= j < results.len() && built_path(#[trigger] results[j]) == Some(path);
        assert(works[j].path@ == path && !is_draft(works[j]));
    }
    if exists|k: int|
        0 <= k < works.len() && (#[trigger] works[k]).path@ == path && !is_draft(works[k]) {
        let k = choose|k: int|
            0 <= k < works.len() && (#[trigger] works[k]).path@ == path && !is_draft(works[k]);
        assert(built_path(results[k]) == Some(path));
    }
}

/// The post is a draft.
pub open spec fn is_draft(work: PostWork) -> bool {
    work.post matches Ok(read) && read.frontmatter.draft
}

/// The digest of the post's source.
pub open spec fn digest_of(work: PostWork) -> Seq<char>
    recommends
        work.source is Ok,
{
    content_digest(work.source->Ok_0@)
}

/// The second run is over the sources of the first, in the same order,
/// and a draft of the first run is a draft of the second.
pub open spec fn same_sources_again(first: Seq<PostWork>, second: Seq<PostWork>) -> bool {
    &&& second.len() == first.len()
    &&& forall|k: int|
        0 <= k < first.len() ==> (#[trigger] second[k]).path@ == first[k].path@ && is_draft(
            second[k],
        ) == is_draft(first[k])
}

/// The cache knows none of the drafts.
pub open spec fn knows_no_draft(entries: Map<Seq<char>, EntryModel>, works: Seq<PostWork>) -> bool {
    forall|k: int|
        0 <= k < works.len() && is_draft(#[trigger] works[k]) ==> !entries.contains_key(
            works[k].path@,
        )
}

/// The positions of a sequence of `n` items.
pub open spec fn positions(n: nat) -> Seq<int> {
    Seq::new(n, |k: int| k)
}

/// The positions of the posts to publish whose content changed between
/// the runs.
pub open spec fn is_modified(first: Seq<PostWork>, second: Seq<PostWork>) -> spec_fn(int) -> bool {
    |k: int| !is_draft(second[k]) && digest_of(second[k]) != digest_of(first[k])
}

/// The positions of the posts to publish whose content stayed as it was.
pub open spec fn is_untouched(first: Seq<PostWork>, second: Seq<PostWork>) -> spec_fn(
    int,
) -> bool {
    |k: int| !is_draft(second[k]) && digest_of(second[k]) == digest_of(first[k])
}

/// The positions of the drafts.
pub open spec fn is_draft_at(works: Seq<PostWork>) -> spec_fn(int) -> bool {
    |k: int| is_draft(works[k])
}

/// Two runs with the cache in use over the same sources and the same
/// templates, no work outside failing in either, the cache knowing no draft
/// before the first. What the second run makes of the post at position `i`:
/// a draft is skipped as a draft and has no cache entry; a post whose
/// content stayed is skipped as unchanged and keeps the entry that the
/// first run left; a post whose content changed is built and entered with
/// the digest of its new content.
pub proof fn lemma_second_run_outcome(
    entries: Map<Seq<char>, EntryModel>,
    template_hash: Seq<char>,
    first: Seq<PostWork>,
    first_results: Seq<BuildResult>,
    first_at: Seq<char>,
    second: Seq<PostWork>,
    second_results: Seq<BuildResult>,
    second_at: Seq<char>,
    i: int,
)
    requires
        all_work_done(first),
        all_work_done(second),
        distinct_sources(first),
        same_sources_again(first, second),
        knows_no_draft(entries, first),
        outcomes_of(entries, template_hash, true, first, first_results),
        outcomes_of(
            entries_after(entries, first_results, first_at),
            template_hash,
            true,
            second,
            second_results,
        ),
        0 <= i < first.len(),
    ensures
        ({
            let between = entries_after(entries, first_results, first_at);
            let after = entries_after(between, second_results, second_at);
            let path = first[i].path@;
            &&& is_draft_at(second)(i) ==> skipped(path, SkipReason::Draft, second_results[i])
                && !after.contains_key(path)
            &&& is_untouched(first, second)(i) ==> skipped(
                path,
                SkipReason::Cached,
                second_results[i],
            ) && after.contains_key(path) && after[path] == between[path]
            &&& is_modified(first, second)(i) ==> second_results[i] is Success
                && built_path(second_results[i]) == Some(path) && between.contains_key(path)
                && after.contains_key(path) && after[path].file_hash == digest_of(second[i])
                && after[path].template_hash == template_hash
        }),
{
    let between = entries_after(entries, first_results, first_at);
    assert(distinct_sources(second)) by {
        assert forall|a: int, b: int| 0 <= a < b < second.len() implies (#[trigger] second[a]).path@
            != (#[trigger] second[b]).path@ by {
            assert(first[a].path@ != first[b].path@);
        }
    }
    assert(second[i].path@ == first[i].path@ && is_draft(second[i]) == is_draft(first[i]));
    assert(first[i].source is Ok && first[i].post is Ok);
    assert(second[i].source is Ok && second[i].post is Ok);
    assert(outcome_of(between, template_hash, true, second[i], second_results[i]));
    lemma_incremental_run_cache(entries, template_hash, first, first_results, first_at, i);
    lemma_incremental_run_cache(between, template_hash, second, second_results, second_at, i);
    if is_draft(first[i]) {
        assert(!entries.contains_key(first[i].path@));
    }
}

/// Two runs with the cache in use over the same sources and the same
/// templates, no work outside failing in either, the cache knowing no draft
/// before the first. The second run builds exactly the posts whose content
/// changed, skips exactly the posts whose content stayed as unchanged and
/// exactly the drafts as drafts, and fails for none; it leaves the cache
/// with the sources that the first run left it with.
pub proof fn lemma_second_run(
    entries: Map<Seq<char>, EntryModel>,
    template_hash: Seq<char>,
    first: Seq<PostWork>,
    first_results: Seq<BuildResult>,
    first_at: Seq<char>,
    second: Seq<PostWork>,
    second_results: Seq<BuildResult>,
    second_at: Seq<char>,
)
    requires
        all_work_done(first),
        all_work_done(second),
        distinct_sources(first),
        same_sources_again(first, second),
        knows_no_draft(entries, first),
        outcomes_of(entries, template_hash, true, first, first_results),
        outcomes_of(
            entries_after(entries, first_results, first_at),
            template_hash,
            true,
            second,
            second_results,
        ),
    ensures
        kept(second_results, is_built()).len() == kept(
            positions(first.len()),
            is_modified(first, second),
        ).len(),
        kept(second_results, is_skipped(SkipReason::Cached)).len() == kept(
            positions(first.len()),
            is_untouched(first, second),
        ).len(),
        kept(second_results, is_skipped(SkipReason::Draft)).len() == kept(
            positions(first.len()),
            is_draft_at(second),
        ).len(),
        kept(second_results, is_error()).len() == 0,
        entries_after(
            entries_after(entries, first_results, first_at),
            second_results,
            second_at,
        ).dom() == entries_after(entries, first_results, first_at).dom(),
{
    let between = entries_after(entries, first_results, first_at);
    let places = positions(first.len());
    assert forall|k: int| 0 <= k < second_results.len() implies {
        &&& is_built()(#[trigger] second_results[k]) == is_modified(first, second)(places[k])
        &&& is_skipped(SkipReason::Cached)(second_results[k]) == is_untouched(first, second)(
            places[k],
        )
        &&& is_skipped(SkipReason::Draft)(second_results[k]) == is_draft_at(second)(places[k])
        &&& (built_path(second_results[k]) matches Some(path) ==> between.contains_key(path))
    } by {
        lemma_second_run_outcome(
            entries,
            template_hash,
            first,
            first_results,
            first_at,
            second,
            second_results,
            second_at,
            k,
        );
    }
    lemma_kept_alike(second_results, is_built(), places, is_modified(first, second));
    lemma_kept_alike(
        second_results,
        is_skipped(SkipReason::Cached),
        places,
        is_untouched(first, second),
    );
    lemma_kept_alike(second_results, is_skipped(SkipReason::Draft), places, is_draft_at(second));
    lemma_incremental_run_counts(between, template_hash, second, second_results);
    lemma_run_keeps_cache_size(between, second_results, second_at);
}

} // verus!
