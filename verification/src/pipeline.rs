//! The build of one post, step by step, and the merging of all outcomes.
//!
//! Reading and writing files, parsing frontmatter and expanding shortcodes
//! are the caller's work. After each piece of that work the caller hands its
//! outcome to the next step here, which decides how the build goes on.

use vstd::prelude::*;

use crate::cache::{content_digest, hash_file, is_stale, BuildCache, EntryModel};
use crate::metadata::{other_slug, MetadataCache, PostMetadata};
use crate::parallel::{BuildResult, SkipReason};
use crate::plugin::{PluginContext, PluginManager};
use crate::renderer::{blocks_highlighted, component_tags, components_applied, Renderer};
use crate::select::kept;
use crate::text::{decimal, decimal_of, push_str, string_of};
use crate::types::Post;

verus! {

/// How a step ends: the build of the post goes on, or it is over.
pub enum Progress<Next> {
    /// The next piece of work can be done.
    Continue(Next),
    /// The build of this post is over, with this outcome.
    Done(BuildResult),
}

/// A post that is to be built: its source has to be read.
pub struct Unread {
    pub path: String,
    pub template_hash: String,
    pub use_cache: bool,
}

/// A post whose source was read: the cache has to be asked whether it is
/// up to date.
pub struct Hashed {
    pub path: String,
    pub template_hash: String,
    pub file_hash: String,
    pub use_cache: bool,
}

/// A post that is not up to date: it has to be parsed.
pub struct Stale {
    pub path: String,
    pub template_hash: String,
    pub file_hash: String,
}

/// A parsed post that is no draft: its shortcodes have to be expanded.
pub struct Parsed {
    pub path: String,
    pub template_hash: String,
    pub file_hash: String,
    pub post: Post,
}

/// A rendered post: its page has to be written, with the data that the
/// plugins add to its template.
pub struct Rendered {
    pub path: String,
    pub template_hash: String,
    pub file_hash: String,
    pub post: Post,
    pub plugin_data: Vec<(String, serde_json::Value)>,
}

/// The plugins whose hooks run during the build of a post, and what they
/// see of the build.
pub struct Hooks<'a> {
    pub plugins: &'a PluginManager,
    pub context: PluginContext<'a>,
}

/// No hook runs: there are no hooks, or no plugin is registered.
pub open spec fn runs_no_hook(hooks: Option<Hooks>) -> bool {
    match hooks {
        Some(given) => given.plugins.count() == 0,
        None => true,
    }
}

/// The outcome for a step that failed.
pub open spec fn failed(path: Seq<char>, message: Seq<char>, result: BuildResult) -> bool {
    result matches BuildResult::Error { path: p, error } && p@ == path && error@ == message
}

/// The outcome for a post that is skipped.
pub open spec fn skipped(path: Seq<char>, reason: SkipReason, result: BuildResult) -> bool {
    result matches BuildResult::Skipped { path: p, reason: r } && p@ == path && r == reason
}

impl Unread {
    /// A post to be built from the file at `path`.
    pub fn new(path: &str, template_hash: &str, use_cache: bool) -> (unread: Self)
        ensures
            unread.path@ == path@,
            unread.template_hash@ == template_hash@,
            unread.use_cache == use_cache,
    {
        Unread { path: path.to_owned(), template_hash: template_hash.to_owned(), use_cache }
    }

    /// Takes the outcome of reading the source: a source that could not be
    /// read ends the build with an error, every other source is digested.
    pub fn source_read(self, source: Result<Vec<u8>, String>) -> (next: Progress<Hashed>)
        ensures
            match source {
                Err(message) => next matches Progress::Done(result) && failed(
                    self.path@,
                    message@,
                    result,
                ),
                Ok(content) => next matches Progress::Continue(hashed) && hashed.path@ == self.path@
                    && hashed.template_hash@ == self.template_hash@ && hashed.file_hash@
                    == content_digest(content@) && hashed.use_cache == self.use_cache,
            },
    {
        match source {
            Err(message) => Progress::Done(BuildResult::Error { path: self.path, error: message }),
            Ok(content) => {
                let file_hash = hash_file(content.as_slice());
                Progress::Continue(
                    Hashed {
                        path: self.path,
                        template_hash: self.template_hash,
                        file_hash,
                        use_cache: self.use_cache,
                    },
                )
            },
        }
    }
}

impl Hashed {
    /// Asks the cache. With the cache in use, a source that the cache knows
    /// with this content and these templates is skipped. Every other source
    /// is to be parsed.
    pub fn cache_checked(self, cache: &BuildCache) -> (next: Progress<Stale>)
        ensures
            if self.use_cache && !is_stale(
                cache.entries(),
                self.path@,
                self.file_hash@,
                self.template_hash@,
            ) {
                next matches Progress::Done(result) && skipped(
                    self.path@,
                    SkipReason::Cached,
                    result,
                )
            } else {
                next matches Progress::Continue(stale) && stale.path@ == self.path@
                    && stale.template_hash@ == self.template_hash@ && stale.file_hash@
                    == self.file_hash@
            },
    {
        if self.use_cache && !cache.needs_rebuild(
            self.path.as_str(),
            self.file_hash.as_str(),
            self.template_hash.as_str(),
        ) {
            Progress::Done(BuildResult::Skipped { path: self.path, reason: SkipReason::Cached })
        } else {
            Progress::Continue(
                Stale {
                    path: self.path,
                    template_hash: self.template_hash,
                    file_hash: self.file_hash,
                },
            )
        }
    }
}

impl Stale {
    /// Takes the outcome of parsing the source. A source that could not be
    /// parsed ends the build with an error; a draft is skipped. Every other
    /// post is handed to the plugins' hook for parsed posts; a failing hook
    /// ends the build with an error.
    pub fn parsed(self, post: Result<Post, String>, hooks: &Option<Hooks>) -> (next: Progress<Parsed>)
        ensures
            match post {
                Err(message) => next matches Progress::Done(result) && failed(
                    self.path@,
                    message@,
                    result,
                ),
                Ok(read) => if read.frontmatter.draft {
                    next matches Progress::Done(result) && skipped(
                        self.path@,
                        SkipReason::Draft,
                        result,
                    )
                } else {
                    match next {
                        Progress::Continue(parsed) => {
                            &&& parsed.path@ == self.path@
                            &&& parsed.template_hash@ == self.template_hash@
                            &&& parsed.file_hash@ == self.file_hash@
                            &&& runs_no_hook(*hooks) ==> parsed.post == read
                        },
                        Progress::Done(result) => {
                            &&& !runs_no_hook(*hooks)
                            &&& result matches BuildResult::Error { path, .. } && path@
                                == self.path@
                        },
                    }
                },
            },
    {
        match post {
            Err(message) => Progress::Done(BuildResult::Error { path: self.path, error: message }),
            Ok(read) => {
                if read.frontmatter.draft {
                    return Progress::Done(
                        BuildResult::Skipped { path: self.path, reason: SkipReason::Draft },
                    );
                }
                let mut read = read;
                match hooks {
                    Some(given) => {
                        match given.plugins.on_post_parsed(&mut read, &given.context) {
                            Ok(()) => {},
                            Err(message) => {
                                return Progress::Done(
                                    BuildResult::Error { path: self.path, error: message },
                                );
                            },
                        }
                    },
                    None => {},
                }
                Progress::Continue(
                    Parsed {
                        path: self.path,
                        template_hash: self.template_hash,
                        file_hash: self.file_hash,
                        post: read,
                    },
                )
            },
        }
    }
}

/// `html` is what rendering makes of the Markdown text `markdown`:
/// Markdown to HTML, then components substituted, then code highlighted.
pub open spec fn is_rendering_of(
    markdown: Seq<char>,
    engine: tera::Tera,
    syntaxes: syntect::parsing::SyntaxSet,
    html: Seq<char>,
) -> bool {
    exists|substituted: Seq<char>|
        #![trigger blocks_highlighted(syntaxes, substituted)]
        components_applied(
            crate::renderer::markdown_html(markdown),
            component_tags(),
            engine,
            substituted,
        ) && html == blocks_highlighted(syntaxes, substituted)
}

impl Parsed {
    /// Takes the outcome of expanding the shortcodes of the post's body. A
    /// failure ends the build with an error. Otherwise the expanded body is
    /// rendered, links resolved against the post's category. The post and its
    /// HTML are then handed to the plugins' hook for rendered posts, and the
    /// plugins are asked for what they add to the post's template; a failing
    /// hook ends the build with an error.
    pub fn shortcodes_expanded(
        self,
        expanded: Result<String, String>,
        renderer: &Renderer,
        tera: &tera::Tera,
        hooks: &Option<Hooks>,
    ) -> (next: Progress<Rendered>)
        ensures
            match expanded {
                Err(message) => next matches Progress::Done(result) && failed(
                    self.path@,
                    message@,
                    result,
                ),
                Ok(markdown) => match next {
                    Progress::Continue(rendered) => {
                        &&& rendered.path@ == self.path@
                        &&& rendered.template_hash@ == self.template_hash@
                        &&& rendered.file_hash@ == self.file_hash@
                        &&& rendered.post.rendered_html is Some
                        &&& runs_no_hook(*hooks) ==> {
                            &&& rendered.post.slug == self.post.slug
                            &&& rendered.post.category == self.post.category
                            &&& rendered.post.frontmatter == self.post.frontmatter
                            &&& rendered.post.content == self.post.content
                            &&& is_rendering_of(
                                markdown@,
                                *tera,
                                renderer.syntaxes(),
                                rendered.post.rendered_html->0@,
                            )
                            &&& rendered.plugin_data@.len() == 0
                        }
                    },
                    Progress::Done(result) => {
                        &&& !runs_no_hook(*hooks)
                        &&& result matches BuildResult::Error { path, .. } && path@ == self.path@
                    },
                },
            },
    {
        match expanded {
            Err(message) => Progress::Done(BuildResult::Error { path: self.path, error: message }),
            Ok(markdown) => {
                let mut html = renderer.render_markdown_with_components(
                    markdown.as_str(),
                    tera,
                    self.post.category.as_str(),
                );
                let mut post = self.post;
                let mut plugin_data: Vec<(String, serde_json::Value)> = Vec::new();
                match hooks {
                    Some(given) => {
                        match given.plugins.on_post_rendered(&mut post, &mut html, &given.context) {
                            Ok(()) => {},
                            Err(message) => {
                                return Progress::Done(
                                    BuildResult::Error { path: self.path, error: message },
                                );
                            },
                        }
                    },
                    None => {},
                }
                let post = Post {
                    slug: post.slug,
                    category: post.category,
                    frontmatter: post.frontmatter,
                    content: post.content,
                    rendered_html: Some(html),
                };
                match hooks {
                    Some(given) => {
                        match given.plugins.template_context_post(&post, &given.context) {
                            Ok(data) => {
                                plugin_data = data;
                            },
                            Err(message) => {
                                return Progress::Done(
                                    BuildResult::Error { path: self.path, error: message },
                                );
                            },
                        }
                    },
                    None => {},
                }
                Progress::Continue(
                    Rendered {
                        path: self.path,
                        template_hash: self.template_hash,
                        file_hash: self.file_hash,
                        post,
                        plugin_data,
                    },
                )
            },
        }
    }
}

impl Rendered {
    /// Takes the outcome of writing the page: the path it was written to,
    /// or why it could not be written.
    pub fn page_written(self, written: Result<String, String>) -> (result: BuildResult)
        ensures
            match written {
                Err(message) => failed(self.path@, message@, result),
                Ok(output) => result == (BuildResult::Success {
                    path: self.path,
                    slug: self.post.slug,
                    category: self.post.category,
                    frontmatter: self.post.frontmatter,
                    file_hash: self.file_hash,
                    template_hash: self.template_hash,
                    output_path: output,
                }),
            },
    {
        match written {
            Err(message) => BuildResult::Error { path: self.path, error: message },
            Ok(output) => BuildResult::Success {
                path: self.path,
                slug: self.post.slug,
                category: self.post.category,
                frontmatter: self.post.frontmatter,
                file_hash: self.file_hash,
                template_hash: self.template_hash,
                output_path: output,
            },
        }
    }
}

/// The cache entries after one outcome is taken in: a built file is
/// entered, stamped `built_at`; other outcomes change nothing.
pub open spec fn entries_with(
    entries: Map<Seq<char>, EntryModel>,
    result: BuildResult,
    built_at: Seq<char>,
) -> Map<Seq<char>, EntryModel> {
    match result {
        BuildResult::Success { path, file_hash, template_hash, output_path, .. } => entries.insert(
            path@,
            EntryModel {
                file_hash: file_hash@,
                template_hash: template_hash@,
                output_path: output_path@,
                built_at,
            },
        ),
        _ => entries,
    }
}

/// The cache entries after the outcomes are taken in, in order.
pub open spec fn entries_after(
    entries: Map<Seq<char>, EntryModel>,
    results: Seq<BuildResult>,
    built_at: Seq<char>,
) -> Map<Seq<char>, EntryModel>
    decreases results.len(),
{
    if results.len() == 0 {
        entries
    } else {
        entries_with(entries_after(entries, results.drop_last(), built_at), results.last(), built_at)
    }
}

/// The post index after one outcome is taken in: a built post replaces the
/// post with its slug and stands last; other outcomes change nothing.
pub open spec fn posts_with(posts: Seq<PostMetadata>, result: BuildResult) -> Seq<PostMetadata> {
    match result {
        BuildResult::Success { slug, category, frontmatter, .. } => kept(
            posts,
            other_slug(slug@),
        ).push(PostMetadata { slug, category, frontmatter }),
        _ => posts,
    }
}

/// The post index after the outcomes are taken in, in order.
pub open spec fn posts_after(posts: Seq<PostMetadata>, results: Seq<BuildResult>) -> Seq<
    PostMetadata,
>
    decreases results.len(),
{
    if results.len() == 0 {
        posts
    } else {
        posts_with(posts_after(posts, results.drop_last()), results.last())
    }
}

/// The built files.
pub open spec fn is_built() -> spec_fn(BuildResult) -> bool {
    |result: BuildResult| result is Success
}

/// The files skipped for the reason `reason`.
pub open spec fn is_skipped(reason: SkipReason) -> spec_fn(BuildResult) -> bool {
    |result: BuildResult| result matches BuildResult::Skipped { reason: r, .. } && r == reason
}

/// The files whose build failed.
pub open spec fn is_error() -> spec_fn(BuildResult) -> bool {
    |result: BuildResult| result is Error
}

/// The failures among the outcomes, as pairs of path and message, in order.
pub open spec fn failures_of(results: Seq<BuildResult>) -> Seq<(Seq<char>, Seq<char>)>
    decreases results.len(),
{
    if results.len() == 0 {
        Seq::empty()
    } else {
        match results.last() {
            BuildResult::Error { path, error } => failures_of(results.drop_last()).push(
                (path@, error@),
            ),
            _ => failures_of(results.drop_last()),
        }
    }
}

/// What a build run came to.
#[derive(Debug, Clone, PartialEq, Eq)]
pub struct BuildSummary {
    /// Number of pages built.
    pub built: usize,
    /// Number of files skipped because they are unchanged.
    pub cached: usize,
    /// Number of files skipped because they are drafts.
    pub drafts: usize,
    /// The files whose build failed, each with the message.
    pub errors: Vec<(String, String)>,
}

/// The pairs of texts that a vector of pairs of strings stands for.
pub open spec fn failures_view(v: Seq<(String, String)>) -> Seq<(Seq<char>, Seq<char>)> {
    v.map_values(|p: (String, String)| (p.0@, p.1@))
}

impl BuildSummary {
    /// The summary of a run in which nothing has happened yet.
    pub fn new() -> (summary: Self)
        ensures
            summary.built == 0,
            summary.cached == 0,
            summary.drafts == 0,
            summary.errors@.len() == 0,
    {
        BuildSummary { built: 0, cached: 0, drafts: 0, errors: Vec::new() }
    }

    /// Whether the build has failed: at least one file could not be built.
    pub fn failed(&self) -> (failed: bool)
        ensures
            failed == (self.errors@.len() > 0),
    {
        self.errors.len() > 0
    }
}

/// The failures after one outcome is taken in: a failed file is added with
/// its message; other outcomes change nothing.
pub open spec fn failures_with(
    failures: Seq<(Seq<char>, Seq<char>)>,
    result: BuildResult,
) -> Seq<(Seq<char>, Seq<char>)> {
    match result {
        BuildResult::Error { path, error } => failures.push((path@, error@)),
        _ => failures,
    }
}

/// One if the outcome is among `chosen`, else zero.
pub open spec fn counts(chosen: spec_fn(BuildResult) -> bool, result: BuildResult) -> int {
    if chosen(result) {
        1
    } else {
        0
    }
}

/// Takes one outcome into the cache, the post index and the summary: a
/// built file is entered into both, the cache entry stamped `built_at`,
/// and every outcome is counted under its kind.
pub fn record_result(
    result: BuildResult,
    cache: &mut BuildCache,
    metadata: &mut MetadataCache,
    built_at: &str,
    summary: &mut BuildSummary,
)
    requires
        old(summary).built < usize::MAX,
        old(summary).cached < usize::MAX,
        old(summary).drafts < usize::MAX,
    ensures
        final(cache).entries() == entries_with(old(cache).entries(), result, built_at@),
        final(cache).version_text() == old(cache).version_text(),
        final(metadata).posts@ == posts_with(old(metadata).posts@, result),
        final(metadata).category_info == old(metadata).category_info,
        final(metadata).version == old(metadata).version,
        final(summary).built == old(summary).built + counts(is_built(), result),
        final(summary).cached == old(summary).cached + counts(
            is_skipped(SkipReason::Cached),
            result,
        ),
        final(summary).drafts == old(summary).drafts + counts(
            is_skipped(SkipReason::Draft),
            result,
        ),
        failures_view(final(summary).errors@) == failures_with(
            failures_view(old(summary).errors@),
            result,
        ),
        final(summary).errors@.len() == old(summary).errors@.len() + counts(is_error(), result),
{
    match result {
        BuildResult::Success {
            path,
            slug,
            category,
            frontmatter,
            file_hash,
            template_hash,
            output_path,
        } => {
            metadata.upsert_post(slug, category, frontmatter);
            cache.record_entry(
                path.as_str(),
                file_hash,
                template_hash,
                output_path,
                built_at.to_owned(),
            );
            summary.built = summary.built + 1;
        },
        BuildResult::Skipped { path, reason } => {
            match reason {
                SkipReason::Cached => {
                    summary.cached = summary.cached + 1;
                },
                SkipReason::Draft => {
                    summary.drafts = summary.drafts + 1;
                },
            }
        },
        BuildResult::Error { path, error } => {
            let ghost before = failures_view(summary.errors@);
            summary.errors.push((path, error));
            assert(failures_view(summary.errors@) == before.push((path@, error@)));
        },
    }
}

/// Takes the outcomes of a build run into the cache and the post index:
/// each built file is entered into both, the cache entry stamped `built_at`.
/// Skipped and failed files change neither. Successes are kept even where
/// other files failed.
pub fn aggregate_results(
    results: Vec<BuildResult>,
    cache: &mut BuildCache,
    metadata: &mut MetadataCache,
    built_at: &str,
) -> (summary: BuildSummary)
    ensures
        final(cache).entries() == entries_after(old(cache).entries(), results@, built_at@),
        final(cache).version_text() == old(cache).version_text(),
        final(metadata).posts@ == posts_after(old(metadata).posts@, results@),
        final(metadata).category_info == old(metadata).category_info,
        final(metadata).version == old(metadata).version,
        summary.built == kept(results@, is_built()).len(),
        summary.cached == kept(results@, is_skipped(SkipReason::Cached)).len(),
        summary.drafts == kept(results@, is_skipped(SkipReason::Draft)).len(),
        failures_view(summary.errors@) == failures_of(results@),
        summary.built + summary.cached + summary.drafts + summary.errors@.len() == results@.len(),
{
    let mut summary = BuildSummary::new();
    let ghost all = results@;
    let total = results.len();
    assert(all.subrange(0, 0) == Seq::<BuildResult>::empty());
    for result in iter: results
        invariant
            iter.seq() == all,
            cache.entries() == entries_after(
                old(cache).entries(),
                all.subrange(0, iter.index() as int),
                built_at@,
            ),
            cache.version_text() == old(cache).version_text(),
            metadata.posts@ == posts_after(old(metadata).posts@, all.subrange(0, iter.index() as int)),
            metadata.category_info == old(metadata).category_info,
            metadata.version == old(metadata).version,
            summary.built == kept(all.subrange(0, iter.index() as int), is_built()).len(),
            summary.cached == kept(
                all.subrange(0, iter.index() as int),
                is_skipped(SkipReason::Cached),
            ).len(),
            summary.drafts == kept(
                all.subrange(0, iter.index() as int),
                is_skipped(SkipReason::Draft),
            ).len(),
            failures_view(summary.errors@) == failures_of(all.subrange(0, iter.index() as int)),
            summary.built + summary.cached + summary.drafts + summary.errors@.len()
                == iter.index(),
            iter.index() <= all.len(),
            all.len() == total,
    {
        proof {
            let i = iter.index() as int;
            let upto = all.subrange(0, i + 1);
            assert(upto.drop_last() == all.subrange(0, i));
            assert(upto.last() == result);
            crate::select::lemma_kept_step(all, is_built(), i);
            crate::select::lemma_kept_step(all, is_skipped(SkipReason::Cached), i);
            crate::select::lemma_kept_step(all, is_skipped(SkipReason::Draft), i);
        }
        record_result(result, cache, metadata, built_at, &mut summary);
    }
    assert(all.subrange(0, all.len() as int) == all);
    summary
}

/// The line that tells the user what became of one file.
pub open spec fn status_text(result: BuildResult) -> Seq<char> {
    match result {
        BuildResult::Success { path, .. } => "🔨 Built: "@ + path@,
        BuildResult::Skipped { path, reason } => match reason {
            SkipReason::Cached => "⏭  Skipped (unchanged): "@ + path@,
            SkipReason::Draft => "   ⚠  Draft - skipping: "@ + path@,
        },
        BuildResult::Error { path, error } => "❌ Error building "@ + path@ + ": "@ + error@,
    }
}

/// The line that tells the user what became of one file.
pub fn status_line(result: &BuildResult) -> (line: String)
    ensures
        line@ == status_text(*result),
{
    let mut out: Vec<char> = Vec::new();
    match result {
        BuildResult::Success { path, .. } => {
            push_str(&mut out, "🔨 Built: ");
            push_str(&mut out, path.as_str());
        },
        BuildResult::Skipped { path, reason } => {
            match reason {
                SkipReason::Cached => {
                    push_str(&mut out, "⏭  Skipped (unchanged): ");
                },
                SkipReason::Draft => {
                    push_str(&mut out, "   ⚠  Draft - skipping: ");
                },
            }
            push_str(&mut out, path.as_str());
        },
        BuildResult::Error { path, error } => {
            push_str(&mut out, "❌ Error building ");
            push_str(&mut out, path.as_str());
            push_str(&mut out, ": ");
            push_str(&mut out, error.as_str());
        },
    }
    string_of(&out)
}

/// The message of a failed build: how many posts could not be built.
pub fn failure_message(summary: &BuildSummary) -> (message: String)
    ensures
        message@ == decimal(summary.errors@.len()) + " posts failed to build"@,
{
    let mut out = decimal_of(summary.errors.len());
    push_str(&mut out, " posts failed to build");
    string_of(&out)
}

/// The path of a built file, if the outcome is one.
pub open spec fn built_path(result: BuildResult) -> Option<Seq<char>> {
    match result {
        BuildResult::Success { path, .. } => Some(path@),
        _ => None,
    }
}

/// No two built files among the outcomes have the same path.
pub open spec fn built_once(results: Seq<BuildResult>) -> bool {
    forall|i: int, j: int|
        0 <= i < j < results.len() && (#[trigger] results[i]) is Success && (
        #[trigger] results[j]) is Success ==> built_path(results[i]) != built_path(results[j])
}

/// After the outcomes of a run are taken in, a file that the run built is
/// up to date as long as its content and the templates stay as they were:
/// the next run with the cache in use skips it.
pub proof fn lemma_built_files_are_fresh(
    entries: Map<Seq<char>, EntryModel>,
    results: Seq<BuildResult>,
    built_at: Seq<char>,
    i: int,
)
    requires
        built_once(results),
        0 <= i < results.len(),
        results[i] is Success,
    ensures
        results[i] matches BuildResult::Success { path, file_hash, template_hash, .. } && !is_stale(
            entries_after(entries, results, built_at),
            path@,
            file_hash@,
            template_hash@,
        ),
    decreases results.len(),
{
    let shorter = results.drop_last();
    if i < results.len() - 1 {
        assert forall|a: int, b: int|
            0 <= a < b < shorter.len() && (#[trigger] shorter[a]) is Success && (
            #[trigger] shorter[b]) is Success implies built_path(shorter[a]) != built_path(
            shorter[b],
        ) by {
            assert(shorter[a] == results[a] && shorter[b] == results[b]);
        }
        assert(shorter[i] == results[i]);
        lemma_built_files_are_fresh(entries, shorter, built_at, i);
        if results.last() is Success {
            assert(built_path(results[i]) != built_path(results[results.len() - 1]));
        }
    }
}

/// A file that the outcomes do not build keeps its cache entry, or its lack
/// of one.
pub proof fn lemma_unbuilt_files_keep_entry(
    entries: Map<Seq<char>, EntryModel>,
    results: Seq<BuildResult>,
    built_at: Seq<char>,
    path: Seq<char>,
)
    requires
        forall|i: int| 0 <= i < results.len() ==> built_path(#[trigger] results[i]) != Some(path),
    ensures
        entries_after(entries, results, built_at).contains_key(path) == entries.contains_key(path),
        entries.contains_key(path) ==> entries_after(entries, results, built_at)[path]
            == entries[path],
    decreases results.len(),
{
    if results.len() > 0 {
        let shorter = results.drop_last();
        assert forall|i: int| 0 <= i < shorter.len() implies built_path(#[trigger] shorter[i])
            != Some(path) by {
            assert(shorter[i] == results[i]);
        }
        lemma_unbuilt_files_keep_entry(entries, shorter, built_at, path);
        assert(built_path(results[results.len() - 1]) != Some(path));
    }
}

} // verus!
