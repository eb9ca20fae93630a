//! Plugins: hooks that run at fixed points of a build, in the order in
//! which the plugins were registered.

use vstd::prelude::*;
use crate::config::SsgConfig;
use crate::metadata::MetadataCache;
use crate::parser::Page;
use crate::types::Post;

verus! {

/// A JSON value of the `serde_json` crate.
#[verifier::external_type_specification]
#[verifier::external_body]
pub struct ExJsonValue(serde_json::Value);

/// What a plugin sees of the build.
pub struct PluginContext<'a> {
    pub config: &'a SsgConfig,
    pub metadata: &'a MetadataCache,
}

/// A plugin. Every hook but the name has a default that does nothing: it
/// succeeds, changes nothing and adds nothing.
pub trait Plugin: Send + Sync {
    /// The plugin's name.
    fn name(&self) -> &str;

    /// Prepares the plugin for a build with this configuration.
    fn init(&mut self, config: &SsgConfig) -> (done: Result<(), String>)
        default_ensures
            done is Ok,
    {
        Ok(())
    }

    /// Called with a post after it is parsed and before it is rendered.
    fn on_post_parsed(&self, post: &mut Post, ctx: &PluginContext) -> (done: Result<(), String>)
        default_ensures
            done is Ok,
            *final(post) == *old(post),
    {
        Ok(())
    }

    /// Called with a post and its HTML after rendering and before the
    /// page's template is applied.
    fn on_post_rendered(&self, post: &mut Post, html: &mut String, ctx: &PluginContext) -> (done:
        Result<(), String>)
        default_ensures
            done is Ok,
            *final(post) == *old(post),
            *final(html) == *old(html),
    {
        Ok(())
    }

    /// What the plugin adds to the template of a post.
    fn template_context_post(&self, post: &Post, ctx: &PluginContext) -> (data: Result<
        Vec<(String, serde_json::Value)>,
        String,
    >)
        default_ensures
            data matches Ok(pairs) && pairs@.len() == 0,
    {
        Ok(Vec::new())
    }

    /// What the plugin adds to the template of a page.
    fn template_context_page(&self, page: &Page, ctx: &PluginContext) -> (data: Result<
        Vec<(String, serde_json::Value)>,
        String,
    >)
        default_ensures
            data matches Ok(pairs) && pairs@.len() == 0,
    {
        Ok(Vec::new())
    }

    /// What the plugin adds to the templates of listings.
    fn template_context_index(&self, ctx: &PluginContext) -> (data: Result<
        Vec<(String, serde_json::Value)>,
        String,
    >)
        default_ensures
            data matches Ok(pairs) && pairs@.len() == 0,
    {
        Ok(Vec::new())
    }
}

/// The plugins of a build.
pub struct PluginManager {
    plugins: Vec<Box<dyn Plugin>>,
}

impl PluginManager {
    /// Number of registered plugins.
    pub closed spec fn count(&self) -> nat {
        self.plugins@.len()
    }

    /// A manager without plugins.
    pub fn new() -> (manager: Self)
        ensures
            manager.count() == 0,
    {
        PluginManager { plugins: Vec::new() }
    }

    /// Registers a plugin; its hooks run after those of the plugins
    /// registered before.
    pub fn register(&mut self, plugin: Box<dyn Plugin>)
        ensures
            final(self).count() == old(self).count() + 1,
    {
        let ghost before = self.plugins@;
        self.plugins.push(plugin);
        proof {
            vstd::seq::axiom_seq_push_len(before, plugin);
        }
    }

    /// Prepares every plugin, in order. The first failure ends the
    /// preparation.
    pub fn init_all(&mut self, config: &SsgConfig) -> (done: Result<(), String>)
        ensures
            final(self).count() == old(self).count(),
            old(self).count() == 0 ==> done is Ok,
    {
        let mut waiting: Vec<Box<dyn Plugin>> = Vec::new();
        core::mem::swap(&mut waiting, &mut self.plugins);
        let ghost total = waiting@.len();
        assert(self.count() == 0);
        let mut done: Result<(), String> = Ok(());
        for plugin in iter: waiting
            invariant
                iter.seq().len() == total,
                self.count() == iter.index(),
                total == 0 ==> done is Ok,
        {
            let mut plugin = plugin;
            if done.is_ok() {
                done = plugin.init(config);
            }
            self.register(plugin);
        }
        done
    }

    /// Runs the hook for a parsed post of every plugin, in order. The first
    /// failure ends the run. Without plugins the post stays as it is.
    pub fn on_post_parsed(&self, post: &mut Post, ctx: &PluginContext) -> (done: Result<(), String>)
        ensures
            self.count() == 0 ==> done is Ok && *final(post) == *old(post),
    {
        let mut i: usize = 0;
        while i < self.plugins.len()
            invariant
                i <= self.plugins@.len(),
                self.plugins@.len() == 0 ==> *post == *old(post),
            decreases self.plugins.len() - i,
        {
            match self.plugins[i].on_post_parsed(post, ctx) {
                Ok(()) => {},
                Err(message) => {
                    return Err(message);
                },
            }
            i += 1;
        }
        Ok(())
    }

    /// Runs the hook for a rendered post of every plugin, in order. The
    /// first failure ends the run. Without plugins the post and its HTML stay
    /// as they are.
    pub fn on_post_rendered(&self, post: &mut Post, html: &mut String, ctx: &PluginContext) -> (done:
        Result<(), String>)
        ensures
            self.count() == 0 ==> done is Ok && *final(post) == *old(post) && *final(html) == *old(html),
    {
        let mut i: usize = 0;
        while i < self.plugins.len()
            invariant
                i <= self.plugins@.len(),
                self.plugins@.len() == 0 ==> *post == *old(post) && *html == *old(html),
            decreases self.plugins.len() - i,
        {
            match self.plugins[i].on_post_rendered(post, html, ctx) {
                Ok(()) => {},
                Err(message) => {
                    return Err(message);
                },
            }
            i += 1;
        }
        Ok(())
    }

    /// What the plugins add to the template of a post: the data of each
    /// plugin, in order; a later value for a name replaces an earlier one.
    /// The first failure ends the collection.
    pub fn template_context_post(&self, post: &Post, ctx: &PluginContext) -> (data: Result<
        Vec<(String, serde_json::Value)>,
        String,
    >)
        ensures
            self.count() == 0 ==> (data matches Ok(pairs) && pairs@.len() == 0),
    {
        let mut context: Vec<(String, serde_json::Value)> = Vec::new();
        let mut i: usize = 0;
        while i < self.plugins.len()
            invariant
                i <= self.plugins@.len(),
                self.plugins@.len() == 0 ==> context@.len() == 0,
            decreases self.plugins.len() - i,
        {
            match self.plugins[i].template_context_post(post, ctx) {
                Ok(more) => {
                    let mut more = more;
                    context.append(&mut more);
                },
                Err(message) => {
                    return Err(message);
                },
            }
            i += 1;
        }
        Ok(context)
    }

    /// What the plugins add to the template of a page.
    pub fn template_context_page(&self, page: &Page, ctx: &PluginContext) -> (data: Result<
        Vec<(String, serde_json::Value)>,
        String,
    >)
        ensures
            self.count() == 0 ==> (data matches Ok(pairs) && pairs@.len() == 0),
    {
        let mut context: Vec<(String, serde_json::Value)> = Vec::new();
        let mut i: usize = 0;
        while i < self.plugins.len()
            invariant
                i <= self.plugins@.len(),
                self.plugins@.len() == 0 ==> context@.len() == 0,
            decreases self.plugins.len() - i,
        {
            match self.plugins[i].template_context_page(page, ctx) {
                Ok(more) => {
                    let mut more = more;
                    context.append(&mut more);
                },
                Err(message) => {
                    return Err(message);
                },
            }
            i += 1;
        }
        Ok(context)
    }

    /// What the plugins add to the templates of listings.
    pub fn template_context_index(&self, ctx: &PluginContext) -> (data: Result<
        Vec<(String, serde_json::Value)>,
        String,
    >)
        ensures
            self.count() == 0 ==> (data matches Ok(pairs) && pairs@.len() == 0),
    {
        let mut context: Vec<(String, serde_json::Value)> = Vec::new();
        let mut i: usize = 0;
        while i < self.plugins.len()
            invariant
                i <= self.plugins@.len(),
                self.plugins@.len() == 0 ==> context@.len() == 0,
            decreases self.plugins.len() - i,
        {
            match self.plugins[i].template_context_index(ctx) {
                Ok(more) => {
                    let mut more = more;
                    context.append(&mut more);
                },
                Err(message) => {
                    return Err(message);
                },
            }
            i += 1;
        }
        Ok(context)
    }

    /// The names of the registered plugins, in order.
    pub fn list_plugins(&self) -> (names: Vec<String>)
        ensures
            names@.len() == self.count(),
    {
        let mut names: Vec<String> = Vec::new();
        let mut i: usize = 0;
        while i < self.plugins.len()
            invariant
                i <= self.plugins@.len(),
                names@.len() == i,
            decreases self.plugins.len() - i,
        {
            names.push(self.plugins[i].name().to_owned());
            i += 1;
        }
        names
    }
}

impl Default for PluginManager {
    fn default() -> (manager: Self)
        ensures
            manager.count() == 0,
    {
        Self::new()
    }
}

} // verus!
