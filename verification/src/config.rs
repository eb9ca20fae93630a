//! Site configuration and its defaults.

use vstd::prelude::*;

verus! {

/// The `site` section of the configuration.
#[derive(Debug, Clone, PartialEq, Eq)]
pub struct SiteConfig {
    pub title: String,
    pub url: String,
    pub author: String,
    pub description: String,
}

/// The `theme` section of the configuration, without the theme's variables.
#[derive(Debug, Clone, PartialEq, Eq)]
pub struct ThemeConfig {
    pub name: String,
    pub custom_dir: Option<String>,
}

/// The `build` section of the configuration.
#[derive(Debug, Clone, PartialEq, Eq)]
pub struct BuildConfig {
    pub content_dir: String,
    pub output_dir: String,
    pub posts_per_page: usize,
}

/// The whole configuration.
#[derive(Debug, Clone, PartialEq, Eq)]
pub struct SsgConfig {
    pub site: SiteConfig,
    pub theme: ThemeConfig,
    pub build: BuildConfig,
}

/// The title of a site that states none.
pub fn default_site_title() -> (title: String)
    ensures
        title@ == "marshallku blog"@,
{
    "marshallku blog".to_owned()
}

/// The URL of a site that states none.
pub fn default_site_url() -> (url: String)
    ensures
        url@ == "https://marshallku.com"@,
{
    "https://marshallku.com".to_owned()
}

/// The author of a site that states none.
pub fn default_author() -> (author: String)
    ensures
        author@ == "Marshall K"@,
{
    "Marshall K".to_owned()
}

/// The description of a site that states none.
pub fn default_description() -> (description: String)
    ensures
        description@ == "marshallku blog"@,
{
    "marshallku blog".to_owned()
}

/// The theme of a site that names none.
pub fn default_theme_name() -> (name: String)
    ensures
        name@ == "default"@,
{
    "default".to_owned()
}

/// Where the posts lie unless the configuration says otherwise.
pub fn default_content_dir() -> (dir: String)
    ensures
        dir@ == "content/posts"@,
{
    "content/posts".to_owned()
}

/// Where the site is written unless the configuration says otherwise.
pub fn default_output_dir() -> (dir: String)
    ensures
        dir@ == "dist"@,
{
    "dist".to_owned()
}

/// Posts on one page of a listing unless the configuration says otherwise.
pub fn default_posts_per_page() -> (count: usize)
    ensures
        count == 10,
{
    10
}

impl Default for SiteConfig {
    fn default() -> (config: Self)
        ensures
            config.title@ == "marshallku blog"@,
            config.url@ == "https://marshallku.com"@,
            config.author@ == "Marshall K"@,
            config.description@ == "marshallku blog"@,
    {
        SiteConfig {
            title: default_site_title(),
            url: default_site_url(),
            author: default_author(),
            description: default_description(),
        }
    }
}

impl Default for ThemeConfig {
    fn default() -> (config: Self)
        ensures
            config.name@ == "default"@,
            config.custom_dir is None,
    {
        ThemeConfig { name: default_theme_name(), custom_dir: None }
    }
}

impl Default for BuildConfig {
    fn default() -> (config: Self)
        ensures
            config.content_dir@ == "content/posts"@,
            config.output_dir@ == "dist"@,
            config.posts_per_page == 10,
    {
        BuildConfig {
            content_dir: default_content_dir(),
            output_dir: default_output_dir(),
            posts_per_page: default_posts_per_page(),
        }
    }
}

impl Default for SsgConfig {
    fn default() -> (config: Self)
        ensures
            config.site.title@ == "marshallku blog"@,
            config.site.url@ == "https://marshallku.com"@,
            config.site.author@ == "Marshall K"@,
            config.site.description@ == "marshallku blog"@,
            config.theme.name@ == "default"@,
            config.theme.custom_dir is None,
            config.build.content_dir@ == "content/posts"@,
            config.build.output_dir@ == "dist"@,
            config.build.posts_per_page == 10,
    {
        SsgConfig {
            site: SiteConfig::default(),
            theme: ThemeConfig::default(),
            build: BuildConfig::default(),
        }
    }
}

} // verus!
