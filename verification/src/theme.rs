//! Themes: where their templates and static files lie, and what they
//! require.

use vstd::prelude::*;
use crate::generator::{join_path, joined};
use crate::renderer::{registered_templates, template_exists};
use crate::select::{kept, lemma_kept_step};
use crate::text::{chars_of, str_eq};

verus! {

/// A named block that a theme lets a site fill.
#[derive(Debug, Clone, PartialEq, Eq)]
pub struct ThemeHook {
    pub name: String,
    pub block: String,
    pub default: Option<String>,
}

/// What a theme states about itself, without its variables.
#[derive(Debug, Clone, PartialEq, Eq)]
pub struct ThemeMetadata {
    pub name: String,
    pub version: String,
    pub author: String,
    pub description: String,
    pub parent: Option<String>,
    pub hooks: Vec<ThemeHook>,
    pub required_templates: Vec<String>,
}

/// Where the metadata of a theme comes from.
#[derive(Debug, Clone, Copy, PartialEq, Eq, Structural)]
pub enum ThemeSource {
    /// The file `theme.yaml` in the theme's directory.
    MetadataFile,
    /// The theme is the `templates` directory of older sites, which has no
    /// metadata of its own.
    LegacyTemplates,
}

/// Why a theme cannot be used.
#[derive(Debug, Clone, Copy, PartialEq, Eq, Structural)]
pub enum ThemeError {
    /// The theme's directory does not exist.
    NotFound,
    /// The theme's directory has no `theme.yaml`.
    MissingMetadata,
    /// Neither the theme nor its parent has a directory.
    NoTemplates,
}

/// Where the metadata of the theme `theme_name` comes from, given what
/// exists on disk.
pub fn locate_theme(
    theme_name: &str,
    theme_dir_exists: bool,
    legacy_templates_exist: bool,
    metadata_exists: bool,
) -> (source: Result<ThemeSource, ThemeError>)
    ensures
        source == if !theme_dir_exists {
            if theme_name@ == "default"@ && legacy_templates_exist {
                Ok::<ThemeSource, ThemeError>(ThemeSource::LegacyTemplates)
            } else {
                Err::<ThemeSource, ThemeError>(ThemeError::NotFound)
            }
        } else if !metadata_exists {
            Err::<ThemeSource, ThemeError>(ThemeError::MissingMetadata)
        } else {
            Ok::<ThemeSource, ThemeError>(ThemeSource::MetadataFile)
        },
{
    if !theme_dir_exists {
        if str_eq(theme_name, "default") && legacy_templates_exist {
            Ok(ThemeSource::LegacyTemplates)
        } else {
            Err(ThemeError::NotFound)
        }
    } else if !metadata_exists {
        Err(ThemeError::MissingMetadata)
    } else {
        Ok(ThemeSource::MetadataFile)
    }
}

/// The metadata of the `templates` directory of older sites.
pub fn get_default_theme_metadata() -> (metadata: ThemeMetadata)
    ensures
        metadata.name@ == "default"@,
        metadata.version@ == "1.0.0"@,
        metadata.author@ == ""@,
        metadata.description@ == "Legacy template directory"@,
        metadata.parent is None,
        metadata.hooks@.len() == 0,
        metadata.required_templates@.len() == 3,
        metadata.required_templates@[0]@ == "base.html"@,
        metadata.required_templates@[1]@ == "post.html"@,
        metadata.required_templates@[2]@ == "index.html"@,
{
    let mut required: Vec<String> = Vec::new();
    required.push("base.html".to_owned());
    required.push("post.html".to_owned());
    required.push("index.html".to_owned());
    ThemeMetadata {
        name: "default".to_owned(),
        version: "1.0.0".to_owned(),
        author: "".to_owned(),
        description: "Legacy template directory".to_owned(),
        parent: None,
        hooks: Vec::new(),
        required_templates: required,
    }
}

/// The metadata of a theme, named by its directory where it states no
/// name.
pub fn named_theme(metadata: ThemeMetadata, theme_name: &str) -> (named: ThemeMetadata)
    ensures
        named.name@ == if metadata.name@.len() == 0 {
            theme_name@
        } else {
            metadata.name@
        },
        named.version == metadata.version,
        named.author == metadata.author,
        named.description == metadata.description,
        named.parent == metadata.parent,
        named.hooks == metadata.hooks,
        named.required_templates == metadata.required_templates,
{
    let unnamed = chars_of(metadata.name.as_str()).len() == 0;
    ThemeMetadata {
        name: if unnamed { theme_name.to_owned() } else { metadata.name },
        version: metadata.version,
        author: metadata.author,
        description: metadata.description,
        parent: metadata.parent,
        hooks: metadata.hooks,
        required_templates: metadata.required_templates,
    }
}

/// The texts that a vector of strings stands for.
pub open spec fn paths_view(v: Seq<String>) -> Seq<Seq<char>> {
    v.map_values(|p: String| p@)
}

/// The directories that templates are looked up in, the theme's own first
/// and its parent's second, as far as they exist.
pub open spec fn template_paths(
    theme_dir: Seq<char>,
    theme_name: Seq<char>,
    parent: Option<Seq<char>>,
    active_exists: bool,
    parent_exists: bool,
) -> Seq<Seq<char>> {
    let own = if active_exists {
        seq![joined(theme_dir, theme_name)]
    } else {
        Seq::empty()
    };
    match parent {
        Some(name) => if parent_exists {
            own.push(joined(theme_dir, name))
        } else {
            own
        },
        None => own,
    }
}

/// The directories that templates are looked up in. A theme without any
/// directory cannot be used.
pub fn resolve_template_paths(
    theme_dir: &str,
    theme_name: &str,
    parent_theme_name: &Option<String>,
    active_exists: bool,
    parent_exists: bool,
) -> (paths: Result<Vec<String>, ThemeError>)
    ensures
        match paths {
            Ok(found) => paths_view(found@) == template_paths(
                theme_dir@,
                theme_name@,
                match *parent_theme_name {
                    Some(name) => Some(name@),
                    None => None,
                },
                active_exists,
                parent_exists,
            ) && found@.len() > 0,
            Err(error) => error == ThemeError::NoTemplates && template_paths(
                theme_dir@,
                theme_name@,
                match *parent_theme_name {
                    Some(name) => Some(name@),
                    None => None,
                },
                active_exists,
                parent_exists,
            ).len() == 0,
        },
{
    let mut paths: Vec<String> = Vec::new();
    if active_exists {
        paths.push(join_path(theme_dir, theme_name));
    }
    match parent_theme_name {
        Some(name) => {
            if parent_exists {
                let ghost before = paths_view(paths@);
                paths.push(join_path(theme_dir, name.as_str()));
                assert(paths_view(paths@) == before.push(joined(theme_dir@, name@)));
            }
        },
        None => {},
    }
    assert(paths_view(paths@) =~= template_paths(
        theme_dir@,
        theme_name@,
        match *parent_theme_name {
            Some(name) => Some(name@),
            None => None,
        },
        active_exists,
        parent_exists,
    ));
    if paths.len() == 0 {
        Err(ThemeError::NoTemplates)
    } else {
        Ok(paths)
    }
}

/// The directories that static files are copied from, the parent's first
/// so that the theme's own files replace them, as far as they exist.
pub open spec fn static_paths(
    theme_dir: Seq<char>,
    theme_name: Seq<char>,
    parent: Option<Seq<char>>,
    parent_static_exists: bool,
    active_static_exists: bool,
) -> Seq<Seq<char>> {
    let inherited = match parent {
        Some(name) => if parent_static_exists {
            seq![joined(joined(theme_dir, name), "static"@)]
        } else {
            Seq::empty()
        },
        None => Seq::empty(),
    };
    if active_static_exists {
        inherited.push(joined(joined(theme_dir, theme_name), "static"@))
    } else {
        inherited
    }
}

/// The directories that static files are copied from.
pub fn resolve_static_paths(
    theme_dir: &str,
    theme_name: &str,
    parent_theme_name: &Option<String>,
    parent_static_exists: bool,
    active_static_exists: bool,
) -> (paths: Vec<String>)
    ensures
        paths_view(paths@) == static_paths(
            theme_dir@,
            theme_name@,
            match *parent_theme_name {
                Some(name) => Some(name@),
                None => None,
            },
            parent_static_exists,
            active_static_exists,
        ),
{
    let mut paths: Vec<String> = Vec::new();
    match parent_theme_name {
        Some(name) => {
            if parent_static_exists {
                let parent_dir = join_path(theme_dir, name.as_str());
                paths.push(join_path(parent_dir.as_str(), "static"));
            }
        },
        None => {},
    }
    if active_static_exists {
        let own_dir = join_path(theme_dir, theme_name);
        let ghost before = paths_view(paths@);
        paths.push(join_path(own_dir.as_str(), "static"));
        assert(paths_view(paths@) == before.push(joined(joined(theme_dir@, theme_name@), "static"@)));
    }
    assert(paths_view(paths@) =~= static_paths(
        theme_dir@,
        theme_name@,
        match *parent_theme_name {
            Some(name) => Some(name@),
            None => None,
        },
        parent_static_exists,
        active_static_exists,
    ));
    paths
}

/// The variables of a theme in the order in which they take effect: the
/// parent's, then the theme's own, then the site's. A later value for a
/// name replaces an earlier one.
pub fn merge_variables<V>(
    parent: Vec<(String, V)>,
    active: Vec<(String, V)>,
    site_overrides: Vec<(String, V)>,
) -> (merged: Vec<(String, V)>)
    ensures
        merged@ == parent@ + active@ + site_overrides@,
{
    let mut merged = parent;
    let mut own = active;
    let mut site = site_overrides;
    merged.append(&mut own);
    merged.append(&mut site);
    merged
}

/// The templates that the engine does not hold.
pub open spec fn not_registered(engine: tera::Tera) -> spec_fn(String) -> bool {
    |name: String| !registered_templates(engine).contains(name@)
}

/// The templates that a theme requires and the engine does not hold, in
/// the order required. A theme can be used where there is none.
pub fn validate_required_templates(tera: &tera::Tera, required: &Vec<String>) -> (missing: Vec<String>)
    ensures
        missing@ == kept(required@, not_registered(*tera)),
{
    let mut missing: Vec<String> = Vec::new();
    let mut i: usize = 0;
    assert(required@.subrange(0, 0) == Seq::<String>::empty());
    while i < required.len()
        invariant
            i <= required@.len(),
            missing@ == kept(required@.subrange(0, i as int), not_registered(*tera)),
        decreases required.len() - i,
    {
        proof {
            lemma_kept_step(required@, not_registered(*tera), i as int);
        }
        if !template_exists(tera, required[i].as_str()) {
            missing.push(required[i].clone());
        }
        i += 1;
    }
    assert(required@.subrange(0, required@.len() as int) == required@);
    missing
}

/// What templates are told about the theme: its name, version and author.
pub fn get_theme_info(theme: &ThemeMetadata) -> (info: Vec<(String, String)>)
    ensures
        info@.len() == 3,
        info@[0].0@ == "name"@ && info@[0].1@ == theme.name@,
        info@[1].0@ == "version"@ && info@[1].1@ == theme.version@,
        info@[2].0@ == "author"@ && info@[2].1@ == theme.author@,
{
    let mut info: Vec<(String, String)> = Vec::new();
    info.push(("name".to_owned(), theme.name.clone()));
    info.push(("version".to_owned(), theme.version.clone()));
    info.push(("author".to_owned(), theme.author.clone()));
    info
}

} // verus!
