//! Site configuration: the values the build pipeline runs under, with the
//! defaults the configuration loader falls back to.

use vstd::prelude::*;
use vstd::string::*;

use crate::error::ForgeError;
use crate::error::ForgeResult;

verus! {

/// Top-level site configuration. `extra` carries the free-form data keys
/// offered to templates, each value in a canonical string encoding.
#[derive(Debug, Clone)]
pub struct SiteConfig {
    pub title: String,
    pub base_url: String,
    pub language: String,
    pub author: String,
    pub description: String,
    pub theme: String,
    pub build: BuildConfig,
    pub taxonomies: Vec<TaxonomyConfig>,
    pub i18n: I18nConfig,
    pub extra: Vec<(String, String)>,
}

/// Build-phase configuration.
#[derive(Debug, Clone)]
pub struct BuildConfig {
    pub output_dir: String,
    pub content_dir: String,
    pub templates_dir: String,
    pub static_dir: String,
    pub posts_per_page: usize,
    pub include_drafts: bool,
    pub generate_feed: bool,
    pub generate_sitemap: bool,
    pub generate_search_index: bool,
    pub syntax_highlighting: bool,
    pub syntax_theme: String,
    pub generate_toc: bool,
}

/// One configured taxonomy (for example `categories` or `tags`).
#[derive(Debug, Clone)]
pub struct TaxonomyConfig {
    pub name: String,
    pub slug: Option<String>,
    pub paginate: bool,
    pub feed: bool,
}

/// Internationalisation configuration.
#[derive(Debug, Clone)]
pub struct I18nConfig {
    pub languages: Vec<LanguageConfig>,
    pub default_language: Option<String>,
    pub translations_dir: String,
}

/// One language a site is offered in.
#[derive(Debug, Clone)]
pub struct LanguageConfig {
    pub code: String,
    pub name: String,
    pub weight: i32,
}

pub fn default_base_url() -> (r: String)
    ensures
        r@ == "http://localhost:3000"@,
{
    "http://localhost:3000".to_owned()
}

pub fn default_language() -> (r: String)
    ensures
        r@ == "en"@,
{
    "en".to_owned()
}

pub fn default_theme() -> (r: String)
    ensures
        r@ == "default"@,
{
    "default".to_owned()
}

pub fn default_output_dir() -> (r: String)
    ensures
        r@ == "public"@,
{
    "public".to_owned()
}

pub fn default_content_dir() -> (r: String)
    ensures
        r@ == "content"@,
{
    "content".to_owned()
}

pub fn default_templates_dir() -> (r: String)
    ensures
        r@ == "templates"@,
{
    "templates".to_owned()
}

pub fn default_static_dir() -> (r: String)
    ensures
        r@ == "static"@,
{
    "static".to_owned()
}

pub fn default_i18n_dir() -> (r: String)
    ensures
        r@ == "i18n"@,
{
    "i18n".to_owned()
}

pub fn default_posts_per_page() -> (r: usize)
    ensures
        r == 10,
{
    10
}

pub fn default_true() -> (r: bool)
    ensures
        r,
{
    true
}

pub fn default_syntax_theme() -> (r: String)
    ensures
        r@ == "base16-ocean.dark"@,
{
    "base16-ocean.dark".to_owned()
}

/// What the two default taxonomy entries promise.
pub open spec fn is_default_taxonomies(ts: Seq<TaxonomyConfig>) -> bool {
    &&& ts.len() == 2
    &&& ts[0].name@ == "categories"@
    &&& ts[0].slug is None
    &&& ts[0].paginate
    &&& !ts[0].feed
    &&& ts[1].name@ == "tags"@
    &&& ts[1].slug is None
    &&& ts[1].paginate
    &&& !ts[1].feed
}

/// The taxonomies a site gets when it configures none: categories and tags.
pub fn default_taxonomies() -> (r: Vec<TaxonomyConfig>)
    ensures
        is_default_taxonomies(r@),
{
    let mut ts: Vec<TaxonomyConfig> = Vec::new();
    ts.push(
        TaxonomyConfig {
            name: "categories".to_owned(),
            slug: None,
            paginate: true,
            feed: false,
        },
    );
    ts.push(TaxonomyConfig { name: "tags".to_owned(), slug: None, paginate: true, feed: false });
    ts
}

impl Default for BuildConfig {
    /// The build settings used when the configuration file sets none.
    fn default() -> (r: BuildConfig)
        ensures
            r.output_dir@ == "public"@,
            r.content_dir@ == "content"@,
            r.templates_dir@ == "templates"@,
            r.static_dir@ == "static"@,
            r.posts_per_page == 10,
            !r.include_drafts,
            r.generate_feed,
            r.generate_sitemap,
            r.generate_search_index,
            r.syntax_highlighting,
            r.syntax_theme@ == "base16-ocean.dark"@,
            r.generate_toc,
    {
        BuildConfig {
            output_dir: default_output_dir(),
            content_dir: default_content_dir(),
            templates_dir: default_templates_dir(),
            static_dir: default_static_dir(),
            posts_per_page: default_posts_per_page(),
            include_drafts: false,
            generate_feed: true,
            generate_sitemap: true,
            generate_search_index: true,
            syntax_highlighting: true,
            syntax_theme: default_syntax_theme(),
            generate_toc: true,
        }
    }
}

impl Default for I18nConfig {
    /// No extra languages, no explicit default, no translations directory.
    fn default() -> (r: I18nConfig)
        ensures
            r.languages@.len() == 0,
            r.default_language is None,
            r.translations_dir@ == Seq::<char>::empty(),
    {
        I18nConfig {
            languages: Vec::new(),
            default_language: None,
            translations_dir: String::new(),
        }
    }
}

impl Default for SiteConfig {
    /// The configuration of a freshly scaffolded site.
    fn default() -> (r: SiteConfig)
        ensures
            r.title@ == "My Forge Site"@,
            r.base_url@ == "http://localhost:3000"@,
            r.language@ == "en"@,
            r.author@ == Seq::<char>::empty(),
            r.description@ == Seq::<char>::empty(),
            r.theme@ == "default"@,
            r.build.posts_per_page == 10,
            is_default_taxonomies(r.taxonomies@),
            r.extra@.len() == 0,
    {
        SiteConfig {
            title: "My Forge Site".to_owned(),
            base_url: default_base_url(),
            language: default_language(),
            author: String::new(),
            description: String::new(),
            theme: default_theme(),
            build: BuildConfig::default(),
            taxonomies: default_taxonomies(),
            i18n: I18nConfig::default(),
            extra: Vec::new(),
        }
    }
}

/// A configuration is acceptable when it has a title and a positive page
/// size.
pub open spec fn config_valid(c: SiteConfig) -> bool {
    c.title@.len() > 0 && c.build.posts_per_page > 0
}

/// Reject configurations with an empty title or a zero page size, naming
/// the offending setting.
pub fn validate_config(config: &SiteConfig) -> (r: ForgeResult<()>)
    ensures
        r is Ok <==> config_valid(*config),
        config.title@.len() == 0 ==> (r matches Err(e) && e matches ForgeError::Config(m)
            && m@ == "Site title cannot be empty"@),
        config.title@.len() > 0 && config.build.posts_per_page == 0 ==> (r matches Err(e)
            && e matches ForgeError::Config(m) && m@
            == "posts_per_page must be greater than 0"@),
{
    if config.title.as_str().unicode_len() == 0 {
        return Err(ForgeError::Config("Site title cannot be empty".to_owned()));
    }
    if config.build.posts_per_page == 0 {
        return Err(ForgeError::Config("posts_per_page must be greater than 0".to_owned()));
    }
    Ok(())
}

} // verus!
