//! Rendering of a post's body: Markdown to HTML, component substitution and
//! syntax highlighting of code blocks.

use vstd::prelude::*;
use crate::markup::{
    attributes_of, elements_of, find_elements, lemma_spliced_unchanged, outcomes_view, pairs_view,
    splice, spliced, spans_in_order, spans_view, tag_attributes, ElementSpan, Span,
};
use crate::text::{
    chars_of, find_char, find_sub, first_index_of, first_occurrence, has_prefix, has_suffix, join,
    join_with, last_occurrence, lemma_first_index_of, push_all, push_range, push_str, replace_all,
    replaced, rfind_sub, slice_of, split, split_on, starts_with, str_eq, string_of, string_of_range,
    texts_view, trim, trim_char, trimmed, trimmed_char,
};

verus! {

/// The template engine of the `tera` crate, holding the templates of a theme.
#[verifier::external_type_specification]
#[verifier::external_body]
pub struct ExTera(tera::Tera);

/// The names of the templates that an engine holds.
pub uninterp spec fn registered_templates(engine: tera::Tera) -> Set<Seq<char>>;

/// `Tera::get_template`, reduced to whether it finds the template: it looks
/// the name up among the templates that the engine holds.
#[verifier::external_body]
pub(crate) fn template_exists(tera: &tera::Tera, name: &str) -> (found: bool)
    ensures
        found == registered_templates(*tera).contains(name@),
{
    tera.get_template(name).is_ok()
}

/// `Tera::render` on a context made of the given pairs, a later pair
/// replacing an earlier one with the same key. Nothing is claimed of the
/// rendered text; a template that the engine does not hold gives an error,
/// here `None`, as every other error does.
#[verifier::external_body]
fn render_template(tera: &tera::Tera, name: &str, context: &Vec<(String, String)>) -> (rendered:
    Option<String>)
    ensures
        !registered_templates(*tera).contains(name@) ==> rendered is None,
{
    let mut values = tera::Context::new();
    for (key, value) in context {
        values.insert(key.as_str(), value);
    }
    tera.render(name, &values).ok()
}

/// The syntax definitions of the `syntect` crate.
#[verifier::external_type_specification]
#[verifier::external_body]
pub struct ExSyntaxSet(syntect::parsing::SyntaxSet);

/// One syntax definition of a `syntect` syntax set.
#[verifier::external_type_specification]
#[verifier::external_body]
pub struct ExSyntaxReference(syntect::parsing::SyntaxReference);

/// The error type of the `syntect` crate.
#[verifier::external_type_specification]
#[verifier::external_body]
pub struct ExSyntectError(syntect::Error);

/// `SyntaxSet::load_defaults_newlines`: the syntax set that ships with
/// `syntect`. Nothing is claimed of what it holds.
pub assume_specification[ syntect::parsing::SyntaxSet::load_defaults_newlines ]() -> (set:
    syntect::parsing::SyntaxSet)
;

/// The syntax that a syntax set finds for a token: a file extension or,
/// case ignored, the name of a language.
pub uninterp spec fn token_syntax(set: syntect::parsing::SyntaxSet, token: Seq<char>) -> Option<
    syntect::parsing::SyntaxReference,
>;

/// The syntax that a syntax set holds under a name.
pub uninterp spec fn named_syntax(set: syntect::parsing::SyntaxSet, name: Seq<char>) -> Option<
    syntect::parsing::SyntaxReference,
>;

/// The markup, one class per scope, that `syntect` writes for lines of code
/// read by a syntax of a syntax set; `None` where it fails on one of the
/// lines.
pub uninterp spec fn classed_markup(
    set: syntect::parsing::SyntaxSet,
    syntax: syntect::parsing::SyntaxReference,
    lines: Seq<Seq<char>>,
) -> Option<Seq<char>>;

/// `SyntaxSet::find_syntax_by_token`: the syntax for a file extension or a
/// language name, if the set has one. What is found depends on the set and
/// the token alone.
pub assume_specification<'a>[ syntect::parsing::SyntaxSet::find_syntax_by_token ](
    set: &'a syntect::parsing::SyntaxSet,
    s: &str,
) -> (found: Option<&'a syntect::parsing::SyntaxReference>)
    ensures
        match found {
            Some(syntax) => token_syntax(*set, s@) == Some(*syntax),
            None => token_syntax(*set, s@) is None,
        },
;

/// `SyntaxSet::find_syntax_by_name`: the syntax of that exact name, if the
/// set has one. What is found depends on the set and the name alone.
pub assume_specification<'a>[ syntect::parsing::SyntaxSet::find_syntax_by_name ](
    set: &'a syntect::parsing::SyntaxSet,
    name: &str,
) -> (found: Option<&'a syntect::parsing::SyntaxReference>)
    ensures
        match found {
            Some(syntax) => named_syntax(*set, name@) == Some(*syntax),
            None => named_syntax(*set, name@) is None,
        },
;

/// The syntax is one that the set finds: for a token or under a name.
pub open spec fn found_in(
    set: syntect::parsing::SyntaxSet,
    syntax: syntect::parsing::SyntaxReference,
) -> bool {
    (exists|token: Seq<char>| #[trigger] token_syntax(set, token) == Some(syntax)) || (exists|
        name: Seq<char>,
    | #[trigger] named_syntax(set, name) == Some(syntax))
}

/// A `ClassedHTMLGenerator` made by `new_with_class_style`, with the style
/// that writes the atoms of a scope as classes separated by spaces, fed the
/// lines in order by `parse_html_for_line_which_includes_newline` and ended
/// by `finalize`. The markup depends on the set, the syntax and the lines
/// alone; the first line that fails ends the work with its error. The syntax
/// has to be one of the set, as the parser asks.
#[verifier::external_body]
fn classed_html(
    syntax: &syntect::parsing::SyntaxReference,
    set: &syntect::parsing::SyntaxSet,
    lines: &Vec<String>,
) -> (markup: Result<String, syntect::Error>)
    requires
        found_in(*set, *syntax),
    ensures
        match markup {
            Ok(body) => classed_markup(*set, *syntax, strings_view(lines@)) == Some(body@),
            Err(_) => classed_markup(*set, *syntax, strings_view(lines@)) is None,
        },
{
    let style = syntect::html::ClassStyle::Spaced;
    let mut generator = syntect::html::ClassedHTMLGenerator::new_with_class_style(syntax, set, style);
    for line in lines {
        generator.parse_html_for_line_which_includes_newline(line)?;
    }
    Ok(generator.finalize())
}

/// The colour themes of the `syntect` crate.
#[verifier::external_type_specification]
#[verifier::external_body]
pub struct ExThemeSet(syntect::highlighting::ThemeSet);

/// One colour theme of a `syntect` theme set.
#[verifier::external_type_specification]
#[verifier::external_body]
pub struct ExTheme(syntect::highlighting::Theme);

/// The names under which a theme set holds its themes: the keys of the map
/// `ThemeSet::themes`.
pub uninterp spec fn theme_names(set: syntect::highlighting::ThemeSet) -> Set<Seq<char>>;

/// The light theme that the style sheet for highlighted code is made from.
pub open spec fn light_theme_name() -> Seq<char> {
    "Solarized (light)"@
}

/// The dark theme that the style sheet for highlighted code is made from.
pub open spec fn dark_theme_name() -> Seq<char> {
    "base16-ocean.dark"@
}

/// `ThemeSet::load_defaults`: the themes that ship with `syntect`. Its
/// documentation lists the keys of the set; two of them are
/// `Solarized (light)` and `base16-ocean.dark`.
pub assume_specification[ syntect::highlighting::ThemeSet::load_defaults ]() -> (set:
    syntect::highlighting::ThemeSet)
    ensures
        theme_names(set).contains(light_theme_name()),
        theme_names(set).contains(dark_theme_name()),
;

/// The theme that a theme set holds under a name.
pub uninterp spec fn theme_named(set: syntect::highlighting::ThemeSet, name: Seq<char>) -> Option<
    syntect::highlighting::Theme,
>;

/// The background colour that a theme states, as red, green and blue.
pub uninterp spec fn background_of(theme: syntect::highlighting::Theme) -> Option<(u8, u8, u8)>;

/// The foreground colour that a theme states, as red, green and blue.
pub uninterp spec fn foreground_of(theme: syntect::highlighting::Theme) -> Option<(u8, u8, u8)>;

/// The style sheet that `syntect` writes for the classes of a theme.
pub uninterp spec fn style_sheet_of(theme: syntect::highlighting::Theme) -> Seq<char>;

/// A look-up in the map `ThemeSet::themes`: the theme of that name, which
/// is found where the name is a key of the map.
#[verifier::external_body]
fn find_theme<'a>(set: &'a syntect::highlighting::ThemeSet, name: &str) -> (theme: Option<
    &'a syntect::highlighting::Theme,
>)
    ensures
        theme is Some <==> theme_names(*set).contains(name@),
        match theme {
            Some(found) => theme_named(*set, name@) == Some(*found),
            None => theme_named(*set, name@) is None,
        },
{
    set.themes.get(name)
}

/// The field `Theme::settings.background`, as red, green and blue.
#[verifier::external_body]
fn theme_background(theme: &syntect::highlighting::Theme) -> (colour: Option<(u8, u8, u8)>)
    ensures
        colour == background_of(*theme),
{
    theme.settings.background.map(|c| (c.r, c.g, c.b))
}

/// The field `Theme::settings.foreground`, as red, green and blue.
#[verifier::external_body]
fn theme_foreground(theme: &syntect::highlighting::Theme) -> (colour: Option<(u8, u8, u8)>)
    ensures
        colour == foreground_of(*theme),
{
    theme.settings.foreground.map(|c| (c.r, c.g, c.b))
}

/// `css_for_theme_with_class_style` with the style that writes the atoms
/// of a scope as classes separated by spaces: the style sheet of a theme,
/// which depends on the theme alone. The function assembles the text and
/// ends in `Ok`; it has no path that gives an error.
#[verifier::external_body]
fn theme_style_sheet(theme: &syntect::highlighting::Theme) -> (css: Result<String, syntect::Error>)
    ensures
        css is Ok,
        css matches Ok(text) ==> text@ == style_sheet_of(*theme),
{
    syntect::html::css_for_theme_with_class_style(theme, syntect::html::ClassStyle::Spaced)
}

/// The message of a `syntect` error, as its `Display` writes it.
#[verifier::external_body]
fn syntect_error_text(error: &syntect::Error) -> (message: String) {
    error.to_string()
}

/// The HTML that `pulldown_cmark` writes for a Markdown text with all of its
/// extensions switched on.
pub uninterp spec fn markdown_html(markdown: Seq<char>) -> Seq<char>;

/// `pulldown_cmark::html::push_html` on a `Parser` over `markdown` with
/// `Options::all()`, into an empty buffer.
#[verifier::external_body]
fn markdown_to_html(markdown: &str) -> (html: String)
    ensures
        html@ == markdown_html(markdown@),
{
    let parser = pulldown_cmark::Parser::new_ext(markdown, pulldown_cmark::Options::all());
    let mut html = String::new();
    pulldown_cmark::html::push_html(&mut html, parser);
    html
}

/// Whether an attribute of this name holds a URL.
pub open spec fn names_url(attr: Seq<char>) -> bool {
    attr == "src"@ || attr == "href"@ || attr == "data"@ || attr == "poster"@ || attr == "srcset"@
}

/// Number of `..` pieces at the start of `parts[from..]`, counted from `from`:
/// the first position at or after `from` that holds another piece.
pub open spec fn parents_end(parts: Seq<Seq<char>>, from: int) -> int
    decreases parts.len() - from,
{
    if from < 0 || from >= parts.len() {
        parts.len() as int
    } else if parts[from] != ".."@ {
        from
    } else {
        parents_end(parts, from + 1)
    }
}

/// A link resolved against the logical location `base` of the page that
/// holds it. Complete URLs, fragments, `data:` and `mailto:` links and
/// absolute paths stay as they are; `./x` and plain `x` are placed under
/// `/base/`; each leading `../` drops one trailing segment of `base`.
pub open spec fn resolved_path(path: Seq<char>, base: Seq<char>) -> Seq<char> {
    let link = trimmed(path);
    let under = trimmed_char(base, '/');
    if has_prefix(link, "http://"@) || has_prefix(link, "https://"@) || has_prefix(link, "//"@)
        || has_prefix(link, "#"@) || has_prefix(link, "data:"@) || has_prefix(link, "mailto:"@) {
        link
    } else if has_prefix(link, "/"@) {
        link
    } else if has_prefix(link, "./"@) {
        "/"@ + under + "/"@ + link.subrange("./"@.len() as int, link.len() as int)
    } else if has_prefix(link, "../"@) {
        let segments = split_on(under, '/');
        let pieces = split_on(link, '/');
        let up = parents_end(pieces, 0);
        let kept = if up >= segments.len() {
            Seq::<Seq<char>>::empty()
        } else {
            segments.subrange(0, segments.len() - up)
        };
        let head = if kept.len() > 0 {
            "/"@ + join_with(kept, "/"@) + "/"@
        } else {
            "/"@
        };
        head + join_with(pieces.subrange(up, pieces.len() as int), "/"@)
    } else {
        "/"@ + under + "/"@ + link
    }
}

/// An attribute as a template sees it: a value that holds a URL is resolved
/// against `base`.
pub open spec fn resolved_pair(p: (Seq<char>, Seq<char>), base: Seq<char>) -> (
    Seq<char>,
    Seq<char>,
) {
    if names_url(p.0) {
        (p.0, resolved_path(p.1, base))
    } else {
        p
    }
}

/// What the template of a component is given for one element: its
/// attributes in the order written, those that hold a URL resolved against
/// `base`, and then the inner markup under `content` unless it is empty.
pub open spec fn component_context(
    attrs: Seq<(Seq<char>, Seq<char>)>,
    inner: Seq<char>,
    base: Seq<char>,
) -> Seq<(Seq<char>, Seq<char>)> {
    let resolved = attrs.map_values(|p: (Seq<char>, Seq<char>)| resolved_pair(p, base));
    if inner.len() > 0 {
        resolved.push(("content"@, inner))
    } else {
        resolved
    }
}

/// The context for the element at `span` of the text `s`.
pub open spec fn element_context(s: Seq<char>, span: Span, base: Seq<char>) -> Seq<
    (Seq<char>, Seq<char>),
> {
    component_context(
        attributes_of(s.subrange(span.start, span.open_end)),
        s.subrange(span.open_end, span.close_start),
        base,
    )
}

/// `out` is `html` with some of its top-level elements of `tag` replaced by
/// other text, and nothing else changed.
pub open spec fn is_splice_of(html: Seq<char>, tag: Seq<char>, out: Seq<char>) -> bool {
    exists|outcomes: Seq<Option<Seq<char>>>|
        outcomes.len() == elements_of(html, tag).len() && #[trigger] spliced(
            html,
            elements_of(html, tag),
            outcomes,
        ) == out
}

/// Name of the template that renders the component for `tag`.
pub open spec fn component_template(tag: Seq<char>) -> Seq<char> {
    "components/"@ + tag + ".html"@
}

/// The tags that can have a component, in the order in which they are
/// processed.
pub open spec fn component_tags() -> Seq<Seq<char>> {
    seq![
        "img"@,
        "code"@,
        "pre"@,
        "blockquote"@,
        "table"@,
        "a"@,
        "h1"@,
        "h2"@,
        "h3"@,
        "h4"@,
        "h5"@,
        "h6"@,
        "p"@,
        "ul"@,
        "ol"@,
        "li"@,
        "strong"@,
        "em"@,
        "del"@,
    ]
}

/// One step of component processing: where the engine holds the template of
/// `tag`, `after` is `before` with elements of `tag` replaced; where it does
/// not, `after` is `before`.
pub open spec fn component_step(
    before: Seq<char>,
    tag: Seq<char>,
    engine: tera::Tera,
    after: Seq<char>,
) -> bool {
    if registered_templates(engine).contains(component_template(tag)) {
        is_splice_of(before, tag, after)
    } else {
        after == before
    }
}

/// `out` comes from `html` by one step for each of `tags`, in order.
pub open spec fn components_applied(
    html: Seq<char>,
    tags: Seq<Seq<char>>,
    engine: tera::Tera,
    out: Seq<char>,
) -> bool {
    exists|stages: Seq<Seq<char>>|
        #![trigger stages.len()]
        {
            &&& stages.len() == tags.len() + 1
            &&& stages[0] == html
            &&& stages[tags.len() as int] == out
            &&& forall|i: int|
                0 <= i < tags.len() ==> component_step(
                    #[trigger] stages[i],
                    tags[i],
                    engine,
                    stages[i + 1],
                )
        }
}

/// `html` with the five entities `&lt;`, `&gt;`, `&amp;`, `&quot;` and `&#39;`
/// replaced by their characters, one entity after the other in this order.
pub open spec fn entities_decoded(html: Seq<char>) -> Seq<char> {
    replaced(
        replaced(
            replaced(replaced(replaced(html, "&lt;"@, "<"@), "&gt;"@, ">"@), "&amp;"@, "&"@),
            "&quot;"@,
            "\""@,
        ),
        "&#39;"@,
        "'"@,
    )
}

/// What marks the language of a code block in its `class` attribute.
pub open spec fn language_marker() -> Seq<char> {
    "class=\"language-"@
}

/// The language and the code of a `<pre>` element's inner markup, where that
/// markup is one `<code class="language-X">...</code>` element: `X`, and the
/// text between the first `>` and the last `</code>` with its entities
/// decoded.
pub open spec fn code_block_of(inner: Seq<char>) -> Option<(Seq<char>, Seq<char>)> {
    let content = trimmed(inner);
    let code_open = first_index_of(content, '>', 0);
    if !has_prefix(content, "<code"@) {
        None
    } else {
        match (
            first_occurrence(content, language_marker(), 0),
            last_occurrence(content, "</code>"@, content.len() as int),
        ) {
            (Some(at), Some(code_close)) => {
                let lang_start = at + language_marker().len();
                let lang_end = first_index_of(content, '"', lang_start);
                if lang_end >= content.len() || code_open >= code_close {
                    None
                } else {
                    Some(
                        (
                            content.subrange(lang_start, lang_end),
                            entities_decoded(content.subrange(code_open + 1, code_close)),
                        ),
                    )
                }
            },
            _ => None,
        }
    }
}

/// What opens a highlighted block.
pub open spec fn highlight_open() -> Seq<char> {
    "<pre class=\"syntax-highlight\"><code>"@
}

/// What closes a highlighted block.
pub open spec fn highlight_close() -> Seq<char> {
    "</code></pre>"@
}

/// `block` is a highlighted block: some markup between `highlight_open()`
/// and `highlight_close()`.
pub open spec fn is_highlight_block(block: Seq<char>) -> bool {
    &&& block.len() >= highlight_open().len() + highlight_close().len()
    &&& has_prefix(block, highlight_open())
    &&& has_suffix(block, highlight_close())
}

/// The lines of `s` from `from` on, each with its line feed; the last one
/// may lack it.
pub open spec fn lines_from(s: Seq<char>, from: int) -> Seq<Seq<char>>
    decreases s.len() - from,
{
    if from < 0 || from >= s.len() {
        Seq::empty()
    } else {
        let feed = first_index_of(s, '\n', from);
        let end = if feed < s.len() { feed + 1 } else { s.len() as int };
        proof {
            lemma_first_index_of(s, '\n', from);
        }
        seq![s.subrange(from, end)] + lines_from(s, end)
    }
}

/// The texts that a vector of strings stands for.
pub open spec fn strings_view(v: Seq<String>) -> Seq<Seq<char>> {
    v.map_values(|t: String| t@)
}

/// The name of the syntax that reads code of an unknown language.
pub open spec fn plain_syntax_name() -> Seq<char> {
    "Plain Text"@
}

/// The syntax that code marked as `lang` is read by: the one that the set
/// finds for `lang`, else the one it holds for plain text.
pub open spec fn chosen_syntax(set: syntect::parsing::SyntaxSet, lang: Seq<char>) -> Option<
    syntect::parsing::SyntaxReference,
> {
    if token_syntax(set, lang) is Some {
        token_syntax(set, lang)
    } else {
        named_syntax(set, plain_syntax_name())
    }
}

/// The highlighted block for `code` marked as `lang`: the markup of its
/// lines between `highlight_open()` and `highlight_close()`. `None` where
/// the set has no syntax to read it by, or where a line cannot be read.
pub open spec fn highlighted(
    set: syntect::parsing::SyntaxSet,
    lang: Seq<char>,
    code: Seq<char>,
) -> Option<Seq<char>> {
    match chosen_syntax(set, lang) {
        Some(syntax) => match classed_markup(set, syntax, lines_from(code, 0)) {
            Some(body) => Some(highlight_open() + body + highlight_close()),
            None => None,
        },
        None => None,
    }
}

/// What replaces a `<pre>` element with the inner markup `inner`: the
/// highlighted block of its code where it is a code block with a language
/// that can be highlighted, and nothing where it is not.
pub open spec fn pre_outcome(set: syntect::parsing::SyntaxSet, inner: Seq<char>) -> Option<
    Seq<char>,
> {
    match code_block_of(inner) {
        Some((lang, code)) => highlighted(set, lang, code),
        None => None,
    }
}

/// What replaces each of the elements `spans` of `html`, in their order.
pub open spec fn pre_outcomes(
    set: syntect::parsing::SyntaxSet,
    html: Seq<char>,
    spans: Seq<Span>,
) -> Seq<Option<Seq<char>>> {
    Seq::new(
        spans.len(),
        |i: int| pre_outcome(set, html.subrange(spans[i].open_end, spans[i].close_start)),
    )
}

/// `html` with each `<pre>` element that holds a code block replaced by the
/// highlighted block of its code, and nothing else changed.
pub open spec fn blocks_highlighted(set: syntect::parsing::SyntaxSet, html: Seq<char>) -> Seq<
    char,
> {
    spliced(
        html,
        elements_of(html, "pre"@),
        pre_outcomes(set, html, elements_of(html, "pre"@)),
    )
}

/// The lower-case hexadecimal digit for a value below 16.
pub open spec fn hex_lower(n: u8) -> char {
    if n < 10 {
        (48 + n) as u8 as char
    } else {
        (87 + n) as u8 as char
    }
}

/// A colour as CSS writes it: `#` and two hexadecimal digits each for red,
/// green and blue.
pub open spec fn css_colour(colour: (u8, u8, u8)) -> Seq<char> {
    seq![
        '#',
        hex_lower(colour.0 / 16),
        hex_lower(colour.0 % 16),
        hex_lower(colour.1 / 16),
        hex_lower(colour.1 % 16),
        hex_lower(colour.2 / 16),
        hex_lower(colour.2 % 16),
    ]
}

/// The background and foreground of a theme, white and black where the
/// theme states none.
pub struct ThemeColours {
    pub background: Option<(u8, u8, u8)>,
    pub foreground: Option<(u8, u8, u8)>,
}

/// The two variables that a theme sets, each on a line that starts with
/// `indent`.
pub open spec fn theme_variables(colours: ThemeColours, indent: Seq<char>) -> Seq<char> {
    indent + "--syntax-bg: "@ + css_colour(
        match colours.background {
            Some(colour) => colour,
            None => (255u8, 255u8, 255u8),
        },
    ) + ";\n"@ + indent + "--syntax-fg: "@ + css_colour(
        match colours.foreground {
            Some(colour) => colour,
            None => (0u8, 0u8, 0u8),
        },
    ) + ";\n"@
}

/// A style sheet with its colours replaced by the two variables; the
/// colour itself stays behind as the start of a comment.
pub open spec fn with_variables(css: Seq<char>) -> Seq<char> {
    replaced(
        replaced(css, "background-color:#"@, "background-color: var(--syntax-bg); /* #"@),
        "color:#"@,
        "color: var(--syntax-fg); /* #"@,
    )
}

/// The style sheet for highlighted code: the variables for light and for
/// dark displays, the classes of `style_sheet` in terms of the variables,
/// and the rules for the highlighted block.
pub open spec fn theme_css_text(light: ThemeColours, dark: ThemeColours, style_sheet: Seq<char>) -> Seq<
    char,
> {
    ":root {\n  color-scheme: light dark;\n}\n\n/* Light theme */\n@media (prefers-color-scheme: light) {\n  :root {\n"@
        + theme_variables(light, "    "@)
        + "  }\n}\n\n/* Dark theme */\n@media (prefers-color-scheme: dark) {\n  :root {\n"@
        + theme_variables(dark, "    "@) + "  }\n}\n\n"@ + with_variables(style_sheet)
        + "\n.syntax-highlight {\n  background-color: var(--syntax-bg);\n  color: var(--syntax-fg);\n  padding: 1em;\n  overflow-x: auto;\n  border-radius: 4px;\n}\n\n.syntax-highlight code {\n  font-family: 'Consolas', 'Monaco', 'Courier New', monospace;\n  font-size: 0.9em;\n  line-height: 1.5;\n}\n"@
}

/// The colours that a theme states.
pub open spec fn colours_of(theme: syntect::highlighting::Theme) -> ThemeColours {
    ThemeColours { background: background_of(theme), foreground: foreground_of(theme) }
}

/// The style sheet for highlighted code that a theme set gives: the
/// colours of its light and of its dark theme, and the classes of the dark
/// one.
pub open spec fn style_of_themes(set: syntect::highlighting::ThemeSet) -> Seq<char>
    recommends
        theme_named(set, light_theme_name()) is Some,
        theme_named(set, dark_theme_name()) is Some,
{
    let light = theme_named(set, light_theme_name()).unwrap();
    let dark = theme_named(set, dark_theme_name()).unwrap();
    theme_css_text(colours_of(light), colours_of(dark), style_sheet_of(dark))
}

/// Why a piece of code could not be highlighted.
#[derive(Debug)]
pub struct HighlightError {
    /// What went wrong, in words.
    pub message: String,
}

/// Converts Markdown to HTML, substitutes components and highlights code.
pub struct Renderer {
    syntax_set: syntect::parsing::SyntaxSet,
    theme_set: syntect::highlighting::ThemeSet,
}

impl Renderer {
    /// Whether an attribute of this name holds a URL.
    pub fn is_url_attribute(attr: &str) -> (url: bool)
        ensures
            url == names_url(attr@),
    {
        str_eq(attr, "src") || str_eq(attr, "href") || str_eq(attr, "data") || str_eq(
            attr,
            "poster",
        ) || str_eq(attr, "srcset")
    }

    /// Resolves a link found in a page against the page's logical location.
    pub fn resolve_path(path: &str, base_path: &str) -> (resolved: String)
        ensures
            resolved@ == resolved_path(path@, base_path@),
    {
        let raw = chars_of(path);
        let link = trim(&raw);
        let base = chars_of(base_path);
        let under = trim_char(&base, '/');
        let slash = chars_of("/");
        if starts_with(&link, &chars_of("http://")) || starts_with(&link, &chars_of("https://"))
            || starts_with(&link, &chars_of("//")) || starts_with(&link, &chars_of("#"))
            || starts_with(&link, &chars_of("data:")) || starts_with(
            &link,
            &chars_of("mailto:"),
        ) {
            return string_of(&link);
        }
        if starts_with(&link, &slash) {
            return string_of(&link);
        }
        let mut out: Vec<char> = Vec::new();
        if starts_with(&link, &chars_of("./")) {
            proof {
                reveal_strlit("./");
            }
            push_all(&mut out, &slash);
            push_all(&mut out, &under);
            push_all(&mut out, &slash);
            push_range(&mut out, &link, 2, link.len());
            return string_of(&out);
        }
        if starts_with(&link, &chars_of("../")) {
            let segments = split(&under, '/');
            let pieces = split(&link, '/');
            let parent = chars_of("..");
            let mut up: usize = 0;
            while up < pieces.len() && crate::text::chars_eq(&pieces[up], &parent)
                invariant
                    up <= pieces.len(),
                    parent@ == ".."@,
                    parents_end(texts_view(pieces@), 0) == parents_end(
                        texts_view(pieces@),
                        up as int,
                    ),
                decreases pieces.len() - up,
            {
                up += 1;
            }
            let keep: usize = if up >= segments.len() {
                0
            } else {
                segments.len() - up
            };
            let kept = join(&segments, 0, keep, &slash);
            let rest = join(&pieces, up, pieces.len(), &slash);
            push_all(&mut out, &slash);
            if keep > 0 {
                push_all(&mut out, &kept);
                push_all(&mut out, &slash);
            }
            push_all(&mut out, &rest);
            proof {
                let segs = texts_view(segments@);
                if up >= segments.len() {
                    assert(segs.subrange(0, 0) == Seq::<Seq<char>>::empty());
                }
            }
            return string_of(&out);
        }
        push_all(&mut out, &slash);
        push_all(&mut out, &under);
        push_all(&mut out, &slash);
        push_all(&mut out, &link);
        string_of(&out)
    }

    /// Reads the attributes of an opening tag, in the order written.
    pub fn extract_attributes(tag: &str) -> (attrs: Vec<(String, String)>)
        ensures
            pairs_view(attrs@) == attributes_of(tag@),
    {
        let t = chars_of(tag);
        tag_attributes(&t)
    }

    /// The context handed to a component's template for the element at
    /// `span` of `s`.
    pub fn element_values(s: &Vec<char>, span: &ElementSpan, base_path: &str) -> (context: Vec<
        (String, String),
    >)
        requires
            span.start <= span.open_end <= span.close_start <= s.len(),
        ensures
            pairs_view(context@) == element_context(s@, span@, base_path@),
    {
        let tag = slice_of(s, span.start, span.open_end);
        let attrs = tag_attributes(&tag);
        let mut context: Vec<(String, String)> = Vec::new();
        let ghost written = attributes_of(tag@);
        let mut i: usize = 0;
        while i < attrs.len()
            invariant
                i <= attrs.len(),
                pairs_view(attrs@) == written,
                context@.len() == i,
                forall|j: int|
                    0 <= j < i ==> #[trigger] pairs_view(context@)[j] == resolved_pair(
                        written[j],
                        base_path@,
                    ),
            decreases attrs.len() - i,
        {
            let key = attrs[i].0.clone();
            let value = if Self::is_url_attribute(attrs[i].0.as_str()) {
                Self::resolve_path(attrs[i].1.as_str(), base_path)
            } else {
                attrs[i].1.clone()
            };
            let ghost before = pairs_view(context@);
            context.push((key, value));
            proof {
                assert(written[i as int] == (attrs@[i as int].0@, attrs@[i as int].1@));
                assert(pairs_view(context@) =~= before.push((key@, value@)));
            }
            i += 1;
        }
        assert(pairs_view(context@) =~= written.map_values(
            |p: (Seq<char>, Seq<char>)| resolved_pair(p, base_path@),
        ));
        if span.close_start > span.open_end {
            let inner = string_of_range(s, span.open_end, span.close_start);
            let ghost before = pairs_view(context@);
            context.push(("content".to_owned(), inner));
            assert(pairs_view(context@) == before.push(("content"@, inner@)));
        }
        context
    }

    /// Replaces each top-level element of `tag_name` in `html` by what the
    /// template `template_name` renders for it; an element for which
    /// rendering fails stays as it is.
    pub fn replace_tag(
        html: &str,
        tag_name: &str,
        tera: &tera::Tera,
        template_name: &str,
        base_path: &str,
    ) -> (out: String)
        ensures
            is_splice_of(html@, tag_name@, out@),
            !registered_templates(*tera).contains(template_name@) ==> out@ == html@,
    {
        let s = chars_of(html);
        let name = chars_of(tag_name);
        let spans = find_elements(&s, &name);
        let mut outcomes: Vec<Option<Vec<char>>> = Vec::new();
        let mut k: usize = 0;
        while k < spans.len()
            invariant
                k <= spans.len(),
                outcomes@.len() == k,
                spans_in_order(spans_view(spans@), 0, s@.len() as int),
                !registered_templates(*tera).contains(template_name@) ==> forall|i: int|
                    0 <= i < k ==> outcomes@[i] is None,
            decreases spans.len() - k,
        {
            let span = spans[k];
            assert(spans_view(spans@)[k as int] == span@);
            let context = Self::element_values(&s, &span, base_path);
            let outcome = match render_template(tera, template_name, &context) {
                Some(rendered) => Some(chars_of(rendered.as_str())),
                None => None,
            };
            outcomes.push(outcome);
            k += 1;
        }
        let out = splice(&s, &spans, &outcomes);
        proof {
            let oc = outcomes_view(outcomes@);
            assert(oc.len() == elements_of(s@, name@).len());
            assert(spliced(s@, elements_of(s@, name@), oc) == out@);
            if !registered_templates(*tera).contains(template_name@) {
                assert forall|i: int| 0 <= i < oc.len() implies oc[i] is None by {
                    assert(outcomes@[i] is None);
                }
                lemma_spliced_unchanged(s@, elements_of(s@, name@), oc);
            }
        }
        string_of(&out)
    }

    /// The tags that can have a component, in processing order.
    pub fn component_tag_names() -> (tags: Vec<&'static str>)
        ensures
            tags@.len() == component_tags().len(),
            forall|i: int| 0 <= i < tags@.len() ==> (#[trigger] tags@[i])@ == component_tags()[i],
    {
        vec![
            "img",
            "code",
            "pre",
            "blockquote",
            "table",
            "a",
            "h1",
            "h2",
            "h3",
            "h4",
            "h5",
            "h6",
            "p",
            "ul",
            "ol",
            "li",
            "strong",
            "em",
            "del",
        ]
    }

    /// Substitutes components: for each tag that can have one and whose
    /// template `components/<tag>.html` the engine holds, in order, the
    /// elements of that tag are replaced by what the template renders.
    pub fn post_process_components(html: &str, tera: &tera::Tera, base_path: &str) -> (out: String)
        ensures
            components_applied(html@, component_tags(), *tera, out@),
            (forall|i: int|
                0 <= i < component_tags().len() ==> !registered_templates(*tera).contains(
                    component_template(#[trigger] component_tags()[i]),
                )) ==> out@ == html@,
    {
        let tags = Self::component_tag_names();
        let mut result: String = html.to_owned();
        let ghost mut stages: Seq<Seq<char>> = seq![html@];
        let mut k: usize = 0;
        while k < tags.len()
            invariant
                k <= tags.len(),
                tags@.len() == component_tags().len(),
                forall|i: int|
                    0 <= i < tags@.len() ==> (#[trigger] tags@[i])@ == component_tags()[i],
                stages.len() == k + 1,
                stages[0] == html@,
                stages[k as int] == result@,
                forall|i: int|
                    0 <= i < k ==> component_step(
                        #[trigger] stages[i],
                        component_tags()[i],
                        *tera,
                        stages[i + 1],
                    ),
                (forall|i: int|
                    0 <= i < k ==> !registered_templates(*tera).contains(
                        component_template(#[trigger] component_tags()[i]),
                    )) ==> result@ == html@,
            decreases tags.len() - k,
        {
            let tag = tags[k];
            assert(tag@ == component_tags()[k as int]);
            let mut template: Vec<char> = Vec::new();
            push_str(&mut template, "components/");
            push_str(&mut template, tag);
            push_str(&mut template, ".html");
            let template_name = string_of(&template);
            assert(template_name@ == component_template(tag@));
            let ghost before = result@;
            if template_exists(tera, template_name.as_str()) {
                result = Self::replace_tag(
                    result.as_str(),
                    tag,
                    tera,
                    template_name.as_str(),
                    base_path,
                );
            }
            proof {
                let earlier = stages;
                stages = stages.push(result@);
                assert(component_step(before, component_tags()[k as int], *tera, result@));
                assert forall|i: int| 0 <= i < k + 1 implies component_step(
                    #[trigger] stages[i],
                    component_tags()[i],
                    *tera,
                    stages[i + 1],
                ) by {
                    if i < k {
                        assert(stages[i] == earlier[i]);
                        assert(stages[i + 1] == earlier[i + 1]);
                        assert(component_step(
                            earlier[i],
                            component_tags()[i],
                            *tera,
                            earlier[i + 1],
                        ));
                    }
                }
            }
            k += 1;
        }
        assert(components_applied(html@, component_tags(), *tera, result@)) by {
            assert(stages.len() == component_tags().len() + 1);
        }
        result
    }

    /// A renderer holds the two themes that its style sheet is made from.
    #[verifier::type_invariant]
    spec fn holds_themes(&self) -> bool {
        theme_names(self.theme_set).contains(light_theme_name()) && theme_names(
            self.theme_set,
        ).contains(dark_theme_name())
    }

    /// The syntax definitions that the renderer highlights with.
    pub closed spec fn syntaxes(&self) -> syntect::parsing::SyntaxSet {
        self.syntax_set
    }

    /// The themes that the renderer holds.
    pub closed spec fn theme_set(&self) -> syntect::highlighting::ThemeSet {
        self.theme_set
    }

    /// The names of the themes that the renderer holds.
    pub closed spec fn themes(&self) -> Set<Seq<char>> {
        theme_names(self.theme_set)
    }

    /// A renderer with the syntax definitions and themes that ship with
    /// `syntect`, among them the light and the dark theme that the style
    /// sheet for highlighted code is made from.
    pub fn new() -> (renderer: Self)
        ensures
            renderer.themes().contains(light_theme_name()),
            renderer.themes().contains(dark_theme_name()),
    {
        Renderer {
            syntax_set: syntect::parsing::SyntaxSet::load_defaults_newlines(),
            theme_set: syntect::highlighting::ThemeSet::load_defaults(),
        }
    }

    /// Replaces the five HTML entities that Markdown rendering writes in code
    /// by their characters.
    pub fn decode_html_entities(html: &str) -> (decoded: String)
        ensures
            decoded@ == entities_decoded(html@),
    {
        let s = chars_of(html);
        string_of(&Self::decode_entities(&s))
    }

    fn decode_entities(s: &Vec<char>) -> (decoded: Vec<char>)
        ensures
            decoded@ == entities_decoded(s@),
    {
        let a = replace_all(s, &chars_of("&lt;"), &chars_of("<"));
        let b = replace_all(&a, &chars_of("&gt;"), &chars_of(">"));
        let c = replace_all(&b, &chars_of("&amp;"), &chars_of("&"));
        let d = replace_all(&c, &chars_of("&quot;"), &chars_of("\""));
        replace_all(&d, &chars_of("&#39;"), &chars_of("'"))
    }

    /// Reads the inner markup of a `<pre>` element as a code block: its
    /// language and its code, entities decoded.
    pub fn code_block(inner: &str) -> (block: Option<(String, String)>)
        ensures
            match block {
                Some((lang, code)) => code_block_of(inner@) == Some((lang@, code@)),
                None => code_block_of(inner@) is None,
            },
    {
        let raw = chars_of(inner);
        let content = trim(&raw);
        if !starts_with(&content, &chars_of("<code")) {
            return None;
        }
        let marker = chars_of("class=\"language-");
        let class_at = find_sub(&content, &marker, 0);
        let code_close = rfind_sub(&content, &chars_of("</code>"));
        let code_open = find_char(&content, '>', 0);
        match (class_at, code_close) {
            (Some(at), Some(close)) => {
                let lang_start = at + marker.len();
                let lang_end = find_char(&content, '"', lang_start);
                if lang_end >= content.len() || code_open >= close {
                    return None;
                }
                let lang = string_of_range(&content, lang_start, lang_end);
                let code = slice_of(&content, code_open + 1, close);
                Some((lang, string_of(&Self::decode_entities(&code))))
            },
            _ => None,
        }
    }

    /// Splits `code` into its lines, each with its line feed.
    pub fn lines_with_endings(code: &str) -> (lines: Vec<String>)
        ensures
            strings_view(lines@) == lines_from(code@, 0),
    {
        let s = chars_of(code);
        let mut lines: Vec<String> = Vec::new();
        let mut from: usize = 0;
        assert(strings_view(lines@) + lines_from(s@, 0) == lines_from(s@, 0));
        while from < s.len()
            invariant
                from <= s.len(),
                s@ == code@,
                strings_view(lines@) + lines_from(s@, from as int) == lines_from(s@, 0),
            decreases s.len() - from,
        {
            let feed = find_char(&s, '\n', from);
            let end = if feed < s.len() { feed + 1 } else { s.len() };
            let line = string_of_range(&s, from, end);
            let ghost before = strings_view(lines@);
            lines.push(line);
            assert(strings_view(lines@) == before + seq![line@]);
            assert(before + (seq![line@] + lines_from(s@, end as int)) == (before + seq![line@])
                + lines_from(s@, end as int));
            from = end;
        }
        assert(strings_view(lines@) + Seq::<Seq<char>>::empty() == strings_view(lines@));
        lines
    }

    /// The syntax to highlight with: the one found for the language, or the
    /// one for plain text where none was found.
    pub fn syntax_or_plain<'a>(
        known: Option<&'a syntect::parsing::SyntaxReference>,
        plain: Option<&'a syntect::parsing::SyntaxReference>,
    ) -> (syntax: Option<&'a syntect::parsing::SyntaxReference>)
        ensures
            syntax == if known is Some {
                known
            } else {
                plain
            },
    {
        match known {
            Some(found) => Some(found),
            None => plain,
        }
    }

    /// The highlighted block around the markup `body`.
    pub fn highlighted_block(body: &str) -> (block: String)
        ensures
            block@ == highlight_open() + body@ + highlight_close(),
            is_highlight_block(block@),
    {
        let open = chars_of("<pre class=\"syntax-highlight\"><code>");
        let close = chars_of("</code></pre>");
        let mut out: Vec<char> = Vec::new();
        push_all(&mut out, &open);
        push_str(&mut out, body);
        push_all(&mut out, &close);
        proof {
            assert(out@ == (open@ + body@) + close@);
            assert(out@.subrange(0, open@.len() as int) == open@);
            assert(out@.subrange(out@.len() - close@.len(), out@.len() as int) == close@);
        }
        string_of(&out)
    }

    /// Highlights `code` as the language `lang`, or as plain text where the
    /// language is unknown: a block of markup with one class per scope. It
    /// fails where the syntax definitions hold none for plain text either,
    /// or where a line cannot be read.
    pub fn highlight_code(&self, code: &str, lang: &str) -> (outcome: Result<
        String,
        HighlightError,
    >)
        ensures
            match outcome {
                Ok(block) => highlighted(self.syntaxes(), lang@, code@) == Some(block@),
                Err(_) => highlighted(self.syntaxes(), lang@, code@) is None,
            },
    {
        let syntax = match Self::syntax_or_plain(
            self.syntax_set.find_syntax_by_token(lang),
            self.syntax_set.find_syntax_by_name("Plain Text"),
        ) {
            Some(syntax) => syntax,
            None => {
                return Err(HighlightError { message: "no syntax for plain text".to_owned() });
            },
        };
        assert(chosen_syntax(self.syntax_set, lang@) == Some(*syntax));
        assert(found_in(self.syntax_set, *syntax)) by {
            if token_syntax(self.syntax_set, lang@) is Some {
                assert(token_syntax(self.syntax_set, lang@) == Some(*syntax));
            } else {
                assert(named_syntax(self.syntax_set, plain_syntax_name()) == Some(*syntax));
            }
        }
        let lines = Self::lines_with_endings(code);
        match classed_html(syntax, &self.syntax_set, &lines) {
            Ok(body) => Ok(Self::highlighted_block(body.as_str())),
            Err(error) => Err(HighlightError { message: syntect_error_text(&error) }),
        }
    }

    /// Highlights the inner markup of a `<pre>` element where it is a code
    /// block with a language; `None` where it is not, or where highlighting
    /// fails.
    pub fn process_pre_content(&self, content: &str) -> (outcome: Option<String>)
        ensures
            match outcome {
                Some(block) => pre_outcome(self.syntaxes(), content@) == Some(block@),
                None => pre_outcome(self.syntaxes(), content@) is None,
            },
    {
        match Self::code_block(content) {
            Some((lang, code)) => match self.highlight_code(code.as_str(), lang.as_str()) {
                Ok(block) => Some(block),
                Err(_) => None,
            },
            None => None,
        }
    }

    /// Highlights the code blocks of `html`; every other part, and every
    /// `<pre>` element that is no code block or cannot be highlighted, stays
    /// as it is.
    pub fn highlight_code_blocks(&self, html: &str) -> (out: String)
        ensures
            out@ == blocks_highlighted(self.syntaxes(), html@),
    {
        let s = chars_of(html);
        let name = chars_of("pre");
        let spans = find_elements(&s, &name);
        let ghost wanted = pre_outcomes(self.syntaxes(), s@, spans_view(spans@));
        let mut outcomes: Vec<Option<Vec<char>>> = Vec::new();
        let mut k: usize = 0;
        while k < spans.len()
            invariant
                k <= spans.len(),
                outcomes@.len() == k,
                spans_in_order(spans_view(spans@), 0, s@.len() as int),
                wanted == pre_outcomes(self.syntaxes(), s@, spans_view(spans@)),
                forall|i: int| 0 <= i < k ==> #[trigger] outcomes_view(outcomes@)[i] == wanted[i],
            decreases spans.len() - k,
        {
            let span = spans[k];
            assert(spans_view(spans@)[k as int] == span@);
            let inner = string_of_range(&s, span.open_end, span.close_start);
            let outcome = match self.process_pre_content(inner.as_str()) {
                Some(block) => Some(chars_of(block.as_str())),
                None => None,
            };
            let ghost before = outcomes_view(outcomes@);
            outcomes.push(outcome);
            proof {
                let after = outcomes_view(outcomes@);
                assert forall|i: int| 0 <= i < k + 1 implies #[trigger] after[i] == wanted[i] by {
                    if i < k {
                        assert(after[i] == before[i]);
                    }
                }
            }
            k += 1;
        }
        let out = splice(&s, &spans, &outcomes);
        proof {
            assert(name@ == "pre"@);
            assert(outcomes_view(outcomes@) =~= wanted);
        }
        string_of(&out)
    }

    /// Renders Markdown to HTML and highlights its code blocks.
    pub fn render_markdown(&self, markdown: &str) -> (out: String)
        ensures
            out@ == blocks_highlighted(self.syntaxes(), markdown_html(markdown@)),
    {
        let html = markdown_to_html(markdown);
        self.highlight_code_blocks(html.as_str())
    }

    /// Renders Markdown to HTML, substitutes the components that the engine
    /// has templates for, and then highlights the code blocks.
    pub fn render_markdown_with_components(
        &self,
        markdown: &str,
        tera: &tera::Tera,
        base_path: &str,
    ) -> (out: String)
        ensures
            exists|substituted: Seq<char>|
                #![trigger blocks_highlighted(self.syntaxes(), substituted)]
                components_applied(
                    markdown_html(markdown@),
                    component_tags(),
                    *tera,
                    substituted,
                ) && out@ == blocks_highlighted(self.syntaxes(), substituted),
    {
        let html = markdown_to_html(markdown);
        let substituted = Self::post_process_components(html.as_str(), tera, base_path);
        let out = self.highlight_code_blocks(substituted.as_str());
        assert(out@ == blocks_highlighted(self.syntaxes(), substituted@));
        out
    }

    /// A colour as CSS writes it.
    pub fn color_to_css(colour: (u8, u8, u8)) -> (css: String)
        ensures
            css@ == css_colour(colour),
    {
        let mut out: Vec<char> = Vec::new();
        out.push('#');
        Self::push_hex(&mut out, colour.0);
        Self::push_hex(&mut out, colour.1);
        Self::push_hex(&mut out, colour.2);
        assert(out@ =~= css_colour(colour));
        string_of(&out)
    }

    fn push_hex(out: &mut Vec<char>, byte: u8)
        ensures
            final(out)@ == old(out)@.push(hex_lower(byte / 16)).push(hex_lower(byte % 16)),
    {
        let high = byte / 16;
        let low = byte % 16;
        out.push(if high < 10 { (48 + high) as char } else { (87 + high) as char });
        out.push(if low < 10 { (48 + low) as char } else { (87 + low) as char });
    }

    /// Appends the two variables that a theme sets to `css`.
    pub fn add_theme_variables(css: &mut Vec<char>, colours: &ThemeColours, indent: &str)
        ensures
            final(css)@ == old(css)@ + theme_variables(*colours, indent@),
    {
        let background = match colours.background {
            Some(colour) => colour,
            None => (255u8, 255u8, 255u8),
        };
        let foreground = match colours.foreground {
            Some(colour) => colour,
            None => (0u8, 0u8, 0u8),
        };
        let ghost before = css@;
        push_str(css, indent);
        push_str(css, "--syntax-bg: ");
        push_str(css, Self::color_to_css(background).as_str());
        push_str(css, ";\n");
        push_str(css, indent);
        push_str(css, "--syntax-fg: ");
        push_str(css, Self::color_to_css(foreground).as_str());
        push_str(css, ";\n");
        assert(css@ == before + (indent@ + "--syntax-bg: "@ + css_colour(background) + ";\n"@
            + indent@ + "--syntax-fg: "@ + css_colour(foreground) + ";\n"@));
    }

    /// Replaces the colours of a style sheet by the two variables.
    pub fn convert_css_to_variables(css: &str) -> (converted: String)
        ensures
            converted@ == with_variables(css@),
    {
        let a = replace_all(
            &chars_of(css),
            &chars_of("background-color:#"),
            &chars_of("background-color: var(--syntax-bg); /* #"),
        );
        let b = replace_all(&a, &chars_of("color:#"), &chars_of("color: var(--syntax-fg); /* #"));
        string_of(&b)
    }

    /// The style sheet for highlighted code, from the colours of the light
    /// and of the dark theme and the style sheet of the dark theme's
    /// classes.
    pub fn theme_css(light: &ThemeColours, dark: &ThemeColours, style_sheet: &str) -> (css: String)
        ensures
            css@ == theme_css_text(*light, *dark, style_sheet@),
    {
        let mut out: Vec<char> = Vec::new();
        push_str(
            &mut out,
            ":root {\n  color-scheme: light dark;\n}\n\n/* Light theme */\n@media (prefers-color-scheme: light) {\n  :root {\n",
        );
        Self::add_theme_variables(&mut out, light, "    ");
        push_str(
            &mut out,
            "  }\n}\n\n/* Dark theme */\n@media (prefers-color-scheme: dark) {\n  :root {\n",
        );
        Self::add_theme_variables(&mut out, dark, "    ");
        push_str(&mut out, "  }\n}\n\n");
        push_str(&mut out, Self::convert_css_to_variables(style_sheet).as_str());
        push_str(
            &mut out,
            "\n.syntax-highlight {\n  background-color: var(--syntax-bg);\n  color: var(--syntax-fg);\n  padding: 1em;\n  overflow-x: auto;\n  border-radius: 4px;\n}\n\n.syntax-highlight code {\n  font-family: 'Consolas', 'Monaco', 'Courier New', monospace;\n  font-size: 0.9em;\n  line-height: 1.5;\n}\n",
        );
        string_of(&out)
    }

    /// The style sheet for highlighted code, made from the light and the
    /// dark theme that every renderer holds. It always succeeds: both themes
    /// are found, and a theme always has a style sheet.
    pub fn generate_theme_css(&self) -> (css: Result<String, HighlightError>)
        ensures
            css matches Ok(text) && text@ == style_of_themes(self.theme_set()),
    {
        proof {
            use_type_invariant(self);
        }
        // The arms for a missing theme and for a failed style sheet are
        // never taken; the contracts of the look-ups show it.
        let light_theme = match find_theme(&self.theme_set, "Solarized (light)") {
            Some(theme) => theme,
            None => {
                return Err(HighlightError { message: "no light theme".to_owned() });
            },
        };
        let dark_theme = match find_theme(&self.theme_set, "base16-ocean.dark") {
            Some(theme) => theme,
            None => {
                return Err(HighlightError { message: "no dark theme".to_owned() });
            },
        };
        let light = ThemeColours {
            background: theme_background(light_theme),
            foreground: theme_foreground(light_theme),
        };
        let dark = ThemeColours {
            background: theme_background(dark_theme),
            foreground: theme_foreground(dark_theme),
        };
        let style_sheet = match theme_style_sheet(dark_theme) {
            Ok(text) => text,
            Err(error) => {
                return Err(HighlightError { message: syntect_error_text(&error) });
            },
        };
        let text = Self::theme_css(&light, &dark, style_sheet.as_str());
        assert(text@ == theme_css_text(light, dark, style_sheet@));
        Ok(text)
    }
}

impl Default for Renderer {
    fn default() -> (renderer: Self) {
        Self::new()
    }
}

} // verus!
