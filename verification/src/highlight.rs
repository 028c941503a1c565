//! Trusted boundary to the `syntect` highlighting engine. The two bundled
//! registries are named so that the highlighter's verdict and output can be
//! named as functions of the theme name, extension and content texts alone.
use vstd::prelude::*;

verus! {

#[verifier::external_type_specification]
#[verifier::external_body]
pub struct ExSyntaxSet(syntect::parsing::SyntaxSet);

#[verifier::external_type_specification]
#[verifier::external_body]
pub struct ExThemeSet(syntect::highlighting::ThemeSet);

/// The registry is the exact grammar set that
/// `SyntaxSet::load_defaults_newlines` produces (which holds the plain-text
/// grammar its `find_syntax_plain_text` expects).
pub uninterp spec fn is_default_syntax_registry(ss: syntect::parsing::SyntaxSet) -> bool;

/// The registry is the exact theme set that `ThemeSet::load_defaults`
/// produces.
pub uninterp spec fn is_default_theme_registry(ts: syntect::highlighting::ThemeSet) -> bool;

/// The names of the themes a theme set holds (the keys of its public
/// `themes` map).
pub uninterp spec fn theme_names(ts: syntect::highlighting::ThemeSet) -> Set<Seq<char>>;

/// Whether highlighting succeeds over the bundled registries, as a function
/// of the theme name, the extension and the content.
pub uninterp spec fn hl_ok(theme: Seq<char>, ext: Seq<char>, content: Seq<char>) -> bool;

/// The HTML snippet highlighting produces over the bundled registries, as a
/// function of the theme name, the extension and the content.
pub uninterp spec fn hl_of(theme: Seq<char>, ext: Seq<char>, content: Seq<char>) -> Seq<char>;

/// Relies on `syntect::parsing::SyntaxSet::load_defaults_newlines`: it
/// deserializes the one grammar registry bundled with the crate, the same
/// value in every process.
#[verifier::external_body]
pub(crate) fn load_syntaxes() -> (r: syntect::parsing::SyntaxSet)
    ensures
        is_default_syntax_registry(r),
{
    syntect::parsing::SyntaxSet::load_defaults_newlines()
}

/// Relies on `syntect::highlighting::ThemeSet::load_defaults`: it deserializes
/// the one theme registry bundled with the crate, the same value in every
/// process; its documentation lists `base16-ocean.dark` and `InspiredGitHub`
/// among the bundled themes.
#[verifier::external_body]
pub(crate) fn load_themes() -> (r: syntect::highlighting::ThemeSet)
    ensures
        is_default_theme_registry(r),
        theme_names(r).contains("base16-ocean.dark"@),
        theme_names(r).contains("InspiredGitHub"@),
{
    syntect::highlighting::ThemeSet::load_defaults()
}

/// Relies on `syntect::parsing::SyntaxSet::find_syntax_by_extension` (an
/// ASCII-case-insensitive extension match), `find_syntax_plain_text` (the
/// fallback grammar, present in the bundled registry, so its internal lookup
/// cannot panic here), the public `themes` map of
/// `syntect::highlighting::ThemeSet` (present for the required name, so the
/// lookup cannot miss), and `syntect::html::highlighted_html_for_string`.
/// Over the bundled registries every step is a deterministic function of the
/// three texts, which is what `hl_ok` and `hl_of` name; a failure is handed
/// back as the error's message text.
#[verifier::external_body]
pub(crate) fn highlight_text(
    ss: &syntect::parsing::SyntaxSet,
    ts: &syntect::highlighting::ThemeSet,
    theme_name: &str,
    ext: &str,
    content: &str,
) -> (r: Result<String, String>)
    requires
        is_default_syntax_registry(*ss),
        is_default_theme_registry(*ts),
        theme_names(*ts).contains(theme_name@),
    ensures
        r is Ok <==> hl_ok(theme_name@, ext@, content@),
        r matches Ok(b) ==> b@ == hl_of(theme_name@, ext@, content@),
{
    let syntax = match ss.find_syntax_by_extension(ext) {
        Some(sx) => sx,
        None => ss.find_syntax_plain_text(),
    };
    let theme = match ts.themes.get(theme_name) {
        Some(t) => t,
        // unreachable: the requires pins the bundled registry and the name
        None => return Err(String::new()),
    };
    match syntect::html::highlighted_html_for_string(content, ss, syntax, theme) {
        Ok(h) => Ok(h),
        Err(e) => Err(format!("{}", e)),
    }
}

} // verus!
