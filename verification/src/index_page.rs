use vstd::prelude::*;
use crate::counter::Counter;
use crate::decimal::decimal;

verus! {

/// The name the index page's template is registered under.
pub const INDEX_TEMPLATE_NAME: &'static str = "index.html";

/// The index page: it hands the counter to the front end in
/// `window.initial_counter_state` and loads the front end's script.
pub const INDEX_TEMPLATE: &'static str = r#"<!doctype html>
            <html>
                <head>
                    <meta charset="utf-8" />
                    <title>My App</title>
                    <link rel="stylesheet" href="/tree.css" >
                </head>
                <body>
                    <script>
                        window.initial_counter_state="{{initial_counter_state}}";
                    </script>
                    <script src="/app.js"></script>
                </body>
            </html>"#;

#[verifier::external_type_specification]
#[verifier::external_body]
pub struct ExHandlebars<'reg>(handlebars::Handlebars<'reg>);

/// The templates a registry holds: template name to template source.
pub uninterp spec fn registered_templates(h: handlebars::Handlebars<'static>) -> Map<Seq<char>, Seq<char>>;

/// Whether `Registry::register_template_string` accepts a template source
/// (under a name): whether it parses as a Handlebars template.
pub uninterp spec fn template_compiles(name: Seq<char>, source: Seq<char>) -> bool;

/// What `Registry::render` gives for a registry with default settings that
/// holds `templates`, for the template `name` and the JSON string `data`:
/// the rendered text, or the error's text.
pub uninterp spec fn handlebars_render(
    templates: Map<Seq<char>, Seq<char>>,
    name: Seq<char>,
    data: Seq<char>,
) -> Result<Seq<char>, Seq<char>>;

pub open spec fn no_templates() -> Map<Seq<char>, Seq<char>> {
    Map::empty()
}

/// Calls `Handlebars::new`. Claimed: the new registry holds no template.
#[verifier::external_body]
fn registry_new() -> (h: handlebars::Handlebars<'static>)
    ensures
        registered_templates(h) == no_templates(),
{
    handlebars::Handlebars::new()
}

/// Calls `Registry::register_template_string`. Claimed: it succeeds exactly
/// when `template_compiles`, and then the template is stored under `name`
/// (replacing one of the same name); when it fails the registry is unchanged.
#[verifier::external_body]
fn register_template(h: &mut handlebars::Handlebars<'static>, name: &str, source: &str) -> (ok: bool)
    ensures
        ok == template_compiles(name@, source@),
        ok ==> registered_templates(*final(h)) == registered_templates(*old(h)).insert(name@, source@),
        !ok ==> registered_templates(*final(h)) == registered_templates(*old(h)),
{
    h.register_template_string(name, source).is_ok()
}

/// Calls `Registry::render` with a string as the data, turning an error into
/// its text. Claimed: the result is `handlebars_render` of the registry's
/// templates, the name and the string.
#[verifier::external_body]
fn render(h: &handlebars::Handlebars<'static>, name: &str, data: &String) -> (r: Result<String, String>)
    ensures
        match r {
            Ok(text) => (handlebars_render(registered_templates(*h), name@, data@) matches Ok(t) && t == text@),
            Err(text) => (handlebars_render(registered_templates(*h), name@, data@) matches Err(t) && t == text@),
        },
{
    match h.render(name, data) {
        Ok(text) => Ok(text),
        Err(err) => Err(err.to_string()),
    }
}

/// The body of the index page: the template named `template_name` rendered
/// with the string `template_value`, or the render error's text.
pub open spec fn index_body(template_name: Seq<char>, template_value: Seq<char>) -> Seq<char> {
    match handlebars_render(
        map![INDEX_TEMPLATE_NAME@ => INDEX_TEMPLATE@],
        template_name,
        template_value,
    ) {
        Ok(text) => text,
        Err(text) => text,
    }
}

/// Renders the index page: a fresh registry holding the index template,
/// rendered under `template_name` with `template_value` as the data; a render
/// error becomes the body's text. `None` where the index template does not
/// register, where the server fails.
pub fn render_index(template_name: &str, template_value: String) -> (body: Option<String>)
    ensures
        !template_compiles(INDEX_TEMPLATE_NAME@, INDEX_TEMPLATE@) ==> body is None,
        template_compiles(INDEX_TEMPLATE_NAME@, INDEX_TEMPLATE@) ==> (body matches Some(b) && b@ == index_body(template_name@, template_value@)),
{
    let mut hb = registry_new();
    if !register_template(&mut hb, INDEX_TEMPLATE_NAME, INDEX_TEMPLATE) {
        return None;
    }
    assert(registered_templates(hb) =~= map![INDEX_TEMPLATE_NAME@ => INDEX_TEMPLATE@]);
    match render(&hb, template_name, &template_value) {
        Ok(text) => Some(text),
        Err(text) => Some(text),
    }
}

/// The index page the server answers `GET /` with: the index template
/// rendered with the counter's decimal text as its data. That data is a bare
/// string, not an object with an `initial_counter_state` field.
pub fn index_page_for(counter: &Counter) -> (body: Option<String>)
    ensures
        !template_compiles(INDEX_TEMPLATE_NAME@, INDEX_TEMPLATE@) ==> body is None,
        template_compiles(INDEX_TEMPLATE_NAME@, INDEX_TEMPLATE@) ==> (body matches Some(b) && b@
            == index_body(INDEX_TEMPLATE_NAME@, decimal(counter.value as nat))),
{
    render_index(INDEX_TEMPLATE_NAME, counter.index_value())
}

} // verus!
