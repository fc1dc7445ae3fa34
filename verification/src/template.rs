//! What goes to the template engine, and what becomes of its answer.
//!
//! Templates are rendered by Tera. The engine itself is called by whoever
//! uses this library: here the variables are put into the context that the
//! engine takes, and the engine's outcome is turned into the result.

use crate::strmap::{Pair, StringMap, map_of};
use vstd::prelude::*;

verus! {

/// Tera's context: the variables that a template is rendered with.
#[verifier::external_type_specification]
#[verifier::external_body]
pub struct ExContext(tera::Context);

/// The variables that a context holds, each with the text it was bound to.
pub uninterp spec fn context_bindings(context: tera::Context) -> Map<Seq<char>, Seq<char>>;

/// The variables of a context that holds none.
pub open spec fn no_bindings() -> Map<Seq<char>, Seq<char>> {
    Map::empty()
}

/// Calls `Context::new`: a context without variables.
#[verifier::external_body]
fn new_context() -> (context: tera::Context)
    ensures
        context_bindings(context) == no_bindings(),
{
    tera::Context::new()
}

/// Calls `Context::insert` with a text as the value: the variable `key` is
/// bound to `value`, in place of what it was bound to before, and the other
/// variables stay.
#[verifier::external_body]
fn bind(context: &mut tera::Context, key: &str, value: &str)
    ensures
        context_bindings(*final(context)) == context_bindings(*old(context)).insert(key@, value@),
{
    context.insert(key, value)
}

/// The error of a template whose file could not be read.
pub open spec fn not_found_message() -> Seq<char> {
    "Template file not found"@
}

/// The place of the template file called `name`.
pub open spec fn template_path_text(name: Seq<char>) -> Seq<char> {
    "templates/"@ + name
}

/// What rendering a template gives for an outcome of the engine: the
/// engine's text, or the template as it stands where the engine gave none.
pub open spec fn rendered_or_template(template: Seq<char>, outcome: Result<String, String>) -> Seq<
    char,
> {
    match outcome {
        Ok(text) => text@,
        Err(_) => template,
    }
}

/// What rendering the template of a file gives: the engine's outcome, or
/// `None` where the file could not be read.
pub open spec fn is_file_outcome(
    outcome: Option<Result<String, String>>,
    rendered: Result<String, String>,
) -> bool {
    match outcome {
        Some(engine) => rendered == engine,
        None => rendered is Err && rendered->Err_0@ == not_found_message(),
    }
}

/// The way to the template engine.
pub struct TemplateEngine;

impl TemplateEngine {
    /// The context that binds each key of `variables` to its value, and
    /// nothing else.
    pub fn context_of(variables: &StringMap) -> (context: tera::Context)
        ensures
            context_bindings(context) == variables@,
    {
        let n: usize = variables.len();
        let mut context = new_context();
        let mut i: usize = 0;
        assert(variables.pairs().take(0) =~= Seq::<Pair>::empty());
        while i < n
            invariant
                n == variables.pairs().len(),
                i <= n,
                context_bindings(context) == map_of(variables.pairs().take(i as int)),
            decreases n - i,
        {
            match variables.entry(i) {
                Some((key, value)) => {
                    bind(&mut context, key.as_str(), value.as_str());
                },
                None => {},
            }
            assert(variables.pairs().take(i + 1).drop_last() =~= variables.pairs().take(i as int));
            i += 1;
        }
        assert(variables.pairs().take(n as int) =~= variables.pairs());
        context
    }

    /// The result of rendering `template`, given the outcome of the engine:
    /// the engine's text, or, where the engine gave none (the text is no
    /// template, or a variable has no value), the template as it stands, its
    /// placeholders unresolved.
    pub fn render_outcome(template: &str, outcome: Result<String, String>) -> (text: String)
        ensures
            text@ == rendered_or_template(template@, outcome),
    {
        match outcome {
            Ok(text) => text,
            Err(_) => template.to_owned(),
        }
    }

    /// The place of the template file called `name`.
    pub fn template_path(name: &str) -> (path: String)
        ensures
            path@ == template_path_text(name@),
    {
        let mut path = "templates/".to_owned();
        path.append(name);
        path
    }

    /// The result of rendering the template of a file. `outcome` is the
    /// outcome of the engine on the file's text, or `None` if the file could
    /// not be read: then the error is `Template file not found`.
    pub fn render_template_outcome(outcome: Option<Result<String, String>>) -> (rendered: Result<
        String,
        String,
    >)
        ensures
            is_file_outcome(outcome, rendered),
    {
        match outcome {
            Some(engine) => engine,
            None => Err("Template file not found".to_owned()),
        }
    }
}

} // verus!
