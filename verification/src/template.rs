//! The templating boundary: a stored reference template is rendered through
//! the external templating engine with three named bindings (`name`,
//! `generic`, `port`). The engine is a pure substitution service, so its
//! result is given a name, `rendered`, and everything downstream is stated
//! over that name.
use vstd::prelude::*;

use crate::data::CodeArch;
use crate::data::CodeError;
use crate::data::DefView;
use crate::data::Definition;
use crate::data::defs_views;
use crate::model::SynthErr;
use crate::model::str_res_matches;

verus! {

#[verifier::external_type_specification]
#[verifier::external_body]
pub struct ExRenderError(handlebars::RenderError);

/// What the templating engine produces for a template and its three named
/// bindings: the substituted text, or nothing when the template is
/// malformed. A pure function of its arguments.
pub uninterp spec fn rendered(
    template: Seq<char>,
    name: Seq<char>,
    generic: Map<Seq<char>, Seq<char>>,
    port: Map<Seq<char>, Seq<char>>,
) -> Option<Seq<char>>;

/// The finite map described by an association list when it is handed to
/// the templating engine: later entries overwrite earlier ones.
pub open spec fn kv_map(m: Seq<(String, String)>) -> Map<Seq<char>, Seq<char>>
    decreases m.len(),
{
    if m.len() <= 0 {
        Map::empty()
    } else {
        kv_map(m.drop_last()).insert(m.last().0@, m.last().1@)
    }
}

/// Relies on handlebars::Handlebars::render_template: substitutes the
/// `name`, `generic` and `port` bindings into the template string and
/// returns the rendered text, or an error for a malformed template or a
/// failed substitution; the outcome depends on the arguments alone.
#[verifier::external_body]
fn render_reference(
    template: &str,
    name: &str,
    generic: &Vec<(String, String)>,
    port: &Vec<(String, String)>,
) -> (r: Result<String, handlebars::RenderError>)
    ensures
        r matches Ok(s) ==> rendered(template@, name@, kv_map(generic@), kv_map(port@)) == Some(
            s@,
        ),
        r matches Err(_) ==> rendered(template@, name@, kv_map(generic@), kv_map(port@)) is None,
{
    let obj = |m: &Vec<(String, String)>| serde_json::Value::Object(
        m.iter().map(|p| (p.0.clone(), p.1.clone().into())).collect(),
    );
    let mut data = serde_json::Map::new();
    data.insert("name".into(), name.into());
    data.insert("generic".into(), obj(generic));
    data.insert("port".into(), obj(port));
    handlebars::Handlebars::new().render_template(template, &serde_json::Value::Object(data))
}

/// What referencing a template-backed block yields: the rendered text, or
/// a template error when rendering fails.
pub open spec fn template_ref_model(
    template: Seq<char>,
    name: Seq<char>,
    gm: Seq<(String, String)>,
    pm: Seq<(String, String)>,
) -> Result<Seq<char>, SynthErr> {
    match rendered(template, name, kv_map(gm), kv_map(pm)) {
        Some(t) => Ok(t),
        None => Err(SynthErr::Template),
    }
}

impl CodeArch {
    /// The definition of a template-backed block: the stored definition,
    /// verbatim, as a one-element sequence.
    pub fn definition(&self) -> (r: Result<Vec<Definition>, CodeError>)
        ensures
            r matches Ok(v) && defs_views(v@) == seq![self.definition@],
    {
        let mut v: Vec<Definition> = Vec::new();
        v.push(self.definition.clone());
        proof {
            assert(defs_views(v@) =~= seq![self.definition@]);
        }
        Ok(v)
    }

    /// The declaration of a template-backed block. No supported dialect
    /// uses declarations, so this always fails with a dialect error.
    pub fn declaration(&self) -> (r: Result<String, CodeError>)
        ensures
            r matches Err(e) && e is DialectError,
    {
        Err(CodeError::DialectError)
    }

    /// The reference line for one instance of a template-backed block:
    /// the stored template rendered with the instance name and its
    /// generic and port bindings.
    pub fn reference(
        &self,
        name: &str,
        genericmap: &Vec<(String, String)>,
        portmap: &Vec<(String, String)>,
    ) -> (r: Result<String, CodeError>)
        ensures
            str_res_matches(r, template_ref_model(self.reference@, name@, genericmap@, portmap@)),
    {
        match render_reference(self.reference.as_str(), name, genericmap, portmap) {
            Ok(s) => Ok(s),
            Err(e) => Err(CodeError::TemplateError(e)),
        }
    }
}

} // verus!
