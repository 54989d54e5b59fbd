//! Diagnostics reported for a parsed material, and the validator that
//! produces them.
use vstd::prelude::*;
use crate::parser::{
    ident_or_string_of, sat_col, value_view, Located, Material, MaterialView, Parameter, ParameterView,
    Value, ValueView,
};
use crate::schema::{get_enum_values, get_keywords_by_type, spec_enum_values, spec_lookup_keyword, spec_property, find_property_def, KeywordType};
use crate::text::{join_strs, seq_join, str_eq, str_views, string_push_str, to_owned_string};

verus! {

/// A diagnostic message with its severity and, when known, its place.
#[derive(Debug, Clone, PartialEq, Eq)]
pub struct Diagnostic {
    pub message: String,
    pub severity: DiagnosticSeverity,
    pub range: Option<TextRange>,
}

#[derive(Debug, Clone, Copy, PartialEq, Eq, Structural)]
pub enum DiagnosticSeverity {
    Error,
    Warning,
}

/// A range of text between two positions.
#[derive(Debug, Clone, Copy, PartialEq, Eq, Structural)]
pub struct TextRange {
    pub start: TextPosition,
    pub end: TextPosition,
}

/// A line and a character within it.
#[derive(Debug, Clone, Copy, PartialEq, Eq, Structural)]
pub struct TextPosition {
    pub line: u32,
    pub character: u32,
}


/// A diagnostic as its message, severity and range.
pub type DiagView = (Seq<char>, DiagnosticSeverity, Option<TextRange>);

pub open spec fn diag_view(d: Diagnostic) -> DiagView {
    (d.message@, d.severity, d.range)
}

pub open spec fn diags_view(s: Seq<Diagnostic>) -> Seq<DiagView> {
    s.map_values(|d: Diagnostic| diag_view(d))
}

pub open spec fn warn(msg: Seq<char>, range: Option<TextRange>) -> DiagView {
    (msg, DiagnosticSeverity::Warning, range)
}

pub open spec fn err(msg: Seq<char>, range: Option<TextRange>) -> DiagView {
    (msg, DiagnosticSeverity::Error, range)
}

/// The range of the `material` keyword: eight characters from the start of
/// the block.
pub open spec fn keyword_range(m: MaterialView) -> TextRange {
    TextRange {
        start: m.range.start,
        end: TextPosition { line: m.range.start.line, character: sat_col(m.range.start.character + 8) },
    }
}

/// Whether one of the enumerated values spells `s`.
pub open spec fn in_values(vals: Seq<&'static str>, s: Seq<char>) -> bool {
    exists|i: int| 0 <= i < vals.len() && (#[trigger] vals[i])@ == s
}

pub open spec fn invalid_value_message(s: Seq<char>, key: Seq<char>, vals: Seq<&'static str>) -> Seq<char> {
    "Invalid value '"@ + s + "' for property '"@ + key + "'. Expected one of: "@ + seq_join(str_views(vals), ", "@)
}

/// The diagnostics of one property: a warning for an unknown property, or
/// for an identifier or string value outside the property's enumerated
/// values.
pub open spec fn property_diags(key: Seq<char>, v: ValueView, range: TextRange) -> Seq<DiagView> {
    if spec_property(key) is None {
        seq![warn("Unknown material property: '"@ + key + "'"@, Some(range))]
    } else {
        match (spec_enum_values(key), ident_or_string_of(v)) {
            (Some(vals), Some(s)) => if !in_values(vals@, s) {
                seq![warn(invalid_value_message(s, key, vals@), Some(range))]
            } else {
                seq![]
            },
            _ => seq![],
        }
    }
}

/// The diagnostics of a parameter: an error for an empty name, an error for
/// an empty type, and a warning for a type that is not a parameter type.
pub open spec fn parameter_diags(p: ParameterView) -> Seq<DiagView> {
    (if p.name.len() == 0 { seq![err("Parameter is missing a name"@, None)] } else { seq![] })
        + (if p.param_type.len() == 0 { seq![err("Parameter '"@ + p.name + "' is missing a type"@, None)] } else { seq![] })
        + (if spec_lookup_keyword(p.param_type) != Some(KeywordType::ParameterType) {
            seq![warn("Parameter type '"@ + p.param_type + "' is not a standard Filament type"@, None)]
        } else {
            seq![]
        })
}

/// The first property with the given key: its value and range.
pub open spec fn first_prop(props: Seq<(Seq<char>, ValueView, TextRange)>, key: Seq<char>) -> Option<(ValueView, TextRange)>
    decreases props.len(),
{
    if props.len() == 0 {
        None
    } else if props[0].0 == key {
        Some((props[0].1, props[0].2))
    } else {
        first_prop(props.drop_first(), key)
    }
}

/// The identifier value of the first property with the given key.
pub open spec fn first_ident(props: Seq<(Seq<char>, ValueView, TextRange)>, key: Seq<char>) -> Option<Seq<char>> {
    match first_prop(props, key) {
        Some((ValueView::Identifier(s), _)) => Some(s),
        _ => None,
    }
}

/// A warning at the first property with the given key, when there is one
/// and `cond` holds.
pub open spec fn rule(props: Seq<(Seq<char>, ValueView, TextRange)>, key: Seq<char>, cond: bool, msg: Seq<char>) -> Seq<DiagView> {
    match first_prop(props, key) {
        Some((_, r)) => if cond { seq![warn(msg, Some(r))] } else { seq![] },
        None => seq![],
    }
}

pub open spec fn is_word(o: Option<Seq<char>>, w: Seq<char>) -> bool {
    o == Some(w)
}

/// The warnings about properties that do not fit together.
pub open spec fn interdependency_diags(m: MaterialView) -> Seq<DiagView> {
    let props = m.properties;
    let sm = match m.shading_model {
        Some((s, _)) => Some(s),
        None => None,
    };
    let domain = first_ident(props, "domain"@);
    let blending = first_ident(props, "blending"@);
    let vertex_domain = first_ident(props, "vertexDomain"@);
    rule(props, "shadowMultiplier"@, !is_word(sm, "unlit"@), "shadowMultiplier is only valid for unlit shading model"@)
        + rule(props, "customSurfaceShading"@, !is_word(sm, "lit"@), "customSurfaceShading is only valid for lit shading model"@)
        + rule(props, "groupSize"@, !is_word(domain, "compute"@), "groupSize is only valid for compute domain"@)
        + rule(props, "refractionMode"@, !is_word(sm, "lit"@), "refractionMode requires lit shading model"@)
        + rule(props, "refractionType"@, !is_word(sm, "lit"@), "refractionType requires lit shading model"@)
        + rule(props, "stereoscopicType"@, !is_word(sm, "lit"@), "stereoscopicType requires lit shading model"@)
        + rule(props, "alphaToCoverage"@, !is_word(blending, "masked"@), "alphaToCoverage is only effective when blending is masked"@)
        + rule(props, "maskThreshold"@, !is_word(blending, "masked"@), "maskThreshold is only effective when blending is masked"@)
        + rule(props, "flipUV"@, true, "flipUV is deprecated"@)
        + rule(props, "vertexDomainDeviceJittered"@, !is_word(vertex_domain, "device"@), "vertexDomainDeviceJittered requires vertexDomain to be device"@)
        + rule(props, "useDefaultDepthVariant"@, !is_word(sm, "lit"@) || !is_word(blending, "opaque"@),
            "useDefaultDepthVariant requires lit shading model and opaque blending"@)
}

/// The diagnostics of each property, in order.
pub open spec fn properties_diags(props: Seq<(Seq<char>, ValueView, TextRange)>) -> Seq<DiagView>
    decreases props.len(),
{
    if props.len() == 0 {
        seq![]
    } else {
        properties_diags(props.drop_last()) + property_diags(props.last().0, props.last().1, props.last().2)
    }
}

/// The diagnostics of each parameter, in order.
pub open spec fn parameters_diags(params: Seq<ParameterView>) -> Seq<DiagView>
    decreases params.len(),
{
    if params.len() == 0 {
        seq![]
    } else {
        parameters_diags(params.drop_last()) + parameter_diags(params.last())
    }
}

/// All diagnostics of a material: missing `name` and `shadingModel`, then
/// those of the properties, of the parameters, and of the interdependencies.
pub open spec fn material_diags(m: MaterialView) -> Seq<DiagView> {
    (if m.name is None { seq![err("Material is missing 'name' property"@, Some(keyword_range(m)))] } else { seq![] })
        + (if m.shading_model is None { seq![err("Material is missing 'shadingModel' property"@, Some(keyword_range(m)))] } else { seq![] })
        + properties_diags(m.properties)
        + parameters_diags(m.parameters)
        + interdependency_diags(m)
}

/// Checks a parsed material against the schema.
pub struct Validator;

fn diag(message: String, severity: DiagnosticSeverity, range: Option<TextRange>) -> (r: Diagnostic)
    ensures
        diag_view(r) == (message@, severity, range),
{
    Diagnostic { message, severity, range }
}

fn push_diag(out: &mut Vec<Diagnostic>, d: Diagnostic)
    ensures
        diags_view(final(out)@) == diags_view(old(out)@).push(diag_view(d)),
{
    let ghost o = out@;
    out.push(d);
    assert(diags_view(out@) =~= diags_view(o).push(diag_view(d)));
}

fn append_diags(out: &mut Vec<Diagnostic>, more: Vec<Diagnostic>)
    ensures
        diags_view(final(out)@) == diags_view(old(out)@) + diags_view(more@),
{
    let ghost o = diags_view(out@);
    let ghost m = diags_view(more@);
    let mut more = more;
    let ghost mut i: int = 0;
    assert(o + m.take(0) =~= o);
    while more.len() > 0
        invariant
            0 <= i <= m.len(),
            diags_view(more@) == m.skip(i),
            diags_view(out@) == o + m.take(i),
        decreases more.len(),
    {
        let ghost before = more@;
        assert(diags_view(before).len() == before.len());
        let d = more.remove(0);
        proof {
            assert(m[i] == diags_view(before)[0]);
            assert forall|j: int| 0 <= j < more@.len() implies diags_view(more@)[j] == m.skip(i + 1)[j] by {
                assert(more@[j] == before[j + 1]);
                assert(m.skip(i)[j + 1] == diags_view(before)[j + 1]);
            }
            assert(diags_view(more@) =~= m.skip(i + 1));
            assert(o + m.take(i + 1) =~= (o + m.take(i)).push(m[i]));
        }
        push_diag(out, d);
        proof {
            i = i + 1;
        }
    }
    assert(m.take(i) =~= m);
}

/// The index of the first property with the given key.
fn find_prop(props: &Vec<(String, Located<Value>)>, key: &str) -> (r: Option<usize>)
    ensures
        match first_prop(crate::parser::properties_view(props@), key@) {
            Some((v, rg)) => r is Some && r.unwrap() < props@.len() && value_view(props@[r.unwrap() as int].1.value) == v
                && props@[r.unwrap() as int].1.range == rg,
            None => r is None,
        },
{
    let ghost pv = crate::parser::properties_view(props@);
    let mut i: usize = 0;
    assert(pv.skip(0) =~= pv);
    while i < props.len()
        invariant
            i <= props@.len(),
            pv == crate::parser::properties_view(props@),
            first_prop(pv, key@) == first_prop(pv.skip(i as int), key@),
        decreases props.len() - i,
    {
        assert(pv.skip(i as int).drop_first() =~= pv.skip(i + 1));
        assert(pv.skip(i as int)[0] == pv[i as int]);
        if str_eq(props[i].0.as_str(), key) {
            return Some(i);
        }
        i = i + 1;
    }
    None
}

/// The identifier value of the first property with the given key.
fn find_ident<'a>(props: &'a Vec<(String, Located<Value>)>, key: &str) -> (r: Option<&'a String>)
    ensures
        match first_ident(crate::parser::properties_view(props@), key@) {
            Some(s) => r is Some && r.unwrap()@ == s,
            None => r is None,
        },
{
    match find_prop(props, key) {
        Some(i) => match &props[i].1.value {
            Value::Identifier(s) => Some(s),
            _ => None,
        },
        None => None,
    }
}

fn opt_is(o: Option<&String>, w: &str) -> (r: bool)
    ensures
        r == is_word(match o { Some(s) => Some(s@), None => None }, w@),
{
    match o {
        Some(s) => str_eq(s.as_str(), w),
        None => false,
    }
}

/// Pushes a warning at the first property with the given key, when there
/// is one and `cond` holds.
fn push_rule(out: &mut Vec<Diagnostic>, props: &Vec<(String, Located<Value>)>, key: &str, cond: bool, msg: &str)
    ensures
        diags_view(final(out)@) == diags_view(old(out)@) + rule(crate::parser::properties_view(props@), key@, cond, msg@),
{
    match find_prop(props, key) {
        Some(i) => {
            if cond {
                push_diag(out, diag(to_owned_string(msg), DiagnosticSeverity::Warning, Some(props[i].1.range)));
                assert(diags_view(out@) =~= diags_view(old(out)@) + rule(crate::parser::properties_view(props@), key@, cond, msg@));
            } else {
                assert(diags_view(out@) =~= diags_view(old(out)@) + rule(crate::parser::properties_view(props@), key@, cond, msg@));
            }
        },
        None => {
            assert(diags_view(out@) =~= diags_view(old(out)@) + rule(crate::parser::properties_view(props@), key@, cond, msg@));
        },
    }
}

impl Validator {
    pub fn new() -> (r: Self) {
        Validator
    }

    /// All diagnostics of a material.
    pub fn validate_material(&self, material: &Material) -> (r: Vec<Diagnostic>)
        ensures
            diags_view(r@) == material_diags(material@),
    {
        let mut diagnostics: Vec<Diagnostic> = Vec::new();
        let ghost m = material@;
        assert(diags_view(diagnostics@) =~= seq![]);
        if material.name.is_none() {
            push_diag(&mut diagnostics, diag(to_owned_string("Material is missing 'name' property"), DiagnosticSeverity::Error,
                Some(material_keyword_range(material))));
        }
        if material.shading_model.is_none() {
            push_diag(&mut diagnostics, diag(to_owned_string("Material is missing 'shadingModel' property"),
                DiagnosticSeverity::Error, Some(material_keyword_range(material))));
        }
        let ghost head = diags_view(diagnostics@);
        assert(head == (if m.name is None { seq![err("Material is missing 'name' property"@, Some(keyword_range(m)))] } else { seq![] })
            + (if m.shading_model is None { seq![err("Material is missing 'shadingModel' property"@, Some(keyword_range(m)))] } else { seq![] }));
        let ghost pv = m.properties;
        let mut i: usize = 0;
        assert(pv.take(0) =~= seq![]);
        assert(head + properties_diags(pv.take(0)) =~= head);
        while i < material.properties.len()
            invariant
                i <= material.properties@.len(),
                m == material@,
                pv == m.properties,
                diags_view(diagnostics@) == head + properties_diags(pv.take(i as int)),
            decreases material.properties.len() - i,
        {
            let more = self.validate_property(material.properties[i].0.as_str(), &material.properties[i].1);
            proof {
                assert(pv.take(i + 1).drop_last() =~= pv.take(i as int));
                assert(pv[i as int] == (material.properties@[i as int].0@, value_view(material.properties@[i as int].1.value),
                    material.properties@[i as int].1.range));
                assert(head + properties_diags(pv.take(i + 1)) =~= head + properties_diags(pv.take(i as int)) + diags_view(more@));
            }
            append_diags(&mut diagnostics, more);
            i = i + 1;
        }
        assert(pv.take(i as int) =~= pv);
        let ghost head2 = diags_view(diagnostics@);
        let ghost qv = m.parameters;
        let mut j: usize = 0;
        assert(qv.take(0) =~= seq![]);
        assert(head2 + parameters_diags(qv.take(0)) =~= head2);
        while j < material.parameters.len()
            invariant
                j <= material.parameters@.len(),
                m == material@,
                qv == m.parameters,
                diags_view(diagnostics@) == head2 + parameters_diags(qv.take(j as int)),
            decreases material.parameters.len() - j,
        {
            let more = self.validate_parameter(&material.parameters[j]);
            proof {
                assert(qv.take(j + 1).drop_last() =~= qv.take(j as int));
                assert(qv[j as int] == material.parameters@[j as int]@);
                assert(head2 + parameters_diags(qv.take(j + 1)) =~= head2 + parameters_diags(qv.take(j as int)) + diags_view(more@));
            }
            append_diags(&mut diagnostics, more);
            j = j + 1;
        }
        assert(qv.take(j as int) =~= qv);
        let inter = self.validate_interdependencies(material);
        append_diags(&mut diagnostics, inter);
        assert(diags_view(diagnostics@) =~= material_diags(m));
        diagnostics
    }

    /// The interdependency warnings of a material.
    pub fn validate_interdependencies(&self, material: &Material) -> (r: Vec<Diagnostic>)
        ensures
            diags_view(r@) == interdependency_diags(material@),
    {
        let props = &material.properties;
        let sm: Option<&String> = match &material.shading_model {
            Some(l) => Some(&l.value),
            None => None,
        };
        let domain = find_ident(props, "domain");
        let blending = find_ident(props, "blending");
        let vertex_domain = find_ident(props, "vertexDomain");
        let mut diags: Vec<Diagnostic> = Vec::new();
        assert(diags_view(diags@) =~= seq![]);
        push_rule(&mut diags, props, "shadowMultiplier", !opt_is(sm, "unlit"), "shadowMultiplier is only valid for unlit shading model");
        push_rule(&mut diags, props, "customSurfaceShading", !opt_is(sm, "lit"), "customSurfaceShading is only valid for lit shading model");
        push_rule(&mut diags, props, "groupSize", !opt_is(domain, "compute"), "groupSize is only valid for compute domain");
        push_rule(&mut diags, props, "refractionMode", !opt_is(sm, "lit"), "refractionMode requires lit shading model");
        push_rule(&mut diags, props, "refractionType", !opt_is(sm, "lit"), "refractionType requires lit shading model");
        push_rule(&mut diags, props, "stereoscopicType", !opt_is(sm, "lit"), "stereoscopicType requires lit shading model");
        push_rule(&mut diags, props, "alphaToCoverage", !opt_is(blending, "masked"), "alphaToCoverage is only effective when blending is masked");
        push_rule(&mut diags, props, "maskThreshold", !opt_is(blending, "masked"), "maskThreshold is only effective when blending is masked");
        push_rule(&mut diags, props, "flipUV", true, "flipUV is deprecated");
        push_rule(&mut diags, props, "vertexDomainDeviceJittered", !opt_is(vertex_domain, "device"),
            "vertexDomainDeviceJittered requires vertexDomain to be device");
        push_rule(&mut diags, props, "useDefaultDepthVariant", !opt_is(sm, "lit") || !opt_is(blending, "opaque"),
            "useDefaultDepthVariant requires lit shading model and opaque blending");
        assert(diags_view(diags@) =~= interdependency_diags(material@));
        diags
    }

    /// The diagnostics of one property.
    pub fn validate_property(&self, key: &str, value: &Located<Value>) -> (r: Vec<Diagnostic>)
        ensures
            diags_view(r@) == property_diags(key@, value_view(value.value), value.range),
    {
        let mut diagnostics: Vec<Diagnostic> = Vec::new();
        if find_property_def(key).is_none() {
            let mut m = to_owned_string("Unknown material property: '");
            string_push_str(&mut m, key);
            string_push_str(&mut m, "'");
            push_diag(&mut diagnostics, diag(m, DiagnosticSeverity::Warning, Some(value.range)));
            assert(diags_view(diagnostics@) =~= property_diags(key@, value_view(value.value), value.range));
            return diagnostics;
        }
        match get_enum_values(key) {
            Some(valid_values) => {
                let value_str: Option<&String> = match &value.value {
                    Value::Identifier(s) => Some(s),
                    Value::String(s) => Some(s),
                    _ => None,
                };
                match value_str {
                    Some(s) => {
                        let mut found = false;
                        let mut i: usize = 0;
                        while i < valid_values.len()
                            invariant
                                i <= valid_values@.len(),
                                found == exists|j: int| 0 <= j < i && (#[trigger] valid_values@[j])@ == s@,
                            decreases valid_values.len() - i,
                        {
                            if str_eq(valid_values[i], s.as_str()) {
                                found = true;
                            }
                            i = i + 1;
                        }
                        if !found {
                            let mut m = to_owned_string("Invalid value '");
                            string_push_str(&mut m, s.as_str());
                            string_push_str(&mut m, "' for property '");
                            string_push_str(&mut m, key);
                            string_push_str(&mut m, "'. Expected one of: ");
                            let joined = join_strs(valid_values, ", ");
                            string_push_str(&mut m, joined.as_str());
                            push_diag(&mut diagnostics, diag(m, DiagnosticSeverity::Warning, Some(value.range)));
                        }
                    },
                    None => {},
                }
            },
            None => {},
        }
        assert(diags_view(diagnostics@) =~= property_diags(key@, value_view(value.value), value.range));
        diagnostics
    }

    /// The diagnostics of one parameter.
    pub fn validate_parameter(&self, param: &Parameter) -> (r: Vec<Diagnostic>)
        ensures
            diags_view(r@) == parameter_diags(param@),
    {
        let mut diagnostics: Vec<Diagnostic> = Vec::new();
        assert(diags_view(diagnostics@) =~= seq![]);
        let name = param.name.as_str();
        let ty = param.param_type.as_str();
        if name.is_empty() {
            push_diag(&mut diagnostics, diag(to_owned_string("Parameter is missing a name"), DiagnosticSeverity::Error, None));
        }
        if ty.is_empty() {
            let mut m = to_owned_string("Parameter '");
            string_push_str(&mut m, name);
            string_push_str(&mut m, "' is missing a type");
            push_diag(&mut diagnostics, diag(m, DiagnosticSeverity::Error, None));
        }
        if !Self::is_valid_parameter_type(ty) {
            let mut m = to_owned_string("Parameter type '");
            string_push_str(&mut m, ty);
            string_push_str(&mut m, "' is not a standard Filament type");
            push_diag(&mut diagnostics, diag(m, DiagnosticSeverity::Warning, None));
        }
        assert(diags_view(diagnostics@) =~= parameter_diags(param@));
        diagnostics
    }

    /// Whether a type is a known parameter type.
    pub fn is_valid_parameter_type(ty: &str) -> (r: bool)
        ensures
            r == (spec_lookup_keyword(ty@) == Some(KeywordType::ParameterType)),
    {
        let types = get_keywords_by_type(KeywordType::ParameterType);
        let mut i: usize = 0;
        while i < types.len()
            invariant
                i <= types@.len(),
                forall|j: int| 0 <= j < types@.len() ==> spec_lookup_keyword((#[trigger] types@[j])@) == Some(KeywordType::ParameterType),
                forall|w: Seq<char>| spec_lookup_keyword(w) == Some(KeywordType::ParameterType)
                    ==> exists|k: int| 0 <= k < types@.len() && (#[trigger] types@[k])@ == w,
                forall|j: int| 0 <= j < i ==> (#[trigger] types@[j])@ != ty@,
            decreases types.len() - i,
        {
            if str_eq(types[i], ty) {
                return true;
            }
            i = i + 1;
        }
        false
    }
}

impl Default for Validator {
    fn default() -> (r: Self) {
        Validator
    }
}

/// The range of the `material` keyword of a block.
pub fn material_keyword_range(material: &Material) -> (r: TextRange)
    ensures
        r == keyword_range(material@),
{
    let c: u64 = material.range.start.character as u64 + 8;
    let ch: u32 = if c > u32::MAX as u64 { u32::MAX } else { c as u32 };
    TextRange {
        start: TextPosition { line: material.range.start.line, character: material.range.start.character },
        end: TextPosition { line: material.range.start.line, character: ch },
    }
}

/// A material without a name is reported first, as an error at its
/// keyword.
pub proof fn lemma_missing_name_reported(m: MaterialView)
    requires
        m.name is None,
    ensures
        material_diags(m).len() > 0,
        material_diags(m)[0] == err("Material is missing 'name' property"@, Some(keyword_range(m))),
        material_diags(m)[0].1 == DiagnosticSeverity::Error,
{
}

/// A material without a shading model is reported, as an error at its
/// keyword, whether or not it has a name: right after the missing name when
/// that is reported too, else first.
pub proof fn lemma_missing_shading_model_reported(m: MaterialView)
    requires
        m.shading_model is None,
    ensures
        material_diags(m).contains(err("Material is missing 'shadingModel' property"@, Some(keyword_range(m)))),
        material_diags(m)[if m.name is None { 1int } else { 0int }]
            == err("Material is missing 'shadingModel' property"@, Some(keyword_range(m))),
{
    let i: int = if m.name is None { 1int } else { 0int };
    assert(material_diags(m)[i] == err("Material is missing 'shadingModel' property"@, Some(keyword_range(m))));
}

proof fn lemma_properties_diags_hold(props: Seq<(Seq<char>, ValueView, TextRange)>, i: int, d: DiagView)
    requires
        0 <= i < props.len(),
        property_diags(props[i].0, props[i].1, props[i].2).contains(d),
    ensures
        properties_diags(props).contains(d),
    decreases props.len(),
{
    let r = properties_diags(props.drop_last());
    let t = property_diags(props.last().0, props.last().1, props.last().2);
    let all = properties_diags(props);
    assert(all == r + t);
    if i == props.len() - 1 {
        let w = choose|w: int| 0 <= w < t.len() && t[w] == d;
        assert(all[r.len() + w] == d);
    } else {
        assert(props.drop_last()[i] == props[i]);
        lemma_properties_diags_hold(props.drop_last(), i, d);
        let w = choose|w: int| 0 <= w < r.len() && r[w] == d;
        assert(all[w] == d);
    }
}

proof fn lemma_parameters_diags_hold(params: Seq<ParameterView>, i: int, d: DiagView)
    requires
        0 <= i < params.len(),
        parameter_diags(params[i]).contains(d),
    ensures
        parameters_diags(params).contains(d),
    decreases params.len(),
{
    let r = parameters_diags(params.drop_last());
    let t = parameter_diags(params.last());
    let all = parameters_diags(params);
    assert(all == r + t);
    if i == params.len() - 1 {
        let w = choose|w: int| 0 <= w < t.len() && t[w] == d;
        assert(all[r.len() + w] == d);
    } else {
        assert(params.drop_last()[i] == params[i]);
        lemma_parameters_diags_hold(params.drop_last(), i, d);
        let w = choose|w: int| 0 <= w < r.len() && r[w] == d;
        assert(all[w] == d);
    }
}

proof fn lemma_material_diags_parts(m: MaterialView, d: DiagView)
    requires
        properties_diags(m.properties).contains(d) || parameters_diags(m.parameters).contains(d),
    ensures
        material_diags(m).contains(d),
{
    let a = (if m.name is None { seq![err("Material is missing 'name' property"@, Some(keyword_range(m)))] } else { seq![] })
        + (if m.shading_model is None { seq![err("Material is missing 'shadingModel' property"@, Some(keyword_range(m)))] } else { seq![] });
    let p = properties_diags(m.properties);
    let q = parameters_diags(m.parameters);
    let all = material_diags(m);
    assert(all == a + p + q + interdependency_diags(m));
    if p.contains(d) {
        let w = choose|w: int| 0 <= w < p.len() && p[w] == d;
        assert(all[a.len() + w] == d);
    } else {
        let w = choose|w: int| 0 <= w < q.len() && q[w] == d;
        assert(all[a.len() + p.len() + w] == d);
    }
}

/// Every property that the schema does not know is reported, as a warning
/// at the property.
pub proof fn lemma_unknown_property_reported(m: MaterialView, i: int)
    requires
        0 <= i < m.properties.len(),
        spec_property(m.properties[i].0) is None,
    ensures
        material_diags(m).contains(warn("Unknown material property: '"@ + m.properties[i].0 + "'"@, Some(m.properties[i].2))),
{
    let (key, v, range) = m.properties[i];
    let d = warn("Unknown material property: '"@ + key + "'"@, Some(range));
    assert(property_diags(key, v, range)[0] == d);
    lemma_properties_diags_hold(m.properties, i, d);
    lemma_material_diags_parts(m, d);
}

/// A property with enumerated values whose identifier or string value is
/// none of them is reported, as a warning at the property that lists them.
pub proof fn lemma_invalid_value_reported(m: MaterialView, i: int, s: Seq<char>)
    requires
        0 <= i < m.properties.len(),
        spec_enum_values(m.properties[i].0) is Some,
        ident_or_string_of(m.properties[i].1) == Some(s),
        forall|k: int| 0 <= k < spec_enum_values(m.properties[i].0)->0@.len()
            ==> (#[trigger] spec_enum_values(m.properties[i].0)->0@[k])@ != s,
    ensures
        material_diags(m).contains(warn(
            invalid_value_message(s, m.properties[i].0, spec_enum_values(m.properties[i].0)->0@),
            Some(m.properties[i].2),
        )),
{
    let (key, v, range) = m.properties[i];
    let vals = spec_enum_values(key)->0;
    let d = warn(invalid_value_message(s, key, vals@), Some(range));
    assert(spec_property(key) is Some);
    assert(!in_values(vals@, s));
    assert(property_diags(key, v, range)[0] == d);
    lemma_properties_diags_hold(m.properties, i, d);
    lemma_material_diags_parts(m, d);
}

/// A parameter whose type is not a parameter type of the schema is reported
/// as a warning; one without a name, or without a type, as an error.
pub proof fn lemma_parameter_problems_reported(m: MaterialView, i: int)
    requires
        0 <= i < m.parameters.len(),
    ensures
        spec_lookup_keyword(m.parameters[i].param_type) != Some(KeywordType::ParameterType) ==> material_diags(m).contains(
            warn("Parameter type '"@ + m.parameters[i].param_type + "' is not a standard Filament type"@, None)),
        m.parameters[i].name.len() == 0 ==> material_diags(m).contains(err("Parameter is missing a name"@, None)),
        m.parameters[i].param_type.len() == 0 ==> material_diags(m).contains(
            err("Parameter '"@ + m.parameters[i].name + "' is missing a type"@, None)),
{
    let p = m.parameters[i];
    let a: Seq<DiagView> = if p.name.len() == 0 { seq![err("Parameter is missing a name"@, None)] } else { seq![] };
    let b: Seq<DiagView> = if p.param_type.len() == 0 { seq![err("Parameter '"@ + p.name + "' is missing a type"@, None)] } else { seq![] };
    let c: Seq<DiagView> = if spec_lookup_keyword(p.param_type) != Some(KeywordType::ParameterType) {
        seq![warn("Parameter type '"@ + p.param_type + "' is not a standard Filament type"@, None)]
    } else {
        seq![]
    };
    let all = parameter_diags(p);
    assert(all == a + b + c);
    if spec_lookup_keyword(p.param_type) != Some(KeywordType::ParameterType) {
        let d = warn("Parameter type '"@ + p.param_type + "' is not a standard Filament type"@, None);
        assert(all[(a.len() + b.len()) as int] == d);
        lemma_parameters_diags_hold(m.parameters, i, d);
        lemma_material_diags_parts(m, d);
    }
    if p.name.len() == 0 {
        let d = err("Parameter is missing a name"@, None);
        assert(all[0] == d);
        lemma_parameters_diags_hold(m.parameters, i, d);
        lemma_material_diags_parts(m, d);
    }
    if p.param_type.len() == 0 {
        let d = err("Parameter '"@ + p.name + "' is missing a type"@, None);
        assert(all[a.len() as int] == d);
        lemma_parameters_diags_hold(m.parameters, i, d);
        lemma_material_diags_parts(m, d);
    }
}

} // verus!
