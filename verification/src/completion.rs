//! Completion items for the material block, property values, parameter
//! types and fields, vertex attributes, and the fields of the material
//! struct in shader code.
use vstd::prelude::*;
use crate::schema::{
    get_enum_values, get_keywords_by_type, get_properties, property_table, spec_enum_values,
    spec_lookup_keyword, KeywordType, PropertyDef, ValueType,
};
use crate::text::{join_strs, seq_join, str_eq, str_views, string_push_str, to_owned_string};
use crate::diagnostics::in_values;

verus! {

/// A completion item.
#[derive(Debug, Clone)]
pub struct CompletionItem {
    pub label: String,
    pub kind: CompletionItemKind,
    pub documentation: Option<String>,
    /// Text to insert when accepting this completion. If None, uses `label`.
    pub insert_text: Option<String>,
    /// Format of the insert text.
    pub insert_text_format: InsertTextFormat,
    /// Text used for filtering against the user's input. If None, uses `label`.
    pub filter_text: Option<String>,
}

#[derive(Debug, Clone, Copy, PartialEq, Eq, Structural)]
pub enum CompletionItemKind {
    Property,
    EnumValue,
    Type,
    Field,
}

#[derive(Debug, Clone, Copy, PartialEq, Eq, Structural)]
pub enum InsertTextFormat {
    PlainText,
    Snippet,
}

/// Definition of a Filament material struct field (e.g. `material.baseColor`).
#[derive(Debug, Clone, Copy)]
pub struct MaterialFieldDef {
    pub name: &'static str,
    pub field_type: &'static str,
    pub docs: &'static str,
    /// Shading models this field is valid for. `None` = all models.
    pub valid_shading_models: Option<&'static [&'static str]>,
    /// Whether this field is available only in the vertex shader.
    pub vertex_only: bool,
}

/// Where completion was asked for.
#[derive(Debug, Clone, PartialEq, Eq)]
pub enum CompletionContext {
    MaterialBlock,
    PropertyValue(String),
    ParameterType,
    RequiresValue,
    ParameterField,
    MaterialField { shading_model: Option<String>, vertex_scope: bool },
}

pub struct ItemView {
    pub label: Seq<char>,
    pub kind: CompletionItemKind,
    pub documentation: Option<Seq<char>>,
    pub insert_text: Option<Seq<char>>,
    pub insert_text_format: InsertTextFormat,
    pub filter_text: Option<Seq<char>>,
}

pub open spec fn opt_view(o: Option<String>) -> Option<Seq<char>> {
    match o {
        Some(s) => Some(s@),
        None => None,
    }
}

impl View for CompletionItem {
    type V = ItemView;

    open spec fn view(&self) -> ItemView {
        ItemView {
            label: self.label@,
            kind: self.kind,
            documentation: opt_view(self.documentation),
            insert_text: opt_view(self.insert_text),
            insert_text_format: self.insert_text_format,
            filter_text: opt_view(self.filter_text),
        }
    }
}

pub open spec fn items_view(s: Seq<CompletionItem>) -> Seq<ItemView> {
    s.map_values(|i: CompletionItem| i@)
}

/// The fields of the material struct that shaders write or read.
pub open spec fn field_table() -> Seq<MaterialFieldDef> {
    seq![
        MaterialFieldDef {
            name: "emissive",
            field_type: "float4",
            docs: "Emissive color in linear space. Added to the final color after lighting.",
            valid_shading_models: None,
            vertex_only: false,
        },
        MaterialFieldDef {
            name: "normal",
            field_type: "float3",
            docs: "Normal in tangent space. Applied after geometry normal.",
            valid_shading_models: None,
            vertex_only: false,
        },
        MaterialFieldDef {
            name: "postLightingColor",
            field_type: "float4",
            docs: "Additional color applied after lighting. Not affected by light.",
            valid_shading_models: None,
            vertex_only: false,
        },
        MaterialFieldDef {
            name: "ambientOcclusion",
            field_type: "float",
            docs: "Ambient occlusion factor. 1.0 = fully occluded.",
            valid_shading_models: None,
            vertex_only: false,
        },
        MaterialFieldDef {
            name: "bentNormal",
            field_type: "float3",
            docs: "Bent normal for specular AO.",
            valid_shading_models: None,
            vertex_only: false,
        },
        MaterialFieldDef {
            name: "perceptualRoughness",
            field_type: "float",
            docs: "Perceptual roughness (computed from roughness). Read-only.",
            valid_shading_models: None,
            vertex_only: false,
        },
        MaterialFieldDef {
            name: "baseColor",
            field_type: "float4",
            docs: "Base color (albedo) in linear sRGB.",
            valid_shading_models: Some(&["lit", "subsurface", "cloth", "specularGlossiness"]),
            vertex_only: false,
        },
        MaterialFieldDef {
            name: "roughness",
            field_type: "float",
            docs: "Perceptual roughness in [0, 1]. 0 = smooth, 1 = rough.",
            valid_shading_models: Some(&["lit", "subsurface", "cloth", "specularGlossiness"]),
            vertex_only: false,
        },
        MaterialFieldDef {
            name: "metallic",
            field_type: "float",
            docs: "Metallic factor in [0, 1]. 0 = dielectric, 1 = metal.",
            valid_shading_models: Some(&["lit", "subsurface", "specularGlossiness"]),
            vertex_only: false,
        },
        MaterialFieldDef {
            name: "reflectance",
            field_type: "float",
            docs: "Surface reflectance in [0, 1]. Default 0.5.",
            valid_shading_models: Some(&["lit", "subsurface", "specularGlossiness"]),
            vertex_only: false,
        },
        MaterialFieldDef {
            name: "clearCoat",
            field_type: "float",
            docs: "Clear coat layer strength in [0, 1].",
            valid_shading_models: Some(&["lit"]),
            vertex_only: false,
        },
        MaterialFieldDef {
            name: "clearCoatRoughness",
            field_type: "float",
            docs: "Clear coat roughness in [0, 1].",
            valid_shading_models: Some(&["lit"]),
            vertex_only: false,
        },
        MaterialFieldDef {
            name: "clearCoatNormal",
            field_type: "float3",
            docs: "Clear coat normal in tangent space.",
            valid_shading_models: Some(&["lit"]),
            vertex_only: false,
        },
        MaterialFieldDef {
            name: "anisotropy",
            field_type: "float",
            docs: "Anisotropy factor in [-1, 1].",
            valid_shading_models: Some(&["lit"]),
            vertex_only: false,
        },
        MaterialFieldDef {
            name: "anisotropyDirection",
            field_type: "float3",
            docs: "Anisotropy direction in tangent space.",
            valid_shading_models: Some(&["lit"]),
            vertex_only: false,
        },
        MaterialFieldDef {
            name: "transmission",
            field_type: "float",
            docs: "Transmission factor in [0, 1]. Requires refractionMode.",
            valid_shading_models: Some(&["lit"]),
            vertex_only: false,
        },
        MaterialFieldDef {
            name: "ior",
            field_type: "float",
            docs: "Index of refraction. Default 1.5.",
            valid_shading_models: Some(&["lit"]),
            vertex_only: false,
        },
        MaterialFieldDef {
            name: "absorption",
            field_type: "float",
            docs: "Absorption coefficient for volumetric transmission.",
            valid_shading_models: Some(&["lit"]),
            vertex_only: false,
        },
        MaterialFieldDef {
            name: "sheenColor",
            field_type: "float3",
            docs: "Sheen color in linear sRGB.",
            valid_shading_models: Some(&["lit", "cloth"]),
            vertex_only: false,
        },
        MaterialFieldDef {
            name: "sheenRoughness",
            field_type: "float",
            docs: "Sheen roughness in [0, 1].",
            valid_shading_models: Some(&["lit", "cloth"]),
            vertex_only: false,
        },
        MaterialFieldDef {
            name: "subsurfaceColor",
            field_type: "float3",
            docs: "Subsurface scattering color.",
            valid_shading_models: Some(&["subsurface"]),
            vertex_only: false,
        },
        MaterialFieldDef {
            name: "subsurfacePower",
            field_type: "float",
            docs: "Subsurface scattering power. Default 12.0.",
            valid_shading_models: Some(&["subsurface"]),
            vertex_only: false,
        },
        MaterialFieldDef {
            name: "specularColor",
            field_type: "float3",
            docs: "Specular color in linear sRGB.",
            valid_shading_models: Some(&["specularGlossiness"]),
            vertex_only: false,
        },
        MaterialFieldDef {
            name: "glossiness",
            field_type: "float",
            docs: "Glossiness in [0, 1]. 1 = glossy, 0 = rough. Inverse of roughness.",
            valid_shading_models: Some(&["specularGlossiness"]),
            vertex_only: false,
        },
        MaterialFieldDef {
            name: "clipSpaceTransform",
            field_type: "mat4",
            docs: "Clip space transform for vertex shader.",
            valid_shading_models: None,
            vertex_only: true,
        },
        MaterialFieldDef {
            name: "vertexNormal",
            field_type: "float3",
            docs: "Vertex normal in world space. Read-only.",
            valid_shading_models: None,
            vertex_only: true,
        },
        MaterialFieldDef {
            name: "worldPosition",
            field_type: "float3",
            docs: "World space position. Read-only.",
            valid_shading_models: None,
            vertex_only: true,
        },
        MaterialFieldDef {
            name: "eyeDirection",
            field_type: "float3",
            docs: "Eye direction in world space. Read-only.",
            valid_shading_models: None,
            vertex_only: true,
        },
        MaterialFieldDef {
            name: "viewSpacePosition",
            field_type: "float3",
            docs: "View space position. Read-only.",
            valid_shading_models: None,
            vertex_only: true,
        },
    ]
}


/// The snippet inserted for a property: its name, a colon and a
/// placeholder shaped by its value type.
pub open spec fn property_snippet(p: PropertyDef) -> Seq<char> {
    let n = p.name@;
    match p.value_type {
        ValueType::Identifier => match p.valid_values {
            Some(vals) => n + ": ${1|"@ + seq_join(str_views(vals@), ","@) + "|},"@,
            None => n + ": ${1},"@,
        },
        ValueType::String => n + ": \"${1}\","@,
        ValueType::Number => n + ": ${1},"@,
        ValueType::Bool => n + ": ${1|true,false|},"@,
        ValueType::ArrayOfIdentifiers => n + ": [${1}],"@,
        ValueType::ArrayOfObjects => n + ": [${1}],"@,
        ValueType::ArrayOfStrings => n + ": [\"${1}\"],"@,
        ValueType::Object => n + ": {${1}},"@,
    }
}

pub open spec fn type_line(t: ValueType) -> Seq<char> {
    match t {
        ValueType::String => "\n\nType: string"@,
        ValueType::Number => "\n\nType: number"@,
        ValueType::Bool => "\n\nType: boolean"@,
        ValueType::Identifier => "\n\nType: identifier"@,
        ValueType::ArrayOfIdentifiers => "\n\nType: array of identifiers"@,
        ValueType::ArrayOfObjects => "\n\nType: array of objects"@,
        ValueType::ArrayOfStrings => "\n\nType: array of strings"@,
        ValueType::Object => "\n\nType: object"@,
    }
}

/// The documentation of a property: its text, its values if it has some,
/// and its value type.
pub open spec fn property_doc(p: PropertyDef) -> Seq<char> {
    p.docs@ + (match p.valid_values {
        Some(vals) => "\n\nValues: "@ + seq_join(str_views(vals@), ", "@),
        None => seq![],
    }) + type_line(p.value_type)
}

/// The documentation of a material struct field: its text, its type,
/// whether only the vertex shader has it, and its shading models.
pub open spec fn field_doc(d: MaterialFieldDef) -> Seq<char> {
    d.docs@ + "\n\nType: "@ + d.field_type@ + (if d.vertex_only { "\nVertex shader only"@ } else { seq![] })
        + (match d.valid_shading_models {
            Some(m) => "\nShading models: "@ + seq_join(str_views(m@), ", "@),
            None => seq![],
        })
}

pub open spec fn property_item(p: PropertyDef) -> ItemView {
    ItemView {
        label: p.name@,
        kind: CompletionItemKind::Property,
        documentation: Some(property_doc(p)),
        insert_text: Some(property_snippet(p)),
        insert_text_format: InsertTextFormat::Snippet,
        filter_text: Some(p.name@),
    }
}

pub open spec fn field_item(d: MaterialFieldDef) -> ItemView {
    ItemView {
        label: d.name@,
        kind: CompletionItemKind::Field,
        documentation: Some(field_doc(d)),
        insert_text: Some(d.name@),
        insert_text_format: InsertTextFormat::PlainText,
        filter_text: Some(d.name@),
    }
}

/// A plain item: a label and a kind.
pub open spec fn plain_item(label: Seq<char>, kind: CompletionItemKind) -> ItemView {
    ItemView { label, kind, documentation: None, insert_text: None, insert_text_format: InsertTextFormat::PlainText, filter_text: None }
}

/// Whether a field is offered for the shading model and scope: not when
/// the field names shading models and the given one is not among them, nor
/// when it is vertex-only outside the vertex scope.
pub open spec fn field_offered(d: MaterialFieldDef, sm: Option<Seq<char>>, vertex_scope: bool) -> bool {
    let by_model = match (d.valid_shading_models, sm) {
        (Some(m), Some(s)) => in_values(m@, s),
        _ => true,
    };
    by_model && (vertex_scope || !d.vertex_only)
}

/// The items of the offered fields, in table order.
pub open spec fn field_items(defs: Seq<MaterialFieldDef>, sm: Option<Seq<char>>, vertex_scope: bool) -> Seq<ItemView>
    decreases defs.len(),
{
    if defs.len() == 0 {
        seq![]
    } else {
        field_items(defs.drop_last(), sm, vertex_scope) + if field_offered(defs.last(), sm, vertex_scope) {
            seq![field_item(defs.last())]
        } else {
            seq![]
        }
    }
}

/// The items of the words of a keyword class: exactly those words, each
/// once, as plain items of the given kind.
pub open spec fn keyword_items(r: Seq<ItemView>, t: KeywordType, kind: CompletionItemKind) -> bool {
    &&& forall|i: int| 0 <= i < r.len() ==> spec_lookup_keyword((#[trigger] r[i]).label) == Some(t)
            && r[i] == plain_item(r[i].label, kind)
    &&& forall|w: Seq<char>| spec_lookup_keyword(w) == Some(t) ==> exists|i: int| 0 <= i < r.len() && (#[trigger] r[i]).label == w
    &&& forall|i: int, j: int| 0 <= i < j < r.len() ==> (#[trigger] r[i]).label != (#[trigger] r[j]).label
}

/// The completions for a context.
pub open spec fn completions_ok(context: CompletionContext, r: Seq<ItemView>) -> bool {
    match context {
        CompletionContext::MaterialBlock => r == property_table().map_values(|p: PropertyDef| property_item(p)),
        CompletionContext::PropertyValue(p) => r == match spec_enum_values(p@) {
            Some(vals) => vals@.map_values(|v: &'static str| plain_item(v@, CompletionItemKind::EnumValue)),
            None => seq![],
        },
        CompletionContext::ParameterType => keyword_items(r, KeywordType::ParameterType, CompletionItemKind::Type),
        CompletionContext::RequiresValue => keyword_items(r, KeywordType::VertexAttribute, CompletionItemKind::EnumValue),
        CompletionContext::ParameterField => keyword_items(r, KeywordType::ParameterField, CompletionItemKind::Property),
        CompletionContext::MaterialField { shading_model, vertex_scope } =>
            r == field_items(field_table(), opt_view(shading_model), vertex_scope),
    }
}

fn plain(label: &str, kind: CompletionItemKind) -> (r: CompletionItem)
    ensures
        r@ == plain_item(label@, kind),
{
    CompletionItem {
        label: to_owned_string(label),
        kind,
        documentation: None,
        insert_text: None,
        insert_text_format: InsertTextFormat::PlainText,
        filter_text: None,
    }
}

fn push_item(out: &mut Vec<CompletionItem>, item: CompletionItem)
    ensures
        items_view(final(out)@) == items_view(old(out)@).push(item@),
{
    let ghost o = out@;
    out.push(item);
    assert(items_view(out@) =~= items_view(o).push(item@));
}

fn make_property_snippet(prop: &PropertyDef) -> (r: String)
    ensures
        r@ == property_snippet(*prop),
{
    let mut s = to_owned_string(prop.name);
    match prop.value_type {
        ValueType::Identifier => match prop.valid_values {
            Some(vals) => {
                string_push_str(&mut s, ": ${1|");
                let j = join_strs(vals, ",");
                string_push_str(&mut s, j.as_str());
                string_push_str(&mut s, "|},");
            },
            None => string_push_str(&mut s, ": ${1},"),
        },
        ValueType::String => string_push_str(&mut s, ": \"${1}\","),
        ValueType::Number => string_push_str(&mut s, ": ${1},"),
        ValueType::Bool => string_push_str(&mut s, ": ${1|true,false|},"),
        ValueType::ArrayOfIdentifiers => string_push_str(&mut s, ": [${1}],"),
        ValueType::ArrayOfObjects => string_push_str(&mut s, ": [${1}],"),
        ValueType::ArrayOfStrings => string_push_str(&mut s, ": [\"${1}\"],"),
        ValueType::Object => string_push_str(&mut s, ": {${1}},"),
    }
    s
}

fn format_documentation(prop: &PropertyDef) -> (r: String)
    ensures
        r@ == property_doc(*prop),
{
    let mut doc = to_owned_string(prop.docs);
    match prop.valid_values {
        Some(values) => {
            string_push_str(&mut doc, "\n\nValues: ");
            let j = join_strs(values, ", ");
            string_push_str(&mut doc, j.as_str());
        },
        None => {},
    }
    let line = match prop.value_type {
        ValueType::String => "\n\nType: string",
        ValueType::Number => "\n\nType: number",
        ValueType::Bool => "\n\nType: boolean",
        ValueType::Identifier => "\n\nType: identifier",
        ValueType::ArrayOfIdentifiers => "\n\nType: array of identifiers",
        ValueType::ArrayOfObjects => "\n\nType: array of objects",
        ValueType::ArrayOfStrings => "\n\nType: array of strings",
        ValueType::Object => "\n\nType: object",
    };
    string_push_str(&mut doc, line);
    doc
}

fn format_documentation_for_field(def: &MaterialFieldDef) -> (r: String)
    ensures
        r@ == field_doc(*def),
{
    let mut doc = to_owned_string(def.docs);
    string_push_str(&mut doc, "\n\nType: ");
    string_push_str(&mut doc, def.field_type);
    if def.vertex_only {
        string_push_str(&mut doc, "\nVertex shader only");
    }
    match def.valid_shading_models {
        Some(models) => {
            string_push_str(&mut doc, "\nShading models: ");
            let j = join_strs(models, ", ");
            string_push_str(&mut doc, j.as_str());
        },
        None => {},
    }
    proof {
        assert(doc@ =~= field_doc(*def));
    }
    doc
}

/// Produces completion items.
pub struct CompletionEngine;

impl CompletionEngine {
    /// Every known Filament material struct field, in table order.
    pub fn get_material_field_defs() -> (r: Vec<MaterialFieldDef>)
        ensures
            r@ == field_table(),
    {
        let v: Vec<MaterialFieldDef> = vec![
            MaterialFieldDef {
                name: "emissive",
                field_type: "float4",
                docs: "Emissive color in linear space. Added to the final color after lighting.",
                valid_shading_models: None,
                vertex_only: false,
            },
            MaterialFieldDef {
                name: "normal",
                field_type: "float3",
                docs: "Normal in tangent space. Applied after geometry normal.",
                valid_shading_models: None,
                vertex_only: false,
            },
            MaterialFieldDef {
                name: "postLightingColor",
                field_type: "float4",
                docs: "Additional color applied after lighting. Not affected by light.",
                valid_shading_models: None,
                vertex_only: false,
            },
            MaterialFieldDef {
                name: "ambientOcclusion",
                field_type: "float",
                docs: "Ambient occlusion factor. 1.0 = fully occluded.",
                valid_shading_models: None,
                vertex_only: false,
            },
            MaterialFieldDef {
                name: "bentNormal",
                field_type: "float3",
                docs: "Bent normal for specular AO.",
                valid_shading_models: None,
                vertex_only: false,
            },
            MaterialFieldDef {
                name: "perceptualRoughness",
                field_type: "float",
                docs: "Perceptual roughness (computed from roughness). Read-only.",
                valid_shading_models: None,
                vertex_only: false,
            },
            MaterialFieldDef {
                name: "baseColor",
                field_type: "float4",
                docs: "Base color (albedo) in linear sRGB.",
                valid_shading_models: Some(&["lit", "subsurface", "cloth", "specularGlossiness"]),
                vertex_only: false,
            },
            MaterialFieldDef {
                name: "roughness",
                field_type: "float",
                docs: "Perceptual roughness in [0, 1]. 0 = smooth, 1 = rough.",
                valid_shading_models: Some(&["lit", "subsurface", "cloth", "specularGlossiness"]),
                vertex_only: false,
            },
            MaterialFieldDef {
                name: "metallic",
                field_type: "float",
                docs: "Metallic factor in [0, 1]. 0 = dielectric, 1 = metal.",
                valid_shading_models: Some(&["lit", "subsurface", "specularGlossiness"]),
                vertex_only: false,
            },
            MaterialFieldDef {
                name: "reflectance",
                field_type: "float",
                docs: "Surface reflectance in [0, 1]. Default 0.5.",
                valid_shading_models: Some(&["lit", "subsurface", "specularGlossiness"]),
                vertex_only: false,
            },
            MaterialFieldDef {
                name: "clearCoat",
                field_type: "float",
                docs: "Clear coat layer strength in [0, 1].",
                valid_shading_models: Some(&["lit"]),
                vertex_only: false,
            },
            MaterialFieldDef {
                name: "clearCoatRoughness",
                field_type: "float",
                docs: "Clear coat roughness in [0, 1].",
                valid_shading_models: Some(&["lit"]),
                vertex_only: false,
            },
            MaterialFieldDef {
                name: "clearCoatNormal",
                field_type: "float3",
                docs: "Clear coat normal in tangent space.",
                valid_shading_models: Some(&["lit"]),
                vertex_only: false,
            },
            MaterialFieldDef {
                name: "anisotropy",
                field_type: "float",
                docs: "Anisotropy factor in [-1, 1].",
                valid_shading_models: Some(&["lit"]),
                vertex_only: false,
            },
            MaterialFieldDef {
                name: "anisotropyDirection",
                field_type: "float3",
                docs: "Anisotropy direction in tangent space.",
                valid_shading_models: Some(&["lit"]),
                vertex_only: false,
            },
            MaterialFieldDef {
                name: "transmission",
                field_type: "float",
                docs: "Transmission factor in [0, 1]. Requires refractionMode.",
                valid_shading_models: Some(&["lit"]),
                vertex_only: false,
            },
            MaterialFieldDef {
                name: "ior",
                field_type: "float",
                docs: "Index of refraction. Default 1.5.",
                valid_shading_models: Some(&["lit"]),
                vertex_only: false,
            },
            MaterialFieldDef {
                name: "absorption",
                field_type: "float",
                docs: "Absorption coefficient for volumetric transmission.",
                valid_shading_models: Some(&["lit"]),
                vertex_only: false,
            },
            MaterialFieldDef {
                name: "sheenColor",
                field_type: "float3",
                docs: "Sheen color in linear sRGB.",
                valid_shading_models: Some(&["lit", "cloth"]),
                vertex_only: false,
            },
            MaterialFieldDef {
                name: "sheenRoughness",
                field_type: "float",
                docs: "Sheen roughness in [0, 1].",
                valid_shading_models: Some(&["lit", "cloth"]),
                vertex_only: false,
            },
            MaterialFieldDef {
                name: "subsurfaceColor",
                field_type: "float3",
                docs: "Subsurface scattering color.",
                valid_shading_models: Some(&["subsurface"]),
                vertex_only: false,
            },
            MaterialFieldDef {
                name: "subsurfacePower",
                field_type: "float",
                docs: "Subsurface scattering power. Default 12.0.",
                valid_shading_models: Some(&["subsurface"]),
                vertex_only: false,
            },
            MaterialFieldDef {
                name: "specularColor",
                field_type: "float3",
                docs: "Specular color in linear sRGB.",
                valid_shading_models: Some(&["specularGlossiness"]),
                vertex_only: false,
            },
            MaterialFieldDef {
                name: "glossiness",
                field_type: "float",
                docs: "Glossiness in [0, 1]. 1 = glossy, 0 = rough. Inverse of roughness.",
                valid_shading_models: Some(&["specularGlossiness"]),
                vertex_only: false,
            },
            MaterialFieldDef {
                name: "clipSpaceTransform",
                field_type: "mat4",
                docs: "Clip space transform for vertex shader.",
                valid_shading_models: None,
                vertex_only: true,
            },
            MaterialFieldDef {
                name: "vertexNormal",
                field_type: "float3",
                docs: "Vertex normal in world space. Read-only.",
                valid_shading_models: None,
                vertex_only: true,
            },
            MaterialFieldDef {
                name: "worldPosition",
                field_type: "float3",
                docs: "World space position. Read-only.",
                valid_shading_models: None,
                vertex_only: true,
            },
            MaterialFieldDef {
                name: "eyeDirection",
                field_type: "float3",
                docs: "Eye direction in world space. Read-only.",
                valid_shading_models: None,
                vertex_only: true,
            },
            MaterialFieldDef {
                name: "viewSpacePosition",
                field_type: "float3",
                docs: "View space position. Read-only.",
                valid_shading_models: None,
                vertex_only: true,
            },
        ];
        v
    }

    pub fn new() -> (r: Self) {
        CompletionEngine
    }

    /// The completions for a context.
    pub fn get_completions(&self, context: CompletionContext) -> (r: Vec<CompletionItem>)
        ensures
            completions_ok(context, items_view(r@)),
    {
        match context {
            CompletionContext::MaterialBlock => Self::get_material_properties(),
            CompletionContext::PropertyValue(prop) => Self::get_property_values(prop.as_str()),
            CompletionContext::ParameterType => Self::keyword_completions(KeywordType::ParameterType, CompletionItemKind::Type),
            CompletionContext::RequiresValue => Self::keyword_completions(KeywordType::VertexAttribute, CompletionItemKind::EnumValue),
            CompletionContext::ParameterField => Self::keyword_completions(KeywordType::ParameterField, CompletionItemKind::Property),
            CompletionContext::MaterialField { shading_model, vertex_scope } => {
                let sm = match &shading_model {
                    Some(s) => Some(s.as_str()),
                    None => None,
                };
                Self::get_material_fields(sm, vertex_scope)
            },
        }
    }

    /// The items of the material struct fields offered for a shading model
    /// and scope.
    pub fn get_material_fields(shading_model: Option<&str>, vertex_scope: bool) -> (r: Vec<CompletionItem>)
        ensures
            items_view(r@) == field_items(field_table(), match shading_model { Some(s) => Some(s@), None => None }, vertex_scope),
    {
        let defs = Self::get_material_field_defs();
        let ghost sm = match shading_model { Some(s) => Some(s@), None => None };
        let mut out: Vec<CompletionItem> = Vec::new();
        let mut i: usize = 0;
        assert(defs@.take(0) =~= seq![]);
        assert(items_view(out@) =~= seq![]);
        while i < defs.len()
            invariant
                i <= defs@.len(),
                defs@ == field_table(),
                sm == match shading_model { Some(s) => Some(s@), None => None },
                items_view(out@) == field_items(defs@.take(i as int), sm, vertex_scope),
            decreases defs.len() - i,
        {
            let def = defs[i];
            proof {
                assert(defs@.take(i + 1).drop_last() =~= defs@.take(i as int));
            }
            let by_model = match (def.valid_shading_models, shading_model) {
                (Some(models), Some(s)) => {
                    let mut found = false;
                    let mut k: usize = 0;
                    while k < models.len()
                        invariant
                            k <= models@.len(),
                            found == exists|j: int| 0 <= j < k && (#[trigger] models@[j])@ == s@,
                        decreases models.len() - k,
                    {
                        if str_eq(models[k], s) {
                            found = true;
                        }
                        k = k + 1;
                    }
                    found
                },
                _ => true,
            };
            if by_model && (vertex_scope || !def.vertex_only) {
                let item = CompletionItem {
                    label: to_owned_string(def.name),
                    kind: CompletionItemKind::Field,
                    documentation: Some(format_documentation_for_field(&def)),
                    insert_text: Some(to_owned_string(def.name)),
                    insert_text_format: InsertTextFormat::PlainText,
                    filter_text: Some(to_owned_string(def.name)),
                };
                push_item(&mut out, item);
            }
            proof {
                assert(field_items(defs@.take(i + 1), sm, vertex_scope) =~= field_items(defs@.take(i as int), sm, vertex_scope)
                    + if field_offered(def, sm, vertex_scope) { seq![field_item(def)] } else { seq![] });
            }
            i = i + 1;
        }
        assert(defs@.take(i as int) =~= defs@);
        out
    }

    /// The items of all material properties, with snippets and documentation.
    pub fn get_material_properties() -> (r: Vec<CompletionItem>)
        ensures
            items_view(r@) == property_table().map_values(|p: PropertyDef| property_item(p)),
    {
        let props = get_properties();
        let mut out: Vec<CompletionItem> = Vec::new();
        let mut i: usize = 0;
        while i < props.len()
            invariant
                i <= props@.len(),
                props@ == property_table(),
                items_view(out@) == props@.take(i as int).map_values(|p: PropertyDef| property_item(p)),
            decreases props.len() - i,
        {
            let p = props[i];
            let item = CompletionItem {
                label: to_owned_string(p.name),
                kind: CompletionItemKind::Property,
                documentation: Some(format_documentation(&p)),
                insert_text: Some(make_property_snippet(&p)),
                insert_text_format: InsertTextFormat::Snippet,
                filter_text: Some(to_owned_string(p.name)),
            };
            push_item(&mut out, item);
            assert(props@.take(i + 1).map_values(|p: PropertyDef| property_item(p)) =~= props@.take(i as int).map_values(
                |p: PropertyDef| property_item(p),
            ).push(property_item(p)));
            i = i + 1;
        }
        assert(props@.take(i as int) =~= props@);
        out
    }

    /// The enumerated values of a property as items; none for a property
    /// without enumerated values.
    pub fn get_property_values(property_name: &str) -> (r: Vec<CompletionItem>)
        ensures
            items_view(r@) == match spec_enum_values(property_name@) {
                Some(vals) => vals@.map_values(|v: &'static str| plain_item(v@, CompletionItemKind::EnumValue)),
                None => seq![],
            },
    {
        let mut out: Vec<CompletionItem> = Vec::new();
        match get_enum_values(property_name) {
            Some(values) => {
                let mut i: usize = 0;
                while i < values.len()
                    invariant
                        i <= values@.len(),
                        items_view(out@) == values@.take(i as int).map_values(|v: &'static str| plain_item(v@, CompletionItemKind::EnumValue)),
                    decreases values.len() - i,
                {
                    push_item(&mut out, plain(values[i], CompletionItemKind::EnumValue));
                    assert(values@.take(i + 1).map_values(|v: &'static str| plain_item(v@, CompletionItemKind::EnumValue))
                        =~= values@.take(i as int).map_values(|v: &'static str| plain_item(v@, CompletionItemKind::EnumValue)).push(
                        plain_item(values@[i as int]@, CompletionItemKind::EnumValue),
                    ));
                    i = i + 1;
                }
                assert(values@.take(i as int) =~= values@);
            },
            None => {
                assert(items_view(out@) =~= seq![]);
            },
        }
        out
    }

    /// The words of a keyword class as plain items of the given kind.
    pub fn keyword_completions(t: KeywordType, kind: CompletionItemKind) -> (r: Vec<CompletionItem>)
        ensures
            keyword_items(items_view(r@), t, kind),
    {
        let words = get_keywords_by_type(t);
        let mut out: Vec<CompletionItem> = Vec::new();
        let mut i: usize = 0;
        while i < words.len()
            invariant
                i <= words@.len(),
                items_view(out@).len() == i,
                forall|k: int| 0 <= k < i ==> (#[trigger] items_view(out@)[k]) == plain_item(words@[k]@, kind),
            decreases words.len() - i,
        {
            let ghost o = items_view(out@);
            push_item(&mut out, plain(words[i], kind));
            assert forall|k: int| 0 <= k < i + 1 implies (#[trigger] items_view(out@)[k]) == plain_item(words@[k]@, kind) by {
                if k < i {
                    assert(items_view(out@)[k] == o[k]);
                }
            }
            i = i + 1;
        }
        let ghost r = items_view(out@);
        assert forall|w: Seq<char>| spec_lookup_keyword(w) == Some(t) implies exists|k: int| 0 <= k < r.len() && (#[trigger] r[k]).label == w by {
            let k = choose|k: int| 0 <= k < words@.len() && (#[trigger] words@[k])@ == w;
            assert(r[k].label == w);
        }
        assert forall|a: int, b: int| 0 <= a < b < r.len() implies (#[trigger] r[a]).label != (#[trigger] r[b]).label by {
            assert(r[a].label == words@[a]@);
            assert(r[b].label == words@[b]@);
        }
        assert forall|k: int| 0 <= k < r.len() implies spec_lookup_keyword((#[trigger] r[k]).label) == Some(t) && r[k] == plain_item(r[k].label, kind) by {
            assert(r[k] == plain_item(words@[k]@, kind));
        }
        out
    }
}

impl Default for CompletionEngine {
    fn default() -> (r: Self) {
        CompletionEngine
    }
}

/// A field whose list of shading models holds the given one, at any place
/// in the list (or that lists none, or when no model is given), and that is
/// not vertex-only outside the vertex scope, is offered.
pub proof fn lemma_field_offered_when_valid(defs: Seq<MaterialFieldDef>, sm: Option<Seq<char>>, vertex_scope: bool, j: int)
    requires
        0 <= j < defs.len(),
        match (defs[j].valid_shading_models, sm) {
            (Some(ms), Some(s)) => exists|k: int| 0 <= k < ms@.len() && (#[trigger] ms@[k])@ == s,
            _ => true,
        },
        vertex_scope || !defs[j].vertex_only,
    ensures
        field_items(defs, sm, vertex_scope).contains(field_item(defs[j])),
    decreases defs.len(),
{
    let r = field_items(defs.drop_last(), sm, vertex_scope);
    let all = field_items(defs, sm, vertex_scope);
    if j == defs.len() - 1 {
        assert(field_offered(defs.last(), sm, vertex_scope));
        assert(all[r.len() as int] == field_item(defs[j]));
    } else {
        assert(defs.drop_last()[j] == defs[j]);
        lemma_field_offered_when_valid(defs.drop_last(), sm, vertex_scope, j);
        let v = choose|v: int| 0 <= v < r.len() && r[v] == field_item(defs[j]);
        assert(all[v] == field_item(defs[j]));
    }
}

/// Every offered item is that of a field whose list of shading models holds
/// the given one (or that lists none, or when no model is given), and that
/// is not vertex-only outside the vertex scope.
pub proof fn lemma_field_offered_only_when_valid(defs: Seq<MaterialFieldDef>, sm: Option<Seq<char>>, vertex_scope: bool)
    ensures
        forall|i: int| 0 <= i < field_items(defs, sm, vertex_scope).len() ==> exists|j: int| {
            &&& 0 <= j < defs.len()
            &&& #[trigger] field_items(defs, sm, vertex_scope)[i] == field_item(defs[j])
            &&& vertex_scope || !defs[j].vertex_only
            &&& match (defs[j].valid_shading_models, sm) {
                (Some(ms), Some(s)) => exists|k: int| 0 <= k < ms@.len() && (#[trigger] ms@[k])@ == s,
                _ => true,
            }
        },
    decreases defs.len(),
{
    if defs.len() > 0 {
        lemma_field_offered_only_when_valid(defs.drop_last(), sm, vertex_scope);
        let r = field_items(defs.drop_last(), sm, vertex_scope);
        let all = field_items(defs, sm, vertex_scope);
        assert forall|i: int| 0 <= i < all.len() implies exists|j: int| {
            &&& 0 <= j < defs.len()
            &&& #[trigger] all[i] == field_item(defs[j])
            &&& vertex_scope || !defs[j].vertex_only
            &&& match (defs[j].valid_shading_models, sm) {
                (Some(ms), Some(s)) => exists|k: int| 0 <= k < ms@.len() && (#[trigger] ms@[k])@ == s,
                _ => true,
            }
        } by {
            if i < r.len() {
                assert(all[i] == r[i]);
                let j = choose|j: int| {
                    &&& 0 <= j < defs.drop_last().len()
                    &&& #[trigger] r[i] == field_item(defs.drop_last()[j])
                    &&& vertex_scope || !defs.drop_last()[j].vertex_only
                    &&& match (defs.drop_last()[j].valid_shading_models, sm) {
                        (Some(ms), Some(s)) => exists|k: int| 0 <= k < ms@.len() && (#[trigger] ms@[k])@ == s,
                        _ => true,
                    }
                };
                assert(defs.drop_last()[j] == defs[j]);
            } else {
                let j = defs.len() - 1;
                assert(field_offered(defs[j], sm, vertex_scope));
                assert(all[i] == field_item(defs[j]));
            }
        }
    }
}

} // verus!
