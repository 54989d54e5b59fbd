//! Hover documentation for material properties, enumerated values, the
//! shader API and the fields of the structured arrays.
use vstd::prelude::*;
use crate::schema::{
    get_keywords_by_type, get_properties, property_table, spec_lookup_keyword, KeywordType, PropertyDef, fixed_keyword_table,
    keyword_registrations, lemma_last_registration_witness,
};
use crate::text::{join_strs, seq_join, str_eq, str_views, string_push_str, to_owned_string};

verus! {

broadcast use vstd::string::group_string_axioms;

/// The keyword classes whose words get a generic entry, with the category
/// named in it.
pub open spec fn category_table() -> Seq<(KeywordType, &'static str)> {
    seq![
        (KeywordType::ShadingModel, "Shading model"),
        (KeywordType::BlendingMode, "Blending mode"),
        (KeywordType::CullingMode, "Culling mode"),
        (KeywordType::VertexDomain, "Vertex domain"),
        (KeywordType::MaterialDomain, "Material domain"),
        (KeywordType::InterpolationMode, "Interpolation mode"),
        (KeywordType::RefractionMode, "Refraction mode"),
        (KeywordType::RefractionType, "Refraction type"),
        (KeywordType::ReflectionMode, "Reflection mode"),
        (KeywordType::TransparencyMode, "Transparency mode"),
        (KeywordType::StereoscopicType, "Stereoscopic type"),
        (KeywordType::QualityLevel, "Quality level"),
        (KeywordType::SpecularAmbientOcclusionMode, "Specular ambient occlusion mode"),
        (KeywordType::PrecisionValue, "Precision value"),
        (KeywordType::SamplerFormat, "Sampler format"),
        (KeywordType::BlendFunction, "Blend function"),
        (KeywordType::VertexAttribute, "Vertex attribute"),
        (KeywordType::VariantFilterValue, "Variant filter value"),
        (KeywordType::ParameterType, "Parameter type"),
    ]
}

fn categories() -> (r: Vec<(KeywordType, &'static str)>)
    ensures
        r@ == category_table(),
{
    let v: Vec<(KeywordType, &'static str)> = vec![
        (KeywordType::ShadingModel, "Shading model"),
        (KeywordType::BlendingMode, "Blending mode"),
        (KeywordType::CullingMode, "Culling mode"),
        (KeywordType::VertexDomain, "Vertex domain"),
        (KeywordType::MaterialDomain, "Material domain"),
        (KeywordType::InterpolationMode, "Interpolation mode"),
        (KeywordType::RefractionMode, "Refraction mode"),
        (KeywordType::RefractionType, "Refraction type"),
        (KeywordType::ReflectionMode, "Reflection mode"),
        (KeywordType::TransparencyMode, "Transparency mode"),
        (KeywordType::StereoscopicType, "Stereoscopic type"),
        (KeywordType::QualityLevel, "Quality level"),
        (KeywordType::SpecularAmbientOcclusionMode, "Specular ambient occlusion mode"),
        (KeywordType::PrecisionValue, "Precision value"),
        (KeywordType::SamplerFormat, "Sampler format"),
        (KeywordType::BlendFunction, "Blend function"),
        (KeywordType::VertexAttribute, "Vertex attribute"),
        (KeywordType::VariantFilterValue, "Variant filter value"),
        (KeywordType::ParameterType, "Parameter type"),
    ];
    v
}

/// The entries written over all others, in order: a word, its text, and
/// whether the text documents a field of `MaterialInputs`.
pub open spec fn fixed_doc_table() -> Seq<(&'static str, &'static str, bool)> {
    seq![
        ("MaterialInputs", "Filament shader input struct. Contains fields like baseColor, roughness, metallic, normal, etc.", false),
        ("baseColor", "Linear base color (RGBA). Typical range [0..1] for LDR. Premultiplied alpha is handled by Filament.", true),
        ("roughness", "Surface roughness in the range [0..1]. Roughness 0 is mirror-like, 1 is fully rough.", true),
        ("metallic", "Metallic factor in the range [0..1]. 0 = dielectric, 1 = metal.", true),
        ("normal", "Normal in the shading tangent frame. Usually derived from a normal map.", true),
        ("emissive", "Emissive color (RGB) added to the final color regardless of lighting.", true),
        ("ambientOcclusion", "Ambient occlusion factor in the range [0..1]. Multiplied into indirect lighting.", true),
        ("sheenColor", "Sheen color for cloth-like materials (multi-scatter specular).", true),
        ("sheenRoughness", "Sheen roughness for cloth-like materials.", true),
        ("clearcoat", "Clearcoat layer strength in the range [0..1].", true),
        ("clearcoatRoughness", "Roughness of the clearcoat layer in the range [0..1].", true),
        ("clearcoatNormal", "Normal of the clearcoat layer in the shading tangent frame.", true),
        ("thickness", "Thickness of the material, used by refraction and transmission.", true),
        ("subsurfaceColor", "Subsurface scattering color.", true),
        ("subsurfacePower", "Subsurface scattering power (controls the falloff).", true),
        ("specularColor", "Specular color for the F0 term (dielectric-conductor blend).", true),
        ("microfacetAlpha", "Legacy alias for the microfacet distribution width (roughness).", true),
        ("dispersion", "Dispersion factor for refractive materials.", true),
        ("anisotropy", "Anisotropy of the specular highlight, in the range [-1..1].", true),
        ("anisotropyDirection", "Direction of anisotropy in the shading tangent frame.", true),
        ("perceptualRoughness", "Perceptual (Gamma-corrected) roughness, squared to obtain the microfacet roughness.", true),
        ("ior", "Index of refraction of the material, used for dielectric specular and refraction.", true),
        ("absorption", "Absorption coefficient used by refraction and transmission.", true),
        ("transmission", "Transmission factor in the range [0..1] (transparent/refractive materials).", true),
        ("reflectance", "Reflectance at normal incidence, in the range [0..1] (default 0.5).", true),
        ("userData", "Unused user-defined data slot that can be written from the shader.", true),
        ("MaterialVertexInputs", "Filament vertex shader input struct. Contains vertex attributes passed to the fragment shader.", false),
        ("materialParams", "Runtime material parameter block. Access parameters defined in the material block using materialParams.name.", false),
        ("prepareMaterial", "Filament built-in function. Must be called before modifying MaterialInputs in the fragment shader.", false),
        ("getUV0", "Returns the first UV coordinate set (uv0) for the current fragment.", false),
        ("getUV1", "Returns the second UV coordinate set (uv1) for the current fragment.", false),
        ("getWorldPosition", "Returns the world-space position of the current fragment.", false),
        ("getWorldNormal", "Returns the world-space normal of the current fragment.", false),
        ("texture", "GLSL built-in function for sampling textures.", false),
        ("constants", "Compile-time constants array. Each element is an object with `name`, `type` (int/float/bool), and optional `default` value.", false),
        ("variables", "Material variables array. List of identifiers that can be used as shader inputs.", false),
        ("buffers", "SSBO (Shader Storage Buffer Object) bindings. Each element is an object with `name`.", false),
        ("subpasses", "Subpass inputs for multi-pass rendering. Each element is an object with `name` and `type`.", false),
        ("outputs", "Fragment shader outputs. Each element is an object with `name` and `type` (e.g., float4).", false),
        ("name", "Name of the parameter, constant, buffer, subpass, or output. Must be unique within its block.", false),
        ("type", "Data type. For parameters: float4, sampler2d, etc. For constants: int, float, bool. For subpasses/outputs: the data type.", false),
        ("default", "Default value for constants or parameters. Used when no runtime value is provided.", false),
        ("precision", "Numeric precision: low, medium, high. Default is medium.", false),
        ("format", "Texture format for samplers: linear, nearest, etc.", false),
        ("filterable", "Whether the sampler can be filtered. Default is true.", false),
        ("multisample", "Whether the sampler supports multisampling.", false),
        ("stages", "Shader stages where this parameter is active: vertex, fragment, or both.", false),
        ("transformName", "Name of the transform matrix for this parameter.", false),
    ]
}

fn fixed_docs() -> (r: Vec<(&'static str, &'static str, bool)>)
    ensures
        r@ == fixed_doc_table(),
{
    let v: Vec<(&'static str, &'static str, bool)> = vec![
        ("MaterialInputs", "Filament shader input struct. Contains fields like baseColor, roughness, metallic, normal, etc.", false),
        ("baseColor", "Linear base color (RGBA). Typical range [0..1] for LDR. Premultiplied alpha is handled by Filament.", true),
        ("roughness", "Surface roughness in the range [0..1]. Roughness 0 is mirror-like, 1 is fully rough.", true),
        ("metallic", "Metallic factor in the range [0..1]. 0 = dielectric, 1 = metal.", true),
        ("normal", "Normal in the shading tangent frame. Usually derived from a normal map.", true),
        ("emissive", "Emissive color (RGB) added to the final color regardless of lighting.", true),
        ("ambientOcclusion", "Ambient occlusion factor in the range [0..1]. Multiplied into indirect lighting.", true),
        ("sheenColor", "Sheen color for cloth-like materials (multi-scatter specular).", true),
        ("sheenRoughness", "Sheen roughness for cloth-like materials.", true),
        ("clearcoat", "Clearcoat layer strength in the range [0..1].", true),
        ("clearcoatRoughness", "Roughness of the clearcoat layer in the range [0..1].", true),
        ("clearcoatNormal", "Normal of the clearcoat layer in the shading tangent frame.", true),
        ("thickness", "Thickness of the material, used by refraction and transmission.", true),
        ("subsurfaceColor", "Subsurface scattering color.", true),
        ("subsurfacePower", "Subsurface scattering power (controls the falloff).", true),
        ("specularColor", "Specular color for the F0 term (dielectric-conductor blend).", true),
        ("microfacetAlpha", "Legacy alias for the microfacet distribution width (roughness).", true),
        ("dispersion", "Dispersion factor for refractive materials.", true),
        ("anisotropy", "Anisotropy of the specular highlight, in the range [-1..1].", true),
        ("anisotropyDirection", "Direction of anisotropy in the shading tangent frame.", true),
        ("perceptualRoughness", "Perceptual (Gamma-corrected) roughness, squared to obtain the microfacet roughness.", true),
        ("ior", "Index of refraction of the material, used for dielectric specular and refraction.", true),
        ("absorption", "Absorption coefficient used by refraction and transmission.", true),
        ("transmission", "Transmission factor in the range [0..1] (transparent/refractive materials).", true),
        ("reflectance", "Reflectance at normal incidence, in the range [0..1] (default 0.5).", true),
        ("userData", "Unused user-defined data slot that can be written from the shader.", true),
        ("MaterialVertexInputs", "Filament vertex shader input struct. Contains vertex attributes passed to the fragment shader.", false),
        ("materialParams", "Runtime material parameter block. Access parameters defined in the material block using materialParams.name.", false),
        ("prepareMaterial", "Filament built-in function. Must be called before modifying MaterialInputs in the fragment shader.", false),
        ("getUV0", "Returns the first UV coordinate set (uv0) for the current fragment.", false),
        ("getUV1", "Returns the second UV coordinate set (uv1) for the current fragment.", false),
        ("getWorldPosition", "Returns the world-space position of the current fragment.", false),
        ("getWorldNormal", "Returns the world-space normal of the current fragment.", false),
        ("texture", "GLSL built-in function for sampling textures.", false),
        ("constants", "Compile-time constants array. Each element is an object with `name`, `type` (int/float/bool), and optional `default` value.", false),
        ("variables", "Material variables array. List of identifiers that can be used as shader inputs.", false),
        ("buffers", "SSBO (Shader Storage Buffer Object) bindings. Each element is an object with `name`.", false),
        ("subpasses", "Subpass inputs for multi-pass rendering. Each element is an object with `name` and `type`.", false),
        ("outputs", "Fragment shader outputs. Each element is an object with `name` and `type` (e.g., float4).", false),
        ("name", "Name of the parameter, constant, buffer, subpass, or output. Must be unique within its block.", false),
        ("type", "Data type. For parameters: float4, sampler2d, etc. For constants: int, float, bool. For subpasses/outputs: the data type.", false),
        ("default", "Default value for constants or parameters. Used when no runtime value is provided.", false),
        ("precision", "Numeric precision: low, medium, high. Default is medium.", false),
        ("format", "Texture format for samplers: linear, nearest, etc.", false),
        ("filterable", "Whether the sampler can be filtered. Default is true.", false),
        ("multisample", "Whether the sampler supports multisampling.", false),
        ("stages", "Shader stages where this parameter is active: vertex, fragment, or both.", false),
        ("transformName", "Name of the transform matrix for this parameter.", false),
    ];
    v
}

/// The text of a fixed entry.
pub open spec fn fixed_text(e: (&'static str, &'static str, bool)) -> Seq<char> {
    if e.2 { "MaterialInputs field. "@ + e.1@ } else { e.1@ }
}

/// The text of the last fixed entry for a word.
pub open spec fn last_fixed(t: Seq<(&'static str, &'static str, bool)>, w: Seq<char>) -> Option<Seq<char>>
    decreases t.len(),
{
    if t.len() == 0 {
        None
    } else if t.last().0@ == w {
        Some(fixed_text(t.last()))
    } else {
        last_fixed(t.drop_last(), w)
    }
}

/// The documentation of a property: its text and, where it has them, its
/// values.
pub open spec fn property_hover(p: PropertyDef) -> Seq<char> {
    p.docs@ + match p.valid_values {
        Some(vals) => "\n\n**Values:** "@ + seq_join(str_views(vals@), ", "@),
        None => seq![],
    }
}

/// The documentation of the last property of `t` with the given name.
pub open spec fn last_property_doc(t: Seq<PropertyDef>, w: Seq<char>) -> Option<Seq<char>>
    decreases t.len(),
{
    if t.len() == 0 {
        None
    } else if t.last().name@ == w {
        Some(property_hover(t.last()))
    } else {
        last_property_doc(t.drop_last(), w)
    }
}

/// The category of the first listed class `kt` in `t`.
pub open spec fn category_in(t: Seq<(KeywordType, &'static str)>, kt: KeywordType) -> Option<Seq<char>>
    decreases t.len(),
{
    if t.len() == 0 {
        None
    } else if t[0].0 == kt {
        Some(t[0].1@)
    } else {
        category_in(t.drop_first(), kt)
    }
}

/// The generic entry of a keyword whose class has a category in `t`.
pub open spec fn category_doc(t: Seq<(KeywordType, &'static str)>, w: Seq<char>) -> Option<Seq<char>> {
    match spec_lookup_keyword(w) {
        Some(kt) => match category_in(t, kt) {
            Some(c) => Some(c + ": "@ + w),
            None => None,
        },
        None => None,
    }
}

/// The entries after the properties and the categories in `cats`.
pub open spec fn doc_after_categories(cats: Seq<(KeywordType, &'static str)>, w: Seq<char>) -> Option<Seq<char>> {
    match last_property_doc(property_table(), w) {
        Some(d) => Some(d),
        None => category_doc(cats, w),
    }
}

/// The hover text of a word: a fixed entry, else a property's
/// documentation, else the category of its keyword class.
pub open spec fn hover_doc(w: Seq<char>) -> Option<Seq<char>> {
    match last_fixed(fixed_doc_table(), w) {
        Some(d) => Some(d),
        None => doc_after_categories(category_table(), w),
    }
}

/// The text of the first entry with key `w` in an association list.
pub open spec fn lookup(m: Seq<(String, String)>, w: Seq<char>) -> Option<Seq<char>>
    decreases m.len(),
{
    if m.len() == 0 {
        None
    } else if m[0].0@ == w {
        Some(m[0].1@)
    } else {
        lookup(m.drop_first(), w)
    }
}

pub open spec fn keys_unique(m: Seq<(String, String)>) -> bool {
    forall|i: int, j: int| 0 <= i < j < m.len() ==> (#[trigger] m[i]).0@ != (#[trigger] m[j]).0@
}

/// Looking up in a list with distinct keys finds the entry that has the key.
proof fn lemma_lookup(m: Seq<(String, String)>, w: Seq<char>)
    requires
        keys_unique(m),
    ensures
        lookup(m, w) is Some <==> exists|i: int| 0 <= i < m.len() && (#[trigger] m[i]).0@ == w,
        forall|i: int| 0 <= i < m.len() && (#[trigger] m[i]).0@ == w ==> lookup(m, w) == Some(m[i].1@),
    decreases m.len(),
{
    if m.len() > 0 {
        lemma_lookup(m.drop_first(), w);
        assert forall|i: int| 1 <= i < m.len() implies (#[trigger] m[i]) == m.drop_first()[i - 1] by {}
        if m[0].0@ != w {
            assert forall|i: int| 0 <= i < m.len() && (#[trigger] m[i]).0@ == w implies lookup(m, w) == Some(m[i].1@) by {
                assert(m.drop_first()[i - 1] == m[i]);
            }
            if lookup(m, w) is Some {
                let k = choose|k: int| 0 <= k < m.drop_first().len() && (#[trigger] m.drop_first()[k]).0@ == w;
                assert(m[k + 1].0@ == w);
            }
        }
    }
}

/// Sets the text of a key, replacing an entry that has it.
fn map_insert(m: &mut Vec<(String, String)>, k: String, v: String)
    requires
        keys_unique(old(m)@),
    ensures
        keys_unique(final(m)@),
        forall|w: Seq<char>| lookup(final(m)@, w) == if w == k@ { Some(v@) } else { lookup(old(m)@, w) },
{
    let ghost o = m@;
    let ghost kv0 = k@;
    let ghost vv0 = v@;
    let mut i: usize = 0;
    while i < m.len()
        invariant
            i <= m@.len(),
            m@ == o,
            o == old(m)@,
            kv0 == k@,
            vv0 == v@,
            keys_unique(o),
            forall|j: int| 0 <= j < i ==> (#[trigger] m@[j]).0@ != k@,
        decreases m.len() - i,
    {
        if str_eq(m[i].0.as_str(), k.as_str()) {
            let kk = m[i].0.clone();
            m.set(i, (kk, v));
            proof {
                assert forall|a: int, b: int| 0 <= a < b < m@.len() implies (#[trigger] m@[a]).0@ != (#[trigger] m@[b]).0@ by {
                    assert(m@[a].0@ == o[a].0@ && m@[b].0@ == o[b].0@);
                }
                assert(m@[i as int].0@ == kv0 && m@[i as int].1@ == vv0);
                assert forall|w: Seq<char>| lookup(m@, w) == if w == kv0 { Some(vv0) } else { lookup(o, w) } by {
                    lemma_lookup(m@, w);
                    lemma_lookup(o, w);
                    if w != kv0 {
                        assert forall|j: int| 0 <= j < m@.len() implies ((#[trigger] m@[j]).0@ == w <==> o[j].0@ == w) by {}
                        if lookup(o, w) is Some {
                            let j = choose|j: int| 0 <= j < o.len() && (#[trigger] o[j]).0@ == w;
                            assert(m@[j] == o[j]);
                        }
                    } else {
                        assert(m@[i as int].0@ == w);
                    }
                }
            }
            assert(forall|w: Seq<char>| lookup(m@, w) == if w == k@ { Some(v@) } else { lookup(o, w) });
            return;
        }
        i = i + 1;
    }
    let ghost kv = (k, v);
    m.push((k, v));
    proof {
        assert forall|a: int, b: int| 0 <= a < b < m@.len() implies (#[trigger] m@[a]).0@ != (#[trigger] m@[b]).0@ by {
            if b < o.len() {
                assert(m@[a] == o[a] && m@[b] == o[b]);
            }
        }
        assert forall|w: Seq<char>| lookup(m@, w) == if w == kv.0@ { Some(kv.1@) } else { lookup(o, w) } by {
            lemma_lookup(m@, w);
            lemma_lookup(o, w);
            if w != kv.0@ {
                if lookup(o, w) is Some {
                    let j = choose|j: int| 0 <= j < o.len() && (#[trigger] o[j]).0@ == w;
                    assert(m@[j] == o[j]);
                }
                if lookup(m@, w) is Some {
                    let j = choose|j: int| 0 <= j < m@.len() && (#[trigger] m@[j]).0@ == w;
                    assert(j < o.len());
                    assert(m@[j] == o[j]);
                }
            } else {
                assert(m@[o.len() as int].0@ == w);
            }
        }
    }
}

/// Whether a key has an entry.
fn map_contains(m: &Vec<(String, String)>, k: &str) -> (r: bool)
    requires
        keys_unique(m@),
    ensures
        r == lookup(m@, k@) is Some,
{
    proof {
        lemma_lookup(m@, k@);
    }
    let mut i: usize = 0;
    while i < m.len()
        invariant
            i <= m@.len(),
            keys_unique(m@),
            forall|j: int| 0 <= j < i ==> (#[trigger] m@[j]).0@ != k@,
        decreases m.len() - i,
    {
        if str_eq(m[i].0.as_str(), k) {
            proof {
                lemma_lookup(m@, k@);
            }
            return true;
        }
        i = i + 1;
    }
    false
}

/// Gives hover documentation.
pub struct HoverEngine;

impl HoverEngine {
    pub fn new() -> (r: Self) {
        HoverEngine
    }

    /// The documentation entries: property documentation, then a generic
    /// entry for each keyword of a listed class that has none yet, then the
    /// fixed entries, which replace earlier ones.
    #[verifier::rlimit(40)]
    pub fn docs() -> (r: Vec<(String, String)>)
        ensures
            keys_unique(r@),
            forall|w: Seq<char>| #[trigger] lookup(r@, w) == hover_doc(w),
    {
        let mut docs: Vec<(String, String)> = Vec::new();
        let props = get_properties();
        let mut i: usize = 0;
        assert(property_table().take(0) =~= Seq::<PropertyDef>::empty());
        while i < props.len()
            invariant
                i <= props@.len(),
                props@ == property_table(),
                keys_unique(docs@),
                forall|w: Seq<char>| #[trigger] lookup(docs@, w) == last_property_doc(props@.take(i as int), w),
            decreases props.len() - i,
        {
            let p = props[i];
            let mut doc = to_owned_string(p.docs);
            match p.valid_values {
                Some(values) => {
                    string_push_str(&mut doc, "\n\n**Values:** ");
                    let j = join_strs(values, ", ");
                    string_push_str(&mut doc, j.as_str());
                },
                None => {},
            }
            assert(doc@ == property_hover(p));
            map_insert(&mut docs, to_owned_string(p.name), doc);
            assert(props@.take(i + 1).drop_last() =~= props@.take(i as int));
            i = i + 1;
        }
        assert(props@.take(i as int) =~= property_table());
        let cats = categories();
        let mut c: usize = 0;
        assert(category_table().take(0) =~= Seq::<(KeywordType, &'static str)>::empty());
        while c < cats.len()
            invariant
                c <= cats@.len(),
                cats@ == category_table(),
                keys_unique(docs@),
                forall|w: Seq<char>| #[trigger] lookup(docs@, w) == doc_after_categories(cats@.take(c as int), w),
            decreases cats.len() - c,
        {
            let (kt, category) = cats[c];
            let kws = get_keywords_by_type(kt);
            let ghost pre = cats@.take(c as int);
            proof {
                assert(cats@.take(c + 1) =~= pre.push((kt, category)));
                lemma_categories_distinct(c as int);
            }
            let mut j: usize = 0;
            while j < kws.len()
                invariant
                    j <= kws@.len(),
                    c < cats@.len(),
                    cats@ == category_table(),
                    pre == cats@.take(c as int),
                    cats@[c as int] == (kt, category),
                    category_in(pre, kt) is None,
                    keys_unique(docs@),
                    forall|a: int| 0 <= a < kws@.len() ==> spec_lookup_keyword((#[trigger] kws@[a])@) == Some(kt),
                    forall|w: Seq<char>| spec_lookup_keyword(w) == Some(kt) ==> exists|a: int| 0 <= a < kws@.len() && (#[trigger] kws@[a])@ == w,
                    forall|a: int, b: int| 0 <= a < b < kws@.len() ==> (#[trigger] kws@[a])@ != (#[trigger] kws@[b])@,
                    forall|w: Seq<char>| #[trigger] lookup(docs@, w) == (if doc_after_categories(pre, w) is None
                        && exists|a: int| 0 <= a < j && (#[trigger] kws@[a])@ == w {
                        Some(category@ + ": "@ + w)
                    } else {
                        doc_after_categories(pre, w)
                    }),
                decreases kws.len() - j,
            {
                let kw = kws[j];
                if !map_contains(&docs, kw) {
                    let mut d = to_owned_string(category);
                    string_push_str(&mut d, ": ");
                    string_push_str(&mut d, kw);
                    map_insert(&mut docs, to_owned_string(kw), d);
                }
                proof {
                    assert forall|w: Seq<char>| #[trigger] lookup(docs@, w) == (if doc_after_categories(pre, w) is None
                        && exists|a: int| 0 <= a < j + 1 && (#[trigger] kws@[a])@ == w {
                        Some(category@ + ": "@ + w)
                    } else {
                        doc_after_categories(pre, w)
                    }) by {
                        if w == kw@ {
                            assert(kws@[j as int]@ == w);
                        } else {
                            if exists|a: int| 0 <= a < j + 1 && (#[trigger] kws@[a])@ == w {
                                let a = choose|a: int| 0 <= a < j + 1 && (#[trigger] kws@[a])@ == w;
                                assert(a < j);
                            }
                        }
                    }
                }
                j = j + 1;
            }
            proof {
                assert forall|w: Seq<char>| #[trigger] lookup(docs@, w) == doc_after_categories(cats@.take(c + 1), w) by {
                    lemma_category_push(pre, kt, category, w);
                    if spec_lookup_keyword(w) == Some(kt) {
                        let a = choose|a: int| 0 <= a < kws@.len() && (#[trigger] kws@[a])@ == w;
                        assert(kws@[a]@ == w);
                    }
                }
            }
            c = c + 1;
        }
        assert(cats@.take(c as int) =~= category_table());
        let fixed = fixed_docs();
        let mut f: usize = 0;
        assert(fixed_doc_table().take(0) =~= Seq::<(&'static str, &'static str, bool)>::empty());
        while f < fixed.len()
            invariant
                f <= fixed@.len(),
                fixed@ == fixed_doc_table(),
                keys_unique(docs@),
                forall|w: Seq<char>| #[trigger] lookup(docs@, w) == match last_fixed(fixed@.take(f as int), w) {
                    Some(d) => Some(d),
                    None => doc_after_categories(category_table(), w),
                },
            decreases fixed.len() - f,
        {
            let (k, text, is_field) = fixed[f];
            let d = if is_field {
                let mut d = to_owned_string("MaterialInputs field. ");
                string_push_str(&mut d, text);
                d
            } else {
                to_owned_string(text)
            };
            map_insert(&mut docs, to_owned_string(k), d);
            assert(fixed@.take(f + 1).drop_last() =~= fixed@.take(f as int));
            f = f + 1;
        }
        assert(fixed@.take(f as int) =~= fixed_doc_table());
        docs
    }

    /// The hover documentation of a word.
    pub fn get_hover(&self, word: &str) -> (r: Option<String>)
        ensures
            match hover_doc(word@) {
                Some(d) => r is Some && r.unwrap()@ == d,
                None => r is None,
            },
    {
        let docs = Self::docs();
        proof {
            lemma_lookup(docs@, word@);
        }
        let mut i: usize = 0;
        while i < docs.len()
            invariant
                i <= docs@.len(),
                keys_unique(docs@),
                lookup(docs@, word@) == hover_doc(word@),
                lookup(docs@, word@) is Some <==> exists|k: int| 0 <= k < docs@.len() && (#[trigger] docs@[k]).0@ == word@,
                forall|k: int| 0 <= k < docs@.len() && (#[trigger] docs@[k]).0@ == word@ ==> lookup(docs@, word@) == Some(docs@[k].1@),
                forall|k: int| 0 <= k < i ==> (#[trigger] docs@[k]).0@ != word@,
            decreases docs.len() - i,
        {
            if str_eq(docs[i].0.as_str(), word) {
                return Some(docs[i].1.clone());
            }
            i = i + 1;
        }
        None
    }
}

/// The categories are listed for distinct classes.
proof fn lemma_categories_distinct(c: int)
    requires
        0 <= c < category_table().len(),
    ensures
        category_in(category_table().take(c), category_table()[c].0) is None,
{
    let t = category_table();
    assert(forall|a: int, b: int| 0 <= a < b < t.len() ==> (#[trigger] t[a]).0 != (#[trigger] t[b]).0);
    lemma_category_absent(t.take(c), t[c].0);
}

proof fn lemma_category_absent(t: Seq<(KeywordType, &'static str)>, kt: KeywordType)
    requires
        forall|a: int| 0 <= a < t.len() ==> (#[trigger] t[a]).0 != kt,
    ensures
        category_in(t, kt) is None,
    decreases t.len(),
{
    if t.len() > 0 {
        assert forall|a: int| 0 <= a < t.drop_first().len() implies (#[trigger] t.drop_first()[a]).0 != kt by {
            assert(t.drop_first()[a] == t[a + 1]);
        }
        lemma_category_absent(t.drop_first(), kt);
    }
}

/// Adding a category at the end of the list gives its class that category
/// when no earlier entry names the class.
proof fn lemma_category_push(pre: Seq<(KeywordType, &'static str)>, kt: KeywordType, cat: &'static str, w: Seq<char>)
    requires
        category_in(pre, kt) is None,
    ensures
        doc_after_categories(pre.push((kt, cat)), w) == (if doc_after_categories(pre, w) is None && spec_lookup_keyword(w) == Some(kt) {
            Some(cat@ + ": "@ + w)
        } else {
            doc_after_categories(pre, w)
        }),
{
    lemma_category_in_push(pre, kt, cat, spec_lookup_keyword(w));
}

proof fn lemma_category_in_push(pre: Seq<(KeywordType, &'static str)>, kt: KeywordType, cat: &'static str, o: Option<KeywordType>)
    requires
        category_in(pre, kt) is None,
    ensures
        o matches Some(x) ==> category_in(pre.push((kt, cat)), x) == (if category_in(pre, x) is None && x == kt {
            Some(cat@)
        } else {
            category_in(pre, x)
        }),
    decreases pre.len(),
{
    if let Some(x) = o {
        let q = pre.push((kt, cat));
        if pre.len() == 0 {
            assert(q[0] == (kt, cat));
            assert(q.drop_first() =~= Seq::<(KeywordType, &'static str)>::empty());
            assert(category_in(q.drop_first(), x) is None);
        } else {
            assert(q.drop_first() =~= pre.drop_first().push((kt, cat)));
            assert(q[0] == pre[0]);
            if pre[0].0 != x {
                assert(pre[0].0 != kt);
                assert(category_in(pre.drop_first(), kt) is None);
                lemma_category_in_push(pre.drop_first(), kt, cat, o);
            }
        }
    }
}

impl Default for HoverEngine {
    fn default() -> (r: Self) {
        HoverEngine
    }
}


/// A word that some entry of the fixed table names has a fixed entry.
proof fn lemma_last_fixed_some(t: Seq<(&'static str, &'static str, bool)>, w: Seq<char>, i: int)
    requires
        0 <= i < t.len(),
        t[i].0@ == w,
    ensures
        last_fixed(t, w) is Some,
    decreases t.len(),
{
    if t.last().0@ != w {
        assert(i < t.len() - 1);
        assert(t.drop_last()[i] == t[i]);
        lemma_last_fixed_some(t.drop_last(), w, i);
    }
}

/// A property name has a property documentation.
proof fn lemma_last_property_doc_some(t: Seq<PropertyDef>, w: Seq<char>, i: int)
    requires
        0 <= i < t.len(),
        t[i].name@ == w,
    ensures
        last_property_doc(t, w) is Some,
    decreases t.len(),
{
    if t.last().name@ != w {
        assert(i < t.len() - 1);
        assert(t.drop_last()[i] == t[i]);
        lemma_last_property_doc_some(t.drop_last(), w, i);
    }
}

/// No fixed keyword is a material property, and each parameter field of
/// the fixed keywords has a fixed hover entry.
proof fn lemma_fixed_keyword_classes()
    ensures
        forall|j: int| 0 <= j < fixed_keyword_table().len() ==> (#[trigger] fixed_keyword_table()[j]).1 != KeywordType::MaterialProperty,
        forall|j: int| 0 <= j < fixed_keyword_table().len() && (#[trigger] fixed_keyword_table()[j]).1 == KeywordType::ParameterField
            ==> last_fixed(fixed_doc_table(), fixed_keyword_table()[j].0@) is Some,
{
    let t = fixed_keyword_table();
    let d = fixed_doc_table();
    assert(t.len() == 133);
    assert(d.len() == 48);
    assert forall|j: int| 0 <= j < t.len() implies (#[trigger] t[j]).1 != KeywordType::MaterialProperty && (t[j].1 == KeywordType::ParameterField ==> last_fixed(d, t[j].0@) is Some) by {
        if j == 0 { assert(t[0].0 == "type"); assert(d[40].0 == "type"); lemma_last_fixed_some(d, t[0].0@, 40); } else if j == 1 { assert(t[1].0 == "name"); assert(d[39].0 == "name"); lemma_last_fixed_some(d, t[1].0@, 39); } else if j == 2 { assert(t[2].0 == "precision"); assert(d[42].0 == "precision"); lemma_last_fixed_some(d, t[2].0@, 42); } else if j == 3 { assert(t[3].0 == "format"); assert(d[43].0 == "format"); lemma_last_fixed_some(d, t[3].0@, 43); } else if j == 4 { assert(t[4].0 == "filterable"); assert(d[44].0 == "filterable"); lemma_last_fixed_some(d, t[4].0@, 44); } else if j == 5 { assert(t[5].0 == "multisample"); assert(d[45].0 == "multisample"); lemma_last_fixed_some(d, t[5].0@, 45); } else if j == 6 { assert(t[6].0 == "transformName"); assert(d[47].0 == "transformName"); lemma_last_fixed_some(d, t[6].0@, 47); } else if j == 7 { assert(t[7].0 == "stages"); assert(d[46].0 == "stages"); lemma_last_fixed_some(d, t[7].0@, 46); } else if j == 8 { assert(t[8].0 == "default"); assert(d[41].0 == "default"); lemma_last_fixed_some(d, t[8].0@, 41); } else if j == 9 { assert(t[9].1 == KeywordType::ShadingModel); } else if j == 10 { assert(t[10].1 == KeywordType::ShadingModel); } else if j == 11 { assert(t[11].1 == KeywordType::ShadingModel); } else if j == 12 { assert(t[12].1 == KeywordType::ShadingModel); } else if j == 13 { assert(t[13].1 == KeywordType::ShadingModel); } else if j == 14 { assert(t[14].1 == KeywordType::BlendingMode); } else if j == 15 { assert(t[15].1 == KeywordType::BlendingMode); } else if j == 16 { assert(t[16].1 == KeywordType::BlendingMode); } else if j == 17 { assert(t[17].1 == KeywordType::BlendingMode); } else if j == 18 { assert(t[18].1 == KeywordType::BlendingMode); } else if j == 19 { assert(t[19].1 == KeywordType::BlendingMode); } else if j == 20 { assert(t[20].1 == KeywordType::BlendingMode); } else if j == 21 { assert(t[21].1 == KeywordType::BlendingMode); } else if j == 22 { assert(t[22].1 == KeywordType::CullingMode); } else if j == 23 { assert(t[23].1 == KeywordType::CullingMode); } else if j == 24 { assert(t[24].1 == KeywordType::CullingMode); } else if j == 25 { assert(t[25].1 == KeywordType::CullingMode); } else if j == 26 { assert(t[26].1 == KeywordType::VertexDomain); } else if j == 27 { assert(t[27].1 == KeywordType::VertexDomain); } else if j == 28 { assert(t[28].1 == KeywordType::VertexDomain); } else if j == 29 { assert(t[29].1 == KeywordType::VertexDomain); } else if j == 30 { assert(t[30].1 == KeywordType::MaterialDomain); } else if j == 31 { assert(t[31].1 == KeywordType::MaterialDomain); } else if j == 32 { assert(t[32].1 == KeywordType::MaterialDomain); } else if j == 33 { assert(t[33].1 == KeywordType::InterpolationMode); } else if j == 34 { assert(t[34].1 == KeywordType::InterpolationMode); } else if j == 35 { assert(t[35].1 == KeywordType::RefractionMode); } else if j == 36 { assert(t[36].1 == KeywordType::RefractionMode); } else if j == 37 { assert(t[37].1 == KeywordType::RefractionMode); } else if j == 38 { assert(t[38].1 == KeywordType::RefractionType); } else if j == 39 { assert(t[39].1 == KeywordType::RefractionType); } else if j == 40 { assert(t[40].1 == KeywordType::ReflectionMode); } else if j == 41 { assert(t[41].1 == KeywordType::ReflectionMode); } else if j == 42 { assert(t[42].1 == KeywordType::TransparencyMode); } else if j == 43 { assert(t[43].1 == KeywordType::TransparencyMode); } else if j == 44 { assert(t[44].1 == KeywordType::TransparencyMode); } else if j == 45 { assert(t[45].1 == KeywordType::StereoscopicType); } else if j == 46 { assert(t[46].1 == KeywordType::StereoscopicType); } else if j == 47 { assert(t[47].1 == KeywordType::StereoscopicType); } else if j == 48 { assert(t[48].1 == KeywordType::QualityLevel); } else if j == 49 { assert(t[49].1 == KeywordType::QualityLevel); } else if j == 50 { assert(t[50].1 == KeywordType::QualityLevel); } else if j == 51 { assert(t[51].1 == KeywordType::QualityLevel); } else if j == 52 { assert(t[52].1 == KeywordType::SpecularAmbientOcclusionMode); } else if j == 53 { assert(t[53].1 == KeywordType::SpecularAmbientOcclusionMode); } else if j == 54 { assert(t[54].1 == KeywordType::SpecularAmbientOcclusionMode); } else if j == 55 { assert(t[55].1 == KeywordType::PrecisionValue); } else if j == 56 { assert(t[56].1 == KeywordType::PrecisionValue); } else if j == 57 { assert(t[57].1 == KeywordType::PrecisionValue); } else if j == 58 { assert(t[58].1 == KeywordType::PrecisionValue); } else if j == 59 { assert(t[59].1 == KeywordType::SamplerFormat); } else if j == 60 { assert(t[60].1 == KeywordType::SamplerFormat); } else if j == 61 { assert(t[61].1 == KeywordType::SamplerFormat); } else if j == 62 { assert(t[62].1 == KeywordType::SamplerFormat); } else if j == 63 { assert(t[63].1 == KeywordType::BlendFunction); } else if j == 64 { assert(t[64].1 == KeywordType::BlendFunction); } else if j == 65 { assert(t[65].1 == KeywordType::BlendFunction); } else if j == 66 { assert(t[66].1 == KeywordType::BlendFunction); } else if j == 67 { assert(t[67].1 == KeywordType::BlendFunction); } else if j == 68 { assert(t[68].1 == KeywordType::BlendFunction); } else if j == 69 { assert(t[69].1 == KeywordType::BlendFunction); } else if j == 70 { assert(t[70].1 == KeywordType::BlendFunction); } else if j == 71 { assert(t[71].1 == KeywordType::BlendFunction); } else if j == 72 { assert(t[72].1 == KeywordType::BlendFunction); } else if j == 73 { assert(t[73].1 == KeywordType::BlendFunction); } else if j == 74 { assert(t[74].1 == KeywordType::VertexAttribute); } else if j == 75 { assert(t[75].1 == KeywordType::VertexAttribute); } else if j == 76 { assert(t[76].1 == KeywordType::VertexAttribute); } else if j == 77 { assert(t[77].1 == KeywordType::VertexAttribute); } else if j == 78 { assert(t[78].1 == KeywordType::VertexAttribute); } else if j == 79 { assert(t[79].1 == KeywordType::VertexAttribute); } else if j == 80 { assert(t[80].1 == KeywordType::VertexAttribute); } else if j == 81 { assert(t[81].1 == KeywordType::VertexAttribute); } else if j == 82 { assert(t[82].1 == KeywordType::VertexAttribute); } else if j == 83 { assert(t[83].1 == KeywordType::VertexAttribute); } else if j == 84 { assert(t[84].1 == KeywordType::VertexAttribute); } else if j == 85 { assert(t[85].1 == KeywordType::VertexAttribute); } else if j == 86 { assert(t[86].1 == KeywordType::VertexAttribute); } else if j == 87 { assert(t[87].1 == KeywordType::VertexAttribute); } else if j == 88 { assert(t[88].1 == KeywordType::VertexAttribute); } else if j == 89 { assert(t[89].1 == KeywordType::VertexAttribute); } else if j == 90 { assert(t[90].1 == KeywordType::VariantFilterValue); } else if j == 91 { assert(t[91].1 == KeywordType::VariantFilterValue); } else if j == 92 { assert(t[92].1 == KeywordType::VariantFilterValue); } else if j == 93 { assert(t[93].1 == KeywordType::VariantFilterValue); } else if j == 94 { assert(t[94].1 == KeywordType::VariantFilterValue); } else if j == 95 { assert(t[95].1 == KeywordType::VariantFilterValue); } else if j == 96 { assert(t[96].1 == KeywordType::VariantFilterValue); } else if j == 97 { assert(t[97].1 == KeywordType::VariantFilterValue); } else if j == 98 { assert(t[98].1 == KeywordType::ParameterType); } else if j == 99 { assert(t[99].1 == KeywordType::ParameterType); } else if j == 100 { assert(t[100].1 == KeywordType::ParameterType); } else if j == 101 { assert(t[101].1 == KeywordType::ParameterType); } else if j == 102 { assert(t[102].1 == KeywordType::ParameterType); } else if j == 103 { assert(t[103].1 == KeywordType::ParameterType); } else if j == 104 { assert(t[104].1 == KeywordType::ParameterType); } else if j == 105 { assert(t[105].1 == KeywordType::ParameterType); } else if j == 106 { assert(t[106].1 == KeywordType::ParameterType); } else if j == 107 { assert(t[107].1 == KeywordType::ParameterType); } else if j == 108 { assert(t[108].1 == KeywordType::ParameterType); } else if j == 109 { assert(t[109].1 == KeywordType::ParameterType); } else if j == 110 { assert(t[110].1 == KeywordType::ParameterType); } else if j == 111 { assert(t[111].1 == KeywordType::ParameterType); } else if j == 112 { assert(t[112].1 == KeywordType::ParameterType); } else if j == 113 { assert(t[113].1 == KeywordType::ParameterType); } else if j == 114 { assert(t[114].1 == KeywordType::ParameterType); } else if j == 115 { assert(t[115].1 == KeywordType::ParameterType); } else if j == 116 { assert(t[116].1 == KeywordType::ParameterType); } else if j == 117 { assert(t[117].1 == KeywordType::ParameterType); } else if j == 118 { assert(t[118].1 == KeywordType::ParameterType); } else if j == 119 { assert(t[119].1 == KeywordType::ParameterType); } else if j == 120 { assert(t[120].1 == KeywordType::ParameterType); } else if j == 121 { assert(t[121].1 == KeywordType::ParameterType); } else if j == 122 { assert(t[122].1 == KeywordType::ParameterType); } else if j == 123 { assert(t[123].1 == KeywordType::ParameterType); } else if j == 124 { assert(t[124].1 == KeywordType::ParameterType); } else if j == 125 { assert(t[125].1 == KeywordType::BoolLiteral); } else if j == 126 { assert(t[126].1 == KeywordType::BoolLiteral); } else if j == 127 { assert(t[127].1 == KeywordType::NullLiteral); } else if j == 128 { assert(t[128].1 == KeywordType::TopLevelBlock); } else if j == 129 { assert(t[129].1 == KeywordType::TopLevelBlock); } else if j == 130 { assert(t[130].1 == KeywordType::TopLevelBlock); } else if j == 131 { assert(t[131].1 == KeywordType::TopLevelBlock); } else if j == 132 { assert(t[132].1 == KeywordType::TopLevelBlock); }
    }
}

/// Hover covers what the library documents: every keyword of a class other
/// than top-level block, boolean and null (every property name, parameter
/// field, enum value, vertex attribute and parameter type), every property
/// of the table, and the shader names `MaterialInputs`, `prepareMaterial`
/// and `getUV0`.
pub proof fn lemma_hover_coverage()
    ensures
        forall|w: Seq<char>| #[trigger] spec_lookup_keyword(w) matches Some(kt) && kt != KeywordType::TopLevelBlock
            && kt != KeywordType::BoolLiteral && kt != KeywordType::NullLiteral ==> hover_doc(w) is Some,
        forall|i: int| 0 <= i < property_table().len() ==> hover_doc((#[trigger] property_table()[i]).name@) is Some,
        hover_doc("MaterialInputs"@) is Some,
        hover_doc("prepareMaterial"@) is Some,
        hover_doc("getUV0"@) is Some,
{
    let pt = property_table();
    let fx = fixed_keyword_table();
    let d = fixed_doc_table();
    let pr = pt.map_values(|p: PropertyDef| (p.name, KeywordType::MaterialProperty));
    let regs = keyword_registrations();
    assert(regs == pr + fx);
    lemma_fixed_keyword_classes();
    assert(d.len() == 48);
    assert(d[0].0 == "MaterialInputs");
    lemma_last_fixed_some(d, "MaterialInputs"@, 0);
    assert(d[28].0 == "prepareMaterial");
    lemma_last_fixed_some(d, "prepareMaterial"@, 28);
    assert(d[29].0 == "getUV0");
    lemma_last_fixed_some(d, "getUV0"@, 29);
    assert forall|i: int| 0 <= i < pt.len() implies hover_doc((#[trigger] pt[i]).name@) is Some by {
        if last_fixed(d, pt[i].name@) is None {
            lemma_last_property_doc_some(pt, pt[i].name@, i);
        }
    }
    assert forall|w: Seq<char>| #[trigger] spec_lookup_keyword(w) matches Some(kt) && kt != KeywordType::TopLevelBlock
        && kt != KeywordType::BoolLiteral && kt != KeywordType::NullLiteral implies hover_doc(w) is Some by {
        let kt = spec_lookup_keyword(w).unwrap();
        if last_fixed(d, w) is None && last_property_doc(pt, w) is None {
            lemma_last_registration_witness(regs, w);
            let j = choose|j: int| 0 <= j < regs.len() && (#[trigger] regs[j]).0@ == w && Some(regs[j].1) == spec_lookup_keyword(w);
            if kt == KeywordType::MaterialProperty || kt == KeywordType::ParameterField {
                if j < pt.len() {
                    assert(regs[j] == pr[j]);
                    lemma_last_property_doc_some(pt, w, j);
                } else {
                    assert(regs[j] == fx[j - pt.len()]);
                }
            } else {
                reveal_with_fuel(category_in, 20);
                assert(category_in(category_table(), kt) is Some);
            }
        }
    }
}

} // verus!
