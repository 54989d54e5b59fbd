//! Central schema of the Filament material format: material properties,
//! their value types and enumerated values, and the classification of every
//! known keyword.
use vstd::prelude::*;
use crate::text::{chars_eq_str, str_to_chars};

verus! {

/// A material property definition.
#[derive(Debug, Clone, Copy)]
pub struct PropertyDef {
    pub name: &'static str,
    pub value_type: ValueType,
    pub docs: &'static str,
    pub valid_values: Option<&'static [&'static str]>,
}

/// The type of value a property expects.
#[derive(Debug, Clone, Copy, PartialEq, Eq, Structural)]
pub enum ValueType {
    String,
    Number,
    Bool,
    Identifier,
    ArrayOfIdentifiers,
    ArrayOfObjects,
    ArrayOfStrings,
    Object,
}

/// Classification of keywords.
#[derive(Debug, Clone, Copy, PartialEq, Eq, Structural)]
pub enum KeywordType {
    TopLevelBlock,
    MaterialProperty,
    ParameterField,
    ShadingModel,
    BlendingMode,
    CullingMode,
    VertexDomain,
    MaterialDomain,
    InterpolationMode,
    RefractionMode,
    RefractionType,
    ReflectionMode,
    TransparencyMode,
    StereoscopicType,
    QualityLevel,
    SpecularAmbientOcclusionMode,
    PrecisionValue,
    SamplerFormat,
    BlendFunction,
    VertexAttribute,
    VariantFilterValue,
    ParameterType,
    BoolLiteral,
    NullLiteral,
}

/// The material properties, in the order in which completion lists them.
pub open spec fn property_table() -> Seq<PropertyDef> {
    seq![
        PropertyDef {
            name: "name",
            value_type: ValueType::String,
            docs: "Material name identifier. Used to reference the material in code.",
            valid_values: None,
        },
        PropertyDef {
            name: "apiLevel",
            value_type: ValueType::Number,
            docs: "API level: 1 (stable) or 2 (unstable).",
            valid_values: None,
        },
        PropertyDef {
            name: "featureLevel",
            value_type: ValueType::Number,
            docs: "Feature level: 1, 2, or 3.",
            valid_values: None,
        },
        PropertyDef {
            name: "shadingModel",
            value_type: ValueType::Identifier,
            docs: "Shading model defines how the material interacts with light.",
            valid_values: Some(&["lit", "unlit", "subsurface", "cloth", "specularGlossiness"]),
        },
        PropertyDef {
            name: "domain",
            value_type: ValueType::Identifier,
            docs: "Material domain: surface, postprocess, or compute.",
            valid_values: Some(&["surface", "postprocess", "compute"]),
        },
        PropertyDef {
            name: "interpolation",
            value_type: ValueType::Identifier,
            docs: "Interpolation mode for varyings: smooth or flat.",
            valid_values: Some(&["smooth", "flat"]),
        },
        PropertyDef {
            name: "quality",
            value_type: ValueType::Identifier,
            docs: "Shader quality level: default, low, normal, or high.",
            valid_values: Some(&["default", "low", "normal", "high"]),
        },
        PropertyDef {
            name: "parameters",
            value_type: ValueType::ArrayOfObjects,
            docs: "Material parameters that can be set at runtime.",
            valid_values: None,
        },
        PropertyDef {
            name: "constants",
            value_type: ValueType::ArrayOfObjects,
            docs: "Compile-time constants for the material.",
            valid_values: None,
        },
        PropertyDef {
            name: "variables",
            value_type: ValueType::ArrayOfStrings,
            docs: "Vertex-to-fragment varyings.",
            valid_values: None,
        },
        PropertyDef {
            name: "requires",
            value_type: ValueType::ArrayOfIdentifiers,
            docs: "Required vertex attributes.",
            valid_values: None,
        },
        PropertyDef {
            name: "blending",
            value_type: ValueType::Identifier,
            docs: "Blending mode for transparency.",
            valid_values: Some(&["opaque", "transparent", "fade", "masked", "add", "multiply", "screen", "custom"]),
        },
        PropertyDef {
            name: "postLightingBlending",
            value_type: ValueType::Identifier,
            docs: "Blending mode applied after lighting.",
            valid_values: Some(&["opaque", "transparent", "add", "multiply", "screen"]),
        },
        PropertyDef {
            name: "transparency",
            value_type: ValueType::Identifier,
            docs: "Transparency rendering mode.",
            valid_values: Some(&["default", "twoPassesOneSide", "twoPassesTwoSides"]),
        },
        PropertyDef {
            name: "maskThreshold",
            value_type: ValueType::Number,
            docs: "Alpha mask threshold for masked blending. Default 0.4.",
            valid_values: None,
        },
        PropertyDef {
            name: "alphaToCoverage",
            value_type: ValueType::Bool,
            docs: "Enable alpha to coverage. Default false.",
            valid_values: None,
        },
        PropertyDef {
            name: "vertexDomain",
            value_type: ValueType::Identifier,
            docs: "Vertex transformation domain.",
            valid_values: Some(&["object", "world", "view", "device"]),
        },
        PropertyDef {
            name: "vertexDomainDeviceJittered",
            value_type: ValueType::Bool,
            docs: "Apply TAA jitter in device domain. Default false.",
            valid_values: None,
        },
        PropertyDef {
            name: "culling",
            value_type: ValueType::Identifier,
            docs: "Face culling mode.",
            valid_values: Some(&["back", "front", "frontAndBack", "none"]),
        },
        PropertyDef {
            name: "colorWrite",
            value_type: ValueType::Bool,
            docs: "Enable color buffer writing. Default true.",
            valid_values: None,
        },
        PropertyDef {
            name: "depthWrite",
            value_type: ValueType::Bool,
            docs: "Enable depth buffer writing. Default true for opaque, false for transparent.",
            valid_values: None,
        },
        PropertyDef {
            name: "depthCulling",
            value_type: ValueType::Bool,
            docs: "Enable depth testing. Default true.",
            valid_values: None,
        },
        PropertyDef {
            name: "doubleSided",
            value_type: ValueType::Bool,
            docs: "Render both sides of the geometry. Default false.",
            valid_values: None,
        },
        PropertyDef {
            name: "instanced",
            value_type: ValueType::Bool,
            docs: "Enable instanced rendering. Default false.",
            valid_values: None,
        },
        PropertyDef {
            name: "refractionMode",
            value_type: ValueType::Identifier,
            docs: "Refraction technique.",
            valid_values: Some(&["none", "cubemap", "screenspace"]),
        },
        PropertyDef {
            name: "refractionType",
            value_type: ValueType::Identifier,
            docs: "Refraction volume type.",
            valid_values: Some(&["solid", "thin"]),
        },
        PropertyDef {
            name: "reflections",
            value_type: ValueType::Identifier,
            docs: "Reflection technique.",
            valid_values: Some(&["default", "screenspace"]),
        },
        PropertyDef {
            name: "shadowMultiplier",
            value_type: ValueType::Bool,
            docs: "Multiply shadow attenuation into color. Unlit only. Default false.",
            valid_values: None,
        },
        PropertyDef {
            name: "transparentShadow",
            value_type: ValueType::Bool,
            docs: "Enable transparent shadow rendering. Default false.",
            valid_values: None,
        },
        PropertyDef {
            name: "clearCoatIorChange",
            value_type: ValueType::Bool,
            docs: "Adjust IOR for clear coat layer. Default true.",
            valid_values: None,
        },
        PropertyDef {
            name: "multiBounceAmbientOcclusion",
            value_type: ValueType::Bool,
            docs: "Enable multi-bounce ambient occlusion. Default false on mobile, true on desktop.",
            valid_values: None,
        },
        PropertyDef {
            name: "specularAmbientOcclusion",
            value_type: ValueType::Identifier,
            docs: "Specular ambient occlusion mode.",
            valid_values: Some(&["none", "simple", "bentNormals"]),
        },
        PropertyDef {
            name: "specularAntiAliasing",
            value_type: ValueType::Bool,
            docs: "Enable specular anti-aliasing. Default false.",
            valid_values: None,
        },
        PropertyDef {
            name: "specularAntiAliasingVariance",
            value_type: ValueType::Number,
            docs: "Specular anti-aliasing variance. Default 0.15.",
            valid_values: None,
        },
        PropertyDef {
            name: "specularAntiAliasingThreshold",
            value_type: ValueType::Number,
            docs: "Specular anti-aliasing threshold. Default 0.2.",
            valid_values: None,
        },
        PropertyDef {
            name: "customSurfaceShading",
            value_type: ValueType::Bool,
            docs: "Use custom surface shading. Lit only. Default false.",
            valid_values: None,
        },
        PropertyDef {
            name: "flipUV",
            value_type: ValueType::Bool,
            docs: "Flip UV coordinates vertically. Default true.",
            valid_values: None,
        },
        PropertyDef {
            name: "linearFog",
            value_type: ValueType::Bool,
            docs: "Enable linear fog. Default false.",
            valid_values: None,
        },
        PropertyDef {
            name: "shadowFarAttenuation",
            value_type: ValueType::Bool,
            docs: "Enable shadow far plane attenuation. Default true.",
            valid_values: None,
        },
        PropertyDef {
            name: "framebufferFetch",
            value_type: ValueType::Bool,
            docs: "Enable framebuffer fetch. Default false.",
            valid_values: None,
        },
        PropertyDef {
            name: "legacyMorphing",
            value_type: ValueType::Bool,
            docs: "Use legacy morphing. Default false.",
            valid_values: None,
        },
        PropertyDef {
            name: "useDefaultDepthVariant",
            value_type: ValueType::Bool,
            docs: "Use default depth prepass variant. Default false.",
            valid_values: None,
        },
        PropertyDef {
            name: "variantFilter",
            value_type: ValueType::ArrayOfIdentifiers,
            docs: "Shader variants to exclude.",
            valid_values: None,
        },
        PropertyDef {
            name: "groupSize",
            value_type: ValueType::ArrayOfIdentifiers,
            docs: "Compute dispatch size [x, y, z]. Compute domain only.",
            valid_values: None,
        },
        PropertyDef {
            name: "stereoscopicType",
            value_type: ValueType::Identifier,
            docs: "Stereoscopic rendering mode.",
            valid_values: Some(&["none", "instanced", "multiview"]),
        },
        PropertyDef {
            name: "stereoscopicEyeCount",
            value_type: ValueType::Number,
            docs: "Number of eyes for stereoscopic rendering.",
            valid_values: None,
        },
    ]
}

/// All material property definitions, in table order.
pub fn get_properties() -> (r: Vec<PropertyDef>)
    ensures
        r@ == property_table(),
{
    let v: Vec<PropertyDef> = vec![
        PropertyDef {
            name: "name",
            value_type: ValueType::String,
            docs: "Material name identifier. Used to reference the material in code.",
            valid_values: None,
        },
        PropertyDef {
            name: "apiLevel",
            value_type: ValueType::Number,
            docs: "API level: 1 (stable) or 2 (unstable).",
            valid_values: None,
        },
        PropertyDef {
            name: "featureLevel",
            value_type: ValueType::Number,
            docs: "Feature level: 1, 2, or 3.",
            valid_values: None,
        },
        PropertyDef {
            name: "shadingModel",
            value_type: ValueType::Identifier,
            docs: "Shading model defines how the material interacts with light.",
            valid_values: Some(&["lit", "unlit", "subsurface", "cloth", "specularGlossiness"]),
        },
        PropertyDef {
            name: "domain",
            value_type: ValueType::Identifier,
            docs: "Material domain: surface, postprocess, or compute.",
            valid_values: Some(&["surface", "postprocess", "compute"]),
        },
        PropertyDef {
            name: "interpolation",
            value_type: ValueType::Identifier,
            docs: "Interpolation mode for varyings: smooth or flat.",
            valid_values: Some(&["smooth", "flat"]),
        },
        PropertyDef {
            name: "quality",
            value_type: ValueType::Identifier,
            docs: "Shader quality level: default, low, normal, or high.",
            valid_values: Some(&["default", "low", "normal", "high"]),
        },
        PropertyDef {
            name: "parameters",
            value_type: ValueType::ArrayOfObjects,
            docs: "Material parameters that can be set at runtime.",
            valid_values: None,
        },
        PropertyDef {
            name: "constants",
            value_type: ValueType::ArrayOfObjects,
            docs: "Compile-time constants for the material.",
            valid_values: None,
        },
        PropertyDef {
            name: "variables",
            value_type: ValueType::ArrayOfStrings,
            docs: "Vertex-to-fragment varyings.",
            valid_values: None,
        },
        PropertyDef {
            name: "requires",
            value_type: ValueType::ArrayOfIdentifiers,
            docs: "Required vertex attributes.",
            valid_values: None,
        },
        PropertyDef {
            name: "blending",
            value_type: ValueType::Identifier,
            docs: "Blending mode for transparency.",
            valid_values: Some(&["opaque", "transparent", "fade", "masked", "add", "multiply", "screen", "custom"]),
        },
        PropertyDef {
            name: "postLightingBlending",
            value_type: ValueType::Identifier,
            docs: "Blending mode applied after lighting.",
            valid_values: Some(&["opaque", "transparent", "add", "multiply", "screen"]),
        },
        PropertyDef {
            name: "transparency",
            value_type: ValueType::Identifier,
            docs: "Transparency rendering mode.",
            valid_values: Some(&["default", "twoPassesOneSide", "twoPassesTwoSides"]),
        },
        PropertyDef {
            name: "maskThreshold",
            value_type: ValueType::Number,
            docs: "Alpha mask threshold for masked blending. Default 0.4.",
            valid_values: None,
        },
        PropertyDef {
            name: "alphaToCoverage",
            value_type: ValueType::Bool,
            docs: "Enable alpha to coverage. Default false.",
            valid_values: None,
        },
        PropertyDef {
            name: "vertexDomain",
            value_type: ValueType::Identifier,
            docs: "Vertex transformation domain.",
            valid_values: Some(&["object", "world", "view", "device"]),
        },
        PropertyDef {
            name: "vertexDomainDeviceJittered",
            value_type: ValueType::Bool,
            docs: "Apply TAA jitter in device domain. Default false.",
            valid_values: None,
        },
        PropertyDef {
            name: "culling",
            value_type: ValueType::Identifier,
            docs: "Face culling mode.",
            valid_values: Some(&["back", "front", "frontAndBack", "none"]),
        },
        PropertyDef {
            name: "colorWrite",
            value_type: ValueType::Bool,
            docs: "Enable color buffer writing. Default true.",
            valid_values: None,
        },
        PropertyDef {
            name: "depthWrite",
            value_type: ValueType::Bool,
            docs: "Enable depth buffer writing. Default true for opaque, false for transparent.",
            valid_values: None,
        },
        PropertyDef {
            name: "depthCulling",
            value_type: ValueType::Bool,
            docs: "Enable depth testing. Default true.",
            valid_values: None,
        },
        PropertyDef {
            name: "doubleSided",
            value_type: ValueType::Bool,
            docs: "Render both sides of the geometry. Default false.",
            valid_values: None,
        },
        PropertyDef {
            name: "instanced",
            value_type: ValueType::Bool,
            docs: "Enable instanced rendering. Default false.",
            valid_values: None,
        },
        PropertyDef {
            name: "refractionMode",
            value_type: ValueType::Identifier,
            docs: "Refraction technique.",
            valid_values: Some(&["none", "cubemap", "screenspace"]),
        },
        PropertyDef {
            name: "refractionType",
            value_type: ValueType::Identifier,
            docs: "Refraction volume type.",
            valid_values: Some(&["solid", "thin"]),
        },
        PropertyDef {
            name: "reflections",
            value_type: ValueType::Identifier,
            docs: "Reflection technique.",
            valid_values: Some(&["default", "screenspace"]),
        },
        PropertyDef {
            name: "shadowMultiplier",
            value_type: ValueType::Bool,
            docs: "Multiply shadow attenuation into color. Unlit only. Default false.",
            valid_values: None,
        },
        PropertyDef {
            name: "transparentShadow",
            value_type: ValueType::Bool,
            docs: "Enable transparent shadow rendering. Default false.",
            valid_values: None,
        },
        PropertyDef {
            name: "clearCoatIorChange",
            value_type: ValueType::Bool,
            docs: "Adjust IOR for clear coat layer. Default true.",
            valid_values: None,
        },
        PropertyDef {
            name: "multiBounceAmbientOcclusion",
            value_type: ValueType::Bool,
            docs: "Enable multi-bounce ambient occlusion. Default false on mobile, true on desktop.",
            valid_values: None,
        },
        PropertyDef {
            name: "specularAmbientOcclusion",
            value_type: ValueType::Identifier,
            docs: "Specular ambient occlusion mode.",
            valid_values: Some(&["none", "simple", "bentNormals"]),
        },
        PropertyDef {
            name: "specularAntiAliasing",
            value_type: ValueType::Bool,
            docs: "Enable specular anti-aliasing. Default false.",
            valid_values: None,
        },
        PropertyDef {
            name: "specularAntiAliasingVariance",
            value_type: ValueType::Number,
            docs: "Specular anti-aliasing variance. Default 0.15.",
            valid_values: None,
        },
        PropertyDef {
            name: "specularAntiAliasingThreshold",
            value_type: ValueType::Number,
            docs: "Specular anti-aliasing threshold. Default 0.2.",
            valid_values: None,
        },
        PropertyDef {
            name: "customSurfaceShading",
            value_type: ValueType::Bool,
            docs: "Use custom surface shading. Lit only. Default false.",
            valid_values: None,
        },
        PropertyDef {
            name: "flipUV",
            value_type: ValueType::Bool,
            docs: "Flip UV coordinates vertically. Default true.",
            valid_values: None,
        },
        PropertyDef {
            name: "linearFog",
            value_type: ValueType::Bool,
            docs: "Enable linear fog. Default false.",
            valid_values: None,
        },
        PropertyDef {
            name: "shadowFarAttenuation",
            value_type: ValueType::Bool,
            docs: "Enable shadow far plane attenuation. Default true.",
            valid_values: None,
        },
        PropertyDef {
            name: "framebufferFetch",
            value_type: ValueType::Bool,
            docs: "Enable framebuffer fetch. Default false.",
            valid_values: None,
        },
        PropertyDef {
            name: "legacyMorphing",
            value_type: ValueType::Bool,
            docs: "Use legacy morphing. Default false.",
            valid_values: None,
        },
        PropertyDef {
            name: "useDefaultDepthVariant",
            value_type: ValueType::Bool,
            docs: "Use default depth prepass variant. Default false.",
            valid_values: None,
        },
        PropertyDef {
            name: "variantFilter",
            value_type: ValueType::ArrayOfIdentifiers,
            docs: "Shader variants to exclude.",
            valid_values: None,
        },
        PropertyDef {
            name: "groupSize",
            value_type: ValueType::ArrayOfIdentifiers,
            docs: "Compute dispatch size [x, y, z]. Compute domain only.",
            valid_values: None,
        },
        PropertyDef {
            name: "stereoscopicType",
            value_type: ValueType::Identifier,
            docs: "Stereoscopic rendering mode.",
            valid_values: Some(&["none", "instanced", "multiview"]),
        },
        PropertyDef {
            name: "stereoscopicEyeCount",
            value_type: ValueType::Number,
            docs: "Number of eyes for stereoscopic rendering.",
            valid_values: None,
        },
    ];
    v
}

/// The keywords that follow the property names, each with its class, in the
/// order in which they are registered (a later entry overrides an earlier one).
pub open spec fn fixed_keyword_table() -> Seq<(&'static str, KeywordType)> {
    seq![
        ("type", KeywordType::ParameterField),
        ("name", KeywordType::ParameterField),
        ("precision", KeywordType::ParameterField),
        ("format", KeywordType::ParameterField),
        ("filterable", KeywordType::ParameterField),
        ("multisample", KeywordType::ParameterField),
        ("transformName", KeywordType::ParameterField),
        ("stages", KeywordType::ParameterField),
        ("default", KeywordType::ParameterField),
        ("lit", KeywordType::ShadingModel),
        ("unlit", KeywordType::ShadingModel),
        ("subsurface", KeywordType::ShadingModel),
        ("cloth", KeywordType::ShadingModel),
        ("specularGlossiness", KeywordType::ShadingModel),
        ("opaque", KeywordType::BlendingMode),
        ("transparent", KeywordType::BlendingMode),
        ("fade", KeywordType::BlendingMode),
        ("masked", KeywordType::BlendingMode),
        ("add", KeywordType::BlendingMode),
        ("multiply", KeywordType::BlendingMode),
        ("screen", KeywordType::BlendingMode),
        ("custom", KeywordType::BlendingMode),
        ("back", KeywordType::CullingMode),
        ("front", KeywordType::CullingMode),
        ("frontAndBack", KeywordType::CullingMode),
        ("none", KeywordType::CullingMode),
        ("object", KeywordType::VertexDomain),
        ("world", KeywordType::VertexDomain),
        ("view", KeywordType::VertexDomain),
        ("device", KeywordType::VertexDomain),
        ("surface", KeywordType::MaterialDomain),
        ("postprocess", KeywordType::MaterialDomain),
        ("compute", KeywordType::MaterialDomain),
        ("smooth", KeywordType::InterpolationMode),
        ("flat", KeywordType::InterpolationMode),
        ("none", KeywordType::RefractionMode),
        ("cubemap", KeywordType::RefractionMode),
        ("screenspace", KeywordType::RefractionMode),
        ("solid", KeywordType::RefractionType),
        ("thin", KeywordType::RefractionType),
        ("default", KeywordType::ReflectionMode),
        ("screenspace", KeywordType::ReflectionMode),
        ("default", KeywordType::TransparencyMode),
        ("twoPassesOneSide", KeywordType::TransparencyMode),
        ("twoPassesTwoSides", KeywordType::TransparencyMode),
        ("none", KeywordType::StereoscopicType),
        ("instanced", KeywordType::StereoscopicType),
        ("multiview", KeywordType::StereoscopicType),
        ("default", KeywordType::QualityLevel),
        ("low", KeywordType::QualityLevel),
        ("normal", KeywordType::QualityLevel),
        ("high", KeywordType::QualityLevel),
        ("none", KeywordType::SpecularAmbientOcclusionMode),
        ("simple", KeywordType::SpecularAmbientOcclusionMode),
        ("bentNormals", KeywordType::SpecularAmbientOcclusionMode),
        ("default", KeywordType::PrecisionValue),
        ("low", KeywordType::PrecisionValue),
        ("medium", KeywordType::PrecisionValue),
        ("high", KeywordType::PrecisionValue),
        ("float", KeywordType::SamplerFormat),
        ("int", KeywordType::SamplerFormat),
        ("uint", KeywordType::SamplerFormat),
        ("shadow", KeywordType::SamplerFormat),
        ("zero", KeywordType::BlendFunction),
        ("one", KeywordType::BlendFunction),
        ("srcColor", KeywordType::BlendFunction),
        ("oneMinusSrcColor", KeywordType::BlendFunction),
        ("dstColor", KeywordType::BlendFunction),
        ("oneMinusDstColor", KeywordType::BlendFunction),
        ("srcAlpha", KeywordType::BlendFunction),
        ("oneMinusSrcAlpha", KeywordType::BlendFunction),
        ("dstAlpha", KeywordType::BlendFunction),
        ("oneMinusDstAlpha", KeywordType::BlendFunction),
        ("srcAlphaSaturate", KeywordType::BlendFunction),
        ("position", KeywordType::VertexAttribute),
        ("normal", KeywordType::VertexAttribute),
        ("uv0", KeywordType::VertexAttribute),
        ("uv1", KeywordType::VertexAttribute),
        ("color", KeywordType::VertexAttribute),
        ("tangents", KeywordType::VertexAttribute),
        ("custom0", KeywordType::VertexAttribute),
        ("custom1", KeywordType::VertexAttribute),
        ("custom2", KeywordType::VertexAttribute),
        ("custom3", KeywordType::VertexAttribute),
        ("custom4", KeywordType::VertexAttribute),
        ("custom5", KeywordType::VertexAttribute),
        ("custom6", KeywordType::VertexAttribute),
        ("custom7", KeywordType::VertexAttribute),
        ("boneIndices", KeywordType::VertexAttribute),
        ("boneWeights", KeywordType::VertexAttribute),
        ("directionalLighting", KeywordType::VariantFilterValue),
        ("dynamicLighting", KeywordType::VariantFilterValue),
        ("shadowReceiver", KeywordType::VariantFilterValue),
        ("skinning", KeywordType::VariantFilterValue),
        ("fog", KeywordType::VariantFilterValue),
        ("vsm", KeywordType::VariantFilterValue),
        ("ssr", KeywordType::VariantFilterValue),
        ("stereo", KeywordType::VariantFilterValue),
        ("bool", KeywordType::ParameterType),
        ("bool2", KeywordType::ParameterType),
        ("bool3", KeywordType::ParameterType),
        ("bool4", KeywordType::ParameterType),
        ("int", KeywordType::ParameterType),
        ("int2", KeywordType::ParameterType),
        ("int3", KeywordType::ParameterType),
        ("int4", KeywordType::ParameterType),
        ("uint", KeywordType::ParameterType),
        ("uint2", KeywordType::ParameterType),
        ("uint3", KeywordType::ParameterType),
        ("uint4", KeywordType::ParameterType),
        ("float", KeywordType::ParameterType),
        ("float2", KeywordType::ParameterType),
        ("float3", KeywordType::ParameterType),
        ("float4", KeywordType::ParameterType),
        ("mat3", KeywordType::ParameterType),
        ("mat4", KeywordType::ParameterType),
        ("float3x3", KeywordType::ParameterType),
        ("float4x4", KeywordType::ParameterType),
        ("sampler2d", KeywordType::ParameterType),
        ("sampler2dArray", KeywordType::ParameterType),
        ("sampler3d", KeywordType::ParameterType),
        ("samplerCubemap", KeywordType::ParameterType),
        ("samplerExternal", KeywordType::ParameterType),
        ("samplerCubemapArray", KeywordType::ParameterType),
        ("subpassInput", KeywordType::ParameterType),
        ("true", KeywordType::BoolLiteral),
        ("false", KeywordType::BoolLiteral),
        ("null", KeywordType::NullLiteral),
        ("material", KeywordType::TopLevelBlock),
        ("vertex", KeywordType::TopLevelBlock),
        ("fragment", KeywordType::TopLevelBlock),
        ("compute", KeywordType::TopLevelBlock),
        ("tool", KeywordType::TopLevelBlock),
    ]
}

fn fixed_keywords() -> (r: Vec<(&'static str, KeywordType)>)
    ensures
        r@ == fixed_keyword_table(),
{
    let v: Vec<(&'static str, KeywordType)> = vec![
        ("type", KeywordType::ParameterField),
        ("name", KeywordType::ParameterField),
        ("precision", KeywordType::ParameterField),
        ("format", KeywordType::ParameterField),
        ("filterable", KeywordType::ParameterField),
        ("multisample", KeywordType::ParameterField),
        ("transformName", KeywordType::ParameterField),
        ("stages", KeywordType::ParameterField),
        ("default", KeywordType::ParameterField),
        ("lit", KeywordType::ShadingModel),
        ("unlit", KeywordType::ShadingModel),
        ("subsurface", KeywordType::ShadingModel),
        ("cloth", KeywordType::ShadingModel),
        ("specularGlossiness", KeywordType::ShadingModel),
        ("opaque", KeywordType::BlendingMode),
        ("transparent", KeywordType::BlendingMode),
        ("fade", KeywordType::BlendingMode),
        ("masked", KeywordType::BlendingMode),
        ("add", KeywordType::BlendingMode),
        ("multiply", KeywordType::BlendingMode),
        ("screen", KeywordType::BlendingMode),
        ("custom", KeywordType::BlendingMode),
        ("back", KeywordType::CullingMode),
        ("front", KeywordType::CullingMode),
        ("frontAndBack", KeywordType::CullingMode),
        ("none", KeywordType::CullingMode),
        ("object", KeywordType::VertexDomain),
        ("world", KeywordType::VertexDomain),
        ("view", KeywordType::VertexDomain),
        ("device", KeywordType::VertexDomain),
        ("surface", KeywordType::MaterialDomain),
        ("postprocess", KeywordType::MaterialDomain),
        ("compute", KeywordType::MaterialDomain),
        ("smooth", KeywordType::InterpolationMode),
        ("flat", KeywordType::InterpolationMode),
        ("none", KeywordType::RefractionMode),
        ("cubemap", KeywordType::RefractionMode),
        ("screenspace", KeywordType::RefractionMode),
        ("solid", KeywordType::RefractionType),
        ("thin", KeywordType::RefractionType),
        ("default", KeywordType::ReflectionMode),
        ("screenspace", KeywordType::ReflectionMode),
        ("default", KeywordType::TransparencyMode),
        ("twoPassesOneSide", KeywordType::TransparencyMode),
        ("twoPassesTwoSides", KeywordType::TransparencyMode),
        ("none", KeywordType::StereoscopicType),
        ("instanced", KeywordType::StereoscopicType),
        ("multiview", KeywordType::StereoscopicType),
        ("default", KeywordType::QualityLevel),
        ("low", KeywordType::QualityLevel),
        ("normal", KeywordType::QualityLevel),
        ("high", KeywordType::QualityLevel),
        ("none", KeywordType::SpecularAmbientOcclusionMode),
        ("simple", KeywordType::SpecularAmbientOcclusionMode),
        ("bentNormals", KeywordType::SpecularAmbientOcclusionMode),
        ("default", KeywordType::PrecisionValue),
        ("low", KeywordType::PrecisionValue),
        ("medium", KeywordType::PrecisionValue),
        ("high", KeywordType::PrecisionValue),
        ("float", KeywordType::SamplerFormat),
        ("int", KeywordType::SamplerFormat),
        ("uint", KeywordType::SamplerFormat),
        ("shadow", KeywordType::SamplerFormat),
        ("zero", KeywordType::BlendFunction),
        ("one", KeywordType::BlendFunction),
        ("srcColor", KeywordType::BlendFunction),
        ("oneMinusSrcColor", KeywordType::BlendFunction),
        ("dstColor", KeywordType::BlendFunction),
        ("oneMinusDstColor", KeywordType::BlendFunction),
        ("srcAlpha", KeywordType::BlendFunction),
        ("oneMinusSrcAlpha", KeywordType::BlendFunction),
        ("dstAlpha", KeywordType::BlendFunction),
        ("oneMinusDstAlpha", KeywordType::BlendFunction),
        ("srcAlphaSaturate", KeywordType::BlendFunction),
        ("position", KeywordType::VertexAttribute),
        ("normal", KeywordType::VertexAttribute),
        ("uv0", KeywordType::VertexAttribute),
        ("uv1", KeywordType::VertexAttribute),
        ("color", KeywordType::VertexAttribute),
        ("tangents", KeywordType::VertexAttribute),
        ("custom0", KeywordType::VertexAttribute),
        ("custom1", KeywordType::VertexAttribute),
        ("custom2", KeywordType::VertexAttribute),
        ("custom3", KeywordType::VertexAttribute),
        ("custom4", KeywordType::VertexAttribute),
        ("custom5", KeywordType::VertexAttribute),
        ("custom6", KeywordType::VertexAttribute),
        ("custom7", KeywordType::VertexAttribute),
        ("boneIndices", KeywordType::VertexAttribute),
        ("boneWeights", KeywordType::VertexAttribute),
        ("directionalLighting", KeywordType::VariantFilterValue),
        ("dynamicLighting", KeywordType::VariantFilterValue),
        ("shadowReceiver", KeywordType::VariantFilterValue),
        ("skinning", KeywordType::VariantFilterValue),
        ("fog", KeywordType::VariantFilterValue),
        ("vsm", KeywordType::VariantFilterValue),
        ("ssr", KeywordType::VariantFilterValue),
        ("stereo", KeywordType::VariantFilterValue),
        ("bool", KeywordType::ParameterType),
        ("bool2", KeywordType::ParameterType),
        ("bool3", KeywordType::ParameterType),
        ("bool4", KeywordType::ParameterType),
        ("int", KeywordType::ParameterType),
        ("int2", KeywordType::ParameterType),
        ("int3", KeywordType::ParameterType),
        ("int4", KeywordType::ParameterType),
        ("uint", KeywordType::ParameterType),
        ("uint2", KeywordType::ParameterType),
        ("uint3", KeywordType::ParameterType),
        ("uint4", KeywordType::ParameterType),
        ("float", KeywordType::ParameterType),
        ("float2", KeywordType::ParameterType),
        ("float3", KeywordType::ParameterType),
        ("float4", KeywordType::ParameterType),
        ("mat3", KeywordType::ParameterType),
        ("mat4", KeywordType::ParameterType),
        ("float3x3", KeywordType::ParameterType),
        ("float4x4", KeywordType::ParameterType),
        ("sampler2d", KeywordType::ParameterType),
        ("sampler2dArray", KeywordType::ParameterType),
        ("sampler3d", KeywordType::ParameterType),
        ("samplerCubemap", KeywordType::ParameterType),
        ("samplerExternal", KeywordType::ParameterType),
        ("samplerCubemapArray", KeywordType::ParameterType),
        ("subpassInput", KeywordType::ParameterType),
        ("true", KeywordType::BoolLiteral),
        ("false", KeywordType::BoolLiteral),
        ("null", KeywordType::NullLiteral),
        ("material", KeywordType::TopLevelBlock),
        ("vertex", KeywordType::TopLevelBlock),
        ("fragment", KeywordType::TopLevelBlock),
        ("compute", KeywordType::TopLevelBlock),
        ("tool", KeywordType::TopLevelBlock),
    ];
    v
}

/// The first property of `table` with the given name.
pub open spec fn find_property(table: Seq<PropertyDef>, name: Seq<char>) -> Option<PropertyDef>
    decreases table.len(),
{
    if table.len() == 0 {
        None
    } else if table[0].name@ == name {
        Some(table[0])
    } else {
        find_property(table.drop_first(), name)
    }
}

/// The definition of the named property, if it is a known property.
pub open spec fn spec_property(name: Seq<char>) -> Option<PropertyDef> {
    find_property(property_table(), name)
}

/// The enumerated values of the named property.
pub open spec fn spec_enum_values(name: Seq<char>) -> Option<&'static [&'static str]> {
    match spec_property(name) {
        Some(p) => p.valid_values,
        None => None,
    }
}

pub(crate) fn find_property_chars(name: &[char]) -> (r: Option<PropertyDef>)
    ensures
        r == spec_property(name@),
{
    let props = get_properties();
    assert(props@.skip(0) =~= props@);
    let mut i: usize = 0;
    while i < props.len()
        invariant
            props@ == property_table(),
            i <= props.len(),
            spec_property(name@) == find_property(props@.skip(i as int), name@),
        decreases props.len() - i,
    {
        assert(props@.skip(i as int).drop_first() =~= props@.skip(i + 1));
        if chars_eq_str(name, props[i].name) {
            return Some(props[i]);
        }
        i = i + 1;
    }
    None
}

/// The definition of the named property, if there is one.
pub fn find_property_def(name: &str) -> (r: Option<PropertyDef>)
    ensures
        r == spec_property(name@),
{
    let n = str_to_chars(name);
    find_property_chars(n.as_slice())
}

/// The enumerated values of the named property; `None` for an unknown
/// property or one that takes free values.
pub fn get_enum_values(property_name: &str) -> (r: Option<&'static [&'static str]>)
    ensures
        r == spec_enum_values(property_name@),
{
    match find_property_def(property_name) {
        Some(p) => p.valid_values,
        None => None,
    }
}

/// Every keyword registration, in order: first each property name, then the
/// fixed keyword table. A later registration of a word overrides an earlier one.
pub open spec fn keyword_registrations() -> Seq<(&'static str, KeywordType)> {
    property_table().map_values(|p: PropertyDef| (p.name, KeywordType::MaterialProperty))
        + fixed_keyword_table()
}

/// The class that the last registration of `word` in `regs` gives it.
pub open spec fn last_registration(regs: Seq<(&'static str, KeywordType)>, word: Seq<char>) -> Option<KeywordType>
    decreases regs.len(),
{
    if regs.len() == 0 {
        None
    } else if regs.last().0@ == word {
        Some(regs.last().1)
    } else {
        last_registration(regs.drop_last(), word)
    }
}

/// The class of a keyword; `None` for a word that is no keyword.
pub open spec fn spec_lookup_keyword(word: Seq<char>) -> Option<KeywordType> {
    last_registration(keyword_registrations(), word)
}

/// A registration that gives `word` its final class exists in `regs`.
pub proof fn lemma_last_registration_witness(regs: Seq<(&'static str, KeywordType)>, word: Seq<char>)
    requires
        last_registration(regs, word) is Some,
    ensures
        exists|j: int|
            0 <= j < regs.len() && (#[trigger] regs[j]).0@ == word
                && Some(regs[j].1) == last_registration(regs, word),
    decreases regs.len(),
{
    if regs.last().0@ == word {
        assert(regs[regs.len() - 1].0@ == word);
    } else {
        lemma_last_registration_witness(regs.drop_last(), word);
        let j = choose|j: int|
            0 <= j < regs.drop_last().len() && (#[trigger] regs.drop_last()[j]).0@ == word
                && Some(regs.drop_last()[j].1) == last_registration(regs.drop_last(), word);
        assert(regs[j] == regs.drop_last()[j]);
    }
}

/// Every registration of a word is in the registration list.
pub proof fn lemma_registered_is_keyword(regs: Seq<(&'static str, KeywordType)>, j: int)
    requires
        0 <= j < regs.len(),
    ensures
        last_registration(regs, regs[j].0@) is Some,
    decreases regs.len(),
{
    if j < regs.len() - 1 && regs.last().0@ != regs[j].0@ {
        lemma_registered_is_keyword(regs.drop_last(), j);
        assert(regs.drop_last()[j] == regs[j]);
    }
}

/// The full registration list.
pub fn keyword_registration_list() -> (r: Vec<(&'static str, KeywordType)>)
    ensures
        r@ == keyword_registrations(),
{
    let props = get_properties();
    let mut v: Vec<(&'static str, KeywordType)> = Vec::new();
    let mut i: usize = 0;
    while i < props.len()
        invariant
            props@ == property_table(),
            i <= props.len(),
            v@ == props@.take(i as int).map_values(|p: PropertyDef| (p.name, KeywordType::MaterialProperty)),
        decreases props.len() - i,
    {
        v.push((props[i].name, KeywordType::MaterialProperty));
        assert(props@.take(i + 1).drop_last() =~= props@.take(i as int));
        assert(v@ =~= props@.take(i + 1).map_values(|p: PropertyDef| (p.name, KeywordType::MaterialProperty)));
        i = i + 1;
    }
    assert(props@.take(props.len() as int) =~= props@);
    let fixed = fixed_keywords();
    let ghost start = v@;
    let mut k: usize = 0;
    while k < fixed.len()
        invariant
            k <= fixed.len(),
            fixed@ == fixed_keyword_table(),
            v@ == start + fixed@.take(k as int),
        decreases fixed.len() - k,
    {
        v.push(fixed[k]);
        assert(fixed@.take(k + 1) =~= fixed@.take(k as int).push(fixed@[k as int]));
        k = k + 1;
    }
    assert(fixed@.take(fixed.len() as int) =~= fixed@);
    v
}

pub(crate) fn lookup_keyword_chars(word: &[char]) -> (r: Option<KeywordType>)
    ensures
        r == spec_lookup_keyword(word@),
{
    let regs = keyword_registration_list();
    assert(regs@.take(regs@.len() as int) =~= regs@);
    let mut i: usize = regs.len();
    while i > 0
        invariant
            regs@ == keyword_registrations(),
            i <= regs.len(),
            spec_lookup_keyword(word@) == last_registration(regs@.take(i as int), word@),
        decreases i,
    {
        assert(regs@.take(i as int).drop_last() =~= regs@.take(i - 1));
        if chars_eq_str(word, regs[i - 1].0) {
            return Some(regs[i - 1].1);
        }
        i = i - 1;
    }
    None
}

/// Look up the class of a keyword.
pub fn lookup_keyword(ident: &str) -> (r: Option<KeywordType>)
    ensures
        r == spec_lookup_keyword(ident@),
{
    let w = str_to_chars(ident);
    lookup_keyword_chars(w.as_slice())
}

/// Whether a word is a known keyword.
pub fn is_keyword(ident: &str) -> (r: bool)
    ensures
        r == spec_lookup_keyword(ident@) is Some,
{
    lookup_keyword(ident).is_some()
}

fn contains_word(list: &Vec<&'static str>, word: &str) -> (r: bool)
    ensures
        r == exists|i: int| 0 <= i < list@.len() && (#[trigger] list@[i])@ == word@,
{
    let mut i: usize = 0;
    while i < list.len()
        invariant
            i <= list.len(),
            forall|j: int| 0 <= j < i ==> (#[trigger] list@[j])@ != word@,
        decreases list.len() - i,
    {
        if crate::text::str_eq(list[i], word) {
            return true;
        }
        i = i + 1;
    }
    false
}

/// The words whose class is `keyword_type`, each once.
pub fn get_keywords_by_type(keyword_type: KeywordType) -> (r: Vec<&'static str>)
    ensures
        forall|i: int| 0 <= i < r@.len() ==> spec_lookup_keyword((#[trigger] r@[i])@) == Some(keyword_type),
        forall|w: Seq<char>| spec_lookup_keyword(w) == Some(keyword_type)
            ==> exists|i: int| 0 <= i < r@.len() && (#[trigger] r@[i])@ == w,
        forall|i: int, j: int| 0 <= i < j < r@.len() ==> (#[trigger] r@[i])@ != (#[trigger] r@[j])@,
{
    let regs = keyword_registration_list();
    let mut r: Vec<&'static str> = Vec::new();
    let mut i: usize = 0;
    while i < regs.len()
        invariant
            regs@ == keyword_registrations(),
            i <= regs.len(),
            forall|k: int| 0 <= k < r@.len() ==> spec_lookup_keyword((#[trigger] r@[k])@) == Some(keyword_type),
            forall|a: int, b: int| 0 <= a < b < r@.len() ==> (#[trigger] r@[a])@ != (#[trigger] r@[b])@,
            forall|j: int| 0 <= j < i && spec_lookup_keyword((#[trigger] regs@[j]).0@) == Some(keyword_type)
                ==> exists|k: int| 0 <= k < r@.len() && (#[trigger] r@[k])@ == regs@[j].0@,
        decreases regs.len() - i,
    {
        let word = regs[i].0;
        let w = str_to_chars(word);
        let t = lookup_keyword_chars(w.as_slice());
        if t == Some(keyword_type) && !contains_word(&r, word) {
            let ghost old_r = r@;
            r.push(word);
            assert forall|j: int| 0 <= j < i + 1 && spec_lookup_keyword((#[trigger] regs@[j]).0@) == Some(keyword_type)
                implies exists|k: int| 0 <= k < r@.len() && (#[trigger] r@[k])@ == regs@[j].0@ by {
                if j == i {
                    assert(r@[r@.len() - 1]@ == regs@[j].0@);
                } else {
                    let k = choose|k: int| 0 <= k < old_r.len() && (#[trigger] old_r[k])@ == regs@[j].0@;
                    assert(r@[k] == old_r[k]);
                }
            }
        }
        i = i + 1;
    }
    assert forall|w: Seq<char>| spec_lookup_keyword(w) == Some(keyword_type)
        implies exists|i: int| 0 <= i < r@.len() && (#[trigger] r@[i])@ == w by {
        lemma_last_registration_witness(regs@, w);
        let j = choose|j: int|
            0 <= j < regs@.len() && (#[trigger] regs@[j]).0@ == w
                && Some(regs@[j].1) == last_registration(regs@, w);
        assert(spec_lookup_keyword(regs@[j].0@) == Some(keyword_type));
    }
    r
}

/// The keyword map: every keyword once, with its final class.
pub fn get_keyword_map() -> (r: Vec<(&'static str, KeywordType)>)
    ensures
        forall|i: int| 0 <= i < r@.len() ==> spec_lookup_keyword((#[trigger] r@[i]).0@) == Some(r@[i].1),
        forall|w: Seq<char>| spec_lookup_keyword(w) is Some
            ==> exists|i: int| 0 <= i < r@.len() && (#[trigger] r@[i]).0@ == w,
        forall|i: int, j: int| 0 <= i < j < r@.len() ==> (#[trigger] r@[i]).0@ != (#[trigger] r@[j]).0@,
{
    let regs = keyword_registration_list();
    let mut r: Vec<(&'static str, KeywordType)> = Vec::new();
    let mut words: Vec<&'static str> = Vec::new();
    let mut i: usize = 0;
    while i < regs.len()
        invariant
            regs@ == keyword_registrations(),
            i <= regs.len(),
            words@.len() == r@.len(),
            forall|k: int| 0 <= k < r@.len() ==> (#[trigger] words@[k]) == r@[k].0,
            forall|k: int| 0 <= k < r@.len() ==> spec_lookup_keyword((#[trigger] r@[k]).0@) == Some(r@[k].1),
            forall|a: int, b: int| 0 <= a < b < r@.len() ==> (#[trigger] r@[a]).0@ != (#[trigger] r@[b]).0@,
            forall|j: int| 0 <= j < i ==> exists|k: int| 0 <= k < r@.len() && (#[trigger] r@[k]).0@ == (#[trigger] regs@[j]).0@,
        decreases regs.len() - i,
    {
        let word = regs[i].0;
        if !contains_word(&words, word) {
            let w = str_to_chars(word);
            proof { lemma_registered_is_keyword(regs@, i as int); }
            let t = lookup_keyword_chars(w.as_slice());
            let ghost old_r = r@;
            assert forall|k: int| 0 <= k < old_r.len() implies (#[trigger] old_r[k]).0@ != word@ by {
                assert(words@[k] == old_r[k].0);
            }
            r.push((word, t.unwrap()));
            words.push(word);
            assert forall|j: int| 0 <= j < i + 1 implies exists|k: int| 0 <= k < r@.len() && (#[trigger] r@[k]).0@ == (#[trigger] regs@[j]).0@ by {
                if j == i {
                    assert(r@[r@.len() - 1].0@ == regs@[j].0@);
                } else {
                    let k = choose|k: int| 0 <= k < old_r.len() && (#[trigger] old_r[k]).0@ == regs@[j].0@;
                    assert(r@[k] == old_r[k]);
                }
            }
        } else {
            let ghost k = choose|k: int| 0 <= k < words@.len() && (#[trigger] words@[k])@ == word@;
            assert(r@[k].0@ == regs@[i as int].0@);
        }
        i = i + 1;
    }
    assert forall|w: Seq<char>| spec_lookup_keyword(w) is Some
        implies exists|i: int| 0 <= i < r@.len() && (#[trigger] r@[i]).0@ == w by {
        lemma_last_registration_witness(regs@, w);
        let j = choose|j: int|
            0 <= j < regs@.len() && (#[trigger] regs@[j]).0@ == w
                && Some(regs@[j].1) == last_registration(regs@, w);
        assert(regs@[j].0@ == w);
    }
    r
}


/// Whether the words of a list are pairwise different.
pub open spec fn words_distinct(vs: Seq<&'static str>) -> bool {
    forall|a: int, b: int| 0 <= a < b < vs.len() ==> (#[trigger] vs[a])@ != (#[trigger] vs[b])@
}

/// What a property's entry says of its values: a list of valid values
/// exactly for an identifier property, and such a list is not empty and
/// names no value twice.
pub open spec fn property_shape(p: PropertyDef) -> bool {
    &&& (p.valid_values is Some <==> p.value_type == ValueType::Identifier)
    &&& (p.valid_values matches Some(vs) ==> vs@.len() > 0 && words_distinct(vs@))
}

/// Every property of the table lists valid values exactly when it takes
/// an identifier, and such a list is not empty and repeats no value.
pub proof fn lemma_property_table_shape()
    ensures
        forall|i: int| 0 <= i < property_table().len() ==> property_shape(#[trigger] property_table()[i]),
{
    let t = property_table();
    assert(t.len() == 46);
    reveal_strlit("add");
    reveal_strlit("back");
    reveal_strlit("bentNormals");
    reveal_strlit("cloth");
    reveal_strlit("compute");
    reveal_strlit("cubemap");
    reveal_strlit("custom");
    reveal_strlit("default");
    reveal_strlit("device");
    reveal_strlit("fade");
    reveal_strlit("flat");
    reveal_strlit("front");
    reveal_strlit("frontAndBack");
    reveal_strlit("high");
    reveal_strlit("instanced");
    reveal_strlit("lit");
    reveal_strlit("low");
    reveal_strlit("masked");
    reveal_strlit("multiply");
    reveal_strlit("multiview");
    reveal_strlit("none");
    reveal_strlit("normal");
    reveal_strlit("object");
    reveal_strlit("opaque");
    reveal_strlit("postprocess");
    reveal_strlit("screen");
    reveal_strlit("screenspace");
    reveal_strlit("simple");
    reveal_strlit("smooth");
    reveal_strlit("solid");
    reveal_strlit("specularGlossiness");
    reveal_strlit("subsurface");
    reveal_strlit("surface");
    reveal_strlit("thin");
    reveal_strlit("transparent");
    reveal_strlit("twoPassesOneSide");
    reveal_strlit("twoPassesTwoSides");
    reveal_strlit("unlit");
    reveal_strlit("view");
    reveal_strlit("world");
    assert(property_shape(t[0])) by {
        assert(t[0].value_type == ValueType::String);
        assert(t[0].valid_values is None);
    }
    assert(property_shape(t[1])) by {
        assert(t[1].value_type == ValueType::Number);
        assert(t[1].valid_values is None);
    }
    assert(property_shape(t[2])) by {
        assert(t[2].value_type == ValueType::Number);
        assert(t[2].valid_values is None);
    }
    assert(property_shape(t[3])) by {
        assert(t[3].value_type == ValueType::Identifier);
        let vs = t[3].valid_values.unwrap()@;
        assert(vs.len() == 5);
        assert(vs[0] == "lit");
        assert(vs[0]@ == "lit"@);
        assert(vs[0]@.len() == 3);
        assert(vs[1] == "unlit");
        assert(vs[1]@ == "unlit"@);
        assert(vs[1]@.len() == 5);
        assert(vs[2] == "subsurface");
        assert(vs[2]@ == "subsurface"@);
        assert(vs[2]@.len() == 10);
        assert(vs[3] == "cloth");
        assert(vs[3]@ == "cloth"@);
        assert(vs[3]@.len() == 5);
        assert(vs[4] == "specularGlossiness");
        assert(vs[4]@ == "specularGlossiness"@);
        assert(vs[4]@.len() == 18);
        assert forall|a: int, b: int| 0 <= a < b < vs.len() implies (#[trigger] vs[a])@ != (#[trigger] vs[b])@ by {
            if a == 0 { if b == 1 {} else if b == 2 {} else if b == 3 {} else if b == 4 {} } else if a == 1 { if b == 2 {} else if b == 3 { assert(vs[1]@[0] != vs[3]@[0]); } else if b == 4 {} } else if a == 2 { if b == 3 {} else if b == 4 {} } else if a == 3 { if b == 4 {} } else if a == 4 {  }
        }
    }
    assert(property_shape(t[4])) by {
        assert(t[4].value_type == ValueType::Identifier);
        let vs = t[4].valid_values.unwrap()@;
        assert(vs.len() == 3);
        assert(vs[0] == "surface");
        assert(vs[0]@ == "surface"@);
        assert(vs[0]@.len() == 7);
        assert(vs[1] == "postprocess");
        assert(vs[1]@ == "postprocess"@);
        assert(vs[1]@.len() == 11);
        assert(vs[2] == "compute");
        assert(vs[2]@ == "compute"@);
        assert(vs[2]@.len() == 7);
        assert forall|a: int, b: int| 0 <= a < b < vs.len() implies (#[trigger] vs[a])@ != (#[trigger] vs[b])@ by {
            if a == 0 { if b == 1 {} else if b == 2 { assert(vs[0]@[0] != vs[2]@[0]); } } else if a == 1 { if b == 2 {} } else if a == 2 {  }
        }
    }
    assert(property_shape(t[5])) by {
        assert(t[5].value_type == ValueType::Identifier);
        let vs = t[5].valid_values.unwrap()@;
        assert(vs.len() == 2);
        assert(vs[0] == "smooth");
        assert(vs[0]@ == "smooth"@);
        assert(vs[0]@.len() == 6);
        assert(vs[1] == "flat");
        assert(vs[1]@ == "flat"@);
        assert(vs[1]@.len() == 4);
        assert forall|a: int, b: int| 0 <= a < b < vs.len() implies (#[trigger] vs[a])@ != (#[trigger] vs[b])@ by {
            if a == 0 { if b == 1 {} } else if a == 1 {  }
        }
    }
    assert(property_shape(t[6])) by {
        assert(t[6].value_type == ValueType::Identifier);
        let vs = t[6].valid_values.unwrap()@;
        assert(vs.len() == 4);
        assert(vs[0] == "default");
        assert(vs[0]@ == "default"@);
        assert(vs[0]@.len() == 7);
        assert(vs[1] == "low");
        assert(vs[1]@ == "low"@);
        assert(vs[1]@.len() == 3);
        assert(vs[2] == "normal");
        assert(vs[2]@ == "normal"@);
        assert(vs[2]@.len() == 6);
        assert(vs[3] == "high");
        assert(vs[3]@ == "high"@);
        assert(vs[3]@.len() == 4);
        assert forall|a: int, b: int| 0 <= a < b < vs.len() implies (#[trigger] vs[a])@ != (#[trigger] vs[b])@ by {
            if a == 0 { if b == 1 {} else if b == 2 {} else if b == 3 {} } else if a == 1 { if b == 2 {} else if b == 3 {} } else if a == 2 { if b == 3 {} } else if a == 3 {  }
        }
    }
    assert(property_shape(t[7])) by {
        assert(t[7].value_type == ValueType::ArrayOfObjects);
        assert(t[7].valid_values is None);
    }
    assert(property_shape(t[8])) by {
        assert(t[8].value_type == ValueType::ArrayOfObjects);
        assert(t[8].valid_values is None);
    }
    assert(property_shape(t[9])) by {
        assert(t[9].value_type == ValueType::ArrayOfStrings);
        assert(t[9].valid_values is None);
    }
    assert(property_shape(t[10])) by {
        assert(t[10].value_type == ValueType::ArrayOfIdentifiers);
        assert(t[10].valid_values is None);
    }
    assert(property_shape(t[11])) by {
        assert(t[11].value_type == ValueType::Identifier);
        let vs = t[11].valid_values.unwrap()@;
        assert(vs.len() == 8);
        assert(vs[0] == "opaque");
        assert(vs[0]@ == "opaque"@);
        assert(vs[0]@.len() == 6);
        assert(vs[1] == "transparent");
        assert(vs[1]@ == "transparent"@);
        assert(vs[1]@.len() == 11);
        assert(vs[2] == "fade");
        assert(vs[2]@ == "fade"@);
        assert(vs[2]@.len() == 4);
        assert(vs[3] == "masked");
        assert(vs[3]@ == "masked"@);
        assert(vs[3]@.len() == 6);
        assert(vs[4] == "add");
        assert(vs[4]@ == "add"@);
        assert(vs[4]@.len() == 3);
        assert(vs[5] == "multiply");
        assert(vs[5]@ == "multiply"@);
        assert(vs[5]@.len() == 8);
        assert(vs[6] == "screen");
        assert(vs[6]@ == "screen"@);
        assert(vs[6]@.len() == 6);
        assert(vs[7] == "custom");
        assert(vs[7]@ == "custom"@);
        assert(vs[7]@.len() == 6);
        assert forall|a: int, b: int| 0 <= a < b < vs.len() implies (#[trigger] vs[a])@ != (#[trigger] vs[b])@ by {
            if a == 0 { if b == 1 {} else if b == 2 {} else if b == 3 { assert(vs[0]@[0] != vs[3]@[0]); } else if b == 4 {} else if b == 5 {} else if b == 6 { assert(vs[0]@[0] != vs[6]@[0]); } else if b == 7 { assert(vs[0]@[0] != vs[7]@[0]); } } else if a == 1 { if b == 2 {} else if b == 3 {} else if b == 4 {} else if b == 5 {} else if b == 6 {} else if b == 7 {} } else if a == 2 { if b == 3 {} else if b == 4 {} else if b == 5 {} else if b == 6 {} else if b == 7 {} } else if a == 3 { if b == 4 {} else if b == 5 {} else if b == 6 { assert(vs[3]@[0] != vs[6]@[0]); } else if b == 7 { assert(vs[3]@[0] != vs[7]@[0]); } } else if a == 4 { if b == 5 {} else if b == 6 {} else if b == 7 {} } else if a == 5 { if b == 6 {} else if b == 7 {} } else if a == 6 { if b == 7 { assert(vs[6]@[0] != vs[7]@[0]); } } else if a == 7 {  }
        }
    }
    assert(property_shape(t[12])) by {
        assert(t[12].value_type == ValueType::Identifier);
        let vs = t[12].valid_values.unwrap()@;
        assert(vs.len() == 5);
        assert(vs[0] == "opaque");
        assert(vs[0]@ == "opaque"@);
        assert(vs[0]@.len() == 6);
        assert(vs[1] == "transparent");
        assert(vs[1]@ == "transparent"@);
        assert(vs[1]@.len() == 11);
        assert(vs[2] == "add");
        assert(vs[2]@ == "add"@);
        assert(vs[2]@.len() == 3);
        assert(vs[3] == "multiply");
        assert(vs[3]@ == "multiply"@);
        assert(vs[3]@.len() == 8);
        assert(vs[4] == "screen");
        assert(vs[4]@ == "screen"@);
        assert(vs[4]@.len() == 6);
        assert forall|a: int, b: int| 0 <= a < b < vs.len() implies (#[trigger] vs[a])@ != (#[trigger] vs[b])@ by {
            if a == 0 { if b == 1 {} else if b == 2 {} else if b == 3 {} else if b == 4 { assert(vs[0]@[0] != vs[4]@[0]); } } else if a == 1 { if b == 2 {} else if b == 3 {} else if b == 4 {} } else if a == 2 { if b == 3 {} else if b == 4 {} } else if a == 3 { if b == 4 {} } else if a == 4 {  }
        }
    }
    assert(property_shape(t[13])) by {
        assert(t[13].value_type == ValueType::Identifier);
        let vs = t[13].valid_values.unwrap()@;
        assert(vs.len() == 3);
        assert(vs[0] == "default");
        assert(vs[0]@ == "default"@);
        assert(vs[0]@.len() == 7);
        assert(vs[1] == "twoPassesOneSide");
        assert(vs[1]@ == "twoPassesOneSide"@);
        assert(vs[1]@.len() == 16);
        assert(vs[2] == "twoPassesTwoSides");
        assert(vs[2]@ == "twoPassesTwoSides"@);
        assert(vs[2]@.len() == 17);
        assert forall|a: int, b: int| 0 <= a < b < vs.len() implies (#[trigger] vs[a])@ != (#[trigger] vs[b])@ by {
            if a == 0 { if b == 1 {} else if b == 2 {} } else if a == 1 { if b == 2 {} } else if a == 2 {  }
        }
    }
    assert(property_shape(t[14])) by {
        assert(t[14].value_type == ValueType::Number);
        assert(t[14].valid_values is None);
    }
    assert(property_shape(t[15])) by {
        assert(t[15].value_type == ValueType::Bool);
        assert(t[15].valid_values is None);
    }
    assert(property_shape(t[16])) by {
        assert(t[16].value_type == ValueType::Identifier);
        let vs = t[16].valid_values.unwrap()@;
        assert(vs.len() == 4);
        assert(vs[0] == "object");
        assert(vs[0]@ == "object"@);
        assert(vs[0]@.len() == 6);
        assert(vs[1] == "world");
        assert(vs[1]@ == "world"@);
        assert(vs[1]@.len() == 5);
        assert(vs[2] == "view");
        assert(vs[2]@ == "view"@);
        assert(vs[2]@.len() == 4);
        assert(vs[3] == "device");
        assert(vs[3]@ == "device"@);
        assert(vs[3]@.len() == 6);
        assert forall|a: int, b: int| 0 <= a < b < vs.len() implies (#[trigger] vs[a])@ != (#[trigger] vs[b])@ by {
            if a == 0 { if b == 1 {} else if b == 2 {} else if b == 3 { assert(vs[0]@[0] != vs[3]@[0]); } } else if a == 1 { if b == 2 {} else if b == 3 {} } else if a == 2 { if b == 3 {} } else if a == 3 {  }
        }
    }
    assert(property_shape(t[17])) by {
        assert(t[17].value_type == ValueType::Bool);
        assert(t[17].valid_values is None);
    }
    assert(property_shape(t[18])) by {
        assert(t[18].value_type == ValueType::Identifier);
        let vs = t[18].valid_values.unwrap()@;
        assert(vs.len() == 4);
        assert(vs[0] == "back");
        assert(vs[0]@ == "back"@);
        assert(vs[0]@.len() == 4);
        assert(vs[1] == "front");
        assert(vs[1]@ == "front"@);
        assert(vs[1]@.len() == 5);
        assert(vs[2] == "frontAndBack");
        assert(vs[2]@ == "frontAndBack"@);
        assert(vs[2]@.len() == 12);
        assert(vs[3] == "none");
        assert(vs[3]@ == "none"@);
        assert(vs[3]@.len() == 4);
        assert forall|a: int, b: int| 0 <= a < b < vs.len() implies (#[trigger] vs[a])@ != (#[trigger] vs[b])@ by {
            if a == 0 { if b == 1 {} else if b == 2 {} else if b == 3 { assert(vs[0]@[0] != vs[3]@[0]); } } else if a == 1 { if b == 2 {} else if b == 3 {} } else if a == 2 { if b == 3 {} } else if a == 3 {  }
        }
    }
    assert(property_shape(t[19])) by {
        assert(t[19].value_type == ValueType::Bool);
        assert(t[19].valid_values is None);
    }
    assert(property_shape(t[20])) by {
        assert(t[20].value_type == ValueType::Bool);
        assert(t[20].valid_values is None);
    }
    assert(property_shape(t[21])) by {
        assert(t[21].value_type == ValueType::Bool);
        assert(t[21].valid_values is None);
    }
    assert(property_shape(t[22])) by {
        assert(t[22].value_type == ValueType::Bool);
        assert(t[22].valid_values is None);
    }
    assert(property_shape(t[23])) by {
        assert(t[23].value_type == ValueType::Bool);
        assert(t[23].valid_values is None);
    }
    assert(property_shape(t[24])) by {
        assert(t[24].value_type == ValueType::Identifier);
        let vs = t[24].valid_values.unwrap()@;
        assert(vs.len() == 3);
        assert(vs[0] == "none");
        assert(vs[0]@ == "none"@);
        assert(vs[0]@.len() == 4);
        assert(vs[1] == "cubemap");
        assert(vs[1]@ == "cubemap"@);
        assert(vs[1]@.len() == 7);
        assert(vs[2] == "screenspace");
        assert(vs[2]@ == "screenspace"@);
        assert(vs[2]@.len() == 11);
        assert forall|a: int, b: int| 0 <= a < b < vs.len() implies (#[trigger] vs[a])@ != (#[trigger] vs[b])@ by {
            if a == 0 { if b == 1 {} else if b == 2 {} } else if a == 1 { if b == 2 {} } else if a == 2 {  }
        }
    }
    assert(property_shape(t[25])) by {
        assert(t[25].value_type == ValueType::Identifier);
        let vs = t[25].valid_values.unwrap()@;
        assert(vs.len() == 2);
        assert(vs[0] == "solid");
        assert(vs[0]@ == "solid"@);
        assert(vs[0]@.len() == 5);
        assert(vs[1] == "thin");
        assert(vs[1]@ == "thin"@);
        assert(vs[1]@.len() == 4);
        assert forall|a: int, b: int| 0 <= a < b < vs.len() implies (#[trigger] vs[a])@ != (#[trigger] vs[b])@ by {
            if a == 0 { if b == 1 {} } else if a == 1 {  }
        }
    }
    assert(property_shape(t[26])) by {
        assert(t[26].value_type == ValueType::Identifier);
        let vs = t[26].valid_values.unwrap()@;
        assert(vs.len() == 2);
        assert(vs[0] == "default");
        assert(vs[0]@ == "default"@);
        assert(vs[0]@.len() == 7);
        assert(vs[1] == "screenspace");
        assert(vs[1]@ == "screenspace"@);
        assert(vs[1]@.len() == 11);
        assert forall|a: int, b: int| 0 <= a < b < vs.len() implies (#[trigger] vs[a])@ != (#[trigger] vs[b])@ by {
            if a == 0 { if b == 1 {} } else if a == 1 {  }
        }
    }
    assert(property_shape(t[27])) by {
        assert(t[27].value_type == ValueType::Bool);
        assert(t[27].valid_values is None);
    }
    assert(property_shape(t[28])) by {
        assert(t[28].value_type == ValueType::Bool);
        assert(t[28].valid_values is None);
    }
    assert(property_shape(t[29])) by {
        assert(t[29].value_type == ValueType::Bool);
        assert(t[29].valid_values is None);
    }
    assert(property_shape(t[30])) by {
        assert(t[30].value_type == ValueType::Bool);
        assert(t[30].valid_values is None);
    }
    assert(property_shape(t[31])) by {
        assert(t[31].value_type == ValueType::Identifier);
        let vs = t[31].valid_values.unwrap()@;
        assert(vs.len() == 3);
        assert(vs[0] == "none");
        assert(vs[0]@ == "none"@);
        assert(vs[0]@.len() == 4);
        assert(vs[1] == "simple");
        assert(vs[1]@ == "simple"@);
        assert(vs[1]@.len() == 6);
        assert(vs[2] == "bentNormals");
        assert(vs[2]@ == "bentNormals"@);
        assert(vs[2]@.len() == 11);
        assert forall|a: int, b: int| 0 <= a < b < vs.len() implies (#[trigger] vs[a])@ != (#[trigger] vs[b])@ by {
            if a == 0 { if b == 1 {} else if b == 2 {} } else if a == 1 { if b == 2 {} } else if a == 2 {  }
        }
    }
    assert(property_shape(t[32])) by {
        assert(t[32].value_type == ValueType::Bool);
        assert(t[32].valid_values is None);
    }
    assert(property_shape(t[33])) by {
        assert(t[33].value_type == ValueType::Number);
        assert(t[33].valid_values is None);
    }
    assert(property_shape(t[34])) by {
        assert(t[34].value_type == ValueType::Number);
        assert(t[34].valid_values is None);
    }
    assert(property_shape(t[35])) by {
        assert(t[35].value_type == ValueType::Bool);
        assert(t[35].valid_values is None);
    }
    assert(property_shape(t[36])) by {
        assert(t[36].value_type == ValueType::Bool);
        assert(t[36].valid_values is None);
    }
    assert(property_shape(t[37])) by {
        assert(t[37].value_type == ValueType::Bool);
        assert(t[37].valid_values is None);
    }
    assert(property_shape(t[38])) by {
        assert(t[38].value_type == ValueType::Bool);
        assert(t[38].valid_values is None);
    }
    assert(property_shape(t[39])) by {
        assert(t[39].value_type == ValueType::Bool);
        assert(t[39].valid_values is None);
    }
    assert(property_shape(t[40])) by {
        assert(t[40].value_type == ValueType::Bool);
        assert(t[40].valid_values is None);
    }
    assert(property_shape(t[41])) by {
        assert(t[41].value_type == ValueType::Bool);
        assert(t[41].valid_values is None);
    }
    assert(property_shape(t[42])) by {
        assert(t[42].value_type == ValueType::ArrayOfIdentifiers);
        assert(t[42].valid_values is None);
    }
    assert(property_shape(t[43])) by {
        assert(t[43].value_type == ValueType::ArrayOfIdentifiers);
        assert(t[43].valid_values is None);
    }
    assert(property_shape(t[44])) by {
        assert(t[44].value_type == ValueType::Identifier);
        let vs = t[44].valid_values.unwrap()@;
        assert(vs.len() == 3);
        assert(vs[0] == "none");
        assert(vs[0]@ == "none"@);
        assert(vs[0]@.len() == 4);
        assert(vs[1] == "instanced");
        assert(vs[1]@ == "instanced"@);
        assert(vs[1]@.len() == 9);
        assert(vs[2] == "multiview");
        assert(vs[2]@ == "multiview"@);
        assert(vs[2]@.len() == 9);
        assert forall|a: int, b: int| 0 <= a < b < vs.len() implies (#[trigger] vs[a])@ != (#[trigger] vs[b])@ by {
            if a == 0 { if b == 1 {} else if b == 2 {} } else if a == 1 { if b == 2 { assert(vs[1]@[0] != vs[2]@[0]); } } else if a == 2 {  }
        }
    }
    assert(property_shape(t[45])) by {
        assert(t[45].value_type == ValueType::Number);
        assert(t[45].valid_values is None);
    }
    assert forall|i: int| 0 <= i < t.len() implies property_shape(#[trigger] t[i]) by {
        if i == 0 {} else if i == 1 {} else if i == 2 {} else if i == 3 {} else if i == 4 {} else if i == 5 {} else if i == 6 {} else if i == 7 {} else if i == 8 {} else if i == 9 {} else if i == 10 {} else if i == 11 {} else if i == 12 {} else if i == 13 {} else if i == 14 {} else if i == 15 {} else if i == 16 {} else if i == 17 {} else if i == 18 {} else if i == 19 {} else if i == 20 {} else if i == 21 {} else if i == 22 {} else if i == 23 {} else if i == 24 {} else if i == 25 {} else if i == 26 {} else if i == 27 {} else if i == 28 {} else if i == 29 {} else if i == 30 {} else if i == 31 {} else if i == 32 {} else if i == 33 {} else if i == 34 {} else if i == 35 {} else if i == 36 {} else if i == 37 {} else if i == 38 {} else if i == 39 {} else if i == 40 {} else if i == 41 {} else if i == 42 {} else if i == 43 {} else if i == 44 {} else if i == 45 {}
    }
}


/// Length, first two and last characters of a word.
pub open spec fn word_sig(v: Seq<char>, n: int, a: char, b: char, z: char) -> bool {
    v.len() == n && v[0] == a && v[1] == b && v[v.len() - 1] == z
}

/// The shapes of the words of the fixed keyword table.
pub open spec fn fixed_shape(v: Seq<char>) -> bool {
    word_sig(v, 3, 'a', 'd', 'd')
        || word_sig(v, 3, 'f', 'o', 'g')
        || word_sig(v, 3, 'i', 'n', 't')
        || word_sig(v, 3, 'l', 'i', 't')
        || word_sig(v, 3, 'l', 'o', 'w')
        || word_sig(v, 3, 'o', 'n', 'e')
        || word_sig(v, 3, 's', 's', 'r')
        || word_sig(v, 3, 'u', 'v', '0')
        || word_sig(v, 3, 'u', 'v', '1')
        || word_sig(v, 3, 'v', 's', 'm')
        || word_sig(v, 4, 'b', 'a', 'k')
        || word_sig(v, 4, 'b', 'o', 'l')
        || word_sig(v, 4, 'f', 'a', 'e')
        || word_sig(v, 4, 'f', 'l', 't')
        || word_sig(v, 4, 'h', 'i', 'h')
        || word_sig(v, 4, 'i', 'n', '2')
        || word_sig(v, 4, 'i', 'n', '3')
        || word_sig(v, 4, 'i', 'n', '4')
        || word_sig(v, 4, 'm', 'a', '3')
        || word_sig(v, 4, 'm', 'a', '4')
        || word_sig(v, 4, 'n', 'a', 'e')
        || word_sig(v, 4, 'n', 'o', 'e')
        || word_sig(v, 4, 'n', 'u', 'l')
        || word_sig(v, 4, 't', 'h', 'n')
        || word_sig(v, 4, 't', 'o', 'l')
        || word_sig(v, 4, 't', 'r', 'e')
        || word_sig(v, 4, 't', 'y', 'e')
        || word_sig(v, 4, 'u', 'i', 't')
        || word_sig(v, 4, 'v', 'i', 'w')
        || word_sig(v, 4, 'z', 'e', 'o')
        || word_sig(v, 5, 'b', 'o', '2')
        || word_sig(v, 5, 'b', 'o', '3')
        || word_sig(v, 5, 'b', 'o', '4')
        || word_sig(v, 5, 'c', 'l', 'h')
        || word_sig(v, 5, 'c', 'o', 'r')
        || word_sig(v, 5, 'f', 'a', 'e')
        || word_sig(v, 5, 'f', 'l', 't')
        || word_sig(v, 5, 'f', 'r', 't')
        || word_sig(v, 5, 's', 'o', 'd')
        || word_sig(v, 5, 'u', 'i', '2')
        || word_sig(v, 5, 'u', 'i', '3')
        || word_sig(v, 5, 'u', 'i', '4')
        || word_sig(v, 5, 'u', 'n', 't')
        || word_sig(v, 5, 'w', 'o', 'd')
        || word_sig(v, 6, 'c', 'u', 'm')
        || word_sig(v, 6, 'd', 'e', 'e')
        || word_sig(v, 6, 'f', 'l', '2')
        || word_sig(v, 6, 'f', 'l', '3')
        || word_sig(v, 6, 'f', 'l', '4')
        || word_sig(v, 6, 'f', 'o', 't')
        || word_sig(v, 6, 'm', 'a', 'd')
        || word_sig(v, 6, 'm', 'e', 'm')
        || word_sig(v, 6, 'n', 'o', 'l')
        || word_sig(v, 6, 'o', 'b', 't')
        || word_sig(v, 6, 'o', 'p', 'e')
        || word_sig(v, 6, 's', 'c', 'n')
        || word_sig(v, 6, 's', 'h', 'w')
        || word_sig(v, 6, 's', 'i', 'e')
        || word_sig(v, 6, 's', 'm', 'h')
        || word_sig(v, 6, 's', 't', 'o')
        || word_sig(v, 6, 's', 't', 's')
        || word_sig(v, 6, 'v', 'e', 'x')
        || word_sig(v, 7, 'c', 'o', 'e')
        || word_sig(v, 7, 'c', 'u', '0')
        || word_sig(v, 7, 'c', 'u', '1')
        || word_sig(v, 7, 'c', 'u', '2')
        || word_sig(v, 7, 'c', 'u', '3')
        || word_sig(v, 7, 'c', 'u', '4')
        || word_sig(v, 7, 'c', 'u', '5')
        || word_sig(v, 7, 'c', 'u', '6')
        || word_sig(v, 7, 'c', 'u', '7')
        || word_sig(v, 7, 'c', 'u', 'p')
        || word_sig(v, 7, 'd', 'e', 't')
        || word_sig(v, 7, 's', 'u', 'e')
        || word_sig(v, 8, 'd', 's', 'a')
        || word_sig(v, 8, 'd', 's', 'r')
        || word_sig(v, 8, 'f', 'l', '3')
        || word_sig(v, 8, 'f', 'l', '4')
        || word_sig(v, 8, 'f', 'r', 't')
        || word_sig(v, 8, 'm', 'a', 'l')
        || word_sig(v, 8, 'm', 'u', 'y')
        || word_sig(v, 8, 'p', 'o', 'n')
        || word_sig(v, 8, 's', 'k', 'g')
        || word_sig(v, 8, 's', 'r', 'a')
        || word_sig(v, 8, 's', 'r', 'r')
        || word_sig(v, 8, 't', 'a', 's')
        || word_sig(v, 9, 'i', 'n', 'd')
        || word_sig(v, 9, 'm', 'u', 'w')
        || word_sig(v, 9, 'p', 'r', 'n')
        || word_sig(v, 9, 's', 'a', 'd')
        || word_sig(v, 10, 'f', 'i', 'e')
        || word_sig(v, 10, 's', 'u', 'e')
        || word_sig(v, 11, 'b', 'e', 's')
        || word_sig(v, 11, 'b', 'o', 's')
        || word_sig(v, 11, 'm', 'u', 'e')
        || word_sig(v, 11, 'p', 'o', 's')
        || word_sig(v, 11, 's', 'c', 'e')
        || word_sig(v, 11, 't', 'r', 't')
        || word_sig(v, 12, 'f', 'r', 'k')
        || word_sig(v, 12, 's', 'u', 't')
        || word_sig(v, 13, 't', 'r', 'e')
        || word_sig(v, 14, 's', 'a', 'p')
        || word_sig(v, 14, 's', 'a', 'y')
        || word_sig(v, 14, 's', 'h', 'r')
        || word_sig(v, 15, 'd', 'y', 'g')
        || word_sig(v, 15, 's', 'a', 'l')
        || word_sig(v, 16, 'o', 'n', 'a')
        || word_sig(v, 16, 'o', 'n', 'r')
        || word_sig(v, 16, 's', 'r', 'e')
        || word_sig(v, 16, 't', 'w', 'e')
        || word_sig(v, 17, 't', 'w', 's')
        || word_sig(v, 18, 's', 'p', 's')
        || word_sig(v, 19, 'd', 'i', 'g')
        || word_sig(v, 19, 's', 'a', 'y')
}

proof fn lemma_fixed_shapes_0()
    ensures
        forall|j: int| 0 <= j < 17 ==> fixed_shape(#[trigger] fixed_keyword_table()[j].0@),
{
    let t = fixed_keyword_table();
    assert(t.len() == 133);
    reveal_strlit("cloth");
    reveal_strlit("default");
    reveal_strlit("fade");
    reveal_strlit("filterable");
    reveal_strlit("format");
    reveal_strlit("lit");
    reveal_strlit("multisample");
    reveal_strlit("name");
    reveal_strlit("opaque");
    reveal_strlit("precision");
    reveal_strlit("specularGlossiness");
    reveal_strlit("stages");
    reveal_strlit("subsurface");
    reveal_strlit("transformName");
    reveal_strlit("transparent");
    reveal_strlit("type");
    reveal_strlit("unlit");
    assert(fixed_shape(t[0].0@)) by { assert(t[0].0 == "type"); assert(t[0].0@.len() == 4); assert(word_sig(t[0].0@, 4, 't', 'y', 'e')); }
    assert(fixed_shape(t[1].0@)) by { assert(t[1].0 == "name"); assert(t[1].0@.len() == 4); assert(word_sig(t[1].0@, 4, 'n', 'a', 'e')); }
    assert(fixed_shape(t[2].0@)) by { assert(t[2].0 == "precision"); assert(t[2].0@.len() == 9); assert(word_sig(t[2].0@, 9, 'p', 'r', 'n')); }
    assert(fixed_shape(t[3].0@)) by { assert(t[3].0 == "format"); assert(t[3].0@.len() == 6); assert(word_sig(t[3].0@, 6, 'f', 'o', 't')); }
    assert(fixed_shape(t[4].0@)) by { assert(t[4].0 == "filterable"); assert(t[4].0@.len() == 10); assert(word_sig(t[4].0@, 10, 'f', 'i', 'e')); }
    assert(fixed_shape(t[5].0@)) by { assert(t[5].0 == "multisample"); assert(t[5].0@.len() == 11); assert(word_sig(t[5].0@, 11, 'm', 'u', 'e')); }
    assert(fixed_shape(t[6].0@)) by { assert(t[6].0 == "transformName"); assert(t[6].0@.len() == 13); assert(word_sig(t[6].0@, 13, 't', 'r', 'e')); }
    assert(fixed_shape(t[7].0@)) by { assert(t[7].0 == "stages"); assert(t[7].0@.len() == 6); assert(word_sig(t[7].0@, 6, 's', 't', 's')); }
    assert(fixed_shape(t[8].0@)) by { assert(t[8].0 == "default"); assert(t[8].0@.len() == 7); assert(word_sig(t[8].0@, 7, 'd', 'e', 't')); }
    assert(fixed_shape(t[9].0@)) by { assert(t[9].0 == "lit"); assert(t[9].0@.len() == 3); assert(word_sig(t[9].0@, 3, 'l', 'i', 't')); }
    assert(fixed_shape(t[10].0@)) by { assert(t[10].0 == "unlit"); assert(t[10].0@.len() == 5); assert(word_sig(t[10].0@, 5, 'u', 'n', 't')); }
    assert(fixed_shape(t[11].0@)) by { assert(t[11].0 == "subsurface"); assert(t[11].0@.len() == 10); assert(word_sig(t[11].0@, 10, 's', 'u', 'e')); }
    assert(fixed_shape(t[12].0@)) by { assert(t[12].0 == "cloth"); assert(t[12].0@.len() == 5); assert(word_sig(t[12].0@, 5, 'c', 'l', 'h')); }
    assert(fixed_shape(t[13].0@)) by { assert(t[13].0 == "specularGlossiness"); assert(t[13].0@.len() == 18); assert(word_sig(t[13].0@, 18, 's', 'p', 's')); }
    assert(fixed_shape(t[14].0@)) by { assert(t[14].0 == "opaque"); assert(t[14].0@.len() == 6); assert(word_sig(t[14].0@, 6, 'o', 'p', 'e')); }
    assert(fixed_shape(t[15].0@)) by { assert(t[15].0 == "transparent"); assert(t[15].0@.len() == 11); assert(word_sig(t[15].0@, 11, 't', 'r', 't')); }
    assert(fixed_shape(t[16].0@)) by { assert(t[16].0 == "fade"); assert(t[16].0@.len() == 4); assert(word_sig(t[16].0@, 4, 'f', 'a', 'e')); }
    assert forall|j: int| 0 <= j < 17 implies fixed_shape(#[trigger] t[j].0@) by {
        if j == 0 {} else if j == 1 {} else if j == 2 {} else if j == 3 {} else if j == 4 {} else if j == 5 {} else if j == 6 {} else if j == 7 {} else if j == 8 {} else if j == 9 {} else if j == 10 {} else if j == 11 {} else if j == 12 {} else if j == 13 {} else if j == 14 {} else if j == 15 {} else if j == 16 {}
    }
}

proof fn lemma_fixed_shapes_1()
    ensures
        forall|j: int| 17 <= j < 34 ==> fixed_shape(#[trigger] fixed_keyword_table()[j].0@),
{
    let t = fixed_keyword_table();
    assert(t.len() == 133);
    reveal_strlit("add");
    reveal_strlit("back");
    reveal_strlit("compute");
    reveal_strlit("custom");
    reveal_strlit("device");
    reveal_strlit("front");
    reveal_strlit("frontAndBack");
    reveal_strlit("masked");
    reveal_strlit("multiply");
    reveal_strlit("none");
    reveal_strlit("object");
    reveal_strlit("postprocess");
    reveal_strlit("screen");
    reveal_strlit("smooth");
    reveal_strlit("surface");
    reveal_strlit("view");
    reveal_strlit("world");
    assert(fixed_shape(t[17].0@)) by { assert(t[17].0 == "masked"); assert(t[17].0@.len() == 6); assert(word_sig(t[17].0@, 6, 'm', 'a', 'd')); }
    assert(fixed_shape(t[18].0@)) by { assert(t[18].0 == "add"); assert(t[18].0@.len() == 3); assert(word_sig(t[18].0@, 3, 'a', 'd', 'd')); }
    assert(fixed_shape(t[19].0@)) by { assert(t[19].0 == "multiply"); assert(t[19].0@.len() == 8); assert(word_sig(t[19].0@, 8, 'm', 'u', 'y')); }
    assert(fixed_shape(t[20].0@)) by { assert(t[20].0 == "screen"); assert(t[20].0@.len() == 6); assert(word_sig(t[20].0@, 6, 's', 'c', 'n')); }
    assert(fixed_shape(t[21].0@)) by { assert(t[21].0 == "custom"); assert(t[21].0@.len() == 6); assert(word_sig(t[21].0@, 6, 'c', 'u', 'm')); }
    assert(fixed_shape(t[22].0@)) by { assert(t[22].0 == "back"); assert(t[22].0@.len() == 4); assert(word_sig(t[22].0@, 4, 'b', 'a', 'k')); }
    assert(fixed_shape(t[23].0@)) by { assert(t[23].0 == "front"); assert(t[23].0@.len() == 5); assert(word_sig(t[23].0@, 5, 'f', 'r', 't')); }
    assert(fixed_shape(t[24].0@)) by { assert(t[24].0 == "frontAndBack"); assert(t[24].0@.len() == 12); assert(word_sig(t[24].0@, 12, 'f', 'r', 'k')); }
    assert(fixed_shape(t[25].0@)) by { assert(t[25].0 == "none"); assert(t[25].0@.len() == 4); assert(word_sig(t[25].0@, 4, 'n', 'o', 'e')); }
    assert(fixed_shape(t[26].0@)) by { assert(t[26].0 == "object"); assert(t[26].0@.len() == 6); assert(word_sig(t[26].0@, 6, 'o', 'b', 't')); }
    assert(fixed_shape(t[27].0@)) by { assert(t[27].0 == "world"); assert(t[27].0@.len() == 5); assert(word_sig(t[27].0@, 5, 'w', 'o', 'd')); }
    assert(fixed_shape(t[28].0@)) by { assert(t[28].0 == "view"); assert(t[28].0@.len() == 4); assert(word_sig(t[28].0@, 4, 'v', 'i', 'w')); }
    assert(fixed_shape(t[29].0@)) by { assert(t[29].0 == "device"); assert(t[29].0@.len() == 6); assert(word_sig(t[29].0@, 6, 'd', 'e', 'e')); }
    assert(fixed_shape(t[30].0@)) by { assert(t[30].0 == "surface"); assert(t[30].0@.len() == 7); assert(word_sig(t[30].0@, 7, 's', 'u', 'e')); }
    assert(fixed_shape(t[31].0@)) by { assert(t[31].0 == "postprocess"); assert(t[31].0@.len() == 11); assert(word_sig(t[31].0@, 11, 'p', 'o', 's')); }
    assert(fixed_shape(t[32].0@)) by { assert(t[32].0 == "compute"); assert(t[32].0@.len() == 7); assert(word_sig(t[32].0@, 7, 'c', 'o', 'e')); }
    assert(fixed_shape(t[33].0@)) by { assert(t[33].0 == "smooth"); assert(t[33].0@.len() == 6); assert(word_sig(t[33].0@, 6, 's', 'm', 'h')); }
    assert forall|j: int| 17 <= j < 34 implies fixed_shape(#[trigger] t[j].0@) by {
        if j == 17 {} else if j == 18 {} else if j == 19 {} else if j == 20 {} else if j == 21 {} else if j == 22 {} else if j == 23 {} else if j == 24 {} else if j == 25 {} else if j == 26 {} else if j == 27 {} else if j == 28 {} else if j == 29 {} else if j == 30 {} else if j == 31 {} else if j == 32 {} else if j == 33 {}
    }
}

proof fn lemma_fixed_shapes_2()
    ensures
        forall|j: int| 34 <= j < 51 ==> fixed_shape(#[trigger] fixed_keyword_table()[j].0@),
{
    let t = fixed_keyword_table();
    assert(t.len() == 133);
    reveal_strlit("cubemap");
    reveal_strlit("default");
    reveal_strlit("flat");
    reveal_strlit("instanced");
    reveal_strlit("low");
    reveal_strlit("multiview");
    reveal_strlit("none");
    reveal_strlit("normal");
    reveal_strlit("screenspace");
    reveal_strlit("solid");
    reveal_strlit("thin");
    reveal_strlit("twoPassesOneSide");
    reveal_strlit("twoPassesTwoSides");
    assert(fixed_shape(t[34].0@)) by { assert(t[34].0 == "flat"); assert(t[34].0@.len() == 4); assert(word_sig(t[34].0@, 4, 'f', 'l', 't')); }
    assert(fixed_shape(t[35].0@)) by { assert(t[35].0 == "none"); assert(t[35].0@.len() == 4); assert(word_sig(t[35].0@, 4, 'n', 'o', 'e')); }
    assert(fixed_shape(t[36].0@)) by { assert(t[36].0 == "cubemap"); assert(t[36].0@.len() == 7); assert(word_sig(t[36].0@, 7, 'c', 'u', 'p')); }
    assert(fixed_shape(t[37].0@)) by { assert(t[37].0 == "screenspace"); assert(t[37].0@.len() == 11); assert(word_sig(t[37].0@, 11, 's', 'c', 'e')); }
    assert(fixed_shape(t[38].0@)) by { assert(t[38].0 == "solid"); assert(t[38].0@.len() == 5); assert(word_sig(t[38].0@, 5, 's', 'o', 'd')); }
    assert(fixed_shape(t[39].0@)) by { assert(t[39].0 == "thin"); assert(t[39].0@.len() == 4); assert(word_sig(t[39].0@, 4, 't', 'h', 'n')); }
    assert(fixed_shape(t[40].0@)) by { assert(t[40].0 == "default"); assert(t[40].0@.len() == 7); assert(word_sig(t[40].0@, 7, 'd', 'e', 't')); }
    assert(fixed_shape(t[41].0@)) by { assert(t[41].0 == "screenspace"); assert(t[41].0@.len() == 11); assert(word_sig(t[41].0@, 11, 's', 'c', 'e')); }
    assert(fixed_shape(t[42].0@)) by { assert(t[42].0 == "default"); assert(t[42].0@.len() == 7); assert(word_sig(t[42].0@, 7, 'd', 'e', 't')); }
    assert(fixed_shape(t[43].0@)) by { assert(t[43].0 == "twoPassesOneSide"); assert(t[43].0@.len() == 16); assert(word_sig(t[43].0@, 16, 't', 'w', 'e')); }
    assert(fixed_shape(t[44].0@)) by { assert(t[44].0 == "twoPassesTwoSides"); assert(t[44].0@.len() == 17); assert(word_sig(t[44].0@, 17, 't', 'w', 's')); }
    assert(fixed_shape(t[45].0@)) by { assert(t[45].0 == "none"); assert(t[45].0@.len() == 4); assert(word_sig(t[45].0@, 4, 'n', 'o', 'e')); }
    assert(fixed_shape(t[46].0@)) by { assert(t[46].0 == "instanced"); assert(t[46].0@.len() == 9); assert(word_sig(t[46].0@, 9, 'i', 'n', 'd')); }
    assert(fixed_shape(t[47].0@)) by { assert(t[47].0 == "multiview"); assert(t[47].0@.len() == 9); assert(word_sig(t[47].0@, 9, 'm', 'u', 'w')); }
    assert(fixed_shape(t[48].0@)) by { assert(t[48].0 == "default"); assert(t[48].0@.len() == 7); assert(word_sig(t[48].0@, 7, 'd', 'e', 't')); }
    assert(fixed_shape(t[49].0@)) by { assert(t[49].0 == "low"); assert(t[49].0@.len() == 3); assert(word_sig(t[49].0@, 3, 'l', 'o', 'w')); }
    assert(fixed_shape(t[50].0@)) by { assert(t[50].0 == "normal"); assert(t[50].0@.len() == 6); assert(word_sig(t[50].0@, 6, 'n', 'o', 'l')); }
    assert forall|j: int| 34 <= j < 51 implies fixed_shape(#[trigger] t[j].0@) by {
        if j == 34 {} else if j == 35 {} else if j == 36 {} else if j == 37 {} else if j == 38 {} else if j == 39 {} else if j == 40 {} else if j == 41 {} else if j == 42 {} else if j == 43 {} else if j == 44 {} else if j == 45 {} else if j == 46 {} else if j == 47 {} else if j == 48 {} else if j == 49 {} else if j == 50 {}
    }
}

proof fn lemma_fixed_shapes_3()
    ensures
        forall|j: int| 51 <= j < 68 ==> fixed_shape(#[trigger] fixed_keyword_table()[j].0@),
{
    let t = fixed_keyword_table();
    assert(t.len() == 133);
    reveal_strlit("bentNormals");
    reveal_strlit("default");
    reveal_strlit("dstColor");
    reveal_strlit("float");
    reveal_strlit("high");
    reveal_strlit("int");
    reveal_strlit("low");
    reveal_strlit("medium");
    reveal_strlit("none");
    reveal_strlit("one");
    reveal_strlit("oneMinusSrcColor");
    reveal_strlit("shadow");
    reveal_strlit("simple");
    reveal_strlit("srcColor");
    reveal_strlit("uint");
    reveal_strlit("zero");
    assert(fixed_shape(t[51].0@)) by { assert(t[51].0 == "high"); assert(t[51].0@.len() == 4); assert(word_sig(t[51].0@, 4, 'h', 'i', 'h')); }
    assert(fixed_shape(t[52].0@)) by { assert(t[52].0 == "none"); assert(t[52].0@.len() == 4); assert(word_sig(t[52].0@, 4, 'n', 'o', 'e')); }
    assert(fixed_shape(t[53].0@)) by { assert(t[53].0 == "simple"); assert(t[53].0@.len() == 6); assert(word_sig(t[53].0@, 6, 's', 'i', 'e')); }
    assert(fixed_shape(t[54].0@)) by { assert(t[54].0 == "bentNormals"); assert(t[54].0@.len() == 11); assert(word_sig(t[54].0@, 11, 'b', 'e', 's')); }
    assert(fixed_shape(t[55].0@)) by { assert(t[55].0 == "default"); assert(t[55].0@.len() == 7); assert(word_sig(t[55].0@, 7, 'd', 'e', 't')); }
    assert(fixed_shape(t[56].0@)) by { assert(t[56].0 == "low"); assert(t[56].0@.len() == 3); assert(word_sig(t[56].0@, 3, 'l', 'o', 'w')); }
    assert(fixed_shape(t[57].0@)) by { assert(t[57].0 == "medium"); assert(t[57].0@.len() == 6); assert(word_sig(t[57].0@, 6, 'm', 'e', 'm')); }
    assert(fixed_shape(t[58].0@)) by { assert(t[58].0 == "high"); assert(t[58].0@.len() == 4); assert(word_sig(t[58].0@, 4, 'h', 'i', 'h')); }
    assert(fixed_shape(t[59].0@)) by { assert(t[59].0 == "float"); assert(t[59].0@.len() == 5); assert(word_sig(t[59].0@, 5, 'f', 'l', 't')); }
    assert(fixed_shape(t[60].0@)) by { assert(t[60].0 == "int"); assert(t[60].0@.len() == 3); assert(word_sig(t[60].0@, 3, 'i', 'n', 't')); }
    assert(fixed_shape(t[61].0@)) by { assert(t[61].0 == "uint"); assert(t[61].0@.len() == 4); assert(word_sig(t[61].0@, 4, 'u', 'i', 't')); }
    assert(fixed_shape(t[62].0@)) by { assert(t[62].0 == "shadow"); assert(t[62].0@.len() == 6); assert(word_sig(t[62].0@, 6, 's', 'h', 'w')); }
    assert(fixed_shape(t[63].0@)) by { assert(t[63].0 == "zero"); assert(t[63].0@.len() == 4); assert(word_sig(t[63].0@, 4, 'z', 'e', 'o')); }
    assert(fixed_shape(t[64].0@)) by { assert(t[64].0 == "one"); assert(t[64].0@.len() == 3); assert(word_sig(t[64].0@, 3, 'o', 'n', 'e')); }
    assert(fixed_shape(t[65].0@)) by { assert(t[65].0 == "srcColor"); assert(t[65].0@.len() == 8); assert(word_sig(t[65].0@, 8, 's', 'r', 'r')); }
    assert(fixed_shape(t[66].0@)) by { assert(t[66].0 == "oneMinusSrcColor"); assert(t[66].0@.len() == 16); assert(word_sig(t[66].0@, 16, 'o', 'n', 'r')); }
    assert(fixed_shape(t[67].0@)) by { assert(t[67].0 == "dstColor"); assert(t[67].0@.len() == 8); assert(word_sig(t[67].0@, 8, 'd', 's', 'r')); }
    assert forall|j: int| 51 <= j < 68 implies fixed_shape(#[trigger] t[j].0@) by {
        if j == 51 {} else if j == 52 {} else if j == 53 {} else if j == 54 {} else if j == 55 {} else if j == 56 {} else if j == 57 {} else if j == 58 {} else if j == 59 {} else if j == 60 {} else if j == 61 {} else if j == 62 {} else if j == 63 {} else if j == 64 {} else if j == 65 {} else if j == 66 {} else if j == 67 {}
    }
}

proof fn lemma_fixed_shapes_4()
    ensures
        forall|j: int| 68 <= j < 85 ==> fixed_shape(#[trigger] fixed_keyword_table()[j].0@),
{
    let t = fixed_keyword_table();
    assert(t.len() == 133);
    reveal_strlit("color");
    reveal_strlit("custom0");
    reveal_strlit("custom1");
    reveal_strlit("custom2");
    reveal_strlit("custom3");
    reveal_strlit("custom4");
    reveal_strlit("dstAlpha");
    reveal_strlit("normal");
    reveal_strlit("oneMinusDstAlpha");
    reveal_strlit("oneMinusDstColor");
    reveal_strlit("oneMinusSrcAlpha");
    reveal_strlit("position");
    reveal_strlit("srcAlpha");
    reveal_strlit("srcAlphaSaturate");
    reveal_strlit("tangents");
    reveal_strlit("uv0");
    reveal_strlit("uv1");
    assert(fixed_shape(t[68].0@)) by { assert(t[68].0 == "oneMinusDstColor"); assert(t[68].0@.len() == 16); assert(word_sig(t[68].0@, 16, 'o', 'n', 'r')); }
    assert(fixed_shape(t[69].0@)) by { assert(t[69].0 == "srcAlpha"); assert(t[69].0@.len() == 8); assert(word_sig(t[69].0@, 8, 's', 'r', 'a')); }
    assert(fixed_shape(t[70].0@)) by { assert(t[70].0 == "oneMinusSrcAlpha"); assert(t[70].0@.len() == 16); assert(word_sig(t[70].0@, 16, 'o', 'n', 'a')); }
    assert(fixed_shape(t[71].0@)) by { assert(t[71].0 == "dstAlpha"); assert(t[71].0@.len() == 8); assert(word_sig(t[71].0@, 8, 'd', 's', 'a')); }
    assert(fixed_shape(t[72].0@)) by { assert(t[72].0 == "oneMinusDstAlpha"); assert(t[72].0@.len() == 16); assert(word_sig(t[72].0@, 16, 'o', 'n', 'a')); }
    assert(fixed_shape(t[73].0@)) by { assert(t[73].0 == "srcAlphaSaturate"); assert(t[73].0@.len() == 16); assert(word_sig(t[73].0@, 16, 's', 'r', 'e')); }
    assert(fixed_shape(t[74].0@)) by { assert(t[74].0 == "position"); assert(t[74].0@.len() == 8); assert(word_sig(t[74].0@, 8, 'p', 'o', 'n')); }
    assert(fixed_shape(t[75].0@)) by { assert(t[75].0 == "normal"); assert(t[75].0@.len() == 6); assert(word_sig(t[75].0@, 6, 'n', 'o', 'l')); }
    assert(fixed_shape(t[76].0@)) by { assert(t[76].0 == "uv0"); assert(t[76].0@.len() == 3); assert(word_sig(t[76].0@, 3, 'u', 'v', '0')); }
    assert(fixed_shape(t[77].0@)) by { assert(t[77].0 == "uv1"); assert(t[77].0@.len() == 3); assert(word_sig(t[77].0@, 3, 'u', 'v', '1')); }
    assert(fixed_shape(t[78].0@)) by { assert(t[78].0 == "color"); assert(t[78].0@.len() == 5); assert(word_sig(t[78].0@, 5, 'c', 'o', 'r')); }
    assert(fixed_shape(t[79].0@)) by { assert(t[79].0 == "tangents"); assert(t[79].0@.len() == 8); assert(word_sig(t[79].0@, 8, 't', 'a', 's')); }
    assert(fixed_shape(t[80].0@)) by { assert(t[80].0 == "custom0"); assert(t[80].0@.len() == 7); assert(word_sig(t[80].0@, 7, 'c', 'u', '0')); }
    assert(fixed_shape(t[81].0@)) by { assert(t[81].0 == "custom1"); assert(t[81].0@.len() == 7); assert(word_sig(t[81].0@, 7, 'c', 'u', '1')); }
    assert(fixed_shape(t[82].0@)) by { assert(t[82].0 == "custom2"); assert(t[82].0@.len() == 7); assert(word_sig(t[82].0@, 7, 'c', 'u', '2')); }
    assert(fixed_shape(t[83].0@)) by { assert(t[83].0 == "custom3"); assert(t[83].0@.len() == 7); assert(word_sig(t[83].0@, 7, 'c', 'u', '3')); }
    assert(fixed_shape(t[84].0@)) by { assert(t[84].0 == "custom4"); assert(t[84].0@.len() == 7); assert(word_sig(t[84].0@, 7, 'c', 'u', '4')); }
    assert forall|j: int| 68 <= j < 85 implies fixed_shape(#[trigger] t[j].0@) by {
        if j == 68 {} else if j == 69 {} else if j == 70 {} else if j == 71 {} else if j == 72 {} else if j == 73 {} else if j == 74 {} else if j == 75 {} else if j == 76 {} else if j == 77 {} else if j == 78 {} else if j == 79 {} else if j == 80 {} else if j == 81 {} else if j == 82 {} else if j == 83 {} else if j == 84 {}
    }
}

proof fn lemma_fixed_shapes_5()
    ensures
        forall|j: int| 85 <= j < 102 ==> fixed_shape(#[trigger] fixed_keyword_table()[j].0@),
{
    let t = fixed_keyword_table();
    assert(t.len() == 133);
    reveal_strlit("boneIndices");
    reveal_strlit("boneWeights");
    reveal_strlit("bool");
    reveal_strlit("bool2");
    reveal_strlit("bool3");
    reveal_strlit("bool4");
    reveal_strlit("custom5");
    reveal_strlit("custom6");
    reveal_strlit("custom7");
    reveal_strlit("directionalLighting");
    reveal_strlit("dynamicLighting");
    reveal_strlit("fog");
    reveal_strlit("shadowReceiver");
    reveal_strlit("skinning");
    reveal_strlit("ssr");
    reveal_strlit("stereo");
    reveal_strlit("vsm");
    assert(fixed_shape(t[85].0@)) by { assert(t[85].0 == "custom5"); assert(t[85].0@.len() == 7); assert(word_sig(t[85].0@, 7, 'c', 'u', '5')); }
    assert(fixed_shape(t[86].0@)) by { assert(t[86].0 == "custom6"); assert(t[86].0@.len() == 7); assert(word_sig(t[86].0@, 7, 'c', 'u', '6')); }
    assert(fixed_shape(t[87].0@)) by { assert(t[87].0 == "custom7"); assert(t[87].0@.len() == 7); assert(word_sig(t[87].0@, 7, 'c', 'u', '7')); }
    assert(fixed_shape(t[88].0@)) by { assert(t[88].0 == "boneIndices"); assert(t[88].0@.len() == 11); assert(word_sig(t[88].0@, 11, 'b', 'o', 's')); }
    assert(fixed_shape(t[89].0@)) by { assert(t[89].0 == "boneWeights"); assert(t[89].0@.len() == 11); assert(word_sig(t[89].0@, 11, 'b', 'o', 's')); }
    assert(fixed_shape(t[90].0@)) by { assert(t[90].0 == "directionalLighting"); assert(t[90].0@.len() == 19); assert(word_sig(t[90].0@, 19, 'd', 'i', 'g')); }
    assert(fixed_shape(t[91].0@)) by { assert(t[91].0 == "dynamicLighting"); assert(t[91].0@.len() == 15); assert(word_sig(t[91].0@, 15, 'd', 'y', 'g')); }
    assert(fixed_shape(t[92].0@)) by { assert(t[92].0 == "shadowReceiver"); assert(t[92].0@.len() == 14); assert(word_sig(t[92].0@, 14, 's', 'h', 'r')); }
    assert(fixed_shape(t[93].0@)) by { assert(t[93].0 == "skinning"); assert(t[93].0@.len() == 8); assert(word_sig(t[93].0@, 8, 's', 'k', 'g')); }
    assert(fixed_shape(t[94].0@)) by { assert(t[94].0 == "fog"); assert(t[94].0@.len() == 3); assert(word_sig(t[94].0@, 3, 'f', 'o', 'g')); }
    assert(fixed_shape(t[95].0@)) by { assert(t[95].0 == "vsm"); assert(t[95].0@.len() == 3); assert(word_sig(t[95].0@, 3, 'v', 's', 'm')); }
    assert(fixed_shape(t[96].0@)) by { assert(t[96].0 == "ssr"); assert(t[96].0@.len() == 3); assert(word_sig(t[96].0@, 3, 's', 's', 'r')); }
    assert(fixed_shape(t[97].0@)) by { assert(t[97].0 == "stereo"); assert(t[97].0@.len() == 6); assert(word_sig(t[97].0@, 6, 's', 't', 'o')); }
    assert(fixed_shape(t[98].0@)) by { assert(t[98].0 == "bool"); assert(t[98].0@.len() == 4); assert(word_sig(t[98].0@, 4, 'b', 'o', 'l')); }
    assert(fixed_shape(t[99].0@)) by { assert(t[99].0 == "bool2"); assert(t[99].0@.len() == 5); assert(word_sig(t[99].0@, 5, 'b', 'o', '2')); }
    assert(fixed_shape(t[100].0@)) by { assert(t[100].0 == "bool3"); assert(t[100].0@.len() == 5); assert(word_sig(t[100].0@, 5, 'b', 'o', '3')); }
    assert(fixed_shape(t[101].0@)) by { assert(t[101].0 == "bool4"); assert(t[101].0@.len() == 5); assert(word_sig(t[101].0@, 5, 'b', 'o', '4')); }
    assert forall|j: int| 85 <= j < 102 implies fixed_shape(#[trigger] t[j].0@) by {
        if j == 85 {} else if j == 86 {} else if j == 87 {} else if j == 88 {} else if j == 89 {} else if j == 90 {} else if j == 91 {} else if j == 92 {} else if j == 93 {} else if j == 94 {} else if j == 95 {} else if j == 96 {} else if j == 97 {} else if j == 98 {} else if j == 99 {} else if j == 100 {} else if j == 101 {}
    }
}

proof fn lemma_fixed_shapes_6()
    ensures
        forall|j: int| 102 <= j < 119 ==> fixed_shape(#[trigger] fixed_keyword_table()[j].0@),
{
    let t = fixed_keyword_table();
    assert(t.len() == 133);
    reveal_strlit("float");
    reveal_strlit("float2");
    reveal_strlit("float3");
    reveal_strlit("float3x3");
    reveal_strlit("float4");
    reveal_strlit("float4x4");
    reveal_strlit("int");
    reveal_strlit("int2");
    reveal_strlit("int3");
    reveal_strlit("int4");
    reveal_strlit("mat3");
    reveal_strlit("mat4");
    reveal_strlit("sampler2d");
    reveal_strlit("uint");
    reveal_strlit("uint2");
    reveal_strlit("uint3");
    reveal_strlit("uint4");
    assert(fixed_shape(t[102].0@)) by { assert(t[102].0 == "int"); assert(t[102].0@.len() == 3); assert(word_sig(t[102].0@, 3, 'i', 'n', 't')); }
    assert(fixed_shape(t[103].0@)) by { assert(t[103].0 == "int2"); assert(t[103].0@.len() == 4); assert(word_sig(t[103].0@, 4, 'i', 'n', '2')); }
    assert(fixed_shape(t[104].0@)) by { assert(t[104].0 == "int3"); assert(t[104].0@.len() == 4); assert(word_sig(t[104].0@, 4, 'i', 'n', '3')); }
    assert(fixed_shape(t[105].0@)) by { assert(t[105].0 == "int4"); assert(t[105].0@.len() == 4); assert(word_sig(t[105].0@, 4, 'i', 'n', '4')); }
    assert(fixed_shape(t[106].0@)) by { assert(t[106].0 == "uint"); assert(t[106].0@.len() == 4); assert(word_sig(t[106].0@, 4, 'u', 'i', 't')); }
    assert(fixed_shape(t[107].0@)) by { assert(t[107].0 == "uint2"); assert(t[107].0@.len() == 5); assert(word_sig(t[107].0@, 5, 'u', 'i', '2')); }
    assert(fixed_shape(t[108].0@)) by { assert(t[108].0 == "uint3"); assert(t[108].0@.len() == 5); assert(word_sig(t[108].0@, 5, 'u', 'i', '3')); }
    assert(fixed_shape(t[109].0@)) by { assert(t[109].0 == "uint4"); assert(t[109].0@.len() == 5); assert(word_sig(t[109].0@, 5, 'u', 'i', '4')); }
    assert(fixed_shape(t[110].0@)) by { assert(t[110].0 == "float"); assert(t[110].0@.len() == 5); assert(word_sig(t[110].0@, 5, 'f', 'l', 't')); }
    assert(fixed_shape(t[111].0@)) by { assert(t[111].0 == "float2"); assert(t[111].0@.len() == 6); assert(word_sig(t[111].0@, 6, 'f', 'l', '2')); }
    assert(fixed_shape(t[112].0@)) by { assert(t[112].0 == "float3"); assert(t[112].0@.len() == 6); assert(word_sig(t[112].0@, 6, 'f', 'l', '3')); }
    assert(fixed_shape(t[113].0@)) by { assert(t[113].0 == "float4"); assert(t[113].0@.len() == 6); assert(word_sig(t[113].0@, 6, 'f', 'l', '4')); }
    assert(fixed_shape(t[114].0@)) by { assert(t[114].0 == "mat3"); assert(t[114].0@.len() == 4); assert(word_sig(t[114].0@, 4, 'm', 'a', '3')); }
    assert(fixed_shape(t[115].0@)) by { assert(t[115].0 == "mat4"); assert(t[115].0@.len() == 4); assert(word_sig(t[115].0@, 4, 'm', 'a', '4')); }
    assert(fixed_shape(t[116].0@)) by { assert(t[116].0 == "float3x3"); assert(t[116].0@.len() == 8); assert(word_sig(t[116].0@, 8, 'f', 'l', '3')); }
    assert(fixed_shape(t[117].0@)) by { assert(t[117].0 == "float4x4"); assert(t[117].0@.len() == 8); assert(word_sig(t[117].0@, 8, 'f', 'l', '4')); }
    assert(fixed_shape(t[118].0@)) by { assert(t[118].0 == "sampler2d"); assert(t[118].0@.len() == 9); assert(word_sig(t[118].0@, 9, 's', 'a', 'd')); }
    assert forall|j: int| 102 <= j < 119 implies fixed_shape(#[trigger] t[j].0@) by {
        if j == 102 {} else if j == 103 {} else if j == 104 {} else if j == 105 {} else if j == 106 {} else if j == 107 {} else if j == 108 {} else if j == 109 {} else if j == 110 {} else if j == 111 {} else if j == 112 {} else if j == 113 {} else if j == 114 {} else if j == 115 {} else if j == 116 {} else if j == 117 {} else if j == 118 {}
    }
}

proof fn lemma_fixed_shapes_7()
    ensures
        forall|j: int| 119 <= j < 133 ==> fixed_shape(#[trigger] fixed_keyword_table()[j].0@),
{
    let t = fixed_keyword_table();
    assert(t.len() == 133);
    reveal_strlit("compute");
    reveal_strlit("false");
    reveal_strlit("fragment");
    reveal_strlit("material");
    reveal_strlit("null");
    reveal_strlit("sampler2dArray");
    reveal_strlit("sampler3d");
    reveal_strlit("samplerCubemap");
    reveal_strlit("samplerCubemapArray");
    reveal_strlit("samplerExternal");
    reveal_strlit("subpassInput");
    reveal_strlit("tool");
    reveal_strlit("true");
    reveal_strlit("vertex");
    assert(fixed_shape(t[119].0@)) by { assert(t[119].0 == "sampler2dArray"); assert(t[119].0@.len() == 14); assert(word_sig(t[119].0@, 14, 's', 'a', 'y')); }
    assert(fixed_shape(t[120].0@)) by { assert(t[120].0 == "sampler3d"); assert(t[120].0@.len() == 9); assert(word_sig(t[120].0@, 9, 's', 'a', 'd')); }
    assert(fixed_shape(t[121].0@)) by { assert(t[121].0 == "samplerCubemap"); assert(t[121].0@.len() == 14); assert(word_sig(t[121].0@, 14, 's', 'a', 'p')); }
    assert(fixed_shape(t[122].0@)) by { assert(t[122].0 == "samplerExternal"); assert(t[122].0@.len() == 15); assert(word_sig(t[122].0@, 15, 's', 'a', 'l')); }
    assert(fixed_shape(t[123].0@)) by { assert(t[123].0 == "samplerCubemapArray"); assert(t[123].0@.len() == 19); assert(word_sig(t[123].0@, 19, 's', 'a', 'y')); }
    assert(fixed_shape(t[124].0@)) by { assert(t[124].0 == "subpassInput"); assert(t[124].0@.len() == 12); assert(word_sig(t[124].0@, 12, 's', 'u', 't')); }
    assert(fixed_shape(t[125].0@)) by { assert(t[125].0 == "true"); assert(t[125].0@.len() == 4); assert(word_sig(t[125].0@, 4, 't', 'r', 'e')); }
    assert(fixed_shape(t[126].0@)) by { assert(t[126].0 == "false"); assert(t[126].0@.len() == 5); assert(word_sig(t[126].0@, 5, 'f', 'a', 'e')); }
    assert(fixed_shape(t[127].0@)) by { assert(t[127].0 == "null"); assert(t[127].0@.len() == 4); assert(word_sig(t[127].0@, 4, 'n', 'u', 'l')); }
    assert(fixed_shape(t[128].0@)) by { assert(t[128].0 == "material"); assert(t[128].0@.len() == 8); assert(word_sig(t[128].0@, 8, 'm', 'a', 'l')); }
    assert(fixed_shape(t[129].0@)) by { assert(t[129].0 == "vertex"); assert(t[129].0@.len() == 6); assert(word_sig(t[129].0@, 6, 'v', 'e', 'x')); }
    assert(fixed_shape(t[130].0@)) by { assert(t[130].0 == "fragment"); assert(t[130].0@.len() == 8); assert(word_sig(t[130].0@, 8, 'f', 'r', 't')); }
    assert(fixed_shape(t[131].0@)) by { assert(t[131].0 == "compute"); assert(t[131].0@.len() == 7); assert(word_sig(t[131].0@, 7, 'c', 'o', 'e')); }
    assert(fixed_shape(t[132].0@)) by { assert(t[132].0 == "tool"); assert(t[132].0@.len() == 4); assert(word_sig(t[132].0@, 4, 't', 'o', 'l')); }
    assert forall|j: int| 119 <= j < 133 implies fixed_shape(#[trigger] t[j].0@) by {
        if j == 119 {} else if j == 120 {} else if j == 121 {} else if j == 122 {} else if j == 123 {} else if j == 124 {} else if j == 125 {} else if j == 126 {} else if j == 127 {} else if j == 128 {} else if j == 129 {} else if j == 130 {} else if j == 131 {} else if j == 132 {}
    }
}

/// Every word of the fixed keyword table has one of the listed shapes.
proof fn lemma_fixed_shapes()
    ensures
        forall|j: int| 0 <= j < fixed_keyword_table().len() ==> fixed_shape(#[trigger] fixed_keyword_table()[j].0@),
{
    lemma_fixed_shapes_0();
    lemma_fixed_shapes_1();
    lemma_fixed_shapes_2();
    lemma_fixed_shapes_3();
    lemma_fixed_shapes_4();
    lemma_fixed_shapes_5();
    lemma_fixed_shapes_6();
    lemma_fixed_shapes_7();
    assert(fixed_keyword_table().len() == 133);
}

/// Leaving out registrations that do not name `w` keeps its class.
proof fn lemma_last_reg_concat(r1: Seq<(&'static str, KeywordType)>, r2: Seq<(&'static str, KeywordType)>, w: Seq<char>)
    requires
        forall|j: int| 0 <= j < r2.len() ==> (#[trigger] r2[j]).0@ != w,
    ensures
        last_registration(r1 + r2, w) == last_registration(r1, w),
    decreases r2.len(),
{
    if r2.len() > 0 {
        assert((r1 + r2).drop_last() =~= r1 + r2.drop_last());
        assert((r1 + r2).last() == r2[r2.len() - 1]);
        assert forall|j: int| 0 <= j < r2.drop_last().len() implies (#[trigger] r2.drop_last()[j]).0@ != w by {
            assert(r2.drop_last()[j] == r2[j]);
        }
        lemma_last_reg_concat(r1, r2.drop_last(), w);
    } else {
        assert(r1 + r2 =~= r1);
    }
}

/// Where every registration gives class `k`, a registered word has class `k`.
proof fn lemma_last_reg_all(regs: Seq<(&'static str, KeywordType)>, w: Seq<char>, k: KeywordType, i: int)
    requires
        0 <= i < regs.len(),
        regs[i].0@ == w,
        forall|j: int| 0 <= j < regs.len() ==> (#[trigger] regs[j]).1 == k,
    ensures
        last_registration(regs, w) == Some(k),
    decreases regs.len(),
{
    if regs.last().0@ != w {
        assert(i < regs.len() - 1);
        assert(regs.drop_last()[i] == regs[i]);
        assert forall|j: int| 0 <= j < regs.drop_last().len() implies (#[trigger] regs.drop_last()[j]).1 == k by {
            assert(regs.drop_last()[j] == regs[j]);
        }
        lemma_last_reg_all(regs.drop_last(), w, k, i);
    } else {
        assert(regs.last() == regs[regs.len() - 1]);
    }
}

/// The last registration of a word is the one at `k` when none after it
/// names the word.
proof fn lemma_last_reg_at(regs: Seq<(&'static str, KeywordType)>, w: Seq<char>, k: int)
    requires
        0 <= k < regs.len(),
        regs[k].0@ == w,
        forall|j: int| k < j < regs.len() ==> (#[trigger] regs[j]).0@ != w,
    ensures
        last_registration(regs, w) == Some(regs[k].1),
    decreases regs.len(),
{
    if k < regs.len() - 1 {
        assert(regs.last() == regs[regs.len() - 1]);
        assert(regs.drop_last()[k] == regs[k]);
        assert forall|j: int| k < j < regs.drop_last().len() implies (#[trigger] regs.drop_last()[j]).0@ != w by {
            assert(regs.drop_last()[j] == regs[j]);
        }
        lemma_last_reg_at(regs.drop_last(), w, k);
    } else {
        assert(regs.last() == regs[regs.len() - 1]);
    }
}


proof fn lemma_property_classes_0()
    ensures
        forall|i: int| 0 <= i < 12 && (#[trigger] property_table()[i]).name@ != "name"@
            && property_table()[i].name@ != "instanced"@
            ==> spec_lookup_keyword(property_table()[i].name@) == Some(KeywordType::MaterialProperty),
{
    let pt = property_table();
    let fx = fixed_keyword_table();
    let pr = pt.map_values(|p: PropertyDef| (p.name, KeywordType::MaterialProperty));
    assert(keyword_registrations() == pr + fx);
    assert(pt.len() == 46);
    lemma_fixed_shapes();
    assert forall|j: int| 0 <= j < pr.len() implies (#[trigger] pr[j]).1 == KeywordType::MaterialProperty by {}
    reveal_strlit("apiLevel");
    reveal_strlit("blending");
    reveal_strlit("constants");
    reveal_strlit("domain");
    reveal_strlit("featureLevel");
    reveal_strlit("instanced");
    reveal_strlit("interpolation");
    reveal_strlit("name");
    reveal_strlit("parameters");
    reveal_strlit("quality");
    reveal_strlit("requires");
    reveal_strlit("shadingModel");
    reveal_strlit("variables");
    assert(pt[0].name == "name");
    assert(spec_lookup_keyword(pt[1].name@) == Some(KeywordType::MaterialProperty)) by {
        assert(pt[1].name == "apiLevel");
        assert(pt[1].name@.len() == 8);
        let w = pt[1].name@;
        assert(!fixed_shape(w));
        assert forall|j: int| 0 <= j < fx.len() implies (#[trigger] fx[j]).0@ != w by { assert(fixed_shape(fx[j].0@)); }
        lemma_last_reg_concat(pr, fx, w);
        assert(pr[1].0 == pt[1].name);
        lemma_last_reg_all(pr, w, KeywordType::MaterialProperty, 1);
    }
    assert(spec_lookup_keyword(pt[2].name@) == Some(KeywordType::MaterialProperty)) by {
        assert(pt[2].name == "featureLevel");
        assert(pt[2].name@.len() == 12);
        let w = pt[2].name@;
        assert(!fixed_shape(w));
        assert forall|j: int| 0 <= j < fx.len() implies (#[trigger] fx[j]).0@ != w by { assert(fixed_shape(fx[j].0@)); }
        lemma_last_reg_concat(pr, fx, w);
        assert(pr[2].0 == pt[2].name);
        lemma_last_reg_all(pr, w, KeywordType::MaterialProperty, 2);
    }
    assert(spec_lookup_keyword(pt[3].name@) == Some(KeywordType::MaterialProperty)) by {
        assert(pt[3].name == "shadingModel");
        assert(pt[3].name@.len() == 12);
        let w = pt[3].name@;
        assert(!fixed_shape(w));
        assert forall|j: int| 0 <= j < fx.len() implies (#[trigger] fx[j]).0@ != w by { assert(fixed_shape(fx[j].0@)); }
        lemma_last_reg_concat(pr, fx, w);
        assert(pr[3].0 == pt[3].name);
        lemma_last_reg_all(pr, w, KeywordType::MaterialProperty, 3);
    }
    assert(spec_lookup_keyword(pt[4].name@) == Some(KeywordType::MaterialProperty)) by {
        assert(pt[4].name == "domain");
        assert(pt[4].name@.len() == 6);
        let w = pt[4].name@;
        assert(!fixed_shape(w));
        assert forall|j: int| 0 <= j < fx.len() implies (#[trigger] fx[j]).0@ != w by { assert(fixed_shape(fx[j].0@)); }
        lemma_last_reg_concat(pr, fx, w);
        assert(pr[4].0 == pt[4].name);
        lemma_last_reg_all(pr, w, KeywordType::MaterialProperty, 4);
    }
    assert(spec_lookup_keyword(pt[5].name@) == Some(KeywordType::MaterialProperty)) by {
        assert(pt[5].name == "interpolation");
        assert(pt[5].name@.len() == 13);
        let w = pt[5].name@;
        assert(!fixed_shape(w));
        assert forall|j: int| 0 <= j < fx.len() implies (#[trigger] fx[j]).0@ != w by { assert(fixed_shape(fx[j].0@)); }
        lemma_last_reg_concat(pr, fx, w);
        assert(pr[5].0 == pt[5].name);
        lemma_last_reg_all(pr, w, KeywordType::MaterialProperty, 5);
    }
    assert(spec_lookup_keyword(pt[6].name@) == Some(KeywordType::MaterialProperty)) by {
        assert(pt[6].name == "quality");
        assert(pt[6].name@.len() == 7);
        let w = pt[6].name@;
        assert(!fixed_shape(w));
        assert forall|j: int| 0 <= j < fx.len() implies (#[trigger] fx[j]).0@ != w by { assert(fixed_shape(fx[j].0@)); }
        lemma_last_reg_concat(pr, fx, w);
        assert(pr[6].0 == pt[6].name);
        lemma_last_reg_all(pr, w, KeywordType::MaterialProperty, 6);
    }
    assert(spec_lookup_keyword(pt[7].name@) == Some(KeywordType::MaterialProperty)) by {
        assert(pt[7].name == "parameters");
        assert(pt[7].name@.len() == 10);
        let w = pt[7].name@;
        assert(!fixed_shape(w));
        assert forall|j: int| 0 <= j < fx.len() implies (#[trigger] fx[j]).0@ != w by { assert(fixed_shape(fx[j].0@)); }
        lemma_last_reg_concat(pr, fx, w);
        assert(pr[7].0 == pt[7].name);
        lemma_last_reg_all(pr, w, KeywordType::MaterialProperty, 7);
    }
    assert(spec_lookup_keyword(pt[8].name@) == Some(KeywordType::MaterialProperty)) by {
        assert(pt[8].name == "constants");
        assert(pt[8].name@.len() == 9);
        let w = pt[8].name@;
        assert(!fixed_shape(w));
        assert forall|j: int| 0 <= j < fx.len() implies (#[trigger] fx[j]).0@ != w by { assert(fixed_shape(fx[j].0@)); }
        lemma_last_reg_concat(pr, fx, w);
        assert(pr[8].0 == pt[8].name);
        lemma_last_reg_all(pr, w, KeywordType::MaterialProperty, 8);
    }
    assert(spec_lookup_keyword(pt[9].name@) == Some(KeywordType::MaterialProperty)) by {
        assert(pt[9].name == "variables");
        assert(pt[9].name@.len() == 9);
        let w = pt[9].name@;
        assert(!fixed_shape(w));
        assert forall|j: int| 0 <= j < fx.len() implies (#[trigger] fx[j]).0@ != w by { assert(fixed_shape(fx[j].0@)); }
        lemma_last_reg_concat(pr, fx, w);
        assert(pr[9].0 == pt[9].name);
        lemma_last_reg_all(pr, w, KeywordType::MaterialProperty, 9);
    }
    assert(spec_lookup_keyword(pt[10].name@) == Some(KeywordType::MaterialProperty)) by {
        assert(pt[10].name == "requires");
        assert(pt[10].name@.len() == 8);
        let w = pt[10].name@;
        assert(!fixed_shape(w));
        assert forall|j: int| 0 <= j < fx.len() implies (#[trigger] fx[j]).0@ != w by { assert(fixed_shape(fx[j].0@)); }
        lemma_last_reg_concat(pr, fx, w);
        assert(pr[10].0 == pt[10].name);
        lemma_last_reg_all(pr, w, KeywordType::MaterialProperty, 10);
    }
    assert(spec_lookup_keyword(pt[11].name@) == Some(KeywordType::MaterialProperty)) by {
        assert(pt[11].name == "blending");
        assert(pt[11].name@.len() == 8);
        let w = pt[11].name@;
        assert(!fixed_shape(w));
        assert forall|j: int| 0 <= j < fx.len() implies (#[trigger] fx[j]).0@ != w by { assert(fixed_shape(fx[j].0@)); }
        lemma_last_reg_concat(pr, fx, w);
        assert(pr[11].0 == pt[11].name);
        lemma_last_reg_all(pr, w, KeywordType::MaterialProperty, 11);
    }
    assert forall|i: int| 0 <= i < 12 && (#[trigger] pt[i]).name@ != "name"@ && pt[i].name@ != "instanced"@ implies spec_lookup_keyword(pt[i].name@) == Some(KeywordType::MaterialProperty) by {
        if i == 0 {} else if i == 1 {} else if i == 2 {} else if i == 3 {} else if i == 4 {} else if i == 5 {} else if i == 6 {} else if i == 7 {} else if i == 8 {} else if i == 9 {} else if i == 10 {} else if i == 11 {}
    }
}

proof fn lemma_property_classes_1()
    ensures
        forall|i: int| 12 <= i < 24 && (#[trigger] property_table()[i]).name@ != "name"@
            && property_table()[i].name@ != "instanced"@
            ==> spec_lookup_keyword(property_table()[i].name@) == Some(KeywordType::MaterialProperty),
{
    let pt = property_table();
    let fx = fixed_keyword_table();
    let pr = pt.map_values(|p: PropertyDef| (p.name, KeywordType::MaterialProperty));
    assert(keyword_registrations() == pr + fx);
    assert(pt.len() == 46);
    lemma_fixed_shapes();
    assert forall|j: int| 0 <= j < pr.len() implies (#[trigger] pr[j]).1 == KeywordType::MaterialProperty by {}
    reveal_strlit("alphaToCoverage");
    reveal_strlit("colorWrite");
    reveal_strlit("culling");
    reveal_strlit("depthCulling");
    reveal_strlit("depthWrite");
    reveal_strlit("doubleSided");
    reveal_strlit("instanced");
    reveal_strlit("maskThreshold");
    reveal_strlit("name");
    reveal_strlit("postLightingBlending");
    reveal_strlit("transparency");
    reveal_strlit("vertexDomain");
    reveal_strlit("vertexDomainDeviceJittered");
    assert(spec_lookup_keyword(pt[12].name@) == Some(KeywordType::MaterialProperty)) by {
        assert(pt[12].name == "postLightingBlending");
        assert(pt[12].name@.len() == 20);
        let w = pt[12].name@;
        assert(!fixed_shape(w));
        assert forall|j: int| 0 <= j < fx.len() implies (#[trigger] fx[j]).0@ != w by { assert(fixed_shape(fx[j].0@)); }
        lemma_last_reg_concat(pr, fx, w);
        assert(pr[12].0 == pt[12].name);
        lemma_last_reg_all(pr, w, KeywordType::MaterialProperty, 12);
    }
    assert(spec_lookup_keyword(pt[13].name@) == Some(KeywordType::MaterialProperty)) by {
        assert(pt[13].name == "transparency");
        assert(pt[13].name@.len() == 12);
        let w = pt[13].name@;
        assert(!fixed_shape(w));
        assert forall|j: int| 0 <= j < fx.len() implies (#[trigger] fx[j]).0@ != w by { assert(fixed_shape(fx[j].0@)); }
        lemma_last_reg_concat(pr, fx, w);
        assert(pr[13].0 == pt[13].name);
        lemma_last_reg_all(pr, w, KeywordType::MaterialProperty, 13);
    }
    assert(spec_lookup_keyword(pt[14].name@) == Some(KeywordType::MaterialProperty)) by {
        assert(pt[14].name == "maskThreshold");
        assert(pt[14].name@.len() == 13);
        let w = pt[14].name@;
        assert(!fixed_shape(w));
        assert forall|j: int| 0 <= j < fx.len() implies (#[trigger] fx[j]).0@ != w by { assert(fixed_shape(fx[j].0@)); }
        lemma_last_reg_concat(pr, fx, w);
        assert(pr[14].0 == pt[14].name);
        lemma_last_reg_all(pr, w, KeywordType::MaterialProperty, 14);
    }
    assert(spec_lookup_keyword(pt[15].name@) == Some(KeywordType::MaterialProperty)) by {
        assert(pt[15].name == "alphaToCoverage");
        assert(pt[15].name@.len() == 15);
        let w = pt[15].name@;
        assert(!fixed_shape(w));
        assert forall|j: int| 0 <= j < fx.len() implies (#[trigger] fx[j]).0@ != w by { assert(fixed_shape(fx[j].0@)); }
        lemma_last_reg_concat(pr, fx, w);
        assert(pr[15].0 == pt[15].name);
        lemma_last_reg_all(pr, w, KeywordType::MaterialProperty, 15);
    }
    assert(spec_lookup_keyword(pt[16].name@) == Some(KeywordType::MaterialProperty)) by {
        assert(pt[16].name == "vertexDomain");
        assert(pt[16].name@.len() == 12);
        let w = pt[16].name@;
        assert(!fixed_shape(w));
        assert forall|j: int| 0 <= j < fx.len() implies (#[trigger] fx[j]).0@ != w by { assert(fixed_shape(fx[j].0@)); }
        lemma_last_reg_concat(pr, fx, w);
        assert(pr[16].0 == pt[16].name);
        lemma_last_reg_all(pr, w, KeywordType::MaterialProperty, 16);
    }
    assert(spec_lookup_keyword(pt[17].name@) == Some(KeywordType::MaterialProperty)) by {
        assert(pt[17].name == "vertexDomainDeviceJittered");
        assert(pt[17].name@.len() == 26);
        let w = pt[17].name@;
        assert(!fixed_shape(w));
        assert forall|j: int| 0 <= j < fx.len() implies (#[trigger] fx[j]).0@ != w by { assert(fixed_shape(fx[j].0@)); }
        lemma_last_reg_concat(pr, fx, w);
        assert(pr[17].0 == pt[17].name);
        lemma_last_reg_all(pr, w, KeywordType::MaterialProperty, 17);
    }
    assert(spec_lookup_keyword(pt[18].name@) == Some(KeywordType::MaterialProperty)) by {
        assert(pt[18].name == "culling");
        assert(pt[18].name@.len() == 7);
        let w = pt[18].name@;
        assert(!fixed_shape(w));
        assert forall|j: int| 0 <= j < fx.len() implies (#[trigger] fx[j]).0@ != w by { assert(fixed_shape(fx[j].0@)); }
        lemma_last_reg_concat(pr, fx, w);
        assert(pr[18].0 == pt[18].name);
        lemma_last_reg_all(pr, w, KeywordType::MaterialProperty, 18);
    }
    assert(spec_lookup_keyword(pt[19].name@) == Some(KeywordType::MaterialProperty)) by {
        assert(pt[19].name == "colorWrite");
        assert(pt[19].name@.len() == 10);
        let w = pt[19].name@;
        assert(!fixed_shape(w));
        assert forall|j: int| 0 <= j < fx.len() implies (#[trigger] fx[j]).0@ != w by { assert(fixed_shape(fx[j].0@)); }
        lemma_last_reg_concat(pr, fx, w);
        assert(pr[19].0 == pt[19].name);
        lemma_last_reg_all(pr, w, KeywordType::MaterialProperty, 19);
    }
    assert(spec_lookup_keyword(pt[20].name@) == Some(KeywordType::MaterialProperty)) by {
        assert(pt[20].name == "depthWrite");
        assert(pt[20].name@.len() == 10);
        let w = pt[20].name@;
        assert(!fixed_shape(w));
        assert forall|j: int| 0 <= j < fx.len() implies (#[trigger] fx[j]).0@ != w by { assert(fixed_shape(fx[j].0@)); }
        lemma_last_reg_concat(pr, fx, w);
        assert(pr[20].0 == pt[20].name);
        lemma_last_reg_all(pr, w, KeywordType::MaterialProperty, 20);
    }
    assert(spec_lookup_keyword(pt[21].name@) == Some(KeywordType::MaterialProperty)) by {
        assert(pt[21].name == "depthCulling");
        assert(pt[21].name@.len() == 12);
        let w = pt[21].name@;
        assert(!fixed_shape(w));
        assert forall|j: int| 0 <= j < fx.len() implies (#[trigger] fx[j]).0@ != w by { assert(fixed_shape(fx[j].0@)); }
        lemma_last_reg_concat(pr, fx, w);
        assert(pr[21].0 == pt[21].name);
        lemma_last_reg_all(pr, w, KeywordType::MaterialProperty, 21);
    }
    assert(spec_lookup_keyword(pt[22].name@) == Some(KeywordType::MaterialProperty)) by {
        assert(pt[22].name == "doubleSided");
        assert(pt[22].name@.len() == 11);
        let w = pt[22].name@;
        assert(!fixed_shape(w));
        assert forall|j: int| 0 <= j < fx.len() implies (#[trigger] fx[j]).0@ != w by { assert(fixed_shape(fx[j].0@)); }
        lemma_last_reg_concat(pr, fx, w);
        assert(pr[22].0 == pt[22].name);
        lemma_last_reg_all(pr, w, KeywordType::MaterialProperty, 22);
    }
    assert(pt[23].name == "instanced");
    assert forall|i: int| 12 <= i < 24 && (#[trigger] pt[i]).name@ != "name"@ && pt[i].name@ != "instanced"@ implies spec_lookup_keyword(pt[i].name@) == Some(KeywordType::MaterialProperty) by {
        if i == 12 {} else if i == 13 {} else if i == 14 {} else if i == 15 {} else if i == 16 {} else if i == 17 {} else if i == 18 {} else if i == 19 {} else if i == 20 {} else if i == 21 {} else if i == 22 {} else if i == 23 {}
    }
}

proof fn lemma_property_classes_2()
    ensures
        forall|i: int| 24 <= i < 36 && (#[trigger] property_table()[i]).name@ != "name"@
            && property_table()[i].name@ != "instanced"@
            ==> spec_lookup_keyword(property_table()[i].name@) == Some(KeywordType::MaterialProperty),
{
    let pt = property_table();
    let fx = fixed_keyword_table();
    let pr = pt.map_values(|p: PropertyDef| (p.name, KeywordType::MaterialProperty));
    assert(keyword_registrations() == pr + fx);
    assert(pt.len() == 46);
    lemma_fixed_shapes();
    assert forall|j: int| 0 <= j < pr.len() implies (#[trigger] pr[j]).1 == KeywordType::MaterialProperty by {}
    reveal_strlit("clearCoatIorChange");
    reveal_strlit("customSurfaceShading");
    reveal_strlit("instanced");
    reveal_strlit("multiBounceAmbientOcclusion");
    reveal_strlit("name");
    reveal_strlit("reflections");
    reveal_strlit("refractionMode");
    reveal_strlit("refractionType");
    reveal_strlit("shadowMultiplier");
    reveal_strlit("specularAmbientOcclusion");
    reveal_strlit("specularAntiAliasing");
    reveal_strlit("specularAntiAliasingThreshold");
    reveal_strlit("specularAntiAliasingVariance");
    reveal_strlit("transparentShadow");
    assert(spec_lookup_keyword(pt[24].name@) == Some(KeywordType::MaterialProperty)) by {
        assert(pt[24].name == "refractionMode");
        assert(pt[24].name@.len() == 14);
        let w = pt[24].name@;
        assert(!fixed_shape(w));
        assert forall|j: int| 0 <= j < fx.len() implies (#[trigger] fx[j]).0@ != w by { assert(fixed_shape(fx[j].0@)); }
        lemma_last_reg_concat(pr, fx, w);
        assert(pr[24].0 == pt[24].name);
        lemma_last_reg_all(pr, w, KeywordType::MaterialProperty, 24);
    }
    assert(spec_lookup_keyword(pt[25].name@) == Some(KeywordType::MaterialProperty)) by {
        assert(pt[25].name == "refractionType");
        assert(pt[25].name@.len() == 14);
        let w = pt[25].name@;
        assert(!fixed_shape(w));
        assert forall|j: int| 0 <= j < fx.len() implies (#[trigger] fx[j]).0@ != w by { assert(fixed_shape(fx[j].0@)); }
        lemma_last_reg_concat(pr, fx, w);
        assert(pr[25].0 == pt[25].name);
        lemma_last_reg_all(pr, w, KeywordType::MaterialProperty, 25);
    }
    assert(spec_lookup_keyword(pt[26].name@) == Some(KeywordType::MaterialProperty)) by {
        assert(pt[26].name == "reflections");
        assert(pt[26].name@.len() == 11);
        let w = pt[26].name@;
        assert(!fixed_shape(w));
        assert forall|j: int| 0 <= j < fx.len() implies (#[trigger] fx[j]).0@ != w by { assert(fixed_shape(fx[j].0@)); }
        lemma_last_reg_concat(pr, fx, w);
        assert(pr[26].0 == pt[26].name);
        lemma_last_reg_all(pr, w, KeywordType::MaterialProperty, 26);
    }
    assert(spec_lookup_keyword(pt[27].name@) == Some(KeywordType::MaterialProperty)) by {
        assert(pt[27].name == "shadowMultiplier");
        assert(pt[27].name@.len() == 16);
        let w = pt[27].name@;
        assert(!fixed_shape(w));
        assert forall|j: int| 0 <= j < fx.len() implies (#[trigger] fx[j]).0@ != w by { assert(fixed_shape(fx[j].0@)); }
        lemma_last_reg_concat(pr, fx, w);
        assert(pr[27].0 == pt[27].name);
        lemma_last_reg_all(pr, w, KeywordType::MaterialProperty, 27);
    }
    assert(spec_lookup_keyword(pt[28].name@) == Some(KeywordType::MaterialProperty)) by {
        assert(pt[28].name == "transparentShadow");
        assert(pt[28].name@.len() == 17);
        let w = pt[28].name@;
        assert(!fixed_shape(w));
        assert forall|j: int| 0 <= j < fx.len() implies (#[trigger] fx[j]).0@ != w by { assert(fixed_shape(fx[j].0@)); }
        lemma_last_reg_concat(pr, fx, w);
        assert(pr[28].0 == pt[28].name);
        lemma_last_reg_all(pr, w, KeywordType::MaterialProperty, 28);
    }
    assert(spec_lookup_keyword(pt[29].name@) == Some(KeywordType::MaterialProperty)) by {
        assert(pt[29].name == "clearCoatIorChange");
        assert(pt[29].name@.len() == 18);
        let w = pt[29].name@;
        assert(!fixed_shape(w));
        assert forall|j: int| 0 <= j < fx.len() implies (#[trigger] fx[j]).0@ != w by { assert(fixed_shape(fx[j].0@)); }
        lemma_last_reg_concat(pr, fx, w);
        assert(pr[29].0 == pt[29].name);
        lemma_last_reg_all(pr, w, KeywordType::MaterialProperty, 29);
    }
    assert(spec_lookup_keyword(pt[30].name@) == Some(KeywordType::MaterialProperty)) by {
        assert(pt[30].name == "multiBounceAmbientOcclusion");
        assert(pt[30].name@.len() == 27);
        let w = pt[30].name@;
        assert(!fixed_shape(w));
        assert forall|j: int| 0 <= j < fx.len() implies (#[trigger] fx[j]).0@ != w by { assert(fixed_shape(fx[j].0@)); }
        lemma_last_reg_concat(pr, fx, w);
        assert(pr[30].0 == pt[30].name);
        lemma_last_reg_all(pr, w, KeywordType::MaterialProperty, 30);
    }
    assert(spec_lookup_keyword(pt[31].name@) == Some(KeywordType::MaterialProperty)) by {
        assert(pt[31].name == "specularAmbientOcclusion");
        assert(pt[31].name@.len() == 24);
        let w = pt[31].name@;
        assert(!fixed_shape(w));
        assert forall|j: int| 0 <= j < fx.len() implies (#[trigger] fx[j]).0@ != w by { assert(fixed_shape(fx[j].0@)); }
        lemma_last_reg_concat(pr, fx, w);
        assert(pr[31].0 == pt[31].name);
        lemma_last_reg_all(pr, w, KeywordType::MaterialProperty, 31);
    }
    assert(spec_lookup_keyword(pt[32].name@) == Some(KeywordType::MaterialProperty)) by {
        assert(pt[32].name == "specularAntiAliasing");
        assert(pt[32].name@.len() == 20);
        let w = pt[32].name@;
        assert(!fixed_shape(w));
        assert forall|j: int| 0 <= j < fx.len() implies (#[trigger] fx[j]).0@ != w by { assert(fixed_shape(fx[j].0@)); }
        lemma_last_reg_concat(pr, fx, w);
        assert(pr[32].0 == pt[32].name);
        lemma_last_reg_all(pr, w, KeywordType::MaterialProperty, 32);
    }
    assert(spec_lookup_keyword(pt[33].name@) == Some(KeywordType::MaterialProperty)) by {
        assert(pt[33].name == "specularAntiAliasingVariance");
        assert(pt[33].name@.len() == 28);
        let w = pt[33].name@;
        assert(!fixed_shape(w));
        assert forall|j: int| 0 <= j < fx.len() implies (#[trigger] fx[j]).0@ != w by { assert(fixed_shape(fx[j].0@)); }
        lemma_last_reg_concat(pr, fx, w);
        assert(pr[33].0 == pt[33].name);
        lemma_last_reg_all(pr, w, KeywordType::MaterialProperty, 33);
    }
    assert(spec_lookup_keyword(pt[34].name@) == Some(KeywordType::MaterialProperty)) by {
        assert(pt[34].name == "specularAntiAliasingThreshold");
        assert(pt[34].name@.len() == 29);
        let w = pt[34].name@;
        assert(!fixed_shape(w));
        assert forall|j: int| 0 <= j < fx.len() implies (#[trigger] fx[j]).0@ != w by { assert(fixed_shape(fx[j].0@)); }
        lemma_last_reg_concat(pr, fx, w);
        assert(pr[34].0 == pt[34].name);
        lemma_last_reg_all(pr, w, KeywordType::MaterialProperty, 34);
    }
    assert(spec_lookup_keyword(pt[35].name@) == Some(KeywordType::MaterialProperty)) by {
        assert(pt[35].name == "customSurfaceShading");
        assert(pt[35].name@.len() == 20);
        let w = pt[35].name@;
        assert(!fixed_shape(w));
        assert forall|j: int| 0 <= j < fx.len() implies (#[trigger] fx[j]).0@ != w by { assert(fixed_shape(fx[j].0@)); }
        lemma_last_reg_concat(pr, fx, w);
        assert(pr[35].0 == pt[35].name);
        lemma_last_reg_all(pr, w, KeywordType::MaterialProperty, 35);
    }
    assert forall|i: int| 24 <= i < 36 && (#[trigger] pt[i]).name@ != "name"@ && pt[i].name@ != "instanced"@ implies spec_lookup_keyword(pt[i].name@) == Some(KeywordType::MaterialProperty) by {
        if i == 24 {} else if i == 25 {} else if i == 26 {} else if i == 27 {} else if i == 28 {} else if i == 29 {} else if i == 30 {} else if i == 31 {} else if i == 32 {} else if i == 33 {} else if i == 34 {} else if i == 35 {}
    }
}

proof fn lemma_property_classes_3()
    ensures
        forall|i: int| 36 <= i < 46 && (#[trigger] property_table()[i]).name@ != "name"@
            && property_table()[i].name@ != "instanced"@
            ==> spec_lookup_keyword(property_table()[i].name@) == Some(KeywordType::MaterialProperty),
{
    let pt = property_table();
    let fx = fixed_keyword_table();
    let pr = pt.map_values(|p: PropertyDef| (p.name, KeywordType::MaterialProperty));
    assert(keyword_registrations() == pr + fx);
    assert(pt.len() == 46);
    lemma_fixed_shapes();
    assert forall|j: int| 0 <= j < pr.len() implies (#[trigger] pr[j]).1 == KeywordType::MaterialProperty by {}
    reveal_strlit("flipUV");
    reveal_strlit("framebufferFetch");
    reveal_strlit("groupSize");
    reveal_strlit("instanced");
    reveal_strlit("legacyMorphing");
    reveal_strlit("linearFog");
    reveal_strlit("name");
    reveal_strlit("shadowFarAttenuation");
    reveal_strlit("stereoscopicEyeCount");
    reveal_strlit("stereoscopicType");
    reveal_strlit("useDefaultDepthVariant");
    reveal_strlit("variantFilter");
    assert(spec_lookup_keyword(pt[36].name@) == Some(KeywordType::MaterialProperty)) by {
        assert(pt[36].name == "flipUV");
        assert(pt[36].name@.len() == 6);
        let w = pt[36].name@;
        assert(!fixed_shape(w));
        assert forall|j: int| 0 <= j < fx.len() implies (#[trigger] fx[j]).0@ != w by { assert(fixed_shape(fx[j].0@)); }
        lemma_last_reg_concat(pr, fx, w);
        assert(pr[36].0 == pt[36].name);
        lemma_last_reg_all(pr, w, KeywordType::MaterialProperty, 36);
    }
    assert(spec_lookup_keyword(pt[37].name@) == Some(KeywordType::MaterialProperty)) by {
        assert(pt[37].name == "linearFog");
        assert(pt[37].name@.len() == 9);
        let w = pt[37].name@;
        assert(!fixed_shape(w));
        assert forall|j: int| 0 <= j < fx.len() implies (#[trigger] fx[j]).0@ != w by { assert(fixed_shape(fx[j].0@)); }
        lemma_last_reg_concat(pr, fx, w);
        assert(pr[37].0 == pt[37].name);
        lemma_last_reg_all(pr, w, KeywordType::MaterialProperty, 37);
    }
    assert(spec_lookup_keyword(pt[38].name@) == Some(KeywordType::MaterialProperty)) by {
        assert(pt[38].name == "shadowFarAttenuation");
        assert(pt[38].name@.len() == 20);
        let w = pt[38].name@;
        assert(!fixed_shape(w));
        assert forall|j: int| 0 <= j < fx.len() implies (#[trigger] fx[j]).0@ != w by { assert(fixed_shape(fx[j].0@)); }
        lemma_last_reg_concat(pr, fx, w);
        assert(pr[38].0 == pt[38].name);
        lemma_last_reg_all(pr, w, KeywordType::MaterialProperty, 38);
    }
    assert(spec_lookup_keyword(pt[39].name@) == Some(KeywordType::MaterialProperty)) by {
        assert(pt[39].name == "framebufferFetch");
        assert(pt[39].name@.len() == 16);
        let w = pt[39].name@;
        assert(!fixed_shape(w));
        assert forall|j: int| 0 <= j < fx.len() implies (#[trigger] fx[j]).0@ != w by { assert(fixed_shape(fx[j].0@)); }
        lemma_last_reg_concat(pr, fx, w);
        assert(pr[39].0 == pt[39].name);
        lemma_last_reg_all(pr, w, KeywordType::MaterialProperty, 39);
    }
    assert(spec_lookup_keyword(pt[40].name@) == Some(KeywordType::MaterialProperty)) by {
        assert(pt[40].name == "legacyMorphing");
        assert(pt[40].name@.len() == 14);
        let w = pt[40].name@;
        assert(!fixed_shape(w));
        assert forall|j: int| 0 <= j < fx.len() implies (#[trigger] fx[j]).0@ != w by { assert(fixed_shape(fx[j].0@)); }
        lemma_last_reg_concat(pr, fx, w);
        assert(pr[40].0 == pt[40].name);
        lemma_last_reg_all(pr, w, KeywordType::MaterialProperty, 40);
    }
    assert(spec_lookup_keyword(pt[41].name@) == Some(KeywordType::MaterialProperty)) by {
        assert(pt[41].name == "useDefaultDepthVariant");
        assert(pt[41].name@.len() == 22);
        let w = pt[41].name@;
        assert(!fixed_shape(w));
        assert forall|j: int| 0 <= j < fx.len() implies (#[trigger] fx[j]).0@ != w by { assert(fixed_shape(fx[j].0@)); }
        lemma_last_reg_concat(pr, fx, w);
        assert(pr[41].0 == pt[41].name);
        lemma_last_reg_all(pr, w, KeywordType::MaterialProperty, 41);
    }
    assert(spec_lookup_keyword(pt[42].name@) == Some(KeywordType::MaterialProperty)) by {
        assert(pt[42].name == "variantFilter");
        assert(pt[42].name@.len() == 13);
        let w = pt[42].name@;
        assert(!fixed_shape(w));
        assert forall|j: int| 0 <= j < fx.len() implies (#[trigger] fx[j]).0@ != w by { assert(fixed_shape(fx[j].0@)); }
        lemma_last_reg_concat(pr, fx, w);
        assert(pr[42].0 == pt[42].name);
        lemma_last_reg_all(pr, w, KeywordType::MaterialProperty, 42);
    }
    assert(spec_lookup_keyword(pt[43].name@) == Some(KeywordType::MaterialProperty)) by {
        assert(pt[43].name == "groupSize");
        assert(pt[43].name@.len() == 9);
        let w = pt[43].name@;
        assert(!fixed_shape(w));
        assert forall|j: int| 0 <= j < fx.len() implies (#[trigger] fx[j]).0@ != w by { assert(fixed_shape(fx[j].0@)); }
        lemma_last_reg_concat(pr, fx, w);
        assert(pr[43].0 == pt[43].name);
        lemma_last_reg_all(pr, w, KeywordType::MaterialProperty, 43);
    }
    assert(spec_lookup_keyword(pt[44].name@) == Some(KeywordType::MaterialProperty)) by {
        assert(pt[44].name == "stereoscopicType");
        assert(pt[44].name@.len() == 16);
        let w = pt[44].name@;
        assert(!fixed_shape(w));
        assert forall|j: int| 0 <= j < fx.len() implies (#[trigger] fx[j]).0@ != w by { assert(fixed_shape(fx[j].0@)); }
        lemma_last_reg_concat(pr, fx, w);
        assert(pr[44].0 == pt[44].name);
        lemma_last_reg_all(pr, w, KeywordType::MaterialProperty, 44);
    }
    assert(spec_lookup_keyword(pt[45].name@) == Some(KeywordType::MaterialProperty)) by {
        assert(pt[45].name == "stereoscopicEyeCount");
        assert(pt[45].name@.len() == 20);
        let w = pt[45].name@;
        assert(!fixed_shape(w));
        assert forall|j: int| 0 <= j < fx.len() implies (#[trigger] fx[j]).0@ != w by { assert(fixed_shape(fx[j].0@)); }
        lemma_last_reg_concat(pr, fx, w);
        assert(pr[45].0 == pt[45].name);
        lemma_last_reg_all(pr, w, KeywordType::MaterialProperty, 45);
    }
    assert forall|i: int| 36 <= i < 46 && (#[trigger] pt[i]).name@ != "name"@ && pt[i].name@ != "instanced"@ implies spec_lookup_keyword(pt[i].name@) == Some(KeywordType::MaterialProperty) by {
        if i == 36 {} else if i == 37 {} else if i == 38 {} else if i == 39 {} else if i == 40 {} else if i == 41 {} else if i == 42 {} else if i == 43 {} else if i == 44 {} else if i == 45 {}
    }
}

/// The classes of the keyword map: every property name is a material
/// property, except `name` and `instanced`, which later registrations take
/// over; the block keywords are top-level blocks; `true` and `false` are
/// booleans and `null` is null.
pub proof fn lemma_keyword_classes()
    ensures
        forall|i: int| 0 <= i < property_table().len() && (#[trigger] property_table()[i]).name@ != "name"@
            && property_table()[i].name@ != "instanced"@
            ==> spec_lookup_keyword(property_table()[i].name@) == Some(KeywordType::MaterialProperty),
        spec_lookup_keyword("material"@) == Some(KeywordType::TopLevelBlock),
        spec_lookup_keyword("vertex"@) == Some(KeywordType::TopLevelBlock),
        spec_lookup_keyword("fragment"@) == Some(KeywordType::TopLevelBlock),
        spec_lookup_keyword("compute"@) == Some(KeywordType::TopLevelBlock),
        spec_lookup_keyword("tool"@) == Some(KeywordType::TopLevelBlock),
        spec_lookup_keyword("true"@) == Some(KeywordType::BoolLiteral),
        spec_lookup_keyword("false"@) == Some(KeywordType::BoolLiteral),
        spec_lookup_keyword("null"@) == Some(KeywordType::NullLiteral),
{
    lemma_property_classes_0();
    lemma_property_classes_1();
    lemma_property_classes_2();
    lemma_property_classes_3();
    assert(property_table().len() == 46);
    let pt = property_table();
    let fx = fixed_keyword_table();
    let pr = pt.map_values(|p: PropertyDef| (p.name, KeywordType::MaterialProperty));
    let regs = keyword_registrations();
    assert(regs == pr + fx);
    assert(fx.len() == 133);
    reveal_strlit("material");
    reveal_strlit("vertex");
    reveal_strlit("fragment");
    reveal_strlit("compute");
    reveal_strlit("tool");
    reveal_strlit("true");
    reveal_strlit("false");
    reveal_strlit("null");
    assert(spec_lookup_keyword("material"@) == Some(KeywordType::TopLevelBlock)) by {
        assert(regs[174] == fx[128]);
        assert(fx[128].0 == "material");
        assert forall|j: int| 174 < j < regs.len() implies (#[trigger] regs[j]).0@ != "material"@ by {
            assert(regs[j] == fx[j - 46]);
            if j == 175 { assert(fx[129].0 == "vertex"); assert(fx[129].0@.len() == 6); }
            if j == 176 { assert(fx[130].0 == "fragment"); assert(fx[130].0@.len() == 8); assert(fx[130].0@[0] != "material"@[0]); }
            if j == 177 { assert(fx[131].0 == "compute"); assert(fx[131].0@.len() == 7); }
            if j == 178 { assert(fx[132].0 == "tool"); assert(fx[132].0@.len() == 4); }
        }
        lemma_last_reg_at(regs, "material"@, 174);
    }
    assert(spec_lookup_keyword("vertex"@) == Some(KeywordType::TopLevelBlock)) by {
        assert(regs[175] == fx[129]);
        assert(fx[129].0 == "vertex");
        assert forall|j: int| 175 < j < regs.len() implies (#[trigger] regs[j]).0@ != "vertex"@ by {
            assert(regs[j] == fx[j - 46]);
            if j == 176 { assert(fx[130].0 == "fragment"); assert(fx[130].0@.len() == 8); }
            if j == 177 { assert(fx[131].0 == "compute"); assert(fx[131].0@.len() == 7); }
            if j == 178 { assert(fx[132].0 == "tool"); assert(fx[132].0@.len() == 4); }
        }
        lemma_last_reg_at(regs, "vertex"@, 175);
    }
    assert(spec_lookup_keyword("fragment"@) == Some(KeywordType::TopLevelBlock)) by {
        assert(regs[176] == fx[130]);
        assert(fx[130].0 == "fragment");
        assert forall|j: int| 176 < j < regs.len() implies (#[trigger] regs[j]).0@ != "fragment"@ by {
            assert(regs[j] == fx[j - 46]);
            if j == 177 { assert(fx[131].0 == "compute"); assert(fx[131].0@.len() == 7); }
            if j == 178 { assert(fx[132].0 == "tool"); assert(fx[132].0@.len() == 4); }
        }
        lemma_last_reg_at(regs, "fragment"@, 176);
    }
    assert(spec_lookup_keyword("compute"@) == Some(KeywordType::TopLevelBlock)) by {
        assert(regs[177] == fx[131]);
        assert(fx[131].0 == "compute");
        assert forall|j: int| 177 < j < regs.len() implies (#[trigger] regs[j]).0@ != "compute"@ by {
            assert(regs[j] == fx[j - 46]);
            if j == 178 { assert(fx[132].0 == "tool"); assert(fx[132].0@.len() == 4); }
        }
        lemma_last_reg_at(regs, "compute"@, 177);
    }
    assert(spec_lookup_keyword("tool"@) == Some(KeywordType::TopLevelBlock)) by {
        assert(regs[178] == fx[132]);
        assert(fx[132].0 == "tool");
        assert forall|j: int| 178 < j < regs.len() implies (#[trigger] regs[j]).0@ != "tool"@ by {
            assert(regs[j] == fx[j - 46]);
        }
        lemma_last_reg_at(regs, "tool"@, 178);
    }
    assert(spec_lookup_keyword("true"@) == Some(KeywordType::BoolLiteral)) by {
        assert(regs[171] == fx[125]);
        assert(fx[125].0 == "true");
        assert forall|j: int| 171 < j < regs.len() implies (#[trigger] regs[j]).0@ != "true"@ by {
            assert(regs[j] == fx[j - 46]);
            if j == 172 { assert(fx[126].0 == "false"); assert(fx[126].0@.len() == 5); }
            if j == 173 { assert(fx[127].0 == "null"); assert(fx[127].0@.len() == 4); assert(fx[127].0@[0] != "true"@[0]); }
            if j == 174 { assert(fx[128].0 == "material"); assert(fx[128].0@.len() == 8); }
            if j == 175 { assert(fx[129].0 == "vertex"); assert(fx[129].0@.len() == 6); }
            if j == 176 { assert(fx[130].0 == "fragment"); assert(fx[130].0@.len() == 8); }
            if j == 177 { assert(fx[131].0 == "compute"); assert(fx[131].0@.len() == 7); }
            if j == 178 { assert(fx[132].0 == "tool"); assert(fx[132].0@.len() == 4); assert(fx[132].0@[1] != "true"@[1]); }
        }
        lemma_last_reg_at(regs, "true"@, 171);
    }
    assert(spec_lookup_keyword("false"@) == Some(KeywordType::BoolLiteral)) by {
        assert(regs[172] == fx[126]);
        assert(fx[126].0 == "false");
        assert forall|j: int| 172 < j < regs.len() implies (#[trigger] regs[j]).0@ != "false"@ by {
            assert(regs[j] == fx[j - 46]);
            if j == 173 { assert(fx[127].0 == "null"); assert(fx[127].0@.len() == 4); }
            if j == 174 { assert(fx[128].0 == "material"); assert(fx[128].0@.len() == 8); }
            if j == 175 { assert(fx[129].0 == "vertex"); assert(fx[129].0@.len() == 6); }
            if j == 176 { assert(fx[130].0 == "fragment"); assert(fx[130].0@.len() == 8); }
            if j == 177 { assert(fx[131].0 == "compute"); assert(fx[131].0@.len() == 7); }
            if j == 178 { assert(fx[132].0 == "tool"); assert(fx[132].0@.len() == 4); }
        }
        lemma_last_reg_at(regs, "false"@, 172);
    }
    assert(spec_lookup_keyword("null"@) == Some(KeywordType::NullLiteral)) by {
        assert(regs[173] == fx[127]);
        assert(fx[127].0 == "null");
        assert forall|j: int| 173 < j < regs.len() implies (#[trigger] regs[j]).0@ != "null"@ by {
            assert(regs[j] == fx[j - 46]);
            if j == 174 { assert(fx[128].0 == "material"); assert(fx[128].0@.len() == 8); }
            if j == 175 { assert(fx[129].0 == "vertex"); assert(fx[129].0@.len() == 6); }
            if j == 176 { assert(fx[130].0 == "fragment"); assert(fx[130].0@.len() == 8); }
            if j == 177 { assert(fx[131].0 == "compute"); assert(fx[131].0@.len() == 7); }
            if j == 178 { assert(fx[132].0 == "tool"); assert(fx[132].0@.len() == 4); assert(fx[132].0@[0] != "null"@[0]); }
        }
        lemma_last_reg_at(regs, "null"@, 173);
    }
}

} // verus!
