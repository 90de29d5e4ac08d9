//! Vertex layout descriptors handed to the GPU backend, and the fixed
//! layouts the renderers use.
use vstd::prelude::*;

verus! {

/// Component type of one vertex attribute.
#[derive(Debug, Clone, Copy, PartialEq, Eq, Structural)]
pub enum VertexAttributeType {
    /// One 32-bit float.
    Float,
    /// Two 32-bit floats.
    Float2,
    /// Three 32-bit floats.
    Float3,
    /// Four 32-bit floats.
    Float4,
}

/// One attribute of a vertex: shader location, component type, byte offset
/// inside the vertex and whether integer data is normalized.
#[derive(Debug, Clone, Copy, PartialEq, Eq, Structural)]
pub struct VertexAttribute {
    /// Shader attribute location.
    pub location: u32,
    /// Component type.
    pub attribute_type: VertexAttributeType,
    /// Byte offset from the start of the vertex.
    pub offset: u32,
    /// Whether the data is normalized.
    pub normalized: bool,
}

impl VertexAttribute {
    /// Create an attribute descriptor.
    pub fn new(location: u32, attribute_type: VertexAttributeType, offset: u32, normalized: bool) -> (r: Self)
        ensures
            r == (VertexAttribute { location, attribute_type, offset, normalized }),
    {
        VertexAttribute { location, attribute_type, offset, normalized }
    }
}

/// Byte stride of a vertex and its attributes, in declaration order.
#[derive(Debug, Clone)]
pub struct VertexLayout {
    /// Size of one vertex in bytes.
    pub stride: u32,
    /// The declared attributes.
    pub attributes: Vec<VertexAttribute>,
}

impl VertexLayout {
    /// A layout with the given stride and no attributes.
    pub fn new(stride: u32) -> (r: Self)
        ensures
            r.stride == stride,
            r.attributes@ == Seq::<VertexAttribute>::empty(),
    {
        VertexLayout { stride, attributes: Vec::new() }
    }

    /// The layout with `attribute` appended.
    pub fn with_attribute(self, attribute: VertexAttribute) -> (r: Self)
        ensures
            r.stride == self.stride,
            r.attributes@ == self.attributes@.push(attribute),
    {
        let mut attributes = self.attributes;
        attributes.push(attribute);
        VertexLayout { stride: self.stride, attributes }
    }
}

/// Size in bytes of one attribute of type `t`.
pub open spec fn attribute_size(t: VertexAttributeType) -> int {
    match t {
        VertexAttributeType::Float => 4,
        VertexAttributeType::Float2 => 8,
        VertexAttributeType::Float3 => 12,
        VertexAttributeType::Float4 => 16,
    }
}

/// Every attribute lies inside the vertex, and attributes are declared in
/// increasing offset order without overlapping.
pub open spec fn attributes_packed(layout: VertexLayout) -> bool {
    let a = layout.attributes@;
    &&& forall|i: int| 0 <= i < a.len() ==> #[trigger] a[i].offset + attribute_size(a[i].attribute_type) <= layout.stride
    &&& forall|i: int, j: int| 0 <= i < j < a.len() ==> #[trigger] a[i].offset + attribute_size(a[i].attribute_type) <= #[trigger] a[j].offset
}

/// The attribute list `(location, type, offset)` triples describe, none of
/// them normalized.
pub open spec fn plain_attributes(spec: Seq<(u32, VertexAttributeType, u32)>) -> Seq<VertexAttribute> {
    spec.map_values(|a: (u32, VertexAttributeType, u32)| VertexAttribute { location: a.0, attribute_type: a.1, offset: a.2, normalized: false })
}

/// Layout for 3D objects: position (3f), normal (3f), texcoord (2f) in a
/// 32-byte vertex.
pub fn object_vertex_layout() -> (r: VertexLayout)
    ensures
        attributes_packed(r),
        r.stride == 32,
        r.attributes@ == plain_attributes(seq![
            (0u32, VertexAttributeType::Float3, 0u32),
            (1u32, VertexAttributeType::Float3, 12u32),
            (2u32, VertexAttributeType::Float2, 24u32),
        ]),
{
    let r = VertexLayout::new(32)
        .with_attribute(VertexAttribute::new(0, VertexAttributeType::Float3, 0, false))
        .with_attribute(VertexAttribute::new(1, VertexAttributeType::Float3, 12, false))
        .with_attribute(VertexAttribute::new(2, VertexAttributeType::Float2, 24, false));
    assert(r.attributes@ =~= plain_attributes(seq![
        (0u32, VertexAttributeType::Float3, 0u32),
        (1u32, VertexAttributeType::Float3, 12u32),
        (2u32, VertexAttributeType::Float2, 24u32),
    ]));
    r
}


/// Layout for grid and axis lines: position (3f), color (3f) in a 24-byte
/// vertex.
pub fn grid_vertex_layout() -> (r: VertexLayout)
    ensures
        attributes_packed(r),
        r.stride == 24,
        r.attributes@ == plain_attributes(seq![
            (0u32, VertexAttributeType::Float3, 0u32),
            (1u32, VertexAttributeType::Float3, 12u32),
        ]),
{
    let r = VertexLayout::new(24)
        .with_attribute(VertexAttribute::new(0, VertexAttributeType::Float3, 0, false))
        .with_attribute(VertexAttribute::new(1, VertexAttributeType::Float3, 12, false));
    assert(r.attributes@ =~= plain_attributes(seq![
            (0u32, VertexAttributeType::Float3, 0u32),
            (1u32, VertexAttributeType::Float3, 12u32),
    ]));
    r
}

/// Per-instance layout: the model matrix as four vec4 columns, then the
/// color, in an 80-byte record.
pub fn instance_vertex_layout() -> (r: VertexLayout)
    ensures
        attributes_packed(r),
        r.stride == 80,
        r.attributes@ == plain_attributes(seq![
            (3u32, VertexAttributeType::Float4, 0u32),
            (4u32, VertexAttributeType::Float4, 16u32),
            (5u32, VertexAttributeType::Float4, 32u32),
            (6u32, VertexAttributeType::Float4, 48u32),
            (7u32, VertexAttributeType::Float4, 64u32),
        ]),
{
    let r = VertexLayout::new(80)
        .with_attribute(VertexAttribute::new(3, VertexAttributeType::Float4, 0, false))
        .with_attribute(VertexAttribute::new(4, VertexAttributeType::Float4, 16, false))
        .with_attribute(VertexAttribute::new(5, VertexAttributeType::Float4, 32, false))
        .with_attribute(VertexAttribute::new(6, VertexAttributeType::Float4, 48, false))
        .with_attribute(VertexAttribute::new(7, VertexAttributeType::Float4, 64, false));
    assert(r.attributes@ =~= plain_attributes(seq![
            (3u32, VertexAttributeType::Float4, 0u32),
            (4u32, VertexAttributeType::Float4, 16u32),
            (5u32, VertexAttributeType::Float4, 32u32),
            (6u32, VertexAttributeType::Float4, 48u32),
            (7u32, VertexAttributeType::Float4, 64u32),
    ]));
    r
}

/// Layout for skinned meshes: position (3f), normal (3f), uv (2f), bone ids
/// (4f), bone weights (4f) in a 64-byte vertex.
pub fn skinned_vertex_layout() -> (r: VertexLayout)
    ensures
        attributes_packed(r),
        r.stride == 64,
        r.attributes@ == plain_attributes(seq![
            (0u32, VertexAttributeType::Float3, 0u32),
            (1u32, VertexAttributeType::Float3, 12u32),
            (2u32, VertexAttributeType::Float2, 24u32),
            (3u32, VertexAttributeType::Float4, 32u32),
            (4u32, VertexAttributeType::Float4, 48u32),
        ]),
{
    let r = VertexLayout::new(64)
        .with_attribute(VertexAttribute::new(0, VertexAttributeType::Float3, 0, false))
        .with_attribute(VertexAttribute::new(1, VertexAttributeType::Float3, 12, false))
        .with_attribute(VertexAttribute::new(2, VertexAttributeType::Float2, 24, false))
        .with_attribute(VertexAttribute::new(3, VertexAttributeType::Float4, 32, false))
        .with_attribute(VertexAttribute::new(4, VertexAttributeType::Float4, 48, false));
    assert(r.attributes@ =~= plain_attributes(seq![
            (0u32, VertexAttributeType::Float3, 0u32),
            (1u32, VertexAttributeType::Float3, 12u32),
            (2u32, VertexAttributeType::Float2, 24u32),
            (3u32, VertexAttributeType::Float4, 32u32),
            (4u32, VertexAttributeType::Float4, 48u32),
    ]));
    r
}

/// Per-instance layout for instanced skinned rendering: four model-matrix
/// columns, the bone offset (1f) at location 9, three floats of padding
/// that are not declared, and the color at location 10, 16-byte aligned,
/// in a 96-byte record.
pub fn instanced_skinned_instance_layout() -> (r: VertexLayout)
    ensures
        attributes_packed(r),
        r.stride == 96,
        r.attributes@ == plain_attributes(seq![
            (5u32, VertexAttributeType::Float4, 0u32),
            (6u32, VertexAttributeType::Float4, 16u32),
            (7u32, VertexAttributeType::Float4, 32u32),
            (8u32, VertexAttributeType::Float4, 48u32),
            (9u32, VertexAttributeType::Float, 64u32),
            (10u32, VertexAttributeType::Float4, 80u32),
        ]),
{
    let r = VertexLayout::new(96)
        .with_attribute(VertexAttribute::new(5, VertexAttributeType::Float4, 0, false))
        .with_attribute(VertexAttribute::new(6, VertexAttributeType::Float4, 16, false))
        .with_attribute(VertexAttribute::new(7, VertexAttributeType::Float4, 32, false))
        .with_attribute(VertexAttribute::new(8, VertexAttributeType::Float4, 48, false))
        .with_attribute(VertexAttribute::new(9, VertexAttributeType::Float, 64, false))
        .with_attribute(VertexAttribute::new(10, VertexAttributeType::Float4, 80, false));
    assert(r.attributes@ =~= plain_attributes(seq![
            (5u32, VertexAttributeType::Float4, 0u32),
            (6u32, VertexAttributeType::Float4, 16u32),
            (7u32, VertexAttributeType::Float4, 32u32),
            (8u32, VertexAttributeType::Float4, 48u32),
            (9u32, VertexAttributeType::Float, 64u32),
            (10u32, VertexAttributeType::Float4, 80u32),
    ]));
    r
}

/// Fullscreen post-process layout: clip position (2f), uv (2f) in a
/// 16-byte vertex.
pub fn postprocess_vertex_layout() -> (r: VertexLayout)
    ensures
        attributes_packed(r),
        r.stride == 16,
        r.attributes@ == plain_attributes(seq![
            (0u32, VertexAttributeType::Float2, 0u32),
            (1u32, VertexAttributeType::Float2, 8u32),
        ]),
{
    let r = VertexLayout::new(16)
        .with_attribute(VertexAttribute::new(0, VertexAttributeType::Float2, 0, false))
        .with_attribute(VertexAttribute::new(1, VertexAttributeType::Float2, 8, false));
    assert(r.attributes@ =~= plain_attributes(seq![
            (0u32, VertexAttributeType::Float2, 0u32),
            (1u32, VertexAttributeType::Float2, 8u32),
    ]));
    r
}

} // verus!
