//! Fixed vertex layouts of the renderers.
use goud_engine::vertex_layout::{
    grid_vertex_layout, instance_vertex_layout, instanced_skinned_instance_layout, object_vertex_layout,
    postprocess_vertex_layout, skinned_vertex_layout, VertexAttribute, VertexAttributeType, VertexLayout,
};

fn summary(l: &VertexLayout) -> (u32, Vec<(u32, VertexAttributeType, u32)>) {
    (l.stride, l.attributes.iter().map(|a| (a.location, a.attribute_type, a.offset)).collect())
}

#[test]
fn object_and_grid_layouts() {
    assert_eq!(summary(&object_vertex_layout()), (32, vec![(0, VertexAttributeType::Float3, 0), (1, VertexAttributeType::Float3, 12), (2, VertexAttributeType::Float2, 24)]));
    assert_eq!(summary(&grid_vertex_layout()), (24, vec![(0, VertexAttributeType::Float3, 0), (1, VertexAttributeType::Float3, 12)]));
    assert_eq!(summary(&postprocess_vertex_layout()), (16, vec![(0, VertexAttributeType::Float2, 0), (1, VertexAttributeType::Float2, 8)]));
}

#[test]
fn instance_layouts() {
    assert_eq!(
        summary(&instance_vertex_layout()),
        (80, vec![(3, VertexAttributeType::Float4, 0), (4, VertexAttributeType::Float4, 16), (5, VertexAttributeType::Float4, 32), (6, VertexAttributeType::Float4, 48), (7, VertexAttributeType::Float4, 64)])
    );
    assert_eq!(
        summary(&instanced_skinned_instance_layout()),
        (96, vec![(5, VertexAttributeType::Float4, 0), (6, VertexAttributeType::Float4, 16), (7, VertexAttributeType::Float4, 32), (8, VertexAttributeType::Float4, 48), (9, VertexAttributeType::Float, 64), (10, VertexAttributeType::Float4, 80)])
    );
    assert_eq!(
        summary(&skinned_vertex_layout()),
        (64, vec![(0, VertexAttributeType::Float3, 0), (1, VertexAttributeType::Float3, 12), (2, VertexAttributeType::Float2, 24), (3, VertexAttributeType::Float4, 32), (4, VertexAttributeType::Float4, 48)])
    );
}

#[test]
fn layouts_are_not_normalized() {
    for l in [object_vertex_layout(), grid_vertex_layout(), instance_vertex_layout(), skinned_vertex_layout()] {
        assert!(l.attributes.iter().all(|a| !a.normalized));
    }
}

#[test]
fn layout_builder_appends_attributes() {
    let l = VertexLayout::new(12).with_attribute(VertexAttribute::new(4, VertexAttributeType::Float3, 0, true));
    assert_eq!(l.stride, 12);
    assert_eq!(l.attributes, vec![VertexAttribute { location: 4, attribute_type: VertexAttributeType::Float3, offset: 0, normalized: true }]);
}
