use bbtools::bbtools::gltf_layout::{AttributeKind, ComponentKind, ElementKind};
use bbtools::bbtools::xbo::{MeshXBO, PrimitiveMode, RawPosition, RawVertex, XBO};

fn vertex(uv: bool) -> RawVertex {
    RawVertex {
        position: Some(RawPosition::Short(1, 2, 3)),
        normal: None,
        color: None,
        uv: if uv { Some((0, 0)) } else { None },
    }
}

fn mesh(index: usize, vertices: usize, uv: bool, indices: Vec<u16>) -> MeshXBO {
    MeshXBO {
        index,
        primative_mode: PrimitiveMode::TriangleStrip,
        position_bits: (0, 0, 0),
        rotation_bits: (0, 0, 0),
        triangle_count: 1,
        vertices: vec![vertex(uv); vertices],
        indices,
    }
}

fn model() -> XBO {
    XBO {
        meshes: vec![mesh(0, 3, true, vec![0, 1, 2]), mesh(1, 1, false, vec![])],
        parents: vec![0xFF, 0, 1],
        specials: {
            let mut s = vec![0xFFu8; 32];
            s[4] = 2;
            s
        },
        mirrors: Some(vec![0, 2, 1]),
        position_bits: (0, 0, 0),
        rotation_bits: (0, 0, 0),
    }
}

#[test]
fn document_structure_of_a_model() {
    let l = model().gltf_layout().unwrap();
    // First mesh: 3 vertices of 8 + 12 + 8 bytes; second: 1 of 8 + 12.
    assert_eq!(l.buffer_length, 3 * 28 + 20 + 6);
    assert_eq!(l.views.len(), 3);
    assert_eq!(l.views[0].byte_offset, 0);
    assert_eq!(l.views[0].byte_length, 84);
    assert_eq!(l.views[0].byte_stride, Some(28));
    assert!(l.views[1].indices);
    assert_eq!(l.views[1].byte_offset, 104);
    assert_eq!(l.views[1].byte_length, 6);
    assert_eq!(l.views[2].byte_offset, 84);
    assert_eq!(l.views[2].byte_length, 20);
    // Joints, weights, position, texture coordinates, indices; then joints,
    // weights, position.
    assert_eq!(l.accessors.len(), 8);
    assert_eq!(l.accessors[2].attribute, Some(AttributeKind::Positions));
    assert_eq!(l.accessors[2].byte_offset, Some(8));
    assert_eq!(l.accessors[3].attribute, Some(AttributeKind::TexCoords));
    assert_eq!(l.accessors[3].byte_offset, Some(20));
    assert_eq!(l.accessors[3].element, ElementKind::Vec2);
    assert_eq!(l.accessors[4].attribute, None);
    assert_eq!(l.accessors[4].view, 1);
    assert_eq!(l.accessors[4].count, 3);
    assert_eq!(l.accessors[4].component, ComponentKind::U16);
    assert_eq!(l.accessors[5].view, 2);
    assert_eq!(l.primitives.len(), 2);
    assert_eq!(l.primitives[0].first_attribute, 0);
    assert_eq!(l.primitives[0].attribute_count, 4);
    assert_eq!(l.primitives[0].indices, Some(4));
    assert_eq!(l.primitives[0].mode, PrimitiveMode::TriangleStrip);
    assert!(l.primitives[0].textured);
    assert_eq!(l.primitives[1].first_attribute, 5);
    assert_eq!(l.primitives[1].indices, None);
    assert_eq!(l.primitives[1].mode, PrimitiveMode::Points);
    assert!(!l.primitives[1].textured);
    // Nodes: the root's child is node 1, node 1's child is node 2; node 2
    // is special kind 4; nodes 1 and 2 mirror each other.
    assert_eq!(l.nodes.len(), 3);
    assert_eq!(l.nodes[0].children, vec![1]);
    assert_eq!(l.nodes[1].children, vec![2]);
    assert!(l.nodes[2].children.is_empty());
    assert_eq!(l.nodes[2].special, Some(4));
    assert_eq!(l.nodes[0].special, None);
    assert_eq!(l.nodes[0].mirror, None);
    assert_eq!(l.nodes[1].mirror, Some(2));
    // The root holds the mesh and the skin; every node is a joint; the
    // scene is the root.
    assert_eq!(l.mesh_node, 0);
    assert_eq!(l.skeleton, 0);
    assert_eq!(l.skin_joints, vec![0, 1, 2]);
    assert_eq!(l.scene_nodes, vec![0]);
    assert!(l.nodes.iter().all(|n| !n.meta));
}

#[test]
fn node_metadata_goes_to_the_nodes_named() {
    let l = model().gltf_layout_with_meta(&[2, 7]).unwrap();
    assert!(!l.nodes[0].meta);
    assert!(!l.nodes[1].meta);
    assert!(l.nodes[2].meta);
}

#[test]
fn document_needs_vertices_in_every_mesh() {
    let mut x = model();
    x.meshes.push(mesh(2, 0, false, vec![]));
    x.mirrors = None;
    assert!(x.gltf_layout().is_none());
}

use bbtools::bbtools::lmt::{Animation, Frame, Track, LMT};

fn track(node: u32, frames: usize) -> Track {
    let mut v = Vec::new();
    for _ in 0..frames {
        v.push(Frame { time_frames: 0, rot_bits: (0, 0, 0), pos_bits: (0, 0, 0) });
    }
    Track { node, frames: v }
}

#[test]
fn animation_channels_and_key_frame_accessors() {
    let lmt = LMT {
        track_count_max: 2,
        animations: vec![
            Animation { offset: 0, duration_frames: 10, tracks: vec![track(0, 2), track(1, 3)] },
            Animation { offset: 0, duration_frames: 5, tracks: vec![track(1, 1)] },
        ],
    };
    let mut accessors = Vec::new();
    let anims = lmt.gltf_animations(&mut accessors, 7, None);
    assert_eq!(anims.len(), 2);
    assert_eq!(accessors.len(), 9);
    assert_eq!(anims[0].channels.len(), 2);
    assert_eq!(anims[0].channels[1].node, 1);
    assert_eq!(anims[0].channels[1].time_accessor, 3);
    assert_eq!(anims[0].channels[1].rotation_accessor, 5);
    // Track 1 of animation 0 starts after the 2 frames of 32 bytes of track 0.
    assert_eq!(accessors[3].byte_offset, Some(64));
    assert_eq!(accessors[3].attribute, Some(AttributeKind::Time));
    assert_eq!(accessors[4].byte_offset, Some(68));
    assert_eq!(accessors[5].byte_offset, Some(80));
    assert_eq!(accessors[5].count, 3);
    assert_eq!(accessors[5].element, ElementKind::Vec4);
    // Animation 1's track starts after all of animation 0's frames.
    assert_eq!(accessors[6].byte_offset, Some(160));
    assert_eq!(accessors[6].view, 7);
    assert!(!anims[1].mirrored);
    assert_eq!(anims[0].name, "Anim_0");
    assert_eq!(anims[1].name, "Anim_1");
    // The key frame view covers all frames, 32 bytes each; the mirrored
    // copy follows in a buffer twice as long.
    let view = lmt.gltf_keyframe_view(false);
    assert_eq!(view.byte_length, 6 * 32);
    assert_eq!(view.byte_stride, Some(32));
    assert_eq!(view.byte_offset, 0);
    assert_eq!(lmt.gltf_keyframe_view(true).byte_offset, 6 * 32);
    assert_eq!(lmt.gltf_keyframe_buffer_length(true), 12 * 32);
    assert_eq!(lmt.gltf_keyframe_buffer_length(false), 6 * 32);
    // Mirrored channels move the mirror nodes.
    let mut accessors = Vec::new();
    let mirrored = lmt.gltf_animations(&mut accessors, 8, Some(&[1, 0]));
    assert!(mirrored[0].mirrored);
    assert_eq!(mirrored[1].name, "Anim_1M");
    assert_eq!(mirrored[0].channels[0].node, 1);
    assert_eq!(mirrored[0].channels[1].node, 0);
}
