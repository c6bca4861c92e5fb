//! The structure of a model's glTF document: the buffer views over the
//! exported vertices and indices, the accessors that read them, each
//! mesh's primitive, and the node tree with its special names and
//! mirrors. Only integers are decided here; the program fills in the
//! floating-point parts (transforms, position bounds) and writes the JSON.
use vstd::prelude::*;

use crate::decimal::dec;
use crate::titles::sb::numbered_name;
use crate::bbtools::lmt::{
    animations_size, lemma_animations_size_prefix, lemma_tracks_size_prefix, tracks_size, Animation,
    Track, LMT, LMT_FRAME_STRIDE,
};
use crate::bbtools::xbo::{
    indices_total, spec_stride_size, spec_vertices_size, vertices_total, MeshXBO, PrimitiveMode, XBO,
};

verus! {

/// What an accessor of a mesh's vertices reads.
#[derive(PartialEq, Eq, Structural, Clone, Copy, Debug)]
pub enum AttributeKind {
    Joints,
    Weights,
    Positions,
    Normals,
    Colors,
    TexCoords,
    /// Key frame times, translations and rotations of an animation track.
    Time,
    Translation,
    Rotation,
}

#[derive(PartialEq, Eq, Structural, Clone, Copy, Debug)]
pub enum ComponentKind {
    U8,
    U16,
    F32,
}

#[derive(PartialEq, Eq, Structural, Clone, Copy, Debug)]
pub enum ElementKind {
    Scalar,
    Vec2,
    Vec3,
    Vec4,
}

/// An accessor: the vertex attribute it reads (none for indices), its
/// view, where in the view it starts (none for indices), how many elements
/// it reads and of what kind. Position accessors also carry the bounds of
/// the positions, which the program computes.
#[derive(PartialEq, Eq, Structural, Clone, Copy, Debug)]
pub struct GltfAccessor {
    pub attribute: Option<AttributeKind>,
    pub view: usize,
    pub byte_offset: Option<usize>,
    pub count: usize,
    pub component: ComponentKind,
    pub element: ElementKind,
    pub normalized: bool,
}

/// A view of the one buffer: where it starts, how long it is, and the
/// stride of its elements (vertex views only).
#[derive(PartialEq, Eq, Structural, Clone, Copy, Debug)]
pub struct GltfView {
    pub byte_offset: usize,
    pub byte_length: usize,
    pub byte_stride: Option<usize>,
    pub indices: bool,
}

/// A mesh's primitive: its attribute accessors are `attribute_count`
/// accessors from `first_attribute` on; its indices accessor, if any; how
/// its vertices form primitives; whether it has texture coordinates, and
/// so takes the model's material.
#[derive(PartialEq, Eq, Structural, Clone, Copy, Debug)]
pub struct GltfPrimitive {
    pub first_attribute: usize,
    pub attribute_count: usize,
    pub indices: Option<usize>,
    pub mode: PrimitiveMode,
    pub textured: bool,
}

pub open spec fn accessor(
    attribute: AttributeKind,
    view: nat,
    offset: nat,
    count: nat,
    component: ComponentKind,
    element: ElementKind,
    normalized: bool,
) -> GltfAccessor {
    GltfAccessor {
        attribute: Some(attribute),
        view: view as usize,
        byte_offset: Some(offset as usize),
        count: count as usize,
        component,
        element,
        normalized,
    }
}

/// One accessor where `present`, none otherwise.
pub open spec fn opt_accessor(present: bool, a: GltfAccessor) -> Seq<GltfAccessor> {
    if present {
        seq![a]
    } else {
        Seq::empty()
    }
}

/// Offsets in a vertex of the position, normal, color and texture
/// coordinates: after the joints and weights, each after the ones its
/// first vertex has before it.
pub open spec fn attribute_offsets(m: MeshXBO) -> (nat, nat, nat, nat) {
    let v = m.vertices@[0];
    let p: nat = if v.position is Some { 12 } else { 0 };
    let q: nat = if v.normal is Some { 12 } else { 0 };
    let c: nat = if v.color is Some { 4 } else { 0 };
    (8, 8 + p, 8 + p + q, 8 + p + q + c)
}

/// The accessors of a mesh's vertices in the vertex view `view`: joints and
/// weights, then the position, normal, color and texture coordinates that
/// its first vertex has, each after the bytes of the ones before.
pub open spec fn mesh_accessors(m: MeshXBO, view: nat) -> Seq<GltfAccessor> {
    let v = m.vertices@[0];
    let n = m.vertices@.len();
    let (op, on, oc, ou) = attribute_offsets(m);
    seq![
        accessor(AttributeKind::Joints, view, 0, n, ComponentKind::U8, ElementKind::Vec4, false),
        accessor(AttributeKind::Weights, view, 4, n, ComponentKind::U8, ElementKind::Vec4, true),
    ] + opt_accessor(
        v.position is Some,
        accessor(AttributeKind::Positions, view, op, n, ComponentKind::F32, ElementKind::Vec3, false),
    ) + opt_accessor(
        v.normal is Some,
        accessor(AttributeKind::Normals, view, on, n, ComponentKind::F32, ElementKind::Vec3, false),
    ) + opt_accessor(
        v.color is Some,
        accessor(AttributeKind::Colors, view, oc, n, ComponentKind::U8, ElementKind::Vec4, true),
    ) + opt_accessor(
        v.uv is Some,
        accessor(AttributeKind::TexCoords, view, ou, n, ComponentKind::F32, ElementKind::Vec2, false),
    )
}

/// The accessor of a mesh's indices in the index view `view`.
pub open spec fn index_accessor(m: MeshXBO, view: nat) -> GltfAccessor {
    GltfAccessor {
        attribute: None,
        view: view as usize,
        byte_offset: None,
        count: m.indices@.len() as usize,
        component: ComponentKind::U16,
        element: ElementKind::Scalar,
        normalized: false,
    }
}

/// All accessors of a mesh: its vertices', then its indices' where it has
/// an index view.
pub open spec fn all_mesh_accessors(m: MeshXBO, vertex_view: nat, index_view: Option<usize>) -> Seq<
    GltfAccessor,
> {
    mesh_accessors(m, vertex_view) + match index_view {
        Some(iv) => seq![index_accessor(m, iv as nat)],
        None => Seq::empty(),
    }
}

/// The primitive of a mesh whose accessors start at `base`: meshes of
/// fewer than three vertices draw points.
pub open spec fn mesh_primitive(m: MeshXBO, base: nat, index_view: Option<usize>) -> GltfPrimitive {
    let k = mesh_accessors(m, 0).len();
    GltfPrimitive {
        first_attribute: base as usize,
        attribute_count: k as usize,
        indices: match index_view {
            Some(_) => Some((base + k) as usize),
            None => None,
        },
        mode: if m.vertices@.len() < 3 {
            PrimitiveMode::Points
        } else {
            m.primative_mode
        },
        textured: m.vertices@[0].uv is Some,
    }
}

proof fn lemma_accessor_count(m: MeshXBO, a: nat, b: nat)
    requires
        m.vertices@.len() > 0,
    ensures
        mesh_accessors(m, a).len() == mesh_accessors(m, b).len(),
        2 <= mesh_accessors(m, a).len() <= 6,
{
}

impl MeshXBO {
    /// Appends the accessors of this mesh's vertices (in `vertex_view`)
    /// and indices (in `index_view`, where it has one), and gives its
    /// primitive; `None`, with nothing appended, where it has no vertices.
    #[verifier::rlimit(40)]
    pub fn gltf_attributes(
        &self,
        accessors: &mut Vec<GltfAccessor>,
        vertex_view: usize,
        index_view: Option<usize>,
    ) -> (r: Option<GltfPrimitive>)
        requires
            old(accessors)@.len() + 8 <= usize::MAX,
        ensures
            self.vertices@.len() == 0 ==> r is None && final(accessors)@ == old(accessors)@,
            self.vertices@.len() > 0 ==> r == Some(
                mesh_primitive(*self, old(accessors)@.len(), index_view),
            ) && final(accessors)@ == old(accessors)@ + all_mesh_accessors(
                *self,
                vertex_view as nat,
                index_view,
            ),
    {
        if self.vertices.len() == 0 {
            return None;
        }
        let ghost a0 = accessors@;
        let ghost m = *self;
        let ghost view = vertex_view as nat;
        let base: usize = accessors.len();
        let n: usize = self.vertices.len();
        let v = self.vertices[0];
        let ghost (op, on, oc, ou) = attribute_offsets(m);
        accessors.push(
            GltfAccessor {
                attribute: Some(AttributeKind::Joints),
                view: vertex_view,
                byte_offset: Some(0),
                count: n,
                component: ComponentKind::U8,
                element: ElementKind::Vec4,
                normalized: false,
            },
        );
        accessors.push(
            GltfAccessor {
                attribute: Some(AttributeKind::Weights),
                view: vertex_view,
                byte_offset: Some(4),
                count: n,
                component: ComponentKind::U8,
                element: ElementKind::Vec4,
                normalized: true,
            },
        );
        let ghost s1 = a0 + seq![
            accessor(AttributeKind::Joints, view, 0, n as nat, ComponentKind::U8, ElementKind::Vec4, false),
            accessor(AttributeKind::Weights, view, 4, n as nat, ComponentKind::U8, ElementKind::Vec4, true),
        ];
        assert(accessors@ =~= s1);
        let mut offset: usize = 8;
        if v.position.is_some() {
            accessors.push(
                GltfAccessor {
                    attribute: Some(AttributeKind::Positions),
                    view: vertex_view,
                    byte_offset: Some(offset),
                    count: n,
                    component: ComponentKind::F32,
                    element: ElementKind::Vec3,
                    normalized: false,
                },
            );
            offset = offset + 12;
        }
        let ghost s2 = s1 + opt_accessor(
            v.position is Some,
            accessor(AttributeKind::Positions, view, op, n as nat, ComponentKind::F32, ElementKind::Vec3, false),
        );
        assert(accessors@ =~= s2 && offset == on);
        if v.normal.is_some() {
            accessors.push(
                GltfAccessor {
                    attribute: Some(AttributeKind::Normals),
                    view: vertex_view,
                    byte_offset: Some(offset),
                    count: n,
                    component: ComponentKind::F32,
                    element: ElementKind::Vec3,
                    normalized: false,
                },
            );
            offset = offset + 12;
        }
        let ghost s3 = s2 + opt_accessor(
            v.normal is Some,
            accessor(AttributeKind::Normals, view, on, n as nat, ComponentKind::F32, ElementKind::Vec3, false),
        );
        assert(accessors@ =~= s3 && offset == oc);
        if v.color.is_some() {
            accessors.push(
                GltfAccessor {
                    attribute: Some(AttributeKind::Colors),
                    view: vertex_view,
                    byte_offset: Some(offset),
                    count: n,
                    component: ComponentKind::U8,
                    element: ElementKind::Vec4,
                    normalized: true,
                },
            );
            offset = offset + 4;
        }
        let ghost s4 = s3 + opt_accessor(
            v.color is Some,
            accessor(AttributeKind::Colors, view, oc, n as nat, ComponentKind::U8, ElementKind::Vec4, true),
        );
        assert(accessors@ =~= s4 && offset == ou);
        if v.uv.is_some() {
            accessors.push(
                GltfAccessor {
                    attribute: Some(AttributeKind::TexCoords),
                    view: vertex_view,
                    byte_offset: Some(offset),
                    count: n,
                    component: ComponentKind::F32,
                    element: ElementKind::Vec2,
                    normalized: false,
                },
            );
        }
        let ghost s5 = s4 + opt_accessor(
            v.uv is Some,
            accessor(AttributeKind::TexCoords, view, ou, n as nat, ComponentKind::F32, ElementKind::Vec2, false),
        );
        assert(accessors@ =~= s5);
        assert(s5 =~= a0 + mesh_accessors(m, view));
        let count: usize = accessors.len() - base;
        proof {
            lemma_accessor_count(*self, 0, vertex_view as nat);
        }
        let indices: Option<usize> = match index_view {
            Some(iv) => {
                accessors.push(
                    GltfAccessor {
                        attribute: None,
                        view: iv,
                        byte_offset: None,
                        count: self.indices.len(),
                        component: ComponentKind::U16,
                        element: ElementKind::Scalar,
                        normalized: false,
                    },
                );
                Some(base + count)
            },
            None => None,
        };
        assert(accessors@ =~= a0 + all_mesh_accessors(*self, vertex_view as nat, index_view));
        let mode = if n < 3 {
            PrimitiveMode::Points
        } else {
            self.primative_mode
        };
        Some(
            GltfPrimitive {
                first_attribute: base,
                attribute_count: count,
                indices,
                mode,
                textured: v.uv.is_some(),
            },
        )
    }
}

/// A node of the document (node 0 is the root, node `i + 1` the node of
/// mesh `i`): the special kind it is named after, if any, the nodes whose
/// parent it is, its mirror node where the model has mirrors and it is not
/// its own, and whether it carries the caller's metadata for its index.
pub struct GltfNode {
    pub special: Option<usize>,
    pub children: Vec<usize>,
    pub mirror: Option<u8>,
    pub meta: bool,
}

/// The document's structure: the buffer's length (vertices, then
/// indices), the views, the accessors, one primitive per mesh, the nodes;
/// the node that holds the one glTF mesh (of all primitives) and the skin;
/// the skin's joints and skeleton node; and the scene's nodes.
pub struct GltfLayout {
    pub buffer_length: usize,
    pub views: Vec<GltfView>,
    pub accessors: Vec<GltfAccessor>,
    pub primitives: Vec<GltfPrimitive>,
    pub nodes: Vec<GltfNode>,
    pub mesh_node: usize,
    pub skin_joints: Vec<usize>,
    pub skeleton: usize,
    pub scene_nodes: Vec<usize>,
}

/// Every node is a joint of the skin, in order; the root is the skeleton,
/// holds the mesh and the skin, and is the scene's one node.
pub open spec fn skin_and_scene(l: GltfLayout) -> bool {
    &&& l.mesh_node == 0
    &&& l.skeleton == 0
    &&& l.skin_joints@ == Seq::new(l.nodes@.len(), |i: int| i as usize)
    &&& l.scene_nodes@ == seq![0usize]
}

/// The joints of a skin over `count` nodes: all of them, in order.
pub(crate) fn all_joints(count: usize) -> (r: Vec<usize>)
    ensures
        r@ == Seq::new(count as nat, |i: int| i as usize),
{
    let mut out: Vec<usize> = Vec::with_capacity(count);
    let mut i: usize = 0;
    while i < count
        invariant
            i <= count,
            out@ == Seq::new(i as nat, |j: int| j as usize),
        decreases count - i,
    {
        out.push(i);
        i = i + 1;
        assert(out@ =~= Seq::new(i as nat, |j: int| j as usize));
    }
    out
}

/// Whether `keys` holds `i`.
pub(crate) fn has_key(keys: &[usize], i: usize) -> (r: bool)
    ensures
        r == keys@.contains(i),
{
    let n: usize = keys.len();
    let mut k: usize = 0;
    while k < n
        invariant
            k <= n,
            n == keys@.len(),
            forall|j: int| 0 <= j < k ==> keys@[j] != i,
        decreases n - k,
    {
        if keys[k] == i {
            assert(keys@[k as int] == i);
            return true;
        }
        k = k + 1;
    }
    false
}

/// The views, accessors and primitives after mesh `k` is added to `parts`:
/// its vertex view, its index view where it has indices (after all vertex
/// bytes `vsize`), its accessors and its primitive. `None` where the mesh
/// has no vertices.
pub open spec fn layout_step(
    ms: Seq<MeshXBO>,
    vsize: nat,
    k: nat,
    parts: (Seq<GltfView>, Seq<GltfAccessor>, Seq<GltfPrimitive>),
) -> Option<(Seq<GltfView>, Seq<GltfAccessor>, Seq<GltfPrimitive>)> {
    let m = ms[k as int];
    let (vs, accs, ps) = parts;
    if m.vertices@.len() == 0 {
        None
    } else {
        let vv = vs.len();
        let vview = GltfView {
            byte_offset: vertices_total(ms, k) as usize,
            byte_length: spec_vertices_size(m) as usize,
            byte_stride: Some(spec_stride_size(m.vertices@[0]) as usize),
            indices: false,
        };
        let iview = GltfView {
            byte_offset: (vsize + indices_total(ms, k)) as usize,
            byte_length: (2 * m.indices@.len()) as usize,
            byte_stride: None,
            indices: true,
        };
        let iv: Option<usize> = if m.indices@.len() > 0 {
            Some((vv + 1) as usize)
        } else {
            None
        };
        let vs2 = if m.indices@.len() > 0 {
            vs.push(vview).push(iview)
        } else {
            vs.push(vview)
        };
        Some((vs2, accs + all_mesh_accessors(m, vv, iv), ps.push(mesh_primitive(m, accs.len(), iv))))
    }
}

/// The views, accessors and primitives of the first `k` meshes.
pub open spec fn layout_upto(ms: Seq<MeshXBO>, vsize: nat, k: nat) -> Option<
    (Seq<GltfView>, Seq<GltfAccessor>, Seq<GltfPrimitive>),
>
    decreases k,
{
    if k == 0 {
        Some((Seq::empty(), Seq::empty(), Seq::empty()))
    } else {
        match layout_upto(ms, vsize, (k - 1) as nat) {
            None => None,
            Some(p) => layout_step(ms, vsize, (k - 1) as nat, p),
        }
    }
}

pub(crate) proof fn lemma_layout_none_stays(ms: Seq<MeshXBO>, vsize: nat, k: nat, n: nat)
    requires
        k <= n,
        layout_upto(ms, vsize, k) is None,
    ensures
        layout_upto(ms, vsize, n) is None,
    decreases n,
{
    if k < n {
        lemma_layout_none_stays(ms, vsize, k, (n - 1) as nat);
    }
}

/// The first special kind from `k` on whose node is `i` (as a byte).
pub open spec fn first_special(specials: Seq<u8>, i: nat, k: nat) -> Option<usize>
    decreases specials.len() - k,
{
    if k >= specials.len() {
        None
    } else if specials[k as int] == i as u8 {
        Some(k as usize)
    } else {
        first_special(specials, i, k + 1)
    }
}

/// The nodes among the first `k` whose parent is `i` (as a byte).
pub open spec fn children_of(parents: Seq<u8>, i: nat, k: nat) -> Seq<usize>
    decreases k,
{
    if k == 0 {
        Seq::empty()
    } else {
        children_of(parents, i, (k - 1) as nat) + if parents[k - 1] == i as u8 {
            seq![(k - 1) as usize]
        } else {
            Seq::empty()
        }
    }
}

/// The mirror of node `i` where the model has mirrors and it is not its own.
pub open spec fn node_mirror(mirrors: Option<Seq<u8>>, i: nat) -> Option<u8> {
    match mirrors {
        Some(v) => if v[i as int] as nat != i {
            Some(v[i as int])
        } else {
            None
        },
        None => None,
    }
}

/// `node` is node `i` of the model `x`, with metadata where `meta_keys`
/// holds its index.
pub open spec fn node_matches(node: GltfNode, x: XBO, meta_keys: Seq<usize>, i: nat) -> bool {
    &&& node.meta == meta_keys.contains(i as usize)
    &&& node.special == first_special(x.specials@, i, 0)
    &&& node.children@ == children_of(x.parents@, i, x.parents@.len())
    &&& node.mirror == node_mirror(
        match x.mirrors {
            Some(v) => Some(v@),
            None => None,
        },
        i,
    )
}

/// `r` is the structure of the glTF document of `x` (see `layout_upto`,
/// `node_matches` and `skin_and_scene`) whose nodes carry metadata where
/// `meta_keys` holds their index: `None` where a mesh has no vertices.
pub open spec fn layout_of(x: XBO, meta_keys: Seq<usize>, r: Option<GltfLayout>) -> bool {
    let ms = x.meshes@;
    let vsize = vertices_total(ms, ms.len());
    match layout_upto(ms, vsize, ms.len()) {
        None => r is None,
        Some(p) => r matches Some(l) && {
            &&& l.buffer_length == vsize + indices_total(ms, ms.len())
            &&& l.views@ == p.0
            &&& l.accessors@ == p.1
            &&& l.primitives@ == p.2
            &&& l.nodes@.len() == ms.len() + 1
            &&& forall|i: int|
                0 <= i < l.nodes@.len() ==> #[trigger] node_matches(l.nodes@[i], x, meta_keys, i as nat)
            &&& skin_and_scene(l)
        },
    }
}

/// Metadata keys change nothing in the structure of a model's glTF
/// document but which nodes carry metadata: the document without metadata
/// has the same buffer, views, accessors, primitives, nodes, skin and
/// scene, and none of its nodes carries metadata.
pub proof fn lemma_meta_only_marks_nodes(
    x: XBO,
    meta_keys: Seq<usize>,
    with_meta: Option<GltfLayout>,
    without: Option<GltfLayout>,
)
    requires
        layout_of(x, meta_keys, with_meta),
        layout_of(x, Seq::empty(), without),
    ensures
        with_meta is Some <==> without is Some,
        (with_meta, without) matches (Some(l1), Some(l0)) ==> {
            &&& l1.buffer_length == l0.buffer_length
            &&& l1.views@ == l0.views@
            &&& l1.accessors@ == l0.accessors@
            &&& l1.primitives@ == l0.primitives@
            &&& l1.nodes@.len() == l0.nodes@.len()
            &&& forall|i: int|
                0 <= i < l0.nodes@.len() ==> {
                    &&& (#[trigger] l1.nodes@[i]).special == l0.nodes@[i].special
                    &&& l1.nodes@[i].children@ == l0.nodes@[i].children@
                    &&& l1.nodes@[i].mirror == l0.nodes@[i].mirror
                    &&& l1.nodes@[i].meta == meta_keys.contains(i as usize)
                    &&& !l0.nodes@[i].meta
                }
            &&& l1.mesh_node == l0.mesh_node
            &&& l1.skeleton == l0.skeleton
            &&& l1.skin_joints@ == l0.skin_joints@
            &&& l1.scene_nodes@ == l0.scene_nodes@
        },
{
    if let (Some(l1), Some(l0)) = (with_meta, without) {
        assert forall|i: int| 0 <= i < l0.nodes@.len() implies {
            &&& (#[trigger] l1.nodes@[i]).special == l0.nodes@[i].special
            &&& l1.nodes@[i].children@ == l0.nodes@[i].children@
            &&& l1.nodes@[i].mirror == l0.nodes@[i].mirror
            &&& l1.nodes@[i].meta == meta_keys.contains(i as usize)
            &&& !l0.nodes@[i].meta
        } by {
            assert(node_matches(l1.nodes@[i], x, meta_keys, i as nat));
            assert(node_matches(l0.nodes@[i], x, Seq::empty(), i as nat));
        }
    }
}

pub(crate) fn find_special(specials: &Vec<u8>, i: usize) -> (r: Option<usize>)
    ensures
        r == first_special(specials@, i as nat, 0),
{
    #[verifier::truncate]
    let b: u8 = i as u8;
    let n: usize = specials.len();
    let mut k: usize = 0;
    while k < n
        invariant
            k <= n,
            n == specials@.len(),
            b == i as u8,
            first_special(specials@, i as nat, 0) == first_special(specials@, i as nat, k as nat),
        decreases n - k,
    {
        if specials[k] == b {
            return Some(k);
        }
        k = k + 1;
    }
    None
}

pub(crate) fn find_children(parents: &Vec<u8>, i: usize) -> (r: Vec<usize>)
    ensures
        r@ == children_of(parents@, i as nat, parents@.len()),
{
    #[verifier::truncate]
    let b: u8 = i as u8;
    let n: usize = parents.len();
    let mut out: Vec<usize> = Vec::new();
    let mut k: usize = 0;
    while k < n
        invariant
            k <= n,
            n == parents@.len(),
            b == i as u8,
            out@ == children_of(parents@, i as nat, k as nat),
        decreases n - k,
    {
        if parents[k] == b {
            out.push(k);
        }
        k = k + 1;
        assert(out@ =~= children_of(parents@, i as nat, k as nat));
    }
    out
}

impl XBO {
    /// The nodes of the document (see `node_matches`); a node carries
    /// metadata where `meta_keys` holds its index.
    pub fn gltf_nodes(&self, meta_keys: &[usize]) -> (r: Vec<GltfNode>)
        requires
            self.meshes@.len() < usize::MAX,
            self.mirrors matches Some(v) ==> v@.len() > self.meshes@.len(),
        ensures
            r@.len() == self.meshes@.len() + 1,
            forall|i: int| 0 <= i < r@.len() ==> #[trigger] node_matches(r@[i], *self, meta_keys@, i as nat),
    {
        let count: usize = self.meshes.len() + 1;
        let mut out: Vec<GltfNode> = Vec::with_capacity(count);
        let mut i: usize = 0;
        while i < count
            invariant
                i <= count,
                count == self.meshes@.len() + 1,
                self.mirrors matches Some(v) ==> v@.len() >= count,
                out@.len() == i,
                forall|j: int| 0 <= j < i ==> #[trigger] node_matches(out@[j], *self, meta_keys@, j as nat),
            decreases count - i,
        {
            let special = find_special(&self.specials, i);
            let children = find_children(&self.parents, i);
            let mirror: Option<u8> = match &self.mirrors {
                Some(v) => {
                    let mn: u8 = v[i];
                    if mn as usize != i {
                        Some(mn)
                    } else {
                        None
                    }
                },
                None => None,
            };
            let meta = has_key(meta_keys, i);
            out.push(GltfNode { special, children, mirror, meta });
            i = i + 1;
        }
        out
    }

    /// The structure of the model's glTF document without node metadata
    /// (see `gltf_layout_with_meta`).
    pub fn gltf_layout(&self) -> (r: Option<GltfLayout>)
        requires
            vertices_total(self.meshes@, self.meshes@.len()) + indices_total(
                self.meshes@,
                self.meshes@.len(),
            ) <= usize::MAX,
            self.meshes@.len() < usize::MAX / 8,
            self.mirrors matches Some(v) ==> v@.len() > self.meshes@.len(),
        ensures
            layout_of(*self, Seq::empty(), r),
    {
        let keys: Vec<usize> = Vec::new();
        assert(keys@ =~= Seq::<usize>::empty());
        self.gltf_layout_with_meta(keys.as_slice())
    }

    /// The structure of the model's glTF document (see `layout_upto`,
    /// `node_matches` and `skin_and_scene`): the buffer holds the exported
    /// vertices, then the indices; a node carries metadata where
    /// `meta_keys` holds its index. `None` where a mesh has no vertices.
    #[verifier::rlimit(40)]
    pub fn gltf_layout_with_meta(&self, meta_keys: &[usize]) -> (r: Option<GltfLayout>)
        requires
            vertices_total(self.meshes@, self.meshes@.len()) + indices_total(
                self.meshes@,
                self.meshes@.len(),
            ) <= usize::MAX,
            self.meshes@.len() < usize::MAX / 8,
            self.mirrors matches Some(v) ==> v@.len() > self.meshes@.len(),
        ensures
            layout_of(*self, meta_keys@, r),
    {
        let ghost ms = self.meshes@;
        let (vsize, isize) = self.size();
        let n: usize = self.meshes.len();
        let mut views: Vec<GltfView> = Vec::new();
        let mut accessors: Vec<GltfAccessor> = Vec::new();
        let mut primitives: Vec<GltfPrimitive> = Vec::new();
        let mut voff: usize = 0;
        let mut ioff: usize = 0;
        let mut k: usize = 0;
        while k < n
            invariant
                k <= n,
                n == ms.len(),
                ms == self.meshes@,
                n < usize::MAX / 8,
                vsize == vertices_total(ms, n as nat),
                isize == indices_total(ms, n as nat),
                vsize + isize <= usize::MAX,
                voff == vertices_total(ms, k as nat),
                ioff == indices_total(ms, k as nat),
                layout_upto(ms, vsize as nat, k as nat) == Some((views@, accessors@, primitives@)),
                views@.len() <= 2 * k,
                accessors@.len() <= 7 * k,
            decreases n - k,
        {
            proof {
                crate::bbtools::xbo::lemma_totals_mono(ms, (k + 1) as nat, n as nat);
            }
            let m = &self.meshes[k];
            let stride: usize = m.stride_size();
            let vlen: usize = m.vertices.len();
            if vlen == 0 {
                proof {
                    lemma_layout_none_stays(ms, vsize as nat, (k + 1) as nat, n as nat);
                }
                return None;
            }
            assert(vlen * stride == spec_vertices_size(*m));
            let vbytes: usize = vlen * stride;
            let ibytes: usize = 2 * m.indices.len();
            let vv: usize = views.len();
            views.push(GltfView { byte_offset: voff, byte_length: vbytes, byte_stride: Some(stride), indices: false });
            let iv: Option<usize> = if m.indices.len() > 0 {
                views.push(GltfView { byte_offset: vsize + ioff, byte_length: ibytes, byte_stride: None, indices: true });
                Some(vv + 1)
            } else {
                None
            };
            let base: usize = accessors.len();
            let prim = m.gltf_attributes(&mut accessors, vv, iv);
            match prim {
                Some(pr) => {
                    primitives.push(pr);
                },
                None => {
                    return None;
                },
            }
            proof {
                lemma_accessor_count(*m, 0, vv as nat);
            }
            voff = voff + vbytes;
            ioff = ioff + ibytes;
            k = k + 1;
        }
        let nodes = self.gltf_nodes(meta_keys);
        let skin_joints = all_joints(n + 1);
        let scene_nodes: Vec<usize> = vec![0usize];
        assert(scene_nodes@ =~= seq![0usize]);
        Some(
            GltfLayout {
                buffer_length: vsize + isize,
                views,
                accessors,
                primitives,
                nodes,
                mesh_node: 0,
                skin_joints,
                skeleton: 0,
                scene_nodes,
            },
        )
    }
}

/// A track's two channels: the node they move, and the accessors of its
/// key frame times (the input of both samplers), translations and
/// rotations.
#[derive(PartialEq, Eq, Structural, Clone, Copy, Debug)]
pub struct GltfChannel {
    pub node: u32,
    pub time_accessor: usize,
    pub translation_accessor: usize,
    pub rotation_accessor: usize,
}

/// An animation of the document: its name, one pair of channels per
/// track, and whether it moves the mirrored nodes.
pub struct GltfAnimation {
    pub name: String,
    pub channels: Vec<GltfChannel>,
    pub mirrored: bool,
}

/// The name of animation `i`: `Anim_` and its number, with `M` after it
/// for the mirrored copy.
pub open spec fn animation_name(i: nat, mirrored: bool) -> Seq<char> {
    "Anim_"@ + dec(i) + if mirrored {
        "M"@
    } else {
        ""@
    }
}

/// The number of tracks of the first `i` animations.
pub open spec fn tracks_before(xs: Seq<Animation>, i: nat) -> nat
    decreases i,
{
    if i == 0 {
        0
    } else {
        tracks_before(xs, (i - 1) as nat) + xs[i - 1].tracks@.len()
    }
}

/// Where the key frames of track `j` of animation `i` start in the view.
pub open spec fn key_offset(xs: Seq<Animation>, i: int, j: int) -> nat {
    animations_size(xs.take(i)) + tracks_size(xs[i].tracks@.take(j))
}

/// The node a track moves: its own, or its mirror where mirrored.
pub open spec fn key_node(mirrors: Option<Seq<u8>>, node: u32) -> u32 {
    match mirrors {
        Some(m) => m[node as int] as u32,
        None => node,
    }
}

pub open spec fn key_accessor(t: Track, view: nat, offset: nat, k: int) -> GltfAccessor {
    GltfAccessor {
        attribute: Some(
            if k == 0 {
                AttributeKind::Time
            } else if k == 1 {
                AttributeKind::Translation
            } else {
                AttributeKind::Rotation
            },
        ),
        view: view as usize,
        byte_offset: Some(
            (offset + if k == 0 {
                0int
            } else if k == 1 {
                4int
            } else {
                16int
            }) as usize,
        ),
        count: t.frames@.len() as usize,
        component: ComponentKind::F32,
        element: if k == 0 {
            ElementKind::Scalar
        } else if k == 1 {
            ElementKind::Vec3
        } else {
            ElementKind::Vec4
        },
        normalized: false,
    }
}

proof fn lemma_animations_step(xs: Seq<Animation>, i: int)
    requires
        0 <= i < xs.len(),
    ensures
        animations_size(xs.take(i + 1)) == animations_size(xs.take(i)) + tracks_size(xs[i].tracks@),
{
    assert(xs.take(i + 1).drop_last() =~= xs.take(i));
}

proof fn lemma_tracks_step(ts: Seq<Track>, j: int)
    requires
        0 <= j < ts.len(),
    ensures
        tracks_size(ts.take(j + 1)) == tracks_size(ts.take(j)) + ts[j].frames@.len() * (
        LMT_FRAME_STRIDE as nat),
{
    assert(ts.take(j + 1).drop_last() =~= ts.take(j));
}

/// Track `j` of animation `i` has the channel `ch`, and its three key
/// frame accessors stand in `acc` at `base` plus three per track before it.
pub open spec fn track_placed(
    xs: Seq<Animation>,
    i: int,
    j: int,
    base: nat,
    view: nat,
    mirrors: Option<Seq<u8>>,
    ch: GltfChannel,
    acc: Seq<GltfAccessor>,
) -> bool {
    let t = base + 3 * (tracks_before(xs, i as nat) + j);
    let track = xs[i].tracks@[j];
    let off = key_offset(xs, i, j);
    &&& ch == GltfChannel {
        node: key_node(mirrors, track.node),
        time_accessor: t as usize,
        translation_accessor: (t + 1) as usize,
        rotation_accessor: (t + 2) as usize,
    }
    &&& t + 2 < acc.len()
    &&& acc[t] == key_accessor(track, view, off, 0)
    &&& acc[t + 1] == key_accessor(track, view, off, 1)
    &&& acc[t + 2] == key_accessor(track, view, off, 2)
}

proof fn lemma_placed_stays(
    xs: Seq<Animation>,
    i: int,
    j: int,
    base: nat,
    view: nat,
    mirrors: Option<Seq<u8>>,
    ch: GltfChannel,
    acc: Seq<GltfAccessor>,
    acc2: Seq<GltfAccessor>,
)
    requires
        0 <= j,
        track_placed(xs, i, j, base, view, mirrors, ch, acc),
        acc.len() <= acc2.len(),
        forall|k: int| 0 <= k < acc.len() ==> acc2[k] == acc[k],
    ensures
        track_placed(xs, i, j, base, view, mirrors, ch, acc2),
{
    let t = base + 3 * (tracks_before(xs, i as nat) + j);
    assert(acc2[t] == acc[t]);
    assert(acc2[t + 1] == acc[t + 1]);
    assert(acc2[t + 2] == acc[t + 2]);
}

/// The mirror table as a sequence, where there is one.
pub open spec fn mirror_seq(m: Option<&[u8]>) -> Option<Seq<u8>> {
    match m {
        Some(v) => Some(v@),
        None => None,
    }
}

impl LMT {
    /// Appends the accessors of every track's key frames (in the key frame
    /// view `view`, tracks one after the other) and gives the animations'
    /// channels (see `track_placed`); with `mirror_nodes`, the channels move
    /// the mirror nodes.
    #[verifier::rlimit(60)]
    pub fn gltf_animations(&self, accessors: &mut Vec<GltfAccessor>, view: usize, mirror_nodes: Option<&[u8]>) -> (r:
        Vec<GltfAnimation>)
        requires
            animations_size(self.animations@) + 16 <= usize::MAX,
            old(accessors)@.len() + 3 * tracks_before(self.animations@, self.animations@.len()) + 3
                <= usize::MAX,
            mirror_nodes matches Some(m) ==> forall|i: int, j: int|
                0 <= i < self.animations@.len() && 0 <= j < self.animations@[i].tracks@.len()
                    ==> (#[trigger] self.animations@[i].tracks@[j]).node < m@.len(),
        ensures
            r@.len() == self.animations@.len(),
            final(accessors)@.len() == old(accessors)@.len() + 3 * tracks_before(
                self.animations@,
                self.animations@.len(),
            ),
            forall|k: int| 0 <= k < old(accessors)@.len() ==> #[trigger] final(accessors)@[k] == old(accessors)@[k],
            forall|i: int|
                0 <= i < r@.len() ==> (#[trigger] r@[i]).channels@.len() == self.animations@[i].tracks@.len()
                    && r@[i].mirrored == mirror_nodes is Some && r@[i].name@ == animation_name(
                    i as nat,
                    mirror_nodes is Some,
                ),
            forall|i: int, j: int|
                0 <= i < r@.len() && 0 <= j < self.animations@[i].tracks@.len() ==> track_placed(
                    self.animations@,
                    i,
                    j,
                    old(accessors)@.len(),
                    view as nat,
                    mirror_seq(mirror_nodes),
                    #[trigger] r@[i].channels@[j],
                    final(accessors)@,
                ),
    {
        let ghost xs = self.animations@;
        let ghost a0 = accessors@;
        let ghost mo = mirror_seq(mirror_nodes);
        let base: usize = accessors.len();
        let n: usize = self.animations.len();
        let mut out: Vec<GltfAnimation> = Vec::with_capacity(n);
        let mut offset: usize = 0;
        let mut i: usize = 0;
        while i < n
            invariant
                i <= n,
                n == xs.len(),
                xs == self.animations@,
                base == a0.len(),
                mo == mirror_seq(mirror_nodes),
                animations_size(xs) + 16 <= usize::MAX,
                base + 3 * tracks_before(xs, n as nat) + 3 <= usize::MAX,
                mirror_nodes matches Some(m) ==> forall|i2: int, j2: int|
                    0 <= i2 < xs.len() && 0 <= j2 < xs[i2].tracks@.len() ==> (
                    #[trigger] xs[i2].tracks@[j2]).node < m@.len(),
                offset == animations_size(xs.take(i as int)),
                out@.len() == i,
                accessors@.len() == base + 3 * tracks_before(xs, i as nat),
                forall|k: int| 0 <= k < base ==> #[trigger] accessors@[k] == a0[k],
                forall|i2: int|
                    0 <= i2 < i ==> (#[trigger] out@[i2]).channels@.len() == xs[i2].tracks@.len()
                        && out@[i2].mirrored == mirror_nodes is Some && out@[i2].name@ == animation_name(
                        i2 as nat,
                        mirror_nodes is Some,
                    ),
                forall|i2: int, j2: int|
                    0 <= i2 < i && 0 <= j2 < xs[i2].tracks@.len() ==> track_placed(
                        xs,
                        i2,
                        j2,
                        base as nat,
                        view as nat,
                        mo,
                        #[trigger] out@[i2].channels@[j2],
                        accessors@,
                    ),
            decreases n - i,
        {
            proof {
                lemma_animations_step(xs, i as int);
                lemma_animations_size_prefix(xs, i + 1);
                lemma_tracks_before_mono(xs, (i + 1) as nat, n as nat);
            }
            let anim = &self.animations[i];
            let m: usize = anim.tracks.len();
            let ghost ts = anim.tracks@;
            let ghost tb = tracks_before(xs, i as nat);
            let ghost acc_i = accessors@;
            let mut channels: Vec<GltfChannel> = Vec::with_capacity(m);
            let mut j: usize = 0;
            while j < m
                invariant
                    j <= m,
                    i < n,
                    n == xs.len(),
                    ts == xs[i as int].tracks@,
                    ts == anim.tracks@,
                    m == ts.len(),
                    tb == tracks_before(xs, i as nat),
                    base == a0.len(),
                    base + 3 * (tb + m) + 3 <= usize::MAX,
                    animations_size(xs.take(i + 1)) + 16 <= usize::MAX,
                    animations_size(xs.take(i + 1)) == animations_size(xs.take(i as int)) + tracks_size(ts),
                    mo == mirror_seq(mirror_nodes),
                    mirror_nodes matches Some(mm) ==> forall|j2: int|
                        0 <= j2 < ts.len() ==> (#[trigger] ts[j2]).node < mm@.len(),
                    offset == animations_size(xs.take(i as int)) + tracks_size(ts.take(j as int)),
                    channels@.len() == j,
                    accessors@.len() == base + 3 * (tb + j),
                    acc_i.len() == base + 3 * tb,
                    forall|k: int| 0 <= k < base + 3 * tb ==> #[trigger] accessors@[k] == acc_i[k],
                    forall|j2: int|
                        0 <= j2 < j ==> track_placed(
                            xs,
                            i as int,
                            j2,
                            base as nat,
                            view as nat,
                            mo,
                            #[trigger] channels@[j2],
                            accessors@,
                        ),
                decreases m - j,
            {
                proof {
                    lemma_tracks_step(ts, j as int);
                    lemma_tracks_size_prefix(ts, j + 1);
                }
                let track = &anim.tracks[j];
                let frames: usize = track.frames.len();
                let t: usize = accessors.len();
                let ghost acc_j = accessors@;
                let ghost ch_j = channels@;
                accessors.push(
                    GltfAccessor {
                        attribute: Some(AttributeKind::Time),
                        view,
                        byte_offset: Some(offset),
                        count: frames,
                        component: ComponentKind::F32,
                        element: ElementKind::Scalar,
                        normalized: false,
                    },
                );
                accessors.push(
                    GltfAccessor {
                        attribute: Some(AttributeKind::Translation),
                        view,
                        byte_offset: Some(offset + 4),
                        count: frames,
                        component: ComponentKind::F32,
                        element: ElementKind::Vec3,
                        normalized: false,
                    },
                );
                accessors.push(
                    GltfAccessor {
                        attribute: Some(AttributeKind::Rotation),
                        view,
                        byte_offset: Some(offset + 16),
                        count: frames,
                        component: ComponentKind::F32,
                        element: ElementKind::Vec4,
                        normalized: false,
                    },
                );
                let node: u32 = match mirror_nodes {
                    Some(mm) => mm[track.node as usize] as u32,
                    None => track.node,
                };
                channels.push(
                    GltfChannel { node, time_accessor: t, translation_accessor: t + 1, rotation_accessor: t + 2 },
                );
                proof {
                    assert(track_placed(xs, i as int, j as int, base as nat, view as nat, mo, channels@[j as int], accessors@));
                    assert forall|j2: int| 0 <= j2 < j + 1 implies track_placed(
                        xs,
                        i as int,
                        j2,
                        base as nat,
                        view as nat,
                        mo,
                        #[trigger] channels@[j2],
                        accessors@,
                    ) by {
                        if j2 < j {
                            assert(channels@[j2] == ch_j[j2]);
                            lemma_placed_stays(xs, i as int, j2, base as nat, view as nat, mo, ch_j[j2], acc_j, accessors@);
                        }
                    }
                }
                offset = offset + frames * LMT_FRAME_STRIDE;
                j = j + 1;
            }
            assert(ts.take(m as int) =~= ts);
            let ghost out_i = out@;
            let suffix: &str = if mirror_nodes.is_some() {
                "M"
            } else {
                ""
            };
            let name = numbered_name("Anim_", i as u64, 0, suffix);
            assert(name@ == animation_name(i as nat, mirror_nodes is Some));
            out.push(GltfAnimation { name, channels, mirrored: mirror_nodes.is_some() });
            proof {
                assert(tracks_before(xs, (i + 1) as nat) == tb + m);
                assert forall|i2: int, j2: int|
                    0 <= i2 < i + 1 && 0 <= j2 < xs[i2].tracks@.len() implies track_placed(
                        xs,
                        i2,
                        j2,
                        base as nat,
                        view as nat,
                        mo,
                        #[trigger] out@[i2].channels@[j2],
                        accessors@,
                    ) by {
                    if i2 < i {
                        assert(out@[i2] == out_i[i2]);
                        lemma_tracks_before_mono(xs, (i2 + 1) as nat, i as nat);
                        lemma_placed_stays(xs, i2, j2, base as nat, view as nat, mo, out_i[i2].channels@[j2], acc_i, accessors@);
                    } else {
                        assert(out@[i2].channels@ == channels@);
                    }
                }
            }
            i = i + 1;
        }
        out
    }
}

impl LMT {
    /// The view of the key frames: every track's frames one after the
    /// other, 32 bytes each; the mirrored copy follows the plain one.
    pub fn gltf_keyframe_view(&self, mirrored: bool) -> (r: GltfView)
        requires
            animations_size(self.animations@) <= usize::MAX,
        ensures
            r.byte_length == animations_size(self.animations@),
            r.byte_stride == Some(LMT_FRAME_STRIDE),
            r.byte_offset == if mirrored {
                animations_size(self.animations@) as usize
            } else {
                0usize
            },
            !r.indices,
    {
        let size: usize = self.size();
        GltfView {
            byte_offset: if mirrored {
                size
            } else {
                0
            },
            byte_length: size,
            byte_stride: Some(LMT_FRAME_STRIDE),
            indices: false,
        }
    }

    /// The length of the key frame buffer: the frames, twice where the
    /// buffer also holds the mirrored copy.
    pub fn gltf_keyframe_buffer_length(&self, with_mirrored: bool) -> (r: usize)
        requires
            2 * animations_size(self.animations@) <= usize::MAX,
        ensures
            r == animations_size(self.animations@) * if with_mirrored {
                2nat
            } else {
                1nat
            },
    {
        let size: usize = self.size();
        if with_mirrored {
            size * 2
        } else {
            size
        }
    }
}

proof fn lemma_tracks_before_mono(xs: Seq<Animation>, i: nat, k: nat)
    requires
        i <= k,
    ensures
        tracks_before(xs, i) <= tracks_before(xs, k),
    decreases k,
{
    if i < k {
        lemma_tracks_before_mono(xs, i, (k - 1) as nat);
    }
}

} // verus!
