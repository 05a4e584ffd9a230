//! The scene model that a loaded container yields.
//!
//! Floating-point values (colour factors, morph weights, node transforms)
//! are kept as the bit patterns of the doubles that the document holds;
//! the model never computes with them.

use vstd::prelude::*;

verus! {

/// A typed array view into the blob.
#[derive(Debug, Clone, Copy, PartialEq, Eq)]
pub struct Accessor {
    /// Absolute byte offset into the blob.
    pub offset: usize,
    /// Number of elements.
    pub count: usize,
    /// Byte stride of the buffer view, when it states one.
    pub stride: Option<usize>,
    /// Numeric component type code (5121 for `u8`, 5123 for `u16`, 5125
    /// for `u32`, ...).
    pub component_type: usize,
    /// Components per element: 1, 2, 3, 4 or 16.
    pub component_count: usize,
}

/// Accessor indices of a primitive's vertex streams.
#[derive(Debug, Clone, Copy, PartialEq, Eq)]
pub struct Attributes {
    pub position: Option<usize>,
    pub normal: Option<usize>,
    pub texcoord_0: Option<usize>,
    pub texcoord_1: Option<usize>,
}

/// A texture reference of a material.
#[derive(Debug, Clone, Copy, PartialEq, Eq)]
pub struct Texture {
    pub wrap_s: bool,
    pub wrap_t: bool,
    /// Which texture coordinate set the texture is sampled with.
    pub texcoord: usize,
    /// Index of the image.
    pub image: usize,
}

/// A material: base colour factor and an optional base colour texture.
#[derive(Debug, Clone)]
pub struct Material {
    /// Bit patterns of the four factor components (RGBA).
    pub base_color_factor: [u64; 4],
    pub base_color_texture: Option<Texture>,
}

/// One drawable unit of a mesh.
#[derive(Debug, Clone)]
pub struct Primitive {
    pub attributes: Attributes,
    /// Morph targets, one attribute set each.
    pub targets: Vec<Attributes>,
    pub indices: Option<usize>,
    pub material: Option<usize>,
}

/// A mesh: its primitives in order and optional morph weights.
#[derive(Debug, Clone)]
pub struct Mesh {
    pub primitives: Vec<Primitive>,
    /// Bit patterns of the morph weights.
    pub weights: Option<Vec<u64>>,
}

/// What a node carries.
#[derive(Debug, Clone, Copy, PartialEq, Eq)]
pub enum Element {
    /// The node carries nothing.
    Empty,
    Mesh(usize),
}

/// A node of the scene graph. Children are indices into the node array.
#[derive(Debug, Clone)]
pub struct Node {
    pub name: String,
    pub children: Vec<usize>,
    /// Bit patterns of the translation (x, y, z).
    pub translation: [u64; 3],
    /// Bit patterns of the rotation quaternion (x, y, z, w).
    pub rotation: [u64; 4],
    /// Bit patterns of the scale (x, y, z).
    pub scale: [u64; 3],
    pub element: Element,
}

impl Default for Node {
    /// A node with no name, no children, no element and the identity
    /// transform.
    fn default() -> (r: Node)
        ensures
            r@.name == Seq::<char>::empty(),
            r@.children == Seq::<usize>::empty(),
            r@.translation == seq![ZERO_BITS, ZERO_BITS, ZERO_BITS],
            r@.rotation == seq![ZERO_BITS, ZERO_BITS, ZERO_BITS, ONE_BITS],
            r@.scale == seq![ONE_BITS, ONE_BITS, ONE_BITS],
            r@.element == Element::Empty,
    {
        let r = Node {
            name: String::new(),
            children: Vec::new(),
            translation: [ZERO_BITS, ZERO_BITS, ZERO_BITS],
            rotation: [ZERO_BITS, ZERO_BITS, ZERO_BITS, ONE_BITS],
            scale: [ONE_BITS, ONE_BITS, ONE_BITS],
            element: Element::Empty,
        };
        assert(r@.translation =~= seq![ZERO_BITS, ZERO_BITS, ZERO_BITS]);
        assert(r@.rotation =~= seq![ZERO_BITS, ZERO_BITS, ZERO_BITS, ONE_BITS]);
        assert(r@.scale =~= seq![ONE_BITS, ONE_BITS, ONE_BITS]);
        assert(r@.children =~= Seq::<usize>::empty());
        r
    }
}

/// A decoded image: RGBA8 pixels and `[width, height, 4]`.
#[derive(Debug, Clone)]
pub struct Image {
    pub dims: [u32; 3],
    pub buffer: Vec<u8>,
}

/// The loaded scene model.
pub struct Glb {
    pub materials: Vec<Material>,
    pub accessors: Vec<Accessor>,
    pub meshes: Vec<Mesh>,
    pub nodes: Vec<Node>,
    /// Top-level node indices.
    pub roots: Vec<usize>,
    /// The binary payload that accessors point into.
    pub blob: Vec<u8>,
    /// One slot per image of the document; `None` where it has no
    /// decodable payload.
    pub images: Vec<Option<Image>>,
}

/// Bit pattern of the double 0.0.
pub const ZERO_BITS: u64 = 0;

/// Bit pattern of the double 1.0.
pub const ONE_BITS: u64 = 0x3ff0_0000_0000_0000;

pub struct MaterialView {
    pub base_color_factor: Seq<u64>,
    pub base_color_texture: Option<Texture>,
}

pub struct PrimitiveView {
    pub attributes: Attributes,
    pub targets: Seq<Attributes>,
    pub indices: Option<usize>,
    pub material: Option<usize>,
}

pub struct MeshView {
    pub primitives: Seq<PrimitiveView>,
    pub weights: Option<Seq<u64>>,
}

pub struct NodeView {
    pub name: Seq<char>,
    pub children: Seq<usize>,
    pub translation: Seq<u64>,
    pub rotation: Seq<u64>,
    pub scale: Seq<u64>,
    pub element: Element,
}

pub struct ImageView {
    pub dims: Seq<u32>,
    pub buffer: Seq<u8>,
}

pub struct GlbView {
    pub materials: Seq<MaterialView>,
    pub accessors: Seq<Accessor>,
    pub meshes: Seq<MeshView>,
    pub nodes: Seq<NodeView>,
    pub roots: Seq<usize>,
    pub blob: Seq<u8>,
    pub images: Seq<Option<ImageView>>,
}

impl View for Material {
    type V = MaterialView;

    open spec fn view(&self) -> MaterialView {
        MaterialView {
            base_color_factor: self.base_color_factor@,
            base_color_texture: self.base_color_texture,
        }
    }
}

impl View for Primitive {
    type V = PrimitiveView;

    open spec fn view(&self) -> PrimitiveView {
        PrimitiveView {
            attributes: self.attributes,
            targets: self.targets@,
            indices: self.indices,
            material: self.material,
        }
    }
}

/// The views of a sequence of primitives.
pub open spec fn primitive_views(v: Seq<Primitive>) -> Seq<PrimitiveView> {
    v.map_values(|p: Primitive| p@)
}

/// The views of a sequence of materials.
pub open spec fn material_views(v: Seq<Material>) -> Seq<MaterialView> {
    v.map_values(|m: Material| m@)
}

/// The views of a sequence of meshes.
pub open spec fn mesh_views(v: Seq<Mesh>) -> Seq<MeshView> {
    v.map_values(|m: Mesh| m@)
}

/// The views of a sequence of nodes.
pub open spec fn node_views(v: Seq<Node>) -> Seq<NodeView> {
    v.map_values(|n: Node| n@)
}

/// The views of a sequence of image slots.
pub open spec fn image_views(v: Seq<Option<Image>>) -> Seq<Option<ImageView>> {
    v.map_values(|i: Option<Image>| image_slot_view(i))
}

impl View for Mesh {
    type V = MeshView;

    open spec fn view(&self) -> MeshView {
        MeshView {
            primitives: primitive_views(self.primitives@),
            weights: match self.weights {
                Some(w) => Some(w@),
                None => None,
            },
        }
    }
}

impl View for Node {
    type V = NodeView;

    open spec fn view(&self) -> NodeView {
        NodeView {
            name: self.name@,
            children: self.children@,
            translation: self.translation@,
            rotation: self.rotation@,
            scale: self.scale@,
            element: self.element,
        }
    }
}

impl View for Image {
    type V = ImageView;

    open spec fn view(&self) -> ImageView {
        ImageView { dims: self.dims@, buffer: self.buffer@ }
    }
}

/// The view of an optional image slot.
pub open spec fn image_slot_view(slot: Option<Image>) -> Option<ImageView> {
    match slot {
        Some(i) => Some(i@),
        None => None,
    }
}

impl View for Glb {
    type V = GlbView;

    open spec fn view(&self) -> GlbView {
        GlbView {
            materials: material_views(self.materials@),
            accessors: self.accessors@,
            meshes: mesh_views(self.meshes@),
            nodes: node_views(self.nodes@),
            roots: self.roots@,
            blob: self.blob@,
            images: image_views(self.images@),
        }
    }
}

/// Bytes per component of a component type code, for the codes that the
/// model accepts.
pub open spec fn component_size(component_type: usize) -> Option<nat> {
    if component_type == 5120 || component_type == 5121 {
        Some(1)
    } else if component_type == 5122 || component_type == 5123 {
        Some(2)
    } else if component_type == 5125 || component_type == 5126 {
        Some(4)
    } else {
        None
    }
}

impl Accessor {
    /// Bytes that one element occupies when tightly packed.
    pub open spec fn element_size(self) -> nat {
        match component_size(self.component_type) {
            Some(s) => (s * self.component_count) as nat,
            None => 0,
        }
    }

    /// The accessor's component type is known and its elements lie inside a
    /// blob of `blob_len` bytes.
    pub open spec fn fits(self, blob_len: nat) -> bool {
        &&& component_size(self.component_type) is Some
        &&& self.offset + self.count * self.element_size() <= blob_len
    }
}

fn index_below(x: Option<usize>, n: usize) -> (b: bool)
    ensures
        b == (x matches Some(i) ==> i < n),
{
    match x {
        Some(i) => i < n,
        None => true,
    }
}

impl Accessor {
    /// Whether an accessor's component type is known and its elements lie
    /// inside a blob of `blob_len` bytes.
    pub fn lies_within(&self, blob_len: usize) -> (r: bool)
        ensures
            r == self.fits(blob_len as nat),
    {
        let size: usize = if self.component_type == 5120 || self.component_type == 5121 {
            1
        } else if self.component_type == 5122 || self.component_type == 5123 {
            2
        } else if self.component_type == 5125 || self.component_type == 5126 {
            4
        } else {
            return false;
        };
        if self.count == 0 {
            return self.offset <= blob_len;
        }
        match size.checked_mul(self.component_count) {
            Some(es) => match self.count.checked_mul(es) {
                Some(bytes) => match self.offset.checked_add(bytes) {
                    Some(end) => end <= blob_len,
                    None => false,
                },
                None => false,
            },
            None => {
                assert(self.count * self.element_size() >= self.element_size()) by (nonlinear_arith)
                    requires
                        self.count > 0,
                ;
                false
            },
        }
    }
}

impl Attributes {
    /// Whether every accessor index that is present is below `n`.
    pub fn refs_below_exec(&self, n: usize) -> (r: bool)
        ensures
            r == self.refs_below(n as nat),
    {
        index_below(self.position, n) && index_below(self.normal, n) && index_below(self.texcoord_0, n)
            && index_below(self.texcoord_1, n)
    }

    /// Every accessor index that is present is below `n`.
    pub open spec fn refs_below(self, n: nat) -> bool {
        &&& (self.position matches Some(i) ==> i < n)
        &&& (self.normal matches Some(i) ==> i < n)
        &&& (self.texcoord_0 matches Some(i) ==> i < n)
        &&& (self.texcoord_1 matches Some(i) ==> i < n)
    }
}

impl PrimitiveView {
    pub open spec fn refs_ok(self, n_accessors: nat, n_materials: nat) -> bool {
        &&& self.attributes.refs_below(n_accessors)
        &&& forall|k: int| 0 <= k < self.targets.len() ==> #[trigger] self.targets[k].refs_below(n_accessors)
        &&& (self.indices matches Some(i) ==> i < n_accessors)
        &&& (self.material matches Some(m) ==> m < n_materials)
    }
}

impl GlbView {
    /// Every index that the model holds refers to an existing item, and
    /// every accessor lies inside the blob.
    pub open spec fn wf(self) -> bool {
        &&& forall|i: int| 0 <= i < self.accessors.len() ==> #[trigger] self.accessors[i].fits(self.blob.len())
        &&& forall|i: int, k: int| 0 <= i < self.meshes.len() && 0 <= k < self.meshes[i].primitives.len()
            ==> #[trigger] self.meshes[i].primitives[k].refs_ok(self.accessors.len(), self.materials.len())
        &&& forall|i: int, k: int| 0 <= i < self.nodes.len() && 0 <= k < self.nodes[i].children.len()
            ==> #[trigger] self.nodes[i].children[k] < self.nodes.len()
        &&& forall|i: int| 0 <= i < self.nodes.len() ==> (#[trigger] self.nodes[i].element matches Element::Mesh(m) ==> m < self.meshes.len())
        &&& forall|i: int| 0 <= i < self.roots.len() ==> #[trigger] self.roots[i] < self.nodes.len()
        &&& forall|i: int| 0 <= i < self.materials.len() ==> (#[trigger] self.materials[i].base_color_texture matches Some(t) ==> t.image < self.images.len())
    }
}

impl Primitive {
    /// Whether the primitive's accessor and material indices are in range.
    pub fn refs_ok_exec(&self, n_accessors: usize, n_materials: usize) -> (r: bool)
        ensures
            r == self@.refs_ok(n_accessors as nat, n_materials as nat),
    {
        if !self.attributes.refs_below_exec(n_accessors) || !index_below(self.indices, n_accessors)
            || !index_below(self.material, n_materials) {
            return false;
        }
        let mut k: usize = 0;
        while k < self.targets.len()
            invariant
                k <= self.targets@.len(),
                forall|q: int| 0 <= q < k ==> #[trigger] self.targets@[q].refs_below(n_accessors as nat),
            decreases self.targets.len() - k,
        {
            if !self.targets[k].refs_below_exec(n_accessors) {
                assert(!self@.targets[k as int].refs_below(n_accessors as nat));
                return false;
            }
            k = k + 1;
        }
        true
    }
}

impl Glb {
    /// Whether every index that the model holds refers to an existing item
    /// and every accessor lies inside the blob.
    pub fn is_well_formed(&self) -> (r: bool)
        ensures
            r == self@.wf(),
    {
        let g = Ghost(self@);
        let blob_len = self.blob.len();
        let na = self.accessors.len();
        let nm = self.materials.len();
        let nn = self.nodes.len();
        let mut i: usize = 0;
        while i < self.accessors.len()
            invariant
                g@ == self@,
                blob_len == self.blob@.len(),
                i <= self.accessors@.len(),
                forall|q: int| 0 <= q < i ==> #[trigger] self.accessors@[q].fits(blob_len as nat),
            decreases self.accessors.len() - i,
        {
            if !self.accessors[i].lies_within(blob_len) {
                assert(!self@.accessors[i as int].fits(self@.blob.len()));
                return false;
            }
            i = i + 1;
        }
        let mut i: usize = 0;
        while i < self.meshes.len()
            invariant
                g@ == self@,
                na == self.accessors@.len(),
                nm == self.materials@.len(),
                i <= self.meshes@.len(),
                forall|q: int, k: int| 0 <= q < i && 0 <= k < g@.meshes[q].primitives.len()
                    ==> #[trigger] g@.meshes[q].primitives[k].refs_ok(na as nat, nm as nat),
            decreases self.meshes.len() - i,
        {
            let prims = &self.meshes[i].primitives;
            assert(g@.meshes[i as int].primitives == primitive_views(prims@));
            let mut k: usize = 0;
            while k < prims.len()
                invariant
                    g@ == self@,
                    i < self.meshes@.len(),
                    g@.meshes[i as int].primitives == primitive_views(prims@),
                    na == self.accessors@.len(),
                    nm == self.materials@.len(),
                    k <= prims@.len(),
                    forall|q: int| 0 <= q < k ==> #[trigger] g@.meshes[i as int].primitives[q].refs_ok(na as nat, nm as nat),
                decreases prims.len() - k,
            {
                if !prims[k].refs_ok_exec(na, nm) {
                    assert(primitive_views(prims@)[k as int] == prims@[k as int]@);
                    assert(!g@.meshes[i as int].primitives[k as int].refs_ok(g@.accessors.len(), g@.materials.len()));
                    return false;
                }
                k = k + 1;
            }
            i = i + 1;
        }
        let mut i: usize = 0;
        while i < self.nodes.len()
            invariant
                g@ == self@,
                nn == self.nodes@.len(),
                i <= self.nodes@.len(),
                forall|q: int, k: int| 0 <= q < i && 0 <= k < g@.nodes[q].children.len()
                    ==> #[trigger] g@.nodes[q].children[k] < nn,
                forall|q: int| 0 <= q < i ==> (#[trigger] g@.nodes[q].element matches Element::Mesh(m) ==> m < g@.meshes.len()),
            decreases self.nodes.len() - i,
        {
            let node = &self.nodes[i];
            assert(g@.nodes[i as int] == node@);
            match node.element {
                Element::Mesh(m) => if m >= self.meshes.len() {
                    assert(g@.nodes[i as int].element matches Element::Mesh(m) && m >= g@.meshes.len());
                    return false;
                },
                Element::Empty => {},
            }
            let mut k: usize = 0;
            while k < node.children.len()
                invariant
                    g@ == self@,
                    i < self.nodes@.len(),
                    g@.nodes[i as int] == node@,
                    nn == self.nodes@.len(),
                    k <= node.children@.len(),
                    forall|q: int| 0 <= q < k ==> #[trigger] g@.nodes[i as int].children[q] < nn,
                decreases node.children.len() - k,
            {
                if node.children[k] >= nn {
                    assert(g@.nodes[i as int].children[k as int] >= g@.nodes.len());
                    return false;
                }
                k = k + 1;
            }
            i = i + 1;
        }
        let mut i: usize = 0;
        while i < self.roots.len()
            invariant
                g@ == self@,
                nn == self.nodes@.len(),
                i <= self.roots@.len(),
                forall|q: int| 0 <= q < i ==> #[trigger] self.roots@[q] < nn,
            decreases self.roots.len() - i,
        {
            if self.roots[i] >= nn {
                assert(self@.roots[i as int] >= self@.nodes.len());
                return false;
            }
            i = i + 1;
        }
        let mut i: usize = 0;
        while i < self.materials.len()
            invariant
                g@ == self@,
                i <= self.materials@.len(),
                forall|q: int| 0 <= q < i ==> (#[trigger] g@.materials[q].base_color_texture matches Some(t) ==> t.image < g@.images.len()),
            decreases self.materials.len() - i,
        {
            assert(g@.materials[i as int] == self.materials@[i as int]@);
            match self.materials[i].base_color_texture {
                Some(t) => if t.image >= self.images.len() {
                    assert(g@.materials[i as int].base_color_texture matches Some(t) && t.image >= g@.images.len());
                    return false;
                },
                None => {},
            }
            i = i + 1;
        }
        true
    }
}

} // verus!
