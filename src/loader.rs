//! Reading the scene model out of a JSON document and its binary blob.
//!
//! Each part of the document has a spec function that says what it yields
//! (`None` for a structural error), and a loader that computes exactly that.

use crate::container::LoadError;
use crate::json::{get_member, get_usize, items, json_index, member, Json};
use crate::scene::{
    image_slot_view, image_views, material_views, mesh_views, node_views, primitive_views, Accessor, Attributes,
    Element, Glb, GlbView, Image, ImageView, Material, MaterialView, Mesh, MeshView, Node,
    NodeView, Primitive, PrimitiveView, Texture, ONE_BITS, ZERO_BITS,
};
use vstd::prelude::*;
use vstd::slice::slice_subrange;

verus! {

/// A byte range of the blob that accessors and images refer to.
#[derive(Debug, Clone, Copy, PartialEq, Eq)]
pub struct BufferView {
    pub offset: usize,
    pub length: usize,
    pub stride: Option<usize>,
}

/// `f` applied to every element, when it succeeds on all of them.
pub open spec fn parse_each<T>(s: Seq<Json>, f: spec_fn(Json) -> Option<T>) -> Option<Seq<T>> {
    if forall|i: int| 0 <= i < s.len() ==> (#[trigger] f(s[i])) is Some {
        Some(s.map_values(|j: Json| f(j).unwrap()))
    } else {
        None
    }
}

/// `parse_each` succeeds with `out` when `f` gives each element of `out`.
pub proof fn lemma_parse_each<T>(s: Seq<Json>, f: spec_fn(Json) -> Option<T>, out: Seq<T>)
    requires
        out.len() == s.len(),
        forall|k: int| 0 <= k < s.len() ==> f(s[k]) == Some(#[trigger] out[k]),
    ensures
        parse_each(s, f) == Some(out),
{
    assert forall|k: int| 0 <= k < s.len() implies (#[trigger] f(s[k])) is Some by {
        assert(f(s[k]) == Some(out[k]));
    }
    assert(s.map_values(|j: Json| f(j).unwrap()) =~= out);
}

/// `parse_each` fails when `f` fails on one element.
pub proof fn lemma_parse_each_fails<T>(s: Seq<Json>, f: spec_fn(Json) -> Option<T>, i: int)
    requires
        0 <= i < s.len(),
        f(s[i]) is None,
    ensures
        parse_each(s, f) is None,
{
}

pub open spec fn is_object(j: Json) -> bool {
    j is Object
}

/// An optional index member: `default` when absent, an error when it is
/// not a number.
pub open spec fn opt_index(j: Json, key: Seq<char>, default: usize) -> Option<usize> {
    match member(j, key) {
        Some(v) => json_index(v),
        None => Some(default),
    }
}

/// An optional index member without a default.
pub open spec fn maybe_index(j: Json, key: Seq<char>) -> Option<Option<usize>> {
    match member(j, key) {
        Some(v) => match json_index(v) {
            Some(i) => Some(Some(i)),
            None => None,
        },
        None => Some(None),
    }
}

/// A required index member.
pub open spec fn req_index(j: Json, key: Seq<char>) -> Option<usize> {
    match member(j, key) {
        Some(v) => json_index(v),
        None => None,
    }
}

pub open spec fn number_bits(j: Json) -> Option<u64> {
    match j {
        Json::Number(b) => Some(b),
        _ => None,
    }
}

/// The bit patterns of an array of numbers.
pub open spec fn all_numbers(j: Json) -> Option<Seq<u64>> {
    match items(j) {
        Some(s) => parse_each(s, |e: Json| number_bits(e)),
        None => None,
    }
}

/// An array of exactly `n` numbers.
pub open spec fn fixed_numbers(j: Json, n: nat) -> Option<Seq<u64>> {
    match all_numbers(j) {
        Some(s) => if s.len() == n {
            Some(s)
        } else {
            None
        },
        None => None,
    }
}

/// The indices of an array of numbers.
pub open spec fn all_indices(j: Json) -> Option<Seq<usize>> {
    match items(j) {
        Some(s) => parse_each(s, |e: Json| json_index(e)),
        None => None,
    }
}

/// A member holding `n` numbers, `default` when absent.
pub open spec fn vector_member(j: Json, key: Seq<char>, n: nat, default: Seq<u64>) -> Option<Seq<u64>> {
    match member(j, key) {
        Some(v) => fixed_numbers(v, n),
        None => Some(default),
    }
}

pub open spec fn view_spec(j: Json) -> Option<BufferView> {
    if !is_object(j) {
        None
    } else {
        match (opt_index(j, "byteOffset"@, 0), opt_index(j, "byteLength"@, 0), maybe_index(j, "byteStride"@)) {
            (Some(o), Some(l), Some(s)) => Some(BufferView { offset: o, length: l, stride: s }),
            _ => None,
        }
    }
}

/// Components per element of an accessor `type` string.
pub open spec fn component_count_spec(t: Seq<char>) -> Option<usize> {
    if t == "SCALAR"@ {
        Some(1)
    } else if t == "VEC2"@ {
        Some(2)
    } else if t == "VEC3"@ {
        Some(3)
    } else if t == "VEC4"@ {
        Some(4)
    } else if t == "MAT4"@ {
        Some(16)
    } else {
        None
    }
}

pub open spec fn type_member(j: Json) -> Option<usize> {
    match member(j, "type"@) {
        Some(Json::Str(s)) => component_count_spec(s@),
        _ => None,
    }
}

/// An accessor, its offset resolved against the buffer views; it must lie
/// inside a blob of `blob_len` bytes.
pub open spec fn accessor_spec(j: Json, views: Seq<BufferView>, blob_len: nat) -> Option<Accessor> {
    if !is_object(j) {
        None
    } else {
        match (
            req_index(j, "bufferView"@),
            opt_index(j, "byteOffset"@, 0),
            req_index(j, "count"@),
            req_index(j, "componentType"@),
            type_member(j),
        ) {
            (Some(v), Some(o), Some(n), Some(ct), Some(cc)) => {
                if v < views.len() && views[v as int].offset + o <= usize::MAX {
                    let a = Accessor {
                        offset: (views[v as int].offset + o) as usize,
                        count: n,
                        stride: views[v as int].stride,
                        component_type: ct,
                        component_count: cc,
                    };
                    if a.fits(blob_len) {
                        Some(a)
                    } else {
                        None
                    }
                } else {
                    None
                }
            },
            _ => None,
        }
    }
}

pub open spec fn attributes_spec(j: Json) -> Option<Attributes> {
    if !is_object(j) {
        None
    } else {
        match (
            maybe_index(j, "POSITION"@),
            maybe_index(j, "NORMAL"@),
            maybe_index(j, "TEXCOORD_0"@),
            maybe_index(j, "TEXCOORD_1"@),
        ) {
            (Some(p), Some(n), Some(t0), Some(t1)) => Some(
                Attributes { position: p, normal: n, texcoord_0: t0, texcoord_1: t1 },
            ),
            _ => None,
        }
    }
}

pub open spec fn attributes_list_spec(s: Seq<Json>) -> Option<Seq<Attributes>> {
    parse_each(s, |j: Json| attributes_spec(j))
}

/// Morph targets: none when absent.
pub open spec fn targets_spec(p: Json) -> Option<Seq<Attributes>> {
    match member(p, "targets"@) {
        None => Some(Seq::empty()),
        Some(t) => match items(t) {
            Some(s) => attributes_list_spec(s),
            None => None,
        },
    }
}

pub open spec fn primitive_spec(p: Json) -> Option<PrimitiveView> {
    if !is_object(p) {
        None
    } else {
        match (member(p, "attributes"@), targets_spec(p), maybe_index(p, "indices"@), maybe_index(p, "material"@)) {
            (Some(a), Some(t), Some(i), Some(m)) => match attributes_spec(a) {
                Some(at) => Some(PrimitiveView { attributes: at, targets: t, indices: i, material: m }),
                None => None,
            },
            _ => None,
        }
    }
}

pub open spec fn primitives_spec(s: Seq<Json>) -> Option<Seq<PrimitiveView>> {
    parse_each(s, |j: Json| primitive_spec(j))
}

pub open spec fn weights_spec(m: Json) -> Option<Option<Seq<u64>>> {
    match member(m, "weights"@) {
        None => Some(None),
        Some(w) => match all_numbers(w) {
            Some(s) => Some(Some(s)),
            None => None,
        },
    }
}

pub open spec fn mesh_spec(m: Json) -> Option<MeshView> {
    if !is_object(m) {
        None
    } else {
        match (member(m, "primitives"@), weights_spec(m)) {
            (Some(ps), Some(w)) => match items(ps) {
                Some(s) => match primitives_spec(s) {
                    Some(prims) => Some(MeshView { primitives: prims, weights: w }),
                    None => None,
                },
                None => None,
            },
            _ => None,
        }
    }
}

pub open spec fn name_spec(n: Json) -> Option<Seq<char>> {
    match member(n, "name"@) {
        None => Some(Seq::empty()),
        Some(Json::Str(s)) => Some(s@),
        Some(_) => None,
    }
}

pub open spec fn children_spec(n: Json) -> Option<Seq<usize>> {
    match member(n, "children"@) {
        None => Some(Seq::empty()),
        Some(c) => all_indices(c),
    }
}

/// Translation of the identity transform.
pub open spec fn default_translation() -> Seq<u64> {
    seq![ZERO_BITS, ZERO_BITS, ZERO_BITS]
}

/// Rotation of the identity transform (x, y, z, w).
pub open spec fn default_rotation() -> Seq<u64> {
    seq![ZERO_BITS, ZERO_BITS, ZERO_BITS, ONE_BITS]
}

/// Scale of the identity transform.
pub open spec fn default_scale() -> Seq<u64> {
    seq![ONE_BITS, ONE_BITS, ONE_BITS]
}

/// Opaque white.
pub open spec fn default_factor() -> Seq<u64> {
    seq![ONE_BITS, ONE_BITS, ONE_BITS, ONE_BITS]
}

pub open spec fn node_spec(n: Json) -> Option<NodeView> {
    if !is_object(n) {
        None
    } else {
        match (
            name_spec(n),
            children_spec(n),
            vector_member(n, "translation"@, 3, default_translation()),
            vector_member(n, "rotation"@, 4, default_rotation()),
            vector_member(n, "scale"@, 3, default_scale()),
            maybe_index(n, "mesh"@),
        ) {
            (Some(name), Some(ch), Some(t), Some(r), Some(s), Some(m)) => Some(
                NodeView {
                    name,
                    children: ch,
                    translation: t,
                    rotation: r,
                    scale: s,
                    element: match m {
                        Some(i) => Element::Mesh(i),
                        None => Element::Empty,
                    },
                },
            ),
            _ => None,
        }
    }
}

/// The root nodes that one scene lists.
pub open spec fn scene_roots_spec(s: Seq<Json>, i: int) -> Option<Seq<usize>> {
    if !is_object(s[i]) {
        None
    } else {
        match member(s[i], "nodes"@) {
            Some(n) => all_indices(n),
            None => None,
        }
    }
}

/// The root lists of all scenes, one after another.
pub open spec fn concat(s: Seq<Seq<usize>>) -> Seq<usize>
    decreases s.len(),
{
    if s.len() == 0 {
        Seq::empty()
    } else {
        concat(s.drop_last()) + s.last()
    }
}

/// The roots of the model: those of every scene, in document order.
pub open spec fn roots_spec(s: Seq<Json>) -> Option<Seq<usize>> {
    if forall|i: int| 0 <= i < s.len() ==> #[trigger] scene_roots_spec(s, i) is Some {
        Some(concat(Seq::new(s.len(), |i: int| scene_roots_spec(s, i).unwrap())))
    } else {
        None
    }
}

/// What the image decoder makes of the bytes: width, height and RGBA8
/// pixels, or nothing when they are not a decodable image.
pub uninterp spec fn decoded_image(bytes: Seq<u8>) -> Option<(u32, u32, Seq<u8>)>;

/// Relies on `image::load_from_memory`, which guesses the format from the
/// bytes and decodes them, and on `DynamicImage`'s `width`, `height` and
/// `into_rgba8`: what comes back depends on the bytes alone.
#[verifier::external_body]
fn decode_image(bytes: &[u8]) -> (r: Option<(u32, u32, Vec<u8>)>)
    ensures
        match r {
            Some(t) => decoded_image(bytes@) == Some((t.0, t.1, t.2@)),
            None => decoded_image(bytes@) is None,
        },
{
    let image = image::load_from_memory(bytes).ok()?;
    Some((image.width(), image.height(), image.into_rgba8().into_vec()))
}

/// An image slot: empty when the image has no buffer view or its bytes do
/// not decode; an error when the view does not exist or leaves the blob.
pub open spec fn image_spec(j: Json, views: Seq<BufferView>, blob: Seq<u8>) -> Option<Option<ImageView>> {
    if !is_object(j) {
        None
    } else {
        match member(j, "bufferView"@) {
            None => Some(None),
            Some(v) => match json_index(v) {
                Some(i) => if i < views.len() && views[i as int].offset + views[i as int].length <= blob.len() {
                    let bytes = blob.subrange(
                        views[i as int].offset as int,
                        views[i as int].offset + views[i as int].length,
                    );
                    match decoded_image(bytes) {
                        Some((w, h, px)) => Some(Some(ImageView { dims: seq![w, h, 4u32], buffer: px })),
                        None => Some(None),
                    }
                } else {
                    None
                },
                None => None,
            },
        }
    }
}

pub open spec fn texture_spec(j: Json) -> Option<usize> {
    if !is_object(j) {
        None
    } else {
        req_index(j, "source"@)
    }
}

/// The base colour texture of a metallic-roughness block; `textures` maps
/// texture indices to image indices.
pub open spec fn base_texture_spec(pbr: Json, textures: Seq<usize>) -> Option<Option<Texture>> {
    match member(pbr, "baseColorTexture"@) {
        None => Some(None),
        Some(t) => if !is_object(t) {
            None
        } else {
            match (req_index(t, "index"@), opt_index(t, "texCoord"@, 0)) {
                (Some(i), Some(tc)) => if i < textures.len() {
                    Some(Some(Texture { wrap_s: true, wrap_t: true, texcoord: tc, image: textures[i as int] }))
                } else {
                    None
                },
                _ => None,
            }
        },
    }
}

pub open spec fn material_spec(j: Json, textures: Seq<usize>) -> Option<MaterialView> {
    if !is_object(j) {
        None
    } else {
        match member(j, "pbrMetallicRoughness"@) {
            None => Some(MaterialView { base_color_factor: default_factor(), base_color_texture: None }),
            Some(pbr) => if !is_object(pbr) {
                None
            } else {
                match (vector_member(pbr, "baseColorFactor"@, 4, default_factor()), base_texture_spec(pbr, textures)) {
                    (Some(f), Some(t)) => Some(MaterialView { base_color_factor: f, base_color_texture: t }),
                    _ => None,
                }
            },
        }
    }
}

/// A top-level array that the document must hold.
pub open spec fn required_items(root: Json, key: Seq<char>) -> Option<Seq<Json>> {
    match member(root, key) {
        Some(a) => items(a),
        None => None,
    }
}

/// A top-level array that may be absent (then empty).
pub open spec fn optional_items(root: Json, key: Seq<char>) -> Option<Seq<Json>> {
    match member(root, key) {
        Some(a) => items(a),
        None => Some(Seq::empty()),
    }
}

pub open spec fn views_spec(s: Seq<Json>) -> Option<Seq<BufferView>> {
    parse_each(s, |j: Json| view_spec(j))
}

pub open spec fn accessors_spec(s: Seq<Json>, views: Seq<BufferView>, blob_len: nat) -> Option<Seq<Accessor>> {
    parse_each(s, |j: Json| accessor_spec(j, views, blob_len))
}

pub open spec fn meshes_spec(s: Seq<Json>) -> Option<Seq<MeshView>> {
    parse_each(s, |j: Json| mesh_spec(j))
}

pub open spec fn nodes_spec(s: Seq<Json>) -> Option<Seq<NodeView>> {
    parse_each(s, |j: Json| node_spec(j))
}

pub open spec fn images_spec(s: Seq<Json>, views: Seq<BufferView>, blob: Seq<u8>) -> Option<Seq<Option<ImageView>>> {
    parse_each(s, |j: Json| image_spec(j, views, blob))
}

pub open spec fn textures_spec(s: Seq<Json>) -> Option<Seq<usize>> {
    parse_each(s, |j: Json| texture_spec(j))
}

pub open spec fn materials_spec(s: Seq<Json>, textures: Seq<usize>) -> Option<Seq<MaterialView>> {
    parse_each(s, |j: Json| material_spec(j, textures))
}

pub open spec fn section<T>(s: Option<Seq<Json>>, f: spec_fn(Seq<Json>) -> Option<T>) -> Option<T> {
    match s {
        Some(s) => f(s),
        None => None,
    }
}

/// The scene model that a document and its blob describe, or `None` when
/// the document is structurally invalid or refers to something that does
/// not exist.
pub open spec fn document_spec(root: Json, blob: Seq<u8>) -> Option<GlbView> {
    match section(required_items(root, "bufferViews"@), |s: Seq<Json>| views_spec(s)) {
        None => None,
        Some(views) => match section(optional_items(root, "textures"@), |s: Seq<Json>| textures_spec(s)) {
            None => None,
            Some(textures) => match (
                section(required_items(root, "accessors"@), |s: Seq<Json>| accessors_spec(s, views, blob.len())),
                section(required_items(root, "meshes"@), |s: Seq<Json>| meshes_spec(s)),
                section(required_items(root, "nodes"@), |s: Seq<Json>| nodes_spec(s)),
                section(required_items(root, "scenes"@), |s: Seq<Json>| roots_spec(s)),
                section(optional_items(root, "images"@), |s: Seq<Json>| images_spec(s, views, blob)),
                section(optional_items(root, "materials"@), |s: Seq<Json>| materials_spec(s, textures)),
            ) {
                (Some(a), Some(m), Some(n), Some(r), Some(im), Some(mat)) => {
                    let g = GlbView { materials: mat, accessors: a, meshes: m, nodes: n, roots: r, blob, images: im };
                    if g.wf() {
                        Some(g)
                    } else {
                        None
                    }
                },
                _ => None,
            },
        },
    }
}

fn is_object_exec(j: &Json) -> (r: bool)
    ensures
        r == is_object(*j),
{
    match j {
        Json::Object(_) => true,
        _ => false,
    }
}

fn get_opt_index(j: &Json, key: &str, default: usize) -> (r: Option<usize>)
    ensures
        r == opt_index(*j, key@, default),
{
    match get_member(j, key) {
        Some(v) => get_usize(v),
        None => Some(default),
    }
}

fn get_maybe_index(j: &Json, key: &str) -> (r: Option<Option<usize>>)
    ensures
        r == maybe_index(*j, key@),
{
    match get_member(j, key) {
        Some(v) => match get_usize(v) {
            Some(i) => Some(Some(i)),
            None => None,
        },
        None => Some(None),
    }
}

fn get_req_index(j: &Json, key: &str) -> (r: Option<usize>)
    ensures
        r == req_index(*j, key@),
{
    match get_member(j, key) {
        Some(v) => get_usize(v),
        None => None,
    }
}

/// The elements of an array value.
fn get_items(j: &Json) -> (r: Option<&Vec<Json>>)
    ensures
        match r {
            Some(v) => items(*j) == Some(v@),
            None => items(*j) is None,
        },
{
    match j {
        Json::Array(v) => Some(v),
        _ => None,
    }
}

/// The bit patterns of an array of numbers.
fn get_numbers(j: &Json) -> (r: Option<Vec<u64>>)
    ensures
        match r {
            Some(v) => all_numbers(*j) == Some(v@),
            None => all_numbers(*j) is None,
        },
{
    let s = match get_items(j) {
        Some(s) => s,
        None => return None,
    };
    let mut out: Vec<u64> = Vec::new();
    let mut i: usize = 0;
    while i < s.len()
        invariant
            items(*j) == Some(s@),
            i <= s@.len(),
            out@.len() == i,
            forall|k: int| 0 <= k < i ==> number_bits(s@[k]) == Some(#[trigger] out@[k]),
        decreases s.len() - i,
    {
        match &s[i] {
            Json::Number(b) => out.push(*b),
            _ => {
                proof {
                    lemma_parse_each_fails(s@, |e: Json| number_bits(e), i as int);
                }
                return None;
            },
        }
        i = i + 1;
    }
    proof {
        lemma_parse_each(s@, |e: Json| number_bits(e), out@);
    }
    Some(out)
}

/// The indices of an array of numbers.
fn get_indices(j: &Json) -> (r: Option<Vec<usize>>)
    ensures
        match r {
            Some(v) => all_indices(*j) == Some(v@),
            None => all_indices(*j) is None,
        },
{
    let s = match get_items(j) {
        Some(s) => s,
        None => return None,
    };
    let mut out: Vec<usize> = Vec::new();
    let mut i: usize = 0;
    while i < s.len()
        invariant
            items(*j) == Some(s@),
            i <= s@.len(),
            out@.len() == i,
            forall|k: int| 0 <= k < i ==> json_index(s@[k]) == Some(#[trigger] out@[k]),
        decreases s.len() - i,
    {
        match get_usize(&s[i]) {
            Some(x) => out.push(x),
            None => {
                proof {
                    lemma_parse_each_fails(s@, |e: Json| json_index(e), i as int);
                }
                return None;
            },
        }
        i = i + 1;
    }
    proof {
        lemma_parse_each(s@, |e: Json| json_index(e), out@);
    }
    Some(out)
}

/// A member holding exactly `n` numbers, `default` when absent.
fn get_vector(j: &Json, key: &str, n: usize, default: Vec<u64>) -> (r: Option<Vec<u64>>)
    ensures
        match r {
            Some(v) => vector_member(*j, key@, n as nat, default@) == Some(v@),
            None => vector_member(*j, key@, n as nat, default@) is None,
        },
{
    match get_member(j, key) {
        Some(v) => match get_numbers(v) {
            Some(b) => if b.len() == n {
                Some(b)
            } else {
                None
            },
            None => None,
        },
        None => Some(default),
    }
}

/// Components per element of an accessor `type` string; `None` for an
/// unknown one.
pub fn component_count(t: &String) -> (r: Option<usize>)
    ensures
        r == component_count_spec(t@),
{
    if *t == String::from_str("SCALAR") {
        Some(1)
    } else if *t == String::from_str("VEC2") {
        Some(2)
    } else if *t == String::from_str("VEC3") {
        Some(3)
    } else if *t == String::from_str("VEC4") {
        Some(4)
    } else if *t == String::from_str("MAT4") {
        Some(16)
    } else {
        None
    }
}

fn load_view(j: &Json) -> (r: Option<BufferView>)
    ensures
        r == view_spec(*j),
{
    if !is_object_exec(j) {
        return None;
    }
    match (get_opt_index(j, "byteOffset", 0), get_opt_index(j, "byteLength", 0), get_maybe_index(j, "byteStride")) {
        (Some(o), Some(l), Some(s)) => Some(BufferView { offset: o, length: l, stride: s }),
        _ => None,
    }
}

fn load_accessor(j: &Json, views: &Vec<BufferView>, blob_len: usize) -> (r: Option<Accessor>)
    ensures
        r == accessor_spec(*j, views@, blob_len as nat),
{
    if !is_object_exec(j) {
        return None;
    }
    let cc = match get_member(j, "type") {
        Some(Json::Str(t)) => component_count(t),
        _ => None,
    };
    match (
        get_req_index(j, "bufferView"),
        get_opt_index(j, "byteOffset", 0),
        get_req_index(j, "count"),
        get_req_index(j, "componentType"),
        cc,
    ) {
        (Some(v), Some(o), Some(n), Some(ct), Some(cc)) => {
            if v >= views.len() {
                return None;
            }
            let view = views[v];
            let offset = match view.offset.checked_add(o) {
                Some(x) => x,
                None => return None,
            };
            let a = Accessor {
                offset,
                count: n,
                stride: view.stride,
                component_type: ct,
                component_count: cc,
            };
            if a.lies_within(blob_len) {
                Some(a)
            } else {
                None
            }
        },
        _ => None,
    }
}

/// Reads the four vertex stream indices of an attribute set.
fn load_attributes(j: &Json) -> (r: Option<Attributes>)
    ensures
        r == attributes_spec(*j),
{
    if !is_object_exec(j) {
        return None;
    }
    match (
        get_maybe_index(j, "POSITION"),
        get_maybe_index(j, "NORMAL"),
        get_maybe_index(j, "TEXCOORD_0"),
        get_maybe_index(j, "TEXCOORD_1"),
    ) {
        (Some(p), Some(n), Some(t0), Some(t1)) => Some(
            Attributes { position: p, normal: n, texcoord_0: t0, texcoord_1: t1 },
        ),
        _ => None,
    }
}

fn load_targets(p: &Json) -> (r: Option<Vec<Attributes>>)
    ensures
        match r {
            Some(v) => targets_spec(*p) == Some(v@),
            None => targets_spec(*p) is None,
        },
{
    let t = match get_member(p, "targets") {
        Some(t) => t,
        None => {
            let empty: Vec<Attributes> = Vec::new();
            assert(empty@ =~= Seq::<Attributes>::empty());
            return Some(empty);
        },
    };
    let s = match get_items(t) {
        Some(s) => s,
        None => return None,
    };
    let mut out: Vec<Attributes> = Vec::new();
    let mut i: usize = 0;
    while i < s.len()
        invariant
            targets_spec(*p) == attributes_list_spec(s@),
            i <= s@.len(),
            out@.len() == i,
            forall|k: int| 0 <= k < i ==> attributes_spec(s@[k]) == Some(#[trigger] out@[k]),
        decreases s.len() - i,
    {
        match load_attributes(&s[i]) {
            Some(a) => out.push(a),
            None => {
                proof {
                    lemma_parse_each_fails(s@, |j: Json| attributes_spec(j), i as int);
                }
                return None;
            },
        }
        i = i + 1;
    }
    proof {
        lemma_parse_each(s@, |j: Json| attributes_spec(j), out@);
    }
    Some(out)
}

fn load_primitive(p: &Json) -> (r: Option<Primitive>)
    ensures
        match r {
            Some(x) => primitive_spec(*p) == Some(x@),
            None => primitive_spec(*p) is None,
        },
{
    if !is_object_exec(p) {
        return None;
    }
    match (get_member(p, "attributes"), load_targets(p), get_maybe_index(p, "indices"), get_maybe_index(p, "material")) {
        (Some(a), Some(t), Some(i), Some(m)) => match load_attributes(a) {
            Some(at) => Some(Primitive { attributes: at, targets: t, indices: i, material: m }),
            None => None,
        },
        _ => None,
    }
}

fn load_primitives(s: &Vec<Json>) -> (r: Option<Vec<Primitive>>)
    ensures
        match r {
            Some(v) => primitives_spec(s@) == Some(primitive_views(v@)),
            None => primitives_spec(s@) is None,
        },
{
    let mut out: Vec<Primitive> = Vec::new();
    let mut i: usize = 0;
    while i < s.len()
        invariant
            i <= s@.len(),
            out@.len() == i,
            forall|k: int| 0 <= k < i ==> primitive_spec(s@[k]) == Some(#[trigger] out@[k]@),
        decreases s.len() - i,
    {
        match load_primitive(&s[i]) {
            Some(x) => out.push(x),
            None => {
                proof {
                    lemma_parse_each_fails(s@, |j: Json| primitive_spec(j), i as int);
                }
                return None;
            },
        }
        i = i + 1;
    }
    proof {
        let views = primitive_views(out@);
        assert forall|k: int| 0 <= k < s@.len() implies primitive_spec(s@[k]) == Some(#[trigger] views[k]) by {
            assert(views[k] == out@[k]@);
        }
        lemma_parse_each(s@, |j: Json| primitive_spec(j), views);
    }
    Some(out)
}

fn load_weights(m: &Json) -> (r: Option<Option<Vec<u64>>>)
    ensures
        match r {
            Some(Some(w)) => weights_spec(*m) == Some(Some(w@)),
            Some(None) => weights_spec(*m) == Some(None::<Seq<u64>>),
            None => weights_spec(*m) is None,
        },
{
    match get_member(m, "weights") {
        None => Some(None),
        Some(w) => match get_numbers(w) {
            Some(b) => Some(Some(b)),
            None => None,
        },
    }
}

fn load_mesh(m: &Json) -> (r: Option<Mesh>)
    ensures
        match r {
            Some(x) => mesh_spec(*m) == Some(x@),
            None => mesh_spec(*m) is None,
        },
{
    if !is_object_exec(m) {
        return None;
    }
    match (get_member(m, "primitives"), load_weights(m)) {
        (Some(ps), Some(w)) => match get_items(ps) {
            Some(s) => match load_primitives(s) {
                Some(prims) => Some(Mesh { primitives: prims, weights: w }),
                None => None,
            },
            None => None,
        },
        _ => None,
    }
}

fn to_array3(v: &Vec<u64>) -> (r: [u64; 3])
    requires
        v@.len() == 3,
    ensures
        r@ == v@,
{
    let r = [v[0], v[1], v[2]];
    assert(r@ =~= v@);
    r
}

fn to_array4(v: &Vec<u64>) -> (r: [u64; 4])
    requires
        v@.len() == 4,
    ensures
        r@ == v@,
{
    let r = [v[0], v[1], v[2], v[3]];
    assert(r@ =~= v@);
    r
}

fn load_name(n: &Json) -> (r: Option<String>)
    ensures
        match r {
            Some(x) => name_spec(*n) == Some(x@),
            None => name_spec(*n) is None,
        },
{
    match get_member(n, "name") {
        None => Some(String::new()),
        Some(Json::Str(s)) => Some(s.clone()),
        Some(_) => None,
    }
}

fn load_children(n: &Json) -> (r: Option<Vec<usize>>)
    ensures
        match r {
            Some(x) => children_spec(*n) == Some(x@),
            None => children_spec(*n) is None,
        },
{
    match get_member(n, "children") {
        None => {
            let empty: Vec<usize> = Vec::new();
            assert(empty@ =~= Seq::<usize>::empty());
            Some(empty)
        },
        Some(c) => get_indices(c),
    }
}

fn load_node(n: &Json) -> (r: Option<Node>)
    ensures
        match r {
            Some(x) => node_spec(*n) == Some(x@),
            None => node_spec(*n) is None,
        },
{
    if !is_object_exec(n) {
        return None;
    }
    let dt = vec![ZERO_BITS, ZERO_BITS, ZERO_BITS];
    let dr = vec![ZERO_BITS, ZERO_BITS, ZERO_BITS, ONE_BITS];
    let ds = vec![ONE_BITS, ONE_BITS, ONE_BITS];
    assert(dt@ =~= default_translation());
    assert(dr@ =~= default_rotation());
    assert(ds@ =~= default_scale());
    match (
        load_name(n),
        load_children(n),
        get_vector(n, "translation", 3, dt),
        get_vector(n, "rotation", 4, dr),
        get_vector(n, "scale", 3, ds),
        get_maybe_index(n, "mesh"),
    ) {
        (Some(name), Some(children), Some(t), Some(r), Some(s), Some(m)) => Some(
            Node {
                name,
                children,
                translation: to_array3(&t),
                rotation: to_array4(&r),
                scale: to_array3(&s),
                element: match m {
                    Some(i) => Element::Mesh(i),
                    None => Element::Empty,
                },
            },
        ),
        _ => None,
    }
}

fn load_scene_roots(s: &Vec<Json>, i: usize) -> (r: Option<Vec<usize>>)
    requires
        i < s@.len(),
    ensures
        match r {
            Some(x) => scene_roots_spec(s@, i as int) == Some(x@),
            None => scene_roots_spec(s@, i as int) is None,
        },
{
    if !is_object_exec(&s[i]) {
        return None;
    }
    match get_member(&s[i], "nodes") {
        Some(n) => get_indices(n),
        None => None,
    }
}

fn load_image(j: &Json, views: &Vec<BufferView>, blob: &Vec<u8>) -> (r: Option<Option<Image>>)
    ensures
        match r {
            Some(x) => image_spec(*j, views@, blob@) == Some(image_slot_view(x)),
            None => image_spec(*j, views@, blob@) is None,
        },
{
    if !is_object_exec(j) {
        return None;
    }
    let v = match get_member(j, "bufferView") {
        None => return Some(None),
        Some(v) => v,
    };
    let i = match get_usize(v) {
        Some(i) => i,
        None => return None,
    };
    if i >= views.len() {
        return None;
    }
    let view = views[i];
    if view.length > blob.len() || view.offset > blob.len() - view.length {
        return None;
    }
    let bytes = slice_subrange(blob.as_slice(), view.offset, view.offset + view.length);
    match decode_image(bytes) {
        Some((w, h, px)) => {
            let image = Image { dims: [w, h, 4], buffer: px };
            assert(image@.dims =~= seq![w, h, 4u32]);
            Some(Some(image))
        },
        None => Some(None),
    }
}

fn load_texture(j: &Json) -> (r: Option<usize>)
    ensures
        r == texture_spec(*j),
{
    if !is_object_exec(j) {
        return None;
    }
    get_req_index(j, "source")
}

fn load_base_texture(pbr: &Json, textures: &Vec<usize>) -> (r: Option<Option<Texture>>)
    ensures
        r == base_texture_spec(*pbr, textures@),
{
    let t = match get_member(pbr, "baseColorTexture") {
        None => return Some(None),
        Some(t) => t,
    };
    if !is_object_exec(t) {
        return None;
    }
    match (get_req_index(t, "index"), get_opt_index(t, "texCoord", 0)) {
        (Some(i), Some(tc)) => if i < textures.len() {
            Some(Some(Texture { wrap_s: true, wrap_t: true, texcoord: tc, image: textures[i] }))
        } else {
            None
        },
        _ => None,
    }
}

fn load_material(j: &Json, textures: &Vec<usize>) -> (r: Option<Material>)
    ensures
        match r {
            Some(x) => material_spec(*j, textures@) == Some(x@),
            None => material_spec(*j, textures@) is None,
        },
{
    if !is_object_exec(j) {
        return None;
    }
    let white = vec![ONE_BITS, ONE_BITS, ONE_BITS, ONE_BITS];
    assert(white@ =~= default_factor());
    let pbr = match get_member(j, "pbrMetallicRoughness") {
        None => {
            let m = Material { base_color_factor: to_array4(&white), base_color_texture: None };
            return Some(m);
        },
        Some(pbr) => pbr,
    };
    if !is_object_exec(pbr) {
        return None;
    }
    match (get_vector(pbr, "baseColorFactor", 4, white), load_base_texture(pbr, textures)) {
        (Some(f), Some(t)) => Some(Material { base_color_factor: to_array4(&f), base_color_texture: t }),
        _ => None,
    }
}

fn get_section<'a>(root: &'a Json, key: &str) -> (r: Option<&'a Vec<Json>>)
    ensures
        match r {
            Some(v) => member(*root, key@) is Some && items(member(*root, key@).unwrap()) == Some(v@),
            None => member(*root, key@) is None || items(member(*root, key@).unwrap()) is None,
        },
{
    match get_member(root, key) {
        Some(a) => get_items(a),
        None => None,
    }
}

fn load_views(s: &Vec<Json>) -> (r: Option<Vec<BufferView>>)
    ensures
        match r {
            Some(v) => views_spec(s@) == Some(v@),
            None => views_spec(s@) is None,
        },
{
    let mut out: Vec<BufferView> = Vec::new();
    let mut i: usize = 0;
    while i < s.len()
        invariant
            i <= s@.len(),
            out@.len() == i,
            forall|k: int| 0 <= k < i ==> view_spec(s@[k]) == Some(#[trigger] out@[k]),
        decreases s.len() - i,
    {
        match load_view(&s[i]) {
            Some(x) => out.push(x),
            None => {
                proof {
                    lemma_parse_each_fails(s@, |j: Json| view_spec(j), i as int);
                }
                return None;
            },
        }
        i = i + 1;
    }
    proof {
        lemma_parse_each(s@, |j: Json| view_spec(j), out@);
    }
    Some(out)
}

fn load_accessors(s: &Vec<Json>, views: &Vec<BufferView>, blob_len: usize) -> (r: Option<Vec<Accessor>>)
    ensures
        match r {
            Some(v) => accessors_spec(s@, views@, blob_len as nat) == Some(v@),
            None => accessors_spec(s@, views@, blob_len as nat) is None,
        },
{
    let mut out: Vec<Accessor> = Vec::new();
    let mut i: usize = 0;
    while i < s.len()
        invariant
            i <= s@.len(),
            out@.len() == i,
            forall|k: int| 0 <= k < i ==> accessor_spec(s@[k], views@, blob_len as nat) == Some(#[trigger] out@[k]),
        decreases s.len() - i,
    {
        match load_accessor(&s[i], views, blob_len) {
            Some(x) => out.push(x),
            None => {
                proof {
                    lemma_parse_each_fails(s@, |j: Json| accessor_spec(j, views@, blob_len as nat), i as int);
                }
                return None;
            },
        }
        i = i + 1;
    }
    proof {
        lemma_parse_each(s@, |j: Json| accessor_spec(j, views@, blob_len as nat), out@);
    }
    Some(out)
}

fn load_meshes(s: &Vec<Json>) -> (r: Option<Vec<Mesh>>)
    ensures
        match r {
            Some(v) => meshes_spec(s@) == Some(mesh_views(v@)),
            None => meshes_spec(s@) is None,
        },
{
    let mut out: Vec<Mesh> = Vec::new();
    let mut i: usize = 0;
    while i < s.len()
        invariant
            i <= s@.len(),
            out@.len() == i,
            forall|k: int| 0 <= k < i ==> mesh_spec(s@[k]) == Some(#[trigger] out@[k]@),
        decreases s.len() - i,
    {
        match load_mesh(&s[i]) {
            Some(x) => out.push(x),
            None => {
                proof {
                    lemma_parse_each_fails(s@, |j: Json| mesh_spec(j), i as int);
                }
                return None;
            },
        }
        i = i + 1;
    }
    proof {
        let views = mesh_views(out@);
        assert forall|k: int| 0 <= k < s@.len() implies mesh_spec(s@[k]) == Some(#[trigger] views[k]) by {
            assert(views[k] == out@[k]@);
        }
        lemma_parse_each(s@, |j: Json| mesh_spec(j), views);
    }
    Some(out)
}

fn load_nodes(s: &Vec<Json>) -> (r: Option<Vec<Node>>)
    ensures
        match r {
            Some(v) => nodes_spec(s@) == Some(node_views(v@)),
            None => nodes_spec(s@) is None,
        },
{
    let mut out: Vec<Node> = Vec::new();
    let mut i: usize = 0;
    while i < s.len()
        invariant
            i <= s@.len(),
            out@.len() == i,
            forall|k: int| 0 <= k < i ==> node_spec(s@[k]) == Some(#[trigger] out@[k]@),
        decreases s.len() - i,
    {
        match load_node(&s[i]) {
            Some(x) => out.push(x),
            None => {
                proof {
                    lemma_parse_each_fails(s@, |j: Json| node_spec(j), i as int);
                }
                return None;
            },
        }
        i = i + 1;
    }
    proof {
        let views = node_views(out@);
        assert forall|k: int| 0 <= k < s@.len() implies node_spec(s@[k]) == Some(#[trigger] views[k]) by {
            assert(views[k] == out@[k]@);
        }
        lemma_parse_each(s@, |j: Json| node_spec(j), views);
    }
    Some(out)
}

fn load_roots(s: &Vec<Json>) -> (r: Option<Vec<usize>>)
    ensures
        match r {
            Some(v) => roots_spec(s@) == Some(v@),
            None => roots_spec(s@) is None,
        },
{
    let mut out: Vec<usize> = Vec::new();
    let mut i: usize = 0;
    while i < s.len()
        invariant
            i <= s@.len(),
            forall|k: int| 0 <= k < i ==> #[trigger] scene_roots_spec(s@, k) is Some,
            out@ == concat(Seq::new(i as nat, |k: int| scene_roots_spec(s@, k).unwrap())),
        decreases s.len() - i,
    {
        match load_scene_roots(s, i) {
            Some(x) => {
                let mut x = x;
                let ghost prev = Seq::new(i as nat, |k: int| scene_roots_spec(s@, k).unwrap());
                let ghost next = Seq::new((i + 1) as nat, |k: int| scene_roots_spec(s@, k).unwrap());
                assert(next.drop_last() =~= prev);
                out.append(&mut x);
                assert(out@ == concat(next));
            },
            None => return None,
        }
        i = i + 1;
    }
    Some(out)
}

fn load_images(s: &Vec<Json>, views: &Vec<BufferView>, blob: &Vec<u8>) -> (r: Option<Vec<Option<Image>>>)
    ensures
        match r {
            Some(v) => images_spec(s@, views@, blob@) == Some(image_views(v@)),
            None => images_spec(s@, views@, blob@) is None,
        },
{
    let mut out: Vec<Option<Image>> = Vec::new();
    let mut i: usize = 0;
    while i < s.len()
        invariant
            i <= s@.len(),
            out@.len() == i,
            forall|k: int| 0 <= k < i ==> image_spec(s@[k], views@, blob@) == Some(image_slot_view(#[trigger] out@[k])),
        decreases s.len() - i,
    {
        match load_image(&s[i], views, blob) {
            Some(x) => out.push(x),
            None => {
                proof {
                    lemma_parse_each_fails(s@, |j: Json| image_spec(j, views@, blob@), i as int);
                }
                return None;
            },
        }
        i = i + 1;
    }
    proof {
        let iv = image_views(out@);
        assert forall|k: int| 0 <= k < s@.len() implies image_spec(s@[k], views@, blob@) == Some(#[trigger] iv[k]) by {
            assert(iv[k] == image_slot_view(out@[k]));
        }
        lemma_parse_each(s@, |j: Json| image_spec(j, views@, blob@), iv);
    }
    Some(out)
}

fn load_textures(s: &Vec<Json>) -> (r: Option<Vec<usize>>)
    ensures
        match r {
            Some(v) => textures_spec(s@) == Some(v@),
            None => textures_spec(s@) is None,
        },
{
    let mut out: Vec<usize> = Vec::new();
    let mut i: usize = 0;
    while i < s.len()
        invariant
            i <= s@.len(),
            out@.len() == i,
            forall|k: int| 0 <= k < i ==> texture_spec(s@[k]) == Some(#[trigger] out@[k]),
        decreases s.len() - i,
    {
        match load_texture(&s[i]) {
            Some(x) => out.push(x),
            None => {
                proof {
                    lemma_parse_each_fails(s@, |j: Json| texture_spec(j), i as int);
                }
                return None;
            },
        }
        i = i + 1;
    }
    proof {
        lemma_parse_each(s@, |j: Json| texture_spec(j), out@);
    }
    Some(out)
}

fn load_materials(s: &Vec<Json>, textures: &Vec<usize>) -> (r: Option<Vec<Material>>)
    ensures
        match r {
            Some(v) => materials_spec(s@, textures@) == Some(material_views(v@)),
            None => materials_spec(s@, textures@) is None,
        },
{
    let mut out: Vec<Material> = Vec::new();
    let mut i: usize = 0;
    while i < s.len()
        invariant
            i <= s@.len(),
            out@.len() == i,
            forall|k: int| 0 <= k < i ==> material_spec(s@[k], textures@) == Some(#[trigger] out@[k]@),
        decreases s.len() - i,
    {
        match load_material(&s[i], textures) {
            Some(x) => out.push(x),
            None => {
                proof {
                    lemma_parse_each_fails(s@, |j: Json| material_spec(j, textures@), i as int);
                }
                return None;
            },
        }
        i = i + 1;
    }
    proof {
        let mv = material_views(out@);
        assert forall|k: int| 0 <= k < s@.len() implies material_spec(s@[k], textures@) == Some(#[trigger] mv[k]) by {
            assert(mv[k] == out@[k]@);
        }
        lemma_parse_each(s@, |j: Json| material_spec(j, textures@), mv);
    }
    Some(out)
}

/// Reads the scene model out of a parsed document and its binary blob.
/// Fails with `LoadError::Schema`, and returns no part of a model, exactly
/// when `document_spec` finds the document invalid.
pub fn load_root(root: &Json, blob: Vec<u8>) -> (r: Result<Glb, LoadError>)
    ensures
        match r {
            Ok(g) => document_spec(*root, blob@) == Some(g@) && g@.wf(),
            Err(e) => e == LoadError::Schema && document_spec(*root, blob@) is None,
        },
{
    let views = match get_section(root, "bufferViews") {
        Some(s) => match load_views(s) {
            Some(v) => v,
            None => return Err(LoadError::Schema),
        },
        None => return Err(LoadError::Schema),
    };
    let textures = match get_member(root, "textures") {
        Some(t) => match get_items(t) {
            Some(s) => match load_textures(s) {
                Some(v) => v,
                None => return Err(LoadError::Schema),
            },
            None => return Err(LoadError::Schema),
        },
        None => {
            let empty: Vec<usize> = Vec::new();
            proof {
                lemma_parse_each(Seq::<Json>::empty(), |j: Json| texture_spec(j), empty@);
            }
            empty
        },
    };
    let accessors = match get_section(root, "accessors") {
        Some(s) => load_accessors(s, &views, blob.len()),
        None => None,
    };
    let meshes = match get_section(root, "meshes") {
        Some(s) => load_meshes(s),
        None => None,
    };
    let nodes = match get_section(root, "nodes") {
        Some(s) => load_nodes(s),
        None => None,
    };
    let roots = match get_section(root, "scenes") {
        Some(s) => load_roots(s),
        None => None,
    };
    let images = match get_member(root, "images") {
        Some(t) => match get_items(t) {
            Some(s) => load_images(s, &views, &blob),
            None => None,
        },
        None => {
            let empty: Vec<Option<Image>> = Vec::new();
            proof {
                assert(image_views(empty@) =~= Seq::empty());
                lemma_parse_each(Seq::<Json>::empty(), |j: Json| image_spec(j, views@, blob@), image_views(empty@));
            }
            Some(empty)
        },
    };
    let materials = match get_member(root, "materials") {
        Some(t) => match get_items(t) {
            Some(s) => load_materials(s, &textures),
            None => None,
        },
        None => {
            let empty: Vec<Material> = Vec::new();
            proof {
                assert(material_views(empty@) =~= Seq::empty());
                lemma_parse_each(Seq::<Json>::empty(), |j: Json| material_spec(j, textures@), material_views(empty@));
            }
            Some(empty)
        },
    };
    match (accessors, meshes, nodes, roots, images, materials) {
        (Some(accessors), Some(meshes), Some(nodes), Some(roots), Some(images), Some(materials)) => {
            let g = Glb { materials, accessors, meshes, nodes, roots, blob, images };
            if g.is_well_formed() {
                Ok(g)
            } else {
                Err(LoadError::Schema)
            }
        },
        _ => Err(LoadError::Schema),
    }
}

/// Every accessor's resolved offset is the offset of the buffer view it
/// names plus its own byte offset, each defaulting to zero.
pub proof fn lemma_accessor_offset(root: Json, blob: Seq<u8>, i: int)
    requires
        document_spec(root, blob) is Some,
        0 <= i < document_spec(root, blob).unwrap().accessors.len(),
    ensures
        ({
            let a = required_items(root, "accessors"@).unwrap()[i];
            let bv = required_items(root, "bufferViews"@).unwrap()[req_index(a, "bufferView"@).unwrap() as int];
            document_spec(root, blob).unwrap().accessors[i].offset == opt_index(bv, "byteOffset"@, 0).unwrap()
                + opt_index(a, "byteOffset"@, 0).unwrap()
        }),
{
    let bvs = required_items(root, "bufferViews"@).unwrap();
    let views = views_spec(bvs).unwrap();
    let s = required_items(root, "accessors"@).unwrap();
    let acc = accessors_spec(s, views, blob.len()).unwrap();
    assert(document_spec(root, blob).unwrap().accessors == acc);
    assert(acc.len() == s.len());
    assert(accessor_spec(s[i], views, blob.len()) is Some);
    assert(acc[i] == accessor_spec(s[i], views, blob.len()).unwrap());
    let v = req_index(s[i], "bufferView"@).unwrap();
    assert(v < views.len());
    assert(views[v as int] == view_spec(bvs[v as int]).unwrap());
}

/// An accessor whose `type` is a string other than `SCALAR`, `VEC2`,
/// `VEC3`, `VEC4` and `MAT4` makes the whole document invalid.
pub proof fn lemma_unknown_type_rejected(root: Json, blob: Seq<u8>, i: int)
    requires
        required_items(root, "accessors"@) is Some,
        0 <= i < required_items(root, "accessors"@).unwrap().len(),
        match member(required_items(root, "accessors"@).unwrap()[i], "type"@) {
            Some(Json::Str(t)) => component_count_spec(t@) is None,
            _ => false,
        },
    ensures
        document_spec(root, blob) is None,
{
    let s = required_items(root, "accessors"@).unwrap();
    if let Some(bvs) = required_items(root, "bufferViews"@) {
        if let Some(views) = views_spec(bvs) {
            assert(accessor_spec(s[i], views, blob.len()) is None);
            lemma_parse_each_fails(s, |j: Json| accessor_spec(j, views, blob.len()), i);
        }
    }
}

/// A node without `translation`, `rotation` and `scale` members gets the
/// identity transform: zero translation, the identity rotation (0, 0, 0, 1)
/// and unit scale.
pub proof fn lemma_node_defaults(n: Json)
    requires
        node_spec(n) is Some,
        member(n, "translation"@) is None,
        member(n, "rotation"@) is None,
        member(n, "scale"@) is None,
    ensures
        node_spec(n).unwrap().translation == seq![ZERO_BITS, ZERO_BITS, ZERO_BITS],
        node_spec(n).unwrap().rotation == seq![ZERO_BITS, ZERO_BITS, ZERO_BITS, ONE_BITS],
        node_spec(n).unwrap().scale == seq![ONE_BITS, ONE_BITS, ONE_BITS],
{
}

} // verus!
