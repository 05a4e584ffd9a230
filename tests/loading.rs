use glb_scene::container::{read_container, LoadError};
use glb_scene::json::{get_usize, number_to_index, Json};
use glb_scene::loader::{component_count, load_root};
use glb_scene::render::{draw_mesh, render_frame, render_plan, DrawCall, FrameDraw, IndexFormat, Visit};
use glb_scene::scene::{Element, Glb, Node, ONE_BITS, ZERO_BITS};
use tinyjson::JsonValue;

fn to_json(v: &JsonValue) -> Json {
    match v {
        JsonValue::Number(n) => Json::Number(n.to_bits()),
        JsonValue::Boolean(b) => Json::Boolean(*b),
        JsonValue::String(s) => Json::Str(s.clone()),
        JsonValue::Null => Json::Null,
        JsonValue::Array(a) => Json::Array(a.iter().map(to_json).collect()),
        JsonValue::Object(o) => Json::Object(o.iter().map(|(k, v)| (k.clone(), to_json(v))).collect()),
    }
}

fn parse(text: &str) -> Json {
    to_json(&text.parse::<JsonValue>().unwrap())
}

fn load(text: &str, blob_len: usize) -> Result<Glb, LoadError> {
    load_root(&parse(text), vec![0; blob_len])
}

fn bits_to_f32(b: u64) -> f32 {
    f64::from_bits(b) as f32
}

fn transform(n: &Node) -> nalgebra::Matrix4<f32> {
    let t = nalgebra::Vector3::new(bits_to_f32(n.translation[0]), bits_to_f32(n.translation[1]), bits_to_f32(n.translation[2]));
    let r = nalgebra::UnitQuaternion::from_quaternion(nalgebra::Quaternion::new(
        bits_to_f32(n.rotation[3]),
        bits_to_f32(n.rotation[0]),
        bits_to_f32(n.rotation[1]),
        bits_to_f32(n.rotation[2]),
    ));
    let s = nalgebra::Vector3::new(bits_to_f32(n.scale[0]), bits_to_f32(n.scale[1]), bits_to_f32(n.scale[2]));
    nalgebra::Matrix4::new_translation(&t) * r.to_homogeneous() * nalgebra::Matrix4::new_nonuniform_scaling(&s)
}

const MINIMAL: &str = r#"{"bufferViews":[],"accessors":[],"meshes":[],"nodes":[],"scenes":[]}"#;

fn frame(g: &Glb) -> Vec<DrawCall> {
    render_frame(g).draws.iter().map(|d| d.call).collect()
}

#[test]
fn numbers_become_indices_as_a_cast_would() {
    assert_eq!(number_to_index(3.0f64.to_bits()), 3);
    assert_eq!(number_to_index(2.7f64.to_bits()), 2);
    assert_eq!(number_to_index(0.5f64.to_bits()), 0);
    assert_eq!(number_to_index((-1.0f64).to_bits()), 0);
    assert_eq!(number_to_index(f64::NAN.to_bits()), 0);
    assert_eq!(number_to_index(1e30f64.to_bits()), usize::MAX);
    assert_eq!(number_to_index(f64::INFINITY.to_bits()), usize::MAX);
    assert_eq!(number_to_index(4503599627370497.0f64.to_bits()), 4503599627370497);
    assert_eq!(number_to_index(9007199254740994.0f64.to_bits()), 9007199254740994);
    assert_eq!(get_usize(&Json::Number(5125.0f64.to_bits())), Some(5125));
    assert_eq!(get_usize(&Json::Str("1".to_string())), None);
}

#[test]
fn component_count_maps_the_five_types() {
    assert_eq!(component_count(&"SCALAR".to_string()), Some(1));
    assert_eq!(component_count(&"VEC2".to_string()), Some(2));
    assert_eq!(component_count(&"VEC3".to_string()), Some(3));
    assert_eq!(component_count(&"VEC4".to_string()), Some(4));
    assert_eq!(component_count(&"MAT4".to_string()), Some(16));
    assert_eq!(component_count(&"VEC5".to_string()), None);
    assert_eq!(component_count(&"vec3".to_string()), None);
}

#[test]
fn unknown_accessor_type_is_a_schema_error() {
    let text = r#"{"bufferViews":[{"byteLength":8}],
        "accessors":[{"bufferView":0,"count":1,"componentType":5126,"type":"VEC5"}],
        "meshes":[],"nodes":[],"scenes":[]}"#;
    assert_eq!(load(text, 64).err(), Some(LoadError::Schema));
}

#[test]
fn minimal_document_loads_empty() {
    let g = load(MINIMAL, 0).unwrap();
    assert!(g.accessors.is_empty() && g.meshes.is_empty() && g.nodes.is_empty());
    assert!(g.roots.is_empty() && g.images.is_empty() && g.materials.is_empty());
}

#[test]
fn missing_required_section_is_a_schema_error() {
    let text = r#"{"bufferViews":[],"accessors":[],"meshes":[],"nodes":[]}"#;
    assert_eq!(load(text, 0).err(), Some(LoadError::Schema));
    assert_eq!(load_root(&Json::Null, Vec::new()).err(), Some(LoadError::Schema));
}

#[test]
fn accessor_offset_adds_both_levels() {
    let text = r#"{"bufferViews":[{"byteOffset":16,"byteLength":64,"byteStride":12},{"byteOffset":100}],
        "accessors":[
            {"bufferView":0,"byteOffset":4,"count":2,"componentType":5126,"type":"VEC3"},
            {"bufferView":1,"byteOffset":8,"count":3,"componentType":5123,"type":"SCALAR"},
            {"bufferView":1,"count":1,"componentType":5125,"type":"SCALAR"}],
        "meshes":[],"nodes":[],"scenes":[]}"#;
    let g = load(text, 128).unwrap();
    assert_eq!(g.accessors[0].offset, 20);
    assert_eq!(g.accessors[0].stride, Some(12));
    assert_eq!(g.accessors[0].component_count, 3);
    assert_eq!(g.accessors[1].offset, 108);
    assert_eq!(g.accessors[1].stride, None);
    assert_eq!(g.accessors[1].count, 3);
    assert_eq!(g.accessors[2].offset, 100);
    assert_eq!(g.accessors[2].component_type, 5125);
}

#[test]
fn accessor_past_the_blob_is_a_schema_error() {
    let text = r#"{"bufferViews":[{"byteOffset":0}],
        "accessors":[{"bufferView":0,"count":3,"componentType":5126,"type":"VEC3"}],
        "meshes":[],"nodes":[],"scenes":[]}"#;
    assert!(load(text, 36).is_ok());
    assert_eq!(load(text, 35).err(), Some(LoadError::Schema));
}

#[test]
fn out_of_range_references_are_schema_errors() {
    let bad_view = r#"{"bufferViews":[],"accessors":[{"bufferView":0,"count":0,"componentType":5126,"type":"VEC3"}],"meshes":[],"nodes":[],"scenes":[]}"#;
    assert_eq!(load(bad_view, 8).err(), Some(LoadError::Schema));
    let bad_root = r#"{"bufferViews":[],"accessors":[],"meshes":[],"nodes":[],"scenes":[{"nodes":[0]}]}"#;
    assert_eq!(load(bad_root, 0).err(), Some(LoadError::Schema));
    let bad_child = r#"{"bufferViews":[],"accessors":[],"meshes":[],"nodes":[{"children":[1]}],"scenes":[]}"#;
    assert_eq!(load(bad_child, 0).err(), Some(LoadError::Schema));
    let bad_mesh = r#"{"bufferViews":[],"accessors":[],"meshes":[],"nodes":[{"mesh":0}],"scenes":[]}"#;
    assert_eq!(load(bad_mesh, 0).err(), Some(LoadError::Schema));
    let bad_material = r#"{"bufferViews":[],"accessors":[],"meshes":[{"primitives":[{"attributes":{},"material":0}]}],"nodes":[],"scenes":[]}"#;
    assert_eq!(load(bad_material, 0).err(), Some(LoadError::Schema));
    let bad_texture = r#"{"bufferViews":[],"accessors":[],"meshes":[],"nodes":[],"scenes":[],
        "materials":[{"pbrMetallicRoughness":{"baseColorTexture":{"index":0}}}]}"#;
    assert_eq!(load(bad_texture, 0).err(), Some(LoadError::Schema));
}

#[test]
fn wrong_shapes_are_schema_errors() {
    let short_translation = r#"{"bufferViews":[],"accessors":[],"meshes":[],"nodes":[{"translation":[1,2]}],"scenes":[]}"#;
    assert_eq!(load(short_translation, 0).err(), Some(LoadError::Schema));
    let text_index = r#"{"bufferViews":[],"accessors":[],"meshes":[],"nodes":[{"mesh":"0"}],"scenes":[]}"#;
    assert_eq!(load(text_index, 0).err(), Some(LoadError::Schema));
    let not_object = r#"{"bufferViews":[3],"accessors":[],"meshes":[],"nodes":[],"scenes":[]}"#;
    assert_eq!(load(not_object, 0).err(), Some(LoadError::Schema));
}

#[test]
fn node_without_trs_has_identity_transform() {
    let text = r#"{"bufferViews":[],"accessors":[],"meshes":[],"nodes":[{"name":"root"}],"scenes":[{"nodes":[0]}]}"#;
    let g = load(text, 0).unwrap();
    let n = &g.nodes[0];
    assert_eq!(n.name, "root");
    assert_eq!(n.translation, [ZERO_BITS; 3]);
    assert_eq!(n.rotation, [ZERO_BITS, ZERO_BITS, ZERO_BITS, ONE_BITS]);
    assert_eq!(n.scale, [ONE_BITS; 3]);
    assert_eq!(n.element, Element::Empty);
    assert_eq!(transform(n), nalgebra::Matrix4::identity());
    assert_eq!(transform(&Node::default()), nalgebra::Matrix4::identity());
}

#[test]
fn node_fields_are_read() {
    let text = r#"{"bufferViews":[],"accessors":[],"meshes":[{"primitives":[],"weights":[0.5]}],
        "nodes":[{"children":[1],"translation":[1,2,3],"mesh":0},{"scale":[2,2,2]}],
        "scenes":[{"nodes":[0]},{"nodes":[1,0]}]}"#;
    let g = load(text, 0).unwrap();
    assert_eq!(g.nodes[0].children, vec![1]);
    assert_eq!(g.nodes[0].translation, [1.0f64.to_bits(), 2.0f64.to_bits(), 3.0f64.to_bits()]);
    assert_eq!(g.nodes[0].element, Element::Mesh(0));
    assert_eq!(g.nodes[1].scale, [2.0f64.to_bits(); 3]);
    assert_eq!(g.nodes[1].name, "");
    assert_eq!(g.roots, vec![0, 1, 0]);
    assert_eq!(g.meshes[0].weights, Some(vec![0.5f64.to_bits()]));
}

#[test]
fn materials_default_to_opaque_white() {
    let text = r#"{"bufferViews":[],"accessors":[],"meshes":[],"nodes":[],"scenes":[],
        "images":[{}],"textures":[{"source":0}],
        "materials":[{},{"pbrMetallicRoughness":{}},
            {"pbrMetallicRoughness":{"baseColorFactor":[0.5,0.25,1,1],"baseColorTexture":{"index":0,"texCoord":1}}}]}"#;
    let g = load(text, 0).unwrap();
    assert_eq!(g.materials[0].base_color_factor, [ONE_BITS; 4]);
    assert!(g.materials[0].base_color_texture.is_none());
    assert_eq!(g.materials[1].base_color_factor, [ONE_BITS; 4]);
    assert_eq!(g.materials[2].base_color_factor, [0.5f64.to_bits(), 0.25f64.to_bits(), ONE_BITS, ONE_BITS]);
    let t = g.materials[2].base_color_texture.unwrap();
    assert_eq!((t.image, t.texcoord, t.wrap_s, t.wrap_t), (0, 1, true, true));
    assert!(g.images[0].is_none());
}

#[test]
fn images_are_decoded_from_their_buffer_view() {
    let mut png = Vec::new();
    let mut img = image::RgbaImage::new(2, 1);
    img.put_pixel(0, 0, image::Rgba([10, 20, 30, 255]));
    img.put_pixel(1, 0, image::Rgba([40, 50, 60, 128]));
    img.write_to(&mut std::io::Cursor::new(&mut png), image::ImageFormat::Png).unwrap();
    let text = format!(
        r#"{{"bufferViews":[{{"byteOffset":4,"byteLength":{}}},{{"byteOffset":0,"byteLength":4}}],
        "accessors":[],"meshes":[],"nodes":[],"scenes":[],"images":[{{"bufferView":0}},{{"bufferView":1}},{{}}]}}"#,
        png.len()
    );
    let mut blob = vec![1, 2, 3, 4];
    blob.extend_from_slice(&png);
    let g = load_root(&parse(&text), blob).unwrap();
    let decoded = g.images[0].as_ref().unwrap();
    assert_eq!(decoded.dims, [2, 1, 4]);
    assert_eq!(decoded.buffer, vec![10, 20, 30, 255, 40, 50, 60, 128]);
    assert!(g.images[1].is_none());
    assert!(g.images[2].is_none());
}

#[test]
fn image_view_past_the_blob_is_a_schema_error() {
    let text = r#"{"bufferViews":[{"byteOffset":2,"byteLength":4}],"accessors":[],"meshes":[],"nodes":[],"scenes":[],"images":[{"bufferView":0}]}"#;
    assert_eq!(load(text, 5).err(), Some(LoadError::Schema));
}

const SKIPS: &str = r#"{"bufferViews":[{"byteLength":64}],
    "accessors":[
        {"bufferView":0,"count":2,"componentType":5126,"type":"VEC3"},
        {"bufferView":0,"byteOffset":24,"count":3,"componentType":5121,"type":"SCALAR"},
        {"bufferView":0,"byteOffset":28,"count":3,"componentType":5123,"type":"SCALAR"},
        {"bufferView":0,"byteOffset":36,"count":6,"componentType":5125,"type":"SCALAR"}],
    "meshes":[{"primitives":[
        {"attributes":{"POSITION":0},"indices":2,"material":0},
        {"attributes":{"POSITION":0,"NORMAL":0},"indices":1,"material":0},
        {"attributes":{"POSITION":0,"NORMAL":0},"material":0},
        {"attributes":{"POSITION":0,"NORMAL":0},"indices":2},
        {"attributes":{"NORMAL":0},"indices":2,"material":0},
        {"attributes":{"POSITION":0,"NORMAL":0,"TEXCOORD_1":2},"indices":3,"material":0}]}],
    "nodes":[{"mesh":0}],"scenes":[{"nodes":[0]}],"materials":[{}]}"#;

#[test]
fn skipped_primitives_draw_nothing() {
    let g = load(SKIPS, 64).unwrap();
    let draws = draw_mesh(&g, 0);
    assert_eq!(draws.len(), 1);
    assert_eq!(
        draws[0],
        DrawCall {
            material: 0,
            position_offset: 0,
            normal_offset: 0,
            texcoord_0_offset: 0,
            texcoord_1_offset: 28,
            index_offset: 36,
            index_format: IndexFormat::Uint32,
            index_count: 6,
        }
    );
}

#[test]
fn traversal_is_depth_first_in_child_order() {
    let text = r#"{"bufferViews":[],"accessors":[],"meshes":[],
        "nodes":[{"children":[1,3]},{"children":[2]},{},{},{}],"scenes":[{"nodes":[0,4]}]}"#;
    let g = load(text, 0).unwrap();
    let plan = render_plan(&g);
    let expected = vec![
        Visit { node: 0, parent: None },
        Visit { node: 1, parent: Some(0) },
        Visit { node: 2, parent: Some(1) },
        Visit { node: 3, parent: Some(0) },
        Visit { node: 4, parent: None },
    ];
    assert_eq!(plan, expected);
}

#[test]
fn cyclic_hierarchy_is_cut_off() {
    let text = r#"{"bufferViews":[],"accessors":[],"meshes":[],"nodes":[{"children":[1]},{"children":[0]}],"scenes":[{"nodes":[0]}]}"#;
    let g = load(text, 0).unwrap();
    let plan = render_plan(&g);
    assert_eq!(plan, vec![Visit { node: 0, parent: None }, Visit { node: 1, parent: Some(0) }]);
}

#[test]
fn two_renders_issue_the_same_draws() {
    let text = r#"{"bufferViews":[{"byteLength":64}],
        "accessors":[{"bufferView":0,"count":2,"componentType":5126,"type":"VEC3"},
                     {"bufferView":0,"byteOffset":24,"count":3,"componentType":5123,"type":"SCALAR"}],
        "meshes":[{"primitives":[{"attributes":{"POSITION":0,"NORMAL":0},"indices":1,"material":0}]}],
        "nodes":[{"mesh":0,"children":[1,1]},{"mesh":0}],"scenes":[{"nodes":[0,1]}],"materials":[{}]}"#;
    let g = load(text, 64).unwrap();
    let first = render_frame(&g);
    let second = render_frame(&g);
    assert_eq!(first.draws.len(), 4);
    assert_eq!(first.draws, second.draws);
    assert_eq!(first.visits, second.visits);
    let visits: Vec<usize> = first.draws.iter().map(|d| d.visit).collect();
    assert_eq!(visits, vec![0, 1, 2, 3]);
    assert_eq!(first.visits.len(), 4);
}

#[test]
fn frame_draws_follow_the_visits() {
    let g = load(SKIPS, 64).unwrap();
    let f = render_frame(&g);
    assert_eq!(f.visits, vec![Visit { node: 0, parent: None }]);
    assert_eq!(f.draws, vec![FrameDraw { visit: 0, call: draw_mesh(&g, 0)[0] }]);
}

#[test]
fn end_to_end_single_triangle() {
    let json = r#"{
        "bufferViews":[{"byteOffset":0,"byteLength":36},{"byteOffset":36,"byteLength":36},
                       {"byteOffset":72,"byteLength":24},{"byteOffset":96,"byteLength":6}],
        "accessors":[
            {"bufferView":0,"count":3,"componentType":5126,"type":"VEC3"},
            {"bufferView":1,"count":3,"componentType":5126,"type":"VEC3"},
            {"bufferView":2,"count":3,"componentType":5126,"type":"VEC2"},
            {"bufferView":3,"count":3,"componentType":5123,"type":"SCALAR"}],
        "meshes":[{"primitives":[{"attributes":{"POSITION":0,"NORMAL":1,"TEXCOORD_0":2},"indices":3,"material":0}]}],
        "nodes":[{"mesh":0}],
        "scenes":[{"nodes":[0]}],
        "materials":[{}]}"#;
    let blob = vec![0u8; 104];
    let mut data = Vec::new();
    data.extend_from_slice(b"TEST");
    data.extend_from_slice(&2u32.to_le_bytes());
    data.extend_from_slice(&((28 + json.len() + blob.len()) as u32).to_le_bytes());
    data.extend_from_slice(&(json.len() as u32).to_le_bytes());
    data.extend_from_slice(b"JSON");
    data.extend_from_slice(json.as_bytes());
    data.extend_from_slice(&(blob.len() as u32).to_le_bytes());
    data.extend_from_slice(b"BIN\0");
    data.extend_from_slice(&blob);

    let chunks = read_container(&data, b"TEST").unwrap();
    let text = std::str::from_utf8(&chunks.json).unwrap();
    let g = load_root(&parse(text), chunks.blob).unwrap();
    assert_eq!(transform(&g.nodes[g.roots[0]]), nalgebra::Matrix4::identity());
    let draws = frame(&g);
    assert_eq!(draws.len(), 1);
    assert_eq!(draws[0].index_count, 3);
    assert_eq!(draws[0].index_format, IndexFormat::Uint16);
    assert_eq!((draws[0].position_offset, draws[0].normal_offset, draws[0].texcoord_0_offset), (0, 36, 72));
    assert_eq!(draws[0].texcoord_1_offset, 0);
    assert_eq!(draws[0].index_offset, 96);
    let m = &g.materials[draws[0].material];
    let factor: Vec<f32> = m.base_color_factor.iter().map(|b| bits_to_f32(*b)).collect();
    assert_eq!(factor, vec![1.0, 1.0, 1.0, 1.0]);
    assert!(m.base_color_texture.is_none());
}
