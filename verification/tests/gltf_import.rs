use gltf::Gltf;
use render_core::gltf_util::{
    create_gltf_attributes, create_gltf_meshes, import, read_meshes, resolve_accessors,
    RawAccessor, RawView,
};
use render_core::import::{ImportError, ViewDef};
use render_core::material::PbrMaterial;
use render_core::renderer::{BufferTarget, Renderer};
use render_core::shader::{AttributeName, TypedArrayKind};

type Core = Renderer<PbrMaterial, ()>;

fn pad(mut bytes: Vec<u8>, with: u8) -> Vec<u8> {
    while bytes.len() % 4 != 0 {
        bytes.push(with);
    }
    bytes
}

fn glb(json: &str, bin: &[u8]) -> Vec<u8> {
    let json = pad(json.as_bytes().to_vec(), b' ');
    let bin = pad(bin.to_vec(), 0);
    let total = 12 + 8 + json.len() + 8 + bin.len();
    let mut out = Vec::new();
    out.extend_from_slice(b"glTF");
    out.extend_from_slice(&2u32.to_le_bytes());
    out.extend_from_slice(&(total as u32).to_le_bytes());
    out.extend_from_slice(&(json.len() as u32).to_le_bytes());
    out.extend_from_slice(b"JSON");
    out.extend_from_slice(&json);
    out.extend_from_slice(&(bin.len() as u32).to_le_bytes());
    out.extend_from_slice(b"BIN\0");
    out.extend_from_slice(&bin);
    out
}

fn payload() -> Vec<u8> {
    (0..96).map(|i| i as u8).collect()
}

const QUAD: &str = r#"{
  "asset": {"version": "2.0"},
  "buffers": [{"byteLength": 96}],
  "bufferViews": [
    {"buffer": 0, "byteOffset": 0, "byteLength": 72, "byteStride": 12},
    {"buffer": 0, "byteOffset": 72, "byteLength": 24}
  ],
  "accessors": [
    {"bufferView": 0, "componentType": 5126, "count": 6, "type": "VEC3", "min": [0, 0, 0], "max": [1, 1, 1]},
    {"bufferView": 0, "componentType": 5120, "count": 6, "type": "VEC2", "byteOffset": 4, "normalized": true},
    {"bufferView": 1, "componentType": 5123, "count": 12, "type": "SCALAR"}
  ],
  "meshes": [
    {"name": "quad", "primitives": [{"attributes": {"TEXCOORD_1": 1, "NORMAL": 1, "POSITION": 0}, "indices": 2}]},
    {"primitives": [{"attributes": {"POSITION": 0, "TEXCOORD_0": 1}}]}
  ]
}"#;

fn quad() -> Gltf {
    Gltf::from_slice(&glb(QUAD, &payload())).unwrap()
}

#[test]
fn asset_accessors_become_accessors_over_shared_buffers() {
    let mut core = Core::new();
    let handles = create_gltf_attributes(&quad(), &mut core).unwrap();
    assert_eq!(handles.len(), 3);
    assert_eq!(core.accessors.len(), 3);
    assert_eq!(core.buffers.len(), 2);
    let position = *core.accessors.get(handles[0]).unwrap();
    let normal = *core.accessors.get(handles[1]).unwrap();
    let indices = *core.accessors.get(handles[2]).unwrap();
    assert_eq!(position.buffer, normal.buffer);
    assert_ne!(position.buffer, indices.buffer);
    assert_eq!(position.count, 6);
    assert_eq!(position.options.component_type, TypedArrayKind::Float32);
    assert_eq!(position.options.item_size, 3);
    assert_eq!(position.options.stride, 12);
    assert_eq!(position.options.offset, 0);
    assert!(!position.options.normalized);
    assert_eq!(normal.options.component_type, TypedArrayKind::Int8);
    assert_eq!(normal.options.item_size, 2);
    assert_eq!(normal.options.offset, 4);
    assert!(normal.options.normalized);
    assert_eq!(indices.count, 12);
    assert_eq!(indices.options.component_type, TypedArrayKind::Uint16);
    assert_eq!(indices.options.item_size, 1);
    assert_eq!(indices.options.stride, 0);
    let vertex_buffer = core.buffers.get(position.buffer).unwrap();
    let index_buffer = core.buffers.get(indices.buffer).unwrap();
    assert_eq!(vertex_buffer.target, BufferTarget::ArrayBuffer);
    assert_eq!(index_buffer.target, BufferTarget::ElementArrayBuffer);
    assert_eq!(vertex_buffer.data, payload()[0..72].to_vec());
    assert_eq!(index_buffer.data, payload()[72..96].to_vec());
}

#[test]
fn asset_meshes_become_meshes_with_geometries() {
    let mut core = Core::new();
    let asset = quad();
    let handles = create_gltf_attributes(&asset, &mut core).unwrap();
    let (material, _) = core.insert_material(PbrMaterial::new());
    let meshes = create_gltf_meshes(&asset, &handles, &mut core, Some(material)).unwrap();
    assert_eq!(meshes.len(), 2);
    assert_eq!(meshes[0].name, Some("quad".to_string()));
    assert_eq!(meshes[1].name, None);
    assert_eq!(meshes[0].primitives.len(), 1);
    assert_eq!(meshes[0].primitives[0].material, Some(material));
    let first = core.geometries.get(meshes[0].primitives[0].geometry).unwrap();
    assert_eq!(first.indices, Some(handles[2]));
    assert_eq!(first.count, 12);
    assert_eq!(first.attributes.len(), 3);
    assert_eq!(first.get_attribute(&AttributeName::Position), Some(handles[0]));
    assert_eq!(first.get_attribute(&AttributeName::Normal), Some(handles[1]));
    assert_eq!(first.get_attribute(&AttributeName::Unknown("TEXCOORD_1".to_string())), Some(handles[1]));
    assert_eq!(first.get_attribute(&AttributeName::Uv), None);
    let second = core.geometries.get(meshes[1].primitives[0].geometry).unwrap();
    assert_eq!(second.indices, None);
    assert_eq!(second.count, 6);
    assert_eq!(second.get_attribute(&AttributeName::Uv), Some(handles[1]));
    assert_eq!(core.geometries.len(), 2);
}

#[test]
fn read_meshes_lists_attributes_in_the_order_of_the_asset() {
    let meshes = read_meshes(&quad()).unwrap();
    let labels: Vec<(String, usize)> =
        meshes[0].primitives[0].attributes.iter().map(|a| (a.label.clone(), a.accessor)).collect();
    assert_eq!(
        labels,
        vec![("POSITION".to_string(), 0), ("NORMAL".to_string(), 1), ("TEXCOORD_1".to_string(), 1)]
    );
    assert_eq!(meshes[0].primitives[0].indices, Some(2));
    assert_eq!(meshes[1].primitives[0].indices, None);
}

#[test]
fn import_brings_everything_or_nothing() {
    let mut core = Core::new();
    let made = import(&quad(), &mut core, None).unwrap();
    assert_eq!(made.accessors.len(), 3);
    assert_eq!(made.meshes.len(), 2);
    assert_eq!(core.buffers.len(), 2);
    assert_eq!(core.geometries.len(), 2);
    assert_eq!(made.meshes[0].primitives[0].material, None);
    assert!(core.geometries.contains(made.meshes[1].primitives[0].geometry));
}

const SPARSE: &str = r#"{
  "asset": {"version": "2.0"},
  "buffers": [{"byteLength": 96}],
  "bufferViews": [{"buffer": 0, "byteLength": 72}, {"buffer": 0, "byteOffset": 72, "byteLength": 24}],
  "accessors": [
    {"bufferView": 0, "componentType": 5126, "count": 6, "type": "VEC3"},
    {"bufferView": 0, "componentType": 5126, "count": 6, "type": "VEC3",
     "sparse": {"count": 1, "indices": {"bufferView": 1, "componentType": 5123}, "values": {"bufferView": 0}}}
  ]
}"#;

#[test]
fn asset_with_a_sparse_accessor_is_rejected() {
    let asset = Gltf::from_slice(&glb(SPARSE, &payload())).unwrap();
    let mut core = Core::new();
    assert_eq!(create_gltf_attributes(&asset, &mut core), Err(ImportError::Unsupported));
    assert_eq!(core.accessors.len(), 0);
    assert_eq!(core.buffers.len(), 0);
    assert_eq!(import(&asset, &mut core, None).err(), Some(ImportError::Unsupported));
    assert_eq!(core.buffers.len(), 0);
}

const WITHOUT_PAYLOAD: &str = r#"{
  "asset": {"version": "2.0"},
  "buffers": [{"byteLength": 8, "uri": "data.bin"}],
  "bufferViews": [{"buffer": 0, "byteLength": 8}],
  "accessors": [{"bufferView": 0, "componentType": 5123, "count": 4, "type": "SCALAR"}]
}"#;

#[test]
fn asset_without_payload_cannot_fill_its_views() {
    let asset = Gltf::from_slice(WITHOUT_PAYLOAD.as_bytes()).unwrap();
    let mut core = Core::new();
    assert_eq!(create_gltf_attributes(&asset, &mut core), Err(ImportError::MissingBlob));
    assert_eq!(core.accessors.len(), 0);
}

#[test]
fn view_beyond_the_payload_is_rejected() {
    let asset = Gltf::from_slice(&glb(QUAD, &payload()[0..80])).unwrap();
    let mut core = Core::new();
    assert_eq!(create_gltf_attributes(&asset, &mut core), Err(ImportError::ViewOutOfBounds));
    assert_eq!(core.buffers.len(), 0);
}

const BROKEN: &str = r#"{
  "asset": {"version": "2.0"},
  "buffers": [{"byteLength": 8}],
  "bufferViews": [{"buffer": 0, "byteLength": 8}],
  "accessors": [{"bufferView": 5, "componentType": 5123, "count": 4, "type": "SCALAR"}],
  "meshes": [{"primitives": [{"attributes": {"POSITION": 0}}]}]
}"#;

const UNKNOWN_TYPE: &str = r#"{
  "asset": {"version": "2.0"},
  "accessors": [{"componentType": 1234, "count": 4, "type": "SCALAR"}]
}"#;

const UNKNOWN_SEMANTIC: &str = r#"{
  "asset": {"version": "2.0"},
  "accessors": [{"componentType": 5123, "count": 4, "type": "SCALAR"}],
  "meshes": [{"primitives": [{"attributes": {"NONSENSE": 0}}]}]
}"#;

const DANGLING: &str = r#"{
  "asset": {"version": "2.0"},
  "accessors": [{"componentType": 5123, "count": 4, "type": "SCALAR"}],
  "meshes": [{"primitives": [{"attributes": {"NORMAL": 3}}]}]
}"#;

#[test]
fn asset_that_is_not_well_defined_is_malformed() {
    for text in [BROKEN, UNKNOWN_TYPE, UNKNOWN_SEMANTIC] {
        let asset = Gltf::from_slice_without_validation(&glb(text, &payload())).unwrap();
        let mut core = Core::new();
        assert_eq!(create_gltf_attributes(&asset, &mut core), Err(ImportError::Malformed));
        assert_eq!(import(&asset, &mut core, None).err(), Some(ImportError::Malformed));
        assert_eq!(core.accessors.len(), 0);
    }
    let asset = Gltf::from_slice_without_validation(UNKNOWN_SEMANTIC.as_bytes()).unwrap();
    assert!(read_meshes(&asset).is_none());
    let mut core = Core::new();
    assert_eq!(create_gltf_meshes(&asset, &vec![], &mut core, None).err(), Some(ImportError::Malformed));
}

#[test]
fn primitive_with_a_dangling_accessor_is_rejected_whole() {
    let asset = Gltf::from_slice_without_validation(DANGLING.as_bytes()).unwrap();
    let mut core = Core::new();
    assert_eq!(import(&asset, &mut core, None).err(), Some(ImportError::MissingAccessor));
    assert_eq!(core.accessors.len(), 0);
    let handles = create_gltf_attributes(&asset, &mut core).unwrap();
    assert_eq!(handles.len(), 1);
    assert_eq!(
        create_gltf_meshes(&asset, &handles, &mut core, None).err(),
        Some(ImportError::MissingAccessor)
    );
    assert_eq!(core.geometries.len(), 0);
}

#[test]
fn resolve_accessors_treats_zero_stride_as_none() {
    let raw = RawAccessor {
        sparse: false,
        view: Some(1),
        multiplicity: Some(3),
        normalized: false,
        offset: None,
        count: 7,
    };
    let views = vec![
        RawView { offset: None, length: 4, stride: None },
        RawView { offset: Some(8), length: 16, stride: Some(0) },
    ];
    let defs = resolve_accessors(&vec![raw], &vec![Some(TypedArrayKind::Uint32)], &views).unwrap();
    assert_eq!(defs[0].view, Some(ViewDef { index: 1, offset: 8, length: 16, stride: None }));
    assert_eq!(defs[0].count, 7);
    assert_eq!(defs[0].offset, 0);
    assert_eq!(defs[0].multiplicity, 3);
    assert_eq!(defs[0].data_type, TypedArrayKind::Uint32);
    assert!(resolve_accessors(&vec![raw], &vec![None], &views).is_none());
    assert!(resolve_accessors(&vec![raw], &vec![], &views).is_none());
    assert!(resolve_accessors(&vec![raw], &vec![Some(TypedArrayKind::Uint32)], &vec![]).is_none());
    let mut untyped = raw;
    untyped.multiplicity = None;
    assert!(resolve_accessors(&vec![untyped], &vec![Some(TypedArrayKind::Uint32)], &views).is_none());
}
