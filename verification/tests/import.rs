use render_core::handle::Handle;
use render_core::import::{
    attribute_name, build_geometry, check_meshes, find_problem, import_accessors, import_meshes,
    index_sources, AccessorDef, AttributeDef, ImportError, MeshDef, PrimitiveDef, ViewDef,
};
use render_core::material::PbrMaterial;
use render_core::renderer::{Accessor, BufferTarget, BufferUsage, Renderer};
use render_core::shader::{AttributeName, AttributeOptions, TypedArrayKind};

type Core = Renderer<PbrMaterial, ()>;

fn view(index: usize, offset: usize, length: usize) -> ViewDef {
    ViewDef { index, offset, length, stride: None }
}

fn def(view: Option<ViewDef>, data_type: TypedArrayKind, multiplicity: usize, count: usize) -> AccessorDef {
    AccessorDef { sparse: false, view, data_type, multiplicity, normalized: false, offset: 0, count }
}

fn attribute(label: &str, accessor: usize) -> AttributeDef {
    AttributeDef { label: label.to_string(), accessor }
}

fn blob(n: usize) -> Option<Vec<u8>> {
    Some((0..n).map(|i| i as u8).collect())
}

#[test]
fn accessors_sharing_a_view_share_one_buffer() {
    let mut core = Core::new();
    let defs = vec![
        def(Some(view(0, 4, 8)), TypedArrayKind::Float32, 3, 6),
        def(Some(view(0, 4, 8)), TypedArrayKind::Float32, 2, 6),
        def(Some(view(1, 12, 4)), TypedArrayKind::Uint16, 1, 2),
    ];
    let handles = import_accessors(&defs, &blob(16), &vec![], &mut core).unwrap();
    assert_eq!(handles.len(), 3);
    assert_eq!(core.accessors.len(), 3);
    assert_eq!(core.buffers.len(), 2);
    let a = *core.accessors.get(handles[0]).unwrap();
    let b = *core.accessors.get(handles[1]).unwrap();
    let c = *core.accessors.get(handles[2]).unwrap();
    assert_ne!(handles[0], handles[1]);
    assert_eq!(a.buffer, b.buffer);
    assert_ne!(a.buffer, c.buffer);
    assert_eq!(core.buffers.get(a.buffer).unwrap().data, vec![4, 5, 6, 7, 8, 9, 10, 11]);
    assert_eq!(core.buffers.get(c.buffer).unwrap().data, vec![12, 13, 14, 15]);
    assert_eq!(core.buffers.get(a.buffer).unwrap().usage, BufferUsage::StaticDraw);
    assert_eq!(a.count, 6);
    assert_eq!(b.options.item_size, 2);
    assert_eq!(c.options.component_type, TypedArrayKind::Uint16);
}

#[test]
fn accessor_layout_is_honoured() {
    let mut core = Core::new();
    let defs = vec![AccessorDef {
        sparse: false,
        view: Some(ViewDef { index: 3, offset: 0, length: 16, stride: Some(12) }),
        data_type: TypedArrayKind::Int16,
        multiplicity: 4,
        normalized: true,
        offset: 2,
        count: 9,
    }];
    let handles = import_accessors(&defs, &blob(16), &vec![], &mut core).unwrap();
    let stored = *core.accessors.get(handles[0]).unwrap();
    assert_eq!(
        stored,
        Accessor {
            buffer: stored.buffer,
            count: 9,
            options: AttributeOptions {
                component_type: TypedArrayKind::Int16,
                item_size: 4,
                normalized: true,
                stride: 12,
                offset: 2,
            },
        }
    );
    assert!(core.buffers.contains(stored.buffer));
}

#[test]
fn buffer_target_follows_the_first_accessor_of_the_view() {
    let mut core = Core::new();
    let defs = vec![
        def(Some(view(0, 0, 4)), TypedArrayKind::Float32, 3, 1),
        def(Some(view(1, 4, 4)), TypedArrayKind::Uint16, 1, 2),
        def(Some(view(0, 0, 4)), TypedArrayKind::Uint16, 1, 2),
        def(Some(view(2, 8, 4)), TypedArrayKind::Float32, 1, 1),
        def(Some(view(2, 8, 4)), TypedArrayKind::Uint16, 1, 2),
    ];
    let handles = import_accessors(&defs, &blob(12), &vec![1, 2, 4], &mut core).unwrap();
    let target = |i: usize| {
        let accessor = core.accessors.get(handles[i]).unwrap();
        core.buffers.get(accessor.buffer).unwrap().target
    };
    assert_eq!(target(0), BufferTarget::ArrayBuffer);
    assert_eq!(target(1), BufferTarget::ElementArrayBuffer);
    assert_eq!(target(2), BufferTarget::ArrayBuffer);
    assert_eq!(target(3), BufferTarget::ArrayBuffer);
    assert_eq!(target(4), BufferTarget::ArrayBuffer);
    assert_eq!(core.buffers.len(), 3);
}

#[test]
fn accessor_without_view_gets_the_default_layout() {
    let mut core = Core::new();
    let defs = vec![def(None, TypedArrayKind::Uint8, 1, 5)];
    let handles = import_accessors(&defs, &None, &vec![], &mut core).unwrap();
    let stored = *core.accessors.get(handles[0]).unwrap();
    assert_eq!(stored.buffer, Handle::from_raw_parts(0, 0));
    assert_eq!(stored.count, 5);
    assert_eq!(
        stored.options,
        AttributeOptions {
            component_type: TypedArrayKind::Float32,
            item_size: 3,
            normalized: false,
            stride: 0,
            offset: 0,
        }
    );
    assert_eq!(core.buffers.len(), 0);
}

#[test]
fn sparse_accessor_is_unsupported_and_nothing_is_imported() {
    let mut core = Core::new();
    let mut sparse = def(Some(view(0, 0, 4)), TypedArrayKind::Float32, 1, 1);
    sparse.sparse = true;
    let defs = vec![def(Some(view(0, 0, 4)), TypedArrayKind::Float32, 1, 1), sparse];
    assert_eq!(import_accessors(&defs, &blob(4), &vec![], &mut core), Err(ImportError::Unsupported));
    assert_eq!(core.accessors.len(), 0);
    assert_eq!(core.buffers.len(), 0);
    let mut viewless = def(None, TypedArrayKind::Float32, 1, 1);
    viewless.sparse = true;
    assert_eq!(find_problem(&vec![viewless], &None), Some(ImportError::Unsupported));
}

#[test]
fn problems_are_reported_in_order() {
    let good = def(Some(view(0, 0, 4)), TypedArrayKind::Float32, 1, 1);
    let beyond = def(Some(view(1, 2, 3)), TypedArrayKind::Float32, 1, 1);
    let exact = def(Some(view(1, 1, 3)), TypedArrayKind::Float32, 1, 1);
    let huge = def(Some(view(0, 0, 4)), TypedArrayKind::Float32, 1, 0x8000_0000);
    let largest = def(Some(view(0, 0, 4)), TypedArrayKind::Float32, 1, 0x7fff_ffff);
    let mut strided = good;
    strided.view = Some(ViewDef { index: 0, offset: 0, length: 4, stride: Some(0x8000_0000) });
    let mut offset = good;
    offset.offset = 0x1_0000_0000;
    assert_eq!(find_problem(&vec![good], &None), Some(ImportError::MissingBlob));
    assert_eq!(find_problem(&vec![good], &blob(4)), None);
    assert_eq!(find_problem(&vec![good], &blob(3)), Some(ImportError::ViewOutOfBounds));
    assert_eq!(find_problem(&vec![beyond], &blob(4)), Some(ImportError::ViewOutOfBounds));
    assert_eq!(find_problem(&vec![exact], &blob(4)), None);
    assert_eq!(find_problem(&vec![huge], &blob(4)), Some(ImportError::ValueTooLarge));
    assert_eq!(find_problem(&vec![largest], &blob(4)), None);
    assert_eq!(find_problem(&vec![strided], &blob(4)), Some(ImportError::ValueTooLarge));
    assert_eq!(find_problem(&vec![offset], &blob(4)), Some(ImportError::ValueTooLarge));
    assert_eq!(find_problem(&vec![good, huge, beyond], &blob(4)), Some(ImportError::ValueTooLarge));
    assert_eq!(find_problem(&vec![good, beyond, huge], &blob(4)), Some(ImportError::ViewOutOfBounds));
    assert_eq!(find_problem(&vec![huge], &None), Some(ImportError::MissingBlob));
    assert_eq!(find_problem(&vec![], &None), None);
    let overflow = def(Some(view(0, usize::MAX, 2)), TypedArrayKind::Float32, 1, 1);
    assert_eq!(find_problem(&vec![overflow], &blob(4)), Some(ImportError::ViewOutOfBounds));
}

#[test]
fn earlier_entries_survive_an_import() {
    let mut core = Core::new();
    let kept_buffer = core.insert_buffer(BufferTarget::ArrayBuffer, BufferUsage::DynamicDraw, vec![9]);
    let kept = core.insert_accessor(Accessor {
        buffer: kept_buffer,
        count: 1,
        options: AttributeOptions {
            component_type: TypedArrayKind::Uint8,
            item_size: 1,
            normalized: false,
            stride: 0,
            offset: 0,
        },
    });
    let defs = vec![def(Some(view(0, 0, 2)), TypedArrayKind::Uint8, 1, 2)];
    let handles = import_accessors(&defs, &blob(2), &vec![], &mut core).unwrap();
    assert_ne!(handles[0], kept);
    assert_eq!(core.accessors.get(kept).unwrap().buffer, kept_buffer);
    assert_eq!(core.buffers.get(kept_buffer).unwrap().data, vec![9]);
    assert_eq!(core.buffers.len(), 2);
}

#[test]
fn known_labels_map_to_named_attributes() {
    assert_eq!(attribute_name(&"POSITION".to_string()), AttributeName::Position);
    assert_eq!(attribute_name(&"NORMAL".to_string()), AttributeName::Normal);
    assert_eq!(attribute_name(&"TEXCOORD_0".to_string()), AttributeName::Uv);
    assert_eq!(
        attribute_name(&"TEXCOORD_1".to_string()),
        AttributeName::Unknown("TEXCOORD_1".to_string())
    );
    assert_eq!(attribute_name(&"TANGENT".to_string()), AttributeName::Unknown("TANGENT".to_string()));
    assert_eq!(attribute_name(&"position".to_string()), AttributeName::Unknown("position".to_string()));
}

fn three_accessors(core: &mut Core) -> Vec<Handle> {
    let defs = vec![
        def(Some(view(0, 0, 4)), TypedArrayKind::Float32, 3, 6),
        def(Some(view(0, 0, 4)), TypedArrayKind::Float32, 2, 4),
        def(Some(view(1, 4, 4)), TypedArrayKind::Uint16, 1, 12),
    ];
    import_accessors(&defs, &blob(8), &vec![2], core).unwrap()
}

#[test]
fn geometry_count_comes_from_indices_or_the_last_attribute() {
    let mut core = Core::new();
    let handles = three_accessors(&mut core);
    let plain = PrimitiveDef {
        attributes: vec![attribute("POSITION", 0), attribute("TEXCOORD_0", 1)],
        indices: None,
    };
    let geometry = build_geometry(&plain, &handles, &core.accessors).unwrap();
    assert_eq!(geometry.count, 4);
    assert_eq!(geometry.indices, None);
    assert_eq!(geometry.get_attribute(&AttributeName::Position), Some(handles[0]));
    assert_eq!(geometry.get_attribute(&AttributeName::Uv), Some(handles[1]));
    let indexed = PrimitiveDef { attributes: vec![attribute("POSITION", 0)], indices: Some(2) };
    let geometry = build_geometry(&indexed, &handles, &core.accessors).unwrap();
    assert_eq!(geometry.count, 12);
    assert_eq!(geometry.indices, Some(handles[2]));
    let empty = PrimitiveDef { attributes: vec![], indices: None };
    let geometry = build_geometry(&empty, &handles, &core.accessors).unwrap();
    assert_eq!(geometry.count, 0);
    assert!(geometry.attributes.is_empty());
}

#[test]
fn later_attribute_of_the_same_meaning_replaces_the_earlier() {
    let mut core = Core::new();
    let handles = three_accessors(&mut core);
    let twice = PrimitiveDef {
        attributes: vec![attribute("COLOR_0", 0), attribute("NORMAL", 1), attribute("COLOR_0", 1)],
        indices: None,
    };
    let geometry = build_geometry(&twice, &handles, &core.accessors).unwrap();
    assert_eq!(geometry.attributes.len(), 2);
    assert_eq!(geometry.attributes[0].name, AttributeName::Unknown("COLOR_0".to_string()));
    assert_eq!(geometry.attributes[0].accessor, handles[1]);
    assert_eq!(geometry.attributes[1].name, AttributeName::Normal);
    assert_eq!(geometry.count, 4);
}

#[test]
fn geometry_needs_every_accessor_to_resolve() {
    let mut core = Core::new();
    let mut handles = three_accessors(&mut core);
    let out_of_range = PrimitiveDef { attributes: vec![attribute("POSITION", 3)], indices: None };
    assert!(build_geometry(&out_of_range, &handles, &core.accessors).is_none());
    let bad_indices = PrimitiveDef { attributes: vec![attribute("POSITION", 0)], indices: Some(7) };
    assert!(build_geometry(&bad_indices, &handles, &core.accessors).is_none());
    handles[1] = Handle::from_raw_parts(80, 5);
    let stale = PrimitiveDef { attributes: vec![attribute("NORMAL", 1)], indices: None };
    assert!(build_geometry(&stale, &handles, &core.accessors).is_none());
}

#[test]
fn meshes_get_one_geometry_for_each_primitive() {
    let mut core = Core::new();
    let handles = three_accessors(&mut core);
    let kept = core.insert_geometry(render_core::renderer::Geometry::new());
    let material = Some(Handle::from_raw_parts(1, 1));
    let defs = vec![
        MeshDef {
            name: Some("first".to_string()),
            primitives: vec![
                PrimitiveDef { attributes: vec![attribute("POSITION", 0)], indices: Some(2) },
                PrimitiveDef { attributes: vec![attribute("POSITION", 0)], indices: Some(2) },
            ],
        },
        MeshDef { name: None, primitives: vec![] },
        MeshDef {
            name: Some("third".to_string()),
            primitives: vec![PrimitiveDef { attributes: vec![attribute("NORMAL", 1)], indices: None }],
        },
    ];
    let meshes = import_meshes(&defs, &handles, &mut core, material).unwrap();
    assert_eq!(meshes.len(), 3);
    assert_eq!(meshes[0].name, Some("first".to_string()));
    assert_eq!(meshes[1].name, None);
    assert_eq!(meshes[2].name, Some("third".to_string()));
    assert_eq!(meshes[0].primitives.len(), 2);
    assert_eq!(meshes[1].primitives.len(), 0);
    assert_eq!(meshes[2].primitives.len(), 1);
    let g0 = meshes[0].primitives[0].geometry;
    let g1 = meshes[0].primitives[1].geometry;
    let g2 = meshes[2].primitives[0].geometry;
    assert!(g0 != g1 && g1 != g2 && g0 != g2 && g0 != kept && g1 != kept && g2 != kept);
    assert_eq!(core.geometries.len(), 4);
    assert_eq!(meshes[0].primitives[0].material, material);
    assert_eq!(meshes[2].primitives[0].material, material);
    assert_eq!(core.geometries.get(g0).unwrap().count, 12);
    assert_eq!(core.geometries.get(g0).unwrap().indices, Some(handles[2]));
    assert_eq!(core.geometries.get(g2).unwrap().count, 4);
    assert_eq!(core.geometries.get(g2).unwrap().get_attribute(&AttributeName::Normal), Some(handles[1]));
    assert_eq!(core.meshes.len(), 0);
}

#[test]
fn a_primitive_with_a_missing_accessor_fails_the_whole_import() {
    let mut core = Core::new();
    let handles = three_accessors(&mut core);
    let defs = vec![
        MeshDef {
            name: None,
            primitives: vec![PrimitiveDef { attributes: vec![attribute("POSITION", 0)], indices: None }],
        },
        MeshDef {
            name: None,
            primitives: vec![PrimitiveDef { attributes: vec![attribute("POSITION", 5)], indices: None }],
        },
    ];
    assert_eq!(import_meshes(&defs, &handles, &mut core, None).err(), Some(ImportError::MissingAccessor));
    assert_eq!(core.geometries.len(), 0);
    assert!(!check_meshes(&defs, 3));
    assert!(check_meshes(&defs, 6));
    assert!(check_meshes(&vec![], 0));
}

#[test]
fn index_sources_lists_index_accessors_in_order() {
    let defs = vec![
        MeshDef {
            name: None,
            primitives: vec![
                PrimitiveDef { attributes: vec![], indices: Some(4) },
                PrimitiveDef { attributes: vec![attribute("POSITION", 9)], indices: None },
                PrimitiveDef { attributes: vec![], indices: Some(1) },
            ],
        },
        MeshDef { name: None, primitives: vec![] },
        MeshDef { name: None, primitives: vec![PrimitiveDef { attributes: vec![], indices: Some(4) }] },
    ];
    assert_eq!(index_sources(&defs), vec![4, 1, 4]);
    assert_eq!(index_sources(&vec![]), Vec::<usize>::new());
}
