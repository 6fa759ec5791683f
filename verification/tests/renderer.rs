use render_core::handle::Handle;
use render_core::material::{DrawMode, Material, PbrMaterial};
use render_core::renderer::{
    Accessor, Attribute, BufferTarget, BufferUsage, Command, Feature, Geometry, Mesh, Primitive,
    RenderError, Renderer,
};
use render_core::scene::{Node, TransformStep};
use render_core::shader::{AttributeName, AttributeOptions, TypedArrayKind};

struct Camera;

type Core = Renderer<PbrMaterial, Camera>;

fn options(component_type: TypedArrayKind, item_size: i32) -> AttributeOptions {
    AttributeOptions { component_type, item_size, normalized: false, stride: 0, offset: 0 }
}

struct Setup {
    core: Core,
    root: Handle,
    node: Handle,
    camera: Handle,
    material: Handle,
    geometry: Handle,
    position_buffer: Handle,
    position_accessor: Handle,
}

fn setup(material: PbrMaterial, slots: Vec<AttributeName>) -> Setup {
    let mut core = Core::new();
    let position_buffer =
        core.insert_buffer(BufferTarget::ArrayBuffer, BufferUsage::StaticDraw, vec![0u8; 72]);
    let position_accessor = core.insert_accessor(Accessor {
        buffer: position_buffer,
        count: 6,
        options: options(TypedArrayKind::Float32, 3),
    });
    let geometry = core.insert_geometry(Geometry {
        attributes: vec![Attribute { name: AttributeName::Position, accessor: position_accessor }],
        indices: None,
        count: 6,
    });
    let (material_handle, recipe) = core.insert_material(material);
    assert!(recipe.is_some());
    assert!(core.shader_built(&material.get_tag(), slots));
    let mesh = core.insert_mesh(Mesh {
        primitives: vec![Primitive { geometry, material: Some(material_handle) }],
        name: Some("quad".to_string()),
    });
    let root = core.insert_node(Node::new(None));
    let node = core.insert_node(Node::new(Some(mesh)));
    core.scene.attach(root, node).unwrap();
    let camera = core.cameras.insert(Camera);
    Setup {
        core,
        root,
        node,
        camera,
        material: material_handle,
        geometry,
        position_buffer,
        position_accessor,
    }
}

fn uniform_commands(material: &PbrMaterial, handle: Handle, node: Handle, camera: Handle) -> Vec<Command> {
    material
        .setup_shader()
        .into_iter()
        .map(|binding| Command::Uniform { binding, material: handle, node, camera })
        .collect()
}

fn draws(commands: &[Command]) -> Vec<Command> {
    commands
        .iter()
        .filter(|c| matches!(c, Command::DrawArrays { .. } | Command::DrawElements { .. }))
        .copied()
        .collect()
}

#[test]
fn non_indexed_primitive_issues_one_draw_arrays_with_its_count() {
    let material = PbrMaterial::new().set_draw_mode(DrawMode::TriangleStrip);
    let s = setup(material, vec![AttributeName::Position]);
    let frame = s.core.render_scene(s.root, s.camera).unwrap();
    assert_eq!(
        draws(&frame.commands),
        vec![Command::DrawArrays { mode: DrawMode::TriangleStrip, first: 0, count: 6 }]
    );
    let mut expected = vec![Command::UseProgram { shader: 0 }];
    expected.extend(uniform_commands(&material, s.material, s.node, s.camera));
    expected.extend(vec![
        Command::SetFeature { feature: Feature::CullFace, enabled: true },
        Command::SetFeature { feature: Feature::DepthTest, enabled: true },
        Command::BindBuffer { target: BufferTarget::ArrayBuffer, buffer: s.position_buffer },
        Command::BindAttribute { slot: 0, options: options(TypedArrayKind::Float32, 3) },
        Command::SwitchAttributes { amount: 1 },
        Command::DrawArrays { mode: DrawMode::TriangleStrip, first: 0, count: 6 },
    ]);
    assert_eq!(frame.commands, expected);
    assert_eq!(
        frame.transforms,
        vec![
            TransformStep { node: s.root, parent: None },
            TransformStep { node: s.node, parent: Some(s.root) },
        ]
    );
}

#[test]
fn indexed_primitive_issues_one_draw_elements_with_the_index_count_and_type() {
    let material = PbrMaterial::new();
    let mut s = setup(material, vec![AttributeName::Position]);
    let index_buffer =
        s.core.insert_buffer(BufferTarget::ElementArrayBuffer, BufferUsage::StaticDraw, vec![0u8; 24]);
    let index_accessor = s.core.insert_accessor(Accessor {
        buffer: index_buffer,
        count: 12,
        options: options(TypedArrayKind::Uint16, 1),
    });
    s.core.geometries.get_mut(s.geometry).unwrap().indices = Some(index_accessor);
    let frame = s.core.render_scene(s.root, s.camera).unwrap();
    assert_eq!(
        draws(&frame.commands),
        vec![Command::DrawElements {
            mode: DrawMode::Triangles,
            count: 12,
            component_type: TypedArrayKind::Uint16,
            offset: 0,
        }]
    );
    let n = frame.commands.len();
    assert_eq!(
        frame.commands[n - 3..].to_vec(),
        vec![
            Command::SwitchAttributes { amount: 1 },
            Command::BindBuffer { target: BufferTarget::ElementArrayBuffer, buffer: index_buffer },
            Command::DrawElements {
                mode: DrawMode::Triangles,
                count: 12,
                component_type: TypedArrayKind::Uint16,
                offset: 0,
            },
        ]
    );
}

#[test]
fn primitive_without_material_is_skipped() {
    let mut s = setup(PbrMaterial::new(), vec![AttributeName::Position]);
    let bare = s.core.insert_mesh(Mesh {
        primitives: vec![Primitive { geometry: Handle::from_raw_parts(90, 0), material: None }],
        name: None,
    });
    let extra = s.core.insert_node(Node::new(Some(bare)));
    s.core.scene.attach(s.root, extra).unwrap();
    let frame = s.core.render_scene(s.root, s.camera).unwrap();
    assert_eq!(draws(&frame.commands).len(), 1);
    let only_bare = s.core.render_scene(extra, s.camera).unwrap();
    assert_eq!(only_bare.commands, vec![]);
}

#[test]
fn slots_that_the_geometry_lacks_stay_unbound_but_are_counted() {
    let material = PbrMaterial::new().set_cull_face(false).set_depth_test(false);
    let s = setup(
        material,
        vec![AttributeName::Normal, AttributeName::Position, AttributeName::Unknown("COLOR_0".to_string())],
    );
    let commands = s.core.render_scene(s.root, s.camera).unwrap().commands;
    let tail: Vec<Command> = commands[1 + material.setup_shader().len()..].to_vec();
    assert_eq!(
        tail,
        vec![
            Command::SetFeature { feature: Feature::CullFace, enabled: false },
            Command::SetFeature { feature: Feature::DepthTest, enabled: false },
            Command::BindBuffer { target: BufferTarget::ArrayBuffer, buffer: s.position_buffer },
            Command::BindAttribute { slot: 1, options: options(TypedArrayKind::Float32, 3) },
            Command::SwitchAttributes { amount: 3 },
            Command::DrawArrays { mode: DrawMode::Triangles, first: 0, count: 6 },
        ]
    );
}

#[test]
fn vertex_count_comes_from_the_attribute_bound_last() {
    let mut s = setup(PbrMaterial::new(), vec![AttributeName::Position, AttributeName::Uv]);
    let uv_buffer = s.core.insert_buffer(BufferTarget::ArrayBuffer, BufferUsage::StaticDraw, vec![0u8; 8]);
    let uv = s.core.insert_accessor(Accessor {
        buffer: uv_buffer,
        count: 4,
        options: options(TypedArrayKind::Float32, 2),
    });
    s.core.geometries.get_mut(s.geometry).unwrap().set_attribute(AttributeName::Uv, uv);
    let commands = s.core.render_scene(s.root, s.camera).unwrap().commands;
    assert_eq!(draws(&commands), vec![Command::DrawArrays { mode: DrawMode::Triangles, first: 0, count: 4 }]);
}

#[test]
fn shader_without_slots_draws_nothing_of_the_geometry() {
    let s = setup(PbrMaterial::new(), vec![]);
    let commands = s.core.render_scene(s.root, s.camera).unwrap().commands;
    let n = commands.len();
    assert_eq!(
        commands[n - 2..].to_vec(),
        vec![
            Command::SwitchAttributes { amount: 0 },
            Command::DrawArrays { mode: DrawMode::Triangles, first: 0, count: 0 },
        ]
    );
}

#[test]
fn missing_camera_fails_the_frame() {
    let s = setup(PbrMaterial::new(), vec![AttributeName::Position]);
    let result = s.core.render_scene(s.root, Handle::from_raw_parts(9, 9));
    assert_eq!(result.err(), Some(RenderError::MissingCamera));
}

#[test]
fn missing_mesh_fails_the_frame() {
    let mut s = setup(PbrMaterial::new(), vec![AttributeName::Position]);
    let ghost = s.core.insert_node(Node::new(Some(Handle::from_raw_parts(31, 4))));
    s.core.scene.attach(s.root, ghost).unwrap();
    assert_eq!(s.core.render_scene(s.root, s.camera).err(), Some(RenderError::MissingMesh));
    assert!(s.core.render_scene(s.node, s.camera).is_ok());
}

#[test]
fn missing_geometry_and_material_fail_the_frame() {
    let mut s = setup(PbrMaterial::new(), vec![AttributeName::Position]);
    let stale = Handle::from_raw_parts(44, 1);
    let no_geometry = s.core.insert_mesh(Mesh {
        primitives: vec![Primitive { geometry: stale, material: Some(s.material) }],
        name: None,
    });
    let no_material = s.core.insert_mesh(Mesh {
        primitives: vec![Primitive { geometry: s.geometry, material: Some(stale) }],
        name: None,
    });
    let a = s.core.insert_node(Node::new(Some(no_geometry)));
    let b = s.core.insert_node(Node::new(Some(no_material)));
    assert_eq!(s.core.render_scene(a, s.camera).err(), Some(RenderError::MissingGeometry));
    assert_eq!(s.core.render_scene(b, s.camera).err(), Some(RenderError::MissingMaterial));
}

#[test]
fn removed_material_fails_the_frame() {
    let mut s = setup(PbrMaterial::new(), vec![AttributeName::Position]);
    assert!(s.core.materials.remove(s.material).is_some());
    assert_eq!(s.core.render_scene(s.root, s.camera).err(), Some(RenderError::MissingMaterial));
}

#[test]
fn missing_accessor_and_buffer_fail_the_frame() {
    let mut s = setup(PbrMaterial::new(), vec![AttributeName::Position]);
    assert!(s.core.buffers.remove(s.position_buffer).is_some());
    assert_eq!(s.core.render_scene(s.root, s.camera).err(), Some(RenderError::MissingBuffer));
    assert!(s.core.accessors.remove(s.position_accessor).is_some());
    assert_eq!(s.core.render_scene(s.root, s.camera).err(), Some(RenderError::MissingAccessor));
}

#[test]
fn missing_index_accessor_fails_the_frame() {
    let mut s = setup(PbrMaterial::new(), vec![AttributeName::Position]);
    s.core.geometries.get_mut(s.geometry).unwrap().indices = Some(Handle::from_raw_parts(70, 0));
    assert_eq!(s.core.render_scene(s.root, s.camera).err(), Some(RenderError::MissingAccessor));
}

#[test]
fn missing_shader_fails_the_draw_call() {
    let s = setup(PbrMaterial::new(), vec![AttributeName::Position]);
    let other = PbrMaterial::new().set_color_map(Some(Handle::from_raw_parts(0, 0)));
    let geometry = s.core.geometries.get(s.geometry).unwrap();
    let result = s.core.draw_call(geometry, &other, s.material, s.node, s.camera);
    assert_eq!(result.err(), Some(RenderError::MissingShader));
    let known = PbrMaterial::new().set_draw_mode(DrawMode::Points);
    let commands = s.core.draw_call(geometry, &known, s.material, s.node, s.camera).unwrap();
    assert_eq!(commands[0], Command::UseProgram { shader: 0 });
    assert_eq!(
        commands[commands.len() - 1],
        Command::DrawArrays { mode: DrawMode::Points, first: 0, count: 6 }
    );
}

#[test]
fn insert_material_asks_for_each_shader_once() {
    let mut core = Core::new();
    let (a, first) = core.insert_material(PbrMaterial::new());
    let (b, second) = core.insert_material(PbrMaterial::new().set_cull_face(false));
    let (_, third) = core.insert_material(PbrMaterial::new().set_color_map(Some(a)));
    assert_ne!(a, b);
    assert_eq!(first, Some(PbrMaterial::new().create_shader()));
    assert_eq!(second, None);
    assert_eq!(third.unwrap().defines, vec!["USE_COLOR_MAP".to_string()]);
    assert_eq!(core.shaders.len(), 2);
    assert_eq!(core.checkup_shader(&PbrMaterial::new()), None);
    assert!(core.checkup_shader(&PbrMaterial::new().set_debug_cube_map(Some(a))).is_some());
    assert_eq!(core.shaders.len(), 3);
    assert!(!core.shader_built(&"unknown".to_string(), vec![]));
}

#[test]
fn nodes_are_drawn_in_depth_first_order() {
    let mut s = setup(PbrMaterial::new(), vec![AttributeName::Position]);
    let mesh = s.core.scene.get_node(s.node).unwrap().mesh;
    let second = s.core.insert_node(Node::new(mesh));
    let below_first = s.core.insert_node(Node::new(mesh));
    s.core.scene.attach(s.root, second).unwrap();
    s.core.scene.attach(s.node, below_first).unwrap();
    let commands = s.core.render_scene(s.root, s.camera).unwrap().commands;
    let drawn: Vec<Handle> = commands
        .iter()
        .filter_map(|c| match c {
            Command::Uniform { node, binding, .. }
                if binding.uniform == render_core::material::Uniform::ModelMatrix =>
            {
                Some(*node)
            }
            _ => None,
        })
        .collect();
    assert_eq!(drawn, vec![s.node, below_first, second]);
    assert_eq!(draws(&commands).len(), 3);
}

#[test]
fn geometry_attributes_behave_like_a_map() {
    let a = Handle::from_raw_parts(1, 0);
    let b = Handle::from_raw_parts(2, 0);
    let c = Handle::from_raw_parts(3, 0);
    let mut geometry = Geometry::new();
    assert_eq!(geometry.get_attribute(&AttributeName::Position), None);
    geometry.set_attribute(AttributeName::Position, a);
    geometry.set_attribute(AttributeName::Unknown("COLOR_0".to_string()), b);
    geometry.set_attribute(AttributeName::Position, c);
    assert_eq!(geometry.attributes.len(), 2);
    assert_eq!(geometry.get_attribute(&AttributeName::Position), Some(c));
    assert_eq!(geometry.get_attribute(&AttributeName::Unknown("COLOR_0".to_string())), Some(b));
    assert_eq!(geometry.get_attribute(&AttributeName::Unknown("COLOR_1".to_string())), None);
    assert_eq!(geometry.indices, None);
    assert_eq!(geometry.count, 0);
}
