use crate::arena::Registry;
use crate::handle::Handle;
use crate::material::{DrawMode, Material, MaterialModel, ShaderRecipe, UniformBinding};
use crate::scene::{Node, NodeView, Scene, TransformStep};
use crate::shader::{
    keys, position, ensured, AttributeKey, AttributeName, AttributeOptions, ShaderCache, ShaderView,
    TypedArrayKind,
};
use vstd::prelude::*;

verus! {

/// What a buffer is bound as.
#[derive(Clone, Copy, Debug, PartialEq, Eq, Structural)]
pub enum BufferTarget {
    /// Vertex attributes.
    ArrayBuffer,
    /// Vertex indices.
    ElementArrayBuffer,
}

/// How often the contents of a buffer are expected to change.
#[derive(Clone, Copy, Debug, PartialEq, Eq, Structural)]
pub enum BufferUsage {
    StaticDraw,
    DynamicDraw,
    StreamDraw,
}

/// A switch of the rasterizer.
#[derive(Clone, Copy, Debug, PartialEq, Eq, Structural)]
pub enum Feature {
    CullFace,
    DepthTest,
}

/// Raw vertex or index data on its way to the graphics context.
#[derive(Debug)]
pub struct Buffer {
    pub target: BufferTarget,
    pub usage: BufferUsage,
    pub data: Vec<u8>,
}

/// A buffer as contracts speak of it.
pub struct BufferView {
    pub target: BufferTarget,
    pub usage: BufferUsage,
    pub data: Seq<u8>,
}

impl View for Buffer {
    type V = BufferView;

    open spec fn view(&self) -> BufferView {
        BufferView { target: self.target, usage: self.usage, data: self.data@ }
    }
}

/// A typed view into a buffer: which buffer, how many items, and how one
/// item is laid out. Several accessors may read one buffer.
#[derive(Clone, Copy, Debug, PartialEq, Eq)]
pub struct Accessor {
    pub buffer: Handle,
    pub count: i32,
    pub options: AttributeOptions,
}

/// One named attribute of a geometry and the accessor that holds it.
#[derive(Debug)]
pub struct Attribute {
    pub name: AttributeName,
    pub accessor: Handle,
}

/// A drawable shape: its attributes by name, an index accessor where the
/// shape is indexed, and the number of vertices or indices to draw.
#[derive(Debug)]
pub struct Geometry {
    pub attributes: Vec<Attribute>,
    pub indices: Option<Handle>,
    pub count: i32,
}

/// A geometry as contracts speak of it.
pub struct GeometryView {
    pub attributes: Seq<(AttributeKey, Handle)>,
    pub indices: Option<Handle>,
    pub count: i32,
}

impl View for Geometry {
    type V = GeometryView;

    open spec fn view(&self) -> GeometryView {
        GeometryView {
            attributes: self.attributes@.map_values(|a: Attribute| (a.name@, a.accessor)),
            indices: self.indices,
            count: self.count,
        }
    }
}

/// The accessor of the first attribute from position `from` on that goes
/// by the name `key`.
pub open spec fn accessor_from(
    attributes: Seq<(AttributeKey, Handle)>,
    key: AttributeKey,
    from: int,
) -> Option<Handle>
    decreases attributes.len() - from,
{
    if from < 0 || from >= attributes.len() {
        None
    } else if attributes[from].0 == key {
        Some(attributes[from].1)
    } else {
        accessor_from(attributes, key, from + 1)
    }
}

/// The accessor that a geometry holds under the name `key`.
pub open spec fn accessor_of(attributes: Seq<(AttributeKey, Handle)>, key: AttributeKey) -> Option<
    Handle,
> {
    accessor_from(attributes, key, 0)
}

/// The attributes after `accessor` was put under the name `key`: in place
/// of the first attribute of that name, or at the end where there is none.
pub open spec fn with_attribute(
    attributes: Seq<(AttributeKey, Handle)>,
    key: AttributeKey,
    accessor: Handle,
    from: int,
) -> Seq<(AttributeKey, Handle)>
    decreases attributes.len() - from,
{
    if from < 0 || from >= attributes.len() {
        attributes.push((key, accessor))
    } else if attributes[from].0 == key {
        attributes.update(from, (key, accessor))
    } else {
        with_attribute(attributes, key, accessor, from + 1)
    }
}

impl Geometry {
    /// A geometry without attributes and indices.
    pub fn new() -> (geometry: Geometry)
        ensures
            geometry@ == (GeometryView { attributes: Seq::empty(), indices: None, count: 0 }),
    {
        let geometry = Geometry { attributes: Vec::new(), indices: None, count: 0 };
        assert(geometry@.attributes =~= Seq::empty());
        geometry
    }

    /// The accessor under `name`.
    pub fn get_attribute(&self, name: &AttributeName) -> (accessor: Option<Handle>)
        ensures
            accessor == accessor_of(self@.attributes, name@),
    {
        let mut i: usize = 0;
        while i < self.attributes.len()
            invariant
                i <= self.attributes.len(),
                accessor_from(self@.attributes, name@, i as int) == accessor_of(
                    self@.attributes,
                    name@,
                ),
            decreases self.attributes.len() - i,
        {
            if self.attributes[i].name.same(name) {
                return Some(self.attributes[i].accessor);
            }
            i += 1;
        }
        None
    }

    /// Puts `accessor` under `name`, in place of what was there.
    pub fn set_attribute(&mut self, name: AttributeName, accessor: Handle)
        ensures
            final(self)@.attributes == with_attribute(old(self)@.attributes, name@, accessor, 0),
            final(self)@.indices == old(self)@.indices,
            final(self)@.count == old(self)@.count,
            accessor_of(final(self)@.attributes, name@) == Some(accessor),
            forall|other: AttributeKey|
                other != name@ ==> accessor_of(final(self)@.attributes, other) == accessor_of(
                    old(self)@.attributes,
                    other,
                ),
    {
        let ghost before = self@.attributes;
        let ghost key = name@;
        let mut i: usize = 0;
        while i < self.attributes.len()
            invariant
                i <= self.attributes.len(),
                self@ == old(self)@,
                before == self@.attributes,
                key == name@,
                forall|j: int| 0 <= j < i ==> (#[trigger] before[j]).0 != key,
                with_attribute(before, key, accessor, i as int) == with_attribute(
                    before,
                    key,
                    accessor,
                    0,
                ),
            decreases self.attributes.len() - i,
        {
            if self.attributes[i].name.same(&name) {
                self.attributes[i] = Attribute { name, accessor };
                proof {
                    assert(self@.attributes =~= before.update(i as int, (key, accessor)));
                    assert forall|other: AttributeKey| other != key implies accessor_of(
                        self@.attributes,
                        other,
                    ) == accessor_of(before, other) by {
                        lemma_with_attribute(before, key, accessor, other, 0);
                    }
                    lemma_with_attribute(before, key, accessor, key, 0);
                }
                return ;
            }
            i += 1;
        }
        self.attributes.push(Attribute { name, accessor });
        proof {
            assert(self@.attributes =~= before.push((key, accessor)));
            assert forall|other: AttributeKey| other != key implies accessor_of(
                self@.attributes,
                other,
            ) == accessor_of(before, other) by {
                lemma_with_attribute(before, key, accessor, other, 0);
            }
            lemma_with_attribute(before, key, accessor, key, 0);
        }
    }
}

/// What `with_attribute` does to a lookup: the name that was set resolves
/// to the new accessor, and every other name resolves as before.
pub proof fn lemma_with_attribute(
    attributes: Seq<(AttributeKey, Handle)>,
    key: AttributeKey,
    accessor: Handle,
    other: AttributeKey,
    from: int,
)
    requires
        0 <= from <= attributes.len(),
    ensures
        accessor_from(with_attribute(attributes, key, accessor, from), key, from) == Some(accessor),
        other != key ==> accessor_from(with_attribute(attributes, key, accessor, from), other, from)
            == accessor_from(attributes, other, from),
    decreases attributes.len() - from,
{
    let after = with_attribute(attributes, key, accessor, from);
    if from < attributes.len() {
        if attributes[from].0 == key {
            lemma_lookup_after(attributes, after, other, from + 1);
        } else {
            lemma_with_attribute(attributes, key, accessor, other, from + 1);
            lemma_with_attribute_keeps(attributes, key, accessor, from + 1, from);
        }
    } else {
        assert(accessor_from(after, other, from + 1) == None::<Handle>);
    }
}

proof fn lemma_with_attribute_keeps(
    attributes: Seq<(AttributeKey, Handle)>,
    key: AttributeKey,
    accessor: Handle,
    from: int,
    at: int,
)
    requires
        0 <= at < from <= attributes.len(),
    ensures
        with_attribute(attributes, key, accessor, from).len() >= attributes.len(),
        with_attribute(attributes, key, accessor, from)[at] == attributes[at],
    decreases attributes.len() - from,
{
    if from < attributes.len() && attributes[from].0 != key {
        lemma_with_attribute_keeps(attributes, key, accessor, from + 1, at);
    }
}

proof fn lemma_lookup_after(
    a: Seq<(AttributeKey, Handle)>,
    b: Seq<(AttributeKey, Handle)>,
    key: AttributeKey,
    from: int,
)
    requires
        0 <= from,
        a.len() == b.len(),
        forall|j: int| from <= j < a.len() ==> a[j] == b[j],
    ensures
        accessor_from(a, key, from) == accessor_from(b, key, from),
    decreases a.len() - from,
{
    if from < a.len() {
        lemma_lookup_after(a, b, key, from + 1);
    }
}

/// The drawable unit: a geometry, and the material to draw it with. A
/// primitive without material is not drawn.
#[derive(Clone, Copy, Debug, PartialEq, Eq)]
pub struct Primitive {
    pub geometry: Handle,
    pub material: Option<Handle>,
}

/// Primitives that are drawn together, under an optional name.
#[derive(Debug)]
pub struct Mesh {
    pub primitives: Vec<Primitive>,
    pub name: Option<String>,
}

/// A mesh as contracts speak of it.
pub struct MeshView {
    pub primitives: Seq<Primitive>,
    pub name: Option<Seq<char>>,
}

impl View for Mesh {
    type V = MeshView;

    open spec fn view(&self) -> MeshView {
        MeshView {
            primitives: self.primitives@,
            name: match self.name {
                Some(name) => Some(name@),
                None => None,
            },
        }
    }
}

/// One call into the graphics context. A frame is a list of them, to be
/// carried out in order.
#[derive(Clone, Copy, Debug, PartialEq, Eq)]
pub enum Command {
    /// Make the shader with this number the active program.
    UseProgram { shader: usize },
    /// Write one uniform of the active program for a draw call of `node`
    /// with `material`, seen from `camera`.
    Uniform { binding: UniformBinding, material: Handle, node: Handle, camera: Handle },
    /// Switch a rasterizer feature on or off.
    SetFeature { feature: Feature, enabled: bool },
    BindBuffer { target: BufferTarget, buffer: Handle },
    /// Point the attribute slot of the active program at the bound vertex
    /// buffer.
    BindAttribute { slot: usize, options: AttributeOptions },
    /// Leave the first `amount` attribute slots enabled and disable those
    /// that an earlier draw call left enabled beyond them.
    SwitchAttributes { amount: usize },
    /// Draw `count` indices of the bound index buffer.
    DrawElements { mode: DrawMode, count: i32, component_type: TypedArrayKind, offset: i32 },
    /// Draw `count` vertices, starting with vertex `first`.
    DrawArrays { mode: DrawMode, first: i32, count: i32 },
}

/// A reference that a frame needs and that no longer resolves. A frame
/// with such a reference is not drawn at all.
#[derive(Clone, Copy, Debug, PartialEq, Eq, Structural)]
pub enum RenderError {
    MissingCamera,
    MissingMesh,
    MissingGeometry,
    MissingMaterial,
    MissingShader,
    MissingAccessor,
    MissingBuffer,
}

/// The work of one frame.
#[derive(Debug)]
pub struct Frame {
    /// The transform updates to carry out first, in order.
    pub transforms: Vec<TransformStep>,
    /// The calls into the graphics context, in order.
    pub commands: Vec<Command>,
}

/// Commands, or the reference that is missing.
pub type Planned = Result<Seq<Command>, RenderError>;

/// First the one, then the other; the first missing reference wins.
pub open spec fn chain(first: Planned, rest: Planned) -> Planned {
    match first {
        Err(e) => Err(e),
        Ok(a) => match rest {
            Err(e) => Err(e),
            Ok(b) => Ok(a + b),
        },
    }
}

/// The commands in a result.
pub open spec fn planned(result: Result<Vec<Command>, RenderError>) -> Planned {
    match result {
        Ok(commands) => Ok(commands@),
        Err(e) => Err(e),
    }
}

proof fn lemma_chain_assoc(a: Seq<Command>, next: Planned, rest: Planned)
    ensures
        chain(Ok(a), chain(next, rest)) == (match next {
            Err(e) => Err(e),
            Ok(s) => chain(Ok(a + s), rest),
        }),
{
    if let Ok(s) = next {
        if let Ok(r) = rest {
            assert(a + (s + r) =~= (a + s) + r);
        }
    }
}

/// The resources of a renderer and the scene that it draws.
///
/// The renderer decides what is drawn and how; it never talks to the
/// graphics context itself. Whoever owns the context builds the shaders
/// that `insert_material` asks for, uploads the buffers and carries out
/// the frames.
pub struct Renderer<M: Material, C> {
    pub buffers: Registry<Buffer>,
    pub accessors: Registry<Accessor>,
    pub geometries: Registry<Geometry>,
    pub materials: Registry<M>,
    pub meshes: Registry<Mesh>,
    pub cameras: Registry<C>,
    pub scene: Scene,
    pub shaders: ShaderCache,
}

impl<M: Material, C> Renderer<M, C> {
    /// Every registry, the scene and the shader cache are consistent.
    pub open spec fn wf(&self) -> bool {
        &&& self.buffers.wf()
        &&& self.accessors.wf()
        &&& self.geometries.wf()
        &&& self.materials.wf()
        &&& self.meshes.wf()
        &&& self.cameras.wf()
        &&& self.scene.wf()
        &&& self.shaders.wf()
    }

    /// The commands that point attribute slot `slot` of a shader, which
    /// goes by the name `key`, at the data of a geometry. A slot that the
    /// geometry has nothing for is left alone.
    pub open spec fn slot_commands(&self, key: AttributeKey, geometry: GeometryView, slot: int) -> Planned {
        match accessor_of(geometry.attributes, key) {
            None => Ok(Seq::empty()),
            Some(h) => if !self.accessors@.contains_key(h) {
                Err(RenderError::MissingAccessor)
            } else if !self.buffers@.contains_key(self.accessors@[h].buffer) {
                Err(RenderError::MissingBuffer)
            } else {
                Ok(
                    seq![
                        Command::BindBuffer {
                            target: BufferTarget::ArrayBuffer,
                            buffer: self.accessors@[h].buffer,
                        },
                        Command::BindAttribute {
                            slot: slot as usize,
                            options: self.accessors@[h].options,
                        },
                    ],
                )
            },
        }
    }

    /// The commands for the attribute slots from `slot` on.
    pub open spec fn attribute_commands(
        &self,
        slots: Seq<AttributeKey>,
        geometry: GeometryView,
        slot: int,
    ) -> Planned
        decreases slots.len() - slot,
    {
        if slot < 0 || slot >= slots.len() {
            Ok(Seq::empty())
        } else {
            chain(
                self.slot_commands(slots[slot], geometry, slot),
                self.attribute_commands(slots, geometry, slot + 1),
            )
        }
    }

    /// The number of vertices that the first `upto` slots establish: the
    /// count of the accessor bound last, or zero where none was bound.
    pub open spec fn vertex_count(
        &self,
        slots: Seq<AttributeKey>,
        geometry: GeometryView,
        upto: int,
    ) -> i32
        decreases upto,
    {
        if upto <= 0 {
            0
        } else {
            match accessor_of(geometry.attributes, slots[upto - 1]) {
                Some(h) => self.accessors@[h].count,
                None => self.vertex_count(slots, geometry, upto - 1),
            }
        }
    }

    /// The draw itself: indexed, with the count and component type of the
    /// index accessor, where the geometry has one; else over `count`
    /// vertices.
    pub open spec fn issue_commands(&self, geometry: GeometryView, mode: DrawMode, count: i32) -> Planned {
        match geometry.indices {
            Some(h) => if !self.accessors@.contains_key(h) {
                Err(RenderError::MissingAccessor)
            } else if !self.buffers@.contains_key(self.accessors@[h].buffer) {
                Err(RenderError::MissingBuffer)
            } else {
                Ok(
                    seq![
                        Command::BindBuffer {
                            target: BufferTarget::ElementArrayBuffer,
                            buffer: self.accessors@[h].buffer,
                        },
                        Command::DrawElements {
                            mode,
                            count: self.accessors@[h].count,
                            component_type: self.accessors@[h].options.component_type,
                            offset: 0,
                        },
                    ],
                )
            },
            None => Ok(seq![Command::DrawArrays { mode, first: 0, count }]),
        }
    }

    /// The commands that select the shader of a material and set it up:
    /// the program, the uniforms in the order the material gives them, and
    /// the two rasterizer switches.
    pub open spec fn setup_commands(
        shader: int,
        material: MaterialModel,
        material_handle: Handle,
        node: Handle,
        camera: Handle,
    ) -> Seq<Command> {
        seq![Command::UseProgram { shader: shader as usize }] + material.uniforms.map_values(
            |binding: UniformBinding|
                Command::Uniform { binding, material: material_handle, node, camera },
        ) + seq![
            Command::SetFeature { feature: Feature::CullFace, enabled: material.cull_face },
            Command::SetFeature { feature: Feature::DepthTest, enabled: material.depth_test },
        ]
    }

    /// The commands of one draw call.
    pub open spec fn draw_commands(
        &self,
        geometry: GeometryView,
        material: MaterialModel,
        material_handle: Handle,
        node: Handle,
        camera: Handle,
    ) -> Planned {
        match position(self.shaders@, material.tag) {
            None => Err(RenderError::MissingShader),
            Some(shader) => {
                let slots = self.shaders@[shader].attributes;
                chain(
                    Ok(Self::setup_commands(shader, material, material_handle, node, camera)),
                    chain(
                        self.attribute_commands(slots, geometry, 0),
                        chain(
                            Ok(seq![Command::SwitchAttributes { amount: slots.len() as usize }]),
                            self.issue_commands(
                                geometry,
                                material.draw_mode,
                                self.vertex_count(slots, geometry, slots.len() as int),
                            ),
                        ),
                    ),
                )
            },
        }
    }

    /// The commands for one primitive of the mesh of `node`: none for a
    /// primitive without material, else one draw call.
    pub open spec fn primitive_commands(&self, primitive: Primitive, node: Handle, camera: Handle) -> Planned {
        match primitive.material {
            None => Ok(Seq::empty()),
            Some(m) => if !self.geometries@.contains_key(primitive.geometry) {
                Err(RenderError::MissingGeometry)
            } else if !self.materials@.contains_key(m) {
                Err(RenderError::MissingMaterial)
            } else {
                self.draw_commands(
                    self.geometries@[primitive.geometry]@,
                    self.materials@[m].model(),
                    m,
                    node,
                    camera,
                )
            },
        }
    }

    /// The commands for the primitives of a mesh from position `from` on.
    pub open spec fn mesh_commands(
        &self,
        primitives: Seq<Primitive>,
        node: Handle,
        camera: Handle,
        from: int,
    ) -> Planned
        decreases primitives.len() - from,
    {
        if from < 0 || from >= primitives.len() {
            Ok(Seq::empty())
        } else {
            chain(
                self.primitive_commands(primitives[from], node, camera),
                self.mesh_commands(primitives, node, camera, from + 1),
            )
        }
    }

    /// The commands for a node that carries a mesh.
    pub open spec fn node_commands(&self, node: Handle, camera: Handle) -> Planned {
        let mesh = self.scene@[node].mesh->0;
        if !self.meshes@.contains_key(mesh) {
            Err(RenderError::MissingMesh)
        } else {
            self.mesh_commands(self.meshes@[mesh]@.primitives, node, camera, 0)
        }
    }

    /// The commands for the nodes from position `from` on.
    pub open spec fn nodes_commands(&self, nodes: Seq<Handle>, camera: Handle, from: int) -> Planned
        decreases nodes.len() - from,
    {
        if from < 0 || from >= nodes.len() {
            Ok(Seq::empty())
        } else {
            chain(
                self.node_commands(nodes[from], camera),
                self.nodes_commands(nodes, camera, from + 1),
            )
        }
    }

    /// The commands of a frame: for each visible node below `root`, in
    /// depth-first order, the draw calls of its mesh.
    pub open spec fn frame_commands(&self, root: Handle, camera: Handle) -> Planned {
        if !self.cameras@.contains_key(camera) {
            Err(RenderError::MissingCamera)
        } else if !self.scene@.contains_key(root) {
            Ok(Seq::empty())
        } else {
            self.nodes_commands(self.scene.visible(root), camera, 0)
        }
    }

    /// A renderer without resources, with an empty scene.
    pub fn new() -> (renderer: Renderer<M, C>)
        ensures
            renderer.wf(),
            renderer.buffers@.dom().is_empty(),
            renderer.accessors@.dom().is_empty(),
            renderer.geometries@.dom().is_empty(),
            renderer.materials@.dom().is_empty(),
            renderer.meshes@.dom().is_empty(),
            renderer.cameras@.dom().is_empty(),
            renderer.scene@.dom().is_empty(),
            renderer.shaders@.len() == 0,
    {
        Renderer {
            buffers: Registry::new(),
            accessors: Registry::new(),
            geometries: Registry::new(),
            materials: Registry::new(),
            meshes: Registry::new(),
            cameras: Registry::new(),
            scene: Scene::new(),
            shaders: ShaderCache::new(),
        }
    }

    /// Makes sure that the cache holds a shader for the tag of `material`.
    /// Where it held none, the recipe to build one from is handed out.
    pub fn checkup_shader(&mut self, material: &M) -> (recipe: Option<ShaderRecipe>)
        requires
            old(self).wf(),
        ensures
            final(self).wf(),
            *final(self) == (Renderer { shaders: final(self).shaders, ..*old(self) }),
            final(self).shaders@ == ensured(old(self).shaders@, material.model().tag),
            match recipe {
                Some(r) => {
                    &&& position(old(self).shaders@, material.model().tag) is None
                    &&& r@ == material.model().recipe
                },
                None => position(old(self).shaders@, material.model().tag) is Some,
            },
    {
        let (_, recipe) = self.shaders.ensure(material);
        recipe
    }

    /// Records the attribute slots of the shader that was built for `tag`.
    /// The answer is `false`, and nothing changes, where the cache holds
    /// no shader for the tag.
    pub fn shader_built(&mut self, tag: &String, attributes: Vec<AttributeName>) -> (known: bool)
        requires
            old(self).wf(),
        ensures
            final(self).wf(),
            *final(self) == (Renderer { shaders: final(self).shaders, ..*old(self) }),
            known == position(old(self).shaders@, tag@) is Some,
            known ==> final(self).shaders@ == old(self).shaders@.update(
                position(old(self).shaders@, tag@)->0,
                ShaderView { tag: tag@, attributes: keys(attributes@) },
            ),
            !known ==> final(self).shaders@ == old(self).shaders@,
    {
        match self.shaders.find(tag) {
            Some(shader) => {
                self.shaders.set_attributes(shader, attributes);
                true
            },
            None => false,
        }
    }

    /// Stores a buffer of raw data.
    pub fn insert_buffer(&mut self, target: BufferTarget, usage: BufferUsage, data: Vec<u8>) -> (handle:
        Handle)
        requires
            old(self).wf(),
        ensures
            final(self).wf(),
            *final(self) == (Renderer { buffers: final(self).buffers, ..*old(self) }),
            !old(self).buffers@.contains_key(handle),
            final(self).buffers@.dom() == old(self).buffers@.dom().insert(handle),
            final(self).buffers@[handle]@ == (BufferView { target, usage, data: data@ }),
            forall|h: Handle| #[trigger]
                old(self).buffers@.contains_key(h) ==> final(self).buffers@[h] == old(
                    self,
                ).buffers@[h],
    {
        let handle = self.buffers.insert(Buffer { target, usage, data });
        handle
    }

    /// Stores a material, after making sure that the cache holds a shader
    /// for its tag. Where it held none, the recipe to build one from is
    /// handed out with the handle.
    pub fn insert_material(&mut self, material: M) -> (result: (Handle, Option<ShaderRecipe>))
        requires
            old(self).wf(),
        ensures
            final(self).wf(),
            *final(self) == (Renderer {
                shaders: final(self).shaders,
                materials: final(self).materials,
                ..*old(self)
            }),
            !old(self).materials@.contains_key(result.0),
            final(self).materials@ == old(self).materials@.insert(result.0, material),
            final(self).shaders@ == ensured(old(self).shaders@, material.model().tag),
            match result.1 {
                Some(r) => {
                    &&& position(old(self).shaders@, material.model().tag) is None
                    &&& r@ == material.model().recipe
                },
                None => position(old(self).shaders@, material.model().tag) is Some,
            },
    {
        let recipe = self.checkup_shader(&material);
        let handle = self.materials.insert(material);
        (handle, recipe)
    }

    /// Adds a node to the scene, as a root without children.
    pub fn insert_node(&mut self, node: Node) -> (handle: Handle)
        requires
            old(self).wf(),
        ensures
            final(self).wf(),
            *final(self) == (Renderer { scene: final(self).scene, ..*old(self) }),
            !old(self).scene@.contains_key(handle),
            final(self).scene@ == old(self).scene@.insert(
                handle,
                NodeView { parent: None, children: Seq::empty(), mesh: node.mesh },
            ),
    {
        self.scene.insert(node)
    }

    /// Stores a mesh.
    pub fn insert_mesh(&mut self, mesh: Mesh) -> (handle: Handle)
        requires
            old(self).wf(),
        ensures
            final(self).wf(),
            *final(self) == (Renderer { meshes: final(self).meshes, ..*old(self) }),
            !old(self).meshes@.contains_key(handle),
            final(self).meshes@ == old(self).meshes@.insert(handle, mesh),
    {
        self.meshes.insert(mesh)
    }

    /// Stores an accessor.
    pub fn insert_accessor(&mut self, accessor: Accessor) -> (handle: Handle)
        requires
            old(self).wf(),
        ensures
            final(self).wf(),
            *final(self) == (Renderer { accessors: final(self).accessors, ..*old(self) }),
            !old(self).accessors@.contains_key(handle),
            final(self).accessors@ == old(self).accessors@.insert(handle, accessor),
    {
        self.accessors.insert(accessor)
    }

    /// Stores a geometry.
    pub fn insert_geometry(&mut self, geometry: Geometry) -> (handle: Handle)
        requires
            old(self).wf(),
        ensures
            final(self).wf(),
            *final(self) == (Renderer { geometries: final(self).geometries, ..*old(self) }),
            !old(self).geometries@.contains_key(handle),
            final(self).geometries@ == old(self).geometries@.insert(handle, geometry),
    {
        self.geometries.insert(geometry)
    }

    /// The commands of one draw call: `geometry` of `node`, drawn with
    /// `material` as seen from `camera`.
    ///
    /// The shader for the material's tag becomes the active program; the
    /// material's uniforms are written; back-face culling and depth test
    /// are set as the material says. Then every attribute slot of the
    /// shader is pointed at the geometry's data for it, where the geometry
    /// has any, and the slots that the shader does not have are switched
    /// off. An indexed geometry is drawn with the count and component type
    /// of its index accessor, any other with the count of the vertex data
    /// that was bound last. A shader, accessor or buffer that is missing
    /// fails the call.
    pub fn draw_call(
        &self,
        geometry: &Geometry,
        material: &M,
        material_handle: Handle,
        node: Handle,
        camera: Handle,
    ) -> (result: Result<Vec<Command>, RenderError>)
        requires
            self.wf(),
        ensures
            planned(result) == self.draw_commands(
                geometry@,
                material.model(),
                material_handle,
                node,
                camera,
            ),
    {
        let tag = material.get_tag();
        let shader = match self.shaders.find(&tag) {
            Some(shader) => shader,
            None => {
                return Err(RenderError::MissingShader);
            },
        };
        let names = match self.shaders.get(shader) {
            Some(s) => &s.attributes,
            None => {
                return Err(RenderError::MissingShader);
            },
        };
        let ghost model = material.model();
        let ghost slots = self.shaders@[shader as int].attributes;
        let ghost wrap = |binding: UniformBinding|
            Command::Uniform { binding, material: material_handle, node, camera };
        let mut out: Vec<Command> = Vec::new();
        out.push(Command::UseProgram { shader });
        let uniforms = material.setup_shader();
        let mut u: usize = 0;
        while u < uniforms.len()
            invariant
                u <= uniforms.len(),
                out@ == seq![Command::UseProgram { shader }] + uniforms@.take(u as int).map_values(
                    wrap,
                ),
                wrap == (|binding: UniformBinding|
                    Command::Uniform { binding, material: material_handle, node, camera }),
            decreases uniforms.len() - u,
        {
            out.push(
                Command::Uniform { binding: uniforms[u], material: material_handle, node, camera },
            );
            u += 1;
        }
        out.push(Command::SetFeature { feature: Feature::CullFace, enabled: material.cull_face() });
        out.push(
            Command::SetFeature { feature: Feature::DepthTest, enabled: material.depth_test() },
        );
        assert(out@ =~= Self::setup_commands(
            shader as int,
            model,
            material_handle,
            node,
            camera,
        ));
        let ghost setup = out@;
        let mode = material.draw_mode();
        let mut bound: Vec<Command> = Vec::new();
        let mut count: i32 = 0;
        let mut slot: usize = 0;
        while slot < names.len()
            invariant
                self.wf(),
                slot <= names.len(),
                slots == keys(names@),
                slots == self.shaders@[shader as int].attributes,
                position(self.shaders@, material.model().tag) == Some(shader as int),
                chain(Ok(bound@), self.attribute_commands(slots, geometry@, slot as int))
                    == self.attribute_commands(slots, geometry@, 0),
                count == self.vertex_count(slots, geometry@, slot as int),
            decreases names.len() - slot,
        {
            let ghost rest = self.attribute_commands(slots, geometry@, slot + 1);
            proof {
                lemma_chain_assoc(
                    bound@,
                    self.slot_commands(slots[slot as int], geometry@, slot as int),
                    rest,
                );
            }
            if let Some(accessor_handle) = geometry.get_attribute(&names[slot]) {
                let accessor = match self.accessors.get(accessor_handle) {
                    Some(accessor) => accessor,
                    None => {
                        return Err(RenderError::MissingAccessor);
                    },
                };
                if !self.buffers.contains(accessor.buffer) {
                    return Err(RenderError::MissingBuffer);
                }
                let ghost before = bound@;
                bound.push(
                    Command::BindBuffer {
                        target: BufferTarget::ArrayBuffer,
                        buffer: accessor.buffer,
                    },
                );
                bound.push(Command::BindAttribute { slot, options: accessor.options });
                assert(bound@ =~= before + self.slot_commands(
                    slots[slot as int],
                    geometry@,
                    slot as int,
                )->Ok_0);
                count = accessor.count;
            }
            slot += 1;
        }
        let ghost attributes = bound@;
        out.append(&mut bound);
        out.push(Command::SwitchAttributes { amount: slot });
        match geometry.indices {
            Some(accessor_handle) => {
                let accessor = match self.accessors.get(accessor_handle) {
                    Some(accessor) => accessor,
                    None => {
                        return Err(RenderError::MissingAccessor);
                    },
                };
                if !self.buffers.contains(accessor.buffer) {
                    return Err(RenderError::MissingBuffer);
                }
                out.push(
                    Command::BindBuffer {
                        target: BufferTarget::ElementArrayBuffer,
                        buffer: accessor.buffer,
                    },
                );
                out.push(
                    Command::DrawElements {
                        mode,
                        count: accessor.count,
                        component_type: accessor.options.component_type,
                        offset: 0,
                    },
                );
            },
            None => {
                out.push(Command::DrawArrays { mode, first: 0, count });
            },
        }
        proof {
            let issue = self.issue_commands(geometry@, mode, count)->Ok_0;
            let switch = seq![Command::SwitchAttributes { amount: slots.len() as usize }];
            assert(out@ =~= setup + (attributes + (switch + issue)));
        }
        Ok(out)
    }

    fn plan_primitive(&self, primitive: Primitive, node: Handle, camera: Handle) -> (result: Result<
        Vec<Command>,
        RenderError,
    >)
        requires
            self.wf(),
        ensures
            planned(result) == self.primitive_commands(primitive, node, camera),
    {
        match primitive.material {
            None => Ok(Vec::new()),
            Some(material_handle) => {
                let geometry = match self.geometries.get(primitive.geometry) {
                    Some(geometry) => geometry,
                    None => {
                        return Err(RenderError::MissingGeometry);
                    },
                };
                let material = match self.materials.get(material_handle) {
                    Some(material) => material,
                    None => {
                        return Err(RenderError::MissingMaterial);
                    },
                };
                self.draw_call(geometry, material, material_handle, node, camera)
            },
        }
    }

    fn plan_node(&self, node: Handle, mesh_handle: Handle, camera: Handle) -> (result: Result<
        Vec<Command>,
        RenderError,
    >)
        requires
            self.wf(),
            self.scene@[node].mesh == Some(mesh_handle),
        ensures
            planned(result) == self.node_commands(node, camera),
    {
        let mesh = match self.meshes.get(mesh_handle) {
            Some(mesh) => mesh,
            None => {
                return Err(RenderError::MissingMesh);
            },
        };
        let mut out: Vec<Command> = Vec::new();
        let mut at: usize = 0;
        while at < mesh.primitives.len()
            invariant
                self.wf(),
                at <= mesh.primitives.len(),
                self.meshes@.contains_key(mesh_handle),
                self.scene@[node].mesh == Some(mesh_handle),
                mesh@ == self.meshes@[mesh_handle]@,
                chain(Ok(out@), self.mesh_commands(mesh@.primitives, node, camera, at as int))
                    == self.mesh_commands(mesh@.primitives, node, camera, 0),
            decreases mesh.primitives.len() - at,
        {
            let primitive = mesh.primitives[at];
            proof {
                lemma_chain_assoc(
                    out@,
                    self.primitive_commands(primitive, node, camera),
                    self.mesh_commands(mesh@.primitives, node, camera, at + 1),
                );
            }
            match self.plan_primitive(primitive, node, camera) {
                Ok(mut commands) => {
                    out.append(&mut commands);
                },
                Err(e) => {
                    return Err(e);
                },
            }
            at += 1;
        }
        Ok(out)
    }

    /// The work of one frame, seen from `camera`: the transform updates
    /// for the whole scene, and then, for each node at or below `root`
    /// that carries a mesh, in depth-first order, one draw call for each
    /// primitive of the mesh that has a material, in the order of the
    /// primitives.
    ///
    /// A primitive without material is passed over. A camera, mesh,
    /// geometry, material, shader, accessor or buffer that the frame needs
    /// and that does not resolve fails the whole frame with the first such
    /// reference in drawing order; nothing is drawn then.
    pub fn render_scene(&self, root: Handle, camera: Handle) -> (result: Result<Frame, RenderError>)
        requires
            self.wf(),
        ensures
            match result {
                Ok(frame) => {
                    &&& self.frame_commands(root, camera) == Ok::<Seq<Command>, RenderError>(
                        frame.commands@,
                    )
                    &&& frame.transforms@ == self.scene.update_plan()
                },
                Err(e) => self.frame_commands(root, camera) == Err::<Seq<Command>, RenderError>(e),
            },
    {
        if !self.cameras.contains(camera) {
            return Err(RenderError::MissingCamera);
        }
        let transforms = self.scene.update_world_transforms();
        let visible = self.scene.collect_visible_sub_items(root);
        proof {
            if self.scene@.contains_key(root) {
                self.scene.lemma_visible_exactly_reachable_meshes(root);
            }
            assert forall|j: int| 0 <= j < visible.len() implies {
                &&& self.scene@.contains_key(#[trigger] visible@[j])
                &&& self.scene@[visible@[j]].mesh is Some
            } by {
                assert(self.scene.visible(root).contains(visible@[j]));
            }
        }
        let mut out: Vec<Command> = Vec::new();
        let mut at: usize = 0;
        while at < visible.len()
            invariant
                self.wf(),
                at <= visible.len(),
                self.frame_commands(root, camera) == self.nodes_commands(visible@, camera, 0),
                forall|j: int|
                    0 <= j < visible.len() ==> {
                        &&& self.scene@.contains_key(#[trigger] visible@[j])
                        &&& self.scene@[visible@[j]].mesh is Some
                    },
                chain(Ok(out@), self.nodes_commands(visible@, camera, at as int))
                    == self.nodes_commands(visible@, camera, 0),
            decreases visible.len() - at,
        {
            let node_handle = visible[at];
            proof {
                lemma_chain_assoc(
                    out@,
                    self.node_commands(node_handle, camera),
                    self.nodes_commands(visible@, camera, at + 1),
                );
            }
            let mesh = match self.scene.get_node(node_handle) {
                Some(node) => node.mesh,
                None => None,
            };
            if let Some(mesh_handle) = mesh {
                match self.plan_node(node_handle, mesh_handle, camera) {
                    Ok(mut commands) => {
                        out.append(&mut commands);
                    },
                    Err(e) => {
                        return Err(e);
                    },
                }
            }
            at += 1;
        }
        Ok(Frame { transforms, commands: out })
    }
}

} // verus!
