use crate::handle::Handle;
use vstd::prelude::*;
use vstd::string::StringExecFns;

verus! {

/// How the vertices of a draw call are assembled into primitives.
#[derive(Clone, Copy, Debug, PartialEq, Eq, Structural)]
pub enum DrawMode {
    Points,
    Lines,
    LineLoop,
    LineStrip,
    Triangles,
    TriangleStrip,
    TriangleFan,
}

/// The kind of texture that a sampler reads.
#[derive(Clone, Copy, Debug, PartialEq, Eq, Structural)]
pub enum TextureKind {
    Texture2d,
    CubeMap,
}

/// The uniforms that the built-in shaders declare.
#[derive(Clone, Copy, Debug, PartialEq, Eq, Structural)]
pub enum Uniform {
    Color,
    UvRepeating,
    ProjectionMatrix,
    ViewMatrix,
    ModelMatrix,
    NormalMatrix,
    ColorMap,
    DebugCubeMap,
}

/// Where the value written to a uniform comes from.
#[derive(Clone, Copy, Debug, PartialEq, Eq)]
pub enum UniformSource {
    /// A parameter of the material itself.
    Material,
    /// The projection transform of the camera.
    CameraProjection,
    /// The view transform of the camera.
    CameraView,
    /// The world transform of the node.
    NodeWorld,
    /// The inverse transpose of the upper three rows and columns of the
    /// node's world transform, or the identity where that has no inverse.
    NodeNormal,
    /// The number of the texture unit, after `texture` was bound to it.
    Texture { texture: Handle, kind: TextureKind, unit: u32 },
}

/// One uniform to write before a draw call, and where its value comes from.
#[derive(Clone, Copy, Debug, PartialEq, Eq)]
pub struct UniformBinding {
    pub uniform: Uniform,
    pub source: UniformSource,
}

/// What it takes to build a shader program: the names of the vertex and
/// fragment sources and the preprocessor symbols to define for them.
#[derive(Clone, Debug, PartialEq, Eq)]
pub struct ShaderRecipe {
    pub vertex: String,
    pub fragment: String,
    pub defines: Vec<String>,
}

/// A shader recipe as contracts speak of it.
pub struct ShaderRecipeView {
    pub vertex: Seq<char>,
    pub fragment: Seq<char>,
    pub defines: Seq<Seq<char>>,
}

impl View for ShaderRecipe {
    type V = ShaderRecipeView;

    open spec fn view(&self) -> ShaderRecipeView {
        ShaderRecipeView {
            vertex: self.vertex@,
            fragment: self.fragment@,
            defines: self.defines@.map_values(|d: String| d@),
        }
    }
}

/// All that the renderer reads of a material.
pub struct MaterialModel {
    /// The key of the shader variant that the material needs.
    pub tag: Seq<char>,
    /// How that shader is built.
    pub recipe: ShaderRecipeView,
    /// The uniforms written before each draw call, in order.
    pub uniforms: Seq<UniformBinding>,
    pub draw_mode: DrawMode,
    pub cull_face: bool,
    pub depth_test: bool,
}

/// The capabilities of a material. The renderer depends on nothing else of
/// a material, so a new rendering technique is a new type with this trait.
///
/// Two materials with one tag share one shader: the tag must tell apart
/// whatever makes `create_shader` answer differently.
pub trait Material {
    /// What the methods below answer.
    spec fn model(&self) -> MaterialModel;

    /// The key of the shader variant that this material needs.
    fn get_tag(&self) -> (tag: String)
        ensures
            tag@ == self.model().tag,
    ;

    /// How the shader for this material is built.
    fn create_shader(&self) -> (recipe: ShaderRecipe)
        ensures
            recipe@ == self.model().recipe,
    ;

    /// The uniforms to write before a draw call with this material.
    fn setup_shader(&self) -> (uniforms: Vec<UniformBinding>)
        ensures
            uniforms@ == self.model().uniforms,
    ;

    fn draw_mode(&self) -> (mode: DrawMode)
        ensures
            mode == self.model().draw_mode,
    ;

    fn cull_face(&self) -> (enabled: bool)
        ensures
            enabled == self.model().cull_face,
    ;

    fn depth_test(&self) -> (enabled: bool)
        ensures
            enabled == self.model().depth_test,
    ;
}

/// A physically based material. Its colour and texture repeat are numbers
/// that only the shader reads; they stay with the caller.
#[derive(Clone, Copy, Debug, PartialEq, Eq)]
pub struct PbrMaterial {
    pub color_map: Option<Handle>,
    pub debug_cube_map: Option<Handle>,
    pub cull_face: bool,
    pub depth_test: bool,
    pub draw_mode: DrawMode,
}

impl PbrMaterial {
    /// A material without textures that culls back faces, tests depth and
    /// draws triangles.
    pub fn new() -> (material: PbrMaterial)
        ensures
            material == (PbrMaterial {
                color_map: None,
                debug_cube_map: None,
                cull_face: true,
                depth_test: true,
                draw_mode: DrawMode::Triangles,
            }),
    {
        PbrMaterial {
            color_map: None,
            debug_cube_map: None,
            cull_face: true,
            depth_test: true,
            draw_mode: DrawMode::Triangles,
        }
    }

    pub fn set_cull_face(self, cull_face: bool) -> (material: PbrMaterial)
        ensures
            material == (PbrMaterial { cull_face, ..self }),
    {
        PbrMaterial { cull_face, ..self }
    }

    pub fn set_depth_test(self, depth_test: bool) -> (material: PbrMaterial)
        ensures
            material == (PbrMaterial { depth_test, ..self }),
    {
        PbrMaterial { depth_test, ..self }
    }

    pub fn set_draw_mode(self, draw_mode: DrawMode) -> (material: PbrMaterial)
        ensures
            material == (PbrMaterial { draw_mode, ..self }),
    {
        PbrMaterial { draw_mode, ..self }
    }

    pub fn set_color_map(self, color_map: Option<Handle>) -> (material: PbrMaterial)
        ensures
            material == (PbrMaterial { color_map, ..self }),
    {
        PbrMaterial { color_map, ..self }
    }

    pub fn set_debug_cube_map(self, debug_cube_map: Option<Handle>) -> (material: PbrMaterial)
        ensures
            material == (PbrMaterial { debug_cube_map, ..self }),
    {
        PbrMaterial { debug_cube_map, ..self }
    }

    pub fn boxed(self) -> (material: Box<PbrMaterial>)
        ensures
            *material == self,
    {
        Box::new(self)
    }

    /// The tag: the kind of material, then one suffix for each texture
    /// slot that is filled.
    pub open spec fn tag(self) -> Seq<char> {
        "pbr"@ + (if self.color_map is Some {
            ":color_map"@
        } else {
            Seq::empty()
        }) + (if self.debug_cube_map is Some {
            ":debug_cube_map"@
        } else {
            Seq::empty()
        })
    }

    /// The preprocessor symbols: one for each texture slot that is filled.
    pub open spec fn defines(self) -> Seq<Seq<char>> {
        (if self.color_map is Some {
            seq!["USE_COLOR_MAP"@]
        } else {
            Seq::empty()
        }) + (if self.debug_cube_map is Some {
            seq!["USE_DEBUG_CUBE_MAP"@]
        } else {
            Seq::empty()
        })
    }

    /// The uniforms: colour and texture repeat of the material, the four
    /// matrices, and then each filled texture slot on the unit that is the
    /// slot's number, whether or not the slots before it are filled.
    pub open spec fn uniforms(self) -> Seq<UniformBinding> {
        seq![
            UniformBinding { uniform: Uniform::Color, source: UniformSource::Material },
            UniformBinding { uniform: Uniform::UvRepeating, source: UniformSource::Material },
            UniformBinding { uniform: Uniform::ProjectionMatrix, source: UniformSource::CameraProjection },
            UniformBinding { uniform: Uniform::ViewMatrix, source: UniformSource::CameraView },
            UniformBinding { uniform: Uniform::ModelMatrix, source: UniformSource::NodeWorld },
            UniformBinding { uniform: Uniform::NormalMatrix, source: UniformSource::NodeNormal },
        ] + (match self.color_map {
            Some(texture) => seq![
                UniformBinding {
                    uniform: Uniform::ColorMap,
                    source: UniformSource::Texture { texture, kind: TextureKind::Texture2d, unit: 0 },
                },
            ],
            None => Seq::empty(),
        }) + (match self.debug_cube_map {
            Some(texture) => seq![
                UniformBinding {
                    uniform: Uniform::DebugCubeMap,
                    source: UniformSource::Texture { texture, kind: TextureKind::CubeMap, unit: 1 },
                },
            ],
            None => Seq::empty(),
        })
    }
}

impl Material for PbrMaterial {
    open spec fn model(&self) -> MaterialModel {
        MaterialModel {
            tag: self.tag(),
            recipe: ShaderRecipeView {
                vertex: "pbr_vert.glsl"@,
                fragment: "pbr_frag.glsl"@,
                defines: self.defines(),
            },
            uniforms: self.uniforms(),
            draw_mode: self.draw_mode,
            cull_face: self.cull_face,
            depth_test: self.depth_test,
        }
    }

    fn get_tag(&self) -> (tag: String) {
        let mut tag = String::from_str("pbr");
        if self.color_map.is_some() {
            tag.append(":color_map");
        }
        if self.debug_cube_map.is_some() {
            tag.append(":debug_cube_map");
        }
        tag
    }

    fn create_shader(&self) -> (recipe: ShaderRecipe) {
        let mut defines: Vec<String> = Vec::new();
        if self.color_map.is_some() {
            defines.push(String::from_str("USE_COLOR_MAP"));
        }
        if self.debug_cube_map.is_some() {
            defines.push(String::from_str("USE_DEBUG_CUBE_MAP"));
        }
        let recipe = ShaderRecipe {
            vertex: String::from_str("pbr_vert.glsl"),
            fragment: String::from_str("pbr_frag.glsl"),
            defines,
        };
        assert(recipe@.defines =~= self.defines());
        recipe
    }

    fn setup_shader(&self) -> (uniforms: Vec<UniformBinding>) {
        let mut uniforms: Vec<UniformBinding> = Vec::new();
        uniforms.push(UniformBinding { uniform: Uniform::Color, source: UniformSource::Material });
        uniforms.push(
            UniformBinding { uniform: Uniform::UvRepeating, source: UniformSource::Material },
        );
        uniforms.push(
            UniformBinding { uniform: Uniform::ProjectionMatrix, source: UniformSource::CameraProjection },
        );
        uniforms.push(UniformBinding { uniform: Uniform::ViewMatrix, source: UniformSource::CameraView });
        uniforms.push(UniformBinding { uniform: Uniform::ModelMatrix, source: UniformSource::NodeWorld });
        uniforms.push(
            UniformBinding { uniform: Uniform::NormalMatrix, source: UniformSource::NodeNormal },
        );
        if let Some(texture) = self.color_map {
            uniforms.push(
                UniformBinding {
                    uniform: Uniform::ColorMap,
                    source: UniformSource::Texture { texture, kind: TextureKind::Texture2d, unit: 0 },
                },
            );
        }
        if let Some(texture) = self.debug_cube_map {
            uniforms.push(
                UniformBinding {
                    uniform: Uniform::DebugCubeMap,
                    source: UniformSource::Texture { texture, kind: TextureKind::CubeMap, unit: 1 },
                },
            );
        }
        uniforms
    }

    fn draw_mode(&self) -> (mode: DrawMode) {
        self.draw_mode
    }

    fn cull_face(&self) -> (enabled: bool) {
        self.cull_face
    }

    fn depth_test(&self) -> (enabled: bool) {
        self.depth_test
    }
}

/// The tag of a physically based material tells its shader. Two such
/// materials have the same tag exactly if they fill the same texture
/// slots, and that is exactly when they are built from the same recipe.
pub proof fn lemma_tag_tells_recipe(a: PbrMaterial, b: PbrMaterial)
    ensures
        a.model().tag == b.model().tag <==> (a.color_map is Some <==> b.color_map is Some) && (
        a.debug_cube_map is Some <==> b.debug_cube_map is Some),
        a.model().tag == b.model().tag <==> a.model().recipe == b.model().recipe,
{
    reveal_strlit("pbr");
    reveal_strlit(":color_map");
    reveal_strlit(":debug_cube_map");
    reveal_strlit("USE_COLOR_MAP");
    reveal_strlit("USE_DEBUG_CUBE_MAP");
    let same = (a.color_map is Some <==> b.color_map is Some) && (a.debug_cube_map is Some
        <==> b.debug_cube_map is Some);
    if !same {
        if a.defines().len() == b.defines().len() {
            assert(a.defines()[0].len() != b.defines()[0].len());
        }
    }
}

} // verus!
