use crate::material::{Material, ShaderRecipe};
use vstd::prelude::*;

verus! {

/// The component type of the data that an accessor describes.
#[derive(Clone, Copy, Debug, PartialEq, Eq, Structural)]
pub enum TypedArrayKind {
    Int8,
    Uint8,
    Int16,
    Uint16,
    Uint32,
    Float32,
}

/// How one vertex attribute is laid out in its buffer.
#[derive(Clone, Copy, Debug, PartialEq, Eq)]
pub struct AttributeOptions {
    pub component_type: TypedArrayKind,
    /// The number of components of one item.
    pub item_size: i32,
    pub normalized: bool,
    /// The distance in bytes from one item to the next; zero for items that
    /// lie side by side.
    pub stride: i32,
    /// The byte at which the first item starts.
    pub offset: i32,
}

/// The meaning of a vertex attribute.
#[derive(Clone, Debug, PartialEq, Eq, Hash)]
pub enum AttributeName {
    Position,
    Normal,
    Uv,
    /// Any other meaning, under the name that the asset gives it.
    Unknown(String),
}

/// An attribute name as contracts speak of it.
pub enum AttributeKey {
    Position,
    Normal,
    Uv,
    Unknown(Seq<char>),
}

impl View for AttributeName {
    type V = AttributeKey;

    open spec fn view(&self) -> AttributeKey {
        match self {
            AttributeName::Position => AttributeKey::Position,
            AttributeName::Normal => AttributeKey::Normal,
            AttributeName::Uv => AttributeKey::Uv,
            AttributeName::Unknown(name) => AttributeKey::Unknown(name@),
        }
    }
}

impl AttributeName {
    /// Whether two names mean the same attribute.
    pub fn same(&self, other: &AttributeName) -> (equal: bool)
        ensures
            equal == (self@ == other@),
    {
        match self {
            AttributeName::Position => matches!(other, AttributeName::Position),
            AttributeName::Normal => matches!(other, AttributeName::Normal),
            AttributeName::Uv => matches!(other, AttributeName::Uv),
            AttributeName::Unknown(a) => match other {
                AttributeName::Unknown(b) => *a == *b,
                _ => false,
            },
        }
    }

    /// A copy of the name.
    pub fn duplicate(&self) -> (copy: AttributeName)
        ensures
            copy@ == self@,
    {
        match self {
            AttributeName::Position => AttributeName::Position,
            AttributeName::Normal => AttributeName::Normal,
            AttributeName::Uv => AttributeName::Uv,
            AttributeName::Unknown(name) => AttributeName::Unknown(name.clone()),
        }
    }
}

/// The names in a list of attribute names.
pub open spec fn keys(names: Seq<AttributeName>) -> Seq<AttributeKey> {
    names.map_values(|n: AttributeName| n@)
}

/// A shader program that the cache holds: the tag it was built for and the
/// attribute slots that the program declares, in the order of their
/// locations.
#[derive(Clone, Debug, PartialEq, Eq)]
pub struct Shader {
    pub tag: String,
    pub attributes: Vec<AttributeName>,
}

/// A cached shader as contracts speak of it.
pub struct ShaderView {
    pub tag: Seq<char>,
    pub attributes: Seq<AttributeKey>,
}

impl View for Shader {
    type V = ShaderView;

    open spec fn view(&self) -> ShaderView {
        ShaderView { tag: self.tag@, attributes: keys(self.attributes@) }
    }
}

/// The place of the shader for `tag` among `shaders`, if there is one.
pub open spec fn position(shaders: Seq<ShaderView>, tag: Seq<char>) -> Option<int> {
    if exists|i: int| 0 <= i < shaders.len() && #[trigger] shaders[i].tag == tag {
        Some(choose|i: int| 0 <= i < shaders.len() && #[trigger] shaders[i].tag == tag)
    } else {
        None
    }
}

/// The cache after a shader for `tag` was asked for: as before where it
/// holds one, else with a new entry at the end that declares no attribute
/// slots yet.
pub open spec fn ensured(shaders: Seq<ShaderView>, tag: Seq<char>) -> Seq<ShaderView> {
    if position(shaders, tag) is Some {
        shaders
    } else {
        shaders.push(ShaderView { tag, attributes: Seq::empty() })
    }
}

/// No tag occurs twice.
pub open spec fn distinct_tags(shaders: Seq<ShaderView>) -> bool {
    forall|i: int, j: int|
        0 <= i < j < shaders.len() ==> (#[trigger] shaders[i]).tag != (#[trigger] shaders[j]).tag
}

/// Asking twice builds once. After a shader was asked for under a tag, the
/// cache holds it, at the place that the first request was answered with;
/// a second request under the same tag changes nothing and asks for no
/// build. Entries are never dropped or moved.
pub proof fn lemma_ensure_idempotent(shaders: Seq<ShaderView>, tag: Seq<char>)
    requires
        distinct_tags(shaders),
    ensures
        distinct_tags(ensured(shaders, tag)),
        position(ensured(shaders, tag), tag) is Some,
        position(shaders, tag) is None ==> position(ensured(shaders, tag), tag) == Some(
            shaders.len() as int,
        ),
        position(shaders, tag) is Some ==> position(ensured(shaders, tag), tag) == position(
            shaders,
            tag,
        ),
        ensured(ensured(shaders, tag), tag) == ensured(shaders, tag),
        forall|i: int| 0 <= i < shaders.len() ==> ensured(shaders, tag)[i] == shaders[i],
{
    let after = ensured(shaders, tag);
    if position(shaders, tag) is None {
        assert(after[shaders.len() as int].tag == tag);
    }
}

/// The compiled shader programs, one for each tag that a material asked
/// for. Shaders are built on first use and kept for the life of the cache;
/// the number that `ensure` returns names a shader for good.
pub struct ShaderCache {
    shaders: Vec<Shader>,
}

impl View for ShaderCache {
    type V = Seq<ShaderView>;

    closed spec fn view(&self) -> Seq<ShaderView> {
        self.shaders@.map_values(|s: Shader| s@)
    }
}

impl ShaderCache {
    /// No tag occurs twice.
    pub open spec fn wf(&self) -> bool {
        distinct_tags(self@)
    }

    /// An empty cache.
    pub fn new() -> (cache: ShaderCache)
        ensures
            cache.wf(),
            cache@.len() == 0,
    {
        ShaderCache { shaders: Vec::new() }
    }

    /// The place of the shader for `tag`.
    pub fn find(&self, tag: &String) -> (found: Option<usize>)
        requires
            self.wf(),
        ensures
            match found {
                Some(at) => position(self@, tag@) == Some(at as int),
                None => position(self@, tag@) is None,
            },
    {
        let mut i: usize = 0;
        while i < self.shaders.len()
            invariant
                self.wf(),
                i <= self.shaders.len(),
                forall|j: int| 0 <= j < i ==> (#[trigger] self@[j]).tag != tag@,
            decreases self.shaders.len() - i,
        {
            if self.shaders[i].tag == *tag {
                assert(self@[i as int].tag == tag@);
                return Some(i);
            }
            i += 1;
        }
        None
    }

    /// The shader for the tag of `material`. Where the cache holds none, an
    /// entry is made for it and the recipe is handed out, so that the
    /// program can be built; where it holds one, nothing changes and
    /// nothing is to be built.
    pub fn ensure<M: Material>(&mut self, material: &M) -> (result: (usize, Option<ShaderRecipe>))
        requires
            old(self).wf(),
        ensures
            final(self).wf(),
            final(self)@ == ensured(old(self)@, material.model().tag),
            position(final(self)@, material.model().tag) == Some(result.0 as int),
            match result.1 {
                Some(recipe) => {
                    &&& position(old(self)@, material.model().tag) is None
                    &&& recipe@ == material.model().recipe
                },
                None => position(old(self)@, material.model().tag) is Some,
            },
    {
        let tag = material.get_tag();
        proof {
            lemma_ensure_idempotent(self@, tag@);
        }
        match self.find(&tag) {
            Some(at) => (at, None),
            None => {
                let at = self.shaders.len();
                let fresh = Shader { tag, attributes: Vec::new() };
                assert(fresh@.attributes =~= Seq::empty());
                self.shaders.push(fresh);
                assert(self@ =~= ensured(old(self)@, material.model().tag));
                (at, Some(material.create_shader()))
            },
        }
    }

    /// Records the attribute slots that the built program declares. A
    /// number that names no shader changes nothing.
    pub fn set_attributes(&mut self, shader: usize, attributes: Vec<AttributeName>) -> (known: bool)
        requires
            old(self).wf(),
        ensures
            final(self).wf(),
            known == (shader < old(self)@.len()),
            known ==> final(self)@ == old(self)@.update(
                shader as int,
                ShaderView { tag: old(self)@[shader as int].tag, attributes: keys(attributes@) },
            ),
            !known ==> final(self)@ == old(self)@,
    {
        if shader >= self.shaders.len() {
            return false;
        }
        self.shaders[shader].attributes = attributes;
        assert(self@ =~= old(self)@.update(
            shader as int,
            ShaderView { tag: old(self)@[shader as int].tag, attributes: keys(attributes@) },
        ));
        true
    }

    /// The shader with the given number.
    pub fn get(&self, shader: usize) -> (found: Option<&Shader>)
        ensures
            match found {
                Some(s) => shader < self@.len() && s@ == self@[shader as int],
                None => shader >= self@.len(),
            },
    {
        if shader < self.shaders.len() {
            Some(&self.shaders[shader])
        } else {
            None
        }
    }

    /// The number of shaders.
    pub fn len(&self) -> (len: usize)
        ensures
            len == self@.len(),
    {
        self.shaders.len()
    }
}

} // verus!
