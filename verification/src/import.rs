use crate::arena::Registry;
use crate::handle::Handle;
use crate::material::Material;
use crate::renderer::{
    with_attribute, Accessor, BufferTarget, BufferUsage, BufferView, Geometry, GeometryView, Mesh,
    MeshView, Primitive, Renderer,
};
use crate::shader::{AttributeKey, AttributeName, AttributeOptions, TypedArrayKind};
use std::collections::HashMap;
use vstd::prelude::*;
use vstd::string::StringExecFns;

verus! {

/// A region of the binary payload of an asset.
#[derive(Clone, Copy, Debug, PartialEq, Eq)]
pub struct ViewDef {
    /// The number of the view in the asset.
    pub index: usize,
    /// The byte of the payload at which the region starts.
    pub offset: usize,
    /// The length of the region in bytes.
    pub length: usize,
    /// The distance in bytes between items, where the asset gives one.
    pub stride: Option<usize>,
}

/// An accessor as an asset defines it.
#[derive(Clone, Copy, Debug, PartialEq, Eq)]
pub struct AccessorDef {
    /// Whether the accessor carries a sparse descriptor.
    pub sparse: bool,
    /// The region that the accessor reads, if it reads one.
    pub view: Option<ViewDef>,
    pub data_type: TypedArrayKind,
    /// The number of components of one item.
    pub multiplicity: usize,
    pub normalized: bool,
    /// The byte of the region at which the first item starts.
    pub offset: usize,
    /// The number of items.
    pub count: usize,
}

/// One attribute of a primitive as an asset defines it: the name of its
/// meaning in the asset's vocabulary, and the number of its accessor.
#[derive(Clone, Debug, PartialEq, Eq)]
pub struct AttributeDef {
    pub label: String,
    pub accessor: usize,
}

impl View for AttributeDef {
    type V = (Seq<char>, usize);

    open spec fn view(&self) -> (Seq<char>, usize) {
        (self.label@, self.accessor)
    }
}

/// The attributes in a list of attribute definitions.
pub open spec fn attribute_views(attributes: Seq<AttributeDef>) -> Seq<(Seq<char>, usize)> {
    attributes.map_values(|a: AttributeDef| a@)
}

/// Why an asset was not imported.
#[derive(Clone, Copy, Debug, PartialEq, Eq, Structural)]
pub enum ImportError {
    /// The bytes are no asset, or the asset does not pass validation.
    Malformed,
    /// An accessor carries a sparse descriptor.
    Unsupported,
    /// An accessor reads a region, and the asset has no binary payload.
    MissingBlob,
    /// A region ends beyond the binary payload.
    ViewOutOfBounds,
    /// A count, offset or stride does not fit the graphics interface.
    ValueTooLarge,
    /// A primitive names an accessor that was not imported.
    MissingAccessor,
}

/// What keeps an accessor from being imported, if anything.
pub open spec fn def_problem(def: AccessorDef, blob: Option<Seq<u8>>) -> Option<ImportError> {
    if def.sparse {
        Some(ImportError::Unsupported)
    } else if def.view is Some && blob is None {
        Some(ImportError::MissingBlob)
    } else if def.view is Some && def.view->0.offset + def.view->0.length > blob->0.len() {
        Some(ImportError::ViewOutOfBounds)
    } else if def.count > i32::MAX || def.offset > i32::MAX || def.multiplicity > i32::MAX || (
    def.view is Some && def.view->0.stride is Some && def.view->0.stride->0 > i32::MAX) {
        Some(ImportError::ValueTooLarge)
    } else {
        None
    }
}

/// The problem of the first accessor from position `from` on that has one.
pub open spec fn first_problem(defs: Seq<AccessorDef>, blob: Option<Seq<u8>>, from: int) -> Option<
    ImportError,
>
    decreases defs.len() - from,
{
    if from < 0 || from >= defs.len() {
        None
    } else {
        match def_problem(defs[from], blob) {
            Some(e) => Some(e),
            None => first_problem(defs, blob, from + 1),
        }
    }
}

/// The position of the first accessor from `from` on that reads the view
/// with number `view`; the number of accessors where there is none.
pub open spec fn first_with_view(defs: Seq<AccessorDef>, view: usize, from: int) -> int
    decreases defs.len() - from,
{
    if from < 0 || from >= defs.len() {
        defs.len() as int
    } else if defs[from].view is Some && defs[from].view->0.index == view {
        from
    } else {
        first_with_view(defs, view, from + 1)
    }
}

/// The buffer that is made for a view. The first accessor that reads the
/// view decides: the buffer holds the region that it names, and is bound
/// for indices exactly if some primitive takes its indices from that
/// accessor.
pub open spec fn buffer_for(
    defs: Seq<AccessorDef>,
    blob: Seq<u8>,
    index_sources: Seq<usize>,
    view: usize,
) -> BufferView {
    let first = first_with_view(defs, view, 0);
    let region = defs[first].view->0;
    BufferView {
        target: if index_sources.contains(first as usize) {
            BufferTarget::ElementArrayBuffer
        } else {
            BufferTarget::ArrayBuffer
        },
        usage: BufferUsage::StaticDraw,
        data: blob.subrange(region.offset as int, region.offset + region.length),
    }
}

/// The layout that an accessor definition asks for. An accessor that
/// reads no view stands for three tightly packed floats.
pub open spec fn options_for(def: AccessorDef) -> AttributeOptions {
    match def.view {
        Some(region) => AttributeOptions {
            component_type: def.data_type,
            item_size: def.multiplicity as i32,
            normalized: def.normalized,
            stride: match region.stride {
                Some(stride) => stride as i32,
                None => 0,
            },
            offset: def.offset as i32,
        },
        None => AttributeOptions {
            component_type: TypedArrayKind::Float32,
            item_size: 3,
            normalized: false,
            stride: 0,
            offset: 0,
        },
    }
}

/// Accessor `i` of the asset stands in the renderer under `handle`: with
/// the count and layout that the asset gives it, over the buffer of its
/// view. An accessor without view points at the handle of zeros.
pub open spec fn accessor_imported<M: Material, C>(
    before: Renderer<M, C>,
    after: Renderer<M, C>,
    defs: Seq<AccessorDef>,
    blob: Option<Seq<u8>>,
    index_sources: Seq<usize>,
    i: int,
    handle: Handle,
) -> bool {
    let stored = after.accessors@[handle];
    &&& !before.accessors@.contains_key(handle)
    &&& after.accessors@.contains_key(handle)
    &&& stored.count == defs[i].count
    &&& stored.options == options_for(defs[i])
    &&& match defs[i].view {
        None => stored.buffer == (Handle { index: 0, generation: 0 }),
        Some(region) => {
            &&& !before.buffers@.contains_key(stored.buffer)
            &&& after.buffers@.contains_key(stored.buffer)
            &&& after.buffers@[stored.buffer]@ == buffer_for(
                defs,
                blob->0,
                index_sources,
                region.index,
            )
        },
    }
}

/// The first `n` accessors of the asset stand in the renderer under
/// `handles`, and nothing else has changed: two accessors share a buffer
/// exactly if they read the same view, every new buffer belongs to one of
/// them, and what the renderer held before is as it was.
pub open spec fn accessors_imported<M: Material, C>(
    before: Renderer<M, C>,
    after: Renderer<M, C>,
    defs: Seq<AccessorDef>,
    blob: Option<Seq<u8>>,
    index_sources: Seq<usize>,
    handles: Seq<Handle>,
    n: int,
) -> bool {
    &&& after == (Renderer { buffers: after.buffers, accessors: after.accessors, ..before })
    &&& handles.len() == n
    &&& handles.no_duplicates()
    &&& forall|i: int|
        0 <= i < n ==> accessor_imported(
            before,
            after,
            defs,
            blob,
            index_sources,
            i,
            #[trigger] handles[i],
        )
    &&& forall|i: int, j: int|
        0 <= i < n && 0 <= j < n && defs[i].view is Some && defs[j].view is Some ==> ((
        #[trigger] after.accessors@[handles[i]]).buffer == (
        #[trigger] after.accessors@[handles[j]]).buffer <==> defs[i].view->0.index
            == defs[j].view->0.index)
    &&& forall|h: Handle| #[trigger]
        before.accessors@.contains_key(h) ==> after.accessors@.contains_key(h)
            && after.accessors@[h] == before.accessors@[h]
    &&& forall|h: Handle| #[trigger]
        after.accessors@.contains_key(h) ==> before.accessors@.contains_key(h) || handles.contains(
            h,
        )
    &&& forall|h: Handle| #[trigger]
        before.buffers@.contains_key(h) ==> after.buffers@.contains_key(h) && after.buffers@[h]
            == before.buffers@[h]
    &&& forall|h: Handle| #[trigger]
        after.buffers@.contains_key(h) ==> before.buffers@.contains_key(h) || exists|i: int|
            0 <= i < n && defs[i].view is Some && (#[trigger] after.accessors@[handles[i]]).buffer
                == h
}

proof fn lemma_first_with_view(defs: Seq<AccessorDef>, view: usize, from: int, at: int)
    requires
        0 <= from <= at < defs.len(),
        defs[at].view is Some,
        defs[at].view->0.index == view,
    ensures
        from <= first_with_view(defs, view, from) <= at,
        defs[first_with_view(defs, view, from)].view is Some,
        defs[first_with_view(defs, view, from)].view->0.index == view,
    decreases at - from,
{
    if !(defs[from].view is Some && defs[from].view->0.index == view) {
        lemma_first_with_view(defs, view, from + 1, at);
    }
}

proof fn lemma_first_with_view_bounds(defs: Seq<AccessorDef>, view: usize, from: int)
    requires
        0 <= from <= defs.len(),
    ensures
        from <= first_with_view(defs, view, from) <= defs.len(),
        first_with_view(defs, view, from) < defs.len() ==> {
            &&& defs[first_with_view(defs, view, from)].view is Some
            &&& defs[first_with_view(defs, view, from)].view->0.index == view
        },
    decreases defs.len() - from,
{
    if from < defs.len() && !(defs[from].view is Some && defs[from].view->0.index == view) {
        lemma_first_with_view_bounds(defs, view, from + 1);
    }
}

fn check_def(def: &AccessorDef, blob: &Option<Vec<u8>>) -> (problem: Option<ImportError>)
    ensures
        problem == def_problem(
            *def,
            match blob {
                Some(data) => Some(data@),
                None => None,
            },
        ),
{
    if def.sparse {
        return Some(ImportError::Unsupported);
    }
    let limit: usize = 0x7fff_ffff;
    if let Some(region) = def.view {
        match blob {
            None => {
                return Some(ImportError::MissingBlob);
            },
            Some(data) => {
                if region.offset > data.len() || region.length > data.len() - region.offset {
                    return Some(ImportError::ViewOutOfBounds);
                }
            },
        }
        if let Some(stride) = region.stride {
            if stride > limit {
                return Some(ImportError::ValueTooLarge);
            }
        }
    }
    if def.count > limit || def.offset > limit || def.multiplicity > limit {
        return Some(ImportError::ValueTooLarge);
    }
    None
}

fn copy_region(data: &Vec<u8>, offset: usize, length: usize) -> (region: Vec<u8>)
    requires
        offset + length <= data.len(),
    ensures
        region@ == data@.subrange(offset as int, offset + length),
{
    let mut region: Vec<u8> = Vec::new();
    let mut i: usize = 0;
    while i < length
        invariant
            i <= length,
            offset + length <= data.len(),
            region@ == data@.subrange(offset as int, offset + i),
        decreases length - i,
    {
        region.push(data[offset + i]);
        i += 1;
    }
    region
}

fn contains_index(indices: &Vec<usize>, index: usize) -> (found: bool)
    ensures
        found == indices@.contains(index),
{
    let mut i: usize = 0;
    while i < indices.len()
        invariant
            i <= indices.len(),
            forall|j: int| 0 <= j < i ==> indices@[j] != index,
        decreases indices.len() - i,
    {
        if indices[i] == index {
            return true;
        }
        i += 1;
    }
    false
}

/// The payload in an optional vector.
pub open spec fn payload(blob: Option<Vec<u8>>) -> Option<Seq<u8>> {
    match blob {
        Some(data) => Some(data@),
        None => None,
    }
}

/// The problem of the first accessor definition that cannot be honoured.
pub fn find_problem(defs: &Vec<AccessorDef>, blob: &Option<Vec<u8>>) -> (problem: Option<ImportError>)
    ensures
        problem == first_problem(defs@, payload(*blob), 0),
        problem is None ==> forall|j: int|
            0 <= j < defs@.len() ==> def_problem(#[trigger] defs@[j], payload(*blob)) is None,
{
    let mut at: usize = 0;
    while at < defs.len()
        invariant
            at <= defs.len(),
            first_problem(defs@, payload(*blob), at as int) == first_problem(
                defs@,
                payload(*blob),
                0,
            ),
            forall|j: int| 0 <= j < at ==> def_problem(#[trigger] defs@[j], payload(*blob)) is None,
        decreases defs.len() - at,
    {
        if let Some(e) = check_def(&defs[at], blob) {
            return Some(e);
        }
        at += 1;
    }
    None
}

/// Brings the accessors of an asset into the renderer: one accessor for
/// each definition, in order, and one buffer for each view that they
/// read, however many of them read it. `index_sources` lists the accessors
/// that primitives take their indices from.
///
/// Nothing is imported where a definition cannot be honoured: the error is
/// that of the first such definition, and the renderer stays as it was.
pub fn import_accessors<M: Material, C>(
    defs: &Vec<AccessorDef>,
    blob: &Option<Vec<u8>>,
    index_sources: &Vec<usize>,
    renderer: &mut Renderer<M, C>,
) -> (result: Result<Vec<Handle>, ImportError>)
    requires
        old(renderer).wf(),
    ensures
        final(renderer).wf(),
        match result {
            Ok(handles) => {
                &&& first_problem(defs@, payload(*blob), 0) is None
                &&& accessors_imported(
                    *old(renderer),
                    *final(renderer),
                    defs@,
                    payload(*blob),
                    index_sources@,
                    handles@,
                    defs@.len() as int,
                )
            },
            Err(e) => first_problem(defs@, payload(*blob), 0) == Some(e) && *final(renderer) == *old(
                renderer,
            ),
        },
{
    if let Some(e) = find_problem(defs, blob) {
        return Err(e);
    }
    let ghost before = *renderer;
    let ghost data = payload(*blob);
    let mut handles: Vec<Handle> = Vec::new();
    let mut seen: HashMap<usize, Handle> = HashMap::new();
    proof {
        assert forall|x: usize| !(first_with_view(defs@, x, 0) < 0) by {
            lemma_first_with_view_bounds(defs@, x, 0);
        }
    }
    let mut i: usize = 0;
    while i < defs.len()
        invariant
            i <= defs.len(),
            renderer.wf(),
            before == *old(renderer),
            data == payload(*blob),
            forall|j: int| 0 <= j < defs.len() ==> def_problem(#[trigger] defs@[j], data) is None,
            accessors_imported(before, *renderer, defs@, data, index_sources@, handles@, i as int),
            forall|x: usize| #[trigger]
                seen@.contains_key(x) <==> first_with_view(defs@, x, 0) < i,
            forall|j: int|
                0 <= j < i && defs@[j].view is Some ==> seen@[defs@[j].view->0.index] == (
                #[trigger] renderer.accessors@[handles@[j]]).buffer,
        decreases defs.len() - i,
    {
        broadcast use vstd::std_specs::hash::group_hash_axioms;

        let def = defs[i];
        let ghost mid = *renderer;
        let buffer = match def.view {
            None => Handle::from_raw_parts(0, 0),
            Some(region) => {
                proof {
                    lemma_first_with_view(defs@, region.index, 0, i as int);
                }
                match seen.get(&region.index) {
                    Some(known) => *known,
                    None => {
                        let target = if contains_index(index_sources, i) {
                            BufferTarget::ElementArrayBuffer
                        } else {
                            BufferTarget::ArrayBuffer
                        };
                        let bytes = match blob {
                            Some(all) => copy_region(all, region.offset, region.length),
                            None => Vec::new(),
                        };
                        let made = renderer.insert_buffer(target, BufferUsage::StaticDraw, bytes);
                        seen.insert(region.index, made);
                        made
                    },
                }
            },
        };
        let options = match def.view {
            Some(region) => AttributeOptions {
                component_type: def.data_type,
                item_size: def.multiplicity as i32,
                normalized: def.normalized,
                stride: match region.stride {
                    Some(stride) => stride as i32,
                    None => 0,
                },
                offset: def.offset as i32,
            },
            None => AttributeOptions {
                component_type: TypedArrayKind::Float32,
                item_size: 3,
                normalized: false,
                stride: 0,
                offset: 0,
            },
        };
        let handle = renderer.insert_accessor(Accessor { buffer, count: def.count as i32, options });
        let ghost earlier = handles@;
        handles.push(handle);
        proof {
            let after = *renderer;
            let n = i as int;
            assert forall|x: usize| #[trigger]
                seen@.contains_key(x) <==> first_with_view(defs@, x, 0) < n + 1 by {
                lemma_first_with_view_bounds(defs@, x, 0);
                if def.view is Some && def.view->0.index == x {
                    lemma_first_with_view(defs@, x, 0, n);
                }
            }
            assert forall|j: int|
                0 <= j < n + 1 && defs@[j].view is Some implies seen@[defs@[j].view->0.index] == (
            #[trigger] after.accessors@[handles@[j]]).buffer by {
                if j < n {
                    lemma_first_with_view(defs@, defs@[j].view->0.index, 0, j);
                }
            }
            assert forall|j: int| 0 <= j < n + 1 implies accessor_imported(
                before,
                after,
                defs@,
                data,
                index_sources@,
                j,
                #[trigger] handles@[j],
            ) by {
                if j >= n && def.view is Some {
                    let region = def.view->0;
                    lemma_first_with_view(defs@, region.index, 0, n);
                    let first = first_with_view(defs@, region.index, 0);
                    if first < n {
                        assert(accessor_imported(
                            before,
                            mid,
                            defs@,
                            data,
                            index_sources@,
                            first,
                            earlier[first],
                        ));
                    }
                }
            }
            assert forall|a: int, b: int|
                0 <= a < n + 1 && 0 <= b < n + 1 && defs@[a].view is Some
                    && defs@[b].view is Some implies ((
            #[trigger] after.accessors@[handles@[a]]).buffer == (
            #[trigger] after.accessors@[handles@[b]]).buffer <==> defs@[a].view->0.index
                == defs@[b].view->0.index) by {
                let xa = defs@[a].view->0.index;
                let xb = defs@[b].view->0.index;
                lemma_first_with_view(defs@, xa, 0, a);
                lemma_first_with_view(defs@, xb, 0, b);
                if !(a < n && b < n) && xa != xb {
                    let old_one = if a < n { a } else { b };
                    if old_one < n {
                        let xo = defs@[old_one].view->0.index;
                        let xn = def.view->0.index;
                        if first_with_view(defs@, xn, 0) < n {
                            let f = first_with_view(defs@, xn, 0);
                            assert(mid.accessors@[earlier[f]].buffer
                                == mid.accessors@[earlier[old_one]].buffer <==> xn == xo);
                        }
                    }
                }
            }
            assert forall|h: Handle| #[trigger] after.buffers@.contains_key(h) implies before.buffers@.contains_key(
                h,
            ) || exists|k: int|
                0 <= k < n + 1 && defs@[k].view is Some && (
                #[trigger] after.accessors@[handles@[k]]).buffer == h by {
                if mid.buffers@.contains_key(h) {
                    if !before.buffers@.contains_key(h) {
                        let k = choose|k: int|
                            0 <= k < n && defs@[k].view is Some && (
                            #[trigger] mid.accessors@[earlier[k]]).buffer == h;
                        assert(after.accessors@[handles@[k]].buffer == h);
                    }
                } else {
                    assert(after.accessors@[handles@[n]].buffer == h);
                }
            }
            assert forall|h: Handle| #[trigger] after.accessors@.contains_key(h) implies before.accessors@.contains_key(
                h,
            ) || handles@.contains(h) by {
                if h != handle && !before.accessors@.contains_key(h) {
                    let k = choose|k: int| 0 <= k < earlier.len() && earlier[k] == h;
                    assert(handles@[k] == h);
                }
            }
        }
        i += 1;
    }
    Ok(handles)
}

/// A primitive as an asset defines it.
#[derive(Debug)]
pub struct PrimitiveDef {
    pub attributes: Vec<AttributeDef>,
    /// The number of the accessor that holds the indices.
    pub indices: Option<usize>,
}

/// A primitive definition as contracts speak of it.
pub struct PrimitiveDefView {
    pub attributes: Seq<(Seq<char>, usize)>,
    pub indices: Option<usize>,
}

impl View for PrimitiveDef {
    type V = PrimitiveDefView;

    open spec fn view(&self) -> PrimitiveDefView {
        PrimitiveDefView { attributes: attribute_views(self.attributes@), indices: self.indices }
    }
}

/// A mesh as an asset defines it.
#[derive(Debug)]
pub struct MeshDef {
    pub primitives: Vec<PrimitiveDef>,
    pub name: Option<String>,
}

/// A mesh definition as contracts speak of it.
pub struct MeshDefView {
    pub primitives: Seq<PrimitiveDefView>,
    pub name: Option<Seq<char>>,
}

impl View for MeshDef {
    type V = MeshDefView;

    open spec fn view(&self) -> MeshDefView {
        MeshDefView {
            primitives: self.primitives@.map_values(|p: PrimitiveDef| p@),
            name: match self.name {
                Some(name) => Some(name@),
                None => None,
            },
        }
    }
}

/// The mesh definitions in a list.
pub open spec fn mesh_views(meshes: Seq<MeshDef>) -> Seq<MeshDefView> {
    meshes.map_values(|m: MeshDef| m@)
}

/// The index accessors of the first `upto` primitives of a mesh, in
/// order.
pub open spec fn mesh_index_sources(primitives: Seq<PrimitiveDefView>, upto: int) -> Seq<usize>
    decreases upto,
{
    if upto <= 0 {
        Seq::empty()
    } else {
        let before = mesh_index_sources(primitives, upto - 1);
        match primitives[upto - 1].indices {
            Some(index) => before.push(index),
            None => before,
        }
    }
}

/// The accessors that the primitives of the first `upto` meshes take
/// their indices from, mesh by mesh and primitive by primitive.
pub open spec fn index_sources_of(meshes: Seq<MeshDefView>, upto: int) -> Seq<usize>
    decreases upto,
{
    if upto <= 0 {
        Seq::empty()
    } else {
        index_sources_of(meshes, upto - 1) + mesh_index_sources(
            meshes[upto - 1].primitives,
            meshes[upto - 1].primitives.len() as int,
        )
    }
}

/// Lists the accessors that the primitives of `meshes` take their indices
/// from.
pub fn index_sources(meshes: &Vec<MeshDef>) -> (sources: Vec<usize>)
    ensures
        sources@ == index_sources_of(mesh_views(meshes@), meshes@.len() as int),
{
    let mut sources: Vec<usize> = Vec::new();
    let ghost views = mesh_views(meshes@);
    let mut m: usize = 0;
    while m < meshes.len()
        invariant
            m <= meshes.len(),
            views == mesh_views(meshes@),
            sources@ == index_sources_of(views, m as int),
        decreases meshes.len() - m,
    {
        let mesh = &meshes[m];
        let ghost done = sources@;
        let mut p: usize = 0;
        while p < mesh.primitives.len()
            invariant
                m < meshes.len(),
                p <= mesh.primitives.len(),
                views == mesh_views(meshes@),
                mesh@ == views[m as int],
                sources@ == done + mesh_index_sources(views[m as int].primitives, p as int),
            decreases mesh.primitives.len() - p,
        {
            if let Some(index) = mesh.primitives[p].indices {
                sources.push(index);
            }
            p += 1;
        }
        m += 1;
    }
    sources
}

/// The meaning of an attribute, from its name in the asset: position,
/// normal and the first set of texture coordinates are known, every other
/// name is kept as it is.
pub open spec fn attribute_key(label: Seq<char>) -> AttributeKey {
    if label == "POSITION"@ {
        AttributeKey::Position
    } else if label == "NORMAL"@ {
        AttributeKey::Normal
    } else if label == "TEXCOORD_0"@ {
        AttributeKey::Uv
    } else {
        AttributeKey::Unknown(label)
    }
}

/// The meaning of an attribute, from its name in the asset.
pub fn attribute_name(label: &String) -> (name: AttributeName)
    ensures
        name@ == attribute_key(label@),
{
    if *label == String::from_str("POSITION") {
        AttributeName::Position
    } else if *label == String::from_str("NORMAL") {
        AttributeName::Normal
    } else if *label == String::from_str("TEXCOORD_0") {
        AttributeName::Uv
    } else {
        AttributeName::Unknown(label.clone())
    }
}

/// Whether the accessor with number `index` was imported and is still
/// there.
pub open spec fn resolves(index: usize, handles: Seq<Handle>, accessors: Map<Handle, Accessor>) -> bool {
    index < handles.len() && accessors.contains_key(handles[index as int])
}

/// Whether every accessor that a primitive names resolves.
pub open spec fn primitive_resolves(
    def: PrimitiveDefView,
    handles: Seq<Handle>,
    accessors: Map<Handle, Accessor>,
) -> bool {
    &&& forall|k: int|
        0 <= k < def.attributes.len() ==> resolves(
            (#[trigger] def.attributes[k]).1,
            handles,
            accessors,
        )
    &&& def.indices matches Some(index) ==> resolves(index, handles, accessors)
}

/// The geometry made of the first `upto` attributes of a primitive: each
/// attribute under its meaning, a later one in place of an earlier one of
/// the same meaning, and the count of the accessor that came last.
pub open spec fn geometry_upto(
    attributes: Seq<(Seq<char>, usize)>,
    handles: Seq<Handle>,
    accessors: Map<Handle, Accessor>,
    upto: int,
) -> GeometryView
    decreases upto,
{
    if upto <= 0 {
        GeometryView { attributes: Seq::empty(), indices: None, count: 0 }
    } else {
        let before = geometry_upto(attributes, handles, accessors, upto - 1);
        let handle = handles[attributes[upto - 1].1 as int];
        GeometryView {
            attributes: with_attribute(
                before.attributes,
                attribute_key(attributes[upto - 1].0),
                handle,
                0,
            ),
            indices: None,
            count: accessors[handle].count,
        }
    }
}

/// The geometry of a primitive: its attributes, and, where it is indexed,
/// the index accessor, whose count then replaces that of the attributes.
pub open spec fn primitive_geometry(
    def: PrimitiveDefView,
    handles: Seq<Handle>,
    accessors: Map<Handle, Accessor>,
) -> GeometryView {
    let base = geometry_upto(def.attributes, handles, accessors, def.attributes.len() as int);
    match def.indices {
        Some(index) => GeometryView {
            indices: Some(handles[index as int]),
            count: accessors[handles[index as int]].count,
            ..base
        },
        None => base,
    }
}

/// Builds the geometry of a primitive over imported accessors, or nothing
/// where the primitive names an accessor that does not resolve.
pub fn build_geometry(def: &PrimitiveDef, handles: &Vec<Handle>, accessors: &Registry<Accessor>) -> (built:
    Option<Geometry>)
    requires
        accessors.wf(),
    ensures
        match built {
            Some(geometry) => {
                &&& primitive_resolves(def@, handles@, accessors@)
                &&& geometry@ == primitive_geometry(def@, handles@, accessors@)
            },
            None => !primitive_resolves(def@, handles@, accessors@),
        },
{
    let mut geometry = Geometry::new();
    let mut k: usize = 0;
    while k < def.attributes.len()
        invariant
            accessors.wf(),
            k <= def.attributes.len(),
            forall|j: int|
                0 <= j < k ==> resolves((#[trigger] def@.attributes[j]).1, handles@, accessors@),
            geometry@ == geometry_upto(def@.attributes, handles@, accessors@, k as int),
        decreases def.attributes.len() - k,
    {
        let attribute = &def.attributes[k];
        assert(def@.attributes[k as int] == attribute@);
        if attribute.accessor >= handles.len() {
            return None;
        }
        let handle = handles[attribute.accessor];
        let count = match accessors.get(handle) {
            Some(accessor) => accessor.count,
            None => {
                return None;
            },
        };
        geometry.set_attribute(attribute_name(&attribute.label), handle);
        geometry.count = count;
        k += 1;
    }
    if let Some(index) = def.indices {
        if index >= handles.len() {
            return None;
        }
        let handle = handles[index];
        match accessors.get(handle) {
            Some(accessor) => {
                geometry.indices = Some(handle);
                geometry.count = accessor.count;
            },
            None => {
                return None;
            },
        }
    }
    Some(geometry)
}

/// Whether every accessor that a primitive of `defs` names resolves.
pub open spec fn meshes_resolve(
    defs: Seq<MeshDefView>,
    handles: Seq<Handle>,
    accessors: Map<Handle, Accessor>,
) -> bool {
    forall|m: int, p: int|
        0 <= m < defs.len() && 0 <= p < defs[m].primitives.len() ==> primitive_resolves(
            #[trigger] defs[m].primitives[p],
            handles,
            accessors,
        )
}

/// `mesh` is the mesh that `def` defines: of the same name, with one
/// primitive for each primitive of the definition, in order, each with the
/// given material and a geometry of its own that the renderer did not hold
/// before.
pub open spec fn mesh_imported<M: Material, C>(
    before: Renderer<M, C>,
    after: Renderer<M, C>,
    def: MeshDefView,
    handles: Seq<Handle>,
    material: Option<Handle>,
    mesh: MeshView,
) -> bool {
    &&& mesh.name == def.name
    &&& mesh.primitives.len() == def.primitives.len()
    &&& forall|p: int|
        0 <= p < def.primitives.len() ==> primitive_imported(
            before,
            after,
            def.primitives[p],
            handles,
            material,
            #[trigger] mesh.primitives[p],
        )
}

/// `primitive` is the primitive that `def` defines.
pub open spec fn primitive_imported<M: Material, C>(
    before: Renderer<M, C>,
    after: Renderer<M, C>,
    def: PrimitiveDefView,
    handles: Seq<Handle>,
    material: Option<Handle>,
    primitive: Primitive,
) -> bool {
    &&& primitive.material == material
    &&& !before.geometries@.contains_key(primitive.geometry)
    &&& after.geometries@.contains_key(primitive.geometry)
    &&& after.geometries@[primitive.geometry]@ == primitive_geometry(
        def,
        handles,
        before.accessors@,
    )
}

/// Whether a primitive of `mesh` draws the geometry `h`.
pub open spec fn names_geometry(mesh: MeshView, h: Handle) -> bool {
    exists|p: int| 0 <= p < mesh.primitives.len() && (#[trigger] mesh.primitives[p]).geometry == h
}

/// The first `n` meshes of `defs` were imported as `meshes`, and nothing
/// else has changed: every new geometry belongs to one of their
/// primitives, no two primitives share one, and what the renderer held
/// before is as it was.
pub open spec fn meshes_imported<M: Material, C>(
    before: Renderer<M, C>,
    after: Renderer<M, C>,
    defs: Seq<MeshDefView>,
    handles: Seq<Handle>,
    material: Option<Handle>,
    meshes: Seq<Mesh>,
    n: int,
) -> bool {
    &&& after == (Renderer { geometries: after.geometries, ..before })
    &&& meshes.len() == n
    &&& forall|m: int|
        0 <= m < n ==> mesh_imported(
            before,
            after,
            defs[m],
            handles,
            material,
            (#[trigger] meshes[m])@,
        )
    &&& forall|h: Handle| #[trigger]
        before.geometries@.contains_key(h) ==> after.geometries@.contains_key(h)
            && after.geometries@[h] == before.geometries@[h]
    &&& forall|h: Handle| #[trigger]
        after.geometries@.contains_key(h) ==> before.geometries@.contains_key(h) || exists|m: int|
            0 <= m < n && names_geometry((#[trigger] meshes[m])@, h)
    &&& forall|m1: int, p1: int, m2: int, p2: int|
        0 <= m1 < n && 0 <= p1 < meshes[m1]@.primitives.len() && 0 <= m2 < n && 0 <= p2
            < meshes[m2]@.primitives.len() && (m1 != m2 || p1 != p2) ==> (
        #[trigger] meshes[m1]@.primitives[p1]).geometry != (
        #[trigger] meshes[m2]@.primitives[p2]).geometry
}

/// Brings meshes into being: for each definition one mesh, for each of
/// its primitives one geometry in the renderer, built over the imported
/// accessors `handles`, and one primitive that draws it with `material`.
/// The meshes are handed back; the caller stores those it wants.
///
/// Where a primitive names an accessor that does not resolve, nothing is
/// made and the renderer stays as it was.
pub fn import_meshes<M: Material, C>(
    defs: &Vec<MeshDef>,
    handles: &Vec<Handle>,
    renderer: &mut Renderer<M, C>,
    material: Option<Handle>,
) -> (result: Result<Vec<Mesh>, ImportError>)
    requires
        old(renderer).wf(),
    ensures
        final(renderer).wf(),
        match result {
            Ok(meshes) => {
                &&& meshes_resolve(mesh_views(defs@), handles@, old(renderer).accessors@)
                &&& meshes_imported(
                    *old(renderer),
                    *final(renderer),
                    mesh_views(defs@),
                    handles@,
                    material,
                    meshes@,
                    defs@.len() as int,
                )
            },
            Err(e) => {
                &&& e == ImportError::MissingAccessor
                &&& !meshes_resolve(mesh_views(defs@), handles@, old(renderer).accessors@)
                &&& *final(renderer) == *old(renderer)
            },
        },
{
    let ghost views = mesh_views(defs@);
    let mut m: usize = 0;
    while m < defs.len()
        invariant
            m <= defs.len(),
            renderer.wf(),
            *renderer == *old(renderer),
            views == mesh_views(defs@),
            forall|a: int, b: int|
                0 <= a < m && 0 <= b < views[a].primitives.len() ==> primitive_resolves(
                    #[trigger] views[a].primitives[b],
                    handles@,
                    renderer.accessors@,
                ),
        decreases defs.len() - m,
    {
        let def = &defs[m];
        let mut p: usize = 0;
        while p < def.primitives.len()
            invariant
                m < defs.len(),
                p <= def.primitives.len(),
                renderer.wf(),
                *renderer == *old(renderer),
                views == mesh_views(defs@),
                def@ == views[m as int],
                forall|b: int|
                    0 <= b < p ==> primitive_resolves(
                        #[trigger] views[m as int].primitives[b],
                        handles@,
                        renderer.accessors@,
                    ),
            decreases def.primitives.len() - p,
        {
            assert(def.primitives@[p as int]@ == views[m as int].primitives[p as int]);
            if build_geometry(&def.primitives[p], handles, &renderer.accessors).is_none() {
                return Err(ImportError::MissingAccessor);
            }
            p += 1;
        }
        m += 1;
    }
    let ghost before = *renderer;
    let mut meshes: Vec<Mesh> = Vec::new();
    let mut m: usize = 0;
    while m < defs.len()
        invariant
            m <= defs.len(),
            renderer.wf(),
            before == *old(renderer),
            views == mesh_views(defs@),
            meshes_resolve(views, handles@, before.accessors@),
            meshes_imported(before, *renderer, views, handles@, material, meshes@, m as int),
        decreases defs.len() - m,
    {
        let def = &defs[m];
        let ghost mid = *renderer;
        let mut primitives: Vec<Primitive> = Vec::new();
        let mut p: usize = 0;
        while p < def.primitives.len()
            invariant
                m < defs.len(),
                p <= def.primitives.len(),
                renderer.wf(),
                views == mesh_views(defs@),
                def@ == views[m as int],
                meshes_resolve(views, handles@, before.accessors@),
                *renderer == (Renderer { geometries: renderer.geometries, ..before }),
                primitives@.len() == p,
                forall|q: int|
                    0 <= q < p ==> primitive_imported(
                        before,
                        *renderer,
                        views[m as int].primitives[q],
                        handles@,
                        material,
                        #[trigger] primitives@[q],
                    ),
                forall|q: int|
                    0 <= q < p ==> !mid.geometries@.contains_key((#[trigger] primitives@[q]).geometry),
                forall|q1: int, q2: int|
                    0 <= q1 < p && 0 <= q2 < p && q1 != q2 ==> (#[trigger] primitives@[q1]).geometry
                        != (#[trigger] primitives@[q2]).geometry,
                forall|h: Handle| #[trigger]
                    before.geometries@.contains_key(h) ==> mid.geometries@.contains_key(h),
                forall|h: Handle| #[trigger]
                    mid.geometries@.contains_key(h) ==> renderer.geometries@.contains_key(h)
                        && renderer.geometries@[h] == mid.geometries@[h],
                forall|h: Handle| #[trigger]
                    renderer.geometries@.contains_key(h) ==> mid.geometries@.contains_key(h)
                        || exists|q: int| 0 <= q < p && (#[trigger] primitives@[q]).geometry == h,
            decreases def.primitives.len() - p,
        {
            let ghost earlier = primitives@;
            let ghost held = *renderer;
            match build_geometry(&def.primitives[p], handles, &renderer.accessors) {
                Some(geometry) => {
                    let handle = renderer.insert_geometry(geometry);
                    primitives.push(Primitive { geometry: handle, material });
                },
                None => {},
            }
            proof {
                assert forall|q: int| 0 <= q < p + 1 implies primitive_imported(
                    before,
                    *renderer,
                    views[m as int].primitives[q],
                    handles@,
                    material,
                    #[trigger] primitives@[q],
                ) by {}
                assert forall|h: Handle| #[trigger]
                    renderer.geometries@.contains_key(h) implies mid.geometries@.contains_key(h)
                    || exists|q: int| 0 <= q < p + 1 && (#[trigger] primitives@[q]).geometry == h by {
                    if held.geometries@.contains_key(h) {
                        if !mid.geometries@.contains_key(h) {
                            let q = choose|q: int| 0 <= q < p && (#[trigger] earlier[q]).geometry == h;
                            assert(primitives@[q].geometry == h);
                        }
                    } else {
                        assert(primitives@[p as int].geometry == h);
                    }
                }
            }
            p += 1;
        }
        let name = match &def.name {
            Some(name) => Some(name.clone()),
            None => None,
        };
        let mesh = Mesh { primitives, name };
        let ghost earlier = meshes@;
        meshes.push(mesh);
        proof {
            let after = *renderer;
            let n = m as int;
            let made = meshes@[n]@;
            assert forall|a: int| 0 <= a < n + 1 implies mesh_imported(
                before,
                after,
                views[a],
                handles@,
                material,
                (#[trigger] meshes@[a])@,
            ) by {}
            assert forall|h: Handle| #[trigger]
                after.geometries@.contains_key(h) implies before.geometries@.contains_key(h)
                || exists|a: int| 0 <= a < n + 1 && names_geometry((#[trigger] meshes@[a])@, h) by {
                if mid.geometries@.contains_key(h) {
                    if !before.geometries@.contains_key(h) {
                        let a = choose|a: int| 0 <= a < n && names_geometry((#[trigger] earlier[a])@, h);
                        assert(names_geometry(meshes@[a]@, h));
                    }
                }
            }
        }
        m += 1;
    }
    Ok(meshes)
}

/// Whether every accessor that a primitive names has a number below
/// `count`.
pub open spec fn primitive_in_range(def: PrimitiveDefView, count: int) -> bool {
    &&& forall|k: int| 0 <= k < def.attributes.len() ==> (#[trigger] def.attributes[k]).1 < count
    &&& def.indices matches Some(index) ==> index < count
}

/// Whether every accessor that a primitive of `defs` names has a number
/// below `count`.
pub open spec fn meshes_in_range(defs: Seq<MeshDefView>, count: int) -> bool {
    forall|m: int, p: int|
        0 <= m < defs.len() && 0 <= p < defs[m].primitives.len() ==> primitive_in_range(
            #[trigger] defs[m].primitives[p],
            count,
        )
}

fn check_primitive(def: &PrimitiveDef, count: usize) -> (ok: bool)
    ensures
        ok == primitive_in_range(def@, count as int),
{
    if let Some(index) = def.indices {
        if index >= count {
            return false;
        }
    }
    let mut k: usize = 0;
    while k < def.attributes.len()
        invariant
            k <= def.attributes.len(),
            forall|j: int| 0 <= j < k ==> (#[trigger] def@.attributes[j]).1 < count,
        decreases def.attributes.len() - k,
    {
        assert(def@.attributes[k as int] == def.attributes@[k as int]@);
        if def.attributes[k].accessor >= count {
            return false;
        }
        k += 1;
    }
    true
}

/// Whether every accessor that a primitive of `defs` names has a number
/// below `count`.
pub fn check_meshes(defs: &Vec<MeshDef>, count: usize) -> (ok: bool)
    ensures
        ok == meshes_in_range(mesh_views(defs@), count as int),
{
    let ghost views = mesh_views(defs@);
    let mut m: usize = 0;
    while m < defs.len()
        invariant
            m <= defs.len(),
            views == mesh_views(defs@),
            forall|a: int, b: int|
                0 <= a < m && 0 <= b < views[a].primitives.len() ==> primitive_in_range(
                    #[trigger] views[a].primitives[b],
                    count as int,
                ),
        decreases defs.len() - m,
    {
        let def = &defs[m];
        let mut p: usize = 0;
        while p < def.primitives.len()
            invariant
                m < defs.len(),
                p <= def.primitives.len(),
                views == mesh_views(defs@),
                def@ == views[m as int],
                forall|b: int|
                    0 <= b < p ==> primitive_in_range(
                        #[trigger] views[m as int].primitives[b],
                        count as int,
                    ),
            decreases def.primitives.len() - p,
        {
            assert(def.primitives@[p as int]@ == views[m as int].primitives[p as int]);
            if !check_primitive(&def.primitives[p], count) {
                return false;
            }
            p += 1;
        }
        m += 1;
    }
    true
}

/// Sparse accessors are rejected. A list of definitions with a sparse
/// accessor in it is never imported, and where no definition before the
/// sparse one has a problem of its own, the answer is `Unsupported`.
pub proof fn lemma_sparse_is_rejected(defs: Seq<AccessorDef>, blob: Option<Seq<u8>>, at: int)
    requires
        0 <= at < defs.len(),
        defs[at].sparse,
    ensures
        first_problem(defs, blob, 0) is Some,
        (forall|j: int| 0 <= j < at ==> def_problem(#[trigger] defs[j], blob) is None)
            ==> first_problem(defs, blob, 0) == Some(ImportError::Unsupported),
{
    lemma_first_problem_from(defs, blob, 0, at);
}

proof fn lemma_first_problem_from(defs: Seq<AccessorDef>, blob: Option<Seq<u8>>, from: int, at: int)
    requires
        0 <= from <= at < defs.len(),
        defs[at].sparse,
    ensures
        first_problem(defs, blob, from) is Some,
        (forall|j: int| from <= j < at ==> def_problem(#[trigger] defs[j], blob) is None)
            ==> first_problem(defs, blob, from) == Some(ImportError::Unsupported),
    decreases at - from,
{
    if from < at {
        lemma_first_problem_from(defs, blob, from + 1, at);
    }
}

/// One buffer for each view. Two accessors of an imported asset that
/// read the same view stand in the renderer as two accessors over one
/// buffer; two that read different views stand over two buffers.
pub proof fn lemma_one_buffer_for_each_view<M: Material, C>(
    before: Renderer<M, C>,
    after: Renderer<M, C>,
    defs: Seq<AccessorDef>,
    blob: Option<Seq<u8>>,
    index_sources: Seq<usize>,
    handles: Seq<Handle>,
    i: int,
    j: int,
)
    requires
        accessors_imported(before, after, defs, blob, index_sources, handles, defs.len() as int),
        0 <= i < defs.len(),
        0 <= j < defs.len(),
        i != j,
        defs[i].view is Some,
        defs[j].view is Some,
    ensures
        handles[i] != handles[j],
        after.accessors@.contains_key(handles[i]),
        after.accessors@.contains_key(handles[j]),
        after.buffers@.contains_key(after.accessors@[handles[i]].buffer),
        after.buffers@.contains_key(after.accessors@[handles[j]].buffer),
        after.accessors@[handles[i]].buffer == after.accessors@[handles[j]].buffer
            <==> defs[i].view->0.index == defs[j].view->0.index,
{
}

} // verus!
