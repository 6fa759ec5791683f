use crate::handle::Handle;
use crate::import::{
    accessors_imported, check_meshes, find_problem, first_problem, import_accessors,
    import_meshes, index_sources, index_sources_of, mesh_views, meshes_imported, meshes_in_range,
    meshes_resolve, payload, primitive_in_range, primitive_resolves, resolves, accessor_imported,
    AccessorDef, AttributeDef, ImportError, MeshDef, MeshDefView, PrimitiveDef, PrimitiveDefView,
    ViewDef,
};
use crate::material::Material;
use crate::renderer::{Mesh, Renderer};
use crate::shader::TypedArrayKind;
use gltf::json::accessor::{ComponentType, GenericComponentType};
use gltf::json::validation::Checked;
use gltf::Gltf;
use vstd::prelude::*;

verus! {

/// `gltf::Gltf`, taken as it is: nothing is known of an asset but what the
/// functions below read from it.
#[verifier::external_type_specification]
#[verifier::external_body]
pub struct ExGltf(Gltf);

/// A buffer view as the text of an asset gives it.
#[derive(Clone, Copy, Debug, PartialEq, Eq)]
pub struct RawView {
    pub offset: Option<u64>,
    pub length: u64,
    pub stride: Option<usize>,
}

/// An accessor as the text of an asset gives it, but for its component
/// type.
#[derive(Clone, Copy, Debug, PartialEq, Eq)]
pub struct RawAccessor {
    pub sparse: bool,
    /// The number of the view that the accessor reads.
    pub view: Option<usize>,
    /// The number of components of one item, where the asset names a type
    /// that the format knows.
    pub multiplicity: Option<usize>,
    pub normalized: bool,
    pub offset: Option<u64>,
    pub count: u64,
}

/// An attribute of a primitive as the text of an asset gives it: the name
/// of its meaning, where the format knows the name, and the number of its
/// accessor.
#[derive(Clone, Debug, PartialEq, Eq)]
pub struct RawAttribute {
    pub label: Option<String>,
    pub accessor: usize,
}

impl View for RawAttribute {
    type V = (Option<Seq<char>>, usize);

    open spec fn view(&self) -> (Option<Seq<char>>, usize) {
        (
            match self.label {
                Some(label) => Some(label@),
                None => None,
            },
            self.accessor,
        )
    }
}

/// The attributes in a list of raw attributes.
pub open spec fn raw_attribute_views(attributes: Seq<RawAttribute>) -> Seq<
    (Option<Seq<char>>, usize),
> {
    attributes.map_values(|a: RawAttribute| a@)
}

/// The names in a list of optional names.
pub open spec fn name_views(names: Seq<Option<String>>) -> Seq<Option<Seq<char>>> {
    names.map_values(
        |n: Option<String>|
            match n {
                Some(name) => Some(name@),
                None => None,
            },
    )
}

/// The binary payload of an asset.
pub uninterp spec fn gltf_blob(asset: Gltf) -> Option<Seq<u8>>;

/// The buffer views of an asset, in the order of their numbers.
pub uninterp spec fn gltf_views(asset: Gltf) -> Seq<RawView>;

/// The accessors of an asset, in the order of their numbers.
pub uninterp spec fn gltf_accessors(asset: Gltf) -> Seq<RawAccessor>;

/// The component types of the accessors of an asset, in the order of the
/// accessors.
pub uninterp spec fn gltf_component_types(asset: Gltf) -> Seq<Option<TypedArrayKind>>;

/// The names of the meshes of an asset, in the order of the meshes.
pub uninterp spec fn gltf_mesh_names(asset: Gltf) -> Seq<Option<Seq<char>>>;

/// For each primitive of mesh `mesh` of an asset, the number of its index
/// accessor.
pub uninterp spec fn gltf_primitive_indices(asset: Gltf, mesh: int) -> Seq<Option<usize>>;

/// The attributes of primitive `primitive` of mesh `mesh` of an asset, in
/// the order in which the asset's map of attributes lists them.
pub uninterp spec fn gltf_attributes(asset: Gltf, mesh: int, primitive: int) -> Seq<
    (Option<Seq<char>>, usize),
>;

/// The field `blob` of `Gltf`: a copy of the binary payload.
#[verifier::external_body]
fn read_blob(asset: &Gltf) -> (blob: Option<Vec<u8>>)
    ensures
        payload(blob) == gltf_blob(*asset),
{
    asset.blob.clone()
}

/// The field `buffer_views` of the JSON root under `Document::as_json`:
/// offset, length and stride of each view as the text gives them.
#[verifier::external_body]
fn read_views(asset: &Gltf) -> (views: Vec<RawView>)
    ensures
        views@ == gltf_views(*asset),
{
    asset.as_json().buffer_views.iter().map(|v| RawView {
        offset: v.byte_offset.map(|o| o.0),
        length: v.byte_length.0,
        stride: v.byte_stride.map(|s| s.0),
    }).collect()
}

/// The field `accessors` of the JSON root under `Document::as_json`: each
/// accessor as the text gives it, with `Type::multiplicity` for the number
/// of components and `Index::value` for the number of its view.
#[verifier::external_body]
fn read_accessors(asset: &Gltf) -> (accessors: Vec<RawAccessor>)
    ensures
        accessors@ == gltf_accessors(*asset),
{
    asset.as_json().accessors.iter().map(|a| RawAccessor {
        sparse: a.sparse.is_some(),
        view: a.buffer_view.map(|v| v.value()),
        multiplicity: match a.type_ {
            Checked::Valid(t) => Some(t.multiplicity()),
            Checked::Invalid => None,
        },
        normalized: a.normalized,
        offset: a.byte_offset.map(|o| o.0),
        count: a.count.0,
    }).collect()
}

/// The field `component_type` of each accessor of the JSON root: the
/// component type, where the text names one that the format knows.
#[verifier::external_body]
fn read_component_types(asset: &Gltf) -> (types: Vec<Option<TypedArrayKind>>)
    ensures
        types@ == gltf_component_types(*asset),
{
    asset.as_json().accessors.iter().map(|a| match a.component_type {
        Checked::Valid(GenericComponentType(ComponentType::I8)) => Some(TypedArrayKind::Int8),
        Checked::Valid(GenericComponentType(ComponentType::U8)) => Some(TypedArrayKind::Uint8),
        Checked::Valid(GenericComponentType(ComponentType::I16)) => Some(TypedArrayKind::Int16),
        Checked::Valid(GenericComponentType(ComponentType::U16)) => Some(TypedArrayKind::Uint16),
        Checked::Valid(GenericComponentType(ComponentType::U32)) => Some(TypedArrayKind::Uint32),
        Checked::Valid(GenericComponentType(ComponentType::F32)) => Some(TypedArrayKind::Float32),
        Checked::Invalid => None,
    }).collect()
}

/// The field `name` of each mesh of the JSON root, in order.
#[verifier::external_body]
fn read_mesh_names(asset: &Gltf) -> (names: Vec<Option<String>>)
    ensures
        name_views(names@) == gltf_mesh_names(*asset),
{
    asset.as_json().meshes.iter().map(|m| m.name.clone()).collect()
}

/// The field `indices` of each primitive of one mesh of the JSON root, in
/// order, through `Index::value`. The mesh must exist.
#[verifier::external_body]
fn read_primitive_indices(asset: &Gltf, mesh: usize) -> (indices: Vec<Option<usize>>)
    requires
        mesh < gltf_mesh_names(*asset).len(),
    ensures
        indices@ == gltf_primitive_indices(*asset, mesh as int),
{
    asset.as_json().meshes[mesh].primitives.iter().map(|p| p.indices.map(|i| i.value())).collect()
}

/// The field `attributes` of one primitive of the JSON root: its entries
/// in the order of the map, each with the name that `to_string` gives a
/// semantic that the format knows, and with `Index::value` for the number
/// of the accessor. Mesh and primitive must exist.
#[verifier::external_body]
fn read_attributes(asset: &Gltf, mesh: usize, primitive: usize) -> (attributes: Vec<RawAttribute>)
    requires
        mesh < gltf_mesh_names(*asset).len(),
        primitive < gltf_primitive_indices(*asset, mesh as int).len(),
    ensures
        raw_attribute_views(attributes@) == gltf_attributes(
            *asset,
            mesh as int,
            primitive as int,
        ),
{
    asset.as_json().meshes[mesh].primitives[primitive].attributes.iter().map(|(k, v)| RawAttribute {
        label: match k {
            Checked::Valid(s) => Some(s.to_string()),
            Checked::Invalid => None,
        },
        accessor: v.value(),
    }).collect()
}

/// The region that a buffer view names. A stride of zero counts as none.
/// Nothing comes of a view whose numbers do not fit an address.
pub open spec fn resolve_view(raw: RawView, index: usize) -> Option<ViewDef> {
    let offset = match raw.offset {
        Some(offset) => offset,
        None => 0,
    };
    if offset > usize::MAX || raw.length > usize::MAX {
        None
    } else {
        Some(
            ViewDef {
                index,
                offset: offset as usize,
                length: raw.length as usize,
                stride: match raw.stride {
                    Some(stride) => if stride == 0 {
                        None
                    } else {
                        Some(stride)
                    },
                    None => None,
                },
            },
        )
    }
}

/// The accessor that the text of an asset defines. Nothing comes of an
/// accessor whose type or component type the format does not know, whose
/// view does not exist, or whose numbers do not fit an address.
pub open spec fn resolve_accessor(
    raw: RawAccessor,
    data_type: Option<TypedArrayKind>,
    views: Seq<RawView>,
) -> Option<AccessorDef> {
    let offset = match raw.offset {
        Some(offset) => offset,
        None => 0,
    };
    if data_type is None || raw.multiplicity is None || offset > usize::MAX || raw.count
        > usize::MAX {
        None
    } else {
        let plain = AccessorDef {
            sparse: raw.sparse,
            view: None,
            data_type: data_type->0,
            multiplicity: raw.multiplicity->0,
            normalized: raw.normalized,
            offset: offset as usize,
            count: raw.count as usize,
        };
        match raw.view {
            None => Some(plain),
            Some(index) => if index >= views.len() {
                None
            } else {
                match resolve_view(views[index as int], index) {
                    Some(region) => Some(AccessorDef { view: Some(region), ..plain }),
                    None => None,
                }
            },
        }
    }
}

/// Whether every accessor of the text is well defined.
pub open spec fn accessors_resolve(
    raws: Seq<RawAccessor>,
    types: Seq<Option<TypedArrayKind>>,
    views: Seq<RawView>,
) -> bool {
    &&& types.len() == raws.len()
    &&& forall|i: int|
        0 <= i < raws.len() ==> resolve_accessor(#[trigger] raws[i], types[i], views) is Some
}

/// The accessors that the text defines.
pub open spec fn resolved_accessors(
    raws: Seq<RawAccessor>,
    types: Seq<Option<TypedArrayKind>>,
    views: Seq<RawView>,
) -> Seq<AccessorDef> {
    Seq::new(raws.len(), |i: int| resolve_accessor(raws[i], types[i], views)->0)
}

fn resolve_one(raw: &RawAccessor, data_type: Option<TypedArrayKind>, views: &Vec<RawView>) -> (def:
    Option<AccessorDef>)
    ensures
        def == resolve_accessor(*raw, data_type, views@),
{
    let limit = usize::MAX as u64;
    let offset = match raw.offset {
        Some(offset) => offset,
        None => 0,
    };
    let kind = match data_type {
        Some(kind) => kind,
        None => {
            return None;
        },
    };
    let multiplicity = match raw.multiplicity {
        Some(multiplicity) => multiplicity,
        None => {
            return None;
        },
    };
    if offset > limit || raw.count > limit {
        return None;
    }
    let view = match raw.view {
        None => None,
        Some(index) => {
            if index >= views.len() {
                return None;
            }
            let found = views[index];
            let start = match found.offset {
                Some(start) => start,
                None => 0,
            };
            if start > limit || found.length > limit {
                return None;
            }
            let stride = match found.stride {
                Some(stride) => if stride == 0 {
                    None
                } else {
                    Some(stride)
                },
                None => None,
            };
            Some(ViewDef { index, offset: start as usize, length: found.length as usize, stride })
        },
    };
    Some(
        AccessorDef {
            sparse: raw.sparse,
            view,
            data_type: kind,
            multiplicity,
            normalized: raw.normalized,
            offset: offset as usize,
            count: raw.count as usize,
        },
    )
}

/// Works out the accessors that the text of an asset defines, or nothing
/// where one of them is not well defined.
pub fn resolve_accessors(
    raws: &Vec<RawAccessor>,
    types: &Vec<Option<TypedArrayKind>>,
    views: &Vec<RawView>,
) -> (defs: Option<Vec<AccessorDef>>)
    ensures
        match defs {
            Some(defs) => accessors_resolve(raws@, types@, views@) && defs@ == resolved_accessors(
                raws@,
                types@,
                views@,
            ),
            None => !accessors_resolve(raws@, types@, views@),
        },
{
    if types.len() != raws.len() {
        return None;
    }
    let mut defs: Vec<AccessorDef> = Vec::new();
    let mut i: usize = 0;
    while i < raws.len()
        invariant
            i <= raws.len(),
            types.len() == raws.len(),
            defs@.len() == i,
            forall|j: int|
                0 <= j < i ==> resolve_accessor(#[trigger] raws@[j], types@[j], views@) == Some(
                    defs@[j],
                ),
        decreases raws.len() - i,
    {
        match resolve_one(&raws[i], types[i], views) {
            Some(def) => {
                defs.push(def);
            },
            None => {
                return None;
            },
        }
        i += 1;
    }
    Some(defs)
}

/// Whether every accessor of an asset is well defined.
pub open spec fn gltf_accessors_resolve(asset: Gltf) -> bool {
    accessors_resolve(gltf_accessors(asset), gltf_component_types(asset), gltf_views(asset))
}

/// The accessors that an asset defines.
pub open spec fn gltf_accessor_defs(asset: Gltf) -> Seq<AccessorDef> {
    resolved_accessors(gltf_accessors(asset), gltf_component_types(asset), gltf_views(asset))
}

/// Whether the format knows the name of every attribute in the list.
pub open spec fn labels_known(attributes: Seq<(Option<Seq<char>>, usize)>) -> bool {
    forall|k: int| 0 <= k < attributes.len() ==> (#[trigger] attributes[k]).0 is Some
}

/// The attributes in a list whose names the format knows.
pub open spec fn labelled(attributes: Seq<(Option<Seq<char>>, usize)>) -> Seq<(Seq<char>, usize)> {
    attributes.map_values(|a: (Option<Seq<char>>, usize)| (a.0->0, a.1))
}

/// Whether the format knows the name of every attribute of every primitive
/// of an asset.
pub open spec fn gltf_labels_known(asset: Gltf) -> bool {
    forall|m: int, p: int|
        0 <= m < gltf_mesh_names(asset).len() && 0 <= p < gltf_primitive_indices(asset, m).len()
            ==> labels_known(#[trigger] gltf_attributes(asset, m, p))
}

/// Mesh `mesh` of an asset.
pub open spec fn gltf_mesh(asset: Gltf, mesh: int) -> MeshDefView {
    MeshDefView {
        primitives: Seq::new(
            gltf_primitive_indices(asset, mesh).len(),
            |p: int|
                PrimitiveDefView {
                    attributes: labelled(gltf_attributes(asset, mesh, p)),
                    indices: gltf_primitive_indices(asset, mesh)[p],
                },
        ),
        name: gltf_mesh_names(asset)[mesh],
    }
}

/// The meshes of an asset.
pub open spec fn gltf_meshes(asset: Gltf) -> Seq<MeshDefView> {
    Seq::new(gltf_mesh_names(asset).len(), |m: int| gltf_mesh(asset, m))
}

fn label_attributes(raws: &Vec<RawAttribute>) -> (attributes: Option<Vec<AttributeDef>>)
    ensures
        match attributes {
            Some(attributes) => {
                &&& labels_known(raw_attribute_views(raws@))
                &&& crate::import::attribute_views(attributes@) == labelled(
                    raw_attribute_views(raws@),
                )
            },
            None => !labels_known(raw_attribute_views(raws@)),
        },
{
    let mut attributes: Vec<AttributeDef> = Vec::new();
    let mut k: usize = 0;
    while k < raws.len()
        invariant
            k <= raws.len(),
            attributes@.len() == k,
            forall|j: int| 0 <= j < k ==> (#[trigger] raw_attribute_views(raws@)[j]).0 is Some,
            forall|j: int|
                0 <= j < k ==> (#[trigger] attributes@[j])@ == (
                    raw_attribute_views(raws@)[j].0->0,
                    raw_attribute_views(raws@)[j].1,
                ),
        decreases raws.len() - k,
    {
        let raw = &raws[k];
        assert(raw_attribute_views(raws@)[k as int] == raw@);
        match &raw.label {
            Some(label) => {
                attributes.push(AttributeDef { label: label.clone(), accessor: raw.accessor });
            },
            None => {
                return None;
            },
        }
        k += 1;
    }
    Some(attributes)
}

/// Reads the meshes of an asset, or nothing where a primitive has an
/// attribute whose name the format does not know.
pub fn read_meshes(asset: &Gltf) -> (meshes: Option<Vec<MeshDef>>)
    ensures
        match meshes {
            Some(meshes) => gltf_labels_known(*asset) && mesh_views(meshes@) == gltf_meshes(
                *asset,
            ),
            None => !gltf_labels_known(*asset),
        },
{
    let names = read_mesh_names(asset);
    let count = names.len();
    let mut meshes: Vec<MeshDef> = Vec::new();
    let mut m: usize = 0;
    while m < count
        invariant
            m <= count,
            count == names.len(),
            count == gltf_mesh_names(*asset).len(),
            name_views(names@) == gltf_mesh_names(*asset),
            meshes@.len() == m,
            forall|a: int| 0 <= a < m ==> (#[trigger] meshes@[a])@ == gltf_mesh(*asset, a),
            forall|a: int, b: int|
                0 <= a < m && 0 <= b < gltf_primitive_indices(*asset, a).len() ==> labels_known(
                    #[trigger] gltf_attributes(*asset, a, b),
                ),
        decreases count - m,
    {
        let all_indices = read_primitive_indices(asset, m);
        let mut primitives: Vec<PrimitiveDef> = Vec::new();
        let mut p: usize = 0;
        while p < all_indices.len()
            invariant
                m < gltf_mesh_names(*asset).len(),
                all_indices@ == gltf_primitive_indices(*asset, m as int),
                p <= all_indices.len(),
                primitives@.len() == p,
                forall|b: int|
                    0 <= b < p ==> labels_known(#[trigger] gltf_attributes(*asset, m as int, b)),
                forall|b: int|
                    0 <= b < p ==> (#[trigger] primitives@[b])@ == (PrimitiveDefView {
                        attributes: labelled(gltf_attributes(*asset, m as int, b)),
                        indices: all_indices@[b],
                    }),
            decreases all_indices.len() - p,
        {
            let raws = read_attributes(asset, m, p);
            match label_attributes(&raws) {
                Some(attributes) => {
                    primitives.push(PrimitiveDef { attributes, indices: all_indices[p] });
                },
                None => {
                    return None;
                },
            }
            p += 1;
        }
        let name = match &names[m] {
            Some(name) => Some(name.clone()),
            None => None,
        };
        let mesh = MeshDef { primitives, name };
        assert(mesh@.primitives =~= gltf_mesh(*asset, m as int).primitives);
        meshes.push(mesh);
        m += 1;
    }
    Some(meshes)
}

/// What keeps the accessors of an asset from being imported, if anything:
/// an accessor or attribute that is not well defined, or the first
/// accessor that cannot be honoured.
pub open spec fn gltf_problem(asset: Gltf) -> Option<ImportError> {
    if !gltf_accessors_resolve(asset) || !gltf_labels_known(asset) {
        Some(ImportError::Malformed)
    } else {
        first_problem(gltf_accessor_defs(asset), gltf_blob(asset), 0)
    }
}

/// Brings the accessors of an asset into the renderer: one accessor for
/// each accessor of the asset, in order, and one buffer for each view that
/// they read. A buffer is bound for indices where a primitive of the asset
/// takes its indices from the first accessor that reads the view. An asset
/// with a sparse accessor is refused, and so is one that is not well
/// defined; the renderer then stays as it was.
pub fn create_gltf_attributes<M: Material, C>(gltf: &Gltf, renderer: &mut Renderer<M, C>) -> (result:
    Result<Vec<Handle>, ImportError>)
    requires
        old(renderer).wf(),
    ensures
        final(renderer).wf(),
        match result {
            Ok(handles) => {
                &&& gltf_problem(*gltf) is None
                &&& accessors_imported(
                    *old(renderer),
                    *final(renderer),
                    gltf_accessor_defs(*gltf),
                    gltf_blob(*gltf),
                    index_sources_of(gltf_meshes(*gltf), gltf_meshes(*gltf).len() as int),
                    handles@,
                    gltf_accessor_defs(*gltf).len() as int,
                )
            },
            Err(e) => gltf_problem(*gltf) == Some(e) && *final(renderer) == *old(renderer),
        },
{
    let raws = read_accessors(gltf);
    let types = read_component_types(gltf);
    let views = read_views(gltf);
    let defs = match resolve_accessors(&raws, &types, &views) {
        Some(defs) => defs,
        None => {
            return Err(ImportError::Malformed);
        },
    };
    let meshes = match read_meshes(gltf) {
        Some(meshes) => meshes,
        None => {
            return Err(ImportError::Malformed);
        },
    };
    let blob = read_blob(gltf);
    let sources = index_sources(&meshes);
    import_accessors(&defs, &blob, &sources, renderer)
}

/// Brings the meshes of an asset into being, over the accessors that
/// `create_gltf_attributes` returned for it: one mesh for each mesh of the
/// asset, with the asset's name for it, and one primitive with a geometry
/// of its own for each of its primitives, to be drawn with `material`. The
/// geometry holds each attribute under its meaning; its count is that of
/// the index accessor where the primitive is indexed, else that of its
/// last attribute.
///
/// Nothing is made, and the renderer stays as it was, where an attribute
/// has a name that the format does not know, or where a primitive names an
/// accessor that is not among `all_attributes` or no longer resolves.
pub fn create_gltf_meshes<M: Material, C>(
    gltf: &Gltf,
    all_attributes: &Vec<Handle>,
    renderer: &mut Renderer<M, C>,
    material: Option<Handle>,
) -> (result: Result<Vec<Mesh>, ImportError>)
    requires
        old(renderer).wf(),
    ensures
        final(renderer).wf(),
        match result {
            Ok(meshes) => {
                &&& gltf_labels_known(*gltf)
                &&& meshes_resolve(gltf_meshes(*gltf), all_attributes@, old(renderer).accessors@)
                &&& meshes_imported(
                    *old(renderer),
                    *final(renderer),
                    gltf_meshes(*gltf),
                    all_attributes@,
                    material,
                    meshes@,
                    gltf_meshes(*gltf).len() as int,
                )
            },
            Err(e) => {
                &&& *final(renderer) == *old(renderer)
                &&& e == (if gltf_labels_known(*gltf) {
                    ImportError::MissingAccessor
                } else {
                    ImportError::Malformed
                })
                &&& gltf_labels_known(*gltf) ==> !meshes_resolve(
                    gltf_meshes(*gltf),
                    all_attributes@,
                    old(renderer).accessors@,
                )
            },
        },
{
    let defs = match read_meshes(gltf) {
        Some(defs) => defs,
        None => {
            return Err(ImportError::Malformed);
        },
    };
    import_meshes(&defs, all_attributes, renderer, material)
}

/// What was made of an asset.
#[derive(Debug)]
pub struct Imported {
    /// The handles of the accessors, in the order of the asset.
    pub accessors: Vec<Handle>,
    /// The meshes, in the order of the asset.
    pub meshes: Vec<Mesh>,
}

/// What `import` owes for an asset. An asset that is not well defined, a
/// sparse accessor, a region that the payload does not hold, a number that
/// the graphics interface cannot take, or a primitive that names an
/// accessor that the asset does not have, fails the import and leaves the
/// renderer as it was. Any other asset is imported whole: first its
/// accessors with their buffers, then over these its meshes with their
/// geometries.
pub open spec fn import_outcome<M: Material, C>(
    asset: Gltf,
    before: Renderer<M, C>,
    after: Renderer<M, C>,
    material: Option<Handle>,
    result: Result<Imported, ImportError>,
) -> bool {
    let defs = gltf_accessor_defs(asset);
    let meshes = gltf_meshes(asset);
    let between = Renderer { geometries: before.geometries, ..after };
    match gltf_problem(asset) {
        Some(e) => result == Err::<Imported, ImportError>(e) && after == before,
        None => if !meshes_in_range(meshes, defs.len() as int) {
            result == Err::<Imported, ImportError>(ImportError::MissingAccessor) && after == before
        } else {
            &&& result matches Ok(made)
            &&& accessors_imported(
                before,
                between,
                defs,
                gltf_blob(asset),
                index_sources_of(meshes, meshes.len() as int),
                made.accessors@,
                defs.len() as int,
            )
            &&& meshes_imported(
                between,
                after,
                meshes,
                made.accessors@,
                material,
                made.meshes@,
                meshes.len() as int,
            )
        },
    }
}

/// Brings the accessors and the meshes of an asset into the renderer.
/// Every primitive is given `material`. An asset that cannot be imported
/// whole is not imported at all.
pub fn import<M: Material, C>(gltf: &Gltf, renderer: &mut Renderer<M, C>, material: Option<Handle>) -> (result:
    Result<Imported, ImportError>)
    requires
        old(renderer).wf(),
    ensures
        final(renderer).wf(),
        import_outcome(*gltf, *old(renderer), *final(renderer), material, result),
{
    let raws = read_accessors(gltf);
    let types = read_component_types(gltf);
    let views = read_views(gltf);
    let defs = match resolve_accessors(&raws, &types, &views) {
        Some(defs) => defs,
        None => {
            return Err(ImportError::Malformed);
        },
    };
    let mesh_defs = match read_meshes(gltf) {
        Some(mesh_defs) => mesh_defs,
        None => {
            return Err(ImportError::Malformed);
        },
    };
    let blob = read_blob(gltf);
    if let Some(e) = find_problem(&defs, &blob) {
        return Err(e);
    }
    if !check_meshes(&mesh_defs, defs.len()) {
        return Err(ImportError::MissingAccessor);
    }
    let sources = index_sources(&mesh_defs);
    let accessors = match import_accessors(&defs, &blob, &sources, renderer) {
        Ok(accessors) => accessors,
        Err(e) => {
            return Err(e);
        },
    };
    let ghost between = *renderer;
    proof {
        let views = mesh_views(mesh_defs@);
        assert forall|m: int, p: int|
            0 <= m < views.len() && 0 <= p < views[m].primitives.len() implies primitive_resolves(
            #[trigger] views[m].primitives[p],
            accessors@,
            between.accessors@,
        ) by {}
    }
    match import_meshes(&mesh_defs, &accessors, renderer, material) {
        Ok(meshes) => {
            Ok(Imported { accessors, meshes })
        },
        Err(e) => Err(e),
    }
}

} // verus!
