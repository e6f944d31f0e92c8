//! The preview of a costume as a whole: from the folders of a fighter and what their files hold to
//! the files that are written.
use crate::carrier::{
    check_descriptor, check_materials, check_rig, checked_asset_size, choose_motion, find_selected,
    merge_material_labels, plan_bundle, select_model, source_total, strip_low_lod_entries,
    validate_animation_bones, vanilla_motion_used, CarrierError, NodeGroup, PlannedFile,
    SelectedFile,
};
use crate::motions::{prepare, MotionEntry, MotionError, PreparedMotions};
use crate::pool::ResourcePool;
use crate::sorted::SortedMap;
use crate::text::{copy_texts, has_end, same_text};
use crate::textures::{carrier_texture_outputs, TextureError};
use crate::workspace::{
    fighter_component, overlaid, regular_asset_files, AssetArea, AssetError, AssetSource,
    ListedFile,
};
use vstd::prelude::*;

verus! {

// ── The folders ──────────────────────────────────────────────────────────────

/// The files of a costume, by name.
pub struct Costume {
    /// The fighter, as a part of a game path.
    pub fighter: String,
    /// The model files of the workspace. The fighter's own never stand in for one of these.
    pub model: SortedMap<String, AssetSource>,
    /// The motion files of the workspace.
    pub own_motion: SortedMap<String, AssetSource>,
    /// The motion: the fighter's own files, and over them those of the workspace.
    pub motion: SortedMap<String, AssetSource>,
    /// Where the fighter's own skeleton is, if its folder is at hand.
    pub vanilla_skeleton: Option<String>,
}

impl Costume {
    /// The three maps are in order.
    pub open spec fn wf(&self) -> bool {
        self.model.wf() && self.own_motion.wf() && self.motion.wf()
    }
}

#[verifier::ext_equal]
pub struct CostumeView {
    pub fighter: Seq<char>,
    pub model: Map<Seq<char>, crate::workspace::SourceView>,
    pub own_motion: Map<Seq<char>, crate::workspace::SourceView>,
    pub motion: Map<Seq<char>, crate::workspace::SourceView>,
    pub vanilla_skeleton: Option<Seq<char>>,
}

impl View for Costume {
    type V = CostumeView;

    open spec fn view(&self) -> CostumeView {
        CostumeView {
            fighter: self.fighter@,
            model: crate::workspace::source_views(self.model@),
            own_motion: crate::workspace::source_views(self.own_motion@),
            motion: crate::workspace::source_views(self.motion@),
            vanilla_skeleton: crate::events::optional_text(self.vanilla_skeleton),
        }
    }
}

/// What a workspace and the fighter's own folders hold of a costume. The model is that of the
/// workspace alone; the motion is filled in from the fighter's own files, and files of the
/// workspace win. No folder may hold a file whose name cannot be used.
pub open spec fn gathered(
    fighter: Seq<char>,
    vanilla_dir: Option<Seq<char>>,
    vanilla_model: Seq<crate::workspace::ListedView>,
    model: Seq<crate::workspace::ListedView>,
    motion: Seq<crate::workspace::ListedView>,
    vanilla_motion: Seq<crate::workspace::ListedView>,
) -> Result<CostumeView, crate::workspace::AssetErrorView> {
    match crate::workspace::fighter_part(fighter) {
        Err(e) => Err(e),
        Ok(name) => match crate::workspace::collected(vanilla_model, AssetArea::Model) {
            Err(e) => Err(e),
            Ok(_) => match crate::workspace::collected(model, AssetArea::Model) {
                Err(e) => Err(e),
                Ok(own_model) => match crate::workspace::collected(motion, AssetArea::Motion) {
                    Err(e) => Err(e),
                    Ok(own_motion) => match crate::workspace::collected(
                        vanilla_motion,
                        AssetArea::Motion,
                    ) {
                        Err(e) => Err(e),
                        Ok(vanilla) => Ok(
                            CostumeView {
                                fighter: name,
                                model: own_model,
                                own_motion,
                                motion: vanilla.union_prefer_right(own_motion),
                                vanilla_skeleton: match vanilla_dir {
                                    Some(dir) => Some(
                                        crate::paths::joined(dir, "model.nusktb"@),
                                    ),
                                    None => None,
                                },
                            },
                        ),
                    },
                },
            },
        },
    }
}

/// Gathers the files of a costume from the listings of its folders. A folder that is not there is
/// listed as an empty one.
pub fn gather_costume(
    fighter: &str,
    vanilla_dir: Option<&str>,
    vanilla_model: &Vec<ListedFile>,
    model: &Vec<ListedFile>,
    motion: &Vec<ListedFile>,
    vanilla_motion: &Vec<ListedFile>,
) -> (costume: Result<Costume, AssetError>)
    ensures
        match gathered(
            fighter@,
            match vanilla_dir {
                Some(dir) => Some(dir@),
                None => None,
            },
            crate::workspace::listed_views(vanilla_model@),
            crate::workspace::listed_views(model@),
            crate::workspace::listed_views(motion@),
            crate::workspace::listed_views(vanilla_motion@),
        ) {
            Ok(found) => costume is Ok && costume->Ok_0.wf() && costume->Ok_0@ == found,
            Err(e) => costume is Err && costume->Err_0@ == e,
        },
{
    let fighter = match fighter_component(fighter) {
        Ok(name) => name,
        Err(e) => {
            return Err(e);
        },
    };
    match regular_asset_files(vanilla_model, AssetArea::Model) {
        Ok(_) => {},
        Err(e) => {
            return Err(e);
        },
    }
    let model = match regular_asset_files(model, AssetArea::Model) {
        Ok(files) => files,
        Err(e) => {
            return Err(e);
        },
    };
    let own_motion = match regular_asset_files(motion, AssetArea::Motion) {
        Ok(files) => files,
        Err(e) => {
            return Err(e);
        },
    };
    let vanilla = match regular_asset_files(vanilla_motion, AssetArea::Motion) {
        Ok(files) => files,
        Err(e) => {
            return Err(e);
        },
    };
    let vanilla_skeleton: Option<String> = match vanilla_dir {
        Some(dir) => Some(crate::paths::join(dir, "model.nusktb")),
        None => None,
    };
    let motion = overlaid(&vanilla, &own_motion);
    Ok(Costume { fighter, model, own_motion, motion, vanilla_skeleton })
}

// ── What the files hold ──────────────────────────────────────────────────────

/// What a preview depends on in a model descriptor.
#[derive(Debug)]
pub struct Descriptor {
    /// How many material files it names.
    pub material_files: usize,
    /// The mesh of each entry.
    pub meshes: Vec<String>,
    /// The material of each entry.
    pub materials: Vec<String>,
}

/// What a preview depends on in a material: its label, and the textures it refers to.
#[derive(Debug)]
pub struct Material {
    pub label: String,
    pub textures: Vec<String>,
}

/// What the files of a costume hold, by their paths. A file that cannot be read is not listed.
pub struct CostumeContents {
    /// The bones of skeletons.
    pub skeletons: SortedMap<String, Vec<String>>,
    pub descriptors: SortedMap<String, Descriptor>,
    pub materials: SortedMap<String, Vec<Material>>,
    /// The groups of animations.
    pub animations: SortedMap<String, Vec<NodeGroup>>,
    pub motion_lists: SortedMap<String, Vec<MotionEntry>>,
    /// Parameter files, of which nothing more is needed.
    pub parameters: SortedMap<String, ()>,
    /// The names of meshes.
    pub meshes: SortedMap<String, Vec<String>>,
    /// The names of the meshes that are described further.
    pub mesh_groups: SortedMap<String, Vec<String>>,
}

impl CostumeContents {
    /// The maps are in order.
    pub open spec fn wf(&self) -> bool {
        &&& self.skeletons.wf()
        &&& self.descriptors.wf()
        &&& self.materials.wf()
        &&& self.animations.wf()
        &&& self.motion_lists.wf()
        &&& self.parameters.wf()
        &&& self.meshes.wf()
        &&& self.mesh_groups.wf()
    }
}

/// The names that are listed for `path`.
pub open spec fn names_at(lists: Map<Seq<char>, Vec<String>>, path: Seq<char>) -> Option<
    Seq<Seq<char>>,
> {
    if lists.contains_key(path) {
        Some(crate::text::texts(lists[path]@))
    } else {
        None
    }
}

/// The labels of materials.
pub open spec fn labels_of(materials: Seq<Material>) -> Seq<Seq<char>> {
    Seq::new(materials.len(), |i: int| materials[i].label@)
}

/// Why a preview cannot be made.
#[derive(Debug, PartialEq, Eq)]
pub enum PreparationError {
    /// The costume does not fit.
    Carrier(CarrierError),
    /// A material refers to a texture that cannot be used.
    Texture(TextureError),
    /// The motion graph cannot be built.
    Motion(MotionError),
    /// This file cannot be read.
    Unreadable(String),
}

#[verifier::ext_equal]
pub enum PreparationErrorView {
    Carrier(crate::carrier::CarrierErrorView),
    Texture(crate::textures::TextureErrorView),
    Motion(MotionError),
    Unreadable(Seq<char>),
}

impl View for PreparationError {
    type V = PreparationErrorView;

    open spec fn view(&self) -> PreparationErrorView {
        match self {
            PreparationError::Carrier(e) => PreparationErrorView::Carrier(e@),
            PreparationError::Texture(e) => PreparationErrorView::Texture(e@),
            PreparationError::Motion(e) => PreparationErrorView::Motion(*e),
            PreparationError::Unreadable(path) => PreparationErrorView::Unreadable(path@),
        }
    }
}

/// The source that was selected for `canonical`.
pub open spec fn picked(
    selection: Seq<(Seq<char>, crate::workspace::SourceView)>,
    canonical: Seq<char>,
) -> Result<crate::workspace::SourceView, PreparationErrorView> {
    match crate::carrier::selected_source(selection, canonical, 0) {
        Some(source) => Ok(source),
        None => Err(
            PreparationErrorView::Carrier(
                crate::carrier::CarrierErrorView::MissingModelFile(canonical),
            ),
        ),
    }
}

fn pick(selection: &Vec<SelectedFile>, canonical: &str) -> (source: Result<
    AssetSource,
    PreparationError,
>)
    ensures
        match picked(crate::carrier::selected_views(selection@), canonical@) {
            Ok(s) => source is Ok && source->Ok_0@ == s,
            Err(e) => source is Err && source->Err_0@ == e,
        },
{
    match find_selected(selection, canonical) {
        Some(source) => Ok(source),
        None => Err(
            PreparationError::Carrier(CarrierError::MissingModelFile(canonical.to_owned())),
        ),
    }
}

// ── The rig ──────────────────────────────────────────────────────────────────

/// The bones of the model, which can follow the fighter's motions.
pub open spec fn checked_rig(
    vanilla_skeleton: Option<Seq<char>>,
    selection: Seq<(Seq<char>, crate::workspace::SourceView)>,
    skeletons: Map<Seq<char>, Vec<String>>,
) -> Result<Seq<Seq<char>>, PreparationErrorView> {
    match picked(selection, "model.nusktb"@) {
        Err(e) => Err(e),
        Ok(source) => match names_at(skeletons, source.path) {
            None => Err(PreparationErrorView::Unreadable(source.path)),
            Some(bones) => match crate::carrier::rig_check(bones, None) {
                Err(e) => Err(PreparationErrorView::Carrier(e)),
                Ok(_) => match vanilla_skeleton {
                    None => Ok(bones),
                    Some(path) => match names_at(skeletons, path) {
                        None => Err(PreparationErrorView::Unreadable(path)),
                        Some(vanilla) => match crate::carrier::rig_check(bones, Some(vanilla)) {
                            Err(e) => Err(PreparationErrorView::Carrier(e)),
                            Ok(_) => Ok(bones),
                        },
                    },
                },
            },
        },
    }
}

/// The bones of the model, if they can follow the fighter's motions.
pub fn check_costume_rig<'a>(
    vanilla_skeleton: &Option<String>,
    selection: &Vec<SelectedFile>,
    contents: &'a CostumeContents,
) -> (bones: Result<&'a Vec<String>, PreparationError>)
    requires
        contents.wf(),
    ensures
        match checked_rig(
            crate::events::optional_text(*vanilla_skeleton),
            crate::carrier::selected_views(selection@),
            contents.skeletons@,
        ) {
            Ok(names) => bones is Ok && crate::text::texts(bones->Ok_0@) == names,
            Err(e) => bones is Err && bones->Err_0@ == e,
        },
{
    let source = match pick(selection, "model.nusktb") {
        Ok(source) => source,
        Err(e) => {
            return Err(e);
        },
    };
    let bones = match contents.skeletons.get(&source.path) {
        Some(bones) => bones,
        None => {
            return Err(PreparationError::Unreadable(source.path));
        },
    };
    match check_rig(bones, None) {
        Ok(_) => {},
        Err(e) => {
            return Err(PreparationError::Carrier(e));
        },
    }
    match vanilla_skeleton {
        None => Ok(bones),
        Some(path) => match contents.skeletons.get(path) {
            None => Err(PreparationError::Unreadable(path.clone())),
            Some(vanilla) => match check_rig(bones, Some(vanilla)) {
                Ok(_) => Ok(bones),
                Err(e) => Err(PreparationError::Carrier(e)),
            },
        },
    }
}

// ── The materials ────────────────────────────────────────────────────────────

/// A material of the preview: the file that defines it, and its position there.
#[derive(Debug)]
pub struct MaterialPlace {
    pub path: String,
    pub entry: usize,
}

/// The views of material places.
pub open spec fn place_views(places: Seq<MaterialPlace>) -> Seq<(Seq<char>, int)> {
    Seq::new(places.len(), |i: int| (places[i].path@, places[i].entry as int))
}

/// The materials that are known, where they are defined, and the textures that each refers to.
#[verifier::ext_equal]
pub struct MergedView {
    pub known: Seq<Seq<char>>,
    pub places: Seq<(Seq<char>, int)>,
    pub references: Seq<Seq<Seq<char>>>,
}

/// The textures that materials refer to.
pub open spec fn references_of(materials: Seq<Material>, entries: Seq<int>) -> Seq<Seq<Seq<char>>> {
    Seq::new(entries.len(), |i: int| crate::text::texts(materials[entries[i]].textures@))
}

/// The places of entries in a file.
pub open spec fn places_in(path: Seq<char>, entries: Seq<int>) -> Seq<(Seq<char>, int)> {
    Seq::new(entries.len(), |i: int| (path, entries[i]))
}

/// Every entry of a file.
pub open spec fn all_entries(materials: Seq<Material>) -> Seq<int> {
    Seq::new(materials.len(), |i: int| i)
}

/// The materials of the model's own file.
pub open spec fn own_materials(path: Seq<char>, materials: Seq<Material>) -> MergedView {
    MergedView {
        known: labels_of(materials),
        places: places_in(path, all_entries(materials)),
        references: references_of(materials, all_entries(materials)),
    }
}

/// A further material file.
pub open spec fn is_variant(name: Seq<char>) -> bool {
    crate::text::ends_with(name, ".numatb"@) && name != "model.numatb"@
}

/// The materials of `own`, and behind them what further material files define under new labels.
/// A further file that cannot be read adds nothing.
pub open spec fn merged(
    files: Seq<(Seq<char>, crate::workspace::SourceView)>,
    materials: Map<Seq<char>, Vec<Material>>,
    own: MergedView,
) -> MergedView
    decreases files.len(),
{
    if files.len() == 0 {
        own
    } else {
        let before = merged(files.drop_last(), materials, own);
        let (name, source) = files.last();
        if is_variant(name) && materials.contains_key(source.path) {
            let more = materials[source.path]@;
            let taken = crate::carrier::taken_entries(before.known, labels_of(more));
            MergedView {
                known: crate::carrier::with_new(before.known, labels_of(more)),
                places: before.places + places_in(source.path, taken),
                references: before.references + references_of(more, taken),
            }
        } else {
            before
        }
    }
}

/// The materials of a preview as they are gathered.
pub struct MergedMaterials {
    pub known: Vec<String>,
    pub places: Vec<MaterialPlace>,
    pub references: Vec<Vec<String>>,
}

impl View for MergedMaterials {
    type V = MergedView;

    open spec fn view(&self) -> MergedView {
        MergedView {
            known: crate::text::texts(self.known@),
            places: place_views(self.places@),
            references: crate::textures::reference_views(self.references@),
        }
    }
}

fn label_list(materials: &Vec<Material>) -> (labels: Vec<String>)
    ensures
        crate::text::texts(labels@) == labels_of(materials@),
{
    let mut labels: Vec<String> = Vec::new();
    let mut i: usize = 0;
    while i < materials.len()
        invariant
            i <= materials@.len(),
            crate::text::texts(labels@) == labels_of(materials@).take(i as int),
        decreases materials@.len() - i,
    {
        let ghost before = crate::text::texts(labels@);
        labels.push(materials[i].label.clone());
        assert(crate::text::texts(labels@) =~= before.push(materials@[i as int].label@));
        assert(labels_of(materials@).take(i + 1) =~= before.push(materials@[i as int].label@));
        i += 1;
    }
    assert(labels_of(materials@).take(i as int) =~= labels_of(materials@));
    labels
}

/// Puts entries of a file behind those that are there.
fn take_entries(
    merge: &mut MergedMaterials,
    path: &String,
    materials: &Vec<Material>,
    entries: &Vec<usize>,
)
    requires
        forall|i: int| 0 <= i < entries@.len() ==> (#[trigger] entries@[i]) < materials@.len(),
    ensures
        final(merge).known == old(merge).known,
        final(merge)@.places == old(merge)@.places + places_in(
            path@,
            Seq::new(entries@.len(), |i: int| entries@[i] as int),
        ),
        final(merge)@.references == old(merge)@.references + references_of(
            materials@,
            Seq::new(entries@.len(), |i: int| entries@[i] as int),
        ),
{
    let ghost taken = Seq::new(entries@.len(), |i: int| entries@[i] as int);
    let ghost places = places_in(path@, taken);
    let ghost references = references_of(materials@, taken);
    let ghost start = merge@;
    let mut i: usize = 0;
    assert(merge@.places =~= start.places + places.take(0));
    assert(merge@.references =~= start.references + references.take(0));
    while i < entries.len()
        invariant
            i <= entries@.len(),
            taken == Seq::new(entries@.len(), |i: int| entries@[i] as int),
            places == places_in(path@, taken),
            references == references_of(materials@, taken),
            forall|i: int| 0 <= i < entries@.len() ==> (#[trigger] entries@[i]) < materials@.len(),
            merge.known == old(merge).known,
            merge@.places == start.places + places.take(i as int),
            merge@.references == start.references + references.take(i as int),
        decreases entries@.len() - i,
    {
        let entry: usize = entries[i];
        let ghost before = merge@;
        let textures = copy_texts(&materials[entry].textures);
        merge.places.push(MaterialPlace { path: path.clone(), entry });
        merge.references.push(textures);
        proof {
            assert(taken[i as int] == entry);
            assert(merge@.places =~= before.places.push((path@, entry as int)));
            assert(merge@.references =~= before.references.push(
                crate::text::texts(materials@[entry as int].textures@),
            ));
            assert(places.take(i + 1) =~= places.take(i as int).push(places[i as int]));
            assert(references.take(i + 1) =~= references.take(i as int).push(
                references[i as int],
            ));
            assert(merge@.places =~= start.places + places.take(i + 1));
            assert(merge@.references =~= start.references + references.take(i + 1));
        }
        i += 1;
    }
    assert(places.take(i as int) =~= places);
    assert(references.take(i as int) =~= references);
}

proof fn lemma_taken_range(known: Seq<Seq<char>>, labels: Seq<Seq<char>>)
    ensures
        forall|i: int|
            #![trigger crate::carrier::taken_entries(known, labels)[i]]
            0 <= i < crate::carrier::taken_entries(known, labels).len() ==> 0
                <= crate::carrier::taken_entries(known, labels)[i] < labels.len(),
    decreases labels.len(),
{
    if labels.len() > 0 {
        lemma_taken_range(known, labels.drop_last());
        let now = crate::carrier::taken_entries(known, labels);
        let before = crate::carrier::taken_entries(known, labels.drop_last());
        assert forall|i: int| 0 <= i < now.len() implies 0 <= #[trigger] now[i] < labels.len() by {
            if i < before.len() {
                assert(now[i] == before[i]);
            }
        }
    }
}

fn start_merge(path: &String, materials: &Vec<Material>) -> (merge: MergedMaterials)
    ensures
        merge@ == own_materials(path@, materials@),
{
    let known = label_list(materials);
    let mut merge = MergedMaterials { known, places: Vec::new(), references: Vec::new() };
    let mut entries: Vec<usize> = Vec::new();
    let mut i: usize = 0;
    while i < materials.len()
        invariant
            i <= materials@.len(),
            entries@.len() == i,
            forall|j: int| 0 <= j < i ==> (#[trigger] entries@[j]) == j,
        decreases materials@.len() - i,
    {
        entries.push(i);
        i += 1;
    }
    assert(merge@.places =~= Seq::empty());
    assert(merge@.references =~= Seq::empty());
    take_entries(&mut merge, path, materials, &entries);
    proof {
        let taken = Seq::new(entries@.len(), |j: int| entries@[j] as int);
        assert(taken =~= all_entries(materials@));
        assert(merge@.places =~= places_in(path@, taken));
        assert(merge@.references =~= references_of(materials@, taken));
    }
    merge
}

/// Merges the materials of a model with those that only further files define.
pub fn merge_materials(
    files: &SortedMap<String, AssetSource>,
    materials: &SortedMap<String, Vec<Material>>,
    path: &String,
    own: &Vec<Material>,
) -> (merge: MergedMaterials)
    requires
        files.wf(),
        materials.wf(),
    ensures
        merge@ == merged(
            crate::motions::entry_list(*files),
            materials@,
            own_materials(path@, own@),
        ),
{
    let ghost all = crate::motions::entry_list(*files);
    let ghost start = own_materials(path@, own@);
    let mut merge = start_merge(path, own);
    let mut i: usize = 0;
    assert(all.take(0).len() == 0);
    while i < files.len()
        invariant
            files.wf(),
            materials.wf(),
            all == crate::motions::entry_list(*files),
            i <= all.len(),
            merge@ == merged(all.take(i as int), materials@, start),
        decreases all.len() - i,
    {
        let name = files.key_at(i);
        let source = files.value_at(i);
        proof {
            assert(all.take(i + 1).drop_last() =~= all.take(i as int));
            assert(all.take(i + 1).last() == (name@, source@));
        }
        if has_end(name.as_str(), ".numatb") && !same_text(name.as_str(), "model.numatb") {
            match materials.get(&source.path) {
                Some(more) => {
                    let ghost before = merge@;
                    let labels = label_list(more);
                    let taken = merge_material_labels(&mut merge.known, &labels);
                    proof {
                        lemma_taken_range(before.known, labels_of(more@));
                        let entries = crate::carrier::taken_entries(
                            before.known,
                            labels_of(more@),
                        );
                        assert forall|j: int| 0 <= j < taken@.len() implies (
                        #[trigger] taken@[j]) < more@.len() by {
                            assert(entries[j] == taken@[j]);
                        }
                    }
                    take_entries(&mut merge, &source.path, more, &taken);
                },
                None => {},
            }
        }
        i += 1;
    }
    assert(all.take(i as int) =~= all);
    merge
}

/// What the materials of a preview come to.
#[verifier::ext_equal]
pub struct MaterialPlanView {
    pub places: Seq<(Seq<char>, int)>,
    pub textures: Seq<Seq<Seq<char>>>,
    pub outputs: Seq<(Seq<char>, crate::workspace::SourceView)>,
    /// The meshes of the two descriptors.
    pub meshes: Seq<Seq<char>>,
    pub command_meshes: Seq<Seq<char>>,
}

/// The materials of a preview: where each is defined, its textures under the names that the pool
/// has for them, and the files that go there.
pub struct MaterialPlan<'a> {
    pub places: Vec<MaterialPlace>,
    pub textures: Vec<Vec<String>>,
    pub outputs: Vec<(String, AssetSource)>,
    pub meshes: &'a Vec<String>,
    pub command_meshes: &'a Vec<String>,
}

impl<'a> View for MaterialPlan<'a> {
    type V = MaterialPlanView;

    open spec fn view(&self) -> MaterialPlanView {
        MaterialPlanView {
            places: place_views(self.places@),
            textures: crate::textures::reference_views(self.textures@),
            outputs: crate::motions::pooled_files(self.outputs@),
            meshes: crate::text::texts(self.meshes@),
            command_meshes: crate::text::texts(self.command_meshes@),
        }
    }
}

/// What the descriptors and the materials that were read come to.
pub open spec fn described(
    files: SortedMap<String, AssetSource>,
    materials: Map<Seq<char>, Vec<Material>>,
    path: Seq<char>,
    own: Seq<Material>,
    descriptor: Descriptor,
    command: Descriptor,
    capacity: usize,
) -> Result<MaterialPlanView, PreparationErrorView> {
    if own.len() == 0 {
        Err(PreparationErrorView::Carrier(crate::carrier::CarrierErrorView::NoMaterials))
    } else {
        let all = merged(
            crate::motions::entry_list(files),
            materials,
            own_materials(path, own),
        );
        match crate::carrier::descriptor_check(
            "model.numdlb"@,
            descriptor.material_files,
            crate::text::texts(descriptor.materials@),
            all.known,
        ) {
            Err(e) => Err(PreparationErrorView::Carrier(e)),
            Ok(_) => match crate::carrier::descriptor_check(
                "model.nusrcmdlb"@,
                command.material_files,
                crate::text::texts(command.materials@),
                all.known,
            ) {
                Err(e) => Err(PreparationErrorView::Carrier(e)),
                Ok(_) => match crate::textures::pooled_materials(
                    all.references,
                    crate::workspace::source_views(files@),
                    capacity,
                ) {
                    Err(e) => Err(PreparationErrorView::Texture(e)),
                    Ok((textures, taken)) => Ok(
                        MaterialPlanView {
                            places: all.places,
                            textures,
                            outputs: crate::textures::texture_files(taken),
                            meshes: crate::text::texts(descriptor.meshes@),
                            command_meshes: crate::text::texts(command.meshes@),
                        },
                    ),
                },
            },
        }
    }
}

/// What the descriptors and the materials of a model come to. Both descriptors and the model's own
/// materials can be read.
pub open spec fn checked_materials(
    files: SortedMap<String, AssetSource>,
    selection: Seq<(Seq<char>, crate::workspace::SourceView)>,
    contents: CostumeContents,
    capacity: usize,
) -> Result<MaterialPlanView, PreparationErrorView> {
    match picked(selection, "model.numdlb"@) {
        Err(e) => Err(e),
        Ok(first) => if !contents.descriptors@.contains_key(first.path) {
            Err(PreparationErrorView::Unreadable(first.path))
        } else {
            match picked(selection, "model.nusrcmdlb"@) {
                Err(e) => Err(e),
                Ok(second) => if !contents.descriptors@.contains_key(second.path) {
                    Err(PreparationErrorView::Unreadable(second.path))
                } else {
                    match picked(selection, "model.numatb"@) {
                        Err(e) => Err(e),
                        Ok(third) => if !contents.materials@.contains_key(third.path) {
                            Err(PreparationErrorView::Unreadable(third.path))
                        } else {
                            described(
                                files,
                                contents.materials@,
                                third.path,
                                contents.materials@[third.path]@,
                                contents.descriptors@[first.path],
                                contents.descriptors@[second.path],
                                capacity,
                            )
                        },
                    }
                },
            }
        },
    }
}

fn describe<'a>(
    files: &SortedMap<String, AssetSource>,
    materials: &SortedMap<String, Vec<Material>>,
    path: &String,
    own: &Vec<Material>,
    descriptor: &'a Descriptor,
    command: &'a Descriptor,
    capacity: usize,
) -> (plan: Result<MaterialPlan<'a>, PreparationError>)
    requires
        files.wf(),
        materials.wf(),
    ensures
        match described(*files, materials@, path@, own@, *descriptor, *command, capacity) {
            Ok(p) => plan is Ok && plan->Ok_0@ == p,
            Err(e) => plan is Err && plan->Err_0@ == e,
        },
{
    match check_materials(&label_list(own)) {
        Ok(_) => {},
        Err(e) => {
            return Err(PreparationError::Carrier(e));
        },
    }
    let merge = merge_materials(files, materials, path, own);
    match check_descriptor(
        "model.numdlb",
        descriptor.material_files,
        &descriptor.materials,
        &merge.known,
    ) {
        Ok(_) => {},
        Err(e) => {
            return Err(PreparationError::Carrier(e));
        },
    }
    match check_descriptor(
        "model.nusrcmdlb",
        command.material_files,
        &command.materials,
        &merge.known,
    ) {
        Ok(_) => {},
        Err(e) => {
            return Err(PreparationError::Carrier(e));
        },
    }
    match carrier_texture_outputs(&merge.references, files, capacity) {
        Ok(textures) => Ok(
            MaterialPlan {
                places: merge.places,
                textures: textures.materials,
                outputs: textures.outputs,
                meshes: &descriptor.meshes,
                command_meshes: &command.meshes,
            },
        ),
        Err(e) => Err(PreparationError::Texture(e)),
    }
}

/// What the descriptors and the materials of a model come to.
pub fn check_costume_materials<'a>(
    files: &SortedMap<String, AssetSource>,
    selection: &Vec<SelectedFile>,
    contents: &'a CostumeContents,
    capacity: usize,
) -> (plan: Result<MaterialPlan<'a>, PreparationError>)
    requires
        files.wf(),
        contents.wf(),
    ensures
        match checked_materials(
            *files,
            crate::carrier::selected_views(selection@),
            *contents,
            capacity,
        ) {
            Ok(p) => plan is Ok && plan->Ok_0@ == p,
            Err(e) => plan is Err && plan->Err_0@ == e,
        },
{
    let first = match pick(selection, "model.numdlb") {
        Ok(source) => source,
        Err(e) => {
            return Err(e);
        },
    };
    let descriptor = match contents.descriptors.get(&first.path) {
        Some(descriptor) => descriptor,
        None => {
            return Err(PreparationError::Unreadable(first.path));
        },
    };
    let second = match pick(selection, "model.nusrcmdlb") {
        Ok(source) => source,
        Err(e) => {
            return Err(e);
        },
    };
    let command = match contents.descriptors.get(&second.path) {
        Some(descriptor) => descriptor,
        None => {
            return Err(PreparationError::Unreadable(second.path));
        },
    };
    let third = match pick(selection, "model.numatb") {
        Ok(source) => source,
        Err(e) => {
            return Err(e);
        },
    };
    let own = match contents.materials.get(&third.path) {
        Some(own) => own,
        None => {
            return Err(PreparationError::Unreadable(third.path));
        },
    };
    describe(files, &contents.materials, &third.path, own, descriptor, command, capacity)
}

// ── The motions ──────────────────────────────────────────────────────────────

/// The animation at `path` can be read, and fits the bones.
pub open spec fn checked_moves(
    name: Seq<char>,
    path: Seq<char>,
    animations: Map<Seq<char>, Vec<NodeGroup>>,
    bones: Seq<Seq<char>>,
) -> Result<(), PreparationErrorView> {
    if animations.contains_key(path) {
        match crate::carrier::bones_check(
            name,
            crate::carrier::moved_nodes(animations[path]@),
            bones,
        ) {
            Err(e) => Err(PreparationErrorView::Carrier(e)),
            Ok(_) => Ok(()),
        }
    } else {
        Err(PreparationErrorView::Unreadable(path))
    }
}

fn check_moves(
    name: &str,
    path: &String,
    animations: &SortedMap<String, Vec<NodeGroup>>,
    bones: &Vec<String>,
) -> (result: Result<(), PreparationError>)
    requires
        animations.wf(),
    ensures
        match checked_moves(name@, path@, animations@, crate::text::texts(bones@)) {
            Ok(_) => result is Ok,
            Err(e) => result is Err && result->Err_0@ == e,
        },
{
    match animations.get(path) {
        None => Err(PreparationError::Unreadable(path.clone())),
        Some(groups) => match validate_animation_bones(name, groups, bones) {
            Ok(_) => Ok(()),
            Err(e) => Err(PreparationError::Carrier(e)),
        },
    }
}

/// Some file of the workspace is at `path`.
pub open spec fn is_own(
    own: Seq<(Seq<char>, crate::workspace::SourceView)>,
    path: Seq<char>,
) -> bool {
    exists|i: int| 0 <= i < own.len() && (#[trigger] own[i]).1.path == path
}

fn has_path(own: &SortedMap<String, AssetSource>, path: &String) -> (b: bool)
    requires
        own.wf(),
    ensures
        b == is_own(crate::motions::entry_list(*own), path@),
{
    let ghost all = crate::motions::entry_list(*own);
    let mut i: usize = 0;
    while i < own.len()
        invariant
            own.wf(),
            all == crate::motions::entry_list(*own),
            i <= all.len(),
            forall|j: int| 0 <= j < i ==> (#[trigger] all[j]).1.path != path@,
        decreases all.len() - i,
    {
        assert(all[i as int].1 == own.value_list()[i as int]@);
        if same_text(own.value_at(i).path.as_str(), path.as_str()) {
            return true;
        }
        i += 1;
    }
    false
}

/// Every animation of the motion graph has a size that a preview may hold, and can be read. Those
/// of the workspace fit the bones: the fighter's own may move more than its body.
pub open spec fn checked_pool(
    files: Seq<(Seq<char>, crate::workspace::SourceView)>,
    own: Seq<(Seq<char>, crate::workspace::SourceView)>,
    animations: Map<Seq<char>, Vec<NodeGroup>>,
    bones: Seq<Seq<char>>,
) -> Result<(), PreparationErrorView>
    decreases files.len(),
{
    if files.len() == 0 {
        Ok(())
    } else {
        match checked_pool(files.drop_last(), own, animations, bones) {
            Err(e) => Err(e),
            Ok(_) => {
                let (name, source) = files.last();
                match crate::carrier::sized(source.len, name) {
                    Err(e) => Err(PreparationErrorView::Carrier(e)),
                    Ok(_) => if is_own(own, source.path) {
                        checked_moves(name, source.path, animations, bones)
                    } else if animations.contains_key(source.path) {
                        Ok(())
                    } else {
                        Err(PreparationErrorView::Unreadable(source.path))
                    },
                }
            },
        }
    }
}

proof fn lemma_pool_error(
    files: Seq<(Seq<char>, crate::workspace::SourceView)>,
    own: Seq<(Seq<char>, crate::workspace::SourceView)>,
    animations: Map<Seq<char>, Vec<NodeGroup>>,
    bones: Seq<Seq<char>>,
    k: int,
)
    requires
        0 <= k <= files.len(),
    ensures
        checked_pool(files.take(k), own, animations, bones) is Err ==> checked_pool(
            files,
            own,
            animations,
            bones,
        ) == checked_pool(files.take(k), own, animations, bones),
    decreases files.len(),
{
    if k == files.len() {
        assert(files.take(k) =~= files);
    } else {
        lemma_pool_error(files.drop_last(), own, animations, bones, k);
        assert(files.drop_last().take(k) =~= files.take(k));
    }
}

fn check_pool(
    files: &Vec<(String, AssetSource)>,
    own: &SortedMap<String, AssetSource>,
    animations: &SortedMap<String, Vec<NodeGroup>>,
    bones: &Vec<String>,
) -> (result: Result<(), PreparationError>)
    requires
        own.wf(),
        animations.wf(),
    ensures
        match checked_pool(
            crate::motions::pooled_files(files@),
            crate::motions::entry_list(*own),
            animations@,
            crate::text::texts(bones@),
        ) {
            Ok(_) => result is Ok,
            Err(e) => result is Err && result->Err_0@ == e,
        },
{
    let ghost all = crate::motions::pooled_files(files@);
    let ghost owned = crate::motions::entry_list(*own);
    let ghost rig = crate::text::texts(bones@);
    let mut i: usize = 0;
    assert(all.take(0).len() == 0);
    while i < files.len()
        invariant
            own.wf(),
            animations.wf(),
            i <= files@.len(),
            all == crate::motions::pooled_files(files@),
            owned == crate::motions::entry_list(*own),
            rig == crate::text::texts(bones@),
            checked_pool(all.take(i as int), owned, animations@, rig) is Ok,
        decreases files@.len() - i,
    {
        proof {
            assert(all.take(i + 1).drop_last() =~= all.take(i as int));
            assert(all.take(i + 1).last() == (files@[i as int].0@, files@[i as int].1@));
            lemma_pool_error(all, owned, animations@, rig, i + 1);
        }
        let source = &files[i].1;
        match checked_asset_size(source.len, files[i].0.as_str()) {
            Ok(_) => {},
            Err(e) => {
                return Err(PreparationError::Carrier(e));
            },
        }
        if has_path(own, &source.path) {
            match check_moves(files[i].0.as_str(), &source.path, animations, bones) {
                Ok(_) => {},
                Err(e) => {
                    return Err(e);
                },
            }
        } else if !animations.contains_key(&source.path) {
            return Err(PreparationError::Unreadable(source.path.clone()));
        }
        i += 1;
    }
    assert(all.take(i as int) =~= all);
    Ok(())
}

/// The motion graph of a costume: its motions, and the files that go into the pool.
pub open spec fn costume_graph(
    motion: SortedMap<String, AssetSource>,
    lists: Map<Seq<char>, Vec<MotionEntry>>,
    capacity: usize,
) -> Result<
    (Seq<crate::motions::MotionView>, Seq<(Seq<char>, crate::workspace::SourceView)>),
    PreparationErrorView,
> {
    let files = crate::workspace::source_views(motion@);
    if !files.contains_key("motion_list.bin"@) {
        Err(PreparationErrorView::Motion(MotionError::NoMotionList))
    } else {
        let path = files["motion_list.bin"@].path;
        if !lists.contains_key(path) {
            Err(PreparationErrorView::Unreadable(path))
        } else {
            match crate::motions::prepared(
                crate::motions::entry_list(motion),
                true,
                crate::motions::motion_views(lists[path]@),
                capacity,
            ) {
                Err(e) => Err(PreparationErrorView::Motion(e)),
                Ok((motions, taken)) => Ok((motions, crate::motions::with_pool_names(taken))),
            }
        }
    }
}

fn build_graph(
    motion: &SortedMap<String, AssetSource>,
    lists: &SortedMap<String, Vec<MotionEntry>>,
    pool: &ResourcePool,
) -> (graph: Result<PreparedMotions, PreparationError>)
    requires
        motion.wf(),
        lists.wf(),
    ensures
        match costume_graph(*motion, lists@, pool.motion_capacity) {
            Ok((motions, files)) => graph is Ok && crate::motions::motion_views(
                graph->Ok_0.list@,
            ) == motions && crate::motions::pooled_files(graph->Ok_0.files@) == files
                && graph->Ok_0.motion_path == crate::motions::hash40_of(pool.motion_root@),
            Err(e) => graph is Err && graph->Err_0@ == e,
        },
{
    let source = match motion.get(&"motion_list.bin".to_owned()) {
        Some(source) => source,
        None => {
            return Err(PreparationError::Motion(MotionError::NoMotionList));
        },
    };
    let list = match lists.get(&source.path) {
        Some(list) => list,
        None => {
            return Err(PreparationError::Unreadable(source.path.clone()));
        },
    };
    match prepare(motion, list, pool) {
        Ok(motions) => Ok(motions),
        Err(e) => Err(PreparationError::Motion(e)),
    }
}

/// The motions of a preview: the one that is shown, all of them, and the files of the pool.
#[verifier::ext_equal]
pub struct MotionPlanView {
    pub shown: Seq<char>,
    pub motions: Seq<crate::motions::MotionView>,
    pub files: Seq<(Seq<char>, crate::workspace::SourceView)>,
}

/// The shown motion has a size that a preview may hold. It and the model's own animation fit the
/// bones.
pub open spec fn checked_shown(
    shown: Seq<char>,
    motion: Map<Seq<char>, crate::workspace::SourceView>,
    selection: Seq<(Seq<char>, crate::workspace::SourceView)>,
    animations: Map<Seq<char>, Vec<NodeGroup>>,
    bones: Seq<Seq<char>>,
) -> Result<(), PreparationErrorView> {
    match crate::carrier::sized(motion[shown].len, shown) {
        Err(e) => Err(PreparationErrorView::Carrier(e)),
        Ok(_) => match checked_moves(shown, motion[shown].path, animations, bones) {
            Err(e) => Err(e),
            Ok(_) => match crate::carrier::selected_source(selection, "model.nuanmb"@, 0) {
                None => Ok(()),
                Some(source) => checked_moves(
                    "model.nuanmb"@,
                    source.path,
                    animations,
                    bones,
                ),
            },
        },
    }
}

/// What the motions of a costume come to.
pub open spec fn checked_motions(
    choice: Option<Seq<char>>,
    motion: SortedMap<String, AssetSource>,
    own: SortedMap<String, AssetSource>,
    selection: Seq<(Seq<char>, crate::workspace::SourceView)>,
    contents: CostumeContents,
    bones: Seq<Seq<char>>,
    capacity: usize,
) -> Result<MotionPlanView, PreparationErrorView> {
    match crate::carrier::shown_motion(choice, motion.key_list()) {
        Err(e) => Err(PreparationErrorView::Carrier(e)),
        Ok(shown) => match checked_shown(
            shown,
            crate::workspace::source_views(motion@),
            selection,
            contents.animations@,
            bones,
        ) {
            Err(e) => Err(e),
            Ok(_) => match costume_graph(motion, contents.motion_lists@, capacity) {
                Err(e) => Err(e),
                Ok((motions, files)) => match checked_pool(
                    files,
                    crate::motions::entry_list(own),
                    contents.animations@,
                    bones,
                ) {
                    Err(e) => Err(e),
                    Ok(_) => Ok(MotionPlanView { shown, motions, files }),
                },
            },
        },
    }
}

fn check_shown(
    shown: &String,
    motion: &SortedMap<String, AssetSource>,
    selection: &Vec<SelectedFile>,
    animations: &SortedMap<String, Vec<NodeGroup>>,
    bones: &Vec<String>,
) -> (result: Result<(), PreparationError>)
    requires
        motion.wf(),
        motion@.contains_key(shown@),
        animations.wf(),
    ensures
        match checked_shown(
            shown@,
            crate::workspace::source_views(motion@),
            crate::carrier::selected_views(selection@),
            animations@,
            crate::text::texts(bones@),
        ) {
            Ok(_) => result is Ok,
            Err(e) => result is Err && result->Err_0@ == e,
        },
{
    match motion.get(shown) {
        Some(source) => {
            match checked_asset_size(source.len, shown.as_str()) {
                Ok(_) => {},
                Err(e) => {
                    return Err(PreparationError::Carrier(e));
                },
            }
            match check_moves(shown.as_str(), &source.path, animations, bones) {
                Ok(_) => {},
                Err(e) => {
                    return Err(e);
                },
            }
        },
        None => {},
    }
    match find_selected(selection, "model.nuanmb") {
        Some(source) => check_moves("model.nuanmb", &source.path, animations, bones),
        None => Ok(()),
    }
}

/// What the motions of a costume come to: the motion that is shown, and the graph.
pub fn check_costume_motions(
    choice: Option<&str>,
    costume: &Costume,
    selection: &Vec<SelectedFile>,
    contents: &CostumeContents,
    bones: &Vec<String>,
    pool: &ResourcePool,
) -> (plan: Result<(String, PreparedMotions), PreparationError>)
    requires
        costume.wf(),
        contents.wf(),
    ensures
        match checked_motions(
            match choice {
                Some(text) => Some(text@),
                None => None,
            },
            costume.motion,
            costume.own_motion,
            crate::carrier::selected_views(selection@),
            *contents,
            crate::text::texts(bones@),
            pool.motion_capacity,
        ) {
            Ok(p) => plan is Ok && plan->Ok_0.0@ == p.shown && crate::motions::motion_views(
                plan->Ok_0.1.list@,
            ) == p.motions && crate::motions::pooled_files(plan->Ok_0.1.files@) == p.files
                && plan->Ok_0.1.motion_path == crate::motions::hash40_of(pool.motion_root@),
            Err(e) => plan is Err && plan->Err_0@ == e,
        },
        plan matches Ok((shown, _)) ==> costume.motion@.contains_key(shown@),
{
    let shown = match choose_motion(choice, &costume.motion) {
        Ok(name) => name,
        Err(e) => {
            return Err(PreparationError::Carrier(e));
        },
    };
    proof {
        costume.motion.lemma_lists();
        assert(costume.motion.key_list().to_set().contains(shown@));
        assert(costume.motion@.contains_key(shown@));
    }
    match check_shown(&shown, &costume.motion, selection, &contents.animations, bones) {
        Ok(_) => {},
        Err(e) => {
            return Err(e);
        },
    }
    let graph = match build_graph(&costume.motion, &contents.motion_lists, pool) {
        Ok(graph) => graph,
        Err(e) => {
            return Err(e);
        },
    };
    match check_pool(&graph.files, &costume.own_motion, &contents.animations, bones) {
        Ok(_) => Ok((shown, graph)),
        Err(e) => Err(e),
    }
}

// ── The parameters ───────────────────────────────────────────────────────────

/// The parameter file, where there is one, has a size that a preview may hold and can be read.
pub open spec fn checked_parameters(
    motion: Map<Seq<char>, crate::workspace::SourceView>,
    name: Seq<char>,
    parameters: Map<Seq<char>, ()>,
) -> Result<(), PreparationErrorView> {
    if !motion.contains_key(name) {
        Ok(())
    } else {
        match crate::carrier::sized(motion[name].len, name) {
            Err(e) => Err(PreparationErrorView::Carrier(e)),
            Ok(_) => if parameters.contains_key(motion[name].path) {
                Ok(())
            } else {
                Err(PreparationErrorView::Unreadable(motion[name].path))
            },
        }
    }
}

fn check_parameters(
    motion: &SortedMap<String, AssetSource>,
    name: &str,
    parameters: &SortedMap<String, ()>,
) -> (result: Result<(), PreparationError>)
    requires
        motion.wf(),
        parameters.wf(),
    ensures
        match checked_parameters(
            crate::workspace::source_views(motion@),
            name@,
            parameters@,
        ) {
            Ok(_) => result is Ok,
            Err(e) => result is Err && result->Err_0@ == e,
        },
{
    match motion.get(&name.to_owned()) {
        Some(source) => {
            match checked_asset_size(source.len, name) {
                Ok(_) => {},
                Err(e) => {
                    return Err(PreparationError::Carrier(e));
                },
            }
            if parameters.contains_key(&source.path) {
                Ok(())
            } else {
                Err(PreparationError::Unreadable(source.path.clone()))
            }
        },
        None => Ok(()),
    }
}

// ── The sizes ────────────────────────────────────────────────────────────────

/// The sizes of files.
pub open spec fn sizes_of(files: Seq<(Seq<char>, crate::workspace::SourceView)>) -> Seq<u64> {
    Seq::new(files.len(), |i: int| files[i].1.len)
}

/// The size of a file, if there is such a file.
pub open spec fn size_at(
    motion: Map<Seq<char>, crate::workspace::SourceView>,
    name: Seq<char>,
) -> Seq<u64> {
    if motion.contains_key(name) {
        seq![motion[name].len]
    } else {
        Seq::empty()
    }
}

/// The sizes of everything that a preview is made of.
pub open spec fn source_sizes(
    selection: Seq<(Seq<char>, crate::workspace::SourceView)>,
    textures: Seq<(Seq<char>, crate::workspace::SourceView)>,
    files: Seq<(Seq<char>, crate::workspace::SourceView)>,
    motion: Map<Seq<char>, crate::workspace::SourceView>,
) -> Seq<u64> {
    sizes_of(selection) + sizes_of(textures) + sizes_of(files) + size_at(motion, "swing.prc"@)
        + size_at(motion, "swingblend.prc"@) + size_at(motion, "ik.prc"@)
}

fn add_sizes(sizes: &mut Vec<u64>, files: &Vec<(String, AssetSource)>)
    ensures
        final(sizes)@ == old(sizes)@ + sizes_of(crate::motions::pooled_files(files@)),
{
    let ghost start = sizes@;
    let ghost more = sizes_of(crate::motions::pooled_files(files@));
    let mut i: usize = 0;
    assert(sizes@ =~= start + more.take(0));
    while i < files.len()
        invariant
            i <= files@.len(),
            more == sizes_of(crate::motions::pooled_files(files@)),
            sizes@ == start + more.take(i as int),
        decreases files@.len() - i,
    {
        sizes.push(files[i].1.len);
        assert(more[i as int] == files@[i as int].1@.len);
        assert(sizes@ =~= start + more.take(i + 1));
        i += 1;
    }
    assert(more.take(i as int) =~= more);
}

fn add_size(sizes: &mut Vec<u64>, motion: &SortedMap<String, AssetSource>, name: &str)
    requires
        motion.wf(),
    ensures
        final(sizes)@ == old(sizes)@ + size_at(crate::workspace::source_views(motion@), name@),
{
    let ghost start = sizes@;
    match motion.get(&name.to_owned()) {
        Some(source) => {
            sizes.push(source.len);
            assert(crate::workspace::source_views(motion@)[name@].len == source.len);
            assert(sizes@ =~= start + seq![source.len]);
        },
        None => {
            assert(sizes@ =~= start + Seq::<u64>::empty());
        },
    }
}

fn list_sizes(
    selection: &Vec<SelectedFile>,
    textures: &Vec<(String, AssetSource)>,
    files: &Vec<(String, AssetSource)>,
    motion: &SortedMap<String, AssetSource>,
) -> (sizes: Vec<u64>)
    requires
        motion.wf(),
    ensures
        sizes@ == source_sizes(
            crate::carrier::selected_views(selection@),
            crate::motions::pooled_files(textures@),
            crate::motions::pooled_files(files@),
            crate::workspace::source_views(motion@),
        ),
{
    let ghost model = sizes_of(crate::carrier::selected_views(selection@));
    let mut sizes: Vec<u64> = Vec::new();
    let mut i: usize = 0;
    while i < selection.len()
        invariant
            i <= selection@.len(),
            model == sizes_of(crate::carrier::selected_views(selection@)),
            sizes@ == model.take(i as int),
        decreases selection@.len() - i,
    {
        sizes.push(selection[i].source.len);
        assert(model[i as int] == selection@[i as int].source@.len);
        assert(sizes@ =~= model.take(i + 1));
        i += 1;
    }
    assert(model.take(i as int) =~= model);
    add_sizes(&mut sizes, textures);
    add_sizes(&mut sizes, files);
    add_size(&mut sizes, motion, "swing.prc");
    add_size(&mut sizes, motion, "swingblend.prc");
    add_size(&mut sizes, motion, "ik.prc");
    sizes
}

/// The names that a descriptor of the preview gives to its files.
#[derive(Debug, Clone, Copy, PartialEq, Eq)]
pub struct DescriptorNames {
    pub model: &'static str,
    pub skeleton: &'static str,
    pub materials: &'static str,
    pub animation: &'static str,
    pub mesh: &'static str,
}

/// The names under which the files of a preview stand, however those of the workspace were named.
pub fn descriptor_names() -> (names: DescriptorNames)
    ensures
        names.model@ == "model"@,
        names.skeleton@ == "model.nusktb"@,
        names.materials@ == "model.numatb"@,
        names.animation@ == "model.nuanmb"@,
        names.mesh@ == "model.numshb"@,
{
    DescriptorNames {
        model: "model",
        skeleton: "model.nusktb",
        materials: "model.numatb",
        animation: "model.nuanmb",
        mesh: "model.numshb",
    }
}

// ── The meshes ───────────────────────────────────────────────────────────────

/// The entries that are kept where far-range meshes are left out, by position.
#[derive(Debug)]
pub struct MeshCut {
    /// Of the mesh file.
    pub meshes: Vec<usize>,
    /// Of the further descriptions of meshes.
    pub groups: Vec<usize>,
    /// Of the descriptor.
    pub descriptor: Vec<usize>,
    /// Of the command descriptor.
    pub command: Vec<usize>,
    /// How many meshes are left out.
    pub left_out: usize,
}

#[verifier::ext_equal]
pub struct CutView {
    pub meshes: Seq<int>,
    pub groups: Seq<int>,
    pub descriptor: Seq<int>,
    pub command: Seq<int>,
    pub left_out: int,
}

/// Positions as mathematical integers.
pub open spec fn positions(list: Seq<usize>) -> Seq<int> {
    Seq::new(list.len(), |i: int| list[i] as int)
}

impl View for MeshCut {
    type V = CutView;

    open spec fn view(&self) -> CutView {
        CutView {
            meshes: positions(self.meshes@),
            groups: positions(self.groups@),
            descriptor: positions(self.descriptor@),
            command: positions(self.command@),
            left_out: self.left_out as int,
        }
    }
}

/// What is left out of the meshes: only where both mesh files can be read, and some mesh is a
/// far-range one. Else all files stay as they are.
pub open spec fn mesh_cut(
    meshes: Option<Seq<Seq<char>>>,
    groups: Option<Seq<Seq<char>>>,
    descriptor: Seq<Seq<char>>,
    command: Seq<Seq<char>>,
) -> Option<CutView> {
    match (meshes, groups) {
        (Some(names), Some(described)) => if crate::carrier::near_range(names).len()
            < names.len() {
            Some(
                CutView {
                    meshes: crate::carrier::near_range(names),
                    groups: crate::carrier::near_range(described),
                    descriptor: crate::carrier::near_range(descriptor),
                    command: crate::carrier::near_range(command),
                    left_out: names.len() - crate::carrier::near_range(names).len(),
                },
            )
        } else {
            None
        },
        _ => None,
    }
}

/// The names that are listed for the file selected as `canonical`.
pub open spec fn names_selected(
    lists: Map<Seq<char>, Vec<String>>,
    selection: Seq<(Seq<char>, crate::workspace::SourceView)>,
    canonical: Seq<char>,
) -> Option<Seq<Seq<char>>> {
    match crate::carrier::selected_source(selection, canonical, 0) {
        Some(source) => names_at(lists, source.path),
        None => None,
    }
}

fn find_names<'a>(
    lists: &'a SortedMap<String, Vec<String>>,
    selection: &Vec<SelectedFile>,
    canonical: &str,
) -> (names: Option<&'a Vec<String>>)
    requires
        lists.wf(),
    ensures
        match names_selected(lists@, crate::carrier::selected_views(selection@), canonical@) {
            Some(list) => names is Some && crate::text::texts(names->Some_0@) == list,
            None => names is None,
        },
{
    match find_selected(selection, canonical) {
        Some(source) => lists.get(&source.path),
        None => None,
    }
}

fn cut_meshes(
    selection: &Vec<SelectedFile>,
    contents: &CostumeContents,
    descriptor: &Vec<String>,
    command: &Vec<String>,
) -> (cut: Option<MeshCut>)
    requires
        contents.wf(),
    ensures
        match mesh_cut(
            names_selected(
                contents.meshes@,
                crate::carrier::selected_views(selection@),
                "model.numshb"@,
            ),
            names_selected(
                contents.mesh_groups@,
                crate::carrier::selected_views(selection@),
                "model.numshexb"@,
            ),
            crate::text::texts(descriptor@),
            crate::text::texts(command@),
        ) {
            Some(c) => cut is Some && cut->Some_0@ == c,
            None => cut is None,
        },
{
    let names = match find_names(&contents.meshes, selection, "model.numshb") {
        Some(names) => names,
        None => {
            return None;
        },
    };
    let described = match find_names(&contents.mesh_groups, selection, "model.numshexb") {
        Some(names) => names,
        None => {
            return None;
        },
    };
    let (meshes, left_out) = strip_low_lod_entries(names);
    assert(positions(meshes@).len() == meshes@.len());
    if left_out == 0 {
        return None;
    }
    let (groups, _) = strip_low_lod_entries(described);
    let (kept, _) = strip_low_lod_entries(descriptor);
    let (kept_command, _) = strip_low_lod_entries(command);
    Some(MeshCut { meshes, groups, descriptor: kept, command: kept_command, left_out })
}

// ── The preview ──────────────────────────────────────────────────────────────

/// A preview that can be written.
pub struct CarrierPlan {
    /// The materials: where each is defined, and its textures.
    pub materials: Vec<MaterialPlace>,
    pub textures: Vec<Vec<String>>,
    /// The motion graph.
    pub motions: PreparedMotions,
    /// What is left out of the meshes.
    pub cut: Option<MeshCut>,
    /// The files, in the order in which they are written.
    pub files: Vec<PlannedFile>,
    /// The motion files that the workspace did not provide.
    pub vanilla_motion_used: Vec<String>,
    /// There was no `swing.prc` anywhere.
    pub omitted_swing: bool,
}

#[verifier::ext_equal]
pub struct CarrierPlanView {
    pub materials: Seq<(Seq<char>, int)>,
    pub textures: Seq<Seq<Seq<char>>>,
    pub motions: Seq<crate::motions::MotionView>,
    pub motion_files: Seq<(Seq<char>, crate::workspace::SourceView)>,
    pub motion_path: u64,
    pub cut: Option<CutView>,
    pub files: Seq<crate::carrier::PlannedView>,
    pub vanilla_motion_used: Seq<Seq<char>>,
    pub omitted_swing: bool,
}

/// The view of what is left out.
pub open spec fn cut_view(cut: Option<MeshCut>) -> Option<CutView> {
    match cut {
        Some(c) => Some(c@),
        None => None,
    }
}

impl View for CarrierPlan {
    type V = CarrierPlanView;

    open spec fn view(&self) -> CarrierPlanView {
        CarrierPlanView {
            materials: place_views(self.materials@),
            textures: crate::textures::reference_views(self.textures@),
            motions: crate::motions::motion_views(self.motions.list@),
            motion_files: crate::motions::pooled_files(self.motions.files@),
            motion_path: self.motions.motion_path,
            cut: cut_view(self.cut),
            files: crate::carrier::planned_views(self.files@),
            vanilla_motion_used: crate::text::texts(self.vanilla_motion_used@),
            omitted_swing: self.omitted_swing,
        }
    }
}

/// What is written once the model, its materials and its motions are known: nothing, if a
/// parameter file does not fit or everything together is too large.
pub open spec fn finished(
    costume: Costume,
    selection: Seq<(Seq<char>, crate::workspace::SourceView)>,
    contents: CostumeContents,
    materials: MaterialPlanView,
    motions: MotionPlanView,
    pool: ResourcePool,
) -> Result<CarrierPlanView, PreparationErrorView> {
    let motion = crate::workspace::source_views(costume.motion@);
    match checked_parameters(motion, "swing.prc"@, contents.parameters@) {
        Err(e) => Err(e),
        Ok(_) => match checked_parameters(motion, "swingblend.prc"@, contents.parameters@) {
            Err(e) => Err(e),
            Ok(_) => match checked_parameters(motion, "ik.prc"@, contents.parameters@) {
                Err(e) => Err(e),
                Ok(_) => match crate::carrier::total_size(
                    source_sizes(selection, materials.outputs, motions.files, motion),
                    "carrier source"@,
                ) {
                    Err(e) => Err(PreparationErrorView::Carrier(e)),
                    Ok(_) => {
                        let cut = mesh_cut(
                            names_selected(contents.meshes@, selection, "model.numshb"@),
                            names_selected(contents.mesh_groups@, selection, "model.numshexb"@),
                            materials.meshes,
                            materials.command_meshes,
                        );
                        Ok(
                            CarrierPlanView {
                                materials: materials.places,
                                textures: materials.textures,
                                motions: motions.motions,
                                motion_files: motions.files,
                                motion_path: crate::motions::hash40_of(pool.motion_root@),
                                cut,
                                files: crate::carrier::bundle_plan(
                                    selection,
                                    cut is Some,
                                    materials.outputs,
                                    motions.files,
                                    motion,
                                ),
                                vanilla_motion_used: crate::carrier::filled_in(
                                    motions.shown,
                                    costume.motion@,
                                    costume.own_motion@,
                                ),
                                omitted_swing: !motion.contains_key("swing.prc"@),
                            },
                        )
                    },
                },
            },
        },
    }
}

/// The preview of a costume.
pub open spec fn preview(
    costume: Costume,
    choice: Option<Seq<char>>,
    contents: CostumeContents,
    pool: ResourcePool,
) -> Result<CarrierPlanView, PreparationErrorView> {
    match crate::carrier::model_selection(costume.model) {
        Err(e) => Err(PreparationErrorView::Carrier(e)),
        Ok(selection) => match checked_rig(
            costume@.vanilla_skeleton,
            selection,
            contents.skeletons@,
        ) {
            Err(e) => Err(e),
            Ok(bones) => match checked_materials(
                costume.model,
                selection,
                contents,
                pool.texture_capacity,
            ) {
                Err(e) => Err(e),
                Ok(materials) => match checked_motions(
                    choice,
                    costume.motion,
                    costume.own_motion,
                    selection,
                    contents,
                    bones,
                    pool.motion_capacity,
                ) {
                    Err(e) => Err(e),
                    Ok(motions) => finished(
                        costume,
                        selection,
                        contents,
                        materials,
                        motions,
                        pool,
                    ),
                },
            },
        },
    }
}

/// Prepares the preview of a costume, or says why there is none: the first reason in the order in
/// which its parts are looked at.
pub fn prepare_carrier_assets(
    costume: &Costume,
    selected_animation: Option<&str>,
    contents: &CostumeContents,
    pool: &ResourcePool,
) -> (plan: Result<CarrierPlan, PreparationError>)
    requires
        costume.wf(),
        contents.wf(),
    ensures
        match preview(
            *costume,
            match selected_animation {
                Some(text) => Some(text@),
                None => None,
            },
            *contents,
            *pool,
        ) {
            Ok(p) => plan is Ok && plan->Ok_0@ == p,
            Err(e) => plan is Err && plan->Err_0@ == e,
        },
{
    let selection = match select_model(&costume.model) {
        Ok(selection) => selection,
        Err(e) => {
            return Err(PreparationError::Carrier(e));
        },
    };
    let bones = match check_costume_rig(&costume.vanilla_skeleton, &selection, contents) {
        Ok(bones) => bones,
        Err(e) => {
            return Err(e);
        },
    };
    let materials = match check_costume_materials(
        &costume.model,
        &selection,
        contents,
        pool.texture_capacity,
    ) {
        Ok(materials) => materials,
        Err(e) => {
            return Err(e);
        },
    };
    let (shown, motions) = match check_costume_motions(
        selected_animation,
        costume,
        &selection,
        contents,
        bones,
        pool,
    ) {
        Ok(plan) => plan,
        Err(e) => {
            return Err(e);
        },
    };
    match check_parameters(&costume.motion, "swing.prc", &contents.parameters) {
        Ok(_) => {},
        Err(e) => {
            return Err(e);
        },
    }
    match check_parameters(&costume.motion, "swingblend.prc", &contents.parameters) {
        Ok(_) => {},
        Err(e) => {
            return Err(e);
        },
    }
    match check_parameters(&costume.motion, "ik.prc", &contents.parameters) {
        Ok(_) => {},
        Err(e) => {
            return Err(e);
        },
    }
    let sizes = list_sizes(&selection, &materials.outputs, &motions.files, &costume.motion);
    match source_total(&sizes) {
        Ok(_) => {},
        Err(e) => {
            return Err(PreparationError::Carrier(e));
        },
    }
    let cut = cut_meshes(&selection, contents, materials.meshes, materials.command_meshes);
    let files = plan_bundle(
        &selection,
        cut.is_some(),
        &materials.outputs,
        &motions.files,
        &costume.motion,
    );
    let used = vanilla_motion_used(shown.as_str(), &costume.motion, &costume.own_motion);
    let omitted_swing = !costume.motion.contains_key(&"swing.prc".to_owned());
    Ok(
        CarrierPlan {
            materials: materials.places,
            textures: materials.textures,
            motions,
            cut,
            files,
            vanilla_motion_used: used,
            omitted_swing,
        },
    )
}

// ── Laws ─────────────────────────────────────────────────────────────────────

proof fn lemma_none_absent(names: Seq<Seq<char>>, known: Seq<Seq<char>>, i: int)
    requires
        crate::carrier::absent(names, known).len() == 0,
        0 <= i < names.len(),
    ensures
        known.contains(names[i]),
    decreases names.len(),
{
    if i < names.len() - 1 {
        lemma_none_absent(names.drop_last(), known, i);
        assert(names.drop_last()[i] == names[i]);
    }
}

/// A rig that lacks a bone of the fighter never gets as far as a preview: where the fighter's own
/// model folder is at hand, its skeleton was read, and the model has every bone of it.
pub proof fn law_preview_has_the_fighters_bones(
    costume: Costume,
    choice: Option<Seq<char>>,
    contents: CostumeContents,
    pool: ResourcePool,
    path: Seq<char>,
    i: int,
)
    requires
        preview(costume, choice, contents, pool) is Ok,
        costume@.vanilla_skeleton == Some(path),
    ensures
        ({
            let selection = crate::carrier::model_selection(costume.model)->Ok_0;
            let source = picked(selection, "model.nusktb"@);
            let vanilla = names_at(contents.skeletons@, path);
            &&& source is Ok
            &&& names_at(contents.skeletons@, source->Ok_0.path) is Some
            &&& vanilla is Some
            &&& 0 <= i < vanilla->Some_0.len() ==> names_at(
                contents.skeletons@,
                source->Ok_0.path,
            )->Some_0.contains(vanilla->Some_0[i])
        }),
{
    let selection = crate::carrier::model_selection(costume.model)->Ok_0;
    let source = picked(selection, "model.nusktb"@)->Ok_0;
    let bones = names_at(contents.skeletons@, source.path)->Some_0;
    let vanilla = names_at(contents.skeletons@, path)->Some_0;
    if 0 <= i < vanilla.len() {
        lemma_none_absent(vanilla, bones, i);
    }
}

/// Motion files of the workspace win: each of them is the one that a preview uses.
pub proof fn law_workspace_files_win(
    fighter: Seq<char>,
    vanilla_dir: Option<Seq<char>>,
    vanilla_model: Seq<crate::workspace::ListedView>,
    model: Seq<crate::workspace::ListedView>,
    motion: Seq<crate::workspace::ListedView>,
    vanilla_motion: Seq<crate::workspace::ListedView>,
    name: Seq<char>,
)
    requires
        gathered(fighter, vanilla_dir, vanilla_model, model, motion, vanilla_motion) is Ok,
    ensures
        ({
            let costume = gathered(
                fighter,
                vanilla_dir,
                vanilla_model,
                model,
                motion,
                vanilla_motion,
            )->Ok_0;
            costume.own_motion.contains_key(name) ==> costume.motion.contains_key(name)
                && costume.motion[name] == costume.own_motion[name]
        }),
{
}

/// The entry is a file that goes by this name.
pub open spec fn goes_by(entry: crate::workspace::ListedView, name: Seq<char>) -> bool {
    crate::workspace::is_regular(entry) && crate::workspace::asset_name(entry.path) == Ok::<
        Seq<char>,
        crate::workspace::AssetErrorView,
    >(name)
}

/// Some file of a folder can serve as `canonical`.
pub open spec fn holds_model_file(
    entries: Seq<crate::workspace::ListedView>,
    canonical: Seq<char>,
) -> bool {
    exists|i: int, name: Seq<char>|
        0 <= i < entries.len() && #[trigger] goes_by(entries[i], name)
            && crate::carrier::serves_as(name, canonical)
}

/// The source is a file of this folder.
pub open spec fn lists(
    entries: Seq<crate::workspace::ListedView>,
    source: crate::workspace::SourceView,
) -> bool {
    exists|i: int|
        0 <= i < entries.len() && crate::workspace::is_regular(#[trigger] entries[i])
            && entries[i].path == source.path && entries[i].len == source.len
}

proof fn lemma_collected_from(
    entries: Seq<crate::workspace::ListedView>,
    area: AssetArea,
    name: Seq<char>,
) -> (i: int)
    requires
        crate::workspace::collected(entries, area) is Ok,
        crate::workspace::collected(entries, area)->Ok_0.contains_key(name),
    ensures
        0 <= i < entries.len(),
        goes_by(entries[i], name),
        entries[i].path == crate::workspace::collected(entries, area)->Ok_0[name].path,
        entries[i].len == crate::workspace::collected(entries, area)->Ok_0[name].len,
    decreases entries.len(),
{
    let rest = crate::workspace::collected(entries.drop_last(), area)->Ok_0;
    if rest.contains_key(name) {
        let i = lemma_collected_from(entries.drop_last(), area, name);
        assert(entries.drop_last()[i] == entries[i]);
        i
    } else {
        entries.len() - 1
    }
}

/// The model of a preview comes from the workspace in full. A file of the model that the
/// workspace lacks ends the preparation, whatever the fighter's own folder holds, and every file
/// that goes into the model is listed in the workspace. Only the model's animation may be left
/// out.
pub proof fn law_model_comes_from_the_workspace(
    fighter: Seq<char>,
    vanilla_dir: Option<Seq<char>>,
    vanilla_model: Seq<crate::workspace::ListedView>,
    model: Seq<crate::workspace::ListedView>,
    motion: Seq<crate::workspace::ListedView>,
    vanilla_motion: Seq<crate::workspace::ListedView>,
    costume: Costume,
    choice: Option<Seq<char>>,
    contents: CostumeContents,
    pool: ResourcePool,
    k: int,
)
    requires
        gathered(fighter, vanilla_dir, vanilla_model, model, motion, vanilla_motion) == Ok::<
            CostumeView,
            crate::workspace::AssetErrorView,
        >(costume@),
        costume.wf(),
        0 <= k < crate::carrier::model_graph().len(),
        crate::carrier::model_graph()[k] != "model.nuanmb"@,
    ensures
        ({
            let canonical = crate::carrier::model_graph()[k];
            let selection = crate::carrier::model_selection(costume.model)->Ok_0;
            &&& !holds_model_file(model, canonical) ==> preview(
                costume,
                choice,
                contents,
                pool,
            ) is Err
            &&& preview(costume, choice, contents, pool) is Ok ==> picked(
                selection,
                canonical,
            ) is Ok && lists(model, picked(selection, canonical)->Ok_0)
        }),
{
    let canonical = crate::carrier::model_graph()[k];
    if preview(costume, choice, contents, pool) is Ok {
        let selection = crate::carrier::model_selection(costume.model)->Ok_0;
        crate::carrier::law_model_is_complete(costume.model, k);
        let name = crate::carrier::lemma_model_source(costume.model, canonical);
        let i = lemma_collected_from(model, AssetArea::Model, name);
        assert(goes_by(model[i], name));
    }
}

/// What is said to be filled in comes from the fighter's own files, not from the workspace.
pub proof fn law_filled_in_files_are_the_fighters(
    costume: Costume,
    choice: Option<Seq<char>>,
    contents: CostumeContents,
    pool: ResourcePool,
    i: int,
)
    requires
        preview(costume, choice, contents, pool) is Ok,
        0 <= i < preview(costume, choice, contents, pool)->Ok_0.vanilla_motion_used.len(),
    ensures
        ({
            let name = preview(costume, choice, contents, pool)->Ok_0.vanilla_motion_used[i];
            costume.motion@.contains_key(name) && !costume.own_motion@.contains_key(name)
        }),
{
    let plan = preview(costume, choice, contents, pool)->Ok_0;
    let shown = checked_motions(
        choice,
        costume.motion,
        costume.own_motion,
        crate::carrier::model_selection(costume.model)->Ok_0,
        contents,
        checked_rig(
            costume@.vanilla_skeleton,
            crate::carrier::model_selection(costume.model)->Ok_0,
            contents.skeletons@,
        )->Ok_0,
        pool.motion_capacity,
    )->Ok_0.shown;
    let files = costume.motion@;
    let own = costume.own_motion@;
    let first = crate::carrier::and_filled_in(Seq::empty(), shown, files, own);
    let second = crate::carrier::and_filled_in(first, "swing.prc"@, files, own);
    let third = crate::carrier::and_filled_in(second, "swingblend.prc"@, files, own);
    let fourth = crate::carrier::and_filled_in(third, "ik.prc"@, files, own);
    assert(plan.vanilla_motion_used == fourth);
    assert forall|j: int| 0 <= j < first.len() implies crate::carrier::is_filled_in(
        #[trigger] first[j],
        files,
        own,
    ) by {}
    assert forall|j: int| 0 <= j < second.len() implies crate::carrier::is_filled_in(
        #[trigger] second[j],
        files,
        own,
    ) by {
        if j < first.len() {
            assert(second[j] == first[j]);
        }
    }
    assert forall|j: int| 0 <= j < third.len() implies crate::carrier::is_filled_in(
        #[trigger] third[j],
        files,
        own,
    ) by {
        if j < second.len() {
            assert(third[j] == second[j]);
        }
    }
    if i < third.len() {
        assert(fourth[i] == third[i]);
    }
}

proof fn lemma_sizes_bounded(sizes: Seq<u64>, label: Seq<char>, i: int)
    requires
        crate::carrier::total_size(sizes, label) is Ok,
        0 <= i < sizes.len(),
    ensures
        0 < sizes[i] <= crate::carrier::CARRIER_MAX_FILE_SIZE,
    decreases sizes.len(),
{
    if i < sizes.len() - 1 {
        lemma_sizes_bounded(sizes.drop_last(), label, i);
        assert(sizes.drop_last()[i] == sizes[i]);
    }
}

/// The size is one that a file of a preview may have.
pub open spec fn is_bounded(source: crate::workspace::SourceView) -> bool {
    0 < source.len <= crate::carrier::CARRIER_MAX_FILE_SIZE
}

/// The file that a planned file is made from, if it is made from a single one.
pub open spec fn source_in(content: crate::carrier::ContentView) -> Option<
    crate::workspace::SourceView,
> {
    match content {
        crate::carrier::ContentView::Copy(source) => Some(source),
        crate::carrier::ContentView::Texture(source) => Some(source),
        _ => None,
    }
}

proof fn lemma_selected_source_from(
    selection: Seq<(Seq<char>, crate::workspace::SourceView)>,
    canonical: Seq<char>,
    i: int,
) -> (k: int)
    requires
        0 <= i,
        crate::carrier::selected_source(selection, canonical, i) is Some,
    ensures
        i <= k < selection.len(),
        crate::carrier::selected_source(selection, canonical, i) == Some(selection[k].1),
    decreases selection.len() - i,
{
    if selection[i].0 == canonical {
        i
    } else {
        lemma_selected_source_from(selection, canonical, i + 1)
    }
}

/// A parameter file that goes into a preview is among the sizes that are checked.
proof fn lemma_parameter_bounded(
    sizes: Seq<u64>,
    motion: Map<Seq<char>, crate::workspace::SourceView>,
    name: Seq<char>,
    at: int,
)
    requires
        crate::carrier::total_size(sizes, "carrier source"@) is Ok,
        0 <= at,
        at + size_at(motion, name).len() <= sizes.len(),
        sizes.subrange(at, at + size_at(motion, name).len()) == size_at(motion, name),
    ensures
        motion.contains_key(name) ==> is_bounded(motion[name]),
{
    if motion.contains_key(name) {
        assert(sizes.subrange(at, at + 1)[0] == sizes[at]);
        lemma_sizes_bounded(sizes, "carrier source"@, at);
    }
}

/// Nothing empty and nothing too large goes into a preview: neither a file of the model, whether
/// it is copied or written anew, nor a texture, an animation or a parameter file.
pub proof fn law_preview_sources_are_bounded(
    costume: Costume,
    choice: Option<Seq<char>>,
    contents: CostumeContents,
    pool: ResourcePool,
    i: int,
)
    requires
        preview(costume, choice, contents, pool) is Ok,
    ensures
        ({
            let selection = crate::carrier::model_selection(costume.model)->Ok_0;
            let files = preview(costume, choice, contents, pool)->Ok_0.files;
            &&& 0 <= i < selection.len() ==> is_bounded(selection[i].1)
            &&& 0 <= i < files.len() && source_in(files[i].content) is Some ==> is_bounded(
                source_in(files[i].content)->Some_0,
            )
        }),
{
    let plan = preview(costume, choice, contents, pool)->Ok_0;
    let selection = crate::carrier::model_selection(costume.model)->Ok_0;
    let textures = checked_materials(
        costume.model,
        selection,
        contents,
        pool.texture_capacity,
    )->Ok_0.outputs;
    let animations = plan.motion_files;
    let motion = crate::workspace::source_views(costume.motion@);
    let sizes = source_sizes(selection, textures, animations, motion);
    let label = "carrier source"@;
    let (a, b, c) = (sizes_of(selection), sizes_of(textures), sizes_of(animations));
    let (x, y, z) = (
        size_at(motion, "swing.prc"@),
        size_at(motion, "swingblend.prc"@),
        size_at(motion, "ik.prc"@),
    );
    assert(sizes == a + b + c + x + y + z);
    let n = crate::carrier::model_graph().len() as int;
    let t = n + textures.len();
    let m = t + animations.len();
    if 0 <= i < selection.len() {
        assert(sizes[i] == a[i]);
        lemma_sizes_bounded(sizes, label, i);
    }
    let head = (a.len() + b.len() + c.len()) as int;
    assert(sizes.subrange(head, head + x.len()) =~= x);
    assert(sizes.subrange(head + x.len(), head + x.len() + y.len()) =~= y);
    assert(sizes.subrange(head + x.len() + y.len(), head + x.len() + y.len() + z.len()) =~= z);
    lemma_parameter_bounded(sizes, motion, "swing.prc"@, head);
    lemma_parameter_bounded(sizes, motion, "swingblend.prc"@, head + x.len());
    lemma_parameter_bounded(sizes, motion, "ik.prc"@, head + x.len() + y.len());
    if 0 <= i < plan.files.len() && source_in(plan.files[i].content) is Some {
        let file = plan.files[i];
        if i < n {
            assert(file == crate::carrier::planned_model(selection, plan.cut is Some)[i]);
            let k = lemma_selected_source_from(
                selection,
                crate::carrier::model_graph()[i],
                0,
            );
            assert(sizes[k] == a[k]);
            lemma_sizes_bounded(sizes, label, k);
        } else if i < t {
            assert(file.content == crate::carrier::ContentView::Texture(textures[i - n].1));
            assert(sizes[a.len() + (i - n)] == b[i - n]);
            lemma_sizes_bounded(sizes, label, a.len() + (i - n));
        } else if i < m {
            assert(file.content == crate::carrier::ContentView::Copy(animations[i - t].1));
            assert(sizes[a.len() + b.len() + (i - t)] == c[i - t]);
            lemma_sizes_bounded(sizes, label, a.len() + b.len() + (i - t));
        } else if i == m {
            assert(file.content == crate::carrier::ContentView::MotionList);
        } else if i == m + 1 {
            assert(file == crate::carrier::parameter_file(motion, "ik.prc"@));
        } else if i == m + 2 {
            assert(file == crate::carrier::parameter_file(motion, "swing.prc"@));
        } else {
            assert(file == crate::carrier::parameter_file(motion, "swingblend.prc"@));
        }
    }
}

/// The motions of a preview are those of the fighter's motion list, each as it is but for the
/// names of its animations.
pub proof fn law_preview_keeps_the_motions(
    costume: Costume,
    choice: Option<Seq<char>>,
    contents: CostumeContents,
    pool: ResourcePool,
    i: int,
)
    requires
        preview(costume, choice, contents, pool) is Ok,
    ensures
        ({
            let motions = preview(costume, choice, contents, pool)->Ok_0.motions;
            let path = crate::workspace::source_views(costume.motion@)["motion_list.bin"@].path;
            let list = crate::motions::motion_views(contents.motion_lists@[path]@);
            &&& motions.len() == list.len()
            &&& 0 <= i < list.len() ==> crate::motions::same_but_names(motions[i], list[i])
        }),
{
    let path = crate::workspace::source_views(costume.motion@)["motion_list.bin"@].path;
    crate::motions::law_graph_keeps_identities(
        crate::motions::motion_views(contents.motion_lists@[path]@),
        crate::motions::available(crate::motions::entry_list(costume.motion)),
        pool.motion_capacity,
    );
}

/// The files of a preview replace pairwise different files of the game, so that the finished
/// bundle is in strict order.
pub proof fn law_preview_paths_ascend(
    costume: Costume,
    choice: Option<Seq<char>>,
    contents: CostumeContents,
    pool: ResourcePool,
    output_dir: Seq<char>,
    slot: u8,
)
    requires
        preview(costume, choice, contents, pool) is Ok,
    ensures
        ({
            let files = preview(costume, choice, contents, pool)->Ok_0.files;
            let written = crate::carrier::outputs_of(output_dir, costume.fighter@, slot, files);
            &&& crate::ordering::names_differ(written, crate::workspace::by_game_path())
            &&& crate::ordering::is_strictly_ordered(
                crate::ordering::in_order(written, crate::workspace::by_game_path()),
                crate::workspace::by_game_path(),
            )
        }),
{
    let plan = preview(costume, choice, contents, pool)->Ok_0;
    let selection = crate::carrier::model_selection(costume.model)->Ok_0;
    let materials = checked_materials(costume.model, selection, contents, pool.texture_capacity)->Ok_0;
    let motion = crate::workspace::source_views(costume.motion@);
    let name = crate::workspace::by_game_path();
    let written = crate::carrier::outputs_of(output_dir, costume.fighter@, slot, plan.files);
    assert(crate::carrier::from_the_pool(materials.outputs, plan.motion_files));
    assert forall|i: int, j: int| 0 <= i < j < written.len() implies name(#[trigger] written[i])
        != name(#[trigger] written[j]) by {
        crate::carrier::law_planned_names_differ(
            selection,
            plan.cut is Some,
            materials.outputs,
            plan.motion_files,
            motion,
            i,
            j,
        );
        crate::carrier::lemma_game_paths_differ(
            costume.fighter@,
            slot,
            plan.files[i],
            plan.files[j],
        );
    }
    crate::ordering::law_different_names_ascend(written, name);
}

/// Each material of a preview has the label and the textures that stand at its place: the model's
/// own come first, and every one of a further file is new.
pub proof fn law_materials_keep_their_textures(
    files: Seq<(Seq<char>, crate::workspace::SourceView)>,
    materials: Map<Seq<char>, Vec<Material>>,
    path: Seq<char>,
    i: int,
)
    requires
        materials.contains_key(path),
    ensures
        ({
            let all = merged(files, materials, own_materials(path, materials[path]@));
            let own = materials[path]@;
            &&& all.places.len() == all.known.len()
            &&& all.references.len() == all.known.len()
            &&& own.len() <= all.known.len()
            &&& 0 <= i < own.len() ==> all.places[i] == (path, i)
            &&& 0 <= i < all.known.len() ==> stands_at_place(all, materials, i)
        }),
    decreases files.len(),
{
    let own = own_materials(path, materials[path]@);
    if files.len() > 0 {
        let rest = files.drop_last();
        law_materials_keep_their_textures(rest, materials, path, i);
        let before = merged(rest, materials, own);
        let (name, source) = files.last();
        if is_variant(name) && materials.contains_key(source.path) {
            let more = materials[source.path]@;
            let taken = crate::carrier::taken_entries(before.known, labels_of(more));
            let all = merged(files, materials, own);
            lemma_new_labels(before.known, labels_of(more));
            crate::carrier::law_new_labels_are_taken(before.known, labels_of(more));
            let n = before.known.len() as int;
            if 0 <= i < n {
                assert(all.known[i] == before.known[i]);
                assert(all.places[i] == before.places[i]);
                assert(all.references[i] == before.references[i]);
            } else if n <= i < all.known.len() {
                let k = i - n;
                assert(all.places[i] == places_in(source.path, taken)[k]);
                assert(all.references[i] == references_of(more, taken)[k]);
                assert(all.known[i] == labels_of(more)[taken[k]]);
            }
        }
    }
}

/// The material's label and textures are those of the entry at its place.
pub open spec fn stands_at_place(
    all: MergedView,
    materials: Map<Seq<char>, Vec<Material>>,
    i: int,
) -> bool {
    let (path, entry) = all.places[i];
    &&& materials.contains_key(path)
    &&& 0 <= entry < materials[path]@.len()
    &&& all.known[i] == materials[path]@[entry].label@
    &&& all.references[i] == crate::text::texts(materials[path]@[entry].textures@)
}

proof fn lemma_new_labels(known: Seq<Seq<char>>, labels: Seq<Seq<char>>)
    ensures
        ({
            let all = crate::carrier::with_new(known, labels);
            let taken = crate::carrier::taken_entries(known, labels);
            &&& all.len() == known.len() + taken.len()
            &&& forall|i: int| 0 <= i < known.len() ==> #[trigger] all[i] == known[i]
            &&& forall|k: int|
                0 <= k < taken.len() ==> 0 <= #[trigger] taken[k] < labels.len() && all[known.len()
                    + k] == labels[taken[k]]
        }),
    decreases labels.len(),
{
    if labels.len() > 0 {
        let rest = labels.drop_last();
        lemma_new_labels(known, rest);
        let (before, now) = (
            crate::carrier::with_new(known, rest),
            crate::carrier::with_new(known, labels),
        );
        let (past, taken) = (
            crate::carrier::taken_entries(known, rest),
            crate::carrier::taken_entries(known, labels),
        );
        assert forall|i: int| 0 <= i < known.len() implies #[trigger] now[i] == known[i] by {
            assert(before[i] == known[i]);
        }
        assert forall|k: int| 0 <= k < taken.len() implies 0 <= #[trigger] taken[k] < labels.len()
            && now[known.len() + k] == labels[taken[k]] by {
            if k < past.len() {
                assert(taken[k] == past[k]);
                assert(rest[past[k]] == labels[past[k]]);
                assert(before[known.len() + k] == rest[past[k]]);
            }
        }
    }
}

/// Meshes are cut just where some of them is a far-range twin: the near ones stay, in the mesh file,
/// in what belongs to it and in both descriptors, and the rest is counted.
pub proof fn law_cuts_leave_out_far_meshes(
    names: Seq<Seq<char>>,
    groups: Seq<Seq<char>>,
    descriptor: Seq<Seq<char>>,
    command: Seq<Seq<char>>,
)
    ensures
        ({
            let cut = mesh_cut(Some(names), Some(groups), descriptor, command);
            let is_near = |name: Seq<char>| !crate::text::ends_with(name, "_lowShape"@);
            &&& cut is Some <==> exists|i: int| 0 <= i < names.len() && !is_near(#[trigger] names[i])
            &&& cut matches Some(c) ==> {
                &&& crate::selection::are_wanted_positions(c.meshes, names, is_near)
                &&& crate::selection::are_wanted_positions(c.groups, groups, is_near)
                &&& crate::selection::are_wanted_positions(c.descriptor, descriptor, is_near)
                &&& crate::selection::are_wanted_positions(c.command, command, is_near)
                &&& c.left_out == names.len() - c.meshes.len()
            }
        }),
{
    let is_near = |name: Seq<char>| !crate::text::ends_with(name, "_lowShape"@);
    lemma_near(names);
    lemma_near(groups);
    lemma_near(descriptor);
    lemma_near(command);
    lemma_near_len(names);
}

proof fn lemma_near(names: Seq<Seq<char>>)
    ensures
        crate::selection::are_wanted_positions(
            crate::carrier::near_range(names),
            names,
            |name: Seq<char>| !crate::text::ends_with(name, "_lowShape"@),
        ),
{
    crate::carrier::law_near_meshes_are_kept(names);
}

proof fn lemma_near_len(names: Seq<Seq<char>>)
    ensures
        crate::carrier::near_range(names).len() <= names.len(),
        crate::carrier::near_range(names).len() < names.len() <==> exists|i: int|
            0 <= i < names.len() && crate::text::ends_with(#[trigger] names[i], "_lowShape"@),
    decreases names.len(),
{
    if names.len() > 0 {
        let rest = names.drop_last();
        let n = names.len() - 1;
        lemma_near_len(rest);
        assert(names[n] == names.last());
        assert forall|i: int| 0 <= i < n implies rest[i] == #[trigger] names[i] by {}
        if exists|i: int|
            0 <= i < rest.len() && crate::text::ends_with(#[trigger] rest[i], "_lowShape"@) {
            let i = choose|i: int|
                0 <= i < rest.len() && crate::text::ends_with(#[trigger] rest[i], "_lowShape"@);
            assert(names[i] == rest[i]);
        }
        if exists|i: int|
            0 <= i < names.len() && crate::text::ends_with(#[trigger] names[i], "_lowShape"@) {
            let i = choose|i: int|
                0 <= i < names.len() && crate::text::ends_with(#[trigger] names[i], "_lowShape"@);
            if i < n {
                assert(rest[i] == names[i]);
            }
        }
    }
}

/// A preview shows the motion that was chosen for it, or the default, from the costume's motion
/// files.
pub proof fn law_preview_shows_the_choice(
    costume: Costume,
    choice: Option<Seq<char>>,
    contents: CostumeContents,
    pool: ResourcePool,
)
    requires
        preview(costume, choice, contents, pool) is Ok,
    ensures
        crate::carrier::shown_motion(choice, costume.motion.key_list()) is Ok,
        ({
            let shown = crate::carrier::shown_motion(choice, costume.motion.key_list())->Ok_0;
            &&& contents.animations@.contains_key(
                crate::workspace::source_views(costume.motion@)[shown].path,
            )
            &&& crate::selection::keeps_just(
                preview(costume, choice, contents, pool)->Ok_0.vanilla_motion_used,
                seq![shown, "swing.prc"@, "swingblend.prc"@, "ik.prc"@],
                |name: Seq<char>|
                    costume.motion@.contains_key(name) && !costume.own_motion@.contains_key(name),
            )
            &&& preview(costume, choice, contents, pool)->Ok_0.omitted_swing
                == !costume.motion@.contains_key("swing.prc"@)
        }),
{
    let shown = crate::carrier::shown_motion(choice, costume.motion.key_list())->Ok_0;
    crate::carrier::law_filled_in_files_are_named(
        shown,
        costume.motion@,
        costume.own_motion@,
    );
}

/// In a preview every animation of the motion graph can be read, and one that comes from the
/// workspace moves some bone of the model, or nothing.
pub proof fn law_pooled_animations_fit(
    costume: Costume,
    choice: Option<Seq<char>>,
    contents: CostumeContents,
    pool: ResourcePool,
    i: int,
)
    requires
        preview(costume, choice, contents, pool) is Ok,
        0 <= i < preview(costume, choice, contents, pool)->Ok_0.motion_files.len(),
    ensures
        ({
            let source = preview(costume, choice, contents, pool)->Ok_0.motion_files[i].1;
            let selection = crate::carrier::model_selection(costume.model)->Ok_0;
            let bones = names_at(
                contents.skeletons@,
                picked(selection, "model.nusktb"@)->Ok_0.path,
            )->Some_0;
            let nodes = crate::carrier::moved_nodes(contents.animations@[source.path]@);
            &&& contents.animations@.contains_key(source.path)
            &&& is_own(crate::motions::entry_list(costume.own_motion), source.path) ==> nodes.len()
                == 0 || exists|k: int| 0 <= k < nodes.len() && bones.contains(#[trigger] nodes[k])
        }),
{
    let selection = crate::carrier::model_selection(costume.model)->Ok_0;
    let bones = checked_rig(costume@.vanilla_skeleton, selection, contents.skeletons@)->Ok_0;
    let plan = preview(costume, choice, contents, pool)->Ok_0;
    lemma_pool_checked(
        plan.motion_files,
        crate::motions::entry_list(costume.own_motion),
        contents.animations@,
        bones,
        i,
    );
    let (name, source) = plan.motion_files[i];
    crate::carrier::law_animations_move_some_bone(
        name,
        crate::carrier::moved_nodes(contents.animations@[source.path]@),
        bones,
    );
}

proof fn lemma_pool_checked(
    files: Seq<(Seq<char>, crate::workspace::SourceView)>,
    own: Seq<(Seq<char>, crate::workspace::SourceView)>,
    animations: Map<Seq<char>, Vec<NodeGroup>>,
    bones: Seq<Seq<char>>,
    i: int,
)
    requires
        checked_pool(files, own, animations, bones) is Ok,
        0 <= i < files.len(),
    ensures
        animations.contains_key(files[i].1.path),
        is_own(own, files[i].1.path) ==> crate::carrier::bones_check(
            files[i].0,
            crate::carrier::moved_nodes(animations[files[i].1.path]@),
            bones,
        ) is Ok,
    decreases files.len(),
{
    if i < files.len() - 1 {
        lemma_pool_checked(files.drop_last(), own, animations, bones, i);
        assert(files.drop_last()[i] == files[i]);
    }
}

/// In a preview every parameter file that is used can be read.
pub proof fn law_parameters_can_be_read(
    costume: Costume,
    choice: Option<Seq<char>>,
    contents: CostumeContents,
    pool: ResourcePool,
    name: Seq<char>,
)
    requires
        preview(costume, choice, contents, pool) is Ok,
        name == "swing.prc"@ || name == "swingblend.prc"@ || name == "ik.prc"@,
        crate::workspace::source_views(costume.motion@).contains_key(name),
    ensures
        contents.parameters@.contains_key(
            crate::workspace::source_views(costume.motion@)[name].path,
        ),
{
}

/// In a preview both descriptors name one material file, and every material that they name is
/// defined by the model's own material file or by a further one.
pub proof fn law_descriptors_fit_the_materials(
    costume: Costume,
    choice: Option<Seq<char>>,
    contents: CostumeContents,
    pool: ResourcePool,
    i: int,
)
    requires
        preview(costume, choice, contents, pool) is Ok,
    ensures
        ({
            let selection = crate::carrier::model_selection(costume.model)->Ok_0;
            let first = contents.descriptors@[picked(selection, "model.numdlb"@)->Ok_0.path];
            let second = contents.descriptors@[picked(selection, "model.nusrcmdlb"@)->Ok_0.path];
            let path = picked(selection, "model.numatb"@)->Ok_0.path;
            let all = merged(
                crate::motions::entry_list(costume.model),
                contents.materials@,
                own_materials(path, contents.materials@[path]@),
            );
            &&& contents.descriptors@.contains_key(picked(selection, "model.numdlb"@)->Ok_0.path)
            &&& contents.descriptors@.contains_key(
                picked(selection, "model.nusrcmdlb"@)->Ok_0.path,
            )
            &&& contents.materials@.contains_key(path)
            &&& first.material_files == 1
            &&& second.material_files == 1
            &&& contents.materials@[path]@.len() > 0
            &&& 0 <= i < first.materials@.len() ==> all.known.contains(first.materials@[i]@)
            &&& 0 <= i < second.materials@.len() ==> all.known.contains(second.materials@[i]@)
            &&& preview(costume, choice, contents, pool)->Ok_0.materials == all.places
        }),
{
    let selection = crate::carrier::model_selection(costume.model)->Ok_0;
    let first = contents.descriptors@[picked(selection, "model.numdlb"@)->Ok_0.path];
    let second = contents.descriptors@[picked(selection, "model.nusrcmdlb"@)->Ok_0.path];
    let path = picked(selection, "model.numatb"@)->Ok_0.path;
    let all = merged(
        crate::motions::entry_list(costume.model),
        contents.materials@,
        own_materials(path, contents.materials@[path]@),
    );
    crate::carrier::law_descriptors_name_defined_materials(
        "model.numdlb"@,
        first.material_files,
        crate::text::texts(first.materials@),
        all.known,
    );
    crate::carrier::law_descriptors_name_defined_materials(
        "model.nusrcmdlb"@,
        second.material_files,
        crate::text::texts(second.materials@),
        all.known,
    );
    if 0 <= i < first.materials@.len() {
        assert(crate::text::texts(first.materials@)[i] == first.materials@[i]@);
    }
    if 0 <= i < second.materials@.len() {
        assert(crate::text::texts(second.materials@)[i] == second.materials@[i]@);
    }
}

/// In a preview the shown motion can be read and moves some bone of the model, or nothing; so does
/// the animation that the model brings along.
pub proof fn law_shown_animations_fit(
    costume: Costume,
    choice: Option<Seq<char>>,
    contents: CostumeContents,
    pool: ResourcePool,
    k: int,
)
    requires
        preview(costume, choice, contents, pool) is Ok,
    ensures
        ({
            let selection = crate::carrier::model_selection(costume.model)->Ok_0;
            let bones = names_at(
                contents.skeletons@,
                picked(selection, "model.nusktb"@)->Ok_0.path,
            )->Some_0;
            let shown = crate::carrier::shown_motion(choice, costume.motion.key_list())->Ok_0;
            let motion = crate::workspace::source_views(costume.motion@);
            &&& can_be_played(contents.animations@, motion[shown].path, bones)
            &&& motion[shown].len > 0
            &&& (0 <= k < selection.len() && selection[k].0 == "model.nuanmb"@ && forall|j: int|
                0 <= j < k ==> (#[trigger] selection[j]).0 != "model.nuanmb"@) ==> can_be_played(
                contents.animations@,
                selection[k].1.path,
                bones,
            )
        }),
{
    let selection = crate::carrier::model_selection(costume.model)->Ok_0;
    let bones = checked_rig(costume@.vanilla_skeleton, selection, contents.skeletons@)->Ok_0;
    let shown = crate::carrier::shown_motion(choice, costume.motion.key_list())->Ok_0;
    let path = crate::workspace::source_views(costume.motion@)[shown].path;
    crate::carrier::law_animations_move_some_bone(
        shown,
        crate::carrier::moved_nodes(contents.animations@[path]@),
        bones,
    );
    if 0 <= k < selection.len() && selection[k].0 == "model.nuanmb"@ && forall|j: int|
        0 <= j < k ==> (#[trigger] selection[j]).0 != "model.nuanmb"@ {
        lemma_first_selected(selection, "model.nuanmb"@, 0, k);
        crate::carrier::law_animations_move_some_bone(
            "model.nuanmb"@,
            crate::carrier::moved_nodes(contents.animations@[selection[k].1.path]@),
            bones,
        );
    }
}

proof fn lemma_first_selected(
    selection: Seq<(Seq<char>, crate::workspace::SourceView)>,
    name: Seq<char>,
    i: int,
    k: int,
)
    requires
        0 <= i <= k < selection.len(),
        selection[k].0 == name,
        forall|j: int| 0 <= j < k ==> (#[trigger] selection[j]).0 != name,
    ensures
        crate::carrier::selected_source(selection, name, i) == Some(selection[k].1),
    decreases k - i,
{
    if i < k {
        lemma_first_selected(selection, name, i + 1, k);
    }
}

/// The animation can be read, and moves some of these bones unless it moves nothing.
pub open spec fn can_be_played(
    animations: Map<Seq<char>, Vec<NodeGroup>>,
    path: Seq<char>,
    bones: Seq<Seq<char>>,
) -> bool {
    let nodes = crate::carrier::moved_nodes(animations[path]@);
    animations.contains_key(path) && (nodes.len() == 0 || exists|k: int|
        0 <= k < nodes.len() && bones.contains(#[trigger] nodes[k]))
}

/// A readable material file, other than the model's own, has a material of this label.
pub open spec fn is_defined_by(
    file: (Seq<char>, crate::workspace::SourceView),
    materials: Map<Seq<char>, Vec<Material>>,
    label: Seq<char>,
) -> bool {
    &&& crate::text::ends_with(file.0, ".numatb"@)
    &&& file.0 != "model.numatb"@
    &&& materials.contains_key(file.1.path)
    &&& exists|m: int|
        0 <= m < materials[file.1.path]@.len() && (#[trigger] materials[file.1.path]@[m]).label@
            == label
}

/// A material is known just where the model's own material file or a further one defines it.
pub proof fn law_further_materials_count(
    files: Seq<(Seq<char>, crate::workspace::SourceView)>,
    materials: Map<Seq<char>, Vec<Material>>,
    own: MergedView,
    label: Seq<char>,
)
    ensures
        merged(files, materials, own).known.contains(label) <==> own.known.contains(label)
            || exists|k: int|
            0 <= k < files.len() && is_defined_by(#[trigger] files[k], materials, label),
    decreases files.len(),
{
    if files.len() > 0 {
        let rest = files.drop_last();
        let n = files.len() - 1;
        law_further_materials_count(rest, materials, own, label);
        let before = merged(rest, materials, own);
        let (name, source) = files.last();
        let more = materials[source.path]@;
        assert(files[n] == files.last());
        if is_variant(name) && materials.contains_key(source.path) {
            crate::carrier::law_known_labels_are_defined(before.known, labels_of(more), label);
            if labels_of(more).contains(label) {
                let m = labels_of(more).index_of(label);
                assert(more[m].label@ == label);
                assert(is_defined_by(files[n], materials, label));
            }
            if is_defined_by(files[n], materials, label) {
                let m = choose|m: int|
                    0 <= m < more.len() && (#[trigger] more[m]).label@ == label;
                assert(labels_of(more)[m] == label);
            }
        }
        if exists|k: int| 0 <= k < files.len() && is_defined_by(#[trigger] files[k], materials, label) {
            let k = choose|k: int|
                0 <= k < files.len() && is_defined_by(#[trigger] files[k], materials, label);
            if k < n {
                assert(rest[k] == files[k]);
            }
        }
        if exists|k: int| 0 <= k < rest.len() && is_defined_by(#[trigger] rest[k], materials, label) {
            let k = choose|k: int|
                0 <= k < rest.len() && is_defined_by(#[trigger] rest[k], materials, label);
            assert(files[k] == rest[k]);
        }
    }
}

} // verus!
