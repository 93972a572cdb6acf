//! Saved presets: what the preset file holds, what is accepted, and how it
//! changes.
use crate::assets::{unmarked, without_byte_order_mark, PixelImage};
use crate::ids::{copy_of, id_texts, option_text};
use crate::sample::{ImageSample, SampleGeometry};
use crate::template_path::{
    lemma_plain_path, named_parts, path_char, path_fault, plain_path, portable_path, TemplatePathError,
};
use crate::text::{
    chars_of, quoted_text, decimal, decimal_of, lemma_split_concat, lemma_split_single, ordinal_of,
    quoted, same_text, split,
};
use crate::text_map::TextMap;
use vstd::prelude::*;

verus! {

/// The version of the preset file that this version of the tool writes.
pub const PRESET_SCHEMA_VERSION: u32 = 1;

/// An icon that a preset is recognized by.
#[derive(Debug)]
pub struct LocalTemplate {
    /// Local template path relative to the directory containing presets.json.
    pub path: String,
    pub geometry: SampleGeometry,
    /// Catalog id of the Stratagem this template shows, once identified.
    pub stratagem: Option<String>,
}

/// A template as a mathematical value.
#[verifier::ext_equal]
pub struct TemplateView {
    pub path: Seq<char>,
    pub geometry: SampleGeometry,
    pub stratagem: Option<Seq<char>>,
}

impl View for LocalTemplate {
    type V = TemplateView;

    open spec fn view(&self) -> TemplateView {
        TemplateView {
            path: self.path@,
            geometry: self.geometry,
            stratagem: option_text(self.stratagem),
        }
    }
}

impl Clone for LocalTemplate {
    fn clone(&self) -> (r: LocalTemplate)
        ensures
            r@ == self@,
    {
        LocalTemplate {
            path: self.path.clone(),
            geometry: self.geometry,
            stratagem: copy_of(&self.stratagem),
        }
    }
}

/// The templates as mathematical values.
pub open spec fn template_views(templates: Seq<LocalTemplate>) -> Seq<TemplateView> {
    templates.map_values(|template: LocalTemplate| template@)
}

/// An optional template as a mathematical value.
pub open spec fn option_template(template: Option<LocalTemplate>) -> Option<TemplateView> {
    match template {
        Some(template) => Some(template@),
        None => None,
    }
}

fn copy_template(template: &Option<LocalTemplate>) -> (r: Option<LocalTemplate>)
    ensures
        option_template(r) == option_template(*template),
{
    match template {
        Some(template) => Some(template.clone()),
        None => None,
    }
}

/// A saved loadout.
#[derive(Debug)]
pub struct Preset {
    pub stratagems: Vec<LocalTemplate>,
    pub booster: Option<LocalTemplate>,
    pub fallback_booster: Option<LocalTemplate>,
}

/// A preset as a mathematical value.
#[verifier::ext_equal]
pub struct PresetView {
    pub stratagems: Seq<TemplateView>,
    pub booster: Option<TemplateView>,
    pub fallback_booster: Option<TemplateView>,
}

impl View for Preset {
    type V = PresetView;

    open spec fn view(&self) -> PresetView {
        PresetView {
            stratagems: template_views(self.stratagems@),
            booster: option_template(self.booster),
            fallback_booster: option_template(self.fallback_booster),
        }
    }
}

impl Clone for Preset {
    fn clone(&self) -> (r: Preset)
        ensures
            r@ == self@,
    {
        let mut stratagems: Vec<LocalTemplate> = Vec::new();
        let mut i: usize = 0;
        while i < self.stratagems.len()
            invariant
                i <= self.stratagems@.len(),
                template_views(stratagems@) == self@.stratagems.take(i as int),
            decreases self.stratagems@.len() - i,
        {
            let ghost before = template_views(stratagems@);
            stratagems.push(self.stratagems[i].clone());
            assert(template_views(stratagems@) == before.push(self.stratagems@[i as int]@));
            i = i + 1;
        }
        assert(self@.stratagems.take(self@.stratagems.len() as int) == self@.stratagems);
        Preset {
            stratagems,
            booster: copy_template(&self.booster),
            fallback_booster: copy_template(&self.fallback_booster),
        }
    }
}

impl PresetView {
    /// The id of a slot, when there is such a slot and its Stratagem is known.
    pub open spec fn id_at(self, index: int) -> Option<Seq<char>> {
        if 0 <= index < self.stratagems.len() {
            self.stratagems[index].stratagem
        } else {
            None
        }
    }

    /// The ids of the four slots in saved order.
    pub open spec fn ids(self) -> Seq<Option<Seq<char>>> {
        seq![self.id_at(0), self.id_at(1), self.id_at(2), self.id_at(3)]
    }

    /// The templates in the order in which they are looked at: the Stratagems, the
    /// Booster, the fallback Booster.
    pub open spec fn templates(self) -> Seq<TemplateView> {
        self.stratagems + (match self.booster {
            Some(template) => seq![template],
            None => Seq::empty(),
        }) + (match self.fallback_booster {
            Some(template) => seq![template],
            None => Seq::empty(),
        })
    }

    /// The preset with the ids of its slots replaced, as far as there are ids.
    pub open spec fn with_ids(self, ids: Seq<Option<Seq<char>>>) -> PresetView {
        PresetView {
            stratagems: Seq::new(
                self.stratagems.len(),
                |i: int|
                    if i < ids.len() {
                        TemplateView { stratagem: ids[i], ..self.stratagems[i] }
                    } else {
                        self.stratagems[i]
                    },
            ),
            ..self
        }
    }

    /// The preset with the id of one slot replaced.
    pub open spec fn with_id(self, slot: int, id: Option<Seq<char>>) -> PresetView {
        PresetView {
            stratagems: self.stratagems.update(
                slot,
                TemplateView { stratagem: id, ..self.stratagems[slot] },
            ),
            ..self
        }
    }
}

impl Preset {
    fn id_of(&self, index: usize) -> (r: Option<String>)
        ensures
            option_text(r) == self@.id_at(index as int),
    {
        if index < self.stratagems.len() {
            assert(self@.stratagems[index as int] == self.stratagems@[index as int]@);
            copy_of(&self.stratagems[index].stratagem)
        } else {
            None
        }
    }

    /// Catalog ids of the four Stratagems in saved order.
    pub fn stratagem_ids(&self) -> (r: [Option<String>; 4])
        ensures
            id_texts(r@) == self@.ids(),
    {
        let r = [self.id_of(0), self.id_of(1), self.id_of(2), self.id_of(3)];
        assert(id_texts(r@) =~= self@.ids());
        r
    }
}

/// A preset that was just read from the loadout screen.
pub struct CapturedPreset {
    pub stratagems: Vec<ImageSample>,
    pub booster: Option<ImageSample>,
}

/// The file that the presets are kept in.
pub struct PresetFile {
    pub schema_version: u32,
    pub presets: TextMap<Preset>,
}

/// The presets of a file as mathematical values.
pub open spec fn preset_views(presets: Map<Seq<char>, Preset>) -> Map<Seq<char>, PresetView> {
    presets.map_values(|preset: Preset| preset@)
}

impl PresetFile {
    /// The presets that the file holds.
    pub open spec fn contents(self) -> Map<Seq<char>, PresetView> {
        preset_views(self.presets.map())
    }
}

impl Default for PresetFile {
    fn default() -> (r: PresetFile)
        ensures
            r.schema_version == PRESET_SCHEMA_VERSION,
            r.contents() == Map::<Seq<char>, PresetView>::empty(),
    {
        let r = PresetFile { schema_version: PRESET_SCHEMA_VERSION, presets: TextMap::new() };
        assert(r.contents() =~= Map::<Seq<char>, PresetView>::empty());
        r
    }
}

// ----- errors ----------------------------------------------------------------

/// Why a preset could not be read or changed.
#[derive(Debug)]
#[allow(inconsistent_fields)]
pub enum PresetError {
    NotFound(String),
    Schema(u32),
    NewerSchema(u64),
    EmptyName,
    BadName(String),
    CapturedCount { name: String, count: usize },
    CapturedGeometry(String),
    BoosterGeometry(String),
    FallbackGeometry(String),
    EmptyImage,
    StratagemCount { name: String, count: usize },
    DuplicateTemplate { name: String, path: String },
    NoSlot { name: String, slot: usize },
    SampleGeometry(String),
}

/// Why a preset could not be read or changed, as a mathematical value.
#[allow(inconsistent_fields)]
pub enum PresetFault {
    NotFound(Seq<char>),
    Schema(u32),
    NewerSchema(u64),
    EmptyName,
    BadName(Seq<char>),
    CapturedCount { name: Seq<char>, count: nat },
    CapturedGeometry(Seq<char>),
    BoosterGeometry(Seq<char>),
    FallbackGeometry(Seq<char>),
    EmptyImage,
    StratagemCount { name: Seq<char>, count: nat },
    DuplicateTemplate { name: Seq<char>, path: Seq<char> },
    NoSlot { name: Seq<char>, slot: nat },
    SampleGeometry(Seq<char>),
}

impl View for PresetError {
    type V = PresetFault;

    open spec fn view(&self) -> PresetFault {
        match self {
            PresetError::NotFound(name) => PresetFault::NotFound(name@),
            PresetError::Schema(version) => PresetFault::Schema(*version),
            PresetError::NewerSchema(version) => PresetFault::NewerSchema(*version),
            PresetError::EmptyName => PresetFault::EmptyName,
            PresetError::BadName(name) => PresetFault::BadName(name@),
            PresetError::CapturedCount { name, count } => PresetFault::CapturedCount {
                name: name@,
                count: *count as nat,
            },
            PresetError::CapturedGeometry(name) => PresetFault::CapturedGeometry(name@),
            PresetError::BoosterGeometry(name) => PresetFault::BoosterGeometry(name@),
            PresetError::FallbackGeometry(name) => PresetFault::FallbackGeometry(name@),
            PresetError::EmptyImage => PresetFault::EmptyImage,
            PresetError::StratagemCount { name, count } => PresetFault::StratagemCount {
                name: name@,
                count: *count as nat,
            },
            PresetError::DuplicateTemplate { name, path } => PresetFault::DuplicateTemplate {
                name: name@,
                path: path@,
            },
            PresetError::NoSlot { name, slot } => PresetFault::NoSlot {
                name: name@,
                slot: *slot as nat,
            },
            PresetError::SampleGeometry(path) => PresetFault::SampleGeometry(path@),
        }
    }
}

impl PresetFault {
    /// The message shown to the user.
    pub open spec fn message_text(self) -> Seq<char> {
        match self {
            PresetFault::NotFound(name) => "preset not found: "@ + name,
            PresetFault::Schema(version) => "unsupported preset schema version "@ + decimal(
                version as nat,
            ) + "; expected 1. Delete the old preset data before continuing"@,
            PresetFault::NewerSchema(version) => "preset data uses schema version "@ + decimal(
                version as nat,
            ) + ", but this version only supports schema version 1"@,
            PresetFault::EmptyName => "preset name must not be empty"@,
            PresetFault::BadName(name) => {
                "preset name contains characters that cannot be used in a template directory: "@
                    + quoted_text(name)
            },
            PresetFault::CapturedCount { name, count } => "preset "@ + name
                + " must contain exactly 4 captured stratagems, got "@ + decimal(count),
            PresetFault::CapturedGeometry(name) => "preset "@ + name
                + " has invalid local-template geometry"@,
            PresetFault::BoosterGeometry(name) => "preset "@ + name
                + " has invalid booster-template geometry"@,
            PresetFault::FallbackGeometry(name) => "preset "@ + name
                + " has invalid fallback booster-template geometry"@,
            PresetFault::EmptyImage => "cannot save an empty local template"@,
            PresetFault::StratagemCount { name, count } => "preset "@ + name
                + " must contain exactly 4 stratagems, got "@ + decimal(count),
            PresetFault::DuplicateTemplate { name, path } => "preset "@ + name
                + " contains duplicate template "@ + path,
            PresetFault::NoSlot { name, slot } => "preset "@ + name + " has no stratagem slot "@
                + decimal(slot + 1),
            PresetFault::SampleGeometry(path) => "local template "@ + path
                + " has invalid sample geometry"@,
        }
    }
}

impl PresetError {
    /// The message shown to the user.
    pub fn message(&self) -> (r: String)
        ensures
            r@ == self@.message_text(),
    {
        match self {
            PresetError::NotFound(name) => {
                let mut out = "preset not found: ".to_string();
                out.push_str(name.as_str());
                out
            },
            PresetError::Schema(version) => {
                let mut out = "unsupported preset schema version ".to_string();
                out.push_str(decimal_of(*version as u64).as_str());
                out.push_str("; expected 1. Delete the old preset data before continuing");
                out
            },
            PresetError::NewerSchema(version) => {
                let mut out = "preset data uses schema version ".to_string();
                out.push_str(decimal_of(*version).as_str());
                out.push_str(", but this version only supports schema version 1");
                out
            },
            PresetError::EmptyName => "preset name must not be empty".to_string(),
            PresetError::BadName(name) => {
                let mut out =
                    "preset name contains characters that cannot be used in a template directory: ".to_string();
                out.push_str(quoted(name.as_str()).as_str());
                out
            },
            PresetError::CapturedCount { name, count } => {
                let mut out = "preset ".to_string();
                out.push_str(name.as_str());
                out.push_str(" must contain exactly 4 captured stratagems, got ");
                out.push_str(decimal_of(*count as u64).as_str());
                out
            },
            PresetError::CapturedGeometry(name) => {
                let mut out = "preset ".to_string();
                out.push_str(name.as_str());
                out.push_str(" has invalid local-template geometry");
                out
            },
            PresetError::BoosterGeometry(name) => {
                let mut out = "preset ".to_string();
                out.push_str(name.as_str());
                out.push_str(" has invalid booster-template geometry");
                out
            },
            PresetError::FallbackGeometry(name) => {
                let mut out = "preset ".to_string();
                out.push_str(name.as_str());
                out.push_str(" has invalid fallback booster-template geometry");
                out
            },
            PresetError::EmptyImage => "cannot save an empty local template".to_string(),
            PresetError::StratagemCount { name, count } => {
                let mut out = "preset ".to_string();
                out.push_str(name.as_str());
                out.push_str(" must contain exactly 4 stratagems, got ");
                out.push_str(decimal_of(*count as u64).as_str());
                out
            },
            PresetError::DuplicateTemplate { name, path } => {
                let mut out = "preset ".to_string();
                out.push_str(name.as_str());
                out.push_str(" contains duplicate template ");
                out.push_str(path.as_str());
                out
            },
            PresetError::NoSlot { name, slot } => {
                let mut out = "preset ".to_string();
                out.push_str(name.as_str());
                out.push_str(" has no stratagem slot ");
                out.push_str(ordinal_of(*slot).as_str());
                out
            },
            PresetError::SampleGeometry(path) => {
                let mut out = "local template ".to_string();
                out.push_str(path.as_str());
                out.push_str(" has invalid sample geometry");
                out
            },
        }
    }
}

// ----- checks ----------------------------------------------------------------

/// A template with the path of template `i` comes before it.
pub open spec fn repeats_path(templates: Seq<TemplateView>, i: int) -> bool {
    exists|j: int| 0 <= j < i && (#[trigger] templates[j]).path == templates[i].path
}

/// The first template with a path that came before.
pub open spec fn first_repeat(templates: Seq<TemplateView>) -> Option<int>
    decreases templates.len(),
{
    if templates.len() == 0 {
        None
    } else if first_repeat(templates.drop_last()) is Some {
        first_repeat(templates.drop_last())
    } else if repeats_path(templates, templates.len() - 1) {
        Some(templates.len() - 1)
    } else {
        None
    }
}

/// What is wrong with a preset.
pub open spec fn preset_fault(name: Seq<char>, preset: PresetView) -> Option<PresetFault> {
    if preset.stratagems.len() != 4 {
        Some(PresetFault::StratagemCount { name, count: preset.stratagems.len() })
    } else {
        match first_repeat(preset.stratagems) {
            Some(i) => Some(
                PresetFault::DuplicateTemplate { name, path: preset.stratagems[i].path },
            ),
            None => None,
        }
    }
}

proof fn lemma_repeat_stays(templates: Seq<TemplateView>, n: int)
    requires
        0 <= n <= templates.len(),
        first_repeat(templates.take(n)) is Some,
    ensures
        first_repeat(templates) == first_repeat(templates.take(n)),
    decreases templates.len() - n,
{
    if n < templates.len() {
        assert(templates.take(n + 1).drop_last() == templates.take(n));
        lemma_repeat_stays(templates, n + 1);
    } else {
        assert(templates.take(n) == templates);
    }
}

/// Checks that a preset has four Stratagems and that no two share a template.
pub fn validate_preset(name: &str, preset: &Preset) -> (r: Result<(), PresetError>)
    ensures
        match r {
            Ok(_) => preset_fault(name@, preset@) is None,
            Err(error) => preset_fault(name@, preset@) == Some(error@),
        },
{
    let templates = &preset.stratagems;
    let ghost all = preset@.stratagems;
    if templates.len() != 4 {
        return Err(
            PresetError::StratagemCount { name: name.to_string(), count: templates.len() },
        );
    }
    let mut i: usize = 0;
    assert(all.take(0) == Seq::<TemplateView>::empty());
    while i < templates.len()
        invariant
            i <= templates@.len(),
            templates@.len() == 4,
            all == template_views(templates@),
            all == preset@.stratagems,
            first_repeat(all.take(i as int)) is None,
        decreases templates@.len() - i,
    {
        assert(all.take(i + 1).drop_last() == all.take(i as int));
        let ghost here = all.take(i + 1);
        let mut j: usize = 0;
        while j < i
            invariant
                j <= i < templates@.len(),
                templates@.len() == 4,
                all == template_views(templates@),
                all == preset@.stratagems,
                here == all.take(i + 1),
                first_repeat(all.take(i as int)) is None,
                here.drop_last() == all.take(i as int),
                forall|k: int| 0 <= k < j ==> (#[trigger] here[k]).path != here[i as int].path,
            decreases i - j,
        {
            assert(here[j as int] == templates@[j as int]@);
            assert(here[i as int] == templates@[i as int]@);
            if same_text(templates[j].path.as_str(), templates[i].path.as_str()) {
                proof {
                    assert(repeats_path(here, i as int));
                    assert(here.len() - 1 == i);
                    lemma_repeat_stays(all, i + 1);
                }
                return Err(
                    PresetError::DuplicateTemplate {
                        name: name.to_string(),
                        path: templates[i].path.clone(),
                    },
                );
            }
            j = j + 1;
        }
        assert(!repeats_path(here, i as int));
        i = i + 1;
    }
    assert(all.take(all.len() as int) == all);
    Ok(())
}

/// A character that can stand in the name of a template directory.
pub open spec fn name_char(c: char) -> bool {
    ('a' <= c && c <= 'z') || ('A' <= c && c <= 'Z') || ('0' <= c && c <= '9') || c == '-' || c
        == '_'
}

/// What is wrong with the name of a preset.
pub open spec fn name_fault(name: Seq<char>) -> Option<PresetFault> {
    if name.len() == 0 {
        Some(PresetFault::EmptyName)
    } else if exists|i: int| 0 <= i < name.len() && !name_char(#[trigger] name[i]) {
        Some(PresetFault::BadName(name))
    } else {
        None
    }
}

/// Checks that a name can be used for a template directory.
pub fn validate_preset_name(name: &str) -> (r: Result<(), PresetError>)
    ensures
        match r {
            Ok(_) => name_fault(name@) is None,
            Err(error) => name_fault(name@) == Some(error@),
        },
{
    if name.is_empty() {
        return Err(PresetError::EmptyName);
    }
    let chars = chars_of(name);
    let mut i: usize = 0;
    while i < chars.len()
        invariant
            i <= chars@.len(),
            chars@ == name@,
            name@.len() > 0,
            forall|k: int| 0 <= k < i ==> name_char(#[trigger] name@[k]),
        decreases chars@.len() - i,
    {
        let c = chars[i];
        let good = ('a' <= c && c <= 'z') || ('A' <= c && c <= 'Z') || ('0' <= c && c <= '9') || c
            == '-' || c == '_';
        if !good {
            assert(!name_char(name@[i as int]));
            return Err(PresetError::BadName(name.to_string()));
        }
        i = i + 1;
    }
    Ok(())
}

/// Checks that the file has the version that this version of the tool reads.
pub fn load_preset_file(file: PresetFile) -> (r: Result<PresetFile, PresetError>)
    ensures
        match r {
            Ok(accepted) => accepted == file && file.schema_version == PRESET_SCHEMA_VERSION,
            Err(error) => file.schema_version != PRESET_SCHEMA_VERSION && error@
                == PresetFault::Schema(file.schema_version),
        },
{
    if file.schema_version == PRESET_SCHEMA_VERSION {
        Ok(file)
    } else {
        Err(PresetError::Schema(file.schema_version))
    }
}

// ----- reading and changing the file -------------------------------------------

/// The preset that a file holds under a name, or why there is none.
pub open spec fn stored_preset(file: PresetFile, name: Seq<char>) -> Result<
    PresetView,
    PresetFault,
> {
    if file.schema_version != PRESET_SCHEMA_VERSION {
        Err(PresetFault::Schema(file.schema_version))
    } else if !file.contents().contains_key(name) {
        Err(PresetFault::NotFound(name))
    } else {
        Ok(file.contents()[name])
    }
}

fn find_preset(file: &PresetFile, name: &str) -> (r: Result<Preset, PresetError>)
    ensures
        match stored_preset(*file, name@) {
            Ok(preset) => r matches Ok(found) && found@ == preset,
            Err(fault) => r matches Err(error) && error@ == fault,
        },
{
    if file.schema_version != PRESET_SCHEMA_VERSION {
        return Err(PresetError::Schema(file.schema_version));
    }
    match file.presets.get(name) {
        Some(preset) => Ok(preset.clone()),
        None => Err(PresetError::NotFound(name.to_string())),
    }
}

fn store_preset(file: &mut PresetFile, name: &str, preset: Preset)
    ensures
        final(file).schema_version == old(file).schema_version,
        final(file).contents() == old(file).contents().insert(name@, preset@),
{
    let ghost before = file.presets.map();
    file.presets.insert(name.to_string(), preset);
    assert(preset_views(before.insert(name@, preset)) =~= preset_views(before).insert(
        name@,
        preset@,
    ));
}

/// The preset with the given name, when it is a valid one.
pub fn load_preset(file: &PresetFile, name: &str) -> (r: Result<Preset, PresetError>)
    ensures
        match stored_preset(*file, name@) {
            Ok(preset) => match preset_fault(name@, preset) {
                Some(fault) => r matches Err(error) && error@ == fault,
                None => r matches Ok(found) && found@ == preset,
            },
            Err(fault) => r matches Err(error) && error@ == fault,
        },
{
    match find_preset(file, name) {
        Ok(preset) => match validate_preset(name, &preset) {
            Ok(_) => Ok(preset),
            Err(error) => Err(error),
        },
        Err(error) => Err(error),
    }
}

/// All presets of the file; none when there is no file.
pub fn load_presets(file: Option<PresetFile>) -> (r: Result<TextMap<Preset>, PresetError>)
    ensures
        match file {
            None => r matches Ok(presets) && presets.map() == Map::<Seq<char>, Preset>::empty(),
            Some(file) => if file.schema_version == PRESET_SCHEMA_VERSION {
                r matches Ok(presets) && presets == file.presets
            } else {
                r matches Err(error) && error@ == PresetFault::Schema(file.schema_version)
            },
        },
{
    match file {
        None => Ok(TextMap::new()),
        Some(file) => match load_preset_file(file) {
            Ok(file) => Ok(file.presets),
            Err(error) => Err(error),
        },
    }
}

/// Records the identified catalog ids for the Stratagem slots of a preset.
pub fn set_preset_stratagems(
    file: &mut PresetFile,
    name: &str,
    ids: &[Option<String>; 4],
) -> (r: Result<Preset, PresetError>)
    ensures
        final(file).schema_version == old(file).schema_version,
        match stored_preset(*old(file), name@) {
            Ok(preset) => {
                &&& r matches Ok(saved) && saved@ == preset.with_ids(id_texts(ids@))
                &&& final(file).contents() == old(file).contents().insert(
                    name@,
                    preset.with_ids(id_texts(ids@)),
                )
            },
            Err(fault) => r matches Err(error) && error@ == fault && *final(file) == *old(file),
        },
{
    let mut preset = match find_preset(file, name) {
        Ok(preset) => preset,
        Err(error) => {
            return Err(error);
        },
    };
    let ghost start = preset@;
    let ghost texts = id_texts(ids@);
    let mut i: usize = 0;
    assert(start.with_ids(texts.take(0)).stratagems =~= start.stratagems);
    while i < preset.stratagems.len() && i < 4
        invariant
            i <= 4,
            i <= preset.stratagems@.len(),
            texts == id_texts(ids@),
            texts.len() == 4,
            preset@ == start.with_ids(texts.take(i as int)),
        decreases 4 - i,
    {
        let ghost before = preset@;
        let template = LocalTemplate {
            path: preset.stratagems[i].path.clone(),
            geometry: preset.stratagems[i].geometry,
            stratagem: copy_of(&ids[i]),
        };
        assert(before.stratagems[i as int] == preset.stratagems@[i as int]@);
        assert(texts[i as int] == option_text(ids@[i as int]));
        preset.stratagems.set(i, template);
        assert(preset@.stratagems =~= before.stratagems.update(i as int, template@));
        assert(preset@.stratagems =~= start.with_ids(texts.take(i + 1)).stratagems);
        i = i + 1;
    }
    assert(preset@.stratagems =~= start.with_ids(texts).stratagems);
    let saved = preset.clone();
    store_preset(file, name, preset);
    Ok(saved)
}

/// Overrides the catalog id of one Stratagem slot, counted from 0.
pub fn set_preset_stratagem(
    file: &mut PresetFile,
    name: &str,
    slot: usize,
    id: Option<String>,
) -> (r: Result<Preset, PresetError>)
    ensures
        final(file).schema_version == old(file).schema_version,
        match stored_preset(*old(file), name@) {
            Ok(preset) => if slot < preset.stratagems.len() {
                let changed = preset.with_id(slot as int, option_text(id));
                &&& r matches Ok(saved) && saved@ == changed
                &&& final(file).contents() == old(file).contents().insert(name@, changed)
            } else {
                &&& r matches Err(error) && error@ == (PresetFault::NoSlot {
                    name: name@,
                    slot: slot as nat,
                })
                &&& *final(file) == *old(file)
            },
            Err(fault) => r matches Err(error) && error@ == fault && *final(file) == *old(file),
        },
{
    let mut preset = match find_preset(file, name) {
        Ok(preset) => preset,
        Err(error) => {
            return Err(error);
        },
    };
    if slot >= preset.stratagems.len() {
        return Err(PresetError::NoSlot { name: name.to_string(), slot });
    }
    let ghost before = preset@;
    let template = LocalTemplate {
        path: preset.stratagems[slot].path.clone(),
        geometry: preset.stratagems[slot].geometry,
        stratagem: id,
    };
    assert(before.stratagems[slot as int] == preset.stratagems@[slot as int]@);
    preset.stratagems.set(slot, template);
    assert(preset@.stratagems =~= before.stratagems.update(slot as int, template@));
    let saved = preset.clone();
    store_preset(file, name, preset);
    Ok(saved)
}

/// What deleting a preset takes.
pub struct DeletePlan {
    /// The file to write, when the preset was in it.
    pub file: Option<PresetFile>,
    /// The directory with the preset's templates.
    pub directory: String,
}

/// The directory with the templates of a preset.
pub open spec fn directory_text(name: Seq<char>) -> Seq<char> {
    "local_templates/"@ + name
}

/// The template of a Stratagem slot, counted from 0.
pub open spec fn slot_path(name: Seq<char>, index: nat) -> Seq<char> {
    "local_templates/"@ + name + "/stratagem-"@ + decimal(index + 1) + ".png"@
}

/// The template of the Booster.
pub open spec fn booster_path(name: Seq<char>) -> Seq<char> {
    "local_templates/"@ + name + "/booster.png"@
}

/// The template of the fallback Booster.
pub open spec fn fallback_path(name: Seq<char>) -> Seq<char> {
    "local_templates/"@ + name + "/fallback-booster.png"@
}

fn path_in_directory(name: &str, file: &str) -> (r: String)
    ensures
        r@ == "local_templates/"@ + name@ + file@,
{
    let mut out = "local_templates/".to_string();
    out.push_str(name);
    out.push_str(file);
    out
}

fn path_of_slot(name: &str, index: usize) -> (r: String)
    ensures
        r@ == slot_path(name@, index as nat),
{
    let mut out = "local_templates/".to_string();
    out.push_str(name);
    out.push_str("/stratagem-");
    out.push_str(ordinal_of(index).as_str());
    out.push_str(".png");
    out
}

/// Removes a preset and its captured templates.
pub fn delete_preset(stored: Option<PresetFile>, name: &str) -> (r: Result<DeletePlan, PresetError>)
    ensures
        match name_fault(name@) {
            Some(fault) => r matches Err(error) && error@ == fault,
            None => if stored is Some && stored->0.schema_version != PRESET_SCHEMA_VERSION {
                r matches Err(error) && error@ == PresetFault::Schema(stored->0.schema_version)
            } else {
                &&& r matches Ok(plan)
                &&& plan.directory@ == directory_text(name@)
                &&& match plan.file {
                    Some(file) => {
                        &&& stored is Some
                        &&& stored->0.contents().contains_key(name@)
                        &&& file.schema_version == PRESET_SCHEMA_VERSION
                        &&& file.contents() == stored->0.contents().remove(name@)
                    },
                    None => stored is Some ==> !stored->0.contents().contains_key(name@),
                }
            },
        },
{
    match validate_preset_name(name) {
        Ok(_) => {},
        Err(error) => {
            return Err(error);
        },
    }
    let mut changed: Option<PresetFile> = None;
    if let Some(file) = stored {
        let mut file = match load_preset_file(file) {
            Ok(file) => file,
            Err(error) => {
                return Err(error);
            },
        };
        let ghost before = file.presets.map();
        if file.presets.remove(name).is_some() {
            assert(preset_views(before.remove(name@)) =~= preset_views(before).remove(name@));
            changed = Some(file);
        }
    }
    let mut directory = "local_templates/".to_string();
    directory.push_str(name);
    Ok(DeletePlan { file: changed, directory })
}

// ----- saving ------------------------------------------------------------------

/// Which captured sample an image comes from.
#[derive(Debug, Clone, Copy, PartialEq, Eq, Structural)]
pub enum SampleSource {
    Stratagem(usize),
    Booster,
}

/// An image to write.
#[derive(Debug)]
pub struct TemplateWrite {
    pub path: String,
    pub source: SampleSource,
}

/// The images to write as mathematical values.
pub open spec fn write_views(writes: Seq<TemplateWrite>) -> Seq<(Seq<char>, SampleSource)> {
    writes.map_values(|write: TemplateWrite| (write.path@, write.source))
}

/// A preset that was saved, and what is left to do for it.
pub struct SavedPreset {
    pub preset: Preset,
    /// The file to write.
    pub file: PresetFile,
    /// Images to remove where they exist.
    pub removals: Vec<String>,
}

/// What saving a captured preset takes: images to write in this order, and how it
/// ends once they are written.
pub struct SavePlan {
    pub writes: Vec<TemplateWrite>,
    pub outcome: Result<SavedPreset, PresetError>,
}

/// An image without pixels.
pub open spec fn empty_sample(sample: ImageSample) -> bool {
    sample.image.width == 0 || sample.image.height == 0
}

fn is_empty_sample(sample: &ImageSample) -> (r: bool)
    ensures
        r == empty_sample(*sample),
{
    sample.image.width == 0 || sample.image.height == 0
}

/// What is wrong before any image is written.
pub open spec fn save_refused(
    stored: Option<PresetFile>,
    name: Seq<char>,
    captured: CapturedPreset,
) -> Option<PresetFault> {
    if name_fault(name) is Some {
        name_fault(name)
    } else if captured.stratagems@.len() != 4 {
        Some(PresetFault::CapturedCount { name, count: captured.stratagems@.len() })
    } else if exists|i: int|
        0 <= i < captured.stratagems@.len()
            && !(#[trigger] captured.stratagems@[i]).geometry.usable() {
        Some(PresetFault::CapturedGeometry(name))
    } else if stored is Some && stored->0.schema_version != PRESET_SCHEMA_VERSION {
        Some(PresetFault::Schema(stored->0.schema_version))
    } else {
        None
    }
}

/// The place of the first sample without pixels.
pub open spec fn first_empty(samples: Seq<ImageSample>) -> Option<int>
    decreases samples.len(),
{
    if samples.len() == 0 {
        None
    } else if first_empty(samples.drop_last()) is Some {
        first_empty(samples.drop_last())
    } else if empty_sample(samples.last()) {
        Some(samples.len() - 1)
    } else {
        None
    }
}

proof fn lemma_first_empty_stays(samples: Seq<ImageSample>, n: int)
    requires
        0 <= n <= samples.len(),
        first_empty(samples.take(n)) is Some,
    ensures
        first_empty(samples) == first_empty(samples.take(n)),
    decreases samples.len() - n,
{
    if n < samples.len() {
        assert(samples.take(n + 1).drop_last() == samples.take(n));
        lemma_first_empty_stays(samples, n + 1);
    } else {
        assert(samples.take(n) == samples);
    }
}

/// What is wrong with a captured Booster.
pub open spec fn booster_fault(name: Seq<char>, booster: Option<ImageSample>) -> Option<
    PresetFault,
> {
    match booster {
        Some(sample) => if !sample.geometry.usable() {
            Some(PresetFault::BoosterGeometry(name))
        } else if empty_sample(sample) {
            Some(PresetFault::EmptyImage)
        } else {
            None
        },
        None => None,
    }
}

/// The images of the first `n` Stratagem slots.
pub open spec fn slot_writes(name: Seq<char>, n: nat) -> Seq<(Seq<char>, SampleSource)> {
    Seq::new(n, |i: int| (slot_path(name, i as nat), SampleSource::Stratagem(i as usize)))
}

/// The images of a captured preset.
pub open spec fn all_writes(name: Seq<char>, captured: CapturedPreset) -> Seq<
    (Seq<char>, SampleSource),
> {
    slot_writes(name, captured.stratagems@.len()) + (if captured.booster is Some {
        seq![(booster_path(name), SampleSource::Booster)]
    } else {
        Seq::empty()
    })
}

/// The templates of the first `n` captured Stratagems.
pub open spec fn slot_templates(name: Seq<char>, samples: Seq<ImageSample>, n: nat) -> Seq<
    TemplateView,
> {
    Seq::new(
        n,
        |i: int|
            TemplateView {
                path: slot_path(name, i as nat),
                geometry: samples[i].geometry,
                stratagem: None,
            },
    )
}

/// The preset that a capture is saved as.
pub open spec fn captured_preset(name: Seq<char>, captured: CapturedPreset) -> PresetView {
    PresetView {
        stratagems: slot_templates(name, captured.stratagems@, captured.stratagems@.len()),
        booster: match captured.booster {
            Some(sample) => Some(
                TemplateView {
                    path: booster_path(name),
                    geometry: sample.geometry,
                    stratagem: None,
                },
            ),
            None => None,
        },
        fallback_booster: None,
    }
}

/// The presets of a file that may not be there yet.
pub open spec fn stored_contents(stored: Option<PresetFile>) -> Map<Seq<char>, PresetView> {
    match stored {
        Some(file) => file.contents(),
        None => Map::empty(),
    }
}

/// The images that a saved capture leaves no use for.
pub open spec fn stale_images(name: Seq<char>, captured: CapturedPreset) -> Seq<Seq<char>> {
    seq![fallback_path(name)] + (if captured.booster is None {
        seq![booster_path(name)]
    } else {
        Seq::empty()
    })
}

/// Checks what can be checked of a captured preset before the preset file is read.
pub fn check_captured(name: &str, captured: &CapturedPreset) -> (r: Result<(), PresetError>)
    ensures
        match r {
            Ok(_) => save_refused(None, name@, *captured) is None,
            Err(error) => save_refused(None, name@, *captured) == Some(error@),
        },
{
    match validate_preset_name(name) {
        Ok(_) => {},
        Err(error) => {
            return Err(error);
        },
    }
    let count: usize = captured.stratagems.len();
    if count != 4 {
        return Err(PresetError::CapturedCount { name: name.to_string(), count });
    }
    let mut k: usize = 0;
    while k < count
        invariant
            k <= count,
            count == captured.stratagems@.len(),
            count == 4,
            name_fault(name@) is None,
            forall|i: int|
                0 <= i < k ==> (#[trigger] captured.stratagems@[i]).geometry.usable(),
        decreases count - k,
    {
        if !captured.stratagems[k].geometry.is_usable() {
            return Err(PresetError::CapturedGeometry(name.to_string()));
        }
        k = k + 1;
    }
    Ok(())
}

/// Saves a captured preset under a name, in place of one that is there.
pub fn save_captured_preset(
    stored: Option<PresetFile>,
    name: &str,
    captured: &CapturedPreset,
) -> (r: SavePlan)
    ensures
        match save_refused(stored, name@, *captured) {
            Some(fault) => {
                &&& r.writes@.len() == 0
                &&& r.outcome matches Err(error) && error@ == fault
            },
            None => match first_empty(captured.stratagems@) {
                Some(i) => {
                    &&& write_views(r.writes@) == slot_writes(name@, i as nat)
                    &&& r.outcome matches Err(error) && error@ == PresetFault::EmptyImage
                },
                None => match booster_fault(name@, captured.booster) {
                    Some(fault) => {
                        &&& write_views(r.writes@) == slot_writes(name@, 4)
                        &&& r.outcome matches Err(error) && error@ == fault
                    },
                    None => {
                        &&& write_views(r.writes@) == all_writes(name@, *captured)
                        &&& r.outcome matches Ok(saved)
                        &&& saved.preset@ == captured_preset(name@, *captured)
                        &&& saved.file.schema_version == PRESET_SCHEMA_VERSION
                        &&& saved.file.contents() == stored_contents(stored).insert(
                            name@,
                            captured_preset(name@, *captured),
                        )
                        &&& crate::text::views(saved.removals@) == stale_images(name@, *captured)
                    },
                },
            },
        },
{
    let mut writes: Vec<TemplateWrite> = Vec::new();
    match check_captured(name, captured) {
        Ok(_) => {},
        Err(error) => {
            return SavePlan { writes, outcome: Err(error) };
        },
    }
    let count: usize = captured.stratagems.len();
    let ghost held = stored_contents(stored);
    let mut file = match stored {
        Some(file) => match load_preset_file(file) {
            Ok(file) => file,
            Err(error) => {
                return SavePlan { writes, outcome: Err(error) };
            },
        },
        None => PresetFile::default(),
    };
    assert(save_refused(stored, name@, *captured) is None);
    assert(file.contents() == held);

    let ghost samples = captured.stratagems@;
    let mut stratagems: Vec<LocalTemplate> = Vec::new();
    let mut index: usize = 0;
    assert(samples.take(0) == Seq::<ImageSample>::empty());
    assert(write_views(writes@) =~= slot_writes(name@, 0));
    assert(template_views(stratagems@) =~= slot_templates(name@, samples, 0));
    while index < count
        invariant
            index <= count,
            count == captured.stratagems@.len(),
            count == 4,
            samples == captured.stratagems@,
            save_refused(stored, name@, *captured) is None,
            first_empty(samples.take(index as int)) is None,
            write_views(writes@) == slot_writes(name@, index as nat),
            template_views(stratagems@) == slot_templates(name@, samples, index as nat),
        decreases count - index,
    {
        let sample = &captured.stratagems[index];
        assert(samples.take(index + 1).drop_last() == samples.take(index as int));
        assert(samples.take(index + 1).last() == *sample);
        if is_empty_sample(sample) {
            proof {
                lemma_first_empty_stays(samples, index + 1);
            }
            return SavePlan { writes, outcome: Err(PresetError::EmptyImage) };
        }
        let path = path_of_slot(name, index);
        let ghost written = write_views(writes@);
        let ghost made = template_views(stratagems@);
        let write = TemplateWrite { path: path.clone(), source: SampleSource::Stratagem(index) };
        writes.push(write);
        let template = LocalTemplate { path, geometry: sample.geometry, stratagem: None };
        stratagems.push(template);
        assert(write_views(writes@) =~= written.push(
            (slot_path(name@, index as nat), SampleSource::Stratagem(index)),
        ));
        assert(write_views(writes@) =~= slot_writes(name@, (index + 1) as nat));
        assert(template_views(stratagems@) =~= made.push(template@));
        assert(template_views(stratagems@) =~= slot_templates(
            name@,
            samples,
            (index + 1) as nat,
        ));
        index = index + 1;
    }
    assert(samples.take(samples.len() as int) == samples);

    let mut booster: Option<LocalTemplate> = None;
    let mut removals: Vec<String> = Vec::new();
    removals.push(path_in_directory(name, "/fallback-booster.png"));
    match &captured.booster {
        Some(sample) => {
            if !sample.geometry.is_usable() {
                let error = PresetError::BoosterGeometry(name.to_string());
                return SavePlan { writes, outcome: Err(error) };
            }
            if is_empty_sample(sample) {
                return SavePlan { writes, outcome: Err(PresetError::EmptyImage) };
            }
            let path = path_in_directory(name, "/booster.png");
            let ghost written = write_views(writes@);
            writes.push(TemplateWrite { path: path.clone(), source: SampleSource::Booster });
            booster = Some(LocalTemplate { path, geometry: sample.geometry, stratagem: None });
            assert(write_views(writes@) =~= written.push(
                (booster_path(name@), SampleSource::Booster),
            ));
        },
        None => {
            removals.push(path_in_directory(name, "/booster.png"));
        },
    }
    assert(write_views(writes@) =~= all_writes(name@, *captured));
    assert(crate::text::views(removals@) =~= stale_images(name@, *captured));
    let preset = Preset { stratagems, booster, fallback_booster: None };
    assert(preset@ =~= captured_preset(name@, *captured));
    file.schema_version = PRESET_SCHEMA_VERSION;
    store_preset(&mut file, name, preset.clone());
    SavePlan { writes, outcome: Ok(SavedPreset { preset, file, removals }) }
}

/// What saving a fallback Booster takes: an image to write, and how it ends once
/// it is written.
pub struct FallbackPlan {
    pub write: Option<String>,
    pub outcome: Result<(Preset, PresetFile), PresetError>,
}

/// What is wrong with the name of a preset or the sample of its fallback Booster.
pub open spec fn fallback_sample_fault(name: Seq<char>, sample: ImageSample) -> Option<PresetFault> {
    if name_fault(name) is Some {
        name_fault(name)
    } else if !sample.geometry.usable() {
        Some(PresetFault::FallbackGeometry(name))
    } else {
        None
    }
}

/// Checks what can be checked of a fallback Booster before the preset file is read.
pub fn check_fallback(name: &str, sample: &ImageSample) -> (r: Result<(), PresetError>)
    ensures
        match r {
            Ok(_) => fallback_sample_fault(name@, *sample) is None,
            Err(error) => fallback_sample_fault(name@, *sample) == Some(error@),
        },
{
    match validate_preset_name(name) {
        Ok(_) => {},
        Err(error) => {
            return Err(error);
        },
    }
    if !sample.geometry.is_usable() {
        return Err(PresetError::FallbackGeometry(name.to_string()));
    }
    Ok(())
}

/// What is wrong before the image of a fallback Booster is written.
pub open spec fn fallback_refused(file: PresetFile, name: Seq<char>, sample: ImageSample) -> Option<
    PresetFault,
> {
    if fallback_sample_fault(name, sample) is Some {
        fallback_sample_fault(name, sample)
    } else {
        match stored_preset(file, name) {
            Err(fault) => Some(fault),
            Ok(_) => if empty_sample(sample) {
                Some(PresetFault::EmptyImage)
            } else {
                None
            },
        }
    }
}

/// A preset with another fallback Booster.
pub open spec fn with_fallback(preset: PresetView, name: Seq<char>, sample: ImageSample) -> PresetView {
    PresetView {
        fallback_booster: Some(
            TemplateView {
                path: fallback_path(name),
                geometry: sample.geometry,
                stratagem: None,
            },
        ),
        ..preset
    }
}

/// Saves a Booster for when the one of a preset is taken.
pub fn save_fallback_booster(file: PresetFile, name: &str, sample: &ImageSample) -> (r: FallbackPlan)
    ensures
        match fallback_refused(file, name@, *sample) {
            Some(fault) => {
                &&& r.write is None
                &&& r.outcome matches Err(error) && error@ == fault
            },
            None => {
                let saved = with_fallback(stored_preset(file, name@)->Ok_0, name@, *sample);
                &&& option_text(r.write) == Some(fallback_path(name@))
                &&& match preset_fault(name@, saved) {
                    Some(fault) => r.outcome matches Err(error) && error@ == fault,
                    None => {
                        &&& r.outcome matches Ok((preset, changed))
                        &&& preset@ == saved
                        &&& changed.schema_version == PRESET_SCHEMA_VERSION
                        &&& changed.contents() == file.contents().insert(name@, saved)
                    },
                }
            },
        },
{
    match check_fallback(name, sample) {
        Ok(_) => {},
        Err(error) => {
            return FallbackPlan { write: None, outcome: Err(error) };
        },
    }
    let mut preset = match find_preset(&file, name) {
        Ok(preset) => preset,
        Err(error) => {
            return FallbackPlan { write: None, outcome: Err(error) };
        },
    };
    if is_empty_sample(sample) {
        return FallbackPlan { write: None, outcome: Err(PresetError::EmptyImage) };
    }
    let path = path_in_directory(name, "/fallback-booster.png");
    preset.fallback_booster = Some(
        LocalTemplate { path: path.clone(), geometry: sample.geometry, stratagem: None },
    );
    match validate_preset(name, &preset) {
        Ok(_) => {},
        Err(error) => {
            return FallbackPlan { write: Some(path), outcome: Err(error) };
        },
    }
    let mut changed = file;
    store_preset(&mut changed, name, preset.clone());
    FallbackPlan { write: Some(path), outcome: Ok((preset, changed)) }
}

// ----- looking at templates ------------------------------------------------------

/// What is known of the file of a template.
#[derive(Debug)]
pub struct TemplateFile {
    /// Why the path of the template is refused, when it is.
    pub path_error: Option<TemplatePathError>,
    /// The path as it is shown to the user.
    pub shown: String,
    pub is_file: bool,
}

/// What is wrong with a template.
pub open spec fn template_problem(template: TemplateView, file: TemplateFile) -> Option<Seq<char>> {
    if !template.geometry.usable() {
        Some("invalid sample geometry for "@ + template.path)
    } else {
        match file.path_error {
            Some(error) => Some(
                "invalid template path "@ + quoted_text(template.path) + ": "@
                    + error.message_text(),
            ),
            None => if !file.is_file {
                Some("missing local template "@ + file.shown@)
            } else {
                None
            },
        }
    }
}

/// The first thing that is wrong with any of the templates.
pub open spec fn first_problem(templates: Seq<TemplateView>, files: Seq<TemplateFile>) -> Option<
    Seq<char>,
>
    decreases templates.len(),
{
    if templates.len() == 0 {
        None
    } else if first_problem(templates.drop_last(), files) is Some {
        first_problem(templates.drop_last(), files)
    } else {
        template_problem(templates.last(), files[templates.len() - 1])
    }
}

proof fn lemma_problem_stays(templates: Seq<TemplateView>, files: Seq<TemplateFile>, n: int)
    requires
        0 <= n <= templates.len(),
        first_problem(templates.take(n), files) is Some,
    ensures
        first_problem(templates, files) == first_problem(templates.take(n), files),
    decreases templates.len() - n,
{
    if n < templates.len() {
        assert(templates.take(n + 1).drop_last() == templates.take(n));
        lemma_problem_stays(templates, files, n + 1);
    } else {
        assert(templates.take(n) == templates);
    }
}

fn problem_of(template: &LocalTemplate, file: &TemplateFile) -> (r: Option<String>)
    ensures
        option_text(r) == template_problem(template@, *file),
{
    if !template.geometry.is_usable() {
        let mut out = "invalid sample geometry for ".to_string();
        out.push_str(template.path.as_str());
        return Some(out);
    }
    match file.path_error {
        Some(error) => {
            let mut out = "invalid template path ".to_string();
            out.push_str(quoted(template.path.as_str()).as_str());
            out.push_str(": ");
            out.push_str(error.message());
            Some(out)
        },
        None => {
            if !file.is_file {
                let mut out = "missing local template ".to_string();
                out.push_str(file.shown.as_str());
                Some(out)
            } else {
                None
            }
        },
    }
}

/// Why the templates of a preset cannot be used, when they cannot. `files` tells
/// of the template files in the order Stratagems, Booster, fallback Booster.
pub fn invalid_preset_reason(preset: &Preset, files: &Vec<TemplateFile>) -> (r: Option<String>)
    requires
        files@.len() == preset@.templates().len(),
    ensures
        option_text(r) == first_problem(preset@.templates(), files@),
{
    let ghost all = preset@.templates();
    let count: usize = preset.stratagems.len();
    let total: usize = files.len();
    let mut i: usize = 0;
    assert(all.take(0) == Seq::<TemplateView>::empty());
    while i < count
        invariant
            i <= count,
            count == preset.stratagems@.len(),
            all == preset@.templates(),
            files@.len() == all.len(),
            total == files@.len(),
            first_problem(all.take(i as int), files@) is None,
        decreases count - i,
    {
        assert(all.take(i + 1).drop_last() == all.take(i as int));
        assert(all.take(i + 1).last() == preset.stratagems@[i as int]@);
        let problem = problem_of(&preset.stratagems[i], &files[i]);
        if problem.is_some() {
            proof {
                lemma_problem_stays(all, files@, i + 1);
            }
            return problem;
        }
        i = i + 1;
    }
    if let Some(template) = &preset.booster {
        assert(all.take(i + 1).drop_last() == all.take(i as int));
        assert(all.take(i + 1).last() == template@);
        let problem = problem_of(template, &files[i]);
        if problem.is_some() {
            proof {
                lemma_problem_stays(all, files@, i + 1);
            }
            return problem;
        }
        i = i + 1;
    }
    if let Some(template) = &preset.fallback_booster {
        assert(all.take(i + 1).drop_last() == all.take(i as int));
        assert(all.take(i + 1).last() == template@);
        let problem = problem_of(template, &files[i]);
        if problem.is_some() {
            proof {
                lemma_problem_stays(all, files@, i + 1);
            }
            return problem;
        }
        i = i + 1;
    }
    assert(all.take(all.len() as int) == all);
    None
}

/// Takes the image of a template as a sample. `center_inside` says whether the
/// center of the icon is no further right or down than the image is wide and
/// high.
pub fn load_template_sample(
    template: &LocalTemplate,
    image: PixelImage,
    center_inside: bool,
) -> (r: Result<ImageSample, PresetError>)
    ensures
        if template.geometry.usable() && center_inside {
            r matches Ok(sample) && sample.image == image && sample.geometry == template.geometry
        } else {
            r matches Err(error) && error@ == PresetFault::SampleGeometry(template.path@)
        },
{
    if template.geometry.is_usable() && center_inside {
        Ok(ImageSample { image, geometry: template.geometry })
    } else {
        Err(PresetError::SampleGeometry(template.path.clone()))
    }
}

// ----- files of older versions ----------------------------------------------------

/// An error of the `serde_json` crate.
#[verifier::external_type_specification]
#[verifier::external_body]
pub struct ExJsonError(serde_json::Error);

/// The number that a JSON document has under a key of its top level: `None` when
/// the bytes are not JSON, and `Some(None)` when there is no such number.
pub uninterp spec fn json_number(bytes: Seq<u8>, key: Seq<char>) -> Option<Option<u64>>;

/// `serde_json::from_slice` into a `Value`, followed by `Value::get` and
/// `Value::as_u64`. What is found depends on the bytes and the key alone and is
/// named by `json_number`.
#[verifier::external_body]
fn read_json_number(bytes: &[u8], key: &str) -> (r: Result<Option<u64>, serde_json::Error>)
    ensures
        match r {
            Ok(number) => json_number(bytes@, key@) == Some(number),
            Err(_) => json_number(bytes@, key@) is None,
        },
{
    let document: serde_json::Value = serde_json::from_slice(bytes)?;
    Ok(document.get(key).and_then(serde_json::Value::as_u64))
}

/// Why it was not settled whether a preset file comes from an older version.
pub enum ArchiveError {
    /// The file is not JSON.
    Unreadable(serde_json::Error),
    /// The file comes from a newer version.
    Newer(PresetError),
}

/// Whether a preset file with the given version is one to put aside: it is when
/// its version is older or missing. A newer one is refused.
pub fn judge_schema_version(version: Option<u64>) -> (r: Result<bool, PresetError>)
    ensures
        match version {
            Some(version) => if version > PRESET_SCHEMA_VERSION {
                r matches Err(error) && error@ == PresetFault::NewerSchema(version)
            } else {
                r == Ok::<bool, PresetError>(version != PRESET_SCHEMA_VERSION)
            },
            None => r == Ok::<bool, PresetError>(true),
        },
{
    match version {
        Some(version) => {
            if version == PRESET_SCHEMA_VERSION as u64 {
                Ok(false)
            } else if version > PRESET_SCHEMA_VERSION as u64 {
                Err(PresetError::NewerSchema(version))
            } else {
                Ok(true)
            }
        },
        None => Ok(true),
    }
}

/// Whether the preset file, when there is one, is to be put aside because an older
/// version wrote it.
pub fn archive_legacy_preset_file(file: Option<&[u8]>) -> (r: Result<bool, ArchiveError>)
    ensures
        match file {
            None => r == Ok::<bool, ArchiveError>(false),
            Some(bytes) => match json_number(unmarked(bytes@), "schema_version"@) {
                None => r matches Err(ArchiveError::Unreadable(_)),
                Some(Some(version)) if version > PRESET_SCHEMA_VERSION => {
                    r matches Err(ArchiveError::Newer(error)) && error@ == PresetFault::NewerSchema(
                        version,
                    )
                },
                Some(version) => r == Ok::<bool, ArchiveError>(
                    version != Some(PRESET_SCHEMA_VERSION as u64),
                ),
            },
        },
{
    let bytes = match file {
        Some(bytes) => without_byte_order_mark(bytes),
        None => {
            return Ok(false);
        },
    };
    let version = match read_json_number(bytes, "schema_version") {
        Ok(version) => version,
        Err(error) => {
            return Err(ArchiveError::Unreadable(error));
        },
    };
    match judge_schema_version(version) {
        Ok(old_file) => Ok(old_file),
        Err(error) => Err(ArchiveError::Newer(error)),
    }
}

// ----- laws ---------------------------------------------------------------------

/// A template below the directory of a preset, given by the name of its file.
proof fn lemma_path_in_directory(name: Seq<char>, file: Seq<char>)
    requires
        name_fault(name) is None,
        file.len() > 2,
        forall|i: int| 0 <= i < file.len() ==> path_char(#[trigger] file[i]),
    ensures
        plain_path("local_templates/"@ + name + seq!['/'] + file),
        split("local_templates/"@ + name + seq!['/'] + file, '/')[0] == "local_templates"@,
{
    reveal_strlit("local_templates/");
    reveal_strlit("local_templates");
    reveal_strlit(".");
    reveal_strlit("..");
    let dir = "local_templates"@;
    let tail = name + seq!['/'] + file;
    let whole = "local_templates/"@ + name + seq!['/'] + file;
    assert("local_templates/"@ =~= dir + seq!['/']);
    assert(whole =~= dir + seq!['/'] + tail);
    assert forall|i: int| 0 <= i < name.len() implies path_char(#[trigger] name[i]) && name[i]
        != '.' && name[i] != '/' by {
        assert(name_char(name[i]));
    }
    assert(!dir.contains('/'));
    assert(!name.contains('/'));
    assert(!file.contains('/'));
    lemma_split_single(dir, '/');
    lemma_split_single(name, '/');
    lemma_split_single(file, '/');
    lemma_split_concat(dir, tail, '/');
    lemma_split_concat(name, file, '/');
    assert(split(whole, '/') =~= seq![dir, name, file]);
    assert(name[0] != '.');
    assert forall|i: int| 0 <= i < whole.len() implies path_char(#[trigger] whole[i]) || whole[i]
        == '/' by {
        if i < dir.len() {
            assert(whole[i] == dir[i]);
        } else if i > dir.len() && i < dir.len() + 1 + name.len() {
            assert(whole[i] == name[i - dir.len() - 1]);
        } else if i > dir.len() + 1 + name.len() {
            assert(whole[i] == file[i - dir.len() - 2 - name.len()]);
        }
    }
}

proof fn lemma_small_decimal(n: nat)
    requires
        n < 10,
    ensures
        decimal(n).len() == 1,
        '0' <= decimal(n)[0] && decimal(n)[0] <= '9',
        decimal(n)[0] as int == 48 + n,
{
}

/// The path is accepted as that of a template, on every platform.
pub open spec fn inside_templates(path: Seq<char>) -> bool {
    portable_path(path) && path_fault(false, named_parts(split(path, '/'))) is None
}

/// Whatever is written for a preset with a valid name lies inside the template
/// directory, on every platform.
pub proof fn lemma_template_paths_resolve(name: Seq<char>, index: nat)
    requires
        name_fault(name) is None,
        index < 4,
    ensures
        inside_templates(slot_path(name, index)),
        inside_templates(booster_path(name)),
        inside_templates(fallback_path(name)),
{
    reveal_strlit("/stratagem-");
    reveal_strlit("stratagem-");
    reveal_strlit(".png");
    reveal_strlit("/booster.png");
    reveal_strlit("booster.png");
    reveal_strlit("/fallback-booster.png");
    reveal_strlit("fallback-booster.png");
    lemma_small_decimal(index + 1);
    let file = "stratagem-"@ + decimal(index + 1) + ".png"@;
    assert(slot_path(name, index) =~= "local_templates/"@ + name + seq!['/'] + file);
    lemma_path_in_directory(name, file);
    assert(booster_path(name) =~= "local_templates/"@ + name + seq!['/'] + "booster.png"@);
    lemma_path_in_directory(name, "booster.png"@);
    assert(fallback_path(name) =~= "local_templates/"@ + name + seq!['/']
        + "fallback-booster.png"@);
    lemma_path_in_directory(name, "fallback-booster.png"@);
    lemma_plain_path(slot_path(name, index));
    lemma_plain_path(booster_path(name));
    lemma_plain_path(fallback_path(name));
}

/// A capture that is saved is a valid preset.
pub proof fn lemma_captured_preset_valid(name: Seq<char>, captured: CapturedPreset)
    requires
        captured.stratagems@.len() == 4,
    ensures
        preset_fault(name, captured_preset(name, captured)) is None,
{
    let templates = captured_preset(name, captured).stratagems;
    assert forall|i: int, j: int| 0 <= i < j < 4 implies templates[i].path != templates[j].path by {
        lemma_small_decimal((i + 1) as nat);
        lemma_small_decimal((j + 1) as nat);
        let place: int = ("local_templates/"@ + name + "/stratagem-"@).len() as int;
        assert(slot_path(name, i as nat)[place] == decimal((i + 1) as nat)[0]);
        assert(slot_path(name, j as nat)[place] == decimal((j + 1) as nat)[0]);
    }
    lemma_no_repeat(templates, 4);
    assert(templates.take(4) == templates);
}

proof fn lemma_no_repeat(templates: Seq<TemplateView>, n: int)
    requires
        0 <= n <= templates.len(),
        forall|i: int, j: int|
            0 <= i < j < templates.len() ==> (#[trigger] templates[i]).path != (
            #[trigger] templates[j]).path,
    ensures
        first_repeat(templates.take(n)) is None,
    decreases n,
{
    if n > 0 {
        lemma_no_repeat(templates, n - 1);
        let here = templates.take(n);
        assert(here.drop_last() == templates.take(n - 1));
        if repeats_path(here, n - 1) {
            let j = choose|j: int| 0 <= j < n - 1 && (#[trigger] here[j]).path == here[n - 1].path;
            assert(templates[j].path == templates[n - 1].path);
        }
    }
}

/// The Stratagems of a valid preset have templates of their own.
pub proof fn lemma_valid_templates_differ(templates: Seq<TemplateView>)
    requires
        first_repeat(templates) is None,
    ensures
        forall|i: int, j: int|
            0 <= i < j < templates.len() ==> (#[trigger] templates[i]).path != (
            #[trigger] templates[j]).path,
    decreases templates.len(),
{
    if templates.len() > 0 {
        let before = templates.drop_last();
        lemma_valid_templates_differ(before);
        assert forall|i: int, j: int| 0 <= i < j < templates.len() implies (
        #[trigger] templates[i]).path != (#[trigger] templates[j]).path by {
            assert(before[i] == templates[i]);
            if j < before.len() {
                assert(before[j] == templates[j]);
            }
        }
    }
}

/// What was saved is what is loaded: a file that holds a capture gives it back
/// under its name, and all other presets as they were.
pub proof fn lemma_load_gives_back_save(
    before: Map<Seq<char>, PresetView>,
    after: PresetFile,
    name: Seq<char>,
    captured: CapturedPreset,
    other: Seq<char>,
)
    requires
        captured.stratagems@.len() == 4,
        after.schema_version == PRESET_SCHEMA_VERSION,
        after.contents() == before.insert(name, captured_preset(name, captured)),
        other != name,
    ensures
        stored_preset(after, name) == Ok::<PresetView, PresetFault>(
            captured_preset(name, captured),
        ),
        preset_fault(name, captured_preset(name, captured)) is None,
        after.contents().contains_key(other) == before.contains_key(other),
        before.contains_key(other) ==> after.contents()[other] == before[other],
{
    lemma_captured_preset_valid(name, captured);
}

/// A preset that was deleted is not found any more, and all other presets are as
/// they were.
pub proof fn lemma_deleted_preset_is_gone(
    before: Map<Seq<char>, PresetView>,
    after: PresetFile,
    name: Seq<char>,
    other: Seq<char>,
)
    requires
        after.schema_version == PRESET_SCHEMA_VERSION,
        after.contents() == before.remove(name),
        other != name,
    ensures
        stored_preset(after, name) == Err::<PresetView, PresetFault>(PresetFault::NotFound(name)),
        after.contents().contains_key(other) == before.contains_key(other),
        before.contains_key(other) ==> after.contents()[other] == before[other],
{
}

/// Saving a fallback Booster for a valid preset succeeds as far as the preset is
/// concerned, and changes nothing else of it.
pub proof fn lemma_fallback_keeps_preset(name: Seq<char>, preset: PresetView, sample: ImageSample)
    requires
        preset_fault(name, preset) is None,
    ensures
        preset_fault(name, with_fallback(preset, name, sample)) is None,
        with_fallback(preset, name, sample).ids() == preset.ids(),
        with_fallback(preset, name, sample).stratagems == preset.stratagems,
        with_fallback(preset, name, sample).booster == preset.booster,
        with_fallback(preset, name, sample).fallback_booster->0.path == fallback_path(name),
{
}

/// Ids that are recorded are the ids of the preset, and recording them changes
/// nothing that makes the preset valid.
pub proof fn lemma_recorded_ids(name: Seq<char>, preset: PresetView, ids: Seq<Option<Seq<char>>>)
    requires
        preset_fault(name, preset) is None,
        ids.len() == 4,
    ensures
        preset.with_ids(ids).ids() == ids,
        preset_fault(name, preset.with_ids(ids)) is None,
        preset.with_ids(ids).booster == preset.booster,
        preset.with_ids(ids).fallback_booster == preset.fallback_booster,
{
    assert(preset.with_ids(ids).ids() =~= ids);
    lemma_paths_decide_repeats(preset.stratagems, preset.with_ids(ids).stratagems);
}

/// Overriding the id of one slot leaves the others as they were.
pub proof fn lemma_one_id(name: Seq<char>, preset: PresetView, slot: int, id: Option<Seq<char>>)
    requires
        preset_fault(name, preset) is None,
        0 <= slot < 4,
    ensures
        preset.with_id(slot, id).ids() == preset.ids().update(slot, id),
        preset_fault(name, preset.with_id(slot, id)) is None,
{
    assert(preset.with_id(slot, id).ids() =~= preset.ids().update(slot, id));
    lemma_paths_decide_repeats(preset.stratagems, preset.with_id(slot, id).stratagems);
}

proof fn lemma_paths_decide_repeats(a: Seq<TemplateView>, b: Seq<TemplateView>)
    requires
        a.len() == b.len(),
        forall|i: int| 0 <= i < a.len() ==> (#[trigger] a[i]).path == (#[trigger] b[i]).path,
    ensures
        first_repeat(a) == first_repeat(b),
    decreases a.len(),
{
    if a.len() > 0 {
        let x = a.drop_last();
        let y = b.drop_last();
        assert forall|i: int| 0 <= i < x.len() implies (#[trigger] x[i]).path == (
        #[trigger] y[i]).path by {
            assert(a[i].path == b[i].path);
        }
        lemma_paths_decide_repeats(x, y);
        let n: int = a.len() - 1;
        assert(a[n].path == b[n].path);
        if repeats_path(a, n) {
            let j = choose|j: int| 0 <= j < n && (#[trigger] a[j]).path == a[n].path;
            assert(b[j].path == b[n].path);
        }
        if repeats_path(b, n) {
            let j = choose|j: int| 0 <= j < n && (#[trigger] b[j]).path == b[n].path;
            assert(a[j].path == a[n].path);
        }
    }
}

/// A preset is valid exactly when it has four Stratagems and no two have the same template.
#[verifier::spinoff_prover]
#[verifier::rlimit(30)]
pub proof fn lemma_valid_preset(name: Seq<char>, preset: PresetView)
    ensures
        preset_fault(name, preset) is None <==> preset.stratagems.len() == 4 && forall|
            i: int,
            j: int,
        |
            0 <= i < j < 4 ==> (#[trigger] preset.stratagems[i]).path != (
            #[trigger] preset.stratagems[j]).path,
        preset.stratagems.len() != 4 ==> preset_fault(name, preset) == Some(
            PresetFault::StratagemCount { name, count: preset.stratagems.len() },
        ),
        preset_fault(name, preset) matches Some(PresetFault::DuplicateTemplate {
            name: told,
            path,
        }) ==> told == name && exists|i: int, j: int|
            0 <= i < j < 4 && (#[trigger] preset.stratagems[i]).path == path && (
            #[trigger] preset.stratagems[j]).path == path,
{
    let templates = preset.stratagems;
    if templates.len() == 4 {
        lemma_repeat_found(templates);
        if first_repeat(templates) is None {
            lemma_valid_templates_differ(templates);
        }
    }
}

proof fn lemma_repeat_found(templates: Seq<TemplateView>)
    ensures
        first_repeat(templates) matches Some(j) ==> 0 <= j < templates.len() && exists|i: int|
            0 <= i < j && (#[trigger] templates[i]).path == templates[j].path,
    decreases templates.len(),
{
    if templates.len() > 0 {
        let before = templates.drop_last();
        lemma_repeat_found(before);
        match first_repeat(before) {
            Some(j) => {
                let i = choose|i: int|
                    0 <= i < j && (#[trigger] before[i]).path == before[j].path;
                assert(templates[i] == before[i] && templates[j] == before[j]);
            },
            None => {},
        }
    }
}

/// Recording ids leaves everything of a preset but the ids: the templates, their places in
/// the image and the Boosters. Each slot gets the id at its own place.
pub proof fn lemma_only_ids_change(
    preset: PresetView,
    ids: Seq<Option<Seq<char>>>,
    slot: int,
    id: Option<Seq<char>>,
)
    requires
        ids.len() == preset.stratagems.len(),
        0 <= slot < preset.stratagems.len(),
    ensures
        preset.with_ids(ids).booster == preset.booster,
        preset.with_ids(ids).fallback_booster == preset.fallback_booster,
        preset.with_ids(ids).stratagems.len() == preset.stratagems.len(),
        forall|i: int|
            #![trigger preset.with_ids(ids).stratagems[i]]
            0 <= i < ids.len() ==> {
                &&& preset.with_ids(ids).stratagems[i].path == preset.stratagems[i].path
                &&& preset.with_ids(ids).stratagems[i].geometry == preset.stratagems[i].geometry
                &&& preset.with_ids(ids).stratagems[i].stratagem == ids[i]
            },
        preset.with_id(slot, id).booster == preset.booster,
        preset.with_id(slot, id).fallback_booster == preset.fallback_booster,
        preset.with_id(slot, id).stratagems.len() == preset.stratagems.len(),
        preset.with_id(slot, id).stratagems[slot].path == preset.stratagems[slot].path,
        preset.with_id(slot, id).stratagems[slot].geometry == preset.stratagems[slot].geometry,
        preset.with_id(slot, id).stratagems[slot].stratagem == id,
        forall|i: int|
            0 <= i < preset.stratagems.len() && i != slot ==> #[trigger] preset.with_id(
                slot,
                id,
            ).stratagems[i] == preset.stratagems[i],
{
}

/// The ids of a preset are those of its first four Stratagems, in their order.
pub proof fn lemma_ids_in_order(preset: PresetView)
    ensures
        preset.ids().len() == 4,
        forall|i: int|
            0 <= i < 4 && i < preset.stratagems.len() ==> #[trigger] preset.ids()[i]
                == preset.stratagems[i].stratagem,
        forall|i: int|
            0 <= i < 4 && i >= preset.stratagems.len() ==> (#[trigger] preset.ids()[i]) is None,
{
}

/// A capture is saved slot by slot: the image of a slot is written to the path that the
/// preset has for that slot, with the place of its icon, and no id yet. The Booster is saved
/// the same way where there is one, and there is no fallback Booster.
pub proof fn lemma_capture_is_saved(name: Seq<char>, captured: CapturedPreset)
    requires
        captured.stratagems@.len() <= usize::MAX,
    ensures
        ({
            let preset = captured_preset(name, captured);
            let writes = all_writes(name, captured);
            let n = captured.stratagems@.len();
            &&& preset.stratagems.len() == n
            &&& forall|i: int|
                #![trigger preset.stratagems[i]]
                0 <= i < n ==> {
                    &&& writes[i] == (
                        preset.stratagems[i].path,
                        SampleSource::Stratagem(i as usize),
                    )
                    &&& preset.stratagems[i].path == "local_templates/"@ + name + "/stratagem-"@
                        + decimal((i + 1) as nat) + ".png"@
                    &&& preset.stratagems[i].geometry == captured.stratagems@[i].geometry
                    &&& preset.stratagems[i].stratagem is None
                }
            &&& preset.fallback_booster is None
            &&& captured.booster matches Some(sample) ==> {
                &&& writes.len() == n + 1
                &&& preset.booster is Some
                &&& preset.booster->0.geometry == sample.geometry
                &&& preset.booster->0.path == "local_templates/"@ + name + "/booster.png"@
                &&& writes[n as int] == (preset.booster->0.path, SampleSource::Booster)
            }
            &&& captured.booster is None ==> writes.len() == n && preset.booster is None
        }),
{
}

/// The images that are removed after a capture was saved are that of the fallback Booster
/// and, where no Booster was captured, that of the Booster.
pub proof fn lemma_stale_images(name: Seq<char>, captured: CapturedPreset)
    ensures
        stale_images(name, captured).contains(
            "local_templates/"@ + name + "/fallback-booster.png"@,
        ),
        captured.booster is None ==> stale_images(name, captured).contains(
            "local_templates/"@ + name + "/booster.png"@,
        ) && stale_images(name, captured).len() == 2,
        captured.booster is Some ==> stale_images(name, captured).len() == 1,
{
    let stale = stale_images(name, captured);
    assert(stale[0] == fallback_path(name));
    if captured.booster is None {
        assert(stale[1] == booster_path(name));
    }
}

/// The templates of a preset are looked at in the order of its Stratagems, followed by the
/// Booster and the fallback Booster where there are such.
pub proof fn lemma_template_order(preset: PresetView)
    ensures
        ({
            let all = preset.templates();
            let n = preset.stratagems.len() as int;
            &&& forall|i: int| 0 <= i < n ==> #[trigger] all[i] == preset.stratagems[i]
            &&& preset.booster matches Some(booster) ==> all[n] == booster
            &&& preset.fallback_booster matches Some(fallback) ==> all.last() == fallback
            &&& all.len() == n + (if preset.booster is Some {
                1int
            } else {
                0int
            }) + (if preset.fallback_booster is Some {
                1int
            } else {
                0int
            })
        }),
{
}

proof fn lemma_empty_found(samples: Seq<ImageSample>)
    ensures
        match first_empty(samples) {
            Some(index) => {
                &&& 0 <= index < samples.len()
                &&& samples[index].image.width == 0 || samples[index].image.height == 0
                &&& forall|i: int|
                    0 <= i < index ==> (#[trigger] samples[i]).image.width != 0
                        && samples[i].image.height != 0
            },
            None => forall|i: int|
                0 <= i < samples.len() ==> (#[trigger] samples[i]).image.width != 0
                    && samples[i].image.height != 0,
        },
    decreases samples.len(),
{
    if samples.len() > 0 {
        let before = samples.drop_last();
        lemma_empty_found(before);
        assert forall|i: int| 0 <= i < before.len() implies #[trigger] samples[i]
            == before[i] by {}
    }
}

/// A capture is saved exactly when its name can be that of a directory, it has four
/// Stratagems with usable geometry and pixels, its Booster has both where there is one, and
/// the preset file is of this version where there is one. Images are written up to the first
/// that has no pixels.
#[verifier::spinoff_prover]
#[verifier::rlimit(30)]
pub proof fn lemma_saved_exactly(
    stored: Option<PresetFile>,
    name: Seq<char>,
    captured: CapturedPreset,
)
    ensures
        save_refused(stored, name, captured) is None <==> {
            &&& name.len() > 0
            &&& forall|i: int| 0 <= i < name.len() ==> name_char(#[trigger] name[i])
            &&& captured.stratagems@.len() == 4
            &&& forall|i: int|
                0 <= i < 4 ==> (#[trigger] captured.stratagems@[i]).geometry.usable()
            &&& stored is Some ==> stored->0.schema_version == 1
        },
        match first_empty(captured.stratagems@) {
            Some(index) => {
                &&& 0 <= index < captured.stratagems@.len()
                &&& captured.stratagems@[index].image.width == 0
                    || captured.stratagems@[index].image.height == 0
                &&& forall|i: int|
                    0 <= i < index ==> (#[trigger] captured.stratagems@[i]).image.width != 0
                        && captured.stratagems@[i].image.height != 0
            },
            None => forall|i: int|
                0 <= i < captured.stratagems@.len() ==> (
                #[trigger] captured.stratagems@[i]).image.width != 0
                    && captured.stratagems@[i].image.height != 0,
        },
        booster_fault(name, captured.booster) is None <==> (captured.booster is Some
            ==> captured.booster->0.geometry.usable() && captured.booster->0.image.width != 0
            && captured.booster->0.image.height != 0),
{
    lemma_empty_found(captured.stratagems@);
}

/// A fallback Booster is saved exactly when the name can be that of a directory, the sample
/// has usable geometry and pixels, the file is of this version and it has the preset.
pub proof fn lemma_fallback_saved_exactly(
    file: PresetFile,
    name: Seq<char>,
    sample: ImageSample,
)
    ensures
        fallback_refused(file, name, sample) is None <==> {
            &&& name.len() > 0
            &&& forall|i: int| 0 <= i < name.len() ==> name_char(#[trigger] name[i])
            &&& sample.geometry.usable()
            &&& sample.image.width != 0
            &&& sample.image.height != 0
            &&& file.schema_version == 1
            &&& file.contents().contains_key(name)
        },
        with_fallback(file.contents()[name], name, sample).stratagems
            == file.contents()[name].stratagems,
        with_fallback(file.contents()[name], name, sample).booster
            == file.contents()[name].booster,
        with_fallback(file.contents()[name], name, sample).fallback_booster == Some(
            TemplateView {
                path: "local_templates/"@ + name + "/fallback-booster.png"@,
                geometry: sample.geometry,
                stratagem: None,
            },
        ),
{
}

/// The first problem among the templates of a preset is that of the first template that has
/// one; there is none only when no template has one.
#[verifier::spinoff_prover]
#[verifier::rlimit(30)]
pub proof fn lemma_first_problem(templates: Seq<TemplateView>, files: Seq<TemplateFile>)
    ensures
        match first_problem(templates, files) {
            Some(problem) => exists|i: int|
                #![trigger templates[i]]
                {
                    &&& 0 <= i < templates.len()
                    &&& template_problem(templates[i], files[i]) == Some(problem)
                    &&& forall|j: int|
                        0 <= j < i ==> template_problem(#[trigger] templates[j], files[j]) is None
                },
            None => forall|i: int|
                0 <= i < templates.len() ==> template_problem(
                    #[trigger] templates[i],
                    files[i],
                ) is None,
        },
    decreases templates.len(),
{
    if templates.len() > 0 {
        let before = templates.drop_last();
        let last: int = templates.len() - 1;
        lemma_first_problem(before, files);
        assert forall|i: int| 0 <= i < before.len() implies #[trigger] templates[i]
            == before[i] by {}
        match first_problem(before, files) {
            Some(problem) => {
                let i = choose|i: int|
                    #![trigger before[i]]
                    {
                        &&& 0 <= i < before.len()
                        &&& template_problem(before[i], files[i]) == Some(problem)
                        &&& forall|j: int|
                            0 <= j < i ==> template_problem(
                                #[trigger] before[j],
                                files[j],
                            ) is None
                    };
                assert(templates[i] == before[i]);
                assert forall|j: int| 0 <= j < i implies template_problem(
                    #[trigger] templates[j],
                    files[j],
                ) is None by {
                    assert(before[j] == templates[j]);
                }
            },
            None => {
                assert(templates[last] == templates.last());
                assert forall|j: int| 0 <= j < last implies template_problem(
                    #[trigger] templates[j],
                    files[j],
                ) is None by {
                    assert(before[j] == templates[j]);
                }
            },
        }
    }
}

/// The directory that goes with a deleted preset is the one in which all its templates are.
pub proof fn lemma_directory_holds_templates(name: Seq<char>, index: nat)
    ensures
        (directory_text(name) + "/"@).is_prefix_of(slot_path(name, index)),
        (directory_text(name) + "/"@).is_prefix_of(booster_path(name)),
        (directory_text(name) + "/"@).is_prefix_of(fallback_path(name)),
{
    reveal_strlit("/");
    reveal_strlit("/stratagem-");
    reveal_strlit("/booster.png");
    reveal_strlit("/fallback-booster.png");
    let start = directory_text(name) + "/"@;
    let n = start.len() as int;
    assert(slot_path(name, index).subrange(0, n) =~= start);
    assert(booster_path(name).subrange(0, n) =~= start);
    assert(fallback_path(name).subrange(0, n) =~= start);
}

} // verus!
