//! The Stratagems and their input codes.
use crate::assets::{
    addressable, box_resized, decode_png, png_as_rgba8, resize_rgba_box, AssetError, PixelImage,
};
use crate::ids::option_text;
use crate::item::StratagemCategory;
use crate::text::{
    ascii_lower, ascii_lowered, decimal, decimal_of, ends_with, same_text, starts_with, trim, trimmed,
};
use crate::text_map::TextMap;
use vstd::prelude::*;

verus! {

/// One step of an input code.
#[derive(Debug, Clone, Copy, PartialEq, Eq, Hash, Structural)]
pub enum Direction {
    Up,
    Down,
    Left,
    Right,
}

impl Direction {
    pub open spec fn arrow_char(self) -> char {
        match self {
            Direction::Up => '↑',
            Direction::Down => '↓',
            Direction::Left => '←',
            Direction::Right => '→',
        }
    }

    pub fn arrow(self) -> (r: char)
        ensures
            r == self.arrow_char(),
    {
        match self {
            Direction::Up => '↑',
            Direction::Down => '↓',
            Direction::Left => '←',
            Direction::Right => '→',
        }
    }
}

/// The arrows of a code, one per direction.
pub open spec fn arrows_of(code: Seq<Direction>) -> Seq<char> {
    code.map_values(|direction: Direction| direction.arrow_char())
}

/// The arrows of a code, one per direction.
pub fn code_arrows(code: &[Direction]) -> (r: String)
    ensures
        r@ == arrows_of(code@),
{
    let mut out = String::new();
    let mut i: usize = 0;
    while i < code.len()
        invariant
            i <= code@.len(),
            out@ == arrows_of(code@.take(i as int)),
        decreases code@.len() - i,
    {
        out.push(code[i].arrow());
        assert(arrows_of(code@.take(i + 1)) == arrows_of(code@.take(i as int)).push(
            code@[i as int].arrow_char(),
        ));
        i = i + 1;
    }
    assert(code@.take(code@.len() as int) == code@);
    out
}

/// One Stratagem of the catalog.
#[derive(Debug)]
pub struct StratagemEntry {
    pub id: String,
    pub name: String,
    pub permit: String,
    pub kind: String,
    pub code: Vec<Direction>,
    pub cooldown: String,
    pub icon: Option<String>,
}

/// The category that a permit names.
pub open spec fn permit_category(permit: Seq<char>) -> Option<StratagemCategory> {
    let permit = ascii_lower(trim(permit));
    if "off"@.is_prefix_of(permit) {
        Some(StratagemCategory::Offensive)
    } else if "sup"@.is_prefix_of(permit) {
        Some(StratagemCategory::Supply)
    } else if "def"@.is_prefix_of(permit) {
        Some(StratagemCategory::Defensive)
    } else {
        None
    }
}

/// A kind of Stratagem that is never equipped, whatever its permit.
pub open spec fn mission_kind(kind: Seq<char>) -> bool {
    let kind = ascii_lower(trim(kind));
    kind == "objective"@ || kind == "ship"@ || kind == "other"@
}

impl StratagemEntry {
    /// Whether the Stratagem can be equipped in a loadout slot.
    pub open spec fn equippable(self) -> bool {
        permit_category(self.permit@) is Some && !mission_kind(self.kind@)
    }

    /// Whether the Stratagem is called in missions without being equipped.
    pub open spec fn mission_only(self) -> bool {
        !self.equippable() && self.code@.len() > 0
    }

    /// Loadout category, or `None` for mission Stratagems that cannot be equipped.
    pub fn category(&self) -> (r: Option<StratagemCategory>)
        ensures
            r == permit_category(self.permit@),
    {
        let permit = ascii_lowered(trimmed(self.permit.as_str()).as_str());
        if starts_with(permit.as_str(), "off") {
            Some(StratagemCategory::Offensive)
        } else if starts_with(permit.as_str(), "sup") {
            Some(StratagemCategory::Supply)
        } else if starts_with(permit.as_str(), "def") {
            Some(StratagemCategory::Defensive)
        } else {
            None
        }
    }

    /// Whether the Stratagem can be equipped in a loadout slot. A few objective
    /// items carry a permit, so the kind is checked as well.
    pub fn is_loadout_item(&self) -> (r: bool)
        ensures
            r == self.equippable(),
    {
        if self.category().is_none() {
            return false;
        }
        let kind = ascii_lowered(trimmed(self.kind.as_str()).as_str());
        !(same_text(kind.as_str(), "objective") || same_text(kind.as_str(), "ship") || same_text(
            kind.as_str(),
            "other",
        ))
    }

    pub fn has_code(&self) -> (r: bool)
        ensures
            r == (self.code@.len() > 0),
    {
        self.code.len() > 0
    }

    /// The code as arrows.
    pub fn arrows(&self) -> (r: String)
        ensures
            r@ == arrows_of(self.code@),
    {
        code_arrows(self.code.as_slice())
    }
}

/// Why a catalog was refused.
#[derive(Debug)]
pub enum CatalogError {
    Empty,
    EmptyId(usize),
    DuplicateId(String),
}

impl CatalogError {
    /// The message shown to the user.
    pub open spec fn message_text(self) -> Seq<char> {
        match self {
            CatalogError::Empty => {
                "the embedded stratagem catalog is empty; run tools/sync-stratagems.ps1"@
            },
            CatalogError::EmptyId(index) => "catalog entry "@ + decimal(index as nat)
                + " has an empty id"@,
            CatalogError::DuplicateId(id) => "catalog contains duplicate id "@ + id@,
        }
    }

    /// The message shown to the user.
    pub fn message(&self) -> (r: String)
        ensures
            r@ == self.message_text(),
    {
        match self {
            CatalogError::Empty => {
                "the embedded stratagem catalog is empty; run tools/sync-stratagems.ps1".to_string()
            },
            CatalogError::EmptyId(index) => {
                let mut out = "catalog entry ".to_string();
                out.push_str(decimal_of(*index as u64).as_str());
                out.push_str(" has an empty id");
                out
            },
            CatalogError::DuplicateId(id) => {
                let mut out = "catalog contains duplicate id ".to_string();
                out.push_str(id.as_str());
                out
            },
        }
    }
}

/// An entry before `i` has the id of entry `i`.
pub open spec fn repeats_id(entries: Seq<StratagemEntry>, i: int) -> bool {
    exists|j: int| 0 <= j < i && (#[trigger] entries[j]).id@ == entries[i].id@
}

/// The first `n` entries have ids, and no two the same.
pub open spec fn ids_sound(entries: Seq<StratagemEntry>, n: int) -> bool {
    &&& forall|i: int| 0 <= i < n ==> (#[trigger] entries[i]).id@.len() > 0
    &&& forall|i: int, j: int|
        0 <= i < j < n ==> (#[trigger] entries[i]).id@ != (#[trigger] entries[j]).id@
}

/// The entry with an id.
pub open spec fn entry_with_id(entries: Seq<StratagemEntry>, id: Seq<char>) -> Option<
    StratagemEntry,
> {
    if exists|i: int| 0 <= i < entries.len() && (#[trigger] entries[i]).id@ == id {
        Some(entries[choose|i: int| 0 <= i < entries.len() && (#[trigger] entries[i]).id@ == id])
    } else {
        None
    }
}

/// The map `ids` gives the place of every one of the first `n` entries, and
/// nothing else.
spec fn places_known(entries: Seq<StratagemEntry>, ids: Map<Seq<char>, usize>, n: int) -> bool {
    &&& forall|i: int|
        0 <= i < n ==> ids.contains_key((#[trigger] entries[i]).id@) && ids[entries[i].id@] == i
    &&& forall|id: Seq<char>| #[trigger]
        ids.contains_key(id) ==> ids[id] < n && entries[ids[id] as int].id@ == id
}

/// The known Stratagems, each found by its id.
pub struct Catalog {
    entries: Vec<StratagemEntry>,
    by_id: TextMap<usize>,
    source: String,
    synced_at: String,
}

impl Catalog {
    #[verifier::type_invariant]
    spec fn well_formed(self) -> bool {
        &&& self.entries@.len() > 0
        &&& ids_sound(self.entries@, self.entries@.len() as int)
        &&& places_known(self.entries@, self.by_id.map(), self.entries@.len() as int)
    }

    /// The Stratagems in catalog order.
    pub closed spec fn list(self) -> Seq<StratagemEntry> {
        self.entries@
    }

    pub closed spec fn source_text(self) -> Seq<char> {
        self.source@
    }

    pub closed spec fn synced_text(self) -> Seq<char> {
        self.synced_at@
    }

    /// Builds the catalog. There must be an entry, and every entry must have an id
    /// of its own.
    pub fn load(stratagems: Vec<StratagemEntry>, source: String, synced_at: String) -> (r: Result<
        Catalog,
        CatalogError,
    >)
        ensures
            match r {
                Ok(catalog) => {
                    &&& stratagems@.len() > 0
                    &&& ids_sound(stratagems@, stratagems@.len() as int)
                    &&& catalog.list() == stratagems@
                    &&& catalog.source_text() == source@
                    &&& catalog.synced_text() == synced_at@
                },
                Err(CatalogError::Empty) => stratagems@.len() == 0,
                Err(CatalogError::EmptyId(index)) => {
                    &&& index < stratagems@.len()
                    &&& ids_sound(stratagems@, index as int)
                    &&& stratagems@[index as int].id@.len() == 0
                },
                Err(CatalogError::DuplicateId(id)) => exists|i: int|
                    {
                        &&& 0 <= i < stratagems@.len()
                        &&& ids_sound(stratagems@, i)
                        &&& (#[trigger] stratagems@[i]).id@.len() > 0
                        &&& repeats_id(stratagems@, i)
                        &&& id@ == stratagems@[i].id@
                    },
            },
    {
        if stratagems.len() == 0 {
            return Err(CatalogError::Empty);
        }
        let mut by_id: TextMap<usize> = TextMap::new();
        let mut i: usize = 0;
        while i < stratagems.len()
            invariant
                i <= stratagems@.len(),
                ids_sound(stratagems@, i as int),
                places_known(stratagems@, by_id.map(), i as int),
            decreases stratagems@.len() - i,
        {
            let id = stratagems[i].id.as_str();
            if id.is_empty() {
                return Err(CatalogError::EmptyId(i));
            }
            if by_id.contains_key(id) {
                assert(stratagems@[by_id.map()[id@] as int].id@ == id@);
                assert(repeats_id(stratagems@, i as int));
                return Err(CatalogError::DuplicateId(stratagems[i].id.clone()));
            }
            let ghost before = by_id.map();
            by_id.insert(stratagems[i].id.clone(), i);
            assert(by_id.map() == before.insert(id@, i));
            i = i + 1;
        }
        Ok(Catalog { entries: stratagems, by_id, source, synced_at })
    }

    /// The Stratagems in catalog order.
    pub fn entries(&self) -> (r: &Vec<StratagemEntry>)
        ensures
            r@ == self.list(),
            r@.len() > 0,
            ids_sound(r@, r@.len() as int),
    {
        proof {
            use_type_invariant(self);
        }
        &self.entries
    }

    /// The Stratagem with the id `id`.
    pub fn get(&self, id: &str) -> (r: Option<&StratagemEntry>)
        ensures
            match r {
                Some(entry) => entry_with_id(self.list(), id@) == Some(*entry) && entry.id@ == id@,
                None => entry_with_id(self.list(), id@) is None,
            },
    {
        proof {
            use_type_invariant(self);
        }
        match self.by_id.get(id) {
            Some(place) => {
                assert(self.entries@[*place as int].id@ == id@);
                Some(&self.entries[*place])
            },
            None => None,
        }
    }

    /// The name of a Stratagem, or the id itself when it is unknown.
    pub open spec fn name_text(self, id: Seq<char>) -> Seq<char> {
        match entry_with_id(self.list(), id) {
            Some(entry) => entry.name@,
            None => id,
        }
    }

    /// The name of a Stratagem, or the id itself when it is unknown.
    pub fn name_of(&self, id: &str) -> (r: String)
        ensures
            r@ == self.name_text(id@),
    {
        match self.get(id) {
            Some(entry) => entry.name.clone(),
            None => id.to_string(),
        }
    }

    /// Where the catalog comes from.
    pub fn source(&self) -> (r: &str)
        ensures
            r@ == self.source_text(),
    {
        self.source.as_str()
    }

    /// When the catalog was last brought up to date.
    pub fn synced_at(&self) -> (r: &str)
        ensures
            r@ == self.synced_text(),
    {
        self.synced_at.as_str()
    }

    /// The Stratagems that can be equipped, in catalog order.
    pub fn loadout_entries(&self) -> (r: Vec<&StratagemEntry>)
        ensures
            pointed_at(r@) == self.list().filter(|entry: StratagemEntry| entry.equippable()),
    {
        let mut out: Vec<&StratagemEntry> = Vec::new();
        let ghost wanted = |entry: StratagemEntry| entry.equippable();
        let mut i: usize = 0;
        proof {
            reveal(Seq::filter);
            assert(pointed_at(out@) == self.entries@.take(0).filter(wanted));
        }
        while i < self.entries.len()
            invariant
                i <= self.entries@.len(),
                wanted == (|entry: StratagemEntry| entry.equippable()),
                pointed_at(out@) == self.entries@.take(i as int).filter(wanted),
            decreases self.entries@.len() - i,
        {
            let ghost before = out@;
            if self.entries[i].is_loadout_item() {
                out.push(&self.entries[i]);
                assert(pointed_at(out@) == pointed_at(before).push(self.entries@[i as int]));
            }
            proof {
                reveal(Seq::filter);
                let more = self.entries@.take(i + 1);
                assert(more.drop_last() == self.entries@.take(i as int));
                assert(more.last() == self.entries@[i as int]);
            }
            i = i + 1;
        }
        assert(self.entries@.take(self.entries@.len() as int) == self.entries@);
        out
    }

    /// Stratagems available in every mission regardless of loadout.
    pub fn mission_entries(&self) -> (r: Vec<&StratagemEntry>)
        ensures
            pointed_at(r@) == self.list().filter(|entry: StratagemEntry| entry.mission_only()),
    {
        let mut out: Vec<&StratagemEntry> = Vec::new();
        let ghost wanted = |entry: StratagemEntry| entry.mission_only();
        let mut i: usize = 0;
        proof {
            reveal(Seq::filter);
            assert(pointed_at(out@) == self.entries@.take(0).filter(wanted));
        }
        while i < self.entries.len()
            invariant
                i <= self.entries@.len(),
                wanted == (|entry: StratagemEntry| entry.mission_only()),
                pointed_at(out@) == self.entries@.take(i as int).filter(wanted),
            decreases self.entries@.len() - i,
        {
            let ghost before = out@;
            if !self.entries[i].is_loadout_item() && self.entries[i].has_code() {
                out.push(&self.entries[i]);
                assert(pointed_at(out@) == pointed_at(before).push(self.entries@[i as int]));
            }
            proof {
                reveal(Seq::filter);
                let more = self.entries@.take(i + 1);
                assert(more.drop_last() == self.entries@.take(i as int));
                assert(more.last() == self.entries@[i as int]);
            }
            i = i + 1;
        }
        assert(self.entries@.take(self.entries@.len() as int) == self.entries@);
        out
    }

    /// The bytes of the icon file that an entry names.
    pub fn icon_bytes<'a>(&self, files: &'a TextMap<Vec<u8>>, entry: &StratagemEntry) -> (r: Option<
        &'a Vec<u8>,
    >)
        ensures
            match r {
                Some(bytes) => entry.icon is Some && files.map().contains_key(entry.icon->0@)
                    && *bytes == files.map()[entry.icon->0@],
                None => entry.icon is None || !files.map().contains_key(entry.icon->0@),
            },
    {
        match &entry.icon {
            Some(file) => files.get(file.as_str()),
            None => None,
        }
    }
}

/// Why an icon cannot be shown.
pub enum IconError {
    UnknownId(String),
    NoIcon(String),
    NotEmbedded(String),
    /// The icon file does not decode.
    Decode { file: String, error: AssetError },
    /// The icon could not be resized.
    Resize(AssetError),
}

impl IconError {
    /// The message shown to the user, before what the decoder has to say.
    pub open spec fn message_text(self) -> Seq<char> {
        match self {
            IconError::UnknownId(id) => "unknown stratagem id "@ + id@,
            IconError::NoIcon(id) => "stratagem "@ + id@ + " has no icon"@,
            IconError::NotEmbedded(file) => "icon file "@ + file@
                + " is not embedded; rebuild after syncing"@,
            IconError::Decode { file, .. } => "failed to decode icon "@ + file@,
            IconError::Resize(_) => "failed to resize icon"@,
        }
    }

    /// The message shown to the user, before what the decoder has to say.
    pub fn message(&self) -> (r: String)
        ensures
            r@ == self.message_text(),
    {
        match self {
            IconError::UnknownId(id) => {
                let mut out = "unknown stratagem id ".to_string();
                out.push_str(id.as_str());
                out
            },
            IconError::NoIcon(id) => {
                let mut out = "stratagem ".to_string();
                out.push_str(id.as_str());
                out.push_str(" has no icon");
                out
            },
            IconError::NotEmbedded(file) => {
                let mut out = "icon file ".to_string();
                out.push_str(file.as_str());
                out.push_str(" is not embedded; rebuild after syncing");
                out
            },
            IconError::Decode { file, .. } => {
                let mut out = "failed to decode icon ".to_string();
                out.push_str(file.as_str());
                out
            },
            IconError::Resize(_) => "failed to resize icon".to_string(),
        }
    }
}

/// An icon, or the vector graphic that it is drawn from.
pub enum RenderedIcon<'a> {
    Image(PixelImage),
    Svg(&'a Vec<u8>),
}

/// An icon file is a vector graphic when its name ends in `.svg`, in any case.
pub open spec fn vector_file(file: Seq<char>) -> bool {
    ".svg"@.is_suffix_of(ascii_lower(file))
}

impl Catalog {
    /// The icon file of a Stratagem.
    pub open spec fn icon_file(self, id: Seq<char>) -> Option<Seq<char>> {
        match entry_with_id(self.list(), id) {
            Some(entry) => option_text(entry.icon),
            None => None,
        }
    }

    /// The icon of `id`, `size` pixels wide and high. A vector graphic is handed
    /// back as it is stored, to be drawn at that size.
    pub fn render_icon<'a>(
        &self,
        files: &'a TextMap<Vec<u8>>,
        id: &str,
        size: u32,
    ) -> (r: Result<RenderedIcon<'a>, IconError>)
        ensures
            match r {
                Ok(icon) => {
                    &&& self.icon_file(id@) is Some
                    &&& files.map().contains_key(self.icon_file(id@)->0)
                    &&& match icon {
                        RenderedIcon::Svg(bytes) => vector_file(self.icon_file(id@)->0) && *bytes
                            == files.map()[self.icon_file(id@)->0],
                        RenderedIcon::Image(image) => {
                            let decoded = png_as_rgba8(files.map()[self.icon_file(id@)->0]@);
                            &&& !vector_file(self.icon_file(id@)->0)
                            &&& image.width == size
                            &&& image.height == size
                            &&& image.well_formed()
                            &&& decoded is Some
                            &&& if (decoded->0).0 == size && (decoded->0).1 == size {
                                image.pixels@ == (decoded->0).2
                            } else {
                                &&& addressable(size, size)
                                &&& image.pixels@ == box_resized(
                                    (decoded->0).0,
                                    (decoded->0).1,
                                    (decoded->0).2,
                                    size,
                                    size,
                                )
                            }
                        },
                    }
                },
                Err(IconError::UnknownId(unknown)) => unknown@ == id@ && entry_with_id(
                    self.list(),
                    id@,
                ) is None,
                Err(IconError::NoIcon(known)) => known@ == id@ && entry_with_id(
                    self.list(),
                    id@,
                ) is Some && self.icon_file(id@) is None,
                Err(IconError::NotEmbedded(file)) => self.icon_file(id@) == Some(file@)
                    && !files.map().contains_key(file@),
                Err(IconError::Decode { file, error }) => {
                    &&& self.icon_file(id@) == Some(file@)
                    &&& !vector_file(file@)
                    &&& files.map().contains_key(file@)
                    &&& png_as_rgba8(files.map()[file@]@) is None
                },
                Err(IconError::Resize(error)) => {
                    let decoded = png_as_rgba8(files.map()[self.icon_file(id@)->0]@);
                    &&& self.icon_file(id@) is Some
                    &&& !vector_file(self.icon_file(id@)->0)
                    &&& files.map().contains_key(self.icon_file(id@)->0)
                    &&& decoded is Some
                    &&& error is TooLarge
                    &&& (decoded->0).0 != size || (decoded->0).1 != size
                    &&& !addressable(size, size)
                },
            },
    {
        let entry = match self.get(id) {
            Some(entry) => entry,
            None => {
                return Err(IconError::UnknownId(id.to_string()));
            },
        };
        let file = match &entry.icon {
            Some(file) => file,
            None => {
                return Err(IconError::NoIcon(id.to_string()));
            },
        };
        let bytes = match files.get(file.as_str()) {
            Some(bytes) => bytes,
            None => {
                return Err(IconError::NotEmbedded(file.clone()));
            },
        };
        if ends_with(ascii_lowered(file.as_str()).as_str(), ".svg") {
            return Ok(RenderedIcon::Svg(bytes));
        }
        let image = match decode_png(bytes) {
            Ok(image) => image,
            Err(error) => {
                return Err(IconError::Decode { file: file.clone(), error });
            },
        };
        match resize_rgba_box(&image, size, size) {
            Ok(image) => Ok(RenderedIcon::Image(image)),
            Err(error) => Err(IconError::Resize(error)),
        }
    }
}

/// The entries that a list of references points at.
pub open spec fn pointed_at(list: Seq<&StratagemEntry>) -> Seq<StratagemEntry> {
    list.map_values(|entry: &StratagemEntry| *entry)
}

/// An id names one entry at most: whatever place holds the id, its entry is the
/// one that is found.
pub proof fn lemma_id_finds_its_entry(entries: Seq<StratagemEntry>, i: int)
    requires
        ids_sound(entries, entries.len() as int),
        0 <= i < entries.len(),
    ensures
        entry_with_id(entries, entries[i].id@) == Some(entries[i]),
{
    assert(entries[i].id@ == entries[i].id@);
    let id = entries[i].id@;
    let j = choose|j: int| 0 <= j < entries.len() && (#[trigger] entries[j]).id@ == id;
    if j < i {
        assert(entries[j].id@ != entries[i].id@);
    }
    if i < j {
        assert(entries[i].id@ != entries[j].id@);
    }
}

/// A Stratagem is equipped or called in every mission, never both.
pub proof fn lemma_mission_entries_not_equippable(entry: StratagemEntry)
    ensures
        !(entry.equippable() && entry.mission_only()),
        entry.code@.len() > 0 ==> entry.equippable() || entry.mission_only(),
{
}

/// The category of a permit goes by the first three letters of its text, whatever their case
/// and whatever white space surrounds it.
pub proof fn lemma_permit_category(permit: Seq<char>)
    ensures
        ({
            let text = ascii_lower(trim(permit));
            let category = permit_category(permit);
            &&& category == Some(StratagemCategory::Offensive) <==> text.len() >= 3 && text[0]
                == 'o' && text[1] == 'f' && text[2] == 'f'
            &&& category == Some(StratagemCategory::Supply) <==> text.len() >= 3 && text[0] == 's'
                && text[1] == 'u' && text[2] == 'p'
            &&& category == Some(StratagemCategory::Defensive) <==> text.len() >= 3 && text[0]
                == 'd' && text[1] == 'e' && text[2] == 'f'
        }),
{
    reveal_strlit("off");
    reveal_strlit("sup");
    reveal_strlit("def");
    let text = ascii_lower(trim(permit));
    if text.len() >= 3 {
        if text[0] == 'o' && text[1] == 'f' && text[2] == 'f' {
            assert("off"@ =~= text.subrange(0, 3));
        }
        if text[0] == 's' && text[1] == 'u' && text[2] == 'p' {
            assert("sup"@ =~= text.subrange(0, 3));
        }
        if text[0] == 'd' && text[1] == 'e' && text[2] == 'f' {
            assert("def"@ =~= text.subrange(0, 3));
        }
    }
    if "off"@.is_prefix_of(text) {
        assert(text.subrange(0, 3)[0] == 'o' && text.subrange(0, 3)[1] == 'f' && text.subrange(
            0,
            3,
        )[2] == 'f');
    }
    if "sup"@.is_prefix_of(text) {
        assert(text.subrange(0, 3)[0] == 's' && text.subrange(0, 3)[1] == 'u' && text.subrange(
            0,
            3,
        )[2] == 'p');
    }
    if "def"@.is_prefix_of(text) {
        assert(text.subrange(0, 3)[0] == 'd' && text.subrange(0, 3)[1] == 'e' && text.subrange(
            0,
            3,
        )[2] == 'f');
    }
}

/// A Stratagem can be equipped when its permit names a category and its kind is not one of
/// those for missions. One that cannot be equipped but has a code is for missions.
pub proof fn lemma_equippable(entry: StratagemEntry)
    ensures
        ({
            let kind = ascii_lower(trim(entry.kind@));
            entry.equippable() <==> permit_category(entry.permit@) is Some && kind
                != "objective"@ && kind != "ship"@ && kind != "other"@
        }),
        entry.mission_only() <==> !entry.equippable() && entry.code@.len() > 0,
{
}

/// The arrows of a code point where its directions do.
pub proof fn lemma_arrows(code: Seq<Direction>)
    ensures
        arrows_of(code).len() == code.len(),
        forall|i: int|
            #![trigger code[i]]
            0 <= i < code.len() ==> {
                &&& code[i] == Direction::Up ==> arrows_of(code)[i] == '\u{2191}'
                &&& code[i] == Direction::Down ==> arrows_of(code)[i] == '\u{2193}'
                &&& code[i] == Direction::Left ==> arrows_of(code)[i] == '\u{2190}'
                &&& code[i] == Direction::Right ==> arrows_of(code)[i] == '\u{2192}'
            },
{
}

/// The name of a Stratagem is that of the entry with its id, and the id itself where there
/// is none.
pub proof fn lemma_names(catalog: Catalog, id: Seq<char>)
    ensures
        (forall|e: int|
            0 <= e < catalog.list().len() ==> (#[trigger] catalog.list()[e]).id@ != id)
            ==> catalog.name_text(id) == id,
        (exists|e: int|
            0 <= e < catalog.list().len() && (#[trigger] catalog.list()[e]).id@ == id)
            ==> exists|e: int|
            0 <= e < catalog.list().len() && (#[trigger] catalog.list()[e]).id@ == id
                && catalog.list()[e].name@ == catalog.name_text(id),
{
}

} // verus!
