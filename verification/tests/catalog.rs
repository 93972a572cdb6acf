use xilous_stratagems_manager::assets::{decode_png, decode_rgba8, resize_rgba_box, AssetError, PixelImage};
use xilous_stratagems_manager::catalog::{Catalog, CatalogError, Direction, IconError, RenderedIcon, StratagemEntry};
use xilous_stratagems_manager::item::StratagemCategory;
use xilous_stratagems_manager::text_map::TextMap;

fn entry(id: &str, permit: &str, kind: &str, icon: Option<&str>) -> StratagemEntry {
    StratagemEntry {
        id: id.to_string(),
        name: format!("The {id}"),
        permit: permit.to_string(),
        kind: kind.to_string(),
        code: vec![Direction::Up, Direction::Right, Direction::Down],
        cooldown: "120 s".to_string(),
        icon: icon.map(str::to_string),
    }
}

fn png(width: u32, height: u32) -> Vec<u8> {
    let mut image = image::RgbaImage::new(width, height);
    for (x, y, pixel) in image.enumerate_pixels_mut() {
        pixel.0 = [x as u8, y as u8, 7, 255];
    }
    let mut bytes = std::io::Cursor::new(Vec::new());
    image.write_to(&mut bytes, image::ImageFormat::Png).expect("encode");
    bytes.into_inner()
}

/// A catalog of the shape of the one that ships with the tool.
fn fixture() -> (Catalog, TextMap<Vec<u8>>) {
    let permits = ["Offensive", "supply", " Defensive Permit"];
    let mut entries = Vec::new();
    let mut files = TextMap::new();
    for index in 0..66usize {
        let id = format!("stratagem-{index}");
        let icon = format!("{id}.png");
        entries.push(entry(&id, permits[index % 3], "Orbital", Some(&icon)));
        files.insert(icon, png(8, 8));
    }
    entries.push(entry("reinforce", "", "Mission", Some("reinforce.svg")));
    entries.push(entry("hellbomb", "Supply", "Objective", None));
    files.insert("reinforce.svg".to_string(), b"<svg/>".to_vec());
    let catalog = Catalog::load(entries, "wiki".to_string(), "2026-01-01".to_string());
    (catalog.ok().expect("catalog"), files)
}

#[test]
fn catalog_loads_with_codes_and_icons() {
    let (catalog, files) = fixture();
    assert!(catalog.loadout_entries().len() >= 60);
    for entry in catalog.loadout_entries() {
        assert!(entry.has_code(), "{} has no code", entry.name);
        assert!(
            catalog.icon_bytes(&files, entry).is_some(),
            "{} has no icon",
            entry.name
        );
    }
    assert!(
        catalog
            .get("reinforce")
            .is_some_and(|entry| !entry.is_loadout_item())
    );
}

#[test]
fn icons_rasterize() {
    let (catalog, files) = fixture();
    let loadout = catalog.loadout_entries();
    let entry = loadout.first().expect("entry");
    let icon = catalog.render_icon(&files, &entry.id, 64).ok().expect("render");
    let RenderedIcon::Image(image) = icon else {
        panic!("a vector graphic");
    };
    assert_eq!((image.width, image.height), (64, 64));
    assert!(image.pixels.chunks(4).any(|pixel| pixel[3] > 0));
}

#[test]
fn icons_that_cannot_be_addressed_are_refused() {
    let (catalog, files) = fixture();
    assert!(matches!(
        catalog.render_icon(&files, "stratagem-0", u32::MAX),
        Err(IconError::Resize(AssetError::TooLarge))
    ));
}

#[test]
fn categories_follow_the_permit() {
    assert_eq!(entry("a", " OFFensive", "", None).category(), Some(StratagemCategory::Offensive));
    assert_eq!(entry("a", "supply", "", None).category(), Some(StratagemCategory::Supply));
    assert_eq!(entry("a", "Defensive", "", None).category(), Some(StratagemCategory::Defensive));
    assert_eq!(entry("a", "none", "", None).category(), None);
}

#[test]
fn objective_items_are_not_equipped() {
    assert!(!entry("a", "Supply", " Objective ", None).is_loadout_item());
    assert!(!entry("a", "Supply", "SHIP", None).is_loadout_item());
    assert!(!entry("a", "Supply", "other", None).is_loadout_item());
    assert!(entry("a", "Supply", "Backpack", None).is_loadout_item());
}

#[test]
fn mission_entries_are_those_that_are_not_equipped() {
    let (catalog, _) = fixture();
    let ids: Vec<&str> = catalog.mission_entries().iter().map(|entry| entry.id.as_str()).collect();
    assert_eq!(ids, vec!["reinforce", "hellbomb"]);
}

#[test]
fn names_and_arrows() {
    let (catalog, _) = fixture();
    assert_eq!(catalog.name_of("stratagem-3"), "The stratagem-3");
    assert_eq!(catalog.name_of("gone"), "gone");
    assert_eq!(catalog.get("stratagem-3").expect("entry").arrows(), "↑→↓");
    assert_eq!(catalog.source(), "wiki");
    assert_eq!(catalog.synced_at(), "2026-01-01");
    assert_eq!(catalog.entries().len(), 68);
}

#[test]
fn broken_catalogs_are_refused() {
    let load = |entries: Vec<StratagemEntry>| {
        Catalog::load(entries, String::new(), String::new()).err().expect("refused")
    };
    assert!(matches!(load(vec![]), CatalogError::Empty));
    assert!(matches!(
        load(vec![entry("a", "", "", None), entry("", "", "", None)]),
        CatalogError::EmptyId(1)
    ));
    match load(vec![entry("a", "", "", None), entry("b", "", "", None), entry("a", "", "", None)]) {
        CatalogError::DuplicateId(id) => assert_eq!(id, "a"),
        _ => panic!("another error"),
    }
}

#[test]
fn raster_icons_are_scaled() {
    let (catalog, files) = fixture();
    match catalog.render_icon(&files, "stratagem-0", 8).ok().expect("render") {
        RenderedIcon::Image(image) => {
            assert_eq!((image.width, image.height), (8, 8));
            assert_eq!(&image.pixels[..8], &[0, 0, 7, 255, 1, 0, 7, 255]);
        }
        RenderedIcon::Svg(_) => panic!("not a vector icon"),
    }
    match catalog.render_icon(&files, "stratagem-0", 4).ok().expect("render") {
        RenderedIcon::Image(image) => {
            assert_eq!((image.width, image.height), (4, 4));
            assert_eq!(image.pixels.len(), 64);
            assert_eq!(image.pixels[3], 255);
        }
        RenderedIcon::Svg(_) => panic!("not a vector icon"),
    }
}

#[test]
fn vector_icons_are_handed_on() {
    let (catalog, files) = fixture();
    match catalog.render_icon(&files, "reinforce", 64).ok().expect("render") {
        RenderedIcon::Svg(bytes) => assert_eq!(bytes.as_slice(), b"<svg/>"),
        RenderedIcon::Image(_) => panic!("not a raster icon"),
    }
}

#[test]
fn icons_that_cannot_be_shown() {
    let (catalog, mut files) = fixture();
    let error = catalog.render_icon(&files, "gone", 8).err().expect("unknown");
    assert!(matches!(error, IconError::UnknownId(_)));
    let error = catalog.render_icon(&files, "hellbomb", 8).err().expect("no icon");
    assert!(matches!(error, IconError::NoIcon(_)));
    files.insert("stratagem-0.png".to_string(), vec![1, 2, 3]);
    let error = catalog.render_icon(&files, "stratagem-0", 8).err().expect("broken");
    assert!(matches!(error, IconError::Decode { .. }));
    files.remove("stratagem-1.png");
    let error = catalog.render_icon(&files, "stratagem-1", 8).err().expect("missing");
    assert!(matches!(error, IconError::NotEmbedded(_)));
}

#[test]
fn rgba_images_decode() {
    let image = decode_rgba8(&png(3, 2)).ok().expect("decode");
    assert_eq!((image.width, image.height), (3, 2));
    assert_eq!(image.pixels.len(), 24);
    assert_eq!(&image.pixels[20..], &[2, 1, 7, 255]);
}

#[test]
fn other_images_do_not_decode_as_rgba() {
    assert!(matches!(decode_rgba8(&[1, 2, 3]), Err(AssetError::Header(_))));
    let grey = image::GrayImage::new(2, 2);
    let mut bytes = std::io::Cursor::new(Vec::new());
    grey.write_to(&mut bytes, image::ImageFormat::Png).expect("encode");
    let bytes = bytes.into_inner();
    match decode_rgba8(&bytes) {
        Err(AssetError::NotRgba8(color)) => assert_eq!(color, "L8"),
        _ => panic!("accepted"),
    }
    let image = decode_png(&bytes).ok().expect("any layout");
    assert_eq!(image.pixels, vec![0, 0, 0, 255, 0, 0, 0, 255, 0, 0, 0, 255, 0, 0, 0, 255]);
    let mut cut = png(16, 16);
    cut.truncate(60);
    assert!(matches!(decode_rgba8(&cut), Err(AssetError::Decode(_))));
    assert!(matches!(decode_png(&cut), Err(AssetError::Decode(_))));
}

#[test]
fn resizing_averages() {
    let source = PixelImage {
        width: 2,
        height: 1,
        pixels: vec![0, 100, 0, 255, 200, 100, 0, 255],
    };
    let small = resize_rgba_box(&source, 1, 1).ok().expect("resize");
    assert_eq!((small.width, small.height), (1, 1));
    assert_eq!(small.pixels, vec![100, 100, 0, 255]);
    let same = resize_rgba_box(&source, 2, 1).ok().expect("resize");
    assert_eq!(same.pixels, source.pixels);
    let nothing = PixelImage { width: 0, height: 3, pixels: vec![] };
    let blank = resize_rgba_box(&nothing, 1, 2).ok().expect("resize");
    assert_eq!(blank.pixels, vec![0; 8]);
    assert!(matches!(
        resize_rgba_box(&source, u32::MAX, u32::MAX),
        Err(AssetError::TooLarge)
    ));
}
