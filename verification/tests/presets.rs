use xilous_stratagems_manager::assets::PixelImage;
use xilous_stratagems_manager::preset::{
    archive_legacy_preset_file, check_captured, check_fallback, delete_preset, invalid_preset_reason, judge_schema_version,
    load_preset, load_preset_file, load_presets, load_template_sample, save_captured_preset,
    save_fallback_booster, set_preset_stratagem, set_preset_stratagems, validate_preset,
    validate_preset_name, ArchiveError, CapturedPreset, LocalTemplate, Preset, PresetError,
    PresetFile, SampleSource, TemplateFile,
};
use xilous_stratagems_manager::sample::{ImageSample, SampleGeometry};
use xilous_stratagems_manager::template_path::{resolve_template_path, TemplatePathError};

fn geometry() -> SampleGeometry {
    SampleGeometry {
        center_x: 10.0f32.to_bits(),
        center_y: 12.5f32.to_bits(),
        physical_size: 20.0f32.to_bits(),
    }
}

fn sample(side: u32) -> ImageSample {
    ImageSample {
        image: PixelImage { width: side, height: side, pixels: vec![0; (4 * side * side) as usize] },
        geometry: geometry(),
    }
}

fn captured(booster: bool) -> CapturedPreset {
    CapturedPreset {
        stratagems: vec![sample(2), sample(2), sample(2), sample(2)],
        booster: booster.then_some(sample(2)),
    }
}

fn saved(booster: bool) -> PresetFile {
    save_captured_preset(None, "preset_1", &captured(booster)).outcome.ok().expect("saved").file
}

fn ids(list: [Option<&str>; 4]) -> [Option<String>; 4] {
    list.map(|id| id.map(str::to_string))
}

#[test]
fn geometry_follows_the_numbers() {
    assert!(geometry().is_usable());
    let with = |center: f32, size: f32| SampleGeometry {
        center_x: center.to_bits(),
        center_y: 0.0f32.to_bits(),
        physical_size: size.to_bits(),
    };
    assert!(with(-0.0, 1.0).is_usable());
    assert!(!with(-1.0, 1.0).is_usable());
    assert!(!with(f32::NAN, 1.0).is_usable());
    assert!(!with(1.0, 0.0).is_usable());
    assert!(!with(1.0, -2.0).is_usable());
    assert!(!with(1.0, f32::INFINITY).is_usable());
    assert!(!with(f32::NEG_INFINITY, 1.0).is_usable());
}

#[test]
fn a_captured_preset_is_read_back() {
    let plan = save_captured_preset(None, "preset_1", &captured(true));
    let paths: Vec<&str> = plan.writes.iter().map(|write| write.path.as_str()).collect();
    assert_eq!(
        paths,
        vec![
            "local_templates/preset_1/stratagem-1.png",
            "local_templates/preset_1/stratagem-2.png",
            "local_templates/preset_1/stratagem-3.png",
            "local_templates/preset_1/stratagem-4.png",
            "local_templates/preset_1/booster.png",
        ]
    );
    assert_eq!(plan.writes[2].source, SampleSource::Stratagem(2));
    assert_eq!(plan.writes[4].source, SampleSource::Booster);
    let outcome = plan.outcome.ok().expect("saved");
    assert_eq!(outcome.removals, vec!["local_templates/preset_1/fallback-booster.png"]);
    let preset = load_preset(&outcome.file, "preset_1").ok().expect("loaded");
    assert_eq!(preset.stratagems.len(), 4);
    assert_eq!(preset.stratagems[3].path, "local_templates/preset_1/stratagem-4.png");
    assert_eq!(preset.stratagems[0].geometry, geometry());
    assert!(preset.booster.is_some() && preset.fallback_booster.is_none());
    assert_eq!(preset.stratagem_ids(), ids([None, None, None, None]));
}

#[test]
fn saving_without_a_booster_removes_its_image() {
    let outcome = save_captured_preset(Some(saved(true)), "preset_1", &captured(false))
        .outcome
        .ok()
        .expect("saved");
    assert_eq!(
        outcome.removals,
        vec![
            "local_templates/preset_1/fallback-booster.png",
            "local_templates/preset_1/booster.png"
        ]
    );
    assert!(outcome.preset.booster.is_none());
}

#[test]
fn captures_that_are_refused() {
    let fault = |name: &str, captured: &CapturedPreset| {
        save_captured_preset(None, name, captured).outcome.err().expect("refused")
    };
    assert!(matches!(fault("", &captured(false)), PresetError::EmptyName));
    assert!(matches!(fault("../x", &captured(false)), PresetError::BadName(_)));
    let mut few = captured(false);
    few.stratagems.pop();
    assert!(matches!(fault("preset_1", &few), PresetError::CapturedCount { count: 3, .. }));
    let mut flat = captured(false);
    flat.stratagems[1].geometry.physical_size = 0;
    assert!(matches!(fault("preset_1", &flat), PresetError::CapturedGeometry(_)));
    let mut flat = captured(true);
    flat.booster.as_mut().expect("booster").geometry.physical_size = 0;
    assert!(matches!(fault("preset_1", &flat), PresetError::BoosterGeometry(_)));
    let mut empty = captured(false);
    empty.stratagems[2] = sample(0);
    let plan = save_captured_preset(None, "preset_1", &empty);
    assert_eq!(plan.writes.len(), 2);
    assert!(matches!(plan.outcome, Err(PresetError::EmptyImage)));
}

#[test]
fn identified_ids_are_recorded() {
    let mut file = saved(false);
    let preset = set_preset_stratagems(
        &mut file,
        "preset_1",
        &ids([Some("a"), None, Some("c"), Some("d")]),
    )
    .ok()
    .expect("recorded");
    assert_eq!(preset.stratagem_ids(), ids([Some("a"), None, Some("c"), Some("d")]));
    set_preset_stratagem(&mut file, "preset_1", 1, Some("b".to_string())).ok().expect("set");
    let preset = load_preset(&file, "preset_1").ok().expect("loaded");
    assert_eq!(preset.stratagem_ids(), ids([Some("a"), Some("b"), Some("c"), Some("d")]));
    let error = set_preset_stratagem(&mut file, "preset_1", 4, None).err().expect("no slot");
    assert!(matches!(error, PresetError::NoSlot { slot: 4, .. }));
    let error = set_preset_stratagem(&mut file, "preset_2", 0, None).err().expect("no preset");
    assert!(matches!(error, PresetError::NotFound(_)));
}

#[test]
fn a_fallback_booster_is_added() {
    let plan = save_fallback_booster(saved(true), "preset_1", &sample(2));
    assert_eq!(plan.write.as_deref(), Some("local_templates/preset_1/fallback-booster.png"));
    let (preset, file) = plan.outcome.ok().expect("saved");
    assert!(preset.fallback_booster.is_some());
    assert!(load_preset(&file, "preset_1").is_ok());
    let mut flat = sample(2);
    flat.geometry.physical_size = 0;
    let plan = save_fallback_booster(saved(true), "preset_1", &flat);
    assert!(plan.write.is_none());
    assert!(matches!(plan.outcome, Err(PresetError::FallbackGeometry(_))));
}

#[test]
fn deleting_removes_the_preset() {
    let plan = delete_preset(Some(saved(false)), "preset_1").ok().expect("plan");
    assert_eq!(plan.directory, "local_templates/preset_1");
    let changed = plan.file.expect("changed");
    assert_eq!(changed.presets.len(), 0);
    assert!(matches!(load_preset(&changed, "preset_1"), Err(PresetError::NotFound(_))));
    let plan = delete_preset(Some(saved(false)), "preset_2").ok().expect("plan");
    assert!(plan.file.is_none());
    let plan = delete_preset(None, "preset_2").ok().expect("plan");
    assert!(plan.file.is_none());
    assert!(delete_preset(None, "a/b").is_err());
}

#[test]
fn invalid_presets_are_refused() {
    let template = |path: &str| LocalTemplate {
        path: path.to_string(),
        geometry: geometry(),
        stratagem: None,
    };
    let preset = |paths: &[&str]| Preset {
        stratagems: paths.iter().map(|path| template(path)).collect(),
        booster: None,
        fallback_booster: None,
    };
    assert!(validate_preset("p", &preset(&["a", "b", "c", "d"])).is_ok());
    assert!(matches!(
        validate_preset("p", &preset(&["a", "b", "c"])),
        Err(PresetError::StratagemCount { count: 3, .. })
    ));
    match validate_preset("p", &preset(&["a", "b", "a", "d"])) {
        Err(PresetError::DuplicateTemplate { path, .. }) => assert_eq!(path, "a"),
        _ => panic!("accepted"),
    }
    assert!(validate_preset_name("preset_1").is_ok());
}

#[test]
fn files_of_other_versions_are_refused() {
    let mut file = saved(false);
    file.schema_version += 1;
    assert!(matches!(load_preset_file(file), Err(PresetError::Schema(_))));
    assert_eq!(load_presets(None).ok().expect("none").len(), 0);
    assert_eq!(load_presets(Some(saved(false))).ok().expect("one").len(), 1);
}

#[test]
fn legacy_files_are_put_aside() {
    let version = saved(false).schema_version as u64;
    let judged = |text: String| archive_legacy_preset_file(Some(text.as_bytes()));
    assert!(matches!(archive_legacy_preset_file(None), Ok(false)));
    assert!(matches!(judged(format!("{{\"schema_version\": {version}}}")), Ok(false)));
    assert!(matches!(judged(format!("\u{feff}{{\"schema_version\": {version}}}")), Ok(false)));
    assert!(matches!(judged(format!("{{\"schema_version\": {}}}", version - 1)), Ok(true)));
    assert!(matches!(judged("{\"presets\": {}}".to_string()), Ok(true)));
    assert!(matches!(judged("{\"schema_version\": \"x\"}".to_string()), Ok(true)));
    match judged(format!("{{\"schema_version\": {}}}", version + 1)) {
        Err(ArchiveError::Newer(PresetError::NewerSchema(found))) => assert_eq!(found, version + 1),
        _ => panic!("accepted"),
    }
    assert!(matches!(judged("{".to_string()), Err(ArchiveError::Unreadable(_))));
    assert!(matches!(judge_schema_version(None), Ok(true)));
}

#[test]
fn template_paths_stay_in_their_directory() {
    assert_eq!(
        resolve_template_path("local_templates/preset_1/booster.png").ok().as_deref(),
        Some("local_templates/preset_1/booster.png")
    );
    assert_eq!(resolve_template_path("/local_templates/a.png"), Err(TemplatePathError::Absolute));
    assert_eq!(
        resolve_template_path("local_templates/../a.png"),
        Err(TemplatePathError::InvalidComponent)
    );
    assert!(resolve_template_path("local_templates//a/./b.png").is_ok());
    assert!(resolve_template_path("local_templates/ä b/ü.png").is_ok());
    assert_eq!(
        resolve_template_path(" /../../x"),
        Err(TemplatePathError::InvalidComponent)
    );
    assert_eq!(
        resolve_template_path("./local_templates/a.png"),
        Err(TemplatePathError::InvalidComponent)
    );
    assert_eq!(resolve_template_path("other/a.png"), Err(TemplatePathError::OutsideTemplates));
    assert_eq!(resolve_template_path(""), Err(TemplatePathError::OutsideTemplates));
}

#[test]
fn problems_of_templates_are_told() {
    let preset = load_preset(&saved(true), "preset_1").ok().expect("loaded");
    let file = |is_file: bool, path_error: Option<TemplatePathError>| TemplateFile {
        path_error,
        shown: "shown.png".to_string(),
        is_file,
    };
    let all = |last: TemplateFile| {
        vec![file(true, None), file(true, None), file(true, None), file(true, None), last]
    };
    assert_eq!(invalid_preset_reason(&preset, &all(file(true, None))), None);
    assert_eq!(
        invalid_preset_reason(&preset, &all(file(false, None))).as_deref(),
        Some("missing local template shown.png")
    );
    assert_eq!(
        invalid_preset_reason(&preset, &all(file(true, Some(TemplatePathError::Absolute)))).as_deref(),
        Some("invalid template path \"local_templates/preset_1/booster.png\": local template path must be relative")
    );
}

#[test]
fn samples_need_a_usable_geometry() {
    let preset = load_preset(&saved(false), "preset_1").ok().expect("loaded");
    let sample_ok = load_template_sample(&preset.stratagems[0], sample(2).image, true);
    assert_eq!(sample_ok.ok().expect("sample").geometry, geometry());
    let outside = load_template_sample(&preset.stratagems[0], sample(2).image, false);
    assert!(matches!(outside, Err(PresetError::SampleGeometry(_))));
}

#[test]
fn captures_are_checked_before_the_file() {
    assert!(check_captured("preset_1", &captured(true)).is_ok());
    assert!(check_captured("a/b", &captured(true)).is_err());
    let mut three = captured(false);
    three.stratagems.pop();
    assert!(matches!(
        check_captured("preset_1", &three),
        Err(PresetError::CapturedCount { count: 3, .. })
    ));
    let mut flat = captured(false);
    flat.stratagems[1].geometry.physical_size = 0;
    assert!(matches!(check_captured("preset_1", &flat), Err(PresetError::CapturedGeometry(_))));
    assert!(check_fallback("preset_1", &sample(2)).is_ok());
    assert!(matches!(
        check_fallback("preset_1", &flat.stratagems[1]),
        Err(PresetError::FallbackGeometry(_))
    ));
}
