use gw2md::error::ErrorKind;
use gw2md::json::Json;
use gw2md::markdown::{buffs_to_markdown, skills_to_markdown, traits_to_markdown};
use gw2md::pipeline::render_all;
use gw2md::project::{shrink_specializations, SkillRec, TraitRec};

fn obj(pairs: Vec<(&str, Json)>) -> Json {
    Json::Obj(pairs.into_iter().map(|(k, v)| (k.to_string(), v)).collect())
}

fn s(text: &str) -> Json {
    Json::Str(text.to_string())
}

fn skill(prof: &str, typ: &str, name: &str, icon: &str) -> SkillRec {
    SkillRec {
        name: Some(s(name)),
        icon: Some(s(icon)),
        typ: s(typ),
        profession: s(prof),
    }
}

#[test]
fn boundary_detection_emits_headers_exactly_at_key_changes() {
    let skills = vec![
        skill("A", "heal", "Z", "z.png"),
        skill("A", "heal", "M", "m.png"),
        skill("A", "util", "B", "b.png"),
        skill("B", "heal", "C", "c.png"),
    ];
    let lines = skills_to_markdown(skills).unwrap();
    assert_eq!(
        lines,
        vec![
            "## A".to_string(),
            "### heal".to_string(),
            "[M]: m.png".to_string(),
            "[Z]: z.png".to_string(),
            "### util".to_string(),
            "[B]: b.png".to_string(),
            "## B".to_string(),
            "### heal".to_string(),
            "[C]: c.png".to_string(),
        ]
    );
}

#[test]
fn rendering_the_same_input_twice_gives_identical_output() {
    let build = || {
        vec![
            skill("A", "heal", "M", "m.png"),
            skill("A", "util", "B", "b.png"),
            skill("A", "heal", "Z", "z.png"),
        ]
    };
    let first = skills_to_markdown(build()).unwrap();
    let second = skills_to_markdown(build()).unwrap();
    assert_eq!(first, second);
}

#[test]
fn enrichment_renders_profession_and_specialization_headers() {
    let spec_rec = obj(vec![
        ("id", Json::UInt(1)),
        ("profession", s("Guardian")),
        ("name", s("Zeal")),
    ]);
    let index = shrink_specializations(Json::Arr(vec![spec_rec])).unwrap();
    let traits = vec![TraitRec {
        name: Some(s("X")),
        icon: Some(s("i")),
        specialization: Some(Json::UInt(1)),
    }];
    let lines = traits_to_markdown(traits, &index).unwrap();
    assert_eq!(
        lines,
        vec!["## Guardian".to_string(), "### Zeal".to_string(), "[X]: i".to_string()]
    );
}

#[test]
fn unjoinable_trait_fails_rendering() {
    let index = shrink_specializations(Json::Arr(vec![])).unwrap();
    let traits = vec![TraitRec {
        name: Some(s("X")),
        icon: Some(s("i")),
        specialization: Some(Json::UInt(5)),
    }];
    let e = traits_to_markdown(traits, &index).unwrap_err();
    assert_eq!(e.kind, ErrorKind::Join);
    assert_eq!(e.message, "cannot find spec");
}

#[test]
fn trait_without_specialization_fails_rendering() {
    let index = shrink_specializations(Json::Arr(vec![])).unwrap();
    let traits = vec![TraitRec { name: Some(s("X")), icon: Some(s("i")), specialization: None }];
    let e = traits_to_markdown(traits, &index).unwrap_err();
    assert_eq!(e.kind, ErrorKind::Shape);
    assert_eq!(e.message, "no specialization");
}

#[test]
fn skill_missing_name_fails_rendering() {
    let rec = SkillRec {
        name: None,
        icon: Some(s("i")),
        typ: s("heal"),
        profession: s("A"),
    };
    let e = skills_to_markdown(vec![rec]).unwrap_err();
    assert_eq!(e.kind, ErrorKind::Shape);
    assert_eq!(e.message, "cannot find name");
}

#[test]
fn empty_grouped_inputs_render_nothing() {
    assert_eq!(skills_to_markdown(vec![]).unwrap(), Vec::<String>::new());
    let index = shrink_specializations(Json::Arr(vec![])).unwrap();
    assert_eq!(traits_to_markdown(vec![], &index).unwrap(), Vec::<String>::new());
}

#[test]
fn empty_buffs_still_emit_the_header() {
    assert_eq!(buffs_to_markdown(vec![]).unwrap(), vec!["## Buffs".to_string()]);
}

#[test]
fn buff_lines_come_out_sorted_by_status() {
    let buffs = vec![
        ("Might".to_string(), "m.png".to_string()),
        ("Aegis".to_string(), "a.png".to_string()),
        ("Fury".to_string(), "f.png".to_string()),
    ];
    let lines = buffs_to_markdown(buffs).unwrap();
    assert_eq!(
        lines,
        vec![
            "## Buffs".to_string(),
            "[Aegis]: a.png".to_string(),
            "[Fury]: f.png".to_string(),
            "[Might]: m.png".to_string(),
        ]
    );
}

#[test]
fn full_pipeline_concatenates_buffs_traits_and_skills() {
    let specializations = Json::Arr(vec![obj(vec![
        ("id", Json::UInt(1)),
        ("profession", s("Guardian")),
        ("name", s("Zeal")),
    ])]);
    let skills = Json::Arr(vec![obj(vec![
        ("name", s("Strike")),
        ("icon", s("st.png")),
        ("type", s("heal")),
        ("professions", Json::Arr(vec![s("Guardian")])),
    ])]);
    let buff_fact = obj(vec![("type", s("Buff")), ("status", s("Might")), ("icon", s("m.png"))]);
    let traits = Json::Arr(vec![obj(vec![
        ("name", s("X")),
        ("icon", s("i")),
        ("specialization", Json::UInt(1)),
        ("facts", Json::Arr(vec![buff_fact])),
    ])]);
    let lines = render_all(specializations, skills, traits).unwrap();
    assert_eq!(
        lines,
        vec![
            "## Buffs".to_string(),
            "[Might]: m.png".to_string(),
            "## Guardian".to_string(),
            "### Zeal".to_string(),
            "[X]: i".to_string(),
            "## Guardian".to_string(),
            "### heal".to_string(),
            "[Strike]: st.png".to_string(),
        ]
    );
}

#[test]
fn pipeline_fails_when_trait_records_are_not_an_array() {
    let specializations = Json::Arr(vec![]);
    let skills = Json::Arr(vec![]);
    let e = render_all(specializations, skills, Json::Null).unwrap_err();
    assert_eq!(e.kind, ErrorKind::Fetch);
    assert_eq!(e.message, "input is not array");
}

#[test]
fn sorting_is_case_sensitive_with_uppercase_first() {
    let buffs = vec![
        ("alacrity".to_string(), "al.png".to_string()),
        ("Zeal".to_string(), "z.png".to_string()),
    ];
    let lines = buffs_to_markdown(buffs).unwrap();
    assert_eq!(
        lines,
        vec![
            "## Buffs".to_string(),
            "[Zeal]: z.png".to_string(),
            "[alacrity]: al.png".to_string(),
        ]
    );
}
