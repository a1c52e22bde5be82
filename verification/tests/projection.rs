use gw2md::buffs::get_buffs;
use gw2md::error::ErrorKind;
use gw2md::json::Json;
use gw2md::project::{shrink_skills, shrink_specializations, shrink_traits};

fn obj(pairs: Vec<(&str, Json)>) -> Json {
    Json::Obj(pairs.into_iter().map(|(k, v)| (k.to_string(), v)).collect())
}

fn s(text: &str) -> Json {
    Json::Str(text.to_string())
}

#[test]
fn skill_with_one_profession_and_type_survives() {
    let rec = obj(vec![
        ("name", s("Strike")),
        ("icon", s("i.png")),
        ("type", s("heal")),
        ("professions", Json::Arr(vec![s("Guardian")])),
        ("description", s("dropped")),
    ]);
    let out = shrink_skills(Json::Arr(vec![rec])).unwrap();
    assert_eq!(out.len(), 1);
    assert!(matches!(&out[0].profession, Json::Str(p) if p == "Guardian"));
    assert!(matches!(&out[0].typ, Json::Str(t) if t == "heal"));
}

#[test]
fn skill_with_two_professions_is_dropped() {
    let rec = obj(vec![
        ("name", s("Shared")),
        ("icon", s("i.png")),
        ("type", s("heal")),
        ("professions", Json::Arr(vec![s("Guardian"), s("Warrior")])),
    ]);
    let out = shrink_skills(Json::Arr(vec![rec])).unwrap();
    assert!(out.is_empty());
}

#[test]
fn skill_with_empty_professions_is_dropped() {
    let rec = obj(vec![
        ("name", s("Orphan")),
        ("icon", s("i.png")),
        ("type", s("heal")),
        ("professions", Json::Arr(vec![])),
    ]);
    let out = shrink_skills(Json::Arr(vec![rec])).unwrap();
    assert!(out.is_empty());
}

#[test]
fn skill_with_null_or_missing_type_is_dropped() {
    let null_type = obj(vec![
        ("name", s("A")),
        ("icon", s("i")),
        ("type", Json::Null),
        ("professions", Json::Arr(vec![s("Guardian")])),
    ]);
    let no_type = obj(vec![
        ("name", s("B")),
        ("icon", s("i")),
        ("professions", Json::Arr(vec![s("Guardian")])),
    ]);
    let out = shrink_skills(Json::Arr(vec![null_type, no_type])).unwrap();
    assert!(out.is_empty());
}

#[test]
fn shrink_skills_rejects_non_array_input() {
    let e = shrink_skills(Json::Null).unwrap_err();
    assert_eq!(e.kind, ErrorKind::Fetch);
    assert_eq!(e.message, "is not an array");
}

#[test]
fn shrink_skills_rejects_a_non_object_record() {
    let e = shrink_skills(Json::Arr(vec![Json::UInt(1)])).unwrap_err();
    assert_eq!(e.kind, ErrorKind::Shape);
    assert_eq!(e.message, "not an object");
}

#[test]
fn shrink_traits_keeps_every_record() {
    let with_spec = obj(vec![
        ("name", s("X")),
        ("icon", s("i")),
        ("specialization", Json::UInt(9)),
        ("facts", Json::Arr(vec![])),
    ]);
    let bare = obj(vec![("name", s("Y"))]);
    let out = shrink_traits(Json::Arr(vec![with_spec, bare])).unwrap();
    assert_eq!(out.len(), 2);
    assert!(matches!(out[0].specialization, Some(Json::UInt(9))));
    assert!(out[1].specialization.is_none());
    assert!(out[1].icon.is_none());
}

#[test]
fn specialization_index_reads_its_three_fields() {
    let rec = obj(vec![
        ("id", Json::UInt(42)),
        ("name", s("Zeal")),
        ("profession", s("Guardian")),
    ]);
    let idx = shrink_specializations(Json::Arr(vec![rec])).unwrap();
    let (prof, name) = idx.lookup(42).unwrap();
    assert_eq!(prof, "Guardian");
    assert_eq!(name, "Zeal");
    assert!(idx.lookup(7).is_none());
}

#[test]
fn specialization_index_keeps_the_last_duplicate() {
    let first = obj(vec![
        ("id", Json::UInt(1)),
        ("name", s("Old")),
        ("profession", s("Guardian")),
    ]);
    let second = obj(vec![
        ("id", Json::UInt(1)),
        ("name", s("New")),
        ("profession", s("Warrior")),
    ]);
    let idx = shrink_specializations(Json::Arr(vec![first, second])).unwrap();
    let (prof, name) = idx.lookup(1).unwrap();
    assert_eq!(prof, "Warrior");
    assert_eq!(name, "New");
}

#[test]
fn specialization_without_id_is_rejected() {
    let rec = obj(vec![("name", s("Zeal")), ("profession", s("Guardian"))]);
    let e = shrink_specializations(Json::Arr(vec![rec])).unwrap_err();
    assert_eq!(e.kind, ErrorKind::Shape);
    assert_eq!(e.message, "cannot find id");
}

#[test]
fn specialization_with_non_integer_id_is_rejected() {
    let rec = obj(vec![
        ("id", s("one")),
        ("name", s("Zeal")),
        ("profession", s("Guardian")),
    ]);
    let e = shrink_specializations(Json::Arr(vec![rec])).unwrap_err();
    assert_eq!(e.kind, ErrorKind::Shape);
    assert_eq!(e.message, "cannot cast to u64");
}

#[test]
fn first_buff_icon_wins_per_status() {
    let fact = |status: &str, icon: &str| {
        obj(vec![("type", s("Buff")), ("status", s(status)), ("icon", s(icon))])
    };
    let rec1 = obj(vec![("facts", Json::Arr(vec![fact("Might", "m1.png"), fact("Fury", "f.png")]))]);
    let rec2 = obj(vec![("facts", Json::Arr(vec![fact("Might", "m2.png")]))]);
    let buffs = get_buffs(&Json::Arr(vec![rec1, rec2])).unwrap();
    assert_eq!(buffs.len(), 2);
    assert_eq!(buffs[0], ("Might".to_string(), "m1.png".to_string()));
    assert_eq!(buffs[1], ("Fury".to_string(), "f.png".to_string()));
}

#[test]
fn non_buff_facts_and_factless_records_contribute_nothing() {
    let other = obj(vec![("type", s("Damage")), ("status", s("X")), ("icon", s("i"))]);
    let untyped = obj(vec![("text", s("hello"))]);
    let rec = obj(vec![("facts", Json::Arr(vec![other, untyped]))]);
    let bare = obj(vec![("name", s("no facts here"))]);
    let buffs = get_buffs(&Json::Arr(vec![rec, bare])).unwrap();
    assert!(buffs.is_empty());
}

#[test]
fn buff_without_status_is_rejected() {
    let fact = obj(vec![("type", s("Buff")), ("icon", s("i"))]);
    let rec = obj(vec![("facts", Json::Arr(vec![fact]))]);
    let e = get_buffs(&Json::Arr(vec![rec])).unwrap_err();
    assert_eq!(e.kind, ErrorKind::Shape);
    assert_eq!(e.message, "cannot find status of a buff");
}

#[test]
fn buff_with_non_string_status_is_rejected() {
    let fact = obj(vec![("type", s("Buff")), ("status", Json::UInt(3)), ("icon", s("i"))]);
    let rec = obj(vec![("facts", Json::Arr(vec![fact]))]);
    let e = get_buffs(&Json::Arr(vec![rec])).unwrap_err();
    assert_eq!(e.kind, ErrorKind::Shape);
    assert_eq!(e.message, "cannot convert buff status to string");
}

#[test]
fn get_buffs_rejects_non_array_input() {
    let e = get_buffs(&Json::UInt(1)).unwrap_err();
    assert_eq!(e.kind, ErrorKind::Fetch);
    assert_eq!(e.message, "input is not array");
}
