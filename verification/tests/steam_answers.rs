use gse_gen::branches::branches;
use gse_gen::depots::depots;
use gse_gen::json::{Json, JsonMember, JsonNumber};
use gse_gen::steam::{
    achievement_values, app_details, dlc_ids, dlc_name, game_name, package_ids, search_results,
    supported_languages_text, top_result, SteamError,
};

fn s(t: &str) -> Json {
    Json::Str(t.to_string())
}

fn n(v: u64) -> Json {
    Json::Number(JsonNumber::NonNegative(v))
}

fn arr(items: Vec<Json>) -> Json {
    Json::Array(items)
}

fn obj(members: Vec<(&str, Json)>) -> Json {
    Json::Object(
        members
            .into_iter()
            .map(|(k, v)| JsonMember { key: k.to_string(), value: v })
            .collect(),
    )
}

fn members(j: &Json) -> Vec<(String, &Json)> {
    match j {
        Json::Object(ms) => ms.iter().map(|m| (m.key.clone(), &m.value)).collect(),
        _ => panic!("not an object"),
    }
}

fn text(j: &Json) -> String {
    match j {
        Json::Str(t) => t.clone(),
        _ => panic!("not a string"),
    }
}

fn number(j: &Json) -> u64 {
    match j {
        Json::Number(JsonNumber::NonNegative(v)) => *v,
        _ => panic!("not a number"),
    }
}

#[test]
fn search_keeps_items_with_id_and_name() {
    let resp = obj(vec![(
        "items",
        arr(vec![
            obj(vec![("id", n(1465360)), ("name", s("SnowRunner"))]),
            obj(vec![("id", n(7))]),
            obj(vec![("id", s("8")), ("name", s("Text id"))]),
            obj(vec![("name", s("Second")), ("id", n(42))]),
        ]),
    )]);
    let found = search_results(&resp).ok().unwrap();
    assert_eq!(found, vec![(1465360, "SnowRunner".to_string()), (42, "Second".to_string())]);
}

#[test]
fn search_without_items_is_an_error() {
    let resp = obj(vec![("total", n(0))]);
    match search_results(&resp) {
        Err(e) => assert_eq!(e.message(), "No items in search result"),
        Ok(_) => panic!("expected an error"),
    }
    let not_a_list = obj(vec![("items", s("none"))]);
    assert!(matches!(search_results(&not_a_list), Err(SteamError::NoSearchItems)));
}

#[test]
fn top_result_picks_first_or_fails() {
    let first = top_result(vec![(1, "A".to_string()), (2, "B".to_string())], "a").ok().unwrap();
    assert_eq!(first, (1, "A".to_string()));
    match top_result(Vec::new(), "Nothing Here") {
        Err(e) => assert_eq!(e.message(), "No games found for \"Nothing Here\""),
        Ok(_) => panic!("expected an error"),
    }
}

#[test]
fn app_details_cases() {
    let data = obj(vec![("name", s("Game")), ("dlc", arr(vec![n(11), s("x"), n(12)]))]);
    let ok = obj(vec![("10", obj(vec![("success", Json::Bool(true)), ("data", data)]))]);
    let d = app_details(&ok, 10).ok().unwrap();
    assert_eq!(game_name(d), "Game");
    assert_eq!(dlc_ids(d), vec![11, 12]);

    match app_details(&ok, 11) {
        Err(e) => assert_eq!(e.message(), "App ID missing from response"),
        Ok(_) => panic!("expected an error"),
    }
    let failed = obj(vec![("10", obj(vec![("success", Json::Bool(false))]))]);
    match app_details(&failed, 10) {
        Err(e) => assert_eq!(e.message(), "Steam returned success=false for App ID 10"),
        Ok(_) => panic!("expected an error"),
    }
    let no_flag = obj(vec![("10", obj(vec![("data", obj(vec![]))]))]);
    assert!(matches!(app_details(&no_flag, 10), Err(SteamError::NotSuccessful { app_id: 10 })));
    let no_data = obj(vec![("10", obj(vec![("success", Json::Bool(true))]))]);
    match app_details(&no_data, 10) {
        Err(e) => assert_eq!(e.message(), "No 'data' in response"),
        Ok(_) => panic!("expected an error"),
    }
}

#[test]
fn details_defaults() {
    let empty = obj(vec![]);
    assert_eq!(game_name(&empty), "Unknown");
    assert_eq!(supported_languages_text(&empty), "");
    assert!(dlc_ids(&empty).is_empty());
    let langs = obj(vec![("supported_languages", s("English"))]);
    assert_eq!(supported_languages_text(&langs), "English");
}

#[test]
fn package_ids_takes_first_five_integers() {
    let data = obj(vec![(
        "packages",
        arr(vec![n(1), s("2"), n(3), n(4), n(5), n(6), n(7), n(8)]),
    )]);
    assert_eq!(package_ids(&data), vec![1, 3, 4, 5, 6]);
    let few = obj(vec![("packages", arr(vec![n(9)]))]);
    assert_eq!(package_ids(&few), vec![9]);
}

#[test]
fn dlc_name_or_placeholder() {
    let resp = obj(vec![("77", obj(vec![("data", obj(vec![("name", s("Soundtrack"))]))]))]);
    assert_eq!(dlc_name(Some(&resp), 77), "Soundtrack");
    assert_eq!(dlc_name(Some(&resp), 78), "DLC 78");
    assert_eq!(dlc_name(None, 5), "DLC 5");
}

#[test]
fn achievement_values_found_or_absent() {
    let resp = obj(vec![(
        "game",
        obj(vec![("availableGameStats", obj(vec![("achievements", arr(vec![n(1), n(2)]))]))]),
    )]);
    assert_eq!(achievement_values(&resp).map(|v| v.len()), Some(2));
    assert!(achievement_values(&obj(vec![("game", obj(vec![]))])).is_none());
}

#[test]
fn branches_default_when_request_failed() {
    let b = branches(None);
    let ms = members(&b);
    assert_eq!(ms.len(), 1);
    assert_eq!(ms[0].0, "public");
    let entry = members(ms[0].1);
    assert_eq!(entry.len(), 2);
    assert_eq!(entry[0].0, "BuildID");
    assert_eq!(text(entry[0].1), "0");
    assert_eq!(entry[1].0, "TimeUpdated");
    assert_eq!(text(entry[1].1), "0");
}

#[test]
fn branches_default_without_list() {
    let b = branches(Some(&obj(vec![("branches", s("none"))])));
    assert_eq!(members(&b)[0].0, "public");
    let empty = branches(Some(&obj(vec![("branches", arr(vec![]))])));
    assert!(members(&empty).is_empty());
}

#[test]
fn branches_from_list() {
    let resp = obj(vec![(
        "branches",
        arr(vec![
            obj(vec![
                ("name", s("public")),
                ("buildid", n(123)),
                ("timeupdated", n(456)),
                ("pwdrequired", n(0)),
            ]),
            obj(vec![("buildid", n(1))]),
            obj(vec![("name", s("beta")), ("buildid", n(9)), ("pwdrequired", n(1))]),
            obj(vec![("name", s("public")), ("buildid", n(124))]),
        ]),
    )]);
    let b = branches(Some(&resp));
    let ms = members(&b);
    assert_eq!(ms.len(), 2);
    assert_eq!(ms[0].0, "public");
    let public = members(ms[0].1);
    assert_eq!(public.len(), 1);
    assert_eq!(public[0].0, "BuildID");
    assert_eq!(text(public[0].1), "124");
    assert_eq!(ms[1].0, "beta");
    let beta = members(ms[1].1);
    assert_eq!(beta.len(), 2);
    assert_eq!(beta[0].0, "BuildID");
    assert_eq!(text(beta[0].1), "9");
    assert_eq!(beta[1].0, "PasswordRequired");
    assert_eq!(number(beta[1].1), 1);
}

#[test]
fn depots_sorted_and_unique() {
    let a = obj(vec![(
        "100",
        obj(vec![("data", obj(vec![("depot_ids", arr(vec![n(30), n(10), s("x"), n(20)]))]))]),
    )]);
    let b = obj(vec![(
        "200",
        obj(vec![("data", obj(vec![("depot_ids", arr(vec![n(20), n(5)]))]))]),
    )]);
    let wrong_key = obj(vec![("999", obj(vec![("data", obj(vec![("depot_ids", arr(vec![n(1)]))]))]))]);
    let answers = vec![(100, Some(a)), (300, None), (200, Some(b)), (400, Some(wrong_key))];
    assert_eq!(depots(&answers), vec![5, 10, 20, 30]);
    assert!(depots(&Vec::new()).is_empty());
}

#[test]
fn json_accessors() {
    let j = obj(vec![("a", n(1)), ("a", n(2)), ("b", Json::Bool(true)), ("c", Json::Null)]);
    assert_eq!(j.get("a").and_then(|v| v.as_u64()), Some(1));
    assert_eq!(j.get("b").and_then(|v| v.as_bool()), Some(true));
    assert!(j.get("c").and_then(|v| v.as_str()).is_none());
    assert!(j.get("z").is_none());
    assert!(Json::Number(JsonNumber::Negative(-3)).as_u64().is_none());
    assert!(Json::Number(JsonNumber::Fractional).as_u64().is_none());
    assert!(s("x").get("a").is_none());
}
