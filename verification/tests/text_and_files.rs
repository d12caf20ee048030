use gse_gen::achievements::{gbe_achievement, gbe_achievements, icon_file, progress_label, Achievement};
use gse_gen::interfaces::extract_interfaces;
use gse_gen::language::{language_code_for, languages_from_names, map_language, parse_languages};
use gse_gen::interfaces::sorted_unique_texts;
use gse_gen::number::{parse_app_id, parse_u64, to_decimal};
use gse_gen::settings::{
    app_ini, default_language, depots_text, languages_text, lines_text, output_dir_name,
    safe_name, steam_appid_text, user_ini, MAIN_INI, OVERLAY_INI,
};
use gse_gen::text::{replace_chars, split_chars, trim_str};
use gse_gen::urls::{
    app_details_url, branches_url, dlc_details_url, package_url, schema_url, search_url,
};

fn chars(s: &str) -> Vec<char> {
    s.chars().collect()
}

fn text(cs: &[char]) -> String {
    cs.iter().collect()
}

#[test]
fn app_id_parsing() {
    assert_eq!(parse_app_id("1465360"), Some(1465360));
    assert_eq!(parse_app_id("  42 \t"), Some(42));
    assert_eq!(parse_app_id("+7"), Some(7));
    assert_eq!(parse_app_id("007"), Some(7));
    assert_eq!(parse_app_id("-7"), None);
    assert_eq!(parse_app_id("+"), None);
    assert_eq!(parse_app_id(""), None);
    assert_eq!(parse_app_id("12a"), None);
    assert_eq!(parse_app_id("SnowRunner"), None);
    assert_eq!(parse_app_id("18446744073709551615"), Some(u64::MAX));
    assert_eq!(parse_app_id("18446744073709551616"), None);
    assert_eq!(parse_app_id("99999999999999999999x"), None);
}

#[test]
fn app_id_parsing_agrees_with_std() {
    for q in ["0", "+0", "-0", "1 2", "٣", "+-1", "00000000000000000000018446744073709551615", " 5"] {
        assert_eq!(parse_app_id(q), q.trim().parse::<u64>().ok(), "query {:?}", q);
    }
}

#[test]
fn decimal_round_trip() {
    for v in [0u64, 9, 10, 1465360, u64::MAX] {
        let d = to_decimal(v);
        assert_eq!(d, v.to_string());
        assert_eq!(parse_u64(&chars(&d)), Some(v));
    }
}

#[test]
fn trimming_like_std() {
    for t in ["  a b \t", "\u{3000}x\u{2029}", "\u{85}\u{a0}", "", "plain", "\u{200b}x"] {
        assert_eq!(text(&trim_str(t)), t.trim(), "text {:?}", t);
    }
}

#[test]
fn replacing_and_splitting() {
    let r = replace_chars(&chars("a  b   c"), &chars("  "), &chars(" "));
    assert_eq!(text(&r), "a  b   c".replace("  ", " "));
    let pieces = split_chars(&chars("a,,b"), ',');
    let pieces: Vec<String> = pieces.iter().map(|p| text(p)).collect();
    assert_eq!(pieces, vec!["a", "", "b"]);
    assert_eq!(split_chars(&chars(""), ',').len(), 1);
}

#[test]
fn language_names() {
    assert_eq!(map_language("English"), Some("english"));
    assert_eq!(map_language("  Spanish - Latin America "), Some("latam"));
    assert_eq!(map_language("SPANISH"), Some("spanish"));
    assert_eq!(map_language("Korean"), Some("koreana"));
    assert_eq!(map_language("Portuguese - Brazil"), Some("brazilian"));
    assert_eq!(map_language("Simplified Chinese"), Some("schinese"));
    assert_eq!(map_language("Klingon"), None);
    assert_eq!(language_code_for("traditional chinese"), Some("tchinese"));
    assert_eq!(language_code_for("Traditional Chinese"), None);
}

#[test]
fn languages_from_store_text() {
    let raw = "English<strong>*</strong>, French<strong>*</strong>, German, Spanish - Spain<br><strong>*</strong>languages with full audio support";
    assert_eq!(parse_languages(raw), vec!["english", "french", "german", "spanish"]);
    let marked = "English<strong>*</strong>, French, German<br><strong>*</strong>languages with full audio support";
    assert_eq!(parse_languages(marked), vec!["english", "french", "german"]);
    let plain = "English<br>, French<strong></strong>, Spanish - Spain<br>languages with full audio support";
    assert_eq!(parse_languages(plain), vec!["english", "french", "spanish"]);
}

#[test]
fn languages_listed_once() {
    let raw = "English, english, Spanish - Spain, Spanish, Klingon,, Russian";
    assert_eq!(parse_languages(raw), vec!["english", "spanish", "russian"]);
    assert!(parse_languages("").is_empty());
}

#[test]
fn only_real_tags_are_removed() {
    assert_eq!(parse_languages("English<>, French"), vec!["french"]);
    assert_eq!(parse_languages("Ger<b>man</b>, It<i>alian"), vec!["german", "italian"]);
    assert_eq!(parse_languages("Fr<ench, Thai"), vec!["thai"]);
}

#[test]
fn only_trailing_audio_marks_are_dropped() {
    assert_eq!(parse_languages("Eng*lish, French *, *German, Thai**"), vec!["french"]);
    assert_eq!(parse_languages("English<strong>*</strong> , Russian*"), vec!["english", "russian"]);
    assert_eq!(parse_languages("Thai,  Turkish"), vec!["thai", "turkish"]);
}

#[test]
fn interfaces_sorted_and_unique() {
    let dll = b"xxSteamUser019\0SteamClient017yySteamUser019 SteamGameServerStats001 SteamUtils01";
    assert_eq!(
        extract_interfaces(dll),
        vec!["SteamClient017", "SteamGameServerStats001", "SteamUser019"]
    );
    let with_invalid = b"\xffSTEAMAPPS_INTERFACE_VERSION008\xfeSteamFriends015";
    assert_eq!(
        extract_interfaces(with_invalid),
        vec!["STEAMAPPS_INTERFACE_VERSION008", "SteamFriends015"]
    );
    assert!(extract_interfaces(b"nothing here").is_empty());
    let other_digits = "SteamUser\u{661}\u{662}\u{663}";
    assert_eq!(extract_interfaces(other_digits.as_bytes()), vec![other_digits]);
}

#[test]
fn urls() {
    assert_eq!(
        search_url("Half Life 2"),
        "https://store.steampowered.com/api/storesearch/?term=Half%20Life%202&cc=us&l=english"
    );
    assert_eq!(
        search_url("Café~x_y.z-1"),
        "https://store.steampowered.com/api/storesearch/?term=Caf%C3%A9~x_y.z-1&cc=us&l=english"
    );
    assert_eq!(app_details_url(10), "https://store.steampowered.com/api/appdetails/?appids=10");
    assert_eq!(
        dlc_details_url(11),
        "https://store.steampowered.com/api/appdetails/?appids=11&filters=basic"
    );
    assert_eq!(
        schema_url(12, "KEY"),
        "https://api.steampowered.com/ISteamUserStats/GetSchemaForGame/v2/?key=KEY&appid=12&l=english"
    );
    assert_eq!(
        branches_url(13),
        "https://api.steampowered.com/ISteamApps/GetAppBranches/v1/?appid=13"
    );
    assert_eq!(
        package_url(14),
        "https://store.steampowered.com/api/packagedetails/?packageids=14"
    );
}

#[test]
fn directory_names() {
    assert_eq!(safe_name("A/B\\C:D*E?F\"G<H>I|J"), "A_B_C_D_E_F_G_H_I_J");
    assert_eq!(safe_name("Resident Evil™"), "Resident Evil™");
    assert_eq!(output_dir_name("SnowRunner", 1465360), "SnowRunner (1465360)");
}

#[test]
fn settings_files() {
    assert_eq!(steam_appid_text(1465360), "1465360\n");
    assert_eq!(lines_text(&Vec::new()), "\n");
    assert_eq!(lines_text(&vec!["a".to_string(), "b".to_string()]), "a\nb\n");
    assert_eq!(languages_text(&vec!["english", "german"]), "english\ngerman\n");
    assert_eq!(depots_text(&vec![5, 10]), "5\n10\n");
    assert_eq!(app_ini(false, &Vec::new()), "[app::dlcs]\nunlock_all=0\n");
    assert_eq!(
        app_ini(true, &vec![(11, "Pack".to_string()), (12, "Other".to_string())]),
        "[app::dlcs]\nunlock_all=1\n11=Pack\n12=Other\n"
    );
    assert_eq!(default_language(&vec!["german", "english"]), "german");
    assert_eq!(default_language(&Vec::new()), "english");
    assert_eq!(
        user_ini("Player", "76561198999999999", "english"),
        "[user::general]\naccount_name=Player\naccount_steamid=76561198999999999\nlanguage=english\n"
    );
    assert!(MAIN_INI.starts_with("[connectivity]\nlan_only=0"));
    assert!(OVERLAY_INI.ends_with("PosAchievement=bot_right\n"));
}

#[test]
fn icon_files() {
    let some = |s: &str| Some(s.to_string());
    assert_eq!(icon_file(&some("https://cdn/x/y/abc.jpg"), "u.jpg"), "abc.jpg");
    assert_eq!(icon_file(&some("noslash.jpg"), "u.jpg"), "noslash.jpg");
    assert_eq!(icon_file(&some("ends/"), "u.jpg"), "");
    assert_eq!(icon_file(&None, "unknown.jpg"), "unknown.jpg");
}

#[test]
fn achievements_for_the_emulator() {
    let a = Achievement {
        name: "ACH_1".to_string(),
        display_name: "First".to_string(),
        description: None,
        hidden: None,
        icon: Some("https://cdn/a/on.jpg".to_string()),
        icongray: None,
    };
    let g = gbe_achievement(&a);
    assert_eq!(g.description, "");
    assert_eq!(g.display_name, "First");
    assert_eq!(g.hidden, 0);
    assert_eq!(g.icon, "achievement_images/on.jpg");
    assert_eq!(g.icongray, "achievement_images/unknown_gray.jpg");
    assert_eq!(g.name, "ACH_1");
    let b = Achievement {
        name: "ACH_2".to_string(),
        display_name: "Second".to_string(),
        description: Some("Do it".to_string()),
        hidden: Some(1),
        icon: None,
        icongray: Some("g/off.jpg".to_string()),
    };
    let all = gbe_achievements(&vec![a, b]);
    assert_eq!(all.len(), 2);
    assert_eq!(all[1].description, "Do it");
    assert_eq!(all[1].hidden, 1);
    assert_eq!(all[1].icon, "achievement_images/unknown.jpg");
    assert_eq!(all[1].icongray, "achievement_images/off.jpg");
}

#[test]
fn progress_labels() {
    assert_eq!(progress_label("short"), "short");
    let long = "é".repeat(45);
    assert_eq!(progress_label(&long), "é".repeat(40));
}

#[test]
fn language_code_ignores_case_and_space() {
    for raw in ["  English ", "GERMAN", "Spanish - Latin America", "\tkorean\n", "Klingon", ""] {
        let normalized = raw.trim().to_lowercase();
        assert_eq!(map_language(raw), map_language(&normalized), "name {:?}", raw);
        assert_eq!(map_language(raw), map_language(raw.trim()), "name {:?}", raw);
    }
}

#[test]
fn languages_of_joined_lists() {
    let a = "English*, French, english";
    let b = " German,  French, Thai*";
    let joined = format!("{}, {}", a, b);
    let mut expected: Vec<&str> = Vec::new();
    for c in parse_languages(a).into_iter().chain(parse_languages(b)) {
        if !expected.contains(&c) {
            expected.push(c);
        }
    }
    assert_eq!(parse_languages(&joined), expected);
    assert_eq!(expected, vec!["english", "french", "german", "thai"]);
}

#[test]
fn languages_from_normalized_names() {
    let names: Vec<String> = ["english", "klingon", "korean", "english", "spanish - spain", "spanish"]
        .iter()
        .map(|s| s.to_string())
        .collect();
    assert_eq!(languages_from_names(&names), vec!["english", "koreana", "spanish"]);
    assert!(languages_from_names(&vec!["English".to_string()]).is_empty());
}

#[test]
fn sorting_found_texts() {
    let found: Vec<String> = ["b", "a", "b", "ab", "", "é", "z"].iter().map(|s| s.to_string()).collect();
    assert_eq!(sorted_unique_texts(&found), vec!["", "a", "ab", "b", "z", "é"]);
}
