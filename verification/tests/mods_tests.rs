use scmd_downloader::mods::{
    clean_folder_name, find_file_from_ext, find_kenshimod_file, game_of, get_mod_name, get_modinfo,
    new_folder_name, Game, ModInfo, NameError,
};

fn strings(items: &[&str]) -> Vec<String> {
    items.iter().map(|s| s.to_string()).collect()
}

#[test]
fn clean_folder_name_strips_forbidden() {
    assert_eq!(clean_folder_name("Hugs: Lib <1.4> \"x\"/y\\z*?|"), "HugsLib1.4xyz");
    assert_eq!(clean_folder_name("a\tb\u{7f}c\n"), "abc");
    assert_eq!(clean_folder_name("Ünïcode_ok-1"), "Ünïcode_ok-1");
}

#[test]
fn get_modinfo_rimworld_transposed_id() {
    let info = get_modinfo("m", "291400", None).unwrap();
    assert_eq!(info.path, "m\\About");
    assert_eq!(info.file_name, "About.xml");
}

#[test]
fn clean_folder_name_of_joined_names() {
    let (a, b) = ("Hugs: ", "Lib?");
    assert_eq!(clean_folder_name(&(a.to_owned() + b)), clean_folder_name(a) + &clean_folder_name(b));
}

#[test]
fn clean_folder_name_twice_is_once() {
    let once = clean_folder_name("A B:C");
    assert_eq!(clean_folder_name(&once), once);
}

#[test]
fn game_of_appids() {
    assert_eq!(game_of("294100"), Game::Rimworld);
    assert_eq!(game_of("291400"), Game::Rimworld);
    assert_eq!(game_of("233860"), Game::Kenshi);
    assert_eq!(game_of("107410"), Game::Unsupported);
}

#[test]
fn get_modinfo_rimworld() {
    let info = get_modinfo(".\\data\\mods\\123", "294100", None).unwrap();
    assert_eq!(info.path, ".\\data\\mods\\123\\About");
    assert_eq!(info.file_name, "About.xml");
    assert_eq!(info.start_tag, "<name>");
}

#[test]
fn get_modinfo_kenshi() {
    let info = get_modinfo("m", "233860", Some("Cool Mod".to_string())).unwrap();
    assert_eq!(info.path, "m");
    assert_eq!(info.file_name, "Cool Mod");
    assert_eq!(info.start_tag, "<name>");
    assert!(get_modinfo("m", "233860", None).is_none());
}

#[test]
fn get_modinfo_other_game() {
    assert!(get_modinfo("m", "107410", Some("x".to_string())).is_none());
}

#[test]
fn get_mod_name_reads_tag() {
    let xml = "<?xml version=\"1.0\"?>\r\n<ModMetaData>\r\n  <name>Hugs Lib</name>\r\n  <author>x</author>\r\n</ModMetaData>\r\n";
    assert_eq!(get_mod_name(xml, "<name>"), Ok("Hugs Lib".to_string()));
}

#[test]
fn get_mod_name_missing_tag() {
    assert_eq!(get_mod_name("<a>b</a>\n", "<name>"), Err(NameError::NoTagLine));
}

#[test]
fn get_mod_name_uses_first_gt_of_line() {
    assert_eq!(get_mod_name("x> <name>Y</name>", "<name>"), Ok(" ".to_string()));
    assert_eq!(get_mod_name("<name", "<name"), Err(NameError::NoStartBracket));
    assert_eq!(get_mod_name("<name>open", "<name>"), Err(NameError::NoEndBracket));
    assert_eq!(get_mod_name("a\n<name>Z</name>\n<name>W</name>", "<name>"), Ok("Z".to_string()));
}

#[test]
fn find_file_from_ext_picks_single_dot() {
    let names = strings(&["readme.txt", "a.b.mod", ".mod", "Cool Mod.mod", "Other.mod"]);
    assert_eq!(find_file_from_ext(&names, "mod"), "Cool Mod");
    assert_eq!(find_file_from_ext(&strings(&["x.txt"]), "mod"), "");
}

#[test]
fn find_kenshimod_file_some_and_none() {
    assert_eq!(find_kenshimod_file(&strings(&["data", "Mine.mod"])), Some("Mine".to_string()));
    assert_eq!(find_kenshimod_file(&strings(&["data"])), None);
}

#[test]
fn new_folder_name_by_game() {
    let info = ModInfo { path: "p".to_string(), file_name: "KMod".to_string(), start_tag: "<name>".to_string() };
    assert_eq!(new_folder_name("233860", &info, None), Some("KMod".to_string()));
    assert_eq!(new_folder_name("294100", &info, Some("Hugs Lib".to_string())), Some("HugsLib".to_string()));
    assert_eq!(new_folder_name("294100", &info, None), None);
}
