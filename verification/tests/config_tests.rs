use openmw_config::{ConfigError, FileStore, GameSettingType, OpenMWConfiguration, PathDefaults,
    SettingValue, parse_data_directory, strip_special_components, SERIALIZER_TRAILER};

fn defaults() -> PathDefaults {
    PathDefaults::new(String::from("/home/user/userdata"), String::from("/home/user/config"))
}

fn store(entries: &[(&str, &str)]) -> FileStore {
    let mut s = FileStore::new();
    for (p, t) in entries {
        s.add(p.to_string(), t.to_string());
    }
    s
}

#[test]
fn test_userdata_token_resolution() {
    let r = parse_data_directory("/cfg", "?userdata?/foo", "/home/user/userdata", "/home/user/config");
    assert_eq!(r, "/home/user/userdata/foo");
}

#[test]
fn test_userconfig_token_resolution() {
    let r = parse_data_directory("/cfg", "?userconfig?/bar", "/home/user/userdata", "/home/user/config");
    assert_eq!(r, "/home/user/config/bar");
}

#[test]
fn test_quoted_value_resolves_relative() {
    let r = parse_data_directory("/cfg", "\"a/b with spaces\"", "/ud", "/uc");
    assert_eq!(r, "/cfg/a/b with spaces");
}

#[test]
fn test_lexical_normalization_without_filesystem() {
    let r = parse_data_directory("/cfg", "foo/./bar/../baz", "/ud", "/uc");
    assert_eq!(r, "/cfg/foo/baz");
    assert_eq!(strip_special_components("/x/./y/../z"), "/x/z");
}

#[test]
fn test_quote_escape_character() {
    // `&` escapes the next character inside quotes
    let r = parse_data_directory("/cfg", "\"a&\"b\"", "/ud", "/uc");
    assert_eq!(r, "/cfg/a\"b");
}

#[test]
fn test_load_single_file() {
    let fs = store(&[("/a/openmw.cfg", "data=games\ncontent=a.esm\n")]);
    let cfg = OpenMWConfiguration::new(&fs, Some("/a/openmw.cfg".into()), &defaults()).unwrap();
    assert_eq!(cfg.root_config_file(), "/a/openmw.cfg");
    assert_eq!(cfg.data_directories(), vec![String::from("/a/games")]);
    assert_eq!(cfg.content_files(), vec![String::from("a.esm")]);
}

#[test]
fn test_load_from_directory_path() {
    let fs = store(&[("/a/openmw.cfg", "content=a.esm\n")]);
    let cfg = OpenMWConfiguration::new(&fs, Some("/a".into()), &defaults()).unwrap();
    assert_eq!(cfg.root_config_file(), "/a/openmw.cfg");
}

#[test]
fn test_missing_root_is_cannot_find() {
    let fs = store(&[]);
    let r = OpenMWConfiguration::new(&fs, Some("/nope".into()), &defaults());
    assert!(matches!(r, Err(ConfigError::CannotFind { .. })));
}

#[test]
fn test_invalid_line_is_hard_error() {
    let fs = store(&[("/a/openmw.cfg", "this line has no equals\n")]);
    let r = OpenMWConfiguration::new(&fs, Some("/a/openmw.cfg".into()), &defaults());
    match r {
        Err(ConfigError::InvalidLine { value, config_path }) => {
            assert_eq!(value, "this line has no equals");
            assert_eq!(config_path, "/a/openmw.cfg");
        },
        _ => panic!("expected an invalid-line error"),
    }
}

#[test]
fn test_duplicate_content_across_chain_names_second_file() {
    let fs = store(&[
        ("/a/openmw.cfg", "content=Morrowind.esm\nconfig=sub\n"),
        ("/a/sub/openmw.cfg", "content=Morrowind.esm\n"),
    ]);
    let r = OpenMWConfiguration::new(&fs, Some("/a/openmw.cfg".into()), &defaults());
    match r {
        Err(ConfigError::DuplicateContentFile { file, config_path }) => {
            assert_eq!(file, "Morrowind.esm");
            assert_eq!(config_path, "/a/sub/openmw.cfg");
        },
        _ => panic!("expected a duplicate-content error"),
    }
}

#[test]
fn test_singleton_override_last_file_wins() {
    let fs = store(&[
        ("/a/openmw.cfg", "data-local=one\nconfig=sub\n"),
        ("/a/sub/openmw.cfg", "data-local=two\n"),
    ]);
    let cfg = OpenMWConfiguration::new(&fs, Some("/a/openmw.cfg".into()), &defaults()).unwrap();
    let effective = cfg.data_local().expect("a data-local entry");
    assert_eq!(effective.original(), "two");
    assert_eq!(effective.parsed(), "/a/sub/two");
}

#[test]
fn test_game_setting_typing() {
    let mut c = String::new();
    let color = GameSettingType::try_from("iFoo,128,64,255", "/p", &mut c).unwrap();
    match color {
        GameSettingType::Color(s) => assert_eq!(s.value, (128, 64, 255)),
        _ => panic!("expected a color"),
    }
    let f = GameSettingType::try_from("fBar,1.5", "/p", &mut c).unwrap();
    match f {
        GameSettingType::Float(ref s) => assert_eq!(s.value, "1.5"),
        _ => panic!("expected a float"),
    }
    let i = GameSettingType::try_from("iBaz,7", "/p", &mut c).unwrap();
    match i {
        GameSettingType::Int(ref s) => assert_eq!(s.value, 7),
        _ => panic!("expected an integer"),
    }
    let s = GameSettingType::try_from("sQux,hi,there", "/p", &mut c).unwrap();
    match s {
        GameSettingType::String(ref s) => assert_eq!(s.value, "hi,there"),
        _ => panic!("expected verbatim text"),
    }
}

#[test]
fn test_game_setting_without_comma_is_error() {
    let mut c = String::new();
    let r = GameSettingType::try_from("nocomma", "/p", &mut c);
    assert!(matches!(r, Err(ConfigError::InvalidGameSetting { .. })));
}

#[test]
fn test_replace_discards_earlier_but_not_later() {
    let fs = store(&[(
        "/a/openmw.cfg",
        "data=one\ndata=two\nreplace=data\ndata=three\n",
    )]);
    let cfg = OpenMWConfiguration::new(&fs, Some("/a/openmw.cfg".into()), &defaults()).unwrap();
    assert_eq!(cfg.data_directories(), vec![String::from("/a/three")]);
}

#[test]
fn test_replace_reaches_across_chain() {
    let fs = store(&[
        ("/a/openmw.cfg", "data=one\nconfig=sub\n"),
        ("/a/sub/openmw.cfg", "replace=data\ndata=two\n"),
    ]);
    let cfg = OpenMWConfiguration::new(&fs, Some("/a/openmw.cfg".into()), &defaults()).unwrap();
    assert_eq!(cfg.data_directories(), vec![String::from("/a/sub/two")]);
}

#[test]
fn test_round_trip_untouched_file() {
    let text = "# the base game\ncontent=Morrowind.esm\n\n# where it lives\ndata=files\nfallback=iFoo,128,64,255\nkeep-me=yes\n";
    let fs = store(&[("/a/openmw.cfg", text)]);
    let cfg = OpenMWConfiguration::new(&fs, Some("/a/openmw.cfg".into()), &defaults()).unwrap();
    let out = cfg.serialized_for("/a/openmw.cfg");
    assert_eq!(out, format!("{}{}", text, SERIALIZER_TRAILER));
}

#[test]
fn test_sub_config_traversal_order() {
    let fs = store(&[
        ("/a/openmw.cfg", "first=a\nconfig=b\nconfig=c\n"),
        ("/a/b/openmw.cfg", "second=b\nconfig=../d\n"),
        ("/a/d/openmw.cfg", "third=d\n"),
        ("/a/c/openmw.cfg", "fourth=c\n"),
    ]);
    let cfg = OpenMWConfiguration::new(&fs, Some("/a/openmw.cfg".into()), &defaults()).unwrap();
    let generic_keys: Vec<String> = cfg
        .settings()
        .iter()
        .filter_map(|s| match s {
            SettingValue::Generic(g) => Some(g.key().clone()),
            _ => None,
        })
        .collect();
    assert_eq!(generic_keys, vec!["first", "second", "third", "fourth"]);
    let subs = cfg.sub_configs();
    assert_eq!(subs.len(), 3);
    assert_eq!(subs[0].parsed(), "/a/b");
    assert_eq!(subs[1].parsed(), "/a/d");
    assert_eq!(subs[2].parsed(), "/a/c");
}

#[test]
fn test_missing_sub_config_is_silently_skipped() {
    let fs = store(&[("/a/openmw.cfg", "config=nowhere\ncontent=a.esm\n")]);
    let cfg = OpenMWConfiguration::new(&fs, Some("/a/openmw.cfg".into()), &defaults()).unwrap();
    assert_eq!(cfg.sub_configs().len(), 0);
    assert_eq!(cfg.content_files(), vec![String::from("a.esm")]);
}

#[test]
fn test_cyclic_chain_is_refused() {
    let fs = store(&[("/a/openmw.cfg", "config=.\n")]);
    let r = OpenMWConfiguration::new(&fs, Some("/a/openmw.cfg".into()), &defaults());
    assert!(matches!(r, Err(ConfigError::RecursionLimit { .. })));
}

#[test]
fn test_resources_derives_vfs_directories() {
    let fs = store(&[("/a/openmw.cfg", "resources=res\n")]);
    let cfg = OpenMWConfiguration::new(&fs, Some("/a/openmw.cfg".into()), &defaults()).unwrap();
    let dirs = cfg.data_directories();
    assert_eq!(
        dirs,
        vec![String::from("/a/res/vfs"), String::from("/a/res/vfs-mw")]
    );
}

#[test]
fn test_encoding_overwrites_singleton() {
    let fs = store(&[("/a/openmw.cfg", "encoding=win1250\nencoding=win1252\n")]);
    let cfg = OpenMWConfiguration::new(&fs, Some("/a/openmw.cfg".into()), &defaults()).unwrap();
    let enc = cfg.encoding().expect("an encoding");
    assert_eq!(enc.encoding, openmw_config::EncodingType::WIN1252);
    let count = cfg
        .settings()
        .iter()
        .filter(|s| matches!(s, SettingValue::Encoding(_)))
        .count();
    assert_eq!(count, 1);
}

#[test]
fn test_unknown_encoding_aborts_load() {
    let fs = store(&[("/a/openmw.cfg", "encoding=utf8\n")]);
    let r = OpenMWConfiguration::new(&fs, Some("/a/openmw.cfg".into()), &defaults());
    assert!(matches!(r, Err(ConfigError::BadEncoding { .. })));
}

#[test]
fn test_comments_attach_to_next_directive() {
    let fs = store(&[(
        "/a/openmw.cfg",
        "# about the plugin\n\ncontent=a.esm\n",
    )]);
    let cfg = OpenMWConfiguration::new(&fs, Some("/a/openmw.cfg".into()), &defaults()).unwrap();
    let setting = &cfg.settings()[0];
    assert_eq!(setting.meta().comment, "# about the plugin\n\n");
}

#[test]
fn test_game_settings_deduplicate_by_key_keeping_last() {
    let fs = store(&[(
        "/a/openmw.cfg",
        "fallback=iFoo,1\nfallback=iBar,2\nfallback=iFoo,3\n",
    )]);
    let cfg = OpenMWConfiguration::new(&fs, Some("/a/openmw.cfg".into()), &defaults()).unwrap();
    let effective = cfg.game_settings();
    // most recently loaded first, one entry per key
    assert_eq!(effective.len(), 2);
    assert_eq!(effective[0].key(), "iFoo");
    assert_eq!(effective[0].value(), "3");
    assert_eq!(effective[1].key(), "iBar");
    let got = cfg.get_game_setting("iFoo").expect("iFoo");
    assert_eq!(got.value(), "3");
    assert!(cfg.get_game_setting("iMissing").is_none());
}

#[test]
fn test_add_content_file_refuses_existing() {
    let fs = store(&[("/a/openmw.cfg", "content=a.esm\n")]);
    let mut cfg = OpenMWConfiguration::new(&fs, Some("/a/openmw.cfg".into()), &defaults()).unwrap();
    assert!(cfg.add_content_file("b.esm").is_ok());
    assert!(cfg.has_content_file("b.esm"));
    let dup = cfg.add_content_file("a.esm");
    match dup {
        Err(ConfigError::CannotAddContentFile { file, config_path }) => {
            assert_eq!(file, "a.esm");
            assert_eq!(config_path, "/a/openmw.cfg");
        },
        _ => panic!("expected a cannot-add error"),
    }
}

#[test]
fn test_remove_content_file() {
    let fs = store(&[("/a/openmw.cfg", "content=a.esm\ncontent=b.esm\n")]);
    let mut cfg = OpenMWConfiguration::new(&fs, Some("/a/openmw.cfg".into()), &defaults()).unwrap();
    cfg.remove_content_file("a.esm");
    assert!(!cfg.has_content_file("a.esm"));
    assert_eq!(cfg.content_files(), vec![String::from("b.esm")]);
}

#[test]
fn test_set_content_files_replaces_wholesale() {
    let fs = store(&[("/a/openmw.cfg", "content=a.esm\n")]);
    let mut cfg = OpenMWConfiguration::new(&fs, Some("/a/openmw.cfg".into()), &defaults()).unwrap();
    cfg.set_content_files(Some(vec!["x.esm".to_string(), "y.esm".to_string()]));
    assert_eq!(
        cfg.content_files(),
        vec![String::from("x.esm"), String::from("y.esm")]
    );
    cfg.set_content_files(None);
    assert_eq!(cfg.content_files(), Vec::<String>::new());
}

#[test]
fn test_user_config_path_follows_last_sub_config() {
    let fs = store(&[
        ("/a/openmw.cfg", "config=b\nconfig=c\n"),
        ("/a/b/openmw.cfg", "noop=1\n"),
        ("/a/c/openmw.cfg", "noop2=1\n"),
    ]);
    let cfg = OpenMWConfiguration::new(&fs, Some("/a/openmw.cfg".into()), &defaults()).unwrap();
    assert_eq!(cfg.user_config_path(), "/a/c");
    assert!(!cfg.is_user_config());
    let fs2 = store(&[("/a/openmw.cfg", "data=x\n")]);
    let cfg2 = OpenMWConfiguration::new(&fs2, Some("/a/openmw.cfg".into()), &defaults()).unwrap();
    assert!(cfg2.is_user_config());
    assert_eq!(cfg2.user_config_path(), "/a");
}

#[test]
fn test_subconfig_serialized_only_for_loaded_members() {
    let sub_text = "content=only.esm\n";
    let fs = store(&[
        ("/a/openmw.cfg", "data=top\nconfig=b\n"),
        ("/a/b/openmw.cfg", sub_text),
    ]);
    let cfg = OpenMWConfiguration::new(&fs, Some("/a/openmw.cfg".into()), &defaults()).unwrap();
    let out = cfg.subconfig_serialized("/a/b").expect("loaded sub-config");
    assert_eq!(out, format!("{}{}", sub_text, SERIALIZER_TRAILER));
    assert!(cfg.subconfig_serialized("/a/zzz").is_none());
}

#[test]
fn test_default_root_uses_injected_config_dir() {
    let fs = store(&[("/home/user/config/openmw.cfg", "data=x\n")]);
    let cfg = OpenMWConfiguration::new(&fs, None, &defaults()).unwrap();
    assert_eq!(cfg.root_config_file(), "/home/user/config/openmw.cfg");
}

#[test]
fn test_numeric_bounds_in_color_classification() {
    let mut c = String::new();
    // 256 does not fit an 8-bit channel, so this is not a color
    let s = GameSettingType::try_from("k,256,0,0", "/p", &mut c).unwrap();
    assert!(matches!(s, GameSettingType::String(_)));
    // trimmed channels are accepted
    let s2 = GameSettingType::try_from("k,1, 2 ,3", "/p", &mut c).unwrap();
    assert!(matches!(s2, GameSettingType::Color(_)));
}

#[test]
fn test_settings_matching_and_clear_matching() {
    let fs = store(&[("/a/openmw.cfg", "content=a.esm\ndata=one\ndata=two\n")]);
    let mut cfg = OpenMWConfiguration::new(&fs, Some("/a/openmw.cfg".into()), &defaults()).unwrap();
    let picked = cfg.settings_matching(|s| matches!(s, SettingValue::ContentFile(_)));
    assert_eq!(picked.len(), 1);
    let _ = cfg.clear_matching(|s| matches!(s, SettingValue::DataDirectory(_)));
    assert_eq!(cfg.data_directories(), Vec::<String>::new());
    assert_eq!(cfg.content_files(), vec![String::from("a.esm")]);
}

#[test]
fn test_singleton_setters_replace_in_place() {
    let fs = store(&[("/a/openmw.cfg", "user-data=first\ndata=mid\nuser-data=second\n")]);
    let mut cfg = OpenMWConfiguration::new(&fs, Some("/a/openmw.cfg".into()), &defaults()).unwrap();
    // the effective value is the last one
    assert_eq!(cfg.userdata().unwrap().original(), "second");
    // setting a new value overwrites the first entry in place
    let mut c = String::new();
    let replacement = openmw_config::DirectorySetting::new("fresh", "/a".to_string(), &mut c);
    cfg.set_userdata(Some(replacement));
    match &cfg.settings()[0] {
        SettingValue::UserData(d) => assert_eq!(d.original(), "fresh"),
        other => panic!("expected the first entry to stay user-data, got {:?}", other),
    }
    // clearing removes the first matching entry
    cfg.set_userdata(None);
    assert_eq!(cfg.userdata().unwrap().original(), "second");
}

#[test]
fn test_free_user_config_path_helper() {
    let subs = vec![String::from("/a/b"), String::from("/a/c")];
    assert_eq!(openmw_config::util::user_config_path(&subs, &String::from("/root")), "/a/c");
    let none: Vec<String> = Vec::new();
    assert_eq!(openmw_config::util::user_config_path(&none, &String::from("/root")), "/root");
}

#[test]
fn test_integer_bounds_in_classification() {
    let mut c = String::new();
    let min = GameSettingType::try_from("k,-9223372036854775808", "/p", &mut c).unwrap();
    match min {
        GameSettingType::Int(ref s) => assert_eq!(s.value, i64::MIN),
        _ => panic!("expected the smallest integer"),
    }
    assert_eq!(min.value(), "-9223372036854775808");
    // one past the largest representable magnitude falls back to text
    let over = GameSettingType::try_from("k,9223372036854775808", "/p", &mut c).unwrap();
    assert!(matches!(over, GameSettingType::String(_)));
    // a fractional literal without a point is an integer, not a float
    let exp = GameSettingType::try_from("k,15", "/p", &mut c).unwrap();
    assert!(matches!(exp, GameSettingType::Int(_)));
    // a malformed fractional literal with a point falls back to text
    let bad = GameSettingType::try_from("k,1.5.2", "/p", &mut c).unwrap();
    assert!(matches!(bad, GameSettingType::String(_)));
}

#[test]
fn test_user_config_reloads_from_last_sub_config() {
    let fs = store(&[
        ("/a/openmw.cfg", "data=top\nconfig=b\n"),
        ("/a/b/openmw.cfg", "data=deep\n"),
    ]);
    let cfg = OpenMWConfiguration::new(&fs, Some("/a/openmw.cfg".into()), &defaults()).unwrap();
    let user = cfg.user_config(&fs, &defaults()).unwrap();
    assert_eq!(user.root_config_file(), "/a/b/openmw.cfg");
    assert!(user.is_user_config());
    // a chain that never forks hands itself back
    let user2 = user.user_config(&fs, &defaults()).unwrap();
    assert_eq!(user2.root_config_file(), "/a/b/openmw.cfg");
}
