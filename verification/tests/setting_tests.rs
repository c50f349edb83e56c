use openmw_config::{ColorGameSetting, DirectorySetting, EncodingSetting, EncodingType,
    FileSetting, FloatGameSetting, GameSettingMeta, GameSettingType, IntGameSetting,
    StringGameSetting, ConfigError};

#[test]
fn test_directory_setting_basic_construction() {
    let config_path = String::from("/my/config");
    let mut comment = "some comment".to_string();

    let setting = DirectorySetting::new("data", config_path.clone(), &mut comment);

    assert_eq!(setting.original(), "data");
    assert_eq!(setting.parsed(), "/my/config/data");
    assert_eq!(setting.meta.source_config, config_path);
    assert_eq!(setting.meta.comment, "some comment");
    assert!(comment.is_empty()); // Should have been cleared
}

#[test]
fn test_directory_setting_quoted_path() {
    let config_path = String::from("/my/config");
    let mut comment = String::new();

    let setting = DirectorySetting::new("\"path/with spaces\"", config_path.clone(), &mut comment);

    assert_eq!(setting.original(), "\"path/with spaces\"");
    assert_eq!(setting.parsed(), "/my/config/path/with spaces");
}

#[test]
fn test_directory_setting_relative_path_normalization() {
    let config_path = String::from("/my/config");
    let mut comment = String::new();

    let setting = DirectorySetting::new("subdir\\nested", config_path.clone(), &mut comment);

    assert_eq!(setting.parsed(), "/my/config/subdir/nested");
}

fn mock_path(path: &str) -> String {
    String::from(path)
}

#[test]
fn test_dot_component_is_removed() {
    let config = mock_path("/etc/openmw");
    let mut comment = String::from("comment");
    let setting = DirectorySetting::new("./data", config.clone(), &mut comment);
    assert_eq!(setting.parsed(), "/etc/openmw/data");
}

#[test]
fn test_double_dot_component_removes_parent() {
    let config = mock_path("/home/user/.config/openmw");
    let mut comment = String::from("comment");
    let setting = DirectorySetting::new("../common", config.clone(), &mut comment);
    assert_eq!(setting.parsed(), "/home/user/.config/common");
}

#[test]
fn test_nested_dots_normalize_correctly() {
    let config = mock_path("/opt/game/config");
    let mut comment = String::new();
    let setting = DirectorySetting::new("foo/./bar/../baz", config.clone(), &mut comment);
    assert_eq!(setting.parsed(), "/opt/game/config/foo/baz");
}

fn dummy_path() -> String {
    String::from("/tmp/test.cfg")
}

fn dummy_comment() -> String {
    "#OpenMW-Config Test Suite\n\n\n\n#EncodingSetting\n\n\n\n".into()
}

#[test]
fn test_valid_encodings() {
    let encodings = vec![
        ("win1250", EncodingType::WIN1250),
        ("win1251", EncodingType::WIN1251),
        ("win1252", EncodingType::WIN1252),
    ];

    for (input, expected_variant) in encodings {
        let setting =
            EncodingSetting::try_from(input, dummy_path().as_str(), &mut dummy_comment()).unwrap();

        assert_eq!(setting.encoding, expected_variant);
    }
}

#[test]
fn test_invalid_encoding() {
    let err = EncodingSetting::try_from("utf8", dummy_path().as_str(), &mut dummy_comment());

    assert!(matches!(err, Err(ConfigError::BadEncoding { .. })));
}

#[test]
fn test_empty_encoding_string() {
    let err = EncodingSetting::try_from("", dummy_path().as_str(), &mut dummy_comment());
    assert!(matches!(err, Err(ConfigError::BadEncoding { .. })));
}

#[test]
fn test_source_path_preservation() {
    let path = String::from("/some/path/to/config.cfg");
    let setting =
        EncodingSetting::try_from("win1251", path.as_str(), &mut dummy_comment()).unwrap();

    assert_eq!(setting.meta.source_config, path);
}

#[test]
fn test_display_trait_output() {
    let setting =
        EncodingSetting::try_from("win1250", dummy_path().as_str(), &mut dummy_comment()).unwrap();

    let rendered = setting.to_text();
    assert_eq!(
        rendered.trim(),
        format!("{}encoding=win1250", dummy_comment())
    );
}

fn default_meta() -> GameSettingMeta {
    GameSettingMeta {
        source_config: String::new(),
        comment: String::new(),
    }
}

#[test]
fn test_value_string_setting() {
    let setting = GameSettingType::String(StringGameSetting {
        meta: default_meta(),
        key: "greeting".into(),
        value: "hello world".into(),
    });

    assert_eq!(setting.value(), "hello world");
}

#[test]
fn test_value_int_setting() {
    let setting = GameSettingType::Int(IntGameSetting {
        meta: default_meta(),
        key: "MaxEyesOfTodd".into(),
        value: 3,
    });

    assert_eq!(setting.value(), "3");
}

#[test]
fn test_value_float_setting() {
    let setting = GameSettingType::Float(FloatGameSetting {
        meta: default_meta(),
        key: "FLightAttenuationEnfuckulation".into(),
        value: "0.75".into(),
    });

    assert_eq!(setting.value(), "0.75");
}

#[test]
fn test_value_color_setting() {
    let setting = GameSettingType::Color(ColorGameSetting {
        meta: default_meta(),
        key: "hud_color".into(),
        value: (255, 128, 64),
    });

    assert_eq!(setting.value(), "255,128,64");
}

#[test]
fn test_to_string_for_string_setting() {
    let setting = GameSettingType::String(StringGameSetting {
        meta: default_meta(),
        key: "sGreeting".into(),
        value: "Hello, Nerevar.".into(),
    });

    assert_eq!(setting.to_text(), "fallback=sGreeting,Hello, Nerevar.\n");
}

#[test]
fn test_to_string_for_int_setting() {
    let setting = GameSettingType::Int(IntGameSetting {
        meta: default_meta(),
        key: "iMaxSpeed".into(),
        value: 42,
    });

    assert_eq!(setting.to_text(), "fallback=iMaxSpeed,42\n");
}

#[test]
fn test_to_string_for_float_setting() {
    let setting = GameSettingType::Float(FloatGameSetting {
        meta: default_meta(),
        key: "fJumpHeight".into(),
        value: "1.75".into(),
    });

    assert_eq!(setting.to_text(), "fallback=fJumpHeight,1.75\n");
}

#[test]
fn test_to_string_for_color_setting() {
    let setting = GameSettingType::Color(ColorGameSetting {
        meta: default_meta(),
        key: "iHUDColor".into(),
        value: (128, 64, 255),
    });

    assert_eq!(setting.to_text(), "fallback=iHUDColor,128,64,255\n");
}

#[test]
fn test_commented_string() {
    let setting = GameSettingType::Color(ColorGameSetting {
        meta: GameSettingMeta {
            source_config: String::from("$HOME/.config/openmw/openmw.cfg"),
            comment: String::from("#Monochrome UI Settings\n#\n#\n#\n#######\n##\n##\n##\n"),
        },
        key: "iHUDColor".into(),
        value: (128, 64, 255),
    });

    assert_eq!(
        setting.to_text(),
        "#Monochrome UI Settings\n#\n#\n#\n#######\n##\n##\n##\nfallback=iHUDColor,128,64,255\n"
    );
}

#[test]
fn test_negative_int_setting_round_trip() {
    let setting = GameSettingType::Int(IntGameSetting {
        meta: default_meta(),
        key: "iDepth".into(),
        value: -250,
    });
    assert_eq!(setting.value(), "-250");
}

#[test]
fn test_error_message_texts() {
    let err = ConfigError::BadEncoding {
        value: "utf8".into(),
        config_path: "/tmp/openmw.cfg".into(),
    };
    assert_eq!(
        err.message(),
        "Invalid encoding type: utf8 in config file /tmp/openmw.cfg"
    );
    let err2 = ConfigError::CannotFind { config_path: "/nowhere".into() };
    assert_eq!(err2.message(), "An openmw.cfg does not exist at: /nowhere");
}

#[test]
fn test_file_setting_equality_is_by_name() {
    let mut c1 = String::from("# first");
    let mut c2 = String::new();
    let a = FileSetting::new("a.esm", "/one/openmw.cfg", &mut c1);
    let b = FileSetting::new("a.esm", "/two/openmw.cfg", &mut c2);
    let c = FileSetting::new("c.esm", "/one/openmw.cfg", &mut String::new());
    assert!(a == b);
    assert!(!(a == c));
}
