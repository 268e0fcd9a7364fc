use auto_shortcut::config::{
    asks_for_escape, default_name_template, escape_backslashes, prepare_config_text, ConfigInfo, Lnk,
    Template, DEFAULT_NAME_TEMPLATE,
};
use auto_shortcut::utils::{parse_hotkey, HotkeyError};

#[test]
fn test_lnk_new() {
    let lnk = Lnk::new("test.exe".to_string());
    assert_eq!(lnk.exec_path, "test.exe");
    assert_eq!(lnk.name, None);
    assert_eq!(lnk.hotkey, None);
}

#[test]
fn test_get_lnk_info() {
    let link_info = vec![Lnk {
        exec_path: "C:\\Test\\app.exe".to_string(),
        name: Some("App".to_string()),
        hotkey: Some("Ctrl + A".to_string()),
        ..Default::default()
    }];

    let path = "C:\\Test\\app.exe";
    let result = Lnk::get_lnk_info(path, &link_info);
    assert!(result.is_some());
    assert_eq!(result.unwrap().name, Some("App".to_string()));

    let path = "C:\\Test\\nonexistent.exe";
    let result = Lnk::get_lnk_info(path, &link_info);
    assert!(result.is_none());
}

#[test]
fn test_parse_hotkey() {

    assert_eq!(parse_hotkey("Ctrl + A").unwrap(), 0x0241);
    assert_eq!(parse_hotkey("Alt + L").unwrap(), 0x044C);
    assert_eq!(parse_hotkey("Shift + S").unwrap(), 0x0153);

    assert_eq!(parse_hotkey("Ctrl+Shift+A").unwrap(), 0x0341);
    assert_eq!(parse_hotkey("Ctrl + Alt + Delete").unwrap(), 0x062E);

    assert_eq!(parse_hotkey("Win + L").unwrap(), 0x084C);
    assert_eq!(parse_hotkey("Meta + Tab").unwrap(), 0x0809);

    assert_eq!(parse_hotkey("Alt + F1").unwrap(), 0x0470);
    assert_eq!(parse_hotkey("F12").unwrap(), 0x007B);

    assert_eq!(parse_hotkey("Ctrl + Space").unwrap(), 0x0220);
    assert_eq!(parse_hotkey("Alt + Enter").unwrap(), 0x040D);
    assert_eq!(parse_hotkey("Shift + Delete").unwrap(), 0x012E);
    assert_eq!(parse_hotkey("Alt + Tab").unwrap(), 0x0409);

    let r1 = parse_hotkey("CTRL + A").unwrap();
    let r2 = parse_hotkey("ctrl + a").unwrap();
    let r3 = parse_hotkey("Ctrl + a").unwrap();
    assert_eq!(r1, r2);
    assert_eq!(r2, r3);

    let r1 = parse_hotkey("Ctrl+A").unwrap();
    let r2 = parse_hotkey("Ctrl + A").unwrap();
    assert_eq!(r1, r2);

    assert!(parse_hotkey("").is_err());
    assert!(parse_hotkey("Ctrl + Shift + Alt").is_err());
    assert!(parse_hotkey("Ctrl + A + B").is_err());
    assert!(parse_hotkey("Ctrl + InvalidKey").is_err());
}

#[test]
fn hotkey_errors_by_kind() {

    assert_eq!(parse_hotkey(""), Err(HotkeyError::Empty));
    assert_eq!(parse_hotkey("   "), Err(HotkeyError::Empty));
    assert_eq!(parse_hotkey("Ctrl + Shift + Alt"), Err(HotkeyError::NoKey));
    assert_eq!(parse_hotkey("Ctrl + A + B"), Err(HotkeyError::SeveralKeys));
    assert_eq!(parse_hotkey("Ctrl + InvalidKey"), Err(HotkeyError::UnknownKey));
    assert_eq!(parse_hotkey("Ctrl + "), Err(HotkeyError::UnknownKey));
    assert_eq!(parse_hotkey("F0"), Err(HotkeyError::UnknownKey));
    assert_eq!(parse_hotkey("F25"), Err(HotkeyError::UnknownKey));
    assert_eq!(parse_hotkey("F24"), Ok(0x0087));
    assert_eq!(parse_hotkey("Control + 7"), Ok(0x0237));
    assert_eq!(parse_hotkey("Ctrl + Ctrl + Win + Alt + Shift + z"), Ok(0x0F5A));
}

#[test]
fn lookup_is_relative_to_the_program() {
    let entries = vec![
        Lnk::new("tool.exe".to_string()),
        Lnk { name: Some("Second".to_string()), ..Lnk::new("TOOL.EXE".to_string()) },
        Lnk::new("D:\\Apps\\Other\\run.exe".to_string()),
    ];
    let found = Lnk::get_lnk_info("C:\\Apps\\Tool\\Tool.exe", &entries).unwrap();
    assert_eq!(found.exec_path, "tool.exe");
    assert_eq!(found.name, None);
    assert_eq!(Lnk::position("C:\\Apps\\Tool\\Tool.exe", &entries), Some(0));
    assert_eq!(Lnk::position("d:/apps/other/RUN.exe", &entries), Some(2));
    assert_eq!(Lnk::position("C:\\Apps\\Other\\run.exe", &entries), None);
    assert_eq!(Lnk::position("tool.exe", &entries), Some(0));
}

#[test]
fn default_templates() {

    assert_eq!(
        DEFAULT_NAME_TEMPLATE,
        "{product ? product : {desc ? desc : {orig_filename ? orig_filename : stem}}}"
    );
    assert_eq!(default_name_template(), Some(DEFAULT_NAME_TEMPLATE.to_string()));
    let t = Template::default_template().unwrap();
    assert_eq!(t.name, Some(DEFAULT_NAME_TEMPLATE.to_string()));
    assert_eq!(t.dest, None);
    assert_eq!(t.icon, None);
    assert_eq!(t.work_dir, None);
    assert_eq!(t.comment, None);
}

#[test]
fn backslashes_in_quotes_are_doubled() {

    let plain = "dest = \"C:\\Users\\me\"\n# note \\ here\nname = 'a\\b'\n";
    assert!(!asks_for_escape(plain));
    assert_eq!(
        escape_backslashes(plain),
        "dest = \"C:\\\\Users\\\\me\"\n# note \\ here\nname = 'a\\b'\n"
    );
    assert_eq!(prepare_config_text(plain), escape_backslashes(plain));

    let asked = "enable_escape = true\ndest = \"C:\\\\Users\"\n";
    assert!(asks_for_escape(asked));
    assert_eq!(prepare_config_text(asked), asked);

    let commented = "  # enable_escape = true\r\ndest = \"a\\b\"";
    assert!(!asks_for_escape(commented));
    assert_eq!(prepare_config_text(commented), "  # enable_escape = true\r\ndest = \"a\\\\b\"");

    assert!(asks_for_escape("x = 1\nenable_escape=true # yes"));
    assert!(!asks_for_escape("enable_escape = false"));
}

#[test]
fn configured_settings() {
    let mut config = ConfigInfo {
        template: None,
        enable_escape: false,
        use_filename: false,
        only_match: false,
        score_ratio: None,
        ignore: vec![],
        install: false,
        install_parallel: false,
        scripts: vec![],
        shortcut: vec![],
        search_depth: 0,
    };
    assert_eq!(config.depth_limit(), None);
    config.search_depth = 5;
    assert_eq!(config.depth_limit(), Some(5));
}
