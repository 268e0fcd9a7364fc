use auto_shortcut::console::{console_line, ConsoleType};
use auto_shortcut::utils::{
    exist_dir_parser, exist_file_parser, glob_matches_folded, matches_glob, normalize_drive_root,
    process_env, EnvVar,
};

fn chars(s: &str) -> Vec<char> {
    s.chars().collect()
}

#[test]
fn glob_suffix_prefix_and_contains() {
    assert!(matches_glob("*.cmd", "Setup.CMD"));
    assert!(!matches_glob("*.cmd", "setup.bat"));
    assert!(matches_glob("setup*", "SETUP.exe"));
    assert!(!matches_glob("setup*", "my_setup.exe"));
    assert!(matches_glob("*test*", "a_test_b.txt"));
    assert!(matches_glob("*", "anything"));
    assert!(matches_glob("inst", "reinstall.bat"));
    assert!(!matches_glob("*x*", "abc"));
}

#[test]
fn glob_on_folded_text() {
    assert!(glob_matches_folded(&chars("*.cmd"), &chars("a.cmd")));
    assert!(!glob_matches_folded(&chars("*.cmd"), &chars("a.CMD")));
    assert!(glob_matches_folded(&chars(""), &chars("a")));
}

#[test]
fn drive_root_is_completed() {
    assert_eq!(normalize_drive_root("C:"), "C:\\");
    assert_eq!(normalize_drive_root("z:"), "z:\\");
    assert_eq!(normalize_drive_root("C:\\"), "C:\\");
    assert_eq!(normalize_drive_root("1:"), "1:");
    assert_eq!(normalize_drive_root("dir"), "dir");
}

#[test]
fn placeholders_are_expanded() {
    let vars = vec![
        EnvVar { key: "APPDATA".to_string(), value: "C:\\Users\\me\\AppData\\Roaming".to_string() },
        EnvVar { key: "Temp".to_string(), value: "T:\\tmp".to_string() },
    ];
    assert_eq!(
        process_env("%Desktop%\\Links", Some("C:\\Users\\me"), &vars),
        "C:\\Users\\me\\Desktop\\links"
    );
    assert_eq!(
        process_env("%PROGRAMS%", Some("C:\\Users\\me"), &vars),
        "C:\\Users\\me\\AppData/Roaming/Microsoft/Windows/Start Menu/Programs"
    );
    assert_eq!(process_env("%Desktop%", None, &vars), "%desktop%");
    assert_eq!(process_env("%AppData%\\x", None, &vars), "C:\\Users\\me\\AppData\\Roaming\\x");
    assert_eq!(process_env("%TEMP%-%temp%", None, &vars), "T:\\tmp-T:\\tmp");
}

#[test]
fn existing_paths_are_accepted() {
    assert_eq!(exist_file_parser("a.toml", true, true), Ok("a.toml".to_string()));
    assert_eq!(
        exist_file_parser("a.toml", false, false),
        Err("File not found: a.toml".to_string())
    );
    assert_eq!(
        exist_file_parser("a.toml", true, false),
        Err("Path is not a file: a.toml".to_string())
    );
    assert_eq!(exist_dir_parser("d", true, true), Ok("d".to_string()));
    assert_eq!(exist_dir_parser("d", false, true), Err("Dir does not exist: d".to_string()));
    assert_eq!(exist_dir_parser("d", true, false), Err("Path is not a dir: d".to_string()));
}

#[test]
fn console_lines() {
    assert_eq!(console_line(ConsoleType::Info, "hello"), "  Info         hello");
    assert_eq!(console_line(ConsoleType::Error, "bad"), "  Err          bad");
    assert_eq!(console_line(ConsoleType::Success, ""), "  Success      ");
}
