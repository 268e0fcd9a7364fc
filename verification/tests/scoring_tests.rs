use auto_shortcut::candidates::{find_software_best_exe, ScanSettings, Selection};
use auto_shortcut::config::Lnk;
use auto_shortcut::directory::{DirectoryNode, FileEntry};
use auto_shortcut::resolver::Level;
use auto_shortcut::scoring::{Architecture, ScoreRatio};

const TEMP: &str = "C:\\Temp";

fn empty_file(name: &str) -> FileEntry {
    FileEntry { name: name.to_string(), metadata: None }
}

fn directory(path: &str, files: &[&str], subdirs: Vec<DirectoryNode>) -> DirectoryNode {
    DirectoryNode {
        path: path.to_string(),
        files: files.iter().map(|name| empty_file(name)).collect(),
        subdirs,
    }
}

fn target_level() -> Level {
    Level { path: TEMP.to_string(), has_signal: false, is_component: false }
}

fn find(
    dir: &DirectoryNode,
    ancestors: &[Level],
    shortcuts: Vec<Lnk>,
    ignore: &[&str],
    ratio_millionths: u32,
) -> Option<Selection> {
    let settings = ScanSettings {
        ignore: ignore.iter().map(|rule| rule.to_string()).collect(),
        shortcuts,
        ratio: ScoreRatio::from_millionths(ratio_millionths),
        host: Architecture::X64,
    };
    find_software_best_exe(dir, ancestors, &settings)
}

#[test]
fn test_scoring_config_match() {
    let test_dir = directory("C:\\Temp\\TestApp", &["test.exe"], vec![]);
    let test_exe = "C:\\Temp\\TestApp\\test.exe";

    let lnk = Lnk { exec_path: test_exe.to_string(), ..Default::default() };

    let result = find(&test_dir, &[target_level()], vec![lnk], &[], 0);

    assert!(result.is_some(), "应该找到配置匹配的 exe 文件");
    let found = result.unwrap();
    assert_eq!(found.executable, test_exe, "应该返回配置中指定的 exe 文件");
}

#[test]
fn test_scoring_name_parent_match() {
    let app_dir = directory("C:\\Temp\\MyApp", &["MyApp.exe", "Other.exe"], vec![]);
    let myapp_exe = "C:\\Temp\\MyApp\\MyApp.exe";

    let result = find(&app_dir, &[target_level()], vec![], &[], 0);

    assert!(result.is_some(), "应该找到一个 exe 文件");
    let found = result.unwrap();
    assert_eq!(found.executable, myapp_exe, "应该选择文件名与目录名匹配的 exe");
}

#[test]
fn test_scoring_gui_preference() {
    let app_dir = directory("C:\\Temp\\App", &["test.exe"], vec![]);
    let test_exe = "C:\\Temp\\App\\test.exe";

    let result = find(&app_dir, &[target_level()], vec![], &[], 0);

    if result.is_some() {
        let found = result.unwrap();
        assert_eq!(found.executable, test_exe);
    }
}

#[test]
fn test_scoring_ignore_list() {
    let app_dir =
        directory("C:\\Temp\\App", &["Main.exe", "uninstall.exe", "setup.exe"], vec![]);
    let main_exe = "C:\\Temp\\App\\Main.exe";

    let result = find(&app_dir, &[target_level()], vec![], &["uninstall", "setup"], 0);

    if result.is_some() {
        let found = result.unwrap();
        assert_eq!(found.executable, main_exe, "应该忽略 uninstall 和 setup 文件");
    }
}

#[test]
fn test_scoring_empty_directory() {
    let empty_dir = directory("C:\\Temp\\Empty", &[], vec![]);

    let result = find(&empty_dir, &[target_level()], vec![], &[], 0);

    assert!(result.is_none(), "空目录不应该返回任何文件");
}

#[test]
fn test_scoring_threshold() {
    let app_dir = directory("C:\\Temp\\App", &["test.exe"], vec![]);

    // A ratio of 2.0.
    let result = find(&app_dir, &[target_level()], vec![], &[], 2_000_000);

    assert!(result.is_none(), "高阈值应该过滤掉低分文件");
}

#[test]
fn test_scoring_nested_directories() {
    let sub_dir = directory("C:\\Temp\\Root\\SubApp", &["deep.exe"], vec![]);
    let root_dir = directory("C:\\Temp\\Root", &[], vec![sub_dir]);
    let deep_exe = "C:\\Temp\\Root\\SubApp\\deep.exe";

    let result = find(&root_dir, &[target_level()], vec![], &[], 0);

    if result.is_some() {
        let found = result.unwrap();
        assert_eq!(found.executable, deep_exe, "应该找到子目录中的 exe");
    }
}

#[test]
fn test_scoring_multiple_exe_selection() {
    let app_dir =
        directory("C:\\Temp\\MyApp", &["MyApp.exe", "helper.exe", "config.exe"], vec![]);
    let myapp_exe = "C:\\Temp\\MyApp\\MyApp.exe";

    let result = find(&app_dir, &[target_level()], vec![], &[], 0);

    if result.is_some() {
        let found = result.unwrap();
        assert_eq!(found.executable, myapp_exe, "应该选择与目录名匹配的 exe");
    }
}

#[test]
fn test_scoring_app_root_detection() {
    let install_dir =
        directory("C:\\Temp\\Program Files\\MyApp", &["MyApp.exe", "myapp.dll"], vec![]);
    let exe_path = "C:\\Temp\\Program Files\\MyApp\\MyApp.exe";
    let program_files =
        Level { path: "C:\\Temp\\Program Files".to_string(), has_signal: false, is_component: false };

    let result = find(&install_dir, &[target_level(), program_files], vec![], &[], 0);

    if result.is_some() {
        let found = result.unwrap();
        assert_eq!(found.executable, exe_path, "应该找到 exe 文件");
        assert!(
            found.root == "C:\\Temp\\Program Files\\MyApp"
                || found.root == "C:\\Temp\\Program Files",
            "应用根目录应该是 exe 所在目录或其父目录"
        );
    }
}

#[test]
fn test_scoring_special_characters() {
    let app_dir = directory("C:\\Temp\\App-2024", &["MyApp_2024.exe"], vec![]);
    let exe_path = "C:\\Temp\\App-2024\\MyApp_2024.exe";

    let result = find(&app_dir, &[target_level()], vec![], &[], 0);

    if result.is_some() {
        let found = result.unwrap();
        assert_eq!(found.executable, exe_path);
    }
}
