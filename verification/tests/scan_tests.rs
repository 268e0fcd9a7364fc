use auto_shortcut::candidates::{find_software_best_exe, ScanSettings};
use auto_shortcut::config::{ConfigInfo, Lnk};
use auto_shortcut::directory::{
    candidate_file, exe_name, ignored, unknown_name, Classification, DirectoryNode, FileEntry,
};
use auto_shortcut::resolver::{resolve_root, Level};
use auto_shortcut::scan::{scan, ScanEvent, ScanState};
use auto_shortcut::scoring::{
    metric_delta_of, name_parent_match, normalize, score, select_best, Architecture,
    CandidateFacts, ExeMetadata, Metric, ScoreRatio, MAX_TOTAL,
};

fn file(name: &str) -> FileEntry {
    FileEntry { name: name.to_string(), metadata: None }
}

fn exe(name: &str, metadata: ExeMetadata) -> FileEntry {
    FileEntry { name: name.to_string(), metadata: Some(metadata) }
}

fn dir(path: &str, files: Vec<FileEntry>, subdirs: Vec<DirectoryNode>) -> DirectoryNode {
    DirectoryNode { path: path.to_string(), files, subdirs }
}

fn gui() -> ExeMetadata {
    ExeMetadata {
        is_gui: true,
        has_icon: false,
        has_description: false,
        has_signature: false,
        architecture: Architecture::Other,
        size_bytes: 0,
    }
}

fn rich() -> ExeMetadata {
    ExeMetadata {
        is_gui: true,
        has_icon: true,
        has_description: true,
        has_signature: false,
        architecture: Architecture::X64,
        size_bytes: 3 * 1_048_576,
    }
}

fn settings() -> ScanSettings {
    ScanSettings {
        ignore: vec![],
        shortcuts: vec![],
        ratio: ScoreRatio::default(),
        host: Architecture::X64,
    }
}

fn roots(events: &[ScanEvent]) -> Vec<String> {
    let mut out = Vec::new();
    for e in events {
        if let ScanEvent::Application { root, .. } = e {
            out.push(root.clone());
        }
    }
    out
}

fn within(path: &str, root: &str) -> bool {
    let p = path.to_ascii_lowercase().replace('/', "\\");
    let r = root.to_ascii_lowercase().replace('/', "\\");
    p == r || p.starts_with(&(r.clone() + "\\"))
}

fn application(root: &str, executable: &str) -> String {
    format!("app {} {}", root, executable)
}

fn show(events: &[ScanEvent]) -> Vec<String> {
    events
        .iter()
        .map(|e| match e {
            ScanEvent::Application { root, primary_executable } => {
                application(root, primary_executable)
            }
            ScanEvent::Container { directory } => format!("container {}", directory),
            ScanEvent::Unrecognized { directory } => format!("unrecognized {}", directory),
        })
        .collect()
}

#[test]
fn lone_executable_is_an_application() {
    let app = dir("T\\App", vec![file("App.exe")], vec![]);
    assert_eq!(app.classify(&[]), Classification::SingleFile);
    let target = dir("T", vec![], vec![app]);
    let events = scan(&target, &settings());
    assert_eq!(show(&events), vec![application("T\\App", "T\\App\\App.exe")]);
}

#[test]
fn package_with_component_folder() {
    // Game/ holds bin/Game.exe, data/ and readme.txt.
    let game = dir(
        "T\\Game",
        vec![file("readme.txt")],
        vec![
            dir("T\\Game\\bin", vec![exe("Game.exe", rich())], vec![]),
            dir("T\\Game\\data", vec![], vec![]),
        ],
    );
    let target_level = Level { path: "T".to_string(), has_signal: false, is_component: false };

    // The scorer selects Game.exe: its name agrees with the directory, and
    // it has a description and an icon. The resolver moves the root from
    // Game\bin up to Game, which holds the recognized subfolder data.
    let found = find_software_best_exe(&game, &[target_level], &settings()).unwrap();
    assert_eq!(found.executable, "T\\Game\\bin\\Game.exe");
    assert_eq!(found.root, "T\\Game");
    assert_eq!(found.score.total, 40 + 50 + 40 + 30 + 45 + 3);

    // The folder bin by itself has the single-file layout, and a directory
    // without an executable of its own that holds such a folder groups
    // applications.
    assert_eq!(game.subdirs[0].classify(&[]), Classification::SingleFile);
    assert_eq!(game.classify(&[]), Classification::Category);
}

#[test]
fn category_of_two_applications() {
    let a = dir("T\\Tools\\A", vec![file("a.exe")], vec![]);
    let b = dir("T\\Tools\\B", vec![exe("B.exe", rich()), file("b.dll"), file("notes.xyz")], vec![]);
    assert_eq!(a.classify(&[]), Classification::SingleFile);
    assert_eq!(b.classify(&[]), Classification::Green);
    let tools = dir("T\\Tools", vec![], vec![a, b]);
    assert_eq!(tools.classify(&[]), Classification::Category);
    let target = dir("T", vec![], vec![tools]);
    let events = scan(&target, &settings());
    assert_eq!(
        show(&events),
        vec![
            "container T\\Tools".to_string(),
            application("T\\Tools\\A", "T\\Tools\\A\\a.exe"),
            application("T\\Tools\\B", "T\\Tools\\B\\B.exe"),
        ]
    );
}

#[test]
fn low_score_is_unrecognized() {
    // A single executable that scores 50 against a threshold of 119.
    let green = dir("T\\Thing", vec![exe("run.exe", gui()), file("notes.xyz")], vec![]);
    assert_eq!(green.classify(&[]), Classification::Green);
    let facts = CandidateFacts { config_match: false, name_parent_match: false, metadata: Some(gui()) };
    assert_eq!(score(&facts, Architecture::X64).total, 50);
    assert_eq!(ScoreRatio::default().threshold_value(), 119);
    assert_eq!(MAX_TOTAL, 395);
    let target = dir("T", vec![], vec![green]);
    let events = scan(&target, &settings());
    assert_eq!(show(&events), vec!["unrecognized T\\Thing".to_string()]);
    assert!(roots(&events).is_empty());
}

#[test]
fn single_file_layout_is_always_single_file() {
    let rules = vec!["a".to_string(), "exe".to_string()];
    for files in [
        vec![file("a.exe")],
        vec![file("a.EXE"), file("a.ico")],
        vec![file("x.ico"), file("b.exe"), file("c.Exe"), file("d.ICO")],
    ] {
        let d = dir("T\\bin", files, vec![]);
        assert_eq!(d.classify(&[]), Classification::SingleFile);
        assert_eq!(d.classify(&rules), Classification::SingleFile);
    }
    let with_text = dir("T\\x", vec![file("a.exe"), file("a.txt")], vec![]);
    assert_ne!(with_text.classify(&[]), Classification::SingleFile);
    let with_sub = dir("T\\x", vec![file("a.exe")], vec![dir("T\\x\\y", vec![], vec![])]);
    assert_ne!(with_sub.classify(&[]), Classification::SingleFile);
    let without_exe = dir("T\\x", vec![file("a.ico")], vec![]);
    assert_eq!(without_exe.classify(&[]), Classification::Unclassifiable);
}

#[test]
fn directory_over_single_file_folder_is_a_category() {
    let single = || dir("T\\g\\one", vec![file("one.exe"), file("one.ico")], vec![]);
    let other = || dir("T\\g\\two", vec![file("readme.txt")], vec![]);
    for files in [vec![], vec![file("readme.txt")], vec![file("a.dll"), file("b.xyz")]] {
        let d = dir("T\\g", files, vec![other(), single()]);
        assert_eq!(d.classify(&[]), Classification::Category);
        assert_eq!(d.classify(&["one".to_string()]), Classification::Category);
    }
    let with_exe = dir("T\\g", vec![file("g.exe")], vec![single()]);
    assert_ne!(with_exe.classify(&[]), Classification::Category);
}

#[test]
fn classification_is_repeatable() {
    let make = || {
        dir(
            "T\\Mix",
            vec![file("tool.exe"), file("tool.ini")],
            vec![dir("T\\Mix\\sub", vec![file("s.exe")], vec![])],
        )
    };
    let a = make();
    let b = make();
    let first = a.classify(&[]);
    assert_eq!(first, Classification::Hybrid);
    assert_eq!(a.classify(&[]), first);
    assert_eq!(b.classify(&[]), first);
}

#[test]
fn hybrid_and_green_and_unclassifiable() {
    // Too many files of no recognized kind: not hybrid, but green.
    let d = dir(
        "T\\Mix",
        vec![file("tool.exe"), file("a.xyz"), file("b.xyz")],
        vec![dir("T\\Mix\\sub", vec![file("s.exe")], vec![])],
    );
    assert_eq!(d.classify(&[]), Classification::Green);
    // No subdirectory is an application: green.
    let d = dir(
        "T\\App",
        vec![file("app.exe"), file("app.dll")],
        vec![dir("T\\App\\data", vec![file("x.dat")], vec![])],
    );
    assert_eq!(d.classify(&[]), Classification::Green);
    // Every candidate is ignored: nothing to act on.
    assert_eq!(d.classify(&["app".to_string()]), Classification::Unclassifiable);
    // No file of its own: skipped, though a candidate lies below.
    let d = dir(
        "T\\Shell",
        vec![],
        vec![dir("T\\Shell\\in", vec![file("x.exe"), file("x.xyz")], vec![])],
    );
    assert_eq!(d.classify(&[]), Classification::Unclassifiable);
    // Several executables make an application unless the folder is a
    // component folder.
    let plain = dir("T\\g\\pack", vec![file("a.exe"), file("b.exe"), file("c.xyz")], vec![]);
    let component = dir("T\\g\\x64", vec![file("a.exe"), file("b.exe"), file("c.xyz")], vec![]);
    assert!(plain.independent_app());
    assert!(!component.independent_app());
    let doc = dir("T\\g\\d", vec![file("a.exe"), file("LICENSE"), file("c.xyz")], vec![]);
    assert!(doc.app_structure());
    let sub = dir(
        "T\\g\\s",
        vec![file("a.exe"), file("c.xyz")],
        vec![dir("T\\g\\s\\Plugins", vec![], vec![])],
    );
    assert!(sub.app_structure());
}

#[test]
fn file_kinds() {
    assert!(exe_name("a.exe"));
    assert!(exe_name("a.b.EXE"));
    assert!(!exe_name("exe"));
    assert!(!exe_name(".exe"));
    assert!(!exe_name("a.exe.bak"));
    assert!(unknown_name("a.xyz"));
    assert!(unknown_name("noext"));
    assert!(!unknown_name("a.LOG"));
    assert!(!unknown_name("ReadMe.md"));
    assert!(!unknown_name("changelog"));
    assert!(!unknown_name("a.ico"));
}

#[test]
fn ignore_rules() {
    let rules = vec!["uninstall".to_string(), "C:\\Apps\\Tool\\Helper.exe".to_string()];
    assert!(ignored(&rules, "C:\\Apps\\Tool\\Uninstall.exe"));
    assert!(ignored(&rules, "c:/apps/tool/helper.EXE"));
    assert!(!ignored(&rules, "C:\\Apps\\Tool\\Tool.exe"));
    assert!(!ignored(&rules, "C:\\uninstall\\Tool.exe"));
    assert!(!ignored(&rules, "D:\\Apps\\Tool\\Helper.exe"));
    assert!(!ignored(&[], "C:\\Apps\\Tool\\Uninstall.exe"));
    assert!(!candidate_file("C:\\Apps\\Tool", "uninstall.exe", &rules));
    assert!(candidate_file("C:\\Apps\\Tool", "tool.exe", &rules));
    assert!(!candidate_file("C:\\Apps\\Tool", "tool.dll", &rules));
}

#[test]
fn metric_deltas() {
    let all = ExeMetadata {
        is_gui: true,
        has_icon: true,
        has_description: true,
        has_signature: true,
        architecture: Architecture::X64,
        size_bytes: 100 * 1_048_576,
    };
    let best = CandidateFacts { config_match: true, name_parent_match: true, metadata: Some(all) };
    let s = score(&best, Architecture::X64);
    assert_eq!(s.total, 395);
    let deltas: Vec<(Metric, i32)> = s.breakdown.iter().map(|e| (e.metric, e.delta)).collect();
    assert_eq!(
        deltas,
        vec![
            (Metric::ConfigMatch, 100),
            (Metric::NameParentMatch, 40),
            (Metric::GuiSubsystem, 50),
            (Metric::GuiPenalty, 0),
            (Metric::IconPresent, 40),
            (Metric::DescriptionPresent, 30),
            (Metric::ArchitectureMatch, 45),
            (Metric::DigitalSignature, 60),
            (Metric::SizeBonus, 30),
        ]
    );

    let console = ExeMetadata { is_gui: false, size_bytes: 1_048_575, ..all };
    let facts = CandidateFacts { config_match: false, name_parent_match: false, metadata: Some(console) };
    assert_eq!(metric_delta_of(Metric::GuiPenalty, &facts, Architecture::X64), -30);
    assert_eq!(metric_delta_of(Metric::GuiSubsystem, &facts, Architecture::X64), 0);
    assert_eq!(metric_delta_of(Metric::SizeBonus, &facts, Architecture::X64), 0);
    assert_eq!(metric_delta_of(Metric::ArchitectureMatch, &facts, Architecture::X86), 0);
    assert_eq!(score(&facts, Architecture::X86).total, -30 + 40 + 30 + 60);

    let sized = |n: u64| CandidateFacts {
        config_match: false,
        name_parent_match: false,
        metadata: Some(ExeMetadata { size_bytes: n, ..gui() }),
    };
    assert_eq!(metric_delta_of(Metric::SizeBonus, &sized(1_048_576), Architecture::X64), 1);
    assert_eq!(metric_delta_of(Metric::SizeBonus, &sized(30 * 1_048_576), Architecture::X64), 30);
    assert_eq!(metric_delta_of(Metric::SizeBonus, &sized(u64::MAX), Architecture::X64), 30);

    let unknown = CandidateFacts { config_match: false, name_parent_match: true, metadata: None };
    assert_eq!(score(&unknown, Architecture::X64).total, 40);

    let other = CandidateFacts {
        config_match: false,
        name_parent_match: false,
        metadata: Some(ExeMetadata { architecture: Architecture::Other, ..gui() }),
    };
    assert_eq!(metric_delta_of(Metric::ArchitectureMatch, &other, Architecture::Other), 0);
}

#[test]
fn architectures() {
    assert_eq!(Architecture::from_machine(0x014c), Architecture::X86);
    assert_eq!(Architecture::from_machine(0x8664), Architecture::X64);
    assert_eq!(Architecture::from_machine(0xAA64), Architecture::Arm64);
    assert_eq!(Architecture::from_machine(0x0200), Architecture::Other);
    assert_eq!(Architecture::from_processor(0), Architecture::X86);
    assert_eq!(Architecture::from_processor(9), Architecture::X64);
    assert_eq!(Architecture::from_processor(12), Architecture::Arm64);
    assert_eq!(Architecture::from_processor(5), Architecture::Other);
    assert!(Architecture::Arm64.is_native_to(Architecture::Arm64));
    assert!(!Architecture::X86.is_native_to(Architecture::X64));
}

#[test]
fn thresholds() {
    assert_eq!(ScoreRatio::from_millionths(0).threshold_value(), 0);
    assert_eq!(ScoreRatio::from_millionths(300_000).threshold_value(), 119);
    assert_eq!(ScoreRatio::from_millionths(500_000).threshold_value(), 198);
    assert_eq!(ScoreRatio::from_millionths(1_000_000).threshold_value(), 395);
    assert_eq!(ScoreRatio::from_millionths(2_000_000).threshold_value(), 790);
    assert_eq!(ScoreRatio::from_millionths(1_265).threshold_value(), 0);
    assert_eq!(ScoreRatio::from_millionths(1_266).threshold_value(), 1);
    assert!(!ScoreRatio::default().is_accepted(119));
    assert!(ScoreRatio::default().is_accepted(120));
    assert_eq!(ScoreRatio::from_config(None), (ScoreRatio::from_millionths(300_000), false));
    assert_eq!(ScoreRatio::from_config(Some(1_000_001)), (ScoreRatio::from_millionths(300_000), true));
    assert_eq!(ScoreRatio::from_config(Some(1_000_000)), (ScoreRatio::from_millionths(1_000_000), false));
}

#[test]
fn raising_the_ratio_never_accepts_more() {
    let scores = [-30, 0, 50, 119, 120, 200, 395];
    let mut before: Vec<usize> = (0..scores.len()).collect();
    for m in [0u32, 100_000, 300_000, 300_001, 500_000, 900_000, 1_000_000, 2_000_000] {
        let ratio = ScoreRatio::from_millionths(m);
        let accepted: Vec<usize> =
            (0..scores.len()).filter(|&i| ratio.is_accepted(scores[i])).collect();
        assert!(accepted.iter().all(|i| before.contains(i)));
        before = accepted;
    }
    assert!(before.is_empty());
}

#[test]
fn selection_takes_the_first_highest() {
    let ratio = ScoreRatio::default();
    assert_eq!(select_best(&[], ratio), None);
    assert_eq!(select_best(&[10, 119], ratio), None);
    assert_eq!(select_best(&[10, 120], ratio), Some(1));
    assert_eq!(select_best(&[200, 300, 300, 150], ratio), Some(1));
    assert_eq!(select_best(&[300, 200], ratio), Some(0));
    assert_eq!(select_best(&[0, -30, 5], ScoreRatio::from_millionths(0)), Some(2));
    assert_eq!(select_best(&[0, -30], ScoreRatio::from_millionths(0)), None);
}

#[test]
fn names_are_normalized() {
    let text = |v: Vec<char>| v.into_iter().collect::<String>();
    assert_eq!(text(normalize("My App-2024_x")), "myapp2024x");
    assert_eq!(text(normalize("ÄPP")), "äpp");
    assert!(name_parent_match("MyApp.exe", "My App"));
    assert!(name_parent_match("App.exe", "my-app_2"));
    assert!(name_parent_match("MyApp_2024.exe", "app-2024"));
    assert!(!name_parent_match("helper.exe", "MyApp"));
    assert!(name_parent_match("_.exe", "MyApp"));
}

#[test]
fn configured_executable_wins() {
    let d = dir(
        "T\\TestApp",
        vec![exe("other.exe", gui()), file("test.exe"), file("x.xyz")],
        vec![],
    );
    let mut s = settings();
    s.ratio = ScoreRatio::from_millionths(0);
    let level = Level { path: "T".to_string(), has_signal: false, is_component: false };
    let found = find_software_best_exe(&d, &[], &s).unwrap();
    assert_eq!(found.executable, "T\\TestApp\\other.exe");
    s.shortcuts.push(Lnk::new("T\\TestApp\\test.exe".to_string()));
    s.shortcuts[0].exec_path = "t\\testapp\\TEST.exe".to_string();
    let found = find_software_best_exe(&d, &[level], &s);
    // A relative entry is taken from the directory of the program.
    assert_eq!(found.unwrap().executable, "T\\TestApp\\other.exe");
    s.shortcuts[0].exec_path = "test.exe".to_string();
    let level = Level { path: "T".to_string(), has_signal: false, is_component: false };
    let found = find_software_best_exe(&d, &[level], &s).unwrap();
    assert_eq!(found.executable, "T\\TestApp\\test.exe");
    assert_eq!(found.score.total, 100 + 40);
    assert_eq!(found.root, "T\\TestApp");
}

#[test]
fn ignored_candidates_are_not_selected() {
    let d = dir(
        "T\\App",
        vec![exe("uninstall.exe", rich()), exe("setup.exe", rich()), file("Main.exe"), file("a.xyz")],
        vec![],
    );
    let mut s = settings();
    s.ratio = ScoreRatio::from_millionths(0);
    s.ignore = vec!["uninstall".to_string(), "setup".to_string()];
    let found = find_software_best_exe(&d, &[], &s);
    assert!(found.is_none());
    let d = dir(
        "T\\Main",
        vec![exe("uninstall.exe", rich()), file("Main.exe"), file("a.xyz")],
        vec![],
    );
    let found = find_software_best_exe(&d, &[], &s).unwrap();
    assert_eq!(found.executable, "T\\Main\\Main.exe");
    let empty = dir("T\\Empty", vec![], vec![]);
    assert!(find_software_best_exe(&empty, &[], &s).is_none());
    s.ratio = ScoreRatio::from_millionths(2_000_000);
    assert!(find_software_best_exe(&d, &[], &s).is_none());
}

#[test]
fn candidates_are_described() {
    let d = dir(
        "T\\My-App",
        vec![exe("MyApp.exe", rich()), file("notes.txt"), file("setup.exe")],
        vec![dir("T\\My-App\\bin", vec![exe("Helper Tool.exe", gui())], vec![])],
    );
    let mut s = settings();
    s.ignore = vec!["setup".to_string()];
    let listed = d.evaluate(&s);
    assert_eq!(listed.len(), 2);
    assert_eq!(listed[0].path, "T\\My-App\\MyApp.exe");
    assert_eq!(listed[0].stem, "myapp");
    assert_eq!(listed[0].parent_name, "myapp");
    assert_eq!(listed[0].metadata, Some(rich()));
    assert_eq!(listed[0].score.total, 40 + 50 + 40 + 30 + 45 + 3);
    assert_eq!(listed[0].score.breakdown.len(), 9);
    assert_eq!(listed[1].path, "T\\My-App\\bin\\Helper Tool.exe");
    assert_eq!(listed[1].stem, "helpertool");
    assert_eq!(listed[1].parent_name, "myapp");
    assert_eq!(listed[1].score.total, 50);
    let scores = d.score_candidates(&d.list_candidates(&s.ignore), &s);
    assert_eq!(scores.iter().map(|x| x.total).collect::<Vec<i32>>(), vec![208, 50]);
}

#[test]
fn nested_candidates_are_found() {
    let d = dir(
        "T\\Root",
        vec![file("readme.txt")],
        vec![dir(
            "T\\Root\\SubApp",
            vec![exe("deep.exe", rich())],
            vec![dir("T\\Root\\SubApp\\more", vec![exe("deeper.exe", rich())], vec![])],
        )],
    );
    let level = Level { path: "T".to_string(), has_signal: false, is_component: false };
    let found = find_software_best_exe(&d, &[level], &settings()).unwrap();
    assert_eq!(found.executable, "T\\Root\\SubApp\\deep.exe");
    assert_eq!(found.root, "T\\Root\\SubApp");
    let cands = d.list_candidates(&[]);
    assert_eq!(cands.len(), 1);
    assert_eq!(cands[0].holder, Some(0));
    assert_eq!(cands[0].file, 0);
}

fn level(path: &str, has_signal: bool, is_component: bool) -> Level {
    Level { path: path.to_string(), has_signal, is_component }
}

#[test]
fn roots_are_resolved() {
    // No signal: the root stays.
    assert_eq!(resolve_root(&[level("T", false, false), level("T\\a", false, false)]), 1);
    assert_eq!(
        resolve_root(&[
            level("T", true, false),
            level("T\\a", false, false),
            level("T\\a\\b", false, false)
        ]),
        2
    );
    // A component folder moves up, but never to the target.
    assert_eq!(
        resolve_root(&[
            level("T", true, false),
            level("T\\a", false, true),
            level("T\\a\\bin", false, true)
        ]),
        1
    );
    // A parent with a signal moves the root up.
    assert_eq!(
        resolve_root(&[
            level("T", false, false),
            level("T\\a", true, false),
            level("T\\a\\b", false, false)
        ]),
        1
    );
    // At most three steps.
    let deep: Vec<Level> = (0..7).map(|i| level(&format!("T{}", i), true, true)).collect();
    assert_eq!(resolve_root(&deep), 3);
    assert_eq!(resolve_root(&[level("T", true, true)]), 0);
    let d = dir("T\\x", vec![file("a.cfg")], vec![]);
    assert!(d.structure_signal());
    let d = dir("T\\x", vec![file("a.log")], vec![dir("T\\x\\Assets", vec![], vec![])]);
    assert!(d.structure_signal());
    let d = dir("T\\Win64", vec![file("a.log")], vec![dir("T\\x\\plugins", vec![], vec![])]);
    assert!(!d.structure_signal());
    assert!(d.level().is_component);
    assert_eq!(d.level().path, "T\\Win64");
}

#[test]
fn reported_roots_never_nest() {
    // x is an application of its own; the root of x64 would move up to A,
    // which lies above x and so cannot be claimed.
    let a = dir(
        "T\\A",
        vec![],
        vec![
            dir("T\\A\\x", vec![exe("x.exe", rich()), file("x.dll"), file("n.xyz")], vec![]),
            dir("T\\A\\x64", vec![exe("tool.exe", rich()), file("tool.dll"), file("n.xyz")], vec![]),
        ],
    );
    let b = dir(
        "T\\B",
        vec![exe("B.exe", rich()), file("b.dll")],
        vec![dir("T\\B\\extra", vec![file("e.exe")], vec![])],
    );
    let target = dir("T", vec![file("loose.exe"), file("note.txt"), file("skip.exe")], vec![a, b]);
    let mut s = settings();
    s.ignore = vec!["skip".to_string()];
    let events = scan(&target, &s);
    assert_eq!(
        show(&events),
        vec![
            application("T\\loose.exe", "T\\loose.exe"),
            "container T\\A".to_string(),
            application("T\\A\\x", "T\\A\\x\\x.exe"),
            "container T\\B".to_string(),
            application("T\\B\\extra", "T\\B\\extra\\e.exe"),
        ]
    );
    let r = roots(&events);
    for a in &r {
        for b in &r {
            assert!(a == b || !(within(a, b) || within(b, a)));
        }
    }
}

#[test]
fn claimed_subtrees_are_pruned() {
    let app = dir(
        "T\\App",
        vec![exe("App.exe", rich()), file("app.dll"), file("n.xyz")],
        vec![
            dir("T\\App\\tools", vec![file("t.exe"), file("t.xyz")], vec![]),
            dir("T\\App\\docs", vec![file("d.exe"), file("d.dll"), file("e.xyz")], vec![]),
        ],
    );
    assert_eq!(app.classify(&[]), Classification::Green);
    let system = dir("T\\$Recycle.Bin", vec![file("a.exe")], vec![]);
    let ignored_dir = dir("T\\Old Stuff", vec![file("b.exe")], vec![]);
    let two = dir("T\\Two", vec![file("one.exe"), file("two.exe"), file("skip.exe")], vec![]);
    let target = dir("T", vec![], vec![app, system, ignored_dir, two]);
    let mut s = settings();
    s.ignore = vec!["old".to_string(), "skip".to_string()];
    let events = scan(&target, &s);
    assert_eq!(
        show(&events),
        vec![
            application("T\\App", "T\\App\\App.exe"),
            application("T\\Two", "T\\Two\\one.exe"),
            application("T\\Two", "T\\Two\\two.exe"),
        ]
    );
}

#[test]
fn state_claims_roots_once() {
    let mut state = ScanState::new();
    assert!(state.can_claim("T\\a"));
    assert!(state.claim("T\\a".to_string(), "T\\a\\a.exe".to_string()));
    assert!(!state.claim("t\\A".to_string(), "T\\a\\b.exe".to_string()));
    assert!(!state.claim("T\\a\\sub".to_string(), "T\\a\\sub\\c.exe".to_string()));
    assert!(!state.claim("T".to_string(), "T\\d.exe".to_string()));
    assert!(state.claim("T\\ab".to_string(), "T\\ab\\e.exe".to_string()));
    assert_eq!(state.roots(), &vec!["T\\a".to_string(), "T\\ab".to_string()]);
    assert_eq!(state.events().len(), 2);
    assert!(state.claims("T/A/deep/er"));
    assert!(!state.claims("T\\abc"));
    let s = settings();
    assert!(state.prunes("T\\a\\x", &s));
    assert!(state.prunes("T\\q\\System Volume Information", &s));
    assert!(state.prunes("T\\q\\MSOCACHE", &s));
    assert!(state.prunes("T\\q\\Config.Msi", &s));
    assert!(state.prunes("T\\q\\recovery", &s));
    assert!(!state.prunes("T\\q\\recovery2", &s));
    let d = dir("T\\h", vec![file("h.exe"), file("h.ini")], vec![dir("T\\h\\s", vec![file("s.exe")], vec![])]);
    state.visit(&d, &[], &s);
    assert_eq!(show(state.events())[2], "container T\\h");
    let taken = state.take_events();
    assert_eq!(taken.len(), 3);
    assert!(state.events().is_empty());
    assert_eq!(state.roots().len(), 2);
    assert!(state.prunes("T\\a\\x", &s));
}

#[test]
fn settings_of_a_run() {
    let none: Option<ConfigInfo> = None;
    let (s, reset) = ScanSettings::from_config(&none, None, Architecture::Arm64);
    assert!(s.ignore.is_empty() && s.shortcuts.is_empty());
    assert_eq!(s.ratio.millionths, 300_000);
    assert_eq!(s.host, Architecture::Arm64);
    assert!(!reset);
    let (s, reset) = ScanSettings::from_config(&none, Some(1_200_000), Architecture::X64);
    assert_eq!(s.ratio.millionths, 300_000);
    assert!(reset);

    let config = Some(ConfigInfo {
        template: None,
        enable_escape: false,
        use_filename: false,
        only_match: false,
        score_ratio: Some(450_000),
        ignore: vec!["setup".to_string(), "unins".to_string()],
        install: false,
        install_parallel: false,
        scripts: vec![],
        shortcut: vec![Lnk { name: Some("A".to_string()), ..Lnk::new("a.exe".to_string()) }],
        search_depth: 0,
    });
    let (s, reset) = ScanSettings::from_config(&config, None, Architecture::X64);
    assert_eq!(s.ignore, vec!["setup".to_string(), "unins".to_string()]);
    assert_eq!(s.shortcuts.len(), 1);
    assert_eq!(s.shortcuts[0].exec_path, "a.exe");
    assert_eq!(s.shortcuts[0].name, Some("A".to_string()));
    assert_eq!(s.ratio.millionths, 450_000);
    assert!(!reset);
    let (s, reset) = ScanSettings::from_config(&config, Some(100_000), Architecture::X64);
    assert_eq!(s.ratio.millionths, 100_000);
    assert!(!reset);
}
