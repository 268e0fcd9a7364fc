use auto_shortcut::config::{ConfigInfo, Lnk, Template};
use auto_shortcut::console::ConsoleType;
use auto_shortcut::mapping::{merge_mappings, Mapping, MappingTables};
use auto_shortcut::shortcut::{
    icon_candidates, install_script, link_directory, name_source, plan_program_shortcut,
    runs_install_scripts, summary, wants_shortcut, NameSource,
};
use auto_shortcut::utils::EnvVar;
use auto_shortcut::value::Value;
use auto_shortcut::vars::{
    format_size, process_template_at, render_var, sanitize_description, ProgramFacts, SizeUnit,
};

fn facts() -> ProgramFacts {
    ProgramFacts {
        description: Some("  My\tTool \u{0007} 2 ".to_string()),
        product_name: Some("https://example.com".to_string()),
        company_name: Some("ACME".to_string()),
        original_filename: None,
        copyright: None,
        file_version: Some("1.2.3.4".to_string()),
        machine: Some(0x8664),
        size: Some(1_572_864),
        create_time: Some("2024-01-02 03:04:05".to_string()),
        modified_time: None,
        accessed_time: None,
    }
}

fn text(v: Vec<char>) -> String {
    v.into_iter().collect()
}

#[test]
fn descriptions_are_sanitized() {
    assert_eq!(sanitize_description("  My\tTool \u{0007} 2 "), Some("My Tool 2".to_string()));
    assert_eq!(sanitize_description("a \r\n  b"), Some("a b".to_string()));
    assert_eq!(sanitize_description(""), None);
    assert_eq!(sanitize_description(" \t "), None);
    assert_eq!(sanitize_description("___"), None);
    assert_eq!(sanitize_description("_a_"), Some("_a_".to_string()));
    assert_eq!(sanitize_description("HTTP://x.y"), None);
    assert_eq!(sanitize_description("https://x.y/z"), None);
    assert_eq!(sanitize_description("www.example.com"), None);
    assert_eq!(sanitize_description("web www.example.com"), Some("web www.example.com".to_string()));
}

#[test]
fn sizes_are_written_with_decimals() {
    assert_eq!(text(format_size(1_572_864, SizeUnit::Kilobytes)), "1536.0");
    assert_eq!(text(format_size(1_572_864, SizeUnit::Megabytes)), "1.50");
    assert_eq!(text(format_size(1_572_864, SizeUnit::Gigabytes)), "0.001");
    assert_eq!(text(format_size(1_572_864, SizeUnit::Terabytes)), "0.0000");
    assert_eq!(text(format_size(0, SizeUnit::Kilobytes)), "0.0");
    // 1.0625 is written as 1.1, 0.25 and 0.75 go to the even neighbour.
    assert_eq!(text(format_size(1088, SizeUnit::Kilobytes)), "1.1");
    assert_eq!(text(format_size(256, SizeUnit::Kilobytes)), "0.2");
    assert_eq!(text(format_size(768, SizeUnit::Kilobytes)), "0.8");
    assert_eq!(text(format_size(1024 * 99 + 1023, SizeUnit::Kilobytes)), "100.0");
    assert_eq!(text(format_size(u64::MAX, SizeUnit::Megabytes)), "17592186044416.00");
    assert_eq!(text(format_size(5 * 1_048_576 + 52_429, SizeUnit::Megabytes)), "5.05");
}

#[test]
fn variables_of_a_program() {
    let context = render_var("C:\\Apps\\My Tool\\tool.exe", &facts());
    let members = match &context {
        Value::Object(members) => members,
        _ => panic!("the context is an object"),
    };
    let listed: Vec<(String, String)> = members
        .iter()
        .map(|m| match &m.value {
            Value::Text(t) => (m.key.clone(), t.clone()),
            _ => panic!("every variable is a text"),
        })
        .collect();
    let expected = [
        ("exec", "C:\\Apps\\My Tool\\tool.exe"),
        ("stem", "tool"),
        ("ext", "exe"),
        ("parent", "C:\\Apps\\My Tool"),
        ("parent_name", "My Tool"),
        ("desc", "My Tool 2"),
        ("desc_raw", "  My\tTool \u{0007} 2 "),
        ("product", ""),
        ("product_raw", "https://example.com"),
        ("company", "ACME"),
        ("orig_filename", ""),
        ("copyright", ""),
        ("version", "1.2.3.4"),
        ("arch", "x64"),
        ("arch_num", "64"),
        ("size", "1572864"),
        ("size_kb", "1536.0"),
        ("size_mb", "1.50"),
        ("size_gb", "0.001"),
        ("size_tb", "0.0000"),
        ("desc_or_stem", "My Tool 2"),
        ("create_time", "2024-01-02 03:04:05"),
        ("modified_time", ""),
        ("accessed_time", ""),
    ];
    assert_eq!(listed.len(), expected.len());
    for (have, want) in listed.iter().zip(expected.iter()) {
        assert_eq!((have.0.as_str(), have.1.as_str()), *want);
    }
}

#[test]
fn templates_for_a_program() {
    let f = facts();
    let path = "C:\\Apps\\My Tool\\tool.exe";
    let default_name = "{product ? product : {desc ? desc : {orig_filename ? orig_filename : stem}}}";
    assert_eq!(process_template_at(path, &f, default_name, 0).unwrap(), "My Tool 2");
    assert_eq!(process_template_at(path, &f, "{stem}-{arch}.{ext}", 0).unwrap(), "tool-x64.exe");
    assert_eq!(
        process_template_at(path, &f, "{create_time | date:'%d.%m.%Y %H:%M'}", -7200).unwrap(),
        "02.01.2024 01:04"
    );
    assert_eq!(process_template_at(path, &f, "{size_mb} MB of {company | lower}", 0).unwrap(), "1.50 MB of acme");
    let bare = ProgramFacts {
        description: None,
        product_name: None,
        company_name: None,
        original_filename: None,
        copyright: None,
        file_version: None,
        machine: None,
        size: None,
        create_time: None,
        modified_time: None,
        accessed_time: None,
    };
    assert_eq!(process_template_at("noext", &bare, default_name, 0).unwrap(), "noext");
    assert_eq!(process_template_at("a\\b.c", &bare, "[{ext}|{parent}|{size}|{arch}]", 0).unwrap(), "[c|a||]");
    assert!(process_template_at(path, &f, "{a < b < c ? 1 : 2}", 0).is_err());
}

#[test]
fn shortcuts_are_planned() {
    let program = "C:\\Apps\\Tool\\tool.exe";
    let none: Option<Lnk> = None;
    let icons = icon_candidates(program, &none, None, &[]);
    assert_eq!(icons.configured, None);
    assert_eq!(icons.beside, "C:\\Apps\\Tool\\tool.ico");

    let plan = plan_program_shortcut(program, "D:\\Links", &none, Some("  A Tool  "), &icons, false, true);
    assert_eq!(plan.link_file, "D:\\Links\\A Tool.lnk");
    assert_eq!(plan.arguments, None);
    assert_eq!(plan.icon, Some("C:\\Apps\\Tool\\tool.ico".to_string()));
    assert_eq!(plan.missing_icon, None);

    let plan = plan_program_shortcut(program, "D:\\Links", &none, Some(" __ "), &icons, false, false);
    assert_eq!(plan.link_file, "D:\\Links\\tool.lnk");
    assert_eq!(plan.icon, None);
    let plan = plan_program_shortcut(program, "D:\\Links\\", &none, None, &icons, false, false);
    assert_eq!(plan.link_file, "D:\\Links\\tool.lnk");

    let vars = vec![EnvVar { key: "ICONS".to_string(), value: "e:\\icons".to_string() }];
    let entry = Some(Lnk {
        name: Some("Named".to_string()),
        icon: Some("%Icons%\\T.ico".to_string()),
        args: Some("--fast".to_string()),
        dest: Some("E:\\Menu".to_string()),
        ..Lnk::new("tool.exe".to_string())
    });
    let icons = icon_candidates(program, &entry, None, &vars);
    assert_eq!(icons.configured, Some("e:\\icons\\t.ico".to_string()));
    let plan = plan_program_shortcut(program, "D:\\Links", &entry, Some("ignored"), &icons, true, true);
    assert_eq!(plan.link_file, "E:\\Menu\\Named.lnk");
    assert_eq!(plan.arguments, Some("--fast".to_string()));
    assert_eq!(plan.icon, Some("e:\\icons\\t.ico".to_string()));
    assert_eq!(plan.missing_icon, None);
    let plan = plan_program_shortcut(program, "D:\\Links", &entry, None, &icons, false, true);
    assert_eq!(plan.icon, Some("C:\\Apps\\Tool\\tool.ico".to_string()));
    assert_eq!(plan.missing_icon, Some("e:\\icons\\t.ico".to_string()));

    let unnamed = Some(Lnk::new("tool.exe".to_string()));
    let icons = icon_candidates(program, &unnamed, None, &[]);
    let plan = plan_program_shortcut(program, "D:\\Links", &unnamed, Some("A Tool"), &icons, false, false);
    assert_eq!(plan.link_file, "D:\\Links\\tool.lnk");
}

#[test]
fn shortcut_directories() {
    assert_eq!(link_directory("D:\\Links", "C:\\Apps\\My.Tool\\tool.exe", false), "D:\\Links");
    assert_eq!(link_directory("D:\\Links", "C:\\Apps\\My.Tool\\tool.exe", true), "D:\\Links\\My");
    assert_eq!(link_directory("D:\\Links", "C:\\Apps\\Tool\\tool.exe", true), "D:\\Links\\Tool");
}

#[test]
fn install_scripts() {
    let none: Vec<String> = vec![];
    assert!(install_script("Setup.cmd", &none));
    assert!(install_script("my-INSTALL.BAT", &none));
    assert!(install_script("setup.bat.bak", &none));
    assert!(!install_script("setup.exe", &none));
    assert!(!install_script("readme.txt", &none));
    let rules = vec!["*.REG".to_string(), "prepare*".to_string()];
    assert!(install_script("Settings.reg", &rules));
    assert!(install_script("Prepare-all.ps1", &rules));
    assert!(install_script("install.cmd", &rules));
    assert!(!install_script("un-prepare.ps1", &rules));
}

#[test]
fn runs_are_summed_up() {
    assert_eq!(
        summary(0, 3, "0.25"),
        (
            ConsoleType::Error,
            "No shortcuts created, Time: 0.25s, Subfolders scanned: 3, Shortcuts created: 0."
                .to_string()
        )
    );
    assert_eq!(
        summary(12, 40, "1.50"),
        (
            ConsoleType::Success,
            "Operation completed, Time: 1.50s, Subfolders scanned: 40, Shortcuts created: 12."
                .to_string()
        )
    );
}

fn line(exe: &str, value: Option<&str>) -> Mapping {
    Mapping { exec_path: exe.to_string(), value: value.map(|v| v.to_string()) }
}

fn tables() -> MappingTables {
    MappingTables {
        name: vec![],
        work_dir: vec![],
        args: vec![],
        icon: vec![],
        dest: vec![],
        window_state: vec![],
        comment: vec![],
    }
}

#[test]
fn mapping_tables_are_merged() {
    let listed = || {
        vec![
            Lnk { name: Some("Zed".to_string()), ..Lnk::new("z.exe".to_string()) },
            Lnk { args: Some("-a".to_string()), ..Lnk::new("b.exe".to_string()) },
            Lnk { name: Some("Zed again".to_string()), ..Lnk::new("z.exe".to_string()) },
        ]
    };
    // Without a line in the tables of names, arguments, icons and
    // destinations the list stays as it is.
    let mut t = tables();
    t.comment = vec![line("b.exe", Some("note"))];
    let same = merge_mappings(listed(), &t);
    let shown: Vec<&str> = same.iter().map(|l| l.exec_path.as_str()).collect();
    assert_eq!(shown, vec!["z.exe", "b.exe", "z.exe"]);
    assert_eq!(same[1].comment, None);

    let mut t = tables();
    t.name = vec![line("b.exe", Some("Bee")), line("a.exe", Some("Ay")), line("B.exe", None)];
    t.work_dir = vec![line("a.exe", Some("C:\\work"))];
    t.args = vec![line("z.exe", Some("-z"))];
    t.icon = vec![line("c.exe", Some("c.ico"))];
    t.dest = vec![line("a.exe", Some("%Desktop%"))];
    t.window_state = vec![line("a.exe", Some("maximized"))];
    t.comment = vec![line("b.exe", Some("note")), line("b.exe", Some("second note"))];
    let merged = merge_mappings(listed(), &t);
    let shown: Vec<&str> = merged.iter().map(|l| l.exec_path.as_str()).collect();
    assert_eq!(shown, vec!["B.exe", "a.exe", "b.exe", "c.exe", "z.exe"]);
    assert_eq!(merged[0].name, None);
    assert_eq!(merged[1].name, Some("Ay".to_string()));
    assert_eq!(merged[1].work_dir, Some("C:\\work".to_string()));
    assert_eq!(merged[1].dest, Some("%Desktop%".to_string()));
    assert_eq!(merged[1].window_state, Some("maximized".to_string()));
    assert_eq!(merged[1].args, None);
    assert_eq!(merged[2].name, Some("Bee".to_string()));
    assert_eq!(merged[2].args, Some("-a".to_string()));
    assert_eq!(merged[2].comment, Some("second note".to_string()));
    assert_eq!(merged[3].icon, Some("c.ico".to_string()));
    assert_eq!(merged[3].name, None);
    assert_eq!(merged[4].name, Some("Zed again".to_string()));
    assert_eq!(merged[4].args, Some("-z".to_string()));
}

fn config() -> ConfigInfo {
    ConfigInfo {
        template: Template::default_template(),
        enable_escape: false,
        use_filename: false,
        only_match: false,
        score_ratio: None,
        ignore: vec![],
        install: false,
        install_parallel: false,
        scripts: vec![],
        shortcut: vec![],
        search_depth: 0,
    }
}

#[test]
fn runs_follow_flags_and_configuration() {
    let none: Option<ConfigInfo> = None;
    assert_eq!(name_source(false, &none), NameSource::Description);
    assert_eq!(name_source(true, &none), NameSource::FileName);
    let with_template = Some(config());
    assert_eq!(
        name_source(false, &with_template),
        NameSource::Template(
            "{product ? product : {desc ? desc : {orig_filename ? orig_filename : stem}}}"
                .to_string()
        )
    );
    assert_eq!(name_source(true, &with_template), NameSource::FileName);
    let by_file = Some(ConfigInfo { use_filename: true, ..config() });
    assert_eq!(name_source(false, &by_file), NameSource::FileName);
    let no_template = Some(ConfigInfo { template: None, ..config() });
    assert_eq!(name_source(false, &no_template), NameSource::Description);

    let entry = Some(Lnk::new("a.exe".to_string()));
    let no_entry: Option<Lnk> = None;
    assert!(wants_shortcut(false, &none, &no_entry));
    assert!(!wants_shortcut(true, &none, &no_entry));
    assert!(wants_shortcut(true, &none, &entry));
    let only = Some(ConfigInfo { only_match: true, ..config() });
    assert!(!wants_shortcut(false, &only, &no_entry));
    assert!(wants_shortcut(false, &only, &entry));

    assert!(!runs_install_scripts(false, &none));
    assert!(runs_install_scripts(true, &none));
    let install = Some(ConfigInfo { install: true, ..config() });
    assert!(runs_install_scripts(false, &install));
    assert!(!runs_install_scripts(false, &with_template));
}
