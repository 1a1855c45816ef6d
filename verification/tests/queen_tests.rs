use devscan::listener::parse_tasklist_name;
use devscan::queen::{assemble_cli_status, get_queen_templates, validate_project_name};

#[test]
fn project_names_are_lowercase_dashes_up_to_25() {
    assert!(validate_project_name("my-app"));
    assert!(validate_project_name("a"));
    assert!(validate_project_name("-"));
    assert!(validate_project_name("abcdefghijklmnopqrstuvwxy"));
    assert!(!validate_project_name(""));
    assert!(!validate_project_name("abcdefghijklmnopqrstuvwxyz"));
    assert!(!validate_project_name("MyApp"));
    assert!(!validate_project_name("my_app"));
    assert!(!validate_project_name("my app"));
    assert!(!validate_project_name("app1"));
}

#[test]
fn cli_status_requires_every_command() {
    let s = assemble_cli_status(true, true, true, true, Some("2.1.0".to_string()));
    assert!(s.installed);
    assert_eq!(s.version, Some("2.1.0".to_string()));
    assert!(s.commands_available.queen_rag);
    assert!(s.commands_available.queen_init);

    let s = assemble_cli_status(true, false, true, true, Some("2.1.0".to_string()));
    assert!(!s.installed);
    assert_eq!(s.version, None);
    assert!(!s.commands_available.queen_nextjs);
    assert!(s.commands_available.queen_tauri);
}

#[test]
fn template_catalogue_is_fixed() {
    let t = get_queen_templates();
    assert_eq!(t.len(), 3);
    assert_eq!(t[0].id, "queen-rag");
    assert_eq!(t[0].name, "Queen RAG");
    assert_eq!(t[0].description, "RAG application with vector database and semantic search");
    assert_eq!(t[1].id, "queen-nextjs");
    assert_eq!(t[1].name, "Queen Next.js");
    assert_eq!(t[2].id, "queen-tauri");
    assert_eq!(t[2].description, "Desktop application built with Tauri and Queen");
}

#[test]
fn tasklist_name_reads_first_csv_cell() {
    assert_eq!(
        parse_tasklist_name("\"node.exe\",\"1234\",\"Console\",\"1\",\"50,000 K\"\r\n"),
        Some("node.exe".to_string())
    );
    assert_eq!(parse_tasklist_name("bare-name,rest"), Some("bare-name".to_string()));
    assert_eq!(parse_tasklist_name("\"\"\"\""), Some("".to_string()));
    assert_eq!(parse_tasklist_name(""), None);
}
