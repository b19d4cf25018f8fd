use ic_sql_migrate::discovery::{
    collect_migration_files, collect_module_files, collect_seed_files, generate_migrations_code,
    generate_module_list_code, generate_seeds_code,
};
use ic_sql_migrate::ledger::Ledger;
use ic_sql_migrate::{Builder, FileEntry};

fn entry(path: &str, stem: Option<&str>, extension: Option<&str>) -> FileEntry {
    FileEntry {
        path: path.to_string(),
        stem: stem.map(|s| s.to_string()),
        extension: extension.map(|s| s.to_string()),
        is_file: true,
    }
}

fn pair(a: &str, b: &str) -> (String, String) {
    (a.to_string(), b.to_string())
}

#[test]
fn migration_files_are_sql_files_sorted_by_id() {
    let entries = vec![
        entry("/m/010_late.sql", Some("010_late"), Some("sql")),
        entry("/m/README.md", Some("README"), Some("md")),
        entry("/m/001_init.sql", Some("001_init"), Some("sql")),
        entry("/m/002_b.sql", Some("002_b"), Some("sql")),
        entry("/m/noext", Some("noext"), None),
    ];
    assert_eq!(
        collect_migration_files(&entries),
        vec![
            pair("001_init", "/m/001_init.sql"),
            pair("002_b", "/m/002_b.sql"),
            pair("010_late", "/m/010_late.sql")
        ]
    );
}

#[test]
fn seed_files_skip_the_module_index() {
    let entries = vec![
        entry("/s/seed_002.rs", Some("seed_002"), Some("rs")),
        entry("/s/mod.rs", Some("mod"), Some("rs")),
        entry("/s/seed_001.rs", Some("seed_001"), Some("rs")),
        entry("/s/notes.txt", Some("notes"), Some("txt")),
    ];
    assert_eq!(
        collect_seed_files(&entries),
        vec![pair("seed_001", "/s/seed_001.rs"), pair("seed_002", "/s/seed_002.rs")]
    );
}

#[test]
fn empty_directory_gives_empty_lists() {
    assert!(collect_migration_files(&vec![]).is_empty());
    assert!(collect_seed_files(&vec![]).is_empty());
    assert_eq!(generate_migrations_code(&[]), "&[\n]\n");
}

#[test]
fn ordering_is_by_characters() {
    let entries = vec![
        entry("/m/b.sql", Some("b"), Some("sql")),
        entry("/m/B.sql", Some("B"), Some("sql")),
        entry("/m/ab.sql", Some("ab"), Some("sql")),
        entry("/m/a.sql", Some("a"), Some("sql")),
    ];
    let ids: Vec<String> = collect_migration_files(&entries).into_iter().map(|p| p.0).collect();
    assert_eq!(ids, vec!["B", "a", "ab", "b"]);
}

#[test]
fn migrations_code_embeds_each_file() {
    let code = generate_migrations_code(&[pair("001_init", "/m/001_init.sql"), pair("002_b", "/m/002_b.sql")]);
    assert_eq!(
        code,
        "&[\n    ic_sql_migrate::Migration { id: \"001_init\", sql: include_str!(\"/m/001_init.sql\") },\n    ic_sql_migrate::Migration { id: \"002_b\", sql: include_str!(\"/m/002_b.sql\") },\n]\n"
    );
}

#[test]
fn seeds_code_declares_modules_and_list() {
    let code = generate_seeds_code(&[pair("seed_001", "/s/seed_001.rs")]);
    assert_eq!(
        code,
        "// This file is auto-generated by ic-sql-migrate\n// Do not edit manually\n\npub mod seed_001;\n\nuse ic_sql_migrate::{Seed, SqliteSeedFn};\n\npub static SEEDS: &[Seed<SqliteSeedFn>] = &[\n    Seed { id: \"seed_001\", seed_fn: seed_001::seed },\n];\n"
    );
}

#[test]
fn builder_defaults_and_overrides() {
    let b = Builder::new();
    assert_eq!(b.migrations_dir(), "migrations");
    assert_eq!(b.seeds_dir(), "src/seeds");
    let b = Builder::default().with_migrations_dir("db/migrations").with_seeds_dir("src/db/seeds");
    assert_eq!(b.migrations_dir(), "db/migrations");
    assert_eq!(b.seeds_dir(), "src/db/seeds");
}

#[test]
fn ledger_tables_have_the_fixed_schema() {
    assert_eq!(
        Ledger::Migrations.create_sql(),
        "CREATE TABLE IF NOT EXISTS _migrations (id TEXT PRIMARY KEY, applied_at TEXT NOT NULL DEFAULT CURRENT_TIMESTAMP)"
    );
    assert_eq!(Ledger::Seeds.select_sql(), "SELECT id FROM _seeds");
    assert_eq!(Ledger::Seeds.insert_sql(), "INSERT INTO _seeds(id) VALUES (?)");
}

#[test]
fn module_files_are_m_rust_files_sorted_by_name() {
    let mut dir_entry = entry("/b/m002_sub", Some("m002_sub"), Some("rs"));
    dir_entry.is_file = false;
    let entries = vec![
        entry("/b/m001_seed.rs", Some("m001_seed"), Some("rs")),
        entry("/b/helper.rs", Some("helper"), Some("rs")),
        dir_entry,
        entry("/b/m000_initial.rs", Some("m000_initial"), Some("rs")),
        entry("/b/m003.sql", Some("m003"), Some("sql")),
    ];
    assert_eq!(
        collect_module_files(&entries),
        vec![pair("m000_initial.rs", "m000_initial"), pair("m001_seed.rs", "m001_seed")]
    );
}

#[test]
fn module_list_code_declares_and_lists_each_module() {
    let code = generate_module_list_code("/b", &[pair("m000_initial.rs", "m000_initial"), pair("m001_seed.rs", "m001_seed")]);
    assert_eq!(
        code,
        "#[path = \"/b/m000_initial.rs\"] mod m000_initial;\n#[path = \"/b/m001_seed.rs\"] mod m001_seed;\n\nuse migrations::Migration;\nstatic MIGRATIONS: [&'static dyn Migration; 2] = [\n    &m000_initial::M as &dyn Migration,\n    &m001_seed::M as &dyn Migration,\n];\n\npub fn list_migrations() -> &'static [&'static dyn Migration] {\n    &MIGRATIONS\n}\n"
    );
}

#[test]
fn module_list_counts_in_decimal() {
    let files: Vec<(String, String)> = (0..12).map(|i| pair(&format!("m{i:03}.rs"), &format!("m{i:03}"))).collect();
    let code = generate_module_list_code("/b", &files);
    assert!(code.contains("[&'static dyn Migration; 12] = [\n"));
    let empty = generate_module_list_code("/b", &[]);
    assert!(empty.contains("[&'static dyn Migration; 0] = [\n];"));
}
