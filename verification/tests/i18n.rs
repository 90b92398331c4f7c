use leveldbcat::config::AppLanguage;
use leveldbcat::i18n::I18n;

#[test]
fn loaded_entries_messages() {
    assert_eq!(
        I18n::new(AppLanguage::English).loaded_entries(42, "/tmp/db"),
        "Loaded 42 entries from /tmp/db"
    );
    assert_eq!(
        I18n::new(AppLanguage::Chinese).loaded_entries(0, "C:\\db"),
        "已从 C:\\db 加载 0 条记录"
    );
    assert_eq!(
        I18n::new(AppLanguage::TraditionalChinese).loaded_entries(7, "x"),
        "已從 x 載入 7 筆記錄"
    );
    assert_eq!(
        I18n::new(AppLanguage::Japanese).loaded_entries(1000, "d"),
        "d から 1000 件のエントリを読み込みました"
    );
}

#[test]
fn path_messages() {
    let en = I18n::new(AppLanguage::English);
    assert_eq!(en.refreshed("p"), "Refreshed p");
    assert_eq!(en.directory_missing("p"), "Directory does not exist: p");
    assert_eq!(en.export_success("a.csv"), "Exported CSV to a.csv");
    let ja = I18n::new(AppLanguage::Japanese);
    assert_eq!(ja.refreshed("p"), "p を更新しました");
    assert_eq!(ja.export_success("a.csv"), "CSV を a.csv にエクスポートしました");
    assert_eq!(I18n::new(AppLanguage::Chinese).directory_missing("p"), "目录不存在: p");
}

#[test]
fn error_messages() {
    assert_eq!(
        I18n::new(AppLanguage::English).config_save_failed("disk full"),
        "Failed to save config: disk full"
    );
    assert_eq!(
        I18n::new(AppLanguage::TraditionalChinese).export_failed("e"),
        "CSV 匯出失敗: e"
    );
    assert_eq!(
        I18n::new(AppLanguage::Japanese).no_entries_to_export(),
        "エクスポートできる解析済みエントリがありません。"
    );
}

#[test]
fn counts_and_placeholders() {
    assert_eq!(I18n::new(AppLanguage::English).parsed_entries_count(3), "3 entries");
    assert_eq!(I18n::new(AppLanguage::Chinese).parsed_entries_count(12), "12 条记录");
    assert_eq!(
        I18n::new(AppLanguage::English).parsed_entries_count(usize::MAX),
        format!("{} entries", usize::MAX)
    );
    assert_eq!(
        I18n::new(AppLanguage::English).no_loaded_database(),
        "No LevelDB folder parsed yet"
    );
}

#[test]
fn language_names_and_about() {
    let i18n = I18n::new(AppLanguage::Japanese);
    assert_eq!(i18n.language(), AppLanguage::Japanese);
    assert_eq!(i18n.language_name(AppLanguage::TraditionalChinese), "繁體中文");
    assert_eq!(i18n.language_name(AppLanguage::English), "English");
    assert!(I18n::new(AppLanguage::English).about_text().starts_with("LeveldbCat\nVersion 0.1.1\n"));
    assert!(i18n.about_text().ends_with("License: MIT"));
}
