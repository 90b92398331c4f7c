//! Messages of the interface in English, Simplified Chinese, Traditional
//! Chinese and Japanese. Paths are passed as the text that they display as.

use vstd::prelude::*;
use crate::config::AppLanguage;
use crate::text::{decimal, push_decimal, push_str};

verus! {

/// `a`, `b` and `c` joined.
fn join3(a: &str, b: &str, c: &str) -> (s: String)
    ensures
        s@ == a@ + b@ + c@,
{
    let mut s = String::new();
    push_str(&mut s, a);
    push_str(&mut s, b);
    push_str(&mut s, c);
    proof {
        assert(s@ =~= a@ + b@ + c@);
    }
    s
}

/// `a`, the decimal digits of `n`, and `b` joined.
fn join_count(a: &str, n: usize, b: &str) -> (s: String)
    ensures
        s@ == a@ + decimal(n as nat) + b@,
{
    let mut s = String::new();
    push_str(&mut s, a);
    push_decimal(&mut s, n);
    push_str(&mut s, b);
    proof {
        assert(s@ =~= a@ + decimal(n as nat) + b@);
    }
    s
}

/// The message table for one language.
#[derive(Clone, Copy)]
pub struct I18n {
    language: AppLanguage,
}

impl I18n {
    pub closed spec fn spec_language(self) -> AppLanguage {
        self.language
    }

    pub fn new(language: AppLanguage) -> (i18n: Self)
        ensures
            i18n.spec_language() == language,
    {
        Self { language }
    }

    pub fn language(self) -> (language: AppLanguage)
        ensures
            language == self.spec_language(),
    {
        self.language
    }

    /// The name of a language, written in that language.
    pub fn language_name(self, language: AppLanguage) -> (name: &'static str)
        ensures
            name@ == match language {
                AppLanguage::English => "English"@,
                AppLanguage::Chinese => "简体中文"@,
                AppLanguage::TraditionalChinese => "繁體中文"@,
                AppLanguage::Japanese => "日本語"@,
            },
    {
        match language {
            AppLanguage::English => "English",
            AppLanguage::Chinese => "简体中文",
            AppLanguage::TraditionalChinese => "繁體中文",
            AppLanguage::Japanese => "日本語",
        }
    }

    /// The text of the About box.
    pub fn about_text(self) -> (text: &'static str)
        ensures
            text@ == match self.spec_language() {
                AppLanguage::English => "LeveldbCat\nVersion 0.1.1\nPowered by NoahTie@XD Forensics\nThis project is part of the Forensics Cat tool suite.\nFor learning and communication only.\nLicense: MIT"@,
                AppLanguage::Chinese => "LeveldbCat\n版本 0.1.1\nPowered by NoahTie@XD Forensics\n该项目是取证猫工具套组的一部分.\n仅用于学习交流.\n许可条款: MIT"@,
                AppLanguage::TraditionalChinese => "LeveldbCat\n版本 0.1.1\nPowered by NoahTie@XD Forensics\n該專案是取證貓工具套組的一部分.\n僅用於學習交流.\n授權條款: MIT"@,
                AppLanguage::Japanese => "LeveldbCat\nバージョン 0.1.1\nPowered by NoahTie@XD Forensics\nこのプロジェクトは取证猫ツールスイートの一部です.\n学習と交流目的のみに使用してください.\nLicense: MIT"@,
            },
    {
        match self.language {
            AppLanguage::English => {
                "LeveldbCat\nVersion 0.1.1\nPowered by NoahTie@XD Forensics\nThis project is part of the Forensics Cat tool suite.\nFor learning and communication only.\nLicense: MIT"
            },
            AppLanguage::Chinese => {
                "LeveldbCat\n版本 0.1.1\nPowered by NoahTie@XD Forensics\n该项目是取证猫工具套组的一部分.\n仅用于学习交流.\n许可条款: MIT"
            },
            AppLanguage::TraditionalChinese => {
                "LeveldbCat\n版本 0.1.1\nPowered by NoahTie@XD Forensics\n該專案是取證貓工具套組的一部分.\n僅用於學習交流.\n授權條款: MIT"
            },
            AppLanguage::Japanese => {
                "LeveldbCat\nバージョン 0.1.1\nPowered by NoahTie@XD Forensics\nこのプロジェクトは取证猫ツールスイートの一部です.\n学習と交流目的のみに使用してください.\nLicense: MIT"
            },
        }
    }

    /// The notice after a database was read: how many entries, from where.
    pub fn loaded_entries(self, count: usize, path: &str) -> (message: String)
        ensures
            message@ == match self.spec_language() {
                AppLanguage::English => "Loaded "@ + decimal(count as nat) + " entries from "@
                    + path@,
                AppLanguage::Chinese => "已从 "@ + path@ + " 加载 "@ + decimal(count as nat)
                    + " 条记录"@,
                AppLanguage::TraditionalChinese => "已從 "@ + path@ + " 載入 "@ + decimal(
                    count as nat,
                ) + " 筆記錄"@,
                AppLanguage::Japanese => path@ + " から "@ + decimal(count as nat)
                    + " 件のエントリを読み込みました"@,
            },
    {
        let mut message = String::new();
        match self.language {
            AppLanguage::English => {
                push_str(&mut message, "Loaded ");
                push_decimal(&mut message, count);
                push_str(&mut message, " entries from ");
                push_str(&mut message, path);
            },
            AppLanguage::Chinese => {
                push_str(&mut message, "已从 ");
                push_str(&mut message, path);
                push_str(&mut message, " 加载 ");
                push_decimal(&mut message, count);
                push_str(&mut message, " 条记录");
            },
            AppLanguage::TraditionalChinese => {
                push_str(&mut message, "已從 ");
                push_str(&mut message, path);
                push_str(&mut message, " 載入 ");
                push_decimal(&mut message, count);
                push_str(&mut message, " 筆記錄");
            },
            AppLanguage::Japanese => {
                push_str(&mut message, path);
                push_str(&mut message, " から ");
                push_decimal(&mut message, count);
                push_str(&mut message, " 件のエントリを読み込みました");
            },
        }
        proof {
            assert(Seq::<char>::empty() + path@ =~= path@);
        }
        message
    }

    /// The notice after a folder listing was read again.
    pub fn refreshed(self, path: &str) -> (message: String)
        ensures
            message@ == match self.spec_language() {
                AppLanguage::English => "Refreshed "@ + path@,
                AppLanguage::Chinese => "已刷新 "@ + path@,
                AppLanguage::TraditionalChinese => "已重新整理 "@ + path@,
                AppLanguage::Japanese => path@ + " を更新しました"@,
            },
    {
        let message = match self.language {
            AppLanguage::English => join3("Refreshed ", path, ""),
            AppLanguage::Chinese => join3("已刷新 ", path, ""),
            AppLanguage::TraditionalChinese => join3("已重新整理 ", path, ""),
            AppLanguage::Japanese => join3("", path, " を更新しました"),
        };
        proof {
            lemma_empty_literal();
        }
        message
    }

    /// The error for a folder that is gone.
    pub fn directory_missing(self, path: &str) -> (message: String)
        ensures
            message@ == match self.spec_language() {
                AppLanguage::English => "Directory does not exist: "@ + path@,
                AppLanguage::Chinese => "目录不存在: "@ + path@,
                AppLanguage::TraditionalChinese => "目錄不存在: "@ + path@,
                AppLanguage::Japanese => "ディレクトリが存在しません: "@ + path@,
            },
    {
        let message = match self.language {
            AppLanguage::English => join3("Directory does not exist: ", path, ""),
            AppLanguage::Chinese => join3("目录不存在: ", path, ""),
            AppLanguage::TraditionalChinese => join3("目錄不存在: ", path, ""),
            AppLanguage::Japanese => join3("ディレクトリが存在しません: ", path, ""),
        };
        proof {
            lemma_empty_literal();
        }
        message
    }

    /// The error when the configuration could not be written.
    pub fn config_save_failed(self, error: &str) -> (message: String)
        ensures
            message@ == match self.spec_language() {
                AppLanguage::English => "Failed to save config: "@ + error@,
                AppLanguage::Chinese => "保存配置失败: "@ + error@,
                AppLanguage::TraditionalChinese => "儲存設定失敗: "@ + error@,
                AppLanguage::Japanese => "設定の保存に失敗しました: "@ + error@,
            },
    {
        let message = match self.language {
            AppLanguage::English => join3("Failed to save config: ", error, ""),
            AppLanguage::Chinese => join3("保存配置失败: ", error, ""),
            AppLanguage::TraditionalChinese => join3("儲存設定失敗: ", error, ""),
            AppLanguage::Japanese => join3("設定の保存に失敗しました: ", error, ""),
        };
        proof {
            lemma_empty_literal();
        }
        message
    }

    /// The error when there is nothing to export.
    pub fn no_entries_to_export(self) -> (message: String)
        ensures
            message@ == match self.spec_language() {
                AppLanguage::English => "No parsed entries available to export."@,
                AppLanguage::Chinese => "当前没有可导出的解析结果。"@,
                AppLanguage::TraditionalChinese => "目前沒有可匯出的解析結果。"@,
                AppLanguage::Japanese => "エクスポートできる解析済みエントリがありません。"@,
            },
    {
        match self.language {
            AppLanguage::English => "No parsed entries available to export.".to_owned(),
            AppLanguage::Chinese => "当前没有可导出的解析结果。".to_owned(),
            AppLanguage::TraditionalChinese => "目前沒有可匯出的解析結果。".to_owned(),
            AppLanguage::Japanese => "エクスポートできる解析済みエントリがありません。".to_owned(),
        }
    }

    /// The notice after an export, naming the file written.
    pub fn export_success(self, path: &str) -> (message: String)
        ensures
            message@ == match self.spec_language() {
                AppLanguage::English => "Exported CSV to "@ + path@,
                AppLanguage::Chinese => "CSV 已导出到 "@ + path@,
                AppLanguage::TraditionalChinese => "CSV 已匯出到 "@ + path@,
                AppLanguage::Japanese => "CSV を "@ + path@ + " にエクスポートしました"@,
            },
    {
        let message = match self.language {
            AppLanguage::English => join3("Exported CSV to ", path, ""),
            AppLanguage::Chinese => join3("CSV 已导出到 ", path, ""),
            AppLanguage::TraditionalChinese => join3("CSV 已匯出到 ", path, ""),
            AppLanguage::Japanese => join3("CSV を ", path, " にエクスポートしました"),
        };
        proof {
            lemma_empty_literal();
        }
        message
    }

    /// The error when an export failed.
    pub fn export_failed(self, error: &str) -> (message: String)
        ensures
            message@ == match self.spec_language() {
                AppLanguage::English => "CSV export failed: "@ + error@,
                AppLanguage::Chinese => "CSV 导出失败: "@ + error@,
                AppLanguage::TraditionalChinese => "CSV 匯出失敗: "@ + error@,
                AppLanguage::Japanese => "CSV のエクスポートに失敗しました: "@ + error@,
            },
    {
        let message = match self.language {
            AppLanguage::English => join3("CSV export failed: ", error, ""),
            AppLanguage::Chinese => join3("CSV 导出失败: ", error, ""),
            AppLanguage::TraditionalChinese => join3("CSV 匯出失敗: ", error, ""),
            AppLanguage::Japanese => join3("CSV のエクスポートに失敗しました: ", error, ""),
        };
        proof {
            lemma_empty_literal();
        }
        message
    }

    /// The number of parsed entries, as shown above the table.
    pub fn parsed_entries_count(self, count: usize) -> (message: String)
        ensures
            message@ == match self.spec_language() {
                AppLanguage::English => decimal(count as nat) + " entries"@,
                AppLanguage::Chinese => decimal(count as nat) + " 条记录"@,
                AppLanguage::TraditionalChinese => decimal(count as nat) + " 筆記錄"@,
                AppLanguage::Japanese => decimal(count as nat) + " 件のエントリ"@,
            },
    {
        let message = match self.language {
            AppLanguage::English => join_count("", count, " entries"),
            AppLanguage::Chinese => join_count("", count, " 条记录"),
            AppLanguage::TraditionalChinese => join_count("", count, " 筆記錄"),
            AppLanguage::Japanese => join_count("", count, " 件のエントリ"),
        };
        proof {
            lemma_empty_literal();
        }
        message
    }

    /// The placeholder when no database has been read.
    pub fn no_loaded_database(self) -> (message: String)
        ensures
            message@ == match self.spec_language() {
                AppLanguage::English => "No LevelDB folder parsed yet"@,
                AppLanguage::Chinese => "尚未解析任何 LevelDB 文件夹"@,
                AppLanguage::TraditionalChinese => "尚未解析任何 LevelDB 資料夾"@,
                AppLanguage::Japanese => "まだ LevelDB フォルダは解析されていません"@,
            },
    {
        match self.language {
            AppLanguage::English => "No LevelDB folder parsed yet".to_owned(),
            AppLanguage::Chinese => "尚未解析任何 LevelDB 文件夹".to_owned(),
            AppLanguage::TraditionalChinese => "尚未解析任何 LevelDB 資料夾".to_owned(),
            AppLanguage::Japanese => "まだ LevelDB フォルダは解析されていません".to_owned(),
        }
    }
}

proof fn lemma_empty_literal()
    ensures
        ""@ == Seq::<char>::empty(),
        forall|s: Seq<char>| #[trigger] (s + ""@) == s && ""@ + s == s,
{
    reveal_strlit("");
    assert forall|s: Seq<char>| #[trigger] (s + ""@) == s && ""@ + s == s by {
        assert(s + ""@ =~= s);
        assert(""@ + s =~= s);
    }
}

} // verus!
