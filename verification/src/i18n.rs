//! The languages of the interface, and its texts in them.

use vstd::prelude::*;

use crate::text::{same_text, texts};

verus! {

/// A language of the interface.
#[derive(Debug, Clone, Copy, PartialEq, Eq, Structural)]
pub enum Language {
    English,
    ChineseSimplified,
}

/// The texts of the interface, by their purpose.
#[derive(Debug, Clone, Copy, PartialEq, Eq, Structural)]
pub enum Text {
    AddServerHint,
    AutoRestart,
    AutoRestartField,
    Cancelled,
    CompletionAmbiguousHint,
    Config,
    ConsoleEmpty,
    ConsoleFollow,
    ConsolePaused,
    CustomJarHint,
    Deleted,
    DetailPanelHidden,
    Details,
    Directory,
    DirectoryUpdated,
    Disabled,
    EditDirectory,
    EditJar,
    EditJavaArgs,
    EditJavaPath,
    EditServerArgs,
    EditStartupCommand,
    Enabled,
    FooterHints,
    Help,
    HelpHint,
    InputEditDirectory,
    InputEditJar,
    InputEditJavaArgs,
    InputEditJavaPath,
    InputEditServerArgs,
    InputNewDirectory,
    InputNewName,
    InputSendCommand,
    JarUpdated,
    JavaArgsUpdated,
    JavaPath,
    LanguagePromptBody,
    LanguagePromptHint,
    LanguagePromptTitle,
    LanguageSaved,
    Memory,
    NoServers,
    OpRestarting,
    OpStarting,
    OpStopping,
    Running,
    SelectedServer,
    SendCommand,
    SentCommand,
    ServerAdded,
    ServerArgsUpdated,
    ServerDirPrompt,
    ServerLog,
    ServerNamePrompt,
    Servers,
    Shortcuts,
    Stale,
    StartupCommand,
    StartupCommandNormalized,
    StartupCommandPrompt,
    StartupCommandUpdated,
    StoppedState,
}

impl Text {
    /// The place of the text in a table.
    pub open spec fn place(self) -> nat {
        match self {
            Text::AddServerHint => 0,
            Text::AutoRestart => 1,
            Text::AutoRestartField => 2,
            Text::Cancelled => 3,
            Text::CompletionAmbiguousHint => 4,
            Text::Config => 5,
            Text::ConsoleEmpty => 6,
            Text::ConsoleFollow => 7,
            Text::ConsolePaused => 8,
            Text::CustomJarHint => 9,
            Text::Deleted => 10,
            Text::DetailPanelHidden => 11,
            Text::Details => 12,
            Text::Directory => 13,
            Text::DirectoryUpdated => 14,
            Text::Disabled => 15,
            Text::EditDirectory => 16,
            Text::EditJar => 17,
            Text::EditJavaArgs => 18,
            Text::EditJavaPath => 19,
            Text::EditServerArgs => 20,
            Text::EditStartupCommand => 21,
            Text::Enabled => 22,
            Text::FooterHints => 23,
            Text::Help => 24,
            Text::HelpHint => 25,
            Text::InputEditDirectory => 26,
            Text::InputEditJar => 27,
            Text::InputEditJavaArgs => 28,
            Text::InputEditJavaPath => 29,
            Text::InputEditServerArgs => 30,
            Text::InputNewDirectory => 31,
            Text::InputNewName => 32,
            Text::InputSendCommand => 33,
            Text::JarUpdated => 34,
            Text::JavaArgsUpdated => 35,
            Text::JavaPath => 36,
            Text::LanguagePromptBody => 37,
            Text::LanguagePromptHint => 38,
            Text::LanguagePromptTitle => 39,
            Text::LanguageSaved => 40,
            Text::Memory => 41,
            Text::NoServers => 42,
            Text::OpRestarting => 43,
            Text::OpStarting => 44,
            Text::OpStopping => 45,
            Text::Running => 46,
            Text::SelectedServer => 47,
            Text::SendCommand => 48,
            Text::SentCommand => 49,
            Text::ServerAdded => 50,
            Text::ServerArgsUpdated => 51,
            Text::ServerDirPrompt => 52,
            Text::ServerLog => 53,
            Text::ServerNamePrompt => 54,
            Text::Servers => 55,
            Text::Shortcuts => 56,
            Text::Stale => 57,
            Text::StartupCommand => 58,
            Text::StartupCommandNormalized => 59,
            Text::StartupCommandPrompt => 60,
            Text::StartupCommandUpdated => 61,
            Text::StoppedState => 62,
        }
    }

    /// The place of the text in a table.
    pub fn index(self) -> (r: usize)
        ensures
            r == self.place(),
    {
        match self {
            Text::AddServerHint => 0,
            Text::AutoRestart => 1,
            Text::AutoRestartField => 2,
            Text::Cancelled => 3,
            Text::CompletionAmbiguousHint => 4,
            Text::Config => 5,
            Text::ConsoleEmpty => 6,
            Text::ConsoleFollow => 7,
            Text::ConsolePaused => 8,
            Text::CustomJarHint => 9,
            Text::Deleted => 10,
            Text::DetailPanelHidden => 11,
            Text::Details => 12,
            Text::Directory => 13,
            Text::DirectoryUpdated => 14,
            Text::Disabled => 15,
            Text::EditDirectory => 16,
            Text::EditJar => 17,
            Text::EditJavaArgs => 18,
            Text::EditJavaPath => 19,
            Text::EditServerArgs => 20,
            Text::EditStartupCommand => 21,
            Text::Enabled => 22,
            Text::FooterHints => 23,
            Text::Help => 24,
            Text::HelpHint => 25,
            Text::InputEditDirectory => 26,
            Text::InputEditJar => 27,
            Text::InputEditJavaArgs => 28,
            Text::InputEditJavaPath => 29,
            Text::InputEditServerArgs => 30,
            Text::InputNewDirectory => 31,
            Text::InputNewName => 32,
            Text::InputSendCommand => 33,
            Text::JarUpdated => 34,
            Text::JavaArgsUpdated => 35,
            Text::JavaPath => 36,
            Text::LanguagePromptBody => 37,
            Text::LanguagePromptHint => 38,
            Text::LanguagePromptTitle => 39,
            Text::LanguageSaved => 40,
            Text::Memory => 41,
            Text::NoServers => 42,
            Text::OpRestarting => 43,
            Text::OpStarting => 44,
            Text::OpStopping => 45,
            Text::Running => 46,
            Text::SelectedServer => 47,
            Text::SendCommand => 48,
            Text::SentCommand => 49,
            Text::ServerAdded => 50,
            Text::ServerArgsUpdated => 51,
            Text::ServerDirPrompt => 52,
            Text::ServerLog => 53,
            Text::ServerNamePrompt => 54,
            Text::Servers => 55,
            Text::Shortcuts => 56,
            Text::Stale => 57,
            Text::StartupCommand => 58,
            Text::StartupCommandNormalized => 59,
            Text::StartupCommandPrompt => 60,
            Text::StartupCommandUpdated => 61,
            Text::StoppedState => 62,
        }
    }
}

/// The texts of one language, with the language's code and own name.
#[derive(Debug)]
pub struct TextTable {
    pub code: String,
    pub display_name: String,
    pub entries: Vec<String>,
}

#[verifier::ext_equal]
pub struct TableView {
    pub code: Seq<char>,
    pub display_name: Seq<char>,
    pub entries: Seq<Seq<char>>,
}

impl View for TextTable {
    type V = TableView;

    open spec fn view(&self) -> TableView {
        TableView {
            code: self.code@,
            display_name: self.display_name@,
            entries: texts(self.entries@),
        }
    }
}

/// The texts of all languages.
#[derive(Debug)]
pub struct Catalog {
    pub english: TextTable,
    pub chinese: TextTable,
}

#[verifier::ext_equal]
pub struct CatalogView {
    pub english: TableView,
    pub chinese: TableView,
}

impl View for Catalog {
    type V = CatalogView;

    open spec fn view(&self) -> CatalogView {
        CatalogView { english: self.english@, chinese: self.chinese@ }
    }
}

impl CatalogView {
    pub open spec fn table(self, language: Language) -> TableView {
        match language {
            Language::English => self.english,
            Language::ChineseSimplified => self.chinese,
        }
    }

    /// A text in a language. One that the table lacks is empty.
    pub open spec fn text(self, language: Language, key: Text) -> Seq<char> {
        let entries = self.table(language).entries;
        if key.place() < entries.len() {
            entries[key.place() as int]
        } else {
            Seq::empty()
        }
    }

    /// The language with the code.
    pub open spec fn language(self, code: Seq<char>) -> Option<Language> {
        if code == self.english.code {
            Some(Language::English)
        } else if code == self.chinese.code {
            Some(Language::ChineseSimplified)
        } else {
            None
        }
    }
}

impl Catalog {
    fn table(&self, language: Language) -> (r: &TextTable)
        ensures
            r@ == self@.table(language),
    {
        match language {
            Language::English => &self.english,
            Language::ChineseSimplified => &self.chinese,
        }
    }

    /// A text in a language.
    pub fn text(&self, language: Language, key: Text) -> (r: &str)
        ensures
            r@ == self@.text(language, key),
    {
        let table = self.table(language);
        let at: usize = key.index();
        if at < table.entries.len() {
            assert(table@.entries[at as int] == table.entries@[at as int]@);
            table.entries[at].as_str()
        } else {
            proof {
                reveal_strlit("");
                assert(""@ =~= Seq::<char>::empty());
            }
            ""
        }
    }

    /// The code of a language.
    pub fn code(&self, language: Language) -> (r: &str)
        ensures
            r@ == self@.table(language).code,
    {
        self.table(language).code.as_str()
    }

    /// A language's own name.
    pub fn display_name(&self, language: Language) -> (r: &str)
        ensures
            r@ == self@.table(language).display_name,
    {
        self.table(language).display_name.as_str()
    }

    /// The language with the code.
    pub fn from_code(&self, code: &str) -> (r: Option<Language>)
        ensures
            r == self@.language(code@),
    {
        if same_text(code, self.english.code.as_str()) {
            Some(Language::English)
        } else if same_text(code, self.chinese.code.as_str()) {
            Some(Language::ChineseSimplified)
        } else {
            None
        }
    }
}

/// A language is found by its own code, where the codes differ.
pub proof fn code_names_its_language(catalog: CatalogView, language: Language)
    requires
        catalog.english.code != catalog.chinese.code,
    ensures
        catalog.language(catalog.table(language).code) == Some(language),
{
}

/// Each text has a place of its own among the sixty-three, and reads what stands
/// there in the table of the language.
pub proof fn texts_have_places_of_their_own(catalog: CatalogView, language: Language, a: Text, b: Text)
    ensures
        a.place() < 63,
        a.place() == b.place() ==> a == b,
        language == Language::English && catalog.english.entries.len() == 63 ==> catalog.text(
            language,
            a,
        ) == catalog.english.entries[a.place() as int],
        language == Language::ChineseSimplified && catalog.chinese.entries.len() == 63
            ==> catalog.text(language, a) == catalog.chinese.entries[a.place() as int],
{
}

} // verus!
