//! What can fail in the configuration, the credentials, the database and
//! the cache. Failures of sources have a type of their own.

use vstd::prelude::*;

use crate::text::{concat2, concat3};

verus! {

/// An error of the core. What an outside layer had to say is kept as text.
#[derive(Debug, PartialEq, Eq)]
pub enum CoreError {
    NoHome,
    ConfigRead { path: String, source: String },
    ConfigParse { path: String, source: String },
    /// A browser profile was found, but its cookies cannot be read. Apart
    /// from plain input errors: a missing key store is mended otherwise
    /// than a missing file.
    Cookies { path: String, reason: String },
    /// No browser profile fits.
    NoBrowserProfile,
    Database { path: String, source: String },
    Cache { path: String, source: String },
    Io(String),
}

#[verifier::ext_equal]
pub enum CoreErrorView {
    NoHome,
    ConfigRead { path: Seq<char>, source: Seq<char> },
    ConfigParse { path: Seq<char>, source: Seq<char> },
    Cookies { path: Seq<char>, reason: Seq<char> },
    NoBrowserProfile,
    Database { path: Seq<char>, source: Seq<char> },
    Cache { path: Seq<char>, source: Seq<char> },
    Io(Seq<char>),
}

impl View for CoreError {
    type V = CoreErrorView;

    open spec fn view(&self) -> CoreErrorView {
        match *self {
            CoreError::NoHome => CoreErrorView::NoHome,
            CoreError::ConfigRead { path, source } => CoreErrorView::ConfigRead {
                path: path@,
                source: source@,
            },
            CoreError::ConfigParse { path, source } => CoreErrorView::ConfigParse {
                path: path@,
                source: source@,
            },
            CoreError::Cookies { path, reason } => CoreErrorView::Cookies {
                path: path@,
                reason: reason@,
            },
            CoreError::NoBrowserProfile => CoreErrorView::NoBrowserProfile,
            CoreError::Database { path, source } => CoreErrorView::Database {
                path: path@,
                source: source@,
            },
            CoreError::Cache { path, source } => CoreErrorView::Cache {
                path: path@,
                source: source@,
            },
            CoreError::Io(source) => CoreErrorView::Io(source@),
        }
    }
}

/// The error as it is shown to people.
pub open spec fn core_message(e: CoreErrorView) -> Seq<char> {
    match e {
        CoreErrorView::NoHome => "не нашлись каталоги XDG (HOME не задан?)"@,
        CoreErrorView::ConfigRead { path, source } => "конфиг "@ + path + ": "@ + source,
        CoreErrorView::ConfigParse { path, source } => "конфиг "@ + path
            + " не разбирается: "@ + source,
        CoreErrorView::Cookies { path, reason } => "cookies из "@ + path
            + " не читаются: "@ + reason,
        CoreErrorView::NoBrowserProfile =>
            "профиль браузера не найден; укажите его в config.toml"@,
        CoreErrorView::Database { path, source } => "база "@ + path + ": "@ + source,
        CoreErrorView::Cache { path, source } => "кэш "@ + path + ": "@ + source,
        CoreErrorView::Io(source) => source,
    }
}

impl CoreError {
    /// The error as it is shown to people.
    pub fn to_string(&self) -> (r: String)
        ensures
            r@ == core_message(self@),
    {
        match self {
            CoreError::NoHome => "не нашлись каталоги XDG (HOME не задан?)".to_owned(),
            CoreError::ConfigRead { path, source } => concat2(
                concat3("конфиг ", path.as_str(), ": ").as_str(),
                source.as_str(),
            ),
            CoreError::ConfigParse { path, source } => concat2(
                concat3("конфиг ", path.as_str(), " не разбирается: ").as_str(),
                source.as_str(),
            ),
            CoreError::Cookies { path, reason } => concat2(
                concat3("cookies из ", path.as_str(), " не читаются: ").as_str(),
                reason.as_str(),
            ),
            CoreError::NoBrowserProfile =>
                "профиль браузера не найден; укажите его в config.toml".to_owned(),
            CoreError::Database { path, source } => concat2(
                concat3("база ", path.as_str(), ": ").as_str(),
                source.as_str(),
            ),
            CoreError::Cache { path, source } => concat2(
                concat3("кэш ", path.as_str(), ": ").as_str(),
                source.as_str(),
            ),
            CoreError::Io(source) => source.clone(),
        }
    }
}

/// What is shown of an error names the file that it is about and ends with
/// what the layer below had to say.
pub proof fn lemma_errors_name_file_and_cause(path: Seq<char>, cause: Seq<char>)
    ensures
        core_message(CoreErrorView::ConfigRead { path, source: cause }) == "конфиг "@ + path + ": "@
            + cause,
        core_message(CoreErrorView::ConfigParse { path, source: cause }) == "конфиг "@ + path
            + " не разбирается: "@ + cause,
        core_message(CoreErrorView::Cookies { path, reason: cause }) == "cookies из "@ + path
            + " не читаются: "@ + cause,
        core_message(CoreErrorView::Database { path, source: cause }) == "база "@ + path + ": "@
            + cause,
        core_message(CoreErrorView::Cache { path, source: cause }) == "кэш "@ + path + ": "@ + cause,
        core_message(CoreErrorView::Io(cause)) == cause,
{
}

} // verus!
