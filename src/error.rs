use vstd::prelude::*;

verus! {

/// The part of a response that was missing or held a value of the wrong type.
#[derive(Clone, Copy, Debug, PartialEq, Eq, Structural)]
pub enum Field {
    RepoCount,
    Repositories,
    Languages,
    LanguageSize,
    LanguageName,
    Login,
    CommitHash,
    TreeHash,
    ObjectHash,
}

/// Errors of the library.
#[derive(Clone, Debug, PartialEq, Eq)]
pub enum Error {
    /// A response lacked a field, or the field had the wrong type.
    DataFormat(Field),
    /// The total size of the named language does not fit in 64 bits.
    SizeOverflow(String),
    /// The canvas is too narrow for the bar area, or the font size is zero.
    InvalidConfig,
    /// There is nothing to render.
    EmptyInput,
    /// A theme name other than "light" or "dark"; it holds the name given.
    InvalidTheme(String),
}

/// The description of a field that could not be read.
pub open spec fn field_text(f: Field) -> Seq<char> {
    match f {
        Field::RepoCount => "Invalid repo count"@,
        Field::Repositories => "Invalid repositories"@,
        Field::Languages => "Invalid languages"@,
        Field::LanguageSize => "Invalid language size"@,
        Field::LanguageName => "Invalid language name"@,
        Field::Login => "Failed to extract user login"@,
        Field::CommitHash => "Failed to extract commit hash"@,
        Field::TreeHash => "Failed to extract tree hash"@,
        Field::ObjectHash => "Failed to extract hash from new object"@,
    }
}

/// The description of an error.
pub open spec fn message_text(e: Error) -> Seq<char> {
    match e {
        Error::DataFormat(f) => field_text(f),
        Error::SizeOverflow(lang) => "Language size overflows 64 bits: "@ + lang@,
        Error::InvalidConfig => "Canvas too narrow for the bar area, or zero font size"@,
        Error::EmptyInput => "No languages to render"@,
        Error::InvalidTheme(name) => "Invalid theme: "@ + name@,
    }
}

fn field_message(f: Field) -> (r: String)
    ensures
        r@ == field_text(f),
{
    match f {
        Field::RepoCount => String::from_str("Invalid repo count"),
        Field::Repositories => String::from_str("Invalid repositories"),
        Field::Languages => String::from_str("Invalid languages"),
        Field::LanguageSize => String::from_str("Invalid language size"),
        Field::LanguageName => String::from_str("Invalid language name"),
        Field::Login => String::from_str("Failed to extract user login"),
        Field::CommitHash => String::from_str("Failed to extract commit hash"),
        Field::TreeHash => String::from_str("Failed to extract tree hash"),
        Field::ObjectHash => String::from_str("Failed to extract hash from new object"),
    }
}

impl Error {
    /// A short human-readable description.
    pub fn message(&self) -> (r: String)
        ensures
            r@ == message_text(*self),
    {
        match self {
            Error::DataFormat(f) => field_message(*f),
            Error::SizeOverflow(lang) => {
                let mut m = String::from_str("Language size overflows 64 bits: ");
                m.append(lang.as_str());
                m
            },
            Error::InvalidConfig => String::from_str(
                "Canvas too narrow for the bar area, or zero font size",
            ),
            Error::EmptyInput => String::from_str("No languages to render"),
            Error::InvalidTheme(name) => {
                let mut m = String::from_str("Invalid theme: ");
                m.append(name.as_str());
                m
            },
        }
    }
}

} // verus!
