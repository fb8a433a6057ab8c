//! The errors of the library and the text that each one shows.

use vstd::prelude::*;

verus! {

/// What can go wrong between reading the configuration and writing the site.
#[derive(Debug, PartialEq, Eq)]
pub enum Error {
    ConfigNotFound,
    CantParse(String),
    MissingFields(String),
    Io(String),
    MissingEnv(String),
    CantInstallDependency,
    Yuque(String),
    Internal(String),
    InvalidSchema(String),
    InvalidBuildCommand(String),
    Build(String),
    Reqwest(String),
    InvalidUrl(String),
    Image(String),
    CantFetchTheme,
}

/// An error with its detail as a sequence of characters.
pub enum ErrorView {
    ConfigNotFound,
    CantParse(Seq<char>),
    MissingFields(Seq<char>),
    Io(Seq<char>),
    MissingEnv(Seq<char>),
    CantInstallDependency,
    Yuque(Seq<char>),
    Internal(Seq<char>),
    InvalidSchema(Seq<char>),
    InvalidBuildCommand(Seq<char>),
    Build(Seq<char>),
    Reqwest(Seq<char>),
    InvalidUrl(Seq<char>),
    Image(Seq<char>),
    CantFetchTheme,
}

impl View for Error {
    type V = ErrorView;

    open spec fn view(&self) -> ErrorView {
        match *self {
            Error::ConfigNotFound => ErrorView::ConfigNotFound,
            Error::CantParse(s) => ErrorView::CantParse(s@),
            Error::MissingFields(s) => ErrorView::MissingFields(s@),
            Error::Io(s) => ErrorView::Io(s@),
            Error::MissingEnv(s) => ErrorView::MissingEnv(s@),
            Error::CantInstallDependency => ErrorView::CantInstallDependency,
            Error::Yuque(s) => ErrorView::Yuque(s@),
            Error::Internal(s) => ErrorView::Internal(s@),
            Error::InvalidSchema(s) => ErrorView::InvalidSchema(s@),
            Error::InvalidBuildCommand(s) => ErrorView::InvalidBuildCommand(s@),
            Error::Build(s) => ErrorView::Build(s@),
            Error::Reqwest(s) => ErrorView::Reqwest(s@),
            Error::InvalidUrl(s) => ErrorView::InvalidUrl(s@),
            Error::Image(s) => ErrorView::Image(s@),
            Error::CantFetchTheme => ErrorView::CantFetchTheme,
        }
    }
}

impl ErrorView {
    /// The text that the error shows.
    pub open spec fn message(self) -> Seq<char> {
        match self {
            ErrorView::ConfigNotFound => "Can not find `config.yml` in current directory"@,
            ErrorView::CantParse(s) => "Can not parse `config.yml` due to "@ + s,
            ErrorView::MissingFields(s) => "Missing required value: "@ + s,
            ErrorView::Io(s) => "Io Error: "@ + s,
            ErrorView::MissingEnv(s) => "missing required environment: "@ + s,
            ErrorView::CantInstallDependency => "Can not install the dependencies"@,
            ErrorView::Yuque(s) => "Yuque Client Error: "@ + s,
            ErrorView::Internal(s) => "Internal Error: "@ + s,
            ErrorView::InvalidSchema(s) => "Invalid Schema: "@ + s,
            ErrorView::InvalidBuildCommand(s) => "Invalid Build Command: "@ + s + "."@,
            ErrorView::Build(s) => "Run command `"@ + s + "` failed."@,
            ErrorView::Reqwest(s) => "Reqwest Error: "@ + s,
            ErrorView::InvalidUrl(s) => "Invalid Url: "@ + s,
            ErrorView::Image(s) => "Image Error: "@ + s,
            ErrorView::CantFetchTheme => "Can not fetch the theme repo"@,
        }
    }
}

/// `head` followed by `detail`.
fn prefixed(head: &str, detail: &str) -> (r: String)
    ensures
        r@ == head@ + detail@,
{
    let mut r = head.to_owned();
    r.append(detail);
    r
}

/// `head`, then `detail`, then `tail`.
fn framed(head: &str, detail: &str, tail: &str) -> (r: String)
    ensures
        r@ == head@ + detail@ + tail@,
{
    let mut r = head.to_owned();
    r.append(detail);
    r.append(tail);
    r
}

impl Error {
    /// The text that the error shows.
    pub fn message(&self) -> (r: String)
        ensures
            r@ == self@.message(),
    {
        match self {
            Error::ConfigNotFound => "Can not find `config.yml` in current directory".to_owned(),
            Error::CantParse(s) => prefixed("Can not parse `config.yml` due to ", s.as_str()),
            Error::MissingFields(s) => prefixed("Missing required value: ", s.as_str()),
            Error::Io(s) => prefixed("Io Error: ", s.as_str()),
            Error::MissingEnv(s) => prefixed("missing required environment: ", s.as_str()),
            Error::CantInstallDependency => "Can not install the dependencies".to_owned(),
            Error::Yuque(s) => prefixed("Yuque Client Error: ", s.as_str()),
            Error::Internal(s) => prefixed("Internal Error: ", s.as_str()),
            Error::InvalidSchema(s) => prefixed("Invalid Schema: ", s.as_str()),
            Error::InvalidBuildCommand(s) => framed("Invalid Build Command: ", s.as_str(), "."),
            Error::Build(s) => framed("Run command `", s.as_str(), "` failed."),
            Error::Reqwest(s) => prefixed("Reqwest Error: ", s.as_str()),
            Error::InvalidUrl(s) => prefixed("Invalid Url: ", s.as_str()),
            Error::Image(s) => prefixed("Image Error: ", s.as_str()),
            Error::CantFetchTheme => "Can not fetch the theme repo".to_owned(),
        }
    }
}

impl Clone for Error {
    fn clone(&self) -> (r: Self)
        ensures
            r == *self,
    {
        match self {
            Error::ConfigNotFound => Error::ConfigNotFound,
            Error::CantParse(s) => Error::CantParse(s.clone()),
            Error::MissingFields(s) => Error::MissingFields(s.clone()),
            Error::Io(s) => Error::Io(s.clone()),
            Error::MissingEnv(s) => Error::MissingEnv(s.clone()),
            Error::CantInstallDependency => Error::CantInstallDependency,
            Error::Yuque(s) => Error::Yuque(s.clone()),
            Error::Internal(s) => Error::Internal(s.clone()),
            Error::InvalidSchema(s) => Error::InvalidSchema(s.clone()),
            Error::InvalidBuildCommand(s) => Error::InvalidBuildCommand(s.clone()),
            Error::Build(s) => Error::Build(s.clone()),
            Error::Reqwest(s) => Error::Reqwest(s.clone()),
            Error::InvalidUrl(s) => Error::InvalidUrl(s.clone()),
            Error::Image(s) => Error::Image(s.clone()),
            Error::CantFetchTheme => Error::CantFetchTheme,
        }
    }
}

} // verus!
