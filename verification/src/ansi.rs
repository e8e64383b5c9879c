//! Colours and links for terminals.

use vstd::prelude::*;

use crate::paths;
use crate::text;
use crate::text::Render;

verus! {

/// `gethostname::gethostname`: the name of this machine, where it is text. Nothing is said of it.
#[verifier::external_body]
fn machine_name() -> Option<String> {
    gethostname::gethostname().into_string().ok()
}

/// The name of this machine, empty where it is not text.
pub fn hostname() -> String {
    host_or_empty(machine_name())
}

/// A machine's name, empty where it has none.
pub fn host_or_empty(name: Option<String>) -> (host: String)
    ensures
        host@ == (match name {
            Some(name) => name@,
            None => Seq::<char>::empty(),
        }),
{
    match name {
        Some(name) => name,
        None => String::new(),
    }
}

/// The address of the file at `file_path` on `host`.
pub open spec fn file_address(host: Seq<char>, file_path: Seq<char>) -> Seq<char> {
    "file://"@ + host + file_path
}

/// A text that links to an address.
pub struct Hyperlink<H: Render, T: Render> {
    hyperlink: H,
    text: T,
}

/// How a terminal is told to show `text` as a link to `address`.
pub open spec fn linked_text(address: Seq<char>, text: Seq<char>) -> Seq<char> {
    "\x1b]8;;"@ + address + "\x1b\\"@ + text + "\x1b]8;;\x1b\\"@
}

impl<H: Render, T: Render> Hyperlink<H, T> {
    /// Where the link leads.
    pub closed spec fn address(&self) -> H {
        self.hyperlink
    }

    /// What is shown.
    pub closed spec fn shown(&self) -> T {
        self.text
    }

    /// A link to `hyperlink`, shown as `text`.
    pub fn new(hyperlink: H, text: T) -> (link: Self)
        ensures
            link.address() == hyperlink,
            link.shown() == text,
    {
        Hyperlink { hyperlink, text }
    }
}

impl<T: Render> Hyperlink<String, T> {
    /// A link to a file on this machine, shown as `name`.
    pub fn from_path_named<P: Render>(file_path: P, name: T) -> (link: Self)
        ensures
            exists|host: Seq<char>|
                link.address()@ == #[trigger] file_address(host, file_path.rendered()),
            link.shown() == name,
    {
        Self::from_path_named_on(hostname().as_str(), file_path, name)
    }

    /// A link to a file on this machine, shown as its path.
    pub fn from_path(file_path: T) -> (link: Self)
        ensures
            exists|host: Seq<char>|
                link.address()@ == #[trigger] file_address(host, file_path.rendered()),
            link.shown() == file_path,
    {
        Self::from_path_on(hostname().as_str(), file_path)
    }

    /// A link to a file on `host`, shown as `name`.
    pub fn from_path_named_on<P: Render>(host: &str, file_path: P, name: T) -> (link: Self)
        ensures
            link.address()@ == file_address(host@, file_path.rendered()),
            link.shown() == name,
    {
        let mut address = text::concat2("file://", host);
        address.append(file_path.render().as_str());
        Hyperlink::new(address, name)
    }

    /// A link to a file on `host`, shown as its path.
    pub fn from_path_on(host: &str, file_path: T) -> (link: Self)
        ensures
            link.address()@ == file_address(host@, file_path.rendered()),
            link.shown() == file_path,
    {
        let mut address = text::concat2("file://", host);
        address.append(file_path.render().as_str());
        Hyperlink::new(address, file_path)
    }
}

impl<H: Render, T: Render> Render for Hyperlink<H, T> {
    open spec fn rendered(&self) -> Seq<char> {
        linked_text(self.address().rendered(), self.shown().rendered())
    }

    fn render(&self) -> (text: String) {
        let mut text = text::concat2("\x1b]8;;", self.hyperlink.render().as_str());
        text.append("\x1b\\");
        text.append(self.text.render().as_str());
        text.append("\x1b]8;;\x1b\\");
        text
    }
}

/// The path of a file, with the name of the file in the colour `Ansi`.
pub struct HighlightFile<'a, Ansi: Render>(pub &'a str, pub Ansi);

/// `path` with the name of the file in the colour `ansi`, where it has a name and a directory.
pub open spec fn highlighted(
    path: Seq<char>,
    file: Option<Seq<char>>,
    parent: Option<Seq<char>>,
    ansi: Seq<char>,
) -> Seq<char> {
    match (file, parent) {
        (Some(file), Some(parent)) => parent + "/\x1b["@ + ansi + "m"@ + file + "\x1b[0m"@,
        _ => path,
    }
}

/// Writes `path` with the name of the file in the colour `ansi`.
pub fn highlight(path: &str, file: Option<String>, parent: Option<String>, ansi: &str) -> (text:
    String)
    ensures
        text@ == highlighted(path@, text::optional(file), text::optional(parent), ansi@),
{
    match (file, parent) {
        (Some(file), Some(parent)) => {
            let mut text = text::concat2(parent.as_str(), "/\x1b[");
            text.append(ansi);
            text.append("m");
            text.append(file.as_str());
            text.append("\x1b[0m");
            text
        },
        _ => path.to_owned(),
    }
}

impl<'a, Ansi: Render> Render for HighlightFile<'a, Ansi> {
    open spec fn rendered(&self) -> Seq<char> {
        highlighted(
            self.0@,
            paths::file_name_of(self.0@),
            paths::parent_of(self.0@),
            self.1.rendered(),
        )
    }

    fn render(&self) -> (text: String) {
        highlight(
            self.0,
            paths::file_name(self.0),
            paths::parent(self.0),
            self.1.render().as_str(),
        )
    }
}

/// A text in a colour.
pub struct ScopeColor<'a> {
    ansi: &'a str,
    text: &'a str,
}

/// How a terminal is told to show `text` in the colour `ansi`.
pub open spec fn coloured(ansi: Seq<char>, text: Seq<char>) -> Seq<char> {
    "\x1b["@ + ansi + "m"@ + text + "\x1b[0m"@
}

impl<'a> ScopeColor<'a> {
    /// The colour.
    pub closed spec fn colour(&self) -> Seq<char> {
        self.ansi@
    }

    /// What is shown.
    pub closed spec fn shown(&self) -> Seq<char> {
        self.text@
    }

    /// `text` in the colour `ansi`.
    pub fn new(ansi: &'a str, text: &'a str) -> (scope: Self)
        ensures
            scope.colour() == ansi@,
            scope.shown() == text@,
    {
        ScopeColor { ansi, text }
    }
}

impl<'a> Render for ScopeColor<'a> {
    open spec fn rendered(&self) -> Seq<char> {
        coloured(self.colour(), self.shown())
    }

    fn render(&self) -> (text: String) {
        let mut text = text::concat2("\x1b[", self.ansi);
        text.append("m");
        text.append(self.text);
        text.append("\x1b[0m");
        text
    }
}

} // verus!
