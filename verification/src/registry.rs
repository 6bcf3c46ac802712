//! The registry of recognized spellings: one small, fixed, enumerated set of
//! identifiers per namespace (type, subtype, suffix), each with a canonical
//! spelling, and a case-insensitive lookup from text to identifier.

use vstd::prelude::*;
use crate::text::{str_eq_ci, str_eq_ci_exec};

verus! {

/// A namespace of the registry: a fixed set of identifiers, each rendering a
/// canonical spelling, with a pure, total, case-insensitive lookup.
pub trait Namespace: Sized + Copy {
    /// The canonical spelling of this identifier.
    spec fn canon(self) -> Seq<char>;

    /// Which identifier, if any, the registry associates with `s`.
    spec fn spec_lookup(s: Seq<char>) -> Option<Self>;

    /// A hit renders a spelling that differs from the probe only in case.
    proof fn lemma_lookup_canon(s: Seq<char>)
        ensures
            Self::spec_lookup(s) matches Some(id) ==> str_eq_ci(id.canon(), s),
    ;

    /// Look `s` up in the registry, ignoring ASCII case.
    fn lookup(s: &str) -> (r: Option<Self>)
        ensures
            r == Self::spec_lookup(s@),
    ;

    /// The canonical spelling of this identifier.
    fn canonical(self) -> (r: &'static str)
        ensures
            r@ == self.canon(),
    ;
}

/// Recognized top-level type names.
#[derive(Clone, Copy, Debug)]
pub enum TypeIntern {
    Application,
    Audio,
    Example,
    Font,
    Image,
    Message,
    Model,
    Multipart,
    Text,
    Video,
}

impl Namespace for TypeIntern {
    open spec fn canon(self) -> Seq<char> {
        match self {
            TypeIntern::Application => "application"@,
            TypeIntern::Audio => "audio"@,
            TypeIntern::Example => "example"@,
            TypeIntern::Font => "font"@,
            TypeIntern::Image => "image"@,
            TypeIntern::Message => "message"@,
            TypeIntern::Model => "model"@,
            TypeIntern::Multipart => "multipart"@,
            TypeIntern::Text => "text"@,
            TypeIntern::Video => "video"@,
        }
    }

    open spec fn spec_lookup(s: Seq<char>) -> Option<TypeIntern> {
        if str_eq_ci(s, "application"@) {
            Some(TypeIntern::Application)
        } else if str_eq_ci(s, "audio"@) {
            Some(TypeIntern::Audio)
        } else if str_eq_ci(s, "example"@) {
            Some(TypeIntern::Example)
        } else if str_eq_ci(s, "font"@) {
            Some(TypeIntern::Font)
        } else if str_eq_ci(s, "image"@) {
            Some(TypeIntern::Image)
        } else if str_eq_ci(s, "message"@) {
            Some(TypeIntern::Message)
        } else if str_eq_ci(s, "model"@) {
            Some(TypeIntern::Model)
        } else if str_eq_ci(s, "multipart"@) {
            Some(TypeIntern::Multipart)
        } else if str_eq_ci(s, "text"@) {
            Some(TypeIntern::Text)
        } else if str_eq_ci(s, "video"@) {
            Some(TypeIntern::Video)
        } else {
            None
        }
    }

    proof fn lemma_lookup_canon(s: Seq<char>) {
    }

    fn lookup(s: &str) -> (r: Option<TypeIntern>) {
        if str_eq_ci_exec(s, "application") {
            Some(TypeIntern::Application)
        } else if str_eq_ci_exec(s, "audio") {
            Some(TypeIntern::Audio)
        } else if str_eq_ci_exec(s, "example") {
            Some(TypeIntern::Example)
        } else if str_eq_ci_exec(s, "font") {
            Some(TypeIntern::Font)
        } else if str_eq_ci_exec(s, "image") {
            Some(TypeIntern::Image)
        } else if str_eq_ci_exec(s, "message") {
            Some(TypeIntern::Message)
        } else if str_eq_ci_exec(s, "model") {
            Some(TypeIntern::Model)
        } else if str_eq_ci_exec(s, "multipart") {
            Some(TypeIntern::Multipart)
        } else if str_eq_ci_exec(s, "text") {
            Some(TypeIntern::Text)
        } else if str_eq_ci_exec(s, "video") {
            Some(TypeIntern::Video)
        } else {
            None
        }
    }

    fn canonical(self) -> (r: &'static str) {
        match self {
            TypeIntern::Application => "application",
            TypeIntern::Audio => "audio",
            TypeIntern::Example => "example",
            TypeIntern::Font => "font",
            TypeIntern::Image => "image",
            TypeIntern::Message => "message",
            TypeIntern::Model => "model",
            TypeIntern::Multipart => "multipart",
            TypeIntern::Text => "text",
            TypeIntern::Video => "video",
        }
    }
}

/// Recognized subtype names.
#[derive(Clone, Copy, Debug)]
pub enum SubtypeIntern {
    Css,
    Csv,
    Gif,
    Html,
    JavaScript,
    Jpeg,
    Json,
    OctetStream,
    Pdf,
    Plain,
    Png,
    Svg,
    Xml,
    Zip,
}

impl Namespace for SubtypeIntern {
    open spec fn canon(self) -> Seq<char> {
        match self {
            SubtypeIntern::Css => "css"@,
            SubtypeIntern::Csv => "csv"@,
            SubtypeIntern::Gif => "gif"@,
            SubtypeIntern::Html => "html"@,
            SubtypeIntern::JavaScript => "javascript"@,
            SubtypeIntern::Jpeg => "jpeg"@,
            SubtypeIntern::Json => "json"@,
            SubtypeIntern::OctetStream => "octet-stream"@,
            SubtypeIntern::Pdf => "pdf"@,
            SubtypeIntern::Plain => "plain"@,
            SubtypeIntern::Png => "png"@,
            SubtypeIntern::Svg => "svg"@,
            SubtypeIntern::Xml => "xml"@,
            SubtypeIntern::Zip => "zip"@,
        }
    }

    open spec fn spec_lookup(s: Seq<char>) -> Option<SubtypeIntern> {
        if str_eq_ci(s, "css"@) {
            Some(SubtypeIntern::Css)
        } else if str_eq_ci(s, "csv"@) {
            Some(SubtypeIntern::Csv)
        } else if str_eq_ci(s, "gif"@) {
            Some(SubtypeIntern::Gif)
        } else if str_eq_ci(s, "html"@) {
            Some(SubtypeIntern::Html)
        } else if str_eq_ci(s, "javascript"@) {
            Some(SubtypeIntern::JavaScript)
        } else if str_eq_ci(s, "jpeg"@) {
            Some(SubtypeIntern::Jpeg)
        } else if str_eq_ci(s, "json"@) {
            Some(SubtypeIntern::Json)
        } else if str_eq_ci(s, "octet-stream"@) {
            Some(SubtypeIntern::OctetStream)
        } else if str_eq_ci(s, "pdf"@) {
            Some(SubtypeIntern::Pdf)
        } else if str_eq_ci(s, "plain"@) {
            Some(SubtypeIntern::Plain)
        } else if str_eq_ci(s, "png"@) {
            Some(SubtypeIntern::Png)
        } else if str_eq_ci(s, "svg"@) {
            Some(SubtypeIntern::Svg)
        } else if str_eq_ci(s, "xml"@) {
            Some(SubtypeIntern::Xml)
        } else if str_eq_ci(s, "zip"@) {
            Some(SubtypeIntern::Zip)
        } else {
            None
        }
    }

    proof fn lemma_lookup_canon(s: Seq<char>) {
    }

    fn lookup(s: &str) -> (r: Option<SubtypeIntern>) {
        if str_eq_ci_exec(s, "css") {
            Some(SubtypeIntern::Css)
        } else if str_eq_ci_exec(s, "csv") {
            Some(SubtypeIntern::Csv)
        } else if str_eq_ci_exec(s, "gif") {
            Some(SubtypeIntern::Gif)
        } else if str_eq_ci_exec(s, "html") {
            Some(SubtypeIntern::Html)
        } else if str_eq_ci_exec(s, "javascript") {
            Some(SubtypeIntern::JavaScript)
        } else if str_eq_ci_exec(s, "jpeg") {
            Some(SubtypeIntern::Jpeg)
        } else if str_eq_ci_exec(s, "json") {
            Some(SubtypeIntern::Json)
        } else if str_eq_ci_exec(s, "octet-stream") {
            Some(SubtypeIntern::OctetStream)
        } else if str_eq_ci_exec(s, "pdf") {
            Some(SubtypeIntern::Pdf)
        } else if str_eq_ci_exec(s, "plain") {
            Some(SubtypeIntern::Plain)
        } else if str_eq_ci_exec(s, "png") {
            Some(SubtypeIntern::Png)
        } else if str_eq_ci_exec(s, "svg") {
            Some(SubtypeIntern::Svg)
        } else if str_eq_ci_exec(s, "xml") {
            Some(SubtypeIntern::Xml)
        } else if str_eq_ci_exec(s, "zip") {
            Some(SubtypeIntern::Zip)
        } else {
            None
        }
    }

    fn canonical(self) -> (r: &'static str) {
        match self {
            SubtypeIntern::Css => "css",
            SubtypeIntern::Csv => "csv",
            SubtypeIntern::Gif => "gif",
            SubtypeIntern::Html => "html",
            SubtypeIntern::JavaScript => "javascript",
            SubtypeIntern::Jpeg => "jpeg",
            SubtypeIntern::Json => "json",
            SubtypeIntern::OctetStream => "octet-stream",
            SubtypeIntern::Pdf => "pdf",
            SubtypeIntern::Plain => "plain",
            SubtypeIntern::Png => "png",
            SubtypeIntern::Svg => "svg",
            SubtypeIntern::Xml => "xml",
            SubtypeIntern::Zip => "zip",
        }
    }
}

/// Recognized suffix names.
#[derive(Clone, Copy, Debug)]
pub enum SuffixIntern {
    Gzip,
    Json,
    Xml,
    Zip,
}

impl Namespace for SuffixIntern {
    open spec fn canon(self) -> Seq<char> {
        match self {
            SuffixIntern::Gzip => "gzip"@,
            SuffixIntern::Json => "json"@,
            SuffixIntern::Xml => "xml"@,
            SuffixIntern::Zip => "zip"@,
        }
    }

    open spec fn spec_lookup(s: Seq<char>) -> Option<SuffixIntern> {
        if str_eq_ci(s, "gzip"@) {
            Some(SuffixIntern::Gzip)
        } else if str_eq_ci(s, "json"@) {
            Some(SuffixIntern::Json)
        } else if str_eq_ci(s, "xml"@) {
            Some(SuffixIntern::Xml)
        } else if str_eq_ci(s, "zip"@) {
            Some(SuffixIntern::Zip)
        } else {
            None
        }
    }

    proof fn lemma_lookup_canon(s: Seq<char>) {
    }

    fn lookup(s: &str) -> (r: Option<SuffixIntern>) {
        if str_eq_ci_exec(s, "gzip") {
            Some(SuffixIntern::Gzip)
        } else if str_eq_ci_exec(s, "json") {
            Some(SuffixIntern::Json)
        } else if str_eq_ci_exec(s, "xml") {
            Some(SuffixIntern::Xml)
        } else if str_eq_ci_exec(s, "zip") {
            Some(SuffixIntern::Zip)
        } else {
            None
        }
    }

    fn canonical(self) -> (r: &'static str) {
        match self {
            SuffixIntern::Gzip => "gzip",
            SuffixIntern::Json => "json",
            SuffixIntern::Xml => "xml",
            SuffixIntern::Zip => "zip",
        }
    }
}

} // verus!
