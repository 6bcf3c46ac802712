//! The MIME value itself: an immutable value borrowing all of its text, in
//! one of two observably equivalent shapes — eagerly resolved component
//! names, or the original string with the offsets of its separators.

use vstd::prelude::*;
use crate::name::{Name, Subtype, Suffix, Type};
use crate::registry::{Namespace, SubtypeIntern, SuffixIntern, TypeIntern};
use crate::text::{
    find_char, find_char_from, lemma_find_char_is, lemma_split_char_no_sep,
    lemma_split_char_peel, param_of, params_of_text, split_char, split_param_segment, str_eq_ci,
    str_eq_ci_exec,
};

verus! {

/// MIME type parsing error.
#[derive(Debug, Clone, Copy, PartialEq, Eq, Structural, PartialOrd, Ord, Hash)]
pub enum ParseError {
    /// There is no slash in the input.
    NoSlash,
    /// The slash is the first character, so the type is empty.
    MissingType,
    /// The slash is the last character, so the subtype is missing.
    MissingSubtype,
}

impl ParseError {
    /// A short description of the error.
    pub fn message(&self) -> (r: &'static str)
        ensures
            r@ == (match self {
                ParseError::NoSlash => "no slash in MIME type"@,
                ParseError::MissingType => "missing MIME type"@,
                ParseError::MissingSubtype => "missing MIME subtype"@,
            }),
    {
        match self {
            ParseError::NoSlash => "no slash in MIME type",
            ParseError::MissingType => "missing MIME type",
            ParseError::MissingSubtype => "missing MIME subtype",
        }
    }
}

/// The mathematical shape of a MIME value: the rendered text of each
/// component, plus which internal shape carries it.
pub ghost struct MimeView {
    /// Rendered type name.
    pub ty: Seq<char>,
    /// Rendered subtype name.
    pub subty: Seq<char>,
    /// Rendered suffix name, when present.
    pub suffix: Option<Seq<char>>,
    /// Parameter pairs, in order.
    pub params: Seq<(Seq<char>, Seq<char>)>,
    /// Whether the value defers component extraction to its accessors.
    pub deferred: bool,
}

/// What a recognized type spelling renders as after resolution: the canonical
/// spelling on a registry hit, the text itself otherwise.
pub open spec fn resolve_type(s: Seq<char>) -> Seq<char> {
    match TypeIntern::spec_lookup(s) {
        Some(id) => id.canon(),
        None => s,
    }
}

/// Subtype counterpart of [`resolve_type`].
pub open spec fn resolve_subtype(s: Seq<char>) -> Seq<char> {
    match SubtypeIntern::spec_lookup(s) {
        Some(id) => id.canon(),
        None => s,
    }
}

/// Suffix counterpart of [`resolve_type`].
pub open spec fn resolve_suffix(s: Seq<char>) -> Seq<char> {
    match SuffixIntern::spec_lookup(s) {
        Some(id) => id.canon(),
        None => s,
    }
}

/// Resolution never changes a component up to ASCII case.
pub proof fn lemma_resolve_ci(s: Seq<char>)
    ensures
        str_eq_ci(resolve_type(s), s),
        str_eq_ci(resolve_subtype(s), s),
        str_eq_ci(resolve_suffix(s), s),
{
    TypeIntern::lemma_lookup_canon(s);
    SubtypeIntern::lemma_lookup_canon(s);
    SuffixIntern::lemma_lookup_canon(s);
}

/// The components a deferred value exposes, recomputed from the stored
/// offsets: the type ends at the slash, the subtype runs to the first `+`
/// between slash and semicolon (else to the semicolon), the suffix fills the
/// gap between that `+` and the semicolon, and the parameters are decoded
/// from the text after the semicolon.
pub open spec fn buffer_view(s: Seq<char>, slash: int, plus: Option<int>, semicolon: int) -> MimeView {
    let pend = match plus {
        Some(p) => if p < semicolon { Some(p) } else { None },
        None => None,
    };
    let sub_end = match pend {
        Some(p) => p,
        None => semicolon,
    };
    let sub_start = if slash + 1 <= sub_end { slash + 1 } else { sub_end };
    MimeView {
        ty: s.take(slash),
        subty: s.subrange(sub_start, sub_end),
        suffix: match pend {
            Some(p) => Some(s.subrange(p + 1, semicolon)),
            None => None,
        },
        params: params_of_text(s.skip(semicolon + 1)),
        deferred: true,
    }
}

/// The value built when the input holds no parameter separator: every
/// component resolved against the registry at once, no parameters.
pub open spec fn resolved_view(s: Seq<char>, slash: int, plus: Option<int>) -> MimeView {
    let sub_end = match plus {
        Some(p) => p,
        None => s.len() as int,
    };
    MimeView {
        ty: resolve_type(s.take(slash)),
        subty: resolve_subtype(s.subrange(slash + 1, sub_end)),
        suffix: match plus {
            Some(p) => Some(resolve_suffix(s.skip(p + 1))),
            None => None,
        },
        params: Seq::<(Seq<char>, Seq<char>)>::empty(),
        deferred: false,
    }
}

/// What parsing `s` yields: the position of the first `/` splits type from
/// subtype (`NoSlash`, `MissingType`, `MissingSubtype` errors aside); the
/// first `+` at or after the slash and the first `;` anywhere are located
/// independently; with a `;` the value stays deferred, otherwise it is
/// resolved eagerly.
pub open spec fn spec_parse(s: Seq<char>) -> Result<MimeView, ParseError> {
    match find_char(s, '/') {
        None => Err(ParseError::NoSlash),
        Some(sl) => {
            if sl == 0 {
                Err(ParseError::MissingType)
            } else if sl == s.len() - 1 {
                Err(ParseError::MissingSubtype)
            } else {
                let plus = match find_char(s.skip(sl), '+') {
                    Some(i) => Some(i + sl),
                    None => None,
                };
                match find_char(s, ';') {
                    Some(sc) => Ok(buffer_view(s, sl, plus, sc)),
                    None => Ok(resolved_view(s, sl, plus)),
                }
            }
        },
    }
}

/// The essence of a value: type and subtype only, suffix and parameters
/// dropped.  A deferred value resolves its two components against the
/// registry on the way; an already resolved value keeps its names as they
/// are.
pub open spec fn spec_essence(v: MimeView) -> MimeView {
    MimeView {
        ty: if v.deferred {
            resolve_type(v.ty)
        } else {
            v.ty
        },
        subty: if v.deferred {
            resolve_subtype(v.subty)
        } else {
            v.subty
        },
        suffix: None,
        params: Seq::<(Seq<char>, Seq<char>)>::empty(),
        deferred: false,
    }
}

/// The fully resolved value `type/subtype[+suffix]` with no parameters.
pub open spec fn const_view(t: TypeIntern, s: SubtypeIntern, sfx: Option<SuffixIntern>) -> MimeView {
    MimeView {
        ty: t.canon(),
        subty: s.canon(),
        suffix: match sfx {
            Some(x) => Some(x.canon()),
            None => None,
        },
        params: Seq::<(Seq<char>, Seq<char>)>::empty(),
        deferred: false,
    }
}

/// The registry's extension table: which constant values a file extension
/// suggests, matched ignoring ASCII case; unknown extensions map to nothing.
pub open spec fn spec_guess(ext: Seq<char>) -> Seq<MimeView> {
    if str_eq_ci(ext, "html"@) || str_eq_ci(ext, "htm"@) {
        seq![const_view(TypeIntern::Text, SubtypeIntern::Html, None)]
    } else if str_eq_ci(ext, "txt"@) {
        seq![const_view(TypeIntern::Text, SubtypeIntern::Plain, None)]
    } else if str_eq_ci(ext, "css"@) {
        seq![const_view(TypeIntern::Text, SubtypeIntern::Css, None)]
    } else if str_eq_ci(ext, "csv"@) {
        seq![const_view(TypeIntern::Text, SubtypeIntern::Csv, None)]
    } else if str_eq_ci(ext, "js"@) {
        seq![const_view(TypeIntern::Text, SubtypeIntern::JavaScript, None)]
    } else if str_eq_ci(ext, "json"@) {
        seq![const_view(TypeIntern::Application, SubtypeIntern::Json, None)]
    } else if str_eq_ci(ext, "png"@) {
        seq![const_view(TypeIntern::Image, SubtypeIntern::Png, None)]
    } else if str_eq_ci(ext, "jpg"@) || str_eq_ci(ext, "jpeg"@) {
        seq![const_view(TypeIntern::Image, SubtypeIntern::Jpeg, None)]
    } else if str_eq_ci(ext, "gif"@) {
        seq![const_view(TypeIntern::Image, SubtypeIntern::Gif, None)]
    } else if str_eq_ci(ext, "svg"@) {
        seq![const_view(TypeIntern::Image, SubtypeIntern::Svg, Some(SuffixIntern::Xml))]
    } else if str_eq_ci(ext, "pdf"@) {
        seq![const_view(TypeIntern::Application, SubtypeIntern::Pdf, None)]
    } else if str_eq_ci(ext, "zip"@) {
        seq![const_view(TypeIntern::Application, SubtypeIntern::Zip, None)]
    } else if str_eq_ci(ext, "xml"@) {
        seq![
            const_view(TypeIntern::Application, SubtypeIntern::Xml, None),
            const_view(TypeIntern::Text, SubtypeIntern::Xml, None),
        ]
    } else {
        Seq::<MimeView>::empty()
    }
}

/// Inner representation of a MIME value.
#[derive(Clone, Copy, Debug)]
enum Repr<'a> {
    /// Component names parsed out and resolved; preferred because interned
    /// names compare cheaply, but it cannot defer parameter decoding.
    Parts {
        ty: Type<'a>,
        subtype: Subtype<'a>,
        suffix: Option<Suffix<'a>>,
        parameters: &'a [(&'a str, &'a str)],
    },
    /// The original string and the offsets of its separators; components are
    /// recomputed from the offsets on each access.
    Buffer {
        buffer: &'a str,
        slash: usize,
        plus: Option<usize>,
        semicolon: usize,
    },
}

/// A MIME type, borrowing all of its text.
#[derive(Clone, Copy, Debug)]
pub struct Mime<'a>(Repr<'a>);

impl<'a> View for Mime<'a> {
    type V = MimeView;

    closed spec fn view(&self) -> MimeView {
        match self.0 {
            Repr::Parts { ty, subtype, suffix, parameters } => MimeView {
                ty: ty.render(),
                subty: subtype.render(),
                suffix: match suffix {
                    Some(n) => Some(n.render()),
                    None => None,
                },
                params: parameters@.map_values(|p: (&str, &str)| (p.0@, p.1@)),
                deferred: false,
            },
            Repr::Buffer { buffer, slash, plus, semicolon } => buffer_view(
                buffer@,
                slash as int,
                match plus {
                    Some(p) => Some(p as int),
                    None => None,
                },
                semicolon as int,
            ),
        }
    }
}

impl<'a> Mime<'a> {
    /// Offsets of a deferred value stay inside its buffer.
    #[verifier::type_invariant]
    spec fn inv(self) -> bool {
        match self.0 {
            Repr::Parts { .. } => true,
            Repr::Buffer { buffer, slash, plus, semicolon } => {
                &&& slash < buffer@.len()
                &&& semicolon < buffer@.len()
                &&& match plus {
                    Some(p) => slash < p < buffer@.len(),
                    None => true,
                }
            },
        }
    }

    /// Create a new MIME type from its component parts.
    pub fn new(
        ty: Type<'a>,
        subtype: Subtype<'a>,
        suffix: Option<Suffix<'a>>,
        parameters: &'a [(&'a str, &'a str)],
    ) -> (r: Self)
        ensures
            r@ == (MimeView {
                ty: ty.render(),
                subty: subtype.render(),
                suffix: (match suffix {
                    Some(n) => Some(n.render()),
                    None => None,
                }),
                params: parameters@.map_values(|p: (&str, &str)| (p.0@, p.1@)),
                deferred: false,
            }),
    {
        Mime(Repr::Parts { ty, subtype, suffix, parameters })
    }

    /// Create a new MIME type parsed from a string.
    ///
    /// Succeeds exactly when the input holds a `/` that is neither its first
    /// nor its last character; the three error cases say which structural
    /// check failed.
    pub fn parse(source: &'a str) -> (r: Result<Self, ParseError>)
        ensures
            match r {
                Ok(m) => spec_parse(source@) == Ok::<MimeView, ParseError>(m@),
                Err(e) => spec_parse(source@) == Err::<MimeView, ParseError>(e),
            },
    {
        let len = source.unicode_len();
        let slash_opt = find_char_from(source, '/', 0);
        let slash = match slash_opt {
            None => {
                proof {
                    lemma_find_char_is(source@, '/', None);
                }
                return Err(ParseError::NoSlash);
            },
            Some(i) => i,
        };
        proof {
            lemma_find_char_is(source@, '/', Some(slash as int));
        }
        if slash == 0 {
            return Err(ParseError::MissingType);
        }
        if slash + 1 == len {
            return Err(ParseError::MissingSubtype);
        }
        let plus = find_char_from(source, '+', slash);
        proof {
            let tail = source@.skip(slash as int);
            assert(forall|j: int| 0 <= j < tail.len() ==> tail[j] == source@[j + slash]);
            match plus {
                Some(p) => {
                    lemma_find_char_is(tail, '+', Some(p - slash));
                    assert(source@[slash as int] == '/');
                },
                None => {
                    lemma_find_char_is(tail, '+', None);
                },
            }
        }
        let semicolon = find_char_from(source, ';', 0);
        match semicolon {
            Some(sc) => {
                proof {
                    lemma_find_char_is(source@, ';', Some(sc as int));
                }
                Ok(Mime(Repr::Buffer { buffer: source, slash, plus, semicolon: sc }))
            },
            None => {
                proof {
                    lemma_find_char_is(source@, ';', None);
                }
                let sub_end = match plus {
                    Some(p) => p,
                    None => len,
                };
                let ty = Name::<TypeIntern>::new(source.substring_char(0, slash));
                let subtype = Name::<SubtypeIntern>::new(source.substring_char(slash + 1, sub_end));
                let suffix = match plus {
                    Some(p) => Some(Name::<SuffixIntern>::new(source.substring_char(p + 1, len))),
                    None => None,
                };
                let m = Mime(Repr::Parts { ty, subtype, suffix, parameters: &[] });
                proof {
                    let s = source@;
                    assert(s.subrange(0, slash as int) =~= s.take(slash as int));
                    assert(s.subrange(slash + 1, sub_end as int) =~= s.subrange(
                        slash + 1,
                        (match find_char(s.skip(slash as int), '+') {
                            Some(i) => i + slash,
                            None => s.len() as int,
                        }),
                    ));
                    match plus {
                        Some(p) => {
                            assert(s.subrange(p + 1, len as int) =~= s.skip(p + 1));
                        },
                        None => {},
                    }
                    assert(m@.params =~= Seq::<(Seq<char>, Seq<char>)>::empty());
                    assert(m@ == resolved_view(s, slash as int,
                        match find_char(s.skip(slash as int), '+') {
                            Some(i) => Some(i + slash as int),
                            None => None,
                        }));
                }
                Ok(m)
            },
        }
    }

    /// Get the type of this MIME type.
    pub fn ty(&self) -> (r: Type<'a>)
        ensures
            r.render() == self@.ty,
    {
        proof {
            use_type_invariant(&*self);
        }
        match self.0 {
            Repr::Parts { ty, .. } => ty,
            Repr::Buffer { buffer, slash, .. } => {
                let r = Name::Dynamic(buffer.substring_char(0, slash));
                proof {
                    assert(buffer@.subrange(0, slash as int) =~= buffer@.take(slash as int));
                }
                r
            },
        }
    }

    /// Get the subtype of this MIME type.
    pub fn subtype(&self) -> (r: Subtype<'a>)
        ensures
            r.render() == self@.subty,
    {
        proof {
            use_type_invariant(&*self);
        }
        match self.0 {
            Repr::Parts { subtype, .. } => subtype,
            Repr::Buffer { buffer, slash, plus, semicolon } => {
                let end = match plus {
                    Some(p) => if p < semicolon {
                        p
                    } else {
                        semicolon
                    },
                    None => semicolon,
                };
                let start = if slash < end {
                    slash + 1
                } else {
                    end
                };
                Name::Dynamic(buffer.substring_char(start, end))
            },
        }
    }

    /// Get the suffix of this MIME type, when it has one.
    pub fn suffix(&self) -> (r: Option<Suffix<'a>>)
        ensures
            match r {
                Some(n) => self@.suffix == Some(n.render()),
                None => self@.suffix is None,
            },
    {
        proof {
            use_type_invariant(&*self);
        }
        match self.0 {
            Repr::Parts { suffix, .. } => suffix,
            Repr::Buffer { buffer, plus, semicolon, .. } => match plus {
                Some(p) => if p < semicolon {
                    Some(Name::Dynamic(buffer.substring_char(p + 1, semicolon)))
                } else {
                    None
                },
                None => None,
            },
        }
    }

    /// The parameters of this MIME type, in order.
    pub fn parameters(&self) -> (r: Vec<(&'a str, &'a str)>)
        ensures
            r@.map_values(|p: (&str, &str)| (p.0@, p.1@)) == self@.params,
    {
        proof {
            use_type_invariant(&*self);
        }
        let ghost pairview = |p: (&str, &str)| (p.0@, p.1@);
        match self.0 {
            Repr::Parts { parameters, .. } => {
                let mut r: Vec<(&'a str, &'a str)> = Vec::new();
                let n = parameters.len();
                let mut i: usize = 0;
                while i < n
                    invariant
                        n == parameters@.len(),
                        0 <= i <= n,
                        r@ == parameters@.take(i as int),
                    decreases n - i,
                {
                    let pair = *vstd::slice::slice_index_get(parameters, i);
                    r.push(pair);
                    proof {
                        assert(r@ =~= parameters@.take(i + 1));
                    }
                    i = i + 1;
                }
                proof {
                    assert(parameters@.take(n as int) =~= parameters@);
                }
                r
            },
            Repr::Buffer { buffer, semicolon, .. } => {
                let len = buffer.unicode_len();
                let mut r: Vec<(&'a str, &'a str)> = Vec::new();
                let mut pos: usize = semicolon + 1;
                proof {
                    assert(r@.map_values(pairview) =~= Seq::<(Seq<char>, Seq<char>)>::empty());
                }
                loop
                    invariant
                        len == buffer@.len(),
                        semicolon < len,
                        semicolon < pos <= len,
                        self@.params == r@.map_values(pairview) + params_of_text(
                            buffer@.skip(pos as int)),
                        pairview == (|p: (&str, &str)| (p.0@, p.1@)),
                    decreases len - pos,
                {
                    let next = find_char_from(buffer, ';', pos);
                    let ghost prev = r@;
                    let ghost rest = buffer@.skip(pos as int);
                    proof {
                        assert(forall|j: int| 0 <= j < rest.len() ==> rest[j] == buffer@[j + pos]);
                    }
                    match next {
                        Some(i) => {
                            let seg = buffer.substring_char(pos, i);
                            let pair = split_param_segment(seg);
                            r.push(pair);
                            proof {
                                lemma_split_char_peel(rest, ';', i - pos);
                                assert(rest.take(i - pos) =~= seg@);
                                assert(rest.skip(i - pos + 1) =~= buffer@.skip(i + 1));
                                assert(split_char(rest, ';') == seq![seg@] + split_char(
                                    buffer@.skip(i + 1), ';'));
                                let f = |sg: Seq<char>| param_of(sg);
                                assert(params_of_text(rest) =~~= seq![param_of(seg@)]
                                    + params_of_text(buffer@.skip(i + 1))) by {
                                    assert((seq![seg@] + split_char(buffer@.skip(i + 1),
                                        ';')).map_values(f)[0] == param_of(seg@));
                                }
                                assert(r@ == prev.push(pair));
                                assert(pairview(pair) == param_of(seg@));
                                assert(r@.map_values(pairview) + params_of_text(
                                    buffer@.skip(i + 1)) =~~= prev.map_values(pairview)
                                    + params_of_text(rest));
                            }
                            pos = i + 1;
                        },
                        None => {
                            let seg = buffer.substring_char(pos, len);
                            let pair = split_param_segment(seg);
                            r.push(pair);
                            proof {
                                lemma_split_char_no_sep(rest, ';');
                                assert(rest =~= seg@);
                                assert(split_char(rest, ';') == seq![seg@]);
                                let f = |sg: Seq<char>| param_of(sg);
                                assert(params_of_text(rest) =~~= seq![param_of(seg@)]) by {
                                    assert(seq![seg@].map_values(f)[0] == param_of(seg@));
                                }
                                assert(r@ == prev.push(pair));
                                assert(pairview(pair) == param_of(seg@));
                                assert(r@.map_values(pairview) =~~= prev.map_values(pairview)
                                    + params_of_text(rest));
                            }
                            return r;
                        },
                    }
                }
            },
        }
    }

    /// The essence of this MIME type: only its type and subtype, with the
    /// suffix and the parameters dropped.
    pub fn essence(&self) -> (r: Mime<'a>)
        ensures
            r@ == spec_essence(self@),
    {
        proof {
            use_type_invariant(&*self);
        }
        match self.0 {
            Repr::Parts { ty, subtype, .. } => {
                let r = Mime(Repr::Parts { ty, subtype, suffix: None, parameters: &[] });
                proof {
                    assert(r@.params =~= Seq::<(Seq<char>, Seq<char>)>::empty());
                }
                r
            },
            Repr::Buffer { buffer, slash, plus, semicolon } => {
                let end = match plus {
                    Some(p) => if p < semicolon {
                        p
                    } else {
                        semicolon
                    },
                    None => semicolon,
                };
                let start = if slash < end {
                    slash + 1
                } else {
                    end
                };
                let ty = Name::<TypeIntern>::new(buffer.substring_char(0, slash));
                let subtype = Name::<SubtypeIntern>::new(buffer.substring_char(start, end));
                let r = Mime(Repr::Parts { ty, subtype, suffix: None, parameters: &[] });
                proof {
                    assert(buffer@.subrange(0, slash as int) =~= buffer@.take(slash as int));
                    assert(r@.params =~= Seq::<(Seq<char>, Seq<char>)>::empty());
                }
                r
            },
        }
    }
}

/// Build the constant value `t/s[+sfx]` with no parameters.
fn konst(t: TypeIntern, s: SubtypeIntern, sfx: Option<SuffixIntern>) -> (r: Mime<'static>)
    ensures
        r@ == const_view(t, s, sfx),
{
    let r = Mime::new(
        Name::Interned(t),
        Name::Interned(s),
        match sfx {
            Some(x) => Some(Name::Interned(x)),
            None => None,
        },
        &[],
    );
    proof {
        assert(r@.params =~= Seq::<(Seq<char>, Seq<char>)>::empty());
    }
    r
}

impl Mime<'static> {
    /// Guess the MIME types a file extension suggests, by a case-insensitive
    /// lookup in the registry's extension table.  Unknown extensions yield an
    /// empty sequence, never an error.
    pub fn guess(extension: &str) -> (r: Vec<Mime<'static>>)
        ensures
            r@.map_values(|m: Mime<'static>| m@) == spec_guess(extension@),
    {
        let ghost f = |m: Mime<'static>| m@;
        let r: Vec<Mime<'static>> = if str_eq_ci_exec(extension, "html") || str_eq_ci_exec(
            extension,
            "htm",
        ) {
            vec![konst(TypeIntern::Text, SubtypeIntern::Html, None)]
        } else if str_eq_ci_exec(extension, "txt") {
            vec![konst(TypeIntern::Text, SubtypeIntern::Plain, None)]
        } else if str_eq_ci_exec(extension, "css") {
            vec![konst(TypeIntern::Text, SubtypeIntern::Css, None)]
        } else if str_eq_ci_exec(extension, "csv") {
            vec![konst(TypeIntern::Text, SubtypeIntern::Csv, None)]
        } else if str_eq_ci_exec(extension, "js") {
            vec![konst(TypeIntern::Text, SubtypeIntern::JavaScript, None)]
        } else if str_eq_ci_exec(extension, "json") {
            vec![konst(TypeIntern::Application, SubtypeIntern::Json, None)]
        } else if str_eq_ci_exec(extension, "png") {
            vec![konst(TypeIntern::Image, SubtypeIntern::Png, None)]
        } else if str_eq_ci_exec(extension, "jpg") || str_eq_ci_exec(extension, "jpeg") {
            vec![konst(TypeIntern::Image, SubtypeIntern::Jpeg, None)]
        } else if str_eq_ci_exec(extension, "gif") {
            vec![konst(TypeIntern::Image, SubtypeIntern::Gif, None)]
        } else if str_eq_ci_exec(extension, "svg") {
            vec![konst(TypeIntern::Image, SubtypeIntern::Svg, Some(SuffixIntern::Xml))]
        } else if str_eq_ci_exec(extension, "pdf") {
            vec![konst(TypeIntern::Application, SubtypeIntern::Pdf, None)]
        } else if str_eq_ci_exec(extension, "zip") {
            vec![konst(TypeIntern::Application, SubtypeIntern::Zip, None)]
        } else if str_eq_ci_exec(extension, "xml") {
            vec![
                konst(TypeIntern::Application, SubtypeIntern::Xml, None),
                konst(TypeIntern::Text, SubtypeIntern::Xml, None),
            ]
        } else {
            Vec::new()
        };
        proof {
            assert(r@.map_values(f) =~= spec_guess(extension@));
        }
        r
    }
}

} // verus!
