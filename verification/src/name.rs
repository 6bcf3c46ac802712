//! Names of types, subtypes and suffixes: either an identifier recognized by
//! the registry, rendered with its canonical (fixed-case) spelling, or an
//! arbitrary borrowed slice, rendered verbatim.  Equality and ordering of
//! names ignore ASCII case regardless of shape.

use vstd::prelude::*;
use crate::registry::{Namespace, SubtypeIntern, SuffixIntern, TypeIntern};
use crate::text::{
    cmp_str_ignore_case, lemma_str_cmp_ci_equal, str_cmp_ci, str_eq_ci, str_eq_ci_exec,
};

verus! {

use core::cmp::Ordering;

/// Either an interned registry identifier or a dynamic string slice.
#[derive(Clone, Copy, Debug)]
pub enum Name<'a, T> {
    /// A recognized registry member, rendered with its canonical spelling.
    Interned(T),
    /// Arbitrary text, rendered exactly as given.
    Dynamic(&'a str),
}

/// The type name of a MIME value.
pub type Type<'a> = Name<'a, TypeIntern>;

/// The subtype name of a MIME value.
pub type Subtype<'a> = Name<'a, SubtypeIntern>;

/// The suffix name of a MIME value.
pub type Suffix<'a> = Name<'a, SuffixIntern>;

impl<'a, T: Namespace> Name<'a, T> {
    /// The text this name renders: the canonical spelling of an interned
    /// identifier, or the dynamic slice verbatim.
    pub open spec fn render(self) -> Seq<char> {
        match self {
            Name::Interned(id) => id.canon(),
            Name::Dynamic(s) => s@,
        }
    }

    /// Resolve `text` against the registry: a hit interns, a miss stores the
    /// slice itself.  Either way the result renders text that equals `text`
    /// up to ASCII case.
    pub fn new(text: &'a str) -> (r: Self)
        ensures
            r == (match T::spec_lookup(text@) {
                Some(id) => Name::<'a, T>::Interned(id),
                None => Name::<'a, T>::Dynamic(text),
            }),
            str_eq_ci(r.render(), text@),
    {
        proof {
            T::lemma_lookup_canon(text@);
        }
        match T::lookup(text) {
            Some(id) => Name::Interned(id),
            None => Name::Dynamic(text),
        }
    }

    /// The rendered text of this name.
    pub fn into_str(self) -> (r: &'a str)
        ensures
            r@ == self.render(),
    {
        match self {
            Name::Interned(id) => id.canonical(),
            Name::Dynamic(s) => s,
        }
    }
}

impl<'a, T: Namespace> From<&'a str> for Name<'a, T> {
    /// The same resolution as [`Name::new`].
    fn from(text: &'a str) -> (r: Self)
        ensures
            r == (match T::spec_lookup(text@) {
                Some(id) => Name::<'a, T>::Interned(id),
                None => Name::<'a, T>::Dynamic(text),
            }),
    {
        Name::new(text)
    }
}

impl<'a, T: Namespace> vstd::std_specs::convert::FromSpecImpl<&'a str> for Name<'a, T> {
    open spec fn obeys_from_spec() -> bool {
        true
    }

    open spec fn from_spec(text: &'a str) -> Self {
        match T::spec_lookup(text@) {
            Some(id) => Name::Interned(id),
            None => Name::Dynamic(text),
        }
    }
}

impl<'a, T: Namespace> PartialEq for Name<'a, T> {
    /// Names are equal when their rendered texts differ at most in ASCII
    /// case, whatever their shapes.
    fn eq(&self, other: &Self) -> (r: bool)
        ensures
            r == str_eq_ci(self.render(), other.render()),
    {
        str_eq_ci_exec((*self).into_str(), (*other).into_str())
    }
}

impl<'a, T: Namespace> vstd::std_specs::cmp::PartialEqSpecImpl for Name<'a, T> {
    open spec fn obeys_eq_spec() -> bool {
        true
    }

    open spec fn eq_spec(&self, other: &Self) -> bool {
        str_eq_ci(self.render(), other.render())
    }
}

impl<'a, T: Namespace> PartialOrd for Name<'a, T> {
    /// Names are ordered by their rendered texts, ignoring ASCII case.
    fn partial_cmp(&self, other: &Self) -> (r: Option<Ordering>)
        ensures
            r == Some(str_cmp_ci(self.render(), other.render())),
    {
        proof {
            lemma_str_cmp_ci_equal(self.render(), other.render());
        }
        Some(cmp_str_ignore_case((*self).into_str(), (*other).into_str()))
    }
}

impl<'a, T: Namespace> vstd::std_specs::cmp::PartialOrdSpecImpl for Name<'a, T> {
    open spec fn obeys_partial_cmp_spec() -> bool {
        true
    }

    open spec fn partial_cmp_spec(&self, other: &Self) -> Option<Ordering> {
        Some(str_cmp_ci(self.render(), other.render()))
    }
}

} // verus!
