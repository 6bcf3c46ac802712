//! The comparison engine: case-insensitive equality and total ordering of
//! MIME values, applied field by field — type, subtype, suffix, parameters —
//! with parameter keys compared ignoring case and parameter values exactly.

use vstd::prelude::*;
use crate::mime::{Mime, MimeView};
use crate::text::{
    cmp_str_exact, cmp_str_ignore_case, lemma_str_cmp_ci_equal, lemma_str_cmp_cs_equal,
    lemma_str_cmp_map_flip, str_cmp_ci, str_cmp_cs, str_eq_ci, str_eq_ci_exec, str_eq_exec,
};

verus! {

use core::cmp::Ordering;

/// Parameter sequences are equal when they pair up exactly: keys up to ASCII
/// case, values exactly; different lengths never compare equal.
pub open spec fn params_eq(a: Seq<(Seq<char>, Seq<char>)>, b: Seq<(Seq<char>, Seq<char>)>) -> bool {
    a.len() == b.len() && (forall|i: int|
        0 <= i < a.len() ==> str_eq_ci(a[i].0, b[i].0) && a[i].1 == b[i].1)
}

/// Two MIME values are equal when type, subtype and suffix agree up to ASCII
/// case (an absent suffix equals only an absent suffix) and the parameter
/// sequences pair up.
pub open spec fn mime_eq(a: MimeView, b: MimeView) -> bool {
    &&& str_eq_ci(a.ty, b.ty)
    &&& str_eq_ci(a.subty, b.subty)
    &&& match (a.suffix, b.suffix) {
        (None, None) => true,
        (Some(x), Some(y)) => str_eq_ci(x, y),
        _ => false,
    }
    &&& params_eq(a.params, b.params)
}

/// Keep the first answer unless it is a tie.
pub open spec fn ord_then(a: Ordering, b: Ordering) -> Ordering {
    if a == Ordering::Equal {
        b
    } else {
        a
    }
}

/// Order two parameter sequences: pairs in order, key ignoring case then
/// value exactly; when all shared pairs tie, the longer sequence is greater.
pub open spec fn params_cmp(
    a: Seq<(Seq<char>, Seq<char>)>,
    b: Seq<(Seq<char>, Seq<char>)>,
) -> Ordering
    decreases a.len(),
{
    if a.len() == 0 && b.len() == 0 {
        Ordering::Equal
    } else if a.len() == 0 {
        Ordering::Less
    } else if b.len() == 0 {
        Ordering::Greater
    } else {
        let k = str_cmp_ci(a[0].0, b[0].0);
        if k != Ordering::Equal {
            k
        } else {
            let v = str_cmp_cs(a[0].1, b[0].1);
            if v != Ordering::Equal {
                v
            } else {
                params_cmp(a.drop_first(), b.drop_first())
            }
        }
    }
}

/// Order two optional suffixes: absent sorts before present, two present
/// suffixes compare ignoring case.
pub open spec fn suffix_cmp(a: Option<Seq<char>>, b: Option<Seq<char>>) -> Ordering {
    match (a, b) {
        (None, None) => Ordering::Equal,
        (None, Some(_)) => Ordering::Less,
        (Some(_), None) => Ordering::Greater,
        (Some(x), Some(y)) => str_cmp_ci(x, y),
    }
}

/// The total order on MIME values: lexicographic over type, subtype, suffix
/// and parameters, each compared as equality does.
pub open spec fn mime_cmp(a: MimeView, b: MimeView) -> Ordering {
    ord_then(
        str_cmp_ci(a.ty, b.ty),
        ord_then(
            str_cmp_ci(a.subty, b.subty),
            ord_then(suffix_cmp(a.suffix, b.suffix), params_cmp(a.params, b.params)),
        ),
    )
}

/// The order answers `Equal` exactly on equal parameter sequences.
pub proof fn lemma_params_cmp_equal(a: Seq<(Seq<char>, Seq<char>)>, b: Seq<(Seq<char>, Seq<char>)>)
    ensures
        (params_cmp(a, b) == Ordering::Equal) <==> params_eq(a, b),
    decreases a.len(),
{
    if a.len() > 0 && b.len() > 0 {
        lemma_str_cmp_ci_equal(a[0].0, b[0].0);
        lemma_str_cmp_cs_equal(a[0].1, b[0].1);
        lemma_params_cmp_equal(a.drop_first(), b.drop_first());
        assert(forall|j: int| 1 <= j < a.len() ==> a[j] == a.drop_first()[j - 1]);
        assert(forall|j: int| 1 <= j < b.len() ==> b[j] == b.drop_first()[j - 1]);
        if str_eq_ci(a[0].0, b[0].0) && a[0].1 == b[0].1 && params_eq(
            a.drop_first(),
            b.drop_first(),
        ) {
            assert(params_eq(a, b));
        }
        if params_eq(a, b) {
            assert(str_eq_ci(a[0].0, b[0].0) && a[0].1 == b[0].1);
            assert(params_eq(a.drop_first(), b.drop_first()));
        }
    }
}

/// The order answers `Equal` exactly on equal values.
pub proof fn lemma_mime_cmp_equal(a: MimeView, b: MimeView)
    ensures
        (mime_cmp(a, b) == Ordering::Equal) <==> mime_eq(a, b),
{
    lemma_str_cmp_ci_equal(a.ty, b.ty);
    lemma_str_cmp_ci_equal(a.subty, b.subty);
    match (a.suffix, b.suffix) {
        (Some(x), Some(y)) => lemma_str_cmp_ci_equal(x, y),
        _ => {},
    }
    lemma_params_cmp_equal(a.params, b.params);
}

/// Swapping the arguments reverses the order on parameter sequences.
pub proof fn lemma_params_cmp_flip(a: Seq<(Seq<char>, Seq<char>)>, b: Seq<(Seq<char>, Seq<char>)>)
    ensures
        params_cmp(b, a) == (match params_cmp(a, b) {
            Ordering::Less => Ordering::Greater,
            Ordering::Equal => Ordering::Equal,
            Ordering::Greater => Ordering::Less,
        }),
    decreases a.len(),
{
    if a.len() > 0 && b.len() > 0 {
        lemma_str_cmp_map_flip(a[0].0, b[0].0, |c: char| crate::text::lower_char(c));
        lemma_str_cmp_map_flip(a[0].1, b[0].1, |c: char| c);
        lemma_params_cmp_flip(a.drop_first(), b.drop_first());
    }
}

/// Swapping the arguments reverses the order on values.
pub proof fn lemma_mime_cmp_flip(a: MimeView, b: MimeView)
    ensures
        mime_cmp(b, a) == (match mime_cmp(a, b) {
            Ordering::Less => Ordering::Greater,
            Ordering::Equal => Ordering::Equal,
            Ordering::Greater => Ordering::Less,
        }),
{
    let low = |c: char| crate::text::lower_char(c);
    lemma_str_cmp_map_flip(a.ty, b.ty, low);
    lemma_str_cmp_map_flip(a.subty, b.subty, low);
    match (a.suffix, b.suffix) {
        (Some(x), Some(y)) => lemma_str_cmp_map_flip(x, y, low),
        _ => {},
    }
    lemma_params_cmp_flip(a.params, b.params);
}

/// Compare two parameter vectors, pair by pair.
fn cmp_params_ignore_case(a: &Vec<(&str, &str)>, b: &Vec<(&str, &str)>) -> (r: Ordering)
    ensures
        r == params_cmp(
            a@.map_values(|p: (&str, &str)| (p.0@, p.1@)),
            b@.map_values(|p: (&str, &str)| (p.0@, p.1@)),
        ),
{
    let ghost pairview = |p: (&str, &str)| (p.0@, p.1@);
    let ghost pa = a@.map_values(pairview);
    let ghost pb = b@.map_values(pairview);
    let alen = a.len();
    let blen = b.len();
    let common = if alen < blen { alen } else { blen };
    let mut i: usize = 0;
    proof {
        assert(pa.skip(0) =~= pa);
        assert(pb.skip(0) =~= pb);
    }
    while i < common
        invariant
            alen == a@.len(),
            blen == b@.len(),
            pa == a@.map_values(pairview),
            pb == b@.map_values(pairview),
            pa.len() == alen,
            pb.len() == blen,
            common == if alen < blen { alen } else { blen },
            0 <= i <= common,
            params_cmp(pa, pb) == params_cmp(pa.skip(i as int), pb.skip(i as int)),
            pairview == (|p: (&str, &str)| (p.0@, p.1@)),
        decreases common - i,
    {
        let pra = *vstd::slice::slice_index_get(a.as_slice(), i);
        let prb = *vstd::slice::slice_index_get(b.as_slice(), i);
        let ka = pra.0;
        let va = pra.1;
        let kb = prb.0;
        let vb = prb.1;
        proof {
            assert(pa.skip(i as int)[0] == pa[i as int]);
            assert(pb.skip(i as int)[0] == pb[i as int]);
            assert(pa[i as int] == pairview(a@[i as int]));
            assert(pb[i as int] == pairview(b@[i as int]));
            assert(pa[i as int] == (ka@, va@));
            assert(pb[i as int] == (kb@, vb@));
        }
        let k = cmp_str_ignore_case(ka, kb);
        if !matches!(k, Ordering::Equal) {
            return k;
        }
        let v = cmp_str_exact(va, vb);
        if !matches!(v, Ordering::Equal) {
            return v;
        }
        proof {
            assert(pa.skip(i as int).drop_first() =~= pa.skip(i + 1));
            assert(pb.skip(i as int).drop_first() =~= pb.skip(i + 1));
        }
        i = i + 1;
    }
    proof {
        assert(pa.skip(common as int).len() == alen - common);
        assert(pb.skip(common as int).len() == blen - common);
    }
    if alen == blen {
        Ordering::Equal
    } else if alen < blen {
        Ordering::Less
    } else {
        Ordering::Greater
    }
}

impl<'a> Mime<'a> {
    /// Where this value stands against `other` in the total order.
    pub fn compare(&self, other: &Mime<'a>) -> (r: Ordering)
        ensures
            r == mime_cmp(self@, other@),
    {
        let t = cmp_str_ignore_case(self.ty().into_str(), other.ty().into_str());
        if !matches!(t, Ordering::Equal) {
            return t;
        }
        let s = cmp_str_ignore_case(self.subtype().into_str(), other.subtype().into_str());
        if !matches!(s, Ordering::Equal) {
            return s;
        }
        let x = match (self.suffix(), other.suffix()) {
            (None, None) => Ordering::Equal,
            (None, Some(_)) => Ordering::Less,
            (Some(_), None) => Ordering::Greater,
            (Some(a), Some(b)) => cmp_str_ignore_case(a.into_str(), b.into_str()),
        };
        if !matches!(x, Ordering::Equal) {
            return x;
        }
        cmp_params_ignore_case(&self.parameters(), &other.parameters())
    }
}

impl<'a> PartialEq for Mime<'a> {
    /// Values are equal by the case-insensitive engine, whatever their
    /// internal shapes.
    fn eq(&self, other: &Self) -> (r: bool)
        ensures
            r == mime_eq(self@, other@),
    {
        if !str_eq_ci_exec(self.ty().into_str(), other.ty().into_str()) {
            return false;
        }
        if !str_eq_ci_exec(self.subtype().into_str(), other.subtype().into_str()) {
            return false;
        }
        match (self.suffix(), other.suffix()) {
            (None, None) => {},
            (Some(a), Some(b)) => {
                if !str_eq_ci_exec(a.into_str(), b.into_str()) {
                    return false;
                }
            },
            _ => {
                return false;
            },
        }
        let pa = self.parameters();
        let pb = other.parameters();
        let ghost pairview = |p: (&str, &str)| (p.0@, p.1@);
        let ghost va = pa@.map_values(pairview);
        let ghost vb = pb@.map_values(pairview);
        if pa.len() != pb.len() {
            proof {
                assert(va.len() != vb.len());
            }
            return false;
        }
        let n = pa.len();
        let mut i: usize = 0;
        while i < n
            invariant
                n == pa@.len(),
                n == pb@.len(),
                va == pa@.map_values(pairview),
                vb == pb@.map_values(pairview),
                va == self@.params,
                vb == other@.params,
                str_eq_ci(self@.ty, other@.ty),
                str_eq_ci(self@.subty, other@.subty),
                (match (self@.suffix, other@.suffix) {
                    (None, None) => true,
                    (Some(x), Some(y)) => str_eq_ci(x, y),
                    _ => false,
                }),
                0 <= i <= n,
                forall|j: int| 0 <= j < i ==> str_eq_ci(va[j].0, vb[j].0) && va[j].1 == vb[j].1,
                pairview == (|p: (&str, &str)| (p.0@, p.1@)),
            decreases n - i,
        {
            let pra = *vstd::slice::slice_index_get(pa.as_slice(), i);
            let prb = *vstd::slice::slice_index_get(pb.as_slice(), i);
            let ka = pra.0;
            let vva = pra.1;
            let kb = prb.0;
            let vvb = prb.1;
            proof {
                assert(va[i as int] == pairview(pa@[i as int]));
                assert(vb[i as int] == pairview(pb@[i as int]));
                assert(va[i as int] == (ka@, vva@));
                assert(vb[i as int] == (kb@, vvb@));
            }
            if !str_eq_ci_exec(ka, kb) {
                return false;
            }
            if !str_eq_exec(vva, vvb) {
                return false;
            }
            i = i + 1;
        }
        true
    }
}

impl<'a> vstd::std_specs::cmp::PartialEqSpecImpl for Mime<'a> {
    open spec fn obeys_eq_spec() -> bool {
        true
    }

    open spec fn eq_spec(&self, other: &Self) -> bool {
        mime_eq(self@, other@)
    }
}

impl<'a> PartialOrd for Mime<'a> {
    /// The total order over values, lexicographic by component.
    fn partial_cmp(&self, other: &Self) -> (r: Option<Ordering>)
        ensures
            r == Some(mime_cmp(self@, other@)),
    {
        Some(self.compare(other))
    }
}

impl<'a> vstd::std_specs::cmp::PartialOrdSpecImpl for Mime<'a> {
    open spec fn obeys_partial_cmp_spec() -> bool {
        true
    }

    open spec fn partial_cmp_spec(&self, other: &Self) -> Option<Ordering> {
        Some(mime_cmp(self@, other@))
    }
}

} // verus!
