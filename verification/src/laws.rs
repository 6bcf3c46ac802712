//! The general laws of the library, stated over the specification model and
//! proved once and for all: what parsing a plain `type/subtype` string
//! reconstructs, that equal values hash equal, and that rendering a value to
//! text and parsing it back yields an equal value.

use vstd::prelude::*;
use crate::compare::{
    lemma_params_cmp_equal, lemma_params_cmp_flip, mime_cmp, mime_eq, params_cmp, params_eq,
    suffix_cmp,
};
use crate::hashing::{lemma_params_hash_congruent, mime_hash};
use crate::mime::{
    buffer_view, lemma_resolve_ci, resolve_subtype, resolve_type, resolved_view, spec_essence,
    spec_parse, MimeView, ParseError,
};
use crate::render::{head_text, params_match, params_text, render_view};
use crate::text::{
    find_char, lemma_find_char_is, lemma_split_char_no_sep, lemma_split_char_peel,
    lemma_str_cmp_map_equal, lemma_str_cmp_map_flip, lemma_str_eq_ci_pointwise, lower, lower_char,
    param_of, params_of_text, split_char, str_cmp_ci, str_cmp_cs, str_cmp_map, str_eq_ci, trim,
};

verus! {

use core::cmp::Ordering;

/// Values that the engine deems equal hash equal: every string that is
/// compared ignoring case is lower-cased before it reaches the accumulator,
/// so the hash depends only on what equality inspects.
pub proof fn lemma_equal_values_hash_equal(a: MimeView, b: MimeView)
    requires
        mime_eq(a, b),
    ensures
        mime_hash(a) == mime_hash(b),
{
    assert(lower(a.ty) == lower(b.ty));
    assert(lower(a.subty) == lower(b.subty));
    match (a.suffix, b.suffix) {
        (Some(x), Some(y)) => {
            assert(lower(x) == lower(y));
        },
        _ => {},
    }
    let h1 = crate::hashing::fnv_chars(crate::hashing::FNV_OFFSET, lower(a.ty));
    let h2 = crate::hashing::fnv_step(h1, crate::hashing::char_code('/'));
    let h3 = crate::hashing::fnv_chars(h2, lower(a.subty));
    let h4 = match a.suffix {
        None => crate::hashing::fnv_step(h3, 0),
        Some(x) => crate::hashing::fnv_chars(
            crate::hashing::fnv_step(h3, crate::hashing::char_code('+')),
            lower(x),
        ),
    };
    lemma_params_hash_congruent(h4, a.params, b.params);
}

/// Parsing a string that holds exactly one `/`, no `+` and no `;` succeeds
/// and gives back exactly the two halves around the slash, provided neither
/// half is respelled by the registry (a recognized spelling written in its
/// canonical case, or an unrecognized one) and the slash is neither first
/// nor last.
pub proof fn lemma_parse_two_halves(s: Seq<char>, i: int)
    requires
        0 < i < s.len() - 1,
        s[i] == '/',
        forall|j: int| 0 <= j < s.len() && j != i ==> s[j] != '/',
        forall|j: int| 0 <= j < s.len() ==> s[j] != '+' && s[j] != ';',
        resolve_type(s.take(i)) == s.take(i),
        resolve_subtype(s.skip(i + 1)) == s.skip(i + 1),
    ensures
        spec_parse(s) == Ok::<MimeView, ParseError>(
            (MimeView {
                ty: s.take(i),
                subty: s.skip(i + 1),
                suffix: None,
                params: Seq::<(Seq<char>, Seq<char>)>::empty(),
                deferred: false,
            }),
        ),
        s == s.take(i) + seq!['/'] + s.skip(i + 1),
{
    lemma_find_char_is(s, '/', Some(i));
    lemma_find_char_is(s, ';', None);
    let tail = s.skip(i);
    assert(forall|j: int| 0 <= j < tail.len() ==> tail[j] == s[j + i]);
    lemma_find_char_is(tail, '+', None);
    assert(s.subrange(i + 1, s.len() as int) =~= s.skip(i + 1));
    assert(s =~= s.take(i) + seq!['/'] + s.skip(i + 1));
}

/// Mapped comparison is unchanged when the left sequence is replaced by one
/// that maps pointwise to the same characters.
proof fn lemma_str_cmp_map_congr_left(a: Seq<char>, b: Seq<char>, c: Seq<char>, f: spec_fn(char) -> char)
    requires
        a.len() == b.len(),
        forall|i: int| 0 <= i < a.len() ==> f(a[i]) == f(b[i]),
    ensures
        str_cmp_map(a, c, f) == str_cmp_map(b, c, f),
    decreases a.len(),
{
    if a.len() > 0 && c.len() > 0 && f(a[0]) == f(c[0]) {
        assert(forall|i: int| 0 <= i < a.len() - 1 ==> a.drop_first()[i] == a[i + 1]);
        assert(forall|i: int| 0 <= i < b.len() - 1 ==> b.drop_first()[i] == b[i + 1]);
        lemma_str_cmp_map_congr_left(a.drop_first(), b.drop_first(), c.drop_first(), f);
    }
}

/// Strict mapped comparison is transitive.
proof fn lemma_str_cmp_map_less_trans(a: Seq<char>, b: Seq<char>, c: Seq<char>, f: spec_fn(char) -> char)
    requires
        str_cmp_map(a, b, f) == Ordering::Less,
        str_cmp_map(b, c, f) == Ordering::Less,
    ensures
        str_cmp_map(a, c, f) == Ordering::Less,
    decreases a.len(),
{
    if a.len() == 0 {
        assert(c.len() > 0);
    } else {
        assert(b.len() > 0);
        assert(c.len() > 0);
        let x = f(a[0]);
        let y = f(b[0]);
        let z = f(c[0]);
        if x == y && y == z {
            lemma_str_cmp_map_less_trans(a.drop_first(), b.drop_first(), c.drop_first(), f);
        }
    }
}

/// The three facts that let a lexicographic composition chain through one
/// case-insensitive field: ties substitute, strict answers carry over.
proof fn lemma_str_ci_trans_facts(a: Seq<char>, b: Seq<char>, c: Seq<char>)
    ensures
        str_cmp_ci(a, b) == Ordering::Equal ==> str_cmp_ci(a, c) == str_cmp_ci(b, c),
        str_cmp_ci(b, c) == Ordering::Equal ==> str_cmp_ci(a, c) == str_cmp_ci(a, b),
        (str_cmp_ci(a, b) == Ordering::Less && str_cmp_ci(b, c) == Ordering::Less)
            ==> str_cmp_ci(a, c) == Ordering::Less,
{
    let low = |ch: char| lower_char(ch);
    if str_cmp_ci(a, b) == Ordering::Equal {
        lemma_str_cmp_map_equal(a, b, low);
        lemma_str_cmp_map_congr_left(a, b, c, low);
    }
    if str_cmp_ci(b, c) == Ordering::Equal {
        lemma_str_cmp_map_equal(b, c, low);
        lemma_str_cmp_map_congr_left(b, c, a, low);
        lemma_str_cmp_map_flip(a, b, low);
        lemma_str_cmp_map_flip(a, c, low);
    }
    if str_cmp_ci(a, b) == Ordering::Less && str_cmp_ci(b, c) == Ordering::Less {
        lemma_str_cmp_map_less_trans(a, b, c, low);
    }
}

/// The same three facts for the exact comparison of parameter values.
proof fn lemma_str_cs_trans_facts(a: Seq<char>, b: Seq<char>, c: Seq<char>)
    ensures
        str_cmp_cs(a, b) == Ordering::Equal ==> str_cmp_cs(a, c) == str_cmp_cs(b, c),
        str_cmp_cs(b, c) == Ordering::Equal ==> str_cmp_cs(a, c) == str_cmp_cs(a, b),
        (str_cmp_cs(a, b) == Ordering::Less && str_cmp_cs(b, c) == Ordering::Less)
            ==> str_cmp_cs(a, c) == Ordering::Less,
{
    let idf = |ch: char| ch;
    if str_cmp_cs(a, b) == Ordering::Equal {
        lemma_str_cmp_map_equal(a, b, idf);
        lemma_str_cmp_map_congr_left(a, b, c, idf);
    }
    if str_cmp_cs(b, c) == Ordering::Equal {
        lemma_str_cmp_map_equal(b, c, idf);
        lemma_str_cmp_map_congr_left(b, c, a, idf);
        lemma_str_cmp_map_flip(a, b, idf);
        lemma_str_cmp_map_flip(a, c, idf);
    }
    if str_cmp_cs(a, b) == Ordering::Less && str_cmp_cs(b, c) == Ordering::Less {
        lemma_str_cmp_map_less_trans(a, b, c, idf);
    }
}

/// The same three facts for optional suffixes.
proof fn lemma_suffix_trans_facts(a: Option<Seq<char>>, b: Option<Seq<char>>, c: Option<Seq<char>>)
    ensures
        suffix_cmp(a, b) == Ordering::Equal ==> suffix_cmp(a, c) == suffix_cmp(b, c),
        suffix_cmp(b, c) == Ordering::Equal ==> suffix_cmp(a, c) == suffix_cmp(a, b),
        (suffix_cmp(a, b) == Ordering::Less && suffix_cmp(b, c) == Ordering::Less)
            ==> suffix_cmp(a, c) == Ordering::Less,
{
    match (a, b, c) {
        (Some(x), Some(y), Some(z)) => {
            lemma_str_ci_trans_facts(x, y, z);
        },
        _ => {},
    }
}

/// Comparing against `c` is unchanged when the left sequence is replaced by
/// one that equality pairs up with it.
proof fn lemma_params_cmp_congr_left(
    a: Seq<(Seq<char>, Seq<char>)>,
    b: Seq<(Seq<char>, Seq<char>)>,
    c: Seq<(Seq<char>, Seq<char>)>,
)
    requires
        params_eq(a, b),
    ensures
        params_cmp(a, c) == params_cmp(b, c),
    decreases a.len(),
{
    if a.len() > 0 && c.len() > 0 {
        assert(str_eq_ci(a[0].0, b[0].0) && a[0].1 == b[0].1);
        lemma_str_eq_ci_pointwise(a[0].0, b[0].0);
        let low = |ch: char| lower_char(ch);
        lemma_str_cmp_map_congr_left(a[0].0, b[0].0, c[0].0, low);
        assert(forall|i: int| 1 <= i < a.len() ==> a[i] == a.drop_first()[i - 1]);
        assert(forall|i: int| 1 <= i < b.len() ==> b[i] == b.drop_first()[i - 1]);
        assert(params_eq(a.drop_first(), b.drop_first()));
        lemma_params_cmp_congr_left(a.drop_first(), b.drop_first(), c.drop_first());
    }
}

/// Strict parameter comparison is transitive.
proof fn lemma_params_cmp_less_trans(
    a: Seq<(Seq<char>, Seq<char>)>,
    b: Seq<(Seq<char>, Seq<char>)>,
    c: Seq<(Seq<char>, Seq<char>)>,
)
    requires
        params_cmp(a, b) == Ordering::Less,
        params_cmp(b, c) == Ordering::Less,
    ensures
        params_cmp(a, c) == Ordering::Less,
    decreases a.len(),
{
    if a.len() == 0 {
        assert(c.len() > 0);
    } else {
        assert(b.len() > 0);
        assert(c.len() > 0);
        lemma_str_ci_trans_facts(a[0].0, b[0].0, c[0].0);
        lemma_str_cs_trans_facts(a[0].1, b[0].1, c[0].1);
        let kab = str_cmp_ci(a[0].0, b[0].0);
        let kbc = str_cmp_ci(b[0].0, c[0].0);
        let vab = str_cmp_cs(a[0].1, b[0].1);
        let vbc = str_cmp_cs(b[0].1, c[0].1);
        if kab == Ordering::Equal && kbc == Ordering::Equal && vab == Ordering::Equal && vbc
            == Ordering::Equal {
            lemma_params_cmp_less_trans(a.drop_first(), b.drop_first(), c.drop_first());
        }
    }
}

/// The same three facts for parameter sequences.
proof fn lemma_params_trans_facts(
    a: Seq<(Seq<char>, Seq<char>)>,
    b: Seq<(Seq<char>, Seq<char>)>,
    c: Seq<(Seq<char>, Seq<char>)>,
)
    ensures
        params_cmp(a, b) == Ordering::Equal ==> params_cmp(a, c) == params_cmp(b, c),
        params_cmp(b, c) == Ordering::Equal ==> params_cmp(a, c) == params_cmp(a, b),
        (params_cmp(a, b) == Ordering::Less && params_cmp(b, c) == Ordering::Less)
            ==> params_cmp(a, c) == Ordering::Less,
{
    if params_cmp(a, b) == Ordering::Equal {
        lemma_params_cmp_equal(a, b);
        lemma_params_cmp_congr_left(a, b, c);
    }
    if params_cmp(b, c) == Ordering::Equal {
        lemma_params_cmp_equal(b, c);
        assert(params_eq(c, b)) by {
            assert(forall|i: int| 0 <= i < b.len() ==> str_eq_ci(b[i].0, c[i].0) && b[i].1
                == c[i].1);
        }
        lemma_params_cmp_congr_left(c, b, a);
        lemma_params_cmp_flip(a, b);
        lemma_params_cmp_flip(a, c);
    }
    if params_cmp(a, b) == Ordering::Less && params_cmp(b, c) == Ordering::Less {
        lemma_params_cmp_less_trans(a, b, c);
    }
}

/// The total order on values is transitive; together with its consistency
/// with equality and its antisymmetry this makes it a total order, the same
/// answer on every evaluation.
pub proof fn lemma_order_transitive(a: MimeView, b: MimeView, c: MimeView)
    requires
        mime_cmp(a, b) == Ordering::Less,
        mime_cmp(b, c) == Ordering::Less,
    ensures
        mime_cmp(a, c) == Ordering::Less,
{
    lemma_str_ci_trans_facts(a.ty, b.ty, c.ty);
    lemma_str_ci_trans_facts(a.subty, b.subty, c.subty);
    lemma_suffix_trans_facts(a.suffix, b.suffix, c.suffix);
    lemma_params_trans_facts(a.params, b.params, c.params);
}

/// A parameter pair that the textual form can carry faithfully: no `;` in
/// key or value, no `=` in the key, and both already trimmed.
pub open spec fn pair_wf(p: (Seq<char>, Seq<char>)) -> bool {
    &&& forall|j: int| 0 <= j < p.0.len() ==> p.0[j] != ';' && p.0[j] != '='
    &&& forall|j: int| 0 <= j < p.1.len() ==> p.1[j] != ';'
    &&& trim(p.0) == p.0
    &&& trim(p.1) == p.1
}

/// Every pair of the sequence is faithful to the textual form.
pub open spec fn params_wf(ps: Seq<(Seq<char>, Seq<char>)>) -> bool {
    forall|i: int| 0 <= i < ps.len() ==> pair_wf(ps[i])
}

/// The parameter text with its leading `;` removed.
pub open spec fn params_tail(ps: Seq<(Seq<char>, Seq<char>)>) -> Seq<char>
    recommends
        ps.len() > 0,
{
    ps[0].0 + seq!['='] + ps[0].1 + params_text(ps.drop_first())
}

/// Splitting one `key=value` segment back apart recovers the pair.
proof fn lemma_segment_parse(k: Seq<char>, v: Seq<char>)
    requires
        pair_wf((k, v)),
    ensures
        param_of(k + seq!['='] + v) == (k, v),
{
    let seg = k + seq!['='] + v;
    let kl = k.len() as int;
    assert(seg[kl] == '=');
    assert(forall|j: int| 0 <= j < kl ==> seg[j] == k[j]);
    lemma_find_char_is(seg, '=', Some(kl));
    assert(seg.take(kl) =~= k);
    assert(seg.skip(kl + 1) =~= v);
}

/// Parsing the parameter text back recovers the pairs.
proof fn lemma_params_tail_parse(ps: Seq<(Seq<char>, Seq<char>)>)
    requires
        ps.len() > 0,
        params_wf(ps),
    ensures
        params_of_text(params_tail(ps)) == ps,
    decreases ps.len(),
{
    let k = ps[0].0;
    let v = ps[0].1;
    let kl = k.len() as int;
    let vl = v.len() as int;
    let t = params_tail(ps);
    assert(pair_wf(ps[0]));
    lemma_segment_parse(k, v);
    let rest = ps.drop_first();
    if ps.len() == 1 {
        assert(params_text(rest).len() == 0);
        assert(t =~= k + seq!['='] + v);
        assert forall|j: int| 0 <= j < t.len() implies t[j] != ';' by {
            if j < kl {
                assert(t[j] == k[j]);
            } else if j == kl {
                assert(t[j] == '=');
            } else {
                assert(t[j] == v[j - kl - 1]);
            }
        }
        lemma_split_char_no_sep(t, ';');
        assert(params_of_text(t) =~~= seq![(k, v)]) by {
            assert(split_char(t, ';').map_values(|sg: Seq<char>| param_of(sg))[0] == param_of(t));
            assert(param_of(t) == (k, v));
        }
        assert(params_of_text(t) =~~= ps);
    } else {
        let n0 = kl + 1 + vl;
        assert(params_text(rest)[0] == ';');
        assert(t[n0] == ';');
        assert forall|j: int| 0 <= j < n0 implies t[j] != ';' by {
            if j < kl {
                assert(t[j] == k[j]);
            } else if j == kl {
                assert(t[j] == '=');
            } else {
                assert(t[j] == v[j - kl - 1]);
            }
        }
        lemma_split_char_peel(t, ';', n0);
        let seg = t.take(n0);
        assert(seg =~= k + seq!['='] + v);
        assert(t.skip(n0) =~= params_text(rest));
        assert(rest.len() > 0);
        assert(t.skip(n0 + 1) =~= params_tail(rest));
        assert(params_wf(rest)) by {
            assert(forall|i: int| 0 <= i < rest.len() ==> rest[i] == ps[i + 1]);
        }
        lemma_params_tail_parse(rest);
        assert(split_char(t, ';') == seq![seg] + split_char(params_tail(rest), ';'));
        assert(params_of_text(t) =~~= seq![(k, v)] + params_of_text(params_tail(rest))) by {
            let f = |sg: Seq<char>| param_of(sg);
            assert((seq![seg] + split_char(params_tail(rest), ';')).map_values(f)[0] == param_of(
                seg));
            assert(param_of(seg) == (k, v));
        }
        assert(params_of_text(t) =~~= ps) by {
            assert(forall|i: int| 1 <= i < ps.len() ==> rest[i - 1] == ps[i]);
        }
    }
}

/// Equality of values is an equivalence relation: reflexive, symmetric and
/// transitive, whatever mixture of shapes and spellings the values carry.
pub proof fn lemma_eq_equivalence(a: MimeView, b: MimeView, c: MimeView)
    ensures
        mime_eq(a, a),
        mime_eq(a, b) ==> mime_eq(b, a),
        (mime_eq(a, b) && mime_eq(b, c)) ==> mime_eq(a, c),
{
    if mime_eq(a, b) {
        assert(params_eq(b.params, a.params)) by {
            assert(forall|i: int| 0 <= i < a.params.len() ==> str_eq_ci(a.params[i].0,
                b.params[i].0) && a.params[i].1 == b.params[i].1);
        }
    }
    if mime_eq(a, b) && mime_eq(b, c) {
        assert(params_eq(a.params, c.params)) by {
            assert(forall|i: int| 0 <= i < a.params.len() ==> str_eq_ci(a.params[i].0,
                b.params[i].0) && a.params[i].1 == b.params[i].1);
            assert(forall|i: int| 0 <= i < b.params.len() ==> str_eq_ci(b.params[i].0,
                c.params[i].0) && b.params[i].1 == c.params[i].1);
        }
    }
}

/// The essence of a value keeps its type and subtype up to ASCII case,
/// whatever the value's shape, and drops the suffix and the parameters.
pub proof fn lemma_essence_components(v: MimeView)
    ensures
        str_eq_ci(spec_essence(v).ty, v.ty),
        str_eq_ci(spec_essence(v).subty, v.subty),
        spec_essence(v).suffix is None,
        spec_essence(v).params.len() == 0,
{
    lemma_resolve_ci(v.ty);
    lemma_resolve_ci(v.subty);
}

/// Rendering a value to text and parsing the text back yields an equal
/// value, whenever the components can survive the textual form: the type is
/// non-empty and free of `/` and `;`, the subtype is free of `+` and `;`,
/// the suffix (when present) is free of `;`, the parameters are faithful
/// pairs, and the text after the slash is non-empty.
pub proof fn lemma_render_parse_roundtrip(v: MimeView)
    requires
        v.ty.len() > 0,
        forall|j: int| 0 <= j < v.ty.len() ==> v.ty[j] != '/' && v.ty[j] != ';',
        forall|j: int| 0 <= j < v.subty.len() ==> v.subty[j] != '+' && v.subty[j] != ';',
        v.subty.len() > 0 || v.suffix is Some || v.params.len() > 0,
        (match v.suffix {
            Some(x) => forall|j: int| 0 <= j < x.len() ==> x[j] != ';',
            None => true,
        }),
        params_wf(v.params),
    ensures
        spec_parse(render_view(v)) is Ok,
        mime_eq(spec_parse(render_view(v))->Ok_0, v),
{
    let s = render_view(v);
    let head = head_text(v);
    let ptext = params_text(v.params);
    let tl = v.ty.len() as int;
    let stl = v.subty.len() as int;
    let hl = head.len() as int;
    assert(s == head + ptext);
    let sfxpart = match v.suffix {
        Some(x) => seq!['+'] + x,
        None => Seq::<char>::empty(),
    };
    assert(head == v.ty + seq!['/'] + v.subty + sfxpart);
    assert(hl == tl + 1 + stl + sfxpart.len());
    assert forall|j: int| 0 <= j < tl implies s[j] == v.ty[j] by {
        assert(head[j] == v.ty[j]);
    }
    assert(s[tl] == '/') by {
        assert(head[tl] == '/');
    }
    assert forall|j: int| 0 <= j < stl implies s[tl + 1 + j] == v.subty[j] by {
        assert(head[tl + 1 + j] == v.subty[j]);
    }
    match v.suffix {
        Some(x) => {
            assert(s[tl + 1 + stl] == '+') by {
                assert(head[tl + 1 + stl] == sfxpart[0]);
            }
            assert forall|j: int| 0 <= j < x.len() implies s[tl + 2 + stl + j] == x[j] by {
                assert(head[tl + 2 + stl + j] == sfxpart[1 + j]);
            }
        },
        None => {},
    }
    if v.params.len() > 0 {
        assert(ptext[0] == ';');
        assert(ptext.len() >= 2) by {
            assert(ptext == seq![';'] + v.params[0].0 + seq!['='] + v.params[0].1 + params_text(
                v.params.drop_first()));
        }
    } else {
        assert(ptext.len() == 0);
    }
    // the first '/' is the one after the type
    assert forall|j: int| 0 <= j < tl implies s[j] != '/' by {}
    lemma_find_char_is(s, '/', Some(tl));
    // the slash is neither the first nor the last character
    assert(s.len() > tl + 1) by {
        if v.params.len() > 0 {
        } else {
            assert(sfxpart.len() > 0 || stl > 0);
        }
    }
    // where the head's characters may come from
    assert forall|j: int| 0 <= j < hl implies s[j] != ';' by {
        if j < tl {
            assert(s[j] == v.ty[j]);
        } else if j == tl {
        } else if j < tl + 1 + stl {
            assert(s[j] == v.subty[j - tl - 1]);
        } else {
            match v.suffix {
                Some(x) => {
                    if j == tl + 1 + stl {
                        assert(s[j] == '+');
                    } else {
                        assert(s[j] == x[j - tl - 2 - stl]);
                    }
                },
                None => {},
            }
        }
    }
    let tail = s.skip(tl);
    assert(forall|j: int| 0 <= j < tail.len() ==> tail[j] == s[j + tl]);
    if v.params.len() == 0 {
        // no semicolon anywhere: the value is resolved eagerly
        lemma_find_char_is(s, ';', None);
        match v.suffix {
            Some(x) => {
                assert forall|j: int| 0 <= j < 1 + stl implies tail[j] != '+' by {
                    if j == 0 {
                    } else {
                        assert(tail[j] == v.subty[j - 1]);
                    }
                }
                lemma_find_char_is(tail, '+', Some(1 + stl));
                let w = resolved_view(s, tl, Some(tl + 1 + stl));
                assert(spec_parse(s) == Ok::<MimeView, ParseError>(w));
                assert(s.take(tl) =~= v.ty);
                assert(s.subrange(tl + 1, tl + 1 + stl) =~= v.subty);
                assert(s.skip(tl + 2 + stl) =~= x);
                lemma_resolve_ci(v.ty);
                lemma_resolve_ci(v.subty);
                lemma_resolve_ci(x);
                assert(mime_eq(w, v));
            },
            None => {
                assert forall|j: int| 0 <= j < tail.len() implies tail[j] != '+' by {
                    if j == 0 {
                    } else {
                        assert(tail[j] == v.subty[j - 1]);
                    }
                }
                lemma_find_char_is(tail, '+', None);
                let w = resolved_view(s, tl, None);
                assert(spec_parse(s) == Ok::<MimeView, ParseError>(w));
                assert(s.take(tl) =~= v.ty);
                assert(s.subrange(tl + 1, s.len() as int) =~= v.subty);
                lemma_resolve_ci(v.ty);
                lemma_resolve_ci(v.subty);
                assert(mime_eq(w, v));
            },
        }
    } else {
        // the first semicolon introduces the first parameter
        assert(s[hl] == ';') by {
            assert(s[hl] == ptext[0]);
        }
        lemma_find_char_is(s, ';', Some(hl));
        // the stored plus offset: inside the head for a suffix, else at or
        // past the semicolon and hence ignored
        let plus = match find_char(tail, '+') {
            Some(q) => Some(q + tl),
            None => None,
        };
        let w = buffer_view(s, tl, plus, hl);
        assert(spec_parse(s) == Ok::<MimeView, ParseError>(w));
        // parameters decode back to the pairs
        assert(s.skip(hl + 1) =~= params_tail(v.params)) by {
            assert(s.skip(hl) =~= ptext);
            assert(ptext == seq![';'] + params_tail(v.params));
        }
        lemma_params_tail_parse(v.params);
        assert(w.params == v.params);
        assert(s.take(tl) =~= v.ty);
        match v.suffix {
            Some(x) => {
                assert forall|j: int| 0 <= j < 1 + stl implies tail[j] != '+' by {
                    if j == 0 {
                    } else {
                        assert(tail[j] == v.subty[j - 1]);
                    }
                }
                lemma_find_char_is(tail, '+', Some(1 + stl));
                assert(plus == Some(tl + 1 + stl));
                assert(tl + 1 + stl < hl);
                assert(s.subrange(tl + 1, tl + 1 + stl) =~= v.subty);
                assert(s.subrange(tl + 2 + stl, hl) =~= x);
                assert(w.suffix == Some(x));
                assert(mime_eq(w, v));
            },
            None => {
                assert(hl == tl + 1 + stl);
                crate::text::lemma_find_char(tail, '+');
                match find_char(tail, '+') {
                    Some(q) => {
                        // a '+' can only live in the parameter text here
                        assert(tail[q] == '+');
                        if q + tl < hl {
                            assert(q >= 1);
                            assert(tail[q] == v.subty[q - 1]);
                        }
                        assert(q + tl >= hl);
                    },
                    None => {},
                }
                assert(w.suffix is None);
                assert(s.subrange(tl + 1, hl) =~= v.subty);
                assert(w.subty == v.subty);
                assert(mime_eq(w, v));
            },
        }
    }
}

} // verus!
