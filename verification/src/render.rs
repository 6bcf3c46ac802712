//! Rendering a value to text, and textual equality against a plain string:
//! the same component split as the comparison engine, with type, subtype,
//! suffix and keys matched ignoring ASCII case, values exactly, and any
//! malformed or trailing text rejected.

use vstd::prelude::*;
use crate::mime::{Mime, MimeView};
use crate::text::{lemma_str_eq_ci_pointwise, lower_char, lower_char_exec, str_eq_ci};

verus! {

/// The textual form of the parameter pairs: `;key=value` for each.
pub open spec fn params_text(ps: Seq<(Seq<char>, Seq<char>)>) -> Seq<char>
    decreases ps.len(),
{
    if ps.len() == 0 {
        Seq::<char>::empty()
    } else {
        seq![';'] + ps[0].0 + seq!['='] + ps[0].1 + params_text(ps.drop_first())
    }
}

/// The textual form of everything before the parameters:
/// `type/subtype` with `+suffix` when present.
pub open spec fn head_text(v: MimeView) -> Seq<char> {
    v.ty + seq!['/'] + v.subty + (match v.suffix {
        Some(x) => seq!['+'] + x,
        None => Seq::<char>::empty(),
    })
}

/// The full textual form of a value.
pub open spec fn render_view(v: MimeView) -> Seq<char> {
    head_text(v) + params_text(v.params)
}

/// Whether `s` spells the parameter pairs `ps` exactly: each pair appears as
/// `;key=value` with the key matched ignoring ASCII case and the value
/// matched exactly, and nothing follows the last pair.
pub open spec fn params_match(ps: Seq<(Seq<char>, Seq<char>)>, s: Seq<char>) -> bool
    decreases ps.len(),
{
    if ps.len() == 0 {
        s.len() == 0
    } else {
        let k = ps[0].0;
        let v = ps[0].1;
        let need = 1 + k.len() as int + 1 + v.len() as int;
        &&& s.len() >= need
        &&& s[0] == ';'
        &&& str_eq_ci(s.subrange(1, 1 + k.len() as int), k)
        &&& s[1 + k.len() as int] == '='
        &&& s.subrange(2 + k.len() as int, need) == v
        &&& params_match(ps.drop_first(), s.skip(need))
    }
}

/// Whether `s` spells the value `v`: its head up to ASCII case, then its
/// parameters, with no trailing text.
pub open spec fn matches_text(v: MimeView, s: Seq<char>) -> bool {
    let head = head_text(v);
    &&& s.len() >= head.len()
    &&& str_eq_ci(s.take(head.len() as int), head)
    &&& params_match(v.params, s.skip(head.len() as int))
}

/// Whether `part` occurs in `s` at position `pos`, matched ignoring ASCII
/// case when `ci` is set and exactly otherwise.
fn piece_at(s: &str, pos: usize, part: &str, ci: bool) -> (r: bool)
    requires
        pos <= s@.len(),
    ensures
        r == (pos + part@.len() <= s@.len() && if ci {
            str_eq_ci(s@.subrange(pos as int, pos + part@.len()), part@)
        } else {
            s@.subrange(pos as int, pos + part@.len()) == part@
        }),
{
    let slen = s.unicode_len();
    let plen = part.unicode_len();
    if plen > slen - pos {
        return false;
    }
    let ghost piece = s@.subrange(pos as int, pos + part@.len());
    proof {
        lemma_str_eq_ci_pointwise(piece, part@);
    }
    let mut j: usize = 0;
    while j < plen
        invariant
            slen == s@.len(),
            plen == part@.len(),
            pos + plen <= slen,
            piece == s@.subrange(pos as int, pos + plen),
            0 <= j <= plen,
            forall|i: int| 0 <= i < j ==> (if ci {
                lower_char(piece[i]) == lower_char(part@[i])
            } else {
                piece[i] == part@[i]
            }),
        decreases plen - j,
    {
        let sc = s.get_char(pos + j);
        let pc = part.get_char(j);
        proof {
            assert(piece[j as int] == s@[pos + j]);
        }
        let ok = if ci {
            lower_char_exec(sc) == lower_char_exec(pc)
        } else {
            sc == pc
        };
        if !ok {
            proof {
                lemma_str_eq_ci_pointwise(piece, part@);
                if !ci {
                    assert(piece[j as int] != part@[j as int]);
                }
            }
            return false;
        }
        j = j + 1;
    }
    proof {
        lemma_str_eq_ci_pointwise(piece, part@);
        if !ci {
            assert(piece =~= part@);
        }
    }
    true
}

impl<'a> Mime<'a> {
    /// The textual form of this value: `type/subtype`, `+suffix` when one is
    /// present, and `;key=value` for each parameter.
    pub fn to_text(&self) -> (r: String)
        ensures
            r@ == render_view(self@),
    {
        let mut out = String::new();
        out.append(self.ty().into_str());
        out.append("/");
        out.append(self.subtype().into_str());
        proof {
            reveal_strlit("/");
            assert("/"@ =~= seq!['/']);
        }
        match self.suffix() {
            Some(x) => {
                out.append("+");
                out.append(x.into_str());
                proof {
                    reveal_strlit("+");
                    assert("+"@ =~= seq!['+']);
                    assert(out@ =~= head_text(self@));
                }
            },
            None => {
                proof {
                    assert(out@ =~= head_text(self@));
                }
            },
        }
        let ps = self.parameters();
        let ghost pairview = |p: (&str, &str)| (p.0@, p.1@);
        let ghost vp = ps@.map_values(pairview);
        let n = ps.len();
        let mut i: usize = 0;
        proof {
            assert(vp.skip(0) =~= vp);
        }
        while i < n
            invariant
                n == ps@.len(),
                vp == ps@.map_values(pairview),
                vp == self@.params,
                pairview == (|p: (&str, &str)| (p.0@, p.1@)),
                0 <= i <= n,
                out@ + params_text(vp.skip(i as int)) == render_view(self@),
            decreases n - i,
        {
            let pr = *vstd::slice::slice_index_get(ps.as_slice(), i);
            let ghost before = out@;
            out.append(";");
            out.append(pr.0);
            out.append("=");
            out.append(pr.1);
            proof {
                reveal_strlit(";");
                reveal_strlit("=");
                assert(";"@ =~= seq![';']);
                assert("="@ =~= seq!['=']);
                assert(vp[i as int] == pairview(ps@[i as int]));
                assert(vp[i as int] == (pr.0@, pr.1@));
                let rest = vp.skip(i as int);
                assert(rest[0] == vp[i as int]);
                assert(rest.drop_first() =~= vp.skip(i + 1));
                assert(params_text(rest) =~= seq![';'] + pr.0@ + seq!['='] + pr.1@
                    + params_text(vp.skip(i + 1)));
                assert(out@ + params_text(vp.skip(i + 1)) =~= before + params_text(rest));
            }
            i = i + 1;
        }
        proof {
            assert(vp.skip(n as int) =~= Seq::<(Seq<char>, Seq<char>)>::empty());
            assert(out@ + params_text(vp.skip(n as int)) =~= out@);
        }
        out
    }

    /// Compare this value to a plain string: the head must match up to ASCII
    /// case, each parameter must appear as `;key=value` with its key matched
    /// ignoring case and its value exactly, and trailing text is rejected.
    pub fn matches_str(&self, other: &str) -> (r: bool)
        ensures
            r == matches_text(self@, other@),
    {
        let mut head = String::new();
        head.append(self.ty().into_str());
        head.append("/");
        head.append(self.subtype().into_str());
        proof {
            reveal_strlit("/");
            assert("/"@ =~= seq!['/']);
        }
        match self.suffix() {
            Some(x) => {
                head.append("+");
                head.append(x.into_str());
                proof {
                    reveal_strlit("+");
                    assert("+"@ =~= seq!['+']);
                    assert(head@ =~= head_text(self@));
                }
            },
            None => {
                proof {
                    assert(head@ =~= head_text(self@));
                }
            },
        }
        let hlen = head.as_str().unicode_len();
        let olen = other.unicode_len();
        if !piece_at(other, 0, head.as_str(), true) {
            proof {
                assert(other@.subrange(0, head@.len() as int) =~= other@.take(
                    head@.len() as int));
            }
            return false;
        }
        proof {
            assert(other@.subrange(0, head@.len() as int) =~= other@.take(head@.len() as int));
        }
        let ps = self.parameters();
        let ghost pairview = |p: (&str, &str)| (p.0@, p.1@);
        let ghost vp = ps@.map_values(pairview);
        let n = ps.len();
        let mut i: usize = 0;
        let mut pos: usize = hlen;
        proof {
            assert(vp.skip(0) =~= vp);
            assert(other@.skip(0) =~= other@);
        }
        while i < n
            invariant
                n == ps@.len(),
                vp == ps@.map_values(pairview),
                vp == self@.params,
                pairview == (|p: (&str, &str)| (p.0@, p.1@)),
                olen == other@.len(),
                hlen == head_text(self@).len(),
                0 <= i <= n,
                hlen <= pos <= olen,
                matches_text(self@, other@) == params_match(vp.skip(i as int), other@.skip(
                    pos as int)),
            decreases n - i,
        {
            let pr = *vstd::slice::slice_index_get(ps.as_slice(), i);
            let key = pr.0;
            let value = pr.1;
            let klen = key.unicode_len();
            let vlen = value.unicode_len();
            let ghost rest = other@.skip(pos as int);
            let ghost rps = vp.skip(i as int);
            proof {
                assert(vp[i as int] == pairview(ps@[i as int]));
                assert(vp[i as int] == (key@, value@));
                assert(rps[0] == vp[i as int]);
                assert(rps.drop_first() =~= vp.skip(i + 1));
                assert(forall|j: int| 0 <= j < rest.len() ==> rest[j] == other@[j + pos]);
            }
            if pos == olen {
                return false;
            }
            if other.get_char(pos) != ';' {
                return false;
            }
            if !piece_at(other, pos + 1, key, true) {
                proof {
                    if pos + 1 + klen <= olen {
                        assert(other@.subrange(pos + 1, pos + 1 + klen) =~= rest.subrange(
                            1, 1 + klen));
                    }
                }
                return false;
            }
            proof {
                assert(other@.subrange(pos + 1, pos + 1 + klen) =~= rest.subrange(1, 1 + klen));
            }
            let pos2 = pos + 1 + klen;
            if pos2 == olen {
                return false;
            }
            if other.get_char(pos2) != '=' {
                proof {
                    assert(rest[1 + klen] == other@[pos2 as int]);
                }
                return false;
            }
            if !piece_at(other, pos2 + 1, value, false) {
                proof {
                    if pos2 + 1 + vlen <= olen {
                        assert(other@.subrange(pos2 + 1, pos2 + 1 + vlen) =~= rest.subrange(
                            2 + klen, 2 + klen + vlen));
                    }
                }
                return false;
            }
            proof {
                assert(other@.subrange(pos2 + 1, pos2 + 1 + vlen) =~= rest.subrange(
                    2 + klen, 2 + klen + vlen));
                assert(rest.skip(2 + klen + vlen) =~= other@.skip(pos2 + 1 + vlen));
                assert(rest[1 + klen] == other@[pos2 as int]);
                assert(rest[0] == other@[pos as int]);
            }
            pos = pos2 + 1 + vlen;
            i = i + 1;
        }
        proof {
            assert(vp.skip(n as int) =~= Seq::<(Seq<char>, Seq<char>)>::empty());
        }
        pos == olen
    }
}

} // verus!
