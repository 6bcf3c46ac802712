//! Hashing consistent with the case-insensitive equality engine: every
//! string that equality compares ignoring case is lower-cased character by
//! character before it reaches the accumulator, while parameter values are
//! fed exactly.  The accumulator folds one character at a time, so hashing
//! never materializes a lower-cased copy and never allocates.

use vstd::prelude::*;
use crate::mime::{Mime, MimeView};
use crate::text::{lower, lower_char_exec, str_eq_ci};
use crate::compare::params_eq;

verus! {

/// Offset basis of the 64-bit FNV-1a accumulator.
pub const FNV_OFFSET: u64 = 0xcbf29ce484222325;

/// Prime of the 64-bit FNV-1a accumulator.
pub const FNV_PRIME: u64 = 0x100000001b3;

/// The code point of a character, as accumulator input.
pub open spec fn char_code(c: char) -> u64 {
    (c as u32) as u64
}

/// The code point of a character, matching `char_code`.
pub fn char_code_exec(c: char) -> (r: u64)
    ensures
        r == char_code(c),
{
    (c as u32) as u64
}

/// One accumulator step: fold `x` into `h`.
pub open spec fn fnv_step(h: u64, x: u64) -> u64 {
    ((((h ^ x) as nat) * (FNV_PRIME as nat)) % 0x10000000000000000) as u64
}

/// Fold every character of `s` into `h`, left to right.
pub open spec fn fnv_chars(h: u64, s: Seq<char>) -> u64
    decreases s.len(),
{
    if s.len() == 0 {
        h
    } else {
        fnv_chars(fnv_step(h, char_code(s[0])), s.drop_first())
    }
}

/// Folding is one step at a time: appending a character folds it last.
pub proof fn lemma_fnv_chars_push(h: u64, s: Seq<char>, c: char)
    ensures
        fnv_chars(h, s.push(c)) == fnv_step(fnv_chars(h, s), char_code(c)),
    decreases s.len(),
{
    if s.len() == 0 {
        assert(s.push(c).len() == 1);
        assert(s.push(c)[0] == c);
        assert(s.push(c).drop_first() =~= Seq::<char>::empty());
        assert(fnv_chars(h, s.push(c)) == fnv_chars(fnv_step(h, char_code(c)),
            s.push(c).drop_first()));
        assert(fnv_chars(fnv_step(h, char_code(c)), s.push(c).drop_first()) == fnv_step(
            h, char_code(c)));
        assert(fnv_chars(h, s) == h);
    } else {
        assert(s.push(c).len() == s.len() + 1);
        assert(s.push(c)[0] == s[0]);
        assert(s.push(c).drop_first() =~= s.drop_first().push(c));
        lemma_fnv_chars_push(fnv_step(h, char_code(s[0])), s.drop_first(), c);
        assert(fnv_chars(h, s.push(c)) == fnv_chars(fnv_step(h, char_code(s[0])),
            s.push(c).drop_first()));
        assert(fnv_chars(h, s) == fnv_chars(fnv_step(h, char_code(s[0])), s.drop_first()));
    }
}

/// Fold a string into `h`, lower-casing each character first when `ci` is
/// set, so that two strings equal up to ASCII case fold identically.
pub fn hash_str(h0: u64, s: &str, ci: bool) -> (r: u64)
    ensures
        r == fnv_chars(h0, if ci { lower(s@) } else { s@ }),
{
    let ghost target = if ci { lower(s@) } else { s@ };
    let len = s.unicode_len();
    let mut h = h0;
    let mut i: usize = 0;
    proof {
        assert(target.take(0) =~= Seq::<char>::empty());
    }
    while i < len
        invariant
            len == s@.len(),
            target == if ci { lower(s@) } else { s@ },
            target.len() == len,
            0 <= i <= len,
            h == fnv_chars(h0, target.take(i as int)),
        decreases len - i,
    {
        let c = if ci {
            lower_char_exec(s.get_char(i))
        } else {
            s.get_char(i)
        };
        proof {
            assert(target[i as int] == c);
            assert(target.take(i + 1) =~= target.take(i as int).push(c));
            lemma_fnv_chars_push(h0, target.take(i as int), c);
        }
        h = (h ^ char_code_exec(c)).wrapping_mul(FNV_PRIME);
        i = i + 1;
    }
    proof {
        assert(target.take(len as int) =~= target);
    }
    h
}

/// Fold the parameter pairs into `h`: each key lower-cased, each value
/// exact, with a separator after each.
pub open spec fn params_hash(h: u64, ps: Seq<(Seq<char>, Seq<char>)>) -> u64
    decreases ps.len(),
{
    if ps.len() == 0 {
        h
    } else {
        let h1 = fnv_chars(h, lower(ps[0].0));
        let h2 = fnv_step(h1, char_code('='));
        let h3 = fnv_chars(h2, ps[0].1);
        let h4 = fnv_step(h3, char_code(';'));
        params_hash(h4, ps.drop_first())
    }
}

/// The hash of a MIME value: type, subtype and suffix lower-cased, a marker
/// for an absent or present suffix, then the parameters.
pub open spec fn mime_hash(v: MimeView) -> u64 {
    let h1 = fnv_chars(FNV_OFFSET, lower(v.ty));
    let h2 = fnv_step(h1, char_code('/'));
    let h3 = fnv_chars(h2, lower(v.subty));
    let h4 = match v.suffix {
        None => fnv_step(h3, 0),
        Some(x) => fnv_chars(fnv_step(h3, char_code('+')), lower(x)),
    };
    params_hash(h4, v.params)
}

/// Parameter sequences that equality pairs up fold identically.
pub proof fn lemma_params_hash_congruent(
    h: u64,
    a: Seq<(Seq<char>, Seq<char>)>,
    b: Seq<(Seq<char>, Seq<char>)>,
)
    requires
        params_eq(a, b),
    ensures
        params_hash(h, a) == params_hash(h, b),
    decreases a.len(),
{
    if a.len() > 0 {
        assert(str_eq_ci(a[0].0, b[0].0) && a[0].1 == b[0].1);
        assert(forall|j: int| 1 <= j < a.len() ==> a[j] == a.drop_first()[j - 1]);
        assert(forall|j: int| 1 <= j < b.len() ==> b[j] == b.drop_first()[j - 1]);
        assert(params_eq(a.drop_first(), b.drop_first()));
        let h1 = fnv_chars(h, lower(a[0].0));
        let h2 = fnv_step(h1, char_code('='));
        let h3 = fnv_chars(h2, a[0].1);
        let h4 = fnv_step(h3, char_code(';'));
        lemma_params_hash_congruent(h4, a.drop_first(), b.drop_first());
    }
}

impl<'a, T: crate::registry::Namespace> crate::name::Name<'a, T> {
    /// Hash this name, ignoring ASCII case: two names that compare equal
    /// render texts with the same lower-casing, so they hash equal.
    pub fn hash_value(self) -> (r: u64)
        ensures
            r == fnv_chars(FNV_OFFSET, lower(self.render())),
    {
        hash_str(FNV_OFFSET, self.into_str(), true)
    }
}

impl<'a> Mime<'a> {
    /// Hash this value with an accumulator consistent with equality: equal
    /// values hash equal, because every case-insensitively compared string
    /// is lower-cased on its way into the accumulator.
    pub fn hash_value(&self) -> (r: u64)
        ensures
            r == mime_hash(self@),
    {
        let mut h = hash_str(FNV_OFFSET, self.ty().into_str(), true);
        h = (h ^ char_code_exec('/')).wrapping_mul(FNV_PRIME);
        h = hash_str(h, self.subtype().into_str(), true);
        match self.suffix() {
            None => {
                h = (h ^ 0u64).wrapping_mul(FNV_PRIME);
            },
            Some(x) => {
                h = (h ^ char_code_exec('+')).wrapping_mul(FNV_PRIME);
                h = hash_str(h, x.into_str(), true);
            },
        }
        let ps = self.parameters();
        let ghost pairview = |p: (&str, &str)| (p.0@, p.1@);
        let ghost vp = ps@.map_values(pairview);
        let ghost h4 = h;
        let n = ps.len();
        let mut i: usize = 0;
        proof {
            assert(vp.skip(0) =~= vp);
        }
        while i < n
            invariant
                n == ps@.len(),
                vp == ps@.map_values(pairview),
                vp == self@.params,
                pairview == (|p: (&str, &str)| (p.0@, p.1@)),
                0 <= i <= n,
                params_hash(h4, vp) == params_hash(h, vp.skip(i as int)),
            decreases n - i,
        {
            let pr = *vstd::slice::slice_index_get(ps.as_slice(), i);
            let key = pr.0;
            let value = pr.1;
            proof {
                assert(vp[i as int] == pairview(ps@[i as int]));
                assert(vp[i as int] == (key@, value@));
                assert(vp.skip(i as int)[0] == vp[i as int]);
                assert(vp.skip(i as int).drop_first() =~= vp.skip(i + 1));
            }
            h = hash_str(h, key, true);
            h = (h ^ char_code_exec('=')).wrapping_mul(FNV_PRIME);
            h = hash_str(h, value, false);
            h = (h ^ char_code_exec(';')).wrapping_mul(FNV_PRIME);
            i = i + 1;
        }
        proof {
            assert(vp.skip(n as int) =~= Seq::<(Seq<char>, Seq<char>)>::empty());
        }
        h
    }
}

} // verus!
