//! Character-level machinery shared by the whole crate: ASCII case folding,
//! case-insensitive equality and ordering, searching, trimming and splitting,
//! each with a specification over `Seq<char>` and an executable counterpart.

use vstd::prelude::*;

verus! {

use core::cmp::Ordering;

/// ASCII lower-casing of a single character; everything outside `A..=Z` is unchanged.
pub open spec fn lower_char(c: char) -> char {
    if 'A' <= c && c <= 'Z' {
        ((c as u8) + 32) as char
    } else {
        c
    }
}

/// Lower-case every character of a sequence.
pub open spec fn lower(s: Seq<char>) -> Seq<char> {
    s.map_values(|c: char| lower_char(c))
}

/// Case-insensitive equality of two character sequences.
pub open spec fn str_eq_ci(a: Seq<char>, b: Seq<char>) -> bool {
    lower(a) == lower(b)
}

/// Case-insensitive equality is the same as pointwise equality of lower-cased
/// characters over sequences of the same length.
pub proof fn lemma_str_eq_ci_pointwise(a: Seq<char>, b: Seq<char>)
    ensures
        str_eq_ci(a, b) <==> (a.len() == b.len() && (forall|i: int|
            0 <= i < a.len() ==> lower_char(a[i]) == lower_char(b[i]))),
{
    if a.len() == b.len() && (forall|i: int|
        0 <= i < a.len() ==> lower_char(a[i]) == lower_char(b[i])) {
        assert(lower(a) =~= lower(b));
    }
    if str_eq_ci(a, b) {
        assert(lower(a).len() == a.len());
        assert forall|i: int| 0 <= i < a.len() implies lower_char(a[i]) == lower_char(b[i]) by {
            assert(lower(a)[i] == lower_char(a[i]));
            assert(lower(b)[i] == lower_char(b[i]));
        }
    }
}

/// Lower-case one character, matching `lower_char`.
pub fn lower_char_exec(c: char) -> (r: char)
    ensures
        r == lower_char(c),
{
    if 'A' <= c && c <= 'Z' {
        ((c as u8) + 32) as char
    } else {
        c
    }
}

/// Compare two strings ignoring ASCII case.
pub fn str_eq_ci_exec(a: &str, b: &str) -> (r: bool)
    ensures
        r == str_eq_ci(a@, b@),
{
    let alen = a.unicode_len();
    let blen = b.unicode_len();
    proof {
        lemma_str_eq_ci_pointwise(a@, b@);
    }
    if alen != blen {
        return false;
    }
    let mut i: usize = 0;
    while i < alen
        invariant
            alen == a@.len(),
            blen == b@.len(),
            alen == blen,
            0 <= i <= alen,
            forall|j: int| 0 <= j < i ==> lower_char(a@[j]) == lower_char(b@[j]),
        decreases alen - i,
    {
        let ac = lower_char_exec(a.get_char(i));
        let bc = lower_char_exec(b.get_char(i));
        if ac != bc {
            proof {
                lemma_str_eq_ci_pointwise(a@, b@);
                assert(lower_char(a@[i as int]) != lower_char(b@[i as int]));
            }
            return false;
        }
        i = i + 1;
    }
    true
}

/// Compare two strings exactly, character by character.
pub fn str_eq_exec(a: &str, b: &str) -> (r: bool)
    ensures
        r == (a@ == b@),
{
    let alen = a.unicode_len();
    let blen = b.unicode_len();
    if alen != blen {
        proof {
            assert(a@.len() != b@.len());
        }
        return false;
    }
    let mut i: usize = 0;
    while i < alen
        invariant
            alen == a@.len(),
            blen == b@.len(),
            alen == blen,
            0 <= i <= alen,
            forall|j: int| 0 <= j < i ==> a@[j] == b@[j],
        decreases alen - i,
    {
        if a.get_char(i) != b.get_char(i) {
            return false;
        }
        i = i + 1;
    }
    proof {
        assert(a@ =~= b@);
    }
    true
}

/// Index of the first occurrence of `c` in `s`, if any.
pub open spec fn find_char(s: Seq<char>, c: char) -> Option<int>
    decreases s.len(),
{
    if s.len() == 0 {
        None
    } else if s[0] == c {
        Some(0int)
    } else {
        match find_char(s.drop_first(), c) {
            Some(i) => Some(i + 1),
            None => None,
        }
    }
}

/// What `find_char` returns: the first index holding `c`, or `None` when `c`
/// does not occur.
pub proof fn lemma_find_char(s: Seq<char>, c: char)
    ensures
        match find_char(s, c) {
            Some(i) => 0 <= i < s.len() && s[i] == c && (forall|j: int|
                0 <= j < i ==> s[j] != c),
            None => forall|j: int| 0 <= j < s.len() ==> s[j] != c,
        },
    decreases s.len(),
{
    if s.len() > 0 && s[0] != c {
        lemma_find_char(s.drop_first(), c);
        assert(forall|j: int| 1 <= j < s.len() ==> s[j] == s.drop_first()[j - 1]);
    }
}

/// `find_char` is determined by the properties above; used to connect loops
/// that search a string to the specification.
pub proof fn lemma_find_char_is(s: Seq<char>, c: char, r: Option<int>)
    requires
        match r {
            Some(i) => 0 <= i < s.len() && s[i] == c && (forall|j: int|
                0 <= j < i ==> s[j] != c),
            None => forall|j: int| 0 <= j < s.len() ==> s[j] != c,
        },
    ensures
        find_char(s, c) == r,
{
    lemma_find_char(s, c);
    match (find_char(s, c), r) {
        (Some(i), Some(k)) => {
            if i < k {
            } else if k < i {
            }
        },
        (Some(i), None) => {},
        (None, Some(k)) => {},
        (None, None) => {},
    }
}

/// Find the first occurrence of `c` in `s` at or after position `start`
/// (positions count characters).
pub fn find_char_from(s: &str, c: char, start: usize) -> (r: Option<usize>)
    requires
        start <= s@.len(),
    ensures
        match r {
            Some(i) => start <= i < s@.len() && s@[i as int] == c && (forall|j: int|
                start <= j < i ==> s@[j] != c),
            None => forall|j: int| start <= j < s@.len() ==> s@[j] != c,
        },
{
    let len = s.unicode_len();
    let mut i: usize = start;
    while i < len
        invariant
            len == s@.len(),
            start <= i <= len,
            forall|j: int| start <= j < i ==> s@[j] != c,
        decreases len - i,
    {
        if s.get_char(i) == c {
            return Some(i);
        }
        i = i + 1;
    }
    None
}

/// Order two characters by code point.
pub open spec fn char_cmp(a: char, b: char) -> Ordering {
    if a == b {
        Ordering::Equal
    } else if (a as u32) < (b as u32) {
        Ordering::Less
    } else {
        Ordering::Greater
    }
}

/// Lexicographic order of two sequences after mapping each character through
/// `f`; on a full-prefix tie the shorter sequence sorts first.
pub open spec fn str_cmp_map(a: Seq<char>, b: Seq<char>, f: spec_fn(char) -> char) -> Ordering
    decreases a.len(),
{
    if a.len() == 0 && b.len() == 0 {
        Ordering::Equal
    } else if a.len() == 0 {
        Ordering::Less
    } else if b.len() == 0 {
        Ordering::Greater
    } else if f(a[0]) != f(b[0]) {
        char_cmp(f(a[0]), f(b[0]))
    } else {
        str_cmp_map(a.drop_first(), b.drop_first(), f)
    }
}

/// Case-insensitive order: compare lower-cased characters, shorter ties first.
pub open spec fn str_cmp_ci(a: Seq<char>, b: Seq<char>) -> Ordering {
    str_cmp_map(a, b, |c: char| lower_char(c))
}

/// Case-sensitive (exact) lexicographic order.
pub open spec fn str_cmp_cs(a: Seq<char>, b: Seq<char>) -> Ordering {
    str_cmp_map(a, b, |c: char| c)
}

/// Dropping an equal mapped prefix does not change the comparison.
pub proof fn lemma_str_cmp_map_skip(a: Seq<char>, b: Seq<char>, f: spec_fn(char) -> char, k: int)
    requires
        0 <= k <= a.len(),
        k <= b.len(),
        forall|j: int| 0 <= j < k ==> f(a[j]) == f(b[j]),
    ensures
        str_cmp_map(a, b, f) == str_cmp_map(a.skip(k), b.skip(k), f),
    decreases k,
{
    if k == 0 {
        assert(a.skip(0) =~= a);
        assert(b.skip(0) =~= b);
    } else {
        assert(f(a[0]) == f(b[0]));
        lemma_str_cmp_map_skip(a.drop_first(), b.drop_first(), f, k - 1);
        assert(a.drop_first().skip(k - 1) =~= a.skip(k));
        assert(b.drop_first().skip(k - 1) =~= b.skip(k));
    }
}

/// The comparison answers `Equal` exactly when the mapped sequences agree
/// pointwise and in length.
pub proof fn lemma_str_cmp_map_equal(a: Seq<char>, b: Seq<char>, f: spec_fn(char) -> char)
    ensures
        (str_cmp_map(a, b, f) == Ordering::Equal) <==> (a.len() == b.len() && (forall|i: int|
            0 <= i < a.len() ==> f(a[i]) == f(b[i]))),
    decreases a.len(),
{
    if a.len() > 0 && b.len() > 0 && f(a[0]) == f(b[0]) {
        lemma_str_cmp_map_equal(a.drop_first(), b.drop_first(), f);
        assert(forall|j: int| 1 <= j < a.len() ==> a[j] == a.drop_first()[j - 1]);
        assert(forall|j: int| 1 <= j < b.len() ==> b[j] == b.drop_first()[j - 1]);
        if a.len() == b.len() && (forall|i: int|
            0 <= i < a.drop_first().len() ==> f(a.drop_first()[i]) == f(b.drop_first()[i])) {
            assert(forall|i: int| 0 <= i < a.len() ==> f(a[i]) == f(b[i]));
        }
    }
}

/// Case-insensitive comparison answers `Equal` exactly on case-insensitively
/// equal sequences.
pub proof fn lemma_str_cmp_ci_equal(a: Seq<char>, b: Seq<char>)
    ensures
        (str_cmp_ci(a, b) == Ordering::Equal) <==> str_eq_ci(a, b),
{
    lemma_str_cmp_map_equal(a, b, |c: char| lower_char(c));
    lemma_str_eq_ci_pointwise(a, b);
}

/// Exact comparison answers `Equal` exactly on equal sequences.
pub proof fn lemma_str_cmp_cs_equal(a: Seq<char>, b: Seq<char>)
    ensures
        (str_cmp_cs(a, b) == Ordering::Equal) <==> (a == b),
{
    lemma_str_cmp_map_equal(a, b, |c: char| c);
    if a.len() == b.len() && (forall|i: int| 0 <= i < a.len() ==> a[i] == b[i]) {
        assert(a =~= b);
    }
}

/// Swapping the arguments reverses the answer.
pub proof fn lemma_str_cmp_map_flip(a: Seq<char>, b: Seq<char>, f: spec_fn(char) -> char)
    ensures
        str_cmp_map(b, a, f) == (match str_cmp_map(a, b, f) {
            Ordering::Less => Ordering::Greater,
            Ordering::Equal => Ordering::Equal,
            Ordering::Greater => Ordering::Less,
        }),
    decreases a.len(),
{
    if a.len() > 0 && b.len() > 0 {
        if f(a[0]) == f(b[0]) {
            lemma_str_cmp_map_flip(a.drop_first(), b.drop_first(), f);
        } else {
            let x = f(a[0]);
            let y = f(b[0]);
            if (x as u32) == (y as u32) {
                assert(x == y) by {
                    vstd::utf8::char_u32_cast(x, x as u32);
                    vstd::utf8::char_u32_cast(y, y as u32);
                }
            }
        }
    }
}

/// Compare two strings ignoring ASCII case: shared-length prefix first,
/// character by character after lower-casing, then the shorter sorts first.
pub fn cmp_str_ignore_case(a: &str, b: &str) -> (r: Ordering)
    ensures
        r == str_cmp_ci(a@, b@),
{
    cmp_str_map(a, b, true)
}

/// Compare two strings exactly, character by character.
pub fn cmp_str_exact(a: &str, b: &str) -> (r: Ordering)
    ensures
        r == str_cmp_cs(a@, b@),
{
    cmp_str_map(a, b, false)
}

/// Shared body of the two string comparisons; `ci` selects case folding.
fn cmp_str_map(a: &str, b: &str, ci: bool) -> (r: Ordering)
    ensures
        r == str_cmp_map(a@, b@, if ci { |c: char| lower_char(c) } else { |c: char| c }),
{
    let ghost f = if ci { |c: char| lower_char(c) } else { |c: char| c };
    let alen = a.unicode_len();
    let blen = b.unicode_len();
    let common = if alen < blen { alen } else { blen };
    let mut i: usize = 0;
    while i < common
        invariant
            alen == a@.len(),
            blen == b@.len(),
            common == if alen < blen { alen } else { blen },
            0 <= i <= common,
            f == if ci { |c: char| lower_char(c) } else { |c: char| c },
            forall|j: int| 0 <= j < i ==> f(a@[j]) == f(b@[j]),
        decreases common - i,
    {
        let ac = if ci { lower_char_exec(a.get_char(i)) } else { a.get_char(i) };
        let bc = if ci { lower_char_exec(b.get_char(i)) } else { b.get_char(i) };
        if ac != bc {
            proof {
                lemma_str_cmp_map_skip(a@, b@, f, i as int);
                assert(a@.skip(i as int)[0] == a@[i as int]);
                assert(b@.skip(i as int)[0] == b@[i as int]);
            }
            if (ac as u32) < (bc as u32) {
                return Ordering::Less;
            } else {
                return Ordering::Greater;
            }
        }
        i = i + 1;
    }
    proof {
        lemma_str_cmp_map_skip(a@, b@, f, common as int);
        assert(a@.skip(common as int).len() == alen - common);
        assert(b@.skip(common as int).len() == blen - common);
    }
    if alen == blen {
        Ordering::Equal
    } else if alen < blen {
        Ordering::Less
    } else {
        Ordering::Greater
    }
}

/// The characters treated as trimmable whitespace around parameter keys and
/// values: ASCII space and the ASCII control whitespace characters.
pub open spec fn is_space(c: char) -> bool {
    c == ' ' || c == '\t' || c == '\n' || c == '\r' || c == '\u{b}' || c == '\u{c}'
}

/// Whether `c` counts as trimmable whitespace.
pub fn is_space_exec(c: char) -> (r: bool)
    ensures
        r == is_space(c),
{
    c == ' ' || c == '\t' || c == '\n' || c == '\r' || c == '\u{b}' || c == '\u{c}'
}

/// Drop leading whitespace.
pub open spec fn trim_start(s: Seq<char>) -> Seq<char>
    decreases s.len(),
{
    if s.len() > 0 && is_space(s[0]) {
        trim_start(s.drop_first())
    } else {
        s
    }
}

/// Drop trailing whitespace.
pub open spec fn trim_end(s: Seq<char>) -> Seq<char>
    decreases s.len(),
{
    if s.len() > 0 && is_space(s.last()) {
        trim_end(s.drop_last())
    } else {
        s
    }
}

/// Drop whitespace from both ends.
pub open spec fn trim(s: Seq<char>) -> Seq<char> {
    trim_end(trim_start(s))
}

/// `trim_start` keeps the suffix that begins at the first non-space character.
pub proof fn lemma_trim_start_is(s: Seq<char>, k: int)
    requires
        0 <= k <= s.len(),
        forall|j: int| 0 <= j < k ==> is_space(s[j]),
        k == s.len() || !is_space(s[k]),
    ensures
        trim_start(s) == s.skip(k),
    decreases k,
{
    if k == 0 {
        assert(s.skip(0) =~= s);
    } else {
        lemma_trim_start_is(s.drop_first(), k - 1);
        assert(forall|j: int| 0 <= j < s.len() - 1 ==> s.drop_first()[j] == s[j + 1]);
        assert(s.drop_first().skip(k - 1) =~= s.skip(k));
    }
}

/// `trim_end` keeps the prefix that ends at the last non-space character.
pub proof fn lemma_trim_end_is(s: Seq<char>, k: int)
    requires
        0 <= k <= s.len(),
        forall|j: int| k <= j < s.len() ==> is_space(s[j]),
        k == 0 || !is_space(s[k - 1]),
    ensures
        trim_end(s) == s.take(k),
    decreases s.len() - k,
{
    if k == s.len() {
        assert(s.take(k) =~= s);
    } else {
        lemma_trim_end_is(s.drop_last(), k);
        assert(s.drop_last().take(k) =~= s.take(k));
    }
}

/// Slice of `s` with whitespace removed from both ends.
pub fn trim_str<'a>(s: &'a str) -> (r: &'a str)
    ensures
        r@ == trim(s@),
{
    let len = s.unicode_len();
    let mut a: usize = 0;
    while a < len && is_space_exec(s.get_char(a))
        invariant
            len == s@.len(),
            0 <= a <= len,
            forall|j: int| 0 <= j < a ==> is_space(s@[j]),
        decreases len - a,
    {
        a = a + 1;
    }
    proof {
        lemma_trim_start_is(s@, a as int);
    }
    if a == len {
        let r = s.substring_char(len, len);
        proof {
            assert(s@.skip(len as int) =~= s@.subrange(len as int, len as int));
            assert(trim_end(s@.skip(len as int)) == s@.skip(len as int));
        }
        return r;
    }
    let mut b: usize = len;
    while b > a && is_space_exec(s.get_char(b - 1))
        invariant
            len == s@.len(),
            0 <= a <= b <= len,
            forall|j: int| b <= j < len ==> is_space(s@[j]),
        decreases b,
    {
        b = b - 1;
    }
    proof {
        let tail = s@.skip(a as int);
        assert(forall|j: int| 0 <= j < tail.len() ==> tail[j] == s@[j + a]);
        if b == a {
            assert(!is_space(s@[a as int]));
            assert(is_space(s@[a as int]));
        }
        lemma_trim_end_is(tail, b - a);
        assert(tail.take(b - a) =~= s@.subrange(a as int, b as int));
    }
    s.substring_char(a, b)
}

/// Split `s` at every occurrence of `sep`; always yields at least one
/// (possibly empty) segment, and one more segment per separator.
pub open spec fn split_char(s: Seq<char>, sep: char) -> Seq<Seq<char>>
    decreases s.len(),
{
    if s.len() == 0 {
        seq![Seq::<char>::empty()]
    } else if s[0] == sep {
        seq![Seq::<char>::empty()].add(split_char(s.drop_first(), sep))
    } else {
        let rest = split_char(s.drop_first(), sep);
        seq![seq![s[0]].add(rest[0])].add(rest.drop_first())
    }
}

pub proof fn lemma_split_char_len(s: Seq<char>, sep: char)
    ensures
        split_char(s, sep).len() >= 1,
    decreases s.len(),
{
    if s.len() > 0 {
        lemma_split_char_len(s.drop_first(), sep);
    }
}

/// A sequence without the separator is a single segment.
pub proof fn lemma_split_char_no_sep(s: Seq<char>, sep: char)
    requires
        forall|j: int| 0 <= j < s.len() ==> s[j] != sep,
    ensures
        split_char(s, sep) == seq![s],
    decreases s.len(),
{
    if s.len() == 0 {
        assert(s =~= Seq::<char>::empty());
        assert(split_char(s, sep) =~= seq![s]);
    } else {
        assert(forall|j: int| 0 <= j < s.len() - 1 ==> s.drop_first()[j] == s[j + 1]);
        lemma_split_char_no_sep(s.drop_first(), sep);
        let rest = split_char(s.drop_first(), sep);
        assert(rest == seq![s.drop_first()]);
        assert(seq![s[0]].add(rest[0]) =~= s);
        assert(rest.drop_first() =~= Seq::<Seq<char>>::empty());
        assert(split_char(s, sep) =~= seq![s]);
    }
}

/// Splitting at the first separator peels off the leading segment.
pub proof fn lemma_split_char_peel(s: Seq<char>, sep: char, i: int)
    requires
        0 <= i < s.len(),
        s[i] == sep,
        forall|j: int| 0 <= j < i ==> s[j] != sep,
    ensures
        split_char(s, sep) == seq![s.take(i)].add(split_char(s.skip(i + 1), sep)),
    decreases i,
{
    if i == 0 {
        assert(s.take(0) =~= Seq::<char>::empty());
        assert(s.drop_first() =~= s.skip(1));
    } else {
        assert(forall|j: int| 0 <= j < s.len() - 1 ==> s.drop_first()[j] == s[j + 1]);
        lemma_split_char_peel(s.drop_first(), sep, i - 1);
        let rest = split_char(s.drop_first(), sep);
        lemma_split_char_len(s.drop_first().skip(i), sep);
        assert(rest == seq![s.drop_first().take(i - 1)].add(
            split_char(s.drop_first().skip(i), sep)));
        assert(rest[0] == s.drop_first().take(i - 1));
        assert(seq![s[0]].add(rest[0]) =~= s.take(i));
        assert(s.drop_first().skip(i) =~= s.skip(i + 1));
        assert(rest.drop_first() =~= split_char(s.skip(i + 1), sep));
        assert(split_char(s, sep) =~= seq![s.take(i)].add(split_char(s.skip(i + 1), sep)));
    }
}

/// One raw parameter segment, split once at the first `=` and trimmed: the
/// part before the `=` is the key, the part after it the value.  A segment
/// without `=` yields the whole (trimmed) segment as key and an empty value.
pub open spec fn param_of(seg: Seq<char>) -> (Seq<char>, Seq<char>) {
    match find_char(seg, '=') {
        Some(i) => (trim(seg.take(i)), trim(seg.skip(i + 1))),
        None => (trim(seg), Seq::<char>::empty()),
    }
}

/// The parameter pairs encoded by the text that follows the first semicolon:
/// one pair per `;`-separated segment.
pub open spec fn params_of_text(rest: Seq<char>) -> Seq<(Seq<char>, Seq<char>)> {
    split_char(rest, ';').map_values(|seg: Seq<char>| param_of(seg))
}

/// Split one parameter segment into its trimmed key and value.
pub fn split_param_segment<'a>(seg: &'a str) -> (r: (&'a str, &'a str))
    ensures
        (r.0@, r.1@) == param_of(seg@),
{
    let len = seg.unicode_len();
    let eq = find_char_from(seg, '=', 0);
    match eq {
        Some(i) => {
            proof {
                lemma_find_char_is(seg@, '=', Some(i as int));
            }
            let key = trim_str(seg.substring_char(0, i));
            let value = trim_str(seg.substring_char(i + 1, len));
            proof {
                assert(seg@.subrange(0, i as int) =~= seg@.take(i as int));
                assert(seg@.subrange(i + 1, len as int) =~= seg@.skip(i + 1));
            }
            (key, value)
        },
        None => {
            proof {
                lemma_find_char_is(seg@, '=', None);
            }
            let key = trim_str(seg);
            proof {
                reveal_strlit("");
                assert(""@ =~= Seq::<char>::empty());
            }
            (key, "")
        },
    }
}

} // verus!
