//! Character-sequence utilities: conversions between `str` and `Vec<char>`,
//! trimming, prefix tests, joining, and decimal formatting and parsing of
//! integers. All specifications are stated over `Seq<char>`.
use vstd::prelude::*;

verus! {

/// Relies on `str::chars` (std): yields the characters of the string in order.
#[verifier::external_body]
pub fn chars_of(s: &str) -> (r: Vec<char>)
    ensures
        r@ == s@,
{
    s.chars().collect()
}

/// Relies on `FromIterator<char> for String` (std): collecting characters
/// builds the string of exactly those characters in order.
#[verifier::external_body]
pub fn string_of(v: &Vec<char>) -> (r: String)
    ensures
        r@ == v@,
{
    v.iter().collect()
}

/// The characters `str::trim` strips: those with the Unicode `White_Space`
/// property.
pub open spec fn is_space_c(c: char) -> bool {
    c == ' ' || c == '\t' || c == '\n' || c == '\r' || c == '\u{b}' || c == '\u{c}' || c
        == '\u{85}' || c == '\u{a0}' || c == '\u{1680}' || (0x2000 <= c as u32 <= 0x200a) || c
        == '\u{2028}' || c == '\u{2029}' || c == '\u{202f}' || c == '\u{205f}' || c == '\u{3000}'
}

pub fn is_space(c: char) -> (r: bool)
    ensures
        r == is_space_c(c),
{
    let u = c as u32;
    c == ' ' || c == '\t' || c == '\n' || c == '\r' || c == '\u{b}' || c == '\u{c}' || c
        == '\u{85}' || c == '\u{a0}' || c == '\u{1680}' || (0x2000 <= u && u <= 0x200a) || c
        == '\u{2028}' || c == '\u{2029}' || c == '\u{202f}' || c == '\u{205f}' || c == '\u{3000}'
}

pub open spec fn trim_front(s: Seq<char>) -> Seq<char>
    decreases s.len(),
{
    if s.len() > 0 && is_space_c(s[0]) {
        trim_front(s.drop_first())
    } else {
        s
    }
}

pub open spec fn trim_back(s: Seq<char>) -> Seq<char>
    decreases s.len(),
{
    if s.len() > 0 && is_space_c(s.last()) {
        trim_back(s.drop_last())
    } else {
        s
    }
}

/// What `str::trim` leaves of `s`: both ends stripped of whitespace.
pub open spec fn trim_view(s: Seq<char>) -> Seq<char> {
    trim_back(trim_front(s))
}

proof fn lemma_trim_front_subrange(s: Seq<char>, i: int)
    requires
        0 <= i <= s.len(),
        forall|j: int| 0 <= j < i ==> is_space_c(s[j]),
        i < s.len() ==> !is_space_c(s[i]),
    ensures
        trim_front(s) == s.subrange(i, s.len() as int),
    decreases i,
{
    if i == 0 {
        assert(s.subrange(0, s.len() as int) =~= s);
    } else {
        assert(is_space_c(s[0]));
        lemma_trim_front_subrange(s.drop_first(), i - 1);
        assert(s.drop_first().subrange(i - 1, s.drop_first().len() as int) =~= s.subrange(
            i,
            s.len() as int,
        ));
    }
}

proof fn lemma_trim_back_subrange(s: Seq<char>, i: int)
    requires
        0 <= i <= s.len(),
        forall|j: int| i <= j < s.len() ==> is_space_c(s[j]),
        i > 0 ==> !is_space_c(s[i - 1]),
    ensures
        trim_back(s) == s.subrange(0, i),
    decreases s.len() - i,
{
    if i == s.len() {
        assert(s.subrange(0, s.len() as int) =~= s);
    } else {
        assert(is_space_c(s.last()));
        lemma_trim_back_subrange(s.drop_last(), i);
        assert(s.drop_last().subrange(0, i) =~= s.subrange(0, i));
    }
}

/// Both ends of `v` stripped of whitespace, as `str::trim` does.
pub fn trim_vec(v: &Vec<char>) -> (r: Vec<char>)
    ensures
        r@ == trim_view(v@),
{
    let mut lo: usize = 0;
    while lo < v.len() && is_space(v[lo])
        invariant
            0 <= lo <= v@.len(),
            forall|j: int| 0 <= j < lo ==> is_space_c(v@[j]),
        decreases v@.len() - lo,
    {
        lo = lo + 1;
    }
    let mut hi: usize = v.len();
    while hi > lo && is_space(v[hi - 1])
        invariant
            lo <= hi <= v@.len(),
            forall|j: int| 0 <= j < lo ==> is_space_c(v@[j]),
            lo < v@.len() ==> !is_space_c(v@[lo as int]),
            forall|j: int| hi <= j < v@.len() ==> is_space_c(v@[j]),
        decreases hi,
    {
        hi = hi - 1;
    }
    let mut r: Vec<char> = Vec::new();
    let mut i: usize = lo;
    while i < hi
        invariant
            lo <= i <= hi <= v@.len(),
            r@ == v@.subrange(lo as int, i as int),
        decreases hi - i,
    {
        r.push(v[i]);
        assert(r@ =~= v@.subrange(lo as int, i + 1));
        i = i + 1;
    }
    proof {
        lemma_trim_front_subrange(v@, lo as int);
        let f = v@.subrange(lo as int, v@.len() as int);
        if hi == lo {
            lemma_trim_back_subrange(f, 0);
        } else {
            lemma_trim_back_subrange(f, hi - lo);
        }
        assert(f.subrange(0, hi - lo) =~= v@.subrange(lo as int, hi as int));
    }
    r
}

/// `p` is a prefix of `s`.
pub open spec fn has_prefix_s(s: Seq<char>, p: Seq<char>) -> bool {
    p.len() <= s.len() && s.subrange(0, p.len() as int) == p
}

/// `p` is a suffix of `s`.
pub open spec fn has_suffix_s(s: Seq<char>, p: Seq<char>) -> bool {
    p.len() <= s.len() && s.subrange(s.len() - p.len(), s.len() as int) == p
}

pub fn eq_chars(a: &Vec<char>, b: &Vec<char>) -> (r: bool)
    ensures
        r == (a@ == b@),
{
    if a.len() != b.len() {
        return false;
    }
    let mut i: usize = 0;
    while i < a.len()
        invariant
            0 <= i <= a@.len(),
            a@.len() == b@.len(),
            forall|j: int| 0 <= j < i ==> a@[j] == b@[j],
        decreases a@.len() - i,
    {
        if a[i] != b[i] {
            return false;
        }
        i = i + 1;
    }
    proof {
        assert(a@ =~= b@);
    }
    true
}

pub fn eq_lit(a: &Vec<char>, s: &str) -> (r: bool)
    ensures
        r == (a@ == s@),
{
    let b = chars_of(s);
    eq_chars(a, &b)
}

pub fn has_prefix(v: &Vec<char>, p: &str) -> (r: bool)
    ensures
        r == has_prefix_s(v@, p@),
{
    let pc = chars_of(p);
    if pc.len() > v.len() {
        return false;
    }
    let mut i: usize = 0;
    while i < pc.len()
        invariant
            0 <= i <= pc@.len() <= v@.len(),
            pc@ == p@,
            forall|j: int| 0 <= j < i ==> v@[j] == pc@[j],
        decreases pc@.len() - i,
    {
        if v[i] != pc[i] {
            assert(v@.subrange(0, p@.len() as int) != p@);
            return false;
        }
        i = i + 1;
    }
    proof {
        assert(v@.subrange(0, p@.len() as int) =~= p@);
    }
    true
}

pub fn has_suffix(v: &Vec<char>, p: &str) -> (r: bool)
    ensures
        r == has_suffix_s(v@, p@),
{
    let pc = chars_of(p);
    let n = v.len();
    let m = pc.len();
    if m > n {
        return false;
    }
    let off: usize = n - m;
    let mut i: usize = 0;
    while i < pc.len()
        invariant
            0 <= i <= m,
            m <= n,
            n == v@.len(),
            m == pc@.len(),
            off == n - m,
            pc@ == p@,
            forall|j: int| 0 <= j < i ==> v@[off + j] == pc@[j],
        decreases pc@.len() - i,
    {
        if v[off + i] != pc[i] {
            assert(v@.subrange(v@.len() - p@.len(), v@.len() as int)[i as int] != p@[i as int]);
            return false;
        }
        i = i + 1;
    }
    proof {
        assert(v@.subrange(v@.len() - p@.len(), v@.len() as int) =~= p@);
    }
    true
}

/// Copy of `v[i..j]`.
pub fn subvec(v: &Vec<char>, i: usize, j: usize) -> (r: Vec<char>)
    requires
        i <= j <= v@.len(),
    ensures
        r@ == v@.subrange(i as int, j as int),
{
    let mut r: Vec<char> = Vec::new();
    let mut k: usize = i;
    while k < j
        invariant
            i <= k <= j <= v@.len(),
            r@ == v@.subrange(i as int, k as int),
        decreases j - k,
    {
        r.push(v[k]);
        assert(r@ =~= v@.subrange(i as int, k + 1));
        k = k + 1;
    }
    r
}

/// First index of `c` in `s`, if any.
pub open spec fn find_c(s: Seq<char>, c: char) -> Option<int>
    decreases s.len(),
{
    if s.len() == 0 {
        None
    } else if s[0] == c {
        Some(0int)
    } else {
        match find_c(s.drop_first(), c) {
            Some(i) => Some(i + 1),
            None => None,
        }
    }
}

proof fn lemma_find_c(s: Seq<char>, c: char)
    ensures
        match find_c(s, c) {
            Some(i) => 0 <= i < s.len() && s[i] == c && forall|j: int| 0 <= j < i ==> s[j] != c,
            None => forall|j: int| 0 <= j < s.len() ==> s[j] != c,
        },
    decreases s.len(),
{
    if s.len() > 0 {
        lemma_find_c(s.drop_first(), c);
        if s[0] != c {
            match find_c(s, c) {
                Some(i) => {
                    assert forall|j: int| 0 <= j < i implies s[j] != c by {
                        if j > 0 {
                            assert(s.drop_first()[j - 1] == s[j]);
                        }
                    }
                },
                None => {
                    assert forall|j: int| 0 <= j < s.len() implies s[j] != c by {
                        if j > 0 {
                            assert(s.drop_first()[j - 1] == s[j]);
                        }
                    }
                },
            }
        }
    }
}

/// The properties of [`find_c`]: the first occurrence, and occurrence as
/// such.
pub proof fn lemma_find_c_pub(s: Seq<char>, c: char)
    ensures
        (find_c(s, c) is Some) <==> s.contains(c),
        match find_c(s, c) {
            Some(i) => 0 <= i < s.len() && s[i] == c && forall|j: int| 0 <= j < i ==> s[j] != c,
            None => forall|j: int| 0 <= j < s.len() ==> s[j] != c,
        },
{
    lemma_find_c(s, c);
    match find_c(s, c) {
        Some(i) => {
            assert(s.contains(c)) by {
                assert(s[i] == c);
            }
        },
        None => {
            if s.contains(c) {
                let i = choose|i: int| 0 <= i < s.len() && s[i] == c;
                assert(s[i] == c);
            }
        },
    }
}

pub fn find_char(v: &Vec<char>, c: char) -> (r: Option<usize>)
    ensures
        match r {
            Some(i) => find_c(v@, c) == Some(i as int),
            None => find_c(v@, c) is None,
        },
{
    proof {
        lemma_find_c(v@, c);
    }
    let mut i: usize = 0;
    while i < v.len()
        invariant
            0 <= i <= v@.len(),
            forall|j: int| 0 <= j < i ==> v@[j] != c,
        decreases v@.len() - i,
    {
        if v[i] == c {
            proof {
                lemma_find_c_from(v@, c, i as int);
            }
            return Some(i);
        }
        i = i + 1;
    }
    None
}

proof fn lemma_find_c_from(s: Seq<char>, c: char, i: int)
    requires
        0 <= i < s.len(),
        s[i] == c,
        forall|j: int| 0 <= j < i ==> s[j] != c,
    ensures
        find_c(s, c) == Some(i),
    decreases s.len(),
{
    if i > 0 {
        lemma_find_c_from(s.drop_first(), c, i - 1);
    }
}

/// Last index of `c` in `s`, if any.
pub open spec fn rfind_c(s: Seq<char>, c: char) -> Option<int>
    decreases s.len(),
{
    if s.len() == 0 {
        None
    } else if s.last() == c {
        Some(s.len() - 1)
    } else {
        rfind_c(s.drop_last(), c)
    }
}

proof fn lemma_rfind_c_from(s: Seq<char>, c: char, i: int)
    requires
        0 <= i < s.len(),
        s[i] == c,
        forall|j: int| i < j < s.len() ==> s[j] != c,
    ensures
        rfind_c(s, c) == Some(i),
    decreases s.len(),
{
    if i < s.len() - 1 {
        lemma_rfind_c_from(s.drop_last(), c, i);
    }
}

proof fn lemma_rfind_c_none(s: Seq<char>, c: char)
    requires
        forall|j: int| 0 <= j < s.len() ==> s[j] != c,
    ensures
        rfind_c(s, c) is None,
    decreases s.len(),
{
    if s.len() > 0 {
        lemma_rfind_c_none(s.drop_last(), c);
    }
}

proof fn lemma_rfind_c(s: Seq<char>, c: char)
    ensures
        match rfind_c(s, c) {
            Some(i) => 0 <= i < s.len() && s[i] == c && forall|j: int|
                i < j < s.len() ==> s[j] != c,
            None => forall|j: int| 0 <= j < s.len() ==> s[j] != c,
        },
    decreases s.len(),
{
    if s.len() > 0 && s.last() != c {
        lemma_rfind_c(s.drop_last(), c);
        assert forall|j: int| 0 <= j < s.len() - 1 implies s.drop_last()[j] == s[j] by {}
    }
}

/// The properties of [`rfind_c`]: the last occurrence, and occurrence as
/// such.
pub proof fn lemma_rfind_c_pub(s: Seq<char>, c: char)
    ensures
        match rfind_c(s, c) {
            Some(i) => 0 <= i < s.len() && s[i] == c && forall|j: int|
                i < j < s.len() ==> s[j] != c,
            None => forall|j: int| 0 <= j < s.len() ==> s[j] != c,
        },
{
    lemma_rfind_c(s, c);
}

pub fn rfind_char(v: &Vec<char>, c: char) -> (r: Option<usize>)
    ensures
        match r {
            Some(i) => rfind_c(v@, c) == Some(i as int),
            None => rfind_c(v@, c) is None,
        },
{
    let mut i: usize = v.len();
    while i > 0
        invariant
            0 <= i <= v@.len(),
            forall|j: int| i <= j < v@.len() ==> v@[j] != c,
        decreases i,
    {
        i = i - 1;
        if v[i] == c {
            proof {
                lemma_rfind_c_from(v@, c, i as int);
            }
            return Some(i);
        }
    }
    proof {
        lemma_rfind_c_none(v@, c);
    }
    None
}

/// The views of a sequence of character vectors.
pub open spec fn vv(vs: Seq<Vec<char>>) -> Seq<Seq<char>> {
    vs.map_values(|v: Vec<char>| v@)
}

/// The views of a sequence of strings.
pub open spec fn sv(vs: Seq<String>) -> Seq<Seq<char>> {
    vs.map_values(|s: String| s@)
}

/// The parts joined with `d` between consecutive parts.
pub open spec fn join_with(parts: Seq<Seq<char>>, d: Seq<char>) -> Seq<char>
    decreases parts.len(),
{
    if parts.len() == 0 {
        Seq::empty()
    } else if parts.len() == 1 {
        parts[0]
    } else {
        parts[0] + d + join_with(parts.drop_first(), d)
    }
}

/// Append `s` to `out`.
pub fn push_lit(out: &mut Vec<char>, s: &str)
    ensures
        final(out)@ == old(out)@ + s@,
{
    let v = chars_of(s);
    out.extend_from_slice(v.as_slice());
}

/// Append `v` to `out`.
pub fn push_vec(out: &mut Vec<char>, v: &Vec<char>)
    ensures
        final(out)@ == old(out)@ + v@,
{
    out.extend_from_slice(v.as_slice());
}

/// `parts[from..to]` joined with `d`.
pub fn join_range(parts: &Vec<Vec<char>>, from: usize, to: usize, d: &Vec<char>) -> (r: Vec<char>)
    requires
        from <= to <= parts@.len(),
    ensures
        r@ == join_with(vv(parts@).subrange(from as int, to as int), d@),
    decreases to - from,
{
    let mut r: Vec<char> = Vec::new();
    if from >= to {
        assert(vv(parts@).subrange(from as int, to as int).len() == 0);
        return r;
    }
    push_vec(&mut r, &parts[from]);
    if from + 1 < to {
        push_vec(&mut r, d);
        let rest = join_range(parts, from + 1, to, d);
        push_vec(&mut r, &rest);
    }
    proof {
        let pv = vv(parts@);
        let sub = pv.subrange(from as int, to as int);
        assert(sub[0] == pv[from as int]);
        if from + 1 < to {
            assert(sub.drop_first() =~= pv.subrange(from + 1, to as int));
            assert(r@ =~= sub[0] + d@ + join_with(sub.drop_first(), d@));
        } else {
            assert(sub.len() == 1);
            assert(r@ =~= Seq::empty().add(pv[from as int]));
            assert(r@ =~= sub[0]);
        }
    }
    r
}

/// `parts[from..]` joined with `d`.
pub fn join_from(parts: &Vec<Vec<char>>, from: usize, d: &Vec<char>) -> (r: Vec<char>)
    requires
        from <= parts@.len(),
    ensures
        r@ == join_with(vv(parts@).subrange(from as int, parts@.len() as int), d@),
{
    join_range(parts, from, parts.len(), d)
}

/// Total length of the parts.
pub open spec fn sum_lens(parts: Seq<Seq<char>>) -> nat
    decreases parts.len(),
{
    if parts.len() == 0 {
        0
    } else {
        parts[0].len() + sum_lens(parts.drop_first())
    }
}

pub proof fn lemma_sum_lens_push(parts: Seq<Seq<char>>, t: Seq<char>)
    ensures
        sum_lens(parts.push(t)) == sum_lens(parts) + t.len(),
    decreases parts.len(),
{
    assert(parts.push(t)[0] == if parts.len() == 0 {
        t
    } else {
        parts[0]
    });
    assert(parts.push(t).len() == parts.len() + 1);
    assert(sum_lens(parts.push(t)) == parts.push(t)[0].len() + sum_lens(
        parts.push(t).drop_first(),
    ));
    if parts.len() == 0 {
        assert(parts.push(t).drop_first() =~= Seq::<Seq<char>>::empty());
        assert(sum_lens(parts.push(t).drop_first()) == 0);
    } else {
        assert(parts.push(t).drop_first() =~= parts.drop_first().push(t));
        lemma_sum_lens_push(parts.drop_first(), t);
        assert(sum_lens(parts.push(t).drop_first()) == sum_lens(parts.drop_first()) + t.len());
        assert(sum_lens(parts) == parts[0].len() + sum_lens(parts.drop_first()));
    }
}

pub proof fn lemma_sum_lens_each(parts: Seq<Seq<char>>)
    ensures
        forall|i: int| 0 <= i < parts.len() ==> (#[trigger] parts[i]).len() <= sum_lens(parts),
    decreases parts.len(),
{
    if parts.len() > 0 {
        lemma_sum_lens_each(parts.drop_first());
        assert forall|i: int| 0 <= i < parts.len() implies (#[trigger] parts[i]).len() <= sum_lens(
            parts,
        ) by {
            if i > 0 {
                assert(parts.drop_first()[i - 1] == parts[i]);
            }
        }
    }
}

pub proof fn lemma_sum_lens_split(parts: Seq<Seq<char>>, m: int)
    requires
        0 <= m <= parts.len(),
    ensures
        sum_lens(parts) == sum_lens(parts.subrange(0, m)) + sum_lens(
            parts.subrange(m, parts.len() as int),
        ),
    decreases m,
{
    if m == 0 {
        assert(parts.subrange(0, 0) =~= Seq::<Seq<char>>::empty());
        assert(parts.subrange(0, parts.len() as int) =~= parts);
    } else {
        lemma_sum_lens_split(parts.drop_first(), m - 1);
        assert(parts.drop_first().subrange(0, m - 1) =~= parts.subrange(0, m).drop_first());
        assert(parts.drop_first().subrange(m - 1, parts.drop_first().len() as int) =~= parts
            .subrange(m, parts.len() as int));
        assert(sum_lens(parts.subrange(0, m)) == parts[0].len() + sum_lens(
            parts.subrange(0, m).drop_first(),
        )) by {
            assert(parts.subrange(0, m)[0] == parts[0]);
        }
    }
}

pub proof fn lemma_join_len(parts: Seq<Seq<char>>, d: Seq<char>)
    ensures
        parts.len() == 0 ==> join_with(parts, d).len() == 0,
        parts.len() >= 1 ==> join_with(parts, d).len() == sum_lens(parts) + (parts.len() - 1)
            * d.len(),
    decreases parts.len(),
{
    if parts.len() == 1 {
        assert(parts.drop_first() =~= Seq::<Seq<char>>::empty());
        assert(sum_lens(parts) == parts[0].len() + sum_lens(parts.drop_first()));
        assert(join_with(parts, d) == parts[0]);
    } else if parts.len() > 1 {
        lemma_join_len(parts.drop_first(), d);
        assert(join_with(parts, d) == parts[0] + d + join_with(parts.drop_first(), d));
        assert(sum_lens(parts) == parts[0].len() + sum_lens(parts.drop_first()));
        assert((parts.len() - 1) * d.len() == (parts.len() - 2) * d.len() + d.len())
            by (nonlinear_arith)
            requires
                parts.len() > 1,
        ;
    }
}

pub proof fn lemma_trim_front_len(s: Seq<char>)
    ensures
        trim_front(s).len() <= s.len(),
    decreases s.len(),
{
    if s.len() > 0 && is_space_c(s[0]) {
        lemma_trim_front_len(s.drop_first());
    }
}

pub proof fn lemma_trim_back_len(s: Seq<char>)
    ensures
        trim_back(s).len() <= s.len(),
    decreases s.len(),
{
    if s.len() > 0 && is_space_c(s.last()) {
        lemma_trim_back_len(s.drop_last());
    }
}

/// Trimming never lengthens a string.
pub proof fn lemma_trim_len(s: Seq<char>)
    ensures
        trim_view(s).len() <= s.len(),
{
    lemma_trim_front_len(s);
    lemma_trim_back_len(trim_front(s));
}

/// The decimal digit character for `d` (which must be below ten).
pub open spec fn digit_char(d: nat) -> char {
    if d == 0 {
        '0'
    } else if d == 1 {
        '1'
    } else if d == 2 {
        '2'
    } else if d == 3 {
        '3'
    } else if d == 4 {
        '4'
    } else if d == 5 {
        '5'
    } else if d == 6 {
        '6'
    } else if d == 7 {
        '7'
    } else if d == 8 {
        '8'
    } else {
        '9'
    }
}

/// The decimal representation of `n`, without sign and without leading zeros
/// (a single `0` for zero).
pub open spec fn dec_nat(n: nat) -> Seq<char>
    decreases n,
{
    if n < 10 {
        seq![digit_char(n)]
    } else {
        dec_nat(n / 10).push(digit_char(n % 10))
    }
}

/// The decimal representation of `v`, with a leading `-` when negative.
pub open spec fn dec_int(v: int) -> Seq<char> {
    if v < 0 {
        seq!['-'] + dec_nat((-v) as nat)
    } else {
        dec_nat(v as nat)
    }
}

fn digit_of(d: u128) -> (c: char)
    requires
        d < 10,
    ensures
        c == digit_char(d as nat),
{
    if d == 0 {
        '0'
    } else if d == 1 {
        '1'
    } else if d == 2 {
        '2'
    } else if d == 3 {
        '3'
    } else if d == 4 {
        '4'
    } else if d == 5 {
        '5'
    } else if d == 6 {
        '6'
    } else if d == 7 {
        '7'
    } else if d == 8 {
        '8'
    } else {
        '9'
    }
}

/// The decimal digits of `n`.
pub fn fmt_u128(n: u128) -> (r: Vec<char>)
    ensures
        r@ == dec_nat(n as nat),
    decreases n,
{
    if n < 10 {
        let c = digit_of(n);
        let mut r: Vec<char> = Vec::new();
        r.push(c);
        assert(r@ =~= seq![digit_char(n as nat)]);
        r
    } else {
        assert(n / 10 < n && n / 10 >= 1) by (nonlinear_arith)
            requires
                n >= 10,
        ;
        let mut r = fmt_u128(n / 10);
        let c = digit_of(n % 10);
        r.push(c);
        r
    }
}

/// The decimal text of `v`, as `i64` formatting writes it.
pub fn fmt_i64(v: i64) -> (r: Vec<char>)
    ensures
        r@ == dec_int(v as int),
{
    if v < 0 {
        let m: u128 = (-(v as i128)) as u128;
        let mut r: Vec<char> = Vec::new();
        r.push('-');
        let digits = fmt_u128(m);
        push_vec(&mut r, &digits);
        assert(r@ =~= seq!['-'] + dec_nat(m as nat));
        r
    } else {
        fmt_u128(v as u128)
    }
}

/// The decimal text of `n`.
pub fn fmt_usize(n: usize) -> (r: Vec<char>)
    ensures
        r@ == dec_nat(n as nat),
{
    fmt_u128(n as u128)
}

pub open spec fn is_digit_c(c: char) -> bool {
    48 <= c as u32 <= 57
}

pub open spec fn digit_val(c: char) -> nat {
    (c as u32 - 48) as nat
}

pub open spec fn all_digits(s: Seq<char>) -> bool {
    forall|i: int| 0 <= i < s.len() ==> is_digit_c(s[i])
}

/// The value of a string of decimal digits.
pub open spec fn digits_val(s: Seq<char>) -> nat
    decreases s.len(),
{
    if s.len() == 0 {
        0
    } else {
        digits_val(s.drop_last()) * 10 + digit_val(s.last())
    }
}

/// What `str::parse::<i64>` accepts: an optional sign followed by at least
/// one digit, denoting a value in range.
pub open spec fn spec_parse_i64(s: Seq<char>) -> Option<i64> {
    if s.len() == 0 {
        None
    } else {
        let body = if s[0] == '+' || s[0] == '-' {
            s.drop_first()
        } else {
            s
        };
        if body.len() == 0 || !all_digits(body) {
            None
        } else {
            let m = digits_val(body);
            if s[0] == '-' {
                if m <= 0x8000000000000000 {
                    Some((-(m as int)) as i64)
                } else {
                    None
                }
            } else {
                if m <= 0x7fffffffffffffff {
                    Some(m as i64)
                } else {
                    None
                }
            }
        }
    }
}

proof fn lemma_digits_val_prefix_grows(s: Seq<char>, i: int)
    requires
        0 <= i <= s.len(),
    ensures
        digits_val(s) >= digits_val(s.subrange(0, i)),
    decreases s.len() - i,
{
    if i < s.len() {
        lemma_digits_val_prefix_grows(s, i + 1);
        let a = s.subrange(0, i);
        let b = s.subrange(0, i + 1);
        assert(b.drop_last() =~= a);
        assert(digits_val(b) == digits_val(a) * 10 + digit_val(b.last()));
        assert(digits_val(a) * 10 >= digits_val(a)) by (nonlinear_arith);
    } else {
        assert(s.subrange(0, s.len() as int) =~= s);
    }
}

fn parse_digits(v: &Vec<char>, from: usize) -> (r: Option<u128>)
    requires
        from < v@.len(),
    ensures
        ({
            let body = v@.subrange(from as int, v@.len() as int);
            match r {
                Some(m) => all_digits(body) && m as nat == digits_val(body) && m
                    <= 0x8000000000000000,
                None => !all_digits(body) || digits_val(body) > 0x8000000000000000,
            }
        }),
{
    let mut acc: u128 = 0;
    let mut i: usize = from;
    while i < v.len()
        invariant
            from <= i <= v@.len(),
            acc <= 0x8000000000000000,
            all_digits(v@.subrange(from as int, i as int)),
            acc as nat == digits_val(v@.subrange(from as int, i as int)),
        decreases v@.len() - i,
    {
        let c = v[i];
        let cu = c as u32;
        if !(48 <= cu && cu <= 57) {
            proof {
                let body = v@.subrange(from as int, v@.len() as int);
                assert(body[i - from] == v@[i as int]);
                assert(!is_digit_c(body[i - from]));
            }
            return None;
        }
        if acc > 0x0ccccccccccccccc {
            // any further digit pushes the value past the largest magnitude
            proof {
                let body = v@.subrange(from as int, v@.len() as int);
                let pre = v@.subrange(from as int, i + 1);
                assert(pre.drop_last() =~= v@.subrange(from as int, i as int));
                assert(digits_val(pre) == acc * 10 + digit_val(v@[i as int]));
                assert(acc * 10 >= 0x0ccccccccccccccd * 10) by (nonlinear_arith)
                    requires
                        acc >= 0x0ccccccccccccccd,
                ;
                assert(body.subrange(0, (i + 1 - from) as int) =~= pre);
                lemma_digits_val_prefix_grows(body, i + 1 - from);
            }
            return None;
        }
        let d = (cu - 48) as u128;
        proof {
            let pre = v@.subrange(from as int, i + 1);
            assert(pre.drop_last() =~= v@.subrange(from as int, i as int));
        }
        acc = acc * 10 + d;
        if acc > 0x8000000000000000 {
            proof {
                let body = v@.subrange(from as int, v@.len() as int);
                assert(body.subrange(0, (i + 1 - from) as int) =~= v@.subrange(from as int, i + 1));
                lemma_digits_val_prefix_grows(body, i + 1 - from);
            }
            return None;
        }
        i = i + 1;
    }
    proof {
        assert(v@.subrange(from as int, i as int) =~= v@.subrange(from as int, v@.len() as int));
    }
    Some(acc)
}

/// Parse `v` as `str::parse::<i64>` would.
pub fn parse_i64_vec(v: &Vec<char>) -> (r: Option<i64>)
    ensures
        r == spec_parse_i64(v@),
{
    if v.len() == 0 {
        return None;
    }
    let c0 = v[0];
    let neg = c0 == '-';
    let from: usize = if c0 == '+' || c0 == '-' {
        1
    } else {
        0
    };
    if from >= v.len() {
        return None;
    }
    proof {
        if from == 0 {
            assert(v@.subrange(0, v@.len() as int) =~= v@);
        } else {
            assert(v@.subrange(1, v@.len() as int) =~= v@.drop_first());
        }
    }
    match parse_digits(v, from) {
        None => None,
        Some(m) => {
            if neg {
                if m == 0x8000000000000000 {
                    Some(i64::MIN)
                } else {
                    let p = m as i64;
                    Some(-p)
                }
            } else {
                if m <= 0x7fffffffffffffff {
                    Some(m as i64)
                } else {
                    None
                }
            }
        },
    }
}

} // verus!
