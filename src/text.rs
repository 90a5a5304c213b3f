//! Character-level helpers over `Seq<char>` views of strings.
use vstd::prelude::*;
use vstd::string::StringExecFns;

verus! {

/// Whether `c` has the Unicode `White_Space` property.
pub open spec fn is_white(c: char) -> bool {
    let u = c as u32;
    (0x09 <= u <= 0x0d) || u == 0x20 || u == 0x85 || u == 0xa0 || u == 0x1680 || (0x2000 <= u
        <= 0x200a) || u == 0x2028 || u == 0x2029 || u == 0x202f || u == 0x205f || u == 0x3000
}

/// Whether `c` is white space, as `char::is_whitespace` decides it.
pub fn is_white_space(c: char) -> (r: bool)
    ensures
        r == is_white(c),
{
    let u = c as u32;
    (0x09 <= u && u <= 0x0d) || u == 0x20 || u == 0x85 || u == 0xa0 || u == 0x1680 || (0x2000
        <= u && u <= 0x200a) || u == 0x2028 || u == 0x2029 || u == 0x202f || u == 0x205f || u
        == 0x3000
}

/// Relies on `String::push`: appends one character.
pub assume_specification[ std::string::String::push ](s: &mut String, ch: char)
    ensures
        final(s)@ == old(s)@.push(ch),
;

/// `s` without its leading white space.
pub open spec fn trim_start(s: Seq<char>) -> Seq<char>
    decreases s.len(),
{
    if s.len() > 0 && is_white(s[0]) {
        trim_start(s.drop_first())
    } else {
        s
    }
}

/// `s` without its trailing white space.
pub open spec fn trim_end(s: Seq<char>) -> Seq<char>
    decreases s.len(),
{
    if s.len() > 0 && is_white(s.last()) {
        trim_end(s.drop_last())
    } else {
        s
    }
}

/// `s` without leading and trailing white space, as `str::trim` gives it.
pub open spec fn trim(s: Seq<char>) -> Seq<char> {
    trim_end(trim_start(s))
}

/// Whether `s` begins with `p`.
pub open spec fn has_prefix(s: Seq<char>, p: Seq<char>) -> bool {
    p.len() <= s.len() && s.subrange(0, p.len() as int) == p
}

/// Whether `s` ends with `p`.
pub open spec fn has_suffix(s: Seq<char>, p: Seq<char>) -> bool {
    p.len() <= s.len() && s.subrange(s.len() - p.len(), s.len() as int) == p
}

/// The characters of `s`.
pub fn chars_of(s: &str) -> (r: Vec<char>)
    ensures
        r@ == s@,
{
    let mut r: Vec<char> = Vec::new();
    for c in it: s.chars()
        invariant
            it.seq() == s@,
            r@ == it.seq().subrange(0, it.index() as int),
    {
        r.push(c);
    }
    r
}

/// A string holding the characters of `v`.
pub fn string_of(v: &[char]) -> (r: String)
    ensures
        r@ == v@,
{
    let mut r = String::new();
    let mut i: usize = 0;
    while i < v.len()
        invariant
            i <= v@.len(),
            r@ == v@.subrange(0, i as int),
        decreases v@.len() - i,
    {
        r.push(v[i]);
        i = i + 1;
        assert(r@ =~= v@.subrange(0, i as int));
    }
    assert(r@ =~= v@);
    r
}

/// Appends the characters of `v` to `out`.
pub fn push_chars(out: &mut String, v: &[char])
    ensures
        final(out)@ == old(out)@ + v@,
{
    let mut i: usize = 0;
    while i < v.len()
        invariant
            i <= v@.len(),
            out@ == old(out)@ + v@.subrange(0, i as int),
        decreases v@.len() - i,
    {
        out.push(v[i]);
        i = i + 1;
        assert(out@ =~= old(out)@ + v@.subrange(0, i as int));
    }
    assert(v@.subrange(0, v@.len() as int) =~= v@);
}

/// The characters of `v` from `from` up to, not including, `to`.
pub fn sub_chars(v: &[char], from: usize, to: usize) -> (r: Vec<char>)
    requires
        from <= to <= v@.len(),
    ensures
        r@ == v@.subrange(from as int, to as int),
{
    let mut r: Vec<char> = Vec::new();
    let mut k: usize = from;
    while k < to
        invariant
            from <= k <= to <= v@.len(),
            r@ == v@.subrange(from as int, k as int),
        decreases to - k,
    {
        r.push(v[k]);
        k = k + 1;
        assert(r@ =~= v@.subrange(from as int, k as int));
    }
    r
}

/// Appends `t` to `out`.
pub fn push_str(out: &mut String, t: &str)
    ensures
        final(out)@ == old(out)@ + t@,
{
    out.append(t);
}

/// Whether `a` and `b` hold the same characters.
pub fn same_chars(a: &[char], b: &[char]) -> (r: bool)
    ensures
        r == (a@ == b@),
{
    if a.len() != b.len() {
        return false;
    }
    let mut i: usize = 0;
    while i < a.len()
        invariant
            a@.len() == b@.len(),
            i <= a@.len(),
            forall|k: int| 0 <= k < i ==> a@[k] == b@[k],
        decreases a@.len() - i,
    {
        if a[i] != b[i] {
            return false;
        }
        i = i + 1;
    }
    assert(a@ =~= b@);
    true
}

proof fn lemma_trim_start_skip(s: Seq<char>, i: int)
    requires
        0 <= i <= s.len(),
        forall|k: int| 0 <= k < i ==> is_white(#[trigger] s[k]),
    ensures
        trim_start(s) == trim_start(s.subrange(i, s.len() as int)),
    decreases i,
{
    if i > 0 {
        assert(is_white(s[0]));
        assert(s.drop_first() =~= s.subrange(1, s.len() as int));
        assert forall|k: int| 0 <= k < i - 1 implies is_white(#[trigger] s.drop_first()[k]) by {
            assert(s.drop_first()[k] == s[k + 1]);
        }
        lemma_trim_start_skip(s.drop_first(), i - 1);
        assert(s.drop_first().subrange(i - 1, s.drop_first().len() as int) =~= s.subrange(
            i,
            s.len() as int,
        ));
    } else {
        assert(s.subrange(0, s.len() as int) =~= s);
    }
}

proof fn lemma_trim_end_skip(s: Seq<char>, j: int)
    requires
        0 <= j <= s.len(),
        forall|k: int| j <= k < s.len() ==> is_white(#[trigger] s[k]),
    ensures
        trim_end(s) == trim_end(s.subrange(0, j)),
    decreases s.len() - j,
{
    if j < s.len() {
        assert(is_white(s.last()));
        assert(s.drop_last() =~= s.subrange(0, s.len() - 1));
        assert forall|k: int| j <= k < s.drop_last().len() implies is_white(
            #[trigger] s.drop_last()[k],
        ) by {
            assert(s.drop_last()[k] == s[k]);
        }
        lemma_trim_end_skip(s.drop_last(), j);
        assert(s.drop_last().subrange(0, j) =~= s.subrange(0, j));
    } else {
        assert(s.subrange(0, j) =~= s);
    }
}

/// The characters of `v` without leading and trailing white space.
pub fn trimmed(v: &[char]) -> (r: Vec<char>)
    ensures
        r@ == trim(v@),
{
    let n = v.len();
    let mut i: usize = 0;
    while i < n && is_white_space(v[i])
        invariant
            n == v@.len(),
            i <= n,
            forall|k: int| 0 <= k < i ==> is_white(#[trigger] v@[k]),
        decreases n - i,
    {
        i = i + 1;
    }
    let ghost rest = v@.subrange(i as int, n as int);
    proof {
        lemma_trim_start_skip(v@, i as int);
        if rest.len() > 0 {
            assert(rest[0] == v@[i as int]);
        }
    }
    assert(trim_start(v@) == rest);
    let mut j: usize = n;
    while j > i && is_white_space(v[j - 1])
        invariant
            n == v@.len(),
            i <= j <= n,
            rest == v@.subrange(i as int, n as int),
            forall|k: int| j - i <= k < rest.len() ==> is_white(#[trigger] rest[k]),
        decreases j,
    {
        j = j - 1;
    }
    proof {
        lemma_trim_end_skip(rest, j - i);
        let kept = rest.subrange(0, j - i);
        if kept.len() > 0 {
            assert(kept.last() == v@[j - 1]);
        }
        assert(kept =~= v@.subrange(i as int, j as int));
    }
    let mut r: Vec<char> = Vec::new();
    let mut k: usize = i;
    while k < j
        invariant
            i <= k <= j <= n,
            n == v@.len(),
            r@ == v@.subrange(i as int, k as int),
        decreases j - k,
    {
        r.push(v[k]);
        k = k + 1;
        assert(r@ =~= v@.subrange(i as int, k as int));
    }
    r
}

} // verus!
