//! `$KEY$` placeholder substitution into static fragments.
use vstd::prelude::*;
use crate::BlogError;
use crate::text::chars_of;
use crate::text::push_chars;
use crate::text::same_chars;
use crate::text::string_of;
use crate::text::sub_chars;

verus! {

/// The replacement table as plain character sequences.
pub open spec fn pairs_view(values: Seq<(&str, &str)>) -> Seq<(Seq<char>, Seq<char>)> {
    values.map_values(|p: (&str, &str)| (p.0@, p.1@))
}

/// The value of the first entry at or after `k` whose key is `key`.
pub open spec fn lookup_from(values: Seq<(Seq<char>, Seq<char>)>, key: Seq<char>, k: int) -> Option<
    Seq<char>,
>
    decreases values.len() - k,
{
    if k < 0 || k >= values.len() {
        None
    } else if values[k].0 == key {
        Some(values[k].1)
    } else {
        lookup_from(values, key, k + 1)
    }
}

/// The value that `values` gives for `key`, if any.
pub open spec fn lookup(values: Seq<(Seq<char>, Seq<char>)>, key: Seq<char>) -> Option<Seq<char>> {
    lookup_from(values, key, 0)
}

/// `p` put in front of a successful result; an error stays as it is.
pub open spec fn prepend(p: Seq<char>, r: Result<Seq<char>, Seq<char>>) -> Result<
    Seq<char>,
    Seq<char>,
> {
    match r {
        Ok(s) => Ok(p + s),
        Err(k) => Err(k),
    }
}

/// Substitution of `t` from position `i` on, outside any placeholder.
/// An error carries the key that `values` lacks.
pub open spec fn render_from(t: Seq<char>, values: Seq<(Seq<char>, Seq<char>)>, i: int) -> Result<
    Seq<char>,
    Seq<char>,
>
    decreases 2 * (t.len() - i) + 1,
{
    if i < 0 || i >= t.len() {
        Ok(Seq::empty())
    } else if t[i] != '$' {
        prepend(seq![t[i]], render_from(t, values, i + 1))
    } else {
        render_key(t, values, i, i + 1)
    }
}

/// Substitution of `t` where a `$` opened at `start` and no `$` stands in
/// `start + 1 .. j`. With no closing `$` the rest is kept as it is.
pub open spec fn render_key(
    t: Seq<char>,
    values: Seq<(Seq<char>, Seq<char>)>,
    start: int,
    j: int,
) -> Result<Seq<char>, Seq<char>>
    decreases 2 * (t.len() - j) + 2,
{
    if j < 0 || j >= t.len() || start < 0 || start >= j {
        Ok(t.subrange(start, t.len() as int))
    } else if t[j] == '$' {
        let key = t.subrange(start + 1, j);
        match lookup(values, key) {
            None => Err(key),
            Some(v) => prepend(v, render_from(t, values, j + 1)),
        }
    } else {
        render_key(t, values, start, j + 1)
    }
}

/// What substituting `values` into `t` gives: the text, or the missing key.
pub open spec fn render(t: Seq<char>, values: Seq<(Seq<char>, Seq<char>)>) -> Result<
    Seq<char>,
    Seq<char>,
> {
    render_from(t, values, 0)
}

/// Whether `s` holds no `$`.
pub open spec fn no_dollar(s: Seq<char>) -> bool {
    forall|k: int| 0 <= k < s.len() ==> s[k] != '$'
}

/// The value for `key` in `values`, if any.
fn find_value(values: &[(&str, &str)], key: &[char]) -> (r: Option<Vec<char>>)
    ensures
        match lookup(pairs_view(values@), key@) {
            None => r is None,
            Some(v) => r matches Some(w) && w@ == v,
        },
{
    let ghost vals = pairs_view(values@);
    let mut k: usize = 0;
    while k < values.len()
        invariant
            k <= values@.len(),
            vals == pairs_view(values@),
            lookup(vals, key@) == lookup_from(vals, key@, k as int),
        decreases values@.len() - k,
    {
        let name = chars_of(values[k].0);
        if same_chars(&name, key) {
            return Some(chars_of(values[k].1));
        }
        k = k + 1;
    }
    None
}

/// `template` with every `$KEY$` replaced by the value `values` gives for
/// `KEY`, scanning once from left to right. A `$` with no closing `$` stays
/// as it is; inserted values are not scanned again. Fails with
/// `MissingTemplateKey` naming the first key that `values` lacks.
pub fn format_template(template: String, values: &[(&str, &str)]) -> (r: Result<String, BlogError>)
    ensures
        match render(template@, pairs_view(values@)) {
            Ok(s) => r matches Ok(out) && out@ == s,
            Err(key) => r matches Err(BlogError::MissingTemplateKey { key: k }) && k@ == key,
        },
{
    let t = chars_of(template.as_str());
    let ghost vals = pairs_view(values@);
    let n = t.len();
    let mut out = String::new();
    let mut i: usize = 0;
    while i < n
        invariant
            n == t@.len(),
            t@ == template@,
            vals == pairs_view(values@),
            i <= n,
            render(t@, vals) == prepend(out@, render_from(t@, vals, i as int)),
        decreases n - i,
    {
        if t[i] != '$' {
            let ghost before = out@;
            out.push(t[i]);
            proof {
                let rest = render_from(t@, vals, i + 1);
                match rest {
                    Ok(s) => assert(before + (seq![t@[i as int]] + s) =~= out@ + s),
                    Err(_) => {},
                }
            }
            i = i + 1;
        } else {
            let start = i;
            let mut j: usize = i + 1;
            while j < n && t[j] != '$'
                invariant
                    n == t@.len(),
                    start < j <= n,
                    t@[start as int] == '$',
                    render_from(t@, vals, start as int) == render_key(
                        t@,
                        vals,
                        start as int,
                        j as int,
                    ),
                decreases n - j,
            {
                j = j + 1;
            }
            if j == n {
                let rest = sub_chars(&t, start, n);
                let ghost before = out@;
                push_chars(&mut out, &rest);
                assert(out@ == before + t@.subrange(start as int, n as int));
                return Ok(out);
            }
            let key = sub_chars(&t, start + 1, j);
            match find_value(values, &key) {
                None => {
                    return Err(BlogError::MissingTemplateKey { key: string_of(&key) });
                },
                Some(v) => {
                    let ghost before = out@;
                    push_chars(&mut out, &v);
                    proof {
                        let rest = render_from(t@, vals, j + 1);
                        match rest {
                            Ok(s) => assert(before + (v@ + s) =~= out@ + s),
                            Err(_) => {},
                        }
                    }
                    i = j + 1;
                },
            }
        }
    }
    Ok(out)
}

proof fn lemma_plain_from(t: Seq<char>, values: Seq<(Seq<char>, Seq<char>)>, i: int)
    requires
        0 <= i <= t.len(),
        forall|k: int| i <= k < t.len() ==> t[k] != '$',
    ensures
        render_from(t, values, i) == Ok::<Seq<char>, Seq<char>>(t.subrange(i, t.len() as int)),
    decreases t.len() - i,
{
    if i < t.len() {
        lemma_plain_from(t, values, i + 1);
        assert(seq![t[i]] + t.subrange(i + 1, t.len() as int) =~= t.subrange(i, t.len() as int));
    } else {
        assert(t.subrange(i, t.len() as int) =~= Seq::<char>::empty());
    }
}

proof fn lemma_unclosed_key(
    t: Seq<char>,
    values: Seq<(Seq<char>, Seq<char>)>,
    start: int,
    j: int,
)
    requires
        0 <= start < j <= t.len(),
        forall|k: int| j <= k < t.len() ==> t[k] != '$',
    ensures
        render_key(t, values, start, j) == Ok::<Seq<char>, Seq<char>>(
            t.subrange(start, t.len() as int),
        ),
    decreases t.len() - j,
{
    if j < t.len() {
        lemma_unclosed_key(t, values, start, j + 1);
    }
}

proof fn lemma_prefix_from(
    t: Seq<char>,
    values: Seq<(Seq<char>, Seq<char>)>,
    i: int,
    m: int,
)
    requires
        0 <= i <= m <= t.len(),
        forall|k: int| i <= k < m ==> t[k] != '$',
    ensures
        render_from(t, values, i) == prepend(t.subrange(i, m), render_from(t, values, m)),
    decreases m - i,
{
    if i < m {
        lemma_prefix_from(t, values, i + 1, m);
        match render_from(t, values, m) {
            Ok(s) => {
                assert(seq![t[i]] + (t.subrange(i + 1, m) + s) =~= t.subrange(i, m) + s);
            },
            Err(_) => {},
        }
    } else {
        match render_from(t, values, m) {
            Ok(s) => {
                assert(t.subrange(i, m) + s =~= s);
            },
            Err(_) => {},
        }
    }
}

proof fn lemma_scan_key(
    t: Seq<char>,
    values: Seq<(Seq<char>, Seq<char>)>,
    start: int,
    j: int,
    m: int,
)
    requires
        0 <= start < j <= m < t.len(),
        t[m] == '$',
        forall|k: int| j <= k < m ==> t[k] != '$',
    ensures
        render_key(t, values, start, j) == render_key(t, values, start, m),
    decreases m - j,
{
    if j < m {
        lemma_scan_key(t, values, start, j + 1, m);
    }
}

/// A `$` that no later `$` closes is copied literally: from that `$` on,
/// substitution gives the rest of the template unchanged and never fails.
pub proof fn law_unclosed_dollar_is_literal(
    t: Seq<char>,
    values: Seq<(Seq<char>, Seq<char>)>,
    i: int,
)
    requires
        0 <= i < t.len(),
        t[i] == '$',
        forall|k: int| i < k < t.len() ==> t[k] != '$',
    ensures
        render_from(t, values, i) == Ok::<Seq<char>, Seq<char>>(t.subrange(i, t.len() as int)),
{
    lemma_unclosed_key(t, values, i, i + 1);
}

/// A template whose only `$` is unclosed comes out unchanged, without error.
pub proof fn law_single_dollar_unchanged(
    a: Seq<char>,
    b: Seq<char>,
    values: Seq<(Seq<char>, Seq<char>)>,
)
    requires
        no_dollar(a),
        no_dollar(b),
    ensures
        render(a + seq!['$'] + b, values) == Ok::<Seq<char>, Seq<char>>(a + seq!['$'] + b),
{
    let t = a + seq!['$'] + b;
    let n = a.len() as int;
    assert(t[n] == '$');
    assert forall|k: int| 0 <= k < n implies t[k] != '$' by {
        assert(t[k] == a[k]);
    }
    assert forall|k: int| n < k < t.len() implies t[k] != '$' by {
        assert(t[k] == b[k - n - 1]);
    }
    lemma_prefix_from(t, values, 0, n);
    law_unclosed_dollar_is_literal(t, values, n);
    assert(t.subrange(0, n) + t.subrange(n, t.len() as int) =~= t);
}

/// A placeholder whose key `values` knows is replaced by its value, and
/// nothing else changes.
pub proof fn law_known_key_replaced(
    a: Seq<char>,
    key: Seq<char>,
    b: Seq<char>,
    values: Seq<(Seq<char>, Seq<char>)>,
    v: Seq<char>,
)
    requires
        no_dollar(a),
        no_dollar(key),
        no_dollar(b),
        lookup(values, key) == Some(v),
    ensures
        render(a + seq!['$'] + key + seq!['$'] + b, values) == Ok::<Seq<char>, Seq<char>>(
            a + v + b,
        ),
{
    let t = a + seq!['$'] + key + seq!['$'] + b;
    let n = a.len() as int;
    let m = n + 1 + key.len();
    assert forall|k: int| 0 <= k < n implies t[k] != '$' by {
        assert(t[k] == a[k]);
    }
    assert forall|k: int| n < k < m implies t[k] != '$' by {
        assert(t[k] == key[k - n - 1]);
    }
    assert forall|k: int| m < k < t.len() implies t[k] != '$' by {
        assert(t[k] == b[k - m - 1]);
    }
    assert(t[n] == '$');
    assert(t[m] == '$');
    lemma_prefix_from(t, values, 0, n);
    lemma_scan_key(t, values, n, n + 1, m);
    assert(t.subrange(n + 1, m) =~= key);
    lemma_plain_from(t, values, m + 1);
    assert(t.subrange(m + 1, t.len() as int) =~= b);
    assert(t.subrange(0, n) =~= a);
    assert(a + (v + b) =~= a + v + b);
}

/// A placeholder whose key `values` lacks makes substitution fail, naming
/// that key.
pub proof fn law_unknown_key_fails(
    a: Seq<char>,
    key: Seq<char>,
    b: Seq<char>,
    values: Seq<(Seq<char>, Seq<char>)>,
)
    requires
        no_dollar(a),
        no_dollar(key),
        lookup(values, key) is None,
    ensures
        render(a + seq!['$'] + key + seq!['$'] + b, values) == Err::<Seq<char>, Seq<char>>(key),
{
    let t = a + seq!['$'] + key + seq!['$'] + b;
    let n = a.len() as int;
    let m = n + 1 + key.len();
    assert forall|k: int| 0 <= k < n implies t[k] != '$' by {
        assert(t[k] == a[k]);
    }
    assert forall|k: int| n < k < m implies t[k] != '$' by {
        assert(t[k] == key[k - n - 1]);
    }
    assert(t[n] == '$');
    assert(t[m] == '$');
    lemma_prefix_from(t, values, 0, n);
    lemma_scan_key(t, values, n, n + 1, m);
    assert(t.subrange(n + 1, m) =~= key);
}

/// Number of `$` in `s` from position `i` on.
pub open spec fn dollars_from(s: Seq<char>, i: int) -> int
    decreases s.len() - i,
{
    if i < 0 || i >= s.len() {
        0
    } else {
        (if s[i] == '$' {
            1int
        } else {
            0int
        }) + dollars_from(s, i + 1)
    }
}

proof fn lemma_dollars_nonneg(s: Seq<char>, i: int)
    ensures
        dollars_from(s, i) >= 0,
    decreases s.len() - i,
{
    if 0 <= i < s.len() {
        lemma_dollars_nonneg(s, i + 1);
    }
}

proof fn lemma_next_dollar(s: Seq<char>, k: int) -> (j: int)
    requires
        0 <= k <= s.len(),
        dollars_from(s, k) > 0,
    ensures
        k <= j < s.len(),
        s[j] == '$',
        forall|m: int| k <= m < j ==> s[m] != '$',
        dollars_from(s, k) == dollars_from(s, j),
    decreases s.len() - k,
{
    if k == s.len() {
        assert(false);
        k
    } else if s[k] == '$' {
        k
    } else {
        lemma_next_dollar(s, k + 1)
    }
}

proof fn lemma_closed_prefix(
    a: Seq<char>,
    b: Seq<char>,
    values: Seq<(Seq<char>, Seq<char>)>,
    i: int,
)
    requires
        0 <= i <= a.len(),
        dollars_from(a, i) % 2 == 0,
    ensures
        match render_from(a, values, i) {
            Ok(x) => render_from(a + b, values, i) == prepend(
                x,
                render_from(a + b, values, a.len() as int),
            ),
            Err(k) => render_from(a + b, values, i) == Err::<Seq<char>, Seq<char>>(k),
        },
    decreases a.len() - i,
{
    let t = a + b;
    if i == a.len() {
        match render_from(t, values, i) {
            Ok(y) => assert(Seq::<char>::empty() + y =~= y),
            Err(_) => {},
        }
    } else if a[i] != '$' {
        assert(t[i] == a[i]);
        lemma_closed_prefix(a, b, values, i + 1);
        match render_from(a, values, i + 1) {
            Ok(x) => match render_from(t, values, a.len() as int) {
                Ok(y) => assert(seq![a[i]] + (x + y) =~= (seq![a[i]] + x) + y),
                Err(_) => {},
            },
            Err(_) => {},
        }
    } else {
        assert(t[i] == '$');
        lemma_dollars_nonneg(a, i + 1);
        assert(dollars_from(a, i) == 1 + dollars_from(a, i + 1));
        let j = lemma_next_dollar(a, i + 1);
        assert(dollars_from(a, j) == 1 + dollars_from(a, j + 1));
        assert(t[j] == '$');
        assert forall|m: int| i + 1 <= m < j implies t[m] != '$' by {
            assert(t[m] == a[m]);
        }
        lemma_scan_key(a, values, i, i + 1, j);
        lemma_scan_key(t, values, i, i + 1, j);
        assert(t.subrange(i + 1, j) =~= a.subrange(i + 1, j));
        lemma_closed_prefix(a, b, values, j + 1);
        let key = a.subrange(i + 1, j);
        match lookup(values, key) {
            None => {},
            Some(v) => match render_from(a, values, j + 1) {
                Ok(x) => match render_from(t, values, a.len() as int) {
                    Ok(y) => assert(v + (x + y) =~= (v + x) + y),
                    Err(_) => {},
                },
                Err(_) => {},
            },
        }
    }
}

/// A `$` that no later `$` closes, after a prefix with an even number of
/// `$`, stays literal: the result is the prefix substituted on its own,
/// then the rest of the template unchanged, and it fails only where the
/// prefix does, with the same key.
pub proof fn law_unclosed_dollar_after_prefix(
    a: Seq<char>,
    b: Seq<char>,
    values: Seq<(Seq<char>, Seq<char>)>,
)
    requires
        dollars_from(a, 0) % 2 == 0,
        no_dollar(b),
    ensures
        match render(a, values) {
            Ok(x) => render(a + seq!['$'] + b, values) == Ok::<Seq<char>, Seq<char>>(
                x + seq!['$'] + b,
            ),
            Err(k) => render(a + seq!['$'] + b, values) == Err::<Seq<char>, Seq<char>>(k),
        },
{
    let rest = seq!['$'] + b;
    let t = a + rest;
    assert(a + seq!['$'] + b =~= t);
    lemma_closed_prefix(a, rest, values, 0);
    let n = a.len() as int;
    assert(t[n] == '$');
    assert forall|k: int| n < k < t.len() implies t[k] != '$' by {
        assert(t[k] == b[k - n - 1]);
    }
    law_unclosed_dollar_is_literal(t, values, n);
    assert(t.subrange(n, t.len() as int) =~= rest);
    match render(a, values) {
        Ok(x) => assert(x + rest =~= x + seq!['$'] + b),
        Err(_) => {},
    }
}

} // verus!
