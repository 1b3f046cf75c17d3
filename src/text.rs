use vstd::prelude::*;

verus! {

/// Replaces every non-overlapping occurrence of `pat`, scanning from the left.
pub open spec fn replace_all(s: Seq<char>, pat: Seq<char>, rep: Seq<char>) -> Seq<char>
    decreases s.len(),
{
    if pat.len() == 0 || s.len() < pat.len() {
        s
    } else if s.subrange(0, pat.len() as int) == pat {
        rep + replace_all(s.subrange(pat.len() as int, s.len() as int), pat, rep)
    } else {
        seq![s[0]] + replace_all(s.subrange(1, s.len() as int), pat, rep)
    }
}

pub proof fn lemma_replace_short(s: Seq<char>, pat: Seq<char>, rep: Seq<char>)
    requires
        s.len() < pat.len(),
    ensures
        replace_all(s, pat, rep) == s,
{
}

/// Character-wise equality of two strings.
pub(crate) fn str_eq(a: &str, b: &str) -> (r: bool)
    ensures
        r == (a@ == b@),
{
    let n = a.unicode_len();
    if n != b.unicode_len() {
        return false;
    }
    let mut i: usize = 0;
    while i < n
        invariant
            n == a@.len() == b@.len(),
            i <= n,
            forall|j: int| 0 <= j < i ==> a@[j] == b@[j],
        decreases n - i,
    {
        if a.get_char(i) != b.get_char(i) {
            return false;
        }
        i = i + 1;
    }
    assert(a@ =~= b@);
    true
}

pub open spec fn starts_with(s: Seq<char>, p: Seq<char>) -> bool {
    p.len() <= s.len() && s.subrange(0, p.len() as int) == p
}

/// Whether `s` begins with `p`.
pub(crate) fn has_prefix(s: &str, p: &str) -> (r: bool)
    ensures
        r == starts_with(s@, p@),
{
    let n = p.unicode_len();
    if n > s.unicode_len() {
        return false;
    }
    let head = s.substring_char(0, n);
    str_eq(head, p)
}

/// `a` followed by `b`.
pub(crate) fn concat2(a: &str, b: &str) -> (r: String)
    ensures
        r@ == a@ + b@,
{
    let mut r = String::from_str(a);
    r.append(b);
    r
}

/// `a`, `b` and `c` in a row.
pub(crate) fn concat3(a: &str, b: &str, c: &str) -> (r: String)
    ensures
        r@ == a@ + b@ + c@,
{
    let mut r = String::from_str(a);
    r.append(b);
    r.append(c);
    r
}

/// Relies on `String::push`: appends one character.
#[verifier::external_body]
pub(crate) fn push_char(s: &mut String, c: char)
    ensures
        final(s)@ == old(s)@.push(c),
{
    s.push(c)
}

pub(crate) fn chars_of(s: &str) -> (r: Vec<char>)
    ensures
        r@ == s@,
{
    let n = s.unicode_len();
    let mut r: Vec<char> = Vec::new();
    let mut i: usize = 0;
    while i < n
        invariant
            n == s@.len(),
            i <= n,
            r@ == s@.subrange(0, i as int),
        decreases n - i,
    {
        r.push(s.get_char(i));
        i = i + 1;
    }
    assert(r@ =~= s@);
    r
}

pub(crate) fn append_chars(s: &mut String, v: &Vec<char>, from: usize, to: usize)
    requires
        from <= to <= v@.len(),
    ensures
        final(s)@ == old(s)@ + v@.subrange(from as int, to as int),
{
    let mut i: usize = from;
    while i < to
        invariant
            from <= i <= to <= v@.len(),
            s@ == old(s)@ + v@.subrange(from as int, i as int),
        decreases to - i,
    {
        push_char(s, v[i]);
        i = i + 1;
        assert(v@.subrange(from as int, i as int) =~= v@.subrange(from as int, i - 1 as int).push(v@[i - 1]));
    }
}

pub(crate) fn matches_at(v: &Vec<char>, i: usize, pat: &Vec<char>) -> (r: bool)
    requires
        i <= v@.len(),
    ensures
        r == (i + pat@.len() <= v@.len() && v@.subrange(i as int, i + pat@.len()) == pat@),
{
    if pat.len() > v.len() - i {
        return false;
    }
    let mut k: usize = 0;
    while k < pat.len()
        invariant
            i + pat@.len() <= v@.len(),
            v@.len() <= usize::MAX,
            k <= pat@.len(),
            forall|j: int| 0 <= j < k ==> v@[i + j] == pat@[j],
        decreases pat@.len() - k,
    {
        if v[i + k] != pat[k] {
            assert(v@.subrange(i as int, i + pat@.len())[k as int] != pat@[k as int]);
            return false;
        }
        k = k + 1;
    }
    assert(v@.subrange(i as int, i + pat@.len()) =~= pat@);
    true
}

/// Every non-overlapping occurrence of `pat` in `s` replaced by `rep`.
pub(crate) fn replace_str(s: &str, pat: &str, rep: &str) -> (r: String)
    ensures
        r@ == replace_all(s@, pat@, rep@),
{
    let v = chars_of(s);
    let p = chars_of(pat);
    let mut r = String::new();
    if p.len() == 0 {
        append_chars(&mut r, &v, 0, v.len());
        assert(v@.subrange(0, v@.len() as int) =~= v@);
        return r;
    }
    let mut i: usize = 0;
    assert(v@.subrange(0, v@.len() as int) =~= v@);
    assert(r@ + replace_all(s@, pat@, rep@) =~= replace_all(s@, pat@, rep@));
    while i < v.len()
        invariant
            i <= v@.len(),
            v@ == s@,
            p@ == pat@,
            p@.len() > 0,
            r@ + replace_all(v@.subrange(i as int, v@.len() as int), pat@, rep@)
                == replace_all(s@, pat@, rep@),
        decreases v@.len() - i,
    {
        let ghost rest = v@.subrange(i as int, v@.len() as int);
        if matches_at(&v, i, &p) {
            assert(rest.subrange(0, p@.len() as int) =~= v@.subrange(i as int, i + p@.len()));
            assert(rest.subrange(p@.len() as int, rest.len() as int)
                =~= v@.subrange(i + p@.len(), v@.len() as int));
            r.append(rep);
            i = i + p.len();
        } else {
            proof {
                if rest.len() >= p@.len() {
                    assert(rest.subrange(0, p@.len() as int) =~= v@.subrange(i as int, i + p@.len()));
                }
                assert(rest.subrange(1, rest.len() as int) =~= v@.subrange(i + 1, v@.len() as int));
                if rest.len() < p@.len() {
                    lemma_replace_short(rest.subrange(1, rest.len() as int), pat@, rep@);
                }
            }
            push_char(&mut r, v[i]);
            i = i + 1;
        }
    }
    assert(v@.subrange(i as int, v@.len() as int) =~= Seq::<char>::empty());
    assert(r@ + replace_all(Seq::<char>::empty(), pat@, rep@) =~= r@);
    r
}

/// White space as `char::is_whitespace` defines it (the Unicode White_Space set).
pub open spec fn is_ws(c: char) -> bool {
    ('\u{9}' <= c && c <= '\u{d}') || c == ' ' || c == '\u{85}' || c == '\u{a0}' || c == '\u{1680}'
        || ('\u{2000}' <= c && c <= '\u{200a}') || c == '\u{2028}' || c == '\u{2029}' || c == '\u{202f}'
        || c == '\u{205f}' || c == '\u{3000}'
}

pub(crate) fn is_ws_exec(c: char) -> (r: bool)
    ensures
        r == is_ws(c),
{
    ('\u{9}' <= c && c <= '\u{d}') || c == ' ' || c == '\u{85}' || c == '\u{a0}' || c == '\u{1680}'
        || ('\u{2000}' <= c && c <= '\u{200a}') || c == '\u{2028}' || c == '\u{2029}' || c == '\u{202f}'
        || c == '\u{205f}' || c == '\u{3000}'
}

/// Drops leading white space.
pub open spec fn trim_start(s: Seq<char>) -> Seq<char>
    decreases s.len(),
{
    if s.len() > 0 && is_ws(s[0]) {
        trim_start(s.subrange(1, s.len() as int))
    } else {
        s
    }
}

/// Drops trailing white space.
pub open spec fn trim_end(s: Seq<char>) -> Seq<char>
    decreases s.len(),
{
    if s.len() > 0 && is_ws(s.last()) {
        trim_end(s.drop_last())
    } else {
        s
    }
}

/// Drops leading and trailing white space.
pub open spec fn trim(s: Seq<char>) -> Seq<char> {
    trim_end(trim_start(s))
}

/// The first position at or after `i` where `pat` occurs, or the length of `s`.
pub open spec fn find_from(s: Seq<char>, pat: Seq<char>, i: int) -> int
    decreases s.len() - i,
{
    if i < 0 || i + pat.len() > s.len() || pat.len() == 0 {
        s.len() as int
    } else if s.subrange(i, i + pat.len()) == pat {
        i
    } else {
        find_from(s, pat, i + 1)
    }
}

/// The pieces of `s` between the occurrences of `sep`, from left to right.
pub open spec fn split_on(s: Seq<char>, sep: Seq<char>) -> Seq<Seq<char>>
    decreases s.len(),
{
    let p = find_from(s, sep, 0);
    if p < 0 || p + sep.len() > s.len() || sep.len() == 0 {
        seq![s]
    } else {
        seq![s.subrange(0, p)] + split_on(s.subrange(p + sep.len(), s.len() as int), sep)
    }
}

/// Position of the first occurrence of `pat` in `v` at or after `from`, or `v`'s length.
pub(crate) fn find_exec(v: &Vec<char>, pat: &Vec<char>, from: usize) -> (r: usize)
    requires
        from <= v@.len(),
    ensures
        r as int == find_from(v@, pat@, from as int),
        r <= v@.len(),
{
    if pat.len() == 0 {
        return v.len();
    }
    let mut i: usize = from;
    while i < v.len()
        invariant
            from <= i <= v@.len(),
            pat@.len() > 0,
            find_from(v@, pat@, i as int) == find_from(v@, pat@, from as int),
        decreases v@.len() - i,
    {
        if matches_at(v, i, pat) {
            return i;
        }
        i = i + 1;
    }
    v.len()
}

/// `v[from..to]` as a string.
pub(crate) fn string_of(v: &Vec<char>, from: usize, to: usize) -> (r: String)
    requires
        from <= to <= v@.len(),
    ensures
        r@ == v@.subrange(from as int, to as int),
{
    let mut r = String::new();
    append_chars(&mut r, v, from, to);
    r
}

/// The bounds of `v[from..to]` with leading and trailing white space dropped.
pub(crate) fn trim_bounds(v: &Vec<char>, from: usize, to: usize) -> (r: (usize, usize))
    requires
        from <= to <= v@.len(),
    ensures
        from <= r.0 <= r.1 <= to,
        v@.subrange(r.0 as int, r.1 as int) == trim(v@.subrange(from as int, to as int)),
{
    let mut a: usize = from;
    while a < to && is_ws_exec(v[a])
        invariant
            from <= a <= to <= v@.len(),
            trim_start(v@.subrange(from as int, to as int)) == trim_start(v@.subrange(a as int, to as int)),
        decreases to - a,
    {
        assert(v@.subrange(a + 1, to as int) =~= v@.subrange(a as int, to as int).subrange(1, (to - a) as int));
        a = a + 1;
    }
    let mut b: usize = to;
    while b > a && is_ws_exec(v[b - 1])
        invariant
            from <= a <= b <= to <= v@.len(),
            trim_end(v@.subrange(a as int, to as int)) == trim_end(v@.subrange(a as int, b as int)),
        decreases b - a,
    {
        assert(v@.subrange(a as int, b - 1) =~= v@.subrange(a as int, b as int).drop_last());
        b = b - 1;
    }
    (a, b)
}

/// `v[from..to]` as a vector of its own.
pub(crate) fn sub_vec(v: &Vec<char>, from: usize, to: usize) -> (r: Vec<char>)
    requires
        from <= to <= v@.len(),
    ensures
        r@ == v@.subrange(from as int, to as int),
{
    let mut r: Vec<char> = Vec::new();
    let mut i: usize = from;
    while i < to
        invariant
            from <= i <= to <= v@.len(),
            r@ == v@.subrange(from as int, i as int),
        decreases to - i,
    {
        r.push(v[i]);
        i = i + 1;
        assert(r@ =~= v@.subrange(from as int, i as int));
    }
    r
}

/// Drops leading copies of `c`.
pub open spec fn strip_start(s: Seq<char>, c: char) -> Seq<char>
    decreases s.len(),
{
    if s.len() > 0 && s[0] == c {
        strip_start(s.subrange(1, s.len() as int), c)
    } else {
        s
    }
}

/// Drops trailing copies of `c`.
pub open spec fn strip_end(s: Seq<char>, c: char) -> Seq<char>
    decreases s.len(),
{
    if s.len() > 0 && s.last() == c {
        strip_end(s.drop_last(), c)
    } else {
        s
    }
}

/// The bounds of `v[from..to]` without leading (when `front`) and trailing copies of `c`.
pub(crate) fn strip_bounds(v: &Vec<char>, from: usize, to: usize, c: char, front: bool) -> (r: (usize, usize))
    requires
        from <= to <= v@.len(),
    ensures
        from <= r.0 <= r.1 <= to,
        !front ==> r.0 == from,
        v@.subrange(r.0 as int, r.1 as int) == if front {
            strip_end(strip_start(v@.subrange(from as int, to as int), c), c)
        } else {
            strip_end(v@.subrange(from as int, to as int), c)
        },
{
    let mut a: usize = from;
    if front {
        while a < to && v[a] == c
            invariant
                from <= a <= to <= v@.len(),
                strip_start(v@.subrange(from as int, to as int), c) == strip_start(v@.subrange(a as int, to as int), c),
            decreases to - a,
        {
            assert(v@.subrange(a + 1, to as int) =~= v@.subrange(a as int, to as int).subrange(1, (to - a) as int));
            a = a + 1;
        }
    }
    let mut b: usize = to;
    while b > a && v[b - 1] == c
        invariant
            from <= a <= b <= to <= v@.len(),
            strip_end(v@.subrange(a as int, to as int), c) == strip_end(v@.subrange(a as int, b as int), c),
        decreases b - a,
    {
        assert(v@.subrange(a as int, b - 1) =~= v@.subrange(a as int, b as int).drop_last());
        b = b - 1;
    }
    (a, b)
}

/// The first position at or after `i` that holds white space, or the length.
pub open spec fn ws_from(s: Seq<char>, i: int) -> int
    decreases s.len() - i,
{
    if i < 0 || i >= s.len() {
        s.len() as int
    } else if is_ws(s[i]) {
        i
    } else {
        ws_from(s, i + 1)
    }
}

pub(crate) fn ws_exec(v: &Vec<char>, from: usize) -> (r: usize)
    requires
        from <= v@.len(),
    ensures
        r as int == ws_from(v@, from as int),
        from <= r <= v@.len(),
{
    let mut i: usize = from;
    while i < v.len() && !is_ws_exec(v[i])
        invariant
            from <= i <= v@.len(),
            ws_from(v@, i as int) == ws_from(v@, from as int),
        decreases v@.len() - i,
    {
        i = i + 1;
    }
    i
}

/// The pieces of `s` split at `sep`, each as a vector (see `split_on`).
pub(crate) fn split_exec(s: &Vec<char>, sep: &Vec<char>) -> (r: Vec<Vec<char>>)
    requires
        sep@.len() > 0,
    ensures
        r@.map_values(|p: Vec<char>| p@) == split_on(s@, sep@),
{
    let mut rest = sub_vec(s, 0, s.len());
    assert(s@.subrange(0, s@.len() as int) =~= s@);
    let mut out: Vec<Vec<char>> = Vec::new();
    loop
        invariant
            sep@.len() > 0,
            out@.map_values(|p: Vec<char>| p@) + split_on(rest@, sep@) == split_on(s@, sep@),
        decreases rest@.len(),
    {
        let p = find_exec(&rest, sep, 0);
        if p < rest.len() && rest.len() - p >= sep.len() {
            let seg = sub_vec(&rest, 0, p);
            let next = sub_vec(&rest, p + sep.len(), rest.len());
            let ghost ov = out@.map_values(|p: Vec<char>| p@);
            out.push(seg);
            assert(out@.map_values(|p: Vec<char>| p@) =~= ov.push(seg@));
            assert(split_on(rest@, sep@) =~= seq![seg@] + split_on(next@, sep@));
            assert(ov.push(seg@) + split_on(next@, sep@) =~= ov + split_on(rest@, sep@));
            rest = next;
        } else {
            let ghost ov = out@.map_values(|p: Vec<char>| p@);
            let ghost rv = rest@;
            out.push(rest);
            assert(out@.map_values(|p: Vec<char>| p@) =~= ov.push(rv));
            assert(split_on(rv, sep@) =~= seq![rv]);
            assert(ov.push(rv) =~= ov + seq![rv]);
            return out;
        }
    }
}

pub open spec fn digit_char(d: nat) -> char {
    if d == 0 { '0' } else if d == 1 { '1' } else if d == 2 { '2' } else if d == 3 { '3' } else if d == 4 { '4' }
    else if d == 5 { '5' } else if d == 6 { '6' } else if d == 7 { '7' } else if d == 8 { '8' } else { '9' }
}

/// The decimal digits of `n`, without leading zeros ("0" for zero).
pub open spec fn decimal(n: nat) -> Seq<char>
    decreases n,
{
    if n < 10 {
        seq![digit_char(n)]
    } else {
        decimal(n / 10).push(digit_char(n % 10))
    }
}

fn digit_char_exec(d: usize) -> (c: char)
    requires
        d < 10,
    ensures
        c == digit_char(d as nat),
{
    if d == 0 { '0' } else if d == 1 { '1' } else if d == 2 { '2' } else if d == 3 { '3' } else if d == 4 { '4' }
    else if d == 5 { '5' } else if d == 6 { '6' } else if d == 7 { '7' } else if d == 8 { '8' } else { '9' }
}

/// The decimal text of `n`.
pub(crate) fn decimal_exec(n: usize) -> (r: String)
    ensures
        r@ == decimal(n as nat),
    decreases n,
{
    if n < 10 {
        let mut r = String::new();
        push_char(&mut r, digit_char_exec(n));
        assert(r@ =~= seq![digit_char(n as nat)]);
        r
    } else {
        let mut r = decimal_exec(n / 10);
        push_char(&mut r, digit_char_exec(n % 10));
        r
    }
}

/// The position of the first non-white-space character at or after `from`.
pub(crate) fn skip_ws(v: &Vec<char>, from: usize) -> (r: usize)
    requires
        from <= v@.len(),
    ensures
        from <= r <= v@.len(),
        v@.subrange(r as int, v@.len() as int) == trim_start(v@.subrange(from as int, v@.len() as int)),
{
    let mut a: usize = from;
    while a < v.len() && is_ws_exec(v[a])
        invariant
            from <= a <= v@.len(),
            trim_start(v@.subrange(from as int, v@.len() as int)) == trim_start(v@.subrange(a as int, v@.len() as int)),
        decreases v@.len() - a,
    {
        assert(v@.subrange(a + 1, v@.len() as int) =~= v@.subrange(a as int, v@.len() as int).subrange(1, (v@.len() - a) as int));
        a = a + 1;
    }
    let ghost t = v@.subrange(a as int, v@.len() as int);
    assert(!(t.len() > 0 && is_ws(t[0])));
    a
}

} // verus!
