use vstd::prelude::*;
use crate::text::{replace_all, starts_with, chars_of, sub_vec, matches_at, append_chars, replace_str};
use crate::join::is_digit;

verus! {

/// Length of the type prefix "string;", "float;" or "datetime;" (with an
/// optional "#" after it) that starts `s`; 0 when there is none.
pub open spec fn type_prefix_len(s: Seq<char>) -> int {
    let p: int = if starts_with(s, "string;"@) {
        7
    } else if starts_with(s, "float;"@) {
        6
    } else if starts_with(s, "datetime;"@) {
        9
    } else {
        0
    };
    if p > 0 && p < s.len() && s[p] == '#' { p + 1 } else { p }
}

/// Drops the type prefix.
pub open spec fn strip_type_prefix(s: Seq<char>) -> Seq<char> {
    s.subrange(type_prefix_len(s), s.len() as int)
}

/// Whether `s` is a date "dddd-dd-dd" followed by " 00:00:00" and nothing else.
pub open spec fn is_midnight(s: Seq<char>) -> bool {
    &&& s.len() == 19
    &&& forall|i: int| 0 <= i < 10 && i != 4 && i != 7 ==> is_digit(#[trigger] s[i])
    &&& s[4] == '-' && s[7] == '-'
    &&& s.subrange(10, 19) == " 00:00:00"@
}

/// Keeps only the date of a midnight date-time.
pub open spec fn strip_midnight(s: Seq<char>) -> Seq<char> {
    if is_midnight(s) { s.subrange(0, 10) } else { s }
}

/// The end of the run of digits that starts at `i`.
pub open spec fn digits_end(s: Seq<char>, i: int) -> int
    decreases s.len() - i,
{
    if 0 <= i < s.len() && is_digit(s[i]) { digits_end(s, i + 1) } else { i }
}

/// Length of an "-?digits;#" that starts `s` at `i`; 0 when there is none.
pub open spec fn id_len_at(s: Seq<char>, i: int) -> int {
    let j = if 0 <= i < s.len() && s[i] == '-' { i + 1 } else { i };
    let k = digits_end(s, j);
    if k > j && k + 2 <= s.len() && s[k] == ';' && s[k + 1] == '#' { k + 2 - i } else { 0 }
}

/// Length of a ";#-?digits;#" at the start of `s`; 0 when there is none.
pub open spec fn id_sep_len(s: Seq<char>) -> int {
    if s.len() >= 2 && s[0] == ';' && s[1] == '#' && id_len_at(s, 2) > 0 { 2 + id_len_at(s, 2) } else { 0 }
}

/// Replaces, from left to right, each ";#-?digits;#" by `sep`.
pub open spec fn replace_id_seps(s: Seq<char>, sep: Seq<char>) -> Seq<char>
    decreases s.len(),
{
    if s.len() == 0 {
        s
    } else if id_sep_len(s) > 0 {
        sep + replace_id_seps(s.subrange(id_sep_len(s), s.len() as int), sep)
    } else {
        seq![s[0]] + replace_id_seps(s.subrange(1, s.len() as int), sep)
    }
}

/// Drops a leading "-?digits;#".
pub open spec fn strip_leading_id(s: Seq<char>) -> Seq<char> {
    s.subrange(id_len_at(s, 0), s.len() as int)
}

/// Drops a leading ";#" and then a trailing ";#".
pub open spec fn strip_edge_seps(s: Seq<char>) -> Seq<char> {
    let t = if starts_with(s, ";#"@) { s.subrange(2, s.len() as int) } else { s };
    if t.len() >= 2 && t.subrange(t.len() - 2, t.len() as int) == ";#"@ { t.subrange(0, t.len() - 2) } else { t }
}

/// The cleaned form of a value returned by the list service: type prefix
/// dropped, midnight times dropped from dates, lookup ids dropped and the
/// ";#" separators replaced by `sep`.
pub open spec fn cleaned(s: Seq<char>, sep: Seq<char>) -> Seq<char> {
    replace_all(strip_edge_seps(strip_leading_id(replace_id_seps(strip_midnight(strip_type_prefix(s)), sep))), ";#"@, sep)
}

fn lit_prefix(v: &Vec<char>, lit: &str) -> (r: bool)
    ensures
        r == starts_with(v@, lit@),
{
    let p = chars_of(lit);
    matches_at(v, 0, &p)
}

fn strip_type_prefix_exec(v: &Vec<char>) -> (r: Vec<char>)
    ensures
        r@ == strip_type_prefix(v@),
{
    proof { reveal_strlit("string;"); reveal_strlit("float;"); reveal_strlit("datetime;"); }
    let p: usize = if lit_prefix(v, "string;") {
        7
    } else if lit_prefix(v, "float;") {
        6
    } else if lit_prefix(v, "datetime;") {
        9
    } else {
        0
    };
    let n: usize = if p > 0 && p < v.len() && v[p] == '#' { p + 1 } else { p };
    sub_vec(v, n, v.len())
}

fn is_digit_char(c: char) -> (r: bool)
    ensures
        r == is_digit(c),
{
    '0' <= c && c <= '9'
}

fn strip_midnight_exec(v: &Vec<char>) -> (r: Vec<char>)
    ensures
        r@ == strip_midnight(v@),
{
    proof { reveal_strlit(" 00:00:00"); }
    if v.len() != 19 {
        return sub_vec(v, 0, v.len());
    }
    let mut i: usize = 0;
    let mut ok = v[4] == '-' && v[7] == '-';
    while i < 10
        invariant
            v@.len() == 19,
            i <= 10,
            ok ==> forall|j: int| 0 <= j < i && j != 4 && j != 7 ==> is_digit(#[trigger] v@[j]),
            ok ==> v@[4] == '-' && v@[7] == '-',
            !ok ==> !is_midnight(v@),
        decreases 10 - i,
    {
        if i != 4 && i != 7 && !is_digit_char(v[i]) {
            ok = false;
        }
        i = i + 1;
    }
    let tail = chars_of(" 00:00:00");
    if ok && matches_at(v, 10, &tail) {
        assert(is_midnight(v@));
        sub_vec(v, 0, 10)
    } else {
        assert(v@.subrange(0, 19) =~= v@);
        sub_vec(v, 0, v.len())
    }
}

fn digits_end_exec(v: &Vec<char>, i: usize) -> (r: usize)
    requires
        i <= v@.len(),
    ensures
        r as int == digits_end(v@, i as int),
        i <= r <= v@.len(),
{
    let mut k: usize = i;
    while k < v.len() && is_digit_char(v[k])
        invariant
            i <= k <= v@.len(),
            digits_end(v@, k as int) == digits_end(v@, i as int),
        decreases v@.len() - k,
    {
        k = k + 1;
    }
    k
}

fn id_len_at_exec(v: &Vec<char>, i: usize) -> (r: usize)
    requires
        i <= v@.len(),
    ensures
        r as int == id_len_at(v@, i as int),
        i + r <= v@.len(),
{
    let j: usize = if i < v.len() && v[i] == '-' { i + 1 } else { i };
    let k = digits_end_exec(v, j);
    if k > j && k < v.len() && v.len() - k >= 2 && v[k] == ';' && v[k + 1] == '#' { k + 2 - i } else { 0 }
}

fn replace_id_seps_exec(v: &Vec<char>, sep: &str) -> (r: Vec<char>)
    ensures
        r@ == replace_id_seps(v@, sep@),
{
    let sv = chars_of(sep);
    let mut out: Vec<char> = Vec::new();
    let mut i: usize = 0;
    assert(v@.subrange(0, v@.len() as int) =~= v@);
    while i < v.len()
        invariant
            i <= v@.len(),
            sv@ == sep@,
            out@ + replace_id_seps(v@.subrange(i as int, v@.len() as int), sep@) == replace_id_seps(v@, sep@),
        decreases v@.len() - i,
    {
        let ghost rest = v@.subrange(i as int, v@.len() as int);
        let n: usize = if v.len() - i >= 2 && v[i] == ';' && v[i + 1] == '#' {
            let m = id_len_at_exec(v, i + 2);
            if m > 0 { 2 + m } else { 0 }
        } else {
            0
        };
        proof { lemma_id_sep_shift(v@, i as int); }
        assert(n as int == id_sep_len(rest));
        if n > 0 {
            let mut k: usize = 0;
            let ghost o0 = out@;
            while k < sv.len()
                invariant
                    k <= sv@.len(),
                    out@ == o0 + sv@.subrange(0, k as int),
                decreases sv@.len() - k,
            {
                out.push(sv[k]);
                assert(out@ =~= o0 + sv@.subrange(0, k + 1));
                k = k + 1;
            }
            assert(sv@.subrange(0, k as int) =~= sv@);
            assert(rest.subrange(n as int, rest.len() as int) =~= v@.subrange(i + n, v@.len() as int));
            assert(out@ + replace_id_seps(v@.subrange(i + n, v@.len() as int), sep@) =~= o0 + replace_id_seps(rest, sep@));
            i = i + n;
        } else {
            let ghost o0 = out@;
            out.push(v[i]);
            assert(rest.subrange(1, rest.len() as int) =~= v@.subrange(i + 1, v@.len() as int));
            assert(out@ + replace_id_seps(v@.subrange(i + 1, v@.len() as int), sep@) =~= o0 + replace_id_seps(rest, sep@));
            i = i + 1;
        }
    }
    assert(v@.subrange(i as int, v@.len() as int) =~= Seq::<char>::empty());
    assert(out@ + Seq::<char>::empty() =~= out@);
    out
}

proof fn lemma_digits_end_shift(s: Seq<char>, i: int, j: int)
    requires
        0 <= i <= s.len(),
        i <= j,
    ensures
        digits_end(s.subrange(i, s.len() as int), j - i) == digits_end(s, j) - i,
    decreases s.len() - j,
{
    let t = s.subrange(i, s.len() as int);
    if 0 <= j < s.len() && is_digit(s[j]) {
        assert(t[j - i] == s[j]);
        lemma_digits_end_shift(s, i, j + 1);
    }
}

proof fn lemma_id_sep_shift(s: Seq<char>, i: int)
    requires
        0 <= i <= s.len(),
    ensures
        id_sep_len(s.subrange(i, s.len() as int)) == if i + 2 <= s.len() && s[i] == ';' && s[i + 1] == '#' && id_len_at(s, i + 2) > 0 {
            2 + id_len_at(s, i + 2)
        } else {
            0
        },
{
    let t = s.subrange(i, s.len() as int);
    if i + 2 <= s.len() {
        let j = if i + 2 < s.len() && s[i + 2] == '-' { i + 3 } else { i + 2 };
        lemma_digits_end_shift(s, i, j);
        if i + 2 < s.len() {
            assert(t[2] == s[i + 2]);
        }
        let k = digits_end(s, j);
        if k + 2 <= s.len() && k >= i {
            assert(t[k - i] == s[k]);
            assert(t[k - i + 1] == s[k + 1]);
        }
    }
}

fn strip_leading_id_exec(v: &Vec<char>) -> (r: Vec<char>)
    ensures
        r@ == strip_leading_id(v@),
{
    let n = id_len_at_exec(v, 0);
    sub_vec(v, n, v.len())
}

fn strip_edge_seps_exec(v: &Vec<char>) -> (r: Vec<char>)
    ensures
        r@ == strip_edge_seps(v@),
{
    proof { reveal_strlit(";#"); }
    let t = if lit_prefix(v, ";#") { sub_vec(v, 2, v.len()) } else { sub_vec(v, 0, v.len()) };
    assert(v@.subrange(0, v@.len() as int) =~= v@);
    let semi = chars_of(";#");
    if t.len() >= 2 && matches_at(&t, t.len() - 2, &semi) {
        sub_vec(&t, 0, t.len() - 2)
    } else {
        t
    }
}

/// Cleans a value returned by the list service (see `cleaned`): "15;#Paul"
/// gives "Paul", ";#a;#b;#" gives "a;b", "2022-01-19 00:00:00" gives
/// "2022-01-19". No value gives "", and the separator defaults to ";".
pub fn clean_result(input_str: Option<&str>, separator: Option<&str>) -> (r: String)
    ensures
        r@ == match input_str {
            None => Seq::<char>::empty(),
            Some(s) => cleaned(s@, match separator { Some(p) => p@, None => ";"@ }),
        },
{
    let s = match input_str {
        None => return String::new(),
        Some(s) => s,
    };
    let sep: &str = match separator {
        Some(p) => p,
        None => ";",
    };
    let v = chars_of(s);
    let a = strip_type_prefix_exec(&v);
    let b = strip_midnight_exec(&a);
    let c = replace_id_seps_exec(&b, sep);
    let d = strip_leading_id_exec(&c);
    let e = strip_edge_seps_exec(&d);
    let mut es = String::new();
    append_chars(&mut es, &e, 0, e.len());
    assert(e@.subrange(0, e@.len() as int) =~= e@);
    replace_str(es.as_str(), ";#", sep)
}

} // verus!
