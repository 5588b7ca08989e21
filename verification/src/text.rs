//! Text utilities over `String` and `&str`, specified over their character
//! sequences: path splitting and joining, qualified-name splitting, prefix
//! stripping, and decimal integers.

use vstd::prelude::*;
use vstd::std_specs::iter::IteratorSpec;

verus! {

broadcast use vstd::string::group_string_axioms;

// ---------------------------------------------------------------------------
// Specifications
// ---------------------------------------------------------------------------

/// The character sequences of a sequence of strings.
pub open spec fn strs(v: Seq<String>) -> Seq<Seq<char>> {
    v.map_values(|s: String| s@)
}

/// `s` split at every occurrence of `sep`, as `str::split` does: always at
/// least one part, empty parts kept.
pub open spec fn split_char(s: Seq<char>, sep: char) -> Seq<Seq<char>>
    decreases s.len(),
{
    if s.len() == 0 {
        seq![Seq::<char>::empty()]
    } else {
        let p = split_char(s.drop_last(), sep);
        if s.last() == sep {
            p.push(Seq::<char>::empty())
        } else {
            p.update(p.len() - 1, p.last().push(s.last()))
        }
    }
}

/// The non-empty parts, in order.
pub open spec fn non_empty(parts: Seq<Seq<char>>) -> Seq<Seq<char>>
    decreases parts.len(),
{
    if parts.len() == 0 {
        Seq::<Seq<char>>::empty()
    } else if parts.last().len() > 0 {
        non_empty(parts.drop_last()).push(parts.last())
    } else {
        non_empty(parts.drop_last())
    }
}

/// The `/`-separated segments of a path, empty segments dropped.
pub open spec fn path_segments(s: Seq<char>) -> Seq<Seq<char>> {
    non_empty(split_char(s, '/'))
}

/// The parts joined with `sep` between consecutive parts.
pub open spec fn join(parts: Seq<Seq<char>>, sep: Seq<char>) -> Seq<char>
    decreases parts.len(),
{
    if parts.len() == 0 {
        Seq::<char>::empty()
    } else if parts.len() == 1 {
        parts[0]
    } else {
        join(parts.drop_last(), sep) + sep + parts.last()
    }
}

/// Index of the first occurrence of `c` in `s`, if any.
pub open spec fn first_index_of(s: Seq<char>, c: char) -> Option<int>
    decreases s.len(),
{
    if s.len() == 0 {
        None
    } else if s[0] == c {
        Some(0)
    } else {
        match first_index_of(s.drop_first(), c) {
            Some(i) => Some(i + 1),
            None => None,
        }
    }
}

/// `str::split_once` on a character: the text before and after the first
/// occurrence of `c`.
pub open spec fn split_once(s: Seq<char>, c: char) -> Option<(Seq<char>, Seq<char>)> {
    match first_index_of(s, c) {
        Some(i) => Some((s.take(i), s.skip(i + 1))),
        None => None,
    }
}

/// `str::strip_prefix`.
pub open spec fn strip_prefix(s: Seq<char>, p: Seq<char>) -> Option<Seq<char>> {
    if p.len() <= s.len() && s.take(p.len() as int) == p {
        Some(s.skip(p.len() as int))
    } else {
        None
    }
}

/// `str::strip_suffix`.
pub open spec fn strip_suffix(s: Seq<char>, p: Seq<char>) -> Option<Seq<char>> {
    if p.len() <= s.len() && s.skip(s.len() - p.len()) == p {
        Some(s.take(s.len() - p.len()))
    } else {
        None
    }
}

pub open spec fn is_digit(c: char) -> bool {
    '0' <= c && c <= '9'
}

pub open spec fn digit_value(c: char) -> nat {
    (c as u32 - '0' as u32) as nat
}

pub open spec fn all_digits(d: Seq<char>) -> bool {
    forall|i: int| 0 <= i < d.len() ==> #[trigger] is_digit(d[i])
}

/// The value of a sequence of decimal digits.
pub open spec fn digits_value(d: Seq<char>) -> nat
    decreases d.len(),
{
    if d.len() == 0 {
        0
    } else {
        digits_value(d.drop_last()) * 10 + digit_value(d.last())
    }
}

/// `u64::from_str`: an optional `+`, then one or more decimal digits whose
/// value fits in `u64`.
pub open spec fn spec_parse_u64(s: Seq<char>) -> Option<u64> {
    let d = if s.len() > 0 && s[0] == '+' {
        s.drop_first()
    } else {
        s
    };
    if d.len() > 0 && all_digits(d) && digits_value(d) <= u64::MAX {
        Some(digits_value(d) as u64)
    } else {
        None
    }
}

/// `i64::from_str`: an optional `+` or `-`, then one or more decimal digits
/// whose signed value fits in `i64`.
pub open spec fn spec_parse_i64(s: Seq<char>) -> Option<i64> {
    let neg = s.len() > 0 && s[0] == '-';
    let d = if s.len() > 0 && (s[0] == '+' || s[0] == '-') {
        s.drop_first()
    } else {
        s
    };
    if d.len() > 0 && all_digits(d) {
        if neg && digits_value(d) <= 0x8000_0000_0000_0000 {
            Some((0 - digits_value(d)) as i64)
        } else if !neg && digits_value(d) <= i64::MAX {
            Some(digits_value(d) as i64)
        } else {
            None
        }
    } else {
        None
    }
}

pub open spec fn digit_char(d: nat) -> char {
    ((d + '0' as u32) as u32) as char
}

/// The shortest decimal spelling of `n`, as `u64::to_string` gives it.
pub open spec fn decimal(n: nat) -> Seq<char>
    decreases n,
{
    if n < 10 {
        seq![digit_char(n)]
    } else {
        decimal(n / 10).push(digit_char(n % 10))
    }
}

// ---------------------------------------------------------------------------
// Lemmas
// ---------------------------------------------------------------------------

/// Pushing a string pushes its characters.
pub proof fn lemma_strs_push(v: Seq<String>, x: String)
    ensures
        strs(v.push(x)) == strs(v).push(x@),
{
    assert(strs(v.push(x)) =~= strs(v).push(x@));
}

/// Concatenating strings concatenates their characters.
pub proof fn lemma_strs_add(a: Seq<String>, b: Seq<String>)
    ensures
        strs(a + b) == strs(a) + strs(b),
{
    assert(strs(a + b) =~= strs(a) + strs(b));
}

proof fn lemma_split_nonempty(s: Seq<char>, sep: char)
    ensures
        split_char(s, sep).len() >= 1,
    decreases s.len(),
{
    if s.len() > 0 {
        lemma_split_nonempty(s.drop_last(), sep);
    }
}

/// Joining the parts of a split with its separator gives the text back.
pub proof fn lemma_join_split(s: Seq<char>, sep: char)
    ensures
        join(split_char(s, sep), seq![sep]) == s,
    decreases s.len(),
{
    if s.len() == 0 {
        assert(split_char(s, sep) =~= seq![Seq::<char>::empty()]);
        assert(s =~= Seq::<char>::empty());
    } else {
        let t = s.drop_last();
        let c = s.last();
        let p = split_char(t, sep);
        lemma_join_split(t, sep);
        lemma_split_nonempty(t, sep);
        if c == sep {
            let q = p.push(Seq::<char>::empty());
            assert(q.drop_last() =~= p);
            assert(join(q, seq![sep]) == join(p, seq![sep]) + seq![sep] + Seq::<char>::empty());
            assert(s =~= t + seq![sep] + Seq::<char>::empty());
        } else {
            let q = p.update(p.len() - 1, p.last().push(c));
            if p.len() == 1 {
                assert(join(q, seq![sep]) == q[0]);
                assert(join(p, seq![sep]) == p[0]);
                assert(s =~= t.push(c));
            } else {
                assert(q.drop_last() =~= p.drop_last());
                assert(join(q, seq![sep]) == join(p.drop_last(), seq![sep]) + seq![sep] + p.last().push(c));
                assert(join(p, seq![sep]) == join(p.drop_last(), seq![sep]) + seq![sep] + p.last());
                assert(join(p.drop_last(), seq![sep]) + seq![sep] + p.last().push(c) =~= (join(p.drop_last(), seq![sep])
                    + seq![sep] + p.last()).push(c));
                assert(s =~= t.push(c));
            }
        }
    }
}

/// Parts none of which is empty are kept as they are.
pub proof fn lemma_non_empty_all(parts: Seq<Seq<char>>)
    requires
        forall|i: int| 0 <= i < parts.len() ==> (#[trigger] parts[i]).len() > 0,
    ensures
        non_empty(parts) == parts,
    decreases parts.len(),
{
    if parts.len() > 0 {
        let d = parts.drop_last();
        assert forall|i: int| 0 <= i < d.len() implies (#[trigger] d[i]).len() > 0 by {
            assert(d[i] == parts[i]);
        }
        lemma_non_empty_all(d);
        assert(parts.last() == parts[parts.len() - 1]);
        assert(d.push(parts.last()) =~= parts);
    }
}

proof fn lemma_digits_value_monotone(d: Seq<char>, i: int)
    requires
        0 <= i <= d.len(),
    ensures
        digits_value(d.take(i)) <= digits_value(d),
    decreases d.len() - i,
{
    if i < d.len() {
        lemma_digits_value_monotone(d, i + 1);
        assert(d.take(i + 1).drop_last() =~= d.take(i));
    } else {
        assert(d.take(i) =~= d);
    }
}

proof fn lemma_decimal_digits(n: nat)
    ensures
        decimal(n).len() > 0,
        all_digits(decimal(n)),
        digits_value(decimal(n)) == n,
        decimal(n)[0] != '+' && decimal(n)[0] != '-',
    decreases n,
{
    assert(digit_value(digit_char(n % 10)) == n % 10);
    if n < 10 {
        let d = decimal(n);
        assert(d.drop_last() =~= Seq::<char>::empty());
        assert(n % 10 == n);
        assert(d.last() == digit_char(n));
        assert(digits_value(d) == digits_value(d.drop_last()) * 10 + digit_value(d.last()));
        assert(digits_value(Seq::<char>::empty()) == 0);
    }
    if n >= 10 {
        lemma_decimal_digits(n / 10);
        let d = decimal(n);
        assert(d.drop_last() =~= decimal(n / 10));
        assert(d.last() == digit_char(n % 10));
        assert(digits_value(d) == digits_value(decimal(n / 10)) * 10 + digit_value(d.last()));
        assert(n == (n / 10) * 10 + n % 10) by {
            vstd::arithmetic::div_mod::lemma_fundamental_div_mod(n as int, 10);
        }
        assert forall|i: int| 0 <= i < d.len() implies #[trigger] is_digit(d[i]) by {
            if i < d.len() - 1 {
                assert(d[i] == decimal(n / 10)[i]);
            }
        }
    }
}

/// The decimal spelling of a number starts with a digit.
pub proof fn lemma_decimal_head_is_digit(n: nat)
    ensures
        decimal(n).len() > 0,
        is_digit(decimal(n)[0]),
{
    lemma_decimal_digits(n);
}

/// Distinct numbers have distinct decimal spellings.
pub proof fn lemma_decimal_injective(a: nat, b: nat)
    requires
        decimal(a) == decimal(b),
    ensures
        a == b,
{
    lemma_decimal_digits(a);
    lemma_decimal_digits(b);
}

/// Parsing the decimal spelling of a `u64` gives it back.
pub proof fn lemma_parse_decimal_u64(n: u64)
    ensures
        spec_parse_u64(decimal(n as nat)) == Some(n),
{
    lemma_decimal_digits(n as nat);
}

// ---------------------------------------------------------------------------
// Executable helpers
// ---------------------------------------------------------------------------

/// The characters of `s`, in order.
pub fn chars_of(s: &str) -> (v: Vec<char>)
    ensures
        v@ == s@,
{
    let mut it = s.chars();
    let mut v: Vec<char> = Vec::new();
    loop
        invariant
            v@ + it.remaining() == s@,
            it.obeys_prophetic_iter_laws(),
            it.decrease() is Some,
        decreases it.decrease()->0,
    {
        match it.next() {
            Some(c) => {
                v.push(c);
                assert(v@ + it.remaining() =~= s@);
            },
            None => {
                assert(v@ =~= s@);
                return v;
            },
        }
    }
}

/// Appends one character to a `String` (`String::push`).
#[verifier::external_body]
fn push_char(s: &mut String, c: char)
    ensures
        final(s)@ == old(s)@.push(c),
{
    s.push(c)
}

/// Equality of two string slices, character by character.
pub fn str_eq(a: &str, b: &str) -> (r: bool)
    ensures
        r == (a@ == b@),
{
    let x = chars_of(a);
    let y = chars_of(b);
    if x.len() != y.len() {
        return false;
    }
    let mut i: usize = 0;
    while i < x.len()
        invariant
            x@ == a@,
            y@ == b@,
            x@.len() == y@.len(),
            i <= x@.len(),
            forall|j: int| 0 <= j < i ==> x@[j] == y@[j],
        decreases x.len() - i,
    {
        if x[i] != y[i] {
            return false;
        }
        i = i + 1;
    }
    assert(x@ =~= y@);
    true
}

/// An owned copy of a string slice.
pub fn owned(s: &str) -> (r: String)
    ensures
        r@ == s@,
{
    s.to_owned()
}

/// The string made of the given characters.
pub fn string_of(v: &[char]) -> (s: String)
    ensures
        s@ == v@,
{
    let mut s = String::new();
    let mut i: usize = 0;
    while i < v.len()
        invariant
            i <= v.len(),
            s@ == v@.take(i as int),
        decreases v.len() - i,
    {
        push_char(&mut s, v[i]);
        i = i + 1;
        assert(s@ =~= v@.take(i as int));
    }
    assert(v@.take(v.len() as int) =~= v@);
    s
}

/// `a` followed by `b`.
pub fn concat(a: &str, b: &str) -> (s: String)
    ensures
        s@ == a@ + b@,
{
    let mut s = owned(a);
    let bv = chars_of(b);
    let mut i: usize = 0;
    while i < bv.len()
        invariant
            i <= bv.len(),
            bv@ == b@,
            s@ == a@ + bv@.take(i as int),
        decreases bv.len() - i,
    {
        push_char(&mut s, bv[i]);
        i = i + 1;
        assert(s@ =~= a@ + bv@.take(i as int));
    }
    assert(bv@.take(bv.len() as int) =~= bv@);
    s
}

/// `a`, then `sep`, then `b`.
pub fn concat3(a: &str, sep: &str, b: &str) -> (s: String)
    ensures
        s@ == a@ + sep@ + b@,
{
    let ab = concat(a, sep);
    concat(ab.as_str(), b)
}

/// The non-empty `/`-separated segments of `s`.
pub fn split_path(s: &str) -> (r: Vec<String>)
    ensures
        strs(r@) == path_segments(s@),
{
    let cs = chars_of(s);
    let mut done: Vec<String> = Vec::new();
    let mut cur: Vec<char> = Vec::new();
    let mut i: usize = 0;
    proof {
        assert(cs@.take(0) =~= Seq::<char>::empty());
        assert(non_empty(split_char(Seq::<char>::empty(), '/').drop_last()) =~= Seq::<Seq<char>>::empty());
    }
    while i < cs.len()
        invariant
            i <= cs.len(),
            cs@ == s@,
            split_char(cs@.take(i as int), '/').len() >= 1,
            split_char(cs@.take(i as int), '/').last() == cur@,
            strs(done@) == non_empty(split_char(cs@.take(i as int), '/').drop_last()),
        decreases cs.len() - i,
    {
        let c = cs[i];
        let ghost p = split_char(cs@.take(i as int), '/');
        proof {
            assert(cs@.take(i + 1).drop_last() =~= cs@.take(i as int));
            assert(cs@.take(i + 1).last() == c);
        }
        if c == '/' {
            if cur.len() > 0 {
                let seg = string_of(cur.as_slice());
                done.push(seg);
            }
            proof {
                let q = split_char(cs@.take(i + 1), '/');
                assert(q == p.push(Seq::<char>::empty()));
                assert(q.drop_last() =~= p);
                assert(p.drop_last() =~= p.drop_last());
                assert(strs(done@) =~= non_empty(p));
            }
            cur = Vec::new();
            proof {
                assert(cur@ =~= Seq::<char>::empty());
            }
        } else {
            cur.push(c);
            proof {
                let q = split_char(cs@.take(i + 1), '/');
                assert(q == p.update(p.len() - 1, p.last().push(c)));
                assert(q.drop_last() =~= p.drop_last());
                assert(q.last() =~= cur@);
            }
        }
        i = i + 1;
    }
    proof {
        assert(cs@.take(cs.len() as int) =~= cs@);
    }
    let ghost p = split_char(cs@, '/');
    if cur.len() > 0 {
        let seg = string_of(cur.as_slice());
        done.push(seg);
    }
    proof {
        assert(strs(done@) =~= non_empty(p));
    }
    done
}

/// The parts joined with `/`.
pub fn join_slash(parts: &Vec<String>) -> (s: String)
    ensures
        s@ == join(strs(parts@), seq!['/']),
{
    let s = join_with(parts, "/");
    proof {
        reveal_strlit("/");
        assert("/"@ =~= seq!['/']);
    }
    s
}

/// The parts joined with `sep` between consecutive parts (`[String]::join`).
pub fn join_with(parts: &Vec<String>, sep: &str) -> (s: String)
    ensures
        s@ == join(strs(parts@), sep@),
{
    let mut s = String::new();
    let mut i: usize = 0;
    while i < parts.len()
        invariant
            i <= parts.len(),
            s@ == join(strs(parts@.take(i as int)), sep@),
        decreases parts.len() - i,
    {
        proof {
            assert(strs(parts@.take(i + 1)).drop_last() =~= strs(parts@.take(i as int)));
        }
        if i == 0 {
            s = owned(parts[i].as_str());
            proof {
                assert(strs(parts@.take(1)) =~= seq![parts@[0]@]);
            }
        } else {
            s = concat3(s.as_str(), sep, parts[i].as_str());
        }
        i = i + 1;
    }
    proof {
        assert(parts@.take(parts.len() as int) =~= parts@);
    }
    s
}

/// Splits at the first `c`: the text before and after it.
pub fn split_once_char(s: &str, c: char) -> (r: Option<(String, String)>)
    ensures
        match r {
            Some((a, b)) => split_once(s@, c) == Some((a@, b@)),
            None => split_once(s@, c) is None,
        },
{
    let cs = chars_of(s);
    let mut i: usize = 0;
    while i < cs.len()
        invariant
            i <= cs.len(),
            cs@ == s@,
            forall|j: int| 0 <= j < i ==> cs@[j] != c,
        decreases cs.len() - i,
    {
        if cs[i] == c {
            proof {
                lemma_first_index_of(cs@, c, i as int);
            }
            let a = string_of(slice_take(cs.as_slice(), i).as_slice());
            let b = string_of(slice_skip(cs.as_slice(), i + 1).as_slice());
            return Some((a, b));
        }
        i = i + 1;
    }
    proof {
        lemma_first_index_none(cs@, c);
    }
    None
}

pub proof fn lemma_first_index_of(s: Seq<char>, c: char, i: int)
    requires
        0 <= i < s.len(),
        s[i] == c,
        forall|j: int| 0 <= j < i ==> s[j] != c,
    ensures
        first_index_of(s, c) == Some(i),
    decreases i,
{
    if i > 0 {
        lemma_first_index_of(s.drop_first(), c, i - 1);
    }
}

pub proof fn lemma_first_index_none(s: Seq<char>, c: char)
    requires
        forall|j: int| 0 <= j < s.len() ==> s[j] != c,
    ensures
        first_index_of(s, c) is None,
    decreases s.len(),
{
    if s.len() > 0 {
        lemma_first_index_none(s.drop_first(), c);
    }
}

fn slice_take(v: &[char], n: usize) -> (r: Vec<char>)
    requires
        n <= v@.len(),
    ensures
        r@ == v@.take(n as int),
{
    let mut r: Vec<char> = Vec::new();
    let mut i: usize = 0;
    while i < n
        invariant
            i <= n <= v@.len(),
            r@ == v@.take(i as int),
        decreases n - i,
    {
        r.push(v[i]);
        i = i + 1;
        assert(r@ =~= v@.take(i as int));
    }
    r
}

fn slice_skip(v: &[char], n: usize) -> (r: Vec<char>)
    requires
        n <= v@.len(),
    ensures
        r@ == v@.skip(n as int),
{
    let mut r: Vec<char> = Vec::new();
    let mut i: usize = n;
    while i < v.len()
        invariant
            n <= i <= v@.len(),
            r@ == v@.subrange(n as int, i as int),
        decreases v.len() - i,
    {
        r.push(v[i]);
        i = i + 1;
        assert(r@ =~= v@.subrange(n as int, i as int));
    }
    assert(v@.subrange(n as int, v@.len() as int) =~= v@.skip(n as int));
    r
}

/// `str::strip_prefix`, giving an owned remainder.
pub fn strip_prefix_str(s: &str, p: &str) -> (r: Option<String>)
    ensures
        match r {
            Some(x) => strip_prefix(s@, p@) == Some(x@),
            None => strip_prefix(s@, p@) is None,
        },
{
    let cs = chars_of(s);
    let ps = chars_of(p);
    if ps.len() > cs.len() {
        return None;
    }
    let mut i: usize = 0;
    while i < ps.len()
        invariant
            i <= ps.len() <= cs.len(),
            cs@ == s@,
            ps@ == p@,
            cs@.take(i as int) == ps@.take(i as int),
        decreases ps.len() - i,
    {
        if cs[i] != ps[i] {
            proof {
                assert(cs@.take(ps.len() as int)[i as int] != ps@[i as int]);
            }
            return None;
        }
        i = i + 1;
        assert(cs@.take(i as int) =~= ps@.take(i as int));
    }
    assert(ps@.take(ps.len() as int) =~= ps@);
    Some(string_of(slice_skip(cs.as_slice(), ps.len()).as_slice()))
}

/// `str::strip_suffix` for a single trailing character, giving an owned
/// remainder.
pub fn strip_suffix_char(s: &str, c: char) -> (r: Option<String>)
    ensures
        match r {
            Some(x) => strip_suffix(s@, seq![c]) == Some(x@),
            None => strip_suffix(s@, seq![c]) is None,
        },
{
    let cs = chars_of(s);
    if cs.len() == 0 {
        return None;
    }
    if cs[cs.len() - 1] != c {
        proof {
            assert(cs@.skip(cs@.len() - 1)[0] != c);
        }
        return None;
    }
    proof {
        assert(cs@.skip(cs@.len() - 1) =~= seq![c]);
    }
    Some(string_of(slice_take(cs.as_slice(), cs.len() - 1).as_slice()))
}

/// Value of a non-empty run of decimal digits, `None` on a non-digit or on
/// overflow of `u64`.
fn digits_u64(d: &[char]) -> (r: Option<u64>)
    ensures
        match r {
            Some(v) => d@.len() > 0 && all_digits(d@) && digits_value(d@) == v,
            None => !(d@.len() > 0 && all_digits(d@) && digits_value(d@) <= u64::MAX),
        },
{
    if d.len() == 0 {
        return None;
    }
    let mut v: u64 = 0;
    let mut i: usize = 0;
    while i < d.len()
        invariant
            i <= d@.len(),
            d@.len() > 0,
            all_digits(d@.take(i as int)),
            digits_value(d@.take(i as int)) == v,
        decreases d.len() - i,
    {
        let c = d[i];
        proof {
            assert(d@.take(i + 1).drop_last() =~= d@.take(i as int));
        }
        if !('0' <= c && c <= '9') {
            proof {
                assert(!is_digit(d@[i as int]));
            }
            return None;
        }
        let dv = (c as u32 - '0' as u32) as u64;
        match v.checked_mul(10) {
            Some(m) => match m.checked_add(dv) {
                Some(n) => {
                    v = n;
                },
                None => {
                    proof {
                        lemma_digits_value_monotone(d@, i + 1);
                    }
                    return None;
                },
            },
            None => {
                proof {
                    lemma_digits_value_monotone(d@, i + 1);
                }
                return None;
            },
        }
        i = i + 1;
        proof {
            assert forall|j: int| 0 <= j < i implies #[trigger] is_digit(d@.take(i as int)[j]) by {
                if j < i - 1 {
                    assert(d@.take(i as int)[j] == d@.take(i - 1)[j]);
                }
            }
        }
    }
    assert(d@.take(d@.len() as int) =~= d@);
    Some(v)
}

/// `u64::from_str`.
pub fn parse_u64(s: &str) -> (r: Option<u64>)
    ensures
        r == spec_parse_u64(s@),
{
    let cs = chars_of(s);
    let d = if cs.len() > 0 && cs[0] == '+' {
        slice_skip(cs.as_slice(), 1)
    } else {
        slice_skip(cs.as_slice(), 0)
    };
    proof {
        assert(cs@.skip(1) =~= cs@.drop_first());
        assert(cs@.skip(0) =~= cs@);
    }
    digits_u64(d.as_slice())
}

/// `i64::from_str`.
pub fn parse_i64(s: &str) -> (r: Option<i64>)
    ensures
        r == spec_parse_i64(s@),
{
    let cs = chars_of(s);
    let neg = cs.len() > 0 && cs[0] == '-';
    let d = if cs.len() > 0 && (cs[0] == '+' || cs[0] == '-') {
        slice_skip(cs.as_slice(), 1)
    } else {
        slice_skip(cs.as_slice(), 0)
    };
    proof {
        assert(cs@.skip(1) =~= cs@.drop_first());
        assert(cs@.skip(0) =~= cs@);
    }
    match digits_u64(d.as_slice()) {
        Some(m) => {
            if neg {
                if m <= 0x8000_0000_0000_0000u64 {
                    if m == 0x8000_0000_0000_0000u64 {
                        Some(i64::MIN)
                    } else {
                        Some(0i64 - (m as i64))
                    }
                } else {
                    None
                }
            } else if m <= 0x7fff_ffff_ffff_ffffu64 {
                Some(m as i64)
            } else {
                None
            }
        },
        None => None,
    }
}

/// The decimal spelling of `n` (`to_string` of an unsigned integer).
pub fn to_decimal(n: u128) -> (s: String)
    ensures
        s@ == decimal(n as nat),
{
    let mut rev: Vec<char> = Vec::new();
    let mut m: u128 = n;
    while m >= 10
        invariant
            decimal(n as nat) == decimal(m as nat) + rev@.reverse(),
        decreases m,
    {
        let dch = char_of_digit(m % 10);
        let ghost old_rev = rev@;
        proof {
            assert(decimal(m as nat) == decimal((m / 10) as nat).push(dch));
        }
        rev.push(dch);
        proof {
            assert(rev@.reverse() =~= seq![dch] + old_rev.reverse());
            assert(decimal(m as nat) + old_rev.reverse() =~= decimal((m / 10) as nat) + rev@.reverse());
        }
        m = m / 10;
    }
    let ghost old_rev = rev@;
    let last = char_of_digit(m);
    rev.push(last);
    proof {
        assert(decimal(m as nat) == seq![last]);
        assert(rev@.reverse() =~= seq![last] + old_rev.reverse());
    }
    let mut out: Vec<char> = Vec::new();
    let mut i: usize = rev.len();
    while i > 0
        invariant
            i <= rev@.len(),
            out@ == rev@.skip(i as int).reverse(),
        decreases i,
    {
        i = i - 1;
        out.push(rev[i]);
        assert(out@ =~= rev@.skip(i as int).reverse());
    }
    assert(rev@.skip(0) =~= rev@);
    string_of(out.as_slice())
}

fn char_of_digit(d: u128) -> (c: char)
    requires
        d < 10,
    ensures
        c == digit_char(d as nat),
{
    if d == 0 {
        '0'
    } else if d == 1 {
        '1'
    } else if d == 2 {
        '2'
    } else if d == 3 {
        '3'
    } else if d == 4 {
        '4'
    } else if d == 5 {
        '5'
    } else if d == 6 {
        '6'
    } else if d == 7 {
        '7'
    } else if d == 8 {
        '8'
    } else {
        '9'
    }
}

/// The decimal spelling of a signed integer (`i64::to_string`).
pub open spec fn signed_decimal(v: i64) -> Seq<char> {
    if v >= 0 {
        decimal(v as nat)
    } else {
        seq!['-'] + decimal((-v) as nat)
    }
}

/// `i64::to_string`.
pub fn i64_to_decimal(v: i64) -> (s: String)
    ensures
        s@ == signed_decimal(v),
{
    if v >= 0 {
        to_decimal(v as u128)
    } else {
        let m: i128 = -(v as i128);
        let d = to_decimal(m as u128);
        let r = concat("-", d.as_str());
        proof {
            reveal_strlit("-");
            assert("-"@ =~= seq!['-']);
        }
        r
    }
}

/// A copy of a vector of strings.
pub fn clone_strings(v: &Vec<String>) -> (r: Vec<String>)
    ensures
        strs(r@) == strs(v@),
{
    let mut out: Vec<String> = Vec::new();
    let mut i: usize = 0;
    while i < v.len()
        invariant
            i <= v@.len(),
            strs(out@) == strs(v@.take(i as int)),
        decreases v.len() - i,
    {
        let ghost old_out = out@;
        let x = owned(v[i].as_str());
        out.push(x);
        proof {
            lemma_strs_push(old_out, x);
            assert(v@.take(i + 1) =~= v@.take(i as int).push(v@[i as int]));
            lemma_strs_push(v@.take(i as int), v@[i as int]);
        }
        i = i + 1;
    }
    proof {
        assert(v@.take(v@.len() as int) =~= v@);
    }
    out
}

} // verus!
