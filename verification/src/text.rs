//! Character-sequence utilities shared by the command processor and the FEN
//! validator: whitespace trimming, separator splitting, prefix tests and
//! decimal rendering/parsing, each with a spec-level definition.

use vstd::prelude::*;
use vstd::string::StrSliceExecFns;
use vstd::string::StringExecFns;

verus! {

/// ASCII whitespace as the protocol understands it: commands arrive one per
/// line and carry at most spaces, tabs and the line terminator around them.
pub open spec fn is_ws(c: char) -> bool {
    c == ' ' || c == '\t' || c == '\n' || c == '\r'
}

pub open spec fn trim_front(s: Seq<char>) -> Seq<char>
    decreases s.len(),
{
    if s.len() > 0 && is_ws(s[0]) {
        trim_front(s.drop_first())
    } else {
        s
    }
}

pub open spec fn trim_back(s: Seq<char>) -> Seq<char>
    decreases s.len(),
{
    if s.len() > 0 && is_ws(s.last()) {
        trim_back(s.drop_last())
    } else {
        s
    }
}

/// A command line with surrounding whitespace removed.
pub open spec fn spec_trim(s: Seq<char>) -> Seq<char> {
    trim_back(trim_front(s))
}

/// `p` is a prefix of `s`.
pub open spec fn has_prefix(s: Seq<char>, p: Seq<char>) -> bool {
    p.len() <= s.len() && s.take(p.len() as int) == p
}

proof fn lemma_trim_front_skip(s: Seq<char>, a: int)
    requires
        0 <= a <= s.len(),
        forall|k: int| 0 <= k < a ==> is_ws(s[k]),
    ensures
        trim_front(s) == trim_front(s.skip(a)),
    decreases a,
{
    if a > 0 {
        assert(is_ws(s[0]));
        lemma_trim_front_skip(s.drop_first(), a - 1);
        assert(s.drop_first().skip(a - 1) =~= s.skip(a));
    } else {
        assert(s.skip(0) =~= s);
    }
}

proof fn lemma_trim_back_take(s: Seq<char>, b: int)
    requires
        0 <= b <= s.len(),
        forall|k: int| b <= k < s.len() ==> is_ws(s[k]),
    ensures
        trim_back(s) == trim_back(s.take(b)),
    decreases s.len() - b,
{
    if b < s.len() {
        assert(is_ws(s.last()));
        lemma_trim_back_take(s.drop_last(), b);
        assert(s.drop_last().take(b) =~= s.take(b));
    } else {
        assert(s.take(b) =~= s);
    }
}

fn is_ws_exec(c: char) -> (r: bool)
    ensures
        r == is_ws(c),
{
    c == ' ' || c == '\t' || c == '\n' || c == '\r'
}

/// The characters of `s`, in order.
pub fn str_chars(s: &str) -> (r: Vec<char>)
    ensures
        r@ == s@,
{
    let n = s.unicode_len();
    let mut r: Vec<char> = Vec::new();
    let mut i: usize = 0;
    while i < n
        invariant
            i <= n,
            n == s@.len(),
            r@ == s@.take(i as int),
        decreases n - i,
    {
        let c = s.get_char(i);
        r.push(c);
        proof {
            assert(s@.take(i as int).push(s@[i as int]) =~= s@.take(i + 1 as int));
        }
        i = i + 1;
    }
    proof {
        assert(s@.take(n as int) =~= s@);
    }
    r
}

/// Surrounding whitespace removed, per `spec_trim`.
pub fn trim_chars(v: &Vec<char>) -> (r: Vec<char>)
    ensures
        r@ == spec_trim(v@),
{
    let mut a: usize = 0;
    while a < v.len() && is_ws_exec(v[a])
        invariant
            a <= v.len(),
            forall|k: int| 0 <= k < a ==> is_ws(v@[k]),
        decreases v.len() - a,
    {
        a = a + 1;
    }
    proof {
        lemma_trim_front_skip(v@, a as int);
        assert(trim_front(v@.skip(a as int)) == v@.skip(a as int));
    }
    let mut b: usize = v.len();
    while b > a && is_ws_exec(v[b - 1])
        invariant
            a <= b <= v.len(),
            forall|k: int| b <= k < v@.len() ==> is_ws(v@[k]),
        decreases b,
    {
        b = b - 1;
    }
    proof {
        let t = v@.skip(a as int);
        assert forall|k: int| b - a <= k < t.len() implies is_ws(t[k]) by {
            assert(t[k] == v@[a + k]);
        }
        lemma_trim_back_take(t, b - a);
        assert(t.take(b - a) =~= v@.subrange(a as int, b as int));
        assert(trim_back(v@.subrange(a as int, b as int)) == v@.subrange(a as int, b as int));
    }
    let mut r: Vec<char> = Vec::new();
    let mut i: usize = a;
    while i < b
        invariant
            a <= i <= b <= v.len(),
            r@ == v@.subrange(a as int, i as int),
        decreases b - i,
    {
        r.push(v[i]);
        proof {
            assert(v@.subrange(a as int, i as int).push(v@[i as int]) =~= v@.subrange(
                a as int,
                i + 1 as int,
            ));
        }
        i = i + 1;
    }
    r
}

/// Whether the characters equal the string's, per `==` on the views.
pub fn chars_eq_str(v: &Vec<char>, s: &str) -> (r: bool)
    ensures
        r == (v@ == s@),
{
    let n = s.unicode_len();
    if v.len() != n {
        return false;
    }
    let mut i: usize = 0;
    while i < n
        invariant
            i <= n,
            n == s@.len(),
            v@.len() == n,
            forall|k: int| 0 <= k < i ==> v@[k] == s@[k],
        decreases n - i,
    {
        if v[i] != s.get_char(i) {
            return false;
        }
        i = i + 1;
    }
    proof {
        assert(v@ =~= s@);
    }
    true
}

/// Whether the string `p` is a prefix of the characters `v`.
pub fn chars_has_prefix(v: &Vec<char>, p: &str) -> (r: bool)
    ensures
        r == has_prefix(v@, p@),
{
    let n = p.unicode_len();
    if v.len() < n {
        return false;
    }
    let mut i: usize = 0;
    while i < n
        invariant
            i <= n,
            n == p@.len(),
            n <= v@.len(),
            forall|k: int| 0 <= k < i ==> v@[k] == p@[k],
        decreases n - i,
    {
        if v[i] != p.get_char(i) {
            proof {
                assert(v@.take(n as int)[i as int] == v@[i as int]);
            }
            return false;
        }
        i = i + 1;
    }
    proof {
        assert(v@.take(n as int) =~= p@);
    }
    true
}

/// The characters from position `from` on.
pub fn chars_suffix(v: &Vec<char>, from: usize) -> (r: Vec<char>)
    requires
        from <= v.len(),
    ensures
        r@ == v@.skip(from as int),
{
    let mut r: Vec<char> = Vec::new();
    let mut i: usize = from;
    while i < v.len()
        invariant
            from <= i <= v.len(),
            r@ == v@.subrange(from as int, i as int),
        decreases v.len() - i,
    {
        r.push(v[i]);
        proof {
            assert(v@.subrange(from as int, i as int).push(v@[i as int]) =~= v@.subrange(
                from as int,
                i + 1 as int,
            ));
        }
        i = i + 1;
    }
    proof {
        assert(v@.subrange(from as int, v@.len() as int) =~= v@.skip(from as int));
    }
    r
}

/// The fields of `s` between occurrences of `sep`: one more field than there
/// are separators, in order, separators not kept. The empty sequence has one
/// empty field.
pub open spec fn split_on(s: Seq<char>, sep: char) -> Seq<Seq<char>>
    decreases s.len(),
{
    if s.len() == 0 {
        seq![Seq::<char>::empty()]
    } else if s[0] == sep {
        seq![Seq::<char>::empty()] + split_on(s.drop_first(), sep)
    } else {
        let rest = split_on(s.drop_first(), sep);
        seq![seq![s[0]] + rest[0]] + rest.drop_first()
    }
}

pub proof fn lemma_split_on_len(s: Seq<char>, sep: char)
    ensures
        split_on(s, sep).len() >= 1,
    decreases s.len(),
{
    if s.len() > 0 {
        lemma_split_on_len(s.drop_first(), sep);
    }
}

/// Appending one character extends the last field, or opens a new one.
pub proof fn lemma_split_on_push(s: Seq<char>, sep: char, c: char)
    ensures
        c == sep ==> split_on(s.push(c), sep) == split_on(s, sep).push(Seq::<char>::empty()),
        c != sep ==> ({
            let t = split_on(s, sep);
            split_on(s.push(c), sep) == t.update(t.len() - 1, t.last().push(c))
        }),
    decreases s.len(),
{
    lemma_split_on_len(s, sep);
    if s.len() == 0 {
        assert(s =~= Seq::<char>::empty());
        assert(split_on(Seq::<char>::empty(), sep) == seq![Seq::<char>::empty()]);
        assert(s.push(c).drop_first() =~= Seq::<char>::empty());
        assert(s.push(c).len() > 0);
        assert(s.push(c)[0] == c);
        if c == sep {
            assert(split_on(s.push(c), sep) == seq![Seq::<char>::empty()] + split_on(
                s.push(c).drop_first(),
                sep,
            ));
            assert(split_on(s.push(c), sep) =~~= split_on(s, sep).push(Seq::<char>::empty()));
        } else {
            let t = split_on(s, sep);
            assert(seq![c] + split_on(Seq::<char>::empty(), sep)[0] =~= t.last().push(c));
            assert(split_on(s.push(c), sep) =~~= t.update(t.len() - 1, t.last().push(c)));
        }
    } else {
        lemma_split_on_push(s.drop_first(), sep, c);
        lemma_split_on_len(s.drop_first(), sep);
        assert(s.push(c).len() > 0);
        assert(s.push(c)[0] == s[0]);
        assert(s.push(c).drop_first() =~= s.drop_first().push(c));
        let u = split_on(s.drop_first(), sep);
        let w = split_on(s.drop_first().push(c), sep);
        if s[0] == sep {
            assert(split_on(s.push(c), sep) == seq![Seq::<char>::empty()] + w);
            assert(split_on(s, sep) == seq![Seq::<char>::empty()] + u);
            if c == sep {
                assert(w == u.push(Seq::<char>::empty()));
                assert(split_on(s.push(c), sep) =~~= split_on(s, sep).push(Seq::<char>::empty()));
            } else {
                let t = split_on(s, sep);
                assert(w == u.update(u.len() - 1, u.last().push(c)));
                assert(t.last() == u.last());
                assert(split_on(s.push(c), sep) =~~= t.update(t.len() - 1, t.last().push(c)));
            }
        } else {
            assert(split_on(s.push(c), sep) == seq![seq![s.push(c)[0]] + w[0]] + w.drop_first());
            assert(split_on(s, sep) == seq![seq![s[0]] + u[0]] + u.drop_first());
            if c == sep {
                assert(w[0] == u[0]);
                assert(w.drop_first() =~= u.drop_first().push(Seq::<char>::empty()));
                assert(split_on(s.push(c), sep) =~~= split_on(s, sep).push(Seq::<char>::empty()));
            } else {
                let t = split_on(s, sep);
                assert(w == u.update(u.len() - 1, u.last().push(c)));
                if u.len() == 1 {
                    assert(w[0] == u[0].push(c));
                    assert(seq![s[0]] + u[0].push(c) =~= (seq![s[0]] + u[0]).push(c));
                    assert(t.last() == seq![s[0]] + u[0]);
                    assert(split_on(s.push(c), sep) =~~= t.update(t.len() - 1, t.last().push(c)));
                } else {
                    assert(w[0] == u[0]);
                    assert(w.drop_first() =~= u.drop_first().update(
                        u.len() - 2,
                        u.last().push(c),
                    ));
                    assert(t.last() == u.last());
                    assert(split_on(s.push(c), sep) =~~= t.update(t.len() - 1, t.last().push(c)));
                }
            }
        }
    }
}

/// A sequence free of the separator splits into itself alone.
pub proof fn lemma_split_on_no_sep(s: Seq<char>, sep: char)
    requires
        forall|k: int| 0 <= k < s.len() ==> s[k] != sep,
    ensures
        split_on(s, sep) == seq![s],
    decreases s.len(),
{
    if s.len() == 0 {
        assert(seq![Seq::<char>::empty()] =~~= seq![s]);
    } else {
        lemma_split_on_no_sep(s.drop_first(), sep);
        assert(seq![s[0]] + s.drop_first() =~= s);
        assert(split_on(s, sep) =~~= seq![s]);
    }
}

/// A character absent from the whole sequence is absent from the first field.
pub proof fn lemma_split_on_first_absent(s: Seq<char>, sep: char, c: char)
    requires
        c != sep,
        forall|k: int| 0 <= k < s.len() ==> s[k] != c,
    ensures
        forall|k: int|
            0 <= k < split_on(s, sep)[0].len() ==> split_on(s, sep)[0][k] != c,
    decreases s.len(),
{
    if s.len() == 0 {
    } else if s[0] == sep {
    } else {
        lemma_split_on_first_absent(s.drop_first(), sep, c);
        lemma_split_on_len(s.drop_first(), sep);
        let rest0 = split_on(s.drop_first(), sep)[0];
        assert forall|k: int| 0 <= k < split_on(s, sep)[0].len() implies split_on(s, sep)[0][k]
            != c by {
            assert(split_on(s, sep)[0] == seq![s[0]] + rest0);
            if k == 0 {
                assert(split_on(s, sep)[0][0] == s[0]);
            } else {
                assert(split_on(s, sep)[0][k] == rest0[k - 1]);
            }
        }
    }
}

/// Exec split matching `split_on`: the element views of the result are the
/// spec-level fields.
pub fn split_chars(v: &Vec<char>, sep: char) -> (r: Vec<Vec<char>>)
    ensures
        r.deep_view() == split_on(v@, sep),
        r.len() >= 1,
{
    let mut parts: Vec<Vec<char>> = Vec::new();
    parts.push(Vec::new());
    proof {
        assert(v@.take(0) =~= Seq::<char>::empty());
        assert(parts.deep_view() =~~= split_on(v@.take(0), sep));
    }
    let mut i: usize = 0;
    while i < v.len()
        invariant
            i <= v.len(),
            parts.len() >= 1,
            parts.deep_view() == split_on(v@.take(i as int), sep),
        decreases v.len() - i,
    {
        let c = v[i];
        proof {
            lemma_split_on_push(v@.take(i as int), sep, c);
            lemma_split_on_len(v@.take(i as int), sep);
            assert(v@.take(i + 1 as int) =~= v@.take(i as int).push(v@[i as int]));
        }
        if c == sep {
            parts.push(Vec::new());
            proof {
                assert(parts.deep_view() =~~= split_on(v@.take(i + 1 as int), sep));
            }
        } else {
            let mut tail = parts.pop().unwrap();
            tail.push(c);
            parts.push(tail);
            proof {
                let t = split_on(v@.take(i as int), sep);
                assert(parts.deep_view() =~~= t.update(t.len() - 1, t.last().push(c)));
            }
        }
        i = i + 1;
    }
    proof {
        assert(v@.take(v@.len() as int) =~= v@);
        lemma_split_on_len(v@, sep);
        assert(parts@.len() == parts.deep_view().len());
    }
    parts
}

/// A decimal digit `'0'` through `'9'`.
pub open spec fn is_digit(c: char) -> bool {
    ('0' as u32) <= (c as u32) && (c as u32) <= ('9' as u32)
}

pub open spec fn digit_val(c: char) -> int {
    (c as u32) - ('0' as u32)
}

pub open spec fn all_digits(s: Seq<char>) -> bool {
    forall|k: int| 0 <= k < s.len() ==> is_digit(s[k])
}

/// The value of a digit string read as a decimal numeral.
pub open spec fn dec_val(s: Seq<char>) -> int
    decreases s.len(),
{
    if s.len() == 0 {
        0
    } else {
        dec_val(s.drop_last()) * 10 + digit_val(s.last())
    }
}

proof fn lemma_dec_val_nonneg(s: Seq<char>)
    requires
        all_digits(s),
    ensures
        dec_val(s) >= 0,
    decreases s.len(),
{
    if s.len() > 0 {
        assert(all_digits(s.drop_last()));
        lemma_dec_val_nonneg(s.drop_last());
    }
}

proof fn lemma_dec_val_take_bound(s: Seq<char>, i: int)
    requires
        all_digits(s),
        0 <= i <= s.len(),
    ensures
        dec_val(s.take(i)) <= dec_val(s),
    decreases s.len() - i,
{
    if i < s.len() {
        lemma_dec_val_take_bound(s, i + 1);
        assert(s.take(i + 1).drop_last() =~= s.take(i));
        assert(s.take(i + 1).last() == s[i]);
        assert(all_digits(s.take(i)));
        lemma_dec_val_nonneg(s.take(i));
    } else {
        assert(s.take(i) =~= s);
    }
}

/// The depth argument read as a decimal number, when the text is a nonempty
/// digit string whose value fits an `i32`; `None` otherwise.
pub open spec fn spec_parse_depth(s: Seq<char>) -> Option<i32> {
    if s.len() > 0 && all_digits(s) && dec_val(s) <= i32::MAX {
        Some(dec_val(s) as i32)
    } else {
        None
    }
}

/// Parses a search depth, per `spec_parse_depth`.
pub fn parse_depth(v: &Vec<char>) -> (r: Option<i32>)
    ensures
        r == spec_parse_depth(v@),
{
    if v.len() == 0 {
        return None;
    }
    let mut acc: u64 = 0;
    let mut i: usize = 0;
    proof {
        assert(v@.take(0) =~= Seq::<char>::empty());
    }
    while i < v.len()
        invariant
            i <= v.len(),
            v@.len() > 0,
            forall|k: int| 0 <= k < i ==> is_digit(v@[k]),
            acc as int == dec_val(v@.take(i as int)),
            acc <= i32::MAX as u64,
        decreases v.len() - i,
    {
        let c = v[i];
        let u = c as u32;
        if u < 48 || u > 57 {
            return None;
        }
        let d: u64 = (u - 48) as u64;
        let next: u64 = acc * 10 + d;
        proof {
            assert(v@.take(i + 1 as int).drop_last() =~= v@.take(i as int));
            assert(v@.take(i + 1 as int).last() == v@[i as int]);
        }
        if next > i32::MAX as u64 {
            proof {
                if v@.len() > 0 && all_digits(v@) && dec_val(v@) <= i32::MAX {
                    lemma_dec_val_take_bound(v@, i + 1 as int);
                }
            }
            return None;
        }
        acc = next;
        i = i + 1;
    }
    proof {
        assert(v@.take(v@.len() as int) =~= v@);
    }
    Some(acc as i32)
}

pub open spec fn digit_char(d: int) -> char {
    if d == 0 {
        '0'
    } else if d == 1 {
        '1'
    } else if d == 2 {
        '2'
    } else if d == 3 {
        '3'
    } else if d == 4 {
        '4'
    } else if d == 5 {
        '5'
    } else if d == 6 {
        '6'
    } else if d == 7 {
        '7'
    } else if d == 8 {
        '8'
    } else {
        '9'
    }
}

/// The decimal numeral of a nonnegative number, most significant digit first.
pub open spec fn dec_of(n: int) -> Seq<char>
    decreases n,
{
    if n < 0 {
        Seq::<char>::empty()
    } else if n < 10 {
        seq![digit_char(n)]
    } else {
        dec_of(n / 10).push(digit_char(n % 10))
    }
}

/// The decimal rendering of a signed number, with a leading minus sign when
/// negative.
pub open spec fn i32_dec(d: i32) -> Seq<char> {
    if d < 0 {
        seq!['-'] + dec_of(-(d as int))
    } else {
        dec_of(d as int)
    }
}

fn digit_str(d: u32) -> (r: &'static str)
    requires
        d < 10,
    ensures
        r@ == seq![digit_char(d as int)],
{
    proof {
        reveal_strlit("0");
        reveal_strlit("1");
        reveal_strlit("2");
        reveal_strlit("3");
        reveal_strlit("4");
        reveal_strlit("5");
        reveal_strlit("6");
        reveal_strlit("7");
        reveal_strlit("8");
        reveal_strlit("9");
        assert("0"@ =~= seq!['0']);
        assert("1"@ =~= seq!['1']);
        assert("2"@ =~= seq!['2']);
        assert("3"@ =~= seq!['3']);
        assert("4"@ =~= seq!['4']);
        assert("5"@ =~= seq!['5']);
        assert("6"@ =~= seq!['6']);
        assert("7"@ =~= seq!['7']);
        assert("8"@ =~= seq!['8']);
        assert("9"@ =~= seq!['9']);
    }
    if d == 0 {
        "0"
    } else if d == 1 {
        "1"
    } else if d == 2 {
        "2"
    } else if d == 3 {
        "3"
    } else if d == 4 {
        "4"
    } else if d == 5 {
        "5"
    } else if d == 6 {
        "6"
    } else if d == 7 {
        "7"
    } else if d == 8 {
        "8"
    } else {
        "9"
    }
}

fn u32_dec(n: u32) -> (r: String)
    ensures
        r@ == dec_of(n as int),
    decreases n,
{
    if n < 10 {
        String::from_str(digit_str(n))
    } else {
        let mut s = u32_dec(n / 10);
        s.append(digit_str(n % 10));
        proof {
            assert(dec_of((n / 10) as int) + seq![digit_char((n % 10) as int)] =~= dec_of(
                (n / 10) as int,
            ).push(digit_char((n % 10) as int)));
        }
        s
    }
}

/// Renders a signed number in decimal, per `i32_dec`.
pub fn i32_dec_str(d: i32) -> (r: String)
    ensures
        r@ == i32_dec(d),
{
    if d < 0 {
        let wide: i64 = -(d as i64);
        let mag: u32 = wide as u32;
        proof {
            assert(mag as int == -(d as int));
        }
        let digits = u32_dec(mag);
        let mut s = String::from_str("-");
        s.append(digits.as_str());
        proof {
            reveal_strlit("-");
            assert("-"@ =~= seq!['-']);
        }
        s
    } else {
        u32_dec(d as u32)
    }
}

} // verus!
