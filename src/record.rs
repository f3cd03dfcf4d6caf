//! Names of record files: `patiently.<id>.<status>`, and how to read them back.

use vstd::prelude::*;
use vstd::string::{StrSliceExecFns, StringExecFns};
use crate::status::{Status, status_of_text, status_text, lemma_status_text_round_trip};

verus! {

/// The first component of every record name.
pub open spec fn prefix_text() -> Seq<char> {
    seq!['p', 'a', 't', 'i', 'e', 'n', 't', 'l', 'y']
}

/// The characters of `s` before its first `.` (all of `s` when it holds none).
pub open spec fn head(s: Seq<char>) -> Seq<char>
    decreases s.len(),
{
    if s.len() == 0 {
        s
    } else if s[0] == '.' {
        Seq::empty()
    } else {
        seq![s[0]] + head(s.drop_first())
    }
}

/// The characters of `s` after its first `.`, or `None` when it holds none.
pub open spec fn tail(s: Seq<char>) -> Option<Seq<char>>
    decreases s.len(),
{
    if s.len() == 0 {
        None
    } else if s[0] == '.' {
        Some(s.drop_first())
    } else {
        tail(s.drop_first())
    }
}

/// `s` holds no `.`.
pub open spec fn no_dot(s: Seq<char>) -> bool {
    forall|i: int| 0 <= i < s.len() ==> s[i] != '.'
}

/// `c` is a decimal digit.
pub open spec fn is_digit(c: char) -> bool {
    '0' <= c && c <= '9'
}

/// The value of the decimal digit `c`.
pub open spec fn digit_value(c: char) -> nat {
    ((c as u32) - ('0' as u32)) as nat
}

/// Every character of `t` is a decimal digit.
pub open spec fn all_digits(t: Seq<char>) -> bool {
    forall|i: int| 0 <= i < t.len() ==> is_digit(t[i])
}

/// The number written by the decimal digits `t`.
pub open spec fn digits_value(t: Seq<char>) -> nat
    decreases t.len(),
{
    if t.len() == 0 {
        0
    } else {
        digits_value(t.drop_last()) * 10 + digit_value(t.last())
    }
}

/// `t` without one leading `+`.
pub open spec fn unsigned_text(t: Seq<char>) -> Seq<char> {
    if t.len() > 0 && t[0] == '+' {
        t.drop_first()
    } else {
        t
    }
}

/// The identifier written by `t`: an optional `+`, then at least one decimal
/// digit, with a value that fits in `usize`.
pub open spec fn id_of_text(t: Seq<char>) -> Option<usize> {
    let d = unsigned_text(t);
    if d.len() > 0 && all_digits(d) && digits_value(d) <= usize::MAX {
        Some(digits_value(d) as usize)
    } else {
        None
    }
}

/// What a record name says: its identifier and status, or `None` for a name
/// that is not a record's. Components after the third are not read.
pub open spec fn parse_name(s: Seq<char>) -> Option<(usize, Status)> {
    match tail(s) {
        None => None,
        Some(r1) => match tail(r1) {
            None => None,
            Some(r2) => {
                if head(s) == prefix_text() && id_of_text(head(r1)) is Some && status_of_text(
                    head(r2),
                ) is Some {
                    Some((id_of_text(head(r1))->0, status_of_text(head(r2))->0))
                } else {
                    None
                }
            },
        },
    }
}

proof fn lemma_split_at_dot(s: Seq<char>, k: int)
    requires
        0 <= k <= s.len(),
        no_dot(s.take(k)),
        k < s.len() ==> s[k] == '.',
    ensures
        head(s) == s.take(k),
        tail(s) == (if k < s.len() {
            Some(s.skip(k + 1))
        } else {
            None::<Seq<char>>
        }),
    decreases k,
{
    if s.len() == 0 {
        assert(s.take(k) =~= s);
    } else if k == 0 {
        assert(s.take(0) =~= Seq::<char>::empty());
        assert(s.skip(1) =~= s.drop_first());
    } else {
        let r = s.drop_first();
        assert(s.take(k)[0] == s[0]);
        assert(r.take(k - 1) =~= s.take(k).drop_first());
        lemma_split_at_dot(r, k - 1);
        assert(s.take(k) =~= seq![s[0]] + r.take(k - 1));
        if k < s.len() {
            assert(r.skip(k) =~= s.skip(k + 1));
        }
    }
}

/// The decimal digit for `d`, for `d < 10`.
pub open spec fn digit_char(d: nat) -> char {
    seq!['0', '1', '2', '3', '4', '5', '6', '7', '8', '9'][d as int]
}

/// The decimal text of `n`, without leading zeros.
pub open spec fn decimal(n: nat) -> Seq<char>
    decreases n,
{
    if n < 10 {
        seq![digit_char(n)]
    } else {
        decimal(n / 10).push(digit_char(n % 10))
    }
}

/// The name of the record of job `id` in status `s`.
pub open spec fn record_text(id: usize, s: Status) -> Seq<char> {
    prefix_text() + seq!['.'] + decimal(id as nat) + seq!['.'] + status_text(s)
}

proof fn lemma_digit_char(d: nat)
    requires
        d < 10,
    ensures
        is_digit(digit_char(d)),
        digit_value(digit_char(d)) == d,
        digit_char(d) != '.',
        digit_char(d) != '+',
{
}

proof fn lemma_decimal(n: nat)
    ensures
        decimal(n).len() > 0,
        all_digits(decimal(n)),
        no_dot(decimal(n)),
        decimal(n)[0] != '+',
        digits_value(decimal(n)) == n,
    decreases n,
{
    if n < 10 {
        lemma_digit_char(n);
        assert(decimal(n).drop_last() =~= Seq::<char>::empty());
        assert(digits_value(Seq::<char>::empty()) == 0);
    } else {
        lemma_decimal(n / 10);
        lemma_digit_char(n % 10);
        let t = decimal(n);
        assert(t.drop_last() =~= decimal(n / 10));
        assert(t.last() == digit_char(n % 10));
        assert(n == (n / 10) * 10 + n % 10);
    }
}

proof fn lemma_status_text_no_dot(s: Status)
    ensures
        no_dot(status_text(s)),
{
}

proof fn lemma_dot_joined(a: Seq<char>, b: Seq<char>)
    requires
        no_dot(a),
    ensures
        head(a + seq!['.'] + b) == a,
        tail(a + seq!['.'] + b) == Some(b),
        head(a) == a,
        tail(a) is None,
{
    let t = a + seq!['.'] + b;
    assert(t.take(a.len() as int) =~= a);
    lemma_split_at_dot(t, a.len() as int);
    assert(t.skip(a.len() as int + 1) =~= b);
    assert(a.take(a.len() as int) =~= a);
    lemma_split_at_dot(a, a.len() as int);
}

/// A record name reads back as the identifier and status it was made from,
/// so a record's name reports exactly one status.
pub proof fn lemma_record_name_round_trip(id: usize, s: Status)
    ensures
        parse_name(record_text(id, s)) == Some((id, s)),
{
    let p = prefix_text();
    let dd = decimal(id as nat);
    let st = status_text(s);
    lemma_decimal(id as nat);
    lemma_status_text_no_dot(s);
    lemma_status_text_round_trip(s);
    assert(no_dot(p));
    let r1 = dd + seq!['.'] + st;
    assert(record_text(id, s) =~= p + seq!['.'] + r1);
    lemma_dot_joined(p, r1);
    lemma_dot_joined(dd, st);
    lemma_dot_joined(st, Seq::<char>::empty());
    assert(unsigned_text(dd) == dd);
    assert(id_of_text(dd) == Some(id));
}

/// Text of one decimal digit.
fn digit_str(d: usize) -> (r: &'static str)
    requires
        d < 10,
    ensures
        r@ == seq![digit_char(d as nat)],
{
    proof {
        reveal_strlit("0");
        reveal_strlit("1");
        reveal_strlit("2");
        reveal_strlit("3");
        reveal_strlit("4");
        reveal_strlit("5");
        reveal_strlit("6");
        reveal_strlit("7");
        reveal_strlit("8");
        reveal_strlit("9");
    }
    if d == 0 {
        "0"
    } else if d == 1 {
        "1"
    } else if d == 2 {
        "2"
    } else if d == 3 {
        "3"
    } else if d == 4 {
        "4"
    } else if d == 5 {
        "5"
    } else if d == 6 {
        "6"
    } else if d == 7 {
        "7"
    } else if d == 8 {
        "8"
    } else {
        "9"
    }
}

/// Appends the decimal text of `n` to `out`.
pub fn push_decimal(out: &mut String, n: usize)
    ensures
        final(out)@ == old(out)@ + decimal(n as nat),
{
    let mut digits: Vec<usize> = Vec::new();
    let mut m: usize = n;
    while m >= 10
        invariant
            forall|i: int| 0 <= i < digits.len() ==> digits[i] < 10,
            decimal(n as nat) == decimal(m as nat) + digits@.reverse().map_values(
                |d: usize| digit_char(d as nat),
            ),
        decreases m,
    {
        let ghost before = digits@.reverse().map_values(|d: usize| digit_char(d as nat));
        digits.push(m % 10);
        assert(digits@.reverse().map_values(|d: usize| digit_char(d as nat)) =~= seq![
            digit_char((m % 10) as nat),
        ] + before);
        assert(decimal(m as nat) == decimal((m / 10) as nat).push(digit_char((m % 10) as nat)));
        assert(decimal(m as nat) + before =~= decimal((m / 10) as nat) + (seq![
            digit_char((m % 10) as nat),
        ] + before));
        m = m / 10;
    }
    digits.push(m);
    let ghost all = digits@.reverse().map_values(|d: usize| digit_char(d as nat));
    assert(all =~= decimal(n as nat));
    let ghost start = out@;
    let mut i: usize = digits.len();
    while i > 0
        invariant
            i <= digits.len(),
            forall|j: int| 0 <= j < digits.len() ==> digits[j] < 10,
            all == digits@.reverse().map_values(|d: usize| digit_char(d as nat)),
            out@ == start + all.take(digits.len() - i),
        decreases i,
    {
        i = i - 1;
        out.append(digit_str(digits[i]));
        assert(all[digits.len() - i - 1] == digit_char(digits[i as int] as nat));
        assert(out@ =~= start + all.take(digits.len() - i));
    }
    assert(all.take(digits.len() as int) =~= all);
}

/// The name of the record of job `id` in status `status`.
pub fn record_name(id: usize, status: Status) -> (r: String)
    ensures
        r@ == record_text(id, status),
{
    proof {
        reveal_strlit("patiently.");
        reveal_strlit(".");
    }
    let mut r = String::from_str("patiently.");
    push_decimal(&mut r, id);
    r.append(".");
    r.append(status.as_str());
    assert(r@ =~= record_text(id, status));
    r
}

/// Copies the characters of a string into a vector.
pub fn chars_of(s: &str) -> (r: Vec<char>)
    ensures
        r@ == s@,
{
    let n = s.unicode_len();
    let mut r: Vec<char> = Vec::new();
    let mut i: usize = 0;
    while i < n
        invariant
            n == s@.len(),
            i <= n,
            r@ == s@.take(i as int),
        decreases n - i,
    {
        let c = s.get_char(i);
        r.push(c);
        i = i + 1;
        assert(r@ =~= s@.take(i as int));
    }
    assert(r@ =~= s@);
    r
}

/// Splits off the component of `s` that starts at `start`: returns its
/// characters and, if a `.` ends it, the index just after that `.`.
fn next_component(s: &Vec<char>, start: usize) -> (r: (Vec<char>, Option<usize>))
    requires
        start <= s.len(),
    ensures
        r.0@ == head(s@.skip(start as int)),
        match r.1 {
            None => tail(s@.skip(start as int)) is None,
            Some(k) => start < k <= s.len() && tail(s@.skip(start as int)) == Some(
                s@.skip(k as int),
            ),
        },
{
    let mut tok: Vec<char> = Vec::new();
    let mut i: usize = start;
    while i < s.len() && s[i] != '.'
        invariant
            start <= i <= s.len(),
            tok@ == s@.subrange(start as int, i as int),
            no_dot(tok@),
        decreases s.len() - i,
    {
        tok.push(s[i]);
        i = i + 1;
        assert(tok@ =~= s@.subrange(start as int, i as int));
    }
    let ghost rest = s@.skip(start as int);
    let k = i - start;
    assert(rest.take(k as int) =~= tok@);
    proof {
        lemma_split_at_dot(rest, k as int);
    }
    if i < s.len() {
        assert(rest.skip(k + 1) =~= s@.skip(i + 1));
        (tok, Some(i + 1))
    } else {
        (tok, None)
    }
}

proof fn lemma_digits_value_grows(t: Seq<char>, i: int)
    requires
        0 <= i <= t.len(),
    ensures
        digits_value(t) >= digits_value(t.take(i)),
    decreases t.len() - i,
{
    if i < t.len() {
        lemma_digits_value_grows(t, i + 1);
        assert(t.take(i + 1).drop_last() =~= t.take(i));
    } else {
        assert(t.take(i) =~= t);
    }
}

/// Reads an identifier: an optional `+`, then decimal digits whose value
/// fits in `usize`.
pub fn parse_id(t: &Vec<char>) -> (r: Option<usize>)
    ensures
        r == id_of_text(t@),
{
    let start: usize = if t.len() > 0 && t[0] == '+' {
        1
    } else {
        0
    };
    let ghost d = unsigned_text(t@);
    assert(d =~= t@.skip(start as int));
    if start == t.len() {
        return None;
    }
    let mut v: usize = 0;
    let mut i: usize = start;
    while i < t.len()
        invariant
            start <= i <= t.len(),
            d == t@.skip(start as int),
            d == unsigned_text(t@),
            d.len() > 0,
            all_digits(d.take(i - start)),
            v as nat == digits_value(d.take(i - start)),
        decreases t.len() - i,
    {
        let c = t[i];
        if !('0' <= c && c <= '9') {
            assert(d[i - start] == c);
            assert(!is_digit(d[i - start]));
            return None;
        }
        let dv = (c as u32 - '0' as u32) as usize;
        let ghost p = d.take(i - start + 1);
        assert(p.drop_last() =~= d.take(i - start));
        assert(p.last() == c);
        assert(digits_value(p) == v * 10 + dv);
        match v.checked_mul(10) {
            None => {
                proof {
                    lemma_digits_value_grows(d, i - start + 1);
                }
                return None;
            },
            Some(m) => match m.checked_add(dv) {
                None => {
                    proof {
                        lemma_digits_value_grows(d, i - start + 1);
                    }
                    return None;
                },
                Some(w) => {
                    v = w;
                },
            },
        }
        i = i + 1;
        assert(all_digits(d.take(i - start)));
    }
    assert(d.take(i - start) =~= d);
    Some(v)
}

/// Reads a record name; a name that is not a record's gives `None`.
pub fn parse_record_name(name: &str) -> (r: Option<(usize, Status)>)
    ensures
        r == parse_name(name@),
{
    let s = chars_of(name);
    assert(s@.skip(0) =~= s@);
    let (t0, n1) = next_component(&s, 0);
    let k1 = match n1 {
        None => return None,
        Some(k) => k,
    };
    let (t1, n2) = next_component(&s, k1);
    let k2 = match n2 {
        None => return None,
        Some(k) => k,
    };
    let (t2, _n3) = next_component(&s, k2);
    let is_prefix = t0.len() == 9 && t0[0] == 'p' && t0[1] == 'a' && t0[2] == 't' && t0[3] == 'i'
        && t0[4] == 'e' && t0[5] == 'n' && t0[6] == 't' && t0[7] == 'l' && t0[8] == 'y';
    assert(is_prefix <==> t0@ == prefix_text()) by {
        if is_prefix {
            assert(t0@ =~= prefix_text());
        }
    }
    if !is_prefix {
        return None;
    }
    let id = match parse_id(&t1) {
        None => return None,
        Some(id) => id,
    };
    match Status::from_chars(&t2) {
        None => None,
        Some(st) => Some((id, st)),
    }
}

} // verus!
