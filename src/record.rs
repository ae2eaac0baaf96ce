//! State-record names: a record of a running instance is stored under
//! `<job-name>-<pid>`, with the pid written in decimal.
use vstd::prelude::*;
use vstd::string::*;

use crate::error::WorkerError;

verus! {

pub open spec fn is_digit(c: char) -> bool {
    '0' <= c && c <= '9'
}

pub open spec fn digit_value(c: char) -> int {
    c as int - '0' as int
}

pub open spec fn all_digits(s: Seq<char>) -> bool {
    forall|i: int| 0 <= i < s.len() ==> is_digit(#[trigger] s[i])
}

/// The number that a string of decimal digits denotes (leading zeros allowed).
pub open spec fn digits_value(s: Seq<char>) -> int
    decreases s.len(),
{
    if s.len() == 0 {
        0
    } else {
        10 * digits_value(s.drop_last()) + digit_value(s.last())
    }
}

/// Length of an optional leading sign.
pub open spec fn sign_len(s: Seq<char>) -> int {
    if s.len() > 0 && (s[0] == '-' || s[0] == '+') {
        1
    } else {
        0
    }
}

/// An optional sign followed by at least one decimal digit, and nothing else.
pub open spec fn signed_value(s: Seq<char>) -> Option<int> {
    let body = s.skip(sign_len(s));
    if body.len() > 0 && all_digits(body) {
        Some(if s[0] == '-' { -digits_value(body) } else { digits_value(body) })
    } else {
        None
    }
}

/// A pid as text, read the way `str::parse::<i32>` reads it: the signed
/// decimal value, when it fits in an `i32`.
pub open spec fn pid_of(s: Seq<char>) -> Option<i32> {
    match signed_value(s) {
        Some(v) => if i32::MIN <= v <= i32::MAX {
            Some(v as i32)
        } else {
            None
        },
        None => None,
    }
}

pub open spec fn digit_char(d: nat) -> char {
    if d == 0 { '0' }
    else if d == 1 { '1' }
    else if d == 2 { '2' }
    else if d == 3 { '3' }
    else if d == 4 { '4' }
    else if d == 5 { '5' }
    else if d == 6 { '6' }
    else if d == 7 { '7' }
    else if d == 8 { '8' }
    else { '9' }
}

/// Shortest decimal text of a natural number.
pub open spec fn decimal(n: nat) -> Seq<char>
    decreases n,
{
    if n < 10 {
        seq![digit_char(n)]
    } else {
        decimal(n / 10).push(digit_char(n % 10))
    }
}

/// A pid written as `{}` writes an `i32`.
pub open spec fn pid_text(pid: i32) -> Seq<char> {
    if pid < 0 {
        seq!['-'] + decimal((-pid) as nat)
    } else {
        decimal(pid as nat)
    }
}

/// The name of the state record of instance `pid` of job `name`.
pub open spec fn record_name(name: Seq<char>, pid: i32) -> Seq<char> {
    name + seq!['-'] + pid_text(pid)
}

/// Position of the first `-` in `s`, if any.
pub open spec fn first_dash(s: Seq<char>) -> Option<int> {
    if exists|i: int| 0 <= i < s.len() && s[i] == '-' && !s.take(i).contains('-') {
        Some(choose|i: int| 0 <= i < s.len() && s[i] == '-' && !s.take(i).contains('-'))
    } else {
        None
    }
}

/// What a state-record name says: the job name before the first `-`, and the
/// pid after it.
pub open spec fn parse_record_name(s: Seq<char>) -> Option<(Seq<char>, i32)> {
    match first_dash(s) {
        Some(i) => match pid_of(s.skip(i + 1)) {
            Some(pid) => Some((s.take(i), pid)),
            None => None,
        },
        None => None,
    }
}

/// Relies on `String::push`: appends one character.
pub assume_specification[ String::push ](s: &mut String, ch: char)
    ensures
        final(s)@ == old(s)@.push(ch),
;

fn chars_of(s: &str) -> (r: Vec<char>)
    ensures
        r@ == s@,
{
    let n = s.unicode_len();
    let mut r: Vec<char> = Vec::new();
    let mut i: usize = 0;
    while i < n
        invariant
            n == s@.len(),
            i <= n,
            r@ == s@.take(i as int),
        decreases n - i,
    {
        r.push(s.get_char(i));
        i = i + 1;
        assert(r@ =~= s@.take(i as int));
    }
    assert(r@ =~= s@);
    r
}

proof fn lemma_digits_nonneg(t: Seq<char>)
    requires
        all_digits(t),
    ensures
        digits_value(t) >= 0,
    decreases t.len(),
{
    if t.len() > 0 {
        assert(all_digits(t.drop_last()));
        lemma_digits_nonneg(t.drop_last());
        assert(is_digit(t[t.len() - 1]));
    }
}

/// Appending digits never makes the value smaller.
proof fn lemma_digits_prefix_le(t: Seq<char>, k: int)
    requires
        all_digits(t),
        0 <= k <= t.len(),
    ensures
        digits_value(t.take(k)) <= digits_value(t),
    decreases t.len(),
{
    if k == t.len() {
        assert(t.take(k) =~= t);
    } else {
        let u = t.drop_last();
        assert(all_digits(u));
        assert(u.take(k) =~= t.take(k));
        lemma_digits_prefix_le(u, k);
        lemma_digits_nonneg(u);
        assert(is_digit(t[t.len() - 1]));
    }
}

fn digit_of(c: char) -> (r: Option<u64>)
    ensures
        r == (if is_digit(c) { Some(digit_value(c) as u64) } else { None::<u64> }),
{
    if '0' <= c && c <= '9' {
        Some((c as u32 - '0' as u32) as u64)
    } else {
        None
    }
}

/// Reads the pid written in `cs` from position `from` on.
fn pid_from_chars(cs: &Vec<char>, from: usize) -> (r: Option<i32>)
    requires
        from <= cs@.len(),
    ensures
        r == pid_of(cs@.skip(from as int)),
{
    let ghost s = cs@.skip(from as int);
    let n = cs.len();
    let mut start = from;
    let mut negative = false;
    if from < n && (cs[from] == '-' || cs[from] == '+') {
        negative = cs[from] == '-';
        start = from + 1;
    }
    assert(negative == (s.len() > 0 && s[0] == '-'));
    assert(s.skip(sign_len(s)) =~= cs@.subrange(start as int, n as int));
    if start == n {
        return None;
    }
    let limit: u64 = 0x8000_0000;
    let mut acc: u64 = 0;
    let mut i = start;
    while i < n
        invariant
            start <= i <= n,
            n == cs@.len(),
            acc <= limit,
            limit == 0x8000_0000,
            s == cs@.skip(from as int),
            s.skip(sign_len(s)) == cs@.subrange(start as int, n as int),
            negative == (s.len() > 0 && s[0] == '-'),
            all_digits(cs@.subrange(start as int, i as int)),
            acc == digits_value(cs@.subrange(start as int, i as int)),
        decreases n - i,
    {
        let ghost pre = cs@.subrange(start as int, i as int);
        let ghost next = cs@.subrange(start as int, i + 1);
        assert(next.drop_last() =~= pre);
        match digit_of(cs[i]) {
            None => {
                assert(!is_digit(cs@.subrange(start as int, n as int)[i - start]));
                return None;
            },
            Some(d) => {
                acc = acc * 10 + d;
                i = i + 1;
                assert(all_digits(next));
                if acc > limit {
                    proof {
                        let body = cs@.subrange(start as int, n as int);
                        if all_digits(body) {
                            assert(body.take(i - start) =~= next);
                            lemma_digits_prefix_le(body, i - start);
                        }
                    }
                    return None;
                }
            },
        }
    }
    assert(cs@.subrange(start as int, i as int) =~= cs@.subrange(start as int, n as int));
    if negative {
        assert(s[0] == '-');
        Some((0 - (acc as i64)) as i32)
    } else if acc < limit {
        assert(s.len() > 0 && s[0] != '-');
        Some(acc as i32)
    } else {
        None
    }
}

/// Reads a pid as `str::parse::<i32>` does.
pub fn parse_pid(text: &str) -> (r: Option<i32>)
    ensures
        r == pid_of(text@),
{
    let cs = chars_of(text);
    assert(cs@.skip(0) =~= cs@);
    pid_from_chars(&cs, 0)
}

fn digit_to_char(d: u32) -> (c: char)
    requires
        d < 10,
    ensures
        c == digit_char(d as nat),
{
    if d == 0 { '0' }
    else if d == 1 { '1' }
    else if d == 2 { '2' }
    else if d == 3 { '3' }
    else if d == 4 { '4' }
    else if d == 5 { '5' }
    else if d == 6 { '6' }
    else if d == 7 { '7' }
    else if d == 8 { '8' }
    else { '9' }
}

fn push_decimal(out: &mut String, n: u32)
    ensures
        final(out)@ == old(out)@ + decimal(n as nat),
    decreases n,
{
    if n >= 10 {
        push_decimal(out, n / 10);
    }
    out.push(digit_to_char(n % 10));
    assert(final(out)@ =~= old(out)@ + decimal(n as nat));
}

/// The name under which the state record of instance `pid` of job `name`
/// is stored: `<name>-<pid>`.
pub fn state_filename(name: &str, pid: i32) -> (r: String)
    ensures
        r@ == record_name(name@, pid),
{
    let mut r = String::from_str(name);
    r.push('-');
    if pid < 0 {
        r.push('-');
        push_decimal(&mut r, (0 - (pid as i64)) as u32);
    } else {
        push_decimal(&mut r, pid as u32);
    }
    assert(r@ =~= record_name(name@, pid));
    r
}

/// Reads a state-record name: the job name before the first `-` and the pid
/// after it. A name without `-`, or whose pid does not read as an `i32`, is
/// corrupt state.
pub fn parse_state_filename(file_name: &str) -> (r: Result<(String, i32), WorkerError>)
    ensures
        r is Ok <==> parse_record_name(file_name@) is Some,
        r matches Ok((name, pid)) ==> parse_record_name(file_name@) == Some((name@, pid)),
        r is Err ==> r == Err::<(String, i32), WorkerError>(WorkerError::CorruptState),
{
    let cs = chars_of(file_name);
    let ghost s = file_name@;
    let n = cs.len();
    let mut i: usize = 0;
    while i < n && cs[i] != '-'
        invariant
            i <= n,
            n == s.len(),
            cs@ == s,
            !s.take(i as int).contains('-'),
        decreases n - i,
    {
        proof {
            if s.take(i + 1).contains('-') {
                let k = choose|k: int| 0 <= k < i + 1 && #[trigger] s.take(i + 1)[k] == '-';
                if k < i {
                    assert(s.take(i as int)[k] == '-');
                }
            }
        }
        i = i + 1;
    }
    if i == n {
        proof {
            assert(s.take(n as int) =~= s);
            if exists|j: int| 0 <= j < s.len() && s[j] == '-' && !s.take(j).contains('-') {
                let j = choose|j: int| 0 <= j < s.len() && s[j] == '-' && !s.take(j).contains('-');
                assert(s.take(n as int)[j] == '-');
            }
        }
        return Err(WorkerError::CorruptState);
    }
    proof {
        assert(s[i as int] == '-');
        let j = choose|j: int| 0 <= j < s.len() && s[j] == '-' && !s.take(j).contains('-');
        if j < i {
            assert(s.take(i as int)[j] == '-');
        } else if j > i {
            assert(s.take(j)[i as int] == '-');
        }
        assert(first_dash(s) == Some(i as int));
    }
    let name = String::from_str(file_name.substring_char(0, i));
    assert(cs@.skip(i + 1) =~= s.skip(i + 1));
    match pid_from_chars(&cs, i + 1) {
        Some(pid) => Ok((name, pid)),
        None => Err(WorkerError::CorruptState),
    }
}

proof fn lemma_digit_char(d: nat)
    requires
        d < 10,
    ensures
        is_digit(digit_char(d)),
        digit_value(digit_char(d)) == d,
{
}

proof fn lemma_decimal(n: nat)
    ensures
        decimal(n).len() > 0,
        all_digits(decimal(n)),
        digits_value(decimal(n)) == n,
    decreases n,
{
    if n < 10 {
        lemma_digit_char(n);
        assert(decimal(n).drop_last() =~= Seq::<char>::empty());
        assert(digits_value(Seq::<char>::empty()) == 0);
        assert(decimal(n).last() == digit_char(n));
    } else {
        lemma_digit_char(n % 10);
        lemma_decimal(n / 10);
        assert(n == 10 * (n / 10) + n % 10);
        assert(decimal(n).drop_last() =~= decimal(n / 10));
        assert(decimal(n).last() == digit_char(n % 10));
        assert(digits_value(decimal(n)) == 10 * digits_value(decimal(n / 10)) + digit_value(digit_char(n % 10)));
        assert(all_digits(decimal(n))) by {
            assert forall|i: int| 0 <= i < decimal(n).len() implies is_digit(#[trigger] decimal(n)[i]) by {
                if i < decimal(n / 10).len() {
                    assert(decimal(n)[i] == decimal(n / 10)[i]);
                }
            }
        }
    }
}

proof fn lemma_pid_text(pid: i32)
    ensures
        pid_of(pid_text(pid)) == Some(pid),
{
    let s = pid_text(pid);
    if pid < 0 {
        let m = (-pid) as nat;
        lemma_decimal(m);
        assert(s.skip(1) =~= decimal(m));
    } else {
        lemma_decimal(pid as nat);
        assert(is_digit(s[0]));
        assert(s.skip(0) =~= s);
    }
}

/// A record written for job `name` and `pid` reads back as exactly that
/// name and pid, provided the name holds no `-` (the separator).
pub proof fn lemma_record_name_round_trip(name: Seq<char>, pid: i32)
    requires
        !name.contains('-'),
    ensures
        parse_record_name(record_name(name, pid)) == Some((name, pid)),
{
    let s = record_name(name, pid);
    let k = name.len() as int;
    assert(s[k] == '-');
    assert(s.take(k) =~= name);
    let j = choose|j: int| 0 <= j < s.len() && s[j] == '-' && !s.take(j).contains('-');
    if j < k {
        assert(name[j] == '-');
    } else if j > k {
        assert(s.take(j)[k] == '-');
    }
    assert(first_dash(s) == Some(k));
    assert(s.skip(k + 1) =~= pid_text(pid));
    lemma_pid_text(pid);
}

} // verus!
