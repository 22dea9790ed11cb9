//! Entry numbers as a command takes them: read from text, sorted, each once.

use vstd::prelude::*;
use crate::error::StoreError;
use crate::text::chars_of;

verus! {

/// `c` is one of the ten digits.
pub open spec fn is_digit(c: char) -> bool {
    '0' <= c <= '9'
}

/// The value of a digit.
pub open spec fn digit_value(c: char) -> nat {
    (c as int - '0' as int) as nat
}

/// Every character of `s` is a digit.
pub open spec fn all_digits(s: Seq<char>) -> bool {
    forall|i: int| 0 <= i < s.len() ==> is_digit(#[trigger] s[i])
}

/// The number that a string of digits writes in decimal; 0 for the empty
/// string.
pub open spec fn number_of(digits: Seq<char>) -> nat
    decreases digits.len(),
{
    if digits.len() == 0 {
        0
    } else {
        number_of(digits.drop_last()) * 10 + digit_value(digits.last())
    }
}

/// `s` without a plus sign at its start.
pub open spec fn unsigned_part(s: Seq<char>) -> Seq<char> {
    if s.len() > 0 && s[0] == '+' {
        s.drop_first()
    } else {
        s
    }
}

/// The entry number that `s` writes: digits, at least one, after at most one
/// plus sign, with a value that an entry number can have.
pub open spec fn id_of(s: Seq<char>) -> Option<int> {
    let digits = unsigned_part(s);
    if digits.len() > 0 && all_digits(digits) && number_of(digits) <= i64::MAX {
        Some(number_of(digits) as int)
    } else {
        None
    }
}

/// A string of digits writes a number no smaller than any of its beginnings
/// does.
proof fn number_of_grows(digits: Seq<char>, k: int)
    requires
        0 <= k <= digits.len(),
    ensures
        number_of(digits.take(k)) <= number_of(digits),
    decreases digits.len(),
{
    if k == digits.len() {
        assert(digits.take(k) =~= digits);
    } else {
        assert(digits.drop_last().take(k) =~= digits.take(k));
        number_of_grows(digits.drop_last(), k);
    }
}

/// Reads an entry number.
pub fn parse_id(text: &str) -> (out: Result<i64, StoreError>)
    ensures
        match id_of(text@) {
            Some(id) => out == Ok::<i64, StoreError>(id as i64),
            None => out == Err::<i64, StoreError>(StoreError::Validation),
        },
{
    let chars = chars_of(text);
    let start: usize = if chars.len() > 0 && chars[0] == '+' {
        1
    } else {
        0
    };
    let ghost digits = unsigned_part(text@);
    assert(digits =~= chars@.skip(start as int));
    if start == chars.len() {
        return Err(StoreError::Validation);
    }
    let mut value: u64 = 0;
    let mut i: usize = start;
    assert(digits.take(0) =~= Seq::empty());
    while i < chars.len()
        invariant
            start <= i <= chars.len(),
            digits == chars@.skip(start as int),
            digits == unsigned_part(text@),
            all_digits(digits.take(i - start)),
            value == number_of(digits.take(i - start)),
            value <= i64::MAX,
        decreases chars.len() - i,
    {
        let c: char = chars[i];
        let ghost seen = digits.take(i - start);
        let ghost next = digits.take(i - start + 1);
        proof {
            assert(digits[i - start] == c);
            assert(next.drop_last() =~= seen);
            assert(next.last() == c);
        }
        if !(c >= '0' && c <= '9') {
            assert(!is_digit(digits[i - start]));
            return Err(StoreError::Validation);
        }
        let d: u64 = (c as u32 - '0' as u32) as u64;
        assert(d == digit_value(c));
        if value > (i64::MAX as u64 - d) / 10 {
            proof {
                assert(number_of(next) > i64::MAX) by (nonlinear_arith)
                    requires
                        number_of(next) == value * 10 + d,
                        value > (i64::MAX as u64 - d) / 10,
                        d < 10,
                ;
                number_of_grows(digits, i - start + 1);
            }
            return Err(StoreError::Validation);
        }
        assert(value * 10 + d <= i64::MAX) by (nonlinear_arith)
            requires
                value <= (i64::MAX as u64 - d) / 10,
                d < 10,
        ;
        value = value * 10 + d;
        i += 1;
        proof {
            assert forall|j: int| 0 <= j < next.len() implies is_digit(#[trigger] next[j]) by {
                if j < seen.len() {
                    assert(seen[j] == next[j]);
                }
            }
        }
    }
    assert(digits.take(i - start) =~= digits);
    Ok(value as i64)
}

/// The numbers rise strictly, so none occurs twice.
pub open spec fn strictly_rising(ids: Seq<i64>) -> bool {
    forall|i: int, j: int| 0 <= i < j < ids.len() ==> ids[i] < ids[j]
}

/// Two rising lists that hold the same numbers are the same list: sorting
/// and dropping what occurs twice has one result only.
pub proof fn rising_lists_with_same_members_agree(a: Seq<i64>, b: Seq<i64>)
    requires
        strictly_rising(a),
        strictly_rising(b),
        forall|x: i64| a.contains(x) <==> b.contains(x),
    ensures
        a == b,
    decreases a.len(),
{
    if a.len() == 0 {
        if b.len() > 0 {
            assert(b.contains(b[0]));
        }
        assert(a =~= b);
    } else {
        assert(a.contains(a[0]));
        assert(b.contains(a[0]));
        let j = choose|j: int| 0 <= j < b.len() && b[j] == a[0];
        assert(b.contains(b[0]));
        let i = choose|i: int| 0 <= i < a.len() && a[i] == b[0];
        assert(a[0] == b[0]) by {
            if i > 0 {
                assert(a[0] < a[i]);
            }
            if j > 0 {
                assert(b[0] < b[j]);
            }
        }
        let ra = a.drop_first();
        let rb = b.drop_first();
        assert forall|x: i64| ra.contains(x) <==> rb.contains(x) by {
            if ra.contains(x) {
                let k = choose|k: int| 0 <= k < ra.len() && ra[k] == x;
                assert(a[k + 1] == x);
                assert(a[0] < a[k + 1]);
                assert(a.contains(x));
                let m = choose|m: int| 0 <= m < b.len() && b[m] == x;
                assert(rb[m - 1] == x);
            }
            if rb.contains(x) {
                let k = choose|k: int| 0 <= k < rb.len() && rb[k] == x;
                assert(b[k + 1] == x);
                assert(b[0] < b[k + 1]);
                assert(b.contains(x));
                let m = choose|m: int| 0 <= m < a.len() && a[m] == x;
                assert(ra[m - 1] == x);
            }
        }
        assert(strictly_rising(ra)) by {
            assert forall|p: int, q: int| 0 <= p < q < ra.len() implies ra[p] < ra[q] by {
                assert(a[p + 1] < a[q + 1]);
            }
        }
        assert(strictly_rising(rb)) by {
            assert forall|p: int, q: int| 0 <= p < q < rb.len() implies rb[p] < rb[q] by {
                assert(b[p + 1] < b[q + 1]);
            }
        }
        rising_lists_with_same_members_agree(ra, rb);
        assert(a =~= seq![a[0]] + ra);
        assert(b =~= seq![b[0]] + rb);
    }
}

/// Puts `id` into the rising list `out` at its place, unless it is there
/// already.
fn insert_rising(out: &mut Vec<i64>, id: i64)
    requires
        strictly_rising(old(out)@),
    ensures
        strictly_rising(final(out)@),
        forall|x: i64| final(out)@.contains(x) <==> (old(out)@.contains(x) || x == id),
{
    let ghost before = out@;
    let mut p: usize = 0;
    while p < out.len() && out[p] < id
        invariant
            p <= out.len(),
            out@ == before,
            forall|i: int| 0 <= i < p ==> before[i] < id,
        decreases out.len() - p,
    {
        p += 1;
    }
    if p < out.len() && out[p] == id {
        assert(before.contains(id));
        return ;
    }
    out.insert(p, id);
    proof {
        let after = out@;
        assert(after =~= before.insert(p as int, id));
        assert forall|i: int, j: int| 0 <= i < j < after.len() implies after[i] < after[j] by {
            if j < p {
            } else if j == p {
            } else if i < p {
                assert(before[i] < id);
                assert(id <= before[p as int]);
                assert(j - 1 > p ==> before[p as int] < before[j - 1]);
            } else if i == p {
                assert(j - 1 > p ==> before[p as int] < before[j - 1]);
            } else {
                assert(before[i - 1] < before[j - 1]);
            }
        }
        assert forall|x: i64| after.contains(x) <==> (before.contains(x) || x == id) by {
            if after.contains(x) {
                let i = choose|i: int| 0 <= i < after.len() && after[i] == x;
                if i < p {
                    assert(before[i] == x);
                } else if i > p {
                    assert(before[i - 1] == x);
                }
            }
            if before.contains(x) {
                let i = choose|i: int| 0 <= i < before.len() && before[i] == x;
                if i < p {
                    assert(after[i] == x);
                } else {
                    assert(after[i + 1] == x);
                }
            }
            if x == id {
                assert(after[p as int] == x);
            }
        }
    }
}

/// Sorts the numbers and drops what occurs twice.
pub fn normalize_ids(ids: Vec<i64>) -> (out: Vec<i64>)
    ensures
        strictly_rising(out@),
        forall|x: i64| out@.contains(x) <==> ids@.contains(x),
{
    let mut out: Vec<i64> = Vec::new();
    let mut i: usize = 0;
    while i < ids.len()
        invariant
            i <= ids.len(),
            strictly_rising(out@),
            forall|x: i64| out@.contains(x) <==> ids@.take(i as int).contains(x),
        decreases ids.len() - i,
    {
        let ghost seen = ids@.take(i as int);
        let ghost held = out@;
        let id = ids[i];
        insert_rising(&mut out, id);
        i += 1;
        proof {
            let now = ids@.take(i as int);
            assert(now =~= seen.push(id));
            assert forall|x: i64| out@.contains(x) <==> now.contains(x) by {
                assert(held.contains(x) <==> seen.contains(x));
                if now.contains(x) {
                    let k = choose|k: int| 0 <= k < now.len() && now[k] == x;
                    if k < seen.len() {
                        assert(seen[k] == x);
                    }
                }
                if seen.contains(x) {
                    let k = choose|k: int| 0 <= k < seen.len() && seen[k] == x;
                    assert(now[k] == x);
                }
                if x == id {
                    assert(now[i - 1] == x);
                }
            }
        }
    }
    assert(ids@.take(i as int) =~= ids@);
    out
}

} // verus!
