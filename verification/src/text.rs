//! Strings as sequences of characters: their order, substring search and
//! lower-casing.

use vstd::prelude::*;

verus! {

/// The characters of `s`, in order.
pub fn chars_of(s: &str) -> (out: Vec<char>)
    ensures
        out@ == s@,
{
    let mut out: Vec<char> = Vec::new();
    for c in it: s.chars()
        invariant
            out@ == it.seq().take(it.index()),
            it.seq() == s@,
    {
        out.push(c);
    }
    assert(out@ =~= s@);
    out
}

/// How one string stands to another in dictionary order.
#[derive(Clone, Copy, Debug, PartialEq, Eq, Structural)]
pub enum Rank {
    Before,
    Same,
    After,
}

/// `a` and `b` hold the same characters at every position below `k`.
pub open spec fn agree_below(a: Seq<char>, b: Seq<char>, k: int) -> bool {
    &&& 0 <= k <= a.len()
    &&& k <= b.len()
    &&& forall|i: int| 0 <= i < k ==> a[i] == b[i]
}

/// `a` comes strictly before `b` in dictionary order by code point: at the
/// first position where they differ `a` has ended, or holds the smaller
/// character.
pub open spec fn precedes(a: Seq<char>, b: Seq<char>) -> bool {
    exists|k: int|
        #[trigger] agree_below(a, b, k) && k < b.len() && (k == a.len() || (a[k] as int) < (
        b[k] as int))
}

/// The rank of `a` against `b`.
pub open spec fn rank_of(a: Seq<char>, b: Seq<char>) -> Rank {
    if a =~= b {
        Rank::Same
    } else if precedes(a, b) {
        Rank::Before
    } else {
        Rank::After
    }
}

/// Two strings that agree below `j` and below `k`, each being a first point
/// of difference or an end, have `j == k`.
proof fn first_difference_unique(a: Seq<char>, b: Seq<char>, j: int, k: int)
    requires
        agree_below(a, b, j),
        agree_below(a, b, k),
        j == a.len() || j == b.len() || a[j] != b[j],
        k == a.len() || k == b.len() || a[k] != b[k],
    ensures
        j == k,
{
    if j < k {
        assert(a[j] == b[j]);
    } else if k < j {
        assert(a[k] == b[k]);
    }
}

/// No string precedes itself.
pub proof fn precedes_irreflexive(a: Seq<char>)
    ensures
        !precedes(a, a),
{
    if precedes(a, a) {
        let k = choose|k: int|
            #[trigger] agree_below(a, a, k) && k < a.len() && (k == a.len() || (a[k] as int) < (
            a[k] as int));
        assert(false);
    }
}

/// Of two strings that differ, one precedes the other.
pub proof fn precedes_total(a: Seq<char>, b: Seq<char>)
    ensures
        a == b || precedes(a, b) || precedes(b, a),
{
    let k = first_difference(a, b, 0);
    assert(agree_below(a, b, 0));
    first_difference_found(a, b, 0);
    if k == a.len() && k == b.len() {
        assert(a =~= b);
    } else if k == a.len() {
        assert(agree_below(a, b, k));
    } else if k == b.len() {
        assert(agree_below(b, a, k));
    } else {
        assert(a[k] != b[k]);
        if (a[k] as int) < (b[k] as int) {
            assert(agree_below(a, b, k));
        } else {
            assert(agree_below(b, a, k));
        }
    }
}

/// The first position at or after `from` where `a` and `b` differ or one of
/// them ends.
pub open spec fn first_difference(a: Seq<char>, b: Seq<char>, from: int) -> int
    decreases a.len() - from,
{
    if 0 <= from < a.len() && from < b.len() && a[from] == b[from] {
        first_difference(a, b, from + 1)
    } else {
        from
    }
}

/// `first_difference` keeps the agreement and stops at a difference or an end.
pub proof fn first_difference_found(a: Seq<char>, b: Seq<char>, from: int)
    requires
        agree_below(a, b, from),
    ensures
        agree_below(a, b, first_difference(a, b, from)),
        ({
            let k = first_difference(a, b, from);
            k == a.len() || k == b.len() || a[k] != b[k]
        }),
    decreases a.len() - from,
{
    if from < a.len() && from < b.len() && a[from] == b[from] {
        first_difference_found(a, b, from + 1);
    }
}

/// Dictionary order is transitive.
pub proof fn precedes_transitive(a: Seq<char>, b: Seq<char>, c: Seq<char>)
    requires
        precedes(a, b),
        precedes(b, c),
    ensures
        precedes(a, c),
{
    let j = choose|k: int|
        #[trigger] agree_below(a, b, k) && k < b.len() && (k == a.len() || (a[k] as int) < (
        b[k] as int));
    let k = choose|k: int|
        #[trigger] agree_below(b, c, k) && k < c.len() && (k == b.len() || (b[k] as int) < (
        c[k] as int));
    let m = if j < k { j } else { k };
    assert(agree_below(a, c, m));
}

/// Ranks `a` against `b` in dictionary order.
pub fn rank(a: &Vec<char>, b: &Vec<char>) -> (r: Rank)
    ensures
        r == rank_of(a@, b@),
{
    let mut i: usize = 0;
    while i < a.len() && i < b.len() && a[i] == b[i]
        invariant
            agree_below(a@, b@, i as int),
        decreases a.len() - i,
    {
        i += 1;
    }
    proof {
        let k = i as int;
        if k < a.len() && k < b.len() {
            if a@ =~= b@ {
                assert(a@[k] == b@[k]);
            }
            if (a@[k] as int) > (b@[k] as int) && precedes(a@, b@) {
                let j = choose|j: int|
                    #[trigger] agree_below(a@, b@, j) && j < b@.len() && (j == a@.len() || (
                    a@[j] as int) < (b@[j] as int));
                first_difference_unique(a@, b@, j, k);
            }
        } else if k == a.len() && k == b.len() {
            assert(a@ =~= b@);
        } else if k == a.len() {
            assert(agree_below(a@, b@, k));
        } else {
            if precedes(a@, b@) {
                let j = choose|j: int|
                    #[trigger] agree_below(a@, b@, j) && j < b@.len() && (j == a@.len() || (
                    a@[j] as int) < (b@[j] as int));
                first_difference_unique(a@, b@, j, k);
            }
        }
    }
    if i < a.len() && i < b.len() {
        let x: char = a[i];
        let y: char = b[i];
        if x < y {
            Rank::Before
        } else {
            Rank::After
        }
    } else if i == a.len() && i == b.len() {
        Rank::Same
    } else if i == a.len() {
        Rank::Before
    } else {
        Rank::After
    }
}

/// `needle` stands in `hay` from position `at` on.
pub open spec fn occurs_at(hay: Seq<char>, needle: Seq<char>, at: int) -> bool {
    &&& 0 <= at
    &&& at + needle.len() <= hay.len()
    &&& hay.subrange(at, at + needle.len()) == needle
}

/// `needle` is a substring of `hay`; the empty string is one of every string.
pub open spec fn includes(hay: Seq<char>, needle: Seq<char>) -> bool {
    exists|at: int| occurs_at(hay, needle, at)
}

/// Whether `needle` stands in `hay` from position `at` on.
fn matches_at(hay: &Vec<char>, needle: &Vec<char>, at: usize) -> (found: bool)
    requires
        at + needle.len() <= hay.len(),
    ensures
        found == occurs_at(hay@, needle@, at as int),
{
    let mut j: usize = 0;
    while j < needle.len() && hay[at + j] == needle[j]
        invariant
            j <= needle.len(),
            at + needle.len() <= hay.len(),
            forall|i: int| 0 <= i < j ==> hay@[at + i] == needle@[i],
        decreases needle.len() - j,
    {
        j += 1;
    }
    proof {
        let part = hay@.subrange(at as int, at + needle.len());
        if j == needle.len() {
            assert(part =~= needle@);
        } else {
            assert(part[j as int] == hay@[at + j]);
        }
    }
    j == needle.len()
}

/// Whether `needle` is a substring of `hay`.
pub fn find(hay: &Vec<char>, needle: &Vec<char>) -> (found: bool)
    ensures
        found == includes(hay@, needle@),
{
    if needle.len() > hay.len() {
        return false;
    }
    let last: usize = hay.len() - needle.len();
    let mut at: usize = 0;
    loop
        invariant
            last + needle.len() == hay.len(),
            at <= last,
            forall|i: int| 0 <= i < at ==> !occurs_at(hay@, needle@, i),
        decreases last - at,
    {
        if matches_at(hay, needle, at) {
            return true;
        }
        if at == last {
            return false;
        }
        at += 1;
    }
}

/// The lower-case form of a string, as `str::to_lowercase` gives it.
pub uninterp spec fn lowercased(s: Seq<char>) -> Seq<char>;

/// Calls `str::to_lowercase`, which maps each character by the Unicode
/// lower-case tables and depends on nothing but the string. The contract
/// gives that result its name and says no more of it.
#[verifier::external_body]
pub(crate) fn to_lowercase(s: &str) -> (out: String)
    ensures
        out@ == lowercased(s@),
{
    s.to_lowercase()
}

} // verus!
