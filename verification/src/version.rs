//! Dotted version numbers: reading them, ordering them, and deciding whether
//! a version meets a minimum.

use crate::text::{
    chars_of, parse_u64, parse_unsigned, segments_from, split_on, str_eq, trim, trimmed,
};
use std::cmp::Ordering;
use vstd::prelude::*;

verus! {

/// The number that each piece writes, whitespace around it ignored, provided
/// every piece writes one.
pub open spec fn numbers_of(pieces: Seq<Seq<char>>) -> Option<Seq<u64>> {
    if forall|i: int| 0 <= i < pieces.len() ==> parse_unsigned(trimmed(#[trigger] pieces[i])) is Some {
        Some(Seq::new(pieces.len(), |i: int| parse_unsigned(trimmed(pieces[i])).unwrap()))
    } else {
        None
    }
}

/// The components of a dotted version, if every piece between the dots is
/// an unsigned number.
pub open spec fn version_components(version: Seq<char>) -> Option<Seq<u64>> {
    numbers_of(split_on(version, '.'))
}

/// Reads a dotted version such as `10.0.1` into its components.
pub fn parse_version(version: &str) -> (r: Option<Vec<u64>>)
    ensures
        match r {
            Some(parts) => version_components(version@) == Some(parts@),
            None => version_components(version@) is None,
        },
{
    let chars = chars_of(version);
    let n: usize = chars.len();
    let mut parts: Vec<u64> = Vec::new();
    let ghost mut done: Seq<Seq<char>> = Seq::empty();
    let mut start: usize = 0;
    let mut i: usize = 0;
    while i < n
        invariant
            start <= i <= n,
            n == chars@.len(),
            chars@ == version@,
            split_on(version@, '.') == done + segments_from(version@, '.', start as int, i as int),
            parts@.len() == done.len(),
            forall|k: int|
                0 <= k < done.len() ==> parse_unsigned(trimmed(#[trigger] done[k])) == Some(
                    parts@[k],
                ),
        decreases n - i,
    {
        if chars[i] == '.' {
            let piece = version.substring_char(start, i);
            let ghost rest = segments_from(version@, '.', i + 1, i + 1);
            match parse_u64(trim(piece)) {
                Some(value) => {
                    parts.push(value);
                    proof {
                        assert(done + (seq![piece@] + rest) =~= done.push(piece@) + rest);
                        done = done.push(piece@);
                    }
                },
                None => {
                    proof {
                        let all = split_on(version@, '.');
                        assert(all[done.len() as int] == piece@);
                    }
                    return None;
                },
            }
            start = i + 1;
        }
        i += 1;
    }
    let piece = version.substring_char(start, n);
    match parse_u64(trim(piece)) {
        Some(value) => {
            parts.push(value);
            proof {
                let all = split_on(version@, '.');
                assert(all =~= done.push(piece@));
                assert(parts@ =~= Seq::new(
                    all.len(),
                    |k: int| parse_unsigned(trimmed(all[k])).unwrap(),
                ));
            }
            Some(parts)
        },
        None => {
            proof {
                let all = split_on(version@, '.');
                assert(all[done.len() as int] == piece@);
            }
            None
        },
    }
}

/// The `i`-th component of a version, a missing trailing component
/// counting as zero.
pub open spec fn component(v: Seq<u64>, i: int) -> int {
    if 0 <= i < v.len() {
        v[i] as int
    } else {
        0
    }
}

/// How two versions compare from component `i` on, given that they agree
/// before it: -1, 0 or 1 as `a` is older than, the same as, or newer than
/// `b`.
pub open spec fn version_order_from(a: Seq<u64>, b: Seq<u64>, i: int) -> int
    decreases a.len() + b.len() - i,
{
    if i < 0 || (i >= a.len() && i >= b.len()) {
        0
    } else if component(a, i) < component(b, i) {
        -1
    } else if component(a, i) > component(b, i) {
        1
    } else {
        version_order_from(a, b, i + 1)
    }
}

/// How two versions compare, component by component from the left.
pub open spec fn version_order(a: Seq<u64>, b: Seq<u64>) -> int {
    version_order_from(a, b, 0)
}

/// Whether `actual` is at least `min_version`. Where both are dotted
/// numbers they are compared as versions; otherwise only the very same
/// string meets the minimum.
pub open spec fn meets_minimum(min_version: Seq<char>, actual: Seq<char>) -> bool {
    match (version_components(min_version), version_components(actual)) {
        (Some(min), Some(act)) => version_order(act, min) >= 0,
        _ => actual == min_version,
    }
}

/// Compares two versions: negative, zero or positive as `a` is older than,
/// the same as, or newer than `b`.
pub fn version_sign(a: &[u64], b: &[u64]) -> (r: i8)
    ensures
        r == version_order(a@, b@),
{
    let longest: usize = if a.len() > b.len() {
        a.len()
    } else {
        b.len()
    };
    let mut i: usize = 0;
    while i < longest
        invariant
            i <= longest,
            longest >= a@.len(),
            longest >= b@.len(),
            longest == a@.len() || longest == b@.len(),
            version_order(a@, b@) == version_order_from(a@, b@, i as int),
        decreases longest - i,
    {
        let left: u64 = if i < a.len() {
            a[i]
        } else {
            0
        };
        let right: u64 = if i < b.len() {
            b[i]
        } else {
            0
        };
        if left < right {
            return -1;
        }
        if left > right {
            return 1;
        }
        i += 1;
    }
    0
}

/// Compares two versions component by component from the left, a missing
/// trailing component counting as zero.
pub fn compare_versions(a: &[u64], b: &[u64]) -> (r: Ordering)
    ensures
        r == Ordering::Less <==> version_order(a@, b@) < 0,
        r == Ordering::Equal <==> version_order(a@, b@) == 0,
        r == Ordering::Greater <==> version_order(a@, b@) > 0,
{
    let sign: i8 = version_sign(a, b);
    if sign < 0 {
        Ordering::Less
    } else if sign > 0 {
        Ordering::Greater
    } else {
        Ordering::Equal
    }
}

/// Whether `actual` is at least `min_version`.
pub fn version_meets(min_version: &str, actual: &str) -> (r: bool)
    ensures
        r == meets_minimum(min_version@, actual@),
{
    let min_parts = parse_version(min_version);
    let actual_parts = parse_version(actual);
    match (min_parts, actual_parts) {
        (Some(min), Some(act)) => version_sign(act.as_slice(), min.as_slice()) >= 0,
        _ => str_eq(actual, min_version),
    }
}

proof fn lemma_order_from_reflexive(a: Seq<u64>, i: int)
    ensures
        version_order_from(a, a, i) == 0,
    decreases a.len() + a.len() - i,
{
    if 0 <= i && i < a.len() {
        lemma_order_from_reflexive(a, i + 1);
    }
}

proof fn lemma_order_from_antisymmetric(a: Seq<u64>, b: Seq<u64>, i: int)
    ensures
        version_order_from(a, b, i) == -version_order_from(b, a, i),
    decreases a.len() + b.len() - i,
{
    if 0 <= i && (i < a.len() || i < b.len()) && component(a, i) == component(b, i) {
        lemma_order_from_antisymmetric(a, b, i + 1);
    }
}

proof fn lemma_order_from_transitive(a: Seq<u64>, b: Seq<u64>, c: Seq<u64>, i: int)
    requires
        0 <= i,
        version_order_from(a, b, i) <= 0,
        version_order_from(b, c, i) <= 0,
    ensures
        version_order_from(a, c, i) <= 0,
        version_order_from(a, b, i) < 0 || version_order_from(b, c, i) < 0 ==> version_order_from(
            a,
            c,
            i,
        ) < 0,
    decreases a.len() + b.len() + c.len() - i,
{
    if i >= a.len() && i >= b.len() && i >= c.len() {
    } else if component(a, i) == component(b, i) && component(b, i) == component(c, i) {
        lemma_order_from_tail(a, b, i);
        lemma_order_from_tail(b, c, i);
        lemma_order_from_tail(a, c, i);
        lemma_order_from_transitive(a, b, c, i + 1);
    } else {
        lemma_order_from_tail(a, b, i);
        lemma_order_from_tail(b, c, i);
        lemma_order_from_tail(a, c, i);
    }
}

/// One step of the comparison, also past the end of both versions.
proof fn lemma_order_from_tail(a: Seq<u64>, b: Seq<u64>, i: int)
    requires
        0 <= i,
    ensures
        version_order_from(a, b, i) == if component(a, i) < component(b, i) {
            -1int
        } else if component(a, i) > component(b, i) {
            1int
        } else {
            version_order_from(a, b, i + 1)
        },
{
    if i >= a.len() && i >= b.len() {
        assert(version_order_from(a, b, i + 1) == 0);
    }
}

proof fn lemma_order_from_equal(a: Seq<u64>, b: Seq<u64>, i: int)
    requires
        0 <= i,
    ensures
        version_order_from(a, b, i) == 0 <==> forall|k: int|
            i <= k ==> component(a, k) == component(b, k),
    decreases a.len() + b.len() - i,
{
    if i >= a.len() && i >= b.len() {
    } else if component(a, i) == component(b, i) {
        lemma_order_from_equal(a, b, i + 1);
        if version_order_from(a, b, i) == 0 {
            assert forall|k: int| i <= k implies component(a, k) == component(b, k) by {
                if k > i {
                }
            }
        }
    } else {
    }
}

proof fn lemma_order_from_congruent(a: Seq<u64>, same: Seq<u64>, b: Seq<u64>, i: int)
    requires
        0 <= i,
        forall|k: int| 0 <= k ==> component(a, k) == component(same, k),
    ensures
        version_order_from(a, b, i) == version_order_from(same, b, i),
        version_order_from(b, a, i) == version_order_from(b, same, i),
    decreases a.len() + same.len() + b.len() - i,
{
    lemma_order_from_tail(a, b, i);
    lemma_order_from_tail(same, b, i);
    lemma_order_from_tail(b, a, i);
    lemma_order_from_tail(b, same, i);
    if i >= a.len() && i >= same.len() && i >= b.len() {
    } else {
        lemma_order_from_congruent(a, same, b, i + 1);
    }
}

/// Every version compares as equal with itself.
pub proof fn lemma_version_order_reflexive(a: Seq<u64>)
    ensures
        version_order(a, a) == 0,
{
    lemma_order_from_reflexive(a, 0);
}

/// Swapping the two versions reverses the outcome of the comparison.
pub proof fn lemma_version_order_antisymmetric(a: Seq<u64>, b: Seq<u64>)
    ensures
        version_order(a, b) == -version_order(b, a),
{
    lemma_order_from_antisymmetric(a, b, 0);
}

/// If `a` is no newer than `b` and `b` no newer than `c`, then `a` is no
/// newer than `c`; and strictly older if either step is strict.
pub proof fn lemma_version_order_transitive(a: Seq<u64>, b: Seq<u64>, c: Seq<u64>)
    requires
        version_order(a, b) <= 0,
        version_order(b, c) <= 0,
    ensures
        version_order(a, c) <= 0,
        version_order(a, b) < 0 || version_order(b, c) < 0 ==> version_order(a, c) < 0,
{
    lemma_order_from_transitive(a, b, c, 0);
}

/// Two versions compare as equal exactly when they agree in every
/// component, missing trailing components counting as zero.
pub proof fn lemma_version_order_equal(a: Seq<u64>, b: Seq<u64>)
    ensures
        version_order(a, b) == 0 <==> forall|k: int| 0 <= k ==> component(a, k) == component(b, k),
{
    lemma_order_from_equal(a, b, 0);
}

/// Appending zero components to a version does not change how it compares:
/// it stays equal to itself, and compares with any other version as before.
pub proof fn lemma_trailing_zeros(a: Seq<u64>, zeros: Seq<u64>, other: Seq<u64>)
    requires
        forall|k: int| 0 <= k < zeros.len() ==> zeros[k] == 0,
    ensures
        version_order(a + zeros, a) == 0,
        version_order(a, a + zeros) == 0,
        version_order(a + zeros, other) == version_order(a, other),
        version_order(other, a + zeros) == version_order(other, a),
{
    let padded = a + zeros;
    assert forall|k: int| 0 <= k implies component(padded, k) == component(a, k) by {
        if k < a.len() {
        } else if k < padded.len() {
            assert(padded[k] == zeros[k - a.len()]);
        }
    }
    lemma_version_order_equal(padded, a);
    lemma_version_order_antisymmetric(a, padded);
    lemma_order_from_congruent(padded, a, other, 0);
}

/// Every version string meets itself as a minimum, well-formed or not.
pub proof fn lemma_meets_minimum_reflexive(v: Seq<char>)
    ensures
        meets_minimum(v, v),
{
    if let Some(parts) = version_components(v) {
        lemma_version_order_reflexive(parts);
    }
}

/// Meeting a minimum carries over: if `b` meets `a` and `c` meets `b`, then
/// `c` meets `a`, for all strings, well-formed or not.
pub proof fn lemma_meets_minimum_transitive(a: Seq<char>, b: Seq<char>, c: Seq<char>)
    requires
        meets_minimum(a, b),
        meets_minimum(b, c),
    ensures
        meets_minimum(a, c),
{
    match (version_components(a), version_components(b), version_components(c)) {
        (Some(x), Some(y), Some(z)) => {
            lemma_version_order_antisymmetric(y, x);
            lemma_version_order_antisymmetric(z, y);
            lemma_version_order_transitive(x, y, z);
            lemma_version_order_antisymmetric(z, x);
        },
        _ => {},
    }
}

/// A string that is not a dotted number meets no minimum but itself, and
/// no other string meets it.
pub proof fn lemma_malformed_versions(min_version: Seq<char>, actual: Seq<char>)
    requires
        version_components(min_version) is None || version_components(actual) is None,
    ensures
        meets_minimum(min_version, actual) <==> actual == min_version,
{
}

/// Of two well-formed versions, one meets the other as a minimum; they
/// meet each other exactly when they compare as equal.
pub proof fn lemma_meets_minimum_total(a: Seq<char>, b: Seq<char>)
    requires
        version_components(a) is Some,
        version_components(b) is Some,
    ensures
        meets_minimum(a, b) || meets_minimum(b, a),
        meets_minimum(a, b) && meets_minimum(b, a) <==> version_order(
            version_components(a)->0,
            version_components(b)->0,
        ) == 0,
{
    lemma_version_order_antisymmetric(version_components(a)->0, version_components(b)->0);
}

} // verus!
