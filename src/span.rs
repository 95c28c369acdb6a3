//! The changed sub-range of one line, by common prefix and suffix trimming.
use vstd::prelude::*;
use crate::text::{encode_utf16, utf16_of};

verus! {

/// Length of the common prefix of `a` and `b`, counting from index `i` on.
pub open spec fn prefix_from(a: Seq<u16>, b: Seq<u16>, i: nat) -> nat
    decreases a.len() - i,
{
    if i < a.len() && i < b.len() && a[i as int] == b[i as int] {
        prefix_from(a, b, i + 1)
    } else {
        i
    }
}

/// Length of the longest common prefix of `a` and `b`.
pub open spec fn common_prefix_len(a: Seq<u16>, b: Seq<u16>) -> nat {
    prefix_from(a, b, 0)
}

/// Length of the common suffix of `a` and `b`, counting from `j` and never beyond `cap`.
pub open spec fn suffix_from(a: Seq<u16>, b: Seq<u16>, cap: nat, j: nat) -> nat
    decreases cap - j,
{
    if j < cap && j < a.len() && j < b.len() && a[a.len() - 1 - j] == b[b.len() - 1 - j] {
        suffix_from(a, b, cap, j + 1)
    } else {
        j
    }
}

/// Length of the common suffix of `a` and `b` that does not reach into their common prefix.
pub open spec fn common_suffix_len(a: Seq<u16>, b: Seq<u16>) -> nat {
    let i = common_prefix_len(a, b);
    let cap = if a.len() <= b.len() { a.len() - i } else { b.len() - i };
    suffix_from(a, b, cap as nat, 0)
}

/// The half-open range of `b` that differs from `a` once the common prefix and the
/// common suffix are trimmed, or `None` when that range is empty.
pub open spec fn span_of(a: Seq<u16>, b: Seq<u16>) -> Option<(nat, nat)> {
    let start = common_prefix_len(a, b);
    let end = b.len() - common_suffix_len(a, b);
    if start < end {
        Some((start, end as nat))
    } else {
        None
    }
}

proof fn lemma_prefix_from(a: Seq<u16>, b: Seq<u16>, i: nat)
    requires
        i <= a.len(),
        i <= b.len(),
        forall|k: int| 0 <= k < i ==> a[k] == b[k],
    ensures
        i <= prefix_from(a, b, i) <= a.len(),
        prefix_from(a, b, i) <= b.len(),
        forall|k: int| 0 <= k < prefix_from(a, b, i) ==> a[k] == b[k],
        prefix_from(a, b, i) == a.len() || prefix_from(a, b, i) == b.len() || a[prefix_from(a, b, i) as int]
            != b[prefix_from(a, b, i) as int],
    decreases a.len() - i,
{
    if i < a.len() && i < b.len() && a[i as int] == b[i as int] {
        lemma_prefix_from(a, b, i + 1);
    }
}

/// The `k`-th units from the end of `a` and of `b` are equal.
pub open spec fn suffix_match(a: Seq<u16>, b: Seq<u16>, k: int) -> bool {
    a[a.len() - 1 - k] == b[b.len() - 1 - k]
}

proof fn lemma_suffix_from(a: Seq<u16>, b: Seq<u16>, cap: nat, j: nat)
    requires
        j <= cap,
        cap <= a.len(),
        cap <= b.len(),
        forall|k: int| 0 <= k < j ==> #[trigger] suffix_match(a, b, k),
    ensures
        j <= suffix_from(a, b, cap, j) <= cap,
        forall|k: int| 0 <= k < suffix_from(a, b, cap, j) ==> #[trigger] suffix_match(a, b, k),
        suffix_from(a, b, cap, j) == cap || a[a.len() - 1 - suffix_from(a, b, cap, j)] != b[b.len() - 1
            - suffix_from(a, b, cap, j)],
    decreases cap - j,
{
    if j < cap && j < a.len() && j < b.len() && a[a.len() - 1 - j] == b[b.len() - 1 - j] {
        lemma_suffix_from(a, b, cap, j + 1);
    }
}

/// The largest suffix length that the suffix scan may reach once `i` units are common at the front.
pub open spec fn suffix_cap(a: Seq<u16>, b: Seq<u16>, i: nat) -> int {
    if a.len() <= b.len() { a.len() - i } else { b.len() - i }
}

/// The changed range is minimal: its prefix and suffix are common to both lines and neither
/// can grow (the suffix never reaching into the prefix), and `b` is rebuilt from `a`'s prefix,
/// `b`'s changed range and `a`'s suffix. There is no range exactly when that changed range is
/// empty, which is when `a == b` or `b` is `a` with a middle part cut out.
pub proof fn lemma_span_minimal(a: Seq<u16>, b: Seq<u16>)
    ensures
        ({
            let i = common_prefix_len(a, b);
            let j = common_suffix_len(a, b);
            &&& i + j <= a.len()
            &&& i + j <= b.len()
            &&& a.subrange(0, i as int) == b.subrange(0, i as int)
            &&& a.subrange(a.len() - j, a.len() as int) == b.subrange(b.len() - j, b.len() as int)
            &&& forall|s: nat|
                s <= a.len() && s <= b.len() && #[trigger] a.subrange(0, s as int) == b.subrange(0, s as int)
                    ==> s <= i
            &&& forall|t: nat|
                t <= suffix_cap(a, b, i) && #[trigger] a.subrange(a.len() - t, a.len() as int) == b.subrange(
                    b.len() - t,
                    b.len() as int,
                ) ==> t <= j
            &&& b == a.subrange(0, i as int) + b.subrange(i as int, b.len() - j) + a.subrange(
                a.len() - j,
                a.len() as int,
            )
            &&& span_of(a, b) == (if i + j < b.len() { Some((i, (b.len() - j) as nat)) } else { None::<(nat, nat)> })
            &&& (span_of(a, b) is None <==> b == a.subrange(0, i as int) + a.subrange(a.len() - j, a.len() as int))
        }),
{
    let i = common_prefix_len(a, b);
    lemma_prefix_from(a, b, 0);
    let cap = suffix_cap(a, b, i);
    lemma_suffix_from(a, b, cap as nat, 0);
    let j = common_suffix_len(a, b);
    assert(a.subrange(0, i as int) =~= b.subrange(0, i as int));
    let sa = a.subrange(a.len() - j, a.len() as int);
    let sb = b.subrange(b.len() - j, b.len() as int);
    assert(sa =~= sb) by {
        assert forall|k: int| 0 <= k < j implies #[trigger] sa[k] == sb[k] by {
            assert(suffix_match(a, b, j - 1 - k));
        }
    }
    assert forall|s: nat|
        s <= a.len() && s <= b.len() && #[trigger] a.subrange(0, s as int) == b.subrange(0, s as int)
            implies s <= i by {
        if s > i {
            assert(a.subrange(0, s as int)[i as int] == b.subrange(0, s as int)[i as int]);
        }
    }
    assert forall|t: nat|
        t <= suffix_cap(a, b, i) && #[trigger] a.subrange(a.len() - t, a.len() as int) == b.subrange(
            b.len() - t,
            b.len() as int,
        ) implies t <= j by {
        if t > j {
            let k = t - 1 - j;
            assert(a.subrange(a.len() - t, a.len() as int)[k] == b.subrange(b.len() - t, b.len() as int)[k]);
        }
    }
    assert(b =~= a.subrange(0, i as int) + b.subrange(i as int, b.len() - j) + a.subrange(
        a.len() - j,
        a.len() as int,
    ));
    if i + j >= b.len() {
        assert(b.subrange(i as int, b.len() - j) =~= Seq::<u16>::empty());
        assert(b =~= a.subrange(0, i as int) + a.subrange(a.len() - j, a.len() as int));
    } else {
        if b == a.subrange(0, i as int) + a.subrange(a.len() - j, a.len() as int) {
            assert(b.len() == i + j);
        }
    }
}

/// The range of `b` that differs from `a`, measured in the units of the two slices.
pub fn changed_span(a: &[u16], b: &[u16]) -> (r: Option<(usize, usize)>)
    ensures
        r matches Some((s, e)) ==> span_of(a@, b@) == Some((s as nat, e as nat)),
        r is None ==> span_of(a@, b@) is None,
{
    let max_pref: usize = if a.len() <= b.len() { a.len() } else { b.len() };
    let mut i: usize = 0;
    while i < max_pref && a[i] == b[i]
        invariant
            max_pref <= a.len(),
            max_pref <= b.len(),
            max_pref == a.len() || max_pref == b.len(),
            i <= max_pref,
            prefix_from(a@, b@, i as nat) == common_prefix_len(a@, b@),
        decreases max_pref - i,
    {
        i = i + 1;
    }
    proof {
        assert(prefix_from(a@, b@, i as nat) == i);
    }
    let max_suf: usize = if a.len() <= b.len() { a.len() - i } else { b.len() - i };
    let mut j: usize = 0;
    while j < max_suf && a[a.len() - 1 - j] == b[b.len() - 1 - j]
        invariant
            i == common_prefix_len(a@, b@),
            i <= a.len(),
            i <= b.len(),
            max_suf == (if a.len() <= b.len() { a.len() - i } else { b.len() - i }),
            j <= max_suf,
            suffix_from(a@, b@, max_suf as nat, j as nat) == common_suffix_len(a@, b@),
        decreases max_suf - j,
    {
        j = j + 1;
    }
    proof {
        assert(suffix_from(a@, b@, max_suf as nat, j as nat) == j);
    }
    let end: usize = b.len() - j;
    if i < end {
        Some((i, end))
    } else {
        None
    }
}

} // verus!

verus! {

/// `n`, clamped to the largest `u32`.
pub open spec fn clamp_u32(n: nat) -> u32 {
    if n <= u32::MAX {
        n as u32
    } else {
        u32::MAX
    }
}

/// `n`, clamped to the largest `u32`.
pub fn clamp_len(n: usize) -> (r: u32)
    ensures
        r == clamp_u32(n as nat),
{
    if n as u64 <= u32::MAX as u64 {
        n as u32
    } else {
        u32::MAX
    }
}

/// The changed range of `new_line` against `old_line`, in UTF-16 code units, columns clamped to
/// the largest `u32`; no range where the clamped range is empty.
pub open spec fn span_utf16(old_line: Seq<char>, new_line: Seq<char>) -> Option<(u32, u32)> {
    match span_of(utf16_of(old_line), utf16_of(new_line)) {
        Some((s, e)) => if clamp_u32(s) < clamp_u32(e) {
            Some((clamp_u32(s), clamp_u32(e)))
        } else {
            None
        },
        None => None,
    }
}

/// A changed range is never empty and ends within the new line.
pub proof fn lemma_span_utf16_bounds(old_line: Seq<char>, new_line: Seq<char>)
    ensures
        span_utf16(old_line, new_line) matches Some((s, e)) ==> s < e && e <= clamp_u32(utf16_of(new_line).len()),
{
}

/// Returns the single changed span of `new_line` against `old_line` in UTF-16 columns, if any.
pub fn changed_span_utf16(old_line: &str, new_line: &str) -> (r: Option<(u32, u32)>)
    ensures
        r == span_utf16(old_line@, new_line@),
{
    let a = encode_utf16(old_line);
    let b = encode_utf16(new_line);
    match changed_span(a.as_slice(), b.as_slice()) {
        Some((s, e)) => {
            let start = clamp_len(s);
            let end = clamp_len(e);
            if start < end {
                Some((start, end))
            } else {
                None
            }
        },
        None => None,
    }
}

} // verus!
