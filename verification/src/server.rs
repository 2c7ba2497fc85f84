//! Choice of the chat server that hosts a group.
//!
//! A group name is read, after `-` and `_` become `q`, as two numbers in
//! base 36: the first five bytes, and the bytes from the seventh to the
//! ninth. The fractional part of their quotient falls into one of a list of
//! weighted server slots; the first slot whose cumulative share reaches it
//! names the server.

use vstd::prelude::*;
use crate::text::{append, decimal, push_decimal};
use crate::bindings::push_char;

verus! {

/// The server slots in their fixed order: server number and weight.
pub open spec fn server_weights() -> Seq<(u8, u16)> {
    seq![(5, 75), (6, 75), (7, 75), (8, 75), (16, 75), (17, 75), (18, 75), (9, 95), (11, 95),
        (12, 95), (13, 95), (14, 95), (15, 95), (19, 110), (23, 110), (24, 110), (25, 110),
        (26, 110), (28, 104), (29, 104), (30, 104), (31, 104), (32, 104), (33, 104), (35, 101),
        (36, 101), (37, 101), (38, 101), (39, 101), (40, 101), (41, 101), (42, 101), (43, 101),
        (44, 101), (45, 101), (46, 101), (47, 101), (48, 101), (49, 101), (50, 101), (52, 110),
        (53, 110), (55, 110), (57, 110), (58, 110), (59, 110), (60, 110), (61, 110), (62, 110),
        (63, 110), (64, 110), (65, 110), (66, 110), (68, 95), (71, 116), (72, 116), (73, 116),
        (74, 116), (75, 116), (76, 116), (77, 116), (78, 116), (79, 116), (80, 116), (81, 116),
        (82, 116), (83, 116), (84, 116)]
}

/// The weights of the first `n` slots added up.
pub open spec fn weight_sum(n: int) -> nat
    decreases n,
{
    if n <= 0 {
        0
    } else {
        weight_sum(n - 1) + server_weights()[n - 1].1 as nat
    }
}

/// The weights of all slots added up.
pub open spec fn total_weight() -> nat {
    weight_sum(server_weights().len() as int)
}

/// Whether the fraction `r / a` lies at or below the cumulative share of
/// the slots `0..=k`, i.e. `r / a <= weight_sum(k + 1) / total_weight()`.
pub open spec fn share_reached(r: nat, a: nat, k: int) -> bool {
    r * total_weight() <= weight_sum(k + 1) * a
}

/// Whether `k` is the first slot whose cumulative share reaches `r / a`.
pub open spec fn first_slot(r: nat, a: nat, k: int) -> bool {
    &&& 0 <= k < server_weights().len()
    &&& share_reached(r, a, k)
    &&& forall|j: int| 0 <= j < k ==> !share_reached(r, a, j)
}

/// The slot chosen for the fraction `r / a`.
pub open spec fn slot_for(r: nat, a: nat) -> int {
    choose|k: int| first_slot(r, a, k)
}

/// The value of a base-36 digit byte (`0`-`9`, `a`-`z`, `A`-`Z`).
pub open spec fn digit36(c: u8) -> Option<int> {
    if 48 <= c <= 57 {
        Some(c - 48)
    } else if 97 <= c <= 122 {
        Some(c - 87)
    } else if 65 <= c <= 90 {
        Some(c - 55)
    } else {
        None
    }
}

/// The value of a run of base-36 digits (zero for an empty run).
pub open spec fn digits36(d: Seq<u8>) -> Option<int>
    decreases d.len(),
{
    if d.len() == 0 {
        Some(0)
    } else {
        match (digits36(d.drop_last()), digit36(d.last())) {
            (Some(v), Some(x)) => Some(v * 36 + x),
            _ => None,
        }
    }
}

/// What `i64::from_str_radix(_, 36)` gives for a short byte string: an
/// optional sign (`+` or `-`) followed by at least one digit.
pub open spec fn radix36(s: Seq<u8>) -> Option<int> {
    if s.len() == 0 {
        None
    } else if (s[0] == 43 || s[0] == 45) && s.len() == 1 {
        None
    } else if s[0] == 43 {
        digits36(s.drop_first())
    } else if s[0] == 45 {
        match digits36(s.drop_first()) {
            Some(v) => Some(-v),
            None => None,
        }
    } else {
        digits36(s)
    }
}

/// The bytes of a group name with `-` and `_` turned into `q`.
pub open spec fn group_bytes(group: Seq<char>) -> Seq<u8> {
    vstd::utf8::encode_utf8(group).map_values(|b: u8| if b == 45 || b == 95 { 113u8 } else { b })
}

pub open spec fn min_int(x: int, y: int) -> int {
    if x <= y { x } else { y }
}

pub open spec fn max_int(x: int, y: int) -> int {
    if x >= y { x } else { y }
}

/// The part read as the dividend: the first five bytes.
pub open spec fn head_part(t: Seq<u8>) -> Seq<u8> {
    t.take(min_int(5, t.len() as int))
}

/// The part read as the divisor: bytes six to eight, when the name is
/// longer than six bytes.
pub open spec fn tail_part(t: Seq<u8>) -> Seq<u8> {
    t.subrange(6, min_int(9, t.len() as int))
}

/// Whether the server of a group can be computed: both parts are numbers in
/// base 36, and the byte before the divisor part is not the start of a
/// multi-byte character (the name is cut there).
pub open spec fn group_ok(group: Seq<char>) -> bool {
    let t = group_bytes(group);
    &&& radix36(head_part(t)) is Some
    &&& t.len() > 6 ==> t[5] < 128 && radix36(tail_part(t)) is Some
}

/// The divisor: the tail part, at least 1000 (1000 for short names).
pub open spec fn divisor(group: Seq<char>) -> int {
    let t = group_bytes(group);
    if t.len() > 6 {
        max_int(1000, radix36(tail_part(t))->0)
    } else {
        1000
    }
}

/// The dividend: the head part.
pub open spec fn dividend(group: Seq<char>) -> int {
    radix36(head_part(group_bytes(group)))->0
}

/// The number of the server that hosts a group.
pub open spec fn server_number(group: Seq<char>) -> int {
    let a = divisor(group);
    let r = dividend(group) % a;
    server_weights()[slot_for(r as nat, a as nat)].0 as int
}

/// The address of the server that hosts a group.
pub open spec fn server_address(group: Seq<char>) -> Seq<char> {
    seq!['s'] + decimal(server_number(group) as nat) + ".chatango.com:443"@
}

// ---------------------------------------------------------------------------
// Lemmas
// ---------------------------------------------------------------------------

pub open spec fn pow36(n: nat) -> nat
    decreases n,
{
    if n == 0 { 1 } else { 36 * pow36((n - 1) as nat) }
}

proof fn lemma_digits36_bound(d: Seq<u8>)
    ensures
        digits36(d) matches Some(v) ==> 0 <= v < pow36(d.len()),
    decreases d.len(),
{
    if d.len() > 0 {
        lemma_digits36_bound(d.drop_last());
        if let Some(v) = digits36(d.drop_last()) {
            let n = (d.len() - 1) as nat;
            assert(v * 36 + 35 < pow36(d.len())) by (nonlinear_arith)
                requires
                    0 <= v < pow36(n),
                    pow36(d.len()) == 36 * pow36(n),
            ;
        }
    }
}

pub proof fn lemma_weight_sum_bound(n: int)
    requires
        0 <= n <= server_weights().len(),
    ensures
        weight_sum(n) <= n * 65535,
        forall|m: int| 0 <= m <= n ==> weight_sum(m) <= weight_sum(n),
    decreases n,
{
    if n > 0 {
        lemma_weight_sum_bound(n - 1);
    }
}

/// The first slot exists and is unique, so `slot_for` names it.
proof fn lemma_slot_for(r: nat, a: nat, k: int)
    requires
        first_slot(r, a, k),
    ensures
        slot_for(r, a) == k,
{
    let c = slot_for(r, a);
    assert(first_slot(r, a, c));
    if c < k {
        assert(!share_reached(r, a, c));
    } else if k < c {
        assert(!share_reached(r, a, k));
    }
}

// ---------------------------------------------------------------------------
// Executable functions
// ---------------------------------------------------------------------------

/// The server slots, as an array.
fn weight_table() -> (t: [(u8, u16); 68])
    ensures
        t@ == server_weights(),
{
    let t: [(u8, u16); 68] = [(5, 75), (6, 75), (7, 75), (8, 75), (16, 75), (17, 75), (18, 75),
        (9, 95), (11, 95), (12, 95), (13, 95), (14, 95), (15, 95), (19, 110), (23, 110), (24, 110),
        (25, 110), (26, 110), (28, 104), (29, 104), (30, 104), (31, 104), (32, 104), (33, 104),
        (35, 101), (36, 101), (37, 101), (38, 101), (39, 101), (40, 101), (41, 101), (42, 101),
        (43, 101), (44, 101), (45, 101), (46, 101), (47, 101), (48, 101), (49, 101), (50, 101),
        (52, 110), (53, 110), (55, 110), (57, 110), (58, 110), (59, 110), (60, 110), (61, 110),
        (62, 110), (63, 110), (64, 110), (65, 110), (66, 110), (68, 95), (71, 116), (72, 116),
        (73, 116), (74, 116), (75, 116), (76, 116), (77, 116), (78, 116), (79, 116), (80, 116),
        (81, 116), (82, 116), (83, 116), (84, 116)];
    assert(t@ =~= server_weights());
    t
}


proof fn lemma_pow36_small(n: nat)
    requires
        n <= 5,
    ensures
        pow36(n) <= 60466176,
        n < 5 ==> 36 * pow36(n) <= 60466176,
{
    reveal_with_fuel(pow36, 6);
}

/// A run with a bad digit in front stays bad however it goes on.
proof fn lemma_digits36_bad_prefix(d: Seq<u8>, k: int)
    requires
        0 <= k <= d.len(),
        digits36(d.take(k)) is None,
    ensures
        digits36(d) is None,
    decreases d.len() - k,
{
    if k < d.len() {
        assert(d.take(k + 1).drop_last() =~= d.take(k));
        lemma_digits36_bad_prefix(d, k + 1);
    } else {
        assert(d.take(k) =~= d);
    }
}

/// A number without a minus sign is not negative.
pub proof fn lemma_radix36_unsigned(s: Seq<u8>)
    requires
        forall|i: int| 0 <= i < s.len() ==> s[i] != 45,
    ensures
        radix36(s) matches Some(v) ==> v >= 0,
{
    if s.len() > 0 {
        lemma_digits36_bound(s);
        lemma_digits36_bound(s.drop_first());
    }
}

/// The value of `t[from..to]` read as digits, for a run of at most five.
fn digits_value(t: &Vec<u8>, from: usize, to: usize) -> (r: Option<i64>)
    requires
        from <= to <= t@.len(),
        to - from <= 5,
    ensures
        match digits36(t@.subrange(from as int, to as int)) {
            Some(v) => r == Some(v as i64) && 0 <= v < 60466176,
            None => r is None,
        },
{
    let mut acc: i64 = 0;
    let mut i = from;
    assert(t@.subrange(from as int, from as int) =~= Seq::<u8>::empty());
    while i < to
        invariant
            from <= i <= to <= t@.len(),
            to - from <= 5,
            digits36(t@.subrange(from as int, i as int)) == Some(acc as int),
            0 <= acc < pow36((i - from) as nat),
        decreases to - i,
    {
        let c = t[i];
        let d: i64 = if 48 <= c && c <= 57 {
            (c - 48) as i64
        } else if 97 <= c && c <= 122 {
            (c - 87) as i64
        } else if 65 <= c && c <= 90 {
            (c - 55) as i64
        } else {
            proof {
                let d = t@.subrange(from as int, to as int);
                assert(d.take(i + 1 - from) =~= t@.subrange(from as int, i + 1));
                assert(t@.subrange(from as int, i + 1).drop_last() =~= t@.subrange(from as int, i as int));
                lemma_digits36_bad_prefix(d, i + 1 - from);
            }
            return None;
        };
        proof {
            lemma_pow36_small((i - from) as nat);
            assert(t@.subrange(from as int, i + 1).drop_last() =~= t@.subrange(from as int, i as int));
            assert(acc * 36 + d < 36 * pow36((i - from) as nat)) by (nonlinear_arith)
                requires
                    0 <= acc < pow36((i - from) as nat),
                    0 <= d < 36,
            ;
        }
        acc = acc * 36 + d;
        i += 1;
    }
    proof {
        lemma_pow36_small((to - from) as nat);
    }
    Some(acc)
}

/// The value of `t[from..to]` as `i64::from_str_radix(_, 36)` reads it.
fn radix36_value(t: &Vec<u8>, from: usize, to: usize) -> (r: Option<i64>)
    requires
        from <= to <= t@.len(),
        to - from <= 5,
    ensures
        match radix36(t@.subrange(from as int, to as int)) {
            Some(v) => r == Some(v as i64) && -60466176 < v < 60466176,
            None => r is None,
        },
{
    let ghost s = t@.subrange(from as int, to as int);
    if from == to {
        return None;
    }
    let c = t[from];
    if (c == 43 || c == 45) && to - from == 1 {
        return None;
    }
    assert(s.drop_first() =~= t@.subrange(from + 1, to as int));
    if c == 43 {
        digits_value(t, from + 1, to)
    } else if c == 45 {
        match digits_value(t, from + 1, to) {
            Some(v) => Some(-v),
            None => None,
        }
    } else {
        digits_value(t, from, to)
    }
}

/// The bytes of a group name with `-` and `_` turned into `q`.
fn q_bytes(group: &str) -> (t: Vec<u8>)
    ensures
        t@ == group_bytes(group@),
{
    let b = group.as_bytes();
    let mut t: Vec<u8> = Vec::new();
    let mut i: usize = 0;
    while i < b.len()
        invariant
            b@ == vstd::utf8::encode_utf8(group@),
            i <= b@.len(),
            t@ == group_bytes(group@).take(i as int),
        decreases b.len() - i,
    {
        let x = b[i];
        t.push(if x == 45 || x == 95 { 113u8 } else { x });
        assert(t@ =~= group_bytes(group@).take(i + 1));
        i += 1;
    }
    assert(t@ =~= group_bytes(group@));
    t
}

/// Whether the server of a group can be computed (see `group_ok`).
pub fn group_is_valid(group: &str) -> (r: bool)
    ensures
        r == group_ok(group@),
{
    let t = q_bytes(group);
    let n = t.len();
    let hb = if n < 5 { n } else { 5 };
    assert(t@.subrange(0, hb as int) =~= head_part(t@));
    if radix36_value(&t, 0, hb).is_none() {
        return false;
    }
    if n > 6 {
        let hi = if n >= 9 { 9 } else { n };
        assert(t@.subrange(6, hi as int) =~= tail_part(t@));
        t[5] < 128 && radix36_value(&t, 6, hi).is_some()
    } else {
        true
    }
}

/// The address of the chat server that hosts a group, as `s<number>.chatango.com:443`.
///
/// The fraction and the cumulative shares are compared exactly, as whole
/// numbers (`r * total <= cumulative * a`). When the fraction equals a slot's
/// cumulative share exactly, that slot is chosen. A computation in floating
/// point, which sums the shares with rounding, can fall just short of such a
/// boundary and choose the next slot instead (for `000afx5fe`, whose fraction
/// 375/7034 is exactly the share of the first five slots, this gives server
/// 16 where a rounded sum gives 17). Away from exact ties the two agree.
pub fn g_server(group: String) -> (r: String)
    requires
        group_ok(group@),
    ensures
        r@ == server_address(group@),
{
    let t = q_bytes(group.as_str());
    let ghost g = group@;
    proof {
        assert forall|i: int| 0 <= i < t@.len() implies t@[i] != 45 by {}
    }
    let n = t.len();
    let a: i64 = if n > 6 {
        let hi = if n >= 9 { 9 } else { n };
        assert(t@.subrange(6, hi as int) =~= tail_part(t@));
        let v = radix36_value(&t, 6, hi).unwrap();
        if v > 1000 { v } else { 1000 }
    } else {
        1000
    };
    let hb = if n < 5 { n } else { 5 };
    assert(t@.subrange(0, hb as int) =~= head_part(t@));
    let b = radix36_value(&t, 0, hb).unwrap();
    proof {
        lemma_radix36_unsigned(head_part(t@));
    }
    assert(a == divisor(g));
    assert(b == dividend(g));
    let r: u64 = (b % a) as u64;
    let a: u64 = a as u64;
    let weights = weight_table();
    let mut total: u64 = 0;
    let mut i: usize = 0;
    while i < 68
        invariant
            weights@ == server_weights(),
            i <= 68,
            total == weight_sum(i as int),
        decreases 68 - i,
    {
        proof { lemma_weight_sum_bound(i + 1); }
        total = total + weights[i].1 as u64;
        i += 1;
    }
    assert(total == total_weight());
    proof { lemma_weight_sum_bound(68); }
    assert(r * total <= 60466176 * 68 * 65535) by (nonlinear_arith)
        requires r < 60466176, total <= 68 * 65535;
    let rt = r * total;
    let mut cum: u64 = 0;
    let mut k: usize = 0;
    while k < 68
        invariant
            weights@ == server_weights(),
            k <= 68,
            cum == weight_sum(k as int),
            total == total_weight(),
            rt == r * total,
            r < a <= 60466176,
            r as int == dividend(g) % divisor(g),
            a as int == divisor(g),
            g == group@,
            forall|j: int| 0 <= j < k ==> !share_reached(r as nat, a as nat, j),
        decreases 68 - k,
    {
        proof { lemma_weight_sum_bound(k + 1); }
        cum = cum + weights[k].1 as u64;
        assert(cum * a <= 68 * 65535 * 60466176) by (nonlinear_arith)
            requires cum <= 68 * 65535, a <= 60466176;
        if rt <= cum * a {
            proof {
                assert(first_slot(r as nat, a as nat, k as int));
                lemma_slot_for(r as nat, a as nat, k as int);
            }
            let mut out = String::new();
            push_char(&mut out, 's');
            push_decimal(&mut out, weights[k].0 as u128);
            append(&mut out, ".chatango.com:443");
            assert(r as int == dividend(g) % divisor(g));
            assert(slot_for((dividend(g) % divisor(g)) as nat, divisor(g) as nat) == k);
            assert(server_number(g) == weights@[k as int].0 as int);
            assert(out@ =~= server_address(g));
            return out;
        }
        k += 1;
    }
    assert(k == 68);
    assert(cum == total);
    assert(!share_reached(r as nat, a as nat, 67));
    assert(false) by (nonlinear_arith)
        requires
            rt == r * total,
            r < a,
            cum == total,
            total > 0,
            !(rt <= cum * a),
    ;
    String::new()
}

} // verus!
