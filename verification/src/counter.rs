//! The counter engine: the trailing bytes of a message buffer read as a
//! big-endian unsigned integer, and "add one with carry" on them.
//!
//! A buffer of `L` bytes is split into a fixed prefix of `L - N` bytes and a
//! counter region of `N` bytes. The model of a buffer is `Seq<u8>`; the model
//! of the counter is the natural number [`be_value`] of its region.

use vstd::arithmetic::div_mod::{
    lemma_add_mod_noop, lemma_breakdown, lemma_fundamental_div_mod,
    lemma_fundamental_div_mod_converse, lemma_mod_add_multiples_vanish, lemma_mod_self_0,
    lemma_mod_twice, lemma_small_mod,
};
use vstd::prelude::*;

verus! {

/// Length of the message that the built-in search hashes.
pub const MESSAGE_LEN: usize = 132;

/// Width of the counter region of that message.
pub const COUNTER_WIDTH: usize = 32;

/// `256^n`: the number of values an `n`-byte counter can hold.
pub open spec fn pow256(n: nat) -> nat
    decreases n,
{
    if n == 0 {
        1
    } else {
        256 * pow256((n - 1) as nat)
    }
}

/// The big-endian unsigned integer that the bytes `s` spell.
pub open spec fn be_value(s: Seq<u8>) -> nat
    decreases s.len(),
{
    if s.len() == 0 {
        0
    } else {
        be_value(s.drop_last()) * 256 + s.last() as nat
    }
}

/// The `n` low-order base-256 digits of `v`, most significant first.
pub open spec fn be_bytes(v: nat, n: nat) -> Seq<u8>
    decreases n,
{
    if n == 0 {
        Seq::empty()
    } else {
        be_bytes(v / 256, (n - 1) as nat).push((v % 256) as u8)
    }
}

/// The fixed prefix of `buf`: everything before its last `width` bytes.
pub open spec fn prefix_of(buf: Seq<u8>, width: nat) -> Seq<u8>
    recommends
        width <= buf.len(),
{
    buf.subrange(0, buf.len() - width)
}

/// The counter region of `buf`: its last `width` bytes.
pub open spec fn counter_of(buf: Seq<u8>, width: nat) -> Seq<u8>
    recommends
        width <= buf.len(),
{
    buf.subrange(buf.len() - width, buf.len() as int)
}

/// The value of the counter region of `buf`.
pub open spec fn counter_value(buf: Seq<u8>, width: nat) -> nat
    recommends
        width <= buf.len(),
{
    be_value(counter_of(buf, width))
}

/// `buf` after `steps` increments of its `width`-byte counter: the prefix as
/// it was, followed by the counter plus `steps`, reduced modulo `256^width`.
pub open spec fn advance(buf: Seq<u8>, width: nat, steps: nat) -> Seq<u8>
    recommends
        width <= buf.len(),
{
    prefix_of(buf, width) + be_bytes(counter_value(buf, width) + steps, width)
}

/// `pow256` is never zero.
pub proof fn lemma_pow256_positive(n: nat)
    ensures
        pow256(n) > 0,
    decreases n,
{
    if n > 0 {
        lemma_pow256_positive((n - 1) as nat);
    }
}

/// An `n`-byte big-endian number is below `256^n`.
pub proof fn lemma_be_value_bound(s: Seq<u8>)
    ensures
        be_value(s) < pow256(s.len()),
    decreases s.len(),
{
    if s.len() > 0 {
        lemma_be_value_bound(s.drop_last());
    }
}

/// `be_bytes(v, n)` has exactly `n` bytes.
pub proof fn lemma_be_bytes_len(v: nat, n: nat)
    ensures
        be_bytes(v, n).len() == n,
    decreases n,
{
    if n > 0 {
        lemma_be_bytes_len(v / 256, (n - 1) as nat);
    }
}

/// Reading back the `n` low-order digits of `v` gives `v` modulo `256^n`.
pub proof fn lemma_be_value_of_bytes(v: nat, n: nat)
    ensures
        be_value(be_bytes(v, n)) == v % pow256(n),
    decreases n,
{
    if n == 0 {
        assert(be_bytes(v, n).len() == 0);
    } else {
        let m = (n - 1) as nat;
        let high = be_bytes(v / 256, m);
        let all = be_bytes(v, n);
        lemma_be_value_of_bytes(v / 256, m);
        lemma_pow256_positive(m);
        assert(all.drop_last() =~= high);
        assert(all.last() == (v % 256) as u8);
        lemma_breakdown(v as int, 256, pow256(m) as int);
    }
}

/// Every byte string is the digit string of its own value.
pub proof fn lemma_be_bytes_of_value(s: Seq<u8>)
    ensures
        be_bytes(be_value(s), s.len()) == s,
    decreases s.len(),
{
    if s.len() == 0 {
        assert(be_bytes(be_value(s), s.len()) =~= s);
    } else {
        let v = be_value(s);
        lemma_be_bytes_of_value(s.drop_last());
        lemma_fundamental_div_mod_converse(
            v as int,
            256,
            be_value(s.drop_last()) as int,
            s.last() as int,
        );
        assert(be_bytes(v, s.len()) =~= s.drop_last().push(s.last()));
        assert(s.drop_last().push(s.last()) =~= s);
    }
}

/// Two byte strings of one length that spell the same number are equal.
pub proof fn lemma_be_value_injective(a: Seq<u8>, b: Seq<u8>)
    requires
        a.len() == b.len(),
        be_value(a) == be_value(b),
    ensures
        a == b,
{
    lemma_be_bytes_of_value(a);
    lemma_be_bytes_of_value(b);
}

/// Only the residue of `v` modulo `256^n` shows in its `n` low-order digits.
pub proof fn lemma_be_bytes_mod(v: nat, n: nat)
    ensures
        be_bytes(v, n) == be_bytes(v % pow256(n), n),
{
    let p = pow256(n);
    lemma_pow256_positive(n);
    lemma_be_value_of_bytes(v, n);
    lemma_be_value_of_bytes(v % p, n);
    lemma_mod_twice(v as int, p as int);
    lemma_be_bytes_len(v, n);
    lemma_be_bytes_len(v % p, n);
    lemma_be_value_injective(be_bytes(v, n), be_bytes(v % p, n));
}

/// What `advance` does to each part of a buffer: the length and the prefix
/// stay, and the counter becomes the old counter plus `steps`, modulo
/// `256^width`.
pub proof fn lemma_advance_parts(buf: Seq<u8>, width: nat, steps: nat)
    requires
        width <= buf.len(),
    ensures
        advance(buf, width, steps).len() == buf.len(),
        prefix_of(advance(buf, width, steps), width) == prefix_of(buf, width),
        counter_of(advance(buf, width, steps), width) == be_bytes(
            counter_value(buf, width) + steps,
            width,
        ),
        counter_value(advance(buf, width, steps), width) == (counter_value(buf, width) + steps)
            % pow256(width),
{
    let sum = counter_value(buf, width) + steps;
    let next = advance(buf, width, steps);
    lemma_be_bytes_len(sum, width);
    lemma_be_value_of_bytes(sum, width);
    assert(prefix_of(next, width) =~= prefix_of(buf, width));
    assert(counter_of(next, width) =~= be_bytes(sum, width));
}

/// One increment reads the counter region as a big-endian unsigned integer
/// and leaves `(value + 1) mod 256^width` there.
pub proof fn law_increment_adds_one(buf: Seq<u8>, width: nat)
    requires
        width <= buf.len(),
    ensures
        counter_value(advance(buf, width, 1), width) == (counter_value(buf, width) + 1) % pow256(
            width,
        ),
{
    lemma_advance_parts(buf, width, 1);
}

/// Advancing by no step changes nothing.
pub proof fn law_advance_zero(buf: Seq<u8>, width: nat)
    requires
        width <= buf.len(),
    ensures
        advance(buf, width, 0) == buf,
{
    lemma_be_bytes_of_value(counter_of(buf, width));
    assert(buf =~= prefix_of(buf, width) + counter_of(buf, width));
}

/// Advancing by `first` steps and then by `second` is advancing by their sum,
/// so `n` increments in a row take a buffer to `advance(buf, width, n)`.
pub proof fn law_advance_composes(buf: Seq<u8>, width: nat, first: nat, second: nat)
    requires
        width <= buf.len(),
    ensures
        advance(advance(buf, width, first), width, second) == advance(
            buf,
            width,
            first + second,
        ),
{
    let p = pow256(width);
    let v = counter_value(buf, width);
    lemma_pow256_positive(width);
    lemma_advance_parts(buf, width, first);
    lemma_be_bytes_mod((v + first) % p + second, width);
    lemma_be_bytes_mod(v + first + second, width);
    lemma_add_mod_noop((v + first) as int, second as int, p as int);
    lemma_mod_twice((v + first) as int, p as int);
    lemma_add_mod_noop(((v + first) % p) as int, second as int, p as int);
}

/// The prefix is immutable: after any number of increments the buffer has
/// its old length and every byte outside the counter region has its old
/// value.
pub proof fn law_prefix_immutable(buf: Seq<u8>, width: nat, steps: nat)
    requires
        width <= buf.len(),
    ensures
        advance(buf, width, steps).len() == buf.len(),
        forall|i: int| 0 <= i < buf.len() - width ==> advance(buf, width, steps)[i] == buf[i],
{
    lemma_advance_parts(buf, width, steps);
    let next = advance(buf, width, steps);
    assert forall|i: int| 0 <= i < buf.len() - width implies next[i] == buf[i] by {
        assert(prefix_of(next, width)[i] == next[i]);
        assert(prefix_of(buf, width)[i] == buf[i]);
    }
}

/// Two buffers whose counters start at different values never hold the same
/// bytes after the same number of increments.
pub proof fn law_trajectories_disjoint(a: Seq<u8>, b: Seq<u8>, width: nat, steps: nat)
    requires
        width <= a.len(),
        width <= b.len(),
        counter_value(a, width) != counter_value(b, width),
    ensures
        advance(a, width, steps) != advance(b, width, steps),
{
    let p = pow256(width) as int;
    let va = counter_value(a, width) as int;
    let vb = counter_value(b, width) as int;
    lemma_advance_parts(a, width, steps);
    lemma_advance_parts(b, width, steps);
    lemma_be_value_bound(counter_of(a, width));
    lemma_be_value_bound(counter_of(b, width));
    if (va + steps) % p == (vb + steps) % p {
        lemma_fundamental_div_mod(va + steps, p);
        lemma_fundamental_div_mod(vb + steps, p);
        let qa = (va + steps) / p;
        let qb = (vb + steps) / p;
        assert(va - vb == p * (qa - qb)) by (nonlinear_arith)
            requires
                va + steps == p * qa + (va + steps) % p,
                vb + steps == p * qb + (vb + steps) % p,
                (va + steps) % p == (vb + steps) % p,
        ;
        assert(false) by (nonlinear_arith)
            requires
                va - vb == p * (qa - qb),
                -p < va - vb < p,
                va != vb,
        ;
    }
}

/// Within one period no value comes twice: two different numbers of
/// increments less than `256^width` apart lead to different buffers.
pub proof fn law_no_repeat_within_period(buf: Seq<u8>, width: nat, first: nat, second: nat)
    requires
        width <= buf.len(),
        first < second < first + pow256(width),
    ensures
        advance(buf, width, first) != advance(buf, width, second),
{
    let p = pow256(width) as int;
    let v = counter_value(buf, width) as int;
    lemma_advance_parts(buf, width, first);
    lemma_advance_parts(buf, width, second);
    if (v + first) % p == (v + second) % p {
        lemma_fundamental_div_mod(v + first, p);
        lemma_fundamental_div_mod(v + second, p);
        let q1 = (v + first) / p;
        let q2 = (v + second) / p;
        assert(second - first == p * (q2 - q1)) by (nonlinear_arith)
            requires
                v + first == p * q1 + (v + first) % p,
                v + second == p * q2 + (v + second) % p,
                (v + first) % p == (v + second) % p,
        ;
        assert(false) by (nonlinear_arith)
            requires
                second - first == p * (q2 - q1),
                0 < second - first < p,
        ;
    }
}

/// The wraparound period: after `256^width` increments a buffer is back where
/// it started.
pub proof fn law_advance_period(buf: Seq<u8>, width: nat)
    requires
        width <= buf.len(),
    ensures
        advance(buf, width, pow256(width)) == buf,
{
    let p = pow256(width);
    let v = counter_value(buf, width);
    lemma_pow256_positive(width);
    lemma_be_bytes_mod(v + p, width);
    lemma_mod_add_multiples_vanish(v as int, p as int);
    lemma_be_bytes_mod(v, width);
    law_advance_zero(buf, width);
}

/// Adding one where no carry leaves the string: `after` is `before` with the
/// byte at `pivot` raised by one and every later byte turned from 255 to 0.
proof fn lemma_carry_adds_one(before: Seq<u8>, after: Seq<u8>, pivot: int)
    requires
        before.len() == after.len(),
        0 <= pivot < before.len(),
        before[pivot] < 255,
        after[pivot] == before[pivot] + 1,
        forall|j: int| 0 <= j < pivot ==> after[j] == before[j],
        forall|j: int| pivot < j < before.len() ==> before[j] == 255 && after[j] == 0,
    ensures
        be_value(after) == be_value(before) + 1,
    decreases before.len(),
{
    if pivot == before.len() - 1 {
        assert(after.drop_last() =~= before.drop_last());
    } else {
        lemma_carry_adds_one(before.drop_last(), after.drop_last(), pivot);
    }
}

/// Adding one to a string of 255s: the sum is `256^n`, which leaves only zeros.
proof fn lemma_carry_wraps(before: Seq<u8>, after: Seq<u8>)
    requires
        before.len() == after.len(),
        forall|j: int| 0 <= j < before.len() ==> before[j] == 255 && after[j] == 0,
    ensures
        be_value(before) + 1 == pow256(before.len()),
        be_value(after) == 0,
    decreases before.len(),
{
    if before.len() > 0 {
        lemma_carry_wraps(before.drop_last(), after.drop_last());
    }
}

/// A buffer whose prefix is that of `before` and whose counter spells
/// `counter_value(before) + 1` modulo `256^width` is `advance(before, width, 1)`.
proof fn lemma_advance_by_value(before: Seq<u8>, after: Seq<u8>, width: nat)
    requires
        width <= before.len(),
        before.len() == after.len(),
        prefix_of(after, width) == prefix_of(before, width),
        counter_value(after, width) == (counter_value(before, width) + 1) % pow256(width),
    ensures
        after == advance(before, width, 1),
{
    let sum = counter_value(before, width) + 1;
    lemma_be_bytes_mod(sum, width);
    lemma_be_bytes_of_value(counter_of(after, width));
    assert(after =~= prefix_of(after, width) + counter_of(after, width));
}

/// Adds one to the big-endian counter held in the last `width` bytes of `buf`,
/// carrying from the last byte backwards, and wrapping to zero when every
/// byte of the counter is 255. Bytes before the counter are not written.
///
/// Returns whether the counter wrapped.
pub fn increment_counter(buf: &mut [u8], width: usize) -> (wrapped: bool)
    requires
        width <= old(buf)@.len(),
    ensures
        final(buf)@ == advance(old(buf)@, width as nat, 1),
        final(buf)@.len() == old(buf)@.len(),
        prefix_of(final(buf)@, width as nat) == prefix_of(old(buf)@, width as nat),
        counter_value(final(buf)@, width as nat) == (counter_value(old(buf)@, width as nat) + 1)
            % pow256(width as nat),
        wrapped <==> counter_value(old(buf)@, width as nat) + 1 == pow256(width as nat),
{
    let ghost before = buf@;
    let ghost w = width as nat;
    proof {
        lemma_advance_parts(before, w, 1);
    }
    let len = buf.len();
    let mut done: usize = 0;
    while done < width
        invariant
            done <= width <= len,
            w == width,
            before == old(buf)@,
            len == before.len(),
            buf@.len() == len,
            forall|j: int| 0 <= j < len - done ==> buf@[j] == before[j],
            forall|j: int| len - done <= j < len ==> before[j] == 255 && buf@[j] == 0,
        decreases width - done,
    {
        let at = len - 1 - done;
        let byte = buf[at];
        if byte != 255 {
            buf[at] = byte + 1;
            proof {
                let old_counter = counter_of(before, w);
                let new_counter = counter_of(buf@, w);
                let pivot = width - 1 - done;
                assert forall|j: int| pivot < j < w implies old_counter[j] == 255
                    && new_counter[j] == 0 by {
                    assert(old_counter[j] == before[len - w + j]);
                    assert(new_counter[j] == buf@[len - w + j]);
                }
                lemma_carry_adds_one(old_counter, new_counter, pivot);
                lemma_be_value_bound(counter_of(buf@, w));
                lemma_small_mod(counter_value(buf@, w), pow256(w));
                assert(prefix_of(buf@, w) =~= prefix_of(before, w));
                lemma_advance_by_value(before, buf@, w);
            }
            return false;
        }
        buf[at] = 0;
        done += 1;
    }
    proof {
        let old_counter = counter_of(before, w);
        let new_counter = counter_of(buf@, w);
        assert forall|j: int| 0 <= j < w implies old_counter[j] == 255 && new_counter[j] == 0 by {
            assert(old_counter[j] == before[len - w + j]);
            assert(new_counter[j] == buf@[len - w + j]);
        }
        lemma_carry_wraps(old_counter, new_counter);
        lemma_pow256_positive(w);
        assert(pow256(w) % pow256(w) == 0) by {
            lemma_mod_self_0(pow256(w) as int);
        }
        assert(prefix_of(buf@, w) =~= prefix_of(before, w));
        lemma_advance_by_value(before, buf@, w);
    }
    true
}

/// Adds one to the 32-byte counter at the end of a 132-byte message, wrapping
/// to zero from all 255s; the 100 bytes before the counter are left as they
/// are.
pub fn add1_to_bytes(input: &mut [u8; 132])
    ensures
        final(input)@ == advance(old(input)@, COUNTER_WIDTH as nat, 1),
        prefix_of(final(input)@, COUNTER_WIDTH as nat) == prefix_of(
            old(input)@,
            COUNTER_WIDTH as nat,
        ),
        counter_value(final(input)@, COUNTER_WIDTH as nat) == (counter_value(
            old(input)@,
            COUNTER_WIDTH as nat,
        ) + 1) % pow256(COUNTER_WIDTH as nat),
{
    increment_counter(input, COUNTER_WIDTH);
}

} // verus!
