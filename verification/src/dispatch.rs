//! The built-in search and its partition among workers.
//!
//! The message is an ABI-encoded call of 132 bytes: a 100-byte header that
//! never changes (selector, hash, offset word, length word), then 32 bytes of
//! signature data, which serve as the counter. The digest is to begin with the
//! selector. Worker `i` starts with `255 / (i + 1)` in the most significant
//! byte of the counter and zeros below it, so that the workers start far
//! apart.

use crate::counter::{
    advance, counter_of, counter_value, law_trajectories_disjoint, lemma_be_value_injective,
    COUNTER_WIDTH, MESSAGE_LEN,
};
use crate::worker::{Worker, WorkerModel, WorkerState};
use vstd::arithmetic::div_mod::lemma_fundamental_div_mod_converse;
use vstd::prelude::*;

verus! {

/// Number of workers that search in parallel.
pub const WORKER_COUNT: u8 = 8;

/// Length of the fixed header of the message.
pub const HEADER_LEN: usize = 100;

/// The target pattern: the digest is to begin with these bytes.
pub const TARGET_PATTERN: [u8; 4] = [22, 38, 186, 126];

/// How many leading bytes of the target pattern make a partial match.
pub const PARTIAL_LEN: usize = 3;

/// The fixed header of the message: a 4-byte selector, a 32-byte
/// hash, a 32-byte offset word, and a 32-byte length word.
pub const MESSAGE_HEADER: [u8; 100] = [
    22, 38, 186, 126,
    25, 187, 52, 226, 147, 187, 169, 107, 240, 202, 238, 165, 76, 221, 61, 45,
    173, 127, 223, 68, 203, 234, 133, 81, 115, 250, 132, 83, 79, 207, 181, 40,
    0, 0, 0, 0, 0, 0, 0, 0, 0, 0, 0, 0, 0, 0, 0, 0,
    0, 0, 0, 0, 0, 0, 0, 0, 0, 0, 0, 0, 0, 0, 0, 64,
    0, 0, 0, 0, 0, 0, 0, 0, 0, 0, 0, 0, 0, 0, 0, 0,
    0, 0, 0, 0, 0, 0, 0, 0, 0, 0, 0, 0, 0, 0, 0, 0,
];

/// The byte that worker `index` starts with at the top of its counter.
pub open spec fn offset_of(index: nat) -> nat {
    255nat / (index + 1)
}

/// The message that worker `index` starts from: the header, then the
/// worker's starting offset, then 31 zero bytes.
pub open spec fn initial_message(index: nat) -> Seq<u8> {
    MESSAGE_HEADER@ + seq![offset_of(index) as u8] + Seq::new(31, |i: int| 0u8)
}

/// The worker that the search starts at `index`.
pub open spec fn initial_worker(index: nat) -> WorkerModel {
    WorkerModel {
        buffer: initial_message(index),
        counter_width: COUNTER_WIDTH as nat,
        pattern: TARGET_PATTERN@,
        partial_len: PARTIAL_LEN as nat,
        partial_matches: 0,
        state: WorkerState::Searching,
    }
}

/// `quotient` is the offset of worker `index` when it divides 255 by
/// `index + 1` with `remainder` left over.
proof fn lemma_offset_is(index: nat, quotient: nat, remainder: nat)
    requires
        255 == quotient * (index + 1) + remainder,
        remainder < index + 1,
    ensures
        offset_of(index) == quotient,
{
    lemma_fundamental_div_mod_converse(
        255,
        (index + 1) as int,
        quotient as int,
        remainder as int,
    );
}

/// The starting offsets of the workers are pairwise distinct.
pub proof fn law_offsets_distinct(i: nat, j: nat)
    requires
        i < WORKER_COUNT,
        j < WORKER_COUNT,
        i != j,
    ensures
        offset_of(i) != offset_of(j),
{
    lemma_offset_is(0, 255, 0);
    lemma_offset_is(1, 127, 1);
    lemma_offset_is(2, 85, 0);
    lemma_offset_is(3, 63, 3);
    lemma_offset_is(4, 51, 0);
    lemma_offset_is(5, 42, 3);
    lemma_offset_is(6, 36, 3);
    lemma_offset_is(7, 31, 7);
}

/// The workers never hash the same message at the same step: for
/// two different workers, the messages after any one number of increments
/// differ.
pub proof fn law_workers_disjoint(i: nat, j: nat, steps: nat)
    requires
        i < WORKER_COUNT,
        j < WORKER_COUNT,
        i != j,
    ensures
        advance(initial_message(i), COUNTER_WIDTH as nat, steps) != advance(
            initial_message(j),
            COUNTER_WIDTH as nat,
            steps,
        ),
{
    let width = COUNTER_WIDTH as nat;
    let a = initial_message(i);
    let b = initial_message(j);
    law_offsets_distinct(i, j);
    assert(counter_of(a, width)[0] == a[100]);
    assert(counter_of(b, width)[0] == b[100]);
    assert(offset_of(i) <= 255 && offset_of(j) <= 255);
    if counter_value(a, width) == counter_value(b, width) {
        lemma_be_value_injective(counter_of(a, width), counter_of(b, width));
    }
    law_trajectories_disjoint(a, b, width, steps);
}

/// The byte that worker `index` starts with at the top of its counter:
/// `255 / (index + 1)`.
pub fn starting_offset(index: u8) -> (offset: u8)
    ensures
        offset == offset_of(index as nat),
{
    let divisor: u16 = index as u16 + 1;
    (255u16 / divisor) as u8
}

/// The message that worker `index` starts from.
pub fn seed_message(index: u8) -> (message: [u8; 132])
    ensures
        message@ == initial_message(index as nat),
{
    let mut message = [0u8; 132];
    let mut at: usize = 0;
    while at < HEADER_LEN
        invariant
            at <= HEADER_LEN,
            forall|k: int| 0 <= k < at ==> message@[k] == MESSAGE_HEADER@[k],
            forall|k: int| at <= k < MESSAGE_LEN ==> message@[k] == 0,
        decreases HEADER_LEN - at,
    {
        message[at] = MESSAGE_HEADER[at];
        at += 1;
    }
    message[HEADER_LEN] = starting_offset(index);
    assert(message@ =~= initial_message(index as nat));
    message
}

/// A fresh copy of `bytes` on the heap.
fn copy_of(bytes: &[u8]) -> (copy: Vec<u8>)
    ensures
        copy@ == bytes@,
{
    let mut copy: Vec<u8> = Vec::with_capacity(bytes.len());
    let mut at: usize = 0;
    while at < bytes.len()
        invariant
            at <= bytes@.len(),
            copy@ == bytes@.take(at as int),
        decreases bytes@.len() - at,
    {
        copy.push(bytes[at]);
        assert(bytes@.take(at + 1) =~= bytes@.take(at as int).push(bytes@[at as int]));
        at += 1;
    }
    assert(bytes@.take(at as int) =~= bytes@);
    copy
}

/// Worker `index` of the search, ready to start.
pub fn seeded_worker(index: u8) -> (worker: Worker)
    ensures
        worker@ == initial_worker(index as nat),
        worker@.valid(),
{
    let message = seed_message(index);
    let made = Worker::new(copy_of(&message), COUNTER_WIDTH, copy_of(&TARGET_PATTERN), PARTIAL_LEN);
    made.unwrap()
}

} // verus!
