//! The library-wide laws: properties that hold across several operations,
//! stated over the same spec functions the operations' contracts use.

use vstd::prelude::*;
use crate::checksum::crc32_of;
use crate::entry::{class_of, pad16, spec_decode, SlotClass};
use crate::fs::{
    count_from, find_from, first_empty_from, resolvable, sclass, sentry, slot_bytes,
    tail_empty_from,
};
use crate::storage::{stored_at, CACHE_ARENA};
use crate::{EMPTY_FLAG, INVALID_FLAG, MAX_ENTRIES, TOTAL_BYTES, VALID_FLAG};

verus! {

/// Round trip: after a successful store of `data` under `key` (the
/// `stored_at` postcondition of `write_image`), a load of `key` that misses
/// the cache meets every success condition of `load_image` and the span it
/// returns is exactly `data`: the key resolves, the recorded span holds
/// `data`, its checksum matches, and it fits the remaining arena.
pub proof fn lemma_store_load_round_trip(
    flash: Seq<u8>,
    st: int,
    key: Seq<u8>,
    data: Seq<u8>,
    at: int,
    off0: int,
)
    requires
        stored_at(flash, st, key, data, at),
        data.len() <= CACHE_ARENA - off0,
    ensures
        ({
            let e = sentry(flash, at);
            let payload = flash.subrange(e.addr as int, e.addr + e.length);
            &&& find_from(flash, st, pad16(key)) == Some(at)
            &&& payload == data
            &&& e.length <= CACHE_ARENA - off0
            &&& e.addr + e.length <= TOTAL_BYTES
            &&& crc32_of(payload) == e.crc
        }),
{
    let e = sentry(flash, at);
    assert(e.addr + e.length == e.addr + data.len());
}

/// CRC determinism: identical payloads always produce identical stored CRCs,
/// because the recorded checksum is a function of the payload bytes alone.
pub proof fn lemma_crc_deterministic(d1: Seq<u8>, d2: Seq<u8>, c1: u32, c2: u32)
    requires
        d1 == d2,
        c1 == crc32_of(d1),
        c2 == crc32_of(d2),
    ensures
        c1 == c2,
{
}

/// Corruption detection: a slot whose flags field holds any value other than
/// the three sentinels is classified corrupt, never empty or valid.
pub proof fn lemma_nonsentinel_is_corrupt(b: Seq<u8>)
    requires
        b.len() == 32,
        spec_decode(b).flags != EMPTY_FLAG,
        spec_decode(b).flags != INVALID_FLAG,
        spec_decode(b).flags != VALID_FLAG,
    ensures
        class_of(b) is Corrupt,
{
}

/// Mount idempotence: the classification counts and the cursor a mount
/// reports are functions of the flash contents alone, and a mount leaves the
/// flash unchanged, so repeated mounts with no intervening writes report the
/// same thing.
pub proof fn lemma_mount_idempotent(f1: Seq<u8>, f2: Seq<u8>)
    requires
        f1 == f2,
    ensures
        count_from(f1, 0, SlotClass::Valid) == count_from(f2, 0, SlotClass::Valid),
        count_from(f1, 0, SlotClass::Invalidated) == count_from(f2, 0, SlotClass::Invalidated),
        count_from(f1, 0, SlotClass::Corrupt) == count_from(f2, 0, SlotClass::Corrupt),
        first_empty_from(f1, 0) == first_empty_from(f2, 0),
{
}

/// Name collision accounting: invalidating the single slot `t` (as the write
/// path does to the previous holder of a name) removes exactly that slot
/// from the valid count; every other slot keeps its bytes.
pub proof fn lemma_collision_drops_valid_count(f0: Seq<u8>, f1: Seq<u8>, s: int, t: int)
    requires
        0 <= s,
        0 <= t < MAX_ENTRIES,
        sclass(f0, t) is Valid,
        sclass(f1, t) is Invalidated,
        forall|j: int|
            0 <= j < MAX_ENTRIES && j != t ==> #[trigger] slot_bytes(f1, j) == slot_bytes(f0, j),
    ensures
        count_from(f1, s, SlotClass::Valid) == count_from(f0, s, SlotClass::Valid) - (
        if s <= t && t < first_empty_from(f0, s) {
            1int
        } else {
            0int
        }),
    decreases MAX_ENTRIES - s,
{
    if s < MAX_ENTRIES {
        if s != t {
            assert(slot_bytes(f1, s) == slot_bytes(f0, s));
        }
        if sclass(f0, s) is Empty {
            if s == t {
                assert(false);
            }
            assert(sclass(f1, s) is Empty);
            assert(first_empty_from(f0, s) == s);
        } else {
            assert(!(sclass(f1, s) is Empty));
            assert(first_empty_from(f0, s) == first_empty_from(f0, s + 1));
            lemma_collision_drops_valid_count(f0, f1, s + 1, t);
            crate::fs::lemma_first_empty_bounds(f0, s + 1);
        }
    }
}

/// A successful lookup names a valid slot bearing the searched name.
pub proof fn lemma_find_ok(flash: Seq<u8>, st: int, nm: Seq<u8>)
    requires
        0 <= st,
    ensures
        find_from(flash, st, nm) matches Some(t) ==> st <= t < MAX_ENTRIES && sclass(
            flash,
            t,
        ) is Valid && sentry(flash, t).name == nm,
        find_from(flash, st, nm) is Some ==> resolvable(flash, st, nm),
    decreases MAX_ENTRIES - st,
{
    if st < MAX_ENTRIES && !(sclass(flash, st) is Empty) {
        if sclass(flash, st) is Valid && sentry(flash, st).name == nm {
            assert(st <= st < MAX_ENTRIES && sclass(flash, st) is Valid && sentry(flash, st).name
                == nm);
        } else {
            lemma_find_ok(flash, st + 1, nm);
            if find_from(flash, st + 1, nm) is Some {
                let w = choose|t: int|
                    st + 1 <= t < MAX_ENTRIES && #[trigger] sclass(flash, t) is Valid && sentry(
                        flash,
                        t,
                    ).name == nm;
                assert(st <= w < MAX_ENTRIES && sclass(flash, w) is Valid && sentry(flash, w).name
                    == nm);
            }
        }
    }
}

/// Under the append-only shape, a failed lookup means no valid slot at or
/// after the cursor bears the name at all.
pub proof fn lemma_find_none_no_match(flash: Seq<u8>, st: int, nm: Seq<u8>)
    requires
        0 <= st,
        tail_empty_from(flash, st),
        find_from(flash, st, nm) is None,
    ensures
        !resolvable(flash, st, nm),
    decreases MAX_ENTRIES - st,
{
    if st < MAX_ENTRIES {
        if sclass(flash, st) is Empty {
            assert forall|t: int|
                st <= t < MAX_ENTRIES implies !(#[trigger] sclass(flash, t) is Valid && sentry(
                flash,
                t,
            ).name == nm) by {
                assert(sclass(flash, t) is Empty);
            }
        } else {
            assert(!(sclass(flash, st) is Valid && sentry(flash, st).name == nm));
            assert(find_from(flash, st + 1, nm) is None);
            assert(tail_empty_from(flash, st + 1));
            lemma_find_none_no_match(flash, st + 1, nm);
            assert forall|t: int|
                st <= t < MAX_ENTRIES implies !(#[trigger] sclass(flash, t) is Valid && sentry(
                flash,
                t,
            ).name == nm) by {
                if t > st {
                    assert(!resolvable(flash, st + 1, nm));
                }
            }
        }
    }
}

/// Defragmentation preserves resolvability: with the resolution-preservation
/// facts that `defrag_index` ensures, a name resolves through `find_entry`
/// after compaction exactly when it did before, and to an entry with the
/// same payload address, length and checksum; only its index coordinates may
/// differ.
pub proof fn lemma_defrag_preserves_resolution(
    flash0: Seq<u8>,
    st0: int,
    flash1: Seq<u8>,
    st1: int,
    nm: Seq<u8>,
)
    requires
        0 <= st0,
        0 <= st1,
        tail_empty_from(flash0, st0),
        tail_empty_from(flash1, st1),
        forall|n2: Seq<u8>| #[trigger] resolvable(flash1, st1, n2) <==> resolvable(flash0, st0, n2),
        forall|s1: int, s2: int|
            st1 <= s1 < MAX_ENTRIES && st0 <= s2 < MAX_ENTRIES && #[trigger] sclass(
                flash1,
                s1,
            ) is Valid && #[trigger] sclass(flash0, s2) is Valid && sentry(flash1, s1).name
                == sentry(flash0, s2).name ==> sentry(flash1, s1).addr == sentry(flash0, s2).addr
                && sentry(flash1, s1).length == sentry(flash0, s2).length && sentry(
                flash1,
                s1,
            ).crc == sentry(flash0, s2).crc,
    ensures
        find_from(flash0, st0, nm) is Some <==> find_from(flash1, st1, nm) is Some,
        (find_from(flash0, st0, nm) matches Some(t0) ==> (find_from(flash1, st1, nm) matches Some(
            t1,
        ) ==> sentry(flash1, t1).addr == sentry(flash0, t0).addr && sentry(flash1, t1).length
            == sentry(flash0, t0).length && sentry(flash1, t1).crc == sentry(flash0, t0).crc)),
{
    lemma_find_ok(flash0, st0, nm);
    lemma_find_ok(flash1, st1, nm);
    if find_from(flash0, st0, nm) is Some && find_from(flash1, st1, nm) is None {
        lemma_find_none_no_match(flash1, st1, nm);
        assert(false);
    }
    if find_from(flash1, st1, nm) is Some && find_from(flash0, st0, nm) is None {
        lemma_find_none_no_match(flash0, st0, nm);
        assert(false);
    }
}

} // verus!
