//! The run-length code shared by the tile streams and the hit map.
//!
//! A stream is a sequence of two-byte pairs. The first byte of a pair is a
//! run length, the second the value that the run repeats. This module holds
//! the mathematical model of the code and the laws that relate encoding and
//! decoding; the executable encoders and decoders live with the types that
//! use them.

use vstd::prelude::*;

verus! {

/// `count` copies of `value`.
pub open spec fn run(count: nat, value: u8) -> Seq<u8> {
    Seq::new(count, |i: int| value)
}

/// The length byte of pair `k` of a stream.
pub open spec fn run_len(bytes: Seq<u8>, k: int) -> u8 {
    bytes[2 * k]
}

/// The value byte of pair `k` of a stream.
pub open spec fn run_value(bytes: Seq<u8>, k: int) -> u8 {
    bytes[2 * k + 1]
}

/// What the first `pairs` pairs of `bytes` expand to.
pub open spec fn expand_pairs(bytes: Seq<u8>, pairs: nat) -> Seq<u8>
    decreases pairs,
{
    if pairs == 0 {
        Seq::empty()
    } else {
        expand_pairs(bytes, (pairs - 1) as nat) + run(
            run_len(bytes, pairs - 1) as nat,
            run_value(bytes, pairs - 1),
        )
    }
}

/// What a whole stream expands to: every pair, in order, as a run of its
/// value. A trailing byte without a partner stands for nothing.
pub open spec fn expand(bytes: Seq<u8>) -> Seq<u8> {
    expand_pairs(bytes, bytes.len() / 2)
}

/// The stream that stands for `values`.
///
/// Values are taken one at a time. A value that equals the one before it
/// lengthens the last run, unless that run already holds 255 values; any
/// other value opens a new run of length one.
pub open spec fn encode(values: Seq<u8>) -> Seq<u8>
    decreases values.len(),
{
    if values.len() == 0 {
        Seq::empty()
    } else {
        let head = encode(values.drop_last());
        let v = values.last();
        if head.len() >= 2 && head[head.len() - 1] == v && head[head.len() - 2] < 255 {
            head.update(head.len() - 2, (head[head.len() - 2] + 1) as u8)
        } else {
            head + seq![1u8, v]
        }
    }
}

/// A stream in the form that the encoder emits: whole pairs only, no empty
/// run, and two neighbouring runs share a value only where the first of them
/// is full.
pub open spec fn canonical(bytes: Seq<u8>) -> bool {
    &&& bytes.len() % 2 == 0
    &&& forall|k: int| 0 <= k < bytes.len() / 2 ==> #[trigger] run_len(bytes, k) >= 1
    &&& forall|k: int|
        0 <= k && k + 1 < bytes.len() / 2 && run_value(bytes, k) == #[trigger] run_value(
            bytes,
            k + 1,
        ) ==> run_len(bytes, k) == 255
}

/// One tile read from the front of a run-length stream: its `need` pixels
/// and the number of bytes read for them, or `None` where the stream ends
/// before the tile is full.
///
/// Pairs are read until the tile is full. A run that would overfill the tile
/// is cut at the tile's end, and what is left of it is dropped: the next tile
/// starts with the next pair.
pub open spec fn tile(bytes: Seq<u8>, need: nat) -> Option<(Seq<u8>, nat)>
    decreases bytes.len(),
{
    if need == 0 {
        Some((Seq::empty(), 0nat))
    } else if bytes.len() < 2 {
        None
    } else {
        let used = if (bytes[0] as nat) < need {
            bytes[0] as nat
        } else {
            need
        };
        match tile(bytes.skip(2), (need - used) as nat) {
            Some((rest, read)) => Some((run(used, bytes[1]) + rest, read + 2)),
            None => None,
        }
    }
}

/// `count` tiles of `need` pixels each, read back to back from a run-length
/// stream, or `None` where the stream ends before the last of them is full.
pub open spec fn tiles(bytes: Seq<u8>, need: nat, count: nat) -> Option<Seq<Seq<u8>>>
    decreases count,
{
    if count == 0 {
        Some(Seq::empty())
    } else {
        match tile(bytes, need) {
            Some((first, read)) => match tiles(bytes.skip(read as int), need, (count - 1) as nat) {
                Some(rest) => Some(seq![first] + rest),
                None => None,
            },
            None => None,
        }
    }
}

/// `count` tiles of `need` pixels each, read back to back from a stream that
/// holds one byte per pixel, or `None` where the stream is too short.
pub open spec fn raw_tiles(bytes: Seq<u8>, need: nat, count: nat) -> Option<Seq<Seq<u8>>> {
    if need * count <= bytes.len() {
        Some(Seq::new(count, |i: int| bytes.subrange(i * need, (i + 1) * need)))
    } else {
        None
    }
}

/// The expansion of a prefix of pairs depends on those pairs alone.
pub proof fn lemma_expand_pairs_agree(a: Seq<u8>, b: Seq<u8>, pairs: nat)
    requires
        2 * pairs <= a.len(),
        2 * pairs <= b.len(),
        forall|i: int| 0 <= i < 2 * pairs ==> a[i] == b[i],
    ensures
        expand_pairs(a, pairs) == expand_pairs(b, pairs),
    decreases pairs,
{
    if pairs > 0 {
        lemma_expand_pairs_agree(a, b, (pairs - 1) as nat);
    }
}

/// Expanding a stream of whole pairs followed by one more pair appends that
/// pair's run.
pub proof fn lemma_expand_push_pair(bytes: Seq<u8>, count: u8, value: u8)
    requires
        bytes.len() % 2 == 0,
    ensures
        expand(bytes + seq![count, value]) == expand(bytes) + run(count as nat, value),
{
    let longer = bytes + seq![count, value];
    let pairs = (bytes.len() / 2) as nat;
    assert(longer.len() / 2 == pairs + 1);
    lemma_expand_pairs_agree(longer, bytes, pairs);
    assert(run_len(longer, pairs as int) == count);
    assert(run_value(longer, pairs as int) == value);
}

/// The first `pairs` pairs of a stream expand to the run of its first pair
/// followed by what the pairs after it expand to.
proof fn lemma_expand_pairs_front(bytes: Seq<u8>, pairs: nat)
    requires
        1 <= pairs,
        2 * pairs <= bytes.len(),
    ensures
        expand_pairs(bytes, pairs) == run(bytes[0] as nat, bytes[1]) + expand_pairs(
            bytes.skip(2),
            (pairs - 1) as nat,
        ),
    decreases pairs,
{
    let first = run(bytes[0] as nat, bytes[1]);
    let rest = bytes.skip(2);
    if pairs == 1 {
        assert(expand_pairs(bytes, 0) =~= Seq::<u8>::empty());
        assert(run_len(bytes, 0) == bytes[0]);
        assert(run_value(bytes, 0) == bytes[1]);
        assert(expand_pairs(bytes, 1) =~= first + expand_pairs(rest, 0));
    } else {
        lemma_expand_pairs_front(bytes, (pairs - 1) as nat);
        let last = run(run_len(bytes, pairs - 1) as nat, run_value(bytes, pairs - 1));
        assert(run_len(rest, pairs - 2) == run_len(bytes, pairs - 1));
        assert(run_value(rest, pairs - 2) == run_value(bytes, pairs - 1));
        assert((first + expand_pairs(rest, (pairs - 2) as nat)) + last =~= first + (expand_pairs(
            rest,
            (pairs - 2) as nat,
        ) + last));
    }
}

/// A stream expands to the run of its first pair followed by what the rest
/// of the stream expands to.
pub proof fn lemma_expand_front(bytes: Seq<u8>)
    requires
        bytes.len() >= 2,
    ensures
        expand(bytes) == run(bytes[0] as nat, bytes[1]) + expand(bytes.skip(2)),
{
    lemma_expand_pairs_front(bytes, (bytes.len() / 2) as nat);
}

/// A tile is the first `need` values of what the stream expands to, and the
/// stream is too short for the tile exactly where it expands to fewer than
/// `need` values. The pairs read for a tile are whole pairs of the stream.
pub proof fn lemma_tile_is_prefix(bytes: Seq<u8>, need: nat)
    ensures
        match tile(bytes, need) {
            Some((pixels, read)) => {
                &&& expand(bytes).len() >= need
                &&& pixels == expand(bytes).take(need as int)
                &&& read % 2 == 0
                &&& read <= bytes.len()
            },
            None => expand(bytes).len() < need,
        },
    decreases bytes.len(),
{
    if need == 0 {
        assert(expand(bytes).take(0) =~= Seq::<u8>::empty());
    } else if bytes.len() < 2 {
        assert(expand(bytes) =~= Seq::<u8>::empty());
    } else {
        let count = bytes[0] as nat;
        let used = if count < need {
            count
        } else {
            need
        };
        let first = run(count, bytes[1]);
        let tail = expand(bytes.skip(2));
        lemma_expand_front(bytes);
        lemma_tile_is_prefix(bytes.skip(2), (need - used) as nat);
        match tile(bytes.skip(2), (need - used) as nat) {
            Some((rest, read)) => {
                assert((first + tail).take(need as int) =~= run(used, bytes[1]) + tail.take(
                    need - used,
                ));
            },
            None => {},
        }
    }
}

/// The pairs read for a tile are the fewest whole pairs from the front of
/// the stream that expand to at least `need` values.
pub proof fn lemma_tile_reads_least(bytes: Seq<u8>, need: nat)
    requires
        tile(bytes, need) is Some,
    ensures
        ({
            let read = tile(bytes, need).unwrap().1 as int;
            &&& read % 2 == 0
            &&& read <= bytes.len()
            &&& expand(bytes.take(read)).len() >= need
            &&& forall|fewer: int|
                0 <= fewer < read && fewer % 2 == 0 ==> expand(#[trigger] bytes.take(fewer)).len()
                    < need
        }),
    decreases bytes.len(),
{
    lemma_tile_is_prefix(bytes, need);
    if need == 0 {
        assert(expand(bytes.take(0)) =~= Seq::<u8>::empty());
    } else {
        let count = bytes[0] as nat;
        let used = if count < need {
            count
        } else {
            need
        };
        let rest = bytes.skip(2);
        let left = (need - used) as nat;
        lemma_tile_reads_least(rest, left);
        lemma_tile_is_prefix(rest, left);
        let inner = tile(rest, left).unwrap().1 as int;
        let read = inner + 2;
        assert(tile(bytes, need).unwrap().1 == read);
        assert(bytes.take(read).skip(2) =~= rest.take(inner));
        lemma_expand_front(bytes.take(read));
        assert forall|fewer: int| 0 <= fewer < read && fewer % 2 == 0 implies expand(
            #[trigger] bytes.take(fewer),
        ).len() < need by {
            if fewer == 0 {
                assert(expand(bytes.take(0)) =~= Seq::<u8>::empty());
            } else {
                assert(bytes.take(fewer).skip(2) =~= rest.take(fewer - 2));
                lemma_expand_front(bytes.take(fewer));
                assert(expand(rest.take(fewer - 2)).len() < left);
            }
        }
    }
}

/// A run of `count + 1` values is a run of `count` values and one more.
pub proof fn lemma_run_push(count: nat, value: u8)
    ensures
        run(count + 1, value) == run(count, value).push(value),
{
    assert(run(count + 1, value) =~= run(count, value).push(value));
}

/// The shape of an encoded stream: whole pairs, one at least for a non-empty
/// input, and the last pair carries the last value.
pub proof fn lemma_encode_shape(values: Seq<u8>)
    ensures
        encode(values).len() % 2 == 0,
        values.len() > 0 ==> encode(values).len() >= 2,
        values.len() > 0 ==> encode(values)[encode(values).len() - 1] == values.last(),
        values.len() == 0 ==> encode(values).len() == 0,
    decreases values.len(),
{
    if values.len() > 0 {
        lemma_encode_shape(values.drop_last());
    }
}

/// Decoding undoes encoding: the expansion of the stream that stands for
/// `values` is `values` again, for every sequence of values.
pub proof fn lemma_round_trip(values: Seq<u8>)
    ensures
        expand(encode(values)) == values,
    decreases values.len(),
{
    if values.len() == 0 {
        assert(expand(encode(values)) =~= values);
    } else {
        let init = values.drop_last();
        let head = encode(init);
        let v = values.last();
        lemma_round_trip(init);
        lemma_encode_shape(init);
        assert(values =~= init.push(v));
        if head.len() >= 2 && head[head.len() - 1] == v && head[head.len() - 2] < 255 {
            let count = head[head.len() - 2];
            let pairs = (head.len() / 2) as nat;
            let grown = head.update(head.len() - 2, (count + 1) as u8);
            assert(encode(values) == grown);
            assert(grown.len() / 2 == pairs);
            lemma_expand_pairs_agree(grown, head, (pairs - 1) as nat);
            assert(run_len(grown, pairs - 1) == count + 1);
            assert(run_value(grown, pairs - 1) == v);
            assert(run_len(head, pairs - 1) == count);
            assert(run_value(head, pairs - 1) == v);
            lemma_run_push(count as nat, v);
            assert(expand(grown) =~= expand(head).push(v));
        } else {
            lemma_expand_push_pair(head, 1u8, v);
            assert(run(1, v) =~= seq![v]);
            assert(expand(head + seq![1u8, v]) =~= expand(head).push(v));
        }
    }
}

/// The encoder emits canonical streams only.
pub proof fn lemma_encode_canonical(values: Seq<u8>)
    ensures
        canonical(encode(values)),
    decreases values.len(),
{
    if values.len() > 0 {
        let init = values.drop_last();
        let head = encode(init);
        let v = values.last();
        lemma_encode_canonical(init);
        lemma_encode_shape(init);
        let out = encode(values);
        let pairs = head.len() / 2;
        if head.len() >= 2 && head[head.len() - 1] == v && head[head.len() - 2] < 255 {
            assert forall|k: int| 0 <= k < out.len() / 2 implies #[trigger] run_len(out, k)
                >= 1 by {
                if k < pairs - 1 {
                    assert(run_len(out, k) == run_len(head, k));
                }
            }
            assert forall|k: int|
                0 <= k && k + 1 < out.len() / 2 && run_value(out, k) == #[trigger] run_value(
                    out,
                    k + 1,
                ) implies run_len(out, k) == 255 by {
                assert(run_value(out, k) == run_value(head, k));
                assert(run_value(out, k + 1) == run_value(head, k + 1));
                assert(run_len(out, k) == run_len(head, k));
            }
        } else {
            assert forall|k: int| 0 <= k < out.len() / 2 implies #[trigger] run_len(out, k)
                >= 1 by {
                if k < pairs {
                    assert(run_len(out, k) == run_len(head, k));
                }
            }
            assert forall|k: int|
                0 <= k && k + 1 < out.len() / 2 && run_value(out, k) == #[trigger] run_value(
                    out,
                    k + 1,
                ) implies run_len(out, k) == 255 by {
                if k + 1 < pairs {
                    assert(run_value(out, k) == run_value(head, k));
                    assert(run_value(out, k + 1) == run_value(head, k + 1));
                    assert(run_len(out, k) == run_len(head, k));
                } else {
                    assert(run_value(out, k) == head[head.len() - 1]);
                    assert(run_len(out, k) == head[head.len() - 2]);
                    assert(run_value(out, k + 1) == v);
                }
            }
        }
    }
}

/// Encoding values that end in a run of `count` times `value` gives the
/// stream of the values before that run followed by the pair of the run,
/// where the stream before does not end in a run of `value` that has room.
proof fn lemma_encode_append_run(before: Seq<u8>, head: Seq<u8>, count: nat, value: u8)
    requires
        encode(before) == head,
        head.len() >= 2 && head[head.len() - 1] == value ==> head[head.len() - 2] == 255,
        1 <= count <= 255,
    ensures
        encode(before + run(count, value)) == head + seq![count as u8, value],
    decreases count,
{
    let values = before + run(count, value);
    assert(values.last() == value);
    if count == 1 {
        assert(values.drop_last() =~= before);
    } else {
        lemma_encode_append_run(before, head, (count - 1) as nat, value);
        assert(values.drop_last() =~= before + run((count - 1) as nat, value));
        let inner = head + seq![(count - 1) as u8, value];
        assert(inner[inner.len() - 1] == value);
        assert(inner[inner.len() - 2] == (count - 1) as u8);
        assert(inner.update(inner.len() - 2, count as u8) =~= head + seq![count as u8, value]);
    }
}

/// A canonical stream is the encoding of what it expands to: no other
/// stream of that form stands for the same values.
pub proof fn lemma_canonical_is_encoding(bytes: Seq<u8>)
    requires
        canonical(bytes),
    ensures
        bytes == encode(expand(bytes)),
    decreases bytes.len(),
{
    if bytes.len() == 0 {
        assert(expand(bytes) =~= Seq::<u8>::empty());
        assert(bytes =~= encode(expand(bytes)));
    } else {
        let pairs = bytes.len() / 2;
        let head = bytes.take(bytes.len() - 2);
        let count = bytes[bytes.len() - 2];
        let value = bytes[bytes.len() - 1];
        assert(run_len(bytes, pairs - 1) == count);
        assert(run_value(bytes, pairs - 1) == value);
        assert(bytes =~= head + seq![count, value]);
        assert forall|k: int| 0 <= k < head.len() / 2 implies #[trigger] run_len(head, k)
            >= 1 by {
            assert(run_len(head, k) == run_len(bytes, k));
        }
        assert forall|k: int|
            0 <= k && k + 1 < head.len() / 2 && run_value(head, k) == #[trigger] run_value(
                head,
                k + 1,
            ) implies run_len(head, k) == 255 by {
            assert(run_value(head, k) == run_value(bytes, k));
            assert(run_value(head, k + 1) == run_value(bytes, k + 1));
            assert(run_len(head, k) == run_len(bytes, k));
        }
        lemma_canonical_is_encoding(head);
        lemma_expand_push_pair(head, count, value);
        if head.len() >= 2 && head[head.len() - 1] == value {
            assert(run_value(bytes, pairs - 2) == head[head.len() - 1]);
            assert(run_value(bytes, pairs - 2) == run_value(bytes, pairs - 2 + 1));
            assert(run_len(bytes, pairs - 2) == head[head.len() - 2]);
        }
        lemma_encode_append_run(expand(head), head, count as nat, value);
    }
}

/// The encoding of `values` is the only canonical stream that expands to
/// `values`.
pub proof fn lemma_encoding_unique(bytes: Seq<u8>, values: Seq<u8>)
    requires
        canonical(bytes),
        expand(bytes) == values,
    ensures
        bytes == encode(values),
{
    lemma_canonical_is_encoding(bytes);
}

} // verus!
