//! What a projection makes of a configuration, descriptor by descriptor and byte by byte.

use crate::usb_personality::{rank, rewrite, rewrite_descriptor, Endpoint, Rewritten};
use vstd::prelude::*;

verus! {

/// Where the descriptors stand from `from` on: each says by its first byte where the next one is.
pub open spec fn walk(bytes: Seq<u8>, from: int) -> Seq<int>
    decreases bytes.len() - from,
{
    if from < 0 || from + 2 > bytes.len() || bytes[from] < 2 || from + bytes[from] > bytes.len() {
        seq![]
    } else {
        seq![from] + walk(bytes, from + bytes[from])
    }
}

/// Whether an interface descriptor stands at a position of a walk.
pub open spec fn interface_on(bytes: Seq<u8>, from: int, at: int) -> bool {
    walk(bytes, from).contains(at) && bytes[at + 1] == 4
}

/// Whether every endpoint descriptor of a walk is whole.
pub open spec fn endpoints_fit(bytes: Seq<u8>, from: int) -> bool {
    forall|at: int| #[trigger]
        walk(bytes, from).contains(at) && bytes[at + 1] == 5 ==> at + 7 <= bytes.len()
}

/// The endpoints that some endpoint descriptors declare.
pub open spec fn endpoints_on(bytes: Seq<u8>, offsets: Seq<int>) -> Seq<Endpoint> {
    offsets.filter(|at: int| bytes[at + 1] == 5).map_values(
        |at: int|
            Endpoint {
                address: bytes[at + 2],
                transfer_type: bytes[at + 3] % 4,
                max_packet_size: (bytes[at + 4] + 256 * bytes[at + 5]) as u16,
            },
    )
}

proof fn lemma_endpoints_step(bytes: Seq<u8>, at: int, rest: Seq<int>)
    ensures
        endpoints_on(bytes, seq![at] + rest) == (if bytes[at + 1] == 5 {
            seq![
                Endpoint {
                    address: bytes[at + 2],
                    transfer_type: bytes[at + 3] % 4,
                    max_packet_size: (bytes[at + 4] + 256 * bytes[at + 5]) as u16,
                },
            ]
        } else {
            seq![]
        }) + endpoints_on(bytes, rest),
{
    let is_endpoint = |at: int| bytes[at + 1] == 5;
    Seq::filter_distributes_over_add(seq![at], rest, is_endpoint);
    assert(seq![at].drop_last() =~= Seq::<int>::empty());
    assert(seq![at].filter(is_endpoint) =~= if is_endpoint(at) {
        seq![at]
    } else {
        seq![]
    }) by {
        reveal(Seq::filter);
        assert(Seq::<int>::empty().filter(is_endpoint) =~= seq![]);
    }
    assert(endpoints_on(bytes, seq![at] + rest) =~= (if bytes[at + 1] == 5 {
        seq![
            Endpoint {
                address: bytes[at + 2],
                transfer_type: bytes[at + 3] % 4,
                max_packet_size: (bytes[at + 4] + 256 * bytes[at + 5]) as u16,
            },
        ]
    } else {
        seq![]
    }) + endpoints_on(bytes, rest));
}

/// A walk stays behind its beginning.
pub proof fn lemma_walk_grows(bytes: Seq<u8>, from: int, k: int)
    requires
        0 <= k < walk(bytes, from).len(),
    ensures
        from <= walk(bytes, from)[k],
        walk(bytes, from)[k] + 2 <= bytes.len(),
        bytes[walk(bytes, from)[k]] >= 2,
        walk(bytes, from)[k] + bytes[walk(bytes, from)[k]] <= bytes.len(),
    decreases k,
{
    if k > 0 {
        let next = from + bytes[from];
        assert(walk(bytes, from)[k] == walk(bytes, next)[k - 1]);
        lemma_walk_grows(bytes, next, k - 1);
    }
}

proof fn lemma_rank_found(bytes: Seq<u8>, byte: u8)
    ensures
        rank(bytes, byte) <= bytes.len(),
        rank(bytes, byte) < bytes.len() ==> bytes[rank(bytes, byte) as int] == byte,
        rank(bytes, byte) == bytes.len() ==> !bytes.contains(byte),
    decreases bytes.len(),
{
    if bytes.len() > 0 && bytes[0] != byte {
        lemma_rank_found(bytes.skip(1), byte);
        if rank(bytes, byte) == bytes.len() && bytes.contains(byte) {
            let i = choose|i: int| 0 <= i < bytes.len() && bytes[i] == byte;
            assert(bytes.skip(1)[i - 1] == byte);
        }
    }
}

/// What the descriptors from `offset` on add to what was rewritten before them.
pub open spec fn rewritten_from(bytes: Seq<u8>, offset: int, state: Rewritten, end: Rewritten) -> bool {
    let shift = state.body.len() - offset;
    // Nothing is left out and nothing is added.
    &&& end.body.len() == bytes.len() + shift
    &&& state.body.len() <= end.body.len()
    &&& end.body.take(state.body.len() as int) == state.body
    &&& end.count == state.count + walk(bytes, offset).len()
    &&& end.endpoints == state.endpoints + endpoints_on(bytes, walk(bytes, offset))
    &&& state.originals.len() <= end.originals.len()
    &&& end.originals.take(state.originals.len() as int) == state.originals
    &&& endpoints_fit(bytes, offset)
    // Every byte stays but the numbers of interface strings.
    &&& forall|p: int|
        offset <= p < bytes.len() ==> #[trigger] end.body[p + shift] == bytes[p] || interface_on(
            bytes,
            offset,
            p - 8,
        )
    // Those are renumbered, and each new number leads to the old one.
    &&& forall|at: int| #[trigger]
        interface_on(bytes, offset, at) ==> renumbered(bytes, at, end.body[at + 8 + shift], end)
    &&& forall|k: int|
        state.originals.len() <= k < end.originals.len() ==> #[trigger] named_on(
            bytes,
            offset,
            end.originals[k],
        )
    &&& forall|number: u8| #[trigger]
        end.interfaces.contains(number) <==> state.interfaces.contains(number) || numbered_on(
            bytes,
            offset,
            number,
        )
}

/// Whether an interface's new string number leads to its old one.
pub open spec fn renumbered(bytes: Seq<u8>, at: int, number: u8, end: Rewritten) -> bool {
    &&& at + 9 <= bytes.len()
    &&& number == 0 <==> bytes[at + 8] == 0
    &&& number > 0 ==> number <= end.originals.len() && end.originals[number - 1] == bytes[at + 8]
}

/// Whether an interface descriptor has this string number, which is not zero.
pub open spec fn named_on(bytes: Seq<u8>, from: int, index: u8) -> bool {
    index != 0 && exists|at: int| #[trigger]
        interface_on(bytes, from, at) && at + 9 <= bytes.len() && bytes[at + 8] == index
}

/// Whether an interface descriptor has this interface number.
pub open spec fn numbered_on(bytes: Seq<u8>, from: int, number: u8) -> bool {
    exists|at: int| #[trigger] interface_on(bytes, from, at) && bytes[at + 2] == number
}

/// A walk begins at its first descriptor and goes on behind it.
pub proof fn lemma_walk_parts(bytes: Seq<u8>, from: int, at: int)
    requires
        0 <= from,
        from + 2 <= bytes.len(),
        2 <= bytes[from] <= bytes.len() - from,
    ensures
        interface_on(bytes, from, at) <==> (at == from && bytes[from + 1] == 4) || interface_on(
            bytes,
            from + bytes[from],
            at,
        ),
        walk(bytes, from).contains(at) <==> at == from || walk(bytes, from + bytes[from]).contains(
            at,
        ),
        walk(bytes, from + bytes[from]).contains(at) ==> at >= from + bytes[from],
{
    let rest = walk(bytes, from + bytes[from]);
    let whole = walk(bytes, from);
    assert(whole == seq![from] + rest);
    assert(whole[0] == from);
    if rest.contains(at) {
        let k = choose|k: int| 0 <= k < rest.len() && rest[k] == at;
        assert(whole[k + 1] == at);
        lemma_walk_grows(bytes, from + bytes[from], k);
    }
    if whole.contains(at) && at != from {
        let k = choose|k: int| 0 <= k < whole.len() && whole[k] == at;
        assert(rest[k - 1] == at);
    }
}

/// One descriptor of a rewriting.
#[verifier::rlimit(60)]
proof fn lemma_one_rewritten(bytes: Seq<u8>, offset: int, state: Rewritten)
    requires
        0 <= offset,
        offset + 2 <= bytes.len(),
        2 <= bytes[offset] <= bytes.len() - offset,
        rewrite_descriptor(
            state,
            bytes.subrange(offset, offset + bytes[offset]),
        ) is Ok,
    ensures
        ({
            let next = rewrite_descriptor(
                state,
                bytes.subrange(offset, offset + bytes[offset]),
            )->Ok_0;
            let length = bytes[offset] as int;
            let base = state.body.len() as int;
            let interface = bytes[offset + 1] == 4;
            &&& next.body.len() == base + length
            &&& next.body.take(base) == state.body
            &&& next.count == state.count + 1
            &&& next.endpoints == state.endpoints + (if bytes[offset + 1] == 5 {
                seq![
                    Endpoint {
                        address: bytes[offset + 2],
                        transfer_type: bytes[offset + 3] % 4,
                        max_packet_size: (bytes[offset + 4] + 256 * bytes[offset + 5]) as u16,
                    },
                ]
            } else {
                seq![]
            })
            &&& state.originals.len() <= next.originals.len()
            &&& next.originals.take(state.originals.len() as int) == state.originals
            &&& forall|i: int|
                0 <= i < length && !(interface && i == 8) ==> #[trigger] next.body[base + i]
                    == bytes[offset + i]
            &&& bytes[offset + 1] == 5 ==> length >= 7
            &&& interface ==> length >= 9 && renumbered(bytes, offset, next.body[base + 8], next)
            &&& next.originals.len() > state.originals.len() ==> interface && bytes[offset + 8] != 0
                && next.originals.len() == state.originals.len() + 1 && next.originals.last()
                == bytes[offset + 8]
            &&& next.interfaces == (if interface {
                state.interfaces.insert(bytes[offset + 2])
            } else {
                state.interfaces
            })
        }),
{
    let descriptor = bytes.subrange(offset, offset + bytes[offset]);
    let next = rewrite_descriptor(state, descriptor)->Ok_0;
    let base = state.body.len() as int;
    assert forall|i: int| 0 <= i < descriptor.len() implies #[trigger] descriptor[i] == bytes[offset
        + i] by {}
    lemma_rank_found(state.originals, descriptor[8]);
    assert(next.body.take(base) =~= state.body);
    assert(next.originals.take(state.originals.len() as int) =~= state.originals);
    let attributes = descriptor[3];
    assert(attributes & 0x03 == attributes % 4) by (bit_vector);
    assert(state.endpoints + Seq::<Endpoint>::empty() =~= state.endpoints);
    if descriptor[1] == 5 {
        assert(next.endpoints =~= state.endpoints + seq![
            Endpoint {
                address: bytes[offset + 2],
                transfer_type: bytes[offset + 3] % 4,
                max_packet_size: (bytes[offset + 4] + 256 * bytes[offset + 5]) as u16,
            },
        ]);
    }
}

/// Rewriting goes through the descriptors one by one.
#[verifier::rlimit(80)]
pub proof fn lemma_rewritten(bytes: Seq<u8>, offset: int, state: Rewritten)
    requires
        0 <= offset <= bytes.len(),
        rewrite(bytes, offset, state) is Ok,
    ensures
        rewritten_from(bytes, offset, state, rewrite(bytes, offset, state)->Ok_0),
    decreases bytes.len() - offset,
{
    let end = rewrite(bytes, offset, state)->Ok_0;
    if offset >= bytes.len() {
        assert(walk(bytes, offset) =~= seq![]);
        assert(endpoints_on(bytes, walk(bytes, offset)) =~= seq![]);
        assert(state.endpoints + Seq::<Endpoint>::empty() =~= state.endpoints);
        assert(end.body.take(state.body.len() as int) =~= state.body);
        assert(end.originals.take(state.originals.len() as int) =~= state.originals);
    } else {
        let length = bytes[offset] as int;
        let next = rewrite_descriptor(state, bytes.subrange(offset, offset + length))->Ok_0;
        lemma_one_rewritten(bytes, offset, state);
        lemma_rewritten(bytes, offset + length, next);
        lemma_rewritten_joined(bytes, offset, state, next, end);
    }
}

#[verifier::rlimit(80)]
proof fn lemma_rewritten_joined(
    bytes: Seq<u8>,
    offset: int,
    state: Rewritten,
    next: Rewritten,
    end: Rewritten,
)
    requires
        0 <= offset,
        offset + 2 <= bytes.len(),
        2 <= bytes[offset] <= bytes.len() - offset,
        rewrite_descriptor(
            state,
            bytes.subrange(offset, offset + bytes[offset]),
        ) == Ok::<Rewritten, crate::usb_personality::ProjectionError>(next),
        rewritten_from(bytes, offset + bytes[offset], next, end),
    ensures
        rewritten_from(bytes, offset, state, end),
{
    lemma_one_rewritten(bytes, offset, state);
    let length = bytes[offset] as int;
    let shift = state.body.len() - offset;
    let base = state.body.len() as int;
    let rest = walk(bytes, offset + length);
    assert(walk(bytes, offset) == seq![offset] + rest);
    lemma_endpoints_step(bytes, offset, rest);
    assert(end.endpoints =~= state.endpoints + endpoints_on(bytes, walk(bytes, offset)));
    assert forall|at: int| #[trigger]
        walk(bytes, offset).contains(at) && bytes[at + 1] == 5 implies at + 7 <= bytes.len() by {
        lemma_walk_parts(bytes, offset, at);
        if at != offset {
            assert(walk(bytes, offset + length).contains(at));
        }
    }
    assert(end.body.take(base) =~= state.body) by {
        assert forall|i: int| 0 <= i < base implies end.body[i] == state.body[i] by {
            assert(end.body.take(next.body.len() as int)[i] == next.body[i]);
            assert(next.body.take(base)[i] == state.body[i]);
        }
    }
    assert forall|k: int| 0 <= k < next.originals.len() implies #[trigger] end.originals[k]
        == next.originals[k] by {
        assert(end.originals.take(next.originals.len() as int)[k] == next.originals[k]);
    }
    assert(end.originals.take(state.originals.len() as int) =~= state.originals) by {
        assert forall|i: int| 0 <= i < state.originals.len() implies end.originals[i]
            == state.originals[i] by {
            assert(next.originals.take(state.originals.len() as int)[i] == state.originals[i]);
        }
    }
    assert forall|p: int| offset <= p < bytes.len() implies #[trigger] end.body[p + shift]
        == bytes[p] || interface_on(bytes, offset, p - 8) by {
        lemma_walk_parts(bytes, offset, p - 8);
        if p < offset + length {
            let i = p - offset;
            assert(end.body.take(next.body.len() as int)[base + i] == next.body[base + i]);
            assert(end.body[p + shift] == next.body[base + i]);
        }
    }
    assert forall|at: int| #[trigger] interface_on(bytes, offset, at) implies renumbered(
        bytes,
        at,
        end.body[at + 8 + shift],
        end,
    ) by {
        lemma_walk_parts(bytes, offset, at);
        if at == offset {
            assert(end.body.take(next.body.len() as int)[base + 8] == next.body[base + 8]);
        } else {
            assert(interface_on(bytes, offset + length, at));
        }
    }
    assert forall|k: int| state.originals.len() <= k < end.originals.len() implies #[trigger] named_on(
        bytes,
        offset,
        end.originals[k],
    ) by {
        if k < next.originals.len() {
            lemma_walk_parts(bytes, offset, offset);
            assert(interface_on(bytes, offset, offset));
        } else {
            assert(named_on(bytes, offset + length, end.originals[k]));
            let at = choose|at: int| #[trigger]
                interface_on(bytes, offset + length, at) && at + 9 <= bytes.len() && bytes[at + 8]
                    == end.originals[k];
            lemma_walk_parts(bytes, offset, at);
            assert(interface_on(bytes, offset, at));
        }
    }
    assert forall|number: u8| #[trigger]
        end.interfaces.contains(number) <==> state.interfaces.contains(number) || numbered_on(
            bytes,
            offset,
            number,
        ) by {
        lemma_walk_parts(bytes, offset, offset);
        if bytes[offset + 1] == 4 && bytes[offset + 2] == number {
            assert(interface_on(bytes, offset, offset));
        }
        if numbered_on(bytes, offset + length, number) {
            let at = choose|at: int| #[trigger]
                interface_on(bytes, offset + length, at) && bytes[at + 2] == number;
            lemma_walk_parts(bytes, offset, at);
            assert(interface_on(bytes, offset, at));
        }
        if numbered_on(bytes, offset, number) {
            let at = choose|at: int| #[trigger]
                interface_on(bytes, offset, at) && bytes[at + 2] == number;
            lemma_walk_parts(bytes, offset, at);
            if at != offset {
                assert(interface_on(bytes, offset + length, at));
            }
        }
    }
}

/// Where the descriptors stand does not depend on what goes before them.
pub proof fn lemma_walk_shift(bytes: Seq<u8>, from: int)
    requires
        0 <= from,
        bytes.len() >= 9,
    ensures
        walk(bytes.skip(9), from).len() == walk(bytes, from + 9).len(),
        forall|k: int|
            0 <= k < walk(bytes, from + 9).len() ==> #[trigger] walk(bytes, from + 9)[k] == walk(
                bytes.skip(9),
                from,
            )[k] + 9,
        endpoints_fit(bytes.skip(9), from) ==> endpoints_on(bytes.skip(9), walk(bytes.skip(9), from))
            == endpoints_on(bytes, walk(bytes, from + 9)),
    decreases bytes.len() - from,
{
    let body = bytes.skip(9);
    if from + 2 <= body.len() && 2 <= body[from] && from + body[from] <= body.len() {
        let next = from + body[from];
        lemma_walk_shift(bytes, next);
        lemma_endpoints_step(body, from, walk(body, next));
        lemma_endpoints_step(bytes, from + 9, walk(bytes, next + 9));
        assert(body[from] == bytes[from + 9] && body[from + 1] == bytes[from + 10]);
        assert(walk(body, from) == seq![from] + walk(body, next));
        assert(walk(bytes, from + 9) == seq![from + 9] + walk(bytes, next + 9));
        if endpoints_fit(body, from) {
            assert forall|at: int| #[trigger]
                walk(body, next).contains(at) && body[at + 1] == 5 implies at + 7
                <= body.len() by {
                lemma_walk_parts(body, from, at);
                assert(walk(body, from).contains(at));
            }
            lemma_walk_parts(body, from, from);
            assert(walk(body, from).contains(from));
        }
        if from + 6 <= body.len() {
            assert(body[from + 2] == bytes[from + 11] && body[from + 3] == bytes[from + 12]
                && body[from + 4] == bytes[from + 13] && body[from + 5] == bytes[from + 14]);
        }
    } else {
        assert(walk(body, from) =~= seq![]);
        assert(walk(bytes, from + 9) =~= seq![]);
        assert(endpoints_on(body, walk(body, from)) =~= endpoints_on(bytes, walk(bytes, from + 9)));
    }
}

/// An interface behind the first descriptor stands nine bytes further in the whole configuration.
pub proof fn lemma_interface_shift(bytes: Seq<u8>, at: int)
    requires
        bytes.len() >= 9,
    ensures
        interface_on(bytes.skip(9), 0, at) <==> interface_on(bytes, 9, at + 9),
{
    let body = bytes.skip(9);
    lemma_walk_shift(bytes, 0);
    let inner = walk(body, 0);
    let outer = walk(bytes, 9);
    if inner.contains(at) {
        let k = choose|k: int| 0 <= k < inner.len() && inner[k] == at;
        assert(outer[k] == at + 9);
        lemma_walk_grows(body, 0, k);
    }
    if outer.contains(at + 9) {
        let k = choose|k: int| 0 <= k < outer.len() && outer[k] == at + 9;
        assert(inner[k] == at);
        lemma_walk_grows(body, 0, k);
    }
}

} // verus!
