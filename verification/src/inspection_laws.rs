//! Which blobs FunctionFS is given, and what it reads in them.

use crate::bytes::{le16_at, le32_at};
use crate::functionfs::{
    absorb, compatible_ids, descriptor_at, descriptor_set, descriptors_verdict, endpoint_of,
    language_tables_end, no_topology, nul_at, os_descriptor_end, os_descriptors_end, properties,
    property_end, set_counts, speed_flags, speed_sets, string_run_end, strings_verdict, Direction,
    Endpoint, Topology,
};
use crate::picture_laws::{text_at, text_begins, text_end};
use vstd::prelude::*;
use vstd::utf8::valid_utf8;

verus! {

/// Where `count` descriptors stand from a position on.
pub open spec fn set_offsets(bytes: Seq<u8>, from: int, count: nat) -> Seq<int>
    decreases count,
{
    if count == 0 {
        seq![]
    } else {
        seq![from] + set_offsets(bytes, from + bytes[from], (count - 1) as nat)
    }
}

/// Where `count` descriptors end that stand from a position on.
pub open spec fn set_end(bytes: Seq<u8>, from: int, count: nat) -> int
    decreases count,
{
    if count == 0 {
        from
    } else {
        set_end(bytes, from + bytes[from], (count - 1) as nat)
    }
}

/// The endpoints that some endpoint descriptors declare: the highest bit of an address tells the
/// direction, and the lowest two bits of the attributes tell the transfer type.
pub open spec fn endpoints_read(bytes: Seq<u8>, offsets: Seq<int>) -> Seq<Endpoint> {
    offsets.filter(|at: int| bytes[at + 1] == 5).map_values(
        |at: int|
            Endpoint {
                direction: if bytes[at + 2] >= 128 {
                    Direction::In
                } else {
                    Direction::Out
                },
                transfer_type: bytes[at + 3] % 4,
            },
    )
}

/// Whether a descriptor is whole: an interface has nine bytes and an endpoint seven, with an
/// address other than that of the control endpoint.
pub open spec fn descriptor_fits(bytes: Seq<u8>, at: int) -> bool {
    &&& 0 <= at
    &&& at + 2 <= bytes.len()
    &&& 2 <= bytes[at] <= bytes.len() - at
    &&& bytes[at + 1] == 4 ==> bytes[at] >= 9
    &&& bytes[at + 1] == 5 ==> bytes[at] >= 7 && bytes[at + 2] % 16 != 0
}

/// Whether a set of descriptors is whole, and no two of its endpoints share an address, nor one of
/// them an address in `taken`.
pub open spec fn set_fits(bytes: Seq<u8>, from: int, count: nat, taken: Set<u8>) -> bool
    decreases count,
{
    count == 0 || {
        &&& descriptor_fits(bytes, from)
        &&& bytes[from + 1] == 5 ==> !taken.contains(bytes[from + 2])
        &&& set_fits(
            bytes,
            from + bytes[from],
            (count - 1) as nat,
            if bytes[from + 1] == 5 {
                taken.insert(bytes[from + 2])
            } else {
                taken
            },
        )
    }
}

/// Whether an interface of a set has this number.
pub open spec fn set_has_interface(bytes: Seq<u8>, offsets: Seq<int>, number: u8) -> bool {
    exists|k: int|
        0 <= k < offsets.len() && bytes[#[trigger] offsets[k] + 1] == 4 && bytes[offsets[k] + 2]
            == number
}

proof fn lemma_read_step(bytes: Seq<u8>, at: int, rest: Seq<int>)
    ensures
        endpoints_read(bytes, seq![at] + rest) == (if bytes[at + 1] == 5 {
            seq![
                Endpoint {
                    direction: if bytes[at + 2] >= 128 {
                        Direction::In
                    } else {
                        Direction::Out
                    },
                    transfer_type: bytes[at + 3] % 4,
                },
            ]
        } else {
            seq![]
        }) + endpoints_read(bytes, rest),
{
    let is_endpoint = |at: int| bytes[at + 1] == 5;
    Seq::filter_distributes_over_add(seq![at], rest, is_endpoint);
    assert(seq![at].drop_last() =~= Seq::<int>::empty());
    assert(seq![at].filter(is_endpoint) =~= if is_endpoint(at) {
        seq![at]
    } else {
        seq![]
    }) by {
        reveal(Seq::filter);
        assert(Seq::<int>::empty().filter(is_endpoint) =~= seq![]);
    }
    assert(endpoints_read(bytes, seq![at] + rest) =~= (if bytes[at + 1] == 5 {
        seq![
            Endpoint {
                direction: if bytes[at + 2] >= 128 {
                    Direction::In
                } else {
                    Direction::Out
                },
                transfer_type: bytes[at + 3] % 4,
            },
        ]
    } else {
        seq![]
    }) + endpoints_read(bytes, rest));
}

proof fn lemma_one_descriptor(bytes: Seq<u8>, at: int, set: Topology)
    requires
        0 <= at,
    ensures
        ({
            let read = match descriptor_at(bytes, at) {
                Err(error) => Err(error),
                Ok(descriptor) => absorb(set, descriptor),
            };
            let fits = descriptor_fits(bytes, at) && !(bytes[at + 1] == 5
                && set.addresses.contains(bytes[at + 2]));
            &&& read is Ok <==> fits
            &&& fits ==> {
                let next = read->Ok_0;
                &&& descriptor_at(bytes, at) matches Ok(descriptor) && descriptor.len()
                    == bytes[at]
                &&& next.endpoints == set.endpoints + endpoints_read(bytes, seq![at])
                &&& next.addresses == (if bytes[at + 1] == 5 {
                    set.addresses.insert(bytes[at + 2])
                } else {
                    set.addresses
                })
                &&& next.interfaces == (if bytes[at + 1] == 4 {
                    set.interfaces.insert(bytes[at + 2])
                } else {
                    set.interfaces
                })
            }
        }),
{
    lemma_read_step(bytes, at, seq![]);
    assert(seq![at] + Seq::<int>::empty() =~= seq![at]);
    assert(endpoints_read(bytes, seq![]) =~= seq![]) by {
        reveal(Seq::filter);
    }
    if descriptor_at(bytes, at) is Ok {
        let descriptor = descriptor_at(bytes, at)->Ok_0;
        assert forall|i: int| 0 <= i < descriptor.len() implies #[trigger] descriptor[i]
            == bytes[at + i] by {}
        let address = bytes[at + 2];
        let attributes = bytes[at + 3];
        assert(address & 0x0f == address % 16) by (bit_vector);
        assert(address & 0x80 != 0 <==> address >= 128) by (bit_vector);
        assert(attributes & 0x03 == attributes % 4) by (bit_vector);
        assert(set.endpoints + Seq::<Endpoint>::empty() =~= set.endpoints);
        if bytes[at + 1] == 5 && descriptor.len() >= 7 {
            let one = seq![endpoint_of(descriptor[2], descriptor[3])];
            assert(endpoints_read(bytes, seq![at]) =~= one);
            assert(set.endpoints + one =~= set.endpoints.push(one[0]));
        }
    }
}

/// A set of descriptors is taken exactly where it is whole, and what it declares is read from its
/// own bytes.
pub proof fn lemma_sets_are_read(bytes: Seq<u8>, from: int, count: nat, set: Topology)
    requires
        0 <= from,
    ensures
        descriptor_set(bytes, from, count, set) is Ok <==> set_fits(
            bytes,
            from,
            count,
            set.addresses,
        ),
        descriptor_set(bytes, from, count, set) matches Ok((end, read)) ==> {
            let offsets = set_offsets(bytes, from, count);
            &&& end == set_end(bytes, from, count)
            &&& end >= from
            &&& read.endpoints == set.endpoints + endpoints_read(bytes, offsets)
            &&& forall|number: u8| #[trigger]
                read.interfaces.contains(number) <==> set.interfaces.contains(number)
                    || set_has_interface(bytes, offsets, number)
        },
    decreases count,
{
    if count == 0 {
        assert(endpoints_read(bytes, seq![]) =~= seq![]) by {
            reveal(Seq::filter);
        }
        assert(set.endpoints + Seq::<Endpoint>::empty() =~= set.endpoints);
    } else {
        lemma_one_descriptor(bytes, from, set);
        let rest = set_offsets(bytes, from + bytes[from], (count - 1) as nat);
        let offsets = set_offsets(bytes, from, count);
        if descriptor_fits(bytes, from) && !(bytes[from + 1] == 5 && set.addresses.contains(
            bytes[from + 2],
        )) {
            let descriptor = descriptor_at(bytes, from)->Ok_0;
            let next = absorb(set, descriptor)->Ok_0;
            lemma_sets_are_read(bytes, from + bytes[from], (count - 1) as nat, next);
            lemma_read_step(bytes, from, rest);
            lemma_read_step(bytes, from, seq![]);
            assert(seq![from] + Seq::<int>::empty() =~= seq![from]);
            assert(endpoints_read(bytes, seq![]) =~= seq![]) by {
                reveal(Seq::filter);
            }
            if descriptor_set(bytes, from, count, set) is Ok {
                let (end, read) = descriptor_set(bytes, from, count, set)->Ok_0;
                assert(read.endpoints =~= set.endpoints + endpoints_read(bytes, offsets));
                assert forall|number: u8| #[trigger]
                    read.interfaces.contains(number) <==> set.interfaces.contains(number)
                        || set_has_interface(bytes, offsets, number) by {
                    if set_has_interface(bytes, rest, number) {
                        let k = choose|k: int|
                            0 <= k < rest.len() && bytes[#[trigger] rest[k] + 1] == 4
                                && bytes[rest[k] + 2] == number;
                        assert(offsets[k + 1] == rest[k]);
                    }
                    if set_has_interface(bytes, offsets, number) {
                        let k = choose|k: int|
                            0 <= k < offsets.len() && bytes[#[trigger] offsets[k] + 1] == 4
                                && bytes[offsets[k] + 2] == number;
                        if k > 0 {
                            assert(rest[k - 1] == offsets[k]);
                        }
                    }
                    assert(offsets[0] == from);
                }
            }
        }
    }
}

/// The number of speeds whose flag is set.
pub open spec fn speeds(flags: int) -> int {
    flags % 2 + flags / 2 % 2 + flags / 4 % 2
}

/// How many descriptors the set number `k` has, as the header says.
pub open spec fn set_count(bytes: Seq<u8>, k: nat) -> nat {
    le32_at(bytes, 12 + 4 * (k as int)) as nat
}

/// Where the descriptor set number `k` begins, counted from zero: behind the one before it, as many
/// descriptors as its count in the header says.
pub open spec fn set_begins(bytes: Seq<u8>, head: int, k: nat) -> int
    decreases k,
{
    if k == 0 {
        head
    } else {
        set_end(
            bytes,
            set_begins(bytes, head, (k - 1) as nat),
            set_count(bytes, (k - 1) as nat),
        )
    }
}

/// Where the descriptors of set number `k` stand.
pub open spec fn nth_set(bytes: Seq<u8>, head: int, k: nat) -> Seq<int> {
    set_offsets(bytes, set_begins(bytes, head, k), set_count(bytes, k))
}

proof fn lemma_flag_bits(flags: u32)
    ensures
        flags & 1 != 0 <==> flags as int % 2 == 1,
        flags & 2 != 0 <==> flags as int / 2 % 2 == 1,
        flags & 4 != 0 <==> flags as int / 4 % 2 == 1,
        flags & 8 != 0 <==> flags as int / 8 % 2 == 1,
        flags & !207u32 == 0 <==> flags < 256 && flags as int / 16 % 4 == 0,
{
    assert(flags & 1 != 0 <==> flags % 2 == 1) by (bit_vector);
    assert(flags & 2 != 0 <==> flags / 2 % 2 == 1) by (bit_vector);
    assert(flags & 4 != 0 <==> flags / 4 % 2 == 1) by (bit_vector);
    assert(flags & 8 != 0 <==> flags / 8 % 2 == 1) by (bit_vector);
    assert(flags & !207u32 == 0 <==> flags < 256 && flags / 16 % 4 == 0) by (bit_vector);
}

proof fn lemma_counts(
    bytes: Seq<u8>,
    offset: int,
    flags: u32,
    wanted: Seq<u32>,
    counts: Seq<(u32, u32)>,
)
    requires
        offset == 12 + 4 * counts.len(),
        forall|k: int| 0 <= k < counts.len() ==> (#[trigger] counts[k]).1 == le32_at(bytes, 12 + 4 * k),
        set_counts(bytes, offset, flags, wanted, counts) is Ok,
    ensures
        ({
            let (end, found) = set_counts(bytes, offset, flags, wanted, counts)->Ok_0;
            &&& end == 12 + 4 * found.len()
            &&& end <= bytes.len() || found.len() == counts.len()
            &&& found.len() == counts.len() + wanted_flags(flags, wanted)
            &&& forall|k: int|
                0 <= k < found.len() ==> (#[trigger] found[k]).1 == le32_at(bytes, 12 + 4 * k)
        }),
    decreases wanted.len(),
{
    if wanted.len() > 0 {
        if flags & wanted[0] == 0 {
            lemma_counts(bytes, offset, flags, wanted.skip(1), counts);
        } else {
            lemma_counts(
                bytes,
                offset + 4,
                flags,
                wanted.skip(1),
                counts.push((wanted[0], le32_at(bytes, offset))),
            );
        }
    }
}

spec fn wanted_flags(flags: u32, wanted: Seq<u32>) -> nat
    decreases wanted.len(),
{
    if wanted.len() == 0 {
        0
    } else {
        wanted_flags(flags, wanted.skip(1)) + if flags & wanted[0] == 0 {
            0nat
        } else {
            1nat
        }
    }
}

proof fn lemma_wanted(flags: u32)
    ensures
        wanted_flags(flags, speed_flags()) == speeds(flags as int),
{
    lemma_flag_bits(flags);
    let all = speed_flags();
    let two = all.skip(1);
    let one = two.skip(1);
    assert(all[0] == 1 && two[0] == 2 && one[0] == 4);
    assert(one.skip(1) =~= seq![]);
    assert(wanted_flags(flags, one.skip(1)) == 0);
    assert(wanted_flags(flags, one) == if flags & 4 == 0 {
        0nat
    } else {
        1nat
    });
    assert(wanted_flags(flags, two) == wanted_flags(flags, one) + if flags & 2 == 0 {
        0nat
    } else {
        1nat
    });
}

/// Whether a set is whole and declares what is known.
spec fn set_known(bytes: Seq<u8>, head: int, k: nat, known: Topology) -> bool {
    &&& set_fits(bytes, set_begins(bytes, head, k), set_count(bytes, k), Set::empty())
    &&& endpoints_read(bytes, nth_set(bytes, head, k)) == known.endpoints
    &&& forall|number: u8| #[trigger]
        known.interfaces.contains(number) <==> set_has_interface(
            bytes,
            nth_set(bytes, head, k),
            number,
        )
}

/// What the sets from number `k` on amount to.
#[verifier::rlimit(80)]
proof fn lemma_speed_sets(
    bytes: Seq<u8>,
    head: int,
    all: Seq<(u32, u32)>,
    k: nat,
    first: Option<Topology>,
)
    requires
        0 <= head,
        k <= all.len(),
        0 <= set_begins(bytes, head, k),
        forall|i: int| 0 <= i < all.len() ==> (#[trigger] all[i]).1 == le32_at(bytes, 12 + 4 * i),
        first is None <==> k == 0,
        speed_sets(bytes, set_begins(bytes, head, k), all.skip(k as int), first) is Ok,
    ensures
        ({
            let (end, found) = speed_sets(
                bytes,
                set_begins(bytes, head, k),
                all.skip(k as int),
                first,
            )->Ok_0;
            &&& end == set_begins(bytes, head, all.len())
            &&& 0 <= end
            &&& first is Some ==> found == first
            &&& found is None <==> all.len() == 0
            &&& forall|i: nat|
                k <= i < all.len() ==> #[trigger] set_known(bytes, head, i, found->0)
        }),
    decreases all.len() - k,
{
    let rest = all.skip(k as int);
    let start = set_begins(bytes, head, k);
    if k < all.len() {
        let count = set_count(bytes, k);
        assert(rest[0] == all[k as int]);
        assert(rest.skip(1) =~= all.skip(k as int + 1));
        lemma_sets_are_read(bytes, start, count, no_topology());
        let (end, set) = descriptor_set(bytes, start, count, no_topology())->Ok_0;
        assert(set_begins(bytes, head, k + 1) == end);
        assert(no_topology().endpoints + endpoints_read(bytes, nth_set(bytes, head, k))
            =~= endpoints_read(bytes, nth_set(bytes, head, k)));
        let next = if first is None {
            Some(set)
        } else {
            first
        };
        assert(set_known(bytes, head, k, set));
        lemma_speed_sets(bytes, head, all, k + 1, next);
        let (_, found) = speed_sets(bytes, start, rest, first)->Ok_0;
        assert(set_known(bytes, head, k, found->0)) by {
            if first is Some {
                assert((first->0).endpoints == set.endpoints);
                assert((first->0).interfaces == set.interfaces);
            }
        }
        assert forall|i: nat| k <= i < all.len() implies #[trigger] set_known(
            bytes,
            head,
            i,
            found->0,
        ) by {
            if i > k {
                assert(k + 1 <= i);
            }
        }
    } else {
        assert(rest =~= seq![]);
    }
}

/// A descriptor blob that is taken tells its own format and length and has only known flags. Behind
/// the header stands one descriptor set for each speed, whole and as long as the header says; all
/// of them declare the endpoints that are read, and the same interfaces. Without Microsoft OS
/// descriptors nothing stands behind the last set.
#[verifier::rlimit(80)]
pub proof fn lemma_blobs_are_read(bytes: Seq<u8>, k: nat)
    requires
        descriptors_verdict(bytes) is Ok,
    ensures
        ({
            let (endpoints, windows) = descriptors_verdict(bytes)->Ok_0;
            let flags = le32_at(bytes, 8) as int;
            let head = 12 + 4 * speeds(flags) + (if windows {
                4int
            } else {
                0
            });
            let number = speeds(flags);
            &&& bytes.len() >= 12
            &&& le32_at(bytes, 0) == 3
            &&& le32_at(bytes, 4) == bytes.len()
            &&& 0 < flags < 256
            &&& flags / 16 % 4 == 0
            &&& windows <==> flags / 8 % 2 == 1
            &&& number == 0 ==> endpoints.len() == 0
            &&& k < number ==> {
                &&& set_fits(
                    bytes,
                    set_begins(bytes, head, k),
                    set_count(bytes, k),
                    Set::empty(),
                )
                &&& endpoints == endpoints_read(bytes, nth_set(bytes, head, k))
                &&& forall|interface: u8| #[trigger]
                    set_has_interface(bytes, nth_set(bytes, head, k), interface)
                        <==> set_has_interface(bytes, nth_set(bytes, head, 0), interface)
            }
            &&& !windows ==> set_begins(bytes, head, number as nat) == bytes.len()
            &&& windows ==> le32_at(bytes, 12 + 4 * number) > 0
        }),
{
    let flags = le32_at(bytes, 8);
    let (end, counts) = set_counts(bytes, 12, flags, speed_flags(), seq![])->Ok_0;
    lemma_flag_bits(flags);
    lemma_counts(bytes, 12, flags, speed_flags(), seq![]);
    lemma_wanted(flags);
    let windows = flags & 8 != 0;
    let head = if windows {
        end + 4
    } else {
        end
    };
    assert(counts.skip(0) =~= counts);
    assert(set_begins(bytes, head, 0) == head);
    lemma_speed_sets(bytes, head, counts, 0, None);
    let number = speeds(flags as int);
    assert(counts.len() == number);
    if k < number {
        let first: nat = 0;
        let found = (speed_sets(bytes, head, counts, None)->Ok_0).1;
        assert(set_known(bytes, head, k, found->0));
        assert(set_known(bytes, head, first, found->0));
        assert forall|interface: u8| #[trigger]
            set_has_interface(bytes, nth_set(bytes, head, k), interface) <==> set_has_interface(
                bytes,
                nth_set(bytes, head, 0),
                interface,
            ) by {
            let known = (found->0).interfaces.contains(interface);
            assert(known <==> set_has_interface(bytes, nth_set(bytes, head, k), interface));
            assert(known <==> set_has_interface(bytes, nth_set(bytes, head, first), interface));
        }
    }
}

/// A compatible ID that is taken is on an interface of the device, says so by a one, names
/// something, and has nothing but printable characters and zeros in its places.
pub proof fn lemma_compatible_ids_are_read(
    bytes: Seq<u8>,
    cursor: int,
    count: nat,
    interfaces: Set<u8>,
    i: int,
)
    requires
        0 <= cursor,
        cursor + 24 * count <= bytes.len(),
        compatible_ids(bytes, cursor, count, interfaces) is Ok,
        0 <= i < count,
    ensures
        ({
            let at = cursor + 24 * i;
            &&& interfaces.contains(bytes[at])
            &&& bytes[at + 1] == 1
            &&& exists|j: int| 2 <= j < 10 && #[trigger] bytes[at + j] != 0
            &&& forall|j: int|
                2 <= j < 18 ==> #[trigger] bytes[at + j] == 0 || 33 <= bytes[at + j] <= 126
            &&& forall|j: int| 18 <= j < 24 ==> #[trigger] bytes[at + j] == 0
        }),
    decreases count,
{
    if i > 0 {
        lemma_compatible_ids_are_read(
            bytes,
            cursor + 24,
            (count - 1) as nat,
            interfaces,
            i - 1,
        );
        assert(cursor + 24 + 24 * (i - 1) == cursor + 24 * i);
    } else {
        let at = cursor;
        let first = bytes.subrange(at + 2, at + 10);
        let texts = bytes.subrange(at + 2, at + 18);
        let zeros = bytes.subrange(at + 18, at + 24);
        let j = choose|j: int| 0 <= j < first.len() && first[j] != 0;
        assert(bytes[at + (j + 2)] != 0);
        assert forall|j: int| 2 <= j < 18 implies #[trigger] bytes[at + j] == 0 || 33 <= bytes[at
            + j] <= 126 by {
            assert(texts[j - 2] == bytes[at + j]);
        }
        assert forall|j: int| 18 <= j < 24 implies #[trigger] bytes[at + j] == 0 by {
            assert(zeros[j - 18] == bytes[at + j]);
        }
    }
}

/// Where the property number `i` begins, counted from zero: each tells its own length.
pub open spec fn property_begins(bytes: Seq<u8>, from: int, i: nat) -> int
    decreases i,
{
    if i == 0 {
        from
    } else {
        property_begins(bytes, from + le32_at(bytes, from), (i - 1) as nat)
    }
}

/// A property that is taken has a known type, a zero-terminated UTF-8 name, and data that ends
/// where the property does. The last one ends where its descriptor does.
pub proof fn lemma_properties_are_read(
    bytes: Seq<u8>,
    cursor: int,
    count: nat,
    end: int,
    i: nat,
)
    requires
        0 <= cursor,
        end <= bytes.len(),
        properties(bytes, cursor, count, end) is Ok,
        i < count,
    ensures
        ({
            let at = property_begins(bytes, cursor, i);
            let size = le32_at(bytes, at) as int;
            let name_length = le16_at(bytes, at + 8) as int;
            let name = bytes.subrange(at + 10, at + 10 + name_length);
            &&& 0 <= at && 14 <= size && at + size <= end
            &&& 1 <= le32_at(bytes, at + 4) <= 7
            &&& name_length > 0 && 14 + name_length <= size
            &&& name.last() == 0
            &&& valid_utf8(name.drop_last())
            &&& 14 + name_length + le32_at(bytes, at + 10 + name_length) == size
        }),
        property_begins(bytes, cursor, count) == end,
    decreases count,
{
    let next = property_end(bytes, cursor, end)->Ok_0;
    if count > 1 {
        let later: nat = if i > 0 {
            (i - 1) as nat
        } else {
            0
        };
        lemma_properties_are_read(bytes, next, (count - 1) as nat, end, later);
    } else {
        assert(property_begins(bytes, next, 0) == next);
        assert(properties(bytes, cursor, 1, end) == properties(bytes, next, 0, end));
    }
    assert(property_begins(bytes, cursor, count) == property_begins(
        bytes,
        next,
        (count - 1) as nat,
    ));
    if i > 0 {
        assert(property_begins(bytes, cursor, i) == property_begins(bytes, next, (i - 1) as nat));
    }
}

/// A Microsoft OS descriptor that is taken is on an interface of the device, tells its own length,
/// is of the known version, and holds compatible IDs or properties that fill it.
pub proof fn lemma_os_descriptors_are_read(bytes: Seq<u8>, start: int, interfaces: Set<u8>)
    requires
        0 <= start,
        os_descriptor_end(bytes, start, interfaces) is Ok,
    ensures
        ({
            let end = os_descriptor_end(bytes, start, interfaces)->Ok_0;
            let index = le16_at(bytes, start + 7);
            let count = le16_at(bytes, start + 9) as nat;
            &&& interfaces.contains(bytes[start])
            &&& end == start + le32_at(bytes, start + 1)
            &&& start + 11 <= end <= bytes.len()
            &&& le16_at(bytes, start + 5) == 256
            &&& count > 0
            &&& index == 4 || index == 5
            &&& index == 4 ==> end - start == 11 + 24 * count && compatible_ids(
                bytes,
                start + 11,
                count,
                interfaces,
            ) is Ok
            &&& index == 5 ==> properties(bytes, start + 11, count, end) is Ok
        }),
{
}

/// Where the Microsoft OS descriptor number `i` begins, counted from zero.
pub open spec fn os_begins(bytes: Seq<u8>, from: int, i: nat) -> int
    decreases i,
{
    if i == 0 {
        from
    } else {
        os_begins(bytes, from + le32_at(bytes, from + 1), (i - 1) as nat)
    }
}

/// A run of Microsoft OS descriptors is taken only where each of them is.
pub proof fn lemma_os_run_is_read(
    bytes: Seq<u8>,
    offset: int,
    count: nat,
    interfaces: Set<u8>,
    i: nat,
)
    requires
        0 <= offset,
        os_descriptors_end(bytes, offset, count, interfaces) is Ok,
        i < count,
    ensures
        os_descriptor_end(bytes, os_begins(bytes, offset, i), interfaces) is Ok,
        os_descriptors_end(bytes, offset, count, interfaces)->Ok_0 == os_begins(
            bytes,
            offset,
            count,
        ),
    decreases count,
{
    let next = os_descriptor_end(bytes, offset, interfaces)->Ok_0;
    if count > 1 {
        let later: nat = if i > 0 {
            (i - 1) as nat
        } else {
            0
        };
        lemma_os_run_is_read(bytes, next, (count - 1) as nat, interfaces, later);
    } else {
        assert(os_begins(bytes, next, 0) == next);
        assert(os_descriptors_end(bytes, offset, 1, interfaces) == os_descriptors_end(
            bytes,
            next,
            0,
            interfaces,
        ));
    }
    assert(os_begins(bytes, offset, count) == os_begins(bytes, next, (count - 1) as nat));
    if i > 0 {
        assert(os_begins(bytes, offset, i) == os_begins(bytes, next, (i - 1) as nat));
    }
}

/// Where a descriptor blob says that it has Microsoft OS descriptors, they fill what is behind the
/// descriptor sets, as many as the header says, each on an interface of the device.
#[verifier::rlimit(60)]
pub proof fn lemma_windows_descriptors_are_read(bytes: Seq<u8>, i: nat)
    requires
        descriptors_verdict(bytes) is Ok,
        (descriptors_verdict(bytes)->Ok_0).1,
        i < le32_at(bytes, 12 + 4 * speeds(le32_at(bytes, 8) as int)),
    ensures
        ({
            let flags = le32_at(bytes, 8) as int;
            let number = speeds(flags);
            let head = 16 + 4 * number;
            let begin = set_begins(bytes, head, number as nat);
            let count = le32_at(bytes, 12 + 4 * number) as nat;
            let start = os_begins(bytes, begin, i);
            &&& os_begins(bytes, begin, count) == bytes.len()
            &&& start + 11 <= bytes.len()
            &&& le16_at(bytes, start + 5) == 256
            &&& le16_at(bytes, start + 7) == 4 || le16_at(bytes, start + 7) == 5
            &&& number > 0 && set_has_interface(bytes, nth_set(bytes, head, 0), bytes[start])
        }),
{
    let flags = le32_at(bytes, 8);
    let (end, counts) = set_counts(bytes, 12, flags, speed_flags(), seq![])->Ok_0;
    lemma_flag_bits(flags);
    lemma_counts(bytes, 12, flags, speed_flags(), seq![]);
    lemma_wanted(flags);
    let head = end + 4;
    assert(counts.skip(0) =~= counts);
    assert(set_begins(bytes, head, 0) == head);
    lemma_speed_sets(bytes, head, counts, 0, None);
    let (sets_end, first) = speed_sets(bytes, head, counts, None)->Ok_0;
    let set = first.unwrap_or(no_topology());
    let count = le32_at(bytes, end) as nat;
    lemma_os_run_is_read(bytes, sets_end, count, set.interfaces, i);
    let start = os_begins(bytes, sets_end, i);
    lemma_os_begins_grow(bytes, sets_end, i);
    lemma_os_descriptors_are_read(bytes, start, set.interfaces);
    assert(set.interfaces.contains(bytes[start]));
    if counts.len() > 0 {
        let zero: nat = 0;
        assert(set_known(bytes, head, zero, first->0));
    }
}

proof fn lemma_os_begins_grow(bytes: Seq<u8>, from: int, i: nat)
    requires
        0 <= from,
    ensures
        from <= os_begins(bytes, from, i),
    decreases i,
{
    if i > 0 {
        lemma_os_begins_grow(bytes, from + le32_at(bytes, from + 1), (i - 1) as nat);
    }
}

proof fn lemma_nul(bytes: Seq<u8>, at: int)
    requires
        0 <= at,
    ensures
        nul_at(bytes, at) matches Some(nul) ==> nul == text_end(bytes, at) && at <= nul
            < bytes.len() && bytes[nul] == 0,
    decreases bytes.len() - at,
{
    if at < bytes.len() && bytes[at] != 0 {
        lemma_nul(bytes, at + 1);
    }
}

/// A run of strings is taken only where each is UTF-8 and ends with a zero.
pub proof fn lemma_strings_are_read(bytes: Seq<u8>, from: int, count: nat, i: nat)
    requires
        0 <= from,
        string_run_end(bytes, from, count) is Ok,
        i < count,
    ensures
        ({
            let at = text_begins(bytes, from, i);
            &&& 0 <= at
            &&& text_end(bytes, at) < bytes.len()
            &&& bytes[text_end(bytes, at)] == 0
            &&& valid_utf8(text_at(bytes, at))
        }),
        string_run_end(bytes, from, count)->Ok_0 == text_begins(bytes, from, count),
    decreases count,
{
    lemma_nul(bytes, from);
    let next = nul_at(bytes, from)->0 + 1;
    if count > 1 {
        let later: nat = if i > 0 {
            (i - 1) as nat
        } else {
            0
        };
        lemma_strings_are_read(bytes, next, (count - 1) as nat, later);
    } else {
        assert(text_begins(bytes, next, 0) == next);
    }
    assert(text_begins(bytes, from, count) == text_begins(bytes, next, (count - 1) as nat));
    if i > 0 {
        assert(text_begins(bytes, from, i) == text_begins(bytes, next, (i - 1) as nat));
    }
}

/// A string blob with one language that is taken tells its own format and length, has as many
/// strings as it says, each UTF-8 with a zero behind it, and nothing behind the last.
pub proof fn lemma_string_blobs_are_read(bytes: Seq<u8>, i: nat)
    requires
        strings_verdict(bytes) is Ok,
        le32_at(bytes, 12) == 1,
        i < le32_at(bytes, 8),
    ensures
        bytes.len() >= 18,
        le32_at(bytes, 0) == 2,
        le32_at(bytes, 4) == bytes.len(),
        valid_utf8(text_at(bytes, text_begins(bytes, 18, i))),
        text_end(bytes, text_begins(bytes, 18, i)) < bytes.len(),
        text_begins(bytes, 18, le32_at(bytes, 8) as nat) == bytes.len(),
{
    let count = le32_at(bytes, 8) as nat;
    lemma_strings_are_read(bytes, 18, count, i);
    let end = string_run_end(bytes, 18, count)->Ok_0;
    assert(language_tables_end(bytes, 16, 1, count) == language_tables_end(bytes, end, 0, count));
}

/// Whether `count` strings from a position on are UTF-8 with zeros behind them.
pub open spec fn run_fits(bytes: Seq<u8>, from: int, count: nat) -> bool
    decreases count,
{
    count == 0 || {
        &&& text_end(bytes, from) < bytes.len()
        &&& valid_utf8(text_at(bytes, from))
        &&& run_fits(bytes, text_end(bytes, from) + 1, (count - 1) as nat)
    }
}

/// Whether tables for `languages` languages stand from a position on, each with the number of its
/// language and `count` strings, and where they end.
pub open spec fn tables_fit(bytes: Seq<u8>, from: int, languages: nat, count: nat) -> bool
    decreases languages,
{
    if languages == 0 {
        from == bytes.len()
    } else {
        &&& from + 2 <= bytes.len()
        &&& run_fits(bytes, from + 2, count)
        &&& tables_fit(bytes, text_begins(bytes, from + 2, count), (languages - 1) as nat, count)
    }
}

proof fn lemma_text_ends_behind(bytes: Seq<u8>, at: int)
    requires
        0 <= at,
    ensures
        at <= text_end(bytes, at),
        text_end(bytes, at) < bytes.len() <==> nul_at(bytes, at) is Some,
        nul_at(bytes, at) matches Some(nul) ==> nul == text_end(bytes, at),
    decreases bytes.len() - at,
{
    if at < bytes.len() && bytes[at] != 0 {
        lemma_text_ends_behind(bytes, at + 1);
    }
}

proof fn lemma_run_taken(bytes: Seq<u8>, from: int, count: nat)
    requires
        0 <= from,
    ensures
        string_run_end(bytes, from, count) is Ok <==> run_fits(bytes, from, count),
        string_run_end(bytes, from, count) matches Ok(end) ==> end == text_begins(
            bytes,
            from,
            count,
        ) && end >= from,
    decreases count,
{
    if count > 0 {
        lemma_text_ends_behind(bytes, from);
        lemma_run_taken(bytes, text_end(bytes, from) + 1, (count - 1) as nat);
    }
}

proof fn lemma_tables_taken(bytes: Seq<u8>, from: int, languages: nat, count: nat)
    requires
        0 <= from,
    ensures
        (language_tables_end(bytes, from, languages, count) matches Ok(end) && end == bytes.len())
            <==> tables_fit(bytes, from, languages, count),
    decreases languages,
{
    if languages > 0 && from + 2 <= bytes.len() {
        lemma_run_taken(bytes, from + 2, count);
        if run_fits(bytes, from + 2, count) {
            lemma_tables_taken(
                bytes,
                text_begins(bytes, from + 2, count),
                (languages - 1) as nat,
                count,
            );
        }
    }
}

/// A string blob is taken exactly where it tells its own format and length and its tables, one for
/// each of its languages, are whole and fill it.
pub proof fn lemma_string_blobs_are_taken(bytes: Seq<u8>)
    ensures
        strings_verdict(bytes) is Ok <==> {
            &&& bytes.len() >= 16
            &&& le32_at(bytes, 0) == 2
            &&& le32_at(bytes, 4) == bytes.len()
            &&& tables_fit(bytes, 16, le32_at(bytes, 12) as nat, le32_at(bytes, 8) as nat)
        },
{
    if bytes.len() >= 16 {
        lemma_tables_taken(bytes, 16, le32_at(bytes, 12) as nat, le32_at(bytes, 8) as nat);
    }
}

proof fn lemma_counts_are_there(
    bytes: Seq<u8>,
    offset: int,
    flags: u32,
    wanted: Seq<u32>,
    counts: Seq<(u32, u32)>,
)
    requires
        0 <= offset,
        offset + 4 * wanted_flags(flags, wanted) <= bytes.len(),
    ensures
        set_counts(bytes, offset, flags, wanted, counts) is Ok,
    decreases wanted.len(),
{
    if wanted.len() > 0 {
        if flags & wanted[0] == 0 {
            lemma_counts_are_there(bytes, offset, flags, wanted.skip(1), counts);
        } else {
            lemma_counts_are_there(
                bytes,
                offset + 4,
                flags,
                wanted.skip(1),
                counts.push((wanted[0], le32_at(bytes, offset))),
            );
        }
    }
}

/// Whether all descriptor sets of a blob are whole and declare the endpoints and the interfaces of
/// the first.
pub open spec fn sets_agree(bytes: Seq<u8>, head: int, number: nat) -> bool {
    forall|k: nat|
        k < number ==> {
            &&& #[trigger] set_fits(
                bytes,
                set_begins(bytes, head, k),
                set_count(bytes, k),
                Set::empty(),
            )
            &&& endpoints_read(bytes, nth_set(bytes, head, k)) == endpoints_read(
                bytes,
                nth_set(bytes, head, 0),
            )
            &&& forall|interface: u8| #[trigger]
                set_has_interface(bytes, nth_set(bytes, head, k), interface)
                    <==> set_has_interface(bytes, nth_set(bytes, head, 0), interface)
        }
}

#[verifier::rlimit(80)]
proof fn lemma_agreeing_sets_are_taken(
    bytes: Seq<u8>,
    head: int,
    all: Seq<(u32, u32)>,
    k: nat,
    first: Option<Topology>,
)
    requires
        0 <= head,
        k <= all.len(),
        0 <= set_begins(bytes, head, k),
        forall|i: int| 0 <= i < all.len() ==> (#[trigger] all[i]).1 == le32_at(bytes, 12 + 4 * i),
        sets_agree(bytes, head, all.len()),
        first is None <==> k == 0,
        first matches Some(set) ==> {
            &&& set.endpoints == endpoints_read(bytes, nth_set(bytes, head, 0))
            &&& forall|interface: u8| #[trigger]
                set.interfaces.contains(interface) <==> set_has_interface(
                    bytes,
                    nth_set(bytes, head, 0),
                    interface,
                )
        },
    ensures
        speed_sets(bytes, set_begins(bytes, head, k), all.skip(k as int), first) is Ok,
    decreases all.len() - k,
{
    let rest = all.skip(k as int);
    let start = set_begins(bytes, head, k);
    if k < all.len() {
        let count = set_count(bytes, k);
        assert(rest[0] == all[k as int]);
        assert(rest.skip(1) =~= all.skip(k as int + 1));
        assert(set_fits(bytes, set_begins(bytes, head, k), set_count(bytes, k), Set::empty()));
        lemma_sets_are_read(bytes, start, count, no_topology());
        let (end, set) = descriptor_set(bytes, start, count, no_topology())->Ok_0;
        assert(set_begins(bytes, head, k + 1) == end);
        assert(no_topology().endpoints + endpoints_read(bytes, nth_set(bytes, head, k))
            =~= endpoints_read(bytes, nth_set(bytes, head, k)));
        if first is Some {
            let expected = first->0;
            assert forall|interface: u8|
                expected.interfaces.contains(interface) == set.interfaces.contains(interface) by {
                assert(set_has_interface(bytes, nth_set(bytes, head, k), interface)
                    <==> set_has_interface(bytes, nth_set(bytes, head, 0), interface));
            }
            assert(expected.interfaces =~= set.interfaces);
        }
        let next = if first is None {
            Some(set)
        } else {
            first
        };
        lemma_agreeing_sets_are_taken(bytes, head, all, k + 1, next);
    } else {
        assert(rest =~= seq![]);
    }
}

/// A descriptor blob without Microsoft OS descriptors is taken where it tells its own format and
/// length, has only known flags, and the sets that its header counts are whole, agree and fill it.
#[verifier::rlimit(60)]
pub proof fn lemma_blobs_are_taken(bytes: Seq<u8>)
    requires
        bytes.len() >= 12,
        le32_at(bytes, 0) == 3,
        le32_at(bytes, 4) == bytes.len(),
        0 < le32_at(bytes, 8) < 256,
        le32_at(bytes, 8) as int / 16 % 4 == 0,
        le32_at(bytes, 8) as int / 8 % 2 == 0,
        ({
            let number = speeds(le32_at(bytes, 8) as int);
            let head = 12 + 4 * number;
            &&& head <= bytes.len()
            &&& sets_agree(bytes, head, number as nat)
            &&& set_begins(bytes, head, number as nat) == bytes.len()
        }),
    ensures
        descriptors_verdict(bytes) is Ok,
{
    let flags = le32_at(bytes, 8);
    lemma_flag_bits(flags);
    lemma_wanted(flags);
    lemma_counts_are_there(bytes, 12, flags, speed_flags(), seq![]);
    lemma_counts(bytes, 12, flags, speed_flags(), seq![]);
    let (end, counts) = set_counts(bytes, 12, flags, speed_flags(), seq![])->Ok_0;
    assert(counts.skip(0) =~= counts);
    assert(set_begins(bytes, end, 0) == end);
    lemma_agreeing_sets_are_taken(bytes, end, counts, 0, None);
    lemma_speed_sets(bytes, end, counts, 0, None);
}

} // verus!
