//! The frame sent over the serial link: magic, byte count, checksum, colours.

use vstd::prelude::*;

verus! {

/// Length of the header: three magic bytes, two count bytes, one checksum.
pub const HEADER_LEN: usize = 6;

/// One channel of a colour: 0 red, 1 green, otherwise blue.
pub open spec fn channel(color: (u8, u8, u8), j: int) -> u8 {
    if j == 0 {
        color.0
    } else if j == 1 {
        color.1
    } else {
        color.2
    }
}

/// The colours laid out as bytes, red, green, blue for each LED in strip
/// order.
pub open spec fn payload(colors: Seq<(u8, u8, u8)>) -> Seq<u8> {
    Seq::new(3 * colors.len(), |k: int| channel(colors[k / 3], k % 3))
}

/// The second-lowest byte of the payload's length `n`.
pub open spec fn count_high(n: int) -> u8 {
    ((n / 256) % 256) as u8
}

/// The lowest byte of the payload's length `n`.
pub open spec fn count_low(n: int) -> u8 {
    (n % 256) as u8
}

/// The checksum of the two count bytes.
pub open spec fn checksum(hi: u8, lo: u8) -> u8 {
    hi ^ lo ^ 0x55
}

/// The six header bytes before a payload of `n` bytes: `"Ada"`, the count's
/// high and low byte, and their checksum.
pub open spec fn header(n: int) -> Seq<u8> {
    seq![
        0x41u8,
        0x64u8,
        0x61u8,
        count_high(n),
        count_low(n),
        checksum(count_high(n), count_low(n)),
    ]
}

/// The whole frame for a list of colours.
pub open spec fn packet(colors: Seq<(u8, u8, u8)>) -> Seq<u8> {
    header(3 * colors.len() as int) + payload(colors)
}

/// A frame for `N` colours is `6 + 3N` bytes long. It begins with `"Ada"`; its
/// two count bytes hold `3N` (modulo 65536), high byte first; its checksum is
/// the two count bytes and `0x55` xor-ed together; and from byte 6 on it holds
/// each colour's red, green and blue in order.
pub proof fn lemma_packet_shape(colors: Seq<(u8, u8, u8)>)
    ensures
        packet(colors).len() == 6 + 3 * colors.len(),
        packet(colors)[0] == 0x41 && packet(colors)[1] == 0x64 && packet(colors)[2] == 0x61,
        packet(colors)[3] * 256 + packet(colors)[4] == (3 * colors.len()) % 65536,
        packet(colors)[5] == packet(colors)[3] ^ packet(colors)[4] ^ 0x55,
        forall|k: int, j: int|
            0 <= k < colors.len() && 0 <= j < 3 ==> packet(colors)[6 + 3 * k + j]
                == #[trigger] channel(colors[k], j),
{
    let n: int = 3 * colors.len() as int;
    assert(header(n).len() == 6);
    assert(payload(colors).len() == n);
    assert(((n / 256) % 256) * 256 + n % 256 == n % 65536) by (nonlinear_arith)
        requires
            n >= 0,
    ;
    assert forall|k: int, j: int| 0 <= k < colors.len() && 0 <= j < 3 implies packet(colors)[6 + 3
        * k + j] == #[trigger] channel(colors[k], j) by {
        assert(packet(colors)[6 + 3 * k + j] == payload(colors)[3 * k + j]);
        assert((3 * k + j) / 3 == k && (3 * k + j) % 3 == j);
    }
}

/// Writes the frame for `colors` into `buf`, replacing what it held.
pub fn encode_packet(colors: &[(u8, u8, u8)], buf: &mut Vec<u8>)
    requires
        6 + 3 * colors@.len() <= usize::MAX,
    ensures
        final(buf)@ == packet(colors@),
        final(buf)@.len() == 6 + 3 * colors@.len(),
        final(buf)@[5] == final(buf)@[3] ^ final(buf)@[4] ^ 0x55,
{
    proof {
        lemma_packet_shape(colors@);
    }
    let count: usize = colors.len();
    let n: usize = count * 3;
    let hi: u8 = ((n / 256) % 256) as u8;
    let lo: u8 = (n % 256) as u8;
    buf.clear();
    buf.push(0x41);
    buf.push(0x64);
    buf.push(0x61);
    buf.push(hi);
    buf.push(lo);
    buf.push(hi ^ lo ^ 0x55);
    assert(buf@ =~= header(n as int));
    let mut i: usize = 0;
    while i < count
        invariant
            count == colors@.len(),
            n == 3 * count,
            i <= count,
            buf@.len() == 6 + 3 * i,
            buf@.subrange(0, 6) == header(n as int),
            forall|p: int|
                6 <= p < buf@.len() ==> #[trigger] buf@[p] == channel(
                    colors@[(p - 6) / 3],
                    (p - 6) % 3,
                ),
        decreases count - i,
    {
        let color: (u8, u8, u8) = colors[i];
        let ghost before = buf@;
        buf.push(color.0);
        buf.push(color.1);
        buf.push(color.2);
        proof {
            assert(buf@.subrange(0, 6) =~= before.subrange(0, 6));
            assert forall|p: int| 6 <= p < buf@.len() implies #[trigger] buf@[p] == channel(
                colors@[(p - 6) / 3],
                (p - 6) % 3,
            ) by {
                if p < 6 + 3 * i {
                    assert(buf@[p] == before[p]);
                }
            }
        }
        i += 1;
    }
    assert(buf@ =~= packet(colors@)) by {
        assert(buf@.len() == packet(colors@).len());
        assert forall|k: int| 0 <= k < buf@.len() implies buf@[k] == packet(colors@)[k] by {
            if k < 6 {
                assert(buf@[k] == buf@.subrange(0, 6)[k]);
            }
        }
    }
}

} // verus!
