use vstd::prelude::*;

use crate::board::CELLS;

verus! {

/// Size of a persisted board in bytes, rounded up to the next 16 bytes.
pub const BYTES_SIZE: usize = 32;

/// 128 to the power `i`: the weight of the `i`-th byte of a varint.
pub open spec fn pow128(i: nat) -> nat
    decreases i,
{
    if i == 0 {
        1
    } else {
        128 * pow128((i - 1) as nat)
    }
}

/// LEB128 encoding of `n`: seven bits per byte, least significant first, the
/// top bit set on every byte but the last.
pub open spec fn varint(n: nat) -> Seq<u8>
    decreases n,
{
    if n < 128 {
        seq![n as u8]
    } else {
        seq![(n % 128 + 128) as u8] + varint(n / 128)
    }
}

/// Value of the `u32` varint whose bytes start at position `i` of `s`,
/// weighted as if the varint had started at position 0. A `u32` varint has at
/// most five bytes, and its fifth byte holds at most four bits.
pub open spec fn varint_from(s: Seq<u8>, i: nat) -> Option<nat>
    decreases 5 - i,
{
    if i >= 5 || i >= s.len() {
        None
    } else if s[i as int] < 128 {
        if i == 4 && s[i as int] > 15 {
            None
        } else {
            Some(s[i as int] as nat * pow128(i))
        }
    } else {
        match varint_from(s, i + 1) {
            Some(rest) => Some((s[i as int] - 128) as nat * pow128(i) + rest),
            None => None,
        }
    }
}

/// The bytes of a persisted board: the tiles one per byte, then the score as
/// a varint, then zeros up to `BYTES_SIZE`.
pub open spec fn encoded(tiles: Seq<u8>, score: u32) -> Seq<u8> {
    let body = tiles + varint(score as nat);
    body + Seq::new((BYTES_SIZE - body.len()) as nat, |i: int| 0u8)
}

/// Tiles and score read back from persisted bytes; `None` when there are
/// fewer than `CELLS` bytes or the score is not a valid `u32` varint.
/// Bytes after the score are ignored.
pub open spec fn decoded(bytes: Seq<u8>) -> Option<(Seq<u8>, u32)> {
    if bytes.len() < CELLS {
        None
    } else {
        match varint_from(bytes.subrange(CELLS as int, bytes.len() as int), 0) {
            Some(v) => Some((bytes.subrange(0, CELLS as int), v as u32)),
            None => None,
        }
    }
}

/// Relies on postcard::to_slice writing the tuple `([u8; 16], u32)` at the
/// start of `out`: the sixteen bytes, then the `u32` as a varint (postcard's
/// `varint_u32`). That takes at most 21 bytes, so the call cannot run out of
/// room, and the bytes after them are not touched.
#[verifier::external_body]
fn postcard_encode(tiles: &[u8; CELLS], score: u32, out: &mut [u8; BYTES_SIZE])
    ensures
        final(out)@ == tiles@ + varint(score as nat) + old(out)@.subrange(
            CELLS + varint(score as nat).len(),
            BYTES_SIZE as int,
        ),
{
    let _ = postcard::to_slice(&(*tiles, score), out);
}

/// Relies on postcard::from_bytes reading the tuple `([u8; 16], u32)`: sixteen
/// bytes, then a `u32` varint (postcard's `try_take_varint_u32`), failing when
/// the input runs out or the varint is malformed.
#[verifier::external_body]
fn postcard_decode(bytes: &[u8]) -> (r: Option<([u8; CELLS], u32)>)
    ensures
        match r {
            Some((tiles, score)) => decoded(bytes@) == Some((tiles@, score)),
            None => decoded(bytes@) is None,
        },
{
    postcard::from_bytes::<([u8; CELLS], u32)>(bytes).ok()
}

/// Encodes tiles and score into the persisted byte layout.
pub fn encode(tiles: &[u8; CELLS], score: u32) -> (r: [u8; BYTES_SIZE])
    ensures
        r@ == encoded(tiles@, score),
{
    let mut bytes = [0u8; BYTES_SIZE];
    postcard_encode(tiles, score, &mut bytes);
    proof {
        reveal_with_fuel(pow128, 6);
        lemma_varint_len(score as nat, 5);
        assert(bytes@ =~= encoded(tiles@, score));
    }
    bytes
}

/// Decodes tiles and score from the persisted byte layout.
pub fn decode(bytes: &[u8]) -> (r: Option<([u8; CELLS], u32)>)
    ensures
        r is Some <==> decoded(bytes@) is Some,
        r matches Some((tiles, score)) ==> decoded(bytes@) == Some((tiles@, score)),
{
    postcard_decode(bytes)
}

proof fn lemma_pow128_four()
    ensures
        pow128(4) == 0x1000_0000,
{
    reveal_with_fuel(pow128, 5);
}

proof fn lemma_varint_len(n: nat, k: nat)
    requires
        1 <= k,
        n < pow128(k),
    ensures
        1 <= varint(n).len() <= k,
    decreases n,
{
    if n >= 128 {
        if k == 1 {
            assert(pow128(1) == 128 * pow128(0));
        }
        assert(n / 128 < pow128((k - 1) as nat)) by (nonlinear_arith)
            requires
                n < pow128(k),
                pow128(k) == 128 * pow128((k - 1) as nat),
        ;
        lemma_varint_len(n / 128, (k - 1) as nat);
    }
}

proof fn lemma_varint_from(s: Seq<u8>, i: nat, m: nat)
    requires
        i <= 4,
        m * pow128(i) < 0x1_0000_0000,
        i + varint(m).len() <= s.len(),
        s.subrange(i as int, (i + varint(m).len()) as int) == varint(m),
    ensures
        varint_from(s, i) == Some(m * pow128(i)),
    decreases m,
{
    let v = varint(m);
    assert(s[i as int] == v[0]);
    if m < 128 {
        if i == 4 {
            lemma_pow128_four();
            assert(m <= 15) by (nonlinear_arith)
                requires
                    m * 0x1000_0000 < 0x1_0000_0000nat,
            ;
        }
    } else {
        let q = m / 128;
        assert(v == seq![(m % 128 + 128) as u8] + varint(q));
        assert(pow128(i + 1) == 128 * pow128(i));
        assert(q * pow128(i + 1) <= m * pow128(i)) by (nonlinear_arith)
            requires
                q == m / 128,
                pow128(i + 1) == 128 * pow128(i),
        ;
        if i == 4 {
            lemma_pow128_four();
            assert(false) by (nonlinear_arith)
                requires
                    m * 0x1000_0000 < 0x1_0000_0000nat,
                    m >= 128,
            ;
        }
        assert(s.subrange((i + 1) as int, (i + 1 + varint(q).len()) as int) =~= varint(q)) by {
            assert forall|k: int| 0 <= k < varint(q).len() implies s[i + 1 + k] == varint(q)[k] by {
                assert(s[i + 1 + k] == s.subrange(i as int, (i + v.len()) as int)[k + 1]);
            }
        }
        lemma_varint_from(s, i + 1, q);
        assert(m * pow128(i) == (m % 128) * pow128(i) + q * pow128(i + 1)) by (nonlinear_arith)
            requires
                q == m / 128,
                pow128(i + 1) == 128 * pow128(i),
        ;
    }
}

/// Decoding the bytes that encoding produced gives back the same tiles and
/// score.
pub proof fn lemma_round_trip(tiles: Seq<u8>, score: u32)
    requires
        tiles.len() == CELLS,
    ensures
        decoded(encoded(tiles, score)) == Some((tiles, score)),
{
    let e = encoded(tiles, score);
    let n = score as nat;
    reveal_with_fuel(pow128, 6);
    lemma_varint_len(n, 5);
    let rest = e.subrange(CELLS as int, e.len() as int);
    assert(rest.subrange(0, varint(n).len() as int) =~= varint(n));
    assert(pow128(0) == 1);
    assert(n * pow128(0) == n);
    lemma_varint_from(rest, 0, n);
    assert(varint_from(rest, 0) == Some(n));
    assert(e.subrange(0, CELLS as int) =~= tiles);
}

} // verus!
