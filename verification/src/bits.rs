use vstd::prelude::*;

verus! {

// ---------------------------------------------------------------------------
// Bit-level model.
//
// A descriptor item or a report buffer is, at the boundary, a sequence of
// bits. Inside a byte the first bit of the sequence is the byte's most
// significant bit; multi-byte integers are laid out least significant byte
// first.
// ---------------------------------------------------------------------------

/// The bit at position `k` (0 = least significant) of a byte.
pub open spec fn u8_bit(b: u8, k: u8) -> bool {
    (b >> k) & 1 == 1
}

/// The eight bits of one byte, most significant bit first.
pub open spec fn byte_bits(b: u8) -> Seq<bool> {
    seq![
        u8_bit(b, 7),
        u8_bit(b, 6),
        u8_bit(b, 5),
        u8_bit(b, 4),
        u8_bit(b, 3),
        u8_bit(b, 2),
        u8_bit(b, 1),
        u8_bit(b, 0),
    ]
}

/// A byte sequence as a bit sequence, byte by byte, each byte most
/// significant bit first.
pub open spec fn bytes_to_bits(s: Seq<u8>) -> Seq<bool>
    decreases s.len(),
{
    if s.len() == 0 {
        Seq::<bool>::empty()
    } else {
        bytes_to_bits(s.drop_last()) + byte_bits(s.last())
    }
}

/// One byte from eight bits, most significant bit first.
pub open spec fn bits_to_byte(t: Seq<bool>) -> u8 {
    (if t[0] {
        0x80u8
    } else {
        0u8
    }) | (if t[1] {
        0x40u8
    } else {
        0u8
    }) | (if t[2] {
        0x20u8
    } else {
        0u8
    }) | (if t[3] {
        0x10u8
    } else {
        0u8
    }) | (if t[4] {
        0x08u8
    } else {
        0u8
    }) | (if t[5] {
        0x04u8
    } else {
        0u8
    }) | (if t[6] {
        0x02u8
    } else {
        0u8
    }) | (if t[7] {
        0x01u8
    } else {
        0u8
    })
}

/// A byte-aligned bit sequence as a byte sequence.
pub open spec fn bits_to_bytes(s: Seq<bool>) -> Seq<u8>
    decreases s.len(),
{
    if s.len() < 8 {
        Seq::<u8>::empty()
    } else {
        bits_to_bytes(s.take(s.len() - 8)).push(bits_to_byte(s.skip(s.len() - 8)))
    }
}

pub proof fn lemma_bytes_to_bits_len(s: Seq<u8>)
    ensures
        bytes_to_bits(s).len() == 8 * s.len(),
    decreases s.len(),
{
    if s.len() > 0 {
        lemma_bytes_to_bits_len(s.drop_last());
    }
}

pub proof fn lemma_bits_to_byte_of_byte_bits(b: u8)
    ensures
        bits_to_byte(byte_bits(b)) == b,
{
    assert(((if (b >> 7) & 1 == 1 {
        0x80u8
    } else {
        0u8
    }) | (if (b >> 6) & 1 == 1 {
        0x40u8
    } else {
        0u8
    }) | (if (b >> 5) & 1 == 1 {
        0x20u8
    } else {
        0u8
    }) | (if (b >> 4) & 1 == 1 {
        0x10u8
    } else {
        0u8
    }) | (if (b >> 3) & 1 == 1 {
        0x08u8
    } else {
        0u8
    }) | (if (b >> 2) & 1 == 1 {
        0x04u8
    } else {
        0u8
    }) | (if (b >> 1) & 1 == 1 {
        0x02u8
    } else {
        0u8
    }) | (if (b >> 0) & 1 == 1 {
        0x01u8
    } else {
        0u8
    })) == b) by (bit_vector);
}

/// Turning bytes into bits and back yields the same bytes.
pub proof fn lemma_bits_to_bytes_inverse(s: Seq<u8>)
    ensures
        bits_to_bytes(bytes_to_bits(s)) == s,
    decreases s.len(),
{
    lemma_bytes_to_bits_len(s);
    if s.len() == 0 {
        assert(bits_to_bytes(bytes_to_bits(s)) =~= s);
    } else {
        let t = s.drop_last();
        lemma_bytes_to_bits_len(t);
        let bits = bytes_to_bits(s);
        assert(bits.take(bits.len() - 8) =~= bytes_to_bits(t));
        assert(bits.skip(bits.len() - 8) =~= byte_bits(s.last()));
        lemma_bits_to_bytes_inverse(t);
        lemma_bits_to_byte_of_byte_bits(s.last());
        assert(bits_to_bytes(bits) =~= s);
    }
}

// ---------------------------------------------------------------------------
// Little-endian integer layouts.
// ---------------------------------------------------------------------------

/// The four bytes of a 32-bit value, least significant first.
pub open spec fn u32_le_bytes(v: u32) -> Seq<u8> {
    seq![
        (v & 0xff) as u8,
        ((v >> 8) & 0xff) as u8,
        ((v >> 16) & 0xff) as u8,
        ((v >> 24) & 0xff) as u8,
    ]
}

/// A 32-bit value from four bytes, least significant first.
pub open spec fn u32_from_le(d: Seq<u8>) -> u32 {
    (d[0] as u32) | (d[1] as u32) << 8 | (d[2] as u32) << 16 | (d[3] as u32) << 24
}

/// The two bytes of a 16-bit value, least significant first.
pub open spec fn u16_le_bytes(v: u16) -> Seq<u8> {
    seq![(v & 0xff) as u8, ((v >> 8) & 0xff) as u8]
}

/// A 16-bit value from two bytes, least significant first.
pub open spec fn u16_from_le(d: Seq<u8>) -> u16 {
    (d[0] as u16) | (d[1] as u16) << 8
}

pub proof fn lemma_u32_le_round_trip(v: u32)
    ensures
        u32_from_le(u32_le_bytes(v)) == v,
{
    assert((((v & 0xff) as u8) as u32 | ((((v >> 8) & 0xff) as u8) as u32) << 8 | ((((v >> 16)
        & 0xff) as u8) as u32) << 16 | ((((v >> 24) & 0xff) as u8) as u32) << 24) == v)
        by (bit_vector);
}

pub proof fn lemma_u16_le_round_trip(v: u16)
    ensures
        u16_from_le(u16_le_bytes(v)) == v,
{
    assert((((v & 0xff) as u8) as u16 | ((((v >> 8) & 0xff) as u8) as u16) << 8) == v)
        by (bit_vector);
}

// ---------------------------------------------------------------------------
// Executable conversions.
// ---------------------------------------------------------------------------

/// All the bits of a byte vector, each byte most significant bit first.
#[verifier::rlimit(100)]
#[verifier::spinoff_prover]
pub fn bytes_to_bool_vec(bytes: &Vec<u8>) -> (r: Vec<bool>)
    ensures
        r@ == bytes_to_bits(bytes@),
{
    let mut r: Vec<bool> = Vec::new();
    let mut i: usize = 0;
    while i < bytes.len()
        invariant
            i <= bytes.len(),
            r@ == bytes_to_bits(bytes@.take(i as int)),
        decreases bytes.len() - i,
    {
        let b = bytes[i];
        let ghost r0 = r@;
        r.push((b >> 7) & 1 == 1);
        r.push((b >> 6) & 1 == 1);
        r.push((b >> 5) & 1 == 1);
        r.push((b >> 4) & 1 == 1);
        r.push((b >> 3) & 1 == 1);
        r.push((b >> 2) & 1 == 1);
        r.push((b >> 1) & 1 == 1);
        r.push((b >> 0) & 1 == 1);
        proof {
            let t = bytes@.take(i + 1);
            assert(t.drop_last() =~= bytes@.take(i as int));
            assert(t.last() == b);
            assert(r@ =~= r0 + byte_bits(b));
            assert(bytes_to_bits(t) == bytes_to_bits(bytes@.take(i as int)) + byte_bits(b));
        }
        i = i + 1;
    }
    proof {
        assert(bytes@.take(bytes@.len() as int) =~= bytes@);
    }
    r
}

/// The bytes of a byte-aligned bit vector, each byte most significant bit
/// first.
pub fn bool_vec_to_bytes(bits: &Vec<bool>) -> (r: Vec<u8>)
    requires
        bits@.len() % 8 == 0,
    ensures
        r@ == bits_to_bytes(bits@),
{
    let mut r: Vec<u8> = Vec::new();
    let mut i: usize = 0;
    while i < bits.len()
        invariant
            i % 8 == 0,
            i <= bits.len(),
            bits@.len() % 8 == 0,
            r@ == bits_to_bytes(bits@.take(i as int)),
        decreases bits.len() - i,
    {
        proof {
            assert(i + 8 <= bits@.len()) by (nonlinear_arith)
                requires
                    i % 8 == 0,
                    bits@.len() % 8 == 0,
                    i < bits@.len(),
            ;
        }
        let v: u8 = (if bits[i] {
            0x80
        } else {
            0
        }) | (if bits[i + 1] {
            0x40
        } else {
            0
        }) | (if bits[i + 2] {
            0x20
        } else {
            0
        }) | (if bits[i + 3] {
            0x10
        } else {
            0
        }) | (if bits[i + 4] {
            0x08
        } else {
            0
        }) | (if bits[i + 5] {
            0x04
        } else {
            0
        }) | (if bits[i + 6] {
            0x02
        } else {
            0
        }) | (if bits[i + 7] {
            0x01
        } else {
            0
        });
        r.push(v);
        proof {
            let t = bits@.take(i + 8);
            assert(t.take(t.len() - 8) =~= bits@.take(i as int));
            assert(t.skip(t.len() - 8) =~= bits@.subrange(i as int, i + 8));
            assert(v == bits_to_byte(bits@.subrange(i as int, i + 8)));
            assert(r@ =~= bits_to_bytes(t));
        }
        i = i + 8;
    }
    proof {
        assert(i == bits@.len());
        assert(bits@.take(bits@.len() as int) =~= bits@);
    }
    r
}

} // verus!

verus! {

// ---------------------------------------------------------------------------
// Byte-chunk reversal.
//
// A report buffer's byte-chunk order is reversed relative to fill order: the
// stream is cut into eight-bit chunks from the front (the last one may be
// shorter) and the chunks are concatenated in reverse. Reading inverts this
// by cutting the ragged chunk from the front.
// ---------------------------------------------------------------------------

/// The bit stream with its eight-bit chunks, cut from the front, in reverse
/// order.
pub open spec fn reverse_chunks(s: Seq<bool>) -> Seq<bool>
    decreases s.len(),
{
    if s.len() <= 8 {
        s
    } else {
        reverse_chunks(s.skip(8)) + s.take(8)
    }
}

/// The inverse cut: the ragged chunk sits at the front.
pub open spec fn unreverse_chunks(s: Seq<bool>) -> Seq<bool>
    decreases s.len(),
{
    if s.len() <= 8 {
        s
    } else {
        let r = if s.len() % 8 == 0 {
            8int
        } else {
            (s.len() % 8) as int
        };
        unreverse_chunks(s.skip(r)) + s.take(r)
    }
}

pub proof fn lemma_reverse_chunks_len(s: Seq<bool>)
    ensures
        reverse_chunks(s).len() == s.len(),
    decreases s.len(),
{
    if s.len() > 8 {
        lemma_reverse_chunks_len(s.skip(8));
    }
}

pub proof fn lemma_unreverse_chunks_len(s: Seq<bool>)
    ensures
        unreverse_chunks(s).len() == s.len(),
    decreases s.len(),
{
    if s.len() > 8 {
        let r = if s.len() % 8 == 0 {
            8int
        } else {
            (s.len() % 8) as int
        };
        lemma_unreverse_chunks_len(s.skip(r));
    }
}

proof fn lemma_unreverse_append(x: Seq<bool>, c: Seq<bool>)
    requires
        c.len() == 8,
    ensures
        unreverse_chunks(x + c) == c + unreverse_chunks(x),
    decreases x.len(),
{
    let s = x + c;
    if x.len() == 0 {
        assert(s =~= c);
        assert(unreverse_chunks(x) =~= Seq::<bool>::empty());
        assert(c + unreverse_chunks(x) =~= c);
    } else if x.len() <= 8 {
        let r = if s.len() % 8 == 0 {
            8int
        } else {
            (s.len() % 8) as int
        };
        assert(r == x.len());
        assert(s.skip(r) =~= c);
        assert(s.take(r) =~= x);
        assert(unreverse_chunks(s) == unreverse_chunks(c) + x);
        assert(unreverse_chunks(c) == c);
        assert(unreverse_chunks(x) == x);
        assert(c + unreverse_chunks(x) =~= unreverse_chunks(c) + x);
    } else {
        let r = if x.len() % 8 == 0 {
            8int
        } else {
            (x.len() % 8) as int
        };
        assert(s.len() % 8 == x.len() % 8) by (nonlinear_arith)
            requires
                s.len() == x.len() + 8,
        ;
        assert(s.skip(r) =~= x.skip(r) + c);
        assert(s.take(r) =~= x.take(r));
        lemma_unreverse_append(x.skip(r), c);
        assert(unreverse_chunks(s) == (c + unreverse_chunks(x.skip(r))) + x.take(r));
        assert((c + unreverse_chunks(x.skip(r))) + x.take(r) =~= c + (unreverse_chunks(x.skip(r))
            + x.take(r)));
    }
}

/// Reversing the chunks and cutting them back apart restores the stream.
pub proof fn lemma_unreverse_of_reverse(s: Seq<bool>)
    ensures
        unreverse_chunks(reverse_chunks(s)) == s,
    decreases s.len(),
{
    if s.len() <= 8 {
    } else {
        let t = s.skip(8);
        let c = s.take(8);
        lemma_unreverse_of_reverse(t);
        lemma_unreverse_append(reverse_chunks(t), c);
        assert(unreverse_chunks(reverse_chunks(s)) == c + t);
        assert(c + t =~= s);
    }
}

/// The bit stream with its eight-bit chunks in reverse order.
pub fn reverse_chunk_vec(bits: &Vec<bool>) -> (r: Vec<bool>)
    ensures
        r@ == reverse_chunks(bits@),
{
    let n = bits.len();
    let full: usize = n / 8;
    let mut r: Vec<bool> = Vec::new();
    let mut idx: usize = 8 * full;
    while idx < n
        invariant
            8 * full <= idx <= n == bits@.len(),
            full == n / 8,
            r@ == bits@.subrange(8 * full, idx as int),
        decreases n - idx,
    {
        r.push(bits[idx]);
        proof {
            assert(r@ =~= bits@.subrange(8 * full, idx + 1));
        }
        idx = idx + 1;
    }
    proof {
        assert(bits@.skip(8 * full) =~= bits@.subrange(8 * full, n as int));
        assert(bits@.skip(8 * full).len() <= 8) by (nonlinear_arith)
            requires
                full == n / 8,
                n == bits@.len(),
                bits@.skip(8 * full).len() == n - 8 * full,
        ;
        assert(r@ == reverse_chunks(bits@.skip(8 * full)));
    }
    let mut j: usize = full;
    while j > 0
        invariant
            j <= full,
            full == n / 8,
            n == bits@.len(),
            8 * full <= n,
            r@ == reverse_chunks(bits@.skip(8 * j)),
        decreases j,
    {
        let lo = 8 * (j - 1);
        let ghost r0 = r@;
        let mut k: usize = lo;
        while k < lo + 8
            invariant
                lo == 8 * (j - 1),
                1 <= j <= full,
                full == n / 8,
                8 * full <= n == bits@.len(),
                lo <= k <= lo + 8,
                r@ == r0 + bits@.subrange(lo as int, k as int),
            decreases lo + 8 - k,
        {
            proof {
                assert(8 * j <= 8 * full) by (nonlinear_arith)
                    requires
                        j <= full,
                ;
            }
            r.push(bits[k]);
            proof {
                assert(r@ =~= r0 + bits@.subrange(lo as int, k + 1));
            }
            k = k + 1;
        }
        proof {
            assert(8 * j <= 8 * full && 8 * full <= n) by (nonlinear_arith)
                requires
                    j <= full,
                    full == n / 8,
                    n == bits@.len(),
            ;
            let rest = bits@.skip(lo as int);
            if rest.len() > 8 {
                assert(rest.skip(8) =~= bits@.skip(8 * j));
                assert(rest.take(8) =~= bits@.subrange(lo as int, lo + 8));
                assert(r@ == reverse_chunks(rest));
            } else {
                assert(rest.len() == 8);
                assert(bits@.skip(8 * j) =~= Seq::<bool>::empty());
                assert(rest =~= bits@.subrange(lo as int, lo + 8));
                assert(r@ == reverse_chunks(rest));
            }
        }
        j = j - 1;
    }
    proof {
        assert(bits@.skip(0) =~= bits@);
    }
    r
}

/// The inverse of the chunk reversal.
pub fn unreverse_chunk_vec(bits: &Vec<bool>) -> (r: Vec<bool>)
    ensures
        r@ == unreverse_chunks(bits@),
{
    let n = bits.len();
    let mut r: Vec<bool> = Vec::new();
    if n <= 8 {
        let mut k: usize = 0;
        while k < n
            invariant
                k <= n == bits@.len(),
                r@ == bits@.subrange(0, k as int),
            decreases n - k,
        {
            r.push(bits[k]);
            proof {
                assert(r@ =~= bits@.subrange(0, k + 1));
            }
            k = k + 1;
        }
        proof {
            assert(bits@.subrange(0, n as int) =~= bits@);
        }
        return r;
    }
    let r0: usize = if n % 8 == 0 {
        8
    } else {
        n % 8
    };
    proof {
        assert((n - r0) % 8 == 0) by (nonlinear_arith)
            requires
                8 <= n,
                r0 == (if n % 8 == 0 {
                    8int
                } else {
                    (n % 8) as int
                }),
        ;
    }
    let mut x: usize = n;
    while x > r0
        invariant
            r0 <= x <= n == bits@.len(),
            n > 8,
            r0 == (if n % 8 == 0 {
                8int
            } else {
                (n % 8) as int
            }),
            (x - r0) % 8 == 0,
            (n - r0) % 8 == 0,
            r@ == unreverse_chunks(bits@.skip(x as int)),
        decreases x,
    {
        proof {
            assert(x - r0 >= 8) by (nonlinear_arith)
                requires
                    x > r0,
                    (x - r0) % 8 == 0,
            ;
        }
        let lo = x - 8;
        let ghost racc = r@;
        let mut k: usize = lo;
        while k < lo + 8
            invariant
                lo == x - 8,
                8 <= x <= n == bits@.len(),
                lo <= k <= lo + 8,
                r@ == racc + bits@.subrange(lo as int, k as int),
            decreases lo + 8 - k,
        {
            r.push(bits[k]);
            proof {
                assert(r@ =~= racc + bits@.subrange(lo as int, k + 1));
            }
            k = k + 1;
        }
        proof {
            let rest = bits@.skip(lo as int);
            assert(rest.len() == n - lo);
            if rest.len() > 8 {
                assert((n - lo) % 8 == 0) by (nonlinear_arith)
                    requires
                        lo == x - 8,
                        (x - r0) % 8 == 0,
                        (n - r0) % 8 == 0,
                        r0 <= x <= n,
                ;
                assert(rest.skip(8) =~= bits@.skip(x as int));
                assert(rest.take(8) =~= bits@.subrange(lo as int, lo + 8));
                assert(r@ == unreverse_chunks(rest));
            } else {
                assert(rest.len() == 8);
                assert(bits@.skip(x as int) =~= Seq::<bool>::empty());
                assert(rest =~= bits@.subrange(lo as int, lo + 8));
                assert(r@ == unreverse_chunks(rest));
            }
        }
        x = lo;
    }
    proof {
        assert(x == r0);
    }
    let ghost racc2 = r@;
    let mut k: usize = 0;
    while k < r0
        invariant
            k <= r0 <= bits@.len(),
            r@ == racc2 + bits@.subrange(0, k as int),
        decreases r0 - k,
    {
        r.push(bits[k]);
        proof {
            assert(r@ =~= racc2 + bits@.subrange(0, k + 1));
        }
        k = k + 1;
    }
    proof {
        assert(bits@.take(r0 as int) =~= bits@.subrange(0, r0 as int));
        assert(r@ == unreverse_chunks(bits@.skip(r0 as int)) + bits@.take(r0 as int));
    }
    r
}

} // verus!
