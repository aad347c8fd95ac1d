//! CRC-32/ISO-HDLC, the checksum GPT puts on its header and its entry array.
//! Both are what separates a table from bytes that merely look like one.

use vstd::prelude::*;

verus! {

pub const POLY: u32 = 0xEDB8_8320;

/// One bit through the register.
pub open spec fn shifted(crc: u32) -> u32 {
    if crc & 1 == 1 {
        (crc >> 1) ^ POLY
    } else {
        crc >> 1
    }
}

/// `n` bits through the register.
pub open spec fn shifted_by(crc: u32, n: nat) -> u32
    decreases n,
{
    if n == 0 {
        crc
    } else {
        shifted(shifted_by(crc, (n - 1) as nat))
    }
}

/// The register once `bytes` have gone through it.
pub open spec fn register(bytes: Seq<u8>) -> u32
    decreases bytes.len(),
{
    if bytes.len() == 0 {
        0xFFFF_FFFF
    } else {
        shifted_by(register(bytes.drop_last()) ^ (bytes.last() as u32), 8)
    }
}

/// The checksum of `bytes`.
pub open spec fn checksum(bytes: Seq<u8>) -> u32 {
    !register(bytes)
}

pub fn crc32(bytes: &[u8]) -> (sum: u32)
    ensures
        sum == checksum(bytes@),
{
    let mut crc: u32 = 0xFFFF_FFFF;
    let mut i: usize = 0;
    assert(bytes@.take(0) =~= Seq::empty());
    while i < bytes.len()
        invariant
            i <= bytes@.len(),
            crc == register(bytes@.take(i as int)),
        decreases bytes@.len() - i,
    {
        let ghost before = crc;
        crc = crc ^ (bytes[i] as u32);
        let ghost mixed = crc;
        let mut bit: usize = 0;
        while bit < 8
            invariant
                bit <= 8,
                crc == shifted_by(mixed, bit as nat),
            decreases 8 - bit,
        {
            crc = if crc & 1 == 1 {
                (crc >> 1) ^ POLY
            } else {
                crc >> 1
            };
            bit += 1;
        }
        assert(bytes@.take(i + 1).drop_last() =~= bytes@.take(i as int));
        i += 1;
    }
    assert(bytes@.take(i as int) =~= bytes@);
    !crc
}

/// Nothing checksums to zero.
pub proof fn an_empty_input_checksums_to_zero()
    ensures
        checksum(Seq::empty()) == 0,
{
    assert(!0xFFFF_FFFFu32 == 0u32) by (bit_vector);
}

/// A change confined to one byte, a flipped bit among them, always changes the
/// checksum.
pub proof fn a_changed_byte_changes_the_checksum(a: Seq<u8>, b: Seq<u8>, at: int)
    requires
        a.len() == b.len(),
        0 <= at < a.len(),
        a[at] != b[at],
        forall|i: int| 0 <= i < a.len() && i != at ==> a[i] == b[i],
    ensures
        checksum(a) != checksum(b),
{
    a_changed_byte_changes_the_register(a, b, at);
    let x = register(a);
    let y = register(b);
    assert(x != y ==> !x != !y) by (bit_vector);
}

proof fn a_changed_byte_changes_the_register(a: Seq<u8>, b: Seq<u8>, at: int)
    requires
        a.len() == b.len(),
        0 <= at < a.len(),
        a[at] != b[at],
        forall|i: int| 0 <= i < a.len() && i != at ==> a[i] == b[i],
    ensures
        register(a) != register(b),
    decreases a.len(),
{
    let x = register(a.drop_last());
    let y = register(b.drop_last());
    let p = a.last() as u32;
    let q = b.last() as u32;
    if at == a.len() - 1 {
        assert(a.drop_last() =~= b.drop_last());
    } else {
        a_changed_byte_changes_the_register(a.drop_last(), b.drop_last(), at);
    }
    assert((x == y && p != q) || (x != y && p == q) ==> (x ^ p) != (y ^ q)) by (bit_vector);
    shifting_keeps_registers_apart(x ^ p, y ^ q, 8);
}

proof fn shifting_keeps_registers_apart(x: u32, y: u32, n: nat)
    requires
        x != y,
    ensures
        shifted_by(x, n) != shifted_by(y, n),
    decreases n,
{
    if n > 0 {
        shifting_keeps_registers_apart(x, y, (n - 1) as nat);
        let a = shifted_by(x, (n - 1) as nat);
        let b = shifted_by(y, (n - 1) as nat);
        assert(a != b ==> (if a & 1 == 1 {
            (a >> 1) ^ 0xEDB8_8320u32
        } else {
            a >> 1
        }) != (if b & 1 == 1 {
            (b >> 1) ^ 0xEDB8_8320u32
        } else {
            b >> 1
        })) by (bit_vector);
    }
}

proof fn a_byte_of_ones(x0: u32)
    requires
        x0 & 0xFF == 0xFF,
    ensures
        shifted_by(x0, 8) == (x0 >> 8) ^ 0x2D02_EF8D,
{
    reveal_with_fuel(shifted_by, 9);
    let x1 = shifted(x0);
    let x2 = shifted(x1);
    let x3 = shifted(x2);
    let x4 = shifted(x3);
    let x5 = shifted(x4);
    let x6 = shifted(x5);
    let x7 = shifted(x6);
    let x8 = shifted(x7);
    assert(x8 == (x0 >> 8) ^ 0x2D02_EF8D) by (bit_vector)
        requires
            x0 & 0xFF == 0xFF,
            x1 == if x0 & 1 == 1 {
                (x0 >> 1) ^ 0xEDB8_8320u32
            } else {
                x0 >> 1
            },
            x2 == if x1 & 1 == 1 {
                (x1 >> 1) ^ 0xEDB8_8320u32
            } else {
                x1 >> 1
            },
            x3 == if x2 & 1 == 1 {
                (x2 >> 1) ^ 0xEDB8_8320u32
            } else {
                x2 >> 1
            },
            x4 == if x3 & 1 == 1 {
                (x3 >> 1) ^ 0xEDB8_8320u32
            } else {
                x3 >> 1
            },
            x5 == if x4 & 1 == 1 {
                (x4 >> 1) ^ 0xEDB8_8320u32
            } else {
                x4 >> 1
            },
            x6 == if x5 & 1 == 1 {
                (x5 >> 1) ^ 0xEDB8_8320u32
            } else {
                x5 >> 1
            },
            x7 == if x6 & 1 == 1 {
                (x6 >> 1) ^ 0xEDB8_8320u32
            } else {
                x6 >> 1
            },
            x8 == if x7 & 1 == 1 {
                (x7 >> 1) ^ 0xEDB8_8320u32
            } else {
                x7 >> 1
            },
    ;
}

proof fn the_second_byte(x0: u32)
    requires
        x0 & 0xFF == 0x72,
    ensures
        shifted_by(x0, 8) == (x0 >> 8) ^ 0xBE0B_1010,
{
    reveal_with_fuel(shifted_by, 9);
    let x1 = shifted(x0);
    let x2 = shifted(x1);
    let x3 = shifted(x2);
    let x4 = shifted(x3);
    let x5 = shifted(x4);
    let x6 = shifted(x5);
    let x7 = shifted(x6);
    let x8 = shifted(x7);
    assert(x8 == (x0 >> 8) ^ 0xBE0B_1010) by (bit_vector)
        requires
            x0 & 0xFF == 0x72,
            x1 == if x0 & 1 == 1 {
                (x0 >> 1) ^ 0xEDB8_8320u32
            } else {
                x0 >> 1
            },
            x2 == if x1 & 1 == 1 {
                (x1 >> 1) ^ 0xEDB8_8320u32
            } else {
                x1 >> 1
            },
            x3 == if x2 & 1 == 1 {
                (x2 >> 1) ^ 0xEDB8_8320u32
            } else {
                x2 >> 1
            },
            x4 == if x3 & 1 == 1 {
                (x3 >> 1) ^ 0xEDB8_8320u32
            } else {
                x3 >> 1
            },
            x5 == if x4 & 1 == 1 {
                (x4 >> 1) ^ 0xEDB8_8320u32
            } else {
                x4 >> 1
            },
            x6 == if x5 & 1 == 1 {
                (x5 >> 1) ^ 0xEDB8_8320u32
            } else {
                x5 >> 1
            },
            x7 == if x6 & 1 == 1 {
                (x6 >> 1) ^ 0xEDB8_8320u32
            } else {
                x6 >> 1
            },
            x8 == if x7 & 1 == 1 {
                (x7 >> 1) ^ 0xEDB8_8320u32
            } else {
                x7 >> 1
            },
    ;
}

proof fn a_byte_of_zeros(x0: u32)
    requires
        x0 & 0xFF == 0x00,
    ensures
        shifted_by(x0, 8) == (x0 >> 8) ^ 0,
{
    reveal_with_fuel(shifted_by, 9);
    let x1 = shifted(x0);
    let x2 = shifted(x1);
    let x3 = shifted(x2);
    let x4 = shifted(x3);
    let x5 = shifted(x4);
    let x6 = shifted(x5);
    let x7 = shifted(x6);
    let x8 = shifted(x7);
    assert(x8 == (x0 >> 8) ^ 0) by (bit_vector)
        requires
            x0 & 0xFF == 0x00,
            x1 == if x0 & 1 == 1 {
                (x0 >> 1) ^ 0xEDB8_8320u32
            } else {
                x0 >> 1
            },
            x2 == if x1 & 1 == 1 {
                (x1 >> 1) ^ 0xEDB8_8320u32
            } else {
                x1 >> 1
            },
            x3 == if x2 & 1 == 1 {
                (x2 >> 1) ^ 0xEDB8_8320u32
            } else {
                x2 >> 1
            },
            x4 == if x3 & 1 == 1 {
                (x3 >> 1) ^ 0xEDB8_8320u32
            } else {
                x3 >> 1
            },
            x5 == if x4 & 1 == 1 {
                (x4 >> 1) ^ 0xEDB8_8320u32
            } else {
                x4 >> 1
            },
            x6 == if x5 & 1 == 1 {
                (x5 >> 1) ^ 0xEDB8_8320u32
            } else {
                x5 >> 1
            },
            x7 == if x6 & 1 == 1 {
                (x6 >> 1) ^ 0xEDB8_8320u32
            } else {
                x6 >> 1
            },
            x8 == if x7 & 1 == 1 {
                (x7 >> 1) ^ 0xEDB8_8320u32
            } else {
                x7 >> 1
            },
    ;
}

proof fn the_last_byte(x0: u32)
    requires
        x0 & 0xFF == 0xED,
    ensures
        shifted_by(x0, 8) == (x0 >> 8) ^ 0xDEBB_9EC5,
{
    reveal_with_fuel(shifted_by, 9);
    let x1 = shifted(x0);
    let x2 = shifted(x1);
    let x3 = shifted(x2);
    let x4 = shifted(x3);
    let x5 = shifted(x4);
    let x6 = shifted(x5);
    let x7 = shifted(x6);
    let x8 = shifted(x7);
    assert(x8 == (x0 >> 8) ^ 0xDEBB_9EC5) by (bit_vector)
        requires
            x0 & 0xFF == 0xED,
            x1 == if x0 & 1 == 1 {
                (x0 >> 1) ^ 0xEDB8_8320u32
            } else {
                x0 >> 1
            },
            x2 == if x1 & 1 == 1 {
                (x1 >> 1) ^ 0xEDB8_8320u32
            } else {
                x1 >> 1
            },
            x3 == if x2 & 1 == 1 {
                (x2 >> 1) ^ 0xEDB8_8320u32
            } else {
                x2 >> 1
            },
            x4 == if x3 & 1 == 1 {
                (x3 >> 1) ^ 0xEDB8_8320u32
            } else {
                x3 >> 1
            },
            x5 == if x4 & 1 == 1 {
                (x4 >> 1) ^ 0xEDB8_8320u32
            } else {
                x4 >> 1
            },
            x6 == if x5 & 1 == 1 {
                (x5 >> 1) ^ 0xEDB8_8320u32
            } else {
                x5 >> 1
            },
            x7 == if x6 & 1 == 1 {
                (x6 >> 1) ^ 0xEDB8_8320u32
            } else {
                x6 >> 1
            },
            x8 == if x7 & 1 == 1 {
                (x7 >> 1) ^ 0xEDB8_8320u32
            } else {
                x7 >> 1
            },
    ;
}

/// A message with its own checksum behind it, low byte first, always checksums
/// to the same number: that is what makes it a cyclic code, and this number is
/// that of this polynomial alone.
pub proof fn a_checksum_seals_its_message(bytes: Seq<u8>)
    ensures
        ({
            let sum = checksum(bytes);
            checksum(
                bytes + seq![
                    sum as u8,
                    (sum >> 8) as u8,
                    (sum >> 16) as u8,
                    (sum >> 24) as u8,
                ],
            ) == 0x2144_DF1C
        }),
{
    let r = register(bytes);
    let sum = checksum(bytes);
    let b0 = sum as u8;
    let b1 = (sum >> 8) as u8;
    let b2 = (sum >> 16) as u8;
    let b3 = (sum >> 24) as u8;
    let all = bytes + seq![b0, b1, b2, b3];
    let m3 = all.drop_last();
    let m2 = m3.drop_last();
    let m1 = m2.drop_last();
    assert(m1.drop_last() =~= bytes);
    assert(all.last() == b3 && m3.last() == b2 && m2.last() == b1 && m1.last() == b0);
    let x0 = r ^ (b0 as u32);
    assert(x0 & 0xFF == 0xFF && x0 >> 8 == r >> 8) by (bit_vector)
        requires
            x0 == r ^ ((!r) as u8 as u32),
    ;
    a_byte_of_ones(x0);
    let r1 = register(m1);
    let x1 = r1 ^ (b1 as u32);
    assert(x1 & 0xFF == 0x72 && x1 >> 8 == (r >> 16) ^ 0x2D_02EF) by (bit_vector)
        requires
            x1 == ((r >> 8) ^ 0x2D02_EF8D) ^ ((!r >> 8) as u8 as u32),
    ;
    the_second_byte(x1);
    let r2 = register(m2);
    let x2 = r2 ^ (b2 as u32);
    assert(x2 & 0xFF == 0x00 && x2 >> 8 == (r >> 24) ^ 0xBE_2612) by (bit_vector)
        requires
            x2 == (((r >> 16) ^ 0x2D_02EF) ^ 0xBE0B_1010) ^ ((!r >> 16) as u8 as u32),
    ;
    a_byte_of_zeros(x2);
    let r3 = register(m3);
    let x3 = r3 ^ (b3 as u32);
    assert(x3 & 0xFF == 0xED && x3 >> 8 == 0xBE26) by (bit_vector)
        requires
            x3 == (((r >> 24) ^ 0xBE_2612) ^ 0) ^ ((!r >> 24) as u8 as u32),
    ;
    the_last_byte(x3);
    assert(!((0xBE26u32) ^ 0xDEBB_9EC5u32) == 0x2144_DF1Cu32) by (bit_vector);
}

} // verus!
