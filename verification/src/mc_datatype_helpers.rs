use vstd::prelude::*;
use crate::util::ioutil::{splice, varint_bytes, lemma_splice_push, unsigned_bits};

verus! {

/// Writes the variable-length encoding of `value`, its bits read as unsigned (so a negative
/// value takes five bytes), into `buf` from `start` on and returns the number of bytes written.
pub fn write_varint(value: i32, buf: &mut [u8], start: usize) -> (n: usize)
    requires
        start + varint_bytes(unsigned_bits(value)).len() <= old(buf)@.len(),
    ensures
        n == varint_bytes(unsigned_bits(value)).len(),
        final(buf)@ == splice(old(buf)@, start as int, varint_bytes(unsigned_bits(value))),
{
    let ghost before = buf@;
    let ghost total = varint_bytes(unsigned_bits(value));
    let buf_len = buf.len();
    if value == 0 {
        buf[start] = 0;
        assert(buf@ =~= splice(before, start as int, total));
        return 1usize;
    }
    let mut value_copy: u32 = if value >= 0 {
        value as u32
    } else {
        (value as i64 + 0x1_0000_0000i64) as u32
    };
    assert(value_copy as nat == unsigned_bits(value));
    let mut i = 0usize;
    let ghost mut done: Seq<u8> = seq![];
    while value_copy != 0
        invariant
            value_copy == 0 ==> done == total,
            value_copy > 0 ==> done + varint_bytes(value_copy as nat) == total,
            start + total.len() <= before.len(),
            before.len() == buf_len,
            buf@ == splice(before, start as int, done),
            i == done.len(),
        decreases value_copy,
    {
        proof {
            crate::util::ioutil::lemma_varint_bytes_len_pub(value_copy as nat);
        }
        let mut temp: u8 = (value_copy & 0x7F) as u8;
        let ghost v = value_copy;
        value_copy >>= 7u32;
        proof {
            assert(temp == v % 128 && value_copy == v / 128) by (bit_vector)
                requires
                    temp == (v & 0x7F) as u8,
                    value_copy == v >> 7u32,
            ;
        }
        if value_copy != 0 {
            temp |= 0x80;
            proof {
                assert(temp == v % 128 + 128) by (bit_vector)
                    requires
                        temp == ((v & 0x7F) as u8) | 0x80u8,
                ;
            }
        }
        proof {
            if value_copy == 0 {
                assert(varint_bytes(v as nat) == seq![temp]);
            } else {
                assert(varint_bytes(v as nat) == seq![temp] + varint_bytes(value_copy as nat));
                assert(done + seq![temp] + varint_bytes(value_copy as nat) == total);
            }
            lemma_splice_push(before, start as int, done, temp);
            assert(done.push(temp) =~= done + seq![temp]);
        }
        buf[start + i] = temp;
        i += 1;
        proof {
            done = done.push(temp);
        }
    }
    i
}

} // verus!
