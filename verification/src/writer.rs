//! An output buffer that integers are written into as decimal text.
use vstd::prelude::*;
use crate::decimal::{
    decimal, lemma_decimal_len_bound, lemma_decimal_split, lemma_padded_digits,
    lemma_padded_mod, lemma_padded_split, lemma_pow10_values, lemma_strip_leading_zeros, padded,
    signed_decimal,
};
use crate::digits::{convert_eight, leading_zeros, shift_digits, short_decimal};

verus! {

/// Bytes waiting to be sent to the output; `N` is the size of the chunks in
/// which the program hands them on.
pub struct Writer<const N: usize> {
    buf: Vec<u8>,
}

impl<const N: usize> View for Writer<N> {
    type V = Seq<u8>;

    /// Everything written into the writer since it was created or last cleared.
    closed spec fn view(&self) -> Seq<u8> {
        self.buf@
    }
}

impl<const N: usize> Writer<N> {
    /// An empty writer.
    pub fn new() -> (w: Self)
        ensures
            w@ == Seq::<u8>::empty(),
    {
        Writer { buf: Vec::with_capacity(N) }
    }

    /// Appends `data` to what has been written.
    pub fn write(&mut self, data: &[u8])
        ensures
            final(self)@ == old(self)@ + data@,
    {
        let mut i: usize = 0;
        while i < data.len()
            invariant
                i <= data@.len(),
                self.buf@ =~= old(self)@ + data@.subrange(0, i as int),
            decreases data@.len() - i,
        {
            self.buf.push(data[i]);
            i = i + 1;
        }
        proof {
            assert(data@.subrange(0, data@.len() as int) =~= data@);
        }
    }

    /// The bytes written so far.
    pub fn as_bytes(&self) -> (bytes: &[u8])
        ensures
            bytes@ == self@,
    {
        self.buf.as_slice()
    }

    /// Forgets everything written, once it has been handed on.
    pub fn clear(&mut self)
        ensures
            final(self)@ == Seq::<u8>::empty(),
    {
        self.buf.clear();
    }

    /// Writes the decimal text of `v`.
    pub fn write_u8(&mut self, v: u8)
        ensures
            final(self)@ == old(self)@ + decimal(v as nat),
    {
        proof {
            lemma_pow10_values();
            lemma_decimal_len_bound(v as nat, 3);
        }
        let text = short_decimal(v as u64, 3);
        self.write(text.as_slice());
    }

    /// Writes the decimal text of `v`.
    pub fn write_u16(&mut self, v: u16)
        ensures
            final(self)@ == old(self)@ + decimal(v as nat),
    {
        proof {
            lemma_pow10_values();
            lemma_decimal_len_bound(v as nat, 5);
        }
        let text = short_decimal(v as u64, 5);
        self.write(text.as_slice());
    }

    /// Writes the decimal text of `v`: below `10^8` its eight padded digits
    /// without their leading zeros, otherwise the one or two leading digits
    /// followed by the last eight.
    pub fn write_u32(&mut self, v: u32)
        ensures
            final(self)@ == old(self)@ + decimal(v as nat),
    {
        proof {
            lemma_pow10_values();
        }
        if v < 100000000 {
            let eight = convert_eight(v);
            proof {
                lemma_padded_digits(v as nat, 8);
            }
            let digit = leading_zeros(&eight, 7);
            proof {
                lemma_strip_leading_zeros(v as nat, 8, eight@, digit as int);
            }
            let text = shift_digits(&eight, digit);
            self.write(text.as_slice());
        } else {
            let a = v / 100000000;
            let rest = v % 100000000;
            let mut buffer: Vec<u8> = Vec::new();
            let d1 = (a / 10) as u8 + 48;
            let d2 = (a % 10) as u8 + 48;
            if a >= 10 {
                buffer.push(d1);
            }
            buffer.push(d2);
            proof {
                assert(decimal(a as nat / 10) =~= seq![d1]);
                assert(buffer@ =~= decimal(a as nat));
                lemma_decimal_split(v as nat, 8);
                lemma_padded_mod(v as nat, 8);
            }
            let mut low = convert_eight(rest);
            buffer.append(&mut low);
            self.write(buffer.as_slice());
        }
    }

    /// The sixteen padded digits of `v` (below `10^16`), as two blocks of eight.
    fn convert_sixteen(v: u64) -> (out: Vec<u8>)
        requires
            v < 10000000000000000,
        ensures
            out@ == padded(v as nat, 16),
    {
        proof {
            lemma_pow10_values();
            lemma_padded_split(v as nat, 8, 8);
            lemma_padded_mod(v as nat, 8);
        }
        let v0 = (v / 100000000) as u32;
        let v1 = (v % 100000000) as u32;
        let mut a0 = convert_eight(v0);
        let mut a1 = convert_eight(v1);
        a0.append(&mut a1);
        a0
    }

    /// Writes the decimal text of `v`: below `10^8` as `write_u32` does,
    /// below `10^16` its sixteen padded digits without their leading zeros,
    /// otherwise its leading digits followed by the last sixteen.
    pub fn write_u64(&mut self, v: u64)
        ensures
            final(self)@ == old(self)@ + decimal(v as nat),
    {
        proof {
            lemma_pow10_values();
        }
        if v < 100000000 {
            self.write_u32(v as u32);
        } else if v < 10000000000000000 {
            let sixteen = Self::convert_sixteen(v);
            proof {
                lemma_padded_digits(v as nat, 16);
            }
            let digit = leading_zeros(&sixteen, 15);
            proof {
                lemma_strip_leading_zeros(v as nat, 16, sixteen@, digit as int);
            }
            let text = shift_digits(&sixteen, digit);
            self.write(text.as_slice());
        } else {
            let a = v / 10000000000000000;
            let rest = v % 10000000000000000;
            proof {
                assert(a < 10000);
                lemma_decimal_len_bound(a as nat, 4);
                lemma_decimal_split(v as nat, 16);
                lemma_padded_mod(v as nat, 16);
            }
            let mut buffer = short_decimal(a, 4);
            let mut low = Self::convert_sixteen(rest);
            buffer.append(&mut low);
            self.write(buffer.as_slice());
        }
    }

    /// Writes the decimal text of `v`, the same as `write_u64` does.
    pub fn write_usize(&mut self, v: usize)
        ensures
            final(self)@ == old(self)@ + decimal(v as nat),
    {
        self.write_u64(v as u64);
    }

    /// Writes a `'-'` when `v` is negative, then the decimal text of its
    /// magnitude.
    pub fn write_i8(&mut self, v: i8)
        ensures
            final(self)@ == old(self)@ + signed_decimal(v as int),
    {
        if v < 0 {
            self.buf.push(45u8);
        }
        let magnitude: u8 = if v < 0 {
            (0i16 - v as i16) as u8
        } else {
            v as u8
        };
        self.write_u8(magnitude);
    }

    /// Writes a `'-'` when `v` is negative, then the decimal text of its
    /// magnitude.
    pub fn write_i16(&mut self, v: i16)
        ensures
            final(self)@ == old(self)@ + signed_decimal(v as int),
    {
        if v < 0 {
            self.buf.push(45u8);
        }
        let magnitude: u16 = if v < 0 {
            (0i32 - v as i32) as u16
        } else {
            v as u16
        };
        self.write_u16(magnitude);
    }

    /// Writes a `'-'` when `v` is negative, then the decimal text of its
    /// magnitude.
    pub fn write_i32(&mut self, v: i32)
        ensures
            final(self)@ == old(self)@ + signed_decimal(v as int),
    {
        if v < 0 {
            self.buf.push(45u8);
        }
        let magnitude: u32 = if v < 0 {
            (0i64 - v as i64) as u32
        } else {
            v as u32
        };
        self.write_u32(magnitude);
    }

    /// Writes a `'-'` when `v` is negative, then the decimal text of its
    /// magnitude.
    pub fn write_i64(&mut self, v: i64)
        ensures
            final(self)@ == old(self)@ + signed_decimal(v as int),
    {
        if v < 0 {
            self.buf.push(45u8);
        }
        let magnitude: u64 = if v < 0 {
            (0i128 - v as i128) as u64
        } else {
            v as u64
        };
        self.write_u64(magnitude);
    }

    /// Writes the text of `v` the same as `write_i64` does.
    pub fn write_isize(&mut self, v: isize)
        ensures
            final(self)@ == old(self)@ + signed_decimal(v as int),
    {
        self.write_i64(v as i64);
    }
}

} // verus!
