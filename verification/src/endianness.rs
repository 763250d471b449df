use vstd::prelude::*;

verus! {

/// Order in which fields are laid out over the bit indices of a structure.
#[derive(Clone, Copy, Debug, PartialEq, Eq)]
pub enum FieldOrder {
    FirstToLast,
    LastToFirst,
}

/// How the bits of a number are moved into and out of the byte array.
#[derive(Clone, Copy, Debug, PartialEq, Eq)]
pub enum EndiannessMode {
    Alternative,
    Standard,
    Nested,
}

/// Order in which the bytes of a number are used.
#[derive(Clone, Copy, Debug, PartialEq, Eq)]
pub enum ByteOrder {
    FirstToLast,
    LastToFirst,
}

impl Default for FieldOrder {
    fn default() -> (r: Self)
        ensures
            r == FieldOrder::FirstToLast,
    {
        FieldOrder::FirstToLast
    }
}

impl Default for ByteOrder {
    fn default() -> (r: Self)
        ensures
            r == ByteOrder::FirstToLast,
    {
        ByteOrder::FirstToLast
    }
}

impl ByteOrder {
    pub fn is_reversed(&self) -> (r: bool)
        ensures
            r == (*self == ByteOrder::LastToFirst),
    {
        matches!(self, Self::LastToFirst)
    }
}

/// This mess determines the endianness of a field.
///
/// `field_order` determines the alignment of bits (left or right). `byte_order`
/// determines the order that bytes will be used. Both carry a reverse flag that is
/// combined with them by exclusive or, and the `Alternative` mode (packed little
/// endian) flips the result of both once more.
///
/// | `(is_field_order_reversed(), is_byte_order_reversed())` | Standard | Alternative |
/// |:---|:---:|:---:|
/// | (false, false) | Big Endian | Packed Little Endian |
/// | (true, true) | Aligned Little Endian | |
#[derive(Clone, Copy, Debug, PartialEq, Eq)]
pub struct Endianness {
    pub mode: EndiannessMode,
    pub byte_order: ByteOrder,
    pub reverse_byte_order: bool,
    pub field_order: FieldOrder,
    pub reverse_field_order: bool,
}

impl Endianness {
    /// Whether the bytes of the structure are used from the last to the first.
    pub open spec fn byte_order_reversed(self) -> bool {
        (self.mode == EndiannessMode::Alternative) ^ (self.reverse_byte_order ^ (self.byte_order
            == ByteOrder::LastToFirst))
    }

    /// Whether the fields are laid out from the last bit index to the first.
    pub open spec fn field_order_reversed(self) -> bool {
        let r = self.reverse_field_order ^ (self.field_order == FieldOrder::LastToFirst);
        if self.mode == EndiannessMode::Alternative {
            !r
        } else {
            r
        }
    }

    pub fn set_byte_order(&mut self, new: ByteOrder)
        ensures
            *final(self) == (Endianness { byte_order: new, ..*old(self) }),
    {
        self.byte_order = new;
    }

    pub fn is_byte_order_reversed(&self) -> (r: bool)
        ensures
            r == self.byte_order_reversed(),
    {
        self.is_alternative() ^ (self.reverse_byte_order ^ self.byte_order.is_reversed())
    }

    pub fn reverse_byte_order(&mut self)
        ensures
            *final(self) == (Endianness {
                reverse_byte_order: !old(self).reverse_byte_order,
                ..*old(self)
            }),
    {
        self.reverse_byte_order = !self.reverse_byte_order;
    }

    pub fn set_reverse_byte_order(&mut self, new: bool)
        ensures
            *final(self) == (Endianness { reverse_byte_order: new, ..*old(self) }),
    {
        self.reverse_byte_order = new;
    }

    pub fn set_reverse_field_order(&mut self, new: bool)
        ensures
            *final(self) == (Endianness { reverse_field_order: new, ..*old(self) }),
    {
        self.reverse_field_order = new;
    }

    pub fn is_field_order_reversed(&self) -> (r: bool)
        ensures
            r == self.field_order_reversed(),
    {
        let r = self.reverse_field_order ^ matches!(self.field_order, FieldOrder::LastToFirst);
        if self.is_alternative() {
            !r
        } else {
            r
        }
    }

    /// Are the bytes aligned to the bytes start and end, otherwise they are packed.
    pub fn has_endianness(&self) -> (r: bool)
        ensures
            r == (self.mode != EndiannessMode::Nested),
    {
        !matches!(self.mode, EndiannessMode::Nested)
    }

    /// A field of one byte or less without an endianness switches to the standard mode (such
    /// a field has no byte order to choose). Returns whether an endianness is defined
    /// afterwards.
    pub fn perhaps_endianness(&mut self, size: usize) -> (r: bool)
        ensures
            old(self).mode == EndiannessMode::Nested && size <= 1 ==> *final(self) == (Endianness {
                mode: EndiannessMode::Standard,
                ..*old(self)
            }),
            !(old(self).mode == EndiannessMode::Nested && size <= 1) ==> *final(self) == *old(self),
            r == (final(self).mode != EndiannessMode::Nested),
    {
        if let EndiannessMode::Nested = self.mode {
            if size <= 1 {
                self.mode = EndiannessMode::Standard;
                true
            } else {
                false
            }
        } else {
            true
        }
    }

    pub fn mode(&self) -> (r: EndiannessMode)
        ensures
            r == self.mode,
    {
        self.mode
    }

    pub fn set_mode(&mut self, mode: EndiannessMode)
        ensures
            *final(self) == (Endianness { mode, ..*old(self) }),
    {
        self.mode = mode;
    }

    pub fn is_standard(&self) -> (r: bool)
        ensures
            r == (self.mode == EndiannessMode::Standard),
    {
        matches!(self.mode, EndiannessMode::Standard)
    }

    pub fn is_alternative(&self) -> (r: bool)
        ensures
            r == (self.mode == EndiannessMode::Alternative),
    {
        matches!(self.mode, EndiannessMode::Alternative)
    }

    pub fn big() -> (r: Self)
        ensures
            r == (Endianness {
                mode: EndiannessMode::Standard,
                byte_order: ByteOrder::FirstToLast,
                reverse_byte_order: false,
                field_order: FieldOrder::FirstToLast,
                reverse_field_order: false,
            }),
    {
        Self {
            mode: EndiannessMode::Standard,
            byte_order: ByteOrder::FirstToLast,
            reverse_byte_order: false,
            field_order: FieldOrder::FirstToLast,
            reverse_field_order: false,
        }
    }

    pub fn little_packed() -> (r: Self)
        ensures
            r == (Endianness {
                mode: EndiannessMode::Alternative,
                byte_order: ByteOrder::LastToFirst,
                reverse_byte_order: false,
                field_order: FieldOrder::LastToFirst,
                reverse_field_order: false,
            }),
    {
        Self {
            mode: EndiannessMode::Alternative,
            byte_order: ByteOrder::LastToFirst,
            reverse_byte_order: false,
            field_order: FieldOrder::LastToFirst,
            reverse_field_order: false,
        }
    }

    pub fn little_aligned() -> (r: Self)
        ensures
            r == (Endianness {
                mode: EndiannessMode::Standard,
                byte_order: ByteOrder::LastToFirst,
                reverse_byte_order: false,
                field_order: FieldOrder::LastToFirst,
                reverse_field_order: false,
            }),
    {
        Self {
            mode: EndiannessMode::Standard,
            byte_order: ByteOrder::LastToFirst,
            reverse_byte_order: false,
            field_order: FieldOrder::LastToFirst,
            reverse_field_order: false,
        }
    }

    pub fn nested() -> (r: Self)
        ensures
            r == (Endianness {
                mode: EndiannessMode::Nested,
                byte_order: ByteOrder::FirstToLast,
                reverse_byte_order: false,
                field_order: FieldOrder::FirstToLast,
                reverse_field_order: false,
            }),
    {
        Self {
            mode: EndiannessMode::Nested,
            byte_order: ByteOrder::FirstToLast,
            reverse_byte_order: false,
            field_order: FieldOrder::FirstToLast,
            reverse_field_order: false,
        }
    }
}

impl Default for Endianness {
    fn default() -> (r: Self)
        ensures
            r == (Endianness {
                mode: EndiannessMode::Nested,
                byte_order: ByteOrder::FirstToLast,
                reverse_byte_order: false,
                field_order: FieldOrder::FirstToLast,
                reverse_field_order: false,
            }),
    {
        Self::nested()
    }
}

/// The orders the documented endiannesses resolve to: big endian uses neither reversal,
/// aligned little endian both, packed little endian neither (its mode flips both), and
/// nested values neither.
pub proof fn law_endianness_truth_table()
    ensures
        !Endianness::big_spec().field_order_reversed(),
        !Endianness::big_spec().byte_order_reversed(),
        Endianness::little_aligned_spec().field_order_reversed(),
        Endianness::little_aligned_spec().byte_order_reversed(),
        !Endianness::little_packed_spec().field_order_reversed(),
        !Endianness::little_packed_spec().byte_order_reversed(),
        !Endianness::nested_spec().field_order_reversed(),
        !Endianness::nested_spec().byte_order_reversed(),
{
}

/// Each reverse flag is combined by exclusive or: flipping it flips the resolved order,
/// and flipping the byte order twice gives back the original endianness.
pub proof fn law_reverse_flags_flip_orders(e: Endianness)
    ensures
        (Endianness { reverse_byte_order: !e.reverse_byte_order, ..e }).byte_order_reversed()
            == !e.byte_order_reversed(),
        (Endianness { reverse_field_order: !e.reverse_field_order, ..e }).field_order_reversed()
            == !e.field_order_reversed(),
        (Endianness {
            reverse_byte_order: !(Endianness { reverse_byte_order: !e.reverse_byte_order, ..e }).reverse_byte_order,
            ..(Endianness { reverse_byte_order: !e.reverse_byte_order, ..e })
        }) == e,
        (Endianness { reverse_byte_order: !e.reverse_byte_order, ..e }).field_order_reversed()
            == e.field_order_reversed(),
        (Endianness { reverse_field_order: !e.reverse_field_order, ..e }).byte_order_reversed()
            == e.byte_order_reversed(),
{
}

impl Endianness {
    pub open spec fn big_spec() -> Endianness {
        Endianness {
            mode: EndiannessMode::Standard,
            byte_order: ByteOrder::FirstToLast,
            reverse_byte_order: false,
            field_order: FieldOrder::FirstToLast,
            reverse_field_order: false,
        }
    }

    pub open spec fn little_packed_spec() -> Endianness {
        Endianness {
            mode: EndiannessMode::Alternative,
            byte_order: ByteOrder::LastToFirst,
            reverse_byte_order: false,
            field_order: FieldOrder::LastToFirst,
            reverse_field_order: false,
        }
    }

    pub open spec fn little_aligned_spec() -> Endianness {
        Endianness {
            mode: EndiannessMode::Standard,
            byte_order: ByteOrder::LastToFirst,
            reverse_byte_order: false,
            field_order: FieldOrder::LastToFirst,
            reverse_field_order: false,
        }
    }

    pub open spec fn nested_spec() -> Endianness {
        Endianness {
            mode: EndiannessMode::Nested,
            byte_order: ByteOrder::FirstToLast,
            reverse_byte_order: false,
            field_order: FieldOrder::FirstToLast,
            reverse_field_order: false,
        }
    }
}

} // verus!
