//! Dense fixed-width bit container used to encode calendar constraints.
//!
//! The width is picked at construction from 8, 16, 32 or a multiple of 64
//! bits. Reads outside the width return `false` and writes outside it are
//! ignored, so callers never have to guard positions. The container encodes
//! to a little-endian byte sequence, one byte per eight bits.

use vstd::prelude::*;

verus! {

#[derive(Debug)]
pub enum Bitmap {
    Byte(u8),
    Short(u16),
    Int(u32),
    Longs(Vec<u64>),
}

pub open spec fn u8_bit(x: u8, i: int) -> bool {
    0 <= i < 8 && (x >> (i as u8)) & 1 == 1
}

pub open spec fn u16_bit(x: u16, i: int) -> bool {
    0 <= i < 16 && (x >> (i as u16)) & 1 == 1
}

pub open spec fn u32_bit(x: u32, i: int) -> bool {
    0 <= i < 32 && (x >> (i as u32)) & 1 == 1
}

pub open spec fn u64_bit(x: u64, i: int) -> bool {
    0 <= i < 64 && (x >> (i as u64)) & 1 == 1
}

proof fn lemma_u8_set_bit(x0: u8, x1: u8, p: u8, value: bool)
    requires
        p < 8,
        x1 == if value { x0 | (1u8 << p) } else { x0 & !(1u8 << p) },
    ensures
        forall|i: int| u8_bit(x1, i) == (if i == p as int { value } else { u8_bit(x0, i) }),
{
    assert forall|i: int| u8_bit(x1, i) == (if i == p as int { value } else { u8_bit(x0, i) }) by {
        if 0 <= i < 8 {
            let iu = i as u8;
            if value {
                assert(((x0 | (1u8 << p)) >> iu) & 1 == (if iu == p { 1u8 } else { (x0 >> iu) & 1 })) by (bit_vector)
                    requires p < 8, iu < 8;
            } else {
                assert(((x0 & !(1u8 << p)) >> iu) & 1 == (if iu == p { 0u8 } else { (x0 >> iu) & 1 })) by (bit_vector)
                    requires p < 8, iu < 8;
            }
        }
    }
}

proof fn lemma_u16_set_bit(x0: u16, x1: u16, p: u16, value: bool)
    requires
        p < 16,
        x1 == if value { x0 | (1u16 << p) } else { x0 & !(1u16 << p) },
    ensures
        forall|i: int| u16_bit(x1, i) == (if i == p as int { value } else { u16_bit(x0, i) }),
{
    assert forall|i: int| u16_bit(x1, i) == (if i == p as int { value } else { u16_bit(x0, i) }) by {
        if 0 <= i < 16 {
            let iu = i as u16;
            if value {
                assert(((x0 | (1u16 << p)) >> iu) & 1 == (if iu == p { 1u16 } else { (x0 >> iu) & 1 })) by (bit_vector)
                    requires p < 16, iu < 16;
            } else {
                assert(((x0 & !(1u16 << p)) >> iu) & 1 == (if iu == p { 0u16 } else { (x0 >> iu) & 1 })) by (bit_vector)
                    requires p < 16, iu < 16;
            }
        }
    }
}

proof fn lemma_u32_set_bit(x0: u32, x1: u32, p: u32, value: bool)
    requires
        p < 32,
        x1 == if value { x0 | (1u32 << p) } else { x0 & !(1u32 << p) },
    ensures
        forall|i: int| u32_bit(x1, i) == (if i == p as int { value } else { u32_bit(x0, i) }),
{
    assert forall|i: int| u32_bit(x1, i) == (if i == p as int { value } else { u32_bit(x0, i) }) by {
        if 0 <= i < 32 {
            let iu = i as u32;
            if value {
                assert(((x0 | (1u32 << p)) >> iu) & 1 == (if iu == p { 1u32 } else { (x0 >> iu) & 1 })) by (bit_vector)
                    requires p < 32, iu < 32;
            } else {
                assert(((x0 & !(1u32 << p)) >> iu) & 1 == (if iu == p { 0u32 } else { (x0 >> iu) & 1 })) by (bit_vector)
                    requires p < 32, iu < 32;
            }
        }
    }
}

proof fn lemma_u64_set_bit(x0: u64, x1: u64, p: u64, value: bool)
    requires
        p < 64,
        x1 == if value { x0 | (1u64 << p) } else { x0 & !(1u64 << p) },
    ensures
        forall|i: int| u64_bit(x1, i) == (if i == p as int { value } else { u64_bit(x0, i) }),
{
    assert forall|i: int| u64_bit(x1, i) == (if i == p as int { value } else { u64_bit(x0, i) }) by {
        if 0 <= i < 64 {
            let iu = i as u64;
            if value {
                assert(((x0 | (1u64 << p)) >> iu) & 1 == (if iu == p { 1u64 } else { (x0 >> iu) & 1 })) by (bit_vector)
                    requires p < 64, iu < 64;
            } else {
                assert(((x0 & !(1u64 << p)) >> iu) & 1 == (if iu == p { 0u64 } else { (x0 >> iu) & 1 })) by (bit_vector)
                    requires p < 64, iu < 64;
            }
        }
    }
}

impl Bitmap {
    /// Number of bit positions this container can hold.
    pub open spec fn spec_width(&self) -> int {
        match self {
            Bitmap::Byte(_) => 8,
            Bitmap::Short(_) => 16,
            Bitmap::Int(_) => 32,
            Bitmap::Longs(v) => v@.len() as int * 64,
        }
    }

    /// Whether bit `i` is set; positions outside the width read as `false`.
    pub open spec fn spec_get(&self, i: int) -> bool {
        match self {
            Bitmap::Byte(x) => u8_bit(*x, i),
            Bitmap::Short(x) => u16_bit(*x, i),
            Bitmap::Int(x) => u32_bit(*x, i),
            Bitmap::Longs(v) => 0 <= i < v@.len() * 64 && u64_bit(v@[i / 64], i % 64),
        }
    }

    /// The representation width chosen for a requested size.
    pub open spec fn width_for(size: int) -> int {
        if size <= 8 {
            8
        } else if size <= 16 {
            16
        } else if size <= 32 {
            32
        } else {
            (size / 64 + 1) * 64
        }
    }

    pub fn of_size(size: usize) -> (r: Bitmap)
        requires
            1 <= size < usize::MAX,
        ensures
            r.spec_width() == Self::width_for(size as int),
            forall|i: int| !r.spec_get(i),
    {
        proof {
            assert(forall|p: u8| p < 8 ==> (0u8 >> p) & 1 == 0) by (bit_vector);
            assert(forall|p: u16| p < 16 ==> (0u16 >> p) & 1 == 0) by (bit_vector);
            assert(forall|p: u32| p < 32 ==> (0u32 >> p) & 1 == 0) by (bit_vector);
        }
        if size <= 8 {
            Bitmap::Byte(0)
        } else if size <= 16 {
            Bitmap::Short(0)
        } else if size <= 32 {
            Bitmap::Int(0)
        } else {
            let words = size / 64 + 1;
            let mut v: Vec<u64> = Vec::new();
            let mut k: usize = 0;
            while k < words
                invariant
                    v@.len() == k <= words,
                    forall|j: int| 0 <= j < k ==> v@[j] == 0u64,
                decreases words - k,
            {
                v.push(0);
                k = k + 1;
            }
            proof {
                assert forall|i: int| !(Bitmap::Longs(v).spec_get(i)) by {
                    if 0 <= i < v@.len() * 64 {
                        assert(0 <= i / 64 < v@.len()) by (nonlinear_arith)
                            requires 0 <= i < v@.len() * 64;
                        assert(forall|p: u64| p < 64 ==> (0u64 >> p) & 1 == 0) by (bit_vector);
                    }
                }
            }
            Bitmap::Longs(v)
        }
    }

    pub fn len(&self) -> (r: usize)
        requires
            self.spec_width() <= usize::MAX,
        ensures
            r == self.spec_width(),
    {
        match self {
            Bitmap::Byte(_) => 8,
            Bitmap::Short(_) => 16,
            Bitmap::Int(_) => 32,
            Bitmap::Longs(v) => v.len() * 64,
        }
    }

    pub fn get(&self, position: usize) -> (r: bool)
        ensures
            r == self.spec_get(position as int),
    {
        match self {
            Bitmap::Byte(x) => {
                if position < 8 {
                    (*x >> (position as u8)) & 1 == 1
                } else {
                    false
                }
            }
            Bitmap::Short(x) => {
                if position < 16 {
                    (*x >> (position as u16)) & 1 == 1
                } else {
                    false
                }
            }
            Bitmap::Int(x) => {
                if position < 32 {
                    (*x >> (position as u32)) & 1 == 1
                } else {
                    false
                }
            }
            Bitmap::Longs(v) => {
                if position / 64 < v.len() {
                    proof {
                        assert(position < v@.len() * 64) by (nonlinear_arith)
                            requires position / 64 < v@.len();
                    }
                    (v[position / 64] >> ((position % 64) as u64)) & 1 == 1
                } else {
                    proof {
                        assert(!(position < v@.len() * 64)) by (nonlinear_arith)
                            requires !(position / 64 < v@.len());
                    }
                    false
                }
            }
        }
    }

    /// Sets bit `position` to `value`; positions outside the width are ignored.
    fn set_internal(&mut self, position: usize, value: bool)
        ensures
            final(self).spec_width() == old(self).spec_width(),
            forall|i: int|
                final(self).spec_get(i) == if i == position as int && 0 <= i
                    < old(self).spec_width() {
                    value
                } else {
                    old(self).spec_get(i)
                },
    {
        match self {
            Bitmap::Byte(x) => {
                if position < 8 {
                    let p = position as u8;
                    let x0 = *x;
                    let x1 = if value {
                        x0 | (1u8 << p)
                    } else {
                        x0 & !(1u8 << p)
                    };
                    *x = x1;
                    proof {
                        lemma_u8_set_bit(x0, x1, p, value);
                    }
                }
            }
            Bitmap::Short(x) => {
                if position < 16 {
                    let p = position as u16;
                    let x0 = *x;
                    let x1 = if value {
                        x0 | (1u16 << p)
                    } else {
                        x0 & !(1u16 << p)
                    };
                    *x = x1;
                    proof {
                        lemma_u16_set_bit(x0, x1, p, value);
                    }
                }
            }
            Bitmap::Int(x) => {
                if position < 32 {
                    let p = position as u32;
                    let x0 = *x;
                    let x1 = if value {
                        x0 | (1u32 << p)
                    } else {
                        x0 & !(1u32 << p)
                    };
                    *x = x1;
                    proof {
                        lemma_u32_set_bit(x0, x1, p, value);
                    }
                }
            }
            Bitmap::Longs(v) => {
                if position / 64 < v.len() {
                    proof {
                        assert(position < v@.len() * 64) by (nonlinear_arith)
                            requires position / 64 < v@.len();
                    }
                    let w = position / 64;
                    let p = (position % 64) as u64;
                    let x0 = v[w];
                    let x1 = if value {
                        x0 | (1u64 << p)
                    } else {
                        x0 & !(1u64 << p)
                    };
                    v.set(w, x1);
                    proof {
                        lemma_u64_set_bit(x0, x1, p, value);
                        assert forall|i: int|
                            Bitmap::Longs(*v).spec_get(i) == if i == position as int && 0 <= i
                                < old(self).spec_width() {
                                value
                            } else {
                                old(self).spec_get(i)
                            } by {
                            if 0 <= i < v@.len() * 64 {
                                assert(0 <= i / 64 < v@.len() && i % 64 < 64 && i / 64 * 64 + i % 64
                                    == i) by (nonlinear_arith)
                                    requires 0 <= i < v@.len() * 64;
                                assert(position as int / 64 * 64 + position as int % 64
                                    == position as int) by (nonlinear_arith);
                                if i / 64 == w as int && i != position as int {
                                    assert(i % 64 != position as int % 64);
                                }
                            }
                        }
                    }
                } else {
                    proof {
                        assert(!(position < v@.len() * 64)) by (nonlinear_arith)
                            requires !(position / 64 < v@.len());
                    }
                }
            }
        }
    }

    pub fn set(&mut self, position: usize)
        ensures
            final(self).spec_width() == old(self).spec_width(),
            forall|i: int|
                final(self).spec_get(i) == if i == position as int && 0 <= i
                    < old(self).spec_width() {
                    true
                } else {
                    old(self).spec_get(i)
                },
    {
        self.set_internal(position, true)
    }

    pub fn unset(&mut self, position: usize)
        ensures
            final(self).spec_width() == old(self).spec_width(),
            forall|i: int|
                final(self).spec_get(i) == if i == position as int && 0 <= i
                    < old(self).spec_width() {
                    false
                } else {
                    old(self).spec_get(i)
                },
    {
        self.set_internal(position, false)
    }

    /// Clears every bit, keeping the width.
    pub fn clear(&mut self)
        ensures
            final(self).spec_width() == old(self).spec_width(),
            forall|i: int| !final(self).spec_get(i),
    {
        match self {
            Bitmap::Byte(x) => {
                *x = 0;
                proof {
                    assert(forall|i: u8| i < 8 ==> (0u8 >> i) & 1 == 0) by (bit_vector);
                }
            }
            Bitmap::Short(x) => {
                *x = 0;
                proof {
                    assert(forall|i: u16| i < 16 ==> (0u16 >> i) & 1 == 0) by (bit_vector);
                }
            }
            Bitmap::Int(x) => {
                *x = 0;
                proof {
                    assert(forall|i: u32| i < 32 ==> (0u32 >> i) & 1 == 0) by (bit_vector);
                }
            }
            Bitmap::Longs(v) => {
                let n = v.len();
                let mut k: usize = 0;
                while k < n
                    invariant
                        v@.len() == n,
                        k <= n,
                        forall|j: int| 0 <= j < k ==> v@[j] == 0u64,
                    decreases n - k,
                {
                    v.set(k, 0);
                    k = k + 1;
                }
                proof {
                    assert forall|i: int| !(Bitmap::Longs(*v).spec_get(i)) by {
                        if 0 <= i < v@.len() * 64 {
                            assert(0 <= i / 64 < v@.len()) by (nonlinear_arith)
                                requires 0 <= i < v@.len() * 64;
                            assert(forall|p: u64| p < 64 ==> (0u64 >> p) & 1 == 0) by (bit_vector);
                        }
                    }
                }
            }
        }
    }

    /// True when some listed position equals `i`.
    pub open spec fn listed(bits: Seq<usize>, i: int) -> bool {
        exists|j: int| 0 <= j < bits.len() && bits[j] as int == i
    }

    /// A bitmap of the given size whose set bits are exactly the listed
    /// positions that fall inside the width.
    pub fn explicitly_set(size: usize, bits: Vec<usize>) -> (r: Bitmap)
        requires
            1 <= size < usize::MAX,
        ensures
            r.spec_width() == Self::width_for(size as int),
            forall|i: int|
                r.spec_get(i) == (Self::listed(bits@, i) && 0 <= i < r.spec_width()),
    {
        let mut result = Self::of_size(size);
        let n = bits.len();
        let mut k: usize = 0;
        while k < n
            invariant
                bits@.len() == n,
                k <= n,
                result.spec_width() == Self::width_for(size as int),
                forall|i: int|
                    result.spec_get(i) == (Self::listed(bits@.take(k as int), i) && 0 <= i
                        < result.spec_width()),
            decreases n - k,
        {
            let b = bits[k];
            result.set(b);
            proof {
                assert(bits@.take(k as int + 1) =~= bits@.take(k as int).push(bits@[k as int]));
                assert forall|i: int|
                    Self::listed(bits@.take(k as int + 1), i) == (Self::listed(
                        bits@.take(k as int),
                        i,
                    ) || i == b as int) by {
                    let s0 = bits@.take(k as int);
                    let s1 = bits@.take(k as int + 1);
                    if Self::listed(s1, i) {
                        let j = choose|j: int| 0 <= j < s1.len() && s1[j] as int == i;
                        if j < k as int {
                            assert(Self::listed(s0, i));
                        }
                    }
                    if Self::listed(s0, i) {
                        let j = choose|j: int| 0 <= j < s0.len() && s0[j] as int == i;
                        assert(s1[j] as int == i);
                    }
                    if i == b as int {
                        assert(s1[k as int] as int == i);
                    }
                }
            }
            k = k + 1;
        }
        proof {
            assert(bits@.take(n as int) =~= bits@);
        }
        result
    }

    /// A bitmap of the given size with every position below `size` set.
    pub fn all_set(size: usize) -> (r: Bitmap)
        requires
            1 <= size < usize::MAX,
        ensures
            r.spec_width() == Self::width_for(size as int),
            forall|i: int| r.spec_get(i) == (0 <= i < size as int),
    {
        let mut result = Self::of_size(size);
        let mut k: usize = 0;
        proof {
            assert(Bitmap::width_for(size as int) >= size as int) by (nonlinear_arith)
                requires size as int >= 1;
        }
        while k < size
            invariant
                k <= size,
                result.spec_width() == Self::width_for(size as int),
                result.spec_width() >= size as int,
                forall|i: int| result.spec_get(i) == (0 <= i < k as int),
            decreases size - k,
        {
            result.set(k);
            k = k + 1;
        }
        result
    }

    /// Smallest set position strictly greater than `from`, if any.
    pub fn next_set(&self, from: usize) -> (r: Option<usize>)
        requires
            self.spec_width() <= usize::MAX,
        ensures
            match r {
                Some(j) => from < j < self.spec_width() && self.spec_get(j as int) && forall|k: int|
                    from < k < j ==> !self.spec_get(k),
                None => forall|k: int| from < k ==> !self.spec_get(k),
            },
    {
        let width = self.len();
        if width == 0 || from >= width - 1 {
            return None;
        }
        let mut i: usize = from;
        while i + 1 < width
            invariant
                from <= i < width,
                width == self.spec_width(),
                forall|k: int| from < k <= i ==> !self.spec_get(k),
            decreases width - i,
        {
            i = i + 1;
            if self.get(i) {
                return Some(i);
            }
        }
        None
    }

    pub fn first_set(&self) -> (r: Option<usize>)
        requires
            self.spec_width() <= usize::MAX,
        ensures
            match r {
                Some(j) => 0 < j < self.spec_width() && self.spec_get(j as int) && forall|k: int|
                    0 < k < j ==> !self.spec_get(k),
                None => forall|k: int| 0 < k ==> !self.spec_get(k),
            },
    {
        self.next_set(0)
    }

    /// The set positions strictly after `from`, in increasing order.
    pub fn iter(&self, from: usize) -> (r: Vec<usize>)
        requires
            self.spec_width() <= usize::MAX,
        ensures
            forall|a: int, b: int| 0 <= a < b < r@.len() ==> r@[a] < r@[b],
            forall|j: int| 0 <= j < r@.len() ==> self.spec_get(r@[j] as int) && from < r@[j],
            forall|k: int| from < k ==> (self.spec_get(k) ==> Self::listed(r@, k)),
    {
        let mut out: Vec<usize> = Vec::new();
        let mut cursor: usize = from;
        loop
            invariant
                from <= cursor,
                self.spec_width() <= usize::MAX,
                forall|a: int, b: int| 0 <= a < b < out@.len() ==> out@[a] < out@[b],
                forall|j: int| 0 <= j < out@.len() ==> self.spec_get(out@[j] as int) && from
                    < out@[j] <= cursor,
                forall|k: int| from < k <= cursor ==> (self.spec_get(k) ==> Self::listed(out@, k)),
            ensures
                forall|a: int, b: int| 0 <= a < b < out@.len() ==> out@[a] < out@[b],
                forall|j: int| 0 <= j < out@.len() ==> self.spec_get(out@[j] as int) && from
                    < out@[j],
                forall|k: int| from < k ==> (self.spec_get(k) ==> Self::listed(out@, k)),
            decreases self.spec_width() - cursor,
        {
            match self.next_set(cursor) {
                Some(j) => {
                    let ghost prev = out@;
                    out.push(j);
                    proof {
                        assert forall|k: int|
                            from < k <= j as int && self.spec_get(k) implies Self::listed(
                            out@,
                            k,
                        ) by {
                            if k <= cursor as int {
                                assert(Self::listed(prev, k));
                                let idx = choose|idx: int|
                                    0 <= idx < prev.len() && #[trigger] prev[idx] as int == k;
                                assert(out@[idx] as int == k);
                            } else if k < j as int {
                                assert(!self.spec_get(k));
                            } else {
                                assert(out@[out@.len() - 1] as int == k);
                            }
                        }
                    }
                    cursor = j;
                }
                None => {
                    return out;
                }
            }
        }
    }
}

} // verus!

verus! {

pub open spec fn bit01(b: bool) -> u8 {
    if b {
        1
    } else {
        0
    }
}

impl Bitmap {
    /// Byte `j` of the little-endian encoding packs bits `8j .. 8j+8`.
    pub open spec fn byte_at(&self, base: int) -> u8 {
        (bit01(self.spec_get(base)) + 2 * bit01(self.spec_get(base + 1)) + 4 * bit01(
            self.spec_get(base + 2),
        ) + 8 * bit01(self.spec_get(base + 3)) + 16 * bit01(self.spec_get(base + 4)) + 32 * bit01(
            self.spec_get(base + 5),
        ) + 64 * bit01(self.spec_get(base + 6)) + 128 * bit01(self.spec_get(base + 7))) as u8
    }

    /// The little-endian byte encoding: one byte per eight bits of width.
    pub open spec fn spec_bytes(&self) -> Seq<u8> {
        Seq::new((self.spec_width() / 8) as nat, |j: int| self.byte_at(8 * j))
    }

    /// The width that decoding infers from a byte count: the smallest
    /// variant that holds all the bytes.
    pub open spec fn decoded_width(n: int) -> int {
        if n == 1 {
            8
        } else if n == 2 {
            16
        } else if n == 3 || n == 4 {
            32
        } else {
            ((n + 7) / 8) * 64
        }
    }

    /// Bit `i` of the bitmap decoded from `s`.
    pub open spec fn decoded_bit(s: Seq<u8>, i: int) -> bool {
        0 <= i < Self::decoded_width(s.len() as int) && i / 8 < s.len() && u8_bit(
            s[i / 8],
            i % 8,
        )
    }
}

/// Packing eight bits into a byte and reading one back returns that bit.
proof fn lemma_pack_unpack(b0: u8, b1: u8, b2: u8, b3: u8, b4: u8, b5: u8, b6: u8, b7: u8, t: u8, k: u8)
    requires
        b0 < 2, b1 < 2, b2 < 2, b3 < 2, b4 < 2, b5 < 2, b6 < 2, b7 < 2, k < 8,
        t == b0 + 2 * b1 + 4 * b2 + 8 * b3 + 16 * b4 + 32 * b5 + 64 * b6 + 128 * b7,
    ensures
        (t >> k) & 1 == (
            if k == 0 { b0 } else if k == 1 { b1 } else if k == 2 { b2 } else if k == 3 { b3 }
            else if k == 4 { b4 } else if k == 5 { b5 } else if k == 6 { b6 } else { b7 }),
{
    assert(t as u16 == b0 as u16 + 2 * (b1 as u16) + 4 * (b2 as u16) + 8 * (b3 as u16) + 16 * (
        b4 as u16) + 32 * (b5 as u16) + 64 * (b6 as u16) + 128 * (b7 as u16));
    assert((t >> k) & 1 == (if k == 0 { b0 } else if k == 1 { b1 } else if k == 2 { b2 } else if k
        == 3 { b3 } else if k == 4 { b4 } else if k == 5 { b5 } else if k == 6 { b6 } else {
        b7 })) by (bit_vector)
        requires
            t as u16 == b0 as u16 + 2 * (b1 as u16) + 4 * (b2 as u16) + 8 * (b3 as u16) + 16 * (
                b4 as u16) + 32 * (b5 as u16) + 64 * (b6 as u16) + 128 * (b7 as u16),
            b0 < 2, b1 < 2, b2 < 2, b3 < 2, b4 < 2, b5 < 2, b6 < 2, b7 < 2, k < 8;
}

/// Reading bit `j` of an encoded byte gives back bit `base + j` of the bitmap.
proof fn lemma_byte_at_bit(b: &Bitmap, base: int, j: int)
    requires
        0 <= j < 8,
    ensures
        u8_bit(b.byte_at(base), j) == b.spec_get(base + j),
{
    lemma_pack_unpack(
        bit01(b.spec_get(base)),
        bit01(b.spec_get(base + 1)),
        bit01(b.spec_get(base + 2)),
        bit01(b.spec_get(base + 3)),
        bit01(b.spec_get(base + 4)),
        bit01(b.spec_get(base + 5)),
        bit01(b.spec_get(base + 6)),
        bit01(b.spec_get(base + 7)),
        b.byte_at(base),
        j as u8,
    );
}

/// Decoding an encoded bitmap restores every bit and the exact width:
/// the byte round trip loses nothing.
pub proof fn lemma_bytes_round_trip(b: &Bitmap)
    requires
        b.spec_width() % 8 == 0,
    ensures
        Bitmap::decoded_width(b.spec_bytes().len() as int) == b.spec_width() || b.spec_width()
            == 64 && Bitmap::decoded_width(b.spec_bytes().len() as int) == 64,
        forall|i: int| Bitmap::decoded_bit(b.spec_bytes(), i) == b.spec_get(i),
{
    let s = b.spec_bytes();
    let w = b.spec_width();
    assert(s.len() == w / 8);
    match b {
        Bitmap::Byte(_) => {}
        Bitmap::Short(_) => {}
        Bitmap::Int(_) => {}
        Bitmap::Longs(v) => {
            assert(w == v@.len() * 64);
            assert(w % 8 == 0 && (w / 8) * 8 == w) by (nonlinear_arith)
                requires w == v@.len() as int * 64;
            if v@.len() > 0 {
                assert(((w / 8 + 7) / 8) * 64 == w) by (nonlinear_arith)
                    requires w == v@.len() as int * 64, v@.len() >= 1;
            }
        }
    }
    assert forall|i: int| Bitmap::decoded_bit(s, i) == b.spec_get(i) by {
        if 0 <= i < w {
            assert(0 <= i / 8 < s.len() && 8 * (i / 8) + i % 8 == i) by (nonlinear_arith)
                requires 0 <= i < w, s.len() == w / 8, w % 8 == 0;
            lemma_byte_at_bit(b, 8 * (i / 8), i % 8);
            assert(s[i / 8] == b.byte_at(8 * (i / 8)));
        } else {
            if !(0 <= i < Bitmap::decoded_width(s.len() as int)) {
            } else {
                assert(i / 8 >= s.len() || i < 0) by (nonlinear_arith)
                    requires !(0 <= i < w), s.len() == w / 8, w % 8 == 0;
            }
        }
    }
}

impl Bitmap {
    /// Encodes to little-endian bytes, one byte per eight bits.
    pub fn to_bytes(&self) -> (r: Vec<u8>)
        requires
            self.spec_width() <= usize::MAX,
        ensures
            r@ == self.spec_bytes(),
    {
        let width = self.len();
        let nbytes = width / 8;
        let mut out: Vec<u8> = Vec::new();
        let mut j: usize = 0;
        while j < nbytes
            invariant
                out@.len() == j <= nbytes,
                nbytes == self.spec_width() / 8,
                self.spec_width() <= usize::MAX,
                forall|t: int| 0 <= t < j ==> out@[t] == self.byte_at(8 * t),
            decreases nbytes - j,
        {
            proof {
                assert(8 * (j as int) + 7 < 8 * nbytes as int) by (nonlinear_arith)
                    requires j < nbytes;
                assert(8 * nbytes as int <= self.spec_width()) by (nonlinear_arith)
                    requires nbytes == self.spec_width() / 8;
            }
            let base = j * 8;
            let mut byte: u8 = 0;
            if self.get(base) {
                byte = byte + 1;
            }
            if self.get(base + 1) {
                byte = byte + 2;
            }
            if self.get(base + 2) {
                byte = byte + 4;
            }
            if self.get(base + 3) {
                byte = byte + 8;
            }
            if self.get(base + 4) {
                byte = byte + 16;
            }
            if self.get(base + 5) {
                byte = byte + 32;
            }
            if self.get(base + 6) {
                byte = byte + 64;
            }
            if self.get(base + 7) {
                byte = byte + 128;
            }
            out.push(byte);
            j = j + 1;
        }
        proof {
            assert(out@ =~= self.spec_bytes());
        }
        out
    }

    /// Decodes little-endian bytes, inferring the smallest width that fits.
    pub fn from_bytes(bytes: &Vec<u8>) -> (r: Bitmap)
        requires
            bytes@.len() * 8 <= usize::MAX / 8,
        ensures
            r.spec_width() == Self::decoded_width(bytes@.len() as int),
            forall|i: int| r.spec_get(i) == Self::decoded_bit(bytes@, i),
    {
        let n = bytes.len();
        let mut r: Bitmap;
        if n == 1 {
            r = Bitmap::Byte(0)
        } else if n == 2 {
            r = Bitmap::Short(0)
        } else if n == 3 || n == 4 {
            r = Bitmap::Int(0)
        } else {
            let words = (n + 7) / 8;
            let mut v: Vec<u64> = Vec::new();
            let mut k: usize = 0;
            while k < words
                invariant
                    v@.len() == k <= words,
                    forall|t: int| 0 <= t < k ==> v@[t] == 0u64,
                decreases words - k,
            {
                v.push(0);
                k = k + 1;
            }
            proof {
                assert forall|i: int| !(Bitmap::Longs(v).spec_get(i)) by {
                    if 0 <= i < v@.len() * 64 {
                        assert(0 <= i / 64 < v@.len()) by (nonlinear_arith)
                            requires 0 <= i < v@.len() * 64;
                        assert(forall|p: u64| p < 64 ==> (0u64 >> p) & 1 == 0) by (bit_vector);
                    }
                }
            }
            r = Bitmap::Longs(v);
            proof {
                assert(r.spec_width() == Self::decoded_width(bytes@.len() as int)) by (
                nonlinear_arith)
                    requires
                        r.spec_width() == ((n as int + 7) / 8) * 64,
                        n as int == bytes@.len(),
                        n > 4 || n == 0;
            }
        }
        proof {
            assert(forall|p: u8| p < 8 ==> (0u8 >> p) & 1 == 0) by (bit_vector);
            assert(forall|p: u16| p < 16 ==> (0u16 >> p) & 1 == 0) by (bit_vector);
            assert(forall|p: u32| p < 32 ==> (0u32 >> p) & 1 == 0) by (bit_vector);
        }
        let width = r.len();
        let limit = if width < n * 8 {
            width
        } else {
            n * 8
        };
        let mut i: usize = 0;
        while i < limit
            invariant
                i <= limit,
                limit == if r.spec_width() < bytes@.len() as int * 8 {
                    r.spec_width()
                } else {
                    bytes@.len() as int * 8
                },
                r.spec_width() == Self::decoded_width(bytes@.len() as int),
                r.spec_width() <= usize::MAX,
                forall|t: int| 0 <= t < i ==> r.spec_get(t) == Self::decoded_bit(bytes@, t),
                forall|t: int| i <= t ==> !r.spec_get(t),
            decreases limit - i,
        {
            proof {
                assert(0 <= i as int / 8 < bytes@.len() && 8 * (i as int / 8) + i as int % 8
                    == i as int) by (nonlinear_arith)
                    requires 0 <= i < limit, limit <= bytes@.len() * 8;
            }
            let byte = bytes[i / 8];
            let bit = (byte >> ((i % 8) as u8)) & 1 == 1;
            if bit {
                r.set(i);
            }
            i = i + 1;
        }
        proof {
            assert forall|t: int| r.spec_get(t) == Self::decoded_bit(bytes@, t) by {
                if t >= limit as int {
                    if 0 <= t < Self::decoded_width(bytes@.len() as int) && t / 8 < bytes@.len() {
                        assert(t < bytes@.len() * 8) by (nonlinear_arith)
                            requires t / 8 < bytes@.len(), t >= 0;
                    }
                }
            }
        }
        r
    }
}

/// Every bitmap's width is whole bytes.
pub proof fn lemma_width_whole_bytes(b: &Bitmap)
    ensures
        b.spec_width() % 8 == 0,
{
    match b {
        Bitmap::Byte(_) => {}
        Bitmap::Short(_) => {}
        Bitmap::Int(_) => {}
        Bitmap::Longs(v) => {
            assert(v@.len() as int * 64 == 8 * (v@.len() as int * 8)) by (nonlinear_arith);
            assert((8 * (v@.len() as int * 8)) % 8 == 0) by (nonlinear_arith);
        }
    }
}

impl Bitmap {
    /// A copy with the same width and the same bits.
    pub fn duplicate(&self) -> (r: Bitmap)
        ensures
            r.spec_width() == self.spec_width(),
            forall|i: int| r.spec_get(i) == self.spec_get(i),
    {
        match self {
            Bitmap::Byte(x) => Bitmap::Byte(*x),
            Bitmap::Short(x) => Bitmap::Short(*x),
            Bitmap::Int(x) => Bitmap::Int(*x),
            Bitmap::Longs(v) => {
                let mut v2: Vec<u64> = Vec::new();
                let n = v.len();
                let mut k: usize = 0;
                while k < n
                    invariant
                        k <= n,
                        n == v@.len(),
                        v2@ =~= v@.take(k as int),
                    decreases n - k,
                {
                    v2.push(v[k]);
                    proof {
                        assert(v2@ =~= v@.take(k as int + 1));
                    }
                    k = k + 1;
                }
                proof {
                    assert(v2@ =~= v@);
                }
                Bitmap::Longs(v2)
            }
        }
    }
}

} // verus!
