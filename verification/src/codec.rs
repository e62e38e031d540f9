//! Canonical byte encoding.
//!
//! Integers are little endian, booleans are one byte, byte arrays are written
//! as they are, a sequence is its length in four bytes followed by its items,
//! and a record is its fields, one after another. A value has exactly one
//! encoding, and no encoding is a proper prefix of another encoding of the same
//! type.

use vstd::prelude::*;

verus! {

/// The `w` low-order bytes of `n`, least significant byte first.
pub open spec fn le(n: nat, w: nat) -> Seq<u8>
    decreases w,
{
    if w == 0 {
        Seq::empty()
    } else {
        seq![(n % 256) as u8] + le(n / 256, (w - 1) as nat)
    }
}

/// The number whose little-endian bytes are `s`.
pub open spec fn le_value(s: Seq<u8>) -> nat
    decreases s.len(),
{
    if s.len() == 0 {
        0
    } else {
        s[0] as nat + 256 * le_value(s.drop_first())
    }
}

/// How many values `w` bytes can hold.
pub open spec fn pow256(w: nat) -> nat
    decreases w,
{
    if w == 0 {
        1
    } else {
        256 * pow256((w - 1) as nat)
    }
}

/// `bytes` holds `part` at position `pos`.
pub open spec fn holds_at(bytes: Seq<u8>, pos: int, part: Seq<u8>) -> bool {
    &&& 0 <= pos
    &&& pos + part.len() <= bytes.len()
    &&& bytes.subrange(pos, pos + part.len()) == part
}

pub proof fn lemma_le_len(n: nat, w: nat)
    ensures
        le(n, w).len() == w,
    decreases w,
{
    if w > 0 {
        lemma_le_len(n / 256, (w - 1) as nat);
    }
}

pub proof fn lemma_le_value_bound(s: Seq<u8>)
    ensures
        le_value(s) < pow256(s.len()),
    decreases s.len(),
{
    if s.len() > 0 {
        lemma_le_value_bound(s.drop_first());
    }
}

/// Reading back what was written gives the number, if it fits.
pub proof fn lemma_value_of_le(n: nat, w: nat)
    requires
        n < pow256(w),
    ensures
        le_value(le(n, w)) == n,
    decreases w,
{
    if w > 0 {
        lemma_value_of_le(n / 256, (w - 1) as nat);
        lemma_le_len(n, w);
        assert(le(n, w).drop_first() =~= le(n / 256, (w - 1) as nat));
    }
}

/// Writing what was read gives the bytes.
pub proof fn lemma_le_of_value(s: Seq<u8>)
    ensures
        le(le_value(s), s.len()) == s,
    decreases s.len(),
{
    if s.len() > 0 {
        let rest = s.drop_first();
        lemma_le_of_value(rest);
        let v = le_value(s);
        assert(v % 256 == s[0] as nat && v / 256 == le_value(rest));
        assert(le(v, s.len()) =~= s);
    } else {
        assert(le(0, 0) =~= s);
    }
}

pub proof fn lemma_pow256_values()
    ensures
        pow256(1) == 0x100,
        pow256(2) == 0x1_0000,
        pow256(4) == 0x1_0000_0000,
        pow256(8) == 0x1_0000_0000_0000_0000,
        pow256(16) == 0x1_0000_0000_0000_0000_0000_0000_0000_0000,
{
    reveal_with_fuel(pow256, 17);
}

pub proof fn lemma_pow256_monotone(a: nat, b: nat)
    requires
        a <= b,
    ensures
        pow256(a) <= pow256(b),
    decreases b,
{
    if a < b {
        lemma_pow256_monotone(a, (b - 1) as nat);
    }
}

/// A concatenation is held exactly when its parts are held one after another.
pub proof fn lemma_holds_split(bytes: Seq<u8>, pos: int, a: Seq<u8>, b: Seq<u8>)
    ensures
        holds_at(bytes, pos, a + b) <==> holds_at(bytes, pos, a) && holds_at(
            bytes,
            pos + a.len(),
            b,
        ),
{
    let whole = bytes.subrange(pos, pos + (a + b).len());
    if holds_at(bytes, pos, a + b) {
        assert(bytes.subrange(pos, pos + a.len()) =~= a) by {
            assert forall|i: int| 0 <= i < a.len() implies bytes[pos + i] == a[i] by {
                assert(whole[i] == (a + b)[i]);
            }
        }
        assert(bytes.subrange(pos + a.len(), pos + a.len() + b.len()) =~= b) by {
            assert forall|i: int| 0 <= i < b.len() implies bytes[pos + a.len() + i] == b[i] by {
                assert(whole[a.len() + i] == (a + b)[a.len() + i]);
            }
        }
    }
    if holds_at(bytes, pos, a) && holds_at(bytes, pos + a.len(), b) {
        let left = bytes.subrange(pos, pos + a.len());
        let right = bytes.subrange(pos + a.len(), pos + a.len() + b.len());
        assert(whole =~= a + b) by {
            assert forall|i: int| 0 <= i < (a + b).len() implies whole[i] == (a + b)[i] by {
                if i < a.len() {
                    assert(left[i] == a[i]);
                } else {
                    assert(right[i - a.len()] == b[i - a.len()]);
                }
            }
        }
    }
}

pub proof fn lemma_append_assoc(a: Seq<u8>, b: Seq<u8>, c: Seq<u8>)
    ensures
        (a + b) + c == a + (b + c),
{
    assert((a + b) + c =~= a + (b + c));
}

/// Appends the `w` low-order bytes of `n`, least significant byte first.
pub fn put_le_wide(out: &mut Vec<u8>, n: u128, w: usize)
    ensures
        final(out)@ == old(out)@ + le(n as nat, w as nat),
{
    let mut rest: u128 = n;
    let mut i: usize = 0;
    assert(old(out)@ + le(n as nat, w as nat) =~= out@ + le(rest as nat, (w - i) as nat));
    while i < w
        invariant
            i <= w,
            old(out)@ + le(n as nat, w as nat) == out@ + le(rest as nat, (w - i) as nat),
        decreases w - i,
    {
        let ghost before = out@;
        let ghost tail = le((rest / 256) as nat, (w - i - 1) as nat);
        let byte: u8 = (rest % 256) as u8;
        out.push(byte);
        assert(before + (seq![byte] + tail) =~= out@ + tail);
        rest = rest / 256;
        i += 1;
    }
    assert(out@ + le(rest as nat, 0) =~= out@);
}

/// The number in the `w` bytes at `pos`.
pub fn get_le_wide(bytes: &[u8], pos: usize, w: usize) -> (n: u128)
    requires
        pos + w <= bytes@.len(),
        w <= 16,
    ensures
        n as nat == le_value(bytes@.subrange(pos as int, pos + w)),
{
    let mut n: u128 = 0;
    let mut i: usize = w;
    let ghost field = bytes@.subrange(pos as int, pos + w);
    proof {
        assert(field.subrange(w as int, w as int) =~= Seq::<u8>::empty());
    }
    while i > 0
        invariant
            i <= w <= 16,
            pos + w <= bytes.len(),
            field == bytes@.subrange(pos as int, pos + w),
            n as nat == le_value(field.subrange(i as int, w as int)),
        decreases i,
    {
        i -= 1;
        let ghost part = field.subrange(i as int, w as int);
        proof {
            assert(part.drop_first() =~= field.subrange(i + 1, w as int));
            lemma_le_value_bound(part);
            lemma_pow256_values();
            lemma_pow256_monotone(part.len(), 16);
            assert(part[0] == bytes@[pos + i]);
        }
        n = bytes[pos + i] as u128 + 256 * n;
    }
    proof {
        assert(field.subrange(0, w as int) =~= field);
    }
    n
}

/// Appends the `w` low-order bytes of `n`, least significant byte first.
pub fn put_le(out: &mut Vec<u8>, n: u64, w: usize)
    ensures
        final(out)@ == old(out)@ + le(n as nat, w as nat),
{
    put_le_wide(out, n as u128, w);
}

/// The number in the `w` bytes at `pos`.
pub fn get_le(bytes: &[u8], pos: usize, w: usize) -> (n: u64)
    requires
        pos + w <= bytes@.len(),
        w <= 8,
    ensures
        n as nat == le_value(bytes@.subrange(pos as int, pos + w)),
{
    proof {
        let field = bytes@.subrange(pos as int, pos + w);
        lemma_le_value_bound(field);
        lemma_pow256_values();
        lemma_pow256_monotone(field.len(), 8);
    }
    get_le_wide(bytes, pos, w) as u64
}

/// Appends a slice.
pub fn put_bytes(out: &mut Vec<u8>, part: &[u8])
    ensures
        final(out)@ == old(out)@ + part@,
{
    out.extend_from_slice(part);
    assert(out@ =~= old(out)@ + part@);
}

/// Whether two byte slices hold the same bytes.
pub fn same_bytes(a: &[u8], b: &[u8]) -> (same: bool)
    ensures
        same == (a@ == b@),
{
    if a.len() != b.len() {
        return false;
    }
    let mut i: usize = 0;
    while i < a.len()
        invariant
            i <= a@.len(),
            a@.len() == b@.len(),
            forall|j: int| 0 <= j < i ==> a@[j] == b@[j],
        decreases a@.len() - i,
    {
        if a[i] != b[i] {
            return false;
        }
        i += 1;
    }
    assert(a@ =~= b@);
    true
}

/// Whether two arrays of bytes are equal.
pub fn same_array<const N: usize>(a: &[u8; N], b: &[u8; N]) -> (same: bool)
    ensures
        same == (*a == *b),
{
    let same = same_bytes(a, b);
    proof {
        if a@ == b@ {
            assert(*a =~= *b);
        }
    }
    same
}

/// A type with a canonical encoding.
pub trait Codec: Sized {
    /// What a value stands for.
    type Model;

    spec fn model(&self) -> Self::Model;

    /// The value has an encoding: every sequence in it is short enough for its
    /// length to be written in four bytes.
    spec fn encodable(m: Self::Model) -> bool;

    /// The encoding.
    spec fn wire(m: Self::Model) -> Seq<u8>;

    /// No encoding is a proper prefix of another, and different values have
    /// different encodings.
    proof fn prefix_free(a: Self::Model, b: Self::Model, bytes: Seq<u8>, pos: int)
        requires
            Self::encodable(a),
            Self::encodable(b),
            holds_at(bytes, pos, Self::wire(a)),
            holds_at(bytes, pos, Self::wire(b)),
        ensures
            a == b,
    ;

    /// Appends the encoding. Returns `false`, with `out` left to be discarded,
    /// if the value has none.
    fn encode(&self, out: &mut Vec<u8>) -> (ok: bool)
        ensures
            ok == Self::encodable(self.model()),
            ok ==> final(out)@ == old(out)@ + Self::wire(self.model()),
    ;

    /// Reads the value whose encoding starts at `pos`, and returns it with the
    /// position behind it. Returns `None` if no encoding starts there.
    fn decode(bytes: &[u8], pos: usize) -> (r: Option<(Self, usize)>)
        requires
            pos <= bytes@.len(),
        ensures
            r matches Some((v, end)) ==> {
                &&& Self::encodable(v.model())
                &&& holds_at(bytes@, pos as int, Self::wire(v.model()))
                &&& end == pos + Self::wire(v.model()).len()
            },
            forall|m: Self::Model|
                Self::encodable(m) && holds_at(bytes@, pos as int, #[trigger] Self::wire(m)) ==> {
                    &&& r matches Some((v, end))
                    &&& v.model() == m
                    &&& end == pos + Self::wire(m).len()
                },
    ;
}

impl Codec for u8 {
    type Model = u8;

    open spec fn model(&self) -> u8 {
        *self
    }

    open spec fn encodable(m: u8) -> bool {
        true
    }

    open spec fn wire(m: u8) -> Seq<u8> {
        seq![m]
    }

    proof fn prefix_free(a: u8, b: u8, bytes: Seq<u8>, pos: int) {
        assert(Self::wire(a)[0] == Self::wire(b)[0]);
    }

    fn encode(&self, out: &mut Vec<u8>) -> (ok: bool) {
        out.push(*self);
        assert(out@ =~= old(out)@ + seq![*self]);
        true
    }

    fn decode(bytes: &[u8], pos: usize) -> (r: Option<(Self, usize)>) {
        if pos >= bytes.len() {
            return None;
        }
        let byte: u8 = bytes[pos];
        assert(bytes@.subrange(pos as int, pos + 1) =~= seq![byte]);
        assert(forall|m: u8|
            holds_at(bytes@, pos as int, #[trigger] Self::wire(m)) ==> Self::wire(m)[0] == byte);
        Some((byte, pos + 1))
    }
}

impl Codec for bool {
    type Model = bool;

    open spec fn model(&self) -> bool {
        *self
    }

    open spec fn encodable(m: bool) -> bool {
        true
    }

    open spec fn wire(m: bool) -> Seq<u8> {
        seq![if m { 1u8 } else { 0u8 }]
    }

    proof fn prefix_free(a: bool, b: bool, bytes: Seq<u8>, pos: int) {
        assert(Self::wire(a)[0] == Self::wire(b)[0]);
    }

    fn encode(&self, out: &mut Vec<u8>) -> (ok: bool) {
        let byte: u8 = if *self { 1 } else { 0 };
        out.push(byte);
        assert(out@ =~= old(out)@ + seq![byte]);
        true
    }

    fn decode(bytes: &[u8], pos: usize) -> (r: Option<(Self, usize)>) {
        if pos >= bytes.len() {
            return None;
        }
        let byte: u8 = bytes[pos];
        assert(bytes@.subrange(pos as int, pos + 1) =~= seq![byte]);
        assert(forall|m: bool|
            holds_at(bytes@, pos as int, #[trigger] Self::wire(m)) ==> Self::wire(m)[0] == byte);
        if byte == 0 {
            Some((false, pos + 1))
        } else if byte == 1 {
            Some((true, pos + 1))
        } else {
            None
        }
    }
}

impl Codec for u16 {
    type Model = u16;

    open spec fn model(&self) -> u16 {
        *self
    }

    open spec fn encodable(m: u16) -> bool {
        true
    }

    open spec fn wire(m: u16) -> Seq<u8> {
        le(m as nat, 2)
    }

    proof fn prefix_free(a: u16, b: u16, bytes: Seq<u8>, pos: int) {
        lemma_pow256_values();
        lemma_le_len(a as nat, 2);
        lemma_le_len(b as nat, 2);
        lemma_value_of_le(a as nat, 2);
        lemma_value_of_le(b as nat, 2);
    }

    fn encode(&self, out: &mut Vec<u8>) -> (ok: bool) {
        put_le(out, *self as u64, 2);
        true
    }

    fn decode(bytes: &[u8], pos: usize) -> (r: Option<(Self, usize)>) {
        proof {
            lemma_pow256_values();
            assert forall|m: u16| le(m as nat, 2).len() == 2 && le_value(le(m as nat, 2)) == m by {
                lemma_le_len(m as nat, 2);
                lemma_value_of_le(m as nat, 2);
            }
        }
        if bytes.len() - pos < 2 {
            return None;
        }
        let n: u64 = get_le(bytes, pos, 2);
        proof {
            let field = bytes@.subrange(pos as int, pos + 2);
            lemma_le_value_bound(field);
            lemma_le_of_value(field);
        }
        Some((n as u16, pos + 2))
    }
}

impl Codec for u32 {
    type Model = u32;

    open spec fn model(&self) -> u32 {
        *self
    }

    open spec fn encodable(m: u32) -> bool {
        true
    }

    open spec fn wire(m: u32) -> Seq<u8> {
        le(m as nat, 4)
    }

    proof fn prefix_free(a: u32, b: u32, bytes: Seq<u8>, pos: int) {
        lemma_pow256_values();
        lemma_le_len(a as nat, 4);
        lemma_le_len(b as nat, 4);
        lemma_value_of_le(a as nat, 4);
        lemma_value_of_le(b as nat, 4);
    }

    fn encode(&self, out: &mut Vec<u8>) -> (ok: bool) {
        put_le(out, *self as u64, 4);
        true
    }

    fn decode(bytes: &[u8], pos: usize) -> (r: Option<(Self, usize)>) {
        proof {
            lemma_pow256_values();
            assert forall|m: u32| le(m as nat, 4).len() == 4 && le_value(le(m as nat, 4)) == m by {
                lemma_le_len(m as nat, 4);
                lemma_value_of_le(m as nat, 4);
            }
        }
        if bytes.len() - pos < 4 {
            return None;
        }
        let n: u64 = get_le(bytes, pos, 4);
        proof {
            let field = bytes@.subrange(pos as int, pos + 4);
            lemma_le_value_bound(field);
            lemma_le_of_value(field);
        }
        Some((n as u32, pos + 4))
    }
}

impl Codec for u64 {
    type Model = u64;

    open spec fn model(&self) -> u64 {
        *self
    }

    open spec fn encodable(m: u64) -> bool {
        true
    }

    open spec fn wire(m: u64) -> Seq<u8> {
        le(m as nat, 8)
    }

    proof fn prefix_free(a: u64, b: u64, bytes: Seq<u8>, pos: int) {
        lemma_pow256_values();
        lemma_le_len(a as nat, 8);
        lemma_le_len(b as nat, 8);
        lemma_value_of_le(a as nat, 8);
        lemma_value_of_le(b as nat, 8);
    }

    fn encode(&self, out: &mut Vec<u8>) -> (ok: bool) {
        put_le(out, *self, 8);
        true
    }

    fn decode(bytes: &[u8], pos: usize) -> (r: Option<(Self, usize)>) {
        proof {
            lemma_pow256_values();
            assert forall|m: u64| le(m as nat, 8).len() == 8 && le_value(le(m as nat, 8)) == m by {
                lemma_le_len(m as nat, 8);
                lemma_value_of_le(m as nat, 8);
            }
        }
        if bytes.len() - pos < 8 {
            return None;
        }
        let n: u64 = get_le(bytes, pos, 8);
        proof {
            lemma_le_of_value(bytes@.subrange(pos as int, pos + 8));
        }
        Some((n, pos + 8))
    }
}

impl Codec for u128 {
    type Model = u128;

    open spec fn model(&self) -> u128 {
        *self
    }

    open spec fn encodable(m: u128) -> bool {
        true
    }

    open spec fn wire(m: u128) -> Seq<u8> {
        le(m as nat, 16)
    }

    proof fn prefix_free(a: u128, b: u128, bytes: Seq<u8>, pos: int) {
        lemma_pow256_values();
        lemma_le_len(a as nat, 16);
        lemma_le_len(b as nat, 16);
        lemma_value_of_le(a as nat, 16);
        lemma_value_of_le(b as nat, 16);
    }

    fn encode(&self, out: &mut Vec<u8>) -> (ok: bool) {
        put_le_wide(out, *self, 16);
        true
    }

    fn decode(bytes: &[u8], pos: usize) -> (r: Option<(Self, usize)>) {
        proof {
            lemma_pow256_values();
            assert forall|m: u128| le(m as nat, 16).len() == 16 && le_value(le(m as nat, 16)) == m by {
                lemma_le_len(m as nat, 16);
                lemma_value_of_le(m as nat, 16);
            }
        }
        if bytes.len() - pos < 16 {
            return None;
        }
        let n: u128 = get_le_wide(bytes, pos, 16);
        proof {
            lemma_le_of_value(bytes@.subrange(pos as int, pos + 16));
        }
        Some((n, pos + 16))
    }
}

impl<const N: usize> Codec for [u8; N] {
    type Model = [u8; N];

    open spec fn model(&self) -> [u8; N] {
        *self
    }

    open spec fn encodable(m: [u8; N]) -> bool {
        true
    }

    open spec fn wire(m: [u8; N]) -> Seq<u8> {
        m@
    }

    proof fn prefix_free(a: [u8; N], b: [u8; N], bytes: Seq<u8>, pos: int) {
        assert(a@ == b@);
        assert(a =~= b);
    }

    fn encode(&self, out: &mut Vec<u8>) -> (ok: bool) {
        put_bytes(out, self);
        true
    }

    fn decode(bytes: &[u8], pos: usize) -> (r: Option<(Self, usize)>) {
        if bytes.len() - pos < N {
            return None;
        }
        let mut field: [u8; N] = [0u8; N];
        let mut i: usize = 0;
        while i < N
            invariant
                i <= N,
                pos + N <= bytes.len(),
                forall|j: int| 0 <= j < i ==> field@[j] == bytes@[pos + j],
            decreases N - i,
        {
            field[i] = bytes[pos + i];
            i += 1;
        }
        proof {
            assert(bytes@.subrange(pos as int, pos + N) =~= field@);
            assert forall|m: [u8; N]| holds_at(bytes@, pos as int, #[trigger] m@) implies m
                == field by {
                assert(m =~= field);
            }
        }
        Some((field, pos + N))
    }
}

/// The encodings of the items, one after another.
pub open spec fn wire_items<T: Codec>(ms: Seq<T::Model>) -> Seq<u8>
    decreases ms.len(),
{
    if ms.len() == 0 {
        Seq::empty()
    } else {
        wire_items::<T>(ms.drop_last()) + T::wire(ms.last())
    }
}

/// What the items of a vector stand for.
pub open spec fn models<T: Codec>(items: Seq<T>) -> Seq<T::Model> {
    items.map_values(|item: T| item.model())
}

pub proof fn lemma_wire_items_split<T: Codec>(ms: Seq<T::Model>, k: int)
    requires
        0 <= k < ms.len(),
    ensures
        wire_items::<T>(ms) == wire_items::<T>(ms.take(k)) + (T::wire(ms[k]) + wire_items::<T>(
            ms.skip(k + 1),
        )),
        wire_items::<T>(ms.take(k + 1)) == wire_items::<T>(ms.take(k)) + T::wire(ms[k]),
    decreases ms.len(),
{
    assert(ms.take(k + 1).drop_last() =~= ms.take(k));
    if k == ms.len() - 1 {
        assert(ms.take(k + 1) =~= ms);
        assert(ms.skip(k + 1) =~= Seq::empty());
        assert(T::wire(ms[k]) + wire_items::<T>(ms.skip(k + 1)) =~= T::wire(ms[k]));
    } else {
        let front = ms.drop_last();
        lemma_wire_items_split::<T>(front, k);
        assert(front.take(k) =~= ms.take(k));
        assert(front.skip(k + 1) =~= ms.skip(k + 1).drop_last());
        assert(ms.skip(k + 1).last() == ms.last());
        assert(wire_items::<T>(ms) =~= wire_items::<T>(ms.take(k)) + (T::wire(ms[k]) + wire_items::<
            T,
        >(ms.skip(k + 1))));
    }
}

/// Bytes encode to themselves.
pub proof fn lemma_wire_items_bytes(bytes: Seq<u8>)
    ensures
        wire_items::<u8>(bytes) == bytes,
    decreases bytes.len(),
{
    if bytes.len() > 0 {
        lemma_wire_items_bytes(bytes.drop_last());
        assert(bytes.drop_last() + seq![bytes.last()] =~= bytes);
    } else {
        assert(bytes =~= Seq::<u8>::empty());
    }
}

/// Items of bounded length have encodings of bounded length.
pub proof fn lemma_wire_items_bound<T: Codec>(ms: Seq<T::Model>, bound: nat)
    requires
        forall|i: int| 0 <= i < ms.len() ==> T::wire(#[trigger] ms[i]).len() <= bound,
    ensures
        wire_items::<T>(ms).len() <= bound * ms.len(),
    decreases ms.len(),
{
    if ms.len() > 0 {
        let front = ms.drop_last();
        assert forall|i: int| 0 <= i < front.len() implies T::wire(#[trigger] front[i]).len()
            <= bound by {
            assert(front[i] == ms[i]);
        }
        lemma_wire_items_bound::<T>(front, bound);
        assert(T::wire(ms[ms.len() - 1]).len() <= bound);
        assert(bound * front.len() + bound == bound * ms.len()) by (nonlinear_arith)
            requires
                front.len() + 1 == ms.len(),
        ;
    } else {
        assert(bound * 0 == 0) by (nonlinear_arith);
    }
}

proof fn lemma_items_prefix_free<T: Codec>(
    a: Seq<T::Model>,
    b: Seq<T::Model>,
    bytes: Seq<u8>,
    pos: int,
    k: int,
)
    requires
        a.len() == b.len(),
        0 <= k <= a.len(),
        forall|i: int| 0 <= i < a.len() ==> T::encodable(#[trigger] a[i]),
        forall|i: int| 0 <= i < b.len() ==> T::encodable(#[trigger] b[i]),
        holds_at(bytes, pos, wire_items::<T>(a)),
        holds_at(bytes, pos, wire_items::<T>(b)),
    ensures
        a.take(k) == b.take(k),
    decreases k,
{
    if k == 0 {
        assert(a.take(0) =~= b.take(0));
    } else {
        let i = k - 1;
        lemma_items_prefix_free::<T>(a, b, bytes, pos, i);
        lemma_wire_items_split::<T>(a, i);
        lemma_wire_items_split::<T>(b, i);
        let front = wire_items::<T>(a.take(i));
        let at = pos + front.len();
        lemma_holds_split(bytes, pos, front, T::wire(a[i]) + wire_items::<T>(a.skip(k)));
        lemma_holds_split(bytes, pos, front, T::wire(b[i]) + wire_items::<T>(b.skip(k)));
        lemma_holds_split(bytes, at, T::wire(a[i]), wire_items::<T>(a.skip(k)));
        lemma_holds_split(bytes, at, T::wire(b[i]), wire_items::<T>(b.skip(k)));
        T::prefix_free(a[i], b[i], bytes, at);
        assert(a.take(k) =~= a.take(i).push(a[i]));
        assert(b.take(k) =~= b.take(i).push(b[i]));
    }
}

impl<T: Codec> Codec for Vec<T> {
    type Model = Seq<T::Model>;

    open spec fn model(&self) -> Seq<T::Model> {
        models::<T>(self@)
    }

    open spec fn encodable(m: Seq<T::Model>) -> bool {
        &&& m.len() <= u32::MAX
        &&& forall|i: int| 0 <= i < m.len() ==> T::encodable(#[trigger] m[i])
    }

    open spec fn wire(m: Seq<T::Model>) -> Seq<u8> {
        le(m.len(), 4) + wire_items::<T>(m)
    }

    proof fn prefix_free(a: Seq<T::Model>, b: Seq<T::Model>, bytes: Seq<u8>, pos: int) {
        lemma_holds_split(bytes, pos, le(a.len(), 4), wire_items::<T>(a));
        lemma_holds_split(bytes, pos, le(b.len(), 4), wire_items::<T>(b));
        lemma_le_len(a.len(), 4);
        lemma_le_len(b.len(), 4);
        lemma_pow256_values();
        lemma_value_of_le(a.len(), 4);
        lemma_value_of_le(b.len(), 4);
        lemma_items_prefix_free::<T>(a, b, bytes, pos + 4, a.len() as int);
        assert(a.take(a.len() as int) =~= a);
        assert(b.take(b.len() as int) =~= b);
    }

    fn encode(&self, out: &mut Vec<u8>) -> (ok: bool) {
        let ghost ms = self.model();
        if self.len() as u64 > u32::MAX as u64 {
            return false;
        }
        put_le(out, self.len() as u64, 4);
        let ghost base = out@;
        let mut i: usize = 0;
        assert(out@ =~= base + wire_items::<T>(ms.take(0)));
        while i < self.len()
            invariant
                i <= self@.len(),
                ms == models::<T>(self@),
                forall|j: int| 0 <= j < i ==> T::encodable(#[trigger] ms[j]),
                out@ == base + wire_items::<T>(ms.take(i as int)),
            decreases self@.len() - i,
        {
            let ok = self[i].encode(out);
            proof {
                lemma_wire_items_split::<T>(ms, i as int);
                assert(ms[i as int] == self@[i as int].model());
            }
            if !ok {
                return false;
            }
            assert(out@ =~= base + wire_items::<T>(ms.take(i + 1)));
            i += 1;
        }
        assert(ms.take(i as int) =~= ms);
        assert(out@ =~= old(out)@ + (le(ms.len(), 4) + wire_items::<T>(ms)));
        true
    }

    fn decode(bytes: &[u8], pos: usize) -> (r: Option<(Self, usize)>) {
        let header = u32::decode(bytes, pos);
        proof {
            assert forall|m: Seq<T::Model>|
                Self::encodable(m) && holds_at(bytes@, pos as int, #[trigger] Self::wire(m)) implies {
                &&& header matches Some((n, end))
                &&& n == m.len()
                &&& end == pos + 4
            } by {
                lemma_holds_split(bytes@, pos as int, le(m.len(), 4), wire_items::<T>(m));
                let n = m.len() as u32;
                assert(holds_at(bytes@, pos as int, u32::wire(n)));
                lemma_le_len(m.len(), 4);
            }
        }
        let (n, start): (u32, usize) = match header {
            Some((n, start)) => (n, start),
            None => {
                return None;
            },
        };
        proof {
            lemma_le_len(n as nat, 4);
        }
        let mut items: Vec<T> = Vec::new();
        let mut at: usize = start;
        let mut k: u32 = 0;
        assert(models::<T>(items@) =~= Seq::<T::Model>::empty());
        assert(bytes@.subrange(start as int, start as int) =~= Seq::<u8>::empty());
        while k < n
            invariant
                k <= n,
                items@.len() == k,
                start == pos + 4,
                start <= at <= bytes@.len(),
                forall|i: int| 0 <= i < k ==> T::encodable(#[trigger] models::<T>(items@)[i]),
                holds_at(bytes@, start as int, wire_items::<T>(models::<T>(items@))),
                at == start + wire_items::<T>(models::<T>(items@)).len(),
                forall|m: Seq<T::Model>|
                    Self::encodable(m) && holds_at(bytes@, pos as int, #[trigger] Self::wire(m))
                        ==> m.len() == n && models::<T>(items@) == m.take(k as int),
            decreases n - k,
        {
            let item = T::decode(bytes, at);
            let ghost done = models::<T>(items@);
            proof {
                assert forall|m: Seq<T::Model>|
                    Self::encodable(m) && holds_at(
                        bytes@,
                        pos as int,
                        #[trigger] Self::wire(m),
                    ) implies {
                    &&& item matches Some((v, end))
                    &&& v.model() == m[k as int]
                    &&& m.take(k + 1) == m.take(k as int).push(m[k as int])
                } by {
                    let front = wire_items::<T>(m.take(k as int));
                    let rest = T::wire(m[k as int]) + wire_items::<T>(m.skip(k + 1));
                    lemma_wire_items_split::<T>(m, k as int);
                    lemma_holds_split(bytes@, pos as int, le(m.len(), 4), wire_items::<T>(m));
                    lemma_le_len(m.len(), 4);
                    lemma_holds_split(bytes@, start as int, front, rest);
                    lemma_holds_split(
                        bytes@,
                        at as int,
                        T::wire(m[k as int]),
                        wire_items::<T>(m.skip(k + 1)),
                    );
                    assert(m.take(k + 1) =~= m.take(k as int).push(m[k as int]));
                }
            }
            match item {
                Some((v, end)) => {
                    let ghost vm = v.model();
                    items.push(v);
                    proof {
                        let now = models::<T>(items@);
                        assert(now =~= done.push(vm));
                        assert(now.drop_last() =~= done);
                        lemma_holds_split(
                            bytes@,
                            start as int,
                            wire_items::<T>(done),
                            T::wire(vm),
                        );
                    }
                    at = end;
                    k += 1;
                },
                None => {
                    return None;
                },
            }
        }
        proof {
            let all = models::<T>(items@);
            lemma_holds_split(bytes@, pos as int, le(all.len(), 4), wire_items::<T>(all));
            assert forall|m: Seq<T::Model>|
                Self::encodable(m) && holds_at(bytes@, pos as int, #[trigger] Self::wire(m)) implies all
                == m by {
                assert(m.take(n as int) =~= m);
            }
        }
        Some((items, at))
    }
}

impl<T: Codec> Codec for Option<T> {
    type Model = Option<T::Model>;

    open spec fn model(&self) -> Option<T::Model> {
        match self {
            Some(value) => Some(value.model()),
            None => None,
        }
    }

    open spec fn encodable(m: Option<T::Model>) -> bool {
        m matches Some(value) ==> T::encodable(value)
    }

    open spec fn wire(m: Option<T::Model>) -> Seq<u8> {
        match m {
            Some(value) => seq![1u8] + T::wire(value),
            None => seq![0u8],
        }
    }

    proof fn prefix_free(a: Option<T::Model>, b: Option<T::Model>, bytes: Seq<u8>, pos: int) {
        assert(Self::wire(a)[0] == bytes[pos]) by {
            assert(bytes.subrange(pos, pos + Self::wire(a).len())[0] == bytes[pos]);
        }
        assert(Self::wire(b)[0] == bytes[pos]) by {
            assert(bytes.subrange(pos, pos + Self::wire(b).len())[0] == bytes[pos]);
        }
        if let (Some(x), Some(y)) = (a, b) {
            lemma_holds_split(bytes, pos, seq![1u8], T::wire(x));
            lemma_holds_split(bytes, pos, seq![1u8], T::wire(y));
            T::prefix_free(x, y, bytes, pos + 1);
        }
    }

    fn encode(&self, out: &mut Vec<u8>) -> (ok: bool) {
        match self {
            Some(value) => {
                out.push(1);
                if !value.encode(out) {
                    return false;
                }
                assert(out@ =~= old(out)@ + (seq![1u8] + T::wire(value.model())));
                true
            },
            None => {
                out.push(0);
                assert(out@ =~= old(out)@ + seq![0u8]);
                true
            },
        }
    }

    fn decode(bytes: &[u8], pos: usize) -> (r: Option<(Self, usize)>) {
        if pos >= bytes.len() {
            return None;
        }
        let tag: u8 = bytes[pos];
        proof {
            assert(bytes@.subrange(pos as int, pos + 1) =~= seq![tag]);
            assert forall|m: Option<T::Model>|
                holds_at(bytes@, pos as int, #[trigger] Self::wire(m)) implies Self::wire(m)[0]
                == tag by {
                assert(bytes@.subrange(pos as int, pos + Self::wire(m).len())[0] == tag);
            }
        }
        if tag == 0 {
            return Some((None, pos + 1));
        }
        if tag != 1 {
            return None;
        }
        let inner = T::decode(bytes, pos + 1);
        proof {
            assert forall|m: Option<T::Model>|
                Self::encodable(m) && holds_at(bytes@, pos as int, #[trigger] Self::wire(m)) implies {
                &&& inner matches Some((v, end))
                &&& m == Some(v.model())
                &&& end == pos + Self::wire(m).len()
            } by {
                lemma_holds_split(bytes@, pos as int, seq![1u8], T::wire(m->0));
            }
        }
        match inner {
            Some((value, end)) => {
                proof {
                    lemma_holds_split(bytes@, pos as int, seq![1u8], T::wire(value.model()));
                }
                Some((Some(value), end))
            },
            None => None,
        }
    }
}

/// A pair is its first component followed by its second.
impl<A: Codec, B: Codec> Codec for (A, B) {
    type Model = (A::Model, B::Model);

    open spec fn model(&self) -> (A::Model, B::Model) {
        (self.0.model(), self.1.model())
    }

    open spec fn encodable(m: (A::Model, B::Model)) -> bool {
        A::encodable(m.0) && B::encodable(m.1)
    }

    open spec fn wire(m: (A::Model, B::Model)) -> Seq<u8> {
        A::wire(m.0) + B::wire(m.1)
    }

    proof fn prefix_free(
        a: (A::Model, B::Model),
        b: (A::Model, B::Model),
        bytes: Seq<u8>,
        pos: int,
    ) {
        lemma_holds_split(bytes, pos, A::wire(a.0), B::wire(a.1));
        lemma_holds_split(bytes, pos, A::wire(b.0), B::wire(b.1));
        A::prefix_free(a.0, b.0, bytes, pos);
        B::prefix_free(a.1, b.1, bytes, pos + A::wire(a.0).len());
    }

    fn encode(&self, out: &mut Vec<u8>) -> (ok: bool) {
        if !self.0.encode(out) || !self.1.encode(out) {
            return false;
        }
        proof {
            lemma_append_assoc(old(out)@, A::wire(self.0.model()), B::wire(self.1.model()));
        }
        true
    }

    fn decode(bytes: &[u8], pos: usize) -> (r: Option<(Self, usize)>) {
        let first = A::decode(bytes, pos);
        proof {
            assert forall|m: (A::Model, B::Model)|
                Self::encodable(m) && holds_at(bytes@, pos as int, #[trigger] Self::wire(m)) implies {
                &&& first matches Some((a, middle))
                &&& a.model() == m.0
                &&& middle == pos + A::wire(m.0).len()
                &&& holds_at(bytes@, middle as int, B::wire(m.1))
            } by {
                lemma_holds_split(bytes@, pos as int, A::wire(m.0), B::wire(m.1));
            }
        }
        let (a, middle): (A, usize) = match first {
            Some((a, middle)) => (a, middle),
            None => {
                return None;
            },
        };
        match B::decode(bytes, middle) {
            Some((b, end)) => {
                proof {
                    lemma_holds_split(bytes@, pos as int, A::wire(a.model()), B::wire(b.model()));
                }
                Some(((a, b), end))
            },
            None => None,
        }
    }
}

/// `bytes` are the encoding of `m`.
pub open spec fn encodes<T: Codec>(m: T::Model, bytes: Seq<u8>) -> bool {
    T::encodable(m) && T::wire(m) == bytes
}

/// No two values have the same encoding.
pub proof fn encodings_are_unique<T: Codec>(a: T::Model, b: T::Model, bytes: Seq<u8>)
    requires
        encodes::<T>(a, bytes),
        encodes::<T>(b, bytes),
    ensures
        a == b,
{
    assert(bytes.subrange(0, bytes.len() as int) =~= bytes);
    T::prefix_free(a, b, bytes, 0);
}

/// Appending anything to an encoding gives no encoding.
pub proof fn trailing_bytes_are_refused<T: Codec>(a: T::Model, b: T::Model, tail: Seq<u8>)
    requires
        T::encodable(a),
        tail.len() > 0,
    ensures
        !encodes::<T>(b, T::wire(a) + tail),
{
    let bytes = T::wire(a) + tail;
    if encodes::<T>(b, bytes) {
        assert(bytes.subrange(0, T::wire(a).len() as int) =~= T::wire(a));
        assert(bytes.subrange(0, bytes.len() as int) =~= bytes);
        T::prefix_free(a, b, bytes, 0);
    }
}

/// The encoding, or `None` if the value has none.
pub fn to_bytes<T: Codec>(value: &T) -> (r: Option<Vec<u8>>)
    ensures
        match r {
            Some(bytes) => encodes::<T>(value.model(), bytes@),
            None => !T::encodable(value.model()),
        },
{
    let mut bytes: Vec<u8> = Vec::new();
    if !value.encode(&mut bytes) {
        return None;
    }
    assert(bytes@ =~= T::wire(value.model()));
    Some(bytes)
}

/// The value whose encoding is all of `bytes`, or `None` if there is none.
pub fn from_bytes<T: Codec>(bytes: &[u8]) -> (r: Option<T>)
    ensures
        match r {
            Some(value) => encodes::<T>(value.model(), bytes@),
            None => forall|m: T::Model| !#[trigger] encodes::<T>(m, bytes@),
        },
{
    proof {
        assert(bytes@.subrange(0, bytes@.len() as int) =~= bytes@);
    }
    let decoded = T::decode(bytes, 0);
    proof {
        assert forall|m: T::Model| #[trigger] encodes::<T>(m, bytes@) implies {
            &&& decoded matches Some((v, end))
            &&& end == bytes@.len()
        } by {
            assert(holds_at(bytes@, 0, T::wire(m)));
        }
    }
    match decoded {
        Some((value, end)) => {
            if end == bytes.len() {
                Some(value)
            } else {
                None
            }
        },
        None => None,
    }
}

} // verus!
