use vstd::prelude::*;
use vstd::std_specs::bits::{axiom_u64_trailing_zeros, u64_trailing_zeros};

verus! {

/// Bit `j` of `x`.
pub open spec fn bit_of(x: u64, j: u64) -> bool {
    j < 64 && (x >> j) & 1u64 == 1u64
}

/// `x` has no bit set at or above `width`.
pub open spec fn fits_width(x: u64, width: u64) -> bool {
    x >> width == 0
}

/// An integer type whose bits a mask widget shows: its width, its signedness,
/// and its bits zero-extended to 64.
pub trait MaskBits: Copy + Sized {
    /// The number of bits of the type.
    spec fn bit_width() -> u64;

    /// Whether the type is signed (its right shift then repeats the top bit).
    spec fn is_signed() -> bool;

    /// The bits of the value, zero-extended to 64.
    spec fn raw_bits(self) -> u64;

    fn width() -> (w: u32)
        ensures
            w as u64 == Self::bit_width(),
            w == 8 || w == 16 || w == 32 || w == 64,
    ;

    fn signed() -> (s: bool)
        ensures
            s == Self::is_signed(),
    ;

    fn to_raw(self) -> (r: u64)
        ensures
            r == self.raw_bits(),
            fits_width(r, Self::bit_width()),
    ;

    fn from_raw(r: u64) -> (v: Self)
        requires
            fits_width(r, Self::bit_width()),
        ensures
            v.raw_bits() == r,
    ;

    /// Values with the same bits are the same value.
    proof fn lemma_raw_bits_injective(a: Self, b: Self)
        requires
            a.raw_bits() == b.raw_bits(),
        ensures
            a == b,
    ;
}

impl MaskBits for u8 {
    open spec fn bit_width() -> u64 {
        8
    }

    open spec fn is_signed() -> bool {
        false
    }

    open spec fn raw_bits(self) -> u64 {
        self as u64
    }

    fn width() -> (w: u32) {
        8
    }

    fn signed() -> (s: bool) {
        false
    }

    fn to_raw(self) -> (r: u64) {
        let r = self as u64;
        assert(r >> 8u64 == 0) by (bit_vector)
            requires
                r == self as u64,
        ;
        r
    }

    fn from_raw(r: u64) -> (v: Self) {
        let v = r as u8;
        assert(v as u64 == r) by (bit_vector)
            requires
                r >> 8u64 == 0,
                v == r as u8,
        ;
        v
    }

    proof fn lemma_raw_bits_injective(a: Self, b: Self) {
    }
}

impl MaskBits for i8 {
    open spec fn bit_width() -> u64 {
        8
    }

    open spec fn is_signed() -> bool {
        true
    }

    open spec fn raw_bits(self) -> u64 {
        self as u8 as u64
    }

    fn width() -> (w: u32) {
        8
    }

    fn signed() -> (s: bool) {
        true
    }

    fn to_raw(self) -> (r: u64) {
        let r = self as u8 as u64;
        assert(r >> 8u64 == 0) by (bit_vector)
            requires
                r == self as u8 as u64,
        ;
        r
    }

    fn from_raw(r: u64) -> (v: Self) {
        let v = r as u8 as i8;
        assert(v as u8 as u64 == r) by (bit_vector)
            requires
                r >> 8u64 == 0,
                v == r as u8 as i8,
        ;
        v
    }

    proof fn lemma_raw_bits_injective(a: Self, b: Self) {
        assert(a == b) by (bit_vector)
            requires
                a as u8 as u64 == b as u8 as u64,
        ;
    }
}

impl MaskBits for u16 {
    open spec fn bit_width() -> u64 {
        16
    }

    open spec fn is_signed() -> bool {
        false
    }

    open spec fn raw_bits(self) -> u64 {
        self as u64
    }

    fn width() -> (w: u32) {
        16
    }

    fn signed() -> (s: bool) {
        false
    }

    fn to_raw(self) -> (r: u64) {
        let r = self as u64;
        assert(r >> 16u64 == 0) by (bit_vector)
            requires
                r == self as u64,
        ;
        r
    }

    fn from_raw(r: u64) -> (v: Self) {
        let v = r as u16;
        assert(v as u64 == r) by (bit_vector)
            requires
                r >> 16u64 == 0,
                v == r as u16,
        ;
        v
    }

    proof fn lemma_raw_bits_injective(a: Self, b: Self) {
    }
}

impl MaskBits for u32 {
    open spec fn bit_width() -> u64 {
        32
    }

    open spec fn is_signed() -> bool {
        false
    }

    open spec fn raw_bits(self) -> u64 {
        self as u64
    }

    fn width() -> (w: u32) {
        32
    }

    fn signed() -> (s: bool) {
        false
    }

    fn to_raw(self) -> (r: u64) {
        let r = self as u64;
        assert(r >> 32u64 == 0) by (bit_vector)
            requires
                r == self as u64,
        ;
        r
    }

    fn from_raw(r: u64) -> (v: Self) {
        let v = r as u32;
        assert(v as u64 == r) by (bit_vector)
            requires
                r >> 32u64 == 0,
                v == r as u32,
        ;
        v
    }

    proof fn lemma_raw_bits_injective(a: Self, b: Self) {
    }
}

impl MaskBits for i16 {
    open spec fn bit_width() -> u64 {
        16
    }

    open spec fn is_signed() -> bool {
        true
    }

    open spec fn raw_bits(self) -> u64 {
        self as u16 as u64
    }

    fn width() -> (w: u32) {
        16
    }

    fn signed() -> (s: bool) {
        true
    }

    fn to_raw(self) -> (r: u64) {
        let r = self as u16 as u64;
        assert(r >> 16u64 == 0) by (bit_vector)
            requires
                r == self as u16 as u64,
        ;
        r
    }

    fn from_raw(r: u64) -> (v: Self) {
        let v = r as u16 as i16;
        assert(v as u16 as u64 == r) by (bit_vector)
            requires
                r >> 16u64 == 0,
                v == r as u16 as i16,
        ;
        v
    }

    proof fn lemma_raw_bits_injective(a: Self, b: Self) {
        assert(a == b) by (bit_vector)
            requires
                a as u16 as u64 == b as u16 as u64,
        ;
    }
}

impl MaskBits for i32 {
    open spec fn bit_width() -> u64 {
        32
    }

    open spec fn is_signed() -> bool {
        true
    }

    open spec fn raw_bits(self) -> u64 {
        self as u32 as u64
    }

    fn width() -> (w: u32) {
        32
    }

    fn signed() -> (s: bool) {
        true
    }

    fn to_raw(self) -> (r: u64) {
        let r = self as u32 as u64;
        assert(r >> 32u64 == 0) by (bit_vector)
            requires
                r == self as u32 as u64,
        ;
        r
    }

    fn from_raw(r: u64) -> (v: Self) {
        let v = r as u32 as i32;
        assert(v as u32 as u64 == r) by (bit_vector)
            requires
                r >> 32u64 == 0,
                v == r as u32 as i32,
        ;
        v
    }

    proof fn lemma_raw_bits_injective(a: Self, b: Self) {
        assert(a == b) by (bit_vector)
            requires
                a as u32 as u64 == b as u32 as u64,
        ;
    }
}

impl MaskBits for i64 {
    open spec fn bit_width() -> u64 {
        64
    }

    open spec fn is_signed() -> bool {
        true
    }

    open spec fn raw_bits(self) -> u64 {
        self as u64 as u64
    }

    fn width() -> (w: u32) {
        64
    }

    fn signed() -> (s: bool) {
        true
    }

    fn to_raw(self) -> (r: u64) {
        let r = self as u64 as u64;
        assert(r >> 64u64 == 0) by (bit_vector)
            requires
                r == self as u64 as u64,
        ;
        r
    }

    fn from_raw(r: u64) -> (v: Self) {
        let v = r as u64 as i64;
        assert(v as u64 as u64 == r) by (bit_vector)
            requires
                r >> 64u64 == 0,
                v == r as u64 as i64,
        ;
        v
    }

    proof fn lemma_raw_bits_injective(a: Self, b: Self) {
        assert(a == b) by (bit_vector)
            requires
                a as u64 as u64 == b as u64 as u64,
        ;
    }
}

impl MaskBits for u64 {
    open spec fn bit_width() -> u64 {
        64
    }

    open spec fn is_signed() -> bool {
        false
    }

    open spec fn raw_bits(self) -> u64 {
        self
    }

    fn width() -> (w: u32) {
        64
    }

    fn signed() -> (s: bool) {
        false
    }

    fn to_raw(self) -> (r: u64) {
        assert(self >> 64u64 == 0) by (bit_vector);
        self
    }

    fn from_raw(r: u64) -> (v: Self) {
        r
    }

    proof fn lemma_raw_bits_injective(a: Self, b: Self) {
    }
}


/// Whether a click on the cell for bit `bit_index` flips bit `j`: for an
/// unsigned type only that bit; for a signed type, whose probe is shifted
/// arithmetically, every bit from `bit_index` up to the top one.
pub open spec fn probe_covers(width: u64, signed: bool, bit_index: u64, j: u64) -> bool {
    if signed {
        bit_index <= j && j < width
    } else {
        j == bit_index
    }
}

/// Whether the cell for bit `bit_index` shows `1`: for an unsigned type when
/// that bit is set; for a signed type when any bit from there up is set.
pub open spec fn cell_on(raw: u64, signed: bool, bit_index: u64) -> bool {
    if signed {
        raw >> bit_index != 0
    } else {
        bit_of(raw, bit_index)
    }
}

/// The bit that cell `i` (counted from the left) stands for.
pub open spec fn cell_bit(width: u64, i: u64) -> u64 {
    (width - 1 - i) as u64
}

proof fn lemma_single_probe(w: u64, low: u64, p: u64)
    by (bit_vector)
    requires
        low < w,
        w <= 64,
        p == 1u64 << low,
    ensures
        forall|j: u64| j < 64 ==> (((p >> j) & 1u64 == 1u64) == (j == low)),
        p >> w == 0,
        forall|x: u64| #[trigger] (x & p) != 0 <==> (x >> low) & 1u64 == 1u64,
{
}

proof fn lemma_top_probe(w: u64, low: u64, full: u64, p: u64)
    by (bit_vector)
    requires
        low < w,
        w <= 64,
        full == u64::MAX >> ((64 - w) as u64),
        p == (full >> low) << low,
    ensures
        forall|j: u64| j < 64 ==> (((p >> j) & 1u64 == 1u64) == (low <= j && j < w)),
        p >> w == 0,
        forall|x: u64| x >> w == 0 ==> ((#[trigger] (x & p) != 0) <==> (x >> low != 0)),
{
}

proof fn lemma_xor_bits(x: u64, p: u64, w: u64)
    by (bit_vector)
    ensures
        forall|j: u64|
            #![trigger (x ^ p) >> j]
            (((x ^ p) >> j) & 1u64 == 1u64) == (((x >> j) & 1u64 == 1u64) != ((p >> j) & 1u64
                == 1u64)),
        x >> w == 0 && p >> w == 0 ==> (x ^ p) >> w == 0,
        (x ^ p) ^ p == x,
{
}

/// The bits flipped by a click on the cell for bit `bit_index`.
fn probe_mask(width: u32, signed: bool, bit_index: u32) -> (p: u64)
    requires
        width == 8 || width == 16 || width == 32 || width == 64,
        bit_index < width,
    ensures
        forall|j: u64|
            j < 64 ==> bit_of(p, j) == probe_covers(width as u64, signed, bit_index as u64, j),
        fits_width(p, width as u64),
        forall|x: u64|
            fits_width(x, width as u64) ==> ((#[trigger] (x & p) != 0) <==> cell_on(
                x,
                signed,
                bit_index as u64,
            )),
{
    let low = bit_index as u64;
    let w = width as u64;
    if signed {
        let full = u64::MAX >> (64 - w);
        let p = (full >> low) << low;
        proof {
            lemma_top_probe(w, low, full, p);
        }
        p
    } else {
        let p = 1u64 << low;
        proof {
            lemma_single_probe(w, low, p);
        }
        p
    }
}

/// What one cell of a mask widget shows.
#[derive(Clone, Copy, PartialEq, Eq, Structural, Debug)]
pub struct BitCell {
    /// The bit the cell stands for.
    pub bit_index: u32,
    /// Whether the cell shows `1`.
    pub on: bool,
    /// Whether the cell lies in an even group of four bits (counted from bit 0),
    /// which is drawn in the first of the two background shades.
    pub even_nibble: bool,
}

/// A row of cells showing the bits of `mask`, the most significant one first.
/// A hovered cell reports its bit; an editable widget flips bits on a click.
pub struct MaskWidget<T> {
    mask: T,
    editable: bool,
    interact_index: Option<u32>,
}

/// What a mask widget holds.
pub struct MaskWidgetView<T> {
    pub mask: T,
    pub editable: bool,
    pub interact_index: Option<u32>,
}

impl<T> View for MaskWidget<T> {
    type V = MaskWidgetView<T>;

    closed spec fn view(&self) -> MaskWidgetView<T> {
        MaskWidgetView { mask: self.mask, editable: self.editable, interact_index: self.interact_index }
    }
}

impl<T: MaskBits> MaskWidget<T> {
    /// A widget that shows `mask` and does not report the hovered bit.
    pub fn new(mask: T) -> (w: Self)
        ensures
            w@.mask == mask,
            !w@.editable,
            w@.interact_index == None::<u32>,
    {
        MaskWidget { mask, editable: false, interact_index: None }
    }

    /// A widget that shows `mask` and reports the hovered bit, starting from
    /// `click_index`.
    pub fn new_tracked(mask: T, click_index: u32) -> (w: Self)
        ensures
            w@.mask == mask,
            !w@.editable,
            w@.interact_index == Some(click_index),
    {
        MaskWidget { mask, editable: false, interact_index: Some(click_index) }
    }

    /// The same widget, whose cells flip bits when clicked.
    pub fn editable(self) -> (w: Self)
        ensures
            w@.mask == self@.mask,
            w@.editable,
            w@.interact_index == self@.interact_index,
    {
        MaskWidget { mask: self.mask, editable: true, interact_index: self.interact_index }
    }

    /// The mask as it stands.
    pub fn mask(&self) -> (m: T)
        ensures
            m == self@.mask,
    {
        self.mask
    }

    /// The last bit reported by a tracked widget.
    pub fn interact_index(&self) -> (r: Option<u32>)
        ensures
            r == self@.interact_index,
    {
        self.interact_index
    }

    /// The number of cells: the width of `T`.
    pub fn cell_count(&self) -> (n: u32)
        ensures
            n as u64 == T::bit_width(),
            n == 8 || n == 16 || n == 32 || n == 64,
    {
        T::width()
    }

    /// What cell `i`, counted from the left, shows.
    pub fn cell(&self, i: u32) -> (c: BitCell)
        requires
            i < T::bit_width(),
        ensures
            c.bit_index as u64 == cell_bit(T::bit_width(), i as u64),
            c.bit_index + i == T::bit_width() - 1,
            c.on == cell_on(self@.mask.raw_bits(), T::is_signed(), c.bit_index as u64),
            !T::is_signed() ==> c.on == ((self@.mask.raw_bits() >> c.bit_index as u64) & 1u64
                == 1u64),
            T::is_signed() ==> c.on == (self@.mask.raw_bits() >> c.bit_index as u64 != 0),
            c.even_nibble == ((c.bit_index / 4) % 2 == 0),
    {
        let width = T::width();
        let bit_index = width - 1 - i;
        let raw = self.mask.to_raw();
        let probe = probe_mask(width, T::signed(), bit_index);
        let fourth = bit_index / 4;
        assert((fourth & 1) == 0 <==> fourth % 2 == 0) by (bit_vector);
        BitCell { bit_index, on: (raw & probe) != 0, even_nibble: (fourth & 1) == 0 }
    }

    /// The pointer rests on cell `i`: a tracked widget records its bit, and a
    /// click on an editable widget flips the bits of the cell's probe.
    /// Returns whether the mask changed.
    pub fn hover(&mut self, i: u32, clicked: bool) -> (changed: bool)
        requires
            i < T::bit_width(),
        ensures
            changed == (old(self)@.editable && clicked),
            final(self)@.editable == old(self)@.editable,
            final(self)@.interact_index == match old(self)@.interact_index {
                Some(_) => Some(cell_bit(T::bit_width(), i as u64) as u32),
                None => None,
            },
            old(self)@.interact_index is Some ==> final(self)@.interact_index == Some(
                (T::bit_width() - 1 - i) as u32,
            ),
            changed && !T::is_signed() ==> final(self)@.mask.raw_bits() == old(
                self,
            )@.mask.raw_bits() ^ (1u64 << (T::bit_width() - 1 - i) as u64),
            !changed ==> final(self)@.mask == old(self)@.mask,
            changed ==> forall|j: u64|
                j < 64 ==> bit_of(final(self)@.mask.raw_bits(), j) == (bit_of(
                    old(self)@.mask.raw_bits(),
                    j,
                ) != probe_covers(
                    T::bit_width(),
                    T::is_signed(),
                    cell_bit(T::bit_width(), i as u64),
                    j,
                )),
    {
        let width = T::width();
        let bit_index = width - 1 - i;
        let changed = self.editable && clicked;
        if changed {
            let raw = self.mask.to_raw();
            let probe = probe_mask(width, T::signed(), bit_index);
            proof {
                lemma_xor_bits(raw, probe, width as u64);
            }
            let new_raw = raw ^ probe;
            self.mask = T::from_raw(new_raw);
            proof {
                if !T::is_signed() {
                    lemma_single_probe(width as u64, bit_index as u64, 1u64 << bit_index as u64);
                    assert forall|j: u64| j < 64 implies ((probe >> j) & 1u64 == 1u64) == (((1u64
                        << bit_index as u64) >> j) & 1u64 == 1u64) by {
                        assert(bit_of(probe, j) == probe_covers(
                            width as u64,
                            false,
                            bit_index as u64,
                            j,
                        ));
                    }
                    lemma_bits_ext(probe, 1u64 << bit_index as u64);
                }
            }
            assert forall|j: u64| j < 64 implies bit_of(new_raw, j) == (bit_of(raw, j) != probe_covers(
                width as u64,
                T::is_signed(),
                bit_index as u64,
                j,
            )) by {
                assert(bit_of(probe, j) == probe_covers(width as u64, T::is_signed(), bit_index as u64, j));
                assert(((new_raw >> j) & 1u64 == 1u64) == (((raw >> j) & 1u64 == 1u64) != ((probe >> j)
                    & 1u64 == 1u64)));
            }
        }
        if self.interact_index.is_some() {
            self.interact_index = Some(bit_index);
        }
        changed
    }
}

/// Two words with the same 64 bits are equal.
proof fn lemma_bits_ext(a: u64, b: u64)
    requires
        forall|j: u64| j < 64 ==> ((a >> j) & 1u64 == 1u64) == ((b >> j) & 1u64 == 1u64),
    ensures
        a == b,
{
    let c = a ^ b;
    if c != 0 {
        axiom_u64_trailing_zeros(c);
        let t = u64_trailing_zeros(c) as u64;
        assert(((a >> t) & 1u64 == 1u64) == ((b >> t) & 1u64 == 1u64));
        assert((c >> t) & 1u64 == 0u64) by (bit_vector)
            requires
                c == a ^ b,
                ((a >> t) & 1u64 == 1u64) == ((b >> t) & 1u64 == 1u64),
        ;
    }
    assert(a == b) by (bit_vector)
        requires
            c == a ^ b,
            c == 0,
    ;
}

/// Two clicks on the same cell of an editable widget give back the mask they
/// started from: the states before and after each click are related as
/// `MaskWidget::hover` states it.
pub proof fn law_double_click_restores(
    width: u64,
    signed: bool,
    bit_index: u64,
    raw0: u64,
    raw1: u64,
    raw2: u64,
)
    requires
        forall|j: u64|
            j < 64 ==> bit_of(raw1, j) == (bit_of(raw0, j) != probe_covers(
                width,
                signed,
                bit_index,
                j,
            )),
        forall|j: u64|
            j < 64 ==> bit_of(raw2, j) == (bit_of(raw1, j) != probe_covers(
                width,
                signed,
                bit_index,
                j,
            )),
    ensures
        raw2 == raw0,
{
    assert forall|j: u64| j < 64 implies ((raw2 >> j) & 1u64 == 1u64) == ((raw0 >> j) & 1u64
        == 1u64) by {
        assert(bit_of(raw1, j) == (bit_of(raw0, j) != probe_covers(width, signed, bit_index, j)));
        assert(bit_of(raw2, j) == (bit_of(raw1, j) != probe_covers(width, signed, bit_index, j)));
    }
    lemma_bits_ext(raw2, raw0);
}

/// Two clicks on cell `i` of an editable widget give back the mask value they
/// started from, as a value of `T`: the masks before and after each click are
/// related as `MaskWidget::hover` states it.
pub proof fn law_double_click_restores_mask<T: MaskBits>(m0: T, m1: T, m2: T, i: u64)
    requires
        i < T::bit_width(),
        forall|j: u64|
            j < 64 ==> bit_of(m1.raw_bits(), j) == (bit_of(m0.raw_bits(), j) != probe_covers(
                T::bit_width(),
                T::is_signed(),
                cell_bit(T::bit_width(), i),
                j,
            )),
        forall|j: u64|
            j < 64 ==> bit_of(m2.raw_bits(), j) == (bit_of(m1.raw_bits(), j) != probe_covers(
                T::bit_width(),
                T::is_signed(),
                cell_bit(T::bit_width(), i),
                j,
            )),
    ensures
        m2 == m0,
{
    law_double_click_restores(
        T::bit_width(),
        T::is_signed(),
        cell_bit(T::bit_width(), i),
        m0.raw_bits(),
        m1.raw_bits(),
        m2.raw_bits(),
    );
    T::lemma_raw_bits_injective(m2, m0);
}

/// A mask row shows the most significant bit first: for every width, cell `i`
/// counted from the left stands for bit `width - 1 - i`, so the leftmost cell
/// is the top bit, the rightmost is bit 0, and neighbouring cells stand for
/// neighbouring bits.
pub proof fn law_cells_most_significant_first(width: u64, i: u64)
    requires
        width == 8 || width == 16 || width == 32 || width == 64,
        i < width,
    ensures
        cell_bit(width, i) + i == width - 1,
        cell_bit(width, 0) == width - 1,
        cell_bit(width, (width - 1) as u64) == 0,
        i + 1 < width ==> cell_bit(width, i) == cell_bit(width, (i + 1) as u64) + 1,
{
}

/// A click on a cell of a signed mask flips the bit the cell stands for and
/// every bit above it up to the top of the type, and no other bit.
pub proof fn law_signed_click_flips_bits_from_there_up(
    width: u64,
    bit_index: u64,
    raw0: u64,
    raw1: u64,
)
    requires
        bit_index < width <= 64,
        forall|j: u64|
            j < 64 ==> bit_of(raw1, j) == (bit_of(raw0, j) != probe_covers(
                width,
                true,
                bit_index,
                j,
            )),
    ensures
        forall|j: u64|
            bit_index <= j < width ==> bit_of(raw1, j) != bit_of(raw0, j),
        forall|j: u64|
            (j < bit_index || width <= j < 64) ==> bit_of(raw1, j) == bit_of(raw0, j),
{
    assert forall|j: u64| bit_index <= j < width implies bit_of(raw1, j) != bit_of(raw0, j) by {
        assert(bit_of(raw1, j) == (bit_of(raw0, j) != probe_covers(width, true, bit_index, j)));
    }
    assert forall|j: u64| (j < bit_index || width <= j < 64) implies bit_of(raw1, j) == bit_of(raw0, j) by {
        assert(bit_of(raw1, j) == (bit_of(raw0, j) != probe_covers(width, true, bit_index, j)));
    }
}

/// A click on a cell of an unsigned mask flips exactly the bit the cell shows.
pub proof fn law_unsigned_click_flips_one_bit(width: u64, bit_index: u64, raw0: u64, raw1: u64)
    requires
        bit_index < width <= 64,
        forall|j: u64|
            j < 64 ==> bit_of(raw1, j) == (bit_of(raw0, j) != probe_covers(
                width,
                false,
                bit_index,
                j,
            )),
    ensures
        bit_of(raw1, bit_index) != bit_of(raw0, bit_index),
        forall|j: u64| j < 64 && j != bit_index ==> bit_of(raw1, j) == bit_of(raw0, j),
        raw1 == raw0 ^ (1u64 << bit_index),
{
    let p = 1u64 << bit_index;
    lemma_single_probe(width, bit_index, p);
    lemma_xor_bits(raw0, p, width);
    assert forall|j: u64| j < 64 implies (((raw0 ^ p) >> j) & 1u64 == 1u64) == ((raw1 >> j) & 1u64
        == 1u64) by {
        assert(bit_of(raw1, j) == (bit_of(raw0, j) != probe_covers(width, false, bit_index, j)));
    }
    lemma_bits_ext(raw0 ^ p, raw1);
    assert(bit_of(raw1, bit_index) == (bit_of(raw0, bit_index) != probe_covers(width, false, bit_index, bit_index)));
}

/// A single cell showing one bit as `1` or `0`.
pub struct BitWidget {
    on: bool,
}

impl View for BitWidget {
    type V = bool;

    closed spec fn view(&self) -> bool {
        self.on
    }
}

impl BitWidget {
    pub fn new(on: bool) -> (w: Self)
        ensures
            w@ == on,
    {
        BitWidget { on }
    }

    pub fn new_on() -> (w: Self)
        ensures
            w@,
    {
        BitWidget { on: true }
    }

    pub fn new_off() -> (w: Self)
        ensures
            !w@,
    {
        BitWidget { on: false }
    }

    pub fn on(self) -> (b: bool)
        ensures
            b == self@,
    {
        self.on
    }

    /// The glyph the widget shows.
    pub fn glyph(&self) -> (c: char)
        ensures
            c == if self@ { '1' } else { '0' },
    {
        if self.on {
            '1'
        } else {
            '0'
        }
    }
}

} // verus!
