//! Layout engine: resolves an ordered field list to byte offsets, padding
//! spans, total size and alignment under natural-alignment rules (a field of
//! size `n` starts at an address divisible by `n`; the total size is rounded
//! up to a multiple of the largest field size so arrays stay aligned).

use vstd::arithmetic::div_mod::lemma_fundamental_div_mod;
use vstd::arithmetic::div_mod::lemma_fundamental_div_mod_converse;
use vstd::arithmetic::div_mod::lemma_mod_division_less_than_divisor;
use vstd::prelude::*;

verus! {

/// The byte width of one structure field, drawn from the fixed set of
/// unsigned integer widths the visualizer supports.
#[derive(Clone, Copy, PartialEq, Eq, Structural, Debug, PartialOrd, Ord, Hash)]
pub enum FieldSize {
    U8,
    U16,
    U32,
    U64,
    U128,
}

/// Byte width of a field, as a mathematical integer.
pub open spec fn spec_size(f: FieldSize) -> int {
    match f {
        FieldSize::U8 => 1,
        FieldSize::U16 => 2,
        FieldSize::U32 => 4,
        FieldSize::U64 => 8,
        FieldSize::U128 => 16,
    }
}

impl FieldSize {
    /// Display name of the field type.
    pub fn to_str(&self) -> (r: &'static str)
        ensures
            r@ == self.spec_name(),
    {
        proof {
            reveal_strlit("u8");
            reveal_strlit("u16");
            reveal_strlit("u32");
            reveal_strlit("u64");
            reveal_strlit("u128");
        }
        match self {
            FieldSize::U8 => "u8",
            FieldSize::U16 => "u16",
            FieldSize::U32 => "u32",
            FieldSize::U64 => "u64",
            FieldSize::U128 => "u128",
        }
    }

    /// Display name of the field type, as a sequence of characters.
    pub open spec fn spec_name(self) -> Seq<char> {
        match self {
            FieldSize::U8 => "u8"@,
            FieldSize::U16 => "u16"@,
            FieldSize::U32 => "u32"@,
            FieldSize::U64 => "u64"@,
            FieldSize::U128 => "u128"@,
        }
    }

    /// Every supported field size, in increasing width order.
    pub fn all() -> (r: Vec<FieldSize>)
        ensures
            r@ =~= seq![
                FieldSize::U8,
                FieldSize::U16,
                FieldSize::U32,
                FieldSize::U64,
                FieldSize::U128,
            ],
    {
        let mut v: Vec<FieldSize> = Vec::new();
        v.push(FieldSize::U8);
        v.push(FieldSize::U16);
        v.push(FieldSize::U32);
        v.push(FieldSize::U64);
        v.push(FieldSize::U128);
        v
    }

    /// Byte width of the field.
    pub fn size(&self) -> (r: usize)
        ensures
            r as int == spec_size(*self),
    {
        match self {
            FieldSize::U8 => 1,
            FieldSize::U16 => 2,
            FieldSize::U32 => 4,
            FieldSize::U64 => 8,
            FieldSize::U128 => 16,
        }
    }
}

/// Smallest multiple of `a` that is at least `off`: where the next value of
/// size `a` may start once `off` bytes are occupied.
pub open spec fn align_up(off: int, a: int) -> int {
    if off % a == 0 {
        off
    } else {
        off + a - off % a
    }
}

/// Rounding up to an alignment lands on a multiple of it, moves forward, and
/// skips fewer than `a` bytes.
pub proof fn lemma_align_up(off: int, a: int)
    requires
        0 <= off,
        0 < a,
    ensures
        off <= align_up(off, a) < off + a,
        align_up(off, a) % a == 0,
{
    lemma_mod_division_less_than_divisor(off, a);
    if off % a != 0 {
        lemma_fundamental_div_mod(off, a);
        let q = off / a;
        assert(a * (q + 1) == a * q + a) by (nonlinear_arith);
        assert(off + a - off % a == a * (q + 1)) by {
            assert(off == a * q + off % a);
        }
        lemma_fundamental_div_mod_converse(a * (q + 1), a, q + 1, 0);
    }
}

/// Largest field size in the list, or 0 if the list is empty.
pub open spec fn spec_max_size(fields: Seq<FieldSize>) -> int
    decreases fields.len(),
{
    if fields.len() == 0 {
        0
    } else {
        let m = spec_max_size(fields.drop_last());
        let s = spec_size(fields.last());
        if s > m {
            s
        } else {
            m
        }
    }
}

/// Running byte offset after laying the fields out in order (alignment
/// padding included), before any tail padding.
pub open spec fn spec_offset_after(fields: Seq<FieldSize>) -> int
    decreases fields.len(),
{
    if fields.len() == 0 {
        0
    } else {
        let s = spec_size(fields.last());
        align_up(spec_offset_after(fields.drop_last()), s) + s
    }
}

/// Resolved byte offset of field `i`: the running offset of the fields before
/// it, rounded up to the field's own alignment.
pub open spec fn spec_field_offset(fields: Seq<FieldSize>, i: int) -> int
    recommends
        0 <= i < fields.len(),
{
    align_up(spec_offset_after(fields.take(i)), spec_size(fields[i]))
}

/// Alignment of the whole structure: the largest field size, or 1 when the
/// structure is empty.
pub open spec fn spec_alignment(fields: Seq<FieldSize>) -> int {
    if fields.len() == 0 {
        1
    } else {
        spec_max_size(fields)
    }
}

/// Total byte size of the structure: the running offset rounded up to the
/// structure alignment (tail padding), or 0 when the structure is empty.
pub open spec fn spec_total_size(fields: Seq<FieldSize>) -> int {
    if fields.len() == 0 {
        0
    } else {
        align_up(spec_offset_after(fields), spec_max_size(fields))
    }
}

/// Padding spans inserted between fields (start, length), in address order,
/// tail padding excluded.
pub open spec fn spec_inner_pads(fields: Seq<FieldSize>) -> Seq<(int, int)>
    decreases fields.len(),
{
    if fields.len() == 0 {
        Seq::empty()
    } else {
        let p = spec_inner_pads(fields.drop_last());
        let off = spec_offset_after(fields.drop_last());
        let fo = align_up(off, spec_size(fields.last()));
        if fo > off {
            p.push((off, fo - off))
        } else {
            p
        }
    }
}

/// All padding spans (start, length) in address order, tail padding included.
pub open spec fn spec_pads(fields: Seq<FieldSize>) -> Seq<(int, int)> {
    let p = spec_inner_pads(fields);
    let off = spec_offset_after(fields);
    let t = spec_total_size(fields);
    if t > off {
        p.push((off, t - off))
    } else {
        p
    }
}

/// Upper bound on the number of fields a layout computation accepts, chosen
/// so every intermediate offset fits in `usize` even on 32-bit targets.
pub const MAX_FIELDS: usize = 0x0400_0000;

/// A field's resolved place in the structure: byte offset and byte size.
#[derive(Clone, Copy, PartialEq, Eq, Structural, Debug)]
pub struct FieldSlot {
    pub offset: usize,
    pub size: usize,
}

/// A run of alignment filler bytes: start address and length.
#[derive(Clone, Copy, PartialEq, Eq, Structural, Debug)]
pub struct PadSpan {
    pub start: usize,
    pub len: usize,
}

/// The layout of one structure: resolved field slots in declaration order,
/// padding spans in address order, total size and alignment.
pub struct LayoutResult {
    pub fields: Vec<FieldSlot>,
    pub padding: Vec<PadSpan>,
    pub total_size: usize,
    pub alignment: usize,
}

/// `r` is exactly the layout of `fields`: every component agrees with the
/// specification-level layout functions.
pub open spec fn layout_matches(fields: Seq<FieldSize>, r: LayoutResult) -> bool {
    &&& r.fields@.len() == fields.len()
    &&& forall|i: int|
        0 <= i < fields.len() ==> {
            &&& (#[trigger] r.fields@[i]).offset as int == spec_field_offset(fields, i)
            &&& r.fields@[i].size as int == spec_size(fields[i])
        }
    &&& r.padding@.len() == spec_pads(fields).len()
    &&& forall|j: int|
        0 <= j < spec_pads(fields).len() ==> {
            &&& (#[trigger] r.padding@[j]).start as int == spec_pads(fields)[j].0
            &&& r.padding@[j].len as int == spec_pads(fields)[j].1
        }
    &&& r.total_size as int == spec_total_size(fields)
    &&& r.alignment as int == spec_alignment(fields)
}

/// The largest field size lies between 1 and 16 for a non-empty list, and is
/// 0 only for the empty list.
pub proof fn lemma_max_size_bounds(fields: Seq<FieldSize>)
    ensures
        0 <= spec_max_size(fields) <= 16,
        fields.len() > 0 ==> 1 <= spec_max_size(fields),
    decreases fields.len(),
{
    if fields.len() > 0 {
        lemma_max_size_bounds(fields.drop_last());
    }
}

/// Law (with `lemma_total_size_aligned`): the structure's largest field size
/// really is the maximum: no field is wider, and some field reaches it.
pub proof fn lemma_max_size_is_max(fields: Seq<FieldSize>)
    ensures
        forall|i: int|
            0 <= i < fields.len() ==> #[trigger] spec_size(fields[i]) <= spec_max_size(fields),
        fields.len() > 0 ==> exists|i: int|
            0 <= i < fields.len() && #[trigger] spec_size(fields[i]) == spec_max_size(fields),
    decreases fields.len(),
{
    if fields.len() > 0 {
        let d = fields.drop_last();
        lemma_max_size_is_max(d);
        assert forall|i: int|
            0 <= i < fields.len() implies #[trigger] spec_size(fields[i]) <= spec_max_size(
            fields,
        ) by {
            if i < fields.len() - 1 {
                assert(fields[i] == d[i]);
            }
        }
        if spec_size(fields.last()) > spec_max_size(d) {
            assert(spec_size(fields[fields.len() - 1]) == spec_max_size(fields));
        } else {
            let i = choose|i: int|
                0 <= i < d.len() && #[trigger] spec_size(d[i]) == spec_max_size(d);
            assert(spec_size(fields[i]) == spec_max_size(fields));
        }
    }
}

/// The running offset is non-negative and grows by at most 31 bytes per
/// field (worst case: 15 padding bytes plus a 16-byte field).
pub proof fn lemma_offset_after_bounds(fields: Seq<FieldSize>)
    ensures
        0 <= spec_offset_after(fields) <= 31 * fields.len(),
    decreases fields.len(),
{
    if fields.len() > 0 {
        lemma_offset_after_bounds(fields.drop_last());
        lemma_align_up(spec_offset_after(fields.drop_last()), spec_size(fields.last()));
    }
}

/// Resolve an ordered field list to offsets, padding spans, total size and
/// alignment under natural-alignment rules, in one pass.
pub fn compute_layout(fields: &[FieldSize]) -> (r: LayoutResult)
    requires
        fields@.len() <= MAX_FIELDS as int,
    ensures
        layout_matches(fields@, r),
{
    let n = fields.len();
    let mut slots: Vec<FieldSlot> = Vec::new();
    let mut pads: Vec<PadSpan> = Vec::new();
    let mut off: usize = 0;
    let mut maxs: usize = 0;
    let mut idx: usize = 0;
    while idx < n
        invariant
            n == fields@.len() <= MAX_FIELDS as int,
            0 <= idx <= n,
            off as int == spec_offset_after(fields@.take(idx as int)),
            maxs as int == spec_max_size(fields@.take(idx as int)),
            slots@.len() == idx,
            forall|i: int|
                0 <= i < idx ==> {
                    &&& (#[trigger] slots@[i]).offset as int == spec_field_offset(fields@, i)
                    &&& slots@[i].size as int == spec_size(fields@[i])
                },
            pads@.len() == spec_inner_pads(fields@.take(idx as int)).len(),
            forall|j: int|
                0 <= j < pads@.len() ==> {
                    &&& (#[trigger] pads@[j]).start as int == spec_inner_pads(
                        fields@.take(idx as int),
                    )[j].0
                    &&& pads@[j].len as int == spec_inner_pads(fields@.take(idx as int))[j].1
                },
        decreases n - idx,
    {
        let ghost pre = fields@.take(idx as int);
        let ghost post = fields@.take(idx as int + 1);
        let f = fields[idx];
        let s = f.size();
        proof {
            assert(post.drop_last() =~= pre);
            assert(post.last() == fields@[idx as int]);
            lemma_offset_after_bounds(pre);
            lemma_align_up(off as int, s as int);
            assert(forall|i: int| 0 <= i < idx ==> pre.take(i) =~= fields@.take(i));
        }
        let rem = off % s;
        if rem != 0 {
            let pad = s - rem;
            pads.push(PadSpan { start: off, len: pad });
            off = off + pad;
        }
        slots.push(FieldSlot { offset: off, size: s });
        off = off + s;
        if s > maxs {
            maxs = s;
        }
        idx = idx + 1;
        proof {
            assert(spec_field_offset(fields@, idx - 1) == align_up(
                spec_offset_after(pre),
                spec_size(fields@[idx - 1]),
            ));
        }
    }
    proof {
        assert(fields@.take(n as int) =~= fields@);
        lemma_max_size_bounds(fields@);
        lemma_offset_after_bounds(fields@);
    }
    if maxs == 0 {
        LayoutResult { fields: slots, padding: pads, total_size: 0, alignment: 1 }
    } else {
        proof {
            lemma_align_up(off as int, maxs as int);
        }
        let rem = off % maxs;
        let total = if rem != 0 {
            let pad = maxs - rem;
            pads.push(PadSpan { start: off, len: pad });
            off + pad
        } else {
            off
        };
        LayoutResult { fields: slots, padding: pads, total_size: total, alignment: maxs }
    }
}

impl FieldSize {
    /// Total byte size of a structure holding `fields` in order: offsets plus
    /// padding, rounded up to the structure alignment.  An empty list yields
    /// size 0.
    pub fn total_struct_size(fields: &[FieldSize]) -> (r: usize)
        requires
            fields@.len() <= MAX_FIELDS as int,
        ensures
            r as int == spec_total_size(fields@),
    {
        compute_layout(fields).total_size
    }
}

/// Address `a` lies inside field `i`'s resolved span.
pub open spec fn in_field_span(fields: Seq<FieldSize>, i: int, a: int) -> bool {
    spec_field_offset(fields, i) <= a < spec_field_offset(fields, i) + spec_size(fields[i])
}

/// Address `a` lies inside the span `p` = (start, length).
pub open spec fn in_span(p: (int, int), a: int) -> bool {
    p.0 <= a < p.0 + p.1
}

/// Address `a` is covered by some field of the structure.
pub open spec fn addr_in_some_field(fields: Seq<FieldSize>, a: int) -> bool {
    exists|i: int| 0 <= i < fields.len() && in_field_span(fields, i, a)
}

/// Address `a` is covered by some padding span of the structure.
pub open spec fn addr_in_some_pad(fields: Seq<FieldSize>, a: int) -> bool {
    exists|j: int| 0 <= j < spec_pads(fields).len() && in_span(spec_pads(fields)[j], a)
}

/// Address `a` is covered by some inner (non-tail) padding span.
spec fn addr_in_some_inner_pad(fields: Seq<FieldSize>, a: int) -> bool {
    exists|j: int| 0 <= j < spec_inner_pads(fields).len() && in_span(spec_inner_pads(fields)[j], a)
}

/// `p` is the alignment gap closed just before field `i`: it runs from the
/// running offset of the fields before `i` up to `i`'s resolved offset.
pub open spec fn pad_is_gap_at(fields: Seq<FieldSize>, p: (int, int), i: int) -> bool {
    &&& 0 <= i < fields.len()
    &&& p.0 == spec_offset_after(fields.take(i))
    &&& p.0 + p.1 == spec_field_offset(fields, i)
}

/// Inner padding span `j` is the alignment gap before some field.
pub open spec fn pad_has_gap(fields: Seq<FieldSize>, j: int) -> bool {
    exists|i: int| pad_is_gap_at(fields, spec_inner_pads(fields)[j], i)
}

/// Field `i`'s span runs from the running offset before it (plus the
/// alignment gap) to the running offset after it, and starts on a multiple
/// of the field's size.
proof fn lemma_field_span_at(fields: Seq<FieldSize>, i: int)
    requires
        0 <= i < fields.len(),
    ensures
        spec_offset_after(fields.take(i)) <= spec_field_offset(fields, i),
        spec_field_offset(fields, i) < spec_offset_after(fields.take(i)) + spec_size(fields[i]),
        spec_field_offset(fields, i) % spec_size(fields[i]) == 0,
        spec_field_offset(fields, i) + spec_size(fields[i]) == spec_offset_after(
            fields.take(i + 1),
        ),
{
    let p = fields.take(i + 1);
    assert(p.drop_last() =~= fields.take(i));
    assert(p.last() == fields[i]);
    lemma_offset_after_bounds(fields.take(i));
    lemma_align_up(spec_offset_after(fields.take(i)), spec_size(fields[i]));
}

/// The running offset never decreases as the prefix grows.
proof fn lemma_offset_monotone(fields: Seq<FieldSize>, k1: int, k2: int)
    requires
        0 <= k1 <= k2 <= fields.len(),
    ensures
        spec_offset_after(fields.take(k1)) <= spec_offset_after(fields.take(k2)),
    decreases k2 - k1,
{
    if k1 < k2 {
        lemma_offset_monotone(fields, k1, k2 - 1);
        lemma_field_span_at(fields, k2 - 1);
    }
}

/// Each inner padding span is the non-empty alignment gap before some field;
/// the spans are positive, ordered, and end at or before the running offset.
/// Proved by induction on the field list.
#[verifier::spinoff_prover]
proof fn lemma_inner_pads_facts(fields: Seq<FieldSize>)
    ensures
        forall|j: int| 0 <= j < spec_inner_pads(fields).len() ==> #[trigger] pad_has_gap(
            fields,
            j,
        ),
        forall|j: int|
            0 <= j < spec_inner_pads(fields).len() ==> {
                &&& 0 <= (#[trigger] spec_inner_pads(fields)[j]).0
                &&& 0 < spec_inner_pads(fields)[j].1
                &&& spec_inner_pads(fields)[j].0 + spec_inner_pads(fields)[j].1
                    <= spec_offset_after(fields)
            },
        forall|j1: int, j2: int|
            0 <= j1 < j2 < spec_inner_pads(fields).len() ==> (#[trigger] spec_inner_pads(
                fields,
            )[j1]).0 + spec_inner_pads(fields)[j1].1 <= (#[trigger] spec_inner_pads(
                fields,
            )[j2]).0,
    decreases fields.len(),
{
    if fields.len() == 0 {
    } else {
        let n = fields.len() as int;
        let d = fields.drop_last();
        let s = spec_size(fields.last());
        let off_d = spec_offset_after(d);
        lemma_inner_pads_facts(d);
        lemma_offset_after_bounds(d);
        lemma_align_up(off_d, s);
        assert(fields.take(n - 1) =~= d);
        assert forall|k: int| 0 <= k <= n - 1 implies fields.take(k) == d.take(k) by {
            assert(fields.take(k) =~= d.take(k));
        }
        let fo = align_up(off_d, s);
        assert(spec_field_offset(fields, n - 1) == fo);
        assert(spec_offset_after(fields) == fo + s);
        assert forall|i: int| 0 <= i < n - 1 implies spec_field_offset(fields, i)
            == spec_field_offset(d, i) by {}
        if fo > off_d {
            assert(spec_inner_pads(fields) == spec_inner_pads(d).push((off_d, fo - off_d)));
            assert(pad_is_gap_at(fields, (off_d, fo - off_d), n - 1));
        } else {
            assert(spec_inner_pads(fields) == spec_inner_pads(d));
        }
        assert forall|j: int|
            0 <= j < spec_inner_pads(fields).len() implies #[trigger] pad_has_gap(fields, j) by {
            if j < spec_inner_pads(d).len() {
                assert(pad_has_gap(d, j));
                let i = choose|i: int| pad_is_gap_at(d, spec_inner_pads(d)[j], i);
                assert(spec_inner_pads(fields)[j] == spec_inner_pads(d)[j]);
                assert(pad_is_gap_at(fields, spec_inner_pads(fields)[j], i));
            } else {
                assert(pad_is_gap_at(fields, spec_inner_pads(fields)[j], n - 1));
            }
        }
    }
}

/// Every address below the running offset is covered by a field span or an
/// inner padding span.  Proved by induction on the field list.
#[verifier::spinoff_prover]
proof fn lemma_inner_coverage(fields: Seq<FieldSize>)
    ensures
        forall|a: int|
            0 <= a < spec_offset_after(fields) ==> #[trigger] addr_in_some_field(fields, a)
                || addr_in_some_inner_pad(fields, a),
    decreases fields.len(),
{
    if fields.len() == 0 {
    } else {
        let n = fields.len() as int;
        let d = fields.drop_last();
        let s = spec_size(fields.last());
        let off_d = spec_offset_after(d);
        lemma_inner_coverage(d);
        lemma_offset_after_bounds(d);
        lemma_align_up(off_d, s);
        assert(fields.take(n - 1) =~= d);
        assert forall|k: int| 0 <= k <= n - 1 implies fields.take(k) == d.take(k) by {
            assert(fields.take(k) =~= d.take(k));
        }
        let fo = align_up(off_d, s);
        assert(spec_field_offset(fields, n - 1) == fo);
        assert(spec_offset_after(fields) == fo + s);
        assert forall|i: int| 0 <= i < n - 1 implies spec_field_offset(fields, i)
            == spec_field_offset(d, i) && fields[i] == d[i] by {}
        if fo > off_d {
            assert(spec_inner_pads(fields) == spec_inner_pads(d).push((off_d, fo - off_d)));
        } else {
            assert(spec_inner_pads(fields) == spec_inner_pads(d));
        }
        assert forall|a: int|
            0 <= a < spec_offset_after(fields) implies #[trigger] addr_in_some_field(fields, a)
            || addr_in_some_inner_pad(fields, a) by {
            if a < off_d {
                if addr_in_some_field(d, a) {
                    let i = choose|i: int| 0 <= i < d.len() && in_field_span(d, i, a);
                    assert(in_field_span(fields, i, a));
                    assert(addr_in_some_field(fields, a));
                } else {
                    assert(addr_in_some_inner_pad(d, a));
                    let j = choose|j: int|
                        0 <= j < spec_inner_pads(d).len() && in_span(spec_inner_pads(d)[j], a);
                    assert(in_span(spec_inner_pads(fields)[j], a));
                    assert(addr_in_some_inner_pad(fields, a));
                }
            } else if a < fo {
                let j = spec_inner_pads(d).len() as int;
                assert(in_span(spec_inner_pads(fields)[j], a));
                assert(addr_in_some_inner_pad(fields, a));
            } else {
                assert(in_field_span(fields, n - 1, a));
                assert(addr_in_some_field(fields, a));
            }
        }
    }
}

/// Law: the field spans and the padding spans partition `[0, total_size)`:
/// every span lies inside the structure, every address in the structure is
/// covered by a field or a padding span, and no two spans overlap.
#[verifier::rlimit(60)]
#[verifier::spinoff_prover]
pub proof fn lemma_layout_partition(fields: Seq<FieldSize>)
    ensures
        forall|i: int|
            0 <= i < fields.len() ==> 0 <= #[trigger] spec_field_offset(fields, i)
                && spec_field_offset(fields, i) + spec_size(fields[i]) <= spec_total_size(fields),
        forall|j: int|
            0 <= j < spec_pads(fields).len() ==> 0 <= (#[trigger] spec_pads(fields)[j]).0 && 0
                < spec_pads(fields)[j].1 && spec_pads(fields)[j].0 + spec_pads(fields)[j].1
                <= spec_total_size(fields),
        forall|a: int|
            0 <= a < spec_total_size(fields) ==> #[trigger] addr_in_some_field(fields, a)
                || addr_in_some_pad(fields, a),
        forall|i1: int, i2: int, a: int|
            0 <= i1 < fields.len() && 0 <= i2 < fields.len() && #[trigger] in_field_span(
                fields,
                i1,
                a,
            ) && #[trigger] in_field_span(fields, i2, a) ==> i1 == i2,
        forall|j1: int, j2: int, a: int|
            0 <= j1 < spec_pads(fields).len() && 0 <= j2 < spec_pads(fields).len()
                && #[trigger] in_span(spec_pads(fields)[j1], a) && #[trigger] in_span(
                spec_pads(fields)[j2],
                a,
            ) ==> j1 == j2,
        forall|i: int, j: int, a: int|
            0 <= i < fields.len() && 0 <= j < spec_pads(fields).len() ==> !(#[trigger] in_field_span(
                fields,
                i,
                a,
            ) && #[trigger] in_span(spec_pads(fields)[j], a)),
{
    let n = fields.len() as int;
    let off = spec_offset_after(fields);
    let t = spec_total_size(fields);
    let p = spec_inner_pads(fields);
    let q = spec_pads(fields);
    lemma_inner_pads_facts(fields);
    lemma_inner_coverage(fields);
    lemma_offset_after_bounds(fields);
    assert(fields.take(n) =~= fields);
    if n == 0 {
        assert(q.len() == 0);
    } else {
        lemma_max_size_bounds(fields);
        lemma_align_up(off, spec_max_size(fields));
        assert(off <= t);
        // every field span lies inside [0, total)
        assert forall|i: int|
            0 <= i < n implies 0 <= #[trigger] spec_field_offset(fields, i)
            && spec_field_offset(fields, i) + spec_size(fields[i]) <= t by {
            lemma_field_span_at(fields, i);
            lemma_offset_after_bounds(fields.take(i));
            lemma_offset_monotone(fields, i + 1, n);
        }
        // every padding span lies inside [0, total)
        assert forall|j: int|
            0 <= j < q.len() implies 0 <= (#[trigger] q[j]).0 && 0 < q[j].1 && q[j].0 + q[j].1
            <= t by {
            if j < p.len() {
                assert(q[j] == p[j]);
            } else {
                assert(q[j] == (off, t - off));
            }
        }
        // no gaps
        assert forall|a: int|
            0 <= a < t implies #[trigger] addr_in_some_field(fields, a) || addr_in_some_pad(
            fields,
            a,
        ) by {
            if a < off {
                if !addr_in_some_field(fields, a) {
                    assert(addr_in_some_inner_pad(fields, a));
                    let j = choose|j: int| 0 <= j < p.len() && in_span(p[j], a);
                    assert(q[j] == p[j]);
                    assert(in_span(q[j], a));
                    assert(addr_in_some_pad(fields, a));
                }
            } else {
                let j = p.len() as int;
                assert(q[j] == (off, t - off));
                assert(in_span(q[j], a));
                assert(addr_in_some_pad(fields, a));
            }
        }
        // two field spans sharing an address are the same field
        assert forall|i1: int, i2: int, a: int|
            0 <= i1 < n && 0 <= i2 < n && #[trigger] in_field_span(fields, i1, a)
                && #[trigger] in_field_span(fields, i2, a) implies i1 == i2 by {
            if i1 < i2 {
                lemma_field_span_at(fields, i1);
                lemma_field_span_at(fields, i2);
                lemma_offset_monotone(fields, i1 + 1, i2);
            } else if i2 < i1 {
                lemma_field_span_at(fields, i1);
                lemma_field_span_at(fields, i2);
                lemma_offset_monotone(fields, i2 + 1, i1);
            }
        }
        // two padding spans sharing an address are the same span
        assert forall|j1: int, j2: int, a: int|
            0 <= j1 < q.len() && 0 <= j2 < q.len() && #[trigger] in_span(q[j1], a)
                && #[trigger] in_span(q[j2], a) implies j1 == j2 by {
            if j1 < j2 {
                if j2 < p.len() {
                    assert(q[j1] == p[j1] && q[j2] == p[j2]);
                } else {
                    assert(q[j1] == p[j1] && q[j2] == (off, t - off));
                }
            } else if j2 < j1 {
                if j1 < p.len() {
                    assert(q[j1] == p[j1] && q[j2] == p[j2]);
                } else {
                    assert(q[j2] == p[j2] && q[j1] == (off, t - off));
                }
            }
        }
        // a field span and a padding span never share an address
        assert forall|i: int, j: int, a: int|
            0 <= i < n && 0 <= j < q.len() implies !(#[trigger] in_field_span(fields, i, a)
            && #[trigger] in_span(q[j], a)) by {
            if in_field_span(fields, i, a) && in_span(q[j], a) {
                lemma_field_span_at(fields, i);
                lemma_offset_monotone(fields, i + 1, n);
                if j < p.len() {
                    assert(q[j] == p[j]);
                    assert(pad_has_gap(fields, j));
                    let g = choose|g: int| pad_is_gap_at(fields, p[j], g);
                    lemma_field_span_at(fields, g);
                    if i < g {
                        lemma_offset_monotone(fields, i + 1, g);
                    } else if g < i {
                        lemma_offset_monotone(fields, g + 1, i);
                    }
                } else {
                    assert(q[j] == (off, t - off));
                }
            }
        }
    }
}

/// Law: the total size is a multiple of the alignment, and the alignment is
/// the largest field size (1 for an empty structure).
pub proof fn lemma_total_size_aligned(fields: Seq<FieldSize>)
    ensures
        spec_total_size(fields) % spec_alignment(fields) == 0,
        spec_alignment(fields) == if fields.len() == 0 {
            1int
        } else {
            spec_max_size(fields)
        },
{
    if fields.len() > 0 {
        lemma_max_size_bounds(fields);
        lemma_offset_after_bounds(fields);
        lemma_align_up(spec_offset_after(fields), spec_max_size(fields));
    }
}

/// Law: every field's resolved offset is a multiple of the field's size.
pub proof fn lemma_field_offsets_aligned(fields: Seq<FieldSize>)
    ensures
        forall|i: int|
            0 <= i < fields.len() ==> #[trigger] spec_field_offset(fields, i) % spec_size(
                fields[i],
            ) == 0,
{
    assert forall|i: int|
        0 <= i < fields.len() implies #[trigger] spec_field_offset(fields, i) % spec_size(
        fields[i],
    ) == 0 by {
        lemma_offset_after_bounds(fields.take(i));
        lemma_align_up(spec_offset_after(fields.take(i)), spec_size(fields[i]));
    }
}

/// Law: the layout is a function of the field list alone, so two results for
/// the same list agree in every component.
pub proof fn lemma_layout_deterministic(
    fields: Seq<FieldSize>,
    r1: LayoutResult,
    r2: LayoutResult,
)
    requires
        layout_matches(fields, r1),
        layout_matches(fields, r2),
    ensures
        r1.fields@ == r2.fields@,
        r1.padding@ == r2.padding@,
        r1.total_size == r2.total_size,
        r1.alignment == r2.alignment,
{
    assert(r1.fields@ =~= r2.fields@);
    assert(r1.padding@ =~= r2.padding@);
}

} // verus!
