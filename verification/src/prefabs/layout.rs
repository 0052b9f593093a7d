use vstd::prelude::*;
use crate::tables::is_walk_of;

verus! {

/// The distance, in bits, from the end of a field that ends at bit `end` to the
/// next cell boundary: how far the field's value is shifted up within its cell.
pub open spec fn edge_distance(end: int) -> int {
    (16 - end % 16) % 16
}

/// A mask of the `n` low bits of a cell, for `n` up to 16.
pub open spec fn low_bits(n: u32) -> u16 {
    ((1u32 << n) - 1) as u16
}

/// The mask for a field `n` bits wide, as the unpacking table lists it, entry by
/// entry.
pub open spec fn width_mask(n: u32) -> u16 {
    if n == 0 {
        0x0
    } else if n == 1 {
        0x1
    } else if n == 2 {
        0x3
    } else if n == 3 {
        0x7
    } else if n == 4 {
        0xf
    } else if n == 5 {
        0x1f
    } else if n == 6 {
        0x3f
    } else if n == 7 {
        0x7f
    } else if n == 8 {
        0xff
    } else if n == 9 {
        0x1ff
    } else if n == 10 {
        0x3ff
    } else if n == 11 {
        0x7ff
    } else if n == 12 {
        0xfff
    } else if n == 13 {
        0x1fff
    } else if n == 14 {
        0x3fff
    } else if n == 15 {
        0x7fff
    } else {
        0xffff
    }
}

/// The value a table holds for `key`, or 0 where it holds none.
pub open spec fn value_or_zero(values: Map<Seq<char>, u16>, key: Seq<char>) -> u16 {
    if values.contains_key(key) {
        values[key]
    } else {
        0
    }
}

/// After the first `k` fields of the field order `w` (name, width): the number of
/// bits laid out, and the cell that packing writes next. The cell moves on each
/// time a field ends exactly on a cell boundary.
pub open spec fn cursor(w: Seq<(Seq<char>, usize)>, k: int) -> (int, int)
    decreases k,
{
    if k <= 0 {
        (0, 0)
    } else {
        let prev = cursor(w, k - 1);
        let end = prev.0 + w[k - 1].1;
        (end, if edge_distance(end) == 0 { prev.1 + 1 } else { prev.1 })
    }
}

/// The first bit of field `k`.
pub open spec fn field_start(w: Seq<(Seq<char>, usize)>, k: int) -> int {
    cursor(w, k).0
}

/// One past the last bit of field `k`.
pub open spec fn field_end(w: Seq<(Seq<char>, usize)>, k: int) -> int {
    cursor(w, k).0 + w[k].1
}

/// After packing the first `k` fields of `w` with `values` over the scratch pad
/// `pad`: the partly filled cell and the scratch pad. Each field's value is shifted
/// up to end at its field end and or-ed into the partly filled cell, which is then
/// written to the current cell; a field that ends on a boundary starts a fresh cell.
pub open spec fn pack_progress(
    w: Seq<(Seq<char>, usize)>,
    values: Map<Seq<char>, u16>,
    pad: Seq<u16>,
    k: int,
) -> (u16, Seq<u16>)
    decreases k,
{
    if k <= 0 {
        (0u16, pad)
    } else {
        let prev = pack_progress(w, values, pad, k - 1);
        let at = cursor(w, k - 1);
        let d = edge_distance(at.0 + w[k - 1].1);
        let filled = prev.0 | (value_or_zero(values, w[k - 1].0) << (d as u32));
        let next_pad = prev.1.update(at.1, filled);
        if d == 0 {
            (0u16, next_pad)
        } else {
            (filled, next_pad)
        }
    }
}

/// The scratch pad after packing every field of `w`.
pub open spec fn pack_layout(w: Seq<(Seq<char>, usize)>, values: Map<Seq<char>, u16>, pad: Seq<u16>) -> Seq<u16> {
    pack_progress(w, values, pad, w.len() as int).1
}

/// Packing in the order `w` neither overflows its bit count nor writes past a
/// scratch pad of `pad_len` cells.
pub open spec fn pack_fits(w: Seq<(Seq<char>, usize)>, pad_len: int) -> bool {
    forall|k: int|
        #![trigger cursor(w, k)]
        0 <= k < w.len() ==> cursor(w, k).0 + w[k].1 <= usize::MAX && cursor(w, k).1 < pad_len
}

/// The value of the field that spans bits `start` up to `end`: the cell that holds
/// bit `start`, masked to the field's width shifted to the field's place, and
/// shifted back down.
pub open spec fn field_value(pad: Seq<u16>, start: int, end: int) -> u16 {
    let d = edge_distance(end);
    (pad[start / 16] & (low_bits((end - start) as u32) << (d as u32))) >> (d as u32)
}

/// The table that unpacking the first `k` fields of `w` from `pad` builds.
pub open spec fn unpack_progress(w: Seq<(Seq<char>, usize)>, pad: Seq<u16>, k: int) -> Map<Seq<char>, u16>
    decreases k,
{
    if k <= 0 {
        Map::empty()
    } else {
        unpack_progress(w, pad, k - 1).insert(
            w[k - 1].0,
            field_value(pad, field_start(w, k - 1), field_end(w, k - 1)),
        )
    }
}

/// The table that unpacking every field of `w` from `pad` builds.
pub open spec fn unpack_layout(w: Seq<(Seq<char>, usize)>, pad: Seq<u16>) -> Map<Seq<char>, u16> {
    unpack_progress(w, pad, w.len() as int)
}

/// Unpacking in the order `w` neither overflows, nor reads a field wider than a
/// cell, nor reads past a scratch pad of `pad_len` cells.
pub open spec fn unpack_fits(w: Seq<(Seq<char>, usize)>, pad_len: int) -> bool {
    forall|k: int|
        #![trigger cursor(w, k)]
        0 <= k < w.len() ==> cursor(w, k).0 + w[k].1 <= usize::MAX && w[k].1 <= 16 && cursor(w, k).0 / 16
            < pad_len
}

/// The table of the first `k` names of `w`, each with the value `values` holds for
/// it, or 0.
pub open spec fn walk_values(w: Seq<(Seq<char>, usize)>, values: Map<Seq<char>, u16>, k: int) -> Map<Seq<char>, u16>
    decreases k,
{
    if k <= 0 {
        Map::empty()
    } else {
        walk_values(w, values, k - 1).insert(w[k - 1].0, value_or_zero(values, w[k - 1].0))
    }
}

/// Field `k` of `w` is between 1 and 16 bits wide and lies within one cell.
pub open spec fn field_is_aligned(w: Seq<(Seq<char>, usize)>, k: int) -> bool {
    1 <= w[k].1 <= 16 && field_start(w, k) / 16 == (field_end(w, k) - 1) / 16
}

/// Every field of `w` is between 1 and 16 bits wide and lies within one cell, and
/// all of them fit in `pad_len` cells.
pub open spec fn is_aligned(w: Seq<(Seq<char>, usize)>, pad_len: int) -> bool {
    &&& forall|k: int| 0 <= k < w.len() ==> #[trigger] field_is_aligned(w, k)
    &&& cursor(w, w.len() as int).0 <= 16 * pad_len
    &&& 16 * pad_len <= usize::MAX
}

/// The value `values` holds for the name of field `k` fits in the field's width.
pub open spec fn value_fits(w: Seq<(Seq<char>, usize)>, values: Map<Seq<char>, u16>, k: int) -> bool {
    value_or_zero(values, w[k].0) <= low_bits(w[k].1 as u32)
}

/// Every value that `values` holds for a name of `w` fits in that field's width.
pub open spec fn values_fit(w: Seq<(Seq<char>, usize)>, values: Map<Seq<char>, u16>) -> bool {
    forall|k: int| 0 <= k < w.len() ==> #[trigger] value_fits(w, values, k)
}

/// The table of width masks is the table of low-bit masks.
pub proof fn lemma_width_mask_is_low_bits()
    by (bit_vector)
    ensures
        forall|n: u32| n <= 16 ==> #[trigger] width_mask(n) == low_bits(n),
{
}

/// Or-ing a value that fits in `b` bits, shifted up by `d`, into a cell whose low
/// `d + b` bits are clear: the field reads back as the value, and the low `d` bits
/// stay clear.
proof fn lemma_fill_reads_back(pv: u16, v: u16, d: u32, b: u32)
    by (bit_vector)
    requires
        d + b <= 16,
        pv & low_bits((d + b) as u32) == 0,
        v <= low_bits(b),
    ensures
        ((pv | (v << d)) & (low_bits(b) << d)) >> d == v,
        (pv | (v << d)) & low_bits(d) == 0,
{
}

/// Or-ing a value that fits in `b` bits, shifted up by `d`, leaves unchanged a field
/// that lies wholly above bit `d + b`.
proof fn lemma_fill_keeps_field(pv: u16, v: u16, d: u32, b: u32, dj: u32, bj: u32)
    by (bit_vector)
    requires
        d + b <= dj,
        dj + bj <= 16,
        v <= low_bits(b),
    ensures
        ((pv | (v << d)) & (low_bits(bj) << dj)) >> dj == (pv & (low_bits(bj) << dj)) >> dj,
{
}


/// Clearing: a cell of zeros has no bit set under any mask.
proof fn lemma_zero_has_no_bits(m: u16)
    by (bit_vector)
    ensures
        0u16 & m == 0,
{
}

/// Field `k` ends where field `k + 1` starts, and the bit count never falls.
proof fn lemma_cursor_monotone(w: Seq<(Seq<char>, usize)>, j: int, k: int)
    requires
        0 <= j <= k,
    ensures
        0 <= cursor(w, j).0 <= cursor(w, k).0,
    decreases k,
{
    if j < k {
        lemma_cursor_monotone(w, j, k - 1);
    } else if k > 0 {
        lemma_cursor_monotone(w, 0, k - 1);
    }
}

/// In an aligned field order, the cell that packing writes next is the cell that
/// holds the next bit.
proof fn lemma_cursor_cell(w: Seq<(Seq<char>, usize)>, pad_len: int, k: int)
    requires
        is_aligned(w, pad_len),
        0 <= k <= w.len(),
    ensures
        cursor(w, k).1 == cursor(w, k).0 / 16,
    decreases k,
{
    if k > 0 {
        lemma_cursor_cell(w, pad_len, k - 1);
        lemma_cursor_monotone(w, 0, k - 1);
        let s = cursor(w, k - 1).0;
        let e = s + w[k - 1].1;
        assert(field_is_aligned(w, k - 1));
        assert(s / 16 == (e - 1) / 16);
        if e % 16 == 0 {
            assert(e / 16 == (e - 1) / 16 + 1);
        } else {
            assert(e / 16 == (e - 1) / 16);
        }
    }
}

/// Cell arithmetic for a field of `b` bits starting at bit `s` that stays within
/// one cell: its shift plus its width is the room left in the cell, it is shifted
/// by nothing just when it ends on a boundary, and otherwise it ends in the cell
/// where it starts.
proof fn lemma_cell_arithmetic(s: int, b: int)
    requires
        0 <= s,
        1 <= b <= 16,
        s / 16 == (s + b - 1) / 16,
    ensures
        edge_distance(s + b) + b == 16 - s % 16,
        edge_distance(s + b) == 0 <==> (s + b) % 16 == 0,
        (s + b) % 16 != 0 ==> (s + b) / 16 == s / 16,
        (s + b) % 16 != 0 ==> edge_distance(s + b) == 16 - (s + b) % 16,
{
    let q = s / 16;
    let r = s % 16;
    assert(s == 16 * q + r && 0 <= r < 16);
    let e = s + b;
    assert((e - 1) / 16 == q);
    assert(e - 1 < 16 * q + 16);
    assert(r + b <= 16);
    if r + b == 16 {
        assert(e == 16 * (q + 1));
        assert(e % 16 == 0);
    } else {
        assert(e == 16 * q + (r + b));
        assert(e % 16 == r + b);
        assert(e / 16 == q);
    }
}

/// Facts about field `k` of an aligned order: it starts and ends within the total,
/// it lies in the cell that packing writes when it reaches it, and its shift plus
/// its width is the room left in that cell.
proof fn lemma_aligned_field(w: Seq<(Seq<char>, usize)>, pad_len: int, k: int)
    requires
        is_aligned(w, pad_len),
        0 <= k < w.len(),
    ensures
        0 <= field_start(w, k) < field_end(w, k) <= cursor(w, w.len() as int).0,
        field_end(w, k) == cursor(w, k + 1).0,
        cursor(w, k).1 == field_start(w, k) / 16,
        field_start(w, k) / 16 < pad_len,
        1 <= w[k].1 <= 16,
        edge_distance(field_end(w, k)) + w[k].1 == 16 - field_start(w, k) % 16,
        edge_distance(field_end(w, k)) == 0 <==> field_end(w, k) % 16 == 0,
        field_end(w, k) % 16 != 0 ==> field_end(w, k) / 16 == field_start(w, k) / 16,
        field_end(w, k) % 16 != 0 ==> edge_distance(field_end(w, k)) == 16 - field_end(w, k) % 16,
{
    lemma_cursor_cell(w, pad_len, k);
    lemma_cursor_monotone(w, k + 1, w.len() as int);
    lemma_cursor_monotone(w, 0, k);
    let s = field_start(w, k);
    let e = field_end(w, k);
    assert(field_is_aligned(w, k));
    assert(e == cursor(w, k + 1).0);
    lemma_cell_arithmetic(s, w[k].1 as int);
    assert(e <= 16 * pad_len);
    assert(s < 16 * pad_len);
}

/// An aligned order packs and unpacks within the scratch pad and without overflow.
pub proof fn lemma_aligned_fits(w: Seq<(Seq<char>, usize)>, pad_len: int)
    requires
        is_aligned(w, pad_len),
    ensures
        pack_fits(w, pad_len),
        unpack_fits(w, pad_len),
{
    assert forall|k: int| #![trigger cursor(w, k)] 0 <= k < w.len() implies cursor(w, k).0 + w[k].1
        <= usize::MAX && cursor(w, k).1 < pad_len && w[k].1 <= 16 && cursor(w, k).0 / 16 < pad_len by {
        lemma_aligned_field(w, pad_len, k);
    }
}

/// One packing step, unfolded: packing field `k - 1` or-s its shifted value into the
/// partly filled cell and writes the result to the current cell.
proof fn lemma_pack_step(w: Seq<(Seq<char>, usize)>, values: Map<Seq<char>, u16>, pad: Seq<u16>, k: int)
    requires
        0 < k,
    ensures
        ({
            let prev = pack_progress(w, values, pad, k - 1);
            let at = cursor(w, k - 1);
            let d = edge_distance(at.0 + w[k - 1].1);
            let filled = prev.0 | (value_or_zero(values, w[k - 1].0) << (d as u32));
            &&& pack_progress(w, values, pad, k).1 == prev.1.update(at.1, filled)
            &&& pack_progress(w, values, pad, k).0 == (if d == 0 { 0u16 } else { filled })
            &&& cursor(w, k).0 == at.0 + w[k - 1].1
        }),
{
}

/// A field that lies in the cell being filled, below which the new field lies,
/// still reads back after the new field is or-ed into that cell.
proof fn lemma_earlier_field_kept(p: Seq<u16>, pv: u16, v: u16, cell: int, s: int, b: int, sj: int, bj: int)
    requires
        0 <= cell < p.len(),
        p[cell] == pv,
        sj / 16 == cell,
        s / 16 == cell,
        0 <= sj,
        1 <= bj,
        sj + bj <= s,
        1 <= b <= 16,
        edge_distance(s + b) + b == 16 - s % 16,
        v <= low_bits(b as u32),
    ensures
        field_value(p.update(cell, pv | (v << (edge_distance(s + b) as u32))), sj, sj + bj)
            == field_value(p, sj, sj + bj),
{
    let ej = sj + bj;
    let q = sj / 16;
    assert(sj == 16 * q + sj % 16);
    assert(s == 16 * q + s % 16);
    assert(ej % 16 == ej - 16 * q);
    let dj = edge_distance(ej);
    let d = edge_distance(s + b);
    assert(dj == 16 - (ej - 16 * q));
    assert(d + b <= dj);
    assert(dj + bj <= 16);
    lemma_fill_keeps_field(pv, v, d as u32, b as u32, dj as u32, bj as u32);
}

/// What packing an aligned order keeps true after `k` fields: the scratch pad keeps
/// its length, the partly filled cell has no bit set below the next field's top,
/// the current cell holds the partly filled cell once a field has been written to
/// it, and every field packed so far reads back as its value.
proof fn lemma_pack_progress(w: Seq<(Seq<char>, usize)>, values: Map<Seq<char>, u16>, pad: Seq<u16>, k: int)
    requires
        is_aligned(w, pad.len() as int),
        values_fit(w, values),
        0 <= k <= w.len(),
    ensures
        pack_progress(w, values, pad, k).1.len() == pad.len(),
        pack_progress(w, values, pad, k).0 & low_bits((16 - cursor(w, k).0 % 16) as u32) == 0,
        cursor(w, k).0 % 16 != 0 ==> pack_progress(w, values, pad, k).1[cursor(w, k).0 / 16]
            == pack_progress(w, values, pad, k).0,
        forall|j: int|
            #![trigger field_start(w, j)]
            0 <= j < k ==> field_value(pack_progress(w, values, pad, k).1, field_start(w, j), field_end(w, j))
                == value_or_zero(values, w[j].0),
    decreases k,
{
    let pad_len = pad.len() as int;
    if k == 0 {
        lemma_zero_has_no_bits(low_bits(16));
    } else {
        lemma_pack_progress(w, values, pad, k - 1);
        lemma_aligned_field(w, pad_len, k - 1);
        lemma_pack_step(w, values, pad, k);
        let prev = pack_progress(w, values, pad, k - 1);
        let pv = prev.0;
        let p = prev.1;
        let s = field_start(w, k - 1);
        let b = w[k - 1].1;
        let e = s + b;
        let cell = s / 16;
        let d = edge_distance(e);
        let v = value_or_zero(values, w[k - 1].0);
        assert(value_fits(w, values, k - 1));
        let filled = pv | (v << (d as u32));
        let next = pack_progress(w, values, pad, k);
        lemma_fill_reads_back(pv, v, d as u32, b as u32);
        assert(next.1[cell] == filled);
        assert(field_value(next.1, s, e) == v);
        if d == 0 {
            lemma_zero_has_no_bits(low_bits((16 - e % 16) as u32));
        }
        assert forall|j: int| #![trigger field_start(w, j)] 0 <= j < k implies field_value(
            next.1,
            field_start(w, j),
            field_end(w, j),
        ) == value_or_zero(values, w[j].0) by {
            if j < k - 1 {
                lemma_aligned_field(w, pad_len, j);
                lemma_cursor_monotone(w, j + 1, k - 1);
                let sj = field_start(w, j);
                let bj = w[j].1;
                if sj / 16 != cell {
                    assert(next.1[sj / 16] == p[sj / 16]);
                } else {
                    assert(s % 16 != 0);
                    lemma_earlier_field_kept(p, pv, v, cell, s, b as int, sj, bj as int);
                }
            }
        }
    }
}

/// Unpacking the first `k` fields of an order whose fields all read back as their
/// values gives the table of those values.
proof fn lemma_unpack_progress(w: Seq<(Seq<char>, usize)>, values: Map<Seq<char>, u16>, pad: Seq<u16>, k: int)
    requires
        0 <= k <= w.len(),
        forall|j: int|
            #![trigger field_start(w, j)]
            0 <= j < k ==> field_value(pad, field_start(w, j), field_end(w, j)) == value_or_zero(values, w[j].0),
    ensures
        unpack_progress(w, pad, k) == walk_values(w, values, k),
    decreases k,
{
    if k > 0 {
        lemma_unpack_progress(w, values, pad, k - 1);
        assert(field_value(pad, field_start(w, k - 1), field_end(w, k - 1)) == value_or_zero(values, w[k - 1].0));
    }
}

/// Unpacking after packing gives back the values. For a field order in which every
/// field is between 1 and 16 bits wide, lies within one cell and fits in the
/// scratch pad, and for values that each fit in their field: packing in that order
/// and then unpacking in the same order yields, for each name of the order, the
/// value the table held for it (0 where it held none). Both stay within the
/// scratch pad and free of overflow.
pub proof fn lemma_unpack_after_pack(w: Seq<(Seq<char>, usize)>, values: Map<Seq<char>, u16>, pad: Seq<u16>)
    requires
        is_aligned(w, pad.len() as int),
        values_fit(w, values),
    ensures
        pack_fits(w, pad.len() as int),
        unpack_fits(w, pad.len() as int),
        pack_layout(w, values, pad).len() == pad.len(),
        unpack_layout(w, pack_layout(w, values, pad)) == walk_values(w, values, w.len() as int),
{
    lemma_aligned_fits(w, pad.len() as int);
    lemma_pack_progress(w, values, pad, w.len() as int);
    lemma_unpack_progress(w, values, pack_layout(w, values, pad), w.len() as int);
}

/// In an order of fields each between 1 and 16 bits wide, the first `k` fields
/// take at least `k` and at most `16 * k` bits, and packing never runs ahead of
/// the cell that holds the next bit.
proof fn lemma_cursor_bounds(w: Seq<(Seq<char>, usize)>, k: int)
    requires
        0 <= k <= w.len(),
        forall|j: int| 0 <= j < w.len() ==> 1 <= #[trigger] w[j].1 <= 16,
    ensures
        k <= cursor(w, k).0 <= 16 * k,
        cursor(w, k).1 <= cursor(w, k).0 / 16,
    decreases k,
{
    if k > 0 {
        lemma_cursor_bounds(w, k - 1);
        let s = cursor(w, k - 1).0;
        let b = w[k - 1].1;
        let e = s + b;
        assert(1 <= b <= 16);
        if e % 16 == 0 {
            assert(s / 16 < e / 16);
        } else {
            assert(s / 16 <= e / 16);
        }
    }
}

/// An order that walks a finite table lists as many fields as the table holds.
pub proof fn lemma_walk_length(w: Seq<(Seq<char>, usize)>, m: Map<Seq<char>, usize>)
    requires
        is_walk_of(w, m),
        m.dom().finite(),
    ensures
        w.len() == m.dom().len(),
{
    let names = w.map_values(|e: (Seq<char>, usize)| e.0);
    assert forall|i: int, j: int| 0 <= i < names.len() && 0 <= j < names.len() && i != j implies names[i]
        != names[j] by {
        if i < j {
            assert(w[i].0 != w[j].0);
        } else {
            assert(w[j].0 != w[i].0);
        }
    }
    names.unique_seq_to_set();
    assert forall|x: Seq<char>| names.to_set().contains(x) <==> m.dom().contains(x) by {
        if m.contains_key(x) {
            let i = choose|i: int| 0 <= i < w.len() && w[i].0 == x;
            assert(names[i] == x);
        }
        if names.contains(x) {
            let i = choose|i: int| 0 <= i < names.len() && names[i] == x;
            assert(m.contains_key(w[i].0));
        }
    }
    assert(names.to_set() =~= m.dom());
}

/// A table of at most 16 fields, each between 1 and 16 bits wide, packs and
/// unpacks within a scratch pad of 16 cells whatever order its fields are walked in.
pub proof fn lemma_small_layout_fits(w: Seq<(Seq<char>, usize)>, m: Map<Seq<char>, usize>)
    requires
        is_walk_of(w, m),
        m.dom().finite(),
        m.dom().len() <= 16,
        forall|name: Seq<char>| #[trigger] m.contains_key(name) ==> 1 <= m[name] <= 16,
    ensures
        pack_fits(w, 16),
        unpack_fits(w, 16),
{
    lemma_walk_length(w, m);
    assert forall|j: int| 0 <= j < w.len() implies 1 <= #[trigger] w[j].1 <= 16 by {
        assert(m.contains_key(w[j].0));
    }
    assert forall|k: int| #![trigger cursor(w, k)] 0 <= k < w.len() implies cursor(w, k).0 + w[k].1
        <= usize::MAX && cursor(w, k).1 < 16 && w[k].1 <= 16 && cursor(w, k).0 / 16 < 16 by {
        lemma_cursor_bounds(w, k);
        assert(1 <= w[k].1 <= 16);
    }
}

/// Packing the first `k` fields reads only the values of those fields.
proof fn lemma_pack_progress_ignores(
    w: Seq<(Seq<char>, usize)>,
    values: Map<Seq<char>, u16>,
    extra: Seq<char>,
    x: u16,
    pad: Seq<u16>,
    k: int,
)
    requires
        0 <= k <= w.len(),
        forall|j: int| 0 <= j < w.len() ==> #[trigger] w[j].0 != extra,
    ensures
        pack_progress(w, values.insert(extra, x), pad, k) == pack_progress(w, values, pad, k),
    decreases k,
{
    if k > 0 {
        lemma_pack_progress_ignores(w, values, extra, x, pad, k - 1);
        assert(w[k - 1].0 != extra);
        assert(value_or_zero(values.insert(extra, x), w[k - 1].0) == value_or_zero(values, w[k - 1].0));
    }
}

/// Packing ignores values under names that are not fields: adding a value under a
/// name that no field of `w` has leaves the packed scratch pad as it was.
pub proof fn lemma_pack_ignores_other_names(
    w: Seq<(Seq<char>, usize)>,
    values: Map<Seq<char>, u16>,
    extra: Seq<char>,
    x: u16,
    pad: Seq<u16>,
)
    requires
        forall|j: int| 0 <= j < w.len() ==> #[trigger] w[j].0 != extra,
    ensures
        pack_layout(w, values.insert(extra, x), pad) == pack_layout(w, values, pad),
{
    lemma_pack_progress_ignores(w, values, extra, x, pad, w.len() as int);
}

/// The table of the first `k` names of `w` holds just those names, each with the
/// value `values` holds for it, or 0.
proof fn lemma_walk_values_prefix(w: Seq<(Seq<char>, usize)>, values: Map<Seq<char>, u16>, k: int)
    requires
        0 <= k <= w.len(),
    ensures
        forall|x: Seq<char>|
            #[trigger] walk_values(w, values, k).contains_key(x) <==> exists|j: int| 0 <= j < k && w[j].0 == x,
        forall|x: Seq<char>|
            #[trigger] walk_values(w, values, k).contains_key(x) ==> walk_values(w, values, k)[x]
                == value_or_zero(values, x),
    decreases k,
{
    if k > 0 {
        lemma_walk_values_prefix(w, values, k - 1);
        assert(walk_values(w, values, k) == walk_values(w, values, k - 1).insert(
            w[k - 1].0,
            value_or_zero(values, w[k - 1].0),
        ));
        assert forall|x: Seq<char>| #[trigger] walk_values(w, values, k).contains_key(x) <==> exists|j: int|
            0 <= j < k && w[j].0 == x by {
            if walk_values(w, values, k).contains_key(x) && x != w[k - 1].0 {
                assert(walk_values(w, values, k - 1).contains_key(x));
                let j = choose|j: int| 0 <= j < k - 1 && w[j].0 == x;
                assert(0 <= j < k && w[j].0 == x);
            }
            if exists|j: int| 0 <= j < k && w[j].0 == x {
                let j = choose|j: int| 0 <= j < k && w[j].0 == x;
                if j < k - 1 {
                    assert(walk_values(w, values, k - 1).contains_key(x));
                }
            }
        }
    }
}

/// Packing and unpacking in any order that walks a template's fields gives back,
/// for each field of the template, the value the table held for it (0 where it held
/// none), and nothing for any other name, provided every field is between 1 and 16
/// bits wide and lies within one cell, all of them fit in the scratch pad, and every
/// value fits in its field.
pub proof fn lemma_template_round_trip(
    w: Seq<(Seq<char>, usize)>,
    widths: Map<Seq<char>, usize>,
    values: Map<Seq<char>, u16>,
    pad: Seq<u16>,
)
    requires
        is_walk_of(w, widths),
        is_aligned(w, pad.len() as int),
        values_fit(w, values),
    ensures
        pack_fits(w, pad.len() as int),
        unpack_fits(w, pad.len() as int),
        unpack_layout(w, pack_layout(w, values, pad)) == Map::new(
            |k: Seq<char>| widths.contains_key(k),
            |k: Seq<char>| value_or_zero(values, k),
        ),
{
    lemma_unpack_after_pack(w, values, pad);
    lemma_walk_values_prefix(w, values, w.len() as int);
    let expected = Map::new(|k: Seq<char>| widths.contains_key(k), |k: Seq<char>| value_or_zero(values, k));
    let got = walk_values(w, values, w.len() as int);
    assert forall|x: Seq<char>| #[trigger] got.contains_key(x) <==> widths.contains_key(x) by {
        if widths.contains_key(x) {
            let i = choose|i: int| 0 <= i < w.len() && w[i].0 == x;
            assert(0 <= i < w.len() && w[i].0 == x);
        }
        if got.contains_key(x) {
            let j = choose|j: int| 0 <= j < w.len() && w[j].0 == x;
            assert(widths.contains_key(w[j].0));
        }
    }
    assert(got =~= expected);
}

} // verus!
