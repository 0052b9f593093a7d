use vstd::prelude::*;
use crate::constants::{AGREED_UPON_BITS, ENTITY_LENGTH, SCRATCH_PAD_LEN};
use crate::tables::{AttrMap, NameMap, entries_view, is_walk_of};
use crate::prefabs::layout::{
    cursor, field_end, field_start, field_value, lemma_small_layout_fits, pack_fits, pack_layout,
    pack_progress, unpack_fits, unpack_layout, unpack_progress, width_mask, lemma_width_mask_is_low_bits, is_aligned, values_fit,
    value_or_zero, lemma_template_round_trip,
};

pub mod layout;

verus! {

/// Packing fits the scratch pad in whatever order the fields of `widths` are walked.
pub open spec fn every_walk_packs(widths: Map<Seq<char>, usize>) -> bool {
    forall|w: Seq<(Seq<char>, usize)>| #[trigger] is_walk_of(w, widths) ==> pack_fits(w, SCRATCH_PAD_LEN as int)
}

/// Unpacking fits the scratch pad in whatever order the fields of `widths` are walked.
pub open spec fn every_walk_unpacks(widths: Map<Seq<char>, usize>) -> bool {
    forall|w: Seq<(Seq<char>, usize)>| #[trigger] is_walk_of(w, widths) ==> unpack_fits(w, SCRATCH_PAD_LEN as int)
}

/// A template of at most 16 fields, each between 1 and 16 bits wide, can be packed
/// and unpacked whatever order its field table is walked in.
pub proof fn lemma_small_template_fits(widths: Map<Seq<char>, usize>)
    requires
        widths.dom().finite(),
        widths.dom().len() <= 16,
        forall|name: Seq<char>| #[trigger] widths.contains_key(name) ==> 1 <= widths[name] <= 16,
    ensures
        every_walk_packs(widths),
        every_walk_unpacks(widths),
{
    assert forall|w: Seq<(Seq<char>, usize)>| #[trigger] is_walk_of(w, widths) implies pack_fits(
        w,
        SCRATCH_PAD_LEN as int,
    ) && unpack_fits(w, SCRATCH_PAD_LEN as int) by {
        lemma_small_layout_fits(w, widths);
    }
}

/// Unpacking after writing an attribute reads it back, when both walk the field
/// table in the same order: if `write_attr(key, value)` turned `before` into
/// `written` by packing in the order `w`, and `unpack` turned `written` into `read`
/// by unpacking in that order, then `read` holds an attribute for each field of
/// the template and for no other name, `key` reads back as `value` where it is a
/// field, and every other field as the value `written` held for it (0 where it held
/// none). This holds for a field order in which every field is between 1 and 16
/// bits wide, lies within one cell and fits the scratch pad, with every value
/// fitting its field.
pub proof fn lemma_prefab_unpack_after_write(
    before: Prefab,
    written: Prefab,
    read: Prefab,
    key: Seq<char>,
    value: u16,
    w: Seq<(Seq<char>, usize)>,
)
    requires
        is_walk_of(w, before.layout().widths()),
        is_aligned(w, before.layout().pad().len() as int),
        values_fit(w, before.attr_values().insert(key, value)),
        written.attr_values() == before.attr_values().insert(key, value),
        written.layout().widths() == before.layout().widths(),
        written.layout().pad() == pack_layout(w, written.attr_values(), before.layout().pad()),
        read.attr_values() == unpack_layout(w, written.layout().pad()),
    ensures
        read.attr_values().dom() == before.layout().widths().dom(),
        before.layout().widths().contains_key(key) ==> read.attr_values()[key] == value,
        forall|name: Seq<char>|
            #[trigger] before.layout().widths().contains_key(name) ==> read.attr_values()[name]
                == value_or_zero(written.attr_values(), name),
{
    lemma_template_round_trip(w, before.layout().widths(), written.attr_values(), before.layout().pad());
    assert(read.attr_values().dom() =~= before.layout().widths().dom());
}

/// Unpacking a template after packing it gives back every field's value. If
/// `pack(values)` turned `before` into `packed`, and `unpack` on `packed` gave
/// `read`, then `read` holds an entry for each field of the template and for no
/// other name, and each field reads back as the value `values` held for it (0
/// where it held none). This holds when the fields, in the order the field table
/// is walked, are each between 1 and 16 bits wide and lie within one cell, all fit
/// the scratch pad, and every value fits its field; packing and unpacking then
/// also stay within the scratch pad.
pub proof fn lemma_template_reads_back_packed(
    before: Template,
    packed: Template,
    values: Map<Seq<char>, u16>,
    read: Map<Seq<char>, u16>,
)
    requires
        before.wf(),
        is_aligned(before.order(), SCRATCH_PAD_LEN as int),
        values_fit(before.order(), values),
        packed.widths() == before.widths(),
        packed.order() == before.order(),
        packed.pad() == pack_layout(before.order(), values, before.pad()),
        read == unpack_layout(packed.order(), packed.pad()),
    ensures
        pack_fits(before.order(), SCRATCH_PAD_LEN as int),
        unpack_fits(before.order(), SCRATCH_PAD_LEN as int),
        read.dom() == before.widths().dom(),
        forall|name: Seq<char>|
            #[trigger] before.widths().contains_key(name) ==> read[name] == value_or_zero(values, name),
{
    lemma_template_round_trip(before.order(), before.widths(), values, before.pad());
    assert(read.dom() =~= before.widths().dom());
}

/// An entity reads back an attribute that was written to it. If
/// `write_attr(key, value)` turned `before` into `written`, and `unpack` turned
/// `written` into `read`, then `read` holds an attribute for each field of the
/// template and for no other name, `key` reads back as `value` where it is a
/// field, and every other field as the value `written` held for it (0 where it
/// held none). This holds when the fields, in the order the field table is walked,
/// are each between 1 and 16 bits wide and lie within one cell, all fit the
/// scratch pad, and every value fits its field.
pub proof fn lemma_prefab_reads_back_written(
    before: Prefab,
    written: Prefab,
    read: Prefab,
    key: Seq<char>,
    value: u16,
)
    requires
        before.wf(),
        is_aligned(before.layout().order(), SCRATCH_PAD_LEN as int),
        values_fit(before.layout().order(), before.attr_values().insert(key, value)),
        written.attr_values() == before.attr_values().insert(key, value),
        written.layout().widths() == before.layout().widths(),
        written.layout().order() == before.layout().order(),
        written.layout().pad() == pack_layout(
            before.layout().order(),
            written.attr_values(),
            before.layout().pad(),
        ),
        read.attr_values() == unpack_layout(written.layout().order(), written.layout().pad()),
    ensures
        read.attr_values().dom() == before.layout().widths().dom(),
        before.layout().widths().contains_key(key) ==> read.attr_values()[key] == value,
        forall|name: Seq<char>|
            #[trigger] before.layout().widths().contains_key(name) ==> read.attr_values()[name]
                == value_or_zero(written.attr_values(), name),
{
    lemma_template_reads_back_packed(
        before.layout(),
        written.layout(),
        written.attr_values(),
        read.attr_values(),
    );
}

/// An entity: its template, its attribute values, its identifier and its address
/// in the world buffer, and whether its attributes have changed.
pub struct Prefab {
    template: Template,
    attrs: AttrMap,
    entity_id: u16,
    entity_addr: u16,
    dirty: bool,
}

impl Prefab {
    /// The entity's template.
    pub closed spec fn layout(&self) -> Template {
        self.template
    }

    /// The entity's attribute values, by name.
    pub closed spec fn attr_values(&self) -> Map<Seq<char>, u16> {
        self.attrs@
    }

    /// The entity's identifier.
    pub closed spec fn id(&self) -> u16 {
        self.entity_id
    }

    /// The entity's address in the world buffer.
    pub closed spec fn addr(&self) -> u16 {
        self.entity_addr
    }

    /// Whether the attributes have changed.
    pub closed spec fn is_dirty(&self) -> bool {
        self.dirty
    }

    /// The template is well formed.
    pub open spec fn wf(&self) -> bool {
        self.layout().wf()
    }

    /// An entity with an empty template, no attributes, identifier and address 0,
    /// and no changes.
    pub fn new() -> (r: Prefab)
        ensures
            r.wf(),
            r.layout().pad() == Seq::new(SCRATCH_PAD_LEN as nat, |i: int| 0u16),
            r.layout().widths() == Map::<Seq<char>, usize>::empty(),
            r.attr_values() == Map::<Seq<char>, u16>::empty(),
            r.id() == 0,
            r.addr() == 0,
            !r.is_dirty(),
    {
        Prefab { template: Template::new(), attrs: AttrMap::new(), entity_id: 0, entity_addr: 0, dirty: false }
    }

    /// Replaces the attributes with the values read out of the template's scratch pad.
    pub fn unpack(&mut self)
        requires
            old(self).wf(),
            unpack_fits(old(self).layout().order(), SCRATCH_PAD_LEN as int),
        ensures
            final(self).layout() == old(self).layout(),
            final(self).attr_values() == unpack_layout(old(self).layout().order(), old(self).layout().pad()),
            final(self).id() == old(self).id(),
            final(self).addr() == old(self).addr(),
            final(self).is_dirty() == old(self).is_dirty(),
            exists|w: Seq<(Seq<char>, usize)>|
                is_walk_of(w, old(self).layout().widths()) && final(self).attr_values()
                    == #[trigger] unpack_layout(w, old(self).layout().pad()),
    {
        self.attrs = self.template.unpack();
    }

    /// Sets attribute `key` to `value`, marks the entity changed, and packs the
    /// attributes into the template.
    pub fn write_attr(&mut self, key: String, value: u16)
        requires
            old(self).wf(),
            pack_fits(old(self).layout().order(), SCRATCH_PAD_LEN as int),
        ensures
            final(self).wf(),
            final(self).is_dirty(),
            final(self).attr_values() == old(self).attr_values().insert(key@, value),
            final(self).layout().widths() == old(self).layout().widths(),
            final(self).layout().order() == old(self).layout().order(),
            final(self).layout().pad() == pack_layout(
                old(self).layout().order(),
                final(self).attr_values(),
                old(self).layout().pad(),
            ),
            final(self).id() == old(self).id(),
            final(self).addr() == old(self).addr(),
            exists|w: Seq<(Seq<char>, usize)>|
                is_walk_of(w, old(self).layout().widths()) && final(self).layout().pad()
                    == #[trigger] pack_layout(w, final(self).attr_values(), old(self).layout().pad()),
    {
        self.touch();
        self.attrs.insert(key, value);
        self.repack();
    }

    /// Packs the attributes into the template's scratch pad.
    pub fn repack(&mut self)
        requires
            old(self).wf(),
            pack_fits(old(self).layout().order(), SCRATCH_PAD_LEN as int),
        ensures
            final(self).wf(),
            final(self).attr_values() == old(self).attr_values(),
            final(self).layout().widths() == old(self).layout().widths(),
            final(self).layout().order() == old(self).layout().order(),
            final(self).layout().pad() == pack_layout(
                old(self).layout().order(),
                old(self).attr_values(),
                old(self).layout().pad(),
            ),
            final(self).id() == old(self).id(),
            final(self).addr() == old(self).addr(),
            final(self).is_dirty() == old(self).is_dirty(),
            exists|w: Seq<(Seq<char>, usize)>|
                is_walk_of(w, old(self).layout().widths()) && final(self).layout().pad()
                    == #[trigger] pack_layout(w, old(self).attr_values(), old(self).layout().pad()),
    {
        self.template.pack(&self.attrs);
        assert(is_walk_of(old(self).layout().order(), old(self).layout().widths()));
        let ghost w = choose|w: Seq<(Seq<char>, usize)>|
            is_walk_of(w, old(self).layout().widths()) && self.template.pad() == #[trigger] pack_layout(
                w,
                self.attrs@,
                old(self).layout().pad(),
            );
        assert(is_walk_of(w, old(self).layout().widths()) && final(self).layout().pad() == pack_layout(
            w,
            old(self).attr_values(),
            old(self).layout().pad(),
        ));
    }

    /// Marks the entity changed.
    pub fn touch(&mut self)
        ensures
            final(self).is_dirty(),
            final(self).layout() == old(self).layout(),
            final(self).attr_values() == old(self).attr_values(),
            final(self).id() == old(self).id(),
            final(self).addr() == old(self).addr(),
    {
        self.dirty = true;
    }

    /// Sets the entity's identifier.
    pub fn set_entity_id(&mut self, id: u16)
        ensures
            final(self).id() == id,
            final(self).layout() == old(self).layout(),
            final(self).attr_values() == old(self).attr_values(),
            final(self).addr() == old(self).addr(),
            final(self).is_dirty() == old(self).is_dirty(),
    {
        self.entity_id = id;
    }

    /// Sets the entity's address in the world buffer.
    pub fn set_entity_addr(&mut self, addr: u16)
        ensures
            final(self).addr() == addr,
            final(self).layout() == old(self).layout(),
            final(self).attr_values() == old(self).attr_values(),
            final(self).id() == old(self).id(),
            final(self).is_dirty() == old(self).is_dirty(),
    {
        self.entity_addr = addr;
    }

    /// The entity's template.
    pub fn template(&self) -> (r: &Template)
        ensures
            *r == self.layout(),
    {
        &self.template
    }

    /// The entity's attribute values.
    pub fn attrs(&self) -> (r: &AttrMap)
        ensures
            r@ == self.attr_values(),
    {
        &self.attrs
    }

    /// The entity's identifier.
    pub fn entity_id(&self) -> (r: u16)
        ensures
            r == self.id(),
    {
        self.entity_id
    }

    /// The entity's address in the world buffer.
    pub fn entity_addr(&self) -> (r: u16)
        ensures
            r == self.addr(),
    {
        self.entity_addr
    }

    /// Whether the attributes have changed.
    pub fn dirty(&self) -> (r: bool)
        ensures
            r == self.is_dirty(),
    {
        self.dirty
    }
}

/// Packs `values` into the scratch pad `scratch_pad`, one field after another in
/// the order `walk` lists them: a name missing from `values` packs as 0.
fn pack_cells(scratch_pad: &mut Vec<u16>, walk: &Vec<(String, usize)>, values: &AttrMap)
    requires
        old(scratch_pad)@.len() == SCRATCH_PAD_LEN,
        pack_fits(entries_view(walk@), SCRATCH_PAD_LEN as int),
    ensures
        final(scratch_pad)@ == pack_layout(entries_view(walk@), values@, old(scratch_pad)@),
        final(scratch_pad)@.len() == SCRATCH_PAD_LEN,
{
    let ghost w = entries_view(walk@);
    let ghost start = scratch_pad@;
    let mut running_bits: usize = 0;
    let mut running_uint16s: usize = 0;
    let mut pack_value: u16 = 0;
    let mut distance_to_edge: usize = 0;
    let mut i: usize = 0;
    while i < walk.len()
        invariant
            w == entries_view(walk@),
            w.len() == walk@.len(),
            i <= walk.len(),
            pack_fits(w, SCRATCH_PAD_LEN as int),
            running_bits == cursor(w, i as int).0,
            running_uint16s == cursor(w, i as int).1,
            pack_value == pack_progress(w, values@, start, i as int).0,
            scratch_pad@ == pack_progress(w, values@, start, i as int).1,
            scratch_pad@.len() == SCRATCH_PAD_LEN,
        decreases walk.len() - i,
    {
        let key = &walk[i].0;
        let bits = walk[i].1;
        assert(w[i as int] == (key@, bits));
        assert(cursor(w, i as int).0 + w[i as int].1 <= usize::MAX && cursor(w, i as int).1
            < SCRATCH_PAD_LEN);
        distance_to_edge = (AGREED_UPON_BITS - ((running_bits + bits) % AGREED_UPON_BITS))
            % AGREED_UPON_BITS;
        let value = values.get(key).unwrap_or(0);
        pack_value = pack_value | (value << distance_to_edge);
        running_bits = running_bits + bits;
        scratch_pad.set(running_uint16s, pack_value);
        if distance_to_edge == 0 {
            running_uint16s = running_uint16s + 1;
            pack_value = 0;
        }
        i = i + 1;
    }
}

/// The layout of an entity: named bit fields, each of a given width, packed into a
/// scratch pad of 16-bit cells.
pub struct Template {
    scratch_pad: Vec<u16>,
    properties: NameMap,
    walk: Vec<(String, usize)>,
}

impl Template {
    /// The scratch pad's cells.
    pub closed spec fn pad(&self) -> Seq<u16> {
        self.scratch_pad@
    }

    /// The width, in bits, of each named field.
    pub closed spec fn widths(&self) -> Map<Seq<char>, usize> {
        self.properties@
    }

    /// The order in which packing and unpacking take the fields: the order in which
    /// the field table is walked, taken when the table last changed. A table that
    /// has not changed since is walked in that same order.
    pub closed spec fn order(&self) -> Seq<(Seq<char>, usize)> {
        entries_view(self.walk@)
    }

    /// The scratch pad has its fixed length, and the field order lists every field
    /// once.
    pub open spec fn wf(&self) -> bool {
        &&& self.pad().len() == SCRATCH_PAD_LEN
        &&& is_walk_of(self.order(), self.widths())
    }

    /// A template with no fields and a scratch pad of zeros.
    pub fn new() -> (r: Template)
        ensures
            r.wf(),
            r.pad() == Seq::new(SCRATCH_PAD_LEN as nat, |i: int| 0u16),
            r.widths() == Map::<Seq<char>, usize>::empty(),
            r.order() == Seq::<(Seq<char>, usize)>::empty(),
    {
        let r = Template {
            scratch_pad: vec![0u16; ENTITY_LENGTH * 2],
            properties: NameMap::new(),
            walk: Vec::new(),
        };
        assert(r.pad() =~= Seq::new(SCRATCH_PAD_LEN as nat, |i: int| 0u16));
        assert(r.order() =~= Seq::<(Seq<char>, usize)>::empty());
        r
    }

    /// Adds every field of `properties`; a field of `properties` replaces one of the
    /// same name.
    pub fn load(&mut self, properties: NameMap)
        ensures
            final(self).pad() == old(self).pad(),
            final(self).widths() == old(self).widths().union_prefer_right(properties@),
            is_walk_of(final(self).order(), final(self).widths()),
    {
        self.properties.extend(properties);
        self.walk = self.properties.entries();
    }

    /// Adds the field `key`, `bits` wide, replacing a field of the same name.
    pub fn add_property(&mut self, key: String, bits: usize)
        ensures
            final(self).pad() == old(self).pad(),
            final(self).widths() == old(self).widths().insert(key@, bits),
            is_walk_of(final(self).order(), final(self).widths()),
    {
        self.properties.insert(key, bits);
        self.walk = self.properties.entries();
    }

    /// The number of fields.
    pub fn len(&self) -> (r: usize)
        ensures
            r == self.widths().len(),
    {
        self.properties.len()
    }

    /// Copies `bytes` over the first cells of the scratch pad.
    pub fn pack_raw_bytes(&mut self, bytes: Vec<u16>)
        requires
            old(self).wf(),
            bytes.len() <= SCRATCH_PAD_LEN,
        ensures
            final(self).wf(),
            final(self).widths() == old(self).widths(),
            final(self).pad() == bytes@ + old(self).pad().skip(bytes.len() as int),
    {
        let mut index: usize = 0;
        while index < bytes.len()
            invariant
                index <= bytes.len() <= SCRATCH_PAD_LEN,
                self.scratch_pad@.len() == SCRATCH_PAD_LEN,
                old(self).pad().len() == SCRATCH_PAD_LEN,
                self.properties == old(self).properties,
                self.walk == old(self).walk,
                self.scratch_pad@ == bytes@.take(index as int) + old(self).pad().skip(index as int),
            decreases bytes.len() - index,
        {
            let byte = bytes[index];
            self.scratch_pad.set(index, byte);
            index = index + 1;
            assert(self.scratch_pad@ =~= bytes@.take(index as int) + old(self).pad().skip(index as int));
        }
        assert(bytes@.take(bytes.len() as int) =~= bytes@);
    }

    /// Packs `values` into the scratch pad, one field after another in the order
    /// `walk` lists them: a name missing from `values` packs as 0.
    pub fn pack_in_order(&mut self, walk: &Vec<(String, usize)>, values: &AttrMap)
        requires
            old(self).wf(),
            pack_fits(entries_view(walk@), SCRATCH_PAD_LEN as int),
        ensures
            final(self).wf(),
            final(self).widths() == old(self).widths(),
            final(self).order() == old(self).order(),
            final(self).pad() == pack_layout(entries_view(walk@), values@, old(self).pad()),
    {
        pack_cells(&mut self.scratch_pad, walk, values);
    }

    /// The scratch pad's cells.
    pub fn scratch_pad(&self) -> (r: &Vec<u16>)
        ensures
            r@ == self.pad(),
    {
        &self.scratch_pad
    }

    /// Packs `values` into the scratch pad, one field after another in the order in
    /// which the field table is walked; a name missing from `values` packs as 0.
    /// That order is the field table's, which its hasher decides; unpacking reads
    /// the fields back in the same order.
    pub fn pack(&mut self, values: &AttrMap)
        requires
            old(self).wf(),
            pack_fits(old(self).order(), SCRATCH_PAD_LEN as int),
        ensures
            final(self).wf(),
            final(self).widths() == old(self).widths(),
            final(self).order() == old(self).order(),
            final(self).pad() == pack_layout(old(self).order(), values@, old(self).pad()),
            exists|w: Seq<(Seq<char>, usize)>|
                is_walk_of(w, old(self).widths()) && final(self).pad() == #[trigger] pack_layout(
                    w,
                    values@,
                    old(self).pad(),
                ),
    {
        pack_cells(&mut self.scratch_pad, &self.walk, values);
        assert(is_walk_of(old(self).order(), old(self).widths()));
    }

    /// Reads every field out of the scratch pad, in the order `walk` lists them,
    /// into a table from field name to value.
    pub fn unpack_in_order(&self, walk: &Vec<(String, usize)>) -> (r: AttrMap)
        requires
            self.wf(),
            unpack_fits(entries_view(walk@), SCRATCH_PAD_LEN as int),
        ensures
            r@ == unpack_layout(entries_view(walk@), self.pad()),
    {
        let ghost w = entries_view(walk@);
        let mut values = AttrMap::new();
        let mut bounds: (usize, usize) = (0, 0);
        let mut i: usize = 0;
        while i < walk.len()
            invariant
                self.wf(),
                w == entries_view(walk@),
                w.len() == walk@.len(),
                i <= walk.len(),
                unpack_fits(w, SCRATCH_PAD_LEN as int),
                bounds.0 == cursor(w, i as int).0,
                values@ == unpack_progress(w, self.pad(), i as int),
            decreases walk.len() - i,
        {
            let key = &walk[i].0;
            let bits = walk[i].1;
            assert(w[i as int] == (key@, bits));
            assert(cursor(w, i as int).0 + w[i as int].1 <= usize::MAX && w[i as int].1 <= 16
                && cursor(w, i as int).0 / 16 < SCRATCH_PAD_LEN);
            bounds.1 = bounds.0 + bits;
            let value = self.unpack_from_buffer(bounds);
            values.insert(key.clone(), value);
            bounds.0 = bounds.1;
            i = i + 1;
        }
        values
    }

    /// Reads every field out of the scratch pad, in the order in which the field
    /// table is walked (the order packing uses), into a table from field name to
    /// value.
    pub fn unpack(&self) -> (r: AttrMap)
        requires
            self.wf(),
            unpack_fits(self.order(), SCRATCH_PAD_LEN as int),
        ensures
            r@ == unpack_layout(self.order(), self.pad()),
            exists|w: Seq<(Seq<char>, usize)>|
                is_walk_of(w, self.widths()) && r@ == #[trigger] unpack_layout(w, self.pad()),
    {
        let r = self.unpack_in_order(&self.walk);
        assert(is_walk_of(self.order(), self.widths()));
        r
    }

    /// The value of the field that spans bits `bounds.0` up to `bounds.1`.
    fn unpack_from_buffer(&self, bounds: (usize, usize)) -> (r: u16)
        requires
            self.wf(),
            bounds.0 <= bounds.1,
            bounds.1 - bounds.0 <= 16,
            bounds.0 / 16 < SCRATCH_PAD_LEN,
        ensures
            r == field_value(self.pad(), bounds.0 as int, bounds.1 as int),
    {
        let bit_masks: Vec<u16> = vec![
            0b0,
            0b1,
            0b11,
            0b111,
            0b1111,
            0b11111,
            0b111111,
            0b1111111,
            0b11111111,
            0b111111111,
            0b1111111111,
            0b11111111111,
            0b111111111111,
            0b1111111111111,
            0b11111111111111,
            0b111111111111111,
            0b1111111111111111,
        ];
        let bit_length = bounds.1 - bounds.0;
        let range_start = bounds.0 / AGREED_UPON_BITS;
        let distance_to_edge = (AGREED_UPON_BITS - (bounds.1 % AGREED_UPON_BITS)) % AGREED_UPON_BITS;
        assert(bit_masks@[bit_length as int] == width_mask(bit_length as u32));
        proof {
            lemma_width_mask_is_low_bits();
        }
        let mask = bit_masks[bit_length] << distance_to_edge;
        (self.scratch_pad[range_start] & mask) >> distance_to_edge
    }
}

} // verus!
