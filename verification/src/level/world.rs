use vstd::prelude::*;
use crate::constants::{ENTITY_LENGTH, MAX_WORLD_ENTITIES, WORLD_LEN};

verus! {

/// The cell at each multiple of 8: the identifier slot of each entity.
pub open spec fn entity_id_slots(cells: Seq<u16>) -> Seq<u16> {
    Seq::new(((cells.len() + 7) / 8) as nat, |k: int| cells[8 * k])
}

/// The address of the first entity whose identifier slot is 0, or 0 where there is
/// no such entity.
pub open spec fn is_first_free_address(cells: Seq<u16>, address: int) -> bool {
    &&& 0 <= address < cells.len()
    &&& address % 8 == 0
    &&& forall|k: int| 0 <= k < address / 8 ==> #[trigger] cells[8 * k] != 0
    &&& cells[address] == 0 || (address == 0 && forall|k: int|
        0 <= k < (cells.len() as int) / 8 ==> #[trigger] cells[8 * k] != 0)
}

/// `cells` with `bytes` written over it from cell `start` on.
pub open spec fn overwrite(cells: Seq<u16>, start: int, bytes: Seq<u16>) -> Seq<u16> {
    cells.take(start) + bytes + cells.skip(start + bytes.len())
}

/// The positions, in ascending order, of the first `n` cells in which `before` and
/// `after` differ.
pub open spec fn changed_cells(before: Seq<u16>, after: Seq<u16>, n: int) -> Seq<usize>
    decreases n,
{
    if n <= 0 {
        Seq::empty()
    } else if before[n - 1] != after[n - 1] {
        changed_cells(before, after, n - 1).push((n - 1) as usize)
    } else {
        changed_cells(before, after, n - 1)
    }
}

/// The changed positions among the first `n` cells are below `n` and strictly
/// ascending.
proof fn lemma_changed_cells_ordered(before: Seq<u16>, after: Seq<u16>, n: int)
    requires
        0 <= n <= usize::MAX + 1,
    ensures
        changed_cells(before, after, n).len() <= n,
        forall|j: int|
            #![trigger changed_cells(before, after, n)[j]]
            0 <= j < changed_cells(before, after, n).len() ==> changed_cells(before, after, n)[j] < n,
        forall|i: int, j: int|
            0 <= i < j < changed_cells(before, after, n).len() ==> changed_cells(before, after, n)[i]
                < changed_cells(before, after, n)[j],
    decreases n,
{
    if n > 0 {
        lemma_changed_cells_ordered(before, after, n - 1);
    }
}

/// Nothing has changed between a buffer and itself: once a diff has made the
/// pending cells the reported ones, the next diff finds no change, no section and
/// no run.
pub proof fn lemma_diff_after_diff(cells: Seq<u16>, n: int)
    ensures
        changed_cells(cells, cells, n) == Seq::<usize>::empty(),
        sections_of(changed_cells(cells, cells, n)) == Seq::<(usize, usize)>::empty(),
    decreases n,
{
    if n > 0 {
        lemma_diff_after_diff(cells, n - 1);
    }
}

/// Writing a value into one cell that held a different value, in a buffer that
/// matched what was reported, makes that cell's position the only change the next
/// diff finds.
pub proof fn lemma_single_write_is_the_change(cells: Seq<u16>, start: int, value: u16, n: int)
    requires
        0 <= start < cells.len(),
        0 <= n <= cells.len(),
        cells[start] != value,
    ensures
        changed_cells(cells, overwrite(cells, start, seq![value]), n) == (if start < n {
            seq![start as usize]
        } else {
            Seq::<usize>::empty()
        }),
    decreases n,
{
    let after = overwrite(cells, start, seq![value]);
    assert(after.len() == cells.len());
    assert(after[start] == value);
    assert(forall|i: int| 0 <= i < cells.len() && i != start ==> after[i] == cells[i]);
    if n > 0 {
        lemma_single_write_is_the_change(cells, start, value, n - 1);
        if n - 1 == start {
            assert(changed_cells(cells, after, n - 1) == Seq::<usize>::empty());
            assert(changed_cells(cells, after, n) =~= seq![start as usize]);
        }
    }
}

/// The sections that a diff reports for the changed positions `changed`, of which
/// there are at most one: the section scan compares `i + 1` with the position at
/// index `i + i`, so a single change at a position other than 1 makes the section
/// `(0, 0)`, and anything else makes none.
pub open spec fn sections_of(changed: Seq<usize>) -> Seq<(usize, usize)> {
    if changed.len() == 1 && changed[0] != 1 {
        seq![(0usize, 0usize)]
    } else {
        Seq::empty()
    }
}

/// A diff finds a section just when exactly one cell changed and it is not the
/// cell at position 1; that section is `(0, 0)` and spans no cells, so it becomes
/// one packet, at the changed position, carrying nothing. With no change there is
/// no section.
pub proof fn lemma_single_change_section(cells: Seq<u16>, p: usize)
    requires
        p < cells.len(),
    ensures
        sections_of(Seq::<usize>::empty()) == Seq::<(usize, usize)>::empty(),
        p != 1 ==> sections_of(seq![p]) == seq![(0usize, 0usize)],
        p != 1 ==> runs_of(cells, seq![p], sections_of(seq![p])) == seq![Seq::<u16>::empty()],
        p == 1 ==> sections_of(seq![p]) == Seq::<(usize, usize)>::empty(),
{
    if p != 1 {
        assert(sections_of(seq![p]) =~= seq![(0usize, 0usize)]);
        assert(seq![p][0] == p);
        assert(cells.subrange(p as int, p as int) =~= Seq::<u16>::empty());
        assert(runs_of(cells, seq![p], sections_of(seq![p]))[0] == cells.subrange(p as int, p as int));
        assert(runs_of(cells, seq![p], sections_of(seq![p])) =~= seq![Seq::<u16>::empty()]);
    }
}

/// The cells of `cells` that each section spans: from the position of its first
/// change up to (not including) the position of its last change.
pub open spec fn runs_of(cells: Seq<u16>, changed: Seq<usize>, sections: Seq<(usize, usize)>) -> Seq<Seq<u16>> {
    sections.map_values(
        |s: (usize, usize)| cells.subrange(changed[s.0 as int] as int, changed[s.1 as int] as int),
    )
}

/// The world buffer: the cells as last reported, and the cells as written since.
pub struct World {
    world_data: Vec<u16>,
    world_data_new: Vec<u16>,
    assigned: usize,
}

/// What a diff found: the changed positions, the sections of them, and the cells
/// each section spans.
pub struct DiffReport {
    contiguous_sections: Vec<(usize, usize)>,
    changed_indices: Vec<usize>,
    changed_bytes: Vec<Vec<u16>>,
}

/// One section of changed cells, ready to send: where it starts, how many cells it
/// holds, and the cells.
pub struct Packet {
    address: usize,
    length: usize,
    bytes: Vec<u16>,
}

/// A copy of the cells from `start` up to (not including) `end`.
fn copy_cells(cells: &Vec<u16>, start: usize, end: usize) -> (r: Vec<u16>)
    requires
        start <= end <= cells.len(),
    ensures
        r@ == cells@.subrange(start as int, end as int),
{
    let mut r: Vec<u16> = Vec::new();
    let mut i = start;
    while i < end
        invariant
            start <= i <= end <= cells.len(),
            r@ == cells@.subrange(start as int, i as int),
        decreases end - i,
    {
        r.push(cells[i]);
        i = i + 1;
    }
    r
}

impl World {
    /// The cells as last reported by a diff.
    pub closed spec fn current(&self) -> Seq<u16> {
        self.world_data@
    }

    /// The cells as written since.
    pub closed spec fn pending(&self) -> Seq<u16> {
        self.world_data_new@
    }

    /// Both buffers hold every cell of the world.
    pub open spec fn wf(&self) -> bool {
        self.current().len() == WORLD_LEN && self.pending().len() == WORLD_LEN
    }

    /// A world of zeros, reported and written alike.
    pub fn new() -> (r: World)
        ensures
            r.wf(),
            r.current() == Seq::new(WORLD_LEN as nat, |i: int| 0u16),
            r.pending() == Seq::new(WORLD_LEN as nat, |i: int| 0u16),
    {
        let r = World {
            assigned: 0,
            world_data: vec![0u16; MAX_WORLD_ENTITIES * ENTITY_LENGTH],
            world_data_new: vec![0u16; MAX_WORLD_ENTITIES * ENTITY_LENGTH],
        };
        assert(r.current() =~= Seq::new(WORLD_LEN as nat, |i: int| 0u16));
        assert(r.pending() =~= Seq::new(WORLD_LEN as nat, |i: int| 0u16));
        r
    }

    /// Writes `bytes` into the pending cells from `start_index` on.
    pub fn write(&mut self, start_index: &usize, bytes: Vec<u16>)
        requires
            old(self).wf(),
            *start_index + bytes.len() <= WORLD_LEN,
        ensures
            final(self).wf(),
            final(self).current() == old(self).current(),
            final(self).pending() == overwrite(old(self).pending(), *start_index as int, bytes@),
    {
        let mut index: usize = 0;
        while index < bytes.len()
            invariant
                *start_index + bytes.len() <= WORLD_LEN,
                index <= bytes.len(),
                self.world_data@ == old(self).current(),
                self.world_data_new@.len() == WORLD_LEN,
                old(self).pending().len() == WORLD_LEN,
                self.world_data_new@ == overwrite(
                    old(self).pending(),
                    *start_index as int,
                    bytes@.take(index as int),
                ),
            decreases bytes.len() - index,
        {
            let data = bytes[index];
            self.world_data_new.set(*start_index + index, data);
            index = index + 1;
            assert(self.world_data_new@ =~= overwrite(
                old(self).pending(),
                *start_index as int,
                bytes@.take(index as int),
            ));
        }
        assert(bytes@.take(bytes.len() as int) =~= bytes@);
    }

    /// The identifier slot of each entity, in the pending cells.
    pub fn entity_ids(&self) -> (r: Vec<u16>)
        requires
            self.wf(),
        ensures
            r@ == entity_id_slots(self.pending()),
    {
        let mut ids: Vec<u16> = Vec::new();
        let mut id: usize = 0;
        while id < self.world_data_new.len()
            invariant
                self.wf(),
                id <= WORLD_LEN,
                ids@ == Seq::new(((id + 7) / 8) as nat, |k: int| self.pending()[8 * k]),
            decreases WORLD_LEN - id,
        {
            if id % 8 == 0 {
                let val = self.world_data_new[id];
                ids.push(val);
            }
            id = id + 1;
            assert(ids@ =~= Seq::new(((id + 7) / 8) as nat, |k: int| self.pending()[8 * k]));
        }
        ids
    }

    /// The address of the first entity whose identifier slot is 0 in the pending
    /// cells, or 0 where every slot is taken.
    pub fn first_free_address(&self) -> (r: u16)
        requires
            self.wf(),
        ensures
            is_first_free_address(self.pending(), r as int),
    {
        let mut i: usize = 0;
        while i < self.world_data_new.len()
            invariant
                self.wf(),
                i <= WORLD_LEN,
                i % ENTITY_LENGTH == 0,
                forall|k: int| 0 <= k < (i as int) / 8 ==> #[trigger] self.pending()[8 * k] != 0,
            decreases WORLD_LEN - i,
        {
            if self.world_data_new[i] == 0u16 {
                assert(self.pending()[8 * (i / 8) as int] == 0);
                return i as u16;
            }
            i = i + ENTITY_LENGTH;
        }
        assert(self.pending()[8 * 0int] != 0);
        0
    }

    /// Claims the first free entity slot for the identifier `id`, which no entity
    /// holds: writes `id` into the slot's identifier cell and returns the slot's
    /// address and `id`. Where every slot is taken, the address is 0. The
    /// identifier is drawn at random by the caller, until it is fresh.
    pub fn claim_slot(&mut self, id: u16) -> (r: (u16, u16))
        requires
            old(self).wf(),
            !entity_id_slots(old(self).pending()).contains(id),
        ensures
            final(self).wf(),
            final(self).current() == old(self).current(),
            is_first_free_address(old(self).pending(), r.0 as int),
            r.1 == id,
            final(self).pending() == old(self).pending().update(r.0 as int, id),
    {
        let address: u16 = self.first_free_address();
        self.world_data_new.set(address as usize, id);
        (address, id)
    }

    /// Reports what changed since the last diff and makes the pending cells the
    /// reported ones. The section scan compares `i + 1` with the changed position
    /// at index `i + i`, which lies past the list as soon as two cells have
    /// changed: a diff is defined only while at most one cell differs.
    pub fn diff(&mut self) -> (r: DiffReport)
        requires
            old(self).wf(),
            changed_cells(old(self).current(), old(self).pending(), WORLD_LEN as int).len() <= 1,
        ensures
            final(self).wf(),
            final(self).current() == old(self).pending(),
            final(self).pending() == old(self).pending(),
            r.wf(),
            r.indices() == changed_cells(old(self).current(), old(self).pending(), WORLD_LEN as int),
            r.sections() == sections_of(r.indices()),
            r.runs() == runs_of(old(self).pending(), r.indices(), r.sections()),
            r.indices().len() <= 1,
            r.sections().len() == (if r.indices().len() == 1 && r.indices()[0] != 1 { 1int } else { 0int }),
            r.sections().len() == 1 ==> r.sections()[0] == (0usize, 0usize) && r.runs()[0] == Seq::<u16>::empty(),
    {
        let ghost before = old(self).current();
        let ghost after = old(self).pending();
        let mut contiguous_sections: Vec<(usize, usize)> = Vec::new();
        let mut changed_indices: Vec<usize> = Vec::new();
        let mut changed_bytes: Vec<Vec<u16>> = Vec::new();

        let mut index: usize = 0;
        while index < self.world_data.len()
            invariant
                before.len() == WORLD_LEN && after.len() == WORLD_LEN,
                index <= WORLD_LEN,
                self.world_data@.len() == WORLD_LEN,
                self.world_data_new@ == after,
                self.world_data@ == after.take(index as int) + before.skip(index as int),
                changed_indices@ == changed_cells(before, after, index as int),
            decreases WORLD_LEN - index,
        {
            assert(self.world_data@[index as int] == before[index as int]);
            if self.world_data[index] != self.world_data_new[index] {
                changed_indices.push(index);
            }
            let data = self.world_data_new[index];
            self.world_data.set(index, data);
            index = index + 1;
            assert(self.world_data@ =~= after.take(index as int) + before.skip(index as int));
        }
        assert(self.world_data@ =~= after);
        let ghost changed = changed_indices@;
        proof {
            lemma_changed_cells_ordered(before, after, WORLD_LEN as int);
        }

        let mut start_of_section: usize = 0;
        let mut i: usize = 0;
        while i < changed_indices.len()
            invariant
                changed_indices@ == changed,
                changed.len() <= 1,
                i <= changed.len(),
                i == 0 ==> contiguous_sections@ == Seq::<(usize, usize)>::empty() && start_of_section == 0,
                i == 1 ==> contiguous_sections@ == sections_of(changed),
            decreases changed.len() - i,
        {
            if i + 1 != changed_indices[i + i] {
                contiguous_sections.push((start_of_section, i));
                start_of_section = i + 1;
            }
            i = i + 1;
        }
        assert(contiguous_sections@ == sections_of(changed));

        let mut k: usize = 0;
        while k < contiguous_sections.len()
            invariant
                contiguous_sections@ == sections_of(changed),
                changed_indices@ == changed,
                changed.len() <= 1,
                forall|j: int| 0 <= j < changed.len() ==> changed[j] < WORLD_LEN,
                self.world_data@ == after,
                after.len() == WORLD_LEN,
                k <= contiguous_sections.len(),
                changed_bytes@.len() == k,
                forall|j: int|
                    #![trigger changed_bytes@[j]]
                    0 <= j < k ==> changed_bytes@[j]@ == runs_of(after, changed, sections_of(changed))[j],
            decreases contiguous_sections.len() - k,
        {
            let (start, end) = contiguous_sections[k];
            let index_start = changed_indices[start];
            let index_end = changed_indices[end];
            let bytes = copy_cells(&self.world_data, index_start, index_end);
            changed_bytes.push(bytes);
            k = k + 1;
        }
        let r = DiffReport { contiguous_sections, changed_indices, changed_bytes };
        assert(r.runs() =~= runs_of(after, changed, sections_of(changed)));
        r
    }
}

impl DiffReport {
    /// The changed positions, in ascending order.
    pub closed spec fn indices(&self) -> Seq<usize> {
        self.changed_indices@
    }

    /// The sections, each a pair of indices into the changed positions.
    pub closed spec fn sections(&self) -> Seq<(usize, usize)> {
        self.contiguous_sections@
    }

    /// The cells each section spans.
    pub closed spec fn runs(&self) -> Seq<Seq<u16>> {
        self.changed_bytes@.map_values(|v: Vec<u16>| v@)
    }

    /// There is a run for each section, and each section starts at a changed position.
    pub open spec fn wf(&self) -> bool {
        &&& self.runs().len() == self.sections().len()
        &&& forall|k: int| 0 <= k < self.sections().len() ==> #[trigger] self.sections()[k].0 < self.indices().len()
    }

    /// One packet per section: it starts at the section's first changed position and
    /// carries the cells the section spans.
    pub fn as_packets(&self) -> (r: Vec<Packet>)
        requires
            self.wf(),
        ensures
            r@.len() == self.sections().len(),
            forall|k: int|
                #![trigger r@[k]]
                0 <= k < r@.len() ==> r@[k].spec_address() == self.indices()[self.sections()[k].0 as int]
                    && r@[k].spec_bytes() == self.runs()[k] && r@[k].spec_length() == self.runs()[k].len(),
    {
        let mut packets: Vec<Packet> = Vec::new();
        let mut id: usize = 0;
        while id < self.contiguous_sections.len()
            invariant
                self.wf(),
                id <= self.sections().len(),
                packets@.len() == id,
                forall|k: int|
                    #![trigger packets@[k]]
                    0 <= k < id ==> packets@[k].spec_address() == self.indices()[self.sections()[k].0 as int]
                        && packets@[k].spec_bytes() == self.runs()[k] && packets@[k].spec_length()
                        == self.runs()[k].len(),
            decreases self.sections().len() - id,
        {
            let section = self.contiguous_sections[id];
            assert(self.sections()[id as int].0 < self.indices().len());
            let bytes = &self.changed_bytes[id];
            assert(bytes@ == self.runs()[id as int]);
            let copy = bytes.clone();
            assert(copy@ =~= bytes@);
            packets.push(Packet { address: self.changed_indices[section.0], bytes: copy, length: bytes.len() });
            id = id + 1;
        }
        packets
    }

    /// The changed positions, in ascending order.
    pub fn changed_indices(&self) -> (r: &Vec<usize>)
        ensures
            r@ == self.indices(),
    {
        &self.changed_indices
    }

    /// The sections, each a pair of indices into the changed positions.
    pub fn contiguous_sections(&self) -> (r: &Vec<(usize, usize)>)
        ensures
            r@ == self.sections(),
    {
        &self.contiguous_sections
    }

    /// The cells each section spans.
    pub fn changed_bytes(&self) -> (r: &Vec<Vec<u16>>)
        ensures
            r@.map_values(|v: Vec<u16>| v@) == self.runs(),
    {
        &self.changed_bytes
    }
}

impl Packet {
    /// Where the packet's cells start in the world buffer.
    pub closed spec fn spec_address(&self) -> usize {
        self.address
    }

    /// How many cells the packet carries.
    pub closed spec fn spec_length(&self) -> usize {
        self.length
    }

    /// The cells the packet carries.
    pub closed spec fn spec_bytes(&self) -> Seq<u16> {
        self.bytes@
    }

    /// Where the packet's cells start in the world buffer.
    #[verifier::when_used_as_spec(spec_address)]
    pub fn address(&self) -> (r: usize)
        ensures
            r == self.spec_address(),
    {
        self.address
    }

    /// How many cells the packet carries.
    #[verifier::when_used_as_spec(spec_length)]
    pub fn length(&self) -> (r: usize)
        ensures
            r == self.spec_length(),
    {
        self.length
    }

    /// The cells the packet carries.
    pub fn bytes(&self) -> (r: &Vec<u16>)
        ensures
            r@ == self.spec_bytes(),
    {
        &self.bytes
    }
}

} // verus!
